use hush::audio::{OfferedConfig, StreamConfig};
use hush::control::{
    choose_mode, command, handle_request, queued_reply, sent_reply, set_template, status_reply,
    Action, Command, OpenEvent, OpenJob, OpenStep, Req,
};
use hush::modes::{DpskParams, MfskParams, ModeConfig};
use hush::reply::{DeviceEntry, Reply, StatusReport};
use hush::state::Shared;
use hush::text::{joined, request_text};
use hush::upload::Upload;

fn req(cmd: &str) -> Req {
    Req {
        cmd: cmd.to_string(),
        input: None,
        output: None,
        sr: None,
        tone_freq: None,
        path: None,
        mode: None,
        speed: None,
        mfsk_m: None,
        mfsk_center: None,
        mfsk_spacing: None,
        symbol_len_ms: None,
        preamble_repeats: None,
        payload_bits: None,
    }
}

fn answer(shared: &mut Shared, request: Option<Req>) -> String {
    match handle_request(shared, &request, 3) {
        Action::Answer(reply) => reply.into_line(),
        other => panic!("not an answer: {:?}", other),
    }
}

fn hz(f: f32) -> u32 {
    f.to_bits()
}

#[test]
fn lines_are_trimmed() {
    assert_eq!(request_text("{\"cmd\": 1} \t\r\n"), Some("{\"cmd\": 1}".to_string()));
    assert_eq!(request_text("  a"), Some("  a".to_string()));
    assert_eq!(request_text(" \u{2003}\r\n"), None);
    assert_eq!(request_text(""), None);
}

#[test]
fn texts_are_joined() {
    assert_eq!(joined("input open failed: ", "no"), "input open failed: no");
}

#[test]
fn commands_by_name() {
    assert_eq!(command("list_devices"), Command::ListDevices);
    assert_eq!(command("list_modes"), Command::ListModes);
    assert_eq!(command("open"), Command::Open);
    assert_eq!(command("close"), Command::Close);
    assert_eq!(command("status"), Command::Status);
    assert_eq!(command("start_tx"), Command::StartTx);
    assert_eq!(command("stop_tx"), Command::StopTx);
    assert_eq!(command("enqueue_wav"), Command::EnqueueWav);
    assert_eq!(command("send_frame"), Command::SendFrame);
    assert_eq!(command("Open"), Command::Unknown);
    assert_eq!(command(""), Command::Unknown);
}

#[test]
fn refusals_give_a_reason() {
    let mut shared = Shared::new();
    shared.running = true;
    assert_eq!(answer(&mut shared, None), "{\"error\":\"invalid json\",\"ok\":false}");
    assert_eq!(answer(&mut shared, Some(req("dance"))), "{\"error\":\"unknown command\",\"ok\":false}");
    assert_eq!(answer(&mut shared, Some(req("enqueue_wav"))), "{\"error\":\"missing path\",\"ok\":false}");
    assert!(shared.running);
}

#[test]
fn modes_are_listed() {
    let mut shared = Shared::new();
    assert_eq!(
        answer(&mut shared, Some(req("list_modes"))),
        "{\"modes\":[\"FAST\",\"MEDIUM\",\"QRP\",\"QRP_ULTRA\",\"SLOW\",\"TURBO\"],\"ok\":true}"
    );
}

#[test]
fn devices_are_listed() {
    let devices = vec![
        DeviceEntry { name: "a \"b\"".to_string(), has_input: true, has_output: false },
        DeviceEntry { name: "c".to_string(), has_input: false, has_output: true },
    ];
    assert_eq!(
        Reply::Devices(devices).into_line(),
        "{\"devices\":[{\"has_input\":true,\"has_output\":false,\"id\":0,\"name\":\"a \\\"b\\\"\"},\
         {\"has_input\":false,\"has_output\":true,\"id\":1,\"name\":\"c\"}],\"ok\":true}"
    );
}

#[test]
fn other_answers() {
    assert_eq!(Reply::Done.into_line(), "{\"ok\":true}");
    assert_eq!(Reply::Queued(12).into_line(), "{\"ok\":true,\"pushed\":12}");
    assert_eq!(Reply::failed("x\ny").into_line(), "{\"error\":\"x\\ny\",\"ok\":false}");
    let status = StatusReport {
        running: true,
        last_rms: serde_json::Value::from(0.5f32),
        tx_enabled: false,
        tx_freq: serde_json::Value::from(600.0f32),
        current_mode: "None".to_string(),
    };
    assert_eq!(
        Reply::Status(status).into_line(),
        "{\"current_mode\":\"None\",\"last_rms\":0.5,\"ok\":true,\"running\":true,\
         \"tx_enabled\":false,\"tx_freq\":600.0}"
    );
    assert_eq!(
        sent_reply(&Upload::new(vec![1, 2, 3])).into_line(),
        "{\"ok\":true,\"pushed\":0,\"samples\":3}"
    );
}

#[test]
fn answers_say_whether_it_was_done() {
    for reply in [Reply::Done, Reply::Queued(1), Reply::Sent { pushed: 1, samples: 1 }] {
        let value: serde_json::Value = serde_json::from_str(&reply.into_line()).unwrap();
        assert_eq!(value["ok"], serde_json::Value::from(true));
    }
    let value: serde_json::Value = serde_json::from_str(&Reply::failed("no").into_line()).unwrap();
    assert_eq!(value["ok"], serde_json::Value::from(false));
    assert_eq!(value["error"], serde_json::Value::from("no"));
}

#[test]
fn idle_tone_goes_on_and_off() {
    let mut shared = Shared::new();
    let mut start = req("start_tx");
    start.tone_freq = Some(hz(440.0));
    assert_eq!(answer(&mut shared, Some(start)), "{\"ok\":true}");
    assert!(shared.tx_enabled);
    assert_eq!(shared.tx_freq_hz, hz(440.0));
    assert_eq!(answer(&mut shared, Some(req("start_tx"))), "{\"ok\":true}");
    assert_eq!(shared.tx_freq_hz, hz(440.0));
    assert_eq!(answer(&mut shared, Some(req("stop_tx"))), "{\"ok\":true}");
    assert!(!shared.tx_enabled);
    assert_eq!(shared.tx_freq_hz, hz(440.0));
}

#[test]
fn open_and_close_stop_the_station() {
    let mut shared = Shared::new();
    shared.running = true;
    let mut open = req("open");
    open.input = Some(2);
    open.output = Some(3);
    match handle_request(&mut shared, &Some(open), 3) {
        Action::Open(job) => {
            assert_eq!(job, OpenJob { input: Some(2), output: None, sample_rate: 48000 })
        }
        other => panic!("not an opening: {:?}", other),
    }
    assert!(!shared.running);
    let mut open = req("open");
    open.sr = Some(8000);
    match handle_request(&mut shared, &Some(open), 3) {
        Action::Open(job) => {
            assert_eq!(job, OpenJob { input: None, output: None, sample_rate: 8000 })
        }
        other => panic!("not an opening: {:?}", other),
    }
    assert_eq!(shared.sample_rate, 8000);
    shared.running = true;
    match handle_request(&mut shared, &Some(req("close")), 3) {
        Action::Close(reply) => assert_eq!(reply.into_line(), "{\"ok\":true}"),
        other => panic!("not a closing: {:?}", other),
    }
    assert!(!shared.running);
}

#[test]
fn devices_and_status_are_reported() {
    let mut shared = Shared::new();
    assert!(matches!(handle_request(&mut shared, &Some(req("list_devices")), 1), Action::ListDevices));
    assert!(matches!(handle_request(&mut shared, &Some(req("status")), 1), Action::ReportStatus));
}

#[test]
fn recordings_are_queued() {
    let mut shared = Shared::new();
    let mut wav = req("enqueue_wav");
    wav.path = Some("tone.wav".to_string());
    match handle_request(&mut shared, &Some(wav), 1) {
        Action::EnqueueWav(path) => assert_eq!(path, "tone.wav"),
        other => panic!("not a recording: {:?}", other),
    }
}

#[test]
fn frames_are_sent() {
    let mut shared = Shared::new();
    shared.sample_rate = 8000;
    match handle_request(&mut shared, &Some(req("send_frame")), 1) {
        Action::Send(job) => {
            assert_eq!(job.payload, "101100111000");
            assert_eq!(job.sample_rate, 8000);
            assert_eq!(Some(job.mode), shared.current_mode);
        }
        other => panic!("not a frame: {:?}", other),
    }
    let mut frame = req("send_frame");
    frame.payload_bits = Some("01".to_string());
    frame.mode = Some("dpsk".to_string());
    match handle_request(&mut shared, &Some(frame), 1) {
        Action::Send(job) => assert_eq!(job.payload, "01"),
        other => panic!("not a frame: {:?}", other),
    }
    assert!(matches!(shared.current_mode, Some(ModeConfig::Dpsk(_))));
}

#[test]
fn default_modes() {
    let default = MfskParams {
        m: 4,
        center: hz(1500.0),
        spacing: hz(200.0),
        symbol_len_ms: 80,
        preamble_repeats: 3,
    };
    assert_eq!(choose_mode(&req("send_frame")), ModeConfig::Mfsk(default));
    let mut asked = req("send_frame");
    asked.speed = Some("WARP".to_string());
    assert_eq!(choose_mode(&asked), ModeConfig::Mfsk(default));
    asked.mode = Some("ofdm".to_string());
    asked.speed = Some("FAST".to_string());
    assert_eq!(choose_mode(&asked), ModeConfig::Mfsk(default));
    asked.mode = Some("dpsk".to_string());
    assert_eq!(
        choose_mode(&asked),
        ModeConfig::Dpsk(DpskParams { center: hz(1500.0), symbol_len_ms: 80, preamble_repeats: 3 })
    );
}

#[test]
fn presets_can_be_overridden() {
    let mut asked = req("send_frame");
    asked.mode = Some("mfsk".to_string());
    asked.speed = Some("MEDIUM".to_string());
    asked.mfsk_spacing = Some(hz(25.0));
    asked.preamble_repeats = Some(9);
    assert_eq!(
        choose_mode(&asked),
        ModeConfig::Mfsk(MfskParams {
            m: 16,
            center: hz(1000.0),
            spacing: hz(25.0),
            symbol_len_ms: 60,
            preamble_repeats: 9,
        })
    );
    asked.mode = Some("dpsk".to_string());
    asked.mfsk_center = Some(hz(800.0));
    asked.symbol_len_ms = Some(11);
    assert_eq!(
        choose_mode(&asked),
        ModeConfig::Dpsk(DpskParams { center: hz(800.0), symbol_len_ms: 11, preamble_repeats: 9 })
    );
}

fn probed(default: Option<u16>) -> OpenEvent {
    OpenEvent::Probed(default, vec![OfferedConfig { channels: 5, single_precision: true }])
}

#[test]
fn both_streams_open_one_after_the_other() {
    let mut shared = Shared::new();
    let job = OpenJob { input: Some(1), output: Some(0), sample_rate: 8000 };
    let step = job.start();
    assert!(matches!(step, OpenStep::ProbeInput(1)));
    let step = job.advance(step, probed(Some(2)), &mut shared);
    assert!(matches!(step, OpenStep::BuildInput(1, StreamConfig { channels: 2, sample_rate: 8000 })));
    let step = job.advance(step, OpenEvent::Built, &mut shared);
    assert!(matches!(step, OpenStep::ProbeOutput(0)));
    let step = job.advance(step, probed(None), &mut shared);
    assert!(matches!(step, OpenStep::BuildOutput(0, StreamConfig { channels: 5, sample_rate: 8000 })));
    let step = job.advance(step, OpenEvent::Built, &mut shared);
    assert!(matches!(step, OpenStep::Play));
    assert!(!shared.running);
    match job.advance(step, OpenEvent::Played, &mut shared) {
        OpenStep::Finished(reply) => assert_eq!(reply.into_line(), "{\"ok\":true}"),
        other => panic!("not finished: {:?}", other),
    }
    assert!(shared.running);
}

#[test]
fn opening_nothing_just_plays() {
    let job = OpenJob { input: None, output: None, sample_rate: 8000 };
    assert!(matches!(job.start(), OpenStep::Play));
    let job = OpenJob { input: None, output: Some(4), sample_rate: 8000 };
    assert!(matches!(job.start(), OpenStep::ProbeOutput(4)));
}

fn failure(step: OpenStep) -> String {
    match step {
        OpenStep::Finished(reply) => reply.into_line(),
        other => panic!("not finished: {:?}", other),
    }
}

#[test]
fn failed_openings_give_a_reason() {
    let mut shared = Shared::new();
    let job = OpenJob { input: Some(1), output: Some(0), sample_rate: 8000 };
    let config = StreamConfig { channels: 1, sample_rate: 8000 };
    let nothing = || OpenEvent::Probed(None, Vec::new());
    let broken = || OpenEvent::BuildFailed("gone".to_string());
    assert_eq!(
        failure(job.advance(OpenStep::ProbeInput(1), nothing(), &mut shared)),
        "{\"error\":\"no suitable input config for device\",\"ok\":false}"
    );
    assert_eq!(
        failure(job.advance(OpenStep::BuildInput(1, config), broken(), &mut shared)),
        "{\"error\":\"input open failed: gone\",\"ok\":false}"
    );
    assert_eq!(
        failure(job.advance(OpenStep::ProbeOutput(0), nothing(), &mut shared)),
        "{\"error\":\"no suitable output config for device\",\"ok\":false}"
    );
    assert_eq!(
        failure(job.advance(OpenStep::BuildOutput(0, config), broken(), &mut shared)),
        "{\"error\":\"output open failed: gone\",\"ok\":false}"
    );
    assert!(!shared.running);
}

#[test]
fn requests_leave_the_queues_alone() {
    let mut shared = Shared::new();
    shared.tx.push_from(&vec![1, 2], 0);
    shared.rx.push_from(&vec![3], 0);
    shared.last_detection = Some(7);
    for cmd in ["open", "close", "start_tx", "stop_tx", "send_frame", "status", "dance"] {
        let _ = handle_request(&mut shared, &Some(req(cmd)), 1);
        assert!(!shared.running);
    }
    assert_eq!(shared.tx.take_up_to(5), vec![1, 2]);
    assert_eq!(shared.rx.take_up_to(5), vec![3]);
    assert_eq!(shared.last_detection, Some(7));
}

#[test]
fn preset_alone() {
    let mut asked = req("send_frame");
    asked.speed = Some("TURBO".to_string());
    assert_eq!(choose_mode(&asked), ModeConfig::Mfsk(hush::modes::preset("TURBO").unwrap()));
}

#[test]
fn state_is_reported() {
    let mut shared = Shared::new();
    shared.tx_enabled = true;
    let number = |f: f32| serde_json::Value::from(f);
    assert_eq!(
        status_reply(&shared, number(0.25), number(440.0), "x".to_string()).into_line(),
        "{\"current_mode\":\"x\",\"last_rms\":0.25,\"ok\":true,\"running\":false,\
         \"tx_enabled\":true,\"tx_freq\":440.0}"
    );
}

#[test]
fn queued_recording_is_counted() {
    let mut fifo = hush::fifo::Fifo::new(2);
    let mut upload = Upload::new(vec![1, 2, 3]);
    upload.step(&mut fifo);
    assert_eq!(queued_reply(&upload).into_line(), "{\"ok\":true,\"pushed\":2}");
    assert_eq!(sent_reply(&upload).into_line(), "{\"ok\":true,\"pushed\":2,\"samples\":3}");
}

#[test]
fn template_to_look_for_is_stored() {
    let mut shared = Shared::new();
    set_template(&mut shared, vec![1, 2, 3]);
    assert_eq!(shared.preamble_template, Some(vec![1, 2, 3]));
    set_template(&mut shared, vec![4, 5, 6]);
    assert_eq!(shared.preamble_template, Some(vec![4, 5, 6]));
    assert!(!shared.running);
    assert_eq!(shared.current_mode, None);
}

fn open(shared: &mut Shared, works: bool) {
    let mut asked = req("open");
    asked.input = Some(0);
    let job = match handle_request(shared, &Some(asked), 1) {
        Action::Open(job) => job,
        other => panic!("not an opening: {:?}", other),
    };
    assert!(!shared.running);
    let step = job.advance(job.start(), probed(Some(2)), shared);
    let built =
        if works { OpenEvent::Built } else { OpenEvent::BuildFailed("in use".to_string()) };
    let step = job.advance(step, built, shared);
    if works {
        let step = job.advance(step, OpenEvent::Played, shared);
        assert!(matches!(step, OpenStep::Finished(Reply::Done)));
    } else {
        assert!(matches!(step, OpenStep::Finished(Reply::Failed(_))));
    }
}

#[test]
fn station_runs_after_the_last_opening() {
    let mut shared = Shared::new();
    assert!(!shared.running);
    open(&mut shared, false);
    assert!(!shared.running);
    open(&mut shared, true);
    assert!(shared.running);
    for cmd in ["status", "start_tx", "stop_tx", "send_frame", "enqueue_wav", "list_modes", "x"] {
        handle_request(&mut shared, &Some(req(cmd)), 1);
        assert!(shared.running);
    }
    handle_request(&mut shared, &None, 1);
    assert!(shared.running);
    open(&mut shared, false);
    assert!(!shared.running);
    open(&mut shared, true);
    handle_request(&mut shared, &Some(req("close")), 1);
    assert!(!shared.running);
    handle_request(&mut shared, &Some(req("start_tx")), 1);
    assert!(!shared.running);
}

#[test]
fn white_space_is_that_of_unicode() {
    let listed = |c: char| {
        matches!(
            c as u32,
            0x9..=0xd | 0x20 | 0x85 | 0xa0 | 0x1680 | 0x2000..=0x200a | 0x2028 | 0x2029 | 0x202f
                | 0x205f | 0x3000
        )
    };
    for c in '\0'..=char::MAX {
        assert_eq!(request_text(&c.to_string()).is_none(), listed(c), "{:?}", c);
    }
}

#[test]
fn answers_are_single_lines() {
    let line = Reply::Failed("one\ntwo\r\nthree".to_string()).into_line();
    assert_eq!(line, "{\"error\":\"one\\ntwo\\r\\nthree\",\"ok\":false}");
    assert!(!line.contains('\n'));
}
