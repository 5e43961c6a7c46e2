//! Requests: what a client can ask, and what the station does about it.
//!
//! A request is carried out in steps. The station decides, the caller drives the
//! sound devices and the connection, and tells what came of it.
use crate::audio::{pick_config, pick_config_spec, OfferedConfig, StreamConfig};
use crate::json::Json;
use crate::modes::{
    default_mfsk, default_mfsk_spec, mode_names, preset, preset_spec, preset_table, DpskParams,
    MfskParams, ModeConfig, HZ_1500,
};
use crate::reply::{
    done_json, failed_json, modes_json, queued_json, says_ok, sent_json, status_json, Reply,
    StatusReport,
};
use crate::state::{Shared, DEFAULT_SR};
use crate::text::{joined, same_text};
use crate::upload::Upload;
use vstd::prelude::*;

verus! {

/// A request as a client writes it. All but the command may be left out.
#[derive(Debug)]
pub struct Req {
    /// What to do.
    pub cmd: String,
    /// The device to record from, by its place in the list.
    pub input: Option<usize>,
    /// The device to play on, by its place in the list.
    pub output: Option<usize>,
    /// The sample rate.
    pub sr: Option<u32>,
    /// The frequency of the idle tone.
    pub tone_freq: Option<u32>,
    /// The file of a recording.
    pub path: Option<String>,
    /// The kind of mode.
    pub mode: Option<String>,
    /// The name of a preset.
    pub speed: Option<String>,
    /// How many tones there are.
    pub mfsk_m: Option<usize>,
    /// The middle of the tones, or the carrier.
    pub mfsk_center: Option<u32>,
    /// The distance between tones.
    pub mfsk_spacing: Option<u32>,
    /// How long a symbol lasts, in milliseconds.
    pub symbol_len_ms: Option<u32>,
    /// How many symbols the preamble has.
    pub preamble_repeats: Option<u32>,
    /// The bits to send.
    pub payload_bits: Option<String>,
}

/// The commands.
#[derive(Clone, Copy, Debug, PartialEq, Eq, Structural)]
pub enum Command {
    /// List the sound devices.
    ListDevices,
    /// List the presets.
    ListModes,
    /// Open streams.
    Open,
    /// Close the streams.
    Close,
    /// Report the state.
    Status,
    /// Switch the idle tone on.
    StartTx,
    /// Switch the idle tone off.
    StopTx,
    /// Send a recording.
    EnqueueWav,
    /// Send a frame.
    SendFrame,
    /// None of these.
    Unknown,
}

/// The command of a name.
pub open spec fn command_spec(name: Seq<char>) -> Command {
    if name == "list_devices"@ {
        Command::ListDevices
    } else if name == "list_modes"@ {
        Command::ListModes
    } else if name == "open"@ {
        Command::Open
    } else if name == "close"@ {
        Command::Close
    } else if name == "status"@ {
        Command::Status
    } else if name == "start_tx"@ {
        Command::StartTx
    } else if name == "stop_tx"@ {
        Command::StopTx
    } else if name == "enqueue_wav"@ {
        Command::EnqueueWav
    } else if name == "send_frame"@ {
        Command::SendFrame
    } else {
        Command::Unknown
    }
}

/// The command of a name.
pub fn command(name: &str) -> (command: Command)
    ensures
        command == command_spec(name@),
{
    if same_text(name, "list_devices") {
        Command::ListDevices
    } else if same_text(name, "list_modes") {
        Command::ListModes
    } else if same_text(name, "open") {
        Command::Open
    } else if same_text(name, "close") {
        Command::Close
    } else if same_text(name, "status") {
        Command::Status
    } else if same_text(name, "start_tx") {
        Command::StartTx
    } else if same_text(name, "stop_tx") {
        Command::StopTx
    } else if same_text(name, "enqueue_wav") {
        Command::EnqueueWav
    } else if same_text(name, "send_frame") {
        Command::SendFrame
    } else {
        Command::Unknown
    }
}

// ---------------------------------------------------------------------------
// The mode of a frame
// ---------------------------------------------------------------------------

/// What was asked for, or else the value given.
pub open spec fn or_else<T>(asked: Option<T>, otherwise: T) -> T {
    match asked {
        Some(value) => value,
        None => otherwise,
    }
}

/// The parameters with everything replaced that the request names.
pub open spec fn overridden(base: MfskParams, req: Req) -> MfskParams {
    MfskParams {
        m: or_else(req.mfsk_m, base.m),
        center: or_else(req.mfsk_center, base.center),
        spacing: or_else(req.mfsk_spacing, base.spacing),
        symbol_len_ms: or_else(req.symbol_len_ms, base.symbol_len_ms),
        preamble_repeats: or_else(req.preamble_repeats, base.preamble_repeats),
    }
}

/// The parameters that a request starts from: those of the preset it names where
/// it asks for frequency shift keying and the preset exists, else the default.
pub open spec fn base_params(mode: Seq<char>, speed: Option<String>) -> MfskParams {
    match speed {
        Some(name) if mode == "mfsk"@ => or_else(preset_spec(name@), default_mfsk_spec()),
        _ => default_mfsk_spec(),
    }
}

/// The kind of mode that a request names; frequency shift keying where it names
/// none.
pub open spec fn mode_name(req: Req) -> Seq<char> {
    match req.mode {
        Some(name) => name@,
        None => "mfsk"@,
    }
}

/// The mode that a request asks for. An unknown kind is taken for frequency shift
/// keying, without presets.
pub open spec fn mode_spec(req: Req) -> ModeConfig {
    if mode_name(req) == "dpsk"@ {
        ModeConfig::Dpsk(
            DpskParams {
                center: or_else(req.mfsk_center, HZ_1500),
                symbol_len_ms: or_else(req.symbol_len_ms, 80),
                preamble_repeats: or_else(req.preamble_repeats, 3),
            },
        )
    } else {
        ModeConfig::Mfsk(overridden(base_params(mode_name(req), req.speed), req))
    }
}

/// The payload that a request asks to send.
pub open spec fn payload_spec(req: Req) -> Seq<char> {
    match req.payload_bits {
        Some(bits) => bits@,
        None => "101100111000"@,
    }
}

/// The mode that a request asks for.
pub fn choose_mode(req: &Req) -> (mode: ModeConfig)
    ensures
        mode == mode_spec(*req),
{
    let is_mfsk = match &req.mode {
        Some(name) => same_text(name.as_str(), "mfsk"),
        None => true,
    };
    let is_dpsk = match &req.mode {
        Some(name) => same_text(name.as_str(), "dpsk"),
        None => false,
    };
    if is_dpsk {
        proof {
            lemma_mode_names_differ();
        }
        return ModeConfig::Dpsk(
            DpskParams {
                center: req.mfsk_center.unwrap_or(HZ_1500),
                symbol_len_ms: req.symbol_len_ms.unwrap_or(80),
                preamble_repeats: req.preamble_repeats.unwrap_or(3),
            },
        );
    }
    proof {
        lemma_mode_names_differ();
    }
    let base = match &req.speed {
        Some(name) if is_mfsk => match preset(name.as_str()) {
            Some(params) => params,
            None => default_mfsk(),
        },
        _ => default_mfsk(),
    };
    ModeConfig::Mfsk(
        MfskParams {
            m: req.mfsk_m.unwrap_or(base.m),
            center: req.mfsk_center.unwrap_or(base.center),
            spacing: req.mfsk_spacing.unwrap_or(base.spacing),
            symbol_len_ms: req.symbol_len_ms.unwrap_or(base.symbol_len_ms),
            preamble_repeats: req.preamble_repeats.unwrap_or(base.preamble_repeats),
        },
    )
}

proof fn lemma_mode_names_differ()
    ensures
        "mfsk"@ != "dpsk"@,
{
    reveal_strlit("mfsk");
    reveal_strlit("dpsk");
    assert("mfsk"@[0] != "dpsk"@[0]);
}

/// The payload that a request asks to send.
fn choose_payload(req: &Req) -> (payload: String)
    ensures
        payload@ == payload_spec(*req),
{
    match &req.payload_bits {
        Some(bits) => bits.clone(),
        None => "101100111000".to_owned(),
    }
}

// ---------------------------------------------------------------------------
// Requests
// ---------------------------------------------------------------------------

/// The streams to open.
#[derive(Clone, Copy, Debug, PartialEq, Eq, Structural)]
pub struct OpenJob {
    /// The device to record from, if any.
    pub input: Option<usize>,
    /// The device to play on, if any.
    pub output: Option<usize>,
    /// The sample rate.
    pub sample_rate: u32,
}

/// The frame to send.
#[derive(Debug)]
pub struct FrameJob {
    /// The mode.
    pub mode: ModeConfig,
    /// The payload.
    pub payload: String,
    /// The sample rate.
    pub sample_rate: u32,
}

/// What is to be done about a request.
#[derive(Debug)]
pub enum Action {
    /// Answer it.
    Answer(Reply),
    /// Answer with the list of devices.
    ListDevices,
    /// Drop the streams that are open, then open these.
    Open(OpenJob),
    /// Drop the streams that are open, and answer.
    Close(Reply),
    /// Answer with the state of the station.
    ReportStatus,
    /// Queue this recording.
    EnqueueWav(String),
    /// Queue this frame.
    Send(FrameJob),
}

/// What an [`Action`] is about.
pub enum ActionModel {
    /// Answer it.
    Answer(Json),
    /// Answer with the list of devices.
    ListDevices,
    /// Open streams.
    Open(OpenJob),
    /// Close the streams, and answer.
    Close(Json),
    /// Answer with the state of the station.
    ReportStatus,
    /// Queue a recording.
    EnqueueWav(Seq<char>),
    /// Queue a frame: its mode, its payload, the sample rate.
    Send(ModeConfig, Seq<char>, u32),
}

impl View for Action {
    type V = ActionModel;

    open spec fn view(&self) -> ActionModel {
        match self {
            Action::Answer(reply) => ActionModel::Answer(reply@),
            Action::ListDevices => ActionModel::ListDevices,
            Action::Open(job) => ActionModel::Open(*job),
            Action::Close(reply) => ActionModel::Close(reply@),
            Action::ReportStatus => ActionModel::ReportStatus,
            Action::EnqueueWav(path) => ActionModel::EnqueueWav(path@),
            Action::Send(job) => ActionModel::Send(job.mode, job.payload@, job.sample_rate),
        }
    }
}

/// A device that is asked for, if there is one at that place in the list.
pub open spec fn listed(asked: Option<usize>, devices: usize) -> Option<usize> {
    match asked {
        Some(place) if place < devices => Some(place),
        _ => None,
    }
}

/// The state after a request was looked at, `None` being one that could not be
/// understood.
pub open spec fn state_after(shared: Shared, request: Option<Req>) -> Shared {
    match request {
        None => shared,
        Some(req) => match command_spec(req.cmd@) {
            Command::Open => Shared {
                running: false,
                sample_rate: or_else(req.sr, DEFAULT_SR),
                ..shared
            },
            Command::Close => Shared { running: false, ..shared },
            Command::StartTx => Shared {
                tx_enabled: true,
                tx_freq_hz: or_else(req.tone_freq, shared.tx_freq_hz),
                ..shared
            },
            Command::StopTx => Shared { tx_enabled: false, ..shared },
            Command::SendFrame => Shared { current_mode: Some(mode_spec(req)), ..shared },
            _ => shared,
        },
    }
}

/// What is to be done about a request.
pub open spec fn action_for(
    shared: Shared,
    request: Option<Req>,
    devices: usize,
) -> ActionModel {
    match request {
        None => ActionModel::Answer(failed_json("invalid json"@)),
        Some(req) => match command_spec(req.cmd@) {
            Command::ListDevices => ActionModel::ListDevices,
            Command::ListModes => ActionModel::Answer(
                modes_json(preset_table().map_values(|entry: (Seq<char>, MfskParams)| entry.0)),
            ),
            Command::Open => ActionModel::Open(
                OpenJob {
                    input: listed(req.input, devices),
                    output: listed(req.output, devices),
                    sample_rate: or_else(req.sr, DEFAULT_SR),
                },
            ),
            Command::Close => ActionModel::Close(done_json()),
            Command::Status => ActionModel::ReportStatus,
            Command::StartTx => ActionModel::Answer(done_json()),
            Command::StopTx => ActionModel::Answer(done_json()),
            Command::EnqueueWav => match req.path {
                Some(path) => ActionModel::EnqueueWav(path@),
                None => ActionModel::Answer(failed_json("missing path"@)),
            },
            Command::SendFrame => ActionModel::Send(
                mode_spec(req),
                payload_spec(req),
                shared.sample_rate,
            ),
            Command::Unknown => ActionModel::Answer(failed_json("unknown command"@)),
        },
    }
}

fn choose_device(asked: Option<usize>, devices: usize) -> (device: Option<usize>)
    ensures
        device == listed(asked, devices),
{
    match asked {
        Some(place) if place < devices => Some(place),
        _ => None,
    }
}

/// Decides what to do about a request, `None` being one that could not be
/// understood, with `devices` sound devices in the list.
pub fn handle_request(
    shared: &mut Shared,
    request: &Option<Req>,
    devices: usize,
) -> (action: Action)
    ensures
        *final(shared) == state_after(*old(shared), *request),
        action@ == action_for(*old(shared), *request, devices),
        request matches Some(req) ==> (req.cmd@ == "send_frame"@ ==> (action matches Action::Send(
            job,
        ) && {
            &&& req.payload_bits matches Some(bits) ==> job.payload@ == bits@
            &&& req.payload_bits is None ==> job.payload@ == "101100111000"@
            &&& job.sample_rate == old(shared).sample_rate
            &&& final(shared).current_mode == Some(job.mode)
        })),
        request matches Some(req) ==> (req.cmd@ == "open"@ ==> (action matches Action::Open(job)
            && {
            &&& req.input is Some && req.input->0 < devices ==> job.input == req.input
            &&& req.output is Some && req.output->0 < devices ==> job.output == req.output
            &&& req.input is None || req.input->0 >= devices ==> job.input is None
            &&& req.output is None || req.output->0 >= devices ==> job.output is None
            &&& job.sample_rate == req.sr.unwrap_or(48000)
            &&& final(shared).sample_rate == job.sample_rate
            &&& !final(shared).running
        })),
{
    proof {
        if let Some(req) = request {
            law_command_names(req.cmd@);
        }
    }
    let req = match request {
        Some(req) => req,
        None => {
            return Action::Answer(Reply::failed("invalid json"));
        },
    };
    match command(req.cmd.as_str()) {
        Command::ListDevices => Action::ListDevices,
        Command::ListModes => {
            let names = mode_names();
            proof {
                assert(names@.map_values(|name: String| name@) =~= preset_table().map_values(
                    |entry: (Seq<char>, MfskParams)| entry.0,
                ));
            }
            Action::Answer(Reply::Modes(names))
        },
        Command::Open => {
            let sample_rate: u32 = req.sr.unwrap_or(DEFAULT_SR);
            shared.running = false;
            shared.sample_rate = sample_rate;
            Action::Open(
                OpenJob {
                    input: choose_device(req.input, devices),
                    output: choose_device(req.output, devices),
                    sample_rate,
                },
            )
        },
        Command::Close => {
            shared.running = false;
            Action::Close(Reply::Done)
        },
        Command::Status => Action::ReportStatus,
        Command::StartTx => {
            if let Some(freq) = req.tone_freq {
                shared.tx_freq_hz = freq;
            }
            shared.tx_enabled = true;
            Action::Answer(Reply::Done)
        },
        Command::StopTx => {
            shared.tx_enabled = false;
            Action::Answer(Reply::Done)
        },
        Command::EnqueueWav => match &req.path {
            Some(path) => Action::EnqueueWav(path.clone()),
            None => Action::Answer(Reply::failed("missing path")),
        },
        Command::SendFrame => {
            let mode = choose_mode(req);
            shared.current_mode = Some(mode);
            Action::Send(
                FrameJob { mode, payload: choose_payload(req), sample_rate: shared.sample_rate },
            )
        },
        Command::Unknown => Action::Answer(Reply::failed("unknown command")),
    }
}

/// Makes a rendered template the preamble to look for.
pub fn set_template(shared: &mut Shared, template: Vec<u32>)
    ensures
        *final(shared) == (Shared { preamble_template: Some(template), ..*old(shared) }),
{
    shared.preamble_template = Some(template);
}

/// The answer that reports the state of the station. The measured numbers and the
/// description of the mode are given as they are to be written.
pub fn status_reply(
    shared: &Shared,
    last_rms: serde_json::Value,
    tx_freq: serde_json::Value,
    current_mode: String,
) -> (reply: Reply)
    ensures
        reply@ == status_json(
            StatusReport {
                running: shared.running,
                last_rms,
                tx_enabled: shared.tx_enabled,
                tx_freq,
                current_mode,
            },
        ),
{
    Reply::Status(
        StatusReport {
            running: shared.running,
            last_rms,
            tx_enabled: shared.tx_enabled,
            tx_freq,
            current_mode,
        },
    )
}

/// The answer once a recording is queued.
pub fn queued_reply(upload: &Upload) -> (reply: Reply)
    ensures
        reply@ == queued_json(upload.queued() as int),
{
    Reply::Queued(upload.pushed())
}

/// The answer once a frame is queued.
pub fn sent_reply(upload: &Upload) -> (reply: Reply)
    ensures
        reply@ == sent_json(upload.queued() as int, upload.all().len() as int),
{
    Reply::Sent { pushed: upload.pushed(), samples: upload.total() }
}

// ---------------------------------------------------------------------------
// Opening streams
// ---------------------------------------------------------------------------

/// Where the opening of streams stands.
#[derive(Debug)]
pub enum OpenStep {
    /// Find out what this device can record.
    ProbeInput(usize),
    /// Open this device for recording.
    BuildInput(usize, StreamConfig),
    /// Find out what this device can play.
    ProbeOutput(usize),
    /// Open this device for playing.
    BuildOutput(usize, StreamConfig),
    /// Start the streams.
    Play,
    /// Answer.
    Finished(Reply),
}

/// What came of a step.
#[derive(Debug)]
pub enum OpenEvent {
    /// What the device offers: the channels of its default configuration, where
    /// it has one, and the configurations it supports.
    Probed(Option<u16>, Vec<OfferedConfig>),
    /// The stream is open.
    Built,
    /// The stream could not be opened, and why.
    BuildFailed(String),
    /// The streams are started.
    Played,
}

/// What an [`OpenStep`] is about.
pub enum StepModel {
    /// Find out what a device can record.
    ProbeInput(usize),
    /// Open a device for recording.
    BuildInput(usize, StreamConfig),
    /// Find out what a device can play.
    ProbeOutput(usize),
    /// Open a device for playing.
    BuildOutput(usize, StreamConfig),
    /// Start the streams.
    Play,
    /// Answer.
    Finished(Json),
}

impl View for OpenStep {
    type V = StepModel;

    open spec fn view(&self) -> StepModel {
        match self {
            OpenStep::ProbeInput(device) => StepModel::ProbeInput(*device),
            OpenStep::BuildInput(device, config) => StepModel::BuildInput(*device, *config),
            OpenStep::ProbeOutput(device) => StepModel::ProbeOutput(*device),
            OpenStep::BuildOutput(device, config) => StepModel::BuildOutput(*device, *config),
            OpenStep::Play => StepModel::Play,
            OpenStep::Finished(reply) => StepModel::Finished(reply@),
        }
    }
}

/// Whether an event can be what came of a step.
pub open spec fn fits(step: StepModel, event: OpenEvent) -> bool {
    match step {
        StepModel::ProbeInput(_) => event is Probed,
        StepModel::BuildInput(_, _) => event is Built || event is BuildFailed,
        StepModel::ProbeOutput(_) => event is Probed,
        StepModel::BuildOutput(_, _) => event is Built || event is BuildFailed,
        StepModel::Play => event is Played,
        StepModel::Finished(_) => false,
    }
}

/// The step once the recording side is settled.
pub open spec fn output_step(job: OpenJob) -> StepModel {
    match job.output {
        Some(device) => StepModel::ProbeOutput(device),
        None => StepModel::Play,
    }
}

/// The first step.
pub open spec fn first_step(job: OpenJob) -> StepModel {
    match job.input {
        Some(device) => StepModel::ProbeInput(device),
        None => output_step(job),
    }
}

/// The step after `event` came of `step`.
pub open spec fn next_step(job: OpenJob, step: StepModel, event: OpenEvent) -> StepModel {
    match (step, event) {
        (StepModel::ProbeInput(device), OpenEvent::Probed(default, offered)) => {
            match pick_config_spec(default, offered@, job.sample_rate) {
                Some(config) => StepModel::BuildInput(device, config),
                None => StepModel::Finished(failed_json("no suitable input config for device"@)),
            }
        },
        (StepModel::BuildInput(_, _), OpenEvent::Built) => output_step(job),
        (StepModel::BuildInput(_, _), OpenEvent::BuildFailed(reason)) => StepModel::Finished(
            failed_json("input open failed: "@ + reason@),
        ),
        (StepModel::ProbeOutput(device), OpenEvent::Probed(default, offered)) => {
            match pick_config_spec(default, offered@, job.sample_rate) {
                Some(config) => StepModel::BuildOutput(device, config),
                None => StepModel::Finished(failed_json("no suitable output config for device"@)),
            }
        },
        (StepModel::BuildOutput(_, _), OpenEvent::Built) => StepModel::Play,
        (StepModel::BuildOutput(_, _), OpenEvent::BuildFailed(reason)) => StepModel::Finished(
            failed_json("output open failed: "@ + reason@),
        ),
        (StepModel::Play, OpenEvent::Played) => StepModel::Finished(done_json()),
        (other, _) => other,
    }
}

/// The state after a step: the station runs once the streams are started.
pub open spec fn state_after_step(shared: Shared, step: StepModel) -> Shared {
    Shared { running: shared.running || step is Play, ..shared }
}

impl OpenJob {
    /// The first step.
    pub fn start(&self) -> (step: OpenStep)
        ensures
            step@ == first_step(*self),
    {
        match self.input {
            Some(device) => OpenStep::ProbeInput(device),
            None => self.to_output(),
        }
    }

    fn to_output(&self) -> (step: OpenStep)
        ensures
            step@ == output_step(*self),
    {
        match self.output {
            Some(device) => OpenStep::ProbeOutput(device),
            None => OpenStep::Play,
        }
    }

    /// The step after `event` came of `step`. The station runs once the streams
    /// are started.
    pub fn advance(&self, step: OpenStep, event: OpenEvent, shared: &mut Shared) -> (next: OpenStep)
        requires
            fits(step@, event),
        ensures
            next@ == next_step(*self, step@, event),
            *final(shared) == state_after_step(*old(shared), step@),
    {
        match (step, event) {
            (OpenStep::ProbeInput(device), OpenEvent::Probed(default, offered)) => {
                match pick_config(default, &offered, self.sample_rate) {
                    Some(config) => OpenStep::BuildInput(device, config),
                    None => OpenStep::Finished(
                        Reply::failed("no suitable input config for device"),
                    ),
                }
            },
            (OpenStep::BuildInput(_, _), OpenEvent::Built) => self.to_output(),
            (OpenStep::BuildInput(_, _), OpenEvent::BuildFailed(reason)) => OpenStep::Finished(
                Reply::Failed(joined("input open failed: ", reason.as_str())),
            ),
            (OpenStep::ProbeOutput(device), OpenEvent::Probed(default, offered)) => {
                match pick_config(default, &offered, self.sample_rate) {
                    Some(config) => OpenStep::BuildOutput(device, config),
                    None => OpenStep::Finished(
                        Reply::failed("no suitable output config for device"),
                    ),
                }
            },
            (OpenStep::BuildOutput(_, _), OpenEvent::Built) => OpenStep::Play,
            (OpenStep::BuildOutput(_, _), OpenEvent::BuildFailed(reason)) => OpenStep::Finished(
                Reply::Failed(joined("output open failed: ", reason.as_str())),
            ),
            (OpenStep::Play, OpenEvent::Played) => {
                shared.running = true;
                OpenStep::Finished(Reply::Done)
            },
            (other, _) => other,
        }
    }
}

// ---------------------------------------------------------------------------
// Laws
// ---------------------------------------------------------------------------

/// A request that is refused at once changes nothing.
pub proof fn law_refusal_changes_nothing(
    shared: Shared,
    request: Option<Req>,
    devices: usize,
    answer: Json,
)
    requires
        action_for(shared, request, devices) == ActionModel::Answer(answer),
        says_ok(answer) == Some(false),
    ensures
        state_after(shared, request) == shared,
{
    lemma_done_says_ok();
}

/// What cannot be understood, what names no command and a recording without a
/// file are refused, each with its reason; no other request is refused at once.
pub proof fn law_what_is_refused(shared: Shared, request: Option<Req>, devices: usize)
    ensures
        ({
            let action = action_for(shared, request, devices);
            let refused = action matches ActionModel::Answer(answer) && says_ok(answer)
                == Some(false);
            let unknown = request is Some && command_spec(request->0.cmd@) == Command::Unknown;
            let no_path = request is Some && command_spec(request->0.cmd@) == Command::EnqueueWav
                && request->0.path is None;
            &&& refused <==> request is None || unknown || no_path
            &&& request is None ==> action == ActionModel::Answer(failed_json("invalid json"@))
            &&& unknown ==> action == ActionModel::Answer(failed_json("unknown command"@))
            &&& no_path ==> action == ActionModel::Answer(failed_json("missing path"@))
        }),
{
    lemma_done_says_ok();
    lemma_failed_says_so("invalid json"@);
    lemma_failed_says_so("unknown command"@);
    lemma_failed_says_so("missing path"@);
}

proof fn lemma_done_says_ok()
    ensures
        says_ok(done_json()) == Some(true),
        forall|names: Seq<Seq<char>>| says_ok(#[trigger] modes_json(names)) == Some(true),
{
}

proof fn lemma_failed_says_so(reason: Seq<char>)
    ensures
        says_ok(failed_json(reason)) == Some(false),
{
}

/// To decide on a request touches neither the queues nor the preamble to look for,
/// nor what was measured or when a preamble was reported. Carrying out what was
/// decided may: a frame that is sent goes to the queue, and its preamble is the
/// one to look for from then on.
pub proof fn law_requests_leave_signal_alone(shared: Shared, request: Option<Req>)
    ensures
        state_after(shared, request).rx == shared.rx,
        state_after(shared, request).tx == shared.tx,
        state_after(shared, request).preamble_template == shared.preamble_template,
        state_after(shared, request).last_rms == shared.last_rms,
        state_after(shared, request).last_detection == shared.last_detection,
        shared.wf() ==> state_after(shared, request).wf(),
{
}

/// Deciding on a request never makes the station run: to open and to close stops
/// it, and no other command changes whether it runs.
pub proof fn law_requests_never_start(shared: Shared, request: Option<Req>)
    ensures
        state_after(shared, request).running ==> shared.running,
        state_after(shared, request).running != shared.running ==> request is Some && (
        command_spec(request->0.cmd@) == Command::Open || command_spec(request->0.cmd@)
            == Command::Close),
{
}

/// The idle tone goes on and off again; its frequency stays what it was set to.
pub proof fn law_stop_after_start(shared: Shared, start: Req, stop: Req)
    requires
        command_spec(start.cmd@) == Command::StartTx,
        command_spec(stop.cmd@) == Command::StopTx,
    ensures
        state_after(shared, Some(start)).tx_enabled,
        state_after(state_after(shared, Some(start)), Some(stop)) == (Shared {
            tx_enabled: false,
            tx_freq_hz: or_else(start.tone_freq, shared.tx_freq_hz),
            ..shared
        }),
{
}

/// Whatever preset a request starts from, the parameters that it names win.
pub proof fn law_named_parameters_win(req: Req)
    ensures
        mode_spec(req) matches ModeConfig::Mfsk(params) ==> {
            &&& req.mfsk_m is Some ==> params.m == req.mfsk_m->0
            &&& req.mfsk_center is Some ==> params.center == req.mfsk_center->0
            &&& req.mfsk_spacing is Some ==> params.spacing == req.mfsk_spacing->0
            &&& req.symbol_len_ms is Some ==> params.symbol_len_ms == req.symbol_len_ms->0
            &&& req.preamble_repeats is Some ==> params.preamble_repeats
                == req.preamble_repeats->0
        },
        mode_spec(req) matches ModeConfig::Dpsk(params) ==> {
            &&& req.mfsk_center is Some ==> params.center == req.mfsk_center->0
            &&& req.symbol_len_ms is Some ==> params.symbol_len_ms == req.symbol_len_ms->0
            &&& req.preamble_repeats is Some ==> params.preamble_repeats
                == req.preamble_repeats->0
        },
{
}

/// A request that names a preset and nothing else gets that preset, or the
/// default where there is none of that name.
pub proof fn law_preset_alone(req: Req)
    requires
        mode_name(req) == "mfsk"@,
        req.speed is Some,
        req.mfsk_m is None,
        req.mfsk_center is None,
        req.mfsk_spacing is None,
        req.symbol_len_ms is None,
        req.preamble_repeats is None,
    ensures
        mode_spec(req) == ModeConfig::Mfsk(
            or_else(preset_spec(req.speed->0@), default_mfsk_spec()),
        ),
{
    lemma_mode_names_differ();
}

/// A kind of mode that is not known is taken for frequency shift keying with the
/// default parameters, whatever preset is named.
pub proof fn law_unknown_mode_is_default(req: Req)
    requires
        mode_name(req) != "mfsk"@,
        mode_name(req) != "dpsk"@,
    ensures
        mode_spec(req) == ModeConfig::Mfsk(overridden(default_mfsk_spec(), req)),
{
}

/// Phase shift keying has no presets: the one named does not matter.
pub proof fn law_dpsk_has_no_presets(req: Req, speed: Option<String>)
    requires
        mode_name(req) == "dpsk"@,
    ensures
        mode_spec(Req { speed, ..req }) == mode_spec(req),
        mode_spec(req) is Dpsk,
{
}

/// How far the opening of streams has come.
pub open spec fn progress(step: StepModel) -> int {
    match step {
        StepModel::ProbeInput(_) => 0,
        StepModel::BuildInput(_, _) => 1,
        StepModel::ProbeOutput(_) => 2,
        StepModel::BuildOutput(_, _) => 3,
        StepModel::Play => 4,
        StepModel::Finished(_) => 5,
    }
}

/// Every step brings the opening of streams nearer to its answer, the recording
/// side before the playing side.
pub proof fn law_open_comes_to_an_end(job: OpenJob, step: StepModel, event: OpenEvent)
    requires
        fits(step, event),
    ensures
        progress(step) < progress(next_step(job, step, event)),
{
}

/// The answer to a request to open says that it was carried out exactly where the
/// streams were started, which is also when the station begins to run.
pub proof fn law_open_answer(job: OpenJob, step: StepModel, event: OpenEvent)
    requires
        fits(step, event),
    ensures
        next_step(job, step, event) matches StepModel::Finished(answer) ==> says_ok(answer) == Some(
            step is Play,
        ),
        step is Play ==> next_step(job, step, event) is Finished,
{
    lemma_done_says_ok();
    lemma_failed_says_so("no suitable input config for device"@);
    lemma_failed_says_so("no suitable output config for device"@);
    if let OpenEvent::BuildFailed(reason) = event {
        lemma_failed_says_so("input open failed: "@ + reason@);
        lemma_failed_says_so("output open failed: "@ + reason@);
    }
}

/// A request, the number of devices in the list when it was decided on, and, where
/// streams were to be opened, what came of each step.
pub struct Exchange {
    /// The request; `None` where it could not be understood.
    pub request: Option<Req>,
    /// How many devices there were.
    pub devices: usize,
    /// What came of the steps.
    pub events: Seq<OpenEvent>,
}

/// Whether what came of the steps from `step` on leads to an answer.
pub open spec fn answers(job: OpenJob, step: StepModel, events: Seq<OpenEvent>) -> bool
    decreases events.len(),
{
    if events.len() == 0 {
        step is Finished
    } else {
        fits(step, events[0]) && answers(job, next_step(job, step, events[0]), events.skip(1))
    }
}

/// The state and the step once all of this came of the steps from `step` on.
pub open spec fn carried_out(
    shared: Shared,
    job: OpenJob,
    step: StepModel,
    events: Seq<OpenEvent>,
) -> (Shared, StepModel)
    decreases events.len(),
{
    if events.len() == 0 {
        (shared, step)
    } else {
        carried_out(
            state_after_step(shared, step),
            job,
            next_step(job, step, events[0]),
            events.skip(1),
        )
    }
}

/// Whether a request was carried out until it was answered.
pub open spec fn is_answered(shared: Shared, exchange: Exchange) -> bool {
    action_for(shared, exchange.request, exchange.devices) matches ActionModel::Open(job)
        ==> answers(job, first_step(job), exchange.events)
}

/// The state once a request was decided on and its streams, if any, were opened.
pub open spec fn state_after_exchange(shared: Shared, exchange: Exchange) -> Shared {
    let decided = state_after(shared, exchange.request);
    match action_for(shared, exchange.request, exchange.devices) {
        ActionModel::Open(job) => carried_out(decided, job, first_step(job), exchange.events).0,
        _ => decided,
    }
}

/// Whether a request asked to open streams, and was answered that it was done.
pub open spec fn opened(shared: Shared, exchange: Exchange) -> bool {
    match action_for(shared, exchange.request, exchange.devices) {
        ActionModel::Open(job) => {
            let decided = state_after(shared, exchange.request);
            match carried_out(decided, job, first_step(job), exchange.events).1 {
                StepModel::Finished(answer) => says_ok(answer) == Some(true),
                _ => false,
            }
        },
        _ => false,
    }
}

/// Whether a request asked to open or to close streams.
pub open spec fn is_switch(exchange: Exchange) -> bool {
    exchange.request matches Some(req) && (command_spec(req.cmd@) == Command::Open || command_spec(
        req.cmd@,
    ) == Command::Close)
}

/// Whether there is a request to open or to close among these, and the last such
/// one opened streams. Each request has the state that it met.
pub open spec fn last_switch_opened(met: Seq<Shared>, exchanges: Seq<Exchange>) -> bool
    decreases exchanges.len(),
{
    if exchanges.len() == 0 {
        false
    } else if is_switch(exchanges.last()) {
        opened(met.last(), exchanges.last())
    } else {
        last_switch_opened(met.drop_last(), exchanges.drop_last())
    }
}

proof fn lemma_open_runs(
    shared: Shared,
    job: OpenJob,
    step: StepModel,
    events: Seq<OpenEvent>,
)
    requires
        !shared.running,
        !(step is Finished),
        answers(job, step, events),
    ensures
        ({
            let (after, end) = carried_out(shared, job, step, events);
            end matches StepModel::Finished(answer) && after.running == (says_ok(answer) == Some(
                true,
            ))
        }),
    decreases events.len(),
{
    let event = events[0];
    let rest = events.skip(1);
    let next = next_step(job, step, event);
    law_open_answer(job, step, event);
    assert(answers(job, next, rest));
    if next is Finished {
        assert(carried_out(state_after_step(shared, step), job, next, rest) == (
            state_after_step(shared, step),
            next,
        ));
    } else {
        lemma_open_runs(state_after_step(shared, step), job, next, rest);
    }
}

/// Over any sequence of requests that were answered, from a station that does not
/// run, as a new one: it runs exactly if there was a request to open or to close,
/// and the last such one was a request to open that was carried out. Each request
/// meets the state that the one before it left, but for what else may have changed
/// meanwhile; only whether the station runs is handed on.
pub proof fn law_running_after_requests(
    met: Seq<Shared>,
    exchanges: Seq<Exchange>,
    now: Shared,
)
    requires
        met.len() == exchanges.len(),
        forall|i: int|
            0 <= i < exchanges.len() ==> is_answered(met[i], #[trigger] exchanges[i]),
        exchanges.len() > 0 ==> !met[0].running,
        forall|i: int|
            0 < i < met.len() ==> (#[trigger] met[i]).running == state_after_exchange(
                met[i - 1],
                exchanges[i - 1],
            ).running,
        exchanges.len() > 0 ==> now.running == state_after_exchange(
            met.last(),
            exchanges.last(),
        ).running,
        exchanges.len() == 0 ==> !now.running,
    ensures
        now.running <==> last_switch_opened(met, exchanges),
    decreases exchanges.len(),
{
    if exchanges.len() > 0 {
        let before = met.last();
        let exchange = exchanges.last();
        assert(is_answered(before, exchange)) by {
            assert(is_answered(met[met.len() - 1], exchanges[met.len() - 1]));
        }
        if is_switch(exchange) {
            if let ActionModel::Open(job) = action_for(before, exchange.request, exchange.devices) {
                lemma_open_runs(
                    state_after(before, exchange.request),
                    job,
                    first_step(job),
                    exchange.events,
                );
            }
        } else {
            let earlier = exchanges.drop_last();
            assert forall|i: int| 0 <= i < earlier.len() implies is_answered(
                met.drop_last()[i],
                #[trigger] earlier[i],
            ) by {
                assert(is_answered(met[i], exchanges[i]));
            }
            if earlier.len() > 0 {
                assert(met[met.len() - 1].running == state_after_exchange(
                    met[met.len() - 2],
                    exchanges[met.len() - 2],
                ).running);
            }
            law_running_after_requests(met.drop_last(), earlier, before);
        }
    }
}

/// Once a frame is queued to its end, the answer gives its length both as what was
/// queued and as what there was to queue.
pub proof fn law_sent_in_full(upload: Upload)
    requires
        upload.wf(),
        upload.rest().len() == 0,
    ensures
        sent_json(upload.queued() as int, upload.all().len() as int) == sent_json(
            upload.all().len() as int,
            upload.all().len() as int,
        ),
{
}

/// Streams are built only for the devices that were asked for, at the rate that
/// was asked for.
pub proof fn law_open_builds_what_was_asked(job: OpenJob, step: StepModel, event: OpenEvent)
    requires
        fits(step, event),
        step matches StepModel::ProbeInput(device) ==> job.input == Some(device),
        step matches StepModel::ProbeOutput(device) ==> job.output == Some(device),
    ensures
        next_step(job, step, event) matches StepModel::BuildInput(device, config) ==> job.input
            == Some(device) && config.sample_rate == job.sample_rate,
        next_step(job, step, event) matches StepModel::BuildOutput(device, config) ==> job.output
            == Some(device) && config.sample_rate == job.sample_rate,
        next_step(job, step, event) matches StepModel::ProbeOutput(device) ==> job.output == Some(
            device,
        ),
{
}

// ---------------------------------------------------------------------------
// What each request does
// ---------------------------------------------------------------------------

/// The commands and their names: each name has its own command, and every other
/// name has none.
pub proof fn law_command_names(name: Seq<char>)
    ensures
        command_spec(name) == Command::ListDevices <==> name == "list_devices"@,
        command_spec(name) == Command::ListModes <==> name == "list_modes"@,
        command_spec(name) == Command::Open <==> name == "open"@,
        command_spec(name) == Command::Close <==> name == "close"@,
        command_spec(name) == Command::Status <==> name == "status"@,
        command_spec(name) == Command::StartTx <==> name == "start_tx"@,
        command_spec(name) == Command::StopTx <==> name == "stop_tx"@,
        command_spec(name) == Command::EnqueueWav <==> name == "enqueue_wav"@,
        command_spec(name) == Command::SendFrame <==> name == "send_frame"@,
{
    reveal_strlit("list_devices");
    reveal_strlit("list_modes");
    reveal_strlit("open");
    reveal_strlit("close");
    reveal_strlit("status");
    reveal_strlit("start_tx");
    reveal_strlit("stop_tx");
    reveal_strlit("enqueue_wav");
    reveal_strlit("send_frame");
    assert("list_devices"@.len() == 12 && "list_modes"@.len() == 10 && "open"@.len() == 4
        && "close"@.len() == 5 && "status"@.len() == 6 && "start_tx"@.len() == 8
        && "stop_tx"@.len() == 7 && "enqueue_wav"@.len() == 11 && "send_frame"@.len() == 10);
    assert("list_modes"@[0] != "send_frame"@[0]);
}

/// The mode of a frame. It is phase shift keying exactly where the request says so,
/// with the parameters that it names, and 1500 Hz, 80 ms and 3 repeats for those
/// that it does not. Else it is frequency shift keying with the parameters that it
/// names, and those of a base for the others. The base is the preset that it names,
/// where it asks for frequency shift keying or leaves that open and the preset
/// exists; and else 4 tones round 1500 Hz, 200 Hz apart, of 80 ms, and 3 repeats.
pub proof fn law_mode_asked_for(req: Req)
    ensures
        ({
            let phase = req.mode is Some && req.mode->0@ == "dpsk"@;
            let presets = req.mode is None || req.mode->0@ == "mfsk"@;
            let base = if presets && req.speed is Some && preset_spec(req.speed->0@) is Some {
                preset_spec(req.speed->0@)->0
            } else {
                MfskParams {
                    m: 4,
                    center: 0x44bb_8000,
                    spacing: 0x4348_0000,
                    symbol_len_ms: 80,
                    preamble_repeats: 3,
                }
            };
            &&& phase ==> (mode_spec(req) matches ModeConfig::Dpsk(params) && {
                &&& params.center == req.mfsk_center.unwrap_or(0x44bb_8000)
                &&& params.symbol_len_ms == req.symbol_len_ms.unwrap_or(80)
                &&& params.preamble_repeats == req.preamble_repeats.unwrap_or(3)
            })
            &&& !phase ==> (mode_spec(req) matches ModeConfig::Mfsk(params) && {
                &&& params.m == req.mfsk_m.unwrap_or(base.m)
                &&& params.center == req.mfsk_center.unwrap_or(base.center)
                &&& params.spacing == req.mfsk_spacing.unwrap_or(base.spacing)
                &&& params.symbol_len_ms == req.symbol_len_ms.unwrap_or(base.symbol_len_ms)
                &&& params.preamble_repeats == req.preamble_repeats.unwrap_or(
                    base.preamble_repeats,
                )
            })
        }),
{
    lemma_mode_names_differ();
}

/// A request to send a frame sends it: with the payload that the request names,
/// whatever its other fields, or the built-in one only where it names none; in the
/// mode that it asks for, which becomes the current one; at the current sample
/// rate. Nothing else changes.
pub proof fn law_send_frame(shared: Shared, req: Req, devices: usize)
    requires
        req.cmd@ == "send_frame"@,
    ensures
        action_for(shared, Some(req), devices) matches ActionModel::Send(mode, payload, rate) && {
            &&& req.payload_bits matches Some(bits) ==> payload == bits@
            &&& req.payload_bits is None ==> payload == "101100111000"@
            &&& rate == shared.sample_rate
            &&& mode == mode_spec(req)
            &&& state_after(shared, Some(req)) == (Shared { current_mode: Some(mode), ..shared })
        },
{
    law_command_names(req.cmd@);
}

/// A request to open streams opens the devices that it names, recording and
/// playing alike: exactly those that are in the list, at the rate that it names or
/// at 48000. The station stops meanwhile, and keeps the rate.
pub proof fn law_open_request(shared: Shared, req: Req, devices: usize)
    requires
        req.cmd@ == "open"@,
    ensures
        action_for(shared, Some(req), devices) matches ActionModel::Open(job) && {
            &&& req.input is None ==> job.input is None
            &&& req.output is None ==> job.output is None
            &&& req.input is Some && req.input->0 < devices ==> job.input == req.input
            &&& req.output is Some && req.output->0 < devices ==> job.output == req.output
            &&& req.input is Some && req.input->0 >= devices ==> job.input is None
            &&& req.output is Some && req.output->0 >= devices ==> job.output is None
            &&& job.sample_rate == req.sr.unwrap_or(48000)
            &&& state_after(shared, Some(req)) == (Shared {
                running: false,
                sample_rate: job.sample_rate,
                ..shared
            })
        },
{
    law_command_names(req.cmd@);
}

/// What the other requests do: each does its own and changes nothing else.
pub proof fn law_other_requests(shared: Shared, req: Req, devices: usize)
    ensures
        ({
            let after = state_after(shared, Some(req));
            let action = action_for(shared, Some(req), devices);
            let done = Json::Object(
                Map::<Seq<char>, Json>::empty().insert("ok"@, Json::Bool(true)),
            );
            &&& req.cmd@ == "close"@ ==> after == (Shared { running: false, ..shared }) && action
                == ActionModel::Close(done)
            &&& req.cmd@ == "start_tx"@ ==> after == (Shared {
                tx_enabled: true,
                tx_freq_hz: req.tone_freq.unwrap_or(shared.tx_freq_hz),
                ..shared
            }) && action == ActionModel::Answer(done)
            &&& req.cmd@ == "stop_tx"@ ==> after == (Shared { tx_enabled: false, ..shared })
                && action == ActionModel::Answer(done)
            &&& req.cmd@ == "status"@ ==> after == shared && action == ActionModel::ReportStatus
            &&& req.cmd@ == "list_devices"@ ==> after == shared && action
                == ActionModel::ListDevices
            &&& req.cmd@ == "enqueue_wav"@ ==> after == shared
            &&& req.cmd@ == "enqueue_wav"@ && req.path is Some ==> action
                == ActionModel::EnqueueWav(req.path->0@)
            &&& req.cmd@ == "list_modes"@ ==> after == shared
        }),
{
    law_command_names(req.cmd@);
}

/// What is refused at once, and with which words: what is no request, what names
/// none of the commands, and a recording without a file. Nothing changes then.
pub proof fn law_refusals(shared: Shared, req: Req, devices: usize)
    ensures
        state_after(shared, None) == shared,
        action_for(shared, None, devices) == ActionModel::Answer(
            Json::Object(
                Map::<Seq<char>, Json>::empty().insert("error"@, Json::Text("invalid json"@)).insert(
                    "ok"@,
                    Json::Bool(false),
                ),
            ),
        ),
        req.cmd@ == "enqueue_wav"@ && req.path is None ==> action_for(shared, Some(req), devices)
            == ActionModel::Answer(
            Json::Object(
                Map::<Seq<char>, Json>::empty().insert("error"@, Json::Text("missing path"@)).insert(
                    "ok"@,
                    Json::Bool(false),
                ),
            ),
        ),
        req.cmd@ != "list_devices"@ && req.cmd@ != "list_modes"@ && req.cmd@ != "open"@ && req.cmd@
            != "close"@ && req.cmd@ != "status"@ && req.cmd@ != "start_tx"@ && req.cmd@
            != "stop_tx"@ && req.cmd@ != "enqueue_wav"@ && req.cmd@ != "send_frame"@ ==> {
            &&& state_after(shared, Some(req)) == shared
            &&& action_for(shared, Some(req), devices) == ActionModel::Answer(
                Json::Object(
                    Map::<Seq<char>, Json>::empty().insert(
                        "error"@,
                        Json::Text("unknown command"@),
                    ).insert("ok"@, Json::Bool(false)),
                ),
            )
        },
{
    law_command_names(req.cmd@);
}

/// The list of modes names every preset once, in the order of text.
pub proof fn law_listed_modes(shared: Shared, req: Req, devices: usize)
    requires
        req.cmd@ == "list_modes"@,
    ensures
        action_for(shared, Some(req), devices) matches ActionModel::Answer(answer) && (
        answer matches Json::Object(all) && all.dom().contains("modes"@) && all["modes"@]
            == Json::List(
            seq![
                Json::Text("FAST"@),
                Json::Text("MEDIUM"@),
                Json::Text("QRP"@),
                Json::Text("QRP_ULTRA"@),
                Json::Text("SLOW"@),
                Json::Text("TURBO"@),
            ],
        ) && all.dom().contains("ok"@) && all["ok"@] == Json::Bool(true)),
{
    law_command_names(req.cmd@);
    let names = preset_table().map_values(|entry: (Seq<char>, MfskParams)| entry.0);
    assert(names =~= seq!["FAST"@, "MEDIUM"@, "QRP"@, "QRP_ULTRA"@, "SLOW"@, "TURBO"@]);
    assert(names.map_values(|name: Seq<char>| Json::Text(name)) =~= seq![
        Json::Text("FAST"@),
        Json::Text("MEDIUM"@),
        Json::Text("QRP"@),
        Json::Text("QRP_ULTRA"@),
        Json::Text("SLOW"@),
        Json::Text("TURBO"@),
    ]);
    reveal_strlit("ok");
    reveal_strlit("modes");
    assert("ok"@.len() != "modes"@.len());
}

/// What is to be done is what the action holds.
pub proof fn law_action_holds(action: Action)
    ensures
        action matches Action::Answer(reply) ==> action@ == ActionModel::Answer(reply@),
        action matches Action::Close(reply) ==> action@ == ActionModel::Close(reply@),
        action matches Action::Open(job) ==> action@ == ActionModel::Open(job),
        action matches Action::EnqueueWav(path) ==> action@ == ActionModel::EnqueueWav(path@),
        action matches Action::Send(job) ==> action@ == ActionModel::Send(
            job.mode,
            job.payload@,
            job.sample_rate,
        ),
        action is ListDevices <==> action@ is ListDevices,
        action is ReportStatus <==> action@ is ReportStatus,
{
}

/// The step to take is what the step holds.
pub proof fn law_step_holds(step: OpenStep)
    ensures
        step matches OpenStep::ProbeInput(device) ==> step@ == StepModel::ProbeInput(device),
        step matches OpenStep::ProbeOutput(device) ==> step@ == StepModel::ProbeOutput(device),
        step matches OpenStep::BuildInput(device, config) ==> step@ == StepModel::BuildInput(
            device,
            config,
        ),
        step matches OpenStep::BuildOutput(device, config) ==> step@ == StepModel::BuildOutput(
            device,
            config,
        ),
        step matches OpenStep::Finished(reply) ==> step@ == StepModel::Finished(reply@),
        step is Play <==> step@ is Play,
{
}

/// The step that is reached once `count` events came of the steps.
pub open spec fn step_reached(job: OpenJob, events: Seq<OpenEvent>, count: nat) -> StepModel
    decreases count,
{
    if count == 0 {
        first_step(job)
    } else {
        next_step(
            job,
            step_reached(job, events, (count - 1) as nat),
            events[count - 1],
        )
    }
}

/// Whether the recording side is opened, or there is none, after `count` events.
pub open spec fn input_opened(job: OpenJob, events: Seq<OpenEvent>, count: nat) -> bool {
    job.input matches Some(device) ==> exists|k: int|
        0 <= k < count && #[trigger] events[k] is Built && (step_reached(
            job,
            events,
            k as nat,
        ) matches StepModel::BuildInput(built, config) && built == device && config.sample_rate
            == job.sample_rate)
}

/// Whether the playing side is opened, or there is none, after `count` events.
pub open spec fn output_opened(job: OpenJob, events: Seq<OpenEvent>, count: nat) -> bool {
    job.output matches Some(device) ==> exists|k: int|
        0 <= k < count && #[trigger] events[k] is Built && (step_reached(
            job,
            events,
            k as nat,
        ) matches StepModel::BuildOutput(built, config) && built == device && config.sample_rate
            == job.sample_rate)
}

proof fn lemma_open_so_far(job: OpenJob, events: Seq<OpenEvent>, count: nat)
    requires
        count <= events.len(),
        forall|k: int|
            0 <= k < count ==> fits(step_reached(job, events, k as nat), #[trigger] events[k]),
    ensures
        match step_reached(job, events, count) {
            StepModel::ProbeInput(device) => job.input == Some(device),
            StepModel::BuildInput(device, config) => job.input == Some(device)
                && config.sample_rate == job.sample_rate,
            StepModel::ProbeOutput(device) => job.output == Some(device) && input_opened(
                job,
                events,
                count,
            ),
            StepModel::BuildOutput(device, config) => job.output == Some(device)
                && config.sample_rate == job.sample_rate && input_opened(job, events, count),
            StepModel::Play => input_opened(job, events, count) && output_opened(
                job,
                events,
                count,
            ),
            StepModel::Finished(answer) => says_ok(answer) == Some(true) ==> {
                &&& input_opened(job, events, count)
                &&& output_opened(job, events, count)
                &&& count > 0
                &&& step_reached(job, events, (count - 1) as nat) is Play
            },
        },
    decreases count,
{
    if count > 0 {
        let last = (count - 1) as nat;
        lemma_open_so_far(job, events, last);
        let step = step_reached(job, events, last);
        let event = events[last as int];
        assert(fits(step, event));
        law_open_answer(job, step, event);
        if input_opened(job, events, last) && job.input is Some {
            let k = choose|k: int|
                0 <= k < last && #[trigger] events[k] is Built && (step_reached(
                    job,
                    events,
                    k as nat,
                ) matches StepModel::BuildInput(built, config) && Some(built) == job.input
                    && config.sample_rate == job.sample_rate);
            assert(events[k] is Built);
        }
        if output_opened(job, events, last) && job.output is Some {
            let k = choose|k: int|
                0 <= k < last && #[trigger] events[k] is Built && (step_reached(
                    job,
                    events,
                    k as nat,
                ) matches StepModel::BuildOutput(built, config) && Some(built) == job.output
                    && config.sample_rate == job.sample_rate);
            assert(events[k] is Built);
        }
    }
}

/// An opening that is answered with success has opened a stream, at the rate that
/// was asked for, for each device that it was to open, and has then started the
/// streams.
pub proof fn law_success_opens_all(job: OpenJob, events: Seq<OpenEvent>, answer: Json)
    requires
        forall|k: int|
            0 <= k < events.len() ==> fits(step_reached(job, events, k as nat), #[trigger] events[k]),
        step_reached(job, events, events.len()) == StepModel::Finished(answer),
        says_ok(answer) == Some(true),
    ensures
        job.input matches Some(device) ==> exists|k: int|
            0 <= k < events.len() && #[trigger] events[k] is Built && (step_reached(
                job,
                events,
                k as nat,
            ) matches StepModel::BuildInput(built, config) && built == device
                && config.sample_rate == job.sample_rate),
        job.output matches Some(device) ==> exists|k: int|
            0 <= k < events.len() && #[trigger] events[k] is Built && (step_reached(
                job,
                events,
                k as nat,
            ) matches StepModel::BuildOutput(built, config) && built == device
                && config.sample_rate == job.sample_rate),
        events.len() > 0,
        step_reached(job, events, (events.len() - 1) as nat) is Play,
        events[events.len() - 1] is Played,
{
    lemma_open_so_far(job, events, events.len());
    assert(fits(
        step_reached(job, events, (events.len() - 1) as nat),
        events[events.len() - 1],
    ));
}

/// An opening in which every device has a configuration and every stream can be
/// opened succeeds: from where it begins, nothing stops it on the way.
pub proof fn law_nothing_stops_an_opening(job: OpenJob, step: StepModel, event: OpenEvent)
    requires
        fits(step, event),
        event matches OpenEvent::Probed(default, offered) ==> default is Some || exists|i: int|
            0 <= i < offered@.len() && (#[trigger] offered@[i]).single_precision,
        !(event is BuildFailed),
    ensures
        next_step(job, step, event) matches StepModel::Finished(answer) ==> step is Play && answer
            == Json::Object(Map::<Seq<char>, Json>::empty().insert("ok"@, Json::Bool(true))),
        first_step(job) is Finished ==> false,
        step matches StepModel::ProbeInput(device) ==> (next_step(
            job,
            step,
            event,
        ) matches StepModel::BuildInput(same, _) && same == device),
        step matches StepModel::ProbeOutput(device) ==> (next_step(
            job,
            step,
            event,
        ) matches StepModel::BuildOutput(same, _) && same == device),
        step is BuildOutput ==> next_step(job, step, event) is Play,
        step is BuildInput ==> (match job.output {
            Some(device) => next_step(job, step, event) == StepModel::ProbeOutput(device),
            None => next_step(job, step, event) is Play,
        }),
{
    if let OpenEvent::Probed(default, offered) = event {
        if default is None {
            let i = choose|i: int|
                0 <= i < offered@.len() && (#[trigger] offered@[i]).single_precision;
            lemma_some_usable(offered@, i);
        }
    }
}

proof fn lemma_some_usable(offered: Seq<crate::audio::OfferedConfig>, i: int)
    requires
        0 <= i < offered.len(),
        offered[i].single_precision,
    ensures
        crate::audio::first_usable(offered) is Some,
    decreases offered.len(),
{
    if !offered[0].single_precision {
        assert(offered.skip(1)[i - 1] == offered[i]);
        lemma_some_usable(offered.skip(1), i - 1);
    }
}

/// What a device is opened with: what `pick_config` chooses for it. Where nothing
/// can be chosen, or the stream cannot be opened, the answer says for which side.
pub proof fn law_why_an_opening_fails(
    job: OpenJob,
    device: usize,
    event: OpenEvent,
    config: StreamConfig,
)
    ensures
        event matches OpenEvent::Probed(default, offered) ==> {
            let picked = pick_config_spec(default, offered@, job.sample_rate);
            &&& picked is Some ==> next_step(job, StepModel::ProbeInput(device), event)
                == StepModel::BuildInput(device, picked->0)
            &&& picked is Some ==> next_step(job, StepModel::ProbeOutput(device), event)
                == StepModel::BuildOutput(device, picked->0)
            &&& picked is None ==> next_step(job, StepModel::ProbeInput(device), event)
                == StepModel::Finished(
                Json::Object(
                    Map::<Seq<char>, Json>::empty().insert(
                        "error"@,
                        Json::Text("no suitable input config for device"@),
                    ).insert("ok"@, Json::Bool(false)),
                ),
            )
            &&& picked is None ==> next_step(job, StepModel::ProbeOutput(device), event)
                == StepModel::Finished(
                Json::Object(
                    Map::<Seq<char>, Json>::empty().insert(
                        "error"@,
                        Json::Text("no suitable output config for device"@),
                    ).insert("ok"@, Json::Bool(false)),
                ),
            )
        },
        event matches OpenEvent::BuildFailed(reason) ==> {
            &&& next_step(job, StepModel::BuildInput(device, config), event) == StepModel::Finished(
                Json::Object(
                    Map::<Seq<char>, Json>::empty().insert(
                        "error"@,
                        Json::Text("input open failed: "@ + reason@),
                    ).insert("ok"@, Json::Bool(false)),
                ),
            )
            &&& next_step(job, StepModel::BuildOutput(device, config), event)
                == StepModel::Finished(
                Json::Object(
                    Map::<Seq<char>, Json>::empty().insert(
                        "error"@,
                        Json::Text("output open failed: "@ + reason@),
                    ).insert("ok"@, Json::Bool(false)),
                ),
            )
        },
{
}

/// An opening begins with the device to record from, where there is one, else with
/// the one to play on, and else with starting at once. A step changes nothing but
/// whether the station runs, and only starting the streams makes it run.
pub proof fn law_opening_begins(job: OpenJob, shared: Shared, step: StepModel)
    ensures
        job.input matches Some(device) ==> first_step(job) == StepModel::ProbeInput(device),
        job.input is None && job.output is Some ==> first_step(job) == StepModel::ProbeOutput(
            job.output->0,
        ),
        job.input is None && job.output is None ==> first_step(job) is Play,
        step is Play ==> state_after_step(shared, step) == (Shared { running: true, ..shared }),
        !(step is Play) ==> state_after_step(shared, step) == shared,
{
}

/// What can come of a step: to probe a device gives what it offers, to open it
/// works or fails, to start the streams is done; and nothing comes of an answer.
pub proof fn law_what_comes_of_a_step(step: StepModel, event: OpenEvent)
    ensures
        step is ProbeInput || step is ProbeOutput ==> (fits(step, event) <==> event is Probed),
        step is BuildInput || step is BuildOutput ==> (fits(step, event) <==> event is Built
            || event is BuildFailed),
        step is Play ==> (fits(step, event) <==> event is Played),
        step is Finished ==> !fits(step, event),
{
}

} // verus!
