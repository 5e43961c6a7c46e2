//! What the station answers.
use crate::json::{
    json_of, json_text, lemma_members_1, lemma_members_2, lemma_members_3, members, text_of_value,
    value_of_bool, value_of_count, value_of_list, value_of_members, value_of_text, Json,
};
use vstd::prelude::*;

verus! {

/// An audio device as it is listed.
#[derive(Debug)]
pub struct DeviceEntry {
    /// Its name.
    pub name: String,
    /// Whether it can record.
    pub has_input: bool,
    /// Whether it can play.
    pub has_output: bool,
}

/// The state of the station as it is reported. The two measured numbers are JSON
/// numbers already.
#[derive(Debug)]
pub struct StatusReport {
    /// Whether streams are open.
    pub running: bool,
    /// How loud the last samples received were.
    pub last_rms: serde_json::Value,
    /// Whether the idle tone is on.
    pub tx_enabled: bool,
    /// The frequency of the idle tone.
    pub tx_freq: serde_json::Value,
    /// A description of the mode.
    pub current_mode: String,
}

/// An answer to one request.
#[derive(Debug)]
pub enum Reply {
    /// Done.
    Done,
    /// Refused or failed, and why.
    Failed(String),
    /// The audio devices.
    Devices(Vec<DeviceEntry>),
    /// The names of the modes.
    Modes(Vec<String>),
    /// The state of the station.
    Status(StatusReport),
    /// How many samples of a recording were queued.
    Queued(usize),
    /// How many samples of a frame were queued, and how many it has.
    Sent {
        /// The samples that were queued.
        pushed: usize,
        /// The samples of the frame.
        samples: usize,
    },
}

/// An object with these members besides `"ok"`, which says whether the request
/// was carried out.
pub open spec fn answer(ok: bool, others: Map<Seq<char>, Json>) -> Json {
    Json::Object(others.insert("ok"@, Json::Bool(ok)))
}

/// The answer to a request that was refused or failed.
pub open spec fn failed_json(reason: Seq<char>) -> Json {
    answer(false, map!["error"@ => Json::Text(reason)])
}

/// The answer that says only that a request was carried out.
pub open spec fn done_json() -> Json {
    answer(true, Map::empty())
}

/// A listed device: its place in the list, its name, what it can do.
pub open spec fn device_json(id: int, device: DeviceEntry) -> Json {
    Json::Object(
        map![
            "id"@ => Json::Whole(id),
            "name"@ => Json::Text(device.name@),
            "has_input"@ => Json::Bool(device.has_input),
            "has_output"@ => Json::Bool(device.has_output)
        ],
    )
}

/// The answer that lists devices.
pub open spec fn devices_json(devices: Seq<DeviceEntry>) -> Json {
    answer(
        true,
        map![
            "devices"@ => Json::List(
                Seq::new(devices.len(), |i: int| device_json(i, devices[i])),
            )
        ],
    )
}

/// The answer that lists modes.
pub open spec fn modes_json(names: Seq<Seq<char>>) -> Json {
    answer(
        true,
        map!["modes"@ => Json::List(names.map_values(|name: Seq<char>| Json::Text(name)))],
    )
}

/// The answer that reports the state of the station.
pub open spec fn status_json(status: StatusReport) -> Json {
    answer(
        true,
        map![
            "running"@ => Json::Bool(status.running),
            "last_rms"@ => json_of(status.last_rms),
            "tx_enabled"@ => Json::Bool(status.tx_enabled),
            "tx_freq"@ => json_of(status.tx_freq),
            "current_mode"@ => Json::Text(status.current_mode@)
        ],
    )
}

/// The answer that says how many samples of a recording were queued.
pub open spec fn queued_json(pushed: int) -> Json {
    answer(true, map!["pushed"@ => Json::Whole(pushed)])
}

/// The answer that says how many samples of a frame were queued.
pub open spec fn sent_json(pushed: int, samples: int) -> Json {
    answer(true, map!["pushed"@ => Json::Whole(pushed), "samples"@ => Json::Whole(samples)])
}

impl View for Reply {
    type V = Json;

    open spec fn view(&self) -> Json {
        match self {
            Reply::Done => done_json(),
            Reply::Failed(reason) => failed_json(reason@),
            Reply::Devices(devices) => devices_json(devices@),
            Reply::Modes(names) => modes_json(names@.map_values(|name: String| name@)),
            Reply::Status(status) => status_json(*status),
            Reply::Queued(pushed) => queued_json(*pushed as int),
            Reply::Sent { pushed, samples } => sent_json(*pushed as int, *samples as int),
        }
    }
}

/// Whether an answer says that the request was carried out.
pub open spec fn says_ok(json: Json) -> Option<bool> {
    match json {
        Json::Object(all) if all.dom().contains("ok"@) => match all["ok"@] {
            Json::Bool(ok) => Some(ok),
            _ => None,
        },
        _ => None,
    }
}

/// The member names differ, by their lengths or by their first letters.
proof fn lemma_member_names()
    ensures
        "ok"@.len() == 2,
        "id"@.len() == 2,
        "name"@.len() == 4,
        "error"@.len() == 5,
        "modes"@.len() == 5,
        "pushed"@.len() == 6,
        "devices"@.len() == 7,
        "samples"@.len() == 7,
        "running"@.len() == 7,
        "tx_freq"@.len() == 7,
        "last_rms"@.len() == 8,
        "has_input"@.len() == 9,
        "has_output"@.len() == 10,
        "tx_enabled"@.len() == 10,
        "current_mode"@.len() == 12,
        "running"@ != "tx_freq"@,
{
    reveal_strlit("ok");
    reveal_strlit("id");
    reveal_strlit("name");
    reveal_strlit("error");
    reveal_strlit("modes");
    reveal_strlit("pushed");
    reveal_strlit("devices");
    reveal_strlit("samples");
    reveal_strlit("running");
    reveal_strlit("tx_freq");
    reveal_strlit("last_rms");
    reveal_strlit("has_input");
    reveal_strlit("has_output");
    reveal_strlit("tx_enabled");
    reveal_strlit("current_mode");
    assert("running"@[0] != "tx_freq"@[0]);
}

/// A listed device as a JSON object.
fn device_value(id: usize, device: &DeviceEntry) -> (value: serde_json::Value)
    ensures
        json_of(value) == device_json(id as int, *device),
{
    let pairs = vec![
        ("id", value_of_count(id)),
        ("name", value_of_text(device.name.clone())),
        ("has_input", value_of_bool(device.has_input)),
        ("has_output", value_of_bool(device.has_output)),
    ];
    proof {
        lemma_member_names();
        lemma_members_3(pairs@.drop_last());
    }
    value_of_members(pairs)
}

/// The listed devices as a JSON array.
fn devices_value(devices: &Vec<DeviceEntry>) -> (value: serde_json::Value)
    ensures
        json_of(value) == Json::List(
            Seq::new(devices@.len(), |i: int| device_json(i, devices@[i])),
        ),
{
    let mut items: Vec<serde_json::Value> = Vec::new();
    let mut i: usize = 0;
    while i < devices.len()
        invariant
            i <= devices@.len(),
            items@.len() == i,
            forall|k: int|
                0 <= k < i ==> json_of(#[trigger] items@[k]) == device_json(k, devices@[k]),
        decreases devices.len() - i,
    {
        items.push(device_value(i, &devices[i]));
        i += 1;
    }
    assert(items@.map_values(|item: serde_json::Value| json_of(item)) =~= Seq::new(
        devices@.len(),
        |i: int| device_json(i, devices@[i]),
    ));
    value_of_list(items)
}

/// Names as a JSON array of strings.
fn names_value(names: &Vec<String>) -> (value: serde_json::Value)
    ensures
        json_of(value) == Json::List(
            names@.map_values(|name: String| name@).map_values(|name: Seq<char>| Json::Text(name)),
        ),
{
    let mut items: Vec<serde_json::Value> = Vec::new();
    let mut i: usize = 0;
    while i < names.len()
        invariant
            i <= names@.len(),
            items@.len() == i,
            forall|k: int| 0 <= k < i ==> json_of(#[trigger] items@[k]) == Json::Text(names@[k]@),
        decreases names.len() - i,
    {
        items.push(value_of_text(names[i].clone()));
        i += 1;
    }
    assert(items@.map_values(|item: serde_json::Value| json_of(item)) =~= names@.map_values(
        |name: String| name@,
    ).map_values(|name: Seq<char>| Json::Text(name)));
    value_of_list(items)
}

/// The state of the station as a JSON object.
fn status_value(status: StatusReport) -> (value: serde_json::Value)
    ensures
        json_of(value) == status_json(status),
{
    let pairs = vec![
        ("running", value_of_bool(status.running)),
        ("last_rms", status.last_rms),
        ("tx_enabled", value_of_bool(status.tx_enabled)),
        ("tx_freq", status.tx_freq),
        ("current_mode", value_of_text(status.current_mode)),
        ("ok", value_of_bool(true)),
    ];
    proof {
        lemma_member_names();
        let five = pairs@.drop_last();
        let four = five.drop_last();
        lemma_members_3(four.drop_last());
        assert(members(four) == members(four.drop_last()).insert(four[3].0@, json_of(four[3].1)));
        assert(members(five) == members(four).insert(five[4].0@, json_of(five[4].1)));
    }
    value_of_members(pairs)
}

impl Reply {
    /// The refusal with this reason.
    pub fn failed(reason: &str) -> (reply: Reply)
        ensures
            reply@ == failed_json(reason@),
    {
        Reply::Failed(reason.to_owned())
    }

    /// The answer as a JSON object.
    fn into_value(self) -> (value: serde_json::Value)
        ensures
            json_of(value) == self@,
    {
        let ok = value_of_bool(true);
        proof {
            lemma_member_names();
        }
        match self {
            Reply::Done => {
                let pairs = vec![("ok", ok)];
                proof {
                    lemma_members_1(pairs@);
                }
                value_of_members(pairs)
            },
            Reply::Failed(reason) => {
                let pairs = vec![("error", value_of_text(reason)), ("ok", value_of_bool(false))];
                proof {
                    lemma_members_2(pairs@);
                }
                value_of_members(pairs)
            },
            Reply::Devices(devices) => {
                let pairs = vec![("devices", devices_value(&devices)), ("ok", ok)];
                proof {
                    lemma_members_2(pairs@);
                }
                value_of_members(pairs)
            },
            Reply::Modes(names) => {
                let pairs = vec![("modes", names_value(&names)), ("ok", ok)];
                proof {
                    lemma_members_2(pairs@);
                }
                value_of_members(pairs)
            },
            Reply::Status(status) => status_value(status),
            Reply::Queued(pushed) => {
                let pairs = vec![("pushed", value_of_count(pushed)), ("ok", ok)];
                proof {
                    lemma_members_2(pairs@);
                }
                value_of_members(pairs)
            },
            Reply::Sent { pushed, samples } => {
                let pairs = vec![
                    ("pushed", value_of_count(pushed)),
                    ("samples", value_of_count(samples)),
                    ("ok", ok),
                ];
                proof {
                    lemma_members_3(pairs@);
                }
                value_of_members(pairs)
            },
        }
    }

    /// The line of JSON that is sent; it is a single one.
    pub fn into_line(self) -> (line: String)
        ensures
            line@ == json_text(self@),
            !line@.contains('\n'),
    {
        let value = self.into_value();
        text_of_value(&value)
    }
}

/// Every answer says whether the request was carried out, and the ones that say
/// it was not are those with a reason, which they give.
pub proof fn law_replies_tell(reply: Reply)
    ensures
        says_ok(reply@) == Some(!(reply is Failed)),
        reply matches Reply::Failed(reason) ==> (reply@ matches Json::Object(all)
            && all.dom().contains("error"@) && all["error"@] == Json::Text(reason@)),
{
    lemma_member_names();
}

/// What each answer holds, member by member, and that it holds nothing else.
pub proof fn law_reply_members(reply: Reply)
    ensures
        reply is Done ==> reply@ == Json::Object(
            Map::<Seq<char>, Json>::empty().insert("ok"@, Json::Bool(true)),
        ),
        reply matches Reply::Failed(reason) ==> reply@ == Json::Object(
            Map::<Seq<char>, Json>::empty().insert("ok"@, Json::Bool(false)).insert(
                "error"@,
                Json::Text(reason@),
            ),
        ),
        reply matches Reply::Queued(pushed) ==> reply@ == Json::Object(
            Map::<Seq<char>, Json>::empty().insert("ok"@, Json::Bool(true)).insert(
                "pushed"@,
                Json::Whole(pushed as int),
            ),
        ),
        reply matches Reply::Sent { pushed, samples } ==> reply@ == Json::Object(
            Map::<Seq<char>, Json>::empty().insert("ok"@, Json::Bool(true)).insert(
                "pushed"@,
                Json::Whole(pushed as int),
            ).insert("samples"@, Json::Whole(samples as int)),
        ),
        reply matches Reply::Status(status) ==> reply@ == Json::Object(
            Map::<Seq<char>, Json>::empty().insert("ok"@, Json::Bool(true)).insert(
                "running"@,
                Json::Bool(status.running),
            ).insert("last_rms"@, json_of(status.last_rms)).insert(
                "tx_enabled"@,
                Json::Bool(status.tx_enabled),
            ).insert("tx_freq"@, json_of(status.tx_freq)).insert(
                "current_mode"@,
                Json::Text(status.current_mode@),
            ),
        ),
{
    lemma_member_names();
    match reply {
        Reply::Done => {},
        Reply::Failed(reason) => {
            assert(reply@->Object_0 =~= Map::<Seq<char>, Json>::empty().insert(
                "ok"@,
                Json::Bool(false),
            ).insert("error"@, Json::Text(reason@)));
        },
        Reply::Queued(pushed) => {
            assert(reply@->Object_0 =~= Map::<Seq<char>, Json>::empty().insert(
                "ok"@,
                Json::Bool(true),
            ).insert("pushed"@, Json::Whole(pushed as int)));
        },
        Reply::Sent { pushed, samples } => {
            assert(reply@->Object_0 =~= Map::<Seq<char>, Json>::empty().insert(
                "ok"@,
                Json::Bool(true),
            ).insert("pushed"@, Json::Whole(pushed as int)).insert(
                "samples"@,
                Json::Whole(samples as int),
            ));
        },
        Reply::Status(status) => {
            assert(reply@->Object_0 =~= Map::<Seq<char>, Json>::empty().insert(
                "ok"@,
                Json::Bool(true),
            ).insert("running"@, Json::Bool(status.running)).insert(
                "last_rms"@,
                json_of(status.last_rms),
            ).insert("tx_enabled"@, Json::Bool(status.tx_enabled)).insert(
                "tx_freq"@,
                json_of(status.tx_freq),
            ).insert("current_mode"@, Json::Text(status.current_mode@)));
        },
        _ => {},
    }
}

/// The answers with lists hold one item for each device or mode, in order: a device
/// with its place, its name and what it can do, a mode with its name.
pub proof fn law_reply_lists(reply: Reply, i: int)
    ensures
        reply matches Reply::Modes(names) ==> (reply@ matches Json::Object(all) && {
            &&& all.dom() == set!["ok"@, "modes"@]
            &&& all["ok"@] == Json::Bool(true)
            &&& (all["modes"@] matches Json::List(items) && {
                &&& items.len() == names@.len()
                &&& 0 <= i < items.len() ==> items[i] == Json::Text(names@[i]@)
            })
        }),
        reply matches Reply::Devices(devices) ==> (reply@ matches Json::Object(all) && {
            &&& all.dom() == set!["ok"@, "devices"@]
            &&& all["ok"@] == Json::Bool(true)
            &&& (all["devices"@] matches Json::List(items) && {
                &&& items.len() == devices@.len()
                &&& 0 <= i < items.len() ==> items[i] == Json::Object(
                    Map::<Seq<char>, Json>::empty().insert("id"@, Json::Whole(i)).insert(
                        "name"@,
                        Json::Text(devices@[i].name@),
                    ).insert("has_input"@, Json::Bool(devices@[i].has_input)).insert(
                        "has_output"@,
                        Json::Bool(devices@[i].has_output),
                    ),
                )
            })
        }),
{
    lemma_member_names();
    match reply {
        Reply::Modes(_) => {
            assert(reply@->Object_0.dom() =~= set!["ok"@, "modes"@]);
        },
        Reply::Devices(devices) => {
            assert(reply@->Object_0.dom() =~= set!["ok"@, "devices"@]);
            if 0 <= i < devices@.len() {
                assert(device_json(i, devices@[i])->Object_0 =~= Map::<Seq<char>, Json>::empty().insert(
                    "id"@,
                    Json::Whole(i),
                ).insert("name"@, Json::Text(devices@[i].name@)).insert(
                    "has_input"@,
                    Json::Bool(devices@[i].has_input),
                ).insert("has_output"@, Json::Bool(devices@[i].has_output)));
            }
        },
        _ => {},
    }
}

/// An answer says that a request was carried out where its member `ok` is true, and
/// that it was not where it is false.
pub proof fn law_says_ok(all: Map<Seq<char>, Json>, ok: bool)
    requires
        all.dom().contains("ok"@),
        all["ok"@] == Json::Bool(ok),
    ensures
        says_ok(Json::Object(all)) == Some(ok),
{
}

/// The answers that give numbers give the numbers they are made of, and a refusal
/// gives its reason.
pub proof fn law_answers_give_what_they_are_told(pushed: int, samples: int, reason: Seq<char>)
    ensures
        done_json() == Json::Object(
            Map::<Seq<char>, Json>::empty().insert("ok"@, Json::Bool(true)),
        ),
        failed_json(reason) == Json::Object(
            Map::<Seq<char>, Json>::empty().insert("error"@, Json::Text(reason)).insert(
                "ok"@,
                Json::Bool(false),
            ),
        ),
        queued_json(pushed) == Json::Object(
            Map::<Seq<char>, Json>::empty().insert("pushed"@, Json::Whole(pushed)).insert(
                "ok"@,
                Json::Bool(true),
            ),
        ),
        sent_json(pushed, samples) == Json::Object(
            Map::<Seq<char>, Json>::empty().insert("pushed"@, Json::Whole(pushed)).insert(
                "samples"@,
                Json::Whole(samples),
            ).insert("ok"@, Json::Bool(true)),
        ),
{
}

/// The answers that are built from values are those of the replies with the same
/// values.
pub proof fn law_answers_are_replies(
    devices: Vec<DeviceEntry>,
    names: Vec<String>,
    status: StatusReport,
)
    ensures
        devices_json(devices@) == Reply::Devices(devices)@,
        modes_json(names@.map_values(|name: String| name@)) == Reply::Modes(names)@,
        status_json(status) == Reply::Status(status)@,
{
}

} // verus!
