//! The bridge for agents: they read the kernel's state as JSON-RPC 2.0, a
//! message on each line.
//!
//! Each piece of state is offered twice, as a tool and as a resource. None of
//! them changes anything.
use vstd::prelude::*;

use crate::abi::ExitReason;
use crate::context;
use crate::context::MAX_TASKS;
use crate::dashboard;
use crate::frame_alloc;
use crate::ipc;
use crate::ipc::TraceEntry;
use crate::json;
use crate::json::Json;
use crate::kernel::Kernel;
use crate::metrics;
use crate::metrics::{MetricSample, Snapshot};
use crate::registry;
use crate::registry::{Name, ServiceRecord};
use crate::text;

verus! {

/// The longest request line. Longer lines are discarded whole.
pub const MAX_LINE: usize = 16384;

/// What the kernel does not keep itself.
#[derive(Clone, Copy)]
pub struct Facts {
    pub board: &'static str,
    pub uptime_ns: u64,
    pub heap_used: u64,
    pub heap_total: u64,
}

pub open spec fn no_fields() -> Map<Seq<char>, Json> {
    Map::empty()
}

pub open spec fn words(s: Seq<char>) -> Json {
    Json::Text(s)
}

/// Board, uptime, counts and heap usage.
pub open spec fn system_tree(k: Kernel, f: Facts) -> Json {
    Json::Fields(
        no_fields().insert("board"@, words(f.board@)).insert(
            "uptime_ns"@,
            Json::Int(f.uptime_ns as int),
        ).insert("tasks"@, Json::Int(context::live_count(k.sched.tasks@, MAX_TASKS as int))).insert(
            "ipc_channels"@,
            Json::Int(k.ipc@.next_id as int),
        ).insert("frames_free"@, Json::Int(k.frames.count() as int)).insert(
            "heap"@,
            Json::Fields(
                no_fields().insert("used_bytes"@, Json::Int(f.heap_used as int)).insert(
                    "total_bytes"@,
                    Json::Int(f.heap_total as int),
                ),
            ),
        ),
    )
}

/// A name as it is shown.
pub open spec fn name_tree(n: Seq<u8>) -> Json {
    words(vstd::utf8::decode_utf8(registry::shown(n)))
}

pub open spec fn reason_tree(r: Option<ExitReason>) -> Json {
    match r {
        None => Json::Null,
        Some(ExitReason::Clean) => words("clean"@),
        Some(ExitReason::Fault) => words("fault"@),
        Some(ExitReason::Panic) => words("panic"@),
    }
}

pub open spec fn service_tree(s: ServiceRecord) -> Json {
    Json::Fields(
        no_fields().insert("name"@, name_tree(s.name@)).insert(
            "task"@,
            match s.task {
                Some(t) => Json::Int(t as int),
                None => Json::Null,
            },
        ).insert("running"@, Json::Bool(s.task is Some)).insert(
            "restarts"@,
            Json::Int(
                if s.starts > 0 {
                    s.starts - 1
                } else {
                    0
                },
            ),
        ).insert("exits"@, Json::Int(s.exits as int)).insert("last_exit"@, reason_tree(s.last_exit)),
    )
}

/// The services among the first `n` records.
pub open spec fn service_trees(r: Seq<Option<ServiceRecord>>, n: int) -> Seq<Json>
    decreases n,
{
    if n <= 0 {
        Seq::empty()
    } else {
        match r[n - 1] {
            Some(s) => service_trees(r, n - 1).push(service_tree(s)),
            None => service_trees(r, n - 1),
        }
    }
}

/// The named tasks among the first `n`.
pub open spec fn task_trees(names: Seq<Name>, n: int) -> Seq<Json>
    decreases n,
{
    if n <= 0 {
        Seq::empty()
    } else if names[n - 1]@.len() > 0 {
        task_trees(names, n - 1).push(
            Json::Fields(
                no_fields().insert("id"@, Json::Int(n - 1)).insert(
                    "name"@,
                    name_tree(names[n - 1]@),
                ),
            ),
        )
    } else {
        task_trees(names, n - 1)
    }
}

/// A task of the trace: its id and its name, if it has one.
pub open spec fn task_tree(names: Seq<Name>, id: int) -> Json {
    let known = id < registry::MAX_TASKS && names[id]@.len() > 0;
    Json::Fields(
        no_fields().insert("id"@, Json::Int(id)).insert(
            "name"@,
            if known {
                name_tree(names[id]@)
            } else {
                Json::Null
            },
        ),
    )
}

/// A message of the trace. No receiver is given where none was known when it
/// was sent.
pub open spec fn message_tree(names: Seq<Name>, e: TraceEntry) -> Json {
    Json::Fields(
        no_fields().insert("timestamp_ns"@, Json::Int(e.timestamp_ns as int)).insert(
            "from"@,
            task_tree(names, e.from_task as int),
        ).insert(
            "to"@,
            if e.to_task != 0xFFFF {
                task_tree(names, e.to_task as int)
            } else {
                Json::Null
            },
        ).insert("channel"@, Json::Int(e.channel as int)).insert(
            "type"@,
            words(dashboard::label_of_tag(e.tag)),
        ).insert("tag"@, Json::Int(e.tag as int)),
    )
}

pub open spec fn sample_tree(s: MetricSample) -> Json {
    Json::Fields(
        no_fields().insert("latest_us"@, Json::Int(s.latest as int)).insert(
            "max_us"@,
            Json::Int(s.max as int),
        ),
    )
}

pub open spec fn metrics_tree(m: Snapshot) -> Json {
    Json::Fields(
        no_fields().insert("frame"@, sample_tree(m.frame_us)).insert(
            "present"@,
            sample_tree(m.present_us),
        ).insert("background"@, sample_tree(m.background_us)).insert(
            "windows"@,
            sample_tree(m.windows_us),
        ).insert("chrome"@, sample_tree(m.chrome_us)).insert(
            "input_to_photon"@,
            sample_tree(m.input_to_photon_us),
        ).insert(
            "ipc_delivery"@,
            Json::Fields(
                no_fields().insert("latest_ns"@, Json::Int(m.ipc_delivery_ns.latest as int)).insert(
                    "max_ns"@,
                    Json::Int(m.ipc_delivery_ns.max as int),
                ),
            ),
        ).insert("scheduler_wake"@, sample_tree(m.sched_wake_us)),
    )
}

/// How many pieces of state there are.
pub const VIEWS: usize = 5;

pub open spec fn view_name(i: int) -> Seq<char> {
    if i == 0 {
        "system"@
    } else if i == 1 {
        "services"@
    } else if i == 2 {
        "tasks"@
    } else if i == 3 {
        "message_trace"@
    } else {
        "metrics"@
    }
}

pub open spec fn view_description(i: int) -> Seq<char> {
    if i == 0 {
        "Board, uptime, task and IPC channel counts, and kernel heap usage."@
    } else if i == 1 {
        "Every service started so far, from the kernel's registry: its task, whether it is running, restart and exit counts, and why it last exited."@
    } else if i == 2 {
        "Running tasks by id, with the names the kernel registered for them."@
    } else if i == 3 {
        "The last 64 IPC messages, oldest first: sender, receiver, channel and message type. The same data the dashboard's flow view draws."@
    } else {
        "Latency metrics in microseconds (latest and max): compositor frame phases, input-to-photon and scheduler wake-up; IPC delivery time in nanoseconds."@
    }
}

/// The state that view `i` shows.
pub open spec fn view_tree(i: int, k: Kernel, f: Facts) -> Json {
    if i == 0 {
        system_tree(k, f)
    } else if i == 1 {
        Json::List(service_trees(k.registry.records(), k.registry.records().len() as int))
    } else if i == 2 {
        Json::List(task_trees(k.registry.names(), MAX_TASKS as int))
    } else if i == 3 {
        Json::List(
            Seq::new(
                k.ipc@.trace.len(),
                |j: int| message_tree(k.registry.names(), k.ipc@.trace[j]),
            ),
        )
    } else {
        metrics_tree(k.metrics@.samples)
    }
}

/// The place, from `from` on, of the view of that name.
pub open spec fn place(name: Seq<char>, from: int) -> Option<int>
    decreases VIEWS - from,
{
    if from >= VIEWS {
        None
    } else if view_name(from) == name {
        Some(from)
    } else {
        place(name, from + 1)
    }
}

pub open spec fn view_uri(i: int) -> Seq<char> {
    "freshos://"@ + view_name(i)
}

pub open spec fn tool_tree(i: int) -> Json {
    Json::Fields(
        no_fields().insert("name"@, words(view_name(i))).insert(
            "description"@,
            words(view_description(i)),
        ).insert(
            "inputSchema"@,
            Json::Fields(
                no_fields().insert("type"@, words("object"@)).insert(
                    "properties"@,
                    Json::Fields(no_fields()),
                ),
            ),
        ).insert(
            "annotations"@,
            Json::Fields(no_fields().insert("readOnlyHint"@, Json::Bool(true))),
        ),
    )
}

pub open spec fn resource_tree(i: int) -> Json {
    Json::Fields(
        no_fields().insert("uri"@, words(view_uri(i))).insert("name"@, words(view_name(i))).insert(
            "description"@,
            words(view_description(i)),
        ).insert("mimeType"@, words("application/json"@)),
    )
}

/// The answer to a tool call: the state, as text.
pub open spec fn tool_result(i: int, k: Kernel, f: Facts) -> Json {
    Json::Fields(
        no_fields().insert(
            "content"@,
            Json::List(
                seq![
                    Json::Fields(
                        no_fields().insert("type"@, words("text"@)).insert(
                            "text"@,
                            words(json::spelled(view_tree(i, k, f))),
                        ),
                    ),
                ],
            ),
        ).insert("isError"@, Json::Bool(false)),
    )
}

/// The contents of a resource: the state, as text.
pub open spec fn resource_result(uri: Seq<char>, i: int, k: Kernel, f: Facts) -> Json {
    Json::Fields(
        no_fields().insert(
            "contents"@,
            Json::List(
                seq![
                    Json::Fields(
                        no_fields().insert("uri"@, words(uri)).insert(
                            "mimeType"@,
                            words("application/json"@),
                        ).insert("text"@, words(json::spelled(view_tree(i, k, f)))),
                    ),
                ],
            ),
        ),
    )
}

pub open spec fn initialize_tree(version: Seq<char>) -> Json {
    let empty = Json::Fields(no_fields());
    Json::Fields(
        no_fields().insert("protocolVersion"@, words(version)).insert(
            "capabilities"@,
            Json::Fields(no_fields().insert("tools"@, empty).insert("resources"@, empty)),
        ).insert(
            "serverInfo"@,
            Json::Fields(
                no_fields().insert("name"@, words("freshos"@)).insert("version"@, words("0.1.0"@)),
            ),
        ).insert(
            "instructions"@,
            words(
                "A read-only view of a running FreshOS kernel. Every tool reports current state; none changes it."@,
            ),
        ),
    )
}

/// A field that is a text.
pub open spec fn text_field(j: Json, key: Seq<char>) -> Option<Seq<char>> {
    match json::field(j, key) {
        Some(Json::Text(s)) => Some(s),
        _ => None,
    }
}

/// What a method answers: its result, or the code and the text of an error.
pub open spec fn answer(method: Seq<char>, params: Json, k: Kernel, f: Facts) -> Result<
    Json,
    (int, Seq<char>),
> {
    if method == "initialize"@ {
        Ok(
            initialize_tree(
                match text_field(params, "protocolVersion"@) {
                    Some(v) => v,
                    None => "2025-06-18"@,
                },
            ),
        )
    } else if method == "ping"@ {
        Ok(Json::Fields(no_fields()))
    } else if method == "tools/list"@ {
        Ok(
            Json::Fields(
                no_fields().insert(
                    "tools"@,
                    Json::List(Seq::new(VIEWS as nat, |i: int| tool_tree(i))),
                ),
            ),
        )
    } else if method == "tools/call"@ {
        match text_field(params, "name"@) {
            None => Err((-32602, "missing tool name"@)),
            Some(name) => match place(name, 0) {
                None => Err((-32602, "unknown tool"@)),
                Some(i) => Ok(tool_result(i, k, f)),
            },
        }
    } else if method == "resources/list"@ {
        Ok(
            Json::Fields(
                no_fields().insert(
                    "resources"@,
                    Json::List(Seq::new(VIEWS as nat, |i: int| resource_tree(i))),
                ),
            ),
        )
    } else if method == "resources/read"@ {
        match text_field(params, "uri"@) {
            None => Err((-32602, "missing uri"@)),
            Some(uri) => match named_by(uri) {
                None => Err((-32002, "resource not found"@)),
                Some(i) => Ok(resource_result(uri, i, k, f)),
            },
        }
    } else {
        Err((-32601, "method not found"@))
    }
}

/// The view that a resource names.
pub open spec fn named_by(uri: Seq<char>) -> Option<int> {
    let scheme = "freshos://"@;
    if scheme.is_prefix_of(uri) {
        place(uri.skip(scheme.len() as int), 0)
    } else {
        None
    }
}

pub open spec fn error_tree(id: Json, code: int, message: Seq<char>) -> Json {
    Json::Fields(
        no_fields().insert("jsonrpc"@, words("2.0"@)).insert("id"@, id).insert(
            "error"@,
            Json::Fields(
                no_fields().insert("code"@, Json::Int(code)).insert("message"@, words(message)),
            ),
        ),
    )
}

/// The response to a message: none to one that is no request, or that has no
/// id.
pub open spec fn response(message: Json, k: Kernel, f: Facts) -> Option<Json> {
    match (text_field(message, "method"@), json::field(message, "id"@)) {
        (Some(method), Some(id)) => {
            let params = match json::field(message, "params"@) {
                Some(p) => p,
                None => Json::Null,
            };
            Some(
                match answer(method, params, k, f) {
                    Ok(result) => Json::Fields(
                        no_fields().insert("jsonrpc"@, words("2.0"@)).insert("id"@, id).insert(
                            "result"@,
                            result,
                        ),
                    ),
                    Err((code, message)) => error_tree(id, code, message),
                },
            )
        },
        _ => None,
    }
}

pub open spec fn is_blank(line: Seq<u8>) -> bool {
    forall|i: int| 0 <= i < line.len() ==> blank_byte(#[trigger] line[i])
}

pub open spec fn blank_byte(b: u8) -> bool {
    b == 0x20 || b == 0x09 || b == 0x0A || b == 0x0C || b == 0x0D
}

/// The response to a line.
pub open spec fn line_response(line: Seq<u8>, k: Kernel, f: Facts) -> Option<Json> {
    if is_blank(line) {
        None
    } else {
        match json::parsed(line) {
            None => Some(error_tree(Json::Null, -32700, "parse error"@)),
            Some(message) => response(message, k, f),
        }
    }
}

/// What is logged of a message: the method of a request.
pub open spec fn noted(message: Json) -> Seq<char> {
    match (text_field(message, "method"@), json::field(message, "id"@)) {
        (Some(method), Some(_)) => "[mcp] "@ + method + "\n"@,
        _ => Seq::empty(),
    }
}

/// What is logged of a line.
pub open spec fn line_noted(line: Seq<u8>) -> Seq<char> {
    if is_blank(line) {
        Seq::empty()
    } else {
        match json::parsed(line) {
            None => Seq::empty(),
            Some(message) => noted(message),
        }
    }
}

/// A notification, which has no id, never gets a reply.
pub proof fn law_notifications_get_no_reply(message: Json, k: Kernel, f: Facts)
    requires
        json::field(message, "id"@) is None,
    ensures
        response(message, k, f) is None,
{
}

proof fn lemma_views_differ()
    ensures
        forall|i: int| 0 <= i < VIEWS ==> #[trigger] place(view_name(i), 0) == Some(i),
{
    reveal_strlit("system");
    reveal_strlit("services");
    reveal_strlit("tasks");
    reveal_strlit("message_trace");
    reveal_strlit("metrics");
    assert forall|i: int| 0 <= i < VIEWS implies #[trigger] place(view_name(i), 0) == Some(i) by {
        reveal_with_fuel(place, 6);
        assert(view_name(0).len() == 6);
        assert(view_name(1).len() == 8);
        assert(view_name(2).len() == 5);
        assert(view_name(3).len() == 13);
        assert(view_name(4).len() == 7);
        assert(i == 0 || i == 1 || i == 2 || i == 3 || i == 4);
    }
}

/// Every view can be called as a tool and read as a resource, and both give the
/// same state.
pub proof fn law_tools_and_resources_agree(i: int, k: Kernel, f: Facts)
    requires
        0 <= i < VIEWS,
    ensures
        answer(
            "tools/call"@,
            Json::Fields(no_fields().insert("name"@, words(view_name(i)))),
            k,
            f,
        ) == Ok::<Json, (int, Seq<char>)>(tool_result(i, k, f)),
        answer(
            "resources/read"@,
            Json::Fields(no_fields().insert("uri"@, words(view_uri(i)))),
            k,
            f,
        ) == Ok::<Json, (int, Seq<char>)>(resource_result(view_uri(i), i, k, f)),
{
    reveal_strlit("initialize");
    reveal_strlit("ping");
    reveal_strlit("tools/list");
    reveal_strlit("tools/call");
    reveal_strlit("resources/list");
    reveal_strlit("resources/read");
    reveal_strlit("freshos://");
    lemma_views_differ();
    let (call, read) = ("tools/call"@, "resources/read"@);
    assert(call[0] == 't' && call[6] == 'c' && "initialize"@[0] == 'i' && "tools/list"@[6] == 'l');
    assert(read[10] == 'r' && "resources/list"@[10] == 'l');
    assert(read.len() == 14 && "initialize"@.len() == 10 && "ping"@.len() == 4 && call.len() == 10
        && "tools/list"@.len() == 10);
    assert(call != "initialize"@ && call != "ping"@ && call != "tools/list"@);
    assert(read != "initialize"@ && read != "ping"@ && read != "tools/list"@ && read != call
        && read != "resources/list"@);
    let named = Json::Fields(no_fields().insert("name"@, words(view_name(i))));
    assert(text_field(named, "name"@) == Some(view_name(i)));
    let located = Json::Fields(no_fields().insert("uri"@, words(view_uri(i))));
    assert(text_field(located, "uri"@) == Some(view_uri(i)));
    assert(view_uri(i).skip(10) =~= view_name(i));
    assert("freshos://"@.is_prefix_of(view_uri(i))) by {
        assert(view_uri(i).subrange(0, 10) =~= "freshos://"@);
    }
}

fn name_value(n: &Name) -> (v: serde_json::Value)
    requires
        n.wf(),
    ensures
        json::tree(v) == name_tree(n@),
{
    let bytes: Vec<u8> = n.as_str();
    match text::utf8_text(bytes.as_slice()) {
        Some(s) => {
            proof {
                vstd::utf8::encode_utf8_decode_utf8(s@);
            }
            json::text(s)
        },
        None => {
            proof {
                text::lemma_question_mark();
            }
            json::text("?")
        },
    }
}

fn system_view(k: &Kernel, f: &Facts) -> (v: serde_json::Value)
    requires
        k.wf(),
    ensures
        json::tree(v) == system_tree(*k, *f),
{
    let mut o: serde_json::Value = json::object();
    json::put(&mut o, "board", json::text(f.board));
    json::put(&mut o, "uptime_ns", json::number(f.uptime_ns));
    json::put(&mut o, "tasks", json::number(context::task_count(&k.sched) as u64));
    json::put(&mut o, "ipc_channels", json::number(ipc::channel_count(&k.ipc) as u64));
    json::put(&mut o, "frames_free", json::number(frame_alloc::free_count(&k.frames) as u64));
    let mut h: serde_json::Value = json::object();
    json::put(&mut h, "used_bytes", json::number(f.heap_used));
    json::put(&mut h, "total_bytes", json::number(f.heap_total));
    json::put(&mut o, "heap", h);
    o
}

fn service_value(s: &ServiceRecord) -> (v: serde_json::Value)
    requires
        s.name.wf(),
    ensures
        json::tree(v) == service_tree(*s),
{
    let mut o: serde_json::Value = json::object();
    json::put(&mut o, "name", name_value(&s.name));
    json::put(
        &mut o,
        "task",
        match s.task {
            Some(t) => json::number(t as u64),
            None => json::null(),
        },
    );
    json::put(&mut o, "running", json::truth(s.task.is_some()));
    json::put(&mut o, "restarts", json::number(s.starts.saturating_sub(1)));
    json::put(&mut o, "exits", json::number(s.exits));
    json::put(
        &mut o,
        "last_exit",
        match s.last_exit {
            Some(r) => json::text(r.as_str()),
            None => json::null(),
        },
    );
    o
}

fn services_view(k: &Kernel) -> (v: serde_json::Value)
    requires
        k.wf(),
    ensures
        json::tree(v) == view_tree(1, *k, arbitrary()),
{
    let records: Vec<Option<ServiceRecord>> = registry::services(&k.registry);
    let mut out: Vec<serde_json::Value> = Vec::new();
    let mut i: usize = 0;
    assert(json::trees(out@) =~= service_trees(records@, 0));
    while i < records.len()
        invariant
            i <= records@.len(),
            k.registry.wf(),
            records@ == k.registry.records(),
            json::trees(out@) == service_trees(records@, i as int),
        decreases records@.len() - i,
    {
        let ghost before = out@;
        if let Some(s) = &records[i] {
            assert(k.registry.records()[i as int] is Some);
            out.push(service_value(s));
        }
        i = i + 1;
        proof {
            assert(json::trees(out@) =~= service_trees(records@, i as int));
        }
    }
    json::list(out)
}

fn tasks_view(k: &Kernel) -> (v: serde_json::Value)
    requires
        k.wf(),
    ensures
        json::tree(v) == view_tree(2, *k, arbitrary()),
{
    let mut out: Vec<serde_json::Value> = Vec::new();
    let mut i: usize = 0;
    assert(json::trees(out@) =~= task_trees(k.registry.names(), 0));
    while i < MAX_TASKS
        invariant
            i <= MAX_TASKS,
            k.registry.wf(),
            json::trees(out@) == task_trees(k.registry.names(), i as int),
        decreases MAX_TASKS - i,
    {
        let name: Name = registry::name(&k.registry, i);
        if !name.is_empty() {
            let mut o: serde_json::Value = json::object();
            json::put(&mut o, "id", json::number(i as u64));
            json::put(&mut o, "name", name_value(&name));
            out.push(o);
        }
        i = i + 1;
        assert(json::trees(out@) =~= task_trees(k.registry.names(), i as int));
    }
    json::list(out)
}

fn task_value(k: &Kernel, id: usize) -> (v: serde_json::Value)
    requires
        k.wf(),
    ensures
        json::tree(v) == task_tree(k.registry.names(), id as int),
{
    let name: Name = registry::name(&k.registry, id);
    let mut o: serde_json::Value = json::object();
    json::put(&mut o, "id", json::number(id as u64));
    json::put(
        &mut o,
        "name",
        if name.is_empty() {
            json::null()
        } else {
            name_value(&name)
        },
    );
    o
}

fn trace_view(k: &Kernel) -> (v: serde_json::Value)
    requires
        k.wf(),
    ensures
        json::tree(v) == view_tree(3, *k, arbitrary()),
{
    let empty: TraceEntry = TraceEntry {
        timestamp_ns: 0,
        from_task: 0,
        to_task: 0,
        channel: 0,
        tag: 0,
    };
    let mut entries: Vec<TraceEntry> = vec![empty; ipc::TRACE_SIZE];
    let count: usize = ipc::trace_read(&k.ipc, &mut entries, ipc::TRACE_SIZE);
    proof {
        ipc::law_bounds(k.ipc);
    }
    assert(count == k.ipc@.trace.len());
    let ghost all = Seq::new(
        k.ipc@.trace.len(),
        |j: int| message_tree(k.registry.names(), k.ipc@.trace[j]),
    );
    let mut out: Vec<serde_json::Value> = Vec::new();
    let mut i: usize = 0;
    assert(json::trees(out@) =~= all.take(0));
    while i < count
        invariant
            i <= count,
            k.wf(),
            count == k.ipc@.trace.len(),
            entries@.len() >= count,
            forall|j: int| 0 <= j < count ==> #[trigger] entries@[j] == k.ipc@.trace[j],
            all == Seq::new(
                k.ipc@.trace.len(),
                |j: int| message_tree(k.registry.names(), k.ipc@.trace[j]),
            ),
            json::trees(out@) == all.take(i as int),
        decreases count - i,
    {
        let e: TraceEntry = entries[i];
        let mut o: serde_json::Value = json::object();
        json::put(&mut o, "timestamp_ns", json::number(e.timestamp_ns));
        json::put(&mut o, "from", task_value(k, e.from_task as usize));
        json::put(
            &mut o,
            "to",
            if e.to_task != 0xFFFF {
                task_value(k, e.to_task as usize)
            } else {
                json::null()
            },
        );
        json::put(&mut o, "channel", json::number(e.channel as u64));
        json::put(&mut o, "type", json::text(dashboard::tag_label(e.tag)));
        json::put(&mut o, "tag", json::number(e.tag as u64));
        assert(entries@[i as int] == k.ipc@.trace[i as int]);
        assert(json::tree(o) == all[i as int]);
        let ghost before = out@;
        out.push(o);
        i = i + 1;
        assert(json::trees(out@) =~= json::trees(before).push(json::tree(o)));
        assert(all.take(i as int) =~= all.take(i - 1).push(all[i - 1]));
        assert(json::trees(out@) =~= all.take(i as int));
    }
    assert(all.take(count as int) =~= all);
    json::list(out)
}

fn sample_value(s: &MetricSample) -> (v: serde_json::Value)
    ensures
        json::tree(v) == sample_tree(*s),
{
    let mut o: serde_json::Value = json::object();
    json::put(&mut o, "latest_us", json::number(s.latest));
    json::put(&mut o, "max_us", json::number(s.max));
    o
}

fn metrics_view(k: &Kernel) -> (v: serde_json::Value)
    ensures
        json::tree(v) == metrics_tree(k.metrics@.samples),
{
    let m: Snapshot = metrics::snapshot(&k.metrics);
    let mut o: serde_json::Value = json::object();
    json::put(&mut o, "frame", sample_value(&m.frame_us));
    json::put(&mut o, "present", sample_value(&m.present_us));
    json::put(&mut o, "background", sample_value(&m.background_us));
    json::put(&mut o, "windows", sample_value(&m.windows_us));
    json::put(&mut o, "chrome", sample_value(&m.chrome_us));
    json::put(&mut o, "input_to_photon", sample_value(&m.input_to_photon_us));
    let mut d: serde_json::Value = json::object();
    json::put(&mut d, "latest_ns", json::number(m.ipc_delivery_ns.latest));
    json::put(&mut d, "max_ns", json::number(m.ipc_delivery_ns.max));
    json::put(&mut o, "ipc_delivery", d);
    json::put(&mut o, "scheduler_wake", sample_value(&m.sched_wake_us));
    o
}

/// What view `i` shows.
pub fn read_view(i: usize, k: &Kernel, f: &Facts) -> (v: serde_json::Value)
    requires
        i < VIEWS,
        k.wf(),
    ensures
        json::tree(v) == view_tree(i as int, *k, *f),
{
    match i {
        0 => system_view(k, f),
        1 => services_view(k),
        2 => tasks_view(k),
        3 => trace_view(k),
        _ => metrics_view(k),
    }
}

fn name_of(i: usize) -> (r: &'static str)
    ensures
        r@ == view_name(i as int),
{
    match i {
        0 => "system",
        1 => "services",
        2 => "tasks",
        3 => "message_trace",
        _ => "metrics",
    }
}

fn description_of(i: usize) -> (r: &'static str)
    ensures
        r@ == view_description(i as int),
{
    match i {
        0 => "Board, uptime, task and IPC channel counts, and kernel heap usage.",
        1 => "Every service started so far, from the kernel's registry: its task, whether it is running, restart and exit counts, and why it last exited.",
        2 => "Running tasks by id, with the names the kernel registered for them.",
        3 => "The last 64 IPC messages, oldest first: sender, receiver, channel and message type. The same data the dashboard's flow view draws.",
        _ => "Latency metrics in microseconds (latest and max): compositor frame phases, input-to-photon and scheduler wake-up; IPC delivery time in nanoseconds.",
    }
}

fn find_view(name: &Vec<char>) -> (r: Option<usize>)
    ensures
        match r {
            Some(i) => place(name@, 0) == Some(i as int) && i < VIEWS,
            None => place(name@, 0) is None,
        },
{
    let mut i: usize = 0;
    while i < VIEWS
        invariant
            i <= VIEWS,
            place(name@, 0) == place(name@, i as int),
        decreases VIEWS - i,
    {
        if text::is_text(name_of(i), name) {
            return Some(i);
        }
        i = i + 1;
    }
    None
}

fn find_resource(uri: &Vec<char>) -> (r: Option<usize>)
    ensures
        match r {
            Some(i) => named_by(uri@) == Some(i as int) && i < VIEWS,
            None => named_by(uri@) is None,
        },
{
    let mut scheme: Vec<char> = Vec::new();
    text::push_str(&mut scheme, "freshos://");
    assert(scheme@ =~= "freshos://"@);
    if uri.len() < scheme.len() {
        return None;
    }
    let n: usize = scheme.len();
    let mut i: usize = 0;
    while i < n
        invariant
            i <= n,
            n == scheme@.len(),
            n <= uri@.len(),
            scheme@ == "freshos://"@,
            forall|j: int| 0 <= j < i ==> scheme@[j] == uri@[j],
        decreases n - i,
    {
        if scheme[i] != uri[i] {
            assert(uri@.subrange(0, n as int)[i as int] != scheme@[i as int]);
            return None;
        }
        i = i + 1;
    }
    assert(uri@.subrange(0, n as int) =~= scheme@);
    let mut rest: Vec<char> = Vec::new();
    while i < uri.len()
        invariant
            n <= i <= uri@.len(),
            rest@ == uri@.subrange(n as int, i as int),
        decreases uri@.len() - i,
    {
        rest.push(uri[i]);
        i = i + 1;
        assert(rest@ =~= uri@.subrange(n as int, i as int));
    }
    assert(rest@ =~= uri@.skip(n as int));
    find_view(&rest)
}

fn tool_value(i: usize) -> (v: serde_json::Value)
    ensures
        json::tree(v) == tool_tree(i as int),
{
    let mut schema: serde_json::Value = json::object();
    json::put(&mut schema, "type", json::text("object"));
    json::put(&mut schema, "properties", json::object());
    let mut hints: serde_json::Value = json::object();
    json::put(&mut hints, "readOnlyHint", json::truth(true));
    let mut o: serde_json::Value = json::object();
    json::put(&mut o, "name", json::text(name_of(i)));
    json::put(&mut o, "description", json::text(description_of(i)));
    json::put(&mut o, "inputSchema", schema);
    json::put(&mut o, "annotations", hints);
    o
}

fn resource_value(i: usize) -> (v: serde_json::Value)
    ensures
        json::tree(v) == resource_tree(i as int),
{
    let uri: String = text::joined("freshos://", name_of(i));
    let mut o: serde_json::Value = json::object();
    json::put(&mut o, "uri", json::text(uri.as_str()));
    json::put(&mut o, "name", json::text(name_of(i)));
    json::put(&mut o, "description", json::text(description_of(i)));
    json::put(&mut o, "mimeType", json::text("application/json"));
    o
}

/// A list with one item for each view.
fn for_each_view(tools: bool) -> (v: serde_json::Value)
    ensures
        json::tree(v) == Json::List(
            Seq::new(
                VIEWS as nat,
                |i: int|
                    if tools {
                        tool_tree(i)
                    } else {
                        resource_tree(i)
                    },
            ),
        ),
{
    let ghost all = Seq::new(
        VIEWS as nat,
        |i: int|
            if tools {
                tool_tree(i)
            } else {
                resource_tree(i)
            },
    );
    let mut out: Vec<serde_json::Value> = Vec::new();
    let mut i: usize = 0;
    assert(json::trees(out@) =~= all.take(0));
    while i < VIEWS
        invariant
            i <= VIEWS,
            all == Seq::new(
                VIEWS as nat,
                |j: int|
                    if tools {
                        tool_tree(j)
                    } else {
                        resource_tree(j)
                    },
            ),
            json::trees(out@) == all.take(i as int),
        decreases VIEWS - i,
    {
        let v: serde_json::Value = if tools { tool_value(i) } else { resource_value(i) };
        let ghost before = out@;
        out.push(v);
        assert(json::tree(v) == all[i as int]);
        i = i + 1;
        assert(json::trees(out@) =~= json::trees(before).push(json::tree(v)));
        assert(all.take(i as int) =~= all.take(i - 1).push(all[i - 1]));
        assert(json::trees(out@) =~= all.take(i as int));
    }
    assert(all.take(VIEWS as int) =~= all);
    json::list(out)
}

fn initialize(params: &serde_json::Value) -> (v: serde_json::Value)
    ensures
        json::tree(v) == initialize_tree(
            match text_field(json::tree(*params), "protocolVersion"@) {
                Some(v) => v,
                None => "2025-06-18"@,
            },
        ),
{
    let version: serde_json::Value = match text_of(params, "protocolVersion") {
        Some(s) => json::text(s),
        None => json::text("2025-06-18"),
    };
    let mut capabilities: serde_json::Value = json::object();
    json::put(&mut capabilities, "tools", json::object());
    json::put(&mut capabilities, "resources", json::object());
    let mut info: serde_json::Value = json::object();
    json::put(&mut info, "name", json::text("freshos"));
    json::put(&mut info, "version", json::text("0.1.0"));
    let mut o: serde_json::Value = json::object();
    json::put(&mut o, "protocolVersion", version);
    json::put(&mut o, "capabilities", capabilities);
    json::put(&mut o, "serverInfo", info);
    json::put(
        &mut o,
        "instructions",
        json::text(
            "A read-only view of a running FreshOS kernel. Every tool reports current state; none changes it.",
        ),
    );
    o
}

fn text_of<'a>(v: &'a serde_json::Value, key: &str) -> (r: Option<&'a str>)
    ensures
        match r {
            Some(s) => text_field(json::tree(*v), key@) == Some(s@),
            None => text_field(json::tree(*v), key@) is None,
        },
{
    match json::get(v, key) {
        None => None,
        Some(x) => json::as_str(x),
    }
}

fn one(v: serde_json::Value) -> (r: serde_json::Value)
    ensures
        json::tree(r) == Json::List(seq![json::tree(v)]),
{
    let ghost t = json::tree(v);
    let mut out: Vec<serde_json::Value> = Vec::new();
    out.push(v);
    assert(json::trees(out@) =~= seq![t]);
    json::list(out)
}

fn tool_answer(i: usize, k: &Kernel, f: &Facts) -> (v: serde_json::Value)
    requires
        i < VIEWS,
        k.wf(),
    ensures
        json::tree(v) == tool_result(i as int, *k, *f),
{
    let rendered: String = json::to_text(&read_view(i, k, f));
    let mut c: serde_json::Value = json::object();
    json::put(&mut c, "type", json::text("text"));
    json::put(&mut c, "text", json::text(rendered.as_str()));
    let mut o: serde_json::Value = json::object();
    json::put(&mut o, "content", one(c));
    json::put(&mut o, "isError", json::truth(false));
    o
}

fn resource_answer(uri: &str, i: usize, k: &Kernel, f: &Facts) -> (v: serde_json::Value)
    requires
        i < VIEWS,
        k.wf(),
    ensures
        json::tree(v) == resource_result(uri@, i as int, *k, *f),
{
    let rendered: String = json::to_text(&read_view(i, k, f));
    let mut c: serde_json::Value = json::object();
    json::put(&mut c, "uri", json::text(uri));
    json::put(&mut c, "mimeType", json::text("application/json"));
    json::put(&mut c, "text", json::text(rendered.as_str()));
    let mut o: serde_json::Value = json::object();
    json::put(&mut o, "contents", one(c));
    o
}

/// An answer as plain values.
pub open spec fn answer_of(r: Result<serde_json::Value, (i64, &'static str)>) -> Result<
    Json,
    (int, Seq<char>),
> {
    match r {
        Ok(v) => Ok(json::tree(v)),
        Err((code, message)) => Err((code as int, message@)),
    }
}

/// Carries out a method.
pub fn dispatch(method: &str, params: &serde_json::Value, k: &Kernel, f: &Facts) -> (r: Result<
    serde_json::Value,
    (i64, &'static str),
>)
    requires
        k.wf(),
    ensures
        answer_of(r) == answer(method@, json::tree(*params), *k, *f),
{
    if text::same_text(method, "initialize") {
        Ok(initialize(params))
    } else if text::same_text(method, "ping") {
        Ok(json::object())
    } else if text::same_text(method, "tools/list") {
        let mut o: serde_json::Value = json::object();
        let tools: serde_json::Value = for_each_view(true);
        assert(json::tree(tools)->List_0 =~= Seq::new(VIEWS as nat, |i: int| tool_tree(i)));
        json::put(&mut o, "tools", tools);
        Ok(o)
    } else if text::same_text(method, "tools/call") {
        match text_of(params, "name") {
            None => Err((-32602, "missing tool name")),
            Some(name) => {
                let mut chars: Vec<char> = Vec::new();
                text::push_str(&mut chars, name);
                assert(chars@ =~= name@);
                match find_view(&chars) {
                    None => Err((-32602, "unknown tool")),
                    Some(i) => Ok(tool_answer(i, k, f)),
                }
            },
        }
    } else if text::same_text(method, "resources/list") {
        let mut o: serde_json::Value = json::object();
        let resources: serde_json::Value = for_each_view(false);
        assert(json::tree(resources)->List_0 =~= Seq::new(VIEWS as nat, |i: int| resource_tree(i)));
        json::put(&mut o, "resources", resources);
        Ok(o)
    } else if text::same_text(method, "resources/read") {
        match text_of(params, "uri") {
            None => Err((-32602, "missing uri")),
            Some(uri) => {
                let mut chars: Vec<char> = Vec::new();
                text::push_str(&mut chars, uri);
                assert(chars@ =~= uri@);
                match find_resource(&chars) {
                    None => Err((-32002, "resource not found")),
                    Some(i) => Ok(resource_answer(uri, i, k, f)),
                }
            },
        }
    } else {
        Err((-32601, "method not found"))
    }
}

fn error(id: serde_json::Value, code: i64, message: &str) -> (v: serde_json::Value)
    ensures
        json::tree(v) == error_tree(json::tree(id), code as int, message@),
{
    let mut e: serde_json::Value = json::object();
    json::put(&mut e, "code", json::integer(code));
    json::put(&mut e, "message", json::text(message));
    let mut o: serde_json::Value = json::object();
    json::put(&mut o, "jsonrpc", json::text("2.0"));
    json::put(&mut o, "id", id);
    json::put(&mut o, "error", e);
    o
}

pub open spec fn tree_of(v: Option<serde_json::Value>) -> Option<Json> {
    match v {
        Some(v) => Some(json::tree(v)),
        None => None,
    }
}

/// Handles one message.
pub fn handle_message(
    message: &serde_json::Value,
    k: &Kernel,
    f: &Facts,
    console: &mut Vec<char>,
) -> (r: Option<serde_json::Value>)
    requires
        k.wf(),
    ensures
        tree_of(r) == response(json::tree(*message), *k, *f),
        final(console)@ == old(console)@ + noted(json::tree(*message)),
{
    assert(old(console)@ + Seq::<char>::empty() =~= old(console)@);
    let method: &str = match text_of(message, "method") {
        None => {
            return None;
        },
        Some(s) => s,
    };
    let id: serde_json::Value = match json::get(message, "id") {
        None => {
            return None;
        },
        Some(id) => json::copy(id),
    };
    let params: serde_json::Value = match json::get(message, "params") {
        None => json::null(),
        Some(p) => json::copy(p),
    };
    text::push_str(console, "[mcp] ");
    text::push_str(console, method);
    text::push_str(console, "\n");
    assert(console@ =~= old(console)@ + noted(json::tree(*message)));
    match dispatch(method, &params, k, f) {
        Ok(result) => {
            let mut o: serde_json::Value = json::object();
            json::put(&mut o, "jsonrpc", json::text("2.0"));
            json::put(&mut o, "id", id);
            json::put(&mut o, "result", result);
            Some(o)
        },
        Err((code, message)) => Some(error(id, code, message)),
    }
}

/// Handles one line. The response, or none for notifications and for anything
/// that is no request.
pub fn handle_line(line: &Vec<u8>, k: &Kernel, f: &Facts, console: &mut Vec<char>) -> (r: Option<
    serde_json::Value,
>)
    requires
        k.wf(),
    ensures
        tree_of(r) == line_response(line@, *k, *f),
        final(console)@ == old(console)@ + line_noted(line@),
{
    assert(old(console)@ + Seq::<char>::empty() =~= old(console)@);
    let mut i: usize = 0;
    while i < line.len() && (line[i] == 0x20 || line[i] == 0x09 || line[i] == 0x0A || line[i] == 0x0C
        || line[i] == 0x0D)
        invariant
            i <= line@.len(),
            forall|j: int| 0 <= j < i ==> blank_byte(#[trigger] line@[j]),
        decreases line@.len() - i,
    {
        i = i + 1;
    }
    if i >= line.len() {
        return None;
    }
    assert(!blank_byte(line@[i as int]));
    match json::parse(line.as_slice()) {
        None => Some(error(json::null(), -32700, "parse error")),
        Some(message) => handle_message(&message, k, f, console),
    }
}

/// The line that is being received.
pub struct Bridge {
    pub line: Vec<u8>,
    pub discarding: bool,
}

/// One byte from the line: carriage returns are dropped, a line feed ends a
/// request, and a line that grows too long is discarded up to its end. Returns
/// the reply, as JSON text, where there is one.
pub fn bridge_el1(b: &mut Bridge, byte: u8, k: &Kernel, f: &Facts, console: &mut Vec<char>) -> (r:
    Option<String>)
    requires
        k.wf(),
        old(b).line@.len() <= MAX_LINE,
    ensures
        final(b).line@.len() <= MAX_LINE,
        ({
            let reply = if old(b).discarding {
                Some(error_tree(Json::Null, -32700, "request too long"@))
            } else {
                line_response(old(b).line@, *k, *f)
            };
            if byte == 0x0A {
                &&& !final(b).discarding
                &&& final(b).line@ == Seq::<u8>::empty()
                &&& match r {
                    Some(s) => reply is Some && s@ == json::spelled(reply.unwrap()),
                    None => reply is None,
                }
            } else {
                &&& r is None
                &&& if byte == 0x0D || old(b).discarding {
                    final(b).line@ == old(b).line@ && final(b).discarding == old(b).discarding
                } else if old(b).line@.len() >= MAX_LINE {
                    final(b).line@ == Seq::<u8>::empty() && final(b).discarding
                } else {
                    final(b).line@ == old(b).line@.push(byte) && !final(b).discarding
                }
            }
        }),
        final(console)@ == if byte == 0x0A && !old(b).discarding {
            old(console)@ + line_noted(old(b).line@)
        } else {
            old(console)@
        },
{
    if byte == 0x0A {
        let reply: Option<serde_json::Value> = if b.discarding {
            Some(error(json::null(), -32700, "request too long"))
        } else {
            handle_line(&b.line, k, f, console)
        };
        b.discarding = false;
        b.line = Vec::new();
        assert(b.line@ =~= Seq::<u8>::empty());
        return match reply {
            Some(v) => Some(json::to_text(&v)),
            None => None,
        };
    }
    if byte == 0x0D || b.discarding {
        return None;
    }
    if b.line.len() >= MAX_LINE {
        b.discarding = true;
        b.line = Vec::new();
        assert(b.line@ =~= Seq::<u8>::empty());
    } else {
        b.line.push(byte);
    }
    None
}

/// Every request gets a reply of version 2.0 with its own id, and either a result or
/// an error, never both. A method that there is not is answered with -32601.
pub proof fn law_replies(message: Json, k: Kernel, f: Facts, method: Seq<char>, id: Json)
    requires
        json::field(message, "method"@) == Some(Json::Text(method)),
        json::field(message, "id"@) == Some(id),
    ensures
        response(message, k, f) is Some,
        ({
            let r = response(message, k, f).unwrap();
            let error = json::field(r, "error"@);
            let known = method == "initialize"@ || method == "ping"@ || method == "tools/list"@
                || method == "tools/call"@ || method == "resources/list"@ || method
                == "resources/read"@;
            &&& json::field(r, "jsonrpc"@) == Some(Json::Text("2.0"@))
            &&& json::field(r, "id"@) == Some(id)
            &&& json::field(r, "result"@) is Some <==> error is None
            &&& !known ==> error is Some && json::field(error.unwrap(), "code"@) == Some(
                Json::Int(-32601),
            )
        }),
{
    lemma_reply_keys();
}

proof fn lemma_reply_keys()
    ensures
        "jsonrpc"@ != "id"@,
        "jsonrpc"@ != "result"@,
        "jsonrpc"@ != "error"@,
        "id"@ != "result"@,
        "id"@ != "error"@,
        "result"@ != "error"@,
        "code"@ != "message"@,
{
    reveal_strlit("jsonrpc");
    reveal_strlit("id");
    reveal_strlit("result");
    reveal_strlit("error");
    reveal_strlit("code");
    reveal_strlit("message");
    assert("jsonrpc"@.len() == 7 && "id"@.len() == 2 && "result"@.len() == 6 && "error"@.len() == 5
        && "code"@.len() == 4 && "message"@.len() == 7);
}

proof fn lemma_methods()
    ensures
        "initialize"@ != "ping"@,
        "tools/list"@ != "initialize"@,
        "tools/list"@ != "ping"@,
        "tools/call"@ != "initialize"@,
        "tools/call"@ != "ping"@,
        "tools/call"@ != "tools/list"@,
        "resources/list"@ != "initialize"@,
        "resources/list"@ != "ping"@,
        "resources/list"@ != "tools/list"@,
        "resources/list"@ != "tools/call"@,
        "resources/read"@ != "initialize"@,
        "resources/read"@ != "ping"@,
        "resources/read"@ != "tools/list"@,
        "resources/read"@ != "tools/call"@,
        "resources/read"@ != "resources/list"@,
{
    reveal_strlit("initialize");
    reveal_strlit("ping");
    reveal_strlit("tools/list");
    reveal_strlit("tools/call");
    reveal_strlit("resources/list");
    reveal_strlit("resources/read");
    let (call, read) = ("tools/call"@, "resources/read"@);
    assert(call[0] == 't' && call[6] == 'c' && "initialize"@[0] == 'i' && "tools/list"@[6] == 'l'
        && "tools/list"@[0] == 't');
    assert(read[10] == 'r' && "resources/list"@[10] == 'l');
    assert(read.len() == 14 && "resources/list"@.len() == 14 && "initialize"@.len() == 10
        && "ping"@.len() == 4 && call.len() == 10 && "tools/list"@.len() == 10);
}

/// A tool call and a resource that name nothing known are refused: -32602 for a tool
/// that is missing or unknown and for a missing address, -32002 for an address that
/// is unknown.
pub proof fn law_refusals(params: Json, k: Kernel, f: Facts, name: Seq<char>)
    ensures
        json::field(params, "name"@) is None ==> (answer("tools/call"@, params, k, f) is Err
            && answer("tools/call"@, params, k, f)->Err_0.0 == -32602),
        json::field(params, "name"@) == Some(Json::Text(name)) && name != "system"@ && name
            != "services"@ && name != "tasks"@ && name != "message_trace"@ && name != "metrics"@
            ==> (answer("tools/call"@, params, k, f) is Err && answer(
            "tools/call"@,
            params,
            k,
            f,
        )->Err_0.0 == -32602),
        json::field(params, "uri"@) is None ==> (answer("resources/read"@, params, k, f) is Err
            && answer("resources/read"@, params, k, f)->Err_0.0 == -32602),
        json::field(params, "uri"@) == Some(Json::Text(name)) && !"freshos://"@.is_prefix_of(name)
            ==> (answer("resources/read"@, params, k, f) is Err && answer(
            "resources/read"@,
            params,
            k,
            f,
        )->Err_0.0 == -32002),
{
    lemma_methods();
    reveal_with_fuel(place, 6);
}

/// What is not JSON is answered with -32700 and no id; an empty line is not answered.
pub proof fn law_bad_lines(line: Seq<u8>, k: Kernel, f: Facts)
    ensures
        (forall|i: int|
            0 <= i < line.len() ==> (#[trigger] line[i] == 0x20 || line[i] == 0x09 || line[i]
                == 0x0A || line[i] == 0x0C || line[i] == 0x0D)) ==> line_response(line, k, f) is None
            && line_noted(line).len() == 0,
        (exists|i: int| 0 <= i < line.len() && 0x20 < #[trigger] line[i] < 0x7F) && json::parsed(
            line,
        ) is None ==> ({
            let r = line_response(line, k, f);
            &&& r is Some
            &&& json::field(r.unwrap(), "jsonrpc"@) == Some(Json::Text("2.0"@))
            &&& json::field(r.unwrap(), "id"@) == Some(Json::Null)
            &&& json::field(r.unwrap(), "error"@) is Some
            &&& json::field(json::field(r.unwrap(), "error"@).unwrap(), "code"@) == Some(
                Json::Int(-32700),
            )
        }),
        (exists|i: int| 0 <= i < line.len() && 0x20 < #[trigger] line[i] < 0x7F)
            && json::parsed(line) is Some ==> line_response(line, k, f) == response(
            json::parsed(line).unwrap(),
            k,
            f,
        ),
{
    lemma_reply_keys();
    if exists|i: int| 0 <= i < line.len() && 0x20 < #[trigger] line[i] < 0x7F {
        let i = choose|i: int| 0 <= i < line.len() && 0x20 < #[trigger] line[i] < 0x7F;
        assert(!blank_byte(line[i]));
    }
}

/// A message of the trace is told with when it was sent, who sent it, who it was
/// for, on which channel and of what kind. Where nobody was known to receive it,
/// nobody is named.
pub proof fn law_message_tree(names: Seq<Name>, e: TraceEntry)
    ensures
        ({
            let t = message_tree(names, e);
            let from = json::field(t, "from"@).unwrap();
            let to = json::field(t, "to"@).unwrap();
            &&& json::field(t, "timestamp_ns"@) == Some(Json::Int(e.timestamp_ns as int))
            &&& json::field(t, "from"@) is Some && json::field(from, "id"@) == Some(
                Json::Int(e.from_task as int),
            )
            &&& json::field(t, "to"@) is Some
            &&& e.to_task == 0xFFFF ==> to == Json::Null
            &&& e.to_task != 0xFFFF ==> json::field(to, "id"@) == Some(Json::Int(e.to_task as int))
            &&& json::field(t, "channel"@) == Some(Json::Int(e.channel as int))
            &&& json::field(t, "tag"@) == Some(Json::Int(e.tag as int))
            &&& json::field(t, "type"@) == Some(Json::Text(dashboard::label_of_tag(e.tag)))
        }),
{
    reveal_strlit("timestamp_ns");
    reveal_strlit("from");
    reveal_strlit("to");
    reveal_strlit("channel");
    reveal_strlit("type");
    reveal_strlit("tag");
    reveal_strlit("id");
    reveal_strlit("name");
    assert("timestamp_ns"@.len() == 12 && "from"@.len() == 4 && "to"@.len() == 2 && "channel"@.len()
        == 7 && "type"@.len() == 4 && "tag"@.len() == 3);
    assert("from"@[0] == 'f' && "type"@[0] == 't');
    assert("id"@.len() == 2 && "name"@.len() == 4);
}

/// A task is told with its id, and with its name where it has one.
pub proof fn law_task_tree(names: Seq<Name>, id: int)
    requires
        0 <= id,
    ensures
        json::field(task_tree(names, id), "id"@) == Some(Json::Int(id)),
        id >= 16 || names[id]@.len() == 0 ==> json::field(task_tree(names, id), "name"@) == Some(
            Json::Null,
        ),
        id < 16 && names[id]@.len() > 0 && vstd::utf8::valid_utf8(names[id]@) ==> json::field(
            task_tree(names, id),
            "name"@,
        ) == Some(Json::Text(vstd::utf8::decode_utf8(names[id]@))),
{
    reveal_strlit("id");
    reveal_strlit("name");
    assert("id"@.len() == 2 && "name"@.len() == 4);
}

/// The trace is told whole, oldest first.
pub proof fn law_trace_view(k: Kernel, f: Facts, j: int)
    requires
        0 <= j < k.ipc@.trace.len(),
    ensures
        view_tree(3, k, f) matches Json::List(list) && list.len() == k.ipc@.trace.len() && list[j]
            == message_tree(k.registry.names(), k.ipc@.trace[j]),
{
}

/// A service is told with its name, its task, whether it runs, how often it was
/// started again, how often it exited and why it did so last.
pub proof fn law_service_tree(s: ServiceRecord)
    ensures
        ({
            let t = service_tree(s);
            &&& json::field(t, "running"@) == Some(Json::Bool(s.task is Some))
            &&& s.task is Some ==> json::field(t, "task"@) == Some(Json::Int(s.task.unwrap() as int))
            &&& s.task is None ==> json::field(t, "task"@) == Some(Json::Null)
            &&& s.starts > 0 ==> json::field(t, "restarts"@) == Some(Json::Int(s.starts - 1))
            &&& s.starts == 0 ==> json::field(t, "restarts"@) == Some(Json::Int(0))
            &&& json::field(t, "exits"@) == Some(Json::Int(s.exits as int))
            &&& s.last_exit is None ==> json::field(t, "last_exit"@) == Some(Json::Null)
            &&& s.last_exit == Some(ExitReason::Clean) ==> json::field(t, "last_exit"@) == Some(
                Json::Text("clean"@),
            )
            &&& s.last_exit == Some(ExitReason::Fault) ==> json::field(t, "last_exit"@) == Some(
                Json::Text("fault"@),
            )
            &&& s.last_exit == Some(ExitReason::Panic) ==> json::field(t, "last_exit"@) == Some(
                Json::Text("panic"@),
            )
            &&& vstd::utf8::valid_utf8(s.name@) ==> json::field(t, "name"@) == Some(
                Json::Text(vstd::utf8::decode_utf8(s.name@)),
            )
        }),
{
    reveal_strlit("name");
    reveal_strlit("task");
    reveal_strlit("running");
    reveal_strlit("restarts");
    reveal_strlit("exits");
    reveal_strlit("last_exit");
    assert("name"@.len() == 4 && "task"@.len() == 4 && "running"@.len() == 7 && "restarts"@.len()
        == 8 && "exits"@.len() == 5 && "last_exit"@.len() == 9);
    assert("name"@[0] == 'n' && "task"@[0] == 't');
}

/// Every record, in order, is told of, and nothing else is.
pub proof fn law_all_services_are_told(r: Seq<Option<ServiceRecord>>, n: int)
    requires
        0 <= n < r.len(),
    ensures
        r[n] is None ==> service_trees(r, n + 1) == service_trees(r, n),
        r[n] is Some ==> service_trees(r, n + 1) == service_trees(r, n).push(
            service_tree(r[n].unwrap()),
        ),
        service_trees(r, 0).len() == 0,
{
}

/// Every task with a name is told of, by its id, and no other is.
pub proof fn law_all_tasks_are_told(names: Seq<Name>, n: int)
    requires
        0 <= n < names.len(),
    ensures
        task_trees(names, 0).len() == 0,
        names[n]@.len() == 0 ==> task_trees(names, n + 1) == task_trees(names, n),
        names[n]@.len() > 0 ==> {
            let t = task_trees(names, n + 1);
            &&& t.len() == task_trees(names, n).len() + 1
            &&& t.drop_last() == task_trees(names, n)
            &&& json::field(t.last(), "id"@) == Some(Json::Int(n))
            &&& vstd::utf8::valid_utf8(names[n]@) ==> json::field(t.last(), "name"@) == Some(
                Json::Text(vstd::utf8::decode_utf8(names[n]@)),
            )
        },
{
    reveal_strlit("id");
    reveal_strlit("name");
    assert("id"@.len() == 2 && "name"@.len() == 4);
    if names[n]@.len() > 0 {
        assert(task_trees(names, n + 1).drop_last() =~= task_trees(names, n));
    }
}

/// The system is told by its board, its uptime, its tasks, channels and free frames,
/// and how much of the heap is used.
pub proof fn law_system_tree(k: Kernel, f: Facts)
    ensures
        ({
            let t = view_tree(0, k, f);
            let heap = json::field(t, "heap"@).unwrap();
            &&& json::field(t, "board"@) == Some(Json::Text(f.board@))
            &&& json::field(t, "uptime_ns"@) == Some(Json::Int(f.uptime_ns as int))
            &&& json::field(t, "tasks"@) == Some(
                Json::Int(context::live_count(k.sched.tasks@, 16)),
            )
            &&& json::field(t, "ipc_channels"@) == Some(Json::Int(k.ipc@.next_id))
            &&& json::field(t, "frames_free"@) == Some(Json::Int(k.frames.count() as int))
            &&& json::field(t, "heap"@) is Some
            &&& json::field(heap, "used_bytes"@) == Some(Json::Int(f.heap_used as int))
            &&& json::field(heap, "total_bytes"@) == Some(Json::Int(f.heap_total as int))
        }),
{
    reveal_strlit("board");
    reveal_strlit("uptime_ns");
    reveal_strlit("tasks");
    reveal_strlit("ipc_channels");
    reveal_strlit("frames_free");
    reveal_strlit("heap");
    reveal_strlit("used_bytes");
    reveal_strlit("total_bytes");
    assert("board"@.len() == 5 && "uptime_ns"@.len() == 9 && "tasks"@.len() == 5
        && "ipc_channels"@.len() == 12 && "frames_free"@.len() == 11 && "heap"@.len() == 4);
    assert("board"@[0] == 'b' && "tasks"@[0] == 't');
    assert("used_bytes"@.len() == 10 && "total_bytes"@.len() == 11);
}

/// Each measurement is told under its own name, with its latest value and its
/// largest.
pub proof fn law_metrics_tree(k: Kernel, f: Facts)
    ensures
        ({
            let t = view_tree(4, k, f);
            let m = k.metrics@.samples;
            let ipc = json::field(t, "ipc_delivery"@).unwrap();
            &&& json::field(t, "frame"@) == Some(sample_tree(m.frame_us))
            &&& json::field(t, "present"@) == Some(sample_tree(m.present_us))
            &&& json::field(t, "background"@) == Some(sample_tree(m.background_us))
            &&& json::field(t, "windows"@) == Some(sample_tree(m.windows_us))
            &&& json::field(t, "chrome"@) == Some(sample_tree(m.chrome_us))
            &&& json::field(t, "input_to_photon"@) == Some(sample_tree(m.input_to_photon_us))
            &&& json::field(t, "scheduler_wake"@) == Some(sample_tree(m.sched_wake_us))
            &&& json::field(t, "ipc_delivery"@) is Some
            &&& json::field(ipc, "latest_ns"@) == Some(Json::Int(m.ipc_delivery_ns.latest as int))
            &&& json::field(ipc, "max_ns"@) == Some(Json::Int(m.ipc_delivery_ns.max as int))
        }),
{
    reveal_strlit("frame");
    reveal_strlit("present");
    reveal_strlit("background");
    reveal_strlit("windows");
    reveal_strlit("chrome");
    reveal_strlit("input_to_photon");
    reveal_strlit("ipc_delivery");
    reveal_strlit("scheduler_wake");
    reveal_strlit("latest_ns");
    reveal_strlit("max_ns");
    assert("frame"@.len() == 5 && "present"@.len() == 7 && "background"@.len() == 10
        && "windows"@.len() == 7 && "chrome"@.len() == 6 && "input_to_photon"@.len() == 15
        && "ipc_delivery"@.len() == 12 && "scheduler_wake"@.len() == 14);
    assert("present"@[0] == 'p' && "windows"@[0] == 'w');
    assert("latest_ns"@.len() == 9 && "max_ns"@.len() == 6);
}

/// A sample in microseconds.
pub proof fn law_sample_tree(s: MetricSample)
    ensures
        json::field(sample_tree(s), "latest_us"@) == Some(Json::Int(s.latest as int)),
        json::field(sample_tree(s), "max_us"@) == Some(Json::Int(s.max as int)),
{
    reveal_strlit("latest_us");
    reveal_strlit("max_us");
    assert("latest_us"@.len() == 9 && "max_us"@.len() == 6);
}

/// The five views, by name: each is listed as a tool and as a resource under its
/// own name.
pub proof fn law_views(i: int)
    requires
        0 <= i < 5,
    ensures
        view_name(0) == "system"@ && view_name(1) == "services"@ && view_name(2) == "tasks"@,
        view_name(3) == "message_trace"@ && view_name(4) == "metrics"@,
        place(view_name(i), 0) == Some(i),
        json::field(tool_tree(i), "name"@) == Some(Json::Text(view_name(i))),
        json::field(resource_tree(i), "name"@) == Some(Json::Text(view_name(i))),
        json::field(resource_tree(i), "uri"@) == Some(Json::Text("freshos://"@ + view_name(i))),
{
    lemma_views_differ();
    reveal_strlit("name");
    reveal_strlit("description");
    reveal_strlit("inputSchema");
    reveal_strlit("annotations");
    reveal_strlit("uri");
    reveal_strlit("mimeType");
    assert("name"@.len() == 4 && "description"@.len() == 11 && "inputSchema"@.len() == 11
        && "annotations"@.len() == 11 && "uri"@.len() == 3 && "mimeType"@.len() == 8);
}

/// A tool call and a read of the resource give the text of the view that they name.
pub proof fn law_view_is_told(i: int, k: Kernel, f: Facts, params: Json)
    requires
        0 <= i < 5,
    ensures
        json::field(params, "name"@) == Some(Json::Text(view_name(i))) ==> ({
            let r = answer("tools/call"@, params, k, f);
            let content = json::field(r->Ok_0, "content"@);
            &&& r is Ok
            &&& content is Some && content.unwrap() is List && content.unwrap()->List_0.len() == 1
            &&& json::field(content.unwrap()->List_0[0], "text"@) == Some(
                Json::Text(json::spelled(view_tree(i, k, f))),
            )
            &&& json::field(r->Ok_0, "isError"@) == Some(Json::Bool(false))
        }),
        json::field(params, "uri"@) == Some(Json::Text("freshos://"@ + view_name(i))) ==> ({
            let r = answer("resources/read"@, params, k, f);
            let content = json::field(r->Ok_0, "contents"@);
            &&& r is Ok
            &&& content is Some && content.unwrap() is List && content.unwrap()->List_0.len() == 1
            &&& json::field(content.unwrap()->List_0[0], "text"@) == Some(
                Json::Text(json::spelled(view_tree(i, k, f))),
            )
            &&& json::field(content.unwrap()->List_0[0], "uri"@) == Some(
                Json::Text("freshos://"@ + view_name(i)),
            )
        }),
{
    lemma_methods();
    lemma_views_differ();
    reveal_strlit("freshos://");
    reveal_strlit("content");
    reveal_strlit("isError");
    reveal_strlit("type");
    reveal_strlit("text");
    reveal_strlit("uri");
    reveal_strlit("mimeType");
    assert("content"@.len() == 7 && "isError"@.len() == 7 && "type"@.len() == 4 && "text"@.len()
        == 4 && "uri"@.len() == 3 && "mimeType"@.len() == 8);
    assert("content"@[0] == 'c' && "isError"@[0] == 'i' && "type"@[1] == 'y' && "text"@[1] == 'e');
    let uri = "freshos://"@ + view_name(i);
    assert(uri.skip(10) =~= view_name(i));
    assert(uri.subrange(0, 10) =~= "freshos://"@);
}

/// The lists have a tool and a resource for each of the five views, in order; a
/// client is told its own version of the protocol, and of tools and resources.
pub proof fn law_lists(params: Json, k: Kernel, f: Facts, i: int, version: Seq<char>)
    requires
        0 <= i < 5,
    ensures
        ({
            let r = answer("tools/list"@, params, k, f);
            let l = json::field(r->Ok_0, "tools"@);
            r is Ok && l is Some && l.unwrap() is List && l.unwrap()->List_0.len() == 5
                && l.unwrap()->List_0[i] == tool_tree(i)
        }),
        ({
            let r = answer("resources/list"@, params, k, f);
            let l = json::field(r->Ok_0, "resources"@);
            r is Ok && l is Some && l.unwrap() is List && l.unwrap()->List_0.len() == 5
                && l.unwrap()->List_0[i] == resource_tree(i)
        }),
        answer("ping"@, params, k, f) == Ok::<Json, (int, Seq<char>)>(Json::Fields(Map::empty())),
        ({
            let r = answer("initialize"@, params, k, f);
            let v = json::field(r->Ok_0, "protocolVersion"@);
            let c = json::field(r->Ok_0, "capabilities"@);
            &&& r is Ok
            &&& json::field(params, "protocolVersion"@) == Some(Json::Text(version)) ==> v == Some(
                Json::Text(version),
            )
            &&& json::field(params, "protocolVersion"@) is None ==> v == Some(
                Json::Text("2025-06-18"@),
            )
            &&& c is Some && json::field(c.unwrap(), "tools"@) is Some && json::field(
                c.unwrap(),
                "resources"@,
            ) is Some
        }),
{
    lemma_methods();
    reveal_strlit("protocolVersion");
    reveal_strlit("capabilities");
    reveal_strlit("serverInfo");
    reveal_strlit("instructions");
    reveal_strlit("tools");
    reveal_strlit("resources");
    assert("protocolVersion"@.len() == 15 && "capabilities"@.len() == 12 && "serverInfo"@.len()
        == 10 && "instructions"@.len() == 12);
    assert("capabilities"@[0] == 'c' && "instructions"@[0] == 'i');
    assert("tools"@.len() == 5 && "resources"@.len() == 9);
}

/// Of a request the method is logged; of anything else nothing is.
pub proof fn law_requests_are_noted(message: Json, method: Seq<char>)
    ensures
        json::field(message, "method"@) == Some(Json::Text(method)) && json::field(
            message,
            "id"@,
        ) is Some ==> noted(message) == "[mcp] "@ + method + "\n"@,
        json::field(message, "id"@) is None ==> noted(message).len() == 0,
        json::field(message, "method"@) is None ==> noted(message).len() == 0,
{
}

} // verus!
