use freshos::abi::tag;
use freshos::abi::{Error, ExitReason, Handle, Message, Rights, TaskRef};
use freshos::addrspace::KernelMap;
use freshos::boot_images;
use freshos::boot_images::DirEntry;
use freshos::frame_alloc;
use freshos::frame_alloc::{FrameAllocator, MemRegion};
use freshos::init;
use freshos::init::{Action, Runtime};
use freshos::ipc;
use freshos::kernel::Kernel;
use freshos::lifecycle;
use freshos::mcp;
use freshos::mcp::{Bridge, Facts};
use freshos::mem::PhysMem;
use freshos::registry;
use freshos::rt;
use freshos::rt::{LineBuf, Startup};
use freshos::delivery;
use freshos::probes::Step;
use freshos::userbins;
use freshos::userbins::{Attempt, Batch, Role};
use serde_json::Value;

fn machine() -> Kernel {
    let mut fa = FrameAllocator::new();
    let regions = [MemRegion { start: 0x10_000, pages: 200, usable: true }];
    frame_alloc::init(&mut fa, &regions, 1);
    let map = KernelMap { l1: 0x1000, l1_entries: 64, ram_memory_type: 0x4 };
    lifecycle::boot(PhysMem::new(vec![0; 1024 * 1024]), fa, map, 0x1000)
}

fn facts() -> Facts {
    Facts { board: "QEMU virt", uptime_ns: 5, heap_used: 6, heap_total: 7 }
}

fn ask(k: &Kernel, line: &str) -> Option<Value> {
    mcp::handle_line(&line.as_bytes().to_vec(), k, &facts(), &mut Vec::new())
}

#[test]
fn the_bridge_introduces_itself() {
    let k = machine();
    let r = ask(&k, r#"{"jsonrpc":"2.0","id":1,"method":"initialize"}"#).unwrap();
    assert_eq!(r["id"], Value::from(1));
    assert_eq!(r["jsonrpc"], Value::from("2.0"));
    assert_eq!(r["result"]["protocolVersion"], Value::from("2025-06-18"));
    assert_eq!(r["result"]["serverInfo"]["name"], Value::from("freshos"));
    let r = ask(&k, r#"{"id":"a","method":"initialize","params":{"protocolVersion":"1"}}"#);
    let r = r.unwrap();
    assert_eq!(r["result"]["protocolVersion"], Value::from("1"));
    assert_eq!(r["id"], Value::from("a"));
    let r = ask(&k, r#"{"id":2.5,"method":"ping"}"#).unwrap();
    assert_eq!(r["result"], Value::Object(serde_json::Map::new()));
    assert_eq!(r["id"], Value::from(2.5));
}

#[test]
fn only_requests_are_answered() {
    let k = machine();
    assert!(ask(&k, "  \t\r").is_none());
    assert!(ask(&k, r#"{"method":"ping"}"#).is_none());
    assert!(ask(&k, r#"{"id":1}"#).is_none());
    assert!(ask(&k, r#"{"id":1,"method":7}"#).is_none());
    assert!(ask(&k, "[1]").is_none());
    let r = ask(&k, "{").unwrap();
    assert_eq!(r["error"]["code"], Value::from(-32700));
    assert_eq!(r["error"]["message"], Value::from("parse error"));
    assert_eq!(r["id"], Value::Null);
}

#[test]
fn errors_name_their_cause() {
    let k = machine();
    let code = |line: &str| ask(&k, line).unwrap()["error"]["code"].clone();
    assert_eq!(code(r#"{"id":1,"method":"nope"}"#), Value::from(-32601));
    assert_eq!(code(r#"{"id":1,"method":"tools/call"}"#), Value::from(-32602));
    let r = ask(&k, r#"{"id":1,"method":"tools/call","params":{"name":"x"}}"#).unwrap();
    assert_eq!(r["error"]["message"], Value::from("unknown tool"));
    assert_eq!(code(r#"{"id":1,"method":"resources/read"}"#), Value::from(-32602));
    let read = r#"{"id":1,"method":"resources/read","params":{"uri":"system"}}"#;
    assert_eq!(code(read), Value::from(-32002));
    let read = r#"{"id":1,"method":"resources/read","params":{"uri":"freshos://nope"}}"#;
    assert_eq!(code(read), Value::from(-32002));
}

#[test]
fn tools_and_resources_show_the_same() {
    let mut k = machine();
    registry::on_spawn(&mut k.registry, 1, b"pulse");
    registry::on_exit(&mut k.registry, 1, ExitReason::Fault);
    registry::on_spawn(&mut k.registry, 2, b"pulse");
    let ch = ipc::create(&mut k.ipc).unwrap();
    delivery::send(&mut k, ch, &Message::new(tag::PING), 9).unwrap();
    let list = ask(&k, r#"{"id":1,"method":"tools/list"}"#).unwrap();
    let tools = list["result"]["tools"].as_array().unwrap();
    assert_eq!(tools.len(), 5);
    let listed = ask(&k, r#"{"id":1,"method":"resources/list"}"#).unwrap();
    let resources = listed["result"]["resources"].as_array().unwrap();
    for (tool, resource) in tools.iter().zip(resources) {
        let name = tool["name"].as_str().unwrap();
        assert_eq!(resource["uri"], Value::from(format!("freshos://{name}")));
        assert_eq!(tool["description"], resource["description"]);
        let line = format!(r#"{{"id":1,"method":"tools/call","params":{{"name":"{name}"}}}}"#);
        let call = ask(&k, &line).unwrap();
        let line =
            format!(r#"{{"id":1,"method":"resources/read","params":{{"uri":"freshos://{name}"}}}}"#);
        let read = ask(&k, &line).unwrap();
        let text = call["result"]["content"][0]["text"].as_str().unwrap();
        assert_eq!(read["result"]["contents"][0]["text"].as_str().unwrap(), text);
        let v: Value = serde_json::from_str(text).unwrap();
        match name {
            "system" => {
                assert_eq!(v["board"], Value::from("QEMU virt"));
                assert_eq!(v["frames_free"], Value::from(200));
                assert_eq!(v["ipc_channels"], Value::from(1));
                assert_eq!(v["heap"]["used_bytes"], Value::from(6));
            }
            "services" => {
                assert_eq!(v[0]["name"], Value::from("pulse"));
                assert_eq!(v[0]["restarts"], Value::from(1));
                assert_eq!(v[0]["last_exit"], Value::from("fault"));
                assert_eq!(v[0]["running"], Value::Bool(true));
            }
            "tasks" => {
                assert_eq!(v[0]["id"], Value::from(2));
            }
            "message_trace" => {
                assert_eq!(v[0]["type"], Value::from("PING"));
                assert_eq!(v[0]["to"], Value::Null);
                assert_eq!(v[0]["from"]["id"], Value::from(0));
            }
            _ => assert_eq!(v["frame"]["latest_us"], Value::from(0)),
        }
    }
}

#[test]
fn long_lines_are_discarded_whole() {
    let k = machine();
    let mut b = Bridge { line: Vec::new(), discarding: false };
    let mut log = Vec::new();
    let mut feed = |bytes: &[u8]| {
        let mut out = None;
        for byte in bytes {
            if let Some(r) = mcp::bridge_el1(&mut b, *byte, &k, &facts(), &mut log) {
                out = Some(r);
            }
        }
        out
    };
    assert_eq!(
        feed(b"{\"id\":1,\"method\":\"ping\"}\r\n").unwrap(),
        r#"{"id":1,"jsonrpc":"2.0","result":{}}"#
    );
    let r = feed(&[vec![b'x'; 20_000], vec![b'\n']].concat()).unwrap();
    assert!(r.contains("request too long"));
    assert!(feed(b"\n").is_none());
    assert!(feed(b"{\"id\":1,\"method\":\"ping\"}\n").is_some());
    assert!(feed(b"{\"method\":\"ping\"}\n").is_none());
    assert_eq!(log.iter().collect::<String>(), "[mcp] ping\n[mcp] ping\n");
}

fn running(task: u16) -> Runtime {
    Runtime { task: Some(TaskRef { id: task, generation: 1 }), restart_at: None }
}

#[test]
fn init_restarts_supervised_services_only() {
    let mut s = init::new_state();
    s[7] = running(3);
    s[5] = running(4);
    let mut exit = Message::new(tag::TASK_EXITED).with_data(0, 3).with_data(1, 2).with_data(2, 1);
    exit.sender = 5;
    assert_eq!(init::handle_message(&mut s, &exit, 1000), Action::Nothing);
    exit.sender = 0;
    let stale = exit.with_data(2, 0);
    assert_eq!(init::handle_message(&mut s, &stale, 1000), Action::Nothing);
    assert_eq!(
        init::handle_message(&mut s, &exit, 1000),
        Action::Exited(7, Some(ExitReason::Fault))
    );
    assert_eq!(s[7].task, None);
    assert_eq!(s[7].restart_at, Some(250_001_000));
    assert_eq!(init::deadline(&s), 250_001_000);
    let exit = exit.with_data(0, 4).with_data(1, 99);
    assert_eq!(init::handle_message(&mut s, &exit, 1000), Action::Exited(5, None));
    assert_eq!(s[5].restart_at, None);
    assert_eq!(init::take_due(&mut s, 250_000_999), Vec::<usize>::new());
    assert_eq!(init::take_due(&mut s, 250_001_000), vec![7]);
    assert_eq!(init::deadline(&s), 0);
}

#[test]
fn init_answers_restart_requests() {
    let mut s = init::new_state();
    let ask = |name: &str| Message::new(tag::RESTART_REQUEST).with_name(name);
    assert_eq!(init::handle_message(&mut s, &ask("nope"), 0), Action::Unknown);
    s[8].restart_at = Some(5);
    assert_eq!(init::handle_message(&mut s, &ask("fault"), 0), Action::Start(8));
    assert_eq!(s[8].restart_at, None);
    init::note_started(&mut s, 8, Some(TaskRef { id: 9, generation: 2 }));
    assert_eq!(init::handle_message(&mut s, &ask("fault"), 0), Action::Running(8));
}

#[test]
fn init_grants_what_its_table_says() {
    let mut channels = vec![Some(Handle(1)), Some(Handle(2)), None, Some(Handle(4)), Some(Handle(5))];
    let g = init::service_request(5, &channels).unwrap();
    assert_eq!((g[0].handle, g[0].rights), (Handle(1), Rights::recv()));
    assert_eq!((g[1].handle, g[1].rights), (Handle(2), Rights::send()));
    assert!(matches!(init::service_request(14, &channels), Err(2)));
    channels[2] = Some(Handle(3));
    assert_eq!(init::service_request(14, &channels).unwrap().len(), 2);
    assert_eq!(init::service_request(0, &channels).unwrap().len(), 0);
    assert_eq!(init::spawn_result(9, Err(Error::NotFound)), (None, false));
    assert_eq!(init::spawn_result(5, Err(Error::NotFound)), (None, true));
    assert_eq!(init::spawn_result(9, Err(Error::Full)), (None, true));
    assert_eq!(init::name_at(10), "probe-bad-unmap");
    assert_eq!(init::binary_at(18), "PROBECHA.ELF");
    assert_eq!(init::arg_at(10), 0x4_2000_0000);
}

#[test]
fn services_start_with_their_handles() {
    let s = Startup::new(2, 77);
    assert_eq!((s.handle_count(), s.arg(), s.handle(1)), (2, 77, Handle(1)));
    assert_eq!(rt::check(5), Ok(5));
    assert_eq!(rt::check(Error::Timeout.code()), Err(Error::Timeout));
}

#[test]
fn log_lines_are_cut_between_characters() {
    let mut l = LineBuf::new();
    l.write_str(&"x".repeat(255));
    l.write_str("\u{e9}y");
    assert_eq!(l.as_str().len(), 255);
    let mut l = LineBuf::new();
    l.write_str("h\u{e9}\u{20ac}");
    assert_eq!(l.as_str(), "h\u{e9}\u{20ac}");
}

#[test]
fn the_median_ignores_order() {
    assert_eq!(rt::median(&vec![9, 1, 5]), 5);
    assert_eq!(rt::median(&vec![4, 1]), 4);
    assert_eq!(rt::median(&Vec::new()), 0);
    let mut v = vec![3, 1, 2, 1];
    rt::sort(&mut v);
    assert_eq!(v, vec![1, 1, 2, 3]);
}

#[test]
fn program_files_are_picked_by_name() {
    let entry = |name: &str, data: Option<Vec<u8>>| DirEntry {
        name: name.encode_utf16().collect(),
        data,
    };
    let b = boot_images::load_all(vec![
        entry("PONG.ELF", Some(vec![1])),
        entry("readme.txt", Some(vec![2])),
        entry("gone.elf", None),
        entry("p\u{e9}.ELF", Some(vec![3])),
        entry("Init.elf", Some(vec![4])),
    ]);
    assert_eq!(b.find(b"pong.elf"), Some(&[1u8][..]));
    assert_eq!(b.find(b"INIT.ELF"), Some(&[4u8][..]));
    assert_eq!(b.find(b"readme.txt"), None);
    assert_eq!(b.find(b"gone.elf"), None);
}

fn line(chars: Vec<char>) -> String {
    chars.into_iter().collect()
}

#[test]
fn ping_reports_only_what_succeeded() {
    let mut b = Batch::new();
    for i in 0..100u64 {
        assert!(!b.finished());
        if i % 2 == 0 {
            b.failed();
        } else {
            b.replied(&Message::new(tag::PONG).with_data(0, 1000), 1000 + i);
        }
    }
    assert!(b.finished());
    assert_eq!(line(b.report()), "rtt_median_ns=51 samples=50 failures=50");
    assert_eq!(line(Batch::new().report()), "rtt_median_ns=0 samples=0 failures=0");
    let mut b = Batch::new();
    b.replied(&Message::new(tag::PONG).with_data(0, 1000), 5);
    assert_eq!(b.rtts, vec![0]);
}

#[test]
fn services_beat_between_yields() {
    assert_eq!(userbins::pulse(0), Step::Yield);
    assert_eq!(userbins::pulse(499), Step::Yield);
    assert_eq!(userbins::pulse(500), Step::Beat(1));
    assert_eq!(userbins::pulse(1502), Step::Beat(3));
    assert_eq!(userbins::pulse(1503), Step::Done);
    assert_eq!(userbins::fault(300), Step::Beat(1));
    assert_eq!(userbins::fault(601), Step::Beat(2));
    assert_eq!(userbins::fault(602), Step::Done);
}

#[test]
fn probes_follow_their_argument() {
    assert_eq!(userbins::attempt(0), Attempt::WriteOwnCode);
    assert_eq!(userbins::attempt(1), Attempt::OverflowStack);
    assert_eq!(userbins::attempt(0x4000_0000), Attempt::Read(0x4000_0000));
    assert_eq!(userbins::role(0), Role::Misuse);
    assert_eq!(userbins::role(1), Role::BufferReceiver);
    assert_eq!(userbins::role(2), Role::BufferSender);
    let m = userbins::buffer_message(2);
    let (text, done) = userbins::buffer_received(&m);
    assert_eq!((line(text).as_str(), done), ("[buf] got seq=2", false));
    assert!(userbins::buffer_received(&userbins::buffer_message(1)).1);
    assert_eq!(line(userbins::report("x", Ok(()))), "[test] x result=ok code=0");
    assert_eq!(
        line(userbins::report("send-from-null", Err(Error::BadPointer))),
        "[test] send-from-null result=refused code=-4"
    );
    assert_eq!(
        line(userbins::queue_report(Err(Error::Full), 16)),
        "[test] queue-full result=refused code=-11 after=16"
    );
}

#[test]
fn starts_are_counted_by_slot() {
    let mut starts = init::no_starts();
    assert_eq!(init::count_start(&mut starts, 3), TaskRef { id: 3, generation: 1 });
    assert_eq!(init::count_start(&mut starts, 4), TaskRef { id: 4, generation: 1 });
    assert_eq!(init::count_start(&mut starts, 3), TaskRef { id: 3, generation: 2 });
}
