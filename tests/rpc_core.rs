use serde_json::Value;
use std::cell::RefCell;
use std::rc::Rc;
use xi_front::commands::{is_handled_method, req_new_view, AppState};
use xi_front::message::{classify, Action, DropReason, IdField, Inbound, Outbound, RawMessage, Reply};
use xi_front::rpc::{Core, SendError};

fn s(v: &str) -> Value {
    Value::String(v.to_string())
}

fn empty() -> Value {
    Value::Object(serde_json::Map::new())
}

fn response(id: u64, v: &str) -> Inbound {
    Inbound::Response { id, reply: Reply::Result(s(v)) }
}

fn sent_id(o: &Result<Outbound, SendError<u32>>) -> u64 {
    match o {
        Ok(Outbound::Request { id, .. }) => *id,
        _ => panic!("request not sent"),
    }
}

fn resolved(a: Action<u32>) -> (u64, u32, Value) {
    match a {
        Action::Resolve { id, continuation, reply: Reply::Result(v) } => (id, continuation, v),
        _ => panic!("not a resolution"),
    }
}

#[test]
fn new_view_reply_reaches_its_continuation_once() {
    let mut core: Core<u32> = Core::new();
    let out = core.send_request("new_view".to_string(), empty(), 7);
    match &out {
        Ok(Outbound::Request { id, method, params }) => {
            assert_eq!(*id, 0);
            assert_eq!(method, "new_view");
            assert_eq!(*params, empty());
        }
        _ => panic!("request not sent"),
    }
    assert_eq!(core.pending_len(), 1);
    let (id, c, v) = resolved(core.dispatch(response(0, "view-1")));
    assert_eq!((id, c, v), (0, 7, s("view-1")));
    assert_eq!(core.pending_len(), 0);
    let again = core.dispatch(response(0, "view-1"));
    assert!(matches!(again, Action::Discard(DropReason::UnknownId(0))));
}

#[test]
fn notification_makes_no_table_entry() {
    let core: Core<u32> = Core::new();
    let out = core.send_notification("client_started".to_string(), empty());
    match out {
        Outbound::Notification { method, params } => {
            assert_eq!(method, "client_started");
            assert_eq!(params, empty());
        }
        _ => panic!("expected a notification"),
    }
    assert_eq!(core.pending_len(), 0);
}

#[test]
fn responses_in_reverse_order_are_not_crossed() {
    let mut core: Core<u32> = Core::new();
    let a = core.send_request("first".to_string(), empty(), 100);
    let b = core.send_request("second".to_string(), empty(), 200);
    assert_eq!(sent_id(&a), 0);
    assert_eq!(sent_id(&b), 1);
    assert_eq!(resolved(core.dispatch(response(1, "one"))), (1, 200, s("one")));
    assert_eq!(resolved(core.dispatch(response(0, "zero"))), (0, 100, s("zero")));
    assert_eq!(core.pending_len(), 0);
}

#[test]
fn engine_exit_hands_back_pending_request() {
    let mut core: Core<u32> = Core::new();
    for k in 0..6u32 {
        let out = core.send_request("req".to_string(), empty(), k);
        assert_eq!(sent_id(&out), k as u64);
    }
    for k in 0..5u64 {
        let (id, c, _) = resolved(core.dispatch(response(k, "ok")));
        assert_eq!((id, c as u64), (k, k));
    }
    assert_eq!(core.pending_len(), 1);
    let drained = core.shutdown();
    assert_eq!(drained, vec![5]);
    assert_eq!(core.pending_len(), 0);
    assert!(core.shutdown().is_empty());
}

#[test]
fn shutdown_hands_back_all_in_order() {
    let mut core: Core<u32> = Core::new();
    for k in 0..4u32 {
        core.send_request("req".to_string(), empty(), 10 + k).ok();
    }
    core.dispatch(response(2, "two"));
    assert_eq!(core.shutdown(), vec![10, 11, 13]);
}

#[test]
fn send_after_shutdown_is_refused() {
    let mut core: Core<u32> = Core::new();
    core.shutdown();
    let out = core.send_request("late".to_string(), empty(), 9);
    assert!(matches!(out, Err(SendError::Closed(9))));
    assert_eq!(core.pending_len(), 0);
}

#[test]
fn unknown_id_is_discarded() {
    let mut core: Core<u32> = Core::new();
    core.send_request("req".to_string(), empty(), 1).ok();
    let a = core.dispatch(response(42, "x"));
    assert!(matches!(a, Action::Discard(DropReason::UnknownId(42))));
    assert_eq!(core.pending_len(), 1);
}

#[test]
fn malformed_is_discarded() {
    let mut core: Core<u32> = Core::new();
    let a = core.dispatch(Inbound::Malformed);
    assert!(matches!(a, Action::Discard(DropReason::Malformed)));
}

#[test]
fn error_reply_is_delivered_as_is() {
    let mut core: Core<u32> = Core::new();
    core.send_request("req".to_string(), empty(), 3).ok();
    let a = core.dispatch(Inbound::Response { id: 0, reply: Reply::Error(s("bad")) });
    match a {
        Action::Resolve { id, continuation, reply: Reply::Error(e) } => {
            assert_eq!((id, continuation, e), (0, 3, s("bad")));
        }
        _ => panic!("expected the error to be delivered"),
    }
}

#[test]
fn notifications_keep_their_order_around_responses() {
    let mut core: Core<u32> = Core::new();
    core.send_request("req".to_string(), empty(), 1).ok();
    let msgs = vec![
        Inbound::Notification { method: "update".to_string(), params: s("a") },
        response(0, "r"),
        Inbound::Notification { method: "scroll_to".to_string(), params: s("b") },
        Inbound::Notification { method: "update".to_string(), params: s("c") },
    ];
    let mut seen = Vec::new();
    let mut resolved_count = 0;
    for m in msgs {
        match core.dispatch(m) {
            Action::Notify { method, params } => seen.push((method, params)),
            Action::Resolve { .. } => resolved_count += 1,
            Action::Discard(_) => panic!("nothing should be dropped"),
        }
    }
    assert_eq!(resolved_count, 1);
    assert_eq!(
        seen,
        vec![
            ("update".to_string(), s("a")),
            ("scroll_to".to_string(), s("b")),
            ("update".to_string(), s("c")),
        ]
    );
}

#[test]
fn boxed_continuations_each_run_once() {
    let log: Rc<RefCell<Vec<(u32, Value)>>> = Rc::new(RefCell::new(Vec::new()));
    let mut core: Core<Box<dyn FnOnce(Reply)>> = Core::new();
    for k in 0..3u32 {
        let log = log.clone();
        let cb: Box<dyn FnOnce(Reply)> = Box::new(move |r: Reply| {
            let v = match r {
                Reply::Result(v) => v,
                Reply::Error(e) => e,
                Reply::Shutdown => Value::Null,
            };
            log.borrow_mut().push((k, v));
        });
        assert!(core.send_request("req".to_string(), empty(), cb).is_ok());
    }
    for m in vec![response(2, "c"), response(0, "a"), response(2, "dup")] {
        if let Action::Resolve { continuation, reply, .. } = core.dispatch(m) {
            continuation(reply);
        }
    }
    for cb in core.shutdown() {
        cb(Reply::Shutdown);
    }
    assert_eq!(
        *log.borrow(),
        vec![(2, s("c")), (0, s("a")), (1, Value::Null)]
    );
}

fn raw(id: IdField) -> RawMessage {
    RawMessage { id, method: None, params: Value::Null, result: None, error: None }
}

#[test]
fn classify_response_with_result() {
    let mut m = raw(IdField::Number(4));
    m.result = Some(s("ok"));
    match classify(m) {
        Inbound::Response { id, reply: Reply::Result(v) } => assert_eq!((id, v), (4, s("ok"))),
        _ => panic!("expected a response"),
    }
}

#[test]
fn classify_error_wins_over_result() {
    let mut m = raw(IdField::Number(4));
    m.result = Some(s("ok"));
    m.error = Some(s("bad"));
    assert!(matches!(classify(m), Inbound::Response { id: 4, reply: Reply::Error(_) }));
}

#[test]
fn classify_response_without_payload_is_malformed() {
    assert!(matches!(classify(raw(IdField::Number(1))), Inbound::Malformed));
}

#[test]
fn classify_invalid_id_is_malformed() {
    let mut m = raw(IdField::Invalid);
    m.result = Some(s("ok"));
    assert!(matches!(classify(m), Inbound::Malformed));
}

#[test]
fn classify_notification() {
    let mut m = raw(IdField::Absent);
    m.method = Some("update".to_string());
    m.params = s("p");
    match classify(m) {
        Inbound::Notification { method, params } => {
            assert_eq!(method, "update");
            assert_eq!(params, s("p"));
        }
        _ => panic!("expected a notification"),
    }
}

#[test]
fn classify_nothing_is_malformed() {
    assert!(matches!(classify(raw(IdField::Absent)), Inbound::Malformed));
}

#[test]
fn handled_methods() {
    for m in [
        "update",
        "scroll_to",
        "available_themes",
        "available_plugins",
        "available_languages",
        "config_changed",
        "language_changed",
    ] {
        assert!(is_handled_method(m), "{}", m);
    }
    assert!(!is_handled_method("def_style"));
    assert!(!is_handled_method(""));
    assert!(!is_handled_method("Update"));
}

#[test]
fn new_view_request_without_file() {
    let mut core: Core<u32> = Core::new();
    let out = req_new_view(&mut core, None, 1);
    match out {
        Ok(Outbound::Request { id, method, params }) => {
            assert_eq!(id, 0);
            assert_eq!(method, "new_view");
            assert_eq!(params, empty());
        }
        _ => panic!("request not sent"),
    }
    assert_eq!(core.pending_len(), 1);
}

#[test]
fn new_view_request_with_file() {
    let mut core: Core<u32> = Core::new();
    core.send_request("other".to_string(), empty(), 0).ok();
    let out = req_new_view(&mut core, Some("notes.txt".to_string()), 1);
    let mut expected = serde_json::Map::new();
    expected.insert("file_path".to_string(), s("notes.txt"));
    match out {
        Ok(Outbound::Request { id, method, params }) => {
            assert_eq!(id, 1);
            assert_eq!(method, "new_view");
            assert_eq!(params, Value::Object(expected));
        }
        _ => panic!("request not sent"),
    }
}

#[test]
fn app_state_focus() {
    let mut st = AppState::new();
    assert!(st.focused.is_none());
    st.set_focused("view-id-1".to_string());
    assert_eq!(st.get_focused(), "view-id-1");
    st.set_focused("view-id-2".to_string());
    assert_eq!(st.get_focused(), "view-id-2");
}
