//! Scenario tests driving whole connections through the engine: restore,
//! calls through proxies, ordering, reference counting and teardown.

use capnp_rpc::engine::{Connection, EzRpcServerAcceptor};
use capnp_rpc::types::{Action, CallResult, CapHandle, Event, Outcome, RetResult, Target,
    WireMessage};

fn roots_foo(server: u32) -> Vec<(Vec<u8>, u32)> {
    vec![(b"foo".to_vec(), server)]
}

/// Takes the one wire message out of a batch of actions, after skipping a
/// leading `Started` if one is there.
fn sent(acts: &[Action]) -> &WireMessage {
    for a in acts {
        if let Action::Send(m) = a {
            return m;
        }
    }
    panic!("no message was sent");
}

#[test]
fn restore_known_name_yields_usable_proxy() {
    // Client exports nothing; the server's root table maps "foo" to the
    // local server object 7.
    let mut client = Connection::new(Vec::new());
    let mut server = Connection::new(roots_foo(7));

    // Client submits Restore("foo").
    let acts = client.handle_event(Event::OutgoingRestore { object_id: b"foo".to_vec() });
    assert_eq!(acts.len(), 2);
    assert!(matches!(acts[0], Action::Started { question_id: 0 }));
    let restore = match sent(&acts) {
        WireMessage::Restore { question_id, object_id } => {
            assert_eq!(*question_id, 0);
            assert_eq!(object_id, &b"foo".to_vec());
            WireMessage::Restore {
                question_id: *question_id,
                object_id: object_id.clone(),
            }
        }
        m => panic!("expected Restore, got {:?}", msg_kind(m)),
    };

    // Server resolves it and answers with an export descriptor for 7.
    let acts = server.handle_event(Event::Incoming(restore));
    assert_eq!(acts.len(), 1);
    let ret = match sent(&acts) {
        WireMessage::Return { question_id, result } => {
            assert_eq!(*question_id, 0);
            match result {
                RetResult::Results(p) => {
                    assert!(p.body.is_empty());
                    assert_eq!(p.cap, Some(0));
                }
                RetResult::Exception(_) => panic!("restore was rejected"),
            }
            WireMessage::Return {
                question_id: 0,
                result: RetResult::Results(capnp_rpc::types::Payload {
                    body: Vec::new(),
                    cap: Some(0),
                }),
            }
        }
        m => panic!("expected Return, got {:?}", msg_kind(m)),
    };

    // Client decodes the Return into a usable remote proxy.
    let acts = client.handle_event(Event::Incoming(ret));
    assert_eq!(acts.len(), 2);
    match &acts[0] {
        Action::Complete { question_id, outcome } => {
            assert_eq!(*question_id, 0);
            match outcome {
                Outcome::Results { cap, .. } => {
                    assert!(matches!(cap, Some(CapHandle::RemoteCap { import_id: 0 })));
                }
                _ => panic!("restore did not complete with a payload"),
            }
        }
        _ => panic!("first action must fulfil the completion slot"),
    }
    assert!(matches!(
        &acts[1],
        Action::Send(WireMessage::Finish { question_id: 0 })
    ));
}

fn msg_kind(m: &WireMessage) -> &'static str {
    match m {
        WireMessage::Call { .. } => "Call",
        WireMessage::Return { .. } => "Return",
        WireMessage::Restore { .. } => "Restore",
        WireMessage::Finish { .. } => "Finish",
        WireMessage::Release { .. } => "Release",
    }
}

#[test]
fn call_through_proxy_round_trips_arguments_and_result() {
    let mut client = Connection::new(Vec::new());
    let mut server = Connection::new(Vec::new());

    // The server already exports server object 9 as export id 0; the client
    // already imported it (one grant).
    let acts = server.handle_event(Event::ExportLocal { server: 9 });
    assert!(matches!(acts[0], Action::ExportedAs { export_id: 0 }));
    let acts = client.handle_event(Event::OutgoingRestore { object_id: b"r".to_vec() });
    assert!(matches!(acts[0], Action::Started { question_id: 0 }));
    let acts = client.handle_event(Event::Incoming(WireMessage::Return {
        question_id: 0,
        result: RetResult::Results(capnp_rpc::types::Payload {
            body: Vec::new(),
            cap: Some(0),
        }),
    }));
    assert!(matches!(&acts[0], Action::Complete { .. }));

    // Call through the proxy.
    let acts = client.handle_event(Event::OutgoingCall {
        import_id: 0,
        method_id: 3,
        params: b"args".to_vec(),
    });
    assert!(matches!(acts[0], Action::Started { question_id: 1 }));
    let call = match sent(&acts) {
        WireMessage::Call { question_id, target, method_id, params } => {
            assert_eq!(*question_id, 1);
            assert!(matches!(target, Target::ExportId(0)));
            assert_eq!(*method_id, 3);
            assert_eq!(params, &b"args".to_vec());
            WireMessage::Call {
                question_id: 1,
                target: Target::ExportId(0),
                method_id: 3,
                params: params.clone(),
            }
        }
        m => panic!("expected Call, got {:?}", msg_kind(m)),
    };

    // The server is told to invoke object 9 with the very same arguments.
    let acts = server.handle_event(Event::Incoming(call));
    assert_eq!(acts.len(), 1);
    match &acts[0] {
        Action::Invoke { answer_id, server: srv, method_id, params } => {
            assert_eq!(*answer_id, 1);
            assert_eq!(*srv, 9);
            assert_eq!(*method_id, 3);
            assert_eq!(params, &b"args".to_vec());
        }
        _ => panic!("call must be handed to the local server"),
    }

    // The result flows back unchanged.
    let acts = server.handle_event(Event::LocalResult {
        answer_id: 1,
        result: CallResult::Done(b"result".to_vec()),
    });
    let ret = match sent(&acts) {
        WireMessage::Return { question_id, result } => {
            assert_eq!(*question_id, 1);
            match result {
                RetResult::Results(p) => assert_eq!(p.body, b"result".to_vec()),
                RetResult::Exception(_) => panic!("call failed"),
            }
            WireMessage::Return {
                question_id: 1,
                result: RetResult::Results(capnp_rpc::types::Payload {
                    body: b"result".to_vec(),
                    cap: None,
                }),
            }
        }
        m => panic!("expected Return, got {:?}", msg_kind(m)),
    };
    let acts = client.handle_event(Event::Incoming(ret));
    match &acts[0] {
        Action::Complete { question_id, outcome } => {
            assert_eq!(*question_id, 1);
            match outcome {
                Outcome::Results { body, cap } => {
                    assert_eq!(body, &b"result".to_vec());
                    assert!(cap.is_none());
                }
                _ => panic!("call did not complete with a payload"),
            }
        }
        _ => panic!("first action must fulfil the completion slot"),
    }
}

#[test]
fn completions_are_delivered_in_return_arrival_order() {
    let mut client = Connection::new(Vec::new());
    client.handle_event(Event::OutgoingRestore { object_id: b"a".to_vec() });
    client.handle_event(Event::OutgoingRestore { object_id: b"b".to_vec() });

    // The peer answers question 1 first, then question 0: completions come
    // in exactly that arrival order.
    let mut seen: Vec<u32> = Vec::new();
    for qid in [1u32, 0u32] {
        let acts = client.handle_event(Event::Incoming(WireMessage::Return {
            question_id: qid,
            result: RetResult::Exception(b"no".to_vec()),
        }));
        for a in &acts {
            if let Action::Complete { question_id, .. } = a {
                seen.push(*question_id);
            }
        }
    }
    assert_eq!(seen, vec![1, 0]);
}

#[test]
fn shutdown_fails_every_pending_question_once_then_refuses() {
    let mut client = Connection::new(Vec::new());
    client.handle_event(Event::OutgoingRestore { object_id: b"a".to_vec() });
    client.handle_event(Event::OutgoingRestore { object_id: b"b".to_vec() });
    // Question 0 completes before the shutdown; only question 1 stays
    // pending.
    client.handle_event(Event::Incoming(WireMessage::Return {
        question_id: 0,
        result: RetResult::Exception(Vec::new()),
    }));

    let acts = client.handle_event(Event::Shutdown);
    let mut disconnected: Vec<u32> = Vec::new();
    for a in &acts {
        if let Action::Complete { question_id, outcome } = a {
            assert!(matches!(outcome, Outcome::Disconnected));
            disconnected.push(*question_id);
        }
    }
    assert_eq!(disconnected, vec![1]);
    assert!(!client.is_active());

    // Every later submission is refused outright.
    let acts = client.handle_event(Event::OutgoingRestore { object_id: b"c".to_vec() });
    assert_eq!(acts.len(), 1);
    assert!(matches!(acts[0], Action::Rejected));
}

#[test]
fn release_to_zero_drops_the_server() {
    let mut server = Connection::new(Vec::new());
    let acts = server.handle_event(Event::ExportLocal { server: 9 });
    assert!(matches!(acts[0], Action::ExportedAs { export_id: 0 }));

    let acts = server.handle_event(Event::Incoming(WireMessage::Release {
        export_id: 0,
        count: 1,
    }));
    assert_eq!(acts.len(), 1);
    assert!(matches!(acts[0], Action::DropServer { server: 9 }));
    assert!(server.is_active());
}

#[test]
fn release_waits_for_calls_in_flight() {
    let mut server = Connection::new(Vec::new());
    server.handle_event(Event::ExportLocal { server: 9 });

    // A call against export 0 is in flight.
    let acts = server.handle_event(Event::Incoming(WireMessage::Call {
        question_id: 5,
        target: Target::ExportId(0),
        method_id: 0,
        params: Vec::new(),
    }));
    assert!(matches!(acts[0], Action::Invoke { answer_id: 5, server: 9, .. }));

    // The peer gives back its only reference: the server must not be
    // dropped while the call is still running.
    let acts = server.handle_event(Event::Incoming(WireMessage::Release {
        export_id: 0,
        count: 1,
    }));
    assert!(acts.is_empty());

    // The call finishes and is acknowledged: only now is the server
    // released.
    let acts = server.handle_event(Event::LocalResult {
        answer_id: 5,
        result: CallResult::Done(Vec::new()),
    });
    assert!(matches!(
        &acts[0],
        Action::Send(WireMessage::Return { question_id: 5, .. })
    ));
    let acts = server.handle_event(Event::Incoming(WireMessage::Finish { question_id: 5 }));
    assert_eq!(acts.len(), 1);
    assert!(matches!(acts[0], Action::DropServer { server: 9 }));
}

#[test]
fn restore_unknown_name_is_exception_not_failure() {
    let mut server = Connection::new(roots_foo(7));
    let acts = server.handle_event(Event::Incoming(WireMessage::Restore {
        question_id: 0,
        object_id: b"bar".to_vec(),
    }));
    assert_eq!(acts.len(), 1);
    match sent(&acts) {
        WireMessage::Return { question_id, result } => {
            assert_eq!(*question_id, 0);
            match result {
                RetResult::Exception(reason) => assert_eq!(reason, &b"bar".to_vec()),
                RetResult::Results(_) => panic!("unknown name must not resolve"),
            }
        }
        m => panic!("expected Return, got {:?}", msg_kind(m)),
    }

    // The connection survives and still resolves names it knows.
    assert!(server.is_active());
    let acts = server.handle_event(Event::Incoming(WireMessage::Restore {
        question_id: 1,
        object_id: b"foo".to_vec(),
    }));
    match sent(&acts) {
        WireMessage::Return { result: RetResult::Results(p), .. } => {
            assert_eq!(p.cap, Some(0));
        }
        _ => panic!("known name must resolve"),
    }
}

#[test]
fn import_grants_accumulate_and_release_in_one_message() {
    let mut client = Connection::new(Vec::new());
    client.handle_event(Event::OutgoingRestore { object_id: b"a".to_vec() });
    client.handle_event(Event::OutgoingRestore { object_id: b"a".to_vec() });

    // Two returns carry the same export descriptor: one import, two grants.
    for qid in [0u32, 1u32] {
        let acts = client.handle_event(Event::Incoming(WireMessage::Return {
            question_id: qid,
            result: RetResult::Results(capnp_rpc::types::Payload {
                body: Vec::new(),
                cap: Some(4),
            }),
        }));
        match &acts[0] {
            Action::Complete { outcome: Outcome::Results { cap, .. }, .. } => {
                assert!(matches!(cap, Some(CapHandle::RemoteCap { import_id: 4 })));
            }
            _ => panic!("return must complete the question"),
        }
    }

    // Dropping the proxy gives both grants back in one Release.
    let acts = client.handle_event(Event::DropImport { import_id: 4 });
    assert_eq!(acts.len(), 1);
    assert!(matches!(
        acts[0],
        Action::Send(WireMessage::Release { export_id: 4, count: 2 })
    ));
}

#[test]
fn bootstrap_call_reaches_the_registered_root() {
    let mut server = Connection::new(roots_foo(7));
    let acts = server.handle_event(Event::Incoming(WireMessage::Call {
        question_id: 2,
        target: Target::Bootstrap,
        method_id: 1,
        params: b"p".to_vec(),
    }));
    assert_eq!(acts.len(), 1);
    match &acts[0] {
        Action::Invoke { answer_id, server: srv, method_id, params } => {
            assert_eq!(*answer_id, 2);
            assert_eq!(*srv, 7);
            assert_eq!(*method_id, 1);
            assert_eq!(params, &b"p".to_vec());
        }
        _ => panic!("bootstrap call must reach the root"),
    }
}

#[test]
fn duplicate_question_id_tears_the_connection_down() {
    let mut server = Connection::new(roots_foo(7));
    server.handle_event(Event::Incoming(WireMessage::Call {
        question_id: 2,
        target: Target::Bootstrap,
        method_id: 0,
        params: Vec::new(),
    }));
    let acts = server.handle_event(Event::Incoming(WireMessage::Call {
        question_id: 2,
        target: Target::Bootstrap,
        method_id: 0,
        params: Vec::new(),
    }));
    // No completion slots and no exports were open, so teardown itself has
    // nothing to report; the connection is closed for good.
    assert!(acts.is_empty());
    assert!(!server.is_active());
}

#[test]
fn exception_returns_reach_the_completion_slot_unchanged() {
    let mut client = Connection::new(Vec::new());
    client.handle_event(Event::OutgoingCall {
        import_id: 0,
        method_id: 0,
        params: Vec::new(),
    });
    // Calling through an import that was never granted is table corruption:
    // the engine closes rather than guessing.
    assert!(!client.is_active());

    let mut client = Connection::new(Vec::new());
    client.handle_event(Event::OutgoingRestore { object_id: b"x".to_vec() });
    let acts = client.handle_event(Event::Incoming(WireMessage::Return {
        question_id: 0,
        result: RetResult::Exception(b"boom".to_vec()),
    }));
    match &acts[0] {
        Action::Complete { question_id, outcome } => {
            assert_eq!(*question_id, 0);
            match outcome {
                Outcome::Exception(reason) => assert_eq!(reason, &b"boom".to_vec()),
                _ => panic!("exception must be delivered as an exception"),
            }
        }
        _ => panic!("return must complete the question"),
    }
    assert!(client.is_active());
}

#[test]
fn return_for_unknown_question_tears_the_connection_down() {
    let mut client = Connection::new(Vec::new());
    client.handle_event(Event::OutgoingRestore { object_id: b"a".to_vec() });
    let acts = client.handle_event(Event::Incoming(WireMessage::Return {
        question_id: 9,
        result: RetResult::Exception(Vec::new()),
    }));
    // The one pending question fails with Disconnected during teardown.
    assert_eq!(acts.len(), 1);
    assert!(matches!(
        acts[0],
        Action::Complete { question_id: 0, outcome: Outcome::Disconnected }
    ));
    assert!(!client.is_active());
}

#[test]
fn finish_before_return_tears_the_connection_down() {
    let mut server = Connection::new(roots_foo(7));
    let acts = server.handle_event(Event::Incoming(WireMessage::Call {
        question_id: 3,
        target: Target::Bootstrap,
        method_id: 0,
        params: Vec::new(),
    }));
    assert!(matches!(acts[0], Action::Invoke { .. }));
    // The peer may not retire an answer whose Return was never sent.
    server.handle_event(Event::Incoming(WireMessage::Finish { question_id: 3 }));
    assert!(!server.is_active());
}

#[test]
fn release_of_more_than_granted_tears_the_connection_down() {
    let mut server = Connection::new(Vec::new());
    let acts = server.handle_event(Event::ExportLocal { server: 9 });
    assert!(matches!(acts[0], Action::ExportedAs { export_id: 0 }));
    let acts = server.handle_event(Event::Incoming(WireMessage::Release {
        export_id: 0,
        count: 2,
    }));
    // Teardown still releases the export this side holds.
    assert_eq!(acts.len(), 1);
    assert!(matches!(acts[0], Action::DropServer { server: 9 }));
    assert!(!server.is_active());
}

#[test]
fn acceptor_mints_independent_connections() {
    let acceptor = EzRpcServerAcceptor::new(roots_foo(7));
    let mut first = acceptor.accept_connection();
    let mut second = acceptor.accept_connection();

    let acts = first.handle_event(Event::Incoming(WireMessage::Restore {
        question_id: 0,
        object_id: b"foo".to_vec(),
    }));
    match sent(&acts) {
        WireMessage::Return { result: RetResult::Results(p), .. } => assert_eq!(p.cap, Some(0)),
        _ => panic!("known name must resolve"),
    }

    // The second connection has its own tables: the same question id is
    // fresh there.
    let acts = second.handle_event(Event::Incoming(WireMessage::Restore {
        question_id: 0,
        object_id: b"foo".to_vec(),
    }));
    match sent(&acts) {
        WireMessage::Return { result: RetResult::Results(p), .. } => assert_eq!(p.cap, Some(0)),
        _ => panic!("known name must resolve"),
    }
    assert!(first.is_active() && second.is_active());
}
