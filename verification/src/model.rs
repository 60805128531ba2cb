//! The mathematical model of a connection.
//!
//! `ConnV` is the ghost state of one connection: its lifecycle flag and the
//! four bookkeeping tables. `step` is the transition function: given a state
//! and one event it yields the next state and the exact sequence of actions
//! the engine owes its caller. The executable engine refines `step` clause by
//! clause, and the laws in `crate::laws` are proved of `step` alone.

use vstd::prelude::*;

use crate::types::{ActionV, AnswerEntry, CallResultV, CapHandle, ConnState, EventV, ExportEntry,
    MsgV, OutcomeV, PayloadV, RetResultV, Target};

verus! {

/// Ghost state of a connection: the four tables, the lifecycle flag, and the
/// root-resolution table the connection was constructed with.
///
/// `questions[q]` is true while the outgoing call with question id `q` still
/// awaits its terminal completion; a slot is never reused once allocated.
/// `answers` maps peer-assigned question ids to answer entries. `exports[e]`
/// holds the export with id `e`, or `None` once it was dropped; a slot is
/// never reused. `imports` maps peer export ids to the number of references
/// the peer has granted this side. `roots` maps restore names to local server
/// objects.
pub ghost struct ConnV {
    pub state: ConnState,
    pub questions: Seq<bool>,
    pub answers: Seq<(u32, AnswerEntry)>,
    pub exports: Seq<Option<ExportEntry>>,
    pub imports: Seq<(u32, u32)>,
    pub roots: Seq<(Seq<u8>, u32)>,
}

/// The outcome of one step: the state after it and the actions it emits.
pub ghost struct StepV {
    pub post: ConnV,
    pub acts: Seq<ActionV>,
}

/// Index of the first entry keyed `k`, if any.
pub open spec fn key_idx<A>(s: Seq<(u32, A)>, k: u32) -> Option<int>
    decreases s.len(),
{
    if s.len() == 0 {
        None
    } else if s[0].0 == k {
        Some(0int)
    } else {
        match key_idx(s.drop_first(), k) {
            Some(i) => Some(i + 1),
            None => None,
        }
    }
}

/// Index of the first live export backed by `server`, if any.
pub open spec fn export_for(exports: Seq<Option<ExportEntry>>, server: u32) -> Option<int>
    decreases exports.len(),
{
    if exports.len() == 0 {
        None
    } else if exports[0] is Some && exports[0].unwrap().server == server {
        Some(0int)
    } else {
        match export_for(exports.drop_first(), server) {
            Some(i) => Some(i + 1),
            None => None,
        }
    }
}

/// The server registered under `name`, if any: first match wins.
pub open spec fn roots_lookup(roots: Seq<(Seq<u8>, u32)>, name: Seq<u8>) -> Option<u32>
    decreases roots.len(),
{
    if roots.len() == 0 {
        None
    } else if roots[0].0 == name {
        Some(roots[0].1)
    } else {
        roots_lookup(roots.drop_first(), name)
    }
}

/// How many live answers hold an in-flight reference on export `e`.
pub open spec fn count_calls(answers: Seq<(u32, AnswerEntry)>, e: u32) -> nat
    decreases answers.len(),
{
    if answers.len() == 0 {
        0nat
    } else {
        count_calls(answers.drop_last(), e) + if answers.last().1.export == Some(e) {
            1nat
        } else {
            0nat
        }
    }
}

/// No two entries share a key.
pub open spec fn distinct_keys<A>(s: Seq<(u32, A)>) -> bool {
    forall|i: int, j: int| 0 <= i < j < s.len() ==> (#[trigger] s[i]).0 != (#[trigger] s[j]).0
}

/// The answer entry `a` is consistent with the export table of `s`: the
/// export it holds an in-flight reference on is live.
pub open spec fn answer_ok(s: ConnV, a: (u32, AnswerEntry)) -> bool {
    a.1.export matches Some(e) ==> e < s.exports.len() && s.exports[e as int] is Some
}

/// Well-formedness of a connection state: ids fit in the wire's 32 bits,
/// keyed tables hold each key once, every in-flight reference points at a
/// live export, and each live export's `calls` counter equals the number of
/// in-flight answers against it.
pub open spec fn wf(s: ConnV) -> bool {
    &&& s.questions.len() <= u32::MAX as int
    &&& s.exports.len() <= u32::MAX as int
    &&& distinct_keys(s.answers)
    &&& distinct_keys(s.imports)
    &&& forall|i: int| 0 <= i < s.answers.len() ==> answer_ok(s, #[trigger] s.answers[i])
    &&& forall|e: int|
        0 <= e < s.exports.len() && s.exports[e] is Some ==> (#[trigger] s.exports[e]).unwrap().calls
            == count_calls(s.answers, e as u32)
    &&& forall|i: int| 0 <= i < s.imports.len() ==> (#[trigger] s.imports[i]).1 >= 1
}

/// One `Disconnected` completion for each still-pending question, in
/// question-id order.
pub open spec fn fail_all(questions: Seq<bool>) -> Seq<ActionV>
    decreases questions.len(),
{
    if questions.len() == 0 {
        Seq::<ActionV>::empty()
    } else {
        fail_all(questions.drop_last()) + if questions.last() {
            seq![ActionV::Complete {
                question_id: (questions.len() - 1) as u32,
                outcome: OutcomeV::Disconnected,
            }]
        } else {
            Seq::<ActionV>::empty()
        }
    }
}

/// One `DropServer` for each still-live export, in export-id order.
pub open spec fn drop_all(exports: Seq<Option<ExportEntry>>) -> Seq<ActionV>
    decreases exports.len(),
{
    if exports.len() == 0 {
        Seq::<ActionV>::empty()
    } else {
        drop_all(exports.drop_last()) + match exports.last() {
            Some(en) => seq![ActionV::DropServer { server: en.server }],
            None => Seq::<ActionV>::empty(),
        }
    }
}

/// Teardown: fail every pending question with `Disconnected` exactly once,
/// release every export this side still holds, clear the tables, and close.
/// Entered on shutdown, transport failure, protocol violation, table
/// corruption, or id exhaustion; afterwards every submission is `Rejected`
/// and nothing is mutated any more.
pub open spec fn teardown(s: ConnV) -> StepV {
    StepV {
        post: ConnV {
            state: ConnState::Closed,
            questions: Seq::<bool>::empty(),
            answers: Seq::<(u32, AnswerEntry)>::empty(),
            exports: Seq::<Option<ExportEntry>>::empty(),
            imports: Seq::<(u32, u32)>::empty(),
            roots: s.roots,
        },
        acts: fail_all(s.questions) + drop_all(s.exports),
    }
}

/// An application call on an imported capability: allocate the next question
/// id, record the pending question, and put a `Call` on the wire addressed at
/// the peer's export. Calling through an import this side no longer holds is
/// table corruption and fatal.
pub open spec fn step_outgoing_call(s: ConnV, import_id: u32, method_id: u16, params: Seq<u8>) -> StepV {
    if key_idx(s.imports, import_id) is None {
        teardown(s)
    } else if s.questions.len() >= u32::MAX as int {
        teardown(s)
    } else {
        let qid = s.questions.len() as u32;
        StepV {
            post: ConnV { questions: s.questions.push(true), ..s },
            acts: seq![
                ActionV::Started { question_id: qid },
                ActionV::Send(MsgV::Call {
                    question_id: qid,
                    target: Target::ExportId(import_id),
                    method_id: method_id,
                    params: params,
                }),
            ],
        }
    }
}

/// An application restore request: allocate the next question id and put a
/// `Restore` for the given name on the wire.
pub open spec fn step_outgoing_restore(s: ConnV, object_id: Seq<u8>) -> StepV {
    if s.questions.len() >= u32::MAX as int {
        teardown(s)
    } else {
        let qid = s.questions.len() as u32;
        StepV {
            post: ConnV { questions: s.questions.push(true), ..s },
            acts: seq![
                ActionV::Started { question_id: qid },
                ActionV::Send(MsgV::Restore { question_id: qid, object_id: object_id }),
            ],
        }
    }
}

/// An incoming `Call`. A fresh answer entry is recorded under the peer's
/// question id; the target export takes an in-flight reference and its server
/// is handed to the caller for invocation. A call at the bootstrap sentinel
/// goes to the registered root, or is answered with an exception when none is
/// registered. A duplicate question id or a dead target terminates the
/// connection.
pub open spec fn step_incoming_call(s: ConnV, aid: u32, target: Target, method_id: u16, params: Seq<u8>) -> StepV {
    if key_idx(s.answers, aid) is Some {
        teardown(s)
    } else {
        match target {
            Target::ExportId(e) => {
                if e < s.exports.len() && s.exports[e as int] is Some {
                    let en = s.exports[e as int].unwrap();
                    if en.calls == u32::MAX {
                        teardown(s)
                    } else {
                        StepV {
                            post: ConnV {
                                exports: s.exports.update(
                                    e as int,
                                    Some(ExportEntry { calls: (en.calls + 1) as u32, ..en }),
                                ),
                                answers: s.answers.push(
                                    (aid, AnswerEntry { export: Some(e), returned: false }),
                                ),
                                ..s
                            },
                            acts: seq![ActionV::Invoke {
                                answer_id: aid,
                                server: en.server,
                                method_id: method_id,
                                params: params,
                            }],
                        }
                    }
                } else {
                    teardown(s)
                }
            },
            Target::Bootstrap => {
                if s.roots.len() > 0 {
                    StepV {
                        post: ConnV {
                            answers: s.answers.push(
                                (aid, AnswerEntry { export: None, returned: false }),
                            ),
                            ..s
                        },
                        acts: seq![ActionV::Invoke {
                            answer_id: aid,
                            server: s.roots[0].1,
                            method_id: method_id,
                            params: params,
                        }],
                    }
                } else {
                    StepV {
                        post: ConnV {
                            answers: s.answers.push(
                                (aid, AnswerEntry { export: None, returned: true }),
                            ),
                            ..s
                        },
                        acts: seq![ActionV::Send(MsgV::Return {
                            question_id: aid,
                            result: RetResultV::Exception(Seq::<u8>::empty()),
                        })],
                    }
                }
            },
        }
    }
}

/// An incoming `Return` for question `qid`: deliver the embedded result to
/// the completion slot, retire the question, and acknowledge with a `Finish`.
/// A capability descriptor in the payload becomes (or extends) an import, and
/// the completion carries the proxy handle. A `Return` for a question that is
/// not pending terminates the connection.
pub open spec fn step_incoming_return(s: ConnV, qid: u32, result: RetResultV) -> StepV {
    if qid < s.questions.len() && s.questions[qid as int] {
        let retired = ConnV { questions: s.questions.update(qid as int, false), ..s };
        match result {
            RetResultV::Results(p) => {
                match p.cap {
                    Some(pe) => {
                        match key_idx(s.imports, pe) {
                            Some(i) => {
                                if s.imports[i].1 == u32::MAX {
                                    teardown(s)
                                } else {
                                    StepV {
                                        post: ConnV {
                                            imports: s.imports.update(
                                                i,
                                                (pe, (s.imports[i].1 + 1) as u32),
                                            ),
                                            ..retired
                                        },
                                        acts: complete_and_finish(
                                            qid,
                                            OutcomeV::Results {
                                                body: p.body,
                                                cap: Some(CapHandle::RemoteCap { import_id: pe }),
                                            },
                                        ),
                                    }
                                }
                            },
                            None => {
                                StepV {
                                    post: ConnV {
                                        imports: s.imports.push((pe, 1u32)),
                                        ..retired
                                    },
                                    acts: complete_and_finish(
                                        qid,
                                        OutcomeV::Results {
                                            body: p.body,
                                            cap: Some(CapHandle::RemoteCap { import_id: pe }),
                                        },
                                    ),
                                }
                            },
                        }
                    },
                    None => {
                        StepV {
                            post: retired,
                            acts: complete_and_finish(
                                qid,
                                OutcomeV::Results { body: p.body, cap: None },
                            ),
                        }
                    },
                }
            },
            RetResultV::Exception(r) => {
                StepV {
                    post: retired,
                    acts: complete_and_finish(qid, OutcomeV::Exception(r)),
                }
            },
        }
    } else {
        teardown(s)
    }
}

/// The two actions every accepted `Return` ends in: fulfil the slot, then
/// acknowledge to the peer.
pub open spec fn complete_and_finish(qid: u32, outcome: OutcomeV) -> Seq<ActionV> {
    seq![
        ActionV::Complete { question_id: qid, outcome: outcome },
        ActionV::Send(MsgV::Finish { question_id: qid }),
    ]
}

/// An incoming `Restore`: resolve the name against the root table. A known
/// name is answered with a payload whose capability descriptor is an export
/// of the resolved server (a fresh export entry, or one more reference on an
/// existing one); an unknown name is answered with an application exception
/// echoing the name, and the connection stays up. Either way the answer entry
/// stays until the peer's `Finish`.
pub open spec fn step_incoming_restore(s: ConnV, aid: u32, object_id: Seq<u8>) -> StepV {
    if key_idx(s.answers, aid) is Some {
        teardown(s)
    } else {
        let answered = s.answers.push((aid, AnswerEntry { export: None, returned: true }));
        match roots_lookup(s.roots, object_id) {
            Some(srv) => {
                match export_for(s.exports, srv) {
                    Some(e) => {
                        let en = s.exports[e].unwrap();
                        if en.refs == u32::MAX {
                            teardown(s)
                        } else {
                            StepV {
                                post: ConnV {
                                    exports: s.exports.update(
                                        e,
                                        Some(ExportEntry { refs: (en.refs + 1) as u32, ..en }),
                                    ),
                                    answers: answered,
                                    ..s
                                },
                                acts: seq![ActionV::Send(MsgV::Return {
                                    question_id: aid,
                                    result: RetResultV::Results(PayloadV {
                                        body: Seq::<u8>::empty(),
                                        cap: Some(e as u32),
                                    }),
                                })],
                            }
                        }
                    },
                    None => {
                        if s.exports.len() >= u32::MAX as int {
                            teardown(s)
                        } else {
                            let e = s.exports.len() as u32;
                            StepV {
                                post: ConnV {
                                    exports: s.exports.push(
                                        Some(ExportEntry { server: srv, refs: 1u32, calls: 0u32 }),
                                    ),
                                    answers: answered,
                                    ..s
                                },
                                acts: seq![ActionV::Send(MsgV::Return {
                                    question_id: aid,
                                    result: RetResultV::Results(PayloadV {
                                        body: Seq::<u8>::empty(),
                                        cap: Some(e),
                                    }),
                                })],
                            }
                        }
                    },
                }
            },
            None => {
                StepV {
                    post: ConnV { answers: answered, ..s },
                    acts: seq![ActionV::Send(MsgV::Return {
                        question_id: aid,
                        result: RetResultV::Exception(object_id),
                    })],
                }
            },
        }
    }
}

/// An incoming `Finish` retires the answer it names. The answer must exist
/// and its `Return` must have been sent; the in-flight reference it held on
/// its export is given back, and an export whose counters both reach zero is
/// dropped, its server released.
pub open spec fn step_incoming_finish(s: ConnV, aid: u32) -> StepV {
    match key_idx(s.answers, aid) {
        None => teardown(s),
        Some(i) => {
            let a = s.answers[i].1;
            if !a.returned {
                teardown(s)
            } else {
                let removed = s.answers.remove(i);
                match a.export {
                    Some(e) => {
                        if e < s.exports.len() && s.exports[e as int] is Some
                            && s.exports[e as int].unwrap().calls >= 1 {
                            let en = s.exports[e as int].unwrap();
                            let en2 = ExportEntry { calls: (en.calls - 1) as u32, ..en };
                            if en2.refs == 0 && en2.calls == 0 {
                                StepV {
                                    post: ConnV {
                                        answers: removed,
                                        exports: s.exports.update(e as int, None),
                                        ..s
                                    },
                                    acts: seq![ActionV::DropServer { server: en.server }],
                                }
                            } else {
                                StepV {
                                    post: ConnV {
                                        answers: removed,
                                        exports: s.exports.update(e as int, Some(en2)),
                                        ..s
                                    },
                                    acts: Seq::<ActionV>::empty(),
                                }
                            }
                        } else {
                            teardown(s)
                        }
                    },
                    None => {
                        StepV {
                            post: ConnV { answers: removed, ..s },
                            acts: Seq::<ActionV>::empty(),
                        }
                    },
                }
            }
        },
    }
}

/// An incoming `Release` gives back `count` of the references the peer holds
/// on export `e`. A count of zero, more than the peer holds, or an unknown
/// export terminates the connection. An export whose counters both reach zero
/// is dropped, its server released.
pub open spec fn step_incoming_release(s: ConnV, e: u32, count: u32) -> StepV {
    if e < s.exports.len() && s.exports[e as int] is Some && 1 <= count
        && count <= s.exports[e as int].unwrap().refs {
        let en = s.exports[e as int].unwrap();
        let en2 = ExportEntry { refs: (en.refs - count) as u32, ..en };
        if en2.refs == 0 && en2.calls == 0 {
            StepV {
                post: ConnV { exports: s.exports.update(e as int, None), ..s },
                acts: seq![ActionV::DropServer { server: en.server }],
            }
        } else {
            StepV {
                post: ConnV { exports: s.exports.update(e as int, Some(en2)), ..s },
                acts: Seq::<ActionV>::empty(),
            }
        }
    } else {
        teardown(s)
    }
}

/// The application reports the result of an invocation the engine asked for:
/// the `Return` goes on the wire and the answer waits for the peer's
/// `Finish`. A result for an answer that does not exist or was already
/// returned is table corruption and fatal.
pub open spec fn step_local_result(s: ConnV, aid: u32, result: CallResultV) -> StepV {
    match key_idx(s.answers, aid) {
        None => teardown(s),
        Some(i) => {
            let a = s.answers[i].1;
            if a.returned {
                teardown(s)
            } else {
                StepV {
                    post: ConnV {
                        answers: s.answers.update(i, (aid, AnswerEntry { returned: true, ..a })),
                        ..s
                    },
                    acts: seq![ActionV::Send(MsgV::Return {
                        question_id: aid,
                        result: match result {
                            CallResultV::Done(b) => RetResultV::Results(PayloadV {
                                body: b,
                                cap: None,
                            }),
                            CallResultV::Failed(r) => RetResultV::Exception(r),
                        },
                    })],
                }
            }
        },
    }
}

/// The application registers a local server object: the next unused export id
/// is assigned, the entry starts with one reference, and the id is reported
/// back.
pub open spec fn step_export_local(s: ConnV, server: u32) -> StepV {
    if s.exports.len() >= u32::MAX as int {
        teardown(s)
    } else {
        let e = s.exports.len() as u32;
        StepV {
            post: ConnV {
                exports: s.exports.push(Some(ExportEntry { server: server, refs: 1u32, calls: 0u32 })),
                ..s
            },
            acts: seq![ActionV::ExportedAs { export_id: e }],
        }
    }
}

/// The last local owner of an import proxy dropped it: the entry goes away
/// and the peer is told, in one `Release`, how many references it had granted
/// this side. Dropping an import this side does not hold is table corruption
/// and fatal.
pub open spec fn step_drop_import(s: ConnV, import_id: u32) -> StepV {
    match key_idx(s.imports, import_id) {
        None => teardown(s),
        Some(i) => {
            StepV {
                post: ConnV { imports: s.imports.remove(i), ..s },
                acts: seq![ActionV::Send(MsgV::Release {
                    export_id: import_id,
                    count: s.imports[i].1,
                })],
            }
        },
    }
}

/// What `key_idx` finds: the first index holding the key, or a guarantee that
/// no index does.
pub proof fn lemma_key_idx_props<A>(s: Seq<(u32, A)>, k: u32)
    ensures
        match key_idx(s, k) {
            Some(i) => 0 <= i < s.len() && s[i].0 == k && (forall|j: int|
                0 <= j < i ==> (#[trigger] s[j]).0 != k),
            None => forall|j: int| 0 <= j < s.len() ==> (#[trigger] s[j]).0 != k,
        },
    decreases s.len(),
{
    if s.len() > 0 && s[0].0 != k {
        let t = s.drop_first();
        lemma_key_idx_props(t, k);
        match key_idx(t, k) {
            Some(i) => {
                assert(t[i] == s[i + 1]);
                assert forall|j: int| 0 <= j < i + 1 implies (#[trigger] s[j]).0 != k by {
                    if j > 0 {
                        assert(t[j - 1] == s[j]);
                    }
                }
            },
            None => {
                assert forall|j: int| 0 <= j < s.len() implies (#[trigger] s[j]).0 != k by {
                    if j > 0 {
                        assert(t[j - 1] == s[j]);
                    }
                }
            },
        }
    }
}

/// `key_idx` finds exactly the first index holding the key.
pub proof fn lemma_key_idx_found<A>(s: Seq<(u32, A)>, k: u32, i: int)
    requires
        0 <= i < s.len(),
        s[i].0 == k,
        forall|j: int| 0 <= j < i ==> (#[trigger] s[j]).0 != k,
    ensures
        key_idx(s, k) == Some(i),
    decreases s.len(),
{
    if i > 0 {
        assert(forall|j: int| 0 <= j < s.drop_first().len() ==> #[trigger] s.drop_first()[j] == s[
            j + 1
        ]);
        lemma_key_idx_found(s.drop_first(), k, i - 1);
    }
}

/// A key at no index means `key_idx` finds nothing.
pub proof fn lemma_key_idx_none<A>(s: Seq<(u32, A)>, k: u32)
    requires
        forall|j: int| 0 <= j < s.len() ==> (#[trigger] s[j]).0 != k,
    ensures
        key_idx(s, k) is None,
    decreases s.len(),
{
    if s.len() > 0 {
        assert(forall|j: int| 0 <= j < s.drop_first().len() ==> #[trigger] s.drop_first()[j] == s[
            j + 1
        ]);
        lemma_key_idx_none(s.drop_first(), k);
    }
}

/// What `export_for` finds: the first live entry backed by the server, or a
/// guarantee that none is.
pub proof fn lemma_export_for_props(exports: Seq<Option<ExportEntry>>, server: u32)
    ensures
        match export_for(exports, server) {
            Some(i) => 0 <= i < exports.len() && exports[i] is Some && exports[i].unwrap().server
                == server && (forall|j: int|
                0 <= j < i ==> !((#[trigger] exports[j]) is Some && exports[j].unwrap().server
                    == server)),
            None => forall|j: int|
                0 <= j < exports.len() ==> !((#[trigger] exports[j]) is Some
                    && exports[j].unwrap().server == server),
        },
    decreases exports.len(),
{
    if exports.len() > 0 && !(exports[0] is Some && exports[0].unwrap().server == server) {
        let t = exports.drop_first();
        lemma_export_for_props(t, server);
        match export_for(t, server) {
            Some(i) => {
                assert(t[i] == exports[i + 1]);
                assert forall|j: int|
                    0 <= j < i + 1 implies !((#[trigger] exports[j]) is Some
                    && exports[j].unwrap().server == server) by {
                    if j > 0 {
                        assert(t[j - 1] == exports[j]);
                    }
                }
            },
            None => {
                assert forall|j: int|
                    0 <= j < exports.len() implies !((#[trigger] exports[j]) is Some
                    && exports[j].unwrap().server == server) by {
                    if j > 0 {
                        assert(t[j - 1] == exports[j]);
                    }
                }
            },
        }
    }
}

/// `export_for` finds exactly the first live entry backed by the server.
pub proof fn lemma_export_for_found(exports: Seq<Option<ExportEntry>>, server: u32, i: int)
    requires
        0 <= i < exports.len(),
        exports[i] is Some,
        exports[i].unwrap().server == server,
        forall|j: int|
            0 <= j < i ==> !((#[trigger] exports[j]) is Some && exports[j].unwrap().server
                == server),
    ensures
        export_for(exports, server) == Some(i),
    decreases exports.len(),
{
    if i > 0 {
        assert(forall|j: int|
            0 <= j < exports.drop_first().len() ==> #[trigger] exports.drop_first()[j] == exports[
                j + 1
            ]);
        lemma_export_for_found(exports.drop_first(), server, i - 1);
    }
}

/// No live entry is backed by the server: `export_for` finds nothing.
pub proof fn lemma_export_for_none(exports: Seq<Option<ExportEntry>>, server: u32)
    requires
        forall|j: int|
            0 <= j < exports.len() ==> !((#[trigger] exports[j]) is Some
                && exports[j].unwrap().server == server),
    ensures
        export_for(exports, server) is None,
    decreases exports.len(),
{
    if exports.len() > 0 {
        assert(forall|j: int|
            0 <= j < exports.drop_first().len() ==> #[trigger] exports.drop_first()[j] == exports[
                j + 1
            ]);
        lemma_export_for_none(exports.drop_first(), server);
    }
}

/// `roots_lookup` resolves to the first entry under the name.
pub proof fn lemma_roots_lookup_found(roots: Seq<(Seq<u8>, u32)>, name: Seq<u8>, i: int)
    requires
        0 <= i < roots.len(),
        roots[i].0 == name,
        forall|j: int| 0 <= j < i ==> (#[trigger] roots[j]).0 != name,
    ensures
        roots_lookup(roots, name) == Some(roots[i].1),
    decreases roots.len(),
{
    if i > 0 {
        assert(forall|j: int| 0 <= j < roots.drop_first().len()
            ==> #[trigger] roots.drop_first()[j] == roots[j + 1]);
        lemma_roots_lookup_found(roots.drop_first(), name, i - 1);
    }
}

/// The name stands at no index: `roots_lookup` resolves to nothing.
pub proof fn lemma_roots_lookup_none(roots: Seq<(Seq<u8>, u32)>, name: Seq<u8>)
    requires
        forall|j: int| 0 <= j < roots.len() ==> (#[trigger] roots[j]).0 != name,
    ensures
        roots_lookup(roots, name) is None,
    decreases roots.len(),
{
    if roots.len() > 0 {
        assert(forall|j: int| 0 <= j < roots.drop_first().len()
            ==> #[trigger] roots.drop_first()[j] == roots[j + 1]);
        lemma_roots_lookup_none(roots.drop_first(), name);
    }
}

/// Appending one answer raises the in-flight count of the export it holds,
/// and no other.
pub proof fn lemma_count_push(answers: Seq<(u32, AnswerEntry)>, x: (u32, AnswerEntry), e: u32)
    ensures
        count_calls(answers.push(x), e) == count_calls(answers, e) + if x.1.export == Some(e) {
            1nat
        } else {
            0nat
        },
{
    assert(answers.push(x).drop_last() =~= answers);
}

/// Replacing an answer without changing which export it holds leaves every
/// in-flight count as it was.
pub proof fn lemma_count_update(
    answers: Seq<(u32, AnswerEntry)>,
    i: int,
    y: (u32, AnswerEntry),
    e: u32,
)
    requires
        0 <= i < answers.len(),
        y.1.export == answers[i].1.export,
    ensures
        count_calls(answers.update(i, y), e) == count_calls(answers, e),
    decreases answers.len(),
{
    let upd = answers.update(i, y);
    if i == answers.len() - 1 {
        assert(upd.drop_last() =~= answers.drop_last());
    } else {
        assert(upd.drop_last() =~= answers.drop_last().update(i, y));
        lemma_count_update(answers.drop_last(), i, y, e);
    }
}

/// Removing one answer lowers the in-flight count of the export it held, and
/// no other.
pub proof fn lemma_count_remove(answers: Seq<(u32, AnswerEntry)>, i: int, e: u32)
    requires
        0 <= i < answers.len(),
    ensures
        count_calls(answers, e) == count_calls(answers.remove(i), e) + if answers[i].1.export
            == Some(e) {
            1nat
        } else {
            0nat
        },
    decreases answers.len(),
{
    let rem = answers.remove(i);
    if i == answers.len() - 1 {
        assert(rem =~= answers.drop_last());
    } else {
        assert(rem.drop_last() =~= answers.drop_last().remove(i));
        assert(rem.last() == answers.last());
        lemma_count_remove(answers.drop_last(), i, e);
    }
}

/// An export with no in-flight count has no answer holding it.
pub proof fn lemma_count_zero(answers: Seq<(u32, AnswerEntry)>, e: u32)
    requires
        count_calls(answers, e) == 0,
    ensures
        forall|i: int| 0 <= i < answers.len() ==> (#[trigger] answers[i]).1.export != Some(e),
    decreases answers.len(),
{
    if answers.len() > 0 {
        lemma_count_zero(answers.drop_last(), e);
        assert(forall|i: int| 0 <= i < answers.len() - 1 ==> #[trigger] answers[i]
            == answers.drop_last()[i]);
    }
}

/// An export no answer holds has no in-flight count.
pub proof fn lemma_count_none(answers: Seq<(u32, AnswerEntry)>, e: u32)
    requires
        forall|i: int| 0 <= i < answers.len() ==> (#[trigger] answers[i]).1.export != Some(e),
    ensures
        count_calls(answers, e) == 0,
    decreases answers.len(),
{
    if answers.len() > 0 {
        assert(forall|i: int| 0 <= i < answers.len() - 1 ==> #[trigger] answers.drop_last()[i]
            == answers[i]);
        lemma_count_none(answers.drop_last(), e);
    }
}

/// Removing an entry keeps the remaining keys distinct.
pub proof fn lemma_distinct_remove<A>(s: Seq<(u32, A)>, i: int)
    requires
        distinct_keys(s),
        0 <= i < s.len(),
    ensures
        distinct_keys(s.remove(i)),
{
    let rem = s.remove(i);
    assert forall|a: int, b: int| 0 <= a < b < rem.len() implies (#[trigger] rem[a]).0 != (
    #[trigger] rem[b]).0 by {
        let a0 = if a < i { a } else { a + 1 };
        let b0 = if b < i { b } else { b + 1 };
        assert(rem[a] == s[a0]);
        assert(rem[b] == s[b0]);
    }
}

/// The transition function of a connection. A closed connection refuses every
/// submission without mutating anything; an active one dispatches on the
/// event.
pub open spec fn step(s: ConnV, ev: EventV) -> StepV {
    if s.state is Closed {
        StepV { post: s, acts: seq![ActionV::Rejected] }
    } else {
        match ev {
            EventV::OutgoingCall { import_id, method_id, params } => step_outgoing_call(
                s,
                import_id,
                method_id,
                params,
            ),
            EventV::OutgoingRestore { object_id } => step_outgoing_restore(s, object_id),
            EventV::Incoming(m) => match m {
                MsgV::Call { question_id, target, method_id, params } => step_incoming_call(
                    s,
                    question_id,
                    target,
                    method_id,
                    params,
                ),
                MsgV::Return { question_id, result } => step_incoming_return(
                    s,
                    question_id,
                    result,
                ),
                MsgV::Restore { question_id, object_id } => step_incoming_restore(
                    s,
                    question_id,
                    object_id,
                ),
                MsgV::Finish { question_id } => step_incoming_finish(s, question_id),
                MsgV::Release { export_id, count } => step_incoming_release(s, export_id, count),
            },
            EventV::LocalResult { answer_id, result } => step_local_result(s, answer_id, result),
            EventV::ExportLocal { server } => step_export_local(s, server),
            EventV::DropImport { import_id } => step_drop_import(s, import_id),
            EventV::Shutdown => teardown(s),
            EventV::TransportError => teardown(s),
        }
    }
}

} // verus!
