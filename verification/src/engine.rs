//! The executable connection engine: the state of one connection and the
//! event handler that refines `crate::model::step`.

use vstd::prelude::*;

use crate::model::{self, ConnV};
use crate::types::{Action, ActionV, AnswerEntry, CallResult, CapHandle, ConnState, Event,
    ExportEntry, MsgV, Outcome, OutcomeV, Payload, RetResult, Target, WireMessage};

verus! {

/// Whether two byte strings hold the same bytes.
fn bytes_eq(a: &Vec<u8>, b: &Vec<u8>) -> (r: bool)
    ensures
        r == (a@ == b@),
{
    if a.len() != b.len() {
        return false;
    }
    let mut i: usize = 0;
    while i < a.len()
        invariant
            a@.len() == b@.len(),
            i <= a@.len(),
            forall|j: int| 0 <= j < i ==> a@[j] == b@[j],
        decreases a@.len() - i,
    {
        if a[i] != b[i] {
            return false;
        }
        i += 1;
    }
    proof {
        assert(a@ =~= b@);
    }
    true
}

/// Index of the first entry keyed `k`, as `crate::model::key_idx` gives it.
fn find_key<T>(v: &Vec<(u32, T)>, k: u32) -> (r: Option<usize>)
    ensures
        model::key_idx(v@, k) == (match r {
            Some(i) => Some(i as int),
            None => None::<int>,
        }),
        r matches Some(i) ==> i < v@.len(),
{
    let mut i: usize = 0;
    while i < v.len()
        invariant
            i <= v@.len(),
            forall|j: int| 0 <= j < i ==> (#[trigger] v@[j]).0 != k,
        decreases v@.len() - i,
    {
        if v[i].0 == k {
            proof {
                model::lemma_key_idx_found(v@, k, i as int);
            }
            return Some(i);
        }
        i += 1;
    }
    proof {
        model::lemma_key_idx_none(v@, k);
    }
    None
}

/// Index of the first live export backed by `server`, as
/// `crate::model::export_for` gives it.
fn find_export(v: &Vec<Option<ExportEntry>>, server: u32) -> (r: Option<usize>)
    ensures
        model::export_for(v@, server) == (match r {
            Some(i) => Some(i as int),
            None => None::<int>,
        }),
        r matches Some(i) ==> i < v@.len(),
{
    let mut i: usize = 0;
    while i < v.len()
        invariant
            i <= v@.len(),
            forall|j: int|
                0 <= j < i ==> !((#[trigger] v@[j]) is Some && v@[j].unwrap().server == server),
        decreases v@.len() - i,
    {
        let keep: bool = match v[i] {
            Some(en) => en.server == server,
            None => false,
        };
        if keep {
            proof {
                model::lemma_export_for_found(v@, server, i as int);
            }
            return Some(i);
        }
        i += 1;
    }
    proof {
        model::lemma_export_for_none(v@, server);
    }
    None
}

/// A byte vector's deep view is its view.
proof fn lemma_bytes_deep(b: Vec<u8>)
    ensures
        b.deep_view() == b@,
{
    assert(b.deep_view() =~= b@);
}

/// The bookkeeping state of one connection. The surrounding process submits
/// events through `handle_event` one at a time and performs the actions
/// handed back; this type is the single owner of the four tables.
pub struct Connection {
    state: ConnState,
    questions: Vec<bool>,
    answers: Vec<(u32, AnswerEntry)>,
    exports: Vec<Option<ExportEntry>>,
    imports: Vec<(u32, u32)>,
    roots: Vec<(Vec<u8>, u32)>,
}

impl View for Connection {
    type V = ConnV;

    closed spec fn view(&self) -> ConnV {
        ConnV {
            state: self.state,
            questions: self.questions@,
            answers: self.answers@,
            exports: self.exports@,
            imports: self.imports@,
            roots: self.roots.deep_view(),
        }
    }
}

impl Connection {
    /// A fresh connection over the given root table: active, with every
    /// bookkeeping table empty.
    pub fn new(roots: Vec<(Vec<u8>, u32)>) -> (c: Connection)
        ensures
            c@.state is Active,
            c@.questions.len() == 0,
            c@.answers.len() == 0,
            c@.exports.len() == 0,
            c@.imports.len() == 0,
            c@.roots == roots.deep_view(),
            model::wf(c@),
    {
        Connection {
            state: ConnState::Active,
            questions: Vec::new(),
            answers: Vec::new(),
            exports: Vec::new(),
            imports: Vec::new(),
            roots,
        }
    }

    /// Whether the connection still accepts work: true until teardown, false
    /// from then on.
    pub fn is_active(&self) -> (r: bool)
        ensures
            r == (self@.state is Active),
    {
        match self.state {
            ConnState::Active => true,
            ConnState::Closed => false,
        }
    }

    /// The server registered under `name`, as `crate::model::roots_lookup`
    /// resolves it.
    fn lookup_root(&self, name: &Vec<u8>) -> (r: Option<u32>)
        ensures
            r == model::roots_lookup(self@.roots, name@),
    {
        let mut i: usize = 0;
        while i < self.roots.len()
            invariant
                i <= self.roots@.len(),
                forall|j: int| 0 <= j < i ==> (#[trigger] self@.roots[j]).0 != name@,
            decreases self.roots@.len() - i,
        {
            if bytes_eq(&self.roots[i].0, name) {
                proof {
                    lemma_bytes_deep(self.roots@[i as int].0);
                    assert(self@.roots[i as int].0 == name@);
                    model::lemma_roots_lookup_found(self@.roots, name@, i as int);
                }
                return Some(self.roots[i].1);
            }
            proof {
                lemma_bytes_deep(self.roots@[i as int].0);
            }
            i += 1;
        }
        proof {
            model::lemma_roots_lookup_none(self@.roots, name@);
        }
        None
    }

    /// Teardown: fail every pending question, release every export, clear
    /// the tables, close. Refines `crate::model::teardown`.
    fn tear(&mut self) -> (acts: Vec<Action>)
        requires
            model::wf(old(self)@),
        ensures
            final(self)@ == model::teardown(old(self)@).post,
            acts.deep_view() == model::teardown(old(self)@).acts,
            model::wf(final(self)@),
    {
        let ghost q0 = self.questions@;
        let ghost x0 = self.exports@;
        let mut acts: Vec<Action> = Vec::new();
        let mut i: usize = 0;
        proof {
            assert(acts.deep_view() =~= model::fail_all(q0.take(0)));
        }
        while i < self.questions.len()
            invariant
                *self == *old(self),
                self.questions@ == q0,
                q0.len() <= u32::MAX as int,
                i <= q0.len(),
                acts.deep_view() == model::fail_all(q0.take(i as int)),
            decreases q0.len() - i,
        {
            let ghost pre = acts.deep_view();
            if self.questions[i] {
                acts.push(
                    Action::Complete { question_id: i as u32, outcome: Outcome::Disconnected },
                );
                proof {
                    assert(acts.deep_view() =~= pre.push(
                        crate::types::ActionV::Complete {
                            question_id: i as u32,
                            outcome: crate::types::OutcomeV::Disconnected,
                        },
                    ));
                }
            }
            proof {
                let t = q0.take(i as int + 1);
                assert(t.drop_last() =~= q0.take(i as int));
                assert(t.last() == q0[i as int]);
                if q0[i as int] {
                    assert(acts.deep_view() =~= model::fail_all(t));
                } else {
                    assert(model::fail_all(t) =~= model::fail_all(t.drop_last()));
                }
            }
            i += 1;
        }
        proof {
            assert(q0.take(q0.len() as int) =~= q0);
            assert(x0.take(0) =~= Seq::<Option<ExportEntry>>::empty());
            assert(acts.deep_view() + model::drop_all(x0.take(0)) =~= acts.deep_view());
        }
        let mut e: usize = 0;
        while e < self.exports.len()
            invariant
                *self == *old(self),
                self.exports@ == x0,
                x0.len() <= u32::MAX as int,
                e <= x0.len(),
                acts.deep_view() == model::fail_all(q0) + model::drop_all(x0.take(e as int)),
            decreases x0.len() - e,
        {
            let ghost pre = acts.deep_view();
            match self.exports[e] {
                Some(en) => {
                    acts.push(Action::DropServer { server: en.server });
                    proof {
                        assert(acts.deep_view() =~= pre.push(
                            crate::types::ActionV::DropServer { server: en.server },
                        ));
                    }
                },
                None => {},
            }
            proof {
                let t = x0.take(e as int + 1);
                assert(t.drop_last() =~= x0.take(e as int));
                assert(t.last() == x0[e as int]);
                match x0[e as int] {
                    Some(_) => {
                        assert(acts.deep_view() =~= model::fail_all(q0) + model::drop_all(t));
                    },
                    None => {
                        assert(model::drop_all(t) =~= model::drop_all(t.drop_last()));
                    },
                }
            }
            e += 1;
        }
        self.state = ConnState::Closed;
        self.questions = Vec::new();
        self.answers = Vec::new();
        self.exports = Vec::new();
        self.imports = Vec::new();
        proof {
            assert(x0.take(x0.len() as int) =~= x0);
            assert(self@.questions =~= Seq::<bool>::empty());
            assert(self@.answers =~= Seq::<(u32, AnswerEntry)>::empty());
            assert(self@.exports =~= Seq::<Option<ExportEntry>>::empty());
            assert(self@.imports =~= Seq::<(u32, u32)>::empty());
            assert(model::count_calls(self@.answers, 0u32) == 0nat);
        }
        acts
    }

    /// Register a local server object as an export.
    /// Refines `crate::model::step_export_local`.
    fn ev_export_local(&mut self, server: u32) -> (acts: Vec<Action>)
        requires
            model::wf(old(self)@),
            old(self)@.state is Active,
        ensures
            final(self)@ == model::step_export_local(old(self)@, server).post,
            acts.deep_view() == model::step_export_local(old(self)@, server).acts,
            model::wf(final(self)@),
    {
        if self.exports.len() >= u32::MAX as usize {
            return self.tear();
        }
        let e = self.exports.len() as u32;
        let ghost a0 = self.answers@;
        self.exports.push(Some(ExportEntry { server, refs: 1u32, calls: 0u32 }));
        let mut acts: Vec<Action> = Vec::new();
        acts.push(Action::ExportedAs { export_id: e });
        proof {
            assert(acts.deep_view() =~= seq![ActionV::ExportedAs { export_id: e }]);
            assert forall|i: int| 0 <= i < a0.len() implies (#[trigger] a0[i]).1.export != Some(e)
            by {
                assert(model::answer_ok(old(self)@, a0[i]));
            }
            model::lemma_count_none(a0, e);
        }
        acts
    }

    /// An application call on an imported capability.
    /// Refines `crate::model::step_outgoing_call`.
    fn ev_outgoing_call(&mut self, import_id: u32, method_id: u16, params: Vec<u8>) -> (acts: Vec<Action>)
        requires
            model::wf(old(self)@),
            old(self)@.state is Active,
        ensures
            final(self)@ == model::step_outgoing_call(
                old(self)@,
                import_id,
                method_id,
                params.deep_view(),
            ).post,
            acts.deep_view() == model::step_outgoing_call(
                old(self)@,
                import_id,
                method_id,
                params.deep_view(),
            ).acts,
            model::wf(final(self)@),
    {
        if find_key(&self.imports, import_id).is_none() {
            return self.tear();
        }
        if self.questions.len() >= u32::MAX as usize {
            return self.tear();
        }
        let qid = self.questions.len() as u32;
        let ghost p0 = params.deep_view();
        self.questions.push(true);
        let mut acts: Vec<Action> = Vec::new();
        acts.push(Action::Started { question_id: qid });
        acts.push(
            Action::Send(
                WireMessage::Call {
                    question_id: qid,
                    target: Target::ExportId(import_id),
                    method_id,
                    params,
                },
            ),
        );
        proof {
            assert(acts.deep_view() =~= seq![
                ActionV::Started { question_id: qid },
                ActionV::Send(MsgV::Call {
                    question_id: qid,
                    target: Target::ExportId(import_id),
                    method_id: method_id,
                    params: p0,
                }),
            ]);
        }
        acts
    }

    /// An application restore request for a named root on the peer.
    /// Refines `crate::model::step_outgoing_restore`.
    fn ev_outgoing_restore(&mut self, object_id: Vec<u8>) -> (acts: Vec<Action>)
        requires
            model::wf(old(self)@),
            old(self)@.state is Active,
        ensures
            final(self)@ == model::step_outgoing_restore(old(self)@, object_id.deep_view()).post,
            acts.deep_view() == model::step_outgoing_restore(
                old(self)@,
                object_id.deep_view(),
            ).acts,
            model::wf(final(self)@),
    {
        if self.questions.len() >= u32::MAX as usize {
            return self.tear();
        }
        let qid = self.questions.len() as u32;
        let ghost o0 = object_id.deep_view();
        self.questions.push(true);
        let mut acts: Vec<Action> = Vec::new();
        acts.push(Action::Started { question_id: qid });
        acts.push(Action::Send(WireMessage::Restore { question_id: qid, object_id }));
        proof {
            assert(acts.deep_view() =~= seq![
                ActionV::Started { question_id: qid },
                ActionV::Send(MsgV::Restore { question_id: qid, object_id: o0 }),
            ]);
        }
        acts
    }

    /// The last local owner of an import proxy dropped it.
    /// Refines `crate::model::step_drop_import`.
    fn ev_drop_import(&mut self, import_id: u32) -> (acts: Vec<Action>)
        requires
            model::wf(old(self)@),
            old(self)@.state is Active,
        ensures
            final(self)@ == model::step_drop_import(old(self)@, import_id).post,
            acts.deep_view() == model::step_drop_import(old(self)@, import_id).acts,
            model::wf(final(self)@),
    {
        match find_key(&self.imports, import_id) {
            None => self.tear(),
            Some(i) => {
                let n = self.imports[i].1;
                let ghost m0 = self.imports@;
                self.imports.remove(i);
                let mut acts: Vec<Action> = Vec::new();
                acts.push(
                    Action::Send(WireMessage::Release { export_id: import_id, count: n }),
                );
                proof {
                    model::lemma_distinct_remove(m0, i as int);
                    assert(acts.deep_view() =~= seq![
                        ActionV::Send(MsgV::Release { export_id: import_id, count: n }),
                    ]);
                    assert forall|j: int| 0 <= j < self@.imports.len() implies (
                    #[trigger] self@.imports[j]).1 >= 1 by {
                        if j < i {
                            assert(self@.imports[j] == m0[j]);
                        } else {
                            assert(self@.imports[j] == m0[j + 1]);
                        }
                    }
                }
                acts
            },
        }
    }

    /// The application reports how an invocation of a local server ended.
    /// Refines `crate::model::step_local_result`.
    fn ev_local_result(&mut self, answer_id: u32, result: CallResult) -> (acts: Vec<Action>)
        requires
            model::wf(old(self)@),
            old(self)@.state is Active,
        ensures
            final(self)@ == model::step_local_result(
                old(self)@,
                answer_id,
                result.deep_view(),
            ).post,
            acts.deep_view() == model::step_local_result(
                old(self)@,
                answer_id,
                result.deep_view(),
            ).acts,
            model::wf(final(self)@),
    {
        match find_key(&self.answers, answer_id) {
            None => self.tear(),
            Some(i) => {
                proof {
                    model::lemma_key_idx_props(self.answers@, answer_id);
                }
                let a = self.answers[i].1;
                if a.returned {
                    return self.tear();
                }
                let ghost a0 = self.answers@;
                let entry = AnswerEntry { export: a.export, returned: true };
                self.answers.set(i, (answer_id, entry));
                let ret = match result {
                    CallResult::Done(b) => RetResult::Results(Payload { body: b, cap: None }),
                    CallResult::Failed(r) => RetResult::Exception(r),
                };
                let mut acts: Vec<Action> = Vec::new();
                let ghost rv = ret.deep_view();
                acts.push(Action::Send(WireMessage::Return { question_id: answer_id, result: ret }));
                proof {
                    assert(acts.deep_view() =~= seq![
                        ActionV::Send(MsgV::Return { question_id: answer_id, result: rv }),
                    ]);
                    assert forall|e2: int|
                        0 <= e2 < self@.exports.len() && self@.exports[e2] is Some implies (
                    #[trigger] self@.exports[e2]).unwrap().calls == model::count_calls(
                        self@.answers,
                        e2 as u32,
                    ) by {
                        model::lemma_count_update(a0, i as int, (answer_id, entry), e2 as u32);
                    }
                }
                acts
            },
        }
    }

    /// An incoming `Return` from the peer.
    /// Refines `crate::model::step_incoming_return`.
    fn ev_incoming_return(&mut self, qid: u32, result: RetResult) -> (acts: Vec<Action>)
        requires
            model::wf(old(self)@),
            old(self)@.state is Active,
        ensures
            final(self)@ == model::step_incoming_return(old(self)@, qid, result.deep_view()).post,
            acts.deep_view() == model::step_incoming_return(
                old(self)@,
                qid,
                result.deep_view(),
            ).acts,
            model::wf(final(self)@),
    {
        if !((qid as usize) < self.questions.len() && self.questions[qid as usize]) {
            return self.tear();
        }
        match result {
            RetResult::Results(p) => {
                let ghost b0 = p.body.deep_view();
                match p.cap {
                    Some(pe) => {
                        let handle = Some(CapHandle::RemoteCap { import_id: pe });
                        match find_key(&self.imports, pe) {
                            Some(i) => {
                                proof {
                                    model::lemma_key_idx_props(self.imports@, pe);
                                }
                                let n = self.imports[i].1;
                                if n == u32::MAX {
                                    return self.tear();
                                }
                                self.questions.set(qid as usize, false);
                                self.imports.set(i, (pe, n + 1));
                                let mut acts: Vec<Action> = Vec::new();
                                acts.push(
                                    Action::Complete {
                                        question_id: qid,
                                        outcome: Outcome::Results { body: p.body, cap: handle },
                                    },
                                );
                                acts.push(
                                    Action::Send(WireMessage::Finish { question_id: qid }),
                                );
                                proof {
                                    assert(acts.deep_view() =~= model::complete_and_finish(
                                        qid,
                                        OutcomeV::Results { body: b0, cap: handle },
                                    ));
                                }
                                acts
                            },
                            None => {
                                self.questions.set(qid as usize, false);
                                self.imports.push((pe, 1u32));
                                let mut acts: Vec<Action> = Vec::new();
                                acts.push(
                                    Action::Complete {
                                        question_id: qid,
                                        outcome: Outcome::Results { body: p.body, cap: handle },
                                    },
                                );
                                acts.push(
                                    Action::Send(WireMessage::Finish { question_id: qid }),
                                );
                                proof {
                                    model::lemma_key_idx_props(old(self)@.imports, pe);
                                    assert(acts.deep_view() =~= model::complete_and_finish(
                                        qid,
                                        OutcomeV::Results { body: b0, cap: handle },
                                    ));
                                }
                                acts
                            },
                        }
                    },
                    None => {
                        self.questions.set(qid as usize, false);
                        let mut acts: Vec<Action> = Vec::new();
                        acts.push(
                            Action::Complete {
                                question_id: qid,
                                outcome: Outcome::Results { body: p.body, cap: None },
                            },
                        );
                        acts.push(Action::Send(WireMessage::Finish { question_id: qid }));
                        proof {
                            assert(acts.deep_view() =~= model::complete_and_finish(
                                qid,
                                OutcomeV::Results { body: b0, cap: None },
                            ));
                        }
                        acts
                    },
                }
            },
            RetResult::Exception(r) => {
                let ghost r0 = r.deep_view();
                self.questions.set(qid as usize, false);
                let mut acts: Vec<Action> = Vec::new();
                acts.push(
                    Action::Complete { question_id: qid, outcome: Outcome::Exception(r) },
                );
                acts.push(Action::Send(WireMessage::Finish { question_id: qid }));
                proof {
                    assert(acts.deep_view() =~= model::complete_and_finish(
                        qid,
                        OutcomeV::Exception(r0),
                    ));
                }
                acts
            },
        }
    }

    /// An incoming `Restore` from the peer.
    /// Refines `crate::model::step_incoming_restore`.
    fn ev_incoming_restore(&mut self, aid: u32, object_id: Vec<u8>) -> (acts: Vec<Action>)
        requires
            model::wf(old(self)@),
            old(self)@.state is Active,
        ensures
            final(self)@ == model::step_incoming_restore(
                old(self)@,
                aid,
                object_id.deep_view(),
            ).post,
            acts.deep_view() == model::step_incoming_restore(
                old(self)@,
                aid,
                object_id.deep_view(),
            ).acts,
            model::wf(final(self)@),
    {
        proof {
            lemma_bytes_deep(object_id);
        }
        if find_key(&self.answers, aid).is_some() {
            return self.tear();
        }
        proof {
            model::lemma_key_idx_props(self.answers@, aid);
        }
        let ghost o0 = object_id.deep_view();
        let ghost a0 = self.answers@;
        let entry = AnswerEntry { export: None, returned: true };
        match self.lookup_root(&object_id) {
            Some(srv) => {
                match find_export(&self.exports, srv) {
                    Some(e) => {
                        proof {
                            model::lemma_export_for_props(self.exports@, srv);
                        }
                        let en = match self.exports[e] {
                            Some(en) => en,
                            None => {
                                return self.tear();
                            },
                        };
                        if en.refs == u32::MAX {
                            return self.tear();
                        }
                        let en2 = ExportEntry {
                            server: en.server,
                            refs: en.refs + 1,
                            calls: en.calls,
                        };
                        self.exports.set(e, Some(en2));
                        self.answers.push((aid, entry));
                        let mut acts: Vec<Action> = Vec::new();
                        let body: Vec<u8> = Vec::new();
                        let ghost bv = body.deep_view();
                        acts.push(
                            Action::Send(
                                WireMessage::Return {
                                    question_id: aid,
                                    result: RetResult::Results(
                                        Payload { body, cap: Some(e as u32) },
                                    ),
                                },
                            ),
                        );
                        proof {
                            assert(bv =~= Seq::<u8>::empty());
                            assert(acts.deep_view() =~= seq![
                                ActionV::Send(MsgV::Return {
                                    question_id: aid,
                                    result: crate::types::RetResultV::Results(
                                        crate::types::PayloadV {
                                            body: Seq::<u8>::empty(),
                                            cap: Some(e as u32),
                                        },
                                    ),
                                }),
                            ]);
                            assert forall|e2: int|
                                0 <= e2 < self@.exports.len() && self@.exports[e2] is Some implies (
                            #[trigger] self@.exports[e2]).unwrap().calls == model::count_calls(
                                self@.answers,
                                e2 as u32,
                            ) by {
                                model::lemma_count_push(a0, (aid, entry), e2 as u32);
                            }
                        }
                        acts
                    },
                    None => {
                        if self.exports.len() >= u32::MAX as usize {
                            return self.tear();
                        }
                        let e = self.exports.len() as u32;
                        self.exports.push(
                            Some(ExportEntry { server: srv, refs: 1u32, calls: 0u32 }),
                        );
                        self.answers.push((aid, entry));
                        let mut acts: Vec<Action> = Vec::new();
                        let body: Vec<u8> = Vec::new();
                        let ghost bv = body.deep_view();
                        acts.push(
                            Action::Send(
                                WireMessage::Return {
                                    question_id: aid,
                                    result: RetResult::Results(Payload { body, cap: Some(e) }),
                                },
                            ),
                        );
                        proof {
                            assert(bv =~= Seq::<u8>::empty());
                            assert(acts.deep_view() =~= seq![
                                ActionV::Send(MsgV::Return {
                                    question_id: aid,
                                    result: crate::types::RetResultV::Results(
                                        crate::types::PayloadV {
                                            body: Seq::<u8>::empty(),
                                            cap: Some(e),
                                        },
                                    ),
                                }),
                            ]);
                            assert forall|i: int| 0 <= i < a0.len() implies (
                            #[trigger] a0[i]).1.export != Some(e) by {
                                assert(model::answer_ok(old(self)@, a0[i]));
                            }
                            model::lemma_count_none(a0, e);
                            assert forall|e2: int|
                                0 <= e2 < self@.exports.len() && self@.exports[e2] is Some implies (
                            #[trigger] self@.exports[e2]).unwrap().calls == model::count_calls(
                                self@.answers,
                                e2 as u32,
                            ) by {
                                model::lemma_count_push(a0, (aid, entry), e2 as u32);
                            }
                        }
                        acts
                    },
                }
            },
            None => {
                self.answers.push((aid, entry));
                let mut acts: Vec<Action> = Vec::new();
                acts.push(
                    Action::Send(
                        WireMessage::Return {
                            question_id: aid,
                            result: RetResult::Exception(object_id),
                        },
                    ),
                );
                proof {
                    assert(acts.deep_view() =~= seq![
                        ActionV::Send(MsgV::Return {
                            question_id: aid,
                            result: crate::types::RetResultV::Exception(o0),
                        }),
                    ]);
                    assert forall|e2: int|
                        0 <= e2 < self@.exports.len() && self@.exports[e2] is Some implies (
                    #[trigger] self@.exports[e2]).unwrap().calls == model::count_calls(
                        self@.answers,
                        e2 as u32,
                    ) by {
                        model::lemma_count_push(a0, (aid, entry), e2 as u32);
                    }
                }
                acts
            },
        }
    }

    /// An incoming `Call` from the peer.
    /// Refines `crate::model::step_incoming_call`.
    fn ev_incoming_call(&mut self, aid: u32, target: Target, method_id: u16, params: Vec<u8>) -> (acts: Vec<Action>)
        requires
            model::wf(old(self)@),
            old(self)@.state is Active,
        ensures
            final(self)@ == model::step_incoming_call(
                old(self)@,
                aid,
                target,
                method_id,
                params.deep_view(),
            ).post,
            acts.deep_view() == model::step_incoming_call(
                old(self)@,
                aid,
                target,
                method_id,
                params.deep_view(),
            ).acts,
            model::wf(final(self)@),
    {
        if find_key(&self.answers, aid).is_some() {
            return self.tear();
        }
        proof {
            model::lemma_key_idx_props(self.answers@, aid);
        }
        let ghost p0 = params.deep_view();
        let ghost a0 = self.answers@;
        match target {
            Target::ExportId(e) => {
                if !((e as usize) < self.exports.len()) {
                    return self.tear();
                }
                let en = match self.exports[e as usize] {
                    Some(en) => en,
                    None => {
                        return self.tear();
                    },
                };
                if en.calls == u32::MAX {
                    return self.tear();
                }
                let en2 = ExportEntry { server: en.server, refs: en.refs, calls: en.calls + 1 };
                let entry = AnswerEntry { export: Some(e), returned: false };
                self.exports.set(e as usize, Some(en2));
                self.answers.push((aid, entry));
                let mut acts: Vec<Action> = Vec::new();
                acts.push(
                    Action::Invoke { answer_id: aid, server: en.server, method_id, params },
                );
                proof {
                    assert(acts.deep_view() =~= seq![
                        ActionV::Invoke {
                            answer_id: aid,
                            server: en.server,
                            method_id: method_id,
                            params: p0,
                        },
                    ]);
                    assert forall|e2: int|
                        0 <= e2 < self@.exports.len() && self@.exports[e2] is Some implies (
                    #[trigger] self@.exports[e2]).unwrap().calls == model::count_calls(
                        self@.answers,
                        e2 as u32,
                    ) by {
                        model::lemma_count_push(a0, (aid, entry), e2 as u32);
                    }
                }
                acts
            },
            Target::Bootstrap => {
                if self.roots.len() > 0 {
                    let srv = self.roots[0].1;
                    let entry = AnswerEntry { export: None, returned: false };
                    self.answers.push((aid, entry));
                    let mut acts: Vec<Action> = Vec::new();
                    acts.push(
                        Action::Invoke { answer_id: aid, server: srv, method_id, params },
                    );
                    proof {
                        assert(srv == old(self)@.roots[0].1);
                        assert(acts.deep_view() =~= seq![
                            ActionV::Invoke {
                                answer_id: aid,
                                server: srv,
                                method_id: method_id,
                                params: p0,
                            },
                        ]);
                        assert forall|e2: int|
                            0 <= e2 < self@.exports.len() && self@.exports[e2] is Some implies (
                        #[trigger] self@.exports[e2]).unwrap().calls == model::count_calls(
                            self@.answers,
                            e2 as u32,
                        ) by {
                            model::lemma_count_push(a0, (aid, entry), e2 as u32);
                        }
                    }
                    acts
                } else {
                    let entry = AnswerEntry { export: None, returned: true };
                    self.answers.push((aid, entry));
                    let mut acts: Vec<Action> = Vec::new();
                    let reason: Vec<u8> = Vec::new();
                    let ghost rv = reason.deep_view();
                    acts.push(
                        Action::Send(
                            WireMessage::Return {
                                question_id: aid,
                                result: RetResult::Exception(reason),
                            },
                        ),
                    );
                    proof {
                        assert(rv =~= Seq::<u8>::empty());
                        assert(acts.deep_view() =~= seq![
                            ActionV::Send(MsgV::Return {
                                question_id: aid,
                                result: crate::types::RetResultV::Exception(Seq::<u8>::empty()),
                            }),
                        ]);
                        assert forall|e2: int|
                            0 <= e2 < self@.exports.len() && self@.exports[e2] is Some implies (
                        #[trigger] self@.exports[e2]).unwrap().calls == model::count_calls(
                            self@.answers,
                            e2 as u32,
                        ) by {
                            model::lemma_count_push(a0, (aid, entry), e2 as u32);
                        }
                    }
                    acts
                }
            },
        }
    }

    /// An incoming `Finish` from the peer.
    /// Refines `crate::model::step_incoming_finish`.
    fn ev_incoming_finish(&mut self, aid: u32) -> (acts: Vec<Action>)
        requires
            model::wf(old(self)@),
            old(self)@.state is Active,
        ensures
            final(self)@ == model::step_incoming_finish(old(self)@, aid).post,
            acts.deep_view() == model::step_incoming_finish(old(self)@, aid).acts,
            model::wf(final(self)@),
    {
        match find_key(&self.answers, aid) {
            None => self.tear(),
            Some(i) => {
                proof {
                    model::lemma_key_idx_props(self.answers@, aid);
                }
                let a = self.answers[i].1;
                if !a.returned {
                    return self.tear();
                }
                match a.export {
                    Some(e) => {
                        if !((e as usize) < self.exports.len()) {
                            return self.tear();
                        }
                        let en = match self.exports[e as usize] {
                            Some(en) => en,
                            None => {
                                return self.tear();
                            },
                        };
                        if !(en.calls >= 1) {
                            return self.tear();
                        }
                        let ghost a0 = self.answers@;
                        let en2 = ExportEntry {
                            server: en.server,
                            refs: en.refs,
                            calls: en.calls - 1,
                        };
                        self.answers.remove(i);
                        proof {
                            model::lemma_distinct_remove(a0, i as int);
                        }
                        if en2.refs == 0 && en2.calls == 0 {
                            self.exports.set(e as usize, None);
                            let mut acts: Vec<Action> = Vec::new();
                            acts.push(Action::DropServer { server: en.server });
                            proof {
                                assert(acts.deep_view() =~= seq![
                                    ActionV::DropServer { server: en.server },
                                ]);
                                self.finish_wf(old(self)@, a0, i as int, e);
                            }
                            acts
                        } else {
                            self.exports.set(e as usize, Some(en2));
                            let acts: Vec<Action> = Vec::new();
                            proof {
                                assert(acts.deep_view() =~= Seq::<ActionV>::empty());
                                self.finish_wf(old(self)@, a0, i as int, e);
                            }
                            acts
                        }
                    },
                    None => {
                        let ghost a0 = self.answers@;
                        self.answers.remove(i);
                        let acts: Vec<Action> = Vec::new();
                        proof {
                            model::lemma_distinct_remove(a0, i as int);
                            assert(acts.deep_view() =~= Seq::<ActionV>::empty());
                            assert forall|e2: int|
                                0 <= e2 < self@.exports.len() && self@.exports[e2] is Some implies (
                            #[trigger] self@.exports[e2]).unwrap().calls == model::count_calls(
                                self@.answers,
                                e2 as u32,
                            ) by {
                                model::lemma_count_remove(a0, i as int, e2 as u32);
                            }
                            assert forall|j: int| 0 <= j < self@.answers.len() implies
                                model::answer_ok(self@, #[trigger] self@.answers[j]) by {
                                if j < i as int {
                                    assert(self@.answers[j] == a0[j]);
                                    assert(model::answer_ok(old(self)@, a0[j]));
                                } else {
                                    assert(self@.answers[j] == a0[j + 1]);
                                    assert(model::answer_ok(old(self)@, a0[j + 1]));
                                }
                            }
                        }
                        acts
                    },
                }
            },
        }
    }

    /// The well-formedness argument shared by the two export outcomes of an
    /// incoming `Finish`: the answer at `i` of the old state `s0` held an
    /// in-flight reference on export `e` and was removed, and `e`'s counter
    /// was lowered by one (to a live entry or, when both counters reached
    /// zero, to a dropped one).
    proof fn finish_wf(&self, s0: ConnV, a0: Seq<(u32, AnswerEntry)>, i: int, e: u32)
        requires
            model::wf(s0),
            s0.answers == a0,
            0 <= i < a0.len(),
            a0[i].1.export == Some(e),
            e < s0.exports.len(),
            s0.exports[e as int] is Some,
            s0.exports[e as int].unwrap().calls >= 1,
            self@.answers == a0.remove(i),
            self@.exports.len() == s0.exports.len(),
            forall|j: int| 0 <= j < s0.exports.len() && j != e ==> self@.exports[j]
                == s0.exports[j],
            self@.exports[e as int] matches Some(en2) ==> en2.calls == s0.exports[
                e as int
            ].unwrap().calls - 1 && en2.server == s0.exports[e as int].unwrap().server,
            self@.exports[e as int] is None ==> s0.exports[e as int].unwrap().calls == 1,
            self@.questions == s0.questions,
            self@.imports == s0.imports,
        ensures
            model::wf(self@),
    {
        model::lemma_distinct_remove(a0, i);
        assert forall|e2: int|
            0 <= e2 < self@.exports.len() && self@.exports[e2] is Some implies (
        #[trigger] self@.exports[e2]).unwrap().calls == model::count_calls(
            self@.answers,
            e2 as u32,
        ) by {
            model::lemma_count_remove(a0, i, e2 as u32);
            if e2 == e as int {
                assert(s0.exports[e2].unwrap().calls == model::count_calls(a0, e2 as u32));
            } else {
                assert(self@.exports[e2] == s0.exports[e2]);
                assert(e2 as u32 != e);
                assert(a0[i].1.export != Some(e2 as u32));
                assert(s0.exports[e2].unwrap().calls == model::count_calls(a0, e2 as u32));
            }
        }
        if self@.exports[e as int] is None {
            model::lemma_count_remove(a0, i, e);
            assert(model::count_calls(self@.answers, e) == 0);
            model::lemma_count_zero(self@.answers, e);
        }
        assert forall|j: int| 0 <= j < self@.answers.len() implies model::answer_ok(
            self@,
            #[trigger] self@.answers[j],
        ) by {
            if j < i {
                assert(self@.answers[j] == a0[j]);
                assert(model::answer_ok(s0, a0[j]));
            } else {
                assert(self@.answers[j] == a0[j + 1]);
                assert(model::answer_ok(s0, a0[j + 1]));
            }
            match self@.answers[j].1.export {
                Some(x) => {
                    assert(x < s0.exports.len() && s0.exports[x as int] is Some);
                    if x == e {
                        if self@.exports[e as int] is None {
                            model::lemma_count_remove(a0, i, e);
                            model::lemma_count_zero(self@.answers, e);
                            assert(false);
                        }
                    } else {
                        assert(self@.exports[x as int] == s0.exports[x as int]);
                    }
                },
                None => {},
            }
        }
    }

    /// Processes one event against the connection's tables. The contract ties
    /// the new state and the returned actions exactly to one step of the
    /// model: `crate::model::step`.
    pub fn handle_event(&mut self, ev: Event) -> (acts: Vec<Action>)
        requires
            model::wf(old(self)@),
        ensures
            final(self)@ == model::step(old(self)@, ev.deep_view()).post,
            acts.deep_view() == model::step(old(self)@, ev.deep_view()).acts,
            model::wf(final(self)@),
    {
        match self.state {
            ConnState::Closed => {
                let mut acts: Vec<Action> = Vec::new();
                acts.push(Action::Rejected);
                proof {
                    assert(acts.deep_view() =~= seq![ActionV::Rejected]);
                }
                acts
            },
            ConnState::Active => {
                match ev {
                    Event::OutgoingCall { import_id, method_id, params } => self.ev_outgoing_call(
                        import_id,
                        method_id,
                        params,
                    ),
                    Event::OutgoingRestore { object_id } => self.ev_outgoing_restore(object_id),
                    Event::Incoming(m) => match m {
                        WireMessage::Call { question_id, target, method_id, params } => self
                            .ev_incoming_call(question_id, target, method_id, params),
                        WireMessage::Return { question_id, result } => self.ev_incoming_return(
                            question_id,
                            result,
                        ),
                        WireMessage::Restore { question_id, object_id } => self
                            .ev_incoming_restore(question_id, object_id),
                        WireMessage::Finish { question_id } => self.ev_incoming_finish(
                            question_id,
                        ),
                        WireMessage::Release { export_id, count } => self.ev_incoming_release(
                            export_id,
                            count,
                        ),
                    },
                    Event::LocalResult { answer_id, result } => self.ev_local_result(
                        answer_id,
                        result,
                    ),
                    Event::ExportLocal { server } => self.ev_export_local(server),
                    Event::DropImport { import_id } => self.ev_drop_import(import_id),
                    Event::Shutdown => self.tear(),
                    Event::TransportError => self.tear(),
                }
            },
        }
    }

    /// An incoming `Release` from the peer.
    /// Refines `crate::model::step_incoming_release`.
    fn ev_incoming_release(&mut self, e: u32, count: u32) -> (acts: Vec<Action>)
        requires
            model::wf(old(self)@),
            old(self)@.state is Active,
        ensures
            final(self)@ == model::step_incoming_release(old(self)@, e, count).post,
            acts.deep_view() == model::step_incoming_release(old(self)@, e, count).acts,
            model::wf(final(self)@),
    {
        if !((e as usize) < self.exports.len()) {
            return self.tear();
        }
        let en = match self.exports[e as usize] {
            Some(en) => en,
            None => {
                return self.tear();
            },
        };
        if !(1 <= count && count <= en.refs) {
            return self.tear();
        }
        let en2 = ExportEntry { server: en.server, refs: en.refs - count, calls: en.calls };
        if en2.refs == 0 && en2.calls == 0 {
            self.exports.set(e as usize, None);
            let mut acts: Vec<Action> = Vec::new();
            acts.push(Action::DropServer { server: en.server });
            proof {
                assert(acts.deep_view() =~= seq![ActionV::DropServer { server: en.server }]);
                model::lemma_count_zero(self@.answers, e);
            }
            acts
        } else {
            self.exports.set(e as usize, Some(en2));
            let acts: Vec<Action> = Vec::new();
            proof {
                assert(acts.deep_view() =~= Seq::<ActionV>::empty());
            }
            acts
        }
    }
}

/// A copy of a byte string.
fn copy_bytes(src: &Vec<u8>) -> (r: Vec<u8>)
    ensures
        r@ == src@,
{
    let mut r: Vec<u8> = Vec::new();
    let mut i: usize = 0;
    while i < src.len()
        invariant
            i <= src@.len(),
            r@ == src@.take(i as int),
        decreases src@.len() - i,
    {
        r.push(src[i]);
        proof {
            assert(src@.take(i as int).push(src@[i as int]) =~= src@.take(i as int + 1));
        }
        i += 1;
    }
    proof {
        assert(src@.take(src@.len() as int) =~= src@);
    }
    r
}

/// Mints one connection engine per accepted inbound link, each over the same
/// root table. The listening socket and the per-link transport stay with the
/// caller: this type owns only the name-to-server table that every accepted
/// connection resolves restores against.
pub struct EzRpcServerAcceptor {
    roots: Vec<(Vec<u8>, u32)>,
}

impl View for EzRpcServerAcceptor {
    type V = Seq<(Seq<u8>, u32)>;

    closed spec fn view(&self) -> Seq<(Seq<u8>, u32)> {
        self.roots.deep_view()
    }
}

impl EzRpcServerAcceptor {
    /// An acceptor whose connections will resolve restore names against
    /// `roots`.
    pub fn new(roots: Vec<(Vec<u8>, u32)>) -> (a: EzRpcServerAcceptor)
        ensures
            a@ == roots.deep_view(),
    {
        EzRpcServerAcceptor { roots }
    }

    /// A fresh connection for one accepted link: active, tables empty, over
    /// the acceptor's root table.
    pub fn accept_connection(&self) -> (c: Connection)
        ensures
            c@.state is Active,
            c@.questions.len() == 0,
            c@.answers.len() == 0,
            c@.exports.len() == 0,
            c@.imports.len() == 0,
            c@.roots == self@,
            model::wf(c@),
    {
        let mut roots: Vec<(Vec<u8>, u32)> = Vec::new();
        let mut i: usize = 0;
        while i < self.roots.len()
            invariant
                i <= self.roots@.len(),
                roots.deep_view() == self.roots.deep_view().take(i as int),
            decreases self.roots@.len() - i,
        {
            let name = copy_bytes(&self.roots[i].0);
            let server = self.roots[i].1;
            let ghost pre = roots.deep_view();
            roots.push((name, server));
            proof {
                lemma_bytes_deep(name);
                lemma_bytes_deep(self.roots@[i as int].0);
                assert(roots.deep_view() =~= pre.push((name@, server)));
                assert(pre.push((name@, server)) =~= self.roots.deep_view().take(i as int + 1));
            }
            i += 1;
        }
        proof {
            assert(self.roots.deep_view().take(self.roots@.len() as int) =~= self.roots.deep_view());
        }
        Connection::new(roots)
    }
}

} // verus!
