//! Connection-wide guarantees, proved of the model in `crate::model`.
//!
//! Each public proof function here states one promise of the engine over
//! whole steps or whole runs: ordering of completions, lifetime of exports,
//! behaviour of restore, and what teardown does. The executable engine
//! refines the model exactly, so everything proved here holds of
//! `crate::engine::Connection` as well.

use vstd::prelude::*;

use crate::model::{self, ConnV, StepV};
use crate::types::{ActionV, AnswerEntry, CallResultV, EventV, ExportEntry, MsgV, OutcomeV,
    PayloadV, RetResultV, Target};

verus! {

/// The question ids of the `Complete` actions in `acts`, in order.
pub open spec fn completes_of(acts: Seq<ActionV>) -> Seq<u32>
    decreases acts.len(),
{
    if acts.len() == 0 {
        Seq::<u32>::empty()
    } else {
        completes_of(acts.drop_last()) + match acts.last() {
            ActionV::Complete { question_id, .. } => seq![question_id],
            _ => Seq::<u32>::empty(),
        }
    }
}

/// The question ids of the incoming `Return` events in `evs`, in order.
pub open spec fn returns_of(evs: Seq<EventV>) -> Seq<u32>
    decreases evs.len(),
{
    if evs.len() == 0 {
        Seq::<u32>::empty()
    } else {
        returns_of(evs.drop_last()) + match evs.last() {
            EventV::Incoming(MsgV::Return { question_id, .. }) => seq![question_id],
            _ => Seq::<u32>::empty(),
        }
    }
}

/// The answer ids of the `Invoke` actions in `acts`, in order.
pub open spec fn invokes_of(acts: Seq<ActionV>) -> Seq<u32>
    decreases acts.len(),
{
    if acts.len() == 0 {
        Seq::<u32>::empty()
    } else {
        invokes_of(acts.drop_last()) + match acts.last() {
            ActionV::Invoke { answer_id, .. } => seq![answer_id],
            _ => Seq::<u32>::empty(),
        }
    }
}

/// The question ids of the incoming `Call` events in `evs`, in order.
pub open spec fn calls_of(evs: Seq<EventV>) -> Seq<u32>
    decreases evs.len(),
{
    if evs.len() == 0 {
        Seq::<u32>::empty()
    } else {
        calls_of(evs.drop_last()) + match evs.last() {
            EventV::Incoming(MsgV::Call { question_id, .. }) => seq![question_id],
            _ => Seq::<u32>::empty(),
        }
    }
}

/// Every incoming `Call` in `evs` addresses an export id, none the
/// bootstrap sentinel.
pub open spec fn no_bootstrap_calls(evs: Seq<EventV>) -> bool {
    forall|k: int|
        0 <= k < evs.len() ==> ((#[trigger] evs[k]) matches EventV::Incoming(
            MsgV::Call { target, .. },
        ) ==> target is ExportId)
}

/// A whole run: the events of `evs` processed in order, the actions
/// concatenated in the order they were emitted.
pub open spec fn run(s: ConnV, evs: Seq<EventV>) -> StepV
    decreases evs.len(),
{
    if evs.len() == 0 {
        StepV { post: s, acts: Seq::<ActionV>::empty() }
    } else {
        let r = run(s, evs.drop_last());
        let st = model::step(r.post, evs.last());
        StepV { post: st.post, acts: r.acts + st.acts }
    }
}

/// The run never tears the connection down: after every prefix of `evs` the
/// connection is still active.
pub open spec fn stays_active(s: ConnV, evs: Seq<EventV>) -> bool {
    forall|k: int| 0 <= k <= evs.len() ==> (#[trigger] run(s, evs.take(k))).post.state is Active
}

/// How many `Complete` actions for question `qid` stand in `acts`.
pub open spec fn count_complete(acts: Seq<ActionV>, qid: u32) -> nat
    decreases acts.len(),
{
    if acts.len() == 0 {
        0nat
    } else {
        count_complete(acts.drop_last(), qid) + match acts.last() {
            ActionV::Complete { question_id, .. } => if question_id == qid {
                1nat
            } else {
                0nat
            },
            _ => 0nat,
        }
    }
}

proof fn lemma_completes_concat(a: Seq<ActionV>, b: Seq<ActionV>)
    ensures
        completes_of(a + b) == completes_of(a) + completes_of(b),
    decreases b.len(),
{
    if b.len() == 0 {
        assert(a + b =~= a);
        assert(completes_of(a) + completes_of(b) =~= completes_of(a));
    } else {
        assert((a + b).drop_last() =~= a + b.drop_last());
        lemma_completes_concat(a, b.drop_last());
        assert(completes_of(a + b) =~= completes_of(a) + completes_of(b));
    }
}

proof fn lemma_invokes_concat(a: Seq<ActionV>, b: Seq<ActionV>)
    ensures
        invokes_of(a + b) == invokes_of(a) + invokes_of(b),
    decreases b.len(),
{
    if b.len() == 0 {
        assert(a + b =~= a);
        assert(invokes_of(a) + invokes_of(b) =~= invokes_of(a));
    } else {
        assert((a + b).drop_last() =~= a + b.drop_last());
        lemma_invokes_concat(a, b.drop_last());
        assert(invokes_of(a + b) =~= invokes_of(a) + invokes_of(b));
    }
}

proof fn lemma_count_complete_concat(a: Seq<ActionV>, b: Seq<ActionV>, qid: u32)
    ensures
        count_complete(a + b, qid) == count_complete(a, qid) + count_complete(b, qid),
    decreases b.len(),
{
    if b.len() == 0 {
        assert(a + b =~= a);
    } else {
        assert((a + b).drop_last() =~= a + b.drop_last());
        lemma_count_complete_concat(a, b.drop_last(), qid);
    }
}

proof fn lemma_completes_single(a: ActionV)
    ensures
        completes_of(seq![a]) == (match a {
            ActionV::Complete { question_id, .. } => seq![question_id],
            _ => Seq::<u32>::empty(),
        }),
{
    reveal_with_fuel(completes_of, 2);
    assert(seq![a].drop_last() =~= Seq::<ActionV>::empty());
    assert(seq![a].last() == a);
    match a {
        ActionV::Complete { question_id, .. } => {
            assert(completes_of(seq![a]) =~= seq![question_id]);
        },
        _ => {
            assert(completes_of(seq![a]) =~= Seq::<u32>::empty());
        },
    }
}

proof fn lemma_invokes_single(a: ActionV)
    ensures
        invokes_of(seq![a]) == (match a {
            ActionV::Invoke { answer_id, .. } => seq![answer_id],
            _ => Seq::<u32>::empty(),
        }),
{
    reveal_with_fuel(invokes_of, 2);
    assert(seq![a].drop_last() =~= Seq::<ActionV>::empty());
    assert(seq![a].last() == a);
    match a {
        ActionV::Invoke { answer_id, .. } => {
            assert(invokes_of(seq![a]) =~= seq![answer_id]);
        },
        _ => {
            assert(invokes_of(seq![a]) =~= Seq::<u32>::empty());
        },
    }
}

/// One active, non-closing step completes exactly the question of the
/// `Return` it processes: a `Return` event yields one completion for its
/// question id, any other event yields none.
proof fn lemma_step_completes(s: ConnV, ev: EventV)
    requires
        s.state is Active,
        model::step(s, ev).post.state is Active,
    ensures
        completes_of(model::step(s, ev).acts) == (match ev {
            EventV::Incoming(MsgV::Return { question_id, .. }) => seq![question_id],
            _ => Seq::<u32>::empty(),
        }),
{
    let st = model::step(s, ev);
    assert forall|a: ActionV, b: ActionV| completes_of(seq![a, b]) == completes_of(seq![a])
        + completes_of(seq![b]) by {
        assert(seq![a, b] =~= seq![a] + seq![b]);
        lemma_completes_concat(seq![a], seq![b]);
    }
    match ev {
        EventV::Incoming(MsgV::Return { question_id, result }) => {
            lemma_completes_single(ActionV::Send(MsgV::Finish { question_id }));
            assert(st.acts.len() == 2);
            assert(st.acts =~= seq![st.acts[0], st.acts[1]]);
            lemma_completes_single(st.acts[0]);
            lemma_completes_single(st.acts[1]);
            assert(completes_of(st.acts) =~= seq![question_id]);
        },
        _ => {
            if st.acts.len() == 0 {
                assert(completes_of(st.acts) =~= Seq::<u32>::empty());
            } else if st.acts.len() == 1 {
                lemma_completes_single(st.acts[0]);
                assert(st.acts =~= seq![st.acts[0]]);
                assert(completes_of(st.acts) =~= Seq::<u32>::empty());
            } else {
                assert(st.acts.len() == 2);
                assert(st.acts =~= seq![st.acts[0], st.acts[1]]);
                lemma_completes_single(st.acts[0]);
                lemma_completes_single(st.acts[1]);
                assert(completes_of(st.acts) =~= Seq::<u32>::empty());
            }
        },
    }
}

/// One active, non-closing step invokes exactly the call it processes, as
/// long as the call addresses an export id.
proof fn lemma_step_invokes(s: ConnV, ev: EventV)
    requires
        s.state is Active,
        model::step(s, ev).post.state is Active,
        ev matches EventV::Incoming(MsgV::Call { target, .. }) ==> target is ExportId,
    ensures
        invokes_of(model::step(s, ev).acts) == (match ev {
            EventV::Incoming(MsgV::Call { question_id, .. }) => seq![question_id],
            _ => Seq::<u32>::empty(),
        }),
{
    let st = model::step(s, ev);
    if st.acts.len() == 0 {
        assert(invokes_of(st.acts) =~= Seq::<u32>::empty());
    } else if st.acts.len() == 1 {
        lemma_invokes_single(st.acts[0]);
        assert(st.acts =~= seq![st.acts[0]]);
    } else {
        assert(st.acts.len() == 2);
        assert(st.acts =~= seq![st.acts[0]] + seq![st.acts[1]]);
        lemma_invokes_concat(seq![st.acts[0]], seq![st.acts[1]]);
        lemma_invokes_single(st.acts[0]);
        lemma_invokes_single(st.acts[1]);
    }
}

/// Returns are delivered to completion slots in arrival order: over any run
/// that keeps the connection up, the sequence of fulfilled question ids is
/// exactly the sequence of question ids of the incoming `Return` events, in
/// the same order. In particular, two calls on one capability complete in
/// the order their Returns arrived, never reordered.
pub proof fn completions_follow_return_order(s: ConnV, evs: Seq<EventV>)
    requires
        s.state is Active,
        stays_active(s, evs),
    ensures
        completes_of(run(s, evs).acts) == returns_of(evs),
    decreases evs.len(),
{
    if evs.len() == 0 {
        assert(completes_of(run(s, evs).acts) =~= Seq::<u32>::empty());
        assert(returns_of(evs) =~= Seq::<u32>::empty());
    } else {
        let pre = evs.drop_last();
        assert forall|k: int| 0 <= k <= pre.len() implies (#[trigger] run(
            s,
            pre.take(k),
        )).post.state is Active by {
            assert(pre.take(k) =~= evs.take(k));
            assert(run(s, evs.take(k)).post.state is Active);
        }
        completions_follow_return_order(s, pre);
        assert(pre =~= evs.take(pre.len() as int));
        assert(evs =~= evs.take(evs.len() as int));
        lemma_step_completes(run(s, pre).post, evs.last());
        lemma_completes_concat(run(s, pre).acts, model::step(run(s, pre).post, evs.last()).acts);
    }
}

/// Incoming calls are handed to local servers in arrival order: over any run
/// that keeps the connection up and whose calls address export ids, the
/// sequence of invoked answer ids is exactly the sequence of question ids of
/// the incoming `Call` events, in the same order.
pub proof fn invocations_follow_call_order(s: ConnV, evs: Seq<EventV>)
    requires
        s.state is Active,
        stays_active(s, evs),
        no_bootstrap_calls(evs),
    ensures
        invokes_of(run(s, evs).acts) == calls_of(evs),
    decreases evs.len(),
{
    if evs.len() == 0 {
        assert(invokes_of(run(s, evs).acts) =~= Seq::<u32>::empty());
        assert(calls_of(evs) =~= Seq::<u32>::empty());
    } else {
        let pre = evs.drop_last();
        assert forall|k: int| 0 <= k <= pre.len() implies (#[trigger] run(
            s,
            pre.take(k),
        )).post.state is Active by {
            assert(pre.take(k) =~= evs.take(k));
            assert(run(s, evs.take(k)).post.state is Active);
        }
        assert forall|k: int| 0 <= k < pre.len() implies ((#[trigger] pre[k]) matches
            EventV::Incoming(MsgV::Call { target, .. }) ==> target is ExportId) by {
            assert(pre[k] == evs[k]);
        }
        invocations_follow_call_order(s, pre);
        assert(pre =~= evs.take(pre.len() as int));
        assert(evs =~= evs.take(evs.len() as int));
        assert(evs.last() == evs[evs.len() - 1]);
        lemma_step_invokes(run(s, pre).post, evs.last());
        lemma_invokes_concat(run(s, pre).acts, model::step(run(s, pre).post, evs.last()).acts);
    }
}

proof fn lemma_fail_all_count(q: Seq<bool>, qid: u32)
    requires
        q.len() <= u32::MAX as int,
    ensures
        count_complete(model::fail_all(q), qid) == if (qid as int) < q.len() && q[qid as int] {
            1nat
        } else {
            0nat
        },
    decreases q.len(),
{
    if q.len() > 0 {
        lemma_fail_all_count(q.drop_last(), qid);
        let tail: Seq<ActionV> = if q.last() {
            seq![ActionV::Complete {
                question_id: (q.len() - 1) as u32,
                outcome: OutcomeV::Disconnected,
            }]
        } else {
            Seq::<ActionV>::empty()
        };
        lemma_count_complete_concat(model::fail_all(q.drop_last()), tail, qid);
        if q.last() {
            reveal_with_fuel(count_complete, 2);
            assert(tail.drop_last() =~= Seq::<ActionV>::empty());
            assert(count_complete(tail, qid) == if (q.len() - 1) as u32 == qid {
                1nat
            } else {
                0nat
            });
        }
    }
}

proof fn lemma_drop_all_count(x: Seq<Option<ExportEntry>>, qid: u32)
    ensures
        count_complete(model::drop_all(x), qid) == 0,
    decreases x.len(),
{
    if x.len() > 0 {
        lemma_drop_all_count(x.drop_last(), qid);
        let tail: Seq<ActionV> = match x.last() {
            Some(en) => seq![ActionV::DropServer { server: en.server }],
            None => Seq::<ActionV>::empty(),
        };
        lemma_count_complete_concat(model::drop_all(x.drop_last()), tail, qid);
        match x.last() {
            Some(en) => {
                reveal_with_fuel(count_complete, 2);
                assert(tail.drop_last() =~= Seq::<ActionV>::empty());
                assert(count_complete(tail, qid) == 0);
            },
            None => {},
        }
    }
}

proof fn lemma_fail_all_disconnected(q: Seq<bool>)
    ensures
        forall|k: int|
            0 <= k < model::fail_all(q).len() ==> ((#[trigger] model::fail_all(q)[k]) matches
                ActionV::Complete { outcome, .. } ==> outcome is Disconnected),
    decreases q.len(),
{
    if q.len() > 0 {
        lemma_fail_all_disconnected(q.drop_last());
    }
}

proof fn lemma_drop_all_no_complete(x: Seq<Option<ExportEntry>>)
    ensures
        forall|k: int|
            0 <= k < model::drop_all(x).len() ==> !((#[trigger] model::drop_all(x)[k]) matches
                ActionV::Complete { .. }),
    decreases x.len(),
{
    if x.len() > 0 {
        lemma_drop_all_no_complete(x.drop_last());
    }
}

/// Ending a connection fails each pending question with `Disconnected`
/// exactly once: on shutdown or transport failure every still-pending
/// question id appears in exactly one `Complete` action, a question already
/// completed or never allocated appears in none, every completion carries
/// `Disconnected`, and the connection ends closed with its tables empty.
pub proof fn teardown_fails_each_pending_question_once(s: ConnV, ev: EventV, qid: u32)
    requires
        model::wf(s),
        s.state is Active,
        ev is Shutdown || ev is TransportError,
    ensures
        ({
            let st = model::step(s, ev);
            &&& st.post.state is Closed
            &&& st.post.questions.len() == 0
            &&& st.post.answers.len() == 0
            &&& st.post.exports.len() == 0
            &&& st.post.imports.len() == 0
            &&& count_complete(st.acts, qid) == (if (qid as int) < s.questions.len()
                && s.questions[qid as int] {
                1nat
            } else {
                0nat
            })
            &&& forall|k: int|
                0 <= k < st.acts.len() ==> ((#[trigger] st.acts[k]) matches ActionV::Complete {
                    outcome,
                    ..
                } ==> outcome is Disconnected)
        }),
{
    let st = model::step(s, ev);
    lemma_fail_all_count(s.questions, qid);
    lemma_drop_all_count(s.exports, qid);
    lemma_count_complete_concat(model::fail_all(s.questions), model::drop_all(s.exports), qid);
    lemma_fail_all_disconnected(s.questions);
    lemma_drop_all_no_complete(s.exports);
    assert forall|k: int| 0 <= k < st.acts.len() implies ((#[trigger] st.acts[k]) matches
        ActionV::Complete { outcome, .. } ==> outcome is Disconnected) by {
        let f = model::fail_all(s.questions);
        let d = model::drop_all(s.exports);
        if k < f.len() {
            assert(st.acts[k] == f[k]);
        } else {
            assert(st.acts[k] == d[k - f.len()]);
        }
    }
}

/// A closed connection refuses every submission and mutates nothing: after
/// teardown no event changes the state in any way, the caller is only told
/// that the submission failed.
pub proof fn closed_connection_is_inert(s: ConnV, ev: EventV)
    requires
        s.state is Closed,
    ensures
        model::step(s, ev).post == s,
        model::step(s, ev).acts == seq![ActionV::Rejected],
{
}

/// An export whose reference count reaches zero is released, and only then:
/// an accepted `Release` that brings both counters of the export to zero
/// emits exactly one `DropServer` for its backing server and removes the
/// entry; while any call against the export is still in flight, or any peer
/// reference survives, nothing is dropped. At the moment of the drop no
/// in-flight call against the export exists.
pub proof fn release_drops_server_exactly_at_zero(s: ConnV, e: u32, count: u32)
    requires
        model::wf(s),
        s.state is Active,
        e < s.exports.len(),
        s.exports[e as int] is Some,
        1 <= count <= s.exports[e as int].unwrap().refs,
    ensures
        ({
            let st = model::step(s, EventV::Incoming(MsgV::Release { export_id: e, count }));
            let en = s.exports[e as int].unwrap();
            let dead = en.refs - count == 0 && en.calls == 0;
            &&& st.post.state is Active
            &&& (dead ==> st.acts == seq![ActionV::DropServer { server: en.server }]
                && st.post.exports[e as int] is None && (forall|j: int|
                0 <= j < s.answers.len() ==> (#[trigger] s.answers[j]).1.export != Some(e)))
            &&& (!dead ==> st.acts == Seq::<ActionV>::empty())
            &&& (!dead ==> (st.post.exports[e as int] matches Some(en2) && en2.server == en.server
                && en2.refs == en.refs - count && en2.calls == en.calls))
        }),
{
    let en = s.exports[e as int].unwrap();
    if en.refs - count == 0 && en.calls == 0 {
        model::lemma_count_zero(s.answers, e);
    }
}

/// The mirror of `release_drops_server_exactly_at_zero` for the last
/// in-flight call: an accepted `Finish` whose answer held the export's last
/// reference emits exactly one `DropServer`, and only when no peer reference
/// and no other in-flight call survives.
pub proof fn finish_drops_server_exactly_at_zero(s: ConnV, aid: u32)
    requires
        model::wf(s),
        s.state is Active,
        model::key_idx(s.answers, aid) matches Some(i) && s.answers[i].1.returned
            && s.answers[i].1.export is Some,
    ensures
        ({
            let i = model::key_idx(s.answers, aid).unwrap();
            let e = s.answers[i].1.export.unwrap();
            let en = s.exports[e as int].unwrap();
            let st = model::step(s, EventV::Incoming(MsgV::Finish { question_id: aid }));
            let dead = en.refs == 0 && en.calls == 1;
            &&& st.post.state is Active
            &&& st.post.answers == s.answers.remove(i)
            &&& (dead ==> st.acts == seq![ActionV::DropServer { server: en.server }]
                && st.post.exports[e as int] is None)
            &&& (!dead ==> st.acts == Seq::<ActionV>::empty())
            &&& (!dead ==> (st.post.exports[e as int] matches Some(en2) && en2.server == en.server
                && en2.refs == en.refs && en2.calls == en.calls - 1))
        }),
{
    let i = model::key_idx(s.answers, aid).unwrap();
    model::lemma_key_idx_props(s.answers, aid);
    let e = s.answers[i].1.export.unwrap();
    assert(model::answer_ok(s, s.answers[i]));
    assert(s.exports[e as int].unwrap().calls == model::count_calls(s.answers, e));
    model::lemma_count_remove(s.answers, i, e);
    if model::count_calls(s.answers, e) == 0 {
        model::lemma_count_zero(s.answers, e);
        assert(s.answers[i].1.export != Some(e));
        assert(false);
    }
}

/// A restore for a name the root table knows yields a capability handle that
/// routes to the right server: the `Return` carries an export descriptor
/// whose entry is backed by exactly the server registered under the name,
/// and a later `Call` addressed at that descriptor is handed to that server
/// with its arguments intact. The connection stays up.
pub proof fn restore_known_name_routes_to_server(
    s: ConnV,
    aid: u32,
    name: Seq<u8>,
    qid2: u32,
    method_id: u16,
    params: Seq<u8>,
)
    requires
        model::wf(s),
        s.state is Active,
        model::key_idx(s.answers, aid) is None,
        roots_accepts(s, name),
        s.exports.len() < u32::MAX as int,
        model::export_for(s.exports, model::roots_lookup(s.roots, name).unwrap()) matches Some(i)
            ==> s.exports[i].unwrap().refs < u32::MAX,
        qid2 != aid,
        model::key_idx(s.answers, qid2) is None,
    ensures
        ({
            let srv = model::roots_lookup(s.roots, name).unwrap();
            let st = model::step(s, EventV::Incoming(MsgV::Restore { question_id: aid, object_id: name }));
            &&& st.post.state is Active
            &&& st.acts.len() == 1
            &&& (st.acts[0] matches ActionV::Send(MsgV::Return { question_id, result })
                && question_id == aid && (result matches RetResultV::Results(p) && p.body
                == Seq::<u8>::empty() && (p.cap matches Some(e) && e < st.post.exports.len() && (
            st.post.exports[e as int] matches Some(en) && en.server == srv && en.refs >= 1 && (
            en.calls < u32::MAX ==> model::step(
                st.post,
                EventV::Incoming(MsgV::Call {
                    question_id: qid2,
                    target: Target::ExportId(e),
                    method_id,
                    params,
                }),
            ).acts == seq![ActionV::Invoke {
                answer_id: qid2,
                server: srv,
                method_id,
                params,
            }])))))
        }),
{
    let srv = model::roots_lookup(s.roots, name).unwrap();
    let st = model::step(s, EventV::Incoming(MsgV::Restore { question_id: aid, object_id: name }));
    model::lemma_key_idx_props(s.answers, aid);
    model::lemma_key_idx_props(s.answers, qid2);
    model::lemma_export_for_props(s.exports, srv);
    let pushed = s.answers.push((aid, AnswerEntry { export: None, returned: true }));
    assert forall|j: int| 0 <= j < pushed.len() implies (#[trigger] pushed[j]).0 != qid2 by {
        if j < s.answers.len() {
            assert(pushed[j] == s.answers[j]);
        }
    }
    model::lemma_key_idx_none(pushed, qid2);
}

/// Whether the root table accepts the name.
pub open spec fn roots_accepts(s: ConnV, name: Seq<u8>) -> bool {
    model::roots_lookup(s.roots, name) is Some
}

/// A restore for a name the root table rejects is answered with an
/// application exception on that question alone: the connection stays up and
/// no table but the answer table changes.
pub proof fn restore_unknown_name_is_exception_not_failure(s: ConnV, aid: u32, name: Seq<u8>)
    requires
        model::wf(s),
        s.state is Active,
        model::key_idx(s.answers, aid) is None,
        !roots_accepts(s, name),
    ensures
        ({
            let st = model::step(s, EventV::Incoming(MsgV::Restore { question_id: aid, object_id: name }));
            &&& st.post.state is Active
            &&& st.acts == seq![ActionV::Send(MsgV::Return {
                question_id: aid,
                result: RetResultV::Exception(name),
            })]
            &&& st.post.questions == s.questions
            &&& st.post.exports == s.exports
            &&& st.post.imports == s.imports
            &&& st.post.answers == s.answers.push(
                (aid, AnswerEntry { export: None, returned: true }),
            )
        }),
{
}

/// Round trip: a call through an import proxy reaches the exported server
/// with the very arguments the application submitted, and the server's
/// result reaches the caller's completion slot unchanged — exactly as if the
/// server had been called directly.
pub proof fn round_trip_preserves_arguments_and_result(
    c: ConnV,
    p: ConnV,
    x: u32,
    method_id: u16,
    params: Seq<u8>,
    body: Seq<u8>,
)
    requires
        model::wf(c),
        c.state is Active,
        model::key_idx(c.imports, x) is Some,
        c.questions.len() < u32::MAX as int,
        model::wf(p),
        p.state is Active,
        x < p.exports.len(),
        p.exports[x as int] is Some,
        p.exports[x as int].unwrap().calls < u32::MAX,
        model::key_idx(p.answers, c.questions.len() as u32) is None,
    ensures
        ({
            let qid = c.questions.len() as u32;
            let srv = p.exports[x as int].unwrap().server;
            let wire_call = MsgV::Call {
                question_id: qid,
                target: Target::ExportId(x),
                method_id,
                params,
            };
            let st1 = model::step(c, EventV::OutgoingCall { import_id: x, method_id, params });
            let st2 = model::step(p, EventV::Incoming(wire_call));
            let st3 = model::step(
                st2.post,
                EventV::LocalResult { answer_id: qid, result: CallResultV::Done(body) },
            );
            let wire_return = MsgV::Return {
                question_id: qid,
                result: RetResultV::Results(PayloadV { body, cap: None }),
            };
            let st4 = model::step(st1.post, EventV::Incoming(wire_return));
            &&& st1.acts == seq![
                ActionV::Started { question_id: qid },
                ActionV::Send(wire_call),
            ]
            &&& st2.acts == seq![ActionV::Invoke {
                answer_id: qid,
                server: srv,
                method_id,
                params,
            }]
            &&& st3.acts == seq![ActionV::Send(wire_return)]
            &&& st4.acts == seq![
                ActionV::Complete {
                    question_id: qid,
                    outcome: OutcomeV::Results { body, cap: None },
                },
                ActionV::Send(MsgV::Finish { question_id: qid }),
            ]
        }),
{
    let qid = c.questions.len() as u32;
    let st2 = model::step(
        p,
        EventV::Incoming(MsgV::Call { question_id: qid, target: Target::ExportId(x), method_id, params }),
    );
    model::lemma_key_idx_props(p.answers, qid);
    let entry = AnswerEntry { export: Some(x), returned: false };
    let pushed = p.answers.push((qid, entry));
    assert forall|j: int| 0 <= j < pushed.len() - 1 implies (#[trigger] pushed[j]).0 != qid by {
        assert(pushed[j] == p.answers[j]);
    }
    model::lemma_key_idx_found(pushed, qid, pushed.len() - 1);
    assert(st2.post.answers == pushed);
    assert(model::key_idx(st2.post.answers, qid) == Some(pushed.len() - 1));
}

/// Ids are never reused while the connection lives: a question slot once
/// retired stays retired, and an export slot once dropped stays dropped, in
/// every step that keeps the connection up. No id ever names two occupants.
pub proof fn ids_are_never_reused(s: ConnV, ev: EventV, q: u32, e: u32)
    requires
        s.state is Active,
        model::step(s, ev).post.state is Active,
    ensures
        ({
            let post = model::step(s, ev).post;
            &&& ((q as int) < s.questions.len() && !s.questions[q as int] ==> (q as int)
                < post.questions.len() && !post.questions[q as int])
            &&& ((e as int) < s.exports.len() && s.exports[e as int] is None ==> (e as int)
                < post.exports.len() && post.exports[e as int] is None)
        }),
{
    match ev {
        EventV::Incoming(MsgV::Restore { object_id, .. }) => {
            match model::roots_lookup(s.roots, object_id) {
                Some(srv) => {
                    model::lemma_export_for_props(s.exports, srv);
                },
                None => {},
            }
        },
        _ => {},
    }
}

/// No answer is destroyed before its `Return` has been transmitted: the one
/// event that retires an answer and keeps the connection up is a `Finish`,
/// and the engine accepts it only for an answer whose `Return` already went
/// out.
pub proof fn answers_outlive_their_return(s: ConnV, aid: u32)
    requires
        model::wf(s),
        s.state is Active,
        model::step(s, EventV::Incoming(MsgV::Finish { question_id: aid })).post.state is Active,
    ensures
        model::key_idx(s.answers, aid) matches Some(i) && s.answers[i].1.returned,
{
}

} // verus!
