//! The values the engine works on: wire messages, capability handles, events
//! submitted to a connection's queue, actions the engine asks its caller to
//! perform, and the entries of the bookkeeping tables.
//!
//! Each executable type that carries byte payloads has a ghost mirror whose
//! payload fields are `Seq<u8>`; `deep_view` maps one to the other, and every
//! contract of the engine speaks of these mirrors.

use vstd::prelude::*;

verus! {

/// Which capability an incoming `Call` addresses: one of this side's live
/// exports, or the special bootstrap sentinel standing for the connection's
/// registered root capability.
#[derive(Clone, Copy, Debug)]
pub enum Target {
    ExportId(u32),
    Bootstrap,
}

/// A capability reference as the application sees it: a local export, callable
/// in-process, or a proxy for a capability the peer exported, callable over
/// the wire.
#[derive(Clone, Copy, Debug)]
pub enum CapHandle {
    LocalCap { export_id: u32 },
    RemoteCap { import_id: u32 },
}

/// The payload half of a successful `Return`: opaque result bytes plus an
/// optional capability descriptor, carried as the sender's export id.
pub struct Payload {
    pub body: Vec<u8>,
    pub cap: Option<u32>,
}

/// What a `Return` carries: a payload, or an application exception. An
/// exception never terminates the connection; its bytes describe the fault.
pub enum RetResult {
    Results(Payload),
    Exception(Vec<u8>),
}

/// One protocol message as it crosses the wire, after framing and before
/// serialization: the codec at the transport edge is the peer of this type.
pub enum WireMessage {
    Call { question_id: u32, target: Target, method_id: u16, params: Vec<u8> },
    Return { question_id: u32, result: RetResult },
    Restore { question_id: u32, object_id: Vec<u8> },
    Finish { question_id: u32 },
    Release { export_id: u32, count: u32 },
}

/// How an invocation of a local server object ended: result bytes, or an
/// application exception.
pub enum CallResult {
    Done(Vec<u8>),
    Failed(Vec<u8>),
}

/// What a completion slot finally receives for a question.
pub enum Outcome {
    Results { body: Vec<u8>, cap: Option<CapHandle> },
    Exception(Vec<u8>),
    Disconnected,
}

/// One entry of a connection's single event queue. Wire-derived and
/// application-derived events travel through the same queue, so the engine
/// sees them in one total order.
pub enum Event {
    /// The application calls a remote capability it imported.
    OutgoingCall { import_id: u32, method_id: u16, params: Vec<u8> },
    /// The application asks the peer to resolve a named root capability.
    OutgoingRestore { object_id: Vec<u8> },
    /// One decoded message read from the transport.
    Incoming(WireMessage),
    /// A previously requested invocation of a local server has finished.
    LocalResult { answer_id: u32, result: CallResult },
    /// The application registers a local server object as an export.
    ExportLocal { server: u32 },
    /// The last local owner of an import proxy dropped it.
    DropImport { import_id: u32 },
    /// Orderly local shutdown.
    Shutdown,
    /// The transport failed; nothing can be sent any more.
    TransportError,
}

/// What the engine asks its caller to do in return for one event. Actions are
/// to be performed in the order given.
pub enum Action {
    /// Write this message to the transport.
    Send(WireMessage),
    /// Fulfil the completion slot of this question.
    Complete { question_id: u32, outcome: Outcome },
    /// Invoke the local server object behind `server` and submit the result
    /// back as a `LocalResult` event carrying the same `answer_id`.
    Invoke { answer_id: u32, server: u32, method_id: u16, params: Vec<u8> },
    /// Drop the process's reference to this local server object: the peer
    /// holds no reference to it any more.
    DropServer { server: u32 },
    /// Answer to `ExportLocal`: the export id the peer may now address.
    ExportedAs { export_id: u32 },
    /// Answer to an outgoing call or restore: the question id whose
    /// completion slot will later be fulfilled.
    Started { question_id: u32 },
    /// The connection is closed; the submission is refused outright.
    Rejected,
}

/// An export table entry: a local server object the peer may call. `refs`
/// counts the references the peer holds through descriptors this side sent;
/// `calls` counts the invocations of it that are still in flight.
#[derive(Clone, Copy, Debug)]
pub struct ExportEntry {
    pub server: u32,
    pub refs: u32,
    pub calls: u32,
}

/// An answer table entry: an incoming call this side still owes a `Finish`
/// for. `export` records which export entry holds an in-flight reference for
/// it, if any; `returned` says whether the `Return` has been sent already.
#[derive(Clone, Copy, Debug)]
pub struct AnswerEntry {
    pub export: Option<u32>,
    pub returned: bool,
}

/// The lifecycle of a connection: active, or closed for good. Teardown (the
/// transient draining of tables) happens inside the step that closes.
#[derive(Clone, Copy, Debug)]
pub enum ConnState {
    Active,
    Closed,
}

/// Ghost mirror of `Payload`.
pub ghost struct PayloadV {
    pub body: Seq<u8>,
    pub cap: Option<u32>,
}

/// Ghost mirror of `RetResult`.
pub ghost enum RetResultV {
    Results(PayloadV),
    Exception(Seq<u8>),
}

/// Ghost mirror of `WireMessage`.
pub ghost enum MsgV {
    Call { question_id: u32, target: Target, method_id: u16, params: Seq<u8> },
    Return { question_id: u32, result: RetResultV },
    Restore { question_id: u32, object_id: Seq<u8> },
    Finish { question_id: u32 },
    Release { export_id: u32, count: u32 },
}

/// Ghost mirror of `CallResult`.
pub ghost enum CallResultV {
    Done(Seq<u8>),
    Failed(Seq<u8>),
}

/// Ghost mirror of `Outcome`.
pub ghost enum OutcomeV {
    Results { body: Seq<u8>, cap: Option<CapHandle> },
    Exception(Seq<u8>),
    Disconnected,
}

/// Ghost mirror of `Event`.
pub ghost enum EventV {
    OutgoingCall { import_id: u32, method_id: u16, params: Seq<u8> },
    OutgoingRestore { object_id: Seq<u8> },
    Incoming(MsgV),
    LocalResult { answer_id: u32, result: CallResultV },
    ExportLocal { server: u32 },
    DropImport { import_id: u32 },
    Shutdown,
    TransportError,
}

/// Ghost mirror of `Action`.
pub ghost enum ActionV {
    Send(MsgV),
    Complete { question_id: u32, outcome: OutcomeV },
    Invoke { answer_id: u32, server: u32, method_id: u16, params: Seq<u8> },
    DropServer { server: u32 },
    ExportedAs { export_id: u32 },
    Started { question_id: u32 },
    Rejected,
}

impl DeepView for ExportEntry {
    type V = ExportEntry;

    open spec fn deep_view(&self) -> ExportEntry {
        *self
    }
}

impl DeepView for AnswerEntry {
    type V = AnswerEntry;

    open spec fn deep_view(&self) -> AnswerEntry {
        *self
    }
}

impl DeepView for Payload {
    type V = PayloadV;

    open spec fn deep_view(&self) -> PayloadV {
        PayloadV { body: self.body.deep_view(), cap: self.cap }
    }
}

impl DeepView for RetResult {
    type V = RetResultV;

    open spec fn deep_view(&self) -> RetResultV {
        match self {
            RetResult::Results(p) => RetResultV::Results(p.deep_view()),
            RetResult::Exception(r) => RetResultV::Exception(r.deep_view()),
        }
    }
}

impl DeepView for WireMessage {
    type V = MsgV;

    open spec fn deep_view(&self) -> MsgV {
        match self {
            WireMessage::Call { question_id, target, method_id, params } => (MsgV::Call {
                question_id: *question_id,
                target: *target,
                method_id: *method_id,
                params: params.deep_view(),
            }),
            WireMessage::Return { question_id, result } => (MsgV::Return {
                question_id: *question_id,
                result: result.deep_view(),
            }),
            WireMessage::Restore { question_id, object_id } => (MsgV::Restore {
                question_id: *question_id,
                object_id: object_id.deep_view(),
            }),
            WireMessage::Finish { question_id } => (MsgV::Finish { question_id: *question_id }),
            WireMessage::Release { export_id, count } => (MsgV::Release {
                export_id: *export_id,
                count: *count,
            }),
        }
    }
}

impl DeepView for CallResult {
    type V = CallResultV;

    open spec fn deep_view(&self) -> CallResultV {
        match self {
            CallResult::Done(b) => CallResultV::Done(b.deep_view()),
            CallResult::Failed(r) => CallResultV::Failed(r.deep_view()),
        }
    }
}

impl DeepView for Outcome {
    type V = OutcomeV;

    open spec fn deep_view(&self) -> OutcomeV {
        match self {
            Outcome::Results { body, cap } => (OutcomeV::Results {
                body: body.deep_view(),
                cap: *cap,
            }),
            Outcome::Exception(r) => OutcomeV::Exception(r.deep_view()),
            Outcome::Disconnected => OutcomeV::Disconnected,
        }
    }
}

impl DeepView for Event {
    type V = EventV;

    open spec fn deep_view(&self) -> EventV {
        match self {
            Event::OutgoingCall { import_id, method_id, params } => (EventV::OutgoingCall {
                import_id: *import_id,
                method_id: *method_id,
                params: params.deep_view(),
            }),
            Event::OutgoingRestore { object_id } => (EventV::OutgoingRestore {
                object_id: object_id.deep_view(),
            }),
            Event::Incoming(m) => EventV::Incoming(m.deep_view()),
            Event::LocalResult { answer_id, result } => (EventV::LocalResult {
                answer_id: *answer_id,
                result: result.deep_view(),
            }),
            Event::ExportLocal { server } => EventV::ExportLocal { server: *server },
            Event::DropImport { import_id } => EventV::DropImport { import_id: *import_id },
            Event::Shutdown => EventV::Shutdown,
            Event::TransportError => EventV::TransportError,
        }
    }
}

impl DeepView for Action {
    type V = ActionV;

    open spec fn deep_view(&self) -> ActionV {
        match self {
            Action::Send(m) => ActionV::Send(m.deep_view()),
            Action::Complete { question_id, outcome } => (ActionV::Complete {
                question_id: *question_id,
                outcome: outcome.deep_view(),
            }),
            Action::Invoke { answer_id, server, method_id, params } => (ActionV::Invoke {
                answer_id: *answer_id,
                server: *server,
                method_id: *method_id,
                params: params.deep_view(),
            }),
            Action::DropServer { server } => ActionV::DropServer { server: *server },
            Action::ExportedAs { export_id } => ActionV::ExportedAs { export_id: *export_id },
            Action::Started { question_id } => (ActionV::Started {
                question_id: *question_id,
            }),
            Action::Rejected => ActionV::Rejected,
        }
    }
}

} // verus!
