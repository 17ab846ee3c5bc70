//! The decisions of a dedicated worker agent (run a worker): starting the
//! worker's script fetch (a `data:` URL is decoded here, by the `data-url`
//! crate), completing or failing it, running the tasks of the worker's
//! event loop, the commands from the content process, the net replies, and
//! the owner-side operations. Waiting on channels, evaluating script and
//! sending messages are left to the caller, which performs the actions
//! returned here.
use vstd::prelude::*;
use crate::global_scope::{enable_worker_step, OwnedWorkerModel, OwnedWorkers};
use crate::lookup::{first_match, lemma_first_match_exists, lemma_first_match_is, lemma_first_match_none};
use crate::text::{concat_str, decimal_string, u64_to_decimal};
use crate::url::{parsed_url, url_parse, url_scheme, url_scheme_of};

verus! {

/// What decoding a `data:` URL gave: its body, or the text of the error of
/// the processing step (`false`) or of the body decoding step (`true`).
pub uninterp spec fn data_url_decoded(input: Seq<char>) -> Result<Seq<u8>, (bool, Seq<char>)>;

/// Why a `data:` URL could not be decoded.
pub enum DataUrlFailure {
    /// `DataUrl::process` refused the URL; the text of its error.
    NotProcessed(String),
    /// `DataUrl::decode_to_vec` refused the body; the text of its error.
    InvalidBody(String),
}

/// Calls `data_url::DataUrl::process` and then `decode_to_vec`, keeping the
/// body bytes (the fragment is dropped) or the `Display` text of the error.
#[verifier::external_body]
fn decode_data_url(input: &str) -> (r: Result<Vec<u8>, DataUrlFailure>)
    ensures
        match r {
            Ok(bytes) => data_url_decoded(input@) == Ok::<Seq<u8>, (bool, Seq<char>)>(bytes@),
            Err(DataUrlFailure::NotProcessed(e)) => data_url_decoded(input@) == Err::<
                Seq<u8>,
                (bool, Seq<char>),
            >((false, e@)),
            Err(DataUrlFailure::InvalidBody(e)) => data_url_decoded(input@) == Err::<
                Seq<u8>,
                (bool, Seq<char>),
            >((true, e@)),
        },
{
    match ::data_url::DataUrl::process(input) {
        Ok(url) => match url.decode_to_vec() {
            Ok((bytes, _fragment)) => Ok(bytes),
            Err(e) => Err(DataUrlFailure::InvalidBody(e.to_string())),
        },
        Err(e) => Err(DataUrlFailure::NotProcessed(e.to_string())),
    }
}

/// The owner of a dedicated worker: a document, or another worker.
#[derive(Clone, Copy, Debug, PartialEq, Eq, Structural)]
pub enum WorkerOwner {
    Document(u128),
    Worker(u64),
}

/// An operation to run in the realm that owns a worker.
#[derive(Clone, Copy, Debug, PartialEq, Eq, Structural)]
pub enum OwnerOperation {
    /// Enable the delivery of the messages the worker posts.
    EnableWorkerMessages { worker_id: u64 },
    /// Fire an event named error at the worker's Worker object.
    FireWorkerError { worker_id: u64 },
    /// Drop the owner end of the worker's channel and its waiting messages.
    DiscardWorkerMessages { worker_id: u64 },
}

/// A report from a dedicated worker agent to the content process.
#[derive(Clone, Copy, Debug, PartialEq, Eq, Structural)]
pub enum WorkerEvent {
    /// The agent is exiting.
    Closed { worker_id: u64 },
    /// An operation to run in the owner realm.
    OwnerOperation { owner: WorkerOwner, operation: OwnerOperation },
}

/// A response to a worker script fetch.
pub struct ScriptResponse {
    pub final_url: String,
    pub status: u16,
    pub content_type: String,
    pub body: Vec<u8>,
}

/// How a worker script fetch starts.
pub enum ScriptFetchStart {
    /// A `data:` URL, decoded at once: complete the fetch with this
    /// response.
    Complete(ScriptResponse),
    /// Any other URL: ask the net process to fetch it with this method,
    /// then record the request with `script_fetch_requested`.
    Network { url: String, method: String },
}

/// What the completion of the worker script fetch asks for.
#[derive(Debug, PartialEq, Eq)]
pub enum ScriptCompletion {
    /// The script cannot run: report an error event at the worker (the
    /// report below), then set the closing flag.
    Failed { report: WorkerEvent },
    /// Set the worker's URL and creation URL to the given one, evaluate the
    /// script (reporting `error_report` where evaluation fails), then send
    /// `enable_report` and enable the worker's inbound messages.
    Evaluate { creation_url: String, error_report: WorkerEvent, enable_report: WorkerEvent },
}

/// The realm of an expired timer.
#[derive(Clone, Copy, Debug, PartialEq, Eq, Structural)]
pub enum TimerRealm {
    Document(u128),
    Worker(u64),
}

/// A timer whose expiry time passed.
#[derive(Clone, Copy, Debug, PartialEq, Eq, Structural)]
pub struct ExpiredTimer {
    pub realm: TimerRealm,
    pub timer_id: u32,
    pub timer_key: u128,
    pub nesting_level: u32,
}

/// A task on a worker's event loop.
pub enum WorkerTask<P> {
    RunPortMessage { port: u128 },
    RunWorkerTimer { worker_id: u64, timer_id: u32, timer_key: u128, nesting_level: u32 },
    RunWorkerInboundMessage { worker_id: u64, payload: P },
    RunWorkerOutboundMessage { worker_id: u64, payload: P },
    /// A task meant for a document's event loop.
    DocumentTask,
}

/// What running a task asks for.
pub enum WorkerTaskAction<P> {
    /// Run the message task of the port.
    RunPortMessageTask { port: u128 },
    /// Run the timer's steps in the worker's realm.
    RunTimer { timer_id: u32, timer_key: u128, nesting_level: u32 },
    /// Fire the owner's message at the worker global scope.
    FireInboundMessage { payload: P },
    /// Fire a message a worker this realm owns posted at its Worker object.
    DeliverOutboundMessage { worker_id: u64, payload: P },
    /// Nothing: the worker is closing, so the task is discarded.
    Discard,
}

/// A command from the content process to a dedicated worker agent.
pub enum WorkerCommand<R> {
    Terminate,
    OwnerOperation(OwnerOperation),
    AddNestedWorkerChannel { worker_id: u64, receiver: R },
    RemoveNestedWorkerChannel { worker_id: u64 },
}

/// What a command asks for beyond the agent's own state.
#[derive(Clone, Copy, Debug, PartialEq, Eq, Structural)]
pub enum CommandAction {
    Nothing,
    /// Run the operation in this worker's realm (it owns another worker).
    ExecuteOwnerOperation(OwnerOperation),
}

/// A command from the net process on the worker's own channel.
pub enum NetCommand<Resp> {
    CompleteDocumentFetch { handler_id: u128, response: Resp },
    FailDocumentFetch { handler_id: u128 },
    /// Any other command.
    Other,
}

/// What a net command asks for.
pub enum NetAction<Resp> {
    /// The worker script arrived: complete the fetch with it.
    CompleteScriptFetch(Resp),
    /// The worker script fetch failed.
    FailScriptFetch,
    /// A reply to another fetch: ignored.
    Ignore,
    /// A command the worker does not expect: logged.
    Unexpected,
}

/// The run-a-worker state of a dedicated worker agent.
pub struct WorkerAgentState<R> {
    pub worker_id: u64,
    pub owner: WorkerOwner,
    /// The closing flag of the worker global scope.
    pub closing: bool,
    /// The in-flight script fetch, if any.
    pub pending_script_fetch: Option<u128>,
    /// The receivers of the workers this worker owns, by worker id.
    pub nested_workers: NestedWorkers<R>,
}

pub open spec fn nested_is<R>(id: u64) -> spec_fn((u64, R)) -> bool {
    |e: (u64, R)| e.0 == id
}

/// No worker id occurs twice.
pub open spec fn nested_keys_unique<R>(s: Seq<(u64, R)>) -> bool {
    forall|i: int, j: int| 0 <= i < j < s.len() ==> (#[trigger] s[i]).0 != (#[trigger] s[j]).0
}

/// The receivers of the workers a worker owns, by worker id, in the order
/// they were added; each id occurs once.
pub struct NestedWorkers<R> {
    entries: Vec<(u64, R)>,
}

impl<R> View for NestedWorkers<R> {
    type V = Seq<(u64, R)>;

    closed spec fn view(&self) -> Seq<(u64, R)> {
        self.entries@
    }
}

impl<R> NestedWorkers<R> {
    /// Every list names each worker once.
    #[verifier::type_invariant]
    closed spec fn ids_listed_once(&self) -> bool {
        nested_keys_unique(self.entries@)
    }

    pub fn new() -> (n: Self)
        ensures
            n@ == Seq::<(u64, R)>::empty(),
    {
        NestedWorkers { entries: Vec::new() }
    }

    /// The receivers, in the order they were added.
    pub fn as_slice(&self) -> (s: &[(u64, R)])
        ensures
            s@ == self@,
            nested_keys_unique(self@),
    {
        proof {
            use_type_invariant(self);
        }
        self.entries.as_slice()
    }

    fn position(&self, id: u64) -> (r: Option<usize>)
        ensures
            match r {
                Some(i) => i < self@.len() && first_match(self@, nested_is::<R>(id)) == i,
                None => first_match(self@, nested_is::<R>(id)) == -1,
            },
    {
        let mut i: usize = 0;
        while i < self.entries.len()
            invariant
                i <= self.entries@.len(),
                forall|j: int| 0 <= j < i ==> !(#[trigger] nested_is::<R>(id)(self.entries@[j])),
            decreases self.entries@.len() - i,
        {
            if self.entries[i].0 == id {
                proof {
                    lemma_first_match_is(self.entries@, nested_is::<R>(id), i as int);
                }
                return Some(i);
            }
            i = i + 1;
        }
        proof {
            lemma_first_match_none(self.entries@, nested_is::<R>(id));
        }
        None
    }

    /// Adds a worker's receiver, replacing the one listed under its id.
    pub fn insert(&mut self, worker_id: u64, receiver: R)
        ensures
            nested_keys_unique(final(self)@),
            final(self)@ == ({
                let i = first_match(old(self)@, nested_is::<R>(worker_id));
                if i >= 0 {
                    old(self)@.update(i, (worker_id, receiver))
                } else {
                    old(self)@.push((worker_id, receiver))
                }
            }),
    {
        proof {
            use_type_invariant(&*self);
        }
        let ghost s0 = self.entries@;
        let position = self.position(worker_id);
        let mut entries: Vec<(u64, R)> = Vec::new();
        std::mem::swap(&mut entries, &mut self.entries);
        match position {
            Some(i) => {
                entries.set(i, (worker_id, receiver));
                proof {
                    assert(s0[i as int].0 == worker_id);
                    assert forall|a: int, b: int| 0 <= a < b < entries@.len() implies (#[trigger] entries@[a]).0
                        != (#[trigger] entries@[b]).0 by {
                        assert(entries@[a].0 == s0[a].0 && entries@[b].0 == s0[b].0);
                    }
                }
            },
            None => {
                entries.push((worker_id, receiver));
                proof {
                    assert forall|j: int| 0 <= j < s0.len() implies s0[j].0 != worker_id by {
                        if s0[j].0 == worker_id {
                            lemma_first_match_exists(s0, nested_is::<R>(worker_id), j);
                        }
                    }
                    assert forall|a: int, b: int| 0 <= a < b < entries@.len() implies (#[trigger] entries@[a]).0
                        != (#[trigger] entries@[b]).0 by {
                        assert(entries@[a] == s0[a]);
                        if b < s0.len() {
                            assert(entries@[b] == s0[b]);
                        }
                    }
                }
            },
        }
        self.entries = entries;
    }

    /// Removes the receiver listed under a worker's id, if any.
    pub fn remove(&mut self, worker_id: u64)
        ensures
            nested_keys_unique(final(self)@),
            final(self)@ == ({
                let i = first_match(old(self)@, nested_is::<R>(worker_id));
                if i >= 0 {
                    old(self)@.remove(i)
                } else {
                    old(self)@
                }
            }),
    {
        proof {
            use_type_invariant(&*self);
        }
        let ghost s0 = self.entries@;
        if let Some(i) = self.position(worker_id) {
            let mut entries: Vec<(u64, R)> = Vec::new();
            std::mem::swap(&mut entries, &mut self.entries);
            entries.remove(i);
            proof {
                assert forall|a: int, b: int| 0 <= a < b < entries@.len() implies (#[trigger] entries@[a]).0
                    != (#[trigger] entries@[b]).0 by {
                    let a0 = if a < i { a } else { a + 1 };
                    let b0 = if b < i { b } else { b + 1 };
                    assert(entries@[a] == s0[a0] && entries@[b] == s0[b0]);
                }
            }
            self.entries = entries;
        }
    }
}

/// The text of a worker id.
pub open spec fn id_text(id: u64) -> Seq<char> {
    decimal_string(id as nat)
}

/// What starting the worker script fetch gives (see
/// [`WorkerAgentState::start_script_fetch`]): an error text, a decoded body
/// (for a `data:` URL) or the URL to fetch from the network.
pub open spec fn script_fetch_start_spec(script_url: Seq<char>) -> Result<
    Result<Seq<u8>, Seq<char>>,
    Seq<char>,
> {
    match parsed_url(script_url) {
        Err(e) => Err("invalid worker script URL: "@ + e),
        Ok(serialized) => if url_scheme_of(script_url) == Some("data"@) {
            match data_url_decoded(script_url) {
                Ok(bytes) => Ok(Ok(bytes)),
                Err((false, e)) => Err("failed to decode data: worker script: "@ + e),
                Err((true, e)) => Err("failed to read data: worker script body: "@ + e),
            }
        } else {
            Ok(Err(serialized))
        },
    }
}

impl<R> WorkerAgentState<R> {
    /// The state of a new agent: not closing, no fetch, no nested worker.
    pub fn new(worker_id: u64, owner: WorkerOwner) -> (s: Self)
        ensures
            s.worker_id == worker_id,
            s.owner == owner,
            !s.closing,
            s.pending_script_fetch is None,
            s.nested_workers@.len() == 0,
    {
        WorkerAgentState {
            worker_id,
            owner,
            closing: false,
            pending_script_fetch: None,
            nested_workers: NestedWorkers::new(),
        }
    }

    /// The closing flag.
    pub fn closing_flag(&self) -> (b: bool)
        ensures
            b == self.closing,
    {
        self.closing
    }

    /// Sets the closing flag (terminate-a-worker step 1, or a failed
    /// script fetch).
    pub fn set_closing_flag(&mut self)
        ensures
            final(self).closing,
            final(self).worker_id == old(self).worker_id,
            final(self).owner == old(self).owner,
            final(self).pending_script_fetch == old(self).pending_script_fetch,
            final(self).nested_workers@ == old(self).nested_workers@,
    {
        self.closing = true;
    }

    /// Starts the worker script fetch: an invalid URL is an error; a
    /// `data:` URL is decoded here and completes at once with status 200
    /// and type text/javascript; any other URL is fetched by the net
    /// process with GET.
    pub fn start_script_fetch(&self, script_url: &str) -> (r: Result<ScriptFetchStart, String>)
        ensures
            match (r, script_fetch_start_spec(script_url@)) {
                (Err(e), Err(t)) => e@ == t,
                (Ok(ScriptFetchStart::Complete(resp)), Ok(Ok(bytes))) => resp.body@ == bytes
                    && resp.final_url@ == script_url@ && resp.status == 200 && resp.content_type@
                    == "text/javascript"@,
                (Ok(ScriptFetchStart::Network { url, method }), Ok(Err(u))) => url@ == u
                    && method@ == "GET"@,
                _ => false,
            },
    {
        proof {
            reveal_strlit("data");
        }
        let serialized = match url_parse(script_url) {
            Ok(u) => u,
            Err(e) => {
                return Err(concat_str("invalid worker script URL: ", e.as_str()));
            },
        };
        let is_data = match url_scheme(script_url) {
            Some(s) => crate::text::str_eq(s.as_str(), "data"),
            None => false,
        };
        if is_data {
            return match decode_data_url(script_url) {
                Ok(bytes) => Ok(
                    ScriptFetchStart::Complete(
                        ScriptResponse {
                            final_url: String::from_str(script_url),
                            status: 200,
                            content_type: String::from_str("text/javascript"),
                            body: bytes,
                        },
                    ),
                ),
                Err(DataUrlFailure::NotProcessed(e)) => Err(
                    concat_str("failed to decode data: worker script: ", e.as_str()),
                ),
                Err(DataUrlFailure::InvalidBody(e)) => Err(
                    concat_str("failed to read data: worker script body: ", e.as_str()),
                ),
            };
        }
        Ok(ScriptFetchStart::Network { url: serialized, method: String::from_str("GET") })
    }

    /// Records the in-flight script fetch.
    pub fn script_fetch_requested(&mut self, handler_id: u128)
        ensures
            final(self).pending_script_fetch == Some(handler_id),
            final(self).closing == old(self).closing,
            final(self).worker_id == old(self).worker_id,
            final(self).owner == old(self).owner,
            final(self).nested_workers@ == old(self).nested_workers@,
    {
        self.pending_script_fetch = Some(handler_id);
    }

    /// The report that fires an error event at this worker's Worker object.
    pub fn fire_worker_error(&self) -> (e: WorkerEvent)
        ensures
            e == (WorkerEvent::OwnerOperation {
                owner: self.owner,
                operation: OwnerOperation::FireWorkerError { worker_id: self.worker_id },
            }),
    {
        WorkerEvent::OwnerOperation {
            owner: self.owner,
            operation: OwnerOperation::FireWorkerError { worker_id: self.worker_id },
        }
    }

    /// Completes the worker script fetch: an invalid final URL is an error;
    /// a script that cannot run fails the worker; otherwise the script is
    /// evaluated at the final URL, then the owner's and the worker's
    /// message queues are enabled.
    pub fn complete_worker_script_fetch(&self, final_url: &str, executable: bool) -> (r: Result<
        ScriptCompletion,
        String,
    >)
        ensures
            match parsed_url(final_url@) {
                Err(t) => r matches Err(e) && e@ == "invalid worker script URL: "@ + t,
                Ok(u) => if !executable {
                    r == Ok::<ScriptCompletion, String>(
                        ScriptCompletion::Failed {
                            report: WorkerEvent::OwnerOperation {
                                owner: self.owner,
                                operation: OwnerOperation::FireWorkerError { worker_id: self.worker_id },
                            },
                        },
                    )
                } else {
                    r matches Ok(ScriptCompletion::Evaluate { creation_url, error_report, enable_report })
                        && creation_url@ == u && error_report == (WorkerEvent::OwnerOperation {
                        owner: self.owner,
                        operation: OwnerOperation::FireWorkerError { worker_id: self.worker_id },
                    }) && enable_report == (WorkerEvent::OwnerOperation {
                        owner: self.owner,
                        operation: OwnerOperation::EnableWorkerMessages { worker_id: self.worker_id },
                    })
                },
            },
    {
        let u = match url_parse(final_url) {
            Ok(u) => u,
            Err(e) => {
                return Err(concat_str("invalid worker script URL: ", e.as_str()));
            },
        };
        if !executable {
            return Ok(ScriptCompletion::Failed { report: self.fire_worker_error() });
        }
        Ok(
            ScriptCompletion::Evaluate {
                creation_url: u,
                error_report: self.fire_worker_error(),
                enable_report: WorkerEvent::OwnerOperation {
                    owner: self.owner,
                    operation: OwnerOperation::EnableWorkerMessages { worker_id: self.worker_id },
                },
            },
        )
    }

    /// Runs one task of the worker's event loop: a port's message task
    /// runs; the other tasks are discarded once the worker is closing; a
    /// timer or inbound message for another worker, or a document's task,
    /// is an error.
    pub fn run_task<P>(&self, task: WorkerTask<P>) -> (r: Result<WorkerTaskAction<P>, String>)
        ensures
            match task {
                WorkerTask::RunPortMessage { port } => r matches Ok(
                    WorkerTaskAction::RunPortMessageTask { port: p },
                ) && p == port,
                WorkerTask::RunWorkerTimer { worker_id, timer_id, timer_key, nesting_level } => if self.closing {
                    r matches Ok(WorkerTaskAction::Discard)
                } else if worker_id != self.worker_id {
                    r matches Err(e) && e@ == "worker event loop received a timer for worker "@ + id_text(
                        worker_id,
                    )
                } else {
                    r matches Ok(WorkerTaskAction::RunTimer { timer_id: a, timer_key: b, nesting_level: c })
                        && a == timer_id && b == timer_key && c == nesting_level
                },
                WorkerTask::RunWorkerInboundMessage { worker_id, payload } => if self.closing {
                    r matches Ok(WorkerTaskAction::Discard)
                } else if worker_id != self.worker_id {
                    r matches Err(e) && e@
                        == "worker event loop received an inbound message for worker "@ + id_text(
                        worker_id,
                    )
                } else {
                    r matches Ok(WorkerTaskAction::FireInboundMessage { payload: p }) && p == payload
                },
                WorkerTask::RunWorkerOutboundMessage { worker_id, payload } => if self.closing {
                    r matches Ok(WorkerTaskAction::Discard)
                } else {
                    r matches Ok(WorkerTaskAction::DeliverOutboundMessage { worker_id: w, payload: p })
                        && w == worker_id && p == payload
                },
                WorkerTask::DocumentTask => r matches Err(e) && e@ == "worker "@ + id_text(
                    self.worker_id,
                ) + " event loop received a document task"@,
            },
    {
        match task {
            WorkerTask::RunPortMessage { port } => Ok(WorkerTaskAction::RunPortMessageTask { port }),
            WorkerTask::RunWorkerTimer { worker_id, timer_id, timer_key, nesting_level } => {
                if self.closing {
                    return Ok(WorkerTaskAction::Discard);
                }
                if worker_id != self.worker_id {
                    let id = u64_to_decimal(worker_id);
                    return Err(concat_str("worker event loop received a timer for worker ", id.as_str()));
                }
                Ok(WorkerTaskAction::RunTimer { timer_id, timer_key, nesting_level })
            },
            WorkerTask::RunWorkerInboundMessage { worker_id, payload } => {
                if self.closing {
                    return Ok(WorkerTaskAction::Discard);
                }
                if worker_id != self.worker_id {
                    let id = u64_to_decimal(worker_id);
                    return Err(
                        concat_str("worker event loop received an inbound message for worker ", id.as_str()),
                    );
                }
                Ok(WorkerTaskAction::FireInboundMessage { payload })
            },
            WorkerTask::RunWorkerOutboundMessage { worker_id, payload } => {
                if self.closing {
                    return Ok(WorkerTaskAction::Discard);
                }
                Ok(WorkerTaskAction::DeliverOutboundMessage { worker_id, payload })
            },
            WorkerTask::DocumentTask => {
                let id = u64_to_decimal(self.worker_id);
                let head = concat_str("worker ", id.as_str());
                Err(concat_str(head.as_str(), " event loop received a document task"))
            },
        }
    }

    /// Handles a command from the content process: terminate sets the
    /// closing flag; an owner operation is to run in this realm; a nested
    /// worker's receiver is added (replacing one with the same id) or
    /// removed.
    pub fn handle_worker_command(&mut self, command: WorkerCommand<R>) -> (a: CommandAction)
        ensures
            nested_keys_unique(final(self).nested_workers@),
            final(self).worker_id == old(self).worker_id,
            final(self).owner == old(self).owner,
            final(self).pending_script_fetch == old(self).pending_script_fetch,
            match command {
                WorkerCommand::Terminate => final(self).closing && a == CommandAction::Nothing
                    && final(self).nested_workers@ == old(self).nested_workers@,
                WorkerCommand::OwnerOperation(op) => a == CommandAction::ExecuteOwnerOperation(op)
                    && final(self).closing == old(self).closing && final(self).nested_workers@
                    == old(self).nested_workers@,
                WorkerCommand::AddNestedWorkerChannel { worker_id, receiver } => {
                    let i = first_match(old(self).nested_workers@, nested_is::<R>(worker_id));
                    &&& a == CommandAction::Nothing
                    &&& final(self).closing == old(self).closing
                    &&& final(self).nested_workers@ == if i >= 0 {
                        old(self).nested_workers@.update(i, (worker_id, receiver))
                    } else {
                        old(self).nested_workers@.push((worker_id, receiver))
                    }
                },
                WorkerCommand::RemoveNestedWorkerChannel { worker_id } => {
                    let i = first_match(old(self).nested_workers@, nested_is::<R>(worker_id));
                    &&& a == CommandAction::Nothing
                    &&& final(self).closing == old(self).closing
                    &&& final(self).nested_workers@ == if i >= 0 {
                        old(self).nested_workers@.remove(i)
                    } else {
                        old(self).nested_workers@
                    }
                },
            },
    {
        proof {
            use_type_invariant(&self.nested_workers);
        }
        match command {
            WorkerCommand::Terminate => {
                self.closing = true;
                CommandAction::Nothing
            },
            WorkerCommand::OwnerOperation(op) => CommandAction::ExecuteOwnerOperation(op),
            WorkerCommand::AddNestedWorkerChannel { worker_id, receiver } => {
                self.nested_workers.insert(worker_id, receiver);
                CommandAction::Nothing
            },
            WorkerCommand::RemoveNestedWorkerChannel { worker_id } => {
                self.nested_workers.remove(worker_id);
                CommandAction::Nothing
            },
        }
    }

    /// Handles a net command: the reply to the in-flight script fetch
    /// completes or fails it (and clears it); a reply to another fetch is
    /// ignored; any other command is unexpected.
    pub fn handle_net_command<Resp>(&mut self, command: NetCommand<Resp>) -> (a: NetAction<Resp>)
        ensures
            final(self).closing == old(self).closing,
            final(self).worker_id == old(self).worker_id,
            final(self).owner == old(self).owner,
            final(self).nested_workers@ == old(self).nested_workers@,
            match command {
                NetCommand::CompleteDocumentFetch { handler_id, response } => if old(self).pending_script_fetch
                    == Some(handler_id) {
                    final(self).pending_script_fetch is None && (a matches NetAction::CompleteScriptFetch(x)
                        && x == response)
                } else {
                    final(self).pending_script_fetch == old(self).pending_script_fetch
                        && a is Ignore
                },
                NetCommand::FailDocumentFetch { handler_id } => if old(self).pending_script_fetch
                    == Some(handler_id) {
                    final(self).pending_script_fetch is None && a is FailScriptFetch
                } else {
                    final(self).pending_script_fetch == old(self).pending_script_fetch
                        && a is Ignore
                },
                NetCommand::Other => final(self).pending_script_fetch
                    == old(self).pending_script_fetch && a is Unexpected,
            },
    {
        match command {
            NetCommand::CompleteDocumentFetch { handler_id, response } => {
                if self.pending_script_fetch == Some(handler_id) {
                    self.pending_script_fetch = None;
                    NetAction::CompleteScriptFetch(response)
                } else {
                    NetAction::Ignore
                }
            },
            NetCommand::FailDocumentFetch { handler_id } => {
                if self.pending_script_fetch == Some(handler_id) {
                    self.pending_script_fetch = None;
                    NetAction::FailScriptFetch
                } else {
                    NetAction::Ignore
                }
            },
            NetCommand::Other => NetAction::Unexpected,
        }
    }

    /// Whether a message the owner posted, or one a nested worker posted,
    /// is taken in: not once the worker is closing.
    pub fn accepts_messages(&self) -> (b: bool)
        ensures
            b == !self.closing,
    {
        !self.closing
    }
}

/// The tasks for the expired timers of a worker's own map, in order: one
/// timer task per worker timer; a document's timer has no place here.
pub open spec fn worker_timer_tasks(expired: Seq<ExpiredTimer>) -> Seq<(u64, u32, u128, u32)>
    decreases expired.len(),
{
    if expired.len() == 0 {
        Seq::empty()
    } else {
        let rest = worker_timer_tasks(expired.drop_last());
        let t = expired.last();
        match t.realm {
            TimerRealm::Worker(w) => rest.push((w, t.timer_id, t.timer_key, t.nesting_level)),
            TimerRealm::Document(_) => rest,
        }
    }
}

/// The documents whose timers were found in a worker's map, in order.
pub open spec fn misplaced_documents(expired: Seq<ExpiredTimer>) -> Seq<u128>
    decreases expired.len(),
{
    if expired.len() == 0 {
        Seq::empty()
    } else {
        let rest = misplaced_documents(expired.drop_last());
        match expired.last().realm {
            TimerRealm::Worker(_) => rest,
            TimerRealm::Document(d) => rest.push(d),
        }
    }
}

/// The view of a timer task.
pub open spec fn timer_task_view<P>(t: WorkerTask<P>) -> Option<(u64, u32, u128, u32)> {
    match t {
        WorkerTask::RunWorkerTimer { worker_id, timer_id, timer_key, nesting_level } => Some(
            (worker_id, timer_id, timer_key, nesting_level),
        ),
        _ => None,
    }
}

/// Run steps after a timeout, on a worker's event loop: the worker's
/// expired timers become timer tasks, in order; the documents of timers
/// that do not belong there are returned to be reported.
pub fn tasks_for_expired_timers<P>(expired: &Vec<ExpiredTimer>) -> (r: (Vec<WorkerTask<P>>, Vec<u128>))
    ensures
        r.0@.len() == worker_timer_tasks(expired@).len(),
        forall|i: int|
            0 <= i < r.0@.len() ==> timer_task_view(#[trigger] r.0@[i]) == Some(
                worker_timer_tasks(expired@)[i],
            ),
        r.1@ == misplaced_documents(expired@),
{
    let mut tasks: Vec<WorkerTask<P>> = Vec::new();
    let mut docs: Vec<u128> = Vec::new();
    let mut i: usize = 0;
    while i < expired.len()
        invariant
            i <= expired@.len(),
            tasks@.len() == worker_timer_tasks(expired@.take(i as int)).len(),
            forall|k: int|
                0 <= k < tasks@.len() ==> timer_task_view(#[trigger] tasks@[k]) == Some(
                    worker_timer_tasks(expired@.take(i as int))[k],
                ),
            docs@ == misplaced_documents(expired@.take(i as int)),
        decreases expired@.len() - i,
    {
        let t = expired[i];
        assert(expired@.take(i + 1).drop_last() =~= expired@.take(i as int));
        match t.realm {
            TimerRealm::Worker(w) => {
                tasks.push(
                    WorkerTask::RunWorkerTimer {
                        worker_id: w,
                        timer_id: t.timer_id,
                        timer_key: t.timer_key,
                        nesting_level: t.nesting_level,
                    },
                );
            },
            TimerRealm::Document(d) => {
                docs.push(d);
            },
        }
        i = i + 1;
    }
    assert(expired@.take(expired@.len() as int) =~= expired@);
    (tasks, docs)
}

/// What an owner operation did in the owner realm.
pub enum OwnerOperationOutcome<P> {
    /// The worker's queue is enabled; these waiting messages, oldest first,
    /// are to be fired as message tasks.
    Released(Vec<P>),
    /// An error event is to be fired at the worker's Worker object (it is
    /// owned here).
    FireError { worker_id: u64 },
    /// The worker is not owned here: nothing to fire at.
    NoTarget,
    /// The worker's channel is gone.
    Discarded,
}

/// Runs an owner operation on the workers a realm owns.
pub fn execute_owner_operation<T, P>(workers: &mut OwnedWorkers<T, P>, operation: OwnerOperation) -> (r:
    OwnerOperationOutcome<P>)
    ensures
        match operation {
            OwnerOperation::EnableWorkerMessages { worker_id } => r matches OwnerOperationOutcome::Released(v)
                && (final(workers)@, v@) == enable_worker_step(old(workers)@, worker_id),
            OwnerOperation::FireWorkerError { worker_id } => final(workers)@ == old(workers)@ && if first_match(
                old(workers)@,
                crate::global_scope::worker_is::<T, P>(worker_id),
            ) >= 0 {
                r matches OwnerOperationOutcome::FireError { worker_id: w } && w == worker_id
            } else {
                r is NoTarget
            },
            OwnerOperation::DiscardWorkerMessages { worker_id } => r is Discarded && final(workers)@
                == crate::lookup::without(
                old(workers)@,
                crate::global_scope::worker_is::<T, P>(worker_id),
            ),
        },
{
    match operation {
        OwnerOperation::EnableWorkerMessages { worker_id } => {
            let v = workers.enable_owned_worker_messages(worker_id);
            OwnerOperationOutcome::Released(v)
        },
        OwnerOperation::FireWorkerError { worker_id } => {
            let found = workers.owned_worker_event_target(worker_id).is_some();
            if found {
                OwnerOperationOutcome::FireError { worker_id }
            } else {
                OwnerOperationOutcome::NoTarget
            }
        },
        OwnerOperation::DiscardWorkerMessages { worker_id } => {
            workers.discard_owned_worker(worker_id);
            OwnerOperationOutcome::Discarded
        },
    }
}

} // verus!
