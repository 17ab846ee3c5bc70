//! Per-event-loop channel messaging state: the records of the message ports
//! whose queues an event loop manages, and the decisions taken when a port
//! posts, receives, ships or closes.
//!
//! Sending to the user agent and queueing tasks are left to the caller: each
//! operation returns what has to be sent or queued.
use vstd::prelude::*;
use std::collections::VecDeque;

verus! {

/// Where a port stands in a transfer between event loops.
#[derive(Clone, Copy, PartialEq, Eq, Structural, Debug)]
pub enum TransferState {
    Managed,
    CompletionRequested,
    CompletionInProgress,
}

/// Appends the messages of a buffer to a queue, in order.
fn append_to_queue<M>(q: &mut VecDeque<M>, buf: Vec<M>)
    ensures
        final(q)@ == old(q)@ + buf@,
{
    let ghost whole = old(q)@ + buf@;
    let mut rest = buf;
    while rest.len() > 0
        invariant
            q@ + rest@ == whole,
        decreases rest@.len(),
    {
        let ghost r0 = rest@;
        let ghost q0 = q@;
        let m = rest.remove(0);
        q.push_back(m);
        assert(q@ + rest@ =~= q0 + r0);
    }
    assert(q@ + rest@ =~= q@);
}

/// The messages of a queue, oldest first, as a list.
pub(crate) fn queue_into_vec<M>(q: VecDeque<M>) -> (v: Vec<M>)
    ensures
        v@ == q@,
{
    let ghost whole = q@;
    let mut q = q;
    let mut v: Vec<M> = Vec::new();
    while q.len() > 0
        invariant
            v@ + q@ == whole,
        decreases q@.len(),
    {
        let ghost q0 = q@;
        let ghost v0 = v@;
        match q.pop_front() {
            Some(m) => {
                v.push(m);
                assert(v@ + q@ =~= v0 + q0);
            },
            None => {},
        }
    }
    assert(v@ + q@ =~= v@);
    v
}

/// A queue holding the messages of a list, in order.
fn vec_into_queue<M>(v: Vec<M>) -> (q: VecDeque<M>)
    ensures
        q@ == v@,
{
    let mut q: VecDeque<M> = VecDeque::new();
    append_to_queue(&mut q, v);
    assert(Seq::<M>::empty() + v@ =~= v@);
    q
}

/// The model of one port record.
pub struct PortModel<P, M> {
    pub port_id: u64,
    pub object: Option<P>,
    pub ts: TransferState,
    pub entangled: Option<u64>,
    pub queue: Seq<M>,
    pub enabled: bool,
    pub detached: bool,
    pub in_flight: u32,
}

/// One message port managed by this event loop: its queue, its
/// entanglement and its detached flag.
pub struct PortRecord<P, M> {
    /// The id under which the user agent knows this port.
    pub port_id: u64,
    /// The port's platform object.
    pub object: Option<P>,
    /// The port's transfer state.
    pub ts: TransferState,
    /// The port this port is entangled with, if any.
    pub entangled: Option<u64>,
    /// The port message queue, oldest message first.
    pub queue: VecDeque<M>,
    /// Whether the port message queue is enabled.
    pub enabled: bool,
    /// Whether the port was closed.
    pub detached: bool,
    /// Routed messages still in flight toward this port.
    pub in_flight: u32,
}

impl<P, M> View for PortRecord<P, M> {
    type V = PortModel<P, M>;

    open spec fn view(&self) -> PortModel<P, M> {
        PortModel {
            port_id: self.port_id,
            object: self.object,
            ts: self.ts,
            entangled: self.entangled,
            queue: self.queue@,
            enabled: self.enabled,
            detached: self.detached,
            in_flight: self.in_flight,
        }
    }
}

pub open spec fn model_is_local<P, M>(r: PortModel<P, M>) -> bool {
    r.ts == TransferState::Managed || r.ts == TransferState::CompletionInProgress
}

impl<P, M> PortRecord<P, M> {
    /// Whether the port is managed by (or completing a transfer to) this
    /// event loop, so that messages can be delivered to its queue directly.
    pub fn is_local(&self) -> (b: bool)
        ensures
            b == model_is_local(self@),
    {
        match self.ts {
            TransferState::Managed => true,
            TransferState::CompletionInProgress => true,
            TransferState::CompletionRequested => false,
        }
    }
}

/// A fresh record: managed, with an empty disabled queue.
pub open spec fn fresh_model<P, M>(id: u64, object: Option<P>, entangled: Option<u64>) -> PortModel<P, M> {
    PortModel {
        port_id: id,
        object,
        ts: TransferState::Managed,
        entangled,
        queue: Seq::empty(),
        enabled: false,
        detached: false,
        in_flight: 0,
    }
}

/// `i` is the first index of a record with the given id.
pub open spec fn is_first<P, M>(s: Seq<PortModel<P, M>>, id: u64, i: int) -> bool {
    &&& 0 <= i < s.len()
    &&& s[i].port_id == id
    &&& forall|j: int| 0 <= j < i ==> (#[trigger] s[j]).port_id != id
}

/// The index of the first record with the given id, or -1 where there is
/// none.
pub open spec fn index_of<P, M>(s: Seq<PortModel<P, M>>, id: u64) -> int {
    if exists|i: int| is_first(s, id, i) {
        choose|i: int| is_first(s, id, i)
    } else {
        -1
    }
}

pub proof fn lemma_index_of_first<P, M>(s: Seq<PortModel<P, M>>, id: u64, i: int)
    requires
        is_first(s, id, i),
    ensures
        index_of(s, id) == i,
{
    let k = choose|k: int| is_first(s, id, k);
    assert(is_first(s, id, k));
    if k < i {
        assert(s[k].port_id != id);
    }
    if i < k {
        assert(s[i].port_id != id);
    }
}

pub proof fn lemma_index_of_absent<P, M>(s: Seq<PortModel<P, M>>, id: u64)
    requires
        forall|j: int| 0 <= j < s.len() ==> (#[trigger] s[j]).port_id != id,
    ensures
        index_of(s, id) == -1,
{
    if exists|i: int| is_first(s, id, i) {
        let k = choose|k: int| is_first(s, id, k);
        assert(s[k].port_id == id);
    }
}

pub proof fn lemma_index_of_range<P, M>(s: Seq<PortModel<P, M>>, id: u64)
    ensures
        index_of(s, id) == -1 || is_first(s, id, index_of(s, id)),
{
}

/// Appending a record leaves the first index of an id in place, or finds
/// the new record where none came before.
pub proof fn lemma_index_of_push<P, M>(s: Seq<PortModel<P, M>>, r: PortModel<P, M>, id: u64)
    ensures
        index_of(s.push(r), id) == (if index_of(s, id) >= 0 {
            index_of(s, id)
        } else if r.port_id == id {
            s.len() as int
        } else {
            -1
        }),
{
    let t = s.push(r);
    lemma_index_of_range(s, id);
    if index_of(s, id) >= 0 {
        let i = index_of(s, id);
        assert forall|j: int| 0 <= j < i implies (#[trigger] t[j]).port_id != id by {
            assert(t[j] == s[j]);
        }
        lemma_index_of_first(t, id, i);
    } else {
        assert(forall|j: int| 0 <= j < s.len() ==> (#[trigger] s[j]).port_id != id) by {
            if exists|j: int| 0 <= j < s.len() && (#[trigger] s[j]).port_id == id {
                lemma_first_exists(s, id);
            }
        }
        if r.port_id == id {
            assert forall|j: int| 0 <= j < s.len() implies (#[trigger] t[j]).port_id != id by {
                assert(t[j] == s[j]);
            }
            lemma_index_of_first(t, id, s.len() as int);
        } else {
            assert forall|j: int| 0 <= j < t.len() implies (#[trigger] t[j]).port_id != id by {
                if j < s.len() {
                    assert(t[j] == s[j]);
                }
            }
            lemma_index_of_absent(t, id);
        }
    }
}

/// Where some record has the id, a first one exists.
pub proof fn lemma_first_exists<P, M>(s: Seq<PortModel<P, M>>, id: u64)
    requires
        exists|j: int| 0 <= j < s.len() && (#[trigger] s[j]).port_id == id,
    ensures
        index_of(s, id) >= 0,
    decreases s.len(),
{
    let p = s.drop_last();
    if exists|j: int| 0 <= j < p.len() && (#[trigger] p[j]).port_id == id {
        lemma_first_exists(p, id);
        let i = index_of(p, id);
        lemma_index_of_range(p, id);
        assert forall|j: int| 0 <= j < i implies (#[trigger] s[j]).port_id != id by {
            assert(s[j] == p[j]);
        }
        assert(s[i] == p[i]);
        lemma_index_of_first(s, id, i);
    } else {
        assert forall|j: int| 0 <= j < s.len() - 1 implies (#[trigger] s[j]).port_id != id by {
            assert(s[j] == p[j]);
        }
        lemma_index_of_first(s, id, s.len() - 1);
    }
}

/// Updating a record without changing its id keeps every first index.
pub proof fn lemma_index_of_update<P, M>(s: Seq<PortModel<P, M>>, k: int, r: PortModel<P, M>, id: u64)
    requires
        0 <= k < s.len(),
        r.port_id == s[k].port_id,
    ensures
        index_of(s.update(k, r), id) == index_of(s, id),
{
    let t = s.update(k, r);
    lemma_index_of_range(s, id);
    if index_of(s, id) >= 0 {
        let i = index_of(s, id);
        assert forall|j: int| 0 <= j < i implies (#[trigger] t[j]).port_id != id by {
            assert(s[j].port_id != id);
        }
        lemma_index_of_first(t, id, i);
    } else {
        if exists|j: int| 0 <= j < t.len() && (#[trigger] t[j]).port_id == id {
            let j = choose|j: int| 0 <= j < t.len() && (#[trigger] t[j]).port_id == id;
            assert(s[j].port_id == id);
            lemma_first_exists(s, id);
        }
        lemma_index_of_absent(t, id);
    }
}

/// The record with the given id, taken as found first.
pub open spec fn record_of<P, M>(s: Seq<PortModel<P, M>>, id: u64) -> PortModel<P, M> {
    s[index_of(s, id)]
}

pub open spec fn has_record<P, M>(s: Seq<PortModel<P, M>>, id: u64) -> bool {
    index_of(s, id) >= 0
}

/// Whether a message task is owed for the port: its queue is enabled and
/// not empty.
pub open spec fn pending<P, M>(s: Seq<PortModel<P, M>>, id: u64) -> bool {
    has_record(s, id) && record_of(s, id).enabled && record_of(s, id).queue.len() > 0
}

pub open spec fn saturating_inc(x: u32) -> u32 {
    if x < u32::MAX {
        (x + 1) as u32
    } else {
        x
    }
}

pub open spec fn saturating_sub_u32(x: u32, n: int) -> u32 {
    if x >= n {
        (x - n) as u32
    } else {
        0
    }
}

/// What posting a message asks of the caller.
pub enum PostOutcome<M> {
    /// Nothing is posted: no target, or the source no longer reaches it.
    Ignored,
    /// The message landed in the target's queue; a message task is to be
    /// queued for the target where `request_task` holds.
    Delivered { request_task: bool },
    /// The message goes to the user agent's routing queue.
    Routed { msg: M },
}

/// Whether a post from `src` to `t` is delivered straight to the target's
/// queue: both ports are managed here and nothing older is in flight toward
/// the target.
pub open spec fn direct_delivery<P, M>(s: Seq<PortModel<P, M>>, src: u64, t: u64) -> bool {
    &&& record_of(s, src).ts == TransferState::Managed
    &&& has_record(s, t)
    &&& record_of(s, t).ts == TransferState::Managed
    &&& record_of(s, t).in_flight == 0
}

/// The message port post message steps, from the state before to the
/// state after and what the caller is to do.
pub open spec fn post_step<P, M>(s: Seq<PortModel<P, M>>, src: u64, target: Option<u64>, msg: M) -> (
    Seq<PortModel<P, M>>,
    PostOutcome<M>,
) {
    match target {
        None => (s, PostOutcome::Ignored),
        Some(t) => if !has_record(s, src) || record_of(s, src).entangled != Some(t) {
            (s, PostOutcome::Ignored)
        } else if direct_delivery(s, src, t) {
            let ti = index_of(s, t);
            (
                s.update(ti, PortModel { queue: s[ti].queue.push(msg), ..s[ti] }),
                PostOutcome::Delivered { request_task: s[ti].enabled },
            )
        } else if has_record(s, t) {
            let ti = index_of(s, t);
            (
                s.update(ti, PortModel { in_flight: saturating_inc(s[ti].in_flight), ..s[ti] }),
                PostOutcome::Routed { msg },
            )
        } else {
            (s, PostOutcome::Routed { msg })
        },
    }
}

/// A task queued by the user agent for a port.
pub enum PortTask<M> {
    /// A routed message to land in the port's queue.
    NewTask { msg: M },
    /// The messages buffered while the port was in transit.
    Buffer { buf: Vec<M> },
}

/// What handling a port task asks of the caller.
pub enum PortTaskOutcome<M> {
    /// The port is not managed here; the task is dropped.
    Unknown,
    /// The routed message landed; a message event is to fire where `fire`
    /// holds.
    Landed { fire: bool },
    /// The port is not local: the message goes back to the routing queue.
    ReturnMessage { msg: M },
    /// The buffer landed and the transfer completed; the user agent is to be
    /// told, and a message event is to fire where `fire` holds.
    Completed { fire: bool },
    /// The port is not local: the buffer goes back to the routing queue.
    ReturnBuffer { buf: Vec<M> },
}

/// The state after a routed message lands in a port's queue.
pub open spec fn land_message<P, M>(r: PortModel<P, M>, msg: M) -> PortModel<P, M> {
    PortModel { queue: r.queue.push(msg), in_flight: saturating_sub_u32(r.in_flight, 1), ..r }
}

/// The state after a transfer buffer lands in a port's queue.
pub open spec fn land_buffer<P, M>(r: PortModel<P, M>, buf: Seq<M>) -> PortModel<P, M> {
    PortModel {
        queue: r.queue + buf,
        in_flight: saturating_sub_u32(r.in_flight, (buf.len() as u32) as int),
        ts: TransferState::Managed,
        ..r
    }
}

/// The transfer state after a buffer arrives: a requested completion
/// proceeds.
pub open spec fn advance_completion(ts: TransferState) -> TransferState {
    if ts == TransferState::CompletionRequested {
        TransferState::CompletionInProgress
    } else {
        ts
    }
}

/// Why a port cannot be shipped.
#[derive(Clone, Copy, PartialEq, Eq, Structural, Debug)]
pub enum TransferError {
    UnknownPort,
    Detached,
    InTransit,
}

/// What closing a port does to the records: the port is detached and it and
/// the port it was entangled with are disentangled.
pub open spec fn close_step<P, M>(s: Seq<PortModel<P, M>>, id: u64) -> Seq<PortModel<P, M>> {
    if !has_record(s, id) {
        s
    } else {
        let i = index_of(s, id);
        let s1 = s.update(i, PortModel { detached: true, entangled: None, ..s[i] });
        match s[i].entangled {
            Some(other) => if has_record(s1, other) {
                let k = index_of(s1, other);
                s1.update(k, PortModel { entangled: None, ..s1[k] })
            } else {
                s1
            },
            None => s1,
        }
    }
}

/// Enabling a port's message queue: the state after, and whether a message
/// task is now owed (the queue was disabled and holds a message).
pub open spec fn enable_step<P, M>(s: Seq<PortModel<P, M>>, id: u64) -> (Seq<PortModel<P, M>>, bool) {
    if !has_record(s, id) {
        (s, false)
    } else {
        let i = index_of(s, id);
        (s.update(i, PortModel { enabled: true, ..s[i] }), !s[i].enabled && s[i].queue.len() > 0)
    }
}

/// Taking the oldest message of an enabled port queue: the state after, and
/// the message with whether a further message task is owed.
pub open spec fn pop_step<P, M>(s: Seq<PortModel<P, M>>, id: u64) -> (Seq<PortModel<P, M>>, Option<(M, bool)>) {
    if !has_record(s, id) || !record_of(s, id).enabled || record_of(s, id).queue.len() == 0 {
        (s, None)
    } else {
        let i = index_of(s, id);
        (
            s.update(i, PortModel { queue: s[i].queue.drop_first(), ..s[i] }),
            Some((s[i].queue[0], s[i].queue.len() > 1)),
        )
    }
}

/// A routed message task for a port.
pub open spec fn land_step<P, M>(s: Seq<PortModel<P, M>>, id: u64, msg: M) -> (Seq<PortModel<P, M>>, PortTaskOutcome<M>) {
    if !has_record(s, id) {
        (s, PortTaskOutcome::Unknown)
    } else if model_is_local(record_of(s, id)) {
        let i = index_of(s, id);
        (s.update(i, land_message(s[i], msg)), PortTaskOutcome::Landed { fire: s[i].enabled })
    } else {
        (s, PortTaskOutcome::ReturnMessage { msg })
    }
}

/// A transfer buffer task for a port: the port is local once a requested
/// completion proceeds, so the buffer lands and the transfer completes.
pub open spec fn buffer_step<P, M>(s: Seq<PortModel<P, M>>, id: u64, buf: Seq<M>) -> (Seq<PortModel<P, M>>, PortTaskOutcome<M>) {
    if !has_record(s, id) {
        (s, PortTaskOutcome::Unknown)
    } else {
        let i = index_of(s, id);
        (
            s.update(i, land_buffer(s[i], buf)),
            PortTaskOutcome::Completed { fire: s[i].enabled && s[i].queue.len() + buf.len() > 0 },
        )
    }
}

/// The transfer steps: the state after, and the queue and in-flight count
/// handed over, or why the port cannot be shipped.
pub open spec fn transfer_step<P, M>(s: Seq<PortModel<P, M>>, id: u64) -> (
    Seq<PortModel<P, M>>,
    Result<(Seq<M>, u32), TransferError>,
) {
    if !has_record(s, id) {
        (s, Err(TransferError::UnknownPort))
    } else if record_of(s, id).detached {
        (s, Err(TransferError::Detached))
    } else if !model_is_local(record_of(s, id)) {
        (s, Err(TransferError::InTransit))
    } else {
        (s.remove(index_of(s, id)), Ok((record_of(s, id).queue, record_of(s, id).in_flight)))
    }
}

/// The record a transferred port lands with on the receiving side.
pub open spec fn received_model<P, M>(
    id: u64,
    object: P,
    remote_port: Option<u64>,
    queue: Seq<M>,
    in_flight: u32,
) -> PortModel<P, M> {
    PortModel {
        port_id: id,
        object: Some(object),
        ts: TransferState::CompletionInProgress,
        entangled: remote_port,
        queue,
        enabled: false,
        detached: false,
        in_flight,
    }
}

/// The per-event-loop channel messaging state.
pub struct ChannelMessaging<P, M> {
    event_loop_id: u64,
    ports: Vec<PortRecord<P, M>>,
}

impl<P, M> View for ChannelMessaging<P, M> {
    type V = Seq<PortModel<P, M>>;

    closed spec fn view(&self) -> Seq<PortModel<P, M>> {
        self.ports@.map_values(|r: PortRecord<P, M>| r@)
    }
}

impl<P, M> ChannelMessaging<P, M> {
    /// The id of the event loop this state belongs to.
    pub closed spec fn event_loop(&self) -> u64 {
        self.event_loop_id
    }

    /// The id of the event loop this state belongs to.
    pub fn event_loop_id(&self) -> (id: u64)
        ensures
            id == self.event_loop(),
    {
        self.event_loop_id
    }

    /// The channel messaging state of an event loop, with no port.
    pub fn new(event_loop_id: u64) -> (cm: Self)
        ensures
            cm@ == Seq::<PortModel<P, M>>::empty(),
            cm.event_loop() == event_loop_id,
    {
        let cm = ChannelMessaging { event_loop_id, ports: Vec::new() };
        assert(cm@ =~= Seq::<PortModel<P, M>>::empty());
        cm
    }

    /// The number of port records.
    pub fn len(&self) -> (n: usize)
        ensures
            n == self@.len(),
    {
        self.ports.len()
    }

    /// The index of the first record of a port.
    fn find(&self, id: u64) -> (r: Option<usize>)
        ensures
            match r {
                Some(i) => i < self@.len() && index_of(self@, id) == i,
                None => index_of(self@, id) == -1,
            },
    {
        let mut i: usize = 0;
        while i < self.ports.len()
            invariant
                i <= self.ports@.len(),
                self@ == self.ports@.map_values(|r: PortRecord<P, M>| r@),
                forall|j: int| 0 <= j < i ==> (#[trigger] self@[j]).port_id != id,
            decreases self.ports@.len() - i,
        {
            if self.ports[i].port_id == id {
                proof {
                    lemma_index_of_first(self@, id, i as int);
                }
                return Some(i);
            }
            i = i + 1;
        }
        proof {
            lemma_index_of_absent(self@, id);
        }
        None
    }

    proof fn lemma_view_push(&self, old_ports: Seq<PortRecord<P, M>>, r: PortRecord<P, M>)
        requires
            self.ports@ == old_ports.push(r),
        ensures
            self@ == old_ports.map_values(|r: PortRecord<P, M>| r@).push(r@),
    {
        assert(self@ =~= old_ports.map_values(|r: PortRecord<P, M>| r@).push(r@));
    }

    fn push_record(&mut self, r: PortRecord<P, M>)
        ensures
            final(self)@ == old(self)@.push(r@),
            final(self).event_loop() == old(self).event_loop(),
    {
        let ghost old_ports = self.ports@;
        self.ports.push(r);
        proof {
            self.lemma_view_push(old_ports, r);
            assert(old(self)@ == old_ports.map_values(|r: PortRecord<P, M>| r@));
        }
    }

    /// Entangles a port managed by this event loop with a port managed by
    /// another realm's event loop.
    pub fn entangle_remote(&mut self, port_id: u64, object: P, remote_id: u64)
        ensures
            final(self)@ == old(self)@.push(fresh_model(port_id, Some(object), Some(remote_id))),
            final(self).event_loop() == old(self).event_loop(),
    {
        let r = PortRecord {
            port_id,
            object: Some(object),
            ts: TransferState::Managed,
            entangled: Some(remote_id),
            queue: VecDeque::new(),
            enabled: false,
            detached: false,
            in_flight: 0,
        };
        self.push_record(r);
        assert(r@.queue =~= Seq::<M>::empty());
    }

    /// Registers a port managed by this event loop, not entangled yet; a
    /// port already registered is left as it is.
    pub fn register_port(&mut self, port_id: u64, object: P)
        ensures
            has_record(old(self)@, port_id) ==> final(self)@ == old(self)@,
            !has_record(old(self)@, port_id) ==> final(self)@ == old(self)@.push(
                fresh_model(port_id, Some(object), None),
            ),
            final(self).event_loop() == old(self).event_loop(),
    {
        if self.find(port_id).is_some() {
            return;
        }
        let r = PortRecord {
            port_id,
            object: Some(object),
            ts: TransferState::Managed,
            entangled: None,
            queue: VecDeque::new(),
            enabled: false,
            detached: false,
            in_flight: 0,
        };
        self.push_record(r);
        assert(r@.queue =~= Seq::<M>::empty());
    }

    /// Replaces the record at an index by a record with the same id.
    fn set_record(&mut self, i: usize, r: PortRecord<P, M>)
        requires
            i < old(self)@.len(),
        ensures
            final(self)@ == old(self)@.update(i as int, r@),
            final(self).event_loop() == old(self).event_loop(),
    {
        let ghost old_ports = self.ports@;
        self.ports.set(i, r);
        proof {
            assert(old(self)@ == old_ports.map_values(|r: PortRecord<P, M>| r@));
            assert(self@ =~= old(self)@.update(i as int, r@));
        }
    }

    /// Takes the record at an index out, leaving a record with the same id
    /// and an empty queue in its place until it is put back.
    fn take_record(&mut self, i: usize) -> (r: PortRecord<P, M>)
        requires
            i < old(self)@.len(),
        ensures
            r@ == old(self)@[i as int],
            final(self)@.len() == old(self)@.len(),
            final(self)@[i as int].port_id == old(self)@[i as int].port_id,
            forall|j: int| 0 <= j < old(self)@.len() && j != i ==> final(self)@[j] == old(self)@[j],
            final(self).event_loop() == old(self).event_loop(),
    {
        let ghost old_ports = self.ports@;
        let r = self.ports.remove(i);
        let placeholder = PortRecord {
            port_id: r.port_id,
            object: None,
            ts: r.ts,
            entangled: None,
            queue: VecDeque::new(),
            enabled: false,
            detached: false,
            in_flight: 0,
        };
        self.ports.insert(i, placeholder);
        proof {
            assert(old(self)@ == old_ports.map_values(|r: PortRecord<P, M>| r@));
            assert(old(self)@[i as int] == old_ports[i as int]@);
            assert forall|j: int| 0 <= j < old(self)@.len() && j != i implies self@[j] == old(self)@[j] by {
                if j < i {
                    assert(self.ports@[j] == old_ports[j]);
                } else {
                    assert(self.ports@[j] == old_ports[j]);
                }
            }
        }
        r
    }

    /// Sets the entanglement of a port managed by this event loop.
    pub fn set_entanglement(&mut self, port_id: u64, remote_id: u64)
        ensures
            has_record(old(self)@, port_id) ==> final(self)@ == old(self)@.update(
                index_of(old(self)@, port_id),
                PortModel { entangled: Some(remote_id), ..record_of(old(self)@, port_id) },
            ),
            !has_record(old(self)@, port_id) ==> final(self)@ == old(self)@,
            final(self).event_loop() == old(self).event_loop(),
    {
        if let Some(i) = self.find(port_id) {
            let ghost s0 = self@;
            let mut r = self.take_record(i);
            r.entangled = Some(remote_id);
            self.set_record(i, r);
            assert(self@ =~= s0.update(i as int, r@));
        }
    }

    /// Entangles two fresh ports of a new channel with each other.
    pub fn entangle_pair(&mut self, port1_id: u64, port1: P, port2_id: u64, port2: P)
        ensures
            final(self)@ == old(self)@.push(fresh_model(port1_id, Some(port1), Some(port2_id))).push(
                fresh_model(port2_id, Some(port2), Some(port1_id)),
            ),
            final(self).event_loop() == old(self).event_loop(),
    {
        let r1 = PortRecord {
            port_id: port1_id,
            object: Some(port1),
            ts: TransferState::Managed,
            entangled: Some(port2_id),
            queue: VecDeque::new(),
            enabled: false,
            detached: false,
            in_flight: 0,
        };
        let r2 = PortRecord {
            port_id: port2_id,
            object: Some(port2),
            ts: TransferState::Managed,
            entangled: Some(port1_id),
            queue: VecDeque::new(),
            enabled: false,
            detached: false,
            in_flight: 0,
        };
        assert(r1@.queue =~= Seq::<M>::empty());
        assert(r2@.queue =~= Seq::<M>::empty());
        self.push_record(r1);
        self.push_record(r2);
    }

    /// The transfer-receiving steps: the port lands here, completing its
    /// transfer, with the queue and in-flight count that moved with it.
    pub fn receive_transferred_port(
        &mut self,
        port_id: u64,
        object: P,
        remote_port: Option<u64>,
        queue: Vec<M>,
        in_flight: u32,
    )
        ensures
            final(self)@ == old(self)@.push(received_model(port_id, object, remote_port, queue@, in_flight)),
            final(self).event_loop() == old(self).event_loop(),
    {
        let r = PortRecord {
            port_id,
            object: Some(object),
            ts: TransferState::CompletionInProgress,
            entangled: remote_port,
            queue: vec_into_queue(queue),
            enabled: false,
            detached: false,
            in_flight,
        };
        self.push_record(r);
    }

    proof fn lemma_view_remove(&self, old_ports: Seq<PortRecord<P, M>>, i: int)
        requires
            0 <= i < old_ports.len(),
            self.ports@ == old_ports.remove(i),
        ensures
            self@ == old_ports.map_values(|r: PortRecord<P, M>| r@).remove(i),
    {
        assert(self@ =~= old_ports.map_values(|r: PortRecord<P, M>| r@).remove(i));
    }

    /// Whether a port is managed by this event loop.
    pub fn has_port(&self, port_id: u64) -> (b: bool)
        ensures
            b == has_record(self@, port_id),
    {
        self.find(port_id).is_some()
    }

    /// The record of a port managed by this event loop, if any.
    pub fn port_record(&self, port_id: u64) -> (r: Option<&PortRecord<P, M>>)
        ensures
            match r {
                Some(rec) => has_record(self@, port_id) && rec@ == record_of(self@, port_id),
                None => !has_record(self@, port_id),
            },
    {
        match self.find(port_id) {
            Some(i) => {
                proof {
                    assert(self@[i as int] == self.ports@[i as int]@);
                }
                Some(&self.ports[i])
            },
            None => None,
        }
    }

    /// The platform object of a port managed by this event loop, if any.
    pub fn port_object(&self, port_id: u64) -> (r: Option<&P>)
        ensures
            match r {
                Some(o) => has_record(self@, port_id) && record_of(self@, port_id).object == Some(*o),
                None => !has_record(self@, port_id) || record_of(self@, port_id).object is None,
            },
    {
        match self.port_record(port_id) {
            Some(rec) => match &rec.object {
                Some(o) => Some(o),
                None => None,
            },
            None => None,
        }
    }

    /// Whether a message task is owed for a port: its queue is enabled and
    /// holds a message.
    pub fn request_message_tasks(&self, port_id: u64) -> (b: bool)
        ensures
            b == pending(self@, port_id),
    {
        match self.port_record(port_id) {
            Some(rec) => rec.enabled && rec.queue.len() > 0,
            None => false,
        }
    }

    /// The transfer steps: the port leaves this event loop, handing over
    /// its queue and the count of messages in flight toward it.
    pub fn transfer_port(&mut self, port_id: u64) -> (res: Result<(Vec<M>, u32), TransferError>)
        ensures
            final(self).event_loop() == old(self).event_loop(),
            match res {
                Ok((q, n)) => transfer_step(old(self)@, port_id) == (final(self)@, Ok::<(Seq<M>, u32), TransferError>((q@, n))),
                Err(e) => transfer_step(old(self)@, port_id) == (final(self)@, Err::<(Seq<M>, u32), TransferError>(e)),
            },
    {
        let i = match self.find(port_id) {
            Some(i) => i,
            None => return Err(TransferError::UnknownPort),
        };
        proof {
            assert(self@[i as int] == self.ports@[i as int]@);
        }
        if self.ports[i].detached {
            return Err(TransferError::Detached);
        }
        if !self.ports[i].is_local() {
            return Err(TransferError::InTransit);
        }
        let ghost old_ports = self.ports@;
        let r = self.ports.remove(i);
        proof {
            self.lemma_view_remove(old_ports, i as int);
            assert(old(self)@ == old_ports.map_values(|r: PortRecord<P, M>| r@));
        }
        Ok((queue_into_vec(r.queue), r.in_flight))
    }

    /// The message port post message steps, from the port `src_id` to the
    /// port it names as its target.
    pub fn post_message(&mut self, src_id: u64, target_id: Option<u64>, msg: M) -> (out: PostOutcome<M>)
        ensures
            (final(self)@, out) == post_step(old(self)@, src_id, target_id, msg),
            final(self).event_loop() == old(self).event_loop(),
    {
        let t = match target_id {
            None => return PostOutcome::Ignored,
            Some(t) => t,
        };
        let si = match self.find(src_id) {
            None => return PostOutcome::Ignored,
            Some(si) => si,
        };
        proof {
            assert(self@[si as int] == self.ports@[si as int]@);
        }
        let reaches = match self.ports[si].entangled {
            Some(e) => e == t,
            None => false,
        };
        if !reaches {
            return PostOutcome::Ignored;
        }
        let ti = self.find(t);
        let direct = match ti {
            Some(k) => {
                proof {
                    assert(self@[k as int] == self.ports@[k as int]@);
                }
                self.ports[si].ts == TransferState::Managed && self.ports[k].ts
                    == TransferState::Managed && self.ports[k].in_flight == 0
            },
            None => false,
        };
        let ghost s0 = self@;
        match ti {
            Some(k) => {
                let mut r = self.take_record(k);
                if direct {
                    let request_task = r.enabled;
                    r.queue.push_back(msg);
                    self.set_record(k, r);
                    assert(self@ =~= s0.update(k as int, PortModel { queue: s0[k as int].queue.push(msg), ..s0[k as int] }));
                    PostOutcome::Delivered { request_task }
                } else {
                    r.in_flight = r.in_flight.saturating_add(1);
                    self.set_record(k, r);
                    assert(self@ =~= s0.update(k as int, PortModel { in_flight: saturating_inc(s0[k as int].in_flight), ..s0[k as int] }));
                    PostOutcome::Routed { msg }
                }
            },
            None => PostOutcome::Routed { msg },
        }
    }

    /// Enables a port's message queue; tells whether a message task is now
    /// owed (the queue was disabled and holds a message).
    pub fn start(&mut self, port_id: u64) -> (request_task: bool)
        ensures
            final(self).event_loop() == old(self).event_loop(),
            (final(self)@, request_task) == enable_step(old(self)@, port_id),
    {
        self.enable_queue(port_id)
    }

    /// Enables a port's message queue (once enabled it stays enabled);
    /// tells whether a message task is now owed.
    pub fn enable_queue(&mut self, port_id: u64) -> (request_task: bool)
        ensures
            final(self).event_loop() == old(self).event_loop(),
            (final(self)@, request_task) == enable_step(old(self)@, port_id),
    {
        let i = match self.find(port_id) {
            None => return false,
            Some(i) => i,
        };
        let ghost s0 = self@;
        let mut r = self.take_record(i);
        let was_enabled = r.enabled;
        r.enabled = true;
        let request_task = !was_enabled && r.queue.len() > 0;
        self.set_record(i, r);
        assert(self@ =~= s0.update(i as int, PortModel { enabled: true, ..s0[i as int] }));
        request_task
    }

    /// The close() steps: the port is detached and disentangled from the
    /// port it was entangled with, which is returned so that the caller can
    /// fire close at it.
    pub fn close(&mut self, port_id: u64) -> (other: Option<u64>)
        ensures
            final(self).event_loop() == old(self).event_loop(),
            final(self)@ == close_step(old(self)@, port_id),
            other == (if has_record(old(self)@, port_id) {
                record_of(old(self)@, port_id).entangled
            } else {
                None
            }),
    {
        let i = match self.find(port_id) {
            None => return None,
            Some(i) => i,
        };
        let ghost s0 = self@;
        let mut r = self.take_record(i);
        r.detached = true;
        let other = r.entangled;
        r.entangled = None;
        self.set_record(i, r);
        let ghost s1 = s0.update(i as int, PortModel { detached: true, entangled: None, ..s0[i as int] });
        assert(self@ =~= s1);
        if let Some(o) = other {
            if let Some(k) = self.find(o) {
                let mut rk = self.take_record(k);
                rk.entangled = None;
                self.set_record(k, rk);
                assert(self@ =~= s1.update(k as int, PortModel { entangled: None, ..s1[k as int] }));
            }
        }
        other
    }

    /// Takes the oldest message of an enabled port queue, telling whether a
    /// further message task is owed.
    pub fn pop_queued_message(&mut self, port_id: u64) -> (popped: Option<(M, bool)>)
        ensures
            final(self).event_loop() == old(self).event_loop(),
            (final(self)@, popped) == pop_step(old(self)@, port_id),
    {
        let i = match self.find(port_id) {
            None => return None,
            Some(i) => i,
        };
        proof {
            assert(self@[i as int] == self.ports@[i as int]@);
        }
        if !self.ports[i].enabled || self.ports[i].queue.len() == 0 {
            return None;
        }
        let ghost s0 = self@;
        let mut r = self.take_record(i);
        let m = match r.queue.pop_front() {
            Some(m) => m,
            None => {
                self.set_record(i, r);
                return None;
            },
        };
        let more = r.queue.len() > 0;
        self.set_record(i, r);
        assert(self@ =~= s0.update(i as int, PortModel { queue: s0[i as int].queue.drop_first(), ..s0[i as int] }));
        Some((m, more))
    }

    /// Handles a port task queued by the user agent: lands a routed message
    /// or a transfer buffer in the port's queue, or hands the message back
    /// when the port is not local.
    pub fn handle_port_task(&mut self, port_id: u64, task: PortTask<M>) -> (out: PortTaskOutcome<M>)
        ensures
            final(self).event_loop() == old(self).event_loop(),
            match task {
                PortTask::NewTask { msg } => (final(self)@, out) == land_step(old(self)@, port_id, msg),
                PortTask::Buffer { buf } => (final(self)@, out) == buffer_step(old(self)@, port_id, buf@),
            },
    {
        let i = match self.find(port_id) {
            None => return PortTaskOutcome::Unknown,
            Some(i) => i,
        };
        proof {
            assert(self@[i as int] == self.ports@[i as int]@);
        }
        let ghost s0 = self@;
        match task {
            PortTask::NewTask { msg } => {
                if !self.ports[i].is_local() {
                    return PortTaskOutcome::ReturnMessage { msg };
                }
                let mut r = self.take_record(i);
                r.queue.push_back(msg);
                r.in_flight = r.in_flight.saturating_sub(1);
                let fire = r.enabled && r.queue.len() > 0;
                self.set_record(i, r);
                assert(self@ =~= s0.update(i as int, land_message(s0[i as int], msg)));
                PortTaskOutcome::Landed { fire }
            },
            PortTask::Buffer { buf } => {
                let mut r = self.take_record(i);
                if r.ts == TransferState::CompletionRequested {
                    r.ts = TransferState::CompletionInProgress;
                }
                let ghost b = buf@;
                let landed = buf.len();
                append_to_queue(&mut r.queue, buf);
                let dec: u32 = landed as u32;
                r.in_flight = r.in_flight.saturating_sub(dec);
                r.ts = TransferState::Managed;
                let fire = r.enabled && r.queue.len() > 0;
                self.set_record(i, r);
                assert(self@ =~= s0.update(i as int, land_buffer(s0[i as int], b)));
                PortTaskOutcome::Completed { fire }
            },
        }
    }
}


/// A message delivered straight to a port lands behind the messages already
/// queued there: popping the target's queue next yields its old head, or,
/// when the queue was empty, the message itself, after which the queue is
/// empty again.
pub proof fn law_direct_post_is_fifo<P, M>(s: Seq<PortModel<P, M>>, src: u64, t: u64, msg: M)
    requires
        has_record(s, src),
        record_of(s, src).entangled == Some(t),
        direct_delivery(s, src, t),
        record_of(s, t).enabled,
    ensures
        ({
            let (s1, out) = post_step(s, src, Some(t), msg);
            let (s2, popped) = pop_step(s1, t);
            &&& out == PostOutcome::<M>::Delivered { request_task: true }
            &&& record_of(s1, t).queue == record_of(s, t).queue.push(msg)
            &&& popped == Some((
                if record_of(s, t).queue.len() == 0 { msg } else { record_of(s, t).queue[0] },
                record_of(s, t).queue.len() > 0,
            ))
            &&& record_of(s, t).queue.len() == 0 ==> s2 == s
        }),
{
    let ti = index_of(s, t);
    lemma_index_of_range(s, t);
    let r1 = PortModel { queue: s[ti].queue.push(msg), ..s[ti] };
    let s1 = s.update(ti, r1);
    lemma_index_of_update(s, ti, r1, t);
    assert(record_of(s1, t) == r1);
    if record_of(s, t).queue.len() == 0 {
        let s2 = s1.update(ti, PortModel { queue: r1.queue.drop_first(), ..r1 });
        assert(r1.queue.drop_first() =~= s[ti].queue);
        assert(s2 =~= s);
    }
}

/// A message routed toward a local port while older messages are in
/// flight, once it lands, is appended to the port's queue and leaves the
/// in-flight count where it was.
pub proof fn law_routed_message_lands_once<P, M>(s: Seq<PortModel<P, M>>, src: u64, t: u64, msg: M)
    requires
        has_record(s, src),
        record_of(s, src).entangled == Some(t),
        !direct_delivery(s, src, t),
        has_record(s, t),
        model_is_local(record_of(s, t)),
        record_of(s, t).in_flight < u32::MAX,
    ensures
        ({
            let (s1, out) = post_step(s, src, Some(t), msg);
            let (s2, landed) = land_step(s1, t, msg);
            &&& out == PostOutcome::Routed { msg }
            &&& record_of(s1, t).in_flight == record_of(s, t).in_flight + 1
            &&& landed == PortTaskOutcome::<M>::Landed { fire: record_of(s, t).enabled }
            &&& s2 == s.update(index_of(s, t), PortModel { queue: record_of(s, t).queue.push(msg), ..record_of(s, t) })
        }),
{
    let ti = index_of(s, t);
    lemma_index_of_range(s, t);
    let r1 = PortModel { in_flight: saturating_inc(s[ti].in_flight), ..s[ti] };
    let s1 = s.update(ti, r1);
    lemma_index_of_update(s, ti, r1, t);
    assert(record_of(s1, t) == r1);
    let s2 = s1.update(ti, land_message(r1, msg));
    assert(s2 =~= s.update(ti, PortModel { queue: s[ti].queue.push(msg), ..s[ti] }));
}

/// Closing a port detaches it and leaves neither it nor the port it was
/// entangled with entangled.
pub proof fn law_close_disentangles_both<P, M>(s: Seq<PortModel<P, M>>, id: u64)
    requires
        has_record(s, id),
    ensures
        ({
            let s1 = close_step(s, id);
            &&& s1.len() == s.len()
            &&& has_record(s1, id)
            &&& record_of(s1, id).detached
            &&& record_of(s1, id).entangled is None
            &&& forall|o: u64|
                record_of(s, id).entangled == Some(o) && has_record(s, o) ==> (#[trigger] record_of(
                    s1,
                    o,
                )).entangled is None
        }),
{
    let i = index_of(s, id);
    lemma_index_of_range(s, id);
    let r = PortModel { detached: true, entangled: None, ..s[i] };
    let s1 = s.update(i, r);
    lemma_index_of_update(s, i, r, id);
    match s[i].entangled {
        Some(other) => {
            lemma_index_of_update(s, i, r, other);
            if has_record(s1, other) {
                let k = index_of(s1, other);
                lemma_index_of_range(s1, other);
                let rk = PortModel { entangled: None, ..s1[k] };
                lemma_index_of_update(s1, k, rk, id);
                lemma_index_of_update(s1, k, rk, other);
            }
        },
        None => {},
    }
}

/// The two ports of a new channel, where neither was known before, are
/// each found entangled with the other.
pub proof fn law_entangle_pair_is_symmetric<P, M>(s: Seq<PortModel<P, M>>, id1: u64, o1: P, id2: u64, o2: P)
    requires
        id1 != id2,
        !has_record(s, id1),
        !has_record(s, id2),
    ensures
        ({
            let s1 = s.push(fresh_model(id1, Some(o1), Some(id2))).push(fresh_model(id2, Some(o2), Some(id1)));
            &&& record_of(s1, id1).entangled == Some(id2)
            &&& record_of(s1, id2).entangled == Some(id1)
            &&& !record_of(s1, id1).enabled && !record_of(s1, id2).enabled
        }),
{
    let a = s.push(fresh_model::<P, M>(id1, Some(o1), Some(id2)));
    lemma_index_of_push(s, fresh_model::<P, M>(id1, Some(o1), Some(id2)), id1);
    lemma_index_of_push(s, fresh_model::<P, M>(id1, Some(o1), Some(id2)), id2);
    lemma_index_of_push(a, fresh_model::<P, M>(id2, Some(o2), Some(id1)), id1);
    lemma_index_of_push(a, fresh_model::<P, M>(id2, Some(o2), Some(id1)), id2);
}

/// A port shipped out of one event loop lands in another with the queue
/// and in-flight count it left with; once the transfer buffer arrives the
/// port is managed again, with the buffered messages behind its queue.
pub proof fn law_transfer_round_trip<P, M>(
    s: Seq<PortModel<P, M>>,
    dest: Seq<PortModel<P, M>>,
    id: u64,
    object: P,
    remote: Option<u64>,
    buf: Seq<M>,
)
    requires
        has_record(s, id),
        !record_of(s, id).detached,
        model_is_local(record_of(s, id)),
        !has_record(dest, id),
    ensures
        ({
            let (s1, shipped) = transfer_step(s, id);
            let q = record_of(s, id).queue;
            let n = record_of(s, id).in_flight;
            let d1 = dest.push(received_model(id, object, remote, q, n));
            let (d2, done) = buffer_step(d1, id, buf);
            &&& s1.len() + 1 == s.len()
            &&& shipped == Ok::<(Seq<M>, u32), TransferError>((q, n))
            &&& record_of(d1, id).queue == q
            &&& record_of(d1, id).in_flight == n
            &&& record_of(d1, id).ts == TransferState::CompletionInProgress
            &&& record_of(d1, id).entangled == remote
            &&& record_of(d2, id).ts == TransferState::Managed
            &&& record_of(d2, id).queue == q + buf
            &&& done is Completed
        }),
{
    let q = record_of(s, id).queue;
    let n = record_of(s, id).in_flight;
    let rm = received_model(id, object, remote, q, n);
    let d1 = dest.push(rm);
    lemma_index_of_push(dest, rm, id);
    assert(record_of(d1, id) == rm);
    let i = index_of(d1, id);
    lemma_index_of_update(d1, i, land_buffer(d1[i], buf), id);
}

/// Enabling a port queue twice is enabling it once: the second time
/// changes nothing and owes no message task.
pub proof fn law_enable_is_idempotent<P, M>(s: Seq<PortModel<P, M>>, id: u64)
    ensures
        ({
            let (s1, _) = enable_step(s, id);
            enable_step(s1, id) == (s1, false)
        }),
{
    if has_record(s, id) {
        let i = index_of(s, id);
        lemma_index_of_range(s, id);
        let r = PortModel { enabled: true, ..s[i] };
        let s1 = s.update(i, r);
        lemma_index_of_update(s, i, r, id);
        assert(s1.update(i, PortModel { enabled: true, ..s1[i] }) =~= s1);
    }
}

} // verus!
