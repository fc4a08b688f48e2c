//! The live-consumer store: the registry of active topic-tailing sessions.
//! A session moves `Initializing -> Streaming -> Draining -> Closed`, with
//! `Streaming -> Error -> Closed` on an unrecoverable subscription fault;
//! `Error` is terminal and nothing restarts a session. Each session owns a
//! bounded message buffer: when the consuming client cannot keep up, the
//! oldest buffered message is dropped and counted rather than ever
//! stalling the upstream subscription. Session creation is bounded per
//! `(cluster, topic)` and globally, and rejected synchronously with
//! `CapacityExceeded` — never queued.
//!
//! The store decides; the surrounding application performs the outside
//! work: it opens the streaming subscription when a session is created,
//! feeds arriving messages in through `push_message`, and closes the
//! subscription handle whenever an outcome directs it to.

use vstd::prelude::*;
use crate::assoc::{
    assoc_lookup, keys_unique, lemma_lookup_absent, lemma_lookup_at, lemma_lookup_remove,
    lemma_lookup_update,
};
use crate::metadata::{ClusterId, Message};

verus! {

/// Lifecycle state of one tailing session.
#[derive(Clone, Copy, PartialEq, Eq, Structural, Debug)]
pub enum SessionState {
    /// Created and registered; the subscription has not confirmed yet.
    Initializing,
    /// The subscription is live and messages flow into the buffer.
    Streaming,
    /// Termination requested; buffered messages are being handed out.
    Draining,
    /// The subscription reported a terminal fault; nothing restarts it.
    Error,
    /// Terminal: deregistered, subscription released.
    Closed,
}

/// One client's live view of a topic.
pub struct TailSession {
    pub cluster: ClusterId,
    pub topic: Vec<u8>,
    pub from_offset: u64,
    pub state: SessionState,
    pub buf: Vec<Message>,
    pub dropped: u64,
    pub last_poll: u64,
}

/// Whether the session still owns a live subscription that must be closed
/// when the session ends.
pub open spec fn subscription_open(s: TailSession) -> bool {
    s.state == SessionState::Initializing || s.state == SessionState::Streaming
}

/// Why a session could not be started.
#[derive(Clone, Copy, PartialEq, Eq, Structural, Debug)]
pub enum StartError {
    /// The per-topic or global session cap is reached; nothing was created.
    CapacityExceeded,
}

/// What `stop_tail` hands back: the messages still buffered at the stop,
/// flushed to the caller in order, and whether the application must now
/// close the underlying subscription handle.
pub struct StopOutcome {
    pub flushed: Vec<Message>,
    pub close_subscription: bool,
}

/// What one `next_message` poll produced.
#[derive(Debug, PartialEq)]
pub enum NextOutcome {
    /// The next buffered message, oldest first.
    Delivered(Message),
    /// The session is over; no further message will come.
    EndOfSession,
    /// Nothing buffered yet: the caller may wait and poll again.
    Pending,
}

/// How stopping relates a session's directory binding before the call to
/// the binding after it: a stopped session drains synchronously and
/// deregisters — it passes Draining and Closed within the call — and the
/// outcome returns the flushed remainder and directs the application to
/// close the subscription it still owned.
pub open spec fn stop_step(
    prev: Option<TailSession>,
    post: Option<TailSession>,
    r: Option<StopOutcome>,
) -> bool {
    match prev {
        None => post is None && r is None,
        Some(s) => {
            &&& post is None
            &&& r matches Some(o) && o.flushed == s.buf && o.close_subscription == subscription_open(s)
        },
    }
}

/// How one `next_message` poll relates a session's binding before the call
/// to the binding after it, together with the produced outcome: a missing
/// or terminal session ends, a buffered message is delivered oldest first,
/// and an empty live buffer asks the caller to wait.
pub open spec fn next_step(
    prev: Option<TailSession>,
    post: Option<TailSession>,
    r: NextOutcome,
    now: u64,
) -> bool {
    match prev {
        None => post is None && r == NextOutcome::EndOfSession,
        Some(s) => match s.state {
            SessionState::Error | SessionState::Closed => {
                post is None && r == NextOutcome::EndOfSession
            },
            _ => {
                if s.buf.len() > 0 {
                    &&& r matches NextOutcome::Delivered(m) && m == s.buf[0]
                    &&& post matches Some(s2)
                        && s2.cluster == s.cluster
                        && s2.topic == s.topic
                        && s2.from_offset == s.from_offset
                        && s2.state == s.state
                        && s2.buf@ == s.buf@.drop_first()
                        && s2.dropped == s.dropped
                        && s2.last_poll == now
                } else if s.state == SessionState::Draining {
                    post is None && r == NextOutcome::EndOfSession
                } else {
                    &&& r == NextOutcome::Pending
                    &&& post matches Some(s2)
                        && s2.cluster == s.cluster
                        && s2.topic == s.topic
                        && s2.from_offset == s.from_offset
                        && s2.state == s.state
                        && s2.buf == s.buf
                        && s2.dropped == s.dropped
                        && s2.last_poll == now
                }
            },
        },
    }
}

/// How delivering one message from the subscription relates a session's
/// binding before to the binding after: only a Streaming session buffers;
/// at capacity the oldest buffered message is dropped and counted, so a
/// slow viewer can never stall the upstream subscription.
pub open spec fn push_step(
    prev: Option<TailSession>,
    post: Option<TailSession>,
    msg: Message,
    cap: int,
) -> bool {
    match prev {
        None => post is None,
        Some(s) => {
            if s.state != SessionState::Streaming {
                post == prev
            } else {
                &&& post matches Some(s2)
                    && s2.cluster == s.cluster
                    && s2.topic == s.topic
                    && s2.from_offset == s.from_offset
                    && s2.state == s.state
                    && s2.last_poll == s.last_poll
                    && (if s.buf.len() < cap {
                        s2.buf@ == s.buf@.push(msg) && s2.dropped == s.dropped
                    } else {
                        &&& s2.buf@ == s.buf@.drop_first().push(msg)
                        &&& s2.dropped == (if s.dropped < u64::MAX {
                            (s.dropped + 1) as u64
                        } else {
                            s.dropped
                        })
                    })
            }
        },
    }
}

/// A session that has gone unpolled for longer than the configured idle
/// timeout at time `now`.
pub open spec fn session_idle(s: TailSession, now: u64, timeout: u64) -> bool {
    now - s.last_poll > timeout
}

/// The number of directory sessions tailing `topic` of `cluster`.
pub open spec fn count_for_topic(
    dir: Seq<(u64, TailSession)>,
    cluster: ClusterId,
    topic: Seq<u8>,
) -> nat
    decreases dir.len(),
{
    if dir.len() == 0 {
        0
    } else {
        count_for_topic(dir.drop_last(), cluster, topic) + (
            if dir.last().1.cluster == cluster && dir.last().1.topic@ == topic {
                1nat
            } else {
                0nat
            }
        )
    }
}

/// The registry of active tailing sessions.
pub struct LiveConsumerStore {
    sessions: Vec<(u64, TailSession)>,
    next_id: u64,
    topic_cap: usize,
    global_cap: usize,
    buffer_cap: usize,
    idle_timeout: u64,
}

impl LiveConsumerStore {
    /// The session directory as an association sequence.
    pub closed spec fn dir(self) -> Seq<(u64, TailSession)> {
        self.sessions@
    }

    /// The session registered under `id`, if any.
    pub open spec fn session(self, id: u64) -> Option<TailSession> {
        assoc_lookup(self.dir(), id)
    }

    /// Cap on sessions per `(cluster, topic)` pair.
    pub closed spec fn spec_topic_cap(self) -> usize {
        self.topic_cap
    }

    /// Cap on sessions over all topics and clusters.
    pub closed spec fn spec_global_cap(self) -> usize {
        self.global_cap
    }

    /// Fixed capacity of each session's message buffer.
    pub closed spec fn spec_buffer_cap(self) -> usize {
        self.buffer_cap
    }

    /// How long a session may go unpolled before the store stops it.
    pub closed spec fn spec_idle_timeout(self) -> u64 {
        self.idle_timeout
    }

    /// The id the next created session will get.
    pub closed spec fn spec_next_id(self) -> u64 {
        self.next_id
    }

    /// Well-formedness: ids are unique and below the allocation counter,
    /// no buffer exceeds its capacity, and the capacity is positive.
    pub closed spec fn wf(self) -> bool {
        &&& keys_unique(self.sessions@)
        &&& forall|j: int| 0 <= j < self.sessions@.len() ==> self.sessions@[j].0 < self.next_id
        &&& forall|j: int|
            0 <= j < self.sessions@.len()
                ==> self.sessions@[j].1.buf@.len() <= self.buffer_cap
        &&& self.buffer_cap >= 1
    }

    /// The configuration is unchanged from `pre`.
    pub open spec fn same_config(self, pre: LiveConsumerStore) -> bool {
        &&& self.spec_topic_cap() == pre.spec_topic_cap()
        &&& self.spec_global_cap() == pre.spec_global_cap()
        &&& self.spec_buffer_cap() == pre.spec_buffer_cap()
        &&& self.spec_idle_timeout() == pre.spec_idle_timeout()
    }

    /// An empty store with the given caps, per-session buffer capacity,
    /// and idle timeout.
    pub fn new(topic_cap: usize, global_cap: usize, buffer_cap: usize, idle_timeout: u64) -> (r: LiveConsumerStore)
        requires
            buffer_cap >= 1,
        ensures
            r.wf(),
            r.spec_topic_cap() == topic_cap,
            r.spec_global_cap() == global_cap,
            r.spec_buffer_cap() == buffer_cap,
            r.spec_idle_timeout() == idle_timeout,
            forall|id: u64| r.session(id) is None,
            r.dir().len() == 0,
    {
        let r = LiveConsumerStore {
            sessions: Vec::new(),
            next_id: 0,
            topic_cap,
            global_cap,
            buffer_cap,
            idle_timeout,
        };
        proof {
            assert forall|id: u64| r.session(id) is None by {
                assert(r.dir().len() == 0);
            }
        }
        r
    }

    /// How many registered sessions are tailing `topic` of `cluster`.
    fn count_topic_sessions(&self, cluster: ClusterId, topic: &Vec<u8>) -> (r: usize)
        ensures
            r == count_for_topic(self.dir(), cluster, topic@),
    {
        let n = self.sessions.len();
        let mut cnt: usize = 0;
        let mut i: usize = 0;
        while i < n
            invariant
                n == self.sessions@.len(),
                i <= n,
                cnt <= i,
                cnt == count_for_topic(self.sessions@.subrange(0, i as int), cluster, topic@),
            decreases n - i,
        {
            let ghost pre = self.sessions@.subrange(0, i as int);
            let hit = self.sessions[i].1.cluster == cluster && self.sessions[i].1.topic == *topic;
            proof {
                let cur = self.sessions@.subrange(0, i + 1);
                assert(cur.drop_last() =~= pre);
                assert(cur.last() == self.sessions@[i as int]);
                if self.sessions@[i as int].1.topic@ =~= topic@ {
                    assert(self.sessions@[i as int].1.topic@ == topic@);
                }
            }
            if hit {
                cnt += 1;
            }
            i += 1;
        }
        proof {
            assert(self.sessions@.subrange(0, n as int) =~= self.sessions@);
        }
        cnt
    }

    /// Index of the session registered under `id`, if any.
    fn find(&self, id: u64) -> (r: Option<usize>)
        ensures
            match r {
                Some(i) => i < self.sessions@.len() && self.sessions@[i as int].0 == id,
                None => forall|j: int| 0 <= j < self.sessions@.len() ==> self.sessions@[j].0 != id,
            },
    {
        let n = self.sessions.len();
        let mut i: usize = 0;
        while i < n
            invariant
                n == self.sessions@.len(),
                i <= n,
                forall|j: int| 0 <= j < i ==> self.sessions@[j].0 != id,
            decreases n - i,
        {
            if self.sessions[i].0 == id {
                return Some(i);
            }
            i += 1;
        }
        None
    }

    /// The id the next created session will get; callers check it is not
    /// yet at the counter's end before starting a session.
    pub fn next_session_id(&self) -> (r: u64)
        ensures
            r == self.spec_next_id(),
    {
        self.next_id
    }

    /// How many sessions are currently registered.
    pub fn session_count(&self) -> (r: usize)
        ensures
            r == self.dir().len(),
    {
        self.sessions.len()
    }

    /// The lifecycle state of session `id`, if it is registered.
    pub fn session_state(&self, id: u64) -> (r: Option<SessionState>)
        requires
            self.wf(),
        ensures
            match self.session(id) {
                Some(s) => r == Some(s.state),
                None => r is None,
            },
    {
        match self.find(id) {
            Some(i) => {
                proof {
                    lemma_lookup_at(self.sessions@, i as int);
                }
                Some(self.sessions[i].1.state)
            },
            None => {
                proof {
                    lemma_lookup_absent(self.sessions@, id);
                }
                None
            },
        }
    }

    /// How many messages session `id` has dropped to keep its buffer
    /// bounded; surfaced so a slow client can see what it missed.
    pub fn dropped_count(&self, id: u64) -> (r: Option<u64>)
        requires
            self.wf(),
        ensures
            match self.session(id) {
                Some(s) => r == Some(s.dropped),
                None => r is None,
            },
    {
        match self.find(id) {
            Some(i) => {
                proof {
                    lemma_lookup_at(self.sessions@, i as int);
                }
                Some(self.sessions[i].1.dropped)
            },
            None => {
                proof {
                    lemma_lookup_absent(self.sessions@, id);
                }
                None
            },
        }
    }

    /// The sessions that have not been polled for longer than the idle
    /// timeout at time `now`, exactly. The caller runs the clock and must
    /// forcibly stop each of them (see [`Self::stop_tail`]) to bound
    /// resource use.
    pub fn idle_sessions(&self, now: u64) -> (r: Vec<u64>)
        requires
            self.wf(),
        ensures
            forall|id: u64|
                #[trigger] r@.contains(id) <==> (self.session(id) matches Some(s)
                    && session_idle(s, now, self.spec_idle_timeout())),
    {
        let n = self.sessions.len();
        let mut r: Vec<u64> = Vec::new();
        let mut i: usize = 0;
        while i < n
            invariant
                n == self.sessions@.len(),
                i <= n,
                forall|id: u64|
                    #[trigger] r@.contains(id) <==> (exists|j: int|
                        0 <= j < i && self.sessions@[j].0 == id
                            && session_idle(#[trigger] self.sessions@[j].1, now, self.idle_timeout)),
            decreases n - i,
        {
            let lp = self.sessions[i].1.last_poll;
            let idle = now > lp && now - lp > self.idle_timeout;
            let ghost pre = r@;
            if idle {
                r.push(self.sessions[i].0);
            }
            proof {
                assert forall|id: u64|
                    #[trigger] r@.contains(id) <==> (exists|j: int|
                        0 <= j < i + 1 && self.sessions@[j].0 == id
                            && session_idle(#[trigger] self.sessions@[j].1, now, self.idle_timeout)) by {
                    if idle {
                        assert(r@ == pre.push(self.sessions@[i as int].0));
                        if r@.contains(id) {
                            let w = choose|w: int| 0 <= w < r@.len() && r@[w] == id;
                            if w < pre.len() {
                                assert(pre[w] == id);
                                assert(pre.contains(id));
                            } else {
                                assert(id == self.sessions@[i as int].0);
                                assert(session_idle(self.sessions@[i as int].1, now, self.idle_timeout));
                            }
                        }
                        if exists|j: int|
                            0 <= j < i + 1 && self.sessions@[j].0 == id
                                && session_idle(self.sessions@[j].1, now, self.idle_timeout) {
                            let j = choose|j: int|
                                0 <= j < i + 1 && self.sessions@[j].0 == id
                                    && session_idle(self.sessions@[j].1, now, self.idle_timeout);
                            if j < i {
                                assert(pre.contains(id));
                                let w = choose|w: int| 0 <= w < pre.len() && pre[w] == id;
                                assert(r@[w] == id);
                            } else {
                                assert(r@[pre.len() as int] == id);
                            }
                            assert(r@.contains(id));
                        }
                    } else {
                        assert(r@ == pre);
                        assert(!session_idle(self.sessions@[i as int].1, now, self.idle_timeout));
                        if exists|j: int|
                            0 <= j < i + 1 && self.sessions@[j].0 == id
                                && session_idle(self.sessions@[j].1, now, self.idle_timeout) {
                            let j = choose|j: int|
                                0 <= j < i + 1 && self.sessions@[j].0 == id
                                    && session_idle(self.sessions@[j].1, now, self.idle_timeout);
                            assert(j < i);
                        }
                    }
                }
            }
            i += 1;
        }
        proof {
            assert forall|id: u64|
                #[trigger] r@.contains(id) <==> (self.session(id) matches Some(s)
                    && session_idle(s, now, self.spec_idle_timeout())) by {
                if r@.contains(id) {
                    let j = choose|j: int|
                        0 <= j < n && self.sessions@[j].0 == id
                            && session_idle(self.sessions@[j].1, now, self.idle_timeout);
                    lemma_lookup_at(self.sessions@, j);
                } else {
                    if self.session(id) matches Some(s)
                        && session_idle(s, now, self.spec_idle_timeout()) {
                        if exists|j: int| 0 <= j < n && self.sessions@[j].0 == id {
                            let j = choose|j: int| 0 <= j < n && self.sessions@[j].0 == id;
                            lemma_lookup_at(self.sessions@, j);
                        } else {
                            assert(forall|j: int|
                                0 <= j < n ==> self.sessions@[j].0 != id);
                            lemma_lookup_absent(self.sessions@, id);
                        }
                    }
                }
            }
        }
        r
    }

    /// Open a new tailing session for `topic` of `cluster`, starting at
    /// `fromOffset`. Fails synchronously with `CapacityExceeded` — creating
    /// nothing and changing nothing — when the per-topic or the global cap
    /// is reached. On success the session starts in `Initializing`; the
    /// application must open the streaming subscription and report
    /// readiness through [`Self::confirm_ready`].
    pub fn start_tail(
        &mut self,
        cluster: ClusterId,
        topic: Vec<u8>,
        from_offset: u64,
        now: u64,
    ) -> (r: Result<u64, StartError>)
        requires
            old(self).wf(),
            old(self).spec_next_id() < u64::MAX,
        ensures
            final(self).wf(),
            final(self).same_config(*old(self)),
            ({
                let at_capacity = old(self).dir().len() >= old(self).spec_global_cap()
                    || count_for_topic(old(self).dir(), cluster, topic@)
                        >= old(self).spec_topic_cap();
                match r {
                    Err(e) => {
                        &&& e == StartError::CapacityExceeded
                        &&& at_capacity
                        &&& *final(self) == *old(self)
                    },
                    Ok(id) => {
                        &&& !at_capacity
                        &&& id == old(self).spec_next_id()
                        &&& old(self).session(id) is None
                        &&& final(self).session(id) matches Some(s)
                            && s.cluster == cluster
                            && s.topic == topic
                            && s.from_offset == from_offset
                            && s.state == SessionState::Initializing
                            && s.buf@.len() == 0
                            && s.dropped == 0
                            && s.last_poll == now
                        &&& forall|id2: u64|
                            id2 != id ==> final(self).session(id2) == old(self).session(id2)
                        &&& final(self).dir().len() == old(self).dir().len() + 1
                    },
                }
            }),
    {
        if self.sessions.len() >= self.global_cap {
            return Err(StartError::CapacityExceeded);
        }
        let cnt = self.count_topic_sessions(cluster, &topic);
        if cnt >= self.topic_cap {
            return Err(StartError::CapacityExceeded);
        }
        let id = self.next_id;
        self.next_id = id + 1;
        let session = TailSession {
            cluster,
            topic,
            from_offset,
            state: SessionState::Initializing,
            buf: Vec::new(),
            dropped: 0,
            last_poll: now,
        };
        proof {
            assert forall|j: int| 0 <= j < self.sessions@.len() implies self.sessions@[j].0 != id by {
                assert(self.sessions@[j].0 < id);
            }
            lemma_lookup_absent(self.sessions@, id);
        }
        self.sessions.push((id, session));
        proof {
            let s0 = old(self).dir();
            let s1 = self.dir();
            assert(s1.last() == (id, session));
            assert(s1.drop_last() =~= s0);
            assert forall|i2: int, j2: int| 0 <= i2 < j2 < s1.len() implies s1[i2].0 != s1[j2].0 by {
                assert(s1[i2] == s0[i2]);
                if j2 < s1.len() - 1 {
                    assert(s1[j2] == s0[j2]);
                } else {
                    assert(s0[i2].0 != id);
                }
            }
            assert forall|id2: u64| id2 != id implies self.session(id2) == old(self).session(id2) by {
                assert(assoc_lookup(s1, id2) == assoc_lookup(s0, id2));
            }
        }
        Ok(id)
    }

    /// The subscription of session `id` confirmed readiness: an
    /// Initializing session becomes Streaming. Anything else is unchanged.
    pub fn confirm_ready(&mut self, id: u64)
        requires
            old(self).wf(),
        ensures
            final(self).wf(),
            final(self).same_config(*old(self)),
            final(self).spec_next_id() == old(self).spec_next_id(),
            forall|id2: u64| id2 != id ==> final(self).session(id2) == old(self).session(id2),
            match old(self).session(id) {
                Some(s) => {
                    if s.state == SessionState::Initializing {
                        final(self).session(id) matches Some(s2)
                            && s2.cluster == s.cluster
                            && s2.topic == s.topic
                            && s2.from_offset == s.from_offset
                            && s2.state == SessionState::Streaming
                            && s2.buf == s.buf
                            && s2.dropped == s.dropped
                            && s2.last_poll == s.last_poll
                    } else {
                        *final(self) == *old(self)
                    }
                },
                None => *final(self) == *old(self),
            },
    {
        match self.find(id) {
            Some(i) => {
                proof {
                    lemma_lookup_at(self.sessions@, i as int);
                }
                let streaming = match self.sessions[i].1.state {
                    SessionState::Initializing => true,
                    _ => false,
                };
                if streaming {
                    let p = &mut self.sessions[i];
                    p.1.state = SessionState::Streaming;
                    proof {
                        lemma_lookup_update(old(self).dir(), self.dir(), id, i as int);
                    }
                }
            },
            None => {
                proof {
                    lemma_lookup_absent(self.sessions@, id);
                }
            },
        }
    }

    /// Deliver one message from the subscription of session `id` into its
    /// bounded buffer, dropping and counting the oldest buffered message
    /// when the buffer is full.
    pub fn push_message(&mut self, id: u64, msg: Message)
        requires
            old(self).wf(),
        ensures
            final(self).wf(),
            final(self).same_config(*old(self)),
            final(self).spec_next_id() == old(self).spec_next_id(),
            forall|id2: u64| id2 != id ==> final(self).session(id2) == old(self).session(id2),
            push_step(
                old(self).session(id),
                final(self).session(id),
                msg,
                old(self).spec_buffer_cap() as int,
            ),
    {
        match self.find(id) {
            Some(i) => {
                proof {
                    lemma_lookup_at(self.sessions@, i as int);
                }
                let streaming = match self.sessions[i].1.state {
                    SessionState::Streaming => true,
                    _ => false,
                };
                if streaming {
                    let cap = self.buffer_cap;
                    let p = &mut self.sessions[i];
                    let ghost pre_buf = p.1.buf@;
                    if p.1.buf.len() < cap {
                        p.1.buf.push(msg);
                        proof {
                            assert(p.1.buf@ =~= pre_buf.push(msg));
                        }
                    } else {
                        let _ = p.1.buf.remove(0);
                        p.1.buf.push(msg);
                        let d = p.1.dropped;
                        if d < u64::MAX {
                            p.1.dropped = d + 1;
                        }
                        proof {
                            assert(pre_buf.remove(0) =~= pre_buf.drop_first());
                            assert(p.1.buf@ =~= pre_buf.drop_first().push(msg));
                        }
                    }
                    proof {
                        lemma_lookup_update(old(self).dir(), self.dir(), id, i as int);
                    }
                }
            },
            None => {
                proof {
                    lemma_lookup_absent(self.sessions@, id);
                }
            },
        }
    }

    /// One poll by the consuming client: the oldest buffered message if
    /// one is there, `Pending` if the session is live but nothing is
    /// buffered, and `EndOfSession` — deregistering the session — once it
    /// is terminal or unknown.
    pub fn next_message(&mut self, id: u64, now: u64) -> (r: NextOutcome)
        requires
            old(self).wf(),
        ensures
            final(self).wf(),
            final(self).same_config(*old(self)),
            final(self).spec_next_id() == old(self).spec_next_id(),
            forall|id2: u64| id2 != id ==> final(self).session(id2) == old(self).session(id2),
            next_step(old(self).session(id), final(self).session(id), r, now),
    {
        match self.find(id) {
            Some(i) => {
                proof {
                    lemma_lookup_at(self.sessions@, i as int);
                }
                let terminal = match self.sessions[i].1.state {
                    SessionState::Error => true,
                    SessionState::Closed => true,
                    _ => false,
                };
                if terminal {
                    let _ = self.sessions.remove(i);
                    proof {
                        assert(self.dir() =~= old(self).dir().remove(i as int));
                        lemma_lookup_remove(old(self).dir(), i as int);
                    }
                    return NextOutcome::EndOfSession;
                }
                if self.sessions[i].1.buf.len() > 0 {
                    let p = &mut self.sessions[i];
                    let ghost pre_buf = p.1.buf@;
                    let m = p.1.buf.remove(0);
                    p.1.last_poll = now;
                    proof {
                        assert(pre_buf.remove(0) =~= pre_buf.drop_first());
                        lemma_lookup_update(old(self).dir(), self.dir(), id, i as int);
                    }
                    return NextOutcome::Delivered(m);
                }
                let draining = match self.sessions[i].1.state {
                    SessionState::Draining => true,
                    _ => false,
                };
                if draining {
                    let _ = self.sessions.remove(i);
                    proof {
                        assert(self.dir() =~= old(self).dir().remove(i as int));
                        lemma_lookup_remove(old(self).dir(), i as int);
                    }
                    return NextOutcome::EndOfSession;
                }
                let p = &mut self.sessions[i];
                p.1.last_poll = now;
                proof {
                    lemma_lookup_update(old(self).dir(), self.dir(), id, i as int);
                }
                NextOutcome::Pending
            },
            None => {
                proof {
                    lemma_lookup_absent(self.sessions@, id);
                }
                NextOutcome::EndOfSession
            },
        }
    }

    /// Gracefully terminate session `id`: the session passes Draining —
    /// the remaining buffered messages are flushed to the caller in order
    /// — reaches Closed, and is deregistered, all within this call. The
    /// returned outcome directs the application to close the subscription
    /// handle the session still owned, synchronously, before anything
    /// else runs on this session.
    pub fn stop_tail(&mut self, id: u64) -> (r: Option<StopOutcome>)
        requires
            old(self).wf(),
        ensures
            final(self).wf(),
            final(self).same_config(*old(self)),
            final(self).spec_next_id() == old(self).spec_next_id(),
            forall|id2: u64| id2 != id ==> final(self).session(id2) == old(self).session(id2),
            stop_step(old(self).session(id), final(self).session(id), r),
            r is Some ==> final(self).dir().len() + 1 == old(self).dir().len(),
            r is None ==> *final(self) == *old(self),
    {
        match self.find(id) {
            Some(i) => {
                proof {
                    lemma_lookup_at(self.sessions@, i as int);
                }
                let (_, sess) = self.sessions.remove(i);
                proof {
                    assert(self.dir() =~= old(self).dir().remove(i as int));
                    lemma_lookup_remove(old(self).dir(), i as int);
                }
                let close = match sess.state {
                    SessionState::Initializing => true,
                    SessionState::Streaming => true,
                    _ => false,
                };
                Some(StopOutcome { flushed: sess.buf, close_subscription: close })
            },
            None => {
                proof {
                    lemma_lookup_absent(self.sessions@, id);
                }
                None
            },
        }
    }

    /// The subscription of session `id` reported a terminal fault: the
    /// session enters the terminal Error state (its subscription is gone;
    /// nothing restarts it), and the client learns of it as EndOfSession
    /// on its next poll.
    pub fn on_subscription_fault(&mut self, id: u64)
        requires
            old(self).wf(),
        ensures
            final(self).wf(),
            final(self).same_config(*old(self)),
            final(self).spec_next_id() == old(self).spec_next_id(),
            forall|id2: u64| id2 != id ==> final(self).session(id2) == old(self).session(id2),
            match old(self).session(id) {
                Some(s) => final(self).session(id) matches Some(s2)
                    && s2.cluster == s.cluster
                    && s2.topic == s.topic
                    && s2.from_offset == s.from_offset
                    && s2.state == SessionState::Error
                    && s2.buf == s.buf
                    && s2.dropped == s.dropped
                    && s2.last_poll == s.last_poll,
                None => *final(self) == *old(self),
            },
    {
        match self.find(id) {
            Some(i) => {
                proof {
                    lemma_lookup_at(self.sessions@, i as int);
                }
                let p = &mut self.sessions[i];
                p.1.state = SessionState::Error;
                proof {
                    lemma_lookup_update(old(self).dir(), self.dir(), id, i as int);
                }
            },
            None => {
                proof {
                    lemma_lookup_absent(self.sessions@, id);
                }
            },
        }
    }
}

/// Backpressure on a prefix of the arrivals: after the first `i` of the
/// messages have been delivered to a Streaming session that started empty
/// and is never read, the buffer holds exactly the most recent
/// `min(cap, i)` of them, in arrival order, and the drop counter reads
/// exactly the number that no longer fit.
proof fn lemma_backpressure_prefix(
    states: Seq<TailSession>,
    msgs: Seq<Message>,
    cap: int,
    i: int,
)
    requires
        states.len() == msgs.len() + 1,
        cap >= 1,
        msgs.len() <= u64::MAX,
        0 <= i <= msgs.len(),
        states[0].state == SessionState::Streaming,
        states[0].buf@.len() == 0,
        states[0].dropped == 0,
        forall|k: int|
            0 <= k < msgs.len()
                ==> #[trigger] push_step(Some(states[k]), Some(states[k + 1]), msgs[k], cap),
    ensures
        states[i].state == SessionState::Streaming,
        states[i].dropped == if i > cap { i - cap } else { 0 },
        states[i].buf@ == msgs.subrange(if i > cap { i - cap } else { 0 }, i),
    decreases i,
{
    if i == 0 {
        assert(states[0].buf@ =~= msgs.subrange(0, 0));
    } else {
        lemma_backpressure_prefix(states, msgs, cap, i - 1);
        assert(push_step(Some(states[i - 1]), Some(states[i - 1 + 1]), msgs[i - 1], cap));
        let s = states[i - 1];
        let s2 = states[i];
        if i - 1 < cap {
            assert(s2.buf@ =~= msgs.subrange(0, i));
        } else {
            assert(s.buf@.len() == cap);
            assert(s2.buf@ =~= msgs.subrange(i - cap, i));
        }
    }
}

/// Backpressure: when `msgs` arrive, in order, at a Streaming session that
/// started with an empty buffer of capacity `cap` and the client consumes
/// nothing in between, exactly `max(len - cap, 0)` messages are dropped —
/// the oldest ones — the drop counter reads that number, and the buffer
/// holds the `min(cap, len)` most recent messages in arrival order.
pub proof fn lemma_backpressure(states: Seq<TailSession>, msgs: Seq<Message>, cap: int)
    requires
        states.len() == msgs.len() + 1,
        cap >= 1,
        msgs.len() <= u64::MAX,
        states[0].state == SessionState::Streaming,
        states[0].buf@.len() == 0,
        states[0].dropped == 0,
        forall|k: int|
            0 <= k < msgs.len()
                ==> #[trigger] push_step(Some(states[k]), Some(states[k + 1]), msgs[k], cap),
    ensures
        ({
            let n = msgs.len() as int;
            let last = states[n];
            &&& last.dropped == if n > cap { n - cap } else { 0 }
            &&& last.buf@ == msgs.subrange(if n > cap { n - cap } else { 0 }, n)
        }),
{
    lemma_backpressure_prefix(states, msgs, cap, msgs.len() as int);
}

/// Stopping a Streaming session ends it for good: the stop deregisters it
/// (it reaches Closed within the call), returns every message that was
/// still buffered, and directs the application to close the underlying
/// subscription before the call returns; any later poll of the same
/// session handle reports EndOfSession.
pub proof fn lemma_stop_is_terminal(
    s: TailSession,
    post_stop: Option<TailSession>,
    outcome: Option<StopOutcome>,
    post_next: Option<TailSession>,
    r2: NextOutcome,
    now: u64,
)
    requires
        s.state == SessionState::Streaming,
        stop_step(Some(s), post_stop, outcome),
        next_step(post_stop, post_next, r2, now),
    ensures
        post_stop is None,
        outcome matches Some(o) && o.close_subscription && o.flushed == s.buf,
        r2 == NextOutcome::EndOfSession,
        post_next is None,
{
}

} // verus!
