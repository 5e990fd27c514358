//! Messages delivered to a running session: steering messages are taken at the
//! next tool boundary, follow-ups after the run ends. A closed queue accepts
//! nothing.

use vstd::prelude::*;
use crate::message::UserMessage;

verus! {

#[derive(Debug)]
pub enum QueuedMessage {
    Steer(UserMessage),
    FollowUp(UserMessage),
}

/// Where a session's queued messages go.
pub trait MessageSink {
    fn enqueue(&mut self, message: QueuedMessage) -> Result<(), String>;
    fn is_idle(&self) -> bool;
}

/// Index of the first message of the given kind.
pub open spec fn first_of_kind(q: Seq<QueuedMessage>, steer: bool) -> Option<int>
    decreases q.len(),
{
    if q.len() == 0 {
        None
    } else if (q[0] is Steer) == steer {
        Some(0)
    } else {
        match first_of_kind(q.drop_first(), steer) {
            Some(i) => Some(i + 1),
            None => None,
        }
    }
}

pub open spec fn payload(m: QueuedMessage) -> UserMessage {
    match m {
        QueuedMessage::Steer(u) => u,
        QueuedMessage::FollowUp(u) => u,
    }
}

/// What taking the first message of one kind does to the queue and returns.
pub open spec fn pop_kind_post(
    old: Seq<QueuedMessage>,
    new: Seq<QueuedMessage>,
    steer: bool,
    r: Option<UserMessage>,
) -> bool {
    match first_of_kind(old, steer) {
        None => r is None && new == old,
        Some(i) => r == Some(payload(old[i])) && new == old.remove(i),
    }
}

proof fn lemma_first_of_kind(q: Seq<QueuedMessage>, steer: bool, k: int)
    requires
        0 <= k <= q.len(),
        forall|j: int| 0 <= j < k ==> ((#[trigger] q[j]) is Steer) != steer,
    ensures
        k == q.len() ==> first_of_kind(q, steer) is None,
        k < q.len() && (q[k] is Steer) == steer ==> first_of_kind(q, steer) == Some(k),
    decreases k,
{
    if k > 0 {
        let t = q.drop_first();
        assert forall|j: int| 0 <= j < k - 1 implies ((#[trigger] t[j]) is Steer) != steer by {
            assert(t[j] == q[j + 1]);
        }
        if k < q.len() {
            assert(t[k - 1] == q[k]);
        }
        lemma_first_of_kind(t, steer, k - 1);
    }
}

proof fn lemma_first_of_kind_bounds(q: Seq<QueuedMessage>, steer: bool)
    ensures
        first_of_kind(q, steer) matches Some(i) ==> 0 <= i < q.len() && (q[i] is Steer) == steer,
    decreases q.len(),
{
    if q.len() > 0 {
        lemma_first_of_kind_bounds(q.drop_first(), steer);
    }
}

/// The first message of a kind stays first when another message is pushed
/// behind it, so each kind leaves in the order it arrived.
pub proof fn law_push_keeps_first_of_kind(q: Seq<QueuedMessage>, m: QueuedMessage, steer: bool)
    requires
        first_of_kind(q, steer) is Some,
    ensures
        first_of_kind(q.push(m), steer) == first_of_kind(q, steer),
    decreases q.len(),
{
    if (q[0] is Steer) != steer {
        assert(q.push(m).drop_first() =~= q.drop_first().push(m));
        law_push_keeps_first_of_kind(q.drop_first(), m, steer);
    }
}

/// A message pushed onto a queue holding none of its kind is the next of its kind taken.
pub proof fn law_push_then_pop(q: Seq<QueuedMessage>, m: QueuedMessage)
    requires
        first_of_kind(q, m is Steer) is None,
    ensures
        first_of_kind(q.push(m), m is Steer) == Some(q.len() as int),
    decreases q.len(),
{
    if q.len() > 0 {
        assert(q.push(m).drop_first() =~= q.drop_first().push(m));
        law_push_then_pop(q.drop_first(), m);
    }
}

fn is_steer(m: &QueuedMessage) -> (r: bool)
    ensures
        r == (*m is Steer),
{
    match m {
        QueuedMessage::Steer(_) => true,
        QueuedMessage::FollowUp(_) => false,
    }
}

#[derive(Debug)]
pub struct MessageQueue {
    messages: Vec<QueuedMessage>,
    idle: bool,
    closed: bool,
}

impl MessageQueue {
    pub closed spec fn messages_view(&self) -> Seq<QueuedMessage> {
        self.messages@
    }

    pub closed spec fn idle_view(&self) -> bool {
        self.idle
    }

    pub closed spec fn closed_view(&self) -> bool {
        self.closed
    }

    /// An empty, open queue that is not idle.
    pub fn new() -> (r: Self)
        ensures
            r.messages_view() == Seq::<QueuedMessage>::empty(),
            !r.idle_view(),
            !r.closed_view(),
    {
        MessageQueue { messages: Vec::new(), idle: false, closed: false }
    }

    pub fn set_idle(&mut self, idle: bool)
        ensures
            final(self).idle_view() == idle,
            final(self).messages_view() == old(self).messages_view(),
            final(self).closed_view() == old(self).closed_view(),
    {
        self.idle = idle;
    }

    pub fn len(&self) -> (r: usize)
        ensures
            r == self.messages_view().len(),
    {
        self.messages.len()
    }

    /// Queue a message; a closed queue refuses it and stays unchanged.
    pub fn push(&mut self, message: QueuedMessage) -> (r: Result<(), String>)
        ensures
            final(self).idle_view() == old(self).idle_view(),
            final(self).closed_view() == old(self).closed_view(),
            old(self).closed_view() ==> (r matches Err(e) && e@ == "session is not accepting messages"@),
            old(self).closed_view() ==> final(self).messages_view() == old(self).messages_view(),
            !old(self).closed_view() ==> r is Ok && final(self).messages_view() == old(
                self,
            ).messages_view().push(message),
    {
        if self.closed {
            return Err("session is not accepting messages".to_owned());
        }
        self.messages.push(message);
        Ok(())
    }

    pub fn close(&mut self)
        ensures
            final(self).closed_view(),
            final(self).idle_view() == old(self).idle_view(),
            final(self).messages_view() == old(self).messages_view(),
    {
        self.closed = true;
    }

    fn pop_kind(&mut self, steer: bool) -> (r: Option<UserMessage>)
        ensures
            pop_kind_post(old(self).messages_view(), final(self).messages_view(), steer, r),
            final(self).idle_view() == old(self).idle_view(),
            final(self).closed_view() == old(self).closed_view(),
    {
        let mut i: usize = 0;
        while i < self.messages.len() && is_steer(&self.messages[i]) != steer
            invariant
                i <= self.messages@.len(),
                forall|j: int| 0 <= j < i ==> ((#[trigger] self.messages@[j]) is Steer) != steer,
            decreases self.messages@.len() - i,
        {
            i += 1;
        }
        proof {
            lemma_first_of_kind(self.messages@, steer, i as int);
        }
        if i == self.messages.len() {
            return None;
        }
        match self.messages.remove(i) {
            QueuedMessage::Steer(m) => Some(m),
            QueuedMessage::FollowUp(m) => Some(m),
        }
    }

    /// Take the earliest steering message, leaving the others in order.
    pub fn pop_steer(&mut self) -> (r: Option<UserMessage>)
        ensures
            pop_kind_post(old(self).messages_view(), final(self).messages_view(), true, r),
            final(self).idle_view() == old(self).idle_view(),
            final(self).closed_view() == old(self).closed_view(),
    {
        self.pop_kind(true)
    }

    /// Take the earliest follow-up message, leaving the others in order.
    pub fn pop_follow_up(&mut self) -> (r: Option<UserMessage>)
        ensures
            pop_kind_post(old(self).messages_view(), final(self).messages_view(), false, r),
            final(self).idle_view() == old(self).idle_view(),
            final(self).closed_view() == old(self).closed_view(),
    {
        self.pop_kind(false)
    }
}

impl MessageSink for MessageQueue {
    fn enqueue(&mut self, message: QueuedMessage) -> (r: Result<(), String>)
        ensures
            old(self).closed_view() ==> final(self).messages_view() == old(self).messages_view()
                && r is Err,
            !old(self).closed_view() ==> r is Ok && final(self).messages_view() == old(
                self,
            ).messages_view().push(message),
    {
        self.push(message)
    }

    /// Idle: no run in progress and nothing queued.
    fn is_idle(&self) -> (r: bool)
        ensures
            r == (self.idle_view() && self.messages_view().len() == 0),
    {
        self.idle && self.messages.len() == 0
    }
}

} // verus!
