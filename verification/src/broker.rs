//! The bookkeeping of the UI broker between extensions and the frontend:
//! request ids, pending requests and who owns them, one modal dialog per
//! extension, coalescing of superseded requests, input polls, a bounded
//! notification queue and diagnostics. Channels and waiting belong to the
//! host; every decision is made here.

use vstd::prelude::*;
use crate::json::text_eq;
use crate::text::push_str;
use crate::ui_protocol::{
    ExtensionId, Generation, Notification, NotificationLevel, RequestId, SupportLevel,
    UiCapabilities, UiEnvelope, UiOperation, UiOperationKind, UiReply, spec_coalesce_key,
    spec_kind, supported,
};

verus! {

/// How many notifications wait at most.
pub const NOTIFICATION_CAPACITY: usize = 32;

/// How many envelopes the frontend channel holds.
pub const QUEUE_CAPACITY: usize = 64;

#[derive(Clone, Copy, Debug, PartialEq, Eq, Structural)]
pub enum UiDiagnostic {
    NotificationsOverflowed,
    RawInputSubscriberDisabled(u64),
}

#[derive(Clone, Copy, Debug, PartialEq, Eq, Structural)]
pub enum BrokerError {
    Closed,
    QueueFull,
    Busy,
}

#[derive(Debug)]
struct PendingRequest {
    id: RequestId,
    extension: ExtensionId,
    modal: bool,
}

/// A pending request: its id, its extension and whether it is a modal dialog.
pub type PendingView = (u64, Seq<char>, bool);

/// A coalesced request: its extension, its key and its id.
pub type CoalescedView = (Seq<char>, Seq<char>, u64);

#[derive(Debug)]
pub struct BrokerState {
    next: u64,
    generation: u64,
    pending: Vec<PendingRequest>,
    coalesced: Vec<(ExtensionId, String, RequestId)>,
    notifications: Vec<(ExtensionId, Notification)>,
    input_polls: Vec<RequestId>,
    diagnostics: Vec<UiDiagnostic>,
    overflow_reported: bool,
    closed: bool,
}

pub open spec fn not_id(id: u64) -> spec_fn(PendingView) -> bool {
    |p: PendingView| p.0 != id
}

pub open spec fn not_coalesced_id(id: u64) -> spec_fn(CoalescedView) -> bool {
    |c: CoalescedView| c.2 != id
}

pub open spec fn not_poll(id: u64) -> spec_fn(u64) -> bool {
    |x: u64| x != id
}

pub open spec fn is_pending(pending: Seq<PendingView>, id: u64) -> bool {
    exists|i: int| 0 <= i < pending.len() && pending[i].0 == id
}

/// The extension has a modal dialog waiting.
pub open spec fn has_modal(pending: Seq<PendingView>, extension: Seq<char>) -> bool {
    exists|i: int| 0 <= i < pending.len() && pending[i].1 == extension && pending[i].2
}

pub open spec fn poll_ids(polls: Seq<RequestId>) -> Seq<u64> {
    polls.map_values(|r: RequestId| r.0)
}

impl BrokerState {
    pub closed spec fn next_view(&self) -> u64 {
        self.next
    }

    pub closed spec fn generation_view(&self) -> u64 {
        self.generation
    }

    pub closed spec fn closed_view(&self) -> bool {
        self.closed
    }

    pub closed spec fn overflow_reported_view(&self) -> bool {
        self.overflow_reported
    }

    pub closed spec fn pending_view(&self) -> Seq<PendingView> {
        self.pending@.map_values(|p: PendingRequest| (p.id.0, p.extension.0@, p.modal))
    }

    pub closed spec fn coalesced_view(&self) -> Seq<CoalescedView> {
        self.coalesced@.map_values(|c: (ExtensionId, String, RequestId)| (c.0.0@, c.1@, c.2.0))
    }

    pub closed spec fn notifications_view(&self) -> Seq<(Seq<char>, Notification)> {
        self.notifications@.map_values(|n: (ExtensionId, Notification)| (n.0.0@, n.1))
    }

    pub closed spec fn polls_view(&self) -> Seq<u64> {
        poll_ids(self.input_polls@)
    }

    pub closed spec fn diagnostics_view(&self) -> Seq<UiDiagnostic> {
        self.diagnostics@
    }

    /// Ids grow, every coalesced entry and poll names a pending request, and
    /// at most the capacity of notifications wait.
    pub open spec fn well_formed(&self) -> bool {
        &&& forall|i: int, j: int|
            0 <= i < j < self.pending_view().len() ==> self.pending_view()[i].0
                < self.pending_view()[j].0
        &&& forall|i: int|
            0 <= i < self.pending_view().len() ==> self.pending_view()[i].0 < self.next_view()
        &&& forall|i: int|
            0 <= i < self.coalesced_view().len() ==> is_pending(
                self.pending_view(),
                #[trigger] self.coalesced_view()[i].2,
            )
        &&& forall|i: int|
            0 <= i < self.polls_view().len() ==> is_pending(
                self.pending_view(),
                #[trigger] self.polls_view()[i],
            )
        &&& self.notifications_view().len() <= NOTIFICATION_CAPACITY
    }

    /// A broker with nothing pending.
    pub fn new() -> (r: Self)
        ensures
            r.well_formed(),
            r.next_view() == 0,
            r.generation_view() == 0,
            !r.closed_view(),
            !r.overflow_reported_view(),
            r.pending_view().len() == 0,
            r.coalesced_view().len() == 0,
            r.notifications_view().len() == 0,
            r.polls_view().len() == 0,
            r.diagnostics_view().len() == 0,
    {
        BrokerState {
            next: 0,
            generation: 0,
            pending: Vec::new(),
            coalesced: Vec::new(),
            notifications: Vec::new(),
            input_polls: Vec::new(),
            diagnostics: Vec::new(),
            overflow_reported: false,
            closed: false,
        }
    }

    pub fn generation(&self) -> (r: Generation)
        ensures
            r == Generation(self.generation_view()),
    {
        Generation(self.generation)
    }

    /// The id the next request gets.
    pub fn next_request(&self) -> (r: u64)
        ensures
            r == self.next_view(),
    {
        self.next
    }

    pub fn is_closed(&self) -> (r: bool)
        ensures
            r == self.closed_view(),
    {
        self.closed
    }
}

proof fn lemma_filter_step<A>(s: Seq<A>, k: int, pred: spec_fn(A) -> bool)
    requires
        0 <= k < s.len(),
    ensures
        s.take(k + 1).filter(pred) == if pred(s[k]) {
            s.take(k).filter(pred).push(s[k])
        } else {
            s.take(k).filter(pred)
        },
{
    assert(s.take(k + 1) =~= s.take(k).push(s[k]));
    s.take(k).lemma_filter_push(s[k], pred);
}

fn without_pending(items: Vec<PendingRequest>, id: RequestId) -> (r: Vec<PendingRequest>)
    ensures
        r@.map_values(|p: PendingRequest| (p.id.0, p.extension.0@, p.modal)) == items@.map_values(
            |p: PendingRequest| (p.id.0, p.extension.0@, p.modal),
        ).filter(not_id(id.0)),
{
    let ghost orig = items@;
    let ghost view = items@.map_values(|p: PendingRequest| (p.id.0, p.extension.0@, p.modal));
    let mut rest = items;
    let mut kept: Vec<PendingRequest> = Vec::new();
    let ghost mut k: int = 0;
    assert(view.take(0).filter(not_id(id.0)) =~= seq![]);
    assert(orig.skip(0) =~= orig);
    while rest.len() > 0
        invariant
            0 <= k <= orig.len(),
            rest@ == orig.skip(k),
            view == orig.map_values(|p: PendingRequest| (p.id.0, p.extension.0@, p.modal)),
            kept@.map_values(|p: PendingRequest| (p.id.0, p.extension.0@, p.modal)) == view.take(k).filter(
                not_id(id.0),
            ),
        decreases rest@.len(),
    {
        let item = rest.remove(0);
        proof {
            assert(item == orig[k]);
            assert(orig.skip(k + 1) =~= orig.skip(k).remove(0));
            lemma_filter_step(view, k, not_id(id.0));
        }
        if item.id.0 != id.0 {
            let ghost before = kept@;
            kept.push(item);
            assert(kept@.map_values(|p: PendingRequest| (p.id.0, p.extension.0@, p.modal)) =~= before.map_values(
                |p: PendingRequest| (p.id.0, p.extension.0@, p.modal),
            ).push(view[k]));
        }
        proof {
            k = k + 1;
        }
    }
    assert(view.take(k) =~= view);
    kept
}

fn without_coalesced(items: Vec<(ExtensionId, String, RequestId)>, id: RequestId) -> (r: Vec<
    (ExtensionId, String, RequestId),
>)
    ensures
        r@.map_values(|c: (ExtensionId, String, RequestId)| (c.0.0@, c.1@, c.2.0)) == items@.map_values(
            |c: (ExtensionId, String, RequestId)| (c.0.0@, c.1@, c.2.0),
        ).filter(not_coalesced_id(id.0)),
{
    let ghost orig = items@;
    let ghost view = items@.map_values(|c: (ExtensionId, String, RequestId)| (c.0.0@, c.1@, c.2.0));
    let mut rest = items;
    let mut kept: Vec<(ExtensionId, String, RequestId)> = Vec::new();
    let ghost mut k: int = 0;
    assert(view.take(0).filter(not_coalesced_id(id.0)) =~= seq![]);
    assert(orig.skip(0) =~= orig);
    while rest.len() > 0
        invariant
            0 <= k <= orig.len(),
            rest@ == orig.skip(k),
            view == orig.map_values(|c: (ExtensionId, String, RequestId)| (c.0.0@, c.1@, c.2.0)),
            kept@.map_values(|c: (ExtensionId, String, RequestId)| (c.0.0@, c.1@, c.2.0)) == view.take(
                k,
            ).filter(not_coalesced_id(id.0)),
        decreases rest@.len(),
    {
        let item = rest.remove(0);
        proof {
            assert(item == orig[k]);
            assert(orig.skip(k + 1) =~= orig.skip(k).remove(0));
            lemma_filter_step(view, k, not_coalesced_id(id.0));
        }
        if item.2.0 != id.0 {
            let ghost before = kept@;
            kept.push(item);
            assert(kept@.map_values(|c: (ExtensionId, String, RequestId)| (c.0.0@, c.1@, c.2.0)) =~= before.map_values(
                |c: (ExtensionId, String, RequestId)| (c.0.0@, c.1@, c.2.0),
            ).push(view[k]));
        }
        proof {
            k = k + 1;
        }
    }
    assert(view.take(k) =~= view);
    kept
}

fn without_poll(items: &Vec<RequestId>, id: RequestId) -> (r: Vec<RequestId>)
    ensures
        poll_ids(r@) == poll_ids(items@).filter(not_poll(id.0)),
{
    let ghost view = poll_ids(items@);
    let mut kept: Vec<RequestId> = Vec::new();
    let mut k: usize = 0;
    assert(view.take(0).filter(not_poll(id.0)) =~= seq![]);
    while k < items.len()
        invariant
            k <= items@.len(),
            view == poll_ids(items@),
            poll_ids(kept@) == view.take(k as int).filter(not_poll(id.0)),
        decreases items@.len() - k,
    {
        proof {
            lemma_filter_step(view, k as int, not_poll(id.0));
        }
        if items[k].0 != id.0 {
            let ghost before = kept@;
            kept.push(items[k]);
            assert(poll_ids(kept@) =~= poll_ids(before).push(view[k as int]));
        }
        k += 1;
    }
    assert(view.take(items@.len() as int) =~= view);
    kept
}

proof fn lemma_filter_keeps<A>(s: Seq<A>, pred: spec_fn(A) -> bool, x: A)
    requires
        s.filter(pred).contains(x),
    ensures
        s.contains(x),
        pred(x),
{
    s.lemma_filter_contains_rev(pred, x);
    let k = choose|k: int| 0 <= k < s.filter(pred).len() && s.filter(pred)[k] == x;
    s.lemma_filter_pred(pred, k);
}

impl BrokerState {
    fn pending_index(&self, id: RequestId) -> (r: Option<usize>)
        ensures
            match r {
                Some(i) => i < self.pending@.len() && self.pending_view()[i as int].0 == id.0,
                None => !is_pending(self.pending_view(), id.0),
            },
    {
        let mut i: usize = 0;
        while i < self.pending.len()
            invariant
                i <= self.pending@.len(),
                forall|j: int| 0 <= j < i ==> self.pending_view()[j].0 != id.0,
            decreases self.pending@.len() - i,
        {
            if self.pending[i].id.0 == id.0 {
                return Some(i);
            }
            i += 1;
        }
        None
    }

    /// Settles a pending request: it stops being pending, coalesced and
    /// polled. `false` when it was not pending, which leaves everything as it
    /// was: a late reply to a settled request is dropped.
    pub fn complete(&mut self, id: RequestId) -> (r: bool)
        requires
            old(self).well_formed(),
        ensures
            final(self).well_formed(),
            r == is_pending(old(self).pending_view(), id.0),
            r ==> final(self).pending_view() == old(self).pending_view().filter(not_id(id.0)),
            r ==> final(self).coalesced_view() == old(self).coalesced_view().filter(
                not_coalesced_id(id.0),
            ),
            r ==> final(self).polls_view() == old(self).polls_view().filter(not_poll(id.0)),
            !r ==> final(self).pending_view() == old(self).pending_view(),
            !r ==> final(self).coalesced_view() == old(self).coalesced_view(),
            !r ==> final(self).polls_view() == old(self).polls_view(),
            final(self).next_view() == old(self).next_view(),
            final(self).generation_view() == old(self).generation_view(),
            final(self).closed_view() == old(self).closed_view(),
            final(self).overflow_reported_view() == old(self).overflow_reported_view(),
            final(self).notifications_view() == old(self).notifications_view(),
            final(self).diagnostics_view() == old(self).diagnostics_view(),
    {
        if self.pending_index(id).is_none() {
            return false;
        }
        let ghost before = *self;
        let mut pending: Vec<PendingRequest> = Vec::new();
        std::mem::swap(&mut pending, &mut self.pending);
        self.pending = without_pending(pending, id);
        let mut coalesced: Vec<(ExtensionId, String, RequestId)> = Vec::new();
        std::mem::swap(&mut coalesced, &mut self.coalesced);
        self.coalesced = without_coalesced(coalesced, id);
        self.input_polls = without_poll(&self.input_polls, id);
        proof {
            let p = self.pending_view();
            let op = before.pending_view();
            assert forall|i: int, j: int| 0 <= i < j < p.len() implies p[i].0 < p[j].0 by {
                lemma_filter_order(op, not_id(id.0), i, j);
            }
            assert forall|i: int| 0 <= i < p.len() implies p[i].0 < self.next_view() by {
                assert(op.filter(not_id(id.0)).contains(p[i]));
                lemma_filter_keeps(op, not_id(id.0), p[i]);
            }
            assert forall|i: int| 0 <= i < self.coalesced_view().len() implies is_pending(
                p,
                #[trigger] self.coalesced_view()[i].2,
            ) by {
                let c = self.coalesced_view()[i];
                assert(before.coalesced_view().filter(not_coalesced_id(id.0)).contains(c));
                lemma_filter_keeps(before.coalesced_view(), not_coalesced_id(id.0), c);
                let k = choose|k: int| 0 <= k < before.coalesced_view().len() && before.coalesced_view()[k] == c;
                let m = choose|m: int| 0 <= m < op.len() && op[m].0 == before.coalesced_view()[k].2;
                op.lemma_filter_contains(not_id(id.0), m);
                let n = choose|n: int| 0 <= n < p.len() && p[n] == op[m];
            }
            assert forall|i: int| 0 <= i < self.polls_view().len() implies is_pending(
                p,
                #[trigger] self.polls_view()[i],
            ) by {
                let x = self.polls_view()[i];
                assert(before.polls_view().filter(not_poll(id.0)).contains(x));
                lemma_filter_keeps(before.polls_view(), not_poll(id.0), x);
                let k = choose|k: int| 0 <= k < before.polls_view().len() && before.polls_view()[k] == x;
                let m = choose|m: int| 0 <= m < op.len() && op[m].0 == x;
                op.lemma_filter_contains(not_id(id.0), m);
                let n = choose|n: int| 0 <= n < p.len() && p[n] == op[m];
            }
        }
        true
    }
}

/// Filtering keeps the order of what it keeps.
proof fn lemma_filter_order(s: Seq<PendingView>, pred: spec_fn(PendingView) -> bool, i: int, j: int)
    requires
        forall|a: int, b: int| 0 <= a < b < s.len() ==> s[a].0 < s[b].0,
        0 <= i < j < s.filter(pred).len(),
    ensures
        s.filter(pred)[i].0 < s.filter(pred)[j].0,
    decreases s.len(),
{
    reveal(Seq::filter);
    if s.len() > 0 {
        let rest = s.drop_last();
        assert forall|a: int, b: int| 0 <= a < b < rest.len() implies rest[a].0 < rest[b].0 by {
            assert(rest[a] == s[a] && rest[b] == s[b]);
        }
        if pred(s.last()) {
            assert(s.filter(pred) == rest.filter(pred).push(s.last()));
            if j < rest.filter(pred).len() {
                lemma_filter_order(rest, pred, i, j);
            } else {
                let x = rest.filter(pred)[i];
                assert(rest.filter(pred).contains(x));
                lemma_filter_keeps(rest, pred, x);
                let k = choose|k: int| 0 <= k < rest.len() && rest[k] == x;
                assert(s[k] == x);
            }
        } else {
            assert(s.filter(pred) == rest.filter(pred));
            lemma_filter_order(rest, pred, i, j);
        }
    }
}

/// The index of the coalesced entry of `extension` under `key`.
pub open spec fn coalesced_index(c: Seq<CoalescedView>, extension: Seq<char>, key: Seq<char>) -> Option<int>
    decreases c.len(),
{
    if c.len() == 0 {
        None
    } else if c[0].0 == extension && c[0].1 == key {
        Some(0)
    } else {
        match coalesced_index(c.drop_first(), extension, key) {
            Some(i) => Some(i + 1),
            None => None,
        }
    }
}

proof fn lemma_coalesced_index(c: Seq<CoalescedView>, extension: Seq<char>, key: Seq<char>)
    ensures
        coalesced_index(c, extension, key) matches Some(i) ==> 0 <= i < c.len() && c[i].0 == extension
            && c[i].1 == key,
    decreases c.len(),
{
    if c.len() > 0 {
        lemma_coalesced_index(c.drop_first(), extension, key);
    }
}

/// The operation is a modal dialog.
pub open spec fn is_modal(op: UiOperation) -> bool {
    op is Dialog
}

impl BrokerState {
    fn modal_pending(&self, extension: &ExtensionId) -> (r: bool)
        ensures
            r == has_modal(self.pending_view(), extension.0@),
    {
        let mut i: usize = 0;
        while i < self.pending.len()
            invariant
                i <= self.pending@.len(),
                forall|j: int| 0 <= j < i ==> !(self.pending_view()[j].1 == extension.0@ && self.pending_view()[j].2),
            decreases self.pending@.len() - i,
        {
            if self.pending[i].modal && text_eq(self.pending[i].extension.0.as_str(), extension.0.as_str()) {
                assert(self.pending_view()[i as int].1 == extension.0@ && self.pending_view()[i as int].2);
                return true;
            }
            i += 1;
        }
        false
    }

    fn coalesced_position(&self, extension: &ExtensionId, key: &String) -> (r: Option<usize>)
        ensures
            match r {
                Some(i) => coalesced_index(self.coalesced_view(), extension.0@, key@) == Some(i as int)
                    && i < self.coalesced@.len(),
                None => coalesced_index(self.coalesced_view(), extension.0@, key@) is None,
            },
    {
        let ghost view = self.coalesced_view();
        let mut i: usize = 0;
        assert(view.skip(0) =~= view);
        while i < self.coalesced.len()
            invariant
                i <= self.coalesced@.len(),
                view == self.coalesced_view(),
                view.len() == self.coalesced@.len(),
                coalesced_index(view, extension.0@, key@) == match coalesced_index(view.skip(i as int), extension.0@, key@) {
                    Some(k) => Some(k + i),
                    None => None,
                },
            decreases self.coalesced@.len() - i,
        {
            assert(view.skip(i as int)[0] == view[i as int]);
            assert(view.skip(i as int).drop_first() =~= view.skip(i + 1));
            if text_eq(self.coalesced[i].0.0.as_str(), extension.0.as_str()) && text_eq(
                self.coalesced[i].1.as_str(),
                key.as_str(),
            ) {
                return Some(i);
            }
            i += 1;
        }
        None
    }

    fn add_pending(&mut self, id: RequestId, extension: ExtensionId, modal: bool)
        requires
            old(self).well_formed(),
            id.0 == old(self).next_view(),
            old(self).next_view() < u64::MAX,
        ensures
            final(self).well_formed(),
            final(self).pending_view() == old(self).pending_view().push((id.0, extension.0@, modal)),
            final(self).next_view() == old(self).next_view() + 1,
            final(self).coalesced_view() == old(self).coalesced_view(),
            final(self).polls_view() == old(self).polls_view(),
            final(self).generation_view() == old(self).generation_view(),
            final(self).closed_view() == old(self).closed_view(),
            final(self).overflow_reported_view() == old(self).overflow_reported_view(),
            final(self).notifications_view() == old(self).notifications_view(),
            final(self).diagnostics_view() == old(self).diagnostics_view(),
    {
        let ghost before = self.pending_view();
        self.pending.push(PendingRequest { id, extension, modal });
        self.next = self.next + 1;
        proof {
            assert(self.pending_view() =~= before.push((id.0, extension.0@, modal)));
            assert(self.coalesced_view() == old(self).coalesced_view());
            assert(self.polls_view() == old(self).polls_view());
            assert forall|i: int| 0 <= i < self.coalesced_view().len() implies is_pending(
                self.pending_view(),
                #[trigger] self.coalesced_view()[i].2,
            ) by {
                assert(is_pending(before, old(self).coalesced_view()[i].2));
                let m = choose|m: int| 0 <= m < before.len() && before[m].0 == self.coalesced_view()[i].2;
                assert(self.pending_view()[m] == before[m]);
            }
            assert forall|i: int| 0 <= i < self.polls_view().len() implies is_pending(
                self.pending_view(),
                #[trigger] self.polls_view()[i],
            ) by {
                assert(is_pending(before, old(self).polls_view()[i]));
                let m = choose|m: int| 0 <= m < before.len() && before[m].0 == self.polls_view()[i];
                assert(self.pending_view()[m] == before[m]);
            }
        }
    }

    /// Registers a request. It is refused when the broker is closed, and when
    /// it is a dialog of an extension that already waits on one. Otherwise it
    /// gets the next id and the current generation; a pending request of the
    /// same extension under the same coalescing key is superseded, settled as
    /// cancelled, and returned.
    pub fn begin(&mut self, extension: ExtensionId, operation: &UiOperation) -> (r: Result<
        (RequestId, Generation, Vec<RequestId>),
        BrokerError,
    >)
        requires
            old(self).well_formed(),
            old(self).next_view() < u64::MAX,
        ensures
            final(self).well_formed(),
            final(self).generation_view() == old(self).generation_view(),
            final(self).closed_view() == old(self).closed_view(),
            final(self).notifications_view() == old(self).notifications_view(),
            final(self).diagnostics_view() == old(self).diagnostics_view(),
            final(self).overflow_reported_view() == old(self).overflow_reported_view(),
            old(self).closed_view() ==> r == Err::<(RequestId, Generation, Vec<RequestId>), BrokerError>(
                BrokerError::Closed,
            ),
            !old(self).closed_view() && is_modal(*operation) && has_modal(
                old(self).pending_view(),
                extension.0@,
            ) ==> r == Err::<(RequestId, Generation, Vec<RequestId>), BrokerError>(BrokerError::Busy),
            r is Err ==> final(self).pending_view() == old(self).pending_view() && final(self).coalesced_view()
                == old(self).coalesced_view() && final(self).polls_view() == old(self).polls_view()
                && final(self).next_view() == old(self).next_view(),
            !old(self).closed_view() && !(is_modal(*operation) && has_modal(old(self).pending_view(), extension.0@))
                ==> (r matches Ok((id, g, cancelled)) && id.0 == old(self).next_view() && g.0
                == old(self).generation_view() && final(self).next_view() == old(self).next_view() + 1
                && match spec_coalesce_key(*operation) {
                None => cancelled@.len() == 0 && final(self).pending_view() == old(self).pending_view().push(
                    (id.0, extension.0@, is_modal(*operation)),
                ) && final(self).coalesced_view() == old(self).coalesced_view() && final(self).polls_view()
                    == old(self).polls_view(),
                Some(k) => match coalesced_index(old(self).coalesced_view(), extension.0@, k) {
                    Some(i) => {
                        let o = old(self).coalesced_view()[i].2;
                        &&& cancelled@ == seq![RequestId(o)]
                        &&& final(self).pending_view() == old(self).pending_view().filter(not_id(o)).push(
                            (id.0, extension.0@, is_modal(*operation)),
                        )
                        &&& final(self).coalesced_view() == old(self).coalesced_view().filter(
                            not_coalesced_id(o),
                        ).push((extension.0@, k, id.0))
                        &&& final(self).polls_view() == old(self).polls_view().filter(not_poll(o))
                    },
                    None => cancelled@.len() == 0 && final(self).pending_view() == old(self).pending_view().push(
                        (id.0, extension.0@, is_modal(*operation)),
                    ) && final(self).coalesced_view() == old(self).coalesced_view().push(
                        (extension.0@, k, id.0),
                    ) && final(self).polls_view() == old(self).polls_view(),
                },
            }),
    {
        if self.closed {
            return Err(BrokerError::Closed);
        }
        let modal = match operation {
            UiOperation::Dialog(_) => true,
            _ => false,
        };
        if modal && self.modal_pending(&extension) {
            return Err(BrokerError::Busy);
        }
        let id = RequestId(self.next);
        let mut cancelled: Vec<RequestId> = Vec::new();
        match operation.coalesce_key() {
            Some(key) => {
                proof {
                    lemma_coalesced_index(self.coalesced_view(), extension.0@, key@);
                }
                match self.coalesced_position(&extension, &key) {
                    Some(i) => {
                        let old_id = self.coalesced[i].2;
                        assert(self.coalesced_view()[i as int].2 == old_id.0);
                        let settled = self.complete(old_id);
                        cancelled.push(old_id);
                        assert(cancelled@ =~= seq![old_id]);
                    },
                    None => {},
                }
                let ghost mid = self.coalesced_view();
                self.add_pending(id, extension.clone(), modal);
                self.coalesced.push((extension, key, id));
                proof {
                    assert(self.coalesced_view() =~= mid.push((extension.0@, key@, id.0)));
                    let p = self.pending_view();
                    assert(p[p.len() - 1].0 == id.0);
                    assert forall|i: int| 0 <= i < self.coalesced_view().len() implies is_pending(
                        p,
                        #[trigger] self.coalesced_view()[i].2,
                    ) by {
                        if i == self.coalesced_view().len() - 1 {
                            assert(self.coalesced_view()[i].2 == p[p.len() - 1].0);
                        } else {
                            assert(self.coalesced_view()[i] == mid[i]);
                        }
                    }
                }
            },
            None => {
                self.add_pending(id, extension, modal);
            },
        }
        Ok((id, Generation(self.generation), cancelled))
    }
}

pub open spec fn not_of(extension: Seq<char>) -> spec_fn(PendingView) -> bool {
    |p: PendingView| p.1 != extension
}

pub open spec fn coalesced_not_in(ids: Seq<u64>) -> spec_fn(CoalescedView) -> bool {
    |c: CoalescedView| !ids.contains(c.2)
}

pub open spec fn poll_not_in(ids: Seq<u64>) -> spec_fn(u64) -> bool {
    |x: u64| !ids.contains(x)
}

/// The ids of the requests of `extension`, in order.
pub open spec fn ids_of(pending: Seq<PendingView>, extension: Seq<char>) -> Seq<u64>
    decreases pending.len(),
{
    if pending.len() == 0 {
        seq![]
    } else {
        let rest = ids_of(pending.drop_last(), extension);
        if pending.last().1 == extension {
            rest.push(pending.last().0)
        } else {
            rest
        }
    }
}

pub open spec fn request_ids(ids: Seq<RequestId>) -> Seq<u64> {
    ids.map_values(|r: RequestId| r.0)
}

fn contains_id(ids: &Vec<RequestId>, x: u64) -> (r: bool)
    ensures
        r == request_ids(ids@).contains(x),
{
    let mut i: usize = 0;
    while i < ids.len()
        invariant
            i <= ids@.len(),
            forall|j: int| 0 <= j < i ==> request_ids(ids@)[j] != x,
        decreases ids@.len() - i,
    {
        if ids[i].0 == x {
            assert(request_ids(ids@)[i as int] == x);
            return true;
        }
        i += 1;
    }
    false
}

fn pending_not_of(items: Vec<PendingRequest>, extension: &ExtensionId) -> (r: Vec<PendingRequest>)
    ensures
        r@.map_values(|p: PendingRequest| (p.id.0, p.extension.0@, p.modal)) == items@.map_values(
            |p: PendingRequest| (p.id.0, p.extension.0@, p.modal),
        ).filter(not_of(extension.0@)),
{
    let ghost orig = items@;
    let ghost view = items@.map_values(|p: PendingRequest| (p.id.0, p.extension.0@, p.modal));
    let mut rest = items;
    let mut kept: Vec<PendingRequest> = Vec::new();
    let ghost mut k: int = 0;
    assert(view.take(0).filter(not_of(extension.0@)) =~= seq![]);
    assert(orig.skip(0) =~= orig);
    while rest.len() > 0
        invariant
            0 <= k <= orig.len(),
            rest@ == orig.skip(k),
            view == orig.map_values(|p: PendingRequest| (p.id.0, p.extension.0@, p.modal)),
            kept@.map_values(|p: PendingRequest| (p.id.0, p.extension.0@, p.modal)) == view.take(k).filter(
                not_of(extension.0@),
            ),
        decreases rest@.len(),
    {
        let item = rest.remove(0);
        proof {
            assert(item == orig[k]);
            assert(orig.skip(k + 1) =~= orig.skip(k).remove(0));
            lemma_filter_step(view, k, not_of(extension.0@));
        }
        if !text_eq(item.extension.0.as_str(), extension.0.as_str()) {
            let ghost before = kept@;
            kept.push(item);
            assert(kept@.map_values(|p: PendingRequest| (p.id.0, p.extension.0@, p.modal)) =~= before.map_values(
                |p: PendingRequest| (p.id.0, p.extension.0@, p.modal),
            ).push(view[k]));
        }
        proof {
            k = k + 1;
        }
    }
    assert(view.take(k) =~= view);
    kept
}

fn coalesced_not_in_ids(items: Vec<(ExtensionId, String, RequestId)>, ids: &Vec<RequestId>) -> (r: Vec<
    (ExtensionId, String, RequestId),
>)
    ensures
        r@.map_values(|c: (ExtensionId, String, RequestId)| (c.0.0@, c.1@, c.2.0)) == items@.map_values(
            |c: (ExtensionId, String, RequestId)| (c.0.0@, c.1@, c.2.0),
        ).filter(coalesced_not_in(request_ids(ids@))),
{
    let ghost orig = items@;
    let ghost view = items@.map_values(|c: (ExtensionId, String, RequestId)| (c.0.0@, c.1@, c.2.0));
    let ghost pred = coalesced_not_in(request_ids(ids@));
    let mut rest = items;
    let mut kept: Vec<(ExtensionId, String, RequestId)> = Vec::new();
    let ghost mut k: int = 0;
    assert(view.take(0).filter(pred) =~= seq![]);
    assert(orig.skip(0) =~= orig);
    while rest.len() > 0
        invariant
            0 <= k <= orig.len(),
            rest@ == orig.skip(k),
            pred == coalesced_not_in(request_ids(ids@)),
            view == orig.map_values(|c: (ExtensionId, String, RequestId)| (c.0.0@, c.1@, c.2.0)),
            kept@.map_values(|c: (ExtensionId, String, RequestId)| (c.0.0@, c.1@, c.2.0)) == view.take(
                k,
            ).filter(pred),
        decreases rest@.len(),
    {
        let item = rest.remove(0);
        proof {
            assert(item == orig[k]);
            assert(orig.skip(k + 1) =~= orig.skip(k).remove(0));
            lemma_filter_step(view, k, pred);
        }
        if !contains_id(ids, item.2.0) {
            let ghost before = kept@;
            kept.push(item);
            assert(kept@.map_values(|c: (ExtensionId, String, RequestId)| (c.0.0@, c.1@, c.2.0)) =~= before.map_values(
                |c: (ExtensionId, String, RequestId)| (c.0.0@, c.1@, c.2.0),
            ).push(view[k]));
        }
        proof {
            k = k + 1;
        }
    }
    assert(view.take(k) =~= view);
    kept
}

fn polls_not_in_ids(items: &Vec<RequestId>, ids: &Vec<RequestId>) -> (r: Vec<RequestId>)
    ensures
        poll_ids(r@) == poll_ids(items@).filter(poll_not_in(request_ids(ids@))),
{
    let ghost view = poll_ids(items@);
    let ghost pred = poll_not_in(request_ids(ids@));
    let mut kept: Vec<RequestId> = Vec::new();
    let mut k: usize = 0;
    assert(view.take(0).filter(pred) =~= seq![]);
    while k < items.len()
        invariant
            k <= items@.len(),
            view == poll_ids(items@),
            pred == poll_not_in(request_ids(ids@)),
            poll_ids(kept@) == view.take(k as int).filter(pred),
        decreases items@.len() - k,
    {
        proof {
            lemma_filter_step(view, k as int, pred);
        }
        if !contains_id(ids, items[k].0) {
            let ghost before = kept@;
            kept.push(items[k]);
            assert(poll_ids(kept@) =~= poll_ids(before).push(view[k as int]));
        }
        k += 1;
    }
    assert(view.take(items@.len() as int) =~= view);
    kept
}

proof fn lemma_ids_of(p: Seq<PendingView>, extension: Seq<char>, m: int)
    requires
        0 <= m < p.len(),
        p[m].1 == extension,
    ensures
        ids_of(p, extension).contains(p[m].0),
    decreases p.len(),
{
    if m == p.len() - 1 {
        assert(ids_of(p, extension).last() == p[m].0);
    } else {
        lemma_ids_of(p.drop_last(), extension, m);
        let rest = ids_of(p.drop_last(), extension);
        let k = choose|k: int| 0 <= k < rest.len() && rest[k] == p[m].0;
        if p.last().1 == extension {
            assert(ids_of(p, extension)[k] == p[m].0);
        }
    }
}

proof fn lemma_wf_frame(a: BrokerState, b: BrokerState)
    requires
        a.well_formed(),
        b.pending_view() == a.pending_view(),
        b.coalesced_view() == a.coalesced_view(),
        b.polls_view() == a.polls_view(),
        b.next_view() == a.next_view(),
        b.notifications_view().len() <= NOTIFICATION_CAPACITY,
    ensures
        b.well_formed(),
{
    assert forall|i: int| 0 <= i < b.coalesced_view().len() implies is_pending(
        b.pending_view(),
        #[trigger] b.coalesced_view()[i].2,
    ) by {
        assert(is_pending(a.pending_view(), a.coalesced_view()[i].2));
    }
    assert forall|i: int| 0 <= i < b.polls_view().len() implies is_pending(
        b.pending_view(),
        #[trigger] b.polls_view()[i],
    ) by {
        assert(is_pending(a.pending_view(), a.polls_view()[i]));
    }
}

/// The index of the first notification that is not an error (0 if all are).
pub open spec fn first_non_error(q: Seq<(Seq<char>, Notification)>) -> int
    decreases q.len(),
{
    if q.len() == 0 {
        0
    } else if q[0].1.level != NotificationLevel::Error {
        0
    } else if exists|i: int| 0 <= i < q.len() && q[i].1.level != NotificationLevel::Error {
        1 + first_non_error(q.drop_first())
    } else {
        0
    }
}

impl BrokerState {
    fn pending_ids_of(&self, extension: &ExtensionId) -> (r: Vec<RequestId>)
        ensures
            request_ids(r@) == ids_of(self.pending_view(), extension.0@),
    {
        let ghost view = self.pending_view();
        let mut r: Vec<RequestId> = Vec::new();
        let mut i: usize = 0;
        while i < self.pending.len()
            invariant
                i <= self.pending@.len(),
                view == self.pending_view(),
                request_ids(r@) == ids_of(view.take(i as int), extension.0@),
            decreases self.pending@.len() - i,
        {
            assert(view.take(i + 1).drop_last() =~= view.take(i as int));
            if text_eq(self.pending[i].extension.0.as_str(), extension.0.as_str()) {
                let ghost before = r@;
                r.push(self.pending[i].id);
                assert(request_ids(r@) =~= request_ids(before).push(view[i as int].0));
            }
            i += 1;
        }
        assert(view.take(self.pending@.len() as int) =~= view);
        r
    }

    /// Settles every pending request of an extension (when it unloads), in
    /// the order they were made, and returns them.
    pub fn cancel_extension(&mut self, extension: &ExtensionId) -> (r: Vec<RequestId>)
        requires
            old(self).well_formed(),
        ensures
            final(self).well_formed(),
            request_ids(r@) == ids_of(old(self).pending_view(), extension.0@),
            final(self).pending_view() == old(self).pending_view().filter(not_of(extension.0@)),
            final(self).coalesced_view() == old(self).coalesced_view().filter(
                coalesced_not_in(request_ids(r@)),
            ),
            final(self).polls_view() == old(self).polls_view().filter(poll_not_in(request_ids(r@))),
            final(self).next_view() == old(self).next_view(),
            final(self).generation_view() == old(self).generation_view(),
            final(self).closed_view() == old(self).closed_view(),
            final(self).overflow_reported_view() == old(self).overflow_reported_view(),
            final(self).notifications_view() == old(self).notifications_view(),
            final(self).diagnostics_view() == old(self).diagnostics_view(),
    {
        let ids = self.pending_ids_of(extension);
        let ghost before = *self;
        let ghost op = before.pending_view();
        let mut pending: Vec<PendingRequest> = Vec::new();
        std::mem::swap(&mut pending, &mut self.pending);
        self.pending = pending_not_of(pending, extension);
        let mut coalesced: Vec<(ExtensionId, String, RequestId)> = Vec::new();
        std::mem::swap(&mut coalesced, &mut self.coalesced);
        self.coalesced = coalesced_not_in_ids(coalesced, &ids);
        self.input_polls = polls_not_in_ids(&self.input_polls, &ids);
        proof {
            let p = self.pending_view();
            let pred = not_of(extension.0@);
            assert forall|i: int, j: int| 0 <= i < j < p.len() implies p[i].0 < p[j].0 by {
                lemma_filter_order(op, pred, i, j);
            }
            assert forall|i: int| 0 <= i < p.len() implies p[i].0 < self.next_view() by {
                assert(op.filter(pred).contains(p[i]));
                lemma_filter_keeps(op, pred, p[i]);
            }
            assert forall|i: int| 0 <= i < self.coalesced_view().len() implies is_pending(
                p,
                #[trigger] self.coalesced_view()[i].2,
            ) by {
                let c = self.coalesced_view()[i];
                let cp = coalesced_not_in(request_ids(ids@));
                assert(before.coalesced_view().filter(cp).contains(c));
                lemma_filter_keeps(before.coalesced_view(), cp, c);
                let k = choose|k: int| 0 <= k < before.coalesced_view().len() && before.coalesced_view()[k] == c;
                assert(is_pending(op, before.coalesced_view()[k].2));
                let m = choose|m: int| 0 <= m < op.len() && op[m].0 == before.coalesced_view()[k].2;
                if op[m].1 == extension.0@ {
                    lemma_ids_of(op, extension.0@, m);
                }
                op.lemma_filter_contains(pred, m);
                let n = choose|n: int| 0 <= n < p.len() && p[n] == op[m];
            }
            assert forall|i: int| 0 <= i < self.polls_view().len() implies is_pending(
                p,
                #[trigger] self.polls_view()[i],
            ) by {
                let x = self.polls_view()[i];
                let pp = poll_not_in(request_ids(ids@));
                assert(before.polls_view().filter(pp).contains(x));
                lemma_filter_keeps(before.polls_view(), pp, x);
                let k = choose|k: int| 0 <= k < before.polls_view().len() && before.polls_view()[k] == x;
                assert(is_pending(op, before.polls_view()[k]));
                let m = choose|m: int| 0 <= m < op.len() && op[m].0 == x;
                if op[m].1 == extension.0@ {
                    lemma_ids_of(op, extension.0@, m);
                }
                op.lemma_filter_contains(pred, m);
                let n = choose|n: int| 0 <= n < p.len() && p[n] == op[m];
            }
        }
        ids
    }

    /// Closes the broker: every pending request is settled, in the order they
    /// were made, and returned; later requests are refused.
    pub fn close(&mut self) -> (r: Vec<RequestId>)
        requires
            old(self).well_formed(),
        ensures
            final(self).well_formed(),
            final(self).closed_view(),
            request_ids(r@) == old(self).pending_view().map_values(|p: PendingView| p.0),
            final(self).pending_view().len() == 0,
            final(self).coalesced_view().len() == 0,
            final(self).polls_view().len() == 0,
            final(self).next_view() == old(self).next_view(),
            final(self).generation_view() == old(self).generation_view(),
            final(self).overflow_reported_view() == old(self).overflow_reported_view(),
            final(self).notifications_view() == old(self).notifications_view(),
            final(self).diagnostics_view() == old(self).diagnostics_view(),
    {
        let mut ids: Vec<RequestId> = Vec::new();
        let mut i: usize = 0;
        while i < self.pending.len()
            invariant
                i <= self.pending@.len(),
                request_ids(ids@) == self.pending_view().take(i as int).map_values(|p: PendingView| p.0),
            decreases self.pending@.len() - i,
        {
            let ghost before = ids@;
            ids.push(self.pending[i].id);
            assert(self.pending_view().take(i + 1) =~= self.pending_view().take(i as int).push(self.pending_view()[i as int]));
            assert(request_ids(ids@) =~= request_ids(before).push(self.pending_view()[i as int].0));
            assert(request_ids(ids@) =~= self.pending_view().take(i + 1).map_values(|p: PendingView| p.0));
            i += 1;
        }
        assert(self.pending_view().take(self.pending@.len() as int) =~= self.pending_view());
        self.closed = true;
        self.pending = Vec::new();
        self.coalesced = Vec::new();
        self.input_polls = Vec::new();
        assert(self.pending_view() =~= seq![]);
        assert(self.coalesced_view() =~= seq![]);
        assert(self.polls_view() =~= seq![]);
        ids
    }

    fn notification_to_drop(&self) -> (r: usize)
        requires
            self.notifications@.len() > 0,
        ensures
            r == first_non_error(self.notifications_view()),
            r < self.notifications@.len(),
    {
        let ghost q = self.notifications_view();
        let mut i: usize = 0;
        assert(q.skip(0) =~= q);
        while i < self.notifications.len()
            invariant
                i <= self.notifications@.len(),
                q == self.notifications_view(),
                q.len() == self.notifications@.len(),
                forall|j: int| 0 <= j < i ==> q[j].1.level == NotificationLevel::Error,
                first_non_error(q) == if exists|j: int| 0 <= j < q.len() && q[j].1.level != NotificationLevel::Error {
                    i + first_non_error(q.skip(i as int))
                } else {
                    0
                },
            decreases self.notifications@.len() - i,
        {
            assert(q.skip(i as int)[0] == q[i as int]);
            assert(q.skip(i as int).drop_first() =~= q.skip(i + 1));
            if self.notifications[i].1.level != NotificationLevel::Error {
                assert(q[i as int].1.level != NotificationLevel::Error);
                return i;
            }
            proof {
                if exists|j: int| 0 <= j < q.len() && q[j].1.level != NotificationLevel::Error {
                    let j = choose|j: int| 0 <= j < q.len() && q[j].1.level != NotificationLevel::Error;
                    assert(j > i);
                    assert(q.skip(i as int)[j - i] == q[j]);
                }
            }
            i += 1;
        }
        0
    }

    /// Queues a notification. When the queue is full the oldest notification
    /// that is not an error makes room (the oldest of all when every one is an
    /// error), and the first overflow since the queue last emptied is
    /// diagnosed.
    pub fn notify(&mut self, extension: ExtensionId, notification: Notification)
        requires
            old(self).well_formed(),
        ensures
            final(self).well_formed(),
            ({
                let q = old(self).notifications_view();
                let full = q.len() == NOTIFICATION_CAPACITY;
                &&& final(self).notifications_view() == (if full {
                    q.remove(first_non_error(q))
                } else {
                    q
                }).push((extension.0@, notification))
                &&& final(self).diagnostics_view() == if full && !old(self).overflow_reported_view() {
                    old(self).diagnostics_view().push(UiDiagnostic::NotificationsOverflowed)
                } else {
                    old(self).diagnostics_view()
                }
                &&& final(self).overflow_reported_view() == (full || old(self).overflow_reported_view())
            }),
            final(self).pending_view() == old(self).pending_view(),
            final(self).coalesced_view() == old(self).coalesced_view(),
            final(self).polls_view() == old(self).polls_view(),
            final(self).next_view() == old(self).next_view(),
            final(self).generation_view() == old(self).generation_view(),
            final(self).closed_view() == old(self).closed_view(),
    {
        let ghost q = self.notifications_view();
        if self.notifications.len() == NOTIFICATION_CAPACITY {
            let position = self.notification_to_drop();
            self.notifications.remove(position);
            assert(self.notifications_view() =~= q.remove(position as int));
            if !self.overflow_reported {
                self.diagnostics.push(UiDiagnostic::NotificationsOverflowed);
                self.overflow_reported = true;
            }
        }
        let ghost mid = self.notifications_view();
        self.notifications.push((extension, notification));
        assert(self.notifications_view() =~= mid.push((extension.0@, notification)));
        proof {
            lemma_wf_frame(*old(self), *self);
        }
    }

    /// The oldest notification; taking the last one ends an overflow.
    pub fn take_notification(&mut self) -> (r: Option<(ExtensionId, Notification)>)
        requires
            old(self).well_formed(),
        ensures
            final(self).well_formed(),
            old(self).notifications_view().len() == 0 ==> r is None && final(self).notifications_view()
                == old(self).notifications_view(),
            old(self).notifications_view().len() > 0 ==> (r matches Some((e, n)) && (e.0@, n)
                == old(self).notifications_view()[0]) && final(self).notifications_view()
                == old(self).notifications_view().drop_first(),
            final(self).overflow_reported_view() == (old(self).notifications_view().len() > 1
                && old(self).overflow_reported_view()),
            final(self).diagnostics_view() == old(self).diagnostics_view(),
            final(self).pending_view() == old(self).pending_view(),
            final(self).coalesced_view() == old(self).coalesced_view(),
            final(self).polls_view() == old(self).polls_view(),
            final(self).next_view() == old(self).next_view(),
            final(self).generation_view() == old(self).generation_view(),
            final(self).closed_view() == old(self).closed_view(),
    {
        let ghost q = self.notifications_view();
        let item = if self.notifications.len() > 0 {
            let first = self.notifications.remove(0);
            assert(self.notifications_view() =~= q.drop_first());
            Some(first)
        } else {
            None
        };
        if self.notifications.len() == 0 {
            self.overflow_reported = false;
        }
        proof {
            lemma_wf_frame(*old(self), *self);
        }
        item
    }

    /// Queues a poll for terminal input; only a pending request not already
    /// polling can poll.
    pub fn queue_input_poll(&mut self, request: RequestId) -> (r: bool)
        requires
            old(self).well_formed(),
        ensures
            final(self).well_formed(),
            r == (is_pending(old(self).pending_view(), request.0) && !old(self).polls_view().contains(
                request.0,
            )),
            r ==> final(self).polls_view() == old(self).polls_view().push(request.0),
            !r ==> final(self).polls_view() == old(self).polls_view(),
            final(self).pending_view() == old(self).pending_view(),
            final(self).coalesced_view() == old(self).coalesced_view(),
            final(self).notifications_view() == old(self).notifications_view(),
            final(self).diagnostics_view() == old(self).diagnostics_view(),
            final(self).overflow_reported_view() == old(self).overflow_reported_view(),
            final(self).next_view() == old(self).next_view(),
            final(self).generation_view() == old(self).generation_view(),
            final(self).closed_view() == old(self).closed_view(),
    {
        if self.pending_index(request).is_none() {
            proof {
                lemma_wf_frame(*old(self), *self);
            }
            return false;
        }
        let mut i: usize = 0;
        while i < self.input_polls.len()
            invariant
                i <= self.input_polls@.len(),
                old(self).well_formed(),
                *self == *old(self),
                forall|j: int| 0 <= j < i ==> self.polls_view()[j] != request.0,
            decreases self.input_polls@.len() - i,
        {
            if self.input_polls[i].0 == request.0 {
                assert(self.polls_view()[i as int] == request.0);
                proof {
                    lemma_wf_frame(*old(self), *self);
                }
                return false;
            }
            i += 1;
        }
        let ghost before = self.polls_view();
        self.input_polls.push(request);
        assert(self.polls_view() =~= before.push(request.0));
        proof {
            assert forall|i: int| 0 <= i < self.polls_view().len() implies is_pending(
                self.pending_view(),
                #[trigger] self.polls_view()[i],
            ) by {
                if i < before.len() {
                    assert(self.polls_view()[i] == old(self).polls_view()[i]);
                    assert(is_pending(old(self).pending_view(), old(self).polls_view()[i]));
                }
            }
            assert forall|i: int| 0 <= i < self.coalesced_view().len() implies is_pending(
                self.pending_view(),
                #[trigger] self.coalesced_view()[i].2,
            ) by {
                assert(is_pending(old(self).pending_view(), old(self).coalesced_view()[i].2));
            }
        }
        true
    }

    /// The most recent input poll, which an input event answers: it is
    /// settled and returned.
    pub fn take_input_poll(&mut self) -> (r: Option<RequestId>)
        requires
            old(self).well_formed(),
        ensures
            final(self).well_formed(),
            old(self).polls_view().len() == 0 ==> r is None && final(self).polls_view() == old(self).polls_view()
                && final(self).pending_view() == old(self).pending_view() && final(self).coalesced_view()
                == old(self).coalesced_view(),
            old(self).polls_view().len() > 0 ==> ({
                let last = old(self).polls_view().last();
                &&& r == Some(RequestId(last))
                &&& final(self).pending_view() == old(self).pending_view().filter(not_id(last))
                &&& final(self).coalesced_view() == old(self).coalesced_view().filter(not_coalesced_id(last))
                &&& final(self).polls_view() == old(self).polls_view().drop_last().filter(not_poll(last))
            }),
            final(self).notifications_view() == old(self).notifications_view(),
            final(self).diagnostics_view() == old(self).diagnostics_view(),
            final(self).overflow_reported_view() == old(self).overflow_reported_view(),
            final(self).next_view() == old(self).next_view(),
            final(self).generation_view() == old(self).generation_view(),
            final(self).closed_view() == old(self).closed_view(),
    {
        match self.input_polls.pop() {
            Some(request) => {
                proof {
                    let n = old(self).polls_view().len();
                    assert(old(self).polls_view()[n - 1] == old(self).polls_view().last());
                    assert(is_pending(old(self).pending_view(), old(self).polls_view()[n - 1]));
                    assert(self.polls_view() =~= old(self).polls_view().drop_last());
                    assert forall|i: int| 0 <= i < self.polls_view().len() implies is_pending(
                        self.pending_view(),
                        #[trigger] self.polls_view()[i],
                    ) by {
                        assert(self.polls_view()[i] == old(self).polls_view()[i]);
                        assert(is_pending(old(self).pending_view(), old(self).polls_view()[i]));
                    }
                    assert forall|i: int| 0 <= i < self.coalesced_view().len() implies is_pending(
                        self.pending_view(),
                        #[trigger] self.coalesced_view()[i].2,
                    ) by {
                        assert(is_pending(old(self).pending_view(), old(self).coalesced_view()[i].2));
                    }
                }
                let settled = self.complete(request);
                Some(request)
            },
            None => {
                proof {
                    lemma_wf_frame(*old(self), *self);
                }
                None
            },
        }
    }

    /// Handles issued before now become stale.
    pub fn invalidate_handles(&mut self)
        requires
            old(self).well_formed(),
            old(self).generation_view() < u64::MAX,
        ensures
            final(self).well_formed(),
            final(self).generation_view() == old(self).generation_view() + 1,
            final(self).pending_view() == old(self).pending_view(),
            final(self).coalesced_view() == old(self).coalesced_view(),
            final(self).polls_view() == old(self).polls_view(),
            final(self).notifications_view() == old(self).notifications_view(),
            final(self).diagnostics_view() == old(self).diagnostics_view(),
            final(self).overflow_reported_view() == old(self).overflow_reported_view(),
            final(self).next_view() == old(self).next_view(),
            final(self).closed_view() == old(self).closed_view(),
    {
        self.generation = self.generation + 1;
        proof {
            lemma_wf_frame(*old(self), *self);
        }
    }

    /// Records that a raw input subscriber fell behind and was dropped.
    pub fn report_disabled_subscriber(&mut self, id: u64)
        ensures
            final(self).diagnostics_view() == old(self).diagnostics_view().push(
                UiDiagnostic::RawInputSubscriberDisabled(id),
            ),
            old(self).well_formed() ==> final(self).well_formed(),
            final(self).pending_view() == old(self).pending_view(),
            final(self).coalesced_view() == old(self).coalesced_view(),
            final(self).polls_view() == old(self).polls_view(),
            final(self).notifications_view() == old(self).notifications_view(),
            final(self).overflow_reported_view() == old(self).overflow_reported_view(),
            final(self).next_view() == old(self).next_view(),
            final(self).generation_view() == old(self).generation_view(),
            final(self).closed_view() == old(self).closed_view(),
    {
        self.diagnostics.push(UiDiagnostic::RawInputSubscriberDisabled(id));
        proof {
            if old(self).well_formed() {
                lemma_wf_frame(*old(self), *self);
            }
        }
    }

    /// The oldest diagnostic.
    pub fn take_diagnostic(&mut self) -> (r: Option<UiDiagnostic>)
        ensures
            old(self).diagnostics_view().len() == 0 ==> r is None && final(self).diagnostics_view()
                == old(self).diagnostics_view(),
            old(self).diagnostics_view().len() > 0 ==> r == Some(old(self).diagnostics_view()[0])
                && final(self).diagnostics_view() == old(self).diagnostics_view().drop_first(),
            old(self).well_formed() ==> final(self).well_formed(),
            final(self).pending_view() == old(self).pending_view(),
            final(self).coalesced_view() == old(self).coalesced_view(),
            final(self).polls_view() == old(self).polls_view(),
            final(self).notifications_view() == old(self).notifications_view(),
            final(self).overflow_reported_view() == old(self).overflow_reported_view(),
            final(self).next_view() == old(self).next_view(),
            final(self).generation_view() == old(self).generation_view(),
            final(self).closed_view() == old(self).closed_view(),
    {
        let r = if self.diagnostics.len() > 0 {
            let d = self.diagnostics.remove(0);
            assert(self.diagnostics@ =~= old(self).diagnostics@.drop_first());
            Some(d)
        } else {
            None
        };
        proof {
            if old(self).well_formed() {
                lemma_wf_frame(*old(self), *self);
            }
        }
        r
    }
}

/// How the frontend answers an envelope it does not handle itself: a failure
/// for another major protocol version, a stale handle for an earlier
/// generation, its capabilities when asked, and otherwise an
/// acknowledgement, or the reason the operation is unsupported.
pub open spec fn is_default_reply(
    generation: u64,
    capabilities: UiCapabilities,
    envelope: UiEnvelope,
    r: UiReply,
) -> bool {
    if envelope.version.major != capabilities.protocol_view().major {
        r matches UiReply::Failed(m) && m@ == "unsupported UI protocol major "@ + crate::text::decimal(
            envelope.version.major as nat,
        )
    } else if envelope.generation.0 != generation {
        r == UiReply::StaleHandle
    } else if envelope.operation is Capabilities {
        r matches UiReply::Capabilities(c) && c.protocol_view() == capabilities.protocol_view() && c.well_formed()
            == capabilities.well_formed() && forall|k: UiOperationKind| c.level(k) == capabilities.level(k)
    } else if envelope.operation is Unknown {
        r matches UiReply::Unsupported { operation, reason } && operation == UiOperationKind::Unknown
            && reason@ == "unknown operation"@
    } else {
        let kind = spec_kind(envelope.operation);
        match capabilities.level(kind) {
            Some(SupportLevel::Unsupported(reason)) => r == UiReply::Unsupported { operation: kind, reason },
            Some(_) => r == UiReply::Ack,
            None => r matches UiReply::Unsupported { operation, reason } && operation == kind && reason@
                == "unknown operation"@,
        }
    }
}

impl BrokerState {
    /// How the frontend answers an envelope it does not handle itself.
    pub fn default_reply(&self, capabilities: &UiCapabilities, envelope: &UiEnvelope) -> (r: UiReply)
        ensures
            is_default_reply(self.generation_view(), *capabilities, *envelope, r),
    {
        if envelope.version.major != capabilities.protocol().major {
            let mut m = String::from_str("unsupported UI protocol major ");
            push_str(&mut m, crate::text::usize_to_decimal(envelope.version.major as usize).as_str());
            return UiReply::Failed(m);
        }
        if envelope.generation.0 != self.generation {
            return UiReply::StaleHandle;
        }
        match &envelope.operation {
            UiOperation::Capabilities => {
                return UiReply::Capabilities(capabilities.copy());
            },
            UiOperation::Unknown(_) => {
                return UiReply::Unsupported {
                    operation: UiOperationKind::Unknown,
                    reason: String::from_str("unknown operation"),
                };
            },
            _ => {},
        }
        match supported(capabilities, envelope.operation.kind()) {
            Ok(()) => UiReply::Ack,
            Err(reply) => reply,
        }
    }
}

/// A settled request is no longer pending: a second reply to it, or a reply
/// after its timeout or cancellation, finds nothing to settle.
pub proof fn law_settled_request_stays_settled(pending: Seq<PendingView>, id: u64)
    ensures
        !is_pending(pending.filter(not_id(id)), id),
{
    if is_pending(pending.filter(not_id(id)), id) {
        let i = choose|i: int| 0 <= i < pending.filter(not_id(id)).len() && pending.filter(not_id(id))[i].0 == id;
        pending.lemma_filter_pred(not_id(id), i);
    }
}

/// While an extension's dialog is pending, that extension cannot open
/// another: the dialog just registered makes the next one busy.
pub proof fn law_one_dialog_per_extension(pending: Seq<PendingView>, id: u64, extension: Seq<char>)
    ensures
        has_modal(pending.push((id, extension, true)), extension),
{
    assert(pending.push((id, extension, true))[pending.len() as int] == (id, extension, true));
}

/// A request superseded under the same coalescing key is settled: once the
/// newer request is registered the older one is no longer pending, and the key
/// maps to the newer one.
pub proof fn law_superseded_request_settled(
    pending: Seq<PendingView>,
    coalesced: Seq<CoalescedView>,
    old_id: u64,
    new_pending: PendingView,
    extension: Seq<char>,
    key: Seq<char>,
)
    requires
        new_pending.0 != old_id,
    ensures
        !is_pending(pending.filter(not_id(old_id)).push(new_pending), old_id),
        coalesced_index(coalesced.filter(not_coalesced_id(old_id)).push((extension, key, new_pending.0)), extension, key)
            matches Some(i) ==> coalesced.filter(not_coalesced_id(old_id)).push((extension, key, new_pending.0))[i].2
            != old_id,
{
    law_settled_request_stays_settled(pending, old_id);
    let p = pending.filter(not_id(old_id)).push(new_pending);
    if is_pending(p, old_id) {
        let i = choose|i: int| 0 <= i < p.len() && p[i].0 == old_id;
        if i < p.len() - 1 {
            assert(p[i] == pending.filter(not_id(old_id))[i]);
        }
    }
    let c = coalesced.filter(not_coalesced_id(old_id)).push((extension, key, new_pending.0));
    lemma_coalesced_index(c, extension, key);
    if let Some(i) = coalesced_index(c, extension, key) {
        if i < c.len() - 1 {
            assert(c[i] == coalesced.filter(not_coalesced_id(old_id))[i]);
            coalesced.lemma_filter_pred(not_coalesced_id(old_id), i);
        }
    }
}

} // verus!
