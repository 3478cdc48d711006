//! Reassembly of fragmented messages.

use vstd::prelude::*;
use bytes::Bytes;
use core::time::Duration;
use crate::packet::{FragmentData, MessageId, Tick, FRAGMENT_SIZE, MAX_FRAGMENTS};
use crate::platform::{
    bytes_as_slice, bytes_contents, bytes_from_vec, constructor_map_contents, constructor_map_entry,
    constructor_map_new, constructor_map_remove, constructor_map_retain_after, duration_as_nanos,
    duration_nanos, ConstructorMap,
};

verus! {

/// What a constructor holds: for each fragment index, the fragment received there (if
/// any), together with the tick of the message, the time given with the latest
/// reception (valid or not), and whether the reassembled payload was handed out.
pub struct ConstructorView {
    pub num_fragments: nat,
    pub tick: Tick,
    pub last_received: Option<Duration>,
    pub slots: Seq<Option<Seq<u8>>>,
    pub delivered: bool,
}

/// The state of a constructor for a message of `num_fragments` fragments that has
/// received nothing yet.
pub open spec fn fresh_view(tick: Tick, num_fragments: nat) -> ConstructorView {
    ConstructorView {
        num_fragments,
        tick,
        last_received: None,
        slots: Seq::new(num_fragments, |i: int| None),
        delivered: false,
    }
}

/// Every fragment has been received.
pub open spec fn all_filled(slots: Seq<Option<Seq<u8>>>) -> bool {
    forall|i: int| 0 <= i < slots.len() ==> #[trigger] slots[i] is Some
}

/// The number of fragments received.
pub open spec fn filled_count(slots: Seq<Option<Seq<u8>>>) -> nat
    decreases slots.len(),
{
    if slots.len() == 0 {
        0
    } else {
        filled_count(slots.drop_last()) + if slots.last() is Some { 1nat } else { 0nat }
    }
}

/// The received fragments, concatenated in index order.
pub open spec fn assembled(slots: Seq<Option<Seq<u8>>>) -> Seq<u8>
    decreases slots.len(),
{
    if slots.len() == 0 {
        Seq::empty()
    } else {
        assembled(slots.drop_last()) + match slots.last() {
            Some(d) => d,
            None => Seq::empty(),
        }
    }
}

/// A fragment of `len` bytes at `index` fits a message of `num_fragments` fragments:
/// every fragment but the last is exactly `FRAGMENT_SIZE` bytes long, the last one at
/// most that.
pub open spec fn fragment_fits(num_fragments: nat, index: int, len: nat) -> bool {
    &&& 0 <= index < num_fragments
    &&& len <= FRAGMENT_SIZE
    &&& (index != num_fragments - 1 ==> len == FRAGMENT_SIZE)
}

impl ConstructorView {
    /// The effect of receiving `data` as fragment `index` at `time`: the result is the
    /// next state and, once every fragment is in, the tick of the message with its
    /// payload (empty if the payload was handed out before).
    pub open spec fn step(self, index: int, data: Seq<u8>, time: Option<Duration>) -> (
        ConstructorView,
        Option<(Tick, Seq<u8>)>,
    ) {
        let timed = ConstructorView { last_received: time, ..self };
        if !fragment_fits(self.num_fragments, index, data.len()) {
            (timed, None)
        } else {
            let filled = if self.slots[index] is None {
                ConstructorView { slots: self.slots.update(index, Some(data)), ..timed }
            } else {
                timed
            };
            if all_filled(filled.slots) {
                let payload = if self.delivered {
                    Seq::empty()
                } else {
                    assembled(filled.slots)
                };
                (ConstructorView { delivered: true, ..filled }, Some((self.tick, payload)))
            } else {
                (filled, None)
            }
        }
    }

    /// Whether a cleanup at `cleanup_time` keeps this message: its latest reception
    /// carried no time, or came at or after `cleanup_time`.
    pub open spec fn kept_after(self, cleanup_time: Duration) -> bool {
        match self.last_received {
            None => true,
            Some(t) => duration_nanos(t) >= duration_nanos(cleanup_time),
        }
    }
}

/// The view of a reassembly result: the tick and the payload's bytes.
pub open spec fn payload_view(r: Option<(Tick, Bytes)>) -> Option<(Tick, Seq<u8>)> {
    match r {
        Some((t, b)) => Some((t, bytes_contents(b))),
        None => None,
    }
}

/// Data structure to reconstruct a single fragmented message from individual fragments.
pub struct FragmentConstructor {
    num_fragments: usize,
    num_received_fragments: usize,
    received: Vec<bool>,
    bytes: Vec<u8>,
    tick: Tick,
    last_received: Option<Duration>,
    slots: Ghost<Seq<Option<Seq<u8>>>>,
    delivered: Ghost<bool>,
}

impl View for FragmentConstructor {
    type V = ConstructorView;

    closed spec fn view(&self) -> ConstructorView {
        ConstructorView {
            num_fragments: self.num_fragments as nat,
            tick: self.tick,
            last_received: self.last_received,
            slots: self.slots@,
            delivered: self.delivered@,
        }
    }
}

impl Clone for FragmentConstructor {
    /// A copy holding the same fragments, flags, buffer, tick and time.
    fn clone(&self) -> (r: Self)
        ensures
            r@ == self@,
            r.buffer() == self.buffer(),
            r.received_flags() == self.received_flags(),
            self.wf() ==> r.wf(),
    {
        let r = FragmentConstructor {
            num_fragments: self.num_fragments,
            num_received_fragments: self.num_received_fragments,
            received: self.received.clone(),
            bytes: self.bytes.clone(),
            tick: self.tick,
            last_received: self.last_received,
            slots: self.slots,
            delivered: self.delivered,
        };
        assert(r.received@ =~= self.received@);
        assert(r.bytes@ =~= self.bytes@);
        r
    }
}

impl FragmentConstructor {
    /// The reassembly buffer: `FRAGMENT_SIZE` bytes per fragment, cut to the end of the
    /// last one once it arrived, and empty once the payload was handed out.
    pub closed spec fn buffer(self) -> Seq<u8> {
        self.bytes@
    }

    /// One flag per fragment: whether it was received.
    pub closed spec fn received_flags(self) -> Seq<bool> {
        self.received@
    }

    /// A well-formed constructor holds one flag per fragment and at most
    /// `FRAGMENT_SIZE` buffer bytes per fragment.
    pub proof fn lemma_memory(self)
        requires
            self.wf(),
        ensures
            self.received_flags().len() == self@.num_fragments,
            self.buffer().len() <= self@.num_fragments * FRAGMENT_SIZE,
    {
        let n = self.num_fragments as int;
        if !self.delivered@ && n > 0 {
            let s = self.slots@;
            if s[n - 1] is Some {
                assert(fragment_fits(n as nat, n - 1, s[n - 1]->0.len()));
            }
        }
    }

    /// The buffer holds every received fragment at its offset, and is sized for a
    /// missing last fragment or cut to the end of the received one.
    closed spec fn layout_ok(self) -> bool {
        let n = self.num_fragments as int;
        let s = self.slots@;
        &&& forall|i: int|
            #![trigger s[i]]
            0 <= i < n && s[i] is Some ==> {
                let d = s[i]->0;
                &&& i * FRAGMENT_SIZE + d.len() <= self.bytes@.len()
                &&& self.bytes@.subrange(i * FRAGMENT_SIZE, i * FRAGMENT_SIZE + d.len()) == d
            }
        &&& n > 0 ==> self.bytes@.len() == match s[n - 1] {
            Some(d) => (n - 1) * FRAGMENT_SIZE + d.len(),
            None => n * FRAGMENT_SIZE,
        }
        &&& n == 0 ==> self.bytes@.len() == 0
    }

    /// Well-formedness of a constructor.
    pub closed spec fn wf(self) -> bool {
        let n = self.num_fragments as int;
        let s = self.slots@;
        &&& n * FRAGMENT_SIZE <= usize::MAX
        &&& s.len() == n
        &&& self.received@.len() == n
        &&& forall|i: int| 0 <= i < n ==> (#[trigger] self.received@[i] <==> s[i] is Some)
        &&& forall|i: int|
            #![trigger s[i]]
            0 <= i < n && s[i] is Some ==> fragment_fits(n as nat, i, s[i]->0.len())
        &&& self.num_received_fragments == filled_count(s)
        &&& if self.delivered@ {
            all_filled(s) && self.bytes@.len() == 0
        } else {
            self.layout_ok()
        }
    }

    /// A constructor for a message of `num_fragments` fragments sent at `tick`, with a
    /// buffer of `num_fragments * FRAGMENT_SIZE` bytes.
    pub fn new(tick: Tick, num_fragments: usize) -> (r: Self)
        requires
            num_fragments * FRAGMENT_SIZE <= usize::MAX,
        ensures
            r.wf(),
            r@ == fresh_view(tick, num_fragments as nat),
            r.received_flags() == Seq::new(num_fragments as nat, |i: int| false),
            r.buffer() == Seq::new((num_fragments * FRAGMENT_SIZE) as nat, |i: int| 0u8),
    {
        let r = Self {
            num_fragments,
            num_received_fragments: 0,
            received: vec![false; num_fragments],
            bytes: vec![0; num_fragments * FRAGMENT_SIZE],
            tick,
            last_received: None,
            slots: Ghost(Seq::new(num_fragments as nat, |i: int| None)),
            delivered: Ghost(false),
        };
        proof {
            lemma_filled_count_none(r.slots@);
            assert(r.received@ =~= Seq::new(num_fragments as nat, |i: int| false));
            assert(r.bytes@ =~= Seq::new((num_fragments * FRAGMENT_SIZE) as nat, |i: int| 0u8));
        }
        r
    }

    /// Whether a cleanup at `cleanup_time` keeps this message: its latest reception
    /// carried no time, or came at or after `cleanup_time`.
    pub(crate) fn received_after(&self, cleanup_time: &Duration) -> (r: bool)
        ensures
            r == self@.kept_after(*cleanup_time),
    {
        match &self.last_received {
            Some(t) => duration_as_nanos(t) >= duration_as_nanos(cleanup_time),
            None => true,
        }
    }

    /// Receives `bytes` as fragment `fragment_index`, at `received_time`.
    ///
    /// A fragment outside the message, longer than `FRAGMENT_SIZE`, or (unless it is the
    /// last one) shorter than that is dropped; a fragment received before is ignored.
    /// Once every fragment is in, returns the tick of the message and its payload: the
    /// fragments concatenated in index order (empty once it has been handed out).
    pub fn receive_fragment(
        &mut self,
        fragment_index: usize,
        bytes: &[u8],
        received_time: Option<Duration>,
    ) -> (r: Option<(Tick, Bytes)>)
        requires
            old(self).wf(),
        ensures
            final(self).wf(),
            final(self).buffer().len() <= final(self)@.num_fragments * FRAGMENT_SIZE,
            final(self).received_flags() == Seq::new(
                final(self)@.num_fragments,
                |i: int| final(self)@.slots[i] is Some,
            ),
            !fragment_fits(old(self)@.num_fragments, fragment_index as int, bytes@.len())
                ==> final(self).buffer() == old(self).buffer(),
            (final(self)@, payload_view(r)) == old(self)@.step(
                fragment_index as int,
                bytes@,
                received_time,
            ),
    {
        let ghost pre = *self;
        self.last_received = received_time;
        if fragment_index >= self.num_fragments {
            return None;
        }
        let is_last_fragment = fragment_index == self.num_fragments - 1;
        if bytes.len() > FRAGMENT_SIZE || (!is_last_fragment && bytes.len() != FRAGMENT_SIZE) {
            return None;
        }
        if !self.received[fragment_index] {
            let ghost i = fragment_index as int;
            let ghost data = bytes@;
            proof {
                lemma_filled_count_update(self.slots@, i, data);
                lemma_filled_count_bound(self.slots@);
            }
            self.received.set(fragment_index, true);
            self.num_received_fragments = self.num_received_fragments + 1;
            if is_last_fragment {
                let len = (self.num_fragments - 1) * FRAGMENT_SIZE + bytes.len();
                self.bytes.resize(len, 0);
            }
            let start = fragment_index * FRAGMENT_SIZE;
            let ghost before_copy = self.bytes@;
            let ghost mid = *self;
            let mut j: usize = 0;
            while j < bytes.len()
                invariant
                    self.num_fragments == mid.num_fragments,
                    self.num_received_fragments == mid.num_received_fragments,
                    self.received == mid.received,
                    self.tick == mid.tick,
                    self.last_received == mid.last_received,
                    self.slots == mid.slots,
                    self.delivered == mid.delivered,
                    start + bytes.len() <= usize::MAX,
                    j <= bytes.len(),
                    start == i * FRAGMENT_SIZE,
                    start + bytes.len() <= self.bytes@.len(),
                    self.bytes@.len() == before_copy.len(),
                    forall|k: int| 0 <= k < start ==> self.bytes@[k] == before_copy[k],
                    forall|k: int|
                        start + bytes.len() <= k < before_copy.len() ==> self.bytes@[k]
                            == before_copy[k],
                    forall|k: int| 0 <= k < j ==> self.bytes@[start + k] == bytes@[k],
                decreases bytes.len() - j,
            {
                self.bytes.set(start + j, bytes[j]);
                j = j + 1;
            }
            proof {
                self.slots@ = self.slots@.update(i, Some(data));
                assert(self.bytes@.subrange(start as int, start + data.len()) =~= data);
                self.lemma_layout_after_copy(pre, i, data, before_copy);
            }
        }
        if self.num_received_fragments == self.num_fragments {
            proof {
                lemma_filled_count_bound(self.slots@);
                if !self.delivered@ {
                    self.lemma_assembled();
                }
            }
            let mut payload: Vec<u8> = Vec::new();
            core::mem::swap(&mut payload, &mut self.bytes);
            proof {
                self.delivered@ = true;
            }
            return Some((self.tick, bytes_from_vec(payload)));
        }
        proof {
            lemma_filled_count_bound(self.slots@);
        }
        None
    }
}

impl FragmentConstructor {
    /// Copying a newly received fragment into the buffer keeps every fragment at its
    /// offset.
    proof fn lemma_layout_after_copy(self, pre: Self, i: int, data: Seq<u8>, before_copy: Seq<u8>)
        requires
            pre.wf(),
            !pre.delivered@,
            self.num_fragments == pre.num_fragments,
            0 <= i < pre.num_fragments,
            pre.slots@[i] is None,
            self.slots@ == pre.slots@.update(i, Some(data)),
            fragment_fits(pre.num_fragments as nat, i, data.len()),
            i == pre.num_fragments - 1 ==> before_copy == pre.bytes@.subrange(
                0,
                (pre.num_fragments - 1) * FRAGMENT_SIZE + data.len(),
            ),
            i != pre.num_fragments - 1 ==> before_copy == pre.bytes@,
            self.bytes@.len() == before_copy.len(),
            i * FRAGMENT_SIZE + data.len() <= before_copy.len(),
            forall|k: int| 0 <= k < i * FRAGMENT_SIZE ==> self.bytes@[k] == before_copy[k],
            forall|k: int|
                i * FRAGMENT_SIZE + data.len() <= k < before_copy.len() ==> self.bytes@[k]
                    == before_copy[k],
            self.bytes@.subrange(i * FRAGMENT_SIZE, i * FRAGMENT_SIZE + data.len()) == data,
        ensures
            self.layout_ok(),
    {
        let n = pre.num_fragments as int;
        let s = self.slots@;
        let ps = pre.slots@;
        assert forall|j: int|
            #![trigger s[j]]
            0 <= j < n && s[j] is Some implies {
                let d = s[j]->0;
                &&& j * FRAGMENT_SIZE + d.len() <= self.bytes@.len()
                &&& self.bytes@.subrange(j * FRAGMENT_SIZE, j * FRAGMENT_SIZE + d.len()) == d
            } by {
            if j != i {
                let d = ps[j]->0;
                assert(ps[j] is Some);
                assert(fragment_fits(n as nat, j, d.len()));
                if j < i {
                    assert(j * FRAGMENT_SIZE + d.len() <= i * FRAGMENT_SIZE);
                } else {
                    assert(i * FRAGMENT_SIZE + data.len() <= j * FRAGMENT_SIZE);
                }
                assert(j * FRAGMENT_SIZE + d.len() <= before_copy.len());
                assert(self.bytes@.subrange(j * FRAGMENT_SIZE, j * FRAGMENT_SIZE + d.len()) =~= d)
                    by {
                    assert forall|k: int| 0 <= k < d.len() implies self.bytes@[j * FRAGMENT_SIZE
                        + k] == d[k] by {
                        let at = j * FRAGMENT_SIZE + k;
                        assert(pre.bytes@.subrange(j * FRAGMENT_SIZE, j * FRAGMENT_SIZE + d.len())[k]
                            == d[k]);
                        assert(pre.bytes@[at] == d[k]);
                        assert(at < i * FRAGMENT_SIZE || i * FRAGMENT_SIZE + data.len() <= at);
                        assert(before_copy[at] == pre.bytes@[at]);
                        assert(self.bytes@[at] == before_copy[at]);
                    }
                }
            }
        }
    }

    /// A complete buffer holds the fragments concatenated in index order.
    proof fn lemma_assembled(self)
        requires
            self.num_fragments > 0,
            self.slots@.len() == self.num_fragments,
            all_filled(self.slots@),
            forall|i: int|
                #![trigger self.slots@[i]]
                0 <= i < self.num_fragments && self.slots@[i] is Some ==> fragment_fits(
                    self.num_fragments as nat,
                    i,
                    self.slots@[i]->0.len(),
                ),
            self.layout_ok(),
        ensures
            self.bytes@ == assembled(self.slots@),
    {
        let n = self.num_fragments as int;
        let s = self.slots@;
        let b = self.bytes@;
        assert(s[n - 1] is Some);
        let last = s[n - 1]->0;
        assert forall|i: int| 0 <= i < n - 1 implies #[trigger] s[i] is Some && s[i]->0.len()
            == FRAGMENT_SIZE && b.subrange(i * FRAGMENT_SIZE, (i + 1) * FRAGMENT_SIZE) == s[i]->0 by {
            assert(s[i] is Some);
            assert(fragment_fits(n as nat, i, s[i]->0.len()));
        }
        lemma_assembled_prefix(s, b, n - 1);
        assert(s.drop_last() =~= s.take(n - 1));
        assert(b =~= b.subrange(0, (n - 1) * FRAGMENT_SIZE) + last);
    }
}

/// The first `k` full-size fragments, laid out back to back, form the first
/// `k * FRAGMENT_SIZE` bytes of the buffer.
proof fn lemma_assembled_prefix(s: Seq<Option<Seq<u8>>>, b: Seq<u8>, k: int)
    requires
        0 <= k <= s.len(),
        k * FRAGMENT_SIZE <= b.len(),
        forall|i: int|
            0 <= i < k ==> #[trigger] s[i] is Some && s[i]->0.len() == FRAGMENT_SIZE && b.subrange(
                i * FRAGMENT_SIZE,
                (i + 1) * FRAGMENT_SIZE,
            ) == s[i]->0,
    ensures
        assembled(s.take(k)) == b.subrange(0, k * FRAGMENT_SIZE),
    decreases k,
{
    if k == 0 {
        assert(s.take(0) =~= Seq::<Option<Seq<u8>>>::empty());
        assert(b.subrange(0, 0) =~= Seq::<u8>::empty());
    } else {
        lemma_assembled_prefix(s, b, k - 1);
        assert(s.take(k).drop_last() =~= s.take(k - 1));
        assert(s[k - 1] is Some);
        assert(b.subrange(0, k * FRAGMENT_SIZE) =~= b.subrange(0, (k - 1) * FRAGMENT_SIZE)
            + b.subrange((k - 1) * FRAGMENT_SIZE, k * FRAGMENT_SIZE));
    }
}

/// Filling an empty slot adds one to the count.
proof fn lemma_filled_count_update(s: Seq<Option<Seq<u8>>>, i: int, d: Seq<u8>)
    requires
        0 <= i < s.len(),
        s[i] is None,
    ensures
        filled_count(s.update(i, Some(d))) == filled_count(s) + 1,
    decreases s.len(),
{
    let t = s.update(i, Some(d));
    if i == s.len() - 1 {
        assert(t.drop_last() =~= s.drop_last());
    } else {
        lemma_filled_count_update(s.drop_last(), i, d);
        assert(t.drop_last() =~= s.drop_last().update(i, Some(d)));
    }
}

/// The count never exceeds the number of slots, and reaches it exactly when every
/// slot is filled.
proof fn lemma_filled_count_bound(s: Seq<Option<Seq<u8>>>)
    ensures
        filled_count(s) <= s.len(),
        filled_count(s) == s.len() <==> all_filled(s),
    decreases s.len(),
{
    if s.len() > 0 {
        let p = s.drop_last();
        lemma_filled_count_bound(p);
        if all_filled(s) {
            assert forall|i: int| 0 <= i < p.len() implies #[trigger] p[i] is Some by {
                assert(s[i] is Some);
            }
        }
        if filled_count(s) == s.len() {
            assert forall|i: int| 0 <= i < s.len() implies #[trigger] s[i] is Some by {
                if i < p.len() {
                    assert(p[i] is Some);
                }
            }
        }
    }
}

/// A sequence of empty slots counts nothing.
proof fn lemma_filled_count_none(s: Seq<Option<Seq<u8>>>)
    requires
        forall|i: int| 0 <= i < s.len() ==> #[trigger] s[i] is None,
    ensures
        filled_count(s) == 0,
    decreases s.len(),
{
    if s.len() > 0 {
        lemma_filled_count_none(s.drop_last());
    }
}

/// The effect of receiving a fragment read off the wire on the partially reassembled
/// messages `m`: fragment `fragment_id` of `num_fragments` of message `key`, holding
/// `data`, sent at `tick` and received at `time`.
///
/// Metadata outside `1 <= num_fragments <= MAX_FRAGMENTS` and `fragment_id <
/// num_fragments` is dropped, and so is a fragment whose count disagrees with the one
/// the message was first seen with. Otherwise the fragment goes to the message's
/// constructor (a fresh one, tagged with `tick`, for a message not seen before); a
/// completed message leaves the map and its tick and payload are returned.
pub open spec fn receiver_step(
    m: Map<MessageId, ConstructorView>,
    key: MessageId,
    fragment_id: u64,
    num_fragments: u64,
    data: Seq<u8>,
    tick: Tick,
    time: Option<Duration>,
) -> (Map<MessageId, ConstructorView>, Option<(Tick, Seq<u8>)>) {
    if num_fragments == 0 || num_fragments > MAX_FRAGMENTS || fragment_id >= num_fragments {
        (m, None)
    } else {
        let c = if m.contains_key(key) {
            m[key]
        } else {
            fresh_view(tick, num_fragments as nat)
        };
        if c.num_fragments != num_fragments {
            (m, None)
        } else {
            let (next, out) = c.step(fragment_id as int, data, time);
            if out is Some {
                (m.remove(key), out)
            } else {
                (m.insert(key, next), None)
            }
        }
    }
}

/// The state of a constructor after the first `k` fragments of `order` have been
/// received, fragment `order[j]` holding `frags[order[j]]` and arriving at `times[j]`.
pub open spec fn state_after(
    start: ConstructorView,
    frags: Seq<Seq<u8>>,
    order: Seq<int>,
    times: Seq<Option<Duration>>,
    k: nat,
) -> ConstructorView
    decreases k,
{
    if k == 0 {
        start
    } else {
        let j = (k - 1) as nat;
        state_after(start, frags, order, times, j).step(order[j as int], frags[order[j as int]], times[j as int]).0
    }
}

/// What the `k`-th of those receptions returns (counting from 1).
pub open spec fn output_at(
    start: ConstructorView,
    frags: Seq<Seq<u8>>,
    order: Seq<int>,
    times: Seq<Option<Duration>>,
    k: nat,
) -> Option<(Tick, Seq<u8>)> {
    let j = (k - 1) as int;
    state_after(start, frags, order, times, (k - 1) as nat).step(order[j], frags[order[j]], times[j]).1
}

/// The fragments of a message concatenated in index order.
pub open spec fn concatenated(frags: Seq<Seq<u8>>) -> Seq<u8> {
    assembled(frags.map_values(|d: Seq<u8>| Some(d)))
}

/// Reassembly: when the `n` fragments of a message (each of the right size) reach a
/// fresh constructor once each, in any order and at any times, every reception but the
/// last returns nothing, and the last returns the tick the constructor was made with and
/// the fragments concatenated in index order.
pub proof fn law_reassembly(
    tick: Tick,
    frags: Seq<Seq<u8>>,
    order: Seq<int>,
    times: Seq<Option<Duration>>,
)
    requires
        frags.len() >= 1,
        forall|i: int|
            0 <= i < frags.len() ==> fragment_fits(frags.len(), i, #[trigger] frags[i].len()),
        order.len() == frags.len(),
        times.len() == frags.len(),
        order.no_duplicates(),
        forall|j: int| 0 <= j < order.len() ==> 0 <= #[trigger] order[j] < frags.len(),
    ensures
        forall|k: nat|
            1 <= k < frags.len() ==> #[trigger] output_at(
                fresh_view(tick, frags.len()),
                frags,
                order,
                times,
                k,
            ) is None,
        output_at(fresh_view(tick, frags.len()), frags, order, times, frags.len()) == Some(
            (tick, concatenated(frags)),
        ),
{
    let n = frags.len();
    let start = fresh_view(tick, n);
    assert forall|k: nat| 1 <= k < n implies #[trigger] output_at(start, frags, order, times, k) is None by {
        lemma_partial_delivery(tick, frags, order, times, k);
        let s = state_after(start, frags, order, times, k);
        lemma_filled_count_bound(s.slots);
    }
    lemma_partial_delivery(tick, frags, order, times, (n - 1) as nat);
    lemma_partial_delivery(tick, frags, order, times, n);
    let p = state_after(start, frags, order, times, (n - 1) as nat);
    let last = order[n - 1];
    let s = state_after(start, frags, order, times, n);
    assert(s == p.step(last, frags[last], times[n - 1]).0);
    assert(fragment_fits(n, last, frags[last].len()));
    lemma_filled_count_bound(s.slots);
    assert(s.slots =~= frags.map_values(|d: Seq<u8>| Some(d))) by {
        assert forall|i: int| 0 <= i < n implies s.slots[i] == Some(frags[i]) by {
            assert(s.slots[i] is Some);
        }
    }
    assert(all_filled(s.slots));
}

/// After `k` distinct fragments of a message reached a fresh constructor, exactly their
/// slots are filled, each with its fragment, and nothing was handed out.
proof fn lemma_partial_delivery(
    tick: Tick,
    frags: Seq<Seq<u8>>,
    order: Seq<int>,
    times: Seq<Option<Duration>>,
    k: nat,
)
    requires
        frags.len() >= 1,
        forall|i: int|
            0 <= i < frags.len() ==> fragment_fits(frags.len(), i, #[trigger] frags[i].len()),
        order.len() == frags.len(),
        times.len() == frags.len(),
        order.no_duplicates(),
        forall|j: int| 0 <= j < order.len() ==> 0 <= #[trigger] order[j] < frags.len(),
        k <= frags.len(),
    ensures
        ({
            let s = state_after(fresh_view(tick, frags.len()), frags, order, times, k);
            &&& s.num_fragments == frags.len()
            &&& s.tick == tick
            &&& s.slots.len() == frags.len()
            &&& k < frags.len() ==> !s.delivered
            &&& filled_count(s.slots) == k
            &&& forall|i: int|
                0 <= i < frags.len() ==> (#[trigger] s.slots[i] is Some <==> order.take(
                    k as int,
                ).contains(i))
            &&& forall|i: int|
                0 <= i < frags.len() && #[trigger] s.slots[i] is Some ==> s.slots[i] == Some(
                    frags[i],
                )
        }),
    decreases k,
{
    let n = frags.len();
    let start = fresh_view(tick, n);
    if k == 0 {
        lemma_filled_count_none(start.slots);
        assert(order.take(0) =~= Seq::<int>::empty());
    } else {
        let j = (k - 1) as nat;
        lemma_partial_delivery(tick, frags, order, times, j);
        let p = state_after(start, frags, order, times, j);
        let i = order[j as int];
        assert(order.take(k as int) =~= order.take(j as int).push(i));
        assert(!order.take(j as int).contains(i)) by {
            if order.take(j as int).contains(i) {
                let w = choose|w: int| 0 <= w < j && order.take(j as int)[w] == i;
                assert(order[w] == order[j as int]);
            }
        }
        assert(p.slots[i] is None);
        assert(fragment_fits(n, i, frags[i].len()));
        lemma_filled_count_update(p.slots, i, frags[i]);
        let t = p.slots.update(i, Some(frags[i]));
        lemma_filled_count_bound(t);
        let s = state_after(start, frags, order, times, k);
        assert(s.slots == t);
        assert forall|x: int| 0 <= x < n implies (#[trigger] s.slots[x] is Some <==> order.take(
            k as int,
        ).contains(x)) by {
            if x != i {
                assert(order.take(k as int).contains(x) <==> order.take(j as int).contains(x));
            } else {
                assert(order.take(k as int)[j as int] == i);
            }
        }
    }
}

/// The state of a constructor after the first `k` of a run of receptions, reception `j`
/// giving fragment `idx[j]` holding `data[j]` at `times[j]`; indices may repeat.
pub open spec fn state_after_calls(
    start: ConstructorView,
    idx: Seq<int>,
    data: Seq<Seq<u8>>,
    times: Seq<Option<Duration>>,
    k: nat,
) -> ConstructorView
    decreases k,
{
    if k == 0 {
        start
    } else {
        let j = k - 1;
        state_after_calls(start, idx, data, times, j as nat).step(idx[j], data[j], times[j]).0
    }
}

/// What the `k`-th of those receptions returns (counting from 1).
pub open spec fn output_of_call(
    start: ConstructorView,
    idx: Seq<int>,
    data: Seq<Seq<u8>>,
    times: Seq<Option<Duration>>,
    k: nat,
) -> Option<(Tick, Seq<u8>)> {
    let j = k - 1;
    state_after_calls(start, idx, data, times, j as nat).step(idx[j], data[j], times[j]).1
}

/// The bytes first given for fragment `i` within the first `k` receptions, if any.
pub open spec fn first_accepted(idx: Seq<int>, data: Seq<Seq<u8>>, i: int, k: nat) -> Option<
    Seq<u8>,
>
    decreases k,
{
    if k == 0 {
        None
    } else {
        match first_accepted(idx, data, i, (k - 1) as nat) {
            Some(d) => Some(d),
            None => if idx[k - 1] == i {
                Some(data[k - 1])
            } else {
                None
            },
        }
    }
}

/// Every fragment index below `n` was given within the first `k` receptions.
pub open spec fn covered(idx: Seq<int>, data: Seq<Seq<u8>>, n: nat, k: nat) -> bool {
    forall|i: int| 0 <= i < n ==> #[trigger] first_accepted(idx, data, i, k) is Some
}

/// Reassembly with repeated fragments: when receptions of correctly sized fragments of
/// an `n`-fragment message reach a fresh constructor, possibly giving an index more than
/// once, every reception before all indices are covered returns nothing, and the
/// reception that first covers them all returns the constructor's tick and, for each
/// index in order, the bytes first given for it, concatenated.
pub proof fn law_reassembly_with_repeats(
    tick: Tick,
    n: nat,
    idx: Seq<int>,
    data: Seq<Seq<u8>>,
    times: Seq<Option<Duration>>,
)
    requires
        n >= 1,
        idx.len() == data.len(),
        times.len() == data.len(),
        forall|j: int| 0 <= j < idx.len() ==> fragment_fits(n, #[trigger] idx[j], data[j].len()),
    ensures
        forall|k: nat|
            1 <= k <= idx.len() && !covered(idx, data, n, k) ==> #[trigger] output_of_call(
                fresh_view(tick, n),
                idx,
                data,
                times,
                k,
            ) is None,
        forall|k: nat|
            1 <= k <= idx.len() && covered(idx, data, n, k) && !covered(
                idx,
                data,
                n,
                (k - 1) as nat,
            ) ==> #[trigger] output_of_call(fresh_view(tick, n), idx, data, times, k) == Some(
                (tick, assembled(Seq::new(n, |i: int| first_accepted(idx, data, i, k)))),
            ),
{
    let start = fresh_view(tick, n);
    assert forall|k: nat|
        1 <= k <= idx.len() && !covered(idx, data, n, k) implies #[trigger] output_of_call(
        start,
        idx,
        data,
        times,
        k,
    ) is None by {
        lemma_calls(tick, n, idx, data, times, k);
        let s = state_after_calls(start, idx, data, times, k);
        let i = choose|i: int| 0 <= i < n && !(#[trigger] first_accepted(idx, data, i, k) is Some);
        assert(s.slots[i] is None);
    }
    assert forall|k: nat|
        1 <= k <= idx.len() && covered(idx, data, n, k) && !covered(
            idx,
            data,
            n,
            (k - 1) as nat,
        ) implies #[trigger] output_of_call(start, idx, data, times, k) == Some(
        (tick, assembled(Seq::new(n, |i: int| first_accepted(idx, data, i, k)))),
    ) by {
        lemma_calls(tick, n, idx, data, times, (k - 1) as nat);
        lemma_calls(tick, n, idx, data, times, k);
        let s = state_after_calls(start, idx, data, times, k);
        assert(all_filled(s.slots));
    }
}

/// After `k` receptions, each slot holds the bytes first given for it, and the payload
/// was handed out exactly when every index is covered.
proof fn lemma_calls(
    tick: Tick,
    n: nat,
    idx: Seq<int>,
    data: Seq<Seq<u8>>,
    times: Seq<Option<Duration>>,
    k: nat,
)
    requires
        n >= 1,
        idx.len() == data.len(),
        times.len() == data.len(),
        forall|j: int| 0 <= j < idx.len() ==> fragment_fits(n, #[trigger] idx[j], data[j].len()),
        k <= idx.len(),
    ensures
        ({
            let s = state_after_calls(fresh_view(tick, n), idx, data, times, k);
            &&& s.num_fragments == n
            &&& s.tick == tick
            &&& s.slots == Seq::new(n, |i: int| first_accepted(idx, data, i, k))
            &&& s.delivered == covered(idx, data, n, k)
            &&& s.delivered == all_filled(s.slots)
        }),
    decreases k,
{
    let start = fresh_view(tick, n);
    if k == 0 {
        assert(start.slots =~= Seq::new(n, |i: int| first_accepted(idx, data, i, 0)));
        assert(!covered(idx, data, n, 0)) by {
            assert(first_accepted(idx, data, 0, 0) is None);
        }
        assert(start.slots[0] is None);
    } else {
        let j = (k - 1) as nat;
        lemma_calls(tick, n, idx, data, times, j);
        let p = state_after_calls(start, idx, data, times, j);
        let s = state_after_calls(start, idx, data, times, k);
        let i0 = idx[j as int];
        assert(fragment_fits(n, i0, data[j as int].len()));
        assert(s.slots =~= Seq::new(n, |i: int| first_accepted(idx, data, i, k))) by {
            assert forall|i: int| 0 <= i < n implies s.slots[i] == first_accepted(
                idx,
                data,
                i,
                k,
            ) by {
                assert(p.slots[i] == first_accepted(idx, data, i, j));
            }
        }
        assert(all_filled(s.slots) == covered(idx, data, n, k)) by {
            if all_filled(s.slots) {
                assert forall|i: int| 0 <= i < n implies #[trigger] first_accepted(
                    idx,
                    data,
                    i,
                    k,
                ) is Some by {
                    assert(s.slots[i] is Some);
                }
            }
            if covered(idx, data, n, k) {
                assert forall|i: int| 0 <= i < s.slots.len() implies #[trigger] s.slots[i] is Some by {
                    assert(first_accepted(idx, data, i, k) is Some);
                }
            }
        }
        if p.delivered {
            assert forall|i: int| 0 <= i < n implies #[trigger] first_accepted(
                idx,
                data,
                i,
                k,
            ) is Some by {
                assert(first_accepted(idx, data, i, j) is Some);
            }
        }
    }
}

/// What one reception does to a constructor, over every input: its time becomes the
/// latest reception time whether or not the fragment is kept; the message's tick and
/// fragment count never change; a fragment that does not fit changes no slot and yields
/// nothing; a fitting fragment fills its slot if it was empty and leaves a filled slot
/// as it was; a payload comes out exactly when every slot is filled afterwards, tagged
/// with the message's tick.
pub proof fn law_step(v: ConstructorView, index: int, data: Seq<u8>, time: Option<Duration>)
    requires
        v.slots.len() == v.num_fragments,
    ensures
        v.step(index, data, time).0.last_received == time,
        v.step(index, data, time).0.tick == v.tick,
        v.step(index, data, time).0.num_fragments == v.num_fragments,
        !fragment_fits(v.num_fragments, index, data.len()) ==> v.step(index, data, time).0.slots
            == v.slots && v.step(index, data, time).1 is None,
        fragment_fits(v.num_fragments, index, data.len()) && v.slots[index] is None ==> v.step(
            index,
            data,
            time,
        ).0.slots == v.slots.update(index, Some(data)),
        fragment_fits(v.num_fragments, index, data.len()) && v.slots[index] is Some ==> v.step(
            index,
            data,
            time,
        ).0.slots == v.slots,
        fragment_fits(v.num_fragments, index, data.len()) ==> (v.step(index, data, time).1 is Some
            <==> all_filled(v.step(index, data, time).0.slots)),
        v.step(index, data, time).1 matches Some(out) ==> out.0 == v.tick,
{
}

/// Cleanup after a reception: a message whose latest reception came at `t` is kept by a
/// cleanup at `cleanup_time` exactly when `t` is not before `cleanup_time`, and always
/// when the reception carried no time, whatever came before.
pub proof fn law_cleanup_after_reception(
    v: ConstructorView,
    index: int,
    data: Seq<u8>,
    t: Duration,
    cleanup_time: Duration,
)
    ensures
        v.step(index, data, Some(t)).0.kept_after(cleanup_time) <==> duration_nanos(t)
            >= duration_nanos(cleanup_time),
        v.step(index, data, None).0.kept_after(cleanup_time),
{
}

/// What one fragment does to the messages in progress, over every input: other messages
/// are untouched; a message seen for the first time with valid metadata is tagged with
/// the tick sent with that fragment; a message that completes leaves the map, and its
/// payload comes out with the tick it was tagged with.
pub proof fn law_receiver_step(
    m: Map<MessageId, ConstructorView>,
    key: MessageId,
    fragment_id: u64,
    num_fragments: u64,
    data: Seq<u8>,
    tick: Tick,
    time: Option<Duration>,
    other: MessageId,
)
    requires
        other != key,
    ensures
        ({
            let (next, out) = receiver_step(m, key, fragment_id, num_fragments, data, tick, time);
            &&& next.contains_key(other) == m.contains_key(other)
            &&& m.contains_key(other) ==> next[other] == m[other]
            &&& out is Some ==> !next.contains_key(key)
            &&& (out is None && next.contains_key(key) && !m.contains_key(key)) ==> next[key].tick
                == tick
            &&& (out is Some && !m.contains_key(key)) ==> (out->0).0 == tick
            &&& (out is Some && m.contains_key(key)) ==> (out->0).0 == m[key].tick
        }),
{
}

/// Every message in progress expects between one and `MAX_FRAGMENTS` fragments, which
/// bounds the memory each may hold.
pub open spec fn in_progress_bounded(m: Map<MessageId, ConstructorView>) -> bool {
    forall|k: MessageId|
        #[trigger] m.contains_key(k) ==> 1 <= m[k].num_fragments <= MAX_FRAGMENTS
}

/// Memory bound: whatever a peer sends, every message in progress keeps expecting
/// between one and `MAX_FRAGMENTS` fragments.
pub proof fn law_receiver_stays_bounded(
    m: Map<MessageId, ConstructorView>,
    key: MessageId,
    fragment_id: u64,
    num_fragments: u64,
    data: Seq<u8>,
    tick: Tick,
    time: Option<Duration>,
)
    requires
        in_progress_bounded(m),
    ensures
        in_progress_bounded(
            receiver_step(m, key, fragment_id, num_fragments, data, tick, time).0,
        ),
{
}

/// Invalid metadata is dropped: a fragment count of zero or above `MAX_FRAGMENTS`, or a
/// fragment index at or past the count, leaves the messages in progress unchanged and
/// yields nothing.
pub proof fn law_invalid_metadata_dropped(
    m: Map<MessageId, ConstructorView>,
    key: MessageId,
    fragment_id: u64,
    num_fragments: u64,
    data: Seq<u8>,
    tick: Tick,
    time: Option<Duration>,
)
    requires
        num_fragments == 0 || num_fragments > MAX_FRAGMENTS || fragment_id >= num_fragments,
    ensures
        receiver_step(m, key, fragment_id, num_fragments, data, tick, time) == (m, None::<
            (Tick, Seq<u8>),
        >),
{
}

/// A fragment whose count disagrees with the count its message was first seen with
/// leaves the messages in progress unchanged and yields nothing.
pub proof fn law_mismatched_count_dropped(
    m: Map<MessageId, ConstructorView>,
    key: MessageId,
    fragment_id: u64,
    num_fragments: u64,
    data: Seq<u8>,
    tick: Tick,
    time: Option<Duration>,
)
    requires
        m.contains_key(key),
        m[key].num_fragments != num_fragments,
    ensures
        receiver_step(m, key, fragment_id, num_fragments, data, tick, time) == (m, None::<
            (Tick, Seq<u8>),
        >),
{
}

/// A fragment received again changes nothing but the time of the latest reception.
pub proof fn law_duplicate_fragment_ignored(
    v: ConstructorView,
    index: int,
    data: Seq<u8>,
    time: Option<Duration>,
)
    requires
        0 <= index < v.slots.len(),
        v.slots[index] is Some,
    ensures
        v.step(index, data, time).0.slots == v.slots,
        v.step(index, data, time).0.tick == v.tick,
        v.step(index, data, time).0.num_fragments == v.num_fragments,
{
}

/// The messages in progress after the first `k` fragments of `order` (fragment
/// `order[j]` holding `frags[order[j]]`, sent at `ticks[j]`, received at `times[j]`) of a
/// message `key` of `frags.len()` fragments reached a receiver holding `m`.
pub open spec fn receiver_after(
    m: Map<MessageId, ConstructorView>,
    key: MessageId,
    frags: Seq<Seq<u8>>,
    order: Seq<int>,
    ticks: Seq<Tick>,
    times: Seq<Option<Duration>>,
    k: nat,
) -> Map<MessageId, ConstructorView>
    decreases k,
{
    if k == 0 {
        m
    } else {
        let j = (k - 1) as int;
        receiver_step(
            receiver_after(m, key, frags, order, ticks, times, (k - 1) as nat),
            key,
            order[j] as u64,
            frags.len() as u64,
            frags[order[j]],
            ticks[j],
            times[j],
        ).0
    }
}

/// What the `k`-th of those receptions returns (counting from 1).
pub open spec fn receiver_output_at(
    m: Map<MessageId, ConstructorView>,
    key: MessageId,
    frags: Seq<Seq<u8>>,
    order: Seq<int>,
    ticks: Seq<Tick>,
    times: Seq<Option<Duration>>,
    k: nat,
) -> Option<(Tick, Seq<u8>)> {
    let j = (k - 1) as int;
    receiver_step(
        receiver_after(m, key, frags, order, ticks, times, (k - 1) as nat),
        key,
        order[j] as u64,
        frags.len() as u64,
        frags[order[j]],
        ticks[j],
        times[j],
    ).1
}

/// Reassembly through a receiver: when the fragments of a message not in progress all
/// arrive once, in any order, every reception but the last yields nothing; the last
/// yields the tick sent with the first fragment to arrive and the fragments concatenated
/// in index order, and the receiver is back to what it held before.
pub proof fn law_receiver_reassembly(
    m: Map<MessageId, ConstructorView>,
    key: MessageId,
    frags: Seq<Seq<u8>>,
    order: Seq<int>,
    ticks: Seq<Tick>,
    times: Seq<Option<Duration>>,
)
    requires
        !m.contains_key(key),
        1 <= frags.len() <= MAX_FRAGMENTS,
        forall|i: int|
            0 <= i < frags.len() ==> fragment_fits(frags.len(), i, #[trigger] frags[i].len()),
        order.len() == frags.len(),
        ticks.len() == frags.len(),
        times.len() == frags.len(),
        order.no_duplicates(),
        forall|j: int| 0 <= j < order.len() ==> 0 <= #[trigger] order[j] < frags.len(),
    ensures
        forall|k: nat|
            1 <= k < frags.len() ==> #[trigger] receiver_output_at(
                m,
                key,
                frags,
                order,
                ticks,
                times,
                k,
            ) is None,
        receiver_output_at(m, key, frags, order, ticks, times, frags.len()) == Some(
            (ticks[0], concatenated(frags)),
        ),
        receiver_after(m, key, frags, order, ticks, times, frags.len()) == m,
{
    let n = frags.len();
    let start = fresh_view(ticks[0], n);
    law_reassembly(ticks[0], frags, order, times);
    assert forall|k: nat| 1 <= k < n implies #[trigger] receiver_output_at(
        m,
        key,
        frags,
        order,
        ticks,
        times,
        k,
    ) is None by {
        lemma_receiver_partial(m, key, frags, order, ticks, times, k);
    }
    let j = n - 1;
    let last = order[j];
    assert((last as u64) as int == last);
    assert((n as u64) as nat == n);
    lemma_partial_delivery(ticks[0], frags, order, times, (n - 1) as nat);
    let prev = state_after(start, frags, order, times, (n - 1) as nat);
    if n == 1 {
        assert(prev == start);
        assert(receiver_after(m, key, frags, order, ticks, times, 0) == m);
        assert(m.remove(key) =~= m);
    } else {
        lemma_receiver_partial(m, key, frags, order, ticks, times, (n - 1) as nat);
        let pm = m.insert(key, prev);
        assert(receiver_after(m, key, frags, order, ticks, times, (n - 1) as nat) == pm);
        assert(pm.contains_key(key) && pm[key] == prev);
        assert(pm.remove(key) =~= m);
    }
    assert(output_at(start, frags, order, times, n) == prev.step(last, frags[last], times[j]).1);
}

/// Before the last fragment, the receiver holds `m` plus the message's constructor in the
/// state the fragments so far led it to, and has yielded nothing.
proof fn lemma_receiver_partial(
    m: Map<MessageId, ConstructorView>,
    key: MessageId,
    frags: Seq<Seq<u8>>,
    order: Seq<int>,
    ticks: Seq<Tick>,
    times: Seq<Option<Duration>>,
    k: nat,
)
    requires
        !m.contains_key(key),
        1 <= frags.len() <= MAX_FRAGMENTS,
        forall|i: int|
            0 <= i < frags.len() ==> fragment_fits(frags.len(), i, #[trigger] frags[i].len()),
        order.len() == frags.len(),
        ticks.len() == frags.len(),
        times.len() == frags.len(),
        order.no_duplicates(),
        forall|j: int| 0 <= j < order.len() ==> 0 <= #[trigger] order[j] < frags.len(),
        1 <= k < frags.len(),
    ensures
        receiver_after(m, key, frags, order, ticks, times, k) == m.insert(
            key,
            state_after(fresh_view(ticks[0], frags.len()), frags, order, times, k),
        ),
        receiver_output_at(m, key, frags, order, ticks, times, k) is None,
    decreases k,
{
    let n = frags.len();
    let start = fresh_view(ticks[0], n);
    law_reassembly(ticks[0], frags, order, times);
    assert(output_at(start, frags, order, times, k) is None);
    if k > 1 {
        lemma_receiver_partial(m, key, frags, order, ticks, times, (k - 1) as nat);
        lemma_partial_delivery(ticks[0], frags, order, times, (k - 1) as nat);
    }
}

/// Reconstructs fragmented messages, one constructor per message in progress.
pub struct FragmentReceiver {
    fragment_messages: ConstructorMap,
}

impl View for FragmentReceiver {
    type V = Map<MessageId, ConstructorView>;

    closed spec fn view(&self) -> Map<MessageId, ConstructorView> {
        constructor_map_contents(self.fragment_messages).map_values(|c: FragmentConstructor| c@)
    }
}

impl FragmentReceiver {
    /// Every message in progress has a well-formed constructor, and expects between one
    /// and `MAX_FRAGMENTS` fragments.
    pub closed spec fn wf(self) -> bool {
        &&& forall|k: MessageId|
            #[trigger] constructor_map_contents(self.fragment_messages).contains_key(k)
                ==> constructor_map_contents(self.fragment_messages)[k].wf()
        &&& in_progress_bounded(self@)
    }

    /// The reassembly buffer of message `k`.
    pub closed spec fn pending_buffer(self, k: MessageId) -> Seq<u8> {
        constructor_map_contents(self.fragment_messages)[k].buffer()
    }

    /// Bound on memory: every message in progress expects between one and
    /// `MAX_FRAGMENTS` fragments, and its buffer holds at most `FRAGMENT_SIZE` bytes per
    /// fragment, so at most `MAX_FRAGMENTS * FRAGMENT_SIZE` bytes.
    pub open spec fn memory_bounded(self) -> bool {
        &&& in_progress_bounded(self@)
        &&& forall|k: MessageId|
            #[trigger] self@.contains_key(k) ==> self.pending_buffer(k).len()
                <= self@[k].num_fragments * FRAGMENT_SIZE
        &&& forall|k: MessageId|
            #[trigger] self@.contains_key(k) ==> self.pending_buffer(k).len()
                <= MAX_FRAGMENTS * FRAGMENT_SIZE
    }

    /// A well-formed receiver keeps its memory bounded.
    proof fn lemma_memory_bounded(self)
        requires
            self.wf(),
        ensures
            self.memory_bounded(),
    {
        assert forall|k: MessageId| #[trigger] self@.contains_key(k) implies self.pending_buffer(
            k,
        ).len() <= self@[k].num_fragments * FRAGMENT_SIZE by {
            assert(constructor_map_contents(self.fragment_messages).contains_key(k));
            constructor_map_contents(self.fragment_messages)[k].lemma_memory();
        }
        assert forall|k: MessageId| #[trigger] self@.contains_key(k) implies self.pending_buffer(
            k,
        ).len() <= MAX_FRAGMENTS * FRAGMENT_SIZE by {
            assert(self.pending_buffer(k).len() <= self@[k].num_fragments * FRAGMENT_SIZE);
            assert(self@[k].num_fragments <= MAX_FRAGMENTS);
        }
    }

    pub fn new() -> (r: Self)
        ensures
            r.wf(),
            r.memory_bounded(),
            r@ == Map::<MessageId, ConstructorView>::empty(),
    {
        let r = Self { fragment_messages: constructor_map_new() };
        assert(r@ =~= Map::<MessageId, ConstructorView>::empty());
        proof {
            r.lemma_memory_bounded();
        }
        r
    }

    /// Discards every message whose latest fragment was received before
    /// `cleanup_time` (some of its fragments were probably lost, so it would never
    /// complete). A message whose latest reception carried no time is kept.
    pub fn cleanup(&mut self, cleanup_time: Duration)
        requires
            old(self).wf(),
        ensures
            final(self).wf(),
            final(self).memory_bounded(),
            final(self)@ == old(self)@.restrict(
                old(self)@.dom().filter(|k: MessageId| old(self)@[k].kept_after(cleanup_time)),
            ),
    {
        constructor_map_retain_after(&mut self.fragment_messages, cleanup_time);
        assert(self@ =~= old(self)@.restrict(
            old(self)@.dom().filter(|k: MessageId| old(self)@[k].kept_after(cleanup_time)),
        ));
        proof {
            self.lemma_memory_bounded();
        }
    }

    /// Receives a fragment read off the wire.
    ///
    /// When it completes its message, returns the tick of the first fragment received
    /// for that message, with the reassembled payload.
    pub fn receive_fragment(
        &mut self,
        fragment: FragmentData,
        remote_sent_tick: Tick,
        current_time: Option<Duration>,
    ) -> (r: Option<(Tick, Bytes)>)
        requires
            old(self).wf(),
        ensures
            final(self).wf(),
            final(self).memory_bounded(),
            (final(self)@, payload_view(r)) == receiver_step(
                old(self)@,
                fragment.message_id,
                fragment.fragment_id.0,
                fragment.num_fragments.0,
                bytes_contents(fragment.bytes),
                remote_sent_tick,
                current_time,
            ),
    {
        let ghost pre = self@;
        let ghost data = bytes_contents(fragment.bytes);
        proof {
            law_receiver_stays_bounded(
                pre,
                fragment.message_id,
                fragment.fragment_id.0,
                fragment.num_fragments.0,
                data,
                remote_sent_tick,
                current_time,
            );
        }
        let num_fragments = fragment.num_fragments.0;
        let fragment_id = fragment.fragment_id.0;
        if num_fragments == 0 || num_fragments > MAX_FRAGMENTS as u64 || fragment_id
            >= num_fragments {
            proof {
                self.lemma_memory_bounded();
            }
            return None;
        }
        let num_fragments = num_fragments as usize;
        let fragment_message = constructor_map_entry(
            &mut self.fragment_messages,
            fragment.message_id,
            remote_sent_tick,
            num_fragments,
        );
        let completed = if fragment_message.num_fragments != num_fragments {
            None
        } else {
            fragment_message.receive_fragment(
                fragment_id as usize,
                bytes_as_slice(&fragment.bytes),
                current_time,
            )
        };
        if completed.is_some() {
            constructor_map_remove(&mut self.fragment_messages, &fragment.message_id);
        }
        proof {
            assert(self@ =~= receiver_step(
                pre,
                fragment.message_id,
                fragment.fragment_id.0,
                fragment.num_fragments.0,
                data,
                remote_sent_tick,
                current_time,
            ).0);
            self.lemma_memory_bounded();
        }
        completed
    }
}

} // verus!
