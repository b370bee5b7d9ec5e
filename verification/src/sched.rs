//! Pending notifications, grouped by the second at which they are due.

use std::collections::BTreeMap;
use vstd::prelude::*;

verus! {

/// Seconds since the Unix epoch.
pub type TimestampSeconds = u64;

/// The notifications due at one time: a slot per request (emptied when the
/// request is cancelled) and the number of requests still live.
pub struct EventList<T> {
    pub objects: Vec<Option<T>>,
    pub availables: usize,
}

/// Pending notifications, by due time.
pub struct MessageArena<T> {
    objects_times: BTreeMap<TimestampSeconds, EventList<T>>,
}

/// What identifies a request: its due time and its slot.
pub struct CancellationToken(pub TimestampSeconds, pub usize);

/// What receives the notifications that fall due at one time.
pub trait EventHandler<T> {
    fn handle_batch(&self, events: Vec<Option<T>>);
}

/// Mathematical value of an [`EventList`].
pub struct SlotView<T> {
    pub objects: Seq<Option<T>>,
    pub availables: nat,
}

pub open spec fn slot_view<T>(e: EventList<T>) -> SlotView<T> {
    SlotView { objects: e.objects@, availables: e.availables as nat }
}

/// Each time slot holds at least one live request, and no more than it has
/// slots.
pub open spec fn arena_wf<T>(m: Map<u64, SlotView<T>>) -> bool {
    forall|t: u64| #[trigger] m.contains_key(t) ==> 1 <= m[t].availables <= m[t].objects.len()
}

/// The slots at time `t` (none when nothing is due then).
pub open spec fn slots_at<T>(m: Map<u64, SlotView<T>>, t: u64) -> SlotView<T> {
    if m.contains_key(t) {
        m[t]
    } else {
        SlotView { objects: seq![], availables: 0 }
    }
}

/// `m` with `x` requested at `t`, and the slot index handed back.
pub open spec fn arena_add<T>(m: Map<u64, SlotView<T>>, t: u64, x: T) -> (Map<u64, SlotView<T>>, nat) {
    let s = slots_at(m, t);
    (
        m.insert(t, SlotView { objects: s.objects.push(Some(x)), availables: s.availables + 1 }),
        s.availables,
    )
}

/// `m` with the slot `id` at time `t` emptied, and the time dropped once
/// its live count reaches zero.
pub open spec fn arena_remove<T>(m: Map<u64, SlotView<T>>, t: u64, id: nat) -> Map<u64, SlotView<T>> {
    if m.contains_key(t) {
        let s = m[t];
        if s.availables <= 1 {
            m.remove(t)
        } else {
            m.insert(
                t,
                SlotView { objects: s.objects.update(id as int, None), availables: (s.availables - 1) as nat },
            )
        }
    } else {
        m
    }
}

/// `t` is the earliest time at which something is due.
pub open spec fn is_earliest<T>(m: Map<u64, SlotView<T>>, t: u64) -> bool {
    m.contains_key(t) && forall|j: u64| #[trigger] m.contains_key(j) ==> t <= j
}

/// The requests of `m` that fall due after `now`.
pub open spec fn due_after<T>(m: Map<u64, SlotView<T>>, now: u64) -> Map<u64, SlotView<T>> {
    m.restrict(m.dom().filter(|k: u64| k > now))
}

impl<T> View for MessageArena<T> {
    type V = Map<u64, SlotView<T>>;

    closed spec fn view(&self) -> Map<u64, SlotView<T>> {
        self.objects_times@.map_values(|e: EventList<T>| slot_view(e))
    }
}

impl<T> MessageArena<T> {
    #[verifier::type_invariant]
    spec fn slots_wf(self) -> bool {
        arena_wf(self@)
    }

    /// An arena with nothing pending.
    pub fn new() -> (r: Self)
        ensures
            r@ == Map::<u64, SlotView<T>>::empty(),
    {
        let r = MessageArena { objects_times: BTreeMap::new() };
        assert(r@ =~= Map::<u64, SlotView<T>>::empty());
        r
    }

    /// The earliest time at which something is due.
    pub fn next_estimated_time(&self) -> (r: Option<TimestampSeconds>)
        ensures
            r matches Some(t) ==> is_earliest(self@, t),
            r is None ==> self@ == Map::<u64, SlotView<T>>::empty(),
    {
        let mut best: Option<u64> = None;
        for k in it: self.objects_times.keys()
            invariant
                best matches Some(b) ==> self.objects_times@.contains_key(b),
                best matches Some(b) ==> forall|i: int| 0 <= i < it.index() ==> b <= *it.seq()[i],
                best is None ==> it.index() == 0,
        {
            match best {
                Some(b) => if *k < b {
                    best = Some(*k);
                },
                None => {
                    best = Some(*k);
                },
            }
        }
        proof {
            if best is None {
                assert(self@ =~= Map::<u64, SlotView<T>>::empty());
            }
        }
        best
    }

    /// Requests `object` at time `t`; returns the live count of the time
    /// before the request, which serves as the request's slot index.
    pub fn add(&mut self, t: TimestampSeconds, object: T) -> (r: usize)
        requires
            slots_at(old(self)@, t).availables < usize::MAX,
        ensures
            (final(self)@, r as nat) == arena_add(old(self)@, t, object),
    {
        proof {
            use_type_invariant(&*self);
        }
        let mut map = BTreeMap::new();
        std::mem::swap(&mut map, &mut self.objects_times);
        let ghost m0 = map@.map_values(|e: EventList<T>| slot_view(e));
        assert(m0 == old(self)@);
        let mut sink = match map.remove(&t) {
            Some(e) => e,
            None => EventList { objects: Vec::new(), availables: 0 },
        };
        assert(slot_view(sink) == slots_at(m0, t));
        sink.objects.push(Some(object));
        sink.availables += 1;
        let id = sink.availables - 1;
        map.insert(t, sink);
        proof {
            let want = arena_add(m0, t, object).0;
            assert(map@.map_values(|e: EventList<T>| slot_view(e)) =~= want);
            assert(arena_wf(want));
        }
        self.objects_times = map;
        id
    }

    /// The number of slots at time `t`, when something is due then.
    pub fn slot_count(&self, t: TimestampSeconds) -> (r: Option<usize>)
        ensures
            r matches Some(n) ==> self@.contains_key(t) && n == self@[t].objects.len(),
            r is None ==> !self@.contains_key(t),
    {
        match self.objects_times.get(&t) {
            Some(e) => {
                assert(slot_view(*e) == self@[t]);
                Some(e.objects.len())
            },
            None => None,
        }
    }

    /// Cancels the request in slot `id` at time `t`.
    pub fn remove(&mut self, t: TimestampSeconds, id: usize)
        requires
            old(self)@.contains_key(t) ==> id < old(self)@[t].objects.len(),
        ensures
            final(self)@ == arena_remove(old(self)@, t, id as nat),
    {
        proof {
            use_type_invariant(&*self);
        }
        let mut map = BTreeMap::new();
        std::mem::swap(&mut map, &mut self.objects_times);
        let ghost m0 = map@.map_values(|e: EventList<T>| slot_view(e));
        assert(m0 == old(self)@);
        match map.remove(&t) {
            Some(mut to) => {
                assert(slot_view(to) == m0[t]);
                assert(m0.contains_key(t));
                assert(to.availables >= 1);
                to.objects.set(id, None);
                to.availables -= 1;
                if to.availables > 0 {
                    map.insert(t, to);
                }
            },
            None => {},
        }
        proof {
            let want = arena_remove(m0, t, id as nat);
            assert(map@.map_values(|e: EventList<T>| slot_view(e)) =~= want);
            assert(arena_wf(want));
        }
        self.objects_times = map;
    }

    /// Takes out the requests due at the earliest time: that time, and its
    /// slots in the order in which they were requested (a cancelled one is
    /// `None`); `None` when nothing is pending.
    pub fn process1(&mut self) -> (r: Option<(TimestampSeconds, Vec<Option<T>>)>)
        ensures
            r is None <==> old(self)@ == Map::<u64, SlotView<T>>::empty(),
            r is None ==> final(self)@ == old(self)@,
            r matches Some((t, batch)) ==> is_earliest(old(self)@, t) && batch@ == old(self)@[t].objects
                && final(self)@ == old(self)@.remove(t),
    {
        proof {
            use_type_invariant(&*self);
        }
        match self.next_estimated_time() {
            Some(t) => {
                let mut map = BTreeMap::new();
                std::mem::swap(&mut map, &mut self.objects_times);
                let ghost m0 = map@.map_values(|e: EventList<T>| slot_view(e));
                assert(m0 == old(self)@);
                let p = map.remove(&t);
                proof {
                    let want = m0.remove(t);
                    assert(map@.map_values(|e: EventList<T>| slot_view(e)) =~= want);
                    assert(arena_wf(want));
                }
                self.objects_times = map;
                match p {
                    Some(p) => Some((t, p.objects)),
                    None => vstd::pervasive::unreached(),
                }
            },
            None => None,
        }
    }

    proof fn lemma_finite(&self)
        ensures
            self@.dom().finite(),
    {
        assert(self@.dom() =~= self.objects_times@.dom());
    }

    /// Takes out every request due at or before `now`: the due times in
    /// increasing order, each with its slots; the later ones stay.
    pub fn process_due(&mut self, now: TimestampSeconds) -> (r: Vec<(TimestampSeconds, Vec<Option<T>>)>)
        ensures
            final(self)@ == due_after(old(self)@, now),
            forall|i: int|
                0 <= i < r@.len() ==> {
                    let (t, batch) = #[trigger] r@[i];
                    &&& t <= now
                    &&& old(self)@.contains_key(t)
                    &&& batch@ == old(self)@[t].objects
                },
            forall|i: int, j: int| 0 <= i < j < r@.len() ==> (#[trigger] r@[i]).0 < (#[trigger] r@[j]).0,
            forall|t: u64|
                #[trigger] old(self)@.contains_key(t) && t <= now ==> exists|i: int| 0 <= i < r@.len() && r@[i].0 == t,
    {
        proof {
            self.lemma_finite();
        }
        let mut out: Vec<(TimestampSeconds, Vec<Option<T>>)> = Vec::new();
        loop
            invariant
                forall|k: u64| #[trigger] self@.contains_key(k) ==> old(self)@.contains_key(k) && self@[k] == old(self)@[k],
                forall|k: u64| #[trigger] old(self)@.contains_key(k) && !self@.contains_key(k) ==> k <= now,
                forall|k: u64|
                    #[trigger] old(self)@.contains_key(k) && !self@.contains_key(k) ==> exists|i: int|
                        0 <= i < out@.len() && out@[i].0 == k,
                forall|i: int|
                    0 <= i < out@.len() ==> {
                        let (t, batch) = #[trigger] out@[i];
                        &&& t <= now
                        &&& old(self)@.contains_key(t)
                        &&& !self@.contains_key(t)
                        &&& batch@ == old(self)@[t].objects
                    },
                forall|i: int, j: int| 0 <= i < j < out@.len() ==> (#[trigger] out@[i]).0 < (#[trigger] out@[j]).0,
                forall|i: int, k: u64| 0 <= i < out@.len() && #[trigger] self@.contains_key(k) ==> (#[trigger] out@[i]).0 < k,
                self@.dom().finite(),
            ensures
                final(self)@ == due_after(old(self)@, now),
                forall|k: u64| #[trigger] old(self)@.contains_key(k) && k <= now ==> !self@.contains_key(k),
                forall|k: u64|
                    #[trigger] old(self)@.contains_key(k) && !self@.contains_key(k) ==> exists|i: int|
                        0 <= i < out@.len() && out@[i].0 == k,
                forall|i: int|
                    0 <= i < out@.len() ==> {
                        let (t, batch) = #[trigger] out@[i];
                        &&& t <= now
                        &&& old(self)@.contains_key(t)
                        &&& batch@ == old(self)@[t].objects
                    },
                forall|i: int, j: int| 0 <= i < j < out@.len() ==> (#[trigger] out@[i]).0 < (#[trigger] out@[j]).0,
            decreases self@.dom().len(),
        {
            match self.next_estimated_time() {
                Some(t) => {
                    if t > now {
                        assert(self@ =~= due_after(old(self)@, now));
                        break ;
                    }
                    let ghost before = self@;
                    let ghost out0 = out@;
                    let taken = self.process1();
                    let (t2, batch) = match taken {
                        Some(x) => x,
                        None => vstd::pervasive::unreached(),
                    };
                    assert(t2 == t);
                    out.push((t2, batch));
                    proof {
                        self.lemma_finite();
                        assert(self@ == before.remove(t));
                        assert(self@.dom() =~= before.dom().remove(t));
                        assert forall|k: u64|
                            #[trigger] old(self)@.contains_key(k) && !self@.contains_key(k) implies exists|i: int|
                                0 <= i < out@.len() && out@[i].0 == k by {
                            if k == t {
                                assert(out@[out0.len() as int].0 == k);
                            } else {
                                assert(!before.contains_key(k));
                                let i = choose|i: int| 0 <= i < out0.len() && out0[i].0 == k;
                                assert(out@[i] == out0[i]);
                            }
                        }
                        assert forall|i: int, k: u64|
                            0 <= i < out@.len() && #[trigger] self@.contains_key(k) implies (#[trigger] out@[i]).0 < k by {
                            assert(before.contains_key(k));
                            if i < out0.len() {
                                assert(out@[i] == out0[i]);
                            } else {
                                assert(t <= k && k != t);
                            }
                        }
                        assert forall|i: int, j: int| 0 <= i < j < out@.len() implies (#[trigger] out@[i]).0 < (
                        #[trigger] out@[j]).0 by {
                            if j < out0.len() {
                                assert(out@[i] == out0[i] && out@[j] == out0[j]);
                            } else {
                                assert(out@[i] == out0[i]);
                                assert(before.contains_key(t));
                            }
                        }
                    }
                },
                None => {
                    assert(self@ =~= due_after(old(self)@, now));
                    break ;
                },
            }
        }
        out
    }
}


/// Cancelling a request right after making it, at a time when nothing else
/// was due, leaves the pending requests as they were.
pub proof fn law_cancel_fresh_request<T>(m: Map<u64, SlotView<T>>, t: u64, x: T)
    requires
        arena_wf(m),
        !m.contains_key(t),
    ensures
        arena_remove(arena_add(m, t, x).0, t, arena_add(m, t, x).1) == m,
{
    let (m1, id) = arena_add(m, t, x);
    assert(m1.contains_key(t) && m1[t].availables == 1);
    assert(m1.remove(t) =~= m);
}

/// The slot index handed back for a request holds that request, as long as
/// no request due at the same time was cancelled before.
pub proof fn law_token_holds_request<T>(m: Map<u64, SlotView<T>>, t: u64, x: T)
    requires
        arena_wf(m),
        slots_at(m, t).availables == slots_at(m, t).objects.len(),
    ensures
        ({
            let (m1, id) = arena_add(m, t, x);
            m1[t].objects[id as int] == Some(x)
        }),
{
}

/// Making and cancelling requests keeps every pending time with at least
/// one live request.
pub proof fn law_arena_stays_wf<T>(m: Map<u64, SlotView<T>>, t: u64, x: T, id: nat)
    requires
        arena_wf(m),
        m.contains_key(t) ==> id < m[t].objects.len(),
    ensures
        arena_wf(arena_add(m, t, x).0),
        arena_wf(arena_remove(m, t, id)),
{
}


/// The number of filled (not cancelled) slots.
pub open spec fn live_count<T>(s: Seq<Option<T>>) -> nat
    decreases s.len(),
{
    if s.len() == 0 {
        0
    } else {
        live_count(s.drop_last()) + if s.last() is Some {
            1nat
        } else {
            0nat
        }
    }
}

/// Every pending time counts as live exactly its filled slots.
pub open spec fn counts_live<T>(m: Map<u64, SlotView<T>>) -> bool {
    forall|t: u64| #[trigger] m.contains_key(t) ==> m[t].availables == live_count(m[t].objects)
}

proof fn lemma_live_update<T>(s: Seq<Option<T>>, i: int)
    requires
        0 <= i < s.len(),
        s[i] is Some,
    ensures
        live_count(s.update(i, None)) + 1 == live_count(s),
    decreases s.len(),
{
    let u = s.update(i, None);
    if i < s.len() - 1 {
        lemma_live_update(s.drop_last(), i);
        assert(u.drop_last() =~= s.drop_last().update(i, None));
    } else {
        assert(u.drop_last() =~= s.drop_last());
    }
}

proof fn lemma_live_some<T>(s: Seq<Option<T>>)
    requires
        live_count(s) > 0,
    ensures
        exists|i: int| 0 <= i < s.len() && (#[trigger] s[i]) is Some,
    decreases s.len(),
{
    if s.last() is Some {
        assert(s[s.len() - 1] is Some);
    } else {
        lemma_live_some(s.drop_last());
        let i = choose|i: int| 0 <= i < s.drop_last().len() && (#[trigger] s.drop_last()[i]) is Some;
        assert(s[i] == s.drop_last()[i]);
    }
}

/// Nothing pending counts nothing; and the live counts stay those of the
/// filled slots when a request is made, when the requests of a time are
/// taken out, and when a live request is cancelled.
pub proof fn law_live_count_kept<T>(m: Map<u64, SlotView<T>>, t: u64, x: T, id: nat)
    ensures
        counts_live(Map::<u64, SlotView<T>>::empty()),
        counts_live(m) ==> counts_live(arena_add(m, t, x).0),
        counts_live(m) ==> counts_live(m.remove(t)),
        counts_live(m) && (m.contains_key(t) ==> id < m[t].objects.len() && m[t].objects[id as int] is Some)
            ==> counts_live(arena_remove(m, t, id)),
{
    if counts_live(m) {
        let s = slots_at(m, t);
        let pushed = s.objects.push(Some(x));
        assert(pushed.drop_last() =~= s.objects);
        assert(live_count(pushed) == live_count(s.objects) + 1);
        if m.contains_key(t) && id < m[t].objects.len() && m[t].objects[id as int] is Some {
            lemma_live_update(m[t].objects, id as int);
        }
    }
}

/// A pending time, in an arena whose live counts are those of its filled
/// slots, holds at least one live request: a batch taken out is never all
/// cancelled.
pub proof fn law_pending_time_has_request<T>(m: Map<u64, SlotView<T>>, t: u64)
    requires
        arena_wf(m),
        counts_live(m),
        m.contains_key(t),
    ensures
        exists|i: int| 0 <= i < m[t].objects.len() && (#[trigger] m[t].objects[i]) is Some,
{
    lemma_live_some(m[t].objects);
}

} // verus!
