//! The relay: the unit that accepts followers, applies their commands to its
//! own alarm and passes every command on to the other followers.
//!
//! The relay here decides; it does no I/O. Its caller owns the connections
//! and performs what the relay says: accept into the handle it offers, read
//! each slot once per pass and report what came, write to the handles it
//! names, and close the handles it evicts.

use vstd::prelude::*;
use crate::alarm::Alarm;
use crate::bounded::{
    handles, handles_as_slice, handles_new, handles_pop, handles_push, handles_swap_remove,
    HandleVec,
};
use crate::network::{alarm_after_frame, apply_frame};

verus! {

/// How many followers a relay serves at once.
pub const MAX_CLIENTS: usize = 4;

/// Milliseconds of silence after which a follower is evicted.
pub const RECONNECT_TIMEOUT_MS: u64 = 5000;

/// The port the relay listens on.
pub const SERVER_PORT: u16 = 23456;

/// Milliseconds the relay sleeps between two passes.
pub const POLL_INTERVAL_MS: u64 = 50;

/// One live connection as the relay sees it.
#[derive(Copy, Clone, PartialEq, Eq, Structural, Debug)]
pub struct Slot {
    /// Names the connection and its buffers; below `MAX_CLIENTS`, and no two
    /// live slots share one.
    pub handle: usize,
    /// When the last read on the connection brought data, in milliseconds.
    pub last_active: u64,
    /// Whether a read during this pass failed or found the peer gone.
    pub failed: bool,
}

impl Slot {
    /// Whether the slot is to be removed at time `now`: a read on it failed,
    /// or it has been silent for longer than `RECONNECT_TIMEOUT_MS`.
    pub open spec fn evicted_at(self, now: u64) -> bool {
        self.failed || now - self.last_active > RECONNECT_TIMEOUT_MS
    }
}

/// `s` without the element at `i`, the last element moved into its place.
pub open spec fn swap_removed<T>(s: Seq<T>, i: int) -> Seq<T>
    recommends
        0 <= i < s.len(),
{
    s.update(i, s.last()).drop_last()
}

/// `slots` after the positions below `upto` have been swept from the highest
/// down: each slot found evicted is swap-removed.
pub open spec fn swept(slots: Seq<Slot>, now: u64, upto: int) -> Seq<Slot>
    recommends
        0 <= upto <= slots.len(),
    decreases upto,
{
    if upto <= 0 {
        slots
    } else if slots[upto - 1].evicted_at(now) {
        swept(swap_removed(slots, upto - 1), now, upto - 1)
    } else {
        swept(slots, now, upto - 1)
    }
}

/// The handles of the slots found evicted in that sweep, in the order in
/// which the sweep meets them.
pub open spec fn swept_out(slots: Seq<Slot>, now: u64, upto: int) -> Seq<usize>
    recommends
        0 <= upto <= slots.len(),
    decreases upto,
{
    if upto <= 0 {
        Seq::empty()
    } else if slots[upto - 1].evicted_at(now) {
        seq![slots[upto - 1].handle] + swept_out(swap_removed(slots, upto - 1), now, upto - 1)
    } else {
        swept_out(slots, now, upto - 1)
    }
}

/// The handles of all slots but the one at `index`, in slot order: where a
/// command read from slot `index` is forwarded to.
pub open spec fn fan_out(slots: Seq<Slot>, index: int) -> Seq<usize>
    recommends
        0 <= index < slots.len(),
{
    slots.remove(index).map_values(|s: Slot| s.handle)
}

/// Whether `slots` can be the live set of a relay: at most `MAX_CLIENTS`
/// slots, each handle below `MAX_CLIENTS`, no handle twice.
pub open spec fn slots_valid(slots: Seq<Slot>) -> bool {
    &&& slots.len() <= MAX_CLIENTS
    &&& forall|i: int| 0 <= i < slots.len() ==> (#[trigger] slots[i]).handle < MAX_CLIENTS
    &&& forall|i: int, j: int|
        0 <= i < j < slots.len() ==> (#[trigger] slots[i]).handle != (#[trigger] slots[j]).handle
}

/// The relay's bookkeeping: which handles are live, in which order, and
/// when each was last heard from.
pub struct Relay {
    clients: HandleVec,
    free: HandleVec,
    last_active: [u64; MAX_CLIENTS],
    failed: [bool; MAX_CLIENTS],
}

impl View for Relay {
    type V = Seq<Slot>;

    /// The live slots, in slot order.
    closed spec fn view(&self) -> Seq<Slot> {
        Seq::new(
            handles(self.clients).len(),
            |i: int|
                Slot {
                    handle: handles(self.clients)[i],
                    last_active: self.last_active@[handles(self.clients)[i] as int],
                    failed: self.failed@[handles(self.clients)[i] as int],
                },
        )
    }
}

impl Relay {
    /// The relay's invariant: the live handles and the free handles together
    /// are the handles below `MAX_CLIENTS`, each once.
    pub closed spec fn wf(&self) -> bool {
        let c = handles(self.clients);
        let f = handles(self.free);
        &&& c.len() + f.len() == MAX_CLIENTS
        &&& forall|i: int| 0 <= i < c.len() ==> #[trigger] c[i] < MAX_CLIENTS
        &&& forall|i: int| 0 <= i < f.len() ==> #[trigger] f[i] < MAX_CLIENTS
        &&& forall|i: int, j: int| 0 <= i < j < c.len() ==> #[trigger] c[i] != #[trigger] c[j]
        &&& forall|i: int, j: int| 0 <= i < j < f.len() ==> #[trigger] f[i] != #[trigger] f[j]
        &&& forall|i: int, j: int|
            0 <= i < c.len() && 0 <= j < f.len() ==> #[trigger] c[i] != #[trigger] f[j]
    }

    /// The handle the next accepted connection gets: `None` when the relay
    /// is full.
    pub closed spec fn free_handle(&self) -> Option<usize> {
        if handles(self.free).len() > 0 {
            Some(handles(self.free).last())
        } else {
            None
        }
    }

    /// A well-formed relay never holds more than `MAX_CLIENTS` slots, and
    /// its slots have distinct handles below `MAX_CLIENTS`. It has a free
    /// handle exactly when it is not full, and no live slot uses that handle.
    pub proof fn lemma_wf(&self)
        requires
            self.wf(),
        ensures
            slots_valid(self@),
            self.free_handle() is Some <==> self@.len() < MAX_CLIENTS,
            self.free_handle() is Some ==> self.free_handle().unwrap() < MAX_CLIENTS,
            forall|i: int|
                0 <= i < self@.len() ==> Some((#[trigger] self@[i]).handle) != self.free_handle(),
    {
    }

    /// A relay with no followers.
    pub fn new() -> (relay: Self)
        ensures
            relay.wf(),
            relay@ == Seq::<Slot>::empty(),
    {
        let clients = handles_new();
        let mut free = handles_new();
        let mut handle = MAX_CLIENTS;
        while handle > 0
            invariant
                handle <= MAX_CLIENTS,
                handles(free).len() == MAX_CLIENTS - handle,
                forall|i: int|
                    0 <= i < handles(free).len() ==> #[trigger] handles(free)[i] == MAX_CLIENTS
                        - 1 - i,
            decreases handle,
        {
            handle -= 1;
            let _ = handles_push(&mut free, handle);
        }
        let relay = Relay {
            clients,
            free,
            last_active: [0; MAX_CLIENTS],
            failed: [false; MAX_CLIENTS],
        };
        relay
    }

    /// How many followers are connected.
    pub fn len(&self) -> (n: usize)
        requires
            self.wf(),
        ensures
            n == self@.len(),
            n <= MAX_CLIENTS,
    {
        handles_as_slice(&self.clients).len()
    }

    /// The slot at `index`, or `None` past the last slot.
    pub fn slot(&self, index: usize) -> (slot: Option<Slot>)
        requires
            self.wf(),
        ensures
            slot == (if index < self@.len() {
                Some(self@[index as int])
            } else {
                None
            }),
    {
        let live = handles_as_slice(&self.clients);
        if index < live.len() {
            let handle = live[index];
            let last_active = self.last_active[handle];
            let failed = self.failed[handle];
            Some(Slot { handle, last_active, failed })
        } else {
            None
        }
    }

    /// The accept phase asks this before each attempt: the handle to accept
    /// into, or `None` when the relay is full and no accept is to be tried.
    pub fn next_handle(&self) -> (handle: Option<usize>)
        requires
            self.wf(),
        ensures
            handle == self.free_handle(),
            handle is Some <==> self@.len() < MAX_CLIENTS,
            handle is Some ==> handle.unwrap() < MAX_CLIENTS,
            forall|i: int| 0 <= i < self@.len() ==> Some((#[trigger] self@[i]).handle) != handle,
    {
        let free = handles_as_slice(&self.free);
        if free.len() > 0 {
            Some(free[free.len() - 1])
        } else {
            None
        }
    }

    /// Records a connection accepted at time `now`: a new slot is appended
    /// with the handle that `next_handle` offered, and that handle is
    /// returned. A full relay takes no connection and returns `None`.
    pub fn on_accept(&mut self, now: u64) -> (handle: Option<usize>)
        requires
            old(self).wf(),
        ensures
            final(self).wf(),
            handle == old(self).free_handle(),
            handle is Some <==> old(self)@.len() < MAX_CLIENTS,
            final(self)@ == (match handle {
                Some(h) => old(self)@.push(Slot { handle: h, last_active: now, failed: false }),
                None => old(self)@,
            }),
    {
        match handles_pop(&mut self.free) {
            Some(h) => {
                let _ = handles_push(&mut self.clients, h);
                self.last_active[h] = now;
                self.failed[h] = false;
                Some(h)
            },
            None => {
                None
            },
        }
    }

    /// The service phase reports each read here. `received` holds the bytes
    /// the read on slot `index` brought at time `now`, and is empty where the
    /// peer had closed the connection or the read failed.
    ///
    /// Bytes that came refresh the slot's `last_active`, are decoded and, if
    /// they hold a command, applied to `alarm`; they are then to be written,
    /// unchanged, to each of the returned handles: those of all other slots,
    /// in slot order. An empty read marks the slot for eviction and forwards
    /// nothing. An `index` past the last slot changes nothing.
    pub fn on_read(
        &mut self,
        index: usize,
        received: &[u8],
        now: u64,
        alarm: &mut Alarm,
    ) -> (targets: HandleVec)
        requires
            old(self).wf(),
        ensures
            final(self).wf(),
            final(self)@ == (if index < old(self)@.len() && received@.len() > 0 {
                old(self)@.update(
                    index as int,
                    Slot { last_active: now, ..old(self)@[index as int] },
                )
            } else if index < old(self)@.len() {
                old(self)@.update(index as int, Slot { failed: true, ..old(self)@[index as int] })
            } else {
                old(self)@
            }),
            *final(alarm) == (if index < old(self)@.len() && received@.len() > 0 {
                alarm_after_frame(*old(alarm), received@)
            } else {
                *old(alarm)
            }),
            handles(targets) == (if index < old(self)@.len() && received@.len() > 0 {
                fan_out(old(self)@, index as int)
            } else {
                Seq::<usize>::empty()
            }),
    {
        let mut targets = handles_new();
        let live = handles_as_slice(&self.clients);
        let n = live.len();
        if index >= n {
            return targets;
        }
        let handle = live[index];
        if received.len() == 0 {
            self.failed[handle] = true;
            return targets;
        }
        self.last_active[handle] = now;
        apply_frame(alarm, received);
        let ghost all = handles(self.clients);
        let mut j: usize = 0;
        while j < n
            invariant
                self.wf(),
                all == handles(self.clients),
                n == all.len(),
                index < n,
                j <= n,
                handles(targets) == (if j <= index {
                    all.take(j as int)
                } else {
                    all.take(j as int).remove(index as int)
                }),
            decreases n - j,
        {
            let live = handles_as_slice(&self.clients);
            if j != index {
                let _ = handles_push(&mut targets, live[j]);
            }
            j += 1;
        }
        targets
    }

    /// Ends a pass at time `now`: every slot marked by a failed read, and
    /// every slot silent for longer than `RECONNECT_TIMEOUT_MS`, is removed,
    /// and its handle is free for a later accept. The slots are swept from
    /// the last to the first, each removal moving the last slot into the gap.
    /// Returns the handles of the removed slots, whose connections are to be
    /// closed.
    ///
    /// A slot stays exactly if it was neither marked nor silent too long;
    /// the slots that stay keep their fields.
    pub fn end_pass(&mut self, now: u64) -> (evicted: HandleVec)
        requires
            old(self).wf(),
        ensures
            final(self).wf(),
            final(self)@ == swept(old(self)@, now, old(self)@.len() as int),
            handles(evicted) == swept_out(old(self)@, now, old(self)@.len() as int),
            forall|s: Slot|
                final(self)@.contains(s) <==> old(self)@.contains(s) && !s.evicted_at(now),
            forall|h: usize|
                handles(evicted).contains(h) <==> exists|s: Slot|
                    old(self)@.contains(s) && s.handle == h && s.evicted_at(now),
            final(self)@.len() + handles(evicted).len() == old(self)@.len(),
    {
        let mut evicted = handles_new();
        let mut i: usize = handles_as_slice(&self.clients).len();
        let ghost before = self@;
        while i > 0
            invariant
                self.wf(),
                i <= self@.len(),
                self@.len() + handles(evicted).len() == before.len(),
                before.len() <= MAX_CLIENTS,
                swept(self@, now, i as int) == swept(before, now, before.len() as int),
                handles(evicted) + swept_out(self@, now, i as int) == swept_out(
                    before,
                    now,
                    before.len() as int,
                ),
            decreases i,
        {
            i -= 1;
            let ghost slots = self@;
            let handle = handles_as_slice(&self.clients)[i];
            let last = self.last_active[handle];
            if self.failed[handle] || (now > last && now - last > RECONNECT_TIMEOUT_MS) {
                handles_swap_remove(&mut self.clients, i);
                let _ = handles_push(&mut self.free, handle);
                let _ = handles_push(&mut evicted, handle);
                assert(self@ =~= swap_removed(slots, i as int));
            }
        }
        proof {
            lemma_swept_keeps(before, now, before.len() as int);
            lemma_swept_out_holds(before, now, before.len() as int);
        }
        evicted
    }
}

/// Whether `s` stands in `slots` at a position from `upto` on, or at any
/// position without being evicted at `now`.
pub open spec fn kept_from(slots: Seq<Slot>, now: u64, upto: int, s: Slot) -> bool {
    exists|k: int|
        0 <= k < slots.len() && #[trigger] slots[k] == s && (k >= upto || !s.evicted_at(now))
}

/// What a sweep below `upto` keeps: a slot is in the result exactly if it
/// stood at a position the sweep did not reach, or was not evicted. A sweep
/// of all positions keeps exactly the slots that are not evicted.
pub proof fn lemma_swept_keeps(slots: Seq<Slot>, now: u64, upto: int)
    requires
        0 <= upto <= slots.len(),
    ensures
        forall|s: Slot| #[trigger]
            swept(slots, now, upto).contains(s) <==> kept_from(slots, now, upto, s),
        upto == slots.len() ==> forall|s: Slot| #[trigger]
            swept(slots, now, upto).contains(s) <==> slots.contains(s) && !s.evicted_at(now),
    decreases upto,
{
    if upto > 0 {
        let gap = upto - 1;
        let next = if slots[gap].evicted_at(now) {
            swap_removed(slots, gap)
        } else {
            slots
        };
        lemma_swept_keeps(next, now, gap);
        assert forall|s: Slot| #[trigger]
            swept(slots, now, upto).contains(s) <==> kept_from(slots, now, upto, s) by {
            assert(swept(slots, now, upto) == swept(next, now, gap));
            if kept_from(next, now, gap, s) {
                // What stands in the gap after a removal was the last slot.
                let k = choose|k: int|
                    0 <= k < next.len() && #[trigger] next[k] == s && (k >= gap || !s.evicted_at(
                        now,
                    ));
                let origin = if k == gap && slots[gap].evicted_at(now) {
                    slots.len() - 1
                } else {
                    k
                };
                assert(slots[origin] == s);
            }
            if kept_from(slots, now, upto, s) {
                // The last slot moves into the gap; every other slot stays.
                let k = choose|k: int|
                    0 <= k < slots.len() && #[trigger] slots[k] == s && (k >= upto
                        || !s.evicted_at(now));
                let target = if k == slots.len() - 1 && slots[gap].evicted_at(now) {
                    gap
                } else {
                    k
                };
                assert(next[target] == s);
            }
        }
    }
    if upto == slots.len() {
        assert forall|s: Slot| #[trigger]
            swept(slots, now, upto).contains(s) <==> slots.contains(s) && !s.evicted_at(now) by {
            if slots.contains(s) && !s.evicted_at(now) {
                let k = choose|k: int| 0 <= k < slots.len() && slots[k] == s;
                assert(slots[k] == s);
            }
        }
    }
}

/// Whether a slot of `slots` at a position below `upto` has the handle `h`
/// and is evicted at `now`.
pub open spec fn evicted_below(slots: Seq<Slot>, now: u64, upto: int, h: usize) -> bool {
    exists|k: int| 0 <= k < upto && (#[trigger] slots[k]).handle == h && slots[k].evicted_at(now)
}

/// What a sweep below `upto` takes out: a handle is among the removed
/// exactly if an evicted slot below `upto` had it. Kept and removed slots
/// together are as many as there were.
pub proof fn lemma_swept_out_holds(slots: Seq<Slot>, now: u64, upto: int)
    requires
        0 <= upto <= slots.len(),
    ensures
        forall|h: usize| #[trigger]
            swept_out(slots, now, upto).contains(h) <==> evicted_below(slots, now, upto, h),
        upto == slots.len() ==> forall|h: usize| #[trigger]
            swept_out(slots, now, upto).contains(h) <==> exists|s: Slot|
                slots.contains(s) && s.handle == h && s.evicted_at(now),
        swept(slots, now, upto).len() + swept_out(slots, now, upto).len() == slots.len(),
    decreases upto,
{
    if upto > 0 {
        let gap = upto - 1;
        if slots[gap].evicted_at(now) {
            let next = swap_removed(slots, gap);
            let rest = swept_out(next, now, gap);
            let out = seq![slots[gap].handle] + rest;
            lemma_swept_out_holds(next, now, gap);
            assert forall|h: usize| #[trigger]
                swept_out(slots, now, upto).contains(h) <==> evicted_below(
                    slots,
                    now,
                    upto,
                    h,
                ) by {
                assert(swept_out(slots, now, upto) == out);
                if out.contains(h) {
                    let m = choose|m: int| 0 <= m < out.len() && out[m] == h;
                    if m > 0 {
                        // Below the gap the removal moved nothing.
                        assert(rest[m - 1] == h);
                        assert(rest.contains(h));
                        let k = choose|k: int|
                            0 <= k < gap && (#[trigger] next[k]).handle == h && next[k].evicted_at(
                                now,
                            );
                        assert(slots[k] == next[k]);
                    } else {
                        assert(slots[gap].handle == h);
                    }
                }
                if evicted_below(slots, now, upto, h) {
                    let k = choose|k: int|
                        0 <= k < upto && (#[trigger] slots[k]).handle == h && slots[k].evicted_at(
                            now,
                        );
                    if k == gap {
                        assert(out[0] == h);
                    } else {
                        assert(next[k] == slots[k]);
                        assert(rest.contains(h));
                        let m = choose|m: int| 0 <= m < rest.len() && rest[m] == h;
                        assert(out[m + 1] == h);
                    }
                }
            }
        } else {
            lemma_swept_out_holds(slots, now, gap);
            assert forall|h: usize| #[trigger]
                swept_out(slots, now, upto).contains(h) <==> evicted_below(
                    slots,
                    now,
                    upto,
                    h,
                ) by {
                if evicted_below(slots, now, gap, h) {
                    let k = choose|k: int|
                        0 <= k < gap && (#[trigger] slots[k]).handle == h && slots[k].evicted_at(
                            now,
                        );
                    assert(slots[k].handle == h);
                }
            }
        }
    }
    if upto == slots.len() {
        assert forall|h: usize| #[trigger]
            swept_out(slots, now, upto).contains(h) <==> exists|s: Slot|
                slots.contains(s) && s.handle == h && s.evicted_at(now) by {
            if evicted_below(slots, now, upto, h) {
                let k = choose|k: int|
                    0 <= k < upto && (#[trigger] slots[k]).handle == h && slots[k].evicted_at(now);
                assert(slots.contains(slots[k]));
            }
            if exists|s: Slot| slots.contains(s) && s.handle == h && s.evicted_at(now) {
                let s = choose|s: Slot| slots.contains(s) && s.handle == h && s.evicted_at(now);
                let k = choose|k: int| 0 <= k < slots.len() && slots[k] == s;
                assert(slots[k].handle == h);
            }
        }
    }
}

/// A command read from one slot goes to every other slot and is not echoed
/// to the slot it came from.
pub proof fn lemma_fan_out_spares_sender(slots: Seq<Slot>, index: int)
    requires
        slots_valid(slots),
        0 <= index < slots.len(),
    ensures
        fan_out(slots, index).len() == slots.len() - 1,
        !fan_out(slots, index).contains(slots[index].handle),
        forall|j: int|
            0 <= j < slots.len() && j != index ==> fan_out(slots, index).contains(
                (#[trigger] slots[j]).handle,
            ),
{
    let out = fan_out(slots, index);
    assert forall|j: int| 0 <= j < slots.len() && j != index implies out.contains(
        (#[trigger] slots[j]).handle,
    ) by {
        if j < index {
            assert(out[j] == slots[j].handle);
        } else {
            assert(out[j - 1] == slots[j].handle);
        }
    }
    if out.contains(slots[index].handle) {
        // It would be the handle of another slot as well.
        let m = choose|m: int| 0 <= m < out.len() && out[m] == slots[index].handle;
        let other = if m < index {
            m
        } else {
            m + 1
        };
        assert(slots[other].handle == slots[index].handle);
    }
}

/// A follower whose slot is evicted at the end of a pass, for a failed read
/// or for silence longer than `RECONNECT_TIMEOUT_MS`, is no longer among the
/// live slots after it, and nothing read after it is forwarded to it.
pub proof fn lemma_evicted_is_gone(slots: Seq<Slot>, now: u64, k: int)
    requires
        slots_valid(slots),
        0 <= k < slots.len(),
        slots[k].evicted_at(now),
    ensures
        forall|i: int|
            0 <= i < swept(slots, now, slots.len() as int).len() ==> (#[trigger] swept(
                slots,
                now,
                slots.len() as int,
            )[i]).handle != slots[k].handle,
        forall|i: int|
            0 <= i < swept(slots, now, slots.len() as int).len() ==> !(#[trigger] fan_out(
                swept(slots, now, slots.len() as int),
                i,
            )).contains(slots[k].handle),
{
    let after = swept(slots, now, slots.len() as int);
    lemma_swept_keeps(slots, now, slots.len() as int);
    assert forall|i: int| 0 <= i < after.len() implies (#[trigger] after[i]).handle
        != slots[k].handle by {
        // A slot that is left was there before and is not evicted, so it
        // is another slot than `k`, with another handle.
        assert(after.contains(after[i]));
        let m = choose|m: int| 0 <= m < slots.len() && slots[m] == after[i];
        assert(m != k);
    }
    assert forall|i: int| 0 <= i < after.len() implies !(#[trigger] fan_out(after, i)).contains(
        slots[k].handle,
    ) by {
        let out = fan_out(after, i);
        if out.contains(slots[k].handle) {
            let m = choose|m: int| 0 <= m < out.len() && out[m] == slots[k].handle;
            let other = if m < i {
                m
            } else {
                m + 1
            };
            assert(after[other].handle == slots[k].handle);
        }
    }
}

} // verus!
