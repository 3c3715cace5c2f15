//! When work requests are posted. Each machine here is driven by completions:
//! it says which slot to post next and counts what came back, so that every
//! posted receive is consumed and no buffer is reused while it is in flight.

use crate::rdma::region::{slots, slots_for, MAX_SLOTS};
use crate::transport::{
    bucket_index, in_bucket, initiator_flags, max_int, total, Tally,
};
use vstd::prelude::*;

verus! {

pub const SQ_DEPTH: u32 = 512;

pub const RQ_DEPTH: u32 = 512;

/// Work requests that may be outstanding on one queue, a margin below its depth.
pub const MAX_OUTSTANDING: u64 = 496;

// ------------------------------------------------------------------- bursts

/// One direction of a burst over one queue pair.
#[derive(Clone, Copy, Debug, PartialEq, Eq, Structural)]
pub struct Burst {
    pub slots: u64,
    pub window: u64,
    pub count: u64,
    pub posted: u64,
    pub done: u64,
}

/// What a burst wants next.
#[derive(Clone, Copy, Debug, PartialEq, Eq, Structural)]
pub enum BurstStep {
    /// Post a work request on this slot.
    Post(usize),
    /// Poll for completions.
    Poll,
    Finished,
}

impl Burst {
    pub open spec fn inv(self) -> bool {
        &&& 1 <= self.window <= self.slots <= MAX_SLOTS
        &&& self.window <= MAX_OUTSTANDING
        &&& self.done <= self.posted <= self.count
        &&& self.posted - self.done <= self.window
    }

    /// The slot that message `k` uses.
    pub open spec fn slot_of(self, k: int) -> int {
        k % (self.slots as int)
    }

    /// Nothing left to post or to wait for: every message was posted once and
    /// completed once.
    pub open spec fn complete(self) -> bool {
        self.done == self.count && self.posted == self.count
    }

    /// What comes next: post while the window has room, then poll.
    pub open spec fn next(self) -> BurstStep {
        if self.done == self.count {
            BurstStep::Finished
        } else if self.posted < self.count && self.posted - self.done < self.window {
            BurstStep::Post(self.slot_of(self.posted as int) as usize)
        } else {
            BurstStep::Poll
        }
    }

    pub fn new(region: usize, size: usize, count: u64) -> (b: Burst)
        ensures
            b.inv(),
            b.slots == slots(region as int, size as int),
            b.window == b.slots,
            b.count == count,
            b.posted == 0,
            b.done == 0,
    {
        let n: u64 = slots_for(region, size) as u64;
        let window: u64 = if n < MAX_OUTSTANDING {
            n
        } else {
            MAX_OUTSTANDING
        };
        Burst { slots: n, window, count, posted: 0, done: 0 }
    }

    pub fn step(&self) -> (r: BurstStep)
        requires
            self.inv(),
        ensures
            r == self.next(),
            r matches BurstStep::Post(s) ==> s < self.slots,
            r is Finished <==> self.complete(),
            r is Poll ==> self.posted > self.done,
    {
        if self.done == self.count {
            BurstStep::Finished
        } else if self.posted < self.count && self.posted - self.done < self.window {
            let s: u64 = self.posted % self.slots;
            BurstStep::Post(s as usize)
        } else {
            BurstStep::Poll
        }
    }

    /// The request that `step` asked for was posted.
    pub fn note_posted(&mut self)
        requires
            old(self).inv(),
            old(self).next() is Post,
        ensures
            final(self).inv(),
            *final(self) == (Burst { posted: (old(self).posted + 1) as u64, ..*old(self) }),
    {
        self.posted = self.posted + 1;
    }

    /// `n` completions were polled.
    pub fn note_done(&mut self, n: u64)
        requires
            old(self).inv(),
            n <= old(self).posted - old(self).done,
        ensures
            final(self).inv(),
            *final(self) == (Burst { done: (old(self).done + n) as u64, ..*old(self) }),
    {
        self.done = self.done + n;
    }
}

/// No two messages in flight share a slot, so no buffer is written while a
/// transfer still uses it.
pub proof fn law_slots_in_flight_differ(b: Burst, i: int, j: int)
    requires
        b.inv(),
        b.done <= i < j < b.posted,
    ensures
        b.slot_of(i) != b.slot_of(j),
        0 <= b.slot_of(i) < b.slots,
{
    let n = b.slots as int;
    assert(i % n != j % n && 0 <= i % n < n) by (nonlinear_arith)
        requires
            0 <= i < j,
            j - i < n,
            n > 0,
    ;
}

/// A burst always moves on: unless it is finished it either posts, or waits
/// with requests outstanding.
pub proof fn law_burst_never_stuck(b: Burst)
    requires
        b.inv(),
        !b.complete(),
    ensures
        b.next() is Post || (b.next() is Poll && b.posted > b.done),
{
}

// --------------------------------------------------------- receiving bursts

/// A receiving burst, and what it received.
#[derive(Debug)]
pub struct RecvLane {
    pub burst: Burst,
    pub tally: Tally,
}

impl RecvLane {
    pub open spec fn inv(self) -> bool {
        &&& self.burst.inv()
        &&& self.tally.inv()
        &&& self.tally.count == self.burst.count
        &&& self.tally.done == self.burst.done
    }

    pub fn new(region: usize, size: usize, count: u64, t0: u64, bucket_ns: u64) -> (r: RecvLane)
        requires
            count * size <= u64::MAX,
        ensures
            r.inv(),
            r.burst.slots == slots(region as int, size as int),
            r.burst.window == r.burst.slots,
            r.burst.count == count,
            r.burst.posted == 0,
            r.burst.done == 0,
            r.tally.size == size,
            r.tally.t0 == t0,
            r.tally.bucket_ns == bucket_ns,
            r.tally.span.first is None,
            r.tally.buckets@ == Seq::<u64>::empty(),
    {
        RecvLane {
            burst: Burst::new(region, size, count),
            tally: Tally::new(size as u64, count, t0, bucket_ns),
        }
    }

    pub fn step(&self) -> (r: BurstStep)
        requires
            self.inv(),
        ensures
            r == self.burst.next(),
            r matches BurstStep::Post(s) ==> s < self.burst.slots,
            r is Finished <==> self.burst.complete(),
    {
        self.burst.step()
    }

    pub fn note_posted(&mut self)
        requires
            old(self).inv(),
            old(self).burst.next() is Post,
        ensures
            final(self).inv(),
            final(self).burst == (Burst {
                posted: (old(self).burst.posted + 1) as u64,
                ..old(self).burst
            }),
            final(self).tally == old(self).tally,
    {
        self.burst.note_posted();
    }

    /// `n` receives completed at `now`; nothing changes where `n` is 0.
    pub fn note_done(&mut self, n: u64, now: u64)
        requires
            old(self).inv(),
            n <= old(self).burst.posted - old(self).burst.done,
            bucket_index(
                now as int,
                old(self).tally.t0 as int,
                old(self).tally.bucket_ns as int,
            ) < usize::MAX,
        ensures
            final(self).inv(),
            final(self).burst == (Burst {
                done: (old(self).burst.done + n) as u64,
                ..old(self).burst
            }),
            final(self).tally.same_burst(old(self).tally),
            n == 0 ==> final(self).tally == old(self).tally,
            n > 0 ==> final(self).tally.span == old(self).tally.span.with(now),
            n > 0 ==> final(self).tally.buckets@.len() == max_int(
                old(self).tally.buckets@.len() as int,
                bucket_index(
                    now as int,
                    old(self).tally.t0 as int,
                    old(self).tally.bucket_ns as int,
                ) + 1,
            ),
            n > 0 ==> forall|i: int| #[trigger]
                in_bucket(final(self).tally.buckets@, i) == in_bucket(old(self).tally.buckets@, i)
                    + if i == bucket_index(
                    now as int,
                    old(self).tally.t0 as int,
                    old(self).tally.bucket_ns as int,
                ) {
                    n * old(self).tally.size
                } else {
                    0
                },
    {
        self.burst.note_done(n);
        self.tally.note(n, now);
    }
}

/// When a receiving burst ends, its timeline holds exactly the bytes sent to it,
/// and the last bucket holds some of them.
pub proof fn law_timeline_counts_every_byte(lane: RecvLane)
    requires
        lane.inv(),
        lane.burst.complete(),
    ensures
        total(lane.tally.buckets@) == lane.burst.count * lane.tally.size,
        lane.burst.count == 0 ==> lane.tally.buckets@.len() == 0,
        lane.burst.count > 0 && lane.tally.size > 0 ==> lane.tally.buckets@.len() > 0
            && lane.tally.buckets@.last() > 0,
{
}

// ----------------------------------------------------- both directions at once

/// What a burst in both directions wants next.
#[derive(Clone, Copy, Debug, PartialEq, Eq, Structural)]
pub enum BidirStep {
    PostRecv(usize),
    PostSend(usize),
    PollSend,
    PollRecv,
    Finished,
}

/// Where a round of a bidirectional burst stands.
#[derive(Clone, Copy, Debug, PartialEq, Eq, Structural)]
pub enum BidirPhase {
    /// Receives are posted ahead of everything else.
    FillRecv,
    FillSend,
    SendPolled,
}

/// Both directions of a burst over one queue pair.
#[derive(Clone, Copy, Debug, PartialEq, Eq, Structural)]
pub struct BidirBurst {
    pub send: Burst,
    pub recv: Burst,
    pub phase: BidirPhase,
}

impl BidirBurst {
    pub open spec fn inv(self) -> bool {
        &&& self.send.inv()
        &&& self.recv.inv()
        &&& self.send.count == self.recv.count
        &&& self.phase is FillRecv || !(self.recv.next() is Post)
    }

    pub open spec fn complete(self) -> bool {
        self.send.complete() && self.recv.complete()
    }

    pub fn new(region: usize, size: usize, count: u64) -> (r: BidirBurst)
        ensures
            r.inv(),
            r.send.slots == slots(region as int, size as int),
            r.recv == r.send,
            r.send.window == r.send.slots,
            r.send.count == count,
            r.send.posted == 0,
            r.send.done == 0,
            r.phase is FillRecv,
    {
        let b = Burst::new(region, size, count);
        BidirBurst { send: b, recv: b, phase: BidirPhase::FillRecv }
    }

    /// Receives first, then sends, then one poll of each side that still waits.
    pub open spec fn next(self) -> (BidirStep, BidirPhase) {
        if self.send.done == self.send.count && self.recv.done == self.recv.count {
            (BidirStep::Finished, self.phase)
        } else {
            match self.phase {
                BidirPhase::FillRecv if self.recv.next() is Post => (
                    BidirStep::PostRecv(self.recv.slot_of(self.recv.posted as int) as usize),
                    BidirPhase::FillRecv,
                ),
                BidirPhase::SendPolled if self.recv.done < self.recv.count => (
                    BidirStep::PollRecv,
                    BidirPhase::FillRecv,
                ),
                _ => if self.send.next() is Post {
                    (
                        BidirStep::PostSend(self.send.slot_of(self.send.posted as int) as usize),
                        BidirPhase::FillSend,
                    )
                } else if self.send.done < self.send.count {
                    (BidirStep::PollSend, BidirPhase::SendPolled)
                } else {
                    (BidirStep::PollRecv, BidirPhase::FillRecv)
                },
            }
        }
    }

    /// The next step; a post is counted as made, a poll is answered with
    /// `note_sent` or `note_received`.
    pub fn advance(&mut self) -> (r: BidirStep)
        requires
            old(self).inv(),
        ensures
            final(self).inv(),
            r == old(self).next().0,
            final(self).phase == old(self).next().1,
            final(self).send == (if r is PostSend {
                Burst { posted: (old(self).send.posted + 1) as u64, ..old(self).send }
            } else {
                old(self).send
            }),
            final(self).recv == (if r is PostRecv {
                Burst { posted: (old(self).recv.posted + 1) as u64, ..old(self).recv }
            } else {
                old(self).recv
            }),
            r matches BidirStep::PostSend(s) ==> s < old(self).send.slots,
            r matches BidirStep::PostRecv(s) ==> s < old(self).recv.slots,
            r is Finished <==> old(self).complete(),
    {
        if self.send.done == self.send.count && self.recv.done == self.recv.count {
            return BidirStep::Finished;
        }
        let in_fill = match self.phase {
            BidirPhase::FillRecv => true,
            _ => false,
        };
        let sent = match self.phase {
            BidirPhase::SendPolled => true,
            _ => false,
        };
        if in_fill {
            if let BurstStep::Post(s) = self.recv.step() {
                self.recv.note_posted();
                return BidirStep::PostRecv(s);
            }
        }
        if sent && self.recv.done < self.recv.count {
            self.phase = BidirPhase::FillRecv;
            return BidirStep::PollRecv;
        }
        if let BurstStep::Post(s) = self.send.step() {
            self.send.note_posted();
            self.phase = BidirPhase::FillSend;
            return BidirStep::PostSend(s);
        }
        if self.send.done < self.send.count {
            self.phase = BidirPhase::SendPolled;
            BidirStep::PollSend
        } else {
            self.phase = BidirPhase::FillRecv;
            BidirStep::PollRecv
        }
    }

    pub fn note_sent(&mut self, n: u64)
        requires
            old(self).inv(),
            n <= old(self).send.posted - old(self).send.done,
        ensures
            final(self).inv(),
            *final(self) == (BidirBurst {
                send: Burst { done: (old(self).send.done + n) as u64, ..old(self).send },
                ..*old(self)
            }),
    {
        self.send.note_done(n);
    }

    /// A poll for receives was answered; receives can then be posted again.
    pub fn note_received(&mut self, n: u64)
        requires
            old(self).inv(),
            old(self).phase is FillRecv,
            n <= old(self).recv.posted - old(self).recv.done,
        ensures
            final(self).inv(),
            *final(self) == (BidirBurst {
                recv: Burst { done: (old(self).recv.done + n) as u64, ..old(self).recv },
                ..*old(self)
            }),
    {
        self.recv.note_done(n);
    }
}

/// Both directions always move on: a side is polled only while requests of it are
/// outstanding, and until both are finished there is something to do.
pub proof fn law_both_directions_never_stuck(b: BidirBurst)
    requires
        b.inv(),
        !b.complete(),
    ensures
        !(b.next().0 is Finished),
        b.next().0 is PollSend ==> b.send.posted > b.send.done,
        b.next().0 is PollRecv ==> b.recv.posted > b.recv.done,
{
}

// ------------------------------------------------------- rotating receives

/// Two rotating receive slots: the next receive is always posted before the
/// reply goes out, so the peer never meets a queue without one, and as many are
/// posted as messages come.
#[derive(Clone, Copy, Debug, PartialEq, Eq, Structural)]
pub struct Rotation {
    pub posted: u32,
    pub rounds: u32,
    pub cur: u64,
}

impl Rotation {
    pub open spec fn inv(self) -> bool {
        &&& self.cur <= self.rounds
        &&& self.posted == if self.cur + 2 < self.rounds {
            self.cur + 2
        } else {
            self.rounds as int
        }
    }

    /// Ready for `rounds` messages; slots `0..posted` are posted up front.
    pub fn begin(rounds: u32) -> (r: Rotation)
        ensures
            r.inv(),
            r.rounds == rounds,
            r.cur == 0,
            r.posted == if rounds < 2 {
                rounds
            } else {
                2
            },
    {
        let pre: u32 = if rounds < 2 {
            rounds
        } else {
            2
        };
        Rotation { posted: pre, rounds, cur: 0 }
    }

    /// A message arrived: the slot on which to post the next receive, if one is
    /// still owed. It is the slot that the message just left.
    pub fn turn(&mut self) -> (r: Option<usize>)
        requires
            old(self).inv(),
            old(self).cur < old(self).rounds,
        ensures
            final(self).inv(),
            final(self).rounds == old(self).rounds,
            final(self).cur == old(self).cur + 1,
            match r {
                Some(slot) => old(self).posted < old(self).rounds && slot == old(self).cur % 2
                    && final(self).posted == old(self).posted + 1,
                None => old(self).posted == old(self).rounds && final(self).posted
                    == old(self).posted,
            },
    {
        let slot: u64 = self.cur % 2;
        self.cur = self.cur + 1;
        if self.posted < self.rounds {
            self.posted = self.posted + 1;
            Some(slot as usize)
        } else {
            None
        }
    }
}

/// A receive is posted whenever a message can still come, at most two at a time;
/// after the last one none is left over.
pub proof fn law_rotation_is_balanced(r: Rotation)
    requires
        r.inv(),
    ensures
        r.cur < r.rounds ==> 1 <= r.posted - r.cur <= 2,
        r.cur == r.rounds ==> r.posted == r.cur,
{
}

/// The receives a rotation posts alternate between two slots: message `k` is
/// received on slot `k % 2`.
pub proof fn law_rotation_alternates(r: Rotation)
    requires
        r.inv(),
        r.posted < r.rounds,
    ensures
        r.cur % 2 == r.posted % 2,
{
}

// ------------------------------------------------------------ flagged echo

/// What the echoer of a loaded ping does with a message.
#[derive(Clone, Copy, Debug, PartialEq, Eq, Structural)]
pub enum FlagStep {
    /// Post the slot again, then reply.
    RepostAndReply,
    /// Reply, then take the drain message on the receive that is left.
    ReplyAndDrain,
}

/// The echoer's side of a loaded ping: receives posted and messages taken.
#[derive(Clone, Copy, Debug, PartialEq, Eq, Structural)]
pub struct FlaggedEcho {
    pub posted: u64,
    pub taken: u64,
    pub done: bool,
}

impl FlaggedEcho {
    pub open spec fn inv(self) -> bool {
        if self.done {
            self.posted == self.taken
        } else {
            self.posted == self.taken + 2
        }
    }

    /// Two receives are posted before the first ping.
    pub fn begin() -> (r: FlaggedEcho)
        ensures
            r.inv(),
            r.posted == 2,
            r.taken == 0,
            !r.done,
    {
        FlaggedEcho { posted: 2, taken: 0, done: false }
    }

    /// The state once a ping with this flag byte arrived. The last one is marked
    /// 1; with it the drain message is accounted for too.
    pub open spec fn after(self, flag: u8) -> FlaggedEcho {
        if flag == 1 {
            FlaggedEcho { posted: self.posted, taken: (self.taken + 2) as u64, done: true }
        } else {
            FlaggedEcho {
                posted: (self.posted + 1) as u64,
                taken: (self.taken + 1) as u64,
                done: false,
            }
        }
    }

    pub fn ping(&mut self, flag: u8) -> (r: FlagStep)
        requires
            old(self).inv(),
            !old(self).done,
            old(self).posted < u64::MAX,
        ensures
            final(self).inv(),
            *final(self) == old(self).after(flag),
            r is ReplyAndDrain <==> flag == 1,
    {
        if flag == 1 {
            self.taken = self.taken + 2;
            self.done = true;
            FlagStep::ReplyAndDrain
        } else {
            self.taken = self.taken + 1;
            self.posted = self.posted + 1;
            FlagStep::RepostAndReply
        }
    }
}

/// The echoer after pings with these flag bytes.
pub open spec fn echoed(flags: Seq<u8>) -> FlaggedEcho
    decreases flags.len(),
{
    if flags.len() == 0 {
        FlaggedEcho { posted: 2, taken: 0, done: false }
    } else {
        echoed(flags.drop_last()).after(flags.last())
    }
}

/// An initiator's pings and its one drain message leave the echoer finished,
/// with exactly as many receives posted as messages arrived.
pub proof fn law_loaded_ping_is_balanced(flags: Seq<u8>)
    requires
        initiator_flags(flags),
        flags.len() < u64::MAX - 2,
    ensures
        echoed(flags).done,
        echoed(flags).posted == flags.len() + 1,
        echoed(flags).taken == flags.len() + 1,
{
    lemma_unmarked_pings(flags.drop_last());
}

proof fn lemma_unmarked_pings(flags: Seq<u8>)
    requires
        forall|i: int| 0 <= i < flags.len() ==> #[trigger] flags[i] != 1,
        flags.len() < u64::MAX - 3,
    ensures
        !echoed(flags).done,
        echoed(flags).posted == flags.len() + 2,
        echoed(flags).taken == flags.len(),
    decreases flags.len(),
{
    if flags.len() > 0 {
        lemma_unmarked_pings(flags.drop_last());
    }
}

/// A burst keeps its window full: it posts exactly where a message is left and the
/// window has room, on the slot whose turn it is, waits where it has not, and is
/// over exactly where every message has completed.
pub proof fn law_burst_keeps_its_window_full(b: Burst)
    requires
        b.inv(),
    ensures
        b.next() is Finished <==> b.done == b.count,
        b.next() is Post <==> b.posted < b.count && b.posted - b.done < b.window,
        b.next() is Post ==> b.next()->Post_0 == b.posted as int % b.slots as int,
        b.next() is Poll <==> b.done < b.count && (b.posted == b.count || b.posted - b.done
            == b.window),
{
}

/// Both ways at once, receives are posted before sends whenever the round begins
/// anew: nothing is sent while a receive could still be posted.
pub proof fn law_receives_are_posted_first(b: BidirBurst)
    requires
        b.inv(),
        b.phase is FillRecv,
        !b.complete(),
        b.recv.posted < b.recv.count,
        b.recv.posted - b.recv.done < b.recv.window,
    ensures
        b.next().0 is PostRecv,
        b.next().0->PostRecv_0 == b.recv.posted as int % b.recv.slots as int,
{
}

} // verus!
