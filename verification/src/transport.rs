//! Data-plane abstraction and the arithmetic both transports share: how a
//! burst is spread over the lanes, how the lanes' timings and byte counts are
//! put together again. Both ends of a test compute the same shares, so no
//! framing bytes travel on the wire.
//!
//! Instants are nanoseconds on the local monotonic clock.

use crate::text::decimal;
use vstd::prelude::*;

verus! {

/// Receive-side timing of a burst: completion time of the first and last
/// message. Rate = (n-1)*size / (last-first), immune to clock skew and to
/// ramp-up on the sending side.
#[derive(Clone, Copy, Debug, PartialEq, Eq, Structural)]
pub struct RecvTiming {
    pub first: u64,
    pub last: u64,
    pub count: u64,
}

/// A transport, driven the same way on both ends of a test.
pub trait DataPlane: Send {
    fn kind(&self) -> String;

    fn max_msg(&self) -> usize;

    /// A short human description of the path (streams, device, mtu...).
    fn describe(&self) -> String;

    fn send_burst(&mut self, size: usize, count: u64) -> Result<(), String>;

    fn recv_burst(&mut self, size: usize, count: u64) -> Result<RecvTiming, String>;

    /// Send and receive `count` messages each way concurrently; returns local
    /// receive timing.
    fn bidir_burst(&mut self, size: usize, count: u64) -> Result<RecvTiming, String>;

    /// Send one message and wait for the same-sized echo.
    fn ping(&mut self, size: usize) -> Result<(), String>;

    /// Echo `iters` messages of `size`.
    fn echo(&mut self, size: usize, iters: u32) -> Result<(), String>;

    /// Number of parallel lanes (TCP streams / RDMA QPs). Lane 0 carries
    /// latency traffic; the loaded-ping test needs at least 2.
    fn lanes(&self) -> usize;

    /// Like `recv_burst`, but also bucket received bytes into windows of
    /// `bucket_ns` from the first call instant. The last value is the number of
    /// leading buckets during which every lane was still active.
    fn recv_timeline(&mut self, size: usize, count: u64, bucket_ns: u64) -> Result<
        (RecvTiming, Vec<u64>, usize),
        String,
    >;

    /// Ping continuously on lane 0 (RTTs returned, ns) while lanes 1..N send
    /// `bulk_count` messages of `bulk_size`. The final ping carries flag byte
    /// 1, followed by one unechoed drain message.
    fn loaded_ping_initiator(
        &mut self,
        ping_size: usize,
        bulk_size: usize,
        bulk_count: u64,
    ) -> Result<Vec<u64>, String>;

    /// Counterpart: echo flagged pings on lane 0 while lanes 1..N receive the
    /// bulk stream.
    fn loaded_ping_echoer(
        &mut self,
        ping_size: usize,
        bulk_size: usize,
        bulk_count: u64,
    ) -> Result<(), String>;

    /// Prepare `rounds` pipelined small-all-reduce rounds of `chunk` bytes.
    fn reduce_begin(&mut self, chunk: usize, rounds: u32) -> Result<(), String>;

    /// One round: exchange `chunk` bytes both directions with the peer.
    fn reduce_round(&mut self, chunk: usize) -> Result<(), String>;
}

// ------------------------------------------------------------------- spans

/// The first and last completion seen by one lane.
#[derive(Clone, Copy, Debug, PartialEq, Eq, Structural)]
pub struct Span {
    pub first: Option<u64>,
    pub last: Option<u64>,
}

impl Span {
    pub open spec fn inv(self) -> bool {
        self.first is Some <==> self.last is Some
    }

    /// This span with a completion at `now` added.
    pub open spec fn with(self, now: u64) -> Span {
        Span {
            first: match self.first {
                Some(f) => Some(f),
                None => Some(now),
            },
            last: Some(now),
        }
    }

    pub fn empty() -> (r: Span)
        ensures
            r.inv(),
            r.first is None,
            r.last is None,
    {
        Span { first: None, last: None }
    }

    pub fn note(&mut self, now: u64)
        ensures
            final(self).inv(),
            *final(self) == old(self).with(now),
    {
        if self.first.is_none() {
            self.first = Some(now);
        }
        self.last = Some(now);
    }

    /// Both ends, where anything completed.
    pub fn ends(&self) -> (r: Option<(u64, u64)>)
        ensures
            r == (match (self.first, self.last) {
                (Some(f), Some(l)) => Some((f, l)),
                _ => None,
            }),
    {
        match (self.first, self.last) {
            (Some(f), Some(l)) => Some((f, l)),
            _ => None,
        }
    }
}

// ------------------------------------------------------------------ shares

/// What lane `i` of `n` carries of `count` messages.
pub open spec fn share(count: int, n: int, i: int) -> int {
    count / n + if i < count % n {
        1int
    } else {
        0
    }
}

/// The sum of a list of counts.
pub open spec fn total(s: Seq<u64>) -> int
    decreases s.len(),
{
    if s.len() == 0 {
        0
    } else {
        total(s.drop_last()) + s.last()
    }
}

/// `r` spreads `count` messages over `n` lanes.
pub open spec fn spread(r: Seq<u64>, count: int, n: int) -> bool {
    r.len() == n && forall|i: int| 0 <= i < n ==> #[trigger] r[i] == share(count, n, i)
}

/// Split `count` messages across `n` lanes, the remainder over the first ones.
pub fn shares(count: u64, n: usize) -> (r: Vec<u64>)
    requires
        n > 0,
    ensures
        spread(r@, count as int, n as int),
        total(r@) == count,
{
    let lanes: u64 = n as u64;
    let base: u64 = count / lanes;
    let extra: u64 = count % lanes;
    let mut r: Vec<u64> = Vec::new();
    let mut i: u64 = 0;
    proof {
        assert(base + 1 <= u64::MAX || extra == 0) by (nonlinear_arith)
            requires
                lanes > 0,
                base == count / lanes,
                extra == count % lanes,
                count <= u64::MAX,
        ;
    }
    while i < lanes
        invariant
            lanes == n,
            n > 0,
            base == count / lanes,
            extra == count % lanes,
            base + 1 <= u64::MAX || extra == 0,
            i <= lanes,
            r@.len() == i,
            forall|j: int| 0 <= j < i ==> #[trigger] r@[j] == share(count as int, n as int, j),
        decreases lanes - i,
    {
        let s: u64 = if i < extra {
            base + 1
        } else {
            base
        };
        r.push(s);
        i += 1;
    }
    proof {
        law_shares_cover(r@, count as int, n as int);
    }
    r
}

proof fn lemma_shares_prefix(r: Seq<u64>, count: int, n: int, k: int)
    requires
        spread(r, count, n),
        n > 0,
        count >= 0,
        0 <= k <= n,
    ensures
        total(r.take(k)) == k * (count / n) + if k < count % n {
            k
        } else {
            count % n
        },
    decreases k,
{
    if k == 0 {
        assert(r.take(0) =~= Seq::empty());
        assert(0 * (count / n) == 0) by (nonlinear_arith);
        assert(count % n >= 0) by (nonlinear_arith)
            requires
                n > 0,
        ;
    } else {
        lemma_shares_prefix(r, count, n, k - 1);
        assert(r.take(k).drop_last() =~= r.take(k - 1));
        assert(r.take(k).last() == r[k - 1]);
        let b = count / n;
        assert(k * b == (k - 1) * b + b) by (nonlinear_arith);
    }
}

/// Every message is on exactly one lane: the shares add up to the count, and
/// no two lanes differ by more than one message.
pub proof fn law_shares_cover(r: Seq<u64>, count: int, n: int)
    requires
        spread(r, count, n),
        n > 0,
        count >= 0,
    ensures
        total(r) == count,
        forall|i: int, j: int| 0 <= i < n && 0 <= j < n ==> #[trigger] r[i] - #[trigger] r[j] <= 1,
        forall|i: int, j: int| 0 <= i <= j < n ==> #[trigger] r[i] >= #[trigger] r[j],
{
    lemma_shares_prefix(r, count, n, n);
    assert(r.take(n) =~= r);
    vstd::arithmetic::div_mod::lemma_fundamental_div_mod(count, n);
    assert(count % n < n) by (nonlinear_arith)
        requires
            n > 0,
    ;
}

/// Both ends split a burst alike: whatever the counts are, the sender's and the
/// receiver's lists of shares are equal.
pub proof fn law_shares_pair_up(sent: Seq<u64>, received: Seq<u64>, count: int, n: int)
    requires
        spread(sent, count, n),
        spread(received, count, n),
    ensures
        sent == received,
{
    assert(sent =~= received);
}

/// The share of bulk lane `i` of `n`, one lane at a time.
pub fn bulk_share(bulk_count: u64, n: u64, i: u64) -> (r: u64)
    requires
        i < n,
    ensures
        r == share(bulk_count as int, n as int, i as int),
{
    proof {
        assert(bulk_count / n + 1 <= u64::MAX || bulk_count % n == 0) by (nonlinear_arith)
            requires
                n > 0,
                bulk_count <= u64::MAX,
        ;
    }
    if i < bulk_count % n {
        bulk_count / n + 1
    } else {
        bulk_count / n
    }
}

/// Small bursts stay on stream 0 without spawning threads; the rule is a pure
/// function of (size, count) so both ends agree on stream layout.
pub fn small(size: usize, count: u64) -> (r: bool)
    requires
        size * count <= u64::MAX,
    ensures
        r == (size * count <= 0x10_0000),
{
    size as u64 * count <= 0x10_0000
}

/// Largest all-reduce chunk that send-then-receive may carry over one stream.
pub const MAX_ROUND_CHUNK: usize = 0x40_0000;

/// Send-then-receive is deadlock-safe only while the chunk fits in the socket
/// buffers; rounds are small by design.
pub fn check_round_chunk(chunk: usize) -> (r: Result<(), String>)
    ensures
        chunk <= MAX_ROUND_CHUNK ==> r == Ok::<(), String>(()),
        chunk > MAX_ROUND_CHUNK ==> r is Err && r->Err_0@ == "reduce_round chunk "@
            + crate::text::dec(chunk as nat) + " too large for the TCP path"@,
{
    if chunk > MAX_ROUND_CHUNK {
        Err(
            "reduce_round chunk ".to_owned().concat(decimal(chunk as u64).as_str()).concat(
                " too large for the TCP path",
            ),
        )
    } else {
        Ok(())
    }
}

/// A message must fit the buffer of its lane; `what` names that buffer.
pub fn check_size(size: usize, max: usize, what: &str) -> (r: Result<(), String>)
    ensures
        size <= max ==> r == Ok::<(), String>(()),
        size > max ==> r is Err && r->Err_0@ == "message size "@ + crate::text::dec(size as nat)
            + " exceeds "@ + what@ + " "@ + crate::text::dec(max as nat),
{
    if size > max {
        Err(
            "message size ".to_owned().concat(decimal(size as u64).as_str()).concat(
                " exceeds ",
            ).concat(what).concat(" ").concat(decimal(max as u64).as_str()),
        )
    } else {
        Ok(())
    }
}

// ----------------------------------------------------------------- timings

pub open spec fn min_int(a: int, b: int) -> int {
    if a <= b {
        a
    } else {
        b
    }
}

pub open spec fn max_int(a: int, b: int) -> int {
    if a >= b {
        a
    } else {
        b
    }
}

/// First completion of a lane that received something.
pub open spec fn first_of(part: Option<(u64, u64)>) -> int {
    match part {
        Some((f, _)) => f as int,
        None => 0,
    }
}

/// Last completion of a lane that received something.
pub open spec fn last_of(part: Option<(u64, u64)>) -> int {
    match part {
        Some((_, l)) => l as int,
        None => 0,
    }
}

/// The earliest first completion of the lanes that received anything.
pub open spec fn earliest(parts: Seq<Option<(u64, u64)>>) -> Option<u64>
    decreases parts.len(),
{
    if parts.len() == 0 {
        None
    } else {
        match (earliest(parts.drop_last()), parts.last()) {
            (a, None) => a,
            (None, Some((f, _))) => Some(f),
            (Some(a), Some((f, _))) => Some(
                if a <= f {
                    a
                } else {
                    f
                },
            ),
        }
    }
}

/// The latest last completion of the lanes that received anything.
pub open spec fn latest(parts: Seq<Option<(u64, u64)>>) -> Option<u64>
    decreases parts.len(),
{
    if parts.len() == 0 {
        None
    } else {
        match (latest(parts.drop_last()), parts.last()) {
            (a, None) => a,
            (None, Some((_, l))) => Some(l),
            (Some(a), Some((_, l))) => Some(
                if a >= l {
                    a
                } else {
                    l
                },
            ),
        }
    }
}

/// One timing for the whole burst: the span that covers every lane, or `now`
/// where no lane received anything.
pub fn merge_timings(parts: Vec<Option<(u64, u64)>>, count: u64, now: u64) -> (r: RecvTiming)
    ensures
        r.count == count,
        r.first == (match earliest(parts@) {
            Some(f) => f,
            None => now,
        }),
        r.last == (match latest(parts@) {
            Some(l) => l,
            None => now,
        }),
{
    let mut first: Option<u64> = None;
    let mut last: Option<u64> = None;
    let mut i: usize = 0;
    assert(parts@.take(0) =~= Seq::empty());
    while i < parts.len()
        invariant
            i <= parts@.len(),
            first == earliest(parts@.take(i as int)),
            last == latest(parts@.take(i as int)),
        decreases parts@.len() - i,
    {
        proof {
            assert(parts@.take(i + 1).drop_last() =~= parts@.take(i as int));
            assert(parts@.take(i + 1).last() == parts@[i as int]);
        }
        if let Some((f, l)) = parts[i] {
            first =
            match first {
                Some(a) => Some(
                    if a <= f {
                        a
                    } else {
                        f
                    },
                ),
                None => Some(f),
            };
            last =
            match last {
                Some(a) => Some(
                    if a >= l {
                        a
                    } else {
                        l
                    },
                ),
                None => Some(l),
            };
        }
        i += 1;
    }
    assert(parts@.take(i as int) =~= parts@);
    RecvTiming {
        first: match first {
            Some(f) => f,
            None => now,
        },
        last: match last {
            Some(l) => l,
            None => now,
        },
        count,
    }
}

/// The merged span covers every lane's own span.
pub proof fn law_merged_span_covers(parts: Seq<Option<(u64, u64)>>, k: int)
    requires
        0 <= k < parts.len(),
        parts[k] is Some,
    ensures
        earliest(parts) is Some,
        latest(parts) is Some,
        earliest(parts)->0 <= first_of(parts[k]),
        last_of(parts[k]) <= latest(parts)->0,
    decreases parts.len(),
{
    if k < parts.len() - 1 {
        law_merged_span_covers(parts.drop_last(), k);
    }
}

/// The bucket in which a completion at `at` falls, counted from `t0`.
pub open spec fn bucket_index(at: int, t0: int, bucket_ns: int) -> int {
    max_int(at - t0, 0) / max_int(bucket_ns, 1)
}

pub fn bucket_of(at: u64, t0: u64, bucket_ns: u64) -> (r: u64)
    ensures
        r == bucket_index(at as int, t0 as int, bucket_ns as int),
{
    let since: u64 = if at >= t0 {
        at - t0
    } else {
        0
    };
    let width: u64 = if bucket_ns >= 1 {
        bucket_ns
    } else {
        1
    };
    since / width
}

/// The bucket in which the first lane completed its share, if any lane
/// received anything.
pub open spec fn first_finish(
    parts: Seq<Option<(u64, u64)>>,
    t0: int,
    bucket_ns: int,
) -> Option<int>
    decreases parts.len(),
{
    if parts.len() == 0 {
        None
    } else {
        match (first_finish(parts.drop_last(), t0, bucket_ns), parts.last()) {
            (a, None) => a,
            (None, Some((_, l))) => Some(bucket_index(l as int, t0, bucket_ns)),
            (Some(a), Some((_, l))) => Some(min_int(a, bucket_index(l as int, t0, bucket_ns))),
        }
    }
}

/// Buckets fully covered by the earliest-finishing lane: index of the bucket in
/// which the first lane completed its share, at most `total`.
pub fn steady_buckets(
    parts: &[Option<(u64, u64)>],
    t0: u64,
    bucket_ns: u64,
    total: usize,
) -> (r: usize)
    ensures
        r == (match first_finish(parts@, t0 as int, bucket_ns as int) {
            Some(b) => min_int(b, total as int),
            None => total as int,
        }),
{
    let mut best: Option<u64> = None;
    let mut i: usize = 0;
    assert(parts@.take(0) =~= Seq::empty());
    while i < parts.len()
        invariant
            i <= parts@.len(),
            match best {
                Some(b) => first_finish(parts@.take(i as int), t0 as int, bucket_ns as int) == Some(
                    b as int,
                ),
                None => first_finish(parts@.take(i as int), t0 as int, bucket_ns as int) is None,
            },
        decreases parts@.len() - i,
    {
        proof {
            assert(parts@.take(i + 1).drop_last() =~= parts@.take(i as int));
            assert(parts@.take(i + 1).last() == parts@[i as int]);
        }
        if let Some((_, l)) = parts[i] {
            let b = bucket_of(l, t0, bucket_ns);
            best =
            match best {
                Some(a) => Some(
                    if a <= b {
                        a
                    } else {
                        b
                    },
                ),
                None => Some(b),
            };
        }
        i += 1;
    }
    assert(parts@.take(i as int) =~= parts@);
    match best {
        Some(b) => if b <= total as u64 {
            b as usize
        } else {
            total
        },
        None => total,
    }
}

/// Inside the steady window no lane has finished yet.
pub proof fn law_steady_lanes_active(
    parts: Seq<Option<(u64, u64)>>,
    t0: int,
    bucket_ns: int,
    k: int,
)
    requires
        0 <= k < parts.len(),
        parts[k] is Some,
    ensures
        first_finish(parts, t0, bucket_ns) is Some,
        first_finish(parts, t0, bucket_ns)->0 <= bucket_index(last_of(parts[k]), t0, bucket_ns),
    decreases parts.len(),
{
    if k < parts.len() - 1 {
        law_steady_lanes_active(parts.drop_last(), t0, bucket_ns, k);
    }
}

/// The same lanes, in whatever order.
pub open spec fn same_lanes(a: Seq<Option<(u64, u64)>>, b: Seq<Option<(u64, u64)>>) -> bool {
    forall|x: Option<(u64, u64)>| #[trigger] a.contains(x) <==> b.contains(x)
}

/// The order in which lanes report does not matter: neither the span that covers
/// them nor the steady window depends on it.
pub proof fn law_lane_order_does_not_matter(
    a: Seq<Option<(u64, u64)>>,
    b: Seq<Option<(u64, u64)>>,
    t0: int,
    bucket_ns: int,
)
    requires
        same_lanes(a, b),
    ensures
        earliest(a) == earliest(b),
        latest(a) == latest(b),
        first_finish(a, t0, bucket_ns) == first_finish(b, t0, bucket_ns),
{
    lemma_extremes(a, b, t0, bucket_ns);
    lemma_extremes(b, a, t0, bucket_ns);
}

/// What holds of the extremes of `a` where all of its lanes are among `b`.
proof fn lemma_extremes(
    a: Seq<Option<(u64, u64)>>,
    b: Seq<Option<(u64, u64)>>,
    t0: int,
    bucket_ns: int,
)
    requires
        forall|x: Option<(u64, u64)>| #[trigger] a.contains(x) ==> b.contains(x),
    ensures
        earliest(a) is Some ==> earliest(b) is Some && earliest(b)->0 <= earliest(a)->0,
        latest(a) is Some ==> latest(b) is Some && latest(b)->0 >= latest(a)->0,
        first_finish(a, t0, bucket_ns) is Some ==> first_finish(b, t0, bucket_ns) is Some
            && first_finish(b, t0, bucket_ns)->0 <= first_finish(a, t0, bucket_ns)->0,
    decreases a.len(),
{
    if a.len() > 0 {
        let rest = a.drop_last();
        assert forall|x: Option<(u64, u64)>| #[trigger] rest.contains(x) implies b.contains(x) by {
            let i = choose|i: int| 0 <= i < rest.len() && rest[i] == x;
            assert(a[i] == x);
            assert(a.contains(x));
        }
        lemma_extremes(rest, b, t0, bucket_ns);
        if a.last() is Some {
            assert(a[a.len() - 1] == a.last());
            assert(a.contains(a.last()));
            let k = choose|k: int| 0 <= k < b.len() && b[k] == a.last();
            law_merged_span_covers(b, k);
            law_steady_lanes_active(b, t0, bucket_ns, k);
        }
    }
}

// ----------------------------------------------------------------- buckets

/// The bytes of bucket `i`; buckets behind the end hold none.
pub open spec fn in_bucket(b: Seq<u64>, i: int) -> int {
    if 0 <= i < b.len() {
        b[i] as int
    } else {
        0
    }
}

proof fn lemma_total_zeros(s: Seq<u64>, n: int)
    requires
        0 <= n <= s.len(),
        forall|i: int| n <= i < s.len() ==> s[i] == 0,
    ensures
        total(s) == total(s.take(n)),
    decreases s.len(),
{
    if n == s.len() {
        assert(s.take(n) =~= s);
    } else {
        lemma_total_zeros(s.drop_last(), n);
        assert(s.drop_last().take(n) =~= s.take(n));
    }
}

proof fn lemma_total_update(s: Seq<u64>, i: int, v: u64)
    requires
        0 <= i < s.len(),
    ensures
        total(s.update(i, v)) == total(s) - s[i] + v,
    decreases s.len(),
{
    let t = s.update(i, v);
    if i == s.len() - 1 {
        assert(t.drop_last() =~= s.drop_last());
    } else {
        lemma_total_update(s.drop_last(), i, v);
        assert(t.drop_last() =~= s.drop_last().update(i, v));
    }
}

fn extend_zeros(b: &mut Vec<u64>, len: usize)
    ensures
        final(b)@.len() == max_int(old(b)@.len() as int, len as int),
        forall|i: int| #[trigger] in_bucket(final(b)@, i) == in_bucket(old(b)@, i),
        total(final(b)@) == total(old(b)@),
{
    let ghost b0 = b@;
    while b.len() < len
        invariant
            b0.len() <= b@.len(),
            b@.len() <= max_int(b0.len() as int, len as int),
            b@.take(b0.len() as int) == b0,
            forall|i: int| b0.len() <= i < b@.len() ==> b@[i] == 0,
        decreases len - b@.len(),
    {
        b.push(0);
        assert(b@.take(b0.len() as int) =~= b0);
    }
    proof {
        lemma_total_zeros(b@, b0.len() as int);
        assert forall|i: int| #[trigger] in_bucket(b@, i) == in_bucket(b0, i) by {
            if 0 <= i < b0.len() {
                assert(b@[i] == b@.take(b0.len() as int)[i]);
            }
        }
    }
}

/// Count `bytes` received in bucket `idx`, growing the timeline as needed.
pub fn record_bytes(buckets: &mut Vec<u64>, idx: usize, bytes: u64)
    requires
        idx < usize::MAX,
        in_bucket(old(buckets)@, idx as int) + bytes <= u64::MAX,
    ensures
        final(buckets)@.len() == max_int(old(buckets)@.len() as int, idx + 1),
        forall|i: int| #[trigger]
            in_bucket(final(buckets)@, i) == in_bucket(old(buckets)@, i) + if i == idx {
                bytes as int
            } else {
                0
            },
        total(final(buckets)@) == total(old(buckets)@) + bytes,
{
    let ghost b0 = buckets@;
    extend_zeros(buckets, idx + 1);
    let ghost b1 = buckets@;
    assert(in_bucket(b1, idx as int) == b1[idx as int]);
    let v: u64 = buckets[idx] + bytes;
    buckets.set(idx, v);
    proof {
        lemma_total_update(b1, idx as int, v);
        assert forall|i: int| #[trigger] in_bucket(buckets@, i) == in_bucket(b0, i) + (if i == idx {
            bytes as int
        } else {
            0
        }) by {
            assert(in_bucket(b1, i) == in_bucket(b0, i));
        }
    }
}

/// A bucket never holds more than the whole timeline.
pub proof fn lemma_bucket_below_total(s: Seq<u64>, i: int)
    ensures
        0 <= in_bucket(s, i) <= total(s),
    decreases s.len(),
{
    if s.len() > 0 {
        lemma_bucket_below_total(s.drop_last(), i);
        if i == s.len() - 1 {
            lemma_bucket_below_total(s.drop_last(), 0);
        }
    }
}

/// Add one lane's timeline to the sum of the lanes.
pub fn merge_buckets(all: &mut Vec<u64>, lane: &Vec<u64>)
    requires
        total(old(all)@) + total(lane@) <= u64::MAX,
    ensures
        final(all)@.len() == max_int(old(all)@.len() as int, lane@.len() as int),
        forall|i: int| #[trigger]
            in_bucket(final(all)@, i) == in_bucket(old(all)@, i) + in_bucket(lane@, i),
        total(final(all)@) == total(old(all)@) + total(lane@),
{
    let ghost a0 = all@;
    let ghost n0 = max_int(a0.len() as int, lane@.len() as int);
    extend_zeros(all, lane.len());
    let mut i: usize = 0;
    assert(lane@.take(0) =~= Seq::empty());
    while i < lane.len()
        invariant
            i <= lane@.len(),
            all@.len() == n0,
            n0 >= lane@.len(),
            total(a0) + total(lane@) <= u64::MAX,
            forall|k: int| 0 <= k < i ==> #[trigger] in_bucket(all@, k) == in_bucket(a0, k)
                + in_bucket(lane@, k),
            forall|k: int| !(0 <= k < i) ==> #[trigger] in_bucket(all@, k) == in_bucket(a0, k),
            total(all@) == total(a0) + total(lane@.take(i as int)),
        decreases lane@.len() - i,
    {
        let ghost before = all@;
        proof {
            lemma_bucket_below_total(a0, i as int);
            lemma_bucket_below_total(lane@, i as int);
            assert(in_bucket(before, i as int) == before[i as int]);
            assert(in_bucket(lane@, i as int) == lane@[i as int]);
            assert(lane@.take(i + 1).drop_last() =~= lane@.take(i as int));
        }
        let v: u64 = all[i] + lane[i];
        all.set(i, v);
        proof {
            lemma_total_update(before, i as int, v);
            assert forall|k: int| 0 <= k < i + 1 implies #[trigger] in_bucket(all@, k) == in_bucket(
                a0,
                k,
            ) + in_bucket(lane@, k) by {
                if k != i {
                    assert(in_bucket(all@, k) == in_bucket(before, k));
                }
            }
            assert forall|k: int| !(0 <= k < i + 1) implies #[trigger] in_bucket(all@, k)
                == in_bucket(a0, k) by {
                assert(in_bucket(all@, k) == in_bucket(before, k));
            }
        }
        i += 1;
    }
    assert(lane@.take(i as int) =~= lane@);
}

// ------------------------------------------------------------ lane by lane

/// A timeline ends with a bucket that holds something; an empty one has none.
pub open spec fn ends_filled(b: Seq<u64>) -> bool {
    b.len() > 0 ==> b.last() > 0
}

/// What one lane receives of a burst: its completions and the bytes per time
/// bucket.
#[derive(Debug)]
pub struct Tally {
    pub size: u64,
    pub count: u64,
    pub done: u64,
    pub t0: u64,
    pub bucket_ns: u64,
    pub span: Span,
    pub buckets: Vec<u64>,
}

impl Tally {
    pub open spec fn inv(self) -> bool {
        &&& self.done <= self.count
        &&& self.count * self.size <= u64::MAX
        &&& self.span.inv()
        &&& (self.span.first is Some <==> self.done > 0)
        &&& (self.buckets@.len() > 0 <==> self.done > 0)
        &&& total(self.buckets@) == self.done * self.size
        &&& self.size > 0 ==> ends_filled(self.buckets@)
    }

    /// The part that stays as it is while messages come in.
    pub open spec fn same_burst(self, other: Tally) -> bool {
        self.size == other.size && self.count == other.count && self.t0 == other.t0
            && self.bucket_ns == other.bucket_ns
    }

    pub fn new(size: u64, count: u64, t0: u64, bucket_ns: u64) -> (r: Tally)
        requires
            count * size <= u64::MAX,
        ensures
            r.inv(),
            r.size == size,
            r.count == count,
            r.done == 0,
            r.t0 == t0,
            r.bucket_ns == bucket_ns,
            r.span.first is None,
            r.buckets@ == Seq::<u64>::empty(),
    {
        proof {
            assert(0 * size == 0) by (nonlinear_arith);
        }
        Tally { size, count, done: 0, t0, bucket_ns, span: Span::empty(), buckets: Vec::new() }
    }

    /// `n` messages completed at `now`; nothing changes where `n` is 0.
    pub fn note(&mut self, n: u64, now: u64)
        requires
            old(self).inv(),
            n <= old(self).count - old(self).done,
            bucket_index(now as int, old(self).t0 as int, old(self).bucket_ns as int) < usize::MAX,
        ensures
            final(self).inv(),
            final(self).same_burst(*old(self)),
            final(self).done == old(self).done + n,
            n == 0 ==> *final(self) == *old(self),
            n > 0 ==> final(self).span == old(self).span.with(now),
            n > 0 ==> final(self).buckets@.len() == max_int(
                old(self).buckets@.len() as int,
                bucket_index(now as int, old(self).t0 as int, old(self).bucket_ns as int) + 1,
            ),
            n > 0 ==> forall|i: int| #[trigger]
                in_bucket(final(self).buckets@, i) == in_bucket(old(self).buckets@, i) + if i
                    == bucket_index(now as int, old(self).t0 as int, old(self).bucket_ns as int) {
                    n * old(self).size
                } else {
                    0
                },
    {
        if n == 0 {
            return ;
        }
        let at: u64 = bucket_of(now, self.t0, self.bucket_ns);
        proof {
            let (d, c, sz) = (self.done as int, self.count as int, self.size as int);
            assert((d + n) * sz == d * sz + n * sz && (d + n) * sz <= c * sz && n * sz >= 0)
                by (nonlinear_arith)
                requires
                    d + n <= c,
                    sz >= 0,
                    n >= 0,
            ;
            lemma_bucket_below_total(self.buckets@, at as int);
        }
        let bytes: u64 = n * self.size;
        let ghost had = self.buckets@;
        record_bytes(&mut self.buckets, at as usize, bytes);
        self.span.note(now);
        self.done = self.done + n;
        proof {
            let b = self.buckets@;
            let k = b.len() - 1;
            assert(in_bucket(b, k) == in_bucket(had, k) + if k == at {
                bytes as int
            } else {
                0
            });
            if self.size > 0 {
                assert(bytes > 0) by (nonlinear_arith)
                    requires
                        bytes == n * self.size,
                        n > 0,
                        self.size > 0,
                ;
            }
        }
    }

    pub fn report(self) -> (r: LaneReport)
        ensures
            r.ends == (match (self.span.first, self.span.last) {
                (Some(f), Some(l)) => Some((f, l)),
                _ => None,
            }),
            r.buckets == self.buckets,
    {
        LaneReport { ends: self.span.ends(), buckets: self.buckets }
    }
}

/// What a lane has to say once its share of a burst is done.
#[derive(Debug)]
pub struct LaneReport {
    /// First and last completion, where anything completed.
    pub ends: Option<(u64, u64)>,
    pub buckets: Vec<u64>,
}

/// The timeline of a whole burst.
#[derive(Debug)]
pub struct Timeline {
    pub timing: RecvTiming,
    pub buckets: Vec<u64>,
    /// Leading buckets during which every lane was still active.
    pub steady: usize,
}

/// The bytes that all lanes received in bucket `i`.
pub open spec fn over_lanes(parts: Seq<LaneReport>, i: int) -> int
    decreases parts.len(),
{
    if parts.len() == 0 {
        0
    } else {
        over_lanes(parts.drop_last(), i) + in_bucket(parts.last().buckets@, i)
    }
}

/// The bytes that all lanes received.
pub open spec fn lanes_total(parts: Seq<LaneReport>) -> int
    decreases parts.len(),
{
    if parts.len() == 0 {
        0
    } else {
        lanes_total(parts.drop_last()) + total(parts.last().buckets@)
    }
}

/// The length of the longest lane's timeline.
pub open spec fn longest_lane(parts: Seq<LaneReport>) -> int
    decreases parts.len(),
{
    if parts.len() == 0 {
        0
    } else {
        max_int(longest_lane(parts.drop_last()), parts.last().buckets@.len() as int)
    }
}

pub open spec fn ends_of(parts: Seq<LaneReport>) -> Seq<Option<(u64, u64)>> {
    parts.map_values(|p: LaneReport| p.ends)
}

proof fn lemma_lanes_total_prefix(parts: Seq<LaneReport>, k: int)
    requires
        0 <= k <= parts.len(),
    ensures
        0 <= lanes_total(parts.take(k)) <= lanes_total(parts),
    decreases parts.len(),
{
    if k == parts.len() {
        assert(parts.take(k) =~= parts);
        if k > 0 {
            lemma_lanes_total_prefix(parts.drop_last(), k - 1);
            lemma_bucket_below_total(parts.last().buckets@, 0);
        }
    } else {
        lemma_lanes_total_prefix(parts.drop_last(), k);
        assert(parts.drop_last().take(k) =~= parts.take(k));
        lemma_bucket_below_total(parts.last().buckets@, 0);
    }
}

/// Put the lanes' reports together: the buckets add up, the span covers all
/// lanes, and the steady window ends with the first lane to finish.
pub fn collect(
    parts: &Vec<LaneReport>,
    t0: u64,
    bucket_ns: u64,
    count: u64,
    now: u64,
) -> (r: Timeline)
    requires
        lanes_total(parts@) <= u64::MAX,
    ensures
        r.buckets@.len() == longest_lane(parts@),
        forall|i: int| #[trigger] in_bucket(r.buckets@, i) == over_lanes(parts@, i),
        total(r.buckets@) == lanes_total(parts@),
        (forall|k: int| 0 <= k < parts@.len() ==> ends_filled((#[trigger] parts@[k]).buckets@))
            ==> ends_filled(r.buckets@),
        r.timing.count == count,
        r.timing.first == (match earliest(ends_of(parts@)) {
            Some(f) => f,
            None => now,
        }),
        r.timing.last == (match latest(ends_of(parts@)) {
            Some(l) => l,
            None => now,
        }),
        r.steady == (match first_finish(ends_of(parts@), t0 as int, bucket_ns as int) {
            Some(b) => min_int(b, longest_lane(parts@)),
            None => longest_lane(parts@),
        }),
{
    let n = parts.len();
    let mut all: Vec<u64> = Vec::new();
    let mut ends: Vec<Option<(u64, u64)>> = Vec::new();
    let mut k: usize = 0;
    assert(parts@.take(0) =~= Seq::empty());
    while k < n
        invariant
            k <= n,
            n == parts@.len(),
            lanes_total(parts@) <= u64::MAX,
            all@.len() == longest_lane(parts@.take(k as int)),
            forall|i: int| #[trigger] in_bucket(all@, i) == over_lanes(parts@.take(k as int), i),
            total(all@) == lanes_total(parts@.take(k as int)),
            ends@ == ends_of(parts@.take(k as int)),
        decreases n - k,
    {
        proof {
            assert(parts@.take(k + 1).drop_last() =~= parts@.take(k as int));
            assert(parts@.take(k + 1).last() == parts@[k as int]);
            lemma_lanes_total_prefix(parts@, k + 1);
        }
        merge_buckets(&mut all, &parts[k].buckets);
        ends.push(parts[k].ends);
        assert(ends@ =~= ends_of(parts@.take(k + 1)));
        k += 1;
    }
    assert(parts@.take(n as int) =~= parts@);
    let steady = steady_buckets(ends.as_slice(), t0, bucket_ns, all.len());
    proof {
        if forall|k: int| 0 <= k < parts@.len() ==> ends_filled((#[trigger] parts@[k]).buckets@) {
            law_timeline_ends_filled(parts@, all@);
        }
    }
    Timeline { timing: merge_timings(ends, count, now), buckets: all, steady }
}

/// A burst's timeline ends with a bucket that holds something, as each lane's
/// does, and where any lane received a message there is such a bucket.
pub proof fn law_timeline_ends_filled(parts: Seq<LaneReport>, all: Seq<u64>)
    requires
        all.len() == longest_lane(parts),
        forall|i: int| #[trigger] in_bucket(all, i) == over_lanes(parts, i),
        forall|k: int| 0 <= k < parts.len() ==> ends_filled((#[trigger] parts[k]).buckets@),
    ensures
        ends_filled(all),
        forall|k: int|
            0 <= k < parts.len() && (#[trigger] parts[k]).buckets@.len() > 0 ==> all.len() > 0,
{
    lemma_longest_lane(parts);
    if all.len() > 0 {
        let k = choose|k: int|
            0 <= k < parts.len() && (#[trigger] parts[k]).buckets@.len() == longest_lane(parts);
        lemma_lane_below_all(parts, k, all.len() - 1);
        assert(in_bucket(all, all.len() - 1) == all.last());
    }
}

proof fn lemma_longest_lane(parts: Seq<LaneReport>)
    ensures
        longest_lane(parts) >= 0,
        forall|k: int|
            0 <= k < parts.len() ==> (#[trigger] parts[k]).buckets@.len() <= longest_lane(parts),
        longest_lane(parts) > 0 ==> exists|k: int|
            0 <= k < parts.len() && (#[trigger] parts[k]).buckets@.len() == longest_lane(parts),
    decreases parts.len(),
{
    if parts.len() > 0 {
        let rest = parts.drop_last();
        lemma_longest_lane(rest);
        assert forall|k: int| 0 <= k < parts.len() implies (#[trigger] parts[k]).buckets@.len()
            <= longest_lane(parts) by {
            if k < rest.len() {
                assert(rest[k] == parts[k]);
            }
        }
        if longest_lane(parts) > parts.last().buckets@.len() {
            let k = choose|k: int|
                0 <= k < rest.len() && (#[trigger] rest[k]).buckets@.len() == longest_lane(rest);
            assert(parts[k] == rest[k]);
        } else {
            assert(parts[parts.len() - 1].buckets@.len() == longest_lane(parts));
        }
    }
}

/// No lane holds more in a bucket than all lanes together.
proof fn lemma_lane_below_all(parts: Seq<LaneReport>, k: int, i: int)
    requires
        0 <= k < parts.len(),
    ensures
        0 <= in_bucket(parts[k].buckets@, i) <= over_lanes(parts, i),
    decreases parts.len(),
{
    if k < parts.len() - 1 {
        lemma_lane_below_all(parts.drop_last(), k, i);
    } else {
        lemma_over_lanes_positive(parts.drop_last(), i);
    }
}

proof fn lemma_over_lanes_positive(parts: Seq<LaneReport>, i: int)
    ensures
        over_lanes(parts, i) >= 0,
    decreases parts.len(),
{
    if parts.len() > 0 {
        lemma_over_lanes_positive(parts.drop_last(), i);
    }
}

/// No byte of a burst is lost or counted twice: lanes that each received their
/// part of `count` messages have received the whole burst between them.
pub proof fn law_lanes_count_every_byte(
    parts: Seq<LaneReport>,
    counts: Seq<u64>,
    count: int,
    size: int,
)
    requires
        parts.len() == counts.len(),
        total(counts) == count,
        forall|i: int|
            0 <= i < parts.len() ==> total((#[trigger] parts[i]).buckets@) == counts[i] * size,
    ensures
        lanes_total(parts) == count * size,
    decreases parts.len(),
{
    if parts.len() > 0 {
        let rest = counts.drop_last();
        assert forall|i: int| 0 <= i < parts.len() - 1 implies total(
            (#[trigger] parts.drop_last()[i]).buckets@,
        ) == rest[i] * size by {
            assert(parts.drop_last()[i] == parts[i]);
        }
        law_lanes_count_every_byte(parts.drop_last(), rest, total(rest), size);
        assert(count * size == total(rest) * size + counts.last() * size) by (nonlinear_arith)
            requires
                count == total(rest) + counts.last(),
        ;
    } else {
        assert(0 * size == 0) by (nonlinear_arith);
    }
}

// ------------------------------------------------------------ loaded pings

/// The flag byte of a loaded ping: 1 marks the last one.
pub fn ping_flag(last: bool) -> (r: u8)
    ensures
        r == if last {
            1u8
        } else {
            0u8
        },
{
    if last {
        1
    } else {
        0
    }
}

/// Where the initiator of a loaded ping stands.
#[derive(Clone, Copy, Debug, PartialEq, Eq, Structural)]
pub enum Initiator {
    /// Pings go out one after the other.
    Pinging,
    /// The last ping was answered; the drain message is still to go out.
    Draining,
    Finished,
}

/// What the initiator does next.
#[derive(Clone, Copy, Debug, PartialEq, Eq, Structural)]
pub enum InitiatorStep {
    /// Send a ping with this flag byte and wait for its echo.
    Ping(u8),
    /// Send one message with this flag byte that is not echoed.
    Drain(u8),
    Finished,
}

impl Initiator {
    pub open spec fn next(self, bulk_done: bool) -> (Initiator, InitiatorStep) {
        match self {
            Initiator::Pinging => if bulk_done {
                (Initiator::Draining, InitiatorStep::Ping(1))
            } else {
                (Initiator::Pinging, InitiatorStep::Ping(0))
            },
            Initiator::Draining => (Initiator::Finished, InitiatorStep::Drain(0)),
            Initiator::Finished => (Initiator::Finished, InitiatorStep::Finished),
        }
    }
}

/// Ping until all bulk is written, mark the ping that goes out then, and send one
/// drain message behind it. `bulk_done` says whether all bulk lanes have finished.
pub fn initiator_step(state: Initiator, bulk_done: bool) -> (r: (Initiator, InitiatorStep))
    ensures
        r == state.next(bulk_done),
{
    match state {
        Initiator::Pinging => if bulk_done {
            (Initiator::Draining, InitiatorStep::Ping(ping_flag(true)))
        } else {
            (Initiator::Pinging, InitiatorStep::Ping(ping_flag(false)))
        },
        Initiator::Draining => (Initiator::Finished, InitiatorStep::Drain(ping_flag(false))),
        Initiator::Finished => (Initiator::Finished, InitiatorStep::Finished),
    }
}

/// The initiator after it looked at the bulk lanes this often.
pub open spec fn initiator_after(seen: Seq<bool>) -> Initiator
    decreases seen.len(),
{
    if seen.len() == 0 {
        Initiator::Pinging
    } else {
        initiator_after(seen.drop_last()).next(seen.last()).0
    }
}

/// What it did on the way.
pub open spec fn initiator_steps(seen: Seq<bool>) -> Seq<InitiatorStep>
    decreases seen.len(),
{
    if seen.len() == 0 {
        Seq::empty()
    } else {
        initiator_steps(seen.drop_last()).push(
            initiator_after(seen.drop_last()).next(seen.last()).1,
        )
    }
}

/// The flags an initiator sends: only the last ping is marked.
pub open spec fn initiator_flags(flags: Seq<u8>) -> bool {
    &&& flags.len() > 0
    &&& flags.last() == 1
    &&& forall|i: int| 0 <= i < flags.len() - 1 ==> #[trigger] flags[i] != 1
}

/// The steps of an initiator that finds the bulk lanes done at its look number
/// `n`, counted from 0: `n` unmarked pings, the marked one, one unechoed drain
/// message, and no more, whatever later looks show.
pub proof fn law_initiator_sequence(seen: Seq<bool>, n: int)
    requires
        0 <= n < seen.len(),
        seen[n],
        forall|i: int| 0 <= i < n ==> !#[trigger] seen[i],
    ensures
        initiator_steps(seen).len() == seen.len(),
        forall|i: int|
            0 <= i < seen.len() ==> #[trigger] initiator_steps(seen)[i] == if i < n {
                InitiatorStep::Ping(0)
            } else if i == n {
                InitiatorStep::Ping(1)
            } else if i == n + 1 {
                InitiatorStep::Drain(0)
            } else {
                InitiatorStep::Finished
            },
        initiator_flags(ping_flags(initiator_steps(seen))),
        ping_flags(initiator_steps(seen)).len() == n + 1,
        initiator_after(seen) == if seen.len() == n + 1 {
            Initiator::Draining
        } else {
            Initiator::Finished
        },
    decreases seen.len(),
{
    let rest = seen.drop_last();
    assert(initiator_steps(seen).drop_last() =~= initiator_steps(rest));
    if n == seen.len() - 1 {
        lemma_unmarked_steps(rest);
    } else {
        law_initiator_sequence(rest, n);
        assert(seen[seen.len() - 1] == seen.last());
    }
}

/// The flag bytes of the pings among `steps`.
pub open spec fn ping_flags(steps: Seq<InitiatorStep>) -> Seq<u8>
    decreases steps.len(),
{
    if steps.len() == 0 {
        Seq::empty()
    } else {
        match steps.last() {
            InitiatorStep::Ping(flag) => ping_flags(steps.drop_last()).push(flag),
            _ => ping_flags(steps.drop_last()),
        }
    }
}

proof fn lemma_unmarked_steps(seen: Seq<bool>)
    requires
        forall|i: int| 0 <= i < seen.len() ==> !#[trigger] seen[i],
    ensures
        initiator_after(seen) is Pinging,
        initiator_steps(seen).len() == seen.len(),
        forall|i: int|
            0 <= i < seen.len() ==> #[trigger] initiator_steps(seen)[i] == InitiatorStep::Ping(0),
        ping_flags(initiator_steps(seen)).len() == seen.len(),
        forall|i: int| 0 <= i < seen.len() ==> #[trigger] ping_flags(initiator_steps(seen))[i] == 0,
    decreases seen.len(),
{
    if seen.len() > 0 {
        lemma_unmarked_steps(seen.drop_last());
        assert(seen[seen.len() - 1] == seen.last());
        assert(initiator_steps(seen).drop_last() =~= initiator_steps(seen.drop_last()));
    }
}

/// A loaded-ping test needs a lane besides lane 0; `what` names the lanes.
pub fn check_loaded_lanes(lanes: usize, what: &str) -> (r: Result<(), String>)
    ensures
        lanes >= 2 ==> r == Ok::<(), String>(()),
        lanes < 2 ==> r is Err && r->Err_0@ == "loaded ping needs at least 2 "@ + what@,
{
    if lanes >= 2 {
        Ok(())
    } else {
        Err("loaded ping needs at least 2 ".to_owned().concat(what))
    }
}

/// The ends of the merged span, and of the steady window, are those of some lane;
/// there are none exactly where no lane received anything.
pub proof fn law_merged_ends_are_lane_ends(
    parts: Seq<Option<(u64, u64)>>,
    t0: int,
    bucket_ns: int,
)
    ensures
        earliest(parts) matches Some(f) ==> exists|k: int|
            0 <= k < parts.len() && (#[trigger] parts[k]) is Some && (parts[k]->0).0 == f,
        latest(parts) matches Some(l) ==> exists|k: int|
            0 <= k < parts.len() && (#[trigger] parts[k]) is Some && (parts[k]->0).1 == l,
        first_finish(parts, t0, bucket_ns) matches Some(b) ==> exists|k: int|
            0 <= k < parts.len() && (#[trigger] parts[k]) is Some && b == bucket_index(
                (parts[k]->0).1 as int,
                t0,
                bucket_ns,
            ),
        forall|k: int|
            0 <= k < parts.len() && (#[trigger] parts[k]) is Some ==> earliest(parts) is Some
                && latest(parts) is Some && earliest(parts)->0 <= (parts[k]->0).0
                && (parts[k]->0).1 <= latest(parts)->0 && first_finish(parts, t0, bucket_ns) is Some
                && first_finish(parts, t0, bucket_ns)->0 <= bucket_index(
                (parts[k]->0).1 as int,
                t0,
                bucket_ns,
            ),
    decreases parts.len(),
{
    if parts.len() > 0 {
        let rest = parts.drop_last();
        let last = parts.len() - 1;
        law_merged_ends_are_lane_ends(rest, t0, bucket_ns);
        assert(forall|k: int| 0 <= k < last ==> #[trigger] parts[k] == rest[k]);
        assert(parts[last] == parts.last());
        if let Some(f) = earliest(rest) {
            let k = choose|k: int|
                0 <= k < rest.len() && (#[trigger] rest[k]) is Some && (rest[k]->0).0 == f;
            assert(parts[k] == rest[k]);
        }
        if let Some(l) = latest(rest) {
            let k = choose|k: int|
                0 <= k < rest.len() && (#[trigger] rest[k]) is Some && (rest[k]->0).1 == l;
            assert(parts[k] == rest[k]);
        }
        if let Some(b) = first_finish(rest, t0, bucket_ns) {
            let k = choose|k: int|
                0 <= k < rest.len() && (#[trigger] rest[k]) is Some && b == bucket_index(
                    (rest[k]->0).1 as int,
                    t0,
                    bucket_ns,
                );
            assert(parts[k] == rest[k]);
        }
    }
}

/// A completion falls into the bucket whose time it comes in.
pub proof fn law_bucket_holds_its_time(at: int, t0: int, bucket_ns: int)
    requires
        at >= t0,
        bucket_ns >= 1,
    ensures
        ({
            let i = bucket_index(at, t0, bucket_ns);
            &&& i >= 0
            &&& t0 + i * bucket_ns <= at < t0 + (i + 1) * bucket_ns
        }),
{
    let d = at - t0;
    let i = d / bucket_ns;
    assert(i >= 0 && i * bucket_ns <= d && d < (i + 1) * bucket_ns) by (nonlinear_arith)
        requires
            i == d / bucket_ns,
            d >= 0,
            bucket_ns >= 1,
    ;
}

/// One more byte in a bucket is one more byte in all.
pub proof fn law_total_adds_up(s: Seq<u64>, i: int, v: u64)
    requires
        0 <= i < s.len(),
    ensures
        total(s.update(i, v)) == total(s) - s[i] + v,
        total(Seq::<u64>::empty()) == 0,
    decreases s.len(),
{
    if i == s.len() - 1 {
        assert(s.update(i, v).drop_last() =~= s.drop_last());
    } else {
        assert(s.update(i, v).drop_last() =~= s.drop_last().update(i, v));
        law_total_adds_up(s.drop_last(), i, v);
    }
}

/// The timeline of a burst is as long as that of the lane that went on longest,
/// and each lane's bytes are in the bucket they came in.
pub proof fn law_each_lane_is_in_the_timeline(parts: Seq<LaneReport>, k: int, i: int)
    requires
        0 <= k < parts.len(),
    ensures
        parts[k].buckets@.len() <= longest_lane(parts),
        exists|j: int|
            0 <= j < parts.len() && longest_lane(parts) == (#[trigger] parts[j]).buckets@.len(),
        0 <= i < parts[k].buckets@.len() ==> over_lanes(parts, i) >= parts[k].buckets@[i],
        over_lanes(parts, i) == over_lanes(parts.remove(k), i) + in_bucket(parts[k].buckets@, i),
    decreases parts.len(),
{
    let rest = parts.drop_last();
    let last = parts.len() - 1;
    lemma_over_lanes_nonnegative(parts.remove(k), i);
    if rest.len() > 0 {
        let x = if k < last {
            k
        } else {
            0
        };
        law_each_lane_is_in_the_timeline(rest, x, i);
        let j = choose|j: int|
            0 <= j < rest.len() && longest_lane(rest) == (#[trigger] rest[j]).buckets@.len();
        assert(parts[j] == rest[j] && parts[last] == parts.last());
    } else {
        assert(parts[0] == parts.last());
        assert(longest_lane(rest) == 0);
    }
    if k < last {
        assert(parts.remove(k).drop_last() =~= rest.remove(k));
        assert(parts.remove(k).last() == parts.last());
    } else {
        assert(parts.remove(k) =~= rest);
    }
}

proof fn lemma_over_lanes_nonnegative(parts: Seq<LaneReport>, i: int)
    ensures
        over_lanes(parts, i) >= 0,
    decreases parts.len(),
{
    if parts.len() > 0 {
        lemma_over_lanes_nonnegative(parts.drop_last(), i);
    }
}

/// A lane's span begins with its first completion and ends with its last: what came
/// in between does not move its beginning.
pub proof fn law_span_runs_from_first_to_last(s: Span, now: u64)
    ensures
        s.with(now).last == Some(now),
        s.first is None ==> s.with(now).first == Some(now),
        s.first is Some ==> s.with(now).first == s.first,
{
}

} // verus!
