//! Test choreography. The client drives; the server reacts to `Run` specs. All
//! wire-rate numbers come from receive-side first..last completion timing, so
//! nothing depends on clock sync between the nodes.

use crate::measure::Reading;
use crate::order::{ascending, sort_numbers};
use crate::proto::{Msg, TestSpec};
use crate::rdma::region::clamped;
use crate::report::{fmt_size, size_text};
use crate::score::ScoreCard;
use crate::text::{dec, decimal, left_padded, pad_left};
use crate::transport::{bucket_index, total, RecvTiming};
use vstd::prelude::*;

verus! {

pub const KIB: u64 = 1024;

pub const MIB: u64 = 0x10_0000;

/// Width of a timeline bucket in the sustained runs.
pub const BUCKET_MS: u64 = 200;

// ---------------------------------------------------------------- results

#[derive(Debug, Clone)]
pub struct LatencyPoint {
    pub size: u64,
    pub oneway_p50_us: Reading,
    pub oneway_p99_us: Reading,
    pub rtt_mean_us: Reading,
}

#[derive(Debug, Clone)]
pub struct BwPoint {
    pub size: u64,
    pub bps: Reading,
}

#[derive(Debug, Clone)]
pub struct LoadedRtt {
    pub ping_size: u64,
    pub p50_us: Reading,
    pub p99_us: Reading,
    pub samples: u64,
}

#[derive(Debug, Clone)]
pub struct IdleGap {
    pub gap_ms: u64,
    pub rtt_p50_us: Reading,
    pub rtt_p99_us: Reading,
}

#[derive(Debug, Clone)]
pub struct Results {
    pub transport: String,
    pub path: String,
    pub client_host: String,
    pub server_host: String,
    pub duration_target_s: Reading,
    pub latency: Vec<LatencyPoint>,
    pub sweep: Vec<BwPoint>,
    pub uni_c2s_bps: Reading,
    pub uni_s2c_bps: Reading,
    pub bidir_agg_bps: Reading,
    pub msg_rate_per_s: Reading,
    pub allreduce_16k_us: Reading,
    pub allreduce_1g_bps: Reading,
    pub kv32m_ms: Reading,
    pub timeline_bucket_ms: u64,
    /// Receive-side throughput per bucket during the sustained runs.
    pub timeline_up_bps: Vec<Reading>,
    pub timeline_down_bps: Vec<Reading>,
    /// Steady-window length (buckets with every lane active); the rest of each
    /// timeline is lane wind-down, excluded from stability stats.
    pub timeline_up_steady: usize,
    pub timeline_down_steady: usize,
    /// Temperatures (°C) sampled during the sustained runs: node B during the
    /// up run, node A during the down run. "sys" = hottest non-NIC hwmon
    /// sensor, "nic" = mlx-style adapter sensor (may be empty).
    pub temps_b_sys: Vec<Reading>,
    pub temps_b_nic: Vec<Reading>,
    pub temps_a_sys: Vec<Reading>,
    pub temps_a_nic: Vec<Reading>,
    pub loaded_rtt: Option<LoadedRtt>,
    pub idle_gaps: Vec<IdleGap>,
    /// LinkBench2026 score, computed from the fields above once the run
    /// completes (recomputed at render time for older result files).
    pub score: Option<ScoreCard>,
    /// CPU-tuning summaries the run executed under (A = client, B = server).
    pub tuning_a: String,
    pub tuning_b: String,
}

// --------------------------------------------------------------- the two roles

/// What one side of a test does.
#[derive(Debug, Clone, Copy, PartialEq, Eq, Structural)]
pub enum Role {
    Send { size: u32, count: u64 },
    Receive { size: u32, count: u64 },
    ReceiveTimeline { size: u32, count: u64, bucket_ms: u64 },
    Both { size: u32, count: u64 },
    Ping { size: u32, iters: u32 },
    Echo { size: u32, iters: u32 },
    Reduce { chunk: u32, chunks: u32, rounds: u32 },
    LoadedPing { ping_size: u32, bulk_size: u32, bulk_count: u64 },
    LoadedEcho { ping_size: u32, bulk_size: u32, bulk_count: u64 },
}

pub open spec fn client_role(spec: TestSpec) -> Role {
    match spec {
        TestSpec::PingEcho { size, iters } => Role::Ping { size, iters },
        TestSpec::C2S { size, count } => Role::Send { size, count },
        TestSpec::S2C { size, count } => Role::ReceiveTimeline {
            size,
            count,
            bucket_ms: BUCKET_MS,
        },
        TestSpec::Bidir { size, count } => Role::Both { size, count },
        TestSpec::Reduce { chunk, chunks, rounds } => Role::Reduce { chunk, chunks, rounds },
        TestSpec::C2STimeline { size, count, .. } => Role::Send { size, count },
        TestSpec::LoadedPing { ping_size, bulk_size, bulk_count } => Role::LoadedPing {
            ping_size,
            bulk_size,
            bulk_count,
        },
    }
}

pub open spec fn server_role(spec: TestSpec) -> Role {
    match spec {
        TestSpec::PingEcho { size, iters } => Role::Echo { size, iters },
        TestSpec::C2S { size, count } => Role::Receive { size, count },
        TestSpec::S2C { size, count } => Role::Send { size, count },
        TestSpec::Bidir { size, count } => Role::Both { size, count },
        TestSpec::Reduce { chunk, chunks, rounds } => Role::Reduce { chunk, chunks, rounds },
        TestSpec::C2STimeline { size, count, bucket_ms } => Role::ReceiveTimeline {
            size,
            count,
            bucket_ms: if bucket_ms < 1 {
                1
            } else {
                bucket_ms
            },
        },
        TestSpec::LoadedPing { ping_size, bulk_size, bulk_count } => Role::LoadedEcho {
            ping_size,
            bulk_size,
            bulk_count,
        },
    }
}

pub fn play_client(spec: TestSpec) -> (r: Role)
    ensures
        r == client_role(spec),
{
    match spec {
        TestSpec::PingEcho { size, iters } => Role::Ping { size, iters },
        TestSpec::C2S { size, count } => Role::Send { size, count },
        TestSpec::S2C { size, count } => Role::ReceiveTimeline {
            size,
            count,
            bucket_ms: BUCKET_MS,
        },
        TestSpec::Bidir { size, count } => Role::Both { size, count },
        TestSpec::Reduce { chunk, chunks, rounds } => Role::Reduce { chunk, chunks, rounds },
        TestSpec::C2STimeline { size, count, .. } => Role::Send { size, count },
        TestSpec::LoadedPing { ping_size, bulk_size, bulk_count } => Role::LoadedPing {
            ping_size,
            bulk_size,
            bulk_count,
        },
    }
}

pub fn play_server(spec: TestSpec) -> (r: Role)
    ensures
        r == server_role(spec),
{
    match spec {
        TestSpec::PingEcho { size, iters } => Role::Echo { size, iters },
        TestSpec::C2S { size, count } => Role::Receive { size, count },
        TestSpec::S2C { size, count } => Role::Send { size, count },
        TestSpec::Bidir { size, count } => Role::Both { size, count },
        TestSpec::Reduce { chunk, chunks, rounds } => Role::Reduce { chunk, chunks, rounds },
        TestSpec::C2STimeline { size, count, bucket_ms } => Role::ReceiveTimeline {
            size,
            count,
            bucket_ms: if bucket_ms < 1 {
                1
            } else {
                bucket_ms
            },
        },
        TestSpec::LoadedPing { ping_size, bulk_size, bulk_count } => Role::LoadedEcho {
            ping_size,
            bulk_size,
            bulk_count,
        },
    }
}

/// Messages of one size, and how many.
pub struct Traffic {
    pub size: int,
    pub count: int,
}

pub open spec fn nothing() -> Traffic {
    Traffic { size: 0, count: 0 }
}

/// What a role puts on the wire. The pings of a loaded test are open-ended and
/// balance themselves; what is counted here is its bulk stream.
pub open spec fn sends(role: Role) -> Traffic {
    match role {
        Role::Send { size, count } => Traffic { size: size as int, count: count as int },
        Role::Receive { .. } => nothing(),
        Role::ReceiveTimeline { .. } => nothing(),
        Role::Both { size, count } => Traffic { size: size as int, count: count as int },
        Role::Ping { size, iters } => Traffic { size: size as int, count: iters as int },
        Role::Echo { size, iters } => Traffic { size: size as int, count: iters as int },
        Role::Reduce { chunk, chunks, rounds } => Traffic {
            size: chunk as int,
            count: chunks * rounds,
        },
        Role::LoadedPing { bulk_size, bulk_count, .. } => Traffic {
            size: bulk_size as int,
            count: bulk_count as int,
        },
        Role::LoadedEcho { .. } => nothing(),
    }
}

/// What a role takes off the wire.
pub open spec fn receives(role: Role) -> Traffic {
    match role {
        Role::Send { .. } => nothing(),
        Role::Receive { size, count } => Traffic { size: size as int, count: count as int },
        Role::ReceiveTimeline { size, count, .. } => Traffic {
            size: size as int,
            count: count as int,
        },
        Role::Both { size, count } => Traffic { size: size as int, count: count as int },
        Role::Ping { size, iters } => Traffic { size: size as int, count: iters as int },
        Role::Echo { size, iters } => Traffic { size: size as int, count: iters as int },
        Role::Reduce { chunk, chunks, rounds } => Traffic {
            size: chunk as int,
            count: chunks * rounds,
        },
        Role::LoadedPing { .. } => nothing(),
        Role::LoadedEcho { bulk_size, bulk_count, .. } => Traffic {
            size: bulk_size as int,
            count: bulk_count as int,
        },
    }
}

/// In every test the two sides pair up: each receives exactly the messages the
/// other sends.
pub proof fn law_roles_pair_up(spec: TestSpec)
    ensures
        sends(client_role(spec)) == receives(server_role(spec)),
        sends(server_role(spec)) == receives(client_role(spec)),
{
}

/// One thing that a side does on a lane.
#[derive(Debug, Clone, Copy, PartialEq, Eq, Structural)]
pub enum Turn {
    Sends,
    Takes,
}

/// What a role does on its lane, one turn after the other. A ping is sent and its
/// echo is waited for; an echo waits and sends back. Roles that keep both
/// directions going at once have no such turns.
pub open spec fn turns(role: Role) -> Seq<Turn> {
    match role {
        Role::Send { count, .. } => Seq::new(count as nat, |i: int| Turn::Sends),
        Role::Receive { count, .. } => Seq::new(count as nat, |i: int| Turn::Takes),
        Role::ReceiveTimeline { count, .. } => Seq::new(count as nat, |i: int| Turn::Takes),
        Role::Ping { iters, .. } => Seq::new(
            2 * iters as nat,
            |i: int|
                if i % 2 == 0 {
                    Turn::Sends
                } else {
                    Turn::Takes
                },
        ),
        Role::Echo { iters, .. } => Seq::new(
            2 * iters as nat,
            |i: int|
                if i % 2 == 0 {
                    Turn::Takes
                } else {
                    Turn::Sends
                },
        ),
        _ => Seq::empty(),
    }
}

/// How many of the first `n` turns are `what`.
pub open spec fn turns_so_far(t: Seq<Turn>, what: Turn, n: int) -> int
    decreases n,
{
    if n <= 0 {
        0
    } else {
        turns_so_far(t, what, n - 1) + if t[n - 1] == what {
            1int
        } else {
            0
        }
    }
}

proof fn lemma_alternating_turns(t: Seq<Turn>, first: Turn, then: Turn, n: int)
    requires
        0 <= n <= t.len(),
        first != then,
        forall|i: int|
            0 <= i < t.len() ==> #[trigger] t[i] == if i % 2 == 0 {
                first
            } else {
                then
            },
    ensures
        turns_so_far(t, first, n) == (n + 1) / 2,
        turns_so_far(t, then, n) == n / 2,
    decreases n,
{
    if n > 0 {
        lemma_alternating_turns(t, first, then, n - 1);
        assert(t[n - 1] == if (n - 1) % 2 == 0 {
            first
        } else {
            then
        });
    }
}

/// In a ping test the client opens and the server answers. At every point the
/// server has sent no more than it has received, so each of its messages follows
/// one of the client's; the client is never more than one message ahead, so each
/// round trip is over before the next begins; and each side ends with as many
/// messages sent and received as there were round trips.
pub proof fn law_each_ping_is_a_round_trip(spec: TestSpec, n: int)
    requires
        spec is PingEcho,
        0 <= n <= 2 * spec->PingEcho_iters,
    ensures
        ({
            let (client, server) = (turns(client_role(spec)), turns(server_role(spec)));
            let (iters, size) = (spec->PingEcho_iters, spec->PingEcho_size);
            let sent = turns_so_far(client, Turn::Sends, n);
            let taken = turns_so_far(client, Turn::Takes, n);
            let answered = turns_so_far(server, Turn::Sends, n);
            let heard = turns_so_far(server, Turn::Takes, n);
            &&& client.len() == 2 * iters && server.len() == 2 * iters
            &&& taken <= sent <= taken + 1
            &&& answered <= heard <= answered + 1
            &&& n < 2 * iters ==> (client[n] is Sends <==> sent == taken)
            &&& n < 2 * iters ==> (server[n] is Sends <==> heard > answered)
            &&& n == 2 * iters ==> sent == iters && taken == iters && answered == iters && heard
                == iters
            &&& sends(client_role(spec)).size == size && sends(server_role(spec)).size == size
        }),
{
    lemma_alternating_turns(turns(client_role(spec)), Turn::Sends, Turn::Takes, n);
    lemma_alternating_turns(turns(server_role(spec)), Turn::Takes, Turn::Sends, n);
}

/// Every test moves what it was asked to move, in the direction it is called
/// after, and whoever receives for a timeline does so in buckets of the width that
/// was asked for.
pub proof fn law_traffic_is_as_asked(spec: TestSpec)
    ensures
        ({
            let (client, server) = (client_role(spec), server_role(spec));
            match spec {
                TestSpec::PingEcho { size, iters } => sends(client).count == iters && sends(
                    server,
                ).count == iters,
                TestSpec::C2S { size, count } => {
                    &&& sends(client) == (Traffic { size: size as int, count: count as int })
                    &&& receives(client) == nothing() && sends(server) == nothing()
                    &&& receives(server) == sends(client)
                    &&& !(server is ReceiveTimeline)
                },
                TestSpec::S2C { size, count } => {
                    &&& sends(server) == (Traffic { size: size as int, count: count as int })
                    &&& receives(server) == nothing() && sends(client) == nothing()
                    &&& receives(client) == sends(server)
                    &&& client is ReceiveTimeline && client->bucket_ms == 200
                },
                TestSpec::Bidir { size, count } => {
                    &&& sends(client) == (Traffic { size: size as int, count: count as int })
                    &&& sends(server) == sends(client) && receives(client) == sends(client)
                    &&& receives(server) == sends(client)
                },
                TestSpec::Reduce { chunk, chunks, rounds } => {
                    &&& sends(client) == (Traffic { size: chunk as int, count: chunks * rounds })
                    &&& sends(server) == sends(client) && receives(client) == sends(client)
                    &&& receives(server) == sends(client)
                    &&& client == server
                },
                TestSpec::C2STimeline { size, count, bucket_ms } => {
                    &&& sends(client) == (Traffic { size: size as int, count: count as int })
                    &&& receives(client) == nothing() && sends(server) == nothing()
                    &&& receives(server) == sends(client)
                    &&& server is ReceiveTimeline && server->bucket_ms >= 1
                    &&& bucket_ms >= 1 ==> server->bucket_ms == bucket_ms
                },
                TestSpec::LoadedPing { ping_size, bulk_size, bulk_count } => {
                    &&& sends(client) == (Traffic {
                        size: bulk_size as int,
                        count: bulk_count as int,
                    })
                    &&& sends(server) == nothing() && receives(client) == nothing()
                    &&& receives(server) == sends(client)
                    &&& client is LoadedPing && server is LoadedEcho
                    &&& client->LoadedPing_ping_size == ping_size
                    &&& server->LoadedEcho_ping_size == ping_size
                },
            }
        }),
{
}

// ------------------------------------------------------------------ server

/// What a call that was made on a data plane gave back.
#[derive(Debug)]
pub enum Outcome {
    Nothing,
    Timing(RecvTiming),
    Elapsed(u64),
    Timeline {
        timing: RecvTiming,
        buckets: Vec<u64>,
        steady: usize,
        temps_sys: Vec<Reading>,
        temps_nic: Vec<Reading>,
    },
}

/// The outcome is of the kind that the server's role in `spec` gives.
pub open spec fn fits(spec: TestSpec, o: Outcome) -> bool {
    match spec {
        TestSpec::C2S { .. } => o is Timing,
        TestSpec::Bidir { .. } => o is Timing,
        TestSpec::Reduce { .. } => o is Elapsed,
        TestSpec::C2STimeline { .. } => o is Timeline,
        _ => o is Nothing,
    }
}

/// Time from the first to the last completion.
pub open spec fn elapsed(t: RecvTiming) -> int {
    if t.last >= t.first {
        t.last - t.first
    } else {
        0
    }
}

/// Bytes that count towards a rate: all messages but the first.
pub open spec fn counted_bytes(size: int, count: int) -> int {
    if count > 0 {
        (count - 1) * size
    } else {
        0
    }
}

/// Size and count of the messages the server times, where it times any.
pub open spec fn timed(spec: TestSpec) -> Option<(int, int)> {
    match spec {
        TestSpec::C2S { size, count } => Some((size as int, count as int)),
        TestSpec::Bidir { size, count } => Some((size as int, count as int)),
        TestSpec::C2STimeline { size, count, .. } => Some((size as int, count as int)),
        _ => None,
    }
}

pub fn elapsed_ns(t: &RecvTiming) -> (r: u64)
    ensures
        r == elapsed(*t),
{
    if t.last >= t.first {
        t.last - t.first
    } else {
        0
    }
}

pub fn rate_bytes(size: u64, count: u64) -> (r: u64)
    requires
        counted_bytes(size as int, count as int) <= u64::MAX,
    ensures
        r == counted_bytes(size as int, count as int),
{
    if count > 0 {
        (count - 1) * size
    } else {
        0
    }
}

/// Nothing depends on clock sync between the nodes: on a clock that is off by
/// any amount the same completions take equally long and fall into the same
/// buckets.
pub proof fn law_clocks_need_not_agree(
    t: RecvTiming,
    u: RecvTiming,
    offset: int,
    t0: int,
    bucket_ns: int,
)
    requires
        u.first == t.first + offset,
        u.last == t.last + offset,
    ensures
        elapsed(u) == elapsed(t),
        bucket_index(u.last as int, t0 + offset, bucket_ns) == bucket_index(
            t.last as int,
            t0,
            bucket_ns,
        ),
{
}

/// What the server answers once it has played its role.
pub open spec fn reply(spec: TestSpec, o: Outcome) -> Msg {
    match (spec, o) {
        (TestSpec::C2S { size, count }, Outcome::Timing(t)) => Msg::Done {
            elapsed_ns: elapsed(t) as u64,
            bytes: counted_bytes(size as int, count as int) as u64,
        },
        (TestSpec::Bidir { size, count }, Outcome::Timing(t)) => Msg::Done {
            elapsed_ns: elapsed(t) as u64,
            bytes: counted_bytes(size as int, count as int) as u64,
        },
        (TestSpec::Reduce { .. }, Outcome::Elapsed(ns)) => Msg::Done { elapsed_ns: ns, bytes: 0 },
        (
            TestSpec::C2STimeline { size, count, .. },
            Outcome::Timeline { timing, buckets, steady, temps_sys, temps_nic },
        ) => Msg::DoneTimeline {
            elapsed_ns: elapsed(timing) as u64,
            bytes: counted_bytes(size as int, count as int) as u64,
            buckets,
            steady: steady as u64,
            temps_sys,
            temps_nic,
        },
        _ => Msg::Done { elapsed_ns: 0, bytes: 0 },
    }
}

pub fn server_reply(spec: TestSpec, o: Outcome) -> (r: Msg)
    requires
        fits(spec, o),
        timed(spec) matches Some((size, count)) ==> counted_bytes(size, count) <= u64::MAX,
    ensures
        r == reply(spec, o),
{
    match (spec, o) {
        (TestSpec::C2S { size, count }, Outcome::Timing(t)) => Msg::Done {
            elapsed_ns: elapsed_ns(&t),
            bytes: rate_bytes(size as u64, count),
        },
        (TestSpec::Bidir { size, count }, Outcome::Timing(t)) => Msg::Done {
            elapsed_ns: elapsed_ns(&t),
            bytes: rate_bytes(size as u64, count),
        },
        (TestSpec::Reduce { .. }, Outcome::Elapsed(ns)) => Msg::Done { elapsed_ns: ns, bytes: 0 },
        (
            TestSpec::C2STimeline { size, count, .. },
            Outcome::Timeline { timing, buckets, steady, temps_sys, temps_nic },
        ) => Msg::DoneTimeline {
            elapsed_ns: elapsed_ns(&timing),
            bytes: rate_bytes(size as u64, count),
            buckets,
            steady: steady as u64,
            temps_sys,
            temps_nic,
        },
        _ => Msg::Done { elapsed_ns: 0, bytes: 0 },
    }
}

/// The client waits for a timeline exactly when the server sends one, and for a
/// plain `Done` otherwise.
pub proof fn law_reply_is_expected(spec: TestSpec, o: Outcome)
    requires
        fits(spec, o),
    ensures
        reply(spec, o) is DoneTimeline <==> spec is C2STimeline,
        reply(spec, o) is Done <==> !(spec is C2STimeline),
{
}

/// The server answers with what it measured: the time from the first completion to
/// the last, and the bytes of all messages but the first, so that `count` messages
/// of `size` bytes come to one message more than is told; a timeline goes along as
/// it was taken. An all-reduce is answered with its own time.
pub proof fn law_reply_tells_what_was_measured(spec: TestSpec, o: Outcome)
    requires
        fits(spec, o),
        timed(spec) matches Some((size, count)) ==> counted_bytes(size, count) <= u64::MAX,
    ensures
        match spec {
            TestSpec::C2S { size, count } => o is Timing && reply(spec, o) is Done && (
            o->Timing_0.first <= o->Timing_0.last ==> reply(spec, o)->Done_elapsed_ns
                == o->Timing_0.last - o->Timing_0.first) && (count >= 1 ==> reply(
                spec,
                o,
            )->Done_bytes + size == count * size),
            TestSpec::Bidir { size, count } => o is Timing && reply(spec, o) is Done && (
            o->Timing_0.first <= o->Timing_0.last ==> reply(spec, o)->Done_elapsed_ns
                == o->Timing_0.last - o->Timing_0.first) && (count >= 1 ==> reply(
                spec,
                o,
            )->Done_bytes + size == count * size),
            TestSpec::Reduce { .. } => o is Elapsed && reply(spec, o) is Done && reply(
                spec,
                o,
            )->Done_elapsed_ns == o->Elapsed_0,
            TestSpec::C2STimeline { size, count, .. } => o is Timeline && (reply(
                spec,
                o,
            ) matches Msg::DoneTimeline {
                elapsed_ns,
                bytes,
                buckets,
                steady,
                temps_sys,
                temps_nic,
            } && (o->timing.first <= o->timing.last ==> elapsed_ns == o->timing.last
                - o->timing.first) && (count >= 1 ==> bytes + size == count * size) && buckets
                == o->buckets && steady == o->steady && temps_sys == o->temps_sys && temps_nic
                == o->temps_nic),
            _ => reply(spec, o) is Done,
        },
{
    if let Some((size, count)) = timed(spec) {
        assert((count - 1) * size + size == count * size) by (nonlinear_arith);
    }
}

/// What the server does with a control message during the tests.
pub enum ServerStep {
    /// Answer `Ready`, play the role, answer with the reply.
    Serve(TestSpec),
    /// The client is done.
    Finish,
    /// Not a message that belongs here.
    Refuse(Msg),
}

pub fn server_step(msg: Msg) -> (r: ServerStep)
    ensures
        match msg {
            Msg::Run { spec } => r == ServerStep::Serve(spec),
            Msg::Bye => r is Finish,
            _ => r == ServerStep::Refuse(msg),
        },
{
    match msg {
        Msg::Run { spec } => ServerStep::Serve(spec),
        Msg::Bye => ServerStep::Finish,
        other => ServerStep::Refuse(other),
    }
}

// -------------------------------------------------------------- all-reduce

/// One step of an all-reduce simulation.
#[derive(Debug, Clone, Copy, PartialEq, Eq, Structural)]
pub enum ReduceStep {
    /// Prepare the pipelined rounds: receives are posted ahead across rounds,
    /// so no round can hit receiver-not-ready backoff.
    Begin,
    /// Exchange one chunk each way.
    Round,
    /// Exchange all chunks each way.
    Burst,
    /// One local reduction pass over a chunk.
    Pass,
    Finished,
}

/// Step `n` of `rounds` x (exchange `chunks` chunks each way, then reduce each
/// of them locally). A single chunk takes the pipelined round path; larger
/// exchanges use the true bidirectional burst path.
pub open spec fn reduce_at(chunks: int, rounds: int, n: int) -> ReduceStep {
    if chunks == 1 {
        if n == 0 {
            ReduceStep::Begin
        } else if n > 2 * rounds {
            ReduceStep::Finished
        } else if n % 2 == 1 {
            ReduceStep::Round
        } else {
            ReduceStep::Pass
        }
    } else {
        if n >= rounds * (chunks + 1) {
            ReduceStep::Finished
        } else if n % (chunks + 1) == 0 {
            ReduceStep::Burst
        } else {
            ReduceStep::Pass
        }
    }
}

pub fn reduce_step(chunks: u32, rounds: u32, n: u64) -> (r: ReduceStep)
    ensures
        r == reduce_at(chunks as int, rounds as int, n as int),
{
    if chunks == 1 {
        if n == 0 {
            ReduceStep::Begin
        } else if n > 2 * (rounds as u64) {
            ReduceStep::Finished
        } else if n % 2 == 1 {
            ReduceStep::Round
        } else {
            ReduceStep::Pass
        }
    } else {
        let per_round: u64 = chunks as u64 + 1;
        proof {
            assert(rounds * per_round <= 0xffff_ffff * 0x1_0000_0000) by (nonlinear_arith)
                requires
                    rounds <= 0xffff_ffff,
                    per_round <= 0x1_0000_0000,
            ;
        }
        if n >= rounds as u64 * per_round {
            ReduceStep::Finished
        } else if n % per_round == 0 {
            ReduceStep::Burst
        } else {
            ReduceStep::Pass
        }
    }
}

/// How many of the first `n` steps are `kind`.
pub open spec fn steps_of(kind: ReduceStep, chunks: int, rounds: int, n: int) -> int
    decreases n,
{
    if n <= 0 {
        0
    } else {
        steps_of(kind, chunks, rounds, n - 1) + if reduce_at(chunks, rounds, n - 1) == kind {
            1int
        } else {
            0
        }
    }
}

/// The number of steps before the end.
pub open spec fn reduce_length(chunks: int, rounds: int) -> int {
    if chunks == 1 {
        2 * rounds + 1
    } else {
        rounds * (chunks + 1)
    }
}

/// An all-reduce ends, and by then it has exchanged chunks once per round and
/// has reduced every chunk of every round locally, exactly once.
pub proof fn law_reduce_covers_every_chunk(chunks: int, rounds: int)
    requires
        chunks >= 0,
        rounds >= 0,
    ensures
        ({
            let n = reduce_length(chunks, rounds);
            &&& reduce_at(chunks, rounds, n) is Finished
            &&& steps_of(ReduceStep::Finished, chunks, rounds, n) == 0
            &&& steps_of(ReduceStep::Pass, chunks, rounds, n) == chunks * rounds
            &&& steps_of(
                if chunks == 1 {
                    ReduceStep::Round
                } else {
                    ReduceStep::Burst
                },
                chunks,
                rounds,
                n,
            ) == rounds
        }),
{
    if chunks == 1 {
        lemma_pipelined_steps(rounds, 2 * rounds + 1);
    } else {
        assert(rounds * (chunks + 1) >= 0) by (nonlinear_arith)
            requires
                rounds >= 0,
                chunks >= 0,
        ;
        lemma_burst_steps(chunks, rounds, rounds);
        assert(chunks * rounds == rounds * chunks) by (nonlinear_arith);
    }
}

proof fn lemma_pipelined_steps(rounds: int, n: int)
    requires
        rounds >= 0,
        0 <= n <= 2 * rounds + 1,
    ensures
        steps_of(ReduceStep::Finished, 1, rounds, n) == 0,
        steps_of(ReduceStep::Round, 1, rounds, n) == n / 2,
        steps_of(ReduceStep::Pass, 1, rounds, n) == if n <= 0 {
            0
        } else {
            (n - 1) / 2
        },
    decreases n,
{
    if n > 0 {
        lemma_pipelined_steps(rounds, n - 1);
    }
}

/// After `k` whole rounds of the burst path.
proof fn lemma_burst_steps(chunks: int, rounds: int, k: int)
    requires
        chunks >= 0,
        chunks != 1,
        0 <= k <= rounds,
    ensures
        steps_of(ReduceStep::Finished, chunks, rounds, k * (chunks + 1)) == 0,
        steps_of(ReduceStep::Burst, chunks, rounds, k * (chunks + 1)) == k,
        steps_of(ReduceStep::Pass, chunks, rounds, k * (chunks + 1)) == k * chunks,
    decreases k,
{
    if k > 0 {
        lemma_burst_steps(chunks, rounds, k - 1);
        lemma_burst_round(chunks, rounds, k - 1, chunks + 1);
        assert((k - 1) * (chunks + 1) + (chunks + 1) == k * (chunks + 1)) by (nonlinear_arith);
        assert((k - 1) * chunks + chunks == k * chunks) by (nonlinear_arith);
    } else {
        assert(0 * (chunks + 1) == 0 && 0 * chunks == 0) by (nonlinear_arith);
    }
}

/// Within round `k` of the burst path: the burst, then passes.
proof fn lemma_burst_round(chunks: int, rounds: int, k: int, m: int)
    requires
        chunks >= 0,
        chunks != 1,
        0 <= k < rounds,
        0 <= m <= chunks + 1,
    ensures
        ({
            let from = k * (chunks + 1);
            &&& steps_of(ReduceStep::Finished, chunks, rounds, from + m) == steps_of(
                ReduceStep::Finished,
                chunks,
                rounds,
                from,
            )
            &&& steps_of(ReduceStep::Burst, chunks, rounds, from + m) == steps_of(
                ReduceStep::Burst,
                chunks,
                rounds,
                from,
            ) + if m > 0 {
                1int
            } else {
                0
            }
            &&& steps_of(ReduceStep::Pass, chunks, rounds, from + m) == steps_of(
                ReduceStep::Pass,
                chunks,
                rounds,
                from,
            ) + if m > 0 {
                m - 1
            } else {
                0
            }
        }),
    decreases m,
{
    let w = chunks + 1;
    let from = k * w;
    assert(from >= 0) by (nonlinear_arith)
        requires
            from == k * w,
            k >= 0,
            w >= 0,
    ;
    if m > 0 {
        lemma_burst_round(chunks, rounds, k, m - 1);
        let n = from + m - 1;
        assert(n < rounds * w) by (nonlinear_arith)
            requires
                n == k * w + m - 1,
                m <= w,
                k < rounds,
                w > 0,
        ;
        assert(n % w == m - 1) by (nonlinear_arith)
            requires
                n == k * w + m - 1,
                0 < m <= w,
        ;
    }
}

/// A chunk is reduced only after it was exchanged, and a round is reduced whole
/// before the next one is exchanged: by step `n` there were never more passes than
/// exchanged chunks, and never a round begun with passes of the one before
/// outstanding.
pub proof fn law_reduce_follows_the_exchange(chunks: int, rounds: int, n: int)
    requires
        chunks >= 0,
        rounds >= 0,
        0 <= n <= reduce_length(chunks, rounds),
    ensures
        ({
            let exchanged = steps_of(
                if chunks == 1 {
                    ReduceStep::Round
                } else {
                    ReduceStep::Burst
                },
                chunks,
                rounds,
                n,
            );
            let passes = steps_of(ReduceStep::Pass, chunks, rounds, n);
            &&& passes <= chunks * exchanged
            &&& exchanged > 0 ==> passes >= chunks * (exchanged - 1)
        }),
{
    if chunks == 1 {
        lemma_pipelined_steps(rounds, n);
    } else {
        let w = chunks + 1;
        let (k, m) = (n / w, n % w);
        assert(n == k * w + m && 0 <= m < w && k >= 0) by (nonlinear_arith)
            requires
                k == n / w,
                m == n % w,
                w > 0,
                n >= 0,
        ;
        assert(k <= rounds) by (nonlinear_arith)
            requires
                n == k * w + m,
                0 <= m < w,
                n <= rounds * w,
        ;
        lemma_burst_steps(chunks, rounds, k);
        assert(chunks * (k + 1) == k * chunks + chunks && chunks * k == k * chunks)
            by (nonlinear_arith);
        if k < rounds {
            lemma_burst_round(chunks, rounds, k, m);
        } else {
            assert(m == 0) by (nonlinear_arith)
                requires
                    n == k * w + m,
                    0 <= m < w,
                    n <= rounds * w,
                    k == rounds,
            ;
        }
        assert(chunks * (k - 1) <= k * chunks) by (nonlinear_arith)
            requires
                chunks >= 0,
        ;
    }
}

// ------------------------------------------------------------------ client

/// What the client's plan depends on.
#[derive(Debug, Clone, Copy, PartialEq, Eq, Structural)]
pub struct Plan {
    pub quick: bool,
    /// Largest message the data plane takes.
    pub max_msg: u64,
    pub lanes: usize,
}

/// The stages of a run, in order.
#[derive(Debug, Clone, Copy, PartialEq, Eq, Structural)]
pub enum Stage {
    /// Warm the path (page faults, cwnd, caches).
    Warm,
    Calibrate,
    /// Round trips of one size.
    Latency(usize),
    /// One message size of the bandwidth sweep.
    Sweep(usize),
    SustainedUp,
    SustainedDown,
    Bidir,
    RateProbe,
    Rate,
    /// Per-token tensor-parallel sync.
    SmallReduce,
    /// Gradient sync.
    BigReduce,
    KvBlock,
    /// Pings on lane 0 while the rest carry bulk.
    Loaded,
    /// Pings after a compute-shaped pause.
    IdleGap(usize),
    Bye,
}

pub const LATENCY_STAGES: usize = 4;

pub const IDLE_STAGES: usize = 3;

pub const SWEEP_SIZES: usize = 6;

/// Message sizes of the latency stages.
pub open spec fn latency_size(i: int) -> int {
    if i == 0 {
        64
    } else if i == 1 {
        8 * KIB
    } else if i == 2 {
        16 * KIB
    } else {
        128 * KIB
    }
}

/// Message sizes of the bandwidth sweep.
pub open spec fn sweep_size(i: int) -> int {
    if i == 0 {
        4 * KIB
    } else if i == 1 {
        64 * KIB
    } else if i == 2 {
        MIB as int
    } else if i == 3 {
        8 * MIB
    } else if i == 4 {
        32 * MIB
    } else {
        128 * MIB
    }
}

/// Pauses of the after-idle stages, in milliseconds.
pub open spec fn idle_gap(i: int) -> int {
    if i == 0 {
        1
    } else if i == 1 {
        10
    } else {
        100
    }
}

pub fn latency_bytes(i: usize) -> (r: u64)
    ensures
        r == latency_size(i as int),
{
    if i == 0 {
        64
    } else if i == 1 {
        8 * KIB
    } else if i == 2 {
        16 * KIB
    } else {
        128 * KIB
    }
}

pub fn sweep_bytes(i: usize) -> (r: u64)
    ensures
        r == sweep_size(i as int),
{
    if i == 0 {
        4 * KIB
    } else if i == 1 {
        64 * KIB
    } else if i == 2 {
        MIB
    } else if i == 3 {
        8 * MIB
    } else if i == 4 {
        32 * MIB
    } else {
        128 * MIB
    }
}

pub fn idle_gap_ms(i: usize) -> (r: u64)
    ensures
        r == idle_gap(i as int),
{
    if i == 0 {
        1
    } else if i == 1 {
        10
    } else {
        100
    }
}

impl Plan {
    pub open spec fn at_most_max(self, size: int) -> int {
        if size < self.max_msg {
            size
        } else {
            self.max_msg as int
        }
    }

    /// The message size of the sustained runs.
    pub open spec fn big(self) -> int {
        self.at_most_max(8 * MIB)
    }

    /// The sweep uses size `i`.
    pub open spec fn sweeps(self, i: int) -> bool {
        0 <= i < SWEEP_SIZES && sweep_size(i) <= self.max_msg
    }

    pub open spec fn latency_iters(self) -> int {
        if self.quick {
            300
        } else {
            1000
        }
    }

    pub open spec fn idle_iters(self, i: int) -> int {
        clamped(
            (if self.quick {
                600int
            } else {
                3000
            }) / idle_gap(i),
            8,
            120,
        ) + 2
    }

    /// The stage is one that this plan runs.
    pub open spec fn runs(self, s: Stage) -> bool {
        match s {
            Stage::Latency(i) => i < LATENCY_STAGES,
            Stage::Sweep(i) => self.sweeps(i as int),
            Stage::IdleGap(i) => i < IDLE_STAGES,
            Stage::Loaded => self.lanes >= 2,
            _ => true,
        }
    }

    /// What the server is told to run in a stage; `raw` is the number of
    /// messages that would fill the stage's time at the measured rate.
    pub open spec fn spec_of(self, s: Stage, raw: int) -> Option<TestSpec> {
        match s {
            Stage::Warm => Some(TestSpec::C2S { size: 0x10_0000, count: 64 }),
            Stage::Calibrate => Some(TestSpec::C2S { size: 0x10_0000, count: 256 }),
            Stage::Latency(i) => Some(
                TestSpec::PingEcho {
                    size: latency_size(i as int) as u32,
                    iters: (self.latency_iters() / 10 + self.latency_iters()) as u32,
                },
            ),
            Stage::Sweep(i) => Some(
                TestSpec::C2S {
                    size: sweep_size(i as int) as u32,
                    count: clamped(raw, 16, 250_000) as u64,
                },
            ),
            Stage::SustainedUp => Some(
                TestSpec::C2STimeline {
                    size: self.big() as u32,
                    count: at_least(raw, 32) as u64,
                    bucket_ms: BUCKET_MS,
                },
            ),
            Stage::SustainedDown => Some(
                TestSpec::S2C { size: self.big() as u32, count: at_least(raw, 32) as u64 },
            ),
            Stage::Bidir => Some(
                TestSpec::Bidir {
                    size: self.big() as u32,
                    count: at_least(clamped(raw, 16, 100_000), 32) as u64,
                },
            ),
            Stage::RateProbe => Some(TestSpec::C2S { size: 256, count: 20_000 }),
            Stage::Rate => Some(
                TestSpec::C2S { size: 256, count: clamped(raw, 20_000, 3_000_000) as u64 },
            ),
            Stage::SmallReduce => Some(
                TestSpec::Reduce {
                    chunk: (8 * KIB) as u32,
                    chunks: 1,
                    rounds: self.latency_iters() as u32,
                },
            ),
            Stage::BigReduce => Some(
                TestSpec::Reduce {
                    chunk: self.at_most_max(16 * MIB) as u32,
                    chunks: (512 * MIB / self.at_most_max(16 * MIB)) as u32,
                    rounds: 2,
                },
            ),
            Stage::KvBlock => Some(
                TestSpec::C2S {
                    size: self.at_most_max(32 * MIB) as u32,
                    count: clamped(raw, 16, 4096) as u64,
                },
            ),
            Stage::Loaded => Some(
                TestSpec::LoadedPing {
                    ping_size: (16 * KIB) as u32,
                    bulk_size: self.big() as u32,
                    bulk_count: at_least(raw, 16) as u64,
                },
            ),
            Stage::IdleGap(i) => Some(
                TestSpec::PingEcho { size: (16 * KIB) as u32, iters: self.idle_iters(i as int) as u32 },
            ),
            Stage::Bye => None,
        }
    }

    /// The stage after `s`.
    pub open spec fn successor(self, s: Stage) -> Stage {
        match s {
            Stage::Warm => Stage::Calibrate,
            Stage::Calibrate => Stage::Latency(0),
            Stage::Latency(i) => if i + 1 < LATENCY_STAGES {
                Stage::Latency((i + 1) as usize)
            } else {
                self.sweep_from(0)
            },
            Stage::Sweep(i) => self.sweep_from(i + 1),
            Stage::SustainedUp => Stage::SustainedDown,
            Stage::SustainedDown => Stage::Bidir,
            Stage::Bidir => Stage::RateProbe,
            Stage::RateProbe => Stage::Rate,
            Stage::Rate => Stage::SmallReduce,
            Stage::SmallReduce => Stage::BigReduce,
            Stage::BigReduce => Stage::KvBlock,
            Stage::KvBlock => if self.lanes >= 2 {
                Stage::Loaded
            } else {
                Stage::IdleGap(0)
            },
            Stage::Loaded => Stage::IdleGap(0),
            Stage::IdleGap(i) => if i + 1 < IDLE_STAGES {
                Stage::IdleGap((i + 1) as usize)
            } else {
                Stage::Bye
            },
            Stage::Bye => Stage::Bye,
        }
    }

    /// The first sweep size from `i` on that fits, or the stage after the sweep.
    pub open spec fn sweep_from(self, i: int) -> Stage
        decreases SWEEP_SIZES - i,
    {
        if i >= SWEEP_SIZES {
            Stage::SustainedUp
        } else if self.sweeps(i) {
            Stage::Sweep(i as usize)
        } else {
            self.sweep_from(i + 1)
        }
    }

    fn bounded(&self, size: u64) -> (r: u64)
        ensures
            r == self.at_most_max(size as int),
    {
        if size < self.max_msg {
            size
        } else {
            self.max_msg
        }
    }

    /// Round trips measured per latency stage; a tenth more is run to warm up.
    pub fn ping_iters(&self) -> (r: u32)
        ensures
            r == self.latency_iters(),
    {
        if self.quick {
            300
        } else {
            1000
        }
    }

    /// Round trips of a ping stage that are run and not measured.
    pub open spec fn unmeasured(self, s: Stage) -> int {
        match s {
            Stage::Latency(_) => self.latency_iters() / 10,
            Stage::IdleGap(_) => 2,
            _ => 0,
        }
    }

    pub fn warmup(&self, s: Stage) -> (r: u32)
        ensures
            r == self.unmeasured(s),
    {
        match s {
            Stage::Latency(_) => self.ping_iters() / 10,
            Stage::IdleGap(_) => 2,
            _ => 0,
        }
    }

    /// Share of the requested duration that a run uses, in percent.
    pub fn scale_percent(&self) -> (r: u64)
        ensures
            r == if self.quick {
                35u64
            } else {
                100
            },
    {
        if self.quick {
            35
        } else {
            100
        }
    }

    /// Seconds that each sustained run is to take.
    pub open spec fn sustained(self) -> int {
        if self.quick {
            3
        } else {
            8
        }
    }

    pub fn sustain_s(&self) -> (r: u64)
        ensures
            r == self.sustained(),
    {
        if self.quick {
            3
        } else {
            8
        }
    }

    /// Milliseconds that the bulk stream of the loaded ping is to take.
    pub fn loaded_ms(&self) -> (r: u64)
        ensures
            r == if self.quick {
                1500u64
            } else {
                3000
            },
    {
        if self.quick {
            1500
        } else {
            3000
        }
    }

    /// The message size of the sustained runs.
    pub fn big_msg(&self) -> (r: u64)
        ensures
            r == self.big(),
    {
        self.bounded(8 * MIB)
    }

    pub fn stage_spec(&self, s: Stage, raw: u64) -> (r: Option<TestSpec>)
        requires
            self.max_msg > 0,
            self.runs(s),
        ensures
            r == self.spec_of(s, raw as int),
    {
        match s {
            Stage::Warm => Some(TestSpec::C2S { size: 0x10_0000, count: 64 }),
            Stage::Calibrate => Some(TestSpec::C2S { size: 0x10_0000, count: 256 }),
            Stage::Latency(i) => {
                let iters = self.ping_iters();
                Some(TestSpec::PingEcho { size: latency_bytes(i) as u32, iters: iters / 10 + iters })
            },
            Stage::Sweep(i) => Some(
                TestSpec::C2S { size: sweep_bytes(i) as u32, count: clamp(raw, 16, 250_000) },
            ),
            Stage::SustainedUp => Some(
                TestSpec::C2STimeline {
                    size: self.big_msg() as u32,
                    count: floor_at(raw, 32),
                    bucket_ms: BUCKET_MS,
                },
            ),
            Stage::SustainedDown => Some(
                TestSpec::S2C { size: self.big_msg() as u32, count: floor_at(raw, 32) },
            ),
            Stage::Bidir => Some(
                TestSpec::Bidir {
                    size: self.big_msg() as u32,
                    count: floor_at(clamp(raw, 16, 100_000), 32),
                },
            ),
            Stage::RateProbe => Some(TestSpec::C2S { size: 256, count: 20_000 }),
            Stage::Rate => Some(TestSpec::C2S { size: 256, count: clamp(raw, 20_000, 3_000_000) }),
            Stage::SmallReduce => Some(
                TestSpec::Reduce { chunk: 8192, chunks: 1, rounds: self.ping_iters() },
            ),
            Stage::BigReduce => {
                let chunk = self.bounded(16 * MIB);
                let chunks: u64 = 512 * MIB / chunk;
                proof {
                    assert(chunks <= 512 * MIB) by (nonlinear_arith)
                        requires
                            chunks == (512 * MIB) / (chunk as int),
                            chunk > 0,
                    ;
                }
                Some(TestSpec::Reduce { chunk: chunk as u32, chunks: chunks as u32, rounds: 2 })
            },
            Stage::KvBlock => Some(
                TestSpec::C2S {
                    size: self.bounded(32 * MIB) as u32,
                    count: clamp(raw, 16, 4096),
                },
            ),
            Stage::Loaded => Some(
                TestSpec::LoadedPing {
                    ping_size: 16384,
                    bulk_size: self.big_msg() as u32,
                    bulk_count: floor_at(raw, 16),
                },
            ),
            Stage::IdleGap(i) => {
                let budget: u64 = if self.quick {
                    600
                } else {
                    3000
                };
                let iters: u64 = clamp(budget / idle_gap_ms(i), 8, 120) + 2;
                Some(TestSpec::PingEcho { size: 16384, iters: iters as u32 })
            },
            Stage::Bye => None,
        }
    }

    /// What is said as a stage begins; nothing where it goes on with the one
    /// before.
    pub open spec fn said(self, s: Stage) -> Seq<char> {
        match s {
            Stage::Warm => "  calibrating … "@,
            Stage::Latency(i) => "  latency "@ + pad_left(
                size_text(latency_size(i as int) as nat),
                7,
                ' ',
            ) + " … "@,
            Stage::Sweep(i) => "  bandwidth "@ + pad_left(
                size_text(sweep_size(i as int) as nat),
                7,
                ' ',
            ) + " … "@,
            Stage::SustainedUp => "  sustained up (c→s, "@ + dec(self.sustained() as nat)
                + " s) … "@,
            Stage::SustainedDown => "  sustained down (s→c, "@ + dec(self.sustained() as nat)
                + " s) … "@,
            Stage::Bidir => "  bidirectional … "@,
            Stage::RateProbe => "  message rate … "@,
            Stage::SmallReduce => "  all-reduce 16 KiB … "@,
            Stage::BigReduce => "  all-reduce 1 GiB … "@,
            Stage::KvBlock => "  KV block 32 MiB … "@,
            Stage::Loaded => "  latency under load … "@,
            Stage::IdleGap(i) => "  after "@ + pad_left(dec(idle_gap(i as int) as nat), 3, ' ')
                + " ms idle … "@,
            _ => Seq::empty(),
        }
    }

    pub fn announce(&self, s: Stage) -> (r: String)
        ensures
            r@ == self.said(s),
    {
        match s {
            Stage::Warm => "  calibrating … ".to_owned(),
            Stage::Latency(i) => "  latency ".to_owned().concat(
                left_padded(fmt_size(latency_bytes(i)).as_str(), 7, ' ').as_str(),
            ).concat(" … "),
            Stage::Sweep(i) => "  bandwidth ".to_owned().concat(
                left_padded(fmt_size(sweep_bytes(i)).as_str(), 7, ' ').as_str(),
            ).concat(" … "),
            Stage::SustainedUp => "  sustained up (c→s, ".to_owned().concat(
                decimal(self.sustain_s()).as_str(),
            ).concat(" s) … "),
            Stage::SustainedDown => "  sustained down (s→c, ".to_owned().concat(
                decimal(self.sustain_s()).as_str(),
            ).concat(" s) … "),
            Stage::Bidir => "  bidirectional … ".to_owned(),
            Stage::RateProbe => "  message rate … ".to_owned(),
            Stage::SmallReduce => "  all-reduce 16 KiB … ".to_owned(),
            Stage::BigReduce => "  all-reduce 1 GiB … ".to_owned(),
            Stage::KvBlock => "  KV block 32 MiB … ".to_owned(),
            Stage::Loaded => "  latency under load … ".to_owned(),
            Stage::IdleGap(i) => "  after ".to_owned().concat(
                left_padded(decimal(idle_gap_ms(i)).as_str(), 3, ' ').as_str(),
            ).concat(" ms idle … "),
            _ => String::new(),
        }
    }

    pub fn next_stage(&self, s: Stage) -> (r: Stage)
        requires
            self.runs(s),
        ensures
            r == self.successor(s),
            self.runs(r),
    {
        match s {
            Stage::Warm => Stage::Calibrate,
            Stage::Calibrate => Stage::Latency(0),
            Stage::Latency(i) => if i + 1 < LATENCY_STAGES {
                Stage::Latency(i + 1)
            } else {
                self.next_sweep(0)
            },
            Stage::Sweep(i) => self.next_sweep(i + 1),
            Stage::SustainedUp => Stage::SustainedDown,
            Stage::SustainedDown => Stage::Bidir,
            Stage::Bidir => Stage::RateProbe,
            Stage::RateProbe => Stage::Rate,
            Stage::Rate => Stage::SmallReduce,
            Stage::SmallReduce => Stage::BigReduce,
            Stage::BigReduce => Stage::KvBlock,
            Stage::KvBlock => if self.lanes >= 2 {
                Stage::Loaded
            } else {
                Stage::IdleGap(0)
            },
            Stage::Loaded => Stage::IdleGap(0),
            Stage::IdleGap(i) => if i + 1 < IDLE_STAGES {
                Stage::IdleGap(i + 1)
            } else {
                Stage::Bye
            },
            Stage::Bye => Stage::Bye,
        }
    }

    fn next_sweep(&self, from: usize) -> (r: Stage)
        requires
            from <= SWEEP_SIZES,
        ensures
            r == self.sweep_from(from as int),
            self.runs(r),
    {
        let mut i: usize = from;
        while i < SWEEP_SIZES
            invariant
                i <= SWEEP_SIZES,
                self.sweep_from(from as int) == self.sweep_from(i as int),
            decreases SWEEP_SIZES - i,
        {
            if sweep_bytes(i) <= self.max_msg {
                return Stage::Sweep(i);
            }
            i += 1;
        }
        Stage::SustainedUp
    }

    /// How far a run has got.
    pub open spec fn progress(self, s: Stage) -> int {
        match s {
            Stage::Warm => 0,
            Stage::Calibrate => 1,
            Stage::Latency(i) => 2 + i,
            Stage::Sweep(i) => 10 + i,
            Stage::SustainedUp => 20,
            Stage::SustainedDown => 21,
            Stage::Bidir => 22,
            Stage::RateProbe => 23,
            Stage::Rate => 24,
            Stage::SmallReduce => 25,
            Stage::BigReduce => 26,
            Stage::KvBlock => 27,
            Stage::Loaded => 28,
            Stage::IdleGap(i) => 30 + i,
            Stage::Bye => 40,
        }
    }
}

pub open spec fn at_least(x: int, lo: int) -> int {
    if x < lo {
        lo
    } else {
        x
    }
}

fn floor_at(x: u64, lo: u64) -> (r: u64)
    ensures
        r == at_least(x as int, lo as int),
{
    if x < lo {
        lo
    } else {
        x
    }
}

pub fn clamp(x: u64, lo: u64, hi: u64) -> (r: u64)
    requires
        lo <= hi,
    ensures
        r == clamped(x as int, lo as int, hi as int),
{
    if x < lo {
        lo
    } else if x > hi {
        hi
    } else {
        x
    }
}

/// A run goes through its stages one after the other and comes to its end:
/// every stage but the last has a later one behind it.
pub proof fn law_run_advances(plan: Plan, s: Stage)
    requires
        plan.runs(s),
        !(s is Bye),
    ensures
        plan.runs(plan.successor(s)),
        plan.progress(s) < plan.progress(plan.successor(s)) <= 40,
{
    lemma_sweep_from(plan, 0);
    if let Stage::Sweep(i) = s {
        lemma_sweep_from(plan, i + 1);
    }
}

proof fn lemma_sweep_from(plan: Plan, i: int)
    requires
        0 <= i <= SWEEP_SIZES,
    ensures
        plan.runs(plan.sweep_from(i)),
        10 + i <= plan.progress(plan.sweep_from(i)) <= 20,
    decreases SWEEP_SIZES - i,
{
    if i < SWEEP_SIZES && !plan.sweeps(i) {
        lemma_sweep_from(plan, i + 1);
    }
}

/// Stage `n` of a run.
pub open spec fn stage_at(plan: Plan, n: nat) -> Stage
    decreases n,
{
    if n == 0 {
        Stage::Warm
    } else {
        plan.successor(stage_at(plan, (n - 1) as nat))
    }
}

/// A run leaves out none of its stages: each latency size, each sweep size that
/// the plane takes, both sustained directions, the bidirectional test, the message
/// rate, both all-reduces, the cache block, the loaded ping where there are two
/// lanes, and each pause.
pub proof fn law_no_stage_is_left_out(plan: Plan, s: Stage)
    requires
        match s {
            Stage::Latency(i) => i < 4,
            Stage::Sweep(i) => i < 6 && sweep_size(i as int) <= plan.max_msg,
            Stage::IdleGap(i) => i < 3,
            Stage::Loaded => plan.lanes >= 2,
            _ => true,
        },
    ensures
        exists|n: nat| #[trigger] stage_at(plan, n) == s,
    decreases plan.progress(s),
{
    if s is Warm {
        assert(stage_at(plan, 0) == s);
    } else {
        let p = lemma_stage_before(plan, s);
        law_run_advances(plan, p);
        law_no_stage_is_left_out(plan, p);
        let n = choose|n: nat| #[trigger] stage_at(plan, n) == p;
        assert(stage_at(plan, n + 1) == s);
    }
}

proof fn lemma_stage_before(plan: Plan, s: Stage) -> (p: Stage)
    requires
        plan.runs(s),
        !(s is Warm),
    ensures
        plan.runs(p),
        !(p is Bye),
        plan.successor(p) == s,
{
    match s {
        Stage::Warm => s,
        Stage::Calibrate => Stage::Warm,
        Stage::Latency(i) => if i == 0 {
            Stage::Calibrate
        } else {
            Stage::Latency((i - 1) as usize)
        },
        Stage::Sweep(i) => lemma_sweep_before(plan, i as int, i as int),
        Stage::SustainedUp => lemma_sweep_before(plan, SWEEP_SIZES as int, SWEEP_SIZES as int),
        Stage::SustainedDown => Stage::SustainedUp,
        Stage::Bidir => Stage::SustainedDown,
        Stage::RateProbe => Stage::Bidir,
        Stage::Rate => Stage::RateProbe,
        Stage::SmallReduce => Stage::Rate,
        Stage::BigReduce => Stage::SmallReduce,
        Stage::KvBlock => Stage::BigReduce,
        Stage::Loaded => Stage::KvBlock,
        Stage::IdleGap(i) => if i > 0 {
            Stage::IdleGap((i - 1) as usize)
        } else if plan.lanes >= 2 {
            Stage::Loaded
        } else {
            Stage::KvBlock
        },
        Stage::Bye => Stage::IdleGap(2),
    }
}

/// The stage from which the sweep goes on to `to`, where no size from `from` up to
/// there is used.
proof fn lemma_sweep_before(plan: Plan, from: int, to: int) -> (p: Stage)
    requires
        0 <= from <= to <= SWEEP_SIZES,
        to == SWEEP_SIZES || plan.sweeps(to),
        plan.sweep_from(from) == plan.sweep_from(to),
    ensures
        plan.runs(p),
        !(p is Bye),
        plan.successor(p) == plan.sweep_from(to),
    decreases from,
{
    if from == 0 {
        Stage::Latency(3)
    } else if plan.sweeps(from - 1) {
        Stage::Sweep((from - 1) as usize)
    } else {
        lemma_sweep_before(plan, from - 1, to)
    }
}

/// What each stage runs. Latency is measured by pings of 64 B, 8 KiB, 16 KiB and
/// 128 KiB, after-idle latency by pings of 16 KiB after 1, 10 and 100 ms; the sweep
/// sends 4 KiB to 128 MiB upwards; sustained runs, both ways and at once, use
/// messages of 8 MiB, or the largest there is room for; message rate is of 256 B; the
/// small all-reduce is of one chunk of 8 KiB each way, the big one of half a GiB
/// each way, twice; a cache block has 32 MiB; and pings of 16 KiB go out under load.
pub proof fn law_what_each_stage_runs(plan: Plan, s: Stage, raw: int)
    requires
        plan.runs(s),
        plan.max_msg > 0,
        0 <= raw <= u64::MAX,
    ensures
        plan.spec_of(s, raw) is None <==> s is Bye,
        ({
            let spec = plan.spec_of(s, raw)->0;
            let big: int = if plan.max_msg < 0x80_0000 {
                plan.max_msg as int
            } else {
                0x80_0000
            };
            match s {
                Stage::Latency(i) => spec is PingEcho && spec->PingEcho_size == seq![
                    64u32,
                    8192,
                    16384,
                    131072,
                ][i as int] && spec->PingEcho_iters == if plan.quick {
                    330u32
                } else {
                    1100
                },
                Stage::IdleGap(i) => spec is PingEcho && spec->PingEcho_size == 16384
                    && spec->PingEcho_iters == if plan.quick {
                    seq![122u32, 62, 10]
                } else {
                    seq![122u32, 122, 32]
                }[i as int],
                Stage::Sweep(i) => spec is C2S && spec->C2S_size == seq![
                    4096u32,
                    65536,
                    0x10_0000,
                    0x80_0000,
                    0x200_0000,
                    0x800_0000,
                ][i as int] && 16 <= spec->C2S_count <= 250_000 && (16 <= raw <= 250_000
                    ==> spec->C2S_count == raw),
                Stage::SustainedUp => spec is C2STimeline && spec->C2STimeline_size == big
                    && spec->C2STimeline_count >= 32 && (raw >= 32 ==> spec->C2STimeline_count
                    == raw) && spec->C2STimeline_bucket_ms == 200,
                Stage::SustainedDown => spec is S2C && spec->S2C_size == big && spec->S2C_count
                    >= 32 && (raw >= 32 ==> spec->S2C_count == raw),
                Stage::Bidir => spec is Bidir && spec->Bidir_size == big && 32
                    <= spec->Bidir_count <= 100_000 && (32 <= raw <= 100_000 ==> spec->Bidir_count
                    == raw),
                Stage::RateProbe => spec is C2S && spec->C2S_size == 256,
                Stage::Rate => spec is C2S && spec->C2S_size == 256 && 20_000 <= spec->C2S_count
                    <= 3_000_000 && (20_000 <= raw <= 3_000_000 ==> spec->C2S_count == raw),
                Stage::SmallReduce => spec is Reduce && spec->chunk == 8192 && spec->chunks == 1
                    && spec->rounds == if plan.quick {
                    300u32
                } else {
                    1000
                },
                Stage::BigReduce => spec is Reduce && spec->rounds == 2 && spec->chunk
                    <= plan.max_msg && spec->chunk <= 0x100_0000 && (spec->chunk == plan.max_msg
                    || spec->chunk == 0x100_0000) && spec->chunk * spec->chunks <= 0x2000_0000
                    && spec->chunk * (spec->chunks + 1) > 0x2000_0000,
                Stage::KvBlock => spec is C2S && spec->C2S_size <= plan.max_msg && (
                spec->C2S_size == 0x200_0000 || (spec->C2S_size == plan.max_msg && plan.max_msg
                    < 0x200_0000)) && 16 <= spec->C2S_count <= 4096 && (16 <= raw <= 4096
                    ==> spec->C2S_count == raw),
                Stage::Loaded => spec is LoadedPing && spec->ping_size == 16384
                    && spec->bulk_size == big && spec->bulk_count >= 16 && (raw >= 16
                    ==> spec->bulk_count == raw),
                _ => true,
            }
        }),
{
    if s is BigReduce {
        let c = plan.at_most_max(16 * MIB);
        let k = 512 * MIB / c;
        assert(0 <= k <= 512 * MIB && c * k <= 512 * MIB && c * (k + 1) > 512 * MIB)
            by (nonlinear_arith)
            requires
                k == (512 * MIB) / c,
                c > 0,
        ;
    }
}

/// A run takes as long as it says: sustained tests 8 s, or 3 s in a quick run.
pub proof fn law_sustained_time(plan: Plan)
    ensures
        plan.sustained() == if plan.quick {
            3int
        } else {
            8
        },
{
}

/// Bulk messages never exceed what the data plane takes: those of the sweep,
/// the sustained runs, the gradient sync, the cache blocks and the bulk stream
/// of the loaded ping.
pub proof fn law_bulk_fits_the_plane(plan: Plan, s: Stage, raw: int)
    requires
        plan.runs(s),
        s is Sweep || s is SustainedUp || s is SustainedDown || s is Bidir || s is BigReduce
            || s is KvBlock || s is Loaded,
    ensures
        ({
            let spec = plan.spec_of(s, raw)->0;
            &&& plan.spec_of(s, raw) is Some
            &&& sends(client_role(spec)).size <= plan.max_msg
            &&& receives(client_role(spec)).size <= plan.max_msg
        }),
{
}

/// Each after-idle stage measures at least eight round trips, a full run at least
/// thirty; each latency stage measures as many as it was asked for.
pub proof fn law_enough_samples(plan: Plan, s: Stage, raw: int)
    requires
        plan.runs(s),
        s is IdleGap || s is Latency,
    ensures
        plan.spec_of(s, raw) matches Some(TestSpec::PingEcho { iters, .. }) && {
            let measured = iters - plan.unmeasured(s);
            &&& s is Latency ==> measured == plan.latency_iters()
            &&& s is IdleGap ==> measured >= 8
            &&& s is IdleGap && !plan.quick ==> measured >= 30
        },
{
}

/// The loaded ping is part of a run exactly when there is a lane to load.
pub proof fn law_loaded_needs_two_lanes(plan: Plan)
    ensures
        plan.successor(Stage::KvBlock) is Loaded <==> plan.lanes >= 2,
{
}

// ------------------------------------------------------------------ numbers

/// The position of a percentile among `n` sorted samples, to the nearest one.
pub open spec fn percentile_index(n: int, percent: int) -> int {
    ((n - 1) * percent + 50) / 100
}

/// The percentile of sorted samples; 0 where there are none.
pub fn percentile(sorted: &[u64], percent: u64) -> (r: u64)
    requires
        percent <= 100,
    ensures
        sorted@.len() == 0 ==> r == 0,
        sorted@.len() > 0 ==> 0 <= percentile_index(sorted@.len() as int, percent as int)
            < sorted@.len() && r == sorted@[percentile_index(sorted@.len() as int, percent as int)],
{
    if sorted.len() == 0 {
        return 0;
    }
    let last: u128 = (sorted.len() - 1) as u128;
    proof {
        assert(last * percent <= last * 100 && last * percent >= 0) by (nonlinear_arith)
            requires
                percent <= 100,
                last >= 0,
        ;
    }
    let idx: u128 = (last * percent as u128 + 50) / 100;
    sorted[idx as usize]
}

/// A higher percentile is never smaller.
pub proof fn law_percentiles_grow(n: int, p: int, q: int)
    requires
        n > 0,
        0 <= p <= q <= 100,
    ensures
        0 <= percentile_index(n, p) <= percentile_index(n, q) < n,
{
    assert((n - 1) * p <= (n - 1) * q && (n - 1) * q <= (n - 1) * 100 && (n - 1) * p >= 0)
        by (nonlinear_arith)
        requires
            n >= 1,
            0 <= p <= q <= 100,
    ;
}

/// The percentile stands at the place nearest to its share of the way from the
/// first sample to the last: no more than half a place off.
pub proof fn law_percentile_is_nearest(n: int, percent: int)
    requires
        n > 0,
        0 <= percent <= 100,
    ensures
        ({
            let i = percentile_index(n, percent);
            &&& 0 <= i < n
            &&& -50 <= (n - 1) * percent - 100 * i < 50
        }),
{
    law_percentiles_grow(n, percent, percent);
}

/// The sum of samples, where it fits.
pub fn sum(samples: &[u64]) -> (r: u64)
    requires
        total(samples@) <= u64::MAX,
    ensures
        r == total(samples@),
{
    let mut s: u64 = 0;
    let mut i: usize = 0;
    assert(samples@.take(0) =~= Seq::empty());
    while i < samples.len()
        invariant
            i <= samples@.len(),
            s == total(samples@.take(i as int)),
            total(samples@) <= u64::MAX,
        decreases samples@.len() - i,
    {
        proof {
            lemma_total_prefix(samples@, i + 1);
            assert(samples@.take(i + 1).drop_last() =~= samples@.take(i as int));
        }
        s = s + samples[i];
        i += 1;
    }
    assert(samples@.take(i as int) =~= samples@);
    s
}

proof fn lemma_total_prefix(s: Seq<u64>, k: int)
    requires
        0 <= k <= s.len(),
    ensures
        0 <= total(s.take(k)) <= total(s),
    decreases s.len(),
{
    if k == s.len() {
        assert(s.take(k) =~= s);
        if s.len() > 0 {
            lemma_total_prefix(s.drop_last(), k - 1);
        }
    } else {
        lemma_total_prefix(s.drop_last(), k);
        assert(s.drop_last().take(k) =~= s.take(k));
    }
}

/// `r` is what moved in the steady window, and in how many buckets.
pub open spec fn moved_in_window(r: Option<(u64, usize)>, buckets: Seq<u64>, steady: int) -> bool {
    match r {
        Some((bytes, n)) => steady >= 3 && n == steady - 1 && bytes == total(
            buckets.subrange(1, steady),
        ),
        None => steady < 3,
    }
}

/// The wind-down is never counted, nor is the first bucket: timelines that agree
/// from bucket 1 up to the end of the steady window have moved the same. What
/// arrives in the window counts to the byte.
pub proof fn law_only_the_window_moves(
    r: Option<(u64, usize)>,
    a: Seq<u64>,
    t: Option<(u64, usize)>,
    b: Seq<u64>,
    steady: int,
    i: int,
)
    requires
        moved_in_window(r, a, steady),
        moved_in_window(t, b, steady),
        steady <= a.len(),
        steady <= b.len(),
        forall|k: int| 1 <= k < steady && k != i ==> #[trigger] a[k] == b[k],
    ensures
        r is Some <==> steady >= 3,
        r is Some <==> t is Some,
        r is Some ==> (r->0).1 == steady - 1 && (t->0).1 == steady - 1,
        r is Some && !(1 <= i < steady) ==> (r->0).0 == (t->0).0,
        r is Some && 1 <= i < steady ==> (t->0).0 - (r->0).0 == b[i] - a[i],
{
    if steady >= 3 {
        let (x, y) = (a.subrange(1, steady), b.subrange(1, steady));
        if 1 <= i < steady {
            assert(y =~= x.update(i - 1, b[i]));
            crate::transport::law_total_adds_up(x, i - 1, b[i]);
        } else {
            assert(x =~= y);
        }
    }
}

/// Sustained rates come from the steady window (all lanes active), not the full
/// first..last span: the bytes of buckets `1..steady` and how many those are.
/// A window of fewer than three buckets says nothing.
pub fn steady_bytes(buckets: &Vec<u64>, steady: usize) -> (r: Option<(u64, usize)>)
    requires
        steady >= 3 ==> steady <= buckets@.len(),
        total(buckets@) <= u64::MAX,
    ensures
        steady < 3 ==> r is None,
        steady >= 3 ==> r == Some(
            (total(buckets@.subrange(1, steady as int)) as u64, (steady - 1) as usize),
        ) && total(buckets@.subrange(1, steady as int)) <= u64::MAX,
        moved_in_window(r, buckets@, steady as int),
{
    if steady < 3 {
        return None;
    }
    let mut s: u64 = 0;
    let mut i: usize = 1;
    let ghost win = buckets@.subrange(1, steady as int);
    assert(win.take(0) =~= Seq::empty());
    proof {
        lemma_window_total(buckets@, steady as int);
    }
    while i < steady
        invariant
            1 <= i <= steady <= buckets@.len(),
            win == buckets@.subrange(1, steady as int),
            total(win) <= u64::MAX,
            s == total(win.take(i - 1)),
        decreases steady - i,
    {
        proof {
            lemma_total_prefix(win, i as int);
            assert(win.take(i as int).drop_last() =~= win.take(i - 1));
            assert(win.take(i as int).last() == buckets@[i as int]);
        }
        s = s + buckets[i];
        i += 1;
    }
    assert(win.take(i - 1) =~= win);
    Some((s, steady - 1))
}

proof fn lemma_window_total(b: Seq<u64>, end: int)
    requires
        1 <= end <= b.len(),
    ensures
        0 <= total(b.subrange(1, end)) <= total(b),
    decreases end,
{
    lemma_total_prefix(b, end);
    if end == 1 {
        assert(b.subrange(1, 1) =~= Seq::empty());
        lemma_total_prefix(b, 0);
    } else {
        lemma_window_prefix(b, end);
    }
}

proof fn lemma_window_prefix(b: Seq<u64>, end: int)
    requires
        1 <= end <= b.len(),
    ensures
        total(b.subrange(1, end)) + b[0] == total(b.take(end)),
        total(b.subrange(1, end)) >= 0,
    decreases end,
{
    assert(b.take(end).drop_last() =~= b.take(end - 1));
    if end == 1 {
        assert(b.subrange(1, 1) =~= Seq::empty());
        assert(b.take(0) =~= Seq::empty());
        assert(b.take(1).last() == b[0]);
        assert(total(b.take(0)) == 0);
    } else {
        lemma_window_prefix(b, end - 1);
        assert(b.subrange(1, end).drop_last() =~= b.subrange(1, end - 1));
    }
}

/// Percentiles of a set of round trips.
#[derive(Debug, Clone, Copy, PartialEq, Eq, Structural)]
pub struct Summary {
    pub p50: u64,
    pub p99: u64,
    pub samples: u64,
}

/// The percentile of ascending samples; 0 where there are none.
pub open spec fn ranked(s: Seq<u64>, percent: int) -> int {
    if s.len() == 0 {
        0
    } else {
        s[percentile_index(s.len() as int, percent)] as int
    }
}

/// `s` is what `samples` looks like in ascending order.
pub open spec fn sorts(s: Seq<u64>, samples: Seq<u64>) -> bool {
    ascending(s) && s.to_multiset() == samples.to_multiset()
}

/// `r` holds median and tail of `samples`.
pub open spec fn summarizes(r: Summary, samples: Seq<u64>) -> bool {
    &&& exists|s: Seq<u64>| #[trigger]
        sorts(s, samples) && r.p50 == ranked(s, 50) && r.p99 == ranked(s, 99)
    &&& r.samples == samples.len()
}

/// The order in which samples came does not matter.
pub proof fn law_summary_ignores_order(x: Summary, a: Seq<u64>, y: Summary, b: Seq<u64>)
    requires
        summarizes(x, a),
        summarizes(y, b),
        a.to_multiset() == b.to_multiset(),
    ensures
        x == y,
{
    let s = choose|s: Seq<u64>| #[trigger]
        sorts(s, a) && x.p50 == ranked(s, 50) && x.p99 == ranked(s, 99);
    let t = choose|t: Seq<u64>| #[trigger]
        sorts(t, b) && y.p50 == ranked(t, 50) && y.p99 == ranked(t, 99);
    let leq = |p: u64, q: u64| p <= q;
    vstd::seq_lib::lemma_sorted_unique(s, t, leq);
    a.to_multiset_ensures();
    b.to_multiset_ensures();
}

/// The median splits the samples: no more than half of them are smaller, and no
/// more than half are larger; of the tail, no more than one in a hundred, and half
/// a sample, are larger. Both are samples that were taken.
pub proof fn law_summary_splits_the_samples(r: Summary, samples: Seq<u64>)
    requires
        summarizes(r, samples),
        samples.len() > 0,
    ensures
        ({
            let n = samples.len();
            &&& r.samples == n
            &&& samples.contains(r.p50) && samples.contains(r.p99)
            &&& 2 * samples.filter(|x: u64| x < r.p50).len() <= n
            &&& 2 * samples.filter(|x: u64| x > r.p50).len() < n
            &&& 100 * samples.filter(|x: u64| x > r.p99).len() < n + 49
            &&& 100 * samples.filter(|x: u64| x < r.p99).len() <= 99 * n
        }),
{
    let s = choose|s: Seq<u64>| #[trigger]
        sorts(s, samples) && r.p50 == ranked(s, 50) && r.p99 == ranked(s, 99);
    samples.to_multiset_ensures();
    s.to_multiset_ensures();
    let n = s.len() as int;
    law_percentile_is_nearest(n, 50);
    law_percentile_is_nearest(n, 99);
    lemma_split_at(s, samples, percentile_index(n, 50));
    lemma_split_at(s, samples, percentile_index(n, 99));
}

proof fn lemma_split_at(s: Seq<u64>, samples: Seq<u64>, k: int)
    requires
        sorts(s, samples),
        0 <= k < s.len(),
    ensures
        samples.contains(s[k]),
        samples.filter(|x: u64| x < s[k]).len() <= k,
        samples.filter(|x: u64| x > s[k]).len() <= s.len() - 1 - k,
{
    let less = |x: u64| x < s[k];
    let more = |x: u64| x > s[k];
    crate::order::lemma_also_held(s, samples, s[k]);
    crate::order::lemma_filter_front(s, k, less);
    crate::order::lemma_filter_back(s, k + 1, more);
    crate::order::lemma_filter_ignores_order(s, samples, less);
    crate::order::lemma_filter_ignores_order(s, samples, more);
}

/// Median and tail of a set of samples, in whatever order they came.
pub fn summarize(samples: Vec<u64>) -> (r: Summary)
    ensures
        summarizes(r, samples@),
        r.p50 <= r.p99,
{
    let mut v = samples;
    let n = v.len();
    sort_numbers(&mut v);
    proof {
        samples@.to_multiset_ensures();
        v@.to_multiset_ensures();
        assert(sorts(v@, samples@));
        if n > 0 {
            law_percentiles_grow(n as int, 50, 99);
        }
    }
    Summary { p50: percentile(v.as_slice(), 50), p99: percentile(v.as_slice(), 99), samples: n as u64 }
}

// -------------------------------------------------------------------- rates

/// Bytes and the time they took: the rate is their quotient, and 0 where there
/// is no such span.
#[derive(Debug, Clone, Copy, PartialEq, Eq, Structural)]
pub struct Moved {
    pub bytes: u64,
    pub ns: u64,
}

/// What a receive timing says of the rate: one message says nothing, nor does a
/// burst that took no time.
pub fn timing_moved(t: &RecvTiming, size: u64) -> (r: Option<Moved>)
    requires
        counted_bytes(size as int, t.count as int) <= u64::MAX,
    ensures
        r is Some <==> t.count >= 2 && elapsed(*t) > 0,
        r matches Some(m) ==> m.bytes == counted_bytes(size as int, t.count as int) && m.ns
            == elapsed(*t),
{
    let ns = elapsed_ns(t);
    if t.count < 2 || ns == 0 {
        return None;
    }
    Some(Moved { bytes: rate_bytes(size, t.count), ns })
}

/// What the peer's `Done` says of the rate.
pub fn done_moved(elapsed_ns: u64, bytes: u64) -> (r: Option<Moved>)
    ensures
        r == if elapsed_ns == 0 {
            None
        } else {
            Some(Moved { bytes, ns: elapsed_ns })
        },
{
    if elapsed_ns == 0 {
        None
    } else {
        Some(Moved { bytes, ns: elapsed_ns })
    }
}

/// What the message-rate probe says: the messages that the server counted and
/// its time for them, or, where it saw no time pass, the messages sent and the
/// client's own time.
pub fn probe_sample(server_ns: u64, bytes: u64, size: u32, sent: u64, own_ns: u64) -> (r: (
    u64,
    u64,
))
    requires
        size > 0,
    ensures
        r == if server_ns > 0 {
            (bytes / (size as u64), server_ns)
        } else {
            (sent, own_ns)
        },
{
    if server_ns > 0 {
        (bytes / (size as u64), server_ns)
    } else {
        (sent, own_ns)
    }
}

} // verus!
