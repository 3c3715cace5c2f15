//! The client's run: it goes through the stages of its plan, takes in what each
//! of them measured, and ends with the results of all of them.

use crate::bench::{
    idle_gap, idle_gap_ms, latency_bytes, latency_size, sweep_bytes, sweep_size, BwPoint, IdleGap,
    LatencyPoint, LoadedRtt, Plan, Results, Stage, BUCKET_MS, IDLE_STAGES, KIB, LATENCY_STAGES,
    SWEEP_SIZES,
};
use crate::measure::{reading, Figure, Reading};
use crate::proto::TestSpec;
use crate::report::{fmt_rate, rate_text, Rate};
use crate::scan::views;
use crate::score::ScoreCard;
use vstd::prelude::*;

verus! {

/// What a stage measured.
#[derive(Debug)]
pub enum Noted {
    /// Nothing that is kept or told.
    Nothing,
    Rate(Rate),
    /// One-way times and the mean round trip, in microseconds.
    Latency { p50: Figure, p99: Figure, mean: Figure },
    Sustained {
        rate: Rate,
        /// Throughput per bucket.
        timeline: Vec<Reading>,
        steady: usize,
        temps_sys: Vec<Reading>,
        temps_nic: Vec<Reading>,
    },
    Messages { per_s: Reading, millions: Figure },
    /// Of a whole all-reduce, in microseconds.
    Sync { p50: Figure, p99: Figure },
    /// Milliseconds per block.
    Block(Figure),
    /// Round trips, in microseconds.
    Rtt { p50: Figure, p99: Figure, samples: u64 },
}

/// What was noted is of the kind that the stage measures.
pub open spec fn fits_stage(s: Stage, n: Noted) -> bool {
    match s {
        Stage::Warm => n is Nothing,
        Stage::Calibrate => n is Rate,
        Stage::Latency(_) => n is Latency,
        Stage::Sweep(_) => n is Rate,
        Stage::SustainedUp => n is Sustained,
        Stage::SustainedDown => n is Sustained,
        Stage::Bidir => n is Rate,
        Stage::RateProbe => n is Nothing,
        Stage::Rate => n is Messages,
        Stage::SmallReduce => n is Sync,
        Stage::BigReduce => n is Rate,
        Stage::KvBlock => n is Block,
        Stage::Loaded => n is Rtt,
        Stage::IdleGap(_) => n is Rtt,
        Stage::Bye => false,
    }
}

pub fn fits(s: Stage, n: &Noted) -> (r: bool)
    ensures
        r == fits_stage(s, *n),
{
    match (s, n) {
        (Stage::Warm, Noted::Nothing) => true,
        (Stage::Calibrate, Noted::Rate(_)) => true,
        (Stage::Latency(_), Noted::Latency { .. }) => true,
        (Stage::Sweep(_), Noted::Rate(_)) => true,
        (Stage::SustainedUp, Noted::Sustained { .. }) => true,
        (Stage::SustainedDown, Noted::Sustained { .. }) => true,
        (Stage::Bidir, Noted::Rate(_)) => true,
        (Stage::RateProbe, Noted::Nothing) => true,
        (Stage::Rate, Noted::Messages { .. }) => true,
        (Stage::SmallReduce, Noted::Sync { .. }) => true,
        (Stage::BigReduce, Noted::Rate(_)) => true,
        (Stage::KvBlock, Noted::Block(_)) => true,
        (Stage::Loaded, Noted::Rtt { .. }) => true,
        (Stage::IdleGap(_), Noted::Rtt { .. }) => true,
        _ => false,
    }
}

// ---------------------------------------------------------------- recording

/// `new` is `old` with what stage `s` measured.
pub open spec fn recorded(new: Results, old: Results, s: Stage, n: Noted) -> bool {
    match (s, n) {
        (Stage::Latency(i), Noted::Latency { p50, p99, mean }) => {
            &&& new.latency@ == old.latency@.push(
                LatencyPoint {
                    size: latency_size(i as int) as u64,
                    oneway_p50_us: p50.value,
                    oneway_p99_us: p99.value,
                    rtt_mean_us: mean.value,
                },
            )
            &&& new == (Results { latency: new.latency, ..old })
        },
        (Stage::Sweep(i), Noted::Rate(rate)) => {
            &&& new.sweep@ == old.sweep@.push(
                BwPoint { size: sweep_size(i as int) as u64, bps: rate.bps },
            )
            &&& new == (Results { sweep: new.sweep, ..old })
        },
        (
            Stage::SustainedUp,
            Noted::Sustained { rate, timeline, steady, temps_sys, temps_nic },
        ) => new == (Results {
            uni_c2s_bps: rate.bps,
            timeline_up_bps: timeline,
            timeline_up_steady: steady,
            temps_b_sys: temps_sys,
            temps_b_nic: temps_nic,
            ..old
        }),
        (
            Stage::SustainedDown,
            Noted::Sustained { rate, timeline, steady, temps_sys, temps_nic },
        ) => new == (Results {
            uni_s2c_bps: rate.bps,
            timeline_down_bps: timeline,
            timeline_down_steady: steady,
            temps_a_sys: temps_sys,
            temps_a_nic: temps_nic,
            ..old
        }),
        (Stage::Bidir, Noted::Rate(rate)) => new == (Results { bidir_agg_bps: rate.bps, ..old }),
        (Stage::Rate, Noted::Messages { per_s, .. }) => new == (Results {
            msg_rate_per_s: per_s,
            ..old
        }),
        (Stage::SmallReduce, Noted::Sync { p50, .. }) => new == (Results {
            allreduce_16k_us: p50.value,
            ..old
        }),
        (Stage::BigReduce, Noted::Rate(rate)) => new == (Results {
            allreduce_1g_bps: rate.bps,
            ..old
        }),
        (Stage::KvBlock, Noted::Block(ms)) => new == (Results { kv32m_ms: ms.value, ..old }),
        (Stage::Loaded, Noted::Rtt { p50, p99, samples }) => new == (Results {
            loaded_rtt: Some(
                LoadedRtt {
                    ping_size: (16 * KIB) as u64,
                    p50_us: p50.value,
                    p99_us: p99.value,
                    samples,
                },
            ),
            ..old
        }),
        (Stage::IdleGap(i), Noted::Rtt { p50, p99, .. }) => {
            &&& new.idle_gaps@ == old.idle_gaps@.push(
                IdleGap {
                    gap_ms: idle_gap(i as int) as u64,
                    rtt_p50_us: p50.value,
                    rtt_p99_us: p99.value,
                },
            )
            &&& new == (Results { idle_gaps: new.idle_gaps, ..old })
        },
        _ => new == old,
    }
}

/// Keep what stage `s` measured.
pub fn record(r: &mut Results, s: Stage, n: Noted)
    requires
        fits_stage(s, n),
    ensures
        recorded(*final(r), *old(r), s, n),
{
    match (s, n) {
        (Stage::Latency(i), Noted::Latency { p50, p99, mean }) => {
            r.latency.push(
                LatencyPoint {
                    size: latency_bytes(i),
                    oneway_p50_us: p50.value,
                    oneway_p99_us: p99.value,
                    rtt_mean_us: mean.value,
                },
            );
        },
        (Stage::Sweep(i), Noted::Rate(rate)) => {
            r.sweep.push(BwPoint { size: sweep_bytes(i), bps: rate.bps });
        },
        (
            Stage::SustainedUp,
            Noted::Sustained { rate, timeline, steady, temps_sys, temps_nic },
        ) => {
            r.uni_c2s_bps = rate.bps;
            r.timeline_up_bps = timeline;
            r.timeline_up_steady = steady;
            r.temps_b_sys = temps_sys;
            r.temps_b_nic = temps_nic;
        },
        (
            Stage::SustainedDown,
            Noted::Sustained { rate, timeline, steady, temps_sys, temps_nic },
        ) => {
            r.uni_s2c_bps = rate.bps;
            r.timeline_down_bps = timeline;
            r.timeline_down_steady = steady;
            r.temps_a_sys = temps_sys;
            r.temps_a_nic = temps_nic;
        },
        (Stage::Bidir, Noted::Rate(rate)) => {
            r.bidir_agg_bps = rate.bps;
        },
        (Stage::Rate, Noted::Messages { per_s, .. }) => {
            r.msg_rate_per_s = per_s;
        },
        (Stage::SmallReduce, Noted::Sync { p50, .. }) => {
            r.allreduce_16k_us = p50.value;
        },
        (Stage::BigReduce, Noted::Rate(rate)) => {
            r.allreduce_1g_bps = rate.bps;
        },
        (Stage::KvBlock, Noted::Block(ms)) => {
            r.kv32m_ms = ms.value;
        },
        (Stage::Loaded, Noted::Rtt { p50, p99, samples }) => {
            r.loaded_rtt = Some(
                LoadedRtt { ping_size: 16 * KIB, p50_us: p50.value, p99_us: p99.value, samples },
            );
        },
        (Stage::IdleGap(i), Noted::Rtt { p50, p99, .. }) => {
            r.idle_gaps.push(
                IdleGap { gap_ms: idle_gap_ms(i), rtt_p50_us: p50.value, rtt_p99_us: p99.value },
            );
        },
        _ => {},
    }
}

// ------------------------------------------------------------------ telling

/// What is said as a stage ends. Without a second lane the stage that follows
/// the cache blocks is passed over, which is said with them.
pub open spec fn told(plan: Plan, s: Stage, n: Noted) -> Seq<Seq<char>> {
    match (s, n) {
        (Stage::Calibrate, Noted::Rate(rate)) => seq!["~"@ + rate_text(rate)],
        (Stage::Latency(_), Noted::Latency { p50, .. }) => seq![
            "one-way p50 "@ + p50.d1@ + " µs"@,
        ],
        (Stage::Sweep(_), Noted::Rate(rate)) => seq![rate_text(rate)],
        (Stage::SustainedUp, Noted::Sustained { rate, .. }) => seq![rate_text(rate)],
        (Stage::SustainedDown, Noted::Sustained { rate, .. }) => seq![rate_text(rate)],
        (Stage::Bidir, Noted::Rate(rate)) => seq![rate_text(rate) + " aggregate"@],
        (Stage::Rate, Noted::Messages { millions, .. }) => seq![millions.d2@ + " M msg/s"@],
        (Stage::SmallReduce, Noted::Sync { p50, p99 }) => seq![
            p50.d1@ + " µs p50 ("@ + p99.d0@ + " µs p99)"@,
        ],
        (Stage::BigReduce, Noted::Rate(rate)) => seq![rate_text(rate) + " effective"@],
        (Stage::KvBlock, Noted::Block(ms)) => if plan.lanes >= 2 {
            seq![ms.d2@ + " ms/block"@]
        } else {
            seq![
                ms.d2@ + " ms/block"@,
                "  latency under load … skipped (needs ≥2 streams/QPs)"@,
            ]
        },
        (Stage::Loaded, Noted::Rtt { p50, .. }) => seq![
            "RTT p50 "@ + p50.d0@ + " µs under full load"@,
        ],
        (Stage::IdleGap(_), Noted::Rtt { p50, .. }) => seq!["RTT p50 "@ + p50.d0@ + " µs"@],
        _ => Seq::empty(),
    }
}

fn one_line(s: String) -> (r: Vec<String>)
    ensures
        views(r@) == seq![s@],
{
    let r = vec![s];
    assert(views(r@) =~= seq![s@]);
    r
}

/// The lines that end a stage's report.
pub fn tell(plan: &Plan, s: Stage, n: &Noted) -> (r: Vec<String>)
    ensures
        views(r@) == told(*plan, s, *n),
{
    match (s, n) {
        (Stage::Calibrate, Noted::Rate(rate)) => one_line(
            "~".to_owned().concat(fmt_rate(rate).as_str()),
        ),
        (Stage::Latency(_), Noted::Latency { p50, .. }) => one_line(
            "one-way p50 ".to_owned().concat(p50.d1.as_str()).concat(" µs"),
        ),
        (Stage::Sweep(_), Noted::Rate(rate)) => one_line(fmt_rate(rate)),
        (Stage::SustainedUp, Noted::Sustained { rate, .. }) => one_line(fmt_rate(rate)),
        (Stage::SustainedDown, Noted::Sustained { rate, .. }) => one_line(fmt_rate(rate)),
        (Stage::Bidir, Noted::Rate(rate)) => one_line(fmt_rate(rate).concat(" aggregate")),
        (Stage::Rate, Noted::Messages { millions, .. }) => one_line(
            millions.d2.clone().concat(" M msg/s"),
        ),
        (Stage::SmallReduce, Noted::Sync { p50, p99 }) => one_line(
            p50.d1.clone().concat(" µs p50 (").concat(p99.d0.as_str()).concat(" µs p99)"),
        ),
        (Stage::BigReduce, Noted::Rate(rate)) => one_line(fmt_rate(rate).concat(" effective")),
        (Stage::KvBlock, Noted::Block(ms)) => {
            let mut r = one_line(ms.d2.clone().concat(" ms/block"));
            if plan.lanes < 2 {
                let skipped = "  latency under load … skipped (needs ≥2 streams/QPs)".to_owned();
                let ghost had = r@;
                r.push(skipped);
                assert(views(r@) =~= views(had).push(skipped@));
                assert(views(r@) =~= told(*plan, s, *n));
            }
            r
        },
        (Stage::Loaded, Noted::Rtt { p50, .. }) => one_line(
            "RTT p50 ".to_owned().concat(p50.d0.as_str()).concat(" µs under full load"),
        ),
        (Stage::IdleGap(_), Noted::Rtt { p50, .. }) => one_line(
            "RTT p50 ".to_owned().concat(p50.d0.as_str()).concat(" µs"),
        ),
        _ => {
            let r: Vec<String> = Vec::new();
            assert(views(r@) =~= Seq::empty());
            r
        },
    }
}

// ---------------------------------------------------------------------- run

/// A run: its plan, the stage it has come to, and what it measured before.
#[derive(Debug)]
pub struct Run {
    pub plan: Plan,
    pub stage: Stage,
    pub results: Results,
}

/// Latency stages that lie before `s`.
pub open spec fn latencies_before(s: Stage) -> int {
    match s {
        Stage::Warm => 0,
        Stage::Calibrate => 0,
        Stage::Latency(i) => i as int,
        _ => LATENCY_STAGES as int,
    }
}

/// The sweep sizes below this position lie before `s`.
pub open spec fn sweeps_before(s: Stage) -> int {
    match s {
        Stage::Warm => 0,
        Stage::Calibrate => 0,
        Stage::Latency(_) => 0,
        Stage::Sweep(i) => i as int,
        _ => SWEEP_SIZES as int,
    }
}

/// After-idle stages that lie before `s`.
pub open spec fn idles_before(s: Stage) -> int {
    match s {
        Stage::IdleGap(i) => i as int,
        Stage::Bye => IDLE_STAGES as int,
        _ => 0,
    }
}

/// The loaded ping lies before `s`, where the plan has one.
pub open spec fn loaded_before(s: Stage) -> bool {
    s is IdleGap || s is Bye
}

/// The sizes below position `k` of the sweep that the plan uses.
pub open spec fn swept(plan: Plan, k: int) -> Seq<int>
    decreases k,
{
    if k <= 0 {
        Seq::empty()
    } else if plan.sweeps(k - 1) {
        swept(plan, k - 1).push(sweep_size(k - 1))
    } else {
        swept(plan, k - 1)
    }
}

pub open spec fn latency_sizes(v: Seq<LatencyPoint>) -> Seq<int> {
    v.map_values(|p: LatencyPoint| p.size as int)
}

pub open spec fn sweep_sizes(v: Seq<BwPoint>) -> Seq<int> {
    v.map_values(|p: BwPoint| p.size as int)
}

pub open spec fn gap_lengths(v: Seq<IdleGap>) -> Seq<int> {
    v.map_values(|g: IdleGap| g.gap_ms as int)
}

/// The results hold exactly what the stages before `s` measure.
pub open spec fn holds_up_to(r: Results, plan: Plan, s: Stage) -> bool {
    &&& latency_sizes(r.latency@) == Seq::new(
        latencies_before(s) as nat,
        |i: int| latency_size(i),
    )
    &&& sweep_sizes(r.sweep@) == swept(plan, sweeps_before(s))
    &&& gap_lengths(r.idle_gaps@) == Seq::new(idles_before(s) as nat, |i: int| idle_gap(i))
    &&& (r.loaded_rtt is Some <==> loaded_before(s) && plan.lanes >= 2)
    &&& r.timeline_bucket_ms == BUCKET_MS
}

/// Nothing was measured yet.
pub open spec fn blank(r: Results) -> bool {
    &&& r.latency@.len() == 0 && r.sweep@.len() == 0 && r.idle_gaps@.len() == 0
    &&& r.uni_c2s_bps == reading(0) && r.uni_s2c_bps == reading(0)
    &&& r.bidir_agg_bps == reading(0) && r.msg_rate_per_s == reading(0)
    &&& r.allreduce_16k_us == reading(0) && r.allreduce_1g_bps == reading(0)
    &&& r.kv32m_ms == reading(0)
    &&& r.timeline_bucket_ms == BUCKET_MS
    &&& r.timeline_up_bps@.len() == 0 && r.timeline_up_steady == 0
    &&& r.timeline_down_bps@.len() == 0 && r.timeline_down_steady == 0
    &&& r.temps_a_sys@.len() == 0 && r.temps_a_nic@.len() == 0
    &&& r.temps_b_sys@.len() == 0 && r.temps_b_nic@.len() == 0
    &&& r.loaded_rtt is None && r.score is None && r.tuning_a@.len() == 0
}

impl Run {
    pub open spec fn inv(self) -> bool {
        &&& self.plan.max_msg > 0
        &&& self.plan.runs(self.stage)
        &&& holds_up_to(self.results, self.plan, self.stage)
    }

    /// A run that is about to begin. `None` where the data plane takes no
    /// messages: there is nothing to measure.
    pub fn begin(
        plan: Plan,
        transport: String,
        path: String,
        client_host: String,
        server_host: String,
        duration_target_s: Reading,
        server_tuning: String,
    ) -> (r: Option<Run>)
        ensures
            r is Some <==> plan.max_msg > 0,
            r matches Some(run) ==> {
                &&& run.inv()
                &&& run.plan == plan
                &&& run.stage is Warm
                &&& run.results.transport == transport
                &&& run.results.path == path
                &&& run.results.client_host == client_host
                &&& run.results.server_host == server_host
                &&& run.results.duration_target_s == duration_target_s
                &&& run.results.tuning_b == server_tuning
                &&& blank(run.results)
            },
    {
        if plan.max_msg == 0 {
            return None;
        }
        let zero = reading(0);
        let results = Results {
            transport,
            path,
            client_host,
            server_host,
            duration_target_s,
            latency: Vec::new(),
            sweep: Vec::new(),
            uni_c2s_bps: zero,
            uni_s2c_bps: zero,
            bidir_agg_bps: zero,
            msg_rate_per_s: zero,
            allreduce_16k_us: zero,
            allreduce_1g_bps: zero,
            kv32m_ms: zero,
            timeline_bucket_ms: BUCKET_MS,
            timeline_up_bps: Vec::new(),
            timeline_down_bps: Vec::new(),
            timeline_up_steady: 0,
            timeline_down_steady: 0,
            temps_b_sys: Vec::new(),
            temps_b_nic: Vec::new(),
            temps_a_sys: Vec::new(),
            temps_a_nic: Vec::new(),
            loaded_rtt: None,
            idle_gaps: Vec::new(),
            score: None,
            tuning_a: String::new(),
            tuning_b: server_tuning,
        };
        proof {
            assert(latency_sizes(results.latency@) =~= Seq::new(0, |i: int| latency_size(i)));
            assert(sweep_sizes(results.sweep@) =~= swept(plan, 0));
            assert(gap_lengths(results.idle_gaps@) =~= Seq::new(0, |i: int| idle_gap(i)));
        }
        Some(Run { plan, stage: Stage::Warm, results })
    }

    /// What the server is told to run now; nothing where the run is over.
    pub fn spec(&self, raw: u64) -> (r: Option<TestSpec>)
        requires
            self.inv(),
        ensures
            r == self.plan.spec_of(self.stage, raw as int),
            r is None <==> self.stage is Bye,
    {
        self.plan.stage_spec(self.stage, raw)
    }

    /// Keep what the stage measured and go on to the next one.
    pub fn note(&mut self, n: Noted)
        requires
            old(self).inv(),
            fits_stage(old(self).stage, n),
        ensures
            final(self).inv(),
            final(self).plan == old(self).plan,
            final(self).stage == old(self).plan.successor(old(self).stage),
            recorded(final(self).results, old(self).results, old(self).stage, n),
    {
        let ghost before = self.results;
        let s = self.stage;
        record(&mut self.results, s, n);
        self.stage = self.plan.next_stage(s);
        proof {
            lemma_held(self.results, before, self.plan, s, n);
        }
    }

    /// The results of a run that is over, with this node's tuning and the score.
    pub fn finish(self, tuning: String, card: ScoreCard) -> (r: Results)
        requires
            self.inv(),
            self.stage is Bye,
        ensures
            r == (Results { tuning_a: tuning, score: Some(card), ..self.results }),
            holds_up_to(r, self.plan, Stage::Bye),
    {
        let mut r = self.results;
        r.tuning_a = tuning;
        r.score = Some(card);
        r
    }
}

proof fn lemma_held(new: Results, old: Results, plan: Plan, s: Stage, n: Noted)
    requires
        plan.runs(s),
        fits_stage(s, n),
        holds_up_to(old, plan, s),
        recorded(new, old, s, n),
    ensures
        holds_up_to(new, plan, plan.successor(s)),
{
    let t = plan.successor(s);
    lemma_swept_from(plan, 0);
    if let Stage::Sweep(i) = s {
        lemma_swept_from(plan, i + 1);
    }
    let want = Seq::new(latencies_before(t) as nat, |i: int| latency_size(i));
    let had = latency_sizes(old.latency@);
    assert(latency_sizes(new.latency@) =~= want) by {
        assert forall|j: int| 0 <= j < had.len() implies #[trigger] had[j] == latency_size(j) by {
            assert(had == Seq::new(latencies_before(s) as nat, |i: int| latency_size(i)));
        }
        if let Stage::Latency(i) = s {
            assert(latency_sizes(new.latency@) =~= had.push(latency_size(i as int)));
        }
    }
    let want = Seq::new(idles_before(t) as nat, |i: int| idle_gap(i));
    let had = gap_lengths(old.idle_gaps@);
    assert(gap_lengths(new.idle_gaps@) =~= want) by {
        assert forall|j: int| 0 <= j < had.len() implies #[trigger] had[j] == idle_gap(j) by {
            assert(had == Seq::new(idles_before(s) as nat, |i: int| idle_gap(i)));
        }
        if let Stage::IdleGap(i) = s {
            assert(gap_lengths(new.idle_gaps@) =~= had.push(idle_gap(i as int)));
        }
    }
    assert(sweep_sizes(new.sweep@) =~= swept(plan, sweeps_before(t)));
}

/// Passing over sizes that do not fit leaves what was swept as it is.
proof fn lemma_swept_from(plan: Plan, i: int)
    requires
        0 <= i <= SWEEP_SIZES,
    ensures
        swept(plan, sweeps_before(plan.sweep_from(i))) == swept(plan, i),
        plan.sweep_from(i) is Sweep || plan.sweep_from(i) is SustainedUp,
    decreases SWEEP_SIZES - i,
{
    if i < SWEEP_SIZES && !plan.sweeps(i) {
        lemma_swept_from(plan, i + 1);
    }
}

/// A run that has come to its end has measured everything its plan asks for,
/// once and in order: four message sizes for latency, every sweep size that the
/// data plane takes, three pauses, and the latency under load exactly where
/// there is a second lane. Its timelines have buckets of the width it says.
pub proof fn law_run_is_complete(run: Run)
    requires
        run.inv(),
        run.stage is Bye,
    ensures
        latency_sizes(run.results.latency@) == seq![64int, 8 * KIB, 16 * KIB, 128 * KIB],
        gap_lengths(run.results.idle_gaps@) == seq![1int, 10, 100],
        forall|k: int|
            plan_uses(run.plan, k) <==> #[trigger] sweep_sizes(run.results.sweep@).contains(k),
        run.results.loaded_rtt is Some <==> run.plan.lanes >= 2,
        run.results.timeline_bucket_ms == BUCKET_MS,
{
    assert(latency_sizes(run.results.latency@) =~= seq![64int, 8 * KIB, 16 * KIB, 128 * KIB]);
    assert(gap_lengths(run.results.idle_gaps@) =~= seq![1int, 10, 100]);
    assert forall|k: int|
        plan_uses(run.plan, k) <==> #[trigger] sweep_sizes(run.results.sweep@).contains(k) by {
        lemma_swept_holds(run.plan, SWEEP_SIZES as int, k);
    }
}

/// The sweep of the plan uses messages of `k` bytes.
pub open spec fn plan_uses(plan: Plan, k: int) -> bool {
    exists|i: int| #[trigger] plan.sweeps(i) && sweep_size(i) == k
}

proof fn lemma_swept_holds(plan: Plan, n: int, k: int)
    requires
        0 <= n <= SWEEP_SIZES,
    ensures
        swept(plan, n).contains(k) <==> exists|i: int|
            0 <= i < n && #[trigger] plan.sweeps(i) && sweep_size(i) == k,
    decreases n,
{
    if n > 0 {
        lemma_swept_holds(plan, n - 1, k);
        let before = swept(plan, n - 1);
        if plan.sweeps(n - 1) {
            let v = sweep_size(n - 1);
            assert(before.push(v)[before.len() as int] == v);
            if before.contains(k) {
                let j = choose|j: int| 0 <= j < before.len() && before[j] == k;
                assert(before.push(v)[j] == k);
            }
            if before.push(v).contains(k) && k != v {
                let j = choose|j: int| 0 <= j < before.push(v).len() && before.push(v)[j] == k;
                assert(before[j] == k);
            }
        }
    }
}

/// Each result is what its own stage measured, and no other stage touches it: what
/// was received upwards goes with node B's temperatures, what was received
/// downwards with node A's.
pub proof fn law_each_stage_fills_its_own_results(new: Results, old: Results, s: Stage, n: Noted)
    requires
        fits_stage(s, n),
        recorded(new, old, s, n),
    ensures
        s is SustainedUp ==> n is Sustained && new.uni_c2s_bps == n->rate.bps
            && new.timeline_up_bps == n->timeline && new.timeline_up_steady == n->steady
            && new.temps_b_sys == n->temps_sys && new.temps_b_nic == n->temps_nic,
        !(s is SustainedUp) ==> new.uni_c2s_bps == old.uni_c2s_bps && new.timeline_up_bps
            == old.timeline_up_bps && new.timeline_up_steady == old.timeline_up_steady
            && new.temps_b_sys == old.temps_b_sys && new.temps_b_nic == old.temps_b_nic,
        s is SustainedDown ==> n is Sustained && new.uni_s2c_bps == n->rate.bps
            && new.timeline_down_bps == n->timeline && new.timeline_down_steady == n->steady
            && new.temps_a_sys == n->temps_sys && new.temps_a_nic == n->temps_nic,
        !(s is SustainedDown) ==> new.uni_s2c_bps == old.uni_s2c_bps && new.timeline_down_bps
            == old.timeline_down_bps && new.timeline_down_steady == old.timeline_down_steady
            && new.temps_a_sys == old.temps_a_sys && new.temps_a_nic == old.temps_a_nic,
        new.bidir_agg_bps == if s is Bidir {
            n->Rate_0.bps
        } else {
            old.bidir_agg_bps
        },
        new.msg_rate_per_s == if s is Rate {
            n->per_s
        } else {
            old.msg_rate_per_s
        },
        s is SmallReduce ==> (n matches Noted::Sync { p50, .. } && new.allreduce_16k_us
            == p50.value),
        !(s is SmallReduce) ==> new.allreduce_16k_us == old.allreduce_16k_us,
        new.allreduce_1g_bps == if s is BigReduce {
            n->Rate_0.bps
        } else {
            old.allreduce_1g_bps
        },
        new.kv32m_ms == if s is KvBlock {
            n->Block_0.value
        } else {
            old.kv32m_ms
        },
        s is Loaded ==> (n matches Noted::Rtt { p50, p99, samples } && new.loaded_rtt is Some
            && new.loaded_rtt->0.ping_size == 16384 && new.loaded_rtt->0.p50_us == p50.value
            && new.loaded_rtt->0.p99_us == p99.value && new.loaded_rtt->0.samples == samples),
        !(s is Loaded) ==> new.loaded_rtt == old.loaded_rtt,
        s is Latency ==> (n matches Noted::Latency { p50, p99, mean } && new.latency@.len()
            == old.latency@.len() + 1 && new.latency@.drop_last() == old.latency@ && {
            let p = new.latency@.last();
            p.oneway_p50_us == p50.value && p.oneway_p99_us == p99.value && p.rtt_mean_us
                == mean.value && (s->Latency_0 < 4 ==> p.size == seq![
                64u64,
                8192,
                16384,
                131072,
            ][s->Latency_0 as int])
        }),
        !(s is Latency) ==> new.latency == old.latency,
        s is Sweep ==> (n matches Noted::Rate(rate) && new.sweep@.len() == old.sweep@.len() + 1
            && new.sweep@.drop_last() == old.sweep@ && new.sweep@.last().bps == rate.bps && (
        s->Sweep_0 < 6 ==> new.sweep@.last().size == seq![
            4096u64,
            65536,
            0x10_0000,
            0x80_0000,
            0x200_0000,
            0x800_0000,
        ][s->Sweep_0 as int])),
        !(s is Sweep) ==> new.sweep == old.sweep,
        s is IdleGap ==> (n matches Noted::Rtt { p50, p99, .. } && new.idle_gaps@.len()
            == old.idle_gaps@.len() + 1 && new.idle_gaps@.drop_last() == old.idle_gaps@ && {
            let g = new.idle_gaps@.last();
            g.rtt_p50_us == p50.value && g.rtt_p99_us == p99.value && (s->IdleGap_0 < 3
                ==> g.gap_ms == seq![1u64, 10, 100][s->IdleGap_0 as int])
        }),
        !(s is IdleGap) ==> new.idle_gaps == old.idle_gaps,
        new.score == old.score && new.tuning_a == old.tuning_a && new.tuning_b == old.tuning_b,
        new.transport == old.transport && new.path == old.path && new.client_host
            == old.client_host && new.server_host == old.server_host,
        new.duration_target_s == old.duration_target_s && new.timeline_bucket_ms
            == old.timeline_bucket_ms,
{
    if s is Latency {
        assert(new.latency@.drop_last() =~= old.latency@);
    }
    if s is Sweep {
        assert(new.sweep@.drop_last() =~= old.sweep@);
    }
    if s is IdleGap {
        assert(new.idle_gaps@.drop_last() =~= old.idle_gaps@);
    }
}

} // verus!
