//! The LinkBench2026 score: a 1.0–10.0 rating of a two-node link for paired-LLM
//! work, anchored to the hobbyist space of its era.
//!
//! - 1.0 — 2.5GbE Ethernet: the bare minimum that technically works.
//! - 10.0 — an NVLink-bridged flagship pair (H200 NVL / GH200 class).
//!
//! Two log-scaled axes — sustained bandwidth and measured 16 KiB all-reduce
//! latency — are combined by geometric mean and then nudged down by
//! real-workload penalties. The axes and their mean are the caller's arithmetic;
//! which penalties apply, what could not be checked and what holds the link back
//! is decided here, on the same thresholds as the verdicts.

use crate::bench::Results;
use crate::measure::Reading;
use crate::report::{
    below_number, given, grade_below, lemma_levels, lemma_rested, rested, heat_verdict, heating, hopping, hottest_overall, load_level, load_title,
    loaded, migrating, moving, numeric_run, stability, stability_level, stability_title,
    stall_count, stats_of_run, syncing, timeline_stats, total_stalls, training, verdict_list,
    wake_level, wake_pair, wake_title, waking, woke, Figures, Level, TimelineStats, Verdict,
    BLOAT_POOR_X, N20, N3, N40, N50, WAKEUP_POOR_US,
};
use crate::scan::views;
use vstd::prelude::*;

verus! {

pub const SCORE_NAME: &'static str = "LinkBench2026";

#[derive(Debug, Clone)]
pub struct ScoreCard {
    pub name: String,
    /// 1.0–10.0, one decimal is the intended display precision.
    pub score: Reading,
    /// Raw 0–1 axis positions (log-scaled between the era anchors).
    pub bandwidth_axis: Reading,
    pub latency_axis: Reading,
    pub penalties: Vec<String>,
    /// Checks that could not run on this link (too-short timeline, single QP,
    /// missing latency sample). A score with skipped checks is an optimistic
    /// upper bound and says so rather than quietly omitting the penalty.
    pub skipped: Vec<String>,
    pub hint: String,
}

#[derive(Debug, Clone, Copy, PartialEq, Eq, Structural)]
pub enum Penalty {
    Stalls,
    Bufferbloat,
    WakeupLag,
}

impl Penalty {
    /// What it takes off, in percent.
    pub open spec fn percent(self) -> int {
        match self {
            Penalty::Stalls => 15,
            Penalty::Bufferbloat => 10,
            Penalty::WakeupLag => 5,
        }
    }

    pub open spec fn said(self) -> Seq<char> {
        match self {
            Penalty::Stalls => "sustained-throughput stalls (−15%)"@,
            Penalty::Bufferbloat => "bufferbloat under load (−10%)"@,
            Penalty::WakeupLag => "after-idle wake-up lag (−5%)"@,
        }
    }

    /// What is left, in percent.
    pub fn kept_percent(&self) -> (r: u64)
        ensures
            r == 100 - self.percent(),
    {
        match self {
            Penalty::Stalls => 85,
            Penalty::Bufferbloat => 90,
            Penalty::WakeupLag => 95,
        }
    }

    pub fn text(&self) -> (r: String)
        ensures
            r@ == self.said(),
    {
        match self {
            Penalty::Stalls => "sustained-throughput stalls (−15%)".to_owned(),
            Penalty::Bufferbloat => "bufferbloat under load (−10%)".to_owned(),
            Penalty::WakeupLag => "after-idle wake-up lag (−5%)".to_owned(),
        }
    }
}

/// What a run is penalized for and what could not be checked.
#[derive(Debug, Clone)]
pub struct Assessment {
    pub penalties: Vec<Penalty>,
    pub skipped: Vec<String>,
}

pub open spec fn stalled(
    up: Option<TimelineStats>,
    down: Option<TimelineStats>,
    f: Figures,
) -> bool {
    (up is Some || down is Some) && stability_level(stall_count(up, down), f.dip.value) is Poor
}

/// Latency under load can be told from idle latency.
pub open spec fn load_checked(r: Results) -> bool {
    r.loaded_rtt is Some && r.latency@.len() > 0
}

pub open spec fn bloated(r: Results, f: Figures) -> bool {
    load_checked(r) && load_level(f) is Poor
}

pub open spec fn lagging(r: Results, f: Figures) -> bool {
    woke(r.idle_gaps@) && wake_level(f) is Poor
}

pub open spec fn one_if<A>(when: bool, x: A) -> Seq<A> {
    if when {
        seq![x]
    } else {
        Seq::empty()
    }
}

pub open spec fn penalties_for(
    r: Results,
    f: Figures,
    up: Option<TimelineStats>,
    down: Option<TimelineStats>,
) -> Seq<Penalty> {
    one_if(stalled(up, down, f), Penalty::Stalls) + one_if(bloated(r, f), Penalty::Bufferbloat)
        + one_if(lagging(r, f), Penalty::WakeupLag)
}

pub open spec fn skipped_for(
    r: Results,
    up: Option<TimelineStats>,
    down: Option<TimelineStats>,
) -> Seq<Seq<char>> {
    one_if(
        up is None && down is None,
        "sustained-throughput stability (timeline too short)"@,
    ) + one_if(!load_checked(r), "latency under load (needs ≥2 QPs/streams)"@)
}

/// What the score is penalized for, where `up` and `down` are the statistics of
/// the two timelines.
pub fn assess_from(
    r: &Results,
    f: &Figures,
    up: &Option<TimelineStats>,
    down: &Option<TimelineStats>,
) -> (a: Assessment)
    requires
        stall_count(*up, *down) <= usize::MAX,
    ensures
        a.penalties@ == penalties_for(*r, *f, *up, *down),
        views(a.skipped@) == skipped_for(*r, *up, *down),
{
    let mut penalties: Vec<Penalty> = Vec::new();
    let mut skipped: Vec<String> = Vec::new();
    if up.is_none() && down.is_none() {
        skipped.push("sustained-throughput stability (timeline too short)".to_owned());
    } else {
        let stalls = total_stalls(up, down);
        let fair = stalls == 0 && (f.dip.value.less(&crate::measure::reading(N20))
            || f.dip.value.less(&crate::measure::reading(N50)));
        if !fair {
            penalties.push(Penalty::Stalls);
        }
    }
    let ghost first = one_if(stalled(*up, *down, *f), Penalty::Stalls);
    assert(penalties@ =~= first);
    let n = r.latency.len();
    if r.loaded_rtt.is_some() && n > 0 {
        if grade_below(&f.inflation.value, N3, BLOAT_POOR_X) == Level::Poor {
            penalties.push(Penalty::Bufferbloat);
        }
    } else {
        skipped.push("latency under load (needs ≥2 QPs/streams)".to_owned());
    }
    let ghost second = first + one_if(bloated(*r, *f), Penalty::Bufferbloat);
    assert(penalties@ =~= second);
    if wake_pair(r).is_some() {
        if grade_below(&f.wake.value, N40, WAKEUP_POOR_US) == Level::Poor {
            penalties.push(Penalty::WakeupLag);
        }
    }
    assert(penalties@ =~= second + one_if(lagging(*r, *f), Penalty::WakeupLag));
    assert(views(skipped@) =~= skipped_for(*r, *up, *down));
    Assessment { penalties, skipped }
}

/// What the score of a run is penalized for and what could not be checked.
pub fn assess(r: &Results, f: &Figures) -> (a: Assessment)
    requires
        numeric_run(*r),
        r.timeline_up_bps@.len() + r.timeline_down_bps@.len() <= usize::MAX,
    ensures
        exists|up: Option<TimelineStats>, down: Option<TimelineStats>| #[trigger]
            stats_of_run(*r, up, down) && a.penalties@ == penalties_for(*r, *f, up, down) && views(
                a.skipped@,
            ) == skipped_for(*r, up, down),
{
    let up = timeline_stats(&r.timeline_up_bps, r.timeline_up_steady);
    let down = timeline_stats(&r.timeline_down_bps, r.timeline_down_steady);
    proof {
        crate::report::lemma_stalls_bounded(up, r.timeline_up_bps@, r.timeline_up_steady as int);
        crate::report::lemma_stalls_bounded(
            down,
            r.timeline_down_bps@,
            r.timeline_down_steady as int,
        );
        assert(stats_of_run(*r, up, down));
    }
    assess_from(r, f, &up, &down)
}

/// The axis positions, and what each comes to with the margin that makes the
/// other one clearly the better.
#[derive(Debug, Clone, Copy, PartialEq, Eq, Structural)]
pub struct Axes {
    pub bandwidth: Reading,
    pub latency: Reading,
    pub bandwidth_and_margin: Reading,
    pub latency_and_margin: Reading,
}

pub open spec fn hint_for(x: Axes) -> Seq<char> {
    if x.latency_and_margin.lt(x.bandwidth) {
        "latency-bound: a lower-latency transport (e.g. hardware RDMA) raises this most"@
    } else if x.bandwidth_and_margin.lt(x.latency) {
        "bandwidth-bound: a faster link or more lanes raises this most"@
    } else {
        "balanced: bandwidth and latency limit this link about equally"@
    }
}

pub fn hint(x: &Axes) -> (r: String)
    ensures
        r@ == hint_for(*x),
{
    if x.latency_and_margin.less(&x.bandwidth) {
        "latency-bound: a lower-latency transport (e.g. hardware RDMA) raises this most".to_owned()
    } else if x.bandwidth_and_margin.less(&x.latency) {
        "bandwidth-bound: a faster link or more lanes raises this most".to_owned()
    } else {
        "balanced: bandwidth and latency limit this link about equally".to_owned()
    }
}

pub open spec fn all_said(p: Seq<Penalty>) -> Seq<Seq<char>> {
    p.map_values(|x: Penalty| x.said())
}

/// The score card of a run: what was assessed, and the score that the axes come
/// to once every penalty is taken off.
pub fn compute(a: Assessment, x: Axes, score: Reading) -> (r: ScoreCard)
    ensures
        r.name@ == SCORE_NAME@,
        r.score == score,
        r.bandwidth_axis == x.bandwidth,
        r.latency_axis == x.latency,
        views(r.penalties@) == all_said(a.penalties@),
        r.skipped == a.skipped,
        r.hint@ == hint_for(x),
{
    let mut penalties: Vec<String> = Vec::new();
    let n = a.penalties.len();
    let mut i: usize = 0;
    while i < n
        invariant
            i <= n,
            n == a.penalties@.len(),
            views(penalties@) =~= all_said(a.penalties@.take(i as int)),
        decreases n - i,
    {
        let t = a.penalties[i].text();
        proof {
            crate::scan::lemma_views_push(penalties@, t);
        }
        penalties.push(t);
        assert(all_said(a.penalties@.take(i + 1)) =~= all_said(a.penalties@.take(i as int)).push(
            a.penalties@[i as int].said(),
        ));
        i += 1;
    }
    assert(a.penalties@.take(n as int) =~= a.penalties@);
    ScoreCard {
        name: SCORE_NAME.to_owned(),
        score,
        bandwidth_axis: x.bandwidth,
        latency_axis: x.latency,
        penalties,
        skipped: a.skipped,
        hint: hint(&x),
    }
}

// --------------------------------------------------------------------- laws

/// The verdict on `about` reads poor.
pub open spec fn reads_poor(list: Seq<Verdict>, about: Seq<char>) -> bool {
    exists|i: int| 0 <= i < list.len() && (#[trigger] list[i]).about == about && list[i].level is Poor
}

/// The score penalizes exactly when a verdict reads poor: for stalls, for
/// latency under load wherever it was checked, and for wake-up lag.
pub proof fn law_score_agrees_with_verdicts(
    r: Results,
    f: Figures,
    up: Option<TimelineStats>,
    down: Option<TimelineStats>,
)
    ensures
        ({
            let list = verdict_list(r, f, up, down);
            let p = penalties_for(r, f, up, down);
            &&& p.contains(Penalty::Stalls) <==> reads_poor(list, stability_title())
            &&& load_checked(r) || r.loaded_rtt is None ==> (p.contains(Penalty::Bufferbloat)
                <==> reads_poor(list, load_title()))
            &&& p.contains(Penalty::WakeupLag) <==> reads_poor(list, wake_title())
        }),
{
    let list = verdict_list(r, f, up, down);
    let p = penalties_for(r, f, up, down);
    lemma_penalties_contain(r, f, up, down);
    lemma_verdicts_of_titles(r, f, up, down);
}

proof fn lemma_penalties_contain(
    r: Results,
    f: Figures,
    up: Option<TimelineStats>,
    down: Option<TimelineStats>,
)
    ensures
        ({
            let p = penalties_for(r, f, up, down);
            &&& p.contains(Penalty::Stalls) <==> stalled(up, down, f)
            &&& p.contains(Penalty::Bufferbloat) <==> bloated(r, f)
            &&& p.contains(Penalty::WakeupLag) <==> lagging(r, f)
        }),
{
    let p = penalties_for(r, f, up, down);
    let a: int = if stalled(up, down, f) {
        1
    } else {
        0
    };
    let b: int = if bloated(r, f) {
        a + 1
    } else {
        a
    };
    if stalled(up, down, f) {
        assert(p[0] == Penalty::Stalls);
    }
    if bloated(r, f) {
        assert(p[a] == Penalty::Bufferbloat);
    }
    if lagging(r, f) {
        assert(p[b] == Penalty::WakeupLag);
    }
}

proof fn lemma_titles_differ(r: Results, f: Figures, t: Reading)
    ensures
        ({
            let (s, l, w) = (stability_title(), load_title(), wake_title());
            &&& s != l && s != w && l != w
            &&& moving(r, f).about != s && moving(r, f).about != l && moving(r, f).about != w
            &&& hopping(r, f).about != s && hopping(r, f).about != l && hopping(r, f).about != w
            &&& syncing(r, f).about != s && syncing(r, f).about != l && syncing(r, f).about != w
            &&& training(r, f).about != s && training(r, f).about != l && training(r, f).about != w
            &&& heating(t, f).about != s && heating(t, f).about != l && heating(t, f).about != w
            &&& migrating(r, f).about != s && migrating(r, f).about != l && migrating(r, f).about
                != w
        }),
{
    reveal_strlit("model movement (shards, checkpoints, weights)");
    reveal_strlit("pipeline-parallel inference (activation hop/token)");
    reveal_strlit("tensor-parallel decode (per-token all-reduce)");
    reveal_strlit("data-parallel training (gradient sync)");
    reveal_strlit("sustained stability (throughput over time)");
    reveal_strlit("latency while link is saturated (serving + bulk)");
    reveal_strlit("wake-up after idle (bursty pipeline traffic)");
    reveal_strlit("thermals during sustained load");
    reveal_strlit("KV-cache / prefix migration between nodes");
    assert(stability_title()[0] == 's' && load_title()[0] == 'l' && wake_title()[0] == 'w');
    assert(moving(r, f).about[0] == 'm' && hopping(r, f).about[0] == 'p');
    assert(syncing(r, f).about[0] == 't' && training(r, f).about[0] == 'd');
    assert(heating(t, f).about[0] == 't' && migrating(r, f).about[0] == 'K');
}

proof fn lemma_verdicts_of_titles(
    r: Results,
    f: Figures,
    up: Option<TimelineStats>,
    down: Option<TimelineStats>,
)
    ensures
        ({
            let list = verdict_list(r, f, up, down);
            &&& reads_poor(list, stability_title()) <==> stalled(up, down, f)
            &&& reads_poor(list, load_title()) <==> r.loaded_rtt is Some && load_level(f) is Poor
            &&& reads_poor(list, wake_title()) <==> lagging(r, f)
        }),
{
    let list = verdict_list(r, f, up, down);
    let t = match hottest_overall(r) {
        Some(t) => t,
        None => Reading { bits: 0 },
    };
    lemma_titles_differ(r, f, t);
    let four = seq![moving(r, f), hopping(r, f), syncing(r, f), training(r, f)];
    let s = given(up is Some || down is Some, stability(up, down, f));
    let l = given(r.loaded_rtt is Some, loaded(f));
    let w = given(woke(r.idle_gaps@), waking(f));
    let h = heat_verdict(r, f);
    let k = seq![migrating(r, f)];
    let at_s = 4int;
    let at_l = at_s + s.len();
    let at_w = at_l + l.len();
    let at_h = at_w + w.len();
    let at_k = at_h + h.len();
    assert(list == four + s + l + w + h + k);
    assert(list.len() == at_k + 1);
    assert forall|i: int| 0 <= i < list.len() implies {
        let x = #[trigger] list[i];
        &&& x.about == stability_title() <==> at_s <= i < at_l
        &&& x.about == load_title() <==> at_l <= i < at_w
        &&& x.about == wake_title() <==> at_w <= i < at_h
    } by {
        if i < 4 {
            assert(list[i] == four[i]);
        } else if i < at_l {
            assert(list[i] == s[i - at_s]);
        } else if i < at_w {
            assert(list[i] == l[i - at_l]);
        } else if i < at_h {
            assert(list[i] == w[i - at_w]);
        } else if i < at_k {
            assert(list[i] == h[i - at_h]);
        } else {
            assert(list[i] == k[i - at_k]);
        }
    }
    if s.len() > 0 {
        assert(list[at_s] == stability(up, down, f));
    }
    if l.len() > 0 {
        assert(list[at_l] == loaded(f));
    }
    if w.len() > 0 {
        assert(list[at_w] == waking(f));
    }
}

/// What could not be checked is never held against a link: a score with skipped
/// checks is an upper bound.
pub proof fn law_skipped_is_not_penalized(
    r: Results,
    f: Figures,
    up: Option<TimelineStats>,
    down: Option<TimelineStats>,
)
    ensures
        up is None && down is None ==> !penalties_for(r, f, up, down).contains(Penalty::Stalls),
        !load_checked(r) ==> !penalties_for(r, f, up, down).contains(Penalty::Bufferbloat),
        !woke(r.idle_gaps@) ==> !penalties_for(r, f, up, down).contains(Penalty::WakeupLag),
{
    lemma_penalties_contain(r, f, up, down);
}

/// What costs how much: stalls 15 %, bufferbloat 10 %, wake-up lag 5 %.
pub proof fn law_penalties_cost_what_they_say()
    ensures
        Penalty::Stalls.percent() == 15,
        Penalty::Bufferbloat.percent() == 10,
        Penalty::WakeupLag.percent() == 5,
        Penalty::Stalls.said() == "sustained-throughput stalls (−15%)"@,
        Penalty::Bufferbloat.said() == "bufferbloat under load (−10%)"@,
        Penalty::WakeupLag.said() == "after-idle wake-up lag (−5%)"@,
{
}

/// What a run is penalized for, each thing once: stalls, where a timeline says
/// anything, for any stalled bucket or a dip of 50 % or more; bufferbloat, where
/// latency under load and idle latency were both measured, from tenfold on; and
/// wake-up lag, where a pause of 100 ms was measured, from 200 µs on. What could
/// not be checked for want of a measurement is named.
pub proof fn law_penalties_follow_the_measurements(
    r: Results,
    f: Figures,
    up: Option<TimelineStats>,
    down: Option<TimelineStats>,
)
    ensures
        ({
            let p = penalties_for(r, f, up, down);
            let skipped = skipped_for(r, up, down);
            let timed = up is Some || down is Some;
            let steady = (up is Some ==> up->0.stalls == 0) && (down is Some ==> down->0.stalls
                == 0);
            let loaded = r.loaded_rtt is Some && r.latency@.len() > 0;
            &&& p.contains(Penalty::Stalls) <==> timed && !(steady && below_number(
                f.dip.value,
                50,
            ))
            &&& p.contains(Penalty::Bufferbloat) <==> loaded && !below_number(
                f.inflation.value,
                10,
            )
            &&& p.contains(Penalty::WakeupLag) <==> rested(r) && !below_number(f.wake.value, 200)
            &&& p.no_duplicates()
            &&& skipped.contains("sustained-throughput stability (timeline too short)"@) <==> !timed
            &&& skipped.contains("latency under load (needs ≥2 QPs/streams)"@) <==> !loaded
            &&& skipped.no_duplicates()
        }),
{
    let p = penalties_for(r, f, up, down);
    let skipped = skipped_for(r, up, down);
    lemma_penalties_contain(r, f, up, down);
    lemma_levels(f.dip.value);
    lemma_levels(f.inflation.value);
    lemma_levels(f.wake.value);
    lemma_rested(r);
    lemma_smaller_number(f.dip.value, 20, 50);
    lemma_smaller_number(f.inflation.value, 3, 10);
    lemma_smaller_number(f.wake.value, 40, 200);
    reveal_strlit("sustained-throughput stability (timeline too short)");
    reveal_strlit("latency under load (needs ≥2 QPs/streams)");
    assert("sustained-throughput stability (timeline too short)"@[0]
        != "latency under load (needs ≥2 QPs/streams)"@[0]);
    if up is None && down is None {
        assert(skipped[0] == "sustained-throughput stability (timeline too short)"@);
    }
    if !load_checked(r) {
        assert(skipped[skipped.len() - 1] == "latency under load (needs ≥2 QPs/streams)"@);
    }
}

proof fn lemma_smaller_number(x: Reading, a: int, b: int)
    requires
        a <= b,
    ensures
        below_number(x, a) ==> below_number(x, b),
{
    let u = vstd::arithmetic::power2::pow2(1074) as int;
    assert(a * u <= b * u) by (nonlinear_arith)
        requires
            a <= b,
            u >= 0,
    ;
}

/// The axis that lags behind the other by more than the margin is named as what
/// limits the link; where neither does, both are. The margin is added by the
/// caller.
pub proof fn law_hint_names_the_lagging_axis(x: Axes)
    ensures
        x.latency_and_margin.lt(x.bandwidth) ==> "latency-bound"@.is_prefix_of(hint_for(x)),
        !x.latency_and_margin.lt(x.bandwidth) && x.bandwidth_and_margin.lt(x.latency)
            ==> "bandwidth-bound"@.is_prefix_of(hint_for(x)),
        !x.latency_and_margin.lt(x.bandwidth) && !x.bandwidth_and_margin.lt(x.latency)
            ==> "balanced"@.is_prefix_of(hint_for(x)),
{
    reveal_strlit("latency-bound: a lower-latency transport (e.g. hardware RDMA) raises this most");
    reveal_strlit("bandwidth-bound: a faster link or more lanes raises this most");
    reveal_strlit("balanced: bandwidth and latency limit this link about equally");
    reveal_strlit("latency-bound");
    reveal_strlit("bandwidth-bound");
    reveal_strlit("balanced");
    if x.latency_and_margin.lt(x.bandwidth) {
        assert(hint_for(x).subrange(0, 13) =~= "latency-bound"@);
    } else if x.bandwidth_and_margin.lt(x.latency) {
        assert(hint_for(x).subrange(0, 15) =~= "bandwidth-bound"@);
    } else {
        assert(hint_for(x).subrange(0, 8) =~= "balanced"@);
    }
}

} // verus!
