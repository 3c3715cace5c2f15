//! The state behind the window: what runs, what came back, what is compared.

use crate::bench::{Results, KIB};
use crate::links::LinkPair;
use crate::measure::{reading, Figure, Reading};
use crate::orchestrate::Config;
use crate::probe::NodeProbe;
use crate::report::{
    bits_text, fmt_bits, wake_pair, woke, Level, Rate, TimelineStats, N20,
};
use crate::scan::{lemma_views_push, views};
use crate::text::{dec, decimal};
use vstd::prelude::*;

verus! {

// -------------------------------------------------------------------- board

#[derive(Debug, Clone, Copy, PartialEq, Eq, Structural)]
pub enum RunState {
    Idle,
    Running,
}

pub struct ProbeOutcome {
    pub a: Result<NodeProbe, String>,
    pub b: Result<NodeProbe, String>,
    pub links: Vec<LinkPair>,
}

pub struct BatchEntry {
    pub label: String,
    pub results: Results,
}

/// What a worker reports.
pub enum WorkerMsg {
    Log(String),
    Status(String),
    Done(Results),
    Failed(String),
    Probed(ProbeOutcome),
    BatchItem { label: String, results: Results },
    BatchDone,
}

pub struct Board {
    pub state: RunState,
    pub status: String,
    pub log: Vec<String>,
    pub results: Option<Results>,
    /// Counts the results that came in.
    pub run_seq: u64,
    pub probe: Option<ProbeOutcome>,
    pub probing: bool,
    pub checked: Vec<bool>,
    pub batch: Vec<BatchEntry>,
    pub batch_sel: usize,
    pub error: Option<String>,
}

impl Board {
    /// The selected row of the batch, where there is one, exists.
    pub open spec fn inv(self) -> bool {
        self.batch@.len() > 0 ==> self.batch_sel < self.batch@.len()
    }

    pub fn new(results: Option<Results>) -> (r: Board)
        ensures
            r.inv(),
            r.state is Idle,
            r.status@.len() == 0,
            r.log@.len() == 0,
            r.results == results,
            r.run_seq == 0,
            r.probe is None,
            !r.probing,
            r.checked@.len() == 0,
            r.batch@.len() == 0,
            r.error is None,
    {
        Board {
            state: RunState::Idle,
            status: String::new(),
            log: Vec::new(),
            results,
            run_seq: 0,
            probe: None,
            probing: false,
            checked: Vec::new(),
            batch: Vec::new(),
            batch_sel: 0,
            error: None,
        }
    }

    /// Take in what a worker reports.
    pub fn handle(&mut self, msg: WorkerMsg)
        requires
            old(self).inv(),
            old(self).run_seq < u64::MAX,
        ensures
            final(self).inv(),
            match msg {
                WorkerMsg::Log(l) => final(self).log@ == old(self).log@.push(l) && *final(self)
                    == (Board { log: final(self).log, ..*old(self) }),
                WorkerMsg::Status(s) => *final(self) == (Board { status: s, ..*old(self) }),
                WorkerMsg::Done(r) => final(self).status@ == "done"@ && *final(self) == (Board {
                    results: Some(r),
                    run_seq: (old(self).run_seq + 1) as u64,
                    status: final(self).status,
                    state: RunState::Idle,
                    ..*old(self)
                }),
                WorkerMsg::Failed(e) => final(self).status@ == "failed"@ && *final(self) == (Board {
                    error: Some(e),
                    status: final(self).status,
                    state: RunState::Idle,
                    ..*old(self)
                }),
                WorkerMsg::Probed(o) => final(self).status@ == "probe complete"@
                    && final(self).checked@.len() == 0 && *final(self) == (Board {
                    probe: Some(o),
                    probing: false,
                    checked: final(self).checked,
                    status: final(self).status,
                    ..*old(self)
                }),
                WorkerMsg::BatchItem { label, results } => final(self).batch@
                    == old(self).batch@.push(BatchEntry { label, results }) && *final(self)
                    == (Board {
                    batch: final(self).batch,
                    batch_sel: old(self).batch@.len() as usize,
                    run_seq: (old(self).run_seq + 1) as u64,
                    ..*old(self)
                }),
                WorkerMsg::BatchDone => final(self).status@ == "batch complete ("@ + dec(
                    old(self).batch@.len(),
                ) + " tested)"@ && *final(self) == (Board {
                    status: final(self).status,
                    state: RunState::Idle,
                    ..*old(self)
                }),
            },
    {
        match msg {
            WorkerMsg::Log(l) => {
                self.log.push(l);
            },
            WorkerMsg::Status(s) => {
                self.status = s;
            },
            WorkerMsg::Done(r) => {
                self.results = Some(r);
                self.run_seq += 1;
                self.status = "done".to_owned();
                self.state = RunState::Idle;
            },
            WorkerMsg::Failed(e) => {
                self.error = Some(e);
                self.status = "failed".to_owned();
                self.state = RunState::Idle;
            },
            WorkerMsg::Probed(o) => {
                self.checked = Vec::new();
                self.probe = Some(o);
                self.probing = false;
                self.status = "probe complete".to_owned();
            },
            WorkerMsg::BatchItem { label, results } => {
                let n = self.batch.len();
                self.batch.push(BatchEntry { label, results });
                self.batch_sel = n;
                self.run_seq += 1;
            },
            WorkerMsg::BatchDone => {
                let n = self.batch.len();
                self.status =
                "batch complete (".to_owned().concat(decimal(n as u64).as_str()).concat(
                    " tested)",
                );
                self.state = RunState::Idle;
            },
        }
    }

    /// Start a single run. No link row is selected: B's SSH host is
    /// benchmarked, never a stale address left over from an earlier probe.
    pub fn start(&mut self, cfg: &mut Config)
        requires
            old(self).inv(),
        ensures
            final(self).inv(),
            final(cfg).data_addr@.len() == 0,
            final(cfg).transport@ == "auto"@,
            *final(cfg) == (Config {
                data_addr: final(cfg).data_addr,
                transport: final(cfg).transport,
                ..*old(cfg)
            }),
            final(self).log@.len() == 0,
            final(self).status@ == "starting…"@,
            *final(self) == (Board {
                log: final(self).log,
                error: None,
                status: final(self).status,
                state: RunState::Running,
                ..*old(self)
            }),
    {
        cfg.data_addr = String::new();
        cfg.transport = "auto".to_owned();
        self.log = Vec::new();
        self.error = None;
        self.status = "starting…".to_owned();
        self.state = RunState::Running;
    }

    /// Start a batch of `n` tests.
    pub fn start_batch(&mut self, n: usize)
        ensures
            final(self).inv(),
            final(self).log@.len() == 0,
            final(self).batch@.len() == 0,
            final(self).status@ == "starting batch of "@ + dec(n as nat) + "…"@,
            *final(self) == (Board {
                log: final(self).log,
                error: None,
                batch: final(self).batch,
                batch_sel: 0,
                status: final(self).status,
                state: RunState::Running,
                ..*old(self)
            }),
    {
        self.log = Vec::new();
        self.error = None;
        self.batch = Vec::new();
        self.batch_sel = 0;
        self.status = "starting batch of ".to_owned().concat(decimal(n as u64).as_str()).concat("…");
        self.state = RunState::Running;
    }

    /// Nodes can be probed while nothing else goes on.
    pub fn can_probe(&self) -> (r: bool)
        ensures
            r == (!self.probing && self.state is Idle),
    {
        !self.probing && self.state == RunState::Idle
    }

    pub fn start_probe(&mut self)
        requires
            old(self).inv(),
        ensures
            final(self).inv(),
            final(self).log@.len() == 0,
            final(self).status@ == "probing…"@,
            *final(self) == (Board {
                probing: true,
                probe: None,
                log: final(self).log,
                status: final(self).status,
                ..*old(self)
            }),
    {
        self.probing = true;
        self.probe = None;
        self.log = Vec::new();
        self.status = "probing…".to_owned();
    }

    /// Start bringing a link up, unless a probe or a bring-up is under way;
    /// `status` says what is being done.
    pub fn start_bringup(&mut self, status: &str) -> (r: bool)
        requires
            old(self).inv(),
        ensures
            final(self).inv(),
            r == !old(self).probing,
            !r ==> *final(self) == *old(self),
            r ==> final(self).status@ == status@ && *final(self) == (Board {
                probing: true,
                status: final(self).status,
                ..*old(self)
            }),
    {
        if self.probing {
            return false;
        }
        self.probing = true;
        self.status = status.to_owned();
        true
    }

    /// How the status line looks.
    pub fn tone(&self) -> (r: Level)
        ensures
            r == if self.error is Some {
                Level::Poor
            } else if self.state is Running {
                Level::Fair
            } else {
                Level::Good
            },
    {
        if self.error.is_some() {
            Level::Poor
        } else if self.state == RunState::Running {
            Level::Fair
        } else {
            Level::Good
        }
    }

    /// The row of the batch whose details are shown.
    pub fn shown(&self) -> (r: Option<usize>)
        requires
            self.inv(),
        ensures
            r == if self.batch@.len() == 0 {
                None
            } else {
                Some(self.batch_sel)
            },
    {
        if self.batch.len() == 0 {
            None
        } else {
            Some(self.batch_sel)
        }
    }

    /// Show the details of another row.
    pub fn select(&mut self, i: usize)
        requires
            i < old(self).batch@.len(),
        ensures
            final(self).inv(),
            *final(self) == (Board { batch_sel: i, ..*old(self) }),
    {
        self.batch_sel = i;
    }
}

pub fn run_label(selected: usize) -> (r: String)
    ensures
        r@ == if selected == 0 {
            "▶  Run benchmark"@
        } else {
            "▶  Run Test ("@ + dec(selected as nat) + " link modes)"@
        },
{
    if selected == 0 {
        "▶  Run benchmark".to_owned()
    } else {
        "▶  Run Test (".to_owned().concat(decimal(selected as u64).as_str()).concat(
            " link modes)",
        )
    }
}

/// The note beside a timeline chart, and how it looks.
pub fn timeline_note(s: &TimelineStats, dip: &Figure) -> (r: (String, Level))
    ensures
        s.stalls > 0 ==> r.0@ == dec(s.stalls as nat) + " stalls, dip −"@ + dip.d0@ + "%"@ && r.1
            is Poor,
        s.stalls == 0 && reading(N20).lt(dip.value) ==> r.0@ == "dip −"@ + dip.d0@
            + "%"@ && r.1 is Fair,
        s.stalls == 0 && !reading(N20).lt(dip.value) ==> r.0@ == "steady · dip −"@
            + dip.d0@ + "%"@ && r.1 is Good,
{
    if s.stalls > 0 {
        (
            decimal(s.stalls as u64).concat(" stalls, dip −").concat(dip.d0.as_str()).concat("%"),
            Level::Poor,
        )
    } else if reading(N20).less(&dip.value) {
        ("dip −".to_owned().concat(dip.d0.as_str()).concat("%"), Level::Fair)
    } else {
        ("steady · dip −".to_owned().concat(dip.d0.as_str()).concat("%"), Level::Good)
    }
}

// --------------------------------------------------------------- comparison

/// `x` beats `y`: by being larger, or by being smaller.
pub open spec fn beats(x: Reading, y: Reading, higher: bool) -> bool {
    if higher {
        y.lt(x)
    } else {
        x.lt(y)
    }
}

fn wins(x: &Reading, y: &Reading, higher: bool) -> (r: bool)
    ensures
        r == beats(*x, *y, higher),
{
    if higher {
        y.less(x)
    } else {
        x.less(y)
    }
}

/// The best value of a column, by its row: the first that no earlier one equals
/// or beats.
pub open spec fn best_row(col: Seq<Option<Reading>>, higher: bool) -> Option<int>
    decreases col.len(),
{
    if col.len() == 0 {
        None
    } else {
        let before = best_row(col.drop_last(), higher);
        match (col.last(), before) {
            (None, b) => b,
            (Some(v), None) => Some(col.len() - 1),
            (Some(v), Some(b)) => if beats(v, col[b]->0, higher) {
                Some(col.len() - 1)
            } else {
                Some(b)
            },
        }
    }
}

pub open spec fn row_of(r: Option<usize>) -> Option<int> {
    match r {
        Some(i) => Some(i as int),
        None => None,
    }
}

proof fn lemma_best_row_has_value(col: Seq<Option<Reading>>, higher: bool)
    ensures
        best_row(col, higher) matches Some(b) ==> 0 <= b < col.len() && col[b] is Some,
        best_row(col, higher) is None ==> forall|i: int|
            0 <= i < col.len() ==> (#[trigger] col[i]) is None,
    decreases col.len(),
{
    if col.len() > 0 {
        let front = col.drop_last();
        lemma_best_row_has_value(front, higher);
        if best_row(col, higher) is None {
            assert forall|i: int| 0 <= i < col.len() implies (#[trigger] col[i]) is None by {
                if i < front.len() {
                    assert(front[i] is None);
                }
            }
        } else if let Some(b) = best_row(front, higher) {
            assert(front[b] == col[b]);
        }
    }
}

pub fn best_in_column(col: &Vec<Option<Reading>>, higher: bool) -> (r: Option<usize>)
    ensures
        row_of(r) == best_row(col@, higher),
        r matches Some(i) ==> i < col@.len() && col@[i as int] is Some,
{
    let mut best: Option<(usize, Reading)> = None;
    let n = col.len();
    let mut i: usize = 0;
    while i < n
        invariant
            i <= n,
            n == col@.len(),
            match best {
                Some((b, v)) => b < i && col@[b as int] == Some(v) && best_row(
                    col@.take(i as int),
                    higher,
                ) == Some(b as int),
                None => best_row(col@.take(i as int), higher) is None,
            },
        decreases n - i,
    {
        proof {
            assert(col@.take(i + 1).drop_last() =~= col@.take(i as int));
            assert(col@.take(i + 1).last() == col@[i as int]);
        }
        if let Some(v) = col[i] {
            let better = match best {
                Some((_, bv)) => wins(&v, &bv, higher),
                None => true,
            };
            if better {
                best = Some((i, v));
            }
        }
        i += 1;
    }
    assert(col@.take(n as int) =~= col@);
    match best {
        Some((b, _)) => Some(b),
        None => None,
    }
}

pub open spec fn is_number_or_none(v: Option<Reading>) -> bool {
    v matches Some(x) ==> !x.nan()
}

/// Nothing in the column beats the best value, as long as all of them are
/// numbers.
pub proof fn law_best_is_unbeaten(col: Seq<Option<Reading>>, higher: bool, i: int)
    requires
        forall|k: int| 0 <= k < col.len() ==> is_number_or_none(#[trigger] col[k]),
        0 <= i < col.len(),
        col[i] is Some,
    ensures
        best_row(col, higher) matches Some(b) && 0 <= b < col.len() && col[b] is Some && !beats(
            col[i]->0,
            col[b]->0,
            higher,
        ),
    decreases col.len(),
{
    let front = col.drop_last();
    lemma_best_row_has_value(col, higher);
    lemma_best_row_has_value(front, higher);
    assert forall|k: int| 0 <= k < front.len() implies is_number_or_none(#[trigger] front[k]) by {
        assert(front[k] == col[k]);
    }
    if i < front.len() {
        assert(front[i] == col[i]);
        law_best_is_unbeaten(front, higher, i);
        let b = best_row(front, higher)->0;
        assert(front[b] == col[b]);
        assert(!(col[b]->0).nan());
        assert(!(col[i]->0).nan());
        if let Some(v) = col.last() {
            assert(col[col.len() - 1] == Some(v));
            assert(!v.nan());
        }
    } else if let Some(b) = best_row(front, higher) {
        assert(front[b] == col[b]);
    }
}

/// The row that is best at something: of several that are alike, the last.
pub open spec fn top_row(col: Seq<Option<Reading>>, higher: bool) -> Option<int>
    decreases col.len(),
{
    if col.len() == 0 {
        None
    } else {
        let before = top_row(col.drop_last(), higher);
        match (col.last(), before) {
            (None, b) => b,
            (Some(v), None) => Some(col.len() - 1),
            (Some(v), Some(b)) => if beats(col[b]->0, v, higher) {
                Some(b)
            } else {
                Some(col.len() - 1)
            },
        }
    }
}

/// The last of the best values is unbeaten too, as long as all of them are numbers.
pub proof fn law_top_is_unbeaten(col: Seq<Option<Reading>>, higher: bool, i: int)
    requires
        forall|k: int| 0 <= k < col.len() ==> is_number_or_none(#[trigger] col[k]),
        0 <= i < col.len(),
        col[i] is Some,
    ensures
        top_row(col, higher) matches Some(b) && 0 <= b < col.len() && col[b] is Some && !beats(
            col[i]->0,
            col[b]->0,
            higher,
        ) && (i > b ==> beats(col[b]->0, col[i]->0, higher)),
    decreases col.len(),
{
    let front = col.drop_last();
    lemma_top_row_has_value(front, higher);
    assert forall|k: int| 0 <= k < front.len() implies is_number_or_none(#[trigger] front[k]) by {
        assert(front[k] == col[k]);
    }
    assert(is_number_or_none(col[col.len() - 1]));
    if i < front.len() {
        assert(front[i] == col[i]);
        law_top_is_unbeaten(front, higher, i);
        let b = top_row(front, higher)->0;
        assert(front[b] == col[b]);
        assert(is_number_or_none(col[b]));
        assert(is_number_or_none(col[i]));
    } else if let Some(b) = top_row(front, higher) {
        assert(front[b] == col[b]);
        assert(is_number_or_none(col[b]));
    }
}

proof fn lemma_top_row_has_value(col: Seq<Option<Reading>>, higher: bool)
    ensures
        top_row(col, higher) matches Some(b) ==> 0 <= b < col.len() && col[b] is Some,
    decreases col.len(),
{
    if col.len() > 0 {
        lemma_top_row_has_value(col.drop_last(), higher);
        if let Some(b) = top_row(col.drop_last(), higher) {
            assert(col.drop_last()[b] == col[b]);
        }
    }
}

pub fn top_of_column(col: &Vec<Option<Reading>>, higher: bool) -> (r: Option<usize>)
    ensures
        row_of(r) == top_row(col@, higher),
        r matches Some(i) ==> i < col@.len(),
{
    let mut best: Option<(usize, Reading)> = None;
    let n = col.len();
    let mut i: usize = 0;
    while i < n
        invariant
            i <= n,
            n == col@.len(),
            match best {
                Some((b, v)) => b < i && col@[b as int] == Some(v) && top_row(
                    col@.take(i as int),
                    higher,
                ) == Some(b as int),
                None => top_row(col@.take(i as int), higher) is None,
            },
        decreases n - i,
    {
        proof {
            assert(col@.take(i + 1).drop_last() =~= col@.take(i as int));
            assert(col@.take(i + 1).last() == col@[i as int]);
        }
        if let Some(v) = col[i] {
            let keeps = match best {
                Some((_, bv)) => wins(&bv, &v, higher),
                None => false,
            };
            if !keeps {
                best = Some((i, v));
            }
        }
        i += 1;
    }
    assert(col@.take(n as int) =~= col@);
    match best {
        Some((b, _)) => Some(b),
        None => None,
    }
}

/// One-way time of the first sample of exactly 16 KiB.
pub open spec fn hop_16k(r: Results) -> Option<Reading> {
    first_of_size(r.latency@, 16 * KIB)
}

pub open spec fn first_of_size(s: Seq<crate::bench::LatencyPoint>, size: int) -> Option<Reading>
    decreases s.len(),
{
    if s.len() == 0 {
        None
    } else if s[0].size == size {
        Some(s[0].oneway_p50_us)
    } else {
        first_of_size(s.skip(1), size)
    }
}

pub fn hop16(r: &Results) -> (t: Option<Reading>)
    ensures
        t == hop_16k(*r),
{
    let n = r.latency.len();
    let mut i: usize = 0;
    assert(r.latency@.skip(0) =~= r.latency@);
    while i < n
        invariant
            i <= n,
            n == r.latency@.len(),
            first_of_size(r.latency@, 16 * KIB) == first_of_size(
                r.latency@.skip(i as int),
                16 * KIB,
            ),
        decreases n - i,
    {
        proof {
            assert(r.latency@.skip(i as int)[0] == r.latency@[i as int]);
            assert(r.latency@.skip(i as int).skip(1) =~= r.latency@.skip(i + 1));
        }
        if r.latency[i].size == 16 * KIB {
            return Some(r.latency[i].oneway_p50_us);
        }
        i += 1;
    }
    None
}

/// The columns that "best for" is judged by, one value per tested link.
pub struct BestFor {
    pub score: Vec<Option<Reading>>,
    pub bulk: Vec<Option<Reading>>,
    pub sync: Vec<Option<Reading>>,
    pub wake: Vec<Option<Reading>>,
}

/// What is compared of a tested link.
#[derive(Debug, Clone, Copy, PartialEq, Eq, Structural)]
pub struct Compared {
    pub score: Option<Reading>,
    pub up: Reading,
    pub down: Reading,
    /// One-way time of the 16 KiB sample.
    pub hop: Option<Reading>,
    pub sync: Reading,
    pub messages: Reading,
    /// Wake-up lag, never below 0.
    pub wake: Option<Reading>,
}

/// What is compared of a run; `lag` is the round trip after its long pause less
/// that after its first one, where both were measured.
pub open spec fn compared_of(r: Results, lag: Reading) -> Compared {
    Compared {
        score: match r.score {
            Some(c) => Some(c.score),
            None => None,
        },
        up: r.uni_c2s_bps,
        down: r.uni_s2c_bps,
        hop: hop_16k(r),
        sync: r.allreduce_16k_us,
        messages: r.msg_rate_per_s,
        wake: if woke(r.idle_gaps@) {
            Some(lag.max_of(reading(0)))
        } else {
            None
        },
    }
}

pub fn compared(r: &Results, lag: Reading) -> (c: Compared)
    ensures
        c == compared_of(*r, lag),
{
    Compared {
        score: match &r.score {
            Some(c) => Some(c.score),
            None => None,
        },
        up: r.uni_c2s_bps,
        down: r.uni_s2c_bps,
        hop: hop16(r),
        sync: r.allreduce_16k_us,
        messages: r.msg_rate_per_s,
        wake: if wake_pair(r).is_some() {
            Some(lag.max(&reading(0)))
        } else {
            None
        },
    }
}

/// Row `i` of the columns is filled from the results of entry `i`.
pub open spec fn filled_from(c: BestFor, i: int, r: Results, lag: Reading) -> bool {
    let x = compared_of(r, lag);
    &&& c.score@[i] == x.score
    &&& c.bulk@[i] == Some(x.up.max_of(x.down))
    &&& c.sync@[i] == Some(x.sync)
    &&& c.wake@[i] == x.wake
}

/// The columns of a batch: the score, the faster direction, the small all-reduce
/// and the wake-up lag.
pub fn best_columns(batch: &Vec<BatchEntry>, lags: &Vec<Reading>) -> (c: BestFor)
    requires
        lags@.len() == batch@.len(),
    ensures
        c.score@.len() == batch@.len(),
        c.bulk@.len() == batch@.len(),
        c.sync@.len() == batch@.len(),
        c.wake@.len() == batch@.len(),
        forall|i: int|
            0 <= i < batch@.len() ==> filled_from(
                c,
                i,
                (#[trigger] batch@[i]).results,
                lags@[i],
            ),
{
    let mut c = BestFor { score: Vec::new(), bulk: Vec::new(), sync: Vec::new(), wake: Vec::new() };
    let n = batch.len();
    let mut i: usize = 0;
    while i < n
        invariant
            i <= n,
            n == batch@.len() == lags@.len(),
            c.score@.len() == i,
            c.bulk@.len() == i,
            c.sync@.len() == i,
            c.wake@.len() == i,
            forall|k: int|
                0 <= k < i ==> filled_from(c, k, (#[trigger] batch@[k]).results, lags@[k]),
        decreases n - i,
    {
        let x = compared(&batch[i].results, lags[i]);
        let ghost had = c;
        c.score.push(x.score);
        c.bulk.push(Some(x.up.max(&x.down)));
        c.sync.push(Some(x.sync));
        c.wake.push(x.wake);
        assert forall|k: int| 0 <= k < i + 1 implies filled_from(
            c,
            k,
            (#[trigger] batch@[k]).results,
            lags@[k],
        ) by {
            if k < i {
                assert(filled_from(had, k, batch@[k].results, lags@[k]));
            }
        }
        i += 1;
    }
    c
}

pub open spec fn best_line(
    what: Seq<char>,
    labels: Seq<String>,
    col: Seq<Option<Reading>>,
    higher: bool,
) -> Seq<Seq<char>> {
    match top_row(col, higher) {
        Some(i) => seq![what + labels[i]@],
        None => Seq::empty(),
    }
}

pub open spec fn best_lines(labels: Seq<String>, c: BestFor) -> Seq<Seq<char>> {
    best_line("overall: "@, labels, c.score@, true) + best_line(
        "bulk transfer: "@,
        labels,
        c.bulk@,
        true,
    ) + best_line("per-token sync: "@, labels, c.sync@, false) + best_line(
        "bursty RPC: "@,
        labels,
        c.wake@,
        false,
    )
}

fn push_best(
    out: Vec<String>,
    what: &str,
    labels: &Vec<String>,
    col: &Vec<Option<Reading>>,
    higher: bool,
) -> (r: Vec<String>)
    requires
        col@.len() == labels@.len(),
    ensures
        views(r@) == views(out@) + best_line(what@, labels@, col@, higher),
{
    let mut out = out;
    let ghost had = out@;
    if let Some(i) = top_of_column(col, higher) {
        let line = what.to_owned().concat(labels[i].as_str());
        proof {
            lemma_views_push(had, line);
            assert(views(had).push(line@) =~= views(had) + seq![line@]);
        }
        out.push(line);
    } else {
        assert(views(had) + Seq::<Seq<char>>::empty() =~= views(had));
    }
    out
}

/// Which of several tested links is best for what.
pub fn best_for(labels: &Vec<String>, c: &BestFor) -> (r: Vec<String>)
    requires
        c.score@.len() == labels@.len(),
        c.bulk@.len() == labels@.len(),
        c.sync@.len() == labels@.len(),
        c.wake@.len() == labels@.len(),
    ensures
        views(r@) == best_lines(labels@, *c),
{
    let out: Vec<String> = Vec::new();
    assert(views(out@) =~= Seq::<Seq<char>>::empty());
    let a = push_best(out, "overall: ", labels, &c.score, true);
    assert(views(a@) =~= best_line("overall: "@, labels@, c.score@, true));
    let b = push_best(a, "bulk transfer: ", labels, &c.bulk, true);
    let d = push_best(b, "per-token sync: ", labels, &c.sync, false);
    push_best(d, "bursty RPC: ", labels, &c.wake, false)
}

// ------------------------------------------------------------------ columns

/// What is compared of one tested link, and how it reads.
pub struct CompareRow {
    pub score: Option<Figure>,
    pub up: Rate,
    pub down: Rate,
    /// One-way time of the 16 KiB sample.
    pub hop: Option<Figure>,
    pub sync: Figure,
    pub messages: Reading,
    /// Messages per second, in millions.
    pub messages_m: Figure,
    pub wake: Option<Figure>,
}

#[derive(Debug, Clone, Copy, PartialEq, Eq, Structural)]
pub enum Column {
    Score,
    Up,
    Down,
    Hop,
    Sync,
    Messages,
    Wake,
}

impl Column {
    /// More is better.
    pub open spec fn wants_more(self) -> bool {
        self is Score || self is Up || self is Down || self is Messages
    }

    pub fn higher_better(&self) -> (r: bool)
        ensures
            r == self.wants_more(),
    {
        match self {
            Column::Score | Column::Up | Column::Down | Column::Messages => true,
            _ => false,
        }
    }

    pub fn head(&self) -> (r: &'static str)
        ensures
            r@ == (match *self {
                Column::Score => "score"@,
                Column::Up => "up"@,
                Column::Down => "down"@,
                Column::Hop => "16K 1-way"@,
                Column::Sync => "16K allreduce"@,
                Column::Messages => "msg rate"@,
                Column::Wake => "wake-up"@,
            }),
    {
        match self {
            Column::Score => "score",
            Column::Up => "up",
            Column::Down => "down",
            Column::Hop => "16K 1-way",
            Column::Sync => "16K allreduce",
            Column::Messages => "msg rate",
            Column::Wake => "wake-up",
        }
    }

    pub open spec fn value_in(self, r: CompareRow) -> Option<Reading> {
        match self {
            Column::Score => value_of(r.score),
            Column::Up => Some(r.up.bps),
            Column::Down => Some(r.down.bps),
            Column::Hop => value_of(r.hop),
            Column::Sync => Some(r.sync.value),
            Column::Messages => Some(r.messages),
            Column::Wake => value_of(r.wake),
        }
    }

    pub fn value(&self, r: &CompareRow) -> (v: Option<Reading>)
        ensures
            v == self.value_in(*r),
    {
        match self {
            Column::Score => reading_of(&r.score),
            Column::Up => Some(r.up.bps),
            Column::Down => Some(r.down.bps),
            Column::Hop => reading_of(&r.hop),
            Column::Sync => Some(r.sync.value),
            Column::Messages => Some(r.messages),
            Column::Wake => reading_of(&r.wake),
        }
    }

    pub open spec fn text_in(self, r: CompareRow) -> Seq<char> {
        match self {
            Column::Score => match r.score {
                Some(f) => f.d1@,
                None => "–"@,
            },
            Column::Up => bits_text(r.up),
            Column::Down => bits_text(r.down),
            Column::Hop => match r.hop {
                Some(f) => f.d0@ + " µs"@,
                None => "–"@,
            },
            Column::Sync => r.sync.d0@ + " µs"@,
            Column::Messages => r.messages_m.d1@ + " M/s"@,
            Column::Wake => match r.wake {
                Some(f) => "+"@ + f.d0@ + " µs"@,
                None => "–"@,
            },
        }
    }

    /// How the value reads; a value that was not measured is a dash.
    pub fn text(&self, r: &CompareRow) -> (t: String)
        ensures
            t@ == self.text_in(*r),
    {
        match self {
            Column::Score => match &r.score {
                Some(f) => f.d1.clone(),
                None => "–".to_owned(),
            },
            Column::Up => fmt_bits(&r.up),
            Column::Down => fmt_bits(&r.down),
            Column::Hop => match &r.hop {
                Some(f) => f.d0.clone().concat(" µs"),
                None => "–".to_owned(),
            },
            Column::Sync => r.sync.d0.clone().concat(" µs"),
            Column::Messages => r.messages_m.d1.clone().concat(" M/s"),
            Column::Wake => match &r.wake {
                Some(f) => "+".to_owned().concat(f.d0.as_str()).concat(" µs"),
                None => "–".to_owned(),
            },
        }
    }
}

pub open spec fn value_of(f: Option<Figure>) -> Option<Reading> {
    match f {
        Some(x) => Some(x.value),
        None => None,
    }
}

fn reading_of(f: &Option<Figure>) -> (r: Option<Reading>)
    ensures
        r == value_of(*f),
{
    match f {
        Some(x) => Some(x.value),
        None => None,
    }
}

pub open spec fn column_values(rows: Seq<CompareRow>, c: Column) -> Seq<Option<Reading>> {
    rows.map_values(|r: CompareRow| c.value_in(r))
}

/// The row that is highlighted in a column: the best one, where there is more
/// than one row.
pub fn highlighted(rows: &Vec<CompareRow>, c: Column) -> (r: Option<usize>)
    ensures
        row_of(r) == if rows@.len() > 1 {
            best_row(column_values(rows@, c), c.wants_more())
        } else {
            None
        },
{
    let n = rows.len();
    if n <= 1 {
        return None;
    }
    let mut col: Vec<Option<Reading>> = Vec::new();
    let mut i: usize = 0;
    while i < n
        invariant
            i <= n,
            n == rows@.len(),
            col@.len() == i,
            forall|k: int| #![trigger col@[k]] 0 <= k < i ==> col@[k] == c.value_in(rows@[k]),
        decreases n - i,
    {
        col.push(c.value(&rows[i]));
        i += 1;
    }
    assert(col@ =~= column_values(rows@, c));
    best_in_column(&col, c.higher_better())
}

// --------------------------------------------------------------------- laws

/// What beats what: the larger number where more is better, else the smaller.
pub proof fn law_beats_by_number(x: Reading, y: Reading)
    requires
        x.finite(),
        y.finite(),
    ensures
        beats(x, y, true) <==> x.finite_value() > y.finite_value(),
        beats(x, y, false) <==> x.finite_value() < y.finite_value(),
{
    crate::measure::law_rank_orders_numbers(x, y);
    crate::measure::law_rank_orders_numbers(y, x);
}

/// Of several rows that are equally good the first is highlighted: what stands
/// before it is worse. A row without a value never is, and one is wherever there is
/// a value.
pub proof fn law_best_is_the_first(col: Seq<Option<Reading>>, higher: bool, i: int)
    requires
        forall|k: int| 0 <= k < col.len() ==> is_number_or_none(#[trigger] col[k]),
        0 <= i < col.len(),
        col[i] is Some,
    ensures
        best_row(col, higher) matches Some(b) && 0 <= b < col.len() && col[b] is Some && (i < b
            ==> beats(col[b]->0, col[i]->0, higher)),
    decreases col.len(),
{
    let front = col.drop_last();
    lemma_best_row_has_value(col, higher);
    lemma_best_row_has_value(front, higher);
    law_best_is_unbeaten(col, higher, i);
    assert forall|k: int| 0 <= k < front.len() implies is_number_or_none(#[trigger] front[k]) by {
        assert(front[k] == col[k]);
    }
    if i < front.len() {
        assert(front[i] == col[i]);
        law_best_is_the_first(front, higher, i);
        law_best_is_unbeaten(front, higher, i);
        let b = best_row(front, higher)->0;
        assert(front[b] == col[b]);
        assert(!(col[b]->0).nan());
        assert(!(col[i]->0).nan());
        if let Some(v) = col.last() {
            assert(col[col.len() - 1] == Some(v));
            assert(!v.nan());
        }
    }
}

/// Rates, messages and the score are better when larger, times when smaller, and
/// each column shows what it is called after.
pub proof fn law_columns_show_what_they_say(r: CompareRow)
    ensures
        Column::Score.wants_more() && Column::Up.wants_more() && Column::Down.wants_more()
            && Column::Messages.wants_more(),
        !Column::Hop.wants_more() && !Column::Sync.wants_more() && !Column::Wake.wants_more(),
        Column::Up.value_in(r) == Some(r.up.bps),
        Column::Down.value_in(r) == Some(r.down.bps),
        Column::Sync.value_in(r) == Some(r.sync.value),
        Column::Messages.value_in(r) == Some(r.messages),
        r.score is Some ==> Column::Score.value_in(r) == Some(r.score->0.value),
        r.score is None ==> Column::Score.value_in(r) is None,
        r.hop is Some ==> Column::Hop.value_in(r) == Some(r.hop->0.value),
        r.hop is None ==> Column::Hop.value_in(r) is None,
        r.wake is Some ==> Column::Wake.value_in(r) == Some(r.wake->0.value),
        r.wake is None ==> Column::Wake.value_in(r) is None,
{
}

/// What is compared of a run is what it measured: the rates of both directions,
/// the hop of the first sample of exactly 16 KiB, the small all-reduce, the message
/// rate, and a wake-up lag that is never negative where a pause of 100 ms or more
/// was measured. In bulk the faster direction counts.
pub proof fn law_what_is_compared(c: BestFor, i: int, r: Results, lag: Reading)
    requires
        filled_from(c, i, r, lag),
    ensures
        ({
            let x = compared_of(r, lag);
            &&& x.up == r.uni_c2s_bps && x.down == r.uni_s2c_bps
            &&& x.sync == r.allreduce_16k_us && x.messages == r.msg_rate_per_s
            &&& x.score is Some <==> r.score is Some
            &&& r.score is Some ==> x.score == Some(r.score->0.score)
            &&& x.wake is Some <==> crate::report::rested(r)
            &&& x.wake is Some && !lag.nan() ==> (x.wake->0).rank() >= 0 && (lag.rank() >= 0
                ==> (x.wake->0).rank() == lag.rank()) && (lag.rank() < 0 ==> (x.wake->0).rank()
                == 0)
            &&& c.score@[i] == x.score && c.wake@[i] == x.wake
            &&& c.sync@[i] == Some(r.allreduce_16k_us)
            &&& c.bulk@[i] is Some
            &&& c.bulk@[i]->0 == r.uni_c2s_bps || c.bulk@[i]->0 == r.uni_s2c_bps
            &&& !(c.bulk@[i]->0).lt(r.uni_c2s_bps) && !(c.bulk@[i]->0).lt(r.uni_s2c_bps)
        }),
{
    crate::report::lemma_rested(r);
}

/// The hop that is compared is that of the first sample of exactly 16 KiB, and
/// there is none where no sample has that size.
pub proof fn law_hop_is_of_16k(s: Seq<crate::bench::LatencyPoint>, i: int)
    requires
        0 <= i <= s.len(),
        forall|j: int| 0 <= j < i ==> (#[trigger] s[j]).size != 16384,
        i < s.len() ==> s[i].size == 16384,
    ensures
        i < s.len() ==> first_of_size(s, 16384) == Some(s[i].oneway_p50_us),
        i == s.len() ==> first_of_size(s, 16384) is None,
    decreases s.len(),
{
    if i > 0 {
        assert(s[0].size != 16384);
        let rest = s.skip(1);
        assert forall|j: int| 0 <= j < i - 1 implies (#[trigger] rest[j]).size != 16384 by {
            assert(rest[j] == s[j + 1]);
        }
        if i < s.len() {
            assert(rest[i - 1] == s[i]);
        }
        law_hop_is_of_16k(rest, i - 1);
    }
}

/// What each line of the summary names: the last of the rows that nothing beats in
/// score, in bulk rate, in sync time and in wake-up lag, one line for each column
/// that has a value.
pub proof fn law_best_lines_name_the_best(labels: Seq<String>, c: BestFor)
    ensures
        ({
            let (s, b, y, w) = (
                top_row(c.score@, true),
                top_row(c.bulk@, true),
                top_row(c.sync@, false),
                top_row(c.wake@, false),
            );
            let lines = best_lines(labels, c);
            &&& lines.len() == (if s is Some {
                1int
            } else {
                0
            }) + (if b is Some {
                1int
            } else {
                0
            }) + (if y is Some {
                1int
            } else {
                0
            }) + (if w is Some {
                1int
            } else {
                0
            })
            &&& s is Some ==> lines.contains("overall: "@ + labels[s->0]@)
            &&& b is Some ==> lines.contains("bulk transfer: "@ + labels[b->0]@)
            &&& y is Some ==> lines.contains("per-token sync: "@ + labels[y->0]@)
            &&& w is Some ==> lines.contains("bursty RPC: "@ + labels[w->0]@)
        }),
{
    let one = best_line("overall: "@, labels, c.score@, true);
    let two = best_line("bulk transfer: "@, labels, c.bulk@, true);
    let three = best_line("per-token sync: "@, labels, c.sync@, false);
    let four = best_line("bursty RPC: "@, labels, c.wake@, false);
    let lines = best_lines(labels, c);
    if one.len() > 0 {
        assert(lines[0] == one[0]);
    }
    if two.len() > 0 {
        assert(lines[one.len() as int] == two[0]);
    }
    if three.len() > 0 {
        assert(lines[(one + two).len() as int] == three[0]);
    }
    if four.len() > 0 {
        assert(lines[(one + two + three).len() as int] == four[0]);
    }
}

} // verus!
