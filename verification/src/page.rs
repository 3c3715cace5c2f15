//! The report pane, line by line.

use crate::bench::{Results, KIB};
use crate::measure::Figure;
use crate::report::{
    fmt_rate, fmt_size, graded, lemma_stalls_bounded, numeric_run, rate_text, size_text,
    stats_of_run, timeline_stats, verdict_list, verdicts_from, verdicts_of, Figures, Grade, Rate,
    TimelineStats,
};
use crate::scan::{join, joined, views};
use crate::score::ScoreCard;
use crate::text::{
    dec, decimal, left_padded, pad_left, pad_right, repeat_char, repeated, right_padded,
    to_uppercase, uppercase_of,
};
use vstd::prelude::*;

verus! {

// -------------------------------------------------------------------- style

/// Terminal colours, on or off.
#[derive(Debug, Clone, Copy, PartialEq, Eq, Structural)]
pub struct Style {
    pub on: bool,
}

impl Style {
    pub open spec fn painted(self, code: Seq<char>, s: Seq<char>) -> Seq<char> {
        if self.on {
            "\x1b["@ + code + "m"@ + s + "\x1b[0m"@
        } else {
            s
        }
    }

    pub open spec fn bolded(self, s: Seq<char>) -> Seq<char> {
        self.painted("1"@, s)
    }

    pub open spec fn dimmed(self, s: Seq<char>) -> Seq<char> {
        self.painted("2"@, s)
    }

    pub open spec fn cyaned(self, s: Seq<char>) -> Seq<char> {
        self.painted("36"@, s)
    }

    pub open spec fn warned(self, s: Seq<char>) -> Seq<char> {
        self.painted("33"@, s)
    }

    /// Colours are used on a terminal, unless they are switched off.
    pub fn new(terminal: bool, no_color: bool) -> (r: Style)
        ensures
            r.on == (terminal && !no_color),
    {
        Style { on: terminal && !no_color }
    }

    pub fn paint(&self, code: &str, s: &str) -> (r: String)
        ensures
            r@ == self.painted(code@, s@),
    {
        if self.on {
            "\x1b[".to_owned().concat(code).concat("m").concat(s).concat("\x1b[0m")
        } else {
            s.to_owned()
        }
    }

    pub fn bold(&self, s: &str) -> (r: String)
        ensures
            r@ == self.bolded(s@),
    {
        self.paint("1", s)
    }

    pub fn dim(&self, s: &str) -> (r: String)
        ensures
            r@ == self.dimmed(s@),
    {
        self.paint("2", s)
    }

    pub fn cyan(&self, s: &str) -> (r: String)
        ensures
            r@ == self.cyaned(s@),
    {
        self.paint("36", s)
    }

    pub fn good(&self, s: &str) -> (r: String)
        ensures
            r@ == self.painted("32"@, s@),
    {
        self.paint("32", s)
    }

    pub fn warn(&self, s: &str) -> (r: String)
        ensures
            r@ == self.warned(s@),
    {
        self.paint("33", s)
    }

    pub fn bad(&self, s: &str) -> (r: String)
        ensures
            r@ == self.painted("31"@, s@),
    {
        self.paint("31", s)
    }
}

// -------------------------------------------------------------------- sheet

pub struct LatencyRow {
    pub p50: Figure,
    pub p99: Figure,
    pub mean: Figure,
}

pub struct BarRow {
    /// Blocks of the bar.
    pub blocks: usize,
    pub rate: Rate,
}

pub struct TimelineRow {
    pub spark: String,
    pub median: Rate,
    pub dip: Figure,
    /// Seconds from the end of the steady window to the end of the timeline.
    pub wind_down: Figure,
}

pub struct TempRow {
    pub from: Figure,
    pub max: Figure,
    pub nic: Option<Figure>,
}

/// How the numbers of a run read.
pub struct Sheet {
    pub figures: Figures,
    pub score: Figure,
    /// The two axes, on the scale of the score.
    pub bandwidth: Figure,
    pub latency: Figure,
    pub latency_rows: Vec<LatencyRow>,
    pub up: Rate,
    pub down: Rate,
    pub bidir: Rate,
    /// Millions of messages per second.
    pub messages: Figure,
    pub sweep: Vec<BarRow>,
    pub sustained_s: Figure,
    pub timeline_up: TimelineRow,
    pub timeline_down: TimelineRow,
    /// Node A and node B, where their system sensor was sampled.
    pub temps_a: Option<TempRow>,
    pub temps_b: Option<TempRow>,
    pub loaded_p50: Figure,
    pub loaded_p99: Figure,
    /// Idle round trip of the 16 KiB sample, and the loaded one over it.
    pub idle_rtt: Figure,
    pub idle_inflation: Figure,
    pub gaps: Vec<Figure>,
    /// One-way time of the 16 KiB sample.
    pub hop16: Figure,
    pub allreduce: Rate,
    pub bulk: Rate,
    /// This link and the links it is shown against.
    pub context: Vec<BarRow>,
}

pub open spec fn fits_results(s: Sheet, r: Results) -> bool {
    &&& s.latency_rows@.len() == r.latency@.len()
    &&& s.sweep@.len() == r.sweep@.len()
    &&& s.gaps@.len() == r.idle_gaps@.len()
    &&& s.context@.len() == 6
}

fn join_pages(a: Vec<String>, b: Vec<String>) -> (r: Vec<String>)
    ensures
        views(r@) == views(a@) + views(b@),
{
    let mut r = a;
    let mut b = b;
    let ghost (x, y) = (r@, b@);
    r.append(&mut b);
    assert(views(r@) =~= views(x) + views(y));
    r
}

fn page1(a: String) -> (r: Vec<String>)
    ensures
        views(r@) == seq![a@],
{
    let r = vec![a];
    assert(views(r@) =~= seq![a@]);
    r
}

fn page2(a: String, b: String) -> (r: Vec<String>)
    ensures
        views(r@) == seq![a@, b@],
{
    let r = vec![a, b];
    assert(views(r@) =~= seq![a@, b@]);
    r
}

fn page3(a: String, b: String, c: String) -> (r: Vec<String>)
    ensures
        views(r@) == seq![a@, b@, c@],
{
    let r = vec![a, b, c];
    assert(views(r@) =~= seq![a@, b@, c@]);
    r
}

fn page0() -> (r: Vec<String>)
    ensures
        views(r@) == Seq::<Seq<char>>::empty(),
{
    let r: Vec<String> = Vec::new();
    assert(views(r@) =~= Seq::<Seq<char>>::empty());
    r
}

fn blank() -> (r: String)
    ensures
        r@ == Seq::<char>::empty(),
{
    String::new()
}

// --------------------------------------------------------------------- head

pub open spec fn rule_line(st: Style) -> Seq<char> {
    st.dimmed(repeated('─', 78))
}

fn rule(st: &Style) -> (r: String)
    ensures
        r@ == rule_line(*st),
{
    st.dim(repeat_char('─', 78).as_str())
}

pub open spec fn head_lines(r: Results, st: Style) -> Seq<Seq<char>> {
    seq![
        Seq::empty(),
        st.bolded(st.cyaned("linkbench"@)) + "  "@ + st.dimmed(
            r.client_host@ + " ⇄ "@ + r.server_host@,
        ),
        rule_line(st),
    ] + seq!["  transport "@ + st.bolded(r.transport@) + "   "@ + st.dimmed(r.path@)] + (
    if r.tuning_a@.len() > 0 || r.tuning_b@.len() > 0 {
        seq![
            "  "@ + st.dimmed("cpu tuning   A: "@ + r.tuning_a@ + "   B: "@ + r.tuning_b@),
        ]
    } else {
        Seq::empty()
    })
}

fn head(r: &Results, st: &Style) -> (v: Vec<String>)
    ensures
        views(v@) == head_lines(*r, *st),
{
    let title = st.bold(st.cyan("linkbench").as_str()).concat("  ").concat(
        st.dim(
            r.client_host.clone().concat(" ⇄ ").concat(r.server_host.as_str()).as_str(),
        ).as_str(),
    );
    let transport = "  transport ".to_owned().concat(st.bold(r.transport.as_str()).as_str()).concat(
        "   ",
    ).concat(st.dim(r.path.as_str()).as_str());
    let top = join_pages(page3(blank(), title, rule(st)), page1(transport));
    let tuning = if !r.tuning_a.as_str().is_empty() || !r.tuning_b.as_str().is_empty() {
        page1(
            "  ".to_owned().concat(
                st.dim(
                    "cpu tuning   A: ".to_owned().concat(r.tuning_a.as_str()).concat(
                        "   B: ",
                    ).concat(r.tuning_b.as_str()).as_str(),
                ).as_str(),
            ),
        )
    } else {
        page0()
    };
    join_pages(top, tuning)
}

// -------------------------------------------------------------------- score

pub open spec fn score_lines(card: ScoreCard, s: Sheet, st: Style) -> Seq<Seq<char>> {
    seq![
        Seq::empty(),
        "  "@ + st.bolded(uppercase_of(card.name@) + " SCORE"@) + "   "@ + st.bolded(
            st.cyaned(s.score.d1@ + " / 10"@),
        ) + "   "@ + st.dimmed(
            "bandwidth "@ + s.bandwidth.d1@ + " · latency "@ + s.latency.d1@,
        ),
        "  "@ + st.dimmed(card.hint@),
    ] + Seq::new(
        card.penalties@.len(),
        |i: int| "  "@ + st.warned("penalty: "@ + card.penalties@[i]@),
    ) + Seq::new(
        card.skipped@.len(),
        |i: int|
            "  "@ + st.dimmed(
                "not checked: "@ + card.skipped@[i]@ + " — score is an upper bound"@,
            ),
    )
}

fn penalty_lines(list: &Vec<String>, st: &Style) -> (v: Vec<String>)
    ensures
        views(v@) == Seq::new(
            list@.len(),
            |i: int| "  "@ + st.warned("penalty: "@ + list@[i]@),
        ),
{
    let mut v: Vec<String> = Vec::new();
    let n = list.len();
    let mut i: usize = 0;
    while i < n
        invariant
            i <= n,
            n == list@.len(),
            v@.len() == i,
            forall|k: int|
                #![trigger v@[k]]
                0 <= k < i ==> v@[k]@ == "  "@ + st.warned("penalty: "@ + list@[k]@),
        decreases n - i,
    {
        v.push(
            "  ".to_owned().concat(
                st.warn("penalty: ".to_owned().concat(list[i].as_str()).as_str()).as_str(),
            ),
        );
        i += 1;
    }
    assert(views(v@) =~= Seq::new(
        list@.len(),
        |i: int| "  "@ + st.warned("penalty: "@ + list@[i]@),
    ));
    v
}

fn skipped_lines(list: &Vec<String>, st: &Style) -> (v: Vec<String>)
    ensures
        views(v@) == Seq::new(
            list@.len(),
            |i: int|
                "  "@ + st.dimmed("not checked: "@ + list@[i]@ + " — score is an upper bound"@),
        ),
{
    let mut v: Vec<String> = Vec::new();
    let n = list.len();
    let mut i: usize = 0;
    while i < n
        invariant
            i <= n,
            n == list@.len(),
            v@.len() == i,
            forall|k: int|
                #![trigger v@[k]]
                0 <= k < i ==> v@[k]@ == "  "@ + st.dimmed(
                    "not checked: "@ + list@[k]@ + " — score is an upper bound"@,
                ),
        decreases n - i,
    {
        v.push(
            "  ".to_owned().concat(
                st.dim(
                    "not checked: ".to_owned().concat(list[i].as_str()).concat(
                        " — score is an upper bound",
                    ).as_str(),
                ).as_str(),
            ),
        );
        i += 1;
    }
    assert(views(v@) =~= Seq::new(
        list@.len(),
        |i: int| "  "@ + st.dimmed("not checked: "@ + list@[i]@ + " — score is an upper bound"@),
    ));
    v
}

fn score_section(card: &ScoreCard, s: &Sheet, st: &Style) -> (v: Vec<String>)
    ensures
        views(v@) == score_lines(*card, *s, *st),
{
    let name = to_uppercase(card.name.as_str()).concat(" SCORE");
    let value = s.score.d1.clone().concat(" / 10");
    let axes = "bandwidth ".to_owned().concat(s.bandwidth.d1.as_str()).concat(
        " · latency ",
    ).concat(s.latency.d1.as_str());
    let line = "  ".to_owned().concat(st.bold(name.as_str()).as_str()).concat("   ").concat(
        st.bold(st.cyan(value.as_str()).as_str()).as_str(),
    ).concat("   ").concat(st.dim(axes.as_str()).as_str());
    let hint = "  ".to_owned().concat(st.dim(card.hint.as_str()).as_str());
    join_pages(
        join_pages(page3(blank(), line, hint), penalty_lines(&card.penalties, st)),
        skipped_lines(&card.skipped, st),
    )
}

// --------------------------------------------------------- microbenchmarks

pub open spec fn latency_line(size: nat, row: LatencyRow) -> Seq<char> {
    "    "@ + pad_right(size_text(size), 22) + pad_left(row.p50.d1@, 11, ' ') + " µs"@ + pad_left(
        row.p99.d1@,
        11,
        ' ',
    ) + " µs"@ + pad_left(row.mean.d1@, 11, ' ') + " µs"@
}

pub open spec fn sweep_line(size: nat, row: BarRow, st: Style) -> Seq<char> {
    "    "@ + pad_left(size_text(size), 8, ' ') + "  "@ + st.cyaned(
        repeated('▮', row.blocks as nat),
    ) + " "@ + rate_text(row.rate)
}

pub open spec fn micro_lines(r: Results, s: Sheet, st: Style) -> Seq<Seq<char>> {
    seq![
        Seq::empty(),
        "  "@ + st.bolded("MICROBENCHMARKS"@),
        "    "@ + pad_right(st.dimmed("one-way latency"@), 22) + pad_left(
            st.dimmed("p50"@),
            14,
            ' ',
        ) + pad_left(st.dimmed("p99"@), 14, ' ') + pad_left(st.dimmed("RTT mean"@), 14, ' '),
    ] + Seq::new(
        r.latency@.len(),
        |i: int| latency_line(r.latency@[i].size as nat, s.latency_rows@[i]),
    ) + seq![
        Seq::empty(),
        "    throughput   up "@ + st.bolded(rate_text(s.up)) + "   down "@ + st.bolded(
            rate_text(s.down),
        ),
    ] + seq![
        "                 bidir "@ + st.bolded(rate_text(s.bidir)) + "   "@ + s.messages.d2@
            + " M msg/s"@,
        Seq::empty(),
    ] + Seq::new(
        r.sweep@.len(),
        |i: int| sweep_line(r.sweep@[i].size as nat, s.sweep@[i], st),
    )
}

fn latency_rows(r: &Results, s: &Sheet) -> (v: Vec<String>)
    requires
        s.latency_rows@.len() == r.latency@.len(),
    ensures
        views(v@) == Seq::new(
            r.latency@.len(),
            |i: int| latency_line(r.latency@[i].size as nat, s.latency_rows@[i]),
        ),
{
    let mut v: Vec<String> = Vec::new();
    let n = r.latency.len();
    let mut i: usize = 0;
    while i < n
        invariant
            i <= n,
            n == r.latency@.len(),
            s.latency_rows@.len() == n,
            v@.len() == i,
            forall|k: int|
                #![trigger v@[k]]
                0 <= k < i ==> v@[k]@ == latency_line(
                    r.latency@[k].size as nat,
                    s.latency_rows@[k],
                ),
        decreases n - i,
    {
        let row = &s.latency_rows[i];
        v.push(
            "    ".to_owned().concat(
                right_padded(fmt_size(r.latency[i].size).as_str(), 22).as_str(),
            ).concat(left_padded(row.p50.d1.as_str(), 11, ' ').as_str()).concat(" µs").concat(
                left_padded(row.p99.d1.as_str(), 11, ' ').as_str(),
            ).concat(" µs").concat(left_padded(row.mean.d1.as_str(), 11, ' ').as_str()).concat(
                " µs",
            ),
        );
        i += 1;
    }
    assert(views(v@) =~= Seq::new(
        r.latency@.len(),
        |i: int| latency_line(r.latency@[i].size as nat, s.latency_rows@[i]),
    ));
    v
}

fn sweep_rows(r: &Results, s: &Sheet, st: &Style) -> (v: Vec<String>)
    requires
        s.sweep@.len() == r.sweep@.len(),
    ensures
        views(v@) == Seq::new(
            r.sweep@.len(),
            |i: int| sweep_line(r.sweep@[i].size as nat, s.sweep@[i], *st),
        ),
{
    let mut v: Vec<String> = Vec::new();
    let n = r.sweep.len();
    let mut i: usize = 0;
    while i < n
        invariant
            i <= n,
            n == r.sweep@.len(),
            s.sweep@.len() == n,
            v@.len() == i,
            forall|k: int|
                #![trigger v@[k]]
                0 <= k < i ==> v@[k]@ == sweep_line(r.sweep@[k].size as nat, s.sweep@[k], *st),
        decreases n - i,
    {
        let row = &s.sweep[i];
        v.push(
            "    ".to_owned().concat(
                left_padded(fmt_size(r.sweep[i].size).as_str(), 8, ' ').as_str(),
            ).concat("  ").concat(st.cyan(repeat_char('▮', row.blocks).as_str()).as_str()).concat(
                " ",
            ).concat(fmt_rate(&row.rate).as_str()),
        );
        i += 1;
    }
    assert(views(v@) =~= Seq::new(
        r.sweep@.len(),
        |i: int| sweep_line(r.sweep@[i].size as nat, s.sweep@[i], *st),
    ));
    v
}

fn micro_section(r: &Results, s: &Sheet, st: &Style) -> (v: Vec<String>)
    requires
        fits_results(*s, *r),
    ensures
        views(v@) == micro_lines(*r, *s, *st),
{
    let title = "  ".to_owned().concat(st.bold("MICROBENCHMARKS").as_str());
    let columns = "    ".to_owned().concat(
        right_padded(st.dim("one-way latency").as_str(), 22).as_str(),
    ).concat(left_padded(st.dim("p50").as_str(), 14, ' ').as_str()).concat(
        left_padded(st.dim("p99").as_str(), 14, ' ').as_str(),
    ).concat(left_padded(st.dim("RTT mean").as_str(), 14, ' ').as_str());
    let through = "    throughput   up ".to_owned().concat(
        st.bold(fmt_rate(&s.up).as_str()).as_str(),
    ).concat("   down ").concat(st.bold(fmt_rate(&s.down).as_str()).as_str());
    let bidir = "                 bidir ".to_owned().concat(
        st.bold(fmt_rate(&s.bidir).as_str()).as_str(),
    ).concat("   ").concat(s.messages.d2.as_str()).concat(" M msg/s");
    let top = join_pages(page3(blank(), title, columns), latency_rows(r, s));
    let mid = join_pages(join_pages(top, page2(blank(), through)), page2(bidir, blank()));
    join_pages(mid, sweep_rows(r, s, st))
}

// ---------------------------------------------------------------- sustained

/// What is said of a timeline's stability: `len` buckets, `steady` of them
/// steady.
pub open spec fn timeline_extra(
    stats: Option<TimelineStats>,
    len: int,
    steady: int,
    row: TimelineRow,
) -> Seq<char> {
    match stats {
        Some(t) => "dip −"@ + row.dip.d0@ + "%"@ + (if t.stalls > 0 {
            "  "@ + dec(t.stalls as nat) + " stalls"@
        } else {
            Seq::empty()
        }) + (if winds_down(len, steady) {
            "  (lane skew: "@ + row.wind_down.d1@ + " s wind-down)"@
        } else {
            Seq::empty()
        }),
        None => Seq::empty(),
    }
}

/// More than a fifth of the timeline lies behind the steady window.
pub open spec fn winds_down(len: int, steady: int) -> bool {
    (if len > steady {
        len - steady
    } else {
        0
    }) > len / 5
}

pub open spec fn timeline_line(
    label: Seq<char>,
    stats: Option<TimelineStats>,
    len: int,
    steady: int,
    row: TimelineRow,
    st: Style,
) -> Seq<char> {
    "    "@ + pad_right(label, 5) + " "@ + st.cyaned(row.spark@) + " "@ + rate_text(row.median)
        + "  "@ + st.dimmed(timeline_extra(stats, len, steady, row))
}

pub open spec fn timeline_lines(
    label: Seq<char>,
    stats: Option<TimelineStats>,
    len: int,
    steady: int,
    row: TimelineRow,
    st: Style,
) -> Seq<Seq<char>> {
    if len > 0 {
        seq![timeline_line(label, stats, len, steady, row, st)]
    } else {
        Seq::empty()
    }
}

fn timeline_section(
    label: &str,
    stats: &Option<TimelineStats>,
    len: usize,
    steady: usize,
    row: &TimelineRow,
    st: &Style,
) -> (v: Vec<String>)
    ensures
        views(v@) == timeline_lines(label@, *stats, len as int, steady as int, *row, *st),
{
    if len == 0 {
        return page0();
    }
    let tail: usize = if len > steady {
        len - steady
    } else {
        0
    };
    let extra = match stats {
        Some(t) => {
            let stalls = if t.stalls > 0 {
                "  ".to_owned().concat(decimal(t.stalls as u64).as_str()).concat(" stalls")
            } else {
                blank()
            };
            let skew = if tail > len / 5 {
                "  (lane skew: ".to_owned().concat(row.wind_down.d1.as_str()).concat(
                    " s wind-down)",
                )
            } else {
                blank()
            };
            "dip −".to_owned().concat(row.dip.d0.as_str()).concat("%").concat(
                stalls.as_str(),
            ).concat(skew.as_str())
        },
        None => blank(),
    };
    page1(
        "    ".to_owned().concat(right_padded(label, 5).as_str()).concat(" ").concat(
            st.cyan(row.spark.as_str()).as_str(),
        ).concat(" ").concat(fmt_rate(&row.median).as_str()).concat("  ").concat(
            st.dim(extra.as_str()).as_str(),
        ),
    )
}

pub open spec fn temp_text(node: Seq<char>, row: TempRow) -> Seq<char> {
    node + " sys "@ + row.from.d0@ + "→"@ + row.max.d0@ + "°C"@ + (match row.nic {
        Some(n) => " nic "@ + n.d0@ + "°C"@,
        None => Seq::empty(),
    })
}

pub open spec fn temp_texts(node: Seq<char>, row: Option<TempRow>) -> Seq<Seq<char>> {
    match row {
        Some(t) => seq![temp_text(node, t)],
        None => Seq::empty(),
    }
}

pub open spec fn temp_lines(s: Sheet, st: Style) -> Seq<Seq<char>> {
    let list = temp_texts("A"@, s.temps_a) + temp_texts("B"@, s.temps_b);
    if list.len() > 0 {
        seq!["    "@ + st.dimmed("temps"@) + " "@ + st.dimmed(joined(list, "   "@))]
    } else {
        Seq::empty()
    }
}

fn temp_row(node: &str, row: &Option<TempRow>) -> (v: Vec<String>)
    ensures
        views(v@) == temp_texts(node@, *row),
{
    match row {
        Some(t) => {
            let nic = match &t.nic {
                Some(n) => " nic ".to_owned().concat(n.d0.as_str()).concat("°C"),
                None => blank(),
            };
            page1(
                node.to_owned().concat(" sys ").concat(t.from.d0.as_str()).concat("→").concat(
                    t.max.d0.as_str(),
                ).concat("°C").concat(nic.as_str()),
            )
        },
        None => page0(),
    }
}

fn temp_section(s: &Sheet, st: &Style) -> (v: Vec<String>)
    ensures
        views(v@) == temp_lines(*s, *st),
{
    let list = join_pages(temp_row("A", &s.temps_a), temp_row("B", &s.temps_b));
    assert(list@.len() == views(list@).len());
    if list.len() > 0 {
        page1(
            "    ".to_owned().concat(st.dim("temps").as_str()).concat(" ").concat(
                st.dim(join(&list, "   ").as_str()).as_str(),
            ),
        )
    } else {
        page0()
    }
}

pub open spec fn sustained_lines(
    r: Results,
    s: Sheet,
    st: Style,
    up: Option<TimelineStats>,
    down: Option<TimelineStats>,
) -> Seq<Seq<char>> {
    if r.timeline_up_bps@.len() > 0 || r.timeline_down_bps@.len() > 0 {
        seq![
            Seq::empty(),
            "  "@ + st.bolded("SUSTAINED"@) + "  "@ + st.dimmed(
                "("@ + s.sustained_s.d0@ + " s, "@ + dec(r.timeline_bucket_ms as nat)
                    + " ms buckets)"@,
            ),
        ] + timeline_lines(
            "up"@,
            up,
            r.timeline_up_bps@.len() as int,
            r.timeline_up_steady as int,
            s.timeline_up,
            st,
        ) + timeline_lines(
            "down"@,
            down,
            r.timeline_down_bps@.len() as int,
            r.timeline_down_steady as int,
            s.timeline_down,
            st,
        ) + temp_lines(s, st)
    } else {
        Seq::empty()
    }
}

fn sustained_section(
    r: &Results,
    s: &Sheet,
    st: &Style,
    up: &Option<TimelineStats>,
    down: &Option<TimelineStats>,
) -> (v: Vec<String>)
    ensures
        views(v@) == sustained_lines(*r, *s, *st, *up, *down),
{
    let (n, m) = (r.timeline_up_bps.len(), r.timeline_down_bps.len());
    if n == 0 && m == 0 {
        return page0();
    }
    let about = "(".to_owned().concat(s.sustained_s.d0.as_str()).concat(" s, ").concat(
        decimal(r.timeline_bucket_ms).as_str(),
    ).concat(" ms buckets)");
    let title = "  ".to_owned().concat(st.bold("SUSTAINED").as_str()).concat("  ").concat(
        st.dim(about.as_str()).as_str(),
    );
    let a = join_pages(
        page2(blank(), title),
        timeline_section("up", up, n, r.timeline_up_steady, &s.timeline_up, st),
    );
    let b = join_pages(
        a,
        timeline_section("down", down, m, r.timeline_down_steady, &s.timeline_down, st),
    );
    join_pages(b, temp_section(s, st))
}

// ----------------------------------------------------------- under pressure

/// There is a sample of exactly 16 KiB.
pub open spec fn sampled_16k(r: Results) -> bool {
    exists|i: int| 0 <= i < r.latency@.len() && (#[trigger] r.latency@[i]).size == 16 * KIB
}

pub fn has_16k(r: &Results) -> (b: bool)
    ensures
        b == sampled_16k(*r),
{
    let n = r.latency.len();
    let mut i: usize = 0;
    while i < n
        invariant
            i <= n,
            n == r.latency@.len(),
            forall|k: int| 0 <= k < i ==> (#[trigger] r.latency@[k]).size != 16 * KIB,
        decreases n - i,
    {
        if r.latency[i].size == 16 * KIB {
            return true;
        }
        i += 1;
    }
    false
}

pub open spec fn loaded_lines(r: Results, s: Sheet, st: Style) -> Seq<Seq<char>> {
    if r.loaded_rtt is Some {
        seq![
            "    16 KiB RTT during full-rate transfer   "@ + st.bolded(s.loaded_p50.d0@ + " µs"@)
                + " p50 / "@ + st.bolded(s.loaded_p99.d0@ + " µs"@) + " p99"@ + st.dimmed(
                if sampled_16k(r) {
                    "  (idle "@ + s.idle_rtt.d0@ + " µs → ×"@ + s.idle_inflation.d1@ + ")"@
                } else {
                    Seq::empty()
                },
            ),
        ]
    } else {
        Seq::empty()
    }
}

pub open spec fn gap_names(r: Results) -> Seq<Seq<char>> {
    Seq::new(r.idle_gaps@.len(), |i: int| dec(r.idle_gaps@[i].gap_ms as nat))
}

pub open spec fn gap_values(s: Sheet) -> Seq<Seq<char>> {
    Seq::new(s.gaps@.len(), |i: int| s.gaps@[i].d0@)
}

pub open spec fn gap_lines(r: Results, s: Sheet, st: Style) -> Seq<Seq<char>> {
    if r.idle_gaps@.len() > 0 {
        let names = joined(gap_names(r), "/"@);
        seq![
            "    16 KiB RTT after "@ + names + " ms idle"@ + repeated(
                ' ',
                if names.len() < 14 {
                    (14 - names.len()) as nat
                } else {
                    0
                },
            ) + st.bolded(joined(gap_values(s), " / "@)) + " µs p50"@,
        ]
    } else {
        Seq::empty()
    }
}

pub open spec fn pressure_lines(r: Results, s: Sheet, st: Style) -> Seq<Seq<char>> {
    if r.loaded_rtt is Some || r.idle_gaps@.len() > 0 {
        seq![Seq::empty(), "  "@ + st.bolded("UNDER PRESSURE"@)] + loaded_lines(r, s, st)
            + gap_lines(r, s, st)
    } else {
        Seq::empty()
    }
}

fn gap_section(r: &Results, s: &Sheet, st: &Style) -> (v: Vec<String>)
    ensures
        views(v@) == gap_lines(*r, *s, *st),
{
    let n = r.idle_gaps.len();
    if n == 0 {
        return page0();
    }
    let mut names: Vec<String> = Vec::new();
    let mut i: usize = 0;
    while i < n
        invariant
            i <= n,
            n == r.idle_gaps@.len(),
            names@.len() == i,
            forall|k: int|
                #![trigger names@[k]]
                0 <= k < i ==> names@[k]@ == dec(r.idle_gaps@[k].gap_ms as nat),
        decreases n - i,
    {
        names.push(decimal(r.idle_gaps[i].gap_ms));
        i += 1;
    }
    assert(views(names@) =~= gap_names(*r));
    let mut values: Vec<String> = Vec::new();
    let m = s.gaps.len();
    let mut j: usize = 0;
    while j < m
        invariant
            j <= m,
            m == s.gaps@.len(),
            values@.len() == j,
            forall|k: int|
                #![trigger values@[k]]
                0 <= k < j ==> values@[k]@ == s.gaps@[k].d0@,
        decreases m - j,
    {
        values.push(s.gaps[j].d0.clone());
        j += 1;
    }
    assert(views(values@) =~= gap_values(*s));
    let list = join(&names, "/");
    let len = list.as_str().unicode_len();
    let fill: usize = if len < 14 {
        14 - len
    } else {
        0
    };
    page1(
        "    16 KiB RTT after ".to_owned().concat(list.as_str()).concat(" ms idle").concat(
            repeat_char(' ', fill).as_str(),
        ).concat(st.bold(join(&values, " / ").as_str()).as_str()).concat(" µs p50"),
    )
}

fn pressure_section(r: &Results, s: &Sheet, st: &Style) -> (v: Vec<String>)
    ensures
        views(v@) == pressure_lines(*r, *s, *st),
{
    let n = r.idle_gaps.len();
    if r.loaded_rtt.is_none() && n == 0 {
        return page0();
    }
    let top = page2(blank(), "  ".to_owned().concat(st.bold("UNDER PRESSURE").as_str()));
    let load = if r.loaded_rtt.is_some() {
        let vs = if has_16k(r) {
            "  (idle ".to_owned().concat(s.idle_rtt.d0.as_str()).concat(" µs → ×").concat(
                s.idle_inflation.d1.as_str(),
            ).concat(")")
        } else {
            blank()
        };
        page1(
            "    16 KiB RTT during full-rate transfer   ".to_owned().concat(
                st.bold(s.loaded_p50.d0.clone().concat(" µs").as_str()).as_str(),
            ).concat(" p50 / ").concat(
                st.bold(s.loaded_p99.d0.clone().concat(" µs").as_str()).as_str(),
            ).concat(" p99").concat(st.dim(vs.as_str()).as_str()),
        )
    } else {
        page0()
    };
    join_pages(join_pages(top, load), gap_section(r, s, st))
}

// ------------------------------------------------------------- ML scenarios

pub open spec fn scenario(name: Seq<char>, value: Seq<char>, st: Style) -> Seq<char> {
    "    "@ + pad_right(name, 48) + " "@ + st.bolded(value)
}

pub open spec fn scenario_lines(r: Results, s: Sheet, st: Style) -> Seq<Seq<char>> {
    seq![
        Seq::empty(),
        "  "@ + st.bolded("ML SCENARIOS"@),
        scenario(
            "activation hop, 16 KiB (pipeline parallel)"@,
            if sampled_16k(r) {
                s.hop16.d1@ + " µs one-way"@
            } else {
                Seq::empty()
            },
            st,
        ),
    ] + seq![
        scenario(
            "per-token all-reduce, 16 KiB (tensor parallel)"@,
            s.figures.sync.d1@ + " µs"@,
            st,
        ),
        scenario(
            "gradient all-reduce, 1 GiB (data parallel)"@,
            rate_text(s.allreduce) + " effective"@,
            st,
        ),
    ] + seq![
        scenario("KV-cache block, 32 MiB"@, s.figures.kv.d2@ + " ms"@, st),
        scenario("weight streaming (sustained one-way)"@, rate_text(s.bulk), st),
    ]
}

fn scenario_text(name: &str, value: &str, st: &Style) -> (r: String)
    ensures
        r@ == scenario(name@, value@, *st),
{
    "    ".to_owned().concat(right_padded(name, 48).as_str()).concat(" ").concat(
        st.bold(value).as_str(),
    )
}

fn scenario_section(r: &Results, s: &Sheet, st: &Style) -> (v: Vec<String>)
    ensures
        views(v@) == scenario_lines(*r, *s, *st),
{
    let hop = if has_16k(r) {
        s.hop16.d1.clone().concat(" µs one-way")
    } else {
        blank()
    };
    let top = page3(
        blank(),
        "  ".to_owned().concat(st.bold("ML SCENARIOS").as_str()),
        scenario_text("activation hop, 16 KiB (pipeline parallel)", hop.as_str(), st),
    );
    let mid = page2(
        scenario_text(
            "per-token all-reduce, 16 KiB (tensor parallel)",
            s.figures.sync.d1.clone().concat(" µs").as_str(),
            st,
        ),
        scenario_text(
            "gradient all-reduce, 1 GiB (data parallel)",
            fmt_rate(&s.allreduce).concat(" effective").as_str(),
            st,
        ),
    );
    let end = page2(
        scenario_text(
            "KV-cache block, 32 MiB",
            s.figures.kv.d2.clone().concat(" ms").as_str(),
            st,
        ),
        scenario_text("weight streaming (sustained one-way)", fmt_rate(&s.bulk).as_str(), st),
    );
    join_pages(join_pages(top, mid), end)
}

// ------------------------------------------------------------------ context

/// The links that this one is shown against.
pub open spec fn context_name(i: int) -> Seq<char> {
    if i == 0 {
        "this link"@
    } else if i == 1 {
        "10 GbE"@
    } else if i == 2 {
        "TB4/USB4"@
    } else if i == 3 {
        "100 GbE line rate"@
    } else if i == 4 {
        "PCIe 4.0 x16"@
    } else {
        "NVLink 4"@
    }
}

pub open spec fn context_line(i: int, row: BarRow, st: Style) -> Seq<char> {
    let line = "    "@ + pad_right(context_name(i), 18) + " "@ + repeated(
        '█',
        if row.blocks == 0 {
            1
        } else {
            row.blocks as nat
        },
    ) + " "@ + rate_text(row.rate);
    if i == 0 {
        st.cyaned(line)
    } else {
        st.dimmed(line)
    }
}

pub open spec fn context_lines(s: Sheet, st: Style) -> Seq<Seq<char>> {
    seq![
        Seq::empty(),
        "  "@ + st.bolded("CONTEXT"@) + "  "@ + st.dimmed("(big-message bandwidth, log scale)"@),
    ] + Seq::new(s.context@.len(), |i: int| context_line(i, s.context@[i], st))
}

fn context_label(i: usize) -> (r: &'static str)
    ensures
        r@ == context_name(i as int),
{
    if i == 0 {
        "this link"
    } else if i == 1 {
        "10 GbE"
    } else if i == 2 {
        "TB4/USB4"
    } else if i == 3 {
        "100 GbE line rate"
    } else if i == 4 {
        "PCIe 4.0 x16"
    } else {
        "NVLink 4"
    }
}

fn context_section(s: &Sheet, st: &Style) -> (v: Vec<String>)
    ensures
        views(v@) == context_lines(*s, *st),
{
    let title = "  ".to_owned().concat(st.bold("CONTEXT").as_str()).concat("  ").concat(
        st.dim("(big-message bandwidth, log scale)").as_str(),
    );
    let mut rows: Vec<String> = Vec::new();
    let n = s.context.len();
    let mut i: usize = 0;
    while i < n
        invariant
            i <= n,
            n == s.context@.len(),
            rows@.len() == i,
            forall|k: int|
                #![trigger rows@[k]]
                0 <= k < i ==> rows@[k]@ == context_line(k, s.context@[k], *st),
        decreases n - i,
    {
        let row = &s.context[i];
        let blocks: usize = if row.blocks == 0 {
            1
        } else {
            row.blocks
        };
        let line = "    ".to_owned().concat(right_padded(context_label(i), 18).as_str()).concat(
            " ",
        ).concat(repeat_char('█', blocks).as_str()).concat(" ").concat(
            fmt_rate(&row.rate).as_str(),
        );
        rows.push(
            if i == 0 {
                st.cyan(line.as_str())
            } else {
                st.dim(line.as_str())
            },
        );
        i += 1;
    }
    assert(views(rows@) =~= Seq::new(s.context@.len(), |i: int| context_line(i, s.context@[i], *st)));
    join_pages(page2(blank(), title), rows)
}

// ----------------------------------------------------------------- verdicts

pub open spec fn verdict_line(v: (String, Grade), st: Style) -> Seq<char> {
    "    "@ + (match v.1 {
        Grade::Good(_) => st.painted("32"@, "✓"@),
        Grade::Fair(_) => st.warned("~"@),
        Grade::Poor(_) => st.painted("31"@, "✗"@),
    }) + " "@ + pad_right(v.0@, 46) + " "@ + st.dimmed(graded(v.1).1)
}

pub open spec fn verdict_lines(v: Seq<(String, Grade)>, st: Style) -> Seq<Seq<char>> {
    seq![Seq::empty(), "  "@ + st.bolded("VERDICT"@)] + Seq::new(
        v.len(),
        |i: int| verdict_line(v[i], st),
    ) + seq![rule_line(st), Seq::empty()]
}

fn verdict_text(v: &(String, Grade), st: &Style) -> (r: String)
    ensures
        r@ == verdict_line(*v, *st),
{
    let (mark, text) = match &v.1 {
        Grade::Good(t) => (st.good("✓"), t.as_str()),
        Grade::Fair(t) => (st.warn("~"), t.as_str()),
        Grade::Poor(t) => (st.bad("✗"), t.as_str()),
    };
    "    ".to_owned().concat(mark.as_str()).concat(" ").concat(
        right_padded(v.0.as_str(), 46).as_str(),
    ).concat(" ").concat(st.dim(text).as_str())
}

fn verdict_section(list: &Vec<(String, Grade)>, st: &Style) -> (v: Vec<String>)
    ensures
        views(v@) == verdict_lines(list@, *st),
{
    let mut rows: Vec<String> = Vec::new();
    let n = list.len();
    let mut i: usize = 0;
    while i < n
        invariant
            i <= n,
            n == list@.len(),
            rows@.len() == i,
            forall|k: int|
                #![trigger rows@[k]]
                0 <= k < i ==> rows@[k]@ == verdict_line(list@[k], *st),
        decreases n - i,
    {
        rows.push(verdict_text(&list[i], st));
        i += 1;
    }
    assert(views(rows@) =~= Seq::new(list@.len(), |i: int| verdict_line(list@[i], *st)));
    join_pages(
        join_pages(page2(blank(), "  ".to_owned().concat(st.bold("VERDICT").as_str())), rows),
        page2(rule(st), blank()),
    )
}

// --------------------------------------------------------------------- page

pub open spec fn page_lines(
    r: Results,
    card: ScoreCard,
    s: Sheet,
    st: Style,
    up: Option<TimelineStats>,
    down: Option<TimelineStats>,
    v: Seq<(String, Grade)>,
) -> Seq<Seq<char>> {
    head_lines(r, st) + score_lines(card, s, st) + micro_lines(r, s, st) + sustained_lines(
        r,
        s,
        st,
        up,
        down,
    ) + pressure_lines(r, s, st) + scenario_lines(r, s, st) + context_lines(s, st)
        + verdict_lines(v, st)
}

/// The lines of the report. `up` and `down` are the statistics of the two
/// timelines, `list` the verdicts.
pub fn render(
    r: &Results,
    card: &ScoreCard,
    s: &Sheet,
    st: &Style,
    up: &Option<TimelineStats>,
    down: &Option<TimelineStats>,
    list: &Vec<(String, Grade)>,
) -> (v: Vec<String>)
    requires
        fits_results(*s, *r),
    ensures
        views(v@) == page_lines(*r, *card, *s, *st, *up, *down, list@),
{
    let a = join_pages(head(r, st), score_section(card, s, st));
    let b = join_pages(a, micro_section(r, s, st));
    let c = join_pages(b, sustained_section(r, s, st, up, down));
    let d = join_pages(c, pressure_section(r, s, st));
    let e = join_pages(d, scenario_section(r, s, st));
    let f = join_pages(e, context_section(s, st));
    join_pages(f, verdict_section(list, st))
}

/// The card that is shown: the one that came with the results, else the one that
/// was computed now, for older results.
pub open spec fn shown_card(r: Results, computed: ScoreCard) -> ScoreCard {
    match r.score {
        Some(c) => c,
        None => computed,
    }
}

/// `v` are the lines of the report on `r`: with its own card, the statistics of its
/// own timelines and its own verdicts.
pub open spec fn reports(
    v: Seq<Seq<char>>,
    r: Results,
    computed: ScoreCard,
    s: Sheet,
    st: Style,
    up: Option<TimelineStats>,
    down: Option<TimelineStats>,
    list: Seq<(String, Grade)>,
) -> bool {
    &&& stats_of_run(r, up, down)
    &&& verdicts_of(list) == verdict_list(r, s.figures, up, down)
    &&& v == page_lines(r, shown_card(r, computed), s, st, up, down, list)
}

/// The whole report on a run. `computed` stands in where the results carry no
/// card.
pub fn report(r: &Results, computed: &ScoreCard, s: &Sheet, st: &Style) -> (v: Vec<String>)
    requires
        fits_results(*s, *r),
        numeric_run(*r),
        r.timeline_up_bps@.len() + r.timeline_down_bps@.len() <= usize::MAX,
    ensures
        exists|
            up: Option<TimelineStats>,
            down: Option<TimelineStats>,
            list: Seq<(String, Grade)>,
        | #[trigger]
            reports(views(v@), *r, *computed, *s, *st, up, down, list),
{
    let up = timeline_stats(&r.timeline_up_bps, r.timeline_up_steady);
    let down = timeline_stats(&r.timeline_down_bps, r.timeline_down_steady);
    proof {
        lemma_stalls_bounded(up, r.timeline_up_bps@, r.timeline_up_steady as int);
        lemma_stalls_bounded(down, r.timeline_down_bps@, r.timeline_down_steady as int);
    }
    let list = verdicts_from(r, &s.figures, &up, &down);
    let card = match &r.score {
        Some(c) => c,
        None => computed,
    };
    let v = render(r, card, s, st, &up, &down, &list);
    assert(reports(views(v@), *r, *computed, *s, *st, up, down, list@));
    v
}

/// A card that came with the results is shown as it is, so that an old run keeps
/// its score.
pub proof fn law_recorded_score_is_kept(r: Results, computed: ScoreCard)
    ensures
        r.score is Some ==> shown_card(r, computed) == r.score->0,
        r.score is None ==> shown_card(r, computed) == computed,
{
}

} // verus!
