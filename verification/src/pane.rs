//! The texts of the results pane in the window.

use crate::bench::Results;
use crate::page::{gap_names, gap_values, has_16k, sampled_16k, Sheet};
use crate::report::{
    bits_text, bytes_text, fmt_bits, fmt_bytes, fmt_rate, rate_text, Grade, Rate,
};
use crate::scan::{join, joined, views};
use crate::score::ScoreCard;
use crate::text::{dec, decimal};
use vstd::prelude::*;

verus! {

// ------------------------------------------------------------------ headings

/// The two hosts.
pub fn hosts_title(r: &Results) -> (t: String)
    ensures
        t@ == r.client_host@ + " – "@ + r.server_host@,
{
    r.client_host.clone().concat(" – ").concat(r.server_host.as_str())
}

/// The tuning that both hosts ran under, where either is known.
pub fn tuning_note(r: &Results) -> (t: Option<String>)
    ensures
        if r.tuning_a@.len() == 0 && r.tuning_b@.len() == 0 {
            t is None
        } else {
            t is Some && t->0@ == "cpu tuning   A: "@ + r.tuning_a@ + "   B: "@ + r.tuning_b@
        },
{
    if r.tuning_a.as_str().is_empty() && r.tuning_b.as_str().is_empty() {
        return None;
    }
    Some(
        "cpu tuning   A: ".to_owned().concat(r.tuning_a.as_str()).concat("   B: ").concat(
            r.tuning_b.as_str(),
        ),
    )
}

/// The heading of the chart of one sustained run.
pub fn chart_title(r: &Results, up: bool) -> (t: String)
    ensures
        t@ == if up {
            "up · "@ + r.client_host@ + " to "@ + r.server_host@
        } else {
            "down · "@ + r.server_host@ + " to "@ + r.client_host@
        },
{
    if up {
        "up · ".to_owned().concat(r.client_host.as_str()).concat(" to ").concat(
            r.server_host.as_str(),
        )
    } else {
        "down · ".to_owned().concat(r.server_host.as_str()).concat(" to ").concat(
            r.client_host.as_str(),
        )
    }
}

/// There is a sustained run to draw.
pub fn has_timeline(r: &Results) -> (b: bool)
    ensures
        b == (r.timeline_up_bps@.len() > 0 || r.timeline_down_bps@.len() > 0),
{
    r.timeline_up_bps.len() > 0 || r.timeline_down_bps.len() > 0
}

// --------------------------------------------------------------------- tiles

/// A tile: what it shows, what stands below, what it is.
pub struct Tile {
    pub value: String,
    pub sub: Option<String>,
    pub label: String,
}

pub struct TileText {
    pub value: Seq<char>,
    pub sub: Option<Seq<char>>,
    pub label: Seq<char>,
}

pub open spec fn tile_text(t: Tile) -> TileText {
    TileText {
        value: t.value@,
        sub: match t.sub {
            Some(s) => Some(s@),
            None => None,
        },
        label: t.label@,
    }
}

pub open spec fn tile_texts(t: Seq<Tile>) -> Seq<TileText> {
    t.map_values(|x: Tile| tile_text(x))
}

pub open spec fn rate_tile(label: Seq<char>, r: Rate) -> TileText {
    TileText { value: bits_text(r), sub: Some(bytes_text(r) + "/s"@), label }
}

/// The tiles of a run: both directions, both at once, the latency of the
/// smallest message, the message rate.
pub open spec fn run_tiles(r: Results, s: Sheet) -> Seq<TileText> {
    seq![
        rate_tile("up (A to B)"@, s.up),
        rate_tile("down (B to A)"@, s.down),
        rate_tile("bidirectional"@, s.bidir),
    ] + (if r.latency@.len() > 0 {
        seq![
            TileText {
                value: s.latency_rows@[0].p50.d1@ + " µs"@,
                sub: None,
                label: "one-way latency (64 B)"@,
            },
        ]
    } else {
        Seq::empty()
    }) + seq![
        TileText { value: s.messages.d2@ + " M/s"@, sub: None, label: "message rate"@ },
    ]
}

fn tile_of_rate(label: &str, r: &Rate) -> (t: Tile)
    ensures
        tile_text(t) == rate_tile(label@, *r),
{
    Tile {
        value: fmt_bits(r),
        sub: Some(fmt_bytes(r).concat("/s")),
        label: label.to_owned(),
    }
}

pub fn tiles(r: &Results, s: &Sheet) -> (v: Vec<Tile>)
    requires
        s.latency_rows@.len() == r.latency@.len(),
    ensures
        tile_texts(v@) == run_tiles(*r, *s),
{
    let mut v: Vec<Tile> = Vec::new();
    v.push(tile_of_rate("up (A to B)", &s.up));
    v.push(tile_of_rate("down (B to A)", &s.down));
    v.push(tile_of_rate("bidirectional", &s.bidir));
    if r.latency.len() > 0 {
        v.push(
            Tile {
                value: s.latency_rows[0].p50.d1.clone().concat(" µs"),
                sub: None,
                label: "one-way latency (64 B)".to_owned(),
            },
        );
    }
    v.push(
        Tile {
            value: s.messages.d2.clone().concat(" M/s"),
            sub: None,
            label: "message rate".to_owned(),
        },
    );
    assert(tile_texts(v@) =~= run_tiles(*r, *s));
    v
}

/// What is shown over the score.
pub fn score_note(card: &ScoreCard) -> (r: String)
    ensures
        r@ == "1.0 = two nodes on 2.5GbE · 10.0 = NVLink-bridged flagship pair\n"@ + card.hint@ + (
        if card.penalties@.len() == 0 {
            Seq::empty()
        } else {
            "\npenalties: "@ + joined(views(card.penalties@), ", "@)
        }),
{
    let penalties = if card.penalties.len() == 0 {
        String::new()
    } else {
        "\npenalties: ".to_owned().concat(join(&card.penalties, ", ").as_str())
    };
    "1.0 = two nodes on 2.5GbE · 10.0 = NVLink-bridged flagship pair\n".to_owned().concat(
        card.hint.as_str(),
    ).concat(penalties.as_str())
}

/// The two axes below the score.
pub fn axes_note(s: &Sheet) -> (r: String)
    ensures
        r@ == "bw "@ + s.bandwidth.d1@ + " · lat "@ + s.latency.d1@,
{
    "bw ".to_owned().concat(s.bandwidth.d1.as_str()).concat(" · lat ").concat(
        s.latency.d1.as_str(),
    )
}

/// A grade in one word.
pub fn grade_word(g: &Grade) -> (r: &'static str)
    ensures
        r@ == (match *g {
            Grade::Good(_) => "good"@,
            Grade::Fair(_) => "fair"@,
            Grade::Poor(_) => "poor"@,
        }),
{
    match g {
        Grade::Good(_) => "good",
        Grade::Fair(_) => "fair",
        Grade::Poor(_) => "poor",
    }
}

// ---------------------------------------------------------------- workloads

pub open spec fn row_views(v: Seq<(String, String)>) -> Seq<(Seq<char>, Seq<char>)> {
    v.map_values(|x: (String, String)| (x.0@, x.1@))
}

pub open spec fn hop_row(r: Results, s: Sheet) -> Seq<(Seq<char>, Seq<char>)> {
    if sampled_16k(r) {
        seq![("activation hop, 16 KiB (pipeline parallel)"@, s.hop16.d1@ + " µs one-way"@)]
    } else {
        Seq::empty()
    }
}

pub open spec fn fixed_rows(s: Sheet) -> Seq<(Seq<char>, Seq<char>)> {
    seq![
        ("per-token all-reduce, 16 KiB (tensor parallel)"@, s.figures.sync.d1@ + " µs"@),
        ("gradient all-reduce, 1 GiB (data parallel)"@, rate_text(s.allreduce)),
        ("KV-cache block, 32 MiB"@, s.figures.kv.d2@ + " ms"@),
        ("weight streaming"@, rate_text(s.bulk)),
    ]
}

pub open spec fn loaded_row(r: Results, s: Sheet) -> Seq<(Seq<char>, Seq<char>)> {
    if r.loaded_rtt is Some {
        seq![
            (
                "16 KiB RTT while link is saturated"@,
                s.loaded_p50.d0@ + " µs p50 · "@ + s.loaded_p99.d0@ + " µs p99"@,
            ),
        ]
    } else {
        Seq::empty()
    }
}

pub open spec fn gap_row(r: Results, s: Sheet) -> Seq<(Seq<char>, Seq<char>)> {
    if r.idle_gaps@.len() > 0 {
        seq![
            (
                "RTT after "@ + joined(gap_names(r), "/"@) + " ms idle"@,
                joined(gap_values(s), " / "@) + " µs p50"@,
            ),
        ]
    } else {
        Seq::empty()
    }
}

pub open spec fn workloads(r: Results, s: Sheet) -> Seq<(Seq<char>, Seq<char>)> {
    hop_row(r, s) + fixed_rows(s) + loaded_row(r, s) + gap_row(r, s)
}

fn gap_texts(r: &Results) -> (v: Vec<String>)
    ensures
        views(v@) == gap_names(*r),
{
    let mut v: Vec<String> = Vec::new();
    let n = r.idle_gaps.len();
    let mut i: usize = 0;
    while i < n
        invariant
            i <= n,
            n == r.idle_gaps@.len(),
            v@.len() == i,
            forall|k: int|
                #![trigger v@[k]]
                0 <= k < i ==> v@[k]@ == dec(r.idle_gaps@[k].gap_ms as nat),
        decreases n - i,
    {
        v.push(decimal(r.idle_gaps[i].gap_ms));
        i += 1;
    }
    assert(views(v@) =~= gap_names(*r));
    v
}

fn value_texts(s: &Sheet) -> (v: Vec<String>)
    ensures
        views(v@) == gap_values(*s),
{
    let mut v: Vec<String> = Vec::new();
    let n = s.gaps.len();
    let mut i: usize = 0;
    while i < n
        invariant
            i <= n,
            n == s.gaps@.len(),
            v@.len() == i,
            forall|k: int| #![trigger v@[k]] 0 <= k < i ==> v@[k]@ == s.gaps@[k].d0@,
        decreases n - i,
    {
        v.push(s.gaps[i].d0.clone());
        i += 1;
    }
    assert(views(v@) =~= gap_values(*s));
    v
}

/// What the link does under real work, a name and a value each.
pub fn workload_rows(r: &Results, s: &Sheet) -> (v: Vec<(String, String)>)
    ensures
        row_views(v@) == workloads(*r, *s),
{
    let mut v: Vec<(String, String)> = Vec::new();
    if has_16k(r) {
        v.push(
            (
                "activation hop, 16 KiB (pipeline parallel)".to_owned(),
                s.hop16.d1.clone().concat(" µs one-way"),
            ),
        );
    }
    let ghost first = hop_row(*r, *s);
    assert(row_views(v@) =~= first);
    v.push(
        (
            "per-token all-reduce, 16 KiB (tensor parallel)".to_owned(),
            s.figures.sync.d1.clone().concat(" µs"),
        ),
    );
    v.push(("gradient all-reduce, 1 GiB (data parallel)".to_owned(), fmt_rate(&s.allreduce)));
    v.push(("KV-cache block, 32 MiB".to_owned(), s.figures.kv.d2.clone().concat(" ms")));
    v.push(("weight streaming".to_owned(), fmt_rate(&s.bulk)));
    let ghost second = first + fixed_rows(*s);
    assert(row_views(v@) =~= second);
    if r.loaded_rtt.is_some() {
        v.push(
            (
                "16 KiB RTT while link is saturated".to_owned(),
                s.loaded_p50.d0.clone().concat(" µs p50 · ").concat(
                    s.loaded_p99.d0.as_str(),
                ).concat(" µs p99"),
            ),
        );
    }
    let ghost third = second + loaded_row(*r, *s);
    assert(row_views(v@) =~= third);
    if r.idle_gaps.len() > 0 {
        v.push(
            (
                "RTT after ".to_owned().concat(join(&gap_texts(r), "/").as_str()).concat(
                    " ms idle",
                ),
                join(&value_texts(s), " / ").concat(" µs p50"),
            ),
        );
    }
    assert(row_views(v@) =~= third + gap_row(*r, *s));
    v
}

} // verus!
