use linkbench::bench::{BwPoint, IdleGap, LatencyPoint, LoadedRtt, Results};
use linkbench::board::hop16;
use linkbench::measure::{reading, Figure, Reading};
use linkbench::page::{render, report, BarRow, LatencyRow, Sheet, Style, TempRow, TimelineRow};
use linkbench::pane::{axes_note, grade_word, score_note, tiles, workload_rows};
use linkbench::report::{
    fmt_bits, fmt_bytes, fmt_rate, fmt_size, hop_reading, latency_near, max_temp, temp_span,
    timeline_stats, verdicts, wake_pair, Figures, Grade, Rate, BLOAT_POOR_X, FIVE_GIGA, FOUR_GIGA,
    GIGA, GIGABIT, MEGA, N10, N150, N20, N3, N30, N40, N50, N80, N92, WAKEUP_POOR_US,
};
use linkbench::score::{assess, compute, hint, Axes, Penalty};

fn bits(x: f64) -> Reading {
    reading(x.to_bits())
}

fn figure(x: f64) -> Figure {
    Figure {
        value: bits(x),
        d0: format!("{x:.0}"),
        d1: format!("{x:.1}"),
        d2: format!("{x:.2}"),
    }
}

fn rate(bps: f64) -> Rate {
    let b = bps * 8.0;
    Rate {
        bps: bits(bps),
        bits: bits(b),
        kilobytes: figure(bps / 1e3),
        megabytes: figure(bps / 1e6),
        gigabytes: figure(bps / 1e9),
        megabits: figure(b / 1e6),
        gigabits: figure(b / 1e9),
    }
}

fn series(v: &[f64]) -> Vec<Reading> {
    v.iter().map(|x| bits(*x)).collect()
}

fn run() -> Results {
    Results {
        transport: "rdma".into(),
        path: "device mlx5_0".into(),
        client_host: "m5".into(),
        server_host: "m6".into(),
        duration_target_s: bits(1.0),
        latency: [(64, 2.0), (8192, 4.0), (16384, 5.0), (131072, 20.0)]
            .iter()
            .map(|(s, t)| LatencyPoint {
                size: *s,
                oneway_p50_us: bits(*t),
                oneway_p99_us: bits(t * 2.0),
                rtt_mean_us: bits(t * 2.1),
            })
            .collect(),
        sweep: vec![BwPoint { size: 4096, bps: bits(1e9) }, BwPoint { size: 1 << 20, bps: bits(6.93e9) }],
        uni_c2s_bps: bits(6.93e9),
        uni_s2c_bps: bits(6.5e9),
        bidir_agg_bps: bits(12e9),
        msg_rate_per_s: bits(3.21e6),
        allreduce_16k_us: bits(14.6),
        allreduce_1g_bps: bits(5e9),
        kv32m_ms: bits(5.0),
        timeline_bucket_ms: 200,
        timeline_up_bps: series(&[1e9, 6.9e9, 7.0e9, 6.8e9, 6.9e9, 7.1e9, 6.9e9, 3e9]),
        timeline_down_bps: series(&[1e9, 6.5e9, 6.5e9, 6.4e9, 6.6e9, 6.5e9, 6.5e9, 6.5e9]),
        timeline_up_steady: 7,
        timeline_down_steady: 0,
        temps_b_sys: series(&[50.0, 61.0]),
        temps_b_nic: series(&[55.0]),
        temps_a_sys: series(&[48.0, 70.0, 66.0]),
        temps_a_nic: vec![],
        loaded_rtt: Some(LoadedRtt { ping_size: 16384, p50_us: bits(25.0), p99_us: bits(40.0), samples: 100 }),
        idle_gaps: [(1, 12.0), (10, 20.0), (100, 45.0)]
            .iter()
            .map(|(g, t)| IdleGap { gap_ms: *g, rtt_p50_us: bits(*t), rtt_p99_us: bits(t * 2.0) })
            .collect(),
        score: None,
        tuning_a: "performance/performance C3:off".into(),
        tuning_b: String::new(),
    }
}

fn figures(dip: f64, inflation: f64, wake: f64) -> Figures {
    Figures {
        seven_b: figure(14e9 / 6.93e9),
        seventy_b: figure(140e9 / 6.93e9),
        hop: figure(5.0),
        sync: figure(14.6),
        syncs_k: figure(1e6 / 14.6 / 1000.0),
        grads: figure(0.4),
        dip: figure(dip),
        inflation: figure(inflation),
        wake: figure(wake),
        heat: figure(70.0),
        kv: figure(5.0),
    }
}

#[test]
fn thresholds_are_the_numbers_they_are_called_after() {
    let all = [
        (N3, 3.0),
        (N10, 10.0),
        (BLOAT_POOR_X, 10.0),
        (N20, 20.0),
        (N30, 30.0),
        (N40, 40.0),
        (N50, 50.0),
        (N80, 80.0),
        (N92, 92.0),
        (N150, 150.0),
        (WAKEUP_POOR_US, 200.0),
        (MEGA, 1e6),
        (GIGABIT, 125e6),
        (GIGA, 1e9),
        (FOUR_GIGA, 4e9),
        (FIVE_GIGA, 5e9),
    ];
    for (b, x) in all {
        assert_eq!(f64::from_bits(b), x);
    }
}

#[test]
fn sizes_and_rates_are_written() {
    assert_eq!(fmt_size(64), "64 B");
    assert_eq!(fmt_size(1023), "1023 B");
    assert_eq!(fmt_size(1024), "1 KiB");
    assert_eq!(fmt_size(1 << 20), "1 MiB");
    assert_eq!(fmt_size((128 << 20) + 5), "128 MiB");
    assert_eq!(fmt_rate(&rate(6.93e9)), "6.93 GB/s (55.4 Gb/s)");
    assert_eq!(fmt_rate(&rate(125e6)), "125 MB/s (1.00 Gb/s)");
    assert_eq!(fmt_rate(&rate(124e6)), "124.0 MB/s (992 Mb/s)");
    assert_eq!(fmt_rate(&rate(999e3)), "999 kB/s");
    assert_eq!(fmt_bits(&rate(6.93e9)), "55.4 Gb/s");
    assert_eq!(fmt_bits(&rate(1e6)), "8 Mb/s");
    assert_eq!(fmt_bytes(&rate(1e9)), "1.00 GB");
    assert_eq!(fmt_bytes(&rate(1.5e6)), "1.5 MB");
    assert_eq!(fmt_bytes(&rate(1e3)), "1 kB");
}

#[test]
fn timelines_are_summarized_over_their_steady_part() {
    let r = run();
    let up = timeline_stats(&r.timeline_up_bps, r.timeline_up_steady).unwrap();
    assert_eq!(f64::from_bits(up.median.bits), 6.9e9);
    assert_eq!(f64::from_bits(up.min.bits), 6.8e9);
    assert_eq!(up.stalls, 0);
    let down = timeline_stats(&r.timeline_down_bps, 0).unwrap();
    assert_eq!(f64::from_bits(down.min.bits), 6.4e9);
    assert!(timeline_stats(&series(&[1.0, 2.0, 3.0, 4.0, 5.0]), 0).is_none());
    assert!(timeline_stats(&series(&[1.0, 2.0, 3.0, 4.0, 5.0, 6.0]), 0).is_some());
    assert!(timeline_stats(&series(&[0.0; 9]), 9).is_none());
    let s = timeline_stats(&series(&[9.0, 10.0, 4.9, 10.0, 5.0, 10.0, 0.0]), 7).unwrap();
    assert_eq!(s.stalls, 2);
    let long: Vec<f64> = (0..61).map(|i| 100.0 + i as f64).collect();
    let s = timeline_stats(&series(&long), 61).unwrap();
    assert_eq!(f64::from_bits(s.p5.bits), 104.0);
    assert_eq!(f64::from_bits(s.median.bits), 131.0);
}

#[test]
fn low_percentile_index_is_a_twentieth() {
    for n in 0..100_000usize {
        assert_eq!(n / 20, (n as f64 * 0.05) as usize, "{n}");
    }
}

#[test]
fn samples_are_selected() {
    let mut r = run();
    assert_eq!(latency_near(&r, 16384), Some(2));
    assert_eq!(latency_near(&r, 12288), Some(1));
    assert_eq!(latency_near(&r, u64::MAX), Some(3));
    assert_eq!(f64::from_bits(hop_reading(&r).bits), 5.0);
    assert_eq!(hop16(&r).map(|x| f64::from_bits(x.bits)), Some(5.0));
    assert_eq!(wake_pair(&r), Some((0, 2)));
    assert_eq!(max_temp(&r).map(|x| f64::from_bits(x.bits)), Some(70.0));
    let span = temp_span(&r.temps_a_sys).unwrap();
    assert_eq!((f64::from_bits(span.0.bits), f64::from_bits(span.1.bits)), (48.0, 70.0));
    assert!(temp_span(&r.temps_a_nic).is_none());
    let odd = temp_span(&series(&[f64::NAN, f64::NEG_INFINITY])).unwrap();
    assert!(odd.0.is_nan());
    assert_eq!(odd.1, bits(f32::MIN as f64));
    r.latency.clear();
    r.idle_gaps.pop();
    assert_eq!(latency_near(&r, 1), None);
    assert!(hop_reading(&r).is_nan());
    assert_eq!(wake_pair(&r), None);
    assert!(hop16(&r).is_none());
}

fn levels(v: &[(String, Grade)]) -> Vec<(String, &'static str)> {
    v.iter().map(|(n, g)| (n.split(' ').next().unwrap().to_string(), grade_word(g))).collect()
}

#[test]
fn a_good_link_gets_good_verdicts() {
    let v = verdicts(&run(), &figures(2.0, 2.5, 33.0));
    let want = [
        "model", "pipeline-parallel", "tensor-parallel", "data-parallel", "sustained", "latency",
        "wake-up", "thermals", "KV-cache",
    ];
    assert_eq!(levels(&v), want.iter().map(|w| (w.to_string(), "good")).collect::<Vec<_>>());
    let texts: Vec<&str> = v
        .iter()
        .map(|(_, g)| match g {
            Grade::Good(t) | Grade::Fair(t) | Grade::Poor(t) => t.as_str(),
        })
        .collect();
    assert_eq!(texts[0], "7B fp16 in 2.0 s, 70B in 20 s");
    assert_eq!(texts[1], "+5 µs/token/hop — negligible vs typical 10–50 ms/token");
    assert_eq!(texts[2], "15 µs/sync → ~68k syncs/s; TP2 across nodes is viable");
    assert_eq!(texts[4], "steady — worst dip −2% from median");
    assert_eq!(texts[5], "×2.5 inflation — fine to serve during transfers");
    assert_eq!(texts[7], "max 70°C");
}

#[test]
fn a_poor_link_gets_poor_verdicts() {
    let mut r = run();
    r.uni_c2s_bps = bits(1e9);
    r.uni_s2c_bps = bits(0.5e9);
    r.allreduce_16k_us = bits(150.0);
    r.allreduce_1g_bps = bits(1e9);
    r.kv32m_ms = bits(50.0);
    r.latency.clear();
    r.temps_b_nic.push(bits(92.0));
    let v = verdicts(&r, &figures(50.0, 10.0, 200.0));
    assert!(levels(&v).iter().all(|(_, w)| *w == "poor"), "{:?}", levels(&v));
    r.uni_c2s_bps = bits(5e9);
    r.allreduce_16k_us = bits(40.0);
    r.allreduce_1g_bps = bits(4e9);
    r.kv32m_ms = bits(10.0);
    r.latency = run().latency;
    r.latency[2].oneway_p50_us = bits(30.0);
    r.temps_b_nic = series(&[80.0]);
    let v = verdicts(&r, &figures(20.0, 3.0, 40.0));
    assert!(levels(&v).iter().all(|(_, w)| *w == "fair"), "{:?}", levels(&v));
}

#[test]
fn what_was_not_measured_is_not_judged() {
    let mut r = run();
    r.timeline_up_bps.clear();
    r.timeline_down_bps.clear();
    r.loaded_rtt = None;
    r.idle_gaps.clear();
    r.temps_a_sys.clear();
    r.temps_b_sys.clear();
    r.temps_b_nic.clear();
    let v = verdicts(&r, &figures(0.0, 0.0, 0.0));
    assert_eq!(v.len(), 5);
    let a = assess(&r, &figures(99.0, 99.0, 999.0));
    assert!(a.penalties.is_empty());
    assert_eq!(
        a.skipped,
        vec![
            "sustained-throughput stability (timeline too short)",
            "latency under load (needs ≥2 QPs/streams)",
        ]
    );
}

#[test]
fn the_score_penalizes_exactly_what_reads_poor() {
    let r = run();
    for dip in [0.0, 49.9, 50.0, 80.0] {
        for inflation in [1.0, 9.99, 10.0, 10.01] {
            for wake in [0.0, 199.9, 200.0, 250.0] {
                let f = figures(dip, inflation, wake);
                let v = levels(&verdicts(&r, &f));
                let poor = |name: &str| v.iter().any(|(n, w)| n == name && *w == "poor");
                let a = assess(&r, &f);
                assert_eq!(a.penalties.contains(&Penalty::Stalls), poor("sustained"));
                assert_eq!(a.penalties.contains(&Penalty::Bufferbloat), poor("latency"));
                assert_eq!(a.penalties.contains(&Penalty::WakeupLag), poor("wake-up"));
                assert!(a.skipped.is_empty());
            }
        }
    }
}

#[test]
fn penalties_and_cards() {
    let all = [
        (Penalty::Stalls, 85, "sustained-throughput stalls (−15%)"),
        (Penalty::Bufferbloat, 90, "bufferbloat under load (−10%)"),
        (Penalty::WakeupLag, 95, "after-idle wake-up lag (−5%)"),
    ];
    for (p, kept, text) in all {
        assert_eq!((p.kept_percent(), p.text().as_str()), (kept, text));
    }
    let axes = |bw: f64, lat: f64| Axes {
        bandwidth: bits(bw),
        latency: bits(lat),
        bandwidth_and_margin: bits(bw + 0.15),
        latency_and_margin: bits(lat + 0.15),
    };
    assert!(hint(&axes(0.8, 0.3)).starts_with("latency-bound"));
    assert!(hint(&axes(0.3, 0.8)).starts_with("bandwidth-bound"));
    assert!(hint(&axes(0.5, 0.6)).starts_with("balanced"));
    let card = compute(assess(&run(), &figures(0.0, 20.0, 300.0)), axes(0.5, 0.6), bits(5.5));
    assert_eq!(card.name, "LinkBench2026");
    assert_eq!(f64::from_bits(card.score.bits), 5.5);
    assert_eq!(
        card.penalties,
        vec!["bufferbloat under load (−10%)", "after-idle wake-up lag (−5%)"]
    );
    assert_eq!(
        score_note(&card),
        "1.0 = two nodes on 2.5GbE · 10.0 = NVLink-bridged flagship pair\nbalanced: bandwidth and latency limit this link about equally\npenalties: bufferbloat under load (−10%), after-idle wake-up lag (−5%)"
    );
}

fn sheet(r: &Results) -> Sheet {
    let row = |blocks: usize, bps: f64| BarRow { blocks, rate: rate(bps) };
    let timeline = |median: f64| TimelineRow {
        spark: "▁▇█".into(),
        median: rate(median),
        dip: figure(2.0),
        wind_down: figure(1.6),
    };
    Sheet {
        figures: figures(2.0, 2.5, 33.0),
        score: figure(6.04),
        bandwidth: figure(4.5),
        latency: figure(8.1),
        latency_rows: r
            .latency
            .iter()
            .map(|l| LatencyRow {
                p50: figure(f64::from_bits(l.oneway_p50_us.bits)),
                p99: figure(f64::from_bits(l.oneway_p99_us.bits)),
                mean: figure(f64::from_bits(l.rtt_mean_us.bits)),
            })
            .collect(),
        up: rate(6.93e9),
        down: rate(6.5e9),
        bidir: rate(12e9),
        messages: figure(3.21),
        sweep: vec![row(4, 1e9), row(30, 6.93e9)],
        sustained_s: figure(1.6),
        timeline_up: timeline(6.9e9),
        timeline_down: timeline(6.5e9),
        temps_a: Some(TempRow { from: figure(48.0), max: figure(70.0), nic: None }),
        temps_b: Some(TempRow { from: figure(50.0), max: figure(61.0), nic: Some(figure(55.0)) }),
        loaded_p50: figure(25.0),
        loaded_p99: figure(40.0),
        idle_rtt: figure(10.0),
        idle_inflation: figure(2.5),
        gaps: vec![figure(12.0), figure(20.0), figure(45.0)],
        hop16: figure(5.0),
        allreduce: rate(5e9),
        bulk: rate(6.93e9),
        context: (0..6).map(|i| row(i, 1e9 * (i + 1) as f64)).collect(),
    }
}

#[test]
fn the_report_is_the_page_on_its_own_findings() {
    let mut r = run();
    let s = sheet(&r);
    let axes = || Axes {
        bandwidth: bits(0.4),
        latency: bits(0.8),
        bandwidth_and_margin: bits(0.55),
        latency_and_margin: bits(0.95),
    };
    let card = |score: f64, r: &Results| compute(assess(r, &s.figures), axes(), bits(score));
    let up = timeline_stats(&r.timeline_up_bps, r.timeline_up_steady);
    let down = timeline_stats(&r.timeline_down_bps, r.timeline_down_steady);
    let list = verdicts(&r, &s.figures);
    let style = Style::new(false, false);
    let computed = card(6.04, &r);
    let page = render(&r, &computed, &s, &style, &up, &down, &list);
    r.score = None;
    assert_eq!(report(&r, &computed, &s, &style), page);
    r.score = Some(card(6.04, &r));
    assert_eq!(report(&r, &card(9.0, &r), &s, &style), page);
}

#[test]
fn statistics_do_not_depend_on_the_order_of_buckets() {
    let a = series(&[9.0, 10.0, 4.9, 10.0, 5.0, 10.0, 0.5, 100.0]);
    let b = series(&[1.0, 0.5, 10.0, 5.0, 4.9, 10.0, 10.0, 200.0]);
    let (s, t) = (timeline_stats(&a, 7).unwrap(), timeline_stats(&b, 7).unwrap());
    assert_eq!((s.median, s.p5, s.min, s.stalls), (t.median, t.p5, t.min, t.stalls));
    assert_eq!((s.median, s.min, s.stalls), (bits(10.0), bits(0.5), 2));
}

#[test]
fn the_page_is_rendered_line_by_line() {
    let r = run();
    let f = figures(2.0, 2.5, 33.0);
    let axes = Axes {
        bandwidth: bits(0.4),
        latency: bits(0.8),
        bandwidth_and_margin: bits(0.55),
        latency_and_margin: bits(0.95),
    };
    let card = compute(assess(&r, &f), axes, bits(6.04));
    let up = timeline_stats(&r.timeline_up_bps, r.timeline_up_steady);
    let down = timeline_stats(&r.timeline_down_bps, r.timeline_down_steady);
    let list = verdicts(&r, &f);
    let lines = render(&r, &card, &sheet(&r), &Style::new(false, false), &up, &down, &list);
    let want = [
        "",
        "linkbench  m5 ⇄ m6",
        "──────────────────────────────────────────────────────────────────────────────",
        "  transport rdma   device mlx5_0",
        "  cpu tuning   A: performance/performance C3:off   B: ",
        "",
        "  LINKBENCH2026 SCORE   6.0 / 10   bandwidth 4.5 · latency 8.1",
        "  bandwidth-bound: a faster link or more lanes raises this most",
        "",
        "  MICROBENCHMARKS",
        "    one-way latency                  p50           p99      RTT mean",
        "    64 B                          2.0 µs        4.0 µs        4.2 µs",
        "    8 KiB                         4.0 µs        8.0 µs        8.4 µs",
        "    16 KiB                        5.0 µs       10.0 µs       10.5 µs",
        "    128 KiB                      20.0 µs       40.0 µs       42.0 µs",
        "",
        "    throughput   up 6.93 GB/s (55.4 Gb/s)   down 6.50 GB/s (52.0 Gb/s)",
        "                 bidir 12.00 GB/s (96.0 Gb/s)   3.21 M msg/s",
        "",
        "       4 KiB  ▮▮▮▮ 1.00 GB/s (8.0 Gb/s)",
        "       1 MiB  ▮▮▮▮▮▮▮▮▮▮▮▮▮▮▮▮▮▮▮▮▮▮▮▮▮▮▮▮▮▮ 6.93 GB/s (55.4 Gb/s)",
        "",
        "  SUSTAINED  (2 s, 200 ms buckets)",
        "    up    ▁▇█ 6.90 GB/s (55.2 Gb/s)  dip −2%",
        "    down  ▁▇█ 6.50 GB/s (52.0 Gb/s)  dip −2%  (lane skew: 1.6 s wind-down)",
        "    temps A sys 48→70°C   B sys 50→61°C nic 55°C",
        "",
        "  UNDER PRESSURE",
        "    16 KiB RTT during full-rate transfer   25 µs p50 / 40 µs p99  (idle 10 µs → ×2.5)",
        "    16 KiB RTT after 1/10/100 ms idle      12 / 20 / 45 µs p50",
        "",
        "  ML SCENARIOS",
        "    activation hop, 16 KiB (pipeline parallel)       5.0 µs one-way",
        "    per-token all-reduce, 16 KiB (tensor parallel)   14.6 µs",
        "    gradient all-reduce, 1 GiB (data parallel)       5.00 GB/s (40.0 Gb/s) effective",
        "    KV-cache block, 32 MiB                           5.00 ms",
        "    weight streaming (sustained one-way)             6.93 GB/s (55.4 Gb/s)",
        "",
        "  CONTEXT  (big-message bandwidth, log scale)",
        "    this link          █ 1.00 GB/s (8.0 Gb/s)",
        "    10 GbE             █ 2.00 GB/s (16.0 Gb/s)",
        "    TB4/USB4           ██ 3.00 GB/s (24.0 Gb/s)",
        "    100 GbE line rate  ███ 4.00 GB/s (32.0 Gb/s)",
        "    PCIe 4.0 x16       ████ 5.00 GB/s (40.0 Gb/s)",
        "    NVLink 4           █████ 6.00 GB/s (48.0 Gb/s)",
        "",
        "  VERDICT",
        "    ✓ model movement (shards, checkpoints, weights)  7B fp16 in 2.0 s, 70B in 20 s",
    ];
    for (i, w) in want.iter().enumerate() {
        assert_eq!(lines[i], *w, "line {i}");
    }
    assert_eq!(lines.len(), want.len() + 8 + 2);
    assert_eq!(lines.last().unwrap(), "");
}

#[test]
fn colours_are_used_on_terminals_only() {
    assert!(Style::new(true, false).on);
    assert!(!Style::new(true, true).on);
    assert_eq!(Style { on: true }.bold("x"), "\x1b[1mx\x1b[0m");
    assert_eq!(Style { on: false }.bad("x"), "x");
    assert_eq!(Style { on: true }.cyan(""), "\x1b[36m\x1b[0m");
}

#[test]
fn the_pane_shows_tiles_and_workloads() {
    let r = run();
    let s = sheet(&r);
    let t: Vec<(String, Option<String>, String)> =
        tiles(&r, &s).into_iter().map(|t| (t.value, t.sub, t.label)).collect();
    assert_eq!(t.len(), 5);
    assert_eq!(t[0], ("55.4 Gb/s".into(), Some("6.93 GB/s".into()), "up (A to B)".into()));
    assert_eq!(t[3], ("2.0 µs".into(), None, "one-way latency (64 B)".into()));
    assert_eq!(t[4], ("3.21 M/s".into(), None, "message rate".into()));
    assert_eq!(axes_note(&s), "bw 4.5 · lat 8.1");
    let rows = workload_rows(&r, &s);
    assert_eq!(rows.len(), 7);
    assert_eq!(rows[6].0, "RTT after 1/10/100 ms idle");
    assert_eq!(rows[6].1, "12 / 20 / 45 µs p50");
    assert_eq!(rows[5].1, "25 µs p50 · 40 µs p99");
}
