use linkbench::batch::{row_begins, row_ends};
use linkbench::bench::{elapsed_ns, probe_sample, Plan, Results, Stage};
use linkbench::board::WorkerMsg;
use linkbench::links::{LinkPair, Mode};
use linkbench::measure::{reading, Figure, Reading};
use linkbench::orchestrate::{
    after_step, batch_failed, deploy_failed, deploy_log, step_status, tuning_log, Config, Step,
};
use linkbench::pane::{chart_title, has_timeline, hosts_title, tuning_note};
use linkbench::rdma::region::queue_pairs;
use linkbench::report::Rate;
use linkbench::run::{fits, record, tell, Noted, Run};
use linkbench::score::ScoreCard;
use linkbench::session::server_qps;
use linkbench::transport::{bucket_of, RecvTiming};

fn bits(x: f64) -> Reading {
    reading(x.to_bits())
}

fn figure(x: f64) -> Figure {
    Figure {
        value: bits(x),
        d0: format!("{x:.0}"),
        d1: format!("{x:.1}"),
        d2: format!("{x:.2}"),
    }
}

fn rate(bps: f64) -> Rate {
    Rate {
        bps: bits(bps),
        bits: bits(bps * 8.0),
        kilobytes: figure(bps / 1e3),
        megabytes: figure(bps / 1e6),
        gigabytes: figure(bps / 1e9),
        megabits: figure(bps * 8.0 / 1e6),
        gigabits: figure(bps * 8.0 / 1e9),
    }
}

fn begin(plan: Plan) -> Option<Run> {
    Run::begin(
        plan,
        "tcp".into(),
        "4 streams".into(),
        "m5".into(),
        "m6".into(),
        bits(1.0),
        "performance/performance C3:off".into(),
    )
}

/// Something of the kind that a stage measures.
fn sample(stage: Stage) -> Noted {
    match stage {
        Stage::Warm | Stage::RateProbe | Stage::Bye => Noted::Nothing,
        Stage::Calibrate | Stage::Sweep(_) => Noted::Rate(rate(2e9)),
        Stage::Bidir => Noted::Rate(rate(3e9)),
        Stage::BigReduce => Noted::Rate(rate(1.5e9)),
        Stage::Latency(i) => Noted::Latency {
            p50: figure(5.0 + i as f64),
            p99: figure(9.0),
            mean: figure(11.0),
        },
        Stage::SustainedUp => Noted::Sustained {
            rate: rate(2.5e9),
            timeline: vec![bits(1.0), bits(2.0)],
            steady: 2,
            temps_sys: vec![bits(50.0)],
            temps_nic: vec![],
        },
        Stage::SustainedDown => Noted::Sustained {
            rate: rate(2.25e9),
            timeline: vec![bits(3.0)],
            steady: 1,
            temps_sys: vec![bits(60.0)],
            temps_nic: vec![bits(70.0)],
        },
        Stage::Rate => Noted::Messages { per_s: bits(2e6), millions: figure(2.0) },
        Stage::SmallReduce => Noted::Sync { p50: figure(30.0), p99: figure(44.4) },
        Stage::KvBlock => Noted::Block(figure(12.345)),
        Stage::Loaded => Noted::Rtt { p50: figure(80.0), p99: figure(120.0), samples: 77 },
        Stage::IdleGap(i) => {
            Noted::Rtt { p50: figure(20.0 + i as f64), p99: figure(25.0), samples: 30 }
        }
    }
}

fn whole(plan: Plan) -> Results {
    let mut run = begin(plan).unwrap();
    while run.stage != Stage::Bye {
        let stage = run.stage;
        assert!(run.spec(100).is_some());
        let noted = sample(stage);
        assert!(fits(stage, &noted));
        run.note(noted);
    }
    assert_eq!(run.spec(100), None);
    let card = ScoreCard {
        name: "LinkBench2026".into(),
        score: bits(5.0),
        bandwidth_axis: bits(0.5),
        latency_axis: bits(0.5),
        penalties: vec![],
        skipped: vec![],
        hint: String::new(),
    };
    run.finish("powersave/- all-idle-on".into(), card)
}

#[test]
fn a_run_collects_what_its_stages_measure() {
    let r = whole(Plan { quick: false, max_msg: 128 << 20, lanes: 4 });
    assert_eq!(r.transport, "tcp");
    assert_eq!(r.server_host, "m6");
    let sizes: Vec<u64> = r.latency.iter().map(|l| l.size).collect();
    assert_eq!(sizes, [64, 8192, 16384, 131072]);
    assert_eq!(r.latency[3].oneway_p50_us, bits(8.0));
    assert_eq!(r.latency[0].rtt_mean_us, bits(11.0));
    let sizes: Vec<u64> = r.sweep.iter().map(|p| p.size).collect();
    assert_eq!(sizes, [4 << 10, 64 << 10, 1 << 20, 8 << 20, 32 << 20, 128 << 20]);
    assert_eq!(r.uni_c2s_bps, bits(2.5e9));
    assert_eq!(r.uni_s2c_bps, bits(2.25e9));
    assert_eq!(r.bidir_agg_bps, bits(3e9));
    assert_eq!(r.msg_rate_per_s, bits(2e6));
    assert_eq!(r.allreduce_16k_us, bits(30.0));
    assert_eq!(r.allreduce_1g_bps, bits(1.5e9));
    assert_eq!(r.kv32m_ms, bits(12.345));
    assert_eq!(r.timeline_bucket_ms, 200);
    assert_eq!((r.timeline_up_bps.len(), r.timeline_up_steady), (2, 2));
    assert_eq!((r.timeline_down_bps.len(), r.timeline_down_steady), (1, 1));
    assert_eq!(r.temps_b_sys, [bits(50.0)]);
    assert_eq!(r.temps_a_nic, [bits(70.0)]);
    let l = r.loaded_rtt.unwrap();
    assert_eq!((l.ping_size, l.p50_us, l.samples), (16384, bits(80.0), 77));
    let gaps: Vec<(u64, Reading)> = r.idle_gaps.iter().map(|g| (g.gap_ms, g.rtt_p50_us)).collect();
    assert_eq!(gaps, [(1, bits(20.0)), (10, bits(21.0)), (100, bits(22.0))]);
    assert_eq!(r.score.unwrap().score, bits(5.0));
    assert_eq!(r.tuning_a, "powersave/- all-idle-on");
    assert_eq!(r.tuning_b, "performance/performance C3:off");
}

#[test]
fn a_single_lane_is_not_loaded() {
    let r = whole(Plan { quick: true, max_msg: 100 << 10, lanes: 1 });
    assert!(r.loaded_rtt.is_none());
    let sizes: Vec<u64> = r.sweep.iter().map(|p| p.size).collect();
    assert_eq!(sizes, [4 << 10, 64 << 10]);
    assert!(begin(Plan { quick: true, max_msg: 0, lanes: 1 }).is_none());
}

#[test]
fn stages_tell_what_they_measured() {
    let plan = Plan { quick: false, max_msg: 128 << 20, lanes: 2 };
    let lone = Plan { lanes: 1, ..plan };
    let told = |plan: &Plan, stage: Stage| tell(plan, stage, &sample(stage));
    assert_eq!(told(&plan, Stage::Calibrate), ["~2.00 GB/s (16.0 Gb/s)"]);
    assert_eq!(told(&plan, Stage::Latency(1)), ["one-way p50 6.0 µs"]);
    assert_eq!(told(&plan, Stage::Sweep(0)), ["2.00 GB/s (16.0 Gb/s)"]);
    assert_eq!(told(&plan, Stage::SustainedUp), ["2.50 GB/s (20.0 Gb/s)"]);
    assert_eq!(told(&plan, Stage::Bidir), ["3.00 GB/s (24.0 Gb/s) aggregate"]);
    assert_eq!(told(&plan, Stage::Rate), ["2.00 M msg/s"]);
    assert_eq!(told(&plan, Stage::SmallReduce), ["30.0 µs p50 (44 µs p99)"]);
    assert_eq!(told(&plan, Stage::BigReduce), ["1.50 GB/s (12.0 Gb/s) effective"]);
    assert_eq!(told(&plan, Stage::KvBlock), ["12.35 ms/block"]);
    assert_eq!(
        told(&lone, Stage::KvBlock),
        ["12.35 ms/block", "  latency under load … skipped (needs ≥2 streams/QPs)"]
    );
    assert_eq!(told(&plan, Stage::Loaded), ["RTT p50 80 µs under full load"]);
    assert_eq!(told(&plan, Stage::IdleGap(2)), ["RTT p50 22 µs"]);
    assert!(told(&plan, Stage::Warm).is_empty());
    assert!(!fits(Stage::Bye, &Noted::Nothing));
    assert!(!fits(Stage::Sweep(0), &Noted::Nothing));
}

#[test]
fn a_stage_changes_only_what_it_measures() {
    let mut r = whole(Plan { quick: false, max_msg: 128 << 20, lanes: 4 });
    record(&mut r, Stage::Bidir, Noted::Rate(rate(9e9)));
    assert_eq!(r.bidir_agg_bps, bits(9e9));
    assert_eq!(r.uni_c2s_bps, bits(2.5e9));
    record(&mut r, Stage::Calibrate, Noted::Rate(rate(1.0)));
    assert_eq!(r.bidir_agg_bps, bits(9e9));
}

#[test]
fn the_rate_probe_trusts_the_server_first() {
    assert_eq!(probe_sample(500, 2560, 256, 20_000, 900), (10, 500));
    assert_eq!(probe_sample(0, 2560, 256, 20_000, 900), (20_000, 900));
}

#[test]
fn steps_are_logged() {
    let mut cfg = Config::initial("/opt/linkbench".into());
    cfg.tune_profile = "balanced".into();
    assert_eq!((cfg.port, cfg.streams, cfg.qps, cfg.region_mb), (7842, 4, 4, 128));
    assert_eq!((cfg.transport.as_str(), cfg.duration.as_str()), ("auto", "1"));
    assert!(cfg.b_ssh && !cfg.a_ssh && cfg.deploy && !cfg.quick);
    let status = |s: Step| step_status(&cfg, &s);
    assert_eq!(status(Step::Deploy("d@m6".into())), Some("deploying binary to d@m6…".into()));
    assert_eq!(
        status(Step::Tune { node_b: false }),
        Some("applying cpu tuning profile balanced…".into())
    );
    assert_eq!(status(Step::Tune { node_b: true }), None);
    assert_eq!(status(Step::Serve), Some("starting server on node B…".into()));
    assert_eq!(status(Step::Run), Some("running benchmark…".into()));
    assert_eq!(deploy_log(&cfg, "d@m6"), "scp /opt/linkbench d@m6:~/linkbench");
    assert_eq!(deploy_failed("d@m6", "no route"), "deploy to d@m6 failed: no route");
    assert_eq!(
        tuning_log(false, &Ok("cpus: 8\nsummary: performance\n".into())),
        Some("node A tuning: summary: performance".into())
    );
    assert_eq!(tuning_log(true, &Ok(String::new())), None);
    assert_eq!(
        tuning_log(true, &Err("denied".into())),
        Some("node B tuning FAILED (needs passwordless sudo): denied".into())
    );
    let failed = || Err("no route".to_string());
    assert_eq!(
        after_step(&Step::Deploy("d@m6".into()), failed()),
        Err("deploy to d@m6 failed: no route".into())
    );
    assert_eq!(after_step(&Step::Tune { node_b: true }, failed()), Ok(()));
    assert_eq!(after_step(&Step::Serve, failed()), Err("no route".into()));
    assert_eq!(after_step(&Step::Run, failed()), Err("no route".into()));
    assert_eq!(after_step(&Step::Serve, Ok(())), Ok(()));
    let link = connectx();
    assert_eq!(batch_failed(&link, Mode::Rdma, "gone"), "link connectx 100G · rdma FAILED: gone");
}

fn connectx() -> LinkPair {
    LinkPair {
        kind: "connectx".into(),
        kind_label: "connectx 100G".into(),
        a_desc: String::new(),
        b_desc: String::new(),
        detail: String::new(),
        b_addr: None,
        rdma: true,
        a_iface: String::new(),
        b_iface: String::new(),
        softroce_offerable: false,
        b_mac: String::new(),
        rtt_ms: None,
    }
}

#[test]
fn panes_have_headings() {
    let mut r = whole(Plan { quick: false, max_msg: 128 << 20, lanes: 4 });
    assert_eq!(hosts_title(&r), "m5 – m6");
    assert_eq!(chart_title(&r, true), "up · m5 to m6");
    assert_eq!(chart_title(&r, false), "down · m6 to m5");
    assert!(has_timeline(&r));
    assert_eq!(
        tuning_note(&r),
        Some("cpu tuning   A: powersave/- all-idle-on   B: performance/performance C3:off".into())
    );
    r.tuning_a.clear();
    r.tuning_b.clear();
    r.timeline_up_bps.clear();
    assert_eq!(tuning_note(&r), None);
    assert!(has_timeline(&r));
    r.timeline_down_bps.clear();
    assert!(!has_timeline(&r));
}

#[test]
fn servers_make_as_many_queue_pairs_as_clients() {
    for asked in [0usize, 1, 4, 64, 65, 1000] {
        let client = queue_pairs(asked);
        assert_eq!(queue_pairs(server_qps(client)), client);
    }
}

#[test]
fn clocks_need_not_agree() {
    let here = RecvTiming { first: 1_000, last: 8_500, count: 3 };
    let there = RecvTiming { first: 901_000, last: 908_500, count: 3 };
    assert_eq!(elapsed_ns(&here), 7_500);
    assert_eq!(elapsed_ns(&there), 7_500);
    assert_eq!(bucket_of(8_500, 500, 1_000), 8);
    assert_eq!(bucket_of(908_500, 900_500, 1_000), 8);
}

fn told(m: &WorkerMsg) -> String {
    match m {
        WorkerMsg::Log(s) => format!("log {s}"),
        WorkerMsg::Status(s) => format!("status {s}"),
        WorkerMsg::BatchItem { label, results } => format!("item {label} {}", results.transport),
        WorkerMsg::BatchDone => "complete".into(),
        _ => "other".into(),
    }
}

/// What a batch reports whose tests succeed or fail as said; a stop is asked for
/// before the row `stop`.
fn batch(outcomes: &[bool], stop: usize) -> Vec<String> {
    let rows: Vec<(LinkPair, Mode)> = outcomes.iter().map(|_| (connectx(), Mode::Tcp)).collect();
    let mut all = Vec::new();
    let mut i = 0;
    loop {
        let (messages, row) = row_begins(&rows, i, i >= stop);
        all.extend(messages.iter().map(told));
        let Some(row) = row else { return all };
        let outcome = if outcomes[row] {
            Ok(whole(Plan { quick: true, max_msg: 100 << 10, lanes: 1 }))
        } else {
            Err("gone".to_string())
        };
        let (message, next) = row_ends(&rows, row, outcome);
        all.push(told(&message));
        i = next;
    }
}

#[test]
fn batches_report_every_row() {
    assert_eq!(
        batch(&[true, false, true], 9),
        [
            "status testing connectx 100G · tcp (1 of 3)…",
            "item connectx 100G · tcp tcp",
            "status testing connectx 100G · tcp (2 of 3)…",
            "log link connectx 100G · tcp FAILED: gone",
            "status testing connectx 100G · tcp (3 of 3)…",
            "item connectx 100G · tcp tcp",
            "complete",
        ]
    );
    assert_eq!(batch(&[], 0), ["complete"]);
    let stopped = batch(&[true, true], 1);
    assert_eq!(stopped[2..], ["log batch stopped", "complete"]);
}
