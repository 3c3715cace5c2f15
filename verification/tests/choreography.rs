use linkbench::bench::{
    done_moved, percentile, reduce_step, steady_bytes, sum, summarize, timing_moved, Moved, Plan,
    ReduceStep, Stage,
};
use linkbench::proto::TestSpec;
use linkbench::transport::RecvTiming;

fn full() -> Plan {
    Plan { quick: false, max_msg: 128 << 20, lanes: 4 }
}

fn stages(plan: &Plan) -> Vec<Stage> {
    let mut all = vec![Stage::Warm];
    while *all.last().unwrap() != Stage::Bye {
        all.push(plan.next_stage(*all.last().unwrap()));
    }
    all
}

#[test]
fn a_full_run_goes_through_all_stages() {
    let all = stages(&full());
    let want = vec![
        Stage::Warm,
        Stage::Calibrate,
        Stage::Latency(0),
        Stage::Latency(1),
        Stage::Latency(2),
        Stage::Latency(3),
        Stage::Sweep(0),
        Stage::Sweep(1),
        Stage::Sweep(2),
        Stage::Sweep(3),
        Stage::Sweep(4),
        Stage::Sweep(5),
        Stage::SustainedUp,
        Stage::SustainedDown,
        Stage::Bidir,
        Stage::RateProbe,
        Stage::Rate,
        Stage::SmallReduce,
        Stage::BigReduce,
        Stage::KvBlock,
        Stage::Loaded,
        Stage::IdleGap(0),
        Stage::IdleGap(1),
        Stage::IdleGap(2),
        Stage::Bye,
    ];
    assert_eq!(all, want);
}

#[test]
fn a_small_plane_skips_what_does_not_fit() {
    let plan = Plan { quick: true, max_msg: 1 << 20, lanes: 1 };
    let all = stages(&plan);
    assert!(all.contains(&Stage::Sweep(2)));
    assert!(!all.contains(&Stage::Sweep(3)));
    assert!(!all.contains(&Stage::Loaded));
    assert_eq!(all.last(), Some(&Stage::Bye));
    assert_eq!(plan.big_msg(), 1 << 20);
}

#[test]
fn stages_ask_for_their_tests() {
    let p = full();
    assert_eq!(p.stage_spec(Stage::Warm, 0), Some(TestSpec::C2S { size: 1 << 20, count: 64 }));
    assert_eq!(
        p.stage_spec(Stage::Calibrate, 0),
        Some(TestSpec::C2S { size: 1 << 20, count: 256 })
    );
    assert_eq!(
        p.stage_spec(Stage::Latency(3), 0),
        Some(TestSpec::PingEcho { size: 128 << 10, iters: 1100 })
    );
    assert_eq!(p.warmup(Stage::Latency(3)), 100);
    assert_eq!(
        p.stage_spec(Stage::Sweep(0), 1 << 40),
        Some(TestSpec::C2S { size: 4096, count: 250_000 })
    );
    assert_eq!(p.stage_spec(Stage::Sweep(5), 3), Some(TestSpec::C2S { size: 128 << 20, count: 16 }));
    assert_eq!(
        p.stage_spec(Stage::SustainedUp, 5),
        Some(TestSpec::C2STimeline { size: 8 << 20, count: 32, bucket_ms: 200 })
    );
    assert_eq!(
        p.stage_spec(Stage::SustainedDown, 500),
        Some(TestSpec::S2C { size: 8 << 20, count: 500 })
    );
    assert_eq!(
        p.stage_spec(Stage::Bidir, 1_000_000),
        Some(TestSpec::Bidir { size: 8 << 20, count: 100_000 })
    );
    assert_eq!(p.stage_spec(Stage::Bidir, 20), Some(TestSpec::Bidir { size: 8 << 20, count: 32 }));
    assert_eq!(
        p.stage_spec(Stage::RateProbe, 0),
        Some(TestSpec::C2S { size: 256, count: 20_000 })
    );
    assert_eq!(
        p.stage_spec(Stage::Rate, 9_000_000),
        Some(TestSpec::C2S { size: 256, count: 3_000_000 })
    );
    assert_eq!(
        p.stage_spec(Stage::SmallReduce, 0),
        Some(TestSpec::Reduce { chunk: 8192, chunks: 1, rounds: 1000 })
    );
    assert_eq!(
        p.stage_spec(Stage::BigReduce, 0),
        Some(TestSpec::Reduce { chunk: 16 << 20, chunks: 32, rounds: 2 })
    );
    assert_eq!(
        p.stage_spec(Stage::KvBlock, 9000),
        Some(TestSpec::C2S { size: 32 << 20, count: 4096 })
    );
    assert_eq!(
        p.stage_spec(Stage::Loaded, 3),
        Some(TestSpec::LoadedPing { ping_size: 16 << 10, bulk_size: 8 << 20, bulk_count: 16 })
    );
    let gaps: Vec<Option<TestSpec>> = (0..3).map(|i| p.stage_spec(Stage::IdleGap(i), 0)).collect();
    assert_eq!(
        gaps,
        vec![
            Some(TestSpec::PingEcho { size: 16 << 10, iters: 122 }),
            Some(TestSpec::PingEcho { size: 16 << 10, iters: 122 }),
            Some(TestSpec::PingEcho { size: 16 << 10, iters: 32 }),
        ]
    );
    assert_eq!(p.stage_spec(Stage::Bye, 0), None);
}

#[test]
fn quick_runs_are_shorter() {
    let p = Plan { quick: true, ..full() };
    assert_eq!((p.ping_iters(), p.scale_percent(), p.sustain_s(), p.loaded_ms()), (300, 35, 3, 1500));
    assert_eq!(
        p.stage_spec(Stage::IdleGap(2), 0),
        Some(TestSpec::PingEcho { size: 16 << 10, iters: 10 })
    );
    assert_eq!(p.warmup(Stage::IdleGap(2)), 2);
    let q = full();
    assert_eq!((q.ping_iters(), q.scale_percent(), q.sustain_s(), q.loaded_ms()), (1000, 100, 8, 3000));
}

#[test]
fn stages_are_announced() {
    let p = full();
    assert_eq!(p.announce(Stage::Warm), "  calibrating … ");
    assert_eq!(p.announce(Stage::Latency(1)), "  latency   8 KiB … ");
    assert_eq!(p.announce(Stage::Sweep(5)), "  bandwidth 128 MiB … ");
    assert_eq!(p.announce(Stage::SustainedUp), "  sustained up (c→s, 8 s) … ");
    assert_eq!(p.announce(Stage::IdleGap(1)), "  after  10 ms idle … ");
    assert_eq!(p.announce(Stage::Rate), "");
}

#[test]
fn percentiles_round_to_the_nearest_sample() {
    let v: Vec<u64> = (0..101).collect();
    assert_eq!(percentile(&v, 50), 50);
    assert_eq!(percentile(&v, 99), 99);
    assert_eq!(percentile(&[], 50), 0);
    for n in 1..400usize {
        let v: Vec<u64> = (0..n as u64).collect();
        for (p, f) in [(50, 0.5f64), (99, 0.99)] {
            let idx = ((n - 1) as f64 * f).round() as usize;
            assert_eq!(percentile(&v, p), v[idx], "{n} {p}");
        }
    }
}

#[test]
fn samples_are_summarized_in_any_order() {
    let s = summarize(vec![9, 1, 5, 3, 7]);
    assert_eq!(s, summarize(vec![7, 5, 9, 3, 1]));
    assert_eq!((s.p50, s.p99, s.samples), (5, 9, 5));
    let s = summarize(vec![]);
    assert_eq!((s.p50, s.p99, s.samples), (0, 0, 0));
    assert_eq!(sum(&[1, 2, 3]), 6);
}

#[test]
fn the_steady_window_counts() {
    assert_eq!(steady_bytes(&vec![1, 2, 4, 8, 16], 4), Some((14, 3)));
    assert_eq!(steady_bytes(&vec![1, 2, 4, 8, 16], 2), None);
    assert_eq!(steady_bytes(&vec![], 0), None);
}

#[test]
fn rates_count_messages_after_the_first() {
    let t = RecvTiming { first: 100, last: 300, count: 5 };
    assert_eq!(timing_moved(&t, 10), Some(Moved { bytes: 40, ns: 200 }));
    assert_eq!(timing_moved(&RecvTiming { count: 1, ..t }, 10), None);
    assert_eq!(timing_moved(&RecvTiming { last: 100, ..t }, 10), None);
    assert_eq!(done_moved(0, 7), None);
    assert_eq!(done_moved(5, 7), Some(Moved { bytes: 7, ns: 5 }));
}

#[test]
fn an_all_reduce_steps_through_its_chunks() {
    let run = |chunks: u32, rounds: u32| {
        let mut all = vec![];
        let mut n = 0;
        loop {
            let s = reduce_step(chunks, rounds, n);
            if s == ReduceStep::Finished {
                return all;
            }
            all.push(s);
            n += 1;
        }
    };

    assert_eq!(run(1, 2), vec![ReduceStep::Begin, ReduceStep::Round, ReduceStep::Pass, ReduceStep::Round, ReduceStep::Pass]);
    assert_eq!(run(2, 2), vec![ReduceStep::Burst, ReduceStep::Pass, ReduceStep::Pass, ReduceStep::Burst, ReduceStep::Pass, ReduceStep::Pass]);
    assert_eq!(run(0, 2), vec![ReduceStep::Burst, ReduceStep::Burst]);
    assert_eq!(run(32, 2).iter().filter(|s| **s == ReduceStep::Pass).count(), 64);
}
