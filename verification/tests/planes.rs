use linkbench::bench::{
    play_client, play_server, server_reply, server_step, Outcome, Role, ServerStep,
};
use linkbench::proto::{self, Msg, TestSpec};
use linkbench::rdma::connect::{connect_plan, local_endpoint, queue_caps, to_init};
use linkbench::rdma::device::{
    backing_netdev, check_completions, choose_device, describe, device_info, fan_out,
    mtu_to_enum_bytes, recv_request, send_request, Buffers,
};
use linkbench::rdma::ffi::{ibv_port_attr, ibv_wc};
use linkbench::rdma::gid::{
    choose_gid_index, gid_to_string, is_ipv4_mapped, parse_sysfs_gid, GidEntry,
};
use linkbench::rdma::region::{divide_region, queue_pairs, slots_for};
use linkbench::rdma::window::{
    BidirBurst, BidirStep, Burst, BurstStep, FlagStep, FlaggedEcho, RecvLane, Rotation,
};
use linkbench::transport::{
    bucket_of, bulk_share, check_loaded_lanes, check_round_chunk, check_size, collect,
    initiator_step,
    merge_buckets, merge_timings, ping_flag, record_bytes, shares, small, steady_buckets,
    DataPlane, Initiator, InitiatorStep, LaneReport, RecvTiming, Tally,
};

#[test]
fn shares_add_up() {
    assert_eq!(shares(10, 4), vec![3, 3, 2, 2]);
    assert_eq!(shares(0, 3), vec![0, 0, 0]);
    assert_eq!(shares(u64::MAX, 2), vec![1 << 63, (1 << 63) - 1]);
    let bulk: Vec<u64> = (0..3).map(|i| bulk_share(11, 3, i)).collect();
    assert_eq!(bulk, shares(11, 3));
}

#[test]
fn small_bursts_stay_on_one_stream() {
    assert!(small(1 << 20, 1));
    assert!(!small(1 << 20, 2));
    assert!(small(256, 4096));
    assert!(!small(256, 4097));
}

#[test]
fn limits_are_explained() {
    assert_eq!(check_size(8, 8, "buffer"), Ok(()));
    assert_eq!(
        check_size(9, 8, "per-QP region").unwrap_err(),
        "message size 9 exceeds per-QP region 8"
    );
    assert_eq!(check_round_chunk(4 << 20), Ok(()));
    assert_eq!(
        check_round_chunk((4 << 20) + 1).unwrap_err(),
        "reduce_round chunk 4194305 too large for the TCP path"
    );
    assert!(check_loaded_lanes(2, "streams").is_ok());
    assert_eq!(
        check_loaded_lanes(1, "QPs").unwrap_err(),
        "loaded ping needs at least 2 QPs"
    );
    assert_eq!((ping_flag(true), ping_flag(false)), (1, 0));
}

#[test]
fn timings_are_merged() {
    let t = merge_timings(vec![Some((5, 9)), None, Some((3, 7))], 4, 100);
    assert_eq!((t.first, t.last, t.count), (3, 9, 4));
    let t = merge_timings(vec![None], 0, 100);
    assert_eq!((t.first, t.last, t.count), (100, 100, 0));
}

#[test]
fn buckets_and_steady_window() {
    assert_eq!(bucket_of(1000, 100, 300), 3);
    assert_eq!(bucket_of(50, 100, 300), 0);
    assert_eq!(bucket_of(150, 100, 0), 50);
    assert_eq!(steady_buckets(&[Some((0, 950)), Some((0, 650)), None], 0, 100, 10), 6);
    assert_eq!(steady_buckets(&[Some((0, 5000))], 0, 100, 10), 10);
    assert_eq!(steady_buckets(&[None], 0, 100, 7), 7);
    let mut b = vec![];
    record_bytes(&mut b, 2, 5);
    record_bytes(&mut b, 0, 1);
    record_bytes(&mut b, 2, 5);
    assert_eq!(b, vec![1, 0, 10]);
    let mut all = vec![1, 2];
    merge_buckets(&mut all, &vec![10, 20, 30]);
    assert_eq!(all, vec![11, 22, 30]);
}

#[test]
fn a_burst_posts_and_finishes() {
    let mut b = Burst::new(4096, 1024, 10);
    assert_eq!((b.slots, b.window), (4, 4));
    let mut posted = vec![];
    loop {
        match b.step() {
            BurstStep::Post(s) => {
                posted.push(s);
                b.note_posted();
            }
            BurstStep::Poll => b.note_done(1),
            BurstStep::Finished => break,
        }
    }
    assert_eq!(posted, vec![0, 1, 2, 3, 0, 1, 2, 3, 0, 1]);
    assert_eq!(Burst::new(1 << 30, 64, 5).slots, 256);
    assert_eq!(slots_for(100, 0), 100);
    assert_eq!(slots_for(10, 100), 1);
}

#[test]
fn a_receiving_lane_keeps_its_timeline() {
    let mut lane = RecvLane::new(4096, 1024, 5, 1000, 100);
    let mut now = 1000;
    loop {
        match lane.step() {
            BurstStep::Post(_) => lane.note_posted(),
            BurstStep::Poll => {
                now += 60;
                lane.note_done(1, now);
            }
            BurstStep::Finished => break,
        }
    }
    assert_eq!(lane.tally.buckets, vec![1024, 2048, 1024, 1024]);
    assert_eq!(lane.tally.span.ends(), Some((1060, 1300)));
}

#[test]
fn both_directions_at_once() {
    let mut b = BidirBurst::new(2048, 1024, 3);
    let (mut sent, mut received, mut first) = (0, 0, None);
    loop {
        let step = b.advance();
        first.get_or_insert(step);
        match step {
            BidirStep::PostRecv(_) | BidirStep::PostSend(_) => {}
            BidirStep::PollSend => {
                sent += 1;
                b.note_sent(1);
            }
            BidirStep::PollRecv => {
                received += 1;
                b.note_received(1);
            }
            BidirStep::Finished => break,
        }
    }
    assert_eq!((sent, received), (3, 3));
    assert_eq!(first, Some(BidirStep::PostRecv(0)));
}

#[test]
fn rotating_receives_balance() {
    for rounds in 0..7u32 {
        let mut r = Rotation::begin(rounds);
        let mut posts: Vec<usize> = (0..r.posted as usize).collect();
        for _ in 0..rounds {
            if let Some(slot) = r.turn() {
                posts.push(slot);
            }
        }
        let want: Vec<usize> = (0..rounds as usize).map(|k| k % 2).collect();
        assert_eq!(posts, want);
    }
}

#[test]
fn flagged_echo_drains() {
    let mut e = FlaggedEcho::begin();
    for _ in 0..3 {
        assert_eq!(e.ping(0), FlagStep::RepostAndReply);
    }
    assert_eq!(e.ping(1), FlagStep::ReplyAndDrain);
    assert_eq!((e.posted, e.taken, e.done), (5, 5, true));
}

#[test]
fn regions_are_divided() {
    assert_eq!((queue_pairs(0), queue_pairs(9), queue_pairs(100)), (1, 9, 64));
    let r = divide_region(128 << 20, 3).unwrap();
    assert_eq!((r.per_qp, r.total), (44736512, 134209536));
    assert_eq!(divide_region(4096, 2).err().unwrap(), "region too small for 2 QPs");
}

#[test]
fn gids_are_read_and_written() {
    let g = parse_sysfs_gid("0000:0000:0000:0000:0000:ffff:0a0a:0a02\n").unwrap();
    assert!(is_ipv4_mapped(&g));
    assert_eq!(gid_to_string(&g), "::ffff:10.10.10.2");
    let g = parse_sysfs_gid("fe80:0000:0000:0000:0ec4:7aff:fe12:34ab").unwrap();
    assert!(!is_ipv4_mapped(&g));
    assert_eq!(gid_to_string(&g), "fe80:0000:0000:0000:0ec4:7aff:fe12:34ab");
    assert_eq!(parse_sysfs_gid(" \tfe80:0000:0000:0000:0ec4:7aff:fe12:34ab \n"), Some(g));
    assert_eq!(parse_sysfs_gid("fe80:000:0000:0000:0ec4:7aff:fe12:34ab"), None);
    assert_eq!(parse_sysfs_gid("fe80:0000:0000:0000:0ec4:7aff:fe12:34ab0"), None);
    assert_eq!(parse_sysfs_gid("ffe80:0000:0000:0000:0ec4:7aff:fe12:34ab"), None);
    assert_eq!(parse_sysfs_gid("fe80::1"), None);
    assert_eq!(parse_sysfs_gid("zz80:0000:0000:0000:0ec4:7aff:fe12:34ab"), None);
}

#[test]
fn the_best_gid_is_chosen() {
    let e = |gid: &str, kind: &str| GidEntry { gid: gid.into(), kind: kind.into() };
    let link_local = "fe80:0000:0000:0000:0ec4:7aff:fe12:34ab";
    let mapped = "0000:0000:0000:0000:0000:ffff:0a0a:0a02";
    let zero = "0000:0000:0000:0000:0000:0000:0000:0000";
    let list = vec![
        e(link_local, "IB/RoCE v1"),
        e(link_local, "RoCE v2\n"),
        e(mapped, "IB/RoCE v1"),
        e(mapped, "roce V2"),
        e(mapped, "RoCE v2"),
    ];
    let (i, g) = choose_gid_index(&list);
    assert_eq!(i, 3);
    assert_eq!(gid_to_string(&g), "::ffff:10.10.10.2");
    let (i, _) = choose_gid_index(&vec![e(zero, "RoCE v2"), e(mapped, ""), e(link_local, "RoCE v2")]);
    assert_eq!(i, 2);
    assert_eq!(choose_gid_index(&vec![]), (0, [0u8; 16]));
    assert_eq!(choose_gid_index(&vec![e(zero, ""), e(mapped, "IB/RoCE v1")]).0, 0);
}

#[test]
fn devices_are_chosen_by_name() {
    let names = vec!["mlx5_0".to_string(), "rxe0".to_string()];
    assert_eq!(choose_device(&names, None), Ok(0));
    assert_eq!(choose_device(&names, Some("rxe0")), Ok(1));
    assert_eq!(
        choose_device(&names, Some("rx\"e")).unwrap_err(),
        "RDMA device \"rx\\\"e\" not found; available: mlx5_0, rxe0"
    );
    assert_eq!(choose_device(&vec![], Some("x")).unwrap_err(), "no RDMA devices found");
    assert_eq!(backing_netdev(Some(" eth0\n"), &vec!["x".into()]), Some("eth0".into()));
    assert_eq!(backing_netdev(Some("\n"), &vec!["x".into()]), Some("x".into()));
    assert_eq!(backing_netdev(None, &vec![]), None);
}

fn port() -> ibv_port_attr {
    ibv_port_attr { state: 4, active_mtu: 5, lid: 0, active_width: 2, active_speed: 32, link_layer: 2 }
}

#[test]
fn devices_are_described() {
    let mtus: Vec<u32> = (0..8).map(mtu_to_enum_bytes).collect();
    assert_eq!(mtus, [256, 256, 512, 1024, 2048, 4096, 4096, 4096]);
    let d = device_info("mlx5_0".into(), Some("fastlink0".into()), &port());
    assert_eq!(d.port_state, "ACTIVE");
    assert_eq!(d.link_layer, "Ethernet(RoCE)");
    assert_eq!(d.active_mtu, 4096);
    assert_eq!(d.rate_note, "width x2 speed 32");
    assert_eq!(d.netdev, "fastlink0");
    let d = device_info("x".into(), None, &ibv_port_attr { state: 1, link_layer: 1, ..port() });
    assert_eq!((d.port_state.as_str(), d.link_layer.as_str(), d.netdev.as_str()), ("state1", "InfiniBand", ""));
    let gid = parse_sysfs_gid("0000:0000:0000:0000:0000:ffff:0a0a:0a02").unwrap();
    let ep = local_endpoint(vec![1, 2], gid, 3, &port(), "mlx5_0".into());
    assert_eq!(
        describe(&ep, None, 220, 2),
        "device mlx5_0 (on ?) gid[3] ::ffff:10.10.10.2 mtu 4096 inline 220B, 2 QP"
    );
}

#[test]
fn queue_pairs_are_connected_pairwise() {
    let gid = parse_sysfs_gid("0000:0000:0000:0000:0000:ffff:0a0a:0a02").unwrap();
    let a = local_endpoint(vec![1, 2], [0; 16], 3, &port(), "a".into());
    let mut b = local_endpoint(vec![7, 8], gid, 0, &ibv_port_attr { active_mtu: 3, ..port() }, "b".into());
    let plan = connect_plan(&a, &b, 1).unwrap();
    assert_eq!(plan.len(), 2);
    let rtr = &plan[1].rtr;
    assert_eq!((rtr.attr.qp_state, rtr.attr.dest_qp_num, rtr.attr.path_mtu), (2, 8, 3));
    assert_eq!(rtr.attr.ah_attr.is_global, 1);
    assert_eq!(rtr.attr.ah_attr.grh.dgid.raw, gid);
    assert_eq!((rtr.attr.ah_attr.grh.sgid_index, rtr.attr.ah_attr.grh.hop_limit), (3, 64));
    assert_eq!((rtr.attr.ah_attr.grh.flow_label, rtr.attr.ah_attr.grh.traffic_class), (0, 0));
    let ah = &rtr.attr.ah_attr;
    assert_eq!((ah.sl, ah.src_path_bits, ah.static_rate), (0, 0, 0));
    assert_eq!(rtr.mask, 1 | 1 << 7 | 1 << 8 | 1 << 20 | 1 << 12 | 1 << 17 | 1 << 15);
    let rts = &plan[0].rts;
    assert_eq!((rts.attr.qp_state, rts.attr.timeout, rts.attr.retry_cnt, rts.attr.rnr_retry), (3, 14, 7, 7));
    assert_eq!(rts.mask, 1 | 1 << 9 | 1 << 10 | 1 << 11 | 1 << 16 | 1 << 13);
    b.lid = 9;
    let plan = connect_plan(&a, &b, 1).unwrap();
    assert_eq!((plan[0].rtr.attr.ah_attr.is_global, plan[0].rtr.attr.ah_attr.dlid), (0, 9));
    b.qpns.push(9);
    assert_eq!(
        connect_plan(&a, &b, 1).err().unwrap(),
        "QP count mismatch: local 2 vs remote 3"
    );
    let init = to_init(1);
    assert_eq!((init.attr.qp_state, init.attr.qp_access_flags, init.attr.port_num), (1, 3, 1));
    assert_eq!(init.mask, 1 | 1 << 4 | 1 << 5 | 1 << 3);
    assert_eq!((queue_caps(true).max_inline_data, queue_caps(false).max_inline_data), (220, 0));
    assert_eq!(queue_caps(true).max_send_wr, 512);
}

#[test]
fn work_requests_point_into_the_slices() {
    let b = Buffers { tx: 1000, rx: 5000, tx_lkey: 7, rx_lkey: 8, max_inline: 220 };
    let (sge, flags) = send_request(&b, 3, 100);
    assert_eq!((sge.addr, sge.length, sge.lkey, flags), (1300, 100, 7, 10));
    let (_, flags) = send_request(&b, 0, 221);
    assert_eq!(flags, 2);
    let sge = recv_request(&b, 2, 64);
    assert_eq!((sge.addr, sge.length, sge.lkey), (5128, 64, 8));
    assert_eq!(recv_request(&b, 0, 0).length, 1);
}

#[test]
fn completions_are_checked() {
    let ok = ibv_wc { wr_id: 1, status: 0, vendor_err: 0 };
    let bad = ibv_wc { wr_id: 9, status: 12, vendor_err: 129 };
    assert_eq!(check_completions(2, &vec![ok, ok]), Ok(2));
    assert_eq!(
        check_completions(2, &vec![ok, bad]).unwrap_err(),
        "work completion error: status 12 vendor_err 129 (wr_id 9)"
    );
    assert_eq!(check_completions(-1, &vec![]).unwrap_err(), "ibv_poll_cq failed");
}

#[test]
fn bursts_fan_out() {
    let lanes: Vec<(usize, u64)> = fan_out(10, 4).iter().map(|l| (l.qp, l.count)).collect();
    assert_eq!(lanes, [(0, 3), (1, 3), (2, 2), (3, 2)]);
    let lanes: Vec<(usize, u64)> = fan_out(2, 4).iter().map(|l| (l.qp, l.count)).collect();
    assert_eq!(lanes, [(0, 1), (1, 1)]);
    let lanes: Vec<(usize, u64)> = fan_out(1, 4).iter().map(|l| (l.qp, l.count)).collect();
    assert_eq!(lanes, [(0, 1)]);
    let lanes: Vec<(usize, u64)> = fan_out(0, 4).iter().map(|l| (l.qp, l.count)).collect();
    assert_eq!(lanes, [(0, 0)]);
}

#[test]
fn the_server_answers() {
    let timing = RecvTiming { first: 10, last: 30, count: 5 };
    let backwards = RecvTiming { first: 30, last: 10, count: 5 };
    let cases = [
        (TestSpec::PingEcho { size: 64, iters: 3 }, Outcome::Nothing, 0, 0),
        (TestSpec::C2S { size: 8, count: 5 }, Outcome::Timing(timing), 20, 32),
        (TestSpec::C2S { size: 8, count: 0 }, Outcome::Timing(timing), 20, 0),
        (TestSpec::S2C { size: 8, count: 5 }, Outcome::Nothing, 0, 0),
        (TestSpec::Bidir { size: 8, count: 5 }, Outcome::Timing(backwards), 0, 32),
        (
            TestSpec::LoadedPing { ping_size: 1, bulk_size: 2, bulk_count: 3 },
            Outcome::Nothing,
            0,
            0,
        ),
    ];
    for (spec, out, elapsed, moved) in cases {
        match server_reply(spec, out) {
            Msg::Done { elapsed_ns, bytes } => assert_eq!((elapsed_ns, bytes), (elapsed, moved)),
            other => panic!("{other:?}"),
        }
    }
    assert_eq!(
        play_server(TestSpec::LoadedPing { ping_size: 1, bulk_size: 2, bulk_count: 3 }),
        Role::LoadedEcho { ping_size: 1, bulk_size: 2, bulk_count: 3 }
    );
    assert_eq!(
        play_client(TestSpec::PingEcho { size: 64, iters: 3 }),
        Role::Ping { size: 64, iters: 3 }
    );
}

/// A plane that loops back what it is asked for.
struct Loopback;

impl DataPlane for Loopback {
    fn kind(&self) -> String {
        "loopback".into()
    }
    fn max_msg(&self) -> usize {
        1 << 20
    }
    fn describe(&self) -> String {
        "nowhere".into()
    }
    fn send_burst(&mut self, _: usize, _: u64) -> Result<(), String> {
        Ok(())
    }
    fn recv_burst(&mut self, _: usize, count: u64) -> Result<RecvTiming, String> {
        Ok(RecvTiming { first: 0, last: count, count })
    }
    fn bidir_burst(&mut self, size: usize, count: u64) -> Result<RecvTiming, String> {
        self.recv_burst(size, count)
    }
    fn ping(&mut self, _: usize) -> Result<(), String> {
        Err("no peer".into())
    }
    fn echo(&mut self, _: usize, _: u32) -> Result<(), String> {
        Ok(())
    }
    fn lanes(&self) -> usize {
        1
    }
    fn recv_timeline(
        &mut self,
        _: usize,
        count: u64,
        _: u64,
    ) -> Result<(RecvTiming, Vec<u64>, usize), String> {
        Ok((RecvTiming { first: 0, last: 0, count }, vec![], 0))
    }
    fn loaded_ping_initiator(&mut self, _: usize, _: usize, _: u64) -> Result<Vec<u64>, String> {
        Ok(vec![])
    }
    fn loaded_ping_echoer(&mut self, _: usize, _: usize, _: u64) -> Result<(), String> {
        Ok(())
    }
    fn reduce_begin(&mut self, _: usize, _: u32) -> Result<(), String> {
        Ok(())
    }
    fn reduce_round(&mut self, _: usize) -> Result<(), String> {
        Ok(())
    }
}

#[test]
fn a_plane_can_be_a_trait_object() {
    let mut plane: Box<dyn DataPlane> = Box::new(Loopback);
    assert_eq!(plane.kind(), "loopback");
    assert_eq!(plane.recv_burst(8, 5).unwrap().last, 5);
    assert_eq!(plane.ping(1).unwrap_err(), "no peer");
}

#[test]
fn roles_of_both_sides() {
    let spec = TestSpec::C2STimeline { size: 8, count: 5, bucket_ms: 0 };
    assert_eq!(play_client(spec), Role::Send { size: 8, count: 5 });
    assert_eq!(
        play_server(spec),
        Role::ReceiveTimeline { size: 8, count: 5, bucket_ms: 1 }
    );
    let spec = TestSpec::S2C { size: 8, count: 5 };
    assert_eq!(
        play_client(spec),
        Role::ReceiveTimeline { size: 8, count: 5, bucket_ms: 200 }
    );
    let out = Outcome::Timeline {
        timing: RecvTiming { first: 5, last: 9, count: 5 },
        buckets: vec![1, 2],
        steady: 1,
        temps_sys: vec![],
        temps_nic: vec![],
    };
    let reply = server_reply(TestSpec::C2STimeline { size: 8, count: 5, bucket_ms: 200 }, out);
    match proto::expect_done_timeline(reply) {
        Ok(t) => assert_eq!((t.elapsed_ns, t.bytes, t.buckets, t.steady), (4, 32, vec![1, 2], 1)),
        Err(m) => panic!("{m:?}"),
    }
    let reply = server_reply(TestSpec::Reduce { chunk: 1, chunks: 1, rounds: 1 }, Outcome::Elapsed(77));
    assert_eq!(proto::expect_done(reply).unwrap(), (77, 0));
}

#[test]
fn the_server_reacts_to_messages() {
    let spec = TestSpec::C2S { size: 8, count: 5 };
    assert!(matches!(server_step(Msg::Run { spec }), ServerStep::Serve(s) if s == spec));
    assert!(matches!(server_step(Msg::Bye), ServerStep::Finish));
    assert!(matches!(server_step(Msg::Ready), ServerStep::Refuse(Msg::Ready)));
}

#[test]
fn control_messages_are_framed() {
    let line = proto::frame("{\"t\":1}");
    assert_eq!(line, "{\"t\":1}\n");
    assert_eq!(proto::unframe(line.len(), &line).unwrap(), "{\"t\":1}");
    assert_eq!(proto::unframe(0, "").unwrap_err(), "control channel closed by peer");
    let wire: String = ["{}", "[1]", "no message"].iter().map(|m| proto::frame(m)).collect();
    let read: Vec<String> =
        wire.split_inclusive('\n').map(|l| proto::unframe(l.len(), l).unwrap()).collect();
    assert_eq!(read, ["{}", "[1]", "no message"]);
    assert_eq!(proto::bad_message("x"), "bad control message: x");
    assert!(proto::expect_ready(Msg::Ready).is_ok());
    assert!(matches!(proto::expect_ready(Msg::Bye), Err(Msg::Bye)));
    assert!(matches!(proto::expect_done(Msg::Ready), Err(Msg::Ready)));
    assert!(matches!(proto::expect_done_timeline(Msg::Ready), Err(Msg::Ready)));
    assert_eq!(proto::expected_got("Done", "Bye"), "expected Done, got Bye");
}

fn report(ends: Option<(u64, u64)>, buckets: &[u64]) -> LaneReport {
    LaneReport { ends, buckets: buckets.to_vec() }
}

#[test]
fn lanes_are_put_together() {
    let parts = vec![
        report(Some((110, 250)), &[10, 20]),
        report(None, &[]),
        report(Some((105, 390)), &[1, 2, 3]),
    ];
    let t = collect(&parts, 100, 100, 6, 999);
    assert_eq!(t.buckets, vec![11, 22, 3]);
    assert_eq!(t.timing, RecvTiming { first: 105, last: 390, count: 6 });
    assert_eq!(t.steady, 1);
    let none = collect(&vec![], 100, 100, 0, 999);
    assert_eq!((none.buckets.len(), none.steady), (0, 0));
    assert_eq!(none.timing, RecvTiming { first: 999, last: 999, count: 0 });
}

#[test]
fn a_tally_counts_every_message() {
    let mut t = Tally::new(100, 4, 1000, 50);
    t.note(1, 1010);
    t.note(0, 1020);
    t.note(2, 1120);
    assert_eq!(t.done, 3);
    assert_eq!(t.span.ends(), Some((1010, 1120)));
    t.note(1, 1049);
    let r = t.report();
    assert_eq!(r.buckets, vec![200, 0, 200]);
    assert_eq!(r.ends, Some((1010, 1049)));
    assert_eq!(Tally::new(8, 0, 0, 1).report().ends, None);
}

#[test]
fn initiators_mark_the_last_ping_and_drain() {
    let mut state = Initiator::Pinging;
    let mut steps = Vec::new();
    for done in [false, false, true, true, true] {
        let (next, step) = initiator_step(state, done);
        state = next;
        steps.push(step);
    }
    assert_eq!(
        steps,
        [
            InitiatorStep::Ping(0),
            InitiatorStep::Ping(0),
            InitiatorStep::Ping(1),
            InitiatorStep::Drain(0),
            InitiatorStep::Finished,
        ]
    );
    assert_eq!(initiator_step(Initiator::Pinging, true).1, InitiatorStep::Ping(1));
}

#[test]
fn lanes_report_in_any_order() {
    let parts = [Some((5, 90)), None, Some((3, 70)), Some((9, 40))];
    let mut turned = parts.to_vec();
    turned.reverse();
    let (a, b) = (merge_timings(parts.to_vec(), 7, 1), merge_timings(turned.clone(), 7, 1));
    assert_eq!((a.first, a.last), (3, 90));
    assert_eq!(a, b);
    assert_eq!(steady_buckets(&parts, 0, 10, 9), steady_buckets(&turned, 0, 10, 9));
}

#[test]
fn gids_read_back() {
    let mut gid = [0u8; 16];
    gid[0] = 0xfe;
    gid[1] = 0x80;
    gid[15] = 0x1a;
    assert_eq!(gid_to_string(&gid), "fe80:0000:0000:0000:0000:0000:0000:001a");
    assert_eq!(parse_sysfs_gid(&gid_to_string(&gid)), Some(gid));
}
