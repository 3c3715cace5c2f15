use linkbench::bench::IdleGap;
use linkbench::board::{
    best_columns, best_for, best_in_column, compared, highlighted, run_label, timeline_note,
    top_of_column, BatchEntry, BestFor, Board, Column, CompareRow, ProbeOutcome, RunState,
    WorkerMsg,
};
use linkbench::history::HistoryEntry;
use linkbench::links::{
    correlate, kind_speed, neigh_mac, parse_cidr, ping_time, selected_rows, subnet_match,
    test_rows, tick_boxes, verify_adjacency, LinkPair, Mode, TestRow,
};
use linkbench::listing::{history_lines, HistoryFigures};
use linkbench::measure::{reading, Figure, Reading};
use linkbench::orchestrate::{
    batch_config, batch_status, bringup_log, client_args, client_job, probe_deploy, probe_failed,
    probe_job, roce_up_job, run_plan, scp, server_job, server_started, ssh, ssh_host_part,
    staged_local, staged_remote, target, tb_up_job, teardown_job, tune_job, Config, Job, Ran, Step,
};
use linkbench::probe::{IfKind, NetIf, NodeProbe, TbDevice};
use linkbench::proto::{Msg, RdmaDeviceInfo, RdmaEndpoint};
use linkbench::report::{Level, Rate, TimelineStats};
use linkbench::session::{
    address, choose_transport, client_version, device_map, host_part, rdma_answer, route_device,
    server_device, server_hello, server_qps, setup_of, tcp_port, version_warning, RdmaAnswer,
    Setup, Situation,
};

fn dev(name: &str, netdev: &str, state: &str) -> RdmaDeviceInfo {
    RdmaDeviceInfo {
        name: name.into(),
        port_state: state.into(),
        link_layer: "Ethernet(RoCE)".into(),
        active_mtu: 4096,
        rate_note: String::new(),
        netdev: netdev.into(),
    }
}

#[test]
fn addresses_default_to_the_control_port() {
    assert_eq!(address("10.0.0.2"), "10.0.0.2:7842");
    assert_eq!(address("m6:99"), "m6:99");
    assert_eq!(host_part(&address("m6")), "m6");
    assert_eq!(host_part("a:b:99"), "a:b");
    assert_eq!(version_warning("server", "0.1.0"), None);
    assert_eq!(
        version_warning("client", "9").unwrap(),
        "warning: client is linkbench 9, we are 0.1.0"
    );
}

fn situation(transport: &str, device: Option<&str>, route: Option<&str>, server: bool) -> Situation {
    Situation {
        transport: transport.into(),
        addr: "10.0.0.2:7842".into(),
        device: device.map(|s| s.into()),
        route_if: route.map(|s| s.into()),
        local_devs: vec![dev("mlx5_0", "fast0", "ACTIVE"), dev("mlx5_1", "fast1", "state1"), dev("rxe0", "", "ACTIVE")],
        server_rdma: server,
    }
}

#[test]
fn transports_are_chosen_by_route() {
    let c = choose_transport(&situation("tcp", Some("x"), None, true)).unwrap();
    assert_eq!((c.rdma, c.device.as_deref(), c.notice), (false, Some("x"), None));
    let c = choose_transport(&situation("rdma", None, Some("fast0"), true)).unwrap();
    assert_eq!((c.rdma, c.device.as_deref(), c.notice), (true, Some("mlx5_0"), None));
    let c = choose_transport(&situation("rdma", Some("mlx5_0"), Some("eno1"), true)).unwrap();
    assert_eq!((c.rdma, c.device.as_deref()), (true, Some("mlx5_0")));
    assert_eq!(
        c.notice.unwrap(),
        "WARNING: RDMA device mlx5_0 rides fast0, but 10.0.0.2:7842 routes over eno1; data will NOT flow over the link you addressed"
    );
    let c = choose_transport(&situation("rdma", Some("rxe0"), None, true)).unwrap();
    let note = c.notice.unwrap();
    assert!(note.starts_with("NOTE: could not determine which interface backs RDMA device rxe0 (control connection to 10.0.0.2:7842 routes over unknown)."));
    let e = choose_transport(&situation("rdma", None, Some("fast1"), true)).err().unwrap();
    assert_eq!(
        e,
        "no ACTIVE RDMA device rides fast1 (the interface that routes to 10.0.0.2:7842). Local devices: mlx5_0 (on fast0), mlx5_1 (on fast1), rxe0 (on ). Use --transport tcp, or --device to override explicitly."
    );
    let c = choose_transport(&situation("auto", None, Some("fast0"), false)).unwrap();
    assert_eq!((c.rdma, c.notice.unwrap().as_str()), (false, "auto: using tcp (server reports no RDMA)"));
    let c = choose_transport(&situation("auto", None, Some("fast0"), true)).unwrap();
    assert_eq!(c.device.as_deref(), Some("mlx5_0"));
    assert_eq!(
        c.notice.unwrap(),
        "auto: RDMA on both ends and mlx5_0 rides the route to fast0 — using rdma (force with --transport tcp)"
    );
    let c = choose_transport(&situation("auto", None, None, true)).unwrap();
    assert!(!c.rdma);
    assert!(c.notice.unwrap().starts_with("auto: using tcp — no RDMA device on unknown (the route to the target); local devices: mlx5_0 (on fast0)"));
    let none = Situation { local_devs: vec![], ..situation("auto", None, None, true) };
    assert!(choose_transport(&none).unwrap().notice.unwrap().ends_with("local devices: none"));
    assert_eq!(
        choose_transport(&situation("udp", None, None, true)).err().unwrap(),
        "unknown transport \"udp\" (auto|tcp|rdma)"
    );
}

#[test]
fn servers_ride_the_clients_link() {
    let devs = vec![dev("mlx5_0", "fast0", "ACTIVE"), dev("rxe0", "eno1", "ACTIVE")];
    assert_eq!(server_device(None, None, Some("eno1"), &devs), Ok("rxe0".into()));
    assert_eq!(server_device(Some("rxe0"), None, Some("eno1"), &devs), Ok("rxe0".into()));
    assert_eq!(server_device(None, Some("x"), None, &devs), Ok("x".into()));
    assert_eq!(
        server_device(Some("mlx5_0"), Some("rxe0"), Some("eno1"), &devs).unwrap_err(),
        "server RDMA device mlx5_0 does not ride eno1 (the link the client used); rxe0 does — drop the explicit device or use it"
    );
    assert_eq!(
        server_device(None, None, Some("wlan0"), &devs).unwrap_err(),
        "no ACTIVE server RDMA device rides wlan0 (the link the client used); devices: mlx5_0 (on fast0), rxe0 (on eno1)"
    );
    assert_eq!((server_qps(0), server_qps(4)), (1, 4));
    assert_eq!(route_device(&devs, Some("fast0"), Some("rxe0")), None);
    assert_eq!(device_map(&vec![]), "");
}

#[test]
fn answers_are_understood() {
    let hello = Msg::Hello { version: "1".into(), host: "m6".into(), rdma_devices: vec![], tuning: "t".into() };
    assert_eq!(client_version(hello.clone()), Ok("1".into()));
    let h = server_hello(hello).unwrap();
    assert_eq!((h.version.as_str(), h.host.as_str(), h.tuning.as_str()), ("1", "m6", "t"));
    assert_eq!(
        server_hello(Msg::Bye).err().unwrap(),
        "expected server Hello — is that a linkbench server?"
    );
    assert_eq!(client_version(Msg::Bye).unwrap_err(), "expected client Hello");
    assert_eq!(tcp_port(Msg::TcpListening { port: 5 }), Ok(5));
    assert_eq!(tcp_port(Msg::Bye).unwrap_err(), "expected TcpListening");
    let ep = || RdmaEndpoint {
        qpns: vec![3],
        psn: 0,
        gid: [0; 16],
        lid: 0,
        mtu: 5,
        device: "d".into(),
        gid_index: 1,
    };
    assert!(matches!(setup_of(Msg::SetupTcp { streams: 4 }), Setup::Tcp { streams: 4 }));
    assert!(matches!(
        setup_of(Msg::SetupRdma { device: None, gid_index: Some(2), ep: ep() }),
        Setup::Rdma { device: None, gid_index: Some(2), ep } if ep.qpns == vec![3]
    ));
    assert!(matches!(setup_of(Msg::Ready), Setup::Other(Msg::Ready)));
    assert!(matches!(rdma_answer(Msg::RdmaAccept { ep: ep() }), RdmaAnswer::Accepted(e) if e.mtu == 5));
    assert!(matches!(
        rdma_answer(Msg::SetupErr { error: "no".into() }),
        RdmaAnswer::Failed(s) if s == "server failed to set up RDMA: no"
    ));
    assert!(matches!(rdma_answer(Msg::Bye), RdmaAnswer::Unexpected(Msg::Bye)));
}

#[test]
fn networks_are_matched() {
    assert_eq!(parse_cidr("10.1.2.3/24"), Some((0x0a010203, 0xffffff00)));
    assert_eq!(parse_cidr("10.1.2.3/0"), Some((0x0a010203, 0)));
    assert_eq!(parse_cidr("10.1.2.3/99"), Some((0x0a010203, u32::MAX)));
    assert_eq!(parse_cidr("10.1.2.3"), None);
    assert_eq!(parse_cidr("10.1.x.3/24"), None);
    assert_eq!(parse_cidr("10.1.2.3/x"), None);
    let v = |l: &[&str]| -> Vec<String> { l.iter().map(|s| s.to_string()).collect() };
    assert_eq!(
        subnet_match(&v(&["192.168.1.7/24", "10.0.0.1/24"]), &v(&["bad", "10.0.0.2/16"])),
        Some(("10.0.0.1".into(), "10.0.0.2".into()))
    );
    assert_eq!(subnet_match(&v(&["10.0.0.1/24"]), &v(&["10.0.1.2/24"])), None);
    assert_eq!(subnet_match(&v(&["bad", "10.0.0.1/24"]), &v(&["10.0.0.2/24"])), None);
}

fn netif(name: &str, kind: IfKind, speed: Option<i64>, ip: &str, mac: &str) -> NetIf {
    NetIf {
        name: name.into(),
        kind,
        driver: String::new(),
        oper_up: true,
        mtu: 1500,
        speed_mbps: speed,
        ipv4: if ip.is_empty() { vec![] } else { vec![ip.into()] },
        mac: mac.into(),
    }
}

fn node(interfaces: Vec<NetIf>, rdma: Vec<RdmaDeviceInfo>, peer: bool) -> NodeProbe {
    NodeProbe {
        hostname: "n".into(),
        version: "0.1.0".into(),
        sudo_passwordless: true,
        tuning: String::new(),
        interfaces,
        rdma,
        thunderbolt: vec![TbDevice { id: "1".into(), vendor: "Intel".into(), device: "m6".into(), is_host_peer: peer }],
        softroce_available: true,
    }
}

#[test]
fn links_are_found() {
    assert_eq!(kind_speed(&netif("x", IfKind::Connectx, Some(100_000), "", "")), "connectx 100G");
    assert_eq!(kind_speed(&netif("x", IfKind::Wifi, Some(866), "", "")), "wifi 866M");
    assert_eq!(kind_speed(&netif("x", IfKind::Other, None, "", "")), "other");
    let a = node(
        vec![
            netif("lo", IfKind::Loopback, None, "127.0.0.1/8", ""),
            netif("eno1", IfKind::Ethernet, Some(1000), "192.168.1.1/24", ""),
            netif("fast0", IfKind::Connectx, Some(100_000), "10.0.0.1/24", ""),
            netif("tb0", IfKind::Thunderbolt, None, "", ""),
        ],
        vec![dev("mlx5_0", "fast0", "ACTIVE")],
        true,
    );
    let mut b = node(
        vec![
            netif("lo", IfKind::Loopback, None, "127.0.0.1/8", ""),
            netif("eth7", IfKind::Ethernet, Some(1000), "192.168.1.2/24", "AA:BB"),
            netif("fast1", IfKind::Connectx, Some(100_000), "10.0.0.2/24", ""),
            netif("tb1", IfKind::Thunderbolt, None, "", ""),
        ],
        vec![dev("mlx5_0", "fast1", "ACTIVE")],
        true,
    );
    let links = correlate(&a, &b);
    assert_eq!(links.len(), 3);
    assert_eq!(links[0].label(), "ethernet 1G  eno1 (192.168.1.1) <-> eth7 (192.168.1.2)");
    assert_eq!(links[0].detail, "TCP only — Soft-RoCE can be enabled for an RDMA run");
    assert!(links[0].softroce_offerable && !links[0].rdma);
    assert_eq!(links[1].detail, "RDMA available on both ends");
    assert_eq!(links[1].b_addr.as_deref(), Some("10.0.0.2"));
    assert_eq!(links[1].short(Mode::Rdma), "connectx 100G · rdma");
    assert_eq!(links[2].detail, "no shared IPv4 — needs address bring-up");
    assert_eq!(
        test_rows(&links),
        vec![
            TestRow { link: 0, mode: Mode::Tcp },
            TestRow { link: 1, mode: Mode::Tcp },
            TestRow { link: 1, mode: Mode::Rdma },
        ]
    );
    b.interfaces.pop();
    let links = correlate(&a, &b);
    assert_eq!(links.len(), 3);
    assert_eq!(links[2].kind_label, "thunderbolt bus");
    assert_eq!(links[2].a_desc, "peer \"Intel m6\"");
    b.thunderbolt[0].is_host_peer = false;
    assert_eq!(correlate(&a, &b).len(), 2);
}

#[test]
fn rows_are_ticked() {
    let rows = vec![
        TestRow { link: 0, mode: Mode::Tcp },
        TestRow { link: 1, mode: Mode::Tcp },
        TestRow { link: 1, mode: Mode::Rdma },
    ];
    assert_eq!(selected_rows(&rows, &vec![true, false, true]), vec![rows[0], rows[2]]);
    assert_eq!(selected_rows(&rows, &vec![false]), vec![]);
    assert_eq!(tick_boxes(vec![false, true], 2), vec![false, true]);
    assert_eq!(tick_boxes(vec![false], 2), vec![true, true]);
    assert_eq!(selected_rows(&rows, &tick_boxes(vec![], 3)), rows);
}

fn link(detail: &str, mac: &str) -> LinkPair {
    LinkPair {
        kind: "ethernet".into(),
        kind_label: "ethernet 1G".into(),
        a_desc: "a".into(),
        b_desc: "b".into(),
        detail: detail.into(),
        b_addr: Some("10.0.0.2".into()),
        rdma: false,
        a_iface: "eno1".into(),
        b_iface: "eth7".into(),
        softroce_offerable: false,
        b_mac: mac.into(),
        rtt_ms: None,
    }
}

#[test]
fn adjacency_is_verified() {
    let seen = "10.0.0.2 dev eno1 lladdr aa:bb:cc REACHABLE\n";
    let mut l = link("", "AA:bb:CC");
    verify_adjacency(&mut l, seen);
    assert_eq!(l.detail, "L2 verified");
    let mut l = link("x", "AA:bb:CC");
    verify_adjacency(&mut l, seen);
    assert_eq!(l.detail, "x · L2 verified");
    let mut l = link("x", "AA:bb:DD");
    verify_adjacency(&mut l, seen);
    assert_eq!(
        l.detail,
        "WARNING: not L2-adjacent — expected MAC AA:bb:DD, saw aa:bb:cc (router/proxy in path?)"
    );
    let mut l = link("x", "");
    verify_adjacency(&mut l, seen);
    assert_eq!(l.detail, "x");
    let mut l = link("x", "AA");
    verify_adjacency(&mut l, "10.0.0.2 dev eno1 FAILED");
    assert_eq!(l.detail, "x");
    assert_eq!(neigh_mac("a lladdr"), None);
    assert_eq!(neigh_mac("lladdr ÀB"), Some("àb".into()));
}

#[test]
fn pings_are_read() {
    let out = "PING 10.0.0.2\n64 bytes\n\nrtt min/avg/max/mdev = 0.094/0.112/0.130/0.018 ms\n";
    assert_eq!(ping_time(out).as_deref(), Some("0.112"));
    assert_eq!(ping_time("rtt min/avg/max"), None);
    assert_eq!(ping_time("min/avg/max = 5"), None);
    assert_eq!(ping_time("nothing"), None);
}

fn config() -> Config {
    Config {
        a_ssh: false,
        a_host: String::new(),
        b_ssh: true,
        b_host: "dad@m6".into(),
        data_addr: String::new(),
        transport: "auto".into(),
        quick: false,
        deploy: true,
        local_bin: "/opt/linkbench".into(),
        remote_bin: "~/linkbench".into(),
        port: 7842,
        duration: "1".into(),
        streams: 4,
        qps: 4,
        rdma_device: String::new(),
        gid_index: String::new(),
        region_mb: 128,
        tune_profile: "leave".into(),
        notes: "n".into(),
    }
}

fn line(j: &Job) -> String {
    format!("{} {}", j.program, j.args.join(" "))
}

#[test]
fn commands_are_built() {
    let c = config();
    assert_eq!(line(&ssh("m5", "ls")), "ssh -oBatchMode=yes -oConnectTimeout=8 m5 ls");
    assert_eq!(line(&scp("/bin/x", "m5", "~/y")), "scp -oBatchMode=yes /bin/x m5:y");
    assert_eq!((ssh_host_part("dad@m6").as_str(), ssh_host_part("m6").as_str()), ("m6", "m6"));
    assert_eq!(line(&probe_job(&c, false, "").unwrap()), "/opt/linkbench probe --json");
    assert_eq!(
        line(&probe_job(&c, true, "m5").unwrap()),
        "ssh -oBatchMode=yes -oConnectTimeout=8 m5 ~/linkbench probe --json"
    );
    assert_eq!(probe_job(&c, true, "").err().unwrap(), "no SSH target set");
    assert!(probe_deploy(&c, true, "m5").is_some());
    assert!(probe_deploy(&c, false, "m5").is_none());
    assert_eq!(probe_failed(" x\n"), "probe failed: x");
    assert_eq!(
        line(&tb_up_job(&c, false)),
        "sudo -n /opt/linkbench tb-up --ip 10.111.11.1/24 --persist"
    );
    assert!(line(&tb_up_job(&c, true)).ends_with("dad@m6 sudo -n ~/linkbench tb-up --ip 10.111.11.2/24 --persist"));
    assert!(roce_up_job(&c, false, "").is_none());
    assert_eq!(
        line(&roce_up_job(&c, false, "eth0").unwrap()),
        "sudo -n /opt/linkbench roce-up --dev eth0 --persist"
    );
    assert_eq!(
        line(&teardown_job(&c).unwrap()),
        "ssh -oBatchMode=yes -oConnectTimeout=8 dad@m6 pkill -x linkbench"
    );
    assert!(line(&server_job(&c).unwrap()).contains("nohup ~/linkbench serve --port 7842 --region-mb 128 >/tmp"));
    let local = Config { b_ssh: false, ..config() };
    assert_eq!(line(&server_job(&local).unwrap()), "/opt/linkbench serve --port 7842 --region-mb 128");
    assert!(teardown_job(&local).is_none());
    assert_eq!((target(&c).as_str(), target(&local).as_str()), ("m6", "127.0.0.1"));
    assert!(server_started("m6", "SERVER_UP\n").is_ok());
    assert_eq!(
        server_started("m6", "SERVER_FAILED\nx\n").unwrap_err(),
        "server failed to start on m6: SERVER_FAILED\nx"
    );
    let bad = Config { b_host: String::new(), ..config() };
    assert_eq!(server_job(&bad).err().unwrap(), "node B SSH target is empty");
    assert_eq!(staged_remote("m6"), "staged — now run on m6:  bash ~/toggle-passwordless-sudo.sh   then re-probe");
    assert_eq!(staged_local("/x"), "staged — now run:  bash /x   then re-probe");
}

#[test]
fn clients_are_run_with_their_options() {
    let c = Config {
        data_addr: "10.0.0.2".into(),
        transport: "rdma".into(),
        quick: true,
        rdma_device: "mlx5_0".into(),
        gid_index: " -3 ".into(),
        ..config()
    };
    assert_eq!(
        client_args(&c),
        "run 10.0.0.2:7842 --transport rdma --duration 1 --streams 4 --qps 4 --region-mb 128 --device mlx5_0 --gid-index -3 --quick --json"
    );
    let job = client_job(&c).unwrap();
    assert_eq!(job.program, "/opt/linkbench");
    assert_eq!(job.args.len(), 18);
    let plain = Config { gid_index: "2147483648".into(), ..config() };
    assert_eq!(
        client_args(&plain),
        "run m6:7842 --transport auto --duration 1 --streams 4 --qps 4 --region-mb 128 --json"
    );
    let remote = Config { a_ssh: true, a_host: "m5".into(), ..config() };
    assert!(client_job(&remote).unwrap().args[3].starts_with("LINKBENCH_NO_HISTORY=1 ~/linkbench run m6:7842 "));
    let bad = Config { a_ssh: true, ..config() };
    assert_eq!(client_job(&bad).err().unwrap(), "node A SSH target is empty");
}

fn kinds(c: &Config) -> Vec<String> {
    run_plan(c)
        .iter()
        .map(|s| match s {
            Step::Deploy(h) => format!("deploy {h}"),
            Step::Tune { node_b } => format!("tune {}", if *node_b { "B" } else { "A" }),
            Step::Serve => "serve".into(),
            Step::Run => "run".into(),
        })
        .collect()
}

#[test]
fn runs_are_planned() {
    assert_eq!(kinds(&config()), ["deploy dad@m6", "serve", "run"]);
    let c = Config { a_ssh: true, a_host: "m5".into(), tune_profile: "latency".into(), ..config() };
    assert_eq!(kinds(&c), ["deploy m5", "deploy dad@m6", "tune A", "tune B", "serve", "run"]);
    assert!(line(&tune_job(&c, true).unwrap()).ends_with("sudo -n ~/linkbench tune --profile latency"));
    assert_eq!(
        line(&tune_job(&Config { a_ssh: false, ..c }, false).unwrap()),
        "sudo -n /opt/linkbench tune --profile latency"
    );
    let c = Config { a_ssh: true, deploy: false, ..config() };
    assert_eq!(kinds(&c), ["serve", "run"]);
    assert_eq!(client_job(&c).err().unwrap(), "node A SSH target is empty");
    let c = Config { b_host: String::new(), ..config() };
    assert_eq!(kinds(&c), ["serve", "run"]);
    assert_eq!(server_job(&c).err().unwrap(), "node B SSH target is empty");
    let c = Config {
        a_ssh: true,
        a_host: String::new(),
        b_host: String::new(),
        tune_profile: "balanced".into(),
        ..config()
    };
    assert_eq!(kinds(&c), ["tune A", "tune B", "serve", "run"]);
    assert!(tune_job(&c, false).is_none() && tune_job(&c, true).is_none());
}

#[test]
fn batches_prepare_once() {
    let c = Config { tune_profile: "balanced".into(), ..config() };
    let l = link("", "");
    let first = batch_config(&c, 0, &l, Mode::Rdma);
    assert_eq!((first.data_addr.as_str(), first.transport.as_str()), ("10.0.0.2", "rdma"));
    assert!(first.deploy && first.tune_profile == "balanced");
    let second = batch_config(&c, 1, &l, Mode::Tcp);
    assert!(!second.deploy && second.tune_profile == "leave" && second.notes == "n");
    assert_eq!(kinds(&second), ["serve", "run"]);
    assert_eq!(batch_status(&l, Mode::Tcp, 1, 3), "testing ethernet 1G · tcp (2 of 3)…");
    let ran = |success: bool| Ran::Finished { success, stdout: " out\n".into(), stderr: " err\n".into() };
    assert_eq!(bringup_log("A", "tb-up", "", &ran(true)), "node A: out");
    assert_eq!(
        bringup_log("B", "roce-up", " (needs passwordless sudo)", &ran(false)),
        "node B: roce-up FAILED (needs passwordless sudo): errout"
    );
    assert_eq!(
        bringup_log("B", "tb-up", "", &Ran::NotStarted("x".into())),
        "node B: tb-up failed to start: x"
    );
}

fn bits(x: f64) -> Reading {
    reading(x.to_bits())
}

fn figure(x: f64) -> Figure {
    Figure { value: bits(x), d0: format!("{x:.0}"), d1: format!("{x:.1}"), d2: format!("{x:.2}") }
}

fn rate(bps: f64) -> Rate {
    let b = bps * 8.0;
    Rate {
        bps: bits(bps),
        bits: bits(b),
        kilobytes: figure(bps / 1e3),
        megabytes: figure(bps / 1e6),
        gigabytes: figure(bps / 1e9),
        megabits: figure(b / 1e6),
        gigabits: figure(b / 1e9),
    }
}

fn results(host: &str) -> linkbench::bench::Results {
    linkbench::bench::Results {
        transport: "tcp".into(),
        path: "4 parallel stream(s) to x".into(),
        client_host: host.into(),
        server_host: "m6".into(),
        duration_target_s: bits(1.0),
        latency: vec![],
        sweep: vec![],
        uni_c2s_bps: bits(1e9),
        uni_s2c_bps: bits(1e9),
        bidir_agg_bps: bits(1e9),
        msg_rate_per_s: bits(1e6),
        allreduce_16k_us: bits(100.0),
        allreduce_1g_bps: bits(1e9),
        kv32m_ms: bits(30.0),
        timeline_bucket_ms: 200,
        timeline_up_bps: vec![],
        timeline_down_bps: vec![],
        timeline_up_steady: 0,
        timeline_down_steady: 0,
        temps_b_sys: vec![],
        temps_b_nic: vec![],
        temps_a_sys: vec![],
        temps_a_nic: vec![],
        loaded_rtt: None,
        idle_gaps: vec![],
        score: None,
        tuning_a: "powersave/- all-idle-on".into(),
        tuning_b: String::new(),
    }
}

#[test]
fn history_is_shown_as_a_table() {
    let e = |ts: u64, label: &str, notes: &str| HistoryEntry {
        ts,
        label: label.into(),
        notes: notes.into(),
        results: results("m5"),
    };
    let f = || HistoryFigures { score: figure(3.64), up: rate(1e9), sync: figure(100.0) };
    let all = vec![e(1, "x", ""), e(951_827_696, "", ""), e(1_767_225_599, "riser B", "new DAC")];
    assert_eq!(
        history_lines(&all, 1, &vec![f(), f()]),
        vec![
            "when (UTC)       label / peer               path          transport score         up    16K ar  tuning (A)",
            "2000-02-29 12:34 m5 - m6                    4 parallel st tcp         3.6   8.0 Gb/s     100µs  powersave/- all-idle-on",
            "2025-12-31 23:59 riser B                    4 parallel st tcp         3.6   8.0 Gb/s     100µs  powersave/- all-idle-on  — new DAC",
            "(2 shown of 3 total)",
        ]
    );
    assert_eq!(
        history_lines(&vec![], 0, &vec![]),
        vec!["no history yet — runs append to ~/.local/share/linkbench/history/"]
    );
}

#[test]
fn the_board_follows_its_workers() {
    let mut b = Board::new(None);
    let mut cfg = Config { data_addr: "stale".into(), transport: "rdma".into(), ..config() };
    assert!(b.can_probe());
    b.start(&mut cfg);
    assert_eq!((cfg.data_addr.as_str(), cfg.transport.as_str()), ("", "auto"));
    assert_eq!((b.state, b.status.as_str()), (RunState::Running, "starting…"));
    assert!(!b.can_probe());
    assert_eq!(b.tone(), Level::Fair);
    b.handle(WorkerMsg::Log("l".into()));
    b.handle(WorkerMsg::Status("s".into()));
    assert_eq!((b.log.len(), b.status.as_str()), (1, "s"));
    b.handle(WorkerMsg::Done(results("m5")));
    assert_eq!((b.state, b.status.as_str(), b.run_seq), (RunState::Idle, "done", 1));
    assert_eq!(b.tone(), Level::Good);
    b.handle(WorkerMsg::Failed("broken".into()));
    assert_eq!((b.error.as_deref(), b.status.as_str()), (Some("broken"), "failed"));
    assert_eq!(b.tone(), Level::Poor);
    b.start_probe();
    assert!(b.probing && b.log.is_empty() && b.status == "probing…");
    assert!(!b.start_bringup("x"));
    b.checked = vec![true];
    b.handle(WorkerMsg::Probed(ProbeOutcome { a: Err("e".into()), b: Err("e".into()), links: vec![] }));
    assert!(!b.probing && b.checked.is_empty() && b.probe.is_some());
    assert!(b.start_bringup("enabling…"));
    assert_eq!(b.status, "enabling…");
    b.probing = false;
    b.start_batch(2);
    assert_eq!((b.status.as_str(), b.shown()), ("starting batch of 2…", None));
    for n in 0..2 {
        b.handle(WorkerMsg::BatchItem { label: format!("l{n}"), results: results("m5") });
        assert_eq!(b.shown(), Some(n));
    }
    b.select(0);
    assert_eq!(b.shown(), Some(0));
    b.handle(WorkerMsg::BatchDone);
    assert_eq!((b.state, b.status.as_str()), (RunState::Idle, "batch complete (2 tested)"));
    assert_eq!(run_label(0), "▶  Run benchmark");
    assert_eq!(run_label(3), "▶  Run Test (3 link modes)");
}

#[test]
fn timelines_are_noted() {
    let s = |stalls: usize| TimelineStats { median: bits(1.0), p5: bits(1.0), min: bits(1.0), stalls };
    assert_eq!(timeline_note(&s(2), &figure(60.0)), ("2 stalls, dip −60%".into(), Level::Poor));
    assert_eq!(timeline_note(&s(0), &figure(20.1)), ("dip −20%".into(), Level::Fair));
    assert_eq!(timeline_note(&s(0), &figure(20.0)), ("steady · dip −20%".into(), Level::Good));
}

#[test]
fn the_best_rows_are_found() {
    let col: Vec<Option<Reading>> =
        [Some(1.0), None, Some(3.0), Some(3.0), Some(0.5)].iter().map(|v| v.map(bits)).collect();
    assert_eq!(best_in_column(&col, true), Some(2));
    assert_eq!(best_in_column(&col, false), Some(4));
    assert_eq!(top_of_column(&col, true), Some(3));
    assert_eq!(top_of_column(&col, false), Some(4));
    assert_eq!(best_in_column(&vec![None, None], true), None);
    let nan = vec![Some(bits(f64::NAN)), Some(bits(1.0))];
    assert_eq!(best_in_column(&nan, true), Some(0));
    assert_eq!(top_of_column(&nan, true), Some(1));
    let labels: Vec<String> = ["a", "b"].iter().map(|s| s.to_string()).collect();
    let c = BestFor {
        score: vec![None, None],
        bulk: vec![Some(bits(2.0)), Some(bits(1.0))],
        sync: vec![Some(bits(2.0)), Some(bits(1.0))],
        wake: vec![Some(bits(1.0)), None],
    };
    assert_eq!(
        best_for(&labels, &c),
        vec!["bulk transfer: a", "per-token sync: b", "bursty RPC: a"]
    );
}

#[test]
fn columns_are_filled_from_the_results() {
    let gap = |gap_ms: u64, p50: f64| IdleGap { gap_ms, rtt_p50_us: bits(p50), rtt_p99_us: bits(p50) };
    let mut slow = results("m5");
    slow.uni_s2c_bps = bits(3e9);
    slow.allreduce_16k_us = bits(40.0);
    slow.idle_gaps = vec![gap(0, 10.0), gap(100, 17.0)];
    let mut fast = results("m5");
    fast.uni_c2s_bps = bits(5e9);
    fast.allreduce_16k_us = bits(60.0);
    fast.idle_gaps = vec![gap(0, 10.0), gap(100, 9.0)];
    let c = compared(&slow, bits(7.0));
    assert_eq!(c.score, None);
    assert_eq!((c.up, c.down, c.sync), (bits(1e9), bits(3e9), bits(40.0)));
    assert_eq!((c.hop, c.messages, c.wake), (None, bits(1e6), Some(bits(7.0))));
    assert_eq!(compared(&fast, bits(-1.0)).wake, Some(bits(0.0)));
    assert_eq!(compared(&results("m5"), bits(f64::NAN)).wake, None);
    let entry = |label: &str, r: linkbench::bench::Results| BatchEntry { label: label.into(), results: r };
    let batch = vec![entry("slow", slow), entry("fast", fast), entry("bare", results("m5"))];
    let lags = vec![bits(7.0), bits(-1.0), bits(f64::NAN)];
    let c = best_columns(&batch, &lags);
    assert_eq!(c.score, vec![None, None, None]);
    assert_eq!(c.bulk, vec![Some(bits(3e9)), Some(bits(5e9)), Some(bits(1e9))]);
    assert_eq!(c.sync, vec![Some(bits(40.0)), Some(bits(60.0)), Some(bits(100.0))]);
    assert_eq!(c.wake, vec![Some(bits(7.0)), Some(bits(0.0)), None]);
    let labels: Vec<String> = batch.iter().map(|e| e.label.clone()).collect();
    assert_eq!(
        best_for(&labels, &c),
        vec!["bulk transfer: fast", "per-token sync: slow", "bursty RPC: fast"]
    );
}

#[test]
fn columns_are_compared() {
    let row = |up: f64, sync: f64, score: Option<f64>| CompareRow {
        score: score.map(figure),
        up: rate(up),
        down: rate(up),
        hop: None,
        sync: figure(sync),
        messages: bits(up / 100.0),
        messages_m: figure(up / 1e8),
        wake: Some(figure(7.0)),
    };
    let rows = vec![row(1e9, 50.0, None), row(2e9, 80.0, Some(3.14))];
    assert_eq!(highlighted(&rows, Column::Up), Some(1));
    assert_eq!(highlighted(&rows, Column::Sync), Some(0));
    assert_eq!(highlighted(&rows, Column::Hop), None);
    assert_eq!(highlighted(&rows[..1].iter().map(|_| row(1e9, 1.0, None)).collect(), Column::Up), None);
    let texts: Vec<String> = [
        Column::Score,
        Column::Up,
        Column::Down,
        Column::Hop,
        Column::Sync,
        Column::Messages,
        Column::Wake,
    ]
    .iter()
    .map(|c| format!("{}={}", c.head(), c.text(&rows[1])))
    .collect();
    assert_eq!(
        texts,
        [
            "score=3.1",
            "up=16.0 Gb/s",
            "down=16.0 Gb/s",
            "16K 1-way=–",
            "16K allreduce=80 µs",
            "msg rate=20.0 M/s",
            "wake-up=+7 µs",
        ]
    );
}
