use linkbench::bringup::{
    ip_failed, roce_up, softroce_available, tb_up, RdmaParent, RoceAction, RoceEvent, RoceRequest,
    TbAction, TbEvent, TbRequest, SUDO_TOGGLE_SCRIPT,
};
use linkbench::json;
use linkbench::listing::{applied_text, probe_lines, profile_named, tune_lines};
use linkbench::probe::{
    classify, gather, interfaces, ipv4_addresses, route_dev, thunderbolt_devices, IfKind,
    IfListing, NetIf, TbListing,
};
use linkbench::proto::RdmaDeviceInfo;
use linkbench::sensors::{is_nic_name, is_temp_file, ChipListing, Sensors};
use linkbench::tune::{
    apply_plan, cpu_dirs, idle_dirs, is_cpu_dir, nic_args, nic_result, state_from, write_failed, IdleTexts,
    Profile, Write,
};

#[test]
fn profiles_parse_back() {
    for p in [Profile::Default, Profile::Balanced, Profile::Latency] {
        assert_eq!(Profile::parse(&p.name()), Some(p));
        assert_eq!(profile_named(&p.name()), Ok(p));
    }
    assert_eq!(Profile::parse("Latency"), None);
    assert_eq!(
        profile_named("fa\"st").unwrap_err(),
        "unknown profile \"fa\\\"st\" (default|balanced|latency)"
    );
    assert_eq!(
        applied_text(Profile::Balanced),
        "applied profile balanced (runtime-only; resets on reboot)"
    );
}

fn idle(name: &str, latency: &str, disable: &str) -> IdleTexts {
    IdleTexts { name: name.into(), latency: latency.into(), disable: disable.into() }
}

fn machine() -> linkbench::tune::CpuTuneState {
    let texts = vec![
        idle("POLL\n", "0\n", "0\n"),
        idle("C1", "11", "0"),
        idle("C3", "101", "1\n"),
        idle("odd", "x", ""),
    ];
    state_from(16, "performance\n", " performance ", &texts, "50\n").unwrap()
}

#[test]
fn tuning_state_is_read_and_summarized() {
    let s = machine();
    assert_eq!((s.cpus, s.governor.as_str(), s.epp.as_str(), s.busy_read_us), (16, "performance", "performance", 50));
    assert_eq!(s.idle_states[3].latency_us, 0);
    assert_eq!(s.summary(), "performance/performance C3:off busy:50µs");
    let bare = state_from(1, "powersave", "", &vec![], "").unwrap();
    assert_eq!(bare.summary(), "powersave/- all-idle-on");
    assert_eq!(
        state_from(0, "", "", &vec![], "").err().unwrap(),
        "no cpus found in sysfs"
    );
    assert_eq!(
        tune_lines(&s),
        vec![
            "cpus: 16",
            "governor: performance   epp: performance",
            "  idle state0 POLL       exit    0 µs   enabled",
            "  idle state1 C1         exit   11 µs   enabled",
            "  idle state2 C3         exit  101 µs   DISABLED",
            "  idle state3 odd        exit    0 µs   enabled",
            "summary: performance/performance C3:off busy:50µs",
        ]
    );
}

#[test]
fn cpus_are_recognized() {
    for n in ["cpu", "cpu0", "cpu127"] {
        assert!(is_cpu_dir(n), "{n}");
    }
    for n in ["cpufreq", "cpu1x", "cp", "xcpu0"] {
        assert!(!is_cpu_dir(n), "{n}");
    }
    let names = ["cpu10", "cpufreq", "cpu2", "cpu0", "online"].iter().map(|s| s.to_string()).collect();
    assert_eq!(cpu_dirs(names), vec!["cpu0", "cpu10", "cpu2"]);
}

#[test]
fn idle_states_stand_at_their_numbers() {
    let names: Vec<String> =
        ["state10", "other", "state2", "state0", "state1"].iter().map(|s| s.to_string()).collect();
    let order: Vec<String> = idle_dirs(&names).into_iter().map(|d| d.name).collect();
    assert_eq!(order, ["state0", "state1", "state2", "state10", "other"]);
}

fn writes(p: Profile) -> Vec<(String, String)> {
    apply_plan(p, &machine())
        .into_iter()
        .map(|w| match w {
            Write::EveryCpu { rel, value } => (rel, value),
            Write::EveryCpuSoft { rel, value } => (format!("soft {rel}"), value),
            Write::FileSoft { path, value } => (format!("file {path}"), value),
        })
        .collect()
}

#[test]
fn profiles_gate_idle_states_by_latency() {
    let pairs = |v: &[(&str, &str)]| -> Vec<(String, String)> {
        v.iter().map(|(a, b)| (a.to_string(), b.to_string())).collect()
    };
    assert_eq!(
        writes(Profile::Balanced),
        pairs(&[
            ("cpufreq/scaling_governor", "performance"),
            ("soft cpufreq/energy_performance_preference", "performance"),
            ("cpuidle/state0/disable", "0"),
            ("cpuidle/state1/disable", "0"),
            ("cpuidle/state2/disable", "1"),
            ("cpuidle/state3/disable", "0"),
            ("file /proc/sys/net/core/busy_read", "50"),
            ("file /proc/sys/net/core/busy_poll", "50"),
        ])
    );
    assert_eq!(writes(Profile::Latency)[3].1, "1");
    let default = writes(Profile::Default);
    assert_eq!(default[0].1, "powersave");
    assert_eq!(default[1].1, "balance_performance");
    assert!(default[2..6].iter().all(|w| w.1 == "0"));
    assert_eq!(default[7].1, "0");
    let files = |p: Profile| -> Vec<String> { writes(p).into_iter().map(|w| w.0).collect() };
    assert_eq!(files(Profile::Default), files(Profile::Balanced));
    assert_eq!(files(Profile::Default), files(Profile::Latency));
    assert_eq!(
        write_failed("1", "/sys/x"),
        "write 1 to /sys/x — applying tuning needs root (sudo linkbench tune …)"
    );
}

#[test]
fn nic_coalescing() {
    assert_eq!(
        nic_args(Profile::Latency, "eth0").join(" "),
        "-C eth0 adaptive-rx off adaptive-tx off rx-usecs 3 rx-frames 32 tx-usecs 8 tx-frames 32"
    );
    assert_eq!(
        nic_args(Profile::Default, "eth0").join(" "),
        "-C eth0 adaptive-rx on adaptive-tx on rx-usecs 8 rx-frames 128 tx-usecs 8 tx-frames 128"
    );
    assert_eq!(
        nic_result(Profile::Balanced, "eth0", true, "").unwrap(),
        "eth0: coalescing set for profile balanced"
    );
    assert_eq!(
        nic_result(Profile::Balanced, "tb0", false, "netlink: Operation not supported").unwrap(),
        "tb0: coalescing not supported by driver"
    );
    assert_eq!(
        nic_result(Profile::Balanced, "eth0", false, " bad\n").unwrap_err(),
        "ethtool -C eth0 failed: bad"
    );
}

#[test]
fn sensors_are_discovered_and_sampled() {
    assert!(is_nic_name("mlx5"));
    assert!(!is_nic_name("MLX5"));
    assert!(is_temp_file("temp1_input"));
    assert!(!is_temp_file("temp1_label"));
    let chip = |name: &str, files: &[&str]| ChipListing {
        name: name.into(),
        files: files.iter().map(|s| s.to_string()).collect(),
    };
    let s = Sensors::discover(&vec![
        chip("k10temp\n", &["temp1_input", "name", "temp1_label", "temp3_input"]),
        chip("fan\n", &["fan1_input"]),
        chip(" MLX5\n", &["temp1_input"]),
    ]);
    assert_eq!(s.chips.len(), 2);
    assert!(!s.chips[0].is_nic);
    assert!(s.chips[1].is_nic);
    assert_eq!(s.chips[0].temp_files, vec!["temp1_input", "temp3_input"]);
    let text = |s: &str| Some(s.to_string());
    let t = s.sample(&vec![vec![text("45000\n"), text("61500")], vec![text("150001")]]);
    assert_eq!(t, (Some(61500), None));
    let t = s.sample(&vec![vec![None, text("x")], vec![text("-50000")]]);
    assert_eq!(t, (None, Some(-50000)));
    for milli in [-50_001i64, -50_000, 0, 149_999, 150_000, 150_001] {
        let c = milli as f32 / 1000.0;
        let kept = s.sample(&vec![vec![text(&format!("{milli}"))], vec![]]).0.is_some();
        assert_eq!(kept, (-50.0..=150.0).contains(&c), "{milli}");
    }
}

const ADDR: &str = r#"[
  {"ifname":"lo","addr_info":[{"family":"inet","local":"127.0.0.1","prefixlen":8}]},
  {"ifname":"eno1","addr_info":[
    {"family":"inet6","local":"fe80::1","prefixlen":64},
    {"family":"inet","local":"192.168.1.7","prefixlen":24},
    {"family":"inet","local":"10.0.0.1"}]},
  {"ifname":"eno1","addr_info":[{"family":"inet","local":"10.0.0.2","prefixlen":-1}]},
  {"addr_info":[{"family":"inet","local":"1.2.3.4","prefixlen":32}]},
  7
]"#;

#[test]
fn addresses_come_from_json() {
    let doc = json::parse(ADDR.as_bytes()).unwrap();
    assert_eq!(ipv4_addresses(&doc, "lo"), vec!["127.0.0.1/8"]);
    assert_eq!(ipv4_addresses(&doc, "eno1"), vec!["10.0.0.2/32"]);
    assert_eq!(ipv4_addresses(&doc, "nope"), Vec::<String>::new());
    assert!(json::parse(b"[1,]").is_none());
    assert!(json::parse(b"{} trailing").is_none());
}

#[test]
fn json_documents_are_looked_up() {
    let text = r#"{"a":"xé","n":18446744073709551615,"f":1.5,"b":true,"z":null,"l":[1,2]}"#;
    let doc = json::parse(text.as_bytes()).unwrap();
    assert_eq!(json::text_member(&doc, "a").as_deref(), Some("xé"));
    assert_eq!(json::text_member(&doc, "n"), None);
    assert_eq!(json::number_member(&doc, "n"), Some(u64::MAX));
    assert_eq!(json::number_member(&doc, "f"), None);
    assert_eq!(json::number_member(&doc, "missing"), None);
    assert!(matches!(json::member(&doc, "b"), Some(json::Json::Bool(true))));
    assert!(matches!(json::member(&doc, "z"), Some(json::Json::Null)));
    assert!(matches!(json::member(&doc, "l"), Some(json::Json::List(v)) if v.len() == 2));
    assert!(json::member(&json::Json::Null, "a").is_none());
}

#[test]
fn routes_come_from_json() {
    let out = br#"[{"dst":"10.0.0.2","dev":"fastlink0","prefsrc":"10.0.0.1"}]"#;
    assert_eq!(route_dev(out).as_deref(), Some("fastlink0"));
    assert_eq!(route_dev(b"[]"), None);
    assert_eq!(route_dev(b"[{}]"), None);
    assert_eq!(route_dev(b"RTNETLINK answers"), None);
}

fn listing(name: &str, driver: &str) -> IfListing {
    IfListing {
        name: name.into(),
        driver: driver.into(),
        wireless: false,
        device: true,
        operstate: "up\n".into(),
        mtu: "1500\n".into(),
        speed: "2500\n".into(),
        address: "AA:bb:cc:dd:ee:ff\n".into(),
    }
}

#[test]
fn interfaces_are_classified() {
    assert_eq!(classify("lo", true, true, "mlx5_core"), IfKind::Loopback);
    assert_eq!(classify("w", true, true, ""), IfKind::Wifi);
    assert_eq!(classify("w", false, true, "ath11k_pci"), IfKind::Wifi);
    assert_eq!(classify("w", false, true, "iwlwifi"), IfKind::Wifi);
    assert_eq!(classify("t", false, true, "thunderbolt-net"), IfKind::Thunderbolt);
    assert_eq!(classify("t", false, true, "tbnet"), IfKind::Thunderbolt);
    assert_eq!(classify("m", false, true, "mlx5_core"), IfKind::Connectx);
    assert_eq!(classify("br0", false, false, ""), IfKind::Virtual);
    assert_eq!(classify("eno1", false, true, "igc"), IfKind::Ethernet);
    let kinds = [
        (IfKind::Wifi, "wifi"),
        (IfKind::Ethernet, "ethernet"),
        (IfKind::Thunderbolt, "thunderbolt"),
        (IfKind::Connectx, "connectx"),
        (IfKind::Loopback, "loopback"),
        (IfKind::Virtual, "virtual"),
        (IfKind::Other, "other"),
    ];
    for (k, n) in kinds {
        assert_eq!(k.name(), n);
    }
}

#[test]
fn interfaces_are_listed_by_name() {
    let down = IfListing {
        operstate: "down\n".into(),
        mtu: "big".into(),
        speed: "-1\n".into(),
        ..listing("lo", "")
    };
    let list = interfaces(vec![down, listing("eno1", "igc")], ADDR.as_bytes());
    assert_eq!(list[0].name, "eno1");
    assert_eq!((list[0].oper_up, list[0].mtu, list[0].speed_mbps), (true, 1500, Some(2500)));
    assert_eq!(list[0].mac, "AA:bb:cc:dd:ee:ff");
    assert_eq!(list[0].ipv4, vec!["10.0.0.2/32"]);
    assert_eq!((list[1].oper_up, list[1].mtu, list[1].speed_mbps), (false, 0, None));
    assert_eq!(list[1].ipv4, vec!["127.0.0.1/8"]);
    let list = interfaces(vec![listing("eno1", "igc")], b"");
    assert!(list[0].ipv4.is_empty());
}

#[test]
fn thunderbolt_devices_are_listed_by_id() {
    let dev = |id: &str, vendor: &str, device: &str, uid: bool, auth: bool| TbListing {
        id: id.into(),
        vendor: vendor.into(),
        device: device.into(),
        has_unique_id: uid,
        has_authorized: auth,
    };
    let list = thunderbolt_devices(&vec![
        dev("1-1", "Intel\n", "m6\n", true, false),
        dev("domain0", "", " \n", false, false),
        dev("0-0", "GIGABYTE", "", true, true),
    ]);
    let ids: Vec<(&str, bool)> = list.iter().map(|d| (d.id.as_str(), d.is_host_peer)).collect();
    assert_eq!(ids, [("0-0", false), ("1-1", true)]);
    assert_eq!((list[1].vendor.as_str(), list[1].device.as_str()), ("Intel", "m6"));
}

#[test]
fn a_probe_is_gathered_and_printed() {
    let rdma = RdmaDeviceInfo {
        name: "mlx5_0".into(),
        port_state: "ACTIVE".into(),
        link_layer: "Ethernet(RoCE)".into(),
        active_mtu: 4096,
        rate_note: "width x2 speed 32".into(),
        netdev: "fastlink0".into(),
    };
    let tb = thunderbolt_devices(&vec![TbListing {
        id: "1-1".into(),
        vendor: "Intel".into(),
        device: "m6".into(),
        has_unique_id: true,
        has_authorized: false,
    }]);
    let ifs = interfaces(vec![listing("lo", ""), listing("eno1", "igc")], ADDR.as_bytes());
    let mut p = gather("m5".into(), true, Some(machine()), ifs, vec![rdma], true, tb).unwrap();
    assert_eq!(p.version, "0.1.0");
    assert_eq!(
        probe_lines(&p),
        vec![
            "linkbench 0.1.0 on m5",
            "  passwordless sudo: yes",
            "  cpu tuning: performance/performance C3:off busy:50µs",
            "  eno1         ethernet     UP    2500 Mb/s 10.0.0.2/32  igc",
            "  rdma: mlx5_0 on fastlink0 [ACTIVE] Ethernet(RoCE) mtu 4096 (width x2 speed 32)",
            "  thunderbolt: 1-1 Intel m6  [HOST PEER]",
        ]
    );
    p.rdma.clear();
    p.interfaces.clear();
    p.thunderbolt.clear();
    p.tuning.clear();
    p.sudo_passwordless = false;
    assert_eq!(
        probe_lines(&p),
        vec![
            "linkbench 0.1.0 on m5",
            "  passwordless sudo: no",
            "  rdma: none — software RoCE available (`sudo linkbench roce-up --dev <iface>`)",
        ]
    );
    p.softroce_available = false;
    assert_eq!(
        probe_lines(&p)[2],
        "  rdma: none — no hardware RDMA and rdma_rxe unavailable; use tcp"
    );
    let none = gather("x".into(), false, None, vec![], vec![], false, vec![]).unwrap();
    assert_eq!(none.tuning, "");
}

fn roce(persist: bool) -> RoceRequest {
    RoceRequest { iface: "eth0".into(), name: "rxe0".into(), persist }
}

#[test]
fn software_roce_comes_up() {
    assert!(softroce_available(true, false) && softroce_available(false, true));
    assert!(!softroce_available(false, false));
    assert!(matches!(
        roce_up(&roce(false), RoceEvent::Checked(false)),
        RoceAction::Fail(s) if s.starts_with("rdma_rxe (software RoCE) is not available")
    ));
    assert!(matches!(roce_up(&roce(false), RoceEvent::Checked(true)), RoceAction::Load));
    let dev = |device: &str, parent: &str| RdmaParent { device: device.into(), parent: parent.into() };
    assert!(matches!(
        roce_up(&roce(false), RoceEvent::Loaded(vec![dev("mlx5_0", ""), dev("rxe7", "eth0\n")])),
        RoceAction::Done(s) if s == "software RoCE already up: rxe7 on eth0"
    ));
    assert!(matches!(
        roce_up(&roce(false), RoceEvent::Loaded(vec![dev("mlx5_0", "eth1")])),
        RoceAction::AddLink(a) if a.join(" ") == "link add rxe0 type rxe netdev eth0"
    ));
    let added = |success: bool, stderr: &str| RoceEvent::LinkAdded { success, stderr: stderr.into() };
    assert!(matches!(
        roce_up(&roce(false), added(true, "")),
        RoceAction::Done(s) if s == "software RoCE up: rxe0 on eth0"
    ));
    assert!(matches!(
        roce_up(&roce(false), added(false, "error: File exists\n")),
        RoceAction::Done(s) if s == "software RoCE link rxe0 already exists"
    ));
    assert!(matches!(
        roce_up(&roce(false), added(false, " no\n")),
        RoceAction::Fail(s) if s == "rdma link add failed: no"
    ));
    match roce_up(&roce(true), added(true, "")) {
        RoceAction::Persist(f) => {
            assert_eq!(f[0].content, "rdma_rxe\n");
            assert_eq!(f[1].path, "/etc/systemd/system/linkbench-rxe.service");
            assert!(f[1].content.contains(
                "ExecStart=/bin/sh -c 'modprobe rdma_rxe; rdma link add rxe0 type rxe netdev eth0 2>/dev/null || true'\n"
            ));
        }
        _ => panic!("not persisted"),
    }
    assert!(matches!(
        roce_up(&roce(true), RoceEvent::Persisted),
        RoceAction::Done(s) if s.ends_with("(persisted via modules-load.d + linkbench-rxe.service)")
    ));
}

fn netif(name: &str, kind: IfKind) -> NetIf {
    NetIf {
        name: name.into(),
        kind,
        driver: String::new(),
        oper_up: true,
        mtu: 1500,
        speed_mbps: None,
        ipv4: vec![],
        mac: String::new(),
    }
}

#[test]
fn thunderbolt_comes_up() {
    let req = |mtu: Option<u32>, persist: bool| TbRequest { cidr: "10.1.1.1/24".into(), mtu, persist };
    let r = req(None, false);
    let listed = |attempt: u32, l: Vec<NetIf>| TbEvent::Listed { attempt, interfaces: l };
    assert!(matches!(tb_up(&r, "", listed(18, vec![netif("eno1", IfKind::Ethernet)])), TbAction::Wait));
    assert!(matches!(
        tb_up(&r, "", listed(19, vec![])),
        TbAction::Fail(s) if s.starts_with("no thunderbolt-net interface appeared")
    ));
    match tb_up(&r, "", listed(3, vec![netif("eno1", IfKind::Ethernet), netif("tb0", IfKind::Thunderbolt)])) {
        TbAction::SetAddress { ifname, args } => {
            assert_eq!(ifname, "tb0");
            assert_eq!(args.join(" "), "addr replace 10.1.1.1/24 dev tb0");
        }
        _ => panic!("no address"),
    }
    assert!(matches!(
        tb_up(&r, "tb0", TbEvent::Addressed(false)),
        TbAction::Fail(s) if s == "ip addr replace 10.1.1.1/24 dev tb0 failed (needs root)"
    ));
    assert!(matches!(
        tb_up(&r, "tb0", TbEvent::Addressed(true)),
        TbAction::SetUp(a) if a.join(" ") == "link set tb0 up"
    ));
    let mut tried = vec![];
    let mut action = tb_up(&r, "tb0", TbEvent::LinkUp);
    while let TbAction::TryMtu { index, args } = action {
        tried.push(args.join(" "));
        action = tb_up(&r, "tb0", TbEvent::MtuTried { index, accepted: false });
    }
    assert_eq!(
        tried,
        ["link set tb0 mtu 65520", "link set tb0 mtu 9000", "link set tb0 mtu 4000"]
    );
    assert!(matches!(action, TbAction::ReadMtu));
    assert!(matches!(
        tb_up(&r, "tb0", TbEvent::MtuTried { index: 0, accepted: true }),
        TbAction::ReadMtu
    ));
    assert!(matches!(
        tb_up(&req(Some(9000), false), "tb0", TbEvent::MtuTried { index: 0, accepted: false }),
        TbAction::ReadMtu
    ));
    assert!(matches!(
        tb_up(&r, "tb0", TbEvent::MtuRead("65520\n".into())),
        TbAction::Done(s) if s == "tb0 up with 10.1.1.1/24, mtu 65520"
    ));
    match tb_up(&req(None, true), "tb0", TbEvent::MtuRead("65520\n".into())) {
        TbAction::Persist(f) => assert_eq!(
            f[1].content,
            "# written by linkbench tb-up\nnetwork:\n  version: 2\n  ethernets:\n    tb0:\n      addresses: [10.1.1.1/24]\n      mtu: 65520\n"
        ),
        _ => panic!("not persisted"),
    }
    assert!(matches!(
        tb_up(&req(None, true), "tb0", TbEvent::Persisted("65520\n".into())),
        TbAction::Done(s) if s == "tb0 up with 10.1.1.1/24, mtu 65520, persisted (/etc/netplan/70-linkbench-thunderbolt.yaml + modules-load.d)"
    ));
    let args: Vec<String> = ["link", "s\"et"].iter().map(|s| s.to_string()).collect();
    assert_eq!(ip_failed(&args), format!("run ip {args:?} (needs root)"));
    assert_eq!(ip_failed(&vec![]), "run ip [] (needs root)");
    assert!(SUDO_TOGGLE_SCRIPT.starts_with("#!/usr/bin/env bash\n"));
}
