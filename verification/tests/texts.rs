use linkbench::calendar::civil_date;
use linkbench::history::{
    append, fmt_ts, in_order_of_time, is_record_name, list, record_name, slug, window_start,
    ArchiveFile, HistoryEntry,
};
use linkbench::measure::{reading, Reading};
use linkbench::order::sort_stable;
use linkbench::scan;
use linkbench::text;

#[test]
fn decimals_and_padding() {
    assert_eq!(text::decimal(0), "0");
    assert_eq!(text::decimal(18446744073709551615), "18446744073709551615");
    assert_eq!(text::decimal_int(-9223372036854775808), "-9223372036854775808");
    assert_eq!(text::decimal_padded(7, 4), "0007");
    assert_eq!(text::left_padded("µs", 4, ' '), "  µs");
    assert_eq!(text::right_padded("µs", 4), "µs  ");
    assert_eq!(text::right_padded("longer", 4), "longer");
    assert_eq!(text::repeat_char('▮', 3), "▮▮▮");
}

#[test]
fn numbers_are_parsed_like_std_does() {
    for s in ["0", "17", "+5", "00042", "4294967295", "4294967296", "", "+", "-1", "1a", " 1", "٣"] {
        assert_eq!(
            text::parse_uint(s, 4294967295),
            s.parse::<u32>().ok().map(|v| v as u64),
            "{s:?}"
        );
    }
    for s in [
        "0", "-17", "+5", "-", "--1", "9223372036854775807", "9223372036854775808",
        "-9223372036854775808", "-9223372036854775809", "-0", "1-",
    ] {
        assert_eq!(text::parse_i64(s), s.parse::<i64>().ok(), "{s:?}");
    }
}

#[test]
fn scanning_is_like_std() {
    let samples = [
        "", " ", "a", " a b ", "\u{3000}x\u{2028}", "a,b,,c", ",", "a\nb\r\nc", "a\n", "\r\n\r", "x=1=2",
        "lladdr aa:bb", "\u{85}tail\u{a0}",
    ];
    for s in samples {
        assert_eq!(scan::trimmed(s), s.trim(), "{s:?}");
        assert_eq!(scan::split(s, ','), s.split(',').collect::<Vec<_>>(), "{s:?}");
        assert_eq!(
            scan::split_whitespace(s),
            s.split_whitespace().collect::<Vec<_>>(),
            "{s:?}"
        );
        assert_eq!(scan::lines(s), s.lines().collect::<Vec<_>>(), "{s:?}");
        assert_eq!(
            scan::split_once(s, '='),
            s.split_once('=').map(|(a, b)| (a.to_string(), b.to_string()))
        );
        assert_eq!(
            scan::rsplit_once(s, '='),
            s.rsplit_once('=').map(|(a, b)| (a.to_string(), b.to_string()))
        );
        assert_eq!(scan::strip_prefixes(s, "a"), s.trim_start_matches("a"));
        for t in samples {
            assert_eq!(scan::contains(s, t), s.contains(t), "{s:?} {t:?}");
            assert_eq!(scan::starts_with(s, t), s.starts_with(t));
            assert_eq!(scan::ends_with(s, t), s.ends_with(t));
            assert_eq!(scan::comes_before(s, t), s < t, "{s:?} {t:?}");
            assert_eq!(scan::equal_ignoring_case(s, t), s.eq_ignore_ascii_case(t));
        }
    }
    assert!(scan::equal_ignoring_case("RoCE v2", "roce V2"));
    assert_eq!(scan::strip_prefixes("~/~/bin", "~/"), "bin");
    let list = vec!["a".to_string(), "b".to_string(), "c".to_string()];
    assert_eq!(scan::join(&list, ", "), "a, b, c");
    assert_eq!(scan::join(&Vec::new(), ", "), "");
}

#[test]
fn sorting_is_stable() {
    let v: Vec<String> = ["b", "a", "ba", "a"].iter().map(|s| s.to_string()).collect();
    assert_eq!(sort_stable(v), vec!["a", "a", "b", "ba"]);
    let bits = |x: f64| Reading { bits: x.to_bits() };
    let v = vec![bits(2.0), bits(-1.0), bits(0.0), bits(-0.0), bits(1e300)];
    let sorted: Vec<u64> = sort_stable(v).iter().map(|r| r.bits).collect();
    let want: Vec<u64> = [-1.0f64, 0.0, -0.0, 2.0, 1e300].iter().map(|x| x.to_bits()).collect();
    assert_eq!(sorted, want);
}

#[test]
fn readings_compare_like_numbers() {
    let xs = [
        0.0f64, -0.0, 1.0, -1.0, 0.5, 1e-310, -1e-310, 5e-324, 1e308, f64::INFINITY,
        f64::NEG_INFINITY, f64::NAN,
    ];
    for a in xs {
        for b in xs {
            let (ra, rb) = (reading(a.to_bits()), reading(b.to_bits()));
            assert_eq!(ra.less(&rb), a < b, "{a} {b}");
            assert_eq!(ra.at_most(&rb), a <= b, "{a} {b}");
            let m = f64::from_bits(ra.max(&rb).bits);
            if a.is_nan() && b.is_nan() {
                assert!(m.is_nan());
            } else {
                assert_eq!(m, a.max(b));
            }
        }
        assert_eq!(reading(a.to_bits()).is_nan(), a.is_nan());
        if !a.is_nan() {
            assert_eq!(f64::from_bits(reading(a.to_bits()).half().bits), a * 0.5, "{a}");
        }
    }
    for units in 0u64..9 {
        let x = f64::from_bits(units);
        assert_eq!(reading(units).half().bits, (x * 0.5).to_bits(), "{units}");
    }
}

#[test]
fn dates_of_the_calendar() {
    let d = civil_date(0);
    assert_eq!((d.year, d.month, d.day), (1970, 1, 1));
    let d = civil_date(11016);
    assert_eq!((d.year, d.month, d.day), (2000, 2, 29));
    let d = civil_date(47540);
    assert_eq!((d.year, d.month, d.day), (2100, 2, 28));
    let d = civil_date(47541);
    assert_eq!((d.year, d.month, d.day), (2100, 3, 1));
}

#[test]
fn times_are_written_in_utc() {
    assert_eq!(fmt_ts(0), "1970-01-01 00:00");
    assert_eq!(fmt_ts(951_827_696), "2000-02-29 12:34");
    assert_eq!(fmt_ts(1_767_225_599), "2025-12-31 23:59");
    assert_eq!(fmt_ts(253_402_300_800), "10000-01-01 00:00");
}

#[test]
fn records_are_named_and_found() {
    assert_eq!(slug("connectx 100G · rdma"), "connectx_100G___rdma");
    assert_eq!(record_name(17, "", "tcp", "m6/x"), "17-tcp-m6_x.json");
    assert_eq!(record_name(17, "riser B", "tcp", "m6"), "17-riser_B.json");
    for name in ["17-riser_B.json", "..json", "a.b.json"] {
        assert!(is_record_name(name), "{name}");
    }
    for name in [".json", "json", "a.txt", "a.json.bak", "a."] {
        assert!(!is_record_name(name), "{name}");
    }
    assert!(is_record_name(&record_name(0, "a/b\\c", "", "")));
}

fn entry(ts: u64, label: &str) -> HistoryEntry {
    HistoryEntry {
        ts,
        label: label.to_string(),
        notes: String::new(),
        results: linkbench::bench::Results {
            transport: "tcp".into(),
            path: String::new(),
            client_host: String::new(),
            server_host: String::new(),
            duration_target_s: reading(0),
            latency: vec![],
            sweep: vec![],
            uni_c2s_bps: reading(0),
            uni_s2c_bps: reading(0),
            bidir_agg_bps: reading(0),
            msg_rate_per_s: reading(0),
            allreduce_16k_us: reading(0),
            allreduce_1g_bps: reading(0),
            kv32m_ms: reading(0),
            timeline_bucket_ms: 200,
            timeline_up_bps: vec![],
            timeline_down_bps: vec![],
            timeline_up_steady: 0,
            timeline_down_steady: 0,
            temps_b_sys: vec![],
            temps_b_nic: vec![],
            temps_a_sys: vec![],
            temps_a_nic: vec![],
            loaded_rtt: None,
            idle_gaps: vec![],
            score: None,
            tuning_a: String::new(),
            tuning_b: String::new(),
        },
    }
}

#[test]
fn history_is_in_order_of_time() {
    let v = in_order_of_time(vec![entry(5, "a"), entry(3, "b"), entry(5, "c"), entry(1, "d")]);
    let labels: Vec<&str> = v.iter().map(|e| e.label.as_str()).collect();
    assert_eq!(labels, ["d", "b", "a", "c"]);
    assert_eq!(window_start(40, 30), 10);
    assert_eq!(window_start(4, 30), 0);
}

#[test]
fn times_sort_as_text() {
    let times = [0u64, 59, 60, 3599, 86_399, 86_400, 951_827_696, 1_767_225_599, 253_402_300_799];
    for pair in times.windows(2) {
        let (a, b) = (fmt_ts(pair[0]), fmt_ts(pair[1]));
        assert_eq!(a.len(), 16);
        assert!(a <= b);
        assert_eq!(a == b, pair[0] / 60 == pair[1] / 60);
    }
    assert_eq!(fmt_ts(253_402_300_799), "9999-12-31 23:59");
}

#[test]
fn archived_runs_are_listed() {
    let late = append(30, entry(0, "").results, "riser B", "new cable");
    assert_eq!(late.name, "30-riser_B.json");
    let files = vec![
        late,
        ArchiveFile { name: "notes.txt".into(), record: Some(entry(1, "not a record")) },
        ArchiveFile { name: "5-broken.json".into(), record: None },
        append(20, entry(0, "").results, "", ""),
    ];
    assert_eq!(files[3].name, "20-tcp-.json");
    let found = list(files);
    let shown: Vec<(u64, &str, &str)> =
        found.iter().map(|e| (e.ts, e.label.as_str(), e.notes.as_str())).collect();
    assert_eq!(shown, [(20, "", ""), (30, "riser B", "new cable")]);
    assert!(list(vec![]).is_empty());
}
