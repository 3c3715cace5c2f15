//! What the history, tune and probe commands print.

use crate::history::{fmt_ts, time_text, HistoryEntry};
use crate::measure::Figure;
use crate::probe::{IfKind, NetIf, NodeProbe, TbDevice};
use crate::proto::{RdmaDeviceInfo, VERSION};
use crate::report::{bits_text, fmt_bits, Rate};
use crate::scan::{join, joined, lemma_views_push, views};
use crate::text::{
    chars_of, dec, dec_int, decimal, decimal_int, left_padded, pad_left, pad_right, quoted,
    quoted_text, right_padded, text_of, texts,
};
use crate::tune::{CpuTuneState, IdleStateInfo, Profile};
use vstd::prelude::*;

verus! {

// ------------------------------------------------------------------ history

/// How the numbers of an archived run read.
pub struct HistoryFigures {
    pub score: Figure,
    pub up: Rate,
    pub sync: Figure,
}

pub open spec fn at_most(s: Seq<char>, n: int) -> Seq<char> {
    if s.len() <= n {
        s
    } else {
        s.take(n)
    }
}

fn first_chars(s: &str, n: usize) -> (r: String)
    ensures
        r@ == at_most(s@, n as int),
{
    let v = chars_of(s);
    if v.len() <= n {
        s.to_owned()
    } else {
        let r = text_of(&v, 0, n);
        assert(r@ =~= s@.take(n as int));
        r
    }
}

pub open spec fn history_header() -> Seq<char> {
    pad_right("when (UTC)"@, 16) + " "@ + pad_right("label / peer"@, 26) + " "@ + pad_right(
        "path"@,
        13,
    ) + " "@ + pad_right("transport"@, 9) + " "@ + pad_left("score"@, 5, ' ') + " "@ + pad_left(
        "up"@,
        10,
        ' ',
    ) + " "@ + pad_left("16K ar"@, 9, ' ') + "  tuning (A)"@
}

pub open spec fn history_row(e: HistoryEntry, f: HistoryFigures) -> Seq<char> {
    pad_right(time_text(e.ts as int), 16) + " "@ + pad_right(
        if e.label@.len() == 0 {
            e.results.client_host@ + " - "@ + e.results.server_host@
        } else {
            e.label@
        },
        26,
    ) + " "@ + pad_right(at_most(e.results.path@, 13), 13) + " "@ + pad_right(
        e.results.transport@,
        9,
    ) + " "@ + pad_left(f.score.d1@, 5, ' ') + " "@ + pad_left(bits_text(f.up), 10, ' ') + " "@
        + pad_left(f.sync.d0@, 7, ' ') + "µs  "@ + e.results.tuning_a@ + (if e.notes@.len() == 0 {
        Seq::empty()
    } else {
        "  — "@ + e.notes@
    })
}

/// The table of the entries from `start` on.
pub open spec fn history_table(
    all: Seq<HistoryEntry>,
    start: int,
    f: Seq<HistoryFigures>,
) -> Seq<Seq<char>> {
    let shown = all.len() - start;
    if shown <= 0 {
        seq!["no history yet — runs append to ~/.local/share/linkbench/history/"@]
    } else {
        seq![history_header()] + Seq::new(
            shown as nat,
            |i: int| history_row(all[start + i], f[i]),
        ) + seq!["("@ + dec(shown as nat) + " shown of "@ + dec(all.len()) + " total)"@]
    }
}

fn header_text() -> (r: String)
    ensures
        r@ == history_header(),
{
    right_padded("when (UTC)", 16).concat(" ").concat(
        right_padded("label / peer", 26).as_str(),
    ).concat(" ").concat(right_padded("path", 13).as_str()).concat(" ").concat(
        right_padded("transport", 9).as_str(),
    ).concat(" ").concat(left_padded("score", 5, ' ').as_str()).concat(" ").concat(
        left_padded("up", 10, ' ').as_str(),
    ).concat(" ").concat(left_padded("16K ar", 9, ' ').as_str()).concat("  tuning (A)")
}

fn row_text(e: &HistoryEntry, f: &HistoryFigures) -> (r: String)
    ensures
        r@ == history_row(*e, *f),
{
    let label = if e.label.as_str().is_empty() {
        e.results.client_host.clone().concat(" - ").concat(e.results.server_host.as_str())
    } else {
        e.label.clone()
    };
    let notes = if e.notes.as_str().is_empty() {
        String::new()
    } else {
        "  — ".to_owned().concat(e.notes.as_str())
    };
    right_padded(fmt_ts(e.ts).as_str(), 16).concat(" ").concat(
        right_padded(label.as_str(), 26).as_str(),
    ).concat(" ").concat(
        right_padded(first_chars(e.results.path.as_str(), 13).as_str(), 13).as_str(),
    ).concat(" ").concat(right_padded(e.results.transport.as_str(), 9).as_str()).concat(
        " ",
    ).concat(left_padded(f.score.d1.as_str(), 5, ' ').as_str()).concat(" ").concat(
        left_padded(fmt_bits(&f.up).as_str(), 10, ' ').as_str(),
    ).concat(" ").concat(left_padded(f.sync.d0.as_str(), 7, ' ').as_str()).concat("µs  ").concat(
        e.results.tuning_a.as_str(),
    ).concat(notes.as_str())
}

/// The history table: the entries from `start` on, each with its figures.
pub fn history_lines(all: &Vec<HistoryEntry>, start: usize, f: &Vec<HistoryFigures>) -> (v: Vec<
    String,
>)
    requires
        start <= all@.len(),
        f@.len() == all@.len() - start,
    ensures
        views(v@) == history_table(all@, start as int, f@),
{
    let n = all.len();
    if start == n {
        let v = texts(["no history yet — runs append to ~/.local/share/linkbench/history/"]);
        assert(views(v@) =~= history_table(all@, start as int, f@));
        return v;
    }
    let shown: usize = n - start;
    let mut v: Vec<String> = Vec::new();
    v.push(header_text());
    let mut i: usize = 0;
    while i < shown
        invariant
            i <= shown,
            shown == n - start,
            n == all@.len(),
            start <= n,
            f@.len() == shown,
            v@.len() == i + 1,
            v@[0]@ == history_header(),
            forall|k: int|
                #![trigger v@[k]]
                1 <= k < i + 1 ==> v@[k]@ == history_row(all@[start + k - 1], f@[k - 1]),
        decreases shown - i,
    {
        v.push(row_text(&all[start + i], &f[i]));
        i += 1;
    }
    v.push(
        "(".to_owned().concat(decimal(shown as u64).as_str()).concat(" shown of ").concat(
            decimal(n as u64).as_str(),
        ).concat(" total)"),
    );
    assert(views(v@) =~= history_table(all@, start as int, f@));
    v
}

// --------------------------------------------------------------------- tune

pub open spec fn unknown_profile_text(p: Seq<char>) -> Seq<char> {
    "unknown profile "@ + quoted_text(p) + " (default|balanced|latency)"@
}

/// The profile that was asked for.
pub fn profile_named(p: &str) -> (r: Result<Profile, String>)
    ensures
        r matches Ok(x) ==> p@ == x.named(),
        forall|x: Profile| p@ == #[trigger] x.named() ==> r == Ok::<Profile, String>(x),
        r matches Err(e) ==> e@ == unknown_profile_text(p@),
{
    match Profile::parse(p) {
        Some(x) => Ok(x),
        None => Err(
            "unknown profile ".to_owned().concat(quoted(p).as_str()).concat(
                " (default|balanced|latency)",
            ),
        ),
    }
}

pub fn applied_text(p: Profile) -> (r: String)
    ensures
        r@ == "applied profile "@ + p.named() + " (runtime-only; resets on reboot)"@,
{
    "applied profile ".to_owned().concat(p.name().as_str()).concat(
        " (runtime-only; resets on reboot)",
    )
}

pub open spec fn idle_line(i: nat, s: IdleStateInfo) -> Seq<char> {
    "  idle state"@ + dec(i) + " "@ + pad_right(s.name@, 10) + " exit "@ + pad_left(
        dec(s.latency_us as nat),
        4,
        ' ',
    ) + " µs   "@ + (if s.disabled {
        "DISABLED"@
    } else {
        "enabled"@
    })
}

pub open spec fn tune_table(s: CpuTuneState) -> Seq<Seq<char>> {
    seq![
        "cpus: "@ + dec(s.cpus as nat),
        "governor: "@ + s.governor@ + "   epp: "@ + s.epp@,
    ] + Seq::new(s.idle_states@.len(), |i: int| idle_line(i as nat, s.idle_states@[i])) + seq![
        "summary: "@ + s.summarized(),
    ]
}

pub fn tune_lines(s: &CpuTuneState) -> (v: Vec<String>)
    ensures
        views(v@) == tune_table(*s),
{
    let mut v: Vec<String> = Vec::new();
    v.push("cpus: ".to_owned().concat(decimal(s.cpus as u64).as_str()));
    v.push(
        "governor: ".to_owned().concat(s.governor.as_str()).concat("   epp: ").concat(
            s.epp.as_str(),
        ),
    );
    let n = s.idle_states.len();
    let mut i: usize = 0;
    while i < n
        invariant
            i <= n,
            n == s.idle_states@.len(),
            v@.len() == i + 2,
            v@[0]@ == "cpus: "@ + dec(s.cpus as nat),
            v@[1]@ == "governor: "@ + s.governor@ + "   epp: "@ + s.epp@,
            forall|k: int|
                #![trigger v@[k]]
                2 <= k < i + 2 ==> v@[k]@ == idle_line((k - 2) as nat, s.idle_states@[k - 2]),
        decreases n - i,
    {
        let st = &s.idle_states[i];
        v.push(
            "  idle state".to_owned().concat(decimal(i as u64).as_str()).concat(" ").concat(
                right_padded(st.name.as_str(), 10).as_str(),
            ).concat(" exit ").concat(
                left_padded(decimal(st.latency_us).as_str(), 4, ' ').as_str(),
            ).concat(" µs   ").concat(
                if st.disabled {
                    "DISABLED"
                } else {
                    "enabled"
                },
            ),
        );
        i += 1;
    }
    v.push("summary: ".to_owned().concat(s.summary().as_str()));
    assert(views(v@) =~= tune_table(*s));
    v
}

// -------------------------------------------------------------------- probe

pub open spec fn interface_line(i: NetIf) -> Seq<char> {
    "  "@ + pad_right(i.name@, 12) + " "@ + pad_right(i.kind.named(), 12) + " "@ + pad_right(
        if i.oper_up {
            "UP"@
        } else {
            "down"@
        },
        5,
    ) + " "@ + (match i.speed_mbps {
        Some(s) => dec_int(s as int) + " Mb/s "@,
        None => Seq::empty(),
    }) + (if i.ipv4@.len() == 0 {
        "no-ip"@
    } else {
        joined(views(i.ipv4@), ","@)
    }) + "  "@ + i.driver@
}

/// One line per interface but the loopback.
pub open spec fn interface_table(list: Seq<NetIf>) -> Seq<Seq<char>>
    decreases list.len(),
{
    if list.len() == 0 {
        Seq::empty()
    } else if list.last().kind is Loopback {
        interface_table(list.drop_last())
    } else {
        interface_table(list.drop_last()).push(interface_line(list.last()))
    }
}

pub open spec fn rdma_line(d: RdmaDeviceInfo) -> Seq<char> {
    "  rdma: "@ + d.name@ + " on "@ + d.netdev@ + " ["@ + d.port_state@ + "] "@ + d.link_layer@
        + " mtu "@ + dec(d.active_mtu as nat) + " ("@ + d.rate_note@ + ")"@
}

pub open spec fn thunderbolt_line(t: TbDevice) -> Seq<char> {
    "  thunderbolt: "@ + t.id@ + " "@ + t.vendor@ + " "@ + t.device@ + (if t.is_host_peer {
        "  [HOST PEER]"@
    } else {
        Seq::empty()
    })
}

pub open spec fn probe_head(p: NodeProbe) -> Seq<Seq<char>> {
    seq![
        "linkbench "@ + VERSION@ + " on "@ + p.hostname@,
        "  passwordless sudo: "@ + (if p.sudo_passwordless {
            "yes"@
        } else {
            "no"@
        }),
    ] + (if p.tuning@.len() > 0 {
        seq!["  cpu tuning: "@ + p.tuning@]
    } else {
        Seq::empty()
    })
}

pub open spec fn no_rdma_line(p: NodeProbe) -> Seq<Seq<char>> {
    if p.rdma@.len() == 0 {
        seq![
            "  rdma: none — "@ + (if p.softroce_available {
                "software RoCE available (`sudo linkbench roce-up --dev <iface>`)"@
            } else {
                "no hardware RDMA and rdma_rxe unavailable; use tcp"@
            }),
        ]
    } else {
        Seq::empty()
    }
}

pub open spec fn probe_table(p: NodeProbe) -> Seq<Seq<char>> {
    probe_head(p) + interface_table(p.interfaces@) + Seq::new(
        p.rdma@.len(),
        |i: int| rdma_line(p.rdma@[i]),
    ) + Seq::new(p.thunderbolt@.len(), |i: int| thunderbolt_line(p.thunderbolt@[i]))
        + no_rdma_line(p)
}

fn interface_text(i: &NetIf) -> (r: String)
    ensures
        r@ == interface_line(*i),
{
    let state = if i.oper_up {
        "UP"
    } else {
        "down"
    };
    let speed = match i.speed_mbps {
        Some(s) => decimal_int(s).concat(" Mb/s "),
        None => String::new(),
    };
    let ips = if i.ipv4.len() == 0 {
        "no-ip".to_owned()
    } else {
        join(&i.ipv4, ",")
    };
    "  ".to_owned().concat(right_padded(i.name.as_str(), 12).as_str()).concat(" ").concat(
        right_padded(i.kind.name().as_str(), 12).as_str(),
    ).concat(" ").concat(right_padded(state, 5).as_str()).concat(" ").concat(
        speed.as_str(),
    ).concat(ips.as_str()).concat("  ").concat(i.driver.as_str())
}

fn interface_rows(list: &Vec<NetIf>) -> (v: Vec<String>)
    ensures
        views(v@) == interface_table(list@),
{
    let mut v: Vec<String> = Vec::new();
    let n = list.len();
    let mut i: usize = 0;
    assert(views(v@) =~= interface_table(list@.take(0)));
    while i < n
        invariant
            i <= n,
            n == list@.len(),
            views(v@) == interface_table(list@.take(i as int)),
        decreases n - i,
    {
        proof {
            assert(list@.take(i + 1).drop_last() =~= list@.take(i as int));
        }
        if list[i].kind != IfKind::Loopback {
            let t = interface_text(&list[i]);
            proof {
                lemma_views_push(v@, t);
            }
            v.push(t);
        }
        i += 1;
    }
    assert(list@.take(n as int) =~= list@);
    v
}

fn rdma_text(d: &RdmaDeviceInfo) -> (r: String)
    ensures
        r@ == rdma_line(*d),
{
    "  rdma: ".to_owned().concat(d.name.as_str()).concat(" on ").concat(d.netdev.as_str()).concat(
        " [",
    ).concat(d.port_state.as_str()).concat("] ").concat(d.link_layer.as_str()).concat(
        " mtu ",
    ).concat(decimal(d.active_mtu as u64).as_str()).concat(" (").concat(
        d.rate_note.as_str(),
    ).concat(")")
}

fn thunderbolt_text(t: &TbDevice) -> (r: String)
    ensures
        r@ == thunderbolt_line(*t),
{
    let peer = if t.is_host_peer {
        "  [HOST PEER]".to_owned()
    } else {
        String::new()
    };
    "  thunderbolt: ".to_owned().concat(t.id.as_str()).concat(" ").concat(
        t.vendor.as_str(),
    ).concat(" ").concat(t.device.as_str()).concat(peer.as_str())
}

/// What this node offers.
pub fn probe_lines(p: &NodeProbe) -> (v: Vec<String>)
    ensures
        views(v@) == probe_table(*p),
{
    let mut v: Vec<String> = Vec::new();
    v.push("linkbench ".to_owned().concat(VERSION).concat(" on ").concat(p.hostname.as_str()));
    v.push(
        "  passwordless sudo: ".to_owned().concat(
            if p.sudo_passwordless {
                "yes"
            } else {
                "no"
            },
        ),
    );
    if !p.tuning.as_str().is_empty() {
        v.push("  cpu tuning: ".to_owned().concat(p.tuning.as_str()));
    }
    assert(views(v@) =~= probe_head(*p));
    let mut rows = interface_rows(&p.interfaces);
    let ghost (x, y) = (v@, rows@);
    v.append(&mut rows);
    let ghost two = probe_head(*p) + interface_table(p.interfaces@);
    assert(views(v@) =~= two) by {
        assert(views(v@) =~= views(x) + views(y));
    }
    let ghost base = v@;
    let n = p.rdma.len();
    let mut i: usize = 0;
    while i < n
        invariant
            i <= n,
            n == p.rdma@.len(),
            v@.len() == base.len() + i,
            forall|k: int| 0 <= k < base.len() ==> #[trigger] v@[k] == base[k],
            forall|k: int|
                #![trigger v@[k]]
                base.len() <= k < base.len() + i ==> v@[k]@ == rdma_line(
                    p.rdma@[k - base.len()],
                ),
        decreases n - i,
    {
        v.push(rdma_text(&p.rdma[i]));
        i += 1;
    }
    let ghost three = two + Seq::new(p.rdma@.len(), |i: int| rdma_line(p.rdma@[i]));
    assert(views(v@) =~= three) by {
        assert forall|k: int| 0 <= k < base.len() implies views(v@)[k] == two[k] by {
            assert(v@[k] == base[k]);
            assert(views(base)[k] == base[k]@);
        }
    }
    let ghost base3 = v@;
    let m = p.thunderbolt.len();
    let mut j: usize = 0;
    while j < m
        invariant
            j <= m,
            m == p.thunderbolt@.len(),
            v@.len() == base3.len() + j,
            forall|k: int| 0 <= k < base3.len() ==> #[trigger] v@[k] == base3[k],
            forall|k: int|
                #![trigger v@[k]]
                base3.len() <= k < base3.len() + j ==> v@[k]@ == thunderbolt_line(
                    p.thunderbolt@[k - base3.len()],
                ),
        decreases m - j,
    {
        v.push(thunderbolt_text(&p.thunderbolt[j]));
        j += 1;
    }
    let ghost four = three + Seq::new(
        p.thunderbolt@.len(),
        |i: int| thunderbolt_line(p.thunderbolt@[i]),
    );
    assert(views(v@) =~= four) by {
        assert forall|k: int| 0 <= k < base3.len() implies views(v@)[k] == three[k] by {
            assert(v@[k] == base3[k]);
            assert(views(base3)[k] == base3[k]@);
        }
    }
    if n == 0 {
        let t = "  rdma: none — ".to_owned().concat(
            if p.softroce_available {
                "software RoCE available (`sudo linkbench roce-up --dev <iface>`)"
            } else {
                "no hardware RDMA and rdma_rxe unavailable; use tcp"
            },
        );
        proof {
            lemma_views_push(v@, t);
        }
        v.push(t);
    }
    assert(views(v@) =~= four + no_rdma_line(*p));
    v
}

} // verus!
