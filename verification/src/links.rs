//! The links between two nodes, found by correlating what both report: matching
//! subnets per interface kind, and thunderbolt peers that are not up yet.

use crate::measure::Reading;
use crate::probe::{IfKind, NetIf, NodeProbe, TbDevice};
use crate::proto::RdmaDeviceInfo;
use crate::scan::{
    contains, cut_first, lemma_pieces_nonempty, lines, lines_of, mentions, pieces, split,
    split_once, split_whitespace, trim, trimmed, views, words,
};
use crate::text::{
    dec, dec_int, decimal_int, lowercase_of, parse_uint, parsed_uint, same, to_lowercase,
};
use vstd::prelude::*;

verus! {

// ------------------------------------------------------------------ subnets

/// Octets, folded into an address from the left.
pub open spec fn folded(octets: Seq<Seq<char>>) -> Option<u32>
    decreases octets.len(),
{
    if octets.len() == 0 {
        Some(0)
    } else {
        match (
            folded(octets.drop_last()),
            parsed_uint(octets.last(), u32::MAX as nat),
        ) {
            (Some(v), Some(oct)) => Some((v << 8u32) | (oct as u32)),
            _ => None,
        }
    }
}

pub open spec fn mask_of(prefix: u32) -> u32 {
    if prefix == 0 {
        0
    } else if prefix >= 32 {
        0xffff_ffff
    } else {
        0xffff_ffffu32 << ((32 - prefix) as u32)
    }
}

/// The address and the network mask of ADDRESS/PREFIX.
pub open spec fn cidr(s: Seq<char>) -> Option<(u32, u32)> {
    match cut_first(s, '/') {
        Some((ip, prefix)) => match (
            folded(pieces(ip, '.')),
            parsed_uint(prefix, u32::MAX as nat),
        ) {
            (Some(v), Some(p)) => Some((v, mask_of(p as u32))),
            _ => None,
        },
        None => None,
    }
}

pub fn parse_cidr(s: &str) -> (r: Option<(u32, u32)>)
    ensures
        r == cidr(s@),
{
    let (ip, prefix) = match split_once(s, '/') {
        Some(p) => p,
        None => {
            return None;
        },
    };
    let octets = split(ip.as_str(), '.');
    let n = octets.len();
    let mut v: u32 = 0;
    let mut i: usize = 0;
    let ghost all = views(octets@);
    while i < n
        invariant
            i <= n,
            n == octets@.len(),
            all == views(octets@),
            all == pieces(ip@, '.'),
            cut_first(s@, '/') == Some((ip@, prefix@)),
            folded(all.take(i as int)) == Some(v),
        decreases n - i,
    {
        proof {
            assert(all.take(i + 1).drop_last() =~= all.take(i as int));
            assert(all.take(i + 1).last() == octets@[i as int]@);
        }
        match parse_uint(octets[i].as_str(), 0xffff_ffff) {
            Some(oct) => {
                v = (v << 8) | (oct as u32);
            },
            None => {
                proof {
                    lemma_folded_none(all, i + 1);
                }
                return None;
            },
        }
        i += 1;
    }
    assert(all.take(n as int) =~= all);
    match parse_uint(prefix.as_str(), 0xffff_ffff) {
        Some(p) => {
            let p = p as u32;
            let mask: u32 = if p == 0 {
                0
            } else if p >= 32 {
                0xffff_ffff
            } else {
                0xffff_ffffu32 << (32 - p)
            };
            Some((v, mask))
        },
        None => None,
    }
}

/// An octet that is no number spoils the address.
proof fn lemma_folded_none(octets: Seq<Seq<char>>, k: int)
    requires
        0 <= k <= octets.len(),
        folded(octets.take(k)) is None,
    ensures
        folded(octets) is None,
    decreases octets.len() - k,
{
    if k < octets.len() {
        assert(octets.take(k + 1).drop_last() =~= octets.take(k));
        lemma_folded_none(octets, k + 1);
    } else {
        assert(octets.take(k) =~= octets);
    }
}

/// Four octets make the address they usually stand for.
pub proof fn law_dotted_quad(octets: Seq<Seq<char>>, a: u32, b: u32, c: u32, d: u32)
    requires
        octets.len() == 4,
        a < 256 && b < 256 && c < 256 && d < 256,
        parsed_uint(octets[0], u32::MAX as nat) == Some(a as nat),
        parsed_uint(octets[1], u32::MAX as nat) == Some(b as nat),
        parsed_uint(octets[2], u32::MAX as nat) == Some(c as nat),
        parsed_uint(octets[3], u32::MAX as nat) == Some(d as nat),
    ensures
        folded(octets) == Some((a * 0x100_0000 + b * 0x1_0000 + c * 0x100 + d) as u32),
{
    reveal_with_fuel(folded, 5);
    let o3 = octets.drop_last();
    let o2 = o3.drop_last();
    let o1 = o2.drop_last();
    assert(o1.drop_last() =~= Seq::empty());
    assert(((((((0u32 << 8u32) | a) << 8u32) | b) << 8u32 | c) << 8u32) | d == a * 0x100_0000 + b
        * 0x1_0000 + c * 0x100 + d) by (bit_vector)
        requires
            a < 256 && b < 256 && c < 256 && d < 256,
    ;
}

/// An address as it is usually written, with a prefix, reads as the number that
/// its octets make and the mask of that prefix.
pub proof fn law_cidr_reads_a_dotted_quad(a: u32, b: u32, c: u32, d: u32, p: u32)
    requires
        a < 256 && b < 256 && c < 256 && d < 256,
        p <= 32,
    ensures
        ({
            let (dot, slash) = (seq!['.'], seq!['/']);
            let ip = dec(a as nat) + dot + (dec(b as nat) + dot + (dec(c as nat) + dot + dec(
                d as nat,
            )));
            cidr(ip + slash + dec(p as nat)) == Some(
                ((a * 0x100_0000 + b * 0x1_0000 + c * 0x100 + d) as u32, mask_of(p)),
            )
        }),
{
    let (dot, slash) = (seq!['.'], seq!['/']);
    let (o0, o1, o2, o3) = (dec(a as nat), dec(b as nat), dec(c as nat), dec(d as nat));
    let t2 = o2 + dot + o3;
    let t1 = o1 + dot + t2;
    let ip = o0 + dot + t1;
    let prefix = dec(p as nat);
    let all = ip + slash + prefix;
    crate::text::lemma_dec_digits(a as nat);
    crate::text::lemma_dec_digits(b as nat);
    crate::text::lemma_dec_digits(c as nat);
    crate::text::lemma_dec_digits(d as nat);
    crate::text::lemma_dec_digits(p as nat);
    crate::scan::law_pieces_are_cut_at_separators(o0, t1, '.');
    crate::scan::law_pieces_are_cut_at_separators(o1, t2, '.');
    crate::scan::law_pieces_are_cut_at_separators(o2, o3, '.');
    crate::scan::law_pieces_are_cut_at_separators(o3, o3, '.');
    let octets = pieces(ip, '.');
    assert(octets =~= seq![o0, o1, o2, o3]);
    crate::text::law_number_reads_back(a as nat, u32::MAX as nat);
    crate::text::law_number_reads_back(b as nat, u32::MAX as nat);
    crate::text::law_number_reads_back(c as nat, u32::MAX as nat);
    crate::text::law_number_reads_back(d as nat, u32::MAX as nat);
    crate::text::law_number_reads_back(p as nat, u32::MAX as nat);
    law_dotted_quad(octets, a, b, c, d);
    let at = ip.len() as int;
    crate::scan::lemma_first_pos(all, '/');
    assert(all[at] == '/');
    assert forall|i: int| 0 <= i < at implies all[i] != '/' by {
        assert(all[i] == ip[i]);
        let (n0, n1, n2) = (o0.len() as int, o1.len() as int, o2.len() as int);
        if i < n0 {
            assert(ip[i] == o0[i]);
        } else if n0 < i < n0 + 1 + n1 {
            assert(ip[i] == o1[i - n0 - 1]);
        } else if n0 + n1 + 1 < i < n0 + n1 + n2 + 2 {
            assert(ip[i] == o2[i - n0 - n1 - 2]);
        } else if i > n0 + n1 + n2 + 2 {
            assert(ip[i] == o3[i - n0 - n1 - n2 - 3]);
        }
    }
    assert(crate::scan::first_pos(all, '/') == at);
    assert(all.take(at) =~= ip);
    assert(all.skip(at + 1) =~= prefix);
}

/// Two addresses lie in one network, under the shorter of the two masks.
pub open spec fn same_network(x: (u32, u32), y: (u32, u32)) -> bool {
    let m = if x.1 < y.1 {
        x.1
    } else {
        y.1
    };
    x.0 & m == y.0 & m
}

/// Whether two addresses share a network does not depend on who asks.
pub proof fn law_same_network_is_mutual(x: (u32, u32), y: (u32, u32))
    ensures
        same_network(x, y) == same_network(y, x),
{
}

/// Two addresses are in one network exactly where they agree in the leading bits
/// that the shorter of their prefixes counts.
pub proof fn law_shorter_prefix_decides(x: u32, p: u32, y: u32, q: u32)
    requires
        p <= q <= 32,
    ensures
        ({
            let shift = (32 - p) as u32;
            &&& p == 0 ==> same_network((x, mask_of(p)), (y, mask_of(q)))
            &&& p > 0 ==> (same_network((x, mask_of(p)), (y, mask_of(q))) <==> x >> shift == y
                >> shift)
            &&& same_network((y, mask_of(q)), (x, mask_of(p))) == same_network(
                (x, mask_of(p)),
                (y, mask_of(q)),
            )
        }),
{
    let a = (32 - p) as u32;
    let b = (32 - q) as u32;
    if p == 0 {
        assert(x & 0 == y & 0) by (bit_vector);
        assert(mask_of(p) <= mask_of(q));
    } else {
        assert(mask_of(p) == 0xffff_ffffu32 << a) by {
            assert(0xffff_ffffu32 << 0u32 == 0xffff_ffffu32) by (bit_vector);
        }
        assert(mask_of(q) == 0xffff_ffffu32 << b) by {
            assert(0xffff_ffffu32 << 0u32 == 0xffff_ffffu32) by (bit_vector);
        }
        assert((0xffff_ffffu32 << a) <= (0xffff_ffffu32 << b)) by (bit_vector)
            requires
                b <= a < 32,
        ;
        assert((x & (0xffff_ffffu32 << a) == y & (0xffff_ffffu32 << a)) <==> (x >> a == y >> a))
            by (bit_vector)
            requires
                a < 32,
        ;
    }
}

/// The part before the slash.
pub open spec fn bare(s: Seq<char>) -> Seq<char> {
    pieces(s, '/')[0]
}

fn bare_text(s: &str) -> (r: String)
    ensures
        r@ == bare(s@),
{
    let parts = split(s, '/');
    proof {
        lemma_pieces_nonempty(s@, '/');
        assert(views(parts@)[0] == parts@[0]@);
    }
    parts[0].clone()
}

/// The first address of `list` in the network of `x`.
pub open spec fn partner(list: Seq<String>, x: (u32, u32)) -> Option<Seq<char>>
    decreases list.len(),
{
    if list.len() == 0 {
        None
    } else {
        match cidr(list[0]@) {
            Some(y) => if same_network(x, y) {
                Some(list[0]@)
            } else {
                partner(list.skip(1), x)
            },
            None => partner(list.skip(1), x),
        }
    }
}

/// The first pair of addresses that share a network. An address of the first
/// list that cannot be read ends the search.
pub open spec fn shared_network(a: Seq<String>, b: Seq<String>) -> Option<(Seq<char>, Seq<char>)>
    decreases a.len(),
{
    if a.len() == 0 {
        None
    } else {
        match cidr(a[0]@) {
            Some(x) => match partner(b, x) {
                Some(y) => Some((bare(a[0]@), bare(y))),
                None => shared_network(a.skip(1), b),
            },
            None => None,
        }
    }
}

proof fn lemma_partner(list: Seq<String>, x: (u32, u32))
    ensures
        partner(list, x) matches Some(y) ==> exists|j: int|
            0 <= j < list.len() && (#[trigger] list[j])@ == y && cidr(list[j]@) is Some
                && same_network(x, cidr(list[j]@)->0),
        partner(list, x) is None ==> forall|j: int|
            0 <= j < list.len() && cidr((#[trigger] list[j])@) is Some ==> !same_network(
                x,
                cidr(list[j]@)->0,
            ),
    decreases list.len(),
{
    if list.len() > 0 {
        let rest = list.skip(1);
        lemma_partner(rest, x);
        let hit = cidr(list[0]@) is Some && same_network(x, cidr(list[0]@)->0);
        if !hit {
            if let Some(y) = partner(rest, x) {
                let j = choose|j: int|
                    0 <= j < rest.len() && (#[trigger] rest[j])@ == y && cidr(rest[j]@) is Some
                        && same_network(x, cidr(rest[j]@)->0);
                assert(list[j + 1] == rest[j]);
            } else {
                assert forall|j: int|
                    0 <= j < list.len() && cidr((#[trigger] list[j])@) is Some implies !same_network(
                    x,
                    cidr(list[j]@)->0,
                ) by {
                    if j > 0 {
                        assert(rest[j - 1] == list[j]);
                    }
                }
            }
        }
    }
}

/// The addresses that two interfaces are said to share a network on are addresses
/// of theirs, with a network in common, without what stands behind the slash.
pub proof fn law_shared_network_is_shared(a: Seq<String>, b: Seq<String>)
    ensures
        shared_network(a, b) matches Some((x, y)) ==> exists|i: int, j: int|
            0 <= i < a.len() && 0 <= j < b.len() && cidr((#[trigger] a[i])@) is Some && cidr(
                (#[trigger] b[j])@,
            ) is Some && same_network(cidr(a[i]@)->0, cidr(b[j]@)->0) && x == pieces(a[i]@, '/')[0]
                && y == pieces(b[j]@, '/')[0],
    decreases a.len(),
{
    if a.len() > 0 && cidr(a[0]@) is Some {
        let x = cidr(a[0]@)->0;
        lemma_partner(b, x);
        if partner(b, x) is None {
            let rest = a.skip(1);
            law_shared_network_is_shared(rest, b);
            if let Some((u, v)) = shared_network(rest, b) {
                let (i, j) = choose|i: int, j: int|
                    0 <= i < rest.len() && 0 <= j < b.len() && cidr((#[trigger] rest[i])@) is Some
                        && cidr((#[trigger] b[j])@) is Some && same_network(
                        cidr(rest[i]@)->0,
                        cidr(b[j]@)->0,
                    ) && u == pieces(rest[i]@, '/')[0] && v == pieces(b[j]@, '/')[0];
                assert(a[i + 1] == rest[i]);
            }
        } else {
            let j = choose|j: int|
                0 <= j < b.len() && (#[trigger] b[j])@ == partner(b, x)->0 && cidr(b[j]@) is Some
                    && same_network(x, cidr(b[j]@)->0);
            assert(a[0]@ == a[0]@ && b[j]@ == partner(b, x)->0);
        }
    }
}

/// A network in common is found wherever the two addresses stand in the lists, as
/// long as the addresses of the first list up to that one can be read.
pub proof fn law_shared_network_is_found(a: Seq<String>, b: Seq<String>, i: int, j: int)
    requires
        0 <= i < a.len(),
        0 <= j < b.len(),
        forall|k: int| 0 <= k <= i ==> cidr((#[trigger] a[k])@) is Some,
        cidr(b[j]@) is Some,
        same_network(cidr(a[i]@)->0, cidr(b[j]@)->0),
    ensures
        shared_network(a, b) is Some,
    decreases a.len(),
{
    let x = cidr(a[0]@)->0;
    assert(cidr(a[0]@) is Some);
    lemma_partner(b, x);
    if partner(b, x) is None {
        assert(i > 0) by {
            if i == 0 {
                assert(cidr(b[j]@) is Some && same_network(x, cidr(b[j]@)->0));
            }
        }
        let rest = a.skip(1);
        assert(rest[i - 1] == a[i]);
        assert forall|k: int| 0 <= k <= i - 1 implies cidr((#[trigger] rest[k])@) is Some by {
            assert(rest[k] == a[k + 1]);
        }
        law_shared_network_is_found(rest, b, i - 1, j);
    }
}

pub open spec fn both_views(p: Option<(String, String)>) -> Option<(Seq<char>, Seq<char>)> {
    match p {
        Some((x, y)) => Some((x@, y@)),
        None => None,
    }
}

fn find_partner(list: &Vec<String>, x: (u32, u32)) -> (r: Option<usize>)
    ensures
        match r {
            Some(i) => i < list@.len() && partner(list@, x) == Some(list@[i as int]@),
            None => partner(list@, x) is None,
        },
{
    let n = list.len();
    let mut i: usize = 0;
    assert(list@.skip(0) =~= list@);
    while i < n
        invariant
            i <= n,
            n == list@.len(),
            partner(list@, x) == partner(list@.skip(i as int), x),
        decreases n - i,
    {
        proof {
            assert(list@.skip(i as int)[0] == list@[i as int]);
            assert(list@.skip(i as int).skip(1) =~= list@.skip(i + 1));
        }
        if let Some(y) = parse_cidr(list[i].as_str()) {
            let m: u32 = if x.1 < y.1 {
                x.1
            } else {
                y.1
            };
            if x.0 & m == y.0 & m {
                return Some(i);
            }
        }
        i += 1;
    }
    None
}

pub fn subnet_match(a: &Vec<String>, b: &Vec<String>) -> (r: Option<(String, String)>)
    ensures
        both_views(r) == shared_network(a@, b@),
{
    let n = a.len();
    let mut i: usize = 0;
    assert(a@.skip(0) =~= a@);
    while i < n
        invariant
            i <= n,
            n == a@.len(),
            shared_network(a@, b@) == shared_network(a@.skip(i as int), b@),
        decreases n - i,
    {
        proof {
            assert(a@.skip(i as int)[0] == a@[i as int]);
            assert(a@.skip(i as int).skip(1) =~= a@.skip(i + 1));
        }
        match parse_cidr(a[i].as_str()) {
            Some(x) => {
                if let Some(k) = find_partner(b, x) {
                    return Some((bare_text(a[i].as_str()), bare_text(b[k].as_str())));
                }
            },
            None => {
                return None;
            },
        }
        i += 1;
    }
    None
}

// -------------------------------------------------------------------- links

#[derive(Debug, Clone)]
pub struct LinkPair {
    pub kind: String,
    pub kind_label: String,
    pub a_desc: String,
    pub b_desc: String,
    pub detail: String,
    /// B-side bare address to benchmark against, when the link is usable.
    pub b_addr: Option<String>,
    /// This link supports RDMA on both ends (a second testable mode).
    pub rdma: bool,
    /// Bare interface names on each side (for roce-up / diagnostics).
    pub a_iface: String,
    pub b_iface: String,
    /// No hardware RDMA here, but both ends can run Soft-RoCE — offer to
    /// enable it so the rdma mode becomes testable.
    pub softroce_offerable: bool,
    /// MAC B reported for its interface — verified against A's neighbor table
    /// after the ping (true L2 adjacency, no router/proxy between).
    pub b_mac: String,
    pub rtt_ms: Option<Reading>,
}

/// What a link pair says.
pub struct Link {
    pub kind: Seq<char>,
    pub kind_label: Seq<char>,
    pub a_desc: Seq<char>,
    pub b_desc: Seq<char>,
    pub detail: Seq<char>,
    pub b_addr: Option<Seq<char>>,
    pub rdma: bool,
    pub a_iface: Seq<char>,
    pub b_iface: Seq<char>,
    pub softroce_offerable: bool,
    pub b_mac: Seq<char>,
    pub rtt_ms: Option<Reading>,
}

pub open spec fn link_of(l: LinkPair) -> Link {
    Link {
        kind: l.kind@,
        kind_label: l.kind_label@,
        a_desc: l.a_desc@,
        b_desc: l.b_desc@,
        detail: l.detail@,
        b_addr: match l.b_addr {
            Some(s) => Some(s@),
            None => None,
        },
        rdma: l.rdma,
        a_iface: l.a_iface@,
        b_iface: l.b_iface@,
        softroce_offerable: l.softroce_offerable,
        b_mac: l.b_mac@,
        rtt_ms: l.rtt_ms,
    }
}

pub open spec fn links_of(v: Seq<LinkPair>) -> Seq<Link> {
    v.map_values(|l: LinkPair| link_of(l))
}

/// The two ways of testing a link.
#[derive(Debug, Clone, Copy, PartialEq, Eq, Structural)]
pub enum Mode {
    Tcp,
    Rdma,
}

impl Mode {
    pub open spec fn named(self) -> Seq<char> {
        match self {
            Mode::Tcp => "tcp"@,
            Mode::Rdma => "rdma"@,
        }
    }

    pub fn name(&self) -> (r: &'static str)
        ensures
            r@ == self.named(),
    {
        match self {
            Mode::Tcp => "tcp",
            Mode::Rdma => "rdma",
        }
    }
}

pub open spec fn modes_of(l: LinkPair) -> Seq<Mode> {
    if l.b_addr is None {
        Seq::empty()
    } else if l.rdma {
        seq![Mode::Tcp, Mode::Rdma]
    } else {
        seq![Mode::Tcp]
    }
}

pub open spec fn short_of(l: LinkPair, mode: Mode) -> Seq<char> {
    l.kind_label@ + " · "@ + mode.named()
}

impl LinkPair {
    pub fn label(&self) -> (r: String)
        ensures
            r@ == self.kind_label@ + "  "@ + self.a_desc@ + " <-> "@ + self.b_desc@,
    {
        self.kind_label.clone().concat("  ").concat(self.a_desc.as_str()).concat(" <-> ").concat(
            self.b_desc.as_str(),
        )
    }

    /// Short unique name for a (link, mode) result row.
    pub fn short(&self, mode: Mode) -> (r: String)
        ensures
            r@ == short_of(*self, mode),
    {
        self.kind_label.clone().concat(" · ").concat(mode.name())
    }

    /// Testable rows: RDMA-capable links expand into both modes.
    pub fn modes(&self) -> (r: Vec<Mode>)
        ensures
            r@ == modes_of(*self),
    {
        if self.b_addr.is_none() {
            Vec::new()
        } else if self.rdma {
            vec![Mode::Tcp, Mode::Rdma]
        } else {
            vec![Mode::Tcp]
        }
    }
}

pub open spec fn kind_and_speed(i: NetIf) -> Seq<char> {
    i.kind.named() + (match i.speed_mbps {
        Some(s) => if s >= 1000 {
            " "@ + dec_int(s as int / 1000) + "G"@
        } else {
            " "@ + dec_int(s as int) + "M"@
        },
        None => Seq::empty(),
    })
}

pub fn kind_speed(i: &NetIf) -> (r: String)
    ensures
        r@ == kind_and_speed(*i),
{
    let speed = match i.speed_mbps {
        Some(s) => if s >= 1000 {
            " ".to_owned().concat(decimal_int(s / 1000).as_str()).concat("G")
        } else {
            " ".to_owned().concat(decimal_int(s).as_str()).concat("M")
        },
        None => String::new(),
    };
    i.kind.name().concat(speed.as_str())
}

/// An active RDMA device rides interface `name`.
pub open spec fn rdma_on(devs: Seq<RdmaDeviceInfo>, name: Seq<char>) -> bool {
    exists|k: int|
        0 <= k < devs.len() && (#[trigger] devs[k]).netdev@ == name && devs[k].port_state@
            == "ACTIVE"@
}

fn has_rdma(devs: &Vec<RdmaDeviceInfo>, name: &str) -> (r: bool)
    ensures
        r == rdma_on(devs@, name@),
{
    let n = devs.len();
    let mut i: usize = 0;
    while i < n
        invariant
            i <= n,
            n == devs@.len(),
            forall|k: int|
                0 <= k < i ==> !((#[trigger] devs@[k]).netdev@ == name@ && devs@[k].port_state@
                    == "ACTIVE"@),
        decreases n - i,
    {
        if same(devs[i].netdev.as_str(), name) && same(devs[i].port_state.as_str(), "ACTIVE") {
            assert(devs@[i as int].netdev@ == name@);
            return true;
        }
        i += 1;
    }
    false
}

/// What is noted of a usable link.
pub open spec fn link_detail(rdma: bool, softroce: bool) -> Seq<char> {
    if rdma {
        "RDMA available on both ends"@
    } else if softroce {
        "TCP only — Soft-RoCE can be enabled for an RDMA run"@
    } else {
        Seq::empty()
    }
}

/// The link that two interfaces of one kind form: one that can be tested where
/// they share a network; a thunderbolt link without one is shown as not ready.
pub open spec fn between(ai: NetIf, bi: NetIf, a: NodeProbe, b: NodeProbe) -> Seq<Link> {
    if bi.kind != ai.kind {
        Seq::empty()
    } else {
        match shared_network(ai.ipv4@, bi.ipv4@) {
            Some((aip, bip)) => {
                let rdma = rdma_on(a.rdma@, ai.name@) && rdma_on(b.rdma@, bi.name@);
                let soft = !rdma && a.softroce_available && b.softroce_available;
                seq![
                    Link {
                        kind: ai.kind.named(),
                        kind_label: kind_and_speed(ai),
                        a_desc: ai.name@ + " ("@ + aip + ")"@,
                        b_desc: bi.name@ + " ("@ + bip + ")"@,
                        detail: link_detail(rdma, soft),
                        b_addr: Some(bip),
                        rdma,
                        a_iface: ai.name@,
                        b_iface: bi.name@,
                        softroce_offerable: soft,
                        b_mac: bi.mac@,
                        rtt_ms: None,
                    },
                ]
            },
            None => if ai.kind is Thunderbolt {
                seq![
                    Link {
                        kind: "thunderbolt"@,
                        kind_label: "thunderbolt"@,
                        a_desc: ai.name@,
                        b_desc: bi.name@,
                        detail: "no shared IPv4 — needs address bring-up"@,
                        b_addr: None,
                        rdma: false,
                        a_iface: ai.name@,
                        b_iface: bi.name@,
                        softroce_offerable: false,
                        b_mac: Seq::empty(),
                        rtt_ms: None,
                    },
                ]
            } else {
                Seq::empty()
            },
        }
    }
}

/// The links of one interface of A.
pub open spec fn from_one(ai: NetIf, bis: Seq<NetIf>, a: NodeProbe, b: NodeProbe) -> Seq<Link>
    decreases bis.len(),
{
    if bis.len() == 0 {
        Seq::empty()
    } else {
        from_one(ai, bis.drop_last(), a, b) + between(ai, bis.last(), a, b)
    }
}

pub open spec fn considered(i: NetIf) -> bool {
    !(i.kind is Loopback) && !(i.kind is Virtual)
}

/// The links of all of A's interfaces.
pub open spec fn from_all(ais: Seq<NetIf>, a: NodeProbe, b: NodeProbe) -> Seq<Link>
    decreases ais.len(),
{
    if ais.len() == 0 {
        Seq::empty()
    } else if considered(ais.last()) {
        from_all(ais.drop_last(), a, b) + from_one(ais.last(), b.interfaces@, a, b)
    } else {
        from_all(ais.drop_last(), a, b)
    }
}

pub open spec fn has_kind(list: Seq<NetIf>, kind: IfKind) -> bool {
    exists|k: int| 0 <= k < list.len() && (#[trigger] list[k]).kind == kind
}

/// The first host that is connected over thunderbolt.
pub open spec fn first_peer(list: Seq<TbDevice>) -> Option<TbDevice>
    decreases list.len(),
{
    if list.len() == 0 {
        None
    } else if list[0].is_host_peer {
        Some(list[0])
    } else {
        first_peer(list.skip(1))
    }
}

/// A thunderbolt peer on the bus of both nodes, where no interface of it is there
/// yet.
pub open spec fn bus_link(a: NodeProbe, b: NodeProbe) -> Seq<Link> {
    if has_kind(a.interfaces@, IfKind::Thunderbolt) && has_kind(
        b.interfaces@,
        IfKind::Thunderbolt,
    ) {
        Seq::empty()
    } else {
        match (first_peer(a.thunderbolt@), first_peer(b.thunderbolt@)) {
            (Some(p), Some(_)) => seq![
                Link {
                    kind: "thunderbolt"@,
                    kind_label: "thunderbolt bus"@,
                    a_desc: "peer \""@ + p.vendor@ + " "@ + p.device@ + "\""@,
                    b_desc: "detected both ends"@,
                    detail:
                        "no network interface yet — needs thunderbolt-net (modprobe thunderbolt_net + IPs)"@,
                    b_addr: None,
                    rdma: false,
                    a_iface: Seq::empty(),
                    b_iface: Seq::empty(),
                    softroce_offerable: false,
                    b_mac: Seq::empty(),
                    rtt_ms: None,
                },
            ],
            _ => Seq::empty(),
        }
    }
}

pub open spec fn correlated(a: NodeProbe, b: NodeProbe) -> Seq<Link> {
    from_all(a.interfaces@, a, b) + bus_link(a, b)
}

proof fn lemma_links_push(v: Seq<LinkPair>, l: LinkPair)
    ensures
        links_of(v.push(l)) == links_of(v) + seq![link_of(l)],
{
    assert(links_of(v.push(l)) =~= links_of(v) + seq![link_of(l)]);
}

fn link_between(ai: &NetIf, bi: &NetIf, a: &NodeProbe, b: &NodeProbe) -> (r: Option<LinkPair>)
    ensures
        match r {
            Some(l) => between(*ai, *bi, *a, *b) == seq![link_of(l)],
            None => between(*ai, *bi, *a, *b) == Seq::<Link>::empty(),
        },
{
    if bi.kind != ai.kind {
        return None;
    }
    match subnet_match(&ai.ipv4, &bi.ipv4) {
        Some((aip, bip)) => {
            let rdma = has_rdma(&a.rdma, ai.name.as_str()) && has_rdma(&b.rdma, bi.name.as_str());
            let soft = !rdma && a.softroce_available && b.softroce_available;
            let detail = if rdma {
                "RDMA available on both ends".to_owned()
            } else if soft {
                "TCP only — Soft-RoCE can be enabled for an RDMA run".to_owned()
            } else {
                String::new()
            };
            Some(
                LinkPair {
                    kind: ai.kind.name(),
                    kind_label: kind_speed(ai),
                    a_desc: ai.name.clone().concat(" (").concat(aip.as_str()).concat(")"),
                    b_desc: bi.name.clone().concat(" (").concat(bip.as_str()).concat(")"),
                    detail,
                    b_addr: Some(bip),
                    rdma,
                    a_iface: ai.name.clone(),
                    b_iface: bi.name.clone(),
                    softroce_offerable: soft,
                    b_mac: bi.mac.clone(),
                    rtt_ms: None,
                },
            )
        },
        None => if ai.kind == IfKind::Thunderbolt {
            Some(
                LinkPair {
                    kind: "thunderbolt".to_owned(),
                    kind_label: "thunderbolt".to_owned(),
                    a_desc: ai.name.clone(),
                    b_desc: bi.name.clone(),
                    detail: "no shared IPv4 — needs address bring-up".to_owned(),
                    b_addr: None,
                    rdma: false,
                    a_iface: ai.name.clone(),
                    b_iface: bi.name.clone(),
                    softroce_offerable: false,
                    b_mac: String::new(),
                    rtt_ms: None,
                },
            )
        } else {
            None
        },
    }
}

fn any_thunderbolt(list: &Vec<NetIf>) -> (r: bool)
    ensures
        r == has_kind(list@, IfKind::Thunderbolt),
{
    let n = list.len();
    let mut i: usize = 0;
    while i < n
        invariant
            i <= n,
            n == list@.len(),
            forall|k: int| 0 <= k < i ==> (#[trigger] list@[k]).kind != IfKind::Thunderbolt,
        decreases n - i,
    {
        if list[i].kind == IfKind::Thunderbolt {
            assert(list@[i as int].kind == IfKind::Thunderbolt);
            return true;
        }
        i += 1;
    }
    false
}

fn find_peer(list: &Vec<TbDevice>) -> (r: Option<usize>)
    ensures
        match r {
            Some(i) => i < list@.len() && first_peer(list@) == Some(list@[i as int]),
            None => first_peer(list@) is None,
        },
{
    let n = list.len();
    let mut i: usize = 0;
    assert(list@.skip(0) =~= list@);
    while i < n
        invariant
            i <= n,
            n == list@.len(),
            first_peer(list@) == first_peer(list@.skip(i as int)),
        decreases n - i,
    {
        proof {
            assert(list@.skip(i as int)[0] == list@[i as int]);
            assert(list@.skip(i as int).skip(1) =~= list@.skip(i + 1));
        }
        if list[i].is_host_peer {
            return Some(i);
        }
        i += 1;
    }
    None
}

/// The links between two nodes.
pub fn correlate(a: &NodeProbe, b: &NodeProbe) -> (links: Vec<LinkPair>)
    ensures
        links_of(links@) == correlated(*a, *b),
{
    let mut links: Vec<LinkPair> = Vec::new();
    let n = a.interfaces.len();
    let m = b.interfaces.len();
    let mut i: usize = 0;
    assert(links_of(links@) =~= from_all(a.interfaces@.take(0), *a, *b));
    while i < n
        invariant
            i <= n,
            n == a.interfaces@.len(),
            m == b.interfaces@.len(),
            links_of(links@) == from_all(a.interfaces@.take(i as int), *a, *b),
        decreases n - i,
    {
        proof {
            assert(a.interfaces@.take(i + 1).drop_last() =~= a.interfaces@.take(i as int));
            assert(a.interfaces@.take(i + 1).last() == a.interfaces@[i as int]);
        }
        let ai = &a.interfaces[i];
        if ai.kind != IfKind::Loopback && ai.kind != IfKind::Virtual {
            let ghost had = links_of(links@);
            let mut j: usize = 0;
            assert(had + from_one(*ai, b.interfaces@.take(0), *a, *b) =~= had);
            while j < m
                invariant
                    j <= m,
                    m == b.interfaces@.len(),
                    links_of(links@) == had + from_one(*ai, b.interfaces@.take(j as int), *a, *b),
                decreases m - j,
            {
                proof {
                    assert(b.interfaces@.take(j + 1).drop_last() =~= b.interfaces@.take(j as int));
                    assert(b.interfaces@.take(j + 1).last() == b.interfaces@[j as int]);
                }
                let ghost before = links_of(links@);
                let found = link_between(ai, &b.interfaces[j], a, b);
                let ghost more = between(*ai, b.interfaces@[j as int], *a, *b);
                if let Some(l) = found {
                    proof {
                        lemma_links_push(links@, l);
                    }
                    links.push(l);
                } else {
                    assert(before + more =~= before);
                }
                assert(before + more =~= had + (from_one(
                    *ai,
                    b.interfaces@.take(j as int),
                    *a,
                    *b,
                ) + more));
                j += 1;
            }
            assert(b.interfaces@.take(m as int) =~= b.interfaces@);
        }
        i += 1;
    }
    assert(a.interfaces@.take(n as int) =~= a.interfaces@);
    let ghost all = links_of(links@);
    let both_up = any_thunderbolt(&a.interfaces) && any_thunderbolt(&b.interfaces);
    if !both_up {
        if let (Some(k), Some(_)) = (find_peer(&a.thunderbolt), find_peer(&b.thunderbolt)) {
            let p = &a.thunderbolt[k];
            let l = LinkPair {
                kind: "thunderbolt".to_owned(),
                kind_label: "thunderbolt bus".to_owned(),
                a_desc: "peer \"".to_owned().concat(p.vendor.as_str()).concat(" ").concat(
                    p.device.as_str(),
                ).concat("\""),
                b_desc: "detected both ends".to_owned(),
                detail: "no network interface yet — needs thunderbolt-net (modprobe thunderbolt_net + IPs)".to_owned(),
                b_addr: None,
                rdma: false,
                a_iface: String::new(),
                b_iface: String::new(),
                softroce_offerable: false,
                b_mac: String::new(),
                rtt_ms: None,
            };
            proof {
                lemma_links_push(links@, l);
            }
            links.push(l);
            return links;
        }
    }
    assert(all + Seq::<Link>::empty() =~= all);
    links
}

/// A link is never both RDMA-capable and in need of Soft-RoCE, and one that has
/// no address is neither.
pub open spec fn sound(l: Link) -> bool {
    &&& !(l.rdma && l.softroce_offerable)
    &&& l.b_addr is None ==> !l.rdma && !l.softroce_offerable
}

/// Every link found between two nodes is sound: Soft-RoCE is offered only where
/// there is a shared network and no RDMA on both ends yet.
pub proof fn law_links_are_sound(a: NodeProbe, b: NodeProbe, i: int)
    requires
        0 <= i < correlated(a, b).len(),
    ensures
        sound(correlated(a, b)[i]),
{
    let x = from_all(a.interfaces@, a, b);
    lemma_from_all_sound(a.interfaces@, a, b);
    if i < x.len() {
        assert(sound(x[i]));
    } else {
        assert(correlated(a, b)[i] == bus_link(a, b)[i - x.len()]);
    }
}

proof fn lemma_from_one_sound(ai: NetIf, bis: Seq<NetIf>, a: NodeProbe, b: NodeProbe)
    ensures
        forall|i: int|
            0 <= i < from_one(ai, bis, a, b).len() ==> sound(#[trigger] from_one(ai, bis, a, b)[i]),
    decreases bis.len(),
{
    if bis.len() > 0 {
        let had = from_one(ai, bis.drop_last(), a, b);
        let more = between(ai, bis.last(), a, b);
        lemma_from_one_sound(ai, bis.drop_last(), a, b);
        assert forall|i: int| 0 <= i < from_one(ai, bis, a, b).len() implies sound(
            #[trigger] from_one(ai, bis, a, b)[i],
        ) by {
            if i < had.len() {
                assert(sound(had[i]));
            } else {
                assert(sound(more[i - had.len()]));
            }
        }
    }
}

proof fn lemma_from_all_sound(ais: Seq<NetIf>, a: NodeProbe, b: NodeProbe)
    ensures
        forall|i: int|
            0 <= i < from_all(ais, a, b).len() ==> sound(#[trigger] from_all(ais, a, b)[i]),
    decreases ais.len(),
{
    if ais.len() > 0 {
        let had = from_all(ais.drop_last(), a, b);
        let more = from_one(ais.last(), b.interfaces@, a, b);
        lemma_from_all_sound(ais.drop_last(), a, b);
        lemma_from_one_sound(ais.last(), b.interfaces@, a, b);
        assert forall|i: int| 0 <= i < from_all(ais, a, b).len() implies sound(
            #[trigger] from_all(ais, a, b)[i],
        ) by {
            if i < had.len() {
                assert(sound(had[i]));
            } else {
                assert(sound(more[i - had.len()]));
            }
        }
    }
}

/// Two interfaces that are looked at, of one kind, with a network in common.
pub open spec fn joined_by(a: NodeProbe, b: NodeProbe, i: int, j: int) -> bool {
    &&& 0 <= i < a.interfaces@.len()
    &&& 0 <= j < b.interfaces@.len()
    &&& considered(a.interfaces@[i])
    &&& a.interfaces@[i].kind == b.interfaces@[j].kind
    &&& shared_network(a.interfaces@[i].ipv4@, b.interfaces@[j].ipv4@) is Some
}

/// The link that interface `i` of A and interface `j` of B form.
pub open spec fn joint_link(a: NodeProbe, b: NodeProbe, i: int, j: int) -> Link {
    between(a.interfaces@[i], b.interfaces@[j], a, b)[0]
}

/// No usable link is missed: each pair of interfaces of one kind with a network in
/// common is listed, with an address to reach B at.
pub proof fn law_shared_networks_are_listed(a: NodeProbe, b: NodeProbe, i: int, j: int)
    requires
        joined_by(a, b, i, j),
    ensures
        correlated(a, b).contains(joint_link(a, b, i, j)),
        joint_link(a, b, i, j).b_addr is Some,
{
    let l = joint_link(a, b, i, j);
    let one = from_one(a.interfaces@[i], b.interfaces@, a, b);
    let all = from_all(a.interfaces@, a, b);
    lemma_from_one_lists(a.interfaces@[i], b.interfaces@, a, b, j);
    let x = choose|x: int| 0 <= x < one.len() && one[x] == l;
    lemma_from_all_lists(a.interfaces@, a, b, i, x);
    let y = choose|y: int| 0 <= y < all.len() && all[y] == l;
    assert(correlated(a, b)[y] == l);
}

proof fn lemma_from_one_lists(ai: NetIf, bis: Seq<NetIf>, a: NodeProbe, b: NodeProbe, j: int)
    requires
        0 <= j < bis.len(),
        between(ai, bis[j], a, b).len() > 0,
    ensures
        from_one(ai, bis, a, b).contains(between(ai, bis[j], a, b)[0]),
    decreases bis.len(),
{
    let had = from_one(ai, bis.drop_last(), a, b);
    let l = between(ai, bis[j], a, b)[0];
    if j < bis.len() - 1 {
        lemma_from_one_lists(ai, bis.drop_last(), a, b, j);
        let x = choose|x: int| 0 <= x < had.len() && had[x] == l;
        assert(from_one(ai, bis, a, b)[x] == l);
    } else {
        assert(from_one(ai, bis, a, b)[had.len() as int] == l);
    }
}

proof fn lemma_from_all_lists(ais: Seq<NetIf>, a: NodeProbe, b: NodeProbe, i: int, x: int)
    requires
        0 <= i < ais.len(),
        considered(ais[i]),
        0 <= x < from_one(ais[i], b.interfaces@, a, b).len(),
    ensures
        from_all(ais, a, b).contains(from_one(ais[i], b.interfaces@, a, b)[x]),
    decreases ais.len(),
{
    let had = from_all(ais.drop_last(), a, b);
    let l = from_one(ais[i], b.interfaces@, a, b)[x];
    if i < ais.len() - 1 {
        lemma_from_all_lists(ais.drop_last(), a, b, i, x);
        let y = choose|y: int| 0 <= y < had.len() && had[y] == l;
        assert(from_all(ais, a, b)[y] == l);
    } else {
        assert(from_all(ais, a, b)[had.len() + x] == l);
    }
}

/// A link that has an address joins two interfaces of one kind with a network in
/// common.
pub proof fn law_usable_links_share_a_network(a: NodeProbe, b: NodeProbe, k: int)
    requires
        0 <= k < correlated(a, b).len(),
        correlated(a, b)[k].b_addr is Some,
    ensures
        exists|i: int, j: int|
            #[trigger] joined_by(a, b, i, j) && correlated(a, b)[k] == joint_link(a, b, i, j),
{
    let all = from_all(a.interfaces@, a, b);
    assert(a.interfaces@ =~= a.interfaces@.take(a.interfaces@.len() as int));
    if k < all.len() {
        lemma_from_all_joins(a.interfaces@, a, b, k);
    } else {
        assert(correlated(a, b)[k] == bus_link(a, b)[k - all.len()]);
    }
}

proof fn lemma_from_one_joins(ai: NetIf, bis: Seq<NetIf>, a: NodeProbe, b: NodeProbe, k: int) -> (j:
    int)
    requires
        0 <= k < from_one(ai, bis, a, b).len(),
    ensures
        0 <= j < bis.len(),
        between(ai, bis[j], a, b).len() == 1,
        from_one(ai, bis, a, b)[k] == between(ai, bis[j], a, b)[0],
    decreases bis.len(),
{
    let had = from_one(ai, bis.drop_last(), a, b);
    if k < had.len() {
        lemma_from_one_joins(ai, bis.drop_last(), a, b, k)
    } else {
        bis.len() - 1
    }
}

proof fn lemma_from_all_joins(ais: Seq<NetIf>, a: NodeProbe, b: NodeProbe, k: int)
    requires
        ais == a.interfaces@.take(ais.len() as int),
        ais.len() <= a.interfaces@.len(),
        0 <= k < from_all(ais, a, b).len(),
        from_all(ais, a, b)[k].b_addr is Some,
    ensures
        exists|i: int, j: int|
            #[trigger] joined_by(a, b, i, j) && from_all(ais, a, b)[k] == joint_link(a, b, i, j),
    decreases ais.len(),
{
    let had = from_all(ais.drop_last(), a, b);
    if k < had.len() {
        assert(ais.drop_last() =~= a.interfaces@.take(ais.len() - 1));
        lemma_from_all_joins(ais.drop_last(), a, b, k);
    } else {
        let i = ais.len() - 1;
        assert(ais.last() == a.interfaces@[i]);
        let j = lemma_from_one_joins(ais.last(), b.interfaces@, a, b, k - had.len());
        assert(joined_by(a, b, i, j));
    }
}

/// A device of the list is up and rides the interface.
pub open spec fn rdma_up_on(devs: Seq<RdmaDeviceInfo>, iface: Seq<char>) -> bool {
    exists|k: int|
        0 <= k < devs.len() && (#[trigger] devs[k]).netdev@ == iface && devs[k].port_state@
            == "ACTIVE"@
}

/// A link that can be used is marked as RDMA-capable exactly where a device that
/// is up rides its interface on A and another rides its interface on B; Soft-RoCE
/// is offered on exactly the other usable links, where both nodes can run it.
pub proof fn law_rdma_takes_both_ends(a: NodeProbe, b: NodeProbe, k: int)
    requires
        0 <= k < correlated(a, b).len(),
        correlated(a, b)[k].b_addr is Some,
    ensures
        ({
            let l = correlated(a, b)[k];
            let both = rdma_up_on(a.rdma@, l.a_iface) && rdma_up_on(b.rdma@, l.b_iface);
            &&& l.rdma == both
            &&& l.softroce_offerable == (!both && a.softroce_available && b.softroce_available)
        }),
{
    law_usable_links_share_a_network(a, b, k);
    let (i, j) = choose|i: int, j: int| #[trigger]
        joined_by(a, b, i, j) && correlated(a, b)[k] == joint_link(a, b, i, j);
    assert(rdma_on(a.rdma@, a.interfaces@[i].name@) == rdma_up_on(
        a.rdma@,
        a.interfaces@[i].name@,
    ));
    assert(rdma_on(b.rdma@, b.interfaces@[j].name@) == rdma_up_on(
        b.rdma@,
        b.interfaces@[j].name@,
    ));
}

/// No link between the nodes is missed: wherever an interface of A and one of B
/// are of one kind, neither loopback nor virtual, and share a network, a link
/// between just those two is listed, to be reached at B's address in that network.
pub proof fn law_every_shared_network_is_a_link(a: NodeProbe, b: NodeProbe, i: int, j: int)
    requires
        0 <= i < a.interfaces@.len(),
        0 <= j < b.interfaces@.len(),
        a.interfaces@[i].kind == b.interfaces@[j].kind,
        !(a.interfaces@[i].kind is Loopback) && !(a.interfaces@[i].kind is Virtual),
        shared_network(a.interfaces@[i].ipv4@, b.interfaces@[j].ipv4@) is Some,
    ensures
        exists|k: int|
            0 <= k < correlated(a, b).len() && (#[trigger] correlated(a, b)[k]).a_iface
                == a.interfaces@[i].name@ && correlated(a, b)[k].b_iface == b.interfaces@[j].name@
                && correlated(a, b)[k].b_addr == Some(
                (shared_network(a.interfaces@[i].ipv4@, b.interfaces@[j].ipv4@)->0).1,
            ) && correlated(a, b)[k].b_mac == b.interfaces@[j].mac@,
{
    assert(joined_by(a, b, i, j));
    law_shared_networks_are_listed(a, b, i, j);
    let all = correlated(a, b);
    let l = joint_link(a, b, i, j);
    let k = choose|k: int| 0 <= k < all.len() && all[k] == l;
    assert(all[k].a_iface == a.interfaces@[i].name@);
}

/// Nothing else is offered for testing: a link with an address joins an interface
/// of A and one of B of one kind, neither loopback nor virtual, that share a
/// network, and the address is B's in it.
pub proof fn law_links_to_test_are_real(a: NodeProbe, b: NodeProbe, k: int)
    requires
        0 <= k < correlated(a, b).len(),
        correlated(a, b)[k].b_addr is Some,
    ensures
        exists|i: int, j: int|
            {
                &&& 0 <= i < a.interfaces@.len() && 0 <= j < b.interfaces@.len()
                &&& (#[trigger] a.interfaces@[i]).kind == (#[trigger] b.interfaces@[j]).kind
                &&& !(a.interfaces@[i].kind is Loopback) && !(a.interfaces@[i].kind is Virtual)
                &&& correlated(a, b)[k].a_iface == a.interfaces@[i].name@
                &&& correlated(a, b)[k].b_iface == b.interfaces@[j].name@
                &&& shared_network(a.interfaces@[i].ipv4@, b.interfaces@[j].ipv4@) is Some
                &&& correlated(a, b)[k].b_addr == Some(
                    (shared_network(a.interfaces@[i].ipv4@, b.interfaces@[j].ipv4@)->0).1,
                )
            },
{
    law_usable_links_share_a_network(a, b, k);
    let (i, j) = choose|i: int, j: int| #[trigger]
        joined_by(a, b, i, j) && correlated(a, b)[k] == joint_link(a, b, i, j);
    assert(a.interfaces@[i].kind == b.interfaces@[j].kind);
}

/// A thunderbolt cable that is not ready yet is shown: two thunderbolt interfaces
/// without a network in common are listed without an address, with a note.
pub proof fn law_unready_thunderbolt_is_shown(a: NodeProbe, b: NodeProbe, i: int, j: int)
    requires
        0 <= i < a.interfaces@.len(),
        0 <= j < b.interfaces@.len(),
        a.interfaces@[i].kind is Thunderbolt,
        b.interfaces@[j].kind is Thunderbolt,
        shared_network(a.interfaces@[i].ipv4@, b.interfaces@[j].ipv4@) is None,
    ensures
        exists|k: int|
            0 <= k < correlated(a, b).len() && (#[trigger] correlated(a, b)[k]).a_iface
                == a.interfaces@[i].name@ && correlated(a, b)[k].b_iface == b.interfaces@[j].name@
                && correlated(a, b)[k].b_addr is None && !correlated(a, b)[k].rdma && correlated(
                a,
                b,
            )[k].detail.len() > 0,
{
    let (ai, bi) = (a.interfaces@[i], b.interfaces@[j]);
    let one = from_one(ai, b.interfaces@, a, b);
    let all = from_all(a.interfaces@, a, b);
    let l = between(ai, bi, a, b)[0];
    lemma_from_one_lists(ai, b.interfaces@, a, b, j);
    let x = choose|x: int| 0 <= x < one.len() && one[x] == l;
    lemma_from_all_lists(a.interfaces@, a, b, i, x);
    let y = choose|y: int| 0 <= y < all.len() && all[y] == l;
    assert(correlated(a, b)[y] == l);
    reveal_strlit("no shared IPv4 — needs address bring-up");
}

/// So is one that has no interface at all yet: where both nodes see a host on the
/// bus and not both have a thunderbolt interface, the last link listed says so.
pub proof fn law_bare_thunderbolt_is_shown(a: NodeProbe, b: NodeProbe, i: int, j: int)
    requires
        0 <= i < a.thunderbolt@.len() && a.thunderbolt@[i].is_host_peer,
        0 <= j < b.thunderbolt@.len() && b.thunderbolt@[j].is_host_peer,
        (forall|k: int|
            0 <= k < a.interfaces@.len() ==> !((#[trigger] a.interfaces@[k]).kind is Thunderbolt))
            || (forall|k: int|
            0 <= k < b.interfaces@.len() ==> !((#[trigger] b.interfaces@[k]).kind is Thunderbolt)),
    ensures
        correlated(a, b).len() > 0,
        correlated(a, b).last().kind == "thunderbolt"@,
        correlated(a, b).last().b_addr is None,
        correlated(a, b).last().a_iface.len() == 0 && correlated(a, b).last().b_iface.len() == 0,
{
    lemma_peer_found(a.thunderbolt@, i);
    lemma_peer_found(b.thunderbolt@, j);
    assert(bus_link(a, b).len() == 1);
    assert(correlated(a, b).last() == bus_link(a, b)[0]);
}

proof fn lemma_peer_found(list: Seq<TbDevice>, i: int)
    requires
        0 <= i < list.len(),
        list[i].is_host_peer,
    ensures
        first_peer(list) is Some,
    decreases list.len(),
{
    if !list[0].is_host_peer {
        assert(list.skip(1)[i - 1] == list[i]);
        lemma_peer_found(list.skip(1), i - 1);
    }
}

// --------------------------------------------------------------------- rows

/// One test: a link, by its index, in one mode.
#[derive(Debug, Clone, Copy, PartialEq, Eq, Structural)]
pub struct TestRow {
    pub link: usize,
    pub mode: Mode,
}

/// The tests that the first `n` links allow, in order.
pub open spec fn rows_of(links: Seq<LinkPair>, n: int) -> Seq<TestRow>
    decreases n,
{
    if n <= 0 {
        Seq::empty()
    } else {
        rows_of(links, n - 1) + Seq::new(
            modes_of(links[n - 1]).len(),
            |k: int| TestRow { link: (n - 1) as usize, mode: modes_of(links[n - 1])[k] },
        )
    }
}

pub fn test_rows(links: &Vec<LinkPair>) -> (r: Vec<TestRow>)
    ensures
        r@ == rows_of(links@, links@.len() as int),
{
    let mut rows: Vec<TestRow> = Vec::new();
    let n = links.len();
    let mut i: usize = 0;
    while i < n
        invariant
            i <= n,
            n == links@.len(),
            rows@ == rows_of(links@, i as int),
        decreases n - i,
    {
        let modes = links[i].modes();
        let m = modes.len();
        let ghost had = rows@;
        let mut k: usize = 0;
        while k < m
            invariant
                k <= m,
                m == modes@.len(),
                rows@.len() == had.len() + k,
                forall|j: int| 0 <= j < had.len() ==> #[trigger] rows@[j] == had[j],
                forall|j: int|
                    #![trigger rows@[j]]
                    had.len() <= j < had.len() + k ==> rows@[j] == (TestRow {
                        link: i,
                        mode: modes@[j - had.len()],
                    }),
            decreases m - k,
        {
            rows.push(TestRow { link: i, mode: modes[k] });
            k += 1;
        }
        assert(rows@ =~= rows_of(links@, i + 1));
        i += 1;
    }
    rows
}

/// Every test is of a link that has an address.
pub proof fn law_rows_are_testable(links: Seq<LinkPair>, n: int, k: int)
    requires
        0 <= n <= links.len() <= usize::MAX,
        0 <= k < rows_of(links, n).len(),
    ensures
        ({
            let row = rows_of(links, n)[k];
            &&& row.link < n
            &&& links[row.link as int].b_addr is Some
            &&& row.mode is Rdma ==> links[row.link as int].rdma
        }),
    decreases n,
{
    if n > 0 {
        let had = rows_of(links, n - 1);
        if k < had.len() {
            law_rows_are_testable(links, n - 1, k);
        }
    }
}

/// Each mode of each link has its row: a link with an address is tested over TCP,
/// and over RDMA too where both ends have it.
pub proof fn law_every_mode_has_a_row(links: Seq<LinkPair>, n: int, i: int)
    requires
        0 <= i < n <= links.len() <= usize::MAX,
    ensures
        links[i].b_addr is Some ==> rows_of(links, n).contains(
            TestRow { link: i as usize, mode: Mode::Tcp },
        ),
        links[i].b_addr is Some && links[i].rdma ==> rows_of(links, n).contains(
            TestRow { link: i as usize, mode: Mode::Rdma },
        ),
    decreases n,
{
    let had = rows_of(links, n - 1);
    let all = rows_of(links, n);
    assert(forall|k: int| 0 <= k < had.len() ==> #[trigger] all[k] == had[k]);
    if i < n - 1 {
        law_every_mode_has_a_row(links, n - 1, i);
        assert forall|row: TestRow| had.contains(row) implies #[trigger] all.contains(row) by {
            let k = choose|k: int| 0 <= k < had.len() && had[k] == row;
            assert(all[k] == row);
        }
    } else if links[i].b_addr is Some {
        let first = had.len() as int;
        assert(all[first] == TestRow { link: i as usize, mode: Mode::Tcp });
        if links[i].rdma {
            assert(all[first + 1] == TestRow { link: i as usize, mode: Mode::Rdma });
        }
    }
}

/// Before any box is touched every row is selected.
pub proof fn law_all_rows_start_selected(rows: Seq<TestRow>, checked: Seq<bool>)
    requires
        rows.len() <= checked.len(),
        forall|k: int| 0 <= k < checked.len() ==> checked[k],
    ensures
        ticked(rows, checked) == rows,
    decreases rows.len(),
{
    if rows.len() > 0 {
        law_all_rows_start_selected(rows.drop_last(), checked);
        assert(rows.drop_last().push(rows.last()) =~= rows);
    } else {
        assert(ticked(rows, checked) =~= rows);
    }
}

/// The rows that are ticked; rows without a tick box count as not ticked.
pub open spec fn ticked(rows: Seq<TestRow>, checked: Seq<bool>) -> Seq<TestRow>
    decreases rows.len(),
{
    if rows.len() == 0 {
        Seq::empty()
    } else if rows.len() <= checked.len() && checked[rows.len() - 1] {
        ticked(rows.drop_last(), checked).push(rows.last())
    } else {
        ticked(rows.drop_last(), checked)
    }
}

pub fn selected_rows(rows: &Vec<TestRow>, checked: &Vec<bool>) -> (r: Vec<TestRow>)
    ensures
        r@ == ticked(rows@, checked@),
{
    let mut r: Vec<TestRow> = Vec::new();
    let n = rows.len();
    let mut i: usize = 0;
    while i < n
        invariant
            i <= n,
            n == rows@.len(),
            r@ == ticked(rows@.take(i as int), checked@),
        decreases n - i,
    {
        proof {
            assert(rows@.take(i + 1).drop_last() =~= rows@.take(i as int));
        }
        if i < checked.len() && checked[i] {
            r.push(rows[i]);
        }
        i += 1;
    }
    assert(rows@.take(n as int) =~= rows@);
    r
}

/// Tick boxes for `n` rows: those there are where they fit, else all ticked.
pub fn tick_boxes(checked: Vec<bool>, n: usize) -> (r: Vec<bool>)
    ensures
        checked@.len() == n ==> r@ == checked@,
        checked@.len() != n ==> r@ == Seq::new(n as nat, |i: int| true),
{
    if checked.len() == n {
        return checked;
    }
    let mut r: Vec<bool> = Vec::new();
    let mut i: usize = 0;
    while i < n
        invariant
            i <= n,
            r@.len() == i,
            forall|k: int| 0 <= k < i ==> r@[k],
        decreases n - i,
    {
        r.push(true);
        i += 1;
    }
    assert(r@ =~= Seq::new(n as nat, |i: int| true));
    r
}

// ------------------------------------------------------- pings and neighbors

/// The first line of `list` that mentions `what`.
pub open spec fn first_mention(list: Seq<Seq<char>>, what: Seq<char>) -> Option<Seq<char>>
    decreases list.len(),
{
    if list.len() == 0 {
        None
    } else if mentions(list[0], what) {
        Some(list[0])
    } else {
        first_mention(list.skip(1), what)
    }
}

/// The average in the statistics line of `ping`:
/// "rtt min/avg/max/mdev = 0.1/0.2/0.3/0.0 ms".
pub open spec fn ping_average(output: Seq<char>) -> Option<Seq<char>> {
    match first_mention(lines_of(output), "min/avg/max"@) {
        None => None,
        Some(line) => {
            let halves = pieces(line, '=');
            if halves.len() < 2 {
                None
            } else {
                let parts = pieces(trim(halves[1]), '/');
                if parts.len() < 2 {
                    None
                } else {
                    Some(parts[1])
                }
            }
        },
    }
}

pub open spec fn seen(s: Option<String>) -> Option<Seq<char>> {
    match s {
        Some(x) => Some(x@),
        None => None,
    }
}

fn find_mention(list: &Vec<String>, what: &str) -> (r: Option<usize>)
    ensures
        match r {
            Some(i) => i < list@.len() && first_mention(views(list@), what@) == Some(
                list@[i as int]@,
            ),
            None => first_mention(views(list@), what@) is None,
        },
{
    let n = list.len();
    let mut i: usize = 0;
    let ghost all = views(list@);
    assert(all.skip(0) =~= all);
    while i < n
        invariant
            i <= n,
            n == list@.len(),
            all == views(list@),
            first_mention(all, what@) == first_mention(all.skip(i as int), what@),
        decreases n - i,
    {
        proof {
            assert(all.skip(i as int)[0] == list@[i as int]@);
            assert(all.skip(i as int).skip(1) =~= all.skip(i + 1));
        }
        if contains(list[i].as_str(), what) {
            return Some(i);
        }
        i += 1;
    }
    None
}

/// How long pings took on average, as `ping` writes it.
pub fn ping_time(output: &str) -> (r: Option<String>)
    ensures
        seen(r) == ping_average(output@),
{
    let all = lines(output);
    match find_mention(&all, "min/avg/max") {
        None => None,
        Some(i) => {
            let halves = split(all[i].as_str(), '=');
            assert(views(halves@).len() == halves@.len());
            if halves.len() < 2 {
                return None;
            }
            assert(views(halves@)[1] == halves@[1]@);
            let parts = split(trimmed(halves[1].as_str()).as_str(), '/');
            assert(views(parts@).len() == parts@.len());
            if parts.len() < 2 {
                return None;
            }
            assert(views(parts@)[1] == parts@[1]@);
            Some(parts[1].clone())
        },
    }
}

/// The word after the first `lladdr`, in lower case.
pub open spec fn lladdr_in(list: Seq<Seq<char>>) -> Option<Seq<char>>
    decreases list.len(),
{
    if list.len() == 0 {
        None
    } else if list[0] == "lladdr"@ {
        if list.len() > 1 {
            Some(lowercase_of(list[1]))
        } else {
            None
        }
    } else {
        lladdr_in(list.skip(1))
    }
}

/// The MAC that an entry of the neighbor table holds.
pub fn neigh_mac(output: &str) -> (r: Option<String>)
    ensures
        seen(r) == lladdr_in(words(output@)),
{
    let list = split_whitespace(output);
    let n = list.len();
    let mut i: usize = 0;
    let ghost all = views(list@);
    assert(all.skip(0) =~= all);
    while i < n
        invariant
            i <= n,
            n == list@.len(),
            all == views(list@),
            all == words(output@),
            lladdr_in(all) == lladdr_in(all.skip(i as int)),
        decreases n - i,
    {
        proof {
            assert(all.skip(i as int)[0] == list@[i as int]@);
            assert(all.skip(i as int).skip(1) =~= all.skip(i + 1));
        }
        if same(list[i].as_str(), "lladdr") {
            if i + 1 < n {
                assert(all.skip(i as int)[1] == list@[i + 1]@);
                return Some(to_lowercase(list[i + 1].as_str()));
            }
            return None;
        }
        i += 1;
    }
    None
}

/// What is noted of a link once the neighbor table was looked at. Same-subnet
/// implies L2 adjacency: frames should land on exactly the MAC that B reported
/// (direct cable or switch); anything else means a router/proxy is in the middle.
pub open spec fn checked_detail(
    detail: Seq<char>,
    mac: Seq<char>,
    found: Option<Seq<char>>,
) -> Seq<char> {
    match found {
        Some(m) => if m == lowercase_of(mac) {
            if detail.len() == 0 {
                "L2 verified"@
            } else {
                detail + " · "@ + "L2 verified"@
            }
        } else {
            "WARNING: not L2-adjacent — expected MAC "@ + mac + ", saw "@ + m
                + " (router/proxy in path?)"@
        },
        None => detail,
    }
}

/// `lower` is the MAC that B reported, in lower case.
pub fn detail_after(detail: &str, mac: &str, lower: &str, found: Option<&str>) -> (r: String)
    ensures
        r@ == (match found {
            Some(m) => if m@ == lower@ {
                if detail@.len() == 0 {
                    "L2 verified"@
                } else {
                    detail@ + " · "@ + "L2 verified"@
                }
            } else {
                "WARNING: not L2-adjacent — expected MAC "@ + mac@ + ", saw "@ + m@
                    + " (router/proxy in path?)"@
            },
            None => detail@,
        }),
{
    match found {
        Some(m) => if same(m, lower) {
            if detail.is_empty() {
                "L2 verified".to_owned()
            } else {
                detail.to_owned().concat(" · ").concat("L2 verified")
            }
        } else {
            "WARNING: not L2-adjacent — expected MAC ".to_owned().concat(mac).concat(
                ", saw ",
            ).concat(m).concat(" (router/proxy in path?)")
        },
        None => detail.to_owned(),
    }
}

/// Note on a link what `ip neigh show` printed for its address. A link whose MAC
/// is not known stays as it is.
pub fn verify_adjacency(link: &mut LinkPair, output: &str)
    ensures
        link_of(*final(link)) == (Link {
            detail: if old(link).b_mac@.len() == 0 {
                old(link).detail@
            } else {
                checked_detail(old(link).detail@, old(link).b_mac@, lladdr_in(words(output@)))
            },
            ..link_of(*old(link))
        }),
{
    if link.b_mac.as_str().is_empty() {
        return;
    }
    let lower = to_lowercase(link.b_mac.as_str());
    let found = neigh_mac(output);
    let detail = match &found {
        Some(m) => detail_after(
            link.detail.as_str(),
            link.b_mac.as_str(),
            lower.as_str(),
            Some(m.as_str()),
        ),
        None => detail_after(link.detail.as_str(), link.b_mac.as_str(), lower.as_str(), None),
    };
    link.detail = detail;
}

/// What is tested is exactly what is ticked, in the order of the rows.
pub proof fn law_selected_rows_are_the_ticked(rows: Seq<TestRow>, checked: Seq<bool>)
    ensures
        forall|k: int|
            0 <= k < rows.len() && k < checked.len() && checked[k] ==> ticked(
                rows,
                checked,
            ).contains(#[trigger] rows[k]),
        forall|row: TestRow| #[trigger]
            ticked(rows, checked).contains(row) ==> exists|k: int|
                0 <= k < rows.len() && k < checked.len() && checked[k] && #[trigger] rows[k] == row,
        ticked(rows, checked).len() <= rows.len(),
    decreases rows.len(),
{
    if rows.len() > 0 {
        let rest = rows.drop_last();
        let last = rows.len() - 1;
        law_selected_rows_are_the_ticked(rest, checked);
        let had = ticked(rest, checked);
        let all = ticked(rows, checked);
        assert(forall|k: int| 0 <= k < had.len() ==> #[trigger] all[k] == had[k]);
        if last < checked.len() && checked[last] {
            assert(all[had.len() as int] == rows[last]);
        }
        assert forall|k: int|
            0 <= k < rows.len() && k < checked.len() && checked[k] implies all.contains(
            #[trigger] rows[k],
        ) by {
            if k < last {
                assert(rest[k] == rows[k]);
                let j = choose|j: int| 0 <= j < had.len() && had[j] == rows[k];
                assert(all[j] == rows[k]);
            }
        }
        assert forall|row: TestRow| #[trigger] all.contains(row) implies exists|k: int|
            0 <= k < rows.len() && k < checked.len() && checked[k] && #[trigger] rows[k] == row by {
            let j = choose|j: int| 0 <= j < all.len() && all[j] == row;
            if j < had.len() {
                assert(had.contains(row)) by {
                    assert(had[j] == row);
                }
                let k = choose|k: int|
                    0 <= k < rest.len() && k < checked.len() && checked[k] && #[trigger] rest[k]
                        == row;
                assert(rows[k] == row);
            } else {
                assert(rows[last] == row);
            }
        }
    }
}

/// Where frames land on another card than B's, the note on a link is a warning that
/// names both; where they land on B's, in whatever case the address is written, it
/// says so behind what was noted before; and where nothing was seen it stays.
pub proof fn law_adjacency_is_told(detail: Seq<char>, mac: Seq<char>, m: Seq<char>)
    ensures
        m == lowercase_of(mac) ==> "L2 verified"@.is_suffix_of(checked_detail(detail, mac, Some(m)))
            && detail.is_prefix_of(checked_detail(detail, mac, Some(m))),
        m != lowercase_of(mac) ==> "WARNING: not L2-adjacent"@.is_prefix_of(
            checked_detail(detail, mac, Some(m)),
        ) && mentions(checked_detail(detail, mac, Some(m)), mac) && mentions(
            checked_detail(detail, mac, Some(m)),
            m,
        ),
        checked_detail(detail, mac, None) == detail,
{
    let t = checked_detail(detail, mac, Some(m));
    let n = t.len() as int;
    reveal_strlit("L2 verified");
    reveal_strlit(" · ");
    if m == lowercase_of(mac) {
        assert(t.subrange(n - 11, n) =~= "L2 verified"@);
        assert(t.subrange(0, detail.len() as int) =~= detail);
    } else {
        reveal_strlit("WARNING: not L2-adjacent — expected MAC ");
        reveal_strlit("WARNING: not L2-adjacent");
        assert(t.subrange(0, 24) =~= "WARNING: not L2-adjacent"@);
        let a = "WARNING: not L2-adjacent — expected MAC "@.len() as int;
        assert(t.subrange(a, a + mac.len()) =~= mac);
        assert(crate::scan::found_at(t, mac, a));
        let b = a + mac.len() + ", saw "@.len();
        assert(t.subrange(b, b + m.len()) =~= m);
        assert(crate::scan::found_at(t, m, b));
    }
}

} // verus!
