//! Node interrogation: everything another node (or an orchestrating GUI /
//! agent) wants to know before benchmarking — sudo state, CPU tuning, every
//! network interface classified by physical kind, RDMA devices, and thunderbolt
//! bus peers. What the system says is handed in; what it means is decided here.

use crate::json::{
    entries_of, json_text, member, member_of, number_in, number_member, parse, text_in,
    text_member, Json, Tree,
};
use crate::order::{arranged, sort_stable, Ordered};
use crate::proto::{RdmaDeviceInfo, VERSION};
use crate::scan::{
    before, comes_before, contains, lemma_views_push, mentions, trim, trimmed, views,
};
use crate::text::{dec, decimal, parse_i64, parse_uint, parsed_int, parsed_uint, same};
use crate::tune::CpuTuneState;
use vstd::prelude::*;

verus! {

#[derive(Debug, Clone, Copy, PartialEq, Eq, Structural)]
pub enum IfKind {
    Wifi,
    Ethernet,
    Thunderbolt,
    Connectx,
    Loopback,
    Virtual,
    Other,
}

impl IfKind {
    pub open spec fn named(self) -> Seq<char> {
        match self {
            IfKind::Wifi => "wifi"@,
            IfKind::Ethernet => "ethernet"@,
            IfKind::Thunderbolt => "thunderbolt"@,
            IfKind::Connectx => "connectx"@,
            IfKind::Loopback => "loopback"@,
            IfKind::Virtual => "virtual"@,
            IfKind::Other => "other"@,
        }
    }

    pub fn name(&self) -> (r: String)
        ensures
            r@ == self.named(),
    {
        match self {
            IfKind::Wifi => "wifi".to_owned(),
            IfKind::Ethernet => "ethernet".to_owned(),
            IfKind::Thunderbolt => "thunderbolt".to_owned(),
            IfKind::Connectx => "connectx".to_owned(),
            IfKind::Loopback => "loopback".to_owned(),
            IfKind::Virtual => "virtual".to_owned(),
            IfKind::Other => "other".to_owned(),
        }
    }
}

#[derive(Debug, Clone)]
pub struct NetIf {
    pub name: String,
    pub kind: IfKind,
    pub driver: String,
    pub oper_up: bool,
    pub mtu: u32,
    /// Link speed in Mb/s where the kernel knows it (-1/unknown → None).
    pub speed_mbps: Option<i64>,
    pub ipv4: Vec<String>,
    pub mac: String,
}

#[derive(Debug, Clone)]
pub struct TbDevice {
    pub id: String,
    pub vendor: String,
    pub device: String,
    /// An XDomain entry = another host connected over thunderbolt.
    pub is_host_peer: bool,
}

#[derive(Debug, Clone)]
pub struct NodeProbe {
    pub hostname: String,
    pub version: String,
    pub sudo_passwordless: bool,
    pub tuning: String,
    pub interfaces: Vec<NetIf>,
    pub rdma: Vec<RdmaDeviceInfo>,
    pub thunderbolt: Vec<TbDevice>,
    /// Software RoCE (rdma_rxe) is available — the RDMA path for nodes with
    /// no hardware RDMA NIC (`linkbench roce-up` enables it on an interface).
    pub softroce_available: bool,
}

// --------------------------------------------------------------- interfaces

/// One entry of /sys/class/net, as read; a file that cannot be read is an empty
/// text.
pub struct IfListing {
    pub name: String,
    /// The driver that `device/driver` points to, empty where it points nowhere.
    pub driver: String,
    /// There is a `wireless` entry.
    pub wireless: bool,
    /// There is a `device` entry.
    pub device: bool,
    pub operstate: String,
    pub mtu: String,
    pub speed: String,
    pub address: String,
}

/// What kind of link an interface is. Physical devices sit on a bus (pci/usb);
/// anything without a device entry is a bridge/veth/tun/etc.
pub open spec fn kind_of(name: Seq<char>, wireless: bool, device: bool, driver: Seq<char>) -> IfKind {
    if name == "lo"@ {
        IfKind::Loopback
    } else if wireless || mentions(driver, "iwl"@) || mentions(driver, "ath"@) {
        IfKind::Wifi
    } else if mentions(driver, "thunderbolt"@) || mentions(driver, "tbnet"@) {
        IfKind::Thunderbolt
    } else if mentions(driver, "mlx"@) {
        IfKind::Connectx
    } else if !device {
        IfKind::Virtual
    } else {
        IfKind::Ethernet
    }
}

pub fn classify(name: &str, wireless: bool, device: bool, driver: &str) -> (r: IfKind)
    ensures
        r == kind_of(name@, wireless, device, driver@),
{
    if same(name, "lo") {
        return IfKind::Loopback;
    }
    if wireless || contains(driver, "iwl") || contains(driver, "ath") {
        return IfKind::Wifi;
    }
    if contains(driver, "thunderbolt") || contains(driver, "tbnet") {
        return IfKind::Thunderbolt;
    }
    if contains(driver, "mlx") {
        return IfKind::Connectx;
    }
    if !device {
        return IfKind::Virtual;
    }
    IfKind::Ethernet
}

/// One address entry of `ip -j addr`, where it is an IPv4 one.
pub open spec fn ipv4_in(a: Tree) -> Option<Seq<char>> {
    if text_in(member_of(a, "family"@)) == Some("inet"@) {
        match text_in(member_of(a, "local"@)) {
            Some(ip) => Some(
                ip + "/"@ + dec(
                    match number_in(member_of(a, "prefixlen"@)) {
                        Some(n) => n as nat,
                        None => 32,
                    },
                ),
            ),
            None => None,
        }
    } else {
        None
    }
}

pub open spec fn ipv4s_in(list: Seq<Tree>) -> Seq<Seq<char>>
    decreases list.len(),
{
    if list.len() == 0 {
        Seq::empty()
    } else {
        match ipv4_in(list.last()) {
            Some(s) => ipv4s_in(list.drop_last()).push(s),
            None => ipv4s_in(list.drop_last()),
        }
    }
}

pub open spec fn ifname_in(iface: Tree) -> Seq<char> {
    match text_in(member_of(iface, "ifname"@)) {
        Some(s) => s,
        None => Seq::empty(),
    }
}

/// The IPv4 addresses that `ip -j addr` gives for `name`: those of the last
/// entry with that name.
pub open spec fn addresses_in(list: Seq<Tree>, name: Seq<char>) -> Seq<Seq<char>>
    decreases list.len(),
{
    if list.len() == 0 {
        Seq::empty()
    } else if ifname_in(list.last()) == name {
        ipv4s_in(entries_of(member_of(list.last(), "addr_info"@)))
    } else {
        addresses_in(list.drop_last(), name)
    }
}

/// What an output of `ip -j addr` gives for `name`; an output that is not JSON
/// gives nothing.
pub open spec fn addresses_for(output: Seq<u8>, name: Seq<char>) -> Seq<Seq<char>> {
    match json_text(output) {
        Some(doc) => addresses_in(entries_of(doc), name),
        None => Seq::empty(),
    }
}

fn ipv4_entry(a: &Json) -> (r: Option<String>)
    ensures
        match (r, ipv4_in(a.tree())) {
            (Some(s), Some(t)) => s@ == t,
            (None, None) => true,
            _ => false,
        },
{
    let family = match text_member(a, "family") {
        Some(f) => f,
        None => {
            return None;
        },
    };
    if !same(family.as_str(), "inet") {
        return None;
    }
    match text_member(a, "local") {
        Some(ip) => {
            let prefix: u64 = match number_member(a, "prefixlen") {
                Some(n) => n,
                None => 32,
            };
            Some(ip.concat("/").concat(decimal(prefix).as_str()))
        },
        None => None,
    }
}

fn ipv4_entries(iface: &Json) -> (r: Vec<String>)
    ensures
        views(r@) == ipv4s_in(entries_of(member_of(iface.tree(), "addr_info"@))),
{
    let mut r: Vec<String> = Vec::new();
    if let Some(list) = member(iface, "addr_info") {
        if let Json::List(v) = list {
            let n = v.len();
            let mut i: usize = 0;
            let ghost t = entries_of(list.tree());
            assert(views(r@) =~= ipv4s_in(t.take(0)));
            while i < n
                invariant
                    i <= n,
                    n == v@.len(),
                    t.len() == n,
                    forall|k: int| 0 <= k < n ==> #[trigger] t[k] == v@[k].tree(),
                    views(r@) == ipv4s_in(t.take(i as int)),
                decreases n - i,
            {
                proof {
                    assert(t.take(i + 1).drop_last() =~= t.take(i as int));
                    assert(t.take(i + 1).last() == t[i as int]);
                }
                if let Some(s) = ipv4_entry(&v[i]) {
                    proof {
                        lemma_views_push(r@, s);
                    }
                    r.push(s);
                }
                i += 1;
            }
            assert(t.take(n as int) =~= t);
            return r;
        }
    }
    assert(views(r@) =~= Seq::<Seq<char>>::empty());
    r
}

/// The IPv4 addresses of interface `name` in an `ip -j addr` document.
pub fn ipv4_addresses(doc: &Json, name: &str) -> (r: Vec<String>)
    ensures
        views(r@) == addresses_in(entries_of(doc.tree()), name@),
{
    if let Json::List(v) = doc {
        let ghost t = entries_of(doc.tree());
        let mut i: usize = v.len();
        assert(t.take(t.len() as int) =~= t);
        while i > 0
            invariant
                i <= v@.len(),
                t.len() == v@.len(),
                t == entries_of(doc.tree()),
                forall|k: int| 0 <= k < t.len() ==> #[trigger] t[k] == v@[k].tree(),
                addresses_in(t, name@) == addresses_in(t.take(i as int), name@),
            decreases i,
        {
            i -= 1;
            proof {
                assert(t.take(i + 1).drop_last() =~= t.take(i as int));
                assert(t.take(i + 1).last() == t[i as int]);
            }
            let ifname = match text_member(&v[i], "ifname") {
                Some(s) => s,
                None => String::new(),
            };
            proof {
                assert(ifname@ == ifname_in(v@[i as int].tree()));
            }
            if same(ifname.as_str(), name) {
                return ipv4_entries(&v[i]);
            }
        }
    }
    let r: Vec<String> = Vec::new();
    assert(views(r@) =~= Seq::<Seq<char>>::empty());
    r
}

impl Ordered for IfListing {
    open spec fn precedes(&self, other: &IfListing) -> bool {
        before(self.name@, other.name@)
    }

    proof fn lemma_order(a: &IfListing, b: &IfListing, c: &IfListing) {
        String::lemma_order(&a.name, &b.name, &c.name);
    }

    fn goes_before(&self, other: &IfListing) -> (r: bool) {
        comes_before(self.name.as_str(), other.name.as_str())
    }
}

/// `i` is what the listing says of an interface, with the addresses that
/// `output`, that of `ip -j addr`, gives for it.
pub open spec fn reads_if(i: NetIf, l: IfListing, output: Seq<u8>) -> bool {
    &&& i.name@ == l.name@
    &&& i.kind == kind_of(l.name@, l.wireless, l.device, l.driver@)
    &&& i.driver@ == l.driver@
    &&& i.oper_up == (trim(l.operstate@) == "up"@)
    &&& i.mtu == (match parsed_uint(trim(l.mtu@), u32::MAX as nat) {
        Some(v) => v,
        None => 0,
    })
    &&& i.speed_mbps == (match parsed_int(trim(l.speed@), i64::MIN as int, i64::MAX as int) {
        Some(v) => if v > 0 {
            Some(v as i64)
        } else {
            None
        },
        None => None,
    })
    &&& views(i.ipv4@) == addresses_for(output, l.name@)
    &&& i.mac@ == trim(l.address@)
}

fn interface(l: &IfListing, doc: &Option<Json>, output: &[u8]) -> (r: NetIf)
    requires
        doc is Some <==> json_text(output@) is Some,
        *doc matches Some(j) ==> json_text(output@) == Some(j.tree()),
    ensures
        reads_if(r, *l, output@),
{
    let ipv4 = match doc {
        Some(j) => ipv4_addresses(j, l.name.as_str()),
        None => Vec::new(),
    };
    proof {
        if *doc is None {
            assert(views(ipv4@) =~= Seq::<Seq<char>>::empty());
        }
    }
    let mtu: u64 = match parse_uint(trimmed(l.mtu.as_str()).as_str(), 0xffff_ffff) {
        Some(v) => v,
        None => 0,
    };
    let speed = match parse_i64(trimmed(l.speed.as_str()).as_str()) {
        Some(v) => if v > 0 {
            Some(v)
        } else {
            None
        },
        None => None,
    };
    NetIf {
        name: l.name.clone(),
        kind: classify(l.name.as_str(), l.wireless, l.device, l.driver.as_str()),
        driver: l.driver.clone(),
        oper_up: same(trimmed(l.operstate.as_str()).as_str(), "up"),
        mtu: mtu as u32,
        speed_mbps: speed,
        ipv4,
        mac: trimmed(l.address.as_str()),
    }
}

/// `r` holds an interface for each listed one, sorted by name.
pub open spec fn lists_interfaces(r: Seq<NetIf>, found: Seq<IfListing>, output: Seq<u8>) -> bool {
    exists|sorted: Seq<IfListing>, p: Seq<int>| #[trigger]
        arranged(sorted, found, p) && r.len() == sorted.len() && forall|i: int|
            #![trigger r[i]]
            0 <= i < r.len() ==> reads_if(r[i], sorted[i], output)
}

/// The interfaces of this node, from what /sys/class/net lists and what
/// `ip -j addr` prints.
pub fn interfaces(found: Vec<IfListing>, output: &[u8]) -> (r: Vec<NetIf>)
    ensures
        lists_interfaces(r@, found@, output@),
{
    let sorted = sort_stable(found);
    let doc = parse(output);
    let mut r: Vec<NetIf> = Vec::new();
    let n = sorted.len();
    let mut i: usize = 0;
    while i < n
        invariant
            i <= n,
            n == sorted@.len(),
            r@.len() == i,
            doc is Some <==> json_text(output@) is Some,
            doc matches Some(j) ==> json_text(output@) == Some(j.tree()),
            forall|k: int|
                #![trigger r@[k]]
                0 <= k < i ==> reads_if(r@[k], sorted@[k], output@),
        decreases n - i,
    {
        r.push(interface(&sorted[i], &doc, output));
        i += 1;
    }
    r
}

// -------------------------------------------------------------- thunderbolt

/// One entry of the thunderbolt bus, as read.
pub struct TbListing {
    pub id: String,
    pub vendor: String,
    pub device: String,
    pub has_unique_id: bool,
    pub has_authorized: bool,
}

/// Domains, retimers and service entries have neither name.
pub open spec fn tb_named(l: TbListing) -> bool {
    trim(l.vendor@).len() > 0 || trim(l.device@).len() > 0
}

/// `d` is what the listing says of a device. XDomain (host-to-host) entries
/// expose a unique_id and are not regular routers with an authorized flag.
pub open spec fn reads_tb(d: TbDevice, l: TbListing) -> bool {
    &&& d.id@ == l.id@
    &&& d.vendor@ == trim(l.vendor@)
    &&& d.device@ == trim(l.device@)
    &&& d.is_host_peer == (l.has_unique_id && !l.has_authorized)
}

/// `r` are the devices among the listed entries, in the order listed.
pub open spec fn reads_tbs(r: Seq<TbDevice>, found: Seq<TbListing>) -> bool
    decreases found.len(),
{
    if found.len() == 0 {
        r.len() == 0
    } else if tb_named(found.last()) {
        r.len() > 0 && reads_tb(r.last(), found.last()) && reads_tbs(
            r.drop_last(),
            found.drop_last(),
        )
    } else {
        reads_tbs(r, found.drop_last())
    }
}

impl Ordered for TbDevice {
    open spec fn precedes(&self, other: &TbDevice) -> bool {
        before(self.id@, other.id@)
    }

    proof fn lemma_order(a: &TbDevice, b: &TbDevice, c: &TbDevice) {
        String::lemma_order(&a.id, &b.id, &c.id);
    }

    fn goes_before(&self, other: &TbDevice) -> (r: bool) {
        comes_before(self.id.as_str(), other.id.as_str())
    }
}

/// The devices on the thunderbolt bus, sorted by id.
pub fn thunderbolt_devices(found: &Vec<TbListing>) -> (r: Vec<TbDevice>)
    ensures
        exists|listed: Seq<TbDevice>, p: Seq<int>|
            reads_tbs(listed, found@) && #[trigger] arranged(r@, listed, p),
{
    let mut listed: Vec<TbDevice> = Vec::new();
    let n = found.len();
    let mut i: usize = 0;
    while i < n
        invariant
            i <= n,
            n == found@.len(),
            reads_tbs(listed@, found@.take(i as int)),
        decreases n - i,
    {
        proof {
            assert(found@.take(i + 1).drop_last() =~= found@.take(i as int));
        }
        let l = &found[i];
        let vendor = trimmed(l.vendor.as_str());
        let device = trimmed(l.device.as_str());
        if !vendor.as_str().is_empty() || !device.as_str().is_empty() {
            let ghost had = listed@;
            listed.push(
                TbDevice {
                    id: l.id.clone(),
                    vendor,
                    device,
                    is_host_peer: l.has_unique_id && !l.has_authorized,
                },
            );
            assert(listed@.drop_last() =~= had);
        }
        i += 1;
    }
    assert(found@.take(n as int) =~= found@);
    sort_stable(listed)
}

// -------------------------------------------------------------------- route

/// The interface that a document of `ip -j route get` names.
pub open spec fn dev_in(doc: Tree) -> Option<Seq<char>> {
    if entries_of(doc).len() > 0 {
        text_in(member_of(entries_of(doc)[0], "dev"@))
    } else {
        None
    }
}

/// The interface named by an `ip -j route get` document.
pub fn dev_of(doc: &Json) -> (r: Option<String>)
    ensures
        match (r, dev_in(doc.tree())) {
            (Some(s), Some(t)) => s@ == t,
            (None, None) => true,
            _ => false,
        },
{
    if let Json::List(v) = doc {
        if v.len() > 0 {
            assert(entries_of(doc.tree())[0] == v@[0].tree());
            return text_member(&v[0], "dev");
        }
    }
    None
}

/// Which local interface the kernel would use, from what `ip -j route get`
/// prints.
pub fn route_dev(output: &[u8]) -> (r: Option<String>)
    ensures
        match (
            r,
            match json_text(output@) {
                Some(doc) => dev_in(doc),
                None => None,
            },
        ) {
            (Some(s), Some(t)) => s@ == t,
            (None, None) => true,
            _ => false,
        },
{
    match parse(output) {
        Some(doc) => dev_of(&doc),
        None => None,
    }
}

// ------------------------------------------------------------------- gather

/// All that is known of this node. Tuning that cannot be read is left empty.
pub fn gather(
    hostname: String,
    sudo_passwordless: bool,
    tuning: Option<CpuTuneState>,
    interfaces: Vec<NetIf>,
    rdma: Vec<RdmaDeviceInfo>,
    softroce_available: bool,
    thunderbolt: Vec<TbDevice>,
) -> (r: Result<NodeProbe, String>)
    ensures
        r matches Ok(p) && p.hostname == hostname && p.version@ == VERSION@ && p.sudo_passwordless
            == sudo_passwordless && p.tuning@ == (match tuning {
            Some(t) => t.summarized(),
            None => Seq::empty(),
        }) && p.interfaces == interfaces && p.rdma == rdma && p.softroce_available
            == softroce_available && p.thunderbolt == thunderbolt,
{
    let summary = match tuning {
        Some(t) => t.summary(),
        None => String::new(),
    };
    Ok(
        NodeProbe {
            hostname,
            version: VERSION.to_owned(),
            sudo_passwordless,
            tuning: summary,
            interfaces,
            rdma,
            thunderbolt,
            softroce_available,
        },
    )
}

/// What tells the kinds of interfaces apart: a wireless one is Wi-Fi whatever
/// drives it, a thunderbolt or Mellanox one is known by its driver, and of the
/// rest those on a bus are Ethernet and the others virtual. Only `lo` is loopback.
pub proof fn law_kinds_are_told_apart(
    name: Seq<char>,
    wireless: bool,
    device: bool,
    driver: Seq<char>,
)
    ensures
        ({
            let k = kind_of(name, wireless, device, driver);
            let wifi = wireless || mentions(driver, "iwl"@) || mentions(driver, "ath"@);
            let bolt = mentions(driver, "thunderbolt"@) || mentions(driver, "tbnet"@);
            let mlx = mentions(driver, "mlx"@);
            &&& k is Loopback <==> name == "lo"@
            &&& k is Wifi <==> name != "lo"@ && wifi
            &&& k is Thunderbolt <==> name != "lo"@ && !wifi && bolt
            &&& k is Connectx <==> name != "lo"@ && !wifi && !bolt && mlx
            &&& k is Ethernet <==> name != "lo"@ && !wifi && !bolt && !mlx && device
            &&& k is Virtual <==> name != "lo"@ && !wifi && !bolt && !mlx && !device
        }),
{
}

/// An interface is listed with the addresses of its own entry: each IPv4 one, as
/// ADDRESS/PREFIX, and nothing else.
pub proof fn law_addresses_are_the_ipv4_ones(list: Seq<Tree>, i: int)
    requires
        0 <= i < list.len(),
    ensures
        ({
            let a = list[i];
            let ip = text_in(member_of(a, "local"@));
            let prefix = number_in(member_of(a, "prefixlen"@));
            (text_in(member_of(a, "family"@)) == Some("inet"@) && ip is Some && prefix is Some)
                ==> ipv4s_in(list).contains(ip->0 + "/"@ + dec(prefix->0 as nat))
        }),
        ipv4s_in(list).len() <= list.len(),
    decreases list.len(),
{
    let rest = list.drop_last();
    let had = ipv4s_in(rest);
    let all = ipv4s_in(list);
    if rest.len() > 0 {
        law_addresses_are_the_ipv4_ones(
            rest,
            if i < rest.len() {
                i
            } else {
                0
            },
        );
    }
    assert(forall|k: int| 0 <= k < had.len() ==> #[trigger] all[k] == had[k]);
    if i < rest.len() {
        assert(rest[i] == list[i]);
        let a = list[i];
        let s = text_in(member_of(a, "local"@))->0 + "/"@ + dec(
            number_in(member_of(a, "prefixlen"@))->0 as nat,
        );
        if had.contains(s) {
            let k = choose|k: int| 0 <= k < had.len() && had[k] == s;
            assert(all[k] == s);
        }
    } else if ipv4_in(list.last()) is Some {
        assert(all[had.len() as int] == ipv4_in(list.last())->0);
    }
}

/// The addresses of an interface are those of its entry, the last one where there
/// are several, and there are none where it has no entry.
pub proof fn law_addresses_are_of_the_interface(list: Seq<Tree>, name: Seq<char>, i: int)
    requires
        -1 <= i < list.len(),
        forall|j: int| i < j < list.len() ==> ifname_in(#[trigger] list[j]) != name,
        i >= 0 ==> ifname_in(list[i]) == name,
    ensures
        i >= 0 ==> addresses_in(list, name) == ipv4s_in(
            entries_of(member_of(list[i], "addr_info"@)),
        ),
        i == -1 ==> addresses_in(list, name).len() == 0,
    decreases list.len(),
{
    if list.len() > 0 && i < list.len() - 1 {
        let rest = list.drop_last();
        assert(ifname_in(list[list.len() - 1]) != name);
        assert forall|j: int| i < j < rest.len() implies ifname_in(#[trigger] rest[j]) != name by {
            assert(rest[j] == list[j]);
        }
        if i >= 0 {
            assert(rest[i] == list[i]);
        }
        law_addresses_are_of_the_interface(rest, name, i);
    }
}

} // verus!
