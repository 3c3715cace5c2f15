//! Bringing links up: software RoCE on an ordinary interface, and thunderbolt
//! networking. Commands and file writes are the caller's; what is run next, and
//! what is said in the end, is decided here from what came back.

use crate::probe::{IfKind, NetIf};
use crate::scan::{contains, mentions, trim, trimmed, views};
use crate::text::{dec, decimal, quoted, quoted_text, same, texts};
use vstd::prelude::*;

verus! {

/// A file to write.
pub struct FileWrite {
    pub path: String,
    pub content: String,
    /// What is said where the write fails.
    pub complaint: String,
}

pub open spec fn writes(
    f: FileWrite,
    path: Seq<char>,
    content: Seq<char>,
    complaint: Seq<char>,
) -> bool {
    f.path@ == path && f.content@ == content && f.complaint@ == complaint
}

// --------------------------------------------------------- Soft-RoCE (rxe)

/// Is the software RoCE stack available: built in or loaded already, or
/// loadable. Any ordinary ethernet interface can carry RoCE through it.
pub fn softroce_available(loaded: bool, loadable: bool) -> (r: bool)
    ensures
        r == (loaded || loadable),
{
    loaded || loadable
}

pub struct RoceRequest {
    pub iface: String,
    /// The rxe link to add.
    pub name: String,
    pub persist: bool,
}

/// An RDMA device and the text of its `parent` file.
pub struct RdmaParent {
    pub device: String,
    pub parent: String,
}

/// What happened.
pub enum RoceEvent {
    /// Whether the software RoCE stack is available was looked up.
    Checked(bool),
    /// The module was loaded and the RDMA devices listed.
    Loaded(Vec<RdmaParent>),
    /// `rdma link add` ran.
    LinkAdded { success: bool, stderr: String },
    /// The files were written and the unit enabled.
    Persisted,
}

/// What to do next.
pub enum RoceAction {
    /// Load `rdma_rxe`, list the RDMA devices.
    Load,
    /// Run `rdma` with these arguments.
    AddLink(Vec<String>),
    /// Write these files, reload systemd, enable the unit.
    Persist(Vec<FileWrite>),
    /// It is up; this is what to say.
    Done(String),
    /// It cannot be brought up; this is why.
    Fail(String),
}

/// The first device bound to `iface`, where there is one.
pub open spec fn bound_device(devices: Seq<RdmaParent>, iface: Seq<char>) -> Option<Seq<char>>
    decreases devices.len(),
{
    if devices.len() == 0 {
        None
    } else if trim(devices[0].parent@) == iface {
        Some(devices[0].device@)
    } else {
        bound_device(devices.skip(1), iface)
    }
}

pub open spec fn rxe_unit(name: Seq<char>, iface: Seq<char>) -> Seq<char> {
    "[Unit]\nDescription=linkbench software RoCE ("@ + name + " on "@ + iface
        + ")\nAfter=network-online.target\nWants=network-online.target\n\n[Service]\nType=oneshot\nExecStart=/bin/sh -c 'modprobe rdma_rxe; rdma link add "@
        + name + " type rxe netdev "@ + iface
        + " 2>/dev/null || true'\nRemainAfterExit=yes\n\n[Install]\nWantedBy=multi-user.target\n"@
}

pub open spec fn roce_summary(req: RoceRequest, persisted: bool) -> Seq<char> {
    "software RoCE up: "@ + req.name@ + " on "@ + req.iface@ + (if persisted {
        " (persisted via modules-load.d + linkbench-rxe.service)"@
    } else {
        Seq::empty()
    })
}

/// The two files that bring the link back at boot.
pub open spec fn roce_files(f: Seq<FileWrite>, req: RoceRequest) -> bool {
    &&& f.len() == 2
    &&& writes(
        f[0],
        "/etc/modules-load.d/linkbench-rxe.conf"@,
        "rdma_rxe\n"@,
        "write modules-load.d (needs root)"@,
    )
    &&& writes(
        f[1],
        "/etc/systemd/system/linkbench-rxe.service"@,
        rxe_unit(req.name@, req.iface@),
        "write systemd unit (needs root)"@,
    )
}

/// `a` is what follows `ev`.
pub open spec fn roce_follows(a: RoceAction, req: RoceRequest, ev: RoceEvent) -> bool {
    match ev {
        RoceEvent::Checked(available) => if available {
            a is Load
        } else {
            a matches RoceAction::Fail(s) && s@
                == "rdma_rxe (software RoCE) is not available on this kernel — install the `rdma-core`/`rdma_rxe` support or use --transport tcp"@
        },
        RoceEvent::Loaded(devices) => match bound_device(devices@, req.iface@) {
            Some(d) => a matches RoceAction::Done(s) && s@ == "software RoCE already up: "@ + d
                + " on "@ + req.iface@,
            None => a matches RoceAction::AddLink(args) && views(args@) == seq![
                "link"@,
                "add"@,
                req.name@,
                "type"@,
                "rxe"@,
                "netdev"@,
                req.iface@,
            ],
        },
        RoceEvent::LinkAdded { success, stderr } => if success {
            if req.persist {
                a matches RoceAction::Persist(f) && roce_files(f@, req)
            } else {
                a matches RoceAction::Done(s) && s@ == roce_summary(req, false)
            }
        } else if mentions(stderr@, "File exists"@) {
            a matches RoceAction::Done(s) && s@ == "software RoCE link "@ + req.name@
                + " already exists"@
        } else {
            a matches RoceAction::Fail(s) && s@ == "rdma link add failed: "@ + trim(stderr@)
        },
        RoceEvent::Persisted => a matches RoceAction::Done(s) && s@ == roce_summary(req, true),
    }
}

fn bound_to(devices: &Vec<RdmaParent>, iface: &str) -> (r: Option<String>)
    ensures
        match (r, bound_device(devices@, iface@)) {
            (Some(s), Some(d)) => s@ == d,
            (None, None) => true,
            _ => false,
        },
{
    let n = devices.len();
    let mut i: usize = 0;
    assert(devices@.skip(0) =~= devices@);
    while i < n
        invariant
            i <= n,
            n == devices@.len(),
            bound_device(devices@, iface@) == bound_device(devices@.skip(i as int), iface@),
        decreases n - i,
    {
        proof {
            assert(devices@.skip(i as int)[0] == devices@[i as int]);
            assert(devices@.skip(i as int).skip(1) =~= devices@.skip(i + 1));
        }
        if same(trimmed(devices[i].parent.as_str()).as_str(), iface) {
            return Some(devices[i].device.clone());
        }
        i += 1;
    }
    None
}

fn unit_text(name: &str, iface: &str) -> (r: String)
    ensures
        r@ == rxe_unit(name@, iface@),
{
    "[Unit]\nDescription=linkbench software RoCE (".to_owned().concat(name).concat(" on ").concat(
        iface,
    ).concat(
        ")\nAfter=network-online.target\nWants=network-online.target\n\n[Service]\nType=oneshot\nExecStart=/bin/sh -c 'modprobe rdma_rxe; rdma link add ",
    ).concat(name).concat(" type rxe netdev ").concat(iface).concat(
        " 2>/dev/null || true'\nRemainAfterExit=yes\n\n[Install]\nWantedBy=multi-user.target\n",
    )
}

fn roce_up_text(req: &RoceRequest, persisted: bool) -> (r: String)
    ensures
        r@ == roce_summary(*req, persisted),
{
    let tail = if persisted {
        " (persisted via modules-load.d + linkbench-rxe.service)".to_owned()
    } else {
        String::new()
    };
    "software RoCE up: ".to_owned().concat(req.name.as_str()).concat(" on ").concat(
        req.iface.as_str(),
    ).concat(tail.as_str())
}

/// Bring up software RoCE on an interface: load rdma_rxe and add an rxe link
/// bound to it, so the RDMA transport works without a hardware RDMA NIC.
/// Idempotent: a link that is there already is left as it is.
pub fn roce_up(req: &RoceRequest, ev: RoceEvent) -> (r: RoceAction)
    ensures
        roce_follows(r, *req, ev),
{
    match ev {
        RoceEvent::Checked(available) => if available {
            RoceAction::Load
        } else {
            RoceAction::Fail(
                "rdma_rxe (software RoCE) is not available on this kernel — install the `rdma-core`/`rdma_rxe` support or use --transport tcp".to_owned(),
            )
        },
        RoceEvent::Loaded(devices) => match bound_to(&devices, req.iface.as_str()) {
            Some(d) => RoceAction::Done(
                "software RoCE already up: ".to_owned().concat(d.as_str()).concat(" on ").concat(
                    req.iface.as_str(),
                ),
            ),
            None => {
                let args = texts(
                    [
                        "link",
                        "add",
                        req.name.as_str(),
                        "type",
                        "rxe",
                        "netdev",
                        req.iface.as_str(),
                    ],
                );
                assert(views(args@) =~= seq![
                    "link"@,
                    "add"@,
                    req.name@,
                    "type"@,
                    "rxe"@,
                    "netdev"@,
                    req.iface@,
                ]);
                RoceAction::AddLink(args)
            },
        },
        RoceEvent::LinkAdded { success, stderr } => if success {
            if req.persist {
                let mut files: Vec<FileWrite> = Vec::new();
                files.push(
                    FileWrite {
                        path: "/etc/modules-load.d/linkbench-rxe.conf".to_owned(),
                        content: "rdma_rxe\n".to_owned(),
                        complaint: "write modules-load.d (needs root)".to_owned(),
                    },
                );
                files.push(
                    FileWrite {
                        path: "/etc/systemd/system/linkbench-rxe.service".to_owned(),
                        content: unit_text(req.name.as_str(), req.iface.as_str()),
                        complaint: "write systemd unit (needs root)".to_owned(),
                    },
                );
                RoceAction::Persist(files)
            } else {
                RoceAction::Done(roce_up_text(req, false))
            }
        } else if contains(stderr.as_str(), "File exists") {
            RoceAction::Done(
                "software RoCE link ".to_owned().concat(req.name.as_str()).concat(
                    " already exists",
                ),
            )
        } else {
            RoceAction::Fail(
                "rdma link add failed: ".to_owned().concat(trimmed(stderr.as_str()).as_str()),
            )
        },
        RoceEvent::Persisted => RoceAction::Done(roce_up_text(req, true)),
    }
}

/// Bringing up what is up already adds nothing: once a device is bound to the
/// interface, no link is added, nothing is written and nothing fails.
pub proof fn law_roce_up_is_idempotent(
    a: RoceAction,
    req: RoceRequest,
    devices: Vec<RdmaParent>,
    k: int,
)
    requires
        0 <= k < devices@.len(),
        trim(devices@[k].parent@) == req.iface@,
        roce_follows(a, req, RoceEvent::Loaded(devices)),
    ensures
        a is Done,
{
    lemma_bound(devices@, req.iface@, k);
}

proof fn lemma_bound(devices: Seq<RdmaParent>, iface: Seq<char>, k: int)
    requires
        0 <= k < devices.len(),
        trim(devices[k].parent@) == iface,
    ensures
        bound_device(devices, iface) is Some,
    decreases devices.len(),
{
    if k > 0 {
        lemma_bound(devices.skip(1), iface, k - 1);
    }
}

// -------------------------------------------------------------- thunderbolt

/// How often the interface is looked for before giving up.
pub const TB_ATTEMPTS: u32 = 20;

pub struct TbRequest {
    pub cidr: String,
    pub mtu: Option<u32>,
    pub persist: bool,
}

pub enum TbEvent {
    /// The interfaces were listed, after `attempt` earlier tries.
    Listed { attempt: u32, interfaces: Vec<NetIf> },
    /// `ip addr replace` ran.
    Addressed(bool),
    /// `ip link set up` ran.
    LinkUp,
    /// The MTU candidate `index` was tried.
    MtuTried { index: usize, accepted: bool },
    /// The MTU the interface now has was read.
    MtuRead(String),
    /// The files were written; `mtu` as it was read.
    Persisted(String),
}

pub enum TbAction {
    /// Wait a moment and list the interfaces again.
    Wait,
    /// The interface is this one; run `ip` with these arguments.
    SetAddress { ifname: String, args: Vec<String> },
    /// Run `ip` with these arguments.
    SetUp(Vec<String>),
    /// Run `ip` with these arguments to try an MTU.
    TryMtu { index: usize, args: Vec<String> },
    /// Read the interface's MTU.
    ReadMtu,
    Persist(Vec<FileWrite>),
    Done(String),
    Fail(String),
}

/// Thunderbolt-net supports very large frames; take the biggest the driver
/// accepts.
pub open spec fn mtu_candidates(mtu: Option<u32>) -> Seq<u32> {
    match mtu {
        Some(m) => seq![m],
        None => seq![65520u32, 9000, 4000],
    }
}

/// The first thunderbolt interface.
pub open spec fn first_thunderbolt(list: Seq<NetIf>) -> Option<Seq<char>>
    decreases list.len(),
{
    if list.len() == 0 {
        None
    } else if list[0].kind is Thunderbolt {
        Some(list[0].name@)
    } else {
        first_thunderbolt(list.skip(1))
    }
}

pub open spec fn netplan(ifname: Seq<char>, cidr: Seq<char>, mtu: Seq<char>) -> Seq<char> {
    "# written by linkbench tb-up\nnetwork:\n  version: 2\n  ethernets:\n    "@ + ifname
        + ":\n      addresses: ["@ + cidr + "]\n      mtu: "@ + mtu + "\n"@
}

pub open spec fn netplan_path() -> Seq<char> {
    "/etc/netplan/70-linkbench-thunderbolt.yaml"@
}

pub open spec fn tb_summary(
    ifname: Seq<char>,
    cidr: Seq<char>,
    mtu: Seq<char>,
    persisted: bool,
) -> Seq<char> {
    ifname + " up with "@ + cidr + ", mtu "@ + mtu + (if persisted {
        ", persisted ("@ + netplan_path() + " + modules-load.d)"@
    } else {
        Seq::empty()
    })
}

pub open spec fn tb_files(
    f: Seq<FileWrite>,
    ifname: Seq<char>,
    cidr: Seq<char>,
    mtu: Seq<char>,
) -> bool {
    &&& f.len() == 2
    &&& writes(
        f[0],
        "/etc/modules-load.d/linkbench-thunderbolt.conf"@,
        "thunderbolt_net\n"@,
        "write modules-load.d (needs root)"@,
    )
    &&& writes(
        f[1],
        netplan_path(),
        netplan(ifname, cidr, mtu),
        "write netplan file (needs root)"@,
    )
}

pub open spec fn tries_mtu(a: TbAction, ifname: Seq<char>, index: int, mtu: u32) -> bool {
    a matches TbAction::TryMtu { index: i, args } && i == index && views(args@) == seq![
        "link"@,
        "set"@,
        ifname,
        "mtu"@,
        dec(mtu as nat),
    ]
}

/// `a` is what follows `ev`; `ifname` is the interface, once it is known.
pub open spec fn tb_follows(a: TbAction, req: TbRequest, ifname: Seq<char>, ev: TbEvent) -> bool {
    match ev {
        TbEvent::Listed { attempt, interfaces } => match first_thunderbolt(interfaces@) {
            Some(name) => a matches TbAction::SetAddress { ifname: i, args } && i@ == name && views(
                args@,
            ) == seq!["addr"@, "replace"@, req.cidr@, "dev"@, name],
            None => if attempt + 1 < TB_ATTEMPTS {
                a is Wait
            } else {
                a matches TbAction::Fail(s) && s@
                    == "no thunderbolt-net interface appeared — is the cable connected and the thunderbolt_net module available?"@
            },
        },
        TbEvent::Addressed(ok) => if ok {
            a matches TbAction::SetUp(args) && views(args@) == seq!["link"@, "set"@, ifname, "up"@]
        } else {
            a matches TbAction::Fail(s) && s@ == "ip addr replace "@ + req.cidr@ + " dev "@ + ifname
                + " failed (needs root)"@
        },
        TbEvent::LinkUp => tries_mtu(a, ifname, 0, mtu_candidates(req.mtu)[0]),
        TbEvent::MtuTried { index, accepted } => if !accepted && index + 1 < mtu_candidates(
            req.mtu,
        ).len() {
            tries_mtu(a, ifname, index + 1, mtu_candidates(req.mtu)[index + 1])
        } else {
            a is ReadMtu
        },
        TbEvent::MtuRead(mtu) => if req.persist {
            a matches TbAction::Persist(f) && tb_files(f@, ifname, req.cidr@, trim(mtu@))
        } else {
            a matches TbAction::Done(s) && s@ == tb_summary(ifname, req.cidr@, trim(mtu@), false)
        },
        TbEvent::Persisted(mtu) => a matches TbAction::Done(s) && s@ == tb_summary(
            ifname,
            req.cidr@,
            trim(mtu@),
            true,
        ),
    }
}

fn find_thunderbolt(list: &Vec<NetIf>) -> (r: Option<String>)
    ensures
        match (r, first_thunderbolt(list@)) {
            (Some(s), Some(t)) => s@ == t,
            (None, None) => true,
            _ => false,
        },
{
    let n = list.len();
    let mut i: usize = 0;
    assert(list@.skip(0) =~= list@);
    while i < n
        invariant
            i <= n,
            n == list@.len(),
            first_thunderbolt(list@) == first_thunderbolt(list@.skip(i as int)),
        decreases n - i,
    {
        proof {
            assert(list@.skip(i as int)[0] == list@[i as int]);
            assert(list@.skip(i as int).skip(1) =~= list@.skip(i + 1));
        }
        if list[i].kind == IfKind::Thunderbolt {
            return Some(list[i].name.clone());
        }
        i += 1;
    }
    None
}

fn candidates(mtu: Option<u32>) -> (r: Vec<u32>)
    ensures
        r@ == mtu_candidates(mtu),
{
    match mtu {
        Some(m) => vec![m],
        None => vec![65520, 9000, 4000],
    }
}

fn try_mtu(ifname: &str, index: usize, mtu: u32) -> (r: TbAction)
    ensures
        tries_mtu(r, ifname@, index as int, mtu),
{
    let m = decimal(mtu as u64);
    let args = texts(["link", "set", ifname, "mtu", m.as_str()]);
    assert(views(args@) =~= seq!["link"@, "set"@, ifname@, "mtu"@, dec(mtu as nat)]);
    TbAction::TryMtu { index, args }
}

fn tb_up_text(ifname: &str, cidr: &str, mtu: &str, persisted: bool) -> (r: String)
    ensures
        r@ == tb_summary(ifname@, cidr@, mtu@, persisted),
{
    let tail = if persisted {
        ", persisted (".to_owned().concat("/etc/netplan/70-linkbench-thunderbolt.yaml").concat(
            " + modules-load.d)",
        )
    } else {
        String::new()
    };
    ifname.to_owned().concat(" up with ").concat(cidr).concat(", mtu ").concat(mtu).concat(
        tail.as_str(),
    )
}

/// Bring the thunderbolt-net link up on this node once its module is loaded:
/// find the interface, assign the address, raise the MTU as high as the driver
/// allows, optionally persist (modules-load.d + netplan file, not applied).
pub fn tb_up(req: &TbRequest, ifname: &str, ev: TbEvent) -> (r: TbAction)
    ensures
        tb_follows(r, *req, ifname@, ev),
{
    match ev {
        TbEvent::Listed { attempt, interfaces } => match find_thunderbolt(&interfaces) {
            Some(name) => {
                let args = texts(["addr", "replace", req.cidr.as_str(), "dev", name.as_str()]);
                assert(views(args@) =~= seq!["addr"@, "replace"@, req.cidr@, "dev"@, name@]);
                TbAction::SetAddress { ifname: name, args }
            },
            None => if attempt < TB_ATTEMPTS - 1 {
                TbAction::Wait
            } else {
                TbAction::Fail(
                    "no thunderbolt-net interface appeared — is the cable connected and the thunderbolt_net module available?".to_owned(),
                )
            },
        },
        TbEvent::Addressed(ok) => if ok {
            let args = texts(["link", "set", ifname, "up"]);
            assert(views(args@) =~= seq!["link"@, "set"@, ifname@, "up"@]);
            TbAction::SetUp(args)
        } else {
            TbAction::Fail(
                "ip addr replace ".to_owned().concat(req.cidr.as_str()).concat(" dev ").concat(
                    ifname,
                ).concat(" failed (needs root)"),
            )
        },
        TbEvent::LinkUp => try_mtu(ifname, 0, candidates(req.mtu)[0]),
        TbEvent::MtuTried { index, accepted } => {
            let list = candidates(req.mtu);
            if !accepted && index < list.len() && index + 1 < list.len() {
                try_mtu(ifname, index + 1, list[index + 1])
            } else {
                TbAction::ReadMtu
            }
        },
        TbEvent::MtuRead(mtu) => {
            let mtu = trimmed(mtu.as_str());
            if req.persist {
                let mut files: Vec<FileWrite> = Vec::new();
                files.push(
                    FileWrite {
                        path: "/etc/modules-load.d/linkbench-thunderbolt.conf".to_owned(),
                        content: "thunderbolt_net\n".to_owned(),
                        complaint: "write modules-load.d (needs root)".to_owned(),
                    },
                );
                files.push(
                    FileWrite {
                        path: "/etc/netplan/70-linkbench-thunderbolt.yaml".to_owned(),
                        content: "# written by linkbench tb-up\nnetwork:\n  version: 2\n  ethernets:\n    ".to_owned().concat(
                            ifname,
                        ).concat(":\n      addresses: [").concat(req.cidr.as_str()).concat(
                            "]\n      mtu: ",
                        ).concat(mtu.as_str()).concat("\n"),
                        complaint: "write netplan file (needs root)".to_owned(),
                    },
                );
                TbAction::Persist(files)
            } else {
                TbAction::Done(tb_up_text(ifname, req.cidr.as_str(), mtu.as_str(), false))
            }
        },
        TbEvent::Persisted(mtu) => TbAction::Done(
            tb_up_text(ifname, req.cidr.as_str(), trimmed(mtu.as_str()).as_str(), true),
        ),
    }
}

/// A given MTU is the only one tried; without one they are tried from the
/// largest down.
pub proof fn law_mtus_go_down(mtu: Option<u32>, i: int, j: int)
    requires
        0 <= i < j < mtu_candidates(mtu).len(),
    ensures
        mtu is None,
        mtu_candidates(mtu)[i] > mtu_candidates(mtu)[j],
{
}

/// The complaint where an `ip` command cannot be run at all.
pub open spec fn ip_complaint(args: Seq<Seq<char>>) -> Seq<char> {
    "run ip ["@ + quoted_list(args) + "] (needs root)"@
}

pub open spec fn quoted_list(args: Seq<Seq<char>>) -> Seq<char>
    decreases args.len(),
{
    if args.len() == 0 {
        Seq::empty()
    } else if args.len() == 1 {
        quoted_text(args[0])
    } else {
        quoted_list(args.drop_last()) + ", "@ + quoted_text(args.last())
    }
}

pub fn ip_failed(args: &Vec<String>) -> (r: String)
    ensures
        r@ == ip_complaint(views(args@)),
{
    let mut list = String::new();
    let n = args.len();
    let mut i: usize = 0;
    assert(list@ =~= quoted_list(views(args@).take(0)));
    while i < n
        invariant
            i <= n,
            n == args@.len(),
            list@ == quoted_list(views(args@).take(i as int)),
        decreases n - i,
    {
        proof {
            assert(views(args@).take(i + 1).drop_last() =~= views(args@).take(i as int));
            assert(views(args@).take(i + 1).last() == args@[i as int]@);
        }
        if i > 0 {
            list = list.concat(", ");
        }
        let q = quoted(args[i].as_str());
        proof {
            if i == 0 {
                assert(list@ + q@ =~= q@);
            }
        }
        list = list.concat(q.as_str());
        i += 1;
    }
    assert(views(args@).take(n as int) =~= views(args@));
    "run ip [".to_owned().concat(list.as_str()).concat("] (needs root)")
}

/// The self-elevating script that is staged on nodes that lack passwordless
/// sudo; the user runs it themselves, then probes again.
pub const SUDO_TOGGLE_SCRIPT: &'static str = r#"#!/usr/bin/env bash
# Staged by linkbench: toggle passwordless sudo for the invoking user.
set -e
TARGET_USER="${SUDO_USER:-$USER}"
if [ "$(id -u)" -ne 0 ]; then
  echo "elevating with sudo (you may be asked for your password)…"
  exec sudo bash "$0"
fi
F="/etc/sudoers.d/99-linkbench-nopasswd"
if [ -f "$F" ]; then
  rm -f "$F"
  echo "passwordless sudo: DISABLED for $TARGET_USER (removed $F)"
else
  printf '%s ALL=(ALL) NOPASSWD:ALL\n' "$TARGET_USER" > "$F"
  chmod 0440 "$F"
  echo "passwordless sudo: ENABLED for $TARGET_USER ($F)"
fi
"#;

/// The interface that is brought up is the first thunderbolt one; where there is
/// none it is waited for, and in the end given up.
pub proof fn law_first_thunderbolt_is_taken(
    a: TbAction,
    req: TbRequest,
    ifname: Seq<char>,
    attempt: u32,
    list: Vec<NetIf>,
    i: int,
)
    requires
        tb_follows(a, req, ifname, TbEvent::Listed { attempt, interfaces: list }),
        0 <= i <= list@.len(),
        forall|j: int| 0 <= j < i ==> !((#[trigger] list@[j]).kind is Thunderbolt),
        i < list@.len() ==> list@[i].kind is Thunderbolt,
    ensures
        i < list@.len() ==> (a matches TbAction::SetAddress { ifname: n, args } && n@
            == list@[i].name@ && args@.len() == 5 && args@[2]@ == req.cidr@ && args@[4]@
            == list@[i].name@),
        i == list@.len() ==> (a is Wait <==> attempt + 1 < TB_ATTEMPTS) && (a is Wait || a is Fail),
{
    lemma_first_thunderbolt(list@, i);
    if let TbAction::SetAddress { ifname: n, args } = a {
        assert(views(args@).len() == args@.len());
        if i < list@.len() {
            assert(views(args@)[2] == args@[2]@);
            assert(views(args@)[4] == args@[4]@);
        }
    }
}

proof fn lemma_first_thunderbolt(list: Seq<NetIf>, i: int)
    requires
        0 <= i <= list.len(),
        forall|j: int| 0 <= j < i ==> !((#[trigger] list[j]).kind is Thunderbolt),
        i < list.len() ==> list[i].kind is Thunderbolt,
    ensures
        i < list.len() ==> first_thunderbolt(list) == Some(list[i].name@),
        i == list.len() ==> first_thunderbolt(list) is None,
    decreases list.len(),
{
    if i > 0 {
        assert(!(list[0].kind is Thunderbolt));
        let rest = list.skip(1);
        assert forall|j: int| 0 <= j < i - 1 implies !((#[trigger] rest[j]).kind is Thunderbolt) by {
            assert(rest[j] == list[j + 1]);
        }
        if i < list.len() {
            assert(rest[i - 1] == list[i]);
        }
        lemma_first_thunderbolt(rest, i - 1);
    }
}

/// The largest frame that the driver takes stays: one that it accepted is not
/// lowered, one that it refused is followed by the next smaller one, and a size
/// that was asked for is the only one tried.
pub proof fn law_largest_accepted_mtu_stays(
    a: TbAction,
    req: TbRequest,
    ifname: Seq<char>,
    index: usize,
    accepted: bool,
)
    requires
        tb_follows(a, req, ifname, TbEvent::MtuTried { index, accepted }),
    ensures
        accepted ==> a is ReadMtu,
        req.mtu is Some ==> a is ReadMtu,
        !accepted && req.mtu is None && index < 2 ==> (a matches TbAction::TryMtu {
            index: next,
            args,
        } && next == index + 1 && args@.len() == 5 && args@[2]@ == ifname && args@[4]@ == dec(
            if index == 0 {
                9000nat
            } else {
                4000
            },
        )),
        !accepted && req.mtu is None && index >= 2 ==> a is ReadMtu,
{
    if let TbAction::TryMtu { index: next, args } = a {
        assert(views(args@).len() == args@.len());
        if args@.len() == 5 {
            assert(views(args@)[2] == args@[2]@);
            assert(views(args@)[4] == args@[4]@);
        }
    }
}

/// A link is added exactly where no device is bound to the interface yet, and it
/// is added to that interface.
pub proof fn law_link_is_added_where_none_is(
    a: RoceAction,
    req: RoceRequest,
    devices: Vec<RdmaParent>,
)
    requires
        roce_follows(a, req, RoceEvent::Loaded(devices)),
        forall|k: int|
            0 <= k < devices@.len() ==> trim((#[trigger] devices@[k]).parent@) != req.iface@,
    ensures
        a matches RoceAction::AddLink(args) && args@.len() == 7 && args@[2]@ == req.name@
            && args@[6]@ == req.iface@,
{
    lemma_none_bound(devices@, req.iface@);
    if let RoceAction::AddLink(args) = a {
        assert(views(args@).len() == args@.len());
        assert(views(args@)[2] == args@[2]@);
        assert(views(args@)[6] == args@[6]@);
    }
}

proof fn lemma_none_bound(devices: Seq<RdmaParent>, iface: Seq<char>)
    requires
        forall|k: int| 0 <= k < devices.len() ==> trim((#[trigger] devices[k]).parent@) != iface,
    ensures
        bound_device(devices, iface) is None,
    decreases devices.len(),
{
    if devices.len() > 0 {
        let rest = devices.skip(1);
        assert(trim(devices[0].parent@) != iface);
        assert forall|k: int| 0 <= k < rest.len() implies trim((#[trigger] rest[k]).parent@)
            != iface by {
            assert(rest[k] == devices[k + 1]);
        }
        lemma_none_bound(rest, iface);
    }
}

/// Software RoCE ends up in place or with a reason: it is loaded only where it is
/// to be had, a link that was added is persisted exactly where that was asked for,
/// and one that was there already is as good as added.
pub proof fn law_roce_ends_in_place_or_says_why(
    a: RoceAction,
    req: RoceRequest,
    success: bool,
    stderr: String,
)
    requires
        roce_follows(a, req, RoceEvent::LinkAdded { success, stderr }),
    ensures
        success && req.persist ==> a is Persist,
        success && !req.persist ==> a is Done,
        !success && mentions(stderr@, "File exists"@) ==> a is Done,
        !success && !mentions(stderr@, "File exists"@) ==> a is Fail,
{
}

} // verus!
