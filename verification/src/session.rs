//! Setting up a session between two nodes: where to connect, which transport and
//! which RDMA device to use, and what to make of the peer's answers.
//!
//! Route safety: RDMA data flows over the device's backing interface, not the
//! target address. The two must never diverge silently.

use crate::proto::{Msg, RdmaDeviceInfo, RdmaEndpoint, DEFAULT_PORT, VERSION};
use crate::rdma::region::{clamped, MAX_QPS};
use crate::scan::{cut_last, join, joined, rsplit_once, views};
use crate::text::{chars_of, dec, decimal, lemma_dec_digits, quoted, quoted_text, same};
use vstd::prelude::*;

verus! {

// ---------------------------------------------------------------- addresses

pub open spec fn address_of(to: Seq<char>) -> Seq<char> {
    if to.contains(':') {
        to
    } else {
        to + ":"@ + dec(DEFAULT_PORT as nat)
    }
}

fn has_colon(s: &str) -> (r: bool)
    ensures
        r == s@.contains(':'),
{
    let v = chars_of(s);
    let n = v.len();
    let mut i: usize = 0;
    while i < n
        invariant
            i <= n,
            n == v@.len(),
            v@ == s@,
            forall|k: int| 0 <= k < i ==> s@[k] != ':',
        decreases n - i,
    {
        if v[i] == ':' {
            assert(s@[i as int] == ':');
            return true;
        }
        i += 1;
    }
    false
}

/// HOST or HOST:PORT; the port defaults to the control port.
pub fn address(to: &str) -> (r: String)
    ensures
        r@ == address_of(to@),
{
    if has_colon(to) {
        to.to_owned()
    } else {
        to.to_owned().concat(":").concat(decimal(DEFAULT_PORT as u64).as_str())
    }
}

pub open spec fn host_of(addr: Seq<char>) -> Seq<char> {
    match cut_last(addr, ':') {
        Some((host, _)) => host,
        None => addr,
    }
}

/// What stands before the port.
pub fn host_part(addr: &str) -> (r: String)
    ensures
        r@ == host_of(addr@),
{
    match rsplit_once(addr, ':') {
        Some((host, _)) => host,
        None => addr.to_owned(),
    }
}

/// A target without a port is its own host part.
pub proof fn law_host_of_bare_target(to: Seq<char>)
    requires
        !to.contains(':'),
    ensures
        host_of(address_of(to)) == to,
{
    let addr = address_of(to);
    reveal_strlit(":");
    lemma_dec_digits(DEFAULT_PORT as nat);
    let at = to.len() as int;
    crate::scan::lemma_last_pos(addr, ':');
    assert(addr[at] == ':');
    assert forall|i: int| at < i < addr.len() implies addr[i] != ':' by {
        assert(addr[i] == dec(DEFAULT_PORT as nat)[i - at - 1]);
    }
    assert(crate::scan::last_pos(addr, ':') == at);
    assert(addr.take(at) =~= to);
}

/// What is said of a peer of another version; `who` is "client" or "server".
pub fn version_warning(who: &str, version: &str) -> (r: Option<String>)
    ensures
        r is Some <==> version@ != VERSION@,
        r matches Some(s) ==> s@ == "warning: "@ + who@ + " is linkbench "@ + version@
            + ", we are "@ + VERSION@,
{
    if same(version, VERSION) {
        None
    } else {
        Some(
            "warning: ".to_owned().concat(who).concat(" is linkbench ").concat(version).concat(
                ", we are ",
            ).concat(VERSION),
        )
    }
}

// ------------------------------------------------------------- device choice

/// The device is up and rides interface `on`.
pub open spec fn rides(d: RdmaDeviceInfo, on: Seq<char>) -> bool {
    d.port_state@ == "ACTIVE"@ && d.netdev@ == on
}

pub open spec fn is_wanted(d: RdmaDeviceInfo, wanted: Option<Seq<char>>) -> bool {
    match wanted {
        Some(w) => d.name@ == w,
        None => true,
    }
}

/// The first device that rides the route, and is the wanted one where one is
/// wanted.
pub open spec fn route_match(
    devs: Seq<RdmaDeviceInfo>,
    route: Option<Seq<char>>,
    wanted: Option<Seq<char>>,
) -> Option<Seq<char>>
    decreases devs.len(),
{
    match route {
        None => None,
        Some(on) => if devs.len() == 0 {
            None
        } else if rides(devs[0], on) && is_wanted(devs[0], wanted) {
            Some(devs[0].name@)
        } else {
            route_match(devs.skip(1), route, wanted)
        },
    }
}

pub open spec fn viewed(s: Option<&str>) -> Option<Seq<char>> {
    match s {
        Some(x) => Some(x@),
        None => None,
    }
}

pub open spec fn owned_view(s: Option<String>) -> Option<Seq<char>> {
    match s {
        Some(x) => Some(x@),
        None => None,
    }
}

pub open spec fn or_else(s: Option<Seq<char>>, other: Seq<char>) -> Seq<char> {
    match s {
        Some(x) => x,
        None => other,
    }
}

pub fn route_device(devs: &Vec<RdmaDeviceInfo>, route: Option<&str>, wanted: Option<&str>) -> (r:
    Option<String>)
    ensures
        owned_view(r) == route_match(devs@, viewed(route), viewed(wanted)),
{
    let on = match route {
        None => {
            return None;
        },
        Some(on) => on,
    };
    let n = devs.len();
    let mut i: usize = 0;
    assert(devs@.skip(0) =~= devs@);
    while i < n
        invariant
            i <= n,
            n == devs@.len(),
            route == Some(on),
            route_match(devs@, viewed(route), viewed(wanted)) == route_match(
                devs@.skip(i as int),
                viewed(route),
                viewed(wanted),
            ),
        decreases n - i,
    {
        proof {
            assert(devs@.skip(i as int)[0] == devs@[i as int]);
            assert(devs@.skip(i as int).skip(1) =~= devs@.skip(i + 1));
        }
        let d = &devs[i];
        let fits = match wanted {
            Some(w) => same(d.name.as_str(), w),
            None => true,
        };
        if same(d.port_state.as_str(), "ACTIVE") && same(d.netdev.as_str(), on) && fits {
            return Some(d.name.clone());
        }
        i += 1;
    }
    None
}

/// A device that is used for a route does ride it: it is up, and its backing
/// interface is the one the kernel routes over.
pub proof fn law_matched_device_rides_the_route(
    devs: Seq<RdmaDeviceInfo>,
    on: Seq<char>,
    wanted: Option<Seq<char>>,
    name: Seq<char>,
)
    requires
        route_match(devs, Some(on), wanted) == Some(name),
    ensures
        exists|i: int|
            0 <= i < devs.len() && rides(#[trigger] devs[i], on) && devs[i].name@ == name
                && is_wanted(devs[i], wanted),
    decreases devs.len(),
{
    if !(rides(devs[0], on) && is_wanted(devs[0], wanted)) {
        law_matched_device_rides_the_route(devs.skip(1), on, wanted, name);
        let i = choose|i: int|
            0 <= i < devs.skip(1).len() && rides(#[trigger] devs.skip(1)[i], on) && devs.skip(
                1,
            )[i].name@ == name && is_wanted(devs.skip(1)[i], wanted);
        assert(devs[i + 1] == devs.skip(1)[i]);
    }
}

/// No device that serves is passed over: the first one that is up, rides the
/// interface of the route and has the wanted name where one is wanted is the one
/// that is matched, wherever in the list it stands.
pub proof fn law_first_device_on_the_route_is_matched(
    devs: Seq<RdmaDeviceInfo>,
    on: Seq<char>,
    wanted: Option<Seq<char>>,
    i: int,
)
    requires
        0 <= i < devs.len(),
        devs[i].port_state@ == "ACTIVE"@,
        devs[i].netdev@ == on,
        wanted is Some ==> devs[i].name@ == wanted->0,
        forall|j: int|
            0 <= j < i ==> (#[trigger] devs[j]).port_state@ != "ACTIVE"@ || devs[j].netdev@ != on
                || (wanted is Some && devs[j].name@ != wanted->0),
    ensures
        route_match(devs, Some(on), wanted) == Some(devs[i].name@),
    decreases devs.len(),
{
    if i > 0 {
        assert(devs[0].port_state@ != "ACTIVE"@ || devs[0].netdev@ != on || (wanted is Some
            && devs[0].name@ != wanted->0));
        let rest = devs.skip(1);
        assert(rest[i - 1] == devs[i]);
        assert forall|j: int| 0 <= j < i - 1 implies (#[trigger] rest[j]).port_state@ != "ACTIVE"@
            || rest[j].netdev@ != on || (wanted is Some && rest[j].name@ != wanted->0) by {
            assert(rest[j] == devs[j + 1]);
        }
        law_first_device_on_the_route_is_matched(rest, on, wanted, i - 1);
    }
}

/// Nothing is matched where no device serves, nor where the route is not known.
pub proof fn law_no_device_on_the_route_is_no_match(
    devs: Seq<RdmaDeviceInfo>,
    on: Seq<char>,
    wanted: Option<Seq<char>>,
)
    requires
        forall|j: int|
            0 <= j < devs.len() ==> (#[trigger] devs[j]).port_state@ != "ACTIVE"@
                || devs[j].netdev@ != on || (wanted is Some && devs[j].name@ != wanted->0),
    ensures
        route_match(devs, Some(on), wanted) is None,
        route_match(devs, None, wanted) is None,
    decreases devs.len(),
{
    if devs.len() > 0 {
        let rest = devs.skip(1);
        assert(devs[0].port_state@ != "ACTIVE"@ || devs[0].netdev@ != on || (wanted is Some
            && devs[0].name@ != wanted->0));
        assert forall|j: int| 0 <= j < rest.len() implies (#[trigger] rest[j]).port_state@
            != "ACTIVE"@ || rest[j].netdev@ != on || (wanted is Some && rest[j].name@
            != wanted->0) by {
            assert(rest[j] == devs[j + 1]);
        }
        law_no_device_on_the_route_is_no_match(rest, on, wanted);
    }
}

pub open spec fn device_texts(devs: Seq<RdmaDeviceInfo>) -> Seq<Seq<char>> {
    Seq::new(devs.len(), |i: int| devs[i].name@ + " (on "@ + devs[i].netdev@ + ")"@)
}

pub open spec fn devices_text(devs: Seq<RdmaDeviceInfo>) -> Seq<char> {
    joined(device_texts(devs), ", "@)
}

/// The devices and the interfaces they ride, for messages.
pub fn device_map(devs: &Vec<RdmaDeviceInfo>) -> (r: String)
    ensures
        r@ == devices_text(devs@),
{
    let mut list: Vec<String> = Vec::new();
    let n = devs.len();
    let mut i: usize = 0;
    while i < n
        invariant
            i <= n,
            n == devs@.len(),
            list@.len() == i,
            forall|k: int|
                #![trigger list@[k]]
                0 <= k < i ==> list@[k]@ == devs@[k].name@ + " (on "@ + devs@[k].netdev@ + ")"@,
        decreases n - i,
    {
        list.push(
            devs[i].name.clone().concat(" (on ").concat(devs[i].netdev.as_str()).concat(")"),
        );
        i += 1;
    }
    assert(views(list@) =~= device_texts(devs@));
    join(&list, ", ")
}

/// The interface that the first device called `name` rides, where it is known.
pub open spec fn backing(devs: Seq<RdmaDeviceInfo>, name: Seq<char>) -> Option<Seq<char>>
    decreases devs.len(),
{
    if devs.len() == 0 {
        None
    } else if devs[0].name@ == name {
        if devs[0].netdev@.len() > 0 {
            Some(devs[0].netdev@)
        } else {
            None
        }
    } else {
        backing(devs.skip(1), name)
    }
}

fn backing_of(devs: &Vec<RdmaDeviceInfo>, name: &str) -> (r: Option<String>)
    ensures
        owned_view(r) == backing(devs@, name@),
{
    let n = devs.len();
    let mut i: usize = 0;
    assert(devs@.skip(0) =~= devs@);
    while i < n
        invariant
            i <= n,
            n == devs@.len(),
            backing(devs@, name@) == backing(devs@.skip(i as int), name@),
        decreases n - i,
    {
        proof {
            assert(devs@.skip(i as int)[0] == devs@[i as int]);
            assert(devs@.skip(i as int).skip(1) =~= devs@.skip(i + 1));
        }
        if same(devs[i].name.as_str(), name) {
            if devs[i].netdev.as_str().is_empty() {
                return None;
            }
            return Some(devs[i].netdev.clone());
        }
        i += 1;
    }
    None
}

// ------------------------------------------------------------------- client

/// What the client knows when it chooses a transport.
pub struct Situation {
    /// What was asked for: auto, tcp or rdma.
    pub transport: String,
    /// The address that was connected to.
    pub addr: String,
    /// The RDMA device that was asked for.
    pub device: Option<String>,
    /// The interface that routes to the target.
    pub route_if: Option<String>,
    pub local_devs: Vec<RdmaDeviceInfo>,
    /// The server has RDMA devices.
    pub server_rdma: bool,
}

/// How to connect, and what to say about it.
pub struct Choice {
    pub rdma: bool,
    pub device: Option<String>,
    pub notice: Option<String>,
}

pub open spec fn off_route_notice(s: Situation, dev: Seq<char>) -> Seq<char> {
    let route = or_else(owned_view(s.route_if), "unknown"@);
    match backing(s.local_devs@, dev) {
        Some(nd) => "WARNING: RDMA device "@ + dev + " rides "@ + nd + ", but "@ + s.addr@
            + " routes over "@ + route
            + "; data will NOT flow over the link you addressed"@,
        None => "NOTE: could not determine which interface backs RDMA device "@ + dev
            + " (control connection to "@ + s.addr@ + " routes over "@ + route
            + "). RDMA data egresses via the device itself, so this is usually fine — but the path is unverified; confirm with the counters on the interface you expect."@,
    }
}

pub open spec fn no_device_error(s: Situation) -> Seq<char> {
    "no ACTIVE RDMA device rides "@ + or_else(owned_view(s.route_if), "unknown"@)
        + " (the interface that routes to "@ + s.addr@ + "). Local devices: "@ + devices_text(
        s.local_devs@,
    ) + ". Use --transport tcp, or --device to override explicitly."@
}

pub open spec fn auto_rdma_notice(s: Situation, dev: Seq<char>) -> Seq<char> {
    "auto: RDMA on both ends and "@ + dev + " rides the route to "@ + or_else(
        owned_view(s.route_if),
        "?"@,
    ) + " — using rdma (force with --transport tcp)"@
}

pub open spec fn auto_tcp_notice(s: Situation) -> Seq<char> {
    "auto: using tcp — no RDMA device on "@ + or_else(owned_view(s.route_if), "unknown"@)
        + " (the route to the target); local devices: "@ + (if s.local_devs@.len() == 0 {
        "none"@
    } else {
        devices_text(s.local_devs@)
    })
}

pub open spec fn matched(s: Situation) -> Option<Seq<char>> {
    route_match(s.local_devs@, owned_view(s.route_if), owned_view(s.device))
}

/// `c` is this choice.
pub open spec fn chose(
    c: Result<Choice, String>,
    rdma: bool,
    device: Option<Seq<char>>,
    notice: Option<Seq<char>>,
) -> bool {
    c matches Ok(x) && x.rdma == rdma && owned_view(x.device) == device && owned_view(x.notice)
        == notice
}

/// `c` is what the situation calls for. A device that rides the route is used; an
/// explicit one that does not is used too, with a word about where data will flow
/// — a warning where its interface is known to be another, a note where it is
/// not known.
pub open spec fn chooses(c: Result<Choice, String>, s: Situation) -> bool {
    if s.transport@ == "tcp"@ {
        chose(c, false, owned_view(s.device), None)
    } else if s.transport@ == "rdma"@ {
        match (matched(s), s.device) {
            (Some(dev), _) => chose(c, true, Some(dev), None),
            (None, Some(dev)) => chose(c, true, Some(dev@), Some(off_route_notice(s, dev@))),
            (None, None) => c matches Err(e) && e@ == no_device_error(s),
        }
    } else if s.transport@ == "auto"@ {
        if !s.server_rdma {
            chose(
                c,
                false,
                owned_view(s.device),
                Some("auto: using tcp (server reports no RDMA)"@),
            )
        } else {
            match matched(s) {
                Some(dev) => chose(c, true, Some(dev), Some(auto_rdma_notice(s, dev))),
                None => chose(c, false, owned_view(s.device), Some(auto_tcp_notice(s))),
            }
        }
    } else {
        c matches Err(e) && e@ == "unknown transport "@ + quoted_text(s.transport@)
            + " (auto|tcp|rdma)"@
    }
}

fn as_ref_str(s: &Option<String>) -> (r: Option<&str>)
    ensures
        viewed(r) == owned_view(*s),
{
    match s {
        Some(x) => Some(x.as_str()),
        None => None,
    }
}

fn str_or<'a>(s: &'a Option<String>, other: &'a str) -> (r: &'a str)
    ensures
        r@ == or_else(owned_view(*s), other@),
{
    match s {
        Some(x) => x.as_str(),
        None => other,
    }
}

fn copied(s: &Option<String>) -> (r: Option<String>)
    ensures
        owned_view(r) == owned_view(*s),
{
    match s {
        Some(x) => Some(x.clone()),
        None => None,
    }
}

fn off_route_text(s: &Situation, dev: &str) -> (r: String)
    ensures
        r@ == off_route_notice(*s, dev@),
{
    let route = str_or(&s.route_if, "unknown");
    match backing_of(&s.local_devs, dev) {
        Some(nd) => "WARNING: RDMA device ".to_owned().concat(dev).concat(" rides ").concat(
            nd.as_str(),
        ).concat(", but ").concat(s.addr.as_str()).concat(" routes over ").concat(route).concat(
            "; data will NOT flow over the link you addressed",
        ),
        None => "NOTE: could not determine which interface backs RDMA device ".to_owned().concat(
            dev,
        ).concat(" (control connection to ").concat(s.addr.as_str()).concat(
            " routes over ",
        ).concat(route).concat(
            "). RDMA data egresses via the device itself, so this is usually fine — but the path is unverified; confirm with the counters on the interface you expect.",
        ),
    }
}

fn no_device_text(s: &Situation) -> (r: String)
    ensures
        r@ == no_device_error(*s),
{
    "no ACTIVE RDMA device rides ".to_owned().concat(str_or(&s.route_if, "unknown")).concat(
        " (the interface that routes to ",
    ).concat(s.addr.as_str()).concat("). Local devices: ").concat(
        device_map(&s.local_devs).as_str(),
    ).concat(". Use --transport tcp, or --device to override explicitly.")
}

fn auto_rdma_text(s: &Situation, dev: &str) -> (r: String)
    ensures
        r@ == auto_rdma_notice(*s, dev@),
{
    "auto: RDMA on both ends and ".to_owned().concat(dev).concat(
        " rides the route to ",
    ).concat(str_or(&s.route_if, "?")).concat(" — using rdma (force with --transport tcp)")
}

fn auto_tcp_text(s: &Situation) -> (r: String)
    ensures
        r@ == auto_tcp_notice(*s),
{
    let list = if s.local_devs.len() == 0 {
        "none".to_owned()
    } else {
        device_map(&s.local_devs)
    };
    "auto: using tcp — no RDMA device on ".to_owned().concat(
        str_or(&s.route_if, "unknown"),
    ).concat(" (the route to the target); local devices: ").concat(list.as_str())
}

/// Which transport to use, over which RDMA device.
pub fn choose_transport(s: &Situation) -> (c: Result<Choice, String>)
    ensures
        chooses(c, *s),
{
    proof {
        reveal_strlit("tcp");
        reveal_strlit("rdma");
        reveal_strlit("auto");
        assert("tcp"@[0] == 't' && "rdma"@[0] == 'r' && "auto"@[0] == 'a');
    }
    let transport = s.transport.as_str();
    if same(transport, "tcp") {
        return Ok(Choice { rdma: false, device: copied(&s.device), notice: None });
    }
    if same(transport, "rdma") {
        let found = route_device(&s.local_devs, as_ref_str(&s.route_if), as_ref_str(&s.device));
        return match (found, &s.device) {
            (Some(dev), _) => Ok(Choice { rdma: true, device: Some(dev), notice: None }),
            (None, Some(dev)) => Ok(
                Choice {
                    rdma: true,
                    device: Some(dev.clone()),
                    notice: Some(off_route_text(s, dev.as_str())),
                },
            ),
            (None, None) => Err(no_device_text(s)),
        };
    }
    if same(transport, "auto") {
        if !s.server_rdma {
            return Ok(
                Choice {
                    rdma: false,
                    device: copied(&s.device),
                    notice: Some("auto: using tcp (server reports no RDMA)".to_owned()),
                },
            );
        }
        let found = route_device(&s.local_devs, as_ref_str(&s.route_if), as_ref_str(&s.device));
        return match found {
            Some(dev) => {
                let notice = auto_rdma_text(s, dev.as_str());
                Ok(Choice { rdma: true, device: Some(dev), notice: Some(notice) })
            },
            None => Ok(
                Choice {
                    rdma: false,
                    device: copied(&s.device),
                    notice: Some(auto_tcp_text(s)),
                },
            ),
        };
    }
    Err("unknown transport ".to_owned().concat(quoted(transport).as_str()).concat(" (auto|tcp|rdma)"))
}

/// RDMA is never used over another link than the one addressed without a word:
/// a choice of RDMA without a notice is a device that rides the route.
pub proof fn law_no_silent_detour(c: Result<Choice, String>, s: Situation)
    requires
        chooses(c, s),
    ensures
        c matches Ok(x) ==> x.rdma && x.notice is None ==> matched(s) is Some && owned_view(
            x.device,
        ) == matched(s),
        c matches Ok(x) ==> x.rdma && matched(s) is None ==> x.notice is Some,
{
}

/// Left to itself the client picks RDMA exactly where the server has it and a
/// device of its own rides the route, and says which it took.
pub proof fn law_auto_picks_rdma_where_both_have_it(c: Result<Choice, String>, s: Situation)
    requires
        chooses(c, s),
        s.transport@ == "auto"@,
    ensures
        c matches Ok(x) && (x.rdma <==> s.server_rdma && matched(s) is Some) && x.notice is Some,
{
    reveal_strlit("auto");
    reveal_strlit("tcp");
    reveal_strlit("rdma");
    assert("auto"@[0] != "rdma"@[0]);
    assert("auto"@.len() != "tcp"@.len());
}

/// The device can carry the run: it is up, the route to the target is known to go
/// over its interface, and it is the one that was asked for, if one was.
pub open spec fn can_carry(d: RdmaDeviceInfo, s: Situation) -> bool {
    &&& d.port_state@ == "ACTIVE"@
    &&& s.route_if is Some && d.netdev@ == s.route_if->0@
    &&& s.device is Some ==> d.name@ == s.device->0@
}

/// The first device that can carry the run, by its name.
pub open spec fn is_first_carrier(s: Situation, i: int) -> bool {
    &&& 0 <= i < s.local_devs@.len()
    &&& can_carry(s.local_devs@[i], s)
    &&& forall|j: int| 0 <= j < i ==> !can_carry(#[trigger] s.local_devs@[j], s)
}

proof fn lemma_matched_is_carrier(s: Situation)
    ensures
        forall|i: int| #[trigger] is_first_carrier(s, i) ==> matched(s) == Some(
            s.local_devs@[i].name@,
        ),
        (forall|j: int|
            0 <= j < s.local_devs@.len() ==> !can_carry(#[trigger] s.local_devs@[j], s))
            ==> matched(s) is None,
{
    let devs = s.local_devs@;
    let wanted = owned_view(s.device);
    assert forall|i: int| #[trigger] is_first_carrier(s, i) implies matched(s) == Some(
        devs[i].name@,
    ) by {
        assert forall|j: int| 0 <= j < i implies (#[trigger] devs[j]).port_state@ != "ACTIVE"@
            || devs[j].netdev@ != s.route_if->0@ || (wanted is Some && devs[j].name@
            != wanted->0) by {
            assert(!can_carry(devs[j], s));
        }
        law_first_device_on_the_route_is_matched(devs, s.route_if->0@, wanted, i);
    }
    if forall|j: int| 0 <= j < devs.len() ==> !can_carry(#[trigger] devs[j], s) {
        let on = if s.route_if is Some {
            s.route_if->0@
        } else {
            "?"@
        };
        if s.route_if is Some {
            assert forall|j: int| 0 <= j < devs.len() implies (#[trigger] devs[j]).port_state@
                != "ACTIVE"@ || devs[j].netdev@ != on || (wanted is Some && devs[j].name@
                != wanted->0) by {
                assert(!can_carry(devs[j], s));
            }
            law_no_device_on_the_route_is_no_match(devs, on, wanted);
        }
    }
}

proof fn lemma_transport_words()
    ensures
        "auto"@ != "tcp"@ && "auto"@ != "rdma"@ && "tcp"@ != "rdma"@,
{
    reveal_strlit("auto");
    reveal_strlit("tcp");
    reveal_strlit("rdma");
    assert("auto"@[0] != "rdma"@[0]);
    assert("auto"@.len() != "tcp"@.len());
    assert("rdma"@.len() != "tcp"@.len());
}

/// What is chosen where a device can carry the run: RDMA over the first such
/// device, silently where RDMA was asked for; with a word, and only if the server
/// has RDMA too, where the choice was left open.
pub proof fn law_a_carrier_is_used(c: Result<Choice, String>, s: Situation, i: int)
    requires
        chooses(c, s),
        is_first_carrier(s, i),
    ensures
        s.transport@ == "rdma"@ ==> (c matches Ok(x) && x.rdma && x.notice is None
            && x.device is Some && x.device->0@ == s.local_devs@[i].name@),
        s.transport@ == "auto"@ && s.server_rdma ==> (c matches Ok(x) && x.rdma
            && x.notice is Some && x.device is Some && x.device->0@ == s.local_devs@[i].name@),
        s.transport@ == "auto"@ && !s.server_rdma ==> (c matches Ok(x) && !x.rdma
            && x.notice is Some),
{
    lemma_matched_is_carrier(s);
    lemma_transport_words();
}

/// What is chosen where no device can carry the run: RDMA is still used where it
/// was asked for together with a device, with a word about it, and is an error
/// where no device was named; left open, the choice is TCP, with a word.
pub proof fn law_no_carrier_is_said(c: Result<Choice, String>, s: Situation)
    requires
        chooses(c, s),
        forall|j: int|
            0 <= j < s.local_devs@.len() ==> !can_carry(#[trigger] s.local_devs@[j], s),
    ensures
        s.transport@ == "rdma"@ && s.device is Some ==> (c matches Ok(x) && x.rdma
            && x.notice is Some && x.device is Some && x.device->0@ == s.device->0@),
        s.transport@ == "rdma"@ && s.device is None ==> c is Err,
        s.transport@ == "auto"@ ==> (c matches Ok(x) && !x.rdma && x.notice is Some),
{
    lemma_matched_is_carrier(s);
    lemma_transport_words();
}

/// What is said of a device that does not ride the route: a warning that names the
/// interface it rides, where that is known, and a note that it is not known
/// otherwise. The first device of that name counts.
pub proof fn law_detour_is_warned_of(s: Situation, dev: Seq<char>, i: int)
    requires
        0 <= i < s.local_devs@.len(),
        s.local_devs@[i].name@ == dev,
        forall|j: int| 0 <= j < i ==> (#[trigger] s.local_devs@[j]).name@ != dev,
    ensures
        s.local_devs@[i].netdev@.len() > 0 ==> ("WARNING: RDMA device "@ + dev + " rides "@
            + s.local_devs@[i].netdev@).is_prefix_of(off_route_notice(s, dev)),
        s.local_devs@[i].netdev@.len() == 0 ==> "NOTE: "@.is_prefix_of(off_route_notice(s, dev)),
{
    lemma_backing(s.local_devs@, dev, i);
    let t = off_route_notice(s, dev);
    if s.local_devs@[i].netdev@.len() > 0 {
        let a = "WARNING: RDMA device "@ + dev + " rides "@ + s.local_devs@[i].netdev@;
        assert(t.subrange(0, a.len() as int) =~= a);
    } else {
        reveal_strlit("NOTE: ");
        reveal_strlit("NOTE: could not determine which interface backs RDMA device ");
        assert(t.subrange(0, 6) =~= "NOTE: "@);
    }
}

proof fn lemma_backing(devs: Seq<RdmaDeviceInfo>, dev: Seq<char>, i: int)
    requires
        0 <= i < devs.len(),
        devs[i].name@ == dev,
        forall|j: int| 0 <= j < i ==> (#[trigger] devs[j]).name@ != dev,
    ensures
        backing(devs, dev) == if devs[i].netdev@.len() > 0 {
            Some(devs[i].netdev@)
        } else {
            None
        },
    decreases devs.len(),
{
    if i > 0 {
        assert(devs[0].name@ != dev);
        let rest = devs.skip(1);
        assert(rest[i - 1] == devs[i]);
        assert forall|j: int| 0 <= j < i - 1 implies (#[trigger] rest[j]).name@ != dev by {
            assert(rest[j] == devs[j + 1]);
        }
        lemma_backing(rest, dev, i - 1);
    }
}

/// The address that is connected to is the one that was given where it has a port,
/// and has the control port added where it has none.
pub proof fn law_port_is_added_where_none_is(to: Seq<char>)
    ensures
        to.contains(':') ==> address_of(to) == to,
        !to.contains(':') ==> address_of(to) == to + ":"@ + dec(7842),
{
}

/// TCP is taken at its word, and a transport that is none of the three is refused.
pub proof fn law_transport_is_taken_at_its_word(c: Result<Choice, String>, s: Situation)
    requires
        chooses(c, s),
    ensures
        s.transport@ == "tcp"@ ==> (c matches Ok(x) && !x.rdma && x.notice is None),
        s.transport@ != "tcp"@ && s.transport@ != "rdma"@ && s.transport@ != "auto"@ ==> c is Err,
{
}

// ------------------------------------------------------------------- server

pub open spec fn mismatch_error(
    e: Seq<char>,
    m: Seq<char>,
    route: Option<Seq<char>>,
) -> Seq<char> {
    "server RDMA device "@ + e + " does not ride "@ + or_else(route, "?"@)
        + " (the link the client used); "@ + m
        + " does — drop the explicit device or use it"@
}

pub open spec fn no_server_device_error(
    devs: Seq<RdmaDeviceInfo>,
    route: Option<Seq<char>>,
) -> Seq<char> {
    "no ACTIVE server RDMA device rides "@ + or_else(route, "unknown"@)
        + " (the link the client used); devices: "@ + devices_text(devs)
}

/// `r` is the server's answer where `explicit` is the device that was named and
/// `m` the first that rides the route.
pub open spec fn answers_with(
    r: Result<String, String>,
    explicit: Option<Seq<char>>,
    m: Option<Seq<char>>,
    route: Option<Seq<char>>,
    devs: Seq<RdmaDeviceInfo>,
) -> bool {
    match (explicit, m) {
        (Some(e), Some(d)) => if e == d {
            r matches Ok(x) && x@ == e
        } else {
            r matches Err(x) && x@ == mismatch_error(e, d, route)
        },
        (Some(e), None) => r matches Ok(x) && x@ == e,
        (None, Some(d)) => r matches Ok(x) && x@ == d,
        (None, None) => r matches Err(x) && x@ == no_server_device_error(devs, route),
    }
}

/// `r` is the device the server uses, or why it uses none. The client's wish comes
/// before the server's own.
pub open spec fn answers_device(
    r: Result<String, String>,
    want: Option<Seq<char>>,
    own: Option<Seq<char>>,
    route: Option<Seq<char>>,
    devs: Seq<RdmaDeviceInfo>,
) -> bool {
    answers_with(
        r,
        if want is Some {
            want
        } else {
            own
        },
        route_match(devs, route, None),
        route,
        devs,
    )
}

/// The server never runs over another link than the one the client used where it
/// can tell: with a device that is up on that link, only that device is used, by
/// itself or because it was named, and another one that was named is refused.
/// Without one, what was named is used, and nothing where nothing was.
pub proof fn law_server_stays_on_the_link(
    r: Result<String, String>,
    want: Option<Seq<char>>,
    own: Option<Seq<char>>,
    route: Option<Seq<char>>,
    devs: Seq<RdmaDeviceInfo>,
    i: int,
)
    requires
        answers_device(r, want, own, route, devs),
        0 <= i <= devs.len(),
        route is Some,
        forall|j: int|
            0 <= j < i ==> (#[trigger] devs[j]).port_state@ != "ACTIVE"@ || devs[j].netdev@
                != route->0,
        i < devs.len() ==> devs[i].port_state@ == "ACTIVE"@ && devs[i].netdev@ == route->0,
    ensures
        i < devs.len() && want is None && own is None ==> (r matches Ok(x) && x@ == devs[i].name@),
        i < devs.len() && want is Some ==> (r is Ok <==> want->0 == devs[i].name@),
        i < devs.len() && want is None && own is Some ==> (r is Ok <==> own->0 == devs[i].name@),
        i < devs.len() && r is Ok ==> r->Ok_0@ == devs[i].name@,
        i == devs.len() && want is Some ==> (r matches Ok(x) && x@ == want->0),
        i == devs.len() && want is None && own is Some ==> (r matches Ok(x) && x@ == own->0),
        i == devs.len() && want is None && own is None ==> r is Err,
{
    if i < devs.len() {
        law_first_device_on_the_route_is_matched(devs, route->0, None, i);
    } else {
        law_no_device_on_the_route_is_no_match(devs, route->0, None);
    }
}

/// The RDMA device the server uses: the one that rides the interface the client
/// reached it on. An explicit device on either side wins (`want` is the
/// client's), but a mismatch is refused with an explanation rather than run.
pub fn server_device(
    want: Option<&str>,
    own: Option<&str>,
    route_if: Option<&str>,
    devs: &Vec<RdmaDeviceInfo>,
) -> (r: Result<String, String>)
    ensures
        answers_device(r, viewed(want), viewed(own), viewed(route_if), devs@),
{
    let explicit = if want.is_some() {
        want
    } else {
        own
    };
    let found = route_device(devs, route_if, None);
    match (explicit, found) {
        (Some(e), Some(d)) => {
            if same(e, d.as_str()) {
                return Ok(d);
            }
            let route = match route_if {
                Some(x) => x,
                None => "?",
            };
            Err(
                "server RDMA device ".to_owned().concat(e).concat(" does not ride ").concat(
                    route,
                ).concat(" (the link the client used); ").concat(d.as_str()).concat(
                    " does — drop the explicit device or use it",
                ),
            )
        },
        (Some(e), None) => Ok(e.to_owned()),
        (None, Some(d)) => Ok(d),
        (None, None) => {
            let route = match route_if {
                Some(x) => x,
                None => "unknown",
            };
            Err(
                "no ACTIVE server RDMA device rides ".to_owned().concat(route).concat(
                    " (the link the client used); devices: ",
                ).concat(device_map(devs).as_str()),
            )
        },
    }
}

/// Queue pairs the server asks for, of a client that brings `client` of them.
pub open spec fn followed(client: int) -> int {
    if client == 0 {
        1
    } else {
        client
    }
}

/// The server follows the client's number of queue pairs.
pub fn server_qps(client: usize) -> (r: usize)
    ensures
        r == followed(client as int),
{
    if client == 0 {
        1
    } else {
        client
    }
}

/// Whatever number a client asks for, both ends make equally many queue pairs.
pub proof fn law_server_follows_the_client(asked: int)
    ensures
        ({
            let client = clamped(asked, 1, MAX_QPS as int);
            clamped(followed(client), 1, MAX_QPS as int) == client
        }),
{
}

/// A client that brings any queue pairs is followed to the number.
pub proof fn law_server_makes_as_many(client: int)
    requires
        client >= 1,
    ensures
        followed(client) == client,
{
}

// ------------------------------------------------------------------- answers

pub struct ServerHello {
    pub version: String,
    pub host: String,
    pub rdma_devices: Vec<RdmaDeviceInfo>,
    pub tuning: String,
}

pub fn server_hello(msg: Msg) -> (r: Result<ServerHello, String>)
    ensures
        match msg {
            Msg::Hello { version, host, rdma_devices, tuning } => r == Ok::<ServerHello, String>(
                ServerHello { version, host, rdma_devices, tuning },
            ),
            _ => r matches Err(e) && e@
                == "expected server Hello — is that a linkbench server?"@,
        },
{
    match msg {
        Msg::Hello { version, host, rdma_devices, tuning } => Ok(
            ServerHello { version, host, rdma_devices, tuning },
        ),
        _ => Err("expected server Hello — is that a linkbench server?".to_owned()),
    }
}

/// The version a client says hello with.
pub fn client_version(msg: Msg) -> (r: Result<String, String>)
    ensures
        match msg {
            Msg::Hello { version, .. } => r == Ok::<String, String>(version),
            _ => r matches Err(e) && e@ == "expected client Hello"@,
        },
{
    match msg {
        Msg::Hello { version, .. } => Ok(version),
        _ => Err("expected client Hello".to_owned()),
    }
}

pub fn tcp_port(msg: Msg) -> (r: Result<u16, String>)
    ensures
        match msg {
            Msg::TcpListening { port } => r == Ok::<u16, String>(port),
            _ => r matches Err(e) && e@ == "expected TcpListening"@,
        },
{
    match msg {
        Msg::TcpListening { port } => Ok(port),
        _ => Err("expected TcpListening".to_owned()),
    }
}

/// The data plane a client asks for.
pub enum Setup {
    Tcp { streams: u16 },
    Rdma { device: Option<String>, gid_index: Option<i32>, ep: RdmaEndpoint },
    /// Not a setup message.
    Other(Msg),
}

pub fn setup_of(msg: Msg) -> (r: Setup)
    ensures
        match msg {
            Msg::SetupTcp { streams } => r == (Setup::Tcp { streams }),
            Msg::SetupRdma { device, gid_index, ep } => r == (Setup::Rdma {
                device,
                gid_index,
                ep,
            }),
            _ => r == Setup::Other(msg),
        },
{
    match msg {
        Msg::SetupTcp { streams } => Setup::Tcp { streams },
        Msg::SetupRdma { device, gid_index, ep } => Setup::Rdma { device, gid_index, ep },
        other => Setup::Other(other),
    }
}

/// How a server answered a request for RDMA.
pub enum RdmaAnswer {
    Accepted(RdmaEndpoint),
    /// It failed; this is what to say.
    Failed(String),
    Unexpected(Msg),
}

pub fn rdma_answer(msg: Msg) -> (r: RdmaAnswer)
    ensures
        match msg {
            Msg::RdmaAccept { ep } => r == RdmaAnswer::Accepted(ep),
            Msg::SetupErr { error } => r matches RdmaAnswer::Failed(s) && s@
                == "server failed to set up RDMA: "@ + error@,
            _ => r == RdmaAnswer::Unexpected(msg),
        },
{
    match msg {
        Msg::RdmaAccept { ep } => RdmaAnswer::Accepted(ep),
        Msg::SetupErr { error } => RdmaAnswer::Failed(
            "server failed to set up RDMA: ".to_owned().concat(error.as_str()),
        ),
        other => RdmaAnswer::Unexpected(other),
    }
}

} // verus!
