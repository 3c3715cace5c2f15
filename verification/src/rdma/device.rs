//! Choosing and describing RDMA devices, and the work requests of one queue
//! pair.

use super::ffi::{
    ibv_port_attr, ibv_sge, ibv_wc, IBV_LINK_LAYER_ETHERNET, IBV_SEND_INLINE, IBV_SEND_SIGNALED,
    IBV_WC_SUCCESS,
};
use super::gid::{gid_text, gid_to_string};
use crate::proto::{RdmaDeviceInfo, RdmaEndpoint};
use crate::scan::{join, joined, trim, trimmed, views};
use crate::text::{dec, dec_int, decimal, decimal_int, quoted, quoted_text, same};
use crate::transport::{share, shares, spread};
use vstd::prelude::*;

verus! {

// ---------------------------------------------------------------- selection

/// The first device called `want` is at `i`.
pub open spec fn named_at(names: Seq<String>, want: Seq<char>, i: int) -> bool {
    &&& 0 <= i < names.len()
    &&& names[i]@ == want
    &&& forall|j: int| 0 <= j < i ==> (#[trigger] names[j])@ != want
}

pub open spec fn absent(names: Seq<String>, want: Seq<char>) -> bool {
    forall|j: int| 0 <= j < names.len() ==> (#[trigger] names[j])@ != want
}

pub open spec fn not_found(names: Seq<String>, want: Seq<char>) -> Seq<char> {
    "RDMA device "@ + quoted_text(want) + " not found; available: "@ + joined(views(names), ", "@)
}

/// The device to use: the one asked for by name, else the first.
pub fn choose_device(names: &Vec<String>, want: Option<&str>) -> (r: Result<usize, String>)
    ensures
        names@.len() == 0 ==> r is Err && r->Err_0@ == "no RDMA devices found"@,
        names@.len() > 0 && want is None ==> r == Ok::<usize, String>(0),
        names@.len() > 0 ==> (want matches Some(w) ==> match r {
            Ok(i) => named_at(names@, w@, i as int),
            Err(e) => absent(names@, w@) && e@ == not_found(names@, w@),
        }),
{
    let n = names.len();
    if n == 0 {
        return Err("no RDMA devices found".to_owned());
    }
    let w = match want {
        None => {
            return Ok(0);
        },
        Some(w) => w,
    };
    let mut i: usize = 0;
    while i < n
        invariant
            i <= n,
            n == names@.len(),
            n > 0,
            want == Some(w),
            forall|j: int| 0 <= j < i ==> (#[trigger] names@[j])@ != w@,
        decreases n - i,
    {
        if same(names[i].as_str(), w) {
            return Ok(i);
        }
        i += 1;
    }
    Err(
        "RDMA device ".to_owned().concat(quoted(w).as_str()).concat(
            " not found; available: ",
        ).concat(join(names, ", ").as_str()),
    )
}

/// The network interface backing an RDMA device: rxe exposes `parent`, hardware
/// devices expose `device/net/<ifname>`.
pub fn backing_netdev(parent: Option<&str>, nets: &Vec<String>) -> (r: Option<String>)
    ensures
        match parent {
            Some(p) if trim(p@).len() > 0 => r is Some && r->0@ == trim(p@),
            _ => if nets@.len() > 0 {
                r is Some && r->0@ == nets@[0]@
            } else {
                r is None
            },
        },
{
    if let Some(text) = parent {
        let p = trimmed(text);
        if !p.as_str().is_empty() {
            return Some(p);
        }
    }
    if nets.len() > 0 {
        Some(nets[0].clone())
    } else {
        None
    }
}

// -------------------------------------------------------------- description

/// Bytes of an MTU that verbs counts 1 to 5; what lies outside counts as the
/// nearest of these.
pub open spec fn mtu_bytes(e: int) -> int {
    if e <= 1 {
        256
    } else if e == 2 {
        512
    } else if e == 3 {
        1024
    } else if e == 4 {
        2048
    } else {
        4096
    }
}

pub fn mtu_to_enum_bytes(e: u32) -> (r: u32)
    ensures
        r == mtu_bytes(e as int),
{
    if e <= 1 {
        256
    } else if e == 2 {
        512
    } else if e == 3 {
        1024
    } else if e == 4 {
        2048
    } else {
        4096
    }
}

pub open spec fn port_state_text(state: u32) -> Seq<char> {
    if state == 4 {
        "ACTIVE"@
    } else {
        "state"@ + dec(state as nat)
    }
}

pub open spec fn link_layer_text(layer: u8) -> Seq<char> {
    if layer == IBV_LINK_LAYER_ETHERNET {
        "Ethernet(RoCE)"@
    } else {
        "InfiniBand"@
    }
}

/// What is told of a device whose first port reports `pa`.
pub fn device_info(name: String, netdev: Option<String>, pa: &ibv_port_attr) -> (r: RdmaDeviceInfo)
    ensures
        r.name == name,
        r.netdev@ == (match netdev {
            Some(d) => d@,
            None => Seq::<char>::empty(),
        }),
        r.port_state@ == port_state_text(pa.state),
        r.link_layer@ == link_layer_text(pa.link_layer),
        r.active_mtu == mtu_bytes(pa.active_mtu as int),
        r.rate_note@ == "width x"@ + dec(pa.active_width as nat) + " speed "@ + dec(
            pa.active_speed as nat,
        ),
{
    let port_state = if pa.state == 4 {
        "ACTIVE".to_owned()
    } else {
        "state".to_owned().concat(decimal(pa.state as u64).as_str())
    };
    let link_layer = if pa.link_layer == IBV_LINK_LAYER_ETHERNET {
        "Ethernet(RoCE)".to_owned()
    } else {
        "InfiniBand".to_owned()
    };
    let rate_note = "width x".to_owned().concat(decimal(pa.active_width as u64).as_str()).concat(
        " speed ",
    ).concat(decimal(pa.active_speed as u64).as_str());
    let netdev = match netdev {
        Some(d) => d,
        None => String::new(),
    };
    RdmaDeviceInfo {
        name,
        port_state,
        link_layer,
        active_mtu: mtu_to_enum_bytes(pa.active_mtu),
        rate_note,
        netdev,
    }
}

pub open spec fn path_text(
    ep: RdmaEndpoint,
    netdev: Option<Seq<char>>,
    max_inline: nat,
    qps: nat,
) -> Seq<char> {
    "device "@ + ep.device@ + " (on "@ + (match netdev {
        Some(d) => d,
        None => "?"@,
    }) + ") gid["@ + dec_int(ep.gid_index as int) + "] "@ + gid_text(ep.gid@) + " mtu "@ + dec(
        mtu_bytes(ep.mtu as int) as nat,
    ) + " inline "@ + dec(max_inline) + "B, "@ + dec(qps) + " QP"@
}

/// A short human description of the path.
pub fn describe(ep: &RdmaEndpoint, netdev: Option<&str>, max_inline: u32, qps: usize) -> (r: String)
    ensures
        r@ == path_text(
            *ep,
            match netdev {
                Some(d) => Some(d@),
                None => None,
            },
            max_inline as nat,
            qps as nat,
        ),
{
    let on = match netdev {
        Some(d) => d,
        None => "?",
    };
    "device ".to_owned().concat(ep.device.as_str()).concat(" (on ").concat(on).concat(
        ") gid[",
    ).concat(decimal_int(ep.gid_index as i64).as_str()).concat("] ").concat(
        gid_to_string(&ep.gid).as_str(),
    ).concat(" mtu ").concat(decimal(mtu_to_enum_bytes(ep.mtu) as u64).as_str()).concat(
        " inline ",
    ).concat(decimal(max_inline as u64).as_str()).concat("B, ").concat(
        decimal(qps as u64).as_str(),
    ).concat(" QP")
}

// ------------------------------------------------------------ work requests

/// The registered memory of one queue pair.
#[derive(Clone, Copy)]
pub struct Buffers {
    /// Where this queue pair's slice of the send region starts.
    pub tx: u64,
    /// Where its slice of the receive region starts.
    pub rx: u64,
    pub tx_lkey: u32,
    pub rx_lkey: u32,
    /// Largest message the device takes inside the work request.
    pub max_inline: u32,
}

/// Send what lies in `slot` of messages of `size`; small messages travel inside
/// the request.
pub fn send_request(b: &Buffers, slot: usize, size: usize) -> (r: (ibv_sge, u32))
    requires
        b.tx + slot * size <= u64::MAX,
        slot * size <= usize::MAX,
        size <= u32::MAX,
    ensures
        r.0 == (ibv_sge {
            addr: (b.tx + slot * size) as u64,
            length: size as u32,
            lkey: b.tx_lkey,
        }),
        r.1 == if size <= b.max_inline {
            IBV_SEND_SIGNALED | IBV_SEND_INLINE
        } else {
            IBV_SEND_SIGNALED
        },
{
    let sge = ibv_sge {
        addr: b.tx + (slot * size) as u64,
        length: size as u32,
        lkey: b.tx_lkey,
    };
    let flags: u32 = if size as u32 <= b.max_inline {
        IBV_SEND_SIGNALED | IBV_SEND_INLINE
    } else {
        IBV_SEND_SIGNALED
    };
    (sge, flags)
}

/// Receive into `slot`; a receive takes at least one byte.
pub fn recv_request(b: &Buffers, slot: usize, size: usize) -> (r: ibv_sge)
    requires
        b.rx + slot * size <= u64::MAX,
        slot * size <= usize::MAX,
        size <= u32::MAX,
    ensures
        r == (ibv_sge {
            addr: (b.rx + slot * size) as u64,
            length: if size == 0 {
                1
            } else {
                size as u32
            },
            lkey: b.rx_lkey,
        }),
{
    ibv_sge {
        addr: b.rx + (slot * size) as u64,
        length: if size == 0 {
            1
        } else {
            size as u32
        },
        lkey: b.rx_lkey,
    }
}

/// The first completion that failed is at `i`.
pub open spec fn failed_at(wcs: Seq<ibv_wc>, i: int) -> bool {
    &&& 0 <= i < wcs.len()
    &&& wcs[i].status != IBV_WC_SUCCESS
    &&& forall|j: int| 0 <= j < i ==> (#[trigger] wcs[j]).status == IBV_WC_SUCCESS
}

pub open spec fn all_succeeded(wcs: Seq<ibv_wc>) -> bool {
    forall|j: int| 0 <= j < wcs.len() ==> (#[trigger] wcs[j]).status == IBV_WC_SUCCESS
}

pub open spec fn completion_error(wc: ibv_wc) -> Seq<char> {
    "work completion error: status "@ + dec(wc.status as nat) + " vendor_err "@ + dec(
        wc.vendor_err as nat,
    ) + " (wr_id "@ + dec(wc.wr_id as nat) + ")"@
}

/// What a poll of the completion queue says: `rc` is what the poll returned,
/// `wcs` the completions it filled in. One that failed fails the poll.
pub fn check_completions(rc: i32, wcs: &Vec<ibv_wc>) -> (r: Result<usize, String>)
    requires
        rc >= 0 ==> wcs@.len() == rc,
    ensures
        rc < 0 ==> r is Err && r->Err_0@ == "ibv_poll_cq failed"@,
        rc >= 0 ==> match r {
            Ok(n) => n == rc && all_succeeded(wcs@),
            Err(e) => exists|i: int| #[trigger]
                failed_at(wcs@, i) && e@ == completion_error(wcs@[i]),
        },
{
    if rc < 0 {
        return Err("ibv_poll_cq failed".to_owned());
    }
    let n = wcs.len();
    let mut i: usize = 0;
    while i < n
        invariant
            i <= n,
            n == wcs@.len(),
            rc >= 0,
            forall|j: int| 0 <= j < i ==> (#[trigger] wcs@[j]).status == IBV_WC_SUCCESS,
        decreases n - i,
    {
        let wc = wcs[i];
        if wc.status != IBV_WC_SUCCESS {
            assert(failed_at(wcs@, i as int));
            return Err(
                "work completion error: status ".to_owned().concat(
                    decimal(wc.status as u64).as_str(),
                ).concat(" vendor_err ").concat(decimal(wc.vendor_err as u64).as_str()).concat(
                    " (wr_id ",
                ).concat(decimal(wc.wr_id).as_str()).concat(")"),
            );
        }
        i += 1;
    }
    Ok(n)
}

// ------------------------------------------------------------------ fan-out

/// Work for one queue pair.
#[derive(Clone, Copy, Debug, PartialEq, Eq, Structural)]
pub struct Lane {
    pub qp: usize,
    pub count: u64,
}

/// The queue pairs from `i` on that have something to carry.
pub open spec fn busy_lanes(count: int, n: int, i: int) -> Seq<Lane>
    decreases n - i,
{
    if i >= n {
        Seq::empty()
    } else if share(count, n, i) > 0 {
        seq![Lane { qp: i as usize, count: share(count, n, i) as u64 }] + busy_lanes(
            count,
            n,
            i + 1,
        )
    } else {
        busy_lanes(count, n, i + 1)
    }
}

/// Fan a burst out over the queue pairs. A burst that leaves at most one of them
/// busy stays on the first.
pub fn fan_out(count: u64, qps: usize) -> (r: Vec<Lane>)
    requires
        qps > 0,
    ensures
        r@ == if busy_lanes(count as int, qps as int, 0).len() <= 1 {
            seq![Lane { qp: 0, count }]
        } else {
            busy_lanes(count as int, qps as int, 0)
        },
{
    let parts = shares(count, qps);
    let mut r: Vec<Lane> = Vec::new();
    let mut i: usize = 0;
    while i < qps
        invariant
            i <= qps,
            qps > 0,
            spread(parts@, count as int, qps as int),
            busy_lanes(count as int, qps as int, 0) == r@ + busy_lanes(
                count as int,
                qps as int,
                i as int,
            ),
        decreases qps - i,
    {
        let ghost rest = busy_lanes(count as int, qps as int, i + 1);
        let ghost had = r@;
        let part = parts[i];
        if part > 0 {
            let lane = Lane { qp: i, count: part };
            r.push(lane);
            assert(had + (seq![lane] + rest) =~= r@ + rest);
        }
        i += 1;
    }
    assert(r@ + Seq::<Lane>::empty() =~= r@);
    if r.len() <= 1 {
        vec![Lane { qp: 0, count }]
    } else {
        r
    }
}

/// The messages that a fan-out hands to the queue pairs.
pub open spec fn lane_total(lanes: Seq<Lane>) -> int
    decreases lanes.len(),
{
    if lanes.len() == 0 {
        0
    } else {
        lanes[0].count + lane_total(lanes.skip(1))
    }
}

/// Fanning out loses no message and makes none up.
pub proof fn law_fan_out_covers(count: u64, qps: int)
    requires
        0 < qps <= usize::MAX,
    ensures
        lane_total(busy_lanes(count as int, qps, 0)) == count,
{
    lemma_busy_total(count as int, qps, 0);
    let b = count as int / qps;
    let m = count as int % qps;
    assert(qps * b + m == count && 0 <= m < qps) by {
        vstd::arithmetic::div_mod::lemma_fundamental_div_mod(count as int, qps);
        vstd::arithmetic::div_mod::lemma_mod_bound(count as int, qps);
    }
}

proof fn lemma_busy_total(count: int, n: int, i: int)
    requires
        0 <= count <= u64::MAX,
        0 <= i <= n <= usize::MAX,
        n > 0,
    ensures
        lane_total(busy_lanes(count, n, i)) == (n - i) * (count / n) + if i < count % n {
            count % n - i
        } else {
            0
        },
    decreases n - i,
{
    let b = count / n;
    let m = count % n;
    assert(n * b + m == count && 0 <= m < n) by {
        vstd::arithmetic::div_mod::lemma_fundamental_div_mod(count, n);
        vstd::arithmetic::div_mod::lemma_mod_bound(count, n);
    }
    assert(0 <= b && b + (if m > 0 { 1int } else { 0 }) <= count) by (nonlinear_arith)
        requires
            n * b + m == count,
            0 <= m < n,
            count >= 0,
    ;
    if i < n {
        lemma_busy_total(count, n, i + 1);
        assert((n - i) * b == (n - (i + 1)) * b + b) by (nonlinear_arith);
        let rest = busy_lanes(count, n, i + 1);
        if share(count, n, i) > 0 {
            let lane = Lane { qp: i as usize, count: share(count, n, i) as u64 };
            assert((seq![lane] + rest).skip(1) =~= rest);
        }
    } else {
        assert(0 * b == 0) by (nonlinear_arith);
    }
}

/// A burst is spread evenly: every queue pair that is used carries something, no
/// two carry more than one message apart, and no queue pair is used twice.
pub proof fn law_fan_out_is_even(count: int, n: int, from: int)
    requires
        0 <= from,
        0 < n <= usize::MAX,
        0 <= count <= u64::MAX,
    ensures
        forall|k: int|
            0 <= k < busy_lanes(count, n, from).len() ==> {
                let l = #[trigger] busy_lanes(count, n, from)[k];
                &&& l.count >= 1
                &&& count / n <= l.count <= count / n + 1
                &&& from <= l.qp < n
            },
        forall|j: int, k: int|
            0 <= j < k < busy_lanes(count, n, from).len() ==> (#[trigger] busy_lanes(
                count,
                n,
                from,
            )[j]).qp < (#[trigger] busy_lanes(count, n, from)[k]).qp,
    decreases n - from,
{
    if from < n {
        law_fan_out_is_even(count, n, from + 1);
        let all = busy_lanes(count, n, from);
        let rest = busy_lanes(count, n, from + 1);
        if share(count, n, from) > 0 {
            assert(share(count, n, from) <= u64::MAX) by (nonlinear_arith)
                requires
                    share(count, n, from) <= count / n + 1,
                    share(count, n, from) == count / n + (if from < count % n {
                        1int
                    } else {
                        0
                    }),
                    0 <= from,
                    0 < n,
                    0 <= count <= u64::MAX,
            ;
            assert(all.len() == rest.len() + 1);
            assert(forall|k: int| 1 <= k < all.len() ==> #[trigger] all[k] == rest[k - 1]);
        }
    }
}

/// The MTUs of verbs double from 256 to 4096 bytes.
pub proof fn law_mtus_double(e: int)
    requires
        1 <= e < 5,
    ensures
        mtu_bytes(1) == 256,
        mtu_bytes(e + 1) == 2 * mtu_bytes(e),
{
}

} // verus!
