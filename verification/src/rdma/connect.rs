//! What a queue pair is told on its way from RESET over INIT and RTR to RTS.

use super::ffi::{
    ibv_ah_attr, ibv_gid, ibv_global_route, ibv_port_attr, ibv_qp_attr, ibv_qp_cap,
    IBV_ACCESS_LOCAL_WRITE, IBV_ACCESS_REMOTE_WRITE, IBV_QPS_INIT, IBV_QPS_RTR, IBV_QPS_RTS,
    IBV_QP_ACCESS_FLAGS, IBV_QP_AV, IBV_QP_DEST_QPN, IBV_QP_MAX_DEST_RD_ATOMIC,
    IBV_QP_MAX_QP_RD_ATOMIC, IBV_QP_MIN_RNR_TIMER, IBV_QP_PATH_MTU, IBV_QP_PKEY_INDEX,
    IBV_QP_PORT, IBV_QP_RETRY_CNT, IBV_QP_RNR_RETRY, IBV_QP_RQ_PSN, IBV_QP_SQ_PSN, IBV_QP_STATE,
    IBV_QP_TIMEOUT,
};
use super::region::clamped;
use super::window::{RQ_DEPTH, SQ_DEPTH};
use crate::proto::RdmaEndpoint;
use crate::text::{dec, decimal};
use vstd::prelude::*;

verus! {

/// Messages up to this size travel inside the work request.
pub const INLINE_MAX: u32 = 220;

pub const CQ_DEPTH: i32 = 1024;

/// Capacities asked for when a queue pair is made. A device that refuses inline
/// data is asked again without.
pub fn queue_caps(inline: bool) -> (r: ibv_qp_cap)
    ensures
        r == (ibv_qp_cap {
            max_send_wr: SQ_DEPTH,
            max_recv_wr: RQ_DEPTH,
            max_send_sge: 1,
            max_recv_sge: 1,
            max_inline_data: if inline {
                INLINE_MAX
            } else {
                0
            },
        }),
{
    ibv_qp_cap {
        max_send_wr: SQ_DEPTH,
        max_recv_wr: RQ_DEPTH,
        max_send_sge: 1,
        max_recv_sge: 1,
        max_inline_data: if inline {
            INLINE_MAX
        } else {
            0
        },
    }
}

/// What the peer is told of this end: its queue pairs, its address, and the MTU
/// and LID of its port. Sequence numbers start at 0.
pub fn local_endpoint(
    qpns: Vec<u32>,
    gid: [u8; 16],
    gid_index: i32,
    port: &ibv_port_attr,
    device: String,
) -> (r: RdmaEndpoint)
    ensures
        r == (RdmaEndpoint {
            qpns,
            psn: 0,
            gid,
            lid: port.lid,
            mtu: port.active_mtu,
            device,
            gid_index,
        }),
{
    RdmaEndpoint { qpns, psn: 0, gid, lid: port.lid, mtu: port.active_mtu, device, gid_index }
}

/// One `modify_qp`: the attributes, and which of them count.
pub struct Transition {
    pub attr: ibv_qp_attr,
    pub mask: i32,
}

/// An address that names nobody.
pub open spec fn blank_address(a: ibv_ah_attr) -> bool {
    &&& blank_route(a.grh)
    &&& a.dlid == 0 && a.sl == 0 && a.src_path_bits == 0 && a.static_rate == 0
    &&& a.is_global == 0 && a.port_num == 0
}

pub open spec fn blank_route(g: ibv_global_route) -> bool {
    &&& forall|i: int| 0 <= i < 16 ==> g.dgid.raw@[i] == 0
    &&& g.flow_label == 0 && g.sgid_index == 0 && g.hop_limit == 0 && g.traffic_class == 0
}

fn blank() -> (r: ibv_qp_attr)
    ensures
        r.qp_state == 0 && r.path_mtu == 0 && r.rq_psn == 0 && r.sq_psn == 0 && r.dest_qp_num == 0,
        r.qp_access_flags == 0 && r.pkey_index == 0 && r.max_rd_atomic == 0 && r.max_dest_rd_atomic
            == 0,
        r.min_rnr_timer == 0 && r.port_num == 0 && r.timeout == 0 && r.retry_cnt == 0 && r.rnr_retry
            == 0,
        blank_address(r.ah_attr),
{
    ibv_qp_attr {
        qp_state: 0,
        path_mtu: 0,
        rq_psn: 0,
        sq_psn: 0,
        dest_qp_num: 0,
        qp_access_flags: 0,
        ah_attr: ibv_ah_attr {
            grh: ibv_global_route {
                dgid: ibv_gid { raw: [0u8;16] },
                flow_label: 0,
                sgid_index: 0,
                hop_limit: 0,
                traffic_class: 0,
            },
            dlid: 0,
            sl: 0,
            src_path_bits: 0,
            static_rate: 0,
            is_global: 0,
            port_num: 0,
        },
        pkey_index: 0,
        max_rd_atomic: 0,
        max_dest_rd_atomic: 0,
        min_rnr_timer: 0,
        port_num: 0,
        timeout: 0,
        retry_cnt: 0,
        rnr_retry: 0,
    }
}

/// RESET to INIT on `port`.
pub open spec fn is_init(t: Transition, port: u8) -> bool {
    &&& t.attr.qp_state == IBV_QPS_INIT
    &&& t.attr.pkey_index == 0
    &&& t.attr.port_num == port
    &&& t.attr.qp_access_flags == IBV_ACCESS_LOCAL_WRITE | IBV_ACCESS_REMOTE_WRITE
    &&& t.mask == IBV_QP_STATE | IBV_QP_PKEY_INDEX | IBV_QP_PORT | IBV_QP_ACCESS_FLAGS
}

/// INIT to RTR against queue pair `qpn` of `remote`. A peer without a LID is on
/// RoCE and addressed by GID; the path takes the smaller of the two MTUs.
pub open spec fn is_rtr(
    t: Transition,
    local: RdmaEndpoint,
    remote: RdmaEndpoint,
    qpn: u32,
    port: u8,
) -> bool {
    &&& t.attr.qp_state == IBV_QPS_RTR
    &&& t.attr.path_mtu == clamped(
        if local.mtu < remote.mtu {
            local.mtu as int
        } else {
            remote.mtu as int
        },
        1,
        5,
    )
    &&& t.attr.dest_qp_num == qpn
    &&& t.attr.rq_psn == remote.psn
    &&& t.attr.max_dest_rd_atomic == 1
    &&& t.attr.min_rnr_timer == 1
    &&& t.attr.ah_attr.port_num == port
    &&& t.attr.ah_attr.dlid == remote.lid
    &&& t.attr.ah_attr.sl == 0
    &&& t.attr.ah_attr.src_path_bits == 0
    &&& t.attr.ah_attr.static_rate == 0
    &&& if remote.lid == 0 {
        &&& t.attr.ah_attr.is_global == 1
        &&& t.attr.ah_attr.grh.flow_label == 0
        &&& t.attr.ah_attr.grh.traffic_class == 0
        &&& t.attr.ah_attr.grh.dgid.raw@ == remote.gid@
        &&& t.attr.ah_attr.grh.sgid_index == local.gid_index as u8
        &&& t.attr.ah_attr.grh.hop_limit == 64
    } else {
        t.attr.ah_attr.is_global == 0 && blank_route(t.attr.ah_attr.grh)
    }
    &&& t.mask == IBV_QP_STATE | IBV_QP_AV | IBV_QP_PATH_MTU | IBV_QP_DEST_QPN | IBV_QP_RQ_PSN
        | IBV_QP_MAX_DEST_RD_ATOMIC | IBV_QP_MIN_RNR_TIMER
}

/// RTR to RTS. Receiver-not-ready is retried for ever: a lag in posting
/// receives is expected.
pub open spec fn is_rts(t: Transition, local: RdmaEndpoint) -> bool {
    &&& t.attr.qp_state == IBV_QPS_RTS
    &&& t.attr.sq_psn == local.psn
    &&& t.attr.timeout == 14
    &&& t.attr.retry_cnt == 7
    &&& t.attr.rnr_retry == 7
    &&& t.attr.max_rd_atomic == 1
    &&& t.mask == IBV_QP_STATE | IBV_QP_TIMEOUT | IBV_QP_RETRY_CNT | IBV_QP_RNR_RETRY
        | IBV_QP_SQ_PSN | IBV_QP_MAX_QP_RD_ATOMIC
}

pub fn to_init(port: u8) -> (r: Transition)
    ensures
        is_init(r, port),
{
    let mut attr = blank();
    attr.qp_state = IBV_QPS_INIT;
    attr.pkey_index = 0;
    attr.port_num = port;
    attr.qp_access_flags = IBV_ACCESS_LOCAL_WRITE | IBV_ACCESS_REMOTE_WRITE;
    Transition {
        attr,
        mask: IBV_QP_STATE | IBV_QP_PKEY_INDEX | IBV_QP_PORT | IBV_QP_ACCESS_FLAGS,
    }
}

fn path_mtu(local: u32, remote: u32) -> (r: u32)
    ensures
        r == clamped(
            if local < remote {
                local as int
            } else {
                remote as int
            },
            1,
            5,
        ),
{
    let m: u32 = if local < remote {
        local
    } else {
        remote
    };
    if m < 1 {
        1
    } else if m > 5 {
        5
    } else {
        m
    }
}

pub fn to_rtr(local: &RdmaEndpoint, remote: &RdmaEndpoint, qpn: u32, port: u8) -> (r: Transition)
    ensures
        is_rtr(r, *local, *remote, qpn, port),
{
    let mut attr = blank();
    attr.qp_state = IBV_QPS_RTR;
    attr.path_mtu = path_mtu(local.mtu, remote.mtu);
    attr.dest_qp_num = qpn;
    attr.rq_psn = remote.psn;
    attr.max_dest_rd_atomic = 1;
    attr.min_rnr_timer = 1;
    attr.ah_attr.port_num = port;
    attr.ah_attr.dlid = remote.lid;
    if remote.lid == 0 {
        attr.ah_attr.is_global = 1;
        attr.ah_attr.grh.dgid = ibv_gid { raw: remote.gid };
        attr.ah_attr.grh.sgid_index = #[verifier::truncate] (local.gid_index as u8);
        attr.ah_attr.grh.hop_limit = 64;
    }
    Transition {
        attr,
        mask: IBV_QP_STATE | IBV_QP_AV | IBV_QP_PATH_MTU | IBV_QP_DEST_QPN | IBV_QP_RQ_PSN
            | IBV_QP_MAX_DEST_RD_ATOMIC | IBV_QP_MIN_RNR_TIMER,
    }
}

pub fn to_rts(local: &RdmaEndpoint) -> (r: Transition)
    ensures
        is_rts(r, *local),
{
    let mut attr = blank();
    attr.qp_state = IBV_QPS_RTS;
    attr.sq_psn = local.psn;
    attr.timeout = 14;
    attr.retry_cnt = 7;
    attr.rnr_retry = 7;
    attr.max_rd_atomic = 1;
    Transition {
        attr,
        mask: IBV_QP_STATE | IBV_QP_TIMEOUT | IBV_QP_RETRY_CNT | IBV_QP_RNR_RETRY | IBV_QP_SQ_PSN
            | IBV_QP_MAX_QP_RD_ATOMIC,
    }
}

/// The two transitions that bring one queue pair up.
pub struct Bringup {
    pub rtr: Transition,
    pub rts: Transition,
}

/// Bring all queue pairs up against the peer's endpoint, pair `i` against pair
/// `i`; both sides must have the same number of them.
pub fn connect_plan(local: &RdmaEndpoint, remote: &RdmaEndpoint, port: u8) -> (r: Result<
    Vec<Bringup>,
    String,
>)
    ensures
        remote.qpns@.len() == local.qpns@.len() ==> r is Ok && r->Ok_0@.len() == local.qpns@.len()
            && forall|i: int|
            #![trigger r->Ok_0@[i]]
            0 <= i < local.qpns@.len() ==> is_rtr(
                r->Ok_0@[i].rtr,
                *local,
                *remote,
                remote.qpns@[i],
                port,
            ) && is_rts(r->Ok_0@[i].rts, *local),
        remote.qpns@.len() != local.qpns@.len() ==> r is Err && r->Err_0@
            == "QP count mismatch: local "@ + dec(local.qpns@.len()) + " vs remote "@ + dec(
            remote.qpns@.len(),
        ),
{
    let n = local.qpns.len();
    if remote.qpns.len() != n {
        return Err(
            "QP count mismatch: local ".to_owned().concat(decimal(n as u64).as_str()).concat(
                " vs remote ",
            ).concat(decimal(remote.qpns.len() as u64).as_str()),
        );
    }
    let mut plan: Vec<Bringup> = Vec::new();
    let mut i: usize = 0;
    while i < n
        invariant
            i <= n,
            n == local.qpns@.len() == remote.qpns@.len(),
            plan@.len() == i,
            forall|k: int|
                #![trigger plan@[k]]
                0 <= k < i ==> is_rtr(plan@[k].rtr, *local, *remote, remote.qpns@[k], port)
                    && is_rts(plan@[k].rts, *local),
        decreases n - i,
    {
        plan.push(Bringup { rtr: to_rtr(local, remote, remote.qpns[i], port), rts: to_rts(local) });
        i += 1;
    }
    Ok(plan)
}

/// Two ends that know each other's endpoint agree on the path: the MTU is the
/// same in both directions.
pub proof fn law_path_mtu_agrees(
    a: RdmaEndpoint,
    b: RdmaEndpoint,
    at_a: Transition,
    at_b: Transition,
    qpn_a: u32,
    qpn_b: u32,
    port: u8,
)
    requires
        is_rtr(at_a, a, b, qpn_b, port),
        is_rtr(at_b, b, a, qpn_a, port),
    ensures
        at_a.attr.path_mtu == at_b.attr.path_mtu,
        1 <= at_a.attr.path_mtu <= 5,
{
}

/// Sequence numbers meet: each side expects to receive from the number that the
/// other side starts to send at.
pub proof fn law_sequence_numbers_meet(
    a: RdmaEndpoint,
    b: RdmaEndpoint,
    rtr_at_a: Transition,
    rts_at_b: Transition,
    qpn: u32,
    port: u8,
)
    requires
        is_rtr(rtr_at_a, a, b, qpn, port),
        is_rts(rts_at_b, b),
    ensures
        rtr_at_a.attr.rq_psn == rts_at_b.attr.sq_psn,
{
}

/// The path takes what both ends can: the smaller of the two MTUs where both are
/// MTUs, whichever end asks.
pub proof fn law_path_takes_the_smaller_mtu(
    t: Transition,
    local: RdmaEndpoint,
    remote: RdmaEndpoint,
    qpn: u32,
    port: u8,
)
    requires
        is_rtr(t, local, remote, qpn, port),
        1 <= local.mtu <= 5,
        1 <= remote.mtu <= 5,
    ensures
        t.attr.path_mtu <= local.mtu && t.attr.path_mtu <= remote.mtu,
        t.attr.path_mtu == local.mtu || t.attr.path_mtu == remote.mtu,
{
}

/// A queue pair is connected to the one it was told and to nobody else: by LID
/// where the peer has one, else by the peer's GID from the local GID of the chosen
/// index.
pub proof fn law_connected_to_the_peer(
    t: Transition,
    local: RdmaEndpoint,
    remote: RdmaEndpoint,
    qpn: u32,
    port: u8,
)
    requires
        is_rtr(t, local, remote, qpn, port),
    ensures
        t.attr.dest_qp_num == qpn,
        t.attr.rq_psn == remote.psn,
        t.attr.ah_attr.port_num == port,
        remote.lid != 0 ==> t.attr.ah_attr.is_global == 0 && t.attr.ah_attr.dlid == remote.lid,
        remote.lid == 0 ==> t.attr.ah_attr.is_global == 1 && t.attr.ah_attr.grh.dgid.raw@
            == remote.gid@ && t.attr.ah_attr.grh.sgid_index == local.gid_index as u8
            && t.attr.ah_attr.grh.hop_limit > 0,
{
}

} // verus!
