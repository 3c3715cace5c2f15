//! The parts of libibverbs' public structs that the data plane fills in, as
//! plain values. Names and field order follow `verbs.h`.

use vstd::prelude::*;

verus! {

pub const IBV_QPS_INIT: u32 = 1;

pub const IBV_QPS_RTR: u32 = 2;

pub const IBV_QPS_RTS: u32 = 3;

pub const IBV_QP_STATE: i32 = 0x1;

pub const IBV_QP_ACCESS_FLAGS: i32 = 0x8;

pub const IBV_QP_PKEY_INDEX: i32 = 0x10;

pub const IBV_QP_PORT: i32 = 0x20;

pub const IBV_QP_AV: i32 = 0x80;

pub const IBV_QP_PATH_MTU: i32 = 0x100;

pub const IBV_QP_TIMEOUT: i32 = 0x200;

pub const IBV_QP_RETRY_CNT: i32 = 0x400;

pub const IBV_QP_RNR_RETRY: i32 = 0x800;

pub const IBV_QP_RQ_PSN: i32 = 0x1000;

pub const IBV_QP_MAX_QP_RD_ATOMIC: i32 = 0x2000;

pub const IBV_QP_MIN_RNR_TIMER: i32 = 0x8000;

pub const IBV_QP_SQ_PSN: i32 = 0x1_0000;

pub const IBV_QP_MAX_DEST_RD_ATOMIC: i32 = 0x2_0000;

pub const IBV_QP_DEST_QPN: i32 = 0x10_0000;

pub const IBV_ACCESS_LOCAL_WRITE: u32 = 0x1;

pub const IBV_ACCESS_REMOTE_WRITE: u32 = 0x2;

pub const IBV_SEND_SIGNALED: u32 = 0x2;

pub const IBV_SEND_INLINE: u32 = 0x8;

pub const IBV_WC_SUCCESS: u32 = 0;

pub const IBV_LINK_LAYER_ETHERNET: u8 = 2;

/// A device handle; nothing in it is ever looked at.
#[allow(non_camel_case_types)]
pub struct ibv_device {
    _opaque: [u8; 0],
}

#[allow(non_camel_case_types)]
#[derive(Clone, Copy)]
pub struct ibv_gid {
    pub raw: [u8; 16],
}

#[allow(non_camel_case_types)]
#[derive(Clone, Copy)]
pub struct ibv_global_route {
    pub dgid: ibv_gid,
    pub flow_label: u32,
    pub sgid_index: u8,
    pub hop_limit: u8,
    pub traffic_class: u8,
}

#[allow(non_camel_case_types)]
#[derive(Clone, Copy)]
pub struct ibv_ah_attr {
    pub grh: ibv_global_route,
    pub dlid: u16,
    pub sl: u8,
    pub src_path_bits: u8,
    pub static_rate: u8,
    pub is_global: u8,
    pub port_num: u8,
}

#[allow(non_camel_case_types)]
#[derive(Clone, Copy)]
pub struct ibv_qp_cap {
    pub max_send_wr: u32,
    pub max_recv_wr: u32,
    pub max_send_sge: u32,
    pub max_recv_sge: u32,
    pub max_inline_data: u32,
}

/// The attributes of a queue pair that are ever set to anything but 0.
#[allow(non_camel_case_types)]
#[derive(Clone, Copy)]
pub struct ibv_qp_attr {
    pub qp_state: u32,
    pub path_mtu: u32,
    pub rq_psn: u32,
    pub sq_psn: u32,
    pub dest_qp_num: u32,
    pub qp_access_flags: u32,
    pub ah_attr: ibv_ah_attr,
    pub pkey_index: u16,
    pub max_rd_atomic: u8,
    pub max_dest_rd_atomic: u8,
    pub min_rnr_timer: u8,
    pub port_num: u8,
    pub timeout: u8,
    pub retry_cnt: u8,
    pub rnr_retry: u8,
}

/// Port attributes that are read.
#[allow(non_camel_case_types)]
#[derive(Clone, Copy)]
pub struct ibv_port_attr {
    pub state: u32,
    pub active_mtu: u32,
    pub lid: u16,
    pub active_width: u8,
    pub active_speed: u8,
    pub link_layer: u8,
}

#[allow(non_camel_case_types)]
#[derive(Clone, Copy)]
pub struct ibv_sge {
    pub addr: u64,
    pub length: u32,
    pub lkey: u32,
}

/// The parts of a work completion that are read.
#[allow(non_camel_case_types)]
#[derive(Clone, Copy)]
pub struct ibv_wc {
    pub wr_id: u64,
    pub status: u32,
    pub vendor_err: u32,
}

} // verus!
