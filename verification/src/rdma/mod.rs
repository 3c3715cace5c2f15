//! RDMA (RoCE / InfiniBand) over N reliable-connected queue pairs: which
//! device and address to use, how the registered regions are divided, what a
//! queue pair is told to connect, and when work requests are posted. Calls
//! into libibverbs are made elsewhere; everything they are told comes from here.

pub mod connect;
pub mod device;
pub mod ffi;
pub mod gid;
pub mod region;
pub mod window;
