//! How fast and useful is the link between two computers, for machine-learning
//! work? This crate holds what a two-node link benchmark decides and computes:
//! the choreography of the tests, how a burst is spread over lanes and put
//! together again, when RDMA work requests are posted, which device, address and
//! transport are used, what the measurements mean and how they are reported.
//! Sockets, verbs, files and windows are the business of the programs around it.

pub mod batch;
pub mod bench;
pub mod board;
pub mod bringup;
pub mod calendar;
pub mod history;
pub mod json;
pub mod links;
pub mod listing;
pub mod measure;
pub mod orchestrate;
pub mod order;
pub mod page;
pub mod pane;
pub mod probe;
pub mod proto;
pub mod rdma;
pub mod report;
pub mod run;
pub mod scan;
pub mod score;
pub mod sensors;
pub mod session;
pub mod text;
pub mod transport;
pub mod tune;
