//! Control-channel protocol: newline-delimited JSON over TCP. The control
//! channel coordinates tests; bulk data flows over the selected data plane
//! (TCP streams, RDMA queue pairs, ...).

use crate::measure::Reading;
use crate::scan::{
    cut_first, first_pos, lemma_first_pos, lemma_trim_drops_tail, trim, trimmed,
};
use vstd::prelude::*;

verus! {

pub const VERSION: &'static str = "0.1.0";

pub const DEFAULT_PORT: u16 = 7842;

#[derive(Debug, Clone)]
pub struct RdmaDeviceInfo {
    pub name: String,
    pub port_state: String,
    pub link_layer: String,
    pub active_mtu: u32,
    pub rate_note: String,
    /// Network interface this RDMA device rides on (route safety checks).
    pub netdev: String,
}

#[derive(Debug, Clone)]
pub struct RdmaEndpoint {
    pub qpns: Vec<u32>,
    pub psn: u32,
    pub gid: [u8; 16],
    pub lid: u16,
    pub mtu: u32,
    pub device: String,
    pub gid_index: i32,
}

#[derive(Debug, Clone, Copy, PartialEq, Eq, Structural)]
pub enum TestSpec {
    /// Client sends pings of `size`, server echoes, `iters` times.
    PingEcho { size: u32, iters: u32 },
    /// Client sends `count` messages of `size`; server receives.
    C2S { size: u32, count: u64 },
    /// Server sends, client receives.
    S2C { size: u32, count: u64 },
    /// Both directions simultaneously, `count` messages each way.
    Bidir { size: u32, count: u64 },
    /// All-reduce simulation: `rounds` iterations of (bidirectional exchange of
    /// `chunks` x `chunk` bytes + local reduction pass).
    Reduce { chunk: u32, chunks: u32, rounds: u32 },
    /// Like C2S, but the server buckets received bytes into `bucket_ms` windows
    /// and reports the timeline (sustained-throughput graph).
    C2STimeline { size: u32, count: u64, bucket_ms: u64 },
    /// Pings on stream/QP 0 while all other streams/QPs carry bulk: latency
    /// under load. Ping count is open-ended; the last ping is flagged in its
    /// first payload byte, followed by one unechoed drain message to keep
    /// posted-receive accounting balanced.
    LoadedPing { ping_size: u32, bulk_size: u32, bulk_count: u64 },
}

#[derive(Debug, Clone)]
pub enum Msg {
    Hello {
        version: String,
        host: String,
        rdma_devices: Vec<RdmaDeviceInfo>,
        /// Compact CPU-tuning summary (governor/EPP + disabled idle states),
        /// recorded into results so runs are comparable.
        tuning: String,
    },
    /// Client asks server to open a TCP data plane with N parallel streams.
    SetupTcp { streams: u16 },
    TcpListening { port: u16 },
    /// Client asks server to bring up RDMA; carries the client's endpoint.
    SetupRdma { device: Option<String>, gid_index: Option<i32>, ep: RdmaEndpoint },
    RdmaAccept { ep: RdmaEndpoint },
    SetupErr { error: String },
    Run { spec: TestSpec },
    Ready,
    /// Passive-side measurement for the test that just ran. For receive roles,
    /// elapsed_ns spans first..last message completion and bytes counts
    /// messages 2..=N (clock-skew-free rate measurement).
    Done { elapsed_ns: u64, bytes: u64 },
    /// Done plus a receive-side byte-count timeline (one entry per bucket) and
    /// this node's temperature series sampled at the same cadence (hottest
    /// non-NIC sensor, and NIC sensor if present; may be empty).
    DoneTimeline {
        elapsed_ns: u64,
        bytes: u64,
        buckets: Vec<u64>,
        /// Leading buckets during which every lane was still active.
        steady: u64,
        temps_sys: Vec<Reading>,
        temps_nic: Vec<Reading>,
    },
    Bye,
}

// ----------------------------------------------------------------- framing

/// One message on the wire: its JSON text and a line feed.
pub open spec fn framed(json: Seq<char>) -> Seq<char> {
    json.push('\n')
}

pub fn frame(json: &str) -> (r: String)
    ensures
        r@ == framed(json@),
{
    let mut s = json.to_owned();
    s.push('\n');
    s
}

/// The text of the message in a line of `n` bytes that was read; no bytes mean
/// that the peer is gone.
pub fn unframe(n: usize, line: &str) -> (r: Result<String, String>)
    ensures
        match r {
            Ok(json) => n != 0 && json@ == trim(line@),
            Err(e) => n == 0 && e@ == "control channel closed by peer"@,
        },
{
    if n == 0 {
        Err("control channel closed by peer".to_owned())
    } else {
        Ok(trimmed(line))
    }
}

/// The error for a line that holds no message.
pub fn bad_message(json: &str) -> (r: String)
    ensures
        r@ == "bad control message: "@ + json@,
{
    "bad control message: ".to_owned().concat(json)
}

/// What is read back of a line is what was written, for any text without white
/// space at its ends (which JSON texts of messages are).
pub proof fn law_frame_round_trip(json: Seq<char>)
    ensures
        trim(framed(json)) == trim(json),
        trim(json) == json ==> trim(framed(json)) == json,
{
    lemma_trim_drops_tail(json, '\n');
}

/// What the wire carries for these messages.
pub open spec fn wire(messages: Seq<Seq<char>>) -> Seq<char>
    decreases messages.len(),
{
    if messages.len() == 0 {
        Seq::empty()
    } else {
        framed(messages[0]) + wire(messages.skip(1))
    }
}

/// The line that is read next, with its line feed; what is left where no line feed
/// follows.
pub open spec fn next_line(stream: Seq<char>) -> Seq<char> {
    match cut_first(stream, '\n') {
        Some((line, _)) => framed(line),
        None => stream,
    }
}

/// What is left once `k` lines were read.
pub open spec fn after_lines(stream: Seq<char>, k: int) -> Seq<char>
    decreases k,
{
    if k <= 0 {
        stream
    } else {
        match cut_first(after_lines(stream, k - 1), '\n') {
            Some((_, rest)) => rest,
            None => Seq::empty(),
        }
    }
}

/// The JSON text of a message: on one line, without white space at its ends.
pub open spec fn is_message_text(m: Seq<char>) -> bool {
    !m.contains('\n') && trim(m) == m
}

/// Messages arrive as they were sent, one line each and in order: reading a line
/// takes one message and no more, whatever the message says, and behind the last
/// one nothing is left to read.
pub proof fn law_messages_arrive_in_order(messages: Seq<Seq<char>>, k: int)
    requires
        forall|i: int| 0 <= i < messages.len() ==> is_message_text(#[trigger] messages[i]),
        0 <= k <= messages.len(),
    ensures
        after_lines(wire(messages), k) == wire(messages.skip(k)),
        k < messages.len() ==> {
            let line = next_line(after_lines(wire(messages), k));
            line.len() > 0 && line == framed(messages[k]) && trim(line) == messages[k]
        },
        k == messages.len() ==> next_line(after_lines(wire(messages), k)).len() == 0,
    decreases k,
{
    if k > 0 {
        law_messages_arrive_in_order(messages, k - 1);
        lemma_first_line(messages, k - 1);
    } else {
        assert(messages.skip(0) =~= messages);
    }
    if k < messages.len() {
        lemma_first_line(messages, k);
        law_frame_round_trip(messages[k]);
    }
}

proof fn lemma_first_line(messages: Seq<Seq<char>>, k: int)
    requires
        forall|i: int| 0 <= i < messages.len() ==> is_message_text(#[trigger] messages[i]),
        0 <= k < messages.len(),
    ensures
        cut_first(wire(messages.skip(k)), '\n') == Some((messages[k], wire(messages.skip(k + 1)))),
{
    let m = messages[k];
    let rest = wire(messages.skip(k + 1));
    assert(messages.skip(k)[0] == m);
    assert(messages.skip(k).skip(1) =~= messages.skip(k + 1));
    let s = framed(m) + rest;
    assert(wire(messages.skip(k)) == s);
    lemma_first_pos(s, '\n');
    assert(s[m.len() as int] == '\n');
    assert forall|i: int| 0 <= i < m.len() implies s[i] != '\n' by {
        assert(s[i] == m[i]);
        assert(m.contains(m[i]));
    }
    assert(s.contains('\n'));
    assert(first_pos(s, '\n') == m.len());
    assert(s.take(m.len() as int) =~= m);
    assert(s.skip(m.len() as int + 1) =~= rest);
}

// ------------------------------------------------------------ expectations

/// The message must be `Ready`; any other one is handed back.
pub fn expect_ready(msg: Msg) -> (r: Result<(), Msg>)
    ensures
        r == (if msg is Ready {
            Ok::<(), Msg>(())
        } else {
            Err(msg)
        }),
{
    match msg {
        Msg::Ready => Ok(()),
        other => Err(other),
    }
}

/// The message must be `Done`: its elapsed time and byte count.
pub fn expect_done(msg: Msg) -> (r: Result<(u64, u64), Msg>)
    ensures
        match msg {
            Msg::Done { elapsed_ns, bytes } => r == Ok::<(u64, u64), Msg>((elapsed_ns, bytes)),
            _ => r == Err::<(u64, u64), Msg>(msg),
        },
{
    match msg {
        Msg::Done { elapsed_ns, bytes } => Ok((elapsed_ns, bytes)),
        other => Err(other),
    }
}

/// What a `DoneTimeline` carries.
pub struct DoneTimeline {
    pub elapsed_ns: u64,
    pub bytes: u64,
    pub buckets: Vec<u64>,
    pub steady: u64,
    pub temps_sys: Vec<Reading>,
    pub temps_nic: Vec<Reading>,
}

/// The message must be `DoneTimeline`.
pub fn expect_done_timeline(msg: Msg) -> (r: Result<DoneTimeline, Msg>)
    ensures
        match msg {
            Msg::DoneTimeline { elapsed_ns, bytes, buckets, steady, temps_sys, temps_nic } => r
                == Ok::<DoneTimeline, Msg>(
                DoneTimeline { elapsed_ns, bytes, buckets, steady, temps_sys, temps_nic },
            ),
            _ => r == Err::<DoneTimeline, Msg>(msg),
        },
{
    match msg {
        Msg::DoneTimeline { elapsed_ns, bytes, buckets, steady, temps_sys, temps_nic } => Ok(
            DoneTimeline { elapsed_ns, bytes, buckets, steady, temps_sys, temps_nic },
        ),
        other => Err(other),
    }
}

/// The error for a message of another kind: what was wanted and what came.
pub fn expected_got(wanted: &str, got: &str) -> (r: String)
    ensures
        r@ == "expected "@ + wanted@ + ", got "@ + got@,
{
    "expected ".to_owned().concat(wanted).concat(", got ").concat(got)
}

} // verus!
