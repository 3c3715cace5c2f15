//! Running a benchmark between two nodes from a third place: which commands are
//! run on which node, in what order, and what is made of what they print. Nodes
//! are this machine or SSH targets.

use crate::links::{short_of, LinkPair, Mode};
use crate::proto::DEFAULT_PORT;
use crate::scan::{
    contains, cut_last, lines, lines_of, mentions, rsplit_once, split_whitespace, strip_prefixes,
    trim, trimmed, views, without_prefixes, words,
};
use crate::text::{
    dec, dec_int, decimal, decimal_int, parse_i64, parsed_int, same, texts,
};
use vstd::prelude::*;

verus! {

/// How to run a benchmark.
#[derive(Debug)]
pub struct Config {
    pub a_ssh: bool,
    pub a_host: String,
    pub b_ssh: bool,
    pub b_host: String,
    pub data_addr: String,
    pub transport: String,
    pub quick: bool,
    pub deploy: bool,
    pub local_bin: String,
    pub remote_bin: String,
    pub port: u16,
    /// Target seconds per test, as they are written.
    pub duration: String,
    pub streams: u16,
    pub qps: u16,
    pub rdma_device: String,
    pub gid_index: String,
    pub region_mb: u32,
    pub tune_profile: String,
    pub notes: String,
}

impl Config {
    /// The configuration before anything is chosen: this machine against a node
    /// over SSH, with the binary at `local_bin`.
    pub fn initial(local_bin: String) -> (r: Config)
        ensures
            !r.a_ssh && r.a_host@.len() == 0,
            r.b_ssh && r.b_host@.len() == 0,
            r.data_addr@.len() == 0,
            r.transport@ == "auto"@,
            !r.quick && r.deploy,
            r.local_bin == local_bin,
            r.remote_bin@ == "~/linkbench"@,
            r.port == DEFAULT_PORT,
            r.duration@ == "1"@,
            r.streams == 4 && r.qps == 4,
            r.rdma_device@.len() == 0 && r.gid_index@.len() == 0,
            r.region_mb == 128,
            r.tune_profile@ == "leave"@,
            r.notes@.len() == 0,
    {
        Config {
            a_ssh: false,
            a_host: String::new(),
            b_ssh: true,
            b_host: String::new(),
            data_addr: String::new(),
            transport: "auto".to_owned(),
            quick: false,
            deploy: true,
            local_bin,
            remote_bin: "~/linkbench".to_owned(),
            port: DEFAULT_PORT,
            duration: "1".to_owned(),
            streams: 4,
            qps: 4,
            rdma_device: String::new(),
            gid_index: String::new(),
            region_mb: 128,
            tune_profile: "leave".to_owned(),
            notes: String::new(),
        }
    }
}

/// A command to run.
#[derive(Debug)]
pub struct Job {
    pub program: String,
    pub args: Vec<String>,
}

pub open spec fn runs(j: Job, program: Seq<char>, args: Seq<Seq<char>>) -> bool {
    j.program@ == program && views(j.args@) == args
}

pub open spec fn ssh_args(target: Seq<char>, remote: Seq<char>) -> Seq<Seq<char>> {
    seq!["-oBatchMode=yes"@, "-oConnectTimeout=8"@, target, remote]
}

/// Run `remote` on an SSH target.
pub fn ssh(target: &str, remote: &str) -> (r: Job)
    ensures
        runs(r, "ssh"@, ssh_args(target@, remote@)),
{
    let args = texts(["-oBatchMode=yes", "-oConnectTimeout=8", target, remote]);
    assert(views(args@) =~= ssh_args(target@, remote@));
    Job { program: "ssh".to_owned(), args }
}

pub open spec fn host_in(target: Seq<char>) -> Seq<char> {
    match cut_last(target, '@') {
        Some((_, host)) => host,
        None => target,
    }
}

/// The host of USER@HOST.
pub fn ssh_host_part(target: &str) -> (r: String)
    ensures
        r@ == host_in(target@),
{
    match rsplit_once(target, '@') {
        Some((_, host)) => host,
        None => target.to_owned(),
    }
}

pub open spec fn scp_args(local: Seq<char>, host: Seq<char>, remote_bin: Seq<char>) -> Seq<
    Seq<char>,
> {
    seq!["-oBatchMode=yes"@, local, host + ":"@ + without_prefixes(remote_bin, "~/"@)]
}

/// Copy the binary to an SSH target.
pub fn scp(local: &str, host: &str, remote_bin: &str) -> (r: Job)
    ensures
        runs(r, "scp"@, scp_args(local@, host@, remote_bin@)),
{
    let dest = host.to_owned().concat(":").concat(strip_prefixes(remote_bin, "~/").as_str());
    let args = texts(["-oBatchMode=yes", local, dest.as_str()]);
    assert(views(args@) =~= scp_args(local@, host@, remote_bin@));
    Job { program: "scp".to_owned(), args }
}

// -------------------------------------------------------------------- probe

/// The copy to make before an SSH node is probed.
pub fn probe_deploy(cfg: &Config, is_ssh: bool, host: &str) -> (r: Option<Job>)
    ensures
        r is Some <==> is_ssh && host@.len() > 0 && cfg.deploy,
        r matches Some(j) ==> runs(j, "scp"@, scp_args(cfg.local_bin@, host@, cfg.remote_bin@)),
{
    if is_ssh && !host.is_empty() && cfg.deploy {
        Some(scp(cfg.local_bin.as_str(), host, cfg.remote_bin.as_str()))
    } else {
        None
    }
}

/// Ask a node for its report.
pub fn probe_job(cfg: &Config, is_ssh: bool, host: &str) -> (r: Result<Job, String>)
    ensures
        is_ssh && host@.len() == 0 ==> (r matches Err(e) && e@ == "no SSH target set"@),
        is_ssh && host@.len() > 0 ==> (r matches Ok(j) && runs(
            j,
            "ssh"@,
            ssh_args(host@, cfg.remote_bin@ + " probe --json"@),
        )),
        !is_ssh ==> (r matches Ok(j) && runs(j, cfg.local_bin@, seq!["probe"@, "--json"@])),
{
    if is_ssh {
        if host.is_empty() {
            return Err("no SSH target set".to_owned());
        }
        return Ok(ssh(host, cfg.remote_bin.clone().concat(" probe --json").as_str()));
    }
    let args = texts(["probe", "--json"]);
    assert(views(args@) =~= seq!["probe"@, "--json"@]);
    Ok(Job { program: cfg.local_bin.clone(), args })
}

pub fn probe_failed(stderr: &str) -> (r: String)
    ensures
        r@ == "probe failed: "@ + trim(stderr@),
{
    "probe failed: ".to_owned().concat(trimmed(stderr).as_str())
}

// ----------------------------------------------------------------- bring-up

/// The address that each end of a thunderbolt link gets.
pub open spec fn tb_address(node_b: bool) -> Seq<char> {
    if node_b {
        "10.111.11.2/24"@
    } else {
        "10.111.11.1/24"@
    }
}

/// Bring the thunderbolt link up on one node (persisted).
pub fn tb_up_job(cfg: &Config, node_b: bool) -> (r: Job)
    ensures
        ({
            let (is_ssh, host) = if node_b {
                (cfg.b_ssh, cfg.b_host@)
            } else {
                (cfg.a_ssh, cfg.a_host@)
            };
            if is_ssh {
                runs(
                    r,
                    "ssh"@,
                    ssh_args(
                        host,
                        "sudo -n "@ + cfg.remote_bin@ + " tb-up --ip "@ + tb_address(node_b)
                            + " --persist"@,
                    ),
                )
            } else {
                runs(
                    r,
                    "sudo"@,
                    seq![
                        "-n"@,
                        cfg.local_bin@,
                        "tb-up"@,
                        "--ip"@,
                        tb_address(node_b),
                        "--persist"@,
                    ],
                )
            }
        }),
{
    let ip = if node_b {
        "10.111.11.2/24"
    } else {
        "10.111.11.1/24"
    };
    let (is_ssh, host) = if node_b {
        (cfg.b_ssh, cfg.b_host.as_str())
    } else {
        (cfg.a_ssh, cfg.a_host.as_str())
    };
    if is_ssh {
        return ssh(
            host,
            "sudo -n ".to_owned().concat(cfg.remote_bin.as_str()).concat(" tb-up --ip ").concat(
                ip,
            ).concat(" --persist").as_str(),
        );
    }
    let args = texts(["-n", cfg.local_bin.as_str(), "tb-up", "--ip", ip, "--persist"]);
    assert(views(args@) =~= seq![
        "-n"@,
        cfg.local_bin@,
        "tb-up"@,
        "--ip"@,
        tb_address(node_b),
        "--persist"@,
    ]);
    Job { program: "sudo".to_owned(), args }
}

/// Enable Soft-RoCE on one end of a link (persisted); an end without an
/// interface is passed over.
pub fn roce_up_job(cfg: &Config, node_b: bool, iface: &str) -> (r: Option<Job>)
    ensures
        r is Some <==> iface@.len() > 0,
        r matches Some(j) ==> ({
            let (is_ssh, host) = if node_b {
                (cfg.b_ssh, cfg.b_host@)
            } else {
                (cfg.a_ssh, cfg.a_host@)
            };
            if is_ssh {
                runs(
                    j,
                    "ssh"@,
                    ssh_args(
                        host,
                        "sudo -n "@ + cfg.remote_bin@ + " roce-up --dev "@ + iface@
                            + " --persist"@,
                    ),
                )
            } else {
                runs(
                    j,
                    "sudo"@,
                    seq!["-n"@, cfg.local_bin@, "roce-up"@, "--dev"@, iface@, "--persist"@],
                )
            }
        }),
{
    if iface.is_empty() {
        return None;
    }
    let (is_ssh, host) = if node_b {
        (cfg.b_ssh, cfg.b_host.as_str())
    } else {
        (cfg.a_ssh, cfg.a_host.as_str())
    };
    if is_ssh {
        return Some(
            ssh(
                host,
                "sudo -n ".to_owned().concat(cfg.remote_bin.as_str()).concat(
                    " roce-up --dev ",
                ).concat(iface).concat(" --persist").as_str(),
            ),
        );
    }
    let args = texts(["-n", cfg.local_bin.as_str(), "roce-up", "--dev", iface, "--persist"]);
    assert(views(args@) =~= seq![
        "-n"@,
        cfg.local_bin@,
        "roce-up"@,
        "--dev"@,
        iface@,
        "--persist"@,
    ]);
    Some(Job { program: "sudo".to_owned(), args })
}

/// What a bring-up command came to.
pub enum Ran {
    Finished { success: bool, stdout: String, stderr: String },
    NotStarted(String),
}

/// What is logged of a bring-up on node `node`; `what` is the command, `needs`
/// what a failure usually lacks.
pub fn bringup_log(node: &str, what: &str, needs: &str, ran: &Ran) -> (r: String)
    ensures
        r@ == "node "@ + node@ + ": "@ + (match *ran {
            Ran::Finished { success, stdout, stderr } => if success {
                trim(stdout@)
            } else {
                what@ + " FAILED"@ + needs@ + ": "@ + trim(stderr@) + trim(stdout@)
            },
            Ran::NotStarted(e) => what@ + " failed to start: "@ + e@,
        }),
{
    let rest = match ran {
        Ran::Finished { success, stdout, stderr } => if *success {
            trimmed(stdout.as_str())
        } else {
            what.to_owned().concat(" FAILED").concat(needs).concat(": ").concat(
                trimmed(stderr.as_str()).as_str(),
            ).concat(trimmed(stdout.as_str()).as_str())
        },
        Ran::NotStarted(e) => what.to_owned().concat(" failed to start: ").concat(e.as_str()),
    };
    "node ".to_owned().concat(node).concat(": ").concat(rest.as_str())
}

// ---------------------------------------------------------------------- run

/// The nodes that the binary is copied to before a run: the SSH nodes that have
/// a target, A first.
pub open spec fn deploy_hosts(cfg: Config) -> Seq<Seq<char>> {
    if cfg.deploy {
        (if cfg.a_ssh && cfg.a_host@.len() > 0 {
            seq![cfg.a_host@]
        } else {
            Seq::empty()
        }) + (if cfg.b_ssh && cfg.b_host@.len() > 0 {
            seq![cfg.b_host@]
        } else {
            Seq::empty()
        })
    } else {
        Seq::empty()
    }
}

pub fn deploy_targets(cfg: &Config) -> (r: Vec<String>)
    ensures
        views(r@) == deploy_hosts(*cfg),
{
    let mut r: Vec<String> = Vec::new();
    if cfg.deploy {
        if cfg.a_ssh && !cfg.a_host.as_str().is_empty() {
            r.push(cfg.a_host.clone());
        }
        if cfg.b_ssh && !cfg.b_host.as_str().is_empty() {
            r.push(cfg.b_host.clone());
        }
    }
    assert(views(r@) =~= deploy_hosts(*cfg));
    r
}

/// A tuning profile is to be applied before the run.
pub open spec fn tunes(cfg: Config) -> bool {
    cfg.tune_profile@ != "leave"@ && cfg.tune_profile@.len() > 0
}

/// Apply the tuning profile on one node; an SSH node without a target is passed
/// over.
pub fn tune_job(cfg: &Config, node_b: bool) -> (r: Option<Job>)
    ensures
        ({
            let (is_ssh, host) = if node_b {
                (cfg.b_ssh, cfg.b_host@)
            } else {
                (cfg.a_ssh, cfg.a_host@)
            };
            &&& r is Some <==> tunes(*cfg) && (is_ssh ==> host.len() > 0)
            &&& r matches Some(j) ==> if is_ssh {
                runs(
                    j,
                    "ssh"@,
                    ssh_args(
                        host,
                        "sudo -n "@ + cfg.remote_bin@ + " tune --profile "@ + cfg.tune_profile@,
                    ),
                )
            } else {
                runs(
                    j,
                    "sudo"@,
                    seq!["-n"@, cfg.local_bin@, "tune"@, "--profile"@, cfg.tune_profile@],
                )
            }
        }),
{
    if same(cfg.tune_profile.as_str(), "leave") || cfg.tune_profile.as_str().is_empty() {
        return None;
    }
    let (is_ssh, host) = if node_b {
        (cfg.b_ssh, cfg.b_host.as_str())
    } else {
        (cfg.a_ssh, cfg.a_host.as_str())
    };
    if is_ssh {
        if host.is_empty() {
            return None;
        }
        return Some(
            ssh(
                host,
                "sudo -n ".to_owned().concat(cfg.remote_bin.as_str()).concat(
                    " tune --profile ",
                ).concat(cfg.tune_profile.as_str()).as_str(),
            ),
        );
    }
    let args = texts(
        ["-n", cfg.local_bin.as_str(), "tune", "--profile", cfg.tune_profile.as_str()],
    );
    assert(views(args@) =~= seq![
        "-n"@,
        cfg.local_bin@,
        "tune"@,
        "--profile"@,
        cfg.tune_profile@,
    ]);
    Some(Job { program: "sudo".to_owned(), args })
}

pub open spec fn serve_command(cfg: Config) -> Seq<char> {
    "pkill -x linkbench 2>/dev/null; sleep 0.2; nohup "@ + cfg.remote_bin@ + " serve --port "@
        + dec(cfg.port as nat) + " --region-mb "@ + dec(cfg.region_mb as nat)
        + " >/tmp/linkbench-serve.log 2>&1 </dev/null & sleep 0.5; pgrep -x linkbench >/dev/null && echo SERVER_UP || (echo SERVER_FAILED; cat /tmp/linkbench-serve.log)"@
}

/// Start the server on node B. On an SSH node the command reports whether the
/// server came up; on this machine it is the server itself.
pub fn server_job(cfg: &Config) -> (r: Result<Job, String>)
    ensures
        cfg.b_ssh && cfg.b_host@.len() == 0 ==> (r matches Err(e) && e@
            == "node B SSH target is empty"@),
        cfg.b_ssh && cfg.b_host@.len() > 0 ==> (r matches Ok(j) && runs(
            j,
            "ssh"@,
            ssh_args(cfg.b_host@, serve_command(*cfg)),
        )),
        !cfg.b_ssh ==> (r matches Ok(j) && runs(
            j,
            cfg.local_bin@,
            seq![
                "serve"@,
                "--port"@,
                dec(cfg.port as nat),
                "--region-mb"@,
                dec(cfg.region_mb as nat),
            ],
        )),
{
    let port = decimal(cfg.port as u64);
    let region = decimal(cfg.region_mb as u64);
    if cfg.b_ssh {
        if cfg.b_host.as_str().is_empty() {
            return Err("node B SSH target is empty".to_owned());
        }
        let start = "pkill -x linkbench 2>/dev/null; sleep 0.2; nohup ".to_owned().concat(
            cfg.remote_bin.as_str(),
        ).concat(" serve --port ").concat(port.as_str()).concat(" --region-mb ").concat(
            region.as_str(),
        ).concat(
            " >/tmp/linkbench-serve.log 2>&1 </dev/null & sleep 0.5; pgrep -x linkbench >/dev/null && echo SERVER_UP || (echo SERVER_FAILED; cat /tmp/linkbench-serve.log)",
        );
        return Ok(ssh(cfg.b_host.as_str(), start.as_str()));
    }
    let args = texts(["serve", "--port", port.as_str(), "--region-mb", region.as_str()]);
    assert(views(args@) =~= seq![
        "serve"@,
        "--port"@,
        dec(cfg.port as nat),
        "--region-mb"@,
        dec(cfg.region_mb as nat),
    ]);
    Ok(Job { program: cfg.local_bin.clone(), args })
}

/// Whether the server came up, from what the start command printed.
pub fn server_started(host: &str, out: &str) -> (r: Result<(), String>)
    ensures
        r is Ok <==> mentions(out@, "SERVER_UP"@),
        r matches Err(e) ==> e@ == "server failed to start on "@ + host@ + ": "@ + trim(out@),
{
    if contains(out, "SERVER_UP") {
        Ok(())
    } else {
        Err(
            "server failed to start on ".to_owned().concat(host).concat(": ").concat(
                trimmed(out).as_str(),
            ),
        )
    }
}

/// The address to benchmark: the one chosen, else B's host.
pub open spec fn target_of(cfg: Config) -> Seq<char> {
    if cfg.data_addr@.len() > 0 {
        cfg.data_addr@
    } else if cfg.b_ssh {
        host_in(cfg.b_host@)
    } else {
        "127.0.0.1"@
    }
}

pub fn target(cfg: &Config) -> (r: String)
    ensures
        r@ == target_of(*cfg),
{
    if !cfg.data_addr.as_str().is_empty() {
        cfg.data_addr.clone()
    } else if cfg.b_ssh {
        ssh_host_part(cfg.b_host.as_str())
    } else {
        "127.0.0.1".to_owned()
    }
}

pub open spec fn client_line(cfg: Config) -> Seq<char> {
    "run "@ + target_of(cfg) + ":"@ + dec(cfg.port as nat) + " --transport "@ + cfg.transport@
        + " --duration "@ + cfg.duration@ + " --streams "@ + dec(cfg.streams as nat) + " --qps "@
        + dec(cfg.qps as nat) + " --region-mb "@ + dec(cfg.region_mb as nat) + (
    if cfg.rdma_device@.len() > 0 {
        " --device "@ + cfg.rdma_device@
    } else {
        Seq::empty()
    }) + (match parsed_int(trim(cfg.gid_index@), i32::MIN as int, i32::MAX as int) {
        Some(g) => " --gid-index "@ + dec_int(g),
        None => Seq::empty(),
    }) + (if cfg.quick {
        " --quick"@
    } else {
        Seq::empty()
    }) + " --json"@
}

/// The arguments of the client, as one line.
pub fn client_args(cfg: &Config) -> (r: String)
    ensures
        r@ == client_line(*cfg),
{
    let device = if cfg.rdma_device.as_str().is_empty() {
        String::new()
    } else {
        " --device ".to_owned().concat(cfg.rdma_device.as_str())
    };
    let gid = match parse_i64(trimmed(cfg.gid_index.as_str()).as_str()) {
        Some(g) => if -0x8000_0000 <= g && g <= 0x7fff_ffff {
            " --gid-index ".to_owned().concat(decimal_int(g).as_str())
        } else {
            String::new()
        },
        None => String::new(),
    };
    let quick = if cfg.quick {
        " --quick".to_owned()
    } else {
        String::new()
    };
    "run ".to_owned().concat(target(cfg).as_str()).concat(":").concat(
        decimal(cfg.port as u64).as_str(),
    ).concat(" --transport ").concat(cfg.transport.as_str()).concat(" --duration ").concat(
        cfg.duration.as_str(),
    ).concat(" --streams ").concat(decimal(cfg.streams as u64).as_str()).concat(" --qps ").concat(
        decimal(cfg.qps as u64).as_str(),
    ).concat(" --region-mb ").concat(decimal(cfg.region_mb as u64).as_str()).concat(
        device.as_str(),
    ).concat(gid.as_str()).concat(quick.as_str()).concat(" --json")
}

/// Run the client on node A. On this machine the caller keeps it out of the
/// history through the environment; on an SSH node the command does.
pub fn client_job(cfg: &Config) -> (r: Result<Job, String>)
    ensures
        cfg.a_ssh && cfg.a_host@.len() == 0 ==> (r matches Err(e) && e@
            == "node A SSH target is empty"@),
        cfg.a_ssh && cfg.a_host@.len() > 0 ==> (r matches Ok(j) && runs(
            j,
            "ssh"@,
            ssh_args(
                cfg.a_host@,
                "LINKBENCH_NO_HISTORY=1 "@ + cfg.remote_bin@ + " "@ + client_line(*cfg),
            ),
        )),
        !cfg.a_ssh ==> (r matches Ok(j) && runs(j, cfg.local_bin@, words(client_line(*cfg)))),
{
    let line = client_args(cfg);
    if cfg.a_ssh {
        if cfg.a_host.as_str().is_empty() {
            return Err("node A SSH target is empty".to_owned());
        }
        return Ok(
            ssh(
                cfg.a_host.as_str(),
                "LINKBENCH_NO_HISTORY=1 ".to_owned().concat(cfg.remote_bin.as_str()).concat(
                    " ",
                ).concat(line.as_str()).as_str(),
            ),
        );
    }
    Ok(Job { program: cfg.local_bin.clone(), args: split_whitespace(line.as_str()) })
}

/// Stop the server on node B once a run is over, where that takes a command.
pub fn teardown_job(cfg: &Config) -> (r: Option<Job>)
    ensures
        r is Some <==> cfg.b_ssh && cfg.b_host@.len() > 0,
        r matches Some(j) ==> runs(j, "ssh"@, ssh_args(cfg.b_host@, "pkill -x linkbench"@)),
{
    if cfg.b_ssh && !cfg.b_host.as_str().is_empty() {
        Some(ssh(cfg.b_host.as_str(), "pkill -x linkbench"))
    } else {
        None
    }
}

// --------------------------------------------------------------------- plan

/// One step of a run.
#[derive(Debug)]
pub enum Step {
    /// Copy the binary to this host; a failure ends the run.
    Deploy(String),
    /// Apply the tuning profile on node A or B; a failure is only logged.
    Tune { node_b: bool },
    /// Start the server on node B; a failure ends the run.
    Serve,
    /// Run the client on node A; a failure ends the run.
    Run,
}

/// What a step is.
pub enum Doing {
    Deploy(Seq<char>),
    Tune { node_b: bool },
    Serve,
    Run,
}

pub open spec fn doing(s: Step) -> Doing {
    match s {
        Step::Deploy(h) => Doing::Deploy(h@),
        Step::Tune { node_b } => Doing::Tune { node_b },
        Step::Serve => Doing::Serve,
        Step::Run => Doing::Run,
    }
}

pub open spec fn doings(s: Seq<Step>) -> Seq<Doing> {
    s.map_values(|x: Step| doing(x))
}

/// Both nodes are up for tuning wherever a profile is chosen; a node that cannot
/// be reached has nothing to run then.
pub open spec fn tunings(cfg: Config) -> Seq<Doing> {
    if tunes(cfg) {
        seq![Doing::Tune { node_b: false }, Doing::Tune { node_b: true }]
    } else {
        Seq::empty()
    }
}

pub open spec fn serving() -> Seq<Doing> {
    seq![Doing::Serve, Doing::Run]
}

pub open spec fn deploying(cfg: Config) -> Seq<Doing> {
    deploy_hosts(cfg).map_values(|h: Seq<char>| Doing::Deploy(h))
}

/// The steps of a run, in order: copy the binary, tune both nodes, start the
/// server, run the client.
pub open spec fn plan_of(cfg: Config) -> Seq<Doing> {
    deploying(cfg) + tunings(cfg) + serving()
}

pub fn run_plan(cfg: &Config) -> (r: Vec<Step>)
    ensures
        doings(r@) == plan_of(*cfg),
{
    let mut plan: Vec<Step> = Vec::new();
    let hosts = deploy_targets(cfg);
    let n = hosts.len();
    let mut i: usize = 0;
    while i < n
        invariant
            i <= n,
            n == hosts@.len(),
            views(hosts@) == deploy_hosts(*cfg),
            plan@.len() == i,
            forall|k: int|
                #![trigger plan@[k]]
                0 <= k < i ==> doing(plan@[k]) == Doing::Deploy(hosts@[k]@),
        decreases n - i,
    {
        plan.push(Step::Deploy(hosts[i].clone()));
        i += 1;
    }
    assert(views(hosts@).len() == hosts@.len());
    assert(doings(plan@) =~= deploying(*cfg)) by {
        assert forall|k: int| 0 <= k < n implies doings(plan@)[k] == deploying(*cfg)[k] by {
            assert(doing(plan@[k]) == Doing::Deploy(hosts@[k]@));
            assert(views(hosts@)[k] == hosts@[k]@);
        }
    }
    let ghost had = doings(plan@);
    if !same(cfg.tune_profile.as_str(), "leave") && !cfg.tune_profile.as_str().is_empty() {
        plan.push(Step::Tune { node_b: false });
        plan.push(Step::Tune { node_b: true });
    }
    let ghost tuned = had + tunings(*cfg);
    assert(doings(plan@) =~= tuned);
    plan.push(Step::Serve);
    plan.push(Step::Run);
    assert(doings(plan@) =~= tuned + serving());
    plan
}

/// The client never runs before the server was started, and nothing runs after
/// it.
pub proof fn law_server_comes_first(cfg: Config, i: int)
    requires
        0 <= i < plan_of(cfg).len(),
        plan_of(cfg)[i] is Run,
    ensures
        i == plan_of(cfg).len() - 1,
        i > 0 && plan_of(cfg)[i - 1] is Serve,
{
    let d = deploying(cfg).len() as int;
    let t = tunings(cfg).len() as int;
    assert(plan_of(cfg) =~= deploying(cfg) + tunings(cfg) + serving());
    if i < d {
        assert(plan_of(cfg)[i] == deploying(cfg)[i]);
    } else if i < d + t {
        assert(plan_of(cfg)[i] == tunings(cfg)[i - d]);
    } else {
        assert(plan_of(cfg)[i] == serving()[i - d - t]);
        assert(plan_of(cfg)[i - 1] == serving()[i - 1 - d - t]);
    }
}

/// A run goes on behind a step that succeeded, and behind tuning in any case.
pub open spec fn goes_on(step: Doing, succeeded: bool) -> bool {
    succeeded || step is Tune
}

/// Whether the run goes on, from how a step went; the error that ends it where
/// not. Tuning that failed is only logged.
pub fn after_step(step: &Step, ran: Result<(), String>) -> (r: Result<(), String>)
    ensures
        r is Ok <==> goes_on(doing(*step), ran is Ok),
        r matches Err(e) ==> (match *step {
            Step::Deploy(host) => e@ == "deploy to "@ + host@ + " failed: "@ + ran->Err_0@,
            _ => e@ == ran->Err_0@,
        }),
{
    match (step, ran) {
        (_, Ok(())) => Ok(()),
        (Step::Tune { .. }, Err(_)) => Ok(()),
        (Step::Deploy(host), Err(why)) => Err(deploy_failed(host.as_str(), why.as_str())),
        (_, Err(why)) => Err(why),
    }
}

/// The run comes to step `i`: all steps before it let it go on.
pub open spec fn reached(plan: Seq<Doing>, succeeded: Seq<bool>, i: int) -> bool {
    forall|k: int| 0 <= k < i ==> goes_on(#[trigger] plan[k], succeeded[k])
}

/// The client is run exactly where every copy that was to be made succeeded and
/// the server started, however tuning went.
pub proof fn law_client_runs_where_prepared(cfg: Config, succeeded: Seq<bool>)
    requires
        succeeded.len() == plan_of(cfg).len(),
    ensures
        plan_of(cfg).last() is Run,
        reached(plan_of(cfg), succeeded, plan_of(cfg).len() - 1) <==> forall|k: int|
            0 <= k < plan_of(cfg).len() && (plan_of(cfg)[k] is Deploy || plan_of(cfg)[k] is Serve)
                ==> #[trigger] succeeded[k],
{
    let plan = plan_of(cfg);
    let n = plan.len() as int;
    assert(plan[n - 1] == serving()[1]);
    if reached(plan, succeeded, n - 1) {
        assert forall|k: int| 0 <= k < n && (plan[k] is Deploy || plan[k] is Serve) implies
            #[trigger] succeeded[k] by {
            assert(goes_on(plan[k], succeeded[k]));
        }
    }
    if forall|k: int|
        0 <= k < n && (plan[k] is Deploy || plan[k] is Serve) ==> #[trigger] succeeded[k] {
        assert forall|k: int| 0 <= k < n - 1 implies goes_on(#[trigger] plan[k], succeeded[k]) by {
            law_server_comes_first(cfg, n - 1);
            if plan[k] is Run {
                law_server_comes_first(cfg, k);
            }
            assert(!(plan[k] is Deploy || plan[k] is Serve) || succeeded[k]);
        }
    }
}

// ---------------------------------------------------------------------- log

pub open spec fn node_name(node_b: bool) -> Seq<char> {
    if node_b {
        "B"@
    } else {
        "A"@
    }
}

fn node_letter(node_b: bool) -> (r: &'static str)
    ensures
        r@ == node_name(node_b),
{
    if node_b {
        "B"
    } else {
        "A"
    }
}

/// The status line from a step on; tuning node B goes on under that of node A.
pub fn step_status(cfg: &Config, step: &Step) -> (r: Option<String>)
    ensures
        match *step {
            Step::Deploy(host) => r is Some && r->0@ == "deploying binary to "@ + host@ + "…"@,
            Step::Tune { node_b } => if node_b {
                r is None
            } else {
                r is Some && r->0@ == "applying cpu tuning profile "@ + cfg.tune_profile@ + "…"@
            },
            Step::Serve => r is Some && r->0@ == "starting server on node B…"@,
            Step::Run => r is Some && r->0@ == "running benchmark…"@,
        },
{
    match step {
        Step::Deploy(host) => Some(
            "deploying binary to ".to_owned().concat(host.as_str()).concat("…"),
        ),
        Step::Tune { node_b } => if *node_b {
            None
        } else {
            Some(
                "applying cpu tuning profile ".to_owned().concat(
                    cfg.tune_profile.as_str(),
                ).concat("…"),
            )
        },
        Step::Serve => Some("starting server on node B…".to_owned()),
        Step::Run => Some("running benchmark…".to_owned()),
    }
}

/// What is logged as the binary is copied to a host.
pub fn deploy_log(cfg: &Config, host: &str) -> (r: String)
    ensures
        r@ == "scp "@ + cfg.local_bin@ + " "@ + host@ + ":"@ + cfg.remote_bin@,
{
    "scp ".to_owned().concat(cfg.local_bin.as_str()).concat(" ").concat(host).concat(":").concat(
        cfg.remote_bin.as_str(),
    )
}

/// The error that ends a run whose binary could not be copied.
pub fn deploy_failed(host: &str, why: &str) -> (r: String)
    ensures
        r@ == "deploy to "@ + host@ + " failed: "@ + why@,
{
    "deploy to ".to_owned().concat(host).concat(" failed: ").concat(why)
}

/// What is logged of tuning a node: the last line that it printed, or why it
/// failed. Tuning that printed nothing is passed over.
pub fn tuning_log(node_b: bool, ran: &Result<String, String>) -> (r: Option<String>)
    ensures
        match *ran {
            Ok(out) => if lines_of(out@).len() > 0 {
                r is Some && r->0@ == "node "@ + node_name(node_b) + " tuning: "@ + lines_of(
                    out@,
                ).last()
            } else {
                r is None
            },
            Err(why) => r is Some && r->0@ == "node "@ + node_name(node_b)
                + " tuning FAILED (needs passwordless sudo): "@ + why@,
        },
{
    let node = "node ".to_owned().concat(node_letter(node_b));
    match ran {
        Ok(out) => {
            let all = lines(out.as_str());
            let n = all.len();
            assert(views(all@).len() == n);
            if n == 0 {
                return None;
            }
            assert(views(all@).last() == all@[n - 1]@);
            Some(node.concat(" tuning: ").concat(all[n - 1].as_str()))
        },
        Err(why) => Some(
            node.concat(" tuning FAILED (needs passwordless sudo): ").concat(why.as_str()),
        ),
    }
}

/// What is said once the sudo script is on an SSH node.
pub fn staged_remote(host: &str) -> (r: String)
    ensures
        r@ == "staged — now run on "@ + host@
            + ":  bash ~/toggle-passwordless-sudo.sh   then re-probe"@,
{
    "staged — now run on ".to_owned().concat(host).concat(
        ":  bash ~/toggle-passwordless-sudo.sh   then re-probe",
    )
}

/// What is said once the sudo script is on this machine.
pub fn staged_local(path: &str) -> (r: String)
    ensures
        r@ == "staged — now run:  bash "@ + path@ + "   then re-probe"@,
{
    "staged — now run:  bash ".to_owned().concat(path).concat("   then re-probe")
}

// -------------------------------------------------------------------- batch

/// What a configuration says.
pub open spec fn same_setup(x: Config, y: Config) -> bool {
    &&& x.a_ssh == y.a_ssh && x.a_host@ == y.a_host@ && x.b_ssh == y.b_ssh && x.b_host@ == y.b_host@
    &&& x.quick == y.quick && x.local_bin@ == y.local_bin@ && x.remote_bin@ == y.remote_bin@
    &&& x.port == y.port && x.duration@ == y.duration@ && x.streams == y.streams && x.qps == y.qps
    &&& x.rdma_device@ == y.rdma_device@ && x.gid_index@ == y.gid_index@ && x.region_mb
        == y.region_mb
    &&& x.notes@ == y.notes@
}

/// The configuration of test `i` of a batch: the link's address in the given
/// mode. Deploy and CPU tuning happen only on the first run.
pub fn batch_config(cfg: &Config, i: usize, link: &LinkPair, mode: Mode) -> (r: Config)
    ensures
        same_setup(r, *cfg),
        r.data_addr@ == (match link.b_addr {
            Some(a) => a@,
            None => Seq::empty(),
        }),
        r.transport@ == mode.named(),
        r.deploy == (cfg.deploy && i == 0),
        r.tune_profile@ == if i == 0 {
            cfg.tune_profile@
        } else {
            "leave"@
        },
{
    let data_addr = match &link.b_addr {
        Some(a) => a.clone(),
        None => String::new(),
    };
    Config {
        a_ssh: cfg.a_ssh,
        a_host: cfg.a_host.clone(),
        b_ssh: cfg.b_ssh,
        b_host: cfg.b_host.clone(),
        data_addr,
        transport: mode.name().to_owned(),
        quick: cfg.quick,
        deploy: cfg.deploy && i == 0,
        local_bin: cfg.local_bin.clone(),
        remote_bin: cfg.remote_bin.clone(),
        port: cfg.port,
        duration: cfg.duration.clone(),
        streams: cfg.streams,
        qps: cfg.qps,
        rdma_device: cfg.rdma_device.clone(),
        gid_index: cfg.gid_index.clone(),
        region_mb: cfg.region_mb,
        tune_profile: if i == 0 {
            cfg.tune_profile.clone()
        } else {
            "leave".to_owned()
        },
        notes: cfg.notes.clone(),
    }
}

/// What is logged of a test of a batch that failed; the batch goes on.
pub fn batch_failed(link: &LinkPair, mode: Mode, why: &str) -> (r: String)
    ensures
        r@ == "link "@ + short_of(*link, mode) + " FAILED: "@ + why@,
{
    "link ".to_owned().concat(link.short(mode).as_str()).concat(" FAILED: ").concat(why)
}

/// After the first test of a batch nothing is copied and nothing is tuned.
pub proof fn law_batch_prepares_once(later: Config, cfg: Config)
    requires
        same_setup(later, cfg),
        !later.deploy,
        later.tune_profile@ == "leave"@,
    ensures
        deploy_hosts(later).len() == 0,
        !tunes(later),
{
}

pub fn batch_status(link: &LinkPair, mode: Mode, i: usize, n: usize) -> (r: String)
    requires
        i < n,
    ensures
        r@ == "testing "@ + short_of(*link, mode) + " ("@ + dec((i + 1) as nat) + " of "@ + dec(
            n as nat,
        ) + ")…"@,
{
    "testing ".to_owned().concat(link.short(mode).as_str()).concat(" (").concat(
        decimal((i + 1) as u64).as_str(),
    ).concat(" of ").concat(decimal(n as u64).as_str()).concat(")…")
}

/// The binary is copied to exactly the nodes that are reached over SSH and have a
/// target, and to none where copying is switched off; node A comes first.
pub proof fn law_binary_goes_to_ssh_nodes(cfg: Config)
    ensures
        ({
            let to_a = cfg.deploy && cfg.a_ssh && cfg.a_host@.len() > 0;
            let to_b = cfg.deploy && cfg.b_ssh && cfg.b_host@.len() > 0;
            let hosts = deploy_hosts(cfg);
            &&& hosts.len() == (if to_a {
                1int
            } else {
                0
            }) + (if to_b {
                1int
            } else {
                0
            })
            &&& to_a ==> hosts[0] == cfg.a_host@
            &&& to_b ==> hosts[hosts.len() - 1] == cfg.b_host@
        }),
{
}

/// The plan of a run: first a copy to each host that gets one, then, where a
/// profile was chosen, tuning of A and of B, then the server, then the client, each
/// once.
pub proof fn law_plan_is_in_order(cfg: Config)
    ensures
        ({
            let plan = plan_of(cfg);
            let d = deploy_hosts(cfg).len() as int;
            let tuned = cfg.tune_profile@ != "leave"@ && cfg.tune_profile@.len() > 0;
            let t: int = if tuned {
                2
            } else {
                0
            };
            &&& plan.len() == d + t + 2
            &&& forall|k: int|
                0 <= k < d ==> #[trigger] plan[k] == Doing::Deploy(deploy_hosts(cfg)[k])
            &&& tuned ==> plan[d] == (Doing::Tune { node_b: false }) && plan[d + 1] == (
            Doing::Tune { node_b: true })
            &&& plan[d + t] is Serve
            &&& plan[d + t + 1] is Run
        }),
{
    let d = deploying(cfg);
    let t = tunings(cfg);
    assert(plan_of(cfg) =~= d + t + serving());
    assert(plan_of(cfg)[(d.len() + t.len()) as int] == serving()[0]);
    assert(plan_of(cfg)[(d.len() + t.len()) as int + 1] == serving()[1]);
}

/// The host of a target is what follows its last `@`, and all of it where there is
/// none.
pub proof fn law_host_follows_the_user(user: Seq<char>, host: Seq<char>)
    requires
        !host.contains('@'),
    ensures
        host_in(user + seq!['@'] + host) == host,
        host_in(host) == host,
{
    let t = user + seq!['@'] + host;
    let at = user.len() as int;
    crate::scan::lemma_last_pos(t, '@');
    crate::scan::lemma_last_pos(host, '@');
    assert(t[at] == '@');
    assert forall|i: int| at < i < t.len() implies t[i] != '@' by {
        assert(t[i] == host[i - at - 1]);
        assert(host.contains(host[i - at - 1]));
    }
    assert(crate::scan::last_pos(t, '@') == at);
    assert(t.skip(at + 1) =~= host);
    if crate::scan::last_pos(host, '@') >= 0 {
        assert(host.contains(host[crate::scan::last_pos(host, '@')]));
    }
}

/// What is benchmarked: the address that was chosen, else node B's host, else this
/// machine; on the port the server was told to serve on.
pub proof fn law_client_goes_to_the_server(cfg: Config)
    ensures
        cfg.data_addr@.len() > 0 ==> target_of(cfg) == cfg.data_addr@,
        cfg.data_addr@.len() == 0 && cfg.b_ssh ==> target_of(cfg) == host_in(cfg.b_host@),
        cfg.data_addr@.len() == 0 && !cfg.b_ssh ==> target_of(cfg) == "127.0.0.1"@,
        ("run "@ + target_of(cfg) + ":"@ + dec(cfg.port as nat) + " --transport "@
            + cfg.transport@).is_prefix_of(client_line(cfg)),
        cfg.quick ==> " --quick --json"@.is_suffix_of(client_line(cfg)),
        " --json"@.is_suffix_of(client_line(cfg)),
{
    let line = client_line(cfg);
    let head = "run "@ + target_of(cfg) + ":"@ + dec(cfg.port as nat) + " --transport "@
        + cfg.transport@;
    assert(line.subrange(0, head.len() as int) =~= head);
    let n = line.len() as int;
    reveal_strlit(" --quick --json");
    reveal_strlit(" --quick");
    reveal_strlit(" --json");
    assert(line.subrange(n - 7, n) =~= " --json"@);
    if cfg.quick {
        assert(" --quick"@ + " --json"@ =~= " --quick --json"@);
        assert(line.subrange(n - 15, n) =~= " --quick"@ + " --json"@);
    }
}

/// The two ends of a thunderbolt link get different addresses.
pub proof fn law_ends_have_addresses_of_their_own()
    ensures
        tb_address(true) != tb_address(false),
        tb_address(false) == "10.111.11.1/24"@,
        tb_address(true) == "10.111.11.2/24"@,
{
    reveal_strlit("10.111.11.1/24");
    reveal_strlit("10.111.11.2/24");
    assert(tb_address(false)[10] != tb_address(true)[10]);
}

} // verus!
