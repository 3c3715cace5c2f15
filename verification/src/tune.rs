//! CPU tuning levers that matter for link behaviour: frequency governor,
//! energy-performance preference, and cpuidle state gating. Profiles are
//! defined by exit-latency thresholds rather than state numbers, so they
//! generalize across machines.
//!
//! What is to be written where is decided here; reading sysfs and writing to it
//! is left to the caller. Everything is runtime-only and resets on reboot.

use crate::order::{arranged, sort_stable, Ordered};
use crate::scan::{
    before, begins, comes_before, contains, join, joined, mentions, starts_with, trim, trimmed,
    views,
};
use crate::text::{
    chars_of, dec, decimal, digit_char, is_digit, parse_uint, parsed_uint, same, text_of,
    texts,
};
use vstd::prelude::*;

verus! {

#[derive(Debug, Clone, Copy, PartialEq, Eq, Structural)]
pub enum Profile {
    /// powersave governor, balanced EPP, all idle states enabled.
    Default,
    /// performance governor, idle states with >100 µs exit latency off
    /// (kills the multi-hundred-µs wake-up penalty, keeps boost headroom).
    Balanced,
    /// performance governor, idle states with >10 µs exit latency off
    /// (fastest wake-up; costs some hot-path boost — for bursty RPC).
    Latency,
}

impl Profile {
    pub open spec fn named(self) -> Seq<char> {
        match self {
            Profile::Default => "default"@,
            Profile::Balanced => "balanced"@,
            Profile::Latency => "latency"@,
        }
    }

    pub fn parse(s: &str) -> (r: Option<Profile>)
        ensures
            r matches Some(p) ==> s@ == p.named(),
            forall|p: Profile| s@ == #[trigger] p.named() ==> r == Some(p),
    {
        proof {
            law_names_differ();
            assert(Profile::Default.named() == "default"@);
            assert(Profile::Balanced.named() == "balanced"@);
            assert(Profile::Latency.named() == "latency"@);
        }
        if same(s, "default") {
            Some(Profile::Default)
        } else if same(s, "balanced") {
            Some(Profile::Balanced)
        } else if same(s, "latency") {
            Some(Profile::Latency)
        } else {
            None
        }
    }

    pub fn name(&self) -> (r: String)
        ensures
            r@ == self.named(),
    {
        match self {
            Profile::Default => "default".to_owned(),
            Profile::Balanced => "balanced".to_owned(),
            Profile::Latency => "latency".to_owned(),
        }
    }
}

/// No two profiles share a name, so the name of a profile parses back to it.
pub proof fn law_names_differ()
    ensures
        forall|p: Profile, q: Profile| #[trigger] p.named() == #[trigger] q.named() ==> p == q,
{
    reveal_strlit("default");
    reveal_strlit("balanced");
    reveal_strlit("latency");
    assert("default"@[0] == 'd' && "balanced"@[0] == 'b' && "latency"@[0] == 'l');
}

#[derive(Debug, Clone)]
pub struct IdleStateInfo {
    pub name: String,
    pub latency_us: u64,
    pub disabled: bool,
}

#[derive(Debug, Clone)]
pub struct CpuTuneState {
    pub cpus: usize,
    pub governor: String,
    pub epp: String,
    pub idle_states: Vec<IdleStateInfo>,
    /// net.core.busy_read µs (socket busy-polling; 0 = off).
    pub busy_read_us: u32,
}

/// The names of the idle states that are switched off.
pub open spec fn switched_off(states: Seq<IdleStateInfo>) -> Seq<Seq<char>>
    decreases states.len(),
{
    if states.len() == 0 {
        Seq::empty()
    } else if states.last().disabled {
        switched_off(states.drop_last()).push(states.last().name@)
    } else {
        switched_off(states.drop_last())
    }
}

impl CpuTuneState {
    pub open spec fn summarized(self) -> Seq<char> {
        let off = switched_off(self.idle_states@);
        self.governor@ + "/"@ + (if self.epp@.len() == 0 {
            "-"@
        } else {
            self.epp@
        }) + " "@ + (if off.len() == 0 {
            "all-idle-on"@
        } else {
            joined(off, "+"@) + ":off"@
        }) + (if self.busy_read_us > 0 {
            " busy:"@ + dec(self.busy_read_us as nat) + "µs"@
        } else {
            Seq::empty()
        })
    }

    /// Compact one-line form for run records: "performance/performance C3:off".
    pub fn summary(&self) -> (r: String)
        ensures
            r@ == self.summarized(),
    {
        let mut off: Vec<String> = Vec::new();
        let n = self.idle_states.len();
        let mut i: usize = 0;
        while i < n
            invariant
                i <= n,
                n == self.idle_states@.len(),
                views(off@) == switched_off(self.idle_states@.take(i as int)),
            decreases n - i,
        {
            proof {
                assert(self.idle_states@.take(i + 1).drop_last() =~= self.idle_states@.take(
                    i as int,
                ));
            }
            if self.idle_states[i].disabled {
                let name = self.idle_states[i].name.clone();
                proof {
                    crate::scan::lemma_views_push(off@, name);
                }
                off.push(name);
            }
            i += 1;
        }
        assert(self.idle_states@.take(n as int) =~= self.idle_states@);
        assert(off@.len() == views(off@).len());
        let idle = if off.len() == 0 {
            "all-idle-on".to_owned()
        } else {
            join(&off, "+").concat(":off")
        };
        let epp = if self.epp.as_str().is_empty() {
            "-"
        } else {
            self.epp.as_str()
        };
        let busy = if self.busy_read_us > 0 {
            " busy:".to_owned().concat(decimal(self.busy_read_us as u64).as_str()).concat("µs")
        } else {
            String::new()
        };
        self.governor.as_str().to_owned().concat("/").concat(epp).concat(" ").concat(
            idle.as_str(),
        ).concat(busy.as_str())
    }
}

// ------------------------------------------------------------------ reading

/// A directory below the sysfs CPU root that stands for a CPU.
pub open spec fn cpu_named(name: Seq<char>) -> bool {
    begins(name, "cpu"@) && forall|i: int| 3 <= i < name.len() ==> is_digit(#[trigger] name[i])
}

pub fn is_cpu_dir(name: &str) -> (r: bool)
    ensures
        r == cpu_named(name@),
{
    if !starts_with(name, "cpu") {
        return false;
    }
    proof {
        reveal_strlit("cpu");
    }
    let v = chars_of(name);
    let n = v.len();
    let mut i: usize = 3;
    while i < n
        invariant
            3 <= i <= n,
            n == v@.len(),
            v@ == name@,
            forall|j: int| 3 <= j < i ==> is_digit(#[trigger] name@[j]),
        decreases n - i,
    {
        if !digit_char(v[i]) {
            return false;
        }
        i += 1;
    }
    true
}

/// Those of `names` that stand for CPUs, in the order given.
pub open spec fn cpus_among(names: Seq<String>) -> Seq<String> {
    names.filter(|s: String| cpu_named(s@))
}

/// The CPUs of a sysfs listing, sorted.
pub fn cpu_dirs(names: Vec<String>) -> (r: Vec<String>)
    ensures
        exists|p: Seq<int>| arranged(r@, cpus_among(names@), p),
{
    let mut kept: Vec<String> = Vec::new();
    let n = names.len();
    let mut i: usize = 0;
    while i < n
        invariant
            i <= n,
            n == names@.len(),
            kept@ == cpus_among(names@.take(i as int)),
        decreases n - i,
    {
        proof {
            assert(names@.take(i + 1).drop_last() =~= names@.take(i as int));
            reveal(Seq::filter);
        }
        if is_cpu_dir(names[i].as_str()) {
            kept.push(names[i].clone());
        }
        i += 1;
    }
    assert(names@.take(n as int) =~= names@);
    sort_stable(kept)
}

/// A directory below a CPU's `cpuidle` and the number in its name.
#[derive(Debug)]
pub struct IdleDir {
    pub number: u64,
    pub name: String,
}

/// The number of `state7` is 7; a name that has none comes behind all that do.
pub open spec fn state_number(name: Seq<char>) -> nat {
    if begins(name, "state"@) {
        match parsed_uint(name.skip(5), u64::MAX as nat) {
            Some(n) => n,
            None => u64::MAX as nat,
        }
    } else {
        u64::MAX as nat
    }
}

fn state_index(name: &str) -> (r: u64)
    ensures
        r == state_number(name@),
{
    if !starts_with(name, "state") {
        return u64::MAX;
    }
    proof {
        reveal_strlit("state");
    }
    let v = chars_of(name);
    let n = v.len();
    let digits = text_of(&v, 5, n);
    assert(digits@ =~= name@.skip(5));
    match parse_uint(digits.as_str(), u64::MAX) {
        Some(i) => i,
        None => u64::MAX,
    }
}

impl Ordered for IdleDir {
    open spec fn precedes(&self, other: &IdleDir) -> bool {
        self.number < other.number || (self.number == other.number && before(
            self.name@,
            other.name@,
        ))
    }

    proof fn lemma_order(a: &IdleDir, b: &IdleDir, c: &IdleDir) {
        String::lemma_order(&a.name, &b.name, &c.name);
    }

    fn goes_before(&self, other: &IdleDir) -> (r: bool) {
        self.number < other.number || (self.number == other.number && comes_before(
            self.name.as_str(),
            other.name.as_str(),
        ))
    }
}

/// `listed` are the directories called `names`, in the same order.
pub open spec fn numbered(listed: Seq<IdleDir>, names: Seq<String>) -> bool {
    listed.len() == names.len() && forall|i: int|
        #![trigger listed[i]]
        0 <= i < listed.len() ==> listed[i].name@ == names[i]@ && listed[i].number == state_number(
            names[i]@,
        )
}

/// The idle states of a CPU in the order of their numbers, so that each stands at
/// the position that its directory is called after.
pub fn idle_dirs(names: &Vec<String>) -> (r: Vec<IdleDir>)
    ensures
        exists|listed: Seq<IdleDir>, p: Seq<int>|
            numbered(listed, names@) && #[trigger] arranged(r@, listed, p),
{
    let mut listed: Vec<IdleDir> = Vec::new();
    let n = names.len();
    let mut i: usize = 0;
    while i < n
        invariant
            i <= n,
            n == names@.len(),
            numbered(listed@, names@.take(i as int)),
        decreases n - i,
    {
        listed.push(IdleDir { number: state_index(names[i].as_str()), name: names[i].clone() });
        i += 1;
    }
    assert(names@.take(n as int) =~= names@);
    sort_stable(listed)
}

/// What sysfs says of one idle state, as read.
pub struct IdleTexts {
    pub name: String,
    pub latency: String,
    pub disable: String,
}

/// A number as sysfs writes it; anything else counts as 0.
pub open spec fn number_or_zero(s: Seq<char>, max: nat) -> nat {
    match parsed_uint(trim(s), max) {
        Some(v) => v,
        None => 0,
    }
}

pub open spec fn reads_idle(s: IdleStateInfo, t: IdleTexts) -> bool {
    &&& s.name@ == trim(t.name@)
    &&& s.latency_us == number_or_zero(t.latency@, u64::MAX as nat)
    &&& s.disabled == (trim(t.disable@) == "1"@)
}

fn number(s: &str, max: u64) -> (r: u64)
    ensures
        r == number_or_zero(s@, max as nat),
        r <= max,
{
    match parse_uint(trimmed(s).as_str(), max) {
        Some(v) => v,
        None => 0,
    }
}

/// The tuning state, from the first CPU's files (a missing file reads as an
/// empty text).
pub fn state_from(
    cpus: usize,
    governor: &str,
    epp: &str,
    idle: &Vec<IdleTexts>,
    busy_read: &str,
) -> (r: Result<CpuTuneState, String>)
    ensures
        cpus == 0 ==> r is Err && r->Err_0@ == "no cpus found in sysfs"@,
        cpus > 0 ==> (r matches Ok(s) && s.cpus == cpus && s.governor@ == trim(governor@) && s.epp@
            == trim(epp@) && s.idle_states@.len() == idle@.len() && (forall|i: int|
            #![trigger s.idle_states@[i]]
            0 <= i < idle@.len() ==> reads_idle(s.idle_states@[i], idle@[i])) && s.busy_read_us
            == number_or_zero(busy_read@, u32::MAX as nat)),
{
    if cpus == 0 {
        return Err("no cpus found in sysfs".to_owned());
    }
    let mut idle_states: Vec<IdleStateInfo> = Vec::new();
    let n = idle.len();
    let mut i: usize = 0;
    while i < n
        invariant
            i <= n,
            n == idle@.len(),
            idle_states@.len() == i,
            forall|k: int|
                #![trigger idle_states@[k]]
                0 <= k < i ==> reads_idle(idle_states@[k], idle@[k]),
        decreases n - i,
    {
        let t = &idle[i];
        idle_states.push(
            IdleStateInfo {
                name: trimmed(t.name.as_str()),
                latency_us: number(t.latency.as_str(), u64::MAX),
                disabled: same(trimmed(t.disable.as_str()).as_str(), "1"),
            },
        );
        i += 1;
    }
    Ok(
        CpuTuneState {
            cpus,
            governor: trimmed(governor),
            epp: trimmed(epp),
            idle_states,
            busy_read_us: number(busy_read, 0xffff_ffff) as u32,
        },
    )
}

// ----------------------------------------------------------------- applying

/// What a profile stands for.
pub struct Settings {
    pub governor: &'static str,
    pub epp: &'static str,
    /// Idle states with a longer exit latency are switched off.
    pub idle_off_above_us: u64,
    /// Socket busy-polling: blocking reads spin briefly before sleeping,
    /// taking C-state exits and IRQ latency off the hot receive path.
    pub busy_us: &'static str,
}

pub open spec fn threshold(p: Profile) -> u64 {
    match p {
        Profile::Default => u64::MAX,
        Profile::Balanced => 100,
        Profile::Latency => 10,
    }
}

/// The profile switches off an idle state with this exit latency.
pub open spec fn disables(p: Profile, latency_us: u64) -> bool {
    latency_us > threshold(p)
}

pub fn settings(profile: Profile) -> (r: Settings)
    ensures
        r.idle_off_above_us == threshold(profile),
        profile is Default ==> r.governor@ == "powersave"@ && r.epp@ == "balance_performance"@
            && r.busy_us@ == "0"@,
        !(profile is Default) ==> r.governor@ == "performance"@ && r.epp@ == "performance"@
            && r.busy_us@ == "50"@,
{
    match profile {
        Profile::Default => Settings {
            governor: "powersave",
            epp: "balance_performance",
            idle_off_above_us: u64::MAX,
            busy_us: "0",
        },
        Profile::Balanced => Settings {
            governor: "performance",
            epp: "performance",
            idle_off_above_us: 100,
            busy_us: "50",
        },
        Profile::Latency => Settings {
            governor: "performance",
            epp: "performance",
            idle_off_above_us: 10,
            busy_us: "50",
        },
    }
}

/// The latency profile switches off whatever the balanced one does, and the
/// default profile switches off nothing.
pub proof fn law_profiles_are_nested(latency_us: u64)
    ensures
        disables(Profile::Balanced, latency_us) ==> disables(Profile::Latency, latency_us),
        !disables(Profile::Default, latency_us),
{
}

/// Profiles pick idle states by exit latency: balanced switches off what takes
/// more than 100 µs, latency what takes more than 10 µs, and default nothing.
pub proof fn law_profiles_go_by_exit_latency(latency_us: u64)
    ensures
        disables(Profile::Balanced, latency_us) <==> latency_us > 100,
        disables(Profile::Latency, latency_us) <==> latency_us > 10,
        !disables(Profile::Default, latency_us),
{
}

/// One write to the system.
pub enum Write {
    /// Below every CPU's directory, where the file exists; a failure ends the
    /// whole application.
    EveryCpu { rel: String, value: String },
    /// The same, but a failure is passed over (EPP rejects writes while
    /// governor=performance on amd-pstate; that is fine — performance is what
    /// we wanted).
    EveryCpuSoft { rel: String, value: String },
    /// One file; a failure is passed over.
    FileSoft { path: String, value: String },
}

pub open spec fn writes_every(w: Write, rel: Seq<char>, value: Seq<char>) -> bool {
    w matches Write::EveryCpu { rel: r, value: v } && r@ == rel && v@ == value
}

pub open spec fn writes_every_soft(w: Write, rel: Seq<char>, value: Seq<char>) -> bool {
    w matches Write::EveryCpuSoft { rel: r, value: v } && r@ == rel && v@ == value
}

pub open spec fn writes_file(w: Write, path: Seq<char>, value: Seq<char>) -> bool {
    w matches Write::FileSoft { path: p, value: v } && p@ == path && v@ == value
}

pub open spec fn idle_file(i: nat) -> Seq<char> {
    "cpuidle/state"@ + dec(i) + "/disable"@
}

/// `w` applies `profile` to a machine with these idle states: governor, EPP,
/// each idle state by its exit latency, then the two busy-polling knobs.
pub open spec fn applies(w: Seq<Write>, profile: Profile, idle: Seq<IdleStateInfo>) -> bool {
    let n = idle.len() as int;
    &&& w.len() == n + 4
    &&& writes_every(
        w[0],
        "cpufreq/scaling_governor"@,
        if profile is Default {
            "powersave"@
        } else {
            "performance"@
        },
    )
    &&& writes_every_soft(
        w[1],
        "cpufreq/energy_performance_preference"@,
        if profile is Default {
            "balance_performance"@
        } else {
            "performance"@
        },
    )
    &&& forall|i: int| 0 <= i < n ==> gates(#[trigger] w[i + 2], i, profile, idle[i])
    &&& writes_file(w[n + 2], "/proc/sys/net/core/busy_read"@, busy_text(profile))
    &&& writes_file(w[n + 3], "/proc/sys/net/core/busy_poll"@, busy_text(profile))
}

pub open spec fn gates(w: Write, i: int, profile: Profile, s: IdleStateInfo) -> bool {
    writes_every(
        w,
        idle_file(i as nat),
        if disables(profile, s.latency_us) {
            "1"@
        } else {
            "0"@
        },
    )
}

pub open spec fn busy_text(profile: Profile) -> Seq<char> {
    if profile is Default {
        "0"@
    } else {
        "50"@
    }
}

/// The file that is written, and whether below every CPU.
pub open spec fn place(w: Write) -> (bool, Seq<char>) {
    match w {
        Write::EveryCpu { rel, .. } => (true, rel@),
        Write::EveryCpuSoft { rel, .. } => (true, rel@),
        Write::FileSoft { path, .. } => (false, path@),
    }
}

/// A profile replaces the one before it whole: every profile writes the same files
/// in the same order, so nothing of an earlier one stays.
pub proof fn law_profiles_replace_each_other(
    w: Seq<Write>,
    p: Profile,
    idle: Seq<IdleStateInfo>,
    v: Seq<Write>,
    q: Profile,
    again: Seq<IdleStateInfo>,
)
    requires
        applies(w, p, idle),
        applies(v, q, again),
        idle.len() == again.len(),
    ensures
        w.len() == v.len(),
        forall|i: int| 0 <= i < w.len() ==> place(#[trigger] w[i]) == place(v[i]),
{
    assert forall|i: int| 0 <= i < w.len() implies place(#[trigger] w[i]) == place(v[i]) by {
        if 2 <= i < idle.len() + 2 {
            assert(gates(w[(i - 2) + 2], i - 2, p, idle[i - 2]));
            assert(gates(v[(i - 2) + 2], i - 2, q, again[i - 2]));
        }
    }
}

/// The default profile gives back every idle state, whatever was switched off.
pub proof fn law_default_restores_idle_states(w: Seq<Write>, idle: Seq<IdleStateInfo>, i: int)
    requires
        applies(w, Profile::Default, idle),
        0 <= i < idle.len(),
    ensures
        writes_every(w[i + 2], idle_file(i as nat), "0"@),
{
    assert(gates(w[i + 2], i, Profile::Default, idle[i]));
}

/// What applying a profile writes, in order.
pub fn apply_plan(profile: Profile, state: &CpuTuneState) -> (r: Vec<Write>)
    ensures
        applies(r@, profile, state.idle_states@),
{
    let s = settings(profile);
    let mut plan: Vec<Write> = Vec::new();
    plan.push(
        Write::EveryCpu {
            rel: "cpufreq/scaling_governor".to_owned(),
            value: s.governor.to_owned(),
        },
    );
    plan.push(
        Write::EveryCpuSoft {
            rel: "cpufreq/energy_performance_preference".to_owned(),
            value: s.epp.to_owned(),
        },
    );
    let n = state.idle_states.len();
    let mut i: usize = 0;
    while i < n
        invariant
            i <= n,
            n == state.idle_states@.len(),
            s.idle_off_above_us == threshold(profile),
            plan@.len() == i + 2,
            writes_every(plan@[0], "cpufreq/scaling_governor"@, s.governor@),
            writes_every_soft(plan@[1], "cpufreq/energy_performance_preference"@, s.epp@),
            forall|k: int|
                0 <= k < i ==> gates(#[trigger] plan@[k + 2], k, profile, state.idle_states@[k]),
        decreases n - i,
    {
        let value = if state.idle_states[i].latency_us > s.idle_off_above_us {
            "1"
        } else {
            "0"
        };
        let ghost had = plan@;
        plan.push(
            Write::EveryCpu {
                rel: "cpuidle/state".to_owned().concat(decimal(i as u64).as_str()).concat(
                    "/disable",
                ),
                value: value.to_owned(),
            },
        );
        proof {
            assert forall|k: int| 0 <= k < i + 1 implies gates(
                #[trigger] plan@[k + 2],
                k,
                profile,
                state.idle_states@[k],
            ) by {
                if k < i {
                    assert(plan@[k + 2] == had[k + 2]);
                }
            }
        }
        i += 1;
    }
    let ghost had = plan@;
    plan.push(
        Write::FileSoft {
            path: "/proc/sys/net/core/busy_read".to_owned(),
            value: s.busy_us.to_owned(),
        },
    );
    plan.push(
        Write::FileSoft {
            path: "/proc/sys/net/core/busy_poll".to_owned(),
            value: s.busy_us.to_owned(),
        },
    );
    proof {
        assert forall|k: int| 0 <= k < n implies gates(
            #[trigger] plan@[k + 2],
            k,
            profile,
            state.idle_states@[k],
        ) by {
            assert(plan@[k + 2] == had[k + 2]);
        }
    }
    plan
}

/// What is said when a write that must succeed fails.
pub fn write_failed(value: &str, path: &str) -> (r: String)
    ensures
        r@ == "write "@ + value@ + " to "@ + path@
            + " — applying tuning needs root (sudo linkbench tune …)"@,
{
    "write ".to_owned().concat(value).concat(" to ").concat(path).concat(
        " — applying tuning needs root (sudo linkbench tune …)",
    )
}

// ---------------------------------------------------------------------- NIC

/// The `ethtool -C` settings of a profile. Measured on mlx5: rx-usecs 3 /
/// rx-frames 32 keeps line-rate bandwidth while collapsing small-message p99
/// (adaptive coalescing's ramp-up is what tail-latency pays for).
pub open spec fn coalescing(profile: Profile) -> Seq<Seq<char>> {
    if profile is Default {
        seq![
            "adaptive-rx"@,
            "on"@,
            "adaptive-tx"@,
            "on"@,
            "rx-usecs"@,
            "8"@,
            "rx-frames"@,
            "128"@,
            "tx-usecs"@,
            "8"@,
            "tx-frames"@,
            "128"@,
        ]
    } else {
        seq![
            "adaptive-rx"@,
            "off"@,
            "adaptive-tx"@,
            "off"@,
            "rx-usecs"@,
            "3"@,
            "rx-frames"@,
            "32"@,
            "tx-usecs"@,
            "8"@,
            "tx-frames"@,
            "32"@,
        ]
    }
}

/// The arguments `ethtool` is run with to set a profile's interrupt coalescing.
pub fn nic_args(profile: Profile, iface: &str) -> (r: Vec<String>)
    ensures
        views(r@) == seq!["-C"@, iface@] + coalescing(profile),
{
    let r = match profile {
        Profile::Default => texts(
            [
                "-C",
                iface,
                "adaptive-rx",
                "on",
                "adaptive-tx",
                "on",
                "rx-usecs",
                "8",
                "rx-frames",
                "128",
                "tx-usecs",
                "8",
                "tx-frames",
                "128",
            ],
        ),
        _ => texts(
            [
                "-C",
                iface,
                "adaptive-rx",
                "off",
                "adaptive-tx",
                "off",
                "rx-usecs",
                "3",
                "rx-frames",
                "32",
                "tx-usecs",
                "8",
                "tx-frames",
                "32",
            ],
        ),
    };
    assert(views(r@) =~= seq!["-C"@, iface@] + coalescing(profile));
    r
}

/// What is reported of the `ethtool` run. A driver that has no coalescing at
/// all (tbnet) is not an error.
pub fn nic_result(profile: Profile, iface: &str, success: bool, stderr: &str) -> (r: Result<
    String,
    String,
>)
    ensures
        success ==> r is Ok && r->Ok_0@ == iface@ + ": coalescing set for profile "@
            + profile.named(),
        !success && mentions(stderr@, "not supported"@) ==> r is Ok && r->Ok_0@ == iface@
            + ": coalescing not supported by driver"@,
        !success && !mentions(stderr@, "not supported"@) ==> r is Err && r->Err_0@ == "ethtool -C "@
            + iface@ + " failed: "@ + trim(stderr@),
{
    if !success {
        if contains(stderr, "not supported") {
            return Ok(iface.to_owned().concat(": coalescing not supported by driver"));
        }
        return Err(
            "ethtool -C ".to_owned().concat(iface).concat(" failed: ").concat(
                trimmed(stderr).as_str(),
            ),
        );
    }
    Ok(iface.to_owned().concat(": coalescing set for profile ").concat(profile.name().as_str()))
}

/// What applying a profile comes to on any machine: every idle state is switched
/// on or off by its own exit latency alone, governor and preference are set for
/// performance but for the default profile, and so is busy-polling.
pub proof fn law_applying_a_profile(w: Seq<Write>, profile: Profile, idle: Seq<IdleStateInfo>, i: int)
    requires
        applies(w, profile, idle),
        0 <= i < idle.len(),
    ensures
        ({
            let off = match profile {
                Profile::Default => false,
                Profile::Balanced => idle[i].latency_us > 100,
                Profile::Latency => idle[i].latency_us > 10,
            };
            &&& w.len() == idle.len() + 4
            &&& w[i + 2] is EveryCpu
            &&& w[i + 2]->EveryCpu_rel@ == "cpuidle/state"@ + dec(i as nat) + "/disable"@
            &&& w[i + 2]->EveryCpu_value@ == if off {
                "1"@
            } else {
                "0"@
            }
            &&& w[0] is EveryCpu && w[0]->EveryCpu_rel@ == "cpufreq/scaling_governor"@
            &&& w[0]->EveryCpu_value@ == if profile is Default {
                "powersave"@
            } else {
                "performance"@
            }
            &&& w[1] is EveryCpuSoft
            &&& w[1]->EveryCpuSoft_value@ == if profile is Default {
                "balance_performance"@
            } else {
                "performance"@
            }
            &&& w[idle.len() as int + 2] is FileSoft && w[idle.len() as int + 3] is FileSoft
            &&& w[idle.len() as int + 2]->FileSoft_value@ == if profile is Default {
                "0"@
            } else {
                "50"@
            }
            &&& w[idle.len() as int + 3]->FileSoft_value@ == w[idle.len() as int
                + 2]->FileSoft_value@
        }),
{
    assert(gates(w[i + 2], i, profile, idle[i]));
}

/// An idle state of this name is switched off.
pub open spec fn is_off(states: Seq<IdleStateInfo>, name: Seq<char>) -> bool {
    exists|i: int|
        0 <= i < states.len() && (#[trigger] states[i]).disabled && states[i].name@ == name
}

/// The summary of a machine names each idle state that is switched off, and only
/// those.
pub proof fn law_switched_off_are_named(states: Seq<IdleStateInfo>)
    ensures
        switched_off(states).len() == states.filter(|s: IdleStateInfo| s.disabled).len(),
        forall|name: Seq<char>| #[trigger] switched_off(states).contains(name) <==> is_off(
            states,
            name,
        ),
    decreases states.len(),
{
    reveal(Seq::filter);
    if states.len() > 0 {
        let rest = states.drop_last();
        let last = states.len() - 1;
        law_switched_off_are_named(rest);
        let had = switched_off(rest);
        let all = switched_off(states);
        if states.last().disabled {
            assert(all[had.len() as int] == states.last().name@);
        }
        assert(forall|k: int| 0 <= k < had.len() ==> #[trigger] all[k] == had[k]);
        assert forall|name: Seq<char>| #[trigger] all.contains(name) <==> is_off(states, name) by {
            assert(had.contains(name) <==> is_off(rest, name));
            if all.contains(name) {
                let k = choose|k: int| 0 <= k < all.len() && all[k] == name;
                if k < had.len() {
                    assert(had[k] == name);
                    let i = choose|i: int|
                        0 <= i < rest.len() && (#[trigger] rest[i]).disabled && rest[i].name@
                            == name;
                    assert(states[i] == rest[i]);
                } else {
                    assert(states[last].disabled);
                }
            }
            if is_off(states, name) {
                let i = choose|i: int|
                    0 <= i < states.len() && (#[trigger] states[i]).disabled && states[i].name@
                        == name;
                if i < last {
                    assert(rest[i] == states[i]);
                    let k = choose|k: int| 0 <= k < had.len() && had[k] == name;
                    assert(all[k] == name);
                }
            }
        }
    }
}

/// Interrupts are coalesced adaptively by default and briefly otherwise: after 3 µs
/// or 32 frames, with adaptation off.
pub proof fn law_coalescing_of_profiles(profile: Profile)
    ensures
        ({
            let c = coalescing(profile);
            &&& c.len() == 12
            &&& c[0] == "adaptive-rx"@ && c[2] == "adaptive-tx"@ && c[4] == "rx-usecs"@ && c[6]
                == "rx-frames"@
            &&& c[1] == c[3]
            &&& profile is Default ==> c[1] == "on"@
            &&& !(profile is Default) ==> c[1] == "off"@ && c[5] == "3"@ && c[7] == "32"@
        }),
{
}

} // verus!
