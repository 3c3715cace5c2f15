//! Temperatures from /sys/class/hwmon. Two aggregate series: "sys" (hottest
//! non-NIC sensor, typically the CPU package) and "nic" (mlx5/ConnectX-style
//! adapters). Readings are in thousandths of a degree Celsius, as the kernel
//! gives them.

use crate::scan::{begins, contains, ends, ends_with, mentions, starts_with, trim, trimmed};
use crate::text::{lowercase_of, parse_i64, parsed_int, to_lowercase};
use vstd::prelude::*;

verus! {

pub struct Chip {
    pub is_nic: bool,
    pub temp_files: Vec<String>,
}

pub struct Sensors {
    pub chips: Vec<Chip>,
}

/// One hwmon directory, as listed: the text of its `name` file (empty where it
/// cannot be read) and the names of its files.
pub struct ChipListing {
    pub name: String,
    pub files: Vec<String>,
}

/// A chip with this name, trimmed and in lower case, sits on a network adapter.
pub open spec fn nic_named(lower: Seq<char>) -> bool {
    mentions(lower, "mlx"@) || mentions(lower, "ibv"@)
}

/// `name` is in lower case already.
pub fn is_nic_name(name: &str) -> (r: bool)
    ensures
        r == nic_named(name@),
{
    contains(name, "mlx") || contains(name, "ibv")
}

pub open spec fn temp_named(file: Seq<char>) -> bool {
    begins(file, "temp"@) && ends(file, "_input"@)
}

pub fn is_temp_file(file: &str) -> (r: bool)
    ensures
        r == temp_named(file@),
{
    starts_with(file, "temp") && ends_with(file, "_input")
}

/// Those of a directory's files that are temperature inputs, in the order given.
pub open spec fn temps_among(files: Seq<String>) -> Seq<String> {
    files.filter(|f: String| temp_named(f@))
}

fn temp_files(files: &Vec<String>) -> (r: Vec<String>)
    ensures
        r@ == temps_among(files@),
{
    let mut r: Vec<String> = Vec::new();
    let n = files.len();
    let mut i: usize = 0;
    while i < n
        invariant
            i <= n,
            n == files@.len(),
            r@ == temps_among(files@.take(i as int)),
        decreases n - i,
    {
        proof {
            assert(files@.take(i + 1).drop_last() =~= files@.take(i as int));
            reveal(Seq::filter);
        }
        if is_temp_file(files[i].as_str()) {
            r.push(files[i].clone());
        }
        i += 1;
    }
    assert(files@.take(n as int) =~= files@);
    r
}

/// The chip a listing stands for.
pub open spec fn reads_chip(c: Chip, l: ChipListing) -> bool {
    c.is_nic == nic_named(lowercase_of(trim(l.name@))) && c.temp_files@ == temps_among(l.files@)
}

pub open spec fn has_temps(l: ChipListing) -> bool {
    temps_among(l.files@).len() > 0
}

/// `chips` are those of the listed ones that have a temperature input.
pub open spec fn discovered(chips: Seq<Chip>, listing: Seq<ChipListing>) -> bool
    decreases listing.len(),
{
    if listing.len() == 0 {
        chips.len() == 0
    } else if has_temps(listing.last()) {
        chips.len() > 0 && reads_chip(chips.last(), listing.last()) && discovered(
            chips.drop_last(),
            listing.drop_last(),
        )
    } else {
        discovered(chips, listing.drop_last())
    }
}

/// A temperature that a sensor can plausibly report.
pub open spec fn plausible(milli: int) -> bool {
    -50_000 <= milli <= 150_000
}

/// What the text of an input says, where it is a plausible temperature.
pub open spec fn temp_of(text: Option<String>) -> Option<int> {
    match text {
        Some(s) => match parsed_int(trim(s@), i64::MIN as int, i64::MAX as int) {
            Some(v) => if plausible(v) {
                Some(v)
            } else {
                None
            },
            None => None,
        },
        None => None,
    }
}

/// The higher of a temperature so far and a further one.
pub open spec fn hotter(so_far: Option<int>, t: Option<int>) -> Option<int> {
    match (so_far, t) {
        (Some(a), Some(b)) => Some(
            if a < b {
                b
            } else {
                a
            },
        ),
        (None, t) => t,
        (a, None) => a,
    }
}

/// The hottest of one chip's inputs.
pub open spec fn hottest(texts: Seq<Option<String>>) -> Option<int>
    decreases texts.len(),
{
    if texts.len() == 0 {
        None
    } else {
        hotter(hottest(texts.drop_last()), temp_of(texts.last()))
    }
}

/// The hottest input over the chips of one class.
pub open spec fn hottest_of(
    chips: Seq<Chip>,
    texts: Seq<Vec<Option<String>>>,
    nic: bool,
) -> Option<int>
    decreases texts.len(),
{
    if texts.len() == 0 {
        None
    } else {
        let before = hottest_of(chips, texts.drop_last(), nic);
        if chips[texts.len() - 1].is_nic == nic {
            hotter(before, hottest(texts.last()@))
        } else {
            before
        }
    }
}

pub open spec fn as_int(t: Option<i64>) -> Option<int> {
    match t {
        Some(v) => Some(v as int),
        None => None,
    }
}

fn temp_read(text: &Option<String>) -> (r: Option<i64>)
    ensures
        as_int(r) == temp_of(*text),
{
    match text {
        Some(s) => match parse_i64(trimmed(s.as_str()).as_str()) {
            Some(v) => if -50_000 <= v && v <= 150_000 {
                Some(v)
            } else {
                None
            },
            None => None,
        },
        None => None,
    }
}

fn higher(so_far: Option<i64>, t: Option<i64>) -> (r: Option<i64>)
    ensures
        as_int(r) == hotter(as_int(so_far), as_int(t)),
{
    match (so_far, t) {
        (Some(a), Some(b)) => Some(
            if a < b {
                b
            } else {
                a
            },
        ),
        (None, t) => t,
        (a, None) => a,
    }
}

fn hottest_input(texts: &Vec<Option<String>>) -> (r: Option<i64>)
    ensures
        as_int(r) == hottest(texts@),
{
    let mut r: Option<i64> = None;
    let n = texts.len();
    let mut i: usize = 0;
    while i < n
        invariant
            i <= n,
            n == texts@.len(),
            as_int(r) == hottest(texts@.take(i as int)),
        decreases n - i,
    {
        proof {
            assert(texts@.take(i + 1).drop_last() =~= texts@.take(i as int));
        }
        r = higher(r, temp_read(&texts[i]));
        i += 1;
    }
    assert(texts@.take(n as int) =~= texts@);
    r
}

proof fn lemma_hottest_of_prefix(
    chips: Seq<Chip>,
    texts: Seq<Vec<Option<String>>>,
    nic: bool,
    i: int,
)
    requires
        0 <= i < texts.len(),
    ensures
        hottest_of(chips, texts.take(i + 1), nic) == if chips[i].is_nic == nic {
            hotter(hottest_of(chips, texts.take(i), nic), hottest(texts[i]@))
        } else {
            hottest_of(chips, texts.take(i), nic)
        },
{
    assert(texts.take(i + 1).drop_last() =~= texts.take(i));
}

impl Sensors {
    /// The chips worth sampling among the listed hwmon directories.
    pub fn discover(listing: &Vec<ChipListing>) -> (r: Sensors)
        ensures
            discovered(r.chips@, listing@),
    {
        let mut chips: Vec<Chip> = Vec::new();
        let n = listing.len();
        let mut i: usize = 0;
        while i < n
            invariant
                i <= n,
                n == listing@.len(),
                discovered(chips@, listing@.take(i as int)),
            decreases n - i,
        {
            proof {
                assert(listing@.take(i + 1).drop_last() =~= listing@.take(i as int));
            }
            let l = &listing[i];
            let files = temp_files(&l.files);
            if files.len() > 0 {
                let lower = to_lowercase(trimmed(l.name.as_str()).as_str());
                let ghost had = chips@;
                chips.push(Chip { is_nic: is_nic_name(lower.as_str()), temp_files: files });
                assert(chips@.drop_last() =~= had);
            }
            i += 1;
        }
        assert(listing@.take(n as int) =~= listing@);
        Sensors { chips }
    }

    /// (hottest non-NIC, hottest NIC) — None where nothing readable. `texts`
    /// holds, per chip, what each of its inputs reads (None where it cannot be
    /// read).
    pub fn sample(&self, texts: &Vec<Vec<Option<String>>>) -> (r: (Option<i64>, Option<i64>))
        requires
            texts@.len() == self.chips@.len(),
        ensures
            as_int(r.0) == hottest_of(self.chips@, texts@, false),
            as_int(r.1) == hottest_of(self.chips@, texts@, true),
    {
        let mut sys: Option<i64> = None;
        let mut nic: Option<i64> = None;
        let n = texts.len();
        let mut i: usize = 0;
        while i < n
            invariant
                i <= n,
                n == texts@.len(),
                texts@.len() == self.chips@.len(),
                as_int(sys) == hottest_of(self.chips@, texts@.take(i as int), false),
                as_int(nic) == hottest_of(self.chips@, texts@.take(i as int), true),
            decreases n - i,
        {
            proof {
                lemma_hottest_of_prefix(self.chips@, texts@, false, i as int);
                lemma_hottest_of_prefix(self.chips@, texts@, true, i as int);
            }
            let t = hottest_input(&texts[i]);
            if self.chips[i].is_nic {
                nic = higher(nic, t);
            } else {
                sys = higher(sys, t);
            }
            i += 1;
        }
        assert(texts@.take(n as int) =~= texts@);
        (sys, nic)
    }
}

/// A chip without a temperature input is never sampled.
pub proof fn law_sampled_chips_have_inputs(chips: Seq<Chip>, listing: Seq<ChipListing>)
    requires
        discovered(chips, listing),
    ensures
        chips.len() <= listing.len(),
        forall|i: int| 0 <= i < chips.len() ==> (#[trigger] chips[i]).temp_files@.len() > 0,
    decreases listing.len(),
{
    if listing.len() > 0 {
        if has_temps(listing.last()) {
            law_sampled_chips_have_inputs(chips.drop_last(), listing.drop_last());
            assert forall|i: int| 0 <= i < chips.len() implies (#[trigger] chips[i]).temp_files@.len()
                > 0 by {
                if i < chips.len() - 1 {
                    assert(chips.drop_last()[i] == chips[i]);
                }
            }
        } else {
            law_sampled_chips_have_inputs(chips, listing.drop_last());
        }
    }
}

/// A sample is a plausible temperature.
pub proof fn law_samples_are_plausible(texts: Seq<Option<String>>)
    ensures
        hottest(texts) matches Some(t) ==> plausible(t),
    decreases texts.len(),
{
    if texts.len() > 0 {
        law_samples_are_plausible(texts.drop_last());
    }
}

/// The input at `k` of chip `c` reads `v`, in thousandths of a degree, which a
/// sensor can report.
pub open spec fn reads_as(texts: Seq<Vec<Option<String>>>, c: int, k: int, v: int) -> bool {
    &&& 0 <= c < texts.len() && 0 <= k < texts[c]@.len()
    &&& texts[c]@[k] is Some
    &&& parsed_int(trim(texts[c]@[k]->0@), i64::MIN as int, i64::MAX as int) == Some(v)
    &&& -50_000 <= v <= 150_000
}

/// A sample is the highest of what the chips of its class read: some input of
/// them reads it, no input of them reads more, and there is none exactly where
/// nothing that a sensor can report was read.
pub proof fn law_sample_is_the_highest(
    chips: Seq<Chip>,
    texts: Seq<Vec<Option<String>>>,
    nic: bool,
)
    requires
        texts.len() <= chips.len(),
    ensures
        hottest_of(chips, texts, nic) matches Some(t) ==> exists|c: int, k: int| #[trigger]
            reads_as(texts, c, k, t) && chips[c].is_nic == nic,
        forall|c: int, k: int, v: int| #[trigger]
            reads_as(texts, c, k, v) && chips[c].is_nic == nic ==> (hottest_of(
                chips,
                texts,
                nic,
            ) matches Some(t) && v <= t),
    decreases texts.len(),
{
    if texts.len() > 0 {
        let rest = texts.drop_last();
        let last = texts.len() - 1;
        law_sample_is_the_highest(chips, rest, nic);
        lemma_hottest_input(texts.last()@);
        assert forall|c: int, k: int, v: int| #[trigger]
            reads_as(texts, c, k, v) && chips[c].is_nic == nic implies (hottest_of(
            chips,
            texts,
            nic,
        ) matches Some(t) && v <= t) by {
            if c < last {
                assert(rest[c] == texts[c]);
                assert(reads_as(rest, c, k, v));
            } else {
                assert(input_reads(texts.last()@, k, v));
            }
        }
        if let Some(t) = hottest_of(chips, texts, nic) {
            if hottest_of(chips, rest, nic) == Some(t) {
                let (c, k) = choose|c: int, k: int| #[trigger]
                    reads_as(rest, c, k, t) && chips[c].is_nic == nic;
                assert(rest[c] == texts[c]);
                assert(reads_as(texts, c, k, t));
            } else {
                let k = choose|k: int| #[trigger] input_reads(texts.last()@, k, t);
                assert(reads_as(texts, last, k, t));
            }
        }
    }
}

pub open spec fn input_reads(texts: Seq<Option<String>>, k: int, v: int) -> bool {
    &&& 0 <= k < texts.len()
    &&& texts[k] is Some
    &&& parsed_int(trim(texts[k]->0@), i64::MIN as int, i64::MAX as int) == Some(v)
    &&& -50_000 <= v <= 150_000
}

proof fn lemma_hottest_input(texts: Seq<Option<String>>)
    ensures
        hottest(texts) matches Some(t) ==> exists|k: int| #[trigger] input_reads(texts, k, t),
        forall|k: int, v: int| #[trigger]
            input_reads(texts, k, v) ==> (hottest(texts) matches Some(t) && v <= t),
    decreases texts.len(),
{
    if texts.len() > 0 {
        let rest = texts.drop_last();
        let last = texts.len() - 1;
        lemma_hottest_input(rest);
        assert forall|k: int, v: int| #[trigger] input_reads(texts, k, v) implies (hottest(
            texts,
        ) matches Some(t) && v <= t) by {
            if k < last {
                assert(rest[k] == texts[k]);
                assert(input_reads(rest, k, v));
            }
        }
        if let Some(t) = hottest(texts) {
            if hottest(rest) == Some(t) {
                let k = choose|k: int| #[trigger] input_reads(rest, k, t);
                assert(rest[k] == texts[k]);
                assert(input_reads(texts, k, t));
            } else {
                assert(input_reads(texts, last, t));
            }
        }
    }
}

/// The directory has a file that is called like a temperature input.
pub open spec fn lists_input(l: ChipListing) -> bool {
    exists|k: int|
        0 <= k < l.files@.len() && begins((#[trigger] l.files@[k])@, "temp"@) && ends(
            l.files@[k]@,
            "_input"@,
        )
}

/// Each listed chip that has an input is sampled, once, and no other; those whose
/// name speaks of an adapter count as such.
pub proof fn law_chips_with_inputs_are_sampled(chips: Seq<Chip>, listing: Seq<ChipListing>)
    requires
        discovered(chips, listing),
    ensures
        chips.len() == listing.filter(|l: ChipListing| lists_input(l)).len(),
        listing.len() > 0 && lists_input(listing.last()) ==> chips.len() > 0 && (
        chips.last().is_nic <==> mentions(lowercase_of(trim(listing.last().name@)), "mlx"@)
            || mentions(lowercase_of(trim(listing.last().name@)), "ibv"@)),
    decreases listing.len(),
{
    reveal(Seq::filter);
    if listing.len() > 0 {
        let l = listing.last();
        let f = |f: String| temp_named(f@);
        l.files@.filter_lemma(f);
        if lists_input(l) {
            let k = choose|k: int|
                0 <= k < l.files@.len() && begins((#[trigger] l.files@[k])@, "temp"@) && ends(
                    l.files@[k]@,
                    "_input"@,
                );
            assert(f(l.files@[k]));
            assert(temps_among(l.files@).contains(l.files@[k]));
        }
        if has_temps(l) {
            let x = temps_among(l.files@)[0];
            assert(f(x));
            lemma_filtered_is_listed(l.files@, f, 0);
            let k = choose|k: int| 0 <= k < l.files@.len() && l.files@[k] == x;
            assert(begins(l.files@[k]@, "temp"@));
            law_chips_with_inputs_are_sampled(chips.drop_last(), listing.drop_last());
        } else {
            law_chips_with_inputs_are_sampled(chips, listing.drop_last());
        }
    }
}

proof fn lemma_filtered_is_listed(s: Seq<String>, f: spec_fn(String) -> bool, i: int)
    requires
        0 <= i < s.filter(f).len(),
    ensures
        s.contains(s.filter(f)[i]),
    decreases s.len(),
{
    reveal(Seq::filter);
    if s.len() > 0 {
        let rest = s.drop_last();
        if i < rest.filter(f).len() {
            lemma_filtered_is_listed(rest, f, i);
            let k = choose|k: int| 0 <= k < rest.len() && rest[k] == rest.filter(f)[i];
            assert(s[k] == rest[k]);
        } else {
            assert(s[s.len() - 1] == s.last());
        }
    }
}

} // verus!
