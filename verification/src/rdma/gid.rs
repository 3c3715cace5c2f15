//! GIDs: parsing what sysfs shows, rendering, and the choice of an index.

use crate::scan::{
    equal_ignoring_case, lemma_trim_drops_head, lemma_trim_drops_tail, same_ignoring_case, trim,
    trim_start, trimmed,
};
use crate::text::{chars_of, decimal, hex_byte, hex_digit_of, is_digit, is_space, push_hex_byte};
use vstd::prelude::*;

verus! {

/// Port table entries that are looked at.
pub const GID_ENTRIES: usize = 16;

// ----------------------------------------------------------------- parsing

/// The value of a hexadecimal digit of either case.
pub open spec fn hex_value(c: char) -> Option<int> {
    if is_digit(c) {
        Some(c as u32 - 48)
    } else if 'a' <= c <= 'f' {
        Some(c as u32 - 87)
    } else if 'A' <= c <= 'F' {
        Some(c as u32 - 55)
    } else {
        None
    }
}

/// What two characters write in base 16: two digits, or a plus sign and one.
pub open spec fn hex_pair(a: char, b: char) -> Option<int> {
    match (hex_value(a), hex_value(b)) {
        (Some(x), Some(y)) => Some(x * 16 + y),
        (None, Some(y)) => if a == '+' {
            Some(y)
        } else {
            None
        },
        _ => None,
    }
}

/// `s` without colons.
pub open spec fn without_colons(s: Seq<char>) -> Seq<char> {
    s.filter(|c: char| c != ':')
}

/// `h` writes the bytes of `gid`, two characters each.
pub open spec fn writes_gid(h: Seq<char>, gid: Seq<u8>) -> bool {
    &&& h.len() == 32
    &&& gid.len() == 16
    &&& forall|i: int|
        0 <= i < 16 ==> hex_pair(h[2 * i], h[2 * i + 1]) == Some(#[trigger] gid[i] as int)
}

fn hex_digit_value(c: char) -> (r: Option<u8>)
    ensures
        match r {
            Some(v) => hex_value(c) == Some(v as int) && v < 16,
            None => hex_value(c) is None,
        },
{
    if '0' <= c && c <= '9' {
        Some((c as u32 - 48) as u8)
    } else if 'a' <= c && c <= 'f' {
        Some((c as u32 - 87) as u8)
    } else if 'A' <= c && c <= 'F' {
        Some((c as u32 - 55) as u8)
    } else {
        None
    }
}

fn hex_pair_value(a: char, b: char) -> (r: Option<u8>)
    ensures
        match r {
            Some(v) => hex_pair(a, b) == Some(v as int),
            None => hex_pair(a, b) is None,
        },
{
    match (hex_digit_value(a), hex_digit_value(b)) {
        (Some(x), Some(y)) => Some(x * 16 + y),
        (None, Some(y)) => if a == '+' {
            Some(y)
        } else {
            None
        },
        _ => None,
    }
}

fn drop_colons(v: &Vec<char>) -> (r: Vec<char>)
    ensures
        r@ == without_colons(v@),
{
    let ghost keep = |c: char| c != ':';
    let mut r: Vec<char> = Vec::new();
    let mut i: usize = 0;
    proof {
        reveal_with_fuel(Seq::<_>::filter, 1);
        assert(v@.take(0).filter(keep) =~= Seq::empty());
    }
    while i < v.len()
        invariant
            i <= v@.len(),
            keep == (|c: char| c != ':'),
            r@ == v@.take(i as int).filter(keep),
        decreases v@.len() - i,
    {
        let c = v[i];
        proof {
            reveal_with_fuel(Seq::<_>::filter, 1);
            assert(v@.take(i + 1).drop_last() =~= v@.take(i as int));
            assert(v@.take(i + 1).last() == c);
        }
        if c != ':' {
            r.push(c);
        }
        i += 1;
    }
    assert(v@.take(i as int) =~= v@);
    r
}

/// A GID as sysfs writes it: 32 hexadecimal digits, colons between them.
pub fn parse_sysfs_gid(s: &str) -> (r: Option<[u8; 16]>)
    ensures
        match r {
            Some(gid) => writes_gid(without_colons(trim(s@)), gid@),
            None => forall|gid: Seq<u8>| !#[trigger]
                writes_gid(without_colons(trim(s@)), gid),
        },
{
    let t = trimmed(s);
    let h = drop_colons(&chars_of(t.as_str()));
    if h.len() != 32 {
        return None;
    }
    let mut out: [u8; 16] = [0u8;16];
    let mut i: usize = 0;
    while i < 16
        invariant
            h@ == without_colons(trim(s@)),
            h@.len() == 32,
            i <= 16,
            forall|k: int|
                0 <= k < i ==> hex_pair(h@[2 * k], h@[2 * k + 1]) == Some(#[trigger] out@[k] as int),
        decreases 16 - i,
    {
        match hex_pair_value(h[2 * i], h[2 * i + 1]) {
            Some(b) => {
                out[i] = b;
            },
            None => {
                assert forall|gid: Seq<u8>| !#[trigger] writes_gid(h@, gid) by {
                    if writes_gid(h@, gid) {
                        assert(hex_pair(h@[2 * i], h@[2 * i + 1]) == Some(gid[i as int] as int));
                    }
                }
                return None;
            },
        }
        i += 1;
    }
    Some(out)
}

/// A text writes at most one GID.
pub proof fn lemma_gid_is_unique(h: Seq<char>, a: Seq<u8>, b: Seq<u8>)
    requires
        writes_gid(h, a),
        writes_gid(h, b),
    ensures
        a == b,
{
    assert forall|i: int| 0 <= i < 16 implies a[i] == b[i] by {
        assert(hex_pair(h[2 * i], h[2 * i + 1]) == Some(a[i] as int));
        assert(hex_pair(h[2 * i], h[2 * i + 1]) == Some(b[i] as int));
    }
    assert(a =~= b);
}

// --------------------------------------------------------------- rendering

/// `::ffff:0:0/96`: ten zero bytes, two of all ones, then the IPv4 address.
pub open spec fn ipv4_mapped(g: Seq<u8>) -> bool {
    &&& forall|i: int| 0 <= i < 10 ==> #[trigger] g[i] == 0
    &&& g[10] == 0xff
    &&& g[11] == 0xff
}

pub fn is_ipv4_mapped(gid: &[u8; 16]) -> (r: bool)
    ensures
        r == ipv4_mapped(gid@),
{
    let mut i: usize = 0;
    while i < 10
        invariant
            i <= 10,
            forall|k: int| 0 <= k < i ==> #[trigger] gid@[k] == 0,
        decreases 10 - i,
    {
        if gid[i] != 0 {
            assert(gid@[i as int] != 0);
            return false;
        }
        i += 1;
    }
    gid[10] == 0xff && gid[11] == 0xff
}

/// Eight groups of four hexadecimal digits up to group `n`.
pub open spec fn hex_groups(g: Seq<u8>, n: int) -> Seq<char>
    decreases n,
{
    if n <= 0 {
        Seq::empty()
    } else {
        let group = hex_byte(g[2 * n - 2]) + hex_byte(g[2 * n - 1]);
        if n == 1 {
            group
        } else {
            hex_groups(g, n - 1) + ":"@ + group
        }
    }
}

pub open spec fn gid_text(g: Seq<u8>) -> Seq<char> {
    if ipv4_mapped(g) {
        "::ffff:"@ + crate::text::dec(g[12] as nat) + "."@ + crate::text::dec(g[13] as nat) + "."@
            + crate::text::dec(g[14] as nat) + "."@ + crate::text::dec(g[15] as nat)
    } else {
        hex_groups(g, 8)
    }
}

pub fn gid_to_string(gid: &[u8; 16]) -> (r: String)
    ensures
        r@ == gid_text(gid@),
{
    if is_ipv4_mapped(gid) {
        "::ffff:".to_owned().concat(decimal(gid[12] as u64).as_str()).concat(".").concat(
            decimal(gid[13] as u64).as_str(),
        ).concat(".").concat(decimal(gid[14] as u64).as_str()).concat(".").concat(
            decimal(gid[15] as u64).as_str(),
        )
    } else {
        let mut s = String::new();
        let mut n: usize = 0;
        while n < 8
            invariant
                n <= 8,
                s@ == hex_groups(gid@, n as int),
            decreases 8 - n,
        {
            let ghost s0 = s@;
            let (a, b) = (gid[2 * n], gid[2 * n + 1]);
            if n > 0 {
                s.append(":");
            }
            push_hex_byte(&mut s, a);
            push_hex_byte(&mut s, b);
            n += 1;
            assert(s@ =~= hex_groups(gid@, n as int));
        }
        s
    }
}

/// The first `n` bytes of `g`, two digits each.
spec fn hex_run(g: Seq<u8>, n: int) -> Seq<char>
    decreases n,
{
    if n <= 0 {
        Seq::empty()
    } else {
        hex_run(g, n - 1) + hex_byte(g[n - 1])
    }
}

pub open spec fn all_space(s: Seq<char>) -> bool {
    forall|i: int| 0 <= i < s.len() ==> is_space(#[trigger] s[i])
}

/// A GID that is not an IPv4 address in disguise reads back from its text, with any
/// white space around it.
pub proof fn law_gid_reads_back(g: Seq<u8>, ahead: Seq<char>, behind: Seq<char>)
    requires
        g.len() == 16,
        !ipv4_mapped(g),
        all_space(ahead),
        all_space(behind),
    ensures
        writes_gid(without_colons(trim(ahead + gid_text(g) + behind)), g),
{
    let t = hex_groups(g, 8);
    lemma_groups(g, 8);
    lemma_hex_run(g, 16);
    lemma_trim_around(ahead, t, behind);
    lemma_trim_nothing(t);
    let h = without_colons(t);
    assert(h == hex_run(g, 16));
    assert forall|i: int| 0 <= i < 16 implies hex_pair(h[2 * i], h[2 * i + 1]) == Some(
        #[trigger] g[i] as int,
    ) by {
        lemma_hex_reads_back(g[i]);
    }
}

/// Every digit of that text counts: with one of them left out, or with one more
/// anywhere, it writes no GID at all.
pub proof fn law_gid_needs_every_digit(g: Seq<u8>, at: int, c: char)
    requires
        g.len() == 16,
        !ipv4_mapped(g),
        hex_value(c) is Some,
    ensures
        0 <= at < gid_text(g).len() && gid_text(g)[at] != ':' ==> forall|gid: Seq<u8>| !#[trigger]
            writes_gid(without_colons(trim(gid_text(g).remove(at))), gid),
        0 <= at <= gid_text(g).len() ==> forall|gid: Seq<u8>| !#[trigger]
            writes_gid(without_colons(trim(gid_text(g).insert(at, c))), gid),
{
    let t = gid_text(g);
    let keep = |c: char| c != ':';
    lemma_groups(g, 8);
    lemma_hex_run(g, 16);
    assert(without_colons(t).len() == 32);
    if 0 <= at < t.len() && t[at] != ':' {
        let (x, y) = (t.take(at), t.skip(at + 1));
        let u = t.remove(at);
        assert(t =~= x + seq![t[at]] + y);
        assert(u =~= x + y);
        lemma_one_digit(x, t[at], y);
        Seq::filter_distributes_over_add(x, y, keep);
        assert(without_colons(u).len() == 31);
        assert(u.len() > 0) by {
            u.lemma_filter_len(keep);
        }
        assert forall|i: int| 0 <= i < u.len() implies !is_space(#[trigger] u[i]) by {
            assert(u[i] == if i < at {
                t[i]
            } else {
                t[i + 1]
            });
        }
        lemma_trim_nothing(u);
    }
    if 0 <= at <= t.len() {
        let (x, y) = (t.take(at), t.skip(at));
        let u = t.insert(at, c);
        assert(t =~= x + y);
        assert(u =~= x + seq![c] + y);
        lemma_one_digit(x, c, y);
        Seq::filter_distributes_over_add(x, y, keep);
        assert(without_colons(u).len() == 33);
        assert forall|i: int| 0 <= i < u.len() implies !is_space(#[trigger] u[i]) by {
            assert(u[i] == if i < at {
                t[i]
            } else if i == at {
                c
            } else {
                t[i - 1]
            });
        }
        lemma_trim_nothing(u);
    }
}

/// A digit between two texts counts as one.
proof fn lemma_one_digit(x: Seq<char>, c: char, y: Seq<char>)
    requires
        c != ':',
    ensures
        without_colons(x + seq![c] + y).len() == without_colons(x).len() + 1 + without_colons(
            y,
        ).len(),
{
    let keep = |c: char| c != ':';
    Seq::filter_distributes_over_add(x, seq![c], keep);
    Seq::filter_distributes_over_add(x + seq![c], y, keep);
    assert(seq![c].filter(keep) =~= seq![c]) by {
        reveal_with_fuel(Seq::<_>::filter, 2);
        assert(seq![c].drop_last() =~= Seq::<char>::empty());
    }
}

/// White space around a text does not survive trimming.
proof fn lemma_trim_around(ahead: Seq<char>, t: Seq<char>, behind: Seq<char>)
    requires
        all_space(ahead),
        all_space(behind),
    ensures
        trim(ahead + t + behind) == trim(t),
    decreases ahead.len() + behind.len(),
{
    let s = ahead + t + behind;
    if behind.len() > 0 {
        let rest = behind.drop_last();
        assert(all_space(rest)) by {
            assert forall|i: int| 0 <= i < rest.len() implies is_space(#[trigger] rest[i]) by {
                assert(rest[i] == behind[i]);
            }
        }
        assert(is_space(behind[behind.len() - 1]));
        assert(s =~= (ahead + t + rest).push(behind.last()));
        lemma_trim_drops_tail(ahead + t + rest, behind.last());
        lemma_trim_around(ahead, t, rest);
    } else if ahead.len() > 0 {
        let rest = ahead.skip(1);
        assert(all_space(rest)) by {
            assert forall|i: int| 0 <= i < rest.len() implies is_space(#[trigger] rest[i]) by {
                assert(rest[i] == ahead[i + 1]);
            }
        }
        assert(is_space(ahead[0]));
        assert(s.skip(1) =~= rest + t + behind);
        lemma_trim_drops_head(s);
        lemma_trim_around(rest, t, behind);
    } else {
        assert(s =~= t);
    }
}

/// A text that begins and ends with something visible is not trimmed.
proof fn lemma_trim_nothing(t: Seq<char>)
    requires
        t.len() > 0,
        !is_space(t[0]),
        !is_space(t.last()),
    ensures
        trim(t) == t,
{
    assert(trim_start(t) == t);
}

proof fn lemma_hex_reads_back(b: u8)
    ensures
        hex_pair(hex_byte(b)[0], hex_byte(b)[1]) == Some(b as int),
{
    let (x, y) = ((b / 16) as nat, (b % 16) as nat);
    assert(hex_value(hex_digit_of(x)) == Some(x as int));
    assert(hex_value(hex_digit_of(y)) == Some(y as int));
}

/// Two digits of a byte: neither is a colon or white space.
proof fn lemma_hex_byte(b: u8)
    ensures
        hex_byte(b).len() == 2,
        without_colons(hex_byte(b)) == hex_byte(b),
        !is_space(hex_byte(b)[0]) && !is_space(hex_byte(b)[1]),
{
    let h = hex_byte(b);
    let keep = |c: char| c != ':';
    assert(h[0] != ':' && h[1] != ':');
    reveal_with_fuel(Seq::<_>::filter, 3);
    assert(h.drop_last().drop_last() =~= Seq::<char>::empty());
    assert(h.drop_last() =~= seq![h[0]]);
    assert(h.filter(keep) =~= h);
}

proof fn lemma_hex_run(g: Seq<u8>, n: int)
    requires
        0 <= n <= g.len(),
    ensures
        hex_run(g, n).len() == 2 * n,
        forall|i: int|
            #![trigger g[i]]
            0 <= i < n ==> hex_run(g, n)[2 * i] == hex_byte(g[i])[0] && hex_run(g, n)[2 * i + 1]
                == hex_byte(g[i])[1],
    decreases n,
{
    if n > 0 {
        lemma_hex_run(g, n - 1);
        lemma_hex_byte(g[n - 1]);
    }
}

/// The groups are the digits of their bytes with colons in between.
proof fn lemma_groups(g: Seq<u8>, n: int)
    requires
        1 <= n <= 8,
        g.len() == 16,
    ensures
        hex_groups(g, n).len() > 0,
        forall|i: int| 0 <= i < hex_groups(g, n).len() ==> !is_space(#[trigger] hex_groups(g, n)[i]),
        without_colons(hex_groups(g, n)) == hex_run(g, 2 * n),
    decreases n,
{
    let (a, b) = (g[2 * n - 2], g[2 * n - 1]);
    let (x, y) = (hex_byte(a), hex_byte(b));
    let keep = |c: char| c != ':';
    lemma_hex_byte(a);
    lemma_hex_byte(b);
    Seq::filter_distributes_over_add(x, y, keep);
    assert(without_colons(x + y) == x + y);
    reveal_with_fuel(hex_run, 3);
    if n == 1 {
        assert(hex_run(g, 2) =~= x + y);
    } else {
        lemma_groups(g, n - 1);
        let had = hex_groups(g, n - 1);
        reveal_strlit(":");
        assert(":"@ =~= seq![':']);
        assert(without_colons(":"@) =~= Seq::<char>::empty()) by {
            reveal_with_fuel(Seq::<_>::filter, 2);
            assert(seq![':'].drop_last() =~= Seq::<char>::empty());
        }
        Seq::filter_distributes_over_add(had, ":"@, keep);
        Seq::filter_distributes_over_add(had + ":"@, x + y, keep);
        assert(hex_run(g, 2 * n) =~= hex_run(g, 2 * n - 2) + (x + y));
        let all = hex_groups(g, n);
        assert forall|i: int| 0 <= i < all.len() implies !is_space(#[trigger] all[i]) by {
            if i < had.len() {
                assert(all[i] == had[i]);
            } else if i > had.len() {
                assert(all[i] == (x + y)[i - had.len() - 1]);
            }
        }
        assert(without_colons(hex_groups(g, n)) =~= without_colons(had) + (x + y));
    }
}

// ---------------------------------------------------------------- choosing

/// What a port's tables show at one index.
pub struct GidEntry {
    /// Contents of `gids/<index>`.
    pub gid: String,
    /// Contents of `gid_attrs/types/<index>`, empty where unreadable.
    pub kind: String,
}

/// All bytes zero: an unused entry.
pub open spec fn zero_gid(g: Seq<u8>) -> bool {
    forall|i: int| 0 <= i < g.len() ==> #[trigger] g[i] == 0
}

/// The GID that an entry holds.
pub open spec fn entry_gid(e: GidEntry) -> Option<Seq<u8>> {
    let h = without_colons(trim(e.gid@));
    if exists|g: Seq<u8>| #[trigger] writes_gid(h, g) {
        Some(choose|g: Seq<u8>| #[trigger] writes_gid(h, g))
    } else {
        None
    }
}

/// How good an entry is: 2 for RoCE v2 with an IPv4-mapped address, 1 for any
/// other RoCE v2, 0 for the rest and for one that is unreadable or unused.
pub open spec fn entry_score(e: GidEntry) -> int {
    match entry_gid(e) {
        Some(g) => if zero_gid(g) || !same_ignoring_case(trim(e.kind@), "roce v2"@) {
            0
        } else if ipv4_mapped(g) {
            2
        } else {
            1
        },
        None => 0,
    }
}

/// `i` is the entry to use: the first among those of the highest score.
pub open spec fn best_entry(entries: Seq<GidEntry>, i: int) -> bool {
    &&& 0 <= i < entries.len()
    &&& entry_score(entries[i]) > 0
    &&& forall|k: int|
        0 <= k < entries.len() ==> entry_score(#[trigger] entries[k]) <= entry_score(entries[i])
    &&& forall|k: int| 0 <= k < i ==> entry_score(#[trigger] entries[k]) < entry_score(entries[i])
}

/// `g` is the GID at index 0, all zeros where that one is unreadable.
pub open spec fn first_gid(entries: Seq<GidEntry>, g: Seq<u8>) -> bool {
    if entries.len() > 0 && entry_gid(entries[0]) is Some {
        entry_gid(entries[0]) == Some(g)
    } else {
        zero_gid(g)
    }
}

fn all_zero(gid: &[u8; 16]) -> (r: bool)
    ensures
        r == zero_gid(gid@),
{
    let mut i: usize = 0;
    while i < 16
        invariant
            i <= 16,
            forall|k: int| 0 <= k < i ==> #[trigger] gid@[k] == 0,
        decreases 16 - i,
    {
        if gid[i] != 0 {
            assert(gid@[i as int] != 0);
            return false;
        }
        i += 1;
    }
    true
}

fn rate_entry(e: &GidEntry) -> (r: (u8, Option<[u8; 16]>))
    ensures
        r.0 == entry_score(*e),
        match r.1 {
            Some(g) => entry_gid(*e) == Some(g@),
            None => entry_gid(*e) is None,
        },
{
    let ghost h = without_colons(trim(e.gid@));
    match parse_sysfs_gid(e.gid.as_str()) {
        Some(gid) => {
            proof {
                lemma_gid_is_unique(h, gid@, choose|g: Seq<u8>| #[trigger] writes_gid(h, g));
            }
            let v2 = equal_ignoring_case(trimmed(e.kind.as_str()).as_str(), "roce v2");
            if all_zero(&gid) || !v2 {
                (0, Some(gid))
            } else if is_ipv4_mapped(&gid) {
                (2, Some(gid))
            } else {
                (1, Some(gid))
            }
        },
        None => (0, None),
    }
}

/// Pick a GID index for RoCE: prefer RoCE v2 with an IPv4-mapped address, then
/// any non-zero RoCE v2 GID, then index 0.
pub fn choose_gid_index(entries: &Vec<GidEntry>) -> (r: (i32, [u8; 16]))
    requires
        entries@.len() <= GID_ENTRIES,
    ensures
        (exists|i: int| #[trigger] best_entry(entries@, i)) ==> best_entry(entries@, r.0 as int)
            && entry_gid(entries@[r.0 as int]) == Some(r.1@),
        !(exists|i: int| #[trigger] best_entry(entries@, i)) ==> r.0 == 0 && first_gid(
            entries@,
            r.1@,
        ),
{
    let mut index: i32 = 0;
    let mut gid: [u8; 16] = [0u8;16];
    let mut score: u8 = 0;
    let mut i: usize = 0;
    while i < entries.len()
        invariant
            entries@.len() <= GID_ENTRIES,
            i <= entries@.len(),
            forall|k: int| 0 <= k < i ==> entry_score(#[trigger] entries@[k]) <= score,
            score == 0 && i == 0 ==> zero_gid(gid@),
            score == 0 ==> index == 0 && (i > 0 ==> first_gid(entries@, gid@)),
            score > 0 ==> {
                &&& 0 <= index < i
                &&& entry_score(entries@[index as int]) == score
                &&& entry_gid(entries@[index as int]) == Some(gid@)
                &&& forall|k: int| 0 <= k < index ==> entry_score(#[trigger] entries@[k]) < score
            },
        decreases entries@.len() - i,
    {
        let (s, g) = rate_entry(&entries[i]);
        if let Some(g) = g {
            if s > score || i == 0 {
                score = s;
                index = i as i32;
                gid = g;
            }
        }
        i += 1;
    }
    proof {
        if score > 0 {
            assert(best_entry(entries@, index as int));
            assert forall|j: int| #[trigger] best_entry(entries@, j) implies j == index by {
                assert(entry_score(entries@[j]) <= score);
                assert(entry_score(entries@[index as int]) <= entry_score(entries@[j]));
            }
        }
    }
    (index, gid)
}

/// The entry shows GID `g`, for RoCE v2, and is in use.
pub open spec fn shows_v2(e: GidEntry, g: Seq<u8>) -> bool {
    &&& writes_gid(without_colons(trim(e.gid@)), g)
    &&& same_ignoring_case(trim(e.kind@), "roce v2"@)
    &&& exists|b: int| 0 <= b < g.len() && #[trigger] g[b] != 0
}

/// Ten bytes of zeros and two of ones ahead of an IPv4 address.
pub open spec fn maps_ipv4(g: Seq<u8>) -> bool {
    &&& forall|b: int| 0 <= b < 10 ==> #[trigger] g[b] == 0
    &&& g[10] == 0xff && g[11] == 0xff
}

proof fn lemma_entry_score(e: GidEntry, g: Seq<u8>)
    requires
        writes_gid(without_colons(trim(e.gid@)), g),
    ensures
        entry_gid(e) == Some(g),
        entry_score(e) > 0 <==> shows_v2(e, g),
        shows_v2(e, g) ==> (entry_score(e) == 2 <==> maps_ipv4(g)),
        entry_score(e) <= 2,
{
    let h = without_colons(trim(e.gid@));
    lemma_gid_is_unique(h, g, choose|x: Seq<u8>| #[trigger] writes_gid(h, x));
    assert(ipv4_mapped(g) <==> maps_ipv4(g));
}

/// The entry that is chosen is a RoCE v2 GID in use. It maps an IPv4 address if
/// any such entry does, and it is the first of its sort.
pub proof fn law_chosen_gid_is_the_best(entries: Seq<GidEntry>, i: int)
    requires
        best_entry(entries, i),
    ensures
        exists|g: Seq<u8>| #[trigger] shows_v2(entries[i], g),
        forall|k: int, x: Seq<u8>, g: Seq<u8>|
            0 <= k < entries.len() && #[trigger] shows_v2(entries[k], x) && #[trigger] shows_v2(
                entries[i],
                g,
            ) ==> {
                &&& maps_ipv4(x) ==> maps_ipv4(g)
                &&& k < i ==> maps_ipv4(g) && !maps_ipv4(x)
            },
{
    let g = entry_gid(entries[i])->0;
    lemma_entry_score(entries[i], g);
    assert forall|k: int, x: Seq<u8>, g: Seq<u8>|
        0 <= k < entries.len() && #[trigger] shows_v2(entries[k], x) && #[trigger] shows_v2(
            entries[i],
            g,
        ) implies {
        &&& maps_ipv4(x) ==> maps_ipv4(g)
        &&& k < i ==> maps_ipv4(g) && !maps_ipv4(x)
    } by {
        lemma_entry_score(entries[k], x);
        lemma_entry_score(entries[i], g);
        assert(entry_score(entries[k]) <= entry_score(entries[i]));
    }
}

/// Wherever an entry shows a RoCE v2 GID in use, an entry is chosen.
pub proof fn law_some_gid_is_chosen(entries: Seq<GidEntry>, k: int, g: Seq<u8>)
    requires
        0 <= k < entries.len(),
        shows_v2(entries[k], g),
    ensures
        exists|i: int| #[trigger] best_entry(entries, i),
{
    lemma_entry_score(entries[k], g);
    lemma_best_of(entries, entries.len() as int);
    let i = choose|i: int| #[trigger] best_of(entries, entries.len() as int, i);
    assert(entry_score(entries[k]) <= entry_score(entries[i]));
    assert(best_entry(entries, i));
}

spec fn best_of(entries: Seq<GidEntry>, n: int, i: int) -> bool {
    &&& 0 <= i < n
    &&& forall|k: int|
        0 <= k < n ==> entry_score(#[trigger] entries[k]) <= entry_score(entries[i])
    &&& forall|k: int| 0 <= k < i ==> entry_score(#[trigger] entries[k]) < entry_score(entries[i])
}

proof fn lemma_best_of(entries: Seq<GidEntry>, n: int)
    requires
        1 <= n <= entries.len(),
    ensures
        exists|i: int| #[trigger] best_of(entries, n, i),
    decreases n,
{
    if n == 1 {
        assert(best_of(entries, 1, 0));
    } else {
        lemma_best_of(entries, n - 1);
        let i = choose|i: int| #[trigger] best_of(entries, n - 1, i);
        if entry_score(entries[n - 1]) > entry_score(entries[i]) {
            assert(best_of(entries, n, n - 1));
        } else {
            assert(best_of(entries, n, i));
        }
    }
}

} // verus!
