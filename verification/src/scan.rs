//! Searching and cutting text: trimming, splitting, words, lines, prefixes.

use crate::text::{
    chars_of, is_space, same_letter, same_letter_chars, space_char, text_of,
};
use vstd::prelude::*;

verus! {

// ---------------------------------------------------------------- trimming

/// `s` without its leading white space.
pub open spec fn trim_start(s: Seq<char>) -> Seq<char>
    decreases s.len(),
{
    if s.len() > 0 && is_space(s[0]) {
        trim_start(s.skip(1))
    } else {
        s
    }
}

/// `s` without its trailing white space.
pub open spec fn trim_end(s: Seq<char>) -> Seq<char>
    decreases s.len(),
{
    if s.len() > 0 && is_space(s.last()) {
        trim_end(s.drop_last())
    } else {
        s
    }
}

/// `s` without white space at either end.
pub open spec fn trim(s: Seq<char>) -> Seq<char> {
    trim_end(trim_start(s))
}

pub fn trimmed(s: &str) -> (r: String)
    ensures
        r@ == trim(s@),
{
    let v = chars_of(s);
    let mut a: usize = 0;
    assert(v@.skip(0) =~= v@);
    while a < v.len() && space_char(v[a])
        invariant
            a <= v@.len(),
            trim_start(v@) == trim_start(v@.skip(a as int)),
        decreases v@.len() - a,
    {
        assert(v@.skip(a as int).skip(1) =~= v@.skip(a + 1));
        a += 1;
    }
    let ghost body = v@.skip(a as int);
    assert(trim_start(v@) == body);
    let mut b: usize = v.len();
    assert(v@.subrange(a as int, b as int) =~= body);
    while b > a && space_char(v[b - 1])
        invariant
            a <= b <= v@.len(),
            trim_end(body) == trim_end(v@.subrange(a as int, b as int)),
        decreases b,
    {
        assert(v@.subrange(a as int, b as int).drop_last() =~= v@.subrange(a as int, b - 1));
        b -= 1;
    }
    text_of(&v, a, b)
}

/// White space added behind a text does not survive trimming.
pub proof fn lemma_trim_drops_tail(s: Seq<char>, c: char)
    requires
        is_space(c),
    ensures
        trim(s.push(c)) == trim(s),
    decreases s.len(),
{
    let t = s.push(c);
    if s.len() == 0 {
        assert(t.skip(1) =~= s);
        assert(trim_start(t) == trim_start(t.skip(1)));
    } else if is_space(s[0]) {
        assert(t.skip(1) =~= s.skip(1).push(c));
        lemma_trim_drops_tail(s.skip(1), c);
        assert(trim_start(t) == trim_start(t.skip(1)));
    } else {
        assert(trim_start(t) == t);
        assert(t.drop_last() =~= s);
    }
}

/// Nor does white space in front of it.
pub proof fn lemma_trim_drops_head(s: Seq<char>)
    requires
        s.len() > 0,
        is_space(s[0]),
    ensures
        trim(s) == trim(s.skip(1)),
{
}

// --------------------------------------------------------------- searching

/// `needle` stands in `hay` at position `i`.
pub open spec fn found_at(hay: Seq<char>, needle: Seq<char>, i: int) -> bool {
    0 <= i && i + needle.len() <= hay.len() && hay.subrange(i, i + needle.len()) == needle
}

/// `needle` occurs in `hay`.
pub open spec fn mentions(hay: Seq<char>, needle: Seq<char>) -> bool {
    exists|i: int| #[trigger] found_at(hay, needle, i)
}

pub open spec fn begins(s: Seq<char>, prefix: Seq<char>) -> bool {
    found_at(s, prefix, 0)
}

pub open spec fn ends(s: Seq<char>, suffix: Seq<char>) -> bool {
    found_at(s, suffix, s.len() - suffix.len())
}

fn match_at(hay: &Vec<char>, needle: &Vec<char>, i: usize) -> (r: bool)
    requires
        i + needle@.len() <= hay@.len(),
    ensures
        r == found_at(hay@, needle@, i as int),
{
    let mut k: usize = 0;
    let total: usize = hay.len();
    while k < needle.len()
        invariant
            k <= needle@.len(),
            total == hay@.len(),
            i + needle@.len() <= total,
            forall|j: int| 0 <= j < k ==> hay@[i + j] == needle@[j],
        decreases needle@.len() - k,
    {
        if hay[i + k] != needle[k] {
            assert(hay@.subrange(i as int, i + needle@.len())[k as int] == hay@[i + k]);
            return false;
        }
        k += 1;
    }
    assert(hay@.subrange(i as int, i + needle@.len()) =~= needle@);
    true
}

pub fn contains(hay: &str, needle: &str) -> (r: bool)
    ensures
        r == mentions(hay@, needle@),
{
    let h = chars_of(hay);
    let n = chars_of(needle);
    if n.len() > h.len() {
        return false;
    }
    let last: usize = h.len() - n.len();
    let mut i: usize = 0;
    loop
        invariant
            h@ == hay@,
            n@ == needle@,
            last == h@.len() - n@.len(),
            i <= last,
            forall|j: int| 0 <= j < i ==> !#[trigger] found_at(h@, n@, j),
        decreases last - i,
    {
        if match_at(&h, &n, i) {
            return true;
        }
        if i == last {
            return false;
        }
        i += 1;
    }
}

pub fn starts_with(s: &str, prefix: &str) -> (r: bool)
    ensures
        r == begins(s@, prefix@),
{
    let h = chars_of(s);
    let n = chars_of(prefix);
    n.len() <= h.len() && match_at(&h, &n, 0)
}

pub fn ends_with(s: &str, suffix: &str) -> (r: bool)
    ensures
        r == ends(s@, suffix@),
{
    let h = chars_of(s);
    let n = chars_of(suffix);
    n.len() <= h.len() && match_at(&h, &n, h.len() - n.len())
}

/// `s` with every leading occurrence of `prefix` removed.
pub open spec fn without_prefixes(s: Seq<char>, prefix: Seq<char>) -> Seq<char>
    decreases s.len(),
{
    if prefix.len() > 0 && begins(s, prefix) {
        without_prefixes(s.skip(prefix.len() as int), prefix)
    } else {
        s
    }
}

/// `str::trim_start_matches` with a text pattern.
pub fn strip_prefixes(s: &str, prefix: &str) -> (r: String)
    ensures
        r@ == without_prefixes(s@, prefix@),
{
    let v = chars_of(s);
    let p = chars_of(prefix);
    let mut a: usize = 0;
    assert(v@.skip(0) =~= v@);
    while p.len() > 0 && p.len() <= v.len() - a && match_at(&v, &p, a)
        invariant
            a <= v@.len(),
            without_prefixes(v@, p@) == without_prefixes(v@.skip(a as int), p@),
        decreases v@.len() - a,
    {
        proof {
            let rest = v@.skip(a as int);
            assert(rest.subrange(0, p@.len() as int) =~= v@.subrange(a as int, a + p@.len()));
            assert(begins(rest, p@));
            assert(rest.skip(p@.len() as int) =~= v@.skip(a + p@.len()));
        }
        a += p.len();
    }
    proof {
        let rest = v@.skip(a as int);
        if p@.len() > 0 && begins(rest, p@) {
            assert(rest.subrange(0, p@.len() as int) =~= v@.subrange(a as int, a + p@.len()));
            assert(found_at(v@, p@, a as int));
        }
        assert(v@.subrange(a as int, v@.len() as int) =~= rest);
    }
    text_of(&v, a, v.len())
}

/// Equal up to the case of ASCII letters.
pub open spec fn same_ignoring_case(a: Seq<char>, b: Seq<char>) -> bool {
    a.len() == b.len() && forall|i: int| 0 <= i < a.len() ==> same_letter(#[trigger] a[i], b[i])
}

pub fn equal_ignoring_case(a: &str, b: &str) -> (r: bool)
    ensures
        r == same_ignoring_case(a@, b@),
{
    let x = chars_of(a);
    let y = chars_of(b);
    if x.len() != y.len() {
        return false;
    }
    let mut i: usize = 0;
    while i < x.len()
        invariant
            x@ == a@,
            y@ == b@,
            x@.len() == y@.len(),
            i <= x@.len(),
            forall|j: int| 0 <= j < i ==> same_letter(#[trigger] a@[j], b@[j]),
        decreases x@.len() - i,
    {
        if !same_letter_chars(x[i], y[i]) {
            assert(!same_letter(a@[i as int], b@[i as int]));
            return false;
        }
        i += 1;
    }
    true
}

// ---------------------------------------------------------------- cutting

/// The first position of `c` in `s`, or the length of `s`.
pub open spec fn first_pos(s: Seq<char>, c: char) -> int
    decreases s.len(),
{
    if s.len() == 0 || s[0] == c {
        0
    } else {
        1 + first_pos(s.skip(1), c)
    }
}

/// The last position of `c` in `s`, or -1.
pub open spec fn last_pos(s: Seq<char>, c: char) -> int
    decreases s.len(),
{
    if s.len() == 0 {
        -1
    } else if s.last() == c {
        s.len() - 1
    } else {
        last_pos(s.drop_last(), c)
    }
}

pub proof fn lemma_first_pos(s: Seq<char>, c: char)
    ensures
        0 <= first_pos(s, c) <= s.len(),
        first_pos(s, c) < s.len() ==> s[first_pos(s, c)] == c,
        forall|i: int| 0 <= i < first_pos(s, c) ==> s[i] != c,
        first_pos(s, c) == s.len() <==> !s.contains(c),
    decreases s.len(),
{
    if s.len() > 0 && s[0] != c {
        lemma_first_pos(s.skip(1), c);
        assert forall|i: int| 0 <= i < first_pos(s, c) implies s[i] != c by {
            if i > 0 {
                assert(s.skip(1)[i - 1] == s[i]);
            }
        }
        if s.contains(c) {
            let k = choose|k: int| 0 <= k < s.len() && s[k] == c;
            assert(s.skip(1)[k - 1] == c);
        }
        if s.skip(1).contains(c) {
            let k = choose|k: int| 0 <= k < s.len() - 1 && s.skip(1)[k] == c;
            assert(s[k + 1] == c);
        }
    } else if s.len() > 0 {
        assert(s.contains(c));
    }
}

pub proof fn lemma_last_pos(s: Seq<char>, c: char)
    ensures
        -1 <= last_pos(s, c) < s.len(),
        last_pos(s, c) >= 0 ==> s[last_pos(s, c)] == c,
        forall|i: int| last_pos(s, c) < i < s.len() ==> s[i] != c,
    decreases s.len(),
{
    if s.len() > 0 && s.last() != c {
        lemma_last_pos(s.drop_last(), c);
        assert forall|i: int| last_pos(s, c) < i < s.len() implies s[i] != c by {
            if i < s.len() - 1 {
                assert(s.drop_last()[i] == s[i]);
            }
        }
    }
}

fn find_first(v: &Vec<char>, c: char) -> (r: usize)
    ensures
        r == first_pos(v@, c),
{
    let mut i: usize = 0;
    assert(v@.skip(0) =~= v@);
    while i < v.len()
        invariant
            i <= v@.len(),
            first_pos(v@, c) == i + first_pos(v@.skip(i as int), c),
        decreases v@.len() - i,
    {
        assert(v@.skip(i as int)[0] == v@[i as int]);
        if v[i] == c {
            return i;
        }
        assert(v@.skip(i as int).skip(1) =~= v@.skip(i + 1));
        i += 1;
    }
    i
}

/// `str::split_once` on a character: what stands before and after its first
/// occurrence.
pub open spec fn cut_first(s: Seq<char>, c: char) -> Option<(Seq<char>, Seq<char>)> {
    let i = first_pos(s, c);
    if i < s.len() {
        Some((s.take(i), s.skip(i + 1)))
    } else {
        None
    }
}

/// `str::rsplit_once` on a character: what stands before and after its last
/// occurrence.
pub open spec fn cut_last(s: Seq<char>, c: char) -> Option<(Seq<char>, Seq<char>)> {
    let i = last_pos(s, c);
    if i >= 0 {
        Some((s.take(i), s.skip(i + 1)))
    } else {
        None
    }
}

pub open spec fn pair_views(p: Option<(String, String)>) -> Option<(Seq<char>, Seq<char>)> {
    match p {
        Some((a, b)) => Some((a@, b@)),
        None => None,
    }
}

pub fn split_once(s: &str, c: char) -> (r: Option<(String, String)>)
    ensures
        pair_views(r) == cut_first(s@, c),
{
    let v = chars_of(s);
    let i = find_first(&v, c);
    proof {
        lemma_first_pos(s@, c);
    }
    if i < v.len() {
        let a = text_of(&v, 0, i);
        let b = text_of(&v, i + 1, v.len());
        assert(a@ =~= s@.take(i as int));
        assert(b@ =~= s@.skip(i + 1));
        Some((a, b))
    } else {
        None
    }
}

pub fn rsplit_once(s: &str, c: char) -> (r: Option<(String, String)>)
    ensures
        pair_views(r) == cut_last(s@, c),
{
    let v = chars_of(s);
    let mut n: usize = v.len();
    assert(v@.take(n as int) =~= v@);
    while n > 0
        invariant
            v@ == s@,
            n <= v@.len(),
            last_pos(v@, c) == last_pos(v@.take(n as int), c),
        decreases n,
    {
        assert(v@.take(n as int).last() == v@[n - 1]);
        if v[n - 1] == c {
            let a = text_of(&v, 0, n - 1);
            let b = text_of(&v, n, v.len());
            assert(a@ =~= s@.take(n - 1));
            assert(b@ =~= s@.skip(n as int));
            return Some((a, b));
        }
        assert(v@.take(n as int).drop_last() =~= v@.take(n - 1));
        n -= 1;
    }
    None
}

/// `str::split` on a character: the pieces between its occurrences, one more
/// than there are occurrences.
pub open spec fn pieces(s: Seq<char>, c: char) -> Seq<Seq<char>>
    decreases s.len(),
{
    if s.len() == 0 {
        seq![Seq::empty()]
    } else {
        grow(pieces(s.drop_last(), c), s.last(), c)
    }
}

pub open spec fn grow(p: Seq<Seq<char>>, x: char, c: char) -> Seq<Seq<char>> {
    if x == c {
        p.push(Seq::empty())
    } else {
        p.drop_last().push(p.last().push(x))
    }
}

/// The characters of each text of a list.
pub open spec fn views(v: Seq<String>) -> Seq<Seq<char>> {
    v.map_values(|s: String| s@)
}

pub proof fn lemma_views_push(v: Seq<String>, s: String)
    ensures
        views(v.push(s)) == views(v).push(s@),
{
    assert(views(v.push(s)) =~= views(v).push(s@));
}

pub proof fn lemma_pieces_nonempty(s: Seq<char>, c: char)
    ensures
        pieces(s, c).len() > 0,
    decreases s.len(),
{
    if s.len() > 0 {
        lemma_pieces_nonempty(s.drop_last(), c);
    }
}

pub fn split(s: &str, c: char) -> (r: Vec<String>)
    ensures
        views(r@) == pieces(s@, c),
        r@.len() > 0,
{
    let v = chars_of(s);
    let mut out: Vec<String> = Vec::new();
    let mut cur = String::new();
    let mut i: usize = 0;
    assert(views(out@).push(cur@) =~= pieces(v@.take(0), c));
    while i < v.len()
        invariant
            v@ == s@,
            i <= v@.len(),
            views(out@).push(cur@) == pieces(v@.take(i as int), c),
        decreases v@.len() - i,
    {
        let ghost before = views(out@).push(cur@);
        proof {
            assert(v@.take(i + 1).drop_last() =~= v@.take(i as int));
            assert(v@.take(i + 1).last() == v@[i as int]);
            assert(before.drop_last() =~= views(out@));
        }
        if v[i] == c {
            proof {
                lemma_views_push(out@, cur);
            }
            out.push(cur);
            cur = String::new();
        } else {
            cur.push(v[i]);
        }
        i += 1;
        assert(views(out@).push(cur@) =~= pieces(v@.take(i as int), c));
    }
    assert(v@.take(i as int) =~= s@);
    proof {
        lemma_views_push(out@, cur);
    }
    out.push(cur);
    out
}

/// `str::split_whitespace`: the maximal runs of characters that are not white
/// space.
pub open spec fn words(s: Seq<char>) -> Seq<Seq<char>>
    decreases s.len(),
{
    if s.len() == 0 {
        Seq::empty()
    } else {
        let w = words(s.drop_last());
        if is_space(s.last()) {
            w
        } else if s.len() == 1 || is_space(s[s.len() - 2]) {
            w.push(seq![s.last()])
        } else {
            w.drop_last().push(w.last().push(s.last()))
        }
    }
}

/// The words complete before position `i`, and the run that ends there.
spec fn words_open(s: Seq<char>, out: Seq<Seq<char>>, cur: Seq<char>) -> bool {
    if s.len() > 0 && !is_space(s.last()) {
        cur.len() > 0 && words(s) == out.push(cur)
    } else {
        cur.len() == 0 && words(s) == out
    }
}

pub fn split_whitespace(s: &str) -> (r: Vec<String>)
    ensures
        views(r@) == words(s@),
{
    let v = chars_of(s);
    let mut out: Vec<String> = Vec::new();
    let mut cur = String::new();
    let mut i: usize = 0;
    assert(views(out@) =~= words(v@.take(0)));
    while i < v.len()
        invariant
            v@ == s@,
            i <= v@.len(),
            words_open(v@.take(i as int), views(out@), cur@),
        decreases v@.len() - i,
    {
        let ghost prev = v@.take(i as int);
        let ghost next = v@.take(i + 1);
        let ghost out0 = views(out@);
        let ghost cur0 = cur@;
        proof {
            assert(next.drop_last() =~= prev);
            assert(next.last() == v@[i as int]);
            if i > 0 {
                assert(next[i - 1] == prev.last());
            }
        }
        if space_char(v[i]) {
            if !cur.as_str().is_empty() {
                proof {
                    lemma_views_push(out@, cur);
                }
                out.push(cur);
                cur = String::new();
            }
        } else {
            cur.push(v[i]);
            proof {
                if cur0.len() > 0 {
                    assert(words(prev).drop_last() =~= out0);
                    assert(words(next) =~= out0.push(cur@));
                } else {
                    assert(cur@ =~= seq![next.last()]);
                }
            }
        }
        i += 1;
    }
    assert(v@.take(i as int) =~= s@);
    if !cur.as_str().is_empty() {
        proof {
            lemma_views_push(out@, cur);
        }
        out.push(cur);
    }
    out
}

/// A line without the carriage return that may end it.
pub open spec fn without_cr(s: Seq<char>) -> Seq<char> {
    if s.len() > 0 && s.last() == '\r' {
        s.drop_last()
    } else {
        s
    }
}

/// `str::lines`: the text cut at line feeds, an empty last piece left out, a
/// carriage return before a line feed not counted. A last line that no line
/// feed ends keeps its carriage return.
pub open spec fn lines_of(s: Seq<char>) -> Seq<Seq<char>> {
    let p = pieces(s, '\n');
    let closed = p.drop_last().map_values(|l: Seq<char>| without_cr(l));
    if p.last().len() == 0 {
        closed
    } else {
        closed.push(p.last())
    }
}

pub fn lines(s: &str) -> (r: Vec<String>)
    ensures
        views(r@) == lines_of(s@),
{
    let parts = split(s, '\n');
    let ghost p = pieces(s@, '\n');
    let ghost closed = p.drop_last().map_values(|l: Seq<char>| without_cr(l));
    let mut out: Vec<String> = Vec::new();
    let mut i: usize = 0;
    assert(views(out@) =~= closed.take(0));
    while i < parts.len() - 1
        invariant
            parts@.len() > 0,
            views(parts@) == p,
            closed == p.drop_last().map_values(|l: Seq<char>| without_cr(l)),
            i <= parts@.len() - 1,
            views(out@) == closed.take(i as int),
        decreases parts@.len() - i,
    {
        let v = chars_of(parts[i].as_str());
        assert(p[i as int] == parts@[i as int]@);
        let n: usize = if v.len() > 0 && v[v.len() - 1] == '\r' {
            v.len() - 1
        } else {
            v.len()
        };
        let line = text_of(&v, 0, n);
        proof {
            assert(line@ =~= without_cr(p[i as int]));
            lemma_views_push(out@, line);
            assert(closed.take(i + 1) =~= closed.take(i as int).push(closed[i as int]));
        }
        out.push(line);
        i += 1;
    }
    assert(closed.take(i as int) =~= closed);
    assert(p.last() == parts@[i as int]@);
    if !parts[i].as_str().is_empty() {
        let last = parts[i].clone();
        proof {
            lemma_views_push(out@, last);
        }
        out.push(last);
    }
    out
}

// ----------------------------------------------------------------- joining

/// The texts of `list` with `sep` between them.
pub open spec fn joined(list: Seq<Seq<char>>, sep: Seq<char>) -> Seq<char>
    decreases list.len(),
{
    if list.len() == 0 {
        Seq::empty()
    } else if list.len() == 1 {
        list[0]
    } else {
        joined(list.drop_last(), sep) + sep + list.last()
    }
}

pub fn join(list: &Vec<String>, sep: &str) -> (r: String)
    ensures
        r@ == joined(views(list@), sep@),
{
    let mut r = String::new();
    let mut i: usize = 0;
    let ghost all = views(list@);
    assert(all.take(0) =~= Seq::empty());
    while i < list.len()
        invariant
            all == views(list@),
            i <= list@.len(),
            r@ == joined(all.take(i as int), sep@),
        decreases list@.len() - i,
    {
        proof {
            assert(all.take(i + 1).drop_last() =~= all.take(i as int));
            assert(all.take(i + 1).last() == list@[i as int]@);
        }
        if i > 0 {
            r.append(sep);
        }
        r.append(list[i].as_str());
        i += 1;
        assert(r@ =~= joined(all.take(i as int), sep@));
    }
    assert(all.take(i as int) =~= all);
    r
}

// ---------------------------------------------------------------- ordering

/// Lexicographic order by code point, which is the order of `str`.
pub open spec fn before(a: Seq<char>, b: Seq<char>) -> bool
    decreases a.len(),
{
    if b.len() == 0 {
        false
    } else if a.len() == 0 {
        true
    } else if a[0] != b[0] {
        a[0] < b[0]
    } else {
        before(a.skip(1), b.skip(1))
    }
}

pub fn comes_before(a: &str, b: &str) -> (r: bool)
    ensures
        r == before(a@, b@),
{
    let x = chars_of(a);
    let y = chars_of(b);
    let mut i: usize = 0;
    assert(x@.skip(0) =~= x@);
    assert(y@.skip(0) =~= y@);
    loop
        invariant
            i <= x@.len(),
            i <= y@.len(),
            x@ == a@,
            y@ == b@,
            before(a@, b@) == before(x@.skip(i as int), y@.skip(i as int)),
        decreases x@.len() - i,
    {
        if i == y.len() {
            return false;
        }
        if i == x.len() {
            return true;
        }
        proof {
            assert(x@.skip(i as int)[0] == x@[i as int]);
            assert(y@.skip(i as int)[0] == y@[i as int]);
        }
        if x[i] != y[i] {
            return x[i] < y[i];
        }
        proof {
            assert(x@.skip(i as int).skip(1) =~= x@.skip(i + 1));
            assert(y@.skip(i as int).skip(1) =~= y@.skip(i + 1));
        }
        i += 1;
    }
}

/// The order of texts is total and transitive, and no text precedes itself.
pub proof fn lemma_before_orders(a: Seq<char>, b: Seq<char>, c: Seq<char>)
    ensures
        !before(a, a),
        a == b || before(a, b) || before(b, a),
        !(before(a, b) && before(b, a)),
        before(a, b) && before(b, c) ==> before(a, c),
    decreases a.len(),
{
    if a.len() > 0 {
        let (x, y, z) = (a.skip(1), b.skip(1), c.skip(1));
        lemma_before_orders(x, y, z);
        if b.len() > 0 && a[0] == b[0] && x == y {
            assert(a =~= seq![a[0]] + x);
            assert(b =~= seq![b[0]] + y);
        }
    } else if b.len() == 0 {
        assert(a =~= b);
    }
}

/// What comes first stays first, whatever follows texts of one length.
pub proof fn lemma_before_extends(a: Seq<char>, b: Seq<char>, x: Seq<char>, y: Seq<char>)
    requires
        a.len() == b.len(),
        before(a, b),
    ensures
        before(a + x, b + y),
    decreases a.len(),
{
    let (s, t) = (a + x, b + y);
    assert(s[0] == a[0] && t[0] == b[0]);
    if a[0] == b[0] {
        lemma_before_extends(a.skip(1), b.skip(1), x, y);
        assert(s.skip(1) =~= a.skip(1) + x);
        assert(t.skip(1) =~= b.skip(1) + y);
    }
}

/// A common beginning does not count.
pub proof fn lemma_before_common(p: Seq<char>, x: Seq<char>, y: Seq<char>)
    ensures
        before(p + x, p + y) == before(x, y),
    decreases p.len(),
{
    if p.len() == 0 {
        assert(p + x =~= x && p + y =~= y);
    } else {
        lemma_before_common(p.skip(1), x, y);
        assert((p + x).skip(1) =~= p.skip(1) + x);
        assert((p + y).skip(1) =~= p.skip(1) + y);
        assert((p + x)[0] == p[0] && (p + y)[0] == p[0]);
    }
}

/// Trimming takes white space off both ends and nothing else: what is left is a
/// part of the text that begins and ends with something visible, and all around it
/// was white space.
pub proof fn law_trim_takes_white_space(s: Seq<char>) -> (r: (int, int))
    ensures
        0 <= r.0 <= r.1 <= s.len(),
        trim(s) == s.subrange(r.0, r.1),
        forall|i: int| 0 <= i < r.0 ==> is_space(#[trigger] s[i]),
        forall|i: int| r.1 <= i < s.len() ==> is_space(#[trigger] s[i]),
        trim(s).len() > 0 ==> !is_space(trim(s)[0]) && !is_space(trim(s).last()),
{
    let a = lemma_trim_start(s);
    let t = trim_start(s);
    let b = lemma_trim_end(t);
    assert(t =~= s.subrange(a, s.len() as int));
    assert(trim(s) =~= s.subrange(a, a + b));
    assert forall|i: int| a + b <= i < s.len() implies is_space(#[trigger] s[i]) by {
        assert(t[i - a] == s[i]);
    }
    (a, a + b)
}

proof fn lemma_trim_start(s: Seq<char>) -> (a: int)
    ensures
        0 <= a <= s.len(),
        trim_start(s) == s.skip(a),
        forall|i: int| 0 <= i < a ==> is_space(#[trigger] s[i]),
        a < s.len() ==> !is_space(s[a]),
    decreases s.len(),
{
    if s.len() > 0 && is_space(s[0]) {
        let rest = s.skip(1);
        let b = lemma_trim_start(rest);
        assert(rest.skip(b) =~= s.skip(b + 1));
        assert forall|i: int| 0 <= i < b + 1 implies is_space(#[trigger] s[i]) by {
            if i > 0 {
                assert(rest[i - 1] == s[i]);
            }
        }
        if b < rest.len() {
            assert(rest[b] == s[b + 1]);
        }
        b + 1
    } else {
        assert(s.skip(0) =~= s);
        0
    }
}

proof fn lemma_trim_end(s: Seq<char>) -> (b: int)
    ensures
        0 <= b <= s.len(),
        trim_end(s) == s.take(b),
        forall|i: int| b <= i < s.len() ==> is_space(#[trigger] s[i]),
        b > 0 ==> !is_space(s[b - 1]),
    decreases s.len(),
{
    if s.len() > 0 && is_space(s.last()) {
        let rest = s.drop_last();
        let b = lemma_trim_end(rest);
        assert(rest.take(b) =~= s.take(b));
        assert forall|i: int| b <= i < s.len() implies is_space(#[trigger] s[i]) by {
            if i < rest.len() {
                assert(rest[i] == s[i]);
            }
        }
        if b > 0 {
            assert(rest[b - 1] == s[b - 1]);
        }
        b
    } else {
        assert(s.take(s.len() as int) =~= s);
        s.len() as int
    }
}

/// Cutting a text into pieces cuts at each separator: the pieces of two texts with
/// a separator between them are those of the one and those of the other.
pub proof fn law_pieces_are_cut_at_separators(s: Seq<char>, t: Seq<char>, c: char)
    ensures
        pieces(s + seq![c] + t, c) == pieces(s, c) + pieces(t, c),
        !s.contains(c) ==> pieces(s, c) == seq![s],
    decreases t.len(),
{
    lemma_one_piece(s, c);
    let all = s + seq![c] + t;
    if t.len() == 0 {
        assert(all.drop_last() =~= s);
        assert(pieces(all, c) =~= pieces(s, c) + seq![Seq::<char>::empty()]);
    } else {
        law_pieces_are_cut_at_separators(s, t.drop_last(), c);
        lemma_pieces_nonempty(t.drop_last(), c);
        assert(all.drop_last() =~= s + seq![c] + t.drop_last());
        assert(all.last() == t.last());
        let (p, q) = (pieces(s, c), pieces(t.drop_last(), c));
        assert((p + q).last() == q.last());
        assert((p + q).drop_last() =~= p + q.drop_last());
        assert(grow(p + q, t.last(), c) =~= p + grow(q, t.last(), c));
    }
}

proof fn lemma_one_piece(s: Seq<char>, c: char)
    ensures
        !s.contains(c) ==> pieces(s, c) == seq![s],
    decreases s.len(),
{
    if !s.contains(c) {
        if s.len() > 0 {
            let rest = s.drop_last();
            if rest.contains(c) {
                let i = choose|i: int| 0 <= i < rest.len() && rest[i] == c;
                assert(s[i] == c);
            }
            assert(s[s.len() - 1] != c);
            lemma_one_piece(rest, c);
            assert(pieces(rest, c).last() == rest);
            assert(rest.push(s.last()) =~= s);
            assert(pieces(s, c) =~= seq![s]);
        } else {
            assert(s =~= Seq::empty());
        }
    }
}

} // verus!
