//! Run history: every completed benchmark is archived as a full record, one
//! file per run. Which file a record goes to, which files are records, in what
//! order they are shown and how a time is written is decided here.

use crate::bench::Results;
use crate::calendar::{
    civil_date, date_of, lemma_date_exists, lemma_dates_grow, lemma_four_digit_years, Date,
};
use crate::order::{arranged, in_order, lemma_arranged_keeps, sort_stable, Ordered};
use crate::scan::{
    before, cut_last, lemma_before_common, lemma_before_extends, lemma_before_orders, rsplit_once,
};
use crate::text::{
    all_digits, alphanumeric_char, chars_of, dec, dec_padded, decimal, decimal_padded,
    digits_value, is_ascii_alphanumeric, is_digit, lemma_dec_digits, lemma_digits_value_is_unique,
    lemma_padded_reads_back, same,
};
use vstd::prelude::*;

verus! {

#[derive(Debug, Clone)]
pub struct HistoryEntry {
    /// Unix seconds, UTC.
    pub ts: u64,
    /// Optional context label, e.g. "connectx 100G · rdma" from a batch.
    pub label: String,
    /// Free-form experiment notes ("riser B", "new DAC cable", …).
    pub notes: String,
    pub results: Results,
}

// -------------------------------------------------------------------- files

/// The characters a file name keeps; all others become `_`.
pub open spec fn kept(c: char) -> bool {
    is_ascii_alphanumeric(c) || c == '-' || c == '.'
}

pub open spec fn slugged(s: Seq<char>) -> Seq<char> {
    s.map_values(
        |c: char|
            if kept(c) {
                c
            } else {
                '_'
            },
    )
}

pub fn slug(s: &str) -> (r: String)
    ensures
        r@ == slugged(s@),
{
    let v = chars_of(s);
    let n = v.len();
    let mut r = String::new();
    let mut i: usize = 0;
    while i < n
        invariant
            i <= n,
            n == v@.len(),
            v@ == s@,
            r@ == slugged(s@.take(i as int)),
        decreases n - i,
    {
        let c = v[i];
        let ghost had = r@;
        r.push(
            if alphanumeric_char(c) || c == '-' || c == '.' {
                c
            } else {
                '_'
            },
        );
        assert(r@ =~= slugged(s@.take(i + 1)));
        i += 1;
    }
    assert(s@.take(n as int) =~= s@);
    r
}

pub open spec fn record_named(
    ts: nat,
    label: Seq<char>,
    transport: Seq<char>,
    server: Seq<char>,
) -> Seq<char> {
    dec(ts) + "-"@ + slugged(
        if label.len() == 0 {
            transport + "-"@ + server
        } else {
            label
        },
    ) + ".json"@
}

/// The file a record goes to: its time and a slug of its label, or of transport
/// and peer where it has none.
pub fn record_name(ts: u64, label: &str, transport: &str, server: &str) -> (r: String)
    ensures
        r@ == record_named(ts as nat, label@, transport@, server@),
{
    let about = if label.is_empty() {
        transport.to_owned().concat("-").concat(server)
    } else {
        label.to_owned()
    };
    decimal(ts).concat("-").concat(slug(about.as_str()).as_str()).concat(".json")
}

/// A file name with the extension `json`.
pub open spec fn is_record(name: Seq<char>) -> bool {
    match cut_last(name, '.') {
        Some((stem, ext)) => stem.len() > 0 && ext == "json"@,
        None => false,
    }
}

pub fn is_record_name(name: &str) -> (r: bool)
    ensures
        r == is_record(name@),
{
    match rsplit_once(name, '.') {
        Some((stem, ext)) => !stem.as_str().is_empty() && same(ext.as_str(), "json"),
        None => false,
    }
}

/// Whatever label a run has, the file it is archived to is found again as a
/// record, and its name cannot leave the archive's directory.
pub proof fn law_records_are_found(
    ts: nat,
    label: Seq<char>,
    transport: Seq<char>,
    server: Seq<char>,
)
    ensures
        is_record(record_named(ts, label, transport, server)),
        !record_named(ts, label, transport, server).contains('/'),
{
    let about = if label.len() == 0 {
        transport + "-"@ + server
    } else {
        label
    };
    let s = slugged(about);
    let name = record_named(ts, label, transport, server);
    reveal_strlit("-");
    reveal_strlit(".json");
    reveal_strlit("json");
    lemma_dec_digits(ts);
    let at = dec(ts).len() as int + 1 + s.len();
    assert(name.len() == at + 5);
    assert(name[at] == '.');
    crate::scan::lemma_last_pos(name, '.');
    assert forall|i: int| at < i < name.len() implies name[i] != '.' by {
        assert(name[i] == ".json"@[i - at]);
    }
    assert(crate::scan::last_pos(name, '.') == at);
    assert(name.skip(at + 1) =~= "json"@);
    assert forall|i: int| 0 <= i < name.len() implies name[i] != '/' by {
        if i < dec(ts).len() {
            assert(name[i] == dec(ts)[i]);
        } else if i == dec(ts).len() {
        } else if i < at {
            assert(name[i] == s[i - dec(ts).len() - 1]);
        } else {
            assert(name[i] == ".json"@[i - at]);
        }
    }
}

// -------------------------------------------------------------------- order

impl Ordered for HistoryEntry {
    open spec fn precedes(&self, other: &HistoryEntry) -> bool {
        self.ts < other.ts
    }

    proof fn lemma_order(a: &HistoryEntry, b: &HistoryEntry, c: &HistoryEntry) {
    }

    fn goes_before(&self, other: &HistoryEntry) -> (r: bool) {
        self.ts < other.ts
    }
}

/// The archive in the order of time.
pub fn in_order_of_time(entries: Vec<HistoryEntry>) -> (r: Vec<HistoryEntry>)
    ensures
        exists|p: Seq<int>| arranged(r@, entries@, p),
{
    sort_stable(entries)
}

/// A file of the archive's directory: its name, and the record it holds, where its
/// text reads and parses as one.
#[derive(Debug)]
pub struct ArchiveFile {
    pub name: String,
    pub record: Option<HistoryEntry>,
}

/// The file that a run is archived to.
pub fn append(ts: u64, results: Results, label: &str, notes: &str) -> (r: ArchiveFile)
    ensures
        r.name@ == record_named(ts as nat, label@, results.transport@, results.server_host@),
        r.record is Some,
        r.record->0.ts == ts,
        r.record->0.label@ == label@,
        r.record->0.notes@ == notes@,
        r.record->0.results == results,
{
    let name = record_name(
        ts,
        label,
        results.transport.as_str(),
        results.server_host.as_str(),
    );
    let entry = HistoryEntry { ts, label: label.to_owned(), notes: notes.to_owned(), results };
    ArchiveFile { name, record: Some(entry) }
}

/// The records among `files`, one for each file that is called like one and holds
/// one.
pub open spec fn records_among(files: Seq<ArchiveFile>) -> Seq<HistoryEntry>
    decreases files.len(),
{
    if files.len() == 0 {
        Seq::empty()
    } else {
        let before = records_among(files.drop_last());
        match files.last().record {
            Some(e) => if is_record(files.last().name@) {
                before.push(e)
            } else {
                before
            },
            None => before,
        }
    }
}

/// The archive in the order of time; files that hold no record are passed over.
pub fn list(files: Vec<ArchiveFile>) -> (r: Vec<HistoryEntry>)
    ensures
        exists|p: Seq<int>| arranged(r@, records_among(files@), p),
{
    let mut rest = files;
    let mut found: Vec<HistoryEntry> = Vec::new();
    let n = rest.len();
    let mut k: usize = 0;
    assert(files@.take(0) =~= Seq::empty());
    while k < n
        invariant
            k <= n,
            n == files@.len(),
            rest@ == files@.skip(k as int),
            found@ == records_among(files@.take(k as int)),
        decreases n - k,
    {
        let f = rest.remove(0);
        proof {
            assert(f == files@[k as int]);
            assert(files@.take(k + 1).drop_last() =~= files@.take(k as int));
            assert(files@.take(k + 1).last() == f);
            assert(rest@ =~= files@.skip(k + 1));
        }
        if is_record_name(f.name.as_str()) {
            if let Some(e) = f.record {
                found.push(e);
            }
        }
        k += 1;
    }
    assert(files@.take(n as int) =~= files@);
    in_order_of_time(found)
}

/// A run that was archived is listed as long as its file is there, whatever else
/// the directory holds, and the list never goes back in time.
pub proof fn law_archived_runs_are_listed(
    listed: Seq<HistoryEntry>,
    files: Seq<ArchiveFile>,
    p: Seq<int>,
    k: int,
    ts: nat,
    label: Seq<char>,
    transport: Seq<char>,
    server: Seq<char>,
)
    requires
        arranged(listed, records_among(files), p),
        0 <= k < files.len(),
        files[k].name@ == record_named(ts, label, transport, server),
        files[k].record is Some,
    ensures
        listed.contains(files[k].record->0),
        listed.len() == records_among(files).len(),
        forall|i: int, j: int| 0 <= i <= j < listed.len() ==> listed[i].ts <= listed[j].ts,
{
    law_records_are_found(ts, label, transport, server);
    let all = records_among(files);
    let at = lemma_record_kept(files, k);
    lemma_arranged_keeps(listed, all, p, at);
    let j = choose|j: int| 0 <= j < p.len() && #[trigger] p[j] == at;
    assert(listed[j] == files[k].record->0);
    assert forall|i: int, j: int| 0 <= i <= j < listed.len() implies listed[i].ts
        <= listed[j].ts by {
        if i < j {
            assert(in_order(listed, p, i, j));
        }
    }
}

/// Where the record of file `k` stands among the records.
proof fn lemma_record_kept(files: Seq<ArchiveFile>, k: int) -> (at: int)
    requires
        0 <= k < files.len(),
        is_record(files[k].name@),
        files[k].record is Some,
    ensures
        0 <= at < records_among(files).len(),
        records_among(files)[at] == files[k].record->0,
    decreases files.len(),
{
    if k == files.len() - 1 {
        records_among(files).len() - 1
    } else {
        lemma_record_kept(files.drop_last(), k)
    }
}

/// Where the last `limit` of `total` entries begin.
pub fn window_start(total: usize, limit: usize) -> (r: usize)
    ensures
        r == if total > limit {
            total - limit
        } else {
            0
        },
{
    if total > limit {
        total - limit
    } else {
        0
    }
}

// --------------------------------------------------------------------- time

pub open spec fn time_text(secs: int) -> Seq<char> {
    let d = date_of(secs / 86400);
    dec_padded(d.year as nat, 4) + "-"@ + dec_padded(d.month as nat, 2) + "-"@ + dec_padded(
        d.day as nat,
        2,
    ) + " "@ + dec_padded((secs % 86400 / 3600) as nat, 2) + ":"@ + dec_padded(
        (secs % 3600 / 60) as nat,
        2,
    )
}

/// Unix seconds → "YYYY-MM-DD HH:MM" (UTC).
pub fn fmt_ts(secs: u64) -> (r: String)
    ensures
        r@ == time_text(secs as int),
{
    let date = civil_date(secs / 86400);
    decimal_padded(date.year, 4).concat("-").concat(decimal_padded(date.month, 2).as_str()).concat(
        "-",
    ).concat(decimal_padded(date.day, 2).as_str()).concat(" ").concat(
        decimal_padded(secs % 86400 / 3600, 2).as_str(),
    ).concat(":").concat(decimal_padded(secs % 3600 / 60, 2).as_str())
}

/// Seconds from 1970 to the end of the year 9999.
pub const SECONDS_TO_10000: u64 = 253_402_300_800;

/// The date that a text YYYY-MM-DD HH:MM names.
pub open spec fn named_date(t: Seq<char>) -> Date {
    Date {
        year: digits_value(t.subrange(0, 4)) as u64,
        month: digits_value(t.subrange(5, 7)) as u64,
        day: digits_value(t.subrange(8, 10)) as u64,
    }
}

/// The Unix seconds that a text YYYY-MM-DD HH:MM names.
pub open spec fn named_time(t: Seq<char>) -> int {
    named_date(t).day_number() * 86400 + digits_value(t.subrange(11, 13)) * 3600 + digits_value(
        t.subrange(14, 16),
    ) * 60
}

/// `t` is a time of day on a date that exists, written YYYY-MM-DD HH:MM.
pub open spec fn is_time(t: Seq<char>) -> bool {
    &&& t.len() == 16
    &&& all_digits(t.subrange(0, 4)) && t[4] == '-'
    &&& all_digits(t.subrange(5, 7)) && t[7] == '-'
    &&& all_digits(t.subrange(8, 10)) && t[10] == ' '
    &&& all_digits(t.subrange(11, 13)) && t[13] == ':'
    &&& all_digits(t.subrange(14, 16))
    &&& named_date(t).valid()
    &&& digits_value(t.subrange(11, 13)) < 24
    &&& digits_value(t.subrange(14, 16)) < 60
}

/// The fields of a written time, in the order in which they are written.
pub struct Fields {
    pub year: nat,
    pub month: nat,
    pub day: nat,
    pub hour: nat,
    pub minute: nat,
}

/// The fields of a time in Unix seconds.
pub open spec fn fields_of(secs: int) -> Fields {
    let d = date_of(secs / 86400);
    Fields {
        year: d.year as nat,
        month: d.month as nat,
        day: d.day as nat,
        hour: (secs % 86400 / 3600) as nat,
        minute: (secs % 3600 / 60) as nat,
    }
}

/// Each field has the width it is written with.
spec fn fields_fit(f: Fields) -> bool {
    f.year < 10_000 && f.month < 100 && f.day < 100 && f.hour < 100 && f.minute < 100
}

/// `t` writes the fields `f`.
spec fn writes(t: Seq<char>, f: Fields) -> bool {
    &&& t.len() == 16
    &&& t.subrange(0, 4) == dec_padded(f.year, 4) && t[4] == '-'
    &&& t.subrange(5, 7) == dec_padded(f.month, 2) && t[7] == '-'
    &&& t.subrange(8, 10) == dec_padded(f.day, 2) && t[10] == ' '
    &&& t.subrange(11, 13) == dec_padded(f.hour, 2) && t[13] == ':'
    &&& t.subrange(14, 16) == dec_padded(f.minute, 2)
}

/// One field after the other decides which comes first.
spec fn earlier(f: Fields, g: Fields) -> bool {
    ||| f.year < g.year
    ||| f.year == g.year && f.month < g.month
    ||| f.year == g.year && f.month == g.month && f.day < g.day
    ||| f.year == g.year && f.month == g.month && f.day == g.day && f.hour < g.hour
    ||| f.year == g.year && f.month == g.month && f.day == g.day && f.hour == g.hour && f.minute
        < g.minute
}

proof fn lemma_time_is_written(secs: int)
    requires
        0 <= secs < SECONDS_TO_10000,
    ensures
        writes(time_text(secs), fields_of(secs)),
        fields_fit(fields_of(secs)),
        date_of(secs / 86400).valid(),
        date_of(secs / 86400).day_number() == secs / 86400,
{
    let t = time_text(secs);
    let d = date_of(secs / 86400);
    lemma_date_exists(secs / 86400);
    lemma_four_digit_years(d);
    let (h, m) = ((secs % 86400 / 3600) as nat, (secs % 3600 / 60) as nat);
    lemma_padded_reads_back(d.year as nat, 4, 10_000);
    lemma_padded_reads_back(d.month as nat, 2, 100);
    lemma_padded_reads_back(d.day as nat, 2, 100);
    lemma_padded_reads_back(h, 2, 100);
    lemma_padded_reads_back(m, 2, 100);
    reveal_strlit("-");
    reveal_strlit(" ");
    reveal_strlit(":");
    assert(t.len() == 16);
    assert(t.subrange(0, 4) =~= dec_padded(d.year as nat, 4));
    assert(t.subrange(5, 7) =~= dec_padded(d.month as nat, 2));
    assert(t.subrange(8, 10) =~= dec_padded(d.day as nat, 2));
    assert(t.subrange(11, 13) =~= dec_padded(h, 2));
    assert(t.subrange(14, 16) =~= dec_padded(m, 2));
}

/// A text that writes the fields of a time names that time, to the minute.
proof fn lemma_written_names(t: Seq<char>, secs: int)
    requires
        0 <= secs,
        writes(t, fields_of(secs)),
        fields_fit(fields_of(secs)),
        date_of(secs / 86400).valid(),
        date_of(secs / 86400).day_number() == secs / 86400,
    ensures
        is_time(t),
        named_time(t) == secs - secs % 60,
{
    let f = fields_of(secs);
    lemma_padded_reads_back(f.year, 4, 10_000);
    lemma_padded_reads_back(f.month, 2, 100);
    lemma_padded_reads_back(f.day, 2, 100);
    lemma_padded_reads_back(f.hour, 2, 100);
    lemma_padded_reads_back(f.minute, 2, 100);
    assert(named_date(t) == date_of(secs / 86400));
    lemma_minutes(secs);
}

/// Day, hour and minute of a time, from its minutes since 1970.
proof fn lemma_minutes(secs: int)
    requires
        0 <= secs,
    ensures
        ({
            let m = secs / 60;
            &&& secs / 86400 == m / 1440
            &&& secs % 86400 / 3600 == m % 1440 / 60
            &&& secs % 3600 / 60 == m % 60
            &&& secs - secs % 60 == 60 * m
            &&& m == 1440 * (m / 1440) + 60 * (m % 1440 / 60) + m % 60
            &&& 0 <= m % 1440 / 60 < 24
        }),
{
    let (m, r) = (secs / 60, secs % 60);
    let (day, rest) = (m / 1440, m % 1440);
    let (hour, minute) = (rest / 60, rest % 60);
    assert(secs == 60 * m + r && 0 <= r < 60);
    assert(m == 1440 * day + rest && 0 <= rest < 1440);
    assert(rest == 60 * hour + minute && 0 <= minute < 60);
    let in_day = 60 * rest + r;
    assert(0 <= in_day < 86400);
    assert(secs == 86400 * day + in_day);
    lemma_quotient(secs, 86400, day, in_day);
    let in_hour = 60 * minute + r;
    assert(0 <= in_hour < 3600);
    assert(in_day == 3600 * hour + in_hour);
    lemma_quotient(in_day, 3600, hour, in_hour);
    lemma_quotient(secs, 3600, 24 * day + hour, in_hour);
    lemma_quotient(in_hour, 60, minute, r);
    lemma_quotient(m, 60, 24 * day + hour, minute);
}

proof fn lemma_quotient(x: int, d: int, q: int, r: int)
    requires
        d > 0,
        0 <= r < d,
        x == q * d + r,
    ensures
        x / d == q,
        x % d == r,
{
    vstd::arithmetic::div_mod::lemma_fundamental_div_mod_converse(x, d, q, r);
}

/// A time that is written reads back as its minute.
pub proof fn law_time_reads_back(secs: int)
    requires
        0 <= secs < SECONDS_TO_10000,
    ensures
        is_time(time_text(secs)),
        named_time(time_text(secs)) == secs - secs % 60,
{
    lemma_time_is_written(secs);
    lemma_written_names(time_text(secs), secs);
}

/// Times sort as they are written: a later minute comes later among texts, and
/// two times look alike exactly where they fall into one minute.
pub proof fn law_times_sort_as_text(a: int, b: int)
    requires
        0 <= a <= b < SECONDS_TO_10000,
    ensures
        a / 60 == b / 60 <==> time_text(a) == time_text(b),
        a / 60 < b / 60 <==> before(time_text(a), time_text(b)),
        !before(time_text(b), time_text(a)),
{
    lemma_before_orders(time_text(a), time_text(b), time_text(a));
    if a / 60 == b / 60 {
        lemma_same_minute(a, b);
        assert(time_text(a) == time_text(b));
    } else {
        lemma_time_is_written(a);
        lemma_time_is_written(b);
        lemma_later_minute(a, b);
        lemma_earlier_sorts(time_text(a), time_text(b), fields_of(a), fields_of(b));
    }
}

proof fn lemma_same_minute(a: int, b: int)
    requires
        0 <= a <= b,
        a / 60 == b / 60,
    ensures
        a / 86400 == b / 86400,
        a % 86400 / 3600 == b % 86400 / 3600,
        a % 3600 / 60 == b % 3600 / 60,
{
    lemma_minutes(a);
    lemma_minutes(b);
}

proof fn lemma_later_minute(a: int, b: int)
    requires
        0 <= a <= b < SECONDS_TO_10000,
        a / 60 < b / 60,
        date_of(a / 86400).valid(),
        date_of(b / 86400).valid(),
        date_of(a / 86400).day_number() == a / 86400,
        date_of(b / 86400).day_number() == b / 86400,
    ensures
        earlier(fields_of(a), fields_of(b)),
{
    lemma_minutes(a);
    lemma_minutes(b);
    let (m, n) = (a / 60, b / 60);
    if m / 1440 < n / 1440 {
        lemma_dates_grow(date_of(a / 86400), date_of(b / 86400));
    } else {
        assert(m / 1440 == n / 1440);
    }
}

/// The earlier of two times comes first as text.
proof fn lemma_earlier_sorts(s: Seq<char>, t: Seq<char>, f: Fields, g: Fields)
    requires
        writes(s, f),
        writes(t, g),
        fields_fit(f),
        fields_fit(g),
        earlier(f, g),
    ensures
        before(s, t),
{
    if f.year < g.year {
        assert(s.take(0) =~= t.take(0));
        lemma_field_decides(s, t, 0, 4, f.year, g.year, 10_000);
    } else {
        assert(s.take(0) =~= t.take(0));
        lemma_prefix(s, t, 0, 4);
        if f.month < g.month {
            lemma_field_decides(s, t, 5, 7, f.month, g.month, 100);
        } else {
            lemma_prefix(s, t, 5, 7);
            if f.day < g.day {
                lemma_field_decides(s, t, 8, 10, f.day, g.day, 100);
            } else {
                lemma_prefix(s, t, 8, 10);
                if f.hour < g.hour {
                    lemma_field_decides(s, t, 11, 13, f.hour, g.hour, 100);
                } else {
                    lemma_prefix(s, t, 11, 13);
                    lemma_field_decides(s, t, 14, 16, f.minute, g.minute, 100);
                }
            }
        }
    }
}

/// A further field, and the sign behind it, that two texts have in common.
proof fn lemma_prefix(s: Seq<char>, t: Seq<char>, from: int, to: int)
    requires
        s.len() == t.len(),
        0 <= from <= to < s.len(),
        s.take(from) == t.take(from),
        s.subrange(from, to) == t.subrange(from, to),
        s[to] == t[to],
    ensures
        s.take(to + 1) == t.take(to + 1),
{
    assert forall|i: int| 0 <= i < to + 1 implies s[i] == t[i] by {
        if i < from {
            assert(s.take(from)[i] == s[i] && t.take(from)[i] == t[i]);
        } else if i < to {
            assert(s.subrange(from, to)[i - from] == s[i]);
            assert(t.subrange(from, to)[i - from] == t[i]);
        }
    }
    assert(s.take(to + 1) =~= t.take(to + 1));
}

/// Runs of digits of one length sort as the numbers they write.
proof fn lemma_digits_sort(a: Seq<char>, b: Seq<char>)
    requires
        a.len() == b.len(),
        all_digits(a),
        all_digits(b),
        digits_value(a) < digits_value(b),
    ensures
        before(a, b),
    decreases a.len(),
{
    assert(a.len() > 0);
    let (x, y) = (a.drop_last(), b.drop_last());
    assert(is_digit(a[a.len() - 1]) && is_digit(b[b.len() - 1]));
    assert(all_digits(x)) by {
        assert forall|i: int| 0 <= i < x.len() implies is_digit(#[trigger] x[i]) by {
            assert(x[i] == a[i]);
        }
    }
    assert(all_digits(y)) by {
        assert forall|i: int| 0 <= i < y.len() implies is_digit(#[trigger] y[i]) by {
            assert(y[i] == b[i]);
        }
    }
    let (u, v) = (seq![a.last()], seq![b.last()]);
    assert(a =~= x + u && b =~= y + v);
    if digits_value(x) < digits_value(y) {
        lemma_digits_sort(x, y);
        lemma_before_extends(x, y, u, v);
    } else {
        lemma_digits_value_is_unique(x, y);
        lemma_before_common(x, u, v);
        assert(u[0] < v[0]);
    }
}

/// Two texts that agree up to a field are told apart by it.
proof fn lemma_field_decides(
    s: Seq<char>,
    t: Seq<char>,
    from: int,
    to: int,
    m: nat,
    n: nat,
    limit: nat,
)
    requires
        s.len() == t.len(),
        0 <= from < to <= s.len(),
        s.take(from) == t.take(from),
        (to - from == 2 && limit == 100) || (to - from == 4 && limit == 10_000),
        s.subrange(from, to) == dec_padded(m, (to - from) as nat),
        t.subrange(from, to) == dec_padded(n, (to - from) as nat),
        m < n < limit,
    ensures
        before(s, t),
{
    let (a, b) = (s.subrange(from, to), t.subrange(from, to));
    lemma_padded_reads_back(m, (to - from) as nat, limit);
    lemma_padded_reads_back(n, (to - from) as nat, limit);
    lemma_digits_sort(a, b);
    lemma_before_extends(a, b, s.skip(to), t.skip(to));
    lemma_before_common(s.take(from), a + s.skip(to), b + t.skip(to));
    assert(s =~= s.take(from) + (a + s.skip(to)));
    assert(t =~= t.take(from) + (b + t.skip(to)));
}

/// A name in the archive keeps letters, digits, dots and dashes of the label in
/// their places and has an underscore for anything else.
pub proof fn law_slug_keeps_what_is_safe(s: Seq<char>, i: int)
    requires
        0 <= i < s.len(),
    ensures
        slugged(s).len() == s.len(),
        ({
            let c = s[i];
            let safe = ('a' <= c && c <= 'z') || ('A' <= c && c <= 'Z') || ('0' <= c && c <= '9')
                || c == '-' || c == '.';
            &&& safe ==> slugged(s)[i] == c
            &&& !safe ==> slugged(s)[i] == '_'
        }),
{
}

/// The name begins with the time of the run, and with a label it does not depend
/// on how the run was connected.
pub proof fn law_record_name_tells_the_time(
    ts: nat,
    label: Seq<char>,
    transport: Seq<char>,
    server: Seq<char>,
    other: Seq<char>,
)
    ensures
        dec(ts).is_prefix_of(record_named(ts, label, transport, server)),
        label.len() > 0 ==> record_named(ts, label, transport, server) == record_named(
            ts,
            label,
            other,
            other,
        ),
        label.len() == 0 ==> record_named(ts, label, transport, server) == record_named(
            ts,
            transport + "-"@ + server,
            other,
            other,
        ),
{
    let n = record_named(ts, label, transport, server);
    assert(n.subrange(0, dec(ts).len() as int) =~= dec(ts));
    reveal_strlit("-");
    assert((transport + "-"@ + server).len() > 0);
}

/// Nothing is listed that is not the record of a file called like one.
pub proof fn law_only_records_are_listed(
    listed: Seq<HistoryEntry>,
    files: Seq<ArchiveFile>,
    p: Seq<int>,
    i: int,
)
    requires
        arranged(listed, records_among(files), p),
        0 <= i < listed.len(),
    ensures
        exists|k: int|
            0 <= k < files.len() && (#[trigger] files[k]).record == Some(listed[i]) && is_record(
                files[k].name@,
            ),
{
    assert(listed[i] == records_among(files)[p[i]]);
    lemma_record_of_file(files, p[i]);
}

proof fn lemma_record_of_file(files: Seq<ArchiveFile>, j: int)
    requires
        0 <= j < records_among(files).len(),
    ensures
        exists|k: int|
            0 <= k < files.len() && (#[trigger] files[k]).record == Some(records_among(files)[j])
                && is_record(files[k].name@),
    decreases files.len(),
{
    let rest = files.drop_last();
    if j < records_among(rest).len() {
        lemma_record_of_file(rest, j);
        let k = choose|k: int|
            0 <= k < rest.len() && (#[trigger] rest[k]).record == Some(records_among(rest)[j])
                && is_record(rest[k].name@);
        assert(files[k] == rest[k]);
    } else {
        assert(files[files.len() - 1] == files.last());
    }
}

} // verus!
