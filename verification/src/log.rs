//! The session log: one counter of completed work sessions per calendar day,
//! persisted as bytes.
//!
//! The store is the whole log, read fresh and rewritten whole on every
//! update. Its format is one 22-byte line per day — `YYYY-MM-DD`, a space,
//! the counter as ten zero-padded digits, a newline — so it is both
//! human-readable and provably lossless: [`lemma_log_round_trip`] shows that
//! parsing what [`serialize_log`] wrote gives back exactly the entries that
//! went in.

use vstd::prelude::*;
use crate::codec::all_digits;
use crate::codec::dec_digits;
use crate::codec::dec_value;
use crate::codec::lemma_dec_digits_shape;
use crate::codec::lemma_dec_round_trip;
use crate::codec::lemma_pow10_bounds;
use crate::codec::parse_decimal;
use crate::codec::push_decimal;

verus! {

/// A calendar date, the key of the session log.
#[derive(PartialEq, Eq, Structural, Clone, Copy, Debug)]
pub struct Date {
    pub year: u32,
    pub month: u32,
    pub day: u32,
}

impl Date {
    /// A date the ten-byte `YYYY-MM-DD` form can carry.
    pub open spec fn wf(self) -> bool {
        &&& self.year <= 9999
        &&& 1 <= self.month <= 12
        &&& 1 <= self.day <= 31
    }

    /// Checks the field ranges of a date read from outside the library.
    pub fn valid(&self) -> (b: bool)
        ensures
            b == self.wf(),
    {
        self.year <= 9999 && 1 <= self.month && self.month <= 12 && 1 <= self.day
            && self.day <= 31
    }
}

/// One day's record: how many work sessions were completed on that date.
#[derive(PartialEq, Eq, Structural, Clone, Copy, Debug)]
pub struct LogEntry {
    pub date: Date,
    pub work_sessions: u32,
}

impl LogEntry {
    /// A date in range and a counter that at least one completion produced.
    pub open spec fn wf(self) -> bool {
        &&& self.date.wf()
        &&& self.work_sessions >= 1
    }
}

/// A well-formed log: every entry well formed and at most one entry per date.
pub open spec fn log_wf(es: Seq<LogEntry>) -> bool {
    &&& forall|i: int| 0 <= i < es.len() ==> (#[trigger] es[i]).wf()
    &&& forall|i: int, j: int| 0 <= i < j < es.len()
        ==> (#[trigger] es[i]).date != (#[trigger] es[j]).date
}

/// The store could not be parsed: it exists but is not a session log.
#[derive(PartialEq, Eq, Structural, Clone, Copy, Debug)]
pub enum PersistenceError {
    Corrupt,
}

/// The ten bytes `YYYY-MM-DD` of a date.
pub open spec fn spec_ser_date(d: Date) -> Seq<u8> {
    dec_digits(d.year as nat, 4) + seq![45u8] + dec_digits(d.month as nat, 2) + seq![45u8]
        + dec_digits(d.day as nat, 2)
}

/// The 22-byte line of one entry: the date, a space, ten counter digits, a
/// newline.
pub open spec fn spec_ser_entry(e: LogEntry) -> Seq<u8> {
    spec_ser_date(e.date) + seq![32u8] + dec_digits(e.work_sessions as nat, 10) + seq![10u8]
}

/// The whole store: every entry's line in order.
pub open spec fn spec_ser_log(es: Seq<LogEntry>) -> Seq<u8>
    decreases es.len(),
{
    if es.len() == 0 {
        Seq::empty()
    } else {
        spec_ser_entry(es[0]) + spec_ser_log(es.subrange(1, es.len() as int))
    }
}

/// What one 22-byte line must look like, and the entry it denotes.
pub open spec fn spec_parse_entry(s: Seq<u8>) -> Option<LogEntry> {
    if s.len() == 22
        && all_digits(s.subrange(0, 4)) && s[4] == 45u8
        && all_digits(s.subrange(5, 7)) && s[7] == 45u8
        && all_digits(s.subrange(8, 10)) && s[10] == 32u8
        && all_digits(s.subrange(11, 21)) && s[21] == 10u8
        && dec_value(s.subrange(0, 4)) <= 9999
        && 1 <= dec_value(s.subrange(5, 7)) <= 12
        && 1 <= dec_value(s.subrange(8, 10)) <= 31
        && 1 <= dec_value(s.subrange(11, 21)) <= u32::MAX
    {
        Some(LogEntry {
            date: Date {
                year: dec_value(s.subrange(0, 4)) as u32,
                month: dec_value(s.subrange(5, 7)) as u32,
                day: dec_value(s.subrange(8, 10)) as u32,
            },
            work_sessions: dec_value(s.subrange(11, 21)) as u32,
        })
    } else {
        None
    }
}

/// Parses a whole store: a sequence of 22-byte lines, or nothing if any
/// line, or a trailing fragment, is malformed.
pub open spec fn spec_parse_log(s: Seq<u8>) -> Option<Seq<LogEntry>>
    decreases s.len(),
{
    if s.len() == 0 {
        Some(Seq::empty())
    } else if s.len() < 22 {
        None
    } else {
        match spec_parse_entry(s.subrange(0, 22)) {
            None => None,
            Some(e) => match spec_parse_log(s.subrange(22, s.len() as int)) {
                None => None,
                Some(rest) => Some(seq![e] + rest),
            },
        }
    }
}

/// Appends the ten date bytes `YYYY-MM-DD`.
fn push_date(out: &mut Vec<u8>, d: &Date)
    ensures
        final(out)@ == old(out)@ + spec_ser_date(*d),
{
    push_decimal(out, d.year as u64, 4);
    out.push(45u8);
    push_decimal(out, d.month as u64, 2);
    out.push(45u8);
    push_decimal(out, d.day as u64, 2);
    proof {
        assert(final(out)@ =~= old(out)@ + spec_ser_date(*d));
    }
}

/// Appends one entry's 22-byte line.
fn push_entry(out: &mut Vec<u8>, e: &LogEntry)
    ensures
        final(out)@ == old(out)@ + spec_ser_entry(*e),
{
    push_date(out, &e.date);
    out.push(32u8);
    push_decimal(out, e.work_sessions as u64, 10);
    out.push(10u8);
    proof {
        assert(final(out)@ =~= old(out)@ + spec_ser_entry(*e));
    }
}

/// Serialising one more entry appends its line.
proof fn lemma_ser_log_snoc(es: Seq<LogEntry>, e: LogEntry)
    ensures
        spec_ser_log(es.push(e)) == spec_ser_log(es) + spec_ser_entry(e),
    decreases es.len(),
{
    let all = es.push(e);
    if es.len() == 0 {
        assert(all.subrange(1, all.len() as int) =~= Seq::<LogEntry>::empty());
        assert(spec_ser_log(Seq::<LogEntry>::empty()) == Seq::<u8>::empty());
        assert(spec_ser_log(es) == Seq::<u8>::empty());
        assert(spec_ser_log(all) =~= spec_ser_log(es) + spec_ser_entry(e));
    } else {
        assert(all[0] == es[0]);
        assert(all.subrange(1, all.len() as int) =~= es.subrange(1, es.len() as int).push(e));
        lemma_ser_log_snoc(es.subrange(1, es.len() as int), e);
        assert(spec_ser_log(all) =~= spec_ser_log(es) + spec_ser_entry(e));
    }
}

/// Writes the whole log as bytes, one 22-byte line per entry, in order.
pub fn serialize_log(entries: &Vec<LogEntry>) -> (out: Vec<u8>)
    ensures
        out@ == spec_ser_log(entries@),
{
    let mut out: Vec<u8> = Vec::new();
    let mut i: usize = 0;
    while i < entries.len()
        invariant
            i <= entries@.len(),
            out@ == spec_ser_log(entries@.subrange(0, i as int)),
        decreases entries@.len() - i,
    {
        push_entry(&mut out, &entries[i]);
        proof {
            assert(entries@.subrange(0, i + 1 as int)
                =~= entries@.subrange(0, i as int).push(entries@[i as int]));
            lemma_ser_log_snoc(entries@.subrange(0, i as int), entries@[i as int]);
        }
        i = i + 1;
    }
    proof {
        assert(entries@.subrange(0, entries@.len() as int) =~= entries@);
    }
    out
}

/// Reads the 22-byte line that starts at `start`.
fn parse_entry(s: &[u8], start: usize) -> (r: Option<LogEntry>)
    requires
        start + 22 <= s@.len(),
    ensures
        r == spec_parse_entry(s@.subrange(start as int, start + 22 as int)),
{
    let ghost line = s@.subrange(start as int, start + 22 as int);
    let slen: usize = s.len();
    proof {
        assert(start + 22 <= slen);
        assert(line.subrange(0, 4) =~= s@.subrange(start as int, start + 4 as int));
        assert(line.subrange(5, 7) =~= s@.subrange(start + 5 as int, start + 7 as int));
        assert(line.subrange(8, 10) =~= s@.subrange(start + 8 as int, start + 10 as int));
        assert(line.subrange(11, 21) =~= s@.subrange(start + 11 as int, start + 21 as int));
    }
    let year = match parse_decimal(s, start, 4) {
        Some(v) => v,
        None => {
            return None;
        },
    };
    let month = match parse_decimal(s, start + 5, 2) {
        Some(v) => v,
        None => {
            return None;
        },
    };
    let day = match parse_decimal(s, start + 8, 2) {
        Some(v) => v,
        None => {
            return None;
        },
    };
    let count = match parse_decimal(s, start + 11, 10) {
        Some(v) => v,
        None => {
            return None;
        },
    };
    if s[start + 4] != 45u8 || s[start + 7] != 45u8 || s[start + 10] != 32u8
        || s[start + 21] != 10u8 {
        return None;
    }
    if year > 9999 || month < 1 || month > 12 || day < 1 || day > 31 || count < 1
        || count > u32::MAX as u64 {
        return None;
    }
    Some(LogEntry {
        date: Date { year: year as u32, month: month as u32, day: day as u32 },
        work_sessions: count as u32,
    })
}

/// Glues already-parsed entries onto the result of parsing the rest.
spec fn glue(acc: Seq<LogEntry>, rest: Option<Seq<LogEntry>>) -> Option<Seq<LogEntry>> {
    match rest {
        None => None,
        Some(r) => Some(acc + r),
    }
}

/// Parses a whole store; `None` exactly where [`spec_parse_log`] says the
/// bytes are not a session log.
pub fn parse_log(s: &[u8]) -> (r: Option<Vec<LogEntry>>)
    ensures
        match r {
            Some(v) => spec_parse_log(s@) == Some(v@),
            None => spec_parse_log(s@) is None,
        },
{
    let slen: usize = s.len();
    let mut acc: Vec<LogEntry> = Vec::new();
    let mut i: usize = 0;
    proof {
        assert(s@.subrange(0, slen as int) =~= s@);
        if spec_parse_log(s@) is Some {
            assert(Seq::<LogEntry>::empty() + spec_parse_log(s@)->Some_0
                =~= spec_parse_log(s@)->Some_0);
        }
    }
    while i < slen
        invariant
            i <= slen,
            slen == s@.len(),
            spec_parse_log(s@) == glue(acc@, spec_parse_log(s@.subrange(i as int, slen as int))),
        decreases slen - i,
    {
        let ghost suffix = s@.subrange(i as int, slen as int);
        if slen - i < 22 {
            proof {
                assert(suffix.len() > 0 && suffix.len() < 22);
                assert(spec_parse_log(suffix) is None);
            }
            return None;
        }
        let e = match parse_entry(s, i) {
            Some(e) => e,
            None => {
                proof {
                    assert(suffix.subrange(0, 22)
                        =~= s@.subrange(i as int, i + 22 as int));
                    assert(spec_parse_log(suffix) is None);
                }
                return None;
            },
        };
        proof {
            assert(suffix.subrange(0, 22) =~= s@.subrange(i as int, i + 22 as int));
            assert(suffix.subrange(22, suffix.len() as int)
                =~= s@.subrange(i + 22 as int, slen as int));
            assert(spec_parse_log(suffix)
                == glue(seq![e], spec_parse_log(s@.subrange(i + 22 as int, slen as int))));
            assert forall|rest: Seq<LogEntry>|
                glue(acc@, Some(seq![e] + rest)) == glue(acc@.push(e), Some(rest)) by {
                assert(acc@ + (seq![e] + rest) =~= acc@.push(e) + rest);
            };
            if spec_parse_log(s@.subrange(i + 22 as int, slen as int)) is Some {
                let rest = spec_parse_log(s@.subrange(i + 22 as int, slen as int))->Some_0;
                assert(acc@ + (seq![e] + rest) =~= acc@.push(e) + rest);
            }
        }
        acc.push(e);
        i = i + 22;
    }
    proof {
        assert(s@.subrange(slen as int, slen as int) =~= Seq::<u8>::empty());
        assert(spec_parse_log(Seq::<u8>::empty()) == Some(Seq::<LogEntry>::empty()));
        assert(acc@ + Seq::<LogEntry>::empty() =~= acc@);
    }
    Some(acc)
}

/// The index of the first entry for `d`, or the length if there is none.
pub open spec fn spec_find(es: Seq<LogEntry>, d: Date) -> int
    decreases es.len(),
{
    if es.len() == 0 {
        0
    } else if es[0].date == d {
        0
    } else {
        1 + spec_find(es.subrange(1, es.len() as int), d)
    }
}

/// What [`spec_find`] returns: an index in range pointing at `d`, with no
/// earlier entry for `d`; or the length when no entry carries `d`.
pub proof fn lemma_find_props(es: Seq<LogEntry>, d: Date)
    ensures
        0 <= spec_find(es, d) <= es.len(),
        spec_find(es, d) < es.len() ==> es[spec_find(es, d)].date == d,
        forall|j: int| 0 <= j < spec_find(es, d) ==> (#[trigger] es[j]).date != d,
    decreases es.len(),
{
    if es.len() > 0 && es[0].date != d {
        let rest = es.subrange(1, es.len() as int);
        lemma_find_props(rest, d);
        assert forall|j: int| 0 <= j < spec_find(es, d) implies (#[trigger] es[j]).date != d by {
            if j >= 1 {
                assert(es[j] == rest[j - 1]);
            }
        };
    }
}

/// One more completed session: a saturating increment of a day's counter.
pub open spec fn spec_bump(c: u32) -> u32 {
    if c == u32::MAX {
        c
    } else {
        (c + 1) as u32
    }
}

/// Recording a completion for `d`: the first entry for `d` gets its counter
/// bumped; if no entry carries `d`, a fresh entry with counter 1 is appended.
pub open spec fn spec_record(es: Seq<LogEntry>, d: Date) -> Seq<LogEntry> {
    let i = spec_find(es, d);
    if i < es.len() {
        es.update(i, LogEntry { work_sessions: spec_bump(es[i].work_sessions), ..es[i] })
    } else {
        es.push(LogEntry { date: d, work_sessions: 1 })
    }
}

/// Applies one completed work session for `d` to an in-memory log;
/// see [`spec_record`].
pub fn apply_completion(entries: &mut Vec<LogEntry>, d: Date)
    ensures
        final(entries)@ == spec_record(old(entries)@, d),
{
    proof {
        lemma_find_props(old(entries)@, d);
    }
    let ghost found = spec_find(old(entries)@, d);
    let n = entries.len();
    let mut i: usize = 0;
    while i < n
        invariant
            i <= n,
            n == entries@.len(),
            entries@ == old(entries)@,
            found == spec_find(old(entries)@, d),
            0 <= found <= n,
            found < n ==> old(entries)@[found].date == d,
            forall|j: int| 0 <= j < found ==> (#[trigger] old(entries)@[j]).date != d,
            forall|j: int| 0 <= j < i ==> (#[trigger] old(entries)@[j]).date != d,
        decreases n - i,
    {
        if entries[i].date == d {
            proof {
                assert(found == i);
            }
            let e = entries[i];
            let bumped: u32 = if e.work_sessions == u32::MAX {
                e.work_sessions
            } else {
                e.work_sessions + 1
            };
            entries.set(i, LogEntry { date: e.date, work_sessions: bumped });
            return;
        }
        i = i + 1;
    }
    proof {
        assert(found == n);
    }
    entries.push(LogEntry { date: d, work_sessions: 1 });
}

/// Records one completed work session for `d` against the persisted store
/// as it was read (`None` when no store exists yet), and returns the bytes
/// to write back. Succeeds exactly when the store is absent or parses; an
/// unparsable store is reported as corrupt rather than silently replaced.
pub fn record_completion(store: Option<&Vec<u8>>, d: Date) -> (r: Result<Vec<u8>, PersistenceError>)
    requires
        d.wf(),
    ensures
        match store {
            None => r matches Ok(out)
                && out@ == spec_ser_log(spec_record(Seq::<LogEntry>::empty(), d)),
            Some(bytes) => match spec_parse_log(bytes@) {
                None => r == Err::<Vec<u8>, PersistenceError>(PersistenceError::Corrupt),
                Some(es) => r matches Ok(out) && out@ == spec_ser_log(spec_record(es, d)),
            },
        },
{
    let mut entries: Vec<LogEntry> = match store {
        None => Vec::new(),
        Some(bytes) => match parse_log(bytes.as_slice()) {
            None => {
                return Err(PersistenceError::Corrupt);
            },
            Some(es) => es,
        },
    };
    apply_completion(&mut entries, d);
    Ok(serialize_log(&entries))
}

/// Returns every entry of the store for display. A missing store is an
/// empty history, not an error; only a store that exists and does not parse
/// is reported as corrupt.
pub fn read_all(store: Option<&Vec<u8>>) -> (r: Result<Vec<LogEntry>, PersistenceError>)
    ensures
        match store {
            None => r matches Ok(v) && v@ == Seq::<LogEntry>::empty(),
            Some(bytes) => match spec_parse_log(bytes@) {
                None => r == Err::<Vec<LogEntry>, PersistenceError>(PersistenceError::Corrupt),
                Some(es) => r matches Ok(v) && v@ == es,
            },
        },
{
    match store {
        None => Ok(Vec::new()),
        Some(bytes) => match parse_log(bytes.as_slice()) {
            None => Err(PersistenceError::Corrupt),
            Some(es) => Ok(es),
        },
    }
}

/// One entry's line is exactly 22 bytes.
pub proof fn lemma_ser_entry_len(e: LogEntry)
    ensures
        spec_ser_entry(e).len() == 22,
{
    lemma_dec_digits_shape(e.date.year as nat, 4);
    lemma_dec_digits_shape(e.date.month as nat, 2);
    lemma_dec_digits_shape(e.date.day as nat, 2);
    lemma_dec_digits_shape(e.work_sessions as nat, 10);
}

/// Parsing the line written for a well-formed entry gives that entry back.
pub proof fn lemma_entry_round_trip(e: LogEntry)
    requires
        e.wf(),
    ensures
        spec_parse_entry(spec_ser_entry(e)) == Some(e),
{
    let s = spec_ser_entry(e);
    lemma_ser_entry_len(e);
    lemma_dec_digits_shape(e.date.year as nat, 4);
    lemma_dec_digits_shape(e.date.month as nat, 2);
    lemma_dec_digits_shape(e.date.day as nat, 2);
    lemma_dec_digits_shape(e.work_sessions as nat, 10);
    lemma_pow10_bounds();
    assert(s.subrange(0, 4) =~= dec_digits(e.date.year as nat, 4));
    assert(s.subrange(5, 7) =~= dec_digits(e.date.month as nat, 2));
    assert(s.subrange(8, 10) =~= dec_digits(e.date.day as nat, 2));
    assert(s.subrange(11, 21) =~= dec_digits(e.work_sessions as nat, 10));
    assert(s[4] == 45u8 && s[7] == 45u8 && s[10] == 32u8 && s[21] == 10u8);
    lemma_dec_round_trip(e.date.year as nat, 4);
    lemma_dec_round_trip(e.date.month as nat, 2);
    lemma_dec_round_trip(e.date.day as nat, 2);
    lemma_dec_round_trip(e.work_sessions as nat, 10);
}

/// Round trip of the whole store: parsing the bytes written for any
/// well-formed entries gives back exactly those entries, in order.
pub proof fn lemma_log_round_trip(es: Seq<LogEntry>)
    requires
        forall|i: int| 0 <= i < es.len() ==> (#[trigger] es[i]).wf(),
    ensures
        spec_parse_log(spec_ser_log(es)) == Some(es),
    decreases es.len(),
{
    if es.len() == 0 {
        assert(spec_ser_log(es) == Seq::<u8>::empty());
    } else {
        let rest = es.subrange(1, es.len() as int);
        let s = spec_ser_log(es);
        lemma_ser_entry_len(es[0]);
        lemma_entry_round_trip(es[0]);
        assert(s == spec_ser_entry(es[0]) + spec_ser_log(rest));
        assert(s.subrange(0, 22) =~= spec_ser_entry(es[0]));
        assert(s.subrange(22, s.len() as int) =~= spec_ser_log(rest));
        lemma_log_round_trip(rest);
        assert(seq![es[0]] + rest =~= es);
    }
}

/// Whatever parses at all parses into well-formed entries: in-range dates
/// and counters that at least one completion produced.
pub proof fn lemma_parsed_entries_wf(s: Seq<u8>)
    ensures
        spec_parse_log(s) matches Some(es)
            ==> forall|i: int| 0 <= i < es.len() ==> (#[trigger] es[i]).wf(),
    decreases s.len(),
{
    if s.len() >= 22 && spec_parse_log(s) is Some {
        let es = spec_parse_log(s)->Some_0;
        let e = spec_parse_entry(s.subrange(0, 22))->Some_0;
        let rest = spec_parse_log(s.subrange(22, s.len() as int))->Some_0;
        assert(e.wf());
        lemma_parsed_entries_wf(s.subrange(22, s.len() as int));
        assert forall|i: int| 0 <= i < es.len() implies (#[trigger] es[i]).wf() by {
            if i == 0 {
                assert(es[0] == e);
            } else {
                assert(es[i] == rest[i - 1]);
            }
        };
    }
}

/// Recording keeps the log well formed: entries stay well formed and dates
/// stay unique, whether the record bumped an old entry or appended a new one.
pub proof fn lemma_record_preserves_wf(es: Seq<LogEntry>, d: Date)
    requires
        log_wf(es),
        d.wf(),
    ensures
        log_wf(spec_record(es, d)),
{
    lemma_find_props(es, d);
}

/// Recording the same absent date twice appends one entry and bumps it to
/// two: the counter counts completions of that date, however many entries
/// the log already holds for other dates.
pub proof fn lemma_record_twice_fresh(es: Seq<LogEntry>, d: Date)
    requires
        log_wf(es),
        d.wf(),
        forall|j: int| 0 <= j < es.len() ==> (#[trigger] es[j]).date != d,
    ensures
        spec_record(spec_record(es, d), d)
            == es.push(LogEntry { date: d, work_sessions: 2 }),
{
    lemma_find_props(es, d);
    assert(spec_find(es, d) == es.len());
    let es1 = es.push(LogEntry { date: d, work_sessions: 1 });
    assert(spec_record(es, d) == es1);
    lemma_find_props(es1, d);
    assert(es1[es.len() as int].date == d);
    assert(spec_find(es1, d) == es.len());
    assert(spec_record(es1, d)
        =~= es.push(LogEntry { date: d, work_sessions: 2 }));
}

/// Recording two distinct dates into an empty store yields two distinct
/// entries, each counting one session.
pub proof fn lemma_two_distinct_dates(d1: Date, d2: Date)
    requires
        d1.wf(),
        d2.wf(),
        d1 != d2,
    ensures
        spec_record(spec_record(Seq::<LogEntry>::empty(), d1), d2)
            == seq![
                LogEntry { date: d1, work_sessions: 1 },
                LogEntry { date: d2, work_sessions: 1 },
            ],
{
    let e0 = Seq::<LogEntry>::empty();
    lemma_find_props(e0, d1);
    let es1 = spec_record(e0, d1);
    assert(es1 == e0.push(LogEntry { date: d1, work_sessions: 1 }));
    lemma_find_props(es1, d2);
    assert(spec_find(es1, d2) == 1) by {
        assert(es1[0].date == d1);
        assert(es1.subrange(1, 1) =~= Seq::<LogEntry>::empty());
    };
    assert(spec_record(es1, d2)
        =~= seq![
            LogEntry { date: d1, work_sessions: 1 },
            LogEntry { date: d2, work_sessions: 1 },
        ]);
}

/// Lookup goes by date alone: in a well-formed log the entry found for `d`
/// is the one entry that carries `d`, wherever in the store it stands.
pub proof fn lemma_lookup_ignores_order(es: Seq<LogEntry>, d: Date, i: int)
    requires
        log_wf(es),
        0 <= i < es.len(),
        es[i].date == d,
    ensures
        spec_find(es, d) == i,
{
    lemma_find_props(es, d);
    let f = spec_find(es, d);
    if f < i {
        assert(es[f].date == d);
        assert(es[f].date != es[i].date);
    }
    if f > i {
        assert(es[i].date != d);
    }
}

} // verus!
