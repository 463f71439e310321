//! The append-only log that makes a store durable: one record per line, the
//! key, a single space, then the value. Loading folds the well-formed lines
//! of a log into a store; lines without a space are skipped.
use vstd::prelude::*;

use crate::storage::in_memory::{fold_pairs, pairs_view, InMemoryKeyValueStore};
use crate::storage::{inserted, is_key, lookup, KeyValueStore, StoreError};

verus! {

/// The character between the key and the value of a record.
pub const KEY_VALUE_SEPARATOR: char = ' ';

/// The key and value that a log line holds: the key runs up to the first
/// space, the value is everything after it. A line without a space holds
/// nothing.
pub open spec fn parse_line(line: Seq<char>) -> Option<(Seq<char>, Seq<char>)> {
    match line.index_of_first(KEY_VALUE_SEPARATOR) {
        Some(i) => Some((line.subrange(0, i), line.subrange(i + 1, line.len() as int))),
        None => None,
    }
}

/// The pairs that a log holds, in the order of its lines.
pub open spec fn parsed_pairs(lines: Seq<Seq<char>>) -> Seq<(Seq<char>, Seq<char>)>
    decreases lines.len(),
{
    if lines.len() == 0 {
        Seq::empty()
    } else {
        let rest = parsed_pairs(lines.drop_last());
        match parse_line(lines.last()) {
            Some(p) => rest.push(p),
            None => rest,
        }
    }
}

/// The entries that loading a log yields: its pairs folded in order, so the
/// last record of a key wins.
pub open spec fn log_entries(lines: Seq<Seq<char>>) -> Map<Seq<char>, Seq<char>> {
    fold_pairs(parsed_pairs(lines))
}

/// The log line that records `value` under `key`.
pub open spec fn record_line(key: Seq<char>, value: Seq<char>) -> Seq<char> {
    key + seq![KEY_VALUE_SEPARATOR] + value
}

/// The views of a sequence of owned lines.
pub open spec fn lines_view(lines: Seq<String>) -> Seq<Seq<char>> {
    lines.map_values(|l: String| l@)
}

/// The view of an optional owned pair.
pub open spec fn opt_pair_view(r: Option<(String, String)>) -> Option<(Seq<char>, Seq<char>)> {
    match r {
        Some(p) => Some((p.0@, p.1@)),
        None => None,
    }
}

/// Splits a log line at its first space into key and value; `None` for a
/// line without a space.
pub fn parse_log_line(line: &str) -> (r: Option<(String, String)>)
    ensures
        opt_pair_view(r) == parse_line(line@),
{
    let n = line.unicode_len();
    let mut i: usize = 0;
    while i < n
        invariant
            i <= n,
            n == line@.len(),
            forall|j: int| 0 <= j < i ==> line@[j] != KEY_VALUE_SEPARATOR,
        decreases n - i,
    {
        if line.get_char(i) == KEY_VALUE_SEPARATOR {
            proof {
                line@.index_of_first_ensures(KEY_VALUE_SEPARATOR);
            }
            let key = line.substring_char(0, i).to_owned();
            let value = line.substring_char(i + 1, n).to_owned();
            return Some((key, value));
        }
        i = i + 1;
    }
    proof {
        line@.index_of_first_ensures(KEY_VALUE_SEPARATOR);
    }
    None
}

/// A line without the carriage return, if any, that preceded its line break.
pub open spec fn strip_cr(line: Seq<char>) -> Seq<char> {
    if line.len() > 0 && line.last() == '\r' {
        line.drop_last()
    } else {
        line
    }
}

/// The complete lines of a log text, each without its line break (`\n` or
/// `\r\n`), and the unterminated rest after the last line break: a record
/// cut off by a crash.
pub open spec fn split_log(text: Seq<char>) -> (Seq<Seq<char>>, Seq<char>)
    decreases text.len(),
{
    if text.len() == 0 {
        (Seq::empty(), Seq::empty())
    } else {
        let prev = split_log(text.drop_last());
        if text.last() == '\n' {
            (prev.0.push(strip_cr(prev.1)), Seq::empty())
        } else {
            (prev.0, prev.1.push(text.last()))
        }
    }
}

/// Relies on `String::push`: appends one character.
#[verifier::external_body]
fn push_char(s: &mut String, c: char)
    ensures
        final(s)@ == old(s)@.push(c),
{
    s.push(c)
}

/// Splits a log text into its complete lines, each without its line break,
/// and the unterminated rest, which holds no record.
pub fn split_log_text(text: &str) -> (r: (Vec<String>, String))
    ensures
        lines_view(r.0@) == split_log(text@).0,
        r.1@ == split_log(text@).1,
{
    let mut lines: Vec<String> = Vec::new();
    let mut rest = String::new();
    // a carriage return not yet known to end a line, held back from `rest`
    let mut held_cr = false;
    proof {
        assert(lines_view(lines@) =~= Seq::<Seq<char>>::empty());
    }
    for c in it: text.chars()
        invariant
            it.seq() == text@,
            lines_view(lines@) == split_log(text@.subrange(0, it.index() as int)).0,
            (if held_cr { rest@.push('\r') } else { rest@ }) == split_log(
                text@.subrange(0, it.index() as int),
            ).1,
            !held_cr ==> strip_cr(rest@) == rest@,
    {
        let ghost done = text@.subrange(0, it.index() as int);
        let ghost next = text@.subrange(0, it.index() + 1);
        proof {
            assert(next.drop_last() =~= done);
            if held_cr {
                assert(rest@.push('\r').drop_last() =~= rest@);
            }
        }
        if c == '\n' {
            let line = rest;
            lines.push(line);
            rest = String::new();
            held_cr = false;
            proof {
                assert(lines_view(lines@) =~= split_log(done).0.push(strip_cr(split_log(done).1)));
            }
        } else if c == '\r' {
            if held_cr {
                push_char(&mut rest, '\r');
            }
            held_cr = true;
        } else {
            if held_cr {
                push_char(&mut rest, '\r');
            }
            push_char(&mut rest, c);
            held_cr = false;
        }
    }
    if held_cr {
        push_char(&mut rest, '\r');
    }
    proof {
        assert(text@.subrange(0, text@.len() as int) =~= text@);
    }
    (lines, rest)
}

/// Text without line breaks, appended to a log text, extends its
/// unterminated rest and adds no line.
pub proof fn lemma_split_log_no_break(text: Seq<char>, s: Seq<char>)
    requires
        !s.contains('\n'),
    ensures
        split_log(text + s) == (split_log(text).0, split_log(text).1 + s),
    decreases s.len(),
{
    if s.len() == 0 {
        assert(text + s =~= text);
        assert(split_log(text).1 + s =~= split_log(text).1);
    } else {
        let init = s.drop_last();
        assert(!init.contains('\n')) by {
            if init.contains('\n') {
                let j = choose|j: int| 0 <= j < init.len() && init[j] == '\n';
                assert(s[j] == '\n');
            }
        }
        lemma_split_log_no_break(text, init);
        assert((text + s).drop_last() =~= text + init);
        assert((text + s).last() == s.last());
        assert(s.last() != '\n') by {
            assert(s[s.len() - 1] == s.last());
        }
        assert(split_log(text).1 + init.push(s.last()) =~= split_log(text).1 + s);
        assert(init.push(s.last()) =~= s);
    }
}

/// Appending a record and a line break to a log text whose last line is
/// complete adds exactly that record as a line, provided the value holds no
/// line break and does not end in a carriage return; a value that does would
/// be read back as several lines, or without its last character.
pub proof fn lemma_text_round_trip(text: Seq<char>, key: Seq<char>, value: Seq<char>)
    requires
        split_log(text).1.len() == 0,
        is_key(key),
        !value.contains('\n'),
        value.len() == 0 || value.last() != '\r',
    ensures
        split_log(text + record_line(key, value) + seq!['\n']) == (
            split_log(text).0.push(record_line(key, value)),
            Seq::<char>::empty(),
        ),
{
    let rec = record_line(key, value);
    assert(!rec.contains('\n')) by {
        if rec.contains('\n') {
            let j = choose|j: int| 0 <= j < rec.len() && rec[j] == '\n';
            if j < key.len() {
                assert(key[j] == '\n');
            } else if j > key.len() {
                assert(value[j - key.len() - 1] == '\n');
            }
        }
    }
    assert(strip_cr(rec) == rec) by {
        if value.len() > 0 {
            assert(rec.last() == value.last());
        } else {
            assert(rec.last() == KEY_VALUE_SEPARATOR);
        }
    }
    lemma_split_log_no_break(text, rec);
    let full = text + rec + seq!['\n'];
    assert(full.drop_last() =~= text + rec);
    assert(split_log(text).1 + rec =~= rec);
}

/// Persistence round trip on the log text: when a log text whose last line
/// is complete describes the entries `before`, and an insert puts `value`
/// under `key`, that text with the insert's record and a line break appended
/// describes the entries after the insert, so a store loaded afresh from it
/// returns `value` for `key`.
pub proof fn lemma_text_reload(
    text: Seq<char>,
    before: Map<Seq<char>, Seq<char>>,
    after: Map<Seq<char>, Seq<char>>,
    key: Seq<char>,
    value: Seq<char>,
)
    requires
        split_log(text).1.len() == 0,
        before == log_entries(split_log(text).0),
        inserted(before, after, key, value),
        !value.contains('\n'),
        value.len() == 0 || value.last() != '\r',
    ensures
        log_entries(split_log(text + record_line(key, value) + seq!['\n']).0) == after,
        lookup(log_entries(split_log(text + record_line(key, value) + seq!['\n']).0), key) == Some(value),
{
    lemma_text_round_trip(text, key, value);
    lemma_log_round_trip(split_log(text).0, before, after, key, value);
}

/// The pairs held by the well-formed lines of a log, in order; the other
/// lines are skipped.
pub fn extract_data(lines: &Vec<String>) -> (r: Vec<(String, String)>)
    ensures
        pairs_view(r@) == parsed_pairs(lines_view(lines@)),
{
    let mut out: Vec<(String, String)> = Vec::new();
    let mut i: usize = 0;
    while i < lines.len()
        invariant
            i <= lines.len(),
            pairs_view(out@) == parsed_pairs(lines_view(lines@.subrange(0, i as int))),
        decreases lines.len() - i,
    {
        let parsed = parse_log_line(lines[i].as_str());
        proof {
            let pre = lines_view(lines@.subrange(0, i as int));
            let next = lines_view(lines@.subrange(0, i + 1));
            assert(next.drop_last() =~= pre);
            assert(next.last() == lines@[i as int]@);
        }
        match parsed {
            Some(p) => {
                let ghost before = out@;
                out.push(p);
                assert(pairs_view(out@) =~= pairs_view(before).push((out@.last().0@, out@.last().1@)));
            },
            None => {},
        }
        i = i + 1;
    }
    assert(lines@.subrange(0, lines@.len() as int) =~= lines@);
    out
}

/// The store that a log describes.
pub fn load_store(lines: &Vec<String>) -> (r: InMemoryKeyValueStore)
    ensures
        r.wf(),
        r.entries() == log_entries(lines_view(lines@)),
{
    InMemoryKeyValueStore::with_initial_data(extract_data(lines))
}

/// The log line that records `value` under `key`, without its line break.
pub fn log_record(key: &str, value: &str) -> (r: String)
    ensures
        r@ == record_line(key@, value@),
{
    let mut r = key.to_owned();
    r.append(" ");
    r.append(value);
    proof {
        reveal_strlit(" ");
        assert(r@ =~= record_line(key@, value@));
    }
    r
}

/// A record of a key without spaces reads back as that key and value.
pub proof fn lemma_record_parses(key: Seq<char>, value: Seq<char>)
    requires
        !key.contains(KEY_VALUE_SEPARATOR),
    ensures
        parse_line(record_line(key, value)) == Some((key, value)),
{
    let line = record_line(key, value);
    line.index_of_first_ensures(KEY_VALUE_SEPARATOR);
    assert(line[key.len() as int] == KEY_VALUE_SEPARATOR);
    assert forall|j: int| 0 <= j < key.len() implies line[j] != KEY_VALUE_SEPARATOR by {
        assert(line[j] == key[j]);
    }
    assert(line.subrange(0, key.len() as int) =~= key);
    assert(line.subrange(key.len() as int + 1, line.len() as int) =~= value);
}

/// Appending a line to a log adds the pair it holds, if any, after the others.
pub proof fn lemma_parsed_pairs_push(lines: Seq<Seq<char>>, line: Seq<char>)
    ensures
        parsed_pairs(lines.push(line)) == match parse_line(line) {
            Some(p) => parsed_pairs(lines).push(p),
            None => parsed_pairs(lines),
        },
{
    assert(lines.push(line).drop_last() =~= lines);
}

/// Persistence round trip: when a store holds what a log describes, and an
/// insert puts `value` under `key`, then the log with the record of that
/// insert appended describes the store after the insert; in particular a
/// store loaded afresh from it returns `value` for `key`.
pub proof fn lemma_log_round_trip(
    lines: Seq<Seq<char>>,
    before: Map<Seq<char>, Seq<char>>,
    after: Map<Seq<char>, Seq<char>>,
    key: Seq<char>,
    value: Seq<char>,
)
    requires
        before == log_entries(lines),
        inserted(before, after, key, value),
    ensures
        log_entries(lines.push(record_line(key, value))) == after,
        lookup(log_entries(lines.push(record_line(key, value))), key) == Some(value),
{
    assert(!key.contains(KEY_VALUE_SEPARATOR)) by {
        if key.contains(KEY_VALUE_SEPARATOR) {
            let j = choose|j: int| 0 <= j < key.len() && key[j] == KEY_VALUE_SEPARATOR;
            assert(is_key(key));
        }
    }
    lemma_record_parses(key, value);
    let line = record_line(key, value);
    lemma_parsed_pairs_push(lines, line);
    let pairs = parsed_pairs(lines.push(line));
    assert(pairs.drop_last() =~= parsed_pairs(lines));
}

/// A line without a space adds nothing to what a log describes.
pub proof fn lemma_malformed_line_ignored(lines: Seq<Seq<char>>, line: Seq<char>)
    requires
        !line.contains(KEY_VALUE_SEPARATOR),
    ensures
        log_entries(lines.push(line)) == log_entries(lines),
{
    line.index_of_first_ensures(KEY_VALUE_SEPARATOR);
    lemma_parsed_pairs_push(lines, line);
}

} // verus!

verus! {

/// An append-only sink for log lines.
pub trait RecordLog {
    /// The lines written to the log, in order.
    spec fn written(&self) -> Seq<Seq<char>>;

    /// Every line handed to `append_line`, in order, whether it was written
    /// or not.
    spec fn attempted(&self) -> Seq<Seq<char>>;

    /// Appends `line` followed by a line break; reports whether it was
    /// written. A failed append writes nothing.
    fn append_line(&mut self, line: &str) -> (r: bool)
        ensures
            final(self).attempted() == old(self).attempted().push(line@),
            final(self).written() == if r {
                old(self).written().push(line@)
            } else {
                old(self).written()
            },
    ;
}

/// A log kept in memory; every append succeeds.
pub struct VecLog {
    lines: Vec<String>,
}

impl VecLog {
    /// An empty log.
    pub fn new() -> (r: Self)
        ensures
            r.written() == Seq::<Seq<char>>::empty(),
            r.attempted() == Seq::<Seq<char>>::empty(),
    {
        let r = VecLog { lines: Vec::new() };
        assert(lines_view(r.lines@) =~= Seq::<Seq<char>>::empty());
        r
    }

    /// The lines written so far.
    pub fn lines(&self) -> (r: &Vec<String>)
        ensures
            lines_view(r@) == self.written(),
    {
        &self.lines
    }
}

impl RecordLog for VecLog {
    closed spec fn written(&self) -> Seq<Seq<char>> {
        lines_view(self.lines@)
    }

    closed spec fn attempted(&self) -> Seq<Seq<char>> {
        lines_view(self.lines@)
    }

    fn append_line(&mut self, line: &str) -> (r: bool) {
        self.lines.push(line.to_owned());
        assert(lines_view(self.lines@) =~= lines_view(old(self).lines@).push(line@));
        true
    }
}

/// A log that hands each line to a writer function, such as one appending
/// to a file; the function reports whether the line and its line break were
/// written.
pub struct WriterLog<F: Fn(&str) -> bool> {
    write: F,
    written: Ghost<Seq<Seq<char>>>,
    attempted: Ghost<Seq<Seq<char>>>,
}

impl<F: Fn(&str) -> bool> WriterLog<F> {
    #[verifier::type_invariant]
    spec fn accepts_any_line(self) -> bool {
        forall|line: &str| #[trigger] self.write.requires((line,))
    }

    /// A log that writes with `write`, with nothing written yet.
    pub fn new(write: F) -> (r: Self)
        requires
            forall|line: &str| #[trigger] write.requires((line,)),
        ensures
            r.written() == Seq::<Seq<char>>::empty(),
            r.attempted() == Seq::<Seq<char>>::empty(),
    {
        WriterLog { write, written: Ghost(Seq::empty()), attempted: Ghost(Seq::empty()) }
    }
}

impl<F: Fn(&str) -> bool> RecordLog for WriterLog<F> {
    closed spec fn written(&self) -> Seq<Seq<char>> {
        self.written@
    }

    closed spec fn attempted(&self) -> Seq<Seq<char>> {
        self.attempted@
    }

    fn append_line(&mut self, line: &str) -> (r: bool) {
        proof {
            use_type_invariant(&*self);
        }
        self.attempted = Ghost(self.attempted@.push(line@));
        if (self.write)(line) {
            self.written = Ghost(self.written@.push(line@));
            true
        } else {
            false
        }
    }
}

/// A store whose every entry is first recorded in a log, so that loading the
/// log again yields the same store.
pub struct PersistedKeyValueStore<L: RecordLog> {
    base: InMemoryKeyValueStore,
    log: L,
    /// The lines the log held when the store was made.
    loaded: Ghost<Seq<Seq<char>>>,
    /// How many lines the sink reported as written when the store was made.
    start: Ghost<nat>,
}

impl<L: RecordLog> PersistedKeyValueStore<L> {
    /// The lines of the log: those it held when the store was made, then the
    /// lines written to the sink since.
    pub closed spec fn log_lines(&self) -> Seq<Seq<char>> {
        self.loaded@ + self.log.written().subrange(self.start@ as int, self.log.written().len() as int)
    }

    /// A store over `log`, which holds `lines` so far.
    pub fn new(lines: &Vec<String>, log: L) -> (r: Self)
        ensures
            r.wf(),
            r.log_lines() == lines_view(lines@),
            r.entries() == log_entries(lines_view(lines@)),
            r.record_log() == log,
    {
        let ghost start = log.written().len();
        let r = PersistedKeyValueStore {
            base: load_store(lines),
            log,
            loaded: Ghost(lines_view(lines@)),
            start: Ghost(start),
        };
        assert(r.log_lines() =~= lines_view(lines@));
        r
    }

    /// The log that the store appends to.
    pub closed spec fn record_log(&self) -> L {
        self.log
    }

    /// The log that the store appends to.
    pub fn log(&self) -> (r: &L)
        ensures
            *r == self.record_log(),
    {
        &self.log
    }

    /// The store holds exactly what its log describes, reading the log as
    /// one record per line.
    pub proof fn lemma_entries_match_log(s: &Self)
        requires
            s.wf(),
        ensures
            s.entries() == log_entries(s.log_lines()),
    {
    }
}

impl<L: RecordLog> KeyValueStore for PersistedKeyValueStore<L> {
    closed spec fn wf(&self) -> bool {
        &&& self.base.wf()
        &&& self.start@ <= self.log.written().len()
        &&& self.base.entries() == log_entries(self.log_lines())
    }

    open spec fn writes_out(&self) -> bool {
        true
    }

    closed spec fn entries(&self) -> Map<Seq<char>, Seq<char>> {
        self.base.entries()
    }

    fn insert(&mut self, value: String) -> (r: Result<String, StoreError>)
        ensures
            final(self).record_log().attempted() == match r {
                Ok(key) => old(self).record_log().attempted().push(record_line(key@, value@)),
                Err(StoreError::Io) => old(self).record_log().attempted().push(
                    final(self).record_log().attempted().last(),
                ),
                Err(StoreError::KeyspaceExhausted) => old(self).record_log().attempted(),
            },
            r == Err::<String, StoreError>(StoreError::Io) ==> exists|key: Seq<char>|
                is_key(key) && final(self).record_log().attempted().last() == #[trigger] record_line(
                    key,
                    value@,
                ),
            final(self).record_log().written() == match r {
                Ok(key) => old(self).record_log().written().push(record_line(key@, value@)),
                Err(_) => old(self).record_log().written(),
            },
            final(self).log_lines() == match r {
                Ok(key) => old(self).log_lines().push(record_line(key@, value@)),
                Err(_) => old(self).log_lines(),
            },
    {
        proof {
            InMemoryKeyValueStore::lemma_wf_finite(&self.base);
        }
        let key = match self.base.generate_unused_random_key() {
            Some(key) => key,
            None => return Err(StoreError::KeyspaceExhausted),
        };
        let record = log_record(key.as_str(), value.as_str());
        let ghost lines0 = self.log_lines();
        let ghost w0 = self.log.written();
        if !self.log.append_line(record.as_str()) {
            assert(self.log_lines() =~= lines0);
            assert(self.log.attempted().last() == record_line(key@, value@));
            return Err(StoreError::Io);
        }
        proof {
            let w = self.log.written();
            assert(w.subrange(self.start@ as int, w.len() as int)
                =~= w0.subrange(self.start@ as int, w0.len() as int).push(record@));
            assert(self.log_lines() =~= lines0.push(record@));
            lemma_log_round_trip(lines0, self.base.entries(), self.base.entries().insert(key@, value@), key@, value@);
        }
        self.base.insert_with_key(key.clone(), value);
        proof {
            InMemoryKeyValueStore::lemma_wf_finite(&self.base);
        }
        Ok(key)
    }

    fn get(&self, key: &str) -> (r: Option<String>) {
        self.base.get(key)
    }
}

} // verus!
