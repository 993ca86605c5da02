//! The counts that a VCF header declares.
//!
//! A header line `##INFO=<..>` or `##FORMAT=<..>` holds a list of entries
//! `key=value`, and the value of its key `Number` says how many values the
//! field has. The header parser converts such a count to a signed 32-bit
//! integer and cannot cope with a larger one. The functions here read the
//! entries of a line as the parser does and find the lines that hold such a
//! count, so that a text with one is never handed to the parser.

use crate::text::{
    after_first_line, all_digits, decimal_value, first_line, is_all_digits, leading_number,
    leading_number_fits, lemma_first_line_len_bounds, line_len, HASH, NEWLINE, QUOTE, RETURN, TAB,
};
use vstd::prelude::*;
use vstd::slice::slice_subrange;

verus! {

pub const COMMA: u8 = 44;

pub const EQUALS: u8 = 61;

pub const CLOSE: u8 = 62;

pub const SPACE: u8 = 32;

/// The three kinds of run that make up an entry: a key, a value without
/// quotes, and what stands between two double quotes.
#[derive(Clone, Copy)]
pub enum Run {
    Key,
    Value,
    Quoted,
}

/// Whether the byte `b` ends a run of the given kind. A key ends at `>`, `,`,
/// `=`, space, carriage return, newline or tab; a value at the same bytes but
/// `=`; a quoted run at a double quote.
pub open spec fn ends_run(run: Run, b: u8) -> bool {
    match run {
        Run::Key => b == CLOSE || b == COMMA || b == EQUALS || b == SPACE || b == RETURN || b
            == NEWLINE || b == TAB,
        Run::Value => b == CLOSE || b == COMMA || b == SPACE || b == RETURN || b == NEWLINE || b
            == TAB,
        Run::Quoted => b == QUOTE,
    }
}

/// Length of the longest run of the given kind that `s` starts with.
pub open spec fn run_len(run: Run, s: Seq<u8>) -> nat
    decreases s.len(),
{
    if s.len() > 0 && !ends_run(run, s[0]) {
        1 + run_len(run, s.skip(1))
    } else {
        0
    }
}

/// One entry `key=value` of a header line: its key, its value without the
/// quotes that may stand around it, and the number of bytes it takes.
pub struct Entry {
    pub key: Seq<u8>,
    pub value: Seq<u8>,
    pub len: nat,
}

/// The entry that `s` starts with, if it starts with one.
///
/// An entry is a key of one byte or more, `=`, and a value. The value is
/// what stands between two double quotes, one byte or more; or, where no such
/// quoted text stands behind the `=`, a run of one byte or more that ends
/// before `>`, `,`, space, carriage return, newline or tab.
pub open spec fn entry_at(s: Seq<u8>) -> Option<Entry> {
    let k = run_len(Run::Key, s) as int;
    if k == 0 || k >= s.len() || s[k] != EQUALS {
        None
    } else {
        let v = s.skip(k + 1);
        let q = if v.len() > 0 && v[0] == QUOTE {
            run_len(Run::Quoted, v.skip(1)) as int
        } else {
            0
        };
        if q > 0 && q + 1 < v.len() {
            Some(Entry { key: s.take(k), value: v.subrange(1, q + 1), len: (k + q + 3) as nat })
        } else {
            let r = run_len(Run::Value, v) as int;
            if r == 0 {
                None
            } else {
                Some(Entry { key: s.take(k), value: v.take(r), len: (k + 1 + r) as nat })
            }
        }
    }
}

/// The key `ID`.
pub open spec fn id_key() -> Seq<u8> {
    seq![73u8, 68u8]
}

/// The key `Number`.
pub open spec fn number_key() -> Seq<u8> {
    seq![78u8, 117u8, 109u8, 98u8, 101u8, 114u8]
}

/// What a list of entries holds of the two keys that matter: whether one of
/// its keys is `ID`, and the value of the first of its keys `Number`.
pub struct Found {
    pub has_id: bool,
    pub count: Option<Seq<u8>>,
}

pub open spec fn nothing_found() -> Found {
    Found { has_id: false, count: None }
}

/// What is found once the entry `e` has been read behind entries that gave
/// `found`.
pub open spec fn note(found: Found, e: Entry) -> Found {
    Found {
        has_id: found.has_id || e.key == id_key(),
        count: if found.count is None && e.key == number_key() {
            Some(e.value)
        } else {
            found.count
        },
    }
}

/// The entries that follow in `s` behind an entry, each behind a comma: what
/// is found in them and in those before, which gave `found`, and the number
/// of bytes they take. A comma with no entry behind it is not taken.
pub open spec fn more_entries(s: Seq<u8>, found: Found) -> (Found, nat)
    decreases s.len(),
{
    if s.len() > 0 && s[0] == COMMA && entry_at(s.skip(1)) is Some {
        proof {
            lemma_entry_bounds(s.skip(1));
        }
        let e = entry_at(s.skip(1)).unwrap();
        let rest = more_entries(s.skip(1 + e.len as int), note(found, e));
        (rest.0, 1 + e.len + rest.1)
    } else {
        (found, 0)
    }
}

/// The list of entries that `s` starts with: what is found in it and the
/// number of bytes it takes. The list may be empty.
pub open spec fn entries(s: Seq<u8>) -> (Found, nat) {
    match entry_at(s) {
        Some(e) => {
            let rest = more_entries(s.skip(e.len as int), note(nothing_found(), e));
            (rest.0, e.len + rest.1)
        },
        None => (nothing_found(), 0),
    }
}

/// Whether `line` starts with `##INFO=<`.
pub open spec fn is_info_line(line: Seq<u8>) -> bool {
    &&& line.len() >= 8
    &&& line[0] == HASH
    &&& line[1] == HASH
    &&& line[2] == 73
    &&& line[3] == 78
    &&& line[4] == 70
    &&& line[5] == 79
    &&& line[6] == EQUALS
    &&& line[7] == 60
}

/// Whether `line` starts with `##FORMAT=<`.
pub open spec fn is_format_line(line: Seq<u8>) -> bool {
    &&& line.len() >= 10
    &&& line[0] == HASH
    &&& line[1] == HASH
    &&& line[2] == 70
    &&& line[3] == 79
    &&& line[4] == 82
    &&& line[5] == 77
    &&& line[6] == 65
    &&& line[7] == 84
    &&& line[8] == EQUALS
    &&& line[9] == 60
}

/// Whether `value` is a count that a signed 32-bit integer cannot hold: made
/// of digits alone and larger than `i32::MAX`.
pub open spec fn too_large(value: Seq<u8>) -> bool {
    all_digits(value) && decimal_value(value) > i32::MAX
}

/// Whether the list of entries that `body` starts with declares a count that
/// is too large: the list is closed by `>`, one of its keys is `ID`, and the
/// value of its first key `Number` is too large.
pub open spec fn body_overflows(body: Seq<u8>) -> bool {
    let list = entries(body);
    &&& list.1 < body.len()
    &&& body[list.1 as int] == CLOSE
    &&& list.0.has_id
    &&& list.0.count is Some
    &&& too_large(list.0.count.unwrap())
}

/// Whether the header line `line` declares a count that is too large. Only a
/// line that starts with `##INFO=<` or `##FORMAT=<` can.
#[verifier::opaque]
pub open spec fn count_overflows(line: Seq<u8>) -> bool {
    if is_info_line(line) {
        body_overflows(line.skip(8))
    } else if is_format_line(line) {
        body_overflows(line.skip(10))
    } else {
        false
    }
}

/// Whether no line of the header of `s` declares a count that is too large.
/// The lines in question are the leading lines that start with `##`.
pub open spec fn header_counts_fit(s: Seq<u8>) -> bool
    decreases s.len(),
{
    if s.len() >= 2 && s[0] == HASH && s[1] == HASH {
        proof {
            lemma_first_line_len_bounds(s);
        }
        !count_overflows(first_line(s)) && header_counts_fit(after_first_line(s))
    } else {
        true
    }
}

/// A run never reaches past the text, and ends before a byte that ends it.
pub proof fn lemma_run_len_bounds(run: Run, s: Seq<u8>)
    ensures
        run_len(run, s) <= s.len(),
        run_len(run, s) < s.len() ==> ends_run(run, s[run_len(run, s) as int]),
    decreases s.len(),
{
    if s.len() > 0 && !ends_run(run, s[0]) {
        lemma_run_len_bounds(run, s.skip(1));
    }
}

/// An entry takes two bytes or more and never reaches past the text.
pub proof fn lemma_entry_bounds(s: Seq<u8>)
    ensures
        entry_at(s) is Some ==> 2 <= entry_at(s).unwrap().len <= s.len(),
{
    let k = run_len(Run::Key, s) as int;
    lemma_run_len_bounds(Run::Key, s);
    if !(k == 0 || k >= s.len() || s[k] != EQUALS) {
        let v = s.skip(k + 1);
        lemma_run_len_bounds(Run::Value, v);
        if v.len() > 0 {
            lemma_run_len_bounds(Run::Quoted, v.skip(1));
        }
    }
}

fn is_run_end(run: Run, b: u8) -> (end: bool)
    ensures
        end == ends_run(run, b),
{
    match run {
        Run::Key => b == CLOSE || b == COMMA || b == EQUALS || b == SPACE || b == RETURN || b
            == NEWLINE || b == TAB,
        Run::Value => b == CLOSE || b == COMMA || b == SPACE || b == RETURN || b == NEWLINE || b
            == TAB,
        Run::Quoted => b == QUOTE,
    }
}

/// Length of the longest run of the given kind that `s` starts with.
pub fn run_length(run: Run, s: &[u8]) -> (n: usize)
    ensures
        n == run_len(run, s@),
        n <= s@.len(),
{
    let mut i: usize = 0;
    proof {
        assert(s@.skip(0) =~= s@);
    }
    while i < s.len() && !is_run_end(run, s[i])
        invariant
            i <= s.len(),
            run_len(run, s@) == i + run_len(run, s@.skip(i as int)),
        decreases s.len() - i,
    {
        proof {
            assert(s@.skip(i as int).skip(1) =~= s@.skip(i + 1));
        }
        i += 1;
    }
    i
}

/// Where an entry stands in a text: the length of its key, the index and
/// length of its value, and the number of bytes of the whole entry.
pub struct EntrySpan {
    pub key_len: usize,
    pub value_at: usize,
    pub value_len: usize,
    pub len: usize,
}

/// Whether `span` is where the entry `e` stands at the start of `s`.
pub open spec fn spans(span: EntrySpan, s: Seq<u8>, e: Entry) -> bool {
    &&& span.key_len <= span.len
    &&& span.value_at + span.value_len <= span.len
    &&& 2 <= span.len <= s.len()
    &&& e.key == s.take(span.key_len as int)
    &&& e.value == s.subrange(span.value_at as int, span.value_at + span.value_len)
    &&& e.len == span.len
}

/// Finds the entry that `s` starts with, if it starts with one.
pub fn read_entry(s: &[u8]) -> (r: Option<EntrySpan>)
    ensures
        match r {
            Some(span) => entry_at(s@) is Some && spans(span, s@, entry_at(s@).unwrap()),
            None => entry_at(s@) is None,
        },
{
    let k = run_length(Run::Key, s);
    if k == 0 || k >= s.len() || s[k] != EQUALS {
        return None;
    }
    let v = slice_subrange(s, k + 1, s.len());
    proof {
        lemma_run_len_bounds(Run::Value, v@);
        assert(v@ =~= s@.skip(k + 1));
    }
    if v.len() > 0 && v[0] == QUOTE {
        let inner = slice_subrange(v, 1, v.len());
        proof {
            assert(inner@ =~= v@.skip(1));
        }
        let q = run_length(Run::Quoted, inner);
        if q > 0 && q + 1 < v.len() {
            proof {
                assert(v@.subrange(1, q + 1) =~= s@.subrange(k + 2, k + 2 + q));
            }
            return Some(EntrySpan { key_len: k, value_at: k + 2, value_len: q, len: k + q + 3 });
        }
    }
    let r = run_length(Run::Value, v);
    if r == 0 {
        None
    } else {
        proof {
            assert(v@.take(r as int) =~= s@.subrange(k + 1, k + 1 + r));
        }
        Some(EntrySpan { key_len: k, value_at: k + 1, value_len: r, len: k + 1 + r })
    }
}

fn is_id_key(key: &[u8]) -> (yes: bool)
    ensures
        yes == (key@ == id_key()),
{
    let yes = key.len() == 2 && key[0] == 73 && key[1] == 68;
    proof {
        if yes {
            assert(key@ =~= id_key());
        }
        if key@ == id_key() {
            assert(id_key().len() == 2 && id_key()[0] == 73 && id_key()[1] == 68);
        }
    }
    yes
}

fn is_number_key(key: &[u8]) -> (yes: bool)
    ensures
        yes == (key@ == number_key()),
{
    let yes = key.len() == 6 && key[0] == 78 && key[1] == 117 && key[2] == 109 && key[3] == 98
        && key[4] == 101 && key[5] == 114;
    proof {
        if yes {
            assert(key@ =~= number_key());
        }
        if key@ == number_key() {
            assert(number_key().len() == 6 && number_key()[0] == 78 && number_key()[1] == 117
                && number_key()[2] == 109 && number_key()[3] == 98 && number_key()[4] == 101
                && number_key()[5] == 114);
        }
    }
    yes
}

/// Whether `value` is a count that a signed 32-bit integer cannot hold.
pub fn is_too_large(value: &[u8]) -> (yes: bool)
    ensures
        yes == too_large(value@),
{
    proof {
        if all_digits(value@) {
            assert(value@.take(value@.len() as int) =~= value@);
            assert(leading_number(value@) == decimal_value(value@));
        }
    }
    is_all_digits(value) && !leading_number_fits(value, 2147483647)
}

/// What the running search has found: the executable side of `Found`.
struct Search {
    has_id: bool,
    has_count: bool,
    count_too_large: bool,
}

spec fn agrees(search: Search, found: Found) -> bool {
    &&& search.has_id == found.has_id
    &&& search.has_count == (found.count is Some)
    &&& search.has_count ==> search.count_too_large == too_large(found.count.unwrap())
}

/// Takes note of the entry at the start of `s`, which stands at `span`.
fn note_entry(search: Search, s: &[u8], span: &EntrySpan, Ghost(found): Ghost<Found>) -> (r: Search)
    requires
        agrees(search, found),
        entry_at(s@) is Some,
        spans(*span, s@, entry_at(s@).unwrap()),
    ensures
        agrees(r, note(found, entry_at(s@).unwrap())),
{
    let key = slice_subrange(s, 0, span.key_len);
    proof {
        assert(key@ =~= s@.take(span.key_len as int));
    }
    let has_id = search.has_id || is_id_key(key);
    if !search.has_count && is_number_key(key) {
        let value = slice_subrange(s, span.value_at, span.value_at + span.value_len);
        Search { has_id, has_count: true, count_too_large: is_too_large(value) }
    } else {
        Search { has_id, has_count: search.has_count, count_too_large: search.count_too_large }
    }
}

/// Whether the list of entries that `body` starts with declares a count that
/// is too large.
pub fn body_out_of_range(body: &[u8]) -> (bad: bool)
    ensures
        bad == body_overflows(body@),
{
    let mut search = Search { has_id: false, has_count: false, count_too_large: false };
    let ghost mut found = nothing_found();
    let mut pos: usize = 0;
    let mut done = false;
    match read_entry(body) {
        Some(span) => {
            search = note_entry(search, body, &span, Ghost(found));
            proof {
                found = note(found, entry_at(body@).unwrap());
            }
            pos = span.len;
        },
        None => {
            done = true;
        },
    }
    while !done
        invariant
            pos <= body.len(),
            agrees(search, found),
            done ==> entries(body@) == (found, pos as nat),
            !done ==> entries(body@).0 == more_entries(body@.skip(pos as int), found).0,
            !done ==> entries(body@).1 == pos + more_entries(body@.skip(pos as int), found).1,
        decreases body.len() - pos, (if done { 0int } else { 1int }),
    {
        if pos < body.len() && body[pos] == COMMA {
            let rest = slice_subrange(body, pos + 1, body.len());
            proof {
                assert(rest@ =~= body@.skip(pos as int).skip(1));
                lemma_entry_bounds(rest@);
            }
            match read_entry(rest) {
                Some(span) => {
                    search = note_entry(search, rest, &span, Ghost(found));
                    proof {
                        found = note(found, entry_at(rest@).unwrap());
                        assert(body@.skip(pos as int).skip(1 + span.len as int) =~= body@.skip(
                            pos + 1 + span.len,
                        ));
                    }
                    pos = pos + 1 + span.len;
                },
                None => {
                    done = true;
                },
            }
        } else {
            done = true;
        }
    }
    pos < body.len() && body[pos] == CLOSE && search.has_id && search.has_count
        && search.count_too_large
}

fn starts_info_line(line: &[u8]) -> (yes: bool)
    ensures
        yes == is_info_line(line@),
{
    line.len() >= 8 && line[0] == HASH && line[1] == HASH && line[2] == 73 && line[3] == 78
        && line[4] == 70 && line[5] == 79 && line[6] == EQUALS && line[7] == 60
}

fn starts_format_line(line: &[u8]) -> (yes: bool)
    ensures
        yes == is_format_line(line@),
{
    line.len() >= 10 && line[0] == HASH && line[1] == HASH && line[2] == 70 && line[3] == 79
        && line[4] == 82 && line[5] == 77 && line[6] == 65 && line[7] == 84 && line[8] == EQUALS
        && line[9] == 60
}

/// Whether the header line `line` declares a count that is too large.
pub fn count_out_of_range(line: &[u8]) -> (bad: bool)
    ensures
        bad == count_overflows(line@),
{
    reveal(count_overflows);
    if starts_info_line(line) {
        let body = slice_subrange(line, 8, line.len());
        proof {
            assert(body@ =~= line@.skip(8));
        }
        body_out_of_range(body)
    } else if starts_format_line(line) {
        let body = slice_subrange(line, 10, line.len());
        proof {
            assert(body@ =~= line@.skip(10));
        }
        body_out_of_range(body)
    } else {
        false
    }
}

/// Whether no line of the header of `text` declares a count that is too
/// large.
pub fn header_counts_in_range(text: &[u8]) -> (ok: bool)
    ensures
        ok == header_counts_fit(text@),
{
    let mut pos: usize = 0;
    proof {
        assert(text@.skip(0) =~= text@);
    }
    while pos < text.len() && text.len() - pos >= 2 && text[pos] == HASH && text[pos + 1] == HASH
        invariant
            pos <= text.len(),
            header_counts_fit(text@) == header_counts_fit(text@.skip(pos as int)),
        decreases text.len() - pos,
    {
        let rest = slice_subrange(text, pos, text.len());
        let n = line_len(rest);
        proof {
            lemma_first_line_len_bounds(rest@);
            assert(rest@ =~= text@.skip(pos as int));
            assert(text@.skip(pos as int).skip(n as int) =~= text@.skip(pos + n));
        }
        let line = slice_subrange(rest, 0, n);
        proof {
            assert(line@ =~= first_line(rest@));
        }
        if count_out_of_range(line) {
            return false;
        }
        pos += n;
    }
    true
}

} // verus!
