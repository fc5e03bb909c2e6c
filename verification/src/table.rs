//! The row-based descriptor table: raw rows, validated key records, and the
//! parse of a whole table text.
//!
//! A table is one row per line, five colon-separated fields per row: the
//! US-layout key glyph and four code-point descriptors (unmodified, shift,
//! alt-graph, shift+alt-graph). Rows are checked in input order and the
//! first failure aborts the parse with the offending row's index.

use vstd::prelude::*;

use crate::descriptor::{resolve_descriptor, resolve_spec, scan_to, ResolveError};
use crate::descriptor::{lemma_scan_to_props, scan_for};

verus! {

/// One raw table row: the US-layout key glyph and the four descriptors,
/// still unresolved.
#[derive(Debug)]
pub struct KeyRow {
    pub us_key: char,
    pub out: String,
    pub shift_out: String,
    pub altgr_out: String,
    pub shift_altgr_out: String,
}

/// One validated key: the US-layout glyph that identifies the physical key,
/// and the four characters it produces across the modifier states.
#[derive(Clone, Copy, Debug, PartialEq, Eq, Structural)]
pub struct Key {
    pub us_key: char,
    pub out: char,
    pub shift_out: char,
    pub altgr_out: char,
    pub shift_altgr_out: char,
}

/// The first resolution failure among a row's four descriptors.
pub open spec fn first_row_error(row: KeyRow) -> Result<u32, ResolveError>
    recommends
        !(resolve_spec(row.out@) is Ok && resolve_spec(row.shift_out@) is Ok
            && resolve_spec(row.altgr_out@) is Ok && resolve_spec(row.shift_altgr_out@) is Ok),
{
    if resolve_spec(row.out@) is Err {
        resolve_spec(row.out@)
    } else if resolve_spec(row.shift_out@) is Err {
        resolve_spec(row.shift_out@)
    } else if resolve_spec(row.altgr_out@) is Err {
        resolve_spec(row.altgr_out@)
    } else {
        resolve_spec(row.shift_altgr_out@)
    }
}

impl Key {
    /// Resolves a raw row's four descriptors into a key record, or reports
    /// the first descriptor that does not name a character.
    pub fn new(from: KeyRow) -> (r: Result<Key, ResolveError>)
        ensures
            r is Ok <==> (resolve_spec(from.out@) is Ok && resolve_spec(from.shift_out@) is Ok
                && resolve_spec(from.altgr_out@) is Ok && resolve_spec(
                from.shift_altgr_out@,
            ) is Ok),
            r matches Ok(k) ==> {
                &&& k.us_key == from.us_key
                &&& resolve_spec(from.out@) == Ok::<u32, ResolveError>(k.out as u32)
                &&& resolve_spec(from.shift_out@) == Ok::<u32, ResolveError>(k.shift_out as u32)
                &&& resolve_spec(from.altgr_out@) == Ok::<u32, ResolveError>(k.altgr_out as u32)
                &&& resolve_spec(from.shift_altgr_out@) == Ok::<u32, ResolveError>(
                    k.shift_altgr_out as u32,
                )
            },
            r matches Err(e) ==> first_row_error(from) == Err::<u32, ResolveError>(e),
    {
        let out = match resolve_descriptor(from.out.as_str()) {
            Ok(c) => c,
            Err(e) => {
                return Err(e);
            },
        };
        let shift_out = match resolve_descriptor(from.shift_out.as_str()) {
            Ok(c) => c,
            Err(e) => {
                return Err(e);
            },
        };
        let altgr_out = match resolve_descriptor(from.altgr_out.as_str()) {
            Ok(c) => c,
            Err(e) => {
                return Err(e);
            },
        };
        let shift_altgr_out = match resolve_descriptor(from.shift_altgr_out.as_str()) {
            Ok(c) => c,
            Err(e) => {
                return Err(e);
            },
        };
        Ok(Key { us_key: from.us_key, out, shift_out, altgr_out, shift_altgr_out })
    }
}

/// A line with a trailing carriage return dropped.
pub open spec fn strip_cr(line: Seq<char>) -> Seq<char> {
    if line.len() > 0 && line.last() == '\r' {
        line.drop_last()
    } else {
        line
    }
}

/// The non-empty rows of the table text from position `p` on: one row per
/// line, with empty lines skipped.
pub open spec fn lines_from(t: Seq<char>, p: int) -> Seq<Seq<char>>
    decreases t.len() - p + 1,
    via lines_from_decreases
{
    if p < 0 || p >= t.len() {
        Seq::empty()
    } else {
        let e = scan_to(t, '\n', p);
        let line = strip_cr(t.subrange(p, e));
        let rest = lines_from(t, e + 1);
        if line.len() == 0 {
            rest
        } else {
            seq![line] + rest
        }
    }
}

#[via_fn]
proof fn lines_from_decreases(t: Seq<char>, p: int) {
    if 0 <= p < t.len() {
        lemma_scan_to_props(t, '\n', p);
    }
}

/// The rows of the whole table text.
pub open spec fn rows_of(t: Seq<char>) -> Seq<Seq<char>> {
    lines_from(t, 0)
}

/// The colon-separated fields of a row from position `p` on.
pub open spec fn fields_from(line: Seq<char>, p: int) -> Seq<Seq<char>>
    decreases line.len() - p,
    via fields_from_decreases
{
    if p < 0 || p > line.len() {
        Seq::empty()
    } else {
        let e = scan_to(line, ':', p);
        if e == line.len() {
            seq![line.subrange(p, e)]
        } else {
            seq![line.subrange(p, e)] + fields_from(line, e + 1)
        }
    }
}

#[via_fn]
proof fn fields_from_decreases(line: Seq<char>, p: int) {
    if 0 <= p <= line.len() {
        lemma_scan_to_props(line, ':', p);
    }
}

/// The fields of one row.
pub open spec fn row_fields(line: Seq<char>) -> Seq<Seq<char>> {
    fields_from(line, 0)
}

/// Whether a row has the required shape: exactly five fields, the first a
/// single character.
pub open spec fn row_well_formed(line: Seq<char>) -> bool {
    row_fields(line).len() == 5 && row_fields(line)[0].len() == 1
}

/// The US-layout key glyph a well-formed row names.
pub open spec fn row_us_key(line: Seq<char>) -> char
    recommends
        row_well_formed(line),
{
    row_fields(line)[0][0]
}

/// Whether a row is well-formed and all four of its descriptors resolve.
pub open spec fn row_resolves(line: Seq<char>) -> bool {
    &&& row_well_formed(line)
    &&& forall|i: int| 1 <= i <= 4 ==> resolve_spec(#[trigger] row_fields(line)[i]) is Ok
}

/// The first resolution failure among a well-formed row's four descriptors.
pub open spec fn row_error(line: Seq<char>) -> Result<u32, ResolveError>
    recommends
        row_well_formed(line),
        !row_resolves(line),
{
    if resolve_spec(row_fields(line)[1]) is Err {
        resolve_spec(row_fields(line)[1])
    } else if resolve_spec(row_fields(line)[2]) is Err {
        resolve_spec(row_fields(line)[2])
    } else if resolve_spec(row_fields(line)[3]) is Err {
        resolve_spec(row_fields(line)[3])
    } else {
        resolve_spec(row_fields(line)[4])
    }
}

/// Whether `k` is the key record a row describes.
pub open spec fn key_matches_row(k: Key, line: Seq<char>) -> bool {
    &&& k.us_key == row_us_key(line)
    &&& resolve_spec(row_fields(line)[1]) == Ok::<u32, ResolveError>(k.out as u32)
    &&& resolve_spec(row_fields(line)[2]) == Ok::<u32, ResolveError>(k.shift_out as u32)
    &&& resolve_spec(row_fields(line)[3]) == Ok::<u32, ResolveError>(k.altgr_out as u32)
    &&& resolve_spec(row_fields(line)[4]) == Ok::<u32, ResolveError>(k.shift_altgr_out as u32)
}

/// Why a table text does not parse: the 0-based row index of the first bad
/// row, and for a descriptor failure its cause.
#[derive(Clone, Copy, Debug, PartialEq, Eq, Structural)]
pub enum ParseError {
    /// The row does not have five fields with a single-character first field.
    MalformedRow { row: usize },
    /// A descriptor of the row does not name a character.
    Descriptor { row: usize, cause: ResolveError },
}

/// The views of a sequence of borrowed strings.
pub open spec fn views_of(v: Seq<&str>) -> Seq<Seq<char>> {
    v.map_values(|f: &str| f@)
}

/// Splits a row into its colon-separated fields.
fn split_fields<'a>(line: &'a str) -> (v: Vec<&'a str>)
    ensures
        views_of(v@) == row_fields(line@),
{
    let n = line.unicode_len();
    let mut v: Vec<&'a str> = Vec::new();
    let mut p: usize = 0;
    loop
        invariant_except_break
            p <= n,
            n == line@.len(),
            row_fields(line@) == views_of(v@) + fields_from(line@, p as int),
        ensures
            row_fields(line@) == views_of(v@),
        decreases n - p,
    {
        let e = scan_for(line, ':', p);
        let f = line.substring_char(p, e);
        proof {
            let ghost prev = views_of(v@);
            assert(views_of(v@.push(f)) =~= prev.push(f@));
        }
        v.push(f);
        if e == n {
            proof {
                assert(fields_from(line@, p as int) =~= seq![line@.subrange(p as int, e as int)]);
                assert(row_fields(line@) =~= views_of(v@));
            }
            break;
        }
        proof {
            assert(fields_from(line@, p as int) =~= seq![line@.subrange(p as int, e as int)]
                + fields_from(line@, e + 1));
            assert(row_fields(line@) =~= views_of(v@) + fields_from(line@, e + 1));
        }
        p = e + 1;
    }
    v
}

/// Parses a whole table text into key records, in row order, or reports the
/// first row that is malformed or whose descriptors do not resolve.
pub fn parse_table(text: &str) -> (r: Result<Vec<Key>, ParseError>)
    ensures
        match r {
            Ok(keys) => {
                &&& keys@.len() == rows_of(text@).len()
                &&& forall|i: int|
                    0 <= i < keys@.len() ==> row_resolves(#[trigger] rows_of(text@)[i])
                        && key_matches_row(keys@[i], rows_of(text@)[i])
            },
            Err(ParseError::MalformedRow { row }) => {
                &&& (row as int) < rows_of(text@).len()
                &&& !row_well_formed(rows_of(text@)[row as int])
                &&& forall|j: int| 0 <= j < row as int ==> row_resolves(#[trigger] rows_of(text@)[j])
            },
            Err(ParseError::Descriptor { row, cause }) => {
                &&& (row as int) < rows_of(text@).len()
                &&& row_well_formed(rows_of(text@)[row as int])
                &&& !row_resolves(rows_of(text@)[row as int])
                &&& row_error(rows_of(text@)[row as int]) == Err::<u32, ResolveError>(cause)
                &&& forall|j: int| 0 <= j < row as int ==> row_resolves(#[trigger] rows_of(text@)[j])
            },
        },
{
    let n = text.unicode_len();
    let mut keys: Vec<Key> = Vec::new();
    let mut pos: usize = 0;
    while pos < n
        invariant
            pos <= n,
            n == text@.len(),
            keys@.len() <= rows_of(text@).len(),
            rows_of(text@) == rows_of(text@).subrange(0, keys@.len() as int) + lines_from(
                text@,
                pos as int,
            ),
            forall|i: int|
                0 <= i < keys@.len() ==> row_resolves(#[trigger] rows_of(text@)[i])
                    && key_matches_row(keys@[i], rows_of(text@)[i]),
        decreases n - pos,
    {
        let e = scan_for(text, '\n', pos);
        let mut line_end = e;
        if e > pos && text.get_char(e - 1) == '\r' {
            line_end = e - 1;
        }
        let ghost raw = text@.subrange(pos as int, e as int);
        let ghost line_view = text@.subrange(pos as int, line_end as int);
        proof {
            if line_end < e {
                assert(raw.last() == '\r');
                assert(strip_cr(raw) =~= line_view);
            } else {
                assert(raw.len() > 0 ==> raw.last() != '\r');
                assert(strip_cr(raw) =~= line_view);
            }
        }
        if line_end > pos {
            let ghost row_idx = keys@.len() as int;
            proof {
                assert(lines_from(text@, pos as int) =~= seq![line_view] + lines_from(
                    text@,
                    e + 1,
                ));
                assert(rows_of(text@)[row_idx] == line_view);
            }
            let line = text.substring_char(pos, line_end);
            let fields = split_fields(line);
            if fields.len() != 5 {
                proof {
                    assert(row_fields(line_view).len() == views_of(fields@).len());
                }
                return Err(ParseError::MalformedRow { row: keys.len() });
            }
            proof {
                assert(row_fields(line_view) == views_of(fields@));
                assert(row_fields(line_view).len() == 5);
                assert(row_fields(line_view)[0] == fields@[0]@);
                assert(row_fields(line_view)[1] == fields@[1]@);
                assert(row_fields(line_view)[2] == fields@[2]@);
                assert(row_fields(line_view)[3] == fields@[3]@);
                assert(row_fields(line_view)[4] == fields@[4]@);
            }
            let f0 = fields[0];
            if f0.unicode_len() != 1 {
                return Err(ParseError::MalformedRow { row: keys.len() });
            }
            let us_key = f0.get_char(0);
            let keyrow = KeyRow {
                us_key,
                out: String::from_str(fields[1]),
                shift_out: String::from_str(fields[2]),
                altgr_out: String::from_str(fields[3]),
                shift_altgr_out: String::from_str(fields[4]),
            };
            match Key::new(keyrow) {
                Ok(k) => {
                    proof {
                        assert(rows_of(text@).subrange(0, row_idx + 1) =~= rows_of(
                            text@,
                        ).subrange(0, row_idx).push(line_view));
                    }
                    keys.push(k);
                },
                Err(cause) => {
                    return Err(ParseError::Descriptor { row: keys.len(), cause });
                },
            }
        } else {
            proof {
                assert(lines_from(text@, pos as int) =~= lines_from(text@, e + 1));
            }
        }
        if e == n {
            proof {
                assert(lines_from(text@, n as int) =~= lines_from(text@, e + 1));
            }
            pos = n;
        } else {
            pos = e + 1;
        }
    }
    proof {
        assert(lines_from(text@, pos as int) =~= Seq::<Seq<char>>::empty());
        assert(rows_of(text@) =~= rows_of(text@).subrange(0, keys@.len() as int));
    }
    Ok(keys)
}

} // verus!
