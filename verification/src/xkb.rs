//! The symbol-table emitter: positional identifiers for the supported
//! US-layout key glyphs, and serialization of a whole keyboard layout in the
//! target textual format.

use vstd::prelude::*;

use crate::layout::Keyboard;
use crate::table::{key_matches_row, row_us_key, rows_of, Key};

verus! {

/// Whether `c` is one of the 47 US-layout key glyphs that have a positional
/// identifier.
pub open spec fn is_supported_key(c: char) -> bool {
    match c {
        '`' | '1' | '2' | '3' | '4' | '5' | '6' | '7' | '8' | '9' | '0' | '-' | '=' => true,
        'q' | 'w' | 'e' | 'r' | 't' | 'y' | 'u' | 'i' | 'o' | 'p' | '[' | ']' | '\\' => true,
        'a' | 's' | 'd' | 'f' | 'g' | 'h' | 'j' | 'k' | 'l' | ';' | '\'' => true,
        'z' | 'x' | 'c' | 'v' | 'b' | 'n' | 'm' | ',' | '.' | '/' => true,
        _ => false,
    }
}

/// The positional identifier of a supported US-layout key glyph, and the
/// empty sequence for any other character.
pub open spec fn key_id_of(c: char) -> Seq<char> {
    match c {
        '`' => "TLDE"@,
        '1' => "AE01"@,
        '2' => "AE02"@,
        '3' => "AE03"@,
        '4' => "AE04"@,
        '5' => "AE05"@,
        '6' => "AE06"@,
        '7' => "AE07"@,
        '8' => "AE08"@,
        '9' => "AE09"@,
        '0' => "AE10"@,
        '-' => "AE11"@,
        '=' => "AE12"@,
        'q' => "AD01"@,
        'w' => "AD02"@,
        'e' => "AD03"@,
        'r' => "AD04"@,
        't' => "AD05"@,
        'y' => "AD06"@,
        'u' => "AD07"@,
        'i' => "AD08"@,
        'o' => "AD09"@,
        'p' => "AD10"@,
        '[' => "AD11"@,
        ']' => "AD12"@,
        '\\' => "BKSL"@,
        'a' => "AC01"@,
        's' => "AC02"@,
        'd' => "AC03"@,
        'f' => "AC04"@,
        'g' => "AC05"@,
        'h' => "AC06"@,
        'j' => "AC07"@,
        'k' => "AC08"@,
        'l' => "AC09"@,
        ';' => "AC10"@,
        '\'' => "AC11"@,
        'z' => "AB01"@,
        'x' => "AB02"@,
        'c' => "AB03"@,
        'v' => "AB04"@,
        'b' => "AB05"@,
        'n' => "AB06"@,
        'm' => "AB07"@,
        ',' => "AB08"@,
        '.' => "AB09"@,
        '/' => "AB10"@,
        _ => Seq::empty(),
    }
}

/// The positional identifier for a supported US-layout key glyph, or `None`
/// for a character outside the supported set.
pub fn key_from_char(us_key: char) -> (r: Option<&'static str>)
    ensures
        r is Some <==> is_supported_key(us_key),
        r matches Some(id) ==> id@ == key_id_of(us_key),
{
    let r: Option<&'static str> = match us_key {
        '`' => Some("TLDE"),
        '1' => Some("AE01"),
        '2' => Some("AE02"),
        '3' => Some("AE03"),
        '4' => Some("AE04"),
        '5' => Some("AE05"),
        '6' => Some("AE06"),
        '7' => Some("AE07"),
        '8' => Some("AE08"),
        '9' => Some("AE09"),
        '0' => Some("AE10"),
        '-' => Some("AE11"),
        '=' => Some("AE12"),
        'q' => Some("AD01"),
        'w' => Some("AD02"),
        'e' => Some("AD03"),
        'r' => Some("AD04"),
        't' => Some("AD05"),
        'y' => Some("AD06"),
        'u' => Some("AD07"),
        'i' => Some("AD08"),
        'o' => Some("AD09"),
        'p' => Some("AD10"),
        '[' => Some("AD11"),
        ']' => Some("AD12"),
        '\\' => Some("BKSL"),
        'a' => Some("AC01"),
        's' => Some("AC02"),
        'd' => Some("AC03"),
        'f' => Some("AC04"),
        'g' => Some("AC05"),
        'h' => Some("AC06"),
        'j' => Some("AC07"),
        'k' => Some("AC08"),
        'l' => Some("AC09"),
        ';' => Some("AC10"),
        '\'' => Some("AC11"),
        'z' => Some("AB01"),
        'x' => Some("AB02"),
        'c' => Some("AB03"),
        'v' => Some("AB04"),
        'b' => Some("AB05"),
        'n' => Some("AB06"),
        'm' => Some("AB07"),
        ',' => Some("AB08"),
        '.' => Some("AB09"),
        '/' => Some("AB10"),
        _ => None,
    };
    r
}

/// The uppercase hexadecimal digit for a value below 16.
pub open spec fn hex_char(d: nat) -> char {
    if d == 0 {
        '0'
    } else if d == 1 {
        '1'
    } else if d == 2 {
        '2'
    } else if d == 3 {
        '3'
    } else if d == 4 {
        '4'
    } else if d == 5 {
        '5'
    } else if d == 6 {
        '6'
    } else if d == 7 {
        '7'
    } else if d == 8 {
        '8'
    } else if d == 9 {
        '9'
    } else if d == 10 {
        'A'
    } else if d == 11 {
        'B'
    } else if d == 12 {
        'C'
    } else if d == 13 {
        'D'
    } else if d == 14 {
        'E'
    } else {
        'F'
    }
}

/// `v` in uppercase hexadecimal with no zero-padding: most significant digit
/// first, a single `0` for zero.
pub open spec fn hex_seq(v: nat) -> Seq<char>
    decreases v,
{
    if v < 16 {
        seq![hex_char(v)]
    } else {
        hex_seq(v / 16) + seq![hex_char(v % 16)]
    }
}

/// The serialization of one output character: `U` then its code point in
/// uppercase hexadecimal.
pub open spec fn code_point_of(c: char) -> Seq<char> {
    seq!['U'] + hex_seq(c as u32 as nat)
}

/// One uppercase hexadecimal digit as a borrowed string.
fn hex_digit_str(d: u32) -> (r: &'static str)
    requires
        d < 16,
    ensures
        r@ == seq![hex_char(d as nat)],
{
    let r: &'static str = match d {
        0 => "0",
        1 => "1",
        2 => "2",
        3 => "3",
        4 => "4",
        5 => "5",
        6 => "6",
        7 => "7",
        8 => "8",
        9 => "9",
        10 => "A",
        11 => "B",
        12 => "C",
        13 => "D",
        14 => "E",
        _ => "F",
    };
    proof {
        reveal_strlit("0");
        reveal_strlit("1");
        reveal_strlit("2");
        reveal_strlit("3");
        reveal_strlit("4");
        reveal_strlit("5");
        reveal_strlit("6");
        reveal_strlit("7");
        reveal_strlit("8");
        reveal_strlit("9");
        reveal_strlit("A");
        reveal_strlit("B");
        reveal_strlit("C");
        reveal_strlit("D");
        reveal_strlit("E");
        reveal_strlit("F");
        assert(r@ =~= seq![hex_char(d as nat)]);
    }
    r
}

/// `v` rendered in uppercase hexadecimal with no zero-padding.
fn hex_str(v: u32) -> (r: String)
    ensures
        r@ == hex_seq(v as nat),
    decreases v,
{
    if v < 16 {
        String::from_str(hex_digit_str(v))
    } else {
        let mut s = hex_str(v / 16);
        s.append(hex_digit_str(v % 16));
        s
    }
}

/// Serializes one output character as `U` followed by its code point in
/// uppercase hexadecimal, with no zero-padding.
pub fn code_point_from_char(character: char) -> (r: String)
    ensures
        r@ == code_point_of(character),
{
    let mut s = String::from_str("U");
    proof {
        reveal_strlit("U");
        assert(s@ =~= seq!['U']);
    }
    let h = hex_str(character as u32);
    s.append(h.as_str());
    s
}

/// The fixed preamble: the partial symbol group declaration with the
/// modifier-key inclusion that alt-graph handling needs.
pub open spec fn xkb_header() -> Seq<char> {
    "default partial modifier_keys\nxkb_symbols \"basic\" {\n        "@ + "inc"@ + "lude"@
        + " \"level3(ralt_switch)\"\n"@
}

/// The line that sets the group's display name.
pub open spec fn name_line(name: Seq<char>) -> Seq<char> {
    "        name[Group1]= \""@ + name + "\";\n\n"@
}

/// The fixed closing terminator.
pub open spec fn xkb_footer() -> Seq<char> {
    "};"@
}

/// One key statement: the positional identifier and the four output
/// characters across the modifier states.
pub open spec fn key_statement(id: Seq<char>, k: Key) -> Seq<char> {
    "        key <"@ + id + "> { [ "@ + code_point_of(k.out) + ", "@ + code_point_of(k.shift_out)
        + ", "@ + code_point_of(k.altgr_out) + ", "@ + code_point_of(k.shift_altgr_out)
        + " ] };\n"@
}

/// The statement a key contributes to the document.
pub open spec fn key_line(k: Key) -> Seq<char>
    recommends
        is_supported_key(k.us_key),
{
    if is_supported_key(k.us_key) {
        key_statement(key_id_of(k.us_key), k)
    } else {
        Seq::empty()
    }
}

/// The key statements of `keys[i..]`, in order.
pub open spec fn key_lines_from(keys: Seq<Key>, i: int) -> Seq<char>
    decreases keys.len() - i,
{
    if i < 0 || i >= keys.len() {
        Seq::empty()
    } else {
        key_line(keys[i]) + key_lines_from(keys, i + 1)
    }
}

/// The key statements of `keys[..i]`, in order.
pub open spec fn key_lines_upto(keys: Seq<Key>, i: int) -> Seq<char>
    decreases i,
{
    if i <= 0 || i > keys.len() {
        Seq::empty()
    } else {
        key_lines_upto(keys, i - 1) + key_line(keys[i - 1])
    }
}

/// Reading the statements front to back and back to front agree.
proof fn lemma_key_lines_split(keys: Seq<Key>, i: int)
    requires
        0 <= i <= keys.len(),
    ensures
        key_lines_upto(keys, i) + key_lines_from(keys, i) == key_lines_from(keys, 0),
    decreases i,
{
    if i == 0 {
        assert(key_lines_upto(keys, 0) + key_lines_from(keys, 0) =~= key_lines_from(keys, 0));
    } else {
        lemma_key_lines_split(keys, i - 1);
        assert(key_lines_from(keys, i - 1) == key_line(keys[i - 1]) + key_lines_from(keys, i));
        assert(key_lines_upto(keys, i) + key_lines_from(keys, i) =~= key_lines_upto(keys, i - 1)
            + key_lines_from(keys, i - 1));
    }
}

/// The whole document: preamble, name line, one key statement per key in
/// stored order, and the closing terminator.
pub open spec fn xkb_doc(name: Seq<char>, keys: Seq<Key>) -> Seq<char> {
    xkb_header() + name_line(name) + key_lines_from(keys, 0) + xkb_footer()
}

/// Why emission failed.
#[derive(Clone, Copy, Debug, PartialEq, Eq, Structural)]
pub enum EmitError {
    /// The key at `index` names a US-layout glyph outside the supported set.
    UnsupportedKey { index: usize, us_key: char },
}

impl Keyboard {
    /// Serializes the layout in the target textual format, or reports the
    /// first key whose glyph has no positional identifier. Nothing is
    /// written on failure.
    #[verifier::rlimit(50)]
    pub fn output_xkb(&self) -> (r: Result<String, EmitError>)
        ensures
            r is Ok <==> (forall|i: int|
                0 <= i < self.keys@.len() ==> is_supported_key(#[trigger] self.keys@[i].us_key)),
            r matches Ok(doc) ==> doc@ == xkb_doc(self.name@, self.keys@),
            r matches Err(EmitError::UnsupportedKey { index, us_key }) ==> {
                &&& (index as int) < self.keys@.len()
                &&& us_key == self.keys@[index as int].us_key
                &&& !is_supported_key(us_key)
                &&& forall|j: int|
                    0 <= j < index as int ==> is_supported_key(#[trigger] self.keys@[j].us_key)
            },
    {
        let mut doc = String::from_str("default partial modifier_keys\nxkb_symbols \"basic\" {\n        ");
        doc.append("inc");
        doc.append("lude");
        doc.append(" \"level3(ralt_switch)\"\n");
        doc.append("        name[Group1]= \"");
        doc.append(self.name.as_str());
        doc.append("\";\n\n");
        proof {
            assert(doc@ =~= xkb_header() + name_line(self.name@));
        }
        let mut idx: usize = 0;
        while idx < self.keys.len()
            invariant
                idx <= self.keys.len(),
                doc@ == xkb_header() + name_line(self.name@) + key_lines_upto(
                    self.keys@,
                    idx as int,
                ),
                forall|j: int| 0 <= j < idx ==> is_supported_key(#[trigger] self.keys@[j].us_key),
            decreases self.keys.len() - idx,
        {
            let k = self.keys[idx];
            match key_from_char(k.us_key) {
                None => {
                    return Err(EmitError::UnsupportedKey { index: idx, us_key: k.us_key });
                },
                Some(id) => {
                    doc.append("        key <");
                    doc.append(id);
                    doc.append("> { [ ");
                    let cp = code_point_from_char(k.out);
                    doc.append(cp.as_str());
                    doc.append(", ");
                    let cp = code_point_from_char(k.shift_out);
                    doc.append(cp.as_str());
                    doc.append(", ");
                    let cp = code_point_from_char(k.altgr_out);
                    doc.append(cp.as_str());
                    doc.append(", ");
                    let cp = code_point_from_char(k.shift_altgr_out);
                    doc.append(cp.as_str());
                    doc.append(" ] };\n");
                    proof {
                        assert(key_lines_upto(self.keys@, idx + 1) == key_lines_upto(
                            self.keys@,
                            idx as int,
                        ) + key_line(self.keys@[idx as int]));
                        assert(doc@ =~= xkb_header() + name_line(self.name@) + key_lines_upto(
                            self.keys@,
                            idx + 1,
                        ));
                    }
                },
            }
            idx += 1;
        }
        proof {
            lemma_key_lines_split(self.keys@, self.keys@.len() as int);
            assert(key_lines_upto(self.keys@, self.keys@.len() as int) + Seq::<char>::empty()
                =~= key_lines_upto(self.keys@, self.keys@.len() as int));
            assert(key_lines_from(self.keys@, self.keys@.len() as int) =~= Seq::<char>::empty());
        }
        doc.append("};");
        proof {
            assert(doc@ =~= xkb_doc(self.name@, self.keys@));
        }
        Ok(doc)
    }
}

/// A keyboard with no keys emits a document holding only the preamble, the
/// name line, and the closing terminator — no key statements.
pub proof fn lemma_empty_keyboard_doc(name: Seq<char>)
    ensures
        xkb_doc(name, Seq::<Key>::empty()) == xkb_header() + name_line(name) + xkb_footer(),
{
    assert(key_lines_from(Seq::<Key>::empty(), 0) =~= Seq::<char>::empty());
    assert(xkb_header() + name_line(name) + Seq::<char>::empty() + xkb_footer() =~= xkb_header()
        + name_line(name) + xkb_footer());
}

/// Emission is a function of the keyboard value alone: any two documents
/// emitted for the same name and keys are identical byte for byte.
pub proof fn lemma_emit_deterministic(
    name: Seq<char>,
    keys: Seq<Key>,
    d1: Seq<char>,
    d2: Seq<char>,
)
    requires
        d1 == xkb_doc(name, keys),
        d2 == xkb_doc(name, keys),
    ensures
        d1 == d2,
{
}

/// Round trip from table text to document: a keyboard whose keys were parsed
/// from a table of supported glyphs emits exactly one key statement per
/// table row, in row order, and each statement carries the positional
/// identifier that the fixed mapping assigns to that row's `us_key`.
pub proof fn lemma_table_round_trip(text: Seq<char>, name: Seq<char>, keys: Seq<Key>)
    requires
        keys.len() == rows_of(text).len(),
        forall|i: int|
            0 <= i < keys.len() ==> key_matches_row(#[trigger] keys[i], rows_of(text)[i]),
        forall|i: int| 0 <= i < keys.len() ==> is_supported_key(#[trigger] keys[i].us_key),
    ensures
        xkb_doc(name, keys) == xkb_header() + name_line(name) + key_lines_from(keys, 0)
            + xkb_footer(),
        forall|i: int|
            0 <= i < keys.len() ==> #[trigger] key_lines_from(keys, i) == key_statement(
                key_id_of(row_us_key(rows_of(text)[i])),
                keys[i],
            ) + key_lines_from(keys, i + 1),
{
    assert forall|i: int|
        0 <= i < keys.len() implies #[trigger] key_lines_from(keys, i) == key_statement(
        key_id_of(row_us_key(rows_of(text)[i])),
        keys[i],
    ) + key_lines_from(keys, i + 1) by {
        assert(key_matches_row(keys[i], rows_of(text)[i]));
        assert(keys[i].us_key == row_us_key(rows_of(text)[i]));
        assert(key_lines_from(keys, i) == key_line(keys[i]) + key_lines_from(keys, i + 1));
    }
}

} // verus!
