use kblayoutgen::parse_table;
use kblayoutgen::table::KeyRow;
use kblayoutgen::Key;
use kblayoutgen::ParseError;
use kblayoutgen::ResolveError;

fn row(us_key: char, d1: &str, d2: &str, d3: &str, d4: &str) -> KeyRow {
    KeyRow {
        us_key,
        out: d1.to_string(),
        shift_out: d2.to_string(),
        altgr_out: d3.to_string(),
        shift_altgr_out: d4.to_string(),
    }
}

#[test]
fn key_new_resolves_all_four_descriptors() {
    let k = Key::new(row('a', "U+0061 a", "U+0041 A", "U+00E0 a grave", "U+00C0 A grave"))
        .unwrap();
    assert_eq!(k.us_key, 'a');
    assert_eq!(k.out, 'a');
    assert_eq!(k.shift_out, 'A');
    assert_eq!(k.altgr_out, '\u{E0}');
    assert_eq!(k.shift_altgr_out, '\u{C0}');
}

#[test]
fn key_new_reports_first_failing_descriptor() {
    let r = Key::new(row('a', "U+0061 a", "ZZ bad", "U+zz worse", "U+00C0 fine"));
    assert_eq!(r, Err(ResolveError::EmptyHex));
    let r = Key::new(row('a', "U+0061 a", "U+0041 A", "U+zz worse", "ZZ bad"));
    assert_eq!(r, Err(ResolveError::InvalidDigit));
}

#[test]
fn parses_a_two_row_table_in_order() {
    let text = "a:U+0061 a:U+0041 A:U+00E0 ag:U+00C0 AG\n\
                b:U+0062 b:U+0042 B:U+201E q:U+2019 q\n";
    let keys = parse_table(text).unwrap();
    assert_eq!(keys.len(), 2);
    assert_eq!(keys[0].us_key, 'a');
    assert_eq!(keys[0].out, 'a');
    assert_eq!(keys[1].us_key, 'b');
    assert_eq!(keys[1].shift_out, 'B');
    assert_eq!(keys[1].altgr_out, '\u{201E}');
}

#[test]
fn empty_table_has_no_rows() {
    assert_eq!(parse_table("").unwrap().len(), 0);
    assert_eq!(parse_table("\n\n").unwrap().len(), 0);
}

#[test]
fn empty_lines_are_skipped_and_not_counted() {
    let text = "\na:U+0061 a:U+0041 A:U+00E0 x:U+00C0 x\n\n\
                ZZ bad row\n";
    // The malformed row is the second non-empty row: index 1.
    assert_eq!(parse_table(text), Err(ParseError::MalformedRow { row: 1 }));
}

#[test]
fn carriage_returns_are_stripped() {
    let text = "a:U+0061 a:U+0041 A:U+00E0 x:U+00C0 x\r\n";
    let keys = parse_table(text).unwrap();
    assert_eq!(keys.len(), 1);
    assert_eq!(keys[0].shift_altgr_out, '\u{C0}');
}

#[test]
fn wrong_field_count_is_malformed() {
    assert_eq!(
        parse_table("a:U+0061 a:U+0041 A\n"),
        Err(ParseError::MalformedRow { row: 0 })
    );
    assert_eq!(
        parse_table("a:U+0061 a:U+0041 A:U+00E0 x:U+00C0 x:extra\n"),
        Err(ParseError::MalformedRow { row: 0 })
    );
}

#[test]
fn multi_character_first_field_is_malformed() {
    assert_eq!(
        parse_table("ab:U+0061 a:U+0041 A:U+00E0 x:U+00C0 x\n"),
        Err(ParseError::MalformedRow { row: 0 })
    );
}

#[test]
fn descriptor_failure_reports_row_index_and_cause() {
    let text = "a:U+0061 a:U+0041 A:U+00E0 x:U+00C0 x\n\
                z:ZZ notahex LATIN SMALL LETTER Z:U+005A Z:U+007A z:U+005A Z\n";
    assert_eq!(
        parse_table(text),
        Err(ParseError::Descriptor { row: 1, cause: ResolveError::EmptyHex })
    );
}

#[test]
fn descriptor_failure_aborts_whole_parse() {
    // A later good row does not rescue the parse.
    let text = "z:ZZ notahex LATIN SMALL LETTER Z:U+005A Z:U+007A z:U+005A Z\n\
                a:U+0061 a:U+0041 A:U+00E0 x:U+00C0 x\n";
    assert_eq!(
        parse_table(text),
        Err(ParseError::Descriptor { row: 0, cause: ResolveError::EmptyHex })
    );
}
