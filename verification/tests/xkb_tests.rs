use kblayoutgen::layout::Keyboard;
use kblayoutgen::parse_table;
use kblayoutgen::xkb::{code_point_from_char, key_from_char, EmitError};

fn header() -> String {
    format!(
        "default partial modifier_keys\nxkb_symbols \"basic\" {{\n        {}{} \"level3(ralt_switch)\"\n",
        "inc", "lude"
    )
}

fn name_line(name: &str) -> String {
    format!("        name[Group1]= \"{}\";\n\n", name)
}

#[test]
fn code_points_render_uppercase_without_padding() {
    assert_eq!(code_point_from_char('A'), "U41");
    assert_eq!(code_point_from_char('a'), "U61");
    assert_eq!(code_point_from_char('\0'), "U0");
    assert_eq!(code_point_from_char('\u{E0}'), "UE0");
    assert_eq!(code_point_from_char('\u{10FFFF}'), "U10FFFF");
}

#[test]
fn positional_identifiers_follow_the_fixed_mapping() {
    let expected: [(char, &str); 47] = [
        ('`', "TLDE"),
        ('1', "AE01"),
        ('2', "AE02"),
        ('3', "AE03"),
        ('4', "AE04"),
        ('5', "AE05"),
        ('6', "AE06"),
        ('7', "AE07"),
        ('8', "AE08"),
        ('9', "AE09"),
        ('0', "AE10"),
        ('-', "AE11"),
        ('=', "AE12"),
        ('q', "AD01"),
        ('w', "AD02"),
        ('e', "AD03"),
        ('r', "AD04"),
        ('t', "AD05"),
        ('y', "AD06"),
        ('u', "AD07"),
        ('i', "AD08"),
        ('o', "AD09"),
        ('p', "AD10"),
        ('[', "AD11"),
        (']', "AD12"),
        ('\\', "BKSL"),
        ('a', "AC01"),
        ('s', "AC02"),
        ('d', "AC03"),
        ('f', "AC04"),
        ('g', "AC05"),
        ('h', "AC06"),
        ('j', "AC07"),
        ('k', "AC08"),
        ('l', "AC09"),
        (';', "AC10"),
        ('\'', "AC11"),
        ('z', "AB01"),
        ('x', "AB02"),
        ('c', "AB03"),
        ('v', "AB04"),
        ('b', "AB05"),
        ('n', "AB06"),
        ('m', "AB07"),
        (',', "AB08"),
        ('.', "AB09"),
        ('/', "AB10"),
    ];
    for (c, id) in expected {
        assert_eq!(key_from_char(c), Some(id));
    }
}

#[test]
fn characters_outside_the_supported_set_have_no_identifier() {
    assert_eq!(key_from_char(' '), None);
    assert_eq!(key_from_char('A'), None);
    assert_eq!(key_from_char('~'), None);
    assert_eq!(key_from_char('\u{E9}'), None);
}

#[test]
fn keyboard_new_aggregates_verbatim() {
    let keys = parse_table("a:U+0061 a:U+0041 A:U+00E0 x:U+00C0 x\n").unwrap();
    let kb = Keyboard::new("My Layout".to_string(), keys);
    assert_eq!(kb.name, "My Layout");
    assert_eq!(kb.keys.len(), 1);
    assert_eq!(kb.keys[0].us_key, 'a');
}

#[test]
fn scenario_single_row_emits_ac01_statement() {
    let text = "a:0061 LATIN SMALL LETTER A:0041 LATIN CAPITAL LETTER A:00E0 LATIN SMALL LETTER A WITH GRAVE:00C0 LATIN CAPITAL LETTER A WITH GRAVE\n";
    let keys = parse_table(text).unwrap();
    let kb = Keyboard::new("Test".to_string(), keys);
    let doc = kb.output_xkb().unwrap();
    let expected = format!(
        "{}{}        key <AC01> {{ [ U61, U41, UE0, UC0 ] }};\n}};",
        header(),
        name_line("Test")
    );
    assert_eq!(doc, expected);
}

#[test]
fn round_trip_one_statement_per_row_in_order() {
    let text = "q:U+0071 q:U+0051 Q:U+00E4 ae:U+00C4 AE\n\
                1:U+0031 one:U+0021 bang:U+00B9 sup:U+00A1 inv\n\
                /:U+002F slash:U+003F question:U+00BF inv:U+2030 permille\n";
    let keys = parse_table(text).unwrap();
    let kb = Keyboard::new("Order".to_string(), keys);
    let doc = kb.output_xkb().unwrap();
    let expected = format!(
        "{}{}{}{}{}}};",
        header(),
        name_line("Order"),
        "        key <AD01> { [ U71, U51, UE4, UC4 ] };\n",
        "        key <AE01> { [ U31, U21, UB9, UA1 ] };\n",
        "        key <AB10> { [ U2F, U3F, UBF, U2030 ] };\n",
    );
    assert_eq!(doc, expected);
}

#[test]
fn emitting_twice_is_byte_identical() {
    let text = "a:U+0061 a:U+0041 A:U+00E0 x:U+00C0 x\n\
                z:U+007A z:U+005A Z:U+017E zc:U+017D ZC\n";
    let kb = Keyboard::new("Twice".to_string(), parse_table(text).unwrap());
    let first = kb.output_xkb().unwrap();
    let second = kb.output_xkb().unwrap();
    assert_eq!(first, second);
}

#[test]
fn zero_rows_emit_only_preamble_name_and_terminator() {
    let kb = Keyboard::new("Empty Layout".to_string(), parse_table("").unwrap());
    let doc = kb.output_xkb().unwrap();
    let expected = format!("{}{}}};", header(), name_line("Empty Layout"));
    assert_eq!(doc, expected);
}

#[test]
fn unsupported_us_key_fails_emission() {
    let text = " :U+0020 space:U+0020 space:U+00A0 nbsp:U+00A0 nbsp\n";
    let keys = parse_table(text).unwrap();
    let kb = Keyboard::new("Bad".to_string(), keys);
    assert_eq!(
        kb.output_xkb(),
        Err(EmitError::UnsupportedKey { index: 0, us_key: ' ' })
    );
}

#[test]
fn emission_fails_on_first_unsupported_key() {
    let text = "a:U+0061 a:U+0041 A:U+00E0 x:U+00C0 x\n\
                A:U+0041 A:U+0061 a:U+00C0 x:U+00E0 x\n";
    let kb = Keyboard::new("Bad".to_string(), parse_table(text).unwrap());
    assert_eq!(
        kb.output_xkb(),
        Err(EmitError::UnsupportedKey { index: 1, us_key: 'A' })
    );
}

#[test]
fn duplicate_us_keys_emit_duplicate_statements() {
    let text = "a:U+0061 a:U+0041 A:U+00E0 x:U+00C0 x\n\
                a:U+0062 b:U+0042 B:U+00E9 e:U+00C9 E\n";
    let kb = Keyboard::new("Dup".to_string(), parse_table(text).unwrap());
    let doc = kb.output_xkb().unwrap();
    assert_eq!(doc.matches("key <AC01>").count(), 2);
}
