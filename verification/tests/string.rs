use hcl_literals::{
    hex_to_string, is_hex_digit, is_oct_digit, multiline_string_content, octal_to_string,
    quoted_string, string, string_bytes, string_literal, string_literal_content, unescape,
    ErrorKind,
};

#[test]
fn unescaping_works_correctly() {
    let test_cases = [
        (r#"a"#, "\x07"),
        (r#"b"#, "\x08"),
        (r#"f"#, "\x0c"),
        (r#"n"#, "\n"),
        (r#"r"#, "\r"),
        (r#"t"#, "\t"),
        (r#"v"#, "\x0b"),
        (r#"\"#, "\\"),
        (r#"""#, "\""),
        ("?", "?"),
        (r#"xff"#, "ÿ"),            // Hex
        (r#"251"#, "©"),            // Octal
        (r#"uD000"#, "\u{D000}"),   // Unicode up to 4 bytes
        (r#"U29000"#, "\u{29000}"), // Unicode up to 8 bytes... but max unicode is only up to 6
    ];

    for (input, expected) in test_cases.iter() {
        println!("Testing {}", input);
        let (actual, _rest) = unescape(input).unwrap();
        assert_eq!(&actual, *expected);
    }
}

#[test]
#[should_panic(expected = "Invalid Unicode Code Points")]
fn unescaping_invalid_unicode_errors() {
    let e = unescape("UD800").unwrap_err();
    assert!(e.hard_failure());
    panic!("{}", e.describe());
}

#[test]
fn string_content_are_parsed_correctly() {
    let test_cases = [
        ("", ""),
        (r#"abcd"#, r#"abcd"#),
        (r#"ab\"cd"#, r#"ab"cd"#),
        (r#"ab \\ cd"#, r#"ab \ cd"#),
        (r#"ab \n cd"#, "ab \n cd"),
        (r#"ab \? cd"#, "ab ? cd"),
        (r#"ab \xff \251 \uD000 \U29000"#, "ab ÿ © \u{D000} \u{29000}"),
        ("ab\ncd", "ab\ncd"),
    ];

    for (input, expected) in test_cases.iter() {
        println!("Testing {}", input);
        let (actual, _rest) = multiline_string_content(input).unwrap();
        assert_eq!(&actual, *expected);
    }
}

#[test]
fn quoted_string_literals_are_parsed_correctly() {
    let test_cases = [
        (r#""""#, ""),
        (r#""abcd""#, r#"abcd"#),
        (r#""ab\"cd""#, r#"ab"cd"#),
        (r#""ab \\ cd""#, r#"ab \ cd"#),
        (r#""ab \n cd""#, "ab \n cd"),
        (r#""ab \? cd""#, "ab ? cd"),
        (
            r#""ab \xff \251 \uD000 \U29000""#,
            "ab ÿ © \u{D000} \u{29000}",
        ),
        ("\"ab\ncd\"", "ab\ncd"),
    ];

    for (input, expected) in test_cases.iter() {
        println!("Testing {}", input);
        let (actual, _rest) = quoted_string(input).unwrap();
        assert_eq!(&actual, *expected);
    }
}

#[test]
fn strings_are_parsed_correctly() {
    let test_cases = [
        (r#""""#, "", ""),
        (r#""abcd""#, r#"abcd"#, ""),
        (r#""ab\"cd""#, r#"ab"cd"#, ""),
        (r#""ab \\ cd""#, r#"ab \ cd"#, ""),
        (r#""ab \n cd""#, "ab \n cd", ""),
        (r#""ab \? cd""#, "ab ? cd", ""),
        ("<<EOF\n    EOF\n", "", "\n"),
        (
            r#""ab \xff \251 \uD000 \U29000""#,
            "ab ÿ © \u{D000} \u{29000}",
            "",
        ),
        ("<<EOF\nsomething\n    EOF\n", "something", "\n"),
        (
            "<<EOH\nsomething\nwith\nnew lines\nand quotes \"\n                        EOH\n",
            "something\nwith\nnew lines\nand quotes \"",
            "\n",
        ),
    ];

    for (input, expected, expected_remaining) in test_cases.iter() {
        println!("Testing {}", input);
        let (actual, remaining) = string(input).unwrap();
        assert_eq!(&remaining, expected_remaining, "Input: {}", input);
        assert_eq!(&actual, expected, "Input: {}", input);
    }
}

#[test]
fn single_line_content_stops_at_raw_line_breaks() {
    let (content, rest) = string_literal_content("ab\ncd").unwrap();
    assert_eq!(content, "ab");
    assert_eq!(rest, "\ncd");

    let (content, rest) = string_literal_content(r"ab\ncd").unwrap();
    assert_eq!(content, "ab\ncd");
    assert_eq!(rest, "");

    let e = string_literal("\"ab\ncd\"").unwrap_err();
    assert!(e.recoverable());
}

#[test]
fn unterminated_quote_is_a_recoverable_mismatch() {
    let e = quoted_string(r#""abcd"#).unwrap_err();
    assert!(e.recoverable());
    let e = quoted_string("abcd").unwrap_err();
    assert!(e.recoverable());
}

#[test]
fn invalid_code_point_inside_string_is_a_hard_failure() {
    let e = quoted_string(r#""ab \UD800 cd""#).unwrap_err();
    assert!(e.hard_failure());
    assert_eq!(e.kind, ErrorKind::InvalidUnicodeCodePoint);

    // A hard failure short-circuits the heredoc alternative too.
    let e = string(r#""ab \UD800 cd""#).unwrap_err();
    assert!(e.hard_failure());
}

#[test]
fn quoting_round_trip_restores_the_text() {
    let originals = ["", "plain", r#"with "quotes" and \slashes\"#, "uni 老虎 ÿ"];
    for original in originals.iter() {
        let escaped = original.replace('\\', r"\\").replace('"', r#"\""#);
        let quoted = format!("\"{}\"", escaped);
        let (decoded, rest) = quoted_string(&quoted).unwrap();
        assert_eq!(&decoded, original);
        assert_eq!(rest, "");
    }
}

#[test]
fn distinct_fixed_escapes_decode_distinct_characters() {
    let escapes = ["a", "b", "f", "n", "r", "t", "v", "\\", "\"", "?"];
    let mut decoded: Vec<String> = Vec::new();
    for e in escapes.iter() {
        decoded.push(unescape(e).unwrap().0);
    }
    for i in 0..decoded.len() {
        for j in 0..decoded.len() {
            if i != j {
                assert_ne!(decoded[i], decoded[j]);
            }
        }
    }
}

#[test]
fn numeric_escape_forms_can_collide_with_fixed_ones() {
    // The injectivity of escape decoding holds only among the fixed escapes:
    // a hex escape may name the same character as a fixed one.
    assert_eq!(unescape("x7").unwrap().0, unescape("a").unwrap().0);
}

#[test]
fn byte_entry_for_strings_matches_text_entry() {
    let (out, rest) = string_bytes(b"\"ab \\n cd\" tail").unwrap();
    assert_eq!(out, "ab \n cd");
    assert_eq!(rest, b" tail");
    assert!(string_bytes(&[0x80u8]).unwrap_err().recoverable());
}

#[test]
fn describe_renders_every_trail_entry() {
    let e = string("neither").unwrap_err();
    let rendered = e.describe();
    assert!(rendered.contains("no alternative matched") || rendered.contains("expected"));
    assert_eq!(rendered.lines().count(), e.trail.len());
}

#[test]
fn octal_and_hex_digit_classes_are_exact() {
    assert!(is_oct_digit('0') && is_oct_digit('7'));
    assert!(!is_oct_digit('8') && !is_oct_digit('a'));
    assert!(is_hex_digit('9') && is_hex_digit('a') && is_hex_digit('F'));
    assert!(!is_hex_digit('g') && !is_hex_digit(' '));
}

#[test]
fn octal_and_hex_decoding_give_exact_characters() {
    assert_eq!(octal_to_string("251").unwrap(), "\u{A9}");
    assert_eq!(octal_to_string("7").unwrap(), "\x07");
    assert_eq!(hex_to_string("ff").unwrap(), "\u{FF}");
    assert_eq!(hex_to_string("29000").unwrap(), "\u{29000}");
    assert_eq!(
        hex_to_string("D800").unwrap_err(),
        ErrorKind::InvalidUnicodeCodePoint
    );
    assert_eq!(
        hex_to_string("110000").unwrap_err(),
        ErrorKind::InvalidUnicodeCodePoint
    );
}

#[test]
fn unescape_consumes_greedily_and_returns_the_remainder() {
    let (out, rest) = unescape("xffz").unwrap();
    assert_eq!(out, "\u{FF}");
    assert_eq!(rest, "z");
    let (out, rest) = unescape("2519").unwrap();
    assert_eq!(out, "\u{A9}");
    assert_eq!(rest, "9");
    let (out, rest) = unescape("a7").unwrap();
    assert_eq!(out, "\x07");
    assert_eq!(rest, "7");
    // `x`, `u`, `U` commit to the hexadecimal form: missing digits are hard.
    assert!(unescape("x").unwrap_err().hard_failure());
    assert!(unescape("z").unwrap_err().recoverable());
    assert!(unescape("").unwrap_err().recoverable());
}
