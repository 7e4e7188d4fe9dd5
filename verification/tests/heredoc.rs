use hcl_literals::{heredoc_begin, heredoc_end, heredoc_string, unindent_heredoc, HereDoc};

#[test]
fn heredoc_identifier_is_parsed_correctly() {
    let test_cases = [
        (
            "<<EOF\n",
            HereDoc {
                identifier: String::from("EOF"),
                indented: false,
            },
            "\n",
        ),
        (
            "<<-EOH\n",
            HereDoc {
                identifier: String::from("EOH"),
                indented: true,
            },
            "\n",
        ),
        (
            "<<藏_\r\n",
            HereDoc {
                identifier: String::from("藏_"),
                indented: false,
            },
            "\r\n",
        ),
    ];

    for (input, expected, expected_remaining) in test_cases.iter() {
        println!("Testing {}", input);
        let (actual, remaining) = heredoc_begin(input).unwrap();
        assert_eq!(&remaining, expected_remaining);
        assert_eq!(&actual, expected);
    }
}

#[test]
fn heredoc_end_is_parsed_correctly() {
    let test_cases = [
        (
            "\nEOF\n",
            HereDoc {
                identifier: String::from("EOF"),
                indented: false,
            },
            0usize,
            "\n",
        ),
        (
            "\n    EOH\n",
            HereDoc {
                identifier: String::from("EOH"),
                indented: true,
            },
            4usize,
            "\n",
        ),
        (
            "\r\nEOF\r\n",
            HereDoc {
                identifier: String::from("EOF"),
                indented: false,
            },
            0usize,
            "\r\n",
        ),
    ];

    for (input, identifier, identation, expected_remaining) in test_cases.iter() {
        println!("Testing {}", input);
        let (actual_identation, remaining) = heredoc_end(input, identifier).unwrap();
        assert_eq!(*identation, actual_identation);
        assert_eq!(
            &remaining, expected_remaining,
            "Input: {}; Remaining: {}",
            input, remaining
        );
    }
}

#[test]
fn heredoc_strings_are_pased_correctly() {
    let test_cases = [
        ("<<EOF\nEOF\n", ""),
        ("<<EOF\nsomething 老虎\nEOF\n", "something 老虎"),
        (
            "<<EOH\nsomething\nwith 老虎\nnew lines\nand quotes \"\n                    EOH\n",
            "something\nwith 老虎\nnew lines\nand quotes \"",
        ),
        (
            "<<-EOF\n    strip\n    the\n    spaces\n    but    not   these 老虎\n    EOF\n",
            "strip\nthe\nspaces\nbut    not   these 老虎",
        ),
        (
            "<<-EOF\n    strip\n    the\n    spaces\n    but    not   these 老虎\n  EOF\n",
            "  strip\n  the\n  spaces\n  but    not   these 老虎",
        ),
        (
            "<<-EOF\nstrip\n    the\nspaces\n    but    not   these 老虎\n  EOF\n",
            "strip\n  the\nspaces\n  but    not   these 老虎",
        ),
        (
            "<<-EOF\n  strip\n    the\n  spaces\n    but    not   these 老虎\n    EOF\n",
            "strip\nthe\nspaces\nbut    not   these 老虎",
        ),
    ];

    for (input, expected) in test_cases.iter() {
        println!("Testing {}", input);
        let (actual, remaining) = heredoc_string(input).unwrap();
        assert_eq!(remaining, "\n");
        assert_eq!(actual, expected.to_string());
    }
}

#[test]
fn heredoc_without_close_marker_is_a_recoverable_mismatch() {
    assert!(heredoc_string("<<EOF\nno end").unwrap_err().recoverable());
    assert!(heredoc_string("<<EOF no eol").unwrap_err().recoverable());
    assert!(heredoc_string("<<\n").unwrap_err().recoverable());
    assert!(heredoc_string("plain").unwrap_err().recoverable());
}

#[test]
fn unindented_heredoc_keeps_closing_line_indentation_at_zero() {
    // The marker was not opened with `<<-`, so the four spaces before the
    // closing identifier force no dedent.
    let (body, rest) = heredoc_string("<<EOF\n  kept\n    EOF\n").unwrap();
    assert_eq!(body, "  kept");
    assert_eq!(rest, "\n");
}

#[test]
fn empty_body_applies_no_dedent() {
    let (body, rest) = heredoc_string("<<-EOF\n        EOF\n").unwrap();
    assert_eq!(body, "");
    assert_eq!(rest, "\n");
}

#[test]
fn unindent_with_level_zero_returns_the_text_unchanged() {
    let texts = ["", "a", "  a\n b", "line\n\nline", "   ", "\n\n"];
    for text in texts.iter() {
        assert_eq!(&unindent_heredoc(text, 0), text);
    }
}

#[test]
fn unindent_removes_exactly_the_level_from_fully_indented_lines() {
    let joined = "      one\n      two\n      three";
    assert_eq!(unindent_heredoc(joined, 4), "  one\n  two\n  three");
    assert_eq!(unindent_heredoc(joined, 6), "one\ntwo\nthree");
}

#[test]
fn unindent_strips_only_what_a_shallower_line_has() {
    assert_eq!(unindent_heredoc("  a\n    b\nc", 4), "a\nb\nc");
    assert_eq!(unindent_heredoc("  a\n    b\nc", 3), "a\n b\nc");
}

#[test]
fn unindent_handles_a_line_of_fewer_spaces_than_the_level() {
    // A line made only of spaces, shorter than the level, becomes empty
    // instead of indexing past its end.
    assert_eq!(unindent_heredoc("    a\n  \n    b", 4), "a\n\nb");
    assert_eq!(unindent_heredoc("  ", 4), "");
}
