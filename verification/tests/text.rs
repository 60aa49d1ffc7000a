use pragya::text::{
    chars_of, dec_string, join_chars, parse_u64_str, push_dec_padded, shell_escape, split_lines,
    trimmed, trimmed_is, can_cut_bytes, cut_to_bytes, replace_chars, longer_than_bytes,
};

fn s(v: &[char]) -> String {
    v.iter().collect()
}

#[test]
fn trim_removes_unicode_whitespace_at_both_ends() {
    assert_eq!(trimmed("  \t hello world \n\r"), "hello world");
    assert_eq!(trimmed("\u{3000}x\u{a0}"), "x");
    assert_eq!(trimmed("   "), "");
    assert_eq!(trimmed(""), "");
    assert!(trimmed_is(" ok\n", "ok"));
    assert!(!trimmed_is(" ok k\n", "ok"));
}

#[test]
fn lines_split_like_str_lines() {
    for input in ["", "a", "a\n", "a\nb", "a\r\nb\r\n", "\n\n", "x\r", "a\n\nb\n", "\r\n"] {
        let got: Vec<String> = split_lines(&chars_of(input)).iter().map(|l| s(l)).collect();
        let want: Vec<String> = input.lines().map(|l| l.to_string()).collect();
        assert_eq!(got, want, "input {:?}", input);
    }
}

#[test]
fn join_puts_separator_between_pieces() {
    let parts = vec![chars_of("a"), chars_of("bc"), chars_of("")];
    assert_eq!(s(&join_chars(&parts, ", ")), "a, bc, ");
    assert_eq!(s(&join_chars(&vec![], "-")), "");
    assert_eq!(s(&join_chars(&vec![chars_of("one")], "-")), "one");
}

#[test]
fn replace_matches_str_replace() {
    let text = "a|b||c";
    assert_eq!(s(&replace_chars(&chars_of(text), '|', "/")), text.replace('|', "/"));
    assert_eq!(s(&replace_chars(&chars_of("none"), 'z', "yy")), "none");
}

#[test]
fn shell_escape_closes_and_reopens_the_quote() {
    assert_eq!(shell_escape("it's"), "it'\\''s");
    assert_eq!(shell_escape("plain"), "plain");
    assert_eq!(shell_escape("''"), "'\\'''\\''");
    for q in ["it's", "a'b'c", "no quotes", "'"] {
        assert_eq!(shell_escape(q), q.replace('\'', "'\\''"));
    }
}

/// Reads a single shell word the way a POSIX shell does (quotes and
/// backslashes only).
fn sh_word(w: &str) -> String {
    let mut out = String::new();
    let mut single = false;
    let mut esc = false;
    for c in w.chars() {
        if esc {
            out.push(c);
            esc = false;
        } else if single {
            if c == '\'' { single = false } else { out.push(c) }
        } else if c == '\'' {
            single = true;
        } else if c == '\\' {
            esc = true;
        } else {
            out.push(c);
        }
    }
    assert!(!single && !esc);
    out
}

#[test]
fn single_quote_roundtrip_on_examples() {
    for q in ["it's", "'; rm -rf / '", "back\\slash", "", "''''"] {
        let word = format!("'{}'", shell_escape(q));
        assert_eq!(sh_word(&word), q);
    }
}

#[test]
fn decimal_and_padding() {
    assert_eq!(dec_string(0), "0");
    assert_eq!(dec_string(1970), "1970");
    assert_eq!(dec_string(u64::MAX), "18446744073709551615");
    let mut out = String::from(">");
    push_dec_padded(&mut out, 7, 2);
    push_dec_padded(&mut out, 123, 2);
    push_dec_padded(&mut out, 5, 4);
    assert_eq!(out, ">071230005");
}

#[test]
fn parse_u64_matches_str_parse() {
    for input in ["0", "42", "+42", "", "+", "-1", " 5", "5 ", "12a", "007",
        "18446744073709551615", "18446744073709551616", "99999999999999999999", "+-1", "١"] {
        assert_eq!(parse_u64_str(input), input.parse::<u64>().ok(), "input {:?}", input);
    }
}

#[test]
fn parse_reads_back_decimal_text() {
    for n in [0u64, 9, 10, 12345, u64::MAX - 1, u64::MAX] {
        assert_eq!(parse_u64_str(&dec_string(n)), Some(n));
    }
}

#[test]
fn cutting_at_a_byte_offset() {
    let v = chars_of("héllo");
    assert!(longer_than_bytes(&v, 5));
    assert!(!longer_than_bytes(&v, 6));
    assert!(can_cut_bytes(&v, 3));
    assert_eq!(s(&cut_to_bytes(v.clone(), 3)), &"héllo"[..3]);
    assert!(!can_cut_bytes(&v, 2));
    assert!(can_cut_bytes(&v, 100));
    assert_eq!(s(&cut_to_bytes(v, 100)), "héllo");
}

#[test]
fn whitespace_is_the_unicode_property() {
    for u in 0u32..=0x10ffff {
        if let Some(c) = char::from_u32(u) {
            assert_eq!(pragya::text::is_whitespace(c), c.is_whitespace(), "U+{:04X}", u);
        }
    }
}
