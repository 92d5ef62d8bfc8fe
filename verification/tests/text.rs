use recop_asm::text::{chars_of, is_whitespace, parse_decimal, split_ranges, string_of, trim_bounds};

fn pieces(text: &str, sep: char) -> Vec<String> {
    let chars = chars_of(text);
    split_ranges(&chars, 0, chars.len(), sep)
        .into_iter()
        .map(|(lo, hi)| string_of(&chars, lo, hi))
        .collect()
}

fn trimmed(text: &str) -> String {
    let chars = chars_of(text);
    let (lo, hi) = trim_bounds(&chars, 0, chars.len());
    string_of(&chars, lo, hi)
}

#[test]
fn chars_and_strings_convert_both_ways() {
    let chars = chars_of("héllo wörld");
    assert_eq!(chars, "héllo wörld".chars().collect::<Vec<char>>());
    assert_eq!(string_of(&chars, 0, chars.len()), "héllo wörld");
    assert_eq!(string_of(&chars, 1, 5), "éllo");
    assert_eq!(string_of(&chars, 3, 3), "");
    assert_eq!(chars_of(""), Vec::<char>::new());
}

#[test]
fn white_space_is_what_std_calls_white_space() {
    for code in 0..=0x10ffffu32 {
        if let Some(c) = char::from_u32(code) {
            assert_eq!(is_whitespace(c), c.is_whitespace(), "U+{:04X}", code);
        }
    }
}

#[test]
fn trimming_agrees_with_std() {
    for text in [
        "",
        " ",
        "a",
        "  a b  ",
        "\t\r\n mov r1 #5 \n\n",
        "\u{a0}x\u{3000}",
        "\u{2003}\u{2028}",
        "x \u{85}",
        "\u{0b}\u{0c}y z",
    ] {
        assert_eq!(trimmed(text), text.trim(), "{:?}", text);
    }
}

#[test]
fn trim_bounds_stay_inside_the_range() {
    let chars = chars_of("ab  cd  ef");
    assert_eq!(trim_bounds(&chars, 2, 8), (4, 6));
    assert_eq!(trim_bounds(&chars, 2, 4), (4, 4));
    assert_eq!(trim_bounds(&chars, 0, 10), (0, 10));
}

#[test]
fn splitting_agrees_with_std() {
    for text in ["", " ", "a", "a b", "a  b", " a b ", "mov r1 #5", "   ", "a\nb\n\nc\n"] {
        for sep in [' ', '\n'] {
            let expected: Vec<String> = text.split(sep).map(|p| p.to_string()).collect();
            assert_eq!(pieces(text, sep), expected, "{:?} at {:?}", text, sep);
        }
    }
}

#[test]
fn split_gives_one_piece_more_than_separators() {
    assert_eq!(pieces("a,b,,c", ','), vec!["a", "b", "", "c"]);
    assert_eq!(pieces(",", ','), vec!["", ""]);
    assert_eq!(pieces("", ','), vec![""]);
    let chars = chars_of("xx a b xx");
    assert_eq!(split_ranges(&chars, 3, 6, ' '), vec![(3, 4), (5, 6)]);
}

#[test]
fn decimal_numerals_are_read() {
    assert_eq!(parse_decimal("0", 0xffff), Some(0));
    assert_eq!(parse_decimal("5", 0xffff), Some(5));
    assert_eq!(parse_decimal("65535", 0xffff), Some(65535));
    assert_eq!(parse_decimal("65536", 0xffff), None);
    assert_eq!(parse_decimal("255", 0xff), Some(255));
    assert_eq!(parse_decimal("256", 0xff), None);
    assert_eq!(parse_decimal("+7", 0xff), Some(7));
    assert_eq!(parse_decimal("007", 0xff), Some(7));
    assert_eq!(parse_decimal("0000000000000000000000000000012", 0xff), Some(12));
    assert_eq!(parse_decimal("4294967295", u32::MAX), Some(u32::MAX));
    assert_eq!(parse_decimal("4294967296", u32::MAX), None);
}

#[test]
fn what_is_no_numeral_is_refused() {
    for text in ["", "+", "-", "-1", "++1", "1+", " 1", "1 ", "1_0", "0x10", "a", "1a", "٣", "１", "99999999999999999999"] {
        assert_eq!(parse_decimal(text, 0xffff), None, "{:?}", text);
    }
}

#[test]
fn decimal_numerals_agree_with_std() {
    let mut texts: Vec<String> = Vec::new();
    for n in 0..300u32 {
        texts.push(n.to_string());
        texts.push(format!("+{}", n));
        texts.push(format!("-{}", n));
        texts.push(format!("0{}", n));
        texts.push(format!("{}x", n));
    }
    for n in [65534u32, 65535, 65536, 65537, 100000, 4294967295] {
        texts.push(n.to_string());
    }
    for text in ["", "+", "-", "+-1", "  1", "1\n", "18446744073709551616"] {
        texts.push(text.to_string());
    }
    for text in &texts {
        assert_eq!(parse_decimal(text, 0xff), text.parse::<u8>().ok().map(u32::from), "{:?}", text);
        assert_eq!(
            parse_decimal(text, 0xffff),
            text.parse::<u16>().ok().map(u32::from),
            "{:?}",
            text
        );
    }
}
