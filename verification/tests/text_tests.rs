use xcode_ai_proxy::text::{is_whitespace_char, parse_decimal, split_csv, trim_str};

#[test]
fn whitespace_is_the_unicode_white_space_property() {
    for code in 0u32..=0x10FFFF {
        if let Some(c) = char::from_u32(code) {
            assert_eq!(is_whitespace_char(c), c.is_whitespace(), "U+{code:04X}");
        }
    }
}

#[test]
fn trim_matches_str_trim() {
    let samples = [
        "", " ", "a", " a ", "\t\n a b \r\n", "\u{3000}全角\u{3000}", "\u{85}x\u{a0}", "x\u{200b}",
        "  inner  space  ", "\u{2028}\u{2029}",
    ];
    for s in samples {
        assert_eq!(trim_str(s), s.trim(), "{s:?}");
    }
}

#[test]
fn decimal_parsing_matches_std_for_u16() {
    for n in 0u32..70_000 {
        let text = n.to_string();
        assert_eq!(parse_decimal(&text, 65535), text.parse::<u16>().ok().map(u64::from), "{text}");
        let plus = format!("+{text}");
        assert_eq!(parse_decimal(&plus, 65535), plus.parse::<u16>().ok().map(u64::from), "{plus}");
    }
    for text in ["", "+", "-", "-1", " 1", "1 ", "0x10", "١٢"] {
        assert_eq!(parse_decimal(text, 65535), text.parse::<u16>().ok().map(u64::from), "{text:?}");
    }
}

#[test]
fn split_csv_matches_std_split_trim_filter() {
    let samples = [
        "", ",", ",,", "a", "a,b", " a , b ", "a,,b,", ",a", "x y, z", "\u{3000},甲,\t乙 ,",
    ];
    for s in samples {
        let expected: Vec<String> = s
            .split(',')
            .map(str::trim)
            .filter(|item| !item.is_empty())
            .map(ToString::to_string)
            .collect();
        assert_eq!(split_csv(s), expected, "{s:?}");
    }
}
