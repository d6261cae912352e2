use rustdu::text::{chars_contain, chars_lt, first_word_of, is_whitespace};

#[test]
fn whitespace_matches_std_for_every_char() {
    for u in 0..0x110000u32 {
        if let Some(c) = char::from_u32(u) {
            assert_eq!(is_whitespace(c), c.is_whitespace(), "U+{:04X}", u);
        }
    }
}

#[test]
fn chars_lt_orders_like_strings() {
    let words = ["", "a", "ab", "abc", "b", "B", "Z", "é", "ж", "📁", "a\u{0}", "aa", "ab\u{ffff}"];
    for x in words.iter() {
        for y in words.iter() {
            let xv: Vec<char> = x.chars().collect();
            let yv: Vec<char> = y.chars().collect();
            assert_eq!(chars_lt(&xv, &yv), x < y, "{:?} < {:?}", x, y);
        }
    }
}

#[test]
fn chars_contain_like_str_contains() {
    let hays = ["", "documents", "abcabd", "ааб"];
    let needles = ["", "doc", "ments", "abd", "abcabdx", "аб", "x"];
    for h in hays.iter() {
        for n in needles.iter() {
            let hv: Vec<char> = h.chars().collect();
            let nv: Vec<char> = n.chars().collect();
            assert_eq!(chars_contain(&hv, &nv), h.contains(n), "{:?} in {:?}", n, h);
        }
    }
}

#[test]
fn first_word_of_display_line() {
    assert_eq!(first_word_of("    1.5K   50.0%  💾  a b").as_deref(), Some("1.5K"));
    assert_eq!(first_word_of("512B").as_deref(), Some("512B"));
    assert_eq!(first_word_of(""), None);
    assert_eq!(first_word_of(" \u{2028}\t"), None);
}

#[test]
fn first_word_of_matches_split_whitespace() {
    let pieces = ["a", "bc", " ", "  ", "\t", "\u{a0}", "\u{2028}", "ж", "📁", "x\u{200b}y"];
    for i in 0..pieces.len() {
        for j in 0..pieces.len() {
            for k in 0..pieces.len() {
                let s = format!("{}{}{}", pieces[i], pieces[j], pieces[k]);
                let expected = s.split_whitespace().next().map(|w| w.to_string());
                assert_eq!(first_word_of(&s), expected, "{:?}", s);
            }
        }
    }
}
