use ssh_permit_a38::text::{
    chars_eq, chars_lt, decode, int_to_string, join_with, lines, parse_i32, position_of,
    sort_unique, split_at_char, starts_with, str_eq, to_chars, trim, without,
};

fn strings(items: &[&str]) -> Vec<String> {
    items.iter().map(|s| s.to_string()).collect()
}

#[test]
fn str_eq_compares_characters() {
    assert!(str_eq("", ""));
    assert!(str_eq("abc", "abc"));
    assert!(!str_eq("abc", "abd"));
    assert!(!str_eq("abc", "ab"));
    assert!(str_eq("\u{e9}t\u{e9}", "\u{e9}t\u{e9}"));
}

#[test]
fn to_chars_keeps_every_character() {
    assert_eq!(to_chars("a\u{e9}\n"), vec!['a', '\u{e9}', '\n']);
    assert_eq!(to_chars(""), Vec::<char>::new());
}

#[test]
fn chars_lt_is_the_order_of_strings() {
    let samples = ["", "a", "ab", "b", "B", "\u{e9}", "z", "a\u{10000}", "a\u{ffff}"];
    for a in samples.iter() {
        for b in samples.iter() {
            assert_eq!(chars_lt(&to_chars(a), &to_chars(b)), a < b, "{:?} < {:?}", a, b);
            assert_eq!(chars_eq(&to_chars(a), &to_chars(b)), a == b);
        }
    }
}

#[test]
fn sort_unique_sorts_and_drops_repeats() {
    assert_eq!(
        sort_unique(&strings(&["b", "a", "c", "a", "b", ""])),
        strings(&["", "a", "b", "c"])
    );
    assert_eq!(sort_unique(&strings(&[])), strings(&[]));
    assert_eq!(sort_unique(&strings(&["x"])), strings(&["x"]));
    let mut expected = strings(&["pear", "apple", "fig", "apple", "Pear", "figs"]);
    expected.sort();
    expected.dedup();
    assert_eq!(sort_unique(&strings(&["pear", "apple", "fig", "apple", "Pear", "figs"])), expected);
}

#[test]
fn starts_with_tests_the_prefix() {
    assert!(starts_with("Host foo", "Host"));
    assert!(starts_with("HostName foo", "Host"));
    assert!(starts_with("Host", "Host"));
    assert!(!starts_with("Hos", "Host"));
    assert!(!starts_with(" Host", "Host"));
    assert!(starts_with("anything", ""));
}

#[test]
fn trim_drops_whitespace_at_both_ends() {
    assert_eq!(trim("  y \n"), "y");
    assert_eq!(trim("\t a b \r\n"), "a b");
    assert_eq!(trim(""), "");
    assert_eq!(trim(" \n\t"), "");
    assert_eq!(trim("\u{a0}x\u{2003}"), "x");
    assert_eq!(trim("x"), "x");
}

#[test]
fn split_gives_every_piece() {
    assert_eq!(split_at_char("a:b", ':'), strings(&["a", "b"]));
    assert_eq!(split_at_char("a", ':'), strings(&["a"]));
    assert_eq!(split_at_char("", ':'), strings(&[""]));
    assert_eq!(split_at_char(":", ':'), strings(&["", ""]));
    assert_eq!(split_at_char("a::b:", ':'), strings(&["a", "", "b", ""]));
    assert_eq!(split_at_char("Host  x", ' '), strings(&["Host", "", "x"]));
}

#[test]
fn lines_follow_line_feeds() {
    assert_eq!(lines(""), strings(&[]));
    assert_eq!(lines("a"), strings(&["a"]));
    assert_eq!(lines("a\n"), strings(&["a"]));
    assert_eq!(lines("a\n\n"), strings(&["a", ""]));
    assert_eq!(lines("a\r\nb\r\n"), strings(&["a", "b"]));
    assert_eq!(lines("a\r\nb\r"), strings(&["a", "b\r"]));
    assert_eq!(lines("\n"), strings(&[""]));
    assert_eq!(lines("a\r\r\n"), strings(&["a\r"]));
}

#[test]
fn join_puts_the_separator_between() {
    assert_eq!(join_with(&strings(&[]), ", "), "");
    assert_eq!(join_with(&strings(&["a"]), ", "), "a");
    assert_eq!(join_with(&strings(&["a", "b", "c"]), ", "), "a, b, c");
    assert_eq!(join_with(&strings(&["", ""]), "\n\n"), "\n\n");
}

#[test]
fn parse_i32_reads_what_the_standard_library_reads() {
    assert_eq!(parse_i32("22"), Some(22));
    assert_eq!(parse_i32("+22"), Some(22));
    assert_eq!(parse_i32("-22"), Some(-22));
    assert_eq!(parse_i32("0"), Some(0));
    assert_eq!(parse_i32("-0"), Some(0));
    assert_eq!(parse_i32("0022"), Some(22));
    assert_eq!(parse_i32("2147483647"), Some(2147483647));
    assert_eq!(parse_i32("-2147483648"), Some(-2147483648));
    assert_eq!(parse_i32("00000000000000000000000000000012"), Some(12));
    for bad in ["", "+", "-", " 22", "22 ", "2 2", "2147483648", "-2147483649", "99999999999999999999", "1_000", "0x10", "+-1", "１２", "12a", "a"] {
        assert_eq!(parse_i32(bad), None, "{:?}", bad);
    }
    for sample in ["7", "+7", "-7", "007", "", "-", "2147483647", "2147483648", "-2147483648", "-2147483649", "4294967296", "12x"] {
        assert_eq!(parse_i32(sample), sample.parse::<i32>().ok(), "{:?}", sample);
    }
}

#[test]
fn int_to_string_writes_decimal() {
    assert_eq!(int_to_string(0), "0");
    assert_eq!(int_to_string(7), "7");
    assert_eq!(int_to_string(22), "22");
    assert_eq!(int_to_string(-5), "-5");
    assert_eq!(int_to_string(1000), "1000");
    assert_eq!(int_to_string(i32::MAX), "2147483647");
    assert_eq!(int_to_string(i32::MIN), "-2147483648");
    for v in [1, 9, 10, 11, 99, 100, 101, 65535, -1, -10, -99, -100] {
        assert_eq!(int_to_string(v), v.to_string());
    }
}

#[test]
fn position_of_finds_the_first() {
    let list = strings(&["a", "b", "a"]);
    assert_eq!(position_of(&list, "a"), 0);
    assert_eq!(position_of(&list, "b"), 1);
    assert_eq!(position_of(&list, "c"), 3);
    assert_eq!(position_of(&strings(&[]), "c"), 0);
}

#[test]
fn without_drops_every_occurrence() {
    assert_eq!(without(&strings(&["a", "b", "a", "c"]), "a"), strings(&["b", "c"]));
    assert_eq!(without(&strings(&["a", "b"]), "x"), strings(&["a", "b"]));
    assert_eq!(without(&strings(&["a", "a"]), "a"), strings(&[]));
}

#[test]
fn decode_accepts_utf8_only() {
    assert_eq!(decode(&b"ssh-rsa AAAA\n".to_vec()), Some("ssh-rsa AAAA\n".to_string()));
    assert_eq!(decode(&Vec::new()), Some(String::new()));
    assert_eq!(decode(&"\u{e9}\u{10000}".as_bytes().to_vec()), Some("\u{e9}\u{10000}".to_string()));
    assert_eq!(decode(&vec![0xff, 0xfe]), None);
    assert_eq!(decode(&vec![b'a', 0xc3]), None);
    assert_eq!(decode(&vec![0xed, 0xa0, 0x80]), None);
}
