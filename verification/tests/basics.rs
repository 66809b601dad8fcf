use zcblock::args::{needed, number, value_at};
use zcblock::bytes::{
    append_bytes, bytes_eq, copy_range, filled, get_be, get_le, put_be, put_le,
};
use zcblock::cpus::{cpu_ranges, holds, parse_part, split_once, PartFault};
use zcblock::error::{Error, ErrorKind};
use zcblock::random::{mix64, next_shifted, rotate_left, xorshift64};
use zcblock::switches::{context_switches, migrations};
use zcblock::text::{
    all_digit_chars, chars_of, contains_part, decimal, drop_tail, ends_with, find_char,
    is_white_char, join, join4, number_reason, padded, parse_size, parse_unsigned, split,
    starts_with, str_eq, string_between, to_lower, trim, trim_end, trim_leading,
};
use zcblock::textmap::TextMap;

fn args(list: &[&str]) -> Vec<String> {
    list.iter().map(|text| text.to_string()).collect()
}

#[test]
fn white_space_is_that_of_the_standard_library() {
    for code in 0..=0x10_ffffu32 {
        if let Some(c) = char::from_u32(code) {
            assert_eq!(is_white_char(c), c.is_whitespace(), "{code:x}");
        }
    }
}

#[test]
fn trimming_agrees_with_the_standard_library() {
    for text in ["", "  ", " a b ", "\u{2003}x\u{85}", "x", "\t\r\nxy\u{a0}"] {
        assert_eq!(trim(text), text.trim());
        assert_eq!(trim_end(text), text.trim_end());
        assert_eq!(to_lower(text), text.to_ascii_lowercase());
    }
    assert_eq!(to_lower("AZaz\u{c9}"), "azaz\u{c9}");
    assert_eq!(trim_leading("--a=--a=x", "--a="), "x");
}

#[test]
fn splitting_agrees_with_the_standard_library() {
    for text in ["", ",", "a,b", ",a,,b,", "none"] {
        assert_eq!(split(text, ','), text.split(',').map(str::to_string).collect::<Vec<_>>());
    }
    assert_eq!(split_once("a=b=c", '='), Some(("a".to_string(), "b=c".to_string())));
    assert_eq!(split_once("abc", '='), None);
    assert_eq!(join(&args(&["a", "b", "c"]), ", "), "a, b, c");
    assert_eq!(join(&vec![], ", "), "");
    assert_eq!(join4("a", "b", "c", "d"), "abcd");
}

#[test]
fn numbers_are_parsed_as_the_standard_library_does() {
    let texts = [
        "", "0", "+0", "-0", "+", "-", "007", "255", "256", "18446744073709551615",
        "18446744073709551616", "99999999999999999999999", "1a", "a1", " 1", "1 ", "++1", "\u{661}",
        "9x99999999999999999999999", "99999999999999999999x",
    ];
    for text in texts {
        assert_eq!(parse_unsigned(text, u64::MAX), text.parse::<u64>().ok(), "{text:?}");
        assert_eq!(parse_unsigned(text, 255), text.parse::<u8>().ok().map(u64::from), "{text:?}");
        assert_eq!(parse_size(text), text.parse::<usize>().ok(), "{text:?}");
        if let Err(error) = text.parse::<u64>() {
            assert_eq!(number_reason(text, u64::MAX), error.to_string(), "{text:?}");
        }
        if let Err(error) = text.parse::<u8>() {
            assert_eq!(number_reason(text, 255), error.to_string(), "{text:?}");
        }
    }
    for n in [0, 7, 10, 4096, u64::MAX] {
        assert_eq!(decimal(n), n.to_string());
        assert_eq!(parse_unsigned(&decimal(n), u64::MAX), Some(n));
        assert_eq!(padded(n, 4), format!("{n:04}"));
    }
    assert!(all_digit_chars("0129") && !all_digit_chars("1\u{661}"));
}

#[test]
fn texts_are_compared() {
    assert!(str_eq("a\u{e9}", "a\u{e9}") && !str_eq("a", "b") && !str_eq("a", "aa"));
    assert!(starts_with("abc", "ab") && !starts_with("a", "ab") && starts_with("", ""));
    assert!(ends_with("abc", "bc") && !ends_with("c", "bc"));
    assert_eq!(drop_tail("abc\u{e9}", 2), "ab");
    for (text, part) in [("abcabd", "abd"), ("aab", "ab"), ("abc", ""), ("", "a"), ("ab", "abc")] {
        assert_eq!(contains_part(text, part), text.contains(part));
    }
    let chars = chars_of("x:y");
    assert_eq!(find_char(&chars, ':'), Some(1));
    assert_eq!(find_char(&chars, 'z'), None);
    assert_eq!(string_between(&chars, 1, 3), ":y");
}

#[test]
fn processors_are_listed() {
    assert_eq!(cpu_ranges("0-2, 2,7", true).unwrap(), vec![0, 1, 2, 7]);
    assert_eq!(cpu_ranges("0-2, 2,7", false).unwrap(), vec![0, 1, 2, 2, 7]);
    assert_eq!(cpu_ranges("1, 3-2", true).unwrap_err(), ("3-2".to_string(), PartFault::Descending));
    assert_eq!(parse_part("4").unwrap(), (4, 4));
    assert_eq!(parse_part("4-"), Err(PartFault::Last));
    assert_eq!(parse_part("-4"), Err(PartFault::First));
    assert_eq!(parse_part("four"), Err(PartFault::Single));
    assert!(holds(&vec![1, 2], 2) && !holds(&vec![1, 2], 3));
}

#[test]
fn switches_are_read_from_a_status() {
    let status = "Name:\tx\nvoluntary_ctxt_switches:\t12\nnonvoluntary_ctxt_switches:\t3\r\n";
    assert_eq!(context_switches(status), (12, 3));
    assert_eq!(context_switches("voluntary_ctxt_switches: x"), (0, 0));
    assert_eq!(context_switches(""), (0, 0));
    let sched = "header\nse.nr_migrations  :   17  \nnr_switches : 4\n";
    assert_eq!(migrations(sched), 17);
    assert_eq!(migrations("nr_migrations : x\n"), 0);
    assert_eq!(migrations("x"), 0);
}

#[test]
fn words_are_put_in_either_order() {
    let mut buffer = [0u8; 10];
    put_be(&mut buffer, 1, 3, 0x010203);
    assert_eq!(buffer[..5], [0, 1, 2, 3, 0]);
    assert_eq!(get_be(&buffer, 1, 3), 0x010203);
    put_le(&mut buffer, 2, 8, u64::MAX - 1);
    assert_eq!(buffer[2..], (u64::MAX - 1).to_le_bytes());
    assert_eq!(get_le(&buffer, 2, 8), u64::MAX - 1);
    assert_eq!(get_be(&buffer, 2, 8), (u64::MAX - 1).swap_bytes());
    assert!(bytes_eq(&[1, 2], &[1, 2]) && !bytes_eq(&[1], &[1, 2]) && !bytes_eq(&[1], &[2]));
    let mut list = copy_range(&[1, 2, 3, 4], 1, 3);
    append_bytes(&mut list, &filled(9, 2));
    assert_eq!(list, vec![2, 3, 9, 9]);
}

#[test]
fn generators_give_known_values() {
    assert_eq!(xorshift64(0x123), 310_645_238_241);
    assert_eq!(next_shifted(0x9e37_79b9_7f4a_7c15), 5_524_144_936_709_382_830);
    assert_eq!(mix64(0x9e37_79b9_7f4a_7c15), 0xe220_a839_7b1d_cdaf);
    for n in [0u64, 1, 17, 63] {
        assert_eq!(rotate_left(0x8000_0000_0000_0013, n), 0x8000_0000_0000_0013u64.rotate_left(n as u32));
    }
}

#[test]
fn arguments_are_taken_by_place() {
    let list = args(&["a", "7"]);
    assert_eq!(value_at(&list, 1), Some("7".to_string()));
    assert_eq!(value_at(&list, 2), None);
    assert_eq!(needed(value_at(&list, 0), "gone").unwrap(), "a");
    let error = needed(None, "gone").unwrap_err();
    assert_eq!((error.kind, error.message.as_str()), (ErrorKind::InvalidInput, "gone"));
    assert_eq!(number(&value_at(&list, 1), 7, "none", "bad").unwrap(), 7);
    assert_eq!(number(&value_at(&list, 1), 6, "none", "bad").unwrap_err().message, "bad");
    assert_eq!(number(&None, 6, "none", "bad").unwrap_err().message, "none");
    let made = Error::of(ErrorKind::Other, "x");
    assert_eq!((made.kind, made.message.as_str()), (ErrorKind::Other, "x"));
}

#[test]
fn maps_hold_the_last_value_of_a_key() {
    let mut map = TextMap::new();
    map.insert("b".to_string(), "1".to_string());
    map.insert("a".to_string(), "2".to_string());
    map.insert("b".to_string(), "3".to_string());
    assert_eq!(map.get("b").map(String::as_str), Some("3"));
    assert!(map.contains_key("a") && !map.contains_key("c"));
    let mut other = TextMap::new();
    other.insert("a".to_string(), "2".to_string());
    assert!(!map.same(&other));
    other.insert("b".to_string(), "3".to_string());
    assert!(map.same(&other));
    map.insert("ab".to_string(), "4".to_string());
    map.insert("\u{e9}".to_string(), "5".to_string());
    map.insert("Z".to_string(), "6".to_string());
    assert_eq!(map.keys(), vec!["Z", "a", "ab", "b", "\u{e9}"]);
    assert_eq!(map.pairs()[1], ("a".to_string(), "2".to_string()));
    map.remove("ab");
    assert_eq!(map.keys(), vec!["Z", "a", "b", "\u{e9}"]);
    map.remove("\u{e9}");
    map.remove("Z");
    assert!(map.same(&other));
    map.remove("a");
    map.remove("c");
    assert!(map.get("a").is_none() && !map.same(&other));
}
