use assembly_line::lines::{
    blank, join, lines_of, nonblank_lines, replace, split, trim, trim_final_newlines,
};
use assembly_line::number::{decimal_of, hexadecimal_of, number_of, signed_decimal_of};
use assembly_line::text::{
    chars_of, copy_texts, holds, is_before, position_of, same_text, text_between,
};

const SAMPLES: [&str; 16] = [
    "", " ", "a", " a ", "\ta\r\n", "a\nb", "a\r\nb\r\n", "\n", "\r\n", "\r", "a\rb", "\n\na\n\n",
    "\u{a0}x\u{3000}", "\u{85}\u{2028}y\u{200b}", "caf\u{e9}\n", "a\tb\tc",
];

#[test]
fn trimming_and_lines_are_what_the_standard_library_does() {
    for text in SAMPLES {
        assert_eq!(trim(text), text.trim(), "{text:?}");
        assert_eq!(blank(text), text.trim().is_empty(), "{text:?}");
        assert_eq!(
            trim_final_newlines(text),
            text.trim_end_matches('\n'),
            "{text:?}"
        );
        let expected: Vec<&str> = text.lines().collect();
        assert_eq!(lines_of(text), expected, "{text:?}");
        let expected: Vec<&str> = text.lines().filter(|l| !l.trim().is_empty()).collect();
        assert_eq!(nonblank_lines(text), expected, "{text:?}");
        let expected: Vec<&str> = text.split('\t').collect();
        assert_eq!(split(text, '\t'), expected, "{text:?}");
    }
}

#[test]
fn every_white_space_character_is_trimmed() {
    for code in 0..0x3100_u32 {
        let Some(c) = char::from_u32(code) else {
            continue;
        };
        let text = format!("{c}x");
        assert_eq!(trim(&text), text.trim(), "{code:x}");
    }
}

#[test]
fn replacing_is_what_the_standard_library_does() {
    for (text, pattern, with) in [
        ("", "a", "b"),
        ("aaa", "a", "aa"),
        ("aaa", "aa", "b"),
        ("xaxax", "xax", "-"),
        ("{prompt}", "{prompt}", "{prompt}{prompt}"),
        ("none here", "{prompt}", "x"),
        ("caf\u{e9}", "\u{e9}", "e"),
    ] {
        assert_eq!(
            replace(text, pattern, with),
            text.replace(pattern, with),
            "{text:?}"
        );
    }
}

#[test]
fn joining_puts_the_separator_between() {
    let list = |items: &[&str]| -> Vec<String> { items.iter().map(|i| i.to_string()).collect() };
    assert_eq!(join(&list(&[]), ", "), "");
    assert_eq!(join(&list(&["a"]), ", "), "a");
    assert_eq!(join(&list(&["a", "", "b"]), ", "), "a, , b");
}

#[test]
fn numbers_are_written_as_the_standard_library_writes_them() {
    for n in [0, 7, 10, 999, 1000, u64::MAX] {
        assert_eq!(decimal_of(n), n.to_string());
        assert_eq!(hexadecimal_of(n, 16), format!("{n:016x}"));
        assert_eq!(number_of(&decimal_of(n), u64::MAX), Some(n));
    }
    for n in [0, -1, 5, i32::MAX, i32::MIN] {
        assert_eq!(signed_decimal_of(n), n.to_string());
    }
}

#[test]
fn numbers_are_read_as_the_standard_library_reads_them() {
    for text in [
        "", "+", "-", "+5", "-5", "-0", "5 ", " 5", "007", "1_000", "0x10", "\u{663}",
        "18446744073709551615", "18446744073709551616", "99999999999999999999999", "+0",
        "000000000000000000000000000001",
    ] {
        assert_eq!(
            number_of(text, u64::MAX),
            text.parse::<u64>().ok(),
            "{text:?}"
        );
    }
    assert_eq!(number_of("256", 255), None);
    assert_eq!(number_of("255", 255), Some(255));
}

#[test]
fn texts_are_compared_and_found() {
    assert!(same_text("caf\u{e9}", "caf\u{e9}"));
    assert!(!same_text("a", "ab"));
    let list = vec!["b".to_string(), "a".to_string(), "b".to_string()];
    assert_eq!(position_of(&list, "b"), Some(0));
    assert_eq!(position_of(&list, "c"), None);
    assert!(holds(&list, "a") && !holds(&list, ""));
    assert_eq!(copy_texts(&list), list);
    assert_eq!(text_between(&chars_of("caf\u{e9}s"), 2, 4), "f\u{e9}");
}

#[test]
fn texts_sort_as_the_standard_library_sorts_them() {
    let samples = ["", "a", "B", "ab", "a\u{e9}", "a\u{10000}", "a\u{ffff}", "_", "-"];
    for a in samples {
        for b in samples {
            assert_eq!(is_before(a, b), a < b, "{a:?} {b:?}");
        }
    }
}
