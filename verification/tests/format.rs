use cfixed_string::{format_c, CFixedString};
use std::fmt::Write;

fn pattern(len: usize) -> String {
    let mut out = String::with_capacity(len);

    for _ in 0..len / 16 {
        out.write_str("zyxvutabcdef9876").unwrap();
    }

    for i in 0..len % 16 {
        out.write_char((i as u8 + 'A' as u8) as char).unwrap();
    }

    assert_eq!(out.len(), len);
    out
}

#[test]
fn test_short_fmt_macro() {
    let first = 23;
    let second = "#@!*()&^%_-+={}[]|\\/?><,.:;~`";
    let third = u32::max_value();
    let fourth = pattern(512 - 45);

    let fixed = format_c(&[
        &format!("{}", first),
        "_",
        &format!("{}", second),
        "_0x",
        &format!("{:x}", third),
        "_",
        &format!("{}", fourth),
    ]);
    let heaped = format!("{}_{}_0x{:x}_{}", first, second, third, fourth);

    assert!(!fixed.is_allocated());
    assert_eq!(&fixed.to_string(), &heaped);
}

#[test]
fn test_long_fmt_macro() {
    let first = "";
    let second = pattern(510);
    let third = 3;
    let fourth = pattern(513 * 8);

    let fixed = format_c(&[
        &format!("{}", first),
        "_",
        &format!("{}", second),
        &format!("{}", third),
        &format!("{}", fourth),
    ]);
    let heaped = format!("{}_{}{}{}", first, second, third, fourth);

    assert!(fixed.is_allocated());
    assert_eq!(&fixed.to_string(), &heaped);
}

#[test]
fn format_of_no_fragments_is_empty_and_inline() {
    let fixed = format_c(&[]);

    assert!(!fixed.is_allocated());
    assert!(fixed.is_well_formed());
    assert_eq!(fixed.to_bytes(), b"");
    assert_eq!(fixed.to_bytes_with_nul(), b"\0");
}

#[test]
fn format_agrees_with_one_append_of_the_whole() {
    for total in [0usize, 1, 17, 510, 511, 512, 513, 600, 2000] {
        let whole = pattern(total);
        let cut_a = total / 3;
        let cut_b = total / 2;
        let pieces = [&whole[..cut_a], &whole[cut_a..cut_b], "", &whole[cut_b..]];

        let formatted = format_c(&pieces);
        let appended = CFixedString::from_str(&whole);

        assert_eq!(formatted.to_bytes(), appended.to_bytes());
        assert_eq!(formatted.to_bytes_with_nul(), appended.to_bytes_with_nul());
        assert_eq!(formatted.is_allocated(), appended.is_allocated());
        assert_eq!(formatted.is_allocated(), total >= 512);
        assert_eq!(&formatted.to_string(), &whole);
    }
}

#[test]
fn format_keeps_the_order_of_its_fragments() {
    let fixed = format_c(&["b", "a", "", "c", "a"]);

    assert_eq!(fixed.as_str(), "baca");
    assert_eq!(fixed.to_bytes_with_nul(), b"baca\0");
}

#[test]
fn format_with_text_beyond_ascii() {
    let fixed = format_c(&["gr\u{fc}\u{df}", " ", "\u{4e16}\u{754c}", " ", "\u{1f980}"]);
    let heaped = format!("{} {} {}", "gr\u{fc}\u{df}", "\u{4e16}\u{754c}", "\u{1f980}");

    assert!(!fixed.is_allocated());
    assert_eq!(&fixed.to_string(), &heaped);
    assert_eq!(fixed.to_bytes().len(), heaped.len());
}
