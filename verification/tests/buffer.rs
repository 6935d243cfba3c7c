use cfixed_string::CFixedString;
use std::fmt::Write;

fn gen_string(len: usize) -> String {
    let mut out = String::with_capacity(len);

    for _ in 0..len / 16 {
        out.write_str("zyxvutabcdef9876").unwrap();
    }

    for i in 0..len % 16 {
        out.write_char((i as u8 + 'A' as u8) as char).unwrap();
    }

    assert_eq!(out.len(), len);
    out
}

#[test]
fn test_empty_handler() {
    let short_string = "";

    let t = CFixedString::from_str(short_string);

    assert!(!t.is_allocated());
    assert_eq!(&t.to_string(), short_string);
}

#[test]
fn test_short_1() {
    let short_string = "test_local";

    let t = CFixedString::from_str(short_string);

    assert!(!t.is_allocated());
    assert_eq!(&t.to_string(), short_string);
}

#[test]
fn test_short_2() {
    let short_string = "test_local stoheusthsotheost";

    let t = CFixedString::from_str(short_string);

    assert!(!t.is_allocated());
    assert_eq!(&t.to_string(), short_string);
}

#[test]
fn test_511() {
    // this string (width 511) buffer should just fit
    let test_511_string = gen_string(511);

    let t = CFixedString::from_str(&test_511_string);

    assert!(!t.is_allocated());
    assert_eq!(&t.to_string(), &test_511_string);
}

#[test]
fn test_512() {
    // this string (width 512) buffer should not fit
    let test_512_string = gen_string(512);

    let t = CFixedString::from_str(&test_512_string);

    assert!(t.is_allocated());
    assert_eq!(&t.to_string(), &test_512_string);
}

#[test]
fn test_513() {
    // this string (width 513) buffer should not fit
    let test_513_string = gen_string(513);

    let t = CFixedString::from_str(&test_513_string);

    assert!(t.is_allocated());
    assert_eq!(&t.to_string(), &test_513_string);
}

#[test]
fn test_to_owned() {
    let short = "this is an amazing string";

    let t = CFixedString::from_str(short);

    assert!(!t.is_allocated());
    assert_eq!(&t.into_string(), short);

    let long = gen_string(1025);

    let t = CFixedString::from_str(&long);

    assert!(t.is_allocated());
    assert_eq!(&t.into_string(), &long);
}

#[test]
fn test_short_format() {
    let mut fixed = CFixedString::new();

    fixed.write_str(&format!("one_{}", 1)).unwrap();
    fixed.write_str(&format!("_two_{}", "two")).unwrap();
    fixed
        .write_str(&format!(
            "_three_{}-{}-{:.3}",
            23, "some string data", 56.789
        ))
        .unwrap();

    assert!(!fixed.is_allocated());
    assert_eq!(
        &fixed.to_string(),
        "one_1_two_two_three_23-some string data-56.789"
    );
}

#[test]
fn test_long_format() {
    let mut fixed = CFixedString::new();
    let mut string = String::new();

    for i in 1..30 {
        let genned = gen_string(i * i);

        fixed.write_str(&format!("{}_{}", i, genned)).unwrap();
        string.write_str(&format!("{}_{}", i, genned)).unwrap();
    }

    assert!(fixed.is_allocated());
    assert_eq!(&fixed.to_string(), &string);
}
