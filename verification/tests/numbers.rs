use phcue_ck::check_num_requests;
use phcue_ck::decimal::{format_u64, parse_u64};
use phcue_ck::fetch::{request_url, MAX_REQUESTS, MIN_REQUESTS};
use phcue_ck::order::precedes;
use phcue_ck::split::split_on;
use phcue_ck::text::{chars_of, same_text};

#[test]
fn clamp_holds_every_request_count_in_range() {
    for asked in 0..=u8::MAX {
        let bound = check_num_requests(asked);
        assert!(MIN_REQUESTS <= bound && bound <= MAX_REQUESTS);
        if (1..=10).contains(&asked) {
            assert_eq!(bound, asked as usize);
        }
    }
    assert_eq!(check_num_requests(0), 1);
    assert_eq!(check_num_requests(1), 1);
    assert_eq!(check_num_requests(10), 10);
    assert_eq!(check_num_requests(11), 10);
    assert_eq!(check_num_requests(255), 10);
}

#[test]
fn request_address_holds_the_accession() {
    assert_eq!(
        request_url("SRR16298157"),
        "https://www.ebi.ac.uk/ena/portal/api/filereport?accession=SRR16298157&result=read_run&format=json"
    );
    assert_eq!(
        request_url(""),
        "https://www.ebi.ac.uk/ena/portal/api/filereport?accession=&result=read_run&format=json"
    );
}

#[test]
fn numerals_are_read() {
    assert_eq!(parse_u64("0"), Some(0));
    assert_eq!(parse_u64("43409"), Some(43409));
    assert_eq!(parse_u64("+7"), Some(7));
    assert_eq!(parse_u64("007"), Some(7));
    assert_eq!(parse_u64("4294967295"), Some(4294967295));
    assert_eq!(parse_u64("4294967296"), Some(4294967296));
    assert_eq!(parse_u64("5000000000"), Some(5000000000));
    assert_eq!(parse_u64("18446744073709551615"), Some(u64::MAX));
    assert_eq!(parse_u64("000018446744073709551615"), Some(u64::MAX));
}

#[test]
fn what_is_no_numeral_is_not_read() {
    assert_eq!(parse_u64(""), None);
    assert_eq!(parse_u64("+"), None);
    assert_eq!(parse_u64("-1"), None);
    assert_eq!(parse_u64("-0"), None);
    assert_eq!(parse_u64("++1"), None);
    assert_eq!(parse_u64("1+"), None);
    assert_eq!(parse_u64(" 1"), None);
    assert_eq!(parse_u64("1 "), None);
    assert_eq!(parse_u64("1_000"), None);
    assert_eq!(parse_u64("12a"), None);
    assert_eq!(parse_u64("1.5"), None);
    assert_eq!(parse_u64("\u{0661}"), None);
}

#[test]
fn a_number_too_large_for_64_bits_is_not_read() {
    assert_eq!(parse_u64("18446744073709551616"), None);
    assert_eq!(parse_u64("18446744073709551620"), None);
    assert_eq!(parse_u64("184467440737095516150"), None);
    assert_eq!(parse_u64("99999999999999999999999"), None);
}

#[test]
fn reading_agrees_with_the_standard_library() {
    let samples = [
        "", "0", "1", "+1", "-1", "+", "-", "+0", "00", "0123", "4294967295", "4294967296",
        "5000000000", "18446744073709551615", "18446744073709551616", "18446744073709551614",
        "1844674407370955161", "184467440737095516150", "20000000000000000000",
        "10000000000000000000", "12x", "x12", " 12", "12 ", "1e3", "0x10", "١٢", "+-1", "1\n",
    ];
    for sample in samples.iter() {
        assert_eq!(parse_u64(sample), sample.parse::<u64>().ok(), "{:?}", sample);
    }
}

#[test]
fn numerals_are_written() {
    assert_eq!(format_u64(0), "0");
    assert_eq!(format_u64(9), "9");
    assert_eq!(format_u64(10), "10");
    assert_eq!(format_u64(123), "123");
    assert_eq!(format_u64(1000), "1000");
    assert_eq!(format_u64(4294967295), "4294967295");
    assert_eq!(format_u64(5000000000), "5000000000");
    assert_eq!(format_u64(u64::MAX), "18446744073709551615");
}

#[test]
fn writing_then_reading_gives_the_number_back() {
    let samples = [
        0u64,
        1,
        9,
        10,
        11,
        99,
        100,
        101,
        43409,
        1 << 31,
        u32::MAX as u64,
        u32::MAX as u64 + 1,
        5000000000,
        1 << 63,
        u64::MAX - 1,
        u64::MAX,
    ];
    for n in samples.iter() {
        assert_eq!(parse_u64(&format_u64(*n)), Some(*n));
        assert_eq!(format_u64(*n), n.to_string());
    }
}

fn strings(items: &[&str]) -> Vec<String> {
    items.iter().map(|s| s.to_string()).collect()
}

#[test]
fn lists_are_cut_at_each_separator() {
    assert_eq!(split_on("a;b;c", ';'), strings(&["a", "b", "c"]));
    assert_eq!(split_on("abc", ';'), strings(&["abc"]));
    assert_eq!(split_on("", ';'), strings(&[""]));
    assert_eq!(split_on(";", ';'), strings(&["", ""]));
    assert_eq!(split_on("a;", ';'), strings(&["a", ""]));
    assert_eq!(split_on(";a", ';'), strings(&["", "a"]));
    assert_eq!(split_on("a;;b", ';'), strings(&["a", "", "b"]));
    assert_eq!(split_on("é;ü", ';'), strings(&["é", "ü"]));
}

#[test]
fn cutting_agrees_with_the_standard_library_and_joins_back() {
    let samples = ["", ";", ";;", "a", "a;b", ";a;", "ab;cd;;ef;", "x;y;z", "ü;;é"];
    for sample in samples.iter() {
        let fields = split_on(sample, ';');
        let expected: Vec<String> = sample.split(';').map(|s| s.to_string()).collect();
        assert_eq!(fields, expected);
        assert_eq!(fields.join(";"), *sample);
        assert!(fields.iter().all(|field| !field.contains(';')));
    }
}

#[test]
fn texts_are_read_character_by_character() {
    let chars = chars_of("héllo");
    assert_eq!(chars, vec!['h', 'é', 'l', 'l', 'o']);
    assert_eq!(chars_of(""), Vec::<char>::new());
    assert!(same_text("abc", "abc"));
    assert!(!same_text("abc", "abd"));
    assert!(!same_text("abc", "ab"));
}

#[test]
fn strings_are_ordered_character_by_character() {
    assert!(precedes("", ""));
    assert!(precedes("", "a"));
    assert!(!precedes("a", ""));
    assert!(precedes("a", "a"));
    assert!(precedes("a", "b"));
    assert!(!precedes("b", "a"));
    assert!(precedes("ab", "abc"));
    assert!(!precedes("abc", "ab"));
    assert!(precedes("DRR999999", "ERR000000"));
    assert!(precedes("SRR10", "SRR9"));
    let samples = ["", "a", "ab", "b", "SRR123456", "SRR1234567", "ERR999999", "é", "z", "Z"];
    for a in samples.iter() {
        for b in samples.iter() {
            assert_eq!(precedes(a, b), a <= b, "{:?} {:?}", a, b);
        }
    }
}
