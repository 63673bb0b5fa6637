use phcue_ck::accession::{is_valid_accession, require_accessions};
use phcue_ck::args::{Args, ArgsError};
use phcue_ck::{read_accessions, validate_accession, OutputFormat};
use std::path::PathBuf;

fn strings(items: &[&str]) -> Vec<String> {
    items.iter().map(|s| s.to_string()).collect()
}

#[test]
fn accepts_six_to_ten_digits() {
    assert!(!is_valid_accession("SRR12345"));
    assert!(is_valid_accession("SRR123456"));
    assert!(is_valid_accession("SRR1234567"));
    assert!(is_valid_accession("ERR1234567890"));
    assert!(!is_valid_accession("ERR12345678901"));
}

#[test]
fn rejects_other_prefixes_and_cases() {
    assert!(!is_valid_accession("SRX1234567"));
    assert!(!is_valid_accession("srr1234567"));
    assert!(!is_valid_accession("SSR1234567"));
    assert!(!is_valid_accession("RRR1234567"));
    assert!(!is_valid_accession("PRJ1234567"));
    assert!(!is_valid_accession(""));
    assert!(!is_valid_accession("SRR"));
}

#[test]
fn rejects_anything_around_the_accession() {
    assert!(!is_valid_accession(" SRR1234567"));
    assert!(!is_valid_accession("SRR1234567 "));
    assert!(!is_valid_accession("SRR1234567\n"));
    assert!(!is_valid_accession("xSRR1234567"));
    assert!(!is_valid_accession("SRR12345a7"));
    assert!(!is_valid_accession("SRR1234567;ERR1234567"));
}

#[test]
fn rejects_digits_outside_ascii() {
    assert!(!is_valid_accession("SRR12345\u{0667}"));
    assert!(!is_valid_accession("SRR\u{ff11}\u{ff12}\u{ff13}\u{ff14}\u{ff15}\u{ff16}"));
}

#[test]
fn rejection_names_the_string() {
    assert_eq!(
        validate_accession("1234567"),
        Err("1234567 is not a valid accession number".to_string())
    );
    assert_eq!(validate_accession(""), Err(" is not a valid accession number".to_string()));
    assert_eq!(validate_accession("DRR000001"), Ok(()));
}

#[test]
fn agrees_with_the_pattern() {
    let pattern = regex::Regex::new(r"^(SRR|ERR|DRR)[0-9]{6,10}$").unwrap();
    let prefixes = ["SRR", "ERR", "DRR", "SR", "RR", "srr", "SRRR", "", "XRR", "S R", "DRA"];
    let bodies = [
        "",
        "1",
        "12345",
        "123456",
        "1234567",
        "0000000000",
        "12345678901",
        "12345x",
        "123456 ",
        "123456\n",
        "12 456",
        "-123456",
        "+123456",
        "1234567890",
        "123456\u{0661}",
    ];
    let mut accepted = 0;
    for prefix in prefixes.iter() {
        for body in bodies.iter() {
            let candidate = format!("{}{}", prefix, body);
            let expected = pattern.is_match(&candidate);
            assert_eq!(is_valid_accession(&candidate), expected, "{:?}", candidate);
            assert_eq!(validate_accession(&candidate).is_ok(), expected, "{:?}", candidate);
            if expected {
                accepted += 1;
            }
        }
    }
    assert_eq!(accepted, 12);
}

#[test]
fn a_list_file_may_hold_headings_and_blank_lines() {
    let lines = strings(&[
        "accession",
        "SRR1234567",
        "",
        "ERR7654321",
        "not an accession",
        "DRR000001",
        "SRR1234567",
    ]);
    assert_eq!(
        read_accessions(lines),
        strings(&["SRR1234567", "ERR7654321", "DRR000001", "SRR1234567"])
    );
    assert_eq!(read_accessions(Vec::new()), Vec::<String>::new());
    assert_eq!(read_accessions(strings(&["", "header"])), Vec::<String>::new());
}

#[test]
fn a_listed_string_that_is_no_accession_rejects_the_list() {
    assert_eq!(require_accessions(&strings(&["SRR1234567", "ERR7654321"])), Ok(()));
    assert_eq!(require_accessions(&Vec::new()), Ok(()));
    assert_eq!(
        require_accessions(&strings(&["SRR1234567", "bad", "worse"])),
        Err("bad is not a valid accession number".to_string())
    );
}

fn args(accession: &[&str], file: Option<&str>) -> Args {
    Args {
        accession: strings(accession),
        num_requests: 1,
        file: file.map(PathBuf::from),
        keep_single_end: false,
        format: OutputFormat::default(),
    }
}

#[test]
fn an_invocation_needs_accessions_or_a_file() {
    assert_eq!(args(&[], None).check(), Err(ArgsError::NoAccessions));
    assert_eq!(args(&["SRR1234567"], None).check(), Ok(()));
    assert_eq!(args(&[], Some("list.txt")).check(), Ok(()));
    assert_eq!(args(&["SRR1234567", "DRR123456"], Some("list.txt")).check(), Ok(()));
}

#[test]
fn an_invocation_with_a_wrong_accession_is_turned_down() {
    assert_eq!(
        args(&["SRR1234567", "SRR12"], None).check(),
        Err(ArgsError::InvalidAccession {
            message: "SRR12 is not a valid accession number".to_string()
        })
    );
    assert_eq!(
        args(&["nope"], Some("list.txt")).check(),
        Err(ArgsError::InvalidAccession {
            message: "nope is not a valid accession number".to_string()
        })
    );
}

#[test]
fn a_file_comes_before_listed_accessions() {
    assert!(args(&["SRR1234567"], Some("list.txt")).reads_file());
    assert!(!args(&["SRR1234567"], None).reads_file());
}

#[test]
fn concurrency_is_clamped() {
    let mut asked = args(&["SRR1234567"], None);
    asked.num_requests = 0;
    assert_eq!(asked.concurrency(), 1);
    asked.num_requests = 7;
    assert_eq!(asked.concurrency(), 7);
    asked.num_requests = 255;
    assert_eq!(asked.concurrency(), 10);
}

#[test]
fn formats_have_four_names() {
    assert_eq!(OutputFormat::from_name("json"), Some(OutputFormat::Json));
    assert_eq!(OutputFormat::from_name("csv"), Some(OutputFormat::Csv));
    assert_eq!(OutputFormat::from_name("csv-wide"), Some(OutputFormat::CsvWide));
    assert_eq!(OutputFormat::from_name("csv-long"), Some(OutputFormat::CsvLong));
    assert_eq!(OutputFormat::from_name("CSV"), None);
    assert_eq!(OutputFormat::from_name("csv_wide"), None);
    assert_eq!(OutputFormat::from_name(""), None);
    assert_eq!(OutputFormat::default(), OutputFormat::Json);
}
