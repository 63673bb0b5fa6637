use phcue_ck::{
    check_num_requests, print_csv, print_csv_long, print_csv_wide, validate_accession, CsvWriter,
    Reads, Run,
};

#[test]
fn test_validate_srr_accession() {
    let accession = "SRR1234567";
    let result = validate_accession(accession);
    assert!(result.is_ok());
}

#[test]
fn test_validate_err_accession() {
    let accession = "ERR1234567";
    let result = validate_accession(accession);
    assert!(result.is_ok());
}

#[test]
fn test_validate_drr_accession() {
    let accession = "DRR1234567";
    let result = validate_accession(accession);
    assert!(result.is_ok());
}

#[test]
fn test_validate_invalid_accession() {
    let accession = "1234567";
    let result = validate_accession(accession);
    assert!(result.is_err());
}

#[test]
fn test_check_num_requests_valid() {
    let num_requests = 5;
    let result = check_num_requests(num_requests);
    assert_eq!(result, 5);
}

#[test]
fn test_check_num_requests_invalid_less_than_1() {
    let num_requests = 0;
    let result = check_num_requests(num_requests);
    assert_eq!(result, 1);
}

#[test]
fn test_check_num_requests_invalid_greater_than_10() {
    let num_requests = 11;
    let result = check_num_requests(num_requests);
    assert_eq!(result, 10);
}

#[test]
fn test_removal_single_reads() {
    let read_se = Reads {
        url: "read.fastq.gz".to_string(),
        md5: "md5".to_string(),
        bytes: 123,
    };
    let read_pe_1 = Reads {
        url: "read_1.fastq.gz".to_string(),
        md5: "md5".to_string(),
        bytes: 123,
    };
    let read_pe_2 = Reads {
        url: "read_2.fastq.gz".to_string(),
        md5: "md5".to_string(),
        bytes: 123,
    };
    let reads_se = vec![read_se.clone()];
    let reads_pe = vec![read_pe_1.clone(), read_pe_2.clone()];
    let reads_pe_se = vec![read_se.clone(), read_pe_1.clone(), read_pe_2.clone()];
    let run_se = Run {
        accession: "SRR1234567".to_string(),
        reads: reads_se,
    };
    let run_pe = Run {
        accession: "SRR1234567".to_string(),
        reads: reads_pe,
    };
    let run_pe_se = Run {
        accession: "SRR1234567".to_string(),
        reads: reads_pe_se,
    };
    let mut runs = vec![run_se, run_pe, run_pe_se];
    runs.iter_mut().for_each(|run| run.clean_single_end());
    assert_eq!(runs[0].reads[0], read_se);
    assert_eq!(runs[1].reads[0], read_pe_1);
    assert_eq!(runs[1].reads[1], read_pe_2);
    assert_eq!(runs[2].reads[0], read_pe_1);
    assert_eq!(runs[2].reads[1], read_pe_2);
}

#[test]
fn test_print_csv() {
    let read = Reads {
        url: "url".to_string(),
        md5: "md5".to_string(),
        bytes: 123,
    };
    let reads = vec![read.clone()];
    let run = Run {
        accession: "accession".to_string(),
        reads: reads,
    };
    let runs = vec![run];
    let mut wtr = CsvWriter::new();
    print_csv(&mut wtr, runs).unwrap();
    let data = String::from_utf8(wtr.into_inner().unwrap()).unwrap();
    assert_eq!(data, "accession,url,md5,bytes\naccession,url,md5,123\n");
}

#[test]
fn test_print_csv_wide() {
    let read_se = Reads {
        url: "url_se".to_string(),
        md5: "md5_se".to_string(),
        bytes: 123,
    };
    let read_pe_1 = Reads {
        url: "url_pe_1".to_string(),
        md5: "md5_pe_1".to_string(),
        bytes: 123,
    };
    let read_pe_2 = Reads {
        url: "url_pe_2".to_string(),
        md5: "md5_pe_2".to_string(),
        bytes: 123,
    };
    let reads_se = vec![read_se.clone()];
    let reads_pe = vec![read_pe_1.clone(), read_pe_2.clone()];
    let reads_pe_se = vec![read_se.clone(), read_pe_1.clone(), read_pe_2.clone()];
    let run_se = Run {
        accession: "SRR1234567".to_string(),
        reads: reads_se,
    };
    let run_pe = Run {
        accession: "SRR1234567".to_string(),
        reads: reads_pe,
    };
    let run_pe_se = Run {
        accession: "SRR1234567".to_string(),
        reads: reads_pe_se,
    };

    let runs = vec![run_se];
    let mut wtr = CsvWriter::new();
    print_csv_wide(&mut wtr, runs, true).unwrap();
    let data = String::from_utf8(wtr.into_inner().unwrap()).unwrap();
    assert_eq!(data, "accession,url_se,md5_se,bytes_1,url_1,md5_1,bytes_se,url_2,md5_2,bytes_2\nSRR1234567,url_se,md5_se,123,,,,,,\n");

    let runs_pe = vec![run_pe];
    let mut wtr = CsvWriter::new();
    print_csv_wide(&mut wtr, runs_pe, false).unwrap();
    let data = String::from_utf8(wtr.into_inner().unwrap()).unwrap();
    assert_eq!(data, "accession,url_se,md5_se,bytes_1,url_1,md5_1,bytes_se,url_2,md5_2,bytes_2\nSRR1234567,,,,url_pe_1,md5_pe_1,123,url_pe_2,md5_pe_2,123\n");

    let runs_pe_se = vec![run_pe_se];
    let mut wtr = CsvWriter::new();
    print_csv_wide(&mut wtr, runs_pe_se, true).unwrap();
    let data = String::from_utf8(wtr.into_inner().unwrap()).unwrap();
    assert_eq!(data, "accession,url_se,md5_se,bytes_1,url_1,md5_1,bytes_se,url_2,md5_2,bytes_2\nSRR1234567,url_se,md5_se,123,url_pe_1,md5_pe_1,123,url_pe_2,md5_pe_2,123\n");
}

#[test]
fn test_print_csv_long() {
    let read_se = Reads {
        url: "url_se".to_string(),
        md5: "md5_se".to_string(),
        bytes: 123,
    };
    let read_pe_1 = Reads {
        url: "url_pe_1".to_string(),
        md5: "md5_pe_1".to_string(),
        bytes: 123,
    };
    let read_pe_2 = Reads {
        url: "url_pe_2".to_string(),
        md5: "md5_pe_2".to_string(),
        bytes: 123,
    };
    let reads_se = vec![read_se.clone()];
    let reads_pe = vec![read_pe_1.clone(), read_pe_2.clone()];
    let reads_pe_se = vec![read_se.clone(), read_pe_1.clone(), read_pe_2.clone()];
    let run_se = Run {
        accession: "SRR1234567".to_string(),
        reads: reads_se,
    };
    let run_pe = Run {
        accession: "SRR1234567".to_string(),
        reads: reads_pe,
    };
    let run_pe_se = Run {
        accession: "SRR1234567".to_string(),
        reads: reads_pe_se,
    };

    let runs = vec![run_se];
    let mut wtr = CsvWriter::new();
    print_csv_long(&mut wtr, runs).unwrap();
    let data = String::from_utf8(wtr.into_inner().unwrap()).unwrap();
    assert_eq!(data, "accession,variable,value\nSRR1234567,url_se,url_se\nSRR1234567,md5_se,md5_se\nSRR1234567,bytes_se,123\n");

    let runs_pe = vec![run_pe];
    let mut wtr = CsvWriter::new();
    print_csv_long(&mut wtr, runs_pe).unwrap();
    let data = String::from_utf8(wtr.into_inner().unwrap()).unwrap();
    assert_eq!(data, "accession,variable,value\nSRR1234567,url_1,url_pe_1\nSRR1234567,md5_1,md5_pe_1\nSRR1234567,bytes_1,123\nSRR1234567,url_2,url_pe_2\nSRR1234567,md5_2,md5_pe_2\nSRR1234567,bytes_2,123\n");

    let runs_pe_se = vec![run_pe_se];
    let mut wtr = CsvWriter::new();
    print_csv_long(&mut wtr, runs_pe_se).unwrap();
    let data = String::from_utf8(wtr.into_inner().unwrap()).unwrap();
    assert_eq!(data, "accession,variable,value\nSRR1234567,url_se,url_se\nSRR1234567,md5_se,md5_se\nSRR1234567,bytes_se,123\nSRR1234567,url_1,url_pe_1\nSRR1234567,md5_1,md5_pe_1\nSRR1234567,bytes_1,123\nSRR1234567,url_2,url_pe_2\nSRR1234567,md5_2,md5_pe_2\nSRR1234567,bytes_2,123\n");
}
