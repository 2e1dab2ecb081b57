use crcns_lens::files::handlers::filelist::{
    download_file, load_or_download_filelist, manifest_directory, pair_records, parse_checksums,
    parse_filelist, resolve_manifest, ChecksumEntry, FileEntry, ManifestError,
};
use crcns_lens::types::{Collection, Dataset, State};

fn collection(alias: &str) -> Collection {
    let mut c = Collection::sentinel(String::from("2020-01-01"));
    c.alias = String::from(alias);
    c
}

fn dataset(alias: &str) -> Dataset {
    let mut d = Dataset::sentinel(String::from("2020-01-01"));
    d.alias = String::from(alias);
    d
}

#[test]
fn manifest_example_yields_two_records_in_order() {
    let filelist = "# comment\nsample1.dat 1024\nsample2.dat 2048\n";
    let checksums = "abc123 sample1.dat\ndef456 sample2.dat\n";
    let files = resolve_manifest("data/hc/hc-3", filelist, checksums).unwrap();
    assert_eq!(files.len(), 2);
    assert_eq!(files[0].remote_path, "sample1.dat");
    assert_eq!(files[0].remote_size, 1024);
    assert_eq!(files[0].remote_md5, "abc123");
    assert_eq!(files[0].local_path, "data/hc/hc-3/sample1.dat");
    assert_eq!(files[0].local_size, 0);
    assert_eq!(files[0].local_md5, "");
    assert_eq!(files[0].extension, "");
    assert_eq!(files[1].remote_path, "sample2.dat");
    assert_eq!(files[1].remote_size, 2048);
    assert_eq!(files[1].remote_md5, "def456");
    assert_eq!(files[1].local_path, "data/hc/hc-3/sample2.dat");
}

#[test]
fn single_token_line_is_dropped_and_parsing_goes_on() {
    let entries = parse_filelist("a.dat 1\nlonely\nb.dat 2\n");
    assert_eq!(entries.len(), 2);
    assert_eq!(entries[0].path, "a.dat");
    assert_eq!(entries[0].size, 1);
    assert_eq!(entries[1].path, "b.dat");
    assert_eq!(entries[1].size, 2);
    let sums = parse_checksums("aa a.dat\nlonely\nbb b.dat");
    assert_eq!(sums.len(), 2);
    assert_eq!(sums[0].checksum, "aa");
    assert_eq!(sums[0].name, "a.dat");
    assert_eq!(sums[1].checksum, "bb");
    assert_eq!(sums[1].name, "b.dat");
}

#[test]
fn blank_and_comment_lines_are_skipped() {
    let entries = parse_filelist("\n   \n#x 1\n\t\na 7 extra words\r\n  b\t+8  \n");
    assert_eq!(entries.len(), 2);
    assert_eq!(entries[0].path, "a");
    assert_eq!(entries[0].size, 7);
    assert_eq!(entries[1].path, "b");
    assert_eq!(entries[1].size, 8);
}

#[test]
fn comment_mark_counts_only_at_the_start_of_a_line() {
    let entries = parse_filelist(" #x 1\n");
    assert_eq!(entries.len(), 1);
    assert_eq!(entries[0].path, "#x");
    assert_eq!(entries[0].size, 1);
    let sums = parse_checksums("#sum name\n");
    assert_eq!(sums.len(), 1);
    assert_eq!(sums[0].checksum, "#sum");
}

#[test]
fn words_are_split_at_unicode_white_space() {
    let entries = parse_filelist("a\u{00A0}1\nb\u{3000}2\nc\u{2003}3");
    assert_eq!(entries.len(), 3);
    assert_eq!(entries[2].path, "c");
    assert_eq!(entries[2].size, 3);
}

#[test]
fn empty_texts_give_an_empty_manifest() {
    assert_eq!(parse_filelist("").len(), 0);
    assert_eq!(parse_checksums("").len(), 0);
    assert_eq!(resolve_manifest("d", "", "").unwrap().len(), 0);
}

#[test]
fn a_line_whose_size_is_no_number_is_passed_over() {
    let files = resolve_manifest(
        "d",
        "a.dat 10\nb.dat big\nc.dat 30\n",
        "aa a.dat\ncc c.dat\n",
    )
    .unwrap();
    assert_eq!(files.len(), 2);
    assert_eq!(files[0].remote_path, "a.dat");
    assert_eq!(files[0].remote_size, 10);
    assert_eq!(files[0].remote_md5, "aa");
    assert_eq!(files[1].remote_path, "c.dat");
    assert_eq!(files[1].remote_size, 30);
    assert_eq!(files[1].remote_md5, "cc");
    let entries = parse_filelist("lonely\na.dat -1\nb.dat 2\nc.dat 3x\n");
    assert_eq!(entries.len(), 1);
    assert_eq!(entries[0].path, "b.dat");
    assert_eq!(entries[0].size, 2);
}

#[test]
fn as_many_records_as_valid_lines() {
    let filelist = "# list\nf0 0\n\nf1 1\nbad\nf2 2\nworse x\nf3 3\n";
    let checksums = "s0 f0\n\ns1 f1\nbad\ns2 f2\ns3 f3\n";
    let files = resolve_manifest("d", filelist, checksums).unwrap();
    assert_eq!(files.len(), 4);
    for (i, f) in files.iter().enumerate() {
        assert_eq!(f.remote_path, format!("f{i}"));
        assert_eq!(f.remote_size, i as u64);
        assert_eq!(f.remote_md5, format!("s{i}"));
        assert_eq!(f.local_path, format!("d/f{i}"));
        assert_eq!(f.local_size, 0);
        assert_eq!(f.local_md5, "");
    }
}

#[test]
fn sizes_are_64_bit_unsigned_decimals() {
    let entries = parse_filelist("a 18446744073709551615\nb 000\n");
    assert_eq!(entries.len(), 2);
    assert_eq!(entries[0].size, u64::MAX);
    assert_eq!(entries[1].size, 0);
    for size in ["18446744073709551616", "99999999999999999999999", "+", "1.5", "++1", "0x10"] {
        assert_eq!(parse_filelist(&format!("a {size}\nb 1\n")).len(), 1);
    }
}

#[test]
fn more_checksums_than_files_is_an_error() {
    let r = resolve_manifest("d", "a 1\n", "x a\ny b\n");
    assert_eq!(r.err(), Some(ManifestError::MissingEntry { files: 1, checksums: 2 }));
}

#[test]
fn records_are_matched_by_position_one_per_checksum() {
    let files = resolve_manifest("d", "a 1\nb 2\nc 3\n", "x zzz\ny a\n").unwrap();
    assert_eq!(files.len(), 2);
    assert_eq!(files[0].remote_path, "a");
    assert_eq!(files[0].remote_md5, "x");
    assert_eq!(files[1].remote_path, "b");
    assert_eq!(files[1].remote_md5, "y");
}

#[test]
fn pair_records_joins_the_directory_and_the_path() {
    let files = vec![
        FileEntry { path: String::from("sub/a.dat"), size: 5 },
        FileEntry { path: String::from("/abs/b.dat"), size: 6 },
    ];
    let sums = vec![
        ChecksumEntry { checksum: String::from("s1"), name: String::from("a.dat") },
        ChecksumEntry { checksum: String::from("s2"), name: String::from("b.dat") },
    ];
    let records = pair_records("root/", &files, &sums);
    assert_eq!(records.len(), 2);
    assert_eq!(records[0].local_path, "root/sub/a.dat");
    assert_eq!(records[0].remote_size, 5);
    assert_eq!(records[1].local_path, "/abs/b.dat");
    assert_eq!(records[1].remote_md5, "s2");
}

#[test]
fn manifest_directory_lies_under_data() {
    let dir = manifest_directory("/work", &collection("hc"), &dataset("hc-3"));
    assert_eq!(dir, "/work/data/hc/hc-3");
}

#[test]
fn resolved_manifest_becomes_the_working_files() {
    let mut state = State::new(String::from("/work"));
    let r = load_or_download_filelist(
        &mut state,
        &collection("hc"),
        &dataset("hc-3"),
        "# comment\nsample1.dat 1024\nsample2.dat 2048\n",
        "abc123 sample1.dat\ndef456 sample2.dat\n",
    );
    assert_eq!(r, Ok(()));
    assert_eq!(state.working_files.len(), 2);
    assert_eq!(state.working_files[0].local_path, "/work/data/hc/hc-3/sample1.dat");
    assert_eq!(state.working_files[1].remote_md5, "def456");
}

#[test]
fn failed_manifest_leaves_the_working_files() {
    let mut state = State::new(String::from("/work"));
    let ok = load_or_download_filelist(&mut state, &collection("hc"), &dataset("hc-3"), "a 1", "s a");
    assert_eq!(ok, Ok(()));
    let r = load_or_download_filelist(&mut state, &collection("hc"), &dataset("hc-3"), "a 1", "s a\nt b");
    assert_eq!(r, Err(ManifestError::MissingEntry { files: 1, checksums: 2 }));
    assert_eq!(state.working_files.len(), 1);
    assert_eq!(state.working_files[0].remote_path, "a");
}

#[test]
fn existing_file_is_not_fetched() {
    let r = download_file("filelist.txt", true, &collection("hc"), &dataset("hc-3"), "/w", "u", "p");
    assert!(r.is_none());
}

#[test]
fn missing_file_is_fetched() {
    let a = download_file("filelist.txt", false, &collection("hc"), &dataset("hc-3"), "/w", "u", "p")
        .unwrap();
    assert_eq!(a.remote_path, "hc-3/filelist.txt");
    assert_eq!(a.local_path, "/w/data/hc/hc-3/filelist.txt");
    assert_eq!(a.request.url, "https://portal.nersc.gov/project/crcns/download/index.php");
    assert_eq!(a.request.form.len(), 4);
    assert_eq!(a.request.form[0].name, "username");
    assert_eq!(a.request.form[0].value, "u");
    assert_eq!(a.request.form[1].name, "password");
    assert_eq!(a.request.form[1].value, "p");
    assert_eq!(a.request.form[2].name, "fn");
    assert_eq!(a.request.form[2].value, "hc-3/filelist.txt");
    assert_eq!(a.request.form[3].name, "submit");
    assert_eq!(a.request.form[3].value, "Login");
}

#[test]
fn a_bad_size_does_not_keep_the_manifest_from_the_state() {
    let mut state = State::new(String::from("/work"));
    let r = load_or_download_filelist(
        &mut state,
        &collection("hc"),
        &dataset("hc-3"),
        "a.dat 10\nb.dat big\nc.dat 30\n",
        "aa a.dat\ncc c.dat\n",
    );
    assert_eq!(r, Ok(()));
    let got: Vec<(String, u64, String)> = state
        .working_files
        .iter()
        .map(|f| (f.remote_path.clone(), f.remote_size, f.remote_md5.clone()))
        .collect();
    assert_eq!(
        got,
        vec![
            (String::from("a.dat"), 10, String::from("aa")),
            (String::from("c.dat"), 30, String::from("cc")),
        ]
    );
}
