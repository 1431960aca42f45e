use mdcode2txt::collector::{process_entries, write_file_content, CollectError, Collector, Entry};

fn entry(name: &str, is_file: bool, content: &[u8]) -> Entry {
    Entry { name: name.to_string(), is_file, content: content.to_vec() }
}

const SEP: &str = "----------------------------------------";

#[test]
fn test_process_directory() {
    let entries = vec![
        entry("/tmp/dir", false, b""),
        entry("/tmp/dir/test.c", true, b"int main() { return 0; }"),
        entry("/tmp/dir/test.h", true, b"#define TEST 1"),
        entry("/tmp/dir/notes.txt", true, b"This is not code."),
    ];
    let summary = process_entries(&entries).unwrap();
    assert_eq!(summary.entry_count, 2);
    assert!(summary.total_size > 0);
    assert!(summary.output.contains("test.c"));
    assert!(summary.output.contains("test.h"));
}

#[test]
fn test_process_zip() {
    let entries = vec![
        entry("code.c", true, b"int main() { return 0; }"),
        entry("header.h", true, b"#define TEST 1"),
        entry("notes.txt", true, b"This is not code."),
    ];
    let summary = process_entries(&entries).unwrap();
    assert_eq!(summary.entry_count, 2);
    assert!(summary.total_size > 0);
    assert!(summary.output.contains("code.c"));
    assert!(summary.output.contains("header.h"));
}

#[test]
fn directory_with_two_sources_omits_notes() {
    let entries = vec![
        entry("d/test.c", true, b"int main(){return 0;}"),
        entry("d/test.h", true, b"#define TEST 1"),
        entry("d/notes.txt", true, b"ignored"),
    ];
    let summary = process_entries(&entries).unwrap();
    assert_eq!(summary.entry_count, 2);
    assert_eq!(summary.total_size, 21 + 14);
    let expected = format!(
        "File: d/test.c\n\nint main(){{return 0;}}\n\n{SEP}\n\nFile: d/test.h\n\n#define TEST 1\n\n{SEP}\n\n"
    );
    assert_eq!(summary.output, expected);
    assert!(!summary.output.contains("notes.txt"));
    assert!(!summary.output.contains("ignored"));
}

#[test]
fn archive_members_that_are_directories_are_skipped() {
    let entries = vec![
        entry("src/", false, b""),
        entry("dir.c/", false, b""),
        entry("src/code.c", true, b"x"),
        entry("src/header.h", true, b"y"),
        entry("notes.txt", true, b"z"),
    ];
    let summary = process_entries(&entries).unwrap();
    assert_eq!(summary.entry_count, 2);
    assert_eq!(summary.total_size, 2);
    assert!(summary.output.contains("File: src/code.c\n\n"));
    assert!(summary.output.contains("File: src/header.h\n\n"));
    assert!(!summary.output.contains("notes.txt"));
    assert!(!summary.output.contains("dir.c"));
}

#[test]
fn invalid_bytes_become_replacement_characters() {
    let entries = vec![entry("bad.c", true, b"ab\xffcd\xc3")];
    let summary = process_entries(&entries).unwrap();
    assert_eq!(summary.entry_count, 1);
    assert_eq!(summary.output, format!("File: bad.c\n\nab\u{FFFD}cd\u{FFFD}\n\n{SEP}\n\n"));
    // Each replacement character takes three bytes.
    assert_eq!(summary.total_size, 4 + 6);
}

#[test]
fn empty_files_are_counted_with_no_size() {
    let entries = vec![entry("empty.rs", true, b""), entry("Mixed.Py", true, b"pass")];
    let summary = process_entries(&entries).unwrap();
    assert_eq!(summary.entry_count, 2);
    assert_eq!(summary.total_size, 4);
    assert_eq!(summary.output, format!("File: empty.rs\n\n\n\n{SEP}\n\nFile: Mixed.Py\n\npass\n\n{SEP}\n\n"));
}

#[test]
fn no_entries_give_an_empty_document() {
    let summary = process_entries(&Vec::new()).unwrap();
    assert_eq!(summary.entry_count, 0);
    assert_eq!(summary.total_size, 0);
    assert_eq!(summary.output, String::new());
}

#[test]
fn content_is_written_verbatim() {
    let text = format!("line\n{SEP}\nFile: x.c\n");
    let entries = vec![entry("dup.c", true, text.as_bytes()), entry("dup.c", true, b"two")];
    let summary = process_entries(&entries).unwrap();
    assert_eq!(summary.entry_count, 2);
    assert_eq!(
        summary.output,
        format!("File: dup.c\n\n{text}\n\n{SEP}\n\nFile: dup.c\n\ntwo\n\n{SEP}\n\n")
    );
}

#[test]
fn collector_counts_one_entry_at_a_time() {
    let mut c = Collector::new();
    assert_eq!(c.add_entry(&entry("a.txt", true, b"skip")), Ok(None));
    assert_eq!(c.entry_count, 0);
    let rec = c.add_entry(&entry("a.go", true, b"package a")).unwrap().unwrap();
    assert_eq!(rec, format!("File: a.go\n\npackage a\n\n{SEP}\n\n"));
    assert_eq!(c.entry_count, 1);
    assert_eq!(c.total_size, 9);
    assert_eq!(c.add_entry(&entry("pkg.go", false, b"")), Ok(None));
    assert_eq!(c.entry_count, 1);
}

#[test]
fn collector_reports_overflow() {
    let mut c = Collector::new();
    c.entry_count = u64::MAX;
    assert_eq!(c.add_entry(&entry("a.c", true, b"x")), Err(CollectError::Overflow));
    let mut d = Collector::new();
    d.total_size = u64::MAX - 1;
    assert_eq!(d.add_entry(&entry("a.c", true, b"xy")), Err(CollectError::Overflow));
    assert_eq!(d.add_entry(&entry("a.txt", true, b"xy")), Ok(None));
    assert_eq!(d.add_entry(&entry("a.c", true, b"x")).map(|r| r.is_some()), Ok(true));
    assert_eq!(d.total_size, u64::MAX);
}

#[test]
fn record_frames_name_and_text() {
    let mut out = String::from("head\n");
    write_file_content(&mut out, "n.rs", "fn main() {}");
    assert_eq!(out, format!("head\nFile: n.rs\n\nfn main() {{}}\n\n{SEP}\n\n"));
}
