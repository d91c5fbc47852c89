use mbulet::osc7::extract_osc7;

fn found(data: &[u8]) -> (Vec<String>, Vec<u8>) {
    extract_osc7(data)
}

#[test]
fn plain_output_is_left_alone() {
    let (cwds, out) = found(b"hello \x1b[31mred\x1b[0m");
    assert!(cwds.is_empty());
    assert_eq!(out, b"hello \x1b[31mred\x1b[0m".to_vec());
    assert_eq!(found(b""), (vec![], vec![]));
}

#[test]
fn sequence_ended_by_bell_is_read_and_stripped() {
    let (cwds, out) = found(b"a\x1b]7;file://host/home/me\x07b");
    assert_eq!(cwds, vec!["/home/me".to_string()]);
    assert_eq!(out, b"ab".to_vec());
}

#[test]
fn sequence_ended_by_string_terminator_is_read_and_stripped() {
    let (cwds, out) = found(b"a\x1b]7;file://host/tmp\x1b\\b");
    assert_eq!(cwds, vec!["/tmp".to_string()]);
    assert_eq!(out, b"ab".to_vec());
}

#[test]
fn several_sequences_are_read_in_order() {
    let (cwds, out) = found(b"\x1b]7;file:///one\x07x\x1b]7;file://h/two\x07");
    assert_eq!(cwds, vec!["/one".to_string(), "/two".to_string()]);
    assert_eq!(out, b"x".to_vec());
}

#[test]
fn payload_without_file_scheme_is_taken_whole() {
    assert_eq!(found(b"\x1b]7;/plain\x07").0, vec!["/plain".to_string()]);
    assert_eq!(found(b"\x1b]7;file://hostonly\x07").0, vec!["hostonly".to_string()]);
}

#[test]
fn empty_path_is_not_reported() {
    let (cwds, out) = found(b"1\x1b]7;\x072\x1b]7;file://\x073");
    assert!(cwds.is_empty());
    assert_eq!(out, b"123".to_vec());
}

#[test]
fn payload_that_is_no_text_is_stripped_only() {
    let (cwds, out) = found(b"1\x1b]7;\xff\xfe\x072");
    assert!(cwds.is_empty());
    assert_eq!(out, b"12".to_vec());
}

#[test]
fn unfinished_sequence_stays() {
    let data = b"x\x1b]7;file://host/pa";
    assert_eq!(found(data), (vec![], data.to_vec()));
    let short = b"x\x1b]7";
    assert_eq!(found(short), (vec![], short.to_vec()));
}

#[test]
fn unicode_paths_are_kept() {
    let data = "\x1b]7;file://h/größe/目\x07".as_bytes();
    assert_eq!(found(data).0, vec!["/größe/目".to_string()]);
}

#[test]
fn whole_sequence_left_spans_a_stripped_one() {
    let data = b"\x1b]\x1b]7;/a\x077;/b\x07";
    let (cwds, out) = found(data);
    assert_eq!(cwds, vec!["/a".to_string()]);
    assert_eq!(out, b"\x1b]7;/b\x07".to_vec());
}
