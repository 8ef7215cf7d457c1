use git_ref_tx::attributes::parse;
use git_ref_tx::Target;

#[test]
fn encode_peeled_is_raw_bytes() {
    assert_eq!(Target::Peeled(vec![1, 2, 3]).encode(), vec![1, 2, 3]);
}

#[test]
fn encode_symbolic_has_prefix() {
    assert_eq!(Target::Symbolic(b"refs/heads/x".to_vec()).encode(), b"ref: refs/heads/x".to_vec());
}

#[test]
fn decode_reads_both_kinds() {
    assert!(matches!(Target::decode(b"ref: refs/heads/x"), Some(Target::Symbolic(ref n)) if n == b"refs/heads/x"));
    assert!(matches!(Target::decode(&[9u8; 20]), Some(Target::Peeled(ref o)) if o == &vec![9u8; 20]));
    assert!(Target::decode(b"").is_none());
    assert!(Target::decode(b"ref: ").is_none());
}

#[test]
fn same_as_compares_kind_and_bytes() {
    let a = Target::Peeled(b"abc".to_vec());
    assert!(a.same_as(&Target::Peeled(b"abc".to_vec())));
    assert!(!a.same_as(&Target::Symbolic(b"abc".to_vec())));
    assert!(!a.same_as(&Target::Peeled(b"abd".to_vec())));
}

#[test]
fn parse_skips_blank_and_comment_lines() {
    let lines = parse(b"# comment\n*.rs diff\n\n*.md -text\n");
    assert_eq!(lines.len(), 2);
    assert_eq!(lines[0].line_number, 2);
    assert_eq!(lines[0].text, b"*.rs diff".to_vec());
    assert_eq!(lines[1].line_number, 4);
    assert_eq!(lines[1].text, b"*.md -text".to_vec());
}

#[test]
fn parse_keeps_last_line_without_newline() {
    let lines = parse(b"a x\nb y");
    assert_eq!(lines.len(), 2);
    assert_eq!(lines[1].line_number, 2);
    assert_eq!(lines[1].text, b"b y".to_vec());
    assert!(parse(b"").is_empty());
}
