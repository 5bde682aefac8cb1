use pickles_verifier::ingest::sexpr::{parse, Sexp};

#[test]
fn parses_atom() {
    assert_eq!(parse("foo").unwrap(), Sexp::Atom("foo".into()));
}

#[test]
fn parses_list() {
    let s = parse("(a b c)").unwrap();
    let items = s.as_list().unwrap();
    assert_eq!(items.len(), 3);
    assert_eq!(items[0].as_atom().unwrap(), "a");
}

#[test]
fn parses_record_field_lookup() {
    let s = parse("((alpha (1 2)) (beta (3 4)))").unwrap();
    let beta = s.field("beta").unwrap();
    let limbs = beta.as_list().unwrap();
    assert_eq!(limbs[0].as_atom().unwrap(), "3");
    assert_eq!(limbs[1].as_atom().unwrap(), "4");
}

#[test]
fn parses_quoted_with_tab_escape() {
    let s = parse("(\"\\t\")").unwrap();
    let items = s.as_list().unwrap();
    assert_eq!(items[0].as_atom().unwrap(), "\t");
}

#[test]
fn parses_quoted_with_decimal_escape() {
    // \009 is byte 9 (tab) — same as "\t".
    let s = parse("\"\\009\"").unwrap();
    assert_eq!(s.as_atom().unwrap(), "\t");
}

#[test]
fn parses_empty_list() {
    let s = parse("()").unwrap();
    assert!(s.as_list().unwrap().is_empty());
}

#[test]
fn parses_nested_sample() {
    let s = parse("((plonk ((alpha ((inner (deadbeef cafebabe)))) (beta (1 2)))))").unwrap();
    let plonk = s.field("plonk").unwrap();
    let alpha = plonk.field("alpha").unwrap();
    let inner = alpha.field("inner").unwrap();
    let limbs = inner.as_list().unwrap();
    assert_eq!(limbs[0].as_atom().unwrap(), "deadbeef");
    assert_eq!(limbs[1].as_atom().unwrap(), "cafebabe");
}

#[test]
fn rejects_trailing_garbage() {
    assert!(parse("(a) (b)").is_err());
}

#[test]
fn rejects_unclosed_list() {
    assert!(parse("(a (b))").is_ok());
    assert!(parse("(a (b)").is_err());
}

// ---------------------------------------------------------------------------
// Error offsets and the remaining escapes
// ---------------------------------------------------------------------------

#[test]
fn trailing_garbage_offset_is_first_extra_byte() {
    let e = parse("(a) (b)").unwrap_err();
    assert_eq!(e.offset, 4);
}

#[test]
fn unclosed_list_offset_is_end_of_input() {
    let e = parse("(a (b)").unwrap_err();
    assert_eq!(e.offset, 6);
}

#[test]
fn empty_input_is_unexpected_eof() {
    let e = parse("   ").unwrap_err();
    assert_eq!(e.offset, 3);
    assert_eq!(e.message, "unexpected EOF");
}

#[test]
fn stray_close_paren_is_rejected_at_its_offset() {
    let e = parse("  )").unwrap_err();
    assert_eq!(e.offset, 2);
}

#[test]
fn all_single_letter_escapes() {
    let s = parse("\"\\\\\\\"\\n\\t\\r\\b\"").unwrap();
    assert_eq!(s.as_atom().unwrap(), "\\\"\n\t\r\u{8}");
}

#[test]
fn decimal_escape_out_of_range_is_rejected() {
    let e = parse("\"\\256\"").unwrap_err();
    assert_eq!(e.offset, 2);
}

#[test]
fn decimal_escape_needs_three_digits() {
    assert_eq!(parse("\"\\0a9\"").unwrap_err().offset, 2);
    assert_eq!(parse("\"\\09").unwrap_err().offset, 2);
}

#[test]
fn unknown_escape_is_rejected() {
    assert_eq!(parse("\"\\q\"").unwrap_err().offset, 2);
}

#[test]
fn unterminated_quoted_atom() {
    assert_eq!(parse("\"abc").unwrap_err().offset, 4);
    assert_eq!(parse("\"abc\\").unwrap_err().offset, 5);
}

#[test]
fn quoted_atom_must_decode_as_utf8() {
    // \255 is a lone 0xFF byte: not UTF-8. The offset is just past the quote.
    assert_eq!(parse("\"\\255\"").unwrap_err().offset, 6);
}

#[test]
fn non_ascii_bare_atom() {
    assert_eq!(parse(" (é x) ").unwrap(), Sexp::List(vec![Sexp::Atom("é".into()), Sexp::Atom("x".into())]));
}

#[test]
fn as_atom_and_as_list_reject_the_other_kind() {
    assert!(parse("(a)").unwrap().as_atom().is_err());
    assert!(parse("a").unwrap().as_list().is_err());
}

#[test]
fn field_lookup_rules() {
    // The first pair with the key decides.
    let s = parse("((k 1) (k 2))").unwrap();
    assert_eq!(s.field("k").unwrap().as_atom().unwrap(), "1");
    // Empty entries are passed over.
    let s = parse("(() (k 1))").unwrap();
    assert_eq!(s.field("k").unwrap().as_atom().unwrap(), "1");
    // A key without a value, or with two, is an error.
    assert!(parse("((k))").unwrap().field("k").is_err());
    assert!(parse("((k 1 2))").unwrap().field("k").is_err());
    // An atom entry before the key stops the search.
    assert!(parse("(x (k 1))").unwrap().field("k").is_err());
    // Missing key, and a non-record.
    assert!(parse("((a 1))").unwrap().field("k").is_err());
    assert!(parse("k").unwrap().field("k").is_err());
}

#[test]
fn parse_error_text_names_offset_and_message() {
    let e = parse("(a) b").unwrap_err();
    assert_eq!(e.text(), format!("sexp parse error at offset {}: {}", e.offset, e.message));
    assert!(e.text().starts_with("sexp parse error at offset 4: "));
    let e = parse("(aaaaaaaaaaaa").unwrap_err();
    assert_eq!(e.offset, 13);
    assert!(e.text().starts_with("sexp parse error at offset 13: "));
}

#[test]
fn navigator_error_messages() {
    assert_eq!(parse("(a)").unwrap().as_atom().unwrap_err(), "expected atom, got list");
    assert_eq!(parse("abc").unwrap().as_list().unwrap_err(), "expected list, got atom \"abc\"");
    assert_eq!(parse("((a 1))").unwrap().field("b").unwrap_err(), "field `b` not found");
    assert_eq!(parse("((a) (a 2))").unwrap().field("a").unwrap_err(), "field `a`: value missing");
    assert_eq!(
        parse("((a 1 2))").unwrap().field("a").unwrap_err(),
        "field `a`: expected (key value), got 3 elements"
    );
    assert_eq!(
        parse("(x (a 1))").unwrap().field("a").unwrap_err(),
        "field `a`: expected list, got atom \"x\""
    );
}

#[test]
fn decimal_escape_bytes_must_be_text() {
    let e = parse("\"\\1\u{e9}\"").unwrap_err();
    assert_eq!(e.offset, 2);
    assert_eq!(e.message, "\\NNN parse: invalid digit found in string");
    // the escape's three bytes cut a two-byte character
    let e = parse("\"\\12\u{e9}\"").unwrap_err();
    assert_eq!(e.offset, 2);
    assert_eq!(e.message, "\\NNN: incomplete utf-8 byte sequence from index 2");
}

#[test]
fn surrounding_whitespace_changes_nothing_but_offsets() {
    let v = parse("(a (b c) \"d e\")").unwrap();
    assert_eq!(parse(" \t\n(a (b c) \"d e\")\r\n ").unwrap(), v);
    let bare = parse(")").unwrap_err();
    let padded = parse("  \n)").unwrap_err();
    assert_eq!(padded.offset, bare.offset + 3);
}

#[test]
fn written_trees_read_back() {
    let v = Sexp::List(vec![
        Sexp::Atom("a".into()),
        Sexp::List(vec![Sexp::Atom("b".into()), Sexp::Atom("ü".into())]),
        Sexp::List(vec![]),
    ]);
    assert_eq!(parse("(a (b ü) ())").unwrap(), v);
}

#[test]
fn escaped_quoted_atoms_read_back() {
    let s = "a\\b\"c d";
    let escaped: String = s.chars().flat_map(|c| match c {
        '\\' | '"' => vec!['\\', c],
        _ => vec![c],
    }).collect();
    assert_eq!(parse(&format!("\"{escaped}\"")).unwrap(), Sexp::Atom(s.into()));
}

#[test]
fn escaped_quoted_atom_reads_back_before_what_follows() {
    let t = "a\"b\\c d";
    let quoted = format!("\"{}\"", t.replace('\\', "\\\\").replace('"', "\\\""));
    let s = parse(&format!("({quoted} next)")).unwrap();
    assert_eq!(
        s,
        Sexp::List(vec![Sexp::Atom(t.into()), Sexp::Atom("next".into())])
    );
}
