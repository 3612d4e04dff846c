use pg_named_args::diag::Diag;
use pg_named_args::fragment::fragment_allowed;
use pg_named_args::render::substitute;
use pg_named_args::resolver::{resolve, select, RecordDecl};
use pg_named_args::scanner::scan;

fn record(name: &str, fields: &[&str], has_spread: bool) -> RecordDecl {
    RecordDecl {
        name: name.as_bytes().to_vec(),
        fields: fields.iter().map(|f| f.as_bytes().to_vec()).collect(),
        has_spread,
    }
}

fn bytes(v: &[&str]) -> Vec<Vec<u8>> {
    v.iter().map(|s| s.as_bytes().to_vec()).collect()
}

fn text(v: &[u8]) -> String {
    String::from_utf8(v.to_vec()).unwrap()
}

#[test]
fn arguments_line_up_with_positional_markers() {
    // Args { c, b } declares the fields in the opposite order of use:
    // $1 must still be b and $2 must still be c.
    let out = scan(&"$b $c".as_bytes().to_vec());
    let res = resolve(&out.names, &out.fragments, &vec![record("Args", &["c", "b"], false)]);
    assert!(res.diags.is_empty());
    assert_eq!(res.param_indices, vec![1, 0]);
    let values = bytes(&["42", "37"]); // parallel to fields [c, b]
    let args = select(&values, &res.param_indices);
    assert_eq!(args, bytes(&["37", "42"])); // aligned to $1, $2
}

#[test]
fn fragment_occurrences_resolve_independently_in_order() {
    let out = scan(&"${a} ${b} ${a}".as_bytes().to_vec());
    assert!(out.diags.is_empty());
    assert_eq!(out.fragments, bytes(&["a", "b", "a"]));
    let res = resolve(&out.names, &out.fragments, &vec![record("Sql", &["b", "a"], false)]);
    assert!(res.diags.is_empty());
    assert_eq!(res.fragment_indices, vec![1, 0, 1]);
    assert!(res.substitute);
    let texts = select(&bytes(&["BB", "AA"]), &res.fragment_indices);
    let rendered = substitute(&out.rewritten, &texts).unwrap();
    assert_eq!(text(&rendered), "AA BB AA");
}

#[test]
fn unresolved_fragment_count_skips_substitution() {
    let out = scan(&"${a} ${missing}".as_bytes().to_vec());
    let res = resolve(&out.names, &out.fragments, &vec![record("Sql", &["a"], false)]);
    assert!(res.diags.is_empty());
    assert_eq!(res.fragment_indices, vec![0]);
    assert!(!res.substitute);
}

#[test]
fn missing_args_record_is_reported_only_when_names_exist() {
    let out = scan(&"$a".as_bytes().to_vec());
    let res = resolve(&out.names, &out.fragments, &vec![]);
    assert_eq!(res.diags, vec![Diag::ExpectedArgsStruct]);
    assert_eq!(res.args_record, None);

    let none = scan(&"no markers".as_bytes().to_vec());
    let res = resolve(&none.names, &none.fragments, &vec![]);
    assert!(res.diags.is_empty());
}

#[test]
fn missing_sql_record_is_reported_only_when_fragments_exist() {
    let out = scan(&"${a}".as_bytes().to_vec());
    let res = resolve(&out.names, &out.fragments, &vec![record("Args", &[], false)]);
    assert_eq!(res.diags, vec![Diag::ExpectedSqlStruct]);
    assert!(!res.substitute);
}

#[test]
fn duplicate_role_reports_and_later_record_wins() {
    let out = scan(&"$b".as_bytes().to_vec());
    let records = vec![record("Args", &["b"], false), record("Args", &["x"], false)];
    let res = resolve(&out.names, &out.fragments, &records);
    assert_eq!(res.diags, vec![Diag::DuplicateStructName]);
    assert_eq!(res.args_record, Some(1));
    // the winning record has no field `b`, so nothing resolves
    assert!(res.param_indices.is_empty());
}

#[test]
fn unknown_role_is_reported_once_at_first_occurrence() {
    let out = scan(&"".as_bytes().to_vec());
    let records = vec![
        record("Params", &[], false),
        record("Args", &[], false),
        record("Params", &[], false),
    ];
    let res = resolve(&out.names, &out.fragments, &records);
    assert_eq!(
        res.diags,
        vec![Diag::DuplicateStructName, Diag::UnknownStructName(0)]
    );
    assert_eq!(res.diags[1].message(), "unknown struct name");
}

#[test]
fn substitution_unescapes_braces_and_rejects_malformed_templates() {
    let out = scan(&"{lit} ${a}".as_bytes().to_vec());
    assert!(out.diags.is_empty());
    assert_eq!(text(&out.rewritten), "{{lit}} {}");
    let rendered = substitute(&out.rewritten, &bytes(&["X"])).unwrap();
    assert_eq!(text(&rendered), "{lit} X");

    // a lone brace is malformed
    assert!(substitute(&b"{x".to_vec(), &vec![]).is_none());
    // a hole without a value, or a value without a hole, is malformed
    assert!(substitute(&b"{}".to_vec(), &vec![]).is_none());
    assert!(substitute(&b"plain".to_vec(), &bytes(&["X"])).is_none());
}

#[test]
fn fragments_may_not_contain_dollar() {
    assert!(fragment_allowed("ORDER BY time DESC"));
    assert!(!fragment_allowed("ORDER BY $time"));
    assert!(fragment_allowed(""));
}

#[test]
fn diagnostic_messages_are_exact() {
    let cases = [
        (Diag::ExpectedIdentifierAfterBrace, "expected an identifier after `{`"),
        (Diag::FragmentUnterminated, "fragment should end with `}`"),
        (Diag::ExpectedIdentOrBracket, "expected identifier or `[` after `$`"),
        (Diag::ExpectedClosingBracket, "expected closing `]`"),
        (Diag::GroupUsedNotDefined, "parameter group is used, but not defined"),
        (
            Diag::EmptyGroupEntry,
            "expected identifier between all of `$[`, every `,` and final `]`",
        ),
        (Diag::PreviousGroupUnused, "previous parameter group is not used"),
        (Diag::LastGroupUnused, "last parameter group is not used"),
        (
            Diag::StructUpdateSyntax,
            "struct update syntax is not supported by the query_args macro",
        ),
        (Diag::DuplicateStructName, "duplicate struct name"),
        (Diag::ExpectedArgsStruct, "expected `Args` struct"),
        (Diag::ExpectedSqlStruct, "expected `Sql` struct"),
        (Diag::UnknownStructName(3), "unknown struct name"),
    ];
    for (diag, want) in cases {
        assert_eq!(diag.message(), want);
    }
}
