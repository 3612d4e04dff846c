use pg_named_args::diag::Diag;
use pg_named_args::scanner::{scan, ScanOutput};

fn scan_str(template: &str) -> ScanOutput {
    scan(&template.as_bytes().to_vec())
}

fn text(v: &[u8]) -> String {
    String::from_utf8(v.to_vec()).unwrap()
}

fn names_of(out: &ScanOutput) -> Vec<String> {
    out.names.iter().map(|n| text(n)).collect()
}

fn rewrite_query_wrapper(format: &str) -> Result<String, Vec<Diag>> {
    let out = scan_str(format);
    if out.diags.is_empty() {
        Ok(text(&out.rewritten))
    } else {
        Err(out.diags)
    }
}

#[test]
fn rewrite_query_impl_should_support_list_syntax() {
    let tests = [
        r"
INSERT INTO fred_flintstone(a, $[b, c])
VALUES(true, $[..]);
            ",
        r"
INSERT INTO fred_flintstone(a, b, c)
VALUES(true, $b, $c);
            ",
    ];

    for format in tests {
        let actual = rewrite_query_wrapper(format.trim()).unwrap();
        let expected = r"
INSERT INTO fred_flintstone(a, b, c)
VALUES(true, $1, $2);
                ";
        assert_eq!(actual, expected.trim());
    }
}

#[test]
fn rewrite_query_should_error_on_unused() {
    let tests = [
        (
            r"
INSERT INTO some_table (
    one, two, three
) VALUES (
    $one, $two, $three, $[..]
);
                ",
            "parameter group is used, but not defined",
        ),
        (
            r"
INSERT INTO some_table (
    $[one, two, three]
) VALUES (
    $[..], $[..]
);
                ",
            "parameter group is used, but not defined",
        ),
        (
            r"
INSERT INTO some_table (
    $[one, two, three],
    $[one, two, three]
) VALUES (
    $[..]
);
                ",
            "previous parameter group is not used",
        ),
        (
            r"
INSERT INTO some_table (
    $[one, two, three]
) VALUES (
    $one, $two, $three
);
                ",
            "last parameter group is not used",
        ),
        (
            r"
INSERT INTO some_table (
    $[one, two, three
) VALUES (
    $[..]
);
                ",
            "expected closing `]`",
        ),
        (
            r"
INSERT INTO some_table (
    $ one, two, three]
) VALUES (
    $[..]
);
                ",
            "expected identifier or `[` after `$`",
        ),
        (
            r"
INSERT INTO some_table (
    $[one, two,]
) VALUES (
    $[..]
);
                ",
            "expected identifier between all of `$[`, every `,` and final `]`",
        ),
    ];

    for (format, err) in tests {
        let errors = rewrite_query_wrapper(format).unwrap_err();
        let error_msgs: Vec<_> = errors.into_iter().map(|x| x.message().to_string()).collect();
        assert_eq!(error_msgs.len(), 1, "{error_msgs:?}");
        assert_eq!(error_msgs[0], err);
    }
}

#[test]
fn repeated_names_reuse_their_first_position() {
    let out = scan_str("$a $b $a $c $b");
    assert!(out.diags.is_empty());
    assert_eq!(text(&out.rewritten), "$1 $2 $1 $3 $2");
    assert_eq!(names_of(&out), ["a", "b", "c"]);
}

#[test]
fn group_form_matches_manual_form_byte_for_byte() {
    let grouped = scan_str("INSERT INTO t(x, $[b, c]) VALUES(true, $[..]);");
    assert!(grouped.diags.is_empty());
    assert_eq!(
        text(&grouped.rewritten),
        "INSERT INTO t(x, b, c) VALUES(true, $1, $2);"
    );

    let manual = scan_str("INSERT INTO t(x, b, c) VALUES(true, $b, $c);");
    assert!(manual.diags.is_empty());
    assert_eq!(manual.rewritten, grouped.rewritten);
    assert_eq!(manual.names, grouped.names);
}

#[test]
fn ten_names_emit_a_two_digit_marker() {
    let out = scan_str("$[a, b, c, d, e, f, g, h, i, j] $[..]");
    assert!(out.diags.is_empty());
    assert_eq!(
        text(&out.rewritten),
        "a, b, c, d, e, f, g, h, i, j $1, $2, $3, $4, $5, $6, $7, $8, $9, $10"
    );
    assert_eq!(out.names.len(), 10);
}

#[test]
fn qualified_names_pass_through_a_group() {
    let out = scan_str("$[tbl.col] x $[..]");
    assert!(out.diags.is_empty());
    assert_eq!(text(&out.rewritten), "tbl.col x $1");
    assert_eq!(names_of(&out), ["tbl.col"]);
}

#[test]
fn literal_braces_are_doubled() {
    let out = scan_str("{x} $a");
    assert!(out.diags.is_empty());
    assert_eq!(text(&out.rewritten), "{{x}} $1");
}

#[test]
fn empty_group_entry_is_recoverable_and_group_still_pends() {
    let out = scan_str("$[]");
    assert_eq!(text(&out.rewritten), "");
    assert_eq!(out.diags, vec![Diag::EmptyGroupEntry, Diag::LastGroupUnused]);
}

#[test]
fn backref_without_group_emits_nothing() {
    let out = scan_str("a $[..] b");
    assert_eq!(text(&out.rewritten), "a  b");
    assert_eq!(out.diags, vec![Diag::GroupUsedNotDefined]);
}

#[test]
fn empty_fragment_identifier_aborts_scanning() {
    let out = scan_str("x ${} y");
    assert_eq!(out.diags, vec![Diag::ExpectedIdentifierAfterBrace]);
    assert_eq!(text(&out.rewritten), "x ");
    assert!(out.fragments.is_empty());
}

#[test]
fn unterminated_fragment_is_recoverable() {
    let out = scan_str("${a");
    assert_eq!(out.diags, vec![Diag::FragmentUnterminated]);
    assert_eq!(text(&out.rewritten), "{}");
    assert_eq!(out.fragments, vec![b"a".to_vec()]);
}

#[test]
fn missing_bracket_aborts_with_partial_output() {
    let out = scan_str("SELECT $ one");
    assert_eq!(out.diags, vec![Diag::ExpectedIdentOrBracket]);
    assert_eq!(text(&out.rewritten), "SELECT ");
}

#[test]
fn scanning_twice_yields_identical_results() {
    let template = "INSERT INTO t($[a, b]) VALUES($[..]); ${frag} {lit} $a";
    let first = scan_str(template);
    let second = scan_str(template);
    assert_eq!(first.rewritten, second.rewritten);
    assert_eq!(first.names, second.names);
    assert_eq!(first.fragments, second.fragments);
    assert_eq!(first.diags, second.diags);
}

#[test]
fn multibyte_text_passes_through_untouched() {
    let out = scan_str("SELECT 'héllo – wörld', $a;");
    assert!(out.diags.is_empty());
    assert_eq!(text(&out.rewritten), "SELECT 'héllo – wörld', $1;");
    assert_eq!(names_of(&out), ["a"]);
}

#[test]
fn empty_template_scans_to_nothing() {
    let out = scan_str("");
    assert!(out.diags.is_empty());
    assert!(out.rewritten.is_empty());
    assert!(out.names.is_empty());
    assert!(out.fragments.is_empty());
}
