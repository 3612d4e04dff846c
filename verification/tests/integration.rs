use pg_named_args::diag::Diag;
use pg_named_args::fragment::{fragment_allowed, Fragment};
use pg_named_args::render::substitute;
use pg_named_args::resolver::{resolve, select, RecordDecl, Resolution};
use pg_named_args::scanner::{scan, ScanOutput};

fn record(name: &str, fields: &[&str], has_spread: bool) -> RecordDecl {
    RecordDecl {
        name: name.as_bytes().to_vec(),
        fields: fields.iter().map(|f| f.as_bytes().to_vec()).collect(),
        has_spread,
    }
}

fn text(v: &[u8]) -> String {
    String::from_utf8(v.to_vec()).unwrap()
}

/// Mirrors one macro invocation: scan the template, resolve the records,
/// and fill the fragment holes when the counts line up.
fn run(template: &str, records: Vec<RecordDecl>, sql_values: &[&str]) -> (String, ScanOutput, Resolution) {
    let out = scan(&template.as_bytes().to_vec());
    let res = resolve(&out.names, &out.fragments, &records);
    let values: Vec<Vec<u8>> = sql_values.iter().map(|v| v.as_bytes().to_vec()).collect();
    let query = if res.substitute {
        let texts = select(&values, &res.fragment_indices);
        text(&substitute(&out.rewritten, &texts).unwrap())
    } else {
        text(&out.rewritten)
    };
    (query, out, res)
}

#[test]
fn query_args_should_support_identifiers_as_values() {
    let b = "Fred";
    let c = "Flintstone";
    let (query, _, res) = run(
        r"
INSERT INTO fred_flintstone(a, b, c)
VALUES(true, $b, $c);
            ",
        vec![record("Args", &["b", "c"], false)],
        &[],
    );
    let params = [b, c];

    let expected_query = r"
INSERT INTO fred_flintstone(a, b, c)
VALUES(true, $1, $2);
            ";
    assert_eq!(query.trim(), expected_query.trim());
    assert_eq!(res.param_indices.len(), params.len());
}

#[test]
fn query_args_should_support_key_value_pairs_as_values() {
    let b = 37_i64;
    let c = 42_i64;
    let (query, _, res) = run(
        r"
INSERT INTO fred_flintstone(a, b, c)
VALUES(true, $b, $c);
            ",
        vec![record("Args", &["c", "b"], false)],
        &[],
    );
    let params = [b, c];
    let expected_query = r"
INSERT INTO fred_flintstone(a, b, c)
VALUES(true, $1, $2);
            ";
    assert_eq!(query.trim(), expected_query.trim());
    assert_eq!(res.param_indices.len(), params.len());
}

#[test]
fn query_args_should_support_list_syntax() {
    let b = 37_i64;
    let c = 42_i64;
    let (query, _, res) = run(
        r"
INSERT INTO fred_flintstone(a, $[b, c])
VALUES(true, $[..]);
            ",
        vec![record("Args", &["b", "c"], false)],
        &[],
    );
    let params = [b, c];
    let expected_query = r"
INSERT INTO fred_flintstone(a, b, c)
VALUES(true, $1, $2);
            ";
    assert_eq!(query.trim(), expected_query.trim());
    assert_eq!(res.param_indices.len(), params.len());
}

#[test]
fn query_args_should_support_multiple_substitutions() {
    let b = 37_i64;
    let c = 42_i64;
    let (query, _, res) = run(
        r"
INSERT INTO fred_flintstone(a, b, c)
VALUES(true, $b, $c)
ON CONFLICT DO UPDATE SET b = $b WHERE c = $c;
            ",
        vec![record("Args", &["b", "c"], false)],
        &[],
    );
    let params = [b, c];
    let expected_query = r"
INSERT INTO fred_flintstone(a, b, c)
VALUES(true, $1, $2)
ON CONFLICT DO UPDATE SET b = $1 WHERE c = $2;
            ";
    assert_eq!(query.trim(), expected_query.trim());
    assert_eq!(res.param_indices.len(), params.len());
}

#[test]
fn query_args_should_accept_fragment() {
    let a = "test_fragment";
    assert!(fragment_allowed(a));
    let a = Fragment::new_unchecked(a);
    let (query, _, res) = run(
        "$xx, ${a}", // this looks like a format string on purpose
        vec![record("Sql", &["a"], false), record("Args", &["xx"], false)],
        &[a.get()],
    );
    let expected_query = r"$1, test_fragment";
    assert_eq!(query.trim(), expected_query);
    assert_eq!(res.param_indices.len(), 1);
}

#[test]
fn ui() {
    // Record-update syntax must be rejected: it would hide whether every
    // referenced name was explicitly supplied.
    let out = scan(&"$a, $b".as_bytes().to_vec());
    assert!(out.diags.is_empty());
    let records = vec![record("Args", &[], true)];
    let res = resolve(&out.names, &out.fragments, &records);
    assert_eq!(res.diags, vec![Diag::StructUpdateSyntax]);
    assert_eq!(
        res.diags[0].message(),
        "struct update syntax is not supported by the query_args macro"
    );
    assert!(res.param_indices.is_empty());
}
