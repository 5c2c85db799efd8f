use siyuan_harness::sql_guard::{validate_read_only, GuardError};

fn ok(stmt: &str) {
    validate_read_only(stmt).unwrap_or_else(|e| panic!("expected ok, got {e:?}: {stmt}"));
}

fn err(stmt: &str) -> GuardError {
    validate_read_only(stmt).expect_err(&format!("expected err: {stmt}"))
}

#[test]
fn accepts_plain_select() {
    ok("SELECT 1");
}

#[test]
fn accepts_select_with_columns_and_table() {
    ok("SELECT id, hpath FROM blocks WHERE type = 'd' LIMIT 5");
}

#[test]
fn accepts_with_select() {
    ok("WITH x AS (SELECT id FROM blocks) SELECT * FROM x");
}

#[test]
fn accepts_recursive_cte() {
    ok("WITH RECURSIVE n(i) AS (VALUES (1) UNION SELECT i+1 FROM n WHERE i<5) SELECT i FROM n");
}

#[test]
fn accepts_values_query() {
    ok("VALUES (1), (2), (3)");
}

#[test]
fn accepts_union() {
    ok("SELECT 1 UNION SELECT 2");
}

#[test]
fn accepts_explain_select() {
    ok("EXPLAIN SELECT 1");
}

#[test]
fn accepts_explain_query_plan() {
    ok("EXPLAIN QUERY PLAN SELECT id FROM blocks");
}

#[test]
fn accepts_leading_line_comment() {
    ok("-- pinned for the daily-note query\nSELECT id FROM blocks");
}

#[test]
fn accepts_leading_block_comment() {
    ok("/* daily-note query */ SELECT id FROM blocks");
}

#[test]
fn accepts_trailing_semicolon() {
    ok("SELECT 1;");
}

#[test]
fn rejects_empty() {
    assert!(matches!(err(""), GuardError::Empty));
}

#[test]
fn rejects_whitespace_only() {
    assert!(matches!(err("   \n\t "), GuardError::Empty));
}

#[test]
fn rejects_comment_only() {
    assert!(matches!(err("-- nothing here\n"), GuardError::Empty));
}

#[test]
fn rejects_insert() {
    let GuardError::NonReadOnly { kind } = err("INSERT INTO blocks (id) VALUES ('x')") else {
        panic!("wrong variant");
    };
    assert!(kind.contains("INSERT"), "got: {kind}");
}

#[test]
fn rejects_update() {
    let GuardError::NonReadOnly { kind } = err("UPDATE blocks SET name = 'x'") else {
        panic!("wrong variant");
    };
    assert!(kind.contains("UPDATE"), "got: {kind}");
}

#[test]
fn rejects_delete() {
    let GuardError::NonReadOnly { kind } = err("DELETE FROM blocks WHERE 1=1") else {
        panic!("wrong variant");
    };
    assert!(kind.contains("DELETE"), "got: {kind}");
}

#[test]
fn rejects_drop_table() {
    let GuardError::NonReadOnly { kind } = err("DROP TABLE blocks") else {
        panic!("wrong variant");
    };
    assert!(kind.contains("DROP"), "got: {kind}");
}

#[test]
fn rejects_with_tail_delete() {
    let GuardError::NonReadOnly { kind } =
        err("WITH x AS (SELECT id FROM blocks) DELETE FROM blocks WHERE id IN (SELECT id FROM x)")
    else {
        panic!("wrong variant");
    };
    assert!(kind.contains("DELETE"), "got: {kind}");
}

#[test]
fn rejects_pragma_write() {
    let GuardError::NonReadOnly { kind } = err("PRAGMA writable_schema = 1") else {
        panic!("wrong variant");
    };
    assert!(kind.contains("PRAGMA"), "got: {kind}");
}

#[test]
fn rejects_pragma_read() {
    let GuardError::NonReadOnly { kind } = err("PRAGMA encoding") else {
        panic!("wrong variant: {:?}", err("PRAGMA encoding"));
    };
    assert!(kind.contains("PRAGMA"), "got: {kind}");
}

#[test]
fn rejects_attach() {
    let GuardError::NonReadOnly { kind } = err("ATTACH DATABASE 'evil.db' AS evil") else {
        panic!("wrong variant");
    };
    assert!(kind.contains("ATTACH"), "got: {kind}");
}

#[test]
fn rejects_multi_statement_select_drop() {
    let GuardError::MultiStatement { count } = err("SELECT 1; DROP TABLE blocks") else {
        panic!("wrong variant");
    };
    assert_eq!(count, 2);
}

#[test]
fn rejects_explain_of_write() {
    let GuardError::NonReadOnly { kind } = err("EXPLAIN INSERT INTO blocks (id) VALUES ('x')") else {
        panic!("wrong variant");
    };
    assert!(kind.contains("EXPLAIN"), "got: {kind}");
    assert!(kind.contains("INSERT"), "got: {kind}");
}

#[test]
fn rejects_garbage_with_parse_error() {
    let GuardError::Parse(_) = err("this is not sql at all") else {
        panic!("wrong variant: {:?}", err("this is not sql at all"));
    };
}

#[test]
fn guard_labels_and_messages() {
    let GuardError::NonReadOnly { kind } = err("CREATE TABLE t (a INT)") else {
        panic!("wrong variant");
    };
    assert_eq!(kind, "CREATE TABLE");
    assert_eq!(
        GuardError::MultiStatement { count: 3 }.to_string(),
        "only a single statement is allowed; parsed 3"
    );
    assert_eq!(GuardError::Empty.to_string(), "statement must not be empty or whitespace-only");
    assert_eq!(
        GuardError::NonReadOnly { kind: "DROP".into() }.to_string(),
        "only read-only queries are allowed; got DROP"
    );
    assert!(err("SELECT 1 UNION SELECT 2; SELECT 3").to_string().ends_with("parsed 2"));
}
