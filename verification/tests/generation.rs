use txgen::codegen::sql_to_code;
use txgen::codegen::GenError;
use txgen::scan::caseless_contains;
use txgen::split::split_statements;

#[test]
fn test_caseless_contains() {
    assert!(caseless_contains("Hello, world!", "hello"));
    assert!(caseless_contains("Hello, world!", "world"));
    assert!(caseless_contains("Hello, World!", "world"));
    assert!(caseless_contains("Hello, WoRld!", "world"));

    assert!(!caseless_contains("Hello, WoRld!", "foo"));
    assert!(!caseless_contains("Hello, WoRld!", "WORLD"));
}

#[test]
fn test_codegen() {
    let sql = "SELECT * FROM users WHERE value=$1; SELECT * FROM posts;";
    let code = sql_to_code(sql, &[String::from("value")]).unwrap();
    println!("{}", code);
}

#[test]
fn test_scanner_needle_longer_than_text() {
    assert!(caseless_contains("Hello, World!", "world"));
    assert!(!caseless_contains("Hello, World!", "xyz"));
    assert!(!caseless_contains("ab", "abc"));
    assert!(!caseless_contains("", "a"));
}

#[test]
fn test_scanner_final_offset() {
    // The needle sits at the last possible start offset.
    assert!(caseless_contains("say World", "world"));
    assert!(caseless_contains("abc", "c"));
}

#[test]
fn test_split_statements() {
    assert_eq!(split_statements("A; B; "), vec!["A".to_string(), "B".to_string()]);
    assert_eq!(split_statements(""), Vec::<String>::new());
}

#[test]
fn test_split_trims_and_keeps_order() {
    assert_eq!(
        split_statements("  one ;\n two;three  "),
        vec!["one".to_string(), "two".to_string(), "three".to_string()]
    );
    assert_eq!(split_statements(" ;; ; "), Vec::<String>::new());
}

#[test]
fn test_end_to_end_no_output() {
    let sql = "SELECT * FROM users WHERE value=$1; SELECT * FROM posts;";
    let code = sql_to_code(sql, &[String::from("value")]).unwrap();
    assert_eq!(
        code,
        "{let mut tx = pool.begin().await?;\n\
         sqlx::query(\"SELECT * FROM users WHERE value=$1;\").bind(value)\
         .execute(&mut *tx).await?;\n\
         sqlx::query(\"SELECT * FROM posts;\").execute(&mut *tx).await?;\n\
         tx.commit().await?;\n\
         ()}"
    );
}

#[test]
fn test_binder_counter_spans_statements() {
    let sql = "INSERT INTO t VALUES($1,$2); UPDATE t SET x=$3";
    let bindings = [String::from("a"), String::from("b"), String::from("c")];
    let code = sql_to_code(sql, &bindings).unwrap();
    assert_eq!(
        code,
        "{let mut tx = pool.begin().await?;\n\
         sqlx::query(\"INSERT INTO t VALUES($1,$2);\").bind(a).bind(b)\
         .execute(&mut *tx).await?;\n\
         sqlx::query(\"UPDATE t SET x=$3;\").bind(c).execute(&mut *tx).await?;\n\
         tx.commit().await?;\n\
         ()}"
    );
}

#[test]
fn test_returning_statement_fetches_one_row() {
    let sql = "INSERT INTO t (a) VALUES ($1) RETURNING id";
    let code = sql_to_code(sql, &[String::from("a")]).unwrap();
    assert_eq!(
        code,
        "{let mut tx = pool.begin().await?;\n\
         let var0 = sqlx::query_as::<_, _>(\"INSERT INTO t (a) VALUES ($1) RETURNING id;\")\
         .bind(a).fetch_one(&mut *tx).await?;\n\
         tx.commit().await?;\n\
         (var0)}"
    );
}

#[test]
fn test_two_outputs_in_statement_order() {
    let sql = "INSERT INTO a VALUES ($1) returning id; INSERT INTO b VALUES ($2) Returning id";
    let bindings = [String::from("x"), String::from("y")];
    let code = sql_to_code(sql, &bindings).unwrap();
    assert_eq!(
        code,
        "{let mut tx = pool.begin().await?;\n\
         let var0 = sqlx::query_as::<_, _>(\"INSERT INTO a VALUES ($1) returning id;\")\
         .bind(x).fetch_one(&mut *tx).await?;\n\
         let var1 = sqlx::query_as::<_, _>(\"INSERT INTO b VALUES ($2) Returning id;\")\
         .bind(y).fetch_one(&mut *tx).await?;\n\
         tx.commit().await?;\n\
         (var0, var1)}"
    );
}

#[test]
fn test_empty_template() {
    let code = sql_to_code("", &[]).unwrap();
    assert_eq!(code, "{let mut tx = pool.begin().await?;\ntx.commit().await?;\n()}");
}

#[test]
fn test_arity_mismatch_reports_both_counts() {
    let sql = "SELECT $1; SELECT $2";
    let bindings = [String::from("a"), String::from("b"), String::from("c")];
    let err = sql_to_code(sql, &bindings).unwrap_err();
    assert_eq!(err, GenError::ArityMismatch { markers: 2, bindings: 3 });
    assert_eq!(err.message(), "expected 2 input variables, got 3");
}

#[test]
fn test_too_few_bindings() {
    let sql = "SELECT $1, $2";
    let err = sql_to_code(sql, &[String::from("a")]).unwrap_err();
    assert_eq!(err, GenError::ArityMismatch { markers: 2, bindings: 1 });
    assert_eq!(err.message(), "expected 2 input variables, got 1");
}

#[test]
fn test_multi_digit_marker_matches_by_substring() {
    // The marker scan is a plain substring check, so `$1` is found inside
    // `$10` and one binding satisfies the template.
    let code = sql_to_code("SELECT $10", &[String::from("a")]).unwrap();
    assert_eq!(
        code,
        "{let mut tx = pool.begin().await?;\n\
         sqlx::query(\"SELECT $10;\").bind(a).execute(&mut *tx).await?;\n\
         tx.commit().await?;\n\
         ()}"
    );
}

#[test]
fn test_generation_is_idempotent() {
    let sql = "INSERT INTO t VALUES($1) RETURNING id; SELECT * FROM t;";
    let bindings = [String::from("v")];
    let first = sql_to_code(sql, &bindings).unwrap();
    let second = sql_to_code(sql, &bindings).unwrap();
    assert_eq!(first, second);
}
