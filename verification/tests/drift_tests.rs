use ozymem::drift::{detect_code_drift, Convention};

fn conv(id: i64, file: &str, context: &str, solution: &str) -> Convention {
    Convention {
        id,
        file_path: file.to_string(),
        symbol_name: String::new(),
        error_context: context.to_string(),
        solution: solution.to_string(),
    }
}

#[test]
fn prohibited_terms_flag_added_lines() {
    let convs = vec![conv(7, "src/db.rs", "Panics in prod", "Never use unwrap, always handle errors")];
    let diff = "+++ b/src/db.rs\n-let a = x.unwrap();\n+let b = y.UNWRAP();\n+let c = z.unwrap();\n";
    let alerts = detect_code_drift(&convs, &["src/db.rs".to_string()], diff);
    assert_eq!(alerts.len(), 1);
    assert_eq!(alerts[0].convention_id, 7);
    assert_eq!(alerts[0].diff_snippet, "+let b = y.UNWRAP();");
    assert_eq!(alerts[0].severity, "warning");
    assert_eq!(
        alerts[0].description,
        "Diff line potentially conflicts with convention #7: Never use unwrap, always handle errors"
    );
    assert_eq!(alerts[0].rule_snippet, "Never use unwrap, always handle errors");
}

#[test]
fn conventions_of_other_files_and_empty_diffs_are_quiet() {
    let convs = vec![conv(1, "src/a.rs", "x", "never use panic")];
    assert!(detect_code_drift(&convs, &["src/b.rs".to_string()], "+panic!()\n").is_empty());
    assert!(detect_code_drift(&convs, &[], "").is_empty());
    assert_eq!(detect_code_drift(&convs, &[], "+panic!()\n").len(), 1);
}

#[test]
fn keyword_rules_need_rule_wording() {
    let worded = vec![conv(2, "", "deprecated api", "siempre migrar legacy_client")];
    let alerts = detect_code_drift(&worded, &[], "+call legacy_client()\n");
    assert_eq!(alerts.len(), 1);
    let plain = vec![conv(3, "", "legacy api", "migrar legacy_client")];
    assert!(detect_code_drift(&plain, &[], "+call legacy_client()\n").is_empty());
}
