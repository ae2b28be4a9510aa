use qc_judge::compare::DataCompare;
use qc_judge::text::split_tokens;

fn rows_equal(base: &str, compare: &str) -> bool {
    let mut c = DataCompare::new();
    c.set_base(base);
    c.set_compare(compare);
    c.equal()
}

#[test]
fn compare_test() {
    let base = "SDTM.AE       15JUN23:13:26:12  15JUN23:13:26:12    35     960  \\u19981;\\u33391;\\u20107;\\u20214;";
    let compare = "SDTM_QC.V_AE  15JUN23:13:35:09  15JUN23:13:35:09    35     960  \\u19981;\\u33391;\\u20107;\\u20214;";
    let mut c = DataCompare::new();
    c.set_base(base);
    c.set_compare(compare);
    assert!(c.equal());

    let base = "SDTM.AE       15JUN23:13:26:12  15JUN23:13:26:12    35     961  \\u19981;\\u33391;\\u20107;\\u20214;";
    let compare = "SDTM_QC.V_AE  15JUN23:13:35:09  15JUN23:13:35:09    35     960  \\u19981;\\u33391;\\u20107;\\u20214;";
    let mut c = DataCompare::new();
    c.set_base(base);
    c.set_compare(compare);
    assert!(!c.equal());

    let base = "SDTM.AE       15JUN23:13:26:12  15JUN23:13:26:12    35     960";
    let compare = "SDTM_QC.V_AE  15JUN23:13:35:09  15JUN23:13:35:09    35     960  \\u19981;\\u33391;\\u20107;\\u20214;";
    let mut c = DataCompare::new();
    c.set_base(base);
    c.set_compare(compare);
    assert!(!c.equal());

    let base = "SDTM.AE       15JUN23:13:26:12  15JUN23:13:26:12    35     960";
    let compare = "SDTM_QC.V_AE  15JUN23:13:35:09  15JUN23:13:35:09    35     960";
    let mut c = DataCompare::new();
    c.set_base(base);
    c.set_compare(compare);
    assert!(c.equal());
}

#[test]
fn scenario_names_and_times_differ() {
    assert!(rows_equal(
        "SDTM.AE 15JUN23:13:26:12 15JUN23:13:26:12 35 960 VALUE",
        "SDTM_QC.V_AE 15JUN23:13:35:09 15JUN23:13:35:09 35 960 VALUE"
    ));
}

#[test]
fn scenario_row_count_differs() {
    assert!(!rows_equal(
        "SDTM.AE 15JUN23:13:26:12 15JUN23:13:26:12 35 960 VALUE",
        "SDTM_QC.V_AE 15JUN23:13:35:09 15JUN23:13:35:09 35 961 VALUE"
    ));
}

#[test]
fn scenario_label_missing_on_one_side() {
    assert!(!rows_equal(
        "SDTM.AE 15JUN23:13:26:12 35 960",
        "SDTM_QC.V_AE 15JUN23:13:35:09 15JUN23:13:35:09 35 960 VALUE"
    ));
}

#[test]
fn scenario_label_missing_on_both_sides() {
    assert!(rows_equal("SDTM.AE 15JUN23:13:26:12 35 960", "SDTM_QC.V_AE 15JUN23:13:35:09 35 960"));
}

#[test]
fn identical_lines_are_equal() {
    let line = "SDTM.AE 15JUN23:13:26:12 15JUN23:13:26:12 35 960 VALUE";
    assert!(rows_equal(line, line));
    assert!(rows_equal("", ""));
    assert!(rows_equal("a b", "a b"));
}

#[test]
fn absent_variable_column_on_both_sides_is_equal() {
    assert!(rows_equal("a b c", "x y"));
}

#[test]
fn variable_column_present_on_one_side_is_unequal() {
    assert!(!rows_equal("a b c 35", "a b c"));
    assert!(!rows_equal("a b c", "a b c 35"));
}

#[test]
fn variable_count_differs() {
    assert!(!rows_equal("a b c 35 960 L", "a b c 36 960 L"));
}

#[test]
fn numbers_are_compared_as_text() {
    assert!(!rows_equal("a b c 35 960", "a b c 035 960"));
}

#[test]
fn set_replaces_earlier_tokens() {
    let mut c = DataCompare::new();
    c.set_base("a b c 1 2 3");
    c.set_compare("a b c 1 2 4");
    assert!(!c.equal());
    c.set_compare("x y z 1 2 3");
    assert!(c.equal());
}

#[test]
fn tokens_split_on_ascii_whitespace_runs() {
    let t = split_tokens("  ab\t c\r\n\x0Cd  ");
    assert_eq!(t, vec!["ab".to_string(), "c".to_string(), "d".to_string()]);
    assert!(split_tokens("   ").is_empty());
    let t = split_tokens("\u{00e9}t\u{00e9} \u{4e0d}");
    assert_eq!(t, vec!["\u{00e9}t\u{00e9}".to_string(), "\u{4e0d}".to_string()]);
}
