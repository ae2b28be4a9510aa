use qc_judge::error::JudgeError;
use qc_judge::extract::{content_start_index, fetch_contents};
use qc_judge::judge::{
    QcJudge, DATA_SUMMARY, DIFFERENT_ATTRIBUTE, ROW_SUMMARY, UNEQUAL_ROW_NUMBER,
    VARIABLE_SUMMARY, ZERO,
};

const BASE_ROW: &str = "SDTM.AE       15JUN23:13:26:12  15JUN23:13:26:12    35     960";
const COMPARE_ROW: &str = "SDTM_QC.V_AE  15JUN23:13:35:09  15JUN23:13:35:09    35     960";

fn document(cells: &[String]) -> Vec<u8> {
    let mut text = String::from("{\\rtf1\\ansi{\\fonttbl{\\f0 Courier;}}\n\\sectd\\linex0\n");
    for cell in cells {
        text.push_str("\\pard\\plain\\intbl {");
        text.push_str(cell);
        text.push_str("\\cell}\n");
    }
    text.push('}');
    text.into_bytes()
}

fn report(compare_row: &str, attribute_cell: &str, count: &str) -> Vec<String> {
    vec![
        "The COMPARE Procedure".to_string(),
        DATA_SUMMARY.to_string(),
        "Dataset Created Modified NVar NObs Label".to_string(),
        BASE_ROW.to_string(),
        compare_row.to_string(),
        VARIABLE_SUMMARY.to_string(),
        attribute_cell.to_string(),
        ROW_SUMMARY.to_string(),
        format!("{} {}", UNEQUAL_ROW_NUMBER, count),
    ]
}

fn judge_document(bytes: &[u8]) -> Result<bool, JudgeError> {
    QcJudge::from_bytes(bytes)?.judge()
}

#[test]
fn read_qc_test() {
    let agreeing = document(&report(COMPARE_ROW, "Number of Variables in Common: 35.", ZERO));
    assert!(judge_document(&agreeing).unwrap());

    let attribute_cell = format!("{}: 2.", DIFFERENT_ATTRIBUTE);
    let differing_attributes = document(&report(COMPARE_ROW, &attribute_cell, ZERO));
    assert!(!judge_document(&differing_attributes).unwrap());

    let differing_values = document(&report(COMPARE_ROW, "Number of Variables in Common: 35.", "3\\u12290;"));
    assert!(!judge_document(&differing_values).unwrap());
}

#[test]
fn content_start_index_finds_first_marker() {
    assert_eq!(content_start_index(b"ab\\sectd cd \\sectd"), Ok(2));
    assert_eq!(content_start_index(b"\\sectd"), Ok(0));
    assert_eq!(content_start_index(b"\\sec\\sectd"), Ok(4));
}

#[test]
fn content_start_index_reports_missing_marker() {
    assert_eq!(content_start_index(b""), Err(JudgeError::MarkerNotFound));
    assert_eq!(content_start_index(b"\\sect \\SECTD \\sectx"), Err(JudgeError::MarkerNotFound));
    assert_eq!(QcJudge::from_bytes(b"{\\rtf1 no body}").err(), Some(JudgeError::MarkerNotFound));
}

#[test]
fn fetch_contents_keeps_order_and_cleans_cells() {
    let data = b"\\sectd \\pard\\plain {  first\\cell } \\pard\\plain\\intbl {\\cell} {skipped} \\pard\\plain {second \\cell  two\\cell}";
    let cells = fetch_contents(data).unwrap();
    assert_eq!(cells, vec!["first".to_string(), "second   two".to_string()]);
}

#[test]
fn fetch_contents_ignores_braces_outside_paragraphs() {
    let data = b"{\\f0 font} \\pard\\plain x{a} {b} \\pard\\plain{c}";
    assert_eq!(fetch_contents(data).unwrap(), vec!["a".to_string(), "c".to_string()]);
}

#[test]
fn fetch_contents_drops_unclosed_cell() {
    let data = b"\\pard\\plain {a} \\pard\\plain {b";
    assert_eq!(fetch_contents(data).unwrap(), vec!["a".to_string()]);
}

#[test]
fn fetch_contents_trims_unicode_whitespace() {
    let data = "\\pard\\plain {\u{3000}\u{00a0}\u{4e0d} \u{8138}\u{2028}\t}".as_bytes();
    assert_eq!(fetch_contents(data).unwrap(), vec!["\u{4e0d} \u{8138}".to_string()]);
}

#[test]
fn fetch_contents_removes_token_once_from_left() {
    let data = b"\\pard\\plain {a\\ce\\cellll}";
    assert_eq!(fetch_contents(data).unwrap(), vec!["a\\cell".to_string()]);
}

#[test]
fn fetch_contents_reports_invalid_utf8() {
    let data = b"\\pard\\plain {ok} \\pard\\plain {\xc3\\cell\xa9}";
    assert_eq!(fetch_contents(data), Err(JudgeError::DecodeError));
    let mut doc = b"\\sectd".to_vec();
    doc.extend_from_slice(data);
    assert_eq!(QcJudge::from_bytes(&doc).err(), Some(JudgeError::DecodeError));
}

#[test]
fn fetch_contents_of_empty_body() {
    assert_eq!(fetch_contents(b"").unwrap(), Vec::<String>::new());
}

#[test]
fn judge_without_sections_passes() {
    let j = QcJudge::from_contents(vec!["a".to_string(), "b".to_string()]);
    assert_eq!(j.judge(), Ok(true));
    assert_eq!(QcJudge::from_contents(vec![]).judge(), Ok(true));
}

#[test]
fn judge_fails_on_unequal_rows() {
    let row = "SDTM_QC.V_AE  15JUN23:13:35:09  15JUN23:13:35:09    35     961";
    let doc = document(&report(row, "Number of Variables in Common: 35.", ZERO));
    assert_eq!(judge_document(&doc), Ok(false));
}

#[test]
fn judge_reports_missing_compare_row() {
    let cells = vec![DATA_SUMMARY.to_string(), "header".to_string(), BASE_ROW.to_string()];
    assert_eq!(QcJudge::from_contents(cells).judge(), Err(JudgeError::MalformedReport));
}

#[test]
fn judge_reports_missing_count_token() {
    let cells = vec![
        DATA_SUMMARY.to_string(),
        VARIABLE_SUMMARY.to_string(),
        ROW_SUMMARY.to_string(),
        UNEQUAL_ROW_NUMBER.to_string(),
    ];
    assert_eq!(QcJudge::from_contents(cells).judge(), Err(JudgeError::MalformedReport));
}

#[test]
fn zero_count_passes_and_other_counts_fail() {
    let cells = |count: &str| {
        vec![
            DATA_SUMMARY.to_string(),
            VARIABLE_SUMMARY.to_string(),
            ROW_SUMMARY.to_string(),
            "Observations".to_string(),
            format!("{}  {} more", UNEQUAL_ROW_NUMBER, count),
            format!("{} 5\\u12290;", UNEQUAL_ROW_NUMBER),
        ]
    };
    assert_eq!(QcJudge::from_contents(cells(ZERO)).judge(), Ok(true));
    assert_eq!(QcJudge::from_contents(cells("1\\u12290;")).judge(), Ok(false));
    assert_eq!(QcJudge::from_contents(cells("0")).judge(), Ok(false));
}

#[test]
fn differing_attributes_fail_whatever_the_row_summary() {
    let attribute_cell = format!("{}: 1.", DIFFERENT_ATTRIBUTE);
    let cells = vec![
        DATA_SUMMARY.to_string(),
        VARIABLE_SUMMARY.to_string(),
        attribute_cell.clone(),
        ROW_SUMMARY.to_string(),
        format!("{} {}", UNEQUAL_ROW_NUMBER, ZERO),
    ];
    assert_eq!(QcJudge::from_contents(cells).judge(), Ok(false));
    let doc = document(&report(COMPARE_ROW, &attribute_cell, ZERO));
    assert_eq!(judge_document(&doc), Ok(false));
}

#[test]
fn markers_before_their_section_are_ignored() {
    let cells = vec![
        format!("{} 1\\u12290;", UNEQUAL_ROW_NUMBER),
        format!("{}: 1.", DIFFERENT_ATTRIBUTE),
        DATA_SUMMARY.to_string(),
        "header".to_string(),
        BASE_ROW.to_string(),
        COMPARE_ROW.to_string(),
    ];
    assert_eq!(QcJudge::from_contents(cells).judge(), Ok(true));
}
