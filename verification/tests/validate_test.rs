use annotate_snippets::{AnnotationKind, Level, Renderer, Snippet};
use fmusim::validate::{report_path, report_width, xml_error_report};
use std::ops::Range;
use fmusim::validate::{contains_char, part_problems, validate_zip_archive, validation_outcome};

#[test]
fn zip_archive_without_problems() {
    let entries = vec![
        "modelDescription.xml".to_string(),
        "binaries/x86_64-linux/BouncingBall.so".to_string(),
        "documentation/".to_string(),
    ];
    assert!(validate_zip_archive("a.fmu", Some(&entries)).is_empty());
    assert!(validate_zip_archive("a.fmu", Some(&vec![])).is_empty());
}

#[test]
fn zip_archive_entries_with_problems() {
    let entries = vec![
        ".hidden".to_string(),
        "ok/file".to_string(),
        "/absolute".to_string(),
        "sources\\model.c".to_string(),
        ".\\both".to_string(),
    ];
    assert_eq!(
        validate_zip_archive("a.fmu", Some(&entries)),
        vec![
            "Path '.hidden' starts with a dot ('.') or slash ('/')".to_string(),
            "Path '/absolute' starts with a dot ('.') or slash ('/')".to_string(),
            "Path 'sources\\model.c' contains a backslash ('\\')".to_string(),
            "Path '.\\both' starts with a dot ('.') or slash ('/')".to_string(),
            "Path '.\\both' contains a backslash ('\\')".to_string(),
        ]
    );
}

#[test]
fn unreadable_zip_archive() {
    assert_eq!(
        validate_zip_archive("missing.fmu", None),
        vec!["Failed to read ZIP archive: missing.fmu".to_string()]
    );
}

#[test]
fn contains_char_finds_characters() {
    assert!(contains_char("a\\b", '\\'));
    assert!(!contains_char("abc", '\\'));
    assert!(!contains_char("", 'a'));
}

#[test]
fn part_problems_append_the_load_error() {
    assert_eq!(
        part_problems(vec!["schema".to_string()], Some("load".to_string())),
        vec!["schema".to_string(), "load".to_string()]
    );
    assert_eq!(part_problems(vec![], None), Vec::<String>::new());
}

#[test]
fn validation_fails_only_on_model_description_problems() {
    assert_eq!(validation_outcome(0), Ok(()));
    assert_eq!(validation_outcome(3), Err("Validation failed".to_string()));
}


fn plain_report(source: &str, message: &str, path: Option<&str>, spans: &[Range<usize>], width: usize) -> String {
    let mut snippet = Snippet::source(source).path(path);
    for span in spans {
        snippet = snippet.annotation(AnnotationKind::Primary.span(span.clone()));
    }
    Renderer::plain()
        .term_width(width)
        .render(&[Level::ERROR.primary_title(message).element(snippet)])
}

#[test]
fn xml_error_names_the_file_when_it_points_at_the_text() {
    let source = "<fmiModelDescription>\n  <bad/>\n</fmiModelDescription>\n";
    let spans = vec![24..30];
    let report = xml_error_report(source, "Unexpected element", &spans, false, None);
    assert_eq!(
        report,
        plain_report(source, "Unexpected element", Some("modelDescription.xml"), &spans, 120)
    );
    assert!(report.contains("modelDescription.xml"));
    assert!(report.contains("Unexpected element"));
    assert_ne!(report, source);
}

#[test]
fn xml_error_without_spans_names_no_file() {
    let source = "<fmiModelDescription/>\n";
    let report = xml_error_report(source, "Missing attribute", &vec![], false, Some(60));
    assert_eq!(report, plain_report(source, "Missing attribute", None, &[], 60));
    assert!(!report.contains("modelDescription.xml"));
    assert!(report.contains("error: Missing attribute"));
}

#[test]
fn xml_error_on_a_terminal_is_styled() {
    let source = "<a/>\n";
    let report = xml_error_report(source, "Oops", &vec![0..4], true, Some(80));
    assert!(report.contains("Oops"));
    assert!(report.contains('\u{1b}'));
}

#[test]
fn report_width_defaults_to_120_columns() {
    assert_eq!(report_width(None), 120);
    assert_eq!(report_width(Some(80)), 80);
}

#[test]
fn report_names_the_file_only_with_spans() {
    assert_eq!(report_path(&vec![0..1]), Some("modelDescription.xml"));
    assert_eq!(report_path(&vec![]), None);
}

#[test]
fn xml_error_without_spans_takes_any_width() {
    let report = xml_error_report("<a/>", "Oops", &vec![], false, Some(usize::MAX));
    assert!(report.contains("Oops"));
}
