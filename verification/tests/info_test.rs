use fmusim::info::{
    info_report, platforms, FmiMajorVersion, GridStyle, ModelInfo, Span, VariableInfo,
};
use fmusim::text::{decimal_string, join_strings, pad_right, repeat_str};

fn variable(name: &str, description: Option<&str>) -> VariableInfo {
    VariableInfo { name: name.to_string(), description: description.map(|d| d.to_string()) }
}

fn model(version: FmiMajorVersion) -> ModelInfo {
    ModelInfo {
        major_version: version,
        fmi_version: "3.0".to_string(),
        model_name: "BouncingBall".to_string(),
        continuous_states: 2,
        event_indicators: 1,
        variables: vec![
            variable("time", Some("Simulation time")),
            variable("der(h)", Some("Derivative of h")),
            variable("g", None),
        ],
        generation_date: Some("2026-07-09".to_string()),
        generation_tool: None,
        description: Some("A bouncing ball".to_string()),
    }
}

fn render(lines: &[Vec<Span>]) -> Vec<String> {
    lines
        .iter()
        .map(|l| {
            l.iter()
                .map(|s| if s.bold { format!("*{}*", s.text) } else { s.text.clone() })
                .collect::<String>()
        })
        .collect()
}

#[test]
fn text_helpers() {
    assert_eq!(decimal_string(0), "0");
    assert_eq!(decimal_string(7), "7");
    assert_eq!(decimal_string(1030), "1030");
    assert_eq!(decimal_string(usize::MAX), usize::MAX.to_string());
    assert_eq!(pad_right("ab", 4), "ab  ");
    assert_eq!(pad_right("abcde", 4), "abcde");
    assert_eq!(pad_right("äö", 3), "äö ");
    assert_eq!(repeat_str("─", 3), "───");
    assert_eq!(repeat_str("-", 0), "");
    assert_eq!(join_strings(&vec!["a".to_string(), "b".to_string()], ", "), "a, b");
    assert_eq!(join_strings(&vec![], ", "), "");
}

#[test]
fn grid_styles() {
    let g = GridStyle::detect(true);
    assert_eq!((g.horizontal, g.cross, g.vertical), ("─", "┼", "│"));
    let g = GridStyle::detect(false);
    assert_eq!((g.horizontal, g.cross, g.vertical), ("-", "|", "|"));
}

#[test]
fn platforms_list_c_code_first() {
    let bins = vec!["x86_64-linux".to_string(), "x86_64-windows".to_string()];
    assert_eq!(
        platforms(true, bins.clone()),
        vec!["c-code".to_string(), "x86_64-linux".to_string(), "x86_64-windows".to_string()]
    );
    assert_eq!(platforms(false, bins.clone()), bins);
}

#[test]
fn report_for_fmi3_into_a_pipe() {
    let m = model(FmiMajorVersion::V3);
    let p = vec!["c-code".to_string(), "x86_64-linux".to_string()];
    let lines = render(&info_report(&m, &p, &GridStyle::detect(false), Some(20)));
    assert_eq!(
        lines,
        vec![
            "*Model Information*",
            "",
            "FMI Version:       3.0",
            "Model Name:        BouncingBall",
            "Platforms:         c-code, x86_64-linux",
            "Continuous States: 2",
            "Event Indicators:  1",
            "Model Variables:   3",
            "Generation Date:   2026-07-09",
            "Generation Tool:   ",
            "Description:       A bouncing ball",
            "",
            "*Model Variables*",
            "",
            "*Name  * | *Description*",
            "-------|------------",
            "time   | Simulation time",
            "der(h) | Derivative of h",
            "g      | ",
        ]
        .into_iter()
        .map(|l| if l == "g      | " { format!("{l}{}", " ".repeat(11)) } else { l.to_string() })
        .collect::<Vec<String>>()
    );
}

#[test]
fn report_for_fmi2_uses_its_version_and_ascii_into_a_pipe() {
    let m = model(FmiMajorVersion::V2);
    let lines = render(&info_report(&m, &vec![], &GridStyle::detect(false), None));
    assert_eq!(lines.len(), 19);
    assert_eq!(lines[2], "FMI Version:       2.0");
    assert_eq!(lines[4], "Platforms:         ");
    // 120 columns: 6 for the names, 3 for the separator, 111 for the descriptions
    assert_eq!(lines[15], format!("{}|{}", "-".repeat(7), "-".repeat(112)));
    assert_eq!(lines[16], format!("time   | {:<111}", "Simulation time"));
    for line in &lines {
        assert!(!line.contains('│') && !line.contains('─') && !line.contains('┼'));
    }
}

#[test]
fn report_without_variables_has_a_four_column_name() {
    let mut m = model(FmiMajorVersion::V3);
    m.variables = vec![];
    let lines = render(&info_report(&m, &vec![], &GridStyle::detect(true), Some(10)));
    assert_eq!(lines.len(), 16);
    assert_eq!(lines[14], "*Name* │ *Description*");
    assert_eq!(lines[15], "─────┼────");
}

#[test]
fn name_column_counts_bytes() {
    let mut m = model(FmiMajorVersion::V3);
    m.variables = vec![variable("ä", None), variable("ab", Some("x"))];
    let lines = render(&info_report(&m, &vec![], &GridStyle::detect(false), Some(6)));
    // "ä" has two bytes, so the name column is two wide; the terminal leaves 1 for descriptions
    assert_eq!(lines[14], "*Name* | *Description*");
    assert_eq!(lines[16], "ä  |  ");
    assert_eq!(lines[17], "ab | x");
}

#[test]
fn empty_names_get_a_four_column_name() {
    let mut m = model(FmiMajorVersion::V3);
    m.variables = vec![variable("", Some("d")), variable("", None)];
    let lines = render(&info_report(&m, &vec![], &GridStyle::detect(false), Some(9)));
    assert_eq!(lines.len(), 18);
    assert_eq!(lines[14], "*Name* | *Description*");
    assert_eq!(lines[15], "-----|---");
    assert_eq!(lines[16], "     | d ");
    assert_eq!(lines[17], "     |   ");
}

#[test]
fn report_matches_the_documented_layout() {
    let mut m = model(FmiMajorVersion::V3);
    m.variables = vec![variable("time", Some("Simulation time")), variable("der(h)", Some("Derivative of h"))];
    let lines = render(&info_report(&m, &vec![], &GridStyle::detect(false), Some(25)));
    assert_eq!(lines[14], "*Name  * | *Description     *");
    assert_eq!(lines[15], "-------|-----------------");
    assert_eq!(lines[16], "time   | Simulation time ");
    assert_eq!(lines[17], "der(h) | Derivative of h ");
}
