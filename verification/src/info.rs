//! The layout of the model information report.
use crate::text::{
    byte_len, lemma_chars_at_most_bytes, decimal, decimal_string, join_strings, joined, pad_right, padded, repeat_str, repeated,
};
use vstd::prelude::*;

verus! {

/// The major version of the FMI standard that a model description follows.
#[derive(Clone, Copy, Debug, PartialEq, Eq)]
pub enum FmiMajorVersion {
    V2,
    V3,
}

/// The characters with which the table of model variables is drawn.
pub struct GridStyle {
    pub horizontal: &'static str,
    pub cross: &'static str,
    pub vertical: &'static str,
}

impl GridStyle {
    /// Box-drawing characters for a terminal, plain ASCII for files and pipes.
    pub fn detect(stdout_is_terminal: bool) -> (grid: Self)
        ensures
            grid.horizontal@ == (if stdout_is_terminal { seq!['─'] } else { seq!['-'] }),
            grid.cross@ == (if stdout_is_terminal { seq!['┼'] } else { seq!['|'] }),
            grid.vertical@ == (if stdout_is_terminal { seq!['│'] } else { seq!['|'] }),
    {
        proof {
            reveal_strlit("─");
            reveal_strlit("┼");
            reveal_strlit("│");
            reveal_strlit("-");
            reveal_strlit("|");
        }
        if stdout_is_terminal {
            GridStyle { horizontal: "─", cross: "┼", vertical: "│" }
        } else {
            GridStyle { horizontal: "-", cross: "|", vertical: "|" }
        }
    }
}

/// A model variable, as far as the report shows it.
pub struct VariableInfo {
    pub name: String,
    pub description: Option<String>,
}

/// What the report shows of a model description.
pub struct ModelInfo {
    pub major_version: FmiMajorVersion,
    /// The `fmiVersion` attribute; shown for FMI 3.0 (FMI 2.0 is shown as `2.0`).
    pub fmi_version: String,
    pub model_name: String,
    pub continuous_states: usize,
    pub event_indicators: usize,
    pub variables: Vec<VariableInfo>,
    pub generation_date: Option<String>,
    pub generation_tool: Option<String>,
    pub description: Option<String>,
}

/// A piece of a report line, printed in bold or not.
pub struct Span {
    pub text: String,
    pub bold: bool,
}

/// A span as its text and boldness.
pub open spec fn span_view(s: Span) -> (Seq<char>, bool) {
    (s.text@, s.bold)
}

/// A line as the sequence of its spans.
pub open spec fn line_view(line: Vec<Span>) -> Seq<(Seq<char>, bool)> {
    line@.map_values(|s: Span| span_view(s))
}

/// Lines as sequences of their spans.
pub open spec fn lines_view(lines: Seq<Vec<Span>>) -> Seq<Seq<(Seq<char>, bool)>> {
    lines.map_values(|l: Vec<Span>| line_view(l))
}

/// A line of one plain span.
pub open spec fn plain_line(s: Seq<char>) -> Seq<(Seq<char>, bool)> {
    seq![(s, false)]
}

/// A line of one bold span.
pub open spec fn bold_line(s: Seq<char>) -> Seq<(Seq<char>, bool)> {
    seq![(s, true)]
}

/// The text of an optional string, empty when there is none.
pub open spec fn text_or_empty(s: Option<String>) -> Seq<char> {
    match s {
        Some(s) => s@,
        None => Seq::empty(),
    }
}

/// The platforms for which an FMU carries an implementation: `c-code` when it
/// has sources, then the platforms of its binaries.
pub open spec fn platforms_spec(has_sources: bool, binary_platforms: Seq<Seq<char>>) -> Seq<Seq<char>> {
    if has_sources {
        seq!["c-code"@] + binary_platforms
    } else {
        binary_platforms
    }
}

/// The FMI version as the report shows it.
pub open spec fn version_text(info: ModelInfo) -> Seq<char> {
    match info.major_version {
        FmiMajorVersion::V2 => "2.0"@,
        FmiMajorVersion::V3 => info.fmi_version@,
    }
}

/// The largest number of bytes of a variable's name.
pub open spec fn longest_name(vars: Seq<VariableInfo>) -> int
    decreases vars.len(),
{
    if vars.len() == 0 {
        0
    } else {
        let rest = longest_name(vars.drop_last());
        let last = byte_len(vars.last().name@);
        if rest < last {
            last
        } else {
            rest
        }
    }
}

/// The width of the name column: the largest number of bytes of a name, or 4
/// when there are no variables or all names are empty.
pub open spec fn name_width(vars: Seq<VariableInfo>) -> int {
    if longest_name(vars) == 0 {
        4
    } else {
        longest_name(vars)
    }
}

/// The width of the description column: what is left of the terminal (120
/// columns when its width is unknown) beside the name column and the separator.
pub open spec fn description_width(terminal_width: Option<usize>, name_width: int) -> int {
    let tw: int = match terminal_width {
        Some(w) => w as int,
        None => 120,
    };
    if tw >= name_width + 3 {
        tw - (name_width + 3)
    } else {
        0
    }
}

/// The header of the table of variables.
pub open spec fn header_line(grid: GridStyle, nw: int, dw: int) -> Seq<(Seq<char>, bool)> {
    seq![
        (padded("Name"@, nw), true),
        (" "@ + grid.vertical@ + " "@, false),
        (padded("Description"@, dw), true),
    ]
}

/// The line below the header of the table of variables.
pub open spec fn separator_line(grid: GridStyle, nw: int, dw: int) -> Seq<(Seq<char>, bool)> {
    plain_line(
        repeated(grid.horizontal@, (nw + 1) as nat) + grid.cross@ + repeated(
            grid.horizontal@,
            (dw + 1) as nat,
        ),
    )
}

/// The row of the table for one variable: its name and its description,
/// separated by the grid's bar.
pub open spec fn variable_line(
    grid: GridStyle,
    var: VariableInfo,
    nw: int,
    dw: int,
) -> Seq<(Seq<char>, bool)> {
    plain_line(
        padded(var.name@, nw) + " "@ + grid.vertical@ + " "@ + padded(
            text_or_empty(var.description),
            dw,
        ),
    )
}

/// The whole report on a model: its information, then the table of its variables.
pub open spec fn model_report(
    info: ModelInfo,
    platforms: Seq<Seq<char>>,
    grid: GridStyle,
    terminal_width: Option<usize>,
) -> Seq<Seq<(Seq<char>, bool)>> {
    let vars = info.variables@;
    let nw = name_width(vars);
    let dw = description_width(terminal_width, nw);
    seq![
        bold_line("Model Information"@),
        Seq::empty(),
        plain_line("FMI Version:       "@ + version_text(info)),
        plain_line("Model Name:        "@ + info.model_name@),
        plain_line("Platforms:         "@ + joined(platforms, ", "@)),
        plain_line("Continuous States: "@ + decimal(info.continuous_states as nat)),
        plain_line("Event Indicators:  "@ + decimal(info.event_indicators as nat)),
        plain_line("Model Variables:   "@ + decimal(vars.len())),
        plain_line("Generation Date:   "@ + text_or_empty(info.generation_date)),
        plain_line("Generation Tool:   "@ + text_or_empty(info.generation_tool)),
        plain_line("Description:       "@ + text_or_empty(info.description)),
        Seq::empty(),
        bold_line("Model Variables"@),
        Seq::empty(),
        header_line(grid, nw, dw),
        separator_line(grid, nw, dw),
    ] + Seq::new(vars.len(), |i: int| variable_line(grid, vars[i], nw, dw))
}

/// Lists the platforms of an FMU: `c-code` first when it has sources, then the
/// platforms of its binaries in the given order.
pub fn platforms(has_sources: bool, binary_platforms: Vec<String>) -> (r: Vec<String>)
    ensures
        r.deep_view() == platforms_spec(has_sources, binary_platforms.deep_view()),
{
    if has_sources {
        let mut r: Vec<String> = Vec::new();
        r.push("c-code".to_owned());
        let n = binary_platforms.len();
        let mut i: usize = 0;
        while i < n
            invariant
                n == binary_platforms@.len(),
                i <= n,
                r.deep_view() == seq!["c-code"@] + binary_platforms.deep_view().take(i as int),
            decreases n - i,
        {
            let ghost before = r.deep_view();
            let p = binary_platforms[i].clone();
            r.push(p);
            assert(r.deep_view() =~= before.push(binary_platforms.deep_view()[i as int]));
            assert(binary_platforms.deep_view().take(i + 1) =~= binary_platforms.deep_view().take(i as int).push(binary_platforms.deep_view()[i as int]));
            assert(r.deep_view() =~= seq!["c-code"@] + binary_platforms.deep_view().take(i + 1));
            i = i + 1;
        }
        assert(binary_platforms.deep_view().take(n as int) =~= binary_platforms.deep_view());
        r
    } else {
        binary_platforms
    }
}

fn push_line(lines: &mut Vec<Vec<Span>>, line: Vec<Span>)
    ensures
        lines_view(final(lines)@) == lines_view(old(lines)@).push(line_view(line)),
{
    let ghost before = lines@;
    lines.push(line);
    assert(lines_view(lines@) =~= lines_view(before).push(line_view(line)));
}

fn plain(text: String) -> (line: Vec<Span>)
    ensures
        line_view(line) == plain_line(text@),
{
    let line = vec![Span { text, bold: false }];
    assert(line_view(line) =~= plain_line(text@));
    line
}

fn bold(text: String) -> (line: Vec<Span>)
    ensures
        line_view(line) == bold_line(text@),
{
    let line = vec![Span { text, bold: true }];
    assert(line_view(line) =~= bold_line(text@));
    line
}

fn empty() -> (line: Vec<Span>)
    ensures
        line_view(line) == Seq::<(Seq<char>, bool)>::empty(),
{
    let line: Vec<Span> = Vec::new();
    assert(line_view(line) =~= Seq::<(Seq<char>, bool)>::empty());
    line
}

fn labeled(label: &str, value: &str) -> (line: Vec<Span>)
    ensures
        line_view(line) == plain_line(label@ + value@),
{
    let mut text = label.to_owned();
    text.append(value);
    plain(text)
}

fn text_of(s: &Option<String>) -> (r: &str)
    ensures
        r@ == text_or_empty(*s),
{
    match s {
        Some(s) => s.as_str(),
        None => {
            proof {
                reveal_strlit("");
            }
            ""
        },
    }
}

/// The names' lengths in bytes leave room for the widths of the table within `usize`.
pub open spec fn names_fit(vars: Seq<VariableInfo>) -> bool {
    forall|i: int| 0 <= i < vars.len() ==> byte_len(#[trigger] vars[i].name@) + 3 <= usize::MAX
}

fn compute_name_width(vars: &Vec<VariableInfo>) -> (w: usize)
    requires
        names_fit(vars@),
    ensures
        w == name_width(vars@),
        w + 3 <= usize::MAX,
{
    let n = vars.len();
    let mut w: usize = 0;
    let mut i: usize = 0;
    while i < n
        invariant
            n == vars@.len(),
            i <= n,
            names_fit(vars@),
            w == longest_name(vars@.take(i as int)),
            w + 3 <= usize::MAX,
        decreases n - i,
    {
        let len = vars[i].name.as_str().len();
        assert(vars@.take(i + 1).drop_last() =~= vars@.take(i as int));
        assert(byte_len(vars@[i as int].name@) + 3 <= usize::MAX);
        if w < len {
            w = len;
        }
        i = i + 1;
    }
    assert(vars@.take(n as int) =~= vars@);
    if w == 0 {
        4
    } else {
        w
    }
}

fn variable_row(
    grid: &GridStyle,
    var: &VariableInfo,
    nw: usize,
    dw: usize,
) -> (line: Vec<Span>)
    ensures
        line_view(line) == variable_line(*grid, *var, nw as int, dw as int),
{
    let mut text = pad_right(var.name.as_str(), nw);
    text.append(" ");
    text.append(grid.vertical);
    text.append(" ");
    let description = pad_right(text_of(&var.description), dw);
    text.append(description.as_str());
    assert(text@ =~= padded(var.name@, nw as int) + " "@ + grid.vertical@ + " "@ + padded(
        text_or_empty(var.description),
        dw as int,
    ));
    plain(text)
}

/// Lays out the report on a model: its information, then a table of its
/// variables with a name column as wide as the longest name in bytes (4 when
/// there are no variables or all names are empty) and a description column that fills the rest of
/// the terminal.
pub fn info_report(
    info: &ModelInfo,
    platforms: &Vec<String>,
    grid: &GridStyle,
    terminal_width: Option<usize>,
) -> (lines: Vec<Vec<Span>>)
    requires
        names_fit(info.variables@),
    ensures
        lines_view(lines@) == model_report(*info, platforms.deep_view(), *grid, terminal_width),
        lines@.len() == 16 + info.variables@.len(),
{
    let vars = &info.variables;
    let nw = compute_name_width(vars);
    let tw = match terminal_width {
        Some(w) => w,
        None => 120,
    };
    let dw = tw.saturating_sub(nw + 3);
    let ghost dws = description_width(terminal_width, nw as int);
    assert(dw == dws);

    let mut lines: Vec<Vec<Span>> = Vec::new();
    push_line(&mut lines, bold("Model Information".to_owned()));
    push_line(&mut lines, empty());
    let version = match info.major_version {
        FmiMajorVersion::V2 => "2.0",
        FmiMajorVersion::V3 => info.fmi_version.as_str(),
    };
    push_line(&mut lines, labeled("FMI Version:       ", version));
    push_line(&mut lines, labeled("Model Name:        ", info.model_name.as_str()));
    let platforms_text = join_strings(platforms, ", ");
    push_line(&mut lines, labeled("Platforms:         ", platforms_text.as_str()));
    let states = decimal_string(info.continuous_states);
    push_line(&mut lines, labeled("Continuous States: ", states.as_str()));
    let indicators = decimal_string(info.event_indicators);
    push_line(&mut lines, labeled("Event Indicators:  ", indicators.as_str()));
    let count = decimal_string(vars.len());
    push_line(&mut lines, labeled("Model Variables:   ", count.as_str()));
    push_line(&mut lines, labeled("Generation Date:   ", text_of(&info.generation_date)));
    push_line(&mut lines, labeled("Generation Tool:   ", text_of(&info.generation_tool)));
    push_line(&mut lines, labeled("Description:       ", text_of(&info.description)));
    push_line(&mut lines, empty());
    push_line(&mut lines, bold("Model Variables".to_owned()));
    push_line(&mut lines, empty());

    let mut gap = " ".to_owned();
    gap.append(grid.vertical);
    gap.append(" ");
    let header = vec![
        Span { text: pad_right("Name", nw), bold: true },
        Span { text: gap, bold: false },
        Span { text: pad_right("Description", dw), bold: true },
    ];
    assert(line_view(header) =~= header_line(*grid, nw as int, dw as int));
    push_line(&mut lines, header);

    let mut separator = repeat_str(grid.horizontal, nw + 1);
    separator.append(grid.cross);
    let tail = repeat_str(grid.horizontal, dw + 1);
    separator.append(tail.as_str());
    push_line(&mut lines, plain(separator));

    let ghost top = lines_view(lines@);
    let ghost v = info.variables@;
    assert(version@ == version_text(*info));
    assert(top =~= model_report(*info, platforms.deep_view(), *grid, terminal_width).take(16));

    let n = vars.len();
    let mut i: usize = 0;
    while i < n
        invariant
            n == v.len(),
            v == info.variables@,
            vars@ == v,
            i <= n,
            lines_view(lines@) == top + Seq::new(
                i as nat,
                |k: int| variable_line(*grid, v[k], nw as int, dw as int),
            ),
        decreases n - i,
    {
        let row = variable_row(grid, &vars[i], nw, dw);
        push_line(&mut lines, row);
        assert(lines_view(lines@) =~= top + Seq::new(
            (i + 1) as nat,
            |k: int| variable_line(*grid, v[k], nw as int, dw as int),
        ));
        i = i + 1;
    }
    assert(lines_view(lines@) =~= model_report(*info, platforms.deep_view(), *grid, terminal_width));
    lines
}

proof fn lemma_longest_name(vars: Seq<VariableInfo>)
    ensures
        forall|i: int| 0 <= i < vars.len() ==> byte_len(#[trigger] vars[i].name@) <= longest_name(vars),
        vars.len() > 0 ==> exists|i: int|
            0 <= i < vars.len() && byte_len(#[trigger] vars[i].name@) == longest_name(vars),
    decreases vars.len(),
{
    if vars.len() > 0 {
        let init = vars.drop_last();
        lemma_longest_name(init);
        assert forall|i: int| 0 <= i < vars.len() implies byte_len(#[trigger] vars[i].name@)
            <= longest_name(vars) by {
            if i < init.len() {
                assert(init[i] == vars[i]);
            }
        }
        if longest_name(vars) == byte_len(vars.last().name@) {
            assert(byte_len(vars[vars.len() - 1].name@) == longest_name(vars));
        } else {
            let j = choose|j: int| 0 <= j < init.len() && byte_len(#[trigger] init[j].name@) == longest_name(init);
            assert(init[j] == vars[j]);
            assert(byte_len(vars[j].name@) == longest_name(vars));
        }
    }
}

/// The name column holds every name: it is as wide as the longest name in
/// bytes (4 when there is no name or all names are empty), so every name,
/// padded, fills exactly the width of the column, and the rows of the table
/// line up. Unless it is 4, the width is that of some name.
pub proof fn lemma_name_column_holds_every_name(vars: Seq<VariableInfo>)
    ensures
        forall|i: int|
            0 <= i < vars.len() ==> {
                &&& byte_len(#[trigger] vars[i].name@) <= name_width(vars)
                &&& padded(vars[i].name@, name_width(vars)).len() == name_width(vars)
            },
        name_width(vars) != 4 ==> exists|i: int|
            0 <= i < vars.len() && byte_len(#[trigger] vars[i].name@) == name_width(vars),
        name_width(vars) >= 1,
{
    lemma_longest_name(vars);
    assert forall|i: int| 0 <= i < vars.len() implies {
        &&& byte_len(#[trigger] vars[i].name@) <= name_width(vars)
        &&& padded(vars[i].name@, name_width(vars)).len() == name_width(vars)
    } by {
        lemma_chars_at_most_bytes(vars[i].name@);
    }
}

/// When the terminal is wide enough for the name column and the separator,
/// the two columns and the separator between them fill its width exactly
/// (120 columns when the width is unknown).
pub proof fn lemma_columns_fill_terminal(terminal_width: Option<usize>, nw: int)
    requires
        0 <= nw,
        nw + 3 <= (match terminal_width {
            Some(w) => w as int,
            None => 120,
        }),
    ensures
        nw + 3 + description_width(terminal_width, nw) == (match terminal_width {
            Some(w) => w as int,
            None => 120,
        }),
{
}

/// With sources, the platforms are `c-code` followed by every binary platform
/// in its order, however many there are; without, they are the binary
/// platforms unchanged.
pub proof fn lemma_platforms_order(has_sources: bool, binary_platforms: Seq<Seq<char>>)
    ensures
        has_sources ==> {
            let p = platforms_spec(has_sources, binary_platforms);
            &&& p.len() == binary_platforms.len() + 1
            &&& p[0] == "c-code"@
            &&& forall|i: int| 0 <= i < binary_platforms.len() ==> p[i + 1] == binary_platforms[i]
        },
        !has_sources ==> platforms_spec(has_sources, binary_platforms) == binary_platforms,
{
}

/// The report, line by line: each line of information shows its own field of
/// the model and nothing else (the optional ones empty when absent), and the
/// table has one row per variable, in order, holding its name and description
/// padded to the widths of the columns.
pub proof fn lemma_report_lines(
    info: ModelInfo,
    platforms: Seq<Seq<char>>,
    grid: GridStyle,
    terminal_width: Option<usize>,
)
    ensures
        ({
            let r = model_report(info, platforms, grid, terminal_width);
            let vars = info.variables@;
            let nw = name_width(vars);
            let dw = description_width(terminal_width, nw);
            &&& r.len() == 16 + vars.len()
            &&& r[0] == seq![("Model Information"@, true)]
            &&& r[1].len() == 0
            &&& r[2] == seq![("FMI Version:       "@ + (match info.major_version {
                FmiMajorVersion::V2 => "2.0"@,
                FmiMajorVersion::V3 => info.fmi_version@,
            }), false)]
            &&& r[3] == seq![("Model Name:        "@ + info.model_name@, false)]
            &&& r[4] == seq![("Platforms:         "@ + joined(platforms, ", "@), false)]
            &&& r[5] == seq![("Continuous States: "@ + decimal(info.continuous_states as nat), false)]
            &&& r[6] == seq![("Event Indicators:  "@ + decimal(info.event_indicators as nat), false)]
            &&& r[7] == seq![("Model Variables:   "@ + decimal(vars.len()), false)]
            &&& r[8] == seq![("Generation Date:   "@ + (match info.generation_date {
                Some(d) => d@,
                None => Seq::empty(),
            }), false)]
            &&& r[9] == seq![("Generation Tool:   "@ + (match info.generation_tool {
                Some(t) => t@,
                None => Seq::empty(),
            }), false)]
            &&& r[10] == seq![("Description:       "@ + (match info.description {
                Some(d) => d@,
                None => Seq::empty(),
            }), false)]
            &&& r[11].len() == 0
            &&& r[12] == seq![("Model Variables"@, true)]
            &&& r[13].len() == 0
            &&& r[14] == seq![
                (padded("Name"@, nw), true),
                (" "@ + grid.vertical@ + " "@, false),
                (padded("Description"@, dw), true),
            ]
            &&& r[15] == seq![
                (repeated(grid.horizontal@, (nw + 1) as nat) + grid.cross@ + repeated(
                    grid.horizontal@,
                    (dw + 1) as nat,
                ), false),
            ]
            &&& forall|i: int|
                0 <= i < vars.len() ==> r[16 + i] == seq![
                    (padded(vars[i].name@, nw) + " "@ + grid.vertical@ + " "@ + padded(
                        match vars[i].description {
                            Some(d) => d@,
                            None => Seq::empty(),
                        },
                        dw,
                    ), false),
                ]
        }),
{
    let r = model_report(info, platforms, grid, terminal_width);
    let vars = info.variables@;
    assert forall|i: int| 0 <= i < vars.len() implies r[16 + i] == seq![
        (padded(vars[i].name@, name_width(vars)) + " "@ + grid.vertical@ + " "@ + padded(
            match vars[i].description {
                Some(d) => d@,
                None => Seq::empty(),
            },
            description_width(terminal_width, name_width(vars)),
        ), false),
    ] by {}
}

} // verus!
