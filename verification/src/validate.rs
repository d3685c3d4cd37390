//! The checks of an FMU that work on values already read from it.
use annotate_snippets::renderer::DecorStyle;
use annotate_snippets::{AnnotationKind, Level, Renderer, Snippet};
use core::ops::Range;
use vstd::prelude::*;

verus! {

/// `s` holds the character `c`.
pub fn contains_char(s: &str, c: char) -> (r: bool)
    ensures
        r == s@.contains(c),
{
    let n = s.unicode_len();
    let mut i: usize = 0;
    while i < n
        invariant
            n == s@.len(),
            i <= n,
            forall|j: int| 0 <= j < i ==> s@[j] != c,
        decreases n - i,
    {
        if s.get_char(i) == c {
            return true;
        }
        i = i + 1;
    }
    false
}

/// The path of an archive entry starts with a dot or a slash.
pub open spec fn starts_with_dot_or_slash(entry: Seq<char>) -> bool {
    entry.len() > 0 && (entry[0] == '.' || entry[0] == '/')
}

/// The message for an entry whose path starts with a dot or a slash.
pub open spec fn dot_or_slash_message(entry: Seq<char>) -> Seq<char> {
    "Path '"@ + entry + "' starts with a dot ('.') or slash ('/')"@
}

/// The message for an entry whose path holds a backslash.
pub open spec fn backslash_message(entry: Seq<char>) -> Seq<char> {
    "Path '"@ + entry + "' contains a backslash ('\\')"@
}

/// The message for an archive that could not be read.
pub open spec fn unreadable_archive_message(fmu_file: Seq<char>) -> Seq<char> {
    "Failed to read ZIP archive: "@ + fmu_file
}

/// The problems of one archive entry, in the order in which they are reported.
pub open spec fn entry_problems(entry: Seq<char>) -> Seq<Seq<char>> {
    (if starts_with_dot_or_slash(entry) {
        seq![dot_or_slash_message(entry)]
    } else {
        Seq::empty()
    }) + (if entry.contains('\\') {
        seq![backslash_message(entry)]
    } else {
        Seq::empty()
    })
}

/// The problems of a list of archive entries, entry by entry.
pub open spec fn entries_problems(entries: Seq<Seq<char>>) -> Seq<Seq<char>>
    decreases entries.len(),
{
    if entries.len() == 0 {
        Seq::empty()
    } else {
        entries_problems(entries.drop_last()) + entry_problems(entries.last())
    }
}

/// The path of an archive entry is acceptable in an FMU.
pub open spec fn is_acceptable_entry(entry: Seq<char>) -> bool {
    !starts_with_dot_or_slash(entry) && !entry.contains('\\')
}

proof fn lemma_entries_problems_empty(entries: Seq<Seq<char>>)
    ensures
        entries_problems(entries).len() == 0 <==> forall|i: int|
            0 <= i < entries.len() ==> is_acceptable_entry(#[trigger] entries[i]),
    decreases entries.len(),
{
    if entries.len() > 0 {
        lemma_entries_problems_empty(entries.drop_last());
        let init = entries.drop_last();
        let e = entries.last();
        assert(entry_problems(e).len() == 0 <==> is_acceptable_entry(e));
        if forall|i: int| 0 <= i < entries.len() ==> is_acceptable_entry(#[trigger] entries[i]) {
            assert forall|i: int| 0 <= i < init.len() implies is_acceptable_entry(#[trigger] init[i]) by {
                assert(init[i] == entries[i]);
            }
            assert(is_acceptable_entry(entries[entries.len() - 1]));
        }
        if entries_problems(entries).len() == 0 {
            assert forall|i: int| 0 <= i < entries.len() implies is_acceptable_entry(#[trigger] entries[i]) by {
                if i < init.len() {
                    assert(init[i] == entries[i]);
                }
            }
        }
    }
}

/// Checks the entries of an FMU's ZIP archive, given as the list of the
/// entries' paths, or as `None` when the archive could not be read.
///
/// Each entry whose path starts with `.` or `/`, and each entry whose path holds
/// a backslash, is reported; an archive that could not be read is reported by
/// the path of the FMU file.
pub fn validate_zip_archive(fmu_file: &str, contents: Option<&Vec<String>>) -> (problems: Vec<
    String,
>)
    ensures
        problems.deep_view() == (match contents {
            Some(entries) => entries_problems(entries.deep_view()),
            None => seq![unreadable_archive_message(fmu_file@)],
        }),
        problems@.len() == 0 <==> (contents matches Some(entries) && forall|i: int|
            0 <= i < entries@.len() ==> is_acceptable_entry(#[trigger] entries@[i]@)),
{
    let mut problems: Vec<String> = Vec::new();
    match contents {
        Some(entries) => {
            let n = entries.len();
            let mut i: usize = 0;
            while i < n
                invariant
                    n == entries@.len(),
                    i <= n,
                    problems.deep_view() == entries_problems(entries.deep_view().take(i as int)),
                decreases n - i,
            {
                let entry = entries[i].as_str();
                let ghost before = problems.deep_view();
                let len = entry.unicode_len();
                let mut first_problem = false;
                if len > 0 {
                    let c = entry.get_char(0);
                    first_problem = c == '.' || c == '/';
                }
                if first_problem {
                    let mut msg = "Path '".to_owned();
                    msg.append(entry);
                    msg.append("' starts with a dot ('.') or slash ('/')");
                    problems.push(msg);
                }
                let ghost middle = problems.deep_view();
                assert(middle =~= before + (if starts_with_dot_or_slash(entry@) {
                    seq![dot_or_slash_message(entry@)]
                } else {
                    Seq::empty()
                }));
                if contains_char(entry, '\\') {
                    let mut msg = "Path '".to_owned();
                    msg.append(entry);
                    msg.append("' contains a backslash ('\\')");
                    problems.push(msg);
                }
                proof {
                    let es = entries.deep_view();
                    assert(es.take(i + 1).drop_last() =~= es.take(i as int));
                    assert(es.take(i + 1).last() == entry@);
                    assert(problems.deep_view() =~= before + entry_problems(entry@));
                }
                i = i + 1;
            }
            proof {
                assert(entries.deep_view().take(n as int) =~= entries.deep_view());
                lemma_entries_problems_empty(entries.deep_view());
                assert forall|i: int| 0 <= i < entries@.len() implies entries.deep_view()[i]
                    == #[trigger] entries@[i]@ by {}
            }
        },
        None => {
            let mut msg = "Failed to read ZIP archive: ".to_owned();
            msg.append(fmu_file);
            problems.push(msg);
            assert(problems.deep_view() =~= seq![unreadable_archive_message(fmu_file@)]);
        },
    }
    problems
}

/// The problems of an optional part of an FMU (its build description or its
/// fmi-ls-dae manifest): those found against the schema, then the error with
/// which the file failed to load, if it did.
pub fn part_problems(schema_problems: Vec<String>, load_error: Option<String>) -> (problems: Vec<
    String,
>)
    ensures
        problems.deep_view() == schema_problems.deep_view() + (match load_error {
            Some(e) => seq![e@],
            None => Seq::empty(),
        }),
{
    let mut problems = schema_problems;
    let ghost before = problems.deep_view();
    match load_error {
        Some(e) => {
            problems.push(e);
            assert(problems.deep_view() =~= before + seq![e@]);
        },
        None => {
            assert(problems.deep_view() =~= before + Seq::<Seq<char>>::empty());
        },
    }
    problems
}

/// The outcome of validating an FMU, given the number of problems found in its
/// model description. Only these fail the validation: the problems of the ZIP
/// archive, of the schema check, of the build description and of the
/// fmi-ls-dae manifest are reported, but do not.
pub fn validation_outcome(model_description_problems: usize) -> (r: Result<(), String>)
    ensures
        r is Ok <==> model_description_problems == 0,
        r matches Err(msg) ==> msg@ == "Validation failed"@,
{
    if model_description_problems == 0 {
        Ok(())
    } else {
        Err("Validation failed".to_owned())
    }
}

/// The problems of one entry: exactly one for a path that starts with `.` or
/// `/`, exactly one for a path that holds a backslash (however many it holds),
/// the first before the second, and none otherwise.
pub proof fn lemma_entry_problems(entry: Seq<char>)
    ensures
        ({
            let p = entry_problems(entry);
            let dot: int = if entry.len() > 0 && (entry[0] == '.' || entry[0] == '/') {
                1
            } else {
                0
            };
            let backslash: int = if entry.contains('\\') { 1 } else { 0 };
            &&& p.len() == dot + backslash
            &&& dot == 1 ==> p[0] == "Path '"@ + entry + "' starts with a dot ('.') or slash ('/')"@
            &&& backslash == 1 ==> p[dot] == "Path '"@ + entry + "' contains a backslash ('\\')"@
        }),
{
}

/// The problems of a list of entries are those of each entry, entry by entry:
/// the problems of two lists one after the other are those of the first, then
/// those of the second.
pub proof fn lemma_entries_problems_concat(first: Seq<Seq<char>>, second: Seq<Seq<char>>)
    ensures
        entries_problems(first + second) == entries_problems(first) + entries_problems(second),
    decreases second.len(),
{
    if second.len() == 0 {
        assert(first + second =~= first);
        assert(entries_problems(second) =~= Seq::<Seq<char>>::empty());
        assert(entries_problems(first) + entries_problems(second) =~= entries_problems(first));
    } else {
        lemma_entries_problems_concat(first, second.drop_last());
        assert((first + second).drop_last() =~= first + second.drop_last());
        assert((first + second).last() == second.last());
        assert(entries_problems(first + second) =~= entries_problems(first) + entries_problems(
            second,
        ));
    }
}

/// A single entry has its own problems and no others.
pub proof fn lemma_entries_problems_single(entry: Seq<char>)
    ensures
        entries_problems(seq![entry]) == entry_problems(entry),
{
    assert(seq![entry].drop_last() =~= Seq::<Seq<char>>::empty());
    assert(entries_problems(Seq::<Seq<char>>::empty()) + entry_problems(entry) =~= entry_problems(
        entry,
    ));
}

/// A byte position in `source` at which the renderer may slice it: a boundary
/// between characters, or past the end of the text.
pub open spec fn is_span_bound(source: Seq<char>, i: int) -> bool {
    i > crate::text::byte_len(source) || vstd::utf8::is_char_boundary(
        vstd::utf8::encode_utf8(source),
        i,
    )
}

/// The spans lie within `source` (the renderer allows one byte past its end),
/// each from its start to its end, at character boundaries.
pub open spec fn spans_fit(source: Seq<char>, spans: Seq<Range<usize>>) -> bool {
    forall|k: int|
        0 <= k < spans.len() ==> {
            let span = #[trigger] spans[k];
            &&& span.start <= span.end <= crate::text::byte_len(source) + 1
            &&& is_span_bound(source, span.start as int)
            &&& is_span_bound(source, span.end as int)
        }
}

/// The byte spans as pairs of integers.
pub open spec fn spans_view(spans: Seq<Range<usize>>) -> Seq<(int, int)> {
    spans.map_values(|r: Range<usize>| (r.start as int, r.end as int))
}

/// What annotate_snippets' `Renderer::plain().term_width(width).render(..)`
/// writes for an error titled `message` on `source`, with the file `path` and a
/// primary annotation on each span; with `unicode`, the renderer draws with
/// `DecorStyle::Unicode` in place of the plain renderer's ASCII.
pub uninterp spec fn rendered_plain_error(
    source: Seq<char>,
    message: Seq<char>,
    path: Option<Seq<char>>,
    spans: Seq<(int, int)>,
    unicode: bool,
    width: int,
) -> Seq<char>;

/// A character that may stand between `ESC [` and `m` in a sequence that sets
/// the colours and effects of a terminal (SGR).
pub open spec fn is_sgr_parameter(c: char) -> bool {
    ('0' <= c && c <= '9') || c == ';' || c == ':'
}

/// The number of SGR parameter characters with which `s` starts.
pub open spec fn sgr_parameters(s: Seq<char>) -> nat
    decreases s.len(),
{
    if s.len() > 0 && is_sgr_parameter(s[0]) {
        1 + sgr_parameters(s.drop_first())
    } else {
        0
    }
}

/// `s` without its SGR sequences (`ESC [`, parameters, `m`), the codes with
/// which a terminal is told colours and effects, as anstyle writes them.
pub open spec fn without_sgr(s: Seq<char>) -> Seq<char>
    decreases s.len(),
{
    if s.len() == 0 {
        Seq::empty()
    } else if s.len() >= 2 && s[0] == '\u{1b}' && s[1] == '[' && 2 + sgr_parameters(s.skip(2))
        < s.len() && s[2 + sgr_parameters(s.skip(2)) as int] == 'm' {
        without_sgr(s.skip(3 + sgr_parameters(s.skip(2)) as int))
    } else {
        seq![s[0]] + without_sgr(s.drop_first())
    }
}

/// The path of an optional string.
pub open spec fn path_view(path: Option<&str>) -> Option<Seq<char>> {
    match path {
        Some(p) => Some(p@),
        None => None,
    }
}

/// Renders an error report without styling, through annotate_snippets'
/// `Snippet::source`, `Snippet::path`, `Snippet::annotation`,
/// `AnnotationKind::Primary.span`, `Level::ERROR.primary_title`,
/// `Title::element`, `Renderer::plain`, `Renderer::term_width` and
/// `Renderer::render`. The contract claims that the text is a function of the
/// arguments alone (the plain renderer uses no colours), named
/// `rendered_plain_error`. The renderer panics on a span past one byte beyond
/// the end of the source, and slices the source at the spans' bounds; what it
/// makes of a span whose start lies after its end its source does not show, so
/// such spans are left out too. It doubles the width of the code column (the
/// width less a few columns) for each span on a single line, which overflows
/// for widths above half of `usize::MAX`; with spans, these are left out as
/// well.
#[verifier::external_body]
fn render_plain(
    source: &str,
    message: &str,
    path: Option<&str>,
    spans: &Vec<Range<usize>>,
    width: usize,
) -> (r: String)
    requires
        spans_fit(source@, spans@),
        spans@.len() > 0 ==> width <= usize::MAX / 2,
    ensures
        r@ == rendered_plain_error(
            source@,
            message@,
            path_view(path),
            spans_view(spans@),
            false,
            width as int,
        ),
{
    let mut snippet = Snippet::source(source).path(path);
    for span in spans {
        snippet = snippet.annotation(AnnotationKind::Primary.span(span.clone()));
    }
    let report = &[Level::ERROR.primary_title(message).element(snippet)];
    Renderer::plain().term_width(width).render(report)
}

/// Renders the same report with the default terminal styling and Unicode
/// decorations, through the same calls with `Renderer::styled` and
/// `Renderer::decor_style`. Its colours depend on the platform for which
/// annotate_snippets was built, so they are not stated. What is claimed is
/// what annotate_snippets documents of `Renderer::styled` (that stripping the
/// escape codes gives what `Renderer::plain` would render) and its source
/// shows (the styled renderer lays out the same characters as the plain one,
/// its stylesheet only adding anstyle's SGR codes between them): without its
/// SGR sequences, the report is the plain rendering with Unicode decorations.
/// This is claimed where the source, the message and the path hold no escape
/// character of their own.
#[verifier::external_body]
fn render_styled(
    source: &str,
    message: &str,
    path: Option<&str>,
    spans: &Vec<Range<usize>>,
    width: usize,
) -> (r: String)
    requires
        spans_fit(source@, spans@),
        spans@.len() > 0 ==> width <= usize::MAX / 2,
    ensures
        !source@.contains('\u{1b}') && !message@.contains('\u{1b}') && !(path_view(path) matches Some(
            p,
        ) && p.contains('\u{1b}')) ==> without_sgr(r@) == rendered_plain_error(
            source@,
            message@,
            path_view(path),
            spans_view(spans@),
            true,
            width as int,
        ),
{
    let mut snippet = Snippet::source(source).path(path);
    for span in spans {
        snippet = snippet.annotation(AnnotationKind::Primary.span(span.clone()));
    }
    let report = &[Level::ERROR.primary_title(message).element(snippet)];
    Renderer::styled().decor_style(DecorStyle::Unicode).term_width(width).render(report)
}

/// The width at which reports are rendered: the terminal's, or 120 columns
/// when it is unknown.
pub open spec fn width_or_default(terminal_width: Option<usize>) -> int {
    match terminal_width {
        Some(w) => w as int,
        None => 120,
    }
}

/// The file that a report names: `modelDescription.xml` when the problem
/// points at spans of its text, none otherwise.
pub open spec fn report_path_spec(spans: Seq<Range<usize>>) -> Option<Seq<char>> {
    if spans.len() > 0 {
        Some("modelDescription.xml"@)
    } else {
        None
    }
}

/// Chooses the width at which a report is rendered: the terminal's, or 120
/// columns when it is unknown.
pub fn report_width(terminal_width: Option<usize>) -> (w: usize)
    ensures
        w == width_or_default(terminal_width),
{
    match terminal_width {
        Some(w) => w,
        None => 120,
    }
}

/// Chooses the file that a report names: `modelDescription.xml` when the
/// problem points at spans of its text, none otherwise.
pub fn report_path(spans: &Vec<Range<usize>>) -> (path: Option<&'static str>)
    ensures
        path_view(path) == report_path_spec(spans@),
{
    if spans.len() > 0 {
        Some("modelDescription.xml")
    } else {
        None
    }
}

/// Lays out a problem of a model description as an error report on the text
/// of `modelDescription.xml`: the file is named when the problem points at
/// spans of the text, each span is marked, the report is styled when it goes
/// to a terminal, and it is as wide as the terminal (120 columns when that is
/// unknown). Both the plain and the styled report are rendered with the file
/// and width that `report_path` and `report_width` choose.
pub fn xml_error_report(
    source: &str,
    message: &str,
    spans: &Vec<Range<usize>>,
    stderr_is_terminal: bool,
    terminal_width: Option<usize>,
) -> (r: String)
    requires
        spans_fit(source@, spans@),
        spans@.len() > 0 ==> width_or_default(terminal_width) <= usize::MAX / 2,
    ensures
        !stderr_is_terminal ==> r@ == rendered_plain_error(
            source@,
            message@,
            report_path_spec(spans@),
            spans_view(spans@),
            false,
            width_or_default(terminal_width),
        ),
        stderr_is_terminal && !source@.contains('\u{1b}') && !message@.contains('\u{1b}')
            ==> without_sgr(r@) == rendered_plain_error(
            source@,
            message@,
            report_path_spec(spans@),
            spans_view(spans@),
            true,
            width_or_default(terminal_width),
        ),
{
    let path = report_path(spans);
    let width = report_width(terminal_width);
    proof {
        reveal_strlit("modelDescription.xml");
        let file = "modelDescription.xml"@;
        assert forall|i: int| 0 <= i < file.len() implies file[i] != '\u{1b}' by {}
    }
    if stderr_is_terminal {
        render_styled(source, message, path, spans, width)
    } else {
        render_plain(source, message, path, spans, width)
    }
}

} // verus!
