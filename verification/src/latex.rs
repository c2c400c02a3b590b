//! Customization of the LaTeX report template: escaping of metadata values
//! and replacement of the `\newcommand` lines that hold them.

use vstd::prelude::*;
use crate::text::{chars_of, extend_chars, extend_str, string_from_chars, trim_start_chars, trim_start_spec};

verus! {

/// An error about the user's input or the template, with its message.
pub struct InputError {
    pub message: String,
}

/// The error that carries `message`.
pub fn input_error(message: String) -> (e: InputError)
    ensures
        e.message@ == message@,
{
    InputError { message }
}

/// The metadata written into the report template.
pub struct ProjectMetadata<'a> {
    pub project_name: &'a str,
    pub report_title: &'a str,
    pub report_type: &'a str,
    pub author: &'a str,
    pub program: &'a str,
    pub academic_year: &'a str,
}

// ---------------------------------------------------------------------------
// Escaping
// ---------------------------------------------------------------------------

/// The LaTeX source that typesets the character `c` literally.
pub open spec fn escape_char(c: char) -> Seq<char> {
    if c == '\\' {
        "\\textbackslash{}"@
    } else if c == '{' {
        "\\{"@
    } else if c == '}' {
        "\\}"@
    } else if c == '#' {
        "\\#"@
    } else if c == '$' {
        "\\$"@
    } else if c == '%' {
        "\\%"@
    } else if c == '&' {
        "\\&"@
    } else if c == '_' {
        "\\_"@
    } else if c == '^' {
        "\\textasciicircum{}"@
    } else if c == '~' {
        "\\textasciitilde{}"@
    } else {
        seq![c]
    }
}

/// Whether `c` has a meaning of its own in LaTeX text.
pub open spec fn is_special(c: char) -> bool {
    c == '\\' || c == '{' || c == '}' || c == '#' || c == '$' || c == '%' || c == '&' || c == '_'
        || c == '^' || c == '~'
}

/// The escapes of all characters of `s`, concatenated.
pub open spec fn escape_all(s: Seq<char>) -> Seq<char>
    decreases s.len(),
{
    if s.len() == 0 {
        Seq::empty()
    } else {
        escape_all(s.drop_last()) + escape_char(s.last())
    }
}

/// `value` with every LaTeX special character escaped.
pub fn latex_escape(value: &str) -> (escaped: String)
    ensures
        escaped@ == escape_all(value@),
{
    let cs = chars_of(value);
    let mut escaped = String::new();
    let mut i: usize = 0;
    proof {
        assert(cs@.take(0) =~= Seq::<char>::empty());
    }
    while i < cs.len()
        invariant
            i <= cs@.len(),
            cs@ == value@,
            escaped@ == escape_all(cs@.take(i as int)),
        decreases cs@.len() - i,
    {
        let character = cs[i];
        proof {
            assert(cs@.take(i + 1) =~= cs@.take(i as int).push(character));
            assert(cs@.take(i + 1).drop_last() =~= cs@.take(i as int));
        }
        if character == '\\' {
            escaped.append("\\textbackslash{}");
        } else if character == '{' {
            escaped.append("\\{");
        } else if character == '}' {
            escaped.append("\\}");
        } else if character == '#' {
            escaped.append("\\#");
        } else if character == '$' {
            escaped.append("\\$");
        } else if character == '%' {
            escaped.append("\\%");
        } else if character == '&' {
            escaped.append("\\&");
        } else if character == '_' {
            escaped.append("\\_");
        } else if character == '^' {
            escaped.append("\\textasciicircum{}");
        } else if character == '~' {
            escaped.append("\\textasciitilde{}");
        } else {
            crate::text::push_char(&mut escaped, character);
        }
        i += 1;
    }
    proof {
        assert(cs@.take(cs@.len() as int) =~= cs@);
    }
    escaped
}

// ---------------------------------------------------------------------------
// Lines and `\newcommand` replacement
// ---------------------------------------------------------------------------

/// The length of the first line of `s`, its line break included.
pub open spec fn line_len(s: Seq<char>) -> nat
    decreases s.len(),
{
    if s.len() == 0 {
        0
    } else if s[0] == '\n' {
        1
    } else {
        1 + line_len(s.drop_first())
    }
}

pub proof fn lemma_line_len(s: Seq<char>)
    ensures
        line_len(s) <= s.len(),
        s.len() > 0 ==> 1 <= line_len(s),
    decreases s.len(),
{
    if s.len() > 0 && s[0] != '\n' {
        lemma_line_len(s.drop_first());
    }
}

/// `\newcommand{\<command>}`.
pub open spec fn marker_spec(command: Seq<char>) -> Seq<char> {
    "\\newcommand{\\"@ + command + "}"@
}

/// The line that defines `command` as `value`.
pub open spec fn definition_line(command: Seq<char>, value: Seq<char>) -> Seq<char> {
    marker_spec(command) + "{"@ + value + "}\n"@
}

/// Whether `line`, without its leading whitespace, starts with `marker`.
pub open spec fn is_marker_line(line: Seq<char>, marker: Seq<char>) -> bool {
    marker.is_prefix_of(trim_start_spec(line))
}

/// `s` with every line that starts with `marker` replaced by `replacement`.
pub open spec fn replace_marker_lines(s: Seq<char>, marker: Seq<char>, replacement: Seq<char>) -> Seq<
    char,
>
    decreases s.len(),
{
    if s.len() == 0 {
        Seq::empty()
    } else {
        proof {
            lemma_line_len(s);
        }
        let line = s.take(line_len(s) as int);
        let head = if is_marker_line(line, marker) {
            replacement
        } else {
            line
        };
        head + replace_marker_lines(s.skip(line_len(s) as int), marker, replacement)
    }
}

/// Whether some line of `s` starts with `marker`.
pub open spec fn has_marker_line(s: Seq<char>, marker: Seq<char>) -> bool
    decreases s.len(),
{
    if s.len() == 0 {
        false
    } else {
        proof {
            lemma_line_len(s);
        }
        is_marker_line(s.take(line_len(s) as int), marker) || has_marker_line(
            s.skip(line_len(s) as int),
            marker,
        )
    }
}

/// The message of the error for a command that the template lacks.
pub open spec fn missing_command_message(command: Seq<char>) -> Seq<char> {
    "Template command not found: \\"@ + command
}

/// The index just past the first line of `cs` that starts at `start`.
fn line_end(cs: &[char], start: usize) -> (end: usize)
    requires
        start <= cs@.len(),
    ensures
        end == start + line_len(cs@.skip(start as int)),
        end <= cs@.len(),
{
    let n = cs.len();
    let mut j: usize = start;
    proof {
        assert(cs@.skip(start as int) =~= cs@.skip(j as int));
    }
    while j < n && cs[j] != '\n'
        invariant
            n == cs@.len(),
            start <= j <= n,
            line_len(cs@.skip(start as int)) == (j - start) + line_len(cs@.skip(j as int)),
        decreases n - j,
    {
        proof {
            assert(cs@.skip(j as int).drop_first() =~= cs@.skip(j + 1));
        }
        j += 1;
    }
    if j < n {
        j + 1
    } else {
        proof {
            assert(cs@.skip(j as int).len() == 0);
        }
        j
    }
}

/// Whether `s` starts with `prefix`.
pub fn starts_with(s: &[char], prefix: &[char]) -> (r: bool)
    ensures
        r == prefix@.is_prefix_of(s@),
{
    if prefix.len() > s.len() {
        return false;
    }
    let mut i: usize = 0;
    while i < prefix.len()
        invariant
            prefix@.len() <= s@.len(),
            i <= prefix@.len(),
            forall|k: int| 0 <= k < i ==> prefix@[k] == s@[k],
        decreases prefix@.len() - i,
    {
        if prefix[i] != s[i] {
            proof {
                assert(prefix@.subrange(0, prefix@.len() as int)[i as int] != s@.subrange(
                    0,
                    prefix@.len() as int,
                )[i as int]);
            }
            return false;
        }
        i += 1;
    }
    proof {
        assert(prefix@ =~= s@.subrange(0, prefix@.len() as int));
    }
    true
}

/// Replaces every line of `source` that starts with `\newcommand{\<command>}`
/// by the definition of `command` as `value`. Fails when no line does.
pub fn replace_latex_command(source: &str, command: &str, value: &str) -> (r: Result<
    String,
    InputError,
>)
    ensures
        r is Ok <==> has_marker_line(source@, marker_spec(command@)),
        r matches Ok(out) ==> out@ == replace_marker_lines(
            source@,
            marker_spec(command@),
            definition_line(command@, value@),
        ),
        r matches Err(e) ==> e.message@ == missing_command_message(command@),
{
    let ghost marker_s = marker_spec(command@);
    let ghost replacement_s = definition_line(command@, value@);
    let mut marker: Vec<char> = Vec::new();
    extend_str(&mut marker, "\\newcommand{\\");
    extend_str(&mut marker, command);
    extend_str(&mut marker, "}");
    let mut replacement: Vec<char> = Vec::new();
    extend_chars(&mut replacement, marker.as_slice());
    extend_str(&mut replacement, "{");
    extend_str(&mut replacement, value);
    extend_str(&mut replacement, "}\n");
    proof {
        assert(marker@ =~= marker_s);
        assert(replacement@ =~= replacement_s);
    }

    let cs = chars_of(source);
    let n = cs.len();
    let mut found = false;
    let mut output: Vec<char> = Vec::new();
    let mut start: usize = 0;
    proof {
        assert(cs@.skip(0) =~= cs@);
    }
    while start < n
        invariant
            n == cs@.len(),
            cs@ == source@,
            start <= n,
            marker@ == marker_s,
            replacement@ == replacement_s,
            replace_marker_lines(cs@, marker_s, replacement_s) == output@ + replace_marker_lines(
                cs@.skip(start as int),
                marker_s,
                replacement_s,
            ),
            has_marker_line(cs@, marker_s) == (found || has_marker_line(
                cs@.skip(start as int),
                marker_s,
            )),
        decreases n - start,
    {
        let end = line_end(cs.as_slice(), start);
        let ghost s = cs@.skip(start as int);
        proof {
            lemma_line_len(s);
        }
        let mut line: Vec<char> = Vec::new();
        let mut k: usize = start;
        while k < end
            invariant
                start <= k <= end <= n,
                n == cs@.len(),
                line@ == cs@.subrange(start as int, k as int),
            decreases end - k,
        {
            line.push(cs[k]);
            proof {
                assert(cs@.subrange(start as int, k + 1) =~= cs@.subrange(start as int, k as int).push(
                    cs@[k as int],
                ));
            }
            k += 1;
        }
        proof {
            assert(line@ =~= s.take(line_len(s) as int));
            assert(s.skip(line_len(s) as int) =~= cs@.skip(end as int));
        }
        let ghost out0 = output@;
        let trimmed = trim_start_chars(line.as_slice());
        if starts_with(trimmed.as_slice(), marker.as_slice()) {
            extend_chars(&mut output, replacement.as_slice());
            found = true;
        } else {
            extend_chars(&mut output, line.as_slice());
        }
        proof {
            assert(output@ + replace_marker_lines(cs@.skip(end as int), marker_s, replacement_s)
                =~= out0 + replace_marker_lines(s, marker_s, replacement_s));
        }
        start = end;
    }
    if !found {
        let mut message = String::new();
        message.append("Template command not found: \\");
        message.append(command);
        return Err(input_error(message));
    }
    Ok(string_from_chars(output.as_slice()))
}

/// One replacement step of the template customization.
pub open spec fn customize_step(
    report: Result<Seq<char>, Seq<char>>,
    command: Seq<char>,
    value: Seq<char>,
) -> Result<Seq<char>, Seq<char>> {
    match report {
        Err(message) => Err(message),
        Ok(text) => if has_marker_line(text, marker_spec(command)) {
            Ok(
                replace_marker_lines(
                    text,
                    marker_spec(command),
                    definition_line(command, escape_all(value)),
                ),
            )
        } else {
            Err(missing_command_message(command))
        },
    }
}

/// The template with the report type, title, author, program and academic
/// year defined, in that order, each escaped; or the message of the first
/// missing command.
pub open spec fn customize_spec(template: Seq<char>, metadata: ProjectMetadata) -> Result<
    Seq<char>,
    Seq<char>,
> {
    let r0 = Ok(template);
    let r1 = customize_step(r0, "reporttype"@, metadata.report_type@);
    let r2 = customize_step(r1, "reporttitle"@, metadata.report_title@);
    let r3 = customize_step(r2, "reportauthor"@, metadata.author@);
    let r4 = customize_step(r3, "reportprogram"@, metadata.program@);
    customize_step(r4, "academicyear"@, metadata.academic_year@)
}

fn customize_one(report: String, command: &str, value: &str) -> (r: Result<String, InputError>)
    ensures
        match customize_step(Ok(report@), command@, value@) {
            Ok(text) => r matches Ok(out) && out@ == text,
            Err(message) => r matches Err(e) && e.message@ == message,
        },
{
    let escaped = latex_escape(value);
    replace_latex_command(report.as_str(), command, escaped.as_str())
}

/// The report template with its metadata commands defined from `metadata`.
pub fn customize_report(template: &str, metadata: &ProjectMetadata) -> (r: Result<
    String,
    InputError,
>)
    ensures
        match customize_spec(template@, *metadata) {
            Ok(text) => r matches Ok(out) && out@ == text,
            Err(message) => r matches Err(e) && e.message@ == message,
        },
{
    let report = String::from_str(template);
    let report = customize_one(report, "reporttype", metadata.report_type)?;
    let report = customize_one(report, "reporttitle", metadata.report_title)?;
    let report = customize_one(report, "reportauthor", metadata.author)?;
    let report = customize_one(report, "reportprogram", metadata.program)?;
    customize_one(report, "academicyear", metadata.academic_year)
}

/// The text that follows the project name in the generated README.
pub open spec fn readme_tail() -> Seq<char> {
    "\n\nGenerated with the [Polytech LaTeX Template](https://github.com/axelfrache/polytech-latex-template).\n\n## Build\n\n```bash\nlatexmk -pdf rapport.tex\n```\n"@
}

/// The README of a generated project.
pub fn generated_readme(project_name: &str) -> (readme: String)
    ensures
        readme@ == "# "@ + project_name@ + readme_tail(),
{
    let mut readme = String::from_str("# ");
    readme.append(project_name);
    readme.append(
        "\n\nGenerated with the [Polytech LaTeX Template](https://github.com/axelfrache/polytech-latex-template).\n\n## Build\n\n```bash\nlatexmk -pdf rapport.tex\n```\n",
    );
    readme
}


// ---------------------------------------------------------------------------
// Laws
// ---------------------------------------------------------------------------

/// Escaping text piecewise gives the escape of the whole.
pub proof fn escape_concat(a: Seq<char>, b: Seq<char>)
    ensures
        escape_all(a + b) == escape_all(a) + escape_all(b),
    decreases b.len(),
{
    if b.len() == 0 {
        assert(a + b =~= a);
        assert(escape_all(a) + escape_all(b) =~= escape_all(a));
    } else {
        assert((a + b).drop_last() =~= a + b.drop_last());
        assert((a + b).last() == b.last());
        escape_concat(a, b.drop_last());
        assert(escape_all(a + b) =~= escape_all(a) + escape_all(b));
    }
}

/// Text without LaTeX special characters is left as it is.
pub proof fn escape_plain(s: Seq<char>)
    requires
        forall|i: int| 0 <= i < s.len() ==> !is_special(#[trigger] s[i]),
    ensures
        escape_all(s) == s,
    decreases s.len(),
{
    if s.len() > 0 {
        escape_plain(s.drop_last());
        assert(!is_special(s[s.len() - 1]));
        assert(s.drop_last().push(s.last()) =~= s);
    }
}

proof fn lemma_escape_char_no_newline(c: char)
    requires
        c != '\n',
    ensures
        !escape_char(c).contains('\n'),
{
    reveal_strlit("\\textbackslash{}");
    reveal_strlit("\\{");
    reveal_strlit("\\}");
    reveal_strlit("\\#");
    reveal_strlit("\\$");
    reveal_strlit("\\%");
    reveal_strlit("\\&");
    reveal_strlit("\\_");
    reveal_strlit("\\textasciicircum{}");
    reveal_strlit("\\textasciitilde{}");
    let e = escape_char(c);
    assert forall|i: int| 0 <= i < e.len() implies e[i] != '\n' by {}
}

/// Escaping adds no line break.
pub proof fn escape_keeps_lines(s: Seq<char>)
    requires
        !s.contains('\n'),
    ensures
        !escape_all(s).contains('\n'),
    decreases s.len(),
{
    if s.len() > 0 {
        assert(s.drop_last().contains('\n') ==> s.contains('\n')) by {
            if s.drop_last().contains('\n') {
                let i = choose|i: int| 0 <= i < s.drop_last().len() && s.drop_last()[i] == '\n';
                assert(s[i] == '\n');
            }
        }
        escape_keeps_lines(s.drop_last());
        assert(s[s.len() - 1] != '\n');
        lemma_escape_char_no_newline(s.last());
        let a = escape_all(s.drop_last());
        let b = escape_char(s.last());
        assert forall|i: int| 0 <= i < (a + b).len() implies (a + b)[i] != '\n' by {
            if i < a.len() {
                assert((a + b)[i] == a[i]);
            } else {
                assert((a + b)[i] == b[i - a.len()]);
            }
        }
    }
}

/// A complete line: it ends with its only line break.
pub open spec fn single_line(l: Seq<char>) -> bool {
    &&& l.len() > 0
    &&& l.last() == '\n'
    &&& forall|i: int| 0 <= i < l.len() - 1 ==> l[i] != '\n'
}

/// Whether `l` is one of the lines of `s`.
pub open spec fn has_line(s: Seq<char>, l: Seq<char>) -> bool
    decreases s.len(),
{
    if s.len() == 0 {
        false
    } else {
        proof {
            lemma_line_len(s);
        }
        s.take(line_len(s) as int) == l || has_line(s.skip(line_len(s) as int), l)
    }
}

/// A complete line at the front is the first line.
proof fn lemma_line_len_prefix(h: Seq<char>, x: Seq<char>)
    requires
        single_line(h),
    ensures
        line_len(h + x) == h.len(),
    decreases h.len(),
{
    if h.len() == 1 {
        assert((h + x)[0] == '\n');
    } else {
        assert((h + x)[0] == h[0]);
        assert((h + x).drop_first() =~= h.drop_first() + x);
        assert forall|i: int| 0 <= i < h.drop_first().len() - 1 implies h.drop_first()[i] != '\n' by {
            assert(h.drop_first()[i] == h[i + 1]);
        }
        lemma_line_len_prefix(h.drop_first(), x);
    }
}

proof fn lemma_has_line_prefix(h: Seq<char>, x: Seq<char>, l: Seq<char>)
    requires
        single_line(h),
    ensures
        has_line(h + x, l) == (h == l || has_line(x, l)),
{
    lemma_line_len_prefix(h, x);
    assert((h + x).take(h.len() as int) =~= h);
    assert((h + x).skip(h.len() as int) =~= x);
}

/// The first line is complete, or it is all of `s` and `s` has no line break.
proof fn lemma_first_line(s: Seq<char>)
    requires
        s.len() > 0,
    ensures
        single_line(s.take(line_len(s) as int)) || (line_len(s) == s.len() && !s.contains('\n')),
    decreases s.len(),
{
    lemma_line_len(s);
    if s[0] != '\n' {
        let t = s.drop_first();
        if t.len() == 0 {
            assert(!s.contains('\n')) by {
                if s.contains('\n') {
                    let i = choose|i: int| 0 <= i < s.len() && s[i] == '\n';
                    assert(i == 0);
                }
            }
        } else {
            lemma_first_line(t);
            lemma_line_len(t);
            let n = line_len(s) as int;
            if single_line(t.take(line_len(t) as int)) {
                let l = s.take(n);
                assert forall|i: int| 0 <= i < l.len() - 1 implies l[i] != '\n' by {
                    if i > 0 {
                        assert(l[i] == t.take(line_len(t) as int)[i - 1]);
                    }
                }
                assert(l.last() == t.take(line_len(t) as int).last());
            } else {
                assert(!s.contains('\n')) by {
                    if s.contains('\n') {
                        let i = choose|i: int| 0 <= i < s.len() && s[i] == '\n';
                        assert(i > 0);
                        assert(t.contains('\n')) by {
                            assert(t[i - 1] == '\n');
                        }
                    }
                }
            }
        }
    }
}

/// Replacing marker lines by a complete line puts that line in the text.
pub proof fn replacement_present(s: Seq<char>, marker: Seq<char>, replacement: Seq<char>)
    requires
        has_marker_line(s, marker),
        single_line(replacement),
    ensures
        has_line(replace_marker_lines(s, marker, replacement), replacement),
    decreases s.len(),
{
    lemma_line_len(s);
    let n = line_len(s) as int;
    let line = s.take(n);
    let rest = s.skip(n);
    let head = if is_marker_line(line, marker) { replacement } else { line };
    let tail = replace_marker_lines(rest, marker, replacement);
    assert(replace_marker_lines(s, marker, replacement) == head + tail);
    if is_marker_line(line, marker) {
        lemma_has_line_prefix(replacement, tail, replacement);
    } else {
        replacement_present(rest, marker, replacement);
        lemma_first_line(s);
        if single_line(line) {
            lemma_has_line_prefix(line, tail, replacement);
        } else {
            assert(rest.len() == 0);
        }
    }
}

/// Replacing the lines of one marker keeps every complete line that does not
/// start with that marker.
pub proof fn other_lines_kept(
    s: Seq<char>,
    marker: Seq<char>,
    replacement: Seq<char>,
    l: Seq<char>,
)
    requires
        has_line(s, l),
        single_line(l),
        !is_marker_line(l, marker),
        single_line(replacement),
    ensures
        has_line(replace_marker_lines(s, marker, replacement), l),
    decreases s.len(),
{
    lemma_line_len(s);
    let n = line_len(s) as int;
    let line = s.take(n);
    let rest = s.skip(n);
    let head = if is_marker_line(line, marker) { replacement } else { line };
    let tail = replace_marker_lines(rest, marker, replacement);
    assert(replace_marker_lines(s, marker, replacement) == head + tail);
    if line == l {
        lemma_has_line_prefix(l, tail, l);
    } else {
        other_lines_kept(rest, marker, replacement, l);
        lemma_first_line(s);
        if single_line(line) {
            lemma_has_line_prefix(head, tail, l);
        } else {
            assert(rest.len() == 0);
        }
    }
}

/// The prefix of every marker, `\newcommand{\`.
pub open spec fn marker_head() -> Seq<char> {
    "\\newcommand{\\"@
}

/// The marker of one command does not start a definition line of another,
/// when command names hold no `}`.
proof fn lemma_marker_distinct(a: Seq<char>, b: Seq<char>, rest: Seq<char>)
    requires
        !a.contains('}'),
        !b.contains('}'),
        marker_spec(b).is_prefix_of(marker_spec(a) + rest),
    ensures
        a == b,
{
    let p = marker_head();
    let h = p.len() as int;
    let x = marker_spec(a) + rest;
    let mb = marker_spec(b);
    assert(mb =~= p + b + "}"@);
    assert(marker_spec(a) =~= p + a + "}"@);
    reveal_strlit("}");
    assert(mb[h + b.len()] == '}');
    if b.len() < a.len() {
        assert(x[h + b.len()] == a[b.len() as int]);
        assert(mb[h + b.len()] == x[h + b.len()]);
        assert(a.contains('}'));
    } else if b.len() > a.len() {
        assert(x[h + a.len()] == '}');
        assert(mb[h + a.len()] == b[a.len() as int]);
        assert(mb[h + a.len()] == x[h + a.len()]);
        assert(b.contains('}'));
    } else {
        assert forall|i: int| 0 <= i < a.len() implies a[i] == b[i] by {
            assert(mb[h + i] == b[i]);
            assert(x[h + i] == a[i]);
            assert(mb[h + i] == x[h + i]);
        }
        assert(a =~= b);
    }
}

/// A definition line does not start with the marker of a different command.
proof fn lemma_definition_not_other_marker(a: Seq<char>, b: Seq<char>, value: Seq<char>)
    requires
        !a.contains('}'),
        !b.contains('}'),
        a != b,
    ensures
        !is_marker_line(definition_line(a, value), marker_spec(b)),
{
    let d = definition_line(a, value);
    reveal_strlit("\\newcommand{\\");
    assert(d[0] == '\\');
    assert(!crate::text::is_white_space('\\'));
    assert(trim_start_spec(d) == d);
    assert(d =~= marker_spec(a) + ("{"@ + value + "}\n"@));
    if marker_spec(b).is_prefix_of(d) {
        lemma_marker_distinct(a, b, "{"@ + value + "}\n"@);
    }
}

/// A definition line is a complete line when the command and the value hold
/// no line break.
proof fn lemma_definition_single_line(command: Seq<char>, value: Seq<char>)
    requires
        !command.contains('\n'),
        !value.contains('\n'),
    ensures
        single_line(definition_line(command, value)),
{
    reveal_strlit("\\newcommand{\\");
    reveal_strlit("}");
    reveal_strlit("{");
    reveal_strlit("}\n");
    let d = definition_line(command, value);
    let p = marker_head();
    assert(d =~= p + command + "}"@ + "{"@ + value + "}\n"@);
    assert forall|i: int| 0 <= i < d.len() - 1 implies d[i] != '\n' by {
        let k = i - p.len();
        if i < p.len() {
        } else if k < command.len() {
            assert(d[i] == command[k]);
        } else if k < command.len() + 2 {
        } else if k < command.len() + 2 + value.len() {
            assert(d[i] == value[k - command.len() - 2]);
        } else {
        }
    }
}

/// The five commands defined by the customization.
pub open spec fn report_commands() -> Seq<Seq<char>> {
    seq!["reporttype"@, "reporttitle"@, "reportauthor"@, "reportprogram"@, "academicyear"@]
}

proof fn lemma_report_commands()
    ensures
        forall|i: int| 0 <= i < 5 ==> !(#[trigger] report_commands()[i]).contains('}'),
        forall|i: int| 0 <= i < 5 ==> !(#[trigger] report_commands()[i]).contains('\n'),
        forall|i: int, j: int| 0 <= i < j < 5 ==> report_commands()[i] != report_commands()[j],
{
    reveal_strlit("reporttype");
    reveal_strlit("reporttitle");
    reveal_strlit("reportauthor");
    reveal_strlit("reportprogram");
    reveal_strlit("academicyear");
    let c = report_commands();
    assert forall|i: int| 0 <= i < 5 implies !(#[trigger] c[i]).contains('}') && !c[i].contains('\n') by {
        let s = c[i];
        assert forall|k: int| 0 <= k < s.len() implies s[k] != '}' && s[k] != '\n' by {
            assert('a' <= s[k] && s[k] <= 'z');
        }
    }
    assert forall|i: int, j: int| 0 <= i < j < 5 implies c[i] != c[j] by {
        if c[i].len() == c[j].len() {
            assert(c[i][0] != c[j][0]);
        }
    }
}

/// The value written for each of the five commands.
pub open spec fn report_values(m: ProjectMetadata) -> Seq<Seq<char>> {
    seq![m.report_type@, m.report_title@, m.author@, m.program@, m.academic_year@]
}

/// When the customization succeeds and no metadata value holds a line
/// break, the report holds the definition of each of the five commands as
/// its escaped value, each on a line of its own.
pub proof fn customized_report_defines_all(template: Seq<char>, metadata: ProjectMetadata)
    requires
        customize_spec(template, metadata) is Ok,
        forall|i: int| 0 <= i < 5 ==> !(#[trigger] report_values(metadata)[i]).contains('\n'),
    ensures
        forall|i: int|
            0 <= i < 5 ==> has_line(
                customize_spec(template, metadata)->Ok_0,
                #[trigger] definition_line(
                    report_commands()[i],
                    escape_all(report_values(metadata)[i]),
                ),
            ),
{
    lemma_report_commands();
    let cs = report_commands();
    let vs = report_values(metadata);
    let defs = Seq::new(5, |i: int| definition_line(cs[i], escape_all(vs[i])));
    assert forall|i: int| 0 <= i < 5 implies single_line(#[trigger] defs[i]) by {
        assert(!vs[i].contains('\n'));
        escape_keeps_lines(vs[i]);
        lemma_definition_single_line(cs[i], escape_all(vs[i]));
    }
    let r0: Result<Seq<char>, Seq<char>> = Ok(template);
    let r1 = customize_step(r0, cs[0], vs[0]);
    let r2 = customize_step(r1, cs[1], vs[1]);
    let r3 = customize_step(r2, cs[2], vs[2]);
    let r4 = customize_step(r3, cs[3], vs[3]);
    let r5 = customize_step(r4, cs[4], vs[4]);
    assert(r5 == customize_spec(template, metadata));
    let steps = seq![r0, r1, r2, r3, r4, r5];
    // Each step succeeds, puts its definition in, and keeps the earlier ones.
    assert forall|k: int| 0 <= k < 5 implies #[trigger] steps[k + 1] == customize_step(steps[k], cs[k], vs[k]) by {}
    assert forall|k: int| 0 <= k < 5 implies (#[trigger] steps[k + 1]) is Ok by {
        if k < 4 {
            assert(steps[5] is Ok);
        }
    }
    assert forall|j: int, k: int| 0 <= j < k <= 5 implies has_line(
        (#[trigger] steps[k])->Ok_0,
        #[trigger] defs[j],
    ) by {
        lemma_defined_after(steps, cs, vs, defs, j, k);
    }
    assert forall|i: int| 0 <= i < 5 implies has_line(
        customize_spec(template, metadata)->Ok_0,
        #[trigger] definition_line(report_commands()[i], escape_all(report_values(metadata)[i])),
    ) by {
        assert(has_line(steps[5]->Ok_0, defs[i]));
    }
}

proof fn lemma_defined_after(
    steps: Seq<Result<Seq<char>, Seq<char>>>,
    cs: Seq<Seq<char>>,
    vs: Seq<Seq<char>>,
    defs: Seq<Seq<char>>,
    j: int,
    k: int,
)
    requires
        steps.len() == 6,
        cs == report_commands(),
        defs.len() == 5,
        vs.len() == 5,
        0 <= j < k <= 5,
        forall|i: int| 0 <= i < 5 ==> #[trigger] defs[i] == definition_line(cs[i], escape_all(vs[i])),
        forall|i: int| 0 <= i < 5 ==> single_line(#[trigger] defs[i]),
        forall|i: int| 0 <= i < 5 ==> #[trigger] steps[i + 1] == customize_step(steps[i], cs[i], vs[i]),
        forall|i: int| 0 <= i < 5 ==> (#[trigger] steps[i + 1]) is Ok,
        forall|i: int| 0 <= i < 5 ==> !(#[trigger] report_commands()[i]).contains('}'),
        forall|a: int, b: int| 0 <= a < b < 5 ==> report_commands()[a] != report_commands()[b],
    ensures
        has_line(steps[k]->Ok_0, defs[j]),
    decreases k - j,
{
    let prev = steps[k - 1];
    assert(steps[(k - 1) + 1] == customize_step(steps[k - 1], cs[k - 1], vs[k - 1]));
    assert(steps[(k - 1) + 1] is Ok);
    assert((k - 1) + 1 == k);
    assert(steps[k] == customize_step(prev, cs[k - 1], vs[k - 1]));
    if k - 1 > 0 {
        assert(steps[(k - 2) + 1] is Ok);
    } else {
        assert(prev is Ok);
    }
    assert(prev is Ok);
    let text = prev->Ok_0;
    assert(has_marker_line(text, marker_spec(cs[k - 1])));
    if k == j + 1 {
        replacement_present(text, marker_spec(cs[j]), defs[j]);
    } else {
        lemma_defined_after(steps, cs, vs, defs, j, k - 1);
        lemma_definition_not_other_marker(cs[j], cs[k - 1], escape_all(vs[j]));
        other_lines_kept(text, marker_spec(cs[k - 1]), defs[k - 1], defs[j]);
    }
}

/// When the customization succeeds and no metadata value holds a line
/// break, every complete line of the template that defines none of the five
/// commands is still a line of the report.
pub proof fn customized_report_keeps_other_lines(
    template: Seq<char>,
    metadata: ProjectMetadata,
    line: Seq<char>,
)
    requires
        customize_spec(template, metadata) is Ok,
        forall|i: int| 0 <= i < 5 ==> !(#[trigger] report_values(metadata)[i]).contains('\n'),
        single_line(line),
        has_line(template, line),
        forall|i: int| 0 <= i < 5 ==> !is_marker_line(line, marker_spec(#[trigger] report_commands()[i])),
    ensures
        has_line(customize_spec(template, metadata)->Ok_0, line),
{
    lemma_report_commands();
    let cs = report_commands();
    let vs = report_values(metadata);
    let r0: Result<Seq<char>, Seq<char>> = Ok(template);
    let r1 = customize_step(r0, cs[0], vs[0]);
    let r2 = customize_step(r1, cs[1], vs[1]);
    let r3 = customize_step(r2, cs[2], vs[2]);
    let r4 = customize_step(r3, cs[3], vs[3]);
    let r5 = customize_step(r4, cs[4], vs[4]);
    assert(r5 == customize_spec(template, metadata));
    let steps = seq![r0, r1, r2, r3, r4, r5];
    assert forall|k: int| 0 <= k < 5 implies #[trigger] steps[k + 1] == customize_step(steps[k], cs[k], vs[k]) by {}
    assert forall|k: int| 0 <= k < 5 implies (#[trigger] steps[k + 1]) is Ok by {
        if k < 4 {
            assert(steps[5] is Ok);
        }
    }
    assert forall|k: int| 0 <= k <= 5 implies has_line((#[trigger] steps[k])->Ok_0, line) by {
        lemma_kept_through(steps, cs, vs, line, k);
    }
    assert(has_line(steps[5]->Ok_0, line));
}

proof fn lemma_kept_through(
    steps: Seq<Result<Seq<char>, Seq<char>>>,
    cs: Seq<Seq<char>>,
    vs: Seq<Seq<char>>,
    line: Seq<char>,
    k: int,
)
    requires
        steps.len() == 6,
        cs == report_commands(),
        vs.len() == 5,
        0 <= k <= 5,
        steps[0] == Ok::<Seq<char>, Seq<char>>(steps[0]->Ok_0),
        has_line(steps[0]->Ok_0, line),
        single_line(line),
        forall|i: int| 0 <= i < 5 ==> !vs[i].contains('\n'),
        forall|i: int| 0 <= i < 5 ==> !(#[trigger] report_commands()[i]).contains('\n'),
        forall|i: int| 0 <= i < 5 ==> !is_marker_line(line, marker_spec(#[trigger] report_commands()[i])),
        forall|i: int| 0 <= i < 5 ==> #[trigger] steps[i + 1] == customize_step(steps[i], cs[i], vs[i]),
        forall|i: int| 0 <= i < 5 ==> (#[trigger] steps[i + 1]) is Ok,
    ensures
        has_line(steps[k]->Ok_0, line),
    decreases k,
{
    if k > 0 {
        lemma_kept_through(steps, cs, vs, line, k - 1);
        let prev = steps[k - 1];
        assert(steps[(k - 1) + 1] == customize_step(steps[k - 1], cs[k - 1], vs[k - 1]));
        assert(steps[(k - 1) + 1] is Ok);
        assert((k - 1) + 1 == k);
        if k - 1 > 0 {
            assert(steps[(k - 2) + 1] is Ok);
        }
        let text = prev->Ok_0;
        assert(has_marker_line(text, marker_spec(cs[k - 1])));
        escape_keeps_lines(vs[k - 1]);
        assert(!report_commands()[k - 1].contains('\n'));
        lemma_definition_single_line(cs[k - 1], escape_all(vs[k - 1]));
        assert(!is_marker_line(line, marker_spec(report_commands()[k - 1])));
        other_lines_kept(
            text,
            marker_spec(cs[k - 1]),
            definition_line(cs[k - 1], escape_all(vs[k - 1])),
            line,
        );
    }
}

proof fn lemma_has_marker_prefix(h: Seq<char>, x: Seq<char>, marker: Seq<char>)
    requires
        single_line(h),
    ensures
        has_marker_line(h + x, marker) == (is_marker_line(h, marker) || has_marker_line(x, marker)),
{
    lemma_line_len_prefix(h, x);
    assert((h + x).take(h.len() as int) =~= h);
    assert((h + x).skip(h.len() as int) =~= x);
}

/// A text without line break is one line.
proof fn lemma_unbroken_line(l: Seq<char>, marker: Seq<char>)
    requires
        l.len() > 0,
        !single_line(l.take(line_len(l) as int)),
    ensures
        line_len(l) == l.len(),
        l.take(line_len(l) as int) == l,
        has_marker_line(l, marker) == is_marker_line(l, marker),
{
    lemma_first_line(l);
    assert(l.take(l.len() as int) =~= l);
    assert(l.skip(l.len() as int) =~= Seq::<char>::empty());
    assert(!has_marker_line(Seq::<char>::empty(), marker));
}

/// No line starts with the markers of two different commands.
proof fn lemma_markers_exclusive(l: Seq<char>, a: Seq<char>, b: Seq<char>)
    requires
        !a.contains('}'),
        !b.contains('}'),
        is_marker_line(l, marker_spec(a)),
        is_marker_line(l, marker_spec(b)),
    ensures
        a == b,
{
    let t = trim_start_spec(l);
    let ma = marker_spec(a);
    let rest = t.skip(ma.len() as int);
    assert(t =~= ma + rest);
    lemma_marker_distinct(a, b, rest);
}

/// Replacing the lines of command `b` keeps a line that starts with the
/// marker of another command `a`.
proof fn lemma_marker_kept(s: Seq<char>, a: Seq<char>, b: Seq<char>, replacement: Seq<char>)
    requires
        !a.contains('}'),
        !b.contains('}'),
        a != b,
        has_marker_line(s, marker_spec(a)),
        single_line(replacement),
    ensures
        has_marker_line(replace_marker_lines(s, marker_spec(b), replacement), marker_spec(a)),
    decreases s.len(),
{
    lemma_line_len(s);
    let ma = marker_spec(a);
    let mb = marker_spec(b);
    let n = line_len(s) as int;
    let line = s.take(n);
    let rest = s.skip(n);
    let head = if is_marker_line(line, mb) { replacement } else { line };
    let tail = replace_marker_lines(rest, mb, replacement);
    assert(replace_marker_lines(s, mb, replacement) == head + tail);
    lemma_first_line(s);
    if is_marker_line(line, ma) {
        if is_marker_line(line, mb) {
            lemma_markers_exclusive(line, a, b);
        }
        assert(head == line);
        if single_line(line) {
            lemma_has_marker_prefix(line, tail, ma);
        } else {
            assert(rest.len() == 0);
            assert(tail =~= Seq::<char>::empty());
            lemma_unbroken_line(s, ma);
            assert(head + tail =~= s);
        }
        assert(has_marker_line(head + tail, ma));
    } else {
        assert(has_marker_line(rest, ma));
        if single_line(line) {
            lemma_marker_kept(rest, a, b, replacement);
            lemma_has_marker_prefix(head, tail, ma);
        } else {
            assert(rest.len() == 0);
        }
        assert(has_marker_line(head + tail, ma));
    }
}

/// A line that starts with the marker of command `a` after the lines of
/// another command were replaced was already in the text.
proof fn lemma_marker_origin(s: Seq<char>, a: Seq<char>, b: Seq<char>, replacement: Seq<char>)
    requires
        single_line(replacement),
        !is_marker_line(replacement, marker_spec(a)),
        has_marker_line(replace_marker_lines(s, marker_spec(b), replacement), marker_spec(a)),
    ensures
        has_marker_line(s, marker_spec(a)),
    decreases s.len(),
{
    let ma = marker_spec(a);
    let mb = marker_spec(b);
    if s.len() == 0 {
        assert(replace_marker_lines(s, mb, replacement).len() == 0);
    } else {
        lemma_line_len(s);
        let n = line_len(s) as int;
        let line = s.take(n);
        let rest = s.skip(n);
        let head = if is_marker_line(line, mb) { replacement } else { line };
        let tail = replace_marker_lines(rest, mb, replacement);
        assert(replace_marker_lines(s, mb, replacement) == head + tail);
        lemma_first_line(s);
        if single_line(line) {
            lemma_has_marker_prefix(head, tail, ma);
            if !is_marker_line(head, ma) {
                lemma_marker_origin(rest, a, b, replacement);
            }
        } else {
            assert(rest.len() == 0);
            assert(tail.len() == 0);
            assert(head + tail =~= head);
            lemma_unbroken_line(s, ma);
            if is_marker_line(line, mb) {
                lemma_has_marker_prefix(replacement, Seq::empty(), ma);
                assert(replacement + Seq::<char>::empty() =~= replacement);
            } else {
                assert(head =~= s);
            }
        }
    }
}

/// When no metadata value holds a line break, the customization succeeds
/// exactly when the template has a line starting with the marker of each of
/// the five commands.
pub proof fn customization_succeeds_iff_all_defined(template: Seq<char>, metadata: ProjectMetadata)
    requires
        forall|i: int| 0 <= i < 5 ==> !(#[trigger] report_values(metadata)[i]).contains('\n'),
    ensures
        customize_spec(template, metadata) is Ok <==> forall|i: int|
            0 <= i < 5 ==> has_marker_line(template, marker_spec(#[trigger] report_commands()[i])),
{
    lemma_report_commands();
    let cs = report_commands();
    let vs = report_values(metadata);
    let defs = Seq::new(5, |i: int| definition_line(cs[i], escape_all(vs[i])));
    assert forall|i: int| 0 <= i < 5 implies single_line(#[trigger] defs[i]) by {
        assert(!vs[i].contains('\n'));
        escape_keeps_lines(vs[i]);
        lemma_definition_single_line(cs[i], escape_all(vs[i]));
    }
    let r0: Result<Seq<char>, Seq<char>> = Ok(template);
    let r1 = customize_step(r0, cs[0], vs[0]);
    let r2 = customize_step(r1, cs[1], vs[1]);
    let r3 = customize_step(r2, cs[2], vs[2]);
    let r4 = customize_step(r3, cs[3], vs[3]);
    let r5 = customize_step(r4, cs[4], vs[4]);
    assert(r5 == customize_spec(template, metadata));
    let steps = seq![r0, r1, r2, r3, r4, r5];
    assert forall|k: int| 0 <= k < 5 implies #[trigger] steps[k + 1] == customize_step(steps[k], cs[k], vs[k]) by {}
    if r5 is Ok {
        assert forall|k: int| 0 <= k < 5 implies (#[trigger] steps[k + 1]) is Ok by {
            if k < 4 {
                assert(steps[5] is Ok);
            }
        }
        assert forall|i: int| 0 <= i < 5 implies has_marker_line(
            template,
            marker_spec(#[trigger] report_commands()[i]),
        ) by {
            assert(steps[i + 1] == customize_step(steps[i], cs[i], vs[i]));
            assert(steps[i + 1] is Ok);
            if i > 0 {
                assert(steps[(i - 1) + 1] is Ok);
            }
            assert(steps[i] is Ok);
            assert(has_marker_line(steps[i]->Ok_0, marker_spec(cs[i])));
            lemma_marker_back_to_start(steps, cs, vs, defs, i, i);
        }
    } else {
        if forall|i: int|
            0 <= i < 5 ==> has_marker_line(template, marker_spec(#[trigger] report_commands()[i])) {
            lemma_all_steps_succeed(steps, cs, vs, defs, 5);
        }
    }
}

proof fn lemma_marker_back_to_start(
    steps: Seq<Result<Seq<char>, Seq<char>>>,
    cs: Seq<Seq<char>>,
    vs: Seq<Seq<char>>,
    defs: Seq<Seq<char>>,
    i: int,
    k: int,
)
    requires
        steps.len() == 6,
        cs == report_commands(),
        defs.len() == 5,
        vs.len() == 5,
        0 <= k <= i < 5,
        steps[0] is Ok,
        has_marker_line(steps[k]->Ok_0, marker_spec(cs[i])),
        forall|j: int| 0 <= j < 5 ==> #[trigger] defs[j] == definition_line(cs[j], escape_all(vs[j])),
        forall|j: int| 0 <= j < 5 ==> single_line(#[trigger] defs[j]),
        forall|j: int| 0 <= j < 5 ==> #[trigger] steps[j + 1] == customize_step(steps[j], cs[j], vs[j]),
        forall|j: int| 0 <= j < 5 ==> (#[trigger] steps[j + 1]) is Ok,
        forall|j: int| 0 <= j < 5 ==> !(#[trigger] report_commands()[j]).contains('}'),
        forall|a: int, b: int| 0 <= a < b < 5 ==> report_commands()[a] != report_commands()[b],
    ensures
        has_marker_line(steps[0]->Ok_0, marker_spec(cs[i])),
    decreases k,
{
    if k > 0 {
        let j = k - 1;
        assert(steps[j + 1] == customize_step(steps[j], cs[j], vs[j]));
        assert(steps[j + 1] is Ok);
        if j > 0 {
            assert(steps[(j - 1) + 1] is Ok);
        }
        assert(steps[j] is Ok);
        lemma_definition_not_other_marker(cs[j], cs[i], escape_all(vs[j]));
        lemma_marker_origin(steps[j]->Ok_0, cs[i], cs[j], defs[j]);
        lemma_marker_back_to_start(steps, cs, vs, defs, i, j);
    }
}

/// When the template has all five markers, every step succeeds.
proof fn lemma_all_steps_succeed(
    steps: Seq<Result<Seq<char>, Seq<char>>>,
    cs: Seq<Seq<char>>,
    vs: Seq<Seq<char>>,
    defs: Seq<Seq<char>>,
    k: int,
)
    requires
        steps.len() == 6,
        cs == report_commands(),
        defs.len() == 5,
        vs.len() == 5,
        0 <= k <= 5,
        steps[0] is Ok,
        forall|i: int| 0 <= i < 5 ==> has_marker_line(steps[0]->Ok_0, marker_spec(#[trigger] report_commands()[i])),
        forall|j: int| 0 <= j < 5 ==> #[trigger] defs[j] == definition_line(cs[j], escape_all(vs[j])),
        forall|j: int| 0 <= j < 5 ==> single_line(#[trigger] defs[j]),
        forall|j: int| 0 <= j < 5 ==> #[trigger] steps[j + 1] == customize_step(steps[j], cs[j], vs[j]),
        forall|j: int| 0 <= j < 5 ==> !(#[trigger] report_commands()[j]).contains('}'),
        forall|a: int, b: int| 0 <= a < b < 5 ==> report_commands()[a] != report_commands()[b],
    ensures
        steps[k] is Ok,
        forall|i: int| k <= i < 5 ==> has_marker_line(steps[k]->Ok_0, marker_spec(#[trigger] report_commands()[i])),
    decreases k,
{
    if k > 0 {
        let j = k - 1;
        lemma_all_steps_succeed(steps, cs, vs, defs, j);
        assert(has_marker_line(steps[j]->Ok_0, marker_spec(report_commands()[j])));
        assert(steps[j + 1] == customize_step(steps[j], cs[j], vs[j]));
        assert forall|i: int| k <= i < 5 implies has_marker_line(
            steps[k]->Ok_0,
            marker_spec(#[trigger] report_commands()[i]),
        ) by {
            assert(has_marker_line(steps[j]->Ok_0, marker_spec(report_commands()[i])));
            lemma_marker_kept(steps[j]->Ok_0, cs[i], cs[j], defs[j]);
        }
    }
}


// ---------------------------------------------------------------------------
// Replacement line by line
// ---------------------------------------------------------------------------

/// The lines of `s`, each with its line break (the last one may lack it).
pub open spec fn lines_of(s: Seq<char>) -> Seq<Seq<char>>
    decreases s.len(),
{
    if s.len() == 0 {
        Seq::empty()
    } else {
        proof {
            lemma_line_len(s);
        }
        seq![s.take(line_len(s) as int)] + lines_of(s.skip(line_len(s) as int))
    }
}

/// `line`, or `replacement` when `line` starts with `marker`.
pub open spec fn replace_line(line: Seq<char>, marker: Seq<char>, replacement: Seq<char>) -> Seq<
    char,
> {
    if is_marker_line(line, marker) {
        replacement
    } else {
        line
    }
}

proof fn lemma_lines_of_prefix(h: Seq<char>, x: Seq<char>)
    requires
        single_line(h),
    ensures
        lines_of(h + x) == seq![h] + lines_of(x),
{
    lemma_line_len_prefix(h, x);
    assert((h + x).take(h.len() as int) =~= h);
    assert((h + x).skip(h.len() as int) =~= x);
}

proof fn lemma_replace_prefix(h: Seq<char>, x: Seq<char>, marker: Seq<char>, replacement: Seq<char>)
    requires
        single_line(h),
    ensures
        replace_marker_lines(h + x, marker, replacement) == replace_line(h, marker, replacement)
            + replace_marker_lines(x, marker, replacement),
{
    lemma_line_len_prefix(h, x);
    assert((h + x).take(h.len() as int) =~= h);
    assert((h + x).skip(h.len() as int) =~= x);
}

/// Replacing the lines that start with `marker` by a complete line keeps the
/// number of lines and their order: each line of the result is the line of
/// `s` at the same position, or `replacement` where that line starts with
/// `marker`.
pub proof fn replacement_maps_lines(s: Seq<char>, marker: Seq<char>, replacement: Seq<char>)
    requires
        single_line(replacement),
    ensures
        lines_of(replace_marker_lines(s, marker, replacement)) == lines_of(s).map_values(
            |l: Seq<char>| replace_line(l, marker, replacement),
        ),
        lines_of(replace_marker_lines(s, marker, replacement)).len() == lines_of(s).len(),
        forall|i: int|
            0 <= i < lines_of(s).len() && !is_marker_line(#[trigger] lines_of(s)[i], marker)
                ==> lines_of(replace_marker_lines(s, marker, replacement))[i] == lines_of(s)[i],
    decreases s.len(),
{
    let f = |l: Seq<char>| replace_line(l, marker, replacement);
    if s.len() == 0 {
        assert(lines_of(s).map_values(f) =~= Seq::<Seq<char>>::empty());
    } else {
        lemma_line_len(s);
        let n = line_len(s) as int;
        let line = s.take(n);
        let rest = s.skip(n);
        let head = replace_line(line, marker, replacement);
        let tail = replace_marker_lines(rest, marker, replacement);
        assert(replace_marker_lines(s, marker, replacement) == head + tail);
        assert(lines_of(s) == seq![line] + lines_of(rest));
        replacement_maps_lines(rest, marker, replacement);
        lemma_first_line(s);
        if single_line(line) {
            lemma_lines_of_prefix(head, tail);
        } else {
            assert(rest.len() == 0);
            assert(tail =~= Seq::<char>::empty());
            assert(head + tail =~= head);
            if is_marker_line(line, marker) {
                lemma_lines_of_prefix(replacement, Seq::<char>::empty());
                assert(replacement + Seq::<char>::empty() =~= replacement);
            } else {
                assert(line =~= s);
                assert(lines_of(Seq::<char>::empty()) =~= Seq::<Seq<char>>::empty());
            }
        }
        assert(lines_of(replace_marker_lines(s, marker, replacement)) =~= lines_of(s).map_values(f));
    }
}

/// Replacing the lines that start with `marker` by a complete line that
/// itself starts with `marker` a second time changes nothing.
pub proof fn replacement_is_idempotent(s: Seq<char>, marker: Seq<char>, replacement: Seq<char>)
    requires
        single_line(replacement),
        is_marker_line(replacement, marker),
    ensures
        replace_marker_lines(replace_marker_lines(s, marker, replacement), marker, replacement)
            == replace_marker_lines(s, marker, replacement),
    decreases s.len(),
{
    if s.len() > 0 {
        lemma_line_len(s);
        let n = line_len(s) as int;
        let line = s.take(n);
        let rest = s.skip(n);
        let head = replace_line(line, marker, replacement);
        let tail = replace_marker_lines(rest, marker, replacement);
        assert(replace_marker_lines(s, marker, replacement) == head + tail);
        replacement_is_idempotent(rest, marker, replacement);
        lemma_first_line(s);
        if single_line(line) {
            lemma_replace_prefix(head, tail, marker, replacement);
        } else {
            assert(rest.len() == 0);
            assert(tail =~= Seq::<char>::empty());
            assert(head + tail =~= head);
            if is_marker_line(line, marker) {
                lemma_replace_prefix(replacement, Seq::<char>::empty(), marker, replacement);
                assert(replacement + Seq::<char>::empty() =~= replacement);
            } else {
                lemma_unbroken_line(s, marker);
                assert(s.skip(s.len() as int) =~= Seq::<char>::empty());
                assert(line =~= s);
            }
        }
    }
}

/// A line of `s` that starts with `marker` makes `s` have a marker line.
proof fn lemma_has_line_marker(s: Seq<char>, l: Seq<char>, marker: Seq<char>)
    requires
        has_line(s, l),
        is_marker_line(l, marker),
    ensures
        has_marker_line(s, marker),
    decreases s.len(),
{
    lemma_line_len(s);
    if s.take(line_len(s) as int) != l {
        lemma_has_line_marker(s.skip(line_len(s) as int), l, marker);
    }
}

/// A definition line starts with the marker of its command.
proof fn lemma_definition_is_marker_line(command: Seq<char>, value: Seq<char>)
    ensures
        is_marker_line(definition_line(command, value), marker_spec(command)),
{
    let d = definition_line(command, value);
    reveal_strlit("\\newcommand{\\");
    assert(d[0] == '\\');
    assert(!crate::text::is_white_space('\\'));
    assert(trim_start_spec(d) == d);
    assert(d =~= marker_spec(command) + ("{"@ + value + "}\n"@));
}

/// No line break before the last character.
spec fn unbroken_until_last(l: Seq<char>) -> bool {
    forall|i: int| 0 <= i < l.len() - 1 ==> l[i] != '\n'
}

proof fn lemma_trim_start_unbroken(l: Seq<char>)
    requires
        unbroken_until_last(l),
    ensures
        unbroken_until_last(trim_start_spec(l)),
    decreases l.len(),
{
    if l.len() > 0 && crate::text::is_white_space(l[0]) {
        let t = l.drop_first();
        assert forall|i: int| 0 <= i < t.len() - 1 implies t[i] != '\n' by {
            assert(t[i] == l[i + 1]);
        }
        lemma_trim_start_unbroken(t);
    }
}

/// A line that starts with the marker of `command` shows that `command`
/// holds no line break.
proof fn lemma_marker_line_unbroken_command(l: Seq<char>, command: Seq<char>)
    requires
        unbroken_until_last(l),
        is_marker_line(l, marker_spec(command)),
    ensures
        !command.contains('\n'),
{
    let t = trim_start_spec(l);
    let m = marker_spec(command);
    let p = marker_head();
    lemma_trim_start_unbroken(l);
    reveal_strlit("}");
    assert(m =~= p + command + "}"@);
    if command.contains('\n') {
        let k = choose|k: int| 0 <= k < command.len() && command[k] == '\n';
        let j = p.len() + k;
        assert(m[j] == command[k]);
        assert(j < m.len() - 1);
        assert(t[j] == m[j]);
    }
}

/// Whenever some line starts with the marker of `command`, which every
/// successful `replace_latex_command` requires, `command` holds no line
/// break.
pub proof fn marker_line_has_unbroken_command(s: Seq<char>, command: Seq<char>)
    requires
        has_marker_line(s, marker_spec(command)),
    ensures
        !command.contains('\n'),
    decreases s.len(),
{
    lemma_line_len(s);
    let line = s.take(line_len(s) as int);
    if is_marker_line(line, marker_spec(command)) {
        lemma_first_line(s);
        if !single_line(line) {
            assert forall|i: int| 0 <= i < line.len() - 1 implies line[i] != '\n' by {
                if line[i] == '\n' {
                    assert(s[i] == '\n');
                }
            }
        }
        lemma_marker_line_unbroken_command(line, command);
    } else {
        marker_line_has_unbroken_command(s.skip(line_len(s) as int), command);
    }
}

/// Defining a command a second time with the same value, which holds no
/// line break, succeeds and changes nothing: after a successful
/// `replace_latex_command`, calling it again on its output gives the output.
pub proof fn redefinition_changes_nothing(s: Seq<char>, command: Seq<char>, value: Seq<char>)
    requires
        has_marker_line(s, marker_spec(command)),
        !value.contains('\n'),
    ensures
        has_marker_line(
            replace_marker_lines(s, marker_spec(command), definition_line(command, value)),
            marker_spec(command),
        ),
        replace_marker_lines(
            replace_marker_lines(s, marker_spec(command), definition_line(command, value)),
            marker_spec(command),
            definition_line(command, value),
        ) == replace_marker_lines(s, marker_spec(command), definition_line(command, value)),
{
    let m = marker_spec(command);
    let d = definition_line(command, value);
    marker_line_has_unbroken_command(s, command);
    lemma_definition_single_line(command, value);
    lemma_definition_is_marker_line(command, value);
    replacement_present(s, m, d);
    lemma_has_line_marker(replace_marker_lines(s, m, d), d, m);
    replacement_is_idempotent(s, m, d);
}

} // verus!
