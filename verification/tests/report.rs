use latex_generator::latex::{
    customize_report, generated_readme, latex_escape, replace_latex_command, ProjectMetadata,
};
use latex_generator::slug::slugify;

/// A report template of the shape the generator customizes: one
/// `\newcommand` line per metadata value, with French placeholder values.
const REPORT_TEMPLATE: &str = "\\documentclass[11pt,a4paper]{report}\n\
\\usepackage[utf8]{inputenc}\n\
\n\
% Document metadata\n\
\\newcommand{\\reporttype}{Rapport de projet}\n\
\\newcommand{\\reporttitle}{Titre du projet}\n\
\\newcommand{\\reportauthor}{Pr\u{e9}nom NOM}\n\
\\newcommand{\\reportprogram}{Fili\u{e8}re}\n\
\\newcommand{\\academicyear}{20XX--20XX}\n\
\n\
\\begin{document}\n\
\\input{other/titlepage}\n\
\\tableofcontents\n\
\\include{sections/section}\n\
\\end{document}\n";

#[test]
fn slugifies_project_names() {
    assert_eq!(slugify("My LaTeX Project"), "my-latex-project");
    assert_eq!(slugify("  Project___2026  "), "project-2026");
}

#[test]
fn escapes_latex_metadata() {
    assert_eq!(latex_escape("R&D_2026"), "R\\&D\\_2026");
}

#[test]
fn customizes_all_metadata() {
    let metadata = ProjectMetadata {
        project_name: "sample",
        report_title: "Custom Title",
        report_type: "Internship Report",
        author: "Ada Lovelace",
        program: "Computer Science",
        academic_year: "2026--2027",
    };

    let report = match customize_report(REPORT_TEMPLATE, &metadata) {
        Ok(report) => report,
        Err(error) => panic!("{}", error.message),
    };
    assert!(report.contains("\\newcommand{\\reporttitle}{Custom Title}"));
    assert!(report.contains("\\newcommand{\\reportauthor}{Ada Lovelace}"));
    assert!(!report.contains("Titre du projet"));
}

#[test]
fn escapes_every_special_character() {
    assert_eq!(
        latex_escape("\\{}#$%&_^~"),
        "\\textbackslash{}\\{\\}\\#\\$\\%\\&\\_\\textasciicircum{}\\textasciitilde{}"
    );
    assert_eq!(latex_escape("plain text 123"), "plain text 123");
    assert_eq!(latex_escape(""), "");
}

#[test]
fn escaping_is_piecewise() {
    let (a, b) = ("50% of R&D", "_x^2~");
    assert_eq!(
        latex_escape(&format!("{a}{b}")),
        format!("{}{}", latex_escape(a), latex_escape(b))
    );
}

#[test]
fn replaces_every_definition_line() {
    let source = "a\n  \\newcommand{\\x}{old}\nb\n\\newcommand{\\x}{again}";
    let replaced = replace_latex_command(source, "x", "new").ok().unwrap();
    assert_eq!(replaced, "a\n\\newcommand{\\x}{new}\nb\n\\newcommand{\\x}{new}\n");
}

#[test]
fn keeps_lines_of_other_commands() {
    let source = "\\newcommand{\\xy}{1}\n\\newcommand{\\x}{2}\n";
    let replaced = replace_latex_command(source, "x", "3").ok().unwrap();
    assert_eq!(replaced, "\\newcommand{\\xy}{1}\n\\newcommand{\\x}{3}\n");
}

#[test]
fn reports_a_missing_command() {
    match replace_latex_command("no commands here\n", "missing", "v") {
        Ok(_) => panic!("the command is absent"),
        Err(error) => assert_eq!(error.message, "Template command not found: \\missing"),
    }
}

#[test]
fn customization_stops_at_the_first_missing_command() {
    let template = "\\newcommand{\\reporttype}{a}\n\\newcommand{\\reporttitle}{b}\n";
    let metadata = ProjectMetadata {
        project_name: "p",
        report_title: "t",
        report_type: "y",
        author: "a",
        program: "g",
        academic_year: "2026",
    };
    match customize_report(template, &metadata) {
        Ok(_) => panic!("the template lacks commands"),
        Err(error) => assert_eq!(error.message, "Template command not found: \\reportauthor"),
    }
}

#[test]
fn customization_writes_escaped_definitions() {
    let metadata = ProjectMetadata {
        project_name: "sample",
        report_title: "R&D {draft}",
        report_type: "100% done",
        author: "A_B",
        program: "C#",
        academic_year: "2026~2027",
    };
    let report = customize_report(REPORT_TEMPLATE, &metadata).ok().unwrap();
    for line in [
        "\\newcommand{\\reporttype}{100\\% done}\n",
        "\\newcommand{\\reporttitle}{R\\&D \\{draft\\}}\n",
        "\\newcommand{\\reportauthor}{A\\_B}\n",
        "\\newcommand{\\reportprogram}{C\\#}\n",
        "\\newcommand{\\academicyear}{2026\\textasciitilde{}2027}\n",
    ] {
        assert!(report.lines().any(|l| format!("{l}\n") == line), "missing {line}");
    }
    assert!(report.starts_with("\\documentclass[11pt,a4paper]{report}\n"));
    assert!(report.ends_with("\\end{document}\n"));
}

#[test]
fn writes_the_readme() {
    let readme = generated_readme("sample-report");
    assert!(readme.starts_with("# sample-report\n\nGenerated with the [Polytech LaTeX Template]"));
    assert!(readme.ends_with("```bash\nlatexmk -pdf rapport.tex\n```\n"));
}

#[test]
fn input_errors_carry_their_message() {
    let error = latex_generator::latex::input_error(String::from("Folder name is required."));
    assert_eq!(error.message, "Folder name is required.");
}

#[test]
fn redefining_with_the_same_value_changes_nothing() {
    let once = replace_latex_command(REPORT_TEMPLATE, "reporttitle", "Custom Title").ok().unwrap();
    let twice = replace_latex_command(&once, "reporttitle", "Custom Title").ok().unwrap();
    assert_eq!(twice, once);
    assert_eq!(once.lines().count(), REPORT_TEMPLATE.lines().count());
    for (before, after) in REPORT_TEMPLATE.lines().zip(once.lines()) {
        if !before.trim_start().starts_with("\\newcommand{\\reporttitle}") {
            assert_eq!(before, after);
        }
    }
}
