use latex_generator::form::{
    check_destination, git_failure_message, terminal_fits, App, AppAction, GenerationOutcome, KeyCode, KeyInput,
    Tone, ACADEMIC_YEAR, FOLDER_NAME, GIT_REMOTE, INITIAL_COMMIT, PARENT_DIRECTORY, PROJECT_NAME,
    REPORT_TITLE,
};
use latex_generator::picker::{DirectoryPicker, OpenOutcome};

fn key(code: KeyCode) -> KeyInput {
    KeyInput { code, control: false }
}

fn control(code: KeyCode) -> KeyInput {
    KeyInput { code, control: true }
}

fn value(app: &App, index: usize) -> &str {
    app.fields[index].value.as_str()
}

fn type_text(app: &mut App, text: &str) {
    for c in text.chars() {
        assert!(matches!(app.handle_key(key(KeyCode::Char(c))), AppAction::Nothing));
    }
}

#[test]
fn starts_with_defaults() {
    let app = App::new("/home/ada".to_string());
    let values: Vec<&str> = (0..10).map(|i| value(&app, i)).collect();
    assert_eq!(
        values,
        vec![
            "my-latex-project",
            "My Project",
            "Project Report",
            "First LAST",
            "Program",
            "20XX--20XX",
            "/home/ada",
            "my-latex-project",
            "",
            "",
        ]
    );
    assert_eq!(app.cursors, vec![16, 10, 14, 10, 7, 10, 9, 16, 0, 0]);
    assert_eq!(app.fields[GIT_REMOTE].label, "Git remote (optional)");
    assert_eq!(app.fields[ACADEMIC_YEAR].placeholder, "2026--2027");
    assert_eq!(app.active, PROJECT_NAME);
    assert!(app.create_initial_commit && app.folder_follows_name && !app.quit);
}

#[test]
fn folder_name_follows_the_project_name() {
    let mut app = App::new("/".to_string());
    type_text(&mut app, " \u{c9}t\u{e9}");
    assert_eq!(value(&app, PROJECT_NAME), "my-latex-project \u{c9}t\u{e9}");
    assert_eq!(app.cursors[PROJECT_NAME], 16 + 1 + 2 + 1 + 2);
    assert_eq!(value(&app, FOLDER_NAME), "my-latex-project-\u{e9}t\u{e9}");
    assert_eq!(app.cursors[FOLDER_NAME], value(&app, FOLDER_NAME).len());
}

#[test]
fn editing_the_folder_name_stops_following() {
    let mut app = App::new("/".to_string());
    app.active = FOLDER_NAME;
    type_text(&mut app, "x");
    assert!(!app.folder_follows_name);
    app.active = PROJECT_NAME;
    type_text(&mut app, "y");
    assert_eq!(value(&app, FOLDER_NAME), "my-latex-projectx");
}

#[test]
fn backspace_undoes_typing() {
    let mut app = App::new("/".to_string());
    app.active = REPORT_TITLE;
    app.handle_key(key(KeyCode::Left));
    app.handle_key(key(KeyCode::Char('\u{20ac}')));
    assert_eq!(value(&app, REPORT_TITLE), "My Projec\u{20ac}t");
    assert_eq!(app.cursors[REPORT_TITLE], 12);
    app.handle_key(key(KeyCode::Backspace));
    assert_eq!(value(&app, REPORT_TITLE), "My Project");
    assert_eq!(app.cursors[REPORT_TITLE], 9);
}

#[test]
fn ignores_line_breaks() {
    let mut app = App::new("/".to_string());
    app.handle_key(key(KeyCode::Char('\n')));
    app.handle_key(key(KeyCode::Char('\r')));
    assert_eq!(value(&app, PROJECT_NAME), "my-latex-project");
}

#[test]
fn deletes_and_moves_by_characters() {
    let mut app = App::new("/".to_string());
    app.handle_key(key(KeyCode::Home));
    assert_eq!(app.cursors[PROJECT_NAME], 0);
    app.handle_key(key(KeyCode::Backspace));
    assert_eq!(value(&app, PROJECT_NAME), "my-latex-project");
    app.handle_key(key(KeyCode::Delete));
    assert_eq!(value(&app, PROJECT_NAME), "y-latex-project");
    assert_eq!(value(&app, FOLDER_NAME), "y-latex-project");
    app.handle_key(key(KeyCode::Right));
    assert_eq!(app.cursors[PROJECT_NAME], 1);
    app.handle_key(key(KeyCode::End));
    assert_eq!(app.cursors[PROJECT_NAME], 15);
    app.handle_key(key(KeyCode::Delete));
    assert_eq!(value(&app, PROJECT_NAME), "y-latex-project");
    app.handle_key(key(KeyCode::Right));
    assert_eq!(app.cursors[PROJECT_NAME], 15);
}

#[test]
fn moves_focus_around_the_form() {
    let mut app = App::new("/".to_string());
    app.handle_key(key(KeyCode::BackTab));
    assert_eq!(app.active, INITIAL_COMMIT);
    app.handle_key(key(KeyCode::Tab));
    assert_eq!(app.active, PROJECT_NAME);
    app.handle_key(key(KeyCode::Down));
    app.handle_key(key(KeyCode::Enter));
    assert_eq!(app.active, 2);
    app.handle_key(key(KeyCode::Up));
    assert_eq!(app.active, 1);
}

#[test]
fn keys_ask_for_outside_work() {
    let mut app = App::new("/".to_string());
    assert!(matches!(app.handle_key(control(KeyCode::Char('g'))), AppAction::Submit));
    app.active = PARENT_DIRECTORY;
    assert!(matches!(app.handle_key(key(KeyCode::Enter)), AppAction::OpenDirectoryPicker));
    app.active = INITIAL_COMMIT;
    assert!(matches!(app.handle_key(key(KeyCode::Enter)), AppAction::Submit));
    assert!(!app.quit);
}

#[test]
fn initial_commit_toggles_with_space_only() {
    let mut app = App::new("/".to_string());
    app.active = INITIAL_COMMIT;
    app.handle_key(key(KeyCode::Char(' ')));
    assert!(!app.create_initial_commit);
    app.handle_key(key(KeyCode::Char('x')));
    app.handle_key(key(KeyCode::Backspace));
    assert!(!app.create_initial_commit);
    assert_eq!(value(&app, INITIAL_COMMIT), "");
    app.handle_key(key(KeyCode::Char(' ')));
    assert!(app.create_initial_commit);
}

#[test]
fn quits_on_escape_and_control_c() {
    let mut app = App::new("/".to_string());
    app.handle_key(control(KeyCode::Char('x')));
    assert!(!app.quit);
    app.handle_key(key(KeyCode::Esc));
    assert!(app.quit);
    let mut app = App::new("/".to_string());
    app.handle_key(control(KeyCode::Char('c')));
    assert!(app.quit);
}

fn app_with_picker() -> App {
    let mut app = App::new("/w".to_string());
    let listing = Ok(vec!["/w/b".to_string(), "/w/a".to_string()]);
    let picker = DirectoryPicker::open_at(
        "/w",
        OpenOutcome::Directory { path: "/w".to_string(), listing },
    );
    app.finish_open_directory_picker(picker);
    app
}

#[test]
fn picker_takes_the_keys_while_open() {
    let mut app = app_with_picker();
    app.handle_key(key(KeyCode::End));
    assert_eq!(app.directory_picker.as_ref().unwrap().selected, 3);
    app.handle_key(key(KeyCode::Up));
    assert_eq!(app.directory_picker.as_ref().unwrap().selected, 2);
    match app.handle_key(key(KeyCode::Enter)) {
        AppAction::OpenInPicker(path) => assert_eq!(path, "/w/a"),
        _ => panic!("a subdirectory opens"),
    }
    match app.handle_key(key(KeyCode::Backspace)) {
        AppAction::OpenInPicker(path) => assert_eq!(path, "/"),
        _ => panic!("the parent opens"),
    }
    app.open_in_picker(
        "/w/a",
        OpenOutcome::Directory { path: "/w/a".to_string(), listing: Ok(Vec::new()) },
    );
    assert_eq!(app.directory_picker.as_ref().unwrap().current, "/w/a");
    app.handle_key(key(KeyCode::Home));
    app.handle_key(key(KeyCode::Right));
    assert!(app.directory_picker.is_none());
    assert_eq!(value(&app, PARENT_DIRECTORY), "/w/a");
    assert_eq!(app.cursors[PARENT_DIRECTORY], 4);
    assert_eq!(app.active, FOLDER_NAME);
    assert_eq!(app.status, Some(("Parent directory selected.".to_string(), false)));
}

#[test]
fn picker_selects_the_shown_directory_with_s() {
    let mut app = app_with_picker();
    app.handle_key(key(KeyCode::Char('S')));
    assert_eq!(value(&app, PARENT_DIRECTORY), "/w");
    assert!(app.directory_picker.is_none());
}

#[test]
fn picker_closes_on_escape() {
    let mut app = app_with_picker();
    app.handle_key(key(KeyCode::Esc));
    assert!(app.directory_picker.is_none());
    assert!(!app.quit);
    let mut app = app_with_picker();
    app.handle_key(control(KeyCode::Char('c')));
    assert!(app.quit);
}

#[test]
fn failing_to_open_the_picker_is_reported() {
    let mut app = App::new("/".to_string());
    app.finish_open_directory_picker(DirectoryPicker::open_at("/nope", OpenOutcome::NotDirectory));
    assert!(app.directory_picker.is_none());
    assert_eq!(
        app.status,
        Some(("Parent directory does not exist: /nope".to_string(), true))
    );
}

#[test]
fn submitting_records_the_outcome() {
    let mut app = App::new("/".to_string());
    app.submit(Err("Git is required to create the repository.".to_string()));
    assert_eq!(
        app.status,
        Some(("Git is required to create the repository.".to_string(), true))
    );
    assert!(!app.quit);
    let outcome = GenerationOutcome { path: "/p".to_string(), remote: None, warnings: Vec::new() };
    app.submit(Ok(outcome));
    assert_eq!(app.status, Some(("Project created successfully.".to_string(), false)));
    assert!(app.quit);
    assert_eq!(app.outcome.as_ref().unwrap().path, "/p");
}

fn request_error(app: &App) -> String {
    match app.project_request() {
        Ok(_) => panic!("the form is invalid"),
        Err(error) => error.message,
    }
}

fn set(app: &mut App, index: usize, text: &str) {
    app.fields[index].value = text.to_string();
    app.cursors[index] = text.len();
}

#[test]
fn reports_each_broken_rule() {
    let mut app = App::new("/tmp".to_string());
    set(&mut app, PROJECT_NAME, "  ");
    assert_eq!(request_error(&app), "Repository name is required.");
    set(&mut app, PROJECT_NAME, "p");
    set(&mut app, PARENT_DIRECTORY, "");
    assert_eq!(request_error(&app), "Parent directory is required.");
    set(&mut app, PARENT_DIRECTORY, "/tmp");
    set(&mut app, FOLDER_NAME, " \t");
    assert_eq!(request_error(&app), "Folder name is required.");
    let separators = "Folder name must be a single directory name without path separators.";
    for folder in [".", " .. ", "a/b", "a\\b"] {
        set(&mut app, FOLDER_NAME, folder);
        assert_eq!(request_error(&app), separators);
    }
    set(&mut app, FOLDER_NAME, "...");
    set(&mut app, REPORT_TITLE, "");
    assert_eq!(request_error(&app), "Report title is required.");
    set(&mut app, REPORT_TITLE, "t");
    set(&mut app, GIT_REMOTE, "a\rb");
    assert_eq!(request_error(&app), "Fields cannot contain line breaks.");
    set(&mut app, GIT_REMOTE, "");
    set(&mut app, ACADEMIC_YEAR, "2026\n");
    assert_eq!(request_error(&app), "Fields cannot contain line breaks.");
}

#[test]
fn builds_a_trimmed_request() {
    let mut app = App::new("/tmp".to_string());
    set(&mut app, PROJECT_NAME, "  sample  ");
    set(&mut app, FOLDER_NAME, " sample ");
    set(&mut app, INITIAL_COMMIT, "ignored\n");
    let request = app.project_request().ok().unwrap();
    assert_eq!(request.project_name, "sample");
    assert_eq!(request.folder_name, "sample");
    assert_eq!(request.parent_directory, "/tmp");
    assert_eq!(request.academic_year, "20XX--20XX");
    assert!(request.remote.is_none());
    assert!(request.create_initial_commit);
    let metadata = request.metadata();
    assert_eq!(metadata.report_title, "My Project");

    set(&mut app, GIT_REMOTE, " git@github.com:example/sample-report.git ");
    let request = app.project_request().ok().unwrap();
    assert_eq!(request.remote.as_deref(), Some("git@github.com:example/sample-report.git"));
}

#[test]
fn status_line_hints_or_reports() {
    let mut app = App::new("/".to_string());
    let (text, tone) = app.status_line();
    assert_eq!(text, "Tab/Shift+Tab: navigate  Enter: next/create  Ctrl+G: create  Esc: quit");
    assert!(matches!(tone, Tone::Muted));
    app.active = PARENT_DIRECTORY;
    assert_eq!(
        app.status_line().0,
        "Type a path or press Enter to browse directories. Tab: next"
    );
    app.status = Some(("Boom".to_string(), true));
    assert!(matches!(app.status_line(), (t, Tone::Error) if t == "Boom"));
    app.status = Some(("Fine".to_string(), false));
    assert!(matches!(app.status_line().1, Tone::Success));
}

#[test]
fn form_rows_show_labels_values_and_cursor() {
    let mut app = App::new("/".to_string());
    let row = app.form_row(PROJECT_NAME, 40);
    assert_eq!(row.label, "> Repository name ");
    assert!(matches!(row.label_tone, Tone::Focused));
    assert_eq!(row.value, "my-latex-project");
    assert_eq!(row.horizontal_scroll, 0);
    assert_eq!(row.cursor, Some(16));

    let row = app.form_row(GIT_REMOTE, 40);
    assert_eq!(row.label, "  Git remote (optional) ");
    assert_eq!(row.value, "git@github.com:user/repository.git");
    assert!(matches!(row.value_tone, Tone::Muted));
    assert_eq!(row.cursor, None);

    let row = app.form_row(INITIAL_COMMIT, 40);
    assert_eq!(row.value, "[x] Yes");

    set(&mut app, PROJECT_NAME, "\u{65e5}\u{672c}\u{8a9e}abc");
    let row = app.form_row(PROJECT_NAME, 5);
    assert_eq!(row.horizontal_scroll, 5);
    assert_eq!(row.cursor, Some(4));

    app.active = INITIAL_COMMIT;
    let row = app.form_row(INITIAL_COMMIT, 40);
    assert_eq!(row.label, "> Create initial commit ");
    assert_eq!(row.cursor, None);
}

#[test]
fn needs_a_large_enough_terminal() {
    assert!(terminal_fits(60, 19));
    assert!(!terminal_fits(59, 40));
    assert!(!terminal_fits(120, 18));
}

#[test]
fn explains_git_failures() {
    assert_eq!(git_failure_message("  fatal: not a repo \n", &["status"]), "fatal: not a repo");
    assert_eq!(
        git_failure_message(" \n", &["remote", "add", "origin", "url"]),
        "git remote add origin url failed"
    );
    assert_eq!(git_failure_message("", &[]), "git  failed");
}


#[test]
fn folder_name_stays_the_slug_through_every_key() {
    let mut app = App::new("/".to_string());
    assert_eq!(value(&app, FOLDER_NAME), latex_generator::slug::slugify(value(&app, PROJECT_NAME)));
    for code in [
        KeyCode::Char('A'),
        KeyCode::Left,
        KeyCode::Left,
        KeyCode::Backspace,
        KeyCode::Delete,
        KeyCode::Char(' '),
        KeyCode::Home,
        KeyCode::Char('_'),
        KeyCode::End,
        KeyCode::Tab,
        KeyCode::Char('z'),
        KeyCode::BackTab,
        KeyCode::Char('9'),
    ] {
        app.handle_key(key(code));
        assert!(app.folder_follows_name);
        assert_eq!(value(&app, FOLDER_NAME), latex_generator::slug::slugify(value(&app, PROJECT_NAME)));
    }
    assert_eq!(value(&app, PROJECT_NAME), "_my-latex-proje A9");
    assert_eq!(value(&app, REPORT_TITLE), "My Projectz");
    assert_eq!(value(&app, FOLDER_NAME), "my-latex-proje-a9");
}

#[test]
fn moving_left_then_right_returns() {
    let mut app = App::new("/".to_string());
    type_text(&mut app, "\u{e9}");
    let end = app.cursors[PROJECT_NAME];
    app.handle_key(key(KeyCode::Left));
    assert_eq!(app.cursors[PROJECT_NAME], end - 2);
    app.handle_key(key(KeyCode::Right));
    assert_eq!(app.cursors[PROJECT_NAME], end);
}

#[test]
fn checks_the_destination() {
    match check_destination("/missing", false, "/missing/p", false) {
        Err(e) => assert_eq!(e.message, "Parent directory does not exist: /missing"),
        Ok(()) => panic!("the parent is missing"),
    }
    match check_destination("/tmp", true, "/tmp/p", true) {
        Err(e) => assert_eq!(e.message, "Destination already exists: /tmp/p"),
        Ok(()) => panic!("the destination exists"),
    }
    assert!(check_destination("/tmp", true, "/tmp/p", false).is_ok());
}
