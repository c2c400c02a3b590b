use latex_generator::picker::{DirectoryPicker, OpenOutcome, PickerChoice, PickerEntry};

fn strings(items: &[&str]) -> Vec<String> {
    items.iter().map(|s| s.to_string()).collect()
}

fn paths(picker: &DirectoryPicker) -> Vec<String> {
    picker
        .entries
        .iter()
        .map(|entry| match entry {
            PickerEntry::SelectCurrent => "=".to_string(),
            PickerEntry::Parent(path) => format!("^{path}"),
            PickerEntry::Directory(path) => path.clone(),
        })
        .collect()
}

#[test]
fn labels_entries() {
    assert_eq!(PickerEntry::SelectCurrent.label(), "[ Select this directory ]");
    assert_eq!(PickerEntry::Parent("/tmp".to_string()).label(), "../");
    assert_eq!(PickerEntry::Directory("/tmp/reports".to_string()).label(), "reports/");
    assert_eq!(PickerEntry::Directory("/".to_string()).label(), "//");
}

#[test]
fn sorts_subdirectories_by_lowercase_name() {
    let listing = strings(&["/w/Beta", "/w/alpha", "/w/Gamma", "/w/\u{c9}t\u{e9}"]);
    let picker = DirectoryPicker::new("/w".to_string(), Ok(listing));
    assert_eq!(
        paths(&picker),
        strings(&["=", "^/", "/w/alpha", "/w/Beta", "/w/Gamma", "/w/\u{c9}t\u{e9}"])
    );
    assert_eq!(picker.selected, 0);
    assert!(picker.error.is_none());
}

#[test]
fn keeps_the_listing_order_of_equal_names() {
    let listing = strings(&["/x/B", "/y/b", "/x/a"]);
    let picker = DirectoryPicker::new("/x".to_string(), Ok(listing));
    assert_eq!(paths(&picker), strings(&["=", "^/", "/x/a", "/x/B", "/y/b"]));
}

#[test]
fn root_has_no_parent_entry() {
    let picker = DirectoryPicker::new("/".to_string(), Ok(strings(&["/tmp"])));
    assert_eq!(paths(&picker), strings(&["=", "/tmp"]));
}

#[test]
fn reports_an_unreadable_directory() {
    let picker = DirectoryPicker::new("/w/x".to_string(), Err("permission denied".to_string()));
    assert_eq!(paths(&picker), strings(&["=", "^/w"]));
    assert_eq!(picker.error.as_deref(), Some("permission denied"));
    assert_eq!(picker.help_line(), ("permission denied".to_string(), true));
}

#[test]
fn moves_within_the_entries() {
    let mut picker = DirectoryPicker::new("/w".to_string(), Ok(strings(&["/w/a", "/w/b"])));
    picker.move_up();
    assert_eq!(picker.selected, 0);
    picker.move_down();
    picker.move_down();
    picker.move_down();
    picker.move_down();
    assert_eq!(picker.selected, 3);
    picker.move_up();
    assert_eq!(picker.selected, 2);
}

#[test]
fn refresh_keeps_the_selection_within_the_entries() {
    let mut picker = DirectoryPicker::new("/w".to_string(), Ok(strings(&["/w/a", "/w/b"])));
    picker.selected = 3;
    picker.refresh(Ok(strings(&["/w/a"])));
    assert_eq!(picker.selected, 2);
}

#[test]
fn enters_the_selected_entry() {
    let mut picker = DirectoryPicker::new("/w".to_string(), Ok(strings(&["/w/a"])));
    assert!(matches!(picker.enter_selected(), PickerChoice::Select(p) if p == "/w"));
    picker.selected = 1;
    assert!(matches!(picker.enter_selected(), PickerChoice::Open(p) if p == "/"));
    picker.selected = 2;
    assert!(matches!(picker.enter_selected(), PickerChoice::Open(p) if p == "/w/a"));
    picker.selected = 7;
    assert!(matches!(picker.enter_selected(), PickerChoice::Nothing));
    assert_eq!(picker.go_to_parent().as_deref(), Some("/"));
}

#[test]
fn opens_resolved_directories() {
    let mut picker = DirectoryPicker::new("/w".to_string(), Ok(strings(&["/w/a"])));
    picker.selected = 2;
    picker.open(
        "/w/a",
        OpenOutcome::Directory { path: "/w/a".to_string(), listing: Ok(strings(&["/w/a/z"])) },
    );
    assert_eq!(picker.current, "/w/a");
    assert_eq!(picker.selected, 0);
    assert_eq!(paths(&picker), strings(&["=", "^/w", "/w/a/z"]));

    picker.open("/w/a/file", OpenOutcome::NotDirectory);
    assert_eq!(picker.error.as_deref(), Some("Not a directory: /w/a/file"));
    assert_eq!(picker.current, "/w/a");

    picker.open("/gone", OpenOutcome::Failed("No such file or directory".to_string()));
    assert_eq!(picker.error.as_deref(), Some("No such file or directory"));
}

#[test]
fn opening_the_picker_can_fail() {
    match DirectoryPicker::open_at("/nowhere", OpenOutcome::NotDirectory) {
        Ok(_) => panic!("not a directory"),
        Err(message) => assert_eq!(message, "Parent directory does not exist: /nowhere"),
    }
    assert!(DirectoryPicker::open_at("/w", OpenOutcome::Failed("denied".to_string())).is_err());
}

#[test]
fn shows_a_window_around_the_selection() {
    let listing = strings(&["/w/a", "/w/b", "/w/c"]);
    let mut picker = DirectoryPicker::new("/w".to_string(), Ok(listing));
    picker.selected = 4;
    let lines = picker.visible_lines(3);
    let texts: Vec<String> = lines.iter().map(|l| l.text.clone()).collect();
    assert_eq!(texts, strings(&[" a/ ", " b/ ", " c/ "]));
    assert_eq!(lines.iter().map(|l| l.highlighted).collect::<Vec<_>>(), vec![false, false, true]);

    picker.selected = 0;
    let lines = picker.visible_lines(10);
    assert_eq!(lines.len(), 5);
    assert_eq!(lines[0].text, " [ Select this directory ] ");
    assert!(lines[0].highlighted);
    assert_eq!(picker.visible_lines(0).len(), 0);
}

#[test]
fn help_line_without_error() {
    let picker = DirectoryPicker::new("/".to_string(), Ok(Vec::new()));
    let (help, is_error) = picker.help_line();
    assert!(help.starts_with("\u{2191}/\u{2193}: navigate"));
    assert!(!is_error);
}

#[test]
fn picker_navigates_into_a_child_and_selects_it() {
    let root = "/tmp/polytech-latex-picker";
    let child = "/tmp/polytech-latex-picker/reports";
    let mut picker = DirectoryPicker::new(root.to_string(), Ok(strings(&[child])));
    let child_index = picker
        .entries
        .iter()
        .position(|entry| matches!(entry, PickerEntry::Directory(path) if path == child))
        .unwrap();
    picker.selected = child_index;

    match picker.enter_selected() {
        PickerChoice::Open(path) => {
            assert_eq!(path, child);
            picker.open(
                &path,
                OpenOutcome::Directory { path: path.clone(), listing: Ok(Vec::new()) },
            );
        }
        _ => panic!("the child opens"),
    }
    assert_eq!(picker.current, child);
    assert!(matches!(picker.enter_selected(), PickerChoice::Select(path) if path == child));
}
