//! The settings form: its fields, the cursor in each, the editing keys, the
//! decisions taken on every key, and what each line of the form shows.

use vstd::prelude::*;
use crate::latex::{input_error, InputError};
use crate::picker::{DirectoryPicker, OpenOutcome, PickerChoice};
use crate::slug::{slugify, slugify_spec};
use crate::text::{
    byte_len, char_index, char_index_of, char_len, char_utf8_len, chars_of,
    contains_char, chars_equal, insert_char_at, is_boundary, lemma_byte_offset_end,
    lemma_char_index, next_boundary, next_boundary_spec,
    previous_boundary, previous_boundary_spec, prefix_chars, remove_char_at, str_len, string_from_chars, trim,
    trim_chars, trim_end_spec, trim_spec, trim_start_spec,
};
use crate::width::{display_width, text_width};

verus! {

pub const PROJECT_NAME: usize = 0;
pub const REPORT_TITLE: usize = 1;
pub const REPORT_TYPE: usize = 2;
pub const AUTHOR: usize = 3;
pub const PROGRAM: usize = 4;
pub const ACADEMIC_YEAR: usize = 5;
pub const PARENT_DIRECTORY: usize = 6;
pub const FOLDER_NAME: usize = 7;
pub const GIT_REMOTE: usize = 8;
pub const INITIAL_COMMIT: usize = 9;
pub const FIELD_COUNT: usize = 10;

/// One line of the settings form.
pub struct Field {
    pub label: &'static str,
    pub value: String,
    pub placeholder: &'static str,
}

/// What the creation of a project produced.
pub struct GenerationOutcome {
    pub path: String,
    pub remote: Option<String>,
    pub warnings: Vec<String>,
}

/// The editable part of the form, as values.
pub struct FormView {
    pub values: Seq<Seq<char>>,
    pub cursors: Seq<int>,
    pub active: int,
    pub create_initial_commit: bool,
    pub folder_follows_name: bool,
}

/// The state of the generator's interface.
pub struct App {
    pub fields: Vec<Field>,
    pub cursors: Vec<usize>,
    pub active: usize,
    pub create_initial_commit: bool,
    pub folder_follows_name: bool,
    pub directory_picker: Option<DirectoryPicker>,
    pub status: Option<(String, bool)>,
    pub outcome: Option<GenerationOutcome>,
    pub quit: bool,
}

// ---------------------------------------------------------------------------
// The form as values
// ---------------------------------------------------------------------------

/// Focus on the next field, wrapping around.
pub open spec fn focus_next_spec(f: FormView) -> FormView {
    FormView { active: (f.active + 1) % (FIELD_COUNT as int), ..f }
}

/// Focus on the previous field, wrapping around.
pub open spec fn focus_previous_spec(f: FormView) -> FormView {
    FormView { active: if f.active == 0 { FIELD_COUNT - 1 } else { f.active - 1 }, ..f }
}

/// The cursor of the focused field moved to `cursor`.
pub open spec fn set_cursor_spec(f: FormView, cursor: int) -> FormView {
    FormView { cursors: f.cursors.update(f.active, cursor), ..f }
}

/// After an edit of the focused field: editing the folder name stops it
/// following the project name; while it follows, editing the project name
/// sets the folder name to the project name's slug, cursor at its end.
pub open spec fn after_edit_spec(f: FormView) -> FormView {
    let follows = f.folder_follows_name && f.active != FOLDER_NAME;
    if f.active == PROJECT_NAME && follows {
        let slug = slugify_spec(f.values[PROJECT_NAME as int]);
        FormView {
            values: f.values.update(FOLDER_NAME as int, slug),
            cursors: f.cursors.update(FOLDER_NAME as int, byte_len(slug) as int),
            folder_follows_name: follows,
            ..f
        }
    } else {
        FormView { folder_follows_name: follows, ..f }
    }
}

/// The focused field set to `value` with its cursor at `cursor`, then the
/// consequences of the edit.
pub open spec fn edit_spec(f: FormView, value: Seq<char>, cursor: int) -> FormView {
    after_edit_spec(
        FormView {
            values: f.values.update(f.active, value),
            cursors: f.cursors.update(f.active, cursor),
            ..f
        },
    )
}

/// Typing `c` at the cursor; line breaks are ignored.
pub open spec fn insert_spec(f: FormView, c: char) -> FormView {
    if c == '\n' || c == '\r' {
        f
    } else {
        let value = f.values[f.active];
        let cursor = f.cursors[f.active];
        edit_spec(f, value.insert(char_index(value, cursor), c), cursor + char_len(c))
    }
}

/// Erasing the character before the cursor.
pub open spec fn backspace_spec(f: FormView) -> FormView {
    let value = f.values[f.active];
    let cursor = f.cursors[f.active];
    if cursor == 0 {
        f
    } else {
        edit_spec(
            f,
            value.remove(char_index(value, cursor) - 1),
            previous_boundary_spec(value, cursor),
        )
    }
}

/// Erasing the character after the cursor.
pub open spec fn delete_spec(f: FormView) -> FormView {
    let value = f.values[f.active];
    let cursor = f.cursors[f.active];
    if cursor == byte_len(value) {
        f
    } else {
        edit_spec(f, value.remove(char_index(value, cursor)), cursor)
    }
}

/// Moving the cursor one character left.
pub open spec fn left_spec(f: FormView) -> FormView {
    set_cursor_spec(f, previous_boundary_spec(f.values[f.active], f.cursors[f.active]))
}

/// Moving the cursor one character right.
pub open spec fn right_spec(f: FormView) -> FormView {
    set_cursor_spec(f, next_boundary_spec(f.values[f.active], f.cursors[f.active]))
}

/// Whether every cursor is at a character boundary of its field.
pub open spec fn form_wf(f: FormView) -> bool {
    &&& f.values.len() == FIELD_COUNT
    &&& f.cursors.len() == FIELD_COUNT
    &&& 0 <= f.active < FIELD_COUNT
    &&& forall|i: int| 0 <= i < FIELD_COUNT ==> is_boundary(#[trigger] f.values[i], f.cursors[i])
}

impl App {
    /// The editable part of the form.
    pub open spec fn form(&self) -> FormView {
        FormView {
            values: self.fields@.map_values(|f: Field| f.value@),
            cursors: self.cursors@.map_values(|c: usize| c as int),
            active: self.active as int,
            create_initial_commit: self.create_initial_commit,
            folder_follows_name: self.folder_follows_name,
        }
    }

    /// The labels and placeholders of the fields.
    pub open spec fn layout(&self) -> Seq<(&'static str, &'static str)> {
        self.fields@.map_values(|f: Field| (f.label, f.placeholder))
    }

    /// The state is consistent: ten fields, each cursor at a character
    /// boundary of its field, and a consistent picker when one is open.
    pub open spec fn wf(&self) -> bool {
        &&& self.fields@.len() == FIELD_COUNT
        &&& self.cursors@.len() == FIELD_COUNT
        &&& form_wf(self.form())
        &&& self.directory_picker matches Some(p) ==> p.wf()
    }

    /// Everything but the editable part of the form is as in `other`.
    pub open spec fn same_context(&self, other: &App) -> bool {
        &&& self.layout() == other.layout()
        &&& self.directory_picker == other.directory_picker
        &&& self.status == other.status
        &&& self.outcome == other.outcome
        &&& self.quit == other.quit
    }

    fn set_value(&mut self, i: usize, value: String)
        requires
            i < old(self).fields@.len(),
        ensures
            final(self).fields@.len() == old(self).fields@.len(),
            final(self).form() == (FormView {
                values: old(self).form().values.update(i as int, value@),
                ..old(self).form()
            }),
            final(self).cursors == old(self).cursors,
            final(self).same_context(&*old(self)),
    {
        let label = self.fields[i].label;
        let placeholder = self.fields[i].placeholder;
        self.fields.set(i, Field { label, value, placeholder });
        proof {
            assert(self.form().values =~= old(self).form().values.update(i as int, value@));
            assert(self.layout() =~= old(self).layout());
        }
    }

    fn set_cursor(&mut self, i: usize, cursor: usize)
        requires
            i < old(self).cursors@.len(),
        ensures
            final(self).cursors@.len() == old(self).cursors@.len(),
            final(self).form() == (FormView {
                cursors: old(self).form().cursors.update(i as int, cursor as int),
                ..old(self).form()
            }),
            final(self).fields == old(self).fields,
            final(self).same_context(&*old(self)),
    {
        self.cursors.set(i, cursor);
        proof {
            assert(self.form().cursors =~= old(self).form().cursors.update(i as int, cursor as int));
        }
    }

    /// Focuses the next field, after the last the first.
    pub fn focus_next(&mut self)
        requires
            old(self).wf(),
        ensures
            final(self).wf(),
            final(self).form() == focus_next_spec(old(self).form()),
            final(self).same_context(&*old(self)),
    {
        self.active = (self.active + 1) % self.fields.len();
    }

    /// Focuses the previous field, before the first the last.
    pub fn focus_previous(&mut self)
        requires
            old(self).wf(),
        ensures
            final(self).wf(),
            final(self).form() == focus_previous_spec(old(self).form()),
            final(self).same_context(&*old(self)),
    {
        self.active = if self.active == 0 { self.fields.len() - 1 } else { self.active - 1 };
    }

    /// The consequences of an edit of the focused field.
    pub fn after_edit(&mut self)
        requires
            old(self).wf(),
        ensures
            final(self).wf(),
            final(self).form() == after_edit_spec(old(self).form()),
            final(self).same_context(&*old(self)),
    {
        if self.active == FOLDER_NAME {
            self.folder_follows_name = false;
        }
        if self.active == PROJECT_NAME && self.folder_follows_name {
            let slug = slugify(self.fields[PROJECT_NAME].value.as_str());
            let length = str_len(slug.as_str());
            proof {
                lemma_byte_offset_end(slug@);
                lemma_char_index(slug@, slug@.len() as int);
            }
            self.set_value(FOLDER_NAME, slug);
            self.set_cursor(FOLDER_NAME, length);
        }
        proof {
            assert(self.form() =~= after_edit_spec(old(self).form()));
        }
    }

    /// Types `character` at the cursor of the focused field and moves the
    /// cursor past it; line breaks are ignored.
    pub fn insert_character(&mut self, character: char)
        requires
            old(self).wf(),
        ensures
            final(self).wf(),
            final(self).form() == insert_spec(old(self).form(), character),
            final(self).same_context(&*old(self)),
    {
        if character == '\n' || character == '\r' {
            return;
        }
        let active = self.active;
        let cursor = self.cursors[active];
        let ghost f = self.form();
        proof {
            assert(is_boundary(f.values[active as int], f.cursors[active as int]));
        }
        let cs = chars_of(self.fields[active].value.as_str());
        let k = char_index_of(cs.as_slice(), cursor);
        let value = insert_char_at(self.fields[active].value.as_str(), k, character);
        // The byte length of the new value fits in `usize`.
        let _ = str_len(value.as_str());
        let ghost old_value = f.values[active as int];
        proof {
            let nv = old_value.insert(k as int, character);
            assert(nv.take(k + 1) =~= old_value.take(k as int).push(character));
            crate::text::lemma_byte_len_push(old_value.take(k as int), character);
            crate::text::lemma_byte_offset_le_len(nv, k + 1);
            lemma_char_index(nv, k + 1);
        }
        let width = char_utf8_len(character);
        self.set_value(active, value);
        self.set_cursor(active, cursor + width);
        self.after_edit();
    }

    /// Erases the character before the cursor of the focused field.
    pub fn backspace(&mut self)
        requires
            old(self).wf(),
        ensures
            final(self).wf(),
            final(self).form() == backspace_spec(old(self).form()),
            final(self).same_context(&*old(self)),
    {
        let active = self.active;
        let cursor = self.cursors[active];
        if cursor == 0 {
            return;
        }
        let ghost f = self.form();
        let ghost old_value = f.values[active as int];
        proof {
            assert(is_boundary(old_value, cursor as int));
        }
        let previous = previous_boundary(self.fields[active].value.as_str(), cursor);
        let cs = chars_of(self.fields[active].value.as_str());
        let k = char_index_of(cs.as_slice(), cursor);
        proof {
            if k == 0 {
                assert(old_value.take(0) =~= Seq::<char>::empty());
            }
        }
        let value = remove_char_at(self.fields[active].value.as_str(), k - 1);
        proof {
            let nv = old_value.remove(k - 1);
            assert(nv.take(k - 1) =~= old_value.take(k - 1));
            lemma_char_index(nv, k - 1);
        }
        self.set_value(active, value);
        self.set_cursor(active, previous);
        self.after_edit();
    }

    /// Erases the character after the cursor of the focused field.
    pub fn delete(&mut self)
        requires
            old(self).wf(),
        ensures
            final(self).wf(),
            final(self).form() == delete_spec(old(self).form()),
            final(self).same_context(&*old(self)),
    {
        let active = self.active;
        let cursor = self.cursors[active];
        let length = str_len(self.fields[active].value.as_str());
        if cursor == length {
            return;
        }
        let ghost f = self.form();
        let ghost old_value = f.values[active as int];
        proof {
            assert(is_boundary(old_value, cursor as int));
        }
        let cs = chars_of(self.fields[active].value.as_str());
        let k = char_index_of(cs.as_slice(), cursor);
        proof {
            if k == old_value.len() {
                lemma_byte_offset_end(old_value);
            }
        }
        let value = remove_char_at(self.fields[active].value.as_str(), k);
        proof {
            let nv = old_value.remove(k as int);
            assert(nv.take(k as int) =~= old_value.take(k as int));
            lemma_char_index(nv, k as int);
            assert(f.cursors.update(active as int, cursor as int) =~= f.cursors);
        }
        self.set_value(active, value);
        self.after_edit();
    }

    /// Moves the cursor of the focused field one character left.
    pub fn move_cursor_left(&mut self)
        requires
            old(self).wf(),
        ensures
            final(self).wf(),
            final(self).form() == left_spec(old(self).form()),
            final(self).same_context(&*old(self)),
    {
        let active = self.active;
        proof {
            assert(is_boundary(self.form().values[active as int], self.form().cursors[active as int]));
        }
        let previous = previous_boundary(self.fields[active].value.as_str(), self.cursors[active]);
        self.set_cursor(active, previous);
    }

    /// Moves the cursor of the focused field one character right.
    pub fn move_cursor_right(&mut self)
        requires
            old(self).wf(),
        ensures
            final(self).wf(),
            final(self).form() == right_spec(old(self).form()),
            final(self).same_context(&*old(self)),
    {
        let active = self.active;
        proof {
            assert(is_boundary(self.form().values[active as int], self.form().cursors[active as int]));
        }
        let next = next_boundary(self.fields[active].value.as_str(), self.cursors[active]);
        self.set_cursor(active, next);
    }
}


// ---------------------------------------------------------------------------
// Keys and the decisions taken on them
// ---------------------------------------------------------------------------

/// The keys the interface reacts to.
pub enum KeyCode {
    Char(char),
    Enter,
    Esc,
    Tab,
    BackTab,
    Up,
    Down,
    Left,
    Right,
    Home,
    End,
    Backspace,
    Delete,
    Other,
}

/// A key press, with whether Control was held.
pub struct KeyInput {
    pub code: KeyCode,
    pub control: bool,
}

/// The outside work that a key asks for.
pub enum AppAction {
    /// Nothing.
    Nothing,
    /// Create the project (and report the outcome with `App::submit`).
    Submit,
    /// Open the directory picker at the parent directory field's path.
    OpenDirectoryPicker,
    /// Open this path in the directory picker (and report the outcome with
    /// `App::open_in_picker`).
    OpenInPicker(String),
}

/// The effect on the form of a key pressed without Control while no picker
/// is open.
pub open spec fn form_key_spec(f: FormView, code: KeyCode) -> FormView {
    let on_commit = f.active == INITIAL_COMMIT;
    match code {
        KeyCode::Tab | KeyCode::Down => focus_next_spec(f),
        KeyCode::BackTab | KeyCode::Up => focus_previous_spec(f),
        KeyCode::Enter => if f.active == PARENT_DIRECTORY || on_commit {
            f
        } else {
            focus_next_spec(f)
        },
        KeyCode::Char(c) => if on_commit {
            if c == ' ' {
                FormView { create_initial_commit: !f.create_initial_commit, ..f }
            } else {
                f
            }
        } else {
            insert_spec(f, c)
        },
        KeyCode::Backspace => if on_commit { f } else { backspace_spec(f) },
        KeyCode::Delete => if on_commit { f } else { delete_spec(f) },
        KeyCode::Left => if on_commit { f } else { left_spec(f) },
        KeyCode::Right => if on_commit { f } else { right_spec(f) },
        KeyCode::Home => if on_commit { f } else { set_cursor_spec(f, 0) },
        KeyCode::End => if on_commit {
            f
        } else {
            set_cursor_spec(f, byte_len(f.values[f.active]) as int)
        },
        _ => f,
    }
}

/// Whether `new` is `old` after choosing `path` as the parent directory: the
/// field holds the path with the cursor at its end, the picker is closed, the
/// folder name field is focused and the choice is reported.
pub open spec fn parent_selected(old: App, path: Seq<char>, new: App) -> bool {
    &&& new.form() == (FormView {
        values: old.form().values.update(PARENT_DIRECTORY as int, path),
        cursors: old.form().cursors.update(PARENT_DIRECTORY as int, byte_len(path) as int),
        active: FOLDER_NAME as int,
        ..old.form()
    })
    &&& new.directory_picker is None
    &&& new.status matches Some(st) && st.0@ == "Parent directory selected."@ && !st.1
    &&& new.layout() == old.layout()
    &&& new.outcome == old.outcome
    &&& new.quit == old.quit
}

/// Whether `new` is `old` with the picker's selection at `selected`.
pub open spec fn picker_moved(old: App, selected: int, new: App) -> bool {
    &&& old.directory_picker matches Some(p)
    &&& new.directory_picker matches Some(q)
    &&& q.current == p.current
    &&& q.entries == p.entries
    &&& q.error == p.error
    &&& q.selected == selected
    &&& new.form() == old.form()
    &&& new.same_context_but_picker(&old)
}

/// Whether `new` equals `old`.
pub open spec fn unchanged(old: App, new: App) -> bool {
    &&& new.form() == old.form()
    &&& new.same_context(&old)
}

/// What a key pressed while no picker is open does: the status is cleared,
/// Control-C quits, Control-G asks to create the project, other keys act on
/// the form; Enter asks to browse directories on the parent directory field
/// and to create the project on the last field.
pub open spec fn form_key_result(old: App, key: KeyInput, new: App, action: AppAction) -> bool {
    &&& new.directory_picker is None
    &&& new.status is None
    &&& new.outcome == old.outcome
    &&& new.layout() == old.layout()
    &&& key.control ==> {
        &&& new.form() == old.form()
        &&& new.quit == (old.quit || key.code == KeyCode::Char('c'))
        &&& action == (if key.code == KeyCode::Char('g') {
            AppAction::Submit
        } else {
            AppAction::Nothing
        })
    }
    &&& !key.control ==> {
        &&& new.form() == form_key_spec(old.form(), key.code)
        &&& new.quit == (old.quit || key.code is Esc)
        &&& action == (if key.code is Enter && old.active == PARENT_DIRECTORY {
            AppAction::OpenDirectoryPicker
        } else if key.code is Enter && old.active == INITIAL_COMMIT {
            AppAction::Submit
        } else {
            AppAction::Nothing
        })
    }
}

/// What a key pressed while the picker is open does.
pub open spec fn picker_key_result(old: App, key: KeyInput, new: App, action: AppAction) -> bool {
    ({
        let p = old.directory_picker.unwrap();
        if key.control && key.code == KeyCode::Char('c') {
            &&& new.quit
            &&& new.form() == old.form()
            &&& new.directory_picker == old.directory_picker
            &&& new.layout() == old.layout()
            &&& new.status == old.status
            &&& new.outcome == old.outcome
            &&& action is Nothing
        } else {
            match key.code {
                KeyCode::Esc => {
                    &&& new.directory_picker is None
                    &&& new.form() == old.form()
                    &&& new.same_context_but_picker(&old)
                    &&& action is Nothing
                },
                KeyCode::Up => picker_moved(
                    old,
                    if p.selected > 0 { p.selected - 1 } else { 0 },
                    new,
                ) && action is Nothing,
                KeyCode::Down => picker_moved(
                    old,
                    if p.selected + 1 < p.entries@.len() {
                        p.selected + 1
                    } else {
                        p.entries@.len() - 1
                    },
                    new,
                ) && action is Nothing,
                KeyCode::Home => picker_moved(old, 0, new) && action is Nothing,
                KeyCode::End => picker_moved(old, p.entries@.len() - 1, new)
                    && action is Nothing,
                KeyCode::Backspace | KeyCode::Left => {
                    &&& unchanged(old, new)
                    &&& match crate::paths::parent_of(p.current@) {
                        Some(parent) => action matches AppAction::OpenInPicker(q) && q@
                            == parent,
                        None => action is Nothing,
                    }
                },
                KeyCode::Char(c) => if c == 's' || c == 'S' {
                    parent_selected(old, p.current@, new)
                        && action is Nothing
                } else {
                    unchanged(old, new) && action is Nothing
                },
                KeyCode::Enter | KeyCode::Right => match p.entries_view()[p.selected as int] {
                    crate::picker::EntryView::SelectCurrent => parent_selected(
                        old,
                        p.current@,
                        new,
                    ) && action is Nothing,
                    crate::picker::EntryView::Parent(path) => unchanged(
                        old,
                        new,
                    ) && (action matches AppAction::OpenInPicker(q) && q@ == path),
                    crate::picker::EntryView::Directory(path) => unchanged(
                        old,
                        new,
                    ) && (action matches AppAction::OpenInPicker(q) && q@ == path),
                },
                _ => unchanged(old, new) && action is Nothing,
            }
        }
    })
}

impl App {
    /// Everything but the form and the picker is as in `other`.
    pub open spec fn same_context_but_picker(&self, other: &App) -> bool {
        &&& self.layout() == other.layout()
        &&& self.status == other.status
        &&& self.outcome == other.outcome
        &&& self.quit == other.quit
    }

    /// Chooses `path` as the parent directory of the project.
    pub fn select_parent_directory(&mut self, path: String)
        requires
            old(self).wf(),
        ensures
            final(self).wf(),
            parent_selected(*old(self), path@, *final(self)),
    {
        let length = str_len(path.as_str());
        proof {
            lemma_byte_offset_end(path@);
            lemma_char_index(path@, path@.len() as int);
        }
        self.set_value(PARENT_DIRECTORY, path);
        self.set_cursor(PARENT_DIRECTORY, length);
        self.directory_picker = None;
        self.active = FOLDER_NAME;
        self.status = Some((String::from_str("Parent directory selected."), false));
    }

    /// Records the outcome of creating the project: on success the interface
    /// reports it, keeps it and quits; on failure it reports the error.
    pub fn submit(&mut self, result: Result<GenerationOutcome, String>)
        requires
            old(self).wf(),
        ensures
            final(self).wf(),
            final(self).form() == old(self).form(),
            final(self).layout() == old(self).layout(),
            final(self).directory_picker == old(self).directory_picker,
            match result {
                Ok(outcome) => {
                    &&& final(self).status matches Some(st) && st.0@
                        == "Project created successfully."@ && !st.1
                    &&& final(self).outcome == Some(outcome)
                    &&& final(self).quit
                },
                Err(message) => {
                    &&& final(self).status matches Some(st) && st.0@ == message@ && st.1
                    &&& final(self).outcome == old(self).outcome
                    &&& final(self).quit == old(self).quit
                },
            },
    {
        match result {
            Ok(outcome) => {
                self.status = Some((String::from_str("Project created successfully."), false));
                self.outcome = Some(outcome);
                self.quit = true;
            },
            Err(message) => {
                self.status = Some((message, true));
            },
        }
    }

    /// Reacts to a key while no picker is open; returns the outside work the
    /// key asks for.
    fn handle_form_key(&mut self, key: KeyInput) -> (action: AppAction)
        requires
            old(self).wf(),
            old(self).directory_picker is None,
        ensures
            final(self).wf(),
            form_key_result(*old(self), key, *final(self), action),
    {
        self.status = None;
        if key.control {
            match key.code {
                KeyCode::Char(c) => {
                    if c == 'c' {
                        self.quit = true;
                    } else if c == 'g' {
                        return AppAction::Submit;
                    }
                },
                _ => {},
            }
            return AppAction::Nothing;
        }
        let on_commit = self.active == INITIAL_COMMIT;
        match key.code {
            KeyCode::Esc => {
                self.quit = true;
            },
            KeyCode::Tab | KeyCode::Down => self.focus_next(),
            KeyCode::BackTab | KeyCode::Up => self.focus_previous(),
            KeyCode::Enter => {
                if self.active == PARENT_DIRECTORY {
                    return AppAction::OpenDirectoryPicker;
                } else if on_commit {
                    return AppAction::Submit;
                } else {
                    self.focus_next();
                }
            },
            KeyCode::Char(character) => {
                if on_commit {
                    if character == ' ' {
                        self.create_initial_commit = !self.create_initial_commit;
                    }
                } else {
                    self.insert_character(character);
                }
            },
            KeyCode::Backspace => {
                if !on_commit {
                    self.backspace();
                }
            },
            KeyCode::Delete => {
                if !on_commit {
                    self.delete();
                }
            },
            KeyCode::Left => {
                if !on_commit {
                    self.move_cursor_left();
                }
            },
            KeyCode::Right => {
                if !on_commit {
                    self.move_cursor_right();
                }
            },
            KeyCode::Home => {
                if !on_commit {
                    proof {
                        lemma_char_index(self.form().values[self.active as int], 0);
                        assert(self.form().values[self.active as int].take(0) =~= Seq::<char>::empty());
                    }
                    let active = self.active;
                    self.set_cursor(active, 0);
                }
            },
            KeyCode::End => {
                if !on_commit {
                    let active = self.active;
                    let length = str_len(self.fields[active].value.as_str());
                    proof {
                        let v = self.form().values[active as int];
                        lemma_byte_offset_end(v);
                        lemma_char_index(v, v.len() as int);
                    }
                    self.set_cursor(active, length);
                }
            },
            _ => {},
        }
        AppAction::Nothing
    }

    /// Reacts to a key while the picker is open; returns the outside work the
    /// key asks for.
    pub fn handle_directory_picker_key(&mut self, key: KeyInput) -> (action: AppAction)
        requires
            old(self).wf(),
            old(self).directory_picker is Some,
        ensures
            final(self).wf(),
            picker_key_result(*old(self), key, *final(self), action),
    {
        if key.control {
            match key.code {
                KeyCode::Char(c) => {
                    if c == 'c' {
                        self.quit = true;
                        return AppAction::Nothing;
                    }
                },
                _ => {},
            }
        }
        match key.code {
            KeyCode::Esc => {
                self.directory_picker = None;
                AppAction::Nothing
            },
            KeyCode::Up => {
                let mut picker = self.directory_picker.take().unwrap();
                picker.move_up();
                self.directory_picker = Some(picker);
                AppAction::Nothing
            },
            KeyCode::Down => {
                let mut picker = self.directory_picker.take().unwrap();
                picker.move_down();
                self.directory_picker = Some(picker);
                AppAction::Nothing
            },
            KeyCode::Home => {
                let mut picker = self.directory_picker.take().unwrap();
                picker.selected = 0;
                self.directory_picker = Some(picker);
                AppAction::Nothing
            },
            KeyCode::End => {
                let mut picker = self.directory_picker.take().unwrap();
                picker.selected = picker.entries.len().saturating_sub(1);
                self.directory_picker = Some(picker);
                AppAction::Nothing
            },
            KeyCode::Backspace | KeyCode::Left => {
                let parent = match &self.directory_picker {
                    Some(picker) => picker.go_to_parent(),
                    None => None,
                };
                match parent {
                    Some(path) => AppAction::OpenInPicker(path),
                    None => AppAction::Nothing,
                }
            },
            KeyCode::Char(c) => {
                if c == 's' || c == 'S' {
                    let current = match &self.directory_picker {
                        Some(picker) => picker.current.clone(),
                        None => String::new(),
                    };
                    self.select_parent_directory(current);
                }
                AppAction::Nothing
            },
            KeyCode::Enter | KeyCode::Right => {
                let choice = match &self.directory_picker {
                    Some(picker) => picker.enter_selected(),
                    None => PickerChoice::Nothing,
                };
                match choice {
                    PickerChoice::Select(path) => {
                        self.select_parent_directory(path);
                        AppAction::Nothing
                    },
                    PickerChoice::Open(path) => AppAction::OpenInPicker(path),
                    PickerChoice::Nothing => AppAction::Nothing,
                }
            },
            _ => AppAction::Nothing,
        }
    }

    /// Reacts to a key; returns the outside work the key asks for. While the
    /// picker is open the picker takes the key; otherwise the status is
    /// cleared and the form takes it.
    pub fn handle_key(&mut self, key: KeyInput) -> (action: AppAction)
        requires
            old(self).wf(),
        ensures
            final(self).wf(),
            old(self).directory_picker is None ==> form_key_result(
                *old(self),
                key,
                *final(self),
                action,
            ),
            old(self).directory_picker is Some ==> picker_key_result(
                *old(self),
                key,
                *final(self),
                action,
            ),
    {
        if self.directory_picker.is_some() {
            return self.handle_directory_picker_key(key);
        }
        self.handle_form_key(key)
    }
}


// ---------------------------------------------------------------------------
// Construction and the picker's life cycle
// ---------------------------------------------------------------------------

/// The initial values of the fields, with the working directory as parent.
pub open spec fn initial_values(current_directory: Seq<char>) -> Seq<Seq<char>> {
    seq![
        "my-latex-project"@,
        "My Project"@,
        "Project Report"@,
        "First LAST"@,
        "Program"@,
        "20XX--20XX"@,
        current_directory,
        "my-latex-project"@,
        Seq::<char>::empty(),
        Seq::<char>::empty(),
    ]
}

/// The labels and placeholders of the fields.
pub open spec fn initial_layout() -> Seq<(&'static str, &'static str)> {
    seq![
        ("Repository name", "my-latex-project"),
        ("Report title", "Project title"),
        ("Report type", "Project Report"),
        ("Author", "First LAST"),
        ("Program", "Program"),
        ("Academic year", "2026--2027"),
        ("Parent directory", "."),
        ("Folder name", "my-latex-project"),
        ("Git remote (optional)", "git@github.com:user/repository.git"),
        ("Create initial commit", ""),
    ]
}

fn field(label: &'static str, value: &str, placeholder: &'static str) -> (f: Field)
    ensures
        f.label == label,
        f.value@ == value@,
        f.placeholder == placeholder,
{
    Field { label, value: String::from_str(value), placeholder }
}

impl App {
    /// The interface at start: default values, the working directory as
    /// parent directory, every cursor at the end of its field, the first field
    /// focused, an initial commit requested and the folder name following the
    /// project name.
    pub fn new(current_directory: String) -> (app: App)
        ensures
            app.wf(),
            app.form().values == initial_values(current_directory@),
            forall|i: int|
                0 <= i < FIELD_COUNT ==> #[trigger] app.form().cursors[i] == byte_len(
                    app.form().values[i],
                ),
            app.active == PROJECT_NAME,
            app.create_initial_commit,
            app.folder_follows_name,
            app.layout() == initial_layout(),
            app.directory_picker is None,
            app.status is None,
            app.outcome is None,
            !app.quit,
    {
        let fields = vec![
            field("Repository name", "my-latex-project", "my-latex-project"),
            field("Report title", "My Project", "Project title"),
            field("Report type", "Project Report", "Project Report"),
            field("Author", "First LAST", "First LAST"),
            field("Program", "Program", "Program"),
            field("Academic year", "20XX--20XX", "2026--2027"),
            Field {
                label: "Parent directory",
                value: current_directory,
                placeholder: ".",
            },
            field("Folder name", "my-latex-project", "my-latex-project"),
            Field {
                label: "Git remote (optional)",
                value: String::new(),
                placeholder: "git@github.com:user/repository.git",
            },
            Field { label: "Create initial commit", value: String::new(), placeholder: "" },
        ];
        let mut cursors: Vec<usize> = Vec::new();
        let mut i: usize = 0;
        while i < fields.len()
            invariant
                i <= fields@.len(),
                cursors@.len() == i,
                forall|k: int|
                    0 <= k < i ==> #[trigger] cursors@[k] == byte_len(fields@[k].value@),
            decreases fields@.len() - i,
        {
            let length = str_len(fields[i].value.as_str());
            cursors.push(length);
            i += 1;
        }
        let app = App {
            fields,
            cursors,
            active: PROJECT_NAME,
            create_initial_commit: true,
            folder_follows_name: true,
            directory_picker: None,
            status: None,
            outcome: None,
            quit: false,
        };
        proof {
            assert(app.form().values =~= initial_values(current_directory@));
            assert(app.layout() =~= initial_layout());
            assert forall|k: int| 0 <= k < FIELD_COUNT implies is_boundary(
                #[trigger] app.form().values[k],
                app.form().cursors[k],
            ) by {
                let v = app.form().values[k];
                lemma_byte_offset_end(v);
                lemma_char_index(v, v.len() as int);
            }
        }
        app
    }

    /// The text of the parent directory field without surrounding
    /// whitespace: the path at which the picker opens.
    pub fn entered_parent_directory(&self) -> (path: String)
        requires
            self.fields@.len() == FIELD_COUNT,
        ensures
            path@ == trim_spec(self.form().values[PARENT_DIRECTORY as int]),
    {
        trim(self.fields[PARENT_DIRECTORY].value.as_str())
    }

    /// Shows the picker that was opened, or reports why it could not be.
    pub fn finish_open_directory_picker(&mut self, picker: Result<DirectoryPicker, String>)
        requires
            old(self).wf(),
            picker matches Ok(p) ==> p.wf(),
        ensures
            final(self).wf(),
            final(self).form() == old(self).form(),
            final(self).layout() == old(self).layout(),
            final(self).outcome == old(self).outcome,
            final(self).quit == old(self).quit,
            match picker {
                Ok(p) => final(self).directory_picker == Some(p) && final(self).status
                    == old(self).status,
                Err(message) => {
                    &&& final(self).directory_picker == old(self).directory_picker
                    &&& final(self).status matches Some(st) && st.0@ == message@ && st.1
                },
            },
    {
        match picker {
            Ok(p) => {
                self.directory_picker = Some(p);
            },
            Err(message) => {
                self.status = Some((message, true));
            },
        }
    }

    /// Shows in the open picker the directory that `requested` resolved to.
    pub fn open_in_picker(&mut self, requested: &str, outcome: OpenOutcome)
        requires
            old(self).wf(),
        ensures
            final(self).wf(),
            final(self).form() == old(self).form(),
            final(self).same_context_but_picker(&*old(self)),
            old(self).directory_picker is None ==> final(self).directory_picker is None,
            old(self).directory_picker matches Some(p) ==> (final(self).directory_picker matches Some(
                q,
            ) && crate::picker::opened(p, requested@, outcome, q)),
    {
        match self.directory_picker.take() {
            Some(mut picker) => {
                picker.open(requested, outcome);
                self.directory_picker = Some(picker);
            },
            None => {},
        }
    }
}

impl DirectoryPicker {
    /// The picker for the directory that `requested` resolved to; fails when
    /// it is not a directory or could not be resolved.
    pub fn open_at(requested: &str, outcome: OpenOutcome) -> (r: Result<DirectoryPicker, String>)
        ensures
            match outcome {
                OpenOutcome::Directory { path, listing } => r matches Ok(p) && p.wf()
                    && p.current@ == path@ && p.selected == 0 && p.listed(
                    match listing {
                        Ok(dirs) => Ok(crate::order::strings_view(dirs@)),
                        Err(message) => Err(message@),
                    },
                ),
                OpenOutcome::NotDirectory => r matches Err(m) && m@
                    == "Parent directory does not exist: "@ + requested@,
                OpenOutcome::Failed(message) => r matches Err(m) && m@ == message@,
            },
    {
        match outcome {
            OpenOutcome::Directory { path, listing } => Ok(DirectoryPicker::new(path, listing)),
            OpenOutcome::NotDirectory => {
                let mut message = String::from_str("Parent directory does not exist: ");
                message.append(requested);
                Err(message)
            },
            OpenOutcome::Failed(message) => Err(message),
        }
    }
}


// ---------------------------------------------------------------------------
// Checking the form before a project is created
// ---------------------------------------------------------------------------

/// What the form asks to create, trimmed.
pub struct ProjectRequest {
    pub project_name: String,
    pub report_title: String,
    pub report_type: String,
    pub author: String,
    pub program: String,
    pub academic_year: String,
    pub parent_directory: String,
    pub folder_name: String,
    pub remote: Option<String>,
    pub create_initial_commit: bool,
}

/// Whether some field up to the Git remote holds a line break.
pub open spec fn has_line_break(values: Seq<Seq<char>>) -> bool {
    exists|i: int|
        0 <= i <= GIT_REMOTE && (#[trigger] values[i].contains('\n') || values[i].contains('\r'))
}

/// The message of the first rule of the form that the values break, if any.
pub open spec fn validation_error(values: Seq<Seq<char>>) -> Option<Seq<char>> {
    let project = trim_spec(values[PROJECT_NAME as int]);
    let parent = trim_spec(values[PARENT_DIRECTORY as int]);
    let folder = trim_spec(values[FOLDER_NAME as int]);
    if project.len() == 0 {
        Some("Repository name is required."@)
    } else if parent.len() == 0 {
        Some("Parent directory is required."@)
    } else if folder.len() == 0 {
        Some("Folder name is required."@)
    } else if !is_directory_name_spec(folder) {
        Some("Folder name must be a single directory name without path separators."@)
    } else if trim_spec(values[REPORT_TITLE as int]).len() == 0 {
        Some("Report title is required."@)
    } else if has_line_break(values) {
        Some("Fields cannot contain line breaks."@)
    } else {
        None
    }
}

/// Whether `r` holds the trimmed values of the form.
pub open spec fn request_matches(r: ProjectRequest, f: FormView) -> bool {
    &&& r.project_name@ == trim_spec(f.values[PROJECT_NAME as int])
    &&& r.report_title@ == trim_spec(f.values[REPORT_TITLE as int])
    &&& r.report_type@ == trim_spec(f.values[REPORT_TYPE as int])
    &&& r.author@ == trim_spec(f.values[AUTHOR as int])
    &&& r.program@ == trim_spec(f.values[PROGRAM as int])
    &&& r.academic_year@ == trim_spec(f.values[ACADEMIC_YEAR as int])
    &&& r.parent_directory@ == trim_spec(f.values[PARENT_DIRECTORY as int])
    &&& r.folder_name@ == trim_spec(f.values[FOLDER_NAME as int])
    &&& (if trim_spec(f.values[GIT_REMOTE as int]).len() == 0 {
        r.remote is None
    } else {
        r.remote matches Some(remote) && remote@ == trim_spec(f.values[GIT_REMOTE as int])
    })
    &&& r.create_initial_commit == f.create_initial_commit
}

/// Whether the project can go where the form says, from what was found on
/// disk: the parent directory must exist and the destination must not. The
/// paths are given as they are displayed in the messages.
pub fn check_destination(
    parent: &str,
    parent_is_dir: bool,
    destination: &str,
    destination_exists: bool,
) -> (r: Result<(), InputError>)
    ensures
        !parent_is_dir ==> (r matches Err(e) && e.message@ == "Parent directory does not exist: "@
            + parent@),
        parent_is_dir && destination_exists ==> (r matches Err(e) && e.message@
            == "Destination already exists: "@ + destination@),
        parent_is_dir && !destination_exists ==> r is Ok,
{
    if !parent_is_dir {
        let mut message = String::from_str("Parent directory does not exist: ");
        message.append(parent);
        return Err(input_error(message));
    }
    if destination_exists {
        let mut message = String::from_str("Destination already exists: ");
        message.append(destination);
        return Err(input_error(message));
    }
    Ok(())
}

/// Whether `folder` names one directory: neither `.` nor `..`, and without
/// path separators.
pub open spec fn is_directory_name_spec(folder: Seq<char>) -> bool {
    !(folder == "."@ || folder == ".."@ || folder.contains('/') || folder.contains('\\'))
}

fn is_directory_name(folder: &[char]) -> (r: bool)
    ensures
        r == is_directory_name_spec(folder@),
{
    let dot = vec!['.'];
    let dot_dot = vec!['.', '.'];
    proof {
        reveal_strlit(".");
        reveal_strlit("..");
        assert(dot@ =~= "."@);
        assert(dot_dot@ =~= ".."@);
    }
    !(chars_equal(folder, dot.as_slice()) || chars_equal(folder, dot_dot.as_slice())
        || contains_char(folder, '/') || contains_char(folder, '\\'))
}

fn str_has_line_break(s: &str) -> (r: bool)
    ensures
        r == (s@.contains('\n') || s@.contains('\r')),
{
    let cs = chars_of(s);
    contains_char(cs.as_slice(), '\n') || contains_char(cs.as_slice(), '\r')
}

impl App {
    /// The project that the form asks for, or the message of the first rule
    /// it breaks: the repository name, the parent directory, the folder name
    /// and the report title are required, the folder name is one directory
    /// name, and no field holds a line break.
    pub fn project_request(&self) -> (r: Result<ProjectRequest, InputError>)
        requires
            self.fields@.len() == FIELD_COUNT,
        ensures
            match validation_error(self.form().values) {
                Some(message) => r matches Err(e) && e.message@ == message,
                None => r matches Ok(request) && request_matches(request, self.form()),
            },
            r matches Ok(request) ==> {
                &&& request.project_name@ == trim_spec(self.fields@[PROJECT_NAME as int].value@)
                &&& request.report_title@ == trim_spec(self.fields@[REPORT_TITLE as int].value@)
                &&& request.report_type@ == trim_spec(self.fields@[REPORT_TYPE as int].value@)
                &&& request.author@ == trim_spec(self.fields@[AUTHOR as int].value@)
                &&& request.program@ == trim_spec(self.fields@[PROGRAM as int].value@)
                &&& request.academic_year@ == trim_spec(self.fields@[ACADEMIC_YEAR as int].value@)
                &&& request.parent_directory@ == trim_spec(
                    self.fields@[PARENT_DIRECTORY as int].value@,
                )
                &&& request.folder_name@ == trim_spec(self.fields@[FOLDER_NAME as int].value@)
                &&& request.create_initial_commit == self.create_initial_commit
            },
    {
        let project = trim_chars(self.fields[PROJECT_NAME].value.as_str());
        let parent = trim_chars(self.fields[PARENT_DIRECTORY].value.as_str());
        let folder = trim_chars(self.fields[FOLDER_NAME].value.as_str());
        if project.len() == 0 {
            return Err(input_error(String::from_str("Repository name is required.")));
        }
        if parent.len() == 0 {
            return Err(input_error(String::from_str("Parent directory is required.")));
        }
        if folder.len() == 0 {
            return Err(input_error(String::from_str("Folder name is required.")));
        }
        if !is_directory_name(folder.as_slice()) {
            return Err(
                input_error(
                    String::from_str(
                        "Folder name must be a single directory name without path separators.",
                    ),
                ),
            );
        }
        let title = trim_chars(self.fields[REPORT_TITLE].value.as_str());
        if title.len() == 0 {
            return Err(input_error(String::from_str("Report title is required.")));
        }
        if self.fields_have_line_break() {
            return Err(input_error(String::from_str("Fields cannot contain line breaks.")));
        }
        let remote_text = trim(self.fields[GIT_REMOTE].value.as_str());
        let remote = if remote_text.as_str().is_empty() {
            None
        } else {
            Some(remote_text)
        };
        Ok(ProjectRequest {
            project_name: string_from_chars(project.as_slice()),
            report_title: string_from_chars(title.as_slice()),
            report_type: trim(self.fields[REPORT_TYPE].value.as_str()),
            author: trim(self.fields[AUTHOR].value.as_str()),
            program: trim(self.fields[PROGRAM].value.as_str()),
            academic_year: trim(self.fields[ACADEMIC_YEAR].value.as_str()),
            parent_directory: string_from_chars(parent.as_slice()),
            folder_name: string_from_chars(folder.as_slice()),
            remote,
            create_initial_commit: self.create_initial_commit,
        })
    }

    /// Whether some field up to the Git remote holds a line break.
    fn fields_have_line_break(&self) -> (r: bool)
        requires
            self.fields@.len() == FIELD_COUNT,
        ensures
            r == has_line_break(self.form().values),
    {
        let ghost values = self.form().values;
        let mut i: usize = 0;
        while i <= GIT_REMOTE
            invariant
                self.fields@.len() == FIELD_COUNT,
                values == self.form().values,
                i <= GIT_REMOTE + 1,
                forall|k: int|
                    0 <= k < i ==> !(#[trigger] values[k].contains('\n') || values[k].contains(
                        '\r',
                    )),
            decreases GIT_REMOTE + 1 - i,
        {
            proof {
                assert(values[i as int] == self.fields@[i as int].value@);
            }
            if str_has_line_break(self.fields[i].value.as_str()) {
                proof {
                    assert(values[i as int].contains('\n') || values[i as int].contains('\r'));
                }
                return true;
            }
            i += 1;
        }
        false
    }
}

impl ProjectRequest {
    /// The metadata written into the report template.
    pub fn metadata(&self) -> (m: crate::latex::ProjectMetadata<'_>)
        ensures
            m.project_name@ == self.project_name@,
            m.report_title@ == self.report_title@,
            m.report_type@ == self.report_type@,
            m.author@ == self.author@,
            m.program@ == self.program@,
            m.academic_year@ == self.academic_year@,
    {
        crate::latex::ProjectMetadata {
            project_name: self.project_name.as_str(),
            report_title: self.report_title.as_str(),
            report_type: self.report_type.as_str(),
            author: self.author.as_str(),
            program: self.program.as_str(),
            academic_year: self.academic_year.as_str(),
        }
    }
}


// ---------------------------------------------------------------------------
// What the screen shows
// ---------------------------------------------------------------------------

/// How a piece of text is emphasized.
pub enum Tone {
    /// Ordinary text.
    Plain,
    /// Secondary text: hints, placeholders, unfocused labels.
    Muted,
    /// The focused label.
    Focused,
    /// A success report.
    Success,
    /// An error report.
    Error,
}

/// One line of the form as drawn.
pub struct FormRow {
    /// The label, right-aligned, with a marker when focused.
    pub label: String,
    pub label_tone: Tone,
    /// The text shown in the value column.
    pub value: String,
    pub value_tone: Tone,
    /// How many columns the value is scrolled so the cursor stays visible.
    pub horizontal_scroll: u16,
    /// The column of the cursor within the value column, when it is shown.
    pub cursor: Option<u16>,
}

/// `a - b`, or 0 when `b` is greater.
pub open spec fn saturating_sub(a: int, b: int) -> int {
    if a >= b { a - b } else { 0 }
}

/// The hint shown when there is no status to report.
pub open spec fn idle_hint(active: int) -> Seq<char> {
    if active == PARENT_DIRECTORY {
        "Type a path or press Enter to browse directories. Tab: next"@
    } else {
        "Tab/Shift+Tab: navigate  Enter: next/create  Ctrl+G: create  Esc: quit"@
    }
}

/// Whether a terminal of this size can show the interface.
pub fn terminal_fits(width: u16, height: u16) -> (r: bool)
    ensures
        r == (width >= 60 && height >= 19),
{
    !(width < 60 || height < 19)
}

impl App {
    /// The status line: the last report, or a hint about the keys.
    pub fn status_line(&self) -> (r: (String, Tone))
        ensures
            match self.status {
                Some(st) => r.0@ == st.0@ && (if st.1 { r.1 is Error } else { r.1 is Success }),
                None => r.0@ == idle_hint(self.active as int) && r.1 is Muted,
            },
    {
        match &self.status {
            Some((message, is_error)) => (
                message.clone(),
                if *is_error { Tone::Error } else { Tone::Success },
            ),
            None => {
                if self.active == PARENT_DIRECTORY {
                    (
                        String::from_str(
                            "Type a path or press Enter to browse directories. Tab: next",
                        ),
                        Tone::Muted,
                    )
                } else {
                    (
                        String::from_str(
                            "Tab/Shift+Tab: navigate  Enter: next/create  Ctrl+G: create  Esc: quit",
                        ),
                        Tone::Muted,
                    )
                }
            },
        }
    }

    /// The line of the form for field `index` when its value column is
    /// `inner_width` columns wide.
    pub fn form_row(&self, index: usize, inner_width: u16) -> (row: FormRow)
        requires
            self.wf(),
            index < FIELD_COUNT,
        ensures
            ({
                let f = self.form();
                let field = self.fields@[index as int];
                let value = f.values[index as int];
                let active = index == self.active && self.directory_picker is None;
                let editing = active && index != INITIAL_COMMIT;
                let width = if editing {
                    (text_width(value.take(char_index(value, f.cursors[index as int]))) as u16) as int
                } else {
                    0
                };
                let scroll = saturating_sub(width, saturating_sub(inner_width as int, 1));
                &&& row.label@ == (if active { "> "@ } else { "  "@ }) + field.label@ + " "@
                &&& (if active { row.label_tone is Focused } else { row.label_tone is Muted })
                &&& (if index == INITIAL_COMMIT {
                    &&& row.value@ == (if self.create_initial_commit {
                        "[x] Yes"@
                    } else {
                        "[ ] No"@
                    })
                    &&& row.value_tone is Plain
                } else if value.len() == 0 {
                    row.value@ == field.placeholder@ && row.value_tone is Muted
                } else {
                    row.value@ == value && row.value_tone is Plain
                })
                &&& row.horizontal_scroll == scroll
                &&& (if editing {
                    row.cursor == Some((saturating_sub(width, scroll)) as u16)
                } else {
                    row.cursor is None
                })
            }),
    {
        let ghost f = self.form();
        let active = index == self.active && self.directory_picker.is_none();
        let editing = active && index != INITIAL_COMMIT;
        let mut label = if active { String::from_str("> ") } else { String::from_str("  ") };
        label.append(self.fields[index].label);
        label.append(" ");
        let label_tone = if active { Tone::Focused } else { Tone::Muted };
        let (value, value_tone) = if index == INITIAL_COMMIT {
            if self.create_initial_commit {
                (String::from_str("[x] Yes"), Tone::Plain)
            } else {
                (String::from_str("[ ] No"), Tone::Plain)
            }
        } else if self.fields[index].value.as_str().is_empty() {
            (String::from_str(self.fields[index].placeholder), Tone::Muted)
        } else {
            (self.fields[index].value.clone(), Tone::Plain)
        };
        let cursor_width: u16 = if editing {
            proof {
                assert(is_boundary(f.values[index as int], f.cursors[index as int]));
            }
            let cs = chars_of(self.fields[index].value.as_str());
            let k = char_index_of(cs.as_slice(), self.cursors[index]);
            let before = prefix_chars(self.fields[index].value.as_str(), k);
            let w = display_width(before.as_str());
            w as u16
        } else {
            0
        };
        let horizontal_scroll = cursor_width.saturating_sub(inner_width.saturating_sub(1));
        let cursor = if editing {
            Some(cursor_width.saturating_sub(horizontal_scroll))
        } else {
            None
        };
        FormRow { label, label_tone, value, value_tone, horizontal_scroll, cursor }
    }
}

/// The arguments joined with single spaces.
pub open spec fn join_spaced(args: Seq<Seq<char>>) -> Seq<char>
    decreases args.len(),
{
    if args.len() == 0 {
        Seq::empty()
    } else if args.len() == 1 {
        args[0]
    } else {
        join_spaced(args.drop_last()) + " "@ + args.last()
    }
}

/// The message for a failed Git command: what it wrote on its error stream,
/// trimmed, or else `git <arguments> failed`.
pub fn git_failure_message(stderr: &str, arguments: &[&str]) -> (message: String)
    ensures
        message@ == (if trim_spec(stderr@).len() > 0 {
            trim_spec(stderr@)
        } else {
            "git "@ + join_spaced(arguments@.map_values(|a: &str| a@)) + " failed"@
        }),
{
    let details = trim(stderr);
    if !details.as_str().is_empty() {
        return details;
    }
    let ghost args = arguments@.map_values(|a: &str| a@);
    let mut joined = String::new();
    let mut i: usize = 0;
    while i < arguments.len()
        invariant
            i <= arguments@.len(),
            args == arguments@.map_values(|a: &str| a@),
            joined@ == join_spaced(args.take(i as int)),
        decreases arguments@.len() - i,
    {
        if i > 0 {
            joined.append(" ");
        }
        joined.append(arguments[i]);
        proof {
            let t = args.take(i + 1);
            assert(t.drop_last() =~= args.take(i as int));
            if i == 0 {
                assert(args.take(0) =~= Seq::<Seq<char>>::empty());
            }
        }
        i += 1;
    }
    proof {
        assert(args.take(arguments@.len() as int) =~= args);
    }
    let mut message = String::from_str("git ");
    message.append(joined.as_str());
    message.append(" failed");
    message
}


// ---------------------------------------------------------------------------
// Laws
// ---------------------------------------------------------------------------

/// The consequences of an edit never touch the focused field itself.
proof fn lemma_after_edit_keeps_focused(f: FormView)
    requires
        form_wf(f),
    ensures
        after_edit_spec(f).values[f.active] == f.values[f.active],
        after_edit_spec(f).cursors[f.active] == f.cursors[f.active],
        after_edit_spec(f).active == f.active,
        after_edit_spec(f).values.len() == f.values.len(),
        after_edit_spec(f).cursors.len() == f.cursors.len(),
        form_wf(after_edit_spec(f)),
{
    let slug = slugify_spec(f.values[PROJECT_NAME as int]);
    lemma_byte_offset_end(slug);
    lemma_char_index(slug, slug.len() as int);
    let g = after_edit_spec(f);
    assert forall|i: int| 0 <= i < FIELD_COUNT implies is_boundary(#[trigger] g.values[i], g.cursors[i]) by {
        if i != FOLDER_NAME {
            assert(g.values[i] == f.values[i]);
            assert(g.cursors[i] == f.cursors[i]);
        }
    }
}

/// Erasing the character just typed gives back the focused field and its
/// cursor.
pub proof fn backspace_undoes_insert(f: FormView, c: char)
    requires
        form_wf(f),
        c != '\n',
        c != '\r',
    ensures
        backspace_spec(insert_spec(f, c)).active == f.active,
        backspace_spec(insert_spec(f, c)).values[f.active] == f.values[f.active],
        backspace_spec(insert_spec(f, c)).cursors[f.active] == f.cursors[f.active],
{
    let a = f.active;
    let v = f.values[a];
    let cur = f.cursors[a];
    assert(is_boundary(v, cur));
    let k = char_index(v, cur);
    let v1 = v.insert(k, c);
    let f0 = FormView { values: f.values.update(a, v1), cursors: f.cursors.update(a, cur + char_len(c)), ..f };
    crate::text::lemma_byte_offset_insert(v, k, c);
    crate::text::lemma_char_len_bounds(c);
    lemma_char_index(v1, k + 1);
    assert(form_wf(f0));
    lemma_after_edit_keeps_focused(f0);
    let f1 = insert_spec(f, c);
    assert(f1 == after_edit_spec(f0));
    assert(f1.values[a] == v1);
    assert(f1.cursors[a] == cur + char_len(c));
    assert(char_index(v1, cur + char_len(c)) == k + 1);
    assert(v1.remove(k) =~= v);
    lemma_char_index(v1, k);
    assert(previous_boundary_spec(v1, cur + char_len(c)) == cur);
    let f2 = FormView { values: f1.values.update(a, v), cursors: f1.cursors.update(a, cur), ..f1 };
    assert forall|i: int| 0 <= i < FIELD_COUNT implies is_boundary(#[trigger] f2.values[i], f2.cursors[i]) by {
        if i != a {
            assert(f2.values[i] == f1.values[i]);
            assert(f2.cursors[i] == f1.cursors[i]);
        }
    }
    lemma_after_edit_keeps_focused(f2);
}

/// Focusing the next field and then the previous one returns to the field.
pub proof fn focus_previous_undoes_focus_next(f: FormView)
    requires
        0 <= f.active < FIELD_COUNT,
    ensures
        focus_previous_spec(focus_next_spec(f)) == f,
{
}

/// Moving the cursor right and then left returns it where it was, unless it
/// was at the end of the field.
pub proof fn left_undoes_right(f: FormView)
    requires
        form_wf(f),
        f.cursors[f.active] < byte_len(f.values[f.active]),
    ensures
        left_spec(right_spec(f)) == f,
{
    let a = f.active;
    crate::text::previous_undoes_next(f.values[a], f.cursors[a]);
    assert(left_spec(right_spec(f)).cursors =~= f.cursors);
}

/// Moving the cursor left and then right returns it where it was, unless it
/// was at the start of the field.
pub proof fn right_undoes_left(f: FormView)
    requires
        form_wf(f),
        f.cursors[f.active] > 0,
    ensures
        right_spec(left_spec(f)) == f,
{
    let a = f.active;
    crate::text::next_undoes_previous(f.values[a], f.cursors[a]);
    assert(right_spec(left_spec(f)).cursors =~= f.cursors);
}


/// While the folder name follows the project name, it is the project name's
/// slug.
pub open spec fn folder_tracks_name(f: FormView) -> bool {
    f.folder_follows_name ==> f.values[FOLDER_NAME as int] == slugify_spec(
        f.values[PROJECT_NAME as int],
    )
}

proof fn lemma_edit_tracks(f: FormView, value: Seq<char>, cursor: int)
    requires
        form_wf(f),
        folder_tracks_name(f),
    ensures
        folder_tracks_name(edit_spec(f, value, cursor)),
{
    let g = FormView {
        values: f.values.update(f.active, value),
        cursors: f.cursors.update(f.active, cursor),
        ..f
    };
    if f.active != PROJECT_NAME && f.active != FOLDER_NAME {
        assert(g.values[PROJECT_NAME as int] == f.values[PROJECT_NAME as int]);
        assert(g.values[FOLDER_NAME as int] == f.values[FOLDER_NAME as int]);
    }
}

/// Every key of the form keeps the folder name equal to the project name's
/// slug while it follows the project name.
pub proof fn form_keys_keep_folder_slug(f: FormView, code: KeyCode)
    requires
        form_wf(f),
        folder_tracks_name(f),
    ensures
        folder_tracks_name(form_key_spec(f, code)),
{
    let value = f.values[f.active];
    let cursor = f.cursors[f.active];
    match code {
        KeyCode::Char(c) => {
            if f.active != INITIAL_COMMIT && c != '\n' && c != '\r' {
                lemma_edit_tracks(f, value.insert(char_index(value, cursor), c), cursor + char_len(c));
            }
        },
        KeyCode::Backspace => {
            if f.active != INITIAL_COMMIT && cursor != 0 {
                lemma_edit_tracks(
                    f,
                    value.remove(char_index(value, cursor) - 1),
                    previous_boundary_spec(value, cursor),
                );
            }
        },
        KeyCode::Delete => {
            if f.active != INITIAL_COMMIT && cursor != byte_len(value) {
                lemma_edit_tracks(f, value.remove(char_index(value, cursor)), cursor);
            }
        },
        _ => {},
    }
}

/// Every key keeps the folder name equal to the project name's slug while it
/// follows the project name, whether the form or the picker takes the key.
pub proof fn keys_keep_folder_slug(old: App, key: KeyInput, new: App, action: AppAction)
    requires
        old.wf(),
        folder_tracks_name(old.form()),
        old.directory_picker is None ==> form_key_result(old, key, new, action),
        old.directory_picker is Some ==> picker_key_result(old, key, new, action),
    ensures
        folder_tracks_name(new.form()),
{
    if old.directory_picker is None {
        if !key.control {
            form_keys_keep_folder_slug(old.form(), key.code);
        }
    } else {
        let f = old.form();
        let g = new.form();
        if g.values != f.values {
            assert(g.values[PROJECT_NAME as int] == f.values[PROJECT_NAME as int]);
            assert(g.values[FOLDER_NAME as int] == f.values[FOLDER_NAME as int]);
        }
    }
}

/// At start the folder name is the slug of the project name.
pub proof fn initial_folder_is_slug(current_directory: Seq<char>)
    ensures
        initial_values(current_directory)[FOLDER_NAME as int] == slugify_spec(
            initial_values(current_directory)[PROJECT_NAME as int],
        ),
{
    let s = initial_values(current_directory)[PROJECT_NAME as int];
    reveal_strlit("my-latex-project");
    assert(s =~= seq!['m', 'y', '-', 'l', 'a', 't', 'e', 'x', '-', 'p', 'r', 'o', 'j', 'e', 'c', 't']);
    assert(s[0] != '-');
    assert forall|i: int| 0 <= i < s.len() implies crate::slug::is_ascii_slug_char(#[trigger] s[i]) by {}
    assert forall|i: int| 0 <= i < s.len() implies s[i] == '-' || crate::slug::is_alphanumeric(
        #[trigger] s[i],
    ) by {}
    assert forall|i: int| 0 <= i < s.len() - 1 implies !(#[trigger] s[i] == '-' && s[i + 1] == '-') by {}
    crate::slug::ascii_slug_is_fixed(s);
}


/// A request taken from a form holds each field's trimmed value in the slot
/// of that field, and the form's choice about the initial commit.
pub proof fn request_holds_each_field(r: ProjectRequest, f: FormView)
    requires
        request_matches(r, f),
    ensures
        r.project_name@ == trim_spec(f.values[0]),
        r.report_title@ == trim_spec(f.values[1]),
        r.report_type@ == trim_spec(f.values[2]),
        r.author@ == trim_spec(f.values[3]),
        r.program@ == trim_spec(f.values[4]),
        r.academic_year@ == trim_spec(f.values[5]),
        r.parent_directory@ == trim_spec(f.values[6]),
        r.folder_name@ == trim_spec(f.values[7]),
        trim_spec(f.values[8]).len() > 0 ==> (r.remote matches Some(remote) && remote@
            == trim_spec(f.values[8])),
        trim_spec(f.values[8]).len() == 0 ==> r.remote is None,
        r.create_initial_commit == f.create_initial_commit,
{
}

/// A folder name without `.`, `/` and `\` names a single directory.
pub proof fn plain_names_are_directory_names(folder: Seq<char>)
    requires
        !folder.contains('.'),
        !folder.contains('/'),
        !folder.contains('\\'),
    ensures
        is_directory_name_spec(folder),
{
    reveal_strlit(".");
    reveal_strlit("..");
    if folder == "."@ {
        assert(folder[0] == '.');
    }
    if folder == ".."@ {
        assert(folder[0] == '.');
    }
}

/// Every slug names a single directory, so a folder name that follows the
/// project name always passes the check.
pub proof fn slugs_are_directory_names(s: Seq<char>)
    requires
        crate::slug::is_slug(s),
    ensures
        is_directory_name_spec(s),
{
    assert forall|c: char| c == '.' || c == '/' || c == '\\' implies !s.contains(c) by {
        if s.contains(c) {
            let i = choose|i: int| 0 <= i < s.len() && s[i] == c;
            assert(s[i] == '-' || crate::slug::is_alphanumeric(s[i]));
        }
    }
    plain_names_are_directory_names(s);
}

proof fn lemma_unbroken_text(s: Seq<char>)
    requires
        forall|i: int| 0 <= i < s.len() ==> #[trigger] s[i] != '\n' && s[i] != '\r',
    ensures
        !s.contains('\n'),
        !s.contains('\r'),
{
}

/// The form as it starts breaks no rule when the working directory is given
/// as a non-blank path without line breaks.
pub proof fn initial_form_is_valid(current_directory: Seq<char>)
    requires
        trim_spec(current_directory).len() > 0,
        !current_directory.contains('\n'),
        !current_directory.contains('\r'),
    ensures
        validation_error(initial_values(current_directory)) is None,
{
    let v = initial_values(current_directory);
    reveal_strlit("my-latex-project");
    reveal_strlit("My Project");
    reveal_strlit("Project Report");
    reveal_strlit("First LAST");
    reveal_strlit("Program");
    reveal_strlit("20XX--20XX");
    let name = v[PROJECT_NAME as int];
    assert(name =~= seq!['m', 'y', '-', 'l', 'a', 't', 'e', 'x', '-', 'p', 'r', 'o', 'j', 'e', 'c', 't']);
    assert(trim_start_spec(name) == name);
    assert(trim_end_spec(name) == name);
    assert(v[FOLDER_NAME as int] == name);
    assert forall|i: int| 0 <= i < name.len() implies #[trigger] name[i] != '.' && name[i] != '/'
        && name[i] != '\\' && name[i] != '\n' && name[i] != '\r' by {}
    plain_names_are_directory_names(name);
    let title = v[REPORT_TITLE as int];
    assert(title =~= seq!['M', 'y', ' ', 'P', 'r', 'o', 'j', 'e', 'c', 't']);
    assert(trim_start_spec(title) == title);
    assert(trim_end_spec(title) == title);
    lemma_unbroken_text(name);
    assert forall|i: int| 0 <= i < title.len() implies #[trigger] title[i] != '\n' && title[i] != '\r' by {}
    lemma_unbroken_text(title);
    let kind = v[REPORT_TYPE as int];
    assert(kind =~= seq!['P', 'r', 'o', 'j', 'e', 'c', 't', ' ', 'R', 'e', 'p', 'o', 'r', 't']);
    assert forall|i: int| 0 <= i < kind.len() implies #[trigger] kind[i] != '\n' && kind[i] != '\r' by {}
    lemma_unbroken_text(kind);
    let author = v[AUTHOR as int];
    assert(author =~= seq!['F', 'i', 'r', 's', 't', ' ', 'L', 'A', 'S', 'T']);
    assert forall|i: int| 0 <= i < author.len() implies #[trigger] author[i] != '\n' && author[i] != '\r' by {}
    lemma_unbroken_text(author);
    let program = v[PROGRAM as int];
    assert(program =~= seq!['P', 'r', 'o', 'g', 'r', 'a', 'm']);
    assert forall|i: int| 0 <= i < program.len() implies #[trigger] program[i] != '\n' && program[i] != '\r' by {}
    lemma_unbroken_text(program);
    let year = v[ACADEMIC_YEAR as int];
    assert(year =~= seq!['2', '0', 'X', 'X', '-', '-', '2', '0', 'X', 'X']);
    assert forall|i: int| 0 <= i < year.len() implies #[trigger] year[i] != '\n' && year[i] != '\r' by {}
    lemma_unbroken_text(year);
    lemma_unbroken_text(v[GIT_REMOTE as int]);
    assert(!has_line_break(v)) by {
        if has_line_break(v) {
            let i = choose|i: int|
                0 <= i <= GIT_REMOTE && (#[trigger] v[i].contains('\n') || v[i].contains('\r'));
            assert(0 <= i <= 8);
        }
    }
}

/// Tab and Down focus the next field of the form, after the last one the
/// first; Shift+Tab and Up focus the previous field, before the first one
/// the last. Nothing else in the form changes.
pub proof fn tab_steps_through_fields(old: App, key: KeyInput, new: App, action: AppAction)
    requires
        old.wf(),
        old.directory_picker is None,
        !key.control,
        form_key_result(old, key, new, action),
    ensures
        (key.code is Tab || key.code is Down) ==> new.active as int == (old.active as int + 1) % 10,
        (key.code is BackTab || key.code is Up) ==> new.active as int == (old.active as int + 9)
            % 10,
        (key.code is Tab || key.code is Down || key.code is BackTab || key.code is Up) ==> {
            &&& new.form().values == old.form().values
            &&& new.form().cursors == old.form().cursors
            &&& new.create_initial_commit == old.create_initial_commit
            &&& action is Nothing
        },
{
}

/// In the open picker Down moves the selection to the next entry and stays
/// on the last one; Up moves it to the previous entry and stays on the
/// first; Home goes to the first entry and End to the last. The shown
/// directory and its entries stay, and no outside work is asked for.
pub proof fn picker_keys_move_the_selection(old: App, key: KeyInput, new: App, action: AppAction)
    requires
        old.wf(),
        old.directory_picker is Some,
        !key.control,
        key.code is Down || key.code is Up || key.code is Home || key.code is End,
        picker_key_result(old, key, new, action),
    ensures
        new.directory_picker is Some,
        ({
            let p = old.directory_picker->0;
            let q = new.directory_picker->0;
            let s = p.selected as int;
            let t = q.selected as int;
            let n = p.entries@.len() as int;
            &&& key.code is Down ==> (s < n - 1 ==> t == s + 1) && (s == n - 1 ==> t == s)
            &&& key.code is Up ==> (s > 0 ==> t == s - 1) && (s == 0 ==> t == 0)
            &&& key.code is Home ==> t == 0
            &&& key.code is End ==> t == n - 1
            &&& q.current == p.current
            &&& q.entries == p.entries
        }),
        action is Nothing,
        new.form() == old.form(),
{
}


/// What the form's keys ask for while no picker is open: Control-G creates
/// the project and Control-C quits, leaving the form as it is; Escape quits;
/// Enter opens the picker on the parent directory field, creates the project
/// on the last field and focuses the next field elsewhere; Space on the last
/// field flips the initial commit choice and nothing else. Every key clears
/// the status.
pub proof fn form_key_actions(old: App, key: KeyInput, new: App, action: AppAction)
    requires
        old.wf(),
        old.directory_picker is None,
        form_key_result(old, key, new, action),
    ensures
        new.status is None,
        new.directory_picker is None,
        key.control ==> new.form() == old.form(),
        key.control && key.code == KeyCode::Char('g') ==> action is Submit && new.quit == old.quit,
        key.control && key.code == KeyCode::Char('c') ==> new.quit && action is Nothing,
        !key.control && key.code is Esc ==> new.quit && action is Nothing && new.form()
            == old.form(),
        !key.control && key.code is Enter && old.active == PARENT_DIRECTORY ==> action
            is OpenDirectoryPicker && new.form() == old.form() && !new.quit == !old.quit,
        !key.control && key.code is Enter && old.active == INITIAL_COMMIT ==> action is Submit
            && new.form() == old.form(),
        !key.control && key.code is Enter && old.active != PARENT_DIRECTORY && old.active
            != INITIAL_COMMIT ==> action is Nothing && new.active == old.active + 1
            && new.form().values == old.form().values,
        !key.control && key.code == KeyCode::Char(' ') && old.active == INITIAL_COMMIT ==> {
            &&& new.create_initial_commit == !old.create_initial_commit
            &&& new.form().values == old.form().values
            &&& new.active == old.active
            &&& action is Nothing
        },
{
}

/// Typing a character other than a line break in a text field puts it at the
/// cursor, keeps every other character of the field in place around it, and
/// moves the cursor just past it.
pub proof fn typing_inserts_at_cursor(f: FormView, c: char)
    requires
        form_wf(f),
        f.active != INITIAL_COMMIT,
        c != '\n',
        c != '\r',
    ensures
        ({
            let g = form_key_spec(f, KeyCode::Char(c));
            let v = f.values[f.active];
            let k = char_index(v, f.cursors[f.active]);
            let w = g.values[f.active];
            &&& g.active == f.active
            &&& w.len() == v.len() + 1
            &&& w.take(k) == v.take(k)
            &&& w[k] == c
            &&& w.skip(k + 1) == v.skip(k)
            &&& g.cursors[f.active] == f.cursors[f.active] + char_len(c)
        }),
{
    let a = f.active;
    let v = f.values[a];
    let cur = f.cursors[a];
    assert(is_boundary(v, cur));
    let k = char_index(v, cur);
    let v1 = v.insert(k, c);
    let f0 = FormView {
        values: f.values.update(a, v1),
        cursors: f.cursors.update(a, cur + char_len(c)),
        ..f
    };
    crate::text::lemma_byte_offset_insert(v, k, c);
    lemma_char_index(v1, k + 1);
    assert forall|i: int| 0 <= i < FIELD_COUNT implies is_boundary(#[trigger] f0.values[i], f0.cursors[i]) by {
        if i != a {
            assert(f0.values[i] == f.values[i]);
            assert(f0.cursors[i] == f.cursors[i]);
        }
    }
    lemma_after_edit_keeps_focused(f0);
    assert(v1.take(k) =~= v.take(k));
    assert(v1.skip(k + 1) =~= v.skip(k));
}

/// What the picker's keys do: Enter (or Right) on the first entry, or S,
/// chooses the shown directory as the parent directory, closes the picker
/// and focuses the folder name; Enter on another entry asks to open its path
/// and changes nothing yet; Backspace (or Left) asks to open the parent of
/// the shown directory; Escape closes the picker and keeps the form.
pub proof fn picker_key_actions(old: App, key: KeyInput, new: App, action: AppAction)
    requires
        old.wf(),
        old.directory_picker is Some,
        !key.control,
        picker_key_result(old, key, new, action),
    ensures
        ({
            let p = old.directory_picker->0;
            let entry = p.entries_view()[p.selected as int];
            let chosen = (key.code is Enter || key.code is Right) && entry is SelectCurrent
                || key.code == KeyCode::Char('s') || key.code == KeyCode::Char('S');
            &&& chosen ==> {
                &&& new.form().values[PARENT_DIRECTORY as int] == p.current@
                &&& new.directory_picker is None
                &&& new.active == FOLDER_NAME
                &&& action is Nothing
            }
            &&& (key.code is Enter || key.code is Right) ==> (entry matches crate::picker::EntryView::Directory(
                path,
            ) ==> (action matches AppAction::OpenInPicker(q) && q@ == path && new.form()
                == old.form() && new.directory_picker == old.directory_picker))
            &&& (key.code is Enter || key.code is Right) ==> (entry matches crate::picker::EntryView::Parent(
                path,
            ) ==> (action matches AppAction::OpenInPicker(q) && q@ == path && new.form()
                == old.form() && new.directory_picker == old.directory_picker))
            &&& (key.code is Backspace || key.code is Left) ==> {
                &&& new.form() == old.form()
                &&& new.directory_picker == old.directory_picker
                &&& (crate::paths::parent_of(p.current@) matches Some(parent) ==> (action matches AppAction::OpenInPicker(
                    q,
                ) && q@ == parent))
                &&& crate::paths::parent_of(p.current@) is None ==> action is Nothing
            }
            &&& key.code is Esc ==> new.directory_picker is None && new.form() == old.form()
                && action is Nothing
        }),
{
}

} // verus!
