//! The directory picker: its entries, its selection and the decisions it
//! takes on the user's keys. Reading directories is left to the caller, who
//! hands the listing in.

use vstd::prelude::*;
use crate::order::{stable_sort_by_keys, stably_sorted, strings_view};
use crate::paths::{file_name_of, lowercase_of, parent_of, path_file_name, path_parent, str_to_lowercase};
use crate::text::chars_of;

verus! {

/// One line of the picker.
pub enum PickerEntry {
    /// Chooses the directory that is shown.
    SelectCurrent,
    /// Opens the parent directory.
    Parent(String),
    /// Opens a subdirectory.
    Directory(String),
}

/// The mathematical content of a [`PickerEntry`].
pub enum EntryView {
    SelectCurrent,
    Parent(Seq<char>),
    Directory(Seq<char>),
}

impl View for PickerEntry {
    type V = EntryView;

    open spec fn view(&self) -> EntryView {
        match self {
            PickerEntry::SelectCurrent => EntryView::SelectCurrent,
            PickerEntry::Parent(p) => EntryView::Parent(p@),
            PickerEntry::Directory(p) => EntryView::Directory(p@),
        }
    }
}

/// The text shown for an entry.
pub open spec fn label_spec(entry: EntryView) -> Seq<char> {
    match entry {
        EntryView::SelectCurrent => "[ Select this directory ]"@,
        EntryView::Parent(_) => "../"@,
        EntryView::Directory(path) => match file_name_of(path) {
            Some(name) => name + "/"@,
            None => path + "/"@,
        },
    }
}

impl PickerEntry {
    /// The text shown for this entry: a directory shows its last component
    /// (or its whole path when it has none) followed by `/`.
    pub fn label(&self) -> (r: String)
        ensures
            r@ == label_spec(self@),
    {
        match self {
            PickerEntry::SelectCurrent => String::from_str("[ Select this directory ]"),
            PickerEntry::Parent(_) => String::from_str("../"),
            PickerEntry::Directory(path) => {
                let mut text = match path_file_name(path.as_str()) {
                    Some(name) => name,
                    None => path.clone(),
                };
                text.append("/");
                text
            },
        }
    }
}

/// The key by which subdirectories are ordered: their last component in
/// lowercase.
pub open spec fn sort_key(path: Seq<char>) -> Seq<char> {
    match file_name_of(path) {
        Some(name) => lowercase_of(name),
        None => lowercase_of(Seq::empty()),
    }
}

/// The sort keys of `paths`.
pub open spec fn sort_keys(paths: Seq<Seq<char>>) -> Seq<Seq<char>> {
    paths.map_values(|p: Seq<char>| sort_key(p))
}

/// The entries that precede the subdirectories: the choice of the shown
/// directory, then its parent when it has one.
pub open spec fn header_entries(current: Seq<char>) -> Seq<EntryView> {
    match parent_of(current) {
        Some(parent) => seq![EntryView::SelectCurrent, EntryView::Parent(parent)],
        None => seq![EntryView::SelectCurrent],
    }
}

/// Entries that open the given directories.
pub open spec fn directory_entries(paths: Seq<Seq<char>>) -> Seq<EntryView> {
    paths.map_values(|p: Seq<char>| EntryView::Directory(p))
}

/// What the picker does after an entry is chosen.
pub enum PickerChoice {
    /// The directory with this path is chosen.
    Select(String),
    /// The directory with this path is to be opened in the picker.
    Open(String),
    /// Nothing happens.
    Nothing,
}

/// What came of resolving a path that the picker was asked to open.
pub enum OpenOutcome {
    /// The path resolved to this directory, whose subdirectories were listed
    /// (or could not be listed, with this message).
    Directory { path: String, listing: Result<Vec<String>, String> },
    /// The path resolved to something that is not a directory.
    NotDirectory,
    /// The path could not be resolved, with this message.
    Failed(String),
}

/// Whether `new` is `old` after asked to open `requested`, which came to
/// `outcome`: a directory is shown from its first entry, with its listing; a
/// failure is recorded as the picker's error and nothing else changes.
pub open spec fn opened(
    old: DirectoryPicker,
    requested: Seq<char>,
    outcome: OpenOutcome,
    new: DirectoryPicker,
) -> bool {
    match outcome {
        OpenOutcome::Directory { path, listing } => {
            &&& new.current@ == path@
            &&& new.selected == 0
            &&& new.listed(
                match listing {
                    Ok(dirs) => Ok(strings_view(dirs@)),
                    Err(message) => Err(message@),
                },
            )
        },
        OpenOutcome::NotDirectory => {
            &&& new.error matches Some(e) && e@ == "Not a directory: "@ + requested
            &&& new.current == old.current
            &&& new.entries == old.entries
            &&& new.selected == old.selected
        },
        OpenOutcome::Failed(message) => {
            &&& new.error matches Some(e) && e@ == message@
            &&& new.current == old.current
            &&& new.entries == old.entries
            &&& new.selected == old.selected
        },
    }
}

/// A line of the picker as it is drawn.
pub struct PickerLine {
    pub text: String,
    pub highlighted: bool,
}

/// The help line of the picker.
pub open spec fn picker_help() -> Seq<char> {
    "\u{2191}/\u{2193}: navigate  Enter: open/select  Backspace: parent  S: select current  Esc: cancel"@
}

/// Browses directories to choose the parent directory of a new project.
pub struct DirectoryPicker {
    pub current: String,
    pub entries: Vec<PickerEntry>,
    pub selected: usize,
    pub error: Option<String>,
}

/// The index of the first entry shown when `visible` lines fit and `selected`
/// must be shown.
pub open spec fn scroll_offset(selected: int, visible: int) -> int {
    let room = if visible >= 1 { visible - 1 } else { 0 };
    if selected >= room { selected - room } else { 0 }
}

impl DirectoryPicker {
    /// The entries, as values.
    pub open spec fn entries_view(&self) -> Seq<EntryView> {
        self.entries@.map_values(|e: PickerEntry| e@)
    }

    /// There is at least one entry and the selection is one of them.
    pub open spec fn wf(&self) -> bool {
        &&& self.entries@.len() >= 1
        &&& self.selected < self.entries@.len()
    }

    /// The entries after a listing of the shown directory: the header, then
    /// the listed subdirectories sorted by their lowercase names (stably).
    pub open spec fn listed(&self, listing: Result<Seq<Seq<char>>, Seq<char>>) -> bool {
        match listing {
            Ok(dirs) => {
                &&& self.error is None
                &&& exists|sorted: Seq<Seq<char>>|
                    #![trigger directory_entries(sorted)]
                    stably_sorted(dirs, sort_keys(dirs), sorted) && self.entries_view()
                        == header_entries(self.current@) + directory_entries(sorted)
            },
            Err(message) => {
                &&& self.error matches Some(e) && e@ == message
                &&& self.entries_view() == header_entries(self.current@)
            },
        }
    }

    /// Rebuilds the entries from a listing of the subdirectories of the shown
    /// directory, and keeps the selection within them.
    pub fn refresh(&mut self, listing: Result<Vec<String>, String>)
        ensures
            final(self).current == old(self).current,
            final(self).listed(
                match listing {
                    Ok(dirs) => Ok(strings_view(dirs@)),
                    Err(message) => Err(message@),
                },
            ),
            final(self).wf(),
            final(self).selected == (if old(self).selected < final(self).entries@.len() {
                old(self).selected as int
            } else {
                final(self).entries@.len() - 1
            }),
    {
        let mut entries: Vec<PickerEntry> = Vec::new();
        entries.push(PickerEntry::SelectCurrent);
        match path_parent(self.current.as_str()) {
            Some(parent) => entries.push(PickerEntry::Parent(parent)),
            None => {},
        }
        let ghost header = header_entries(self.current@);
        proof {
            assert(entries@.map_values(|e: PickerEntry| e@) =~= header);
        }
        match listing {
            Ok(directories) => {
                let ghost dirs = strings_view(directories@);
                let mut keys: Vec<Vec<char>> = Vec::new();
                let mut i: usize = 0;
                while i < directories.len()
                    invariant
                        i <= directories@.len(),
                        dirs == strings_view(directories@),
                        keys@.len() == i,
                        forall|k: int| 0 <= k < i ==> #[trigger] keys@[k]@ == sort_key(dirs[k]),
                    decreases directories@.len() - i,
                {
                    let name = match path_file_name(directories[i].as_str()) {
                        Some(name) => name,
                        None => String::new(),
                    };
                    let lower = str_to_lowercase(name.as_str());
                    keys.push(chars_of(lower.as_str()));
                    i += 1;
                }
                proof {
                    assert(keys@.map_values(|k: Vec<char>| k@) =~= sort_keys(dirs));
                }
                let sorted = stable_sort_by_keys(directories, keys);
                let ghost start = entries@.len();
                let mut j: usize = 0;
                while j < sorted.len()
                    invariant
                        j <= sorted@.len(),
                        entries@.len() == start + j,
                        entries@.map_values(|e: PickerEntry| e@) == header + directory_entries(
                            strings_view(sorted@).take(j as int),
                        ),
                    decreases sorted@.len() - j,
                {
                    let path = sorted[j].clone();
                    let ghost prev = entries@;
                    entries.push(PickerEntry::Directory(path));
                    proof {
                        assert(entries@.map_values(|e: PickerEntry| e@) =~= prev.map_values(
                            |e: PickerEntry| e@,
                        ).push(EntryView::Directory(sorted@[j as int]@)));
                        let t = strings_view(sorted@);
                        assert(t.take(j + 1) =~= t.take(j as int).push(t[j as int]));
                        assert(directory_entries(t.take(j + 1)) =~= directory_entries(
                            t.take(j as int),
                        ).push(EntryView::Directory(t[j as int])));
                        assert(entries@.map_values(|e: PickerEntry| e@) =~= header
                            + directory_entries(t.take(j + 1)));
                    }
                    j += 1;
                }
                proof {
                    let t = strings_view(sorted@);
                    assert(t.take(t.len() as int) =~= t);
                }
                self.entries = entries;
                self.error = None;
                proof {
                    let t = strings_view(sorted@);
                    assert(stably_sorted(dirs, sort_keys(dirs), t));
                    assert(self.entries_view() == header + directory_entries(t));
                }
            },
            Err(message) => {
                self.entries = entries;
                self.error = Some(message);
            },
        }
        let last = self.entries.len() - 1;
        if self.selected > last {
            self.selected = last;
        }
    }

    /// A picker showing `current`, with the first entry selected.
    pub fn new(current: String, listing: Result<Vec<String>, String>) -> (picker: DirectoryPicker)
        ensures
            picker.current@ == current@,
            picker.selected == 0,
            picker.wf(),
            picker.listed(
                match listing {
                    Ok(dirs) => Ok(strings_view(dirs@)),
                    Err(message) => Err(message@),
                },
            ),
    {
        let mut picker = DirectoryPicker {
            current,
            entries: Vec::new(),
            selected: 0,
            error: None,
        };
        picker.refresh(listing);
        picker
    }

    /// Moves the selection one entry up, stopping at the first.
    pub fn move_up(&mut self)
        ensures
            final(self).selected == (if old(self).selected > 0 {
                old(self).selected - 1
            } else {
                0
            }),
            final(self).current == old(self).current,
            final(self).entries == old(self).entries,
            final(self).error == old(self).error,
    {
        self.selected = self.selected.saturating_sub(1);
    }

    /// Moves the selection one entry down, stopping at the last.
    pub fn move_down(&mut self)
        requires
            old(self).wf(),
        ensures
            final(self).selected == (if old(self).selected + 1 < old(self).entries@.len() {
                old(self).selected + 1
            } else {
                old(self).entries@.len() - 1
            }),
            final(self).current == old(self).current,
            final(self).entries == old(self).entries,
            final(self).error == old(self).error,
            final(self).wf(),
    {
        let last = self.entries.len() - 1;
        let next = self.selected + 1;
        self.selected = if next < last { next } else { last };
    }

    /// What choosing the selected entry does: the shown directory is chosen,
    /// or the parent or subdirectory is to be opened.
    pub fn enter_selected(&self) -> (choice: PickerChoice)
        ensures
            self.selected >= self.entries@.len() ==> choice is Nothing,
            self.selected < self.entries@.len() ==> match self.entries_view()[self.selected as int] {
                EntryView::SelectCurrent => choice matches PickerChoice::Select(p) && p@ == self.current@,
                EntryView::Parent(path) => choice matches PickerChoice::Open(p) && p@ == path,
                EntryView::Directory(path) => choice matches PickerChoice::Open(p) && p@ == path,
            },
    {
        if self.selected >= self.entries.len() {
            return PickerChoice::Nothing;
        }
        match &self.entries[self.selected] {
            PickerEntry::SelectCurrent => PickerChoice::Select(self.current.clone()),
            PickerEntry::Parent(path) => PickerChoice::Open(path.clone()),
            PickerEntry::Directory(path) => PickerChoice::Open(path.clone()),
        }
    }

    /// The parent of the shown directory, which is then to be opened.
    pub fn go_to_parent(&self) -> (parent: Option<String>)
        ensures
            parent is Some <==> parent_of(self.current@) is Some,
            parent matches Some(p) ==> parent_of(self.current@) == Some(p@),
    {
        path_parent(self.current.as_str())
    }

    /// Shows the directory that `requested` resolved to, or records why it
    /// could not be shown.
    pub fn open(&mut self, requested: &str, outcome: OpenOutcome)
        requires
            old(self).wf(),
        ensures
            final(self).wf(),
            opened(*old(self), requested@, outcome, *final(self)),
    {
        match outcome {
            OpenOutcome::Directory { path, listing } => {
                self.current = path;
                self.selected = 0;
                self.refresh(listing);
            },
            OpenOutcome::NotDirectory => {
                let mut message = String::from_str("Not a directory: ");
                message.append(requested);
                self.error = Some(message);
            },
            OpenOutcome::Failed(message) => {
                self.error = Some(message);
            },
        }
    }

    /// The text of the help line and whether it reports an error.
    pub fn help_line(&self) -> (r: (String, bool))
        ensures
            match self.error {
                Some(e) => r.0@ == e@ && r.1,
                None => r.0@ == picker_help() && !r.1,
            },
    {
        match &self.error {
            Some(e) => (e.clone(), true),
            None => (
                String::from_str(
                    "\u{2191}/\u{2193}: navigate  Enter: open/select  Backspace: parent  S: select current  Esc: cancel",
                ),
                false,
            ),
        }
    }

    /// The lines drawn when `visible_count` lines fit: the entries from the
    /// scroll offset on, each as ` <label> `, the selected one highlighted.
    pub fn visible_lines(&self, visible_count: usize) -> (lines: Vec<PickerLine>)
        ensures
            lines@.len() == visible_line_count(
                self.selected as int,
                visible_count as int,
                self.entries@.len() as int,
            ),
            forall|i: int|
                #![trigger lines@[i]]
                0 <= i < lines@.len() ==> {
                    let index = scroll_offset(self.selected as int, visible_count as int) + i;
                    &&& lines@[i].text@ == line_text(self.entries_view()[index])
                    &&& lines@[i].highlighted == (index == self.selected)
                },
    {
        let offset = self.selected.saturating_sub(visible_count.saturating_sub(1));
        let mut lines: Vec<PickerLine> = Vec::new();
        let mut index = offset;
        let mut taken: usize = 0;
        while index < self.entries.len() && taken < visible_count
            invariant
                offset == scroll_offset(self.selected as int, visible_count as int),
                index == offset + taken,
                taken <= visible_count,
                offset < self.entries@.len() ==> index <= self.entries@.len(),
                offset >= self.entries@.len() ==> taken == 0,
                lines@.len() == taken,
                forall|i: int|
                    #![trigger lines@[i]]
                    0 <= i < taken ==> {
                        &&& lines@[i].text@ == line_text(self.entries_view()[offset + i])
                        &&& lines@[i].highlighted == (offset + i == self.selected)
                    },
            decreases visible_count - taken,
        {
            let line = picker_line(&self.entries[index], index == self.selected);
            let ghost prev = lines@;
            lines.push(line);
            proof {
                assert(self.entries_view()[index as int] == self.entries@[index as int]@);
                assert forall|i: int| #![trigger lines@[i]] 0 <= i < taken + 1 implies {
                    &&& lines@[i].text@ == line_text(self.entries_view()[offset + i])
                    &&& lines@[i].highlighted == (offset + i == self.selected)
                } by {
                    if i < taken {
                        assert(lines@[i] == prev[i]);
                    } else {
                        assert(lines@[i] == line);
                    }
                }
            }
            index += 1;
            taken += 1;
        }
        lines
    }
}

/// The text drawn for an entry.
pub open spec fn line_text(entry: EntryView) -> Seq<char> {
    " "@ + label_spec(entry) + " "@
}

/// The number of entries drawn when `visible` lines fit.
pub open spec fn visible_line_count(selected: int, visible: int, len: int) -> int {
    let offset = scroll_offset(selected, visible);
    if offset >= len {
        0
    } else if len - offset < visible {
        len - offset
    } else {
        visible
    }
}

fn picker_line(entry: &PickerEntry, highlighted: bool) -> (line: PickerLine)
    ensures
        line.text@ == line_text(entry@),
        line.highlighted == highlighted,
{
    let label = entry.label();
    let mut text = String::from_str(" ");
    text.append(label.as_str());
    text.append(" ");
    PickerLine { text, highlighted }
}

} // verus!
