//! Typing a path, with suggestions to complete it.

use vstd::prelude::*;

use crate::codec;
use crate::codec::{file_name, last_component, last_component_ends_the_path, splits_path};
use crate::geometry;
use crate::input::{KeyCode, KeyEvent, MouseEventKind, TextInput, TextView};
use crate::text;
use crate::text::{chars_of, string_of, strip_prefix};

verus! {

broadcast use crate::text::group_views;

/// The number of suggestions that are shown at a time.
pub const PATH_SUGGESTION_PAGE_SIZE: usize = 12;

/// What a path is asked for.
#[derive(Clone, Copy, Debug, PartialEq, Eq, Structural)]
pub enum PathAction {
    SaveOverlay,
    LoadOverlay,
    SaveBinary,
    SaveTheme,
    LoadTheme,
}

/// A path that may be meant, how it is typed out, and whether it leads to a directory.
#[derive(Clone, Debug, PartialEq, Eq)]
pub struct Suggestion {
    pub path: String,
    pub shown: String,
    pub is_dir: bool,
}

/// The contents of a [`Suggestion`].
pub struct SuggestionView {
    pub path: Seq<char>,
    pub shown: Seq<char>,
    pub is_dir: bool,
}

impl View for Suggestion {
    type V = SuggestionView;

    open spec fn view(&self) -> SuggestionView {
        SuggestionView { path: self.path@, shown: self.shown@, is_dir: self.is_dir }
    }
}

impl SuggestionView {
    /// The suggestion of a path that leads to a directory, or does not.
    pub open spec fn of(path: Seq<char>, is_dir: bool, separator: char) -> SuggestionView {
        SuggestionView { path, shown: shown_path(path, is_dir, separator), is_dir }
    }
}

/// Suggestions of which it was found out anew, as far as `leads` goes, whether they lead to a
/// directory.
pub open spec fn rechecked(
    suggestions: Seq<SuggestionView>,
    leads: Seq<bool>,
    separator: char,
) -> Seq<SuggestionView> {
    Seq::new(
        suggestions.len(),
        |i: int|
            if i < leads.len() {
                SuggestionView::of(suggestions[i].path, leads[i], separator)
            } else {
                suggestions[i]
            },
    )
}

/// Takes up whether suggestions lead to a directory by now.
pub fn recheck_suggestions(suggestions: &mut Vec<Suggestion>, leads: &Vec<bool>, separator: char)
    ensures
        text::views(final(suggestions)@) == rechecked(
            text::views(old(suggestions)@),
            leads@,
            separator,
        ),
{
    let ghost before = text::views(suggestions@);
    let mut i: usize = 0;
    while i < suggestions.len() && i < leads.len()
        invariant
            i <= suggestions.len(),
            i <= leads.len(),
            suggestions@.len() == before.len(),
            forall|k: int|
                0 <= k < i ==> (#[trigger] suggestions@[k])@ == rechecked(
                    before,
                    leads@,
                    separator,
                )[k],
            forall|k: int| i <= k < before.len() ==> (#[trigger] suggestions@[k])@ == before[k],
        decreases suggestions.len() - i,
    {
        let path = suggestions[i].path.clone();
        let shown = completion_display_path(&path, leads[i], separator);
        suggestions.set(i, Suggestion { path, shown, is_dir: leads[i] });
        i = i + 1;
    }
    assert(text::views(suggestions@) =~= rechecked(before, leads@, separator));
}

/// A path that is being typed, with the suggestions that were found for it.
pub struct CompletionView {
    pub input: TextView,
    pub suggestions: Seq<SuggestionView>,
    pub active: Option<usize>,
    pub scroll: int,
}

impl CompletionView {
    /// The cursor lies in the input, and the chosen suggestion is one of them.
    pub open spec fn wf(self) -> bool {
        &&& self.input.wf()
        &&& self.active matches Some(index) ==> index < self.suggestions.len()
    }

    /// Nothing typed and nothing found.
    pub open spec fn blank() -> CompletionView {
        CompletionView { input: TextView::blank(), suggestions: Seq::empty(), active: None, scroll: 0 }
    }

    /// A path that is put up to be changed.
    pub open spec fn suggesting(path: Seq<char>) -> CompletionView {
        CompletionView { input: TextView::holding(path, true), ..CompletionView::blank() }
    }

    /// Without the suggestions.
    pub open spec fn dropped(self) -> CompletionView {
        CompletionView { suggestions: Seq::empty(), active: None, scroll: 0, ..self }
    }

    /// The chosen suggestion leads to a directory.
    pub open spec fn at_directory(self) -> bool {
        self.active matches Some(index) && self.suggestions[index as int].is_dir
    }

    /// With the path of the suggestion at `index` typed, and that suggestion in sight.
    pub open spec fn selected(self, index: int) -> CompletionView {
        CompletionView {
            input: TextView::holding(self.suggestions[index].shown, false),
            active: Some(index as usize),
            scroll: if index < self.scroll {
                index
            } else if index >= geometry::plus(self.scroll, PATH_SUGGESTION_PAGE_SIZE as int) {
                index + 1 - PATH_SUGGESTION_PAGE_SIZE
            } else {
                self.scroll
            },
            ..self
        }
    }

    /// With the suggestion chosen that lies `delta` further on, as far as there is one. From no
    /// suggestion the way starts at the first, or at the last where it leads back.
    pub open spec fn stepped(self, delta: int) -> CompletionView {
        let last = self.suggestions.len() - 1;
        let current = match self.active {
            Some(index) => index as int,
            None => if delta < 0 {
                last
            } else {
                0
            },
        };
        self.selected(geometry::min(geometry::max(current + delta, 0), last))
    }

    /// With the next suggestion chosen, the first one after the last.
    pub open spec fn cycled(self) -> CompletionView {
        self.selected(
            match self.active {
                Some(index) => (index + 1) % self.suggestions.len() as int,
                None => 0,
            },
        )
    }

    /// With the paths that were found for the input: a single one is typed, several are
    /// suggested.
    pub open spec fn offered(self, candidates: Seq<SuggestionView>) -> CompletionView {
        if candidates.len() == 0 {
            CompletionView { active: None, scroll: 0, ..self }
        } else if candidates.len() == 1 {
            CompletionView {
                input: TextView::holding(candidates[0].shown, false),
                ..self.dropped()
            }
        } else {
            CompletionView { suggestions: candidates, active: None, scroll: 0, ..self }
        }
    }

    /// With a directory entered: its path is typed and the suggestions are gone.
    pub open spec fn descended(self) -> CompletionView {
        match self.active {
            Some(index) => CompletionView {
                input: TextView::holding(self.suggestions[index as int].shown, false),
                ..self.dropped()
            },
            None => self,
        }
    }

    /// After a key that moves among the suggestions or edits the input.
    pub open spec fn after_key(self, key: KeyEvent) -> CompletionView {
        let page = PATH_SUGGESTION_PAGE_SIZE as int;
        let edited = CompletionView { input: self.input.after_key(key), ..self }.dropped();
        if self.suggestions.len() == 0 {
            edited
        } else {
            match key.code {
                KeyCode::Down => self.stepped(1),
                KeyCode::Up => self.stepped(-1),
                KeyCode::PageDown => self.stepped(page),
                KeyCode::PageUp => self.stepped(-page),
                KeyCode::Home => self.selected(0),
                KeyCode::End => self.selected(self.suggestions.len() - 1),
                _ => edited,
            }
        }
    }

    /// With it found out anew whether the suggestions lead to a directory.
    pub open spec fn rechecked(self, leads: Seq<bool>, separator: char) -> CompletionView {
        CompletionView { suggestions: rechecked(self.suggestions, leads, separator), ..self }
    }

    /// After a mouse event: the wheel scrolls the suggestions.
    pub open spec fn after_wheel(self, kind: MouseEventKind) -> CompletionView {
        match kind {
            MouseEventKind::ScrollUp => CompletionView {
                scroll: geometry::minus(self.scroll, 3),
                ..self
            },
            MouseEventKind::ScrollDown => CompletionView {
                scroll: geometry::min(
                    geometry::plus(self.scroll, 3),
                    geometry::minus(self.suggestions.len() as int, PATH_SUGGESTION_PAGE_SIZE as int),
                ),
                ..self
            },
            _ => self,
        }
    }
}

/// The view of the parts of a path that is being typed.
pub open spec fn completion(
    input: TextInput,
    suggestions: Seq<Suggestion>,
    active: Option<usize>,
    scroll: usize,
) -> CompletionView {
    CompletionView {
        input: input@,
        suggestions: text::views(suggestions),
        active,
        scroll: scroll as int,
    }
}

/// Drops the suggestions.
pub fn drop_suggestions(
    suggestions: &mut Vec<Suggestion>,
    active: &mut Option<usize>,
    scroll: &mut usize,
)
    ensures
        text::views(final(suggestions)@) == Seq::<SuggestionView>::empty(),
        *final(active) == None::<usize>,
        *final(scroll) == 0,
{
    *suggestions = Vec::new();
    *active = None;
    *scroll = 0;
}

/// Chooses the suggestion at `index`.
pub fn select_suggestion(
    input: &mut TextInput,
    suggestions: &Vec<Suggestion>,
    active: &mut Option<usize>,
    scroll: &mut usize,
    index: usize,
)
    requires
        index < suggestions.len(),
    ensures
        completion(*final(input), suggestions@, *final(active), *final(scroll)) == completion(
            *old(input),
            suggestions@,
            *old(active),
            *old(scroll),
        ).selected(index as int),
{
    *active = Some(index);
    assert(text::views(suggestions@)[index as int] == suggestions@[index as int]@);
    input.set_value(suggestions[index].shown.clone());
    if index < *scroll {
        *scroll = index;
    } else if index >= (*scroll).saturating_add(PATH_SUGGESTION_PAGE_SIZE) {
        *scroll = index - (PATH_SUGGESTION_PAGE_SIZE - 1);
    }
}

/// Chooses the suggestion that lies `delta` further on, or back where it is negative.
pub fn move_suggestion(
    input: &mut TextInput,
    suggestions: &Vec<Suggestion>,
    active: &mut Option<usize>,
    scroll: &mut usize,
    delta: isize,
)
    requires
        suggestions.len() > 0,
        *old(active) matches Some(index) ==> index < suggestions.len(),
    ensures
        completion(*final(input), suggestions@, *final(active), *final(scroll)) == completion(
            *old(input),
            suggestions@,
            *old(active),
            *old(scroll),
        ).stepped(delta as int),
{
    let last: usize = suggestions.len() - 1;
    let current: usize = match *active {
        Some(index) => index,
        None => {
            if delta < 0 {
                last
            } else {
                0
            }
        },
    };
    let target: i128 = current as i128 + delta as i128;
    let next: usize = if target <= 0 {
        0
    } else if target >= last as i128 {
        last
    } else {
        target as usize
    };
    select_suggestion(input, suggestions, active, scroll, next);
}

/// Chooses the next suggestion, the first one after the last.
pub fn cycle_suggestion(
    input: &mut TextInput,
    suggestions: &Vec<Suggestion>,
    active: &mut Option<usize>,
    scroll: &mut usize,
)
    requires
        suggestions.len() > 0,
        *old(active) matches Some(index) ==> index < suggestions.len(),
    ensures
        completion(*final(input), suggestions@, *final(active), *final(scroll)) == completion(
            *old(input),
            suggestions@,
            *old(active),
            *old(scroll),
        ).cycled(),
{
    let next: usize = match *active {
        Some(index) => {
            if index == suggestions.len() - 1 {
                assert((index + 1) % suggestions.len() as int == 0) by {
                    vstd::arithmetic::div_mod::lemma_mod_self_0(suggestions.len() as int);
                }
                0
            } else {
                assert((index + 1) % suggestions.len() as int == index + 1) by {
                    vstd::arithmetic::div_mod::lemma_small_mod(
                        (index + 1) as nat,
                        suggestions.len() as nat,
                    );
                }
                index + 1
            }
        },
        None => 0,
    };
    select_suggestion(input, suggestions, active, scroll, next);
}

/// Takes up the paths that were found for the input.
pub fn offer_candidates(
    input: &mut TextInput,
    suggestions: &mut Vec<Suggestion>,
    active: &mut Option<usize>,
    scroll: &mut usize,
    candidates: Vec<Suggestion>,
)
    ensures
        completion(*final(input), final(suggestions)@, *final(active), *final(scroll))
            == completion(*old(input), old(suggestions)@, *old(active), *old(scroll)).offered(
            text::views(candidates@),
        ),
{
    *active = None;
    *scroll = 0;
    if candidates.len() == 1 {
        assert(text::views(candidates@)[0] == candidates@[0]@);
        input.set_value(candidates[0].shown.clone());
        drop_suggestions(suggestions, active, scroll);
    } else if candidates.len() > 1 {
        *suggestions = candidates;
    }
}

/// Enters the directory that the chosen suggestion leads to; says whether there is one.
pub fn descend(
    input: &mut TextInput,
    suggestions: &mut Vec<Suggestion>,
    active: &mut Option<usize>,
    scroll: &mut usize,
) -> (entered: bool)
    requires
        *old(active) matches Some(index) ==> index < old(suggestions).len(),
    ensures
        entered == completion(
            *old(input),
            old(suggestions)@,
            *old(active),
            *old(scroll),
        ).at_directory(),
        completion(*final(input), final(suggestions)@, *final(active), *final(scroll))
            == if entered {
            completion(*old(input), old(suggestions)@, *old(active), *old(scroll)).descended()
        } else {
            completion(*old(input), old(suggestions)@, *old(active), *old(scroll))
        },
{
    match *active {
        Some(index) => {
            assert(text::views(suggestions@)[index as int] == suggestions@[index as int]@);
            if suggestions[index].is_dir {
                input.set_value(suggestions[index].shown.clone());
                drop_suggestions(suggestions, active, scroll);
                return true;
            }
        },
        None => {},
    }
    false
}

/// Applies a key that moves among the suggestions or edits the input.
pub fn completion_key(
    input: &mut TextInput,
    suggestions: &mut Vec<Suggestion>,
    active: &mut Option<usize>,
    scroll: &mut usize,
    key: KeyEvent,
)
    requires
        completion(*old(input), old(suggestions)@, *old(active), *old(scroll)).wf(),
    ensures
        completion(*final(input), final(suggestions)@, *final(active), *final(scroll))
            == completion(*old(input), old(suggestions)@, *old(active), *old(scroll)).after_key(
            key,
        ),
        completion(*final(input), final(suggestions)@, *final(active), *final(scroll)).wf(),
{
    if suggestions.len() > 0 {
        match key.code {
            KeyCode::Down => {
                move_suggestion(input, suggestions, active, scroll, 1);
                return;
            },
            KeyCode::Up => {
                move_suggestion(input, suggestions, active, scroll, -1);
                return;
            },
            KeyCode::PageDown => {
                move_suggestion(
                    input,
                    suggestions,
                    active,
                    scroll,
                    PATH_SUGGESTION_PAGE_SIZE as isize,
                );
                return;
            },
            KeyCode::PageUp => {
                move_suggestion(
                    input,
                    suggestions,
                    active,
                    scroll,
                    -(PATH_SUGGESTION_PAGE_SIZE as isize),
                );
                return;
            },
            KeyCode::Home => {
                select_suggestion(input, suggestions, active, scroll, 0);
                return;
            },
            KeyCode::End => {
                let last: usize = suggestions.len() - 1;
                select_suggestion(input, suggestions, active, scroll, last);
                return;
            },
            _ => {},
        }
    }
    input.handle_key(key);
    drop_suggestions(suggestions, active, scroll);
}

/// Applies the mouse wheel to the suggestions.
pub fn completion_wheel(count: usize, scroll: &mut usize, kind: MouseEventKind)
    ensures
        *final(scroll) == match kind {
            MouseEventKind::ScrollUp => geometry::minus(*old(scroll) as int, 3),
            MouseEventKind::ScrollDown => geometry::min(
                geometry::plus(*old(scroll) as int, 3),
                geometry::minus(count as int, PATH_SUGGESTION_PAGE_SIZE as int),
            ),
            _ => *old(scroll) as int,
        },
{
    match kind {
        MouseEventKind::ScrollUp => {
            *scroll = (*scroll).saturating_sub(3);
        },
        MouseEventKind::ScrollDown => {
            let most: usize = count.saturating_sub(PATH_SUGGESTION_PAGE_SIZE);
            let next: usize = (*scroll).saturating_add(3);
            *scroll = if next <= most {
                next
            } else {
                most
            };
        },
        _ => {},
    }
}

// ---------------------------------------------------------------------------
// The dialogs
// ---------------------------------------------------------------------------

/// The dialog that asks for a path.
#[derive(Debug)]
pub struct PathDialog {
    pub action: PathAction,
    pub input: TextInput,
    pub suggestions: Vec<Suggestion>,
    pub active_suggestion: Option<usize>,
    pub suggestion_scroll: usize,
}

/// The contents of a [`PathDialog`].
pub struct PathDialogView {
    pub action: PathAction,
    pub path: CompletionView,
}

impl View for PathDialog {
    type V = PathDialogView;

    open spec fn view(&self) -> PathDialogView {
        PathDialogView {
            action: self.action,
            path: completion(
                self.input,
                self.suggestions@,
                self.active_suggestion,
                self.suggestion_scroll,
            ),
        }
    }
}

impl PathDialog {
    /// The dialog with a path put up to be changed.
    pub fn new(action: PathAction, path: String) -> (dialog: PathDialog)
        ensures
            dialog@ == (PathDialogView { action, path: CompletionView::suggesting(path@) }),
    {
        PathDialog {
            action,
            input: TextInput::with_value(path),
            suggestions: Vec::new(),
            active_suggestion: None,
            suggestion_scroll: 0,
        }
    }

    /// Chooses the next suggestion.
    pub fn cycle(&mut self)
        requires
            old(self)@.path.wf(),
            old(self)@.path.suggestions.len() > 0,
        ensures
            final(self)@ == (PathDialogView { path: old(self)@.path.cycled(), ..old(self)@ }),
            final(self)@.path.wf(),
    {
        cycle_suggestion(
            &mut self.input,
            &self.suggestions,
            &mut self.active_suggestion,
            &mut self.suggestion_scroll,
        );
    }

    /// Takes up the paths that were found for the input.
    pub fn offer(&mut self, candidates: Vec<Suggestion>)
        requires
            old(self)@.path.wf(),
        ensures
            final(self)@ == (PathDialogView {
                path: old(self)@.path.offered(text::views(candidates@)),
                ..old(self)@
            }),
            final(self)@.path.wf(),
    {
        offer_candidates(
            &mut self.input,
            &mut self.suggestions,
            &mut self.active_suggestion,
            &mut self.suggestion_scroll,
            candidates,
        );
    }

    /// Enters the directory that the chosen suggestion leads to; says whether there is one.
    pub fn enter_directory(&mut self) -> (entered: bool)
        requires
            old(self)@.path.wf(),
        ensures
            entered == old(self)@.path.at_directory(),
            final(self)@ == (PathDialogView {
                path: if entered {
                    old(self)@.path.descended()
                } else {
                    old(self)@.path
                },
                ..old(self)@
            }),
            final(self)@.path.wf(),
    {
        descend(
            &mut self.input,
            &mut self.suggestions,
            &mut self.active_suggestion,
            &mut self.suggestion_scroll,
        )
    }

    /// Applies a key that moves among the suggestions or edits the input.
    pub fn handle_key(&mut self, key: KeyEvent)
        requires
            old(self)@.path.wf(),
        ensures
            final(self)@ == (PathDialogView { path: old(self)@.path.after_key(key), ..old(self)@ }),
            final(self)@.path.wf(),
    {
        completion_key(
            &mut self.input,
            &mut self.suggestions,
            &mut self.active_suggestion,
            &mut self.suggestion_scroll,
            key,
        );
    }

    /// Takes up whether the suggestions lead to a directory by now.
    pub fn recheck(&mut self, leads: &Vec<bool>, separator: char)
        requires
            old(self)@.path.wf(),
        ensures
            final(self)@ == (PathDialogView {
                path: old(self)@.path.rechecked(leads@, separator),
                ..old(self)@
            }),
            final(self)@.path.wf(),
    {
        recheck_suggestions(&mut self.suggestions, leads, separator);
    }

    /// Applies the mouse wheel.
    pub fn handle_wheel(&mut self, kind: MouseEventKind)
        requires
            old(self)@.path.wf(),
        ensures
            final(self)@ == (PathDialogView {
                path: old(self)@.path.after_wheel(kind),
                ..old(self)@
            }),
            final(self)@.path.wf(),
    {
        completion_wheel(self.suggestions.len(), &mut self.suggestion_scroll, kind);
    }
}

/// The dialog that opens a file: by the file picker of the system, or by a path that is typed.
#[derive(Debug)]
pub enum OpenFileDialog {
    Choice { active: usize },
    ManualPath {
        input: TextInput,
        suggestions: Vec<Suggestion>,
        active_suggestion: Option<usize>,
        suggestion_scroll: usize,
    },
}

/// The contents of an [`OpenFileDialog`].
pub enum OpenFileView {
    Choice(int),
    ManualPath(CompletionView),
}

impl View for OpenFileDialog {
    type V = OpenFileView;

    open spec fn view(&self) -> OpenFileView {
        match self {
            OpenFileDialog::Choice { active } => OpenFileView::Choice(*active as int),
            OpenFileDialog::ManualPath {
                input,
                suggestions,
                active_suggestion,
                suggestion_scroll,
            } => OpenFileView::ManualPath(
                completion(*input, suggestions@, *active_suggestion, *suggestion_scroll),
            ),
        }
    }
}

impl OpenFileView {
    /// One of the two ways is chosen, and a path that is typed is in order.
    pub open spec fn wf(self) -> bool {
        match self {
            OpenFileView::Choice(active) => 0 <= active < 2,
            OpenFileView::ManualPath(path) => path.wf(),
        }
    }
}

impl OpenFileDialog {
    /// The dialog for a path that is typed.
    pub fn manual() -> (dialog: OpenFileDialog)
        ensures
            dialog@ == OpenFileView::ManualPath(CompletionView::blank()),
    {
        OpenFileDialog::ManualPath {
            input: TextInput::default(),
            suggestions: Vec::new(),
            active_suggestion: None,
            suggestion_scroll: 0,
        }
    }
}

// ---------------------------------------------------------------------------
// Finding candidates
// ---------------------------------------------------------------------------

/// An entry of a directory: whether it is a directory itself, and whether its path leads to one,
/// as that of a link may.
#[derive(Clone, Debug)]
pub struct DirectoryEntry {
    pub path: String,
    pub name: String,
    pub is_dir: bool,
    pub leads_to_dir: bool,
}

/// The contents of a [`DirectoryEntry`].
pub struct EntryView {
    pub path: Seq<char>,
    pub name: Seq<char>,
    pub is_dir: bool,
    pub leads_to_dir: bool,
}

impl View for DirectoryEntry {
    type V = EntryView;

    open spec fn view(&self) -> EntryView {
        EntryView {
            path: self.path@,
            name: self.name@,
            is_dir: self.is_dir,
            leads_to_dir: self.leads_to_dir,
        }
    }
}

/// The directory to look in and the start of the names to look for, by what was typed and what
/// its last component and its parent are. Nothing typed, or a directory in front, means the
/// current directory.
pub open spec fn lookup_of(
    input: Seq<char>,
    file_name: Option<Seq<char>>,
    parent: Option<Seq<char>>,
    separator: char,
) -> (Seq<char>, Seq<char>) {
    if input.len() == 0 {
        ("."@, Seq::empty())
    } else if input.last() == '/' || input.last() == '\\' || input.last() == separator {
        (input, Seq::empty())
    } else {
        (
            match parent {
                Some(directory) => if directory.len() == 0 {
                    "."@
                } else {
                    directory
                },
                None => "."@,
            },
            match file_name {
                Some(name) => name,
                None => Seq::empty(),
            },
        )
    }
}

/// The directory to look in and the start of the names to look for.
pub fn completion_lookup(
    input: &str,
    file_name: Option<String>,
    parent: Option<String>,
    separator: char,
) -> (lookup: (String, String))
    ensures
        (lookup.0@, lookup.1@) == lookup_of(
            input@,
            match file_name {
                Some(name) => Some(name@),
                None => None,
            },
            match parent {
                Some(directory) => Some(directory@),
                None => None,
            },
            separator,
        ),
{
    let characters = chars_of(input);
    let empty = String::new();
    assert(empty@ =~= Seq::<char>::empty());
    if characters.len() == 0 {
        return (".".to_owned(), empty);
    }
    let last = characters[characters.len() - 1];
    if last == '/' || last == '\\' || last == separator {
        return (input.to_owned(), empty);
    }
    let directory = match parent {
        Some(directory) => {
            if directory.as_str().is_empty() {
                ".".to_owned()
            } else {
                directory
            }
        },
        None => ".".to_owned(),
    };
    let prefix = match file_name {
        Some(name) => name,
        None => empty,
    };
    (directory, prefix)
}

/// How many characters at the start of a path name a drive or a share. Only a system whose
/// separator is the backslash has them: a letter and a colon, or two separators and the names of
/// a server and a share.
pub open spec fn path_prefix(path: Seq<char>, separator: char) -> int {
    if separator != '\\' {
        0
    } else if path.len() >= 2 && is_letter(path[0]) && path[1] == ':' {
        2
    } else if path.len() >= 2 && splits_path(path[0], separator) && splits_path(
        path[1],
        separator,
    ) {
        let server = next_split(path, 2, separator);
        let share = next_split(path, server + 1, separator);
        if server > 2 && share > server + 1 {
            share
        } else {
            0
        }
    } else {
        0
    }
}

/// Whether a character is a letter of the Latin alphabet without marks.
pub open spec fn is_letter(c: char) -> bool {
    ('a' <= c <= 'z') || ('A' <= c <= 'Z')
}

/// The place of the first separator of a path from some place on, or the end of the path.
pub open spec fn next_split(path: Seq<char>, from: int, separator: char) -> int
    decreases path.len() - from,
{
    if from >= path.len() {
        path.len() as int
    } else if splits_path(path[from], separator) {
        from
    } else {
        next_split(path, from + 1, separator)
    }
}

/// A path, behind its prefix, without the separators and the components for the current directory
/// that it ends with. A separator that it starts with stays, and so does a component for the
/// current directory at the start.
pub open spec fn trimmed_path(path: Seq<char>, separator: char) -> Seq<char>
    decreases path.len(),
{
    let last = path.last();
    if path.len() < 2 {
        path
    } else if splits_path(last, separator) || (last == '.' && splits_path(
        path[path.len() - 2],
        separator,
    )) {
        trimmed_path(path.drop_last(), separator)
    } else {
        path
    }
}

/// The last component of a path, if it is the name of a file or a directory.
pub open spec fn typed_name(input: Seq<char>, separator: char) -> Option<Seq<char>> {
    let rest = trimmed_path(input.skip(path_prefix(input, separator)), separator);
    let name = last_component(rest, separator);
    if name.len() == 0 || name == "."@ || name == ".."@ {
        None
    } else {
        Some(name)
    }
}

/// The path without its last component, if it has one.
pub open spec fn typed_parent(input: Seq<char>, separator: char) -> Option<Seq<char>> {
    let prefix = path_prefix(input, separator);
    let rest = trimmed_path(input.skip(prefix), separator);
    let name = last_component(rest, separator);
    if name.len() == 0 {
        None
    } else {
        Some(
            input.take(prefix) + trimmed_path(rest.take(rest.len() - name.len()), separator),
        )
    }
}

fn find_split(path: &Vec<char>, from: usize, separator: char) -> (at: usize)
    ensures
        at == next_split(path@, from as int, separator),
        from <= path.len() ==> from <= at <= path.len(),
{
    if from >= path.len() {
        return path.len();
    }
    let mut at: usize = from;
    while at < path.len() && path[at] != '/' && path[at] != separator
        invariant
            from <= at <= path.len(),
            next_split(path@, from as int, separator) == next_split(path@, at as int, separator),
        decreases path.len() - at,
    {
        at = at + 1;
    }
    at
}

fn prefix_length(path: &Vec<char>, separator: char) -> (length: usize)
    ensures
        length == path_prefix(path@, separator),
        length <= path.len(),
{
    if separator != '\\' || path.len() < 2 {
        return 0;
    }
    let first = path[0];
    let second = path[1];
    if (('a' <= first && first <= 'z') || ('A' <= first && first <= 'Z')) && second == ':' {
        return 2;
    }
    if (first == '/' || first == separator) && (second == '/' || second == separator) {
        let server = find_split(path, 2, separator);
        if server > 2 && server < path.len() {
            let share = find_split(path, server + 1, separator);
            if share > server + 1 {
                return share;
            }
        }
    }
    0
}

fn trimmed_end(path: &Vec<char>, from: usize, to: usize, separator: char) -> (end: usize)
    requires
        from <= to <= path.len(),
    ensures
        from <= end <= to,
        path@.subrange(from as int, end as int) == trimmed_path(
            path@.subrange(from as int, to as int),
            separator,
        ),
{
    let mut end: usize = to;
    let ghost whole = path@.subrange(from as int, to as int);
    while end - from >= 2 && (path[end - 1] == '/' || path[end - 1] == separator || (path[end - 1]
        == '.' && (path[end - 2] == '/' || path[end - 2] == separator)))
        invariant
            from <= end <= to <= path.len(),
            trimmed_path(whole, separator) == trimmed_path(
                path@.subrange(from as int, end as int),
                separator,
            ),
        decreases end,
    {
        let ghost part = path@.subrange(from as int, end as int);
        assert(part.drop_last() =~= path@.subrange(from as int, end - 1));
        assert(part.last() == path@[end - 1]);
        assert(part[part.len() - 2] == path@[end - 2]);
        end = end - 1;
    }
    proof {
        let part = path@.subrange(from as int, end as int);
        if part.len() >= 2 {
            assert(part.last() == path@[end - 1]);
            assert(part[part.len() - 2] == path@[end - 2]);
        }
    }
    end
}

/// The directory to look in and the start of the names to look for, by what was typed alone.
pub fn path_lookup(input: &str, separator: char) -> (lookup: (String, String))
    ensures
        (lookup.0@, lookup.1@) == lookup_of(
            input@,
            typed_name(input@, separator),
            typed_parent(input@, separator),
            separator,
        ),
{
    let characters = chars_of(input);
    let length: usize = characters.len();
    let prefix = prefix_length(&characters, separator);
    let end = trimmed_end(&characters, prefix, length, separator);
    let rest = string_of(&characters, prefix, end);
    assert(input@.subrange(prefix as int, length as int) =~= input@.skip(prefix as int));
    let name = file_name(&rest, separator);
    proof {
        last_component_ends_the_path(rest@, separator);
        reveal_strlit(".");
        reveal_strlit("..");
    }
    let letters = chars_of(&name);
    let count: usize = letters.len();
    if count == 0 {
        return completion_lookup(input, None, None, separator);
    }
    let start: usize = end - count;
    let stop = trimmed_end(&characters, prefix, start, separator);
    let mut parent = string_of(&characters, 0, prefix);
    let inner = string_of(&characters, prefix, stop);
    parent.append(&inner);
    proof {
        assert(input@.subrange(0, prefix as int) =~= input@.take(prefix as int));
        assert(rest@.take(rest@.len() - count) =~= input@.subrange(prefix as int, start as int));
    }
    let up = count == 2 && letters[0] == '.' && letters[1] == '.';
    let here = count == 1 && letters[0] == '.';
    proof {
        assert(up == (name@ =~= ".."@));
        assert(here == (name@ =~= "."@));
    }
    if up || here {
        completion_lookup(input, None, Some(parent), separator)
    } else {
        completion_lookup(input, Some(name), Some(parent), separator)
    }
}

/// A path as it is shown: a directory ends with a separator.
pub open spec fn shown_path(path: Seq<char>, is_dir: bool, separator: char) -> Seq<char> {
    if is_dir && !(path.len() > 0 && path.last() == separator) {
        path.push(separator)
    } else {
        path
    }
}

/// A path as it is shown.
pub fn completion_display_path(path: &str, is_dir: bool, separator: char) -> (shown: String)
    ensures
        shown@ == shown_path(path@, is_dir, separator),
{
    let mut shown = path.to_owned();
    let characters = chars_of(path);
    if is_dir && !(characters.len() > 0 && characters[characters.len() - 1] == separator) {
        shown.push(separator);
    }
    shown
}

/// Whether one text stands before another in the order of characters.
pub open spec fn text_before(left: Seq<char>, right: Seq<char>) -> bool
    decreases left.len(),
{
    right.len() > 0 && (left.len() == 0 || left[0] < right[0] || (left[0] == right[0]
        && text_before(left.skip(1), right.skip(1))))
}

/// Whether one entry stands before another: directories first, then by name.
pub open spec fn entry_before(left: EntryView, right: EntryView) -> bool {
    (left.is_dir && !right.is_dir) || (left.is_dir == right.is_dir && text_before(
        left.name,
        right.name,
    ))
}

/// Entries in order with one more put in its place, after those it does not stand before.
pub open spec fn placed(entries: Seq<EntryView>, entry: EntryView) -> Seq<EntryView>
    decreases entries.len(),
{
    if entries.len() == 0 || !entry_before(entry, entries.last()) {
        entries.push(entry)
    } else {
        placed(entries.drop_last(), entry).push(entries.last())
    }
}

/// The entries whose names start with `prefix`, in order.
pub open spec fn arranged(entries: Seq<EntryView>, prefix: Seq<char>) -> Seq<EntryView>
    decreases entries.len(),
{
    if entries.len() == 0 {
        entries
    } else {
        let rest = arranged(entries.drop_last(), prefix);
        if text::starts_with(entries.last().name, prefix) {
            placed(rest, entries.last())
        } else {
            rest
        }
    }
}

/// The suggestions that entries stand for.
pub open spec fn suggested(entries: Seq<EntryView>, separator: char) -> Seq<SuggestionView> {
    Seq::new(
        entries.len(),
        |i: int|
            SuggestionView::of(entries[i].path, entries[i].leads_to_dir, separator),
    )
}

fn name_before(left: &str, right: &str) -> (before: bool)
    ensures
        before == text_before(left@, right@),
{
    let l = chars_of(left);
    let r = chars_of(right);
    let mut i: usize = 0;
    assert(left@.skip(0) =~= left@);
    assert(right@.skip(0) =~= right@);
    while i < l.len() && i < r.len()
        invariant
            i <= l.len(),
            i <= r.len(),
            l@ == left@,
            r@ == right@,
            text_before(left@, right@) == text_before(
                left@.skip(i as int),
                right@.skip(i as int),
            ),
        decreases l.len() - i,
    {
        assert(left@.skip(i as int).skip(1) =~= left@.skip(i + 1));
        assert(right@.skip(i as int).skip(1) =~= right@.skip(i + 1));
        if l[i] != r[i] {
            return l[i] < r[i];
        }
        i = i + 1;
    }
    i < r.len()
}

fn stands_before(left: &DirectoryEntry, right: &DirectoryEntry) -> (before: bool)
    ensures
        before == entry_before(left@, right@),
{
    (left.is_dir && !right.is_dir) || (left.is_dir == right.is_dir && name_before(
        &left.name,
        &right.name,
    ))
}

fn place_entry(entries: &mut Vec<DirectoryEntry>, entry: DirectoryEntry)
    ensures
        text::views(final(entries)@) == placed(text::views(old(entries)@), entry@),
{
    let ghost before = text::views(entries@);
    let mut at: usize = entries.len();
    assert(before.take(at as int) =~= before);
    assert(before.skip(at as int) =~= Seq::<EntryView>::empty());
    assert(placed(before, entry@) + before.skip(at as int) =~= placed(before, entry@));
    while at > 0 && stands_before(&entry, &entries[at - 1])
        invariant
            at <= entries.len(),
            before == text::views(entries@),
            placed(before.take(at as int), entry@) + before.skip(at as int) == placed(
                before,
                entry@,
            ),
        ensures
            at <= entries.len(),
            at == 0 || !entry_before(entry@, before[at - 1]),
            placed(before.take(at as int), entry@) + before.skip(at as int) == placed(
                before,
                entry@,
            ),
        decreases at,
    {
        proof {
            let part = before.take(at as int);
            assert(part.last() == entries@[at - 1]@);
            assert(part.drop_last() =~= before.take(at - 1));
            assert(placed(part.drop_last(), entry@).push(part.last()) + before.skip(at as int)
                =~= placed(part.drop_last(), entry@) + before.skip(at - 1));
        }
        at = at - 1;
    }
    proof {
        let part = before.take(at as int);
        if at > 0 {
            assert(part.last() == before[at - 1]);
        }
        assert(placed(part, entry@) == part.push(entry@));
        assert(part.push(entry@) + before.skip(at as int) =~= before.insert(at as int, entry@));
    }
    entries.insert(at, entry);
    assert(text::views(entries@) =~= before.insert(at as int, entry@));
}

/// The suggestions for names that start with `prefix`, from the entries of a directory:
/// directories first, then by name.
pub fn path_completion_candidates(
    prefix: &str,
    entries: Vec<DirectoryEntry>,
    separator: char,
) -> (candidates: Vec<Suggestion>)
    ensures
        text::views(candidates@) == suggested(
            arranged(text::views(entries@), prefix@),
            separator,
        ),
{
    let ghost all = text::views(entries@);
    let mut sorted: Vec<DirectoryEntry> = Vec::new();
    let mut i: usize = 0;
    assert(text::views(sorted@) =~= arranged(all.take(0), prefix@));
    while i < entries.len()
        invariant
            i <= entries.len(),
            all == text::views(entries@),
            text::views(sorted@) == arranged(all.take(i as int), prefix@),
        decreases entries.len() - i,
    {
        assert(all.take(i + 1).drop_last() =~= all.take(i as int));
        assert(all.take(i + 1).last() == entries@[i as int]@);
        if strip_prefix(&entries[i].name, prefix).is_some() {
            let entry = DirectoryEntry {
                path: entries[i].path.clone(),
                name: entries[i].name.clone(),
                is_dir: entries[i].is_dir,
                leads_to_dir: entries[i].leads_to_dir,
            };
            place_entry(&mut sorted, entry);
        }
        i = i + 1;
    }
    assert(all.take(i as int) =~= all);
    let ghost order = text::views(sorted@);
    let mut candidates: Vec<Suggestion> = Vec::new();
    let mut k: usize = 0;
    while k < sorted.len()
        invariant
            k <= sorted.len(),
            order == text::views(sorted@),
            candidates@.len() == k,
            forall|j: int|
                0 <= j < k ==> (#[trigger] candidates@[j])@ == suggested(order, separator)[j],
        decreases sorted.len() - k,
    {
        assert(order[k as int] == sorted@[k as int]@);
        candidates.push(
            Suggestion {
                path: sorted[k].path.clone(),
                shown: completion_display_path(
                    &sorted[k].path,
                    sorted[k].leads_to_dir,
                    separator,
                ),
                is_dir: sorted[k].leads_to_dir,
            },
        );
        k = k + 1;
    }
    assert(text::views(candidates@) =~= suggested(order, separator));
    candidates
}

/// Whether no entry stands before one that precedes it.
pub open spec fn in_order(entries: Seq<EntryView>) -> bool {
    forall|i: int, j: int|
        #![trigger entries[i], entries[j]]
        0 <= i < j < entries.len() ==> !entry_before(entries[j], entries[i])
}

proof fn lemma_text_between(left: Seq<char>, middle: Seq<char>, right: Seq<char>)
    requires
        text_before(left, right),
    ensures
        text_before(left, middle) || text_before(middle, right),
    decreases left.len(),
{
    if left.len() > 0 && middle.len() > 0 && left[0] == right[0] && left[0] == middle[0] {
        lemma_text_between(left.skip(1), middle.skip(1), right.skip(1));
    }
}

proof fn lemma_text_order_is_strict(left: Seq<char>, right: Seq<char>)
    requires
        text_before(left, right),
    ensures
        !text_before(right, left),
    decreases left.len(),
{
    if left.len() > 0 && left[0] == right[0] {
        lemma_text_order_is_strict(left.skip(1), right.skip(1));
    }
}

proof fn lemma_placed(entries: Seq<EntryView>, entry: EntryView)
    requires
        in_order(entries),
    ensures
        in_order(placed(entries, entry)),
        placed(entries, entry).to_multiset() =~= entries.to_multiset().insert(entry),
        forall|i: int|
            0 <= i < placed(entries, entry).len() ==> #[trigger] placed(entries, entry)[i] == entry
                || entries.contains(placed(entries, entry)[i]),
    decreases entries.len(),
{
    broadcast use vstd::seq_lib::group_to_multiset_ensures;

    let out = placed(entries, entry);
    if entries.len() == 0 || !entry_before(entry, entries.last()) {
        assert forall|i: int, j: int|
            #![trigger out[i], out[j]]
            0 <= i < j < out.len() implies !entry_before(out[j], out[i]) by {
            if j == entries.len() {
                let last = entries[entries.len() - 1];
                if entry_before(entry, entries[i]) {
                    if entry.is_dir == entries[i].is_dir && last.is_dir == entry.is_dir {
                        lemma_text_between(entry.name, last.name, entries[i].name);
                    }
                    assert(!entry_before(entries[entries.len() - 1], entries[i]) || i
                        == entries.len() - 1);
                }
            }
        }
        assert forall|i: int| 0 <= i < out.len() implies #[trigger] out[i] == entry
            || entries.contains(out[i]) by {
            if i < entries.len() {
                assert(out[i] == entries[i]);
            }
        }
    } else {
        let rest = entries.drop_last();
        let last = entries[entries.len() - 1];
        assert(in_order(rest));
        lemma_placed(rest, entry);
        let inner = placed(rest, entry);
        assert(entries =~= rest.push(last));
        assert forall|i: int, j: int|
            #![trigger out[i], out[j]]
            0 <= i < j < out.len() implies !entry_before(out[j], out[i]) by {
            assert(out[i] == inner[i]);
            if j < inner.len() {
                assert(out[j] == inner[j]);
            } else if inner[i] == entry {
                if entry.is_dir == last.is_dir {
                    lemma_text_order_is_strict(entry.name, last.name);
                }
            } else {
                assert(rest.contains(inner[i]));
                let k = choose|k: int| 0 <= k < rest.len() && rest[k] == inner[i];
                assert(entries[k] == inner[i]);
                assert(!entry_before(entries[entries.len() - 1], entries[k]));
            }
        }
        assert forall|i: int| 0 <= i < out.len() implies #[trigger] out[i] == entry
            || entries.contains(out[i]) by {
            if i < inner.len() {
                assert(out[i] == inner[i]);
                if inner[i] != entry {
                    let k = choose|k: int| 0 <= k < rest.len() && rest[k] == inner[i];
                    assert(entries[k] == inner[i]);
                }
            } else {
                assert(out[i] == last);
                assert(entries[entries.len() - 1] == last);
            }
        }
    }
}

/// The entries whose names start with `prefix`.
pub open spec fn fitting(entries: Seq<EntryView>, prefix: Seq<char>) -> Seq<EntryView>
    decreases entries.len(),
{
    if entries.len() == 0 {
        entries
    } else if text::starts_with(entries.last().name, prefix) {
        fitting(entries.drop_last(), prefix).push(entries.last())
    } else {
        fitting(entries.drop_last(), prefix)
    }
}

/// The candidates are the entries whose names fit, each as often as it occurs, directories first
/// and then by name.
pub proof fn candidates_are_in_order(entries: Seq<EntryView>, prefix: Seq<char>)
    ensures
        in_order(arranged(entries, prefix)),
        arranged(entries, prefix).to_multiset() == fitting(entries, prefix).to_multiset(),
    decreases entries.len(),
{
    broadcast use vstd::seq_lib::group_to_multiset_ensures;

    if entries.len() > 0 {
        candidates_are_in_order(entries.drop_last(), prefix);
        if text::starts_with(entries.last().name, prefix) {
            lemma_placed(arranged(entries.drop_last(), prefix), entries.last());
        }
    }
}

/// Choosing a suggestion types it, and it is in sight.
pub open spec fn is_chosen(before: CompletionView, after: CompletionView, index: int) -> bool {
    &&& 0 <= index < before.suggestions.len()
    &&& after.active == Some(index as usize)
    &&& after.input.value == before.suggestions[index].shown
    &&& after.input.cursor == before.suggestions[index].shown.len()
    &&& !after.input.selected
    &&& after.suggestions == before.suggestions
    &&& after.scroll <= index < after.scroll + PATH_SUGGESTION_PAGE_SIZE
    &&& before.scroll <= index < before.scroll + PATH_SUGGESTION_PAGE_SIZE ==> after.scroll
        == before.scroll
    &&& index < before.scroll ==> after.scroll == index
    &&& index >= before.scroll + PATH_SUGGESTION_PAGE_SIZE ==> index == after.scroll
        + PATH_SUGGESTION_PAGE_SIZE - 1
}

proof fn lemma_chosen(path: CompletionView, index: int)
    requires
        0 <= index < path.suggestions.len() < usize::MAX,
        0 <= path.scroll,
    ensures
        is_chosen(path, path.selected(index), index),
        path.selected(index).scroll >= 0,
{
}

/// Among suggestions the arrows go to the next and the previous one, the keys for pages as many
/// further as are shown at once, and those for the ends to the first and the last, all no further
/// than there is one. From no suggestion the first step on goes from the first one, and the first
/// step back from the last. All other keys edit what was typed and drop the suggestions.
pub proof fn keys_walk_through_the_suggestions(path: CompletionView, key: KeyEvent)
    requires
        path.wf(),
        0 < path.suggestions.len() < usize::MAX,
        0 <= path.scroll,
    ensures
        ({
            let after = path.after_key(key);
            let last = path.suggestions.len() - 1;
            let from_first = match path.active {
                Some(index) => index as int,
                None => 0,
            };
            let from_last = match path.active {
                Some(index) => index as int,
                None => last,
            };
            let page = PATH_SUGGESTION_PAGE_SIZE as int;
            &&& key.code == KeyCode::Down ==> is_chosen(path, after, if from_first < last {
                from_first + 1
            } else {
                last
            })
            &&& key.code == KeyCode::Up ==> is_chosen(path, after, if from_last > 0 {
                from_last - 1
            } else {
                0
            })
            &&& key.code == KeyCode::PageDown ==> is_chosen(path, after, if from_first + page <= last {
                from_first + page
            } else {
                last
            })
            &&& key.code == KeyCode::PageUp ==> is_chosen(path, after, if from_last >= page {
                from_last - page
            } else {
                0
            })
            &&& key.code == KeyCode::Home ==> is_chosen(path, after, 0)
            &&& key.code == KeyCode::End ==> is_chosen(path, after, last)
            &&& key.code is Char || key.code == KeyCode::Backspace || key.code == KeyCode::Left
                || key.code == KeyCode::Right ==> {
                &&& after.input == path.input.after_key(key)
                &&& after.suggestions.len() == 0
                &&& after.active is None
            }
        }),
{
    let last = path.suggestions.len() - 1;
    let page = PATH_SUGGESTION_PAGE_SIZE as int;
    let from_first = match path.active {
        Some(index) => index as int,
        None => 0,
    };
    let from_last = match path.active {
        Some(index) => index as int,
        None => last,
    };
    lemma_chosen(path, geometry::min(geometry::max(from_first + 1, 0), last));
    lemma_chosen(path, geometry::min(geometry::max(from_last - 1, 0), last));
    lemma_chosen(path, geometry::min(geometry::max(from_first + page, 0), last));
    lemma_chosen(path, geometry::min(geometry::max(from_last - page, 0), last));
    lemma_chosen(path, 0);
    lemma_chosen(path, last);
}

/// The tabulator goes to the next suggestion, and from the last one to the first.
pub proof fn tabulators_go_around(path: CompletionView)
    requires
        path.wf(),
        0 < path.suggestions.len() < usize::MAX,
        0 <= path.scroll,
    ensures
        path.active is None ==> is_chosen(path, path.cycled(), 0),
        path.active matches Some(index) ==> is_chosen(
            path,
            path.cycled(),
            if index + 1 < path.suggestions.len() {
                index + 1
            } else {
                0
            },
        ),
{
    let count = path.suggestions.len() as int;
    lemma_chosen(path, 0);
    if let Some(index) = path.active {
        if index + 1 < count {
            vstd::arithmetic::div_mod::lemma_small_mod((index + 1) as nat, count as nat);
            lemma_chosen(path, index + 1);
        } else {
            vstd::arithmetic::div_mod::lemma_mod_self_0(count);
        }
    }
}

/// Of several paths that were found none is typed before it is chosen, a single one is typed at once,
/// and where none was found what was typed stays.
pub proof fn found_paths_are_offered(path: CompletionView, found: Seq<SuggestionView>)
    ensures
        ({
            let after = path.offered(found);
            &&& after.active is None
            &&& after.scroll == 0
            &&& found.len() == 0 ==> after.input == path.input
            &&& found.len() == 1 ==> {
                &&& after.input.value == found[0].shown
                &&& after.input.cursor == found[0].shown.len()
                &&& after.suggestions.len() == 0
            }
            &&& found.len() > 1 ==> after.input == path.input && after.suggestions == found
        }),
{
}

/// Entering a directory types its path, which ends with a separator, and drops the suggestions.
pub proof fn directories_are_entered(
    path: CompletionView,
    leads: Seq<bool>,
    separator: char,
    index: int,
)
    requires
        path.active == Some(index as usize),
        0 <= index < path.suggestions.len(),
        index <= usize::MAX,
        leads.len() == path.suggestions.len(),
    ensures
        ({
            let known = path.rechecked(leads, separator);
            let after = known.descended();
            let entered = path.suggestions[index].path;
            &&& known.at_directory() == leads[index]
            &&& leads[index] ==> {
                &&& after.input.value.len() > 0
                &&& after.input.value.last() == separator
                &&& after.input.value == entered || after.input.value == entered.push(separator)
                &&& after.suggestions.len() == 0
                &&& after.active is None
            }
        }),
{
}

/// What was typed behind the last separator is looked for in the directory before it, whatever the
/// directory is, where both are written plainly.
#[verifier::spinoff_prover]
#[verifier::rlimit(60)]
pub proof fn typed_names_are_looked_for(directory: Seq<char>, name: Seq<char>, separator: char)
    requires
        separator == '/',
        directory.len() > 0,
        directory.last() != '/',
        directory.last() != '.',
        name.len() > 0,
        name != "."@,
        name != ".."@,
        forall|i: int| 0 <= i < name.len() ==> #[trigger] name[i] != '/' && name[i] != '\\',
    ensures
        ({
            let input = directory.push('/') + name;
            lookup_of(
                input,
                typed_name(input, separator),
                typed_parent(input, separator),
                separator,
            ) == (directory, name)
        }),
{
    reveal_strlit(".");
    let input = directory.push('/') + name;
    let n = name.len() as int;
    assert(path_prefix(input, separator) == 0);
    assert(input.skip(0) =~= input);
    assert(input.take(0) =~= Seq::<char>::empty());
    assert(input.last() == name[n - 1]);
    assert(trimmed_path(input, separator) == input) by {
        if input.last() == '.' && input[input.len() - 2] == '/' {
            if n == 1 {
                assert(name =~= "."@);
            } else {
                assert(input[input.len() - 2] == name[n - 2]);
            }
        }
    }
    assert(input == codec::joined(directory, name, separator));
    codec::joined_paths_come_apart(directory, name, separator);
    let head = input.take(input.len() - n);
    assert(head =~= directory.push('/'));
    assert(head.drop_last() =~= directory);
    assert(trimmed_path(directory, separator) == directory);
    assert(trimmed_path(head, separator) == directory);
    assert(Seq::<char>::empty() + directory =~= directory);
}

/// A name alone is looked for in the current directory, and what ends with a separator is looked
/// into.
pub proof fn single_names_are_looked_for_here(input: Seq<char>)
    requires
        input.len() > 0,
        input != "."@,
        input != ".."@,
        forall|i: int| 0 <= i < input.len() - 1 ==> #[trigger] input[i] != '/',
        input.last() != '\\',
    ensures
        ({
            let lookup = lookup_of(input, typed_name(input, '/'), typed_parent(input, '/'), '/');
            &&& input.last() != '/' ==> lookup == ("."@, input)
            &&& input.last() == '/' ==> lookup == (input, Seq::<char>::empty())
        }),
{
    reveal_strlit(".");
    if input.last() != '/' {
        let n = input.len() as int;
        assert(input.skip(0) =~= input);
        assert(trimmed_path(input, '/') == input);
        let none = Seq::<char>::empty();
        assert forall|i: int| 0 <= i < n implies !codec::splits_path(#[trigger] input[i], '/') by {
            if i == n - 1 {
                assert(input[i] == input.last());
            }
        }
        codec::joined_paths_come_apart(none, input, '/');
        assert(codec::joined(none, input, '/') =~= input);
        assert(input.take(0) =~= none);
        assert(none + none =~= none);
        assert(trimmed_path(none, '/') == none);
    }
}

} // verus!
