//! The state of an editing session, and what each keystroke does to it.

use crate::flags::MatchFlags;
use crate::focus::EditFocus;
use crate::match_engine::{compose, compose_spec, CompiledMatcher};
use crate::planner::{
    all_normal, lemma_plan_sources, normalized_files, plan, plan_spec, preview, preview_spec,
    sources_among, Candidates, MovePair, MovePairView, PreviewRow,
};
use vstd::prelude::*;

verus! {

/// A key as the terminal reports it.
#[derive(Clone, Copy, Debug, PartialEq, Eq)]
pub enum Key {
    /// A character key; Tab and Enter arrive as `'\t'` and `'\n'`.
    Char(char),
    /// A character key pressed together with Ctrl.
    Ctrl(char),
    /// Shift and Tab.
    BackTab,
    /// The key that deletes backwards.
    Backspace,
    /// Any other key.
    Other,
}

/// What a keystroke asks the session to do.
#[derive(Clone, Copy, Debug, PartialEq, Eq)]
pub enum Command {
    /// Append a character to the field that has the focus.
    Insert(char),
    /// Remove the last character of the field that has the focus.
    Delete,
    /// Move the focus to the following field.
    FocusNext,
    /// Move the focus to the preceding field.
    FocusPrev,
    /// Flip the flag for replacing every occurrence.
    ToggleGlobal,
    /// Flip the flag for ignoring case.
    ToggleIcase,
    /// Leave the session and rename.
    Commit,
    /// Leave the session and rename nothing.
    Cancel,
    /// Nothing.
    Ignore,
}

/// The key bindings.
pub open spec fn command_spec(key: Key) -> Command {
    match key {
        Key::Ctrl(c) => if c == 'c' {
            Command::Cancel
        } else if c == 'g' {
            Command::ToggleGlobal
        } else if c == 'r' {
            Command::ToggleIcase
        } else {
            Command::Ignore
        },
        Key::Char(c) => if c == '\t' {
            Command::FocusNext
        } else if c == '\n' {
            Command::Commit
        } else {
            Command::Insert(c)
        },
        Key::BackTab => Command::FocusPrev,
        Key::Backspace => Command::Delete,
        Key::Other => Command::Ignore,
    }
}

/// Turns a key into what it asks for: Ctrl-c cancels, Tab and
/// Shift-Tab move the focus, Ctrl-g and Ctrl-r flip the flags, Enter
/// commits, and every other character is typed into the focused field.
pub fn command_of(key: Key) -> (command: Command)
    ensures
        command == command_spec(key),
{
    match key {
        Key::Ctrl(c) => if c == 'c' {
            Command::Cancel
        } else if c == 'g' {
            Command::ToggleGlobal
        } else if c == 'r' {
            Command::ToggleIcase
        } else {
            Command::Ignore
        },
        Key::Char(c) => if c == '\t' {
            Command::FocusNext
        } else if c == '\n' {
            Command::Commit
        } else {
            Command::Insert(c)
        },
        Key::BackTab => Command::FocusPrev,
        Key::Backspace => Command::Delete,
        Key::Other => Command::Ignore,
    }
}

/// How a session ends.
#[derive(Debug, PartialEq, Eq)]
pub enum AppResult {
    /// The user committed: these are the moves to make, in order.
    MoveFiles(Vec<MovePair>),
    /// The user cancelled.
    Exit,
}

/// An `AppResult` with the moves as sequences of characters.
pub enum AppResultView {
    MoveFiles(Seq<MovePairView>),
    Exit,
}

impl View for AppResult {
    type V = AppResultView;

    open spec fn view(&self) -> AppResultView {
        match self {
            AppResult::MoveFiles(pairs) => AppResultView::MoveFiles(pairs.deep_view()),
            AppResult::Exit => AppResultView::Exit,
        }
    }
}

impl DeepView for AppResult {
    type V = AppResultView;

    open spec fn deep_view(&self) -> AppResultView {
        self@
    }
}

/// The state of an editing session.
pub struct App {
    /// current value of the regex input box
    regex: String,
    /// current value of the replacement string box
    replacement: String,
    /// match flags
    flags: MatchFlags,
    /// active editing area where the cursor is
    active_area: EditFocus,
    /// source files to rename
    source_files: Candidates,
}

/// The state of a session as plain values.
pub struct AppView {
    pub regex: Seq<char>,
    pub replacement: Seq<char>,
    pub flags: MatchFlags,
    pub active_area: EditFocus,
    pub source_files: Seq<Seq<char>>,
}

impl View for App {
    type V = AppView;

    closed spec fn view(&self) -> AppView {
        AppView {
            regex: self.regex@,
            replacement: self.replacement@,
            flags: self.flags,
            active_area: self.active_area,
            source_files: self.source_files@,
        }
    }
}

impl AppView {
    /// The text of the field that has the focus.
    pub open spec fn focused_text(self) -> Seq<char> {
        match self.active_area {
            EditFocus::Pattern => self.regex,
            EditFocus::Replacement => self.replacement,
        }
    }

    /// The state with `text` in the field that has the focus.
    pub open spec fn with_focused_text(self, text: Seq<char>) -> AppView {
        match self.active_area {
            EditFocus::Pattern => AppView { regex: text, ..self },
            EditFocus::Replacement => AppView { replacement: text, ..self },
        }
    }

    /// The moves that committing in this state asks for.
    pub open spec fn planned(self) -> Seq<MovePairView> {
        plan_spec(
            self.source_files,
            compose_spec(self.regex, self.flags),
            self.replacement,
            self.flags.global,
        )
    }

    /// The state after a command. Typing and deleting change the focused
    /// field and nothing else; moving the focus changes no text; flipping a
    /// flag changes that flag and nothing else; committing, cancelling and
    /// an unbound key change nothing.
    pub open spec fn after(self, command: Command) -> AppView {
        match command {
            Command::Insert(c) => self.with_focused_text(self.focused_text().push(c)),
            Command::Delete => if self.focused_text().len() > 0 {
                self.with_focused_text(self.focused_text().drop_last())
            } else {
                self
            },
            Command::FocusNext => AppView { active_area: self.active_area.spec_next(), ..self },
            Command::FocusPrev => AppView { active_area: self.active_area.spec_prev(), ..self },
            Command::ToggleGlobal => AppView {
                flags: MatchFlags { global: !self.flags.global, icase: self.flags.icase },
                ..self
            },
            Command::ToggleIcase => AppView {
                flags: MatchFlags { global: self.flags.global, icase: !self.flags.icase },
                ..self
            },
            Command::Commit | Command::Cancel | Command::Ignore => self,
        }
    }

    /// How a command ends the session, if it does.
    pub open spec fn result_of(self, command: Command) -> Option<AppResultView> {
        match command {
            Command::Cancel => Some(AppResultView::Exit),
            Command::Commit => Some(AppResultView::MoveFiles(self.planned())),
            _ => None,
        }
    }
}

impl Default for App {
    fn default() -> (app: App)
        ensures
            app@ == (AppView {
                regex: Seq::<char>::empty(),
                replacement: Seq::<char>::empty(),
                flags: MatchFlags { global: false, icase: false },
                active_area: EditFocus::Pattern,
                source_files: Seq::<Seq<char>>::empty(),
            }),
            all_normal(app@.source_files),
    {
        App {
            regex: String::new(),
            replacement: String::new(),
            flags: MatchFlags::none(),
            active_area: EditFocus::Pattern,
            source_files: Candidates::none(),
        }
    }
}

impl App {
    /// Takes `files` as the candidates, each brought into absolute, normal
    /// form; a relative path is resolved against `cwd`. The order is kept.
    pub fn with_files(self, files: Vec<String>, cwd: &str) -> (app: App)
        ensures
            app@ == (AppView {
                source_files: normalized_files(files.deep_view(), cwd@),
                ..self@
            }),
            all_normal(app@.source_files),
    {
        App {
            regex: self.regex,
            replacement: self.replacement,
            flags: self.flags,
            active_area: self.active_area,
            source_files: Candidates::normalized(files, cwd),
        }
    }

    /// Sets the pattern.
    pub fn with_regex(self, regex: String) -> (app: App)
        ensures
            app@ == (AppView { regex: regex@, ..self@ }),
            all_normal(app@.source_files),
    {
        // the list vouches for the form of its paths
        let _ = self.source_files.paths();
        App {
            regex,
            replacement: self.replacement,
            flags: self.flags,
            active_area: self.active_area,
            source_files: self.source_files,
        }
    }

    /// Sets the replacement template.
    pub fn with_replacement(self, replacement: String) -> (app: App)
        ensures
            app@ == (AppView { replacement: replacement@, ..self@ }),
            all_normal(app@.source_files),
    {
        // the list vouches for the form of its paths
        let _ = self.source_files.paths();
        App {
            regex: self.regex,
            replacement,
            flags: self.flags,
            active_area: self.active_area,
            source_files: self.source_files,
        }
    }

    /// Whether every occurrence of the pattern is replaced.
    pub fn is_global(&self) -> (r: bool)
        ensures
            r == self@.flags.global,
    {
        self.flags.is_global()
    }

    /// The pattern as typed so far.
    pub fn regex(&self) -> (r: &str)
        ensures
            r@ == self@.regex,
    {
        self.regex.as_str()
    }

    /// The replacement template as typed so far.
    pub fn replacement(&self) -> (r: &str)
        ensures
            r@ == self@.replacement,
    {
        self.replacement.as_str()
    }

    /// The flags.
    pub fn flags(&self) -> (r: MatchFlags)
        ensures
            r == self@.flags,
    {
        self.flags
    }

    /// The field that has the focus.
    pub fn active_area(&self) -> (r: EditFocus)
        ensures
            r == self@.active_area,
    {
        self.active_area
    }

    /// The candidates, in absolute, normal form.
    pub fn source_files(&self) -> (r: &Vec<String>)
        ensures
            r.deep_view() == self@.source_files,
            all_normal(r.deep_view()),
    {
        self.source_files.paths()
    }

    /// Compiles the pattern under the flags, as they are now.
    pub fn matcher(&self) -> (matcher: Option<CompiledMatcher>)
        ensures
            matcher.deep_view() == compose_spec(self@.regex, self@.flags),
    {
        compose(self.regex.as_str(), self.flags)
    }

    /// One row for each candidate that has a file name, in the order of the
    /// candidates: where the file lies, its name, and what `matcher` and the
    /// template make of the name.
    pub fn preview(&self, matcher: &Option<CompiledMatcher>) -> (rows: Vec<PreviewRow>)
        ensures
            rows.deep_view() == preview_spec(
                self@.source_files,
                matcher.deep_view(),
                self@.replacement,
                self@.flags.global,
            ),
    {
        preview(
            self.source_files.paths(),
            matcher,
            self.replacement.as_str(),
            self.flags.is_global(),
        )
    }

    /// Carries out one command. The result says whether the session ends:
    /// on `Cancel` with `Exit`, on `Commit` with the moves that the pattern,
    /// the template and the flags give for the candidates. No command
    /// changes the candidates, and every move begins at one of them.
    pub fn apply(&mut self, command: Command) -> (result: Option<AppResult>)
        ensures
            final(self)@ == old(self)@.after(command),
            result.deep_view() == old(self)@.result_of(command),
            final(self)@.source_files == old(self)@.source_files,
            all_normal(final(self)@.source_files),
            sources_among(old(self)@.planned(), old(self)@.source_files),
    {
        // the list vouches for the form of its paths
        let _ = self.source_files.paths();
        proof {
            lemma_plan_sources(
                self@.source_files,
                compose_spec(self@.regex, self@.flags),
                self@.replacement,
                self@.flags.global,
            );
        }
        match command {
            Command::Insert(c) => {
                match self.active_area {
                    EditFocus::Pattern => self.regex.push(c),
                    EditFocus::Replacement => self.replacement.push(c),
                }
                None
            },
            Command::Delete => {
                match self.active_area {
                    EditFocus::Pattern => {
                        self.regex.pop();
                    },
                    EditFocus::Replacement => {
                        self.replacement.pop();
                    },
                }
                None
            },
            Command::FocusNext => {
                self.active_area = self.active_area.next();
                None
            },
            Command::FocusPrev => {
                self.active_area = self.active_area.prev();
                None
            },
            Command::ToggleGlobal => {
                self.flags.toggle_global();
                None
            },
            Command::ToggleIcase => {
                self.flags.toggle_icase();
                None
            },
            Command::Commit => {
                let matcher = self.matcher();
                let pairs = plan(
                    self.source_files.paths(),
                    &matcher,
                    self.replacement.as_str(),
                    self.flags.is_global(),
                );
                Some(AppResult::MoveFiles(pairs))
            },
            Command::Cancel => Some(AppResult::Exit),
            Command::Ignore => None,
        }
    }

    /// Carries out what a key asks for.
    pub fn handle_key(&mut self, key: Key) -> (result: Option<AppResult>)
        ensures
            final(self)@ == old(self)@.after(command_spec(key)),
            result.deep_view() == old(self)@.result_of(command_spec(key)),
            final(self)@.source_files == old(self)@.source_files,
            all_normal(final(self)@.source_files),
            sources_among(old(self)@.planned(), old(self)@.source_files),
    {
        self.apply(command_of(key))
    }
}

} // verus!
