//! The terminal browser's model: an Elm-style state machine driven by
//! semantic messages. `update` never touches the store: when the note list
//! must be refreshed it returns an [`Effect`], the host runs the query and
//! hands the answer back to [`App::reloaded`] or [`App::refiltered`].

use crate::id::NoteId;
use crate::model::{store_error_message, StoreError};
use crate::note::{display_title_view, Note, NoteView};
use crate::query::notes_view;
use crate::text::{chars_of, is_ws, push_char, string_of, trim, trim_range};
use vstd::prelude::*;

verus! {

/// How many notes the list shows at most.
pub const LIST_LIMIT: usize = 500;

/// What the browser wants the caller to do after it exits.
#[derive(Debug, Clone, PartialEq, Eq)]
pub enum Outcome {
    /// Quit the application.
    Quit,
    /// Edit this note (the caller runs the editor, then re-enters).
    Edit(NoteId),
    /// Create a note with this (possibly empty) title (the caller opens the
    /// editor seeded with the title as a heading, then re-enters).
    New { title: String },
}

/// The abstract content of an outcome.
pub enum OutcomeSpec {
    Quit,
    Edit(u128),
    New(Seq<char>),
}

impl View for Outcome {
    type V = OutcomeSpec;

    open spec fn view(&self) -> OutcomeSpec {
        match self {
            Outcome::Quit => OutcomeSpec::Quit,
            Outcome::Edit(id) => OutcomeSpec::Edit(id.0),
            Outcome::New { title } => OutcomeSpec::New(title@),
        }
    }
}

/// Which screen the browser shows.
#[derive(Debug, Clone, Copy, PartialEq, Eq, Structural)]
pub enum Mode {
    List,
    View,
    Search,
    Create,
}

/// Semantic messages; the event loop translates key presses into these.
#[derive(Debug, Clone, Copy, PartialEq, Eq, Structural)]
pub enum Msg {
    Up,
    Down,
    Open,
    Back,
    Quit,
    Edit,
    StartSearch,
    SearchChar(char),
    SearchBackspace,
    SearchSubmit,
    SearchCancel,
    StartCreate,
    TitleChar(char),
    TitleBackspace,
    CreateSubmit,
    CreateCancel,
    Reload,
}

/// A key as the browser understands it; every other key is `Other`.
#[derive(Debug, Clone, Copy, PartialEq, Eq, Structural)]
pub enum KeyCode {
    Char(char),
    Up,
    Down,
    Enter,
    Esc,
    Backspace,
    Other,
}

/// A key press: the key, and whether Control was held.
#[derive(Debug, Clone, Copy, PartialEq, Eq, Structural)]
pub struct KeyEvent {
    pub code: KeyCode,
    pub ctrl: bool,
}

/// The message a key press means on each screen: Ctrl-C always quits; on
/// the list and view screens keys are commands, while the search and create
/// screens take characters as text.
pub open spec fn key_msg(mode: Mode, key: KeyEvent) -> Option<Msg> {
    if key.ctrl && key.code == KeyCode::Char('c') {
        Some(Msg::Quit)
    } else {
        match mode {
            Mode::List => match key.code {
                KeyCode::Char('q') | KeyCode::Esc => Some(Msg::Quit),
                KeyCode::Up | KeyCode::Char('k') => Some(Msg::Up),
                KeyCode::Down | KeyCode::Char('j') => Some(Msg::Down),
                KeyCode::Enter | KeyCode::Char('l') => Some(Msg::Open),
                KeyCode::Char('/') => Some(Msg::StartSearch),
                KeyCode::Char('e') => Some(Msg::Edit),
                KeyCode::Char('n') => Some(Msg::StartCreate),
                _ => None,
            },
            Mode::View => match key.code {
                KeyCode::Char('q') => Some(Msg::Quit),
                KeyCode::Esc | KeyCode::Enter | KeyCode::Char('h') => Some(Msg::Back),
                KeyCode::Up | KeyCode::Char('k') => Some(Msg::Up),
                KeyCode::Down | KeyCode::Char('j') => Some(Msg::Down),
                KeyCode::Char('e') => Some(Msg::Edit),
                _ => None,
            },
            Mode::Search => match key.code {
                KeyCode::Esc => Some(Msg::SearchCancel),
                KeyCode::Enter => Some(Msg::SearchSubmit),
                KeyCode::Backspace => Some(Msg::SearchBackspace),
                KeyCode::Char(c) => Some(Msg::SearchChar(c)),
                _ => None,
            },
            Mode::Create => match key.code {
                KeyCode::Esc => Some(Msg::CreateCancel),
                KeyCode::Enter => Some(Msg::CreateSubmit),
                KeyCode::Backspace => Some(Msg::TitleBackspace),
                KeyCode::Char(c) => Some(Msg::TitleChar(c)),
                _ => None,
            },
        }
    }
}

/// The key hints of each screen, as (keys, action) pairs.
pub open spec fn footer_items(mode: Mode) -> Seq<(Seq<char>, Seq<char>)> {
    match mode {
        Mode::List => seq![
            ("up/down"@, "move"@),
            ("enter"@, "open"@),
            ("/"@, "search"@),
            ("n"@, "new"@),
            ("e"@, "edit"@),
            ("q"@, "quit"@),
        ],
        Mode::View => seq![("up/down"@, "scroll"@), ("e"@, "edit"@), ("esc"@, "back"@), ("q"@, "quit"@)],
        Mode::Search => seq![("type"@, "filter"@), ("enter"@, "apply"@), ("esc"@, "cancel"@)],
        Mode::Create => seq![("type"@, "title"@), ("enter"@, "open editor"@), ("esc"@, "cancel"@)],
    }
}

/// A query the browser asks its host to run after an update.
#[derive(Debug, Clone, PartialEq, Eq)]
pub enum Effect {
    /// Nothing to run.
    Nothing,
    /// List the most recent notes (at most `LIST_LIMIT`) and hand them to
    /// `reloaded`.
    Reload,
    /// List the most recent notes (`None`) or run a prefix search for the
    /// text (`Some`), at most `LIST_LIMIT`, and hand them to `refiltered`.
    Refilter(Option<String>),
}

/// The abstract content of an effect.
pub enum EffectSpec {
    Nothing,
    Reload,
    Refilter(Option<Seq<char>>),
}

impl View for Effect {
    type V = EffectSpec;

    open spec fn view(&self) -> EffectSpec {
        match self {
            Effect::Nothing => EffectSpec::Nothing,
            Effect::Reload => EffectSpec::Reload,
            Effect::Refilter(None) => EffectSpec::Refilter(None),
            Effect::Refilter(Some(q)) => EffectSpec::Refilter(Some(q@)),
        }
    }
}

/// The abstract state of the browser.
pub struct AppView {
    pub mode: Mode,
    pub notes: Seq<NoteView>,
    pub selected: usize,
    pub search: Seq<char>,
    pub title: Seq<char>,
    pub scroll: u16,
    pub status: Seq<char>,
    pub running: bool,
    pub outcome: OutcomeSpec,
}

/// The selection points at a note, or is zero when there are none.
pub open spec fn selection_in_bounds(a: AppView) -> bool {
    a.selected == 0 || a.selected < a.notes.len()
}

/// Number of line feeds in a text.
pub open spec fn newline_count(s: Seq<char>) -> nat
    decreases s.len(),
{
    if s.len() == 0 {
        0
    } else {
        newline_count(s.drop_last()) + if s.last() == '\n' {
            1nat
        } else {
            0nat
        }
    }
}

proof fn lemma_newline_count_bound(s: Seq<char>)
    ensures
        newline_count(s) <= s.len(),
    decreases s.len(),
{
    if s.len() > 0 {
        lemma_newline_count_bound(s.drop_last());
    }
}

/// Number of lines of a text as `str::lines` counts them: one per line
/// feed, plus one for a non-empty last line without one.
pub open spec fn line_count(s: Seq<char>) -> nat {
    newline_count(s) + if s.len() > 0 && s.last() != '\n' {
        1nat
    } else {
        0nat
    }
}

/// The furthest the view may scroll: the selected note's line count (at most
/// `u16::MAX`), or zero when nothing is selected.
pub open spec fn max_scroll(a: AppView) -> u16 {
    if a.selected < a.notes.len() {
        let n = line_count(a.notes[a.selected as int].body);
        if n <= u16::MAX {
            n as u16
        } else {
            u16::MAX
        }
    } else {
        0
    }
}

/// The text with its last character removed (`String::pop`).
pub open spec fn pop_char(s: Seq<char>) -> Seq<char> {
    if s.len() == 0 {
        s
    } else {
        s.drop_last()
    }
}

/// The selection moved to the last note when it is past it.
pub open spec fn clamp_selection(sel: usize, len: nat) -> usize {
    let max: int = if len == 0 {
        0
    } else {
        len - 1
    };
    if sel > max {
        max as usize
    } else {
        sel
    }
}

/// The list refresh a search text asks for: the full list when it is blank,
/// else a prefix search for it.
pub open spec fn refilter_for(search: Seq<char>) -> EffectSpec {
    if trim(search).len() == 0 {
        EffectSpec::Refilter(None)
    } else {
        EffectSpec::Refilter(Some(search))
    }
}

/// How the browser reacts to one message: its next state and the query it
/// asks the host to run.
pub open spec fn step(a: AppView, m: Msg) -> (AppView, EffectSpec) {
    match m {
        Msg::Reload => (a, EffectSpec::Reload),
        Msg::Quit => (AppView { outcome: OutcomeSpec::Quit, running: false, ..a }, EffectSpec::Nothing),
        Msg::Edit => if a.selected < a.notes.len() {
            (
                AppView {
                    outcome: OutcomeSpec::Edit(a.notes[a.selected as int].id),
                    running: false,
                    ..a
                },
                EffectSpec::Nothing,
            )
        } else {
            (a, EffectSpec::Nothing)
        },
        Msg::Up => if a.mode == Mode::View {
            (AppView { scroll: if a.scroll == 0 { 0 } else { (a.scroll - 1) as u16 }, ..a }, EffectSpec::Nothing)
        } else {
            (
                AppView { selected: if a.selected == 0 { 0 } else { (a.selected - 1) as usize }, ..a },
                EffectSpec::Nothing,
            )
        },
        Msg::Down => if a.mode == Mode::View {
            (
                AppView {
                    scroll: if a.scroll + 1 <= max_scroll(a) {
                        (a.scroll + 1) as u16
                    } else {
                        max_scroll(a)
                    },
                    ..a
                },
                EffectSpec::Nothing,
            )
        } else {
            (
                AppView { selected: clamp_selection((a.selected + 1) as usize, a.notes.len()), ..a },
                EffectSpec::Nothing,
            )
        },
        Msg::Open => if a.mode == Mode::List && a.notes.len() > 0 {
            (AppView { mode: Mode::View, scroll: 0, ..a }, EffectSpec::Nothing)
        } else {
            (a, EffectSpec::Nothing)
        },
        Msg::Back | Msg::SearchSubmit => (AppView { mode: Mode::List, ..a }, EffectSpec::Nothing),
        Msg::StartSearch => (
            AppView { mode: Mode::Search, search: Seq::empty(), ..a },
            EffectSpec::Refilter(None),
        ),
        Msg::SearchChar(c) => (
            AppView { search: a.search.push(c), ..a },
            refilter_for(a.search.push(c)),
        ),
        Msg::SearchBackspace => (
            AppView { search: pop_char(a.search), ..a },
            refilter_for(pop_char(a.search)),
        ),
        Msg::SearchCancel => (
            AppView { mode: Mode::List, search: Seq::empty(), ..a },
            EffectSpec::Reload,
        ),
        Msg::StartCreate => (
            AppView { mode: Mode::Create, title: Seq::empty(), ..a },
            EffectSpec::Nothing,
        ),
        Msg::TitleChar(c) => (AppView { title: a.title.push(c), ..a }, EffectSpec::Nothing),
        Msg::TitleBackspace => (AppView { title: pop_char(a.title), ..a }, EffectSpec::Nothing),
        Msg::CreateSubmit => (
            AppView { outcome: OutcomeSpec::New(trim(a.title)), running: false, ..a },
            EffectSpec::Nothing,
        ),
        Msg::CreateCancel => (
            AppView { mode: Mode::List, title: Seq::empty(), ..a },
            EffectSpec::Nothing,
        ),
    }
}

/// Opening a note from a non-empty list shows the selected note from its
/// first line, whatever was scrolled before; the list, the selection and
/// the search are kept, and nothing is asked of the store.
pub proof fn lemma_open_starts_at_top(a: AppView)
    requires
        a.mode == Mode::List,
        a.notes.len() > 0,
    ensures
        step(a, Msg::Open).0.scroll == 0,
        step(a, Msg::Open).0.mode == Mode::View,
        step(a, Msg::Open).0.notes == a.notes,
        step(a, Msg::Open).0.selected == a.selected,
        step(a, Msg::Open).0.search == a.search,
        step(a, Msg::Open).1 == EffectSpec::Nothing,
{
}

/// Going back to the list and opening again always starts at the top, so a
/// note never opens at the offset another note was scrolled to.
pub proof fn lemma_reopen_starts_at_top(a: AppView)
    requires
        a.notes.len() > 0,
    ensures
        step(step(a, Msg::Back).0, Msg::Open).0.scroll == 0,
        step(step(a, Msg::Back).0, Msg::Open).0.mode == Mode::View,
{
}

/// The status line after a failed query.
pub open spec fn error_status(e: StoreError) -> Seq<char> {
    "error: "@ + store_error_message(e)
}

/// The state after the host answered a `Reload`: the notes, the selection
/// kept within them and the status cleared; or, on failure, the error in
/// the status line.
pub open spec fn after_reload(a: AppView, r: Result<Seq<NoteView>, StoreError>) -> AppView {
    match r {
        Ok(ns) => AppView {
            notes: ns,
            selected: clamp_selection(a.selected, ns.len()),
            status: Seq::empty(),
            ..a
        },
        Err(e) => AppView { status: error_status(e), ..a },
    }
}

/// The state after the host answered a `Refilter`: the notes, the first one
/// selected and the status cleared; or, on failure, the error in the status
/// line.
pub open spec fn after_refilter(a: AppView, r: Result<Seq<NoteView>, StoreError>) -> AppView {
    match r {
        Ok(ns) => AppView { notes: ns, selected: 0, status: Seq::empty(), ..a },
        Err(e) => AppView { status: error_status(e), ..a },
    }
}

/// The views of a query answer.
pub open spec fn answer_view(r: Result<Vec<Note>, StoreError>) -> Result<Seq<NoteView>, StoreError> {
    match r {
        Ok(ns) => Ok(notes_view(ns@)),
        Err(e) => Err(e),
    }
}

/// The note browser model.
#[derive(Debug)]
pub struct App {
    mode: Mode,
    notes: Vec<Note>,
    selected: usize,
    search: String,
    title: String,
    scroll: u16,
    status: String,
    running: bool,
    outcome: Outcome,
}

impl View for App {
    type V = AppView;

    closed spec fn view(&self) -> AppView {
        AppView {
            mode: self.mode,
            notes: notes_view(self.notes@),
            selected: self.selected,
            search: self.search@,
            title: self.title@,
            scroll: self.scroll,
            status: self.status@,
            running: self.running,
            outcome: self.outcome@,
        }
    }
}

/// Number of lines of `s` (see `line_count`).
fn count_lines(s: &str) -> (r: usize)
    ensures
        r == line_count(s@),
{
    let v = chars_of(s);
    let mut n: usize = 0;
    let mut i: usize = 0;
    while i < v.len()
        invariant
            i <= v.len(),
            n <= i,
            n == newline_count(v@.take(i as int)),
        decreases v.len() - i,
    {
        assert(v@.take(i + 1).drop_last() =~= v@.take(i as int));
        assert(v@.take(i + 1).last() == v@[i as int]);
        if v[i] == '\n' {
            n += 1;
        }
        i += 1;
    }
    assert(v@.take(i as int) =~= v@);
    if v.len() > 0 && v[v.len() - 1] != '\n' {
        proof {
            lemma_newline_count_bound(v@.drop_last());
        }
        n + 1
    } else {
        n
    }
}

/// `s` without its last character.
fn popped(s: &str) -> (r: String)
    ensures
        r@ == pop_char(s@),
{
    let v = chars_of(s);
    if v.len() == 0 {
        String::new()
    } else {
        string_of(&v, 0, v.len() - 1)
    }
}

/// `s` with `c` appended.
fn pushed(s: &str, c: char) -> (r: String)
    ensures
        r@ == s@.push(c),
{
    let mut out = s.to_owned();
    push_char(&mut out, c);
    out
}

/// Whether `s` is blank after trimming.
fn is_blank(s: &str) -> (r: bool)
    ensures
        r == (trim(s@).len() == 0),
{
    let v = chars_of(s);
    let (a, b) = trim_range(&v, 0, v.len());
    assert(v@.subrange(0, v@.len() as int) =~= v@);
    a == b
}

/// The list refresh for a search text (see `refilter_for`).
fn refilter_effect(search: &str) -> (r: Effect)
    ensures
        r@ == refilter_for(search@),
{
    if is_blank(search) {
        Effect::Refilter(None)
    } else {
        Effect::Refilter(Some(search.to_owned()))
    }
}

impl App {
    #[verifier::type_invariant]
    closed spec fn wf(self) -> bool {
        selection_in_bounds(self@)
    }

    /// A browser on the empty list, running, with no outcome yet (quit).
    pub fn new() -> (r: Self)
        ensures
            r@.mode == Mode::List,
            r@.notes.len() == 0,
            r@.selected == 0,
            r@.search.len() == 0,
            r@.title.len() == 0,
            r@.scroll == 0,
            r@.status.len() == 0,
            r@.running,
            r@.outcome == OutcomeSpec::Quit,
    {
        let r = App {
            mode: Mode::List,
            notes: Vec::new(),
            selected: 0,
            search: String::new(),
            title: String::new(),
            scroll: 0,
            status: String::new(),
            running: true,
            outcome: Outcome::Quit,
        };
        assert(notes_view(r.notes@) =~= Seq::<NoteView>::empty());
        r
    }

    /// Whether the browser is still running.
    pub fn is_running(&self) -> (r: bool)
        ensures
            r == self@.running,
    {
        self.running
    }

    /// What the caller should do after the browser exits.
    pub fn outcome(&self) -> (r: Outcome)
        ensures
            r@ == self@.outcome,
    {
        match &self.outcome {
            Outcome::Quit => Outcome::Quit,
            Outcome::Edit(id) => Outcome::Edit(*id),
            Outcome::New { title } => Outcome::New { title: title.clone() },
        }
    }

    /// The current screen.
    pub fn mode(&self) -> (r: Mode)
        ensures
            r == self@.mode,
    {
        self.mode
    }

    /// The listed notes.
    pub fn notes(&self) -> (r: &Vec<Note>)
        ensures
            notes_view(r@) == self@.notes,
    {
        &self.notes
    }

    /// The index of the selected note (zero when the list is empty).
    pub fn selected(&self) -> (r: usize)
        ensures
            r == self@.selected,
            selection_in_bounds(self@),
    {
        proof {
            use_type_invariant(self);
        }
        self.selected
    }

    /// The search text being typed.
    pub fn search(&self) -> (r: &str)
        ensures
            r@ == self@.search,
    {
        self.search.as_str()
    }

    /// The title being typed for a new note.
    pub fn title(&self) -> (r: &str)
        ensures
            r@ == self@.title,
    {
        self.title.as_str()
    }

    /// The view's scroll offset.
    pub fn scroll(&self) -> (r: u16)
        ensures
            r == self@.scroll,
    {
        self.scroll
    }

    /// The status line (the last query error, if any).
    pub fn status(&self) -> (r: &str)
        ensures
            r@ == self@.status,
    {
        self.status.as_str()
    }

    /// The selected note, if any.
    pub fn current(&self) -> (r: Option<&Note>)
        ensures
            match r {
                Some(n) => self@.selected < self@.notes.len() && n@ == self@.notes[self@.selected as int],
                None => self@.selected >= self@.notes.len(),
            },
    {
        if self.selected < self.notes.len() {
            Some(&self.notes[self.selected])
        } else {
            None
        }
    }

    /// Translate a key press into a message for the current screen (see
    /// `key_msg`).
    pub fn map_key(&self, key: KeyEvent) -> (r: Option<Msg>)
        ensures
            r == key_msg(self@.mode, key),
    {
        if key.ctrl && key.code == KeyCode::Char('c') {
            return Some(Msg::Quit);
        }
        match self.mode {
            Mode::List => match key.code {
                KeyCode::Char('q') | KeyCode::Esc => Some(Msg::Quit),
                KeyCode::Up | KeyCode::Char('k') => Some(Msg::Up),
                KeyCode::Down | KeyCode::Char('j') => Some(Msg::Down),
                KeyCode::Enter | KeyCode::Char('l') => Some(Msg::Open),
                KeyCode::Char('/') => Some(Msg::StartSearch),
                KeyCode::Char('e') => Some(Msg::Edit),
                KeyCode::Char('n') => Some(Msg::StartCreate),
                _ => None,
            },
            Mode::View => match key.code {
                KeyCode::Char('q') => Some(Msg::Quit),
                KeyCode::Esc | KeyCode::Enter | KeyCode::Char('h') => Some(Msg::Back),
                KeyCode::Up | KeyCode::Char('k') => Some(Msg::Up),
                KeyCode::Down | KeyCode::Char('j') => Some(Msg::Down),
                KeyCode::Char('e') => Some(Msg::Edit),
                _ => None,
            },
            Mode::Search => match key.code {
                KeyCode::Esc => Some(Msg::SearchCancel),
                KeyCode::Enter => Some(Msg::SearchSubmit),
                KeyCode::Backspace => Some(Msg::SearchBackspace),
                KeyCode::Char(c) => Some(Msg::SearchChar(c)),
                _ => None,
            },
            Mode::Create => match key.code {
                KeyCode::Esc => Some(Msg::CreateCancel),
                KeyCode::Enter => Some(Msg::CreateSubmit),
                KeyCode::Backspace => Some(Msg::TitleBackspace),
                KeyCode::Char(c) => Some(Msg::TitleChar(c)),
                _ => None,
            },
        }
    }

    /// The furthest the view may scroll (see `max_scroll`).
    fn max_scroll(&self) -> (r: u16)
        ensures
            r == max_scroll(self@),
    {
        if self.selected < self.notes.len() {
            let n = count_lines(self.notes[self.selected].body.as_str());
            if n <= u16::MAX as usize {
                n as u16
            } else {
                u16::MAX
            }
        } else {
            0
        }
    }

    /// React to one message (see `step`): the selection stays within the
    /// list, and the returned effect names the query the host must run.
    pub fn update(&mut self, msg: Msg) -> (e: Effect)
        ensures
            (final(self)@, e@) == step(old(self)@, msg),
            selection_in_bounds(final(self)@),
    {
        proof {
            use_type_invariant(&*self);
        }
        match msg {
            Msg::Reload => Effect::Reload,
            Msg::Quit => {
                self.outcome = Outcome::Quit;
                self.running = false;
                Effect::Nothing
            },
            Msg::Edit => {
                if self.selected < self.notes.len() {
                    self.outcome = Outcome::Edit(self.notes[self.selected].id);
                    self.running = false;
                }
                Effect::Nothing
            },
            Msg::Up => {
                if self.mode == Mode::View {
                    self.scroll = if self.scroll == 0 {
                        0
                    } else {
                        self.scroll - 1
                    };
                } else {
                    self.selected = if self.selected == 0 {
                        0
                    } else {
                        self.selected - 1
                    };
                }
                Effect::Nothing
            },
            Msg::Down => {
                if self.mode == Mode::View {
                    let max = self.max_scroll();
                    self.scroll = if self.scroll < max {
                        self.scroll + 1
                    } else {
                        max
                    };
                } else {
                    let len = self.notes.len();
                    let max = if len == 0 {
                        0
                    } else {
                        len - 1
                    };
                    self.selected = if self.selected >= max {
                        max
                    } else {
                        self.selected + 1
                    };
                }
                Effect::Nothing
            },
            Msg::Open => {
                if self.mode == Mode::List && self.notes.len() > 0 {
                    self.mode = Mode::View;
                    self.scroll = 0;
                }
                Effect::Nothing
            },
            Msg::Back | Msg::SearchSubmit => {
                self.mode = Mode::List;
                Effect::Nothing
            },
            Msg::StartSearch => {
                self.mode = Mode::Search;
                self.search = String::new();
                Effect::Refilter(None)
            },
            Msg::SearchChar(c) => {
                self.search = pushed(self.search.as_str(), c);
                refilter_effect(self.search.as_str())
            },
            Msg::SearchBackspace => {
                self.search = popped(self.search.as_str());
                refilter_effect(self.search.as_str())
            },
            Msg::SearchCancel => {
                self.mode = Mode::List;
                self.search = String::new();
                Effect::Reload
            },
            Msg::StartCreate => {
                self.mode = Mode::Create;
                self.title = String::new();
                Effect::Nothing
            },
            Msg::TitleChar(c) => {
                self.title = pushed(self.title.as_str(), c);
                Effect::Nothing
            },
            Msg::TitleBackspace => {
                self.title = popped(self.title.as_str());
                Effect::Nothing
            },
            Msg::CreateSubmit => {
                let v = chars_of(self.title.as_str());
                let (a, b) = trim_range(&v, 0, v.len());
                assert(v@.subrange(0, v@.len() as int) =~= v@);
                self.outcome = Outcome::New { title: string_of(&v, a, b) };
                self.running = false;
                Effect::Nothing
            },
            Msg::CreateCancel => {
                self.mode = Mode::List;
                self.title = String::new();
                Effect::Nothing
            },
        }
    }

    /// Take the host's answer to a `Reload` (see `after_reload`).
    pub fn reloaded(&mut self, result: Result<Vec<Note>, StoreError>)
        ensures
            final(self)@ == after_reload(old(self)@, answer_view(result)),
            selection_in_bounds(final(self)@),
    {
        proof {
            use_type_invariant(&*self);
        }
        match result {
            Ok(notes) => {
                let len = notes.len();
                let max = if len == 0 {
                    0
                } else {
                    len - 1
                };
                let sel = if self.selected > max {
                    max
                } else {
                    self.selected
                };
                self.selected = 0;
                self.notes = notes;
                self.selected = sel;
                self.status = String::new();
            },
            Err(e) => {
                let mut s = "error: ".to_owned();
                let m = e.to_string();
                s.append(m.as_str());
                self.status = s;
            },
        }
    }

    /// Take the host's answer to a `Refilter` (see `after_refilter`).
    pub fn refiltered(&mut self, result: Result<Vec<Note>, StoreError>)
        ensures
            final(self)@ == after_refilter(old(self)@, answer_view(result)),
            selection_in_bounds(final(self)@),
    {
        proof {
            use_type_invariant(&*self);
        }
        match result {
            Ok(notes) => {
                self.selected = 0;
                self.notes = notes;
                self.status = String::new();
            },
            Err(e) => {
                let mut s = "error: ".to_owned();
                let m = e.to_string();
                s.append(m.as_str());
                self.status = s;
            },
        }
    }

    /// The key hints of the footer, as (keys, action) pairs for the current
    /// screen.
    pub fn footer_help(&self) -> (r: Vec<(&'static str, &'static str)>)
        ensures
            r@.map_values(|p: (&str, &str)| (p.0@, p.1@)) == footer_items(self@.mode),
    {
        let mut v: Vec<(&'static str, &'static str)> = Vec::new();
        match self.mode {
            Mode::List => {
                v.push(("up/down", "move"));
                v.push(("enter", "open"));
                v.push(("/", "search"));
                v.push(("n", "new"));
                v.push(("e", "edit"));
                v.push(("q", "quit"));
            },
            Mode::View => {
                v.push(("up/down", "scroll"));
                v.push(("e", "edit"));
                v.push(("esc", "back"));
                v.push(("q", "quit"));
            },
            Mode::Search => {
                v.push(("type", "filter"));
                v.push(("enter", "apply"));
                v.push(("esc", "cancel"));
            },
            Mode::Create => {
                v.push(("type", "title"));
                v.push(("enter", "open editor"));
                v.push(("esc", "cancel"));
            },
        }
        assert(v@.map_values(|p: (&str, &str)| (p.0@, p.1@)) =~= footer_items(self@.mode));
        v
    }

    /// The heading of the note list: `notes (N)`.
    pub fn list_heading(&self) -> (r: String)
        ensures
            r@ == "notes ("@ + crate::num::nat_digits(self@.notes.len()) + ")"@,
    {
        let mut s = "notes (".to_owned();
        let n = crate::num::u64_to_text(self.notes.len() as u64);
        s.append(n.as_str());
        s.append(")");
        s
    }

    /// The text of the `i`-th list entry: its display title, marked `> `
    /// when selected and indented otherwise.
    pub fn list_entry(&self, i: usize) -> (r: String)
        requires
            i < self@.notes.len(),
        ensures
            r@ == (if i == self@.selected {
                "> "@
            } else {
                "  "@
            }) + display_title_view(self@.notes[i as int]),
    {
        let t = self.notes[i].display_title();
        let mut s = if i == self.selected {
            "> ".to_owned()
        } else {
            "  ".to_owned()
        };
        s.append(t.as_str());
        s
    }
}

} // verus!
