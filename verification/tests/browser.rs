use note::app::{App, Effect, KeyCode, KeyEvent, Mode, Msg, Outcome};
use note::content::ContentKind;
use note::id::NoteId;
use note::model::StoreError;
use note::note::Note;
use note::time::Timestamp;

/// Notes titled as given, newest first (the order the store lists them in).
fn notes_with(titles: &[&str]) -> Vec<Note> {
    let mut out = Vec::new();
    for (i, t) in titles.iter().enumerate() {
        let mut n = Note::new(
            NoteId::from_parts(1000 + i as u64, i as u128),
            &format!("body of {t}"),
            ContentKind::Markdown,
            Timestamp::from_unix_millis(i as i64),
            Timestamp::from_unix_millis(i as i64),
        );
        n.title = Some((*t).to_owned());
        out.push(n);
    }
    out.reverse();
    out
}

/// Run the query an update asked for against `all`, as the store would
/// (a prefix search matches word prefixes of the titles and bodies).
fn serve(app: &mut App, effect: Effect, all: &[Note]) {
    match effect {
        Effect::Nothing => {}
        Effect::Reload => app.reloaded(Ok(all.to_vec())),
        Effect::Refilter(None) => app.refiltered(Ok(all.to_vec())),
        Effect::Refilter(Some(q)) => {
            let q = q.trim().to_lowercase();
            let hits = all
                .iter()
                .filter(|n| {
                    let text = format!("{} {}", n.title.clone().unwrap_or_default(), n.body).to_lowercase();
                    text.split_whitespace().any(|w| w.starts_with(&q))
                })
                .cloned()
                .collect();
            app.refiltered(Ok(hits));
        }
    }
}

fn send(app: &mut App, msg: Msg, all: &[Note]) {
    let effect = app.update(msg);
    serve(app, effect, all);
}

fn loaded(all: &[Note]) -> App {
    let mut app = App::new();
    send(&mut app, Msg::Reload, all);
    app
}

#[test]
fn reload_populates_notes() {
    let all = notes_with(&["a", "b", "c"]);
    let app = loaded(&all);
    assert_eq!(app.notes().len(), 3);
}

#[test]
fn down_and_up_move_selection_within_bounds() {
    let all = notes_with(&["a", "b"]);
    let mut app = loaded(&all);
    assert_eq!(app.selected(), 0);
    send(&mut app, Msg::Down, &all);
    assert_eq!(app.selected(), 1);
    send(&mut app, Msg::Down, &all);
    assert_eq!(app.selected(), 1);
    send(&mut app, Msg::Up, &all);
    assert_eq!(app.selected(), 0);
    send(&mut app, Msg::Up, &all);
    assert_eq!(app.selected(), 0);
}

#[test]
fn open_and_back_switch_modes() {
    let all = notes_with(&["a"]);
    let mut app = loaded(&all);
    assert_eq!(app.mode(), Mode::List);
    send(&mut app, Msg::Open, &all);
    assert_eq!(app.mode(), Mode::View);
    send(&mut app, Msg::Back, &all);
    assert_eq!(app.mode(), Mode::List);
}

#[test]
fn open_on_empty_list_stays_on_list() {
    let mut app = loaded(&[]);
    send(&mut app, Msg::Open, &[]);
    assert_eq!(app.mode(), Mode::List);
    send(&mut app, Msg::Edit, &[]);
    assert!(app.is_running());
}

#[test]
fn quit_stops_with_quit_outcome() {
    let all = notes_with(&["a"]);
    let mut app = loaded(&all);
    send(&mut app, Msg::Quit, &all);
    assert!(!app.is_running());
    assert_eq!(app.outcome(), Outcome::Quit);
}

#[test]
fn edit_returns_edit_outcome_for_selected() {
    let all = notes_with(&["a", "b"]);
    let mut app = loaded(&all);
    send(&mut app, Msg::Down, &all);
    let expected = app.notes()[1].id;
    send(&mut app, Msg::Edit, &all);
    assert!(!app.is_running());
    assert_eq!(app.outcome(), Outcome::Edit(expected));
}

#[test]
fn search_filters_then_cancel_restores() {
    let all = notes_with(&["alpha", "beta", "gamma"]);
    let mut app = loaded(&all);
    send(&mut app, Msg::StartSearch, &all);
    assert_eq!(app.mode(), Mode::Search);
    for c in "alpha".chars() {
        send(&mut app, Msg::SearchChar(c), &all);
    }
    assert_eq!(app.notes().len(), 1);
    assert_eq!(app.notes()[0].display_title(), "alpha");
    send(&mut app, Msg::SearchCancel, &all);
    assert_eq!(app.mode(), Mode::List);
    assert_eq!(app.notes().len(), 3);
}

#[test]
fn app_search_matches_word_prefixes() {
    let all = notes_with(&["mensagem", "outra"]);
    let mut app = loaded(&all);
    send(&mut app, Msg::StartSearch, &all);
    for c in "mensag".chars() {
        send(&mut app, Msg::SearchChar(c), &all);
    }
    assert_eq!(app.notes().len(), 1);
    assert_eq!(app.notes()[0].display_title(), "mensagem");
}

#[test]
fn start_search_resets_to_full_list() {
    let all = notes_with(&["alpha", "beta", "gamma"]);
    let mut app = loaded(&all);
    send(&mut app, Msg::StartSearch, &all);
    for c in "alpha".chars() {
        send(&mut app, Msg::SearchChar(c), &all);
    }
    assert_eq!(app.notes().len(), 1);
    send(&mut app, Msg::SearchCancel, &all);
    send(&mut app, Msg::StartSearch, &all);
    assert_eq!(app.notes().len(), 3);
}

#[test]
fn search_effects_name_the_query() {
    let mut app = loaded(&[]);
    assert_eq!(app.update(Msg::StartSearch), Effect::Refilter(None));
    assert_eq!(app.update(Msg::SearchChar(' ')), Effect::Refilter(None));
    assert_eq!(app.update(Msg::SearchChar('x')), Effect::Refilter(Some(" x".to_owned())));
    assert_eq!(app.update(Msg::SearchBackspace), Effect::Refilter(None));
    assert_eq!(app.search(), " ");
    assert_eq!(app.update(Msg::SearchCancel), Effect::Reload);
    assert_eq!(app.search(), "");
}

#[test]
fn scroll_changes_in_view_mode_only() {
    let all = notes_with(&["a"]);
    let mut app = loaded(&all);
    send(&mut app, Msg::Down, &all);
    assert_eq!(app.scroll(), 0);
    send(&mut app, Msg::Open, &all);
    send(&mut app, Msg::Down, &all);
    assert_eq!(app.scroll(), 1);
    send(&mut app, Msg::Up, &all);
    assert_eq!(app.scroll(), 0);
}

#[test]
fn scroll_stops_at_the_last_line() {
    let all = notes_with(&["a"]);
    let mut app = loaded(&all);
    send(&mut app, Msg::Open, &all);
    for _ in 0..5 {
        send(&mut app, Msg::Down, &all);
    }
    assert_eq!(app.scroll(), 1);
}

/// Scroll as far as it goes in the view of a note with this body.
fn furthest_scroll(body: &str) -> u16 {
    let mut all = notes_with(&["a"]);
    all[0].body = body.to_owned();
    let mut app = loaded(&all);
    send(&mut app, Msg::Open, &all);
    for _ in 0..10 {
        send(&mut app, Msg::Down, &all);
    }
    app.scroll()
}

#[test]
fn scroll_bound_counts_lines_as_str_lines_does() {
    for body in ["a\n", "a\nb", "a\nb\n", "a\r\nb\r\n", "\n\n", "one\ntwo\nthree\n\nfive", ""] {
        assert_eq!(usize::from(furthest_scroll(body)), body.lines().count(), "{body:?}");
    }
    assert_eq!(furthest_scroll("a\nb"), 2);
    assert_eq!(furthest_scroll("a\n"), 1);
}

#[test]
fn map_key_is_mode_aware() {
    let all = notes_with(&["a"]);
    let mut app = loaded(&all);
    let slash = KeyEvent { code: KeyCode::Char('/'), ctrl: false };
    assert_eq!(app.map_key(slash), Some(Msg::StartSearch));
    send(&mut app, Msg::StartSearch, &all);
    assert_eq!(app.map_key(slash), Some(Msg::SearchChar('/')));
}

#[test]
fn ctrl_c_quits_everywhere() {
    let all = notes_with(&["a"]);
    let mut app = loaded(&all);
    let ctrl_c = KeyEvent { code: KeyCode::Char('c'), ctrl: true };
    assert_eq!(app.map_key(ctrl_c), Some(Msg::Quit));
    send(&mut app, Msg::StartCreate, &all);
    assert_eq!(app.map_key(ctrl_c), Some(Msg::Quit));
    assert_eq!(app.map_key(KeyEvent { code: KeyCode::Other, ctrl: false }), None);
}

#[test]
fn start_create_enters_create_mode() {
    let all = notes_with(&["a"]);
    let mut app = loaded(&all);
    send(&mut app, Msg::StartCreate, &all);
    assert_eq!(app.mode(), Mode::Create);
    assert_eq!(app.title(), "");
}

#[test]
fn typing_title_builds_buffer() {
    let all = notes_with(&["a"]);
    let mut app = loaded(&all);
    send(&mut app, Msg::StartCreate, &all);
    for c in "idea".chars() {
        send(&mut app, Msg::TitleChar(c), &all);
    }
    assert_eq!(app.title(), "idea");
    send(&mut app, Msg::TitleBackspace, &all);
    assert_eq!(app.title(), "ide");
}

#[test]
fn create_submit_returns_new_outcome_trimmed() {
    let all = notes_with(&["a"]);
    let mut app = loaded(&all);
    send(&mut app, Msg::StartCreate, &all);
    for c in "  ideas  ".chars() {
        send(&mut app, Msg::TitleChar(c), &all);
    }
    send(&mut app, Msg::CreateSubmit, &all);
    assert!(!app.is_running());
    assert_eq!(app.outcome(), Outcome::New { title: "ideas".to_owned() });
}

#[test]
fn create_cancel_returns_to_list() {
    let all = notes_with(&["a"]);
    let mut app = loaded(&all);
    send(&mut app, Msg::StartCreate, &all);
    send(&mut app, Msg::TitleChar('x'), &all);
    send(&mut app, Msg::CreateCancel, &all);
    assert_eq!(app.mode(), Mode::List);
    assert_eq!(app.title(), "");
    assert!(app.is_running());
}

#[test]
fn create_works_on_empty_store() {
    let mut app = loaded(&[]);
    assert!(app.notes().is_empty());
    send(&mut app, Msg::StartCreate, &[]);
    send(&mut app, Msg::CreateSubmit, &[]);
    assert!(!app.is_running());
    assert_eq!(app.outcome(), Outcome::New { title: String::new() });
}

#[test]
fn map_key_create_mode() {
    let all = notes_with(&["a"]);
    let mut app = loaded(&all);
    let key = |code| KeyEvent { code, ctrl: false };
    assert_eq!(app.map_key(key(KeyCode::Char('n'))), Some(Msg::StartCreate));
    send(&mut app, Msg::StartCreate, &all);
    assert_eq!(app.map_key(key(KeyCode::Char('n'))), Some(Msg::TitleChar('n')));
    assert_eq!(app.map_key(key(KeyCode::Enter)), Some(Msg::CreateSubmit));
    assert_eq!(app.map_key(key(KeyCode::Esc)), Some(Msg::CreateCancel));
    assert_eq!(app.map_key(key(KeyCode::Backspace)), Some(Msg::TitleBackspace));
}

#[test]
fn reload_clamps_selection_and_errors_show_in_status() {
    let all = notes_with(&["a", "b", "c"]);
    let mut app = loaded(&all);
    send(&mut app, Msg::Down, &all);
    send(&mut app, Msg::Down, &all);
    assert_eq!(app.selected(), 2);
    app.reloaded(Ok(all[..1].to_vec()));
    assert_eq!(app.selected(), 0);
    app.reloaded(Err(StoreError::WriterGone));
    assert_eq!(app.status(), "error: writer thread is no longer running");
    assert_eq!(app.notes().len(), 1);
}

#[test]
fn list_texts_and_footer() {
    let all = notes_with(&["a", "b"]);
    let app = loaded(&all);
    assert_eq!(app.list_heading(), "notes (2)");
    assert_eq!(app.list_entry(0), "> b");
    assert_eq!(app.list_entry(1), "  a");
    let help = app.footer_help();
    assert_eq!(help[0], ("up/down", "move"));
    assert_eq!(help.len(), 6);
}
