use irename::app::{command_of, App, AppResult, Command, Key};
use irename::flags::MatchFlags;
use irename::focus::EditFocus;
use irename::match_engine::ReplacementOutcome;
use irename::planner::MovePair;

fn strings(items: &[&str]) -> Vec<String> {
    items.iter().map(|item| String::from(*item)).collect()
}

fn type_text(app: &mut App, text: &str) {
    for c in text.chars() {
        assert_eq!(app.handle_key(Key::Char(c)), None);
    }
}

#[test]
fn a_new_session_is_empty() {
    let app = App::default();
    assert_eq!(app.regex(), "");
    assert_eq!(app.replacement(), "");
    assert_eq!(app.flags(), MatchFlags::none());
    assert_eq!(app.active_area(), EditFocus::Pattern);
    assert!(app.source_files().is_empty());
    assert!(!app.is_global());
}

#[test]
fn builders_set_their_field_only() {
    let app = App::default()
        .with_files(strings(&["a.txt", "/x/./b.txt", "../c"]), "/home/u")
        .with_regex(String::from("a+"))
        .with_replacement(String::from("b"));
    assert_eq!(app.regex(), "a+");
    assert_eq!(app.replacement(), "b");
    assert_eq!(app.flags(), MatchFlags::none());
    assert_eq!(app.active_area(), EditFocus::Pattern);
    assert_eq!(app.source_files(), &strings(&["/home/u/a.txt", "/x/b.txt", "/home/c"]));
}

#[test]
fn keys_are_bound_to_commands() {
    assert_eq!(command_of(Key::Ctrl('c')), Command::Cancel);
    assert_eq!(command_of(Key::Ctrl('g')), Command::ToggleGlobal);
    assert_eq!(command_of(Key::Ctrl('r')), Command::ToggleIcase);
    assert_eq!(command_of(Key::Ctrl('x')), Command::Ignore);
    assert_eq!(command_of(Key::Char('\t')), Command::FocusNext);
    assert_eq!(command_of(Key::BackTab), Command::FocusPrev);
    assert_eq!(command_of(Key::Char('\n')), Command::Commit);
    assert_eq!(command_of(Key::Char('c')), Command::Insert('c'));
    assert_eq!(command_of(Key::Char(' ')), Command::Insert(' '));
    assert_eq!(command_of(Key::Backspace), Command::Delete);
    assert_eq!(command_of(Key::Other), Command::Ignore);
}

#[test]
fn characters_go_to_the_focused_field() {
    let mut app = App::default();
    type_text(&mut app, "ab");
    assert_eq!(app.regex(), "ab");
    assert_eq!(app.replacement(), "");
    assert_eq!(app.handle_key(Key::Char('\t')), None);
    assert_eq!(app.active_area(), EditFocus::Replacement);
    type_text(&mut app, "xyz");
    assert_eq!(app.regex(), "ab");
    assert_eq!(app.replacement(), "xyz");
}

#[test]
fn backspace_removes_the_last_character() {
    let mut app = App::default().with_regex(String::from("abé")).with_replacement(String::from("x"));
    assert_eq!(app.handle_key(Key::Backspace), None);
    assert_eq!(app.regex(), "ab");
    assert_eq!(app.replacement(), "x");
    assert_eq!(app.handle_key(Key::BackTab), None);
    assert_eq!(app.handle_key(Key::Backspace), None);
    assert_eq!(app.replacement(), "");
    assert_eq!(app.handle_key(Key::Backspace), None);
    assert_eq!(app.replacement(), "");
    assert_eq!(app.regex(), "ab");
}

#[test]
fn focus_keys_change_no_text() {
    let mut app = App::default().with_regex(String::from("a")).with_replacement(String::from("b"));
    assert_eq!(app.handle_key(Key::Char('\t')), None);
    assert_eq!(app.active_area(), EditFocus::Replacement);
    assert_eq!(app.handle_key(Key::Char('\t')), None);
    assert_eq!(app.active_area(), EditFocus::Pattern);
    assert_eq!(app.handle_key(Key::BackTab), None);
    assert_eq!(app.active_area(), EditFocus::Replacement);
    assert_eq!(app.handle_key(Key::BackTab), None);
    assert_eq!(app.active_area(), EditFocus::Pattern);
    assert_eq!(app.regex(), "a");
    assert_eq!(app.replacement(), "b");
    assert_eq!(app.flags(), MatchFlags::none());
}

#[test]
fn flag_keys_flip_one_flag_and_nothing_else() {
    let mut app = App::default().with_regex(String::from("a")).with_replacement(String::from("b"));
    assert_eq!(app.handle_key(Key::Ctrl('g')), None);
    assert_eq!(app.flags(), MatchFlags { global: true, icase: false });
    assert!(app.is_global());
    assert_eq!(app.handle_key(Key::Ctrl('r')), None);
    assert_eq!(app.flags(), MatchFlags { global: true, icase: true });
    assert_eq!(app.handle_key(Key::Ctrl('g')), None);
    assert_eq!(app.flags(), MatchFlags { global: false, icase: true });
    assert_eq!(app.regex(), "a");
    assert_eq!(app.replacement(), "b");
    assert_eq!(app.active_area(), EditFocus::Pattern);
}

#[test]
fn unbound_keys_change_nothing() {
    let mut app = App::default().with_regex(String::from("a"));
    assert_eq!(app.handle_key(Key::Other), None);
    assert_eq!(app.handle_key(Key::Ctrl('z')), None);
    assert_eq!(app.apply(Command::Ignore), None);
    assert_eq!(app.regex(), "a");
    assert_eq!(app.replacement(), "");
    assert_eq!(app.flags(), MatchFlags::none());
}

#[test]
fn cancel_ends_the_session_without_moves() {
    let mut app = App::default()
        .with_files(strings(&["/d/a.txt"]), "/")
        .with_regex(String::from("a"))
        .with_replacement(String::from("b"));
    assert_eq!(app.handle_key(Key::Ctrl('c')), Some(AppResult::Exit));
    assert_eq!(app.regex(), "a");
}

#[test]
fn commit_returns_the_moves() {
    let mut app = App::default().with_files(strings(&["/d/a.txt", "b.txt", "/d/aa"]), "/w");
    type_text(&mut app, "a");
    assert_eq!(app.handle_key(Key::Char('\t')), None);
    type_text(&mut app, "o");
    assert_eq!(
        app.handle_key(Key::Char('\n')),
        Some(AppResult::MoveFiles(vec![
            MovePair { source: String::from("/d/a.txt"), destination: String::from("/d/o.txt") },
            MovePair { source: String::from("/d/aa"), destination: String::from("/d/oa") },
        ]))
    );
    assert_eq!(app.handle_key(Key::Ctrl('g')), None);
    assert_eq!(
        app.handle_key(Key::Char('\n')),
        Some(AppResult::MoveFiles(vec![
            MovePair { source: String::from("/d/a.txt"), destination: String::from("/d/o.txt") },
            MovePair { source: String::from("/d/aa"), destination: String::from("/d/oo") },
        ]))
    );
}

#[test]
fn commit_honours_the_icase_flag() {
    let mut app = App::default()
        .with_files(strings(&["/d/A.txt"]), "/")
        .with_regex(String::from("a"))
        .with_replacement(String::from("b"));
    assert_eq!(app.handle_key(Key::Char('\n')), Some(AppResult::MoveFiles(vec![])));
    assert_eq!(app.handle_key(Key::Ctrl('r')), None);
    assert_eq!(
        app.handle_key(Key::Char('\n')),
        Some(AppResult::MoveFiles(vec![MovePair {
            source: String::from("/d/A.txt"),
            destination: String::from("/d/b.txt"),
        }]))
    );
}

#[test]
fn commit_with_an_empty_or_invalid_pattern_moves_nothing() {
    let mut app = App::default().with_files(strings(&["/d/a.txt", "/d/b.txt"]), "/");
    assert_eq!(app.handle_key(Key::Char('\n')), Some(AppResult::MoveFiles(vec![])));
    type_text(&mut app, "(");
    assert!(app.matcher().is_none());
    assert_eq!(app.handle_key(Key::Char('\n')), Some(AppResult::MoveFiles(vec![])));
}

#[test]
fn preview_classifies_every_candidate() {
    let app = App::default()
        .with_files(strings(&["/d/a.txt", "/d/b.txt", "/"]), "/")
        .with_replacement(String::from("x"));
    let rows = app.preview(&app.matcher());
    assert_eq!(rows.len(), 2);
    assert_eq!(rows[0].outcome, ReplacementOutcome::EmptyPattern);
    assert_eq!(rows[1].outcome, ReplacementOutcome::EmptyPattern);
    let app = app.with_regex(String::from("a"));
    let rows = app.preview(&app.matcher());
    assert_eq!(rows[0].directory, "/d/");
    assert_eq!(rows[0].name, "a.txt");
    assert_eq!(rows[0].outcome, ReplacementOutcome::Replaced(String::from("x.txt")));
    assert_eq!(rows[1].outcome, ReplacementOutcome::NoMatch);
    let rows = app.preview(&None);
    assert_eq!(rows[0].outcome, ReplacementOutcome::InvalidPattern);
}
