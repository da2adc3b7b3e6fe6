use irename::flags::MatchFlags;
use irename::match_engine::{compose, ReplacementOutcome};
use irename::planner::{
    first_duplicate, move_command, plan, plan_one, preview, unique, validate, Candidates,
    CollisionError, MovePair, PreviewRow,
};

fn strings(items: &[&str]) -> Vec<String> {
    items.iter().map(|item| String::from(*item)).collect()
}

fn pair(source: &str, destination: &str) -> MovePair {
    MovePair { source: String::from(source), destination: String::from(destination) }
}

#[test]
fn candidates_are_kept_in_normal_form_and_in_order() {
    assert!(Candidates::none().paths().is_empty());
    let candidates = Candidates::normalized(strings(&["b/../a.txt", "/x/./b.txt", "../c", "."]), "/w/d");
    assert_eq!(candidates.paths(), &strings(&["/w/d/a.txt", "/x/b.txt", "/w/c", "/w/d"]));
}

#[test]
fn sources_of_a_plan_are_candidates() {
    let candidates = Candidates::normalized(strings(&["a.txt", "/x/./ab", "../ca", "/", "b"]), "/w/d");
    for global in [false, true] {
        let pairs = plan(candidates.paths(), &compose("a", MatchFlags::none()), "o", global);
        assert_eq!(pairs.len(), 3);
        for pair in &pairs {
            assert!(candidates.paths().contains(&pair.source));
        }
    }
}

#[test]
fn plan_splits_as_the_standard_library_does() {
    let candidates = strings(&["/d/a/.", "a/./", "d//a"]);
    let pairs = plan(&candidates, &compose("a", MatchFlags::none()), "b", false);
    assert_eq!(pairs, vec![pair("/d/a", "/d/b"), pair("a", "b"), pair("d/a", "d/b")]);
}

#[test]
fn unique_works() {
    assert_eq!(unique(&strings(&[])), true);
    assert_eq!(unique(&strings(&["a"])), true);
    assert_eq!(unique(&strings(&["a", "b", "c", "d"])), true);
    assert_eq!(unique(&strings(&["a", "a"])), false);
    assert_eq!(unique(&strings(&["a", "b", "c", "a", "d"])), false);
}

#[test]
fn first_duplicate_names_the_first_repetition() {
    assert_eq!(first_duplicate(&strings(&[])), None);
    assert_eq!(first_duplicate(&strings(&["a", "b"])), None);
    assert_eq!(first_duplicate(&strings(&["a", "b", "c", "a", "d"])), Some((0, 3)));
    assert_eq!(first_duplicate(&strings(&["a", "b", "b", "a"])), Some((1, 2)));
    assert_eq!(first_duplicate(&strings(&["a", "b", "a", "a"])), Some((0, 2)));
    assert_eq!(first_duplicate(&strings(&["x", "a", "b", "b", "b"])), Some((2, 3)));
}

#[test]
fn plan_keeps_replaced_names_in_order() {
    let candidates = strings(&["/d/a.txt", "/d/b.md", "/e/c.txt", "/", "/d/skip"]);
    let matcher = compose("\\.txt$", MatchFlags::none());
    let pairs = plan(&candidates, &matcher, ".text", false);
    assert_eq!(pairs, vec![pair("/d/a.txt", "/d/a.text"), pair("/e/c.txt", "/e/c.text")]);
}

#[test]
fn plan_never_moves_a_file_onto_itself() {
    let candidates = strings(&["/d/a.txt", "/d/aa", "/d/b", "/a/a"]);
    for template in ["a", "b", "$0", ""] {
        for global in [false, true] {
            let pairs = plan(&candidates, &compose("a", MatchFlags::none()), template, global);
            for pair in &pairs {
                assert_ne!(pair.source, pair.destination);
            }
        }
    }
    let pairs = plan(&candidates, &compose("a", MatchFlags::none()), "a", true);
    assert_eq!(pairs, vec![]);
}

#[test]
fn plan_passes_over_paths_without_a_file_name() {
    let candidates = strings(&["/", "", ".", "..", "/d/.."]);
    let pairs = plan(&candidates, &compose(".*", MatchFlags::none()), "x", false);
    assert_eq!(pairs, vec![]);
}

#[test]
fn plan_is_empty_without_a_usable_pattern() {
    let candidates = strings(&["/d/a.txt", "/d/b.txt"]);
    assert_eq!(plan(&candidates, &compose("", MatchFlags::none()), "x", false), vec![]);
    assert_eq!(plan(&candidates, &compose("(", MatchFlags::none()), "x", false), vec![]);
    assert_eq!(plan(&candidates, &None, "x", true), vec![]);
}

#[test]
fn plan_one_keeps_the_directory() {
    let matcher = compose("a", MatchFlags::none());
    assert_eq!(plan_one("/d/a.txt", &matcher, "b", false), Some(pair("/d/a.txt", "/d/b.txt")));
    assert_eq!(plan_one("/a/x.txt", &matcher, "b", false), None);
    assert_eq!(plan_one("/a", &matcher, "b", false), Some(pair("/a", "/b")));
    assert_eq!(plan_one("a", &matcher, "b", false), Some(pair("a", "b")));
}

#[test]
fn colliding_destinations_refuse_the_plan() {
    let candidates = strings(&["/d/a.txt", "/d/b.txt"]);
    let pairs = plan(&candidates, &compose("[ab]", MatchFlags::none()), "x", false);
    assert_eq!(pairs, vec![pair("/d/a.txt", "/d/x.txt"), pair("/d/b.txt", "/d/x.txt")]);
    assert_eq!(
        validate(&pairs),
        Err(CollisionError { first: 0, second: 1, destination: String::from("/d/x.txt") })
    );
}

#[test]
fn distinct_destinations_are_accepted() {
    assert_eq!(validate(&vec![]), Ok(()));
    assert_eq!(validate(&vec![pair("/d/a", "/d/b")]), Ok(()));
    assert_eq!(validate(&vec![pair("/d/a", "/d/b"), pair("/d/a", "/d/c")]), Ok(()));
    assert_eq!(validate(&vec![pair("/d/a", "/d/x"), pair("/e/a", "/e/x")]), Ok(()));
}

#[test]
fn validation_reports_the_first_collision() {
    let pairs = vec![
        pair("/d/1", "/d/a"),
        pair("/d/2", "/d/b"),
        pair("/d/3", "/d/c"),
        pair("/d/4", "/d/b"),
        pair("/d/5", "/d/a"),
    ];
    let error = validate(&pairs).unwrap_err();
    assert_eq!(error.first, 1);
    assert_eq!(error.second, 3);
    assert_eq!(error.destination, "/d/b");
    assert_eq!(error.message(), "destination files are not unique. Aborting");
    assert_eq!(error.clone(), error);
}

#[test]
fn dry_run_command_for_one_move() {
    let candidates = strings(&["/d/a.txt"]);
    let pairs = plan(&candidates, &compose("a", MatchFlags::none()), "b", false);
    assert_eq!(validate(&pairs), Ok(()));
    assert_eq!(pairs.len(), 1);
    assert_eq!(move_command(&pairs[0]), "mv /d/a.txt /d/b.txt");
}

#[test]
fn move_pair_can_be_cloned() {
    let original = pair("/d/a", "/d/b");
    assert_eq!(original.clone(), original);
}

#[test]
fn preview_shows_every_file_name() {
    let candidates = strings(&["/d/a.txt", "/", "/e/b.md", "/c"]);
    let rows = preview(&candidates, &compose("a|c", MatchFlags::none()), "a", false);
    assert_eq!(
        rows,
        vec![
            PreviewRow {
                directory: String::from("/d/"),
                name: String::from("a.txt"),
                outcome: ReplacementOutcome::Unchanged,
            },
            PreviewRow {
                directory: String::from("/e/"),
                name: String::from("b.md"),
                outcome: ReplacementOutcome::NoMatch,
            },
            PreviewRow {
                directory: String::from("//"),
                name: String::from("c"),
                outcome: ReplacementOutcome::Replaced(String::from("a")),
            },
        ]
    );
}

#[test]
fn preview_and_plan_agree() {
    let candidates = strings(&["/d/a.txt", "/d/b.txt", "/d/ab", "/"]);
    let matcher = compose("a", MatchFlags::none());
    let rows = preview(&candidates, &matcher, "b", true);
    let pairs = plan(&candidates, &matcher, "b", true);
    let shown: Vec<&PreviewRow> = rows
        .iter()
        .filter(|row| matches!(row.outcome, ReplacementOutcome::Replaced(_)))
        .collect();
    assert_eq!(shown.len(), pairs.len());
    assert_eq!(pairs, vec![pair("/d/a.txt", "/d/b.txt"), pair("/d/ab", "/d/bb")]);
}
