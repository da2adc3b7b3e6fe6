use irename::path_utils::{join_path, normalize_path, split_path};
use std::path::{Path, PathBuf};

fn pair(directory: &str, name: &str) -> Option<(String, String)> {
    Some((String::from(directory), String::from(name)))
}

#[test]
fn splittable() {
    let dirs = ["", "./", "../", "/", "a/", "/a/", "./x/../y/", "a_1/b2/./C/", "../../z/"];
    let names = ["a", "abc", "A_1", "0"];
    for dir in dirs {
        for name in names {
            let path = format!("{}{}", dir, name);
            let expected_dir = if dir == "/" { "/" } else { dir.trim_end_matches('/') };
            assert_eq!(split_path(&path), pair(expected_dir, name));
        }
    }
}

#[test]
fn unsplittable() {
    for path in ["", ".", "..", "/", "./", "../"] {
        assert_eq!(split_path(path), None);
    }
}

#[test]
fn split_examples() {
    assert_eq!(split_path("/d/a.txt"), pair("/d", "a.txt"));
    assert_eq!(split_path("/a"), pair("/", "a"));
    assert_eq!(split_path("a"), pair("", "a"));
    assert_eq!(split_path("/d/a/"), pair("/d", "a"));
    assert_eq!(split_path("d//a"), pair("d", "a"));
    assert_eq!(split_path("//a"), pair("/", "a"));
    assert_eq!(split_path("/d/.hidden"), pair("/d", ".hidden"));
    assert_eq!(split_path("/d/..."), pair("/d", "..."));
    assert_eq!(split_path("/d/.."), None);
    assert_eq!(split_path("///"), None);
}

#[test]
fn split_passes_over_dots_and_separators_at_the_end() {
    assert_eq!(split_path("/d/."), pair("/", "d"));
    assert_eq!(split_path("a/./"), pair("", "a"));
    assert_eq!(split_path("foo.txt/."), pair("", "foo.txt"));
    assert_eq!(split_path("foo.txt/.//"), pair("", "foo.txt"));
    assert_eq!(split_path("/usr/bin/"), pair("/usr", "bin"));
    assert_eq!(split_path("/d/e/././/"), pair("/d", "e"));
    assert_eq!(split_path("d/./a"), pair("d", "a"));
    assert_eq!(split_path("./a"), pair(".", "a"));
    assert_eq!(split_path("././a/."), pair(".", "a"));
    assert_eq!(split_path("/./a"), pair("/", "a"));
    assert_eq!(split_path("x/../a"), pair("x/..", "a"));
    assert_eq!(split_path("a."), pair("", "a."));
    assert_eq!(split_path("d/a."), pair("d", "a."));
}

#[test]
fn split_finds_no_name_behind_markers() {
    for path in [".", "./", "./.", ".//.", "/.", "/./", "/./.", "..", "../", "../.", "a/..", "a/../."]
    {
        assert_eq!(split_path(path), None);
    }
}

fn all_paths(alphabet: &[char], longest: usize) -> Vec<String> {
    let mut all = vec![String::new()];
    let mut last = vec![String::new()];
    for _ in 0..longest {
        let mut next = Vec::new();
        for path in &last {
            for c in alphabet {
                let mut longer = path.clone();
                longer.push(*c);
                next.push(longer);
            }
        }
        all.extend(next.iter().cloned());
        last = next;
    }
    all
}

#[test]
fn split_agrees_with_the_standard_library() {
    for path in all_paths(&['/', '.', 'a', 'b'], 7) {
        let std_path = Path::new(&path);
        let expected = std_path.file_name().map(|name| {
            (
                String::from(std_path.parent().unwrap().to_str().unwrap()),
                String::from(name.to_str().unwrap()),
            )
        });
        assert_eq!(split_path(&path), expected, "path {:?}", path);
    }
}

#[test]
fn join_agrees_with_the_standard_library_on_relative_names() {
    let names = all_paths(&['/', '.', 'a'], 3);
    for directory in all_paths(&['/', '.', 'a'], 4) {
        for name in &names {
            if !name.starts_with('/') {
                let expected = PathBuf::from(&directory).join(name);
                assert_eq!(join_path(&directory, name), expected.to_str().unwrap());
            }
        }
    }
}

#[test]
fn joined_parts_are_the_path_again() {
    for path in all_paths(&['/', '.', 'a'], 7) {
        if let Some((directory, name)) = split_path(&path) {
            assert_eq!(PathBuf::from(join_path(&directory, &name)), PathBuf::from(&path));
            assert_eq!(split_path(&join_path(&directory, &name)), Some((directory, name)));
        }
    }
}

#[test]
fn split_keeps_characters_beyond_ascii() {
    assert_eq!(split_path("/données/été.txt"), pair("/données", "été.txt"));
}

#[test]
fn join_examples() {
    assert_eq!(join_path("/d", "x"), "/d/x");
    assert_eq!(join_path("/", "x"), "/x");
    assert_eq!(join_path("", "x"), "x");
    assert_eq!(join_path("/d/", "x"), "/d/x");
    assert_eq!(join_path("/d", "/x"), "/d//x");
    assert_eq!(join_path("/d", ""), "/d/");
}

#[test]
fn join_undoes_split() {
    for path in ["/d/a.txt", "/a", "a", "./x/../y/abc", "/a/b/c/d"] {
        let (directory, name) = split_path(path).unwrap();
        assert_eq!(join_path(&directory, &name), path);
    }
}

#[test]
fn normalize_absolute_paths() {
    assert_eq!(normalize_path("/a/b", "/cwd"), "/a/b");
    assert_eq!(normalize_path("/a/./b/../c", "/cwd"), "/a/c");
    assert_eq!(normalize_path("/a//b/", "/cwd"), "/a/b");
    assert_eq!(normalize_path("/", "/cwd"), "/");
    assert_eq!(normalize_path("/..", "/cwd"), "/");
    assert_eq!(normalize_path("/../a", "/cwd"), "/a");
    assert_eq!(normalize_path("/a/b/../../..", "/cwd"), "/");
    assert_eq!(normalize_path("/a/.../b", "/cwd"), "/a/.../b");
}

#[test]
fn normalize_relative_paths_against_the_working_directory() {
    assert_eq!(normalize_path("b/c", "/home/u"), "/home/u/b/c");
    assert_eq!(normalize_path("./b", "/home/u"), "/home/u/b");
    assert_eq!(normalize_path("../x", "/home/u"), "/home/x");
    assert_eq!(normalize_path("../../../x", "/home/u"), "/x");
    assert_eq!(normalize_path(".", "/home/u"), "/home/u");
    assert_eq!(normalize_path("", "/home/u"), "/home/u");
    assert_eq!(normalize_path("a", "/"), "/a");
    assert_eq!(normalize_path("a/../b", "/home/./u/"), "/home/u/b");
}

#[test]
fn normalize_is_idempotent() {
    for path in ["/a/./b/../c", "b/c", "../x", ".", "/", "a//b/"] {
        let once = normalize_path(path, "/home/u");
        assert_eq!(normalize_path(&once, "/elsewhere"), once);
    }
}

#[test]
fn normalized_paths_split_and_join_back() {
    for path in ["/a/./b/../c", "b/c", "../x", "a//b/"] {
        let normal = normalize_path(path, "/home/u");
        let (directory, name) = split_path(&normal).unwrap();
        assert_eq!(join_path(&directory, &name), normal);
        assert_eq!(normalize_path(&directory, "/"), directory);
    }
    assert_eq!(split_path(&normalize_path("..", "/home")), None);
}
