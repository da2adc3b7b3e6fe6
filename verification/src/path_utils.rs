//! Paths as text: splitting a path into its directory and its file name,
//! joining them again, and bringing a path into absolute, normal form.
//!
//! A path is a sequence of characters in which `/` separates the segments.
//! Nothing here looks at the file system.

use crate::text::chars_of;
use vstd::prelude::*;

verus! {

/// The character that separates the segments of a path.
pub open spec fn separator() -> char {
    '/'
}

/// The segment that stands for the directory itself.
pub open spec fn current_marker() -> Seq<char> {
    seq!['.']
}

/// The segment that stands for the directory above.
pub open spec fn parent_marker() -> Seq<char> {
    seq!['.', '.']
}

/// Whether `path` ends in something that names nothing: in a separator, or
/// in a segment `.` that stands behind a separator. A `.` that is the whole
/// path is not passed over.
pub open spec fn ends_in_filler(path: Seq<char>) -> bool {
    &&& path.len() > 0
    &&& {
        ||| path.last() == separator()
        ||| path.len() >= 2 && path.last() == '.' && path[path.len() - 2] == separator()
    }
}

/// `path` without the separators and the segments `.` at its end.
pub open spec fn trim_end(path: Seq<char>) -> Seq<char>
    decreases path.len(),
{
    if ends_in_filler(path) {
        trim_end(path.drop_last())
    } else {
        path
    }
}

/// Where the last segment of `path` begins: behind the last separator, or at
/// the start if there is none.
pub open spec fn last_segment_start(path: Seq<char>) -> int
    decreases path.len(),
{
    if path.len() == 0 || path.last() == separator() {
        path.len() as int
    } else {
        last_segment_start(path.drop_last())
    }
}

/// Whether a segment names a file: it is not empty, holds no separator, and
/// is neither of the two markers.
pub open spec fn is_file_name(name: Seq<char>) -> bool {
    &&& name.len() > 0
    &&& !name.contains(separator())
    &&& name != current_marker()
    &&& name != parent_marker()
}

/// The directory that the text in front of a file name stands for: that text
/// without the separators and the segments `.` at its end, or the root if it
/// holds nothing else.
pub open spec fn directory_of(prefix: Seq<char>) -> Seq<char> {
    let trimmed = trim_end(prefix);
    if trimmed.len() == 0 && prefix.len() > 0 {
        seq![separator()]
    } else {
        trimmed
    }
}

/// The directory and the file name of `path`, or `None` if the path has no
/// file name. Separators and segments `.` at the end of the path are passed
/// over, and the last segment before them is the name. There is none if the
/// path is empty, the root or `.` alone, or if that segment is `..`.
pub open spec fn split_spec(path: Seq<char>) -> Option<(Seq<char>, Seq<char>)> {
    let trimmed = trim_end(path);
    let start = last_segment_start(trimmed);
    let name = trimmed.subrange(start, trimmed.len() as int);
    if is_file_name(name) {
        Some((directory_of(trimmed.subrange(0, start)), name))
    } else {
        None
    }
}

/// The path of `name` inside the directory `parent`: the two with one
/// separator between them, unless `parent` is empty or ends in one already.
pub open spec fn join_spec(parent: Seq<char>, name: Seq<char>) -> Seq<char> {
    if parent.len() == 0 {
        name
    } else if parent.last() == separator() {
        parent + name
    } else {
        parent + seq![separator()] + name
    }
}

/// `trim_end` gives a prefix that ends in no filler, so that trimming it
/// again changes nothing, and all that it leaves out is separators and dots.
pub proof fn lemma_trim_end(path: Seq<char>)
    ensures
        trim_end(path).len() <= path.len(),
        trim_end(path) == path.subrange(0, trim_end(path).len() as int),
        !ends_in_filler(trim_end(path)),
        trim_end(trim_end(path)) == trim_end(path),
        forall|i: int|
            trim_end(path).len() <= i < path.len() ==> path[i] == separator() || path[i] == '.',
    decreases path.len(),
{
    if ends_in_filler(path) {
        let shorter = path.drop_last();
        lemma_trim_end(shorter);
        assert(trim_end(path) == path.subrange(0, trim_end(path).len() as int));
        assert forall|i: int| trim_end(path).len() <= i < path.len() implies path[i]
            == separator() || path[i] == '.' by {
            if i < shorter.len() {
                assert(shorter[i] == path[i]);
            }
        }
    } else {
        assert(path.subrange(0, path.len() as int) == path);
    }
}

/// The last segment begins inside the path, behind a separator or at the
/// start, and holds no separator.
pub proof fn lemma_last_segment_start(path: Seq<char>)
    ensures
        0 <= last_segment_start(path) <= path.len(),
        last_segment_start(path) > 0 ==> path[last_segment_start(path) - 1] == separator(),
        forall|i: int| last_segment_start(path) <= i < path.len() ==> path[i] != separator(),
    decreases path.len(),
{
    if path.len() == 0 || path.last() == separator() {
    } else {
        let shorter = path.drop_last();
        lemma_last_segment_start(shorter);
        let start = last_segment_start(path);
        if start > 0 {
            assert(shorter[start - 1] == path[start - 1]);
        }
        assert forall|i: int| start <= i < path.len() implies path[i] != separator() by {
            if i < shorter.len() {
                assert(shorter[i] == path[i]);
            }
        }
    }
}

/// The string that holds the characters of `chars` from `from` up to `to`.
fn text_of_range(chars: &Vec<char>, from: usize, to: usize) -> (s: String)
    requires
        from <= to <= chars.len(),
    ensures
        s@ == chars@.subrange(from as int, to as int),
{
    let mut s = String::new();
    let mut i: usize = from;
    while i < to
        invariant
            from <= i <= to <= chars.len(),
            s@ == chars@.subrange(from as int, i as int),
        decreases to - i,
    {
        s.push(chars[i]);
        i += 1;
    }
    s
}

/// The length of `chars[..end]` once the separators and the segments `.` at
/// its end are dropped.
fn trimmed_length(chars: &Vec<char>, end: usize) -> (len: usize)
    requires
        end <= chars.len(),
    ensures
        len == trim_end(chars@.subrange(0, end as int)).len(),
        len <= end,
{
    let mut len: usize = end;
    while len > 0 && (chars[len - 1] == '/' || (len >= 2 && chars[len - 1] == '.' && chars[len
        - 2] == '/'))
        invariant
            len <= end <= chars.len(),
            trim_end(chars@.subrange(0, len as int)) == trim_end(chars@.subrange(0, end as int)),
        decreases len,
    {
        assert(ends_in_filler(chars@.subrange(0, len as int)));
        assert(chars@.subrange(0, len as int).drop_last() == chars@.subrange(0, len - 1));
        len -= 1;
    }
    assert(!ends_in_filler(chars@.subrange(0, len as int)));
    len
}

/// Splits a path into the directory it lies in and its file name.
/// Separators and segments `.` at the end of the path, and between the
/// directory and the name, are passed over: `/d/a/.` and `/d//a/` both give
/// `/d` and `a`. A path without a file name (the empty path, the root, `.`
/// alone, a path that ends in `..`) gives `None`.
pub fn split_path(path: &str) -> (r: Option<(String, String)>)
    ensures
        r.deep_view() == split_spec(path@),
{
    let chars = chars_of(path);
    assert(chars@.subrange(0, chars@.len() as int) == chars@);
    let end = trimmed_length(&chars, chars.len());
    let ghost trimmed = trim_end(path@);
    proof {
        lemma_trim_end(path@);
        lemma_last_segment_start(trimmed);
    }
    assert(trimmed.subrange(0, end as int) == trimmed);
    let mut start: usize = end;
    while start > 0 && chars[start - 1] != '/'
        invariant
            start <= end <= chars.len(),
            chars@ == path@,
            trimmed == path@.subrange(0, end as int),
            last_segment_start(trimmed.subrange(0, start as int)) == last_segment_start(trimmed),
        decreases start,
    {
        assert(trimmed.subrange(0, start as int).drop_last() == trimmed.subrange(0, start - 1));
        start -= 1;
    }
    assert(start == last_segment_start(trimmed));
    let ghost name = trimmed.subrange(start as int, end as int);
    assert(name == chars@.subrange(start as int, end as int));
    assert(!name.contains('/')) by {
        if name.contains('/') {
            let k = choose|k: int| 0 <= k < name.len() && name[k] == '/';
            assert(trimmed[start + k] == '/');
        }
    }
    let len = end - start;
    let is_current = len == 1 && chars[start] == '.';
    let is_parent = len == 2 && chars[start] == '.' && chars[start + 1] == '.';
    assert(is_current <==> name == current_marker()) by {
        if is_current {
            assert(name =~= current_marker());
        }
        if name == current_marker() {
            assert(name.len() == 1 && name[0] == '.');
        }
    }
    assert(is_parent <==> name == parent_marker()) by {
        if is_parent {
            assert(name =~= parent_marker());
        }
        if name == parent_marker() {
            assert(name.len() == 2 && name[0] == '.' && name[1] == '.');
        }
    }
    if len == 0 || is_current || is_parent {
        return None;
    }
    let file_name = text_of_range(&chars, start, end);
    let ghost prefix = trimmed.subrange(0, start as int);
    assert(prefix == chars@.subrange(0, start as int));
    let dir_len = trimmed_length(&chars, start);
    proof {
        lemma_trim_end(prefix);
    }
    let directory = if dir_len == 0 && start > 0 {
        let mut root = String::new();
        root.push('/');
        assert(root@ == seq![separator()]);
        root
    } else {
        let d = text_of_range(&chars, 0, dir_len);
        assert(chars@.subrange(0, dir_len as int) == prefix.subrange(0, dir_len as int));
        d
    };
    Some((directory, file_name))
}

/// The path of the file `name` in the directory `parent`. The name is put
/// behind the directory as it is, also where it begins with a separator.
pub fn join_path(parent: &str, name: &str) -> (path: String)
    ensures
        path@ == join_spec(parent@, name@),
{
    let parent_chars = chars_of(parent);
    if parent_chars.len() == 0 {
        name.to_owned()
    } else {
        let mut path = parent.to_owned();
        if parent_chars[parent_chars.len() - 1] != '/' {
            path.push('/');
        }
        path.append(name);
        path
    }
}

/// In one directory, different names give different paths.
pub proof fn lemma_join_injective(parent: Seq<char>, a: Seq<char>, b: Seq<char>)
    ensures
        join_spec(parent, a) == join_spec(parent, b) <==> a == b,
{
    if join_spec(parent, a) == join_spec(parent, b) {
        let prefix = if parent.len() == 0 {
            Seq::<char>::empty()
        } else if parent.last() == separator() {
            parent
        } else {
            parent + seq![separator()]
        };
        assert(join_spec(parent, a) =~= prefix + a);
        assert(join_spec(parent, b) =~= prefix + b);
        assert((prefix + a).subrange(prefix.len() as int, (prefix + a).len() as int) =~= a);
        assert((prefix + b).subrange(prefix.len() as int, (prefix + b).len() as int) =~= b);
    }
}

/// Whether a directory is written the way `split_spec` writes it: empty,
/// the root alone, or a text that ends in no filler.
pub open spec fn is_tidy_directory(directory: Seq<char>) -> bool {
    ||| directory.len() == 0
    ||| directory == seq![separator()]
    ||| !ends_in_filler(directory)
}

/// Behind a prefix that is empty or ends in a separator, a text without a
/// separator is the last segment.
pub proof fn lemma_last_segment_of_concat(prefix: Seq<char>, name: Seq<char>)
    requires
        prefix.len() == 0 || prefix.last() == separator(),
        !name.contains(separator()),
    ensures
        last_segment_start(prefix + name) == prefix.len(),
    decreases name.len(),
{
    if name.len() == 0 {
        assert(prefix + name == prefix);
    } else {
        let whole = prefix + name;
        assert(whole.last() == name.last());
        assert(name.contains(name.last())) by {
            assert(name[name.len() - 1] == name.last());
        }
        assert(whole.drop_last() == prefix + name.drop_last());
        assert(!name.drop_last().contains(separator())) by {
            if name.drop_last().contains(separator()) {
                let k = choose|k: int|
                    0 <= k < name.drop_last().len() && name.drop_last()[k] == separator();
                assert(name[k] == separator());
            }
        }
        lemma_last_segment_of_concat(prefix, name.drop_last());
    }
}

/// A text that ends in no filler has nothing to trim.
pub proof fn lemma_trim_end_fixed(path: Seq<char>)
    requires
        !ends_in_filler(path),
    ensures
        trim_end(path) == path,
{
}

/// A text that ends in a file name ends in no filler.
pub proof fn lemma_name_is_no_filler(prefix: Seq<char>, name: Seq<char>)
    requires
        prefix.len() == 0 || prefix.last() == separator(),
        is_file_name(name),
    ensures
        !ends_in_filler(prefix + name),
{
    let path = prefix + name;
    let last = name.len() - 1;
    assert(path.last() == name[last]);
    assert(name.contains(name[last]));
    if name.len() == 1 {
        if name[0] == '.' {
            assert(name =~= current_marker());
        }
        if prefix.len() > 0 {
            assert(path[path.len() - 2] == prefix.last());
        }
    } else {
        assert(path[path.len() - 2] == name[last - 1]);
        assert(name.contains(name[last - 1]));
    }
}

/// Joining a tidy directory and a file name, and splitting the result, gives
/// the two back.
pub proof fn lemma_split_join(parent: Seq<char>, name: Seq<char>)
    requires
        is_tidy_directory(parent),
        is_file_name(name),
    ensures
        split_spec(join_spec(parent, name)) == Some((parent, name)),
{
    let sep = seq![separator()];
    let prefix = if parent.len() == 0 {
        Seq::<char>::empty()
    } else if parent.last() == separator() {
        parent
    } else {
        parent + sep
    };
    let path = join_spec(parent, name);
    assert(path =~= prefix + name);
    assert(name.contains(name.last())) by {
        assert(name[name.len() - 1] == name.last());
    }
    assert(path.last() == name.last());
    lemma_name_is_no_filler(prefix, name);
    lemma_trim_end_fixed(path);
    lemma_last_segment_of_concat(prefix, name);
    assert(path.subrange(prefix.len() as int, path.len() as int) =~= name);
    assert(path.subrange(0, prefix.len() as int) =~= prefix);
    if parent.len() == 0 {
    } else if parent.last() == separator() {
        assert(parent == sep);
        assert(sep.last() == separator());
        assert(sep.drop_last() == Seq::<char>::empty());
        assert(trim_end(Seq::<char>::empty()) == Seq::<char>::empty());
        assert(trim_end(sep) == trim_end(sep.drop_last()));
    } else {
        assert((parent + sep).last() == separator());
        assert((parent + sep).drop_last() == parent);
        lemma_trim_end_fixed(parent);
        assert(trim_end(parent + sep) == trim_end(parent));
    }
}

/// What `split_spec` returns is a tidy directory and a file name, and
/// splitting what the two give when joined returns them again.
pub proof fn lemma_join_split(path: Seq<char>)
    ensures
        split_spec(path) matches Some((parent, name)) ==> {
            &&& is_tidy_directory(parent)
            &&& is_file_name(name)
            &&& split_spec(join_spec(parent, name)) == Some((parent, name))
        },
{
    if let Some((parent, name)) = split_spec(path) {
        let trimmed = trim_end(path);
        let start = last_segment_start(trimmed);
        lemma_trim_end(trimmed.subrange(0, start));
        lemma_split_join(parent, name);
    }
}

/// The segments of `text`: the pieces between its separators, empty ones
/// included. A text without a separator is one segment.
pub open spec fn segments(text: Seq<char>) -> Seq<Seq<char>>
    decreases text.len(),
{
    if text.len() == 0 {
        seq![Seq::<char>::empty()]
    } else {
        let before = segments(text.drop_last());
        if text.last() == separator() {
            before.push(Seq::<char>::empty())
        } else {
            before.drop_last().push(before.last().push(text.last()))
        }
    }
}

/// What one segment does to the directories collected so far: an empty
/// segment and `.` change nothing, `..` removes the last directory if there
/// is one, and any other segment is added.
pub open spec fn apply_segment(stack: Seq<Seq<char>>, segment: Seq<char>) -> Seq<Seq<char>> {
    if segment.len() == 0 || segment == current_marker() {
        stack
    } else if segment == parent_marker() {
        if stack.len() > 0 {
            stack.drop_last()
        } else {
            stack
        }
    } else {
        stack.push(segment)
    }
}

/// The directories that remain when `segments` are applied, one after the
/// other, starting from `base`.
pub open spec fn resolve(base: Seq<Seq<char>>, segments: Seq<Seq<char>>) -> Seq<Seq<char>>
    decreases segments.len(),
{
    if segments.len() == 0 {
        base
    } else {
        apply_segment(resolve(base, segments.drop_last()), segments.last())
    }
}

/// The components written one after the other, each behind a separator.
pub open spec fn render(components: Seq<Seq<char>>) -> Seq<char>
    decreases components.len(),
{
    if components.len() == 0 {
        Seq::<char>::empty()
    } else {
        render(components.drop_last()) + seq![separator()] + components.last()
    }
}

/// The absolute path with the given components: the root if there are none.
pub open spec fn absolute_text(components: Seq<Seq<char>>) -> Seq<char> {
    if components.len() == 0 {
        seq![separator()]
    } else {
        render(components)
    }
}

/// Whether a path begins at the root.
pub open spec fn is_absolute(path: Seq<char>) -> bool {
    path.len() > 0 && path[0] == separator()
}

/// The components of the absolute, normal form of `path`. A relative path is
/// taken to begin in the directory `cwd`. Each `.` and each empty segment is
/// dropped; each `..` removes the component before it, and is dropped itself
/// at the root.
pub open spec fn normal_components(path: Seq<char>, cwd: Seq<char>) -> Seq<Seq<char>> {
    let base = if is_absolute(path) {
        Seq::<Seq<char>>::empty()
    } else {
        resolve(Seq::<Seq<char>>::empty(), segments(cwd))
    };
    resolve(base, segments(path))
}

/// The absolute, normal form of `path`, for the working directory `cwd`.
pub open spec fn normalize_spec(path: Seq<char>, cwd: Seq<char>) -> Seq<char> {
    absolute_text(normal_components(path, cwd))
}

/// Whether a path is in absolute, normal form: normalizing changes nothing.
pub open spec fn is_normal(path: Seq<char>) -> bool {
    normalize_spec(path, Seq::<char>::empty()) == path
}

/// A text has at least one segment.
pub proof fn lemma_segments_nonempty(text: Seq<char>)
    ensures
        segments(text).len() >= 1,
    decreases text.len(),
{
    if text.len() > 0 {
        lemma_segments_nonempty(text.drop_last());
    }
}

/// Whether every component names a file or a directory: none is empty, a
/// marker, or holds a separator.
pub open spec fn all_file_names(components: Seq<Seq<char>>) -> bool {
    forall|i: int| 0 <= i < components.len() ==> is_file_name(#[trigger] components[i])
}

/// Whether no segment holds a separator.
pub open spec fn separator_free(segments: Seq<Seq<char>>) -> bool {
    forall|i: int| 0 <= i < segments.len() ==> !(#[trigger] segments[i]).contains(separator())
}

/// No segment of a text holds a separator.
pub proof fn lemma_segments_separator_free(text: Seq<char>)
    ensures
        separator_free(segments(text)),
    decreases text.len(),
{
    if text.len() == 0 {
        assert(!Seq::<char>::empty().contains(separator()));
    } else {
        let before = segments(text.drop_last());
        lemma_segments_separator_free(text.drop_last());
        lemma_segments_nonempty(text.drop_last());
        let all = segments(text);
        if text.last() == separator() {
            assert(!Seq::<char>::empty().contains(separator()));
            assert forall|i: int| 0 <= i < all.len() implies !(#[trigger] all[i]).contains(
                separator(),
            ) by {
                if i < before.len() {
                    assert(all[i] == before[i]);
                }
            }
        } else {
            let grown = before.last().push(text.last());
            assert(!grown.contains(separator())) by {
                if grown.contains(separator()) {
                    let k = choose|k: int| 0 <= k < grown.len() && grown[k] == separator();
                    assert(before.last()[k] == separator());
                }
            }
            assert forall|i: int| 0 <= i < all.len() implies !(#[trigger] all[i]).contains(
                separator(),
            ) by {
                if i < before.len() - 1 {
                    assert(all[i] == before[i]);
                }
            }
        }
    }
}

/// Applying segments without separators to components that are all names
/// leaves components that are all names.
pub proof fn lemma_resolve_names(base: Seq<Seq<char>>, segments: Seq<Seq<char>>)
    requires
        all_file_names(base),
        separator_free(segments),
    ensures
        all_file_names(resolve(base, segments)),
    decreases segments.len(),
{
    if segments.len() > 0 {
        let shorter = segments.drop_last();
        assert forall|i: int| 0 <= i < shorter.len() implies !(#[trigger] shorter[i]).contains(
            separator(),
        ) by {
            assert(shorter[i] == segments[i]);
        }
        lemma_resolve_names(base, shorter);
        let stack = resolve(base, shorter);
        let segment = segments.last();
        let next = apply_segment(stack, segment);
        assert forall|i: int| 0 <= i < next.len() implies is_file_name(#[trigger] next[i]) by {
            if i < stack.len() {
                assert(is_file_name(stack[i]));
            }
        }
    }
}

/// The components of a normal form are all names: none is empty, `.` or
/// `..`, and none holds a separator.
pub proof fn lemma_normal_components(path: Seq<char>, cwd: Seq<char>)
    ensures
        all_file_names(normal_components(path, cwd)),
{
    let nothing = Seq::<Seq<char>>::empty();
    lemma_segments_separator_free(cwd);
    lemma_segments_separator_free(path);
    lemma_resolve_names(nothing, segments(cwd));
    if is_absolute(path) {
        lemma_resolve_names(nothing, segments(path));
    } else {
        lemma_resolve_names(resolve(nothing, segments(cwd)), segments(path));
    }
}

/// An absolute path written from names begins at the root and ends in no
/// separator, unless it is the root itself.
pub proof fn lemma_absolute_text(components: Seq<Seq<char>>)
    requires
        all_file_names(components),
    ensures
        is_absolute(absolute_text(components)),
        is_tidy_directory(absolute_text(components)),
        components.len() > 0 ==> render(components).len() > 0 && render(components)[0]
            == separator() && render(components).last() != separator(),
    decreases components.len(),
{
    if components.len() > 0 {
        let last = components.last();
        assert(is_file_name(last));
        assert(last.contains(last.last())) by {
            assert(last[last.len() - 1] == last.last());
        }
        let shorter = components.drop_last();
        assert forall|i: int| 0 <= i < shorter.len() implies is_file_name(
            #[trigger] shorter[i],
        ) by {
            assert(shorter[i] == components[i]);
        }
        lemma_absolute_text(shorter);
        let text = render(components);
        assert(text == render(shorter) + seq![separator()] + last);
        assert(text.last() == last.last());
        assert(text == (render(shorter) + seq![separator()]) + last);
        assert((render(shorter) + seq![separator()]).last() == separator());
        lemma_name_is_no_filler(render(shorter) + seq![separator()], last);
        if shorter.len() == 0 {
            assert(text[0] == separator());
        } else {
            assert(text[0] == render(shorter)[0]);
        }
    }
}

/// A path in normal form splits into the normal form of its directory and
/// its last component, and the two joined are the path itself. The root has
/// no file name.
pub proof fn lemma_split_normal(components: Seq<Seq<char>>)
    requires
        all_file_names(components),
    ensures
        components.len() == 0 ==> split_spec(absolute_text(components)) is None,
        components.len() > 0 ==> {
            &&& split_spec(absolute_text(components)) == Some(
                (absolute_text(components.drop_last()), components.last()),
            )
            &&& join_spec(absolute_text(components.drop_last()), components.last())
                == absolute_text(components)
        },
{
    let sep = seq![separator()];
    if components.len() == 0 {
        assert(sep.last() == separator());
        assert(sep.drop_last() == Seq::<char>::empty());
        assert(trim_end(Seq::<char>::empty()) == Seq::<char>::empty());
        assert(trim_end(sep) == trim_end(sep.drop_last()));
        let trimmed = trim_end(sep);
        assert(trimmed.subrange(0, 0).len() == 0);
    } else {
        let shorter = components.drop_last();
        let name = components.last();
        assert(is_file_name(name));
        assert forall|i: int| 0 <= i < shorter.len() implies is_file_name(
            #[trigger] shorter[i],
        ) by {
            assert(shorter[i] == components[i]);
        }
        lemma_absolute_text(shorter);
        let parent = absolute_text(shorter);
        if shorter.len() == 0 {
            assert(render(shorter) + sep + name =~= sep + name);
        }
        assert(join_spec(parent, name) == absolute_text(components));
        lemma_split_join(parent, name);
    }
}

/// The normal form of a path is the root or splits into a directory and a
/// file name that give it back when joined.
pub proof fn lemma_normalized_splits(path: Seq<char>, cwd: Seq<char>)
    ensures
        is_absolute(normalize_spec(path, cwd)),
        split_spec(normalize_spec(path, cwd)) matches Some((parent, name)) ==> join_spec(
            parent,
            name,
        ) == normalize_spec(path, cwd),
        split_spec(normalize_spec(path, cwd)) is None <==> normalize_spec(path, cwd) == seq![
            separator(),
        ],
{
    let components = normal_components(path, cwd);
    lemma_normal_components(path, cwd);
    lemma_absolute_text(components);
    lemma_split_normal(components);
    if components.len() > 0 {
        let text = render(components);
        let last = components.last();
        assert(is_file_name(last));
        assert(text == render(components.drop_last()) + seq![separator()] + last);
        assert(text.len() >= 2);
        assert(seq![separator()].len() == 1);
    }
}

/// A separator at the end of a text begins a new, empty segment.
pub proof fn lemma_segments_separator(text: Seq<char>)
    ensures
        segments(text + seq![separator()]) == segments(text).push(Seq::<char>::empty()),
{
    let longer = text + seq![separator()];
    assert(longer.last() == separator());
    assert(longer.drop_last() == text);
}

/// A word without a separator at the end of a text lengthens the last
/// segment.
pub proof fn lemma_segments_word(text: Seq<char>, word: Seq<char>)
    requires
        !word.contains(separator()),
    ensures
        segments(text + word) == segments(text).drop_last().push(segments(text).last() + word),
    decreases word.len(),
{
    lemma_segments_nonempty(text);
    let before = segments(text);
    if word.len() == 0 {
        assert(text + word == text);
        assert(before.last() + word == before.last());
        assert(before.drop_last().push(before.last()) == before);
    } else {
        let shorter = word.drop_last();
        assert(!shorter.contains(separator())) by {
            if shorter.contains(separator()) {
                let k = choose|k: int| 0 <= k < shorter.len() && shorter[k] == separator();
                assert(word[k] == separator());
            }
        }
        assert(word.last() != separator()) by {
            assert(word[word.len() - 1] == word.last());
        }
        lemma_segments_word(text, shorter);
        let whole = text + word;
        assert(whole.drop_last() == text + shorter);
        assert(whole.last() == word.last());
        let inner = segments(text + shorter);
        assert(inner.last().push(word.last()) == before.last() + word);
        assert(inner.drop_last() == before.drop_last());
    }
}

/// The segments of a path written from names are an empty segment, for the
/// root, and then the names.
pub proof fn lemma_segments_of_render(components: Seq<Seq<char>>)
    requires
        all_file_names(components),
    ensures
        segments(render(components)) == seq![Seq::<char>::empty()] + components,
    decreases components.len(),
{
    let root = seq![Seq::<char>::empty()];
    if components.len() == 0 {
        assert(root + components == root);
    } else {
        let shorter = components.drop_last();
        let name = components.last();
        assert(is_file_name(name));
        assert forall|i: int| 0 <= i < shorter.len() implies is_file_name(
            #[trigger] shorter[i],
        ) by {
            assert(shorter[i] == components[i]);
        }
        lemma_segments_of_render(shorter);
        let head = render(shorter);
        lemma_segments_separator(head);
        lemma_segments_word(head + seq![separator()], name);
        let opened = segments(head + seq![separator()]);
        assert(opened == (root + shorter).push(Seq::<char>::empty()));
        assert(opened.drop_last() == root + shorter);
        assert(opened.last() + name == name);
        assert((root + shorter).push(name) == root + components);
    }
}

/// Names applied to a list of directories are added to it, one by one.
pub proof fn lemma_resolve_of_names(base: Seq<Seq<char>>, names: Seq<Seq<char>>)
    requires
        all_file_names(names),
    ensures
        resolve(base, names) == base + names,
    decreases names.len(),
{
    if names.len() == 0 {
        assert(base + names == base);
    } else {
        let shorter = names.drop_last();
        assert forall|i: int| 0 <= i < shorter.len() implies is_file_name(
            #[trigger] shorter[i],
        ) by {
            assert(shorter[i] == names[i]);
        }
        lemma_resolve_of_names(base, shorter);
        assert(is_file_name(names.last()));
        assert((base + shorter).push(names.last()) == base + names);
    }
}

/// Applying two lists of segments, one after the other, is applying the
/// second to what the first leaves.
pub proof fn lemma_resolve_concat(
    base: Seq<Seq<char>>,
    first: Seq<Seq<char>>,
    second: Seq<Seq<char>>,
)
    ensures
        resolve(base, first + second) == resolve(resolve(base, first), second),
    decreases second.len(),
{
    if second.len() == 0 {
        assert(first + second == first);
    } else {
        assert((first + second).drop_last() == first + second.drop_last());
        assert((first + second).last() == second.last());
        lemma_resolve_concat(base, first, second.drop_last());
    }
}

/// Normalizing is idempotent: a path in normal form is its own normal form,
/// whatever the working directory.
pub proof fn lemma_normalize_idempotent(path: Seq<char>, cwd: Seq<char>, other_cwd: Seq<char>)
    ensures
        normalize_spec(normalize_spec(path, cwd), other_cwd) == normalize_spec(path, cwd),
        is_normal(normalize_spec(path, cwd)),
{
    lemma_normalize_twice(path, cwd, other_cwd);
    lemma_normalize_twice(path, cwd, Seq::<char>::empty());
}

proof fn lemma_normalize_twice(path: Seq<char>, cwd: Seq<char>, other_cwd: Seq<char>)
    ensures
        normalize_spec(normalize_spec(path, cwd), other_cwd) == normalize_spec(path, cwd),
{
    let components = normal_components(path, cwd);
    let normal = normalize_spec(path, cwd);
    let nothing = Seq::<Seq<char>>::empty();
    let root = seq![Seq::<char>::empty()];
    lemma_normal_components(path, cwd);
    lemma_absolute_text(components);
    assert(resolve(nothing, root) == nothing) by {
        assert(root.drop_last() == nothing);
        assert(root.last() == Seq::<char>::empty());
        assert(resolve(nothing, nothing) == nothing);
        assert(resolve(nothing, root) == apply_segment(
            resolve(nothing, root.drop_last()),
            root.last(),
        ));
    }
    if components.len() == 0 {
        lemma_segments_separator(Seq::<char>::empty());
        assert(Seq::<char>::empty() + seq![separator()] == normal);
        assert(segments(normal) == root.push(Seq::<char>::empty()));
        assert(segments(normal).drop_last() == root);
    } else {
        lemma_segments_of_render(components);
        lemma_resolve_concat(nothing, root, components);
        lemma_resolve_of_names(nothing, components);
        assert(nothing + components == components);
    }
}

/// The components held in a vector of vectors of characters.
pub open spec fn components_view(stack: Seq<Vec<char>>) -> Seq<Seq<char>> {
    stack.map_values(|component: Vec<char>| component@)
}

/// Applies one segment to the directories collected so far.
fn push_segment(stack: &mut Vec<Vec<char>>, segment: Vec<char>)
    ensures
        components_view(final(stack)@) == apply_segment(components_view(old(stack)@), segment@),
{
    let len = segment.len();
    let is_current = len == 1 && segment[0] == '.';
    let is_parent = len == 2 && segment[0] == '.' && segment[1] == '.';
    proof {
        if is_current {
            assert(segment@ =~= current_marker());
        }
        if segment@ == current_marker() {
            assert(segment@.len() == 1 && segment@[0] == '.');
        }
        if is_parent {
            assert(segment@ =~= parent_marker());
        }
        if segment@ == parent_marker() {
            assert(segment@.len() == 2 && segment@[0] == '.' && segment@[1] == '.');
        }
    }
    if len == 0 || is_current {
    } else if is_parent {
        if stack.len() > 0 {
            stack.pop();
            assert(components_view(stack@) == components_view(old(stack)@).drop_last());
        }
    } else {
        stack.push(segment);
        assert(components_view(stack@) == components_view(old(stack)@).push(segment@));
    }
}

/// Applies the segments of `text` to the directories collected so far.
fn push_segments(stack: &mut Vec<Vec<char>>, text: &Vec<char>)
    ensures
        components_view(final(stack)@) == resolve(
            components_view(old(stack)@),
            segments(text@),
        ),
{
    let mut current: Vec<char> = Vec::new();
    let mut i: usize = 0;
    let ghost base = components_view(stack@);
    proof {
        assert(text@.take(0) == Seq::<char>::empty());
        assert(segments(text@.take(0)).drop_last() == Seq::<Seq<char>>::empty());
    }
    while i < text.len()
        invariant
            i <= text.len(),
            components_view(stack@) == resolve(base, segments(text@.take(i as int)).drop_last()),
            current@ == segments(text@.take(i as int)).last(),
        decreases text.len() - i,
    {
        let c = text[i];
        proof {
            let before = segments(text@.take(i as int));
            lemma_segments_nonempty(text@.take(i as int));
            assert(text@.take(i + 1).drop_last() == text@.take(i as int));
            assert(text@.take(i + 1).last() == c);
            if c == '/' {
                assert(segments(text@.take(i + 1)) == before.push(Seq::<char>::empty()));
                assert(segments(text@.take(i + 1)).drop_last() == before);
            } else {
                let after = before.drop_last().push(before.last().push(c));
                assert(segments(text@.take(i + 1)) == after);
                assert(after.drop_last() == before.drop_last());
            }
        }
        if c == '/' {
            push_segment(stack, current);
            current = Vec::new();
        } else {
            current.push(c);
        }
        i += 1;
    }
    proof {
        assert(text@.take(text@.len() as int) == text@);
        lemma_segments_nonempty(text@);
    }
    push_segment(stack, current);
}

/// Writes the components out as an absolute path.
fn absolute_path_of(stack: &Vec<Vec<char>>) -> (path: String)
    ensures
        path@ == absolute_text(components_view(stack@)),
{
    let mut path = String::new();
    if stack.len() == 0 {
        path.push('/');
        assert(path@ == seq![separator()]);
        return path;
    }
    let ghost components = components_view(stack@);
    let mut k: usize = 0;
    while k < stack.len()
        invariant
            k <= stack.len(),
            components == components_view(stack@),
            path@ == render(components.take(k as int)),
        decreases stack.len() - k,
    {
        let component = &stack[k];
        path.push('/');
        let mut j: usize = 0;
        while j < component.len()
            invariant
                j <= component.len(),
                path@ == render(components.take(k as int)) + seq![separator()] + component@.take(
                    j as int,
                ),
            decreases component.len() - j,
        {
            path.push(component[j]);
            assert(component@.take(j + 1) == component@.take(j as int).push(component@[j as int]));
            j += 1;
        }
        proof {
            assert(component@.take(component@.len() as int) == component@);
            assert(components.take(k + 1).drop_last() == components.take(k as int));
            assert(components.take(k + 1).last() == component@);
        }
        k += 1;
    }
    assert(components.take(stack@.len() as int) == components);
    path
}

/// Brings `path` into absolute, normal form without looking at the file
/// system. A relative path is resolved against `cwd`, the working directory.
/// Segments `.` are dropped, and each `..` removes the directory before it.
pub fn normalize_path(path: &str, cwd: &str) -> (normal: String)
    ensures
        normal@ == normalize_spec(path@, cwd@),
        is_normal(normal@),
{
    proof {
        lemma_normalize_idempotent(path@, cwd@, Seq::<char>::empty());
    }
    let path_chars = chars_of(path);
    let mut stack: Vec<Vec<char>> = Vec::new();
    assert(components_view(stack@) == Seq::<Seq<char>>::empty());
    if !(path_chars.len() > 0 && path_chars[0] == '/') {
        let cwd_chars = chars_of(cwd);
        push_segments(&mut stack, &cwd_chars);
    }
    push_segments(&mut stack, &path_chars);
    absolute_path_of(&stack)
}

} // verus!
