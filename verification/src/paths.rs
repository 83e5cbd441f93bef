//! Paths as text, by the rules of Unix: their parts, when two of them name the same place, and
//! joining.

use vstd::prelude::*;

use crate::text::{chars_of, text_of};

verus! {

/// The pieces of a path between its slashes, empty ones included.
pub open spec fn segments(path: Seq<char>) -> Seq<Seq<char>>
    decreases path.len(),
{
    if path.len() == 0 {
        seq![Seq::<char>::empty()]
    } else {
        let before = segments(path.drop_last());
        if path.last() == '/' {
            before.push(Seq::<char>::empty())
        } else {
            before.drop_last().push(before.last().push(path.last()))
        }
    }
}

/// Whether a piece of a path is a name, not the empty piece between two slashes nor a `.`.
pub open spec fn is_name(segment: Seq<char>) -> bool {
    segment.len() > 0 && segment != seq!['.']
}

/// The names along a path.
pub open spec fn names(path: Seq<char>) -> Seq<Seq<char>> {
    segments(path).filter(|segment: Seq<char>| is_name(segment))
}

/// The parts of a path that matter: whether it begins at the root, whether it begins with `.`,
/// and the names along it. Repeated slashes, a slash at the end and `.` elsewhere do not.
pub open spec fn path_parts(path: Seq<char>) -> (bool, bool, Seq<Seq<char>>) {
    (path.len() > 0 && path[0] == '/', segments(path)[0] == seq!['.'], names(path))
}

/// The name of the file at the end of a path, where the path ends in a name other than `..`.
pub open spec fn final_name(path: Seq<char>) -> Option<Seq<char>> {
    let names = names(path);
    if names.len() > 0 && names.last() != seq!['.', '.'] {
        Some(names.last())
    } else {
        None
    }
}

/// A path with one more name behind it.
pub open spec fn joined(base: Seq<char>, name: Seq<char>) -> Seq<char> {
    if base.len() > 0 && base.last() != '/' {
        base + seq!['/'] + name
    } else {
        base + name
    }
}

proof fn lemma_segments_nonempty(path: Seq<char>)
    ensures
        segments(path).len() > 0,
    decreases path.len(),
{
    if path.len() > 0 {
        lemma_segments_nonempty(path.drop_last());
    }
}

/// The views of a sequence of character vectors.
spec fn views(v: Seq<Vec<char>>) -> Seq<Seq<char>> {
    v.map_values(|chars: Vec<char>| chars@)
}

fn is_dot(segment: &Vec<char>) -> (dot: bool)
    ensures
        dot == (segment@ == seq!['.']),
{
    if segment.len() == 1 && segment[0] == '.' {
        assert(segment@ == seq!['.']);
        true
    } else {
        assert(segment@.len() == 1 && segment@[0] == '.' <== segment@ == seq!['.']);
        false
    }
}

/// Cuts a path at its slashes.
fn split(path: &str) -> (parts: Vec<Vec<char>>)
    ensures
        views(parts@) == segments(path@),
{
    let chars = chars_of(path);
    let mut parts: Vec<Vec<char>> = Vec::new();
    let mut current: Vec<char> = Vec::new();
    let mut i: usize = 0;
    assert(views(parts@).push(current@) == segments(path@.take(0)));
    while i < chars.len()
        invariant
            chars@ == path@,
            i <= chars.len(),
            views(parts@).push(current@) == segments(path@.take(i as int)),
        decreases chars.len() - i,
    {
        let ghost before = segments(path@.take(i as int));
        let ghost p = parts@;
        let ghost c = current@;
        assert(path@.take(i + 1).drop_last() == path@.take(i as int));
        if chars[i] == '/' {
            parts.push(current);
            current = Vec::new();
            assert(views(parts@) == views(p).push(c));
            assert(current@ == Seq::<char>::empty());
        } else {
            current.push(chars[i]);
            assert(before.drop_last() == views(p));
        }
        i += 1;
    }
    assert(path@.take(path@.len() as int) == path@);
    let ghost p = parts@;
    let ghost c = current@;
    parts.push(current);
    assert(views(parts@) == views(p).push(c));
    parts
}

/// Finds the names along a path.
fn names_of(parts: Vec<Vec<char>>) -> (found: Vec<Vec<char>>)
    ensures
        views(found@) == views(parts@).filter(|segment: Seq<char>| is_name(segment)),
{
    let ghost keep = |segment: Seq<char>| is_name(segment);
    let mut found: Vec<Vec<char>> = Vec::new();
    let mut i: usize = 0;
    reveal(Seq::filter);
    assert(views(parts@).take(0).filter(keep) == Seq::<Seq<char>>::empty());
    while i < parts.len()
        invariant
            i <= parts.len(),
            keep == (|segment: Seq<char>| is_name(segment)),
            views(found@) == views(parts@).take(i as int).filter(keep),
        decreases parts.len() - i,
    {
        reveal(Seq::filter);
        assert(views(parts@).take(i + 1).drop_last() == views(parts@).take(i as int));
        if parts[i].len() > 0 && !is_dot(&parts[i]) {
            let ghost before = found@;
            let name = parts[i].clone();
            assert(name@ == parts@[i as int]@);
            found.push(name);
            assert(views(found@) == views(before).push(name@));
        }
        i += 1;
    }
    assert(views(parts@).take(parts@.len() as int) == views(parts@));
    found
}

fn same_chars(a: &Vec<char>, b: &Vec<char>) -> (same: bool)
    ensures
        same == (a@ == b@),
{
    if a.len() != b.len() {
        return false;
    }
    let mut i: usize = 0;
    while i < a.len()
        invariant
            i <= a.len(),
            a@.len() == b@.len(),
            forall|k: int| 0 <= k < i ==> a@[k] == b@[k],
        decreases a.len() - i,
    {
        if a[i] != b[i] {
            return false;
        }
        i += 1;
    }
    assert(a@ == b@);
    true
}

/// Tells whether two paths have the same parts, and so name the same directory.
pub fn same_directory(a: &str, b: &str) -> (same: bool)
    ensures
        same == (path_parts(a@) == path_parts(b@)),
{
    proof {
        lemma_segments_nonempty(a@);
        lemma_segments_nonempty(b@);
    }
    let a_root: bool = !a.is_empty() && a.get_char(0) == '/';
    let b_root: bool = !b.is_empty() && b.get_char(0) == '/';
    let a_parts = split(a);
    let b_parts = split(b);
    assert(views(a_parts@)[0] == a_parts@[0]@);
    assert(views(b_parts@)[0] == b_parts@[0]@);
    if a_root != b_root || is_dot(&a_parts[0]) != is_dot(&b_parts[0]) {
        return false;
    }
    let a_names = names_of(a_parts);
    let b_names = names_of(b_parts);
    if a_names.len() != b_names.len() {
        assert(views(a_names@).len() != views(b_names@).len());
        return false;
    }
    let mut i: usize = 0;
    while i < a_names.len()
        invariant
            i <= a_names.len(),
            a_names@.len() == b_names@.len(),
            views(a_names@) == names(a@),
            views(b_names@) == names(b@),
            forall|k: int| 0 <= k < i ==> a_names@[k]@ == b_names@[k]@,
        decreases a_names.len() - i,
    {
        if !same_chars(&a_names[i], &b_names[i]) {
            assert(views(a_names@)[i as int] != views(b_names@)[i as int]);
            return false;
        }
        i += 1;
    }
    assert(views(a_names@) == views(b_names@));
    true
}

/// Gives the name of the file at the end of a path.
pub fn file_name(path: &str) -> (name: Option<String>)
    ensures
        name matches Some(n) ==> final_name(path@) == Some(n@),
        name is None ==> final_name(path@) is None,
{
    let found = names_of(split(path));
    if found.len() == 0 {
        return None;
    }
    let last = &found[found.len() - 1];
    assert(views(found@).last() == last@);
    if last.len() == 2 && last[0] == '.' && last[1] == '.' {
        assert(last@ == seq!['.', '.']);
        return None;
    }
    assert(last@ != seq!['.', '.']);
    assert(last@.take(last@.len() as int) == last@);
    Some(text_of(last, last.len()))
}

/// Puts one more name behind a path.
pub fn join(base: &str, name: &str) -> (path: String)
    ensures
        path@ == joined(base@, name@),
{
    let mut path = base.to_owned();
    let len: usize = base.unicode_len();
    if len > 0 && base.get_char(len - 1) != '/' {
        path.push('/');
    }
    path.append(name);
    assert(path@ == joined(base@, name@));
    path
}

/// A slash at the end of a path does not change what it names.
pub proof fn law_trailing_slash_is_ignored(path: Seq<char>)
    requires
        path.len() > 0,
    ensures
        path_parts(path.push('/')) == path_parts(path),
{
    reveal(Seq::filter);
    lemma_segments_nonempty(path);
    assert(path.push('/').drop_last() == path);
    let parts = segments(path);
    assert(parts.push(Seq::<char>::empty()).drop_last() == parts);
}

/// Text without a slash lengthens the last piece of a path.
proof fn lemma_segments_extend(path: Seq<char>, text: Seq<char>)
    requires
        forall|i: int| 0 <= i < text.len() ==> text[i] != '/',
    ensures
        segments(path + text) == segments(path).drop_last().push(segments(path).last() + text),
    decreases text.len(),
{
    lemma_segments_nonempty(path);
    let before = segments(path);
    if text.len() == 0 {
        assert(path + text == path);
        assert(before.last() + text == before.last());
        assert(before.drop_last().push(before.last()) == before);
    } else {
        let t = text.drop_last();
        lemma_segments_extend(path, t);
        assert((path + text).drop_last() == path + t);
        let middle = before.drop_last().push(before.last() + t);
        assert(middle.drop_last() == before.drop_last());
        assert((before.last() + t).push(text.last()) == before.last() + text);
    }
}

/// Joining a name to a path adds that name to the names along the path and changes nothing else
/// about them.
pub proof fn law_join_adds_the_name(base: Seq<char>, name: Seq<char>)
    requires
        is_name(name),
        forall|i: int| 0 <= i < name.len() ==> name[i] != '/',
    ensures
        names(joined(base, name)) == names(base).push(name),
{
    reveal(Seq::filter);
    let keep = |segment: Seq<char>| is_name(segment);
    let empty = Seq::<char>::empty();
    lemma_segments_nonempty(base);
    assert(empty + name == name);
    if base.len() > 0 && base.last() != '/' {
        let dir = base.push('/');
        assert(base + seq!['/'] + name == dir + name);
        assert(dir.drop_last() == base);
        lemma_segments_extend(dir, name);
        assert(segments(dir).drop_last() == segments(base));
        assert(segments(base).push(name).drop_last() == segments(base));
    } else {
        lemma_segments_extend(base, name);
        let parts = segments(base);
        assert(parts.last() == empty);
        assert(parts.drop_last().push(name).drop_last() == parts.drop_last());
        assert(parts.filter(keep) == parts.drop_last().filter(keep));
    }
}

/// A slash parts the names before it from the names behind it.
pub proof fn law_slash_parts_names(a: Seq<char>, b: Seq<char>)
    ensures
        names(a.push('/') + b) == names(a) + names(b),
    decreases b.len(),
{
    let keep = |segment: Seq<char>| is_name(segment);
    lemma_segments_nonempty(a);
    lemma_segments_nonempty(b);
    lemma_segments_concat(a, b);
    Seq::filter_distributes_over_add(segments(a), segments(b), keep);
}

proof fn lemma_segments_concat(a: Seq<char>, b: Seq<char>)
    ensures
        segments(a.push('/') + b) == segments(a) + segments(b),
    decreases b.len(),
{
    let dir = a.push('/');
    lemma_segments_nonempty(b);
    if b.len() == 0 {
        assert(dir + b =~= dir);
        assert(dir.drop_last() =~= a);
        assert(segments(a) + segments(b) =~= segments(a).push(Seq::<char>::empty()));
    } else {
        let c = b.drop_last();
        lemma_segments_concat(a, c);
        lemma_segments_nonempty(c);
        assert((dir + b).drop_last() =~= dir + c);
        assert((dir + b).last() == b.last());
        let all = segments(a) + segments(c);
        if b.last() == '/' {
            assert(all.push(Seq::<char>::empty()) =~= segments(a) + segments(c).push(
                Seq::<char>::empty(),
            ));
        } else {
            assert(all.last() == segments(c).last());
            assert(all.drop_last().push(all.last().push(b.last())) =~= segments(a) + segments(
                c,
            ).drop_last().push(segments(c).last().push(b.last())));
        }
    }
}

/// A text without a slash is one name, unless it is empty or a dot.
pub proof fn law_text_without_slash_is_a_name(text: Seq<char>)
    requires
        forall|i: int| 0 <= i < text.len() ==> text[i] != '/',
    ensures
        text.len() > 0 && text != seq!['.'] ==> names(text) == seq![text],
        text.len() == 0 || text == seq!['.'] ==> names(text) == Seq::<Seq<char>>::empty(),
{
    reveal(Seq::filter);
    let keep = |segment: Seq<char>| is_name(segment);
    let empty = Seq::<char>::empty();
    lemma_segments_extend(empty, text);
    assert(empty + text =~= text);
    let parts = segments(text);
    assert(segments(empty) == seq![empty]);
    assert(parts =~= seq![text]);
    assert(parts.drop_last() =~= Seq::<Seq<char>>::empty());
    assert(parts.last() == text);
    assert(parts.drop_last().filter(keep) =~= Seq::<Seq<char>>::empty());
    if keep(text) {
        assert(parts.filter(keep) =~= seq![text]);
    } else {
        assert(parts.filter(keep) =~= Seq::<Seq<char>>::empty());
    }
}

/// Two paths name the same place exactly where they have the same names in the same order, both or
/// neither begin with a slash, and both or neither begin with a dot that is a name of its own.
pub proof fn law_when_paths_name_the_same_place(a: Seq<char>, b: Seq<char>)
    ensures
        path_parts(a) == path_parts(b) <==> {
            &&& names(a) == names(b)
            &&& (a.len() > 0 && a[0] == '/') == (b.len() > 0 && b[0] == '/')
            &&& (a.len() > 0 && a[0] == '.' && (a.len() == 1 || a[1] == '/')) == (b.len() > 0
                && b[0] == '.' && (b.len() == 1 || b[1] == '/'))
        },
{
    lemma_dot_first(a);
    lemma_dot_first(b);
}

proof fn lemma_dot_first(path: Seq<char>)
    ensures
        segments(path)[0] == seq!['.'] <==> path.len() > 0 && path[0] == '.' && (path.len() == 1
            || path[1] == '/'),
    decreases path.len(),
{
    lemma_segments_nonempty(path);
    if path.len() == 0 {
        assert(segments(path)[0].len() == 0);
    } else if path.len() == 1 {
        let before = path.drop_last();
        assert(segments(before) == seq![Seq::<char>::empty()]);
        if path.last() == '/' {
            assert(segments(path)[0].len() == 0);
        } else {
            assert(segments(path)[0] =~= seq![path[0]]);
            assert(segments(path)[0][0] == path[0]);
        }
    } else {
        let before = path.drop_last();
        lemma_segments_nonempty(before);
        lemma_dot_first(before);
        if path.last() == '/' {
            assert(segments(path)[0] == segments(before)[0]);
        } else if segments(before).len() > 1 {
            assert(segments(path)[0] == segments(before)[0]);
            if path.len() == 2 {
                lemma_two_pieces(before);
            }
        } else {
            lemma_one_piece(before);
            assert(segments(path)[0] =~= before.push(path.last()));
            assert(segments(path)[0].len() >= 2);
        }
    }
}

/// A path of one piece is that piece.
proof fn lemma_one_piece(path: Seq<char>)
    requires
        segments(path).len() == 1,
    ensures
        segments(path)[0] == path,
        forall|i: int| 0 <= i < path.len() ==> path[i] != '/',
    decreases path.len(),
{
    if path.len() > 0 {
        lemma_segments_nonempty(path.drop_last());
        lemma_one_piece(path.drop_last());
        assert(path.drop_last().push(path.last()) =~= path);
        assert forall|i: int| 0 <= i < path.len() implies path[i] != '/' by {
            if i < path.len() - 1 {
                assert(path.drop_last()[i] == path[i]);
            }
        }
    } else {
        assert(segments(path)[0] =~= path);
    }
}

/// A path of one character and more than one piece is a slash.
proof fn lemma_two_pieces(path: Seq<char>)
    requires
        path.len() == 1,
        segments(path).len() > 1,
    ensures
        path[0] == '/',
{
    assert(segments(path.drop_last()) == seq![Seq::<char>::empty()]);
}

/// The name at the end of a path is the last of its names, and `..` is none.
pub proof fn law_name_at_the_end(path: Seq<char>, before: Seq<Seq<char>>, name: Seq<char>)
    ensures
        names(path) == before.push(name) && name != seq!['.', '.'] ==> final_name(path) == Some(
            name,
        ),
        names(path) == before.push(seq!['.', '.']) ==> final_name(path) is None,
        names(path).len() == 0 ==> final_name(path) is None,
{
    assert(before.push(name).last() == name);
    assert(before.push(seq!['.', '.']).last() == seq!['.', '.']);
}

/// A joined path is the path and the name with one slash between them, where the path is not empty.
pub proof fn law_join_puts_one_slash(base: Seq<char>, name: Seq<char>)
    ensures
        joined(Seq::<char>::empty(), name) == name,
        joined(base.push('/'), name) == base.push('/') + name,
        base.len() > 0 && base.last() != '/' ==> joined(base, name) == base.push('/') + name,
{
    assert(joined(Seq::<char>::empty(), name) =~= name);
    if base.len() > 0 && base.last() != '/' {
        assert(joined(base, name) =~= base.push('/') + name);
    }
}

} // verus!
