//! Paths as text, read by components.
//!
//! A path is cut at every `/`. Empty pieces and pieces that are a single dot
//! carry no meaning and are dropped, so `a//b`, `a/./b` and `a/b/` all have the
//! components `a` and `b`. A leading `/` is kept as a component of its own, and
//! so is a leading single dot of a path without a root. Two paths are compared
//! component by component, never character by character: `root/cache` begins
//! `root/cache/pic.jpg` and does not begin `root/cachefoo/pic.jpg`.

use crate::text::{same_chars, to_chars};
use vstd::prelude::*;

verus! {

/// The views of a run of character vectors, in order.
pub open spec fn views(parts: Seq<Vec<char>>) -> Seq<Seq<char>> {
    Seq::new(parts.len(), |i: int| parts[i]@)
}

/// The pieces of `path` between its separators, empty ones included. There is
/// always at least one piece.
pub open spec fn path_pieces(path: Seq<char>) -> Seq<Seq<char>>
    decreases path.len(),
{
    if path.len() == 0 {
        seq![Seq::<char>::empty()]
    } else {
        let before = path_pieces(path.drop_last());
        if path.last() == '/' {
            before.push(Seq::<char>::empty())
        } else {
            before.update(before.len() - 1, before.last().push(path.last()))
        }
    }
}

/// Whether `piece` names something: it is neither empty nor a single dot.
pub open spec fn is_name(piece: Seq<char>) -> bool {
    piece.len() > 0 && piece != seq!['.']
}

/// The pieces that name something, in order.
pub open spec fn names_among(pieces: Seq<Seq<char>>) -> Seq<Seq<char>>
    decreases pieces.len(),
{
    if pieces.len() == 0 {
        Seq::<Seq<char>>::empty()
    } else if is_name(pieces.last()) {
        names_among(pieces.drop_last()).push(pieces.last())
    } else {
        names_among(pieces.drop_last())
    }
}

/// The names along `path`, in order.
pub open spec fn path_names(path: Seq<char>) -> Seq<Seq<char>> {
    names_among(path_pieces(path))
}

/// Whether `path` begins at the root.
pub open spec fn has_root(path: Seq<char>) -> bool {
    path.len() > 0 && path[0] == '/'
}

/// What stands before the names of `path`: the root, a leading single dot, or
/// nothing.
pub open spec fn path_lead(path: Seq<char>) -> Seq<Seq<char>> {
    if has_root(path) {
        seq![seq!['/']]
    } else if path_pieces(path)[0] == seq!['.'] {
        seq![seq!['.']]
    } else {
        Seq::<Seq<char>>::empty()
    }
}

/// The components of `path`.
pub open spec fn path_components(path: Seq<char>) -> Seq<Seq<char>> {
    path_lead(path) + path_names(path)
}

/// Whether the components of `base` are the first components of `path`.
pub open spec fn path_starts_with(path: Seq<char>, base: Seq<char>) -> bool {
    path_components(base).is_prefix_of(path_components(path))
}

/// The last name of `path`, unless the path has no name or ends in `..`.
pub open spec fn path_file_name(path: Seq<char>) -> Option<Seq<char>> {
    let names = path_names(path);
    if names.len() > 0 && names.last() != seq!['.', '.'] {
        Some(names.last())
    } else {
        None
    }
}

/// The position of the last dot in `name`, or -1 where it has none.
pub open spec fn last_dot(name: Seq<char>) -> int
    decreases name.len(),
{
    if name.len() == 0 {
        -1
    } else if name.last() == '.' {
        name.len() - 1
    } else {
        last_dot(name.drop_last())
    }
}

/// What follows the last dot of a file name, unless the name has no dot or
/// only the one it begins with.
pub open spec fn name_extension(name: Seq<char>) -> Option<Seq<char>> {
    let dot = last_dot(name);
    if dot <= 0 {
        None
    } else {
        Some(name.subrange(dot + 1, name.len() as int))
    }
}

/// The extension of the file name of `path`.
pub open spec fn path_extension(path: Seq<char>) -> Option<Seq<char>> {
    match path_file_name(path) {
        Some(name) => name_extension(name),
        None => None,
    }
}

/// The pieces between the separators of the path that `chars` spells.
fn pieces(chars: &Vec<char>) -> (parts: Vec<Vec<char>>)
    ensures
        views(parts@) == path_pieces(chars@),
{
    let mut done: Vec<Vec<char>> = Vec::new();
    let mut current: Vec<char> = Vec::new();
    let mut i: usize = 0;
    assert(chars@.take(0) =~= Seq::<char>::empty());
    assert(views(done@).push(current@) =~= seq![Seq::<char>::empty()]);
    while i < chars.len()
        invariant
            i <= chars.len(),
            path_pieces(chars@.take(i as int)) == views(done@).push(current@),
        decreases chars.len() - i,
    {
        let c = chars[i];
        let ghost before = views(done@).push(current@);
        assert(chars@.take(i + 1).drop_last() =~= chars@.take(i as int));
        assert(chars@.take(i + 1).last() == c);
        if c == '/' {
            done.push(current);
            current = Vec::new();
            assert(views(done@).push(current@) =~= before.push(Seq::<char>::empty()));
        } else {
            current.push(c);
            assert(views(done@).push(current@) =~= before.update(
                before.len() - 1,
                before.last().push(c),
            ));
        }
        i += 1;
    }
    assert(chars@.take(chars.len() as int) =~= chars@);
    let ghost all = views(done@).push(current@);
    done.push(current);
    assert(views(done@) =~= all);
    done
}

/// Whether `piece` is a single dot.
fn is_single_dot(piece: &Vec<char>) -> (dot: bool)
    ensures
        dot == (piece@ == seq!['.']),
{
    let dot = piece.len() == 1 && piece[0] == '.';
    assert(dot == (piece@ =~= seq!['.']));
    dot
}

/// The pieces that name something, in order.
fn keep_names(parts: Vec<Vec<char>>) -> (found: Vec<Vec<char>>)
    ensures
        views(found@) == names_among(views(parts@)),
{
    let ghost all = views(parts@);
    let ghost given = parts@;
    let mut found: Vec<Vec<char>> = Vec::new();
    assert(all.take(0) =~= Seq::<Seq<char>>::empty());
    for piece in it: parts
        invariant
            it.seq() == given,
            all == views(given),
            views(found@) == names_among(all.take(it.index())),
    {
        let ghost kept = views(found@);
        let ghost k = it.index();
        assert(piece@ == all[k]);
        assert(all.take(k + 1).drop_last() =~= all.take(k));
        assert(all.take(k + 1).last() == piece@);
        let named = piece.len() > 0 && !is_single_dot(&piece);
        if named {
            found.push(piece);
            assert(views(found@) =~= kept.push(piece@));
        }
    }
    assert(all.take(all.len() as int) =~= all);
    found
}

/// The names along `path`, in order.
pub fn names(path: &str) -> (found: Vec<Vec<char>>)
    ensures
        views(found@) == path_names(path@),
{
    let chars = to_chars(path);
    keep_names(pieces(&chars))
}

/// The components of `path`.
pub fn components(path: &str) -> (parts: Vec<Vec<char>>)
    ensures
        views(parts@) == path_components(path@),
{
    let chars = to_chars(path);
    let all = pieces(&chars);
    let mut parts: Vec<Vec<char>> = Vec::new();
    if chars.len() > 0 && chars[0] == '/' {
        let mut root: Vec<char> = Vec::new();
        root.push('/');
        assert(root@ =~= seq!['/']);
        parts.push(root);
    } else {
        assert(path_pieces(path@).len() > 0) by {
            lemma_pieces_not_empty(path@);
        }
        if is_single_dot(&all[0]) {
            let mut dot: Vec<char> = Vec::new();
            dot.push('.');
            assert(dot@ =~= seq!['.']);
            parts.push(dot);
        }
    }
    assert(views(parts@) =~= path_lead(path@));
    let mut found = keep_names(all);
    let ghost lead = views(parts@);
    let ghost tail = views(found@);
    parts.append(&mut found);
    assert(views(parts@) =~= lead + tail);
    parts
}

proof fn lemma_pieces_not_empty(path: Seq<char>)
    ensures
        path_pieces(path).len() > 0,
    decreases path.len(),
{
    if path.len() > 0 {
        lemma_pieces_not_empty(path.drop_last());
    }
}

/// Whether the components `head` are the first of the components `whole`.
pub fn begins(whole: &Vec<Vec<char>>, head: &Vec<Vec<char>>) -> (begins: bool)
    ensures
        begins == views(head@).is_prefix_of(views(whole@)),
{
    if head.len() > whole.len() {
        return false;
    }
    let mut i: usize = 0;
    while i < head.len()
        invariant
            i <= head.len() <= whole.len(),
            forall|k: int| 0 <= k < i ==> head@[k]@ == whole@[k]@,
        decreases head.len() - i,
    {
        if !same_chars(&head[i], &whole[i]) {
            assert(views(head@)[i as int] != views(whole@)[i as int]);
            assert(views(whole@).subrange(0, head.len() as int)[i as int] == views(whole@)[i as int]);
            return false;
        }
        i += 1;
    }
    assert(views(head@) =~= views(whole@).subrange(0, head.len() as int));
    true
}

/// Whether the components of `base` are the first components of `path`.
pub fn starts_with(path: &str, base: &str) -> (begins: bool)
    ensures
        begins == path_starts_with(path@, base@),
{
    let whole = components(path);
    let head = components(base);
    begins(&whole, &head)
}

/// The last name of `path`, unless the path has no name or ends in `..`.
pub fn file_name(path: &str) -> (name: Option<Vec<char>>)
    ensures
        match name {
            Some(chars) => path_file_name(path@) == Some(chars@),
            None => path_file_name(path@) is None,
        },
{
    let mut found = names(path);
    let ghost all = views(found@);
    match found.pop() {
        None => None,
        Some(last) => {
            assert(last@ == all.last());
            let parent = last.len() == 2 && last[0] == '.' && last[1] == '.';
            assert(parent == (last@ =~= seq!['.', '.']));
            if parent {
                None
            } else {
                Some(last)
            }
        },
    }
}

/// What follows the last dot of `name`, unless the name has no dot or only
/// the one it begins with.
pub fn extension_of(name: &Vec<char>) -> (ext: Option<Vec<char>>)
    ensures
        match ext {
            Some(chars) => name_extension(name@) == Some(chars@),
            None => name_extension(name@) is None,
        },
{
    let len = name.len();
    let mut dot: usize = len;
    let mut found = false;
    let mut i: usize = 0;
    assert(name@.take(0) =~= Seq::<char>::empty());
    while i < len
        invariant
            i <= len,
            len == name@.len(),
            found ==> dot < i && last_dot(name@.take(i as int)) == dot,
            !found ==> last_dot(name@.take(i as int)) == -1,
        decreases len - i,
    {
        assert(name@.take(i + 1).drop_last() =~= name@.take(i as int));
        assert(name@.take(i + 1).last() == name@[i as int]);
        if name[i] == '.' {
            dot = i;
            found = true;
        }
        i += 1;
    }
    assert(name@.take(len as int) =~= name@);
    if !found || dot == 0 {
        return None;
    }
    let mut ext: Vec<char> = Vec::new();
    let mut j: usize = dot + 1;
    while j < len
        invariant
            dot + 1 <= j <= len,
            len == name@.len(),
            ext@ == name@.subrange(dot + 1, j as int),
        decreases len - j,
    {
        ext.push(name[j]);
        assert(ext@ =~= name@.subrange(dot + 1, j + 1));
        j += 1;
    }
    Some(ext)
}

/// The extension of the file name of `path`.
pub fn extension(path: &str) -> (ext: Option<Vec<char>>)
    ensures
        match ext {
            Some(chars) => path_extension(path@) == Some(chars@),
            None => path_extension(path@) is None,
        },
{
    match file_name(path) {
        Some(name) => extension_of(&name),
        None => None,
    }
}

} // verus!
