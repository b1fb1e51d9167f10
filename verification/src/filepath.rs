//! Paths as text, with `/` between their components.

use crate::lines::{first_index, lemma_first_index, lemma_first_index_is, pieces, split};
use crate::text::{chars_of, same_text, text_between, texts};
use vstd::prelude::*;

verus! {

/// Whether a path starts at the root.
pub open spec fn is_absolute(path: Seq<char>) -> bool {
    path.len() > 0 && path[0] == '/'
}

/// `path` below `base`; an absolute `path` stands for itself.
pub open spec fn path_below(base: Seq<char>, path: Seq<char>) -> Seq<char> {
    if is_absolute(path) {
        path
    } else if base.len() > 0 && base.last() != '/' {
        base + seq!['/'] + path
    } else {
        base + path
    }
}

/// `path` below `base`, as `Path::join` puts it.
pub fn join_path(base: &str, path: &str) -> (whole: String)
    ensures
        whole@ == path_below(base@, path@),
{
    let inner = chars_of(path);
    if inner.len() > 0 && inner[0] == '/' {
        return String::from_str(path);
    }
    let outer = chars_of(base);
    let mut whole = String::from_str(base);
    if outer.len() > 0 && outer[outer.len() - 1] != '/' {
        whole.push('/');
    }
    whole.append(path);
    assert(whole@ =~= path_below(base@, path@));
    whole
}

/// `path` without the separators and the `.` components it ends with; the
/// root keeps its own.
pub open spec fn without_tail(path: Seq<char>) -> Seq<char>
    decreases path.len(),
{
    if path.len() >= 2 && (path.last() == '/' || (path.last() == '.' && path[path.len() - 2]
        == '/')) {
        without_tail(path.drop_last())
    } else {
        path
    }
}

/// Where the last `/` of `path` stands, or -1 when there is none.
pub open spec fn last_separator(path: Seq<char>) -> int
    decreases path.len(),
{
    if path.len() == 0 {
        -1
    } else if path.last() == '/' {
        path.len() - 1
    } else {
        last_separator(path.drop_last())
    }
}

/// The directory `path` stands in; `None` for the root and for nothing.
pub open spec fn parent(path: Seq<char>) -> Option<Seq<char>> {
    let trimmed = without_tail(path);
    if trimmed.len() == 0 || trimmed == seq!['/'] {
        None
    } else {
        let at = last_separator(trimmed);
        if at < 0 {
            Some(Seq::empty())
        } else if at == 0 {
            Some(seq!['/'])
        } else {
            Some(without_tail(trimmed.take(at)))
        }
    }
}

proof fn lemma_without_tail(path: Seq<char>)
    ensures
        without_tail(path).len() <= path.len(),
        without_tail(path) == path.take(without_tail(path).len() as int),
    decreases path.len(),
{
    if path.len() >= 2 && (path.last() == '/' || (path.last() == '.' && path[path.len() - 2]
        == '/')) {
        lemma_without_tail(path.drop_last());
        let kept = without_tail(path).len() as int;
        assert(path.drop_last().take(kept) =~= path.take(kept));
    } else {
        assert(path.take(path.len() as int) =~= path);
    }
}

proof fn lemma_last_separator(path: Seq<char>)
    ensures
        -1 <= last_separator(path) < path.len(),
        last_separator(path) >= 0 ==> path[last_separator(path)] == '/',
    decreases path.len(),
{
    if path.len() > 0 && path.last() != '/' {
        lemma_last_separator(path.drop_last());
    }
}

/// Going up makes a path shorter, so it comes to an end.
pub proof fn law_parent_is_shorter(path: Seq<char>)
    ensures
        parent(path) matches Some(up) ==> up.len() < path.len(),
{
    let trimmed = without_tail(path);
    lemma_without_tail(path);
    lemma_last_separator(trimmed);
    let at = last_separator(trimmed);
    if at > 0 {
        lemma_without_tail(trimmed.take(at));
    } else if at == 0 && trimmed.len() == 1 {
        assert(trimmed =~= seq!['/']);
    }
}

fn tail_start(chars: &Vec<char>, upto: usize) -> (kept: usize)
    requires
        upto <= chars.len(),
    ensures
        kept <= upto,
        chars@.take(kept as int) == without_tail(chars@.take(upto as int)),
{
    let mut kept: usize = upto;
    while kept >= 2 && (chars[kept - 1] == '/' || (chars[kept - 1] == '.' && chars[kept - 2]
        == '/'))
        invariant
            kept <= upto <= chars.len(),
            without_tail(chars@.take(upto as int)) == without_tail(chars@.take(kept as int)),
        decreases kept,
    {
        assert(chars@.take(kept as int).drop_last() =~= chars@.take(kept - 1));
        kept = kept - 1;
    }
    kept
}

/// The directory `path` stands in, as `Path::parent` gives it.
pub fn parent_of(path: &str) -> (up: Option<String>)
    ensures
        match up {
            Some(up) => parent(path@) == Some(up@),
            None => parent(path@) is None,
        },
{
    let chars = chars_of(path);
    assert(chars@.take(chars.len() as int) =~= path@);
    let kept = tail_start(&chars, chars.len());
    let ghost trimmed = without_tail(path@);
    if kept == 0 {
        return None;
    }
    if kept == 1 && chars[0] == '/' {
        assert(trimmed =~= seq!['/']);
        return None;
    }
    assert(trimmed != seq!['/']) by {
        if trimmed == seq!['/'] {
            assert(trimmed.len() == 1 && trimmed[0] == '/');
        }
    }
    let mut at: usize = kept;
    assert(trimmed.take(at as int) =~= trimmed);
    while at > 0 && chars[at - 1] != '/'
        invariant
            at <= kept <= chars.len(),
            trimmed == chars@.take(kept as int),
            last_separator(trimmed) == last_separator(trimmed.take(at as int)),
        decreases at,
    {
        assert(trimmed.take(at as int).drop_last() =~= trimmed.take(at - 1));
        assert(trimmed.take(at as int).last() == chars@[at - 1]);
        at = at - 1;
    }
    if at == 0 {
        let none = String::new();
        assert(none@ =~= Seq::empty());
        return Some(none);
    }
    assert(last_separator(trimmed) == at - 1) by {
        assert(trimmed.take(at as int).last() == chars@[at - 1]);
    }
    if at == 1 {
        let mut root = String::new();
        root.push('/');
        assert(root@ =~= seq!['/']);
        return Some(root);
    }
    let upto = tail_start(&chars, at - 1);
    assert(trimmed.take(at - 1) =~= chars@.take(at - 1));
    let up = text_between(&chars, 0, upto);
    assert(up@ =~= chars@.take(upto as int));
    Some(up)
}

/// A path, the directory it stands in, and so on up.
pub open spec fn path_and_above(path: Seq<char>) -> Seq<Seq<char>>
    decreases path.len(),
    via path_and_above_decreases
{
    match parent(path) {
        Some(up) => seq![path] + path_and_above(up),
        None => seq![path],
    }
}

#[via_fn]
proof fn path_and_above_decreases(path: Seq<char>) {
    law_parent_is_shorter(path);
}

/// A path, the directory it stands in, and so on up, as `Path::ancestors`
/// gives them.
pub fn ancestors(path: &str) -> (dirs: Vec<String>)
    ensures
        texts(dirs@) == path_and_above(path@),
{
    let mut dirs: Vec<String> = Vec::new();
    let mut here = String::from_str(path);
    assert(texts(dirs@) + path_and_above(here@) =~= path_and_above(path@));
    loop
        invariant
            texts(dirs@) + path_and_above(here@) == path_and_above(path@),
        decreases here@.len(),
    {
        let ghost before = texts(dirs@);
        proof {
            law_parent_is_shorter(here@);
        }
        let up = parent_of(here.as_str());
        dirs.push(here.clone());
        assert(texts(dirs@) =~= before.push(here@));
        match up {
            Some(up) => {
                assert(texts(dirs@) + path_and_above(up@) =~= before + path_and_above(here@));
                here = up;
            },
            None => {
                assert(texts(dirs@) =~= before + path_and_above(here@));
                return dirs;
            },
        }
    }
}

/// The last of the components that is neither empty nor `.`.
pub open spec fn last_component(parts: Seq<Seq<char>>) -> Option<Seq<char>>
    decreases parts.len(),
{
    if parts.len() == 0 {
        None
    } else if parts.last().len() == 0 || parts.last() == "."@ {
        last_component(parts.drop_last())
    } else {
        Some(parts.last())
    }
}

/// The name of what `path` leads to; `None` when it ends in `..` or leads
/// nowhere.
pub open spec fn file_name(path: Seq<char>) -> Option<Seq<char>> {
    match last_component(pieces(path, '/')) {
        Some(name) => if name == ".."@ {
            None
        } else {
            Some(name)
        },
        None => None,
    }
}

/// The name of what `path` leads to, as `Path::file_name` gives it.
pub fn file_name_of(path: &str) -> (name: Option<String>)
    ensures
        match name {
            Some(name) => file_name(path@) == Some(name@),
            None => file_name(path@) is None,
        },
{
    let parts = split(path, '/');
    let ghost all = texts(parts@);
    let mut at: usize = parts.len();
    assert(all.take(at as int) =~= all);
    while at > 0 && (parts[at - 1].as_str().is_empty() || same_text(parts[at - 1].as_str(), "."))
        invariant
            at <= parts.len(),
            all == texts(parts@),
            last_component(all) == last_component(all.take(at as int)),
        decreases at,
    {
        assert(all.take(at as int).drop_last() =~= all.take(at - 1));
        assert(all.take(at as int).last() == parts@[at - 1]@);
        at = at - 1;
    }
    if at == 0 {
        return None;
    }
    assert(all.take(at as int).last() == parts@[at - 1]@);
    if same_text(parts[at - 1].as_str(), "..") {
        None
    } else {
        Some(parts[at - 1].clone())
    }
}

/// A path is put below another with one separator between the two, or none
/// where the first ends in one or is empty; an absolute path stands for itself.
pub proof fn law_a_path_below_is_both_with_one_separator(base: Seq<char>, path: Seq<char>)
    ensures
        path.len() > 0 && path[0] == '/' ==> path_below(base, path) == path,
        path.len() == 0 || path[0] != '/' ==> {
            &&& base.is_prefix_of(path_below(base, path))
            &&& path.is_suffix_of(path_below(base, path))
            &&& base.len() == 0 || base.last() == '/' ==> path_below(base, path).len() == base.len()
                + path.len()
            &&& base.len() > 0 && base.last() != '/' ==> path_below(base, path).len() == base.len()
                + path.len() + 1 && path_below(base, path)[base.len() as int] == '/'
        },
{
    let whole = path_below(base, path);
    if path.len() == 0 || path[0] != '/' {
        assert(whole.take(base.len() as int) =~= base);
        assert(whole.skip(whole.len() - path.len()) =~= path);
    }
}

/// What stands directly below a directory stands in it, under its own name.
pub proof fn law_what_is_below_is_found_there(base: Seq<char>, name: Seq<char>)
    requires
        base.len() > 0,
        base.last() != '/',
        base.len() >= 2 ==> !(base.last() == '.' && base[base.len() - 2] == '/'),
        name.len() > 0,
        !name.contains('/'),
        name != "."@,
    ensures
        parent(path_below(base, name)) == Some(base),
        file_name(path_below(base, name)) == (if name == ".."@ {
            None
        } else {
            Some(name)
        }),
{
    let whole = path_below(base, name);
    reveal_strlit(".");
    assert(name[0] != '/') by {
        assert(name.contains(name[0]));
    }
    assert(whole == base + seq!['/'] + name);
    assert(whole.last() == name.last());
    assert(name.last() != '/') by {
        assert(name.contains(name[name.len() - 1]));
    }
    if whole.last() == '.' && whole[whole.len() - 2] == '/' {
        if name.len() == 1 {
            assert(name =~= "."@);
        } else {
            assert(whole[whole.len() - 2] == name[name.len() - 2]);
            assert(name.contains(name[name.len() - 2]));
        }
    }
    assert(without_tail(whole) == whole);
    lemma_separator_before(base, name);
    let at = base.len() as int;
    assert(whole.take(at) =~= base);
    assert(without_tail(base) == base);
    assert(whole.len() >= 2);
    law_pieces_of_a_path_end_with_its_name(base, name);
}

proof fn lemma_separator_before(base: Seq<char>, name: Seq<char>)
    requires
        !name.contains('/'),
    ensures
        last_separator(base + seq!['/'] + name) == base.len(),
    decreases name.len(),
{
    let whole = base + seq!['/'] + name;
    if name.len() == 0 {
        assert(whole.last() == '/');
    } else {
        let shorter = name.drop_last();
        assert(name.contains(name[name.len() - 1]));
        assert(whole.drop_last() =~= base + seq!['/'] + shorter);
        assert forall|i: int| 0 <= i < shorter.len() implies #[trigger] shorter[i] != '/' by {
            assert(name.contains(name[i]));
        }
        lemma_separator_before(base, shorter);
    }
}

/// The last piece of a path is the name it ends with, whatever comes before.
pub proof fn law_pieces_of_a_path_end_with_its_name(base: Seq<char>, name: Seq<char>)
    requires
        !name.contains('/'),
    ensures
        pieces(base + seq!['/'] + name, '/').last() == name,
        pieces(base + seq!['/'] + name, '/').len() >= 2,
    decreases base.len(),
{
    let whole = base + seq!['/'] + name;
    let at = first_index(whole, '/');
    lemma_first_index(whole, '/');
    if at > base.len() {
        assert(whole[base.len() as int] != '/');
    }
    let rest = whole.skip(at + 1);
    if at == base.len() {
        assert(rest =~= name);
        assert forall|i: int| 0 <= i < name.len() implies #[trigger] name[i] != '/' by {
            assert(name.contains(name[i]));
        }
        lemma_first_index_is(name, '/', name.len() as int);
        assert(pieces(name, '/') =~= seq![name]);
    } else {
        let shorter = base.skip(at + 1);
        assert(rest =~= shorter + seq!['/'] + name);
        law_pieces_of_a_path_end_with_its_name(shorter, name);
    }
}

/// Going up begins at the path itself, goes from each to the directory it
/// stands in, and ends where there is none.
pub proof fn law_going_up_goes_parent_by_parent(path: Seq<char>)
    ensures
        path_and_above(path).len() > 0,
        path_and_above(path)[0] == path,
        forall|i: int|
            0 <= i < path_and_above(path).len() - 1 ==> parent(#[trigger] path_and_above(path)[i])
                == Some(path_and_above(path)[i + 1]),
        parent(path_and_above(path).last()) is None,
    decreases path.len(),
{
    law_parent_is_shorter(path);
    let all = path_and_above(path);
    if let Some(up) = parent(path) {
        law_going_up_goes_parent_by_parent(up);
        let above = path_and_above(up);
        assert(all == seq![path] + above);
        assert forall|i: int| 0 <= i < all.len() - 1 implies parent(#[trigger] all[i]) == Some(
            all[i + 1],
        ) by {
            if i > 0 {
                assert(all[i] == above[i - 1]);
                assert(all[i + 1] == above[i]);
            }
        }
    }
}

} // verus!
