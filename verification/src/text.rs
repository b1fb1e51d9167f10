//! Text as the rest of the library reads and writes it: sequences of
//! characters, lists of them, and the order they sort in.

use vstd::prelude::*;

verus! {

/// `String::push` adds one character at the end and leaves the rest alone.
pub assume_specification[ String::push ](text: &mut String, c: char)
    ensures
        final(text)@ == old(text)@.push(c),
;

/// The characters of `text`, one per element.
pub fn chars_of(text: &str) -> (chars: Vec<char>)
    ensures
        chars@ == text@,
{
    let mut chars: Vec<char> = Vec::new();
    for c in it: text.chars()
        invariant
            it.seq() == text@,
            chars@ == text@.take(it.index() as int),
    {
        proof {
            assert(text@.take(it.index() + 1) =~= text@.take(it.index() as int).push(c));
        }
        chars.push(c);
    }
    assert(text@.take(text@.len() as int) =~= text@);
    chars
}

/// The text made of the characters from `from` up to but not including `to`.
pub fn text_between(chars: &Vec<char>, from: usize, to: usize) -> (text: String)
    requires
        from <= to <= chars@.len(),
    ensures
        text@ == chars@.subrange(from as int, to as int),
{
    let mut text = String::new();
    let mut at: usize = from;
    while at < to
        invariant
            from <= at <= to <= chars@.len(),
            text@ == chars@.subrange(from as int, at as int),
        decreases to - at,
    {
        text.push(chars[at]);
        at = at + 1;
        assert(chars@.subrange(from as int, at as int) =~= chars@.subrange(
            from as int,
            at - 1,
        ).push(chars@[at - 1]));
    }
    text
}

/// Whether two texts hold the same characters.
pub fn same_text(a: &str, b: &str) -> (same: bool)
    ensures
        same == (a@ == b@),
{
    let left = chars_of(a);
    let right = chars_of(b);
    if left.len() != right.len() {
        return false;
    }
    let mut at: usize = 0;
    while at < left.len()
        invariant
            left@ == a@,
            right@ == b@,
            left.len() == right.len(),
            at <= left.len(),
            forall|i: int| 0 <= i < at ==> left@[i] == right@[i],
        decreases left.len() - at,
    {
        if left[at] != right[at] {
            assert(a@[at as int] != b@[at as int]);
            return false;
        }
        at = at + 1;
    }
    assert(a@ =~= b@);
    true
}

/// What each value of a list stands for.
pub open spec fn views<T: View>(list: Seq<T>) -> Seq<T::V> {
    Seq::new(list.len(), |i: int| list[i]@)
}

/// What an optional value stands for.
pub open spec fn opt_view<T: View>(value: Option<T>) -> Option<T::V> {
    match value {
        Some(value) => Some(value@),
        None => None,
    }
}

/// What each of several texts holds.
pub open spec fn texts(list: Seq<String>) -> Seq<Seq<char>> {
    Seq::new(list.len(), |i: int| list[i]@)
}

/// A copy of several texts.
pub fn copy_texts(list: &Vec<String>) -> (copies: Vec<String>)
    ensures
        copies@ == list@,
{
    let mut copies: Vec<String> = Vec::new();
    let mut at: usize = 0;
    while at < list.len()
        invariant
            at <= list.len(),
            copies@ == list@.take(at as int),
        decreases list.len() - at,
    {
        copies.push(list[at].clone());
        at = at + 1;
        assert(list@.take(at as int) =~= list@.take(at - 1).push(list@[at - 1]));
    }
    assert(list@.take(at as int) =~= list@);
    copies
}

/// Where the first of `list` equal to `text` stands.
pub fn position_of(list: &Vec<String>, text: &str) -> (at: Option<usize>)
    ensures
        match at {
            Some(i) => i < list.len() && list@[i as int]@ == text@ && forall|j: int|
                0 <= j < i ==> (#[trigger] list@[j])@ != text@,
            None => forall|j: int| 0 <= j < list.len() ==> (#[trigger] list@[j])@ != text@,
        },
{
    let mut at: usize = 0;
    while at < list.len()
        invariant
            at <= list.len(),
            forall|j: int| 0 <= j < at ==> (#[trigger] list@[j])@ != text@,
        decreases list.len() - at,
    {
        if same_text(list[at].as_str(), text) {
            return Some(at);
        }
        at = at + 1;
    }
    None
}

/// Whether one of `list` is equal to `text`.
pub fn holds(list: &Vec<String>, text: &str) -> (found: bool)
    ensures
        found == texts(list@).contains(text@),
{
    match position_of(list, text) {
        Some(i) => {
            assert(texts(list@)[i as int] == text@);
            true
        },
        None => {
            assert forall|j: int| 0 <= j < list.len() implies texts(list@)[j] != text@ by {
                assert(list@[j]@ != text@);
            }
            false
        },
    }
}

/// How `Debug` writes a text: quoted, with escapes.
pub uninterp spec fn debug_text(text: Seq<char>) -> Seq<char>;

/// `format!("{:?}", text)`, a function of its argument alone.
#[verifier::external_body]
pub(crate) fn debug_of(text: &str) -> (quoted: String)
    ensures
        quoted@ == debug_text(text@),
{
    format!("{:?}", text)
}

/// The order text sorts in: character by character, a prefix before what it
/// begins.
pub open spec fn sorts_before(a: Seq<char>, b: Seq<char>) -> bool
    decreases a.len(),
{
    if b.len() == 0 {
        false
    } else if a.len() == 0 {
        true
    } else if a[0] == b[0] {
        sorts_before(a.skip(1), b.skip(1))
    } else {
        a[0] < b[0]
    }
}

/// Whether `a` sorts before `b`.
pub fn is_before(a: &str, b: &str) -> (before: bool)
    ensures
        before == sorts_before(a@, b@),
{
    let left = chars_of(a);
    let right = chars_of(b);
    let mut at: usize = 0;
    assert(left@.skip(0) =~= left@);
    assert(right@.skip(0) =~= right@);
    while at < left.len() && at < right.len()
        invariant
            left@ == a@,
            right@ == b@,
            at <= left.len(),
            at <= right.len(),
            sorts_before(a@, b@) == sorts_before(left@.skip(at as int), right@.skip(at as int)),
        decreases left.len() - at,
    {
        if left[at] != right[at] {
            return left[at] < right[at];
        }
        assert(left@.skip(at as int).skip(1) =~= left@.skip(at + 1));
        assert(right@.skip(at as int).skip(1) =~= right@.skip(at + 1));
        at = at + 1;
    }
    at < right.len()
}

/// No text sorts before itself.
pub proof fn law_order_is_irreflexive(a: Seq<char>)
    ensures
        !sorts_before(a, a),
    decreases a.len(),
{
    if a.len() > 0 {
        law_order_is_irreflexive(a.skip(1));
    }
}

/// Of two different texts one sorts before the other.
pub proof fn law_order_is_total(a: Seq<char>, b: Seq<char>)
    ensures
        a == b || sorts_before(a, b) || sorts_before(b, a),
    decreases a.len(),
{
    if a.len() > 0 && b.len() > 0 && a[0] == b[0] {
        law_order_is_total(a.skip(1), b.skip(1));
        if a.skip(1) == b.skip(1) {
            assert(a =~= seq![a[0]] + a.skip(1));
            assert(b =~= seq![b[0]] + b.skip(1));
        }
    } else if a.len() == 0 && b.len() == 0 {
        assert(a =~= b);
    }
}

/// What sorts before something that sorts before a third sorts before the
/// third.
pub proof fn law_order_is_transitive(a: Seq<char>, b: Seq<char>, c: Seq<char>)
    requires
        sorts_before(a, b),
        sorts_before(b, c),
    ensures
        sorts_before(a, c),
    decreases a.len(),
{
    if a.len() > 0 && a[0] == b[0] && b[0] == c[0] {
        law_order_is_transitive(a.skip(1), b.skip(1), c.skip(1));
    }
}

/// Two texts sort by the first character in which they differ, and one that
/// merely goes on sorts after the other.
pub proof fn law_the_first_difference_decides(
    same: Seq<char>,
    a: char,
    b: char,
    left: Seq<char>,
    right: Seq<char>,
)
    ensures
        a < b ==> sorts_before(same.push(a) + left, same.push(b) + right),
        sorts_before(same, same.push(a) + left),
    decreases same.len(),
{
    let (one, other) = (same.push(a) + left, same.push(b) + right);
    if same.len() > 0 {
        let rest = same.skip(1);
        law_the_first_difference_decides(rest, a, b, left, right);
        assert(one.skip(1) =~= rest.push(a) + left);
        assert(other.skip(1) =~= rest.push(b) + right);
        assert(one[0] == same[0] && other[0] == same[0]);
    } else {
        assert(one[0] == a && other[0] == b);
    }
}

} // verus!
