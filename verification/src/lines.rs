//! Taking text apart and putting it together: white space, separators, lines
//! and substitution.

use crate::text::{chars_of, same_text, text_between, texts};
use vstd::prelude::*;

verus! {

/// Whether `c` is white space, as `char::is_whitespace` counts it.
pub open spec fn is_space(c: char) -> bool {
    ||| '\u{9}' <= c <= '\u{d}'
    ||| c == '\u{20}'
    ||| c == '\u{85}'
    ||| c == '\u{a0}'
    ||| c == '\u{1680}'
    ||| '\u{2000}' <= c <= '\u{200a}'
    ||| c == '\u{2028}'
    ||| c == '\u{2029}'
    ||| c == '\u{202f}'
    ||| c == '\u{205f}'
    ||| c == '\u{3000}'
}

fn space_is(c: char) -> (yes: bool)
    ensures
        yes == is_space(c),
{
    ('\u{9}' <= c && c <= '\u{d}') || c == '\u{20}' || c == '\u{85}' || c == '\u{a0}' || c
        == '\u{1680}' || ('\u{2000}' <= c && c <= '\u{200a}') || c == '\u{2028}' || c == '\u{2029}'
        || c == '\u{202f}' || c == '\u{205f}' || c == '\u{3000}'
}

/// Whether `text` holds nothing but white space.
pub open spec fn is_blank(text: Seq<char>) -> bool {
    forall|i: int| 0 <= i < text.len() ==> is_space(#[trigger] text[i])
}

/// Whether `text` holds nothing but white space.
pub fn blank(text: &str) -> (yes: bool)
    ensures
        yes == is_blank(text@),
{
    let chars = chars_of(text);
    let mut at: usize = 0;
    while at < chars.len()
        invariant
            chars@ == text@,
            at <= chars.len(),
            forall|i: int| 0 <= i < at ==> is_space(#[trigger] text@[i]),
        decreases chars.len() - at,
    {
        if !space_is(chars[at]) {
            assert(!is_space(text@[at as int]));
            return false;
        }
        at = at + 1;
    }
    true
}

/// `text` without the white space it begins with.
pub open spec fn trimmed_start(text: Seq<char>) -> Seq<char>
    decreases text.len(),
{
    if text.len() > 0 && is_space(text[0]) {
        trimmed_start(text.skip(1))
    } else {
        text
    }
}

/// `text` without the white space it ends with.
pub open spec fn trimmed_end(text: Seq<char>) -> Seq<char>
    decreases text.len(),
{
    if text.len() > 0 && is_space(text.last()) {
        trimmed_end(text.drop_last())
    } else {
        text
    }
}

/// `text` without the white space around it.
pub open spec fn trimmed(text: Seq<char>) -> Seq<char> {
    trimmed_end(trimmed_start(text))
}

/// `text` without the white space around it, as `str::trim` gives it.
pub fn trim(text: &str) -> (inner: String)
    ensures
        inner@ == trimmed(text@),
{
    let chars = chars_of(text);
    let mut from: usize = 0;
    assert(chars@.skip(0) =~= chars@);
    while from < chars.len() && space_is(chars[from])
        invariant
            from <= chars.len(),
            trimmed_start(chars@) == trimmed_start(chars@.skip(from as int)),
        decreases chars.len() - from,
    {
        assert(chars@.skip(from as int).skip(1) =~= chars@.skip(from + 1));
        from = from + 1;
    }
    let ghost rest = chars@.skip(from as int);
    assert(trimmed_start(chars@) == rest);
    let mut to: usize = chars.len();
    assert(chars@.subrange(from as int, to as int) =~= rest);
    while to > from && space_is(chars[to - 1])
        invariant
            from <= to <= chars.len(),
            trimmed_end(rest) == trimmed_end(chars@.subrange(from as int, to as int)),
        decreases to,
    {
        assert(chars@.subrange(from as int, to as int).drop_last() =~= chars@.subrange(
            from as int,
            to - 1,
        ));
        to = to - 1;
    }
    text_between(&chars, from, to)
}

/// `text` without the newlines it ends with.
pub open spec fn without_final_newlines(text: Seq<char>) -> Seq<char>
    decreases text.len(),
{
    if text.len() > 0 && text.last() == '\n' {
        without_final_newlines(text.drop_last())
    } else {
        text
    }
}

/// `text` without the newlines it ends with.
pub fn trim_final_newlines(text: &str) -> (inner: String)
    ensures
        inner@ == without_final_newlines(text@),
{
    let chars = chars_of(text);
    let mut to: usize = chars.len();
    assert(chars@.take(to as int) =~= chars@);
    while to > 0 && chars[to - 1] == '\n'
        invariant
            to <= chars.len(),
            without_final_newlines(chars@) == without_final_newlines(chars@.take(to as int)),
        decreases to,
    {
        assert(chars@.take(to as int).drop_last() =~= chars@.take(to - 1));
        to = to - 1;
    }
    assert(chars@.subrange(0, to as int) =~= chars@.take(to as int));
    text_between(&chars, 0, to)
}

/// Trimming leaves nothing exactly when there was nothing but white space.
pub proof fn law_blank_text_trims_to_nothing(text: Seq<char>)
    ensures
        is_blank(text) <==> trimmed(text).len() == 0,
{
    lemma_trimmed_start_is_blank(text);
    lemma_trimmed_end_is_blank(trimmed_start(text));
}

proof fn lemma_trimmed_start_is_blank(text: Seq<char>)
    ensures
        is_blank(text) <==> trimmed_start(text).len() == 0,
        is_blank(text) <==> is_blank(trimmed_start(text)),
    decreases text.len(),
{
    if text.len() > 0 && is_space(text[0]) {
        lemma_trimmed_start_is_blank(text.skip(1));
        if is_blank(text.skip(1)) {
            assert forall|i: int| 0 <= i < text.len() implies is_space(#[trigger] text[i]) by {
                if i > 0 {
                    assert(text[i] == text.skip(1)[i - 1]);
                }
            }
        } else {
            let i = choose|i: int|
                0 <= i < text.skip(1).len() && !is_space(#[trigger] text.skip(1)[i]);
            assert(!is_space(text[i + 1]));
        }
    } else if text.len() > 0 {
        assert(!is_space(text[0]));
    }
}

proof fn lemma_trimmed_end_is_blank(text: Seq<char>)
    ensures
        is_blank(text) <==> trimmed_end(text).len() == 0,
    decreases text.len(),
{
    if text.len() > 0 && is_space(text.last()) {
        lemma_trimmed_end_is_blank(text.drop_last());
        if is_blank(text.drop_last()) {
            assert forall|i: int| 0 <= i < text.len() implies is_space(#[trigger] text[i]) by {
                if i < text.len() - 1 {
                    assert(text[i] == text.drop_last()[i]);
                }
            }
        } else {
            let i = choose|i: int|
                0 <= i < text.drop_last().len() && !is_space(#[trigger] text.drop_last()[i]);
            assert(!is_space(text[i]));
        }
    } else if text.len() > 0 {
        assert(!is_space(text[text.len() - 1]));
    }
}

/// Where `c` first stands in `text`, or the length of `text` when it does not.
pub open spec fn first_index(text: Seq<char>, c: char) -> int
    decreases text.len(),
{
    if text.len() == 0 || text[0] == c {
        0
    } else {
        1 + first_index(text.skip(1), c)
    }
}

pub proof fn lemma_first_index(text: Seq<char>, c: char)
    ensures
        0 <= first_index(text, c) <= text.len(),
        first_index(text, c) < text.len() ==> text[first_index(text, c)] == c,
        forall|i: int| 0 <= i < first_index(text, c) ==> #[trigger] text[i] != c,
    decreases text.len(),
{
    if text.len() > 0 && text[0] != c {
        lemma_first_index(text.skip(1), c);
        assert forall|i: int| 0 <= i < first_index(text, c) implies #[trigger] text[i] != c by {
            if i > 0 {
                assert(text[i] == text.skip(1)[i - 1]);
            }
        }
    }
}

pub proof fn lemma_first_index_is(text: Seq<char>, c: char, at: int)
    requires
        0 <= at <= text.len(),
        at < text.len() ==> text[at] == c,
        forall|i: int| 0 <= i < at ==> #[trigger] text[i] != c,
    ensures
        first_index(text, c) == at,
{
    lemma_first_index(text, c);
    let found = first_index(text, c);
    if found < at {
        assert(text[found] != c);
    } else if at < found {
        assert(text[at] != c);
    }
}

/// What stands between the `separator`s of `text`; always at least one piece.
pub open spec fn pieces(text: Seq<char>, separator: char) -> Seq<Seq<char>>
    decreases text.len(),
    via pieces_decreases
{
    let at = first_index(text, separator);
    if at < text.len() {
        seq![text.take(at)] + pieces(text.skip(at + 1), separator)
    } else {
        seq![text]
    }
}

#[via_fn]
proof fn pieces_decreases(text: Seq<char>, separator: char) {
    lemma_first_index(text, separator);
}

/// What stands between the `separator`s of `text`, as `str::split` gives it.
pub fn split(text: &str, separator: char) -> (parts: Vec<String>)
    ensures
        texts(parts@) == pieces(text@, separator),
        parts.len() > 0,
{
    let chars = chars_of(text);
    let mut parts: Vec<String> = Vec::new();
    let mut from: usize = 0;
    let mut at: usize = 0;
    assert(chars@.skip(0) =~= chars@);
    assert(texts(parts@) + pieces(chars@.skip(0), separator) =~= pieces(chars@, separator));
    while at < chars.len()
        invariant
            from <= at <= chars.len(),
            forall|i: int| from <= i < at ==> #[trigger] chars@[i] != separator,
            texts(parts@) + pieces(chars@.skip(from as int), separator) == pieces(
                chars@,
                separator,
            ),
        decreases chars.len() - at,
    {
        if chars[at] == separator {
            let piece = text_between(&chars, from, at);
            let ghost rest = chars@.skip(from as int);
            let ghost before = parts@;
            proof {
                assert forall|i: int| 0 <= i < at - from implies #[trigger] rest[i]
                    != separator by {
                    assert(rest[i] == chars@[from + i]);
                }
                lemma_first_index_is(rest, separator, at - from);
                assert(rest.take(at - from) =~= piece@);
                assert(rest.skip(at - from + 1) =~= chars@.skip(at + 1));
            }
            parts.push(piece);
            assert(texts(parts@) =~= texts(before).push(piece@));
            assert(texts(parts@) + pieces(chars@.skip(at + 1), separator) =~= texts(before) + (
            seq![piece@] + pieces(chars@.skip(at + 1), separator)));
            from = at + 1;
        }
        at = at + 1;
    }
    let piece = text_between(&chars, from, chars.len());
    let ghost rest = chars@.skip(from as int);
    let ghost before = parts@;
    proof {
        assert forall|i: int| 0 <= i < rest.len() implies #[trigger] rest[i] != separator by {
            assert(rest[i] == chars@[from + i]);
        }
        lemma_first_index_is(rest, separator, rest.len() as int);
        assert(rest =~= piece@);
    }
    parts.push(piece);
    assert(texts(parts@) =~= texts(before) + seq![piece@]);
    parts
}

/// A line that ended in `\r\n` loses the `\r` too.
pub open spec fn without_return(line: Seq<char>) -> Seq<char> {
    if line.len() > 0 && line.last() == '\r' {
        line.drop_last()
    } else {
        line
    }
}

/// The lines of `text`: what stands before each `\n` or `\r\n`, then what
/// follows the last, unless that is nothing.
pub open spec fn lines(text: Seq<char>) -> Seq<Seq<char>> {
    let parts = pieces(text, '\n');
    let ended = Seq::new((parts.len() - 1) as nat, |i: int| without_return(parts[i]));
    if parts.last().len() == 0 {
        ended
    } else {
        ended.push(parts.last())
    }
}

/// The lines of `text`, as `str::lines` gives them.
pub fn lines_of(text: &str) -> (all: Vec<String>)
    ensures
        texts(all@) == lines(text@),
{
    let parts = split(text, '\n');
    let last: usize = parts.len() - 1;
    let ghost cut = pieces(text@, '\n');
    let mut all: Vec<String> = Vec::new();
    let mut at: usize = 0;
    while at < last
        invariant
            texts(parts@) == cut,
            last + 1 == parts.len(),
            at <= last,
            all.len() == at,
            forall|i: int| 0 <= i < at ==> (#[trigger] all@[i])@ == without_return(cut[i]),
        decreases last - at,
    {
        assert(parts@[at as int]@ == cut[at as int]);
        let chars = chars_of(parts[at].as_str());
        let line = if chars.len() > 0 && chars[chars.len() - 1] == '\r' {
            let line = text_between(&chars, 0, chars.len() - 1);
            assert(line@ =~= chars@.drop_last());
            line
        } else {
            parts[at].clone()
        };
        all.push(line);
        at = at + 1;
    }
    assert(parts@[last as int]@ == cut.last());
    if !parts[last].as_str().is_empty() {
        all.push(parts[last].clone());
    }
    assert(texts(all@) =~= lines(text@));
    all
}

/// The lines that hold more than white space.
pub open spec fn nonblank(all: Seq<Seq<char>>) -> Seq<Seq<char>>
    decreases all.len(),
{
    if all.len() == 0 {
        Seq::empty()
    } else {
        let before = nonblank(all.drop_last());
        if is_blank(all.last()) {
            before
        } else {
            before.push(all.last())
        }
    }
}

/// The lines of `text` that hold more than white space.
pub fn nonblank_lines(text: &str) -> (carrying: Vec<String>)
    ensures
        texts(carrying@) == nonblank(lines(text@)),
{
    let all = lines_of(text);
    let mut carrying: Vec<String> = Vec::new();
    let mut at: usize = 0;
    let ghost cut = lines(text@);
    assert(texts(carrying@) =~= nonblank(cut.take(0)));
    while at < all.len()
        invariant
            at <= all.len(),
            texts(all@) == cut,
            texts(carrying@) == nonblank(cut.take(at as int)),
        decreases all.len() - at,
    {
        let ghost before = carrying@;
        assert(cut.take(at + 1).drop_last() =~= cut.take(at as int));
        assert(cut.take(at + 1).last() == all@[at as int]@);
        if !blank(all[at].as_str()) {
            carrying.push(all[at].clone());
            assert(texts(carrying@) =~= texts(before).push(all@[at as int]@));
        }
        at = at + 1;
    }
    assert(cut.take(at as int) =~= cut);
    carrying
}

/// `text` with every `pattern` in it, leftmost first, replaced by `with`.
pub open spec fn replaced(text: Seq<char>, pattern: Seq<char>, with: Seq<char>) -> Seq<char>
    decreases text.len(),
{
    if pattern.len() == 0 || text.len() < pattern.len() {
        text
    } else if text.take(pattern.len() as int) == pattern {
        with + replaced(text.skip(pattern.len() as int), pattern, with)
    } else {
        seq![text[0]] + replaced(text.skip(1), pattern, with)
    }
}

/// `text` with every `pattern` in it replaced by `with`, as `str::replace`
/// does.
pub fn replace(text: &str, pattern: &str, with: &str) -> (result: String)
    requires
        pattern@.len() > 0,
    ensures
        result@ == replaced(text@, pattern@, with@),
{
    let chars = chars_of(text);
    let wanted = chars_of(pattern);
    let mut result = String::new();
    let mut at: usize = 0;
    assert(chars@.skip(0) =~= chars@);
    assert(result@ + replaced(chars@.skip(0), pattern@, with@) =~= replaced(
        chars@,
        pattern@,
        with@,
    ));
    while chars.len() - at >= wanted.len()
        invariant
            pattern@.len() > 0,
            wanted@ == pattern@,
            at <= chars.len(),
            result@ + replaced(chars@.skip(at as int), pattern@, with@) == replaced(
                chars@,
                pattern@,
                with@,
            ),
        decreases chars.len() - at,
    {
        let ghost rest = chars@.skip(at as int);
        let ghost before = result@;
        let ahead = text_between(&chars, at, at + wanted.len());
        assert(ahead@ =~= rest.take(pattern@.len() as int));
        if same_text(ahead.as_str(), pattern) {
            result.append(with);
            assert(rest.skip(pattern@.len() as int) =~= chars@.skip(at + wanted.len()));
            assert(result@ + replaced(chars@.skip(at + wanted.len()), pattern@, with@) =~= before
                + replaced(rest, pattern@, with@));
            at = at + wanted.len();
        } else {
            result.push(chars[at]);
            assert(rest.skip(1) =~= chars@.skip(at + 1));
            assert(result@ + replaced(chars@.skip(at + 1), pattern@, with@) =~= before + replaced(
                rest,
                pattern@,
                with@,
            ));
            at = at + 1;
        }
    }
    let tail = text_between(&chars, at, chars.len());
    assert(tail@ =~= chars@.skip(at as int));
    result.append(tail.as_str());
    result
}

/// Whether `pattern` stands at `at` in `text`.
pub open spec fn stands_at(text: Seq<char>, pattern: Seq<char>, at: int) -> bool {
    0 <= at <= text.len() - pattern.len() && text.subrange(at, at + pattern.len()) == pattern
}

/// Text that does not hold the pattern comes back unchanged.
pub proof fn law_replacing_what_is_not_there_changes_nothing(
    text: Seq<char>,
    pattern: Seq<char>,
    with: Seq<char>,
)
    requires
        forall|at: int| !#[trigger] stands_at(text, pattern, at),
    ensures
        replaced(text, pattern, with) == text,
    decreases text.len(),
{
    if pattern.len() > 0 && text.len() >= pattern.len() {
        assert(!stands_at(text, pattern, 0));
        assert(text.subrange(0, pattern.len() as int) =~= text.take(pattern.len() as int));
        assert forall|at: int| !#[trigger] stands_at(text.skip(1), pattern, at) by {
            if stands_at(text.skip(1), pattern, at) {
                assert(text.subrange(at + 1, at + 1 + pattern.len()) =~= text.skip(1).subrange(
                    at,
                    at + pattern.len(),
                ));
                assert(stands_at(text, pattern, at + 1));
            }
        }
        law_replacing_what_is_not_there_changes_nothing(text.skip(1), pattern, with);
        assert(seq![text[0]] + text.skip(1) =~= text);
    }
}

/// The texts one after the other, with `between` between each two.
pub open spec fn joined(list: Seq<Seq<char>>, between: Seq<char>) -> Seq<char>
    decreases list.len(),
{
    if list.len() == 0 {
        Seq::empty()
    } else if list.len() == 1 {
        list[0]
    } else {
        joined(list.drop_last(), between) + between + list.last()
    }
}

/// The texts one after the other, with `between` between each two.
pub fn join(list: &Vec<String>, between: &str) -> (text: String)
    ensures
        text@ == joined(texts(list@), between@),
{
    let mut text = String::new();
    let mut at: usize = 0;
    while at < list.len()
        invariant
            at <= list.len(),
            text@ == joined(texts(list@).take(at as int), between@),
        decreases list.len() - at,
    {
        let ghost before = texts(list@).take(at as int);
        let ghost after = texts(list@).take(at + 1);
        if at > 0 {
            text.append(between);
        }
        text.append(list[at].as_str());
        assert(after.drop_last() =~= before);
        assert(after.last() == list@[at as int]@);
        if at == 0 {
            assert(text@ =~= after[0]);
        }
        at = at + 1;
    }
    assert(texts(list@).take(at as int) =~= texts(list@));
    text
}

/// Trimming takes white space from both ends, all of it, and nothing else.
pub proof fn law_trimming_takes_the_white_space_around(text: Seq<char>)
    ensures
        exists|before: Seq<char>, after: Seq<char>|
            is_blank(before) && is_blank(after) && text == #[trigger] (before + trimmed(text)
                + after),
        trimmed(text).len() > 0 ==> !is_space(trimmed(text)[0]) && !is_space(trimmed(text).last()),
{
    let started = trimmed_start(text);
    let before = lemma_trimmed_start(text);
    let after = lemma_trimmed_end(started);
    assert(text =~= before + trimmed(text) + after);
    if trimmed(text).len() > 0 {
        assert(started[0] == trimmed(text)[0]);
    }
}

proof fn lemma_trimmed_start(text: Seq<char>) -> (before: Seq<char>)
    ensures
        is_blank(before),
        text == before + trimmed_start(text),
        trimmed_start(text).len() > 0 ==> !is_space(trimmed_start(text)[0]),
    decreases text.len(),
{
    if text.len() > 0 && is_space(text[0]) {
        let rest = lemma_trimmed_start(text.skip(1));
        let before = seq![text[0]] + rest;
        assert(text =~= seq![text[0]] + text.skip(1));
        assert(text =~= before + trimmed_start(text));
        before
    } else {
        assert(text =~= Seq::empty() + text);
        Seq::empty()
    }
}

proof fn lemma_trimmed_end(text: Seq<char>) -> (after: Seq<char>)
    ensures
        is_blank(after),
        text == trimmed_end(text) + after,
        trimmed_end(text).len() > 0 ==> !is_space(trimmed_end(text).last()),
    decreases text.len(),
{
    if text.len() > 0 && is_space(text.last()) {
        let rest = lemma_trimmed_end(text.drop_last());
        let after = rest.push(text.last());
        assert(text =~= text.drop_last().push(text.last()));
        assert(text =~= trimmed_end(text) + after);
        after
    } else {
        assert(text =~= text + Seq::empty());
        Seq::empty()
    }
}

/// Spaces, tabs and line ends are white space; nothing that prints in ASCII is.
pub proof fn law_what_prints_is_not_white_space(c: char)
    ensures
        c == ' ' || c == '\t' || c == '\n' || c == '\r' ==> is_space(c),
        33 <= c as u32 <= 126 ==> !is_space(c),
{
}

/// Cutting at a separator loses nothing: the pieces hold no separator, and put
/// together again with it between them they are the text.
pub proof fn law_pieces_are_the_text_cut(text: Seq<char>, separator: char)
    ensures
        pieces(text, separator).len() > 0,
        forall|i: int|
            0 <= i < pieces(text, separator).len() ==> !(#[trigger] pieces(text, separator)[i])
                .contains(separator),
        joined(pieces(text, separator), seq![separator]) == text,
    decreases text.len(),
{
    let at = first_index(text, separator);
    lemma_first_index(text, separator);
    let all = pieces(text, separator);
    if at < text.len() {
        let rest = text.skip(at + 1);
        let first = seq![text.take(at)];
        law_pieces_are_the_text_cut(rest, separator);
        assert(all == first + pieces(rest, separator));
        assert forall|i: int| 0 <= i < all.len() implies !(#[trigger] all[i]).contains(
            separator,
        ) by {
            if i > 0 {
                assert(all[i] == pieces(rest, separator)[i - 1]);
            }
        }
        law_joining_goes_on(first, pieces(rest, separator), seq![separator]);
        assert(text =~= text.take(at) + seq![separator] + rest);
    }
}

/// What is joined in two parts is joined whole with the same text between the
/// parts; a single text is joined to itself, and nothing to nothing.
pub proof fn law_joining_goes_on(first: Seq<Seq<char>>, then: Seq<Seq<char>>, between: Seq<char>)
    ensures
        joined(Seq::empty(), between) == Seq::<char>::empty(),
        first.len() == 1 ==> joined(first, between) == first[0],
        first.len() > 0 && then.len() > 0 ==> joined(first + then, between) == joined(
            first,
            between,
        ) + between + joined(then, between),
    decreases then.len(),
{
    if first.len() > 0 && then.len() > 0 {
        let rest = then.drop_last();
        assert((first + then).drop_last() =~= first + rest);
        if rest.len() == 0 {
            assert(first + rest =~= first);
        } else {
            law_joining_goes_on(first, rest, between);
            assert(joined(first, between) + between + joined(rest, between) + between + then.last()
                =~= joined(first, between) + between + (joined(rest, between) + between
                + then.last()));
        }
    }
}

/// A text is read line by line: what stands before the first line end, of
/// either kind, is the first line, and what follows is read as if it stood
/// alone. What ends without a line end is a line too, unless there is nothing.
pub proof fn law_text_is_read_line_by_line(line: Seq<char>, rest: Seq<char>)
    requires
        !line.contains('\n'),
    ensures
        !(line.len() > 0 && line.last() == '\r') ==> lines(line + seq!['\n'] + rest) == seq![line]
            + lines(rest),
        lines(line + seq!['\r', '\n'] + rest) == seq![line] + lines(rest),
        line.len() > 0 ==> lines(line) == seq![line],
        lines(Seq::empty()) == Seq::<Seq<char>>::empty(),
{
    lemma_first_line(line, rest);
    let ended = line.push('\r');
    assert forall|i: int| 0 <= i < ended.len() implies #[trigger] ended[i] != '\n' by {
        if i < line.len() {
            assert(line.contains(line[i]));
        }
    }
    lemma_first_line(ended, rest);
    assert(ended + seq!['\n'] + rest =~= line + seq!['\r', '\n'] + rest);
    assert(ended.drop_last() =~= line);
    assert forall|i: int| 0 <= i < line.len() implies #[trigger] line[i] != '\n' by {
        assert(line.contains(line[i]));
    }
    lemma_first_index_is(line, '\n', line.len() as int);
    if line.len() > 0 {
        assert(lines(line) =~= seq![line]);
    }
    let none = Seq::<char>::empty();
    assert(pieces(none, '\n') =~= seq![none]);
    assert(lines(none) =~= Seq::empty());
}

proof fn lemma_first_line(line: Seq<char>, rest: Seq<char>)
    requires
        !line.contains('\n'),
    ensures
        lines(line + seq!['\n'] + rest) == seq![without_return(line)] + lines(rest),
{
    let text = line + seq!['\n'] + rest;
    let at = line.len() as int;
    assert forall|i: int| 0 <= i < at implies #[trigger] text[i] != '\n' by {
        assert(line.contains(line[i]));
    }
    lemma_first_index_is(text, '\n', at);
    assert(text.take(at) =~= line);
    assert(text.skip(at + 1) =~= rest);
    law_pieces_are_the_text_cut(rest, '\n');
    let parts = pieces(rest, '\n');
    assert(pieces(text, '\n') =~= seq![line] + parts);
    assert(pieces(text, '\n').last() == parts.last());
    assert(lines(text) =~= seq![without_return(line)] + lines(rest));
}

/// Exactly the lines that hold more than white space are kept, in order.
pub proof fn law_blank_lines_are_passed_over(all: Seq<Seq<char>>)
    ensures
        nonblank(all) == all.filter(|line: Seq<char>| !is_blank(line)),
    decreases all.len(),
{
    reveal(Seq::filter);
    if all.len() > 0 {
        law_blank_lines_are_passed_over(all.drop_last());
    } else {
        assert(nonblank(all) =~= all);
    }
}

/// Each pattern is replaced, from the first on: what stands before it stays,
/// and what follows is replaced as if it stood alone, whatever was put in.
pub proof fn law_every_pattern_is_replaced(
    before: Seq<char>,
    pattern: Seq<char>,
    after: Seq<char>,
    with: Seq<char>,
)
    requires
        pattern.len() > 0,
        forall|at: int|
            0 <= at < before.len() ==> !#[trigger] stands_at(before + pattern + after, pattern, at),
    ensures
        replaced(before + pattern + after, pattern, with) == before + with + replaced(
            after,
            pattern,
            with,
        ),
    decreases before.len(),
{
    let text = before + pattern + after;
    if before.len() > 0 {
        let rest = before.skip(1);
        assert(!stands_at(text, pattern, 0));
        assert(text.subrange(0, pattern.len() as int) =~= text.take(pattern.len() as int));
        assert(text.skip(1) =~= rest + pattern + after);
        assert forall|at: int| 0 <= at < rest.len() implies !#[trigger] stands_at(
            rest + pattern + after,
            pattern,
            at,
        ) by {
            if stands_at(text.skip(1), pattern, at) {
                assert(text.subrange(at + 1, at + 1 + pattern.len()) =~= text.skip(1).subrange(
                    at,
                    at + pattern.len(),
                ));
                assert(stands_at(text, pattern, at + 1));
            }
        }
        law_every_pattern_is_replaced(rest, pattern, after, with);
        assert(seq![text[0]] + (rest + with + replaced(after, pattern, with)) =~= before + with
            + replaced(after, pattern, with));
    } else {
        assert(text.take(pattern.len() as int) =~= pattern);
        assert(text.skip(pattern.len() as int) =~= after);
        assert(with + replaced(after, pattern, with) =~= before + with + replaced(
            after,
            pattern,
            with,
        ));
    }
}

/// Line ends at the end are taken off, all of them, and nothing else.
pub proof fn law_final_line_ends_are_taken_off(text: Seq<char>)
    ensures
        exists|after: Seq<char>|
            text == #[trigger] (without_final_newlines(text) + after) && forall|i: int|
                0 <= i < after.len() ==> #[trigger] after[i] == '\n',
        without_final_newlines(text).len() > 0 ==> without_final_newlines(text).last() != '\n',
    decreases text.len(),
{
    let kept = without_final_newlines(text);
    if text.len() > 0 && text.last() == '\n' {
        let rest = text.drop_last();
        law_final_line_ends_are_taken_off(rest);
        let shorter = choose|after: Seq<char>|
            rest == #[trigger] (without_final_newlines(rest) + after) && forall|i: int|
                0 <= i < after.len() ==> #[trigger] after[i] == '\n';
        let after = shorter.push('\n');
        assert(text =~= rest.push('\n'));
        assert(kept == without_final_newlines(rest));
        assert(kept + after =~= (kept + shorter).push('\n'));
        assert(text == kept + after);
    } else {
        let after = Seq::<char>::empty();
        assert(text =~= kept + after);
    }
}

} // verus!
