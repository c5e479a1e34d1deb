//! Parts of texts: lines, words, pieces and what stands between separators.
use crate::text::{
    characters, first_at, has_prefix, has_suffix, same_text, split_first, split_once, starts_with,
    text_of, views,
};
use vstd::prelude::*;

verus! {

/// The first characters of a text, `count` at most.
pub open spec fn leading(text: Seq<char>, count: nat) -> Seq<char> {
    if text.len() <= count {
        text
    } else {
        text.take(count as int)
    }
}

/// The first characters of a text, `count` at most.
pub fn leading_chars(text: &str, count: usize) -> (result: String)
    ensures
        result@ == leading(text@, count as nat),
{
    let list = characters(text);
    if list.len() <= count {
        return text.to_owned();
    }
    let result = text_of(&list, 0, count);
    assert(text@.subrange(0, count as int) =~= text@.take(count as int));
    result
}

/// A text without what it starts with, where it starts with that.
pub open spec fn after_prefix(text: Seq<char>, prefix: Seq<char>) -> Option<Seq<char>> {
    if has_prefix(text, prefix) {
        Some(text.skip(prefix.len() as int))
    } else {
        None
    }
}

/// A text without what it starts with, where it starts with that.
pub fn strip_prefix(text: &str, prefix: &str) -> (rest: Option<String>)
    ensures
        match rest {
            Some(rest) => after_prefix(text@, prefix@) == Some(rest@),
            None => after_prefix(text@, prefix@) is None,
        },
{
    if !starts_with(text, prefix) {
        return None;
    }
    let list = characters(text);
    let skipped = characters(prefix).len();
    let rest = text_of(&list, skipped, list.len());
    assert(text@.subrange(skipped as int, text@.len() as int) =~= text@.skip(skipped as int));
    Some(rest)
}

/// A text without what it ends with, where it ends with that.
pub open spec fn before_suffix(text: Seq<char>, suffix: Seq<char>) -> Option<Seq<char>> {
    if has_suffix(text, suffix) {
        Some(text.take(text.len() - suffix.len()))
    } else {
        None
    }
}

/// A text without what it ends with, where it ends with that.
pub fn strip_suffix(text: &str, suffix: &str) -> (rest: Option<String>)
    ensures
        match rest {
            Some(rest) => before_suffix(text@, suffix@) == Some(rest@),
            None => before_suffix(text@, suffix@) is None,
        },
{
    if !crate::text::ends_with(text, suffix) {
        return None;
    }
    let list = characters(text);
    let cut = characters(suffix).len();
    let rest = text_of(&list, 0, list.len() - cut);
    assert(text@.subrange(0, text@.len() - cut) =~= text@.take(text@.len() - cut));
    Some(rest)
}

/// A line without the carriage return at its end.
pub open spec fn without_return(line: Seq<char>) -> Seq<char> {
    if line.len() > 0 && line.last() == '\r' {
        line.drop_last()
    } else {
        line
    }
}

proof fn lemma_first_at(text: Seq<char>, separator: char)
    ensures
        0 <= first_at(text, separator) <= text.len(),
        first_at(text, separator) < text.len() ==> text[first_at(text, separator)] == separator,
        forall|i: int| 0 <= i < first_at(text, separator) ==> text[i] != separator,
    decreases text.len(),
{
    if text.len() > 0 && text[0] != separator {
        let rest = text.skip(1);
        lemma_first_at(rest, separator);
        assert forall|i: int| 0 <= i < first_at(text, separator) implies text[i] != separator by {
            if i > 0 {
                assert(text[i] == rest[i - 1]);
            }
        }
    }
}

/// The lines of a text, without their ends. A last line end starts no line.
pub open spec fn lines(text: Seq<char>) -> Seq<Seq<char>>
    decreases text.len(),
    via lines_decrease
{
    if text.len() == 0 {
        Seq::empty()
    } else {
        let at = first_at(text, '\n');
        if at >= text.len() {
            seq![text]
        } else {
            seq![without_return(text.take(at))] + lines(text.skip(at + 1))
        }
    }
}

#[via_fn]
proof fn lines_decrease(text: Seq<char>) {
    lemma_first_at(text, '\n');
}

/// The lines of a text.
pub fn text_lines(text: &str) -> (result: Vec<String>)
    ensures
        views(result@) == lines(text@),
{
    let mut result: Vec<String> = Vec::new();
    let mut rest = text.to_owned();
    assert(views(result@) + lines(rest@) =~= lines(text@));
    loop
        invariant_except_break
            views(result@) + lines(rest@) == lines(text@),
        ensures
            views(result@) == lines(text@),
        decreases rest@.len(),
    {
        proof {
            reveal_strlit("");
            lemma_first_at(rest@, '\n');
            if rest@.len() == 0 {
                assert(rest@ =~= ""@);
                assert(views(result@) + lines(rest@) =~= views(result@));
            }
        }
        if same_text(rest.as_str(), "") {
            break ;
        }
        let ghost before = views(result@);
        match split_once(rest.as_str(), '\n') {
            None => {
                assert(first_at(rest@, '\n') >= rest@.len());
                let ghost line = rest@;
                result.push(rest);
                assert(views(result@) =~= before + seq![line]);
                break ;
            },
            Some((line, after)) => {
                let list = characters(line.as_str());
                let count = list.len();
                let ghost whole = line@;
                let kept = if count > 0 && list[count - 1] == '\r' {
                    let kept = text_of(&list, 0, count - 1);
                    assert(kept@ =~= whole.drop_last());
                    kept
                } else {
                    line
                };
                assert(kept@ == without_return(whole));
                result.push(kept);
                proof {
                    assert(views(result@) =~= before + seq![without_return(whole)]);
                    assert(before + (seq![without_return(whole)] + lines(after@)) =~= (before
                        + seq![without_return(whole)]) + lines(after@));
                }
                rest = after;
            },
        }
    }
    result
}

/// Whether a text holds another from the place `i` on.
pub open spec fn stands_at(text: Seq<char>, part: Seq<char>, i: int) -> bool {
    0 <= i && i + part.len() <= text.len() && text.subrange(i, i + part.len()) == part
}

/// Where a text first holds another, from `from` on.
pub open spec fn find_part(text: Seq<char>, part: Seq<char>, from: int) -> Option<int>
    decreases text.len() + 1 - from,
{
    if from + part.len() > text.len() {
        None
    } else if stands_at(text, part, from) {
        Some(from)
    } else {
        find_part(text, part, from + 1)
    }
}

/// Whether a text holds another.
pub open spec fn holds(text: Seq<char>, part: Seq<char>) -> bool {
    find_part(text, part, 0) is Some
}

/// A text holds another exactly where that stands at some place in it.
pub proof fn law_holds_at_a_place(text: Seq<char>, part: Seq<char>)
    ensures
        holds(text, part) <==> exists|i: int| #[trigger] stands_at(text, part, i),
{
    lemma_find_part(text, part, 0);
}

proof fn lemma_find_part(text: Seq<char>, part: Seq<char>, from: int)
    requires
        from >= 0,
    ensures
        match find_part(text, part, from) {
            Some(at) => from <= at && stands_at(text, part, at),
            None => forall|i: int| from <= i ==> !#[trigger] stands_at(text, part, i),
        },
    decreases text.len() + 1 - from,
{
    if from + part.len() <= text.len() && !stands_at(text, part, from) {
        lemma_find_part(text, part, from + 1);
        if find_part(text, part, from + 1) is None {
            assert forall|i: int| from <= i implies !#[trigger] stands_at(text, part, i) by {}
        }
    }
}

fn find_from(list: &Vec<char>, part: &Vec<char>, from: usize) -> (found: Option<usize>)
    requires
        from <= list.len(),
    ensures
        match found {
            Some(at) => find_part(list@, part@, from as int) == Some(at as int) && from <= at
                && at + part.len() <= list.len(),
            None => find_part(list@, part@, from as int) is None,
        },
{
    let mut i: usize = from;
    while i <= list.len() && part.len() <= list.len() - i
        invariant
            from <= i <= list.len() + 1,
            from <= list.len(),
            find_part(list@, part@, from as int) == find_part(list@, part@, i as int),
        decreases list.len() + 1 - i,
    {
        let mut same = true;
        let mut k: usize = 0;
        while k < part.len() && same
            invariant
                k <= part.len(),
                i + part.len() <= list.len(),
                same ==> forall|m: int| 0 <= m < k ==> #[trigger] list[i + m] == part[m],
                !same ==> exists|m: int| 0 <= m < part.len() && #[trigger] list[i + m] != part[m],
            decreases part.len() - k,
        {
            if list[i + k] != part[k] {
                assert(list[i + k as int] != part[k as int]);
                same = false;
            }
            k += 1;
        }
        proof {
            let piece = list@.subrange(i as int, i + part.len());
            if same {
                assert forall|m: int| 0 <= m < part.len() implies piece[m] == part[m] by {
                    assert(list[i + m] == part[m]);
                }
                assert(piece =~= part@);
            } else {
                let m = choose|m: int| 0 <= m < part.len() && #[trigger] list[i + m] != part[m];
                assert(piece[m] != part[m]);
            }
        }
        if same {
            return Some(i);
        }
        i += 1;
    }
    None
}

/// Whether a text holds another.
pub fn contains_part(text: &str, part: &str) -> (found: bool)
    ensures
        found == holds(text@, part@),
{
    let list = characters(text);
    let wanted = characters(part);
    find_from(&list, &wanted, 0).is_some()
}

/// A text from `from` on with `with` for every `part`.
pub open spec fn replaced(text: Seq<char>, part: Seq<char>, with: Seq<char>, from: int) -> Seq<char>
    decreases text.len() - from,
    via replaced_decrease
{
    if part.len() == 0 || from > text.len() || from < 0 {
        text.skip(from)
    } else {
        match find_part(text, part, from) {
            Some(at) => text.subrange(from, at) + with + replaced(
                text,
                part,
                with,
                at + part.len(),
            ),
            None => text.skip(from),
        }
    }
}

#[via_fn]
proof fn replaced_decrease(text: Seq<char>, part: Seq<char>, with: Seq<char>, from: int) {
    if from >= 0 {
        lemma_find_part(text, part, from);
    }
}

/// A text with `with` for every `part`. What is put in is not looked through.
pub fn replace_parts(text: &str, part: &str, with: &str) -> (result: String)
    requires
        part@.len() > 0,
    ensures
        result@ == replaced(text@, part@, with@, 0),
{
    let list = characters(text);
    let wanted = characters(part);
    let mut result = String::new();
    let mut from: usize = 0;
    assert(result@ + replaced(list@, wanted@, with@, 0) =~= replaced(text@, part@, with@, 0));
    loop
        invariant_except_break
            result@ + replaced(list@, wanted@, with@, from as int) == replaced(
                text@,
                part@,
                with@,
                0,
            ),
        invariant
            from <= list.len(),
            list@ == text@,
            wanted@ == part@,
            part@.len() > 0,
        ensures
            result@ == replaced(text@, part@, with@, 0),
        decreases list.len() - from,
    {
        match find_from(&list, &wanted, from) {
            Some(at) => {
                let piece = text_of(&list, from, at);
                let ghost before = result@;
                result.push_str(piece.as_str());
                result.push_str(with);
                proof {
                    let rest = replaced(list@, wanted@, with@, at + wanted.len());
                    assert(before + (list@.subrange(from as int, at as int) + with@ + rest) =~= (
                    before + list@.subrange(from as int, at as int) + with@) + rest);
                }
                from = at + wanted.len();
            },
            None => {
                let piece = text_of(&list, from, list.len());
                assert(piece@ =~= list@.skip(from as int));
                result.push_str(piece.as_str());
                break ;
            },
        }
    }
    result
}

/// What stands between separators: the part `index` of a text, from `from` on.
pub open spec fn nth_part(text: Seq<char>, separator: char, index: nat) -> Option<Seq<char>>
    decreases index,
{
    match split_first(text, separator) {
        Some((before, after)) => if index == 0 {
            Some(before)
        } else {
            nth_part(after, separator, (index - 1) as nat)
        },
        None => if index == 0 {
            Some(text)
        } else {
            None
        },
    }
}

/// The part `index` of a text that separators part.
pub fn split_part(text: &str, separator: char, index: usize) -> (part: Option<String>)
    ensures
        match part {
            Some(part) => nth_part(text@, separator, index as nat) == Some(part@),
            None => nth_part(text@, separator, index as nat) is None,
        },
    decreases index,
{
    match split_once(text, separator) {
        Some((before, after)) => {
            if index == 0 {
                Some(before)
            } else {
                split_part(after.as_str(), separator, index - 1)
            }
        },
        None => {
            if index == 0 {
                Some(text.to_owned())
            } else {
                None
            }
        },
    }
}

/// The start of a text is its first characters, as many as are wanted or there are.
pub proof fn law_start_of_a_text(text: Seq<char>, count: nat)
    ensures
        has_prefix(text, leading(text, count)),
        leading(text, count).len() <= count,
        text.len() <= count ==> leading(text, count) == text,
        text.len() >= count ==> leading(text, count).len() == count,
{
    assert(text.take(leading(text, count).len() as int) =~= leading(text, count));
}

/// What is taken off a text was there: put back, it is the text again.
pub proof fn law_what_is_taken_off_was_there(text: Seq<char>, part: Seq<char>)
    ensures
        after_prefix(part + text, part) == Some(text),
        before_suffix(text + part, part) == Some(text),
        after_prefix(text, part) matches Some(rest) ==> part + rest == text,
        before_suffix(text, part) matches Some(rest) ==> rest + part == text,
{
    assert((part + text).take(part.len() as int) =~= part);
    assert((part + text).skip(part.len() as int) =~= text);
    assert((text + part).skip(text.len() as int) =~= part);
    assert((text + part).take(text.len() as int) =~= text);
    if let Some(rest) = after_prefix(text, part) {
        assert(part + rest =~= text);
    }
    if let Some(rest) = before_suffix(text, part) {
        assert(rest + part =~= text);
    }
}

proof fn lemma_parted_at_the_first(first: Seq<char>, separator: char, rest: Seq<char>)
    requires
        !first.contains(separator),
    ensures
        crate::text::split_first(first + seq![separator] + rest, separator) == Some((first, rest)),
{
    let text = first + seq![separator] + rest;
    crate::text::lemma_split_first(text, separator);
    assert(text[first.len() as int] == separator);
    assert(text.contains(separator));
    match crate::text::split_first(text, separator) {
        Some((before, after)) => {
            let parted = before + seq![separator] + after;
            assert(parted[before.len() as int] == separator);
            if before.len() < first.len() {
                assert(text[before.len() as int] == first[before.len() as int]);
                assert(first.contains(first[before.len() as int]));
            } else if before.len() > first.len() {
                assert(parted[first.len() as int] == before[first.len() as int]);
                assert(before.contains(before[first.len() as int]));
            }
            assert(before =~= parted.take(before.len() as int));
            assert(first =~= text.take(first.len() as int));
            assert(after =~= parted.skip((before.len() + 1) as int));
            assert(rest =~= text.skip((first.len() + 1) as int));
        },
        None => {},
    }
}

/// A line ends where the text breaks; what follows are the lines of the rest.
pub proof fn law_line_ends_at_the_break(line: Seq<char>, rest: Seq<char>)
    requires
        !line.contains('\n'),
    ensures
        lines(line + seq!['\n'] + rest) == seq![without_return(line)] + lines(rest),
        line.len() > 0 ==> lines(line) == seq![line],
        lines(Seq::<char>::empty()) == Seq::<Seq<char>>::empty(),
        without_return(line + seq!['\r']) == line,
        line.len() == 0 || line.last() != '\r' ==> without_return(line) == line,
{
    lemma_parted_at_the_first(line, '\n', rest);
    crate::text::lemma_split_first(line, '\n');
    assert((line + seq!['\r']).drop_last() =~= line);
}

/// What stands in place of a part stands there once for each time: a part that is
/// replaced by itself leaves the text as it is, and so does one that is not there.
pub proof fn law_replaced_by_itself_is_the_same(text: Seq<char>, part: Seq<char>, with: Seq<char>)
    requires
        part.len() > 0,
    ensures
        replaced(text, part, part, 0) == text,
        !holds(text, part) ==> replaced(text, part, with, 0) == text,
{
    lemma_replaced_by_itself(text, part, 0);
    assert(text.skip(0) =~= text);
}

proof fn lemma_replaced_by_itself(text: Seq<char>, part: Seq<char>, from: int)
    requires
        part.len() > 0,
        0 <= from <= text.len(),
    ensures
        replaced(text, part, part, from) == text.skip(from),
    decreases text.len() - from,
{
    lemma_find_part_stands(text, part, from);
    if let Some(at) = find_part(text, part, from) {
        lemma_replaced_by_itself(text, part, at + part.len());
        assert(text.subrange(from, at) + part + text.skip(at + part.len()) =~= text.skip(from)) by {
            assert(text.subrange(at, at + part.len()) == part);
        }
    }
}

proof fn lemma_find_part_stands(text: Seq<char>, part: Seq<char>, from: int)
    requires
        0 <= from,
    ensures
        find_part(text, part, from) matches Some(at) ==> from <= at && stands_at(text, part, at),
    decreases text.len() + 1 - from,
{
    if from + part.len() <= text.len() && !stands_at(text, part, from) {
        lemma_find_part_stands(text, part, from + 1);
    }
}

/// Parts of a text are counted from its start, each ending at a separator.
pub proof fn law_parts_are_counted_from_the_start(
    first: Seq<char>,
    separator: char,
    rest: Seq<char>,
    index: nat,
)
    requires
        !first.contains(separator),
    ensures
        nth_part(first + seq![separator] + rest, separator, 0) == Some(first),
        nth_part(first + seq![separator] + rest, separator, index + 1) == nth_part(
            rest,
            separator,
            index,
        ),
        nth_part(first, separator, 0) == Some(first),
        nth_part(first, separator, index + 1) is None,
{
    lemma_parted_at_the_first(first, separator, rest);
    crate::text::lemma_split_first(first, separator);
}

} // verus!
