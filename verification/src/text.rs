//! Text: what the rest of the library says about strings, and the functions
//! that build, cut and compare them.
use vstd::prelude::*;

verus! {

/// `String::push` appends one character.
pub assume_specification[ String::push ](text: &mut String, character: char)
    ensures
        final(text)@ == old(text)@.push(character),
;

/// `String::push_str` appends the characters of its argument.
pub assume_specification[ String::push_str ](text: &mut String, suffix: &str)
    ensures
        final(text)@ == old(text)@ + suffix@,
;

/// `str`'s equality compares the characters.
pub assume_specification[ <str as PartialEq>::eq ](left: &str, right: &str) -> (same: bool)
    ensures
        same == (left@ == right@),
;

/// `char::is_whitespace` tells whether a character has the Unicode property
/// White_Space.
pub assume_specification[ char::is_whitespace ](character: char) -> (white: bool)
    ensures
        white == is_space(character),
;

/// `char::is_control` tells whether a character is in the Unicode category Cc.
pub assume_specification[ char::is_control ](character: char) -> (control: bool)
    ensures
        control == is_control(character),
;

/// The characters with the Unicode property White_Space.
pub open spec fn is_space(character: char) -> bool {
    let code = character as int;
    ||| 0x9 <= code <= 0xd
    ||| code == 0x20
    ||| code == 0x85
    ||| code == 0xa0
    ||| code == 0x1680
    ||| 0x2000 <= code <= 0x200a
    ||| code == 0x2028
    ||| code == 0x2029
    ||| code == 0x202f
    ||| code == 0x205f
    ||| code == 0x3000
}

/// The characters of the Unicode category Cc.
pub open spec fn is_control(character: char) -> bool {
    let code = character as int;
    code <= 0x1f || 0x7f <= code <= 0x9f
}

/// Whether two texts hold the same characters.
pub fn same_text(left: &str, right: &str) -> (same: bool)
    ensures
        same == (left@ == right@),
{
    <str as PartialEq>::eq(left, right)
}

/// The texts of a sequence of strings.
pub open spec fn views(texts: Seq<String>) -> Seq<Seq<char>> {
    Seq::new(texts.len(), |i: int| texts[i]@)
}

/// The texts of an optional string.
pub open spec fn view_option(text: Option<String>) -> Option<Seq<char>> {
    match text {
        Some(text) => Some(text@),
        None => None,
    }
}

/// A copy of an optional string.
pub fn copy_option(text: &Option<String>) -> (copy: Option<String>)
    ensures
        view_option(copy) == view_option(*text),
{
    match text {
        Some(text) => Some(text.clone()),
        None => None,
    }
}

/// A copy of a list of strings.
pub fn copy_texts(texts: &Vec<String>) -> (copy: Vec<String>)
    ensures
        views(copy@) == views(texts@),
{
    let mut copy: Vec<String> = Vec::new();
    let mut i: usize = 0;
    while i < texts.len()
        invariant
            i <= texts.len(),
            copy.len() == i,
            forall|j: int| 0 <= j < i ==> copy[j]@ == texts[j]@,
        decreases texts.len() - i,
    {
        copy.push(texts[i].clone());
        i += 1;
    }
    assert(views(copy@) =~= views(texts@));
    copy
}

/// Whether `text` is one of `texts`.
pub fn contains_text(texts: &Vec<String>, text: &str) -> (found: bool)
    ensures
        found == views(texts@).contains(text@),
{
    let mut i: usize = 0;
    while i < texts.len()
        invariant
            i <= texts.len(),
            forall|j: int| 0 <= j < i ==> texts[j]@ != text@,
        decreases texts.len() - i,
    {
        if same_text(texts[i].as_str(), text) {
            assert(views(texts@)[i as int] == text@);
            return true;
        }
        i += 1;
    }
    assert forall|j: int| 0 <= j < views(texts@).len() implies views(texts@)[j] != text@ by {
        assert(views(texts@)[j] == texts[j]@);
    }
    false
}

/// `parts` in order, with `separator` between neighbours.
pub open spec fn joined(parts: Seq<Seq<char>>, separator: Seq<char>) -> Seq<char>
    decreases parts.len(),
{
    if parts.len() == 0 {
        Seq::empty()
    } else if parts.len() == 1 {
        parts[0]
    } else {
        joined(parts.drop_last(), separator) + separator + parts.last()
    }
}

/// Joins `parts` with `separator`.
pub fn join(parts: &Vec<String>, separator: &str) -> (text: String)
    ensures
        text@ == joined(views(parts@), separator@),
{
    let mut text = String::new();
    let mut i: usize = 0;
    while i < parts.len()
        invariant
            i <= parts.len(),
            text@ == joined(views(parts@).take(i as int), separator@),
        decreases parts.len() - i,
    {
        proof {
            let all = views(parts@);
            assert(all.take(i + 1).drop_last() =~= all.take(i as int));
            assert(all.take(i + 1).last() == all[i as int]);
            if i == 0 {
                assert(text@ + parts[0]@ =~= parts[0]@);
            }
        }
        if i > 0 {
            text.push_str(separator);
        }
        text.push_str(parts[i].as_str());
        i += 1;
    }
    assert(views(parts@).take(i as int) =~= views(parts@));
    text
}

/// Two texts, one after the other.
pub fn concat2(first: &str, second: &str) -> (text: String)
    ensures
        text@ == first@ + second@,
{
    let mut text = first.to_owned();
    text.push_str(second);
    text
}

/// Three texts, one after the other.
pub fn concat3(first: &str, second: &str, third: &str) -> (text: String)
    ensures
        text@ == first@ + second@ + third@,
{
    let mut text = concat2(first, second);
    text.push_str(third);
    text
}

/// Four texts, one after the other.
pub fn concat4(first: &str, second: &str, third: &str, fourth: &str) -> (text: String)
    ensures
        text@ == first@ + second@ + third@ + fourth@,
{
    let mut text = concat3(first, second, third);
    text.push_str(fourth);
    text
}

/// Five texts, one after the other.
pub fn concat5(first: &str, second: &str, third: &str, fourth: &str, fifth: &str) -> (text: String)
    ensures
        text@ == first@ + second@ + third@ + fourth@ + fifth@,
{
    let mut text = concat4(first, second, third, fourth);
    text.push_str(fifth);
    text
}

/// The characters of `text`.
pub fn characters(text: &str) -> (list: Vec<char>)
    ensures
        list@ == text@,
{
    let mut list: Vec<char> = Vec::new();
    for character in iter: text.chars()
        invariant
            list@ == iter.seq().take(iter.index()),
            iter.seq() == text@,
    {
        list.push(character);
    }
    list
}

/// The text made of the characters of `list` from `from` up to `to`.
pub fn text_of(list: &Vec<char>, from: usize, to: usize) -> (text: String)
    requires
        from <= to <= list.len(),
    ensures
        text@ == list@.subrange(from as int, to as int),
{
    let mut text = String::new();
    let mut i: usize = from;
    while i < to
        invariant
            from <= i <= to <= list.len(),
            text@ == list@.subrange(from as int, i as int),
        decreases to - i,
    {
        text.push(list[i]);
        i += 1;
        assert(list@.subrange(from as int, i as int) =~= list@.subrange(
            from as int,
            i - 1,
        ).push(list[i - 1]));
    }
    text
}

/// The decimal digit of a number below ten.
pub open spec fn digit(value: int) -> char {
    (48 + value) as char
}

/// The decimal digits of a natural number, without leading zeros.
pub open spec fn digits(value: nat) -> Seq<char>
    decreases value,
{
    if value < 10 {
        seq![digit(value as int)]
    } else {
        digits(value / 10).push(digit((value % 10) as int))
    }
}

/// The decimal notation of an integer.
pub open spec fn decimal(value: int) -> Seq<char> {
    if value < 0 {
        seq!['-'] + digits((-value) as nat)
    } else {
        digits(value as nat)
    }
}

fn push_digits(text: &mut String, value: u128)
    ensures
        final(text)@ == old(text)@ + digits(value as nat),
    decreases value,
{
    if value >= 10 {
        push_digits(text, value / 10);
    }
    let digit: u8 = (value % 10) as u8;
    text.push((48 + digit) as char);
    assert(text@ =~= old(text)@ + digits(value as nat));
}

/// An integer in decimal notation.
pub fn decimal_text(value: i128) -> (text: String)
    ensures
        text@ == decimal(value as int),
{
    let mut text = String::new();
    if value < 0 {
        text.push('-');
        let magnitude: u128 = (-(value + 1)) as u128 + 1;
        push_digits(&mut text, magnitude);
        assert(text@ =~= decimal(value as int));
    } else {
        push_digits(&mut text, value as u128);
        assert(text@ =~= decimal(value as int));
    }
    text
}

/// The maximal runs of characters of `text` that do not separate words. White
/// space separates words; control characters do too where `controls` is set.
pub open spec fn words(text: Seq<char>, controls: bool) -> Seq<Seq<char>>
    decreases text.len(),
{
    if text.len() == 0 {
        Seq::empty()
    } else {
        let before = words(text.drop_last(), controls);
        if separates(text.last(), controls) {
            before
        } else if text.len() > 1 && !separates(text[text.len() - 2], controls) {
            before.update(before.len() - 1, before.last().push(text.last()))
        } else {
            before.push(seq![text.last()])
        }
    }
}

/// Whether a character separates words.
pub open spec fn separates(character: char, controls: bool) -> bool {
    is_space(character) || (controls && is_control(character))
}

/// `text` on one line: its words, one space apart.
pub open spec fn spaced(text: Seq<char>, controls: bool) -> Seq<char> {
    joined(words(text, controls), seq![' '])
}

proof fn lemma_words(text: Seq<char>, controls: bool)
    ensures
        text.len() > 0 && !separates(text.last(), controls) ==> words(text, controls).len() > 0,
        forall|i: int|
            0 <= i < words(text, controls).len() ==> {
                &&& (#[trigger] words(text, controls)[i]).len() > 0
                &&& forall|j: int|
                    0 <= j < words(text, controls)[i].len() ==> !separates(
                        #[trigger] words(text, controls)[i][j],
                        controls,
                    )
            },
    decreases text.len(),
{
    if text.len() > 0 {
        let before = text.drop_last();
        lemma_words(before, controls);
        if text.len() > 1 {
            assert(before.last() == text[text.len() - 2]);
        }
    }
}

proof fn lemma_joined_push(parts: Seq<Seq<char>>, part: Seq<char>, separator: Seq<char>)
    ensures
        joined(parts.push(part), separator) == (if parts.len() == 0 {
            part
        } else {
            joined(parts, separator) + separator + part
        }),
{
    assert(parts.push(part).drop_last() =~= parts);
}

proof fn lemma_joined_extend(parts: Seq<Seq<char>>, character: char, separator: Seq<char>)
    requires
        parts.len() > 0,
    ensures
        joined(
            parts.update(parts.len() - 1, parts.last().push(character)),
            separator,
        ) == joined(parts, separator).push(character),
{
    let longer = parts.update(parts.len() - 1, parts.last().push(character));
    assert(longer.drop_last() =~= parts.drop_last());
    assert(joined(longer, separator) =~= joined(parts, separator).push(character));
}

fn spaced_text(value: &str, controls: bool) -> (text: String)
    ensures
        text@ == spaced(value@, controls),
{
    let list = characters(value);
    let mut output = String::new();
    let mut separated = false;
    let mut empty = true;
    let mut i: usize = 0;
    while i < list.len()
        invariant
            i <= list.len(),
            list@ == value@,
            output@ == spaced(value@.take(i as int), controls),
            empty == (words(value@.take(i as int), controls).len() == 0),
            separated == (!empty && separates(value@[i - 1], controls)),
        decreases list.len() - i,
    {
        let character = list[i];
        let ghost before = value@.take(i as int);
        let ghost after = value@.take(i + 1);
        proof {
            assert(after.drop_last() =~= before);
            assert(after.last() == character);
            if i > 0 {
                assert(after[after.len() - 2] == value@[i - 1]);
                assert(before.last() == value@[i - 1]);
            }
            lemma_words(before, controls);
            lemma_joined_push(words(before, controls), seq![character], seq![' ']);
            if words(before, controls).len() > 0 {
                lemma_joined_extend(words(before, controls), character, seq![' ']);
            }
        }
        if character.is_whitespace() || (controls && character.is_control()) {
            separated = !empty;
        } else {
            if separated {
                output.push(' ');
                separated = false;
            }
            output.push(character);
            proof {
                if empty {
                    assert(output@ =~= seq![character]);
                }
                assert(output@ =~= spaced(after, controls));
            }
            empty = false;
        }
        i += 1;
    }
    assert(value@.take(i as int) =~= value@);
    output
}

/// `value` on one line, with every run of white space and control characters
/// turned into one space between words.
pub fn one_line(value: &str) -> (text: String)
    ensures
        text@ == spaced(value@, true),
{
    spaced_text(value, true)
}

/// `value` with every run of white space turned into one space between words.
pub fn single_spaced(value: &str) -> (text: String)
    ensures
        text@ == spaced(value@, false),
{
    spaced_text(value, false)
}

/// The words of a text, which white space parts.
pub fn word_list(text: &str) -> (list: Vec<String>)
    ensures
        views(list@) == words(text@, false),
{
    let characters = characters(text);
    let mut list: Vec<String> = Vec::new();
    let mut inside = false;
    let mut i: usize = 0;
    assert(views(list@) =~= words(text@.take(0), false));
    while i < characters.len()
        invariant
            i <= characters.len(),
            characters@ == text@,
            views(list@) == words(text@.take(i as int), false),
            inside == (i > 0 && !separates(text@[i - 1], false)),
        decreases characters.len() - i,
    {
        let character = characters[i];
        let ghost before = text@.take(i as int);
        let ghost after = text@.take(i + 1);
        let ghost found = views(list@);
        proof {
            assert(after.drop_last() =~= before);
            assert(after.last() == character);
            if i > 0 {
                assert(after[after.len() - 2] == text@[i - 1]);
                assert(before.last() == text@[i - 1]);
            }
            lemma_words(before, false);
        }
        if character.is_whitespace() {
            inside = false;
        } else {
            if inside {
                assert(found.len() > 0);
                match list.pop() {
                    Some(word) => {
                        let mut word = word;
                        word.push(character);
                        let ghost longer = word@;
                        list.push(word);
                        assert(views(list@) =~= found.update(found.len() - 1, longer));
                    },
                    None => {},
                }
            } else {
                let mut word = String::new();
                word.push(character);
                assert(word@ =~= seq![character]);
                list.push(word);
                assert(views(list@) =~= found.push(seq![character]));
            }
            inside = true;
        }
        i += 1;
    }
    assert(text@.take(i as int) =~= text@);
    list
}

proof fn lemma_joined_chars(parts: Seq<Seq<char>>, controls: bool)
    requires
        forall|i: int, j: int|
            0 <= i < parts.len() && 0 <= j < parts[i].len() ==> !separates(
                #[trigger] parts[i][j],
                controls,
            ),
    ensures
        forall|k: int|
            0 <= k < joined(parts, seq![' ']).len() ==> (#[trigger] joined(parts, seq![' '])[k]
                == ' ' || !separates(joined(parts, seq![' '])[k], controls)),
    decreases parts.len(),
{
    if parts.len() > 1 {
        let rest = parts.drop_last();
        assert forall|i: int, j: int|
            0 <= i < rest.len() && 0 <= j < rest[i].len() implies !separates(
            #[trigger] rest[i][j],
            controls,
        ) by {
            assert(rest[i][j] == parts[i][j]);
        }
        lemma_joined_chars(rest, controls);
        let head = joined(rest, seq![' ']);
        let whole = joined(parts, seq![' ']);
        assert forall|k: int| 0 <= k < whole.len() implies (#[trigger] whole[k] == ' '
            || !separates(whole[k], controls)) by {
            if k < head.len() {
                assert(whole[k] == head[k]);
            } else if k > head.len() {
                assert(whole[k] == parts[parts.len() - 1][k - head.len() - 1]);
            }
        }
    } else if parts.len() == 1 {
        assert forall|k: int| 0 <= k < joined(parts, seq![' ']).len() implies (
        #[trigger] joined(parts, seq![' '])[k] == ' ' || !separates(
            joined(parts, seq![' '])[k],
            controls,
        )) by {
            assert(joined(parts, seq![' '])[k] == parts[0][k]);
        }
    }
}

/// Text put on one line holds no control character, and no white space but the
/// space: it cannot start a new line wherever it is printed.
pub proof fn law_one_line_has_no_line_break(text: Seq<char>, k: int)
    requires
        0 <= k < spaced(text, true).len(),
    ensures
        !is_control(spaced(text, true)[k]),
        is_space(spaced(text, true)[k]) ==> spaced(text, true)[k] == ' ',
{
    lemma_words(text, true);
    lemma_joined_chars(words(text, true), true);
}

/// `text` cut to `maximum` characters, with dots for what was cut off its end.
pub open spec fn truncated(text: Seq<char>, maximum: nat) -> Seq<char> {
    if text.len() <= maximum {
        text
    } else if maximum <= 3 {
        Seq::new(maximum, |i: int| '.')
    } else {
        text.take(maximum - 3) + seq!['.', '.', '.']
    }
}

/// `text` cut to `maximum` characters, with dots for what was cut off its start.
pub open spec fn tail(text: Seq<char>, maximum: nat) -> Seq<char> {
    if text.len() <= maximum {
        text
    } else if maximum <= 3 {
        Seq::new(maximum, |i: int| '.')
    } else {
        seq!['.', '.', '.'] + text.skip(text.len() - (maximum - 3))
    }
}

/// A cut text has as many characters as the text, or `maximum` where the text
/// is longer.
pub proof fn law_cut_text_is_bounded(text: Seq<char>, maximum: nat)
    ensures
        truncated(text, maximum).len() == (if text.len() <= maximum {
            text.len()
        } else {
            maximum
        }),
        tail(text, maximum).len() == truncated(text, maximum).len(),
{
}

fn dots(count: usize) -> (text: String)
    ensures
        text@ == Seq::new(count as nat, |i: int| '.'),
{
    let mut text = String::new();
    let mut i: usize = 0;
    while i < count
        invariant
            i <= count,
            text@ == Seq::new(i as nat, |j: int| '.'),
        decreases count - i,
    {
        text.push('.');
        i += 1;
        assert(text@ =~= Seq::new(i as nat, |j: int| '.'));
    }
    text
}

/// Cuts `value` to `maximum` characters at its end.
pub fn truncate_chars(value: &str, maximum: usize) -> (text: String)
    ensures
        text@ == truncated(value@, maximum as nat),
{
    let list = characters(value);
    if list.len() <= maximum {
        return value.to_owned();
    }
    if maximum <= 3 {
        return dots(maximum);
    }
    let mut output = text_of(&list, 0, maximum - 3);
    output.push('.');
    output.push('.');
    output.push('.');
    assert(output@ =~= truncated(value@, maximum as nat));
    output
}

/// Cuts `value` to `maximum` characters at its start.
pub fn tail_chars(value: &str, maximum: usize) -> (text: String)
    ensures
        text@ == tail(value@, maximum as nat),
{
    let list = characters(value);
    if list.len() <= maximum {
        return value.to_owned();
    }
    if maximum <= 3 {
        return dots(maximum);
    }
    let mut output = dots(3);
    let rest = text_of(&list, list.len() - (maximum - 3), list.len());
    output.push_str(rest.as_str());
    assert(output@ =~= tail(value@, maximum as nat));
    output
}

/// Whether every character of `text` is white space.
pub open spec fn blank(text: Seq<char>) -> bool {
    forall|i: int| 0 <= i < text.len() ==> is_space(#[trigger] text[i])
}

/// Whether `text` is empty but for white space.
pub fn is_blank(text: &str) -> (result: bool)
    ensures
        result == blank(text@),
{
    let list = characters(text);
    let mut i: usize = 0;
    while i < list.len()
        invariant
            i <= list.len(),
            list@ == text@,
            forall|j: int| 0 <= j < i ==> is_space(#[trigger] text@[j]),
        decreases list.len() - i,
    {
        if !list[i].is_whitespace() {
            assert(!is_space(text@[i as int]));
            return false;
        }
        i += 1;
    }
    true
}

/// `text` without the white space at its start.
pub open spec fn trimmed_start(text: Seq<char>) -> Seq<char>
    decreases text.len(),
{
    if text.len() > 0 && is_space(text[0]) {
        trimmed_start(text.skip(1))
    } else {
        text
    }
}

/// `text` without the white space at its end.
pub open spec fn trimmed_end(text: Seq<char>) -> Seq<char>
    decreases text.len(),
{
    if text.len() > 0 && is_space(text.last()) {
        trimmed_end(text.drop_last())
    } else {
        text
    }
}

/// `text` without the white space at either end.
pub open spec fn trimmed(text: Seq<char>) -> Seq<char> {
    trimmed_end(trimmed_start(text))
}

proof fn lemma_trimmed_start(text: Seq<char>)
    requires
        !blank(text),
    ensures
        !blank(trimmed_start(text)),
        trimmed_start(text).len() > 0 && !is_space(trimmed_start(text)[0]),
    decreases text.len(),
{
    if text.len() > 0 && is_space(text[0]) {
        let i = choose|i: int| 0 <= i < text.len() && !is_space(#[trigger] text[i]);
        assert(text.skip(1)[i - 1] == text[i]);
        lemma_trimmed_start(text.skip(1));
    } else {
        assert(text.len() > 0);
        assert(!is_space(text[0]));
    }
}

proof fn lemma_trimmed_end(text: Seq<char>)
    requires
        text.len() > 0 && !is_space(text[0]),
    ensures
        trimmed_end(text).len() > 0,
        trimmed_end(text)[0] == text[0],
        !is_space(trimmed_end(text).last()),
    decreases text.len(),
{
    if is_space(text.last()) {
        lemma_trimmed_end(text.drop_last());
    }
}

/// A text that is not blank leaves something, from which nothing more is
/// removed.
pub proof fn law_trimmed_once(text: Seq<char>)
    requires
        !blank(text),
    ensures
        trimmed(text).len() > 0,
        trimmed(trimmed(text)) == trimmed(text),
{
    lemma_trimmed_start(text);
    lemma_trimmed_end(trimmed_start(text));
}

/// Removes the white space at either end of `text`.
pub fn trim(text: &str) -> (result: String)
    ensures
        result@ == trimmed(text@),
{
    let list = characters(text);
    let mut from: usize = 0;
    assert(text@.skip(0) =~= text@);
    while from < list.len() && list[from].is_whitespace()
        invariant
            from <= list.len(),
            list@ == text@,
            trimmed_start(text@) == trimmed_start(text@.skip(from as int)),
        decreases list.len() - from,
    {
        assert(text@.skip(from as int).skip(1) =~= text@.skip(from + 1));
        from += 1;
    }
    let ghost start = trimmed_start(text@);
    assert(start == text@.skip(from as int));
    let mut to: usize = list.len();
    assert(text@.subrange(from as int, to as int) =~= start);
    while to > from && list[to - 1].is_whitespace()
        invariant
            from <= to <= list.len(),
            list@ == text@,
            trimmed_end(start) == trimmed_end(text@.subrange(from as int, to as int)),
        decreases to - from,
    {
        assert(text@.subrange(from as int, to as int).drop_last() =~= text@.subrange(
            from as int,
            to - 1,
        ));
        to -= 1;
    }
    text_of(&list, from, to)
}

/// Whether `text` starts with `prefix`.
pub open spec fn has_prefix(text: Seq<char>, prefix: Seq<char>) -> bool {
    text.len() >= prefix.len() && text.take(prefix.len() as int) == prefix
}

/// Whether `text` ends with `suffix`.
pub open spec fn has_suffix(text: Seq<char>, suffix: Seq<char>) -> bool {
    text.len() >= suffix.len() && text.skip(text.len() - suffix.len()) == suffix
}

/// Whether `text` starts with `prefix`.
pub fn starts_with(text: &str, prefix: &str) -> (result: bool)
    ensures
        result == has_prefix(text@, prefix@),
{
    let list = characters(text);
    let wanted = characters(prefix);
    if list.len() < wanted.len() {
        return false;
    }
    let mut i: usize = 0;
    while i < wanted.len()
        invariant
            i <= wanted.len() <= list.len(),
            list@ == text@,
            wanted@ == prefix@,
            forall|j: int| 0 <= j < i ==> text@[j] == prefix@[j],
        decreases wanted.len() - i,
    {
        if list[i] != wanted[i] {
            assert(text@.take(prefix@.len() as int)[i as int] != prefix@[i as int]);
            return false;
        }
        i += 1;
    }
    assert(text@.take(prefix@.len() as int) =~= prefix@);
    true
}

/// Whether `text` ends with `suffix`.
pub fn ends_with(text: &str, suffix: &str) -> (result: bool)
    ensures
        result == has_suffix(text@, suffix@),
{
    let list = characters(text);
    let wanted = characters(suffix);
    if list.len() < wanted.len() {
        return false;
    }
    let offset: usize = list.len() - wanted.len();
    let mut i: usize = 0;
    while i < wanted.len()
        invariant
            i <= wanted.len() <= list.len(),
            offset == list.len() - wanted.len(),
            list@ == text@,
            wanted@ == suffix@,
            forall|j: int| 0 <= j < i ==> text@[offset + j] == suffix@[j],
        decreases wanted.len() - i,
    {
        if list[offset + i] != wanted[i] {
            assert(text@.skip(text@.len() - suffix@.len())[i as int] != suffix@[i as int]);
            return false;
        }
        i += 1;
    }
    assert(text@.skip(text@.len() - suffix@.len()) =~= suffix@);
    true
}

/// Where `separator` first stands in `text`; its length where it does not.
pub open spec fn first_at(text: Seq<char>, separator: char) -> int
    decreases text.len(),
{
    if text.len() == 0 || text[0] == separator {
        0
    } else {
        1 + first_at(text.skip(1), separator)
    }
}

/// What stands before and after the first `separator` in `text`.
pub open spec fn split_first(text: Seq<char>, separator: char) -> Option<(Seq<char>, Seq<char>)> {
    let at = first_at(text, separator);
    if at < text.len() {
        Some((text.take(at), text.skip(at + 1)))
    } else {
        None
    }
}

/// Parts `text` at the first `separator`.
pub fn split_once(text: &str, separator: char) -> (parts: Option<(String, String)>)
    ensures
        match parts {
            Some((before, after)) => split_first(text@, separator) == Some((before@, after@)),
            None => split_first(text@, separator) is None,
        },
{
    let list = characters(text);
    let mut at: usize = 0;
    assert(text@.skip(0) =~= text@);
    while at < list.len() && list[at] != separator
        invariant
            at <= list.len(),
            list@ == text@,
            first_at(text@, separator) == at + first_at(text@.skip(at as int), separator),
        decreases list.len() - at,
    {
        assert(text@.skip(at as int).skip(1) =~= text@.skip(at + 1));
        at += 1;
    }
    if at < list.len() {
        let before = text_of(&list, 0, at);
        let after = text_of(&list, at + 1, list.len());
        assert(text@.subrange(0, at as int) =~= text@.take(at as int));
        assert(text@.subrange(at + 1, text@.len() as int) =~= text@.skip(at + 1));
        Some((before, after))
    } else {
        None
    }
}

/// The lower-case form of an ASCII letter; any other character as it is.
pub open spec fn lower(character: char) -> char {
    if 'A' <= character <= 'Z' {
        ((character as int) + 32) as char
    } else {
        character
    }
}

/// `text` with its ASCII letters in lower case.
pub open spec fn lowered(text: Seq<char>) -> Seq<char> {
    Seq::new(text.len(), |i: int| lower(text[i]))
}

/// Puts the ASCII letters of `text` in lower case.
pub fn ascii_lowercase(text: &str) -> (result: String)
    ensures
        result@ == lowered(text@),
{
    let list = characters(text);
    let mut result = String::new();
    let mut i: usize = 0;
    while i < list.len()
        invariant
            i <= list.len(),
            list@ == text@,
            result@ == lowered(text@).take(i as int),
        decreases list.len() - i,
    {
        let character = list[i];
        if 'A' <= character && character <= 'Z' {
            result.push(((character as u32) as u8 + 32) as char);
        } else {
            result.push(character);
        }
        i += 1;
        assert(result@ =~= lowered(text@).take(i as int));
    }
    assert(lowered(text@).take(i as int) =~= lowered(text@));
    result
}

/// Whether `part` stands somewhere in `text`.
pub open spec fn holds_part(text: Seq<char>, part: Seq<char>) -> bool {
    exists|at: int|
        0 <= at <= text.len() - part.len() && #[trigger] text.subrange(at, at + part.len()) == part
}

/// Each of the parts that are joined stands in the text, the first at its start and
/// the last at its end, with the separator between any two.
pub proof fn law_joined_holds_its_parts(parts: Seq<Seq<char>>, separator: Seq<char>, i: int)
    requires
        0 <= i < parts.len(),
    ensures
        holds_part(joined(parts, separator), parts[i]),
        has_prefix(joined(parts, separator), parts[0]),
        has_suffix(joined(parts, separator), parts.last()),
        i + 1 < parts.len() ==> holds_part(
            joined(parts, separator),
            parts[i] + separator + parts[i + 1],
        ),
    decreases parts.len(),
{
    let text = joined(parts, separator);
    if parts.len() == 1 {
        let at = 0int;
        assert(text.subrange(at, at + parts[i].len()) =~= parts[i]);
        assert(text.take(parts[0].len() as int) =~= parts[0]);
        assert(text.skip(0) =~= parts[0]);
    } else {
        let before = parts.drop_last();
        let shorter = joined(before, separator);
        assert(text.skip(text.len() - parts.last().len()) =~= parts.last());
        law_joined_holds_its_parts(before, separator, 0);
        assert(text.take(parts[0].len() as int) =~= shorter.take(parts[0].len() as int));
        if i == parts.len() - 1 {
            let at = text.len() - parts[i].len();
            assert(text.subrange(at, at + parts[i].len()) =~= parts[i]);
        } else {
            law_joined_holds_its_parts(before, separator, i);
            let at = choose|at: int|
                0 <= at <= shorter.len() - parts[i].len() && #[trigger] shorter.subrange(
                    at,
                    at + parts[i].len(),
                ) == parts[i];
            assert(text.subrange(at, at + parts[i].len()) =~= shorter.subrange(
                at,
                at + parts[i].len(),
            ));
            let pair = parts[i] + separator + parts[i + 1];
            if i + 1 < parts.len() - 1 {
                let there = choose|there: int|
                    0 <= there <= shorter.len() - pair.len() && #[trigger] shorter.subrange(
                        there,
                        there + pair.len(),
                    ) == pair;
                assert(text.subrange(there, there + pair.len()) =~= shorter.subrange(
                    there,
                    there + pair.len(),
                ));
            } else {
                assert(before.last() == parts[i]);
                let there = text.len() - pair.len();
                assert(shorter.skip(shorter.len() - parts[i].len()) == parts[i]);
                assert forall|k: int| 0 <= k < pair.len() implies text[there + k] == pair[k] by {
                    if k < parts[i].len() {
                        assert(shorter.skip(shorter.len() - parts[i].len())[k] == parts[i][k]);
                    }
                }
                assert(text.subrange(there, there + pair.len()) =~= pair);
            }
        }
    }
}

/// A text that is put together of three parts holds the middle one.
pub proof fn lemma_holds_middle(before: Seq<char>, part: Seq<char>, after: Seq<char>)
    ensures
        holds_part(before + part + after, part),
{
    let text = before + part + after;
    let at = before.len() as int;
    assert(text.subrange(at, at + part.len()) =~= part);
}

/// A text is parted at the first separator: both parts and the separator make up the
/// text, and the part before has no separator. A text without one is not parted.
pub proof fn lemma_split_first(text: Seq<char>, separator: char)
    ensures
        split_first(text, separator) matches Some((before, after)) ==> text == before
            + seq![separator] + after && !before.contains(separator),
        split_first(text, separator) is Some <==> text.contains(separator),
{
    lemma_first_at(text, separator);
    if let Some((before, after)) = split_first(text, separator) {
        assert(text =~= before + seq![separator] + after);
    }
}

proof fn lemma_first_at(text: Seq<char>, separator: char)
    ensures
        0 <= first_at(text, separator) <= text.len(),
        forall|i: int| 0 <= i < first_at(text, separator) ==> #[trigger] text[i] != separator,
        first_at(text, separator) < text.len() ==> text[first_at(text, separator)] == separator,
        first_at(text, separator) < text.len() <==> text.contains(separator),
    decreases text.len(),
{
    if text.len() > 0 && text[0] != separator {
        lemma_first_at(text.skip(1), separator);
        let rest = text.skip(1);
        assert forall|i: int| 0 <= i < first_at(text, separator) implies #[trigger] text[i]
            != separator by {
            if i > 0 {
                assert(rest[i - 1] == text[i]);
            }
        }
        if rest.contains(separator) {
            let k = choose|k: int| 0 <= k < rest.len() && rest[k] == separator;
            assert(text[k + 1] == separator);
        }
        if text.contains(separator) {
            let k = choose|k: int| 0 <= k < text.len() && text[k] == separator;
            assert(rest[k - 1] == separator);
        }
    }
}

/// The number that digits stand for.
pub open spec fn number_of(text: Seq<char>) -> int
    decreases text.len(),
{
    if text.len() == 0 {
        0
    } else {
        10 * number_of(text.drop_last()) + (text.last() as int - 48)
    }
}

/// A number is written in digits that stand for it, without one that is needless, and
/// with a sign where it is negative.
pub proof fn law_number_is_written_in_digits(value: nat, k: int)
    ensures
        number_of(decimal(value as int)) == value,
        0 <= k < decimal(value as int).len() ==> '0' <= decimal(value as int)[k] <= '9',
        value > 0 ==> decimal(value as int)[0] != '0',
        value > 0 ==> decimal(-value) == seq!['-'] + decimal(value as int),
        decimal(value as int).len() > 0,
    decreases value,
{
    reveal_with_fuel(number_of, 2);
    if value >= 10 {
        law_number_is_written_in_digits(value / 10, k);
        law_number_is_written_in_digits(value / 10, 0);
        let text = digits(value);
        assert(text.drop_last() =~= digits(value / 10));
        assert(text[0] == digits(value / 10)[0]);
    } else {
        assert(digits(value).drop_last() =~= Seq::empty());
    }
}

/// A text in lower case has no capital letter of the alphabet, and is else as it was.
pub proof fn law_lower_case(text: Seq<char>, k: int)
    requires
        0 <= k < text.len(),
    ensures
        lowered(text).len() == text.len(),
        !('A' <= lowered(text)[k] <= 'Z'),
        !('A' <= text[k] <= 'Z') ==> lowered(text)[k] == text[k],
        text[k] == 'A' ==> lowered(text)[k] == 'a',
        text[k] == 'Z' ==> lowered(text)[k] == 'z',
        'A' <= text[k] <= 'Z' ==> lowered(text)[k] as int - 'a' as int == text[k] as int
            - 'A' as int,
{
}

/// Space is taken off at both ends of a text and nowhere else.
pub proof fn law_space_is_taken_off_the_ends(before: Seq<char>, text: Seq<char>, after: Seq<char>)
    requires
        blank(before),
        blank(after),
        text.len() > 0,
        !is_space(text[0]),
        !is_space(text.last()),
    ensures
        trimmed(before + text + after) == text,
    decreases before.len() + after.len(),
{
    let whole = before + text + after;
    if before.len() > 0 {
        assert(is_space(before[0]));
        assert(whole[0] == before[0]);
        let less = before.skip(1);
        assert forall|i: int| 0 <= i < less.len() implies is_space(#[trigger] less[i]) by {
            assert(less[i] == before[i + 1]);
        }
        assert(whole.skip(1) =~= less + text + after);
        law_space_is_taken_off_the_ends(less, text, after);
    } else {
        assert(whole =~= text + after);
        assert(whole[0] == text[0]);
        assert(trimmed_start(whole) == whole);
        if after.len() > 0 {
            assert(is_space(after[after.len() - 1]));
            assert(whole.last() == after.last());
            let less = after.drop_last();
            assert forall|i: int| 0 <= i < less.len() implies is_space(#[trigger] less[i]) by {
                assert(less[i] == after[i]);
            }
            assert(whole.drop_last() =~= before + text + less);
            law_space_is_taken_off_the_ends(before, text, less);
            let inner = before + text + less;
            assert(inner[0] == text[0]);
            assert(trimmed_start(inner) == inner);
        } else {
            assert(whole =~= text);
        }
    }
}

/// What a text holds, a longer text around it holds too.
pub proof fn lemma_holds_within(
    before: Seq<char>,
    text: Seq<char>,
    after: Seq<char>,
    part: Seq<char>,
)
    requires
        holds_part(text, part),
    ensures
        holds_part(before + text + after, part),
{
    let at = choose|at: int|
        0 <= at <= text.len() - part.len() && #[trigger] text.subrange(at, at + part.len()) == part;
    let whole = before + text + after;
    let there = before.len() + at;
    assert(whole.subrange(there, there + part.len()) =~= text.subrange(at, at + part.len()));
}

} // verus!
