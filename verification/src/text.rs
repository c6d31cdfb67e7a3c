//! Text as sequences of characters: classification, trimming, splitting and numbers.
use vstd::prelude::*;
use vstd::string::*;

verus! {

/// The text of every string of a list.
pub open spec fn texts(strings: Seq<String>) -> Seq<Seq<char>> {
    Seq::new(strings.len(), |i: int| strings[i]@)
}

/// The text of an optional string.
pub open spec fn optional_text(value: Option<String>) -> Option<Seq<char>> {
    match value {
        Some(text) => Some(text@),
        None => None,
    }
}

/// `String::push` of the standard library: appends one character at the end.
pub assume_specification[ String::push ](text: &mut String, character: char)
    ensures
        final(text)@ == old(text)@.push(character),
;

/// Whether a character stands in a text.
pub fn holds_character(text: &[char], character: char) -> (result: bool)
    ensures
        result == text@.contains(character),
{
    let mut index: usize = 0;
    while index < text.len()
        invariant
            index <= text.len(),
            forall|i: int| 0 <= i < index ==> #[trigger] text@[i] != character,
        decreases text.len() - index,
    {
        if text[index] == character {
            return true;
        }
        index += 1;
    }
    false
}

/// The characters of a text, in order.
pub fn characters(text: &str) -> (result: Vec<char>)
    ensures
        result@ == text@,
{
    let mut result: Vec<char> = Vec::new();
    for character in iter: text.chars()
        invariant
            iter.seq() == text@,
            result@ == text@.take(iter.index()),
    {
        result.push(character);
        proof {
            assert(text@.take(iter.index() + 1) =~= text@.take(iter.index()).push(text@[iter.index()]));
        }
    }
    proof {
        assert(text@.take(text@.len() as int) =~= text@);
    }
    result
}

/// The text made of some characters.
pub fn text_of(characters: &[char]) -> (result: String)
    ensures
        result@ == characters@,
{
    let mut result = String::new();
    let mut index: usize = 0;
    while index < characters.len()
        invariant
            index <= characters.len(),
            result@ == characters@.take(index as int),
        decreases characters.len() - index,
    {
        result.push(characters[index]);
        index += 1;
        proof {
            assert(characters@.take(index as int) =~= characters@.take(index - 1).push(characters@[index - 1]));
        }
    }
    proof {
        assert(characters@.take(characters@.len() as int) =~= characters@);
    }
    result
}

/// Whether two texts hold the same characters.
pub fn same_text(left: &str, right: &str) -> (result: bool)
    ensures
        result == (left@ == right@),
{
    left.to_owned() == right.to_owned()
}

/// The characters with the Unicode property `White_Space`.
pub open spec fn is_white_space(character: char) -> bool {
    let code = character as u32;
    ||| 0x9 <= code <= 0xD
    ||| code == 0x20
    ||| code == 0x85
    ||| code == 0xA0
    ||| code == 0x1680
    ||| 0x2000 <= code <= 0x200A
    ||| code == 0x2028
    ||| code == 0x2029
    ||| code == 0x202F
    ||| code == 0x205F
    ||| code == 0x3000
}

/// The characters of the Unicode category `Cc`.
pub open spec fn is_control_character(character: char) -> bool {
    let code = character as u32;
    code <= 0x1F || 0x7F <= code <= 0x9F
}

/// ASCII letters and digits.
pub open spec fn is_ascii_word_character(character: char) -> bool {
    let code = character as u32;
    0x30 <= code <= 0x39 || 0x41 <= code <= 0x5A || 0x61 <= code <= 0x7A
}

/// An ASCII capital letter made small; any other character as it is.
pub open spec fn ascii_lower(character: char) -> char {
    if 0x41 <= character as u32 <= 0x5A {
        ((character as u32 + 0x20) as u32) as char
    } else {
        character
    }
}

/// A text with its ASCII capital letters made small.
pub open spec fn ascii_lower_text(text: Seq<char>) -> Seq<char> {
    Seq::new(text.len(), |i: int| ascii_lower(text[i]))
}

pub fn white_space(character: char) -> (result: bool)
    ensures
        result == is_white_space(character),
{
    let code: u32 = character as u32;
    (0x9 <= code && code <= 0xD) || code == 0x20 || code == 0x85 || code == 0xA0 || code == 0x1680
        || (0x2000 <= code && code <= 0x200A) || code == 0x2028 || code == 0x2029 || code == 0x202F
        || code == 0x205F || code == 0x3000
}

pub fn control_character(character: char) -> (result: bool)
    ensures
        result == is_control_character(character),
{
    let code: u32 = character as u32;
    code <= 0x1F || (0x7F <= code && code <= 0x9F)
}

pub fn ascii_word_character(character: char) -> (result: bool)
    ensures
        result == is_ascii_word_character(character),
{
    let code: u32 = character as u32;
    (0x30 <= code && code <= 0x39) || (0x41 <= code && code <= 0x5A) || (0x61 <= code && code
        <= 0x7A)
}

/// `char::to_ascii_lowercase` on one character.
pub fn ascii_lowered(character: char) -> (result: char)
    ensures
        result == ascii_lower(character),
{
    let code: u32 = character as u32;
    if 0x41 <= code && code <= 0x5A {
        let byte: u8 = (code + 0x20) as u8;
        byte as char
    } else {
        character
    }
}

pub fn ascii_lowered_text(text: &str) -> (result: String)
    ensures
        result@ == ascii_lower_text(text@),
{
    let source = characters(text);
    let mut result = String::new();
    let mut index: usize = 0;
    while index < source.len()
        invariant
            index <= source.len(),
            source@ == text@,
            result@ == ascii_lower_text(text@).take(index as int),
        decreases source.len() - index,
    {
        result.push(ascii_lowered(source[index]));
        index += 1;
        proof {
            assert(ascii_lower_text(text@).take(index as int) =~= ascii_lower_text(text@).take(
                index - 1,
            ).push(ascii_lower(text@[index - 1])));
        }
    }
    proof {
        assert(ascii_lower_text(text@).take(text@.len() as int) =~= ascii_lower_text(text@));
    }
    result
}

/// Whether a text holds a control character.
pub open spec fn has_control(text: Seq<char>) -> bool {
    exists|i: int| 0 <= i < text.len() && is_control_character(#[trigger] text[i])
}

pub fn contains_control(text: &str) -> (result: bool)
    ensures
        result == has_control(text@),
{
    let source = characters(text);
    let mut index: usize = 0;
    while index < source.len()
        invariant
            index <= source.len(),
            source@ == text@,
            forall|i: int| 0 <= i < index ==> !is_control_character(#[trigger] text@[i]),
        decreases source.len() - index,
    {
        if control_character(source[index]) {
            return true;
        }
        index += 1;
    }
    false
}

/// A text of white space only, or of nothing.
pub open spec fn is_blank(text: Seq<char>) -> bool {
    forall|i: int| 0 <= i < text.len() ==> is_white_space(#[trigger] text[i])
}

pub fn blank(text: &str) -> (result: bool)
    ensures
        result == is_blank(text@),
{
    let source = characters(text);
    let mut index: usize = 0;
    while index < source.len()
        invariant
            index <= source.len(),
            source@ == text@,
            forall|i: int| 0 <= i < index ==> is_white_space(#[trigger] text@[i]),
        decreases source.len() - index,
    {
        if !white_space(source[index]) {
            return false;
        }
        index += 1;
    }
    true
}

/// Where the first item `needle` stands at or behind `from`; the length where none does.
pub open spec fn first_index<T>(items: Seq<T>, needle: T, from: int) -> int
    decreases items.len() - from,
{
    if from >= items.len() {
        items.len() as int
    } else if items[from] == needle {
        from
    } else {
        first_index(items, needle, from + 1)
    }
}

/// Where the last item `needle` stands before `until`; -1 where none does.
pub open spec fn last_index<T>(items: Seq<T>, needle: T, until: int) -> int
    decreases until,
{
    if until <= 0 {
        -1
    } else if items[until - 1] == needle {
        until - 1
    } else {
        last_index(items, needle, until - 1)
    }
}

/// The text before and behind the first `separator`, where there is one.
pub open spec fn split_first(text: Seq<char>, separator: char) -> Option<(Seq<char>, Seq<char>)> {
    let at = first_index(text, separator, 0);
    if at < text.len() {
        Some((text.take(at), text.skip(at + 1)))
    } else {
        None
    }
}

/// The text behind the last `separator`, where there is one.
pub open spec fn behind_last(text: Seq<char>, separator: char) -> Option<Seq<char>> {
    let at = last_index(text, separator, text.len() as int);
    if at >= 0 {
        Some(text.skip(at + 1))
    } else {
        None
    }
}

pub proof fn lemma_first_index_bounds<T>(items: Seq<T>, needle: T, from: int)
    requires
        0 <= from <= items.len(),
    ensures
        from <= first_index(items, needle, from) <= items.len(),
        first_index(items, needle, from) < items.len() ==> items[first_index(items, needle, from)]
            == needle,
        forall|i: int|
            from <= i < first_index(items, needle, from) ==> #[trigger] items[i] != needle,
    decreases items.len() - from,
{
    if from < items.len() && items[from] != needle {
        lemma_first_index_bounds(items, needle, from + 1);
    }
}

pub proof fn lemma_last_index_bounds<T>(items: Seq<T>, needle: T, until: int)
    requires
        0 <= until <= items.len(),
    ensures
        -1 <= last_index(items, needle, until) < until || (until == 0 && last_index(
            items,
            needle,
            until,
        ) == -1),
        last_index(items, needle, until) >= 0 ==> items[last_index(items, needle, until)] == needle,
        forall|i: int|
            last_index(items, needle, until) < i < until ==> #[trigger] items[i] != needle,
    decreases until,
{
    if until > 0 && items[until - 1] != needle {
        lemma_last_index_bounds(items, needle, until - 1);
    }
}

/// Where the first character `needle` stands; the length where none does.
pub fn index_of_first(text: &[char], needle: char) -> (result: usize)
    ensures
        result == first_index(text@, needle, 0),
        result <= text.len(),
{
    let mut index: usize = 0;
    while index < text.len()
        invariant
            index <= text.len(),
            first_index(text@, needle, 0) == first_index(text@, needle, index as int),
        decreases text.len() - index,
    {
        if text[index] == needle {
            return index;
        }
        index += 1;
    }
    index
}

/// A copy of the items from `from` to before `to`.
pub fn copy_range<T: Copy>(text: &[T], from: usize, to: usize) -> (result: Vec<T>)
    requires
        from <= to <= text.len(),
    ensures
        result@ == text@.subrange(from as int, to as int),
{
    let mut result: Vec<T> = Vec::new();
    let mut index: usize = from;
    while index < to
        invariant
            from <= index <= to <= text.len(),
            result@ == text@.subrange(from as int, index as int),
        decreases to - index,
    {
        result.push(text[index]);
        index += 1;
        proof {
            assert(text@.subrange(from as int, index as int) =~= text@.subrange(
                from as int,
                index - 1,
            ).push(text@[index - 1]));
        }
    }
    result
}

/// `str::split_once` on one character.
pub fn split_at_first(text: &[char], separator: char) -> (result: Option<(Vec<char>, Vec<char>)>)
    ensures
        match (result, split_first(text@, separator)) {
            (Some(parts), Some(expected)) => parts.0@ == expected.0 && parts.1@ == expected.1,
            (None, None) => true,
            _ => false,
        },
{
    let at: usize = index_of_first(text, separator);
    if at < text.len() {
        let before = copy_range(text, 0, at);
        let behind = copy_range(text, at + 1, text.len());
        proof {
            assert(before@ =~= text@.take(at as int));
            assert(behind@ =~= text@.skip(at + 1));
        }
        Some((before, behind))
    } else {
        None
    }
}

/// The second part of `str::rsplit_once` on one character.
pub fn part_behind_last(text: &[char], separator: char) -> (result: Option<Vec<char>>)
    ensures
        match (result, behind_last(text@, separator)) {
            (Some(part), Some(expected)) => part@ == expected,
            (None, None) => true,
            _ => false,
        },
{
    let mut until: usize = text.len();
    while until > 0
        invariant
            until <= text.len(),
            last_index(text@, separator, text@.len() as int) == last_index(
                text@,
                separator,
                until as int,
            ),
        decreases until,
    {
        if text[until - 1] == separator {
            let behind = copy_range(text, until, text.len());
            proof {
                assert(behind@ =~= text@.skip(until as int));
            }
            return Some(behind);
        }
        until -= 1;
    }
    None
}

/// The text without its leading white space.
pub open spec fn without_leading_space(text: Seq<char>) -> Seq<char>
    decreases text.len(),
{
    if text.len() > 0 && is_white_space(text.first()) {
        without_leading_space(text.drop_first())
    } else {
        text
    }
}

/// The text without its trailing white space.
pub open spec fn without_trailing_space(text: Seq<char>) -> Seq<char>
    decreases text.len(),
{
    if text.len() > 0 && is_white_space(text.last()) {
        without_trailing_space(text.drop_last())
    } else {
        text
    }
}

/// The text without white space around it.
pub open spec fn trimmed(text: Seq<char>) -> Seq<char> {
    without_trailing_space(without_leading_space(text))
}

/// `str::trim`.
pub fn trim_characters(text: &[char]) -> (result: Vec<char>)
    ensures
        result@ == trimmed(text@),
{
    let mut from: usize = 0;
    proof {
        assert(text@.skip(0) =~= text@);
    }
    while from < text.len() && white_space(text[from])
        invariant
            from <= text.len(),
            without_leading_space(text@) == without_leading_space(text@.skip(from as int)),
        decreases text.len() - from,
    {
        proof {
            assert(text@.skip(from as int).drop_first() =~= text@.skip(from + 1));
        }
        from += 1;
    }
    let ghost body = text@.skip(from as int);
    let mut to: usize = text.len();
    proof {
        assert(text@.subrange(from as int, to as int) =~= body);
    }
    while to > from && white_space(text[to - 1])
        invariant
            from <= to <= text.len(),
            without_trailing_space(body) == without_trailing_space(
                text@.subrange(from as int, to as int),
            ),
        decreases to - from,
    {
        proof {
            assert(text@.subrange(from as int, to as int).drop_last() =~= text@.subrange(
                from as int,
                to - 1,
            ));
        }
        to -= 1;
    }
    copy_range(text, from, to)
}

pub fn trim(text: &str) -> (result: String)
    ensures
        result@ == trimmed(text@),
{
    let source = characters(text);
    let kept = trim_characters(source.as_slice());
    text_of(kept.as_slice())
}

/// The pieces of a text between the items that `separates` holds of: one piece more than there
/// are such items, empty pieces included.
pub open spec fn pieces<T>(text: Seq<T>, separates: spec_fn(T) -> bool) -> Seq<Seq<T>>
    decreases text.len(),
{
    if text.len() == 0 {
        seq![Seq::<T>::empty()]
    } else {
        let before = pieces(text.drop_last(), separates);
        if separates(text.last()) {
            before.push(Seq::<T>::empty())
        } else {
            before.update(before.len() - 1, before.last().push(text.last()))
        }
    }
}

/// The contents of every row of a list.
pub open spec fn rows<T>(list: Seq<Vec<T>>) -> Seq<Seq<T>> {
    Seq::new(list.len(), |i: int| list[i]@)
}

pub proof fn lemma_pieces_nonempty<T>(text: Seq<T>, separates: spec_fn(T) -> bool)
    ensures
        pieces(text, separates).len() > 0,
    decreases text.len(),
{
    if text.len() > 0 {
        lemma_pieces_nonempty(text.drop_last(), separates);
    }
}

/// What holds of `separator` only.
pub open spec fn only<T>(separator: T) -> spec_fn(T) -> bool {
    |item: T| item == separator
}

/// The pieces between occurrences of one item.
pub open spec fn pieces_at<T>(text: Seq<T>, separator: T) -> Seq<Seq<T>> {
    pieces(text, only(separator))
}

/// `str::split` on one character.
pub fn split_at_each(text: &[char], separator: char) -> (result: Vec<Vec<char>>)
    ensures
        rows(result@) == pieces_at(text@, separator),
        result.len() > 0,
{
    let ghost separates = only(separator);
    let mut result: Vec<Vec<char>> = Vec::new();
    let mut current: Vec<char> = Vec::new();
    let mut index: usize = 0;
    proof {
        assert(text@.take(0) =~= Seq::<char>::empty());
        assert(rows(result@).push(current@) =~= pieces(text@.take(0), separates));
    }
    while index < text.len()
        invariant
            index <= text.len(),
            separates == only(separator),
            rows(result@).push(current@) == pieces(text@.take(index as int), separates),
        decreases text.len() - index,
    {
        let ghost before = rows(result@).push(current@);
        let ghost previous = rows(result@);
        let character = text[index];
        proof {
            assert(text@.take(index + 1).drop_last() =~= text@.take(index as int));
            assert(text@.take(index + 1).last() == character);
        }
        if character == separator {
            result.push(current);
            current = Vec::new();
            proof {
                assert(rows(result@) =~= before);
                assert(rows(result@).push(current@) =~= before.push(Seq::<char>::empty()));
            }
        } else {
            current.push(character);
            proof {
                assert(rows(result@).push(current@) =~= before.update(
                    before.len() - 1,
                    before.last().push(character),
                ));
            }
        }
        index += 1;
    }
    let ghost before = rows(result@).push(current@);
    result.push(current);
    proof {
        assert(text@.take(text@.len() as int) =~= text@);
        assert(rows(result@) =~= before);
    }
    result
}

/// The pieces of a row of bytes between occurrences of one byte.
pub fn split_bytes_at(text: &[u8], separator: u8) -> (result: Vec<Vec<u8>>)
    ensures
        rows(result@) == pieces_at(text@, separator),
        result.len() > 0,
{
    let ghost separates = only(separator);
    let mut result: Vec<Vec<u8>> = Vec::new();
    let mut current: Vec<u8> = Vec::new();
    let mut index: usize = 0;
    proof {
        assert(text@.take(0) =~= Seq::<u8>::empty());
        assert(rows(result@).push(current@) =~= pieces(text@.take(0), separates));
    }
    while index < text.len()
        invariant
            index <= text.len(),
            separates == only(separator),
            rows(result@).push(current@) == pieces(text@.take(index as int), separates),
        decreases text.len() - index,
    {
        let ghost before = rows(result@).push(current@);
        let ghost previous = rows(result@);
        let byte = text[index];
        proof {
            assert(text@.take(index + 1).drop_last() =~= text@.take(index as int));
            assert(text@.take(index + 1).last() == byte);
        }
        if byte == separator {
            result.push(current);
            current = Vec::new();
            proof {
                assert(rows(result@) =~= before);
                assert(rows(result@).push(current@) =~= before.push(Seq::<u8>::empty()));
            }
        } else {
            current.push(byte);
            proof {
                assert(rows(result@).push(current@) =~= before.update(
                    before.len() - 1,
                    before.last().push(byte),
                ));
            }
        }
        index += 1;
    }
    let ghost before = rows(result@).push(current@);
    result.push(current);
    proof {
        assert(text@.take(text@.len() as int) =~= text@);
        assert(rows(result@) =~= before);
    }
    result
}

/// The words of a text: its pieces between white space that hold something.
pub open spec fn words(text: Seq<char>) -> Seq<Seq<char>> {
    pieces(text, |c: char| is_white_space(c)).filter(|piece: Seq<char>| piece.len() > 0)
}

/// `str::split_whitespace`.
pub fn split_words(text: &[char]) -> (result: Vec<Vec<char>>)
    ensures
        rows(result@) == words(text@),
{
    let ghost separates = |c: char| is_white_space(c);
    let ghost keeps = |piece: Seq<char>| piece.len() > 0;
    let ghost mut all: Seq<Seq<char>> = Seq::empty();
    let mut result: Vec<Vec<char>> = Vec::new();
    let mut current: Vec<char> = Vec::new();
    let mut index: usize = 0;
    proof {
        assert(text@.take(0) =~= Seq::<char>::empty());
        assert(all.push(current@) =~= pieces(text@.take(0), separates));
        assert(rows(result@) =~= all.filter(keeps)) by {
            reveal(Seq::filter);
        }
    }
    while index < text.len()
        invariant
            index <= text.len(),
            separates == (|c: char| is_white_space(c)),
            keeps == (|piece: Seq<char>| piece.len() > 0),
            all.push(current@) == pieces(text@.take(index as int), separates),
            rows(result@) == all.filter(keeps),
        decreases text.len() - index,
    {
        let ghost before = all.push(current@);
        let ghost filtered = rows(result@);
        let character = text[index];
        proof {
            assert(text@.take(index + 1).drop_last() =~= text@.take(index as int));
            assert(text@.take(index + 1).last() == character);
        }
        if white_space(character) {
            let ghost piece = current@;
            proof {
                all.lemma_filter_push(piece, keeps);
                all = all.push(piece);
            }
            if current.len() > 0 {
                result.push(current);
                proof {
                    assert(rows(result@) =~= filtered.push(piece));
                }
            }
            current = Vec::new();
            proof {
                assert(all.push(current@) =~= before.push(Seq::<char>::empty()));
            }
        } else {
            current.push(character);
            proof {
                assert(all.push(current@) =~= before.update(
                    before.len() - 1,
                    before.last().push(character),
                ));
            }
        }
        index += 1;
    }
    let ghost filtered = rows(result@);
    let ghost piece = current@;
    proof {
        all.lemma_filter_push(piece, keeps);
        assert(text@.take(text@.len() as int) =~= text@);
    }
    if current.len() > 0 {
        result.push(current);
        proof {
            assert(rows(result@) =~= filtered.push(piece));
        }
    }
    result
}

/// The piece without one trailing carriage return.
pub open spec fn without_carriage_return(piece: Seq<char>) -> Seq<char> {
    if piece.len() > 0 && piece.last() == '\r' {
        piece.drop_last()
    } else {
        piece
    }
}

/// The lines of a text: its pieces between line feeds, each ended one without the carriage
/// return before its line feed, and no last line where nothing follows the last line feed.
pub open spec fn lines_of(text: Seq<char>) -> Seq<Seq<char>> {
    let all = pieces_at(text, '\n');
    let ended = Seq::new(
        (all.len() - 1) as nat,
        |i: int| without_carriage_return(all[i]),
    );
    if all.last().len() == 0 {
        ended
    } else {
        ended.push(all.last())
    }
}

/// `str::lines`.
pub fn split_lines(text: &[char]) -> (result: Vec<Vec<char>>)
    ensures
        rows(result@) == lines_of(text@),
{
    let all = split_at_each(text, '\n');
    let mut result: Vec<Vec<char>> = Vec::new();
    let mut index: usize = 0;
    let last: usize = all.len() - 1;
    let ghost ended = Seq::new(
        last as nat,
        |i: int| without_carriage_return(rows(all@)[i]),
    );
    while index < last
        invariant
            index <= last,
            last == all.len() - 1,
            ended == Seq::new(last as nat, |i: int| without_carriage_return(rows(all@)[i])),
            rows(result@) == ended.take(index as int),
        decreases last - index,
    {
        let piece = &all[index];
        let ghost before = rows(result@);
        let line = if piece.len() > 0 && piece[piece.len() - 1] == '\r' {
            copy_range(piece.as_slice(), 0, piece.len() - 1)
        } else {
            copy_range(piece.as_slice(), 0, piece.len())
        };
        proof {
            assert(line@ =~= without_carriage_return(piece@));
        }
        result.push(line);
        index += 1;
        proof {
            assert(rows(result@) =~= before.push(line@));
            assert(ended.take(index as int) =~= ended.take(index - 1).push(ended[index - 1]));
        }
    }
    let ghost before = rows(result@);
    proof {
        assert(ended.take(last as int) =~= ended);
    }
    if all[last].len() > 0 {
        let line = copy_range(all[last].as_slice(), 0, all[last].len());
        proof {
            assert(line@ =~= rows(all@).last());
        }
        result.push(line);
        proof {
            assert(rows(result@) =~= before.push(line@));
        }
    }
    result
}

/// What stands behind `prefix` at the start of a text.
pub open spec fn after_prefix(text: Seq<char>, prefix: Seq<char>) -> Option<Seq<char>> {
    if prefix.len() <= text.len() && text.take(prefix.len() as int) == prefix {
        Some(text.skip(prefix.len() as int))
    } else {
        None
    }
}

/// What stands before `suffix` at the end of a text.
pub open spec fn before_suffix(text: Seq<char>, suffix: Seq<char>) -> Option<Seq<char>> {
    if suffix.len() <= text.len() && text.skip(text.len() - suffix.len()) == suffix {
        Some(text.take(text.len() - suffix.len()))
    } else {
        None
    }
}

pub open spec fn optional_row(value: Option<Vec<char>>) -> Option<Seq<char>> {
    match value {
        Some(row) => Some(row@),
        None => None,
    }
}

/// Whether `part` stands in `text` at `from`.
fn stands_at(text: &[char], from: usize, part: &[char]) -> (result: bool)
    requires
        from + part.len() <= text.len(),
    ensures
        result == (text@.subrange(from as int, from + part.len()) == part@),
{
    let mut index: usize = 0;
    while index < part.len()
        invariant
            index <= part.len(),
            from + part.len() <= text.len(),
            forall|i: int| 0 <= i < index ==> text@[from + i] == #[trigger] part@[i],
        decreases part.len() - index,
    {
        if text[from + index] != part[index] {
            proof {
                assert(text@.subrange(from as int, from + part.len())[index as int] != part@[index as int]);
            }
            return false;
        }
        index += 1;
    }
    proof {
        assert(text@.subrange(from as int, from + part.len()) =~= part@);
    }
    true
}

/// `str::strip_prefix` on a text.
pub fn strip_prefix(text: &[char], prefix: &str) -> (result: Option<Vec<char>>)
    ensures
        optional_row(result) == after_prefix(text@, prefix@),
{
    let part = characters(prefix);
    if part.len() <= text.len() && stands_at(text, 0, part.as_slice()) {
        proof {
            assert(text@.subrange(0, part.len() as int) =~= text@.take(part.len() as int));
        }
        let rest = copy_range(text, part.len(), text.len());
        proof {
            assert(rest@ =~= text@.skip(part.len() as int));
        }
        Some(rest)
    } else {
        proof {
            if part.len() <= text.len() {
                assert(text@.subrange(0, part.len() as int) =~= text@.take(part.len() as int));
            }
        }
        None
    }
}

/// `str::strip_suffix` on a text.
pub fn strip_suffix(text: &[char], suffix: &str) -> (result: Option<Vec<char>>)
    ensures
        optional_row(result) == before_suffix(text@, suffix@),
{
    let part = characters(suffix);
    if part.len() <= text.len() && stands_at(text, text.len() - part.len(), part.as_slice()) {
        proof {
            assert(text@.subrange(text.len() - part.len(), text.len() as int) =~= text@.skip(
                text.len() - part.len(),
            ));
        }
        let rest = copy_range(text, 0, text.len() - part.len());
        proof {
            assert(rest@ =~= text@.take(text.len() - part.len()));
        }
        Some(rest)
    } else {
        proof {
            if part.len() <= text.len() {
                assert(text@.subrange(text.len() - part.len(), text.len() as int) =~= text@.skip(
                    text.len() - part.len(),
                ));
            }
        }
        None
    }
}

/// `str::starts_with` on a text.
pub fn starts_with(text: &str, prefix: &str) -> (result: bool)
    ensures
        result == (after_prefix(text@, prefix@) is Some),
{
    let source = characters(text);
    strip_prefix(source.as_slice(), prefix).is_some()
}

/// Equality without regard to the case of ASCII letters.
pub open spec fn same_but_for_ascii_case(left: Seq<char>, right: Seq<char>) -> bool {
    ascii_lower_text(left) == ascii_lower_text(right)
}

/// Whether two rows of characters are the same.
pub fn same_characters(left: &[char], right: &[char]) -> (result: bool)
    ensures
        result == (left@ == right@),
{
    if left.len() != right.len() {
        return false;
    }
    let same = stands_at(left, 0, right);
    proof {
        assert(left@.subrange(0, right.len() as int) =~= left@);
    }
    same
}

/// Whether a row of characters is a given text.
pub fn is_text(row: &[char], text: &str) -> (result: bool)
    ensures
        result == (row@ == text@),
{
    let other = characters(text);
    same_characters(row, other.as_slice())
}

/// The texts with `separator` between each two of them.
pub open spec fn joined(parts: Seq<Seq<char>>, separator: Seq<char>) -> Seq<char>
    decreases parts.len(),
{
    if parts.len() == 0 {
        Seq::empty()
    } else if parts.len() == 1 {
        parts[0]
    } else {
        joined(parts.drop_last(), separator) + separator + parts.last()
    }
}

/// `[String]::join`.
pub fn join(parts: &Vec<String>, separator: &str) -> (result: String)
    ensures
        result@ == joined(texts(parts@), separator@),
{
    let mut result = String::new();
    let mut index: usize = 0;
    proof {
        assert(texts(parts@).take(0) =~= Seq::<Seq<char>>::empty());
    }
    while index < parts.len()
        invariant
            index <= parts.len(),
            result@ == joined(texts(parts@).take(index as int), separator@),
        decreases parts.len() - index,
    {
        proof {
            assert(texts(parts@).take(index + 1).drop_last() =~= texts(parts@).take(index as int));
            assert(texts(parts@).take(index + 1).last() == parts@[index as int]@);
        }
        if index > 0 {
            result.append(separator);
            result.append(parts[index].as_str());
        } else {
            result = parts[index].clone();
        }
        index += 1;
    }
    proof {
        assert(texts(parts@).take(parts@.len() as int) =~= texts(parts@));
    }
    result
}

/// A text of `count` spaces.
pub open spec fn spaces(count: nat) -> Seq<char> {
    Seq::new(count, |i: int| ' ')
}

/// The text filled up with spaces to `width` characters; unchanged where it has as many.
pub open spec fn padded(text: Seq<char>, width: nat) -> Seq<char> {
    if text.len() < width {
        text + spaces((width - text.len()) as nat)
    } else {
        text
    }
}

/// The text, cut to `width` characters of which the last one is an ellipsis where it is longer.
pub open spec fn shortened(text: Seq<char>, width: nat) -> Seq<char> {
    if text.len() <= width {
        text
    } else if width == 0 {
        seq!['…']
    } else {
        text.take(width - 1).push('…')
    }
}

pub fn pad_to(value: &str, width: usize) -> (result: String)
    ensures
        result@ == padded(value@, width as nat),
{
    let mut result = value.to_owned();
    let mut count: usize = value.unicode_len();
    proof {
        assert(value@ + spaces(0) =~= value@);
    }
    while count < width
        invariant
            value@.len() <= count,
            count <= width || count == value@.len(),
            result@ == value@ + spaces((count - value@.len()) as nat),
        decreases width - count,
    {
        result.push(' ');
        count += 1;
        proof {
            assert(spaces((count - value@.len()) as nat) =~= spaces(
                (count - 1 - value@.len()) as nat,
            ).push(' '));
            assert(result@ =~= value@ + spaces((count - value@.len()) as nat));
        }
    }
    result
}

pub fn shorten_to(value: &str, width: usize) -> (result: String)
    ensures
        result@ == shortened(value@, width as nat),
{
    let source = characters(value);
    if source.len() <= width {
        return value.to_owned();
    }
    let kept: usize = if width == 0 {
        0
    } else {
        width - 1
    };
    let start = copy_range(source.as_slice(), 0, kept);
    let mut result = text_of(start.as_slice());
    result.push('…');
    proof {
        if width == 0 {
            assert(result@ =~= seq!['…']);
        } else {
            assert(value@.subrange(0, width - 1) =~= value@.take(width - 1));
        }
    }
    result
}

/// A copy of a list of strings.
pub fn copy_strings(source: &Vec<String>) -> (result: Vec<String>)
    ensures
        texts(result@) == texts(source@),
{
    let mut result: Vec<String> = Vec::new();
    let mut index: usize = 0;
    while index < source.len()
        invariant
            index <= source.len(),
            texts(result@) == texts(source@).take(index as int),
        decreases source.len() - index,
    {
        let ghost before = texts(result@);
        result.push(source[index].clone());
        index += 1;
        proof {
            assert(texts(result@) =~= before.push(source@[index - 1]@));
            assert(texts(source@).take(index as int) =~= before.push(source@[index - 1]@));
        }
    }
    proof {
        assert(texts(source@).take(source@.len() as int) =~= texts(source@));
    }
    result
}

/// Whether two lists hold the same texts.
pub fn same_strings(left: &Vec<String>, right: &Vec<String>) -> (result: bool)
    ensures
        result == (texts(left@) == texts(right@)),
{
    if left.len() != right.len() {
        proof {
            assert(texts(left@).len() != texts(right@).len());
        }
        return false;
    }
    let mut index: usize = 0;
    while index < left.len()
        invariant
            index <= left.len(),
            left.len() == right.len(),
            forall|i: int| 0 <= i < index ==> #[trigger] texts(left@)[i] == texts(right@)[i],
        decreases left.len() - index,
    {
        if left[index] != right[index] {
            proof {
                assert(texts(left@)[index as int] != texts(right@)[index as int]);
            }
            return false;
        }
        index += 1;
    }
    proof {
        assert(texts(left@) =~= texts(right@));
    }
    true
}

/// Whether a list of strings holds a text.
pub fn holds_text(list: &Vec<String>, text: &str) -> (result: bool)
    ensures
        result == texts(list@).contains(text@),
{
    let mut index: usize = 0;
    while index < list.len()
        invariant
            index <= list.len(),
            forall|i: int| 0 <= i < index ==> #[trigger] texts(list@)[i] != text@,
        decreases list.len() - index,
    {
        if same_text(list[index].as_str(), text) {
            proof {
                assert(texts(list@)[index as int] == text@);
            }
            return true;
        }
        index += 1;
    }
    false
}

/// A copy of an optional string.
pub fn copy_optional(value: &Option<String>) -> (result: Option<String>)
    ensures
        optional_text(result) == optional_text(*value),
{
    match value {
        Some(text) => Some(text.clone()),
        None => None,
    }
}

/// Whether two optional strings hold the same.
pub fn same_optional(left: &Option<String>, right: &Option<String>) -> (result: bool)
    ensures
        result == (optional_text(*left) == optional_text(*right)),
{
    match (left, right) {
        (Some(first), Some(second)) => *first == *second,
        (None, None) => true,
        _ => false,
    }
}

/// A prefix is taken off a text exactly where the text begins with it, and leaves the rest.
pub proof fn prefixes_are_taken_off(text: Seq<char>, prefix: Seq<char>, rest: Seq<char>)
    ensures
        after_prefix(text, prefix) == Some(rest) <==> text == prefix + rest,
        after_prefix(text, prefix) is Some <==> exists|behind: Seq<char>|
            text == #[trigger] (prefix + behind),
{
    if text == prefix + rest {
        assert(text.take(prefix.len() as int) =~= prefix);
        assert(text.skip(prefix.len() as int) =~= rest);
    }
    if after_prefix(text, prefix) is Some {
        let behind = after_prefix(text, prefix)->0;
        assert(text =~= prefix + behind);
    }
    if exists|behind: Seq<char>| text == #[trigger] (prefix + behind) {
        let behind = choose|behind: Seq<char>| text == #[trigger] (prefix + behind);
        assert(text.take(prefix.len() as int) =~= prefix);
    }
}

/// A suffix is taken off a text exactly where the text ends with it, and leaves the rest.
pub proof fn suffixes_are_taken_off(text: Seq<char>, rest: Seq<char>, suffix: Seq<char>)
    ensures
        before_suffix(text, suffix) == Some(rest) <==> text == rest + suffix,
        before_suffix(text, suffix) is Some <==> exists|before: Seq<char>|
            text == #[trigger] (before + suffix),
{
    if text == rest + suffix {
        assert(text.skip(text.len() - suffix.len()) =~= suffix);
        assert(text.take(text.len() - suffix.len()) =~= rest);
    }
    if before_suffix(text, suffix) is Some {
        let before = before_suffix(text, suffix)->0;
        assert(text =~= before + suffix);
    }
    if exists|before: Seq<char>| text == #[trigger] (before + suffix) {
        let before = choose|before: Seq<char>| text == #[trigger] (before + suffix);
        assert(text.skip(text.len() - suffix.len()) =~= suffix);
    }
}

/// A text is parted at its first separator exactly as it is put together: what stands before
/// holds no separator. A text without one is not parted.
pub proof fn texts_part_at_the_first_separator(
    left: Seq<char>,
    separator: char,
    right: Seq<char>,
)
    requires
        !left.contains(separator),
    ensures
        split_first(left + seq![separator] + right, separator) == Some((left, right)),
        split_first(left, separator) is None,
{
    let text = left + seq![separator] + right;
    lemma_first_index_bounds(text, separator, 0);
    lemma_first_index_bounds(left, separator, 0);
    let at = first_index(text, separator, 0);
    assert(text[left.len() as int] == separator);
    if at < left.len() {
        assert(left[at] == separator);
        assert(left.contains(separator));
    }
    assert(at == left.len());
    assert(text.take(at) =~= left);
    assert(text.skip(at + 1) =~= right);
    if first_index(left, separator, 0) < left.len() {
        assert(left[first_index(left, separator, 0)] == separator);
        assert(left.contains(separator));
    }
}

/// What stands behind the last separator of a text is what follows it and holds none. A text
/// without one has nothing behind it.
pub proof fn texts_end_behind_the_last_separator(
    left: Seq<char>,
    separator: char,
    right: Seq<char>,
)
    requires
        !right.contains(separator),
    ensures
        behind_last(left + seq![separator] + right, separator) == Some(right),
        behind_last(right, separator) is None,
{
    let text = left + seq![separator] + right;
    lemma_last_index_bounds(text, separator, text.len() as int);
    lemma_last_index_bounds(right, separator, right.len() as int);
    let at = last_index(text, separator, text.len() as int);
    assert(text[left.len() as int] == separator);
    if at > left.len() {
        assert(right[at - left.len() - 1] == separator);
        assert(right.contains(separator));
    }
    assert(at == left.len());
    assert(text.skip(at + 1) =~= right);
    if last_index(right, separator, right.len() as int) >= 0 {
        assert(right[last_index(right, separator, right.len() as int)] == separator);
        assert(right.contains(separator));
    }
}

/// The pieces on both sides of a separator are those of the text before it and those of the text
/// behind it; a text without a separator is its only piece.
pub proof fn pieces_part_at_separators<T>(
    left: Seq<T>,
    separator: T,
    right: Seq<T>,
    separates: spec_fn(T) -> bool,
)
    requires
        separates(separator),
    ensures
        pieces(left + seq![separator] + right, separates) == pieces(left, separates) + pieces(
            right,
            separates,
        ),
        (forall|i: int| 0 <= i < left.len() ==> !separates(#[trigger] left[i])) ==> pieces(
            left,
            separates,
        ) == seq![left],
    decreases right.len(),
{
    let text = left + seq![separator] + right;
    lemma_pieces_nonempty(right, separates);
    lemma_pieces_nonempty(text, separates);
    if right.len() == 0 {
        assert(text =~= left.push(separator));
        assert(text.drop_last() =~= left);
        assert(pieces(text, separates) =~= pieces(left, separates) + pieces(right, separates));
    } else {
        let shorter = right.drop_last();
        pieces_part_at_separators(left, separator, shorter, separates);
        lemma_pieces_nonempty(shorter, separates);
        assert(text.drop_last() =~= left + seq![separator] + shorter);
        assert(text.last() == right.last());
        assert(pieces(text, separates) =~= pieces(left, separates) + pieces(right, separates));
    }
    lemma_one_piece(left, separates);
}

proof fn lemma_one_piece<T>(text: Seq<T>, separates: spec_fn(T) -> bool)
    ensures
        (forall|i: int| 0 <= i < text.len() ==> !separates(#[trigger] text[i])) ==> pieces(
            text,
            separates,
        ) == seq![text],
    decreases text.len(),
{
    if text.len() > 0 {
        lemma_one_piece(text.drop_last(), separates);
        if forall|i: int| 0 <= i < text.len() ==> !separates(#[trigger] text[i]) {
            assert forall|i: int| 0 <= i < text.drop_last().len() implies !separates(
                #[trigger] text.drop_last()[i],
            ) by {
                assert(!separates(text[i]));
            }
            assert(!separates(text[text.len() - 1]));
            assert(text.drop_last().push(text.last()) =~= text);
            assert(pieces(text, separates) =~= seq![text]);
        }
    } else {
        assert(text =~= Seq::<T>::empty());
    }
}

/// The words on both sides of white space are those of the text before it and those of the text
/// behind it; a text without white space is its only word, and nothing has none.
pub proof fn words_part_at_white_space(left: Seq<char>, space: char, right: Seq<char>)
    requires
        is_white_space(space),
    ensures
        words(left + seq![space] + right) == words(left) + words(right),
        left.len() > 0 && (forall|i: int|
            0 <= i < left.len() ==> !is_white_space(#[trigger] left[i]))
            ==> words(left) == seq![left],
        words(Seq::empty()) == Seq::<Seq<char>>::empty(),
{
    let separates = |c: char| is_white_space(c);
    let holds = |piece: Seq<char>| piece.len() > 0;
    pieces_part_at_separators(left, space, right, separates);
    Seq::filter_distributes_over_add(pieces(left, separates), pieces(right, separates), holds);
    reveal_with_fuel(Seq::filter, 2);
    lemma_one_piece(left, separates);
    lemma_one_piece(Seq::<char>::empty(), separates);
    assert(words(Seq::empty()) =~= Seq::<Seq<char>>::empty()) by {
        let only_piece = seq![Seq::<char>::empty()];
        assert(only_piece.drop_last() =~= Seq::<Seq<char>>::empty());
    }
    if left.len() > 0 && (forall|i: int|
        0 <= i < left.len() ==> !is_white_space(#[trigger] left[i])) {
        let only_piece = seq![left];
        assert(only_piece.drop_last() =~= Seq::<Seq<char>>::empty());
        assert(words(left) =~= seq![left]);
    }
}

/// The first line of a text ends at its first line feed, without the carriage return before it,
/// and the other lines are those of the rest; a text that holds something but no line feed is
/// its only line, and nothing has none.
pub proof fn lines_end_at_line_feeds(line: Seq<char>, rest: Seq<char>)
    requires
        !line.contains('\n'),
    ensures
        lines_of(line + seq!['\n'] + rest) == seq![
            if line.len() > 0 && line.last() == '\r' {
                line.drop_last()
            } else {
                line
            },
        ] + lines_of(rest),
        line.len() > 0 ==> lines_of(line) == seq![line],
        lines_of(Seq::empty()) == Seq::<Seq<char>>::empty(),
{
    let text = line + seq!['\n'] + rest;
    let separates = only('\n');
    pieces_part_at_separators(line, '\n', rest, separates);
    lemma_one_piece(line, separates);
    lemma_one_piece(Seq::<char>::empty(), separates);
    lemma_pieces_nonempty(rest, separates);
    assert forall|i: int| 0 <= i < line.len() implies !separates(#[trigger] line[i]) by {
        assert(line.contains(line[i]));
    }
    assert(pieces_at(line, '\n') == seq![line]);
    let all = pieces_at(text, '\n');
    let others = pieces_at(rest, '\n');
    assert(all =~= seq![line] + others);
    assert(lines_of(text) =~= seq![without_carriage_return(line)] + lines_of(rest));
    assert(lines_of(Seq::empty()) =~= Seq::<Seq<char>>::empty());
    if line.len() > 0 {
        assert(lines_of(line) =~= seq![line]);
    }
}

/// Trimming takes exactly the white space around a text off: whatever white space stands before
/// and behind a text that neither begins nor ends with some, the text is what is left.
pub proof fn trimming_leaves_the_text(lead: Seq<char>, text: Seq<char>, trail: Seq<char>)
    requires
        is_blank(lead),
        is_blank(trail),
        text.len() > 0 ==> !is_white_space(text.first()) && !is_white_space(text.last()),
    ensures
        trimmed(lead + text + trail) == text,
    decreases lead.len(),
{
    let all = lead + text + trail;
    if lead.len() > 0 {
        assert(is_white_space(lead[0]));
        assert(all.first() == lead[0]);
        let fewer = lead.drop_first();
        assert forall|i: int| 0 <= i < fewer.len() implies is_white_space(#[trigger] fewer[i]) by {
            assert(is_white_space(lead[i + 1]));
        }
        assert(all.drop_first() =~= fewer + text + trail);
        trimming_leaves_the_text(fewer, text, trail);
    } else if text.len() > 0 {
        assert(all.first() == text.first());
        assert(all =~= text + trail);
        lemma_trailing(text, trail);
    } else {
        assert(all =~= trail);
        lemma_leading(trail);
        assert(without_leading_space(all) =~= text);
    }
}

proof fn lemma_trailing(text: Seq<char>, trail: Seq<char>)
    requires
        is_blank(trail),
        text.len() > 0 ==> !is_white_space(text.last()),
    ensures
        without_trailing_space(text + trail) == text,
    decreases trail.len(),
{
    let all = text + trail;
    if trail.len() > 0 {
        assert(is_white_space(trail[trail.len() - 1]));
        assert(all.last() == trail.last());
        let fewer = trail.drop_last();
        assert forall|i: int| 0 <= i < fewer.len() implies is_white_space(#[trigger] fewer[i]) by {
            assert(is_white_space(trail[i]));
        }
        assert(all.drop_last() =~= text + fewer);
        lemma_trailing(text, fewer);
    } else {
        assert(all =~= text);
    }
}

proof fn lemma_leading(blank: Seq<char>)
    requires
        is_blank(blank),
    ensures
        without_leading_space(blank) == Seq::<char>::empty(),
    decreases blank.len(),
{
    if blank.len() > 0 {
        assert(is_white_space(blank[0]));
        let fewer = blank.drop_first();
        assert forall|i: int| 0 <= i < fewer.len() implies is_white_space(#[trigger] fewer[i]) by {
            assert(is_white_space(blank[i + 1]));
        }
        lemma_leading(fewer);
    } else {
        assert(blank =~= Seq::<char>::empty());
    }
}

/// Two rows of texts are joined with one separator between them, a single text is joined to
/// itself, and none to nothing.
pub proof fn joining_puts_separators_between(
    left: Seq<Seq<char>>,
    right: Seq<Seq<char>>,
    separator: Seq<char>,
)
    ensures
        left.len() > 0 && right.len() > 0 ==> joined(left + right, separator) == joined(
            left,
            separator,
        ) + separator + joined(right, separator),
        left.len() == 1 ==> joined(left, separator) == left[0],
        left.len() == 0 ==> joined(left, separator) == Seq::<char>::empty(),
    decreases right.len(),
{
    if left.len() > 0 && right.len() > 0 {
        let all = left + right;
        assert(all.drop_last() =~= left + right.drop_last());
        assert(all.last() == right.last());
        if right.len() == 1 {
            assert(all.drop_last() =~= left);
        } else {
            joining_puts_separators_between(left, right.drop_last(), separator);
            assert(joined(all, separator) =~= joined(left, separator) + separator + joined(
                right,
                separator,
            ));
        }
    }
}

/// A padded text begins with the text, continues with spaces only, and is as long as the width
/// or the text, whichever is longer.
pub proof fn padding_adds_spaces(text: Seq<char>, width: nat)
    ensures
        padded(text, width).len() == if text.len() < width {
            width
        } else {
            text.len()
        },
        padded(text, width).take(text.len() as int) == text,
        forall|i: int|
            text.len() <= i < padded(text, width).len() ==> #[trigger] padded(text, width)[i]
                == ' ',
{
    assert(padded(text, width).take(text.len() as int) =~= text);
}

/// A shortened text fits the width; one that was longer has as many characters as that, the last
/// an ellipsis and the others the first ones of the text; one that fits is kept.
pub proof fn shortening_fits_the_width(text: Seq<char>, width: nat)
    requires
        width > 0,
    ensures
        shortened(text, width).len() == if text.len() < width {
            text.len()
        } else {
            width
        },
        text.len() <= width ==> shortened(text, width) == text,
        text.len() > width ==> shortened(text, width).last() == '…' && shortened(
            text,
            width,
        ).drop_last() == text.take(width - 1),
{
    if text.len() > width {
        assert(shortened(text, width).drop_last() =~= text.take(width - 1));
    }
}

proof fn lemma_ascii_lower(character: char)
    ensures
        ascii_lower(character) as int == if 0x41 <= character as int <= 0x5A {
            character as int + 0x20
        } else {
            character as int
        },
{
}

/// Two texts are the same but for ASCII case exactly where they have as many characters and each
/// two are equal, or one is the capital letter of the other.
pub proof fn ascii_case_is_all_that_is_ignored(left: Seq<char>, right: Seq<char>)
    ensures
        same_but_for_ascii_case(left, right) <==> left.len() == right.len() && forall|i: int|
            0 <= i < left.len() ==> #[trigger] left[i] == right[i] || (0x41 <= left[i] as int
                && left[i] as int <= 0x5A && right[i] as int == left[i] as int + 0x20) || (0x41
                <= right[i] as int && right[i] as int <= 0x5A && left[i] as int == right[i] as int
                + 0x20),
{
    let lower_left = ascii_lower_text(left);
    let lower_right = ascii_lower_text(right);
    if lower_left == lower_right {
        assert(left.len() == lower_left.len());
        assert(right.len() == lower_right.len());
        assert forall|i: int| 0 <= i < left.len() implies #[trigger] left[i] == right[i] || (0x41
            <= left[i] as int && left[i] as int <= 0x5A && right[i] as int == left[i] as int
            + 0x20) || (0x41 <= right[i] as int && right[i] as int <= 0x5A && left[i] as int
            == right[i] as int + 0x20) by {
            assert(lower_left[i] == lower_right[i]);
            lemma_ascii_lower(left[i]);
            lemma_ascii_lower(right[i]);
        }
    }
    if left.len() == right.len() && forall|i: int|
        0 <= i < left.len() ==> #[trigger] left[i] == right[i] || (0x41 <= left[i] as int
            && left[i] as int <= 0x5A && right[i] as int == left[i] as int + 0x20) || (0x41
            <= right[i] as int && right[i] as int <= 0x5A && left[i] as int == right[i] as int
            + 0x20) {
        assert forall|i: int| 0 <= i < left.len() implies lower_left[i] == lower_right[i] by {
            assert(left[i] == left[i]);
            lemma_ascii_lower(left[i]);
            lemma_ascii_lower(right[i]);
        }
        assert(lower_left =~= lower_right);
    }
}

/// The control characters are those that a terminal may act on: everything below the space, the
/// delete character, and the second set of controls behind it; no other ASCII character is one.
pub proof fn controls_are_what_terminals_act_on(character: char)
    ensures
        (character as u32) < 0x20 ==> is_control_character(character),
        0x20 <= character as u32 <= 0x7E ==> !is_control_character(character),
        0x7F <= character as u32 <= 0x9F ==> is_control_character(character),
        character as u32 > 0x9F ==> !is_control_character(character),
        is_white_space(character) && (character as u32) < 0x80 <==> character == ' ' || character
            == '\t' || character == '\n' || character == '\r' || character as u32 == 0xB
            || character as u32 == 0xC,
{
}

/// A text holds a control character where one of its parts does, and is blank where both of its
/// parts are; of a single character either is told by that character alone.
pub proof fn parts_tell_of_controls_and_blanks(
    left: Seq<char>,
    right: Seq<char>,
    character: char,
)
    ensures
        has_control(left + right) <==> has_control(left) || has_control(right),
        has_control(seq![character]) <==> is_control_character(character),
        is_blank(left + right) <==> is_blank(left) && is_blank(right),
        is_blank(seq![character]) <==> is_white_space(character),
        is_blank(Seq::empty()) && !has_control(Seq::empty()),
{
    let whole = left + right;
    if has_control(left) {
        let at = choose|at: int| 0 <= at < left.len() && is_control_character(#[trigger] left[at]);
        assert(whole[at] == left[at]);
    }
    if has_control(right) {
        let at = choose|at: int|
            0 <= at < right.len() && is_control_character(#[trigger] right[at]);
        assert(whole[left.len() + at] == right[at]);
    }
    if has_control(whole) {
        let at = choose|at: int|
            0 <= at < whole.len() && is_control_character(#[trigger] whole[at]);
        if at < left.len() {
            assert(left[at] == whole[at]);
        } else {
            assert(right[at - left.len()] == whole[at]);
        }
    }
    if is_blank(whole) {
        assert forall|i: int| 0 <= i < left.len() implies is_white_space(#[trigger] left[i]) by {
            assert(whole[i] == left[i]);
        }
        assert forall|i: int| 0 <= i < right.len() implies is_white_space(#[trigger] right[i]) by {
            assert(whole[left.len() + i] == right[i]);
        }
    }
    if is_blank(left) && is_blank(right) {
        assert forall|i: int| 0 <= i < whole.len() implies is_white_space(#[trigger] whole[i]) by {
            if i < left.len() {
                assert(left[i] == whole[i]);
            } else {
                assert(right[i - left.len()] == whole[i]);
            }
        }
    }
    let single = seq![character];
    assert(single[0] == character);
}

/// Beyond ASCII, white space is the next line, the spaces of fixed or no break, the separators of
/// lines and paragraphs, and the spaces of the ideographs and of mathematics; no letter or digit
/// is white space.
pub proof fn white_space_beyond_ascii(character: char)
    requires
        character as u32 >= 0x80,
    ensures
        is_white_space(character) <==> seq![
            0x85u32,
            0xA0,
            0x1680,
            0x2028,
            0x2029,
            0x202F,
            0x205F,
            0x3000,
        ].contains(character as u32) || 0x2000 <= character as u32 <= 0x200A,
{
    let codes = seq![0x85u32, 0xA0, 0x1680, 0x2028, 0x2029, 0x202F, 0x205F, 0x3000];
    assert(codes[0] == 0x85 && codes[1] == 0xA0 && codes[2] == 0x1680 && codes[3] == 0x2028
        && codes[4] == 0x2029 && codes[5] == 0x202F && codes[6] == 0x205F && codes[7] == 0x3000);
}

} // verus!
