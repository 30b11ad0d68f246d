//! Text the library assembles: decimal numbers and hexadecimal digests.

use vstd::prelude::*;
use vstd::string::*;

verus! {

/// `std::string::String::push` appends one character to the end.
pub assume_specification[ std::string::String::push ](receiver: &mut String, pushed: char)
    ensures
        final(receiver)@ == old(receiver)@.push(pushed),
;

/// The character of one decimal digit.
pub open spec fn digit_char(digit: nat) -> char {
    (48 + digit) as char
}

/// `number` in decimal, without leading zeros.
pub open spec fn decimal(number: nat) -> Seq<char>
    decreases number,
{
    if number < 10 {
        seq![digit_char(number)]
    } else {
        decimal(number / 10).push(digit_char(number % 10))
    }
}

/// Appends `number` in decimal.
pub fn push_decimal(text: &mut String, number: u64)
    ensures
        final(text)@ == old(text)@ + decimal(number as nat),
    decreases number,
{
    if number >= 10 {
        push_decimal(text, number / 10);
    }
    let digit: u8 = (number % 10) as u8;
    text.push((48 + digit) as char);
    assert(text@ =~= old(text)@ + decimal(number as nat));
}

/// Whether two texts hold the same characters.
pub fn same_text(left: &str, right: &str) -> (same: bool)
    ensures
        same == (left@ == right@),
{
    left.to_owned() == right.to_owned()
}

/// Whether `part` stands in `whole` at position `at`.
pub open spec fn stands_at(whole: Seq<char>, at: int, part: Seq<char>) -> bool {
    &&& 0 <= at
    &&& at + part.len() <= whole.len()
    &&& whole.subrange(at, at + part.len()) == part
}

/// Whether `part` stands anywhere in `whole`.
pub open spec fn contained(whole: Seq<char>, part: Seq<char>) -> bool {
    exists|at: int| #[trigger] stands_at(whole, at, part)
}

/// Whether `part` stands in `whole` at position `at`.
pub fn matches_at(whole: &str, at: usize, part: &str) -> (found: bool)
    requires
        at <= whole@.len(),
    ensures
        found == stands_at(whole@, at as int, part@),
{
    let length: usize = part.unicode_len();
    if length > whole.unicode_len() - at {
        return false;
    }
    let mut i: usize = 0;
    while i < length
        invariant
            i <= length,
            length == part@.len(),
            at + length <= whole@.len(),
            whole@.len() <= usize::MAX,
            forall|k: int| 0 <= k < i ==> whole@[at + k] == part@[k],
        decreases length - i,
    {
        if whole.get_char(at + i) != part.get_char(i) {
            assert(whole@.subrange(at as int, at + length)[i as int] != part@[i as int]);
            return false;
        }
        i = i + 1;
    }
    assert(whole@.subrange(at as int, at + length) =~= part@);
    true
}

/// Whether `part` stands anywhere in `whole`.
pub fn contains_text(whole: &str, part: &str) -> (found: bool)
    ensures
        found == contained(whole@, part@),
{
    let length: usize = whole.unicode_len();
    let mut at: usize = 0;
    loop
        invariant
            at <= length,
            length == whole@.len(),
            forall|k: int| 0 <= k < at ==> !#[trigger] stands_at(whole@, k, part@),
        decreases length - at,
    {
        if matches_at(whole, at, part) {
            return true;
        }
        if at == length {
            return false;
        }
        at = at + 1;
    }
}

/// `count` spaces.
pub open spec fn spaces(count: int) -> Seq<char> {
    if count > 0 {
        Seq::new(count as nat, |i: int| ' ')
    } else {
        Seq::empty()
    }
}

/// Appends `count` spaces.
fn push_spaces(text: &mut String, count: usize)
    ensures
        final(text)@ == old(text)@ + spaces(count as int),
{
    let mut i: usize = 0;
    assert(text@ =~= old(text)@ + spaces(0));
    while i < count
        invariant
            i <= count,
            text@ == old(text)@ + spaces(i as int),
        decreases count - i,
    {
        text.push(' ');
        i = i + 1;
        assert(text@ =~= old(text)@ + spaces(i as int));
    }
}

/// A field at the left of a column.
pub open spec fn left_aligned(field: Seq<char>, width: int) -> Seq<char> {
    field + spaces(width - field.len())
}

/// A field at the right of a column.
pub open spec fn right_aligned(field: Seq<char>, width: int) -> Seq<char> {
    spaces(width - field.len()) + field
}

/// Appends a field at the left of a column.
pub fn push_left(text: &mut String, field: &str, width: usize)
    ensures
        final(text)@ == old(text)@ + left_aligned(field@, width as int),
{
    let length: usize = field.unicode_len();
    text.append(field);
    if length < width {
        push_spaces(text, width - length);
    }
    assert(text@ =~= old(text)@ + left_aligned(field@, width as int));
}

/// Appends a field at the right of a column.
pub fn push_right(text: &mut String, field: &str, width: usize)
    ensures
        final(text)@ == old(text)@ + right_aligned(field@, width as int),
{
    let length: usize = field.unicode_len();
    if length < width {
        push_spaces(text, width - length);
    }
    text.append(field);
    assert(text@ =~= old(text)@ + right_aligned(field@, width as int));
}

/// Decimal texts tell numbers apart.
pub proof fn law_decimal_is_injective(a: nat, b: nat)
    requires
        decimal(a) == decimal(b),
    ensures
        a == b,
    decreases a,
{
    lemma_decimal_shape(a);
    lemma_decimal_shape(b);
    if a < 10 && b < 10 {
        assert(decimal(a)[0] == digit_char(a));
        assert(decimal(b)[0] == digit_char(b));
    } else if a >= 10 && b >= 10 {
        assert(decimal(a).drop_last() =~= decimal(a / 10));
        assert(decimal(b).drop_last() =~= decimal(b / 10));
        law_decimal_is_injective(a / 10, b / 10);
        assert(decimal(a).last() == digit_char(a % 10));
        assert(decimal(b).last() == digit_char(b % 10));
        assert(a % 10 == b % 10);
        assert(a == 10 * (a / 10) + a % 10);
        assert(b == 10 * (b / 10) + b % 10);
    }
}

/// A number below ten has one digit, a larger one more.
proof fn lemma_decimal_shape(number: nat)
    ensures
        number < 10 ==> decimal(number).len() == 1,
        number >= 10 ==> decimal(number).len() > 1,
    decreases number,
{
    if number >= 10 {
        lemma_decimal_shape(number / 10);
    }
}

/// Whether a mark stands nowhere in a text.
pub open spec fn free_of(whole: Seq<char>, mark: char) -> bool {
    forall|i: int| 0 <= i < whole.len() ==> #[trigger] whole[i] != mark
}

/// The pieces of a text between the places where a mark stands. There is always
/// one piece more than there are marks.
pub open spec fn split(whole: Seq<char>, mark: char) -> Seq<Seq<char>>
    decreases whole.len(),
{
    if whole.len() == 0 {
        seq![Seq::empty()]
    } else {
        let pieces = split(whole.drop_last(), mark);
        if whole.last() == mark {
            pieces.push(Seq::empty())
        } else {
            pieces.update(pieces.len() - 1, pieces.last().push(whole.last()))
        }
    }
}

/// Splitting goes on where it was: a text without the mark lengthens the last
/// piece.
pub proof fn lemma_split_goes_on(start: Seq<char>, more: Seq<char>, mark: char)
    requires
        free_of(more, mark),
    ensures
        split(start, mark).len() > 0,
        split(start + more, mark) == split(start, mark).update(
            split(start, mark).len() - 1,
            split(start, mark).last() + more,
        ),
    decreases start.len() + more.len(),
{
    if start.len() > 0 {
        lemma_split_is_never_empty(start, mark);
    }
    let pieces = split(start, mark);
    if more.len() == 0 {
        assert(start + more =~= start);
        assert(pieces.last() + more =~= pieces.last());
        assert(pieces.update(pieces.len() - 1, pieces.last()) =~= pieces);
    } else {
        let rest = more.drop_last();
        assert(free_of(rest, mark)) by {
            assert forall|i: int| 0 <= i < rest.len() implies #[trigger] rest[i] != mark by {
                assert(rest[i] == more[i]);
            }
        }
        lemma_split_goes_on(start, rest, mark);
        assert((start + more).drop_last() =~= start + rest);
        assert(more[more.len() - 1] != mark);
        assert(pieces.last() + more =~= (pieces.last() + rest).push(more.last()));
        assert(split(start + more, mark) =~= pieces.update(
            pieces.len() - 1,
            pieces.last() + more,
        ));
    }
}

proof fn lemma_split_is_never_empty(whole: Seq<char>, mark: char)
    ensures
        split(whole, mark).len() > 0,
    decreases whole.len(),
{
    if whole.len() > 0 {
        lemma_split_is_never_empty(whole.drop_last(), mark);
    }
}

/// A mark ends a piece and begins an empty one.
pub proof fn lemma_split_at_mark(start: Seq<char>, mark: char)
    ensures
        split(start.push(mark), mark) == split(start, mark).push(Seq::empty()),
{
    assert(start.push(mark).drop_last() =~= start);
}

/// Texts in a row with a mark between each two.
pub open spec fn joined_by(parts: Seq<Seq<char>>, mark: char) -> Seq<char>
    decreases parts.len(),
{
    if parts.len() == 0 {
        Seq::empty()
    } else if parts.len() == 1 {
        parts[0]
    } else {
        joined_by(parts.drop_last(), mark).push(mark) + parts.last()
    }
}

/// Splitting undoes joining: texts that do not hold the mark come back.
pub proof fn law_split_undoes_joining(parts: Seq<Seq<char>>, mark: char)
    requires
        parts.len() > 0,
        forall|i: int| 0 <= i < parts.len() ==> free_of(#[trigger] parts[i], mark),
    ensures
        split(joined_by(parts, mark), mark) == parts,
    decreases parts.len(),
{
    let empty = Seq::<char>::empty();
    if parts.len() == 1 {
        assert(split(empty, mark) =~= seq![empty]);
        lemma_split_goes_on(empty, parts[0], mark);
        assert(empty + parts[0] =~= parts[0]);
        assert(split(joined_by(parts, mark), mark) =~= parts);
    } else {
        let rest = parts.drop_last();
        assert forall|i: int| 0 <= i < rest.len() implies free_of(#[trigger] rest[i], mark) by {
            assert(free_of(parts[i], mark));
        }
        law_split_undoes_joining(rest, mark);
        let start = joined_by(rest, mark);
        lemma_split_at_mark(start, mark);
        assert(free_of(parts[parts.len() - 1], mark));
        lemma_split_goes_on(start.push(mark), parts.last(), mark);
        assert(empty + parts.last() =~= parts.last());
        assert(split(joined_by(parts, mark), mark) =~= parts);
    }
}

/// The words of a text: what stands between its spaces.
pub open spec fn words(whole: Seq<char>) -> Seq<Seq<char>>
    decreases whole.len(),
{
    if whole.len() == 0 {
        Seq::empty()
    } else if whole.last() == ' ' {
        words(whole.drop_last())
    } else if whole.len() == 1 || whole[whole.len() - 2] == ' ' {
        words(whole.drop_last()).push(seq![whole.last()])
    } else {
        let before = words(whole.drop_last());
        before.update(before.len() - 1, before.last().push(whole.last()))
    }
}

/// Whether a text is one word.
pub open spec fn is_word(whole: Seq<char>) -> bool {
    whole.len() > 0 && free_of(whole, ' ')
}

/// A word behind a space is one more word.
pub proof fn lemma_one_more_word(start: Seq<char>, word: Seq<char>)
    requires
        is_word(word),
        start.len() == 0 || start.last() == ' ',
    ensures
        words(start + word) == words(start).push(word),
    decreases word.len(),
{
    let rest = word.drop_last();
    let whole = start + word;
    assert(whole.drop_last() =~= start + rest);
    assert(word[word.len() - 1] != ' ');
    if rest.len() == 0 {
        assert(whole.drop_last() =~= start);
        assert(seq![whole.last()] =~= word);
        assert(words(whole) =~= words(start).push(word));
    } else {
        assert forall|i: int| 0 <= i < rest.len() implies #[trigger] rest[i] != ' ' by {
            assert(word[i] != ' ');
        }
        lemma_one_more_word(start, rest);
        assert(whole[whole.len() - 2] == word[word.len() - 2]);
        assert(word[word.len() - 2] != ' ');
        assert(rest.push(word.last()) =~= word);
        assert(words(whole) =~= words(start).push(word));
    }
}

/// Spaces add no word.
pub proof fn lemma_spaces_add_no_word(start: Seq<char>, gap: Seq<char>)
    requires
        forall|i: int| 0 <= i < gap.len() ==> #[trigger] gap[i] == ' ',
    ensures
        words(start + gap) == words(start),
        gap.len() > 0 ==> (start + gap).last() == ' ',
    decreases gap.len(),
{
    if gap.len() == 0 {
        assert(start + gap =~= start);
    } else {
        let rest = gap.drop_last();
        assert forall|i: int| 0 <= i < rest.len() implies #[trigger] rest[i] == ' ' by {
            assert(gap[i] == ' ');
        }
        lemma_spaces_add_no_word(start, rest);
        assert((start + gap).drop_last() =~= start + rest);
        assert(gap[gap.len() - 1] == ' ');
    }
}

/// A column at the left adds its word.
pub proof fn lemma_left_column(start: Seq<char>, word: Seq<char>, width: int)
    requires
        is_word(word),
        start.len() == 0 || start.last() == ' ',
    ensures
        ({
            let line = start + left_aligned(word, width) + " "@;
            &&& words(line) == words(start).push(word)
            &&& line.last() == ' '
        }),
{
    reveal_strlit(" ");
    let gap = spaces(width - word.len()) + " "@;
    lemma_one_more_word(start, word);
    lemma_spaces_add_no_word(start + word, gap);
    assert(start + left_aligned(word, width) + " "@ =~= start + word + gap);
}

/// A column at the right adds its word.
pub proof fn lemma_right_column(start: Seq<char>, word: Seq<char>, width: int)
    requires
        is_word(word),
        start.len() == 0 || start.last() == ' ',
    ensures
        ({
            let line = start + right_aligned(word, width) + " "@;
            &&& words(line) == words(start).push(word)
            &&& line.last() == ' '
        }),
{
    reveal_strlit(" ");
    let gap = spaces(width - word.len());
    lemma_spaces_add_no_word(start, gap);
    if gap.len() == 0 {
        assert(start + gap =~= start);
    }
    lemma_one_more_word(start + gap, word);
    lemma_spaces_add_no_word(start + gap + word, " "@);
    assert(start + right_aligned(word, width) + " "@ =~= start + gap + word + " "@);
}

/// A column at the right with a unit adds its word and the unit.
pub proof fn lemma_column_with_unit(
    start: Seq<char>,
    word: Seq<char>,
    width: int,
    unit: Seq<char>,
    spaced: Seq<char>,
)
    requires
        is_word(word),
        is_word(unit),
        spaced == " "@ + unit + " "@,
        start.len() == 0 || start.last() == ' ',
    ensures
        ({
            let line = start + right_aligned(word, width) + spaced;
            &&& words(line) == words(start).push(word).push(unit)
            &&& line.last() == ' '
        }),
{
    reveal_strlit(" ");
    lemma_right_column(start, word, width);
    let line = start + right_aligned(word, width) + " "@;
    lemma_one_more_word(line, unit);
    lemma_spaces_add_no_word(line + unit, " "@);
    assert(start + right_aligned(word, width) + spaced =~= line + unit + " "@);
}

/// The number that a text of decimal digits stands for.
pub open spec fn decimal_value(digits: Seq<char>) -> int
    decreases digits.len(),
{
    if digits.len() == 0 {
        0
    } else {
        10 * decimal_value(digits.drop_last()) + (digits.last() as int - '0' as int)
    }
}

/// Whether a character is a decimal digit.
pub open spec fn is_digit(character: char) -> bool {
    '0' <= character <= '9'
}

/// A number in decimal can be read back: its text is made of digits, which stand for
/// the number, and begins with a zero only where it is zero.
pub proof fn law_decimal_reads_back(number: nat)
    ensures
        decimal_value(decimal(number)) == number,
        decimal(number).len() > 0,
        forall|i: int| 0 <= i < decimal(number).len() ==> is_digit(#[trigger] decimal(number)[i]),
        decimal(number)[0] == '0' ==> number == 0,
    decreases number,
{
    if number >= 10 {
        law_decimal_reads_back(number / 10);
        assert(decimal(number).drop_last() =~= decimal(number / 10));
    } else {
        assert(decimal(number).drop_last() =~= Seq::<char>::empty());
        assert(decimal_value(Seq::<char>::empty()) == 0);
    }
}

/// A field in a column is its text and spaces: a short one fills the column exactly,
/// a long one stands as it is, and the spaces are on the other side.
pub proof fn law_fields_fill_their_columns(field: Seq<char>, width: int)
    ensures
        field.len() <= width ==> left_aligned(field, width).len() == width
            && right_aligned(field, width).len() == width,
        field.len() >= width ==> left_aligned(field, width) == field && right_aligned(
            field,
            width,
        ) == field,
        left_aligned(field, width).take(field.len() as int) == field,
        right_aligned(field, width).skip(right_aligned(field, width).len() - field.len()) == field,
        forall|i: int|
            field.len() <= i < left_aligned(field, width).len() ==> #[trigger] left_aligned(
                field,
                width,
            )[i] == ' ',
        forall|i: int|
            0 <= i < right_aligned(field, width).len() - field.len() ==> #[trigger] right_aligned(
                field,
                width,
            )[i] == ' ',
{
    assert(left_aligned(field, width).take(field.len() as int) =~= field);
    assert(right_aligned(field, width).skip(right_aligned(field, width).len() - field.len())
        =~= field);
    if field.len() >= width {
        assert(left_aligned(field, width) =~= field);
        assert(right_aligned(field, width) =~= field);
    }
}

/// Whether `inner` stands in `whole` right behind a text that ends with `mark`, that is
/// `before` it.
pub open spec fn stands_behind(
    whole: Seq<char>,
    before: Seq<char>,
    mark: Seq<char>,
    inner: Seq<char>,
) -> bool {
    &&& whole.take((before.len() + mark.len()) as int) == before + mark
    &&& stands_at(whole, (before.len() + mark.len()) as int, inner)
}

/// Whether a text ends with `last`.
pub open spec fn ends_with(whole: Seq<char>, last: Seq<char>) -> bool {
    last.len() <= whole.len() && whole.skip(whole.len() - last.len()) == last
}

/// A message of four parts holds each of them in its place.
pub proof fn lemma_message_of_four(
    first: Seq<char>,
    left: Seq<char>,
    middle: Seq<char>,
    right: Seq<char>,
)
    ensures
        ({
            let whole = first + left + middle + right;
            &&& stands_behind(whole, Seq::empty(), first, left)
            &&& stands_behind(whole, first + left, middle, right)
            &&& ends_with(whole, right)
        }),
{
    let whole = first + left + middle + right;
    let empty = Seq::<char>::empty();
    assert(whole.take((empty.len() + first.len()) as int) =~= empty + first);
    assert(whole.subrange(first.len() as int, first.len() as int + left.len()) =~= left);
    let start = (first + left).len() + middle.len();
    assert(whole.take(start as int) =~= (first + left) + middle);
    assert(whole.subrange(start as int, start as int + right.len()) =~= right);
    assert(whole.skip(whole.len() - right.len()) =~= right);
}

} // verus!
