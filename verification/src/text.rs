//! Text: what the library relies on of `str`, and decimal numbers.

use vstd::prelude::*;

verus! {

/// The characters with the Unicode property `White_Space`.
pub open spec fn is_white_space(c: char) -> bool {
    ||| '\u{9}' <= c <= '\u{d}'
    ||| c == '\u{20}'
    ||| c == '\u{85}'
    ||| c == '\u{a0}'
    ||| c == '\u{1680}'
    ||| '\u{2000}' <= c <= '\u{200a}'
    ||| c == '\u{2028}'
    ||| c == '\u{2029}'
    ||| c == '\u{202f}'
    ||| c == '\u{205f}'
    ||| c == '\u{3000}'
}

/// Whether every character is white space.
pub open spec fn is_blank(text: Seq<char>) -> bool {
    forall|i: int| 0 <= i < text.len() ==> is_white_space(#[trigger] text[i])
}

/// The text without its leading white space.
pub open spec fn trimmed_start(text: Seq<char>) -> Seq<char>
    decreases text.len(),
{
    if text.len() > 0 && is_white_space(text.first()) {
        trimmed_start(text.drop_first())
    } else {
        text
    }
}

/// The text without its trailing white space.
pub open spec fn trimmed_end(text: Seq<char>) -> Seq<char>
    decreases text.len(),
{
    if text.len() > 0 && is_white_space(text.last()) {
        trimmed_end(text.drop_last())
    } else {
        text
    }
}

/// The text without its leading and trailing white space.
pub open spec fn trimmed(text: Seq<char>) -> Seq<char> {
    trimmed_end(trimmed_start(text))
}

proof fn lemma_trimmed_start_blank(text: Seq<char>)
    ensures
        trimmed_start(text).len() == 0 <==> is_blank(text),
        trimmed_start(text).len() > 0 ==> !is_white_space(trimmed_start(text).first()),
    decreases text.len(),
{
    if text.len() > 0 && is_white_space(text.first()) {
        let rest = text.drop_first();
        lemma_trimmed_start_blank(rest);
        if is_blank(rest) {
            assert forall|i: int| 0 <= i < text.len() implies is_white_space(#[trigger] text[i]) by {
                if i > 0 {
                    assert(rest[i - 1] == text[i]);
                }
            }
        }
        if is_blank(text) {
            assert forall|i: int| 0 <= i < rest.len() implies is_white_space(#[trigger] rest[i]) by {
                assert(rest[i] == text[i + 1]);
            }
        }
    } else if text.len() > 0 {
        assert(!is_white_space(text[0]));
    }
}

proof fn lemma_trimmed_end_keeps_start(text: Seq<char>)
    requires
        text.len() > 0,
        !is_white_space(text.first()),
    ensures
        trimmed_end(text).len() > 0,
    decreases text.len(),
{
    if is_white_space(text.last()) {
        lemma_trimmed_end_keeps_start(text.drop_last());
    }
}

/// A text that does not start with white space keeps its start.
pub proof fn lemma_trimmed_start_keeps(text: Seq<char>)
    requires
        text.len() == 0 || !is_white_space(text.first()),
    ensures
        trimmed(text).is_prefix_of(text),
{
    lemma_trimmed_end_prefix(text);
}

proof fn lemma_trimmed_end_prefix(text: Seq<char>)
    ensures
        trimmed_end(text).is_prefix_of(text),
    decreases text.len(),
{
    if text.len() > 0 && is_white_space(text.last()) {
        lemma_trimmed_end_prefix(text.drop_last());
        let kept = trimmed_end(text);
        assert(kept =~= text.drop_last().subrange(0, kept.len() as int));
        assert(kept =~= text.subrange(0, kept.len() as int));
    } else {
        assert(text =~= text.subrange(0, text.len() as int));
    }
}

proof fn lemma_trimmed_start_suffix(text: Seq<char>)
    ensures
        trimmed_start(text).is_suffix_of(text),
    decreases text.len(),
{
    if text.len() > 0 && is_white_space(text.first()) {
        lemma_trimmed_start_suffix(text.drop_first());
        let kept = trimmed_start(text);
        let rest = text.drop_first();
        assert(kept =~= rest.subrange(rest.len() - kept.len(), rest.len() as int));
        assert(kept =~= text.subrange(text.len() - kept.len(), text.len() as int));
    } else {
        assert(text =~= text.subrange(0, text.len() as int));
    }
}

/// A trimmed text is no longer than the text, and has only its characters.
pub proof fn lemma_trimmed_within(text: Seq<char>)
    ensures
        trimmed(text).len() <= text.len(),
        forall|i: int|
            0 <= i < trimmed(text).len() ==> text.contains(#[trigger] trimmed(text)[i]),
{
    let start = trimmed_start(text);
    lemma_trimmed_start_suffix(text);
    lemma_trimmed_end_prefix(start);
    let kept = trimmed(text);
    assert forall|i: int| 0 <= i < kept.len() implies text.contains(#[trigger] kept[i]) by {
        assert(kept[i] == start[i]);
        assert(start[i] == text[text.len() - start.len() + i]);
    }
}

/// Trimming leaves nothing exactly when there is nothing but white space.
pub proof fn trimmed_is_empty_when_blank(text: Seq<char>)
    ensures
        trimmed(text).len() == 0 <==> is_blank(text),
{
    lemma_trimmed_start_blank(text);
    if trimmed_start(text).len() > 0 {
        lemma_trimmed_end_keeps_start(trimmed_start(text));
    }
}

/// The lower-case form of an ASCII letter; any other character as it is.
pub open spec fn ascii_lower(c: char) -> char {
    if 'A' <= c <= 'Z' {
        (c as u32 + 32) as char
    } else {
        c
    }
}

/// `str::trim`: the text without leading and trailing white space.
pub assume_specification[ str::trim ](text: &str) -> (r: &str)
    ensures
        r@ == trimmed(text@),
;

/// `str::to_ascii_lowercase`: a copy with each ASCII letter in lower case.
pub assume_specification[ str::to_ascii_lowercase ](text: &str) -> (r: String)
    ensures
        r@ == text@.map_values(|c: char| ascii_lower(c)),
;

/// `str::eq`: whether two texts have the same characters.
pub assume_specification[ <str as PartialEq<str>>::eq ](left: &str, right: &str) -> (r: bool)
    ensures
        r == (left@ == right@),
;

/// How `{:?}` writes a text: in double quotes, with escapes.
pub uninterp spec fn debug_form(text: Seq<char>) -> Seq<char>;

/// `<str as Debug>::fmt` through `format!`: the text in double quotes, with what
/// `char::escape_debug` escapes escaped.
#[verifier::external_body]
pub(crate) fn debug_text(text: &str) -> (r: String)
    ensures
        r@ == debug_form(text@),
{
    format!("{:?}", text)
}

/// The digit character for a value below ten.
pub open spec fn digit(value: int) -> char {
    (48 + value) as char
}

/// Decimal digits without leading zeros.
pub open spec fn decimal(value: nat) -> Seq<char>
    decreases value,
{
    if value < 10 {
        seq![digit(value as int)]
    } else {
        decimal(value / 10).push(digit((value % 10) as int))
    }
}

/// So many zeros.
pub open spec fn zeros(count: int) -> Seq<char> {
    Seq::new(
        if count > 0 {
            count as nat
        } else {
            0
        },
        |i: int| '0',
    )
}

/// Decimal digits, filled up with leading zeros to at least `width` characters.
pub open spec fn padded(value: nat, width: int) -> Seq<char> {
    zeros(width - decimal(value).len()) + decimal(value)
}

/// A number with a leading minus sign where it is negative, filled up with zeros
/// behind the sign to at least `width` characters.
pub open spec fn signed_padded(value: int, width: int) -> Seq<char> {
    if value < 0 {
        seq!['-'] + padded((-value) as nat, width - 1)
    } else {
        padded(value as nat, width)
    }
}

fn digit_text(value: u32) -> (r: &'static str)
    requires
        value < 10,
    ensures
        r@ == seq![digit(value as int)],
{
    proof {
        reveal_strlit("0");
        reveal_strlit("1");
        reveal_strlit("2");
        reveal_strlit("3");
        reveal_strlit("4");
        reveal_strlit("5");
        reveal_strlit("6");
        reveal_strlit("7");
        reveal_strlit("8");
        reveal_strlit("9");
    }
    let r = match value {
        0 => "0",
        1 => "1",
        2 => "2",
        3 => "3",
        4 => "4",
        5 => "5",
        6 => "6",
        7 => "7",
        8 => "8",
        _ => "9",
    };
    assert(r@ =~= seq![digit(value as int)]);
    r
}

/// Appends decimal digits without leading zeros.
pub fn write_decimal(output: &mut String, value: u32)
    ensures
        final(output)@ == old(output)@ + decimal(value as nat),
    decreases value,
{
    if value >= 10 {
        write_decimal(output, value / 10);
    }
    output.append(digit_text(value % 10));
    assert(output@ =~= old(output)@ + decimal(value as nat));
}

/// Taking the last digit off a padded number.
pub proof fn lemma_padded_last(value: nat, width: int)
    requires
        value >= 10 || width > 1,
    ensures
        padded(value, width) == padded(value / 10, width - 1).push(digit((value % 10) as int)),
{
    if value >= 10 {
        assert(padded(value, width) =~= padded(value / 10, width - 1).push(
            digit((value % 10) as int),
        ));
    } else {
        assert(decimal(value) =~= seq![digit(value as int)]);
        assert(decimal(0) =~= seq!['0']);
        assert(value / 10 == 0 && value % 10 == value);
        assert(padded(value, width) =~= padded(0, width - 1).push(digit(value as int)));
    }
}

/// Appends decimal digits, filled up with leading zeros.
pub fn write_padded(output: &mut String, value: u32, width: u32)
    ensures
        final(output)@ == old(output)@ + padded(value as nat, width as int),
    decreases value, width,
{
    if value >= 10 || width > 1 {
        let rest: u32 = if width > 0 {
            width - 1
        } else {
            0
        };
        write_padded(output, value / 10, rest);
        proof {
            lemma_padded_last(value as nat, width as int);
            if width == 0 {
                assert(zeros(0 - decimal((value / 10) as nat).len()) =~= zeros(
                    -1 - decimal((value / 10) as nat).len(),
                ));
            }
        }
    } else {
        assert(padded(value as nat, width as int) =~= seq![digit(value as int)]);
        assert(value % 10 == value);
    }
    output.append(digit_text(value % 10));
    assert(output@ =~= old(output)@ + padded(value as nat, width as int));
}

/// The number that a row of digits stands for.
pub open spec fn number(text: Seq<char>) -> int
    decreases text.len(),
{
    if text.len() == 0 {
        0
    } else {
        10 * number(text.drop_last()) + (text.last() as int - 48)
    }
}

/// Reading a padded number gives it back.
pub proof fn padded_number_reads_back(value: nat, width: int)
    ensures
        number(padded(value, width)) == value,
    decreases
            value,
            if width > 0 {
                width
            } else {
                0
            },
{
    if value >= 10 || width > 1 {
        lemma_padded_last(value, width);
        padded_number_reads_back(value / 10, width - 1);
        let text = padded(value, width);
        assert(text.drop_last() =~= padded(value / 10, width - 1));
    } else {
        let text = padded(value, width);
        assert(text =~= seq![digit(value as int)]);
        assert(number(text.drop_last()) == 0);
    }
}

/// A number below the next power of ten fills exactly its width.
pub proof fn lemma_padded_len(value: nat, width: nat)
    requires
        width == 2 ==> value < 100,
        width == 4 ==> value < 10000,
        width == 2 || width == 4,
    ensures
        padded(value, width as int).len() == width,
{
    reveal_with_fuel(decimal, 5);
}

proof fn lemma_padded_digits(value: nat, width: int)
    ensures
        padded(value, width).len() > 0,
        forall|i: int|
            0 <= i < padded(value, width).len() ==> '0' <= #[trigger] padded(value, width)[i]
                <= '9',
    decreases
            value,
            if width > 0 {
                width
            } else {
                0
            },
{
    if value >= 10 || width > 1 {
        lemma_padded_last(value, width);
        lemma_padded_digits(value / 10, width - 1);
    } else {
        assert(padded(value, width) =~= seq![digit(value as int)]);
    }
}

/// Numbers that are written alike are the same number.
pub proof fn signed_padded_is_unique(left: int, right: int, width: int)
    requires
        signed_padded(left, width) == signed_padded(right, width),
    ensures
        left == right,
{
    let (a, b) = (signed_padded(left, width), signed_padded(right, width));
    if left < 0 {
        padded_number_reads_back((-left) as nat, width - 1);
        assert(a.drop_first() =~= padded((-left) as nat, width - 1));
    } else {
        padded_number_reads_back(left as nat, width);
        lemma_padded_digits(left as nat, width);
        assert('0' <= a[0]);
    }
    if right < 0 {
        padded_number_reads_back((-right) as nat, width - 1);
        assert(b.drop_first() =~= padded((-right) as nat, width - 1));
    } else {
        padded_number_reads_back(right as nat, width);
        lemma_padded_digits(right as nat, width);
        assert('0' <= b[0]);
    }
}

/// Numbers with the same decimal digits are the same number.
pub proof fn decimal_is_unique(left: nat, right: nat)
    requires
        decimal(left) == decimal(right),
    ensures
        left == right,
{
    padded_number_reads_back(left, 0);
    padded_number_reads_back(right, 0);
    assert(padded(left, 0) =~= decimal(left));
    assert(padded(right, 0) =~= decimal(right));
}

/// Whether a text stands before another in the order of a dictionary.
pub open spec fn sorts_before(left: Seq<char>, right: Seq<char>) -> bool {
    exists|i: int|
        {
            &&& 0 <= i <= left.len()
            &&& i < right.len()
            &&& #[trigger] left.take(i) == right.take(i)
            &&& i == left.len() || left[i] < right[i]
        }
}

/// Numbers that fill the same width sort as they count.
pub proof fn lemma_padded_sorts(left: nat, right: nat, width: nat)
    requires
        left < right,
        padded(left, width as int).len() == width,
        padded(right, width as int).len() == width,
    ensures
        sorts_before(padded(left, width as int), padded(right, width as int)),
    decreases width,
{
    let (a, b) = (padded(left, width as int), padded(right, width as int));
    lemma_padded_digits(left, width as int);
    if width == 1 {
        if right >= 10 {
            lemma_padded_last(right, 1);
            lemma_padded_digits(right / 10, 0);
        }
        assert(a =~= seq![digit(left as int)]);
        assert(b =~= seq![digit(right as int)]);
        assert(a.take(0) =~= b.take(0));
    } else {
        lemma_padded_last(left, width as int);
        lemma_padded_last(right, width as int);
        let (x, y) = (padded(left / 10, width - 1), padded(right / 10, width - 1));
        if left / 10 < right / 10 {
            lemma_padded_sorts(left / 10, right / 10, (width - 1) as nat);
            let i = choose|i: int|
                {
                    &&& 0 <= i <= x.len()
                    &&& i < y.len()
                    &&& #[trigger] x.take(i) == y.take(i)
                    &&& i == x.len() || x[i] < y[i]
                };
            assert(a.take(i) =~= x.take(i));
            assert(b.take(i) =~= y.take(i));
            assert(a.take(i) == b.take(i));
        } else {
            let i = width - 1;
            assert(a.take(i) =~= x);
            assert(b.take(i) =~= y);
        }
    }
}

/// Texts of one length sort by their first block that differs.
pub proof fn lemma_block_sorts(left: Seq<char>, right: Seq<char>, start: int, end: int)
    requires
        left.len() == right.len(),
        0 <= start <= end <= left.len(),
        left.take(start) == right.take(start),
        sorts_before(left.subrange(start, end), right.subrange(start, end)),
    ensures
        sorts_before(left, right),
{
    let (a, b) = (left.subrange(start, end), right.subrange(start, end));
    let i = choose|i: int|
        {
            &&& 0 <= i <= a.len()
            &&& i < b.len()
            &&& #[trigger] a.take(i) == b.take(i)
            &&& i == a.len() || a[i] < b[i]
        };
    assert(left.take(start + i) =~= left.take(start) + a.take(i));
    assert(right.take(start + i) =~= right.take(start) + b.take(i));
    assert(left.take(start + i) == right.take(start + i));
    assert(left[start + i] == a[i] && right[start + i] == b[i]);
}

/// Equal blocks behind equal starts.
pub proof fn lemma_take_further(left: Seq<char>, right: Seq<char>, start: int, end: int)
    requires
        0 <= start <= end <= left.len(),
        end <= right.len(),
        left.take(start) == right.take(start),
        left.subrange(start, end) == right.subrange(start, end),
    ensures
        left.take(end) == right.take(end),
{
    assert(left.take(end) =~= left.take(start) + left.subrange(start, end));
    assert(right.take(end) =~= right.take(start) + right.subrange(start, end));
}

/// Trimming takes off white space at both ends and nothing else, and leaves none
/// there.
pub proof fn trimming_takes_white_space_off_the_ends(text: Seq<char>)
    ensures
        exists|before: Seq<char>, behind: Seq<char>|
            is_blank(before) && is_blank(behind) && text == #[trigger] (before + trimmed(text)
                + behind),
        trimmed(text).len() > 0 ==> !is_white_space(trimmed(text)[0]) && !is_white_space(
            trimmed(text)[trimmed(text).len() - 1],
        ),
{
    let start = trimmed_start(text);
    lemma_trimmed_start_splits(text);
    lemma_trimmed_end_splits(start);
    let before = choose|before: Seq<char>| is_blank(before) && text == #[trigger] (before + start);
    let behind = choose|behind: Seq<char>|
        is_blank(behind) && start == #[trigger] (trimmed_end(start) + behind);
    assert(text =~= before + trimmed(text) + behind);
    lemma_trimmed_start_blank(text);
    if trimmed(text).len() > 0 {
        assert(trimmed(text)[0] == start[0]);
    }
}

proof fn lemma_trimmed_start_splits(text: Seq<char>)
    ensures
        exists|before: Seq<char>| is_blank(before) && text == #[trigger] (before + trimmed_start(
            text,
        )),
    decreases text.len(),
{
    let start = trimmed_start(text);
    if text.len() > 0 && is_white_space(text.first()) {
        let rest = text.drop_first();
        lemma_trimmed_start_splits(rest);
        let before = choose|before: Seq<char>| is_blank(before) && rest == #[trigger] (before
            + trimmed_start(rest));
        assert(rest == before + start);
        assert(text =~= seq![text[0]] + rest);
        let longer = seq![text[0]] + before;
        assert(is_blank(longer)) by {
            assert forall|i: int| 0 <= i < longer.len() implies is_white_space(
                #[trigger] longer[i],
            ) by {
                if i > 0 {
                    assert(longer[i] == before[i - 1]);
                }
            }
        }
        assert(text =~= longer + start);
    } else {
        let nothing = Seq::<char>::empty();
        assert(is_blank(nothing));
        assert(text =~= nothing + start);
    }
}

proof fn lemma_trimmed_end_splits(text: Seq<char>)
    ensures
        exists|behind: Seq<char>| is_blank(behind) && text == #[trigger] (trimmed_end(text)
            + behind),
        trimmed_end(text).len() > 0 ==> !is_white_space(
            trimmed_end(text)[trimmed_end(text).len() - 1],
        ),
    decreases text.len(),
{
    let end = trimmed_end(text);
    if text.len() > 0 && is_white_space(text.last()) {
        let rest = text.drop_last();
        lemma_trimmed_end_splits(rest);
        let behind = choose|behind: Seq<char>| is_blank(behind) && rest == #[trigger] (trimmed_end(
            rest,
        ) + behind);
        assert(rest == end + behind);
        assert(text =~= rest.push(text.last()));
        let longer = behind.push(text.last());
        assert(is_blank(longer)) by {
            assert forall|i: int| 0 <= i < longer.len() implies is_white_space(
                #[trigger] longer[i],
            ) by {
                if i < behind.len() {
                    assert(longer[i] == behind[i]);
                }
            }
        }
        assert(text =~= end + longer);
    } else {
        let nothing = Seq::<char>::empty();
        assert(is_blank(nothing));
        assert(text =~= end + nothing);
    }
}

/// Whether every character is a digit.
pub open spec fn all_digits(text: Seq<char>) -> bool {
    forall|i: int| 0 <= i < text.len() ==> '0' <= #[trigger] text[i] <= '9'
}

/// The decimal digits of a number read back as the number, and start with a zero only
/// for zero itself.
pub proof fn decimals_read_back(value: nat)
    ensures
        all_digits(decimal(value)),
        decimal(value).len() > 0,
        number(decimal(value)) == value,
        decimal(value)[0] == '0' <==> value == 0,
        value == 0 ==> decimal(value).len() == 1,
{
    padded_number_reads_back(value, 0);
    lemma_padded_digits(value, 0);
    assert(padded(value, 0) =~= decimal(value));
    lemma_no_leading_zero(value);
}

proof fn lemma_no_leading_zero(value: nat)
    ensures
        decimal(value).len() > 0,
        value > 0 <==> decimal(value)[0] != '0',
        value == 0 ==> decimal(value).len() == 1,
    decreases value,
{
    if value >= 10 {
        lemma_no_leading_zero(value / 10);
    }
}

/// A padded number has only digits and at least its width, reads back as the number,
/// and is no longer than its digits need.
pub proof fn padded_numbers_read_back(value: nat, width: int)
    ensures
        all_digits(padded(value, width)),
        padded(value, width).len() >= width,
        number(padded(value, width)) == value,
        padded(value, width).len() == width || padded(value, width) == decimal(value),
{
    padded_number_reads_back(value, width);
    lemma_padded_digits(value, width);
    if width <= decimal(value).len() {
        assert(padded(value, width) =~= decimal(value));
    }
}

/// A number with a sign reads back: a minus sign stands exactly before a negative one,
/// and the digits behind it read as its amount. It is longer than its width only where
/// its digits need that.
pub proof fn signed_numbers_read_back(value: int, width: int)
    ensures
        ({
            let text = signed_padded(value, width);
            &&& text.len() >= width
            &&& text.len() > 0
            &&& value < 0 <==> text[0] == '-'
            &&& value < 0 ==> all_digits(text.skip(1)) && number(text.skip(1)) == -value
            &&& value < 0 ==> text.len() == width || text.skip(1) == decimal((-value) as nat)
            &&& value >= 0 ==> all_digits(text) && number(text) == value
            &&& value >= 0 ==> text.len() == width || text == decimal(value as nat)
        }),
{
    let text = signed_padded(value, width);
    if value < 0 {
        padded_numbers_read_back((-value) as nat, width - 1);
        assert(text.skip(1) =~= padded((-value) as nat, width - 1));
    } else {
        padded_numbers_read_back(value as nat, width);
        lemma_padded_digits(value as nat, width);
        assert('0' <= text[0]);
    }
}

/// Numbers are written behind what is there, and read back.
pub proof fn numbers_are_appended(value: u32, width: u32)
    ensures
        forall|output: &mut String| #[trigger]
            call_ensures(write_decimal, (output, value), ()) ==> {
                let digits = final(output)@.skip((*output)@.len() as int);
                &&& final(output)@ == (*output)@ + digits
                &&& all_digits(digits)
                &&& number(digits) == value
                &&& digits.len() > 1 ==> digits[0] != '0'
            },
        forall|output: &mut String| #[trigger]
            call_ensures(write_padded, (output, value, width), ()) ==> {
                let digits = final(output)@.skip((*output)@.len() as int);
                &&& final(output)@ == (*output)@ + digits
                &&& all_digits(digits)
                &&& number(digits) == value
                &&& digits.len() >= width
                &&& digits.len() == width || digits.len() == 1 || digits[0] != '0'
            },
{
    assert forall|output: &mut String| #[trigger]
        call_ensures(write_decimal, (output, value), ()) implies {
        let digits = final(output)@.skip((*output)@.len() as int);
        &&& final(output)@ == (*output)@ + digits
        &&& all_digits(digits)
        &&& number(digits) == value
        &&& digits.len() > 1 ==> digits[0] != '0'
    } by {
        decimals_read_back(value as nat);
        assert(final(output)@.skip((*output)@.len() as int) =~= decimal(value as nat));
    }
    assert forall|output: &mut String| #[trigger]
        call_ensures(write_padded, (output, value, width), ()) implies {
        let digits = final(output)@.skip((*output)@.len() as int);
        &&& final(output)@ == (*output)@ + digits
        &&& all_digits(digits)
        &&& number(digits) == value
        &&& digits.len() >= width
        &&& digits.len() == width || digits.len() == 1 || digits[0] != '0'
    } by {
        decimals_read_back(value as nat);
        padded_numbers_read_back(value as nat, width as int);
        assert(final(output)@.skip((*output)@.len() as int) =~= padded(
            value as nat,
            width as int,
        ));
    }
}

} // verus!
