//! The filter directives, and which of them can be read.

use tracing_subscriber::EnvFilter;
use vstd::prelude::*;
use vstd::utf8::{
    char_is_scalar, encode_scalar, encode_utf8, encode_utf8_first_scalar, encode_utf8_valid_utf8,
    is_char_boundary, pop_first_scalar,
};

use crate::text::{is_white_space, lemma_trimmed_start_keeps, lemma_trimmed_within, trimmed};

verus! {

/// Which events are let through.
#[verifier::external_type_specification]
#[verifier::external_body]
pub struct ExEnvFilter(tracing_subscriber::EnvFilter);

/// The filter that a text of directives spells, or what is wrong with it.
pub uninterp spec fn parsed_filter(text: Seq<char>) -> Result<EnvFilter, Seq<char>>;

/// Whether a character is a letter or a digit by its Unicode properties.
pub uninterp spec fn alphanumeric(c: char) -> bool;

/// `char::is_alphanumeric`: whether the character is alphabetic or numeric by its
/// Unicode properties. Of ASCII, these are the letters and the digits.
pub assume_specification[ char::is_alphanumeric ](c: char) -> (r: bool)
    ensures
        r == alphanumeric(c),
        c <= '\u{7f}' ==> r == ('a' <= c <= 'z' || 'A' <= c <= 'Z' || '0' <= c <= '9'),
;

/// How many bytes a character takes in UTF-8.
pub open spec fn utf8_width(c: char) -> nat {
    if c <= '\u{7f}' {
        1
    } else if c <= '\u{7ff}' {
        2
    } else if c <= '\u{ffff}' {
        3
    } else {
        4
    }
}

/// How many bytes a text takes in UTF-8.
pub open spec fn utf8_len(text: Seq<char>) -> nat
    decreases text.len(),
{
    if text.len() == 0 {
        0
    } else {
        utf8_len(text.drop_last()) + utf8_width(text.last())
    }
}

/// Whether a position, counted in bytes, does not fall inside a character.
pub open spec fn is_between_characters(text: Seq<char>, position: int) -> bool {
    exists|i: int| 0 <= i <= text.len() && #[trigger] utf8_len(text.take(i)) == position
}

/// Where the reading of a directive stands. The numbers are the positions, counted
/// in bytes, where the piece that is being read starts.
#[derive(Debug, Clone, Copy, PartialEq, Eq, Structural)]
pub enum Part {
    Start,
    Name,
    Span(u128),
    Field(u128),
    FieldsEnd,
    SpanEnd,
    Level(u128),
    Refused,
}

impl Part {
    /// Whether a directive cannot start with a character.
    pub open spec fn cannot_start(c: char) -> bool {
        !alphanumeric(c) && c != '-' && c != ':' && c != '_'
    }

    /// Where the reading stands behind a character at a position:
    /// `name[span{field}]=level`.
    pub open spec fn next(self, position: int, c: char) -> Part {
        let behind = (position + 1) as u128;
        match self {
            Part::Start => if c == '[' {
                Part::Span(behind)
            } else if Part::cannot_start(c) {
                Part::Refused
            } else {
                Part::Name
            },
            Part::Name => if c == '=' {
                Part::Level(behind)
            } else if c == '[' {
                Part::Span(behind)
            } else {
                self
            },
            Part::Span(_) => if c == ']' {
                Part::SpanEnd
            } else if c == '{' {
                Part::Field(behind)
            } else {
                self
            },
            Part::Field(start) => if c != '}' {
                self
            } else if start == position {
                Part::Refused
            } else {
                Part::FieldsEnd
            },
            Part::FieldsEnd => if c == ']' {
                Part::SpanEnd
            } else {
                Part::Refused
            },
            Part::SpanEnd => if c == '=' {
                Part::Level(behind)
            } else {
                Part::Refused
            },
            Part::Level(_) => self,
            Part::Refused => self,
        }
    }

    /// Whether the piece that ends at a character, if one does, is cut off between
    /// characters.
    pub open spec fn cut_fits(self, directive: Seq<char>, position: int, c: char) -> bool {
        match self {
            Part::Name => c == '=' || c == '[' ==> is_between_characters(directive, position),
            Part::Span(start) => c == ']' || c == '{' ==> is_between_characters(
                directive,
                start as int,
            ) && is_between_characters(directive, position),
            Part::Field(start) => c == '}' ==> is_between_characters(directive, start as int)
                && is_between_characters(directive, position),
            _ => true,
        }
    }

    /// Whether the piece that ends with the directive is cut off between characters.
    pub open spec fn end_fits(self, directive: Seq<char>) -> bool {
        self matches Part::Level(start) ==> is_between_characters(directive, start as int)
    }
}

/// Whether a directive is cut only between characters when its positions are taken
/// from `text`, from character `i` on.
pub open spec fn cuts_fit(directive: Seq<char>, text: Seq<char>, i: int, part: Part) -> bool
    decreases text.len() - i,
{
    if i < 0 || i >= text.len() {
        part.end_fits(directive)
    } else {
        let position = utf8_len(text.take(i)) as int;
        &&& part.cut_fits(directive, position, text[i])
        &&& cuts_fit(directive, text, i + 1, part.next(position, text[i]))
    }
}

/// Whether the part of a text between two positions is one directive: what stands
/// between commas.
pub open spec fn is_directive(text: Seq<char>, start: int, end: int) -> bool {
    &&& 0 <= start < end <= text.len()
    &&& start == 0 || text[start - 1] == ','
    &&& end == text.len() || text[end] == ','
    &&& forall|i: int| start <= i < end ==> #[trigger] text[i] != ','
}

/// Whether a directive can be cut where its trimmed text says.
pub open spec fn can_be_cut(directive: Seq<char>) -> bool {
    cuts_fit(directive, trimmed(directive), 0, Part::Start)
}

/// Whether every directive of a text can be cut where its trimmed text says.
pub open spec fn is_readable(text: Seq<char>) -> bool {
    forall|start: int, end: int| #[trigger]
        is_directive(text, start, end) ==> can_be_cut(text.subrange(start, end))
}

/// Whether a text is a single word of ASCII letters.
pub open spec fn is_word(text: Seq<char>) -> bool {
    &&& text.len() > 0
    &&& forall|i: int|
        0 <= i < text.len() ==> 'a' <= #[trigger] text[i] <= 'z' || 'A' <= text[i] <= 'Z'
}

/// `EnvFilter::try_new`, its error as the text that `ParseError::to_string` gives:
/// the filter of the directives, or what is wrong with the first that is not
/// valid. A single word is valid: it is a level, or else a target.
/// `Directive::parse` counts positions from behind the white space that a
/// directive starts with, and cuts the directive with that white space there. It
/// panics where a cut falls inside a character. It also stops at a field whose
/// value is no regular expression, and what follows is then not cut; the condition
/// here does not depend on that.
#[verifier::external_body]
pub(crate) fn parse_filter(text: &str) -> (r: Result<EnvFilter, String>)
    requires
        is_readable(text@),
    ensures
        match (r, parsed_filter(text@)) {
            (Ok(filter), Ok(parsed)) => filter == parsed,
            (Err(error), Err(parsed)) => error@ == parsed,
            _ => false,
        },
        is_word(text@) ==> r is Ok,
{
    EnvFilter::try_new(text).map_err(|error| error.to_string())
}

fn width(c: char) -> (r: u128)
    ensures
        r == utf8_width(c),
{
    if c <= '\u{7f}' {
        1
    } else if c <= '\u{7ff}' {
        2
    } else if c <= '\u{ffff}' {
        3
    } else {
        4
    }
}

proof fn lemma_utf8_len_next(text: Seq<char>, i: int)
    requires
        0 <= i < text.len(),
    ensures
        utf8_len(text.take(i + 1)) == utf8_len(text.take(i)) + utf8_width(text[i]),
{
    assert(text.take(i + 1).drop_last() =~= text.take(i));
}

fn falls_between(text: &str, position: u128) -> (r: bool)
    ensures
        r == is_between_characters(text@, position as int),
{
    let len = text.unicode_len();
    let mut at: u128 = 0;
    let mut i: usize = 0;
    assert(text@.take(0) =~= Seq::empty());
    while i < len
        invariant
            len == text@.len(),
            i <= len,
            at == utf8_len(text@.take(i as int)),
            at <= 4 * i,
            forall|j: int| 0 <= j < i ==> #[trigger] utf8_len(text@.take(j)) != position,
        decreases len - i,
    {
        if at == position {
            return true;
        }
        proof {
            lemma_utf8_len_next(text@, i as int);
        }
        at = at + width(text.get_char(i));
        i = i + 1;
    }
    at == position
}

impl Part {
    fn step(self, position: u128, c: char) -> (r: Part)
        requires
            position < u128::MAX,
        ensures
            r == self.next(position as int, c),
    {
        let behind = position + 1;
        match self {
            Part::Start => if c == '[' {
                Part::Span(behind)
            } else if !c.is_alphanumeric() && c != '-' && c != ':' && c != '_' {
                Part::Refused
            } else {
                Part::Name
            },
            Part::Name => if c == '=' {
                Part::Level(behind)
            } else if c == '[' {
                Part::Span(behind)
            } else {
                self
            },
            Part::Span(_) => if c == ']' {
                Part::SpanEnd
            } else if c == '{' {
                Part::Field(behind)
            } else {
                self
            },
            Part::Field(start) => if c != '}' {
                self
            } else if start == position {
                Part::Refused
            } else {
                Part::FieldsEnd
            },
            Part::FieldsEnd => if c == ']' {
                Part::SpanEnd
            } else {
                Part::Refused
            },
            Part::SpanEnd => if c == '=' {
                Part::Level(behind)
            } else {
                Part::Refused
            },
            Part::Level(_) => self,
            Part::Refused => self,
        }
    }

    fn cuts_between(self, directive: &str, position: u128, c: char) -> (r: bool)
        ensures
            r == self.cut_fits(directive@, position as int, c),
    {
        match self {
            Part::Name => !(c == '=' || c == '[') || falls_between(directive, position),
            Part::Span(start) => !(c == ']' || c == '{') || (falls_between(directive, start)
                && falls_between(directive, position)),
            Part::Field(start) => c != '}' || (falls_between(directive, start) && falls_between(
                directive,
                position,
            )),
            _ => true,
        }
    }
}

fn directive_is_readable(directive: &str) -> (r: bool)
    ensures
        r == can_be_cut(directive@),
{
    let text = directive.trim();
    let len = text.unicode_len();
    let mut part = Part::Start;
    let mut position: u128 = 0;
    let mut i: usize = 0;
    assert(text@.take(0) =~= Seq::empty());
    while i < len
        invariant
            len == text@.len(),
            i <= len,
            position == utf8_len(text@.take(i as int)),
            position <= 4 * i,
            text@ == trimmed(directive@),
            can_be_cut(directive@) == cuts_fit(directive@, text@, i as int, part),
        decreases len - i,
    {
        let c = text.get_char(i);
        if !part.cuts_between(directive, position, c) {
            return false;
        }
        part = part.step(position, c);
        proof {
            lemma_utf8_len_next(text@, i as int);
        }
        position = position + width(c);
        i = i + 1;
    }
    match part {
        Part::Level(start) => falls_between(directive, start),
        _ => true,
    }
}

/// Whether every directive of a text can be cut where its trimmed text says.
pub fn filter_is_readable(text: &str) -> (r: bool)
    ensures
        r == is_readable(text@),
{
    let len = text.unicode_len();
    let mut start: usize = 0;
    while start < len
        invariant
            len == text@.len(),
            start <= len,
            start == 0 || text@[start - 1] == ',',
            forall|a: int, b: int|
                a < start && #[trigger] is_directive(text@, a, b) ==> can_be_cut(
                    text@.subrange(a, b),
                ),
        decreases len - start,
    {
        let mut end: usize = start;
        while end < len && text.get_char(end) != ','
            invariant
                len == text@.len(),
                start <= end <= len,
                forall|i: int| start <= i < end ==> #[trigger] text@[i] != ',',
            decreases len - end,
        {
            end = end + 1;
        }
        if start < end && !directive_is_readable(text.substring_char(start, end)) {
            assert(is_directive(text@, start as int, end as int));
            return false;
        }
        proof {
            assert forall|a: int, b: int|
                a <= end && #[trigger] is_directive(text@, a, b) implies can_be_cut(
                text@.subrange(a, b),
            ) by {
                if a == start {
                    if b < end {
                        assert(text@[b] == ',');
                    } else if b > end {
                        assert(text@[end as int] == ',');
                    }
                } else if a > start && a <= end {
                    assert(text@[a - 1] == ',');
                }
            }
        }
        if end == len {
            return true;
        }
        start = end + 1;
    }
    true
}

/// Cutting at the characters of a text whose positions all fall between characters
/// of the directive.
proof fn lemma_cuts_fit(directive: Seq<char>, text: Seq<char>, i: int, part: Part)
    requires
        0 <= i <= text.len(),
        utf8_len(text) < u128::MAX,
        forall|j: int|
            0 <= j <= text.len() ==> is_between_characters(
                directive,
                #[trigger] utf8_len(text.take(j)) as int,
            ),
        match part {
            Part::Span(start) => is_between_characters(directive, start as int),
            Part::Field(start) => is_between_characters(directive, start as int),
            Part::Level(start) => is_between_characters(directive, start as int),
            _ => true,
        },
    ensures
        cuts_fit(directive, text, i, part),
    decreases text.len() - i,
{
    if i < text.len() {
        let position = utf8_len(text.take(i)) as int;
        assert(is_between_characters(directive, position));
        lemma_utf8_len_next(text, i);
        lemma_utf8_len_grows(text, i + 1);
        assert(is_between_characters(directive, utf8_len(text.take(i + 1)) as int));
        lemma_cuts_fit(directive, text, i + 1, part.next(position, text[i]));
    }
}

proof fn lemma_utf8_len_grows(text: Seq<char>, i: int)
    requires
        0 <= i <= text.len(),
    ensures
        utf8_len(text.take(i)) <= utf8_len(text),
    decreases text.len() - i,
{
    if i < text.len() {
        lemma_utf8_len_next(text, i);
        lemma_utf8_len_grows(text, i + 1);
    } else {
        assert(text.take(i) =~= text);
    }
}

proof fn lemma_utf8_len_bound(text: Seq<char>)
    ensures
        utf8_len(text) <= 4 * text.len(),
    decreases text.len(),
{
    if text.len() > 0 {
        lemma_utf8_len_bound(text.drop_last());
    }
}

proof fn lemma_ascii_len(text: Seq<char>)
    requires
        forall|i: int| 0 <= i < text.len() ==> #[trigger] text[i] <= '\u{7f}',
    ensures
        utf8_len(text) == text.len(),
    decreases text.len(),
{
    if text.len() > 0 {
        let rest = text.drop_last();
        assert forall|i: int| 0 <= i < rest.len() implies #[trigger] rest[i] <= '\u{7f}' by {
            assert(rest[i] == text[i]);
        }
        lemma_ascii_len(rest);
        assert(text[text.len() - 1] <= '\u{7f}');
    }
}

proof fn lemma_plain_directive(directive: Seq<char>)
    requires
        0 < directive.len() <= usize::MAX,
        !is_white_space(directive[0]) || (forall|i: int|
            0 <= i < directive.len() ==> #[trigger] directive[i] <= '\u{7f}'),
    ensures
        can_be_cut(directive),
{
    let text = trimmed(directive);
    lemma_trimmed_within(directive);
    lemma_utf8_len_bound(text);
    assert forall|j: int| 0 <= j <= text.len() implies is_between_characters(
        directive,
        #[trigger] utf8_len(text.take(j)) as int,
    ) by {
        if !is_white_space(directive[0]) {
            lemma_trimmed_start_keeps(directive);
            assert(text =~= directive.subrange(0, text.len() as int));
            assert(text.take(j) =~= directive.take(j));
        } else {
            assert forall|i: int| 0 <= i < text.take(j).len() implies #[trigger] text.take(j)[i]
                <= '\u{7f}' by {
                assert(directive.contains(text[i]));
            }
            lemma_ascii_len(text.take(j));
            lemma_ascii_len(directive.take(j));
        }
        assert(utf8_len(directive.take(j)) == utf8_len(text.take(j)));
    }
    lemma_cuts_fit(directive, text, 0, Part::Start);
}

/// Filters whose directives have only ASCII characters or do not start with white
/// space can be read.
pub proof fn plain_filters_are_readable(text: Seq<char>)
    requires
        text.len() <= usize::MAX,
        forall|start: int, end: int| #[trigger]
            is_directive(text, start, end) ==> !is_white_space(text[start]) || (forall|i: int|
                start <= i < end ==> #[trigger] text[i] <= '\u{7f}'),
    ensures
        is_readable(text),
{
    assert forall|start: int, end: int| #[trigger] is_directive(text, start, end) implies can_be_cut(
        text.subrange(start, end),
    ) by {
        let directive = text.subrange(start, end);
        assert(directive[0] == text[start]);
        if is_white_space(text[start]) {
            assert forall|i: int| 0 <= i < directive.len() implies #[trigger] directive[i]
                <= '\u{7f}' by {
                assert(text[start + i] <= '\u{7f}');
            }
        }
        lemma_plain_directive(directive);
    }
}

/// A filter that is a single word can be read.
pub proof fn words_are_readable(text: Seq<char>)
    requires
        text.len() <= usize::MAX,
        is_word(text),
    ensures
        is_readable(text),
{
    plain_filters_are_readable(text);
}

/// The length of a text in UTF-8 is that of its encoding.
pub proof fn lengths_are_those_of_the_encoding(text: Seq<char>)
    ensures
        utf8_len(text) == encode_utf8(text).len(),
    decreases text.len(),
{
    if text.len() > 0 {
        lengths_are_those_of_the_encoding(text.drop_first());
        lemma_utf8_len_first(text);
        lemma_width(text[0]);
    }
}

proof fn lemma_width(c: char)
    ensures
        utf8_width(c) == encode_scalar(c as u32).len(),
{
    char_is_scalar(c);
}

proof fn lemma_utf8_len_first(text: Seq<char>)
    requires
        text.len() > 0,
    ensures
        utf8_len(text) == utf8_width(text[0]) + utf8_len(text.drop_first()),
    decreases text.len(),
{
    if text.len() == 1 {
        assert(text.drop_last() =~= Seq::empty());
        assert(text.drop_first() =~= Seq::empty());
    } else {
        lemma_utf8_len_first(text.drop_last());
        assert(text.drop_last().drop_first() =~= text.drop_first().drop_last());
    }
}

/// A position falls between characters exactly where it is a boundary in the encoding.
pub proof fn positions_between_characters_are_boundaries(text: Seq<char>, position: int)
    ensures
        is_between_characters(text, position) <==> is_char_boundary(encode_utf8(text), position),
    decreases text.len(),
{
    let bytes = encode_utf8(text);
    encode_utf8_valid_utf8(text);
    lengths_are_those_of_the_encoding(text);
    if text.len() == 0 {
        assert(text.take(0) =~= text);
        if is_between_characters(text, position) {
            let i = choose|i: int|
                0 <= i <= text.len() && #[trigger] utf8_len(text.take(i)) == position;
            assert(text.take(i) =~= text);
        }
        if position == 0 {
            assert(utf8_len(text.take(0)) == 0);
        }
    } else {
        let rest = text.drop_first();
        let width = utf8_width(text[0]) as int;
        encode_utf8_first_scalar(text);
        lemma_width(text[0]);
        assert(pop_first_scalar(bytes) =~= encode_utf8(rest));
        encode_utf8_valid_utf8(rest);
        positions_between_characters_are_boundaries(rest, position - width);
        assert(text.take(0) =~= Seq::empty());
        if is_between_characters(text, position) {
            let i = choose|i: int|
                0 <= i <= text.len() && #[trigger] utf8_len(text.take(i)) == position;
            lemma_utf8_len_grows(text, i);
            if i > 0 {
                lemma_utf8_len_first(text.take(i));
                assert(text.take(i).drop_first() =~= rest.take(i - 1));
                assert(utf8_len(rest.take(i - 1)) == position - width);
                assert(is_between_characters(rest, position - width));
            }
        }
        if position == 0 {
            assert(utf8_len(text.take(0)) == position);
        } else if is_between_characters(rest, position - width) {
            let i = choose|i: int|
                0 <= i <= rest.len() && #[trigger] utf8_len(rest.take(i)) == position - width;
            lemma_utf8_len_first(text.take(i + 1));
            assert(text.take(i + 1).drop_first() =~= rest.take(i));
            assert(utf8_len(text.take(i + 1)) == position);
        }
    }
}

/// A directive whose name would be cut off inside a character cannot be cut.
pub proof fn names_are_cut_between_characters(directive: Seq<char>, i: int)
    requires
        0 < i < trimmed(directive).len(),
        trimmed(directive)[i] == '=' || trimmed(directive)[i] == '[',
        forall|j: int|
            0 <= j < i ==> #[trigger] trimmed(directive)[j] != '=' && trimmed(directive)[j] != '[',
        alphanumeric(trimmed(directive)[0]),
        can_be_cut(directive),
    ensures
        is_char_boundary(
            encode_utf8(directive),
            encode_utf8(trimmed(directive).take(i)).len() as int,
        ),
{
    let text = trimmed(directive);
    assert(text[0] != '[');
    lemma_name_reaches(directive, 1, i);
    lengths_are_those_of_the_encoding(text.take(i));
    positions_between_characters_are_boundaries(directive, utf8_len(text.take(i)) as int);
}

proof fn lemma_name_reaches(directive: Seq<char>, from: int, i: int)
    requires
        0 < from <= i < trimmed(directive).len(),
        trimmed(directive)[i] == '=' || trimmed(directive)[i] == '[',
        forall|j: int|
            0 <= j < i ==> #[trigger] trimmed(directive)[j] != '=' && trimmed(directive)[j] != '[',
        cuts_fit(directive, trimmed(directive), from, Part::Name),
    ensures
        is_between_characters(directive, utf8_len(trimmed(directive).take(i)) as int),
    decreases i - from,
{
    if from < i {
        assert(trimmed(directive)[from] != '=');
        lemma_name_reaches(directive, from + 1, i);
    }
}

/// A directive whose level starts behind an equals sign that follows its name is cut
/// behind the sign too.
pub proof fn levels_are_cut_between_characters(directive: Seq<char>, i: int)
    requires
        directive.len() <= usize::MAX,
        0 < i < trimmed(directive).len(),
        trimmed(directive)[i] == '=',
        forall|j: int|
            0 <= j < i ==> #[trigger] trimmed(directive)[j] != '=' && trimmed(directive)[j] != '[',
        alphanumeric(trimmed(directive)[0]),
        can_be_cut(directive),
    ensures
        is_char_boundary(
            encode_utf8(directive),
            encode_utf8(trimmed(directive).take(i)).len() as int + 1,
        ),
{
    let text = trimmed(directive);
    lemma_trimmed_within(directive);
    lemma_utf8_len_bound(text);
    assert(text[0] != '[');
    lemma_name_leads_to(directive, 1, i);
    lemma_utf8_len_next(text, i);
    lemma_utf8_len_grows(text, i + 1);
    lemma_level_reaches(directive, i + 1, (utf8_len(text.take(i)) + 1) as u128);
    lengths_are_those_of_the_encoding(text.take(i));
    positions_between_characters_are_boundaries(directive, utf8_len(text.take(i)) as int + 1);
}

proof fn lemma_name_leads_to(directive: Seq<char>, from: int, i: int)
    requires
        0 < from <= i < trimmed(directive).len(),
        forall|j: int|
            0 <= j < i ==> #[trigger] trimmed(directive)[j] != '=' && trimmed(directive)[j] != '[',
        cuts_fit(directive, trimmed(directive), from, Part::Name),
    ensures
        cuts_fit(directive, trimmed(directive), i, Part::Name),
    decreases i - from,
{
    if from < i {
        assert(trimmed(directive)[from] != '=');
        lemma_name_leads_to(directive, from + 1, i);
    }
}

proof fn lemma_level_reaches(directive: Seq<char>, from: int, start: u128)
    requires
        0 <= from <= trimmed(directive).len(),
        cuts_fit(directive, trimmed(directive), from, Part::Level(start)),
    ensures
        is_between_characters(directive, start as int),
    decreases trimmed(directive).len() - from,
{
    if from < trimmed(directive).len() {
        lemma_level_reaches(directive, from + 1, start);
    }
}

/// Commas part a filter into filters that are read each for itself.
pub proof fn commas_part_filters(before: Seq<char>, behind: Seq<char>)
    ensures
        is_readable(before + seq![','] + behind) <==> is_readable(before) && is_readable(behind),
{
    let text = before + seq![','] + behind;
    let cut = before.len() as int;
    assert(text[cut] == ',');
    if is_readable(text) {
        assert forall|start: int, end: int| #[trigger]
            is_directive(before, start, end) implies can_be_cut(before.subrange(start, end)) by {
            assert forall|i: int| start <= i < end implies #[trigger] text[i] != ',' by {
                assert(text[i] == before[i]);
            }
            assert(is_directive(text, start, end));
            assert(text.subrange(start, end) =~= before.subrange(start, end));
        }
        assert forall|start: int, end: int| #[trigger]
            is_directive(behind, start, end) implies can_be_cut(behind.subrange(start, end)) by {
            let offset = cut + 1;
            assert forall|i: int| start + offset <= i < end + offset implies #[trigger] text[i]
                != ',' by {
                assert(text[i] == behind[i - offset]);
            }
            assert(is_directive(text, start + offset, end + offset));
            assert(text.subrange(start + offset, end + offset) =~= behind.subrange(start, end));
        }
    }
    if is_readable(before) && is_readable(behind) {
        assert forall|start: int, end: int| #[trigger]
            is_directive(text, start, end) implies can_be_cut(text.subrange(start, end)) by {
            assert(start <= cut < end ==> text[cut] != ',');
            if end <= cut {
                assert forall|i: int| start <= i < end implies #[trigger] before[i] != ',' by {
                    assert(text[i] == before[i]);
                }
                assert(is_directive(before, start, end));
                assert(text.subrange(start, end) =~= before.subrange(start, end));
            } else {
                let offset = cut + 1;
                assert forall|i: int| start - offset <= i < end - offset implies #[trigger] behind[i]
                    != ',' by {
                    assert(text[i + offset] == behind[i]);
                }
                assert(is_directive(behind, start - offset, end - offset));
                assert(text.subrange(start, end) =~= behind.subrange(
                    start - offset,
                    end - offset,
                ));
            }
        }
    }
}

/// A filter without a comma is one directive, and can be read where that can be cut.
pub proof fn single_directives_are_read_whole(directive: Seq<char>)
    requires
        forall|i: int| 0 <= i < directive.len() ==> #[trigger] directive[i] != ',',
    ensures
        directive.len() == 0 ==> is_readable(directive),
        directive.len() > 0 ==> (is_readable(directive) <==> can_be_cut(directive)),
{
    if directive.len() > 0 {
        assert(is_directive(directive, 0, directive.len() as int));
        assert(directive.subrange(0, directive.len() as int) =~= directive);
        assert forall|start: int, end: int| #[trigger]
            is_directive(directive, start, end) implies start == 0 && end == directive.len() by {
            assert(start > 0 ==> directive[start - 1] != ',');
            assert(end < directive.len() ==> directive[end] != ',');
        }
    }
}

/// It is told of every filter whether it can be read; one whose directives are of ASCII
/// characters can.
pub proof fn readable_filters_are_told(text: &str, readable: bool)
    requires
        text@.len() <= usize::MAX,
        call_ensures(filter_is_readable, (text,), readable),
    ensures
        readable <==> is_readable(text@),
        (forall|i: int| 0 <= i < text@.len() ==> #[trigger] text@[i] <= '\u{7f}') ==> readable,
{
    if forall|i: int| 0 <= i < text@.len() ==> #[trigger] text@[i] <= '\u{7f}' {
        plain_filters_are_readable(text@);
    }
}

/// A directive that starts with a span is cut behind the opening bracket and where the
/// name of the span ends, and its first field behind the brace and where it ends.
pub proof fn spans_are_cut_between_characters(directive: Seq<char>, i: int, k: int)
    requires
        directive.len() <= usize::MAX,
        0 < i < trimmed(directive).len(),
        trimmed(directive)[0] == '[',
        trimmed(directive)[i] == ']' || trimmed(directive)[i] == '{',
        forall|j: int|
            0 < j < i ==> #[trigger] trimmed(directive)[j] != ']' && trimmed(directive)[j] != '{',
        can_be_cut(directive),
    ensures
        ({
            let bytes = encode_utf8(directive);
            let behind = |n: int| encode_utf8(trimmed(directive).take(n)).len() as int;
            &&& is_char_boundary(bytes, 1)
            &&& is_char_boundary(bytes, behind(i))
            &&& trimmed(directive)[i] == '{' && i < k < trimmed(directive).len()
                && trimmed(directive)[k] == '}' && (forall|j: int|
                i < j < k ==> #[trigger] trimmed(directive)[j] != '}') ==> is_char_boundary(
                bytes,
                behind(i) + 1,
            ) && is_char_boundary(bytes, behind(k))
        }),
{
    let text = trimmed(directive);
    lemma_trimmed_within(directive);
    lemma_utf8_len_bound(text);
    assert(text.take(0) =~= Seq::empty());
    assert(utf8_len(text.take(0)) == 0);
    lemma_span_leads_to(directive, 1, i, 1);
    lemma_utf8_len_next(text, i);
    lemma_utf8_len_grows(text, i + 1);
    lengths_are_those_of_the_encoding(text.take(i));
    positions_between_characters_are_boundaries(directive, 1);
    positions_between_characters_are_boundaries(directive, utf8_len(text.take(i)) as int);
    if text[i] == '{' && i < k < text.len() && text[k] == '}' && (forall|j: int|
        i < j < k ==> #[trigger] text[j] != '}') {
        let start = (utf8_len(text.take(i)) + 1) as u128;
        lemma_field_leads_to(directive, i + 1, k, start);
        lengths_are_those_of_the_encoding(text.take(k));
        positions_between_characters_are_boundaries(directive, start as int);
        positions_between_characters_are_boundaries(directive, utf8_len(text.take(k)) as int);
    }
}

proof fn lemma_span_leads_to(directive: Seq<char>, from: int, i: int, start: u128)
    requires
        0 < from <= i < trimmed(directive).len(),
        forall|j: int|
            0 < j < i ==> #[trigger] trimmed(directive)[j] != ']' && trimmed(directive)[j] != '{',
        cuts_fit(directive, trimmed(directive), from, Part::Span(start)),
    ensures
        cuts_fit(directive, trimmed(directive), i, Part::Span(start)),
    decreases i - from,
{
    if from < i {
        assert(trimmed(directive)[from] != ']');
        lemma_span_leads_to(directive, from + 1, i, start);
    }
}

proof fn lemma_field_leads_to(directive: Seq<char>, from: int, k: int, start: u128)
    requires
        0 < from <= k < trimmed(directive).len(),
        forall|j: int| from <= j < k ==> #[trigger] trimmed(directive)[j] != '}',
        cuts_fit(directive, trimmed(directive), from, Part::Field(start)),
    ensures
        cuts_fit(directive, trimmed(directive), k, Part::Field(start)),
    decreases k - from,
{
    if from < k {
        assert(trimmed(directive)[from] != '}');
        lemma_field_leads_to(directive, from + 1, k, start);
    }
}

} // verus!
