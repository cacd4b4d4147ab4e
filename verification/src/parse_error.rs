//! Parse errors: reading the place and the message out of the text of a
//! parser's error.
use vstd::prelude::*;
use vstd::string::StrSliceExecFns;
use graphql_parser::query::ParseError;
use crate::error::GraphQLError;
use crate::position::Position;
use crate::util::{first_match, lemma_first_match_at};

verus! {

/// `graphql_parser::query::ParseError`: the error of parsing a query. Nothing
/// is known of an error but the text it displays.
#[verifier::external_type_specification]
#[verifier::external_body]
pub struct ExParseError(ParseError);

/// The text that a parse error displays: what formatting it with `{}` gives.
pub uninterp spec fn parse_error_text(e: ParseError) -> Seq<char>;

/// Whether a character is white space: one of the characters with the
/// Unicode property `White_Space`.
pub open spec fn white_space(c: char) -> bool {
    let code = c as u32;
    ||| 0x09 <= code <= 0x0D
    ||| code == 0x20
    ||| code == 0x85
    ||| code == 0xA0
    ||| code == 0x1680
    ||| 0x2000 <= code <= 0x200A
    ||| code == 0x2028
    ||| code == 0x2029
    ||| code == 0x202F
    ||| code == 0x205F
    ||| code == 0x3000
}

/// Whether a character is numeric in the sense of `char::is_numeric`.
pub uninterp spec fn numeric(c: char) -> bool;

/// `Display::fmt` of `graphql_parser::query::ParseError`, through `format!`:
/// the text that the error displays, which depends on the error alone.
#[verifier::external_body]
fn display_parse_error(e: &ParseError) -> (text: String)
    ensures
        text@ == parse_error_text(*e),
{
    format!("{}", e)
}

/// Whether a character is white space.
pub fn is_white_space(c: char) -> (yes: bool)
    ensures
        yes == white_space(c),
{
    let code = c as u32;
    (0x09 <= code && code <= 0x0D) || code == 0x20 || code == 0x85 || code == 0xA0 || code
        == 0x1680 || (0x2000 <= code && code <= 0x200A) || code == 0x2028 || code == 0x2029
        || code == 0x202F || code == 0x205F || code == 0x3000
}

/// `char::is_numeric`: whether the character is in one of the Unicode
/// categories for numbers.
#[verifier::external_body]
fn is_numeric(c: char) -> (yes: bool)
    ensures
        yes == numeric(c),
{
    c.is_numeric()
}

/// `String::push`: the character is appended to the string.
#[verifier::external_body]
fn push_char(text: &mut String, c: char)
    ensures
        final(text)@ == old(text)@.push(c),
{
    text.push(c);
}

/// The phrase that introduces the text of a parse error.
pub open spec fn phrase() -> Seq<char> {
    "query parse error:"@
}

/// `text` without any occurrence of `pattern`, occurrences being found from
/// the left and not overlapping.
pub open spec fn without(text: Seq<char>, pattern: Seq<char>) -> Seq<char>
    decreases text.len(),
{
    if pattern.len() == 0 || text.len() < pattern.len() {
        text
    } else if text.take(pattern.len() as int) == pattern {
        without(text.skip(pattern.len() as int), pattern)
    } else {
        seq![text[0]] + without(text.skip(1), pattern)
    }
}

/// `text` without the white space at its start.
pub open spec fn trimmed_start(text: Seq<char>) -> Seq<char>
    decreases text.len(),
{
    if text.len() > 0 && white_space(text[0]) {
        trimmed_start(text.skip(1))
    } else {
        text
    }
}

/// `text` without the white space at its end.
pub open spec fn trimmed_end(text: Seq<char>) -> Seq<char>
    decreases text.len(),
{
    if text.len() > 0 && white_space(text.last()) {
        trimmed_end(text.drop_last())
    } else {
        text
    }
}

/// The test that a character is `wanted`.
pub open spec fn is_char(wanted: char) -> spec_fn(char) -> bool {
    |c: char| c == wanted
}

/// The index of the last `wanted` in `text`, or -1 when there is none.
pub open spec fn last_index(text: Seq<char>, wanted: char) -> int
    decreases text.len(),
{
    if text.len() == 0 {
        -1
    } else if text.last() == wanted {
        text.len() - 1
    } else {
        last_index(text.drop_last(), wanted)
    }
}

/// The numeric characters of `text`, in their order.
pub open spec fn numerics(text: Seq<char>) -> Seq<char>
    decreases text.len(),
{
    if text.len() == 0 {
        Seq::empty()
    } else if numeric(text.last()) {
        numerics(text.drop_last()).push(text.last())
    } else {
        numerics(text.drop_last())
    }
}

/// Whether a character is one of the digits `0` to `9`.
pub open spec fn is_digit(c: char) -> bool {
    '0' as u32 <= c as u32 <= '9' as u32
}

/// The number that decimal digits spell.
pub open spec fn decimal(digits: Seq<char>) -> nat
    decreases digits.len(),
{
    if digits.len() == 0 {
        0
    } else {
        (decimal(digits.drop_last()) * 10 + (digits.last() as u32 - '0' as u32)) as nat
    }
}

/// The number that `digits` spell, when they are one or more of the digits `0`
/// to `9` and the number fits a `usize`.
pub open spec fn number(digits: Seq<char>) -> Option<usize> {
    if digits.len() > 0 && (forall|i: int| 0 <= i < digits.len() ==> is_digit(#[trigger] digits[i]))
        && decimal(digits) <= usize::MAX {
        Some(decimal(digits) as usize)
    } else {
        None
    }
}

/// The place and the message that the text of a parse error holds.
///
/// The introducing phrase is taken out wherever it occurs and the white space
/// around the text is dropped. The first line must hold a colon; the numeric
/// characters before its last colon spell the line and those after it the
/// column. What follows the first line is the message. A text of one line, a
/// first line without a colon and numbers that are not spelled in the digits
/// `0` to `9` or do not fit give nothing.
pub open spec fn located(text: Seq<char>) -> Option<(Position, Seq<char>)> {
    let inner = trimmed_end(trimmed_start(without(text, phrase())));
    let end = first_match(inner, is_char('\n'));
    let head = inner.take(end);
    let colon = last_index(head, ':');
    if end < inner.len() && colon >= 0 {
        match (number(numerics(head.take(colon))), number(numerics(head.skip(colon)))) {
            (Some(line), Some(column)) => Some((Position { line, column }, inner.skip(end + 1))),
            _ => None,
        }
    } else {
        None
    }
}

/// The characters of a text.
fn chars_of(text: &str) -> (chars: Vec<char>)
    ensures
        chars@ == text@,
{
    let n = text.unicode_len();
    let mut out: Vec<char> = Vec::new();
    let mut i: usize = 0;
    while i < n
        invariant
            i <= n,
            n == text@.len(),
            out@ == text@.take(i as int),
        decreases n - i,
    {
        out.push(text.get_char(i));
        proof {
            assert(out@ =~= text@.take(i as int + 1));
        }
        i += 1;
    }
    proof {
        assert(text@.take(n as int) =~= text@);
    }
    out
}

/// The characters of `chars` from `from` up to `to`.
fn slice(chars: &Vec<char>, from: usize, to: usize) -> (part: Vec<char>)
    requires
        from <= to <= chars.len(),
    ensures
        part@ == chars@.subrange(from as int, to as int),
{
    let mut out: Vec<char> = Vec::new();
    let mut i: usize = from;
    while i < to
        invariant
            from <= i <= to,
            to <= chars.len(),
            out@ == chars@.subrange(from as int, i as int),
        decreases to - i,
    {
        out.push(chars[i]);
        proof {
            assert(out@ =~= chars@.subrange(from as int, i as int + 1));
        }
        i += 1;
    }
    out
}

/// Whether `pattern` stands in `chars` at `at`.
fn stands_at(chars: &Vec<char>, at: usize, pattern: &Vec<char>) -> (yes: bool)
    requires
        at + pattern.len() <= chars.len(),
    ensures
        yes == (chars@.skip(at as int).take(pattern.len() as int) == pattern@),
{
    let ghost here = chars@.skip(at as int).take(pattern.len() as int);
    let mut i: usize = 0;
    while i < pattern.len()
        invariant
            i <= pattern.len(),
            at + pattern.len() <= chars.len(),
            here == chars@.skip(at as int).take(pattern.len() as int),
            forall|j: int| 0 <= j < i ==> here[j] == pattern[j],
        decreases pattern.len() - i,
    {
        assert(here[i as int] == chars[at + i]);
        if chars[at + i] != pattern[i] {
            return false;
        }
        i += 1;
    }
    assert(here =~= pattern@);
    true
}

/// Takes every occurrence of `pattern` out of `chars`.
fn remove_all(chars: &Vec<char>, pattern: &Vec<char>) -> (left: Vec<char>)
    requires
        pattern.len() > 0,
    ensures
        left@ == without(chars@, pattern@),
{
    let mut out: Vec<char> = Vec::new();
    let mut i: usize = 0;
    proof {
        assert(chars@.skip(0) =~= chars@);
        assert(out@ + without(chars@, pattern@) =~= without(chars@, pattern@));
    }
    while i < chars.len() && chars.len() - i >= pattern.len()
        invariant
            i <= chars.len(),
            pattern.len() > 0,
            out@ + without(chars@.skip(i as int), pattern@) == without(chars@, pattern@),
        decreases chars.len() - i,
    {
        let ghost rest = chars@.skip(i as int);
        if stands_at(chars, i, pattern) {
            proof {
                assert(rest.skip(pattern.len() as int) =~= chars@.skip(i + pattern.len()));
            }
            i += pattern.len();
        } else {
            let ghost before = out@;
            out.push(chars[i]);
            proof {
                assert(rest.skip(1) =~= chars@.skip(i as int + 1));
                assert(rest[0] == chars[i as int]);
                assert(out@ + without(rest.skip(1), pattern@) =~= before + (seq![rest[0]]
                    + without(rest.skip(1), pattern@)));
            }
            i += 1;
        }
    }
    let ghost tail = chars@.skip(i as int);
    let ghost before = out@;
    proof {
        assert(without(tail, pattern@) == tail);
    }
    while i < chars.len()
        invariant
            i <= chars.len(),
            out@ == before + tail.take(i - (chars.len() - tail.len())),
            tail.len() <= chars.len(),
            tail == chars@.skip(chars.len() - tail.len()),
            chars.len() - tail.len() <= i,
        decreases chars.len() - i,
    {
        let ghost start = chars.len() - tail.len();
        out.push(chars[i]);
        proof {
            assert(tail[i - start] == chars[i as int]);
            assert(out@ =~= before + tail.take(i + 1 - start));
        }
        i += 1;
    }
    proof {
        assert(tail.take(tail.len() as int) =~= tail);
    }
    out
}

/// Drops the white space at both ends of `chars`.
fn trim(chars: &Vec<char>) -> (inner: Vec<char>)
    ensures
        inner@ == trimmed_end(trimmed_start(chars@)),
{
    let mut from: usize = 0;
    proof {
        assert(chars@.skip(0) =~= chars@);
    }
    while from < chars.len() && is_white_space(chars[from])
        invariant
            from <= chars.len(),
            trimmed_start(chars@.skip(from as int)) == trimmed_start(chars@),
        decreases chars.len() - from,
    {
        proof {
            let rest = chars@.skip(from as int);
            assert(rest[0] == chars[from as int]);
            assert(rest.skip(1) =~= chars@.skip(from as int + 1));
        }
        from += 1;
    }
    let ghost started = chars@.skip(from as int);
    proof {
        if from < chars.len() {
            assert(started[0] == chars[from as int]);
        }
        assert(trimmed_start(chars@) == started);
        assert(started =~= chars@.subrange(from as int, chars.len() as int));
    }
    let mut to: usize = chars.len();
    while to > from && is_white_space(chars[to - 1])
        invariant
            from <= to <= chars.len(),
            trimmed_end(chars@.subrange(from as int, to as int)) == trimmed_end(started),
        decreases to - from,
    {
        proof {
            let part = chars@.subrange(from as int, to as int);
            assert(part.last() == chars[to - 1]);
            assert(part.drop_last() =~= chars@.subrange(from as int, to - 1));
        }
        to -= 1;
    }
    proof {
        let part = chars@.subrange(from as int, to as int);
        if to > from {
            assert(part.last() == chars[to - 1]);
        }
        assert(trimmed_end(part) == part);
    }
    slice(chars, from, to)
}

/// Finds the first `wanted` in `chars`.
fn find_char(chars: &Vec<char>, wanted: char) -> (at: usize)
    ensures
        at == first_match(chars@, is_char(wanted)),
        at <= chars.len(),
{
    let mut i: usize = 0;
    while i < chars.len()
        invariant
            i <= chars.len(),
            forall|j: int| 0 <= j < i ==> !is_char(wanted)(#[trigger] chars@[j]),
        decreases chars.len() - i,
    {
        if chars[i] == wanted {
            proof {
                lemma_first_match_at(chars@, is_char(wanted), i as int);
            }
            return i;
        }
        i += 1;
    }
    proof {
        lemma_first_match_at(chars@, is_char(wanted), i as int);
    }
    i
}

/// Finds the last `wanted` in `chars`.
fn find_last_char(chars: &Vec<char>, wanted: char) -> (at: Option<usize>)
    ensures
        match at {
            Some(i) => i == last_index(chars@, wanted) && i < chars.len(),
            None => last_index(chars@, wanted) == -1,
        },
{
    let mut i: usize = chars.len();
    proof {
        assert(chars@.take(i as int) =~= chars@);
    }
    while i > 0
        invariant
            i <= chars.len(),
            last_index(chars@.take(i as int), wanted) == last_index(chars@, wanted),
        decreases i,
    {
        proof {
            let part = chars@.take(i as int);
            assert(part.last() == chars[i - 1]);
            assert(part.drop_last() =~= chars@.take(i - 1));
        }
        if chars[i - 1] == wanted {
            return Some(i - 1);
        }
        i -= 1;
    }
    None
}

/// Keeps the numeric characters of `chars`.
fn keep_numerics(chars: &Vec<char>) -> (kept: Vec<char>)
    ensures
        kept@ == numerics(chars@),
{
    let mut out: Vec<char> = Vec::new();
    let mut i: usize = 0;
    while i < chars.len()
        invariant
            i <= chars.len(),
            out@ == numerics(chars@.take(i as int)),
        decreases chars.len() - i,
    {
        proof {
            let part = chars@.take(i as int + 1);
            assert(part.last() == chars[i as int]);
            assert(part.drop_last() =~= chars@.take(i as int));
        }
        if is_numeric(chars[i]) {
            out.push(chars[i]);
        }
        i += 1;
    }
    proof {
        assert(chars@.take(i as int) =~= chars@);
    }
    out
}

/// The number spelled by the start of digits is no greater than the number
/// spelled by all of them.
proof fn lemma_decimal_grows(digits: Seq<char>, upto: int)
    requires
        0 <= upto <= digits.len(),
        forall|i: int| 0 <= i < digits.len() ==> is_digit(#[trigger] digits[i]),
    ensures
        decimal(digits.take(upto)) <= decimal(digits),
    decreases digits.len() - upto,
{
    if upto < digits.len() {
        let longer = digits.take(upto + 1);
        assert(longer.drop_last() =~= digits.take(upto));
        assert(is_digit(digits[upto]));
        assert(longer.last() == digits[upto]);
        lemma_decimal_grows(digits, upto + 1);
    } else {
        assert(digits.take(upto) =~= digits);
    }
}

/// Reads the number that `digits` spell.
fn read_number(digits: &Vec<char>) -> (value: Option<usize>)
    ensures
        value == number(digits@),
{
    if digits.len() == 0 {
        return None;
    }
    let mut value: usize = 0;
    let mut i: usize = 0;
    while i < digits.len()
        invariant
            i <= digits.len(),
            digits.len() > 0,
            forall|j: int| 0 <= j < i ==> is_digit(#[trigger] digits@[j]),
            value == decimal(digits@.take(i as int)),
        decreases digits.len() - i,
    {
        let c = digits[i];
        let code = c as u32;
        if code < '0' as u32 || code > '9' as u32 {
            assert(!is_digit(digits@[i as int]));
            return None;
        }
        let d = (code - '0' as u32) as usize;
        proof {
            let longer = digits@.take(i as int + 1);
            assert(longer.drop_last() =~= digits@.take(i as int));
            assert(longer.last() == c);
        }
        if value > (usize::MAX - d) / 10 {
            proof {
                if forall|j: int| 0 <= j < digits.len() ==> is_digit(#[trigger] digits@[j]) {
                    lemma_decimal_grows(digits@, i as int + 1);
                }
            }
            return None;
        }
        value = value * 10 + d;
        i += 1;
    }
    proof {
        assert(digits@.take(i as int) =~= digits@);
    }
    Some(value)
}

/// Spells characters as a string.
fn text_of(chars: &Vec<char>) -> (text: String)
    ensures
        text@ == chars@,
{
    let mut out = String::new();
    let mut i: usize = 0;
    while i < chars.len()
        invariant
            i <= chars.len(),
            out@ == chars@.take(i as int),
        decreases chars.len() - i,
    {
        push_char(&mut out, chars[i]);
        proof {
            assert(out@ =~= chars@.take(i as int + 1));
        }
        i += 1;
    }
    proof {
        assert(chars@.take(i as int) =~= chars@);
    }
    out
}

/// An error found while a query was parsed: a message and the places in the
/// query it refers to.
#[derive(Debug, PartialEq)]
pub struct GraphQLParseError {
    pub message: String,
    pub locations: Vec<Position>,
}

impl GraphQLError for GraphQLParseError {
    fn locations(&self) -> (places: Vec<Position>)
        ensures
            places@ == self.locations@,
    {
        let mut out: Vec<Position> = Vec::new();
        let mut i: usize = 0;
        while i < self.locations.len()
            invariant
                i <= self.locations.len(),
                out@ == self.locations@.take(i as int),
            decreases self.locations.len() - i,
        {
            out.push(self.locations[i]);
            proof {
                assert(out@ =~= self.locations@.take(i as int + 1));
            }
            i += 1;
        }
        assert(self.locations@.take(i as int) =~= self.locations@);
        out
    }

    fn message(&self) -> (text: String)
        ensures
            text@ == self.message@,
    {
        self.message.clone()
    }
}

impl GraphQLParseError {
    /// Whether the error is the one that `text` holds: its message, at its
    /// place.
    pub open spec fn reads(self, text: Seq<char>) -> bool {
        match located(text) {
            Some((place, message)) => self.message@ == message && self.locations@ == seq![place],
            None => false,
        }
    }

    /// Reads the place and the message out of the text of a parse error.
    /// Returns `None` for a text that holds none.
    pub fn from_text(text: &str) -> (read: Option<GraphQLParseError>)
        ensures
            match read {
                Some(e) => e.reads(text@),
                None => located(text@) is None,
            },
    {
        let chars = chars_of(text);
        let introducing = chars_of("query parse error:");
        proof {
            reveal_strlit("query parse error:");
        }
        let inner = trim(&remove_all(&chars, &introducing));
        let end = find_char(&inner, '\n');
        if end >= inner.len() {
            return None;
        }
        let head = slice(&inner, 0, end);
        let colon = match find_last_char(&head, ':') {
            Some(at) => at,
            None => {
                return None;
            },
        };
        let line = read_number(&keep_numerics(&slice(&head, 0, colon)));
        let column = read_number(&keep_numerics(&slice(&head, colon, head.len())));
        match (line, column) {
            (Some(line), Some(column)) => {
                let message = text_of(&slice(&inner, end + 1, inner.len()));
                let mut locations: Vec<Position> = Vec::new();
                locations.push(Position { line, column });
                Some(GraphQLParseError { message, locations })
            },
            _ => None,
        }
    }

    /// Reads the place and the message out of a parse error whose text holds
    /// them.
    pub fn from(e: ParseError) -> (read: GraphQLParseError)
        requires
            located(parse_error_text(e)) is Some,
        ensures
            read.reads(parse_error_text(e)),
    {
        let text = display_parse_error(&e);
        GraphQLParseError::from_text(text.as_str()).unwrap()
    }

    /// Reads the place and the message out of a parse error, when its text
    /// holds them.
    pub fn from_parse_error(e: ParseError) -> (read: Option<GraphQLParseError>)
        ensures
            match read {
                Some(error) => error.reads(parse_error_text(e)),
                None => located(parse_error_text(e)) is None,
            },
    {
        let text = display_parse_error(&e);
        if GraphQLParseError::from_text(text.as_str()).is_some() {
            Some(GraphQLParseError::from(e))
        } else {
            None
        }
    }
}

} // verus!
