//! Characters and text: the character classes of the language, decimal
//! numerals in both directions, and the few operations on strings that the
//! stages share.
//!
//! Text is modelled as `Seq<char>`, a sequence of Unicode scalar values.

use vstd::prelude::*;

verus! {

/// Whether std counts `c` as alphabetic (Unicode's `Alphabetic` property).
pub uninterp spec fn unicode_alphabetic(c: char) -> bool;

/// Whether std counts `c` as alphanumeric (alphabetic, or of one of Unicode's
/// number categories).
pub uninterp spec fn unicode_alphanumeric(c: char) -> bool;

/// Whether std counts `c` as white space (Unicode's `White_Space` property).
pub uninterp spec fn unicode_whitespace(c: char) -> bool;

/// What `{:?}` prints for a string: the text between double quotes, with the
/// characters escaped that std escapes.
pub uninterp spec fn debug_quoted(text: Seq<char>) -> Seq<char>;

/// `char::is_alphabetic`: trusted to be a function of the character alone.
/// Nothing is claimed about which characters it accepts.
pub assume_specification[ char::is_alphabetic ](c: char) -> (b: bool)
    ensures
        b == unicode_alphabetic(c),
;

/// `char::is_alphanumeric`: trusted to be a function of the character alone.
/// Nothing is claimed about which characters it accepts.
pub assume_specification[ char::is_alphanumeric ](c: char) -> (b: bool)
    ensures
        b == unicode_alphanumeric(c),
;

/// `char::is_whitespace`: trusted to be a function of the character alone.
/// Nothing is claimed about which characters it accepts.
pub assume_specification[ char::is_whitespace ](c: char) -> (b: bool)
    ensures
        b == unicode_whitespace(c),
;

/// `String::push`: trusted to append the one character and leave the rest of
/// the string as it was.
pub assume_specification[ std::string::String::push ](s: &mut std::string::String, c: char)
    ensures
        final(s)@ == old(s)@.push(c),
;

/// `format!("{:?}", text)`, that is `<str as Debug>::fmt`: trusted to be a
/// function of the text alone. Nothing is claimed about the result's shape.
#[verifier::external_body]
pub(crate) fn debug_quote(text: &str) -> (quoted: String)
    ensures
        quoted@ == debug_quoted(text@),
{
    format!("{:?}", text)
}

/// An ASCII decimal digit.
pub open spec fn is_digit(c: char) -> bool {
    '0' <= c <= '9'
}

/// The classes of characters that a run is made of.
#[derive(Debug, Clone, Copy, PartialEq, Eq, Structural)]
pub enum CharClass {
    /// Anything but the end of the line.
    LineText,
    /// Anything but a double quote and the end of the line.
    StringText,
    /// Letters, digits and `_`.
    IdentifierPart,
    /// ASCII digits.
    Digit,
}

impl CharClass {
    /// Whether `c` is of the class, when `alphanumeric` says whether `c` is
    /// alphanumeric.
    pub open spec fn holds_given(self, c: char, alphanumeric: bool) -> bool {
        match self {
            CharClass::LineText => c != '\n',
            CharClass::StringText => c != '"' && c != '\n',
            CharClass::IdentifierPart => alphanumeric || c == '_',
            CharClass::Digit => is_digit(c),
        }
    }

    /// Whether `c` is of the class.
    pub open spec fn holds(self, c: char) -> bool {
        self.holds_given(c, unicode_alphanumeric(c))
    }

    /// Whether `c` is of the class, when `alphanumeric` says whether `c` is
    /// alphanumeric.
    pub fn accepts_given(self, c: char, alphanumeric: bool) -> (accepted: bool)
        ensures
            accepted == self.holds_given(c, alphanumeric),
    {
        match self {
            CharClass::LineText => c != '\n',
            CharClass::StringText => c != '"' && c != '\n',
            CharClass::IdentifierPart => alphanumeric || c == '_',
            CharClass::Digit => '0' <= c && c <= '9',
        }
    }

    /// Whether `c` is of the class.
    pub fn accepts(self, c: char) -> (accepted: bool)
        ensures
            accepted == self.holds(c),
    {
        self.accepts_given(c, c.is_alphanumeric())
    }
}

/// How many characters of `class` stand in a row in `src` from `from` on.
pub open spec fn run_length(src: Seq<char>, from: int, class: CharClass) -> nat
    decreases src.len() - from,
{
    if 0 <= from < src.len() && class.holds(src[from]) {
        1 + run_length(src, from + 1, class)
    } else {
        0
    }
}

/// A run of characters ends within the text.
pub proof fn lemma_run_length_bound(src: Seq<char>, from: int, class: CharClass)
    requires
        0 <= from <= src.len(),
    ensures
        from + run_length(src, from, class) <= src.len(),
        forall|k: int|
            from <= k < from + run_length(src, from, class) ==> class.holds(#[trigger] src[k]),
        from + run_length(src, from, class) < src.len() ==> !class.holds(
            src[from + run_length(src, from, class)],
        ),
    decreases src.len() - from,
{
    if from < src.len() && class.holds(src[from]) {
        lemma_run_length_bound(src, from + 1, class);
    }
}

/// The number that a digit stands for.
pub open spec fn digit_value(c: char) -> nat
    recommends
        is_digit(c),
{
    (c as int - '0' as int) as nat
}

/// The digit that stands for a number below ten.
pub open spec fn digit_char(d: nat) -> char
    recommends
        d < 10,
{
    ('0' as int + d) as char
}

/// The number that a sequence of digits denotes in base ten (zero for the
/// empty sequence).
pub open spec fn decimal_value(digits: Seq<char>) -> nat
    decreases digits.len(),
{
    if digits.len() == 0 {
        0
    } else {
        10 * decimal_value(digits.drop_last()) + digit_value(digits.last())
    }
}

/// The shortest decimal numeral of `n`: no leading zero, and `0` for zero.
pub open spec fn decimal_text(n: nat) -> Seq<char>
    decreases n,
{
    if n < 10 {
        seq![digit_char(n)]
    } else {
        decimal_text(n / 10).push(digit_char(n % 10))
    }
}

/// `count` copies of `c`.
pub open spec fn repeated(c: char, count: nat) -> Seq<char> {
    Seq::new(count, |i: int| c)
}

/// Whether every character of `text` is a decimal digit.
pub open spec fn all_digits(text: Seq<char>) -> bool {
    forall|i: int| 0 <= i < text.len() ==> is_digit(#[trigger] text[i])
}

/// A numeral's value does not shrink when digits are appended to it.
pub proof fn lemma_decimal_value_prefix(digits: Seq<char>, k: int)
    requires
        0 <= k <= digits.len(),
    ensures
        decimal_value(digits.take(k)) <= decimal_value(digits),
    decreases digits.len() - k,
{
    if k < digits.len() {
        lemma_decimal_value_prefix(digits, k + 1);
        assert(digits.take(k + 1).drop_last() =~= digits.take(k));
    } else {
        assert(digits.take(k) =~= digits);
    }
}

/// Writing and reading agree: the numeral of a number is made of digits
/// only, and read again it gives the number back. So an integer literal
/// reaches the assembly text with the value that it has in the source.
pub proof fn lemma_decimal_round_trip(n: nat)
    ensures
        decimal_text(n).len() >= 1,
        all_digits(decimal_text(n)),
        decimal_value(decimal_text(n)) == n,
    decreases n,
{
    if n < 10 {
        let text = decimal_text(n);
        assert(text.drop_last().len() == 0);
        assert(decimal_value(text.drop_last()) == 0);
    } else {
        lemma_decimal_round_trip(n / 10);
        let text = decimal_text(n);
        assert(text.drop_last() =~= decimal_text(n / 10));
    }
}

/// The characters of a string, in order.
pub fn to_chars(text: &str) -> (chars: Vec<char>)
    ensures
        chars@ == text@,
{
    let mut chars: Vec<char> = Vec::new();
    for c in it: text.chars()
        invariant
            it.seq() == text@,
            chars@ == it.seq().take(it.index()),
    {
        chars.push(c);
    }
    chars
}

/// The index at which the run of `class` that begins at `from` ends.
pub fn run_end(chars: &Vec<char>, from: usize, class: CharClass) -> (end: usize)
    requires
        from <= chars.len(),
    ensures
        end == from + run_length(chars@, from as int, class),
        end <= chars.len(),
        forall|k: int| from <= k < end ==> class.holds(#[trigger] chars@[k]),
{
    let mut end: usize = from;
    while end < chars.len() && class.accepts(chars[end])
        invariant
            from <= end <= chars.len(),
            run_length(chars@, from as int, class) == (end - from) + run_length(
                chars@,
                end as int,
                class,
            ),
            forall|k: int| from <= k < end ==> class.holds(#[trigger] chars@[k]),
        decreases chars.len() - end,
    {
        end += 1;
    }
    end
}

/// The string made of `chars[start..end]`.
pub fn substring(chars: &Vec<char>, start: usize, end: usize) -> (text: String)
    requires
        start <= end <= chars.len(),
    ensures
        text@ == chars@.subrange(start as int, end as int),
{
    let mut text = String::new();
    let mut i: usize = start;
    while i < end
        invariant
            start <= i <= end <= chars.len(),
            text@ == chars@.subrange(start as int, i as int),
        decreases end - i,
    {
        text.push(chars[i]);
        i += 1;
        assert(chars@.subrange(start as int, i as int) =~= chars@.subrange(
            start as int,
            i - 1,
        ).push(chars@[i - 1]));
    }
    text
}

/// `inner` between `prefix` and `suffix`.
pub fn enclose(prefix: &str, inner: &str, suffix: &str) -> (text: String)
    ensures
        text@ == prefix@ + inner@ + suffix@,
{
    let mut text = String::from_str(prefix);
    text.append(inner);
    text.append(suffix);
    text
}

/// Appends `count` copies of `c` to `out`.
pub fn push_repeated(out: &mut String, c: char, count: usize)
    ensures
        final(out)@ == old(out)@ + repeated(c, count as nat),
{
    let mut i: usize = 0;
    while i < count
        invariant
            i <= count,
            out@ == old(out)@ + repeated(c, i as nat),
        decreases count - i,
    {
        out.push(c);
        i += 1;
        assert(old(out)@ + repeated(c, i as nat) =~= (old(out)@ + repeated(
            c,
            (i - 1) as nat,
        )).push(c));
    }
}

/// Appends the decimal numeral of `n` to `out`.
pub fn push_decimal(out: &mut String, n: u128)
    ensures
        final(out)@ == old(out)@ + decimal_text(n as nat),
    decreases n,
{
    if n >= 10 {
        push_decimal(out, n / 10);
    }
    let digit: u8 = (n % 10) as u8;
    out.push((48u8 + digit) as char);
    assert(out@ =~= old(out)@ + decimal_text(n as nat));
}

/// The decimal numeral of `n`.
pub fn decimal_string(n: u128) -> (text: String)
    ensures
        text@ == decimal_text(n as nat),
{
    let mut text = String::new();
    push_decimal(&mut text, n);
    assert(text@ =~= decimal_text(n as nat));
    text
}

/// Reads `chars[start..end]` as a number in base ten. `None` when a
/// character of it is no digit, or when the number does not fit in 64 bits.
/// The empty range reads as zero.
pub fn parse_decimal(chars: &Vec<char>, start: usize, end: usize) -> (value: Option<u64>)
    requires
        start <= end <= chars.len(),
    ensures
        match value {
            Some(v) => {
                &&& all_digits(chars@.subrange(start as int, end as int))
                &&& v == decimal_value(chars@.subrange(start as int, end as int))
            },
            None => {
                ||| !all_digits(chars@.subrange(start as int, end as int))
                ||| decimal_value(chars@.subrange(start as int, end as int)) > u64::MAX
            },
        },
{
    let ghost digits = chars@.subrange(start as int, end as int);
    let mut value: u64 = 0;
    let mut i: usize = start;
    proof {
        assert(digits.take(0).len() == 0);
    }
    while i < end
        invariant
            start <= i <= end <= chars.len(),
            digits == chars@.subrange(start as int, end as int),
            all_digits(digits.take(i - start)),
            value == decimal_value(digits.take(i - start)),
        decreases end - i,
    {
        let c = chars[i];
        assert(c == digits[i - start]);
        if !('0' <= c && c <= '9') {
            return None;
        }
        let digit: u64 = (c as u32 - '0' as u32) as u64;
        proof {
            assert(digits.take(i - start + 1).drop_last() =~= digits.take(i - start));
            lemma_decimal_value_prefix(digits, i - start + 1);
        }
        let next = match value.checked_mul(10) {
            Some(shifted) => shifted.checked_add(digit),
            None => None,
        };
        match next {
            Some(n) => {
                value = n;
            },
            None => {
                return None;
            },
        }
        i += 1;
    }
    assert(digits.take(end - start) =~= digits);
    Some(value)
}

} // verus!
