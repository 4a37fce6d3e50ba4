//! Colors of three bytes, and their textual form `R,G,B`.

use vstd::prelude::*;
use vstd::string::*;

verus! {

/// A color: red, green and blue.
#[derive(Clone, Copy, Debug, PartialEq, Eq, Structural)]
pub struct Rgb(pub u8, pub u8, pub u8);

/// Why a text is no color.
#[derive(Clone, Copy, Debug, PartialEq, Eq, Structural)]
pub enum RgbError {
    /// The text does not consist of three fields with a comma between them.
    Format,
    /// The first field is no number from 0 to 255.
    InvalidRed,
    /// The second field is no number from 0 to 255.
    InvalidGreen,
    /// The third field is no number from 0 to 255.
    InvalidBlue,
}

impl RgbError {
    /// The text that goes with the error.
    pub open spec fn spec_message(self) -> Seq<char> {
        match self {
            RgbError::Format => "Expected format: R,G,B"@,
            RgbError::InvalidRed => "Invalid R value"@,
            RgbError::InvalidGreen => "Invalid G value"@,
            RgbError::InvalidBlue => "Invalid B value"@,
        }
    }

    /// The text that goes with the error.
    pub fn message(&self) -> (text: String)
        ensures
            text@ == self.spec_message(),
    {
        match self {
            RgbError::Format => String::from_str("Expected format: R,G,B"),
            RgbError::InvalidRed => String::from_str("Invalid R value"),
            RgbError::InvalidGreen => String::from_str("Invalid G value"),
            RgbError::InvalidBlue => String::from_str("Invalid B value"),
        }
    }
}

/// Whether a character is white space: the characters with the Unicode
/// property `White_Space`.
pub open spec fn is_space(c: char) -> bool {
    let u = c as u32;
    ||| 0x09 <= u <= 0x0D
    ||| u == 0x20
    ||| u == 0x85
    ||| u == 0xA0
    ||| u == 0x1680
    ||| 0x2000 <= u <= 0x200A
    ||| u == 0x2028
    ||| u == 0x2029
    ||| u == 0x202F
    ||| u == 0x205F
    ||| u == 0x3000
}

/// Whether a character is one of the ten decimal digits.
pub open spec fn is_digit(c: char) -> bool {
    '0' <= c <= '9'
}

/// The number that a decimal digit stands for.
pub open spec fn digit_value(c: char) -> int {
    c as u32 - 48
}

/// The text split at its commas: a comma ends a field and starts the next,
/// every other character joins the last field. A text without a comma is one
/// field, and so is the empty text.
pub open spec fn fields(s: Seq<char>) -> Seq<Seq<char>>
    decreases s.len(),
{
    if s.len() == 0 {
        seq![Seq::<char>::empty()]
    } else {
        let before = fields(s.drop_last());
        if s.last() == ',' {
            before.push(Seq::<char>::empty())
        } else {
            before.drop_last().push(before.last().push(s.last()))
        }
    }
}

/// The text without the white space at its start.
pub open spec fn trim_start(s: Seq<char>) -> Seq<char>
    decreases s.len(),
{
    if s.len() > 0 && is_space(s[0]) {
        trim_start(s.drop_first())
    } else {
        s
    }
}

/// The text without the white space at its end.
pub open spec fn trim_end(s: Seq<char>) -> Seq<char>
    decreases s.len(),
{
    if s.len() > 0 && is_space(s.last()) {
        trim_end(s.drop_last())
    } else {
        s
    }
}

/// The text without the white space at its start and at its end.
pub open spec fn trim(s: Seq<char>) -> Seq<char> {
    trim_end(trim_start(s))
}

/// Whether the text is made of decimal digits alone.
pub open spec fn all_digits(s: Seq<char>) -> bool {
    forall|i: int| 0 <= i < s.len() ==> is_digit(#[trigger] s[i])
}

/// The number that a text of decimal digits stands for.
pub open spec fn decimal_value(s: Seq<char>) -> int
    decreases s.len(),
{
    if s.len() == 0 {
        0
    } else {
        10 * decimal_value(s.drop_last()) + digit_value(s.last())
    }
}

/// The channel value that a text stands for: an optional `+`, then one or
/// more decimal digits that make a number of at most 255. Anything else,
/// white space and a minus sign included, is no channel value.
pub open spec fn parse_channel(s: Seq<char>) -> Option<u8> {
    let digits = if s.len() > 0 && s[0] == '+' {
        s.drop_first()
    } else {
        s
    };
    if digits.len() > 0 && all_digits(digits) && decimal_value(digits) <= 255 {
        Some(decimal_value(digits) as u8)
    } else {
        None
    }
}

/// The color that a text stands for: three channel values with a comma
/// between them, each with any white space around it. Of several faulty
/// fields the first is reported.
pub open spec fn parse_rgb(s: Seq<char>) -> Result<Rgb, RgbError> {
    let parts = fields(s);
    if parts.len() != 3 {
        Err(RgbError::Format)
    } else {
        match parse_channel(trim(parts[0])) {
            None => Err(RgbError::InvalidRed),
            Some(r) => match parse_channel(trim(parts[1])) {
                None => Err(RgbError::InvalidGreen),
                Some(g) => match parse_channel(trim(parts[2])) {
                    None => Err(RgbError::InvalidBlue),
                    Some(b) => Ok(Rgb(r, g, b)),
                },
            },
        }
    }
}

/// The number that digits stand for does not get smaller as digits follow.
pub proof fn lemma_decimal_value_grows(s: Seq<char>, n: int)
    requires
        all_digits(s),
        0 <= n <= s.len(),
    ensures
        0 <= decimal_value(s.take(n)) <= decimal_value(s),
    decreases s.len() - n,
{
    if n == s.len() {
        assert(s.take(n) =~= s);
        lemma_decimal_value_nonnegative(s);
    } else {
        lemma_decimal_value_grows(s, n + 1);
        let longer = s.take(n + 1);
        assert(longer.drop_last() =~= s.take(n));
        assert(is_digit(s[n]));
        assert(longer.last() == s[n]);
        lemma_decimal_value_nonnegative(s.take(n));
    }
}

/// Digits stand for a number that is not negative.
pub proof fn lemma_decimal_value_nonnegative(s: Seq<char>)
    requires
        all_digits(s),
    ensures
        0 <= decimal_value(s),
    decreases s.len(),
{
    if s.len() > 0 {
        assert(is_digit(s.last()));
        assert forall|i: int| 0 <= i < s.drop_last().len() implies is_digit(
            #[trigger] s.drop_last()[i],
        ) by {
            assert(s.drop_last()[i] == s[i]);
        }
        lemma_decimal_value_nonnegative(s.drop_last());
    }
}

/// Whether a character is white space.
pub fn is_whitespace(c: char) -> (space: bool)
    ensures
        space == is_space(c),
{
    let u = c as u32;
    (0x09 <= u && u <= 0x0D) || u == 0x20 || u == 0x85 || u == 0xA0 || u == 0x1680 || (0x2000 <= u
        && u <= 0x200A) || u == 0x2028 || u == 0x2029 || u == 0x202F || u == 0x205F || u == 0x3000
}

fn chars_of(s: &str) -> (chars: Vec<char>)
    ensures
        chars@ == s@,
{
    broadcast use vstd::string::group_string_axioms;

    let mut chars: Vec<char> = Vec::new();
    for c in it: s.chars()
        invariant
            chars@ == it.seq().take(it.index()),
            it.seq() == s@,
    {
        chars.push(c);
    }
    chars
}

/// The bounds of the fields of a text: field `k` runs from `bounds[k].0` up
/// to, not including, `bounds[k].1`.
fn split_fields(chars: &Vec<char>) -> (bounds: Vec<(usize, usize)>)
    ensures
        bounds@.len() == fields(chars@).len(),
        forall|k: int|
            0 <= k < bounds@.len() ==> {
                &&& 0 <= (#[trigger] bounds@[k]).0 <= bounds@[k].1 <= chars@.len()
                &&& chars@.subrange(bounds@[k].0 as int, bounds@[k].1 as int) == fields(chars@)[k]
            },
{
    let mut bounds: Vec<(usize, usize)> = Vec::new();
    let mut start: usize = 0;
    let mut i: usize = 0;
    assert(chars@.take(0) =~= Seq::<char>::empty());
    assert(chars@.subrange(0, 0) =~= Seq::<char>::empty());
    while i < chars.len()
        invariant
            0 <= start <= i <= chars@.len(),
            fields(chars@.take(i as int)).len() == bounds@.len() + 1,
            fields(chars@.take(i as int)).last() == chars@.subrange(start as int, i as int),
            forall|k: int|
                0 <= k < bounds@.len() ==> {
                    &&& 0 <= (#[trigger] bounds@[k]).0 <= bounds@[k].1 <= chars@.len()
                    &&& chars@.subrange(bounds@[k].0 as int, bounds@[k].1 as int) == fields(
                        chars@.take(i as int),
                    )[k]
                },
        decreases chars@.len() - i,
    {
        let ghost before = fields(chars@.take(i as int));
        let ghost after = fields(chars@.take(i + 1));
        proof {
            assert(chars@.take(i + 1).drop_last() =~= chars@.take(i as int));
            assert(chars@.take(i + 1).last() == chars@[i as int]);
        }
        if chars[i] == ',' {
            bounds.push((start, i));
            start = i + 1;
            proof {
                assert(after == before.push(Seq::<char>::empty()));
                assert(chars@.subrange(start as int, i + 1) =~= Seq::<char>::empty());
            }
        } else {
            proof {
                assert(after == before.drop_last().push(before.last().push(chars@[i as int])));
                assert(chars@.subrange(start as int, i + 1) =~= chars@.subrange(
                    start as int,
                    i as int,
                ).push(chars@[i as int]));
            }
        }
        i = i + 1;
    }
    assert(chars@.take(i as int) =~= chars@);
    bounds.push((start, i));
    bounds
}

/// The bounds of what is left of `chars[from..to]` when the white space at
/// both ends is taken away.
fn trim_bounds(chars: &Vec<char>, from: usize, to: usize) -> (bounds: (usize, usize))
    requires
        from <= to <= chars@.len(),
    ensures
        from <= bounds.0 <= bounds.1 <= to,
        chars@.subrange(bounds.0 as int, bounds.1 as int) == trim(
            chars@.subrange(from as int, to as int),
        ),
{
    let mut a = from;
    while a < to && is_whitespace(chars[a])
        invariant
            from <= a <= to <= chars@.len(),
            trim_start(chars@.subrange(from as int, to as int)) == trim_start(
                chars@.subrange(a as int, to as int),
            ),
        decreases to - a,
    {
        proof {
            assert(chars@.subrange(a as int, to as int).drop_first() =~= chars@.subrange(
                a + 1,
                to as int,
            ));
        }
        a = a + 1;
    }
    let mut b = to;
    while a < b && is_whitespace(chars[b - 1])
        invariant
            a <= b <= to <= chars@.len(),
            trim_end(chars@.subrange(a as int, to as int)) == trim_end(
                chars@.subrange(a as int, b as int),
            ),
        decreases b - a,
    {
        proof {
            assert(chars@.subrange(a as int, b as int).drop_last() =~= chars@.subrange(
                a as int,
                b - 1,
            ));
        }
        b = b - 1;
    }
    (a, b)
}

/// The channel value that `chars[from..to]` stands for.
fn channel_in(chars: &Vec<char>, from: usize, to: usize) -> (value: Option<u8>)
    requires
        from <= to <= chars@.len(),
    ensures
        value == parse_channel(chars@.subrange(from as int, to as int)),
{
    let ghost text = chars@.subrange(from as int, to as int);
    let first = if from < to && chars[from] == '+' {
        from + 1
    } else {
        from
    };
    let ghost digits = chars@.subrange(first as int, to as int);
    proof {
        if first > from {
            assert(text.drop_first() =~= digits);
        }
    }
    assert(digits == if text.len() > 0 && text[0] == '+' {
        text.drop_first()
    } else {
        text
    });
    if first == to {
        return None;
    }
    let mut value: u32 = 0;
    let mut i = first;
    assert(digits.take(0) =~= Seq::<char>::empty());
    while i < to
        invariant
            from <= first <= i <= to <= chars@.len(),
            text == chars@.subrange(from as int, to as int),
            digits == chars@.subrange(first as int, to as int),
            digits == if text.len() > 0 && text[0] == '+' {
                text.drop_first()
            } else {
                text
            },
            all_digits(digits.take(i - first)),
            value == decimal_value(digits.take(i - first)),
            value <= 255,
        decreases to - i,
    {
        let c = chars[i];
        let ghost shorter = digits.take(i - first);
        let ghost longer = digits.take(i - first + 1);
        proof {
            assert(longer.drop_last() =~= shorter);
            assert(longer.last() == c);
        }
        if !(c >= '0' && c <= '9') {
            proof {
                assert(!is_digit(digits[i - first]));
            }
            return None;
        }
        value = 10 * value + (c as u32 - 48);
        proof {
            assert forall|j: int| 0 <= j < longer.len() implies is_digit(#[trigger] longer[j]) by {
                if j < shorter.len() {
                    assert(longer[j] == shorter[j]);
                }
            }
        }
        if value > 255 {
            proof {
                if all_digits(digits) {
                    lemma_decimal_value_grows(digits, i - first + 1);
                }
            }
            return None;
        }
        i = i + 1;
    }
    proof {
        assert(digits.take(i - first) =~= digits);
    }
    Some(value as u8)
}

impl Rgb {
    /// Reads a color from its textual form, as `255,0,128`.
    pub fn from_str(s: &str) -> (result: Result<Rgb, RgbError>)
        ensures
            result == parse_rgb(s@),
    {
        let chars = chars_of(s);
        let bounds = split_fields(&chars);
        if bounds.len() != 3 {
            return Err(RgbError::Format);
        }
        let red = trim_bounds(&chars, bounds[0].0, bounds[0].1);
        let r = match channel_in(&chars, red.0, red.1) {
            Some(r) => r,
            None => {
                return Err(RgbError::InvalidRed);
            },
        };
        let green = trim_bounds(&chars, bounds[1].0, bounds[1].1);
        let g = match channel_in(&chars, green.0, green.1) {
            Some(g) => g,
            None => {
                return Err(RgbError::InvalidGreen);
            },
        };
        let blue = trim_bounds(&chars, bounds[2].0, bounds[2].1);
        let b = match channel_in(&chars, blue.0, blue.1) {
            Some(b) => b,
            None => {
                return Err(RgbError::InvalidBlue);
            },
        };
        Ok(Rgb(r, g, b))
    }
}

} // verus!
