//! The written form of a multiplicity: the lower end, two dots and the upper
//! end, where a star stands for no limit, as in `0..3` and `1..*`.

use crate::model::{Multiplicity, MultiplicityBound};
use crate::search::{
    first_true,
    is_first_true,
    lemma_first_true_is,
    lemma_first_true_none,
    lemma_first_true_sound,
};
use vstd::prelude::*;
use vstd::string::*;

verus! {

/// The character of the decimal digit `d`, which is below ten.
pub open spec fn digit(d: nat) -> char {
    (0x30 + d) as u8 as char
}

/// The decimal digits of `n`, the most significant first, without leading
/// zeros.
pub open spec fn decimal(n: nat) -> Seq<char>
    decreases n,
{
    if n < 10 {
        seq![digit(n)]
    } else {
        decimal(n / 10).push(digit(n % 10))
    }
}

/// The value of the decimal digit `c`, if it is one.
pub open spec fn digit_value(c: char) -> Option<nat> {
    if 0x30 <= c as u32 <= 0x39 {
        Some((c as u32 - 0x30) as nat)
    } else {
        None
    }
}

/// The number that the decimal digits `s` write, if `s` holds digits only.
pub open spec fn digits_value(s: Seq<char>) -> Option<nat>
    decreases s.len(),
{
    if s.len() == 0 {
        Some(0)
    } else {
        match (digits_value(s.drop_last()), digit_value(s.last())) {
            (Some(v), Some(d)) => Some(10 * v + d),
            _ => None,
        }
    }
}

/// The number that `s` writes, if `s` is the decimal form of a number: digits
/// only, at least one, and no leading zero before another digit.
pub open spec fn number_of(s: Seq<char>) -> Option<nat> {
    if s.len() == 0 || (s.len() > 1 && s[0] == '0') {
        None
    } else {
        digits_value(s)
    }
}

/// For each character of `s`, whether it is a dot.
pub open spec fn dot_flags(s: Seq<char>) -> Seq<bool> {
    Seq::new(s.len(), |i: int| s[i] == '.')
}

/// The upper end that `s` writes: a star, or a number that a machine word
/// holds.
pub open spec fn bound_of(s: Seq<char>) -> Option<MultiplicityBound> {
    if s == seq!['*'] {
        Some(MultiplicityBound::Unbounded)
    } else {
        match number_of(s) {
            Some(n) => if n <= usize::MAX {
                Some(MultiplicityBound::Bounded(n as usize))
            } else {
                None
            },
            None => None,
        }
    }
}

/// The multiplicity that `s` writes: a number up to its first dot, a second
/// dot, and an upper end.
pub open spec fn multiplicity_of(s: Seq<char>) -> Option<Multiplicity> {
    match first_true(dot_flags(s)) {
        None => None,
        Some(d) => if d + 2 <= s.len() && s[d + 1] == '.' {
            match (number_of(s.take(d)), bound_of(s.skip(d + 2))) {
                (Some(min), Some(max)) => if min <= usize::MAX {
                    Some(Multiplicity { min: min as usize, max })
                } else {
                    None
                },
                _ => None,
            }
        } else {
            None
        },
    }
}

impl MultiplicityBound {
    /// The written form of the upper end.
    pub open spec fn text(self) -> Seq<char> {
        match self {
            MultiplicityBound::Bounded(limit) => decimal(limit as nat),
            MultiplicityBound::Unbounded => seq!['*'],
        }
    }
}

impl Multiplicity {
    /// The written form of the multiplicity.
    pub open spec fn text(self) -> Seq<char> {
        decimal(self.min as nat) + seq!['.', '.'] + self.max.text()
    }
}

/// The decimal form of a number holds digits only, at least one, and begins
/// with a zero only where the number is zero.
pub proof fn lemma_decimal_shape(n: nat)
    ensures
        decimal(n).len() >= 1,
        forall|i: int| 0 <= i < decimal(n).len() ==> digit_value(#[trigger] decimal(n)[i]) is Some,
        decimal(n)[0] == '0' <==> n == 0,
        n < 10 <==> decimal(n).len() == 1,
    decreases n,
{
    if n >= 10 {
        lemma_decimal_shape(n / 10);
        let head = decimal(n / 10);
        assert forall|i: int| 0 <= i < decimal(n).len() implies digit_value(
            #[trigger] decimal(n)[i],
        ) is Some by {
            if i < head.len() {
                assert(decimal(n)[i] == head[i]);
            }
        }
        assert(decimal(n)[0] == head[0]);
    }
}

/// The decimal form of a number writes that number.
pub proof fn lemma_number_of_decimal(n: nat)
    ensures
        number_of(decimal(n)) == Some(n),
        digits_value(decimal(n)) == Some(n),
    decreases n,
{
    lemma_decimal_shape(n);
    if n < 10 {
        assert(decimal(n).drop_last() =~= Seq::<char>::empty());
        assert(digits_value(decimal(n).drop_last()) == Some(0nat));
    } else {
        lemma_number_of_decimal(n / 10);
        assert(decimal(n).drop_last() =~= decimal(n / 10));
        assert(decimal(n).last() == digit(n % 10));
    }
}

/// Digits that begin with a digit other than zero write a number above zero.
proof fn lemma_leading_digit(s: Seq<char>)
    requires
        s.len() >= 1,
        s[0] != '0',
        digits_value(s) is Some,
    ensures
        digits_value(s).unwrap() >= 1,
    decreases s.len(),
{
    if s.len() == 1 {
        assert(s.drop_last() =~= Seq::<char>::empty());
        assert(digits_value(s.drop_last()) == Some(0nat));
        let x = s[0] as u32;
        vstd::utf8::char_u32_cast(s[0], x);
        vstd::utf8::char_u32_cast('0', 0x30u32);
    } else {
        assert(s.drop_last()[0] == s[0]);
        lemma_leading_digit(s.drop_last());
    }
}

/// Only the decimal form of a number writes that number.
pub proof fn lemma_decimal_of_number(s: Seq<char>)
    requires
        number_of(s) is Some,
    ensures
        s == decimal(number_of(s).unwrap()),
    decreases s.len(),
{
    let c = s.last();
    let x = c as u32;
    vstd::utf8::char_u32_cast(c, x);
    assert(digit((x - 0x30) as nat) == c);
    if s.len() == 1 {
        assert(s.drop_last() =~= Seq::<char>::empty());
        assert(digits_value(s.drop_last()) == Some(0nat));
        assert(s =~= seq![c]);
    } else {
        let head = s.drop_last();
        assert(head[0] == s[0]);
        lemma_leading_digit(head);
        if head.len() == 1 {
            assert(number_of(head) is Some);
        }
        lemma_decimal_of_number(head);
        let v = digits_value(head).unwrap();
        let n = digits_value(s).unwrap();
        assert(n == 10 * v + (x - 0x30));
        assert(n / 10 == v && n % 10 == (x - 0x30) as nat);
        assert(s =~= head.push(c));
    }
}

/// What is written is read back: the written form of a multiplicity writes
/// that multiplicity.
pub proof fn written_multiplicity_is_read_back(m: Multiplicity)
    ensures
        multiplicity_of(m.text()) == Some(m),
{
    let head = decimal(m.min as nat);
    let tail = m.max.text();
    let s = m.text();
    let d = head.len() as int;
    lemma_decimal_shape(m.min as nat);
    lemma_number_of_decimal(m.min as nat);
    assert(s.len() == d + 2 + tail.len());
    assert(s[d] == '.' && s[d + 1] == '.');
    assert forall|j: int| 0 <= j < d implies !#[trigger] dot_flags(s)[j] by {
        assert(s[j] == head[j]);
        assert(digit_value(head[j]) is Some);
    }
    assert(is_first_true(dot_flags(s), d));
    lemma_first_true_is(dot_flags(s), d);
    assert(s.take(d) =~= head);
    assert(s.skip(d + 2) =~= tail);
    match m.max {
        MultiplicityBound::Bounded(limit) => {
            lemma_decimal_shape(limit as nat);
            lemma_number_of_decimal(limit as nat);
            assert(digit_value(tail[0]) is Some);
            assert(tail != seq!['*']);
        },
        MultiplicityBound::Unbounded => {},
    }
}

/// What is read was written: a text that writes a multiplicity is the written
/// form of that multiplicity.
pub proof fn read_multiplicity_was_written(s: Seq<char>)
    requires
        multiplicity_of(s) is Some,
    ensures
        multiplicity_of(s).unwrap().text() == s,
{
    let d = first_true(dot_flags(s)).unwrap();
    lemma_first_true_sound(dot_flags(s));
    let m = multiplicity_of(s).unwrap();
    lemma_decimal_of_number(s.take(d));
    let tail = s.skip(d + 2);
    if tail != seq!['*'] {
        lemma_decimal_of_number(tail);
    }
    assert(s =~= s.take(d) + seq!['.', '.'] + tail);
}

/// Where some of the first digits are no digits, the whole is no number; and
/// the number that the first digits write is not above the number that all of
/// them write.
pub proof fn lemma_digits_prefix(s: Seq<char>, k: int)
    requires
        0 <= k <= s.len(),
    ensures
        digits_value(s.take(k)) is None ==> digits_value(s) is None,
        digits_value(s) is Some ==> digits_value(s.take(k)) is Some && digits_value(
            s.take(k),
        ).unwrap() <= digits_value(s).unwrap(),
    decreases s.len() - k,
{
    if k == s.len() {
        assert(s.take(k) =~= s);
    } else {
        assert(s.take(k + 1).drop_last() =~= s.take(k));
        lemma_digits_prefix(s, k + 1);
    }
}

/// The text of the decimal digit `d`.
fn digit_text(d: usize) -> (text: &'static str)
    requires
        d < 10,
    ensures
        text@ == seq![digit(d as nat)],
{
    proof {
        reveal_strlit("0");
        reveal_strlit("1");
        reveal_strlit("2");
        reveal_strlit("3");
        reveal_strlit("4");
        reveal_strlit("5");
        reveal_strlit("6");
        reveal_strlit("7");
        reveal_strlit("8");
        reveal_strlit("9");
    }
    let text = if d == 0 {
        "0"
    } else if d == 1 {
        "1"
    } else if d == 2 {
        "2"
    } else if d == 3 {
        "3"
    } else if d == 4 {
        "4"
    } else if d == 5 {
        "5"
    } else if d == 6 {
        "6"
    } else if d == 7 {
        "7"
    } else if d == 8 {
        "8"
    } else {
        "9"
    };
    assert(text@ =~= seq![digit(d as nat)]);
    text
}

/// Writes `n` in decimal.
pub fn decimal_text(n: usize) -> (text: String)
    ensures
        text@ == decimal(n as nat),
    decreases n,
{
    if n < 10 {
        String::from_str(digit_text(n))
    } else {
        let mut text = decimal_text(n / 10);
        text.append(digit_text(n % 10));
        assert(text@ =~= decimal(n as nat));
        text
    }
}

/// Reads the number that the characters of `input` from `from` up to `to`
/// write, if they write one that a machine word holds.
fn read_number(input: &str, from: usize, to: usize) -> (number: Option<usize>)
    requires
        from <= to <= input@.len(),
    ensures
        number == match number_of(input@.subrange(from as int, to as int)) {
            Some(n) => if n <= usize::MAX {
                Some(n as usize)
            } else {
                None
            },
            None => None,
        },
{
    let ghost s = input@.subrange(from as int, to as int);
    if from == to {
        return None;
    }
    let first = input.get_char(from);
    assert(s[0] == first);
    if to - from > 1 && first == '0' {
        return None;
    }
    let mut value: usize = 0;
    let mut i: usize = from;
    assert(s.take(0) =~= Seq::<char>::empty());
    while i < to
        invariant
            from <= i <= to <= input@.len(),
            s == input@.subrange(from as int, to as int),
            digits_value(s.take(i - from)) == Some(value as nat),
        decreases to - i,
    {
        let c = input.get_char(i);
        let code = c as u32;
        proof {
            assert(s[i - from] == c);
            assert(s.take(i - from + 1).drop_last() =~= s.take(i - from));
            assert(s.take(i - from + 1).last() == c);
            lemma_digits_prefix(s, i - from + 1);
        }
        if code < 0x30 || code > 0x39 {
            return None;
        }
        let d = (code - 0x30) as usize;
        if value > (usize::MAX - d) / 10 {
            return None;
        }
        value = value * 10 + d;
        i += 1;
    }
    assert(s.take(to - from) =~= s);
    Some(value)
}

impl MultiplicityBound {
    /// Writes the upper end: the number, or a star.
    pub fn to_string(&self) -> (text: String)
        ensures
            text@ == self.text(),
    {
        match self {
            MultiplicityBound::Bounded(limit) => decimal_text(*limit),
            MultiplicityBound::Unbounded => {
                proof {
                    reveal_strlit("*");
                }
                let text = String::from_str("*");
                assert(text@ =~= seq!['*']);
                text
            },
        }
    }
}

impl Multiplicity {
    /// Writes the multiplicity: the lower end, two dots and the upper end.
    pub fn to_string(&self) -> (text: String)
        ensures
            text@ == self.text(),
    {
        proof {
            reveal_strlit("..");
        }
        let mut text = decimal_text(self.min);
        text.append("..");
        let upper = self.max.to_string();
        text.append(upper.as_str());
        assert(text@ =~= self.text());
        text
    }

    /// Reads a multiplicity from its written form, and from nothing else.
    pub fn from_str(input: &str) -> (multiplicity: Option<Multiplicity>)
        ensures
            multiplicity == multiplicity_of(input@),
            match multiplicity {
                Some(m) => m.text() == input@,
                None => forall|m: Multiplicity| m.text() != input@,
            },
    {
        let n = input.unicode_len();
        let ghost flags = dot_flags(input@);
        let mut d: usize = 0;
        let mut searching = true;
        while searching && d < n
            invariant
                n == input@.len(),
                d <= n,
                flags == dot_flags(input@),
                forall|j: int| 0 <= j < d ==> !#[trigger] flags[j],
                !searching ==> d < n && flags[d as int],
            decreases n - d + if searching { 1int } else { 0int },
        {
            if input.get_char(d) == '.' {
                searching = false;
            } else {
                d += 1;
            }
        }
        proof {
            assert forall|m: Multiplicity| multiplicity_of(input@) is None implies m.text()
                != input@ by {
                written_multiplicity_is_read_back(m);
            }
            if multiplicity_of(input@) is Some {
                read_multiplicity_was_written(input@);
            }
        }
        if d == n {
            proof {
                lemma_first_true_none(flags);
            }
            return None;
        }
        proof {
            assert(is_first_true(flags, d as int));
            lemma_first_true_is(flags, d as int);
        }
        if n - d < 2 {
            return None;
        }
        if input.get_char(d + 1) != '.' {
            return None;
        }
        assert(input@.take(d as int) =~= input@.subrange(0, d as int));
        assert(input@.skip(d + 2) =~= input@.subrange(d + 2, n as int));
        let min = match read_number(input, 0, d) {
            Some(min) => min,
            None => {
                return None;
            },
        };
        let max = if n - d == 3 && input.get_char(d + 2) == '*' {
            assert(input@.skip(d + 2) =~= seq!['*']);
            MultiplicityBound::Unbounded
        } else {
            assert(input@.skip(d + 2) != seq!['*']) by {
                if input@.skip(d + 2) == seq!['*'] {
                    assert(input@.skip(d + 2).len() == 1);
                    assert(input@.skip(d + 2)[0] == '*');
                }
            }
            match read_number(input, d + 2, n) {
                Some(limit) => MultiplicityBound::Bounded(limit),
                None => {
                    return None;
                },
            }
        };
        Some(Multiplicity { min, max })
    }
}

} // verus!
