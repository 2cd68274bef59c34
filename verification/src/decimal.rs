//! Non-negative decimal amounts, held digit by digit, so that nothing of a
//! parsed number is lost.

use vstd::prelude::*;
use crate::text::chars_of;
use crate::text::is_ascii_digit;
use crate::text::string_of;

verus! {

/// A decimal number as its digits: those before the point, most significant
/// first, and those after it.
pub struct Decimal {
    pub whole: Seq<u8>,
    pub fraction: Seq<u8>,
}

/// The number that a run of digits denotes.
pub open spec fn digits_value(digits: Seq<u8>) -> nat
    decreases digits.len(),
{
    if digits.len() == 0 {
        0
    } else {
        digits_value(digits.drop_last()) * 10 + digits.last() as nat
    }
}

/// Every entry is a digit, 0 to 9.
pub open spec fn are_digits(digits: Seq<u8>) -> bool {
    forall|i: int| 0 <= i < digits.len() ==> #[trigger] digits[i] <= 9
}

/// Every character is one of `0` to `9`.
pub open spec fn all_ascii_digits(text: Seq<char>) -> bool {
    forall|i: int| 0 <= i < text.len() ==> is_ascii_digit(#[trigger] text[i])
}

pub open spec fn digit_of(c: char) -> u8 {
    (c as u8 - 48) as u8
}

pub open spec fn char_of(d: u8) -> char {
    (d + 48) as char
}

/// The digits that a run of the characters `0` to `9` spells.
pub open spec fn digits_of(text: Seq<char>) -> Seq<u8> {
    Seq::new(text.len(), |i: int| digit_of(text[i]))
}

/// The characters that spell a run of digits.
pub open spec fn chars_of_digits(digits: Seq<u8>) -> Seq<char> {
    Seq::new(digits.len(), |i: int| char_of(digits[i]))
}

/// How many characters at the start of `text` are digits.
pub open spec fn leading_digits(text: Seq<char>) -> nat
    decreases text.len(),
{
    if text.len() == 0 || !is_ascii_digit(text[0]) {
        0
    } else {
        1 + leading_digits(text.drop_first())
    }
}

/// The decimal number that `text` spells: digits, then optionally a point
/// and more digits, with at least one digit in all. `5.` and `.5` are
/// numbers; the empty text, `.` and `8.8.4.4` are not.
pub open spec fn decimal_of(text: Seq<char>) -> Option<Decimal> {
    let p = leading_digits(text) as int;
    if p == text.len() {
        if p > 0 {
            Some(Decimal { whole: digits_of(text), fraction: Seq::empty() })
        } else {
            None
        }
    } else if text[p] == '.' && all_ascii_digits(text.skip(p + 1)) && text.len() > 1 {
        Some(Decimal { whole: digits_of(text.take(p)), fraction: digits_of(text.skip(p + 1)) })
    } else {
        None
    }
}

impl Decimal {
    /// Digits only, and at least one of them.
    pub open spec fn wf(self) -> bool {
        &&& are_digits(self.whole)
        &&& are_digits(self.fraction)
        &&& self.whole.len() + self.fraction.len() > 0
    }

    /// All the digits read as one number; the amount is this number divided
    /// by ten to the power of `scale`.
    pub open spec fn mantissa(self) -> nat {
        digits_value(self.whole + self.fraction)
    }

    /// The number of digits after the point.
    pub open spec fn scale(self) -> nat {
        self.fraction.len()
    }

    /// Digit `i` after the point, 0 where the fraction ends before it.
    pub open spec fn fraction_digit(self, i: int) -> nat {
        if 0 <= i < self.fraction.len() {
            self.fraction[i] as nat
        } else {
            0
        }
    }

    /// The amount in hundredths, what lies beyond the second digit after
    /// the point cut off.
    pub open spec fn cents(self) -> nat {
        digits_value(self.whole) * 100 + self.fraction_digit(0) * 10 + self.fraction_digit(1)
    }

    /// The amount written out: the digits before the point, or `0` where
    /// there is none, then a point and the digits after it, where there is
    /// one.
    pub open spec fn text(self) -> Seq<char> {
        let whole = if self.whole.len() == 0 {
            seq!['0']
        } else {
            chars_of_digits(self.whole)
        };
        if self.fraction.len() == 0 {
            whole
        } else {
            whole + seq!['.'] + chars_of_digits(self.fraction)
        }
    }

    /// The amount with exactly two digits after the point: further digits
    /// are cut off, missing ones are zero.
    pub open spec fn in_cents(self) -> Decimal {
        Decimal {
            whole: self.whole,
            fraction: seq![self.fraction_digit(0) as u8, self.fraction_digit(1) as u8],
        }
    }

    /// The same amount divided by a hundred: the point moves two places to
    /// the left.
    pub open spec fn hundredth(self) -> Decimal {
        if self.whole.len() >= 2 {
            Decimal {
                whole: self.whole.take(self.whole.len() - 2),
                fraction: self.whole.skip(self.whole.len() - 2) + self.fraction,
            }
        } else if self.whole.len() == 1 {
            Decimal { whole: Seq::empty(), fraction: seq![0u8] + self.whole + self.fraction }
        } else {
            Decimal { whole: Seq::empty(), fraction: seq![0u8, 0u8] + self.fraction }
        }
    }
}

pub proof fn lemma_leading_digits(text: Seq<char>, p: int)
    requires
        0 <= p <= text.len(),
        all_ascii_digits(text.take(p)),
        p < text.len() ==> !is_ascii_digit(text[p]),
    ensures
        leading_digits(text) == p,
    decreases text.len(),
{
    if text.len() == 0 {
    } else if p == 0 {
    } else {
        assert(text.take(p)[0] == text[0]);
        let rest = text.drop_first();
        assert forall|i: int| 0 <= i < p - 1 implies is_ascii_digit(
            #[trigger] rest.take(p - 1)[i],
        ) by {
            assert(rest.take(p - 1)[i] == text.take(p)[i + 1]);
        }
        lemma_leading_digits(rest, p - 1);
    }
}

/// A non-negative decimal amount, exact to the last digit that was read.
#[derive(Debug)]
pub struct Amount {
    whole: Vec<u8>,
    fraction: Vec<u8>,
}

impl View for Amount {
    type V = Decimal;

    closed spec fn view(&self) -> Decimal {
        Decimal { whole: self.whole@, fraction: self.fraction@ }
    }
}

impl Clone for Amount {
    fn clone(&self) -> (r: Amount)
        ensures
            r@ == self@,
    {
        proof {
            use_type_invariant(self);
        }
        Amount { whole: self.whole.clone(), fraction: self.fraction.clone() }
    }
}

impl Amount {
    #[verifier::type_invariant]
    spec fn well_formed(self) -> bool {
        self@.wf()
    }

    /// Reads a number such as `312.04`, `312`, `5.` or `.5`.
    pub fn parse(text: &Vec<char>) -> (r: Option<Amount>)
        ensures
            match r {
                Some(a) => decimal_of(text@) == Some(a@),
                None => decimal_of(text@) is None,
            },
    {
        let mut whole: Vec<u8> = Vec::new();
        let mut p: usize = 0;
        while p < text.len() && is_digit(text[p])
            invariant
                p <= text.len(),
                all_ascii_digits(text@.take(p as int)),
                whole@ == digits_of(text@.take(p as int)),
            decreases text.len() - p,
        {
            whole.push(digit(text[p]));
            assert(text@.take(p + 1).drop_last() == text@.take(p as int));
            assert(whole@ =~= digits_of(text@.take(p + 1)));
            p += 1;
        }
        proof {
            lemma_leading_digits(text@, p as int);
        }
        let mut fraction: Vec<u8> = Vec::new();
        if p == text.len() {
            assert(text@.take(p as int) == text@);
            if p == 0 {
                return None;
            }
            assert(are_digits(whole@));
            return Some(Amount { whole, fraction });
        }
        if text[p] != '.' || text.len() <= 1 {
            return None;
        }
        let start = p + 1;
        let ghost tail = text@.skip(start as int);
        let mut q: usize = start;
        while q < text.len()
            invariant
                start <= q <= text.len(),
                start == p + 1,
                leading_digits(text@) == p,
                tail == text@.skip(start as int),
                all_ascii_digits(tail.take(q - start)),
                fraction@ == digits_of(tail.take(q - start)),
            decreases text.len() - q,
        {
            if !is_digit(text[q]) {
                assert(!is_ascii_digit(tail[q - start]));
                return None;
            }
            fraction.push(digit(text[q]));
            assert(tail.take(q - start + 1).drop_last() == tail.take(q - start));
            assert(tail.take(q - start + 1).last() == text@[q as int]);
            assert(fraction@ =~= digits_of(tail.take(q - start + 1)));
            q += 1;
        }
        assert(tail.take(q - start) == tail);
        assert(are_digits(whole@));
        assert(are_digits(fraction@));
        Some(Amount { whole, fraction })
    }

    /// The amount in hundredths, what lies beyond the second digit after
    /// the point cut off; `None` where that does not fit.
    pub fn cents(&self) -> (r: Option<u64>)
        ensures
            match r {
                Some(c) => c == self@.cents(),
                None => self@.cents() > u64::MAX,
            },
    {
        proof {
            use_type_invariant(self);
        }
        let mut value: u64 = 0;
        let mut i: usize = 0;
        while i < self.whole.len()
            invariant
                i <= self.whole.len(),
                are_digits(self.whole@),
                value == digits_value(self.whole@.take(i as int)),
            decreases self.whole.len() - i,
        {
            proof {
                assert(self.whole@.take(i + 1).drop_last() == self.whole@.take(i as int));
                lemma_digits_value_grows(self.whole@, i + 1);
            }
            let d = self.whole[i];
            if value > (u64::MAX - d as u64) / 10 {
                proof {
                    lemma_digits_value_monotone(self.whole@, i + 1);
                }
                return None;
            }
            value = value * 10 + d as u64;
            i += 1;
        }
        assert(self.whole@.take(i as int) == self.whole@);
        let tenths: u64 = if self.fraction.len() > 0 {
            self.fraction[0] as u64
        } else {
            0
        };
        let hundredths: u64 = if self.fraction.len() > 1 {
            self.fraction[1] as u64
        } else {
            0
        };
        let part: u64 = tenths * 10 + hundredths;
        if value > (u64::MAX - part) / 100 {
            return None;
        }
        Some(value * 100 + part)
    }

    /// The amount written out, as `312.04`, `312` or `0.5`.
    pub fn to_text(&self) -> (s: String)
        ensures
            s@ == self@.text(),
    {
        proof {
            use_type_invariant(self);
        }
        let mut out: Vec<char> = Vec::new();
        if self.whole.len() == 0 {
            out.push('0');
        } else {
            push_digits(&mut out, &self.whole);
        }
        if self.fraction.len() > 0 {
            out.push('.');
            push_digits(&mut out, &self.fraction);
        }
        assert(out@ =~= self@.text());
        string_of(&out)
    }

    /// The amount cut to two digits after the point.
    pub fn in_cents(&self) -> (r: Amount)
        ensures
            r@ == self@.in_cents(),
    {
        proof {
            use_type_invariant(self);
        }
        let tenths: u8 = if self.fraction.len() > 0 {
            self.fraction[0]
        } else {
            0
        };
        let hundredths: u8 = if self.fraction.len() > 1 {
            self.fraction[1]
        } else {
            0
        };
        let mut fraction: Vec<u8> = Vec::new();
        fraction.push(tenths);
        fraction.push(hundredths);
        assert(fraction@ =~= self@.in_cents().fraction);
        Amount { whole: self.whole.clone(), fraction }
    }

    /// The amount divided by a hundred.
    pub fn hundredth(&self) -> (r: Amount)
        ensures
            r@ == self@.hundredth(),
    {
        proof {
            use_type_invariant(self);
        }
        let n = self.whole.len();
        let keep: usize = if n >= 2 {
            n - 2
        } else {
            0
        };
        let mut whole: Vec<u8> = Vec::new();
        let mut fraction: Vec<u8> = Vec::new();
        if n < 2 {
            fraction.push(0);
        }
        if n < 1 {
            fraction.push(0);
        }
        let mut i: usize = 0;
        while i < keep
            invariant
                i <= keep <= n,
                n == self.whole.len(),
                whole@ == self.whole@.take(i as int),
            decreases keep - i,
        {
            whole.push(self.whole[i]);
            assert(self.whole@.take(i + 1) == self.whole@.take(i as int).push(self.whole@[i as int]));
            i += 1;
        }
        let ghost padding = fraction@;
        let mut j: usize = keep;
        while j < n
            invariant
                keep <= j <= n,
                n == self.whole.len(),
                fraction@ == padding + self.whole@.subrange(keep as int, j as int),
            decreases n - j,
        {
            fraction.push(self.whole[j]);
            assert(self.whole@.subrange(keep as int, j + 1) == self.whole@.subrange(
                keep as int,
                j as int,
            ).push(self.whole@[j as int]));
            j += 1;
        }
        let ghost moved = fraction@;
        let mut k: usize = 0;
        while k < self.fraction.len()
            invariant
                k <= self.fraction.len(),
                fraction@ == moved + self.fraction@.take(k as int),
            decreases self.fraction.len() - k,
        {
            fraction.push(self.fraction[k]);
            assert(self.fraction@.take(k + 1) == self.fraction@.take(k as int).push(
                self.fraction@[k as int],
            ));
            k += 1;
        }
        assert(self.fraction@.take(k as int) == self.fraction@);
        assert(self.whole@.subrange(keep as int, n as int) == self.whole@.skip(keep as int));
        assert(whole@ == self@.hundredth().whole);
        assert(fraction@ =~= self@.hundredth().fraction);
        assert(are_digits(whole@));
        assert(are_digits(fraction@));
        Amount { whole, fraction }
    }
}

/// A run of digits with one more digit is worth at least ten times the
/// run without it.
pub proof fn lemma_digits_value_grows(digits: Seq<u8>, n: int)
    requires
        0 < n <= digits.len(),
    ensures
        digits_value(digits.take(n)) == digits_value(digits.take(n - 1)) * 10 + digits[n - 1],
{
    assert(digits.take(n).drop_last() == digits.take(n - 1));
}

/// Zeros before a run of digits do not change what it is worth.
pub proof fn lemma_leading_zero(digits: Seq<u8>)
    ensures
        digits_value(seq![0u8] + digits) == digits_value(digits),
    decreases digits.len(),
{
    let longer = seq![0u8] + digits;
    if digits.len() == 0 {
        assert(longer.drop_last() =~= Seq::<u8>::empty());
        assert(digits_value(longer.drop_last()) == 0);
    } else {
        assert(longer.drop_last() =~= seq![0u8] + digits.drop_last());
        lemma_leading_zero(digits.drop_last());
    }
}

/// Dividing by a hundred keeps every digit and moves the point by two
/// places: the amount is the same number of units that are a hundred times
/// smaller.
pub proof fn lemma_hundredth(d: Decimal)
    ensures
        d.hundredth().mantissa() == d.mantissa(),
        d.hundredth().scale() == d.scale() + 2,
        d.wf() ==> d.hundredth().wf(),
{
    let h = d.hundredth();
    if d.whole.len() >= 2 {
        assert(h.whole + h.fraction =~= d.whole + d.fraction);
    } else if d.whole.len() == 1 {
        assert(h.whole + h.fraction =~= seq![0u8] + (d.whole + d.fraction));
        lemma_leading_zero(d.whole + d.fraction);
    } else {
        assert(h.whole + h.fraction =~= seq![0u8] + (seq![0u8] + d.fraction));
        assert(d.whole + d.fraction =~= d.fraction);
        lemma_leading_zero(d.fraction);
        lemma_leading_zero(seq![0u8] + d.fraction);
    }
}

/// Cutting an amount to cents keeps its cents.
pub proof fn lemma_in_cents(d: Decimal)
    requires
        d.wf(),
    ensures
        d.in_cents().cents() == d.cents(),
        d.in_cents().wf(),
        d.in_cents().scale() == 2,
{
}

/// The beginning of a run of digits is worth no more than the run.
pub proof fn lemma_digits_value_monotone(digits: Seq<u8>, n: int)
    requires
        0 <= n <= digits.len(),
    ensures
        digits_value(digits.take(n)) <= digits_value(digits),
    decreases digits.len() - n,
{
    if n == digits.len() {
        assert(digits.take(n) == digits);
    } else {
        lemma_digits_value_grows(digits, n + 1);
        lemma_digits_value_monotone(digits, n + 1);
    }
}

/// The number that `text` spells as an unsigned integer: one or more
/// digits, with one `+` before them allowed.
pub open spec fn unsigned_of(text: Seq<char>) -> Option<nat> {
    let digits = if text.len() > 0 && text[0] == '+' {
        text.drop_first()
    } else {
        text
    };
    if digits.len() > 0 && all_ascii_digits(digits) {
        Some(digits_value(digits_of(digits)))
    } else {
        None
    }
}

/// The number that `text` spells, where it fits into 32 bits.
pub open spec fn u32_of(text: Seq<char>) -> Option<u32> {
    match unsigned_of(text) {
        Some(n) => if n <= u32::MAX {
            Some(n as u32)
        } else {
            None
        },
        None => None,
    }
}

/// Reads an unsigned integer; `None` where the text spells none or the
/// number does not fit.
pub fn parse_u64(text: &str) -> (r: Option<u64>)
    ensures
        match r {
            Some(n) => unsigned_of(text@) == Some(n as nat),
            None => unsigned_of(text@) matches Some(n) ==> n > u64::MAX,
        },
{
    let chars = chars_of(text);
    let start: usize = if chars.len() > 0 && chars[0] == '+' {
        1
    } else {
        0
    };
    let ghost digits = chars@.skip(start as int);
    assert(start == 1 ==> chars@.drop_first() == digits);
    assert(start == 0 ==> chars@ == digits);
    if chars.len() == start {
        return None;
    }
    let mut value: u64 = 0;
    let mut i: usize = start;
    while i < chars.len()
        invariant
            start <= i <= chars.len(),
            digits == chars@.skip(start as int),
            unsigned_of(text@) == if digits.len() > 0 && all_ascii_digits(digits) {
                Some(digits_value(digits_of(digits)))
            } else {
                None
            },
            all_ascii_digits(digits.take(i - start)),
            value == digits_value(digits_of(digits.take(i - start))),
        decreases chars.len() - i,
    {
        let c = chars[i];
        assert(digits[i - start] == c);
        if !is_digit(c) {
            return None;
        }
        let d = digit(c);
        proof {
            let upto = digits.take(i - start + 1);
            assert(upto.drop_last() == digits.take(i - start));
            assert(digits_of(upto).drop_last() =~= digits_of(digits.take(i - start)));
            assert(digits_of(upto).last() == d);
        }
        if value > (u64::MAX - d as u64) / 10 {
            proof {
                if all_ascii_digits(digits) {
                    assert(digits_of(digits).take(i - start + 1) =~= digits_of(
                        digits.take(i - start + 1),
                    ));
                    lemma_digits_value_monotone(digits_of(digits), i - start + 1);
                }
            }
            return None;
        }
        value = value * 10 + d as u64;
        i += 1;
    }
    assert(digits.take(i - start) == digits);
    Some(value)
}

/// Reads an unsigned integer of 32 bits; `None` where the text spells none
/// or the number does not fit.
pub fn parse_u32(text: &str) -> (r: Option<u32>)
    ensures
        r == u32_of(text@),
{
    match parse_u64(text) {
        Some(n) => if n <= 0xffff_ffff {
            Some(n as u32)
        } else {
            None
        },
        None => None,
    }
}

/// A number written in decimal digits, without zeros before it.
pub open spec fn decimal_text(n: nat) -> Seq<char>
    decreases n,
{
    if n < 10 {
        seq![char_of(n as u8)]
    } else {
        decimal_text(n / 10).push(char_of((n % 10) as u8))
    }
}

/// A number that is written out and read again is the same number.
pub proof fn lemma_decimal_text_round_trip(n: nat)
    ensures
        decimal_text(n).len() > 0,
        all_ascii_digits(decimal_text(n)),
        digits_value(digits_of(decimal_text(n))) == n,
        unsigned_of(decimal_text(n)) == Some(n),
    decreases n,
{
    let text = decimal_text(n);
    if n < 10 {
        assert(text[0] == char_of(n as u8));
        assert(digits_of(text).drop_last() =~= Seq::<u8>::empty());
        assert(digits_value(digits_of(text).drop_last()) == 0);
        assert(digits_of(text).last() == n);
    } else {
        let head = decimal_text(n / 10);
        lemma_decimal_text_round_trip(n / 10);
        assert forall|i: int| 0 <= i < text.len() implies is_ascii_digit(#[trigger] text[i]) by {
            if i < head.len() {
                assert(text[i] == head[i]);
            }
        }
        assert(digits_of(text).drop_last() =~= digits_of(head));
        assert(digits_of(text).last() == n % 10);
    }
    assert(text[0] != '+');
}

/// Appends a number in decimal digits.
pub fn push_number(out: &mut Vec<char>, n: u64)
    ensures
        final(out)@ == old(out)@ + decimal_text(n as nat),
    decreases n,
{
    if n >= 10 {
        push_number(out, n / 10);
    }
    let ghost before = out@;
    out.push(((n % 10) as u8 + 48) as char);
    assert(out@ =~= old(out)@ + decimal_text(n as nat));
}

fn is_digit(c: char) -> (r: bool)
    ensures
        r == is_ascii_digit(c),
{
    '0' <= c && c <= '9'
}

fn digit(c: char) -> (d: u8)
    requires
        is_ascii_digit(c),
    ensures
        d == digit_of(c),
        d <= 9,
{
    (c as u8) - 48
}

fn push_digits(out: &mut Vec<char>, digits: &Vec<u8>)
    requires
        are_digits(digits@),
    ensures
        final(out)@ == old(out)@ + chars_of_digits(digits@),
{
    let mut i: usize = 0;
    while i < digits.len()
        invariant
            i <= digits.len(),
            are_digits(digits@),
            out@ == old(out)@ + chars_of_digits(digits@.take(i as int)),
        decreases digits.len() - i,
    {
        let d = digits[i];
        out.push((d + 48) as char);
        assert(chars_of_digits(digits@.take(i + 1)) =~= chars_of_digits(digits@.take(i as int)).push(
            char_of(d),
        ));
        i += 1;
    }
    assert(digits@.take(i as int) == digits@);
}

} // verus!
