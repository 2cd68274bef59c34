//! What holds of the reading and writing of prices, for every price.

use vstd::prelude::*;
use crate::common::{
    abbreviation, dollars, first_amount, first_currency, money_of, number_chars, separates, split,
    Currency, MoneyView, ParseFailure, Separator,
};
use crate::decimal::{
    all_ascii_digits, char_of, chars_of_digits, decimal_of, digit_of, digits_of, digits_value,
    are_digits, lemma_leading_digits, Decimal,
};
use crate::text::{is_ascii_digit, numeric, white_space};

verus! {

/// Token `i` is the first that is not empty and stands for a currency.
pub open spec fn is_first_currency(tokens: Seq<Seq<char>>, i: int) -> bool {
    &&& 0 <= i < tokens.len()
    &&& tokens[i].len() > 0
    &&& abbreviation(tokens[i]) is Some
    &&& forall|j: int|
        0 <= j < i ==> (#[trigger] tokens[j]).len() == 0 || abbreviation(tokens[j]) is None
}

/// Token `i` is the first that is not empty and holds an amount.
pub open spec fn is_first_amount(tokens: Seq<Seq<char>>, i: int) -> bool {
    &&& 0 <= i < tokens.len()
    &&& tokens[i].len() > 0
    &&& dollars(tokens[i]) is Some
    &&& forall|j: int| 0 <= j < i ==> (#[trigger] tokens[j]).len() == 0 || dollars(tokens[j]) is None
}

/// The currency of a run of tokens is that of the first token that is not
/// empty and stands for one, and there is none only where no token does.
pub proof fn lemma_first_currency(tokens: Seq<Seq<char>>)
    ensures
        forall|i: int| #[trigger]
            is_first_currency(tokens, i) ==> first_currency(tokens) == abbreviation(tokens[i]),
        first_currency(tokens) is None ==> forall|j: int|
            0 <= j < tokens.len() ==> (#[trigger] tokens[j]).len() == 0 || abbreviation(tokens[j])
                is None,
        first_currency(tokens) is Some ==> exists|i: int| is_first_currency(tokens, i),
    decreases tokens.len(),
{
    if tokens.len() > 0 {
        let shorter = tokens.drop_last();
        lemma_first_currency(shorter);
        assert forall|j: int| 0 <= j < shorter.len() implies shorter[j] == tokens[j] by {}
        assert forall|i: int| #[trigger] is_first_currency(tokens, i) implies first_currency(tokens)
            == abbreviation(tokens[i]) by {
            if i < shorter.len() {
                assert(is_first_currency(shorter, i));
            } else {
                if first_currency(shorter) is Some {
                    let k = choose|k: int| is_first_currency(shorter, k);
                    assert(tokens[k].len() == 0 || abbreviation(tokens[k]) is None);
                }
            }
        }
        if first_currency(tokens) is Some {
            if first_currency(shorter) is Some {
                let k = choose|k: int| is_first_currency(shorter, k);
                assert(is_first_currency(tokens, k));
            } else {
                assert(is_first_currency(tokens, tokens.len() - 1));
            }
        }
    }
}

/// The amount of a run of tokens is that of the first token that is not
/// empty and holds one, and there is none only where no token does.
pub proof fn lemma_first_amount(tokens: Seq<Seq<char>>)
    ensures
        forall|i: int| #[trigger]
            is_first_amount(tokens, i) ==> first_amount(tokens) == dollars(tokens[i]),
        first_amount(tokens) is None ==> forall|j: int|
            0 <= j < tokens.len() ==> (#[trigger] tokens[j]).len() == 0 || dollars(tokens[j])
                is None,
        first_amount(tokens) is Some ==> exists|i: int| is_first_amount(tokens, i),
    decreases tokens.len(),
{
    if tokens.len() > 0 {
        let shorter = tokens.drop_last();
        lemma_first_amount(shorter);
        assert forall|j: int| 0 <= j < shorter.len() implies shorter[j] == tokens[j] by {}
        assert forall|i: int| #[trigger] is_first_amount(tokens, i) implies first_amount(tokens)
            == dollars(tokens[i]) by {
            if i < shorter.len() {
                assert(is_first_amount(shorter, i));
            } else {
                if first_amount(shorter) is Some {
                    let k = choose|k: int| is_first_amount(shorter, k);
                    assert(tokens[k].len() == 0 || dollars(tokens[k]) is None);
                }
            }
        }
        if first_amount(tokens) is Some {
            if first_amount(shorter) is Some {
                let k = choose|k: int| is_first_amount(shorter, k);
                assert(is_first_amount(tokens, k));
            } else {
                assert(is_first_amount(tokens, tokens.len() - 1));
            }
        }
    }
}

/// There is at least one token, and no token holds a separator.
pub proof fn lemma_tokens_hold_no_separator(s: Seq<char>, by: Separator)
    ensures
        split(s, by).len() > 0,
        forall|n: int, i: int|
            0 <= n < split(s, by).len() && 0 <= i < split(s, by)[n].len() ==> !separates(
                by,
                #[trigger] split(s, by)[n][i],
            ),
    decreases s.len(),
{
    if s.len() > 0 {
        let before = split(s.drop_last(), by);
        lemma_tokens_hold_no_separator(s.drop_last(), by);
        let now = split(s, by);
        assert forall|n: int, i: int| 0 <= n < now.len() && 0 <= i < now[n].len() implies !separates(
            by,
            #[trigger] now[n][i],
        ) by {
            if separates(by, s.last()) {
                assert(now[n] == before[n]);
            } else if n < before.len() - 1 {
                assert(now[n] == before[n]);
            } else if i < before.last().len() {
                assert(now[n][i] == before[before.len() - 1][i]);
            }
        }
    }
}

/// A text without a separator is its own single token.
pub proof fn lemma_split_without_separator(s: Seq<char>, by: Separator)
    requires
        forall|i: int| 0 <= i < s.len() ==> !separates(by, #[trigger] s[i]),
    ensures
        split(s, by) == seq![s],
    decreases s.len(),
{
    if s.len() > 0 {
        let shorter = s.drop_last();
        assert forall|i: int| 0 <= i < shorter.len() implies !separates(by, #[trigger] shorter[i]) by {
            assert(shorter[i] == s[i]);
        }
        lemma_split_without_separator(shorter, by);
        assert(shorter.push(s.last()) == s);
        assert(seq![shorter].last() == shorter);
        assert(seq![shorter].drop_last().push(s) =~= seq![s]);
    } else {
        assert(s == Seq::<char>::empty());
    }
}

/// Two texts without a separator, with one separator between them, are two
/// tokens.
pub proof fn lemma_split_two(a: Seq<char>, c: char, b: Seq<char>, by: Separator)
    requires
        forall|i: int| 0 <= i < a.len() ==> !separates(by, #[trigger] a[i]),
        forall|i: int| 0 <= i < b.len() ==> !separates(by, #[trigger] b[i]),
        separates(by, c),
    ensures
        split(a + seq![c] + b, by) == seq![a, b],
    decreases b.len(),
{
    let s = a + seq![c] + b;
    if b.len() == 0 {
        assert(s.drop_last() == a);
        assert(s.last() == c);
        lemma_split_without_separator(a, by);
        assert(b =~= Seq::<char>::empty());
        assert(seq![a].push(b) =~= seq![a, b]);
    } else {
        let shorter = b.drop_last();
        assert forall|i: int| 0 <= i < shorter.len() implies !separates(by, #[trigger] shorter[i]) by {
            assert(shorter[i] == b[i]);
        }
        lemma_split_two(a, c, shorter, by);
        assert(s.drop_last() == a + seq![c] + shorter);
        assert(s.last() == b.last());
        assert(shorter.push(b.last()) == b);
        assert(seq![a, shorter].last() == shorter);
        assert(seq![a, shorter].drop_last().push(b) =~= seq![a, b]);
    }
}

/// Of two texts in a row, the characters that can belong to a number are
/// those of the first, then those of the second.
pub proof fn lemma_number_chars_of_parts(a: Seq<char>, b: Seq<char>)
    ensures
        number_chars(a + b) == number_chars(a) + number_chars(b),
    decreases b.len(),
{
    if b.len() == 0 {
        assert(a + b == a);
    } else {
        assert((a + b).drop_last() == a + b.drop_last());
        assert((a + b).last() == b.last());
        lemma_number_chars_of_parts(a, b.drop_last());
    }
}

/// A text of digits and points keeps all its characters.
pub proof fn lemma_number_chars_keeps_numbers(s: Seq<char>)
    requires
        forall|i: int| 0 <= i < s.len() ==> is_ascii_digit(#[trigger] s[i]) || s[i] == '.',
    ensures
        number_chars(s) == s,
    decreases s.len(),
{
    if s.len() > 0 {
        let shorter = s.drop_last();
        assert forall|i: int| 0 <= i < shorter.len() implies is_ascii_digit(#[trigger] shorter[i])
            || shorter[i] == '.' by {
            assert(shorter[i] == s[i]);
        }
        lemma_number_chars_keeps_numbers(shorter);
        assert(shorter.push(s.last()) == s);
    }
}

/// A text of ASCII characters that are neither digits nor points keeps
/// none of its characters.
pub proof fn lemma_number_chars_drops_others(s: Seq<char>)
    requires
        forall|i: int| 0 <= i < s.len() ==> !numeric(#[trigger] s[i]) && s[i] != '.',
    ensures
        number_chars(s) == Seq::<char>::empty(),
    decreases s.len(),
{
    if s.len() > 0 {
        let shorter = s.drop_last();
        assert forall|i: int| 0 <= i < shorter.len() implies !numeric(#[trigger] shorter[i])
            && shorter[i] != '.' by {
            assert(shorter[i] == s[i]);
        }
        lemma_number_chars_drops_others(shorter);
    }
}

/// Digits written out and read again are the same digits.
pub proof fn lemma_digits_round_trip(digits: Seq<u8>)
    requires
        are_digits(digits),
    ensures
        all_ascii_digits(chars_of_digits(digits)),
        digits_of(chars_of_digits(digits)) == digits,
{
    let text = chars_of_digits(digits);
    assert forall|i: int| 0 <= i < text.len() implies is_ascii_digit(#[trigger] text[i]) by {
        assert(digits[i] <= 9);
        assert(text[i] == char_of(digits[i]));
    }
    assert forall|i: int| 0 <= i < digits.len() implies digits_of(text)[i] == digits[i] by {
        assert(digits[i] <= 9);
        assert(text[i] == char_of(digits[i]));
        assert(digit_of(char_of(digits[i])) == digits[i]);
    }
    assert(digits_of(text) =~= digits);
}

/// Digits, a point and digits spell the decimal number with these digits
/// before and after the point.
pub proof fn lemma_decimal_of_parts(whole: Seq<char>, fraction: Seq<char>)
    requires
        all_ascii_digits(whole),
        all_ascii_digits(fraction),
        whole.len() + fraction.len() > 0,
    ensures
        decimal_of(whole + seq!['.'] + fraction) == Some(
            Decimal { whole: digits_of(whole), fraction: digits_of(fraction) },
        ),
        fraction.len() == 0 ==> decimal_of(whole) == Some(
            Decimal { whole: digits_of(whole), fraction: Seq::<u8>::empty() },
        ),
{
    let text = whole + seq!['.'] + fraction;
    let p = whole.len() as int;
    assert(text.take(p) == whole);
    assert(text[p] == '.');
    assert(text.skip(p + 1) == fraction);
    lemma_leading_digits(text, p);
    if fraction.len() == 0 {
        assert(whole.take(p) == whole);
        lemma_leading_digits(whole, p);
        assert(digits_of(fraction) =~= Seq::<u8>::empty());
    }
}

/// A price written as a dollar sign, digits, a point and two digits is
/// read as just that amount in dollars: the digits before the point are
/// its whole part and the two digits after it its cents.
pub proof fn lemma_dollar_price_is_read_exactly(whole: Seq<char>, tenths: char, hundredths: char)
    requires
        whole.len() > 0,
        all_ascii_digits(whole),
        is_ascii_digit(tenths),
        is_ascii_digit(hundredths),
    ensures
        dollars(seq!['$'] + whole + seq!['.', tenths, hundredths]) == Some(
            Decimal { whole: digits_of(whole), fraction: seq![digit_of(tenths), digit_of(hundredths)] },
        ),
        money_of(seq!['$'] + whole + seq!['.', tenths, hundredths]) == Ok::<
            MoneyView,
            ParseFailure,
        >(
            MoneyView {
                currency: Currency::USD,
                amount: Decimal {
                    whole: digits_of(whole),
                    fraction: seq![digit_of(tenths), digit_of(hundredths)],
                },
            },
        ),
        (Decimal {
            whole: digits_of(whole),
            fraction: seq![digit_of(tenths), digit_of(hundredths)],
        }).cents() == digits_value(digits_of(whole)) * 100 + digit_of(tenths) * 10 + digit_of(
            hundredths,
        ),
{
    let cents = seq![tenths, hundredths];
    let number = whole + seq!['.'] + cents;
    let text = seq!['$'] + whole + seq!['.', tenths, hundredths];
    assert(text =~= seq!['$'] + number);
    assert(all_ascii_digits(cents));
    lemma_number_chars_of_parts(seq!['$'], number);
    lemma_number_chars_drops_others(seq!['$']);
    assert forall|i: int| 0 <= i < number.len() implies is_ascii_digit(#[trigger] number[i])
        || number[i] == '.' by {
        if i < whole.len() {
            assert(number[i] == whole[i]);
        } else if i > whole.len() {
            assert(number[i] == cents[i - whole.len() - 1]);
        }
    }
    lemma_number_chars_keeps_numbers(number);
    assert(number_chars(text) =~= number);
    lemma_decimal_of_parts(whole, cents);
    assert(digits_of(cents) =~= seq![digit_of(tenths), digit_of(hundredths)]);
    assert forall|i: int| 0 <= i < text.len() implies !separates(
        Separator::Whitespace,
        #[trigger] text[i],
    ) by {
        if i > 0 {
            assert(text[i] == number[i - 1]);
            assert(is_ascii_digit(number[i - 1]) || number[i - 1] == '.');
        }
    }
    lemma_split_without_separator(text, Separator::Whitespace);
    let tokens = seq![text];
    assert(tokens.drop_last() =~= Seq::<Seq<char>>::empty());
    assert(first_amount(tokens.drop_last()) is None);
    assert(first_amount(tokens) == dollars(text));
}

/// Money that is written out and read again comes back: the currency is
/// the same, the digits after the point are the same, and the digits
/// before the point have the same value, so the amounts agree to the cent
/// and beyond.
pub proof fn lemma_money_round_trip(m: MoneyView)
    requires
        m.amount.wf(),
    ensures
        money_of(m.text()) matches Ok(back) && back.currency == m.currency && back.amount.fraction
            == m.amount.fraction && digits_value(back.amount.whole) == digits_value(
            m.amount.whole,
        ) && back.amount.cents() == m.amount.cents(),
{
    let code = m.currency.code();
    let amount = m.amount.text();
    let whole = if m.amount.whole.len() == 0 {
        seq![0u8]
    } else {
        m.amount.whole
    };
    assert(are_digits(whole));
    assert(digits_value(whole) == digits_value(m.amount.whole)) by {
        if m.amount.whole.len() == 0 {
            assert(whole.drop_last() =~= Seq::<u8>::empty());
            assert(digits_value(whole.drop_last()) == 0);
        }
    }
    let whole_text = chars_of_digits(whole);
    assert(m.amount.whole.len() == 0 ==> whole_text =~= seq!['0']);
    let fraction_text = chars_of_digits(m.amount.fraction);
    lemma_digits_round_trip(whole);
    lemma_digits_round_trip(m.amount.fraction);
    lemma_decimal_of_parts(whole_text, fraction_text);
    let back = Decimal { whole, fraction: m.amount.fraction };
    assert(decimal_of(amount) == Some(back)) by {
        if m.amount.fraction.len() == 0 {
            assert(amount == whole_text);
            assert(m.amount.fraction =~= Seq::<u8>::empty());
            assert(decimal_of(whole_text) == Some(
                Decimal { whole: digits_of(whole_text), fraction: Seq::<u8>::empty() },
            ));
        } else {
            assert(amount == whole_text + seq!['.'] + fraction_text);
        }
    }
    assert forall|i: int| 0 <= i < amount.len() implies (is_ascii_digit(#[trigger] amount[i])
        || amount[i] == '.') by {
        if m.amount.fraction.len() == 0 {
            assert(amount[i] == whole_text[i]);
        } else if i < whole_text.len() {
            assert(amount[i] == whole_text[i]);
        } else if i > whole_text.len() {
            assert(amount[i] == fraction_text[i - whole_text.len() - 1]);
        }
    }
    lemma_number_chars_keeps_numbers(amount);
    assert(dollars(amount) == Some(back));
    assert(code == seq!['U', 'S', 'D']);
    lemma_number_chars_drops_others(code);
    assert(decimal_of(Seq::<char>::empty()) is None);
    assert(dollars(code) is None);
    let text = m.text();
    assert(text == code + seq![' '] + amount);
    assert forall|i: int| 0 <= i < amount.len() implies !separates(
        Separator::Whitespace,
        #[trigger] amount[i],
    ) by {
        assert(is_ascii_digit(amount[i]) || amount[i] == '.');
    }
    lemma_split_two(code, ' ', amount, Separator::Whitespace);
    let tokens = seq![code, amount];
    assert(tokens.drop_last() =~= seq![code]);
    assert(seq![code].drop_last() =~= Seq::<Seq<char>>::empty());
    assert(first_amount(seq![code].drop_last()) is None);
    assert(first_amount(seq![code]) is None);
    assert(first_amount(tokens) == Some(back));
}

} // verus!
