//! Values and tests shared by the record extractors.

use vstd::prelude::*;
use crate::decimal::{decimal_of, Amount, Decimal};
use crate::dom::string_view;
use crate::schema_org::{value_of, Scope};
use crate::text::{
    alphabetic, chars_of, lowercase, numeric, string_of, to_lowercase, white_space,
};

verus! {

/// `idx` places each character of `needle` at a position of `haystack`
/// that holds it, the positions rising.
pub open spec fn is_embedding(idx: Seq<int>, needle: Seq<char>, haystack: Seq<char>) -> bool {
    &&& idx.len() == needle.len()
    &&& forall|i: int|
        0 <= i < idx.len() ==> 0 <= #[trigger] idx[i] < haystack.len() && haystack[idx[i]]
            == needle[i]
    &&& forall|i: int, j: int| 0 <= i < j < idx.len() ==> #[trigger] idx[i] < #[trigger] idx[j]
}

/// `needle` is what is left of `haystack` after some of its characters are
/// struck out.
pub open spec fn is_subsequence(needle: Seq<char>, haystack: Seq<char>) -> bool {
    exists|idx: Seq<int>| is_embedding(idx, needle, haystack)
}

/// How many characters of `needle` one pass over `haystack` has found, when
/// each character of `haystack` either is the next one wanted or is passed
/// over.
pub open spec fn matched_prefix(needle: Seq<char>, haystack: Seq<char>) -> nat
    decreases haystack.len(),
{
    if haystack.len() == 0 {
        0
    } else {
        let k = matched_prefix(needle, haystack.drop_last());
        if k < needle.len() && needle[k as int] == haystack.last() {
            k + 1
        } else {
            k
        }
    }
}

pub proof fn lemma_matched_prefix_bounded(needle: Seq<char>, haystack: Seq<char>)
    ensures
        matched_prefix(needle, haystack) <= needle.len(),
        matched_prefix(needle, haystack) <= haystack.len(),
    decreases haystack.len(),
{
    if haystack.len() > 0 {
        lemma_matched_prefix_bounded(needle, haystack.drop_last());
    }
}

/// The pass finds the longest beginning of `needle` that is a subsequence of
/// `haystack`: what it found is one, and one character more is none.
pub proof fn lemma_matched_prefix_is_longest(needle: Seq<char>, haystack: Seq<char>) -> (idx: Seq<
    int,
>)
    ensures
        matched_prefix(needle, haystack) <= needle.len(),
        is_embedding(idx, needle.take(matched_prefix(needle, haystack) as int), haystack),
        matched_prefix(needle, haystack) < needle.len() ==> !is_subsequence(
            needle.take(matched_prefix(needle, haystack) as int + 1),
            haystack,
        ),
    decreases haystack.len(),
{
    lemma_matched_prefix_bounded(needle, haystack);
    let k = matched_prefix(needle, haystack) as int;
    let longer = needle.take(k + 1);
    if haystack.len() == 0 {
        let idx = Seq::<int>::empty();
        if k < needle.len() {
            assert forall|other: Seq<int>| !#[trigger] is_embedding(other, longer, haystack) by {
                if is_embedding(other, longer, haystack) {
                    assert(0 <= other[0] < haystack.len());
                }
            }
        }
        idx
    } else {
        let shorter = haystack.drop_last();
        let before = lemma_matched_prefix_is_longest(needle, shorter);
        let k0 = matched_prefix(needle, shorter) as int;
        let last = shorter.len() as int;
        if k0 < needle.len() && needle[k0 as int] == haystack.last() {
            let idx = before.push(last);
            assert(is_embedding(idx, needle.take(k as int), haystack)) by {
                assert forall|i: int| 0 <= i < idx.len() implies 0 <= #[trigger] idx[i]
                    < haystack.len() && haystack[idx[i]] == needle.take(k as int)[i] by {
                    if i < k0 {
                        assert(idx[i] == before[i]);
                        assert(shorter[before[i]] == needle.take(k0 as int)[i]);
                    }
                }
                assert forall|i: int, j: int| 0 <= i < j < idx.len() implies #[trigger] idx[i]
                    < #[trigger] idx[j] by {
                    assert(idx[i] == before[i]);
                    if j < k0 {
                        assert(idx[j] == before[j]);
                    }
                }
            }
            if k < needle.len() {
                assert forall|other: Seq<int>| !#[trigger] is_embedding(other, longer, haystack) by {
                    if is_embedding(other, longer, haystack) {
                        let cut = other.take(k as int);
                        assert(other[k0 as int] < other[k as int]);
                        assert(is_embedding(cut, needle.take(k0 + 1), shorter)) by {
                            assert forall|i: int| 0 <= i < cut.len() implies 0 <= #[trigger] cut[i]
                                < shorter.len() && shorter[cut[i]] == needle.take(k0 + 1)[i] by {
                                assert(cut[i] == other[i]);
                                assert(i < k0 ==> other[i] < other[k0 as int]);
                                assert(haystack[other[i]] == needle.take(k + 1)[i]);
                            }
                            assert forall|i: int, j: int| 0 <= i < j < cut.len() implies #[trigger] cut[i]
                                < #[trigger] cut[j] by {
                                assert(cut[i] == other[i] && cut[j] == other[j]);
                            }
                        }
                    }
                }
            }
            idx
        } else {
            let idx = before;
            assert(is_embedding(idx, needle.take(k as int), haystack)) by {
                assert forall|i: int| 0 <= i < idx.len() implies 0 <= #[trigger] idx[i]
                    < haystack.len() && haystack[idx[i]] == needle.take(k as int)[i] by {
                    assert(shorter[before[i]] == needle.take(k0 as int)[i]);
                }
            }
            if k < needle.len() {
                assert forall|other: Seq<int>| !#[trigger] is_embedding(other, longer, haystack) by {
                    if is_embedding(other, longer, haystack) {
                        assert(haystack[other[k as int]] == needle.take(k + 1)[k as int]);
                        assert(other[k as int] < last);
                        assert(is_embedding(other, needle.take(k + 1), shorter)) by {
                            assert forall|i: int| 0 <= i < other.len() implies 0 <= #[trigger] other[i]
                                < shorter.len() && shorter[other[i]] == needle.take(k + 1)[i] by {
                                assert(i < k ==> other[i] < other[k as int]);
                            }
                        }
                    }
                }
            }
            idx
        }
    }
}

/// One pass finds all of `needle` exactly when `needle` is a subsequence of
/// `haystack`.
pub proof fn lemma_pass_decides_subsequence(needle: Seq<char>, haystack: Seq<char>)
    ensures
        (matched_prefix(needle, haystack) == needle.len()) <==> is_subsequence(needle, haystack),
{
    let idx = lemma_matched_prefix_is_longest(needle, haystack);
    let k = matched_prefix(needle, haystack) as int;
    if k == needle.len() {
        assert(needle.take(k as int) == needle);
    } else {
        if is_subsequence(needle, haystack) {
            let whole = choose|w: Seq<int>| is_embedding(w, needle, haystack);
            let cut = whole.take(k + 1);
            assert(is_embedding(cut, needle.take(k + 1), haystack)) by {
                assert forall|i: int| 0 <= i < cut.len() implies 0 <= #[trigger] cut[i]
                    < haystack.len() && haystack[cut[i]] == needle.take(k + 1)[i] by {
                    assert(cut[i] == whole[i]);
                }
                assert forall|i: int, j: int| 0 <= i < j < cut.len() implies #[trigger] cut[i]
                    < #[trigger] cut[j] by {
                    assert(cut[i] == whole[i] && cut[j] == whole[j]);
                }
            }
        }
    }
}

/// Whether every character of `needle` occurs in `haystack`, in the same
/// order, with any characters in between.
///
/// A label such as `Sponsored` may be shown to a reader while the page holds
/// `ddSQpOonhsortied`: the characters in between sit in elements that are
/// not displayed. Such a label is found here.
pub fn has_hidden_word(needle: &str, haystack: &str) -> (found: bool)
    ensures
        found == is_subsequence(needle@, haystack@),
{
    let wanted = chars_of(needle);
    let mut k: usize = 0;
    for c in it: haystack.chars()
        invariant
            it.seq() == haystack@,
            wanted@ == needle@,
            k == matched_prefix(needle@, haystack@.take(it.index() as int)),
            k <= wanted.len(),
    {
        proof {
            let i = it.index() as int;
            assert(haystack@.take(i + 1).drop_last() == haystack@.take(i));
            lemma_matched_prefix_bounded(needle@, haystack@.take(i + 1));
        }
        if k < wanted.len() && wanted[k] == c {
            k += 1;
        }
    }
    proof {
        assert(haystack@.take(haystack@.len() as int) == haystack@);
        lemma_pass_decides_subsequence(needle@, haystack@);
    }
    k == wanted.len()
}

/// A currency.
#[derive(Clone, Copy, Debug, PartialEq, Eq, Structural)]
pub enum Currency {
    USD,
}

/// Why a text gave no value.
#[derive(Clone, Copy, Debug, PartialEq, Eq, Structural)]
pub enum ParseFailure {
    /// The text names no currency that is known.
    NoSuchAbbreviation,
    /// No part of the text is a number.
    NoAmount,
    /// The microdata scope has no `price`.
    NoPrice,
    /// The `price` of the microdata scope is no number.
    BadAmount,
}

/// The letters of `s` in lower case: each character gives its lowercase
/// mapping, of which the alphabetic characters stay.
pub open spec fn folded_letters(s: Seq<char>) -> Seq<char>
    decreases s.len(),
{
    if s.len() == 0 {
        Seq::empty()
    } else {
        folded_letters(s.drop_last()) + letters(lowercase(s.last()))
    }
}

/// The alphabetic characters of `s`.
pub open spec fn letters(s: Seq<char>) -> Seq<char>
    decreases s.len(),
{
    if s.len() == 0 {
        Seq::empty()
    } else if alphabetic(s.last()) {
        letters(s.drop_last()).push(s.last())
    } else {
        letters(s.drop_last())
    }
}

/// The currency that an abbreviation or symbol stands for. Only letters
/// count, in either case: `$`, `US $` and `usd` all stand for the dollar,
/// and so does a text without letters.
pub open spec fn abbreviation(s: Seq<char>) -> Option<Currency> {
    let name = folded_letters(s);
    if name == Seq::<char>::empty() || name == seq!['u', 's'] || name == seq!['u', 's', 'd'] {
        Some(Currency::USD)
    } else {
        None
    }
}

/// Where a text is cut into tokens.
#[derive(Clone, Copy, Debug, PartialEq, Eq, Structural)]
pub enum Separator {
    /// At each white space character.
    Whitespace,
    /// At each white space character and each numeric character.
    WhitespaceOrNumeric,
}

pub open spec fn separates(by: Separator, c: char) -> bool {
    match by {
        Separator::Whitespace => white_space(c),
        Separator::WhitespaceOrNumeric => white_space(c) || numeric(c),
    }
}

/// The tokens of `s`: what stands between one separator and the next,
/// before the first and after the last. Two separators in a row have an
/// empty token between them, so there is one token more than separators.
pub open spec fn split(s: Seq<char>, by: Separator) -> Seq<Seq<char>>
    decreases s.len(),
{
    if s.len() == 0 {
        seq![Seq::<char>::empty()]
    } else {
        let before = split(s.drop_last(), by);
        if separates(by, s.last()) {
            before.push(Seq::empty())
        } else {
            before.drop_last().push(before.last().push(s.last()))
        }
    }
}

/// The views of a vector of texts.
pub open spec fn views(tokens: Seq<Vec<char>>) -> Seq<Seq<char>> {
    tokens.map_values(|t: Vec<char>| t@)
}

/// Cuts `s` at each separator.
pub fn split_text(s: &Vec<char>, by: Separator) -> (tokens: Vec<Vec<char>>)
    ensures
        views(tokens@) == split(s@, by),
{
    let mut tokens: Vec<Vec<char>> = Vec::new();
    let mut current: Vec<char> = Vec::new();
    let mut i: usize = 0;
    while i < s.len()
        invariant
            i <= s.len(),
            views(tokens@).push(current@) == split(s@.take(i as int), by),
        decreases s.len() - i,
    {
        let c = s[i];
        let cut = match by {
            Separator::Whitespace => c.is_whitespace(),
            Separator::WhitespaceOrNumeric => c.is_whitespace() || c.is_numeric(),
        };
        proof {
            assert(s@.take(i + 1).drop_last() == s@.take(i as int));
            assert(s@.take(i + 1).last() == c);
            assert(views(tokens@).push(current@).drop_last() == views(tokens@));
        }
        if cut {
            let ghost before = views(tokens@);
            tokens.push(current);
            assert(views(tokens@) == before.push(current@));
            current = Vec::new();
        } else {
            current.push(c);
        }
        i += 1;
    }
    assert(s@.take(i as int) == s@);
    let ghost before = views(tokens@);
    tokens.push(current);
    assert(views(tokens@) == before.push(current@));
    tokens
}

/// The first token that is not empty and stands for a currency gives the
/// currency.
pub open spec fn first_currency(tokens: Seq<Seq<char>>) -> Option<Currency>
    decreases tokens.len(),
{
    if tokens.len() == 0 {
        None
    } else {
        match first_currency(tokens.drop_last()) {
            Some(c) => Some(c),
            None => if tokens.last().len() > 0 {
                abbreviation(tokens.last())
            } else {
                None
            },
        }
    }
}

/// The currency named in a price such as `US $312.03`: the text is cut at
/// white space and at numeric characters, and the first token that is not
/// empty and stands for a currency decides.
pub open spec fn currency_of_price(s: Seq<char>) -> Option<Currency> {
    first_currency(split(s, Separator::WhitespaceOrNumeric))
}

/// The characters of `s` that can belong to a number: the numeric ones and
/// the point.
pub open spec fn number_chars(s: Seq<char>) -> Seq<char>
    decreases s.len(),
{
    if s.len() == 0 {
        Seq::empty()
    } else if numeric(s.last()) || s.last() == '.' {
        number_chars(s.drop_last()).push(s.last())
    } else {
        number_chars(s.drop_last())
    }
}

/// The amount in a text such as `$312.03`: what its numeric characters
/// and points spell, read as a decimal number.
pub open spec fn dollars(s: Seq<char>) -> Option<Decimal> {
    decimal_of(number_chars(s))
}

/// The first token that is not empty and holds an amount gives the amount.
pub open spec fn first_amount(tokens: Seq<Seq<char>>) -> Option<Decimal>
    decreases tokens.len(),
{
    if tokens.len() == 0 {
        None
    } else {
        match first_amount(tokens.drop_last()) {
            Some(d) => Some(d),
            None => if tokens.last().len() > 0 {
                dollars(tokens.last())
            } else {
                None
            },
        }
    }
}

/// What the contracts read of a sum of money.
pub struct MoneyView {
    pub currency: Currency,
    pub amount: Decimal,
}

/// The money that a text such as `US $312.03` names. The currency is the
/// one that `currency_of_price` finds, the dollar where it finds none. The
/// amount is that of the first token between white space that holds one;
/// without such a token the text names no money.
pub open spec fn money_of(s: Seq<char>) -> Result<MoneyView, ParseFailure> {
    match first_amount(split(s, Separator::Whitespace)) {
        Some(amount) => Ok(
            MoneyView {
                currency: match currency_of_price(s) {
                    Some(c) => c,
                    None => Currency::USD,
                },
                amount,
            },
        ),
        None => Err(ParseFailure::NoAmount),
    }
}

/// The money that a microdata scope names, from the values of its
/// properties `price` and `priceCurrency`. Without a price there is no
/// money. Where the currency is given and known, the price is read for its
/// amount alone; else the price is read as a text that may name its
/// currency itself.
pub open spec fn money_of_microdata(price: Option<Seq<char>>, currency: Option<Seq<char>>) -> Result<
    MoneyView,
    ParseFailure,
> {
    match price {
        None => Err(ParseFailure::NoPrice),
        Some(p) => {
            let named = match currency {
                Some(c) => abbreviation(c),
                None => None,
            };
            match named {
                Some(c) => match dollars(p) {
                    Some(amount) => Ok(MoneyView { currency: c, amount }),
                    None => Err(ParseFailure::BadAmount),
                },
                None => money_of(p),
            }
        },
    }
}

/// `s` without its commas.
pub open spec fn without_commas(s: Seq<char>) -> Seq<char>
    decreases s.len(),
{
    if s.len() == 0 {
        Seq::empty()
    } else if s.last() == ',' {
        without_commas(s.drop_last())
    } else {
        without_commas(s.drop_last()).push(s.last())
    }
}

impl Currency {
    /// The currency that an abbreviation or symbol stands for. Only the
    /// letters count, in either case.
    pub fn from_abbreviation(s: &str) -> (r: Option<Currency>)
        ensures
            r == abbreviation(s@),
    {
        let text = chars_of(s);
        Currency::of_abbreviation(&text)
    }

    /// The currency named in a price with a symbol and an amount.
    pub fn from_price(s: &str) -> (r: Option<Currency>)
        ensures
            r == currency_of_price(s@),
    {
        let text = chars_of(s);
        let tokens = split_text(&text, Separator::WhitespaceOrNumeric);
        let mut found: Option<Currency> = None;
        let mut i: usize = 0;
        while i < tokens.len()
            invariant
                i <= tokens.len(),
                found == first_currency(views(tokens@).take(i as int)),
            decreases tokens.len() - i,
        {
            proof {
                assert(views(tokens@).take(i + 1).drop_last() == views(tokens@).take(i as int));
                assert(views(tokens@).take(i + 1).last() == tokens@[i as int]@);
            }
            if found.is_none() && tokens[i].len() > 0 {
                found = Currency::of_abbreviation(&tokens[i]);
            }
            i += 1;
        }
        assert(views(tokens@).take(i as int) == views(tokens@));
        found
    }

    /// The currency that `s` stands for, or the reason why it stands for
    /// none.
    pub fn from_str(s: &str) -> (r: Result<Currency, ParseFailure>)
        ensures
            r == match abbreviation(s@) {
                Some(c) => Ok::<Currency, ParseFailure>(c),
                None => Err(ParseFailure::NoSuchAbbreviation),
            },
    {
        match Currency::from_abbreviation(s) {
            Some(c) => Ok(c),
            None => Err(ParseFailure::NoSuchAbbreviation),
        }
    }

    /// The code of the currency in three letters.
    pub open spec fn code(self) -> Seq<char> {
        match self {
            Currency::USD => seq!['U', 'S', 'D'],
        }
    }

    /// The code of the currency in three letters.
    pub fn to_string(&self) -> (s: String)
        ensures
            s@ == self.code(),
    {
        let mut out: Vec<char> = Vec::new();
        match self {
            Currency::USD => {
                out.push('U');
                out.push('S');
                out.push('D');
            },
        }
        assert(out@ =~= self.code());
        string_of(&out)
    }

    /// As `from_abbreviation`, on characters.
    pub fn of_abbreviation(text: &Vec<char>) -> (r: Option<Currency>)
        ensures
            r == abbreviation(text@),
    {
        let mut name: Vec<char> = Vec::new();
        let mut i: usize = 0;
        while i < text.len()
            invariant
                i <= text.len(),
                name@ == folded_letters(text@.take(i as int)),
            decreases text.len() - i,
        {
            let lower = to_lowercase(text[i]);
            let ghost before = name@;
            let mut j: usize = 0;
            while j < lower.len()
                invariant
                    j <= lower.len(),
                    name@ == before + letters(lower@.take(j as int)),
                decreases lower.len() - j,
            {
                assert(lower@.take(j + 1).drop_last() == lower@.take(j as int));
                if lower[j].is_alphabetic() {
                    name.push(lower[j]);
                }
                assert(name@ =~= before + letters(lower@.take(j + 1)));
                j += 1;
            }
            assert(lower@.take(j as int) == lower@);
            assert(text@.take(i + 1).drop_last() == text@.take(i as int));
            i += 1;
        }
        assert(text@.take(i as int) == text@);
        if name.len() == 0 {
            assert(name@ == Seq::<char>::empty());
            Some(Currency::USD)
        } else if name.len() == 2 && name[0] == 'u' && name[1] == 's' {
            assert(name@ == seq!['u', 's']);
            Some(Currency::USD)
        } else if name.len() == 3 && name[0] == 'u' && name[1] == 's' && name[2] == 'd' {
            assert(name@ == seq!['u', 's', 'd']);
            Some(Currency::USD)
        } else {
            None
        }
    }
}

/// The amount in a text such as `$312.03`, `312.03` or `312`. Of the
/// text only the numeric characters and points are read.
pub fn parse_dollars(s: &str) -> (r: Option<Amount>)
    ensures
        match r {
            Some(a) => dollars(s@) == Some(a@),
            None => dollars(s@) is None,
        },
{
    let text = chars_of(s);
    dollars_of(&text)
}

/// As `parse_dollars`, on characters.
pub fn dollars_of(text: &Vec<char>) -> (r: Option<Amount>)
    ensures
        match r {
            Some(a) => dollars(text@) == Some(a@),
            None => dollars(text@) is None,
        },
{
    let mut kept: Vec<char> = Vec::new();
    let mut i: usize = 0;
    while i < text.len()
        invariant
            i <= text.len(),
            kept@ == number_chars(text@.take(i as int)),
        decreases text.len() - i,
    {
        assert(text@.take(i + 1).drop_last() == text@.take(i as int));
        let c = text[i];
        if c.is_numeric() || c == '.' {
            kept.push(c);
        }
        i += 1;
    }
    assert(text@.take(i as int) == text@);
    Amount::parse(&kept)
}

/// A currency and an amount of it. Money without a currency is taken to be
/// in dollars.
#[derive(Debug)]
pub struct Money {
    pub currency: Currency,
    pub amount: Amount,
}

impl View for Money {
    type V = MoneyView;

    open spec fn view(&self) -> MoneyView {
        MoneyView { currency: self.currency, amount: self.amount@ }
    }
}

impl Clone for Money {
    fn clone(&self) -> (r: Money)
        ensures
            r@ == self@,
    {
        Money { currency: self.currency, amount: self.amount.clone() }
    }
}

impl MoneyView {
    /// The money written out: the code of the currency, a space, the
    /// amount.
    pub open spec fn text(self) -> Seq<char> {
        self.currency.code() + seq![' '] + self.amount.text()
    }
}

/// The views of a result.
pub open spec fn money_view(r: Result<Money, ParseFailure>) -> Result<MoneyView, ParseFailure> {
    match r {
        Ok(m) => Ok(m@),
        Err(e) => Err(e),
    }
}

impl Money {
    /// The money that a text such as `$312.03` or `312 USD` names.
    pub fn from_str(s: &str) -> (r: Result<Money, ParseFailure>)
        ensures
            money_view(r) == money_of(s@),
    {
        let text = chars_of(s);
        let tokens = split_text(&text, Separator::Whitespace);
        let mut found: Option<Amount> = None;
        let mut i: usize = 0;
        while i < tokens.len()
            invariant
                i <= tokens.len(),
                match found {
                    Some(a) => first_amount(views(tokens@).take(i as int)) == Some(a@),
                    None => first_amount(views(tokens@).take(i as int)) is None,
                },
            decreases tokens.len() - i,
        {
            proof {
                assert(views(tokens@).take(i + 1).drop_last() == views(tokens@).take(i as int));
                assert(views(tokens@).take(i + 1).last() == tokens@[i as int]@);
            }
            if found.is_none() && tokens[i].len() > 0 {
                found = dollars_of(&tokens[i]);
            }
            i += 1;
        }
        assert(views(tokens@).take(i as int) == views(tokens@));
        match found {
            Some(amount) => {
                let currency = match Currency::from_price(s) {
                    Some(c) => c,
                    None => Currency::USD,
                };
                Ok(Money { currency, amount })
            },
            None => Err(ParseFailure::NoAmount),
        }
    }

    /// The money that the values of the properties `price` and
    /// `priceCurrency` of a microdata scope name.
    pub fn from_microdata(price: Option<&str>, currency: Option<&str>) -> (r: Result<
        Money,
        ParseFailure,
    >)
        ensures
            money_view(r) == money_of_microdata(
                crate::dom::text_view(price),
                crate::dom::text_view(currency),
            ),
    {
        match price {
            None => Err(ParseFailure::NoPrice),
            Some(p) => {
                let named = match currency {
                    Some(c) => Currency::from_abbreviation(c),
                    None => None,
                };
                match named {
                    Some(c) => match parse_dollars(p) {
                        Some(amount) => Ok(Money { currency: c, amount }),
                        None => Err(ParseFailure::BadAmount),
                    },
                    None => Money::from_str(p),
                }
            },
        }
    }

    /// The money that a microdata scope names.
    pub fn try_from(scope: &Scope) -> (r: Result<Money, ParseFailure>)
        ensures
            money_view(r) == money_of_microdata(
                value_of(scope.doc@, scope.node as int, "price"@),
                value_of(scope.doc@, scope.node as int, "priceCurrency"@),
            ),
    {
        let price = scope.get_value("price");
        let currency = scope.get_value("priceCurrency");
        Money::from_microdata(as_text(&price), as_text(&currency))
    }

    /// The money written out, as `USD 312.03`.
    pub fn to_text(&self) -> (s: String)
        ensures
            s@ == self@.text(),
    {
        let mut out = chars_of(self.currency.to_string().as_str());
        out.push(' ');
        let amount = chars_of(self.amount.to_text().as_str());
        let mut i: usize = 0;
        let ghost head = out@;
        while i < amount.len()
            invariant
                i <= amount.len(),
                out@ == head + amount@.take(i as int),
            decreases amount.len() - i,
        {
            out.push(amount[i]);
            assert(amount@.take(i + 1) == amount@.take(i as int).push(amount@[i as int]));
            i += 1;
        }
        assert(amount@.take(i as int) == amount@);
        assert(out@ =~= self@.text());
        string_of(&out)
    }
}

fn as_text(s: &Option<String>) -> (r: Option<&str>)
    ensures
        crate::dom::text_view(r) == string_view(*s),
{
    match s {
        Some(t) => Some(t.as_str()),
        None => None,
    }
}

/// Reads numbers that are written with commas between groups of digits,
/// as `13,096,340.3`: the commas are taken out before the number is read.
pub struct IgnoreComma {}

impl IgnoreComma {
    /// `s` without its commas.
    pub fn strip(s: &str) -> (r: String)
        ensures
            r@ == without_commas(s@),
    {
        let text = chars_of(s);
        let mut kept: Vec<char> = Vec::new();
        let mut i: usize = 0;
        while i < text.len()
            invariant
                i <= text.len(),
                kept@ == without_commas(text@.take(i as int)),
            decreases text.len() - i,
        {
            assert(text@.take(i + 1).drop_last() == text@.take(i as int));
            if text[i] != ',' {
                kept.push(text[i]);
            }
            i += 1;
        }
        assert(text@.take(i as int) == text@);
        string_of(&kept)
    }

    /// The money that `s` names once its commas are taken out.
    pub fn money(s: &str) -> (r: Result<Money, ParseFailure>)
        ensures
            money_view(r) == money_of(without_commas(s@)),
    {
        let stripped = IgnoreComma::strip(s);
        Money::from_str(stripped.as_str())
    }
}

} // verus!
