//! Prices and what is sold for them.

use vstd::prelude::*;
use crate::decimal::{Amount, Decimal};
use crate::schemas::common::Rating;
use crate::text::chars_of;

verus! {

/// A currency.
#[derive(Clone, Copy, Debug, PartialEq, Eq, Structural)]
pub enum Currency {
    USD,
}

/// The capital of an ASCII letter; any other character is itself.
pub open spec fn ascii_uppercase(c: char) -> char {
    if 'a' <= c && c <= 'z' {
        ((c as u8) - 32) as char
    } else {
        c
    }
}

/// The currency whose code `s` is, in capitals or small letters.
pub open spec fn currency_of_code(s: Seq<char>) -> Option<Currency> {
    if s.len() == 3 && ascii_uppercase(s[0]) == 'U' && ascii_uppercase(s[1]) == 'S'
        && ascii_uppercase(s[2]) == 'D' {
        Some(Currency::USD)
    } else {
        None
    }
}

impl Currency {
    /// The currency whose code `s` is, in capitals or small letters.
    pub fn from_abbreviation(s: &str) -> (r: Option<Currency>)
        ensures
            r == currency_of_code(s@),
    {
        let code = chars_of(s);
        if code.len() == 3 && (code[0] == 'U' || code[0] == 'u') && (code[1] == 'S' || code[1]
            == 's') && (code[2] == 'D' || code[2] == 'd') {
            Some(Currency::USD)
        } else {
            None
        }
    }
}

/// An amount of a currency.
#[derive(Debug)]
pub struct Price {
    pub unit: Currency,
    pub amount: Amount,
}

pub struct PriceView {
    pub unit: Currency,
    pub amount: Decimal,
}

impl View for Price {
    type V = PriceView;

    open spec fn view(&self) -> PriceView {
        PriceView { unit: self.unit, amount: self.amount@ }
    }
}

#[derive(Debug)]
pub struct Seller {
    pub link: Option<String>,
    pub name: Option<String>,
    pub rating: Option<Rating>,
}

#[derive(Debug)]
pub struct Product {
    pub link: Option<String>,
    pub price: Option<Price>,
    pub name: Option<String>,
    pub seller: Option<Seller>,
}

impl Default for Seller {
    fn default() -> (r: Seller)
        ensures
            r.link is None,
            r.name is None,
            r.rating is None,
    {
        Seller { link: None, name: None, rating: None }
    }
}

impl Default for Product {
    fn default() -> (r: Product)
        ensures
            r.link is None,
            r.price is None,
            r.name is None,
            r.seller is None,
    {
        Product { link: None, price: None, name: None, seller: None }
    }
}

} // verus!
