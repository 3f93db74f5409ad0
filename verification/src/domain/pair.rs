use vstd::prelude::*;

use crate::address::Address;
use crate::domain::token::{Token, TokenView, opt_text, opt_address};

verus! {

/// A pair of tokens that can be swapped, with the providers that quote it.
#[derive(Debug, PartialEq, Eq, PartialOrd, Ord, Hash)]
pub struct Pair<'a> {
    pub from: &'a Token<'a>,
    pub to: &'a Token<'a>,
    pub providers: Option<Vec<String>>,
    // Dex
    pub pool_address: Option<Address>,
    pub fee_percent: Option<String>,
}

/// A pair as plain values.
pub struct PairView {
    pub from: TokenView,
    pub to: TokenView,
    pub providers: Option<Seq<Seq<char>>>,
    pub pool_address: Option<Seq<u8>>,
    pub fee_percent: Option<Seq<char>>,
}

/// The view of an optional list of strings.
pub open spec fn opt_texts(o: Option<Vec<String>>) -> Option<Seq<Seq<char>>> {
    match o {
        Some(v) => Some(v.deep_view()),
        None => None,
    }
}

impl<'a> View for Pair<'a> {
    type V = PairView;

    open spec fn view(&self) -> PairView {
        PairView {
            from: self.from@,
            to: self.to@,
            providers: opt_texts(self.providers),
            pool_address: opt_address(self.pool_address),
            fee_percent: opt_text(self.fee_percent),
        }
    }
}

impl<'a> Pair<'a> {
    /// The providers of the pair, to change in place.
    pub fn get_providers_mut(&mut self) -> (r: &mut Option<Vec<String>>)
        ensures
            *r == old(self).providers,
            final(self).providers == *final(r),
            final(self).from == old(self).from,
            final(self).to == old(self).to,
            final(self).pool_address == old(self).pool_address,
            final(self).fee_percent == old(self).fee_percent,
    {
        &mut self.providers
    }
}

} // verus!
