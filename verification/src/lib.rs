//! Verified decision logic of the theme settings page: theme search,
//! catalog filtering, card selection, text size choice and the
//! bookkeeping of custom themes that already have a card.
use vstd::prelude::*;

pub mod catalog;
pub mod search;
pub mod selection;
pub mod text;
pub mod themes;

verus! {

} // verus!

