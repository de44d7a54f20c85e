//! The records that the contract appends to its log, one per change of the
//! supply or of who holds it.

use vstd::prelude::*;

verus! {

/// A record of the log.
#[derive(Clone, Debug, PartialEq, Eq)]
pub enum Event {
    /// Tokens were created in an account.
    Mint { owner: String, amount: u128, memo: Option<String> },
    /// Tokens were destroyed in an account.
    Burn { owner: String, amount: u128, memo: Option<String> },
    /// Tokens moved from one account to another.
    Transfer { sender: String, receiver: String, amount: u128, memo: Option<String> },
}

/// A record of the log as a mathematical value.
pub enum EventView {
    Mint { owner: Seq<char>, amount: nat, memo: Option<Seq<char>> },
    Burn { owner: Seq<char>, amount: nat, memo: Option<Seq<char>> },
    Transfer { sender: Seq<char>, receiver: Seq<char>, amount: nat, memo: Option<Seq<char>> },
}

/// The text of an optional memo.
pub open spec fn memo_view(memo: Option<String>) -> Option<Seq<char>> {
    match memo {
        Some(text) => Some(text@),
        None => None,
    }
}

impl View for Event {
    type V = EventView;

    open spec fn view(&self) -> EventView {
        match *self {
            Event::Mint { owner, amount, memo } => EventView::Mint {
                owner: owner@,
                amount: amount as nat,
                memo: memo_view(memo),
            },
            Event::Burn { owner, amount, memo } => EventView::Burn {
                owner: owner@,
                amount: amount as nat,
                memo: memo_view(memo),
            },
            Event::Transfer { sender, receiver, amount, memo } => EventView::Transfer {
                sender: sender@,
                receiver: receiver@,
                amount: amount as nat,
                memo: memo_view(memo),
            },
        }
    }
}

/// The log as the sequence of its records' values.
pub open spec fn log_view(log: Seq<Event>) -> Seq<EventView> {
    log.map_values(|e: Event| e@)
}

} // verus!
