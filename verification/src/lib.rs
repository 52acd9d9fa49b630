//! Two on-chain style ledgers as explicit state containers: an escrow that
//! splits a cost between participants, and a payment router that holds
//! balances, authorizes agents and deducts a fee on completion.
//!
//! Every operation takes the caller, the attached value and the clock reading
//! as plain arguments and returns what has to be settled outside.

pub mod digest;
pub mod router;
pub mod splitter;
pub mod table;
pub mod word;
