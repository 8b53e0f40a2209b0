//! Message dispatch core for single-owner state machines: a priority
//! channel core, the ownership token that hands a state machine to workers
//! exactly once, and the mailboxes that tie them together.

pub mod key;
pub mod queue;
pub mod fsm;
pub mod resource;
pub mod sender;
pub mod mailbox;
