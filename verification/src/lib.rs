//! Line-oriented fragment packing for budget-limited clipboard transfer.
//!
//! A document is split into lines (each keeping its terminator), every line
//! is measured under a selectable unit system, and fragments are packed
//! greedily from whole lines so that each fragment stays within a fixed
//! unit budget.  A small state machine drives the interactive transfer:
//! deliver the next fragment, replay the previous delivery, or quit.

pub mod encoding;
pub mod fragment;
pub mod machine;
pub mod state;
