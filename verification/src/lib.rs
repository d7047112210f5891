//! A ledger whose amounts change over time by recurring, cycle-anchored rules,
//! and the projection of those changes across a window of time.
//!
//! Assets, accounts and rules ("mutators") live in arenas and refer to each
//! other by index. A rule fires at the times that are a whole number of
//! cycles away from its reference time. A projection collects the triggers of
//! all rules over a window, replays them in order of time and records the
//! state of the ledger after each trigger and at the end of each interval.

pub mod accounts;
pub mod amount;
pub mod assets;
pub mod cycle;
pub mod events;
pub mod modeller;
pub mod mutators;
pub mod sorting;
pub mod totals;

pub use crate::accounts::{Account, AccountCapture, AccountPool};
pub use crate::amount::Amount;
pub use crate::assets::{Asset, AssetCapture, AssetPool};
pub use crate::events::Event;
pub use crate::modeller::{EventMemento, IntervalPoint, Modeller, ResultPacket};
pub use crate::mutators::{
    Mutator, MutatorBase, MutatorBaseCapture, MutatorCapture, MutatorPool, StandardMutator,
};
