//! A small on-chain style governance core: proposals with a voting window,
//! one ballot per voter, and deferred settlement of every proposal at the
//! height where its window closes.
pub mod laws;
pub mod model;
pub mod pallet;
pub mod types;

pub use model::PalletView;
pub use pallet::Pallet;
pub use types::{Ballot, Config, DefaultForNextProposalId, Error, Event, EventView, Proposal, ProposalView};
