//! Fungible and non-fungible token ledgers, and factories that deploy
//! independent instances of them at deterministic addresses.
//!
//! Every ledger keeps its state in plain values; the caller's identity is an
//! explicit argument of each operation, and emitted events are appended to a
//! log held by the instance.
use vstd::prelude::*;

pub mod address;
pub mod erc20;
pub mod erc721;
pub mod evm;
pub mod factory;
pub mod registry;
pub mod table;
pub mod uint;

pub use address::{Address, AddressPair};
pub use erc20::{Erc20, Erc20Error, Erc20Event};
pub use erc721::{Erc721, Erc721Error, Erc721Event};
pub use factory::{CollectionCreated, NftFactory, TokenCreated, TokenFactory};
pub use registry::{FactoryError, Registry};
pub use uint::Uint256;
