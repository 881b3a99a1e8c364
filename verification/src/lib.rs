//! Ledger and Bitcoin bridge core: a multi-asset balance store, a header chain
//! with fork choice, and the engine that turns confirmed Bitcoin transactions
//! into balance changes.

pub mod primitives;
pub mod table;
pub mod assetdef;
pub mod assets;
pub mod tokenbalances;
pub mod staking;
pub mod bitcoin;
pub mod validator;
pub mod blockchain;
pub mod header;
pub mod utxo;
pub mod b58;
pub mod extracter;
pub mod tx;
pub mod bridge;
pub mod proposal;
pub mod records;
pub mod params;
pub mod mock;
