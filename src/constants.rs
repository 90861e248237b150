//! Well-known configuration: the aggregator contract and the network pairs.
use vstd::prelude::*;

verus! {

/// The default multicall aggregator address, the same on every network; the
/// command line may name another.
pub const MULTICALL3_ADDRESS: &'static str = "0xcA11bde05977b3631167028862bE2a173976CA11";

pub const MAINNET_RPC_URL_ENV: &'static str = "MAINNET_RPC_URL";

pub const SEPOLIA_RPC_URL_ENV: &'static str = "SEPOLIA_RPC_URL";

pub const ETHEREUM_MAINNET: &'static str = "Ethereum Mainnet";

pub const BASE_MAINNET: &'static str = "Base Mainnet";

pub const ETHEREUM_SEPOLIA: &'static str = "Ethereum Testnet (Sepolia)";

pub const BASE_SEPOLIA: &'static str = "Base Testnet (Sepolia)";

} // verus!
