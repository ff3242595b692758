//! Requests and answers of the JSON-RPC service, as plain records.
use vstd::prelude::*;
use crate::json::JsonValue;
use crate::text::{decimal, decimal_string};

verus! {

/// Parameters of the deploy request.
pub struct DeployParams {
    pub wasm: String,
    pub metadata: String,
    pub args: Vec<String>,
    pub value: u128,
    pub network: String,
    pub account: String,
    pub gas_limit: Option<u64>,
    pub salt: Option<String>,
}

/// Answer to the deploy request.
pub struct DeployResult {
    pub success: bool,
    pub address: Option<String>,
    pub code_hash: Option<String>,
    pub tx_hash: Option<String>,
    pub block_hash: Option<String>,
    pub error: Option<String>,
}

/// Parameters of the call request.
pub struct CallParams {
    pub address: String,
    pub metadata: String,
    pub method: String,
    pub args: Vec<String>,
    pub value: u128,
    pub network: String,
    pub account: String,
    pub gas_limit: Option<u64>,
}

/// Answer to the call request.
pub struct CallResult {
    pub success: bool,
    pub tx_hash: Option<String>,
    pub block_hash: Option<String>,
    pub error: Option<String>,
}

/// Parameters of the query request.
pub struct QueryParams {
    pub address: String,
    pub metadata: String,
    pub method: String,
    pub args: Vec<String>,
    pub network: String,
}

/// Answer to the query request.
pub struct QueryResult {
    pub success: bool,
    pub data: Option<JsonValue>,
    pub error: Option<String>,
}

/// Parameters of the watch request.
pub struct WatchParams {
    pub address: String,
    pub event: Option<String>,
    pub network: String,
    pub follow: bool,
    pub limit: Option<usize>,
    pub from_block: Option<u64>,
}

/// An event that a contract emitted.
pub struct ContractEvent {
    pub block_number: u64,
    pub event_name: String,
    pub data: JsonValue,
}

/// Answer to the watch request.
pub struct WatchResult {
    pub success: bool,
    pub events: Vec<ContractEvent>,
    pub error: Option<String>,
}

/// Parameters of the get balance request.
pub struct GetBalanceParams {
    pub address: String,
    pub network: String,
}

/// Answer to the get balance request.
pub struct GetBalanceResult {
    pub success: bool,
    pub balance: Option<String>,
    pub error: Option<String>,
}

/// Parameters of the request faucet request.
pub struct RequestFaucetParams {
    pub address: String,
    pub network: String,
}

/// Answer to the request faucet request.
pub struct RequestFaucetResult {
    pub success: bool,
    pub amount: Option<String>,
    pub tx_hash: Option<String>,
    pub error: Option<String>,
}

/// Parameters of the estimate gas request.
pub struct EstimateGasParams {
    pub address: String,
    pub method: String,
    pub args: Vec<String>,
    pub value: u128,
    pub from: String,
    pub network: String,
}

/// Answer to the estimate gas request.
pub struct EstimateGasResult {
    pub success: bool,
    pub gas_limit: Option<u64>,
    pub estimated_cost: Option<String>,
    pub error: Option<String>,
}

/// Parameters of the get block number request.
pub struct GetBlockNumberParams {
    pub network: String,
}

/// Answer to the get block number request.
pub struct GetBlockNumberResult {
    pub success: bool,
    pub block_number: Option<u64>,
    pub error: Option<String>,
}

/// Parameters of the get network info request.
pub struct GetNetworkInfoParams {
    pub network: String,
}

/// Answer to the get network info request.
pub struct GetNetworkInfoResult {
    pub success: bool,
    pub name: Option<String>,
    pub rpc: Option<String>,
    pub block_number: Option<u64>,
    pub error: Option<String>,
}
/// The gas limit offered when no estimate is made from a dry run.
pub const DEFAULT_GAS_LIMIT: u64 = 100_000_000_000;

/// Answer a gas estimate request: the default limit, priced at one unit per gas.
pub fn handle_estimate_gas(params: EstimateGasParams) -> (r: EstimateGasResult)
    ensures
        r.success,
        r.gas_limit == Some(DEFAULT_GAS_LIMIT),
        r.estimated_cost matches Some(c) && c@ == decimal(DEFAULT_GAS_LIMIT as nat),
        r.error is None,
{
    let gas_limit = DEFAULT_GAS_LIMIT;
    let gas_price: u128 = 1;
    let estimated_cost = decimal_string(gas_limit as u128 * gas_price);
    EstimateGasResult { success: true, gas_limit: Some(gas_limit), estimated_cost: Some(estimated_cost), error: None }
}

} // verus!
