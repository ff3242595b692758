//! Command-line arguments, as plain records; paths are held as strings.
use vstd::prelude::*;

verus! {

/// Arguments of the balance command.
pub struct BalanceArgs {
    pub account: String,
    pub network: String,
}

/// Arguments of the call command (a state-changing message).
pub struct CallArgs {
    pub address: String,
    pub method: String,
    pub args: Vec<String>,
    pub network: String,
    pub account: String,
    pub value: String,
    pub metadata: Option<String>,
    pub gas_limit: Option<u64>,
    pub yes: bool,
    pub wait: bool,
}

/// Arguments of the deploy command (upload and instantiate).
pub struct DeployArgs {
    pub wasm: Option<String>,
    pub metadata: Option<String>,
    pub args: Option<String>,
    pub value: String,
    pub network: String,
    pub account: String,
    pub gas_limit: Option<u64>,
    pub salt: Option<String>,
    pub yes: bool,
}

/// Arguments of the init command.
pub struct InitArgs {
    pub path: String,
    pub yes: bool,
    pub template: Option<String>,
    pub project_type: Option<String>,
    pub frontend: Option<String>,
}

/// Arguments of the instantiate command (from an uploaded code hash).
pub struct InstantiateArgs {
    pub code_hash: String,
    pub metadata: Option<String>,
    pub args: Option<String>,
    pub value: String,
    pub network: String,
    pub account: String,
    pub gas_limit: Option<u64>,
    pub salt: Option<String>,
    pub yes: bool,
}

/// Arguments of the new command.
pub struct NewArgs {
    pub name: String,
    pub template: String,
}

/// Arguments of the query command (a read-only message).
pub struct QueryArgs {
    pub address: String,
    pub method: String,
    pub args: Vec<String>,
    pub network: String,
    pub metadata: Option<String>,
    pub json: bool,
}

/// Arguments of the run command.
pub struct RunArgs {
    pub script: String,
    pub network: String,
    pub watch: bool,
}

/// Arguments of the test command.
pub struct TestArgs {
    pub path: String,
    pub e2e: bool,
    pub test: Option<String>,
    pub nocapture: bool,
}

/// Arguments of the typegen command.
pub struct TypegenArgs {
    pub abi: Option<String>,
    pub contract: Option<String>,
    pub output: String,
    pub network: String,
    pub hooks: bool,
    pub legacy: bool,
}

/// Arguments of the upload command.
pub struct UploadArgs {
    pub wasm: Option<String>,
    pub network: String,
    pub account: String,
    pub gas_limit: Option<u64>,
    pub yes: bool,
}

/// Arguments of the verify command.
pub struct VerifyArgs {
    pub address: String,
    pub wasm: Option<String>,
    pub metadata: Option<String>,
    pub source: Option<String>,
    pub network: String,
    pub compiler_version: Option<String>,
}

/// Arguments of the watch command.
pub struct WatchArgs {
    pub address: String,
    pub event: Option<String>,
    pub network: String,
    pub follow: bool,
    pub limit: usize,
    pub from_block: Option<u64>,
}
/// Subcommands of the account command.
pub enum AccountCommands {
    /// List available accounts.
    List,
    /// Generate a new account.
    Generate { name: String },
    /// Import an account from a seed phrase or private key.
    Import { name: String, seed: String },
    /// Show account details.
    Show { name: String },
}

/// Arguments of the account command.
pub struct AccountArgs {
    pub command: AccountCommands,
}

/// Subcommands of the config command.
pub enum ConfigCommands {
    /// Show the current configuration.
    Show,
    /// Set a network's RPC endpoint.
    SetNetwork { name: String, rpc: String, explorer: Option<String> },
    /// Set the default network.
    SetDefault { name: String },
}

/// Arguments of the config command.
pub struct ConfigArgs {
    pub command: ConfigCommands,
}

/// Subcommands of the network command.
pub enum NetworkCommands {
    /// List available networks.
    List,
    /// Switch to a different network.
    Use { name: String },
    /// Show the current network.
    Current,
}

/// Arguments of the network command.
pub struct NetworkArgs {
    pub command: NetworkCommands,
}

} // verus!
