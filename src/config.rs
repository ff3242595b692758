//! Project configuration: the settings a configuration file may give, their
//! defaults, and the built-in networks.
use vstd::prelude::*;
use crate::json::JsonValue;
use crate::text::str_eq;

verus! {

/// A network to connect to.
pub struct NetworkConfig {
    pub rpc: String,
    pub explorer: Option<String>,
}

impl Clone for NetworkConfig {
    fn clone(&self) -> (r: Self)
        ensures
            r == *self,
    {
        NetworkConfig { rpc: self.rpc.clone(), explorer: clone_opt(&self.explorer) }
    }
}

/// A copy of an optional string.
fn clone_opt(o: &Option<String>) -> (r: Option<String>)
    ensures
        r == *o,
{
    match o {
        Some(s) => Some(s.clone()),
        None => None,
    }
}

/// The built-in configuration: the networks by name, and the default one.
pub struct ForgeConfig {
    pub networks: Vec<(String, NetworkConfig)>,
    pub default_network: String,
}

/// Where a project keeps its files.
pub struct PathsConfig {
    pub contracts: String,
    pub artifacts: String,
    pub types: String,
    pub scripts: String,
    pub tests: String,
    pub cache: String,
}

/// How contracts are compiled.
pub struct CompilerConfig {
    pub optimize: bool,
    pub features: Vec<String>,
    pub target: Option<String>,
    pub cargo_flags: Vec<String>,
    pub workspace: bool,
}

/// How type bindings are generated.
pub struct TypeGenConfig {
    pub auto_generate: bool,
    pub out_dir: String,
    pub hooks: bool,
    pub legacy: bool,
    pub style: String,
}

/// How tests are run.
pub struct TestConfig {
    pub framework: String,
    pub pattern: String,
    pub timeout: u64,
    pub parallel: bool,
    pub coverage: bool,
}

/// How a contract is deployed.
pub struct DeploymentConfig {
    pub from: Option<String>,
    pub args: Vec<JsonValue>,
    pub value: Option<u64>,
    pub salt: Option<String>,
    pub verify: bool,
    pub wait_for_finalization: bool,
}

/// The settings of a configuration file.
pub struct FileConfig {
    pub networks: Vec<(String, NetworkConfig)>,
    pub default_network: String,
    pub paths: PathsConfig,
    pub compiler: CompilerConfig,
    pub typegen: TypeGenConfig,
    pub test: TestConfig,
    /// Deployments by network, then by contract.
    pub deployments: Vec<(String, Vec<(String, DeploymentConfig)>)>,
    pub vars: Vec<(String, JsonValue)>,
}

pub fn default_network() -> (r: String)
    ensures
        r@ == "testnet"@,
{
    String::from_str("testnet")
}

pub fn default_contracts_path() -> (r: String)
    ensures
        r@ == "./contracts"@,
{
    String::from_str("./contracts")
}

pub fn default_artifacts_path() -> (r: String)
    ensures
        r@ == "./artifacts"@,
{
    String::from_str("./artifacts")
}

pub fn default_types_path() -> (r: String)
    ensures
        r@ == "./types"@,
{
    String::from_str("./types")
}

pub fn default_scripts_path() -> (r: String)
    ensures
        r@ == "./scripts"@,
{
    String::from_str("./scripts")
}

pub fn default_tests_path() -> (r: String)
    ensures
        r@ == "./test"@,
{
    String::from_str("./test")
}

pub fn default_cache_path() -> (r: String)
    ensures
        r@ == "./.cache"@,
{
    String::from_str("./.cache")
}

pub fn default_optimize() -> (r: bool)
    ensures
        r,
{
    true
}

pub fn default_auto_generate() -> (r: bool)
    ensures
        r,
{
    true
}

pub fn default_style() -> (r: String)
    ensures
        r@ == "interface"@,
{
    String::from_str("interface")
}

pub fn default_framework() -> (r: String)
    ensures
        r@ == "mocha"@,
{
    String::from_str("mocha")
}

pub fn default_pattern() -> (r: String)
    ensures
        r@ == "test/**/*.test.ts"@,
{
    String::from_str("test/**/*.test.ts")
}

pub fn default_timeout() -> (r: u64)
    ensures
        r == 30000,
{
    30000
}

pub fn default_wait_for_finalization() -> (r: bool)
    ensures
        r,
{
    true
}

impl Default for PathsConfig {
    fn default() -> (r: Self)
        ensures
            r.contracts@ == "./contracts"@,
            r.artifacts@ == "./artifacts"@,
            r.types@ == "./types"@,
            r.scripts@ == "./scripts"@,
            r.tests@ == "./test"@,
            r.cache@ == "./.cache"@,
    {
        PathsConfig {
            contracts: default_contracts_path(),
            artifacts: default_artifacts_path(),
            types: default_types_path(),
            scripts: default_scripts_path(),
            tests: default_tests_path(),
            cache: default_cache_path(),
        }
    }
}

impl Default for CompilerConfig {
    fn default() -> (r: Self)
        ensures
            r.optimize,
            r.features@.len() == 0,
            r.target is None,
            r.cargo_flags@.len() == 0,
            !r.workspace,
    {
        CompilerConfig {
            optimize: true,
            features: Vec::new(),
            target: None,
            cargo_flags: Vec::new(),
            workspace: false,
        }
    }
}

impl Default for TypeGenConfig {
    /// Every field at its type's empty value (the file-level defaults are
    /// `default_auto_generate`, `default_types_path` and `default_style`).
    fn default() -> (r: Self)
        ensures
            !r.auto_generate,
            r.out_dir@.len() == 0,
            !r.hooks,
            !r.legacy,
            r.style@.len() == 0,
    {
        TypeGenConfig {
            auto_generate: false,
            out_dir: String::new(),
            hooks: false,
            legacy: false,
            style: String::new(),
        }
    }
}

impl Default for TestConfig {
    fn default() -> (r: Self)
        ensures
            r.framework@ == "mocha"@,
            r.pattern@ == "test/**/*.test.ts"@,
            r.timeout == 30000,
            !r.parallel,
            !r.coverage,
    {
        TestConfig {
            framework: default_framework(),
            pattern: default_pattern(),
            timeout: default_timeout(),
            parallel: false,
            coverage: false,
        }
    }
}

fn network(rpc: &str, explorer: Option<&str>) -> (r: NetworkConfig)
    ensures
        r.rpc@ == rpc@,
        match (r.explorer, explorer) {
            (Some(a), Some(b)) => a@ == b@,
            (None, None) => true,
            _ => false,
        },
{
    NetworkConfig {
        rpc: String::from_str(rpc),
        explorer: match explorer {
            Some(e) => Some(String::from_str(e)),
            None => None,
        },
    }
}

impl Default for ForgeConfig {
    /// The testnet, mainnet and local networks, with testnet as the default.
    fn default() -> (r: Self)
        ensures
            r.networks@.len() == 3,
            r.networks@[0].0@ == "testnet"@,
            r.networks@[0].1.rpc@ == "wss://testnet.glin.network"@,
            r.networks@[1].0@ == "mainnet"@,
            r.networks@[1].1.rpc@ == "wss://rpc.glin.network"@,
            r.networks@[2].0@ == "local"@,
            r.networks@[2].1.rpc@ == "ws://localhost:9944"@,
            r.networks@[2].1.explorer is None,
            r.default_network@ == "testnet"@,
    {
        let networks = vec![
            (
                String::from_str("testnet"),
                network("wss://testnet.glin.network", Some("https://explorer-testnet.glin.network")),
            ),
            (
                String::from_str("mainnet"),
                network("wss://rpc.glin.network", Some("https://explorer.glin.network")),
            ),
            (String::from_str("local"), network("ws://localhost:9944", None)),
        ];
        ForgeConfig { networks, default_network: default_network() }
    }
}

/// The index of the last network before `n` named `name`, or -1: a later
/// entry overrides an earlier one of the same name.
pub open spec fn network_index(networks: Seq<(String, NetworkConfig)>, name: Seq<char>, n: int) -> int
    decreases n,
{
    if n <= 0 || n > networks.len() {
        -1
    } else if networks[n - 1].0@ == name {
        n - 1
    } else {
        network_index(networks, name, n - 1)
    }
}

/// The network named `name` among `networks` (the last, if several are).
pub fn find_network(networks: &Vec<(String, NetworkConfig)>, name: &str) -> (r: Option<NetworkConfig>)
    ensures
        ({
            let k = network_index(networks@, name@, networks@.len() as int);
            &&& r is Some <==> k >= 0
            &&& r is Some ==> r->Some_0 == networks@[k].1
        }),
{
    let mut n: usize = networks.len();
    while n > 0
        invariant
            n <= networks.len(),
            network_index(networks@, name@, networks@.len() as int) == network_index(networks@, name@, n as int),
        decreases n,
    {
        if str_eq(networks[n - 1].0.as_str(), name) {
            return Some(networks[n - 1].1.clone());
        }
        n -= 1;
    }
    None
}

/// A built-in network, by name.
pub fn load_network(network_name: &str) -> (r: Option<NetworkConfig>)
    ensures
        ({
            let nets = seq!["testnet"@, "mainnet"@, "local"@];
            r is Some <==> nets.contains(network_name@)
        }),
{
    let config = ForgeConfig::default();
    let r = find_network(&config.networks, network_name);
    proof {
        let nets = seq!["testnet"@, "mainnet"@, "local"@];
        let ns = config.networks@;
        if nets.contains(network_name@) {
            let j = choose|j: int| 0 <= j < nets.len() && nets[j] == network_name@;
            assert(ns[j].0@ == network_name@);
            lemma_network_index_found(ns, network_name@, 3, j);
        } else {
            assert(forall|j: int| 0 <= j < 3 ==> ns[j].0@ != network_name@) by {
                assert(forall|j: int| 0 <= j < 3 ==> ns[j].0@ == nets[j]);
            }
            lemma_network_index_absent(ns, network_name@, 3);
        }
    }
    r
}

pub proof fn lemma_network_index_found(networks: Seq<(String, NetworkConfig)>, name: Seq<char>, n: int, j: int)
    requires
        0 <= j < n <= networks.len(),
        networks[j].0@ == name,
    ensures
        network_index(networks, name, n) >= 0,
    decreases n,
{
    if networks[n - 1].0@ != name {
        lemma_network_index_found(networks, name, n - 1, j);
    }
}

pub proof fn lemma_network_index_absent(networks: Seq<(String, NetworkConfig)>, name: Seq<char>, n: int)
    requires
        n <= networks.len(),
        forall|j: int| 0 <= j < n ==> networks[j].0@ != name,
    ensures
        network_index(networks, name, n) == -1,
    decreases n,
{
    if n > 0 {
        lemma_network_index_absent(networks, name, n - 1);
    }
}

/// The network a configuration file names, or its default network.
pub fn get_network_from_file(file_config: &FileConfig, network_name: Option<&str>) -> (r: Option<NetworkConfig>)
    ensures
        ({
            let name = match network_name {
                Some(n) => n@,
                None => file_config.default_network@,
            };
            let k = network_index(file_config.networks@, name, file_config.networks@.len() as int);
            &&& r is Some <==> k >= 0
            &&& r is Some ==> r->Some_0 == file_config.networks@[k].1
        }),
{
    let name = match network_name {
        Some(n) => n,
        None => file_config.default_network.as_str(),
    };
    find_network(&file_config.networks, name)
}

/// The built-in configuration, with the file's networks added after the
/// built-in ones (so that they override those of the same name) and the
/// file's default network.
pub fn merge_with_defaults(file_config: FileConfig) -> (r: ForgeConfig)
    ensures
        r.networks@.len() == 3 + file_config.networks@.len(),
        forall|i: int|
            0 <= i < file_config.networks@.len() ==> #[trigger] r.networks@[3 + i] == file_config.networks@[i],
        r.default_network == file_config.default_network,
{
    let mut config = ForgeConfig::default();
    let FileConfig { networks, default_network, .. } = file_config;
    let mut i: usize = 0;
    while i < networks.len()
        invariant
            i <= networks.len(),
            config.networks@.len() == 3 + i,
            forall|j: int| 0 <= j < i ==> #[trigger] config.networks@[3 + j] == networks@[j],
        decreases networks.len() - i,
    {
        let n = (networks[i].0.clone(), networks[i].1.clone());
        config.networks.push(n);
        i += 1;
    }
    config.default_network = default_network;
    config
}

} // verus!
