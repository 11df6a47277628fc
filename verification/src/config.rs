//! The settings of a node.

use vstd::prelude::*;
use vstd::string::StringExecFns;

verus! {

/// Which network a node belongs to.
#[derive(Clone, Copy, Debug, PartialEq, Eq, Structural)]
pub enum NetworkType {
    Mainnet,
    Testnet,
}

/// The settings of the peer-to-peer layer.
#[derive(Debug)]
pub struct NetworkConfig {
    pub port: u16,
    pub max_peers: usize,
    pub bootstrap_nodes: Vec<String>,
    pub enable_mdns: bool,
}

/// The settings of the miner.
#[derive(Clone, Copy, Debug)]
pub struct MiningConfig {
    pub threads: usize,
    pub target_block_time: u64,
    pub difficulty_adjustment_blocks: u64,
    pub initial_difficulty: u32,
}

/// The settings of the store.
#[derive(Debug)]
pub struct StorageConfig {
    pub data_dir: String,
    pub max_db_size: usize,
}

/// The settings of the read interfaces.
#[derive(Debug)]
pub struct ApiConfig {
    pub enable_rest: bool,
    pub rest_port: u16,
    pub enable_websocket: bool,
    pub websocket_port: u16,
    pub cors_origins: Vec<String>,
}

/// The consensus parameters.
#[derive(Clone, Copy, Debug)]
pub struct ConsensusConfig {
    pub max_block_size: usize,
    pub min_transaction_fee: u64,
    pub coinbase_reward: u64,
    pub halving_interval: u64,
    pub max_supply: u64,
}

/// All settings of a node.
#[derive(Debug)]
pub struct Config {
    pub network_type: NetworkType,
    pub network: NetworkConfig,
    pub mining: MiningConfig,
    pub storage: StorageConfig,
    pub api: ApiConfig,
    pub consensus: ConsensusConfig,
}

/// The text in the genesis coinbase of a network.
pub open spec fn genesis_message_of(network: NetworkType) -> Seq<char> {
    match network {
        NetworkType::Mainnet => "The Times 10/Jul/2025 Chancellor on brink of second bailout for banks - QTC Genesis"@,
        NetworkType::Testnet => "QTC Testnet Genesis - Jul 2025 - Testing blockchain implementation"@,
    }
}

/// The address that the genesis coinbase of a network names.
pub open spec fn genesis_address_of(network: NetworkType) -> Seq<char> {
    match network {
        NetworkType::Mainnet => "qtc1qw508d6qejxtdg4y5r3zarvary0c5xw7kxdz6v9"@,
        NetworkType::Testnet => "qtctestnet1qw508d6qejxtdg4y5r3zarvary0c5xw7k2pz4m5"@,
    }
}

impl Config {
    /// The default settings of the main network for a data directory and
    /// a number of mining threads.
    pub fn mainnet(data_dir: String, threads: usize) -> (config: Self)
        ensures
            config.network_type == NetworkType::Mainnet,
            config.network.port == 8333,
            config.network.max_peers == 50,
            config.network.bootstrap_nodes@.len() == 0,
            config.network.enable_mdns,
            config.mining == (MiningConfig {
                threads,
                target_block_time: 450,
                difficulty_adjustment_blocks: 10,
                initial_difficulty: 20,
            }),
            config.storage.data_dir == data_dir,
            config.storage.max_db_size == 1073741824,
            config.api.enable_rest && config.api.rest_port == 8000,
            config.api.enable_websocket && config.api.websocket_port == 8001,
            config.api.cors_origins@.len() == 1 && config.api.cors_origins@[0]@ == "*"@,
            config.consensus == (ConsensusConfig {
                max_block_size: 1048576,
                min_transaction_fee: 1000,
                coinbase_reward: 2710000000,
                halving_interval: 262800,
                max_supply: 1999999900000000,
            }),
    {
        let mut cors_origins: Vec<String> = Vec::new();
        cors_origins.push(String::from_str("*"));
        Config {
            network_type: NetworkType::Mainnet,
            network: NetworkConfig {
                port: 8333,
                max_peers: 50,
                bootstrap_nodes: Vec::new(),
                enable_mdns: true,
            },
            mining: MiningConfig {
                threads,
                target_block_time: 450,
                difficulty_adjustment_blocks: 10,
                initial_difficulty: 20,
            },
            storage: StorageConfig { data_dir, max_db_size: 1073741824 },
            api: ApiConfig {
                enable_rest: true,
                rest_port: 8000,
                enable_websocket: true,
                websocket_port: 8001,
                cors_origins,
            },
            consensus: ConsensusConfig {
                max_block_size: 1048576,
                min_transaction_fee: 1000,
                coinbase_reward: 2710000000,
                halving_interval: 262800,
                max_supply: 1999999900000000,
            },
        }
    }

    /// The default settings of the test network for a data directory and
    /// a number of mining threads.
    pub fn testnet(data_dir: String, threads: usize) -> (config: Self)
        ensures
            config.network_type == NetworkType::Testnet,
            config.network.port == 18333,
            config.network.max_peers == 20,
            config.network.bootstrap_nodes@.len() == 0,
            config.network.enable_mdns,
            config.mining == (MiningConfig {
                threads,
                target_block_time: 450,
                difficulty_adjustment_blocks: 10,
                initial_difficulty: 16,
            }),
            config.storage.data_dir == data_dir,
            config.storage.max_db_size == 268435456,
            config.api.enable_rest && config.api.rest_port == 18080,
            config.api.enable_websocket && config.api.websocket_port == 18081,
            config.api.cors_origins@.len() == 1 && config.api.cors_origins@[0]@ == "*"@,
            config.consensus == (ConsensusConfig {
                max_block_size: 1048576,
                min_transaction_fee: 100,
                coinbase_reward: 2710000000,
                halving_interval: 262800,
                max_supply: 1999999900000000,
            }),
    {
        let mut cors_origins: Vec<String> = Vec::new();
        cors_origins.push(String::from_str("*"));
        Config {
            network_type: NetworkType::Testnet,
            network: NetworkConfig {
                port: 18333,
                max_peers: 20,
                bootstrap_nodes: Vec::new(),
                enable_mdns: true,
            },
            mining: MiningConfig {
                threads,
                target_block_time: 450,
                difficulty_adjustment_blocks: 10,
                initial_difficulty: 16,
            },
            storage: StorageConfig { data_dir, max_db_size: 268435456 },
            api: ApiConfig {
                enable_rest: true,
                rest_port: 18080,
                enable_websocket: true,
                websocket_port: 18081,
                cors_origins,
            },
            consensus: ConsensusConfig {
                max_block_size: 1048576,
                min_transaction_fee: 100,
                coinbase_reward: 2710000000,
                halving_interval: 262800,
                max_supply: 1999999900000000,
            },
        }
    }

    pub fn is_testnet(&self) -> (testnet: bool)
        ensures
            testnet == (self.network_type == NetworkType::Testnet),
    {
        self.network_type == NetworkType::Testnet
    }

    /// The text in the genesis coinbase of the node's network.
    pub fn get_genesis_message(&self) -> (message: String)
        ensures
            message@ == genesis_message_of(self.network_type),
    {
        match self.network_type {
            NetworkType::Mainnet => String::from_str(
                "The Times 10/Jul/2025 Chancellor on brink of second bailout for banks - QTC Genesis",
            ),
            NetworkType::Testnet => String::from_str(
                "QTC Testnet Genesis - Jul 2025 - Testing blockchain implementation",
            ),
        }
    }

    /// The address that the genesis coinbase of the node's network names.
    pub fn get_genesis_address(&self) -> (address: String)
        ensures
            address@ == genesis_address_of(self.network_type),
    {
        match self.network_type {
            NetworkType::Mainnet => String::from_str("qtc1qw508d6qejxtdg4y5r3zarvary0c5xw7kxdz6v9"),
            NetworkType::Testnet => String::from_str(
                "qtctestnet1qw508d6qejxtdg4y5r3zarvary0c5xw7k2pz4m5",
            ),
        }
    }
}

} // verus!
