pub mod ids;
pub mod types;
pub mod db;
pub mod network_map;
pub mod storage;
pub mod management;
pub mod health_checker;
pub mod test_node;
pub mod test_framework;
pub mod network_identity;
pub mod onchain;
pub mod interface;
pub mod scripts;
