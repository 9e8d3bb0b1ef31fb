pub mod laws;
pub mod tree;
pub mod uci_config;
pub mod uci_option;
pub mod uci_section;
