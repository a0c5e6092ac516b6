//! Verified core of a dwm status feeder: parsers for kernel text files,
//! feature-block formatting and the rules that pick what the bar shows.

pub mod clock;
pub mod config;
pub mod connectivity;
pub mod cpu;
pub mod feature_state;
pub mod gpu;
pub mod name_map;
pub mod network;
pub mod numbers;
pub mod order;
pub mod ram;
pub mod startup;
pub mod status;
pub mod text;
pub mod traffic;
