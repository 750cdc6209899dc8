pub mod config;
pub mod daemon;
pub mod discovery;
pub mod fence_sequence;
pub mod fencer;
pub mod json;
pub mod monitor;
pub mod mock;
pub mod multipath;
pub mod order;
pub mod output_path;
pub mod protocol;
pub mod pve;
pub mod reply;
pub mod status;
pub mod text;
