//! fastpeq: a verified model of Equalizer APO configurations and the preset
//! library logic built on it.

pub mod audio;
pub mod archive;
pub mod autostart;
pub mod category;
pub mod cli;
pub mod device;
pub mod env;
pub mod fiio;
pub mod hardware;
pub mod history;
pub mod hotkeys;
pub mod manager;
pub mod model;
pub mod moondrop;
pub mod moondrop_family;
pub mod offload;
pub mod order;
pub mod paths;
pub mod peace;
pub mod protocol;
pub mod provenance;
pub mod select;
pub mod serialize;
pub mod state;
pub mod status;
pub mod store;
pub mod text;
pub mod tone;
pub mod tray;
pub mod walkplay;
pub mod worker;
