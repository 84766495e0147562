//! The logic of a Somfy RTS controller firmware: the diagnostic log ring and
//! panic record, the shade inventory a broker session announces, the MQTT
//! command decoding and state tracking, the over-the-air update self-test and
//! upload rules, the flash-ring surveys, and the boot-time budget checks.

pub mod checksum;
pub mod diag;
pub mod shade;
pub mod bounded;
pub mod inventory;
pub mod mqtt;
pub mod api;
pub mod ota;
pub mod upload;
pub mod heap;
pub mod identity;
pub mod region;
pub mod config;
pub mod estate;
pub mod assets;
pub mod net;
pub mod mdns;
pub mod startup;
pub mod session;
pub mod checks;
pub mod form;
pub mod device;
pub mod wire;
pub mod edits;
