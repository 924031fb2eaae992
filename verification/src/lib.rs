//! A Modbus device simulator: configured virtual devices with holding
//! registers, and register writes that trigger sequences of steps.
//!
//! `config` holds the configuration model and its validation, `device`
//! the register storage of each device and the device manager, and
//! `server` the dispatch of Modbus requests onto the device manager.
pub mod config;
pub mod device;
pub mod server;
pub mod laws;
