//! A Modbus workbench: the protocol codecs, the slave data image, the register
//! simulator and the decisions of master, slave and register editor.

pub mod calls;
pub mod client;
pub mod commands;
pub mod crc;
pub mod exchange;
pub mod framing;
pub mod function_code;
pub mod error;
pub mod data;
pub mod hex;
pub mod number;
pub mod poll;
pub mod registry;
pub mod server;
pub mod simulator;
pub mod sheet;
pub mod simreg;
pub mod slave;
pub mod slave_control;
pub mod state;
pub mod text;
pub mod transport;
pub mod vary;
pub mod wire;
pub mod workspace;
