//! Laws over calls: what one call gives, and what a later call gives after it. Each is
//! stated of the contracts of the functions themselves, for all arguments.

pub mod codec;
pub mod device;
pub mod desk;
