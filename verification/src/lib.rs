//! Verified core of a Modbus TCP/RTU host computer: the data model, register
//! decoding, the Modbus adapter's decisions, the simulated source, the runtime
//! registry, the IPC update throttle and event routing, and the project and
//! history storage rules.

pub mod model;
pub mod decoder;
pub mod clock;
pub mod throttle;
pub mod text;
pub mod error;
pub mod source;
pub mod event;
pub mod hook;
pub mod modbus;
pub mod transport;
pub mod fake;
pub mod runtime;
pub mod handlers;
pub mod storage;
pub mod pacing;
