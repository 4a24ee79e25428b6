//! The gateway: what it decides between its WebSocket sessions and the bus.

pub mod idle_status;
pub mod kafka_commands;
pub mod kafka_events;
pub mod kafka_io;
pub mod logging;
pub mod router;
pub mod topics;
pub mod websocket;
