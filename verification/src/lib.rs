//! Core of the Thrust RPC transport: the per-socket connection state machine,
//! the reactor's token registry and event dispatch, and the decisions taken by
//! the Thrift code generator.
//!
//! Sockets, channels and the event loop itself are driven from outside; every
//! decision taken on an event is made here and verified.
pub mod connection;
pub mod reactor;
pub mod codegen;
