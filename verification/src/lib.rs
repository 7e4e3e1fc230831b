//! Packet-processing core of a server endpoint in a source-routed overlay
//! network of clients, drones and servers.
//!
//! The server sits behind its drone neighbours. It learns the map of the
//! network from flood responses ([`topology`]), finds for each outgoing
//! fragment the route on which it is least likely to be dropped
//! ([`routing`]), cuts responses into fragments ([`fragmenter`]) and keeps
//! them until they are acknowledged ([`fragment_manager`]), puts incoming
//! fragments together again ([`assembler`], [`assemblers_manager`]), and
//! hands complete requests to one of three behaviours
//! ([`specialized_behavior`]). All of this is driven through [`server`], a
//! state machine that is told of commands, frames and idle moments and
//! answers with the actions to perform; it touches no channel, no clock and
//! no file itself.
//!
//! Drop rates and route costs are fixed-point fractions of
//! [`topology::PDR_SCALE`], rounded down, and times are milliseconds on a
//! clock of the caller's choosing.

pub mod api;
pub mod assembler;
pub mod assemblers_manager;
mod bitrow;
pub mod chat_behavior;
pub mod fragment_manager;
pub mod fragmenter;
pub mod media_behavior;
pub mod packet;
pub mod routing;
pub mod server;
pub mod specialized_behavior;
pub mod text_behavior;
pub mod topology;

pub use server::Server;
