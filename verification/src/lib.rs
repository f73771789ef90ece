//! A TURN relay server core: the STUN/TURN message codec, long-term
//! credential authentication, the allocation table with its permissions and
//! channel bindings, and the request state machine that ties them together.
//!
//! The core performs no I/O and reads no clock. It is driven with datagrams
//! and the clock's value, and answers with the actions to carry out.
//!
//! - [`wire`], [`addr`], [`attr`], [`message`], [`chandata`]: the codec.
//! - [`crypto`], [`credentials`], [`auth`]: users, nonces and integrity tags.
//! - [`keyed`], [`peers`], [`allocation`]: the state of the relay.
//! - [`relay`], [`request`], [`server`]: what is done with each datagram.

pub mod wire;
pub mod addr;
pub mod attr;
pub mod message;
pub mod chandata;
pub mod keyed;
pub mod peers;
pub mod allocation;
pub mod crypto;
pub mod credentials;
pub mod auth;
pub mod relay;
pub mod request;
pub mod server;
