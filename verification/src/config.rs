//! The service's startup configuration: where the control surface
//! listens, which endpoints discovery polls are broadcast to, and a
//! static torch-to-address mapping table used by the web layer. Read from
//! disk and parsed by the caller; the core only holds the values.
use vstd::prelude::*;

verus! {

use crate::client::Address;

/// Startup configuration of the service.
#[derive(Debug)]
pub struct Config {
    /// Endpoint the control surface listens on.
    pub web_endpoint: Address,
    /// Endpoints discovery polls are broadcast to.
    pub broadcasts: Vec<Address>,
    /// Static torch placement table, read only by the web layer.
    pub torch_mappings: Vec<TorchMap>,
}

/// One torch's place in the room, keyed by its address.
#[derive(Debug, Clone, Copy, PartialEq, Eq)]
pub struct TorchMap {
    pub ip: Address,
    pub color: Color,
    pub side: Side,
    pub row: u8,
}

/// The color group a torch belongs to.
#[derive(Debug, Clone, Copy, PartialEq, Eq, Structural)]
pub enum Color {
    Blue,
    Red,
    Green,
    Purple,
}

/// Which side of the room a torch stands on.
#[derive(Debug, Clone, Copy, PartialEq, Eq, Structural)]
pub enum Side {
    Middle,
    Outside,
}

} // verus!
