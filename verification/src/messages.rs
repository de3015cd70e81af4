//! The operation set the service exposes to its control surface, and the
//! animation data model: requests, responses, and the named frame sequences
//! the render scheduler plays.
use vstd::prelude::*;

verus! {

use crate::client::RenderMode;

/// Width of a node's pixel grid.
pub const GRID_WIDTH: usize = 7;

/// Height of a node's pixel grid.
pub const GRID_HEIGHT: usize = 22;

/// Bytes in one flattened frame: three channels per pixel, row-major.
pub const FRAME_BYTES: usize = 462;

/// One frame of pixel data: a fixed grid of RGB triples, rows of
/// `GRID_WIDTH` pixels, `GRID_HEIGHT` rows.
pub type AnimationFrame = [[(u8, u8, u8); 7]; 22];

/// Ask for a snapshot of the known nodes.
#[derive(Debug)]
pub struct RequestNodeList;

/// The snapshot of known nodes.
#[derive(Debug)]
pub struct ResponseNodeList {
    pub nodes: Vec<Node>,
}

/// One known node, as reported to the control surface.
#[derive(Debug, Clone)]
pub struct Node {
    /// Dotted-decimal form of the node's reported address.
    pub ip: String,
    pub short_name: String,
    pub long_name: String,
    /// What the node is currently showing.
    pub current: RenderMode,
}

/// Ask for a snapshot of the stored animations.
#[derive(Debug)]
pub struct RequestAnimationList;

/// The snapshot of stored animations.
#[derive(Debug)]
pub struct ResponseAnimationList {
    pub animations: Vec<Animation>,
}

/// Ingest a named bundle of raw frame files: each entry is a file name and
/// its bytes, as unpacked from an uploaded archive by the caller.
#[derive(Debug)]
pub struct AddAnimation {
    pub name: String,
    pub files: Vec<(String, Vec<u8>)>,
}

/// A named, ordered sequence of frames with its playback rate.
#[derive(Debug, Clone)]
pub struct Animation {
    /// Unique key in the store.
    pub name: String,
    pub frames: Vec<AnimationFrame>,
    /// Frames per second, 1 to 255 for every animation the store holds.
    pub fps: u8,
}

impl Default for Animation {
    /// An empty animation at the slowest rate; the loader fills it in.
    fn default() -> (r: Animation)
        ensures
            r.name@ == Seq::<char>::empty(),
            r.frames@ == Seq::<AnimationFrame>::empty(),
            r.fps == 1,
    {
        Animation { name: String::new(), frames: Vec::new(), fps: 1 }
    }
}

/// Switch a node to a stored animation.
#[derive(Debug)]
pub struct SetNodeAnimation {
    /// Dotted-decimal address of the node.
    pub ip: String,
    pub animation_name: String,
}

/// Switch a node to a static color.
#[derive(Debug)]
pub struct SetNodeColor {
    /// Dotted-decimal address of the node.
    pub ip: String,
    /// Six hexadecimal digits: two per channel, red, green, blue.
    pub color_name: String,
}

/// Why a command-interface call failed. Always surfaced to the caller as a
/// typed result, never as a fault.
#[derive(Debug, Clone, Copy, PartialEq, Eq, Structural)]
pub enum CommandError {
    /// No node with that address, or no animation with that name.
    NotFound,
    /// A parameter did not parse: a color that is not six hexadecimal
    /// digits, or a name field that is not text.
    InvalidInput,
    /// A frame bundle was incomplete or malformed; the store is unchanged.
    InvalidFormat,
}

} // verus!
