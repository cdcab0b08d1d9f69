//! A fixed-capacity ring buffer, and the ordering, layout and colouring rules of a
//! chat view: where a new chat line goes, where day separators stand, which colour a
//! nick gets and how far it extends, and how a layer hands input events to its children.

pub mod chatview;
pub mod layer;
pub mod nick;
pub mod ringbuffer;
pub mod text;
