//! Text from several origins behind one type, and renderers of bytes and
//! integers into caller-supplied buffers.
use vstd::prelude::*;

pub mod buffer;
pub mod encoding;
pub mod render;
pub mod text;
pub mod translations;

verus! {

} // verus!
