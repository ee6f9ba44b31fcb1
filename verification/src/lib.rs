//! Driver for a small square pixel-matrix display with a partial-redraw
//! pipeline: an off-screen frame buffer, a fixed-capacity set of dirty
//! regions, and region-scoped transfers to the panel over a command/data
//! serial transport.

pub mod buffer;
pub mod dirty;
pub mod driver;
pub mod instruction;
pub mod protocol;
pub mod region;
pub mod transport;

pub use buffer::FrameBuffer;
pub use dirty::DirtyRegionSet;
pub use driver::GC9A01A;
pub use driver::Orientation;
pub use instruction::Instruction;
pub use region::Region;
pub use region::bounding_region;
