//! A layered bit-plane pixel canvas: packed boolean planes, a four-bit
//! colour model, layer compositing, rasterisation, flood fill and a byte
//! codec for synchronising canvas state.

pub mod bitplane;
pub mod codec;
pub mod color;
pub mod drawing;
pub mod raster;
pub mod error;
pub mod fill;
pub mod layers;
pub mod protocol;
pub mod tool;
