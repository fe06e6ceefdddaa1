//! Building blocks for choosing a translucent overlay that keeps text readable
//! over a photograph: colours, colours written as text, the payload of a data
//! URI, the pixels of a raw image, its down-scaling, and the scan for its
//! darkest and lightest pixel.

pub mod colour;
pub mod data_uri;
pub mod hex;
pub mod raster;
pub mod resize;
pub mod scan;
