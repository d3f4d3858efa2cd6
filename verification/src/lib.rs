//! Byte-window analysis for exploring large files: view modes, magic-byte
//! signatures, byte statistics, window binning, symbol counting for entropy,
//! bit-plane counting, transform sizes for spectral flatness, Hilbert-curve
//! layout, hex-viewer lines and the navigation state of the viewer.

pub mod view;
pub mod bytes;
pub mod magic;
pub mod stats;
pub mod bins;
pub mod entropy;
pub mod bitplane;
pub mod hilbert;
pub mod state;
pub mod spectral;
pub mod hexdump;
