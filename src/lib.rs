//! Host-side protocol for a HID key pad whose keys each carry a small display:
//! report framing, the paged image transfer, button decoding and the icon
//! pipeline that turns an arbitrary image into a key-sized bitmap.

pub mod report;
pub mod pager;
pub mod icon;
pub mod device;
