//! Verified core of the Duck Color Picker: colour formatting and naming,
//! copy formats, settings and history rules, the picker session protocol and
//! the encoding of captured frames.

pub mod capture;
pub mod cmyk;
pub mod color;
pub mod copy_format;
pub mod float;
pub mod frame;
pub mod hsl;
pub mod launch;
pub mod naming;
pub mod picker;
pub mod sample;
pub mod settings;
pub mod text;
