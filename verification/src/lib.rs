//! Codec for the Raspberry Pi HAT EEPROM atom format: a length-prefixed,
//! type-tagged record layout with a CRC-16 per record and a CRC-32 over the
//! whole image.  The library converts between an in-memory image description
//! and its exact on-wire byte layout, in both a growable-buffer and a
//! fixed-capacity regime, and parses untrusted byte buffers defensively.

pub mod crc;
pub mod wire;
pub mod error;
pub mod atoms;
pub mod header;
pub mod image;
pub mod detect;

pub use crate::atoms::CustomAtom;
pub use crate::atoms::GpioMapAtom;
pub use crate::atoms::VendorInfoAtom;
pub use crate::detect::find_i2c_devices;
pub use crate::error::EhatromError;
pub use crate::header::EepromHeader;
pub use crate::image::Eeprom;
