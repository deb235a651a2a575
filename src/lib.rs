pub mod codec;
pub mod text;
pub mod decimal;
pub mod keyboard;

pub use codec::{decode_hex, encode, Color, DecodeError};
pub use keyboard::{DeviceFile, DeviceWrite, HexEdit, InitError, KeyboardState};
