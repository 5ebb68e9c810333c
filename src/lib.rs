//! Bit-banged WS2812 / SK6812 LED strip driver.
//!
//! The library turns colors into the exact sequence of pin levels and busy-wait
//! delays that the strip's wire protocol expects. Each step of that sequence is
//! a [`Step`]; a driver collects them and the caller plays them back on a real
//! output pin and delay source.
pub mod driver;
pub mod frame;
pub mod pulse;

pub use driver::Ws2812;
pub use frame::Color;
pub use pulse::{Step, Timing};
