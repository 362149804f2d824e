//! Mode-S / ADS-B receive pipeline: IQ magnitude conversion, frame
//! detection and demodulation, CRC-24 validation and repair, message
//! parsing, an aircraft tracker, and a GDL-90 encoder with its
//! fan-out client set.

pub mod adsb;
pub mod clients;
pub mod crc;
pub mod dsp;
pub mod gdl90;
pub mod hexstr;
pub mod mode_s;
pub mod rtl;
pub mod tracker;
