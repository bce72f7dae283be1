//! FT8 and FT4 messages, from the callsign to the spectrogram and back.
//!
//! A payload of 77 bits is packed from calls, grids, reports or free text
//! ([`message`]), sealed with a checksum ([`crc`]), extended to a codeword
//! ([`ldpc`]) and sent as tones ([`tones`]). On the way back, the sync search finds
//! where transmissions start in a spectrogram ([`candidates`]), soft bits are read
//! off the tones there ([`soft_bits`]), and what belief propagation makes of them
//! is checked and unpacked ([`recover`], [`listing`]).
//!
//! Contest and nonstandard-callsign message types are identified but not rendered
//! as text, and hashed callsigns show as `<...>` unless a [`CallsignHash`] knows
//! them.

pub mod bits;
pub mod call_laws;
pub mod callsign;
pub mod candidates;
pub mod channel_laws;
pub mod constants;
pub mod crc;
pub mod decode;
pub mod free_text;
pub mod grid;
pub mod ldpc;
pub mod ldpc_laws;
pub mod ldpc_unique;
pub mod listing;
pub mod message;
pub mod message_laws;
pub mod monitor;
pub mod reading_laws;
pub mod recover;
pub mod snr;
pub mod snr_laws;
pub mod soft_bits;
pub mod standard;
pub mod standard_laws;
pub mod sync_laws;
pub mod text;
pub mod text_laws;
pub mod tones;

pub use decode::Protocol;
pub use message::{CallsignHash, Error, Field, Message, MessageType, NoHash, StdMessage};
pub use monitor::{Decode, Monitor, MonitorConfig};
pub use text::Str;
