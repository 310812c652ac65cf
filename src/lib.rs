//! Account handshake, session-token scraping and launch-argument assembly for
//! a desktop helper of the RotMG game client.

pub mod text;
pub mod token;
pub mod error;
pub mod launch;
pub mod account;
pub mod util;
pub mod settings;
pub mod device;

pub use text::{extract_tagged_field, has_prefix, hex_encode, join};

