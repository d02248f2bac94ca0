//! Text handling, request building and decision logic for a Spotify-driven
//! LED display: the verified core of the `ledify` program.

pub mod auth;
pub mod display;
pub mod pkce;
pub mod playback;
pub mod redirect;
pub mod strings;

pub use auth::{ClientID, TokenRes, UserAuth};
pub use display::{brutal_cut, convert_polish};
pub use playback::{ArtistSection, ItemSection, PlaybackState};
