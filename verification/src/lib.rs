//! The logic of a desktop audio player: metadata, playlists, the album library, the playback
//! engine and the online lookups, each with a contract that Verus proves.
pub mod artwork;
pub mod controls;
pub mod decoder;
pub mod devices;
pub mod display;
pub mod engine;
pub mod enrichment;
pub mod file_path;
pub mod float_bits;
pub mod frames;
pub mod json;
pub mod library;
pub mod loading;
pub mod metadata;
pub mod online_metadata;
pub mod playback;
pub mod playlist;
pub mod ring;
pub mod sorting;
pub mod stream_info;
pub mod text;
pub mod worker;
