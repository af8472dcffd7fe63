pub mod acoustid;
pub mod analysis_store;
pub mod audio_decoder;
pub mod base64url;
pub mod cache;
pub mod fingerprint;
pub mod genre_classifier;
pub mod musicbrainz;
pub mod organizer;
pub mod ranking;
pub mod recommend;
pub mod scan_manager;
pub mod scanner;
pub mod storage;
mod text;
