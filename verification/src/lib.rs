pub mod model;
pub mod text;
pub mod tracks;
pub mod transcribe;
pub mod workspace;
pub mod catalogue;
pub mod sidecar;
pub mod chaptrs;
pub mod prefs;
pub mod project;
pub mod media;
pub mod scan;
pub mod asr;
pub mod audio;
pub mod resolve;
pub mod jobs;
pub mod download;
pub mod bundle;
pub mod json;
