//! Catalogue, playback and download logic of the LiteMusicDL desktop player.
pub mod artwork;
pub mod catalog;
pub mod domain;
pub mod download;
pub mod headers;
pub mod history;
pub mod json;
pub mod local;
pub mod media;
pub mod order;
pub mod playback;
pub mod request;
pub mod shelf;
pub mod sources;
pub mod tags;
pub mod text;
