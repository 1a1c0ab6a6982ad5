//! Verified core of a launcher for Epic Games Store titles: manifest and
//! chunk decoding, install and launch planning, cloud-save packing and the
//! Wine registry edits used for the EOS overlay.

pub mod bytes;
pub mod order;
pub mod text;
pub mod wire;
pub mod manifest;
pub mod codec;
pub mod chunk;
pub mod fmt;
pub mod strs;
pub mod eos;
pub mod models;
pub mod paths;
pub mod config;
pub mod api;
pub mod cloud;
pub mod launch;
pub mod install;
pub mod tasks;
pub mod library;
pub mod views;
pub mod window;
