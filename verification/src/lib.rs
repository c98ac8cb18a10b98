//! Verified core of the Settlers 4 widescreen patcher.

pub mod display;
pub mod dynamic_patcher;
pub mod game_detection;
pub mod gui;
pub mod ini_handler;
pub mod ini_laws;
pub mod patcher;
pub mod resolution;
pub mod text;
pub mod validation;
