//! The decision logic of OpenWave, a dual-mix virtual audio mixer.
pub mod chain;
pub mod channels;
pub mod config;
pub mod devices;
pub mod effects;
pub mod fx;
pub mod history;
pub mod launch;
pub mod lists;
pub mod loading;
pub mod lv2;
pub mod names;
pub mod number;
pub mod panel;
pub mod pushes;
pub mod session;
pub mod text;
