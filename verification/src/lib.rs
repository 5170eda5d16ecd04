//! The logic of a utility for BEACN microphones, studios and mixers.

pub mod text;
pub mod scalar;
pub mod eq;
pub mod messages;
pub mod apo;
pub mod natural;
pub mod number;
pub mod apo_laws;
pub mod import_laws;
pub mod text_laws;
pub mod presets;
pub mod sorting;
pub mod profile;
pub mod profile_laws;
pub mod args;
pub mod ipc;
pub mod paths;
pub mod ipc_laws;
pub mod command_laws;
pub mod devices;
pub mod app;
pub mod app_laws;
pub mod window_laws;
pub mod eq_drawer;
pub mod curves;
pub mod curve_laws;
pub mod ballistics;
pub mod mic_equaliser;
pub mod equaliser_laws;
pub mod page_laws;
pub mod ports;
pub mod port_laws;
pub mod config;
pub mod config_laws;
pub mod icon;
pub mod spectrum;
pub mod spectrum_frame;
pub mod spectrum_laws;
pub mod level_laws;
pub mod decimal_laws;
pub mod arithmetic;
pub mod tenths;
pub mod counts;
pub mod meter;
pub mod order_laws;
pub mod meter_laws;
pub mod bar_laws;
pub mod ballistics_laws;
pub mod picture_laws;
