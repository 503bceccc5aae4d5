//! Component encoders: one per header component type.

pub mod date_time;
pub mod received_token;
