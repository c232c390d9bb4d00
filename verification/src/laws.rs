//! What holds of the plugin as a whole.

pub mod gradient;
pub mod host;
pub mod numbers;
pub mod ranks;
pub mod response;
pub mod shared;
pub mod shedding;
pub mod state;
pub mod timeout;
pub mod views;
