pub mod constants;
pub mod helpers;
pub mod interval;
