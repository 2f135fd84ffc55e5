//! The front panel: what it shows and what it asks of the radio.

pub mod args;
pub mod bands;
pub mod chainview;
pub mod color;
pub mod devices;
pub mod drawing;
pub mod following;
pub mod gestures;
pub mod obeying;
pub mod panel;
pub mod plot;
pub mod probe;
pub mod radio;
pub mod saying;
pub mod soak;
pub mod ui;
pub mod waterfall;
pub mod wheel;
