//! Verified core of a Hyprland workspace overview: window-address parsing,
//! snapshot assembly, ring focus, the capture protocol's decisions and the
//! pixel post-processing that the overlay relies on.

pub mod address;
pub mod capture;
pub mod dispatch;
pub mod input;
pub mod palette;
pub mod preview;
pub mod refresh;
pub mod ring;
pub mod snapshot;
pub mod sort;
