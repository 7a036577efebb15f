//! Core of a small N-body gravity simulation: a handful of point masses
//! attract each other under an inverse-square law, move by Euler steps on a
//! toroidal (wrap-around) screen, leave exponentially fading trails, and
//! either halt on contact or bounce elastically.
//!
//! All quantities are fixed-point integers: a screen pixel is `num::SCALE`
//! units, a color channel runs from 0 to `num::COLOR_ONE`. The presentation
//! layer converts to its own units at the boundary.

pub mod body;
pub mod collision;
pub mod force;
pub mod integrate;
pub mod num;
pub mod rng;
pub mod sim;
pub mod trail;
pub mod vec2;
