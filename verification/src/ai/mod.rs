//! The AI service's non-player characters: their stats, patrol routes and
//! perception, and the decisions their behaviour trees and broker link
//! make on them. Positions are carried as `f32` bit patterns.

pub mod components;
pub mod bridge;
