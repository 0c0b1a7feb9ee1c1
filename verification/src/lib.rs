//! Head-tracked virtual display for XR glasses: the part that decides and computes.
#![allow(unused_imports)]

pub mod ansi;
pub mod bytes;
pub mod capture;
pub mod config;
pub mod gpu;
pub mod ieee;
pub mod listing;
pub mod listing_laws;
pub mod output;
pub mod pixels;
pub mod pose;
pub mod ppm;
pub mod render;
pub mod report;
pub mod surface;
pub mod text;
