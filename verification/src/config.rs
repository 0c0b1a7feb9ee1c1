//! Configuration and its defaults.

use vstd::prelude::*;

use crate::ieee::{
    Double, DOUBLE_FIFTEEN, DOUBLE_ONE, DOUBLE_ONE_AND_A_HALF, DOUBLE_ZERO,
};

verus! {

/// The configuration of the program.
#[derive(Debug)]
pub struct Config {
    pub display: DisplayConfig,
    pub capture: CaptureConfig,
    pub output: OutputConfig,
}

/// How the virtual display is shown.
#[derive(Debug, Clone, Copy, PartialEq, Eq, Structural)]
pub struct DisplayConfig {
    /// Distance of the virtual display from the user in meters.
    pub distance: Double,
    /// Scale factor of the content.
    pub scale: Double,
    /// Whether the display gently follows the gaze.
    pub smooth_follow: bool,
    /// Degrees of head rotation before the display follows.
    pub follow_threshold: Double,
    /// Yaw in degrees at which the display is pinned (negative is left, positive is right).
    pub pin_yaw: Double,
    /// Pitch in degrees at which the display is pinned (negative is down, positive is up).
    pub pin_pitch: Double,
}

/// How the screen is captured.
#[derive(Debug)]
pub struct CaptureConfig {
    /// Target frame rate.
    pub target_fps: u32,
    /// Whether to prefer dmabuf over shared memory.
    pub use_dmabuf: bool,
    /// What is captured: "monitor" (the whole screen) or "window" (a window to pick).
    pub source: String,
}

/// How the outputs are told.
#[derive(Debug)]
pub struct OutputConfig {
    /// Search string for the output of the glasses.
    pub xr_match: String,
    /// Search string for the primary monitor; empty for the largest one.
    pub primary_match: String,
}

pub fn default_distance() -> (r: Double)
    ensures
        r.bits == DOUBLE_ONE_AND_A_HALF,
{
    Double { bits: DOUBLE_ONE_AND_A_HALF }
}

pub fn default_scale() -> (r: Double)
    ensures
        r.bits == DOUBLE_ONE,
{
    Double { bits: DOUBLE_ONE }
}

pub fn default_true() -> (r: bool)
    ensures
        r,
{
    true
}

pub fn default_follow_threshold() -> (r: Double)
    ensures
        r.bits == DOUBLE_FIFTEEN,
{
    Double { bits: DOUBLE_FIFTEEN }
}

pub fn default_fps() -> (r: u32)
    ensures
        r == 60,
{
    60
}

pub fn default_xr_match() -> (r: String)
    ensures
        r@ == "VITURE"@,
{
    "VITURE".to_owned()
}

pub fn default_source() -> (r: String)
    ensures
        r@ == "monitor"@,
{
    "monitor".to_owned()
}

impl DisplayConfig {
    /// The defaults: 1.5 meters away, not scaled, following beyond 15 degrees, pinned straight
    /// ahead.
    pub open spec fn is_default(self) -> bool {
        &&& self.distance.bits == DOUBLE_ONE_AND_A_HALF
        &&& self.scale.bits == DOUBLE_ONE
        &&& self.smooth_follow
        &&& self.follow_threshold.bits == DOUBLE_FIFTEEN
        &&& self.pin_yaw.bits == DOUBLE_ZERO
        &&& self.pin_pitch.bits == DOUBLE_ZERO
    }
}

impl CaptureConfig {
    /// The defaults: 60 frames per second of the whole screen, over dmabuf.
    pub open spec fn is_default(self) -> bool {
        &&& self.target_fps == 60
        &&& self.use_dmabuf
        &&& self.source@ == "monitor"@
    }
}

impl OutputConfig {
    /// The defaults: glasses by VITURE beside the largest monitor.
    pub open spec fn is_default(self) -> bool {
        &&& self.xr_match@ == "VITURE"@
        &&& self.primary_match@ == Seq::<char>::empty()
    }
}

impl Config {
    pub open spec fn is_default(self) -> bool {
        &&& self.display.is_default()
        &&& self.capture.is_default()
        &&& self.output.is_default()
    }
}

impl Default for DisplayConfig {
    fn default() -> (r: Self)
        ensures
            r.is_default(),
    {
        DisplayConfig {
            distance: default_distance(),
            scale: default_scale(),
            smooth_follow: true,
            follow_threshold: default_follow_threshold(),
            pin_yaw: Double { bits: DOUBLE_ZERO },
            pin_pitch: Double { bits: DOUBLE_ZERO },
        }
    }
}

impl Default for CaptureConfig {
    fn default() -> (r: Self)
        ensures
            r.is_default(),
    {
        CaptureConfig { target_fps: default_fps(), use_dmabuf: true, source: default_source() }
    }
}

impl Default for OutputConfig {
    fn default() -> (r: Self)
        ensures
            r.is_default(),
    {
        OutputConfig { xr_match: default_xr_match(), primary_match: String::new() }
    }
}

impl Default for Config {
    fn default() -> (r: Self)
        ensures
            r.is_default(),
    {
        Config {
            display: DisplayConfig::default(),
            capture: CaptureConfig::default(),
            output: OutputConfig::default(),
        }
    }
}

impl Clone for CaptureConfig {
    fn clone(&self) -> (r: Self)
        ensures
            r == *self,
    {
        CaptureConfig {
            target_fps: self.target_fps,
            use_dmabuf: self.use_dmabuf,
            source: self.source.clone(),
        }
    }
}

impl Clone for OutputConfig {
    fn clone(&self) -> (r: Self)
        ensures
            r == *self,
    {
        OutputConfig {
            xr_match: self.xr_match.clone(),
            primary_match: self.primary_match.clone(),
        }
    }
}

impl Clone for Config {
    fn clone(&self) -> (r: Self)
        ensures
            r == *self,
    {
        Config {
            display: self.display,
            capture: self.capture.clone(),
            output: self.output.clone(),
        }
    }
}

impl Config {
    /// The configuration to use, given the one that the file at the default place holds, where
    /// there is such a file and it could be read.
    pub fn load_or_default(loaded: Option<Config>) -> (r: Self)
        ensures
            match loaded {
                Some(config) => r == config,
                None => r.is_default(),
            },
    {
        match loaded {
            Some(config) => config,
            None => Config::default(),
        }
    }
}

} // verus!
