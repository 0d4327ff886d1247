//! Runtime logic of an interactive scene: converting authored markers into
//! runtime objects, binding animation graphs to character rigs, and the
//! per-tick locomotion state machine of the player avatar.
//!
//! Quantities are integers: positions are millionths of a world unit,
//! durations are microseconds and headings are quarter turns about the
//! vertical axis.
pub mod animation;
pub mod file_drop;
pub mod locomotion;
pub mod prepass;
pub mod scene;

pub use locomotion::{Gait, Heading, Keys, LocomotionState, Playback, ViewMode};
pub use prepass::{next_prepass_view, prepass_settings, ShowPrepassSettings};
pub use scene::{Marker, Position, RuntimeLight, SceneGraph, SceneNode, LightColor};
pub use animation::{bind_rigs, gait_node, RigBinding};
pub use file_drop::DroppedFile;
