//! Admission rules on the names of a pod's volume mounts: a configured mode
//! and set of names decide which containers of a pod are acceptable.
pub mod engine;
pub mod names;
pub mod pod;
pub mod settings;

pub use engine::{validate_container, validate_ephemeral_container, validate_pod, validate_volume_mounts};
pub use pod::{Container, EphemeralContainer, PodSpec, VolumeMount};
pub use settings::{Reject, Settings};
