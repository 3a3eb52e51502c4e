//! The part of a pod specification that the rules read: containers and the
//! names of their volume mounts.
use vstd::prelude::*;

verus! {

/// A volume mounted into a container, known by its name.
#[derive(Debug)]
pub struct VolumeMount {
    pub name: String,
}

/// An ordinary or init container.
#[derive(Debug)]
pub struct Container {
    pub name: String,
    pub volume_mounts: Option<Vec<VolumeMount>>,
}

/// A debugging container attached to a running pod.
#[derive(Debug)]
pub struct EphemeralContainer {
    pub name: String,
    pub volume_mounts: Option<Vec<VolumeMount>>,
}

/// A pod's containers of the three kinds.
#[derive(Debug)]
pub struct PodSpec {
    pub containers: Vec<Container>,
    pub init_containers: Option<Vec<Container>>,
    pub ephemeral_containers: Option<Vec<EphemeralContainer>>,
}

/// The names of a list of volume mounts, in order.
pub open spec fn mount_name_seq(m: Seq<VolumeMount>) -> Seq<Seq<char>> {
    m.map_values(|v: VolumeMount| v.name@)
}

/// The set of names of a list of volume mounts.
pub open spec fn mount_names(m: Seq<VolumeMount>) -> Set<Seq<char>> {
    mount_name_seq(m).to_set()
}

} // verus!
