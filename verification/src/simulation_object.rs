//! An object of the simulation: a visual node paired with the handles of its
//! collider and, where it moves, of its rigid body.

use vstd::prelude::*;
use crate::simulation_state::{body_handles, body_set_contains, SimulationStateInner};

verus! {

/// The handle of a rigid body: a slot of the physics engine's body collection
/// and the generation of the body in it. It is an index, not an address, and
/// names the body until the body is removed.
#[derive(Clone, Copy, PartialEq, Eq, Structural, Debug)]
pub struct RigidBodyHandle {
    pub index: u32,
    pub generation: u32,
}

/// The handle of a collider, as that of a rigid body.
#[derive(Clone, Copy, PartialEq, Eq, Structural, Debug)]
pub struct ColliderHandle {
    pub index: u32,
    pub generation: u32,
}

impl View for RigidBodyHandle {
    type V = (u32, u32);

    open spec fn view(&self) -> (u32, u32) {
        (self.index, self.generation)
    }
}

impl View for ColliderHandle {
    type V = (u32, u32);

    open spec fn view(&self) -> (u32, u32) {
        (self.index, self.generation)
    }
}

/// A visual node, which the object owns, with the handles of its physics.
pub struct SimulationObject<N> {
    pub scene_node: N,
    pub rigid_body: Option<RigidBodyHandle>,
    pub colider: ColliderHandle,
}

impl<N> SimulationObject<N> {
    pub fn new(scene_node: N, colider: ColliderHandle, rigid_body: Option<RigidBodyHandle>) -> (object:
        Self)
        ensures
            object.scene_node == scene_node,
            object.colider == colider,
            object.rigid_body == rigid_body,
    {
        SimulationObject { scene_node, rigid_body, colider }
    }

    /// The body whose pose the visual node is to take: the object's rigid
    /// body, where it has one and the world holds it. An object without a
    /// body stays where it is.
    pub fn synchronize_graphics(&self, state: &SimulationStateInner) -> (source: Option<
        RigidBodyHandle,
    >)
        ensures
            source == match self.rigid_body {
                Some(body) => if body_handles(state.rigid_body_set).contains(body@) {
                    Some(body)
                } else {
                    None
                },
                None => None,
            },
    {
        match self.rigid_body {
            Some(body) => if body_set_contains(&state.rigid_body_set, body) {
                Some(body)
            } else {
                None
            },
            None => None,
        }
    }
}

} // verus!
