//! The collections of the shared world state that the library fills: the
//! physics engine's rigid bodies and colliders.

use vstd::prelude::*;
use crate::simulation_object::{ColliderHandle, RigidBodyHandle, SimulationObject};

verus! {

#[verifier::external_type_specification]
#[verifier::external_body]
pub struct ExRigidBodySet(rapier3d::dynamics::RigidBodySet);

#[verifier::external_type_specification]
#[verifier::external_body]
pub struct ExColliderSet(rapier3d::geometry::ColliderSet);

#[verifier::external_type_specification]
#[verifier::external_body]
pub struct ExRigidBody(rapier3d::dynamics::RigidBody);

#[verifier::external_type_specification]
#[verifier::external_body]
pub struct ExCollider(rapier3d::geometry::Collider);

/// The handles of the bodies that a set holds, each as its slot and generation.
pub uninterp spec fn body_handles(set: rapier3d::dynamics::RigidBodySet) -> Set<(u32, u32)>;

/// The handles of the colliders that a set holds, each as its slot and generation.
pub uninterp spec fn collider_handles(set: rapier3d::geometry::ColliderSet) -> Set<(u32, u32)>;

/// The body that each collider of a set is attached to, for those that are
/// attached to one.
pub uninterp spec fn collider_parents(set: rapier3d::geometry::ColliderSet) -> Map<
    (u32, u32),
    (u32, u32),
>;

/// `RigidBodySet::new`: a set without bodies.
#[verifier::external_body]
fn new_body_set() -> (bodies: rapier3d::dynamics::RigidBodySet)
    ensures
        body_handles(bodies) == Set::<(u32, u32)>::empty(),
{
    rapier3d::dynamics::RigidBodySet::new()
}

/// `ColliderSet::new`: a set without colliders.
#[verifier::external_body]
fn new_collider_set() -> (colliders: rapier3d::geometry::ColliderSet)
    ensures
        collider_handles(colliders) == Set::<(u32, u32)>::empty(),
        (collider_parents(colliders) == Map::<(u32, u32), (u32, u32)>::empty()),
{
    rapier3d::geometry::ColliderSet::new()
}

/// `RigidBodySet::contains`: whether the set holds a body under `handle`.
#[verifier::external_body]
pub(crate) fn body_set_contains(set: &rapier3d::dynamics::RigidBodySet, handle: RigidBodyHandle) -> (r: bool)
    ensures
        r == body_handles(*set).contains(handle@),
{
    set.contains(
        rapier3d::dynamics::RigidBodyHandle::from_raw_parts(handle.index, handle.generation),
    )
}

/// `RigidBodySet::insert`: the body joins the set under a handle that the set
/// did not hold, and the other bodies stay.
#[verifier::external_body]
fn insert_body(set: &mut rapier3d::dynamics::RigidBodySet, body: rapier3d::dynamics::RigidBody) -> (handle:
    RigidBodyHandle)
    ensures
        !body_handles(*old(set)).contains(handle@),
        body_handles(*final(set)) == body_handles(*old(set)).insert(handle@),
{
    let (index, generation) = set.insert(body).into_raw_parts();
    RigidBodyHandle { index, generation }
}

/// `ColliderSet::insert`: the collider joins the set under a handle that the
/// set did not hold, attached to no body, and the other colliders stay.
#[verifier::external_body]
fn insert_collider(
    set: &mut rapier3d::geometry::ColliderSet,
    collider: rapier3d::geometry::Collider,
) -> (handle: ColliderHandle)
    ensures
        !collider_handles(*old(set)).contains(handle@),
        collider_handles(*final(set)) == collider_handles(*old(set)).insert(handle@),
        collider_parents(*final(set)) == collider_parents(*old(set)).remove(handle@),
{
    let (index, generation) = set.insert(collider).into_raw_parts();
    ColliderHandle { index, generation }
}

/// `ColliderSet::insert_with_parent`: the collider joins the set under a handle
/// that the set did not hold, attached to the body under `parent`, which
/// `bodies` holds; the other colliders stay, and `bodies` holds the bodies
/// that it held.
#[verifier::external_body]
fn insert_collider_with_parent(
    set: &mut rapier3d::geometry::ColliderSet,
    collider: rapier3d::geometry::Collider,
    parent: RigidBodyHandle,
    bodies: &mut rapier3d::dynamics::RigidBodySet,
) -> (handle: ColliderHandle)
    requires
        body_handles(*old(bodies)).contains(parent@),
    ensures
        !collider_handles(*old(set)).contains(handle@),
        collider_handles(*final(set)) == collider_handles(*old(set)).insert(handle@),
        collider_parents(*final(set)) == collider_parents(*old(set)).insert(handle@, parent@),
        body_handles(*final(bodies)) == body_handles(*old(bodies)),
{
    let parent = rapier3d::dynamics::RigidBodyHandle::from_raw_parts(parent.index, parent.generation);
    let (index, generation) = set.insert_with_parent(collider, parent, bodies).into_raw_parts();
    ColliderHandle { index, generation }
}

/// The bodies and colliders of the shared world state.
pub struct SimulationStateInner {
    pub rigid_body_set: rapier3d::dynamics::RigidBodySet,
    pub collider_set: rapier3d::geometry::ColliderSet,
}

impl SimulationStateInner {
    /// A world without bodies and colliders.
    pub fn new() -> (state: Self)
        ensures
            body_handles(state.rigid_body_set) == Set::<(u32, u32)>::empty(),
            collider_handles(state.collider_set) == Set::<(u32, u32)>::empty(),
            collider_parents(state.collider_set) == Map::<(u32, u32), (u32, u32)>::empty(),
    {
        SimulationStateInner { rigid_body_set: new_body_set(), collider_set: new_collider_set() }
    }

    /// Adds an object to the world: its collider, and its rigid body where it
    /// has one, to which the collider is then attached. The object that comes
    /// back owns the visual node and holds the new handles.
    pub fn add_simulation_object_from_parts<N>(
        &mut self,
        scene_node: N,
        colider: rapier3d::geometry::Collider,
        rigidbody: Option<rapier3d::dynamics::RigidBody>,
    ) -> (object: SimulationObject<N>)
        ensures
            object.scene_node == scene_node,
            !collider_handles(old(self).collider_set).contains(object.colider@),
            collider_handles(final(self).collider_set) == collider_handles(
                old(self).collider_set,
            ).insert(object.colider@),
            match object.rigid_body {
                Some(body) => {
                    &&& rigidbody is Some
                    &&& !body_handles(old(self).rigid_body_set).contains(body@)
                    &&& body_handles(final(self).rigid_body_set) == body_handles(
                        old(self).rigid_body_set,
                    ).insert(body@)
                    &&& collider_parents(final(self).collider_set) == collider_parents(
                        old(self).collider_set,
                    ).insert(object.colider@, body@)
                },
                None => {
                    &&& rigidbody is None
                    &&& final(self).rigid_body_set == old(self).rigid_body_set
                    &&& collider_parents(final(self).collider_set) == collider_parents(
                        old(self).collider_set,
                    ).remove(object.colider@)
                },
            },
    {
        match rigidbody {
            None => {
                let colider_handle = insert_collider(&mut self.collider_set, colider);
                SimulationObject::new(scene_node, colider_handle, None)
            },
            Some(rigidbody) => {
                let rigid_body_handle = insert_body(&mut self.rigid_body_set, rigidbody);
                let colider_handle = insert_collider_with_parent(
                    &mut self.collider_set,
                    colider,
                    rigid_body_handle,
                    &mut self.rigid_body_set,
                );
                SimulationObject::new(scene_node, colider_handle, Some(rigid_body_handle))
            },
        }
    }
}

} // verus!
