use colosseum::simulation_object::{ColliderHandle, RigidBodyHandle, SimulationObject};
use colosseum::simulation_state::SimulationStateInner;
use rapier3d::prelude::{ColliderBuilder, RigidBodyBuilder};

fn body(handle: RigidBodyHandle) -> rapier3d::prelude::RigidBodyHandle {
    rapier3d::prelude::RigidBodyHandle::from_raw_parts(handle.index, handle.generation)
}

fn collider(handle: ColliderHandle) -> rapier3d::prelude::ColliderHandle {
    rapier3d::prelude::ColliderHandle::from_raw_parts(handle.index, handle.generation)
}

#[test]
fn a_new_world_is_empty() {
    let state = SimulationStateInner::new();
    assert_eq!(state.rigid_body_set.len(), 0);
    assert_eq!(state.collider_set.len(), 0);
}

#[test]
fn a_static_object_has_a_collider_and_no_body() {
    let mut state = SimulationStateInner::new();
    let ground = state.add_simulation_object_from_parts(
        "ground",
        ColliderBuilder::cuboid(5.0, 1.0, 5.0).build(),
        None,
    );
    assert_eq!(ground.scene_node, "ground");
    assert!(ground.rigid_body.is_none());
    assert_eq!(state.rigid_body_set.len(), 0);
    assert_eq!(state.collider_set.len(), 1);
    let held = state.collider_set.get(collider(ground.colider)).unwrap();
    assert!(held.parent().is_none());
    assert_eq!(ground.synchronize_graphics(&state), None);
}

#[test]
fn a_moving_object_has_a_body_with_its_collider_attached() {
    let mut state = SimulationStateInner::new();
    let ground = state.add_simulation_object_from_parts(
        0u8,
        ColliderBuilder::cuboid(5.0, 1.0, 5.0).build(),
        None,
    );
    let ball = state.add_simulation_object_from_parts(
        1u8,
        ColliderBuilder::ball(0.05).restitution(0.7).build(),
        Some(RigidBodyBuilder::dynamic().build()),
    );
    assert_eq!(ball.scene_node, 1);
    assert_ne!(ball.colider, ground.colider);
    let handle = ball.rigid_body.unwrap();
    assert_eq!(state.rigid_body_set.len(), 1);
    assert_eq!(state.collider_set.len(), 2);
    assert!(state.rigid_body_set.contains(body(handle)));
    let held = state.collider_set.get(collider(ball.colider)).unwrap();
    assert_eq!(held.parent(), Some(body(handle)));
    assert_eq!(state.rigid_body_set.get(body(handle)).unwrap().colliders(), &[collider(ball.colider)][..]);
    assert_eq!(ball.synchronize_graphics(&state), Some(handle));
    assert_eq!(ground.synchronize_graphics(&state), None);
}

#[test]
fn handles_are_not_handed_out_twice() {
    let mut state = SimulationStateInner::new();
    let mut seen_bodies = Vec::new();
    let mut seen_colliders = Vec::new();
    for i in 0..20 {
        let object = state.add_simulation_object_from_parts(
            i,
            ColliderBuilder::ball(0.5).build(),
            Some(RigidBodyBuilder::dynamic().build()),
        );
        let handle = object.rigid_body.unwrap();
        assert!(!seen_bodies.contains(&handle));
        assert!(!seen_colliders.contains(&object.colider));
        seen_bodies.push(handle);
        seen_colliders.push(object.colider);
    }
    assert_eq!(state.rigid_body_set.len(), 20);
    assert_eq!(state.collider_set.len(), 20);
}

#[test]
fn a_body_that_the_world_lost_is_not_read() {
    let mut state = SimulationStateInner::new();
    let ball = state.add_simulation_object_from_parts(
        (),
        ColliderBuilder::ball(0.5).build(),
        Some(RigidBodyBuilder::dynamic().build()),
    );
    let other = SimulationStateInner::new();
    assert_eq!(ball.synchronize_graphics(&other), None);
    let stale = SimulationObject::new(
        (),
        ball.colider,
        Some(RigidBodyHandle { index: 7, generation: 3 }),
    );
    assert_eq!(stale.synchronize_graphics(&state), None);
    assert_eq!(ball.synchronize_graphics(&state), ball.rigid_body);
}

#[test]
fn an_object_keeps_what_it_was_made_of() {
    let colider = ColliderHandle { index: 2, generation: 5 };
    let rigid_body = RigidBodyHandle { index: 1, generation: 0 };
    let object = SimulationObject::new("node", colider, Some(rigid_body));
    assert_eq!(object.scene_node, "node");
    assert_eq!(object.colider, colider);
    assert_eq!(object.rigid_body, Some(rigid_body));
}
