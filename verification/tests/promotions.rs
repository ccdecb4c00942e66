use screeps_colony::colony;
use screeps_colony::planning_steps;

fn colony_state_chain() {
    let mut state = colony::ColonyState::default();
    assert_eq!(state.controller_level(), 0);
    while let Some(promotion) = state.get_promotion() {
        assert!(promotion.controller_level() >= state.controller_level()
            && promotion.controller_level() <= state.controller_level() + 1);
        assert!(promotion > state);
        state = promotion;
    }
    assert!(state.controller_level() == colony::COLONY_VARIANT_COUNT - 1);
}

fn colony_level1_chain() {
    let mut state = colony::Level1State::default();
    assert_eq!(state.discriminant(), 0);
    while let Some(promotion) = state.get_promotion() {
        assert!(promotion.discriminant() >= state.discriminant()
            && promotion.discriminant() <= state.discriminant() + 1);
        assert!(promotion > state);
        state = promotion;
    }
    assert!(state.discriminant() == colony::LEVEL1_VARIANT_COUNT - 1);
}

fn planner_state_chain() {
    let mut state = planning_steps::ColonyState::default();
    assert_eq!(state.controller_level(), 0);
    while let Some(promotion) = state.get_promotion() {
        assert!(promotion.controller_level() >= state.controller_level()
            && promotion.controller_level() <= state.controller_level() + 1);
        assert!(promotion > state);
        state = promotion;
    }
    assert!(state.controller_level() == planning_steps::COLONY_VARIANT_COUNT - 1);
}

fn planner_level1_chain() {
    let mut state = planning_steps::Level1State::default();
    assert_eq!(state.discriminant(), 0);
    while let Some(promotion) = state.get_promotion() {
        assert!(promotion.discriminant() >= state.discriminant()
            && promotion.discriminant() <= state.discriminant() + 1);
        assert!(promotion > state);
        state = promotion;
    }
    assert!(state.discriminant() == planning_steps::LEVEL1_VARIANT_COUNT - 1);
}

#[test]
fn colony_test_promotions() {
    colony_state_chain();
    colony_level1_chain();
}

#[test]
fn steps_test_promotions() {
    planner_state_chain();
    planner_level1_chain();
}

#[test]
fn planner_first_state_is_unclaimed() {
    assert_eq!(planning_steps::ColonyState::first(), planning_steps::ColonyState::Unclaimed);
}

#[test]
fn planner_update_settles_at_controller_level() {
    assert_eq!(planning_steps::ColonyState::Unclaimed.update(0), planning_steps::ColonyState::Unclaimed);
    assert_eq!(planning_steps::ColonyState::Unclaimed.update(3), planning_steps::ColonyState::Level3);
    assert_eq!(planning_steps::ColonyState::Level5.update(2), planning_steps::ColonyState::Level2);
    assert_eq!(planning_steps::ColonyState::Level1(planning_steps::Level1State::BuildSpawn).update(1), planning_steps::ColonyState::Level1(planning_steps::Level1State::BuildArterialRoads));
    assert_eq!(planning_steps::ColonyState::Level8.update(8), planning_steps::ColonyState::Level8);
}

#[test]
fn planner_first_at_level() {
    assert_eq!(planning_steps::ColonyState::first_at_level(0), Some(planning_steps::ColonyState::Unclaimed));
    assert_eq!(planning_steps::ColonyState::first_at_level(1), Some(planning_steps::ColonyState::Level1(planning_steps::Level1State::BuildContainerStorage)));
    assert_eq!(planning_steps::ColonyState::first_at_level(8), Some(planning_steps::ColonyState::Level8));
    assert_eq!(planning_steps::ColonyState::first_at_level(9), None);
}

#[test]
fn defaults_are_the_first_states() {
    assert_eq!(colony::ColonyState::default(), colony::ColonyState::Unclaimed);
    assert_eq!(colony::Level1State::default(), colony::Level1State::BuildContainerStorage);
    assert_eq!(planning_steps::ColonyState::default(), planning_steps::ColonyState::first());
    assert_eq!(planning_steps::Level1State::default(), planning_steps::Level1State::BuildContainerStorage);
    assert_eq!(screeps_colony::steps::ColonyStep::default(), screeps_colony::steps::ColonyStep::BuildSpawn);
}
