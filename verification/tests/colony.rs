use screeps_colony::colony::{ColonyAction, ColonyDecision, ColonyObservation, ColonyState, Level1State, RoundStep, WARN_TRANSITIONS};

fn obs(level: u8) -> ColonyObservation {
    ColonyObservation { level, has_buffer: true, buffer_is_container: false, has_spawn: true, has_road_sites: false }
}

#[test]
fn colony_unclaimed_promotes_once_claimed() {
    assert_eq!(ColonyState::Unclaimed.decide(&obs(0)), ColonyDecision::Stay);
    assert_eq!(ColonyState::Unclaimed.decide(&obs(1)),
        ColonyDecision::Promote(ColonyState::Level1(Level1State::BuildContainerStorage)));
}

#[test]
fn colony_falls_back_when_controller_is_lower() {
    assert_eq!(ColonyState::Level5.decide(&obs(3)), ColonyDecision::Demote(ColonyState::Level3));
}

#[test]
fn colony_level1_waits_for_buffer_and_spawn() {
    let mut o = obs(1);
    o.has_buffer = false;
    assert_eq!(ColonyState::Level1(Level1State::BuildContainerStorage).decide(&o), ColonyDecision::Stay);
    assert_eq!(ColonyState::Level1(Level1State::BuildSpawn).decide(&o),
        ColonyDecision::Demote(ColonyState::Level1(Level1State::BuildContainerStorage)));
    let mut o = obs(1);
    o.has_spawn = false;
    assert_eq!(ColonyState::Level1(Level1State::BuildSpawn).decide(&o), ColonyDecision::Stay);
    assert_eq!(ColonyState::Level1(Level1State::BuildSourceContainers).decide(&o),
        ColonyDecision::Demote(ColonyState::Level1(Level1State::BuildSpawn)));
}

#[test]
fn colony_roads_wait_for_sites() {
    let mut o = obs(1);
    o.has_road_sites = true;
    assert_eq!(ColonyState::Level1(Level1State::BuildArterialRoads).decide(&o), ColonyDecision::Stay);
    o.has_road_sites = false;
    assert_eq!(ColonyState::Level1(Level1State::BuildArterialRoads).decide(&o),
        ColonyDecision::Promote(ColonyState::Level1(Level1State::UpgradeController)));
}

#[test]
fn colony_level8_stays() {
    assert_eq!(ColonyState::Level8.decide(&obs(8)), ColonyDecision::Stay);
}

#[test]
fn colony_entry_actions() {
    assert_eq!(ColonyState::Unclaimed.entry_actions(&obs(0)), vec![ColonyAction::RequestClaim]);
    assert_eq!(ColonyState::Unclaimed.entry_actions(&obs(1)), Vec::<ColonyAction>::new());
    assert_eq!(ColonyState::Level1(Level1State::BuildArterialRoads).entry_actions(&obs(1)), vec![ColonyAction::PlanMainRoads]);
    assert_eq!(ColonyState::Level3.entry_actions(&obs(3)), vec![ColonyAction::PlanCenter, ColonyAction::PlanMainRoads]);
    let mut o = obs(4);
    o.buffer_is_container = true;
    assert_eq!(ColonyState::Level4.entry_actions(&o),
        vec![ColonyAction::PlanCenter, ColonyAction::PlanMainRoads, ColonyAction::DestroyBufferContainer]);
}

#[test]
fn colony_first_at_level_and_order() {
    assert_eq!(ColonyState::first_at_level(0), Some(ColonyState::Unclaimed));
    assert_eq!(ColonyState::first_at_level(4), Some(ColonyState::Level4));
    assert_eq!(ColonyState::first_at_level(9), None);
    assert!(ColonyState::Unclaimed.is_before(&ColonyState::Level1(Level1State::BuildSpawn)));
    assert!(ColonyState::Level1(Level1State::UpgradeController).is_before(&ColonyState::Level2));
    assert!(!ColonyState::Level3.is_before(&ColonyState::Level2));
}

#[test]
fn a_round_warns_after_too_many_transitions_and_goes_on() {
    let first = ColonyState::Level1(Level1State::BuildContainerStorage);
    assert_eq!(ColonyState::Unclaimed.round_step(&obs(1), 0), RoundStep::Enter(first));
    assert_eq!(ColonyState::Unclaimed.round_step(&obs(1), WARN_TRANSITIONS), RoundStep::Enter(first));
    assert_eq!(ColonyState::Unclaimed.round_step(&obs(1), WARN_TRANSITIONS + 1), RoundStep::EnterWarned(first));
    assert_eq!(ColonyState::Level5.round_step(&obs(3), 21), RoundStep::EnterWarned(ColonyState::Level3));
    assert_eq!(ColonyState::Level5.round_step(&obs(3), 3), RoundStep::Enter(ColonyState::Level3));
    assert_eq!(ColonyState::Level8.round_step(&obs(8), 100), RoundStep::Stay);
}

#[test]
fn demotions_go_back_at_any_observed_level() {
    assert_eq!(ColonyState::Level8.decide(&obs(12)), ColonyDecision::Stay);
    assert_eq!(ColonyState::Level5.decide(&obs(12)), ColonyDecision::Promote(ColonyState::Level6));
    let mut o = obs(200);
    o.has_buffer = false;
    assert_eq!(ColonyState::Level1(Level1State::BuildSpawn).decide(&o),
        ColonyDecision::Demote(ColonyState::Level1(Level1State::BuildContainerStorage)));
    assert_eq!(ColonyState::Level8.round_step(&obs(9), 0), RoundStep::Stay);
}
