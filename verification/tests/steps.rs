use screeps_colony::steps::{ColonyStep, Transition, STEP_COUNT};

#[test]
fn step_indices_round_trip() {
    for i in 0..STEP_COUNT {
        let step = ColonyStep::from_repr(i).unwrap();
        assert_eq!(step.index(), i);
    }
    assert_eq!(ColonyStep::from_repr(STEP_COUNT), None);
}

#[test]
fn step_controller_levels() {
    assert_eq!(ColonyStep::BuildSpawn.controller_level(), 1);
    assert_eq!(ColonyStep::UpgradeToLevel2.controller_level(), 1);
    assert_eq!(ColonyStep::BuildLvl2.controller_level(), 2);
    assert_eq!(ColonyStep::UpgradeToLevel3.controller_level(), 2);
    assert_eq!(ColonyStep::EndlesslyUpgrade.controller_level(), 8);
}

#[test]
fn step_first_at_level() {
    assert_eq!(ColonyStep::first_at_level(0), ColonyStep::BuildSpawn);
    assert_eq!(ColonyStep::first_at_level(1), ColonyStep::BuildSpawn);
    assert_eq!(ColonyStep::first_at_level(2), ColonyStep::BuildLvl2);
    assert_eq!(ColonyStep::first_at_level(5), ColonyStep::BuildLvl5);
    assert_eq!(ColonyStep::first_at_level(8), ColonyStep::BuildLvl8);
}

#[test]
fn step_promotions_walk_every_step() {
    let mut step = ColonyStep::BuildSpawn;
    let mut count = 1;
    while let Some(next) = step.promotion() {
        assert_eq!(next.index(), step.index() + 1);
        step = next;
        count += 1;
    }
    assert_eq!(step, ColonyStep::last());
    assert_eq!(step, ColonyStep::EndlesslyUpgrade);
    assert_eq!(count, STEP_COUNT);
}

#[test]
fn step_update_falls_back_to_controller_level() {
    assert_eq!(ColonyStep::BuildLvl5.update(3, true), Transition::Continue(ColonyStep::BuildLvl3));
    assert_eq!(ColonyStep::BuildLvl2.update(0, false), Transition::Continue(ColonyStep::BuildSpawn));
}

#[test]
fn step_update_moves_on_when_built() {
    assert_eq!(ColonyStep::BuildSpawn.update(1, true), Transition::Continue(ColonyStep::BuildBufferAndSourceContainers));
    assert_eq!(ColonyStep::BuildSpawn.update(1, false), Transition::Break(ColonyStep::BuildSpawn));
}

#[test]
fn step_update_waits_for_the_controller() {
    assert_eq!(ColonyStep::UpgradeToLevel2.update(1, true), Transition::Break(ColonyStep::UpgradeToLevel2));
    assert_eq!(ColonyStep::UpgradeToLevel2.update(2, true), Transition::Continue(ColonyStep::BuildLvl2));
}

#[test]
fn step_update_stays_at_the_last_step() {
    assert_eq!(ColonyStep::EndlesslyUpgrade.update(8, true), Transition::Break(ColonyStep::EndlesslyUpgrade));
}

#[test]
fn step_update_reaches_the_last_step() {
    let mut step = ColonyStep::BuildSpawn;
    loop {
        match step.update(8, true) {
            Transition::Continue(next) => step = next,
            Transition::Break(at) => {
                step = at;
                break;
            }
        }
    }
    assert_eq!(step, ColonyStep::EndlesslyUpgrade);
}
