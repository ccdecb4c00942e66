use screeps_colony::callbacks::{Callbacks, PeriodicCallback, ROOM_UPDATE_DELAY};
use screeps_colony::commands::{Command, CommandQueue};

#[test]
fn commands_queue_once() {
    let mut q = CommandQueue::new();
    assert!(q.insert(Command::DebugSpawn));
    assert!(!q.insert(Command::DebugSpawn));
    assert!(q.insert(Command::ResetColony { room: "W1N1".to_string() }));
    assert!(q.insert(Command::ResetColony { room: "W2N1".to_string() }));
    assert!(q.pop_command(&Command::ResetColony { room: "W1N1".to_string() }));
    assert!(!q.pop_command(&Command::ResetColony { room: "W1N1".to_string() }));
    assert!(q.pop_command(&Command::DebugSpawn));
    assert!(!q.pop_command(&Command::Claim { room: "W2N1".to_string() }));
}

#[test]
fn commands_handled_leave_the_queue() {
    let mut q = CommandQueue::new();
    q.insert(Command::DebugSpawn);
    q.insert(Command::Claim { room: "E1S1".to_string() });
    q.insert(Command::MigrateColony { room: "E1S1".to_string() });
    let handled = q.handle_commands(|c: &Command| matches!(c, Command::Claim { .. } | Command::DebugSpawn));
    assert_eq!(handled, vec![Command::DebugSpawn, Command::Claim { room: "E1S1".to_string() }]);
    assert!(q.pop_command(&Command::MigrateColony { room: "E1S1".to_string() }));
    assert!(!q.pop_command(&Command::DebugSpawn));
}

#[test]
fn commands_that_run_at_once() {
    assert!(Command::ClearVisuals.runs_at_once());
    assert!(Command::CleanRoomSites { room: "W1N1".to_string() }.runs_at_once());
    assert!(!Command::DebugSpawn.runs_at_once());
    assert!(!Command::VisualizePlan { room: "W1N1".to_string(), animate: true }.runs_at_once());
}

#[test]
fn command_equality_compares_arguments() {
    assert_eq!(Command::VisualizePlan { room: "A".to_string(), animate: true }, Command::VisualizePlan { room: "A".to_string(), animate: true });
    assert_ne!(Command::VisualizePlan { room: "A".to_string(), animate: true }, Command::VisualizePlan { room: "A".to_string(), animate: false });
    assert_ne!(Command::ResetColony { room: "A".to_string() }, Command::ResetColonyStep { room: "A".to_string() });
}

#[test]
fn callbacks_run_every_delay_ticks() {
    let mut c = Callbacks::new();
    assert_eq!(ROOM_UPDATE_DELAY, 10);
    assert_eq!(PeriodicCallback::RoomUpdate.delay(), 10);
    assert_eq!(c.handle_callbacks(5), Vec::new());
    assert_eq!(c.handle_callbacks(10), vec![PeriodicCallback::RoomUpdate]);
    assert_eq!(c.handle_callbacks(19), Vec::new());
    assert_eq!(c.handle_callbacks(20), vec![PeriodicCallback::RoomUpdate]);
    assert_eq!(PeriodicCallback::all(), vec![PeriodicCallback::RoomUpdate]);
}
