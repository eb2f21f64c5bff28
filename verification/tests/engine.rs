//! Processor behaviour, driven with a plain stand-in instance type.

use rake::command::Command;
use rake::processor::{CycleAction, Processor, UNITY_VOLUME_BITS};

#[derive(Debug, Clone, PartialEq)]
struct Dummy(u32);

fn ids_of(p: &Processor<Dummy>) -> Vec<u128> {
    p.chain.iter().map(|e| e.id).collect()
}

#[test]
fn new_processor_is_empty_running_unity() {
    let p = Processor::<Dummy>::new();
    assert_eq!(p.chain.len(), 0);
    assert_eq!(p.pending_reclaim.len(), 0);
    assert_eq!(p.volume_bits, UNITY_VOLUME_BITS);
    assert_eq!(f32::from_bits(p.volume_bits), 1.0f32);
    assert!(!p.stopping);
}

#[test]
fn loads_append_in_issue_order() {
    let mut p = Processor::new();
    for (n, id) in [(10u32, 111u128), (20, 222), (30, 333)] {
        let action = p.apply_command(Command::LoadPlugin(Dummy(n), id));
        assert_eq!(action, CycleAction::Proceed);
    }
    assert_eq!(ids_of(&p), vec![111, 222, 333]);
    assert_eq!(p.chain[0].plugin, Dummy(10));
    assert_eq!(p.chain[2].plugin, Dummy(30));
    assert_eq!(p.pending_reclaim.len(), 0);
}

#[test]
fn delete_removes_matching_entry() {
    let mut p = Processor::new();
    p.apply_command(Command::LoadPlugin(Dummy(1), 1));
    p.apply_command(Command::LoadPlugin(Dummy(2), 2));
    p.apply_command(Command::LoadPlugin(Dummy(3), 3));
    let action = p.apply_command(Command::DeletePlugin(2));
    assert_eq!(action, CycleAction::Proceed);
    assert_eq!(ids_of(&p), vec![1, 3]);
    assert_eq!(p.pending_reclaim.len(), 1);
    assert_eq!(p.pending_reclaim[0].id, 2);
    assert_eq!(p.pending_reclaim[0].plugin, Dummy(2));
}

#[test]
fn delete_absent_is_noop() {
    let mut p = Processor::new();
    p.apply_command(Command::LoadPlugin(Dummy(1), 1));
    p.apply_command(Command::DeletePlugin(99));
    assert_eq!(ids_of(&p), vec![1]);
    assert_eq!(p.pending_reclaim.len(), 0);
}

#[test]
fn delete_matches_last_occurrence() {
    // Ids are meant to be unique; matching from the end is the engine's
    // tie-break policy should they ever repeat.
    let mut p = Processor::new();
    p.apply_command(Command::LoadPlugin(Dummy(1), 7));
    p.apply_command(Command::LoadPlugin(Dummy(2), 7));
    p.apply_command(Command::DeletePlugin(7));
    assert_eq!(p.chain.len(), 1);
    assert_eq!(p.chain[0].plugin, Dummy(1));
    assert_eq!(p.pending_reclaim[0].plugin, Dummy(2));
}

#[test]
fn move_up_swaps_with_predecessor() {
    let mut p = Processor::new();
    p.apply_command(Command::LoadPlugin(Dummy(1), 1));
    p.apply_command(Command::LoadPlugin(Dummy(2), 2));
    p.apply_command(Command::LoadPlugin(Dummy(3), 3));
    p.apply_command(Command::MovePluginUp(3));
    assert_eq!(ids_of(&p), vec![1, 3, 2]);
}

#[test]
fn move_down_swaps_with_successor() {
    let mut p = Processor::new();
    p.apply_command(Command::LoadPlugin(Dummy(1), 1));
    p.apply_command(Command::LoadPlugin(Dummy(2), 2));
    p.apply_command(Command::LoadPlugin(Dummy(3), 3));
    p.apply_command(Command::MovePluginDown(1));
    assert_eq!(ids_of(&p), vec![2, 1, 3]);
}

#[test]
fn move_up_then_down_restores_order() {
    let mut p = Processor::new();
    p.apply_command(Command::LoadPlugin(Dummy(1), 1));
    p.apply_command(Command::LoadPlugin(Dummy(2), 2));
    p.apply_command(Command::LoadPlugin(Dummy(3), 3));
    p.apply_command(Command::MovePluginUp(2));
    p.apply_command(Command::MovePluginDown(2));
    assert_eq!(ids_of(&p), vec![1, 2, 3]);
}

#[test]
fn move_down_then_up_restores_order() {
    let mut p = Processor::new();
    p.apply_command(Command::LoadPlugin(Dummy(1), 1));
    p.apply_command(Command::LoadPlugin(Dummy(2), 2));
    p.apply_command(Command::LoadPlugin(Dummy(3), 3));
    p.apply_command(Command::MovePluginDown(2));
    p.apply_command(Command::MovePluginUp(2));
    assert_eq!(ids_of(&p), vec![1, 2, 3]);
}

#[test]
fn move_at_boundary_is_noop() {
    let mut p = Processor::new();
    p.apply_command(Command::LoadPlugin(Dummy(1), 1));
    p.apply_command(Command::LoadPlugin(Dummy(2), 2));
    p.apply_command(Command::MovePluginUp(1));
    assert_eq!(ids_of(&p), vec![1, 2]);
    p.apply_command(Command::MovePluginDown(2));
    assert_eq!(ids_of(&p), vec![1, 2]);
}

#[test]
fn move_absent_is_noop() {
    let mut p = Processor::new();
    p.apply_command(Command::LoadPlugin(Dummy(1), 1));
    p.apply_command(Command::MovePluginUp(42));
    p.apply_command(Command::MovePluginDown(42));
    assert_eq!(ids_of(&p), vec![1]);
}

#[test]
fn param_change_targets_first_match() {
    let mut p = Processor::new();
    p.apply_command(Command::LoadPlugin(Dummy(1), 5));
    p.apply_command(Command::LoadPlugin(Dummy(2), 6));
    let bits = 0.75f32.to_bits();
    let action = p.apply_command(Command::ParamChange(6, 2, bits));
    assert_eq!(
        action,
        CycleAction::SetParameter { chain_index: 1, param_index: 2, value_bits: bits }
    );
    // the chain itself is untouched by a parameter change
    assert_eq!(ids_of(&p), vec![5, 6]);
    assert_eq!(p.pending_reclaim.len(), 0);
}

#[test]
fn param_change_absent_proceeds() {
    let mut p = Processor::new();
    p.apply_command(Command::LoadPlugin(Dummy(1), 5));
    let action = p.apply_command(Command::ParamChange(9, 0, 0));
    assert_eq!(action, CycleAction::Proceed);
}

#[test]
fn volume_change_replaces_bits() {
    let mut p = Processor::<Dummy>::new();
    let action = p.apply_command(Command::VolumeChange(0.5f32.to_bits()));
    assert_eq!(action, CycleAction::Proceed);
    assert_eq!(f32::from_bits(p.volume_bits), 0.5f32);
}

#[test]
fn clear_session_reclaims_in_reverse() {
    let mut p = Processor::new();
    p.apply_command(Command::LoadPlugin(Dummy(1), 1));
    p.apply_command(Command::LoadPlugin(Dummy(2), 2));
    p.apply_command(Command::LoadPlugin(Dummy(3), 3));
    p.apply_command(Command::ClearSession);
    assert_eq!(p.chain.len(), 0);
    let reclaimed: Vec<u128> = p.pending_reclaim.iter().map(|e| e.id).collect();
    assert_eq!(reclaimed, vec![3, 2, 1]);
}

#[test]
fn exit_stops_executor_for_good() {
    let mut p = Processor::<Dummy>::new();
    let action = p.apply_command(Command::Exit);
    assert_eq!(action, CycleAction::Stop);
    assert!(p.stopping);
    // every later cycle keeps answering Stop and applies nothing
    let later = p.begin_cycle(Some(Command::LoadPlugin(Dummy(1), 1)));
    assert_eq!(later, CycleAction::Stop);
    assert_eq!(p.chain.len(), 0);
}

#[test]
fn begin_cycle_without_command_proceeds() {
    let mut p = Processor::<Dummy>::new();
    let action = p.begin_cycle(None);
    assert_eq!(action, CycleAction::Proceed);
    let action = p.begin_cycle(Some(Command::LoadPlugin(Dummy(1), 1)));
    assert_eq!(action, CycleAction::Proceed);
    assert_eq!(ids_of(&p), vec![1]);
}

#[test]
fn take_pending_empties_and_retain_restores() {
    let mut p = Processor::new();
    p.apply_command(Command::LoadPlugin(Dummy(1), 1));
    p.apply_command(Command::DeletePlugin(1));
    let taken = p.take_pending();
    assert_eq!(taken.len(), 1);
    assert_eq!(taken[0].id, 1);
    assert_eq!(p.pending_reclaim.len(), 0);
    // the reclamation channel had no room: the entry is kept for a later cycle
    for entry in taken {
        p.retain_unreclaimed(entry);
    }
    assert_eq!(p.pending_reclaim.len(), 1);
    assert_eq!(p.pending_reclaim[0].id, 1);
}
