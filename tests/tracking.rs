use hibitset::{BitSet, BitSetLike};
use tracked_systems::bits::SLOT_LIMIT;
use tracked_systems::events::{ChangeEvents, EventKind, ReadChangeAdapter, WriteChangeAdapter};
use tracked_systems::track::{
    run, OnChangesSystem, TrackData, TrackKey, TrackRegistry, TrackedComponent,
};

struct Position;

impl TrackedComponent for Position {
    fn component_tag() -> u64 {
        7
    }
}

struct Velocity;

impl TrackedComponent for Velocity {
    fn component_tag() -> u64 {
        8
    }
}

/// Records the dirty set handed to each run, with the label it came with.
#[derive(Default)]
struct Recorder {
    runs: Vec<(Vec<u32>, u32)>,
}

impl<'a> OnChangesSystem<'a> for Recorder {
    type SysData = u32;

    fn run_with_changed(&mut self, changed: &BitSet, data: u32) {
        self.runs.push((changed.iter().collect(), data));
    }
}

impl Recorder {
    fn last(&self) -> Vec<u32> {
        self.runs.last().unwrap().0.clone()
    }
}

#[test]
fn delta_then_empty() {
    let mut changes = ChangeEvents::new();
    let mut registry = TrackRegistry::new();
    let key = TrackKey::of::<Position>(EventKind::Inserted);
    registry.setup(&mut changes, key);
    for id in [3u32, 9, 40, 41, 1000] {
        changes.flag(EventKind::Inserted, id);
    }
    let mut sys = Recorder::default();
    registry.run(&mut sys, key, &changes, 0);
    assert_eq!(sys.last(), vec![3, 9, 40, 41, 1000]);
    registry.run(&mut sys, key, &changes, 1);
    assert_eq!(sys.last(), Vec::<u32>::new());
    assert_eq!(sys.runs.len(), 2);
    assert_eq!(sys.runs[1].1, 1);
}

#[test]
fn inserted_then_modified_counted_once() {
    let mut changes = ChangeEvents::new();
    let mut registry = TrackRegistry::new();
    let ins = TrackKey::of::<Position>(EventKind::Inserted);
    let modi = TrackKey::of::<Position>(EventKind::Modified);
    registry.setup(&mut changes, ins);
    registry.setup(&mut changes, modi);
    let mut ins_sys = Recorder::default();
    let mut mod_sys = Recorder::default();

    changes.flag(EventKind::Inserted, 5);
    registry.run(&mut ins_sys, ins, &changes, 0);
    registry.run(&mut mod_sys, modi, &changes, 0);
    assert_eq!(ins_sys.last(), vec![5]);
    assert_eq!(mod_sys.last(), Vec::<u32>::new());

    changes.flag(EventKind::Modified, 5);
    changes.flag(EventKind::Modified, 5);
    registry.run(&mut ins_sys, ins, &changes, 1);
    registry.run(&mut mod_sys, modi, &changes, 1);
    assert_eq!(ins_sys.last(), Vec::<u32>::new());
    assert_eq!(mod_sys.last(), vec![5]);
    assert_eq!(ins_sys.runs[0].0, vec![5]);
}

#[test]
fn kinds_do_not_see_each_other() {
    let mut changes = ChangeEvents::new();
    let mut registry = TrackRegistry::new();
    let ins = TrackKey::of::<Position>(EventKind::Inserted);
    let modi = TrackKey::of::<Position>(EventKind::Modified);
    registry.setup(&mut changes, ins);
    registry.setup(&mut changes, modi);
    changes.flag(EventKind::Inserted, 1);
    changes.flag(EventKind::Inserted, 2);
    changes.flag(EventKind::Modified, 30);
    let mut ins_sys = Recorder::default();
    let mut mod_sys = Recorder::default();
    registry.run(&mut ins_sys, ins, &changes, 0);
    registry.run(&mut mod_sys, modi, &changes, 0);
    assert_eq!(ins_sys.last(), vec![1, 2]);
    assert_eq!(mod_sys.last(), vec![30]);
}

#[test]
fn second_setup_of_a_key_is_refused() {
    let mut changes = ChangeEvents::new();
    let mut registry = TrackRegistry::new();
    let key = TrackKey::of::<Position>(EventKind::Modified);
    assert!(!registry.is_registered(key));
    registry.setup(&mut changes, key);
    assert!(registry.is_registered(key));
    assert!(!registry.is_registered(TrackKey::of::<Position>(EventKind::Inserted)));
    assert!(!registry.is_registered(TrackKey::of::<Velocity>(EventKind::Modified)));
}

#[test]
fn empty_runs_keep_the_dirty_set_empty() {
    let mut changes = ChangeEvents::new();
    let mut registry = TrackRegistry::new();
    let key = TrackKey::of::<Position>(EventKind::Modified);
    registry.setup(&mut changes, key);
    changes.flag(EventKind::Modified, 12);
    let mut sys = Recorder::default();
    registry.run(&mut sys, key, &changes, 0);
    assert_eq!(sys.last(), vec![12]);
    for _ in 0..10_000 {
        registry.run(&mut sys, key, &changes, 1);
        assert!(registry.dirty_of(key).unwrap().is_empty());
    }
    assert_eq!(sys.runs.len(), 10_001);
}

#[test]
fn position_modified_scenario() {
    let mut changes = ChangeEvents::new();
    let mut registry = TrackRegistry::new();
    let key = TrackKey::of::<Position>(EventKind::Modified);
    registry.setup(&mut changes, key);
    for id in [1u32, 2, 3] {
        changes.flag(EventKind::Inserted, id);
    }
    let mut sys = Recorder::default();
    registry.run(&mut sys, key, &changes, 0);
    assert_eq!(sys.last(), Vec::<u32>::new());
    changes.flag(EventKind::Modified, 2);
    registry.run(&mut sys, key, &changes, 0);
    assert_eq!(sys.last(), vec![2]);
    registry.run(&mut sys, key, &changes, 0);
    assert_eq!(sys.last(), Vec::<u32>::new());
}

#[test]
fn new_cursor_sees_no_past_events() {
    let mut changes = ChangeEvents::new();
    changes.flag(EventKind::Inserted, 4);
    changes.flag(EventKind::Modified, 4);
    let key = TrackKey::of::<Velocity>(EventKind::Inserted);
    let mut registry = TrackRegistry::new();
    registry.setup(&mut changes, key);
    let mut sys = Recorder::default();
    registry.run(&mut sys, key, &changes, 0);
    assert_eq!(sys.last(), Vec::<u32>::new());
    changes.flag(EventKind::Inserted, 6);
    registry.run(&mut sys, key, &changes, 0);
    assert_eq!(sys.last(), vec![6]);
}

#[test]
fn refresh_replaces_the_dirty_set() {
    let mut changes = ChangeEvents::new();
    let reader = changes.track_changed(EventKind::Modified);
    let mut state = TrackData::new(reader, TrackKey::of::<Position>(EventKind::Modified));
    assert!(state.dirty().is_empty());
    changes.flag(EventKind::Modified, 10);
    changes.flag(EventKind::Modified, 11);
    state.refresh(&changes);
    assert!(state.dirty().contains(10));
    assert!(state.dirty().contains(11));
    changes.flag(EventKind::Modified, 12);
    state.refresh(&changes);
    assert!(!state.dirty().contains(10));
    assert!(state.dirty().contains(12));
    let mut sys = Recorder::default();
    run(&mut sys, &mut state, &changes, 3);
    assert_eq!(sys.runs, vec![(Vec::<u32>::new(), 3)]);
}

#[test]
fn populate_adds_to_what_is_there() {
    let mut changes = ChangeEvents::new();
    let mut reader = changes.track_changed(EventKind::Inserted);
    changes.flag(EventKind::Inserted, 2);
    changes.flag(EventKind::Inserted, 2);
    changes.flag(EventKind::Inserted, 65);
    let mut set = BitSet::new();
    set.add(100);
    changes.populate_changed(EventKind::Inserted, &mut reader, &mut set);
    assert_eq!((&set).iter().collect::<Vec<u32>>(), vec![2, 65, 100]);
    changes.populate_changed(EventKind::Inserted, &mut reader, &mut set);
    assert_eq!((&set).iter().collect::<Vec<u32>>(), vec![2, 65, 100]);
}

#[test]
fn registry_lookups_by_key() {
    let mut pos_changes = ChangeEvents::new();
    let mut vel_changes = ChangeEvents::new();
    let mut registry = TrackRegistry::new();
    let pos = TrackKey::of::<Position>(EventKind::Inserted);
    let vel = TrackKey::of::<Velocity>(EventKind::Inserted);
    assert!(registry.dirty_of(pos).is_none());
    registry.setup(&mut pos_changes, pos);
    registry.setup(&mut vel_changes, vel);
    pos_changes.flag(EventKind::Inserted, 1);
    vel_changes.flag(EventKind::Inserted, 2);
    let mut sys = Recorder::default();
    registry.run(&mut sys, vel, &vel_changes, 0);
    assert_eq!(sys.last(), vec![2]);
    assert!(registry.dirty_of(pos).unwrap().is_empty());
    assert!(registry.dirty_of(vel).unwrap().contains(2));
    assert_eq!(pos.component, 7);
    assert_eq!(vel.kind, EventKind::Inserted);
}

#[test]
fn largest_slot_is_tracked() {
    let mut changes = ChangeEvents::new();
    let mut registry = TrackRegistry::new();
    let key = TrackKey::of::<Velocity>(EventKind::Modified);
    registry.setup(&mut changes, key);
    changes.flag(EventKind::Modified, SLOT_LIMIT - 1);
    changes.flag(EventKind::Modified, 0);
    let mut sys = Recorder::default();
    registry.run(&mut sys, key, &changes, 0);
    assert_eq!(sys.last(), vec![0, 1_048_575]);
}
