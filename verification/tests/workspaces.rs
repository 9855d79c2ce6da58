use hyprbar::json::{parse_workspace, parse_workspaces};
use hyprbar::model::WorkspaceInfo;
use hyprbar::workspaces::{
    dispatch, Action, Command, Reconciler, EXIT_SETTLE_MS, EXIT_STAGE_MS, REVEAL_STAGE_MS,
};

fn winfo(id: i32, name: &[u8]) -> WorkspaceInfo {
    WorkspaceInfo { id, name: name.to_vec() }
}

fn ids(rec: &Reconciler) -> Vec<i32> {
    rec.infos.iter().map(|w| w.id).collect()
}

#[test]
fn scenario_initial_listing_expands_the_active_workspace() {
    let listing = parse_workspaces(&br#"[{"id":1,"name":"1"},{"id":2,"name":"2"}]"#.to_vec())
        .unwrap();
    let active = parse_workspace(&br#"{"id":1,"name":"1"}"#.to_vec()).unwrap();
    let (mut rec, cmds) = Reconciler::init(listing);
    assert_eq!(ids(&rec), vec![1, 2]);
    // each seeded entry is inserted and revealed in listing order
    assert_eq!(
        cmds,
        vec![
            Command::InsertFront { handle: 1 },
            Command::SetSlide { handle: 1, on: true },
            Command::Delay { ms: REVEAL_STAGE_MS },
            Command::SetCrossfade { handle: 1, on: true },
            Command::InsertAfter { handle: 2, sibling: 1 },
            Command::SetSlide { handle: 2, on: true },
            Command::Delay { ms: REVEAL_STAGE_MS },
            Command::SetCrossfade { handle: 2, on: true },
        ]
    );
    let cmds = rec.expand_initial(&active);
    assert_eq!(cmds, vec![Command::SetExpand { handle: 1, on: true }]);
    assert!(rec.states[0].expanded);
    assert!(!rec.states[1].expanded);
}

#[test]
fn scenario_payload_carrying_switch_expands_only_its_target() {
    let (mut rec, _) = Reconciler::init(vec![winfo(1, b"one"), winfo(3, b"three")]);
    // the payload parses, so no fallback control query is asked for
    let action = dispatch(&b"workspacev2>>3,three".to_vec());
    let current = match action {
        Action::SetCurrent(w) => w,
        other => panic!("expected a current-workspace change, got {:?}", other),
    };
    rec.on_workspace_changed(&current);
    assert!(!rec.states[0].expanded);
    assert!(rec.states[1].expanded);
}

#[test]
fn scenario_destroy_detaches_only_after_the_full_exit() {
    let (mut rec, _) = Reconciler::init(vec![winfo(1, b"1"), winfo(2, b"two")]);
    rec.on_workspace_changed(&winfo(2, b"two"));
    assert!(rec.states[1].expanded);
    let handle = rec.states[1].handle;
    let cmds = match dispatch(&b"destroyworkspacev2>>2,two".to_vec()) {
        Action::Destroy(w) => rec.on_destroy(&w),
        other => panic!("expected a destroy, got {:?}", other),
    };
    // the entry is gone from the tracked collection immediately
    assert_eq!(ids(&rec), vec![1]);
    // but the widget is detached only after the exit choreography ran out
    assert_eq!(
        cmds,
        vec![
            Command::SetCrossfade { handle, on: false },
            Command::Delay { ms: EXIT_STAGE_MS },
            Command::SetSlide { handle, on: false },
            Command::Delay { ms: EXIT_SETTLE_MS },
            Command::Detach { handle },
        ]
    );
}

#[test]
fn creates_in_any_order_end_up_ascending() {
    let (mut rec, _) = Reconciler::init(vec![]);
    for w in [winfo(3, b"c"), winfo(1, b"a"), winfo(5, b"e"), winfo(2, b"b"), winfo(4, b"d")] {
        rec.on_create(w);
    }
    assert_eq!(ids(&rec), vec![1, 2, 3, 4, 5]);
    let (mut rec, _) = Reconciler::init(vec![]);
    for w in [winfo(5, b"e"), winfo(4, b"d"), winfo(3, b"c"), winfo(2, b"b"), winfo(1, b"a")] {
        rec.on_create(w);
    }
    assert_eq!(ids(&rec), vec![1, 2, 3, 4, 5]);
}

#[test]
fn insertion_follows_the_closest_smaller_id() {
    let (mut rec, _) = Reconciler::init(vec![winfo(1, b"1"), winfo(2, b"2"), winfo(5, b"5")]);
    let sibling = rec.states[1].handle;
    let handle = rec.next_handle;
    // workspace 3 and 4 are absent: 4 goes right after 2, not after "id 3"
    let cmds = rec.on_create(winfo(4, b"4"));
    assert_eq!(ids(&rec), vec![1, 2, 4, 5]);
    assert_eq!(cmds[0], Command::InsertAfter { handle, sibling });
}

#[test]
fn replaying_a_switch_leaves_the_expanded_set_unchanged() {
    let (mut rec, _) = Reconciler::init(vec![winfo(1, b"one"), winfo(2, b"two"), winfo(-97, b"s")]);
    let current = winfo(2, b"two");
    rec.on_workspace_changed(&current);
    let expanded_once: Vec<bool> = rec.states.iter().map(|s| s.expanded).collect();
    rec.on_workspace_changed(&current);
    let expanded_twice: Vec<bool> = rec.states.iter().map(|s| s.expanded).collect();
    assert_eq!(expanded_once, expanded_twice);
    assert_eq!(expanded_once, vec![false, false, true]);
}

#[test]
fn specials_sit_in_front_and_never_expand_on_switches() {
    let (mut rec, _) = Reconciler::init(vec![winfo(1, b"one"), winfo(2, b"two")]);
    rec.on_create(winfo(-98, b"special:term"));
    assert_eq!(ids(&rec), vec![-98, 1, 2]);
    // a workspacev2 naming the special's own record still never expands it
    rec.on_workspace_changed(&winfo(-98, b"special:term"));
    assert!(!rec.states[0].expanded);
    // the special expands and collapses with activespecial alone
    let cmds = match dispatch(&b"activespecial>>special:term,DP-1".to_vec()) {
        Action::SpecialShown(shown) => rec.on_active_special(shown),
        other => panic!("expected a special toggle, got {:?}", other),
    };
    let handle = rec.states[0].handle;
    assert_eq!(cmds, vec![Command::SetExpand { handle, on: true }]);
    assert!(rec.states[0].expanded);
    match dispatch(&b"activespecial>>,DP-1".to_vec()) {
        Action::SpecialShown(shown) => {
            rec.on_active_special(shown);
        },
        other => panic!("expected a special toggle, got {:?}", other),
    }
    assert!(!rec.states[0].expanded);
}

#[test]
fn recreating_a_destroyed_workspace_builds_a_fresh_entity() {
    let (mut rec, _) = Reconciler::init(vec![winfo(1, b"one"), winfo(2, b"two")]);
    rec.on_workspace_changed(&winfo(2, b"two"));
    let old_handle = rec.states[1].handle;
    assert!(rec.states[1].expanded);
    // destroy, then recreate the same key before any animation could settle
    rec.on_destroy(&winfo(2, b"two"));
    rec.on_create(winfo(2, b"two"));
    let fresh = rec.states[1];
    assert_ne!(fresh.handle, old_handle);
    assert!(!fresh.expanded);
    assert!(fresh.slide && fresh.crossfade);
}

#[test]
fn destroying_an_untracked_key_is_a_no_op() {
    let (mut rec, _) = Reconciler::init(vec![winfo(1, b"one")]);
    let cmds = rec.on_destroy(&winfo(9, b"nine"));
    assert_eq!(cmds, vec![]);
    assert_eq!(ids(&rec), vec![1]);
    // same id under another name is another key
    let cmds = rec.on_destroy(&winfo(1, b"renamed"));
    assert_eq!(cmds, vec![]);
    assert_eq!(ids(&rec), vec![1]);
}

#[test]
fn dispatch_maps_lines_to_actions() {
    assert_eq!(dispatch(&b"workspacev2".to_vec()), Action::QueryCurrent);
    assert_eq!(dispatch(&b"workspacev2>>oops".to_vec()), Action::Ignore);
    assert_eq!(dispatch(&b"createworkspacev2>>4,four".to_vec()), Action::Create(winfo(4, b"four")));
    assert_eq!(dispatch(&b"createworkspacev2>>x,four".to_vec()), Action::Ignore);
    assert_eq!(dispatch(&b"destroyworkspacev2>>4,four".to_vec()), Action::Destroy(winfo(4, b"four")));
    assert_eq!(dispatch(&b"openwindow>>0x1,2,class,title".to_vec()), Action::Resync);
    assert_eq!(dispatch(&b"closewindow>>0x1".to_vec()), Action::Resync);
    assert_eq!(dispatch(&b"changefloatingmode>>0x1,1".to_vec()), Action::Resync);
    assert_eq!(dispatch(&b"monitoradded>>DP-1".to_vec()), Action::Ignore);
}
