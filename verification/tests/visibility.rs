use hyprbar::json::parse_clients;
use hyprbar::model::{Client, WorkspaceInfo};
use hyprbar::visibility::{vis_dispatch, VisAction, Visibility};

fn winfo(id: i32, name: &[u8]) -> WorkspaceInfo {
    WorkspaceInfo { id, name: name.to_vec() }
}

fn client(id: i32, name: &[u8], hidden: bool, floating: bool) -> Client {
    Client { workspace: winfo(id, name), hidden, floating }
}

#[test]
fn scenario_failed_client_query_keeps_the_previous_signal() {
    let mut vis = Visibility::new();
    let published = vis.apply(
        Some(vec![client(1, b"1", false, false)]),
        Some(winfo(1, b"1")),
    );
    assert_eq!(published, Some(true));
    assert_eq!(vis.last, Some(true));
    // an openwindow arrives but the client query fails: nothing is published
    assert_eq!(vis_dispatch(&b"openwindow>>0x1,1,class,title".to_vec()), VisAction::Resync);
    let published = vis.apply(None, Some(winfo(1, b"1")));
    assert_eq!(published, None);
    assert_eq!(vis.last, Some(true));
}

#[test]
fn counts_only_tiled_unhidden_clients_of_the_current_workspace() {
    let mut vis = Visibility::new();
    let clients = vec![
        client(1, b"1", true, false),   // hidden
        client(1, b"1", false, true),   // floating
        client(2, b"2", false, false),  // other workspace
    ];
    assert_eq!(vis.apply(Some(clients), Some(winfo(1, b"1"))), Some(false));
    let clients = vec![client(1, b"1", false, false), client(1, b"1", true, true)];
    assert_eq!(vis.apply(Some(clients), Some(winfo(1, b"1"))), Some(true));
}

#[test]
fn missing_current_workspace_abandons_the_step() {
    let mut vis = Visibility::new();
    assert_eq!(vis.apply(Some(vec![client(1, b"1", false, false)]), None), None);
    assert_eq!(vis.last, None);
}

#[test]
fn visibility_runs_from_a_parsed_client_listing() {
    let doc = br#"[
        {"workspace": {"id": 1, "name": "1"}, "hidden": false, "floating": false},
        {"workspace": {"id": 2, "name": "2"}, "hidden": false, "floating": false}
    ]"#
    .to_vec();
    let clients = parse_clients(&doc);
    let mut vis = Visibility::new();
    assert_eq!(vis.apply(clients, Some(winfo(3, b"3"))), Some(false));
}

#[test]
fn dispatch_prefers_the_payload_embedded_workspace() {
    assert_eq!(
        vis_dispatch(&b"workspacev2>>3,three".to_vec()),
        VisAction::ResyncWith(winfo(3, b"three"))
    );
    assert_eq!(vis_dispatch(&b"workspacev2".to_vec()), VisAction::Resync);
    assert_eq!(vis_dispatch(&b"workspacev2>>zzz".to_vec()), VisAction::Ignore);
    assert_eq!(vis_dispatch(&b"closewindow>>0x1".to_vec()), VisAction::Resync);
    assert_eq!(vis_dispatch(&b"createworkspacev2>>4,four".to_vec()), VisAction::Ignore);
    assert_eq!(vis_dispatch(&b"activespecial>>x,DP-1".to_vec()), VisAction::Ignore);
}
