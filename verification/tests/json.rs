use hyprbar::json::{parse_clients, parse_workspace, parse_workspaces};
use hyprbar::model::{Client, WorkspaceInfo};

fn winfo(id: i32, name: &[u8]) -> WorkspaceInfo {
    WorkspaceInfo { id, name: name.to_vec() }
}

#[test]
fn parses_compact_workspace_listing() {
    let doc = br#"[{"id":1,"name":"1"},{"id":2,"name":"2"}]"#.to_vec();
    let r = parse_workspaces(&doc).unwrap();
    assert_eq!(r, vec![winfo(1, b"1"), winfo(2, b"2")]);
}

#[test]
fn parses_single_workspace_record() {
    let doc = br#"{"id":1,"name":"1"}"#.to_vec();
    assert_eq!(parse_workspace(&doc), Some(winfo(1, b"1")));
}

#[test]
fn parses_pretty_printed_records_with_extra_fields() {
    let doc = br#"
    [{
        "id": 2,
        "name": "web",
        "monitor": "DP-1",
        "monitorID": 0,
        "windows": 3,
        "hasfullscreen": false,
        "lastwindow": "0x55d2",
        "lastwindowtitle": "browser"
    }]
    "#
    .to_vec();
    assert_eq!(parse_workspaces(&doc), Some(vec![winfo(2, b"web")]));
}

#[test]
fn parses_negative_and_empty_listing() {
    let doc = br#"[{"id":-98,"name":"special:term"}]"#.to_vec();
    assert_eq!(parse_workspaces(&doc), Some(vec![winfo(-98, b"special:term")]));
    assert_eq!(parse_workspaces(&b"[]".to_vec()), Some(vec![]));
}

#[test]
fn last_field_occurrence_wins() {
    let doc = br#"{"id":1,"name":"a","name":"b"}"#.to_vec();
    assert_eq!(parse_workspace(&doc), Some(winfo(1, b"b")));
}

#[test]
fn decodes_string_escapes_and_keeps_raw_unicode() {
    let doc = "{\"id\":7,\"name\":\"a\\\"b\\\\c\\nd\"}".as_bytes().to_vec();
    assert_eq!(parse_workspace(&doc), Some(winfo(7, b"a\"b\\c\nd")));
    let doc = "{\"id\":8,\"name\":\"caf\u{e9}\"}".as_bytes().to_vec();
    assert_eq!(parse_workspace(&doc), Some(winfo(8, "caf\u{e9}".as_bytes())));
}

#[test]
fn rejects_malformed_workspace_documents() {
    assert_eq!(parse_workspace(&b"".to_vec()), None);
    assert_eq!(parse_workspace(&br#"{"id":1}"#.to_vec()), None);
    assert_eq!(parse_workspace(&br#"{"name":"1"}"#.to_vec()), None);
    assert_eq!(parse_workspace(&br#"{"id":1.5,"name":"1"}"#.to_vec()), None);
    assert_eq!(parse_workspace(&br#"{"id":"1","name":"1"}"#.to_vec()), None);
    assert_eq!(parse_workspace(&br#"{"id":1,"name":"1"}x"#.to_vec()), None);
    assert_eq!(parse_workspace(&br#"{"id":1,"name":1}"#.to_vec()), None);
    assert_eq!(parse_workspace(&br#"{"id":2147483648,"name":"1"}"#.to_vec()), None);
    assert_eq!(parse_workspaces(&br#"[{"id":1,"name":"1"},]"#.to_vec()), None);
    assert_eq!(parse_workspaces(&br#"{"id":1,"name":"1"}"#.to_vec()), None);
}

#[test]
fn parses_client_listing_with_nested_values() {
    let doc = br#"
    [{
        "address": "0x55d2",
        "at": [10, 20],
        "size": [800, 600],
        "workspace": {"id": 1, "name": "1"},
        "floating": false,
        "hidden": false,
        "grouped": [],
        "tags": ["music"],
        "alpha": 1.0,
        "parent": null
    },
    {
        "workspace": {"id": 2, "name": "2"},
        "hidden": true,
        "floating": false
    }]
    "#
    .to_vec();
    let r = parse_clients(&doc).unwrap();
    assert_eq!(
        r,
        vec![
            Client { workspace: winfo(1, b"1"), hidden: false, floating: false },
            Client { workspace: winfo(2, b"2"), hidden: true, floating: false },
        ]
    );
}

#[test]
fn rejects_malformed_client_documents() {
    let doc = br#"[{"workspace": {"id":1,"name":"1"}, "hidden": false}]"#.to_vec();
    assert_eq!(parse_clients(&doc), None);
    let doc = br#"[{"workspace": {"id":1,"name":"1"}, "hidden": 0, "floating": false}]"#.to_vec();
    assert_eq!(parse_clients(&doc), None);
    let doc = br#"[{"workspace": 1, "hidden": false, "floating": false}]"#.to_vec();
    assert_eq!(parse_clients(&doc), None);
}
