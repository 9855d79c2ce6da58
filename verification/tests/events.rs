use hyprbar::events::{classify, first_field, parse_i32, parse_id_name, split_event, two_fields, EventKind};

#[test]
fn splits_name_and_payload() {
    let line = b"workspacev2>>3,three".to_vec();
    let (name, payload) = split_event(&line);
    assert_eq!(name, b"workspacev2".to_vec());
    assert_eq!(payload, Some(b"3,three".to_vec()));
}

#[test]
fn line_without_separator_has_no_payload() {
    let line = b"workspacev2".to_vec();
    let (name, payload) = split_event(&line);
    assert_eq!(name, b"workspacev2".to_vec());
    assert_eq!(payload, None);
}

#[test]
fn splits_at_first_separator_only() {
    let line = b"a>>b>>c".to_vec();
    let (name, payload) = split_event(&line);
    assert_eq!(name, b"a".to_vec());
    assert_eq!(payload, Some(b"b>>c".to_vec()));
}

#[test]
fn classifies_known_names() {
    assert_eq!(classify(&b"workspacev2".to_vec()), EventKind::WorkspaceChanged);
    assert_eq!(classify(&b"createworkspacev2".to_vec()), EventKind::WorkspaceCreated);
    assert_eq!(classify(&b"destroyworkspacev2".to_vec()), EventKind::WorkspaceDestroyed);
    assert_eq!(classify(&b"activespecial".to_vec()), EventKind::ActiveSpecial);
    assert_eq!(classify(&b"openwindow".to_vec()), EventKind::WindowOpened);
    assert_eq!(classify(&b"closewindow".to_vec()), EventKind::WindowClosed);
    assert_eq!(classify(&b"changefloatingmode".to_vec()), EventKind::FloatingChanged);
}

#[test]
fn unrecognized_names_are_other() {
    assert_eq!(classify(&b"monitoradded".to_vec()), EventKind::Other);
    assert_eq!(classify(&b"workspacev22".to_vec()), EventKind::Other);
    assert_eq!(classify(&b"".to_vec()), EventKind::Other);
}

#[test]
fn parses_plain_integers() {
    assert_eq!(parse_i32(&b"0".to_vec()), Some(0));
    assert_eq!(parse_i32(&b"42".to_vec()), Some(42));
    assert_eq!(parse_i32(&b"-7".to_vec()), Some(-7));
    assert_eq!(parse_i32(&b"+5".to_vec()), Some(5));
    assert_eq!(parse_i32(&b"007".to_vec()), Some(7));
}

#[test]
fn parses_extreme_integers() {
    assert_eq!(parse_i32(&b"2147483647".to_vec()), Some(i32::MAX));
    assert_eq!(parse_i32(&b"-2147483648".to_vec()), Some(i32::MIN));
    assert_eq!(parse_i32(&b"2147483648".to_vec()), None);
    assert_eq!(parse_i32(&b"-2147483649".to_vec()), None);
    assert_eq!(parse_i32(&b"99999999999999999999".to_vec()), None);
}

#[test]
fn rejects_malformed_integers() {
    assert_eq!(parse_i32(&b"".to_vec()), None);
    assert_eq!(parse_i32(&b"-".to_vec()), None);
    assert_eq!(parse_i32(&b"+".to_vec()), None);
    assert_eq!(parse_i32(&b"1a".to_vec()), None);
    assert_eq!(parse_i32(&b" 1".to_vec()), None);
    assert_eq!(parse_i32(&b"1.5".to_vec()), None);
}

#[test]
fn payload_fields_split_on_commas() {
    let r = two_fields(&b"3,three".to_vec()).unwrap();
    assert_eq!(r.0, b"3".to_vec());
    assert_eq!(r.1, b"three".to_vec());
    let r = two_fields(&b"3,three,extra".to_vec()).unwrap();
    assert_eq!(r.1, b"three".to_vec());
    assert_eq!(two_fields(&b"3".to_vec()), None);
}

#[test]
fn first_field_takes_whole_payload_without_comma() {
    assert_eq!(first_field(&b"special:x".to_vec()), b"special:x".to_vec());
    assert_eq!(first_field(&b"special,DP-1".to_vec()), b"special".to_vec());
    assert_eq!(first_field(&b",DP-1".to_vec()), b"".to_vec());
}

#[test]
fn parses_workspace_payload() {
    let w = parse_id_name(&b"3,three".to_vec()).unwrap();
    assert_eq!(w.id, 3);
    assert_eq!(w.name, b"three".to_vec());
    let w = parse_id_name(&b"-98,special:term".to_vec()).unwrap();
    assert_eq!(w.id, -98);
    assert_eq!(parse_id_name(&b"x,three".to_vec()), None);
    assert_eq!(parse_id_name(&b"3".to_vec()), None);
}
