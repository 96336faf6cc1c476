use win_widgets::protocol::{protocol_relative_path, widget_protocol_response, FileLookup};

#[test]
fn request_paths_lose_leading_slashes() {
    assert_eq!(protocol_relative_path("///me/clock/index.html"), "me/clock/index.html");
    assert_eq!(protocol_relative_path("a/"), "a/");
    assert_eq!(protocol_relative_path(""), "");
}

#[test]
fn missing_file_is_not_found() {
    let r = widget_protocol_response("/w/a.html", FileLookup::Missing);
    assert_eq!(r.status, 404);
    assert_eq!(r.content_type, None);
    assert!(r.body.is_empty());
}

#[test]
fn unreadable_file_is_server_error() {
    let r = widget_protocol_response("/w/a.html", FileLookup::Unreadable("denied".to_string()));
    assert_eq!(r.status, 500);
    assert_eq!(r.content_type, None);
    assert!(r.body.is_empty());
}

#[test]
fn file_is_served_with_its_media_type() {
    let r = widget_protocol_response("/w/index.html", FileLookup::Contents(vec![1, 2, 3]));
    assert_eq!(r.status, 200);
    assert_eq!(r.content_type, Some("text/html".to_string()));
    assert_eq!(r.body, vec![1, 2, 3]);
    let r = widget_protocol_response("/w/style.CSS", FileLookup::Contents(vec![]));
    assert_eq!(r.content_type, Some("text/css".to_string()));
    let r = widget_protocol_response("/w/data", FileLookup::Contents(vec![]));
    assert_eq!(r.content_type, Some("application/octet-stream".to_string()));
}
