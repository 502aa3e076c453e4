use rusbee::client::{endpoint, endpoint_from, path_segments, EndpointError};

#[test]
fn endpoint_appends_the_path_to_the_server() {
    assert_eq!(
        endpoint("http://192.168.1.50:7878", "device/list").unwrap(),
        "http://192.168.1.50:7878/device/list"
    );
}

#[test]
fn endpoint_replaces_the_server_path() {
    assert_eq!(
        endpoint("http://workbench.local:7878/api/v1/", "device/bind").unwrap(),
        "http://workbench.local:7878/device/bind"
    );
}

#[test]
fn endpoint_keeps_query_of_the_server_url() {
    assert_eq!(
        endpoint("https://host/base?x=1", "device/unbind").unwrap(),
        "https://host/device/unbind?x=1"
    );
}

#[test]
fn endpoint_rejects_what_is_not_a_url() {
    let error = endpoint("workbench.local", "device/list").unwrap_err();
    assert_eq!(
        error,
        EndpointError::InvalidUrl { reason: "relative URL without a base".to_string() }
    );
    assert_eq!(error.message(), "server must be a valid http URL");
}

#[test]
fn endpoint_rejects_a_url_that_cannot_be_a_base() {
    let error = endpoint("mailto:admin@example.com", "device/list").unwrap_err();
    assert_eq!(error, EndpointError::CannotBeABase);
    assert_eq!(error.message(), "server URL cannot be a base URL");
}

#[test]
fn endpoint_from_maps_each_outcome() {
    assert_eq!(endpoint_from(Ok(Some("http://h/x".to_string()))).unwrap(), "http://h/x");
    assert_eq!(endpoint_from(Ok(None)).unwrap_err(), EndpointError::CannotBeABase);
    assert_eq!(
        endpoint_from(Err("bad".to_string())).unwrap_err(),
        EndpointError::InvalidUrl { reason: "bad".to_string() }
    );
}

#[test]
fn path_segments_split_on_slashes() {
    assert_eq!(path_segments("device/list"), vec!["device", "list"]);
    assert_eq!(path_segments(""), vec![""]);
    assert_eq!(path_segments("/a//b"), vec!["", "a", "", "b"]);
}
