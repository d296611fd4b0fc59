use storage_index::router::{extract_route, route_from_normalized, Route};

#[test]
fn file() {
    assert!(matches!(extract_route("/files/78278371289379212398"), Route::File(_)));
}

#[test]
fn logs() {
    assert!(matches!(extract_route("/logs/1633649663014109000"), Route::Logs(_)));
}

#[test]
fn other() {
    assert!(matches!(extract_route("blah"), Route::Other));
}

#[test]
fn file_id_is_parsed_exactly() {
    assert_eq!(extract_route("/files/78278371289379212398"), Route::File(78278371289379212398));
    assert_eq!(extract_route("blobs/12/"), Route::File(12));
    assert_eq!(extract_route("/files/+7"), Route::File(7));
}

#[test]
fn file_without_id_or_with_bad_id_is_other() {
    assert_eq!(extract_route("/files"), Route::Other);
    assert_eq!(extract_route("/files/"), Route::Other);
    assert_eq!(extract_route("/files/12a"), Route::Other);
    assert_eq!(extract_route("/files/-1"), Route::Other);
    assert_eq!(extract_route("/files/+"), Route::Other);
    assert_eq!(extract_route("/files/340282366920938463463374607431768211456"), Route::Other);
    assert_eq!(extract_route("/files/340282366920938463463374607431768211455"), Route::File(u128::MAX));
}

#[test]
fn logs_and_traces_take_an_optional_timestamp() {
    assert_eq!(extract_route("/logs/1633649663014109000"), Route::Logs(Some(1633649663014109000)));
    assert_eq!(extract_route("/logs"), Route::Logs(None));
    assert_eq!(extract_route("/logs/soon"), Route::Logs(None));
    assert_eq!(extract_route("/logs/18446744073709551616"), Route::Logs(None));
    assert_eq!(extract_route("/trace/5/extra"), Route::Traces(Some(5)));
    assert_eq!(extract_route("/TRACE"), Route::Traces(None));
}

#[test]
fn path_is_trimmed_and_lower_cased() {
    assert_eq!(extract_route("///METRICS///"), Route::Metrics);
    assert_eq!(extract_route("/Files/3"), Route::File(3));
    assert_eq!(extract_route("/"), Route::Other);
    assert_eq!(extract_route(""), Route::Other);
    assert_eq!(extract_route("/metrics/x"), Route::Metrics);
}

#[test]
fn normalized_path_is_read_as_is() {
    assert_eq!(route_from_normalized("METRICS"), Route::Other);
    assert_eq!(route_from_normalized("metrics"), Route::Metrics);
    assert_eq!(route_from_normalized("/logs"), Route::Other);
}

#[test]
fn ascii_paths_ignore_case_and_surrounding_slashes() {
    for p in ["files/12", "Logs/77", "trace", "metrics/x", "blah", "", "/", "blobs/+5/", "FILES/9a"] {
        let base = extract_route(p);
        assert_eq!(extract_route(&p.to_ascii_uppercase()), base);
        assert_eq!(extract_route(&format!("{}{}{}", "/".repeat(3), p, "/".repeat(2))), base);
        assert_eq!(extract_route(&format!("/{}", p.to_ascii_lowercase())), base);
    }
}
