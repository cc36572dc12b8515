use winproc::elevation::{
    ElevationResponse, parse_elevation_output, elevation_verdict, classify_elevation_response,
};

#[test]
fn elevation_true_output() {
    assert!(parse_elevation_output("True\r\n"));
    assert!(parse_elevation_output("  true  "));
}

#[test]
fn elevation_false_output() {
    assert!(!parse_elevation_output("False\r\n"));
    assert!(!parse_elevation_output(""));
    assert!(!parse_elevation_output("garbage"));
}

#[test]
fn elevation_query_against_exiting_pid_returns_false() {
    // A pid that exits mid-query makes the probe print its fallback text
    // or fail outright; either way the verdict is false, never an error.
    assert!(!elevation_verdict(true, "False"));
    assert!(!elevation_verdict(false, "True"));
    assert!(!elevation_verdict(false, ""));
}

#[test]
fn elevation_verdict_affirms_only_clear_yes() {
    assert!(elevation_verdict(true, "True\r\n"));
    assert!(!elevation_verdict(true, "Truthy"));
}

#[test]
fn elevation_request_started() {
    let r = classify_elevation_response("Success\r\n");
    assert!(matches!(r, ElevationResponse::Started));
}

#[test]
fn elevation_request_denied() {
    let r = classify_elevation_response("Failed: The operation was canceled by the user.");
    assert!(matches!(r, ElevationResponse::Denied));
    let r = classify_elevation_response("Failed: access denied for this request");
    assert!(matches!(r, ElevationResponse::Denied));
}

#[test]
fn elevation_request_failure_keeps_text() {
    let r = classify_elevation_response("Failed: something odd\r\n");
    match r {
        ElevationResponse::Failed(m) => assert_eq!(m, "Failed: something odd"),
        other => panic!("expected a failure, got {:?}", other),
    }
}
