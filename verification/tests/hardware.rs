use charge_overview::hardware::{
    base_url, check_address, check_response, clear_calibration, detect_api, ensure_device_name,
    events_url, set_sensitivity, settings_for_clear_calibration, settings_for_sensitivity,
    settings_url, FieldPost, FrontEndApi, FrontEndRequest, FrontEndSettings, NameAction, PostRun,
};

fn posts(request: FrontEndRequest) -> Vec<(String, String)> {
    match request {
        FrontEndRequest::Http(list) => list.into_iter().map(|p| (p.url, p.value)).collect(),
        FrontEndRequest::Legacy { .. } => panic!("expected posts"),
    }
}

#[test]
fn per_field_posts_land_with_enum_string_bodies() {
    let list = posts(clear_calibration("box", 3, FrontEndApi::Http).unwrap());
    assert_eq!(
        list,
        vec![
            ("http://box:56000/settings/io/input".to_string(), "EXT".to_string()),
            ("http://box:56000/settings/integrator".to_string(), "FB3".to_string()),
        ]
    );
    let list = posts(set_sensitivity("box", 4, FrontEndApi::Http).unwrap());
    assert_eq!(
        list,
        vec![("http://box:56000/settings/integrator".to_string(), "FB4".to_string())]
    );
}

fn clearing() -> PostRun {
    match clear_calibration("box", 3, FrontEndApi::Http).unwrap() {
        FrontEndRequest::Http(list) => PostRun::begin(list),
        FrontEndRequest::Legacy { .. } => panic!("expected posts"),
    }
}

fn value(post: Option<&FieldPost>) -> Option<String> {
    post.map(|p| p.value.clone())
}

#[test]
fn first_post_that_fails_ends_a_request() {
    let mut run = clearing();
    assert_eq!(value(run.next_post()), Some("EXT".to_string()));
    assert_eq!(run.posted(Err("down".to_string())), Some(Err("down".to_string())));
    assert!(run.next_post().is_none());

    let mut run = clearing();
    assert_eq!(run.posted(Ok(())), None);
    assert_eq!(value(run.next_post()), Some("FB3".to_string()));
    assert_eq!(run.posted(Err("late".to_string())), Some(Err("late".to_string())));
    assert!(run.next_post().is_none());

    let mut run = clearing();
    assert_eq!(run.posted(Ok(())), None);
    assert_eq!(run.posted(Ok(())), Some(Ok(())));
    assert!(run.next_post().is_none());
    assert!(PostRun::begin(Vec::new()).next_post().is_none());
}

#[test]
fn sets_name_only_when_box_has_none() {
    let settings = r#"{"integrator":"FB5","meta":{"device_name":""}}"#;
    match ensure_device_name(settings, "CLA-DEV-01") {
        NameAction::Write(body) => {
            let v: serde_json::Value = serde_json::from_str(&body).unwrap();
            assert_eq!(v["meta"]["device_name"], "CLA-DEV-01");
            assert_eq!(v["integrator"], "FB5");
            // Asked again, the box keeps its name.
            assert!(matches!(ensure_device_name(&body, "OTHER"), NameAction::Keep));
        }
        other => panic!("expected a write, got {other:?}"),
    }
    let settings = r#"{"integrator":"FB5","meta":{"device_name":"EXISTING"}}"#;
    assert!(matches!(ensure_device_name(settings, "CLA-DEV-01"), NameAction::Keep));
}

#[test]
fn naming_a_box_keeps_its_other_settings() {
    let settings = r#"{"integrator":"FB5","io":{"input":"EXT","list":[1,2.5,true,null]},
        "meta":{"device_name":"","device_location":"hall","last_changed":[3,4]},"a/b":"c~d"}"#;
    let mut expected: serde_json::Value = serde_json::from_str(settings).unwrap();
    expected["meta"]["device_name"] = serde_json::Value::String("N".to_string());
    match ensure_device_name(settings, "N") {
        NameAction::Write(body) => {
            let v: serde_json::Value = serde_json::from_str(&body).unwrap();
            assert_eq!(v, expected);
        }
        other => panic!("expected a write, got {other:?}"),
    }
}

#[test]
fn names_are_written_where_none_can_be_read() {
    for settings in ["{}", r#"{"meta":null}"#, r#"{"meta":{"device_name":7}}"#, "null"] {
        match ensure_device_name(settings, "N") {
            NameAction::Write(body) => {
                let v: serde_json::Value = serde_json::from_str(&body).unwrap();
                assert_eq!(v["meta"]["device_name"], "N");
            }
            other => panic!("expected a write for {settings}, got {other:?}"),
        }
    }
    for settings in ["[]", "7", r#"{"meta":"x"}"#, "not json"] {
        assert!(matches!(ensure_device_name(settings, "N"), NameAction::Refuse), "{settings}");
    }
}

#[test]
fn non_success_status_surfaces_body_as_error() {
    let err = check_response(
        "http://box:56000/settings/bad",
        400,
        "400 Bad Request",
        "Offset must be at least 1",
    )
    .unwrap_err();
    assert!(err.contains("400"), "{err}");
    assert!(err.contains("Offset must be at least 1"), "{err}");
    assert_eq!(
        err,
        "http://box:56000/settings/bad returned 400 Bad Request: Offset must be at least 1"
    );
    assert_eq!(check_response("u", 204, "204 No Content", ""), Ok(()));
    assert!(check_response("u", 199, "", "").is_err());
    assert!(check_response("u", 300, "", "").is_err());
}

#[test]
fn detects_http_rest_box() {
    assert_eq!(detect_api(Some(200)), FrontEndApi::Http);
    assert_eq!(detect_api(Some(299)), FrontEndApi::Http);
    assert_eq!(detect_api(Some(404)), FrontEndApi::Legacy);
}

#[test]
fn detects_legacy_and_sends_json_blob() {
    assert_eq!(detect_api(None), FrontEndApi::Legacy);
    match set_sensitivity("10.0.0.9", 3, FrontEndApi::Legacy).unwrap() {
        FrontEndRequest::Legacy { address, settings } => {
            assert_eq!(address, "10.0.0.9:56000");
            assert_eq!(settings.integrator, "FB3");
            assert_eq!(settings.io.input, "EXT");
        }
        FrontEndRequest::Http(_) => panic!("expected a line of settings"),
    }
}

#[test]
fn devices_without_a_box_are_refused() {
    let error = "No IP address configured for device".to_string();
    assert_eq!(check_address(""), Err(error.clone()));
    assert_eq!(set_sensitivity("", 1, FrontEndApi::Http).unwrap_err(), error);
    assert_eq!(clear_calibration("", 1, FrontEndApi::Legacy).unwrap_err(), error);
}

#[test]
fn old_boxes_get_normal_settings() {
    let normal = FrontEndSettings::default();
    assert_eq!(normal.integrator, "FB0");
    assert_eq!(normal.calibration.reference, "REF2048mV");
    assert_eq!(normal.calibration.level, 128);
    assert_eq!(normal.calibration.trigger, 1);
    assert_eq!(normal.calibration.offset, 1);
    assert_eq!(normal.io.output, "TERM");
    assert_eq!(normal.io.reference, "REF500mV");
    assert!(normal.power.positive && normal.power.negative && normal.power.integrator);
    assert_eq!(normal.meta.last_changed, [0, 0]);
    assert_eq!(normal.meta.device_name, "");
    assert_eq!(normal.meta.device_location, "");
    assert_eq!(settings_for_sensitivity(5).integrator, "FB5");
    let cleared = settings_for_clear_calibration(2);
    assert_eq!(cleared.integrator, "FB2");
    assert_eq!(cleared.io.input, "EXT");
}

#[test]
fn addresses_of_a_box() {
    assert_eq!(base_url("192.168.114.14"), "http://192.168.114.14:56000");
    assert_eq!(settings_url("http://b:1"), "http://b:1/settings");
    assert_eq!(events_url("10.0.0.1"), "http://10.0.0.1:56000/events");
}
