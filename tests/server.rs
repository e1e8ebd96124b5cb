use cull_previews::{
    immediate_status, serve_step, stream_status, uptime_unit, Lookup, QueryParams, ServeStep, UptimeUnit,
    PREVIEW_CONTENT_TYPE, STATUS_NOT_FOUND, STATUS_OK, STATUS_SERVER_ERROR,
};

#[test]
fn serve_steps_follow_lookup() {
    assert!(matches!(serve_step(Lookup::NotTracked), ServeStep::NotFound));
    assert!(matches!(serve_step(Lookup::Pending(4)), ServeStep::Wait(4)));
    assert!(matches!(serve_step(Lookup::ReadyNow), ServeStep::Stream));
    assert!(matches!(serve_step(Lookup::Failed("x".to_string())), ServeStep::Fail(r) if r == "x"));
}

#[test]
fn stream_statuses() {
    assert_eq!(stream_status(true), STATUS_OK);
    assert_eq!(stream_status(false), STATUS_NOT_FOUND);
    assert_eq!((STATUS_OK, STATUS_NOT_FOUND, STATUS_SERVER_ERROR), (200, 404, 500));
    assert_eq!(PREVIEW_CONTENT_TYPE, "image/webp");
}

#[test]
fn uptime_units() {
    assert_eq!(uptime_unit(0), UptimeUnit::Second);
    assert_eq!(uptime_unit(60), UptimeUnit::Second);
    assert_eq!(uptime_unit(61), UptimeUnit::Minute);
    assert_eq!(uptime_unit(3600), UptimeUnit::Minute);
    assert_eq!(uptime_unit(3601), UptimeUnit::Hour);
    assert_eq!(UptimeUnit::Minute.name(), "minute");
    assert_eq!(UptimeUnit::Hour.seconds(), 3600);
}

#[test]
fn query_params_hold_path() {
    let q = QueryParams { path: "/d/_cull/a.webp".to_string() };
    assert_eq!(q.path, "/d/_cull/a.webp");
}

#[test]
fn immediate_statuses() {
    assert_eq!(immediate_status(&ServeStep::NotFound), Some(404));
    assert_eq!(immediate_status(&ServeStep::Fail("x".to_string())), Some(500));
    assert_eq!(immediate_status(&ServeStep::Wait(1)), None);
    assert_eq!(immediate_status(&ServeStep::Stream), None);
}
