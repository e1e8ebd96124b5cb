use cull_previews::{
    check_finish, decimal_string, edit_folder, file_actions, join, needs_write, plan_finish,
    CullState, FileAction, FinishError, Image, Timestamp,
};

fn image(path: &str, secs: i64, state: CullState) -> Image {
    Image {
        path: path.to_string(),
        preview_path: String::new(),
        created: Timestamp { secs, nanos: 0 },
        state,
    }
}

#[test]
fn cull_state_defaults_to_new() {
    assert_eq!(CullState::default(), CullState::New);
    assert!(needs_write(CullState::New, CullState::Selected));
    assert!(!needs_write(CullState::Rejected, CullState::Rejected));
}

#[test]
fn decimal_numerals() {
    assert_eq!(decimal_string(0), "0");
    assert_eq!(decimal_string(7), "7");
    assert_eq!(decimal_string(2024), "2024");
    assert_eq!(decimal_string(u32::MAX), "4294967295");
}

#[test]
fn join_components() {
    assert_eq!(join("/edit", "2024"), "/edit/2024");
    assert_eq!(join("/edit/", "2024"), "/edit/2024");
    assert_eq!(join("", "2024"), "2024");
    assert_eq!(join("W:\\Photos\\Edit", "2024"), "W:\\Photos\\Edit\\2024");
}

#[test]
fn edit_folder_layout() {
    assert_eq!(edit_folder("/edit", 2024, 1, "trip"), "/edit/2024/Q1/trip");
    assert_eq!(edit_folder("/edit", 2024, 5, "trip"), "/edit/2024/Q2/trip");
    assert_eq!(edit_folder("/edit", 2023, 12, "x"), "/edit/2023/Q4/x");
    assert_eq!(edit_folder("W:\\Photos\\Edit", 2023, 8, "x"), "W:\\Photos\\Edit\\2023\\Q3\\x");
}

#[test]
fn finish_needs_images() {
    assert!(matches!(check_finish(&vec![]), Err(FinishError::NoImages)));
    assert!(matches!(plan_finish(&vec![], "/edit", "x"), Err(FinishError::NoImages)));
}

#[test]
fn finish_needs_every_disposition() {
    let imgs = vec![image("/d/a.ARW", 1, CullState::Selected), image("/d/b.ARW", 2, CullState::New)];
    assert!(matches!(check_finish(&imgs), Err(FinishError::Unprocessed)));
    assert!(matches!(plan_finish(&imgs, "/edit", "x"), Err(FinishError::Unprocessed)));
}

#[test]
fn finish_plan_moves_and_trashes() {
    // 2023-05-14T12:00:00Z and 2023-06-01T00:00:00Z
    let imgs = vec![
        image("/d/b.ARW", 1685577600, CullState::Rejected),
        image("/d/a.ARW", 1684065600, CullState::Selected),
    ];
    match check_finish(&imgs) {
        Ok(t) => assert_eq!(t, Timestamp { secs: 1684065600, nanos: 0 }),
        Err(_) => panic!("expected the earliest time"),
    }
    let acts = match plan_finish(&imgs, "/edit", "trip") {
        Ok(a) => a,
        Err(_) => panic!("expected a plan"),
    };
    assert_eq!(acts.len(), 2);
    assert!(matches!(&acts[0], FileAction::Trash(p) if p == "/d/b.ARW"));
    assert!(matches!(&acts[1], FileAction::Move { from, to }
        if from == "/d/a.ARW" && to == "/edit/2023/Q2/trip/a.ARW"));
}

#[test]
fn finish_plan_uses_utc_year() {
    // 2021-12-31T23:30:00Z
    let imgs = vec![image("/d/a.ARW", 1640993400, CullState::Selected)];
    let acts = match plan_finish(&imgs, "/edit", "nye") {
        Ok(a) => a,
        Err(_) => panic!("expected a plan"),
    };
    assert!(matches!(&acts[0], FileAction::Move { to, .. } if to == "/edit/2021/Q4/nye/a.ARW"));
}

#[test]
fn finish_plan_rejects_nameless_selected() {
    let imgs = vec![image("/d/..", 1, CullState::Selected)];
    match file_actions(&imgs, "/edit") {
        Err(p) => assert_eq!(p, "/d/.."),
        Ok(_) => panic!("expected an invalid file name"),
    }
    assert!(matches!(plan_finish(&imgs, "/edit", "x"), Err(FinishError::InvalidFilename(p)) if p == "/d/.."));
}

#[test]
fn finish_plan_rejects_out_of_range_time() {
    let imgs = vec![image("/d/a.ARW", i64::MIN, CullState::Rejected)];
    assert!(matches!(plan_finish(&imgs, "/edit", "x"), Err(FinishError::InvalidDate)));
}

#[test]
fn finish_plan_at_range_edges() {
    let imgs = vec![image("/d/a.ARW", 8_000_000_000_000, CullState::Rejected)];
    assert!(matches!(plan_finish(&imgs, "/edit", "x"), Ok(_)));
    let imgs = vec![image("/d/a.ARW", -8_000_000_000_000, CullState::Rejected)];
    assert!(matches!(plan_finish(&imgs, "/edit", "x"), Err(FinishError::InvalidDate)));
}
