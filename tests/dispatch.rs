use cull_previews::{
    conversion_args, open_images, pool_size, registrations, schedule_order, sort_by_created,
    worker_count, CullState, Image, OpenError, Timestamp, RESERVED_CORES,
};

fn image(name: &str, secs: i64, nanos: u32) -> Image {
    Image {
        path: format!("/d/{}.ARW", name),
        preview_path: format!("/d/_cull/{}.webp", name),
        created: Timestamp { secs, nanos },
        state: CullState::New,
    }
}

#[test]
fn pool_size_leaves_three_cores() {
    assert_eq!(RESERVED_CORES, 3);
    assert_eq!(pool_size(0), 1);
    assert_eq!(pool_size(1), 1);
    assert_eq!(pool_size(3), 1);
    assert_eq!(pool_size(4), 1);
    assert_eq!(pool_size(5), 2);
    assert_eq!(pool_size(16), 13);
}

#[test]
fn worker_count_is_positive() {
    let n = worker_count();
    assert!(n >= 1);
    assert_eq!(n, pool_size(num_cpus::get_physical()));
}

#[test]
fn schedule_last_first() {
    assert_eq!(schedule_order(vec![1, 2, 3, 4]), vec![4, 1, 2, 3]);
    assert_eq!(schedule_order(vec![9]), vec![9]);
    assert_eq!(schedule_order(Vec::<u8>::new()), Vec::<u8>::new());
}

#[test]
fn conversion_arguments() {
    assert_eq!(
        conversion_args("/d/a.ARW", "/d/_cull/a.webp"),
        vec!["/d/a.ARW", "-auto-orient", "-resize", "2000x1400>", "-limit", "thread", "1", "/d/_cull/a.webp"]
    );
}

#[test]
fn registrations_split_by_existence() {
    let imgs = vec![image("a", 1, 0), image("b", 2, 0), image("c", 3, 0)];
    let (pending, ready) = registrations(&imgs, &vec![false, true, false]);
    assert_eq!(pending, vec!["/d/_cull/a.webp", "/d/_cull/c.webp"]);
    assert_eq!(ready, vec!["/d/_cull/b.webp"]);
}

#[test]
fn sort_orders_by_creation() {
    let imgs = vec![image("c", 30, 0), image("a", 10, 5), image("b", 10, 7), image("z", -4, 0)];
    let sorted = sort_by_created(imgs);
    let names: Vec<&str> = sorted.iter().map(|i| i.path.as_str()).collect();
    assert_eq!(names, vec!["/d/z.ARW", "/d/a.ARW", "/d/b.ARW", "/d/c.ARW"]);
}

#[test]
fn open_empty_directory_fails() {
    assert_eq!(open_images(vec![]).err(), Some(OpenError::NoImages));
    let opened = open_images(vec![image("b", 2, 0), image("a", 1, 0)]).ok().unwrap();
    assert_eq!(opened[0].path, "/d/a.ARW");
    assert_eq!(opened.len(), 2);
}

#[test]
fn sort_keeps_order_of_equal_times() {
    let imgs = vec![image("b", 5, 0), image("a", 5, 0), image("c", 1, 0), image("d", 5, 0)];
    let sorted = sort_by_created(imgs);
    let names: Vec<&str> = sorted.iter().map(|i| i.path.as_str()).collect();
    assert_eq!(names, vec!["/d/c.ARW", "/d/b.ARW", "/d/a.ARW", "/d/d.ARW"]);
}
