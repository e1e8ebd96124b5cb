use cull_previews::{file_name, get_preview_path, preview_path_in, sidecar_path, PreviewDir};

#[test]
fn preview_path_of_raw_file() {
    assert_eq!(
        preview_path_in("/photos/100MSDCF/DSC001.ARW", PreviewDir::Preview).as_deref(),
        Some("/photos/100MSDCF/_preview/DSC001.webp")
    );
    assert_eq!(
        preview_path_in("/photos/100MSDCF/DSC001.ARW", PreviewDir::Cull).as_deref(),
        Some("/photos/100MSDCF/_cull/DSC001.webp")
    );
}

#[test]
fn preview_path_ignores_extension_and_case() {
    for ext in ["ARW", "arw", "Arw", "jpg", "JPG", "jpeg", "JPEG", "png", "PNG"] {
        let src = format!("/photos/100MSDCF/DSC001.{}", ext);
        assert_eq!(
            get_preview_path(&src).as_deref(),
            Some("/photos/100MSDCF/_cull/DSC001.webp"),
            "extension {}",
            ext
        );
    }
}

#[test]
fn preview_path_edge_names() {
    assert_eq!(get_preview_path("DSC001.ARW").as_deref(), Some("_cull/DSC001.webp"));
    assert_eq!(get_preview_path("/DSC001.ARW").as_deref(), Some("/_cull/DSC001.webp"));
    assert_eq!(get_preview_path("/a/b.c.ARW").as_deref(), Some("/a/_cull/b.c.webp"));
    assert_eq!(get_preview_path("/a/noext").as_deref(), Some("/a/_cull/noext.webp"));
    assert_eq!(get_preview_path("/a/.hidden").as_deref(), Some("/a/_cull/.hidden.webp"));
    assert_eq!(get_preview_path("/a/trail."), Some("/a/_cull/trail.webp".to_string()));
    assert_eq!(get_preview_path("/a/").as_deref(), Some("/_cull/a.webp"));
    assert_eq!(get_preview_path(""), None);
    assert_eq!(get_preview_path("/"), None);
    assert_eq!(get_preview_path("."), None);
    assert_eq!(get_preview_path("./"), None);
    assert_eq!(get_preview_path("a/.."), None);
    assert_eq!(get_preview_path("/a/.."), None);
    assert_eq!(get_preview_path("/a/.").as_deref(), Some("/_cull/a.webp"));
}

#[test]
fn sidecar_of_preview() {
    assert_eq!(
        sidecar_path("/p/_cull/DSC001.webp").as_deref(),
        Some("/p/_cull/DSC001.cull.json")
    );
    assert_eq!(sidecar_path("/p/_cull/DSC001.webp/").as_deref(), Some("/p/_cull/DSC001.cull.json"));
    assert_eq!(sidecar_path("/"), None);
}

#[test]
fn file_name_of_paths() {
    assert_eq!(file_name("/p/DSC001.ARW").as_deref(), Some("DSC001.ARW"));
    assert_eq!(file_name("Photos").as_deref(), Some("Photos"));
    assert_eq!(file_name("/photos/100MSDCF/").as_deref(), Some("100MSDCF"));
    assert_eq!(file_name("/photos/100MSDCF/.").as_deref(), Some("100MSDCF"));
    assert_eq!(file_name("/photos/100MSDCF//").as_deref(), Some("100MSDCF"));
    assert_eq!(file_name("D:\\Photos\\Culling").as_deref(), Some("Culling"));
    assert_eq!(file_name("/"), None);
    assert_eq!(file_name("/p/.."), None);
}

#[test]
fn preview_path_skips_trailing_components() {
    assert_eq!(get_preview_path("/a/b.ARW/").as_deref(), Some("/a/_cull/b.webp"));
    assert_eq!(get_preview_path("/a/b.ARW//").as_deref(), Some("/a/_cull/b.webp"));
    assert_eq!(get_preview_path("/a/b.ARW/.").as_deref(), Some("/a/_cull/b.webp"));
    assert_eq!(
        preview_path_in("/a/b/", PreviewDir::Preview).as_deref(),
        Some("/a/_preview/b.webp")
    );
}

#[test]
fn preview_path_with_windows_separators() {
    assert_eq!(
        get_preview_path("D:\\Photos\\Culling\\DSC001.ARW").as_deref(),
        Some("D:\\Photos\\Culling\\_cull\\DSC001.webp")
    );
    assert_eq!(
        preview_path_in("D:\\Photos\\100MSDCF\\DSC001.arw", PreviewDir::Preview).as_deref(),
        Some("D:\\Photos\\100MSDCF\\_preview\\DSC001.webp")
    );
}
