use course_shelf::scan::{scan, FsChild, FsEntry, FsListing};

fn file(name: &str, dir: &str) -> FsChild {
    FsChild { name: name.to_string(), path: format!("{}/{}", dir, name), is_dir: false }
}

fn subdir(name: &str, root: &str, files: &[&str]) -> FsEntry {
    let path = format!("{}/{}", root, name);
    FsEntry {
        name: name.to_string(),
        path: path.clone(),
        is_dir: true,
        children: files.iter().map(|f| file(f, &path)).collect(),
    }
}

fn loose(name: &str, root: &str) -> FsEntry {
    FsEntry {
        name: name.to_string(),
        path: format!("{}/{}", root, name),
        is_dir: false,
        children: Vec::new(),
    }
}

#[test]
fn directories_and_their_videos_are_sorted() {
    let listing = FsListing {
        root_name: "Course".to_string(),
        entries: vec![
            subdir("02 Basics", "/c", &["b.mp4", "a.mp4"]),
            subdir("01 Intro", "/c", &["x.mp4"]),
        ],
    };
    let modules = scan(&listing);
    assert_eq!(modules.len(), 2);
    assert_eq!(modules[0].title, "Intro");
    assert_eq!(modules[0].order, 0);
    assert_eq!(modules[0].videos.len(), 1);
    assert_eq!(modules[0].videos[0].title, "x");
    assert_eq!(modules[0].videos[0].order, 0);
    assert_eq!(modules[0].videos[0].path, "/c/01 Intro/x.mp4");
    assert!(!modules[0].videos[0].completed);
    assert_eq!(modules[1].title, "Basics");
    assert_eq!(modules[1].order, 1);
    assert_eq!(modules[1].videos[0].title, "a");
    assert_eq!(modules[1].videos[0].path, "/c/02 Basics/a.mp4");
    assert_eq!(modules[1].videos[1].title, "b");
    assert_eq!(modules[1].videos[1].order, 1);
}

#[test]
fn loose_videos_only_make_one_module_with_the_raw_folder_name() {
    let listing = FsListing {
        root_name: "03 My Course".to_string(),
        entries: vec![loose("b.mp4", "/r"), loose("a.mp4", "/r")],
    };
    let modules = scan(&listing);
    assert_eq!(modules.len(), 1);
    assert_eq!(modules[0].title, "03 My Course");
    assert_eq!(modules[0].order, 0);
    assert_eq!(modules[0].videos.len(), 2);
    assert_eq!(modules[0].videos[0].title, "a");
    assert_eq!(modules[0].videos[1].title, "b");
}

#[test]
fn loose_videos_beside_directories_go_last_into_other_videos() {
    let listing = FsListing {
        root_name: "Course".to_string(),
        entries: vec![
            loose("zz.mp4", "/c"),
            subdir("01 Intro", "/c", &["x.mp4"]),
        ],
    };
    let modules = scan(&listing);
    assert_eq!(modules.len(), 2);
    assert_eq!(modules[0].title, "Intro");
    assert_eq!(modules[1].title, "Other Videos");
    assert_eq!(modules[1].order, 1);
    assert_eq!(modules[1].videos[0].path, "/c/zz.mp4");
}

#[test]
fn empty_subdirectories_take_no_order_slot() {
    let listing = FsListing {
        root_name: "Course".to_string(),
        entries: vec![
            subdir("01 Empty", "/c", &[]),
            subdir("02 Full", "/c", &["v.mp4"]),
            subdir("03 Notes", "/c", &["readme.txt"]),
        ],
    };
    let modules = scan(&listing);
    assert_eq!(modules.len(), 1);
    assert_eq!(modules[0].title, "Full");
    assert_eq!(modules[0].order, 0);
}

#[test]
fn hidden_entries_are_skipped() {
    let listing = FsListing {
        root_name: "Course".to_string(),
        entries: vec![
            FsEntry {
                name: ".hidden".to_string(),
                path: "/c/.hidden".to_string(),
                is_dir: true,
                children: vec![file("v.mp4", "/c/.hidden")],
            },
            loose(".secret.mp4", "/c"),
            loose("a.mp4", "/c"),
        ],
    };
    let modules = scan(&listing);
    assert_eq!(modules.len(), 1);
    assert_eq!(modules[0].videos.len(), 1);
    assert_eq!(modules[0].videos[0].path, "/c/a.mp4");
}

#[test]
fn nothing_to_scan_yields_no_modules() {
    let listing = FsListing { root_name: "Course".to_string(), entries: vec![] };
    assert_eq!(scan(&listing).len(), 0);
}

#[test]
fn fresh_ids_are_distinct() {
    let listing = FsListing {
        root_name: "Course".to_string(),
        entries: vec![loose("a.mp4", "/r"), loose("b.mp4", "/r")],
    };
    let modules = scan(&listing);
    let v = &modules[0].videos;
    assert_ne!(v[0].id, v[1].id);
    assert!(!v[0].id.is_empty());
}
