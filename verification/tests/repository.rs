use course_shelf::model::Course;
use course_shelf::repo::{
    add_course, course_root, remove_course, rescan_course, toggle_video_complete, RepoError,
};
use course_shelf::scan::{FsChild, FsEntry, FsListing};

fn loose(name: &str, root: &str) -> FsEntry {
    FsEntry {
        name: name.to_string(),
        path: format!("{}/{}", root, name),
        is_dir: false,
        children: Vec::new(),
    }
}

fn listing_of(root_name: &str, root: &str, files: &[&str]) -> FsListing {
    FsListing {
        root_name: root_name.to_string(),
        entries: files.iter().map(|f| loose(f, root)).collect(),
    }
}

fn add(store: &mut Vec<Course>, root: &str, files: &[&str]) -> Course {
    let listing = listing_of("a", root, files);
    add_course(store, root.to_string(), Some(&listing), 7).expect("add failed")
}

#[test]
fn add_course_appends_and_fills_the_course() {
    let mut store: Vec<Course> = Vec::new();
    let listing = listing_of("My Course", "/c", &["1.mp4"]);
    let c = add_course(&mut store, "/c".to_string(), Some(&listing), 1234).unwrap();
    assert_eq!(store.len(), 1);
    assert_eq!(c.title, "My Course");
    assert_eq!(c.path, "/c");
    assert_eq!(c.added_at, 1234);
    assert_eq!(c.modules.len(), 1);
    assert_eq!(store[0].id, c.id);
}

#[test]
fn add_course_same_path_twice_is_a_duplicate_and_changes_nothing() {
    let mut store: Vec<Course> = Vec::new();
    add(&mut store, "/c", &["1.mp4"]);
    let first_id = store[0].id.clone();
    let listing = listing_of("c", "/c", &["1.mp4", "2.mp4"]);
    let r = add_course(&mut store, "/c".to_string(), Some(&listing), 99);
    assert_eq!(r.unwrap_err(), RepoError::DuplicateCourse);
    assert_eq!(store.len(), 1);
    assert_eq!(store[0].id, first_id);
    assert_eq!(store[0].modules[0].videos.len(), 1);
}

#[test]
fn add_course_rejects_a_non_directory() {
    let mut store: Vec<Course> = Vec::new();
    let r = add_course(&mut store, "/nowhere".to_string(), None, 0);
    assert_eq!(r.unwrap_err(), RepoError::InvalidFolder);
    assert!(store.is_empty());
}

#[test]
fn add_course_rejects_a_folder_without_videos() {
    let mut store: Vec<Course> = Vec::new();
    let listing = listing_of("c", "/c", &["notes.txt"]);
    let r = add_course(&mut store, "/c".to_string(), Some(&listing), 0);
    assert_eq!(r.unwrap_err(), RepoError::NoVideosFound);
    assert!(store.is_empty());
}

#[test]
fn remove_course_drops_only_the_named_course() {
    let mut store: Vec<Course> = Vec::new();
    let a = add(&mut store, "/a", &["1.mp4"]);
    let b = add(&mut store, "/b", &["1.mp4"]);
    remove_course(&mut store, &a.id);
    assert_eq!(store.len(), 1);
    assert_eq!(store[0].id, b.id);
    remove_course(&mut store, &"missing".to_string());
    assert_eq!(store.len(), 1);
}

#[test]
fn toggle_flips_and_reports_the_new_state() {
    let mut store: Vec<Course> = Vec::new();
    let c = add(&mut store, "/a", &["1.mp4"]);
    let vid = c.modules[0].videos[0].id.clone();
    assert!(toggle_video_complete(&mut store, &c.id, &vid));
    assert!(store[0].modules[0].videos[0].completed);
    assert!(!toggle_video_complete(&mut store, &c.id, &vid));
    assert!(!store[0].modules[0].videos[0].completed);
}

#[test]
fn toggle_of_unknown_ids_is_a_false_no_op() {
    let mut store: Vec<Course> = Vec::new();
    let c = add(&mut store, "/a", &["1.mp4"]);
    assert!(!toggle_video_complete(&mut store, &"nope".to_string(), &c.modules[0].videos[0].id));
    assert!(!toggle_video_complete(&mut store, &c.id, &"nope".to_string()));
    assert!(!store[0].modules[0].videos[0].completed);
}

#[test]
fn course_root_reports_the_stored_path() {
    let mut store: Vec<Course> = Vec::new();
    let c = add(&mut store, "/somewhere", &["1.mp4"]);
    assert_eq!(course_root(&store, &c.id).unwrap(), "/somewhere");
    assert_eq!(course_root(&store, &"x".to_string()).unwrap_err(), RepoError::CourseNotFound);
}

#[test]
fn rescan_with_a_missing_root_fails_without_mutating() {
    let mut store: Vec<Course> = Vec::new();
    let c = add(&mut store, "/a", &["1.mp4"]);
    let vid = c.modules[0].videos[0].id.clone();
    toggle_video_complete(&mut store, &c.id, &vid);
    let r = rescan_course(&mut store, &c.id, None);
    assert_eq!(r.unwrap_err(), RepoError::CourseFolderMissing);
    assert_eq!(store[0].modules[0].videos[0].id, vid);
    assert!(store[0].modules[0].videos[0].completed);
}

#[test]
fn rescan_of_an_unknown_course_fails() {
    let mut store: Vec<Course> = Vec::new();
    add(&mut store, "/a", &["1.mp4"]);
    let listing = listing_of("a", "/a", &["1.mp4"]);
    let r = rescan_course(&mut store, &"ghost".to_string(), Some(&listing));
    assert_eq!(r.unwrap_err(), RepoError::CourseNotFound);
}

#[test]
fn rescan_carries_completion_by_path_and_drops_gone_files() {
    let mut store: Vec<Course> = Vec::new();
    let c = add(&mut store, "/a", &["1.mp4", "2.mp4"]);
    let v1 = c.modules[0].videos.iter().find(|v| v.path == "/a/1.mp4").unwrap().id.clone();
    let v2 = c.modules[0].videos.iter().find(|v| v.path == "/a/2.mp4").unwrap().id.clone();
    toggle_video_complete(&mut store, &c.id, &v1);
    toggle_video_complete(&mut store, &c.id, &v2);
    // 1.mp4 is gone from disk; 3.mp4 is new; 2.mp4 survives.
    let listing = listing_of("a", "/a", &["2.mp4", "3.mp4"]);
    let updated = rescan_course(&mut store, &c.id, Some(&listing)).unwrap();
    let vids = &updated.modules[0].videos;
    assert_eq!(vids.len(), 2);
    assert!(vids.iter().all(|v| v.path != "/a/1.mp4"));
    let s2 = vids.iter().find(|v| v.path == "/a/2.mp4").unwrap();
    let s3 = vids.iter().find(|v| v.path == "/a/3.mp4").unwrap();
    assert!(s2.completed);
    assert!(!s3.completed);
    assert_eq!(updated.id, c.id);
    assert_eq!(updated.path, c.path);
    assert_eq!(store[0].modules[0].videos.len(), 2);
}

#[test]
fn error_messages_match_the_reported_text() {
    assert_eq!(RepoError::InvalidFolder.message(), "Invalid folder");
    assert_eq!(RepoError::DuplicateCourse.message(), "Course already added");
    assert_eq!(
        RepoError::NoVideosFound.message(),
        "No video files found in this folder"
    );
    assert_eq!(RepoError::CourseNotFound.message(), "Course not found");
    assert_eq!(
        RepoError::CourseFolderMissing.message(),
        "Course folder no longer exists"
    );
}
