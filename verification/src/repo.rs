//! The course repository: operations on the stored sequence of courses.
//! Every operation is a pure transformation of the store; reading and
//! writing the store's durable form is the host's business.
use vstd::prelude::*;
use crate::model::{Video, Module, Course, CourseV, ModuleV, VideoV, fresh_id, shapes_of};
use crate::scan::{FsListing, scan, scan_spec, module_shapes};
use crate::model::ModuleShape;
use crate::model::VideoShape;

verus! {

/// Why a repository operation was refused.
#[derive(Clone, Copy, PartialEq, Eq, Structural, Debug)]
pub enum RepoError {
    /// The given path is not a directory.
    InvalidFolder,
    /// A stored course already has this root path.
    DuplicateCourse,
    /// The scan produced no modules at all.
    NoVideosFound,
    /// No stored course has this id.
    CourseNotFound,
    /// The stored root path no longer exists on disk.
    CourseFolderMissing,
}

impl RepoError {
    /// The flat message reported to the caller.
    pub fn message(&self) -> (r: String)
        ensures
            r@ == match self {
                RepoError::InvalidFolder => "Invalid folder"@,
                RepoError::DuplicateCourse => "Course already added"@,
                RepoError::NoVideosFound => "No video files found in this folder"@,
                RepoError::CourseNotFound => "Course not found"@,
                RepoError::CourseFolderMissing => "Course folder no longer exists"@,
            },
    {
        match self {
            RepoError::InvalidFolder => String::from_str("Invalid folder"),
            RepoError::DuplicateCourse => String::from_str("Course already added"),
            RepoError::NoVideosFound => String::from_str("No video files found in this folder"),
            RepoError::CourseNotFound => String::from_str("Course not found"),
            RepoError::CourseFolderMissing => String::from_str("Course folder no longer exists"),
        }
    }
}

/// Views of the stored courses.
pub open spec fn course_views(cs: Seq<Course>) -> Seq<CourseV> {
    cs.map_values(|c: Course| c@)
}

/// Is some stored course rooted at this path?
pub open spec fn has_path(cs: Seq<CourseV>, path: Seq<char>) -> bool {
    exists|i: int| 0 <= i < cs.len() && cs[i].path == path
}

/// Index of the first course with this id at or after `i`; -1 if none.
pub open spec fn find_course_from(cs: Seq<CourseV>, id: Seq<char>, i: int) -> int
    decreases cs.len() - i,
{
    if i < 0 || i >= cs.len() {
        -1
    } else if cs[i].id == id {
        i
    } else {
        find_course_from(cs, id, i + 1)
    }
}

/// Index of the first course with this id; -1 if none.
pub open spec fn find_course(cs: Seq<CourseV>, id: Seq<char>) -> int {
    find_course_from(cs, id, 0)
}

/// Index of the first video with this id at or after `j`; -1 if none.
pub open spec fn find_in_videos(vs: Seq<VideoV>, vid: Seq<char>, j: int) -> int
    decreases vs.len() - j,
{
    if j < 0 || j >= vs.len() {
        -1
    } else if vs[j].id == vid {
        j
    } else {
        find_in_videos(vs, vid, j + 1)
    }
}

/// Module and video index of the first video with this id, searching
/// modules in stored order from `mi`; (-1, -1) if none.
pub open spec fn find_video(ms: Seq<ModuleV>, vid: Seq<char>, mi: int) -> (int, int)
    decreases ms.len() - mi,
{
    if mi < 0 || mi >= ms.len() {
        (-1, -1)
    } else {
        let j = find_in_videos(ms[mi].videos, vid, 0);
        if j >= 0 {
            (mi, j)
        } else {
            find_video(ms, vid, mi + 1)
        }
    }
}

fn find_course_idx(courses: &Vec<Course>, id: &String) -> (r: Option<usize>)
    ensures
        match r {
            Some(i) => find_course(course_views(courses@), id@) == i as int && (i as int)
                < courses@.len(),
            None => find_course(course_views(courses@), id@) == -1,
        },
{
    let ghost cs = course_views(courses@);
    let mut i: usize = 0;
    while i < courses.len()
        invariant
            i <= courses@.len(),
            cs == course_views(courses@),
            find_course(cs, id@) == find_course_from(cs, id@, i as int),
        decreases courses@.len() - i,
    {
        if courses[i].id == *id {
            return Some(i);
        }
        i = i + 1;
    }
    None
}

fn find_in_videos_idx(videos: &Vec<Video>, vid: &String) -> (r: Option<usize>)
    ensures
        match r {
            Some(j) => find_in_videos(videos@.map_values(|v: Video| v@), vid@, 0) == j as int && (
            j as int) < videos@.len(),
            None => find_in_videos(videos@.map_values(|v: Video| v@), vid@, 0) == -1,
        },
{
    let ghost vs = videos@.map_values(|v: Video| v@);
    let mut j: usize = 0;
    while j < videos.len()
        invariant
            j <= videos@.len(),
            vs == videos@.map_values(|v: Video| v@),
            find_in_videos(vs, vid@, 0) == find_in_videos(vs, vid@, j as int),
        decreases videos@.len() - j,
    {
        if videos[j].id == *vid {
            return Some(j);
        }
        j = j + 1;
    }
    None
}

fn find_video_idx(modules: &Vec<Module>, vid: &String) -> (r: Option<(usize, usize)>)
    ensures
        match r {
            Some(p) => {
                let ms = modules@.map_values(|m: Module| m@);
                &&& find_video(ms, vid@, 0) == (p.0 as int, p.1 as int)
                &&& (p.0 as int) < modules@.len()
                &&& (p.1 as int) < ms[p.0 as int].videos.len()
            },
            None => find_video(modules@.map_values(|m: Module| m@), vid@, 0) == (-1int, -1int),
        },
{
    let ghost ms = modules@.map_values(|m: Module| m@);
    let mut mi: usize = 0;
    while mi < modules.len()
        invariant
            mi <= modules@.len(),
            ms == modules@.map_values(|m: Module| m@),
            find_video(ms, vid@, 0) == find_video(ms, vid@, mi as int),
        decreases modules@.len() - mi,
    {
        match find_in_videos_idx(&modules[mi].videos, vid) {
            Some(j) => {
                return Some((mi, j));
            },
            None => {},
        }
        mi = mi + 1;
    }
    None
}

/// What toggling does to the store: the first video with the given id in
/// the first course with the given id has its flag flipped; when either is
/// missing, the store stays as it is and the reported state is false.
pub open spec fn toggle_spec(cs: Seq<CourseV>, cid: Seq<char>, vid: Seq<char>) -> (
    Seq<CourseV>,
    bool,
) {
    let ci = find_course(cs, cid);
    if ci < 0 {
        (cs, false)
    } else {
        let c = cs[ci];
        let f = find_video(c.modules, vid, 0);
        if f.0 < 0 {
            (cs, false)
        } else {
            let m = c.modules[f.0];
            let v = m.videos[f.1];
            let nv = VideoV {
                id: v.id,
                title: v.title,
                path: v.path,
                completed: !v.completed,
                order: v.order,
            };
            let nm = ModuleV {
                id: m.id,
                title: m.title,
                videos: m.videos.update(f.1, nv),
                order: m.order,
            };
            let nc = CourseV {
                id: c.id,
                title: c.title,
                path: c.path,
                modules: c.modules.update(f.0, nm),
                added_at: c.added_at,
            };
            (cs.update(ci, nc), !v.completed)
        }
    }
}

/// Flip the completion flag of one video and report the new state.  An
/// unknown course or video id leaves the store unchanged and reports
/// false.
pub fn toggle_video_complete(courses: &mut Vec<Course>, course_id: &String, video_id: &String) -> (r:
    bool)
    ensures
        course_views(final(courses)@) == toggle_spec(
            course_views(old(courses)@),
            course_id@,
            video_id@,
        ).0,
        r == toggle_spec(course_views(old(courses)@), course_id@, video_id@).1,
{
    let ghost cs = course_views(old(courses)@);
    let ci = match find_course_idx(courses, course_id) {
        Some(i) => i,
        None => {
            return false;
        },
    };
    let mut c = courses.remove(ci);
    match find_video_idx(&c.modules, video_id) {
        None => {
            courses.insert(ci, c);
            proof {
                assert(course_views(courses@) =~= cs);
            }
            false
        },
        Some((mi, vi)) => {
            let ghost cv = c@;
            let mut m = c.modules.remove(mi);
            let ghost mv = m@;
            let mut v = m.videos.remove(vi);
            v.completed = !v.completed;
            let newstate = v.completed;
            m.videos.insert(vi, v);
            proof {
                assert(m@.videos =~= mv.videos.update(vi as int, m@.videos[vi as int]));
            }
            c.modules.insert(mi, m);
            proof {
                assert(c@.modules =~= cv.modules.update(mi as int, c@.modules[mi as int]));
            }
            courses.insert(ci, c);
            proof {
                assert(course_views(courses@) =~= cs.update(
                    ci as int,
                    course_views(courses@)[ci as int],
                ));
                assert(course_views(courses@)[ci as int] == toggle_spec(
                    cs,
                    course_id@,
                    video_id@,
                ).0[ci as int]);
                assert(course_views(courses@) =~= toggle_spec(cs, course_id@, video_id@).0);
            }
            newstate
        },
    }
}

/// What removing does to the store: every course with the given id is
/// dropped; the rest keep their order.
pub open spec fn remove_course_spec(cs: Seq<CourseV>, cid: Seq<char>) -> Seq<CourseV>
    decreases cs.len(),
{
    if cs.len() == 0 {
        Seq::empty()
    } else {
        remove_course_spec(cs.drop_last(), cid) + if cs.last().id == cid {
            Seq::empty()
        } else {
            seq![cs.last()]
        }
    }
}

/// Drop the course with this id from the store; absent ids are a no-op.
pub fn remove_course(courses: &mut Vec<Course>, course_id: &String)
    ensures
        course_views(final(courses)@) == remove_course_spec(
            course_views(old(courses)@),
            course_id@,
        ),
{
    let ghost cs = course_views(old(courses)@);
    let mut out: Vec<Course> = Vec::new();
    let mut i: usize = 0;
    while i < courses.len()
        invariant
            i <= courses@.len(),
            cs == course_views(courses@),
            course_views(out@) == remove_course_spec(cs.take(i as int), course_id@),
        decreases courses@.len() - i,
    {
        proof {
            assert(cs.take(i + 1).drop_last() =~= cs.take(i as int));
            assert(cs.take(i + 1).last() == cs[i as int]);
        }
        if !(courses[i].id == *course_id) {
            let kept = courses[i].clone();
            out.push(kept);
        }
        proof {
            assert(course_views(out@) =~= remove_course_spec(cs.take(i + 1), course_id@));
        }
        i = i + 1;
    }
    proof {
        assert(cs.take(courses@.len() as int) =~= cs);
    }
    *courses = out;
}

fn has_path_exec(courses: &Vec<Course>, path: &String) -> (r: bool)
    ensures
        r == has_path(course_views(courses@), path@),
{
    let ghost cs = course_views(courses@);
    let mut i: usize = 0;
    while i < courses.len()
        invariant
            i <= courses@.len(),
            cs == course_views(courses@),
            forall|j: int| 0 <= j < i ==> cs[j].path != path@,
        decreases courses@.len() - i,
    {
        if courses[i].path == *path {
            proof {
                assert(cs[i as int].path == path@);
            }
            return true;
        }
        i = i + 1;
    }
    false
}

/// Add a new course rooted at `path`.  `listing` is the root's directory
/// listing, or nothing when `path` is not a directory; `now` is the
/// current time in seconds since the epoch.  Fails on a non-directory, on
/// a duplicate root path, and on a scan without videos, in that order, and
/// then leaves the store unchanged; otherwise the freshly scanned course
/// is appended to the store and returned.
pub fn add_course(
    courses: &mut Vec<Course>,
    path: String,
    listing: Option<&FsListing>,
    now: u64,
) -> (r: Result<Course, RepoError>)
    requires
        listing is Some ==> (listing->0).entries@.len() <= 0xffff_ffff && forall|i: int|
            0 <= i < (listing->0).entries@.len() ==> (#[trigger] (
            listing->0).entries@[i]).children@.len() <= 0xffff_ffff,
    ensures
        ({
            let cs = course_views(old(courses)@);
            match listing {
                None => r == Err::<Course, RepoError>(RepoError::InvalidFolder) && final(courses)@
                    == old(courses)@,
                Some(l) => {
                    if has_path(cs, path@) {
                        r == Err::<Course, RepoError>(RepoError::DuplicateCourse)
                            && final(courses)@ == old(courses)@
                    } else if scan_spec(l@).len() == 0 {
                        r == Err::<Course, RepoError>(RepoError::NoVideosFound) && final(courses)@
                            == old(courses)@
                    } else {
                        &&& r is Ok
                        &&& course_views(final(courses)@) == cs.push(r->Ok_0@)
                        &&& r->Ok_0@.title == l@.root_name
                        &&& r->Ok_0@.path == path@
                        &&& r->Ok_0@.added_at == now
                        &&& shapes_of(r->Ok_0@.modules) == scan_spec(l@)
                    }
                },
            }
        }),
{
    let l = match listing {
        None => {
            return Err(RepoError::InvalidFolder);
        },
        Some(l) => l,
    };
    if has_path_exec(courses, &path) {
        return Err(RepoError::DuplicateCourse);
    }
    let modules = scan(l);
    if modules.len() == 0 {
        proof {
            assert(module_shapes(modules@).len() == 0);
        }
        return Err(RepoError::NoVideosFound);
    }
    let course = Course {
        id: fresh_id(),
        title: l.root_name.clone(),
        path,
        modules,
        added_at: now,
    };
    let ret = course.clone();
    courses.push(course);
    proof {
        assert(course_views(courses@) =~= course_views(old(courses)@).push(ret@));
    }
    Ok(ret)
}

/// Duplicate-rejection law: once a course is stored, its root path is
/// taken, so a further add at that path is refused as a duplicate and
/// leaves the store as it is (by the contract of `add_course`).
pub proof fn lemma_added_path_is_taken(cs: Seq<CourseV>, c: CourseV)
    ensures
        has_path(cs.push(c), c.path),
{
    assert(cs.push(c)[cs.len() as int].path == c.path);
}

/// The paths of the completed videos of one module, in stored order.
pub open spec fn completed_in(vs: Seq<VideoV>) -> Seq<Seq<char>>
    decreases vs.len(),
{
    if vs.len() == 0 {
        Seq::empty()
    } else {
        completed_in(vs.drop_last()) + if vs.last().completed {
            seq![vs.last().path]
        } else {
            Seq::empty()
        }
    }
}

/// The paths of all completed videos of a course's modules.
pub open spec fn completed_paths(ms: Seq<ModuleV>) -> Seq<Seq<char>>
    decreases ms.len(),
{
    if ms.len() == 0 {
        Seq::empty()
    } else {
        completed_paths(ms.drop_last()) + completed_in(ms.last().videos)
    }
}

/// Is this path among the remembered ones?
pub open spec fn path_in(done: Seq<Seq<char>>, p: Seq<char>) -> bool {
    exists|k: int| 0 <= k < done.len() && done[k] == p
}

/// Completion carried forward by path: a video is completed exactly when
/// its path was remembered (freshly scanned videos start uncompleted).
pub open spec fn merge_videos(vs: Seq<VideoShape>, done: Seq<Seq<char>>) -> Seq<VideoShape> {
    vs.map_values(
        |v: VideoShape|
            VideoShape {
                title: v.title,
                path: v.path,
                completed: v.completed || path_in(done, v.path),
                order: v.order,
            },
    )
}

/// `merge_videos`, over every module of a fresh scan.
pub open spec fn merge_modules(ms: Seq<ModuleShape>, done: Seq<Seq<char>>) -> Seq<ModuleShape> {
    ms.map_values(
        |m: ModuleShape| ModuleShape { title: m.title, videos: merge_videos(m.videos, done), order: m.order },
    )
}

/// The paths of the completed videos of a course, in stored order.
fn collect_completed(modules: &Vec<Module>) -> (r: Vec<String>)
    ensures
        r@.map_values(|s: String| s@) == completed_paths(modules@.map_values(|m: Module| m@)),
{
    let ghost ms = modules@.map_values(|m: Module| m@);
    let mut r: Vec<String> = Vec::new();
    let mut mi: usize = 0;
    while mi < modules.len()
        invariant
            mi <= modules@.len(),
            ms == modules@.map_values(|m: Module| m@),
            r@.map_values(|s: String| s@) == completed_paths(ms.take(mi as int)),
        decreases modules@.len() - mi,
    {
        let vids = &modules[mi].videos;
        let ghost vs = ms[mi as int].videos;
        let mut vi: usize = 0;
        proof {
            assert(vs == vids@.map_values(|v: Video| v@));
            assert(completed_in(vs.take(0)) =~= Seq::<Seq<char>>::empty());
            assert(r@.map_values(|s: String| s@) =~= completed_paths(ms.take(mi as int))
                + completed_in(vs.take(0)));
        }
        while vi < vids.len()
            invariant
                vi <= vids@.len(),
                vs == vids@.map_values(|v: Video| v@),
                r@.map_values(|s: String| s@) == completed_paths(ms.take(mi as int))
                    + completed_in(vs.take(vi as int)),
            decreases vids@.len() - vi,
        {
            proof {
                assert(vs.take(vi + 1).drop_last() =~= vs.take(vi as int));
                assert(vs.take(vi + 1).last() == vs[vi as int]);
                assert(vs[vi as int] == vids@[vi as int]@);
            }
            if vids[vi].completed {
                r.push(vids[vi].path.clone());
            }
            proof {
                let prev = completed_paths(ms.take(mi as int)) + completed_in(vs.take(vi as int));
                if vs[vi as int].completed {
                    assert(completed_in(vs.take(vi + 1)) == completed_in(vs.take(vi as int))
                        + seq![vs[vi as int].path]);
                    assert(r@.map_values(|s: String| s@) =~~= prev + seq![vs[vi as int].path]);
                    assert(prev + seq![vs[vi as int].path] =~~= completed_paths(ms.take(mi as int))
                        + completed_in(vs.take(vi + 1)));
                } else {
                    assert(completed_in(vs.take(vi + 1)) == completed_in(vs.take(vi as int))
                        + Seq::<Seq<char>>::empty());
                    assert(r@.map_values(|s: String| s@) =~~= prev);
                    assert(prev =~~= completed_paths(ms.take(mi as int)) + completed_in(vs.take(vi + 1)));
                }
                assert(r@.map_values(|s: String| s@) =~~= completed_paths(ms.take(mi as int))
                    + completed_in(vs.take(vi + 1)));
            }
            vi = vi + 1;
        }
        proof {
            assert(vs.take(vids@.len() as int) =~= vs);
            assert(ms.take(mi + 1).drop_last() =~= ms.take(mi as int));
            assert(ms.take(mi + 1).last() == ms[mi as int]);
            assert(r@.map_values(|s: String| s@) =~= completed_paths(ms.take(mi + 1)));
        }
        mi = mi + 1;
    }
    proof {
        assert(ms.take(modules@.len() as int) =~= ms);
    }
    r
}

fn path_in_exec(done: &Vec<String>, p: &String) -> (r: bool)
    ensures
        r == path_in(done@.map_values(|s: String| s@), p@),
{
    let ghost dv = done@.map_values(|s: String| s@);
    let mut k: usize = 0;
    while k < done.len()
        invariant
            k <= done@.len(),
            dv == done@.map_values(|s: String| s@),
            forall|j: int| 0 <= j < k ==> dv[j] != p@,
        decreases done@.len() - k,
    {
        if done[k] == *p {
            proof {
                assert(dv[k as int] == p@);
            }
            return true;
        }
        k = k + 1;
    }
    false
}

/// Re-apply remembered completion to a freshly scanned module tree.
fn apply_completed(modules: &Vec<Module>, done: &Vec<String>) -> (r: Vec<Module>)
    ensures
        module_shapes(r@) == merge_modules(
            module_shapes(modules@),
            done@.map_values(|s: String| s@),
        ),
{
    let ghost dv = done@.map_values(|s: String| s@);
    let ghost goal = merge_modules(module_shapes(modules@), dv);
    let mut r: Vec<Module> = Vec::new();
    let mut mi: usize = 0;
    proof {
        assert(goal.len() == module_shapes(modules@).len());
    }
    while mi < modules.len()
        invariant
            mi <= modules@.len(),
            dv == done@.map_values(|s: String| s@),
            goal == merge_modules(module_shapes(modules@), dv),
            goal.len() == module_shapes(modules@).len() == modules@.len(),
            r@.len() == mi,
            forall|k: int| 0 <= k < mi ==> (#[trigger] r@[k])@.shape() == goal[k],
        decreases modules@.len() - mi,
    {
        let m = &modules[mi];
        let ghost msh = module_shapes(modules@)[mi as int];
        proof {
            assert(msh == m@.shape());
            assert(msh.videos.len() == m.videos@.len());
        }
        let mut vs: Vec<Video> = Vec::new();
        let mut vi: usize = 0;
        while vi < m.videos.len()
            invariant
                vi <= m.videos@.len(),
                dv == done@.map_values(|s: String| s@),
                msh == m@.shape(),
                msh.videos.len() == m.videos@.len(),
                vs@.len() == vi,
                forall|k: int|
                    0 <= k < vi ==> (#[trigger] vs@[k])@.shape() == merge_videos(msh.videos, dv)[k],
            decreases m.videos@.len() - vi,
        {
            let mut v = m.videos[vi].clone();
            if path_in_exec(done, &v.path) {
                v.completed = true;
            }
            proof {
                assert(msh.videos[vi as int] == m.videos@[vi as int]@.shape());
            }
            vs.push(v);
            vi = vi + 1;
        }
        let nm = Module { id: m.id.clone(), title: m.title.clone(), videos: vs, order: m.order };
        proof {
            assert(nm@.shape().videos =~= merge_videos(msh.videos, dv));
            assert(nm@.shape() == goal[mi as int]);
        }
        r.push(nm);
        mi = mi + 1;
    }
    proof {
        assert(module_shapes(r@) =~= goal);
    }
    r
}

/// The stored root path of the course with this id, to be listed again.
pub fn course_root(courses: &Vec<Course>, course_id: &String) -> (r: Result<String, RepoError>)
    ensures
        ({
            let cs = course_views(courses@);
            let ci = find_course(cs, course_id@);
            match r {
                Ok(p) => ci >= 0 && p@ == cs[ci].path,
                Err(e) => ci < 0 && e == RepoError::CourseNotFound,
            }
        }),
{
    match find_course_idx(courses, course_id) {
        Some(i) => Ok(courses[i].path.clone()),
        None => Err(RepoError::CourseNotFound),
    }
}

/// Re-derive a course's module tree from a fresh listing of its root,
/// carrying completion forward by path.  Fails on an unknown course id and
/// when the root is gone (`listing` is nothing), leaving the store
/// unchanged; otherwise the stored tree is replaced and the updated course
/// returned.
pub fn rescan_course(
    courses: &mut Vec<Course>,
    course_id: &String,
    listing: Option<&FsListing>,
) -> (r: Result<Course, RepoError>)
    requires
        listing is Some ==> (listing->0).entries@.len() <= 0xffff_ffff && forall|i: int|
            0 <= i < (listing->0).entries@.len() ==> (#[trigger] (
            listing->0).entries@[i]).children@.len() <= 0xffff_ffff,
    ensures
        ({
            let cs = course_views(old(courses)@);
            let fs = course_views(final(courses)@);
            let ci = find_course(cs, course_id@);
            if ci < 0 {
                r == Err::<Course, RepoError>(RepoError::CourseNotFound)
                    && final(courses)@ == old(courses)@
            } else {
                match listing {
                    None => r == Err::<Course, RepoError>(RepoError::CourseFolderMissing)
                        && final(courses)@ == old(courses)@,
                    Some(l) => {
                        &&& r is Ok
                        &&& fs.len() == cs.len()
                        &&& forall|j: int| 0 <= j < cs.len() && j != ci ==> fs[j] == cs[j]
                        &&& fs[ci].id == cs[ci].id
                        &&& fs[ci].title == cs[ci].title
                        &&& fs[ci].path == cs[ci].path
                        &&& fs[ci].added_at == cs[ci].added_at
                        &&& shapes_of(fs[ci].modules) == merge_modules(
                            scan_spec(l@),
                            completed_paths(cs[ci].modules),
                        )
                        &&& r->Ok_0@ == fs[ci]
                    },
                }
            }
        }),
{
    let ghost cs = course_views(old(courses)@);
    let ci = match find_course_idx(courses, course_id) {
        Some(i) => i,
        None => {
            return Err(RepoError::CourseNotFound);
        },
    };
    let l = match listing {
        None => {
            return Err(RepoError::CourseFolderMissing);
        },
        Some(l) => l,
    };
    let c = courses.remove(ci);
    let done = collect_completed(&c.modules);
    let fresh = scan(l);
    let merged = apply_completed(&fresh, &done);
    let nc = Course {
        id: c.id,
        title: c.title,
        path: c.path,
        modules: merged,
        added_at: c.added_at,
    };
    let ret = nc.clone();
    courses.insert(ci, nc);
    proof {
        assert(course_views(courses@) =~= cs.update(ci as int, course_views(courses@)[ci as int]));
        assert(course_views(courses@)[ci as int] == ret@);
        assert(forall|j: int|
            0 <= j < cs.len() && j != ci ==> course_views(courses@)[j] == cs[j]);
    }
    Ok(ret)
}

} // verus!
