//! The persistent data model: videos, modules and courses, together with
//! the spec-level views their contracts are stated over.
use vstd::prelude::*;

verus! {

/// One playable media file with its watch state.
#[derive(Debug)]
pub struct Video {
    /// Opaque identity, assigned once at creation.
    pub id: String,
    /// Display title derived from the file name.
    pub title: String,
    /// Absolute filesystem path; the stable key across rescans.
    pub path: String,
    /// Watch-completion flag; the only field mutable outside a scan.
    pub completed: bool,
    /// Position within the owning module, 0-based.
    pub order: u32,
}

/// An ordered group of videos, typically one per subdirectory.
#[derive(Debug)]
pub struct Module {
    pub id: String,
    pub title: String,
    pub videos: Vec<Video>,
    /// Position within the owning course, 0-based.
    pub order: u32,
}

/// A top-level collection of modules rooted at one directory.
#[derive(Debug)]
pub struct Course {
    pub id: String,
    pub title: String,
    /// Root directory path, unique across the whole store.
    pub path: String,
    pub modules: Vec<Module>,
    /// Creation time, seconds since the epoch.
    pub added_at: u64,
}

/// Spec-level view of a video.
pub struct VideoV {
    pub id: Seq<char>,
    pub title: Seq<char>,
    pub path: Seq<char>,
    pub completed: bool,
    pub order: u32,
}

/// Spec-level view of a module.
pub struct ModuleV {
    pub id: Seq<char>,
    pub title: Seq<char>,
    pub videos: Seq<VideoV>,
    pub order: u32,
}

/// Spec-level view of a course.
pub struct CourseV {
    pub id: Seq<char>,
    pub title: Seq<char>,
    pub path: Seq<char>,
    pub modules: Seq<ModuleV>,
    pub added_at: u64,
}

impl View for Video {
    type V = VideoV;

    open spec fn view(&self) -> VideoV {
        VideoV {
            id: self.id@,
            title: self.title@,
            path: self.path@,
            completed: self.completed,
            order: self.order,
        }
    }
}

impl View for Module {
    type V = ModuleV;

    open spec fn view(&self) -> ModuleV {
        ModuleV {
            id: self.id@,
            title: self.title@,
            videos: self.videos@.map_values(|v: Video| v@),
            order: self.order,
        }
    }
}

impl View for Course {
    type V = CourseV;

    open spec fn view(&self) -> CourseV {
        CourseV {
            id: self.id@,
            title: self.title@,
            path: self.path@,
            modules: self.modules@.map_values(|m: Module| m@),
            added_at: self.added_at,
        }
    }
}

/// What a scan determines of a video: everything but the fresh id.
pub struct VideoShape {
    pub title: Seq<char>,
    pub path: Seq<char>,
    pub completed: bool,
    pub order: u32,
}

/// What a scan determines of a module: everything but the fresh ids.
pub struct ModuleShape {
    pub title: Seq<char>,
    pub videos: Seq<VideoShape>,
    pub order: u32,
}

impl VideoV {
    /// The id-free part of this video.
    pub open spec fn shape(self) -> VideoShape {
        VideoShape { title: self.title, path: self.path, completed: self.completed, order: self.order }
    }
}

impl ModuleV {
    /// The id-free part of this module.
    pub open spec fn shape(self) -> ModuleShape {
        ModuleShape {
            title: self.title,
            videos: self.videos.map_values(|v: VideoV| v.shape()),
            order: self.order,
        }
    }
}

/// The id-free parts of a sequence of modules.
pub open spec fn shapes_of(ms: Seq<ModuleV>) -> Seq<ModuleShape> {
    ms.map_values(|m: ModuleV| m.shape())
}

impl Clone for Video {
    fn clone(&self) -> (r: Self)
        ensures
            r@ == self@,
    {
        Video {
            id: self.id.clone(),
            title: self.title.clone(),
            path: self.path.clone(),
            completed: self.completed,
            order: self.order,
        }
    }
}

/// A copy of a vector of videos, equal in view.
pub fn clone_videos(vs: &Vec<Video>) -> (r: Vec<Video>)
    ensures
        r@.map_values(|v: Video| v@) == vs@.map_values(|v: Video| v@),
{
    let mut r: Vec<Video> = Vec::new();
    let mut i: usize = 0;
    while i < vs.len()
        invariant
            i <= vs@.len(),
            r@.len() == i,
            forall|k: int| 0 <= k < i ==> (#[trigger] r@[k])@ == vs@[k]@,
        decreases vs@.len() - i,
    {
        r.push(vs[i].clone());
        i = i + 1;
    }
    proof {
        assert(r@.map_values(|v: Video| v@) =~= vs@.map_values(|v: Video| v@));
    }
    r
}

impl Clone for Module {
    fn clone(&self) -> (r: Self)
        ensures
            r@ == self@,
    {
        Module {
            id: self.id.clone(),
            title: self.title.clone(),
            videos: clone_videos(&self.videos),
            order: self.order,
        }
    }
}

/// A copy of a vector of modules, equal in view.
pub fn clone_modules(ms: &Vec<Module>) -> (r: Vec<Module>)
    ensures
        r@.map_values(|m: Module| m@) == ms@.map_values(|m: Module| m@),
{
    let mut r: Vec<Module> = Vec::new();
    let mut i: usize = 0;
    while i < ms.len()
        invariant
            i <= ms@.len(),
            r@.len() == i,
            forall|k: int| 0 <= k < i ==> (#[trigger] r@[k])@ == ms@[k]@,
        decreases ms@.len() - i,
    {
        r.push(ms[i].clone());
        i = i + 1;
    }
    proof {
        assert(r@.map_values(|m: Module| m@) =~= ms@.map_values(|m: Module| m@));
    }
    r
}

impl Clone for Course {
    fn clone(&self) -> (r: Self)
        ensures
            r@ == self@,
    {
        Course {
            id: self.id.clone(),
            title: self.title.clone(),
            path: self.path.clone(),
            modules: clone_modules(&self.modules),
            added_at: self.added_at,
        }
    }
}

/// Relies on uuid::Uuid::new_v4 and its Display form: a freshly drawn
/// random identifier, rendered as text.  Nothing is promised of its value.
#[verifier::external_body]
pub(crate) fn fresh_id() -> String {
    uuid::Uuid::new_v4().to_string()
}

} // verus!
