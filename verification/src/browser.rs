//! Browsing the directories below the album base.

use vstd::prelude::*;
use crate::path::{file_name, file_name_of, join, join_path};
use crate::text::{chars_of, string_of};
use crate::youtil::ImageInfo;

verus! {

/// A directory page: where it is, and the images and subdirectories in it.
pub struct DirPage {
    pub source: String,
    pub name: String,
    pub path: String,
    pub images: Vec<ImageInfo>,
    pub dirs: Vec<String>,
}

/// The subdirectory asked for, or the empty path for the base itself.
pub open spec fn requested_dir(subpath: Option<Seq<char>>) -> Seq<char> {
    match subpath {
        Some(s) => s,
        None => Seq::empty(),
    }
}

/// The directory a browse request lists: the base joined with the requested subdirectory.
pub fn browse_target(base: &str, subpath: Option<&str>) -> (r: String)
    ensures
        r@ == join_path(base@, requested_dir(match subpath {
            Some(s) => Some(s@),
            None => None,
        })),
{
    match subpath {
        Some(s) => join(base, s),
        None => {
            proof {
                reveal_strlit("");
            }
            join(base, "")
        },
    }
}

impl DirPage {
    /// The page of a browsed directory: named after the directory's final
    /// component, with the requested subdirectory as its path.
    pub fn new(base: &str, subpath: Option<&str>, images: Vec<ImageInfo>, dirs: Vec<String>) -> (p: DirPage)
        requires
            file_name_of(join_path(base@, requested_dir(match subpath {
                Some(s) => Some(s@),
                None => None,
            }))) is Some,
        ensures
            p.source@ == Seq::<char>::empty(),
            p.name@ == file_name_of(join_path(base@, requested_dir(match subpath {
                Some(s) => Some(s@),
                None => None,
            }))).unwrap(),
            p.path@ == requested_dir(match subpath {
                Some(s) => Some(s@),
                None => None,
            }),
            p.images == images,
            p.dirs == dirs,
    {
        let target = browse_target(base, subpath);
        let name = match file_name(target.as_str()) {
            Some(n) => n,
            None => string_of(&Vec::new()),
        };
        let path = match subpath {
            Some(s) => string_of(&chars_of(s)),
            None => string_of(&Vec::new()),
        };
        DirPage { source: string_of(&Vec::new()), name, path, images, dirs }
    }
}

/// The directory the plain browse handler lists: the base itself, or the base
/// joined with the requested subdirectory.
pub fn subdir_path(base: &str, subpath: Option<&str>) -> (r: String)
    ensures
        subpath is None ==> r@ == base@,
        subpath matches Some(s) ==> r@ == join_path(base@, s@),
{
    match subpath {
        Some(s) => join(base, s),
        None => string_of(&chars_of(base)),
    }
}

} // verus!
