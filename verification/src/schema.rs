//! The dataset schemas that can be read, and the reader of the one there is.
use std::path::PathBuf;
use vstd::prelude::*;

use crate::assemble::{image, image_of, import, timeline_views, timelines};
use crate::assemble::{Image, DataIntegrityError, Timeline, TimelineView};
use crate::channel::{canonical, canonicalize, same, text};
use crate::config::Configuration;
use crate::records::{Data, Tables};

verus! {

/// The set of schemas supported, for reading only.
#[derive(Clone, Copy, Debug, PartialEq, Eq)]
pub enum SchemaKind {
    NuScenes,
}

impl SchemaKind {
    /// The schema that a name on the command line stands for.
    pub open spec fn of(name: Seq<char>) -> Option<SchemaKind> {
        if name == "nuscenes"@ {
            Some(SchemaKind::NuScenes)
        } else {
            None
        }
    }

    /// Reads the name of a schema; a name of no supported schema gives
    /// `None`.
    pub fn named(name: &str) -> (out: Option<SchemaKind>)
        ensures
            out == SchemaKind::of(name@),
    {
        if same(name, "nuscenes") {
            Some(SchemaKind::NuScenes)
        } else {
            None
        }
    }
}

/// A dataset in the nuScenes layout, rooted at a directory.
pub struct NuScenes<'a> {
    pub root: PathBuf,
    pub config: &'a Configuration,
}

impl<'a> NuScenes<'a> {
    /// A reader of the dataset below `root`: the path is the one that the
    /// argument converts into.
    pub fn new<P: Into<PathBuf>>(root: P, config: &'a Configuration) -> (out: Self)
        ensures
            out.config == config,
            call_ensures(P::into, (root,), out.root),
    {
        let root = root.into();
        Self { root, config }
    }

    /// The canonical identifier of a raw channel name, for a camera.
    pub fn channel(&self, channel: &str) -> (out: Option<String>)
        ensures
            text(out) == canonical(channel@),
    {
        canonicalize(channel)
    }

    /// The image of a data record: present where both sizes are.
    pub fn image(&self, data: &Data) -> (out: Option<Image>)
        ensures
            out == image_of(*data),
    {
        image(data)
    }

    /// Assembles the timelines of the dataset from its tables.
    pub fn import(&self, tables: &Tables) -> (out: Result<Vec<Timeline>, DataIntegrityError>)
        ensures
            match out {
                Ok(v) => timelines(tables, tables.scenes@.len()) == Ok::<_, DataIntegrityError>(
                    timeline_views(v@),
                ),
                Err(e) => timelines(tables, tables.scenes@.len()) == Err::<Seq<TimelineView>, _>(
                    e,
                ),
            },
    {
        import(tables)
    }
}

} // verus!
