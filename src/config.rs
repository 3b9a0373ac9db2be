//! The options a caller gives for one rendering, and how unset options take
//! their defaults.
use crate::text::views;
use crate::tree::Generator;
use vstd::prelude::*;

verus! {

/// Options for one rendering; `None` means the option was not given.
pub struct Args {
    /// Directory to build the tree from.
    pub dir: Option<String>,
    /// Maximum depth of the tree; 1 when not given.
    pub max_depth: Option<u16>,
    /// Show only directories.
    pub dir_only: bool,
    /// Show entries whose names begin with a period.
    pub include_hidden: bool,
    /// Decorate directory and file lines with colour.
    pub colored: bool,
    /// Directory names to leave out, with everything below them.
    pub exclude: Option<Vec<String>>,
    /// File extensions to leave out.
    pub filter_extension: Option<Vec<String>>,
    /// File to write the tree into, besides printing it.
    pub output: Option<String>,
}

/// The strings of an optional list; none when it was not given.
pub open spec fn list_or_empty(v: Option<Vec<String>>) -> Seq<Seq<char>> {
    match v {
        Some(x) => views(x@),
        None => Seq::empty(),
    }
}

impl Args {
    /// The maximum depth to render: the given one, else 1.
    pub fn depth_or_default(&self) -> (r: u16)
        ensures
            r == match self.max_depth {
                Some(d) => d,
                None => 1u16,
            },
    {
        match self.max_depth {
            Some(d) => d,
            None => 1,
        }
    }

    /// Tells whether the tree is also to be written into a file.
    pub fn writes_output(&self) -> (r: bool)
        ensures
            r == self.output is Some,
    {
        self.output.is_some()
    }

    fn list_or_new(v: Option<Vec<String>>) -> (r: Vec<String>)
        ensures
            views(r@) == list_or_empty(v),
    {
        match v {
            Some(x) => x,
            None => {
                let r = Vec::new();
                assert(views(r@) =~= Seq::<Seq<char>>::empty());
                r
            },
        }
    }

    /// Makes the generator for the tree below `root_dir`, the unset options
    /// taking their defaults: depth 1 and empty exclusion lists.
    pub fn into_generator(self, root_dir: String) -> (r: Generator)
        ensures
            r.inv(),
            r@.config.root_dir == root_dir@,
            r@.config.dir_only == self.dir_only,
            r@.config.include_hidden == self.include_hidden,
            r@.config.colored == self.colored,
            r@.config.exclude_dirs == list_or_empty(self.exclude),
            r@.config.filter_extensions == list_or_empty(self.filter_extension),
            r@.config.max_depth == match self.max_depth {
                Some(d) => d as nat,
                None => 1nat,
            },
            r@.tree.len() == 0,
            r@.total_directories == 0,
            r@.total_files == 0,
    {
        let max_depth = self.depth_or_default();
        let exclude_dirs = Self::list_or_new(self.exclude);
        let filter_extensions = Self::list_or_new(self.filter_extension);
        Generator::init(
            root_dir,
            self.dir_only,
            exclude_dirs,
            self.include_hidden,
            self.colored,
            max_depth,
            filter_extensions,
        )
    }
}

} // verus!
