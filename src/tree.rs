//! The tree generator: which entries of a directory are shown, in which
//! order, with which connectors and indentation, and the closing counts.
use crate::decorate::{decorated, green, platform_separator, red_bold};
use crate::text::{
    contains_str, decimal, decimal_of, ends_with, ends_with_spec, extension, extension_of,
    is_hidden, is_hidden_name, views,
};
use vstd::prelude::*;
use vstd::string::*;

verus! {

/// Connector of the last entry of a sibling group.
pub const ELBOW: &'static str = "└───";

/// Connector of every other entry of a sibling group.
pub const TEE: &'static str = "├───";

/// Indentation under an entry that has later siblings.
pub const PIPE_PREFIX: &'static str = "│    ";

/// Indentation under the last entry of a sibling group.
pub const SPACE_PREFIX: &'static str = "     ";

/// One entry of a directory, as read from the file system: its base name,
/// whether it is a directory, and, for a directory, its own entries in the
/// order in which they were read.
pub struct Entry {
    pub name: String,
    pub is_dir: bool,
    pub children: Vec<Entry>,
}

/// What a build depends on, fixed when the generator is made.
pub struct TreeConfig {
    pub root_dir: Seq<char>,
    pub dir_only: bool,
    pub include_hidden: bool,
    pub colored: bool,
    pub exclude_dirs: Seq<Seq<char>>,
    pub filter_extensions: Seq<Seq<char>>,
    pub max_depth: nat,
    pub separator: Seq<char>,
}

/// A generator seen as its configuration, the lines rendered so far and the
/// two running counts.
pub struct GeneratorView {
    pub config: TreeConfig,
    pub tree: Seq<Seq<char>>,
    pub total_directories: nat,
    pub total_files: nat,
}

/// One body line before it is written out: the kind of entry, the
/// indentation inherited from its ancestors, whether it is the last of its
/// sibling group, and the entry's name.
pub struct Row {
    pub is_dir: bool,
    pub prefix: Seq<char>,
    pub last: bool,
    pub name: Seq<char>,
}

/// A directory whose name is on the exclusion list is dropped; files never are.
pub open spec fn excluded_by_name(c: TreeConfig, e: Entry) -> bool {
    e.is_dir && c.exclude_dirs.contains(e.name@)
}

/// A file whose extension is on the extension list is dropped; directories
/// and files without an extension never are.
pub open spec fn excluded_by_extension(c: TreeConfig, e: Entry) -> bool {
    !e.is_dir && match extension_of(e.name@) {
        Some(x) => c.filter_extensions.contains(x),
        None => false,
    }
}

/// Hidden entries show only when the configuration includes them.
pub open spec fn passes_hidden_filter(c: TreeConfig, e: Entry) -> bool {
    c.include_hidden || !is_hidden_name(e.name@)
}

/// In directories-only mode files are dropped.
pub open spec fn passes_dir_only_filter(c: TreeConfig, e: Entry) -> bool {
    !c.dir_only || e.is_dir
}

/// An entry is shown (and counted) when it passes all four filters.
pub open spec fn kept(c: TreeConfig, e: Entry) -> bool {
    &&& !excluded_by_name(c, e)
    &&& !excluded_by_extension(c, e)
    &&& passes_hidden_filter(c, e)
    &&& passes_dir_only_filter(c, e)
}

/// Kept entries that are directories (`dirs`) or files (`!dirs`).
pub open spec fn kept_of_kind(c: TreeConfig, dirs: bool) -> spec_fn(Entry) -> bool {
    |e: Entry| e.is_dir == dirs && kept(c, e)
}

/// The shown entries of one directory in display order: the kept directories,
/// then the kept files, each group in read order.
pub open spec fn siblings(c: TreeConfig, es: Seq<Entry>) -> Seq<Entry> {
    es.filter(kept_of_kind(c, true)) + es.filter(kept_of_kind(c, false))
}

/// The connector of an entry: the elbow for the last of its group.
pub open spec fn connector(last: bool) -> Seq<char> {
    if last {
        ELBOW@
    } else {
        TEE@
    }
}

/// The indentation for the entries below a directory.
pub open spec fn child_prefix(prefix: Seq<char>, last: bool) -> Seq<char> {
    if last {
        prefix + SPACE_PREFIX@
    } else {
        prefix + PIPE_PREFIX@
    }
}

/// The undecorated text of a body line.
pub open spec fn row_text(r: Row, separator: Seq<char>) -> Seq<char> {
    r.prefix + connector(r.last) + seq![' '] + r.name + if r.is_dir {
        separator
    } else {
        Seq::empty()
    }
}

/// The body lines for the entries `es` of a directory at depth `depth`, whose
/// own lines are indented by `prefix`, in depth-first pre-order.
pub open spec fn rows(c: TreeConfig, es: Seq<Entry>, prefix: Seq<char>, depth: nat) -> Seq<Row>
    decreases c.max_depth - depth, 1int, 0int,
{
    if depth >= c.max_depth {
        Seq::empty()
    } else {
        let g = siblings(c, es);
        rows_upto(c, g, prefix, depth, g.len())
    }
}

/// The body lines for the first `n` entries of the sibling group `g`, each
/// followed by the lines of its own subtree.
pub open spec fn rows_upto(
    c: TreeConfig,
    g: Seq<Entry>,
    prefix: Seq<char>,
    depth: nat,
    n: nat,
) -> Seq<Row>
    decreases c.max_depth - depth, 0int, n,
{
    if n == 0 || n > g.len() || depth >= c.max_depth {
        Seq::empty()
    } else {
        let e = g[n - 1];
        let last = n == g.len();
        let row = Row { is_dir: e.is_dir, prefix, last, name: e.name@ };
        let below = if e.is_dir {
            rows(c, e.children@, child_prefix(prefix, last), depth + 1)
        } else {
            Seq::empty()
        };
        rows_upto(c, g, prefix, depth, (n - 1) as nat) + seq![row] + below
    }
}

/// Number of directory lines among `rs`.
pub open spec fn count_dirs(rs: Seq<Row>) -> nat
    decreases rs.len(),
{
    if rs.len() == 0 {
        0
    } else {
        count_dirs(rs.drop_last()) + if rs.last().is_dir {
            1nat
        } else {
            0nat
        }
    }
}

/// Number of file lines among `rs`.
pub open spec fn count_files(rs: Seq<Row>) -> nat
    decreases rs.len(),
{
    if rs.len() == 0 {
        0
    } else {
        count_files(rs.drop_last()) + if rs.last().is_dir {
            0nat
        } else {
            1nat
        }
    }
}

/// The header line: the root path, ending with the separator.
pub open spec fn header(c: TreeConfig) -> Seq<char> {
    if ends_with_spec(c.root_dir, c.separator) {
        c.root_dir
    } else {
        c.root_dir + c.separator
    }
}

/// The closing line, after a line break: `<D> directories, <F> files`.
pub open spec fn summary(dirs: nat, files: nat) -> Seq<char> {
    "\n"@ + decimal_of(dirs) + " directories, "@ + decimal_of(files) + " files"@
}

/// The body lines of a build of the entries `es` of the root.
pub open spec fn body_rows(c: TreeConfig, es: Seq<Entry>) -> Seq<Row> {
    rows(c, es, Seq::empty(), 0)
}

/// The complete undecorated output of a build on a fresh generator: header,
/// body lines, and the closing counts.
pub open spec fn output(c: TreeConfig, es: Seq<Entry>) -> Seq<Seq<char>> {
    let rs = body_rows(c, es);
    seq![header(c)] + rs.map_values(|r: Row| row_text(r, c.separator)) + seq![
        summary(count_dirs(rs), count_files(rs)),
    ]
}

/// `new` is `old` with one line per row of `rs` appended, each the decoration
/// of the row's text, and the counts raised by the rows' kinds.
pub open spec fn extends_with(new: GeneratorView, old: GeneratorView, rs: Seq<Row>) -> bool {
    &&& new.config == old.config
    &&& new.tree.len() == old.tree.len() + rs.len()
    &&& new.tree.subrange(0, old.tree.len() as int) == old.tree
    &&& forall|k: int|
        0 <= k < rs.len() ==> decorated(
            old.config.colored,
            rs[k].is_dir,
            row_text(rs[k], old.config.separator),
            #[trigger] new.tree[old.tree.len() + k],
        )
    &&& new.total_directories == old.total_directories + count_dirs(rs)
    &&& new.total_files == old.total_files + count_files(rs)
}

/// `new` is `old` after a build of the root entries `es`: the decorated
/// header, the decorated body lines and the closing counts appended.
pub open spec fn built(new: GeneratorView, old: GeneratorView, es: Seq<Entry>) -> bool {
    let c = old.config;
    let rs = body_rows(c, es);
    let n = old.tree.len();
    &&& new.config == c
    &&& new.tree.len() == n + rs.len() + 2
    &&& new.tree.subrange(0, n as int) == old.tree
    &&& decorated(c.colored, true, header(c), new.tree[n as int])
    &&& forall|k: int|
        0 <= k < rs.len() ==> decorated(
            c.colored,
            rs[k].is_dir,
            row_text(rs[k], c.separator),
            #[trigger] new.tree[n + 1 + k],
        )
    &&& new.total_directories == old.total_directories + count_dirs(rs)
    &&& new.total_files == old.total_files + count_files(rs)
    &&& new.tree.last() == summary(new.total_directories, new.total_files)
}

/// `order` lists, by index into `es`, the entries of `g` in turn.
spec fn picks(order: Seq<usize>, es: Seq<Entry>, g: Seq<Entry>) -> bool {
    &&& order.len() == g.len()
    &&& forall|k: int| 0 <= k < g.len() ==> #[trigger] order[k] < es.len() && es[order[k] as int] == g[k]
}

pub struct Generator {
    root_dir: String,
    dir_only: bool,
    include_hidden: bool,
    colored: bool,
    exclude_dirs: Vec<String>,
    filter_extensions: Vec<String>,
    max_depth: u16,
    tree: Vec<String>,
    os_separator: String,
    total_directories: usize,
    total_files: usize,
}

impl View for Generator {
    type V = GeneratorView;

    closed spec fn view(&self) -> GeneratorView {
        GeneratorView {
            config: TreeConfig {
                root_dir: self.root_dir@,
                dir_only: self.dir_only,
                include_hidden: self.include_hidden,
                colored: self.colored,
                exclude_dirs: views(self.exclude_dirs@),
                filter_extensions: views(self.filter_extensions@),
                max_depth: self.max_depth as nat,
                separator: self.os_separator@,
            },
            tree: views(self.tree@),
            total_directories: self.total_directories as nat,
            total_files: self.total_files as nat,
        }
    }
}

proof fn lemma_count_concat(a: Seq<Row>, b: Seq<Row>)
    ensures
        count_dirs(a + b) == count_dirs(a) + count_dirs(b),
        count_files(a + b) == count_files(a) + count_files(b),
    decreases b.len(),
{
    if b.len() == 0 {
        assert(a + b =~= a);
    } else {
        lemma_count_concat(a, b.drop_last());
        assert((a + b).drop_last() =~= a + b.drop_last());
    }
}

proof fn lemma_count_single(r: Row)
    ensures
        count_dirs(seq![r]) == if r.is_dir { 1nat } else { 0nat },
        count_files(seq![r]) == if r.is_dir { 0nat } else { 1nat },
{
    assert(seq![r].drop_last() =~= Seq::<Row>::empty());
    assert(count_dirs(Seq::<Row>::empty()) == 0);
    assert(count_files(Seq::<Row>::empty()) == 0);
    assert(seq![r].last() == r);
}

proof fn lemma_extends_refl(v: GeneratorView)
    ensures
        extends_with(v, v, Seq::empty()),
{
    assert(v.tree.subrange(0, v.tree.len() as int) =~= v.tree);
}

proof fn lemma_extends_trans(
    a: GeneratorView,
    b: GeneratorView,
    c: GeneratorView,
    r1: Seq<Row>,
    r2: Seq<Row>,
)
    requires
        extends_with(b, a, r1),
        extends_with(c, b, r2),
    ensures
        extends_with(c, a, r1 + r2),
{
    lemma_count_concat(r1, r2);
    let n = a.tree.len();
    assert forall|k: int| 0 <= k < n implies c.tree[k] == a.tree[k] by {
        assert(c.tree.subrange(0, b.tree.len() as int)[k] == b.tree[k]);
        assert(b.tree.subrange(0, n as int)[k] == a.tree[k]);
    }
    assert(c.tree.subrange(0, n as int) =~= a.tree);
    let r = r1 + r2;
    assert forall|k: int| 0 <= k < r.len() implies decorated(
        a.config.colored,
        r[k].is_dir,
        row_text(r[k], a.config.separator),
        #[trigger] c.tree[n + k],
    ) by {
        if k < r1.len() {
            assert(c.tree.subrange(0, b.tree.len() as int)[n + k] == b.tree[n + k]);
            assert(b.tree[n + k] == b.tree[a.tree.len() + k]);
        } else {
            let j = k - r1.len();
            assert(r[k] == r2[j]);
            assert(c.tree[n + k] == c.tree[b.tree.len() + j]);
        }
    }
}

/// A build on a fresh generator with colour off yields exactly `output`.
pub proof fn lemma_built_fresh_plain(new: GeneratorView, old: GeneratorView, es: Seq<Entry>)
    requires
        built(new, old, es),
        !old.config.colored,
        old.tree.len() == 0,
        old.total_directories == 0,
        old.total_files == 0,
    ensures
        new.tree == output(old.config, es),
{
    let c = old.config;
    let rs = body_rows(c, es);
    let t = new.tree;
    let o = output(c, es);
    assert forall|k: int| 0 <= k < t.len() implies t[k] == o[k] by {
        if 1 <= k < t.len() - 1 {
            assert(t[k] == t[0 + 1 + (k - 1)]);
        }
    }
    assert(t =~= o);
}

impl Generator {
    /// The generator's state is consistent: the two counts never exceed the
    /// number of lines rendered.
    pub open spec fn inv(&self) -> bool {
        self@.total_directories + self@.total_files <= self@.tree.len()
    }

    /// Makes a generator for the tree below `root_dir`, with no lines rendered
    /// yet and both counts at zero.
    pub fn init(
        root_dir: String,
        dir_only: bool,
        exclude_dirs: Vec<String>,
        include_hidden: bool,
        colored: bool,
        max_depth: u16,
        filter_extensions: Vec<String>,
    ) -> (r: Self)
        ensures
            r.inv(),
            r@.config.root_dir == root_dir@,
            r@.config.dir_only == dir_only,
            r@.config.include_hidden == include_hidden,
            r@.config.colored == colored,
            r@.config.exclude_dirs == views(exclude_dirs@),
            r@.config.filter_extensions == views(filter_extensions@),
            r@.config.max_depth == max_depth as nat,
            r@.config.separator == seq!['/'] || r@.config.separator == seq!['\\'],
            r@.tree.len() == 0,
            r@.total_directories == 0,
            r@.total_files == 0,
    {
        let os_separator = platform_separator();
        Generator {
            root_dir,
            dir_only,
            include_hidden,
            colored,
            exclude_dirs,
            filter_extensions,
            max_depth,
            os_separator,
            tree: Vec::new(),
            total_directories: 0,
            total_files: 0,
        }
    }

    /// The maximum depth this generator renders to.
    pub fn max_depth(&self) -> (r: u16)
        ensures
            r as nat == self@.config.max_depth,
    {
        self.max_depth
    }

    /// Keeps an entry unless it is a directory whose name is excluded.
    fn exclude_dir(&self, current_dir: &Entry) -> (r: bool)
        ensures
            r == !excluded_by_name(self@.config, *current_dir),
    {
        if current_dir.is_dir {
            !contains_str(&self.exclude_dirs, &current_dir.name)
        } else {
            true
        }
    }

    /// Keeps an entry unless it is a file whose extension is excluded.
    fn filter_extension(&self, current_file: &Entry) -> (r: bool)
        ensures
            r == !excluded_by_extension(self@.config, *current_file),
    {
        if current_file.is_dir {
            return true;
        }
        match extension(current_file.name.as_str()) {
            None => true,
            Some(ext) => !contains_str(&self.filter_extensions, &ext),
        }
    }

    /// Tells whether `entry` is shown and counted: it passes the name,
    /// extension, hidden and directories-only filters.
    pub fn keeps(&self, entry: &Entry) -> (r: bool)
        ensures
            r == kept(self@.config, *entry),
    {
        self.exclude_dir(entry) && self.filter_extension(entry) && (self.include_hidden
            || !is_hidden(entry.name.as_str())) && (!self.dir_only || entry.is_dir)
    }

    /// Appends to `order` the indices of the kept entries of the given kind,
    /// in read order.
    fn select(&self, entries: &Vec<Entry>, dirs: bool, order: &mut Vec<usize>)
        ensures
            ({
                let f = entries@.filter(kept_of_kind(self@.config, dirs));
                let n = old(order)@.len();
                &&& final(order)@.len() == n + f.len()
                &&& final(order)@.subrange(0, n as int) == old(order)@
                &&& forall|k: int|
                    0 <= k < f.len() ==> #[trigger] final(order)@[n + k] < entries@.len()
                        && entries@[final(order)@[n + k] as int] == f[k]
            }),
    {
        let ghost p = kept_of_kind(self@.config, dirs);
        let ghost n = order@.len();
        let ghost start = order@;
        let mut i: usize = 0;
        while i < entries.len()
            invariant
                i <= entries@.len(),
                p == kept_of_kind(self@.config, dirs),
                order@.len() == n + entries@.take(i as int).filter(p).len(),
                order@.subrange(0, n as int) == start,
                forall|k: int|
                    0 <= k < entries@.take(i as int).filter(p).len() ==> #[trigger] order@[n
                        + k] < entries@.len() && entries@[order@[n + k] as int] == entries@.take(
                        i as int,
                    ).filter(p)[k],
            decreases entries@.len() - i,
        {
            let ghost before = order@;
            proof {
                reveal(Seq::filter);
            }
            assert(entries@.take(i + 1).drop_last() =~= entries@.take(i as int));
            let e = &entries[i];
            if e.is_dir == dirs && self.keeps(e) {
                order.push(i);
                assert(order@.subrange(0, n as int) =~= before.subrange(0, n as int));
            }
            i = i + 1;
        }
        assert(entries@.take(entries@.len() as int) =~= entries@);
    }

    /// Appends `text` as a line, decorated when colour is on.
    fn add_line(&mut self, is_dir: bool, text: String)
        requires
            old(self).inv(),
        ensures
            final(self).inv(),
            final(self)@.config == old(self)@.config,
            final(self)@.tree.drop_last() == old(self)@.tree,
            final(self)@.tree.len() == old(self)@.tree.len() + 1,
            decorated(old(self)@.config.colored, is_dir, text@, final(self)@.tree.last()),
            final(self)@.total_directories == old(self)@.total_directories,
            final(self)@.total_files == old(self)@.total_files,
    {
        let line = if !self.colored {
            text
        } else if is_dir {
            red_bold(&text)
        } else {
            green(&text)
        };
        self.tree.push(line);
        assert(views(self.tree@).drop_last() =~= views(old(self).tree@));
    }

    /// Appends the header line: the root path, with the separator added
    /// unless it already ends with one.
    fn build_tree_head(&mut self)
        requires
            old(self).inv(),
        ensures
            final(self).inv(),
            final(self)@.config == old(self)@.config,
            final(self)@.tree.drop_last() == old(self)@.tree,
            final(self)@.tree.len() == old(self)@.tree.len() + 1,
            decorated(old(self)@.config.colored, true, header(old(self)@.config), final(self)@.tree.last()),
            final(self)@.total_directories == old(self)@.total_directories,
            final(self)@.total_files == old(self)@.total_files,
    {
        let mut root_dir_str = self.root_dir.clone();
        if !ends_with(root_dir_str.as_str(), self.os_separator.as_str()) {
            root_dir_str.append(self.os_separator.as_str());
        }
        self.add_line(true, root_dir_str);
    }

    /// The text of a body line: indentation, connector, a space and the name.
    fn entry_text(prefix: &String, last: bool, name: &String) -> (r: String)
        ensures
            r@ == prefix@ + connector(last) + seq![' '] + name@,
    {
        proof {
            reveal_strlit(" ");
        }
        let mut line = prefix.clone();
        line.append(if last { ELBOW } else { TEE });
        line.append(" ");
        line.append(name.as_str());
        line
    }

    /// Renders a kept directory: its line, then its subtree one level deeper.
    fn add_directory(&mut self, directory: &Entry, last: bool, prefix: &String, depth: u16)
        requires
            old(self).inv(),
            directory.is_dir,
            depth < old(self)@.config.max_depth,
        ensures
            final(self).inv(),
            extends_with(
                final(self)@,
                old(self)@,
                seq![(Row { is_dir: true, prefix: prefix@, last, name: directory.name@ })] + rows(
                    old(self)@.config,
                    directory.children@,
                    child_prefix(prefix@, last),
                    (depth + 1) as nat,
                ),
            ),
        decreases old(self).max_depth - depth, 0int,
    {
        let ghost start = self@;
        let ghost row = Row { is_dir: true, prefix: prefix@, last, name: directory.name@ };
        let mut line = Self::entry_text(prefix, last, &directory.name);
        line.append(self.os_separator.as_str());
        self.add_line(true, line);
        let _ = self.tree.len();
        self.total_directories = self.total_directories + 1;
        let ghost mid = self@;
        proof {
            lemma_count_single(row);
            assert(mid.tree.subrange(0, start.tree.len() as int) =~= mid.tree.drop_last());
            assert(extends_with(mid, start, seq![row]));
        }
        let mut this_prefix = prefix.clone();
        this_prefix.append(if last { SPACE_PREFIX } else { PIPE_PREFIX });
        self.build_tree_body(&directory.children, &this_prefix, depth + 1);
        proof {
            lemma_extends_trans(
                start,
                mid,
                self@,
                seq![row],
                rows(start.config, directory.children@, child_prefix(prefix@, last), (depth + 1) as nat),
            );
        }
    }

    /// Renders a kept file: its line alone.
    fn add_file(&mut self, file: &Entry, last: bool, prefix: &String)
        requires
            old(self).inv(),
            !file.is_dir,
        ensures
            final(self).inv(),
            extends_with(
                final(self)@,
                old(self)@,
                seq![(Row { is_dir: false, prefix: prefix@, last, name: file.name@ })],
            ),
    {
        let ghost start = self@;
        let ghost row = Row { is_dir: false, prefix: prefix@, last, name: file.name@ };
        let line = Self::entry_text(prefix, last, &file.name);
        self.add_line(false, line);
        let _ = self.tree.len();
        self.total_files = self.total_files + 1;
        proof {
            lemma_count_single(row);
            assert(self@.tree.subrange(0, start.tree.len() as int) =~= self@.tree.drop_last());
            assert(row_text(row, start.config.separator) =~= prefix@ + connector(last) + seq![' ']
                + file.name@);
        }
    }

    /// Renders the entries `entries` of a directory at depth `depth`: the
    /// kept directories, then the kept files, each followed by its subtree.
    fn build_tree_body(&mut self, entries: &Vec<Entry>, prefix: &String, depth: u16)
        requires
            old(self).inv(),
            depth <= old(self)@.config.max_depth,
        ensures
            final(self).inv(),
            extends_with(
                final(self)@,
                old(self)@,
                rows(old(self)@.config, entries@, prefix@, depth as nat),
            ),
        decreases old(self).max_depth - depth, 1int,
    {
        let ghost start = self@;
        let ghost c = self@.config;
        if depth == self.max_depth {
            proof {
                lemma_extends_refl(start);
            }
            return;
        }
        let ghost g = siblings(c, entries@);
        let mut order: Vec<usize> = Vec::new();
        self.select(entries, true, &mut order);
        self.select(entries, false, &mut order);
        proof {
            let fd = entries@.filter(kept_of_kind(c, true));
            assert forall|k: int| 0 <= k < g.len() implies #[trigger] order@[k] < entries@.len()
                && entries@[order@[k] as int] == g[k] by {
                if k >= fd.len() {
                    let j = k - fd.len();
                    assert(order@[fd.len() + j] < entries@.len());
                } else {
                    assert(order@.subrange(0, fd.len() as int)[k] == order@[k]);
                    assert(order@[0 + k] < entries@.len());
                }
            }
            assert(picks(order@, entries@, g));
        }
        let count = order.len();
        let mut pos: usize = 0;
        proof {
            lemma_extends_refl(start);
        }

        while pos < count
            invariant
                self.inv(),
                self@.config == c,
                start.config == c,
                depth < c.max_depth,
                c.max_depth == self.max_depth,
                old(self).max_depth == self.max_depth,
                count == g.len(),
                order@.len() == count,
                picks(order@, entries@, g),
                pos <= count,
                extends_with(self@, start, rows_upto(c, g, prefix@, depth as nat, pos as nat)),
            decreases count - pos,
        {
            let entry = &entries[order[pos]];
            let last = pos == count - 1;
            let ghost before = self@;
            let ghost row = Row { is_dir: entry.is_dir, prefix: prefix@, last, name: entry.name@ };
            let ghost done = rows_upto(c, g, prefix@, depth as nat, pos as nat);
            if entry.is_dir {
                self.add_directory(entry, last, prefix, depth);
                proof {
                    let below = rows(c, entry.children@, child_prefix(prefix@, last), (depth + 1) as nat);
                    lemma_extends_trans(start, before, self@, done, seq![row] + below);
                    assert(done + (seq![row] + below) =~= done + seq![row] + below);
                }
            } else {
                self.add_file(entry, last, prefix);
                proof {
                    lemma_extends_trans(start, before, self@, done, seq![row]);
                    assert(done + seq![row] + Seq::<Row>::empty() =~= done + seq![row]);
                }
            }
            pos = pos + 1;
        }
    }

    /// Renders the whole tree: the header, the body lines for the root's
    /// entries down to the maximum depth, a line break and the closing counts.
    /// Returns every line rendered by this generator.
    pub fn build_tree(&mut self, entries: &Vec<Entry>) -> (r: &Vec<String>)
        requires
            old(self).inv(),
        ensures
            final(self).inv(),
            built(final(self)@, old(self)@, entries@),
            views(r@) == final(self)@.tree,
            !old(self)@.config.colored && old(self)@.tree.len() == 0
                && old(self)@.total_directories == 0 && old(self)@.total_files == 0
                ==> final(self)@.tree == output(old(self)@.config, entries@),
    {
        let ghost start = self@;
        let ghost c = self@.config;
        let ghost rs = body_rows(c, entries@);
        self.build_tree_head();
        let ghost after_head = self@;
        let empty = String::new();
        self.build_tree_body(entries, &empty, 0);
        let ghost after_body = self@;
        let mut s = String::from_str("\n");
        s.append(decimal(self.total_directories).as_str());
        s.append(" directories, ");
        s.append(decimal(self.total_files).as_str());
        s.append(" files");
        self.tree.push(s);
        proof {
            let n = start.tree.len();
            let t = self@.tree;
            assert(t.drop_last() =~= after_body.tree);
            assert(t.subrange(0, n as int) =~= start.tree) by {
                assert forall|k: int| 0 <= k < n implies t[k] == start.tree[k] by {
                    assert(after_body.tree.subrange(0, n + 1int)[k] == after_head.tree[k]);
                    assert(after_head.tree.drop_last()[k] == start.tree[k]);
                }
            }
            assert(t[n as int] == after_head.tree.last()) by {
                assert(after_body.tree.subrange(0, n + 1int)[n as int] == after_head.tree[n as int]);
            }
            assert forall|k: int| 0 <= k < rs.len() implies decorated(
                c.colored,
                rs[k].is_dir,
                row_text(rs[k], c.separator),
                #[trigger] t[n + 1 + k],
            ) by {
                assert(t[n + 1 + k] == after_body.tree[after_head.tree.len() + k]);
            }
        }
        proof {
            if !c.colored && start.tree.len() == 0 && start.total_directories == 0
                && start.total_files == 0 {
                lemma_built_fresh_plain(self@, start, entries@);
            }
        }
        &self.tree
    }

} // impl Generator

} // verus!
