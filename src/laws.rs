//! Laws of the rendered tree, stated over the model that `build_tree`'s
//! contract uses and proved from it.
use crate::decorate::decorated;
use crate::text::is_hidden_name;
use crate::tree::{
    body_rows, built, child_prefix, count_dirs, count_files, excluded_by_extension,
    excluded_by_name, header, kept, kept_of_kind, lemma_built_fresh_plain, output,
    passes_dir_only_filter, row_text, rows, rows_upto, siblings, summary, Entry, GeneratorView,
    Row, TreeConfig, PIPE_PREFIX, SPACE_PREFIX,
};
use vstd::prelude::*;

verus! {

/// Rows whose indentation has the length `n`: within the rows of one
/// directory's entries, those of the entries themselves and not of their
/// subtrees.
pub open spec fn at_indent(n: nat) -> spec_fn(Row) -> bool {
    |r: Row| r.prefix.len() == n
}

/// The row of the `k`-th entry of the sibling group `g`.
pub open spec fn group_row(g: Seq<Entry>, prefix: Seq<char>, k: int) -> Row {
    Row { is_dir: g[k].is_dir, prefix, last: k == g.len() - 1, name: g[k].name@ }
}

/// With maximum depth 0 the output is the header and the closing line with
/// both counts at zero, and nothing between.
pub proof fn lemma_depth_zero(c: TreeConfig, es: Seq<Entry>)
    requires
        c.max_depth == 0,
    ensures
        body_rows(c, es).len() == 0,
        output(c, es) == seq![header(c), summary(0, 0)],
{
    let rs = body_rows(c, es);
    assert(rs.len() == 0);
    assert(count_dirs(rs) == 0 && count_files(rs) == 0);
    assert(output(c, es) =~= seq![header(c), summary(0, 0)]);
}

proof fn lemma_counts_total(rs: Seq<Row>)
    ensures
        count_dirs(rs) + count_files(rs) == rs.len(),
    decreases rs.len(),
{
    if rs.len() > 0 {
        lemma_counts_total(rs.drop_last());
    }
}

/// After a build on a fresh generator the two counters are the numbers of
/// directory lines and of file lines among the body lines, every body line is
/// one of the two, and the closing line states the counters.
pub proof fn lemma_counters_match_lines(new: GeneratorView, old: GeneratorView, es: Seq<Entry>)
    requires
        built(new, old, es),
        old.tree.len() == 0,
        old.total_directories == 0,
        old.total_files == 0,
    ensures
        new.total_directories == count_dirs(body_rows(old.config, es)),
        new.total_files == count_files(body_rows(old.config, es)),
        new.total_directories + new.total_files + 2 == new.tree.len(),
        new.tree.last() == summary(new.total_directories, new.total_files),
{
    lemma_counts_total(body_rows(old.config, es));
}

/// In every sibling group the directories come before the files.
pub proof fn lemma_directories_first(c: TreeConfig, es: Seq<Entry>, i: int, j: int)
    requires
        0 <= i < j < siblings(c, es).len(),
        siblings(c, es)[j].is_dir,
    ensures
        siblings(c, es)[i].is_dir,
{
    broadcast use Seq::lemma_filter_pred;

    let fd = es.filter(kept_of_kind(c, true));
    let ff = es.filter(kept_of_kind(c, false));
    let g = siblings(c, es);
    if j >= fd.len() {
        assert(g[j] == ff[j - fd.len()]);
        assert(kept_of_kind(c, false)(ff[j - fd.len()]));
    }
    assert(g[i] == fd[i]);
    assert(kept_of_kind(c, true)(fd[i]));
}

proof fn lemma_prefix_lengths() 
    ensures
        SPACE_PREFIX@.len() == 5,
        PIPE_PREFIX@.len() == 5,
{
    reveal_strlit("     ");
    reveal_strlit("│    ");
}

/// Every row below a directory is indented further than the directory's own
/// entries, and with hidden entries left out none of them is hidden.
proof fn lemma_rows_facts(c: TreeConfig, es: Seq<Entry>, p: Seq<char>, d: nat)
    ensures
        forall|k: int| 0 <= k < rows(c, es, p, d).len() ==> (#[trigger] rows(c, es, p, d)[k]).prefix.len() >= p.len(),
        forall|k: int| 0 <= k < rows(c, es, p, d).len() && !c.include_hidden ==> !is_hidden_name(
            (#[trigger] rows(c, es, p, d)[k]).name,
        ),
    decreases c.max_depth - d, 1int, 0int,
{
    if d < c.max_depth {
        let g = siblings(c, es);
        lemma_siblings_kept(c, es);
        lemma_rows_upto_facts(c, g, p, d, g.len());
        assert(rows(c, es, p, d) == rows_upto(c, g, p, d, g.len()));
    } else {
        assert(rows(c, es, p, d) =~= Seq::<Row>::empty());
    }
}

proof fn lemma_siblings_kept(c: TreeConfig, es: Seq<Entry>)
    ensures
        forall|k: int| 0 <= k < siblings(c, es).len() ==> kept(c, #[trigger] siblings(c, es)[k]),
{
    broadcast use Seq::lemma_filter_pred;

    let fd = es.filter(kept_of_kind(c, true));
    let ff = es.filter(kept_of_kind(c, false));
    let g = siblings(c, es);
    assert forall|k: int| 0 <= k < g.len() implies kept(c, #[trigger] g[k]) by {
        if k < fd.len() {
            assert(g[k] == fd[k]);
            assert(kept_of_kind(c, true)(fd[k]));
        } else {
            assert(g[k] == ff[k - fd.len()]);
            assert(kept_of_kind(c, false)(ff[k - fd.len()]));
        }
    }
}

proof fn lemma_rows_upto_facts(c: TreeConfig, g: Seq<Entry>, p: Seq<char>, d: nat, n: nat)
    requires
        forall|k: int| 0 <= k < g.len() ==> kept(c, #[trigger] g[k]),
    ensures
        forall|k: int| 0 <= k < rows_upto(c, g, p, d, n).len() ==> (#[trigger] rows_upto(c, g, p, d, n)[k]).prefix.len() >= p.len(),
        forall|k: int| 0 <= k < rows_upto(c, g, p, d, n).len() && !c.include_hidden ==> !is_hidden_name(
            (#[trigger] rows_upto(c, g, p, d, n)[k]).name,
        ),
    decreases c.max_depth - d, 0int, n,
{
    if n == 0 || n > g.len() || d >= c.max_depth {
        assert(rows_upto(c, g, p, d, n) =~= Seq::<Row>::empty());
    } else {
        let e = g[n - 1];
        let last = n == g.len();
        let row = Row { is_dir: e.is_dir, prefix: p, last, name: e.name@ };
        let cp = child_prefix(p, last);
        let below = if e.is_dir {
            rows(c, e.children@, cp, d + 1)
        } else {
            Seq::empty()
        };
        let before = rows_upto(c, g, p, d, (n - 1) as nat);
        lemma_rows_upto_facts(c, g, p, d, (n - 1) as nat);
        lemma_prefix_lengths();
        if e.is_dir {
            lemma_rows_facts(c, e.children@, cp, d + 1);
        }
        let all = rows_upto(c, g, p, d, n);
        assert(all == before + seq![row] + below);
        assert(kept(c, g[n - 1]));
        assert forall|k: int| 0 <= k < all.len() implies (#[trigger] all[k]).prefix.len() >= p.len()
            && (!c.include_hidden ==> !is_hidden_name(all[k].name)) by {
            if k < before.len() {
                assert(all[k] == before[k]);
            } else if k == before.len() {
                assert(all[k] == row);
            } else {
                assert(all[k] == below[k - before.len() - 1]);
            }
        }
    }
}

proof fn lemma_rows_upto_own(c: TreeConfig, g: Seq<Entry>, p: Seq<char>, d: nat, n: nat)
    requires
        n <= g.len(),
        d < c.max_depth,
    ensures
        rows_upto(c, g, p, d, n).filter(at_indent(p.len())) == Seq::new(
            n,
            |k: int| group_row(g, p, k),
        ),
    decreases n,
{
    let f = at_indent(p.len());
    if n == 0 {
        assert(rows_upto(c, g, p, d, n) =~= Seq::<Row>::empty());
        assert(Seq::<Row>::empty().filter(f) =~= Seq::<Row>::empty()) by {
            reveal(Seq::filter);
        }
        assert(Seq::new(n, |k: int| group_row(g, p, k)) =~= Seq::<Row>::empty());
    } else {
        let e = g[n - 1];
        let last = n == g.len();
        let row = Row { is_dir: e.is_dir, prefix: p, last, name: e.name@ };
        let cp = child_prefix(p, last);
        let below = if e.is_dir {
            rows(c, e.children@, cp, d + 1)
        } else {
            Seq::empty()
        };
        let before = rows_upto(c, g, p, d, (n - 1) as nat);
        lemma_rows_upto_own(c, g, p, d, (n - 1) as nat);
        lemma_prefix_lengths();
        if e.is_dir {
            lemma_rows_facts(c, e.children@, cp, d + 1);
        }
        assert(rows_upto(c, g, p, d, n) == before + seq![row] + below);
        Seq::filter_distributes_over_add(before + seq![row], below, f);
        Seq::filter_distributes_over_add(before, seq![row], f);
        assert(seq![row].filter(f) =~= seq![row]) by {
            reveal(Seq::filter);
            assert(seq![row].drop_last() =~= Seq::<Row>::empty());
            assert(Seq::<Row>::empty().filter(f) =~= Seq::<Row>::empty());
        }
        assert forall|k: int| 0 <= k < below.len() implies !f(#[trigger] below[k]) by {}
        below.lemma_all_neg_filter_empty(f);
        assert(row == group_row(g, p, n - 1));
        assert(Seq::new(n, |k: int| group_row(g, p, k)) =~= Seq::new(
            (n - 1) as nat,
            |k: int| group_row(g, p, k),
        ) + seq![row]);
    }
}

/// In every sibling group, the lines of the group's own entries (those
/// indented as the group) are one per shown entry, in display order; exactly
/// one of them has the elbow connector, and it is the last.
pub proof fn lemma_one_elbow_last(c: TreeConfig, es: Seq<Entry>, p: Seq<char>, d: nat)
    requires
        d < c.max_depth,
        siblings(c, es).len() > 0,
    ensures
        ({
            let own = rows(c, es, p, d).filter(at_indent(p.len()));
            let g = siblings(c, es);
            &&& own.len() == g.len()
            &&& forall|k: int| 0 <= k < own.len() ==> (#[trigger] own[k]).name == g[k].name@
                && own[k].is_dir == g[k].is_dir
            &&& own[own.len() - 1].last
            &&& forall|k: int| 0 <= k < own.len() - 1 ==> !(#[trigger] own[k]).last
        }),
{
    let g = siblings(c, es);
    lemma_rows_upto_own(c, g, p, d, g.len());
}

/// The elbow and the tee connectors differ, so the last row of a group is the
/// only one drawn with the elbow.
pub proof fn lemma_elbow_distinct()
    ensures
        crate::tree::connector(true) != crate::tree::connector(false),
{
    reveal_strlit("└───");
    reveal_strlit("├───");
    assert(crate::tree::connector(true)[0] != crate::tree::connector(false)[0]);
}

/// Two builds with the same configuration on fresh generators, over the
/// same entries, give the same counts and line for line the decoration of
/// the same text; with colour off, the same lines exactly.
pub proof fn lemma_build_deterministic(
    old1: GeneratorView,
    new1: GeneratorView,
    old2: GeneratorView,
    new2: GeneratorView,
    es: Seq<Entry>,
)
    requires
        old1.config == old2.config,
        old1.tree.len() == 0 && old1.total_directories == 0 && old1.total_files == 0,
        old2.tree.len() == 0 && old2.total_directories == 0 && old2.total_files == 0,
        built(new1, old1, es),
        built(new2, old2, es),
    ensures
        new1.total_directories == new2.total_directories,
        new1.total_files == new2.total_files,
        new1.tree.len() == new2.tree.len(),
        new1.tree.last() == new2.tree.last(),
        forall|k: int|
            0 <= k < body_rows(old1.config, es).len() ==> decorated(
                old1.config.colored,
                body_rows(old1.config, es)[k].is_dir,
                row_text(body_rows(old1.config, es)[k], old1.config.separator),
                #[trigger] new1.tree[1 + k],
            ) && decorated(
                old1.config.colored,
                body_rows(old1.config, es)[k].is_dir,
                row_text(body_rows(old1.config, es)[k], old1.config.separator),
                new2.tree[1 + k],
            ),
        !old1.config.colored ==> new1.tree == new2.tree,
{
    let rs = body_rows(old1.config, es);
    assert forall|k: int| 0 <= k < rs.len() implies #[trigger] new1.tree[1 + k] == new1.tree[0 + 1 + k]
        && new2.tree[1 + k] == new2.tree[0 + 1 + k] by {}
    if !old1.config.colored {
        lemma_built_fresh_plain(new1, old1, es);
        lemma_built_fresh_plain(new2, old2, es);
    }
}

/// Exclusion by name never drops a file, and whether a file is shown does
/// not depend on the name exclusion list.
pub proof fn lemma_name_exclusion_spares_files(c: TreeConfig, e: Entry, names: Seq<Seq<char>>)
    requires
        !e.is_dir,
    ensures
        !excluded_by_name(c, e),
        kept(c, e) == kept(TreeConfig { exclude_dirs: names, ..c }, e),
{
}

/// Exclusion by extension never drops a directory, whatever its name ends
/// with, and whether a directory is shown does not depend on the extension
/// list.
pub proof fn lemma_extension_exclusion_spares_directories(
    c: TreeConfig,
    e: Entry,
    exts: Seq<Seq<char>>,
)
    requires
        e.is_dir,
    ensures
        !excluded_by_extension(c, e),
        kept(c, e) == kept(TreeConfig { filter_extensions: exts, ..c }, e),
{
}

/// With hidden entries left out, no body line carries a hidden name; with
/// them included, an entry is shown exactly when the other filters let it
/// through, hidden or not.
pub proof fn lemma_hidden_suppression(c: TreeConfig, es: Seq<Entry>, e: Entry)
    ensures
        !c.include_hidden ==> forall|k: int|
            0 <= k < body_rows(c, es).len() ==> !is_hidden_name(
                (#[trigger] body_rows(c, es)[k]).name,
            ),
        c.include_hidden ==> (kept(c, e) <==> (!excluded_by_name(c, e) && !excluded_by_extension(
            c,
            e,
        ) && passes_dir_only_filter(c, e))),
{
    lemma_rows_facts(c, es, Seq::empty(), 0);
}

/// Every entry that passes the filters is among the shown entries of its
/// directory, hidden or not.
pub proof fn lemma_kept_entry_shown(c: TreeConfig, es: Seq<Entry>, i: int)
    requires
        0 <= i < es.len(),
        kept(c, es[i]),
    ensures
        siblings(c, es).contains(es[i]),
{
    broadcast use Seq::lemma_filter_contains;

    let fd = es.filter(kept_of_kind(c, true));
    let ff = es.filter(kept_of_kind(c, false));
    let g = siblings(c, es);
    if es[i].is_dir {
        assert(kept_of_kind(c, true)(es[i]));
        assert(fd.contains(es[i]));
        let j = choose|j: int| 0 <= j < fd.len() && fd[j] == es[i];
        assert(g[j] == es[i]);
    } else {
        assert(kept_of_kind(c, false)(es[i]));
        assert(ff.contains(es[i]));
        let j = choose|j: int| 0 <= j < ff.len() && ff[j] == es[i];
        assert(g[fd.len() + j] == es[i]);
    }
}

/// A directory on the exclusion list is pruned with everything below it:
/// the lines rendered for its directory are those rendered without it.
pub proof fn lemma_excluded_directory_pruned(
    c: TreeConfig,
    es: Seq<Entry>,
    i: int,
    p: Seq<char>,
    d: nat,
)
    requires
        0 <= i < es.len(),
        es[i].is_dir,
        c.exclude_dirs.contains(es[i].name@),
    ensures
        siblings(c, es) == siblings(c, es.remove(i)),
        rows(c, es, p, d) == rows(c, es.remove(i), p, d),
{
    let a = es.take(i);
    let b = es.skip(i + 1);
    let x = seq![es[i]];
    assert(es =~= a + x + b);
    assert(es.remove(i) =~= a + b);
    assert forall|dirs: bool| #[trigger] x.filter(kept_of_kind(c, dirs)) =~= Seq::<Entry>::empty() by {
        reveal(Seq::filter);
        let f = kept_of_kind(c, dirs);
        assert(x.drop_last() =~= Seq::<Entry>::empty());
        assert(Seq::<Entry>::empty().filter(f) =~= Seq::<Entry>::empty());
        assert(x.last() == es[i]);
        assert(!f(es[i]));
    }
    assert forall|dirs: bool| #[trigger] es.filter(kept_of_kind(c, dirs)) == es.remove(i).filter(
        kept_of_kind(c, dirs),
    ) by {
        let f = kept_of_kind(c, dirs);
        Seq::filter_distributes_over_add(a + x, b, f);
        Seq::filter_distributes_over_add(a, x, f);
        Seq::filter_distributes_over_add(a, b, f);
        assert(x.filter(f) =~= Seq::<Entry>::empty());
        assert(a.filter(f) + x.filter(f) =~= a.filter(f));
    }
    assert(es.filter(kept_of_kind(c, true)) == es.remove(i).filter(kept_of_kind(c, true)));
    assert(es.filter(kept_of_kind(c, false)) == es.remove(i).filter(kept_of_kind(c, false)));
}

} // verus!
