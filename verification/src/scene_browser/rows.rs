//! The rows of the scene browser's prim table: which prims are listed, in
//! which order and at which depth.

use vstd::prelude::*;

use crate::scene_browser::provider::{PrimDataProvider, PrimDisplayInfo, PrimInfoView};
use crate::scene_browser::{filter_admits, SceneBrowserState};
use crate::text::texts;

verus! {

/// Whether a prim gets a row: an inactive prim only while inactive prims are
/// shown, and only a prim that the search filter admits or that has children
/// (one of its descendants may match).
pub open spec fn row_shown(st: SceneBrowserState, i: PrimInfoView) -> bool {
    &&& st.show_inactive || i.is_active
    &&& filter_admits(st.search_filter@, i.path, i.prim_type) || i.has_children
}

/// The rows of the prim at `path` and of its listed descendants, depth first,
/// each with its depth; the children of a shown prim are listed while it is
/// expanded, has children, and `fuel` levels of descent remain.
pub open spec fn tree_rows<P: PrimDataProvider>(
    p: &P,
    st: SceneBrowserState,
    path: Seq<char>,
    depth: nat,
    fuel: nat,
) -> Seq<(PrimInfoView, nat)>
    decreases fuel, 0nat, 0nat,
{
    match p.info_of(path) {
        None => seq![],
        Some(i) => if !row_shown(st, i) {
            seq![]
        } else {
            seq![(i, depth)] + if fuel > 0 && i.has_children && st.expanded().contains(i.path) {
                forest_rows(p, st, p.children_seq(i.path), depth + 1, (fuel - 1) as nat)
            } else {
                seq![]
            }
        },
    }
}

/// The rows of the prims at `paths` and of their listed descendants, in order.
pub open spec fn forest_rows<P: PrimDataProvider>(
    p: &P,
    st: SceneBrowserState,
    paths: Seq<Seq<char>>,
    depth: nat,
    fuel: nat,
) -> Seq<(PrimInfoView, nat)>
    decreases fuel, 1nat, paths.len(),
{
    if paths.len() == 0 {
        seq![]
    } else {
        forest_rows(p, st, paths.drop_last(), depth, fuel) + tree_rows(
            p,
            st,
            paths.last(),
            depth,
            fuel,
        )
    }
}

/// The records and depths of a list of rows.
pub open spec fn row_views(rows: Seq<(PrimDisplayInfo, usize)>) -> Seq<(PrimInfoView, nat)> {
    rows.map_values(|r: (PrimDisplayInfo, usize)| (r.0@, r.1 as nat))
}

fn push_tree<P: PrimDataProvider>(
    st: &SceneBrowserState,
    provider: &P,
    path: &str,
    depth: usize,
    fuel: usize,
    out: &mut Vec<(PrimDisplayInfo, usize)>,
)
    requires
        depth + fuel <= usize::MAX,
    ensures
        row_views(final(out)@) == row_views(old(out)@) + tree_rows(
            provider,
            *st,
            path@,
            depth as nat,
            fuel as nat,
        ),
    decreases fuel, 0nat,
{
    let ghost before = row_views(out@);
    let info = match provider.get_prim_info(path) {
        Some(i) => i,
        None => {
            assert(before + seq![] =~= before);
            return ;
        },
    };
    let shown = (st.show_inactive || info.is_active) && (st.matches_filter(
        info.path.as_str(),
        info.prim_type.as_str(),
    ) || info.has_children);
    if !shown {
        assert(before + seq![] =~= before);
        return ;
    }
    let expand = fuel > 0 && info.has_children && st.is_expanded(info.path.as_str());
    let children = if expand {
        provider.get_children(info.path.as_str())
    } else {
        Vec::new()
    };
    let ghost iv = info@;
    out.push((info, depth));
    assert(row_views(out@) =~= before.push((iv, depth as nat)));
    if expand {
        push_forest(st, provider, &children, depth + 1, fuel - 1, out);
        assert(row_views(out@) =~= before + (seq![(iv, depth as nat)] + forest_rows(
            provider,
            *st,
            provider.children_seq(iv.path),
            depth as nat + 1,
            (fuel - 1) as nat,
        )));
    } else {
        assert(row_views(out@) =~= before + (seq![(iv, depth as nat)] + seq![]));
    }
}

fn push_forest<P: PrimDataProvider>(
    st: &SceneBrowserState,
    provider: &P,
    paths: &Vec<String>,
    depth: usize,
    fuel: usize,
    out: &mut Vec<(PrimDisplayInfo, usize)>,
)
    requires
        depth + fuel <= usize::MAX,
    ensures
        row_views(final(out)@) == row_views(old(out)@) + forest_rows(
            provider,
            *st,
            texts(paths@),
            depth as nat,
            fuel as nat,
        ),
    decreases fuel, 1nat,
{
    let ghost start = row_views(out@);
    let ghost tp = texts(paths@);
    let mut k: usize = 0;
    assert(tp.take(0) =~= seq![]);
    assert(start + seq![] =~= start);
    while k < paths.len()
        invariant
            k <= paths@.len(),
            tp == texts(paths@),
            depth + fuel <= usize::MAX,
            row_views(out@) == start + forest_rows(
                provider,
                *st,
                tp.take(k as int),
                depth as nat,
                fuel as nat,
            ),
        decreases paths@.len() - k,
    {
        let ghost mid = row_views(out@);
        push_tree(st, provider, paths[k].as_str(), depth, fuel, out);
        assert(tp.take(k + 1).drop_last() =~= tp.take(k as int));
        assert(tp.take(k + 1).last() == paths@[k as int]@);
        assert(row_views(out@) =~= start + forest_rows(
            provider,
            *st,
            tp.take(k + 1),
            depth as nat,
            fuel as nat,
        ));
        k = k + 1;
    }
    assert(tp.take(paths@.len() as int) =~= tp);
}

impl SceneBrowserState {
    /// The rows of the prim table, depth first from the roots, each prim with
    /// its depth in the tree. A prim's children follow it while it is
    /// expanded. The descent goes at most as many levels deep as there are
    /// expanded paths: on a chain of listed prims every one but the last is
    /// expanded, and the chain holds none twice unless the hierarchy loops
    /// back on itself, where the table would otherwise never end.
    pub fn visible_rows<P: PrimDataProvider>(&self, provider: &P) -> (rows: Vec<
        (PrimDisplayInfo, usize),
    >)
        ensures
            row_views(rows@) == forest_rows(
                provider,
                *self,
                provider.root_seq(),
                0,
                self.expanded_paths@.len(),
            ),
    {
        let roots = provider.root_paths();
        let mut rows: Vec<(PrimDisplayInfo, usize)> = Vec::new();
        push_forest(self, provider, &roots, 0, self.expanded_paths.len(), &mut rows);
        assert(row_views(rows@) =~= seq![] + row_views(rows@));
        rows
    }
}

/// Every row is at depth `base` or deeper, and every row deeper than `base`
/// follows a row one level up of an expanded prim with children.
pub open spec fn rows_nested(rows: Seq<(PrimInfoView, nat)>, st: SceneBrowserState, base: nat) -> bool {
    forall|k: int|
        0 <= k < rows.len() ==> #[trigger] rows[k].1 >= base && (rows[k].1 > base ==> exists|j: int|
            0 <= j < k && rows[j].1 + 1 == rows[k].1 && st.expanded().contains(rows[j].0.path)
                && rows[j].0.has_children)
}

proof fn lemma_nested_concat(
    a: Seq<(PrimInfoView, nat)>,
    b: Seq<(PrimInfoView, nat)>,
    st: SceneBrowserState,
    base: nat,
)
    requires
        rows_nested(a, st, base),
        rows_nested(b, st, base),
    ensures
        rows_nested(a + b, st, base),
{
    let c = a + b;
    assert forall|k: int| 0 <= k < c.len() implies #[trigger] c[k].1 >= base && (c[k].1 > base
        ==> exists|j: int|
        0 <= j < k && c[j].1 + 1 == c[k].1 && st.expanded().contains(c[j].0.path)
            && c[j].0.has_children) by {
        if k < a.len() {
            assert(c[k] == a[k]);
            if a[k].1 > base {
                let j = choose|j: int|
                    0 <= j < k && a[j].1 + 1 == a[k].1 && st.expanded().contains(a[j].0.path)
                        && a[j].0.has_children;
                assert(c[j] == a[j]);
            }
        } else {
            let m = k - a.len();
            assert(c[k] == b[m]);
            assert(b[m].1 >= base);
            if b[m].1 > base {
                let j = choose|j: int|
                    0 <= j < m && b[j].1 + 1 == b[m].1 && st.expanded().contains(b[j].0.path)
                        && b[j].0.has_children;
                assert(c[j + a.len()] == b[j]);
            }
        }
    }
}

proof fn lemma_nested_under(
    i: PrimInfoView,
    d: nat,
    b: Seq<(PrimInfoView, nat)>,
    st: SceneBrowserState,
)
    requires
        rows_nested(b, st, d + 1),
        st.expanded().contains(i.path),
        i.has_children,
    ensures
        rows_nested(seq![(i, d)] + b, st, d),
{
    let c = seq![(i, d)] + b;
    assert forall|k: int| 0 <= k < c.len() implies #[trigger] c[k].1 >= d && (c[k].1 > d
        ==> exists|j: int|
        0 <= j < k && c[j].1 + 1 == c[k].1 && st.expanded().contains(c[j].0.path)
            && c[j].0.has_children) by {
        if k > 0 {
            let m = k - 1;
            assert(c[k] == b[m]);
            assert(b[m].1 >= d + 1);
            if b[m].1 == d + 1 {
                assert(c[0] == (i, d));
            } else {
                let j = choose|j: int|
                    0 <= j < m && b[j].1 + 1 == b[m].1 && st.expanded().contains(b[j].0.path)
                        && b[j].0.has_children;
                assert(c[j + 1] == b[j]);
            }
        }
    }
}

proof fn lemma_tree_nested<P: PrimDataProvider>(
    p: &P,
    st: SceneBrowserState,
    path: Seq<char>,
    depth: nat,
    fuel: nat,
)
    ensures
        rows_nested(tree_rows(p, st, path, depth, fuel), st, depth),
    decreases fuel, 0nat, 0nat,
{
    match p.info_of(path) {
        None => {},
        Some(i) => if row_shown(st, i) {
            if fuel > 0 && i.has_children && st.expanded().contains(i.path) {
                lemma_forest_nested(p, st, p.children_seq(i.path), depth + 1, (fuel - 1) as nat);
                lemma_nested_under(
                    i,
                    depth,
                    forest_rows(p, st, p.children_seq(i.path), depth + 1, (fuel - 1) as nat),
                    st,
                );
            } else {
                assert(seq![(i, depth)] + seq![] =~= seq![(i, depth)]);
            }
        },
    }
}

proof fn lemma_forest_nested<P: PrimDataProvider>(
    p: &P,
    st: SceneBrowserState,
    paths: Seq<Seq<char>>,
    depth: nat,
    fuel: nat,
)
    ensures
        rows_nested(forest_rows(p, st, paths, depth, fuel), st, depth),
    decreases fuel, 1nat, paths.len(),
{
    if paths.len() > 0 {
        lemma_forest_nested(p, st, paths.drop_last(), depth, fuel);
        lemma_tree_nested(p, st, paths.last(), depth, fuel);
        lemma_nested_concat(
            forest_rows(p, st, paths.drop_last(), depth, fuel),
            tree_rows(p, st, paths.last(), depth, fuel),
            st,
            depth,
        );
    }
}

/// The prim table is a tree: every row below the top level follows, somewhere
/// above it, a row one level up of an expanded prim with children.
pub proof fn lemma_rows_nested<P: PrimDataProvider>(p: &P, st: SceneBrowserState)
    ensures
        rows_nested(forest_rows(p, st, p.root_seq(), 0, st.expanded_paths@.len()), st, 0),
{
    lemma_forest_nested(p, st, p.root_seq(), 0, st.expanded_paths@.len());
}

} // verus!
