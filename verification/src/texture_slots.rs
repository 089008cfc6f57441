//! Placement of scene textures in the viewport's fixed set of texture slots:
//! one slot per plain texture, a grid of slots per UDIM set, placeholders
//! until the pixels arrive.

use vstd::prelude::*;

use crate::text::texts;

verus! {

/// One tile of a UDIM set.
pub struct UdimTile {
    /// Tile column (the UDIM's u index).
    pub col: u32,
    /// Tile row (the UDIM's v index).
    pub row: u32,
    /// File of the tile.
    pub path: String,
}

/// Grid of a UDIM set: the tiles' bounding columns and rows.
pub struct UdimLayout {
    pub num_cols: u32,
    pub num_rows: u32,
    pub min_col: u32,
    pub min_row: u32,
    pub tiles: Vec<UdimTile>,
}

/// What a scene texture path names.
pub enum TextureSource {
    /// A single texture file.
    Single,
    /// A UDIM set with its tile grid.
    Udim(UdimLayout),
    /// A UDIM pattern whose tiles could not be laid out.
    UnresolvedUdim,
}

/// Where the tiles of a UDIM set start and how they are laid out.
#[derive(Clone, Copy, Debug, PartialEq, Eq, Structural)]
pub struct UdimMapping {
    pub base_index: u32,
    pub num_cols: u32,
    pub num_rows: u32,
    pub min_col: u32,
    pub min_row: u32,
}

/// Slot placement of the scene textures.
pub struct SlotPlan {
    /// Slot assignments in order; a later one for the same path replaces an
    /// earlier one.
    pub index_map: Vec<(String, u32)>,
    /// UDIM sets with their grid placement, in order.
    pub udim_map: Vec<(String, UdimMapping)>,
    /// The files to load, in slot order.
    pub expanded_paths: Vec<String>,
    /// Number of slots taken.
    pub total_slots: usize,
}

/// Mathematical form of a plan under construction; `stopped` once a plain
/// texture found no slot left.
#[verifier::ext_equal]
pub struct PlanView {
    pub index_map: Seq<(Seq<char>, u32)>,
    pub udim_map: Seq<(Seq<char>, UdimMapping)>,
    pub expanded: Seq<Seq<char>>,
    pub total: nat,
    pub stopped: bool,
}

/// Whether every tile lies inside its grid and the grid's slots can be
/// numbered in a `u32`.
pub open spec fn layout_valid(l: UdimLayout) -> bool {
    &&& l.num_cols as nat * l.num_rows as nat <= u32::MAX
    &&& forall|k: int|
        0 <= k < l.tiles@.len() ==> l.min_col <= #[trigger] l.tiles@[k].col < l.min_col as nat
            + l.num_cols as nat && l.min_row <= l.tiles@[k].row < l.min_row as nat
            + l.num_rows as nat
}

/// Number of slots of a UDIM grid.
pub open spec fn grid_slots(l: UdimLayout) -> nat {
    l.num_cols as nat * l.num_rows as nat
}

/// Slot offset of a tile inside its grid (row-major).
pub open spec fn tile_offset(l: UdimLayout, t: UdimTile) -> nat {
    ((t.row - l.min_row) * l.num_cols + (t.col - l.min_col)) as nat
}

/// Slot assignments of the tiles of a UDIM set placed at `base`.
pub open spec fn tile_entries(l: UdimLayout, base: nat) -> Seq<(Seq<char>, u32)> {
    Seq::new(
        l.tiles@.len(),
        |k: int| (l.tiles@[k].path@, (base + tile_offset(l, l.tiles@[k])) as u32),
    )
}

/// The plan after considering one more texture path.
pub open spec fn plan_step(
    s: PlanView,
    path: Seq<char>,
    src: TextureSource,
    first: nat,
    max: nat,
) -> PlanView {
    if s.stopped {
        s
    } else {
        match src {
            TextureSource::Udim(l) => if s.total + grid_slots(l) > max {
                s
            } else {
                let base = first + s.total;
                PlanView {
                    index_map: s.index_map.push((path, base as u32)) + tile_entries(l, base),
                    udim_map: s.udim_map.push(
                        (
                            path,
                            UdimMapping {
                                base_index: base as u32,
                                num_cols: l.num_cols,
                                num_rows: l.num_rows,
                                min_col: l.min_col,
                                min_row: l.min_row,
                            },
                        ),
                    ),
                    expanded: s.expanded + l.tiles@.map_values(|t: UdimTile| t.path@),
                    total: s.total + grid_slots(l),
                    stopped: false,
                }
            },
            TextureSource::UnresolvedUdim => s,
            TextureSource::Single => if s.total >= max {
                PlanView { stopped: true, ..s }
            } else {
                PlanView {
                    index_map: s.index_map.push((path, (first + s.total) as u32)),
                    udim_map: s.udim_map,
                    expanded: s.expanded.push(path),
                    total: s.total + 1,
                    stopped: false,
                }
            },
        }
    }
}

/// The plan after the first `n` paths.
pub open spec fn plan_upto(
    paths: Seq<String>,
    sources: Seq<TextureSource>,
    first: nat,
    max: nat,
    n: int,
) -> PlanView
    decreases n,
{
    if n <= 0 {
        PlanView {
            index_map: seq![],
            udim_map: seq![],
            expanded: seq![],
            total: 0,
            stopped: false,
        }
    } else {
        plan_step(
            plan_upto(paths, sources, first, max, n - 1),
            paths[n - 1]@,
            sources[n - 1],
            first,
            max,
        )
    }
}

/// The view of a plan.
pub open spec fn plan_view(p: SlotPlan, stopped: bool) -> PlanView {
    PlanView {
        index_map: p.index_map@.map_values(|e: (String, u32)| (e.0@, e.1)),
        udim_map: p.udim_map@.map_values(|e: (String, UdimMapping)| (e.0@, e.1)),
        expanded: texts(p.expanded_paths@),
        total: p.total_slots as nat,
        stopped,
    }
}

/// Every slot a plan assigns lies among the slots it takes: from `first`
/// up to `first` plus the number of slots taken (for UDIM grids of at least
/// one slot).
pub proof fn lemma_plan_indices_in_range(
    paths: Seq<String>,
    sources: Seq<TextureSource>,
    first: nat,
    max: nat,
    n: int,
)
    requires
        first + max <= u32::MAX,
        0 <= n <= sources.len(),
        n <= paths.len(),
        forall|i: int|
            0 <= i < sources.len() ==> (#[trigger] sources[i] matches TextureSource::Udim(l) ==> (
            layout_valid(l) && grid_slots(l) >= 1)),
    ensures
        plan_upto(paths, sources, first, max, n).total <= max,
        forall|k: int|
            0 <= k < plan_upto(paths, sources, first, max, n).index_map.len() ==> first
                <= #[trigger] plan_upto(paths, sources, first, max, n).index_map[k].1 < first
                + plan_upto(paths, sources, first, max, n).total,
    decreases n,
{
    if n > 0 {
        lemma_plan_indices_in_range(paths, sources, first, max, n - 1);
        let s = plan_upto(paths, sources, first, max, n - 1);
        let t = plan_upto(paths, sources, first, max, n);
        if !s.stopped {
            match sources[n - 1] {
                TextureSource::Udim(l) => {
                    if s.total + grid_slots(l) <= max {
                        let base = first + s.total;
                        let te = tile_entries(l, base);
                        assert forall|k: int| 0 <= k < t.index_map.len() implies first <= #[trigger] t.index_map[k].1
                            < first + t.total by {
                            let m = s.index_map.len();
                            if k < m {
                                assert(t.index_map[k] == s.index_map[k]);
                            } else if k == m {
                                assert(t.index_map[k].1 == base as u32);
                            } else {
                                let q = k - m - 1;
                                assert(t.index_map[k] == te[q]);
                                let tile = l.tiles@[q];
                                assert(layout_valid(l));
                                assert(l.min_col <= tile.col < l.min_col as nat + l.num_cols as nat);
                                let row = (tile.row - l.min_row) as nat;
                                let col = (tile.col - l.min_col) as nat;
                                assert(row * (l.num_cols as nat) + col < grid_slots(l)) by (nonlinear_arith)
                                    requires
                                        row < l.num_rows,
                                        col < l.num_cols,
                                ;
                                assert(tile_offset(l, tile) == row * (l.num_cols as nat) + col);
                            }
                        }
                    }
                },
                _ => {},
            }
        }
    }
}

/// Places the scene textures in slots numbered from `first_index`, at most
/// `max_slots` of them: a plain texture takes the next slot, and once none is
/// left no later texture is placed; a UDIM set takes a whole grid of slots
/// when the grid fits and is skipped otherwise, its tiles placed row by row;
/// a UDIM pattern without tiles is skipped.
pub fn plan_texture_slots(
    paths: &Vec<String>,
    sources: &Vec<TextureSource>,
    first_index: u32,
    max_slots: usize,
) -> (p: SlotPlan)
    requires
        paths@.len() == sources@.len(),
        first_index as nat + max_slots as nat <= u32::MAX,
        forall|i: int|
            0 <= i < sources@.len() ==> (#[trigger] sources@[i] matches TextureSource::Udim(l)
                ==> layout_valid(l)),
    ensures
        ({
            let v = plan_upto(paths@, sources@, first_index as nat, max_slots as nat, paths@.len() as int);
            plan_view(p, v.stopped) == v
        }),
        p.total_slots <= max_slots,
{
    let mut index_map: Vec<(String, u32)> = Vec::new();
    let mut udim_map: Vec<(String, UdimMapping)> = Vec::new();
    let mut expanded_paths: Vec<String> = Vec::new();
    let mut total_slots: usize = 0;
    let mut stopped = false;
    let mut i: usize = 0;
    assert(plan_view(
        SlotPlan {
            index_map: index_map,
            udim_map: udim_map,
            expanded_paths: expanded_paths,
            total_slots: total_slots,
        },
        false,
    ) =~= plan_upto(paths@, sources@, first_index as nat, max_slots as nat, 0));
    while i < paths.len()
        invariant
            paths@.len() == sources@.len(),
            first_index as nat + max_slots as nat <= u32::MAX,
            forall|j: int|
                0 <= j < sources@.len() ==> (#[trigger] sources@[j] matches TextureSource::Udim(l)
                    ==> layout_valid(l)),
            i <= paths@.len(),
            total_slots <= max_slots,
            plan_view(
                SlotPlan {
                    index_map: index_map,
                    udim_map: udim_map,
                    expanded_paths: expanded_paths,
                    total_slots: total_slots,
                },
                stopped,
            ) == plan_upto(paths@, sources@, first_index as nat, max_slots as nat, i as int),
        decreases paths@.len() - i,
    {
        let ghost before = plan_upto(paths@, sources@, first_index as nat, max_slots as nat, i as int);
        let ghost im0 = index_map@;
        let ghost um0 = udim_map@;
        let ghost ex0 = expanded_paths@;
        if !stopped {
            match &sources[i] {
                TextureSource::Udim(l) => {
                    assert(layout_valid(*l));
                    let slots: u64 = (l.num_cols as u64) * (l.num_rows as u64);
                    if (total_slots as u64) + slots <= max_slots as u64 {
                        let base: u32 = first_index + total_slots as u32;
                        index_map.push((paths[i].clone(), base));
                        udim_map.push(
                            (
                                paths[i].clone(),
                                UdimMapping {
                                    base_index: base,
                                    num_cols: l.num_cols,
                                    num_rows: l.num_rows,
                                    min_col: l.min_col,
                                    min_row: l.min_row,
                                },
                            ),
                        );
                        let ghost im1 = index_map@;
                        let ghost ex1 = expanded_paths@;
                        let mut k: usize = 0;
                        while k < l.tiles.len()
                            invariant
                                layout_valid(*l),
                                base as nat + grid_slots(*l) <= u32::MAX,
                                k <= l.tiles@.len(),
                                index_map@.len() == im1.len() + k,
                                forall|q: int| 0 <= q < im1.len() ==> #[trigger] index_map@[q] == im1[q],
                                forall|q: int|
                                    0 <= q < k ==> (#[trigger] index_map@[im1.len() + q]).0@
                                        == l.tiles@[q].path@ && index_map@[im1.len() + q].1 == (
                                    base as nat + tile_offset(*l, l.tiles@[q])) as u32,
                                texts(expanded_paths@) == texts(ex1) + l.tiles@.take(
                                    k as int,
                                ).map_values(|t: UdimTile| t.path@),
                            decreases l.tiles@.len() - k,
                        {
                            let t = &l.tiles[k];
                            assert(l.min_col <= t.col < l.min_col as nat + l.num_cols as nat);
                            assert(l.min_row <= t.row < l.min_row as nat + l.num_rows as nat);
                            let row = t.row - l.min_row;
                            let col = t.col - l.min_col;
                            assert(((row as nat) * (l.num_cols as nat) + (col as nat)) < grid_slots(*l))
                                by (nonlinear_arith)
                                requires
                                    row < l.num_rows,
                                    col < l.num_cols,
                            ;
                            let offset: u64 = (row as u64) * (l.num_cols as u64) + col as u64;
                            let idx: u32 = base + offset as u32;
                            let ghost ex_before = texts(expanded_paths@);
                            index_map.push((t.path.clone(), idx));
                            expanded_paths.push(t.path.clone());
                            assert(l.tiles@.take(k + 1) == l.tiles@.take(k as int).push(*t));
                            assert(l.tiles@.take(k + 1).map_values(|t: UdimTile| t.path@) == l.tiles@.take(
                                k as int,
                            ).map_values(|t: UdimTile| t.path@).push(t.path@));
                            assert(texts(expanded_paths@) == ex_before.push(t.path@));
                            k = k + 1;
                        }
                        total_slots = total_slots + slots as usize;
                        proof {
                            assert(l.tiles@.take(l.tiles@.len() as int) == l.tiles@);
                            let v = plan_view(
                                SlotPlan {
                                    index_map: index_map,
                                    udim_map: udim_map,
                                    expanded_paths: expanded_paths,
                                    total_slots: total_slots,
                                },
                                stopped,
                            );
                            let after = plan_step(before, paths@[i as int]@, sources@[i as int], first_index as nat, max_slots as nat);
                            assert(v.index_map =~= after.index_map) by {
                                let te = tile_entries(*l, base as nat);
                                assert(after.index_map == before.index_map.push((paths@[i as int]@, base)) + te);
                                assert forall|q: int| 0 <= q < v.index_map.len() implies v.index_map[q] == after.index_map[q] by {
                                    if q < im0.len() {
                                        assert(index_map@[q] == im1[q]);
                                        assert(im1[q] == im0[q]);
                                    } else if q == im0.len() {
                                        assert(index_map@[q] == im1[q]);
                                    } else {
                                        let r = q - im1.len();
                                        assert(index_map@[im1.len() + r].0@ == l.tiles@[r].path@);
                                    }
                                }
                            }
                            assert(v.udim_map =~= after.udim_map);
                            assert(v.expanded =~= after.expanded);
                        }
                    }
                },
                TextureSource::UnresolvedUdim => {},
                TextureSource::Single => {
                    if total_slots >= max_slots {
                        stopped = true;
                    } else {
                        let idx: u32 = first_index + total_slots as u32;
                        index_map.push((paths[i].clone(), idx));
                        expanded_paths.push(paths[i].clone());
                        total_slots = total_slots + 1;
                        proof {
                            let v = plan_view(
                                SlotPlan {
                                    index_map: index_map,
                                    udim_map: udim_map,
                                    expanded_paths: expanded_paths,
                                    total_slots: total_slots,
                                },
                                stopped,
                            );
                            let after = plan_step(before, paths@[i as int]@, sources@[i as int], first_index as nat, max_slots as nat);
                            assert(v.index_map =~= after.index_map);
                            assert(v.expanded =~= after.expanded);
                            assert(v.udim_map =~= after.udim_map);
                        }
                    }
                },
            }
        }
        i = i + 1;
    }
    SlotPlan { index_map, udim_map, expanded_paths, total_slots }
}

} // verus!
