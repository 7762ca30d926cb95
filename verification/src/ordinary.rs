//! Designs of ordinary size: everything that is planned of them can be written in database units.

use crate::domains::{
    cut_of, domains_fit, is_kept, least_height, least_spacing, pieces, pieces_fit, split_by_all,
    split_fits, stage_fits, Cut,
};
use crate::geometry::{
    area_on_mfg_grid, fits, law_site_loc_rounds_one_way,
    law_the_manufacturing_grid_rounds_to_nearest, on_mfg_grid, trunc_div, Area,
};
use crate::hybrid::{
    entry_height, first_incompatible, highest_top, hybrid_fits, hybrid_rows, hybrid_site_fits,
    hybrid_site_rows, is_tile_count, law_tall_entries_run_out_of_room,
    law_the_highest_top_is_reached, lemma_climb_monotone, lemma_offset_is_a_climb, lemma_stack,
    lemma_tile_count_unique, named_height, row_top, tile_count,
};
use crate::model::{
    DomainModel, InstanceModel, OrientedSiteModel, RowModel, RowParity, SiteModel,
};
use crate::order::{first_named, lemma_first_named, name_order};
use crate::pattern::{climb, offset_in};
use crate::plan::{early_refusal, lemma_none_degenerate, lemma_ordered_can_tile, plan_fits};
use crate::rows::{law_the_core_snap_rounds_up, snapped_core};
use vstd::prelude::*;

verus! {

/// How far from the origin a coordinate may lie: a quarter of the 32-bit range.
pub const REACH: i32 = 0x2000_0000;

/// How large a site may be.
pub const SITE_LIMIT: i32 = 0x400_0000;

/// Every edge is within reach.
pub open spec fn within_reach(a: Area) -> bool {
    &&& -REACH <= a.x_min <= REACH
    &&& -REACH <= a.y_min <= REACH
    &&& -REACH <= a.x_max <= REACH
    &&& -REACH <= a.y_max <= REACH
}

/// A site of ordinary size, whose pattern is made of entries that have a height.
pub open spec fn is_ordinary_site(s: SiteModel) -> bool {
    &&& s.width <= SITE_LIMIT
    &&& s.height <= SITE_LIMIT
    &&& climb(s.row_pattern, s.row_pattern.len()) <= SITE_LIMIT
    &&& forall|i: int| 0 <= i < s.row_pattern.len() ==> (#[trigger] s.row_pattern[i]).height >= 1
}

/// A design of ordinary size.
pub open spec fn is_ordinary(die: Area, core: Area, sites: Seq<SiteModel>) -> bool {
    &&& within_reach(die)
    &&& within_reach(core)
    &&& forall|i: int| 0 <= i < sites.len() ==> is_ordinary_site(#[trigger] sites[i])
}

proof fn lemma_fewer(a: int, b: int)
    requires
        b >= 1,
    ensures
        a >= 0 ==> 0 <= trunc_div(a, b) <= a,
        a <= 0 ==> a <= trunc_div(a, b) <= 0,
{
    let m = if a >= 0 {
        a
    } else {
        -a
    };
    assert(0 <= m / b <= m) by (nonlinear_arith)
        requires
            m >= 0,
            b >= 1,
    ;
}

proof fn lemma_on_grid(c: int, grid: Option<i32>)
    requires
        -REACH <= c <= REACH,
    ensures
        fits(on_mfg_grid(c, grid)),
{
    if let Some(g) = grid {
        if g > 0 {
            law_the_manufacturing_grid_rounds_to_nearest(c, g as int);
        }
    }
}

/// Every visited site is of ordinary size, once all the given ones are.
proof fn lemma_ordered_are_ordinary(sites: Seq<SiteModel>, i: int)
    requires
        forall|i: int| 0 <= i < sites.len() ==> is_ordinary_site(#[trigger] sites[i]),
        0 <= i < name_order(sites).len(),
    ensures
        is_ordinary_site(name_order(sites)[i]),
{
    let s = name_order(sites)[i];
    crate::order::law_name_order_keeps_the_first(sites, i);
    lemma_first_named(sites, s.name);
    let m = choose|m: int|
        0 <= m < sites.len() && #[trigger] sites[m].name == s.name && sites[m] == s;
    assert(is_ordinary_site(sites[m]));
}

proof fn lemma_entry_height(
    pattern: Seq<OrientedSiteModel>,
    all: Seq<OrientedSiteModel>,
    name: Seq<char>,
)
    requires
        pattern.len() <= all.len(),
        pattern == all.take(pattern.len() as int),
        forall|i: int| 0 <= i < all.len() ==> (#[trigger] all[i]).height >= 1,
        climb(all, all.len()) <= SITE_LIMIT,
    ensures
        entry_height(pattern, name) matches Some(h) ==> 0 <= h <= SITE_LIMIT,
    decreases pattern.len(),
{
    if pattern.len() > 0 {
        let n = (pattern.len() - 1) as nat;
        let rest = pattern.drop_last();
        assert(rest =~= all.take(n as int));
        lemma_entry_height(rest, all, name);
        assert(pattern.last() == all[n as int]);
        vstd::arithmetic::div_mod::lemma_small_mod(n, all.len());
        lemma_climb_monotone(all, 0, n);
        lemma_climb_monotone(all, n + 1, all.len());
    }
}

proof fn lemma_named_height(
    name: Seq<char>,
    sites: Seq<SiteModel>,
    pattern: Seq<OrientedSiteModel>,
)
    requires
        forall|i: int|
            0 <= i < sites.len() ==> 0 <= (#[trigger] sites[i]).height <= SITE_LIMIT,
        forall|i: int| 0 <= i < pattern.len() ==> (#[trigger] pattern[i]).height >= 1,
        climb(pattern, pattern.len()) <= SITE_LIMIT,
    ensures
        0 <= named_height(name, sites, pattern) <= SITE_LIMIT,
{
    lemma_first_named(sites, name);
    match first_named(sites, name) {
        Some(s) => {
            let m = choose|m: int|
                0 <= m < sites.len() && #[trigger] sites[m].name == name && sites[m] == s;
            assert(sites[m].height <= SITE_LIMIT);
        },
        None => {
            assert(pattern =~= pattern.take(pattern.len() as int));
            lemma_entry_height(pattern, pattern, name);
        },
    }
}

proof fn lemma_hybrid_rows_in_core(
    core: Area,
    pattern: Seq<OrientedSiteModel>,
    ordered: Seq<SiteModel>,
    base: SiteModel,
    r: int,
)
    requires
        base.row_pattern == pattern,
        pattern.len() > 0,
        forall|i: int| 0 <= i < pattern.len() ==> (#[trigger] pattern[i]).height >= 1,
        forall|i: int| 0 <= i < ordered.len() ==> (#[trigger] ordered[i]).height >= 1,
        first_incompatible(base, ordered) is None,
        0 <= r < hybrid_rows(core, pattern, ordered).len(),
    ensures
        core.y_min <= hybrid_rows(core, pattern, ordered)[r].y <= core.y_max,
    decreases ordered.len(),
{
    if ordered.len() == 0 {
        let n = tile_count(pattern, core.dy());
        law_tall_entries_run_out_of_room(pattern, core.dy());
        assert(is_tile_count(pattern, core.dy(), n));
        assert(climb(pattern, (r + 1) as nat) <= core.dy());
        lemma_climb_monotone(pattern, r as nat, (r + 1) as nat);
        lemma_climb_monotone(pattern, 0, r as nat);
    } else {
        let rest = ordered.drop_last();
        let site = ordered.last();
        let before = hybrid_rows(core, pattern, rest);
        assert forall|i: int| 0 <= i < rest.len() implies (#[trigger] rest[i]).height >= 1 by {
            assert(rest[i] == ordered[i]);
        }
        assert(ordered[ordered.len() - 1] == site);
        if r < before.len() {
            lemma_hybrid_rows_in_core(core, pattern, rest, base, r);
        } else {
            let k = r - before.len();
            let (offset, orient) = offset_in(pattern, site.row_pattern).unwrap();
            lemma_offset_is_a_climb(pattern, site.row_pattern);
            let start = choose|start: nat|
                start < pattern.len() && offset == #[trigger] climb(pattern, start);
            lemma_climb_monotone(pattern, 0, start);
            let h = site.height;
            lemma_stack(core.dy() - offset, h, k);
            assert(0 <= k * h) by (nonlinear_arith)
                requires
                    k >= 0,
                    h >= 1,
            ;
            assert(hybrid_rows(core, pattern, ordered)[r] == hybrid_site_rows(
                core,
                pattern,
                site,
                before.len(),
            )[k]);
        }
    }
}

proof fn lemma_hybrid_fits(core: Area, ordered: Seq<SiteModel>, base: SiteModel)
    requires
        -REACH - SITE_LIMIT <= core.x_min <= REACH + SITE_LIMIT,
        -REACH - SITE_LIMIT <= core.y_min <= REACH + SITE_LIMIT,
        -REACH <= core.x_max <= REACH,
        -REACH <= core.y_max <= REACH,
        base.is_hybrid(),
        is_ordinary_site(base),
        forall|i: int|
            0 <= i < ordered.len() ==> is_ordinary_site(#[trigger] ordered[i])
                && !ordered[i].is_degenerate(),
    ensures
        hybrid_fits(core, ordered, base),
{
    let p = base.row_pattern;
    let room = core.dy();
    if p[0].width > 0 {
        lemma_fewer(core.dx(), p[0].width);
        law_tall_entries_run_out_of_room(p, room);
        let n = tile_count(p, room);
        assert(is_tile_count(p, room, n));
        if room < 0 {
            lemma_climb_monotone(p, 0, 1);
            assert(is_tile_count(p, room, 0));
            lemma_tile_count_unique(p, room, n, 0);
        }
        assert forall|r: nat| r < n implies fits(core.y_min + #[trigger] climb(p, r)) by {
            assert(climb(p, n) <= room);
            lemma_climb_monotone(p, 0, r);
            lemma_climb_monotone(p, r, n);
        }
        assert forall|i: int|
            0 <= i < ordered.len() && (#[trigger] ordered[i]).is_hybrid() && first_incompatible(
                base,
                ordered.take(i),
            ) is None implies hybrid_site_fits(core, p, ordered[i]) by {
            if offset_in(p, ordered[i].row_pattern) is Some {
                let (offset, orient) = offset_in(p, ordered[i].row_pattern).unwrap();
                lemma_offset_is_a_climb(p, ordered[i].row_pattern);
                let start = choose|start: nat|
                    start < p.len() && offset == #[trigger] climb(p, start);
                lemma_climb_monotone(p, 0, start);
                lemma_climb_monotone(p, start, p.len());
                let h = ordered[i].height;
                lemma_stack(room - offset, h, 0);
                let left = room - offset;
                if left > 0 {
                    assert(left / h <= left) by (nonlinear_arith)
                        requires
                            left > 0,
                            h >= 1,
                    ;
                }
            }
        }
        let rows = hybrid_rows(core, p, ordered);
        if first_incompatible(base, ordered) is None && rows.len() > 0 {
            law_the_highest_top_is_reached(rows, ordered, p, 0);
            let t = choose|t: int|
                0 <= t < rows.len() && row_top(#[trigger] rows[t], ordered, p) == highest_top(
                    rows,
                    ordered,
                    p,
                );
            lemma_hybrid_rows_in_core(core, p, ordered, base, t);
            lemma_named_height(rows[t].site, ordered, p);
        }
    }
}

/// A design of ordinary size can be planned, whatever its instances: nothing on the way leaves
/// the range of database units.
pub proof fn law_ordinary_designs_fit(
    die: Area,
    core: Area,
    sites: Seq<SiteModel>,
    parity: RowParity,
    mfg_grid: Option<i32>,
    instances: Seq<InstanceModel>,
)
    requires
        is_ordinary(die, core, sites),
    ensures
        plan_fits(die, core, sites, parity, mfg_grid, instances),
{
    lemma_on_grid(die.x_min, mfg_grid);
    lemma_on_grid(die.y_min, mfg_grid);
    lemma_on_grid(die.x_max, mfg_grid);
    lemma_on_grid(die.y_max, mfg_grid);
    let snapped_die = area_on_mfg_grid(die, mfg_grid);
    if early_refusal(snapped_die, core, sites, instances) is None {
        let base = sites[0];
        let ordered = name_order(sites);
        let snapped = snapped_core(core, base);
        lemma_none_degenerate(sites);
        assert(!sites[0].is_degenerate());
        assert(is_ordinary_site(sites[0]));
        law_the_core_snap_rounds_up(core, base);
        assert forall|i: int| 0 <= i < ordered.len() implies is_ordinary_site(
            #[trigger] ordered[i],
        ) && !ordered[i].is_degenerate() by {
            lemma_ordered_are_ordinary(sites, i);
            lemma_ordered_can_tile(sites, i);
        }
        if base.is_hybrid() {
            lemma_hybrid_fits(snapped, ordered, base);
        } else {
            lemma_fewer(snapped.dx(), base.width);
            assert forall|i: int| 0 <= i < ordered.len() implies fits(
                trunc_div(snapped.dy(), (#[trigger] ordered[i]).height),
            ) by {
                lemma_fewer(snapped.dy(), ordered[i].height);
            }
        }
    }
}

/// Rows whose sites are of ordinary width.
pub open spec fn ordinary_rows(rows: Seq<RowModel>) -> bool {
    forall|i: int| 0 <= i < rows.len() ==> (#[trigger] rows[i]).spacing <= SITE_LIMIT
}

proof fn lemma_least_spacing(rows: Seq<RowModel>, is_pad: spec_fn(Seq<char>) -> bool, i: int)
    requires
        0 <= i < rows.len(),
        !is_pad(rows[i].site),
    ensures
        least_spacing(rows, is_pad) matches Some(dx) && dx <= rows[i].spacing,
    decreases rows.len(),
{
    if i < rows.len() - 1 {
        lemma_least_spacing(rows.drop_last(), is_pad, i);
    }
}

proof fn lemma_least_height(
    rows: Seq<RowModel>,
    height: spec_fn(Seq<char>) -> int,
    is_pad: spec_fn(Seq<char>) -> bool,
)
    requires
        forall|name: Seq<char>| #[trigger] height(name) <= SITE_LIMIT,
        ordinary_rows(rows),
    ensures
        least_height(rows, height, is_pad) matches Some(dy) ==> dy <= SITE_LIMIT,
        least_spacing(rows, is_pad) matches Some(dx) ==> dx <= SITE_LIMIT,
    decreases rows.len(),
{
    if rows.len() > 0 {
        let rest = rows.drop_last();
        assert forall|i: int| 0 <= i < rest.len() implies (#[trigger] rest[i]).spacing
            <= SITE_LIMIT by {
            assert(rest[i] == rows[i]);
        }
        assert(rows[rows.len() - 1].spacing <= SITE_LIMIT);
        lemma_least_height(rest, height, is_pad);
        assert(height(rows.last().site) <= SITE_LIMIT);
    }
}

proof fn lemma_pieces_fit(row: RowModel, cut: Cut, core: Area, height: int, i: int)
    requires
        row.spacing >= 1,
        within_reach(core),
        0 < cut.space <= REACH,
        -2 * REACH <= cut.bbox.x_min <= 2 * REACH,
        -2 * REACH <= cut.bbox.x_max <= 2 * REACH,
        cut.bbox.x_max - cut.bbox.x_min <= 2 * REACH,
        cut.bbox.x_max - cut.bbox.x_min >= -3 * REACH,
        cut.bbox.x_min <= REACH + SITE_LIMIT,
        cut.bbox.x_max >= -REACH - SITE_LIMIT,
        0 <= i < pieces(row, cut, core, height).len(),
    ensures
        fits(pieces(row, cut, core, height)[i].num_sites),
{
    let p = pieces(row, cut, core, height)[i];
    let left = crate::domains::left_piece(row, cut, core);
    let right = crate::domains::right_piece(row, cut, core);
    let x = crate::domains::right_start(row, cut);
    lemma_fewer(cut.bbox.x_min - cut.space - core.x_min, row.spacing);
    lemma_fewer(core.x_max - x, row.spacing);
    lemma_fewer(cut.bbox.x_max - cut.bbox.x_min, row.spacing);
    if i < left.len() {
        assert(p == left[0]);
    } else if i < left.len() + right.len() {
        assert(p == right[0]);
        crate::geometry::lemma_site_loc_above(cut.bbox.x_max + cut.space, row.spacing);
    } else {
        assert(p == crate::domains::middle_piece(row, cut, height)[0]);
    }
}

proof fn lemma_split_fits(
    rows: Seq<RowModel>,
    domain: DomainModel,
    core: Area,
    gap: Option<i32>,
    height: spec_fn(Seq<char>) -> int,
    is_pad: spec_fn(Seq<char>) -> bool,
)
    requires
        within_reach(core),
        within_reach(domain.bbox),
        gap matches Some(g) ==> 0 < g <= REACH,
        forall|name: Seq<char>| #[trigger] height(name) <= SITE_LIMIT,
        ordinary_rows(rows),
    ensures
        split_fits(rows, domain, core, gap, height, is_pad),
{
    match cut_of(rows, domain, gap, height, is_pad) {
        Some(cut) => {
            let dx = least_spacing(rows, is_pad).unwrap();
            let dy = least_height(rows, height, is_pad).unwrap();
            lemma_least_height(rows, height, is_pad);
            law_site_loc_rounds_one_way(domain.bbox.x_min, dx);
            law_site_loc_rounds_one_way(domain.bbox.x_max, dx);
            assert forall|i: int| 0 <= i < rows.len() implies pieces_fit(
                #[trigger] rows[i],
                cut,
                core,
                height,
                is_pad,
            ) by {
                let row = rows[i];
                if !is_kept(row, cut, height, is_pad) {
                    lemma_least_spacing(rows, is_pad, i);
                    assert forall|k: int|
                        0 <= k < pieces(row, cut, core, height(row.site)).len() implies fits(
                        (#[trigger] pieces(row, cut, core, height(row.site))[k]).num_sites,
                    ) by {
                        lemma_pieces_fit(row, cut, core, height(row.site), k);
                    }
                }
            }
        },
        None => {},
    }
}

proof fn lemma_pieces_spacing(row: RowModel, cut: Cut, core: Area, height: int)
    ensures
        forall|i: int|
            0 <= i < pieces(row, cut, core, height).len() ==> (#[trigger] pieces(
                row,
                cut,
                core,
                height,
            )[i]).spacing == row.spacing,
{
}

proof fn lemma_split_keeps_widths(
    rows: Seq<RowModel>,
    cut: Cut,
    core: Area,
    height: spec_fn(Seq<char>) -> int,
    is_pad: spec_fn(Seq<char>) -> bool,
)
    requires
        ordinary_rows(rows),
    ensures
        ordinary_rows(crate::domains::in_places(rows, cut, core, height, is_pad)),
        ordinary_rows(crate::domains::appended(rows, cut, core, height, is_pad)),
    decreases rows.len(),
{
    if rows.len() > 0 {
        let rest = rows.drop_last();
        let row = rows.last();
        assert forall|i: int| 0 <= i < rest.len() implies (#[trigger] rest[i]).spacing
            <= SITE_LIMIT by {
            assert(rest[i] == rows[i]);
        }
        assert(rows[rows.len() - 1].spacing <= SITE_LIMIT);
        lemma_split_keeps_widths(rest, cut, core, height, is_pad);
        lemma_pieces_spacing(row, cut, core, height(row.site));
        let a = crate::domains::in_places(rest, cut, core, height, is_pad);
        let b = crate::domains::in_place_of(row, cut, core, height, is_pad);
        let c = crate::domains::appended(rest, cut, core, height, is_pad);
        let d = crate::domains::appended_for(row, cut, core, height, is_pad);
        assert forall|i: int| 0 <= i < (a + b).len() implies (#[trigger] (a + b)[i]).spacing
            <= SITE_LIMIT by {
            if i < a.len() {
                assert((a + b)[i] == a[i]);
            } else {
                assert((a + b)[i] == b[i - a.len()]);
            }
        }
        assert forall|i: int| 0 <= i < (c + d).len() implies (#[trigger] (c + d)[i]).spacing
            <= SITE_LIMIT by {
            if i < c.len() {
                assert((c + d)[i] == c[i]);
            } else {
                assert((c + d)[i] == d[i - c.len()]);
            }
        }
    }
}

proof fn lemma_splits_keep_widths(
    rows: Seq<RowModel>,
    domains: Seq<DomainModel>,
    core: Area,
    gap: Option<i32>,
    height: spec_fn(Seq<char>) -> int,
    is_pad: spec_fn(Seq<char>) -> bool,
)
    requires
        ordinary_rows(rows),
    ensures
        ordinary_rows(split_by_all(rows, domains, core, gap, height, is_pad)),
    decreases domains.len(),
{
    if domains.len() > 0 {
        let before = split_by_all(rows, domains.drop_last(), core, gap, height, is_pad);
        lemma_splits_keep_widths(rows, domains.drop_last(), core, gap, height, is_pad);
        match cut_of(before, domains.last(), gap, height, is_pad) {
            Some(cut) => {
                lemma_split_keeps_widths(before, cut, core, height, is_pad);
                let a = crate::domains::in_places(before, cut, core, height, is_pad);
                let b = crate::domains::appended(before, cut, core, height, is_pad);
                assert forall|i: int| 0 <= i < (a + b).len() implies (#[trigger] (a
                    + b)[i]).spacing <= SITE_LIMIT by {
                    if i < a.len() {
                        assert((a + b)[i] == a[i]);
                    } else {
                        assert((a + b)[i] == b[i - a.len()]);
                    }
                }
            },
            None => {},
        }
    }
}

/// The rows of a design of ordinary size can be split around domains of ordinary size.
pub proof fn law_ordinary_splits_fit(
    rows: Seq<RowModel>,
    domains: Seq<DomainModel>,
    core: Area,
    gap: Option<i32>,
    height: spec_fn(Seq<char>) -> int,
    is_pad: spec_fn(Seq<char>) -> bool,
)
    requires
        within_reach(core),
        forall|i: int| 0 <= i < domains.len() ==> within_reach((#[trigger] domains[i]).bbox),
        gap matches Some(g) ==> 0 < g <= REACH,
        forall|name: Seq<char>| #[trigger] height(name) <= SITE_LIMIT,
        ordinary_rows(rows),
    ensures
        domains_fit(rows, domains, core, gap, height, is_pad),
{
    assert forall|k: int| 0 <= k < domains.len() implies #[trigger] stage_fits(
        rows,
        domains,
        core,
        gap,
        height,
        is_pad,
        k,
    ) by {
        lemma_splits_keep_widths(rows, domains.take(k), core, gap, height, is_pad);
        assert(within_reach(domains[k].bbox));
        lemma_split_fits(
            split_by_all(rows, domains.take(k), core, gap, height, is_pad),
            domains[k],
            core,
            gap,
            height,
            is_pad,
        );
    }
}

} // verus!
