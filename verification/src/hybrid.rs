//! Rows from a repeating pattern of sites.

use crate::geometry::{
    are_whole_steps, div_toward_zero, fits, in_range, lemma_whole_steps,
    lemma_whole_steps_stay_within, trunc_div, Area, Rect,
};
use crate::model::{
    outcome, pattern_models, row_models, site_counts, site_ref_models, OrientedSite,
    OrientedSiteModel, Plan, PlanError, PlanErrorModel, PlanModel, Row, RowModel, RowParity, Site,
    SiteModel,
};
use crate::order::{
    first_named, law_a_name_stands_for_the_first_that_bears_it, lemma_first_named_stays,
};
use crate::pattern::{
    climb, first_start, lemma_first_start, lemma_wrap, match_height, mirrored_pattern, offset_in,
    pattern_offset, wide_offset,
};
use crate::rows::{allows, is_most, numbered_row, row_name, total};
use crate::text::{decimal, same_text};
use vstd::arithmetic::div_mod::{lemma_fundamental_div_mod, lemma_fundamental_div_mod_converse};
use vstd::prelude::*;

verus! {

/// The first `n` entries of the repeated pattern stay within `room`, and the next one would not:
/// the sequence stops where the next entry would overflow, if need be in mid-pattern.
pub open spec fn is_tile_count(pattern: Seq<OrientedSiteModel>, room: int, n: nat) -> bool {
    &&& forall|r: nat| 1 <= r <= n ==> #[trigger] climb(pattern, r) <= room
    &&& climb(pattern, n + 1) > room
}

/// The repeated pattern overflows `room` after finitely many entries.
pub open spec fn tiles_end(pattern: Seq<OrientedSiteModel>, room: int) -> bool {
    exists|n: nat| is_tile_count(pattern, room, n)
}

/// How many entries of the repeated pattern are built.
pub open spec fn tile_count(pattern: Seq<OrientedSiteModel>, room: int) -> nat {
    choose|n: nat| is_tile_count(pattern, room, n)
}

/// How many sites of the pattern's width lie side by side. Every row of a hybrid floorplan shares
/// this count: the pattern varies in height, never in width.
pub open spec fn sites_across(core: Area, pattern: Seq<OrientedSiteModel>) -> int {
    trunc_div(core.dx(), pattern[0].width)
}

/// The rows of the pattern's member sites, laid down in sequence from the core's floor.
pub open spec fn member_rows(core: Area, pattern: Seq<OrientedSiteModel>) -> Seq<RowModel> {
    Seq::new(
        tile_count(pattern, core.dy()),
        |r: int|
            RowModel {
                name: row_name(r as nat),
                site: pattern[r % pattern.len() as int].site,
                x: core.x_min,
                y: core.y_min + climb(pattern, r as nat),
                orient: pattern[r % pattern.len() as int].orient,
                num_sites: sites_across(core, pattern),
                spacing: pattern[0].width,
            },
    )
}

/// How many rows of `height` stand in `room`.
pub open spec fn stack_count(room: int, height: int) -> int {
    if room > 0 {
        room / height
    } else {
        0
    }
}

/// The rows of one hybrid site: one per whole pattern, from where its pattern starts inside the
/// base site's.
pub open spec fn hybrid_site_rows(
    core: Area,
    pattern: Seq<OrientedSiteModel>,
    site: SiteModel,
    first: nat,
) -> Seq<RowModel> {
    let (offset, orient) = offset_in(pattern, site.row_pattern).unwrap();
    Seq::new(
        stack_count(core.dy() - offset, site.height) as nat,
        |r: int|
            RowModel {
                name: row_name((first + r) as nat),
                site: site.name,
                x: core.x_min,
                y: core.y_min + offset + r * site.height,
                orient: orient,
                num_sites: sites_across(core, pattern),
                spacing: pattern[0].width,
            },
    )
}

/// The member rows, then the rows of every hybrid site in turn, numbered throughout.
pub open spec fn hybrid_rows(
    core: Area,
    pattern: Seq<OrientedSiteModel>,
    ordered: Seq<SiteModel>,
) -> Seq<RowModel>
    decreases ordered.len(),
{
    if ordered.len() == 0 {
        member_rows(core, pattern)
    } else {
        let before = hybrid_rows(core, pattern, ordered.drop_last());
        if ordered.last().is_hybrid() {
            before + hybrid_site_rows(core, pattern, ordered.last(), before.len())
        } else {
            before
        }
    }
}

/// The row count of every hybrid site in turn.
pub open spec fn hybrid_counts(
    core: Area,
    pattern: Seq<OrientedSiteModel>,
    ordered: Seq<SiteModel>,
) -> Seq<(Seq<char>, int)>
    decreases ordered.len(),
{
    if ordered.len() == 0 {
        Seq::empty()
    } else {
        let before = hybrid_counts(core, pattern, ordered.drop_last());
        let site = ordered.last();
        if site.is_hybrid() {
            let (offset, orient) = offset_in(pattern, site.row_pattern).unwrap();
            before.push((site.name, stack_count(core.dy() - offset, site.height)))
        } else {
            before
        }
    }
}

/// The first hybrid site, in turn, whose pattern does not occur in the base site's.
pub open spec fn first_incompatible(
    base: SiteModel,
    ordered: Seq<SiteModel>,
) -> Option<PlanErrorModel>
    decreases ordered.len(),
{
    if ordered.len() == 0 {
        None
    } else {
        match first_incompatible(base, ordered.drop_last()) {
            Some(e) => Some(e),
            None => {
                let site = ordered.last();
                if site.is_hybrid() && offset_in(base.row_pattern, site.row_pattern) is None {
                    Some(
                        PlanErrorModel::IncompatibleSite { site: site.name, base: base.name },
                    )
                } else {
                    None
                }
            },
        }
    }
}

/// The height of the first entry that names `site`.
pub open spec fn entry_height(pattern: Seq<OrientedSiteModel>, site: Seq<char>) -> Option<int>
    decreases pattern.len(),
{
    if pattern.len() == 0 {
        None
    } else {
        match entry_height(pattern.drop_last(), site) {
            Some(h) => Some(h),
            None => if pattern.last().site == site {
                Some(pattern.last().height)
            } else {
                None
            },
        }
    }
}

/// The height of the site called `name`: a known site's, else a pattern entry's, else none.
pub open spec fn named_height(
    name: Seq<char>,
    sites: Seq<SiteModel>,
    pattern: Seq<OrientedSiteModel>,
) -> int {
    match first_named(sites, name) {
        Some(s) => s.height,
        None => match entry_height(pattern, name) {
            Some(h) => h,
            None => 0,
        },
    }
}

/// Where `row` ends at the top.
pub open spec fn row_top(
    row: RowModel,
    sites: Seq<SiteModel>,
    pattern: Seq<OrientedSiteModel>,
) -> int {
    row.y + named_height(row.site, sites, pattern)
}

/// The greatest of the rows' tops.
pub open spec fn highest_top(
    rows: Seq<RowModel>,
    sites: Seq<SiteModel>,
    pattern: Seq<OrientedSiteModel>,
) -> int
    decreases rows.len(),
{
    let top = row_top(rows.last(), sites, pattern);
    if rows.len() <= 1 {
        top
    } else {
        let below = highest_top(rows.drop_last(), sites, pattern);
        if top > below {
            top
        } else {
            below
        }
    }
}

/// What the rows of a hybrid floorplan cover.
pub open spec fn hybrid_area(
    core: Area,
    pattern: Seq<OrientedSiteModel>,
    ordered: Seq<SiteModel>,
) -> Area {
    Area {
        x_min: core.x_min,
        y_min: core.y_min,
        x_max: core.x_min + sites_across(core, pattern) * pattern[0].width,
        y_max: highest_top(hybrid_rows(core, pattern, ordered), ordered, pattern),
    }
}

/// The hybrid floorplan: the base pattern tiles the core, then every hybrid site gets its own
/// rows aligned to where it appears in that pattern.
pub open spec fn hybrid_plan(
    die: Area,
    core_requested: Area,
    core: Area,
    ordered: Seq<SiteModel>,
    base: SiteModel,
) -> Result<PlanModel, PlanErrorModel> {
    let pattern = base.row_pattern;
    if pattern[0].width <= 0 {
        Err(PlanErrorModel::DegenerateSite(pattern[0].site))
    } else {
        match first_incompatible(base, ordered) {
            Some(e) => Err(e),
            None => {
                let rows = hybrid_rows(core, pattern, ordered);
                if rows.len() == 0 {
                    Err(PlanErrorModel::NoRows)
                } else {
                    Ok(
                        PlanModel {
                            die,
                            core_requested,
                            core_snapped: core,
                            rows,
                            core_final: hybrid_area(core, pattern, ordered),
                            rows_per_site: hybrid_counts(core, pattern, ordered),
                            pattern_rows: Some(
                                (base.name, tile_count(pattern, core.dy()) as int),
                            ),
                        },
                    )
                }
            },
        }
    }
}

/// One hybrid site's rows can be written in database units.
pub open spec fn hybrid_site_fits(
    core: Area,
    pattern: Seq<OrientedSiteModel>,
    site: SiteModel,
) -> bool {
    offset_in(pattern, site.row_pattern) matches Some((offset, _)) ==> {
        &&& fits(offset)
        &&& fits(stack_count(core.dy() - offset, site.height))
        &&& stack_count(core.dy() - offset, site.height) > 0 ==> fits(core.y_min + offset)
    }
}

/// The hybrid floorplan can be written in database units: the pattern runs out of room, and the
/// counts and positions that are reached fit.
pub open spec fn hybrid_fits(core: Area, ordered: Seq<SiteModel>, base: SiteModel) -> bool {
    let pattern = base.row_pattern;
    pattern[0].width > 0 ==> {
        &&& fits(sites_across(core, pattern))
        &&& tiles_end(pattern, core.dy())
        &&& fits(tile_count(pattern, core.dy()) as int)
        &&& forall|r: nat|
            r < tile_count(pattern, core.dy()) ==> fits(core.y_min + #[trigger] climb(pattern, r))
        &&& forall|i: int|
            0 <= i < ordered.len() && (#[trigger] ordered[i]).is_hybrid() && first_incompatible(
                base,
                ordered.take(i),
            ) is None ==> hybrid_site_fits(core, pattern, ordered[i])
        &&& first_incompatible(base, ordered) is None && hybrid_rows(core, pattern, ordered).len()
            > 0 ==> fits(hybrid_area(core, pattern, ordered).y_max)
    }
}

/// There is only one count at which the pattern runs out of room.
pub proof fn lemma_tile_count_unique(
    pattern: Seq<OrientedSiteModel>,
    room: int,
    m: nat,
    n: nat,
)
    requires
        is_tile_count(pattern, room, m),
        is_tile_count(pattern, room, n),
    ensures
        m == n,
{
    if m < n {
        assert(climb(pattern, (m + 1) as nat) <= room);
    }
    if n < m {
        assert(climb(pattern, (n + 1) as nat) <= room);
    }
}

proof fn lemma_count_exists(pattern: Seq<OrientedSiteModel>, room: int, k: nat, n: nat)
    requires
        k <= n,
        forall|r: nat| 1 <= r <= k ==> #[trigger] climb(pattern, r) <= room,
        climb(pattern, n + 1) > room,
    ensures
        tiles_end(pattern, room),
    decreases n - k,
{
    if climb(pattern, k + 1) > room {
        assert(is_tile_count(pattern, room, k));
    } else {
        assert forall|r: nat| 1 <= r <= k + 1 implies #[trigger] climb(pattern, r) <= room by {}
        lemma_count_exists(pattern, room, k + 1, n);
    }
}

proof fn lemma_climb_grows(pattern: Seq<OrientedSiteModel>, n: nat)
    requires
        pattern.len() > 0,
        forall|i: int| 0 <= i < pattern.len() ==> (#[trigger] pattern[i]).height >= 1,
    ensures
        climb(pattern, n) >= n,
    decreases n,
{
    if n > 0 {
        lemma_climb_grows(pattern, (n - 1) as nat);
        lemma_wrap(n - 1, pattern.len() as int);
    }
}

/// A pattern whose entries all have height runs out of any room.
pub proof fn law_tall_entries_run_out_of_room(pattern: Seq<OrientedSiteModel>, room: int)
    requires
        pattern.len() > 0,
        forall|i: int| 0 <= i < pattern.len() ==> (#[trigger] pattern[i]).height >= 1,
    ensures
        tiles_end(pattern, room),
        room >= 0 ==> tile_count(pattern, room) <= room,
{
    let n: nat = if room >= 0 {
        room as nat
    } else {
        0
    };
    lemma_climb_grows(pattern, n + 1);
    lemma_count_exists(pattern, room, 0, n);
    let c = tile_count(pattern, room);
    assert(is_tile_count(pattern, room, c));
    if c > n {
        assert(climb(pattern, (n + 1) as nat) <= room);
    }
}

/// One more row has room exactly where it is counted.
pub proof fn lemma_stack(room: int, height: int, n: int)
    requires
        height > 0,
        n >= 0,
    ensures
        stack_count(room, height) >= 0,
        n < stack_count(room, height) <==> n * height + height <= room,
{
    if room > 0 {
        lemma_fundamental_div_mod(room, height);
        let q = room / height;
        assert(q >= 0) by (nonlinear_arith)
            requires
                room == height * q + room % height,
                room % height < height,
                room > 0,
                height > 0,
        ;
        if n < q {
            assert(n * height + height <= room) by (nonlinear_arith)
                requires
                    room == height * q + room % height,
                    0 <= room % height,
                    n + 1 <= q,
                    height > 0,
            ;
        } else {
            assert(n * height + height > room) by (nonlinear_arith)
                requires
                    room == height * q + room % height,
                    room % height < height,
                    n >= q,
                    height > 0,
            ;
        }
    } else {
        assert(n * height >= 0) by (nonlinear_arith)
            requires
                n >= 0,
                height > 0,
        ;
    }
}

/// Builds the rows of the pattern's member sites.
fn build_member_rows(core: Rect, pattern: &[OrientedSite], row_width: i32) -> (rows: Vec<Row>)
    requires
        pattern@.len() > 0,
        row_width == sites_across(core@, pattern_models(pattern@)),
        tiles_end(pattern_models(pattern@), core@.dy()),
        fits(tile_count(pattern_models(pattern@), core@.dy()) as int),
        forall|r: nat|
            r < tile_count(pattern_models(pattern@), core@.dy()) ==> fits(
                core@.y_min + #[trigger] climb(pattern_models(pattern@), r),
            ),
    ensures
        row_models(rows@) == member_rows(core@, pattern_models(pattern@)),
{
    let ghost p = pattern_models(pattern@);
    let ghost count = tile_count(p, core@.dy());
    let ghost all = member_rows(core@, p);
    proof {
        assert(is_tile_count(p, core@.dy(), count));
        assert(p[0] == pattern@[0]@);
    }
    let mut rows: Vec<Row> = Vec::new();
    let mut y: i64 = core.y_min as i64;
    let mut at: usize = 0;
    let mut r: i32 = 0;
    loop
        invariant
            p == pattern_models(pattern@),
            pattern@.len() > 0,
            p[0] == pattern@[0]@,
            row_width == sites_across(core@, p),
            is_tile_count(p, core@.dy(), count),
            count == tile_count(p, core@.dy()),
            fits(count as int),
            forall|r: nat| r < count ==> fits(core@.y_min + #[trigger] climb(p, r)),
            all == member_rows(core@, p),
            0 <= r <= count,
            at == r as int % p.len() as int,
            at < pattern@.len(),
            rows@.len() == r,
            y == core.y_min + climb(p, r as nat),
            -0x1_0000_0000 <= y <= 0x1_0000_0000,
            row_models(rows@) =~= all.take(r as int),
        ensures
            r == count,
            row_models(rows@) =~= all.take(r as int),
        decreases count - r,
    {
        let e = &pattern[at];
        proof {
            assert(p[at as int] == e@);
            assert(climb(p, (r + 1) as nat) == climb(p, r as nat) + e.height);
        }
        if y + e.height as i64 > core.y_max as i64 {
            break;
        }
        proof {
            assert(r < count);
            assert(climb(p, (r + 1) as nat) <= core@.dy());
            lemma_wrap(r as int, p.len() as int);
            if r + 1 < count {
                assert(fits(core@.y_min + climb(p, (r + 1) as nat)));
            }
        }
        let ghost made = rows@;
        rows.push(
            Row {
                name: numbered_row(rows.len()),
                site: e.site.clone(),
                x: core.x_min,
                y: y as i32,
                orient: e.orient.clone(),
                num_sites: row_width,
                spacing: pattern[0].width,
            },
        );
        proof {
            assert(rows@.last()@ == all[r as int]);
            assert(row_models(rows@) =~= row_models(made).push(all[r as int]));
            assert(all.take(r + 1) =~= all.take(r as int).push(all[r as int]));
        }
        y = y + e.height as i64;
        at = if at + 1 == pattern.len() {
            0
        } else {
            at + 1
        };
        r = r + 1;
    }
    assert(all.take(count as int) =~= all);
    rows
}

proof fn lemma_incompatible_stays(base: SiteModel, ordered: Seq<SiteModel>, k: int)
    requires
        0 <= k <= ordered.len(),
        first_incompatible(base, ordered.take(k)) is Some,
    ensures
        first_incompatible(base, ordered) == first_incompatible(base, ordered.take(k)),
    decreases ordered.len() - k,
{
    if k < ordered.len() {
        assert(ordered.take(k + 1).drop_last() =~= ordered.take(k));
        lemma_incompatible_stays(base, ordered, k + 1);
    } else {
        assert(ordered.take(k) =~= ordered);
    }
}

/// Appends the rows of one hybrid site and counts them.
fn push_hybrid_rows(
    rows: &mut Vec<Row>,
    core: Rect,
    pattern: &[OrientedSite],
    site: &Site,
    at: (i32, &'static str),
    row_width: i32,
) -> (n: i32)
    requires
        pattern@.len() > 0,
        site.height > 0,
        row_width == sites_across(core@, pattern_models(pattern@)),
        offset_in(pattern_models(pattern@), site@.row_pattern) == Some((at.0 as int, at.1@)),
        hybrid_site_fits(core@, pattern_models(pattern@), site@),
    ensures
        n == stack_count(core@.dy() - at.0, site.height as int),
        row_models(final(rows)@) == row_models(old(rows)@) + hybrid_site_rows(
            core@,
            pattern_models(pattern@),
            site@,
            old(rows)@.len(),
        ),
{
    let ghost p = pattern_models(pattern@);
    let ghost before = rows@;
    let ghost room = core@.dy() - at.0;
    let ghost h = site.height as int;
    let ghost stack = hybrid_site_rows(core@, p, site@, before.len());
    assert(p[0] == pattern@[0]@);
    let mut y: i64 = core.y_min as i64 + at.0 as i64;
    let mut n: i32 = 0;
    proof {
        lemma_stack(room, h, 0);
    }
    while y + site.height as i64 <= core.y_max as i64
        invariant
            pattern@.len() > 0,
            p == pattern_models(pattern@),
            p[0] == pattern@[0]@,
            site.height > 0,
            h == site.height,
            row_width == sites_across(core@, p),
            offset_in(p, site@.row_pattern) == Some((at.0 as int, at.1@)),
            hybrid_site_fits(core@, p, site@),
            room == core@.dy() - at.0,
            stack == hybrid_site_rows(core@, p, site@, before.len()),
            stack.len() == stack_count(room, h),
            0 <= n <= stack_count(room, h),
            y == core.y_min + at.0 + n * h,
            -0x1_0000_0000 <= y <= 0x1_0000_0000,
            rows@.len() == before.len() + n,
            row_models(rows@) =~= row_models(before) + stack.take(n as int),
        decreases stack_count(room, h) - n,
    {
        proof {
            lemma_stack(room, h, n as int);
            assert(0 <= n * h) by (nonlinear_arith)
                requires
                    n >= 0,
                    h > 0,
            ;
        }
        let ghost made = rows@;
        rows.push(
            Row {
                name: numbered_row(rows.len()),
                site: site.name.clone(),
                x: core.x_min,
                y: y as i32,
                orient: String::from(at.1),
                num_sites: row_width,
                spacing: pattern[0].width,
            },
        );
        proof {
            assert(rows@.last()@ == stack[n as int]);
            assert(row_models(rows@) =~= row_models(made).push(stack[n as int]));
            assert(stack.take(n + 1) =~= stack.take(n as int).push(stack[n as int]));
            assert((n + 1) * h == n * h + h) by (nonlinear_arith);
        }
        y = y + site.height as i64;
        n = n + 1;
    }
    proof {
        lemma_stack(room, h, n as int);
        assert(stack.take(stack.len() as int) =~= stack);
    }
    n
}

/// The height of whatever site a row was built from. It may be a hybrid site or one of the
/// pattern's members, and only the two together cover every row.
pub fn height_of(row: &Row, sites: &[&Site], pattern: &[OrientedSite]) -> (r: i32)
    ensures
        r == named_height(row@.site, site_ref_models(sites@), pattern_models(pattern@)),
{
    let ghost models = site_ref_models(sites@);
    let mut i: usize = 0;
    while i < sites.len()
        invariant
            i <= sites@.len(),
            models == site_ref_models(sites@),
            first_named(models.take(i as int), row@.site) is None,
        decreases sites.len() - i,
    {
        let ghost upto = models.take(i + 1);
        assert(upto.drop_last() =~= models.take(i as int));
        assert(upto.last() == sites@[i as int]@);
        if same_text(sites[i].name.as_str(), row.site.as_str()) {
            proof {
                lemma_first_named_stays(models, row@.site, i + 1);
            }
            return sites[i].height;
        }
        i = i + 1;
    }
    assert(models.take(models.len() as int) =~= models);
    let ghost p = pattern_models(pattern@);
    let mut k: usize = 0;
    while k < pattern.len()
        invariant
            k <= pattern@.len(),
            p == pattern_models(pattern@),
            models == site_ref_models(sites@),
            first_named(models, row@.site) is None,
            entry_height(p.take(k as int), row@.site) is None,
        decreases pattern.len() - k,
    {
        let ghost upto = p.take(k + 1);
        assert(upto.drop_last() =~= p.take(k as int));
        assert(upto.last() == pattern@[k as int]@);
        if same_text(pattern[k].site.as_str(), row.site.as_str()) {
            proof {
                lemma_entry_height_stays(p, row@.site, k + 1);
            }
            return pattern[k].height;
        }
        k = k + 1;
    }
    assert(p.take(p.len() as int) =~= p);
    0
}

proof fn lemma_entry_height_stays(pattern: Seq<OrientedSiteModel>, name: Seq<char>, k: int)
    requires
        0 <= k <= pattern.len(),
        entry_height(pattern.take(k), name) is Some,
    ensures
        entry_height(pattern, name) == entry_height(pattern.take(k), name),
    decreases pattern.len() - k,
{
    if k < pattern.len() {
        assert(pattern.take(k + 1).drop_last() =~= pattern.take(k));
        lemma_entry_height_stays(pattern, name, k + 1);
    } else {
        assert(pattern.take(k) =~= pattern);
    }
}

/// The greatest of the rows' tops.
fn find_highest_top(rows: &[Row], sites: &[&Site], pattern: &[OrientedSite]) -> (t: i64)
    requires
        rows@.len() > 0,
    ensures
        t == highest_top(
            row_models(rows@),
            site_ref_models(sites@),
            pattern_models(pattern@),
        ),
{
    let ghost models = row_models(rows@);
    let ghost ss = site_ref_models(sites@);
    let ghost p = pattern_models(pattern@);
    let mut top: i64 = rows[0].y as i64 + height_of(&rows[0], sites, pattern) as i64;
    let mut i: usize = 1;
    assert(models.take(1).last() == rows@[0]@);
    while i < rows.len()
        invariant
            1 <= i <= rows@.len(),
            models == row_models(rows@),
            ss == site_ref_models(sites@),
            p == pattern_models(pattern@),
            top == highest_top(models.take(i as int), ss, p),
        decreases rows.len() - i,
    {
        let t: i64 = rows[i].y as i64 + height_of(&rows[i], sites, pattern) as i64;
        proof {
            assert(models.take(i + 1).drop_last() =~= models.take(i as int));
            assert(models.take(i + 1).last() == rows@[i as int]@);
        }
        if t > top {
            top = t;
        }
        i = i + 1;
    }
    assert(models.take(models.len() as int) =~= models);
    top
}

/// Does the pattern run out of room, with every row that is built in range?
fn can_tile(core: Rect, pattern: &[OrientedSite]) -> (ok: bool)
    requires
        pattern@.len() > 0,
    ensures
        ok == ({
            let p = pattern_models(pattern@);
            &&& tiles_end(p, core@.dy())
            &&& fits(tile_count(p, core@.dy()) as int)
            &&& forall|r: nat|
                r < tile_count(p, core@.dy()) ==> fits(core@.y_min + #[trigger] climb(p, r))
        }),
{
    let ghost p = pattern_models(pattern@);
    let ghost room = core@.dy();
    let mut y: i64 = core.y_min as i64;
    let mut at: usize = 0;
    let mut n: i64 = 0;
    loop
        invariant
            p == pattern_models(pattern@),
            pattern@.len() > 0,
            room == core@.dy(),
            0 <= n <= i32::MAX,
            at == n as int % p.len() as int,
            at < pattern@.len(),
            y == core.y_min + climb(p, n as nat),
            -0x1_0000_0000 <= y <= 0x1_0000_0000,
            forall|r: nat| 1 <= r <= n ==> #[trigger] climb(p, r) <= room,
            forall|r: nat| r < n ==> fits(core@.y_min + #[trigger] climb(p, r)),
        ensures
            is_tile_count(p, room, n as nat),
        decreases i32::MAX - n,
    {
        let e = &pattern[at];
        proof {
            assert(p[at as int] == e@);
            assert(climb(p, (n + 1) as nat) == climb(p, n as nat) + e.height);
        }
        if y + e.height as i64 > core.y_max as i64 {
            break;
        }
        proof {
            if tiles_end(p, room) {
                let count = tile_count(p, room);
                assert(is_tile_count(p, room, count));
                if count <= n {
                    assert(climb(p, count + 1) <= room);
                }
                assert(n < count);
            }
        }
        if !in_range(y) {
            assert(!fits(core@.y_min + climb(p, n as nat)));
            return false;
        }
        if n == i32::MAX as i64 {
            return false;
        }
        proof {
            lemma_wrap(n as int, p.len() as int);
        }
        y = y + e.height as i64;
        at = if at + 1 == pattern.len() {
            0
        } else {
            at + 1
        };
        n = n + 1;
    }
    proof {
        lemma_tile_count_unique(p, room, n as nat, tile_count(p, room));
    }
    true
}

/// Can the hybrid floorplan be written in database units?
pub fn can_plan_hybrid(core: Rect, sites: &[&Site], base: &Site) -> (ok: bool)
    requires
        base@.is_hybrid(),
        forall|i: int| 0 <= i < sites@.len() ==> (#[trigger] sites@[i]).height > 0,
    ensures
        ok == hybrid_fits(core@, site_ref_models(sites@), base@),
{
    let ghost models = site_ref_models(sites@);
    let ghost p = base@.row_pattern;
    let pattern: &[OrientedSite] = base.row_pattern.as_slice();
    assert(p[0] == pattern@[0]@);
    let site_width: i32 = pattern[0].width;
    if site_width <= 0 {
        return true;
    }
    let across: i64 = div_toward_zero(core.wide_dx(), site_width as i64);
    if !in_range(across) || !can_tile(core, pattern) {
        return false;
    }
    let row_width: i32 = across as i32;
    let mut rows: Vec<Row> = build_member_rows(core, pattern, row_width);
    let mut i: usize = 0;
    while i < sites.len()
        invariant
            i <= sites@.len(),
            models == site_ref_models(sites@),
            p == base@.row_pattern,
            pattern@ == base.row_pattern@,
            base@.is_hybrid(),
            p[0].width > 0,
            forall|i: int| 0 <= i < sites@.len() ==> (#[trigger] sites@[i]).height > 0,
            row_width == sites_across(core@, p),
            fits(sites_across(core@, p)),
            tiles_end(p, core@.dy()),
            fits(tile_count(p, core@.dy()) as int),
            forall|r: nat|
                r < tile_count(p, core@.dy()) ==> fits(core@.y_min + #[trigger] climb(p, r)),
            forall|k: int|
                0 <= k < i && (#[trigger] models[k]).is_hybrid() ==> hybrid_site_fits(
                    core@,
                    p,
                    models[k],
                ),
            first_incompatible(base@, models.take(i as int)) is None,
            row_models(rows@) == hybrid_rows(core@, p, models.take(i as int)),
        decreases sites.len() - i,
    {
        let site: &Site = sites[i];
        proof {
            assert(models.take(i + 1).drop_last() =~= models.take(i as int));
            assert(models.take(i + 1).last() == site@);
            assert(models[i as int] == site@);
        }
        if site.is_hybrid() {
            match wide_offset(base, site) {
                Some((offset, orient)) => {
                    let room: i128 = core.wide_dy() as i128 - offset;
                    let count: i128 = if room > 0 {
                        room / site.height as i128
                    } else {
                        0
                    };
                    let floor: i128 = core.y_min as i128 + offset;
                    let ok: bool = i32::MIN as i128 <= offset && offset <= i32::MAX as i128
                        && i32::MIN as i128 <= count && count <= i32::MAX as i128 && (count <= 0
                        || i32::MIN as i128 <= floor && floor <= i32::MAX as i128);
                    assert(ok == hybrid_site_fits(core@, p, site@));
                    if !ok {
                        return false;
                    }
                    let at: (i32, &'static str) = (offset as i32, orient);
                    push_hybrid_rows(&mut rows, core, pattern, site, at, row_width);
                },
                None => {
                    proof {
                        assert(first_incompatible(base@, models.take(i + 1)) is Some);
                        lemma_incompatible_stays(base@, models, i + 1);
                        assert forall|k: int|
                            0 <= k < models.len() && (#[trigger] models[k]).is_hybrid()
                                && first_incompatible(
                                base@,
                                models.take(k),
                            ) is None implies hybrid_site_fits(core@, p, models[k]) by {
                            if k > i {
                                assert(models.take(k).take(i + 1) =~= models.take(i + 1));
                                lemma_incompatible_stays(base@, models.take(k), i + 1);
                            }
                        }
                    }
                    return true;
                },
            }
        }
        i = i + 1;
    }
    assert(models.take(models.len() as int) =~= models);
    rows.len() == 0 || in_range(find_highest_top(rows.as_slice(), sites, pattern))
}

/// Build a hybrid floorplan: the base pattern tiles the core, then every hybrid site gets its own
/// rows aligned to where it appears in that pattern.
///
/// Two sets of rows are produced, and both are real: the pattern's member sites and the hybrid
/// sites themselves, the latter spanning a whole pattern each.
pub fn plan_hybrid(
    die: Rect,
    core_requested: Rect,
    core: Rect,
    sites: &[&Site],
    base: &Site,
) -> (r: Result<Plan, PlanError>)
    requires
        base@.is_hybrid(),
        forall|i: int| 0 <= i < sites@.len() ==> (#[trigger] sites@[i]).height > 0,
        hybrid_fits(core@, site_ref_models(sites@), base@),
    ensures
        outcome(r) == hybrid_plan(
            die@,
            core_requested@,
            core@,
            site_ref_models(sites@),
            base@,
        ),
{
    let ghost models = site_ref_models(sites@);
    let ghost p = base@.row_pattern;
    let pattern: &[OrientedSite] = base.row_pattern.as_slice();
    assert(p[0] == pattern@[0]@);
    let site_width: i32 = pattern[0].width;
    if site_width <= 0 {
        return Err(PlanError::DegenerateSite(pattern[0].site.clone()));
    }
    let row_width: i32 = div_toward_zero(core.wide_dx(), site_width as i64) as i32;
    let mut rows: Vec<Row> = build_member_rows(core, pattern, row_width);
    assert(row_models(rows@).len() == tile_count(p, core@.dy()));
    let pattern_rows: i32 = rows.len() as i32;
    let mut rows_per_site: Vec<(String, i32)> = Vec::new();
    let mut i: usize = 0;
    while i < sites.len()
        invariant
            i <= sites@.len(),
            models == site_ref_models(sites@),
            p == base@.row_pattern,
            pattern@ == base.row_pattern@,
            base@.is_hybrid(),
            p[0].width > 0,
            forall|i: int| 0 <= i < sites@.len() ==> (#[trigger] sites@[i]).height > 0,
            hybrid_fits(core@, models, base@),
            row_width == sites_across(core@, p),
            pattern_rows == tile_count(p, core@.dy()),
            first_incompatible(base@, models.take(i as int)) is None,
            row_models(rows@) == hybrid_rows(core@, p, models.take(i as int)),
            site_counts(rows_per_site@) == hybrid_counts(core@, p, models.take(i as int)),
        decreases sites.len() - i,
    {
        let site: &Site = sites[i];
        proof {
            assert(models.take(i + 1).drop_last() =~= models.take(i as int));
            assert(models.take(i + 1).last() == site@);
            assert(models[i as int] == site@);
        }
        if site.is_hybrid() {
            match pattern_offset(base, site) {
                Some(at) => {
                    let n: i32 = push_hybrid_rows(&mut rows, core, pattern, site, at, row_width);
                    let ghost made = rows_per_site@;
                    rows_per_site.push((site.name.clone(), n));
                    assert(site_counts(rows_per_site@) =~= site_counts(made).push(
                        (site@.name, n as int),
                    ));
                },
                None => {
                    proof {
                        lemma_incompatible_stays(base@, models, i + 1);
                    }
                    return Err(
                        PlanError::IncompatibleSite {
                            site: site.name.clone(),
                            base: base.name.clone(),
                        },
                    );
                },
            }
        }
        i = i + 1;
    }
    assert(models.take(models.len() as int) =~= models);
    if rows.len() == 0 {
        return Err(PlanError::NoRows);
    }
    let top: i64 = find_highest_top(rows.as_slice(), sites, pattern);
    proof {
        lemma_whole_steps_stay_within(core@.dx(), p[0].width);
    }
    let core_final = Rect {
        x_min: core.x_min,
        y_min: core.y_min,
        x_max: (core.x_min as i64 + row_width as i64 * site_width as i64) as i32,
        y_max: top as i32,
    };
    Ok(
        Plan {
            die,
            core_requested,
            core_snapped: core,
            rows,
            core_final,
            rows_per_site,
            pattern_rows: Some((base.name.clone(), pattern_rows)),
        },
    )
}

/// The pattern's member rows abut, stay below the core's top, and leave no room for the entry that
/// comes next.
pub proof fn law_the_pattern_tiles_the_core(core: Area, pattern: Seq<OrientedSiteModel>, r: int)
    requires
        pattern.len() > 0,
        tiles_end(pattern, core.dy()),
        0 <= r < member_rows(core, pattern).len(),
    ensures
        ({
            let rows = member_rows(core, pattern);
            let entry = pattern[r % pattern.len() as int];
            &&& rows[0].y == core.y_min
            &&& rows[r].site == entry.site && rows[r].orient == entry.orient
            &&& rows[r].y + entry.height <= core.y_max
            &&& r + 1 < rows.len() ==> rows[r + 1].y == rows[r].y + entry.height
            &&& r + 1 == rows.len() ==> rows[r].y + entry.height + pattern[(r + 1)
                % pattern.len() as int].height > core.y_max
        }),
{
    let n = tile_count(pattern, core.dy());
    assert(is_tile_count(pattern, core.dy(), n));
    assert(climb(pattern, (r + 1) as nat) <= core.dy());
    assert(climb(pattern, (r + 1) as nat) == climb(pattern, r as nat) + pattern[r
        % pattern.len() as int].height);
    assert(climb(pattern, (r + 2) as nat) == climb(pattern, (r + 1) as nat) + pattern[(r + 1)
        % pattern.len() as int].height);
}

/// Every row of a hybrid floorplan is named by its position among all rows, starts at the core's
/// left edge, and shares the pattern's horizontal count and spacing.
pub proof fn law_hybrid_rows_number_throughout(
    core: Area,
    pattern: Seq<OrientedSiteModel>,
    ordered: Seq<SiteModel>,
    r: int,
)
    requires
        0 <= r < hybrid_rows(core, pattern, ordered).len(),
    ensures
        ({
            let row = hybrid_rows(core, pattern, ordered)[r];
            &&& row.name == row_name(r as nat)
            &&& row.x == core.x_min
            &&& row.num_sites == sites_across(core, pattern)
            &&& row.spacing == pattern[0].width
        }),
    decreases ordered.len(),
{
    if ordered.len() > 0 {
        let before = hybrid_rows(core, pattern, ordered.drop_last());
        if r < before.len() {
            law_hybrid_rows_number_throughout(core, pattern, ordered.drop_last(), r);
        }
    }
}

/// The greatest top is the top of some row, and no row passes it.
pub proof fn law_the_highest_top_is_reached(
    rows: Seq<RowModel>,
    sites: Seq<SiteModel>,
    pattern: Seq<OrientedSiteModel>,
    r: int,
)
    requires
        0 <= r < rows.len(),
    ensures
        row_top(rows[r], sites, pattern) <= highest_top(rows, sites, pattern),
        exists|q: int|
            0 <= q < rows.len() && row_top(#[trigger] rows[q], sites, pattern) == highest_top(
                rows,
                sites,
                pattern,
            ),
    decreases rows.len(),
{
    let last = rows.len() - 1;
    assert(rows[last] == rows.last());
    if rows.len() > 1 {
        let rest = rows.drop_last();
        law_the_highest_top_is_reached(
            rest,
            sites,
            pattern,
            if r < rest.len() {
                r
            } else {
                0
            },
        );
        let q = choose|q: int|
            0 <= q < rest.len() && row_top(#[trigger] rest[q], sites, pattern) == highest_top(
                rest,
                sites,
                pattern,
            );
        assert(rows[q] == rest[q]);
    }
}

proof fn lemma_climb_a_period(pattern: Seq<OrientedSiteModel>, n: nat)
    requires
        pattern.len() > 0,
    ensures
        climb(pattern, n + pattern.len()) == climb(pattern, n) + climb(pattern, pattern.len()),
    decreases n,
{
    if n > 0 {
        let len = pattern.len() as int;
        lemma_climb_a_period(pattern, (n - 1) as nat);
        lemma_fundamental_div_mod(n - 1, len);
        assert(n - 1 + len == ((n - 1) / len + 1) * len + (n - 1) % len) by (nonlinear_arith)
            requires
                n - 1 == len * ((n - 1) / len) + (n - 1) % len,
        ;
        lemma_fundamental_div_mod_converse(
            n - 1 + len,
            len,
            (n - 1) / len + 1,
            (n - 1) % len,
        );
    }
}

proof fn lemma_climb_periods(pattern: Seq<OrientedSiteModel>, n: nat, k: nat)
    requires
        pattern.len() > 0,
    ensures
        climb(pattern, n + k * pattern.len()) == climb(pattern, n) + k * climb(
            pattern,
            pattern.len(),
        ),
    decreases k,
{
    let len = pattern.len();
    let period = climb(pattern, len);
    if k > 0 {
        let j = (k - 1) as nat;
        lemma_climb_periods(pattern, n, j);
        lemma_climb_a_period(pattern, n + j * len);
        assert(n + k * len == n + j * len + len) by (nonlinear_arith)
            requires
                k == j + 1,
        ;
        assert(k * period == j * period + period) by (nonlinear_arith)
            requires
                k == j + 1,
        ;
    } else {
        assert(k * len == 0 && k * period == 0) by (nonlinear_arith)
            requires
                k == 0,
        ;
    }
}

/// A hybrid site's rows start where some entry of the base pattern starts.
pub proof fn lemma_offset_is_a_climb(base: Seq<OrientedSiteModel>, pattern: Seq<OrientedSiteModel>)
    requires
        offset_in(base, pattern) is Some,
    ensures
        exists|start: nat|
            start < base.len() && offset_in(base, pattern).unwrap().0 == #[trigger] climb(
                base,
                start,
            ),
{
    let wanted = if match_height(base, pattern) is Some {
        pattern
    } else {
        mirrored_pattern(pattern)
    };
    lemma_first_start(base, wanted, 0);
    let start = first_start(base, wanted, 0).unwrap() as nat;
    assert(offset_in(base, pattern).unwrap().0 == climb(base, start));
}

/// The rows of a hybrid site as tall as `periods` of the base pattern land on the boundaries that
/// the pattern's member rows laid down: each starts where one of them starts, and ends where one
/// of them ends.
pub proof fn law_hybrid_rows_land_on_the_pattern(
    core: Area,
    pattern: Seq<OrientedSiteModel>,
    site: SiteModel,
    periods: nat,
    first: nat,
    r: int,
) -> (bounds: (nat, nat))
    requires
        pattern.len() > 0,
        forall|i: int| 0 <= i < pattern.len() ==> (#[trigger] pattern[i]).height >= 1,
        offset_in(pattern, site.row_pattern) is Some,
        periods >= 1,
        site.height == periods * climb(pattern, pattern.len()),
        0 <= r < hybrid_site_rows(core, pattern, site, first).len(),
    ensures
        bounds.0 < bounds.1 <= tile_count(pattern, core.dy()),
        hybrid_site_rows(core, pattern, site, first)[r].y == core.y_min + climb(
            pattern,
            bounds.0,
        ),
        hybrid_site_rows(core, pattern, site, first)[r].y + site.height == core.y_min + climb(
            pattern,
            bounds.1,
        ),
{
    let len = pattern.len();
    let period = climb(pattern, len);
    lemma_climb_grows(pattern, len);
    lemma_offset_is_a_climb(pattern, site.row_pattern);
    let (offset, orient) = offset_in(pattern, site.row_pattern).unwrap();
    let start = choose|start: nat| start < len && offset == #[trigger] climb(pattern, start);
    let j = r as nat;
    let lo: nat = start + (j * periods) * len;
    let hi: nat = start + ((j + 1) * periods) * len;
    lemma_climb_periods(pattern, start, j * periods);
    lemma_climb_periods(pattern, start, (j + 1) * periods);
    let h = site.height;
    assert(h > 0) by (nonlinear_arith)
        requires
            h == periods * period,
            periods >= 1,
            period >= 1,
    ;
    assert((j * periods) * period == j * h) by (nonlinear_arith)
        requires
            h == periods * period,
    ;
    assert(((j + 1) * periods) * period == j * h + h) by (nonlinear_arith)
        requires
            h == periods * period,
    ;
    assert(lo < hi) by (nonlinear_arith)
        requires
            lo == start + (j * periods) * len,
            hi == start + ((j + 1) * periods) * len,
            periods >= 1,
            len >= 1,
    ;
    lemma_stack(core.dy() - offset, h, r);
    law_tall_entries_run_out_of_room(pattern, core.dy());
    let n = tile_count(pattern, core.dy());
    assert(is_tile_count(pattern, core.dy(), n));
    if hi > n {
        lemma_climb_monotone(pattern, n + 1, hi);
    }
    (lo, hi)
}

/// Entries that have a height climb.
pub proof fn lemma_climb_monotone(pattern: Seq<OrientedSiteModel>, m: nat, n: nat)
    requires
        pattern.len() > 0,
        forall|i: int| 0 <= i < pattern.len() ==> (#[trigger] pattern[i]).height >= 1,
        m <= n,
    ensures
        climb(pattern, m) <= climb(pattern, n),
        m < n ==> climb(pattern, m) < climb(pattern, n),
    decreases n,
{
    if m < n {
        lemma_climb_monotone(pattern, m, (n - 1) as nat);
        lemma_wrap(n - 1, pattern.len() as int);
    }
}

/// From boundary `lo` to boundary `hi` of the tiled pattern.
pub open spec fn spans(
    row: RowModel,
    height: int,
    core: Area,
    pattern: Seq<OrientedSiteModel>,
    lo: nat,
    hi: nat,
) -> bool {
    &&& lo < hi <= tile_count(pattern, core.dy())
    &&& row.y == core.y_min + climb(pattern, lo)
    &&& row.y + height == core.y_min + climb(pattern, hi)
}

/// A hybrid site that occurs in the base pattern and is as tall as some number of its periods.
pub open spec fn is_whole_periods(pattern: Seq<OrientedSiteModel>, site: SiteModel) -> bool {
    &&& offset_in(pattern, site.row_pattern) is Some
    &&& exists|q: nat| q >= 1 && site.height == #[trigger] (q * climb(pattern, pattern.len()))
}

/// Heights are consistent: every entry of the pattern is as tall as the site of its name, and
/// every hybrid site is as tall as a number of periods.
pub open spec fn heights_agree(
    pattern: Seq<OrientedSiteModel>,
    ordered: Seq<SiteModel>,
    all: Seq<SiteModel>,
) -> bool {
    &&& forall|i: int|
        0 <= i < pattern.len() ==> (#[trigger] pattern[i]).height >= 1 && named_height(
            pattern[i].site,
            all,
            pattern,
        ) == pattern[i].height
    &&& forall|i: int|
        0 <= i < ordered.len() && (#[trigger] ordered[i]).is_hybrid() ==> is_whole_periods(
            pattern,
            ordered[i],
        ) && named_height(ordered[i].name, all, pattern) == ordered[i].height
}

proof fn lemma_rows_span_tiles(
    core: Area,
    pattern: Seq<OrientedSiteModel>,
    ordered: Seq<SiteModel>,
    all: Seq<SiteModel>,
    r: int,
) -> (bounds: (nat, nat))
    requires
        pattern.len() > 0,
        heights_agree(pattern, ordered, all),
        0 <= r < hybrid_rows(core, pattern, ordered).len(),
    ensures
        spans(
            hybrid_rows(core, pattern, ordered)[r],
            named_height(hybrid_rows(core, pattern, ordered)[r].site, all, pattern),
            core,
            pattern,
            bounds.0,
            bounds.1,
        ),
    decreases ordered.len(),
{
    if ordered.len() == 0 {
        lemma_wrap(r, pattern.len() as int);
        let e = pattern[r % pattern.len() as int];
        assert(climb(pattern, (r + 1) as nat) == climb(pattern, r as nat) + e.height);
        (r as nat, (r + 1) as nat)
    } else {
        let rest = ordered.drop_last();
        let site = ordered.last();
        let before = hybrid_rows(core, pattern, rest);
        assert forall|i: int| 0 <= i < rest.len() && (#[trigger] rest[i]).is_hybrid() implies
            is_whole_periods(pattern, rest[i]) && named_height(rest[i].name, all, pattern)
            == rest[i].height by {
            assert(rest[i] == ordered[i]);
        }
        assert(ordered[ordered.len() - 1] == site);
        if r < before.len() {
            lemma_rows_span_tiles(core, pattern, rest, all, r)
        } else {
            let q = choose|q: nat|
                q >= 1 && site.height == #[trigger] (q * climb(pattern, pattern.len()));
            law_hybrid_rows_land_on_the_pattern(
                core,
                pattern,
                site,
                q,
                before.len(),
                r - before.len(),
            )
        }
    }
}

/// The core area of a hybrid floorplan becomes exactly what its rows cover: every row starts and
/// ends at its sides, no row passes its top, and some row reaches it. Where no entry of the pattern
/// has a negative height, no row starts below its bottom, and some row starts there if the pattern
/// gave any.
pub proof fn law_the_core_becomes_what_hybrid_rows_cover(
    core: Area,
    ordered: Seq<SiteModel>,
    base: SiteModel,
    r: int,
)
    requires
        base.is_hybrid(),
        forall|i: int| 0 <= i < ordered.len() ==> (#[trigger] ordered[i]).height > 0,
        first_incompatible(base, ordered) is None,
        0 <= r < hybrid_rows(core, base.row_pattern, ordered).len(),
    ensures
        ({
            let pattern = base.row_pattern;
            let rows = hybrid_rows(core, pattern, ordered);
            let area = hybrid_area(core, pattern, ordered);
            &&& rows[r].x == area.x_min
            &&& rows[r].x + rows[r].num_sites * rows[r].spacing == area.x_max
            &&& row_top(rows[r], ordered, pattern) <= area.y_max
            &&& exists|q: int|
                0 <= q < rows.len() && row_top(#[trigger] rows[q], ordered, pattern) == area.y_max
            &&& no_entry_sinks(pattern) ==> area.y_min <= rows[r].y
            &&& tile_count(pattern, core.dy()) > 0 ==> rows[0].y == area.y_min
        }),
{
    let pattern = base.row_pattern;
    law_hybrid_rows_number_throughout(core, pattern, ordered, r);
    law_the_highest_top_is_reached(hybrid_rows(core, pattern, ordered), ordered, pattern, r);
    lemma_hybrid_rows_start_with_members(core, pattern, ordered);
    if no_entry_sinks(pattern) {
        lemma_hybrid_rows_above_floor(core, ordered, base, r);
    }
    if tile_count(pattern, core.dy()) > 0 {
        assert(hybrid_rows(core, pattern, ordered)[0] == member_rows(core, pattern)[0]);
    }
}

/// No entry of the pattern has a negative height.
pub open spec fn no_entry_sinks(pattern: Seq<OrientedSiteModel>) -> bool {
    forall|i: int| 0 <= i < pattern.len() ==> (#[trigger] pattern[i]).height >= 0
}

proof fn lemma_climb_rises(pattern: Seq<OrientedSiteModel>, n: nat)
    requires
        pattern.len() > 0,
        no_entry_sinks(pattern),
    ensures
        climb(pattern, n) >= 0,
    decreases n,
{
    if n > 0 {
        lemma_climb_rises(pattern, (n - 1) as nat);
        lemma_wrap(n - 1, pattern.len() as int);
    }
}

/// No row of a hybrid floorplan starts below the core.
pub proof fn lemma_hybrid_rows_above_floor(
    core: Area,
    ordered: Seq<SiteModel>,
    base: SiteModel,
    r: int,
)
    requires
        base.is_hybrid(),
        no_entry_sinks(base.row_pattern),
        forall|i: int| 0 <= i < ordered.len() ==> (#[trigger] ordered[i]).height > 0,
        first_incompatible(base, ordered) is None,
        0 <= r < hybrid_rows(core, base.row_pattern, ordered).len(),
    ensures
        core.y_min <= hybrid_rows(core, base.row_pattern, ordered)[r].y,
    decreases ordered.len(),
{
    let pattern = base.row_pattern;
    if ordered.len() == 0 {
        lemma_climb_rises(pattern, r as nat);
    } else {
        let rest = ordered.drop_last();
        let site = ordered.last();
        let before = hybrid_rows(core, pattern, rest);
        assert forall|i: int| 0 <= i < rest.len() implies (#[trigger] rest[i]).height > 0 by {
            assert(rest[i] == ordered[i]);
        }
        assert(ordered[ordered.len() - 1] == site);
        if r < before.len() {
            lemma_hybrid_rows_above_floor(core, rest, base, r);
        } else {
            let k = r - before.len();
            let offset = offset_in(pattern, site.row_pattern).unwrap().0;
            lemma_offset_is_a_climb(pattern, site.row_pattern);
            let start = choose|start: nat|
                start < pattern.len() && offset == #[trigger] climb(pattern, start);
            lemma_climb_rises(pattern, start);
            assert(0 <= k * site.height) by (nonlinear_arith)
                requires
                    k >= 0,
                    site.height > 0,
            ;
            assert(hybrid_rows(core, pattern, ordered)[r] == hybrid_site_rows(
                core,
                pattern,
                site,
                before.len(),
            )[k]);
        }
    }
}

/// Where the heights are consistent, the rows of a hybrid floorplan cover no more than the core:
/// they end where the last member row ends.
pub proof fn law_consistent_rows_stay_in_the_core(
    core: Area,
    pattern: Seq<OrientedSiteModel>,
    ordered: Seq<SiteModel>,
)
    requires
        pattern.len() > 0,
        heights_agree(pattern, ordered, ordered),
        hybrid_rows(core, pattern, ordered).len() > 0,
    ensures
        hybrid_area(core, pattern, ordered).y_max == core.y_min + climb(
            pattern,
            tile_count(pattern, core.dy()),
        ),
        hybrid_area(core, pattern, ordered).y_max <= core.y_max,
{
    let rows = hybrid_rows(core, pattern, ordered);
    let n = tile_count(pattern, core.dy());
    law_tall_entries_run_out_of_room(pattern, core.dy());
    assert(is_tile_count(pattern, core.dy(), n));
    let (lo, hi) = lemma_rows_span_tiles(core, pattern, ordered, ordered, 0);
    law_the_highest_top_is_reached(rows, ordered, pattern, 0);
    let q = choose|q: int|
        0 <= q < rows.len() && row_top(#[trigger] rows[q], ordered, pattern) == highest_top(
            rows,
            ordered,
            pattern,
        );
    let (a, b) = lemma_rows_span_tiles(core, pattern, ordered, ordered, q);
    lemma_climb_monotone(pattern, b, n);
    lemma_hybrid_rows_start_with_members(core, pattern, ordered);
    assert(rows[n - 1] == member_rows(core, pattern)[n - 1]);
    law_the_highest_top_is_reached(rows, ordered, pattern, n - 1);
    lemma_wrap(n - 1, pattern.len() as int);
    let e = pattern[(n - 1) % pattern.len() as int];
    assert(climb(pattern, n) == climb(pattern, (n - 1) as nat) + e.height);
    assert(named_height(e.site, ordered, pattern) == e.height);
    assert(climb(pattern, n) <= core.dy());
}

proof fn lemma_hybrid_rows_start_with_members(
    core: Area,
    pattern: Seq<OrientedSiteModel>,
    ordered: Seq<SiteModel>,
)
    ensures
        hybrid_rows(core, pattern, ordered).len() >= member_rows(core, pattern).len(),
        forall|r: int|
            0 <= r < member_rows(core, pattern).len() ==> #[trigger] hybrid_rows(
                core,
                pattern,
                ordered,
            )[r] == member_rows(core, pattern)[r],
    decreases ordered.len(),
{
    if ordered.len() > 0 {
        lemma_hybrid_rows_start_with_members(core, pattern, ordered.drop_last());
        let before = hybrid_rows(core, pattern, ordered.drop_last());
        assert forall|r: int| 0 <= r < member_rows(core, pattern).len() implies (
        #[trigger] hybrid_rows(core, pattern, ordered)[r]) == member_rows(core, pattern)[r] by {
            assert(before[r] == member_rows(core, pattern)[r]);
        }
    }
}

proof fn lemma_incompatible_somewhere(base: SiteModel, ordered: Seq<SiteModel>)
    ensures
        first_incompatible(base, ordered) is None <==> forall|i: int|
            0 <= i < ordered.len() && (#[trigger] ordered[i]).is_hybrid() ==> offset_in(
                base.row_pattern,
                ordered[i].row_pattern,
            ) is Some,
    decreases ordered.len(),
{
    if ordered.len() > 0 {
        let rest = ordered.drop_last();
        lemma_incompatible_somewhere(base, rest);
        assert(ordered[ordered.len() - 1] == ordered.last());
        assert forall|i: int| 0 <= i < rest.len() implies #[trigger] rest[i] == ordered[i] by {}
        if first_incompatible(base, ordered) is None {
            assert forall|i: int| 0 <= i < ordered.len() && (#[trigger] ordered[i]).is_hybrid()
                implies offset_in(base.row_pattern, ordered[i].row_pattern) is Some by {
                if i < rest.len() {
                    assert(rest[i] == ordered[i]);
                }
            }
        }
    }
}

/// A hybrid site has room for a row of its own.
pub open spec fn has_room(core: Area, pattern: Seq<OrientedSiteModel>, site: SiteModel) -> bool {
    site.is_hybrid() && stack_count(
        core.dy() - offset_in(pattern, site.row_pattern).unwrap().0,
        site.height,
    ) > 0
}

proof fn lemma_hybrid_rows_somewhere(
    core: Area,
    pattern: Seq<OrientedSiteModel>,
    ordered: Seq<SiteModel>,
)
    requires
        forall|i: int| 0 <= i < ordered.len() ==> (#[trigger] ordered[i]).height > 0,
    ensures
        hybrid_rows(core, pattern, ordered).len() > 0 <==> tile_count(pattern, core.dy()) > 0
            || exists|i: int|
            0 <= i < ordered.len() && has_room(core, pattern, #[trigger] ordered[i]),
    decreases ordered.len(),
{
    if ordered.len() > 0 {
        let rest = ordered.drop_last();
        let site = ordered.last();
        let n = ordered.len() - 1;
        assert forall|i: int| 0 <= i < rest.len() implies (#[trigger] rest[i]).height > 0 by {
            assert(rest[i] == ordered[i]);
        }
        lemma_hybrid_rows_somewhere(core, pattern, rest);
        assert(ordered[n] == site);
        lemma_stack(core.dy() - offset_in(pattern, site.row_pattern).unwrap().0, site.height, 0);
        if exists|i: int| 0 <= i < rest.len() && has_room(core, pattern, #[trigger] rest[i]) {
            let i = choose|i: int|
                0 <= i < rest.len() && has_room(core, pattern, #[trigger] rest[i]);
            assert(has_room(core, pattern, ordered[i]));
        }
        if exists|i: int| 0 <= i < ordered.len() && has_room(core, pattern, #[trigger] ordered[i]) {
            let i = choose|i: int|
                0 <= i < ordered.len() && has_room(core, pattern, #[trigger] ordered[i]);
            if i < rest.len() {
                assert(has_room(core, pattern, rest[i]));
            }
        }
    } else {
        assert(member_rows(core, pattern).len() == tile_count(pattern, core.dy()));
    }
}

/// A hybrid floorplan is made exactly where the pattern has a width, every hybrid site's pattern
/// occurs in it, as written or from the other end, and there is room for a row of either set.
pub proof fn law_a_hybrid_plan_is_owed(
    die: Area,
    core_requested: Area,
    core: Area,
    ordered: Seq<SiteModel>,
    base: SiteModel,
)
    requires
        forall|i: int| 0 <= i < ordered.len() ==> (#[trigger] ordered[i]).height > 0,
    ensures
        hybrid_plan(die, core_requested, core, ordered, base) is Ok <==> {
            &&& base.row_pattern[0].width > 0
            &&& forall|i: int|
                0 <= i < ordered.len() && (#[trigger] ordered[i]).is_hybrid() ==> offset_in(
                    base.row_pattern,
                    ordered[i].row_pattern,
                ) is Some
            &&& tile_count(base.row_pattern, core.dy()) > 0 || exists|i: int|
                0 <= i < ordered.len() && has_room(core, base.row_pattern, #[trigger] ordered[i])
        },
{
    lemma_incompatible_somewhere(base, ordered);
    lemma_hybrid_rows_somewhere(core, base.row_pattern, ordered);
}

/// The sites that have a pattern, in their order.
pub open spec fn with_pattern(sites: Seq<SiteModel>) -> Seq<SiteModel>
    decreases sites.len(),
{
    if sites.len() == 0 {
        Seq::empty()
    } else if sites.last().row_pattern.len() > 0 {
        with_pattern(sites.drop_last()).push(sites.last())
    } else {
        with_pattern(sites.drop_last())
    }
}

/// The pattern of a hybrid plan is laid down entry by entry from the core's floor, and begins again
/// after its last entry. Each row stands on the one below it and is as high as its entry. The rows
/// end where the next entry would pass the core's top.
pub proof fn law_the_pattern_rows_of_a_plan_in_full(
    die: Area,
    core_requested: Area,
    core: Area,
    ordered: Seq<SiteModel>,
    base: SiteModel,
    r: int,
)
    requires
        base.row_pattern.len() > 0,
        tiles_end(base.row_pattern, core.dy()),
    ensures
        hybrid_plan(die, core_requested, core, ordered, base) matches Ok(p) ==> {
            let pattern = base.row_pattern;
            let len = pattern.len() as int;
            &&& p.die == die && p.core_requested == core_requested && p.core_snapped == core
            &&& p.pattern_rows matches Some((name, n)) && {
                &&& name == base.name
                &&& 0 <= n <= p.rows.len()
                &&& n == 0 ==> core.y_min + pattern[0].height > core.y_max
                &&& n > 0 ==> p.rows[0].y == core.y_min
                &&& 0 <= r < n ==> {
                    let row = p.rows[r];
                    let entry = pattern[r % len];
                    &&& row.name == "ROW_"@ + decimal(r as nat)
                    &&& row.site == entry.site
                    &&& row.orient == entry.orient
                    &&& row.x == core.x_min
                    &&& row.spacing == pattern[0].width
                    &&& are_whole_steps(row.num_sites, pattern[0].width, core.x_max - core.x_min)
                    &&& row.y + entry.height <= core.y_max
                    &&& r + 1 < n ==> p.rows[r + 1].y == row.y + entry.height
                    &&& r + 1 == n ==> row.y + entry.height + pattern[(r + 1) % len].height
                        > core.y_max
                }
            }
        },
{
    let pattern = base.row_pattern;
    let n = tile_count(pattern, core.dy());
    assert(is_tile_count(pattern, core.dy(), n));
    lemma_hybrid_rows_start_with_members(core, pattern, ordered);
    if hybrid_plan(die, core_requested, core, ordered, base) is Ok {
        lemma_whole_steps(core.dx(), pattern[0].width);
        if n == 0 {
            assert(climb(pattern, 1) == climb(pattern, 0) + pattern[0int % pattern.len() as int]
                .height);
        } else {
            assert(hybrid_rows(core, pattern, ordered)[0] == member_rows(core, pattern)[0]);
        }
        if 0 <= r < n {
            let rows = hybrid_rows(core, pattern, ordered);
            law_the_pattern_tiles_the_core(core, pattern, r);
            assert(rows[r] == member_rows(core, pattern)[r]);
            if r + 1 < n {
                assert(rows[r + 1] == member_rows(core, pattern)[r + 1]);
            }
        }
    }
}

proof fn lemma_hybrid_counts(core: Area, pattern: Seq<OrientedSiteModel>, ordered: Seq<SiteModel>)
    requires
        forall|i: int| 0 <= i < ordered.len() ==> (#[trigger] ordered[i]).height > 0,
    ensures
        hybrid_counts(core, pattern, ordered).len() == with_pattern(ordered).len(),
        forall|i: int|
            0 <= i < with_pattern(ordered).len() ==> {
                let site = #[trigger] with_pattern(ordered)[i];
                let (offset, orient) = offset_in(pattern, site.row_pattern).unwrap();
                &&& site.height > 0
                &&& hybrid_counts(core, pattern, ordered)[i] == (
                    site.name,
                    stack_count(core.dy() - offset, site.height),
                )
            },
        hybrid_rows(core, pattern, ordered).len() == member_rows(core, pattern).len() + total(
            hybrid_counts(core, pattern, ordered),
        ),
    decreases ordered.len(),
{
    if ordered.len() > 0 {
        let rest = ordered.drop_last();
        let site = ordered.last();
        assert forall|i: int| 0 <= i < rest.len() implies (#[trigger] rest[i]).height > 0 by {
            assert(rest[i] == ordered[i]);
        }
        assert(ordered[ordered.len() - 1] == site);
        lemma_hybrid_counts(core, pattern, rest);
        if site.is_hybrid() {
            let offset = offset_in(pattern, site.row_pattern).unwrap().0;
            lemma_stack(core.dy() - offset, site.height, 0);
            let counts = hybrid_counts(core, pattern, ordered);
            assert(counts.drop_last() =~= hybrid_counts(core, pattern, rest));
            assert forall|i: int| 0 <= i < with_pattern(ordered).len() implies {
                let site = #[trigger] with_pattern(ordered)[i];
                let (offset, orient) = offset_in(pattern, site.row_pattern).unwrap();
                &&& site.height > 0
                &&& counts[i] == (site.name, stack_count(core.dy() - offset, site.height))
            } by {
                if i < with_pattern(rest).len() {
                    assert(with_pattern(ordered)[i] == with_pattern(rest)[i]);
                    assert(counts[i] == hybrid_counts(core, pattern, rest)[i]);
                }
            }
        }
    }
}

proof fn lemma_hybrid_row(
    core: Area,
    pattern: Seq<OrientedSiteModel>,
    ordered: Seq<SiteModel>,
    i: int,
    k: int,
)
    requires
        forall|j: int| 0 <= j < ordered.len() ==> (#[trigger] ordered[j]).height > 0,
        0 <= i < with_pattern(ordered).len(),
        0 <= k < hybrid_counts(core, pattern, ordered)[i].1,
    ensures
        ({
            let site = with_pattern(ordered)[i];
            let (offset, orient) = offset_in(pattern, site.row_pattern).unwrap();
            let rows = hybrid_rows(core, pattern, ordered);
            let r = member_rows(core, pattern).len() + total(
                hybrid_counts(core, pattern, ordered).take(i),
            ) + k;
            &&& 0 <= r < rows.len()
            &&& rows[r].site == site.name
            &&& rows[r].y == core.y_min + offset + k * site.height
            &&& rows[r].orient == orient
        }),
    decreases ordered.len(),
{
    let rest = ordered.drop_last();
    let site = ordered.last();
    let counts = hybrid_counts(core, pattern, ordered);
    let below = hybrid_counts(core, pattern, rest);
    assert forall|j: int| 0 <= j < rest.len() implies (#[trigger] rest[j]).height > 0 by {
        assert(rest[j] == ordered[j]);
    }
    lemma_hybrid_counts(core, pattern, ordered);
    lemma_hybrid_counts(core, pattern, rest);
    assert(with_pattern(ordered)[i].height > 0);
    if site.row_pattern.len() > 0 && i == with_pattern(rest).len() {
        assert(counts.take(i) =~= below);
        let before = hybrid_rows(core, pattern, rest);
        let r = before.len() + k;
        assert(hybrid_rows(core, pattern, ordered)[r] == hybrid_site_rows(
            core,
            pattern,
            site,
            before.len(),
        )[k]);
    } else {
        assert(with_pattern(ordered)[i] == with_pattern(rest)[i]);
        assert(counts[i] == below[i]);
        assert(counts.take(i) =~= below.take(i));
        lemma_hybrid_row(core, pattern, rest, i, k);
    }
}

/// The sites with a pattern have rows behind those of the base pattern, site by site in their
/// order. A site's rows start as far above the core's floor as its pattern lies in the base
/// pattern, stand on one another, and are as many as have room. All of them are oriented as the
/// pattern was found.
pub proof fn law_the_hybrid_rows_of_a_plan_in_full(
    die: Area,
    core_requested: Area,
    core: Area,
    ordered: Seq<SiteModel>,
    base: SiteModel,
    i: int,
    k: int,
    offset: int,
    orient: Seq<char>,
)
    requires
        base.row_pattern.len() > 0,
        forall|j: int| 0 <= j < ordered.len() ==> (#[trigger] ordered[j]).height > 0,
    ensures
        hybrid_plan(die, core_requested, core, ordered, base) matches Ok(p) ==> {
            let counts = p.rows_per_site;
            let width = base.row_pattern[0].width;
            let site = with_pattern(ordered)[i];
            &&& counts.len() == with_pattern(ordered).len()
            &&& p.pattern_rows matches Some((_, n)) && {
                &&& p.rows.len() == n + total(counts)
                &&& 0 <= i < counts.len() && offset_in(base.row_pattern, site.row_pattern) == Some(
                    (offset, orient),
                ) ==> {
                    let room = core.y_max - core.y_min - offset;
                    let r = n + total(counts.take(i)) + k;
                    &&& counts[i].0 == site.name
                    &&& room >= 0 ==> is_most(counts[i].1, site.height, room, RowParity::Any)
                    &&& room < 0 ==> counts[i].1 == 0
                    &&& 0 <= k < counts[i].1 ==> {
                        &&& 0 <= r < p.rows.len()
                        &&& p.rows[r].name == "ROW_"@ + decimal(r as nat)
                        &&& p.rows[r].site == site.name
                        &&& p.rows[r].orient == orient
                        &&& p.rows[r].x == core.x_min
                        &&& p.rows[r].y == core.y_min + offset + k * site.height
                        &&& p.rows[r].spacing == width
                        &&& are_whole_steps(p.rows[r].num_sites, width, core.x_max - core.x_min)
                    }
                }
            }
        },
{
    let pattern = base.row_pattern;
    match hybrid_plan(die, core_requested, core, ordered, base) {
        Ok(p) => {
            lemma_hybrid_counts(core, pattern, ordered);
            let site = with_pattern(ordered)[i];
            if 0 <= i < p.rows_per_site.len() && offset_in(pattern, site.row_pattern) == Some(
                (offset, orient),
            ) {
                let room = core.dy() - offset;
                let c = p.rows_per_site[i].1;
                assert(site.height > 0);
                lemma_stack(room, site.height, 0);
                if room >= 0 {
                    if c > 0 {
                        lemma_stack(room, site.height, c - 1);
                        assert((c - 1) * site.height + site.height == c * site.height)
                            by (nonlinear_arith);
                    } else {
                        assert(c * site.height == 0);
                    }
                    assert forall|m: int| c < m && #[trigger] allows(RowParity::Any, m) implies room
                        < m * site.height by {
                        lemma_stack(room, site.height, m - 1);
                        assert((m - 1) * site.height + site.height == m * site.height)
                            by (nonlinear_arith);
                    }
                }
                if 0 <= k < c {
                    lemma_hybrid_row(core, pattern, ordered, i, k);
                    let r = member_rows(core, pattern).len() + total(p.rows_per_site.take(i)) + k;
                    law_hybrid_rows_number_throughout(core, pattern, ordered, r);
                    lemma_whole_steps(core.dx(), pattern[0].width);
                }
            }
        },
        Err(_) => {},
    }
}

/// The core of a hybrid plan ends where its rows end: behind the last whole column of the pattern,
/// and at the greatest top of any row.
pub proof fn law_a_hybrid_core_ends_with_its_rows(
    die: Area,
    core_requested: Area,
    core: Area,
    ordered: Seq<SiteModel>,
    base: SiteModel,
    r: int,
)
    requires
        base.row_pattern.len() > 0,
    ensures
        hybrid_plan(die, core_requested, core, ordered, base) matches Ok(p) ==> {
            let pattern = base.row_pattern;
            &&& p.core_final.x_min == core.x_min
            &&& p.core_final.y_min == core.y_min
            &&& p.core_final.x_max == p.rows[0].x + p.rows[0].num_sites * pattern[0].width
            &&& 0 <= r < p.rows.len() ==> p.rows[r].y + named_height(
                p.rows[r].site,
                ordered,
                pattern,
            ) <= p.core_final.y_max
            &&& exists|q: int|
                0 <= q < p.rows.len() && p.core_final.y_max == (#[trigger] p.rows[q]).y
                    + named_height(p.rows[q].site, ordered, pattern)
        },
{
    let pattern = base.row_pattern;
    match hybrid_plan(die, core_requested, core, ordered, base) {
        Ok(p) => {
            law_hybrid_rows_number_throughout(core, pattern, ordered, 0);
            law_the_highest_top_is_reached(p.rows, ordered, pattern, 0);
            if 0 <= r < p.rows.len() {
                law_the_highest_top_is_reached(p.rows, ordered, pattern, r);
            }
            let q = choose|q: int|
                0 <= q < p.rows.len() && row_top(#[trigger] p.rows[q], ordered, pattern)
                    == highest_top(p.rows, ordered, pattern);
            assert(p.core_final.y_max == p.rows[q].y + named_height(
                p.rows[q].site,
                ordered,
                pattern,
            ));
        },
        Err(_) => {},
    }
}

proof fn lemma_no_entry_named(pattern: Seq<OrientedSiteModel>, name: Seq<char>, k: int)
    requires
        0 <= k <= pattern.len(),
        forall|j: int| 0 <= j < k ==> (#[trigger] pattern[j]).site != name,
    ensures
        entry_height(pattern.take(k), name) is None,
    decreases k,
{
    if k > 0 {
        lemma_no_entry_named(pattern, name, k - 1);
        assert(pattern.take(k).drop_last() =~= pattern.take(k - 1));
        assert(pattern.take(k).last() == pattern[k - 1]);
    }
}

/// A name is as high as the first site that bears it. Where no site does, it is as high as the
/// first entry of the pattern that names it, and where no entry does either, it has no height.
pub proof fn law_a_name_is_as_high_as_its_first_site(
    name: Seq<char>,
    sites: Seq<SiteModel>,
    pattern: Seq<OrientedSiteModel>,
    k: int,
)
    ensures
        0 <= k < sites.len() && sites[k].name == name && (forall|j: int|
            0 <= j < k ==> (#[trigger] sites[j]).name != name) ==> named_height(
            name,
            sites,
            pattern,
        ) == sites[k].height,
        (forall|j: int| 0 <= j < sites.len() ==> (#[trigger] sites[j]).name != name) ==> {
            &&& 0 <= k < pattern.len() && pattern[k].site == name && (forall|j: int|
                0 <= j < k ==> (#[trigger] pattern[j]).site != name) ==> named_height(
                name,
                sites,
                pattern,
            ) == pattern[k].height
            &&& (forall|j: int| 0 <= j < pattern.len() ==> (#[trigger] pattern[j]).site != name)
                ==> named_height(name, sites, pattern) == 0
        },
{
    if 0 <= k < sites.len() && sites[k].name == name && (forall|j: int|
        0 <= j < k ==> (#[trigger] sites[j]).name != name) {
        law_a_name_stands_for_the_first_that_bears_it(sites, name, k);
    }
    if forall|j: int| 0 <= j < sites.len() ==> (#[trigger] sites[j]).name != name {
        law_a_name_stands_for_the_first_that_bears_it(sites, name, sites.len() as int);
        if 0 <= k < pattern.len() && pattern[k].site == name && (forall|j: int|
            0 <= j < k ==> (#[trigger] pattern[j]).site != name) {
            lemma_no_entry_named(pattern, name, k);
            assert(pattern.take(k + 1).drop_last() =~= pattern.take(k));
            assert(pattern.take(k + 1).last() == pattern[k]);
            lemma_entry_height_stays(pattern, name, k + 1);
        }
        if forall|j: int| 0 <= j < pattern.len() ==> (#[trigger] pattern[j]).site != name {
            lemma_no_entry_named(pattern, name, pattern.len() as int);
            assert(pattern.take(pattern.len() as int) =~= pattern);
        }
    }
}

/// Why there is no hybrid plan: the pattern has no width; a site's pattern does not occur in the
/// base's, and the first such site is named with the base; or there is room for no row at all.
pub proof fn law_why_there_is_no_hybrid_plan(
    die: Area,
    core_requested: Area,
    core: Area,
    ordered: Seq<SiteModel>,
    base: SiteModel,
    k: int,
)
    requires
        base.row_pattern.len() > 0,
        tiles_end(base.row_pattern, core.dy()),
        forall|i: int| 0 <= i < ordered.len() ==> (#[trigger] ordered[i]).height > 0,
    ensures
        ({
            let r = hybrid_plan(die, core_requested, core, ordered, base);
            let pattern = base.row_pattern;
            let compatible = forall|i: int|
                0 <= i < ordered.len() && (#[trigger] ordered[i]).row_pattern.len() > 0
                    ==> offset_in(pattern, ordered[i].row_pattern) is Some;
            &&& pattern[0].width <= 0 ==> r == Err::<PlanModel, _>(
                PlanErrorModel::DegenerateSite(pattern[0].site),
            )
            &&& pattern[0].width > 0 && 0 <= k < ordered.len() && ordered[k].row_pattern.len() > 0
                && offset_in(pattern, ordered[k].row_pattern) is None && (forall|i: int|
                0 <= i < k && (#[trigger] ordered[i]).row_pattern.len() > 0 ==> offset_in(
                    pattern,
                    ordered[i].row_pattern,
                ) is Some) ==> r == Err::<PlanModel, _>(
                PlanErrorModel::IncompatibleSite { site: ordered[k].name, base: base.name },
            )
            &&& pattern[0].width > 0 && compatible ==> (r is Ok <==> core.y_min + pattern[0].height
                <= core.y_max || exists|i: int|
                0 <= i < ordered.len() && (#[trigger] ordered[i]).row_pattern.len() > 0
                    && core.y_min + offset_in(pattern, ordered[i].row_pattern).unwrap().0
                    + ordered[i].height <= core.y_max)
            &&& pattern[0].width > 0 && compatible && r is Err ==> r == Err::<PlanModel, _>(
                PlanErrorModel::NoRows,
            )
        }),
{
    let pattern = base.row_pattern;
    let n = tile_count(pattern, core.dy());
    assert(is_tile_count(pattern, core.dy(), n));
    assert(climb(pattern, 1) == climb(pattern, 0) + pattern[0int % pattern.len() as int].height);
    if n > 0 {
        assert(climb(pattern, 1) <= core.dy());
    }
    lemma_incompatible_somewhere(base, ordered);
    lemma_hybrid_rows_somewhere(core, pattern, ordered);
    assert forall|i: int| 0 <= i < ordered.len() implies (has_room(
        core,
        pattern,
        #[trigger] ordered[i],
    ) <==> ordered[i].row_pattern.len() > 0 && core.y_min + offset_in(
        pattern,
        ordered[i].row_pattern,
    ).unwrap().0 + ordered[i].height <= core.y_max) by {
        lemma_stack(
            core.dy() - offset_in(pattern, ordered[i].row_pattern).unwrap().0,
            ordered[i].height,
            0,
        );
    }
    if exists|i: int| 0 <= i < ordered.len() && has_room(core, pattern, #[trigger] ordered[i]) {
        let i = choose|i: int|
            0 <= i < ordered.len() && has_room(core, pattern, #[trigger] ordered[i]);
        assert(ordered[i].row_pattern.len() > 0);
    }
    if 0 <= k < ordered.len() && ordered[k].row_pattern.len() > 0 && offset_in(
        pattern,
        ordered[k].row_pattern,
    ) is None && (forall|i: int|
        0 <= i < k && (#[trigger] ordered[i]).row_pattern.len() > 0 ==> offset_in(
            pattern,
            ordered[i].row_pattern,
        ) is Some) {
        lemma_incompatible_somewhere(base, ordered.take(k));
        assert(ordered.take(k + 1).drop_last() =~= ordered.take(k));
        assert(ordered.take(k + 1).last() == ordered[k]);
        lemma_incompatible_stays(base, ordered, k + 1);
    }
}

} // verus!
