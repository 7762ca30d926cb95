//! The planner: from die, core and sites to rows, or to the reason why there are none.

use crate::fit::{check_instance_dimensions, first_misfit};
use crate::geometry::{
    are_whole_steps, area_on_mfg_grid, can_snap, div_toward_zero, fits, in_range,
    lemma_whole_steps, lemma_whole_steps_stay_within, snap_rect_to_mfg_grid, trunc_div, Area,
    Rect,
};
use crate::hybrid::{
    can_plan_hybrid, first_incompatible, hybrid_fits, hybrid_plan,
    law_hybrid_rows_number_throughout, plan_hybrid,
};
use crate::model::{
    instance_models, outcome, row_models, site_counts, site_models, site_ref_models, texts,
    Instance, InstanceModel, Plan, PlanError, PlanErrorModel, PlanModel, Row, RowModel, RowParity,
    Site, SiteModel,
};
use crate::order::{
    first_named, law_a_name_stands_for_the_first_that_bears_it, law_name_order_covers,
    law_name_order_depends_on_names_alone, law_name_order_is_strict,
    law_name_order_keeps_the_first, lemma_first_named, lemma_first_named_stays, name_order,
    sites_by_name,
};
use crate::rows::{
    allows, build_uniform_rows, can_snap_core, is_kth_row, is_most,
    law_as_many_rows_as_have_room, law_every_row_is_one_of_a_stack, law_the_core_snap_rounds_up,
    law_the_counts_add_up, law_the_rows_of_a_site_in_full, lemma_row_name_injective,
    lemma_rows_have_room, row_count, row_name, site_rows, snap_core_lower_left, snapped_core,
    total, uniform_counts, uniform_rows,
};
use crate::text::{decimal, same_text, text_before};
use vstd::arithmetic::div_mod::{lemma_fundamental_div_mod, lemma_fundamental_div_mod_converse};
use vstd::prelude::*;

verus! {

/// The first site, in the order given, that nothing can be tiled with.
pub open spec fn first_degenerate(sites: Seq<SiteModel>) -> Option<Seq<char>>
    decreases sites.len(),
{
    if sites.len() == 0 {
        None
    } else {
        match first_degenerate(sites.drop_last()) {
            Some(name) => Some(name),
            None => if sites.last().is_degenerate() {
                Some(sites.last().name)
            } else {
                None
            },
        }
    }
}

/// The first site, in turn, whose height is no multiple of the base site's.
pub open spec fn first_uneven(base: SiteModel, ordered: Seq<SiteModel>) -> Option<Seq<char>>
    decreases ordered.len(),
{
    if ordered.len() == 0 {
        None
    } else {
        match first_uneven(base, ordered.drop_last()) {
            Some(name) => Some(name),
            None => if ordered.last().height % base.height != 0 {
                Some(ordered.last().name)
            } else {
                None
            },
        }
    }
}

/// The refusals that come before anything is snapped to the site grid, in the order in which they
/// win: an empty die, a core outside the die, a master that does not fit, no site, a degenerate
/// site.
pub open spec fn early_refusal(
    die: Area,
    core: Area,
    sites: Seq<SiteModel>,
    instances: Seq<InstanceModel>,
) -> Option<PlanErrorModel> {
    if die.is_empty() {
        Some(PlanErrorModel::EmptyDieArea)
    } else if !die.contains(core) {
        Some(PlanErrorModel::CoreNotInDie)
    } else {
        match first_misfit(instances, core) {
            Some(e) => Some(e),
            None => if sites.len() == 0 {
                Some(PlanErrorModel::NoRows)
            } else {
                match first_degenerate(sites) {
                    Some(name) => Some(PlanErrorModel::DegenerateSite(name)),
                    None => None,
                }
            },
        }
    }
}

/// Where the tallest stack of rows ends. Every site's rows start at the core's floor.
pub open spec fn stack_top(core: Area, ordered: Seq<SiteModel>, parity: RowParity) -> int
    decreases ordered.len(),
{
    if ordered.len() == 0 {
        core.y_min
    } else {
        let top = core.y_min + row_count(core, ordered.last().height, parity)
            * ordered.last().height;
        let below = stack_top(core, ordered.drop_last(), parity);
        if ordered.len() == 1 || top > below {
            top
        } else {
            below
        }
    }
}

/// What the rows of a uniform floorplan cover.
pub open spec fn uniform_area(
    core: Area,
    base: SiteModel,
    ordered: Seq<SiteModel>,
    parity: RowParity,
) -> Area {
    Area {
        x_min: core.x_min,
        y_min: core.y_min,
        x_max: core.x_min + trunc_div(core.dx(), base.width) * base.width,
        y_max: stack_top(core, ordered, parity),
    }
}

/// The uniform floorplan in a snapped core: every site in name order gets its rows, and the core
/// area becomes what they cover.
pub open spec fn uniform_plan(
    die: Area,
    core_requested: Area,
    core: Area,
    ordered: Seq<SiteModel>,
    base: SiteModel,
    parity: RowParity,
    flipped: Seq<Seq<char>>,
) -> Result<PlanModel, PlanErrorModel> {
    match first_uneven(base, ordered) {
        Some(site) => Err(PlanErrorModel::SiteHeightNotMultiple { site, base: base.name }),
        None => {
            let rows = uniform_rows(core, base, ordered, parity, flipped);
            if rows.len() == 0 {
                Err(PlanErrorModel::NoRows)
            } else {
                Ok(
                    PlanModel {
                        die,
                        core_requested,
                        core_snapped: core,
                        rows,
                        core_final: uniform_area(core, base, ordered, parity),
                        rows_per_site: uniform_counts(core, ordered, parity),
                        pattern_rows: None,
                    },
                )
            }
        },
    }
}

/// The floorplan, or the first reason why there is none. The first site given is the base: the
/// core is snapped to its grid, and it decides between the uniform and the hybrid construction.
pub open spec fn plan_of(
    die: Area,
    core: Area,
    sites: Seq<SiteModel>,
    parity: RowParity,
    flipped: Seq<Seq<char>>,
    mfg_grid: Option<i32>,
    instances: Seq<InstanceModel>,
) -> Result<PlanModel, PlanErrorModel> {
    let snapped_die = area_on_mfg_grid(die, mfg_grid);
    match early_refusal(snapped_die, core, sites, instances) {
        Some(e) => Err(e),
        None => {
            let base = sites[0];
            let ordered = name_order(sites);
            let snapped = snapped_core(core, base);
            if !base.is_hybrid() {
                uniform_plan(snapped_die, core, snapped, ordered, base, parity, flipped)
            } else if parity != RowParity::Any {
                Err(PlanErrorModel::ParityWithHybridRows)
            } else {
                hybrid_plan(snapped_die, core, snapped, ordered, base)
            }
        },
    }
}

/// The floorplan can be written in database units: whatever is reached on the way fits.
pub open spec fn plan_fits(
    die: Area,
    core: Area,
    sites: Seq<SiteModel>,
    parity: RowParity,
    mfg_grid: Option<i32>,
    instances: Seq<InstanceModel>,
) -> bool {
    let snapped_die = area_on_mfg_grid(die, mfg_grid);
    let base = sites[0];
    let ordered = name_order(sites);
    let snapped = snapped_core(core, base);
    &&& snapped_die.fits()
    &&& early_refusal(snapped_die, core, sites, instances) is None ==> {
        &&& snapped.fits()
        &&& base.is_hybrid() && parity == RowParity::Any ==> hybrid_fits(snapped, ordered, base)
        &&& !base.is_hybrid() && first_uneven(base, ordered) is None ==> {
            &&& fits(trunc_div(snapped.dx(), base.width))
            &&& forall|i: int|
                0 <= i < ordered.len() ==> fits(
                    trunc_div(snapped.dy(), (#[trigger] ordered[i]).height),
                )
        }
    }
}

/// The highest end of the counted stacks, each as high as the first site of its name makes it.
pub open spec fn counted_top(
    core: Area,
    counts: Seq<(Seq<char>, int)>,
    sites: Seq<SiteModel>,
) -> Option<int>
    decreases counts.len(),
{
    if counts.len() == 0 {
        None
    } else {
        let below = counted_top(core, counts.drop_last(), sites);
        match first_named(sites, counts.last().0) {
            None => below,
            Some(s) => {
                let top = core.y_min + counts.last().1 * s.height;
                match below {
                    Some(t) => Some(
                        if top > t {
                            top
                        } else {
                            t
                        },
                    ),
                    None => Some(top),
                }
            },
        }
    }
}

/// The box that counted rows cover: the first row's sites across, the highest stack up.
pub open spec fn counted_area(
    rows: Seq<RowModel>,
    counts: Seq<(Seq<char>, int)>,
    sites: Seq<SiteModel>,
    core: Area,
) -> Area {
    Area {
        x_min: core.x_min,
        y_min: core.y_min,
        x_max: core.x_min + (if rows.len() > 0 {
            rows[0].num_sites * sites[0].width
        } else {
            0
        }),
        y_max: match counted_top(core, counts, sites) {
            Some(t) => t,
            None => core.y_min,
        },
    }
}

fn find_height(sites: &[Site], name: &str) -> (r: Option<i32>)
    ensures
        match r {
            Some(h) => first_named(site_models(sites@), name@) matches Some(s) && s.height == h,
            None => first_named(site_models(sites@), name@) is None,
        },
{
    let ghost models = site_models(sites@);
    let mut i: usize = 0;
    while i < sites.len()
        invariant
            i <= sites@.len(),
            models == site_models(sites@),
            first_named(models.take(i as int), name@) is None,
        decreases sites.len() - i,
    {
        let ghost upto = models.take(i + 1);
        assert(upto.drop_last() =~= models.take(i as int));
        assert(upto.last() == sites@[i as int]@);
        if same_text(sites[i].name.as_str(), name) {
            proof {
                lemma_first_named_stays(models, name@, i + 1);
            }
            return Some(sites[i].height);
        }
        i = i + 1;
    }
    assert(models.take(models.len() as int) =~= models);
    None
}

/// The bounding box the rows cover.
pub fn core_area_of(
    rows: &[Row],
    per_site: &[(String, i32)],
    sites: &[Site],
    snapped: Rect,
) -> (r: Rect)
    requires
        sites@.len() > 0,
        counted_area(
            row_models(rows@),
            site_counts(per_site@),
            site_models(sites@),
            snapped@,
        ).fits(),
    ensures
        r@ == counted_area(
            row_models(rows@),
            site_counts(per_site@),
            site_models(sites@),
            snapped@,
        ),
{
    let ghost counts = site_counts(per_site@);
    let ghost models = site_models(sites@);
    let rows_x: i64 = if rows.len() > 0 {
        rows[0].num_sites as i64
    } else {
        0
    };
    proof {
        if rows@.len() > 0 {
            assert(row_models(rows@)[0] == rows@[0]@);
        }
        assert(models[0] == sites@[0]@);
    }
    let across: i64 = times(rows_x, sites[0].width);
    let mut top: Option<i64> = None;
    let mut i: usize = 0;
    while i < per_site.len()
        invariant
            i <= per_site@.len(),
            counts == site_counts(per_site@),
            models == site_models(sites@),
            counted_top(snapped@, counts.take(i as int), models) == (match top {
                Some(t) => Some(t as int),
                None => None,
            }),
        decreases per_site.len() - i,
    {
        let (name, n): (&String, i32) = (&per_site[i].0, per_site[i].1);
        proof {
            assert(counts.take(i + 1).drop_last() =~= counts.take(i as int));
            assert(counts.take(i + 1).last() == crate::model::site_count(per_site@[i as int]));
        }
        if let Some(h) = find_height(sites, name.as_str()) {
            let t: i64 = snapped.y_min as i64 + times(n as i64, h);
            top = match top {
                Some(u) => Some(
                    if t > u {
                        t
                    } else {
                        u
                    },
                ),
                None => Some(t),
            };
        }
        i = i + 1;
    }
    assert(counts.take(counts.len() as int) =~= counts);
    Rect {
        x_min: snapped.x_min,
        y_min: snapped.y_min,
        x_max: (snapped.x_min as i64 + across) as i32,
        y_max: match top {
            Some(t) => t as i32,
            None => snapped.y_min,
        },
    }
}

fn times(a: i64, b: i32) -> (r: i64)
    requires
        i32::MIN <= a <= i32::MAX,
    ensures
        r == a * b,
        -0x4000_0000_0000_0000 <= r <= 0x4000_0000_0000_0000,
{
    proof {
        let x = a as int;
        let y = b as int;
        assert(-0x4000_0000_0000_0000 <= x * y <= 0x4000_0000_0000_0000) by (nonlinear_arith)
            requires
                -0x8000_0000 <= x <= 0x8000_0000,
                -0x8000_0000 <= y <= 0x8000_0000,
        ;
    }
    a * b as i64
}

proof fn lemma_degenerate_stays(sites: Seq<SiteModel>, k: int)
    requires
        0 <= k <= sites.len(),
        first_degenerate(sites.take(k)) is Some,
    ensures
        first_degenerate(sites) == first_degenerate(sites.take(k)),
    decreases sites.len() - k,
{
    if k < sites.len() {
        assert(sites.take(k + 1).drop_last() =~= sites.take(k));
        lemma_degenerate_stays(sites, k + 1);
    } else {
        assert(sites.take(k) =~= sites);
    }
}

/// The first uneven site stays the first when more are listed.
pub proof fn lemma_uneven_stays(base: SiteModel, ordered: Seq<SiteModel>, k: int)
    requires
        0 <= k <= ordered.len(),
        first_uneven(base, ordered.take(k)) is Some,
    ensures
        first_uneven(base, ordered) == first_uneven(base, ordered.take(k)),
    decreases ordered.len() - k,
{
    if k < ordered.len() {
        assert(ordered.take(k + 1).drop_last() =~= ordered.take(k));
        lemma_uneven_stays(base, ordered, k + 1);
    } else {
        assert(ordered.take(k) =~= ordered);
    }
}

/// Where no first degenerate site is found, there is none.
pub proof fn lemma_none_degenerate(sites: Seq<SiteModel>)
    requires
        first_degenerate(sites) is None,
    ensures
        no_degenerate(sites),
    decreases sites.len(),
{
    if sites.len() > 0 {
        let rest = sites.drop_last();
        lemma_none_degenerate(rest);
        assert forall|i: int| 0 <= i < sites.len() implies !(
        #[trigger] sites[i]).is_degenerate() by {
            if i < rest.len() {
                assert(rest[i] == sites[i]);
            }
        }
    }
}

/// Every one of the sites can be tiled with.
pub open spec fn no_degenerate(sites: Seq<SiteModel>) -> bool {
    forall|i: int| 0 <= i < sites.len() ==> !(#[trigger] sites[i]).is_degenerate()
}

/// Every visited site can be tiled with, once none of the given ones is degenerate.
pub proof fn lemma_ordered_can_tile(sites: Seq<SiteModel>, i: int)
    requires
        no_degenerate(sites),
        0 <= i < name_order(sites).len(),
    ensures
        !name_order(sites)[i].is_degenerate(),
{
    let s = name_order(sites)[i];
    law_name_order_keeps_the_first(sites, i);
    lemma_first_named(sites, s.name);
    let m = choose|m: int|
        0 <= m < sites.len() && #[trigger] sites[m].name == s.name && sites[m] == s;
    assert(!sites[m].is_degenerate());
}

proof fn lemma_counted_top(
    core: Area,
    ordered: Seq<SiteModel>,
    sites: Seq<SiteModel>,
    parity: RowParity,
)
    requires
        ordered.len() > 0,
        forall|i: int|
            0 <= i < ordered.len() ==> first_named(sites, (#[trigger] ordered[i]).name) == Some(
                ordered[i],
            ),
    ensures
        counted_top(core, uniform_counts(core, ordered, parity), sites) == Some(
            stack_top(core, ordered, parity),
        ),
    decreases ordered.len(),
{
    let counts = uniform_counts(core, ordered, parity);
    let rest = ordered.drop_last();
    assert(counts.drop_last() =~= uniform_counts(core, rest, parity));
    assert(counts.last() == (
        ordered.last().name,
        row_count(core, ordered.last().height, parity),
    ));
    assert(ordered[ordered.len() - 1] == ordered.last());
    if ordered.len() > 1 {
        assert forall|i: int| 0 <= i < rest.len() implies first_named(
            sites,
            (#[trigger] rest[i]).name,
        ) == Some(rest[i]) by {
            assert(rest[i] == ordered[i]);
        }
        lemma_counted_top(core, rest, sites, parity);
    } else {
        assert(counted_top(core, counts.drop_last(), sites) is None);
    }
}

proof fn lemma_stack_top(core: Area, ordered: Seq<SiteModel>, parity: RowParity)
    requires
        core.dy() >= 0,
        forall|i: int| 0 <= i < ordered.len() ==> (#[trigger] ordered[i]).height > 0,
    ensures
        core.y_min <= stack_top(core, ordered, parity) <= core.y_max,
    decreases ordered.len(),
{
    if ordered.len() > 0 {
        let rest = ordered.drop_last();
        let h = ordered.last().height;
        let n = row_count(core, h, parity);
        assert forall|i: int| 0 <= i < rest.len() implies (#[trigger] rest[i]).height > 0 by {
            assert(rest[i] == ordered[i]);
        }
        assert(ordered[ordered.len() - 1] == ordered.last());
        lemma_stack_top(core, rest, parity);
        lemma_rows_have_room(core, h, parity);
        assert(0 <= n * h) by (nonlinear_arith)
            requires
                n >= 0,
                h > 0,
        ;
        if n == 0 {
            assert(n * h == 0) by (nonlinear_arith)
                requires
                    n == 0,
            ;
        }
    }
}

fn find_degenerate(sites: &[Site]) -> (r: Option<String>)
    ensures
        first_degenerate(site_models(sites@)) == (match r {
            Some(name) => Some(name@),
            None => None,
        }),
{
    let ghost models = site_models(sites@);
    let mut i: usize = 0;
    while i < sites.len()
        invariant
            i <= sites@.len(),
            models == site_models(sites@),
            first_degenerate(models.take(i as int)) is None,
        decreases sites.len() - i,
    {
        proof {
            assert(models.take(i + 1).drop_last() =~= models.take(i as int));
            assert(models.take(i + 1).last() == sites@[i as int]@);
        }
        if sites[i].width <= 0 || sites[i].height <= 0 {
            proof {
                lemma_degenerate_stays(models, i + 1);
            }
            return Some(sites[i].name.clone());
        }
        i = i + 1;
    }
    assert(models.take(models.len() as int) =~= models);
    None
}

fn find_uneven(base: &Site, ordered: &[&Site]) -> (r: Option<String>)
    requires
        base.height > 0,
        forall|i: int| 0 <= i < ordered@.len() ==> (#[trigger] ordered@[i]).height > 0,
    ensures
        first_uneven(base@, site_ref_models(ordered@)) == (match r {
            Some(name) => Some(name@),
            None => None,
        }),
{
    let ghost models = site_ref_models(ordered@);
    let mut i: usize = 0;
    while i < ordered.len()
        invariant
            i <= ordered@.len(),
            base.height > 0,
            forall|i: int| 0 <= i < ordered@.len() ==> (#[trigger] ordered@[i]).height > 0,
            models == site_ref_models(ordered@),
            first_uneven(base@, models.take(i as int)) is None,
        decreases ordered.len() - i,
    {
        let site: &Site = ordered[i];
        proof {
            assert(models.take(i + 1).drop_last() =~= models.take(i as int));
            assert(models.take(i + 1).last() == site@);
        }
        if site.height % base.height != 0 {
            proof {
                lemma_uneven_stays(base@, models, i + 1);
            }
            return Some(site.name.clone());
        }
        i = i + 1;
    }
    assert(models.take(models.len() as int) =~= models);
    None
}

fn plan_uniform(
    die: Rect,
    core_requested: Rect,
    core: Rect,
    sites: &[Site],
    ordered: &[&Site],
    parity: RowParity,
    flipped: &[String],
) -> (r: Result<Plan, PlanError>)
    requires
        sites@.len() > 0,
        first_degenerate(site_models(sites@)) is None,
        site_ref_models(ordered@) == name_order(site_models(sites@)),
        first_uneven(sites@[0]@, site_ref_models(ordered@)) is None ==> {
            &&& fits(trunc_div(core@.dx(), sites@[0].width as int))
            &&& forall|i: int|
                0 <= i < ordered@.len() ==> fits(
                    trunc_div(core@.dy(), (#[trigger] ordered@[i]).height as int),
                )
        },
    ensures
        outcome(r) == uniform_plan(
            die@,
            core_requested@,
            core@,
            site_ref_models(ordered@),
            sites@[0]@,
            parity,
            texts(flipped@),
        ),
{
    let base: &Site = &sites[0];
    let ghost models = site_models(sites@);
    let ghost by_name = site_ref_models(ordered@);
    proof {
        lemma_none_degenerate(models);
        assert(!models[0].is_degenerate());
        assert(models[0] == base@);
        assert forall|i: int| 0 <= i < ordered@.len() implies (#[trigger] ordered@[i]).height
            > 0 by {
            lemma_ordered_can_tile(models, i);
            assert(by_name[i] == ordered@[i]@);
        }
    }
    match find_uneven(base, ordered) {
        Some(site) => {
            return Err(PlanError::SiteHeightNotMultiple { site, base: base.name.clone() });
        },
        None => {},
    }
    let (rows, rows_per_site): (Vec<Row>, Vec<(String, i32)>) = build_uniform_rows(
        core,
        base,
        ordered,
        parity,
        flipped,
    );
    if rows.len() == 0 {
        return Err(PlanError::NoRows);
    }
    proof {
        assert forall|i: int| 0 <= i < by_name.len() implies (#[trigger] by_name[i]).height > 0
            && first_named(models, by_name[i].name) == Some(by_name[i]) by {
            assert(by_name[i] == ordered@[i]@);
            law_name_order_keeps_the_first(models, i);
        }
        law_name_order_covers(models, 0);
        lemma_counted_top(core@, by_name, models, parity);
        law_every_row_is_one_of_a_stack(core@, base@, by_name, parity, texts(flipped@), 0);
        assert(row_models(rows@)[0].num_sites == trunc_div(core@.dx(), base@.width));
        lemma_stack_top(core@, by_name, parity);
        lemma_whole_steps_stay_within(core@.dx(), base@.width);
    }
    let core_final = core_area_of(rows.as_slice(), rows_per_site.as_slice(), sites, core);
    Ok(
        Plan {
            die,
            core_requested,
            core_snapped: core,
            rows,
            core_final,
            rows_per_site,
            pattern_rows: None,
        },
    )
}

fn can_count(core: Rect, base: &Site, ordered: &[&Site]) -> (ok: bool)
    requires
        base.width > 0,
        forall|i: int| 0 <= i < ordered@.len() ==> (#[trigger] ordered@[i]).height > 0,
    ensures
        ok == (fits(trunc_div(core@.dx(), base.width as int)) && forall|i: int|
            0 <= i < ordered@.len() ==> fits(
                trunc_div(core@.dy(), (#[trigger] site_ref_models(ordered@)[i]).height),
            )),
{
    let ghost models = site_ref_models(ordered@);
    if !in_range(div_toward_zero(core.wide_dx(), base.width as i64)) {
        return false;
    }
    let mut i: usize = 0;
    while i < ordered.len()
        invariant
            i <= ordered@.len(),
            models == site_ref_models(ordered@),
            forall|i: int| 0 <= i < ordered@.len() ==> (#[trigger] ordered@[i]).height > 0,
            forall|k: int|
                0 <= k < i ==> fits(trunc_div(core@.dy(), (#[trigger] models[k]).height)),
        decreases ordered.len() - i,
    {
        assert(models[i as int] == ordered@[i as int]@);
        if !in_range(div_toward_zero(core.wide_dy(), ordered[i].height as i64)) {
            assert(!fits(trunc_div(core@.dy(), models[i as int].height)));
            return false;
        }
        i = i + 1;
    }
    true
}

/// Can the floorplan be written in database units?
pub fn can_plan(
    die: Rect,
    core: Rect,
    sites: &[Site],
    parity: RowParity,
    mfg_grid: Option<i32>,
    instances: &[Instance],
) -> (ok: bool)
    ensures
        ok == plan_fits(
            die@,
            core@,
            site_models(sites@),
            parity,
            mfg_grid,
            instance_models(instances@),
        ),
{
    let ghost models = site_models(sites@);
    if !can_snap(die, mfg_grid) {
        return false;
    }
    let die: Rect = snap_rect_to_mfg_grid(die, mfg_grid);
    if die.is_empty() || !die.contains(&core) || check_instance_dimensions(
        instances,
        core,
    ).is_err() || sites.len() == 0 || find_degenerate(sites).is_some() {
        return true;
    }
    let ordered: Vec<&Site> = sites_by_name(sites);
    let base: &Site = &sites[0];
    let ghost by_name = site_ref_models(ordered@);
    proof {
        lemma_none_degenerate(models);
        assert(!models[0].is_degenerate());
        assert(models[0] == base@);
        assert forall|i: int| 0 <= i < ordered@.len() implies (#[trigger] ordered@[i]).height > 0
            && ordered@[i]@ == by_name[i] by {
            lemma_ordered_can_tile(models, i);
            assert(by_name[i] == ordered@[i]@);
        }
    }
    if !can_snap_core(core, base) {
        return false;
    }
    let snapped: Rect = snap_core_lower_left(core, base);
    if base.is_hybrid() {
        parity != RowParity::Any || can_plan_hybrid(snapped, ordered.as_slice(), base)
    } else {
        find_uneven(base, ordered.as_slice()).is_some() || can_count(
            snapped,
            base,
            ordered.as_slice(),
        )
    }
}

/// Build the floorplan.
///
/// `sites` is the base site followed by any additional ones; rows are generated for each in name
/// order, and row names number globally rather than restarting per site. `flipped` names sites
/// whose row-orientation phase is shifted.
///
/// `instances` are checked against the core after the die tests and before any snapping. The
/// order is load-bearing: a design with both an empty die and an oversized macro reports the die,
/// which is the error a caller can act on. Pass `&[]` to plan geometry alone.
pub fn plan(
    die: Rect,
    core: Rect,
    sites: &[Site],
    parity: RowParity,
    flipped: &[String],
    mfg_grid: Option<i32>,
    instances: &[Instance],
) -> (r: Result<Plan, PlanError>)
    requires
        plan_fits(
            die@,
            core@,
            site_models(sites@),
            parity,
            mfg_grid,
            instance_models(instances@),
        ),
    ensures
        outcome(r) == plan_of(
            die@,
            core@,
            site_models(sites@),
            parity,
            texts(flipped@),
            mfg_grid,
            instance_models(instances@),
        ),
{
    let ghost models = site_models(sites@);
    let die: Rect = snap_rect_to_mfg_grid(die, mfg_grid);
    if die.is_empty() {
        return Err(PlanError::EmptyDieArea);
    }
    if !die.contains(&core) {
        return Err(PlanError::CoreNotInDie);
    }
    match check_instance_dimensions(instances, core) {
        Ok(()) => {},
        Err(e) => {
            return Err(e);
        },
    }
    if sites.len() == 0 {
        return Err(PlanError::NoRows);
    }
    match find_degenerate(sites) {
        Some(name) => {
            return Err(PlanError::DegenerateSite(name));
        },
        None => {},
    }
    let ordered: Vec<&Site> = sites_by_name(sites);
    let base: &Site = &sites[0];
    let ghost by_name = site_ref_models(ordered@);
    proof {
        lemma_none_degenerate(models);
        assert(!models[0].is_degenerate());
        assert(models[0] == base@);
        assert forall|i: int| 0 <= i < ordered@.len() implies (#[trigger] ordered@[i]).height > 0
            && ordered@[i]@ == by_name[i] by {
            lemma_ordered_can_tile(models, i);
            assert(by_name[i] == ordered@[i]@);
        }
    }
    let snapped: Rect = snap_core_lower_left(core, base);
    if base.is_hybrid() {
        if parity != RowParity::Any {
            return Err(PlanError::ParityWithHybridRows);
        }
        return plan_hybrid(die, core, snapped, ordered.as_slice(), base);
    }
    plan_uniform(die, core, snapped, sites, ordered.as_slice(), parity, flipped)
}

/// A plan is made of what was asked for: the die on its grid, the core as given and snapped to the
/// base site, which lies in the die and holds every master. It has at least one row, and it says
/// whether it was built from a pattern.
pub proof fn law_a_plan_keeps_what_was_asked(
    die: Area,
    core: Area,
    sites: Seq<SiteModel>,
    parity: RowParity,
    flipped: Seq<Seq<char>>,
    mfg_grid: Option<i32>,
    instances: Seq<InstanceModel>,
)
    ensures
        plan_of(die, core, sites, parity, flipped, mfg_grid, instances) matches Ok(p) ==> {
            &&& p.die == area_on_mfg_grid(die, mfg_grid)
            &&& !p.die.is_empty()
            &&& p.die.contains(core)
            &&& p.core_requested == core
            &&& first_misfit(instances, core) is None
            &&& sites.len() > 0
            &&& p.core_snapped == snapped_core(core, sites[0])
            &&& p.rows.len() > 0
            &&& p.pattern_rows is Some <==> sites[0].is_hybrid()
            &&& sites[0].is_hybrid() ==> parity == RowParity::Any
        },
{
}

/// The die is tested before anything else, and an oversized master before anything is snapped: a
/// design with several problems reports the first of them.
pub proof fn law_the_die_error_wins(
    die: Area,
    core: Area,
    sites: Seq<SiteModel>,
    parity: RowParity,
    flipped: Seq<Seq<char>>,
    mfg_grid: Option<i32>,
    instances: Seq<InstanceModel>,
)
    ensures
        ({
            let d = area_on_mfg_grid(die, mfg_grid);
            let r = plan_of(die, core, sites, parity, flipped, mfg_grid, instances);
            &&& d.is_empty() <==> r == Err::<PlanModel, _>(PlanErrorModel::EmptyDieArea)
            &&& !d.is_empty() && !d.contains(core) <==> r == Err::<PlanModel, _>(
                PlanErrorModel::CoreNotInDie,
            )
            &&& !d.is_empty() && d.contains(core) && first_misfit(instances, core) is Some ==> r
                == Err::<PlanModel, _>(first_misfit(instances, core).unwrap())
        }),
{
    lemma_first_misfit_kind(instances, core);
    if sites.len() > 0 {
        lemma_first_incompatible_kind(sites[0], name_order(sites));
    }
}

/// The fit check gives one refusal only.
pub proof fn lemma_first_misfit_kind(instances: Seq<InstanceModel>, core: Area)
    ensures
        first_misfit(instances, core) matches Some(e) ==> e is InstanceDoesNotFit,
    decreases instances.len(),
{
    if instances.len() > 0 {
        lemma_first_misfit_kind(instances.drop_last(), core);
    }
}

/// Pattern matching gives one refusal only.
pub proof fn lemma_first_incompatible_kind(base: SiteModel, ordered: Seq<SiteModel>)
    ensures
        first_incompatible(base, ordered) matches Some(e) ==> e is IncompatibleSite,
    decreases ordered.len(),
{
    if ordered.len() > 0 {
        lemma_first_incompatible_kind(base, ordered.drop_last());
    }
}

/// Row names number globally: the `r`-th row of a plan is called by `r`, so no two rows share a
/// name, whatever sites they belong to.
pub proof fn law_row_names_are_distinct(
    die: Area,
    core: Area,
    sites: Seq<SiteModel>,
    parity: RowParity,
    flipped: Seq<Seq<char>>,
    mfg_grid: Option<i32>,
    instances: Seq<InstanceModel>,
    q: int,
    r: int,
)
    ensures
        plan_of(die, core, sites, parity, flipped, mfg_grid, instances) matches Ok(p) ==> {
            &&& 0 <= r < p.rows.len() ==> p.rows[r].name == row_name(r as nat)
            &&& 0 <= q < p.rows.len() && 0 <= r < p.rows.len() && p.rows[q].name
                == p.rows[r].name ==> q == r
        },
{
    match plan_of(die, core, sites, parity, flipped, mfg_grid, instances) {
        Ok(p) => {
            let base = sites[0];
            let ordered = name_order(sites);
            let c = snapped_core(core, base);
            lemma_none_degenerate(sites);
            assert forall|i: int| 0 <= i < ordered.len() implies (#[trigger] ordered[i]).height
                > 0 by {
                lemma_ordered_can_tile(sites, i);
            }
            assert forall|i: int| 0 <= i < p.rows.len() implies #[trigger] p.rows[i].name
                == row_name(i as nat) by {
                if base.is_hybrid() {
                    law_hybrid_rows_number_throughout(c, base.row_pattern, ordered, i);
                } else {
                    law_every_row_is_one_of_a_stack(c, base, ordered, parity, flipped, i);
                }
            }
            if 0 <= q < p.rows.len() && 0 <= r < p.rows.len() && p.rows[q].name
                == p.rows[r].name {
                lemma_row_name_injective(q as nat, r as nat);
            }
        },
        Err(_) => {},
    }
}

/// The core area of a uniform floorplan becomes exactly what its rows cover: every row starts and
/// ends at its sides, none passes its top or bottom, and some row reaches each of them. It lies
/// inside the snapped core wherever that one is not inverted.
pub proof fn law_the_core_becomes_what_uniform_rows_cover(
    core: Area,
    base: SiteModel,
    ordered: Seq<SiteModel>,
    parity: RowParity,
    flipped: Seq<Seq<char>>,
    r: int,
)
    requires
        base.width > 0,
        forall|i: int| 0 <= i < ordered.len() ==> (#[trigger] ordered[i]).height > 0,
        0 <= r < uniform_rows(core, base, ordered, parity, flipped).len(),
    ensures
        ({
            let rows = uniform_rows(core, base, ordered, parity, flipped);
            let row = rows[r];
            let area = uniform_area(core, base, ordered, parity);
            &&& row.x == area.x_min
            &&& row.x + row.num_sites * row.spacing == area.x_max
            &&& area.y_min <= row.y
            &&& exists|i: int|
                0 <= i < ordered.len() && (#[trigger] ordered[i]).name == row.site && row.y
                    + ordered[i].height <= area.y_max
            &&& exists|q: int| 0 <= q < rows.len() && (#[trigger] rows[q]).y == area.y_min
            &&& exists|q: int, i: int|
                0 <= q < rows.len() && 0 <= i < ordered.len() && (#[trigger] rows[q]).site == (
                #[trigger] ordered[i]).name && rows[q].y + ordered[i].height == area.y_max
            &&& core.dx() >= 0 ==> core.contains(area)
        }),
{
    let rows = uniform_rows(core, base, ordered, parity, flipped);
    law_every_row_is_one_of_a_stack(core, base, ordered, parity, flipped, r);
    let (i, k): (int, int) = choose|i: int, k: int|
        0 <= i < ordered.len() && #[trigger] is_kth_row(
            rows[r],
            core,
            ordered[i],
            parity,
            flipped.contains(ordered[i].name),
            k,
        );
    let h = ordered[i].height;
    let n = row_count(core, h, parity);
    assert(k * h + h <= n * h) by (nonlinear_arith)
        requires
            k < n,
            h > 0,
    ;
    lemma_stack_top_bounds(core, ordered, parity, i);
    lemma_whole_steps_stay_within(core.dx(), base.width);
    lemma_stack_top(core, ordered, parity);
    assert(ordered[i].name == rows[r].site && rows[r].y + ordered[i].height <= stack_top(
        core,
        ordered,
        parity,
    ));
    let q = lemma_stack_in_rows(core, base, ordered, parity, flipped, i, 0);
    assert(0 * h == 0);
    assert(rows[q].y == core.y_min);
    let m = lemma_stack_top_attained(core, ordered, parity);
    let g = ordered[m].height;
    let c = row_count(core, g, parity);
    lemma_stack_top_bounds(core, ordered, parity, i);
    assert(n * h > 0) by (nonlinear_arith)
        requires
            n > 0,
            h > 0,
    ;
    assert(c > 0) by (nonlinear_arith)
        requires
            c * g > 0,
            g > 0,
    ;
    let t = lemma_stack_in_rows(core, base, ordered, parity, flipped, m, c - 1);
    assert((c - 1) * g + g == c * g) by (nonlinear_arith);
    assert(rows[t].site == ordered[m].name && rows[t].y + ordered[m].height == stack_top(
        core,
        ordered,
        parity,
    ));
}

proof fn lemma_stack_top_bounds(
    core: Area,
    ordered: Seq<SiteModel>,
    parity: RowParity,
    i: int,
)
    requires
        0 <= i < ordered.len(),
    ensures
        core.y_min + row_count(core, ordered[i].height, parity) * ordered[i].height <= stack_top(
            core,
            ordered,
            parity,
        ),
    decreases ordered.len(),
{
    if i < ordered.len() - 1 {
        lemma_stack_top_bounds(core, ordered.drop_last(), parity, i);
    }
}

proof fn lemma_stack_top_attained(
    core: Area,
    ordered: Seq<SiteModel>,
    parity: RowParity,
) -> (i: int)
    requires
        ordered.len() > 0,
    ensures
        0 <= i < ordered.len(),
        core.y_min + row_count(core, ordered[i].height, parity) * ordered[i].height == stack_top(
            core,
            ordered,
            parity,
        ),
    decreases ordered.len(),
{
    let top = core.y_min + row_count(core, ordered.last().height, parity) * ordered.last().height;
    if stack_top(core, ordered, parity) == top {
        ordered.len() - 1
    } else {
        lemma_stack_top_attained(core, ordered.drop_last(), parity)
    }
}

proof fn lemma_stack_in_rows(
    core: Area,
    base: SiteModel,
    ordered: Seq<SiteModel>,
    parity: RowParity,
    flipped: Seq<Seq<char>>,
    i: int,
    k: int,
) -> (r: int)
    requires
        0 <= i < ordered.len(),
        0 <= k < row_count(core, ordered[i].height, parity),
    ensures
        0 <= r < uniform_rows(core, base, ordered, parity, flipped).len(),
        uniform_rows(core, base, ordered, parity, flipped)[r].site == ordered[i].name,
        uniform_rows(core, base, ordered, parity, flipped)[r].y == core.y_min + k
            * ordered[i].height,
    decreases ordered.len(),
{
    let before = uniform_rows(core, base, ordered.drop_last(), parity, flipped);
    if i == ordered.len() - 1 {
        before.len() + k
    } else {
        lemma_stack_in_rows(core, base, ordered.drop_last(), parity, flipped, i, k)
    }
}

/// The order in which the sites after the base were given does not matter, nor does a site given
/// again under its name: only the base and the sites in name order count.
pub proof fn law_the_order_given_does_not_matter(
    die: Area,
    core: Area,
    a: Seq<SiteModel>,
    b: Seq<SiteModel>,
    parity: RowParity,
    flipped: Seq<Seq<char>>,
    mfg_grid: Option<i32>,
    instances: Seq<InstanceModel>,
)
    requires
        a.len() > 0,
        b.len() > 0,
        a[0] == b[0],
        no_degenerate(a),
        no_degenerate(b),
        forall|name: Seq<char>| #[trigger] first_named(a, name) == first_named(b, name),
    ensures
        plan_of(die, core, a, parity, flipped, mfg_grid, instances) == plan_of(
            die,
            core,
            b,
            parity,
            flipped,
            mfg_grid,
            instances,
        ),
{
    lemma_no_degenerate(a);
    lemma_no_degenerate(b);
    law_name_order_depends_on_names_alone(a, b);
}

proof fn lemma_no_degenerate(sites: Seq<SiteModel>)
    requires
        no_degenerate(sites),
    ensures
        first_degenerate(sites) is None,
    decreases sites.len(),
{
    if sites.len() > 0 {
        let rest = sites.drop_last();
        assert forall|i: int| 0 <= i < rest.len() implies !(#[trigger] rest[i]).is_degenerate() by {
            assert(rest[i] == sites[i]);
        }
        assert(sites[sites.len() - 1] == sites.last());
        lemma_no_degenerate(rest);
    }
}

/// Row parity is refused on a hybrid floorplan, whatever else is asked for, once the die, the core,
/// the masters and the sites themselves are sound.
pub proof fn law_row_parity_is_refused_on_hybrid_rows(
    die: Area,
    core: Area,
    sites: Seq<SiteModel>,
    parity: RowParity,
    flipped: Seq<Seq<char>>,
    mfg_grid: Option<i32>,
    instances: Seq<InstanceModel>,
)
    requires
        early_refusal(area_on_mfg_grid(die, mfg_grid), core, sites, instances) is None,
        sites[0].is_hybrid(),
        parity != RowParity::Any,
    ensures
        plan_of(die, core, sites, parity, flipped, mfg_grid, instances) == Err::<PlanModel, _>(
            PlanErrorModel::ParityWithHybridRows,
        ),
{
}

/// A uniform floorplan is made exactly where every height is a multiple of the base site's and
/// some site has room for a row.
pub proof fn law_a_uniform_plan_is_owed(
    die: Area,
    core_requested: Area,
    core: Area,
    ordered: Seq<SiteModel>,
    base: SiteModel,
    parity: RowParity,
    flipped: Seq<Seq<char>>,
)
    ensures
        uniform_plan(die, core_requested, core, ordered, base, parity, flipped) is Ok <==> {
            &&& forall|i: int|
                0 <= i < ordered.len() ==> (#[trigger] ordered[i]).height % base.height == 0
            &&& exists|i: int|
                0 <= i < ordered.len() && row_count(
                    core,
                    (#[trigger] ordered[i]).height,
                    parity,
                ) > 0
        },
{
    lemma_uneven_somewhere(base, ordered);
    lemma_rows_somewhere(core, base, ordered, parity, flipped);
}

/// No first uneven site is found exactly where every height is a multiple of the base site's.
pub proof fn lemma_uneven_somewhere(base: SiteModel, ordered: Seq<SiteModel>)
    ensures
        first_uneven(base, ordered) is None <==> forall|i: int|
            0 <= i < ordered.len() ==> (#[trigger] ordered[i]).height % base.height == 0,
    decreases ordered.len(),
{
    if ordered.len() > 0 {
        let rest = ordered.drop_last();
        lemma_uneven_somewhere(base, rest);
        assert(ordered[ordered.len() - 1] == ordered.last());
        assert forall|i: int| 0 <= i < rest.len() implies #[trigger] rest[i] == ordered[i] by {}
        if first_uneven(base, ordered) is None {
            assert forall|i: int| 0 <= i < ordered.len() implies (#[trigger] ordered[i]).height
                % base.height == 0 by {
                if i < rest.len() {
                    assert(rest[i] == ordered[i]);
                }
            }
        }
    }
}

/// There are rows where some site has room for one.
pub proof fn lemma_rows_somewhere(
    core: Area,
    base: SiteModel,
    ordered: Seq<SiteModel>,
    parity: RowParity,
    flipped: Seq<Seq<char>>,
)
    ensures
        uniform_rows(core, base, ordered, parity, flipped).len() > 0 <==> exists|i: int|
            0 <= i < ordered.len() && row_count(core, (#[trigger] ordered[i]).height, parity) > 0,
    decreases ordered.len(),
{
    if ordered.len() > 0 {
        let rest = ordered.drop_last();
        let n = ordered.len() - 1;
        lemma_rows_somewhere(core, base, rest, parity, flipped);
        assert(ordered[n] == ordered.last());
        if exists|i: int|
            0 <= i < rest.len() && row_count(core, (#[trigger] rest[i]).height, parity) > 0 {
            let i = choose|i: int|
                0 <= i < rest.len() && row_count(core, (#[trigger] rest[i]).height, parity) > 0;
            assert(row_count(core, ordered[i].height, parity) > 0);
        }
        if exists|i: int|
            0 <= i < ordered.len() && row_count(core, (#[trigger] ordered[i]).height, parity)
                > 0 {
            let i = choose|i: int|
                0 <= i < ordered.len() && row_count(core, (#[trigger] ordered[i]).height, parity)
                    > 0;
            if i < rest.len() {
                assert(rest[i] == ordered[i]);
            }
        }
    }
}

/// What a core holds of one height, a lower core that holds as much holds as well, and no more.
proof fn lemma_same_count(core: Area, covered: Area, height: int, parity: RowParity)
    requires
        height > 0,
        row_count(core, height, parity) >= 0,
        row_count(core, height, parity) * height <= covered.dy() <= core.dy(),
        0 <= covered.dy(),
    ensures
        row_count(covered, height, parity) == row_count(core, height, parity),
{
    let n = core.dy() / height;
    let m = covered.dy() / height;
    let c = row_count(core, height, parity);
    lemma_fundamental_div_mod(core.dy(), height);
    lemma_fundamental_div_mod(covered.dy(), height);
    assert(m <= n) by (nonlinear_arith)
        requires
            core.dy() == height * n + core.dy() % height,
            covered.dy() == height * m + covered.dy() % height,
            core.dy() % height < height,
            0 <= covered.dy() % height,
            covered.dy() <= core.dy(),
            height > 0,
    ;
    assert(c <= m) by (nonlinear_arith)
        requires
            c * height <= covered.dy(),
            covered.dy() == height * m + covered.dy() % height,
            covered.dy() % height < height,
            height > 0,
    ;
    assert(n >= 0) by (nonlinear_arith)
        requires
            core.dy() == height * n + core.dy() % height,
            core.dy() % height < height,
            core.dy() >= 0,
            height > 0,
    ;
}

proof fn lemma_same_rows(
    core: Area,
    covered: Area,
    base: SiteModel,
    ordered: Seq<SiteModel>,
    parity: RowParity,
    flipped: Seq<Seq<char>>,
)
    requires
        covered.x_min == core.x_min,
        covered.y_min == core.y_min,
        trunc_div(covered.dx(), base.width) == trunc_div(core.dx(), base.width),
        forall|i: int|
            0 <= i < ordered.len() ==> row_count(covered, (#[trigger] ordered[i]).height, parity)
                == row_count(core, ordered[i].height, parity),
    ensures
        uniform_rows(covered, base, ordered, parity, flipped) == uniform_rows(
            core,
            base,
            ordered,
            parity,
            flipped,
        ),
        uniform_counts(covered, ordered, parity) == uniform_counts(core, ordered, parity),
        stack_top(covered, ordered, parity) == stack_top(core, ordered, parity),
    decreases ordered.len(),
{
    assert(uniform_counts(covered, ordered, parity) =~= uniform_counts(core, ordered, parity));
    if ordered.len() > 0 {
        let rest = ordered.drop_last();
        let site = ordered.last();
        assert forall|i: int| 0 <= i < rest.len() implies row_count(
            covered,
            (#[trigger] rest[i]).height,
            parity,
        ) == row_count(core, rest[i].height, parity) by {
            assert(rest[i] == ordered[i]);
        }
        assert(ordered[ordered.len() - 1] == site);
        lemma_same_rows(core, covered, base, rest, parity, flipped);
        let first = uniform_rows(core, base, rest, parity, flipped).len();
        let flip = flipped.contains(site.name);
        assert(site_rows(covered, base, site, parity, flip, first) =~= site_rows(
            core,
            base,
            site,
            parity,
            flip,
            first,
        ));
    }
}

/// The covered core of a uniform floorplan holds the same rows again: nothing that the first
/// floorplan left would give another row, and nothing that it took is missing. Planning in it
/// changes nothing, wherever the core as snapped is not inverted.
pub proof fn law_planning_again_changes_nothing(
    die: Area,
    core: Area,
    sites: Seq<SiteModel>,
    parity: RowParity,
    flipped: Seq<Seq<char>>,
    mfg_grid: Option<i32>,
    instances: Seq<InstanceModel>,
)
    ensures
        plan_of(die, core, sites, parity, flipped, mfg_grid, instances) matches Ok(p) ==> (
        p.pattern_rows is None && p.core_snapped.dx() >= 0 ==> plan_of(
            die,
            p.core_final,
            sites,
            parity,
            flipped,
            mfg_grid,
            Seq::empty(),
        ) == Ok::<_, PlanErrorModel>(
            (PlanModel { core_requested: p.core_final, core_snapped: p.core_final, ..p }),
        )),
{
    match plan_of(die, core, sites, parity, flipped, mfg_grid, instances) {
        Ok(p) => if p.pattern_rows is None && p.core_snapped.dx() >= 0 {
            let base = sites[0];
            let ordered = name_order(sites);
            let c = p.core_snapped;
            let covered = p.core_final;
            lemma_none_degenerate(sites);
            assert(!sites[0].is_degenerate());
            assert forall|i: int| 0 <= i < ordered.len() implies (#[trigger] ordered[i]).height
                > 0 by {
                lemma_ordered_can_tile(sites, i);
            }
            law_the_core_becomes_what_uniform_rows_cover(c, base, ordered, parity, flipped, 0);
            law_the_core_snap_rounds_up(core, base);
            law_every_row_is_one_of_a_stack(c, base, ordered, parity, flipped, 0);
            assert forall|i: int| 0 <= i < ordered.len() implies row_count(
                covered,
                (#[trigger] ordered[i]).height,
                parity,
            ) == row_count(c, ordered[i].height, parity) by {
                lemma_rows_have_room(c, ordered[i].height, parity);
                lemma_stack_top_bounds(c, ordered, parity, i);
                lemma_same_count(c, covered, ordered[i].height, parity);
            }
            let q = c.dx() / base.width;
            lemma_fundamental_div_mod(c.dx(), base.width);
            assert(q >= 0) by (nonlinear_arith)
                requires
                    c.dx() == base.width * q + c.dx() % base.width,
                    c.dx() % base.width < base.width,
                    c.dx() >= 0,
                    base.width > 0,
            ;
            assert(q * base.width >= 0) by (nonlinear_arith)
                requires
                    q >= 0,
                    base.width > 0,
            ;
            lemma_fundamental_div_mod_converse(q * base.width, base.width, q, 0);
            lemma_same_rows(c, covered, base, ordered, parity, flipped);
            law_the_core_snap_rounds_up(covered, base);
        },
        Err(_) => {},
    }
}

/// What is counted in a uniform plan: every name that is given, once, in the order of names, with
/// as many rows as the first site of that name has room for.
pub proof fn law_a_uniform_plan_counts_every_name(
    die: Area,
    core: Area,
    sites: Seq<SiteModel>,
    parity: RowParity,
    flipped: Seq<Seq<char>>,
    mfg_grid: Option<i32>,
    instances: Seq<InstanceModel>,
    i: int,
    j: int,
    m: int,
)
    ensures
        plan_of(die, core, sites, parity, flipped, mfg_grid, instances) matches Ok(p) ==> (
        sites[0].row_pattern.len() == 0 ==> {
            let counts = p.rows_per_site;
            let c = p.core_snapped;
            &&& c.y_min < c.y_max
            &&& 0 <= i < j < counts.len() ==> text_before(counts[i].0, counts[j].0)
            &&& 0 <= m < sites.len() ==> exists|n: int|
                0 <= n < counts.len() && (#[trigger] counts[n]).0 == sites[m].name
            &&& 0 <= i < counts.len() && 0 <= m < sites.len() && sites[m].name == counts[i].0 && (
            forall|n: int| 0 <= n < m ==> (#[trigger] sites[n]).name != sites[m].name) ==> is_most(
                counts[i].1,
                sites[m].height,
                c.y_max - c.y_min,
                parity,
            )
            &&& 0 <= i < counts.len() ==> exists|n: int|
                0 <= n < sites.len() && (#[trigger] sites[n]).name == counts[i].0
            &&& p.rows.len() == total(counts)
            &&& p.pattern_rows is None
        }),
{
    match plan_of(die, core, sites, parity, flipped, mfg_grid, instances) {
        Ok(p) => if sites[0].row_pattern.len() == 0 {
            let base = sites[0];
            let ordered = name_order(sites);
            let c = p.core_snapped;
            lemma_none_degenerate(sites);
            assert forall|n: int| 0 <= n < ordered.len() implies (#[trigger] ordered[n]).height
                > 0 by {
                lemma_ordered_can_tile(sites, n);
            }
            lemma_uniform_room(c, base, ordered, parity, flipped);
            law_name_order_is_strict(sites);
            if 0 <= m < sites.len() {
                law_name_order_covers(sites, m);
                let n = choose|n: int|
                    0 <= n < ordered.len() && (#[trigger] ordered[n]).name == sites[m].name;
                assert(p.rows_per_site[n].0 == sites[m].name);
            }
            if 0 <= i < ordered.len() {
                law_name_order_keeps_the_first(sites, i);
                lemma_first_named(sites, ordered[i].name);
                law_as_many_rows_as_have_room(c, ordered[i].height, parity, 0);
                let s = choose|s: int|
                    0 <= s < sites.len() && #[trigger] sites[s].name == ordered[i].name && sites[s]
                        == ordered[i];
                assert(sites[s].name == p.rows_per_site[i].0);
                if 0 <= m < sites.len() && sites[m].name == ordered[i].name && (forall|n: int|
                    0 <= n < m ==> (#[trigger] sites[n]).name != sites[m].name) {
                    law_a_name_stands_for_the_first_that_bears_it(sites, sites[m].name, m);
                }
            }
            assert forall|n: int| 0 <= n < ordered.len() implies row_count(
                c,
                (#[trigger] ordered[n]).height,
                parity,
            ) >= 0 by {
                lemma_rows_have_room(c, ordered[n].height, parity);
            }
            law_the_counts_add_up(c, base, ordered, parity, flipped);
        },
        Err(_) => {},
    }
}

proof fn lemma_uniform_room(
    core: Area,
    base: SiteModel,
    ordered: Seq<SiteModel>,
    parity: RowParity,
    flipped: Seq<Seq<char>>,
)
    requires
        uniform_rows(core, base, ordered, parity, flipped).len() > 0,
        forall|i: int| 0 <= i < ordered.len() ==> (#[trigger] ordered[i]).height > 0,
    ensures
        core.y_min < core.y_max,
{
    lemma_rows_somewhere(core, base, ordered, parity, flipped);
    let i = choose|i: int|
        0 <= i < ordered.len() && row_count(core, (#[trigger] ordered[i]).height, parity) > 0;
    lemma_rows_have_room(core, ordered[i].height, parity);
}

/// Every row of a uniform plan: the rows of a name stand behind those of the names before it, from
/// the core's floor upward, as high as the first site of that name, alternately upright and upside
/// down. They start at the core's left edge and hold as many of the base site's columns as fit.
pub proof fn law_the_rows_of_a_uniform_plan_in_full(
    die: Area,
    core: Area,
    sites: Seq<SiteModel>,
    parity: RowParity,
    flipped: Seq<Seq<char>>,
    mfg_grid: Option<i32>,
    instances: Seq<InstanceModel>,
    i: int,
    m: int,
    k: int,
)
    ensures
        plan_of(die, core, sites, parity, flipped, mfg_grid, instances) matches Ok(p) ==> (
        sites[0].row_pattern.len() == 0 && 0 <= i < p.rows_per_site.len() && 0 <= k
            < p.rows_per_site[i].1 && 0 <= m < sites.len() && sites[m].name == p.rows_per_site[i].0
            && (forall|n: int| 0 <= n < m ==> (#[trigger] sites[n]).name != sites[m].name) ==> {
            let c = p.core_snapped;
            let r = total(p.rows_per_site.take(i)) + k;
            &&& 0 <= r < p.rows.len()
            &&& p.rows[r].name == "ROW_"@ + decimal(r as nat)
            &&& p.rows[r].site == sites[m].name
            &&& p.rows[r].x == c.x_min
            &&& p.rows[r].y == c.y_min + k * sites[m].height
            &&& p.rows[r].spacing == sites[0].width
            &&& are_whole_steps(p.rows[r].num_sites, sites[0].width, c.x_max - c.x_min)
            &&& p.rows[r].orient == if (k % 2 == 0) == flipped.contains(sites[m].name) {
                "MX"@
            } else {
                "R0"@
            }
        }),
{
    match plan_of(die, core, sites, parity, flipped, mfg_grid, instances) {
        Ok(p) => if sites[0].row_pattern.len() == 0 && 0 <= i < p.rows_per_site.len() && 0 <= k
            < p.rows_per_site[i].1 && 0 <= m < sites.len() && sites[m].name == p.rows_per_site[i].0
            && (forall|n: int| 0 <= n < m ==> (#[trigger] sites[n]).name != sites[m].name) {
            let base = sites[0];
            let ordered = name_order(sites);
            let c = p.core_snapped;
            lemma_none_degenerate(sites);
            assert(!sites[0].is_degenerate());
            assert forall|n: int| 0 <= n < ordered.len() implies (#[trigger] ordered[n]).height
                > 0 by {
                lemma_ordered_can_tile(sites, n);
            }
            lemma_uniform_room(c, base, ordered, parity, flipped);
            law_name_order_keeps_the_first(sites, i);
            law_a_name_stands_for_the_first_that_bears_it(sites, sites[m].name, m);
            law_the_rows_of_a_site_in_full(c, base, ordered, parity, flipped, i, k);
            let r = total(p.rows_per_site.take(i)) + k;
            law_every_row_is_one_of_a_stack(c, base, ordered, parity, flipped, r);
            lemma_whole_steps(c.dx(), base.width);
        },
        Err(_) => {},
    }
}

/// The core of a uniform plan ends where its rows end: behind the last whole column of the base
/// site, and at the top of the tallest stack of rows.
pub proof fn law_a_uniform_core_ends_with_its_rows(
    die: Area,
    core: Area,
    sites: Seq<SiteModel>,
    parity: RowParity,
    flipped: Seq<Seq<char>>,
    mfg_grid: Option<i32>,
    instances: Seq<InstanceModel>,
    i: int,
    m: int,
)
    ensures
        plan_of(die, core, sites, parity, flipped, mfg_grid, instances) matches Ok(p) ==> (
        sites[0].row_pattern.len() == 0 ==> {
            let c = p.core_snapped;
            let w = sites[0].width;
            &&& p.core_final.x_min == c.x_min
            &&& p.core_final.y_min == c.y_min
            &&& p.core_final.x_max == p.rows[0].x + p.rows[0].num_sites * w
            &&& 0 <= i < p.rows_per_site.len() && 0 <= m < sites.len() && sites[m].name
                == p.rows_per_site[i].0 && (forall|n: int|
                0 <= n < m ==> (#[trigger] sites[n]).name != sites[m].name) ==> c.y_min
                + p.rows_per_site[i].1 * sites[m].height <= p.core_final.y_max
            &&& exists|t: int, s: int|
                0 <= t < p.rows_per_site.len() && 0 <= s < sites.len() && (
                #[trigger] p.rows_per_site[t]).0 == (#[trigger] sites[s]).name && c.y_min
                    + p.rows_per_site[t].1 * sites[s].height == p.core_final.y_max
        }),
{
    match plan_of(die, core, sites, parity, flipped, mfg_grid, instances) {
        Ok(p) => if sites[0].row_pattern.len() == 0 {
            let base = sites[0];
            let ordered = name_order(sites);
            let c = p.core_snapped;
            lemma_none_degenerate(sites);
            assert(!sites[0].is_degenerate());
            assert forall|n: int| 0 <= n < ordered.len() implies (#[trigger] ordered[n]).height
                > 0 by {
                lemma_ordered_can_tile(sites, n);
            }
            law_the_core_becomes_what_uniform_rows_cover(c, base, ordered, parity, flipped, 0);
            law_every_row_is_one_of_a_stack(c, base, ordered, parity, flipped, 0);
            law_name_order_covers(sites, 0);
            let t = lemma_stack_top_attained(c, ordered, parity);
            law_name_order_keeps_the_first(sites, t);
            lemma_first_named(sites, ordered[t].name);
            let s = choose|s: int|
                0 <= s < sites.len() && #[trigger] sites[s].name == ordered[t].name && sites[s]
                    == ordered[t];
            assert(p.rows_per_site[t].0 == sites[s].name && c.y_min + p.rows_per_site[t].1
                * sites[s].height == p.core_final.y_max);
            if 0 <= i < ordered.len() && 0 <= m < sites.len() && sites[m].name == ordered[i].name
                && (forall|n: int| 0 <= n < m ==> (#[trigger] sites[n]).name != sites[m].name) {
                law_name_order_keeps_the_first(sites, i);
                law_a_name_stands_for_the_first_that_bears_it(sites, sites[m].name, m);
                lemma_stack_top_bounds(c, ordered, parity, i);
            }
        },
        Err(_) => {},
    }
}

/// Why there is no plan, once the die, the core and the masters are sound: no site; the first site
/// that has no extent; the first name whose height is no multiple of the base site's; or no room
/// for a row of any name.
pub proof fn law_why_there_is_no_uniform_plan(
    die: Area,
    core: Area,
    sites: Seq<SiteModel>,
    parity: RowParity,
    flipped: Seq<Seq<char>>,
    mfg_grid: Option<i32>,
    instances: Seq<InstanceModel>,
    k: int,
)
    requires
        !area_on_mfg_grid(die, mfg_grid).is_empty(),
        area_on_mfg_grid(die, mfg_grid).contains(core),
        first_misfit(instances, core) is None,
    ensures
        ({
            let r = plan_of(die, core, sites, parity, flipped, mfg_grid, instances);
            let ordered = name_order(sites);
            let sound = sites.len() > 0 && forall|n: int|
                0 <= n < sites.len() ==> (#[trigger] sites[n]).width > 0 && sites[n].height > 0;
            let room = core.y_max - snapped_core(core, sites[0]).y_min;
            &&& sites.len() == 0 ==> r == Err::<PlanModel, _>(PlanErrorModel::NoRows)
            &&& 0 <= k < sites.len() && (sites[k].width <= 0 || sites[k].height <= 0) && (forall|
                n: int,
            |
                0 <= n < k ==> (#[trigger] sites[n]).width > 0 && sites[n].height > 0) ==> r
                == Err::<PlanModel, _>(PlanErrorModel::DegenerateSite(sites[k].name))
            &&& sound && sites[0].row_pattern.len() == 0 && 0 <= k < ordered.len()
                && ordered[k].height % sites[0].height != 0 && (forall|n: int|
                0 <= n < k ==> (#[trigger] ordered[n]).height % sites[0].height == 0) ==> r
                == Err::<PlanModel, _>(
                PlanErrorModel::SiteHeightNotMultiple {
                    site: ordered[k].name,
                    base: sites[0].name,
                },
            )
            &&& sound && sites[0].row_pattern.len() == 0 && (forall|n: int|
                0 <= n < ordered.len() ==> (#[trigger] ordered[n]).height % sites[0].height == 0)
                ==> (r is Ok <==> exists|n: int|
                0 <= n < ordered.len() && (#[trigger] ordered[n]).height <= room && (parity
                    == RowParity::Even ==> 2 * ordered[n].height <= room))
            &&& sound && sites[0].row_pattern.len() == 0 && (forall|n: int|
                0 <= n < ordered.len() ==> (#[trigger] ordered[n]).height % sites[0].height == 0)
                && r is Err ==> r == Err::<PlanModel, _>(PlanErrorModel::NoRows)
        }),
{
    let ordered = name_order(sites);
    if 0 <= k < sites.len() && (sites[k].width <= 0 || sites[k].height <= 0) && (forall|n: int|
        0 <= n < k ==> (#[trigger] sites[n]).width > 0 && sites[n].height > 0) {
        let sound = sites.take(k);
        assert(no_degenerate(sound));
        lemma_no_degenerate(sound);
        assert(sites.take(k + 1).drop_last() =~= sound);
        assert(sites.take(k + 1).last() == sites[k]);
        lemma_degenerate_stays(sites, k + 1);
    }
    if sites.len() > 0 && forall|n: int|
        0 <= n < sites.len() ==> (#[trigger] sites[n]).width > 0 && sites[n].height > 0 {
        let base = sites[0];
        assert(no_degenerate(sites));
        lemma_no_degenerate(sites);
        let c = snapped_core(core, base);
        assert(base.width > 0 && base.height > 0);
        law_the_core_snap_rounds_up(core, base);
        if 0 <= k < ordered.len() && ordered[k].height % base.height != 0 && (forall|n: int|
            0 <= n < k ==> (#[trigger] ordered[n]).height % base.height == 0) {
            lemma_uneven_somewhere(base, ordered.take(k));
            assert(ordered.take(k + 1).drop_last() =~= ordered.take(k));
            assert(ordered.take(k + 1).last() == ordered[k]);
            lemma_uneven_stays(base, ordered, k + 1);
        }
        lemma_uneven_somewhere(base, ordered);
        lemma_rows_somewhere(c, base, ordered, parity, flipped);
        assert forall|n: int| 0 <= n < ordered.len() implies (row_count(
            c,
            (#[trigger] ordered[n]).height,
            parity,
        ) > 0 <==> ordered[n].height <= c.dy() && (parity == RowParity::Even ==> 2
            * ordered[n].height <= c.dy())) by {
            lemma_ordered_can_tile(sites, n);
            lemma_one_row(c, ordered[n].height, parity);
        }
    }
}

proof fn lemma_one_row(core: Area, height: int, parity: RowParity)
    requires
        height > 0,
    ensures
        row_count(core, height, parity) > 0 <==> height <= core.dy() && (parity == RowParity::Even
            ==> 2 * height <= core.dy()),
{
    lemma_rows_have_room(core, height, parity);
    law_as_many_rows_as_have_room(core, height, parity, 0);
    let n = row_count(core, height, parity);
    if n > 0 {
        assert(n * height >= height) by (nonlinear_arith)
            requires
                n > 0,
                height > 0,
        ;
        if n > 1 {
            assert(n * height >= 2 * height) by (nonlinear_arith)
                requires
                    n > 1,
                    height > 0,
            ;
        }
    } else if core.dy() >= height {
        assert(n >= 0);
        assert(is_most(n, height, core.dy(), parity));
        if parity == RowParity::Even {
            assert(allows(parity, 2));
            assert(core.dy() < 2 * height);
        } else {
            assert(allows(parity, 1));
            assert(core.dy() < 1 * height);
        }
    }
}

proof fn lemma_counted_top_bounds(
    core: Area,
    counts: Seq<(Seq<char>, int)>,
    sites: Seq<SiteModel>,
    i: int,
)
    requires
        0 <= i < counts.len(),
    ensures
        first_named(sites, counts[i].0) matches Some(s) ==> (counted_top(core, counts, sites)
            matches Some(t) && core.y_min + counts[i].1 * s.height <= t),
    decreases counts.len(),
{
    if i < counts.len() - 1 {
        lemma_counted_top_bounds(core, counts.drop_last(), sites, i);
    }
}

proof fn lemma_counted_top_attained(
    core: Area,
    counts: Seq<(Seq<char>, int)>,
    sites: Seq<SiteModel>,
) -> (i: int)
    ensures
        counted_top(core, counts, sites) matches Some(t) ==> 0 <= i < counts.len() && (first_named(
            sites,
            counts[i].0,
        ) matches Some(s) && core.y_min + counts[i].1 * s.height == t),
    decreases counts.len(),
{
    if counts.len() == 0 {
        0
    } else {
        let j = lemma_counted_top_attained(core, counts.drop_last(), sites);
        if counted_top(core, counts, sites) == counted_top(core, counts.drop_last(), sites)
            && counted_top(core, counts, sites) is Some {
            j
        } else {
            counts.len() - 1
        }
    }
}

/// The box of counted rows stands on the core's lower left. It is as wide as the first row's
/// columns of the first site and as high as the highest stack whose name is known; without a row it
/// has no width, and without a known name no height.
pub proof fn law_the_box_of_counted_rows(
    rows: Seq<RowModel>,
    counts: Seq<(Seq<char>, int)>,
    sites: Seq<SiteModel>,
    core: Area,
    i: int,
)
    ensures
        ({
            let area = counted_area(rows, counts, sites, core);
            &&& area.x_min == core.x_min
            &&& area.y_min == core.y_min
            &&& rows.len() > 0 ==> area.x_max == core.x_min + rows[0].num_sites * sites[0].width
            &&& rows.len() == 0 ==> area.x_max == core.x_min
            &&& 0 <= i < counts.len() ==> (first_named(sites, counts[i].0) matches Some(s)
                ==> core.y_min + counts[i].1 * s.height <= area.y_max)
            &&& (exists|n: int|
                0 <= n < counts.len() && (first_named(sites, (#[trigger] counts[n]).0) matches Some(
                    s,
                ) && core.y_min + counts[n].1 * s.height == area.y_max)) || (area.y_max
                == core.y_min && forall|n: int|
                0 <= n < counts.len() ==> first_named(sites, (#[trigger] counts[n]).0) is None)
        }),
{
    if 0 <= i < counts.len() {
        lemma_counted_top_bounds(core, counts, sites, i);
    }
    let j = lemma_counted_top_attained(core, counts, sites);
    if counted_top(core, counts, sites) is None {
        assert forall|n: int| 0 <= n < counts.len() implies first_named(
            sites,
            (#[trigger] counts[n]).0,
        ) is None by {
            lemma_counted_top_bounds(core, counts, sites, n);
        }
    } else {
        assert(first_named(sites, counts[j].0) is Some);
    }
}

/// A base site with a pattern makes a hybrid plan: in the die on its grid and in the core as it
/// snaps to the base site, with the sites in the order of their names.
pub proof fn law_a_pattern_makes_a_hybrid_plan(
    die: Area,
    core: Area,
    sites: Seq<SiteModel>,
    flipped: Seq<Seq<char>>,
    mfg_grid: Option<i32>,
    instances: Seq<InstanceModel>,
)
    requires
        !area_on_mfg_grid(die, mfg_grid).is_empty(),
        area_on_mfg_grid(die, mfg_grid).contains(core),
        first_misfit(instances, core) is None,
        sites.len() > 0,
        forall|n: int|
            0 <= n < sites.len() ==> (#[trigger] sites[n]).width > 0 && sites[n].height > 0,
        sites[0].row_pattern.len() > 0,
    ensures
        plan_of(die, core, sites, RowParity::Any, flipped, mfg_grid, instances) == hybrid_plan(
            area_on_mfg_grid(die, mfg_grid),
            core,
            snapped_core(core, sites[0]),
            name_order(sites),
            sites[0],
        ),
{
    assert(no_degenerate(sites));
    lemma_no_degenerate(sites);
}

/// A uniform plan can be made as soon as the die on its grid and the core on the site grid are in
/// the 32-bit range, and so are the columns of a row and the rows of each name. One that is refused
/// for the die, the core, a master or a site asks for the die alone.
pub proof fn law_a_plan_in_range_can_be_made(
    die: Area,
    core: Area,
    sites: Seq<SiteModel>,
    parity: RowParity,
    mfg_grid: Option<i32>,
    instances: Seq<InstanceModel>,
)
    requires
        area_on_mfg_grid(die, mfg_grid).fits(),
    ensures
        ({
            let d = area_on_mfg_grid(die, mfg_grid);
            let c = snapped_core(core, sites[0]);
            let room: int = 0x7fff_ffff;
            &&& d.is_empty() || !d.contains(core) || first_misfit(instances, core) is Some
                || sites.len() == 0 || (exists|i: int|
                0 <= i < sites.len() && ((#[trigger] sites[i]).width <= 0 || sites[i].height <= 0))
                ==> plan_fits(die, core, sites, parity, mfg_grid, instances)
            &&& sites.len() > 0 && sites[0].row_pattern.len() > 0 && parity != RowParity::Any
                && c.fits() ==> plan_fits(die, core, sites, parity, mfg_grid, instances)
            &&& sites.len() > 0 && sites[0].row_pattern.len() == 0 && c.fits() && -room <= c.x_max
                - c.x_min <= room && -room <= c.y_max - c.y_min <= room ==> plan_fits(
                die,
                core,
                sites,
                parity,
                mfg_grid,
                instances,
            )
        }),
{
    let c = snapped_core(core, sites[0]);
    let ordered = name_order(sites);
    let d = area_on_mfg_grid(die, mfg_grid);
    if exists|i: int|
        0 <= i < sites.len() && ((#[trigger] sites[i]).width <= 0 || sites[i].height <= 0) {
        if first_degenerate(sites) is None {
            lemma_none_degenerate(sites);
            let i = choose|i: int|
                0 <= i < sites.len() && ((#[trigger] sites[i]).width <= 0 || sites[i].height <= 0);
            assert(!sites[i].is_degenerate());
        }
    }
    let room: int = 0x7fff_ffff;
    if early_refusal(d, core, sites, instances) is None && -room <= c.dx() <= room && -room
        <= c.dy() <= room {
        lemma_none_degenerate(sites);
        assert(!sites[0].is_degenerate());
        lemma_quotient_in_range(c.dx(), sites[0].width);
        assert forall|i: int| 0 <= i < ordered.len() implies fits(
            trunc_div(c.dy(), (#[trigger] ordered[i]).height),
        ) by {
            lemma_ordered_can_tile(sites, i);
            lemma_quotient_in_range(c.dy(), ordered[i].height);
        }
    }
}

proof fn lemma_quotient_in_range(length: int, step: int)
    requires
        step > 0,
        -0x7fff_ffff <= length <= 0x7fff_ffff,
    ensures
        fits(trunc_div(length, step)),
{
    let n = trunc_div(length, step);
    lemma_whole_steps(length, step);
    if length >= 0 {
        assert(n <= length) by (nonlinear_arith)
            requires
                n >= 0,
                n * step <= length,
                step >= 1,
        ;
    } else {
        assert(n >= length) by (nonlinear_arith)
            requires
                n <= 0,
                length <= n * step,
                step >= 1,
        ;
    }
}

} // verus!
