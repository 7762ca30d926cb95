//! What is said when a floorplan is refused.

use crate::geometry::{area_on_mfg_grid, Area, Rect};
use crate::hybrid::{
    hybrid_rows, hybrid_site_rows, member_rows, stack_count, tile_count, with_pattern,
};
use crate::model::{
    site_models, site_ref_models, texts, InstanceModel, OrientedSiteModel, PlanError,
    PlanErrorModel, PlanModel, RowParity, Site, SiteModel,
};
use crate::notices::{
    about, can_read, no_rows_for, no_rows_text, notice_models, pair_in_microns, pair_text, plain,
    push_notice, reads_as, say, say_about, snap_text, snapped_in_microns, Notice, NoticeModel,
    Severity,
};
use crate::order::{name_order, sites_by_name};
use crate::pattern::offset_in;
use crate::plan::{
    law_a_uniform_plan_is_owed, lemma_first_incompatible_kind, lemma_first_misfit_kind,
    lemma_rows_somewhere, plan_of,
};
use crate::rows::{row_count, snap_core_lower_left, snapped_core};
use crate::text::joined;
use vstd::prelude::*;

verus! {

/// The content of a [`Shortfall`].
#[verifier::ext_equal]
pub struct ShortfallModel {
    pub core_requested: Area,
    pub core_snapped: Area,
    pub empty_sites: Seq<Seq<char>>,
}

/// What came before the verdict that no row was created: the core as asked for and as snapped,
/// and the sites that were tried in vain.
#[derive(Debug)]
pub struct Shortfall {
    pub core_requested: Rect,
    pub core_snapped: Rect,
    pub empty_sites: Vec<String>,
}

impl View for Shortfall {
    type V = ShortfallModel;

    open spec fn view(&self) -> ShortfallModel {
        ShortfallModel {
            core_requested: self.core_requested@,
            core_snapped: self.core_snapped@,
            empty_sites: texts(self.empty_sites@),
        }
    }
}

/// The sites that rows are made for of their own, in turn: all of them, or in a hybrid floorplan
/// the hybrid ones.
pub open spec fn row_sites(ordered: Seq<SiteModel>, hybrid: bool) -> Seq<Seq<char>>
    decreases ordered.len(),
{
    if ordered.len() == 0 {
        Seq::empty()
    } else {
        let before = row_sites(ordered.drop_last(), hybrid);
        if !hybrid || ordered.last().is_hybrid() {
            before.push(ordered.last().name)
        } else {
            before
        }
    }
}

/// What came before the verdict that no row was created. Nothing did where there is no site.
pub open spec fn shortfall_of(core: Area, sites: Seq<SiteModel>) -> Option<ShortfallModel> {
    if sites.len() == 0 {
        None
    } else {
        Some(
            ShortfallModel {
                core_requested: core,
                core_snapped: snapped_core(core, sites[0]),
                empty_sites: row_sites(name_order(sites), sites[0].is_hybrid()),
            },
        )
    }
}

/// What came before the verdict that no row was created.
pub fn shortfall(core: Rect, sites: &[Site]) -> (r: Option<Shortfall>)
    requires
        sites@.len() > 0 && core.x_min >= 0 && core.y_min >= 0 ==> {
            &&& !sites@[0]@.is_degenerate()
            &&& snapped_core(core@, sites@[0]@).fits()
        },
    ensures
        shortfall_of(core@, site_models(sites@)) == (match r {
            Some(s) => Some(s@),
            None => None,
        }),
{
    if sites.len() == 0 {
        return None;
    }
    let ghost models = site_models(sites@);
    assert(models[0] == sites@[0]@);
    let hybrid: bool = sites[0].is_hybrid();
    let ordered: Vec<&Site> = sites_by_name(sites);
    let ghost by_name = site_ref_models(ordered@);
    let mut names: Vec<String> = Vec::new();
    let mut i: usize = 0;
    assert(texts(names@) =~= row_sites(by_name.take(0), hybrid));
    while i < ordered.len()
        invariant
            i <= ordered@.len(),
            by_name == site_ref_models(ordered@),
            texts(names@) == row_sites(by_name.take(i as int), hybrid),
        decreases ordered.len() - i,
    {
        let site: &Site = ordered[i];
        proof {
            assert(by_name.take(i + 1).drop_last() =~= by_name.take(i as int));
            assert(by_name.take(i + 1).last() == site@);
        }
        if !hybrid || site.is_hybrid() {
            let ghost made = names@;
            names.push(site.name.clone());
            assert(texts(names@) =~= texts(made).push(site@.name));
        }
        i = i + 1;
    }
    assert(by_name.take(by_name.len() as int) =~= by_name);
    let core_snapped: Rect = snap_core_lower_left(core, &sites[0]);
    Some(Shortfall { core_requested: core, core_snapped, empty_sites: names })
}

/// Which sort of refusal this is, for queries.
pub open spec fn refusal_code(e: PlanErrorModel) -> Seq<char> {
    match e {
        PlanErrorModel::NoRows => "IFP-NO-ROWS"@,
        PlanErrorModel::CoreNotInDie => "IFP-CORE-OUTSIDE-DIE"@,
        PlanErrorModel::EmptyDieArea => "IFP-EMPTY-DIE"@,
        PlanErrorModel::InstanceDoesNotFit { .. } => "IFP-INST-TOO-BIG"@,
        PlanErrorModel::ParityWithHybridRows => "IFP-PARITY-HYBRID"@,
        PlanErrorModel::IncompatibleSite { .. } => "IFP-SITE-INCOMPATIBLE"@,
        PlanErrorModel::DegenerateSite(_) => "IFP-BAD-SITE"@,
        PlanErrorModel::SiteHeightNotMultiple { .. } => "IFP-BAD-SITE"@,
    }
}

/// The refusal in words. A master that does not fit is measured in microns.
pub open spec fn refusal_text(e: PlanErrorModel, um: spec_fn(int) -> Seq<char>) -> Seq<char> {
    match e {
        PlanErrorModel::NoRows => "IFP-0065 No rows created in the core area."@,
        PlanErrorModel::ParityWithHybridRows => {
            "IFP-0051 Constraining row parity is not supported for hybrid rows."@
        },
        PlanErrorModel::IncompatibleSite { site, base } => {
            "IFP-0048 Site "@ + site + " is incompatible with site "@ + base
        },
        PlanErrorModel::InstanceDoesNotFit { name, width, height, core } => {
            "IFP-0002 "@ + name + " ("@ + pair_text(um, width, "um, "@, height)
                + "um) does not fit in the core area: ("@ + pair_text(
                um,
                core.x_min,
                "um, "@,
                core.y_min,
            ) + "um) - ("@ + pair_text(um, core.x_max, "um, "@, core.y_max) + "um)"@
        },
        _ => e.message(),
    }
}

/// What is said of a shortfall: that the core's lower left moved, and each site that was tried in
/// vain.
pub open spec fn shortfall_story(
    s: ShortfallModel,
    um: spec_fn(int) -> Seq<char>,
) -> Seq<NoticeModel> {
    let moved = s.core_snapped.x_min != s.core_requested.x_min || s.core_snapped.y_min
        != s.core_requested.y_min;
    let snapped = if moved {
        seq![
            plain(
                Severity::Warn,
                "IFP-CORE-SNAPPED"@,
                snap_text("IFP-0028 Core area"@, um, s.core_requested, s.core_snapped),
            ),
        ]
    } else {
        Seq::empty()
    };
    snapped + empty_site_notices(s.empty_sites)
}

/// Each site that was tried in vain.
pub open spec fn empty_site_notices(sites: Seq<Seq<char>>) -> Seq<NoticeModel> {
    Seq::new(
        sites.len(),
        |i: int|
            about(
                Severity::Warn,
                "IFP-NO-ROWS-FOR-SITE"@,
                no_rows_text(sites[i]),
                "site:"@ + sites[i],
            ),
    )
}

/// What is said of a refusal: the shortfall where no row was created, and the verdict.
pub open spec fn refusal_story(
    e: PlanErrorModel,
    s: Option<ShortfallModel>,
    um: spec_fn(int) -> Seq<char>,
) -> Seq<NoticeModel> {
    let before = match s {
        Some(s) => if e == PlanErrorModel::NoRows {
            shortfall_story(s, um)
        } else {
            Seq::empty()
        },
        None => Seq::empty(),
    };
    before.push(plain(Severity::Error, refusal_code(e), refusal_text(e, um)))
}

fn code_of(e: &PlanError) -> (r: &'static str)
    ensures
        r@ == refusal_code(e@),
{
    match e {
        PlanError::NoRows => "IFP-NO-ROWS",
        PlanError::CoreNotInDie => "IFP-CORE-OUTSIDE-DIE",
        PlanError::EmptyDieArea => "IFP-EMPTY-DIE",
        PlanError::InstanceDoesNotFit { name: _, width: _, height: _, core: _ } => {
            "IFP-INST-TOO-BIG"
        },
        PlanError::ParityWithHybridRows => "IFP-PARITY-HYBRID",
        PlanError::IncompatibleSite { site: _, base: _ } => "IFP-SITE-INCOMPATIBLE",
        PlanError::DegenerateSite(_) => "IFP-BAD-SITE",
        PlanError::SiteHeightNotMultiple { site: _, base: _ } => "IFP-BAD-SITE",
    }
}

fn words_for<M: Fn(i32) -> String>(e: &PlanError, um: &M) -> (r: String)
    requires
        can_read(*um),
    ensures
        forall|f: spec_fn(int) -> Seq<char>| #[trigger]
            reads_as(*um, f) ==> r@ == refusal_text(e@, f),
{
    match e {
        PlanError::NoRows => String::from("IFP-0065 No rows created in the core area."),
        PlanError::ParityWithHybridRows => String::from(
            "IFP-0051 Constraining row parity is not supported for hybrid rows.",
        ),
        PlanError::IncompatibleSite { site, base } => {
            let mut out: String = joined("IFP-0048 Site ", site.as_str());
            out.append(" is incompatible with site ");
            out.append(base.as_str());
            out
        },
        PlanError::InstanceDoesNotFit { name, width, height, core } => {
            let mut out: String = joined("IFP-0002 ", name.as_str());
            out.append(" (");
            out.append(pair_in_microns(um, *width, "um, ", *height).as_str());
            out.append("um) does not fit in the core area: (");
            out.append(pair_in_microns(um, core.x_min, "um, ", core.y_min).as_str());
            out.append("um) - (");
            out.append(pair_in_microns(um, core.x_max, "um, ", core.y_max).as_str());
            out.append("um)");
            out
        },
        _ => e.message(),
    }
}

/// What is said of a refusal, in order.
///
/// By the time no row turns out to have been created, the core's snap and every site without rows
/// have been said already; only then comes the verdict.
pub fn refusal_notices<M: Fn(i32) -> String>(
    e: &PlanError,
    shortfall: &Option<Shortfall>,
    um: &M,
) -> (r: Vec<Notice>)
    requires
        can_read(*um),
    ensures
        forall|f: spec_fn(int) -> Seq<char>| #[trigger]
            reads_as(*um, f) ==> notice_models(r@) == refusal_story(
                e@,
                match *shortfall {
                    Some(s) => Some(s@),
                    None => None,
                },
                f,
            ),
{
    let mut out: Vec<Notice> = Vec::new();
    let no_rows: bool = match e {
        PlanError::NoRows => true,
        _ => false,
    };
    assert(notice_models(out@) =~= Seq::<NoticeModel>::empty());
    if let Some(s) = shortfall {
        if no_rows {
            if s.core_snapped.x_min != s.core_requested.x_min || s.core_snapped.y_min
                != s.core_requested.y_min {
                push_notice(
                    &mut out,
                    say(
                        Severity::Warn,
                        "IFP-CORE-SNAPPED",
                        snapped_in_microns(
                            "IFP-0028 Core area",
                            um,
                            s.core_requested,
                            s.core_snapped,
                        ),
                    ),
                );
            }
            let ghost head = notice_models(out@);
            let ghost names = texts(s.empty_sites@);
            let ghost lines = empty_site_notices(names);
            let mut i: usize = 0;
            while i < s.empty_sites.len()
                invariant
                    i <= s.empty_sites@.len(),
                    names == texts(s.empty_sites@),
                    lines == empty_site_notices(names),
                    notice_models(out@) =~= head + lines.take(i as int),
                decreases s.empty_sites.len() - i,
            {
                let site: &str = s.empty_sites[i].as_str();
                let line: Notice = say_about(
                    Severity::Warn,
                    "IFP-NO-ROWS-FOR-SITE",
                    no_rows_for(site),
                    "site:",
                    site,
                );
                proof {
                    assert(names[i as int] == s.empty_sites@[i as int]@);
                    assert(line@ == lines[i as int]);
                    assert(lines.take(i + 1) =~= lines.take(i as int).push(line@));
                }
                push_notice(&mut out, line);
                i = i + 1;
            }
            assert(lines.take(lines.len() as int) =~= lines);
            assert forall|f: spec_fn(int) -> Seq<char>| #[trigger] reads_as(*um, f) implies
                notice_models(out@) == shortfall_story(s@, f) by {
                assert(notice_models(out@) =~= shortfall_story(s@, f));
            }
        }
    }
    push_notice(&mut out, say(Severity::Error, code_of(e), words_for(e, um)));
    out
}

/// Where a plan has no rows, every site that it would have made rows for is one that was tried in
/// vain: none of them has room for a row.
pub proof fn law_no_rows_means_every_site_was_tried_in_vain(
    die: Area,
    core: Area,
    sites: Seq<SiteModel>,
    parity: RowParity,
    flipped: Seq<Seq<char>>,
    mfg_grid: Option<i32>,
    instances: Seq<InstanceModel>,
    i: int,
)
    requires
        sites.len() > 0,
        plan_of(die, core, sites, parity, flipped, mfg_grid, instances) == Err::<PlanModel, _>(
            PlanErrorModel::NoRows,
        ),
        0 <= i < name_order(sites).len(),
    ensures
        ({
            let s = name_order(sites)[i];
            let snapped = snapped_core(core, sites[0]);
            let tried = shortfall_of(core, sites).unwrap().empty_sites;
            &&& !sites[0].is_hybrid() ==> tried.contains(s.name) && row_count(
                snapped,
                s.height,
                parity,
            ) <= 0
            &&& sites[0].is_hybrid() ==> tile_count(sites[0].row_pattern, snapped.dy()) == 0 && (
            s.is_hybrid() ==> tried.contains(s.name) && stack_count(
                snapped.dy() - offset_in(sites[0].row_pattern, s.row_pattern).unwrap().0,
                s.height,
            ) <= 0)
        }),
{
    let ordered = name_order(sites);
    let base = sites[0];
    let snapped = snapped_core(core, base);
    if !base.is_hybrid() || ordered[i].is_hybrid() {
        lemma_row_sites(ordered, base.is_hybrid(), i);
    }
    lemma_first_misfit_kind(instances, core);
    if base.is_hybrid() {
        lemma_first_incompatible_kind(base, ordered);
        lemma_no_hybrid_rows(snapped, base.row_pattern, ordered, i);
    } else {
        law_a_uniform_plan_is_owed(
            area_on_mfg_grid(die, mfg_grid),
            core,
            snapped,
            ordered,
            base,
            parity,
            flipped,
        );
        if row_count(snapped, ordered[i].height, parity) > 0 {
            lemma_rows_somewhere(snapped, base, ordered, parity, flipped);
        }
    }
}

proof fn lemma_row_sites(ordered: Seq<SiteModel>, hybrid: bool, i: int)
    requires
        0 <= i < ordered.len(),
        !hybrid || ordered[i].is_hybrid(),
    ensures
        row_sites(ordered, hybrid).contains(ordered[i].name),
    decreases ordered.len(),
{
    let before = row_sites(ordered.drop_last(), hybrid);
    let all = row_sites(ordered, hybrid);
    if i == ordered.len() - 1 {
        assert(all[before.len() as int] == ordered[i].name);
    } else {
        lemma_row_sites(ordered.drop_last(), hybrid, i);
        let k = choose|k: int| 0 <= k < before.len() && before[k] == ordered[i].name;
        assert(all[k] == ordered[i].name);
    }
}

proof fn lemma_no_hybrid_rows(
    core: Area,
    pattern: Seq<OrientedSiteModel>,
    ordered: Seq<SiteModel>,
    i: int,
)
    requires
        hybrid_rows(core, pattern, ordered).len() == 0,
        0 <= i < ordered.len(),
    ensures
        tile_count(pattern, core.dy()) == 0,
        ordered[i].is_hybrid() ==> stack_count(
            core.dy() - offset_in(pattern, ordered[i].row_pattern).unwrap().0,
            ordered[i].height,
        ) <= 0,
    decreases ordered.len(),
{
    let rest = ordered.drop_last();
    assert(hybrid_rows(core, pattern, rest).len() == 0);
    lemma_no_member_rows(core, pattern, ordered);
    if i < rest.len() {
        lemma_no_hybrid_rows(core, pattern, rest, i);
    } else if ordered[i].is_hybrid() {
        assert(hybrid_site_rows(core, pattern, ordered.last(), 0).len() == 0);
    }
}

proof fn lemma_no_member_rows(
    core: Area,
    pattern: Seq<OrientedSiteModel>,
    ordered: Seq<SiteModel>,
)
    requires
        hybrid_rows(core, pattern, ordered).len() == 0,
    ensures
        tile_count(pattern, core.dy()) == 0,
    decreases ordered.len(),
{
    if ordered.len() > 0 {
        lemma_no_member_rows(core, pattern, ordered.drop_last());
    } else {
        assert(member_rows(core, pattern).len() == tile_count(pattern, core.dy()));
    }
}

/// The sites that get rows of their own, one for each name in turn.
pub proof fn law_the_sites_tried_are_those_of_the_plan(ordered: Seq<SiteModel>)
    ensures
        row_sites(ordered, false) == ordered.map_values(|s: SiteModel| s.name),
        row_sites(ordered, true) == with_pattern(ordered).map_values(|s: SiteModel| s.name),
    decreases ordered.len(),
{
    if ordered.len() == 0 {
        assert(ordered.map_values(|s: SiteModel| s.name) =~= Seq::<Seq<char>>::empty());
        assert(with_pattern(ordered).map_values(|s: SiteModel| s.name) =~= Seq::<
            Seq<char>,
        >::empty());
    } else {
        let rest = ordered.drop_last();
        law_the_sites_tried_are_those_of_the_plan(rest);
        assert(ordered.map_values(|s: SiteModel| s.name) =~= rest.map_values(
            |s: SiteModel| s.name,
        ).push(ordered.last().name));
        if ordered.last().is_hybrid() {
            assert(with_pattern(ordered).map_values(|s: SiteModel| s.name) =~= with_pattern(
                rest,
            ).map_values(|s: SiteModel| s.name).push(ordered.last().name));
        }
    }
}

/// What came before a verdict is the core as asked for, the core as it snaps to the base site, and
/// the sites in the order of their names: those with a pattern where the base has one.
pub proof fn law_a_shortfall_is_of_the_core_and_the_sites(core: Area, sites: Seq<SiteModel>)
    ensures
        shortfall_of(core, sites) is None <==> sites.len() == 0,
        shortfall_of(core, sites) matches Some(s) ==> {
            &&& s.core_requested == core
            &&& s.core_snapped == snapped_core(core, sites[0])
            &&& sites[0].row_pattern.len() == 0 ==> s.empty_sites == name_order(sites).map_values(
                |t: SiteModel| t.name,
            )
            &&& sites[0].row_pattern.len() > 0 ==> s.empty_sites == with_pattern(
                name_order(sites),
            ).map_values(|t: SiteModel| t.name)
        },
{
    law_the_sites_tried_are_those_of_the_plan(name_order(sites));
}

/// What is said of a refusal, line by line. The refusal itself is the only error, and comes last.
/// Only where no row was created anything comes before it: that the core's lower left moved, where
/// it did, and a line for each site tried in vain.
pub proof fn law_what_is_said_of_a_refusal(
    e: PlanErrorModel,
    s: Option<ShortfallModel>,
    um: spec_fn(int) -> Seq<char>,
    i: int,
)
    ensures
        ({
            let story = refusal_story(e, s, um);
            let refused = story.last();
            &&& story.len() > 0
            &&& refused.severity == Severity::Error
            &&& refused.objects.len() == 0
            &&& e != PlanErrorModel::NoRows || s is None ==> story.len() == 1
            &&& e == PlanErrorModel::NoRows ==> (s matches Some(t) ==> {
                let from = t.core_requested;
                let to = t.core_snapped;
                let a: int = if from.x_min != to.x_min || from.y_min != to.y_min {
                    1
                } else {
                    0
                };
                &&& story.len() == a + t.empty_sites.len() + 1
                &&& a == 1 ==> {
                    &&& story[0].severity == Severity::Warn
                    &&& story[0].code == "IFP-CORE-SNAPPED"@
                    &&& story[0].text == "IFP-0028 Core area"@ + " lower left ("@ + (um(from.x_min)
                        + ", "@ + um(from.y_min)) + ") snapped to ("@ + (um(to.x_min) + ", "@ + um(
                        to.y_min,
                    )) + ")."@
                    &&& story[0].objects.len() == 0
                }
                &&& 0 <= i < t.empty_sites.len() ==> {
                    let line = story[a + i];
                    &&& line.severity == Severity::Warn
                    &&& line.code == "IFP-NO-ROWS-FOR-SITE"@
                    &&& line.text == "IFP-0061 No rows created for site "@ + t.empty_sites[i]
                        + "."@
                    &&& line.objects == seq!["site:"@ + t.empty_sites[i]]
                }
            })
            &&& e is NoRows ==> refused.code == "IFP-NO-ROWS"@ && refused.text
                == "IFP-0065 No rows created in the core area."@
            &&& e is CoreNotInDie ==> refused.code == "IFP-CORE-OUTSIDE-DIE"@
            &&& e is EmptyDieArea ==> refused.code == "IFP-EMPTY-DIE"@
            &&& e is DegenerateSite || e is SiteHeightNotMultiple ==> refused.code
                == "IFP-BAD-SITE"@
            &&& e is CoreNotInDie || e is EmptyDieArea || e is DegenerateSite || e
                is SiteHeightNotMultiple ==> refused.text == e.message()
            &&& e is ParityWithHybridRows ==> refused.code == "IFP-PARITY-HYBRID"@ && refused.text
                == "IFP-0051 Constraining row parity is not supported for hybrid rows."@
            &&& e matches PlanErrorModel::IncompatibleSite { site, base } ==> refused.code
                == "IFP-SITE-INCOMPATIBLE"@ && refused.text == "IFP-0048 Site "@ + site
                + " is incompatible with site "@ + base
            &&& e matches PlanErrorModel::InstanceDoesNotFit { name, width, height, core }
                ==> refused.code == "IFP-INST-TOO-BIG"@ && refused.text == "IFP-0002 "@ + name
                + " ("@ + (um(width) + "um, "@ + um(height))
                + "um) does not fit in the core area: ("@ + (um(core.x_min) + "um, "@ + um(
                core.y_min,
            )) + "um) - ("@ + (um(core.x_max) + "um, "@ + um(core.y_max)) + "um)"@
        }),
{
}

/// A shortfall is known by what it stores.
pub proof fn law_a_shortfall_is_what_it_stores(s: Shortfall, i: int)
    ensures
        s@.core_requested == s.core_requested@ && s@.core_snapped == s.core_snapped@,
        s@.empty_sites.len() == s.empty_sites@.len(),
        0 <= i < s.empty_sites@.len() ==> s@.empty_sites[i] == s.empty_sites@[i]@,
{
}

} // verus!
