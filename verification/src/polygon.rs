//! Polygon floorplans: the outlines, what is refused, which sites get rows, and what is written.

use crate::fit::{check_instance_dimensions, first_misfit};
use crate::geometry::{
    fits, in_range, on_mfg_grid, snap_to_mfg_grid, wide_on_mfg_grid, Area, Rect,
};
use crate::model::{
    instance_models, row_models, site_models, site_ref_models, texts, Instance, InstanceModel,
    PlanError, PlanErrorModel, Row, RowModel, Site, SiteModel,
};
use crate::notices::{
    about, can_read, in_microns, notice_models, plain, push_notice, reads_as, say, say_about,
    Notice, NoticeModel, Severity,
};
use crate::order::{first_named, law_name_order_keeps_the_first, name_order, sites_by_name};
use crate::plan::{
    first_uneven, lemma_ordered_can_tile, lemma_uneven_somewhere, lemma_uneven_stays,
    no_degenerate,
};
use crate::rows::{can_snap_core, lists_name, snap_core_lower_left, snapped_core};
use crate::text::{decimal, joined, push_decimal};
use crate::writing::{bounding_box, bounds_of, law_a_bounding_box_is_tight};
use vstd::prelude::*;

verus! {

/// A floorplan is a polygon's as soon as either outline has more than the four coordinates of a
/// rectangle. A core outline alone makes one only of a run that is to be given its die.
pub open spec fn is_polygon_form(
    die_coords: nat,
    core_coords: nat,
    make_rows: bool,
    derived: bool,
) -> bool {
    if die_coords > 0 {
        die_coords > 4 || core_coords > 4
    } else {
        !make_rows && !derived && core_coords > 4
    }
}

/// Does a command line ask for a polygon floorplan?
pub fn polygon_form(die_coords: usize, core_coords: usize, make_rows: bool, derived: bool) -> (r:
    bool)
    ensures
        r == is_polygon_form(die_coords as nat, core_coords as nat, make_rows, derived),
{
    if die_coords > 0 {
        die_coords > 4 || core_coords > 4
    } else {
        !make_rows && !derived && core_coords > 4
    }
}

/// What is wrong with the number of an outline's coordinates.
#[derive(Debug, Clone, Copy, PartialEq, Eq, Structural)]
pub enum OutlineFault {
    Missing,
    /// A coordinate without its partner.
    Odd,
    /// Fewer than four vertices.
    Short,
}

/// What is wrong with an outline of `coords` coordinates.
pub open spec fn outline_fault(coords: nat) -> Option<OutlineFault> {
    if coords == 0 {
        Some(OutlineFault::Missing)
    } else if coords % 2 != 0 {
        Some(OutlineFault::Odd)
    } else if coords < 8 {
        Some(OutlineFault::Short)
    } else {
        None
    }
}

fn find_outline_fault(coords: usize) -> (r: Option<OutlineFault>)
    ensures
        r == outline_fault(coords as nat),
{
    if coords == 0 {
        Some(OutlineFault::Missing)
    } else if coords % 2 != 0 {
        Some(OutlineFault::Odd)
    } else if coords < 8 {
        Some(OutlineFault::Short)
    } else {
        None
    }
}

/// What is said of a faulty die outline.
pub open spec fn die_fault_notice(f: OutlineFault) -> NoticeModel {
    match f {
        OutlineFault::Missing => plain(
            Severity::Error,
            "IFP-NO-DIE-POLYGON"@,
            "IFP-0075 no -die_area specified for polygon floorplan."@,
        ),
        OutlineFault::Odd => plain(
            Severity::Error,
            "IFP-DIE-POLYGON-ODD"@,
            "IFP-0076 -die_area must have an even number of coordinates (x y pairs)."@,
        ),
        OutlineFault::Short => plain(
            Severity::Error,
            "IFP-DIE-POLYGON-SHORT"@,
            "IFP-0077 -die_area must have at least 4 vertices (8 coordinates)."@,
        ),
    }
}

/// What is said of a faulty core outline.
pub open spec fn core_fault_notice(f: OutlineFault) -> NoticeModel {
    match f {
        OutlineFault::Missing => plain(
            Severity::Error,
            "IFP-NO-CORE-POLYGON"@,
            "IFP-0085 no -core_area specified for polygonal floorplan."@,
        ),
        OutlineFault::Odd => plain(
            Severity::Error,
            "IFP-CORE-POLYGON-ODD"@,
            "IFP-0082 -core_area must have an even number of coordinates (x y pairs)."@,
        ),
        OutlineFault::Short => plain(
            Severity::Error,
            "IFP-CORE-POLYGON-SHORT"@,
            "IFP-0083 -core_area must have at least 4 vertices (8 coordinates)."@,
        ),
    }
}

/// What is said of the outlines, in order. The core outline is looked at only once the die's is
/// sound and has been announced.
pub open spec fn outline_story(die_coords: nat, core_coords: nat) -> Seq<NoticeModel> {
    match outline_fault(die_coords) {
        Some(f) => seq![die_fault_notice(f)],
        None => {
            let announced = seq![
                plain(
                    Severity::Info,
                    "IFP-DIE-POLYGON-VERTICES"@,
                    "IFP-0005 Added "@ + decimal(die_coords / 2)
                        + " die polygon vertices to the list."@,
                ),
                plain(
                    Severity::Info,
                    "IFP-POLYGON-MODE"@,
                    "IFP-0106 Initializing floorplan in polygon mode."@,
                ),
            ];
            match outline_fault(core_coords) {
                Some(f) => announced.push(core_fault_notice(f)),
                None => announced,
            }
        },
    }
}

fn say_die_fault(f: OutlineFault) -> (r: Notice)
    ensures
        r@ == die_fault_notice(f),
{
    match f {
        OutlineFault::Missing => say(
            Severity::Error,
            "IFP-NO-DIE-POLYGON",
            String::from("IFP-0075 no -die_area specified for polygon floorplan."),
        ),
        OutlineFault::Odd => say(
            Severity::Error,
            "IFP-DIE-POLYGON-ODD",
            String::from("IFP-0076 -die_area must have an even number of coordinates (x y pairs)."),
        ),
        OutlineFault::Short => say(
            Severity::Error,
            "IFP-DIE-POLYGON-SHORT",
            String::from("IFP-0077 -die_area must have at least 4 vertices (8 coordinates)."),
        ),
    }
}

fn say_core_fault(f: OutlineFault) -> (r: Notice)
    ensures
        r@ == core_fault_notice(f),
{
    match f {
        OutlineFault::Missing => say(
            Severity::Error,
            "IFP-NO-CORE-POLYGON",
            String::from("IFP-0085 no -core_area specified for polygonal floorplan."),
        ),
        OutlineFault::Odd => say(
            Severity::Error,
            "IFP-CORE-POLYGON-ODD",
            String::from(
                "IFP-0082 -core_area must have an even number of coordinates (x y pairs).",
            ),
        ),
        OutlineFault::Short => say(
            Severity::Error,
            "IFP-CORE-POLYGON-SHORT",
            String::from("IFP-0083 -core_area must have at least 4 vertices (8 coordinates)."),
        ),
    }
}

/// What is said of the outlines, in order, and whether both are sound.
pub fn outline_notices(die_coords: usize, core_coords: usize) -> (r: (Vec<Notice>, bool))
    ensures
        notice_models(r.0@) == outline_story(die_coords as nat, core_coords as nat),
        r.1 == (outline_fault(die_coords as nat) is None && outline_fault(core_coords as nat)
            is None),
{
    let mut out: Vec<Notice> = Vec::new();
    assert(notice_models(out@) =~= Seq::<NoticeModel>::empty());
    match find_outline_fault(die_coords) {
        Some(f) => {
            push_notice(&mut out, say_die_fault(f));
            assert(notice_models(out@) =~= seq![die_fault_notice(f)]);
            return (out, false);
        },
        None => {},
    }
    let mut text: String = String::from("IFP-0005 Added ");
    push_decimal(&mut text, (die_coords / 2) as u64);
    text.append(" die polygon vertices to the list.");
    push_notice(&mut out, say(Severity::Info, "IFP-DIE-POLYGON-VERTICES", text));
    push_notice(
        &mut out,
        say(
            Severity::Info,
            "IFP-POLYGON-MODE",
            String::from("IFP-0106 Initializing floorplan in polygon mode."),
        ),
    );
    let mut sound: bool = true;
    match find_outline_fault(core_coords) {
        Some(f) => {
            push_notice(&mut out, say_core_fault(f));
            sound = false;
        },
        None => {},
    }
    assert(notice_models(out@) =~= outline_story(die_coords as nat, core_coords as nat));
    (out, sound)
}

/// The content of a list of points.
pub open spec fn point_models(points: Seq<(i32, i32)>) -> Seq<(int, int)> {
    points.map_values(|p: (i32, i32)| (p.0 as int, p.1 as int))
}

/// The vertices that a list of coordinates means, each on the manufacturing grid.
pub open spec fn vertices_of(coords: Seq<i32>, mfg_grid: Option<i32>) -> Seq<(int, int)> {
    Seq::new(
        coords.len() / 2,
        |i: int|
            (
                on_mfg_grid(coords[2 * i] as int, mfg_grid),
                on_mfg_grid(coords[2 * i + 1] as int, mfg_grid),
            ),
    )
}

/// Can an outline be put on the manufacturing grid without leaving the database units?
pub fn can_outline(coords: &[i32], mfg_grid: Option<i32>) -> (r: bool)
    ensures
        r == (forall|i: int|
            0 <= i < coords@.len() ==> fits(on_mfg_grid(#[trigger] coords@[i] as int, mfg_grid))),
{
    let mut i: usize = 0;
    while i < coords.len()
        invariant
            i <= coords@.len(),
            forall|k: int|
                0 <= k < i ==> fits(on_mfg_grid(#[trigger] coords@[k] as int, mfg_grid)),
        decreases coords.len() - i,
    {
        if !in_range(wide_on_mfg_grid(coords[i] as i64, mfg_grid)) {
            assert(!fits(on_mfg_grid(coords@[i as int] as int, mfg_grid)));
            return false;
        }
        i = i + 1;
    }
    true
}

/// The vertices that a list of coordinates means, each on the manufacturing grid.
pub fn vertices(coords: &[i32], mfg_grid: Option<i32>) -> (r: Vec<(i32, i32)>)
    requires
        forall|i: int|
            0 <= i < coords@.len() ==> fits(on_mfg_grid(#[trigger] coords@[i] as int, mfg_grid)),
    ensures
        point_models(r@) == vertices_of(coords@, mfg_grid),
{
    let ghost all = vertices_of(coords@, mfg_grid);
    let mut out: Vec<(i32, i32)> = Vec::new();
    let mut i: usize = 0;
    while i < coords.len() / 2
        invariant
            i <= coords@.len() / 2,
            all == vertices_of(coords@, mfg_grid),
            forall|i: int|
                0 <= i < coords@.len() ==> fits(
                    on_mfg_grid(#[trigger] coords@[i] as int, mfg_grid),
                ),
            point_models(out@) =~= all.take(i as int),
        decreases coords.len() / 2 - i,
    {
        let ghost made = out@;
        out.push(
            (
                snap_to_mfg_grid(coords[2 * i], mfg_grid),
                snap_to_mfg_grid(coords[2 * i + 1], mfg_grid),
            ),
        );
        proof {
            assert(point_models(out@) =~= point_models(made).push(all[i as int]));
            assert(all.take(i + 1) =~= all.take(i as int).push(all[i as int]));
        }
        i = i + 1;
    }
    assert(all.take(all.len() as int) =~= all);
    out
}

/// The rectangles that points are.
pub open spec fn point_areas(points: Seq<(int, int)>) -> Seq<Area> {
    points.map_values(
        |p: (int, int)| Area { x_min: p.0, y_min: p.1, x_max: p.0, y_max: p.1 },
    )
}

/// The smallest rectangle that contains every point.
pub fn polygon_bbox(points: &[(i32, i32)]) -> (r: Rect)
    requires
        points@.len() > 0,
    ensures
        r@ == bounding_box(point_areas(point_models(points@))),
{
    let mut rects: Vec<Rect> = Vec::new();
    let mut i: usize = 0;
    while i < points.len()
        invariant
            i <= points@.len(),
            rects@.len() == i,
            forall|k: int|
                0 <= k < i ==> (#[trigger] rects@[k]) == (Rect {
                    x_min: points@[k].0,
                    y_min: points@[k].1,
                    x_max: points@[k].0,
                    y_max: points@[k].1,
                }),
        decreases points.len() - i,
    {
        let (x, y): (i32, i32) = points[i];
        rects.push(Rect { x_min: x, y_min: y, x_max: x, y_max: y });
        i = i + 1;
    }
    assert(crate::writing::area_models(rects@) =~= point_areas(point_models(points@)));
    bounds_of(rects.as_slice())
}

/// The content of a [`PolygonRefusal`].
#[verifier::ext_equal]
pub enum PolygonRefusalModel {
    CoreOutsideDie,
    Misfit(PlanErrorModel),
    NoSite,
    HybridBase,
}

/// Why a polygon floorplan is refused.
#[derive(Debug)]
pub enum PolygonRefusal {
    CoreOutsideDie,
    Misfit(PlanError),
    NoSite,
    HybridBase,
}

impl View for PolygonRefusal {
    type V = PolygonRefusalModel;

    open spec fn view(&self) -> PolygonRefusalModel {
        match *self {
            PolygonRefusal::CoreOutsideDie => PolygonRefusalModel::CoreOutsideDie,
            PolygonRefusal::Misfit(e) => PolygonRefusalModel::Misfit(e@),
            PolygonRefusal::NoSite => PolygonRefusalModel::NoSite,
            PolygonRefusal::HybridBase => PolygonRefusalModel::HybridBase,
        }
    }
}

impl PolygonRefusalModel {
    /// The sentence that explains the refusal.
    pub open spec fn message(self) -> Seq<char> {
        match self {
            PolygonRefusalModel::CoreOutsideDie => {
                "IFP-1004 Die area must contain the core polygon bounding box."@
            },
            PolygonRefusalModel::Misfit(e) => e.message(),
            PolygonRefusalModel::NoSite => "no site to build rows from"@,
            PolygonRefusalModel::HybridBase => {
                "IFP-1000 Hybrid rows not yet supported with polygon-aware generation."@
            },
        }
    }
}

impl PolygonRefusal {
    /// The sentence that explains the refusal.
    pub fn message(&self) -> (r: String)
        ensures
            r@ == self@.message(),
    {
        match self {
            PolygonRefusal::CoreOutsideDie => String::from(
                "IFP-1004 Die area must contain the core polygon bounding box.",
            ),
            PolygonRefusal::Misfit(e) => e.message(),
            PolygonRefusal::NoSite => String::from("no site to build rows from"),
            PolygonRefusal::HybridBase => String::from(
                "IFP-1000 Hybrid rows not yet supported with polygon-aware generation.",
            ),
        }
    }
}

/// The box that rows are built in: the core's bounding box with its lower left on the base site's
/// grid. None where that corner is negative, and then there are no rows.
pub open spec fn row_box(core_bbox: Area, base: SiteModel) -> Option<Area> {
    if core_bbox.x_min >= 0 && core_bbox.y_min >= 0 {
        Some(snapped_core(core_bbox, base))
    } else {
        None
    }
}

/// The box that rows are built in, or the first reason to refuse.
pub open spec fn polygon_start_of(
    die_bbox: Area,
    core_bbox: Area,
    sites: Seq<SiteModel>,
    instances: Seq<InstanceModel>,
) -> Result<Option<Area>, PolygonRefusalModel> {
    if !die_bbox.contains(core_bbox) {
        Err(PolygonRefusalModel::CoreOutsideDie)
    } else {
        match first_misfit(instances, core_bbox) {
            Some(e) => Err(PolygonRefusalModel::Misfit(e)),
            None => if sites.len() == 0 {
                Err(PolygonRefusalModel::NoSite)
            } else if sites[0].is_hybrid() {
                Err(PolygonRefusalModel::HybridBase)
            } else {
                Ok(row_box(core_bbox, sites[0]))
            },
        }
    }
}

/// Can the box that rows are built in be written in database units?
pub fn can_start(
    die_bbox: Rect,
    core_bbox: Rect,
    sites: &[Site],
    instances: &[Instance],
) -> (r: bool)
    ensures
        r == (polygon_start_of(
            die_bbox@,
            core_bbox@,
            site_models(sites@),
            instance_models(instances@),
        ) matches Ok(Some(b)) ==> b.fits() && !sites@[0]@.is_degenerate()),
{
    if !die_bbox.contains(&core_bbox) || check_instance_dimensions(instances, core_bbox).is_err()
        || sites.len() == 0 {
        return true;
    }
    assert(site_models(sites@)[0] == sites@[0]@);
    let base: &Site = &sites[0];
    if base.is_hybrid() || core_bbox.x_min < 0 || core_bbox.y_min < 0 {
        return true;
    }
    base.width > 0 && base.height > 0 && can_snap_core(core_bbox, base)
}

/// The box that rows are built in, or the first reason to refuse.
pub fn polygon_start(
    die_bbox: Rect,
    core_bbox: Rect,
    sites: &[Site],
    instances: &[Instance],
) -> (r: Result<Option<Rect>, PolygonRefusal>)
    requires
        polygon_start_of(
            die_bbox@,
            core_bbox@,
            site_models(sites@),
            instance_models(instances@),
        ) matches Ok(Some(b)) ==> b.fits() && !sites@[0]@.is_degenerate(),
    ensures
        polygon_start_of(
            die_bbox@,
            core_bbox@,
            site_models(sites@),
            instance_models(instances@),
        ) == (match r {
            Ok(Some(b)) => Ok(Some(b@)),
            Ok(None) => Ok(None),
            Err(e) => Err(e@),
        }),
{
    if !die_bbox.contains(&core_bbox) {
        return Err(PolygonRefusal::CoreOutsideDie);
    }
    match check_instance_dimensions(instances, core_bbox) {
        Ok(()) => {},
        Err(e) => {
            return Err(PolygonRefusal::Misfit(e));
        },
    }
    if sites.len() == 0 {
        return Err(PolygonRefusal::NoSite);
    }
    assert(site_models(sites@)[0] == sites@[0]@);
    if sites[0].is_hybrid() {
        return Err(PolygonRefusal::HybridBase);
    }
    if core_bbox.x_min < 0 || core_bbox.y_min < 0 {
        return Ok(None);
    }
    Ok(Some(snap_core_lower_left(core_bbox, &sites[0])))
}

/// Which site gets rows, and whether it is flipped.
#[verifier::ext_equal]
pub struct RowJobModel {
    pub site: SiteModel,
    pub flipped: bool,
}

/// The sites that get rows, in name order, or the first whose height is no multiple of the base
/// site's.
pub open spec fn row_jobs_of(
    sites: Seq<SiteModel>,
    flipped: Seq<Seq<char>>,
) -> Result<Seq<RowJobModel>, Seq<char>> {
    let ordered = name_order(sites);
    match first_uneven(sites[0], ordered) {
        Some(name) => Err(name),
        None => Ok(
            ordered.map_values(
                |s: SiteModel| RowJobModel { site: s, flipped: flipped.contains(s.name) },
            ),
        ),
    }
}

/// Which site gets rows, and whether it is flipped.
#[derive(Debug)]
pub struct RowJob<'a> {
    pub site: &'a Site,
    pub flipped: bool,
}

impl<'a> View for RowJob<'a> {
    type V = RowJobModel;

    open spec fn view(&self) -> RowJobModel {
        RowJobModel { site: self.site@, flipped: self.flipped }
    }
}

/// The contents of a list of jobs.
pub open spec fn job_models<'a>(jobs: Seq<RowJob<'a>>) -> Seq<RowJobModel> {
    jobs.map_values(|j: RowJob| j@)
}

/// The sites that get rows, in name order, or the first whose height is no multiple of the base
/// site's.
pub fn row_jobs<'a>(sites: &'a [Site], flipped: &[String]) -> (r: Result<Vec<RowJob<'a>>, &'a Site>)
    requires
        sites@.len() > 0,
        no_degenerate(site_models(sites@)),
    ensures
        match r {
            Ok(jobs) => row_jobs_of(site_models(sites@), texts(flipped@)) == Ok::<_, Seq<char>>(
                job_models(jobs@),
            ),
            Err(site) => {
                &&& row_jobs_of(site_models(sites@), texts(flipped@)) == Err::<
                    Seq<RowJobModel>,
                    _,
                >(site@.name)
                &&& first_named(site_models(sites@), site@.name) == Some(site@)
            },
        },
{
    let ordered: Vec<&'a Site> = sites_by_name(sites);
    let base: &Site = &sites[0];
    let ghost given = site_models(sites@);
    let ghost models = site_ref_models(ordered@);
    let ghost names = texts(flipped@);
    let ghost all = models.map_values(
        |s: SiteModel| RowJobModel { site: s, flipped: names.contains(s.name) },
    );
    proof {
        assert(given[0] == base@);
        assert(!given[0].is_degenerate());
        assert forall|i: int| 0 <= i < ordered@.len() implies (#[trigger] ordered@[i]).height
            > 0 by {
            lemma_ordered_can_tile(given, i);
            assert(models[i] == ordered@[i]@);
        }
    }
    let mut jobs: Vec<RowJob<'a>> = Vec::new();
    let mut i: usize = 0;
    while i < ordered.len()
        invariant
            i <= ordered@.len(),
            base.height > 0,
            given[0] == base@,
            given == site_models(sites@),
            models == site_ref_models(ordered@),
            models == name_order(given),
            names == texts(flipped@),
            all == models.map_values(
                |s: SiteModel| RowJobModel { site: s, flipped: names.contains(s.name) },
            ),
            forall|i: int| 0 <= i < ordered@.len() ==> (#[trigger] ordered@[i]).height > 0,
            first_uneven(base@, models.take(i as int)) is None,
            job_models(jobs@) =~= all.take(i as int),
        decreases ordered.len() - i,
    {
        let site: &'a Site = ordered[i];
        proof {
            assert(models.take(i + 1).drop_last() =~= models.take(i as int));
            assert(models.take(i + 1).last() == site@);
            assert(models[i as int] == site@);
        }
        if site.height % base.height != 0 {
            proof {
                lemma_uneven_stays(base@, models, i + 1);
                law_name_order_keeps_the_first(given, i as int);
            }
            return Err(site);
        }
        let ghost made = jobs@;
        jobs.push(RowJob { site, flipped: lists_name(flipped, site.name.as_str()) });
        proof {
            assert(jobs@.last()@ == all[i as int]);
            assert(job_models(jobs@) =~= job_models(made).push(all[i as int]));
            assert(all.take(i + 1) =~= all.take(i as int).push(all[i as int]));
        }
        i = i + 1;
    }
    assert(models.take(models.len() as int) =~= models);
    assert(all.take(all.len() as int) =~= all);
    Ok(jobs)
}

/// What is said of a site whose height is no multiple of the base site's.
pub open spec fn uneven_text(
    site: SiteModel,
    base: SiteModel,
    um: spec_fn(int) -> Seq<char>,
) -> Seq<char> {
    "IFP-1001 Site "@ + site.name + " height "@ + um(site.height)
        + "um is not a multiple of site "@ + base.name + " height "@ + um(base.height) + "um."@
}

/// What is said of a site whose height is no multiple of the base site's.
pub fn say_uneven<M: Fn(i32) -> String>(site: &Site, base: &Site, um: &M) -> (r: String)
    requires
        can_read(*um),
    ensures
        forall|f: spec_fn(int) -> Seq<char>| #[trigger]
            reads_as(*um, f) ==> r@ == uneven_text(site@, base@, f),
{
    let mut out: String = joined("IFP-1001 Site ", site.name.as_str());
    out.append(" height ");
    out.append(in_microns(um, site.height).as_str());
    out.append("um is not a multiple of site ");
    out.append(base.name.as_str());
    out.append(" height ");
    out.append(in_microns(um, base.height).as_str());
    out.append("um.");
    out
}

/// What is said where the box's lower left moved.
pub open spec fn box_story(
    core_bbox: Area,
    snapped: Area,
    um: spec_fn(int) -> Seq<char>,
) -> Seq<NoticeModel> {
    if snapped.x_min != core_bbox.x_min || snapped.y_min != core_bbox.y_min {
        seq![
            plain(
                Severity::Warn,
                "IFP-POLYGON-BBOX-SNAPPED"@,
                crate::notices::snap_text(
                    "IFP-1003 Core polygon bounding box"@,
                    um,
                    core_bbox,
                    snapped,
                ),
            ),
        ]
    } else {
        Seq::empty()
    }
}

/// What is said where the box's lower left moved.
pub fn box_notices<M: Fn(i32) -> String>(core_bbox: Rect, snapped: Rect, um: &M) -> (r: Vec<
    Notice,
>)
    requires
        can_read(*um),
    ensures
        forall|f: spec_fn(int) -> Seq<char>| #[trigger]
            reads_as(*um, f) ==> notice_models(r@) == box_story(core_bbox@, snapped@, f),
{
    let mut out: Vec<Notice> = Vec::new();
    assert(notice_models(out@) =~= Seq::<NoticeModel>::empty());
    if snapped.x_min != core_bbox.x_min || snapped.y_min != core_bbox.y_min {
        push_notice(
            &mut out,
            say(
                Severity::Warn,
                "IFP-POLYGON-BBOX-SNAPPED",
                crate::notices::snapped_in_microns(
                    "IFP-1003 Core polygon bounding box",
                    um,
                    core_bbox,
                    snapped,
                ),
            ),
        );
        assert forall|f: spec_fn(int) -> Seq<char>| #[trigger] reads_as(*um, f) implies
            notice_models(out@) == box_story(core_bbox@, snapped@, f) by {
            assert(notice_models(out@) =~= box_story(core_bbox@, snapped@, f));
        }
    }
    out
}

/// The content of a [`PolygonStep`].
#[verifier::ext_equal]
pub enum PolygonStepModel {
    SetDie(Seq<(int, int)>),
    ClearRows,
    CreateRow(RowModel),
    Announce(NoticeModel),
    SetCoreFromRows,
    CutRows,
}

/// One thing done to the database, or said, for a polygon floorplan.
#[derive(Debug)]
pub enum PolygonStep {
    SetDie(Vec<(i32, i32)>),
    ClearRows,
    CreateRow(Row),
    Announce(Notice),
    SetCoreFromRows,
    CutRows,
}

impl View for PolygonStep {
    type V = PolygonStepModel;

    open spec fn view(&self) -> PolygonStepModel {
        match *self {
            PolygonStep::SetDie(p) => PolygonStepModel::SetDie(point_models(p@)),
            PolygonStep::ClearRows => PolygonStepModel::ClearRows,
            PolygonStep::CreateRow(r) => PolygonStepModel::CreateRow(r@),
            PolygonStep::Announce(n) => PolygonStepModel::Announce(n@),
            PolygonStep::SetCoreFromRows => PolygonStepModel::SetCoreFromRows,
            PolygonStep::CutRows => PolygonStepModel::CutRows,
        }
    }
}

/// The contents of a list of steps.
pub open spec fn polygon_step_models(steps: Seq<PolygonStep>) -> Seq<PolygonStepModel> {
    steps.map_values(|s: PolygonStep| s@)
}

impl PolygonStepModel {
    /// What the step could not do.
    pub open spec fn failure(self) -> Seq<char> {
        match self {
            PolygonStepModel::SetDie(_) => "cannot set the polygon die area"@,
            PolygonStepModel::ClearRows => "cannot clear the existing rows"@,
            PolygonStepModel::CreateRow(r) => "cannot create "@ + r.name,
            PolygonStepModel::Announce(_) => "cannot announce"@,
            PolygonStepModel::SetCoreFromRows => "cannot set the core area"@,
            PolygonStepModel::CutRows => "cannot cut the rows around the blockages"@,
        }
    }
}

impl PolygonStep {
    /// The sentence that says what could not be done, and why.
    pub fn failure(&self, error: &str) -> (r: String)
        ensures
            r@ == self@.failure() + ": "@ + error@,
    {
        let mut out: String = match self {
            PolygonStep::SetDie(_) => String::from("cannot set the polygon die area"),
            PolygonStep::ClearRows => String::from("cannot clear the existing rows"),
            PolygonStep::CreateRow(r) => joined("cannot create ", r.name.as_str()),
            PolygonStep::Announce(_) => String::from("cannot announce"),
            PolygonStep::SetCoreFromRows => String::from("cannot set the core area"),
            PolygonStep::CutRows => String::from("cannot cut the rows around the blockages"),
        };
        out.append(": ");
        out.append(error);
        out
    }
}

/// The rows that one site got.
pub open spec fn made_notice(m: (Seq<char>, nat)) -> NoticeModel {
    about(
        Severity::Info,
        "IFP-POLYGON-ROWS"@,
        "IFP-1002 Added "@ + decimal(m.1) + " polygon-aware rows for site "@ + m.0 + "."@,
        "site:"@ + m.0,
    )
}

/// The rows that the sites got.
pub open spec fn made_models(made: Seq<(String, usize)>) -> Seq<(Seq<char>, nat)> {
    made.map_values(|m: (String, usize)| (m.0@, m.1 as nat))
}

/// The last line about a polygon floorplan.
pub open spec fn complete_notice(core_vertices: nat) -> NoticeModel {
    plain(
        Severity::Info,
        "IFP-POLYGON-COMPLETE"@,
        "IFP-0997 Completed polygon-aware row generation using "@ + decimal(core_vertices)
            + " vertices"@,
    )
}

/// What is written of a polygon floorplan, and said while it is, in order.
pub open spec fn polygon_steps_of(
    die: Seq<(int, int)>,
    rows: Seq<RowModel>,
    made: Seq<(Seq<char>, nat)>,
    core_vertices: nat,
) -> Seq<PolygonStepModel> {
    seq![PolygonStepModel::SetDie(die), PolygonStepModel::ClearRows] + rows.map_values(
        |r: RowModel| PolygonStepModel::CreateRow(r),
    ) + made.map_values(|m: (Seq<char>, nat)| PolygonStepModel::Announce(made_notice(m))) + seq![
        PolygonStepModel::SetCoreFromRows,
        PolygonStepModel::CutRows,
        PolygonStepModel::Announce(complete_notice(core_vertices)),
    ]
}

fn say_made(site: &str, n: usize) -> (r: Notice)
    ensures
        r@ == made_notice((site@, n as nat)),
{
    let mut text: String = String::from("IFP-1002 Added ");
    push_decimal(&mut text, n as u64);
    text.append(" polygon-aware rows for site ");
    text.append(site);
    text.append(".");
    say_about(Severity::Info, "IFP-POLYGON-ROWS", text, "site:", site)
}

fn say_complete(core_vertices: usize) -> (r: Notice)
    ensures
        r@ == complete_notice(core_vertices as nat),
{
    let mut text: String = String::from("IFP-0997 Completed polygon-aware row generation using ");
    push_decimal(&mut text, core_vertices as u64);
    text.append(" vertices");
    say(Severity::Info, "IFP-POLYGON-COMPLETE", text)
}

/// What is written of a polygon floorplan, and said while it is, in order. `made` says how many
/// of the rows each site got.
pub fn polygon_steps(
    die: Vec<(i32, i32)>,
    rows: &[Row],
    made: &[(String, usize)],
    core_vertices: usize,
) -> (r: Vec<PolygonStep>)
    ensures
        polygon_step_models(r@) == polygon_steps_of(
            point_models(die@),
            row_models(rows@),
            made_models(made@),
            core_vertices as nat,
        ),
{
    let ghost points = point_models(die@);
    let ghost models = row_models(rows@);
    let ghost creates = models.map_values(|r: RowModel| PolygonStepModel::CreateRow(r));
    let ghost counts = made_models(made@);
    let ghost lines = counts.map_values(
        |m: (Seq<char>, nat)| PolygonStepModel::Announce(made_notice(m)),
    );
    let mut out: Vec<PolygonStep> = Vec::new();
    out.push(PolygonStep::SetDie(die));
    out.push(PolygonStep::ClearRows);
    let ghost head = polygon_step_models(out@);
    assert(head =~= seq![PolygonStepModel::SetDie(points), PolygonStepModel::ClearRows]);
    let mut i: usize = 0;
    while i < rows.len()
        invariant
            i <= rows@.len(),
            models == row_models(rows@),
            creates == models.map_values(|r: RowModel| PolygonStepModel::CreateRow(r)),
            polygon_step_models(out@) =~= head + creates.take(i as int),
        decreases rows.len() - i,
    {
        let ghost before = out@;
        out.push(PolygonStep::CreateRow(rows[i].duplicate()));
        proof {
            assert(models[i as int] == rows@[i as int]@);
            assert(out@.last()@ == creates[i as int]);
            assert(polygon_step_models(out@) =~= polygon_step_models(before).push(
                creates[i as int],
            ));
            assert(creates.take(i + 1) =~= creates.take(i as int).push(creates[i as int]));
        }
        i = i + 1;
    }
    assert(creates.take(creates.len() as int) =~= creates);
    let mut k: usize = 0;
    while k < made.len()
        invariant
            k <= made@.len(),
            counts == made_models(made@),
            lines == counts.map_values(
                |m: (Seq<char>, nat)| PolygonStepModel::Announce(made_notice(m)),
            ),
            polygon_step_models(out@) =~= head + creates + lines.take(k as int),
        decreases made.len() - k,
    {
        let ghost before = out@;
        let line: Notice = say_made(made[k].0.as_str(), made[k].1);
        out.push(PolygonStep::Announce(line));
        proof {
            assert(counts[k as int] == (made@[k as int].0@, made@[k as int].1 as nat));
            assert(out@.last()@ == lines[k as int]);
            assert(polygon_step_models(out@) =~= polygon_step_models(before).push(
                lines[k as int],
            ));
            assert(lines.take(k + 1) =~= lines.take(k as int).push(lines[k as int]));
        }
        k = k + 1;
    }
    assert(lines.take(lines.len() as int) =~= lines);
    let ghost before = out@;
    out.push(PolygonStep::SetCoreFromRows);
    out.push(PolygonStep::CutRows);
    out.push(PolygonStep::Announce(say_complete(core_vertices)));
    assert(polygon_step_models(out@) =~= polygon_step_models(before) + seq![
        PolygonStepModel::SetCoreFromRows,
        PolygonStepModel::CutRows,
        PolygonStepModel::Announce(complete_notice(core_vertices as nat)),
    ]);
    out
}

/// What a polygon floorplan leaves in the database: the die's vertices, the rows, and the rows that
/// the core area was taken from.
#[verifier::ext_equal]
pub struct PolygonFloor {
    pub die: Seq<(int, int)>,
    pub rows: Seq<RowModel>,
    pub core_rows: Seq<RowModel>,
    pub cut: bool,
    pub said: Seq<NoticeModel>,
}

/// The floor after one step.
pub open spec fn after_polygon_step(f: PolygonFloor, s: PolygonStepModel) -> PolygonFloor {
    match s {
        PolygonStepModel::SetDie(die) => PolygonFloor { die, ..f },
        PolygonStepModel::ClearRows => PolygonFloor { rows: Seq::empty(), cut: false, ..f },
        PolygonStepModel::CreateRow(r) => PolygonFloor { rows: f.rows.push(r), cut: false, ..f },
        PolygonStepModel::Announce(n) => PolygonFloor { said: f.said.push(n), ..f },
        PolygonStepModel::SetCoreFromRows => PolygonFloor { core_rows: f.rows, ..f },
        PolygonStepModel::CutRows => PolygonFloor { cut: true, ..f },
    }
}

/// The floor after the steps.
pub open spec fn after_polygon_steps(
    f: PolygonFloor,
    steps: Seq<PolygonStepModel>,
) -> PolygonFloor
    decreases steps.len(),
{
    if steps.len() == 0 {
        f
    } else {
        after_polygon_step(after_polygon_steps(f, steps.drop_last()), steps.last())
    }
}

proof fn lemma_after_polygon_concat(
    f: PolygonFloor,
    a: Seq<PolygonStepModel>,
    b: Seq<PolygonStepModel>,
)
    ensures
        after_polygon_steps(f, a + b) == after_polygon_steps(after_polygon_steps(f, a), b),
    decreases b.len(),
{
    if b.len() == 0 {
        assert(a + b =~= a);
    } else {
        assert((a + b).drop_last() =~= a + b.drop_last());
        lemma_after_polygon_concat(f, a, b.drop_last());
    }
}

proof fn lemma_after_polygon_rows(f: PolygonFloor, rows: Seq<RowModel>)
    ensures
        ({
            let after = after_polygon_steps(
                f,
                rows.map_values(|r: RowModel| PolygonStepModel::CreateRow(r)),
            );
            &&& after.rows == f.rows + rows
            &&& after.die == f.die && after.core_rows == f.core_rows && after.said == f.said
        }),
    decreases rows.len(),
{
    let creates = rows.map_values(|r: RowModel| PolygonStepModel::CreateRow(r));
    if rows.len() == 0 {
        assert(f.rows + rows =~= f.rows);
    } else {
        assert(creates.drop_last() =~= rows.drop_last().map_values(
            |r: RowModel| PolygonStepModel::CreateRow(r),
        ));
        lemma_after_polygon_rows(f, rows.drop_last());
        assert((f.rows + rows.drop_last()).push(rows.last()) =~= f.rows + rows);
    }
}

proof fn lemma_after_polygon_lines(f: PolygonFloor, made: Seq<(Seq<char>, nat)>)
    ensures
        ({
            let after = after_polygon_steps(
                f,
                made.map_values(
                    |m: (Seq<char>, nat)| PolygonStepModel::Announce(made_notice(m)),
                ),
            );
            &&& after.said == f.said + made.map_values(|m: (Seq<char>, nat)| made_notice(m))
            &&& after.die == f.die && after.rows == f.rows && after.core_rows == f.core_rows
        }),
    decreases made.len(),
{
    let lines = made.map_values(|m: (Seq<char>, nat)| PolygonStepModel::Announce(made_notice(m)));
    let said = made.map_values(|m: (Seq<char>, nat)| made_notice(m));
    if made.len() == 0 {
        assert(f.said + said =~= f.said);
    } else {
        let rest = made.drop_last();
        assert(lines.drop_last() =~= rest.map_values(
            |m: (Seq<char>, nat)| PolygonStepModel::Announce(made_notice(m)),
        ));
        lemma_after_polygon_lines(f, rest);
        assert(said.drop_last() =~= rest.map_values(|m: (Seq<char>, nat)| made_notice(m)));
        assert((f.said + said.drop_last()).push(said.last()) =~= f.said + said);
    }
}

/// Whatever the database held before, a polygon floorplan leaves in it the die polygon that was
/// given, vertex by vertex, and exactly the rows that were given, with the core area taken from
/// those rows before they are cut. One notice is said for each site and one at the end, and every
/// notice before stays said.
pub proof fn law_a_polygon_floorplan_leaves_its_die_and_rows(
    f: PolygonFloor,
    die: Seq<(int, int)>,
    rows: Seq<RowModel>,
    made: Seq<(Seq<char>, nat)>,
    core_vertices: nat,
)
    ensures
        ({
            let after = after_polygon_steps(f, polygon_steps_of(die, rows, made, core_vertices));
            &&& after.die == die
            &&& after.rows == rows
            &&& after.core_rows == rows
            &&& after.cut
            &&& after.said.len() == f.said.len() + made.len() + 1
            &&& after.said.take(f.said.len() as int) == f.said
            &&& forall|i: int|
                0 <= i < made.len() ==> {
                    let n = #[trigger] after.said[f.said.len() + i];
                    &&& n.severity == Severity::Info
                    &&& n.code == "IFP-POLYGON-ROWS"@
                    &&& n.text == "IFP-1002 Added "@ + decimal(made[i].1)
                        + " polygon-aware rows for site "@ + made[i].0 + "."@
                    &&& n.objects == seq!["site:"@ + made[i].0]
                }
            &&& after.said.last().severity == Severity::Info
            &&& after.said.last().text
                == "IFP-0997 Completed polygon-aware row generation using "@ + decimal(
                core_vertices,
            ) + " vertices"@
        }),
{
    let head = seq![PolygonStepModel::SetDie(die), PolygonStepModel::ClearRows];
    let creates = rows.map_values(|r: RowModel| PolygonStepModel::CreateRow(r));
    let lines = made.map_values(|m: (Seq<char>, nat)| PolygonStepModel::Announce(made_notice(m)));
    let said = made.map_values(|m: (Seq<char>, nat)| made_notice(m));
    let tail = seq![
        PolygonStepModel::SetCoreFromRows,
        PolygonStepModel::CutRows,
        PolygonStepModel::Announce(complete_notice(core_vertices)),
    ];
    lemma_after_polygon_concat(f, head + creates + lines, tail);
    lemma_after_polygon_concat(f, head + creates, lines);
    lemma_after_polygon_concat(f, head, creates);
    reveal_with_fuel(after_polygon_steps, 4);
    assert(head.drop_last().drop_last() =~= Seq::<PolygonStepModel>::empty());
    assert(head.drop_last().last() == head[0]);
    lemma_after_polygon_rows(after_polygon_steps(f, head), rows);
    assert(Seq::<RowModel>::empty() + rows =~= rows);
    lemma_after_polygon_lines(after_polygon_steps(f, head + creates), made);
    let before = after_polygon_steps(f, head + creates + lines);
    assert(tail.drop_last().drop_last().drop_last() =~= Seq::<PolygonStepModel>::empty());
    assert(tail.drop_last().last() == tail[1] && tail.drop_last().drop_last().last() == tail[0]);
    let after = after_polygon_steps(f, polygon_steps_of(die, rows, made, core_vertices));
    assert(after.said == (f.said + said).push(complete_notice(core_vertices)));
    assert(after.said.take(f.said.len() as int) =~= f.said);
    assert forall|i: int| 0 <= i < made.len() implies #[trigger] after.said[f.said.len() + i]
        == made_notice(made[i]) by {
        assert(said[i] == made_notice(made[i]));
    }
}

/// An outline is more than a rectangle from its fifth coordinate on. With a die outline, either of
/// the two makes a polygon of the floorplan. Without one, the core outline does so by itself,
/// unless the rows alone are made or the die is derived.
pub proof fn law_more_than_a_rectangle_is_a_polygon(
    die_coords: nat,
    core_coords: nat,
    make_rows: bool,
    derived: bool,
)
    ensures
        die_coords <= 4 && core_coords <= 4 ==> !is_polygon_form(
            die_coords,
            core_coords,
            make_rows,
            derived,
        ),
        die_coords > 4 ==> is_polygon_form(die_coords, core_coords, make_rows, derived),
        1 <= die_coords && core_coords > 4 ==> is_polygon_form(
            die_coords,
            core_coords,
            make_rows,
            derived,
        ),
        die_coords == 0 && core_coords > 4 ==> (is_polygon_form(
            die_coords,
            core_coords,
            make_rows,
            derived,
        ) <==> !make_rows && !derived),
{
}

/// An outline is sound exactly where its coordinates are those of at least four vertices. Else it
/// is missing, or a coordinate lacks its partner, or there are too few vertices, in this order.
pub proof fn law_a_sound_outline_has_four_vertices(coords: nat)
    ensures
        outline_fault(coords) is None <==> exists|n: nat| n >= 4 && #[trigger] (2 * n) == coords,
        coords == 0 ==> outline_fault(coords) == Some(OutlineFault::Missing),
        forall|n: nat|
            #[trigger] (2 * n) + 1 == coords ==> outline_fault(coords) == Some(OutlineFault::Odd),
        forall|n: nat|
            1 <= n <= 3 && #[trigger] (2 * n) == coords ==> outline_fault(coords) == Some(
                OutlineFault::Short,
            ),
{
    if outline_fault(coords) is None {
        assert(2 * (coords / 2) == coords);
    }
}

/// What is said of the outlines: the die's fault and nothing else; or the number of its vertices
/// and the mode, and then the core's fault where it has one.
pub proof fn law_what_is_said_of_the_outlines(die_coords: nat, core_coords: nat)
    ensures
        ({
            let story = outline_story(die_coords, core_coords);
            let die = outline_fault(die_coords);
            let core = outline_fault(core_coords);
            &&& die is Some ==> story.len() == 1 && story[0].severity == Severity::Error
            &&& die == Some(OutlineFault::Missing) ==> story[0].code == "IFP-NO-DIE-POLYGON"@
            &&& die == Some(OutlineFault::Odd) ==> story[0].code == "IFP-DIE-POLYGON-ODD"@
            &&& die == Some(OutlineFault::Short) ==> story[0].code == "IFP-DIE-POLYGON-SHORT"@
            &&& die is None ==> {
                &&& story[0].severity == Severity::Info
                &&& story[0].code == "IFP-DIE-POLYGON-VERTICES"@
                &&& forall|n: nat|
                    #[trigger] (2 * n) == die_coords ==> story[0].text == "IFP-0005 Added "@
                        + decimal(n) + " die polygon vertices to the list."@
                &&& story[1].severity == Severity::Info
                &&& story[1].code == "IFP-POLYGON-MODE"@
                &&& core is None ==> story.len() == 2
                &&& core is Some ==> story.len() == 3 && story[2].severity == Severity::Error
                &&& core == Some(OutlineFault::Missing) ==> story[2].code
                    == "IFP-NO-CORE-POLYGON"@
                &&& core == Some(OutlineFault::Odd) ==> story[2].code == "IFP-CORE-POLYGON-ODD"@
                &&& core == Some(OutlineFault::Short) ==> story[2].code
                    == "IFP-CORE-POLYGON-SHORT"@
            }
        }),
{
    assert forall|n: nat| #[trigger] (2 * n) == die_coords implies die_coords / 2 == n by {}
}

/// The coordinates of an outline come in pairs, across before up, and each is put on the
/// manufacturing grid. A point is kept as it is given.
pub proof fn law_vertices_are_pairs_of_coordinates(
    coords: Seq<i32>,
    mfg_grid: Option<i32>,
    points: Seq<(i32, i32)>,
    i: int,
)
    ensures
        forall|n: nat|
            #[trigger] (2 * n) == coords.len() ==> vertices_of(coords, mfg_grid).len() == n,
        0 <= i && 2 * i + 1 < coords.len() ==> {
            &&& i < vertices_of(coords, mfg_grid).len()
            &&& vertices_of(coords, mfg_grid)[i].0 == on_mfg_grid(coords[2 * i] as int, mfg_grid)
            &&& vertices_of(coords, mfg_grid)[i].1 == on_mfg_grid(
                coords[2 * i + 1] as int,
                mfg_grid,
            )
        },
        point_models(points).len() == points.len(),
        0 <= i < points.len() ==> point_models(points)[i].0 == points[i].0 && point_models(
            points,
        )[i].1 == points[i].1,
{
    assert forall|n: nat| #[trigger] (2 * n) == coords.len() implies coords.len() / 2 == n by {}
}

/// The box of a polygon holds every vertex, and each of its edges goes through one.
pub proof fn law_the_box_of_a_polygon_is_tight(points: Seq<(int, int)>, i: int)
    requires
        0 <= i < points.len(),
    ensures
        ({
            let b = bounding_box(point_areas(points));
            &&& b.x_min <= points[i].0 <= b.x_max
            &&& b.y_min <= points[i].1 <= b.y_max
            &&& exists|k: int| 0 <= k < points.len() && (#[trigger] points[k]).0 == b.x_min
            &&& exists|k: int| 0 <= k < points.len() && (#[trigger] points[k]).0 == b.x_max
            &&& exists|k: int| 0 <= k < points.len() && (#[trigger] points[k]).1 == b.y_min
            &&& exists|k: int| 0 <= k < points.len() && (#[trigger] points[k]).1 == b.y_max
        }),
{
    let areas = point_areas(points);
    let b = bounding_box(areas);
    law_a_bounding_box_is_tight(areas, i);
    assert(areas[i].x_min == points[i].0);
    let k = choose|k: int| 0 <= k < areas.len() && (#[trigger] areas[k]).x_min == b.x_min;
    assert(points[k].0 == b.x_min);
    let k = choose|k: int| 0 <= k < areas.len() && (#[trigger] areas[k]).x_max == b.x_max;
    assert(points[k].0 == b.x_max);
    let k = choose|k: int| 0 <= k < areas.len() && (#[trigger] areas[k]).y_min == b.y_min;
    assert(points[k].1 == b.y_min);
    let k = choose|k: int| 0 <= k < areas.len() && (#[trigger] areas[k]).y_max == b.y_max;
    assert(points[k].1 == b.y_max);
}

/// Where a polygon floorplan starts: refused for a core box outside the die's, then for a master
/// that does not fit in the core box, then for want of a site, then for a pattern on the first
/// site. Else rows are built from the core box as it snaps to the first site, and none are built
/// where the box's lower left is negative on either axis.
pub proof fn law_where_a_polygon_floorplan_starts(
    die_bbox: Area,
    core_bbox: Area,
    sites: Seq<SiteModel>,
    instances: Seq<InstanceModel>,
)
    ensures
        ({
            let r = polygon_start_of(die_bbox, core_bbox, sites, instances);
            let inside = die_bbox.contains(core_bbox);
            let misfit = first_misfit(instances, core_bbox);
            &&& r == Err::<Option<Area>, _>(PolygonRefusalModel::CoreOutsideDie) <==> !inside
            &&& inside && misfit is Some ==> r == Err::<Option<Area>, _>(
                PolygonRefusalModel::Misfit(misfit.unwrap()),
            )
            &&& inside && misfit is None && sites.len() == 0 ==> r == Err::<Option<Area>, _>(
                PolygonRefusalModel::NoSite,
            )
            &&& inside && misfit is None && sites.len() > 0 && sites[0].row_pattern.len() > 0 ==> r
                == Err::<Option<Area>, _>(PolygonRefusalModel::HybridBase)
            &&& inside && misfit is None && sites.len() > 0 && sites[0].row_pattern.len() == 0 ==> {
                &&& r is Ok
                &&& core_bbox.x_min < 0 || core_bbox.y_min < 0 ==> r == Ok::<
                    _,
                    PolygonRefusalModel,
                >(None::<Area>)
                &&& core_bbox.x_min >= 0 && core_bbox.y_min >= 0 ==> r == Ok::<
                    _,
                    PolygonRefusalModel,
                >(Some(snapped_core(core_bbox, sites[0])))
            }
        }),
{
}

/// Every name gets one job, in the order of names, for the first site that bears it, flipped where
/// it is listed. The first name whose height is no multiple of the first site's is refused.
pub proof fn law_every_name_gets_a_job(
    sites: Seq<SiteModel>,
    flipped: Seq<Seq<char>>,
    i: int,
    k: int,
)
    requires
        sites.len() > 0,
    ensures
        ({
            let ordered = name_order(sites);
            let r = row_jobs_of(sites, flipped);
            &&& r is Ok <==> forall|n: int|
                0 <= n < ordered.len() ==> (#[trigger] ordered[n]).height % sites[0].height == 0
            &&& r matches Ok(jobs) ==> {
                &&& jobs.len() == ordered.len()
                &&& 0 <= i < jobs.len() ==> jobs[i].site == ordered[i] && jobs[i].flipped
                    == flipped.contains(ordered[i].name)
            }
            &&& 0 <= k < ordered.len() && ordered[k].height % sites[0].height != 0 && (forall|
                n: int,
            |
                0 <= n < k ==> (#[trigger] ordered[n]).height % sites[0].height == 0) ==> r
                == Err::<Seq<RowJobModel>, _>(ordered[k].name)
        }),
{
    let ordered = name_order(sites);
    lemma_uneven_somewhere(sites[0], ordered);
    if 0 <= k < ordered.len() && ordered[k].height % sites[0].height != 0 && (forall|n: int|
        0 <= n < k ==> (#[trigger] ordered[n]).height % sites[0].height == 0) {
        lemma_uneven_somewhere(sites[0], ordered.take(k));
        assert(ordered.take(k + 1).drop_last() =~= ordered.take(k));
        assert(ordered.take(k + 1).last() == ordered[k]);
        lemma_uneven_stays(sites[0], ordered, k + 1);
    }
}

/// A box whose lower left stays is not spoken of. One that moves is said once, where it was and
/// where it went, and an uneven site with its height before the base site with its own.
pub proof fn law_a_box_that_moves_is_said(
    from: Area,
    to: Area,
    site: SiteModel,
    base: SiteModel,
    um: spec_fn(int) -> Seq<char>,
)
    ensures
        from.x_min == to.x_min && from.y_min == to.y_min ==> box_story(from, to, um).len() == 0,
        from.x_min != to.x_min || from.y_min != to.y_min ==> {
            let story = box_story(from, to, um);
            &&& story.len() == 1
            &&& story[0].severity == Severity::Warn
            &&& story[0].code == "IFP-POLYGON-BBOX-SNAPPED"@
            &&& story[0].text == "IFP-1003 Core polygon bounding box"@ + " lower left ("@ + (um(
                from.x_min,
            ) + ", "@ + um(from.y_min)) + ") snapped to ("@ + (um(to.x_min) + ", "@ + um(to.y_min))
                + ")."@
        },
        uneven_text(site, base, um) == "IFP-1001 Site "@ + site.name + " height "@ + um(site.height)
            + "um is not a multiple of site "@ + base.name + " height "@ + um(base.height)
            + "um."@,
{
}

/// A refused polygon floorplan has its sentence, and so has a faulty outline.
pub proof fn law_a_polygon_refusal_has_its_sentence(e: PlanErrorModel)
    ensures
        PolygonRefusalModel::CoreOutsideDie.message()
            == "IFP-1004 Die area must contain the core polygon bounding box."@,
        PolygonRefusalModel::Misfit(e).message() == e.message(),
        PolygonRefusalModel::NoSite.message() == "no site to build rows from"@,
        PolygonRefusalModel::HybridBase.message()
            == "IFP-1000 Hybrid rows not yet supported with polygon-aware generation."@,
        die_fault_notice(OutlineFault::Missing).text
            == "IFP-0075 no -die_area specified for polygon floorplan."@,
        die_fault_notice(OutlineFault::Odd).text
            == "IFP-0076 -die_area must have an even number of coordinates (x y pairs)."@,
        die_fault_notice(OutlineFault::Short).text
            == "IFP-0077 -die_area must have at least 4 vertices (8 coordinates)."@,
        core_fault_notice(OutlineFault::Missing).text
            == "IFP-0085 no -core_area specified for polygonal floorplan."@,
        core_fault_notice(OutlineFault::Odd).text
            == "IFP-0082 -core_area must have an even number of coordinates (x y pairs)."@,
        core_fault_notice(OutlineFault::Short).text
            == "IFP-0083 -core_area must have at least 4 vertices (8 coordinates)."@,
{
}

/// A step is known by its sort and by what it stores, and one that fails says what it was.
pub proof fn law_a_polygon_step_is_what_it_stores(s: PolygonStep, job: RowJob)
    ensures
        s matches PolygonStep::SetDie(p) ==> s@ == PolygonStepModel::SetDie(point_models(p@)),
        s is ClearRows ==> s@ is ClearRows,
        s matches PolygonStep::CreateRow(r) ==> s@ == PolygonStepModel::CreateRow(r@),
        s matches PolygonStep::Announce(n) ==> s@ == PolygonStepModel::Announce(n@),
        s is SetCoreFromRows ==> s@ is SetCoreFromRows,
        s is CutRows ==> s@ is CutRows,
        job@.site == job.site@ && job@.flipped == job.flipped,
        s is SetDie ==> s@.failure() == "cannot set the polygon die area"@,
        s is ClearRows ==> s@.failure() == "cannot clear the existing rows"@,
        s matches PolygonStep::CreateRow(r) ==> s@.failure() == "cannot create "@ + r@.name,
        s is SetCoreFromRows ==> s@.failure() == "cannot set the core area"@,
        s is CutRows ==> s@.failure() == "cannot cut the rows around the blockages"@,
{
}

} // verus!
