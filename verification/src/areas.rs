//! Where the die and the core come from, and the floorplan between them.

use crate::geometry::{area_on_mfg_grid, can_snap, in_range, snap_rect_to_mfg_grid, Area, Rect};
use crate::model::{
    instance_models, site_models, texts, Instance, InstanceModel, Plan, PlanError, PlanErrorModel,
    PlanModel, RowParity, Site, SiteModel,
};
use crate::notices::{plain, say, Notice, NoticeModel, Severity};
use crate::plan::{plan, plan_fits, plan_of};
use crate::text::{joined, push_signed, signed_decimal};
use vstd::prelude::*;

verus! {

/// The margins between a core and its die, in DBU.
#[derive(Debug, Clone, Copy, PartialEq, Eq, Structural)]
pub struct Margins {
    pub bottom: i32,
    pub top: i32,
    pub left: i32,
    pub right: i32,
}

/// What the margins leave of a die.
pub open spec fn inset(die: Area, m: Margins) -> Area {
    Area {
        x_min: die.x_min + m.left,
        y_min: die.y_min + m.bottom,
        x_max: die.x_max - m.right,
        y_max: die.y_max - m.top,
    }
}

/// A die at the origin with room for a core and its margins.
pub open spec fn around(core_width: int, core_height: int, m: Margins) -> Area {
    Area {
        x_min: 0,
        y_min: 0,
        x_max: core_width + m.left + m.right,
        y_max: core_height + m.bottom + m.top,
    }
}

/// The core that the margins leave of a die.
pub fn core_from_die_spacing(die: Rect, m: Margins) -> (r: Rect)
    requires
        inset(die@, m).fits(),
    ensures
        r@ == inset(die@, m),
{
    Rect {
        x_min: die.x_min + m.left,
        y_min: die.y_min + m.bottom,
        x_max: die.x_max - m.right,
        y_max: die.y_max - m.top,
    }
}

/// A die at the origin with room for a core and its margins.
pub fn die_around_core(core_width: i32, core_height: i32, m: Margins) -> (r: Rect)
    requires
        around(core_width as int, core_height as int, m).fits(),
    ensures
        r@ == around(core_width as int, core_height as int, m),
{
    Rect {
        x_min: 0,
        y_min: 0,
        x_max: (core_width as i64 + m.left as i64 + m.right as i64) as i32,
        y_max: (core_height as i64 + m.bottom as i64 + m.top as i64) as i32,
    }
}

/// Taking the margins off the die that was put around a core leaves a core of the same size.
pub proof fn law_margins_come_off_again(core_width: int, core_height: int, m: Margins)
    ensures
        inset(around(core_width, core_height, m), m).dx() == core_width,
        inset(around(core_width, core_height, m), m).dy() == core_height,
        inset(around(core_width, core_height, m), m).x_min == m.left,
        inset(around(core_width, core_height, m), m).y_min == m.bottom,
{
}

/// Where the die and the core come from.
#[derive(Debug, Clone, Copy, PartialEq, Eq, Structural)]
pub enum AreaRequest {
    /// Both are given.
    Given { die: Rect, core: Rect },
    /// The die is already set, and the core is given.
    OnDie { die: Rect, core: Rect },
    /// The die is already set, and the core is what the margins leave of it.
    InsideDie { die: Rect, margins: Margins },
    /// The die is derived from the size that the core has to have. It is snapped to the
    /// manufacturing grid before the core is taken back off it.
    Derived { core_width: i32, core_height: i32, margins: Margins },
}

/// Which form a request for areas takes.
#[derive(Debug, Clone, Copy, PartialEq, Eq, Structural)]
pub enum AreaForm {
    /// The die and the core are given.
    Given,
    /// The die is already set, and the core is given.
    OnDie,
    /// The die is already set, and the core is what margins leave of it.
    InsideDie,
    /// The die is derived from a utilization.
    Derived,
}

/// The form of a request. `make-rows` takes the core if it is given, else the margins; `run`
/// derives the die if there is a utilization.
pub fn area_form(make_rows: bool, has_core: bool, has_utilization: bool) -> (r: AreaForm)
    ensures
        r == (if make_rows {
            if has_core {
                AreaForm::OnDie
            } else {
                AreaForm::InsideDie
            }
        } else if has_utilization {
            AreaForm::Derived
        } else {
            AreaForm::Given
        }),
{
    if make_rows {
        if has_core {
            AreaForm::OnDie
        } else {
            AreaForm::InsideDie
        }
    } else if has_utilization {
        AreaForm::Derived
    } else {
        AreaForm::Given
    }
}

/// The die has no extent. Which form of the request found it so is told apart.
#[derive(Debug, Clone, Copy, PartialEq, Eq, Structural)]
pub enum EmptyDie {
    /// The core was given: IFP-63.
    CoreGiven,
    /// The core was to be what margins leave: IFP-64.
    CoreInset,
}

/// The die and the core that a request means.
pub open spec fn areas_of(
    request: AreaRequest,
    mfg_grid: Option<i32>,
) -> Result<(Area, Area), EmptyDie> {
    match request {
        AreaRequest::Given { die, core } => Ok((die@, core@)),
        AreaRequest::OnDie { die, core } => if die@.is_empty() {
            Err(EmptyDie::CoreGiven)
        } else {
            Ok((die@, core@))
        },
        AreaRequest::InsideDie { die, margins } => if die@.is_empty() {
            Err(EmptyDie::CoreInset)
        } else {
            Ok((die@, inset(die@, margins)))
        },
        AreaRequest::Derived { core_width, core_height, margins } => {
            let die = area_on_mfg_grid(
                around(core_width as int, core_height as int, margins),
                mfg_grid,
            );
            Ok((die, inset(die, margins)))
        },
    }
}

/// The die and the core can be written in database units.
pub open spec fn areas_fit(request: AreaRequest, mfg_grid: Option<i32>) -> bool {
    &&& request matches AreaRequest::Derived { core_width, core_height, margins } ==> around(
        core_width as int,
        core_height as int,
        margins,
    ).fits()
    &&& areas_of(request, mfg_grid) matches Ok((die, core)) ==> die.fits() && core.fits()
}

fn can_inset(die: Rect, m: Margins) -> (r: bool)
    ensures
        r == inset(die@, m).fits(),
{
    in_range(die.x_min as i64 + m.left as i64) && in_range(die.y_min as i64 + m.bottom as i64)
        && in_range(die.x_max as i64 - m.right as i64) && in_range(
        die.y_max as i64 - m.top as i64,
    )
}

/// Can the die and the core be written in database units?
pub fn can_place(request: AreaRequest, mfg_grid: Option<i32>) -> (r: bool)
    ensures
        r == areas_fit(request, mfg_grid),
{
    match request {
        AreaRequest::Given { .. } => true,
        AreaRequest::OnDie { .. } => true,
        AreaRequest::InsideDie { die, margins } => die.is_empty() || can_inset(die, margins),
        AreaRequest::Derived { core_width, core_height, margins } => {
            let width: i64 = core_width as i64 + margins.left as i64 + margins.right as i64;
            let height: i64 = core_height as i64 + margins.bottom as i64 + margins.top as i64;
            if !in_range(width) || !in_range(height) {
                return false;
            }
            let die: Rect = die_around_core(core_width, core_height, margins);
            if !can_snap(die, mfg_grid) {
                return false;
            }
            can_inset(snap_rect_to_mfg_grid(die, mfg_grid), margins)
        },
    }
}

/// The die and the core that a request means.
pub fn areas(request: AreaRequest, mfg_grid: Option<i32>) -> (r: Result<(Rect, Rect), EmptyDie>)
    requires
        areas_fit(request, mfg_grid),
    ensures
        match r {
            Ok((die, core)) => areas_of(request, mfg_grid) == Ok::<_, EmptyDie>((die@, core@)),
            Err(e) => areas_of(request, mfg_grid) == Err::<(Area, Area), _>(e),
        },
{
    match request {
        AreaRequest::Given { die, core } => Ok((die, core)),
        AreaRequest::OnDie { die, core } => if die.is_empty() {
            Err(EmptyDie::CoreGiven)
        } else {
            Ok((die, core))
        },
        AreaRequest::InsideDie { die, margins } => if die.is_empty() {
            Err(EmptyDie::CoreInset)
        } else {
            Ok((die, core_from_die_spacing(die, margins)))
        },
        AreaRequest::Derived { core_width, core_height, margins } => {
            let die: Rect = snap_rect_to_mfg_grid(
                die_around_core(core_width, core_height, margins),
                mfg_grid,
            );
            Ok((die, core_from_die_spacing(die, margins)))
        },
    }
}

/// The content of a [`Refusal`].
#[verifier::ext_equal]
pub enum RefusalModel {
    BadGap(int),
    EmptyDie(EmptyDie),
    Unplannable(PlanErrorModel),
}

/// A verdict about the design: it cannot be floorplanned as asked.
#[derive(Debug)]
pub enum Refusal {
    /// The gap around voltage domains is not positive.
    BadGap(i32),
    /// The die that was to be used has no extent.
    EmptyDie(EmptyDie),
    /// No plan can be made.
    Unplannable(PlanError),
}

impl View for Refusal {
    type V = RefusalModel;

    open spec fn view(&self) -> RefusalModel {
        match *self {
            Refusal::BadGap(g) => RefusalModel::BadGap(g as int),
            Refusal::EmptyDie(e) => RefusalModel::EmptyDie(e),
            Refusal::Unplannable(e) => RefusalModel::Unplannable(e@),
        }
    }
}

/// A gap is refused unless it is positive, whether or not there is a domain to use it on. No gap
/// is another matter: the margin then follows from the site height.
pub open spec fn is_bad_gap(gap: Option<i32>) -> bool {
    gap matches Some(g) && g <= 0
}

/// Tests the gap around voltage domains.
pub fn check_gap(gap: Option<i32>) -> (r: Result<(), Refusal>)
    ensures
        r is Ok <==> !is_bad_gap(gap),
        r matches Err(e) ==> gap matches Some(g) && e@ == RefusalModel::BadGap(g as int),
{
    match gap {
        Some(g) => if g <= 0 {
            Err(Refusal::BadGap(g))
        } else {
            Ok(())
        },
        None => Ok(()),
    }
}

/// The floorplan that was asked for, or the first refusal: the gap, then the die, then the plan.
pub open spec fn floorplan_of(
    request: AreaRequest,
    gap: Option<i32>,
    sites: Seq<SiteModel>,
    parity: RowParity,
    flipped: Seq<Seq<char>>,
    mfg_grid: Option<i32>,
    instances: Seq<InstanceModel>,
) -> Result<PlanModel, RefusalModel> {
    if is_bad_gap(gap) {
        Err(RefusalModel::BadGap(gap.unwrap() as int))
    } else {
        match areas_of(request, mfg_grid) {
            Err(e) => Err(RefusalModel::EmptyDie(e)),
            Ok((die, core)) => match plan_of(
                die,
                core,
                sites,
                parity,
                flipped,
                mfg_grid,
                instances,
            ) {
                Ok(p) => Ok(p),
                Err(e) => Err(RefusalModel::Unplannable(e)),
            },
        }
    }
}

/// Plans what was asked for.
///
/// The gap is tested first, whether or not the design has a voltage domain to use it on.
pub fn floorplan(
    request: AreaRequest,
    gap: Option<i32>,
    sites: &[Site],
    parity: RowParity,
    flipped: &[String],
    mfg_grid: Option<i32>,
    instances: &[Instance],
) -> (r: Result<Plan, Refusal>)
    requires
        !is_bad_gap(gap) ==> {
            &&& areas_fit(request, mfg_grid)
            &&& areas_of(request, mfg_grid) matches Ok((die, core)) ==> plan_fits(
                die,
                core,
                site_models(sites@),
                parity,
                mfg_grid,
                instance_models(instances@),
            )
        },
    ensures
        floorplan_of(
            request,
            gap,
            site_models(sites@),
            parity,
            texts(flipped@),
            mfg_grid,
            instance_models(instances@),
        ) == (match r {
            Ok(p) => Ok(p@),
            Err(e) => Err(e@),
        }),
{
    match check_gap(gap) {
        Ok(()) => {},
        Err(e) => {
            return Err(e);
        },
    }
    match areas(request, mfg_grid) {
        Err(e) => Err(Refusal::EmptyDie(e)),
        Ok((die, core)) => match plan(die, core, sites, parity, flipped, mfg_grid, instances) {
            Ok(p) => Ok(p),
            Err(e) => Err(Refusal::Unplannable(e)),
        },
    }
}

/// What is said of a bad gap.
pub open spec fn bad_gap_notice(g: int) -> NoticeModel {
    plain(
        Severity::Error,
        "IFP-BAD-GAP"@,
        "IFP-0036 Gap must be positive ("@ + signed_decimal(g) + ")"@,
    )
}

/// What is said of a bad gap.
pub fn say_bad_gap(g: i32) -> (r: Notice)
    ensures
        r@ == bad_gap_notice(g as int),
{
    let mut out: String = String::from("IFP-0036 Gap must be positive (");
    push_signed(&mut out, g as i64);
    out.append(")");
    say(Severity::Error, "IFP-BAD-GAP", out)
}

/// What is said of a die without extent. The message tells which form of the request found it.
pub open spec fn empty_die_notice(e: EmptyDie) -> NoticeModel {
    plain(
        Severity::Error,
        "IFP-EMPTY-DIE"@,
        "IFP-"@ + (match e {
            EmptyDie::CoreGiven => "0063"@,
            EmptyDie::CoreInset => "0064"@,
        }) + " Floorplan die area is 0. Cannot build rows."@,
    )
}

/// What is said of a die without extent.
pub fn say_empty_die(e: EmptyDie) -> (r: Notice)
    ensures
        r@ == empty_die_notice(e),
{
    let number: &str = match e {
        EmptyDie::CoreGiven => "0063",
        EmptyDie::CoreInset => "0064",
    };
    let mut out: String = joined("IFP-", number);
    out.append(" Floorplan die area is 0. Cannot build rows.");
    say(Severity::Error, "IFP-EMPTY-DIE", out)
}

/// Which value a derived die cannot be derived from.
#[derive(Debug, Clone, Copy, PartialEq, Eq, Structural)]
pub enum DerivedFault {
    Utilization,
    AspectRatio,
    Bottom,
    Top,
    Left,
    Right,
}

/// The signs of the values that a die is derived from.
#[derive(Debug, Clone, Copy, PartialEq, Eq, Structural)]
pub struct DerivedSigns {
    pub negative_utilization: bool,
    pub nonpositive_aspect_ratio: bool,
    pub negative_bottom: bool,
    pub negative_top: bool,
    pub negative_left: bool,
    pub negative_right: bool,
}

/// The first value that a die cannot be derived from.
pub open spec fn derived_fault(s: DerivedSigns) -> Option<DerivedFault> {
    if s.negative_utilization {
        Some(DerivedFault::Utilization)
    } else if s.nonpositive_aspect_ratio {
        Some(DerivedFault::AspectRatio)
    } else if s.negative_bottom {
        Some(DerivedFault::Bottom)
    } else if s.negative_top {
        Some(DerivedFault::Top)
    } else if s.negative_left {
        Some(DerivedFault::Left)
    } else if s.negative_right {
        Some(DerivedFault::Right)
    } else {
        None
    }
}

/// The first value that a die cannot be derived from.
pub fn find_derived_fault(s: DerivedSigns) -> (r: Option<DerivedFault>)
    ensures
        r == derived_fault(s),
{
    if s.negative_utilization {
        Some(DerivedFault::Utilization)
    } else if s.nonpositive_aspect_ratio {
        Some(DerivedFault::AspectRatio)
    } else if s.negative_bottom {
        Some(DerivedFault::Bottom)
    } else if s.negative_top {
        Some(DerivedFault::Top)
    } else if s.negative_left {
        Some(DerivedFault::Left)
    } else if s.negative_right {
        Some(DerivedFault::Right)
    } else {
        None
    }
}

impl DerivedFault {
    /// The rule that the value breaks.
    pub open spec fn rule(self) -> Seq<char> {
        match self {
            DerivedFault::Utilization => "IFP-0012 utilization must be non-negative ("@,
            DerivedFault::AspectRatio => "IFP-0036 aspect_ratio must be positive ("@,
            DerivedFault::Bottom => "IFP-0032 core_space_bottom (um) must be non-negative ("@,
            DerivedFault::Top => "IFP-0033 core_space_top (um) must be non-negative ("@,
            DerivedFault::Left => "IFP-0034 core_space_left (um) must be non-negative ("@,
            DerivedFault::Right => "IFP-0035 core_space_right (um) must be non-negative ("@,
        }
    }

    /// The sentence that explains the fault of `value`.
    pub fn message(&self, value: &str) -> (r: String)
        ensures
            r@ == self.rule() + value@ + ")"@,
    {
        let rule: &str = match self {
            DerivedFault::Utilization => "IFP-0012 utilization must be non-negative (",
            DerivedFault::AspectRatio => "IFP-0036 aspect_ratio must be positive (",
            DerivedFault::Bottom => "IFP-0032 core_space_bottom (um) must be non-negative (",
            DerivedFault::Top => "IFP-0033 core_space_top (um) must be non-negative (",
            DerivedFault::Left => "IFP-0034 core_space_left (um) must be non-negative (",
            DerivedFault::Right => "IFP-0035 core_space_right (um) must be non-negative (",
        };
        let mut out: String = joined(rule, value);
        out.append(")");
        out
    }
}

/// What is said before a die is derived.
pub open spec fn derived_notice(utilization: Seq<char>, aspect_ratio: Seq<char>) -> NoticeModel {
    plain(
        Severity::Info,
        "IFP-DIE-FROM-UTILIZATION"@,
        "IFP-0107 Defining die area using utilization: "@ + utilization + "% and aspect ratio: "@
            + aspect_ratio + "."@,
    )
}

/// What is said before a die is derived.
pub fn say_derived(utilization: &str, aspect_ratio: &str) -> (r: Notice)
    ensures
        r@ == derived_notice(utilization@, aspect_ratio@),
{
    let mut out: String = joined("IFP-0107 Defining die area using utilization: ", utilization);
    out.append("% and aspect ratio: ");
    out.append(aspect_ratio);
    out.append(".");
    say(Severity::Info, "IFP-DIE-FROM-UTILIZATION", out)
}

/// What is asked for is what is planned in. Both areas are taken as given where both are given. On
/// a die that is already set the die stays, and the core is the one that was given, or each edge of
/// the die moved in by the margin of its own side. A die without extent is refused, with the form
/// of the request told apart.
pub proof fn law_the_areas_are_those_that_were_asked_for(
    die: Rect,
    core: Rect,
    m: Margins,
    mfg_grid: Option<i32>,
)
    ensures
        areas_of(AreaRequest::Given { die, core }, mfg_grid) == Ok::<_, EmptyDie>((die@, core@)),
        die.x_min < die.x_max && die.y_min < die.y_max ==> {
            &&& areas_of(AreaRequest::OnDie { die, core }, mfg_grid) == Ok::<_, EmptyDie>(
                (die@, core@),
            )
            &&& areas_of(AreaRequest::InsideDie { die, margins: m }, mfg_grid) matches Ok(
                (d, c),
            ) && {
                &&& d == die@
                &&& c.x_min - m.left == die.x_min
                &&& c.y_min - m.bottom == die.y_min
                &&& c.x_max + m.right == die.x_max
                &&& c.y_max + m.top == die.y_max
            }
        },
        !(die.x_min < die.x_max && die.y_min < die.y_max) ==> {
            &&& areas_of(AreaRequest::OnDie { die, core }, mfg_grid) == Err::<(Area, Area), _>(
                EmptyDie::CoreGiven,
            )
            &&& areas_of(AreaRequest::InsideDie { die, margins: m }, mfg_grid) == Err::<
                (Area, Area),
                _,
            >(EmptyDie::CoreInset)
        },
{
}

/// A derived die starts at the origin and holds the core and its margins; without a grid exactly,
/// and else with its far edges at the nearest grid points. The core is then taken off that die:
/// every margin is kept exactly.
pub proof fn law_a_derived_die_holds_the_core_and_its_margins(
    core_width: i32,
    core_height: i32,
    m: Margins,
    mfg_grid: Option<i32>,
)
    ensures
        areas_of(AreaRequest::Derived { core_width, core_height, margins: m }, mfg_grid) matches Ok(
            (die, core),
        ) && {
            let width = core_width + m.left + m.right;
            let height = core_height + m.bottom + m.top;
            &&& die.x_min == 0 && die.y_min == 0
            &&& core.x_min == m.left && core.y_min == m.bottom
            &&& die.x_max - core.x_max == m.right && die.y_max - core.y_max == m.top
            &&& mfg_grid is None ==> die.x_max == width && die.y_max == height
            &&& mfg_grid matches Some(g) ==> {
                &&& g <= 0 ==> die.x_max == width && die.y_max == height
                &&& g > 0 ==> {
                    &&& die.x_max % g as int == 0 && die.y_max % g as int == 0
                    &&& -g <= 2 * (die.x_max - width) <= g
                    &&& -g <= 2 * (die.y_max - height) <= g
                }
            }
        },
{
    if let Some(g) = mfg_grid {
        if g > 0 {
            let a = around(core_width as int, core_height as int, m);
            crate::geometry::law_the_manufacturing_grid_rounds_to_nearest(0, g as int);
            crate::geometry::law_the_manufacturing_grid_rounds_to_nearest(a.x_max, g as int);
            crate::geometry::law_the_manufacturing_grid_rounds_to_nearest(a.y_max, g as int);
        }
    }
}

/// A floorplan keeps the areas of its request: its core as requested is the core that was asked
/// for, inside the die that was asked for. A gap that is not positive is refused before anything
/// else, then a die without extent, and any other refusal is the planner's.
pub proof fn law_a_floorplan_keeps_its_request(
    request: AreaRequest,
    gap: Option<i32>,
    sites: Seq<SiteModel>,
    parity: RowParity,
    flipped: Seq<Seq<char>>,
    mfg_grid: Option<i32>,
    instances: Seq<InstanceModel>,
)
    ensures
        ({
            let r = floorplan_of(request, gap, sites, parity, flipped, mfg_grid, instances);
            let bad = gap matches Some(g) && g <= 0;
            &&& bad ==> r == Err::<PlanModel, _>(RefusalModel::BadGap(gap.unwrap() as int))
            &&& !bad ==> match areas_of(request, mfg_grid) {
                Err(e) => r == Err::<PlanModel, _>(RefusalModel::EmptyDie(e)),
                Ok((die, core)) => match r {
                    Ok(p) => {
                        &&& p.core_requested == core
                        &&& plan_of(die, core, sites, parity, flipped, mfg_grid, instances) == Ok::<
                            _,
                            PlanErrorModel,
                        >(p)
                    },
                    Err(e) => e matches RefusalModel::Unplannable(why) && plan_of(
                        die,
                        core,
                        sites,
                        parity,
                        flipped,
                        mfg_grid,
                        instances,
                    ) == Err::<PlanModel, _>(why),
                },
            }
        }),
{
}

/// A die is derived exactly where no value has the wrong sign; else the first such value, in the
/// order utilization, aspect ratio, bottom, top, left, right, is the one at fault.
pub proof fn law_the_first_wrong_sign_is_at_fault(s: DerivedSigns)
    ensures
        ({
            let signs = seq![
                s.negative_utilization,
                s.nonpositive_aspect_ratio,
                s.negative_bottom,
                s.negative_top,
                s.negative_left,
                s.negative_right,
            ];
            let faults = seq![
                DerivedFault::Utilization,
                DerivedFault::AspectRatio,
                DerivedFault::Bottom,
                DerivedFault::Top,
                DerivedFault::Left,
                DerivedFault::Right,
            ];
            &&& derived_fault(s) is None <==> forall|i: int| 0 <= i < 6 ==> !#[trigger] signs[i]
            &&& forall|i: int|
                0 <= i < 6 && #[trigger] signs[i] && (forall|k: int|
                    0 <= k < i ==> !#[trigger] signs[k]) ==> derived_fault(s) == Some(faults[i])
        }),
{
    let signs = seq![
        s.negative_utilization,
        s.nonpositive_aspect_ratio,
        s.negative_bottom,
        s.negative_top,
        s.negative_left,
        s.negative_right,
    ];
    assert(signs[0] == s.negative_utilization && signs[1] == s.nonpositive_aspect_ratio);
    assert(signs[2] == s.negative_bottom && signs[3] == s.negative_top);
    assert(signs[4] == s.negative_left && signs[5] == s.negative_right);
}

/// Each margin lies between the die's edge and the core's on its own side, and a die is put around
/// a core with room for the margins on both sides of each axis.
pub proof fn law_each_margin_is_on_its_side(die: Area, m: Margins, w: int, h: int)
    ensures
        inset(die, m).x_min - die.x_min == m.left,
        inset(die, m).y_min - die.y_min == m.bottom,
        die.x_max - inset(die, m).x_max == m.right,
        die.y_max - inset(die, m).y_max == m.top,
        around(w, h, m).x_min == 0 && around(w, h, m).y_min == 0,
        around(w, h, m).x_max - m.left - m.right == w,
        around(w, h, m).y_max - m.bottom - m.top == h,
{
}

/// `make-rows` stays on the die that is set, with the core that is given, else inside the margins,
/// whatever else is given. `run` derives the die where it has a utilization, and else takes what is
/// given.
pub proof fn law_the_command_settles_the_form(core: bool, utilization: bool, form: AreaForm)
    ensures
        call_ensures(area_form, (true, core, utilization), form) ==> (form == AreaForm::OnDie
            <==> core) && (form == AreaForm::InsideDie <==> !core),
        call_ensures(area_form, (false, core, utilization), form) ==> (form == AreaForm::Derived
            <==> utilization) && (form == AreaForm::Given <==> !utilization),
{
}

/// A gap must be positive where it is given, and is refused with its value else.
pub proof fn law_a_gap_must_be_positive(gap: Option<i32>, r: Result<(), Refusal>)
    requires
        call_ensures(check_gap, (gap,), r),
    ensures
        gap is None ==> r is Ok,
        gap matches Some(g) ==> {
            &&& g >= 1 ==> r is Ok
            &&& g < 1 ==> (r matches Err(e) && e@ == RefusalModel::BadGap(g as int))
        },
{
}

/// What is said of a request: a bad gap with its value, an empty die by the form that found it, a
/// derived die by what it is derived from, and a wrong value by the rule that it breaks.
pub proof fn law_what_is_said_of_a_request(
    g: int,
    utilization: Seq<char>,
    aspect_ratio: Seq<char>,
)
    ensures
        ({
            let gap = bad_gap_notice(g);
            let given = empty_die_notice(EmptyDie::CoreGiven);
            let left = empty_die_notice(EmptyDie::CoreInset);
            let derived = derived_notice(utilization, aspect_ratio);
            &&& gap.severity == Severity::Error && gap.code == "IFP-BAD-GAP"@
            &&& gap.text == "IFP-0036 Gap must be positive ("@ + signed_decimal(g) + ")"@
            &&& given.severity == Severity::Error && given.code == "IFP-EMPTY-DIE"@
            &&& left.severity == Severity::Error && left.code == "IFP-EMPTY-DIE"@
            &&& given.text == "IFP-"@ + "0063"@ + " Floorplan die area is 0. Cannot build rows."@
            &&& left.text == "IFP-"@ + "0064"@ + " Floorplan die area is 0. Cannot build rows."@
            &&& derived.severity == Severity::Info
            &&& derived.code == "IFP-DIE-FROM-UTILIZATION"@
            &&& derived.text == "IFP-0107 Defining die area using utilization: "@ + utilization
                + "% and aspect ratio: "@ + aspect_ratio + "."@
        }),
        DerivedFault::Utilization.rule() == "IFP-0012 utilization must be non-negative ("@,
        DerivedFault::AspectRatio.rule() == "IFP-0036 aspect_ratio must be positive ("@,
        DerivedFault::Bottom.rule() == "IFP-0032 core_space_bottom (um) must be non-negative ("@,
        DerivedFault::Top.rule() == "IFP-0033 core_space_top (um) must be non-negative ("@,
        DerivedFault::Left.rule() == "IFP-0034 core_space_left (um) must be non-negative ("@,
        DerivedFault::Right.rule() == "IFP-0035 core_space_right (um) must be non-negative ("@,
{
}

/// A request fits as soon as every edge that it leads to is in the 32-bit range. Where the die and
/// the core are given, or the die is refused, it fits anyway.
pub proof fn law_a_request_in_range_fits(
    die: Rect,
    core: Rect,
    m: Margins,
    w: i32,
    h: i32,
    mfg_grid: Option<i32>,
)
    ensures
        areas_fit(AreaRequest::Given { die, core }, mfg_grid),
        areas_fit(AreaRequest::OnDie { die, core }, mfg_grid),
        inset(die@, m).fits() || die@.is_empty() ==> areas_fit(
            AreaRequest::InsideDie { die, margins: m },
            mfg_grid,
        ),
        ({
            let around = around(w as int, h as int, m);
            let snapped = area_on_mfg_grid(around, mfg_grid);
            around.fits() && snapped.fits() && inset(snapped, m).fits() ==> areas_fit(
                AreaRequest::Derived { core_width: w, core_height: h, margins: m },
                mfg_grid,
            )
        }),
{
}

} // verus!
