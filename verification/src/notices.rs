//! What is said about a floorplan: the events of a run, in order.
//!
//! Coordinates are said in microns. How a coordinate reads in microns is the caller's to say.

use crate::geometry::{Area, Rect};
use crate::model::{site_count, site_counts, texts, Plan, PlanModel};
use crate::text::{decimal, joined, push_decimal, push_signed, signed_decimal};
use vstd::prelude::*;

verus! {

/// How much a notice matters.
#[derive(Debug, Clone, Copy, PartialEq, Eq, Structural)]
pub enum Severity {
    Info,
    Warn,
    Error,
}

/// The content of a [`Notice`].
#[verifier::ext_equal]
pub struct NoticeModel {
    pub severity: Severity,
    pub code: Seq<char>,
    pub text: Seq<char>,
    pub objects: Seq<Seq<char>>,
}

/// One thing said.
#[derive(Debug, Clone, PartialEq, Eq)]
pub struct Notice {
    pub severity: Severity,
    /// Which sort of notice this is, for queries.
    pub code: String,
    pub text: String,
    /// The design objects that the notice is about.
    pub objects: Vec<String>,
}

impl View for Notice {
    type V = NoticeModel;

    open spec fn view(&self) -> NoticeModel {
        NoticeModel {
            severity: self.severity,
            code: self.code@,
            text: self.text@,
            objects: texts(self.objects@),
        }
    }
}

/// The contents of a list of notices.
pub open spec fn notice_models(notices: Seq<Notice>) -> Seq<NoticeModel> {
    notices.map_values(|n: Notice| n@)
}

/// A notice about no object in particular.
pub open spec fn plain(severity: Severity, code: Seq<char>, text: Seq<char>) -> NoticeModel {
    NoticeModel { severity, code, text, objects: Seq::empty() }
}

/// A notice about one object.
pub open spec fn about(
    severity: Severity,
    code: Seq<char>,
    text: Seq<char>,
    object: Seq<char>,
) -> NoticeModel {
    NoticeModel { severity, code, text, objects: seq![object] }
}

/// A notice about no object in particular.
pub fn say(severity: Severity, code: &str, text: String) -> (r: Notice)
    ensures
        r@ == plain(severity, code@, text@),
{
    let r = Notice { severity, code: String::from(code), text, objects: Vec::new() };
    assert(r@ =~= plain(severity, code@, text@));
    r
}

/// A notice about one object: `group` is what precedes its name.
pub(crate) fn say_about(
    severity: Severity,
    code: &str,
    text: String,
    group: &str,
    name: &str,
) -> (r: Notice)
    ensures
        r@ == about(severity, code@, text@, group@ + name@),
{
    let mut objects: Vec<String> = Vec::new();
    objects.push(joined(group, name));
    let r = Notice { severity, code: String::from(code), text, objects };
    assert(r@ =~= about(severity, code@, text@, group@ + name@));
    r
}

pub(crate) fn push_notice(out: &mut Vec<Notice>, n: Notice)
    ensures
        notice_models(final(out)@) == notice_models(old(out)@).push(n@),
{
    let ghost before = out@;
    out.push(n);
    assert(notice_models(out@) =~= notice_models(before).push(n@));
}

/// `um` can be asked how any coordinate reads in microns.
pub open spec fn can_read<M: Fn(i32) -> String>(um: M) -> bool {
    forall|v: i32| #[trigger] call_requires(um, (v,))
}

/// `um` never says otherwise than `f` how a coordinate reads in microns.
pub open spec fn reads_as<M: Fn(i32) -> String>(um: M, f: spec_fn(int) -> Seq<char>) -> bool {
    forall|v: i32, s: String| #[trigger] call_ensures(um, (v,), s) ==> s@ == f(v as int)
}

pub(crate) fn in_microns<M: Fn(i32) -> String>(um: &M, v: i32) -> (r: String)
    requires
        can_read(*um),
    ensures
        forall|f: spec_fn(int) -> Seq<char>| #[trigger] reads_as(*um, f) ==> r@ == f(v as int),
{
    um(v)
}

/// Two coordinates with `mid` between them.
pub open spec fn pair_text(
    um: spec_fn(int) -> Seq<char>,
    x: int,
    mid: Seq<char>,
    y: int,
) -> Seq<char> {
    um(x) + mid + um(y)
}

pub(crate) fn pair_in_microns<M: Fn(i32) -> String>(
    um: &M,
    x: i32,
    mid: &str,
    y: i32,
) -> (r: String)
    requires
        can_read(*um),
    ensures
        forall|f: spec_fn(int) -> Seq<char>| #[trigger]
            reads_as(*um, f) ==> r@ == pair_text(f, x as int, mid@, y as int),
{
    let mut out: String = in_microns(um, x);
    out.append(mid);
    out.append(in_microns(um, y).as_str());
    out
}

/// The core's lower left moved.
pub open spec fn snap_text(
    head: Seq<char>,
    um: spec_fn(int) -> Seq<char>,
    from: Area,
    to: Area,
) -> Seq<char> {
    head + " lower left ("@ + pair_text(um, from.x_min, ", "@, from.y_min) + ") snapped to ("@
        + pair_text(um, to.x_min, ", "@, to.y_min) + ")."@
}

pub(crate) fn snapped_in_microns<M: Fn(i32) -> String>(
    head: &str,
    um: &M,
    from: Rect,
    to: Rect,
) -> (r: String)
    requires
        can_read(*um),
    ensures
        forall|f: spec_fn(int) -> Seq<char>| #[trigger]
            reads_as(*um, f) ==> r@ == snap_text(head@, f, from@, to@),
{
    let mut out: String = joined(head, " lower left (");
    out.append(pair_in_microns(um, from.x_min, ", ", from.y_min).as_str());
    out.append(") snapped to (");
    out.append(pair_in_microns(um, to.x_min, ", ", to.y_min).as_str());
    out.append(").");
    out
}

/// A site without rows.
pub open spec fn no_rows_text(site: Seq<char>) -> Seq<char> {
    "IFP-0061 No rows created for site "@ + site + "."@
}

pub(crate) fn no_rows_for(site: &str) -> (r: String)
    ensures
        r@ == no_rows_text(site@),
{
    let mut out: String = joined("IFP-0061 No rows created for site ", site);
    out.append(".");
    out
}

/// The rows of one site. A site that tiled nothing is said out loud.
pub open spec fn site_notice(
    site: Seq<char>,
    count: int,
    across: int,
    from_pattern: bool,
) -> NoticeModel {
    let object = "site:"@ + site;
    if count == 0 {
        about(Severity::Warn, "IFP-NO-ROWS-SITE"@, no_rows_text(site), object)
    } else if from_pattern {
        about(
            Severity::Info,
            "IFP-HYBRID-ROWS"@,
            "IFP-0050 Added "@ + signed_decimal(count) + " rows of site "@ + site + "."@,
            object,
        )
    } else {
        about(
            Severity::Info,
            "IFP-ROWS"@,
            "IFP-0001 Added "@ + signed_decimal(count) + " rows of "@ + signed_decimal(across)
                + " site "@ + site + "."@,
            object,
        )
    }
}

fn say_site(site: &str, count: i32, across: i32, from_pattern: bool) -> (r: Notice)
    ensures
        r@ == site_notice(site@, count as int, across as int, from_pattern),
{
    if count == 0 {
        return say_about(Severity::Warn, "IFP-NO-ROWS-SITE", no_rows_for(site), "site:", site);
    }
    if from_pattern {
        let mut out = String::from("IFP-0050 Added ");
        push_signed(&mut out, count as i64);
        out.append(" rows of site ");
        out.append(site);
        out.append(".");
        say_about(Severity::Info, "IFP-HYBRID-ROWS", out, "site:", site)
    } else {
        let mut out = String::from("IFP-0001 Added ");
        push_signed(&mut out, count as i64);
        out.append(" rows of ");
        push_signed(&mut out, across as i64);
        out.append(" site ");
        out.append(site);
        out.append(".");
        say_about(Severity::Info, "IFP-ROWS", out, "site:", site)
    }
}

/// The rows of every site in turn.
pub open spec fn site_notices(
    counts: Seq<(Seq<char>, int)>,
    across: int,
    from_pattern: bool,
) -> Seq<NoticeModel> {
    Seq::new(counts.len(), |i: int| site_notice(counts[i].0, counts[i].1, across, from_pattern))
}

/// How the areas that are no coordinates read: the core's and the design's in square microns, and
/// the share of the one that the other takes.
pub struct AreaTexts {
    pub core: String,
    pub design: String,
    pub utilization: String,
}

/// A box in microns.
pub open spec fn bbox_text(
    head: Seq<char>,
    um: spec_fn(int) -> Seq<char>,
    a: Area,
) -> Seq<char> {
    head + pair_text(um, a.x_min, " "@, a.y_min) + " ) ( "@ + pair_text(
        um,
        a.x_max,
        " "@,
        a.y_max,
    ) + " ) um"@
}

fn bbox_in_microns<M: Fn(i32) -> String>(head: &str, um: &M, a: Rect) -> (r: String)
    requires
        can_read(*um),
    ensures
        forall|f: spec_fn(int) -> Seq<char>| #[trigger]
            reads_as(*um, f) ==> r@ == bbox_text(head@, f, a@),
{
    let mut out: String = joined(head, pair_in_microns(um, a.x_min, " ", a.y_min).as_str());
    out.append(" ) ( ");
    out.append(pair_in_microns(um, a.x_max, " ", a.y_max).as_str());
    out.append(" ) um");
    out
}

/// There is a core to divide by: both extents have the same sign, and neither is zero.
pub open spec fn has_area(a: Area) -> bool {
    (a.dx() > 0 && a.dy() > 0) || (a.dx() < 0 && a.dy() < 0)
}

/// The census after a floorplan. Utilization is said only where there is a core to divide by.
pub open spec fn census(
    die: Area,
    core: Area,
    um: spec_fn(int) -> Seq<char>,
    core_area: Seq<char>,
    design_area: Seq<char>,
    utilization: Seq<char>,
    instances: nat,
) -> Seq<NoticeModel> {
    let boxes = seq![
        plain(Severity::Info, "IFP-CENSUS-DIE"@, bbox_text("IFP-0100 Die BBox: ( "@, um, die)),
        plain(Severity::Info, "IFP-CENSUS-CORE"@, bbox_text("IFP-0101 Core BBox: ( "@, um, core)),
        plain(
            Severity::Info,
            "IFP-CENSUS-AREA"@,
            "IFP-0102 Core area: "@ + core_area + " um^2"@,
        ),
        plain(
            Severity::Info,
            "IFP-CENSUS-DESIGN-AREA"@,
            "IFP-0103 Total instances area: "@ + design_area + " um^2"@,
        ),
    ];
    let share = plain(
        Severity::Info,
        "IFP-CENSUS-UTIL"@,
        "IFP-0104 Effective utilization: "@ + utilization,
    );
    let number = plain(
        Severity::Info,
        "IFP-CENSUS-INSTS"@,
        "IFP-0105 Number of instances: "@ + decimal(instances),
    );
    if has_area(core) {
        boxes.push(share).push(number)
    } else {
        boxes.push(number)
    }
}

/// The census after a floorplan.
///
/// Utilization is left out rather than said as infinity when there is no core to divide by.
pub fn census_notices<M: Fn(i32) -> String>(
    die: Rect,
    core: Rect,
    um: &M,
    areas: &AreaTexts,
    instances: usize,
) -> (r: Vec<Notice>)
    requires
        can_read(*um),
    ensures
        forall|f: spec_fn(int) -> Seq<char>| #[trigger]
            reads_as(*um, f) ==> notice_models(r@) == census(
                die@,
                core@,
                f,
                areas.core@,
                areas.design@,
                areas.utilization@,
                instances as nat,
            ),
{
    let mut out: Vec<Notice> = Vec::new();
    assert(notice_models(out@) =~= Seq::<NoticeModel>::empty());
    push_notice(
        &mut out,
        say(
            Severity::Info,
            "IFP-CENSUS-DIE",
            bbox_in_microns("IFP-0100 Die BBox: ( ", um, die),
        ),
    );
    push_notice(
        &mut out,
        say(
            Severity::Info,
            "IFP-CENSUS-CORE",
            bbox_in_microns("IFP-0101 Core BBox: ( ", um, core),
        ),
    );
    let mut area: String = joined("IFP-0102 Core area: ", areas.core.as_str());
    area.append(" um^2");
    push_notice(&mut out, say(Severity::Info, "IFP-CENSUS-AREA", area));
    let mut design: String = joined("IFP-0103 Total instances area: ", areas.design.as_str());
    design.append(" um^2");
    push_notice(&mut out, say(Severity::Info, "IFP-CENSUS-DESIGN-AREA", design));
    let (dx, dy): (i64, i64) = (core.wide_dx(), core.wide_dy());
    if (dx > 0 && dy > 0) || (dx < 0 && dy < 0) {
        push_notice(
            &mut out,
            say(
                Severity::Info,
                "IFP-CENSUS-UTIL",
                joined("IFP-0104 Effective utilization: ", areas.utilization.as_str()),
            ),
        );
    }
    let mut number: String = String::from("IFP-0105 Number of instances: ");
    push_decimal(&mut number, instances as u64);
    push_notice(&mut out, say(Severity::Info, "IFP-CENSUS-INSTS", number));
    proof {
        assert forall|f: spec_fn(int) -> Seq<char>| #[trigger] reads_as(*um, f) implies
            notice_models(out@) == census(
            die@,
            core@,
            f,
            areas.core@,
            areas.design@,
            areas.utilization@,
            instances as nat,
        ) by {
            assert(notice_models(out@) =~= census(
                die@,
                core@,
                f,
                areas.core@,
                areas.design@,
                areas.utilization@,
                instances as nat,
            ));
        }
    }
    out
}

/// The last line about a floorplan.
pub open spec fn done_text(
    applied: bool,
    rows: nat,
    core: Area,
    um: spec_fn(int) -> Seq<char>,
) -> Seq<char> {
    "floorplan "@ + (if applied {
        "applied"@
    } else {
        "planned"@
    }) + ": "@ + decimal(rows) + " row(s), core ("@ + pair_text(um, core.x_min, ", "@, core.y_min)
        + ") ("@ + pair_text(um, core.x_max, ", "@, core.y_max) + ") um"@
}

/// That the core's lower left moved, where it did.
pub open spec fn snap_story(p: PlanModel, um: spec_fn(int) -> Seq<char>) -> Seq<NoticeModel> {
    if p.core_was_snapped() {
        seq![
            plain(
                Severity::Warn,
                "IFP-CORE-SNAP"@,
                snap_text("IFP-0028 Core area"@, um, p.core_requested, p.core_snapped),
            ),
        ]
    } else {
        Seq::empty()
    }
}

/// How many rows the base pattern gave, where there is one.
pub open spec fn pattern_story(p: PlanModel) -> Seq<NoticeModel> {
    match p.pattern_rows {
        Some((base, n)) => seq![
            about(
                Severity::Info,
                "IFP-PATTERN-ROWS"@,
                "IFP-0049 Added "@ + signed_decimal(n) + " rows from site "@ + base
                    + " row pattern."@,
                "site:"@ + base,
            ),
        ],
        None => Seq::empty(),
    }
}

/// What is said about a plan: that the core's lower left moved, the rows of each site, the
/// census, and a last line.
pub open spec fn plan_story(
    p: PlanModel,
    um: spec_fn(int) -> Seq<char>,
    core_area: Seq<char>,
    design_area: Seq<char>,
    utilization: Seq<char>,
    applied: bool,
    instances: nat,
) -> Seq<NoticeModel> {
    let across = if p.rows.len() > 0 {
        p.rows[0].num_sites
    } else {
        0
    };
    snap_story(p, um) + pattern_story(p) + site_notices(
        p.rows_per_site,
        across,
        p.pattern_rows is Some,
    ) + census(
        p.die,
        p.core_final,
        um,
        core_area,
        design_area,
        utilization,
        instances,
    ) + seq![
        plain(
            Severity::Info,
            "IFP-DONE"@,
            done_text(applied, p.rows.len(), p.core_final, um),
        ),
    ]
}

fn say_pattern(base: &str, n: i32) -> (r: Notice)
    ensures
        r@ == about(
            Severity::Info,
            "IFP-PATTERN-ROWS"@,
            "IFP-0049 Added "@ + signed_decimal(n as int) + " rows from site "@ + base@
                + " row pattern."@,
            "site:"@ + base@,
        ),
{
    let mut out = String::from("IFP-0049 Added ");
    push_signed(&mut out, n as i64);
    out.append(" rows from site ");
    out.append(base);
    out.append(" row pattern.");
    say_about(Severity::Info, "IFP-PATTERN-ROWS", out, "site:", base)
}

fn say_done<M: Fn(i32) -> String>(applied: bool, rows: usize, core: Rect, um: &M) -> (r: Notice)
    requires
        can_read(*um),
    ensures
        forall|f: spec_fn(int) -> Seq<char>| #[trigger]
            reads_as(*um, f) ==> r@ == plain(
                Severity::Info,
                "IFP-DONE"@,
                done_text(applied, rows as nat, core@, f),
            ),
{
    let word: &str = if applied {
        "applied"
    } else {
        "planned"
    };
    let mut out: String = joined("floorplan ", word);
    out.append(": ");
    push_decimal(&mut out, rows as u64);
    out.append(" row(s), core (");
    out.append(pair_in_microns(um, core.x_min, ", ", core.y_min).as_str());
    out.append(") (");
    out.append(pair_in_microns(um, core.x_max, ", ", core.y_max).as_str());
    out.append(") um");
    say(Severity::Info, "IFP-DONE", out)
}

/// What is said about a plan, in order.
///
/// A hybrid floorplan reports its pattern rows first, then a line per hybrid site; a uniform one
/// reports a single line per site.
pub fn plan_notices<M: Fn(i32) -> String>(
    p: &Plan,
    um: &M,
    areas: &AreaTexts,
    applied: bool,
    instances: usize,
) -> (r: Vec<Notice>)
    requires
        can_read(*um),
    ensures
        forall|f: spec_fn(int) -> Seq<char>| #[trigger]
            reads_as(*um, f) ==> notice_models(r@) == plan_story(
                p@,
                f,
                areas.core@,
                areas.design@,
                areas.utilization@,
                applied,
                instances as nat,
            ),
{
    let mut out: Vec<Notice> = Vec::new();
    assert(notice_models(out@) =~= Seq::<NoticeModel>::empty());
    if p.core_was_snapped() {
        push_notice(
            &mut out,
            say(
                Severity::Warn,
                "IFP-CORE-SNAP",
                snapped_in_microns("IFP-0028 Core area", um, p.core_requested, p.core_snapped),
            ),
        );
    }
    let ghost snapped = notice_models(out@);
    assert forall|f: spec_fn(int) -> Seq<char>| #[trigger] reads_as(*um, f) implies snapped
        == snap_story(p@, f) by {
        assert(snapped =~= snap_story(p@, f));
    }
    if let Some(c) = &p.pattern_rows {
        push_notice(&mut out, say_pattern(c.0.as_str(), c.1));
    }
    let ghost pattern = pattern_story(p@);
    assert(notice_models(out@) =~= snapped + pattern);
    let across: i32 = if p.rows.len() > 0 {
        p.rows[0].num_sites
    } else {
        0
    };
    let from_pattern: bool = p.pattern_rows.is_some();
    let ghost counts = site_counts(p.rows_per_site@);
    let ghost lines = site_notices(counts, across as int, from_pattern);
    let mut i: usize = 0;
    while i < p.rows_per_site.len()
        invariant
            i <= p.rows_per_site@.len(),
            counts == site_counts(p.rows_per_site@),
            lines == site_notices(counts, across as int, from_pattern),
            notice_models(out@) =~= snapped + pattern + lines.take(i as int),
        decreases p.rows_per_site.len() - i,
    {
        let (name, n): (&String, i32) = (&p.rows_per_site[i].0, p.rows_per_site[i].1);
        let line: Notice = say_site(name.as_str(), n, across, from_pattern);
        proof {
            assert(counts[i as int] == site_count(p.rows_per_site@[i as int]));
            assert(line@ == lines[i as int]);
            assert(lines.take(i + 1) =~= lines.take(i as int).push(line@));
        }
        push_notice(&mut out, line);
        i = i + 1;
    }
    assert(lines.take(lines.len() as int) =~= lines);
    let ghost body = out@;
    let mut tail: Vec<Notice> = census_notices(p.die, p.core_final, um, areas, instances);
    let ghost count_lines = tail@;
    out.append(&mut tail);
    assert(notice_models(out@) =~= notice_models(body) + notice_models(count_lines));
    let done: Notice = say_done(applied, p.rows.len(), p.core_final, um);
    push_notice(&mut out, done);
    proof {
        if p.rows@.len() > 0 {
            assert(p@.rows[0] == p.rows@[0]@);
        }
        assert(p@.rows.len() == p.rows@.len());
        assert forall|f: spec_fn(int) -> Seq<char>| #[trigger] reads_as(*um, f) implies
            notice_models(out@) == plan_story(
            p@,
            f,
            areas.core@,
            areas.design@,
            areas.utilization@,
            applied,
            instances as nat,
        ) by {
            assert(snapped == snap_story(p@, f));
            assert(notice_models(out@) =~= plan_story(
                p@,
                f,
                areas.core@,
                areas.design@,
                areas.utilization@,
                applied,
                instances as nat,
            ));
        }
    }
    out
}

/// What is said of a plan, line by line: that the core's lower left moved, where it did; how many
/// rows the pattern gave, where there is one; one line for each site; the census; and a last line.
pub proof fn law_what_is_said_of_a_plan(
    p: PlanModel,
    um: spec_fn(int) -> Seq<char>,
    core_area: Seq<char>,
    design_area: Seq<char>,
    utilization: Seq<char>,
    applied: bool,
    instances: nat,
    i: int,
)
    ensures
        ({
            let story = plan_story(
                p,
                um,
                core_area,
                design_area,
                utilization,
                applied,
                instances,
            );
            let from = p.core_requested;
            let to = p.core_snapped;
            let a: int = if from.x_min != to.x_min || from.y_min != to.y_min {
                1
            } else {
                0
            };
            let b: int = if p.pattern_rows is Some {
                1
            } else {
                0
            };
            let c = a + b + p.rows_per_site.len();
            let dx = p.core_final.x_max - p.core_final.x_min;
            let dy = p.core_final.y_max - p.core_final.y_min;
            let d: int = if dx > 0 && dy > 0 || dx < 0 && dy < 0 {
                1
            } else {
                0
            };
            &&& story.len() == c + 6 + d
            &&& a == 1 ==> {
                &&& story[0].severity == Severity::Warn
                &&& story[0].code == "IFP-CORE-SNAP"@
                &&& story[0].text == "IFP-0028 Core area"@ + " lower left ("@ + (um(from.x_min)
                    + ", "@ + um(from.y_min)) + ") snapped to ("@ + (um(to.x_min) + ", "@ + um(
                    to.y_min,
                )) + ")."@
                &&& story[0].objects.len() == 0
            }
            &&& p.pattern_rows matches Some((base, n)) ==> {
                &&& story[a].severity == Severity::Info
                &&& story[a].code == "IFP-PATTERN-ROWS"@
                &&& story[a].text == "IFP-0049 Added "@ + signed_decimal(n) + " rows from site "@
                    + base + " row pattern."@
                &&& story[a].objects == seq!["site:"@ + base]
            }
            &&& 0 <= i < p.rows_per_site.len() ==> {
                let (site, n) = p.rows_per_site[i];
                let line = story[a + b + i];
                &&& line.objects == seq!["site:"@ + site]
                &&& n == 0 ==> {
                    &&& line.severity == Severity::Warn
                    &&& line.code == "IFP-NO-ROWS-SITE"@
                    &&& line.text == "IFP-0061 No rows created for site "@ + site + "."@
                }
                &&& n != 0 ==> line.severity == Severity::Info
                &&& n != 0 && b == 1 ==> line.code == "IFP-HYBRID-ROWS"@ && line.text
                    == "IFP-0050 Added "@ + signed_decimal(n) + " rows of site "@ + site + "."@
                &&& n != 0 && b == 0 && p.rows.len() > 0 ==> line.code == "IFP-ROWS"@ && line.text
                    == "IFP-0001 Added "@ + signed_decimal(n) + " rows of "@ + signed_decimal(
                    p.rows[0].num_sites,
                ) + " site "@ + site + "."@
            }
            &&& story[c].code == "IFP-CENSUS-DIE"@ && story[c].text == "IFP-0100 Die BBox: ( "@ + (
            um(p.die.x_min) + " "@ + um(p.die.y_min)) + " ) ( "@ + (um(p.die.x_max) + " "@ + um(
                p.die.y_max,
            )) + " ) um"@
            &&& story[c + 1].code == "IFP-CENSUS-CORE"@ && story[c + 1].text
                == "IFP-0101 Core BBox: ( "@ + (um(p.core_final.x_min) + " "@ + um(
                p.core_final.y_min,
            )) + " ) ( "@ + (um(p.core_final.x_max) + " "@ + um(p.core_final.y_max)) + " ) um"@
            &&& story[c + 2].code == "IFP-CENSUS-AREA"@ && story[c + 2].text
                == "IFP-0102 Core area: "@ + core_area + " um^2"@
            &&& story[c + 3].code == "IFP-CENSUS-DESIGN-AREA"@ && story[c + 3].text
                == "IFP-0103 Total instances area: "@ + design_area + " um^2"@
            &&& d == 1 ==> story[c + 4].code == "IFP-CENSUS-UTIL"@ && story[c + 4].text
                == "IFP-0104 Effective utilization: "@ + utilization
            &&& story[c + 4 + d].code == "IFP-CENSUS-INSTS"@ && story[c + 4 + d].text
                == "IFP-0105 Number of instances: "@ + decimal(instances)
            &&& story[c + 5 + d].code == "IFP-DONE"@ && story[c + 5 + d].text == "floorplan "@ + (
            if applied {
                "applied"@
            } else {
                "planned"@
            }) + ": "@ + decimal(p.rows.len()) + " row(s), core ("@ + (um(p.core_final.x_min)
                + ", "@ + um(p.core_final.y_min)) + ") ("@ + (um(p.core_final.x_max) + ", "@ + um(
                p.core_final.y_max,
            )) + ") um"@
            &&& forall|k: int|
                c <= k < story.len() ==> (#[trigger] story[k]).severity == Severity::Info
                    && story[k].objects.len() == 0
        }),
{
    let across = if p.rows.len() > 0 {
        p.rows[0].num_sites
    } else {
        0
    };
    let head = snap_story(p, um) + pattern_story(p);
    let lines = site_notices(p.rows_per_site, across, p.pattern_rows is Some);
    let counts = census(
        p.die,
        p.core_final,
        um,
        core_area,
        design_area,
        utilization,
        instances,
    );
    let done = seq![
        plain(
            Severity::Info,
            "IFP-DONE"@,
            done_text(applied, p.rows.len(), p.core_final, um),
        ),
    ];
    let story = plan_story(p, um, core_area, design_area, utilization, applied, instances);
    assert(story == head + lines + counts + done);
    let c: int = head.len() as int + lines.len();
    assert forall|k: int| 0 <= k < counts.len() implies #[trigger] counts[k] == story[c + k] by {}
    if 0 <= i < p.rows_per_site.len() {
        assert(lines[i] == story[head.len() + i]);
    }
    assert forall|k: int| c <= k < story.len() implies (#[trigger] story[k]).severity
        == Severity::Info && story[k].objects.len() == 0 by {
        if k - c < counts.len() {
            assert(counts[k - c] == story[k]);
        }
    }
    assert(counts[0] == story[c] && counts[1] == story[c + 1]);
    assert(counts[2] == story[c + 2] && counts[3] == story[c + 3] && counts[4] == story[c + 4]);
}

/// A notice is known by what it stores. A function reads coordinates as soon as it takes every one
/// of them, and it reads them as `f` does as soon as it never says otherwise.
pub proof fn law_what_reading_means<M: Fn(i32) -> String>(
    um: M,
    f: spec_fn(int) -> Seq<char>,
    n: Notice,
    list: Seq<Notice>,
    i: int,
)
    ensures
        (forall|v: i32| #[trigger] call_requires(um, (v,))) ==> can_read(um),
        (forall|v: i32, s: String| #[trigger] call_ensures(um, (v,), s) ==> s@ == f(v as int))
            ==> reads_as(um, f),
        n@.severity == n.severity && n@.code == n.code@ && n@.text == n.text@,
        n@.objects.len() == n.objects@.len(),
        0 <= i < n.objects@.len() ==> n@.objects[i] == n.objects@[i]@,
        notice_models(list).len() == list.len(),
        0 <= i < list.len() ==> notice_models(list)[i] == list[i]@,
{
}

} // verus!
