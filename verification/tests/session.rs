//! What surrounds a plan: sites, areas, domains, events, refusals and what is written.

use vyges_ifp::areas::{
    area_form, areas, can_place, check_gap, die_around_core, find_derived_fault, floorplan,
    say_bad_gap, say_derived, say_empty_die, AreaForm, AreaRequest, DerivedFault, DerivedSigns,
    EmptyDie, Margins, Refusal,
};
use vyges_ifp::command::Ending;
use vyges_ifp::geometry::can_snap;
use vyges_ifp::notices::{census_notices, plan_notices, AreaTexts, Notice, Severity};
use vyges_ifp::plan::can_plan;
use vyges_ifp::polygon::{
    box_notices, can_outline, can_start, outline_notices, polygon_form, polygon_start, polygon_steps, row_jobs,
    say_uneven, vertices, PolygonRefusal, PolygonStep,
};
use vyges_ifp::refusal::{refusal_notices, shortfall};
use vyges_ifp::sites::{add_used_sites, named_sites, SiteFault, SiteLookup, UsedSite};
use vyges_ifp::trackwork::{can_stack, can_track, LayerInfo, TrackJob};
use vyges_ifp::writing::{
    bounds_of, can_split, conclude, destination, pad_sites, split_plan_rows, status_word, voltage_domains, write_steps,
    Group, WriteStep,
};
use vyges_ifp::{
    core_from_die_spacing, plan, polygon_bbox, Domain, Instance, OrientedSite, Plan, PlanError,
    Rect, RowParity, Site,
};

fn um(v: i32) -> String {
    format!("{:.3}", f64::from(v) / 1000.0)
}

fn said(notices: &[Notice]) -> Vec<(Severity, &str, &str)> {
    notices.iter().map(|n| (n.severity, n.code.as_str(), n.text.as_str())).collect()
}

fn texts() -> AreaTexts {
    AreaTexts { core: "6.000".into(), design: "3.000".into(), utilization: "0.500".into() }
}

fn simple(core: Rect) -> Plan {
    plan(
        Rect::new(0, 0, 100_000, 100_000),
        core,
        &[Site::plain("S", 1_000, 2_000), Site::plain("T", 1_000, 80_000)],
        RowParity::Any,
        &[],
        None,
        &[],
    )
    .unwrap()
}

#[test]
fn the_story_of_a_uniform_plan() {
    let p = simple(Rect::new(500, 0, 10_000, 10_000));
    let story = plan_notices(&p, &um, &texts(), true, 7);
    assert_eq!(
        said(&story),
        vec![
            (
                Severity::Warn,
                "IFP-CORE-SNAP",
                "IFP-0028 Core area lower left (0.500, 0.000) snapped to (1.000, 0.000)."
            ),
            (Severity::Info, "IFP-ROWS", "IFP-0001 Added 5 rows of 9 site S."),
            (Severity::Warn, "IFP-NO-ROWS-SITE", "IFP-0061 No rows created for site T."),
            (
                Severity::Info,
                "IFP-CENSUS-DIE",
                "IFP-0100 Die BBox: ( 0.000 0.000 ) ( 100.000 100.000 ) um"
            ),
            (
                Severity::Info,
                "IFP-CENSUS-CORE",
                "IFP-0101 Core BBox: ( 1.000 0.000 ) ( 10.000 10.000 ) um"
            ),
            (Severity::Info, "IFP-CENSUS-AREA", "IFP-0102 Core area: 6.000 um^2"),
            (
                Severity::Info,
                "IFP-CENSUS-DESIGN-AREA",
                "IFP-0103 Total instances area: 3.000 um^2"
            ),
            (Severity::Info, "IFP-CENSUS-UTIL", "IFP-0104 Effective utilization: 0.500"),
            (Severity::Info, "IFP-CENSUS-INSTS", "IFP-0105 Number of instances: 7"),
            (
                Severity::Info,
                "IFP-DONE",
                "floorplan applied: 5 row(s), core (1.000, 0.000) (10.000, 10.000) um"
            ),
        ]
    );
    assert_eq!(story[1].objects, ["site:S"]);
    assert!(story[0].objects.is_empty());
}

#[test]
fn the_story_of_a_hybrid_plan() {
    let base = Site {
        name: "H".into(),
        width: 50,
        height: 400,
        row_pattern: vec![OrientedSite {
            site: "A".into(),
            orient: "R0".into(),
            width: 50,
            height: 400,
        }],
    };
    let p = plan(
        Rect::new(0, 0, 1000, 1000),
        Rect::new(0, 0, 500, 900),
        &[base],
        RowParity::Any,
        &[],
        None,
        &[],
    )
    .unwrap();
    let story = plan_notices(&p, &um, &texts(), false, 0);
    assert_eq!(
        said(&story)[..2],
        [
            (Severity::Info, "IFP-PATTERN-ROWS", "IFP-0049 Added 2 rows from site H row pattern."),
            (Severity::Info, "IFP-HYBRID-ROWS", "IFP-0050 Added 2 rows of site H."),
        ]
    );
    assert!(story.last().unwrap().text.starts_with("floorplan planned: 4 row(s)"));
}

#[test]
fn utilization_is_left_out_without_a_core() {
    let flat = Rect::new(0, 0, 10, 0);
    let lines = census_notices(flat, flat, &um, &texts(), 1);
    assert_eq!(lines.len(), 5);
    assert!(lines.iter().all(|n| n.code != "IFP-CENSUS-UTIL"));
    assert_eq!(census_notices(flat, Rect::new(0, 0, 1, 1), &um, &texts(), 1).len(), 6);
}

#[test]
fn a_refusal_is_said_with_what_came_before_it() {
    let site = Site::plain("S", 1_000, 2_000);
    let core = Rect::new(500, 0, 900, 900);
    let e = plan(
        Rect::new(0, 0, 10_000, 10_000),
        core,
        &[site.clone()],
        RowParity::Any,
        &[],
        None,
        &[],
    )
    .unwrap_err();
    assert_eq!(e, PlanError::NoRows);
    let short = shortfall(core, &[site]);
    let story = refusal_notices(&e, &short, &um);
    assert_eq!(
        said(&story),
        vec![
            (
                Severity::Warn,
                "IFP-CORE-SNAPPED",
                "IFP-0028 Core area lower left (0.500, 0.000) snapped to (1.000, 0.000)."
            ),
            (Severity::Warn, "IFP-NO-ROWS-FOR-SITE", "IFP-0061 No rows created for site S."),
            (Severity::Error, "IFP-NO-ROWS", "IFP-0065 No rows created in the core area."),
        ]
    );
    assert!(shortfall(core, &[]).is_none());
}

#[test]
fn every_refusal_has_its_code_and_words() {
    let core = Rect::new(0, 0, 1_000, 2_000);
    for (e, code, text) in [
        (
            PlanError::CoreNotInDie,
            "IFP-CORE-OUTSIDE-DIE",
            "die area must contain the core area",
        ),
        (PlanError::EmptyDieArea, "IFP-EMPTY-DIE", "die area is empty; cannot build rows"),
        (
            PlanError::ParityWithHybridRows,
            "IFP-PARITY-HYBRID",
            "IFP-0051 Constraining row parity is not supported for hybrid rows.",
        ),
        (
            PlanError::IncompatibleSite { site: "s".into(), base: "b".into() },
            "IFP-SITE-INCOMPATIBLE",
            "IFP-0048 Site s is incompatible with site b",
        ),
        (
            PlanError::DegenerateSite("s".into()),
            "IFP-BAD-SITE",
            "site s has zero width or height",
        ),
        (
            PlanError::SiteHeightNotMultiple { site: "s".into(), base: "b".into() },
            "IFP-BAD-SITE",
            "site s height is not a multiple of site b height",
        ),
        (
            PlanError::InstanceDoesNotFit { name: "m".into(), width: 5, height: 6, core },
            "IFP-INST-TOO-BIG",
            "IFP-0002 m (0.005um, 0.006um) does not fit in the core area: \
             (0.000um, 0.000um) - (1.000um, 2.000um)",
        ),
    ] {
        let story = refusal_notices(&e, &None, &um);
        assert_eq!(said(&story), vec![(Severity::Error, code, text)]);
    }
}

#[test]
fn named_sites_must_have_an_extent_and_a_readable_pattern() {
    let good = || SiteLookup { name: "S".into(), width: 1, height: 2, row_pattern: Some(vec![]) };
    let sites = named_sites(&[good()]).unwrap();
    assert_eq!(sites, vec![Site::plain("S", 1, 2)]);
    let unknown = SiteLookup { name: "x".into(), width: 0, height: -1, row_pattern: None };
    let e = named_sites(&[good(), unknown]).unwrap_err();
    assert!(matches!(e, SiteFault::NoExtent { .. }));
    assert_eq!(
        e.message(&["a".into(), "b".into()], "unused"),
        "site `x` is unknown or has no extent (0 x -1); the library defines: a, b"
    );
    let unread = SiteLookup { name: "y".into(), width: 1, height: 1, row_pattern: None };
    let e = named_sites(&[unread]).unwrap_err();
    assert_eq!(e.message(&[], "boom"), "cannot read the row pattern of `y`: boom");
}

#[test]
fn used_sites_join_the_named_ones() {
    let used = |name: &str, auto_placeable: bool, block: bool, w: i32| UsedSite {
        auto_placeable,
        block,
        site: Site::plain(name, w, 5),
    };
    let all = add_used_sites(
        vec![Site::plain("S", 1, 2)],
        &[
            used("S", true, false, 9),
            used("macro", true, true, 9),
            used("pad", false, false, 9),
            used("", true, false, 9),
            used("flat", true, false, 0),
            used("U", true, false, 9),
            used("U", true, false, 8),
        ],
    );
    assert_eq!(all, vec![Site::plain("S", 1, 2), Site::plain("U", 9, 5)]);
}

#[test]
fn the_die_and_the_core_come_from_the_request() {
    let m = Margins { bottom: 1, top: 2, left: 3, right: 4 };
    let die = Rect::new(0, 0, 100, 200);
    assert_eq!(core_from_die_spacing(die, m), Rect::new(3, 1, 96, 198));
    assert_eq!(die_around_core(50, 60, m), Rect::new(0, 0, 57, 63));
    let empty = Rect::new(5, 5, 5, 9);
    assert_eq!(areas(AreaRequest::Given { die: empty, core: die }, None), Ok((empty, die)));
    assert_eq!(
        areas(AreaRequest::OnDie { die: empty, core: die }, None),
        Err(EmptyDie::CoreGiven)
    );
    assert_eq!(
        areas(AreaRequest::InsideDie { die: empty, margins: m }, None),
        Err(EmptyDie::CoreInset)
    );
    assert_eq!(
        areas(AreaRequest::InsideDie { die, margins: m }, None),
        Ok((die, Rect::new(3, 1, 96, 198)))
    );
    assert_eq!(
        areas(
            AreaRequest::Derived { core_width: 50, core_height: 60, margins: m },
            Some(10)
        ),
        Ok((Rect::new(0, 0, 60, 60), Rect::new(3, 1, 56, 58)))
    );
}

#[test]
fn the_gap_is_tested_before_the_die() {
    let die = Rect::new(0, 0, 0, 0);
    let request = AreaRequest::OnDie { die, core: die };
    let sites = [Site::plain("S", 1, 2)];
    assert!(matches!(
        floorplan(request, Some(0), &sites, RowParity::Any, &[], None, &[]),
        Err(Refusal::BadGap(0))
    ));
    assert!(matches!(
        floorplan(request, Some(5), &sites, RowParity::Any, &[], None, &[]),
        Err(Refusal::EmptyDie(EmptyDie::CoreGiven))
    ));
    assert!(matches!(
        floorplan(
            AreaRequest::Given { die, core: die },
            None,
            &sites,
            RowParity::Any,
            &[],
            None,
            &[]
        ),
        Err(Refusal::Unplannable(PlanError::EmptyDieArea))
    ));
    let die = Rect::new(0, 0, 100, 100);
    let p = floorplan(
        AreaRequest::OnDie { die, core: die },
        Some(5),
        &sites,
        RowParity::Any,
        &[],
        None,
        &[],
    )
    .unwrap();
    assert_eq!(p.rows.len(), 50);
    assert!(check_gap(None).is_ok() && check_gap(Some(1)).is_ok());
    assert!(check_gap(Some(-1)).is_err());
    assert_eq!(say_bad_gap(-3).text, "IFP-0036 Gap must be positive (-3)");
    assert_eq!(
        say_empty_die(EmptyDie::CoreInset).text,
        "IFP-0064 Floorplan die area is 0. Cannot build rows."
    );
    assert_eq!(
        say_empty_die(EmptyDie::CoreGiven).text,
        "IFP-0063 Floorplan die area is 0. Cannot build rows."
    );
}

#[test]
fn a_derived_die_names_the_first_bad_value() {
    let ok = DerivedSigns {
        negative_utilization: false,
        nonpositive_aspect_ratio: false,
        negative_bottom: false,
        negative_top: false,
        negative_left: false,
        negative_right: false,
    };
    assert_eq!(find_derived_fault(ok), None);
    let all = DerivedSigns {
        negative_utilization: true,
        nonpositive_aspect_ratio: true,
        negative_bottom: true,
        negative_top: true,
        negative_left: true,
        negative_right: true,
    };
    let u = find_derived_fault(all).unwrap();
    assert_eq!(u.message("-1"), "IFP-0012 utilization must be non-negative (-1)");
    let a = find_derived_fault(DerivedSigns { negative_utilization: false, ..all }).unwrap();
    assert_eq!(a.message("0"), "IFP-0036 aspect_ratio must be positive (0)");
    let sides = [
        (
            DerivedSigns { negative_bottom: true, negative_top: true, ..ok },
            DerivedFault::Bottom,
            "IFP-0032 core_space_bottom (um) must be non-negative (-2)",
        ),
        (
            DerivedSigns { negative_top: true, negative_left: true, ..ok },
            DerivedFault::Top,
            "IFP-0033 core_space_top (um) must be non-negative (-2)",
        ),
        (
            DerivedSigns { negative_left: true, negative_right: true, ..ok },
            DerivedFault::Left,
            "IFP-0034 core_space_left (um) must be non-negative (-2)",
        ),
        (
            DerivedSigns { negative_right: true, ..ok },
            DerivedFault::Right,
            "IFP-0035 core_space_right (um) must be non-negative (-2)",
        ),
    ];
    for (signs, fault, text) in sides {
        assert_eq!(find_derived_fault(signs), Some(fault));
        assert_eq!(fault.message("-2"), text);
    }
    assert_eq!(
        say_derived("30.00", "1").text,
        "IFP-0107 Defining die area using utilization: 30.00% and aspect ratio: 1."
    );
}

#[test]
fn only_domain_groups_with_boundaries_are_domains() {
    let group = |name: &str, kind: &str, region: &str, bounds: Vec<Rect>| Group {
        name: name.into(),
        group_type: kind.into(),
        region: region.into(),
        bounds,
    };
    let b = || vec![Rect::new(5, 6, 7, 8), Rect::new(1, 9, 2, 10)];
    let found = voltage_domains(&[
        group("v", "VOLTAGE_DOMAIN", "r", b()),
        group("c", "PHYSICAL_CLUSTER", "r", b()),
        group("n", "POWER_DOMAIN", "", b()),
        group("e", "POWER_DOMAIN", "r", vec![]),
        group("p", "POWER_DOMAIN", "r", vec![Rect::new(0, 0, 1, 1)]),
    ]);
    assert_eq!(
        found,
        vec![
            Domain { name: "v".into(), bbox: Rect::new(1, 6, 7, 10) },
            Domain { name: "p".into(), bbox: Rect::new(0, 0, 1, 1) },
        ]
    );
    assert_eq!(bounds_of(&b()), Rect::new(1, 6, 7, 10));
}

#[test]
fn the_plan_is_split_by_what_its_sites_say() {
    let sites = [Site::plain("S", 10, 10)];
    let p = plan(
        Rect::new(0, 0, 1000, 1000),
        Rect::new(0, 0, 1000, 30),
        &sites,
        RowParity::Any,
        &[],
        None,
        &[],
    )
    .unwrap();
    let d = [Domain { name: "D".into(), bbox: Rect::new(400, 10, 600, 20) }];
    assert!(can_split(&p, &sites, &[], &d, Some(1)));
    assert!(split_plan_rows(&p, &sites, &[], &[], Some(1)).is_none());
    let split = split_plan_rows(&p, &sites, &[], &d, Some(1)).unwrap();
    let names: Vec<&str> = split.iter().map(|r| r.name.as_str()).collect();
    assert_eq!(
        names,
        vec!["ROW_0_1", "ROW_1_1", "ROW_2_1", "ROW_0_2", "ROW_1_2", "ROW_1_D", "ROW_2_2"]
    );
    let pads = pad_sites(&sites, &["PAD".to_string()]);
    assert_eq!(pads, ["S"]);
    assert!(pad_sites(&sites, &["CORE".to_string()]).is_empty());
    let kept = split_plan_rows(&p, &sites, &pads, &d, Some(1)).unwrap();
    assert_eq!(kept, p.rows);
    let far = [Domain { name: "D".into(), bbox: Rect::new(i32::MIN, 0, 1, 1) }];
    assert!(can_split(&p, &sites, &[], &far, None), "far off, but every piece fits");
    assert!(can_split(&p, &sites, &[], &d, Some(0)));
    let narrow = [Site::plain("S", 1, 10)];
    let p = plan(
        Rect::new(i32::MIN, 0, i32::MAX, 1000),
        Rect::new(-1_000_000_000, 0, 1_000_000_000, 30),
        &narrow,
        RowParity::Any,
        &[],
        None,
        &[],
    )
    .unwrap();
    let wide = |x_min: i32, x_max: i32| {
        [Domain { name: "D".into(), bbox: Rect::new(x_min, 0, x_max, 30) }]
    };
    assert!(can_split(&p, &narrow, &[], &wide(-1_000_000_000, 1_000_000_000), Some(1)));
    assert!(!can_split(&p, &narrow, &[], &wide(-2_000_000_000, 2_000_000_000), Some(1)));
    let pad = pad_sites(&narrow, &["PAD".to_string()]);
    assert!(can_split(&p, &narrow, &pad, &wide(-2_000_000_000, 2_000_000_000), Some(1)));
}

#[test]
fn rows_are_written_between_the_clearing_and_the_core() {
    let p = simple(Rect::new(0, 0, 10_000, 4_000));
    let steps = write_steps(&p, &None, true);
    assert_eq!(steps.len(), 6);
    assert!(matches!(steps[0], WriteStep::SetDie(d) if d == p.die));
    assert!(matches!(steps[1], WriteStep::ClearRows));
    assert!(matches!(&steps[2], WriteStep::CreateRow(r) if *r == p.rows[0]));
    assert!(matches!(&steps[3], WriteStep::CreateRow(r) if *r == p.rows[1]));
    assert!(matches!(steps[4], WriteStep::SetCore(c) if c == p.core_final));
    assert!(matches!(steps[5], WriteStep::CutRows));
    let split = Some(vec![p.rows[1].clone()]);
    let steps = write_steps(&p, &split, false);
    assert_eq!(steps.len(), 4);
    assert!(matches!(steps[0], WriteStep::ClearRows));
    assert!(matches!(&steps[1], WriteStep::CreateRow(r) if *r == p.rows[1]));
    assert_eq!(steps[1].failure("no"), "cannot create ROW_1: no");
    assert_eq!(steps[0].failure("no"), "cannot clear the existing rows: no");
    assert_eq!(steps[2].failure("no"), "cannot set the core area: no");
    assert_eq!(steps[3].failure("no"), "cannot cut the rows around the blockages: no");
    assert_eq!(WriteStep::SetDie(p.die).failure("no"), "cannot set the die area: no");
}

#[test]
fn a_dry_run_writes_nowhere() {
    assert_eq!(destination(true, "in", &Some("out".into())), None);
    assert_eq!(destination(false, "in", &Some("out".into())).as_deref(), Some("out"));
    assert_eq!(destination(false, "in", &None).as_deref(), Some("in"));
    assert_eq!((status_word(true), status_word(false)), ("planned", "applied"));
}

#[test]
fn outlines_are_looked_at_die_first() {
    let story = |d: usize, c: usize| {
        let (notices, sound) = outline_notices(d, c);
        (notices.iter().map(|n| n.text.clone()).collect::<Vec<_>>(), sound)
    };
    assert_eq!(
        story(0, 8),
        (vec!["IFP-0075 no -die_area specified for polygon floorplan.".to_string()], false)
    );
    assert_eq!(
        story(9, 8).0,
        ["IFP-0076 -die_area must have an even number of coordinates (x y pairs)."]
    );
    assert_eq!(
        story(6, 8).0,
        ["IFP-0077 -die_area must have at least 4 vertices (8 coordinates)."]
    );
    let announced = [
        "IFP-0005 Added 4 die polygon vertices to the list.",
        "IFP-0106 Initializing floorplan in polygon mode.",
    ];
    assert_eq!(story(8, 8), (announced.map(String::from).to_vec(), true));
    for (c, text) in [
        (0, "IFP-0085 no -core_area specified for polygonal floorplan."),
        (11, "IFP-0082 -core_area must have an even number of coordinates (x y pairs)."),
        (4, "IFP-0083 -core_area must have at least 4 vertices (8 coordinates)."),
    ] {
        let (lines, sound) = story(8, c);
        assert_eq!(lines[..2], announced);
        assert_eq!((lines[2].as_str(), sound), (text, false));
    }
}

#[test]
fn more_than_four_coordinates_make_a_polygon() {
    assert!(polygon_form(8, 4, false, false));
    assert!(polygon_form(4, 8, false, false));
    assert!(!polygon_form(4, 4, false, false));
    assert!(polygon_form(0, 8, false, false));
    assert!(!polygon_form(0, 8, true, false));
    assert!(!polygon_form(0, 8, false, true));
}

#[test]
fn vertices_are_put_on_the_grid() {
    let v = vertices(&[1, 9, 14, 16, 3], Some(10));
    assert_eq!(v, vec![(0, 10), (10, 20)]);
    assert_eq!(polygon_bbox(&[(5, 1), (-2, 7), (3, 3)]), Rect::new(-2, 1, 5, 7));
}

#[test]
fn a_polygon_floorplan_is_refused_in_order() {
    let die = Rect::new(0, 0, 100, 100);
    let core = Rect::new(5, 5, 90, 90);
    let site = Site::plain("S", 10, 20);
    let big = Instance {
        name: "m".into(),
        width: 500,
        height: 1,
        is_pad: false,
        is_cover: false,
        symmetry_r90: false,
    };
    let e = polygon_start(core, die, &[site.clone()], &[]).unwrap_err();
    assert_eq!(
        e.message(),
        "IFP-1004 Die area must contain the core polygon bounding box."
    );
    let e = polygon_start(die, core, &[], &[big]).unwrap_err();
    assert!(matches!(e, PolygonRefusal::Misfit(_)));
    assert!(e.message().starts_with("m (500, 1 DBU)"));
    let e = polygon_start(die, core, &[], &[]).unwrap_err();
    assert_eq!(e.message(), "no site to build rows from");
    let hybrid = Site {
        row_pattern: vec![OrientedSite {
            site: "A".into(),
            orient: "R0".into(),
            width: 10,
            height: 20,
        }],
        ..site.clone()
    };
    let e = polygon_start(die, core, &[hybrid], &[]).unwrap_err();
    assert_eq!(
        e.message(),
        "IFP-1000 Hybrid rows not yet supported with polygon-aware generation."
    );
    let b = polygon_start(die, core, &[site.clone()], &[]).unwrap();
    assert_eq!(b, Some(Rect::new(10, 20, 90, 90)));
    let notices = box_notices(core, b.unwrap(), &um);
    assert_eq!(
        said(&notices),
        vec![(
            Severity::Warn,
            "IFP-POLYGON-BBOX-SNAPPED",
            "IFP-1003 Core polygon bounding box lower left (0.005, 0.005) snapped to \
             (0.010, 0.020)."
        )]
    );
    assert!(box_notices(core, core, &um).is_empty());
    let low = Rect::new(-5, 5, 90, 90);
    assert_eq!(polygon_start(Rect::new(-9, 0, 99, 99), low, &[site], &[]).unwrap(), None);
}

#[test]
fn polygon_rows_are_asked_for_in_name_order() {
    let sites = [Site::plain("S", 10, 20), Site::plain("A", 10, 40)];
    let jobs = row_jobs(&sites, &["S".to_string()]).unwrap();
    let seen: Vec<(&str, bool)> = jobs.iter().map(|j| (j.site.name.as_str(), j.flipped)).collect();
    assert_eq!(seen, vec![("A", false), ("S", true)]);
    let uneven = [Site::plain("S", 10, 20), Site::plain("A", 10, 30)];
    let e = row_jobs(&uneven, &[]).unwrap_err();
    assert_eq!(
        say_uneven(e, &uneven[0], &um),
        "IFP-1001 Site A height 0.030um is not a multiple of site S height 0.020um."
    );
}

#[test]
fn a_polygon_floorplan_is_written_and_announced_in_order() {
    let p = simple(Rect::new(0, 0, 10_000, 2_000));
    let steps = polygon_steps(vec![(0, 0), (1, 1)], &p.rows, &[("S".to_string(), 1)], 4);
    assert_eq!(steps.len(), 7);
    assert!(matches!(&steps[0], PolygonStep::SetDie(d) if d.len() == 2));
    assert!(matches!(steps[1], PolygonStep::ClearRows));
    assert!(matches!(&steps[2], PolygonStep::CreateRow(r) if *r == p.rows[0]));
    assert!(matches!(&steps[3], PolygonStep::Announce(n)
        if n.text == "IFP-1002 Added 1 polygon-aware rows for site S."));
    assert!(matches!(steps[4], PolygonStep::SetCoreFromRows));
    assert!(matches!(steps[5], PolygonStep::CutRows));
    assert!(matches!(&steps[6], PolygonStep::Announce(n)
        if n.text == "IFP-0997 Completed polygon-aware row generation using 4 vertices"));
    assert_eq!(steps[0].failure("no"), "cannot set the polygon die area: no");
    assert_eq!(steps[2].failure("no"), "cannot create ROW_0: no");
}

#[test]
fn what_does_not_fit_in_database_units_is_told_beforehand() {
    let die = Rect::new(0, 0, 2_000_000, 2_000_000);
    let site = Site::plain("S", 380, 2800);
    let fits = |die: Rect, core: Rect, site: &Site, grid: Option<i32>| {
        can_plan(die, core, std::slice::from_ref(site), RowParity::Any, grid, &[])
    };
    let all = Rect::new(0, 0, i32::MAX, i32::MAX);
    assert!(fits(die, die, &site, None));
    assert!(fits(all, all, &site, None), "the whole range, where it is not left");
    assert!(!fits(all, all, &site, Some(10)), "the grid rounds up");
    assert!(can_snap(die, Some(7)) && !can_snap(all, Some(10)));
    let high = Rect::new(i32::MAX, i32::MAX, i32::MAX, i32::MAX);
    assert!(!fits(all, high, &site, None), "the core rounds up");
    let both = Rect::new(i32::MIN, i32::MIN, i32::MAX, i32::MAX);
    assert!(!fits(both, both, &Site::plain("S", 1, 2), None));
    assert!(!fits(both, both, &Site::plain("S", 2, 1), None));
    assert!(fits(both, both, &Site::plain("S", 3, 3), None));
    assert!(fits(both, both, &Site::plain("S", 0, 1), None), "refused before anything is counted");
    let odd = |height: i32| Site {
        row_pattern: vec![OrientedSite {
            site: "A".into(),
            orient: "R0".into(),
            width: 380,
            height,
        }],
        ..site.clone()
    };
    assert!(fits(die, die, &odd(2800), None));
    assert!(!fits(die, die, &odd(-1_000_000_000), None), "the pattern sinks below the range");
    let up = Rect::new(0, 0, 2_000_000_000, 2_000_000_000);
    let tall = Site { height: 1_500_000_000, ..odd(1_500_000_000) };
    assert!(fits(up, up, &tall, None));

    assert!(can_outline(&[0, 100, -100], Some(7)) && can_outline(&[0, i32::MIN], None));
    assert!(!can_outline(&[0, i32::MAX], Some(10)));
    let start = |core: Rect, site: &Site| can_start(core, core, std::slice::from_ref(site), &[]);
    assert!(start(die, &site) && !start(die, &Site::plain("S", 0, 2800)));
    assert!(!start(high, &site) && can_start(die, all, &[site.clone()], &[]));
    assert!(start(both, &site), "a core below the origin is not snapped");

    let m = Margins { bottom: 1, top: 1, left: 1, right: 1 };
    let inside = |die: Rect, margins: Margins| AreaRequest::InsideDie { die, margins };
    assert!(can_place(inside(die, m), None));
    assert!(can_place(inside(die, Margins { bottom: i32::MAX, ..m }), None));
    assert!(!can_place(inside(Rect::new(0, 1, 9, 9), Margins { bottom: i32::MAX, ..m }), None));
    let derived = |core_width: i32| AreaRequest::Derived { core_width, core_height: 5, margins: m };
    assert!(can_place(derived(5), Some(7)) && can_place(derived(i32::MAX - 2), None));
    assert!(!can_place(derived(i32::MAX - 1), None) && !can_place(derived(i32::MAX - 2), Some(10)));

    let job = |x_offset: i32, x_pitch: i32| TrackJob {
        layer: "m1".into(),
        x_offset,
        x_pitch,
        y_offset: 0,
        y_pitch: 1,
    };
    assert!(can_track(&job(0, 1), 0, die) && !can_track(&job(0, 0), 0, die));
    assert!(can_track(&job(3_000_000, 0), 0, die), "nothing is counted on a layer that is skipped");
    assert!(!can_track(&job(0, 1), 0, both));
    let layer = LayerInfo {
        name: "m1".into(),
        direction: "HORIZONTAL".into(),
        layer_type: "ROUTING".into(),
        routing_level: 1,
        x_offset: 0,
        x_pitch: 1,
        y_offset: 0,
        y_pitch: 36,
        first_last_pitch: 45,
    };
    assert!(can_stack(std::slice::from_ref(&layer), 0, Some(270)));
    assert!(can_stack(std::slice::from_ref(&layer), 0, Some(i32::MAX)));
    assert!(!can_stack(std::slice::from_ref(&layer), 90, Some(i32::MAX)));
    assert!(can_stack(&[LayerInfo { x_pitch: 0, ..layer }], 90, Some(i32::MAX)));
}

#[test]
fn the_form_of_a_request_follows_from_what_was_given() {
    assert_eq!(area_form(true, true, false), AreaForm::OnDie, "the core goes before margins");
    assert_eq!(area_form(true, false, true), AreaForm::InsideDie);
    assert_eq!(area_form(false, true, true), AreaForm::Derived);
    assert_eq!(area_form(false, true, false), AreaForm::Given);
}

#[test]
fn only_a_plan_that_is_applied_writes() {
    let plan = simple(Rect::new(0, 0, 10_000, 4_000));
    let count = plan.rows.len();
    let planned: Result<Plan, Refusal> = Ok(plan);
    let out = Some("out.odb".to_string());
    let w = conclude(&planned, &None, true, false, "in.odb", &None);
    assert_eq!((w.steps.len(), w.destination.as_deref()), (count + 4, Some("in.odb")));
    assert_eq!(w.ending, Ending::Applied);
    let w = conclude(&planned, &None, false, false, "in.odb", &out);
    assert_eq!((w.steps.len(), w.destination.as_deref()), (count + 3, Some("out.odb")));
    let w = conclude(&planned, &None, true, true, "in.odb", &out);
    assert!(w.steps.is_empty() && w.destination.is_none());
    assert_eq!(w.ending, Ending::Planned);
    let refused: Result<Plan, Refusal> = Err(Refusal::Unplannable(PlanError::NoRows));
    let w = conclude(&refused, &None, true, false, "in.odb", &out);
    assert!(w.steps.is_empty() && w.destination.is_none());
    assert_eq!(w.ending, Ending::Refused);
}
