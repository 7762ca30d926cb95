//! The library's laws on concrete values.

use vyges_ifp::geometry::snap_rect_to_mfg_grid;
use vyges_ifp::hybrid::plan_hybrid;
use vyges_ifp::order::sites_by_name;
use vyges_ifp::pattern::match_pattern;
use vyges_ifp::{
    apply_row_parity, check_instance_dimensions, div_ceil, flip_x, make_site_loc,
    non_uniform_track_origins, pattern_offset, plan, snap_core_lower_left, snap_to_mfg_grid,
    split_rows_for_domains, track_pattern, track_patterns, Domain, Instance, OrientedSite, Plan,
    PlanError, Rect, Row, RowParity, Site, TrackPattern, TrackSkip,
};

fn entry(site: &str, orient: &str, height: i32) -> OrientedSite {
    OrientedSite { site: site.into(), orient: orient.into(), width: 50, height }
}

fn hybrid(name: &str, height: i32, row_pattern: Vec<OrientedSite>) -> Site {
    Site { name: name.into(), width: 50, height, row_pattern }
}

fn geometry(sites: &[Site], core: Rect) -> Result<Plan, PlanError> {
    plan(Rect::new(0, 0, 1_000_000, 1_000_000), core, sites, RowParity::Any, &[], None, &[])
}

#[test]
fn the_manufacturing_grid_is_at_most_half_a_step_away() {
    for c in -50..50 {
        let s = snap_to_mfg_grid(c, Some(10));
        assert_eq!(s % 10, 0);
        assert!((s - c).abs() <= 5, "{c} -> {s}");
    }
    assert_eq!(snap_to_mfg_grid(-5, Some(10)), -10, "halfway goes away from zero");
    assert_eq!(snap_to_mfg_grid(-4, Some(10)), 0);
    assert_eq!(snap_to_mfg_grid(7, Some(-10)), 7);
    assert_eq!(snap_to_mfg_grid(i32::MAX, Some(1)), i32::MAX);
}

#[test]
fn snapping_again_changes_nothing() {
    let once = snap_rect_to_mfg_grid(Rect::new(-27, 4, 105, 996), Some(10));
    assert_eq!(once, Rect::new(-30, 0, 110, 1000));
    assert_eq!(snap_rect_to_mfg_grid(once, Some(10)), once);
}

#[test]
fn the_core_snap_goes_up_by_less_than_a_site() {
    let site = Site::plain("S", 7, 11);
    for x in 0..30 {
        let s = snap_core_lower_left(Rect::new(x, x, 100, 100), &site);
        assert!(s.x_min >= x && s.x_min < x + 7 && s.x_min % 7 == 0);
        assert!(s.y_min >= x && s.y_min < x + 11 && s.y_min % 11 == 0);
    }
    let negative = Rect::new(-3, 5, 100, 100);
    assert_eq!(snap_core_lower_left(negative, &site), negative, "a negative origin stays");
}

#[test]
fn divisions_round_up() {
    assert_eq!(div_ceil(7, 7), 1);
    assert_eq!(div_ceil(8, 7), 2);
    assert_eq!(div_ceil(0, 7), 0);
    assert_eq!(div_ceil(-8, 7), -1);
    assert_eq!(div_ceil(i32::MAX, 2), 1_073_741_824);
}

#[test]
fn site_locations_round_one_way_and_saturate() {
    for x in -30..30 {
        let down = make_site_loc(x, 7, true, 0);
        let up = make_site_loc(x, 7, false, 0);
        assert!(down <= x && x - down < 7 && up >= x && up - x < 7, "{x}");
    }
    assert_eq!(make_site_loc(-27, 10, true, 0), -30);
    assert_eq!(make_site_loc(-27, 10, false, 0), -20);
    assert_eq!(make_site_loc(i32::MAX, 10, false, 0), i32::MAX);
    assert_eq!(make_site_loc(5, 0, true, 3), 3, "a grid without a step has one point");
}

#[test]
fn parity_takes_one_row_at_most() {
    assert_eq!(apply_row_parity(7, RowParity::Even), 6);
    assert_eq!(apply_row_parity(8, RowParity::Odd), 7);
    assert_eq!(apply_row_parity(-3, RowParity::Even), -2);
    assert_eq!(apply_row_parity(-4, RowParity::Odd), -4);
    assert_eq!(RowParity::default(), RowParity::Any);
    assert_eq!(RowParity::parse("eVeN"), Some(RowParity::Even));
    assert_eq!(RowParity::parse("none"), Some(RowParity::Any));
    assert_eq!(RowParity::parse("even "), None);
}

#[test]
fn rectangles_know_their_extent() {
    let r = Rect::new(-5, 2, 10, 2);
    assert_eq!((r.dx(), r.dy(), r.is_empty()), (15, 0, true));
    assert!(Rect::new(0, 0, 10, 10).contains(&Rect::new(0, 0, 10, 10)));
    assert!(!Rect::new(0, 0, 10, 10).contains(&Rect::new(0, 0, 11, 10)));
}

#[test]
fn sites_are_visited_by_name_and_each_name_once() {
    let sites = [
        Site::plain("b", 1, 1),
        Site::plain("a", 2, 2),
        Site::plain("b", 3, 3),
        Site::plain("ab", 4, 4),
        Site::plain("B", 5, 5),
    ];
    let seen: Vec<(&str, i32)> =
        sites_by_name(&sites).iter().map(|s| (s.name.as_str(), s.width)).collect();
    assert_eq!(seen, vec![("B", 5), ("a", 2), ("ab", 4), ("b", 1)]);
}

#[test]
fn the_order_given_does_not_matter_behind_the_base() {
    let base = Site::plain("M", 10, 20);
    let a = Site::plain("A", 10, 40);
    let z = Site::plain("Z", 10, 60);
    let core = Rect::new(0, 0, 100, 130);
    let one = geometry(&[base.clone(), a.clone(), z.clone()], core).unwrap();
    let two = geometry(&[base.clone(), z, a.clone(), a], core).unwrap();
    assert_eq!(one, two);
    assert_eq!(
        one.rows_per_site,
        vec![("A".to_string(), 3), ("M".to_string(), 6), ("Z".to_string(), 2)]
    );
}

#[test]
fn uniform_rows_stack_and_alternate_inside_the_core() {
    let p = geometry(&[Site::plain("S", 7, 10)], Rect::new(3, 4, 50, 59)).unwrap();
    assert_eq!(p.core_snapped, Rect::new(7, 10, 50, 59));
    assert_eq!(p.rows.len(), 4);
    for (k, r) in p.rows.iter().enumerate() {
        assert_eq!(r.name, format!("ROW_{k}"));
        assert_eq!((r.x, r.y), (7, 10 + 10 * k as i32));
        assert_eq!(r.orient, if k % 2 == 0 { "R0" } else { "MX" });
        assert_eq!((r.num_sites, r.spacing), (6, 7));
    }
    assert_eq!(p.core_final, Rect::new(7, 10, 49, 50));
    assert!(p.pattern_rows.is_none());
}

#[test]
fn a_core_that_is_no_whole_number_of_sites_shrinks() {
    let site = Site::plain("unithd", 460, 2720);
    let die = Rect::new(0, 0, 100_000, 100_000);
    let core = Rect::new(10_000, 10_000, 90_000, 90_000);
    let p = plan(die, core, &[site], RowParity::Any, &[], None, &[]).unwrap();
    assert_eq!(p.die, die);
    assert_eq!(p.core_snapped, Rect::new(10_120, 10_880, 90_000, 90_000));
    assert_eq!(p.core_final, Rect::new(10_120, 10_880, 89_700, 89_760));
    assert_eq!((p.rows.len(), p.rows[0].num_sites), (29, 173));
}

#[test]
fn the_tallest_stack_decides_the_core() {
    let p = geometry(
        &[Site::plain("M", 10, 20), Site::plain("A", 10, 60)],
        Rect::new(0, 0, 100, 130),
    )
    .unwrap();
    assert_eq!(p.core_final, Rect::new(0, 0, 100, 120));
    let names: Vec<&str> = p.rows.iter().map(|r| r.name.as_str()).collect();
    assert_eq!(names.len(), 8);
    assert_eq!((names[0], names[7]), ("ROW_0", "ROW_7"));
    assert_eq!((p.rows[0].site.as_str(), p.rows[2].site.as_str()), ("A", "M"));
}

#[test]
fn planning_again_in_the_covered_core_changes_nothing() {
    let sites = [Site::plain("M", 7, 20), Site::plain("A", 7, 60)];
    for parity in [RowParity::Any, RowParity::Even, RowParity::Odd] {
        let die = Rect::new(0, 0, 1000, 1000);
        let core = Rect::new(3, 5, 99, 171);
        let p = plan(die, core, &sites, parity, &[], None, &[]).unwrap();
        assert_ne!(p.core_final, core);
        let again = plan(die, p.core_final, &sites, parity, &[], None, &[]).unwrap();
        assert_eq!(again.rows, p.rows);
        assert_eq!(again.core_final, p.core_final);
        assert!(!again.core_was_snapped());
    }
}

#[test]
fn a_hybrid_plan_needs_room_in_either_set() {
    let tall = hybrid("H", 100, vec![entry("A", "R0", 500)]);
    let p = geometry(&[tall], Rect::new(0, 0, 500, 250)).unwrap();
    assert_eq!(p.pattern_rows, Some(("H".to_string(), 0)));
    assert_eq!(p.rows_per_site, vec![("H".to_string(), 2)]);
    let wide = hybrid("H", 500, vec![entry("A", "R0", 100)]);
    let p = geometry(&[wide], Rect::new(0, 0, 500, 250)).unwrap();
    assert_eq!(p.pattern_rows, Some(("H".to_string(), 2)));
    assert_eq!(p.rows_per_site, vec![("H".to_string(), 0)]);
}

#[test]
fn parity_applies_to_every_site() {
    let p = plan(
        Rect::new(0, 0, 1000, 1000),
        Rect::new(0, 0, 100, 100),
        &[Site::plain("S", 10, 20)],
        RowParity::Even,
        &[],
        None,
        &[],
    )
    .unwrap();
    assert_eq!(p.rows.len(), 4);
    assert_eq!(p.core_final.y_max, 80);
}

#[test]
fn the_die_is_put_on_its_grid() {
    let p = plan(
        Rect::new(-4, -4, 1004, 1006),
        Rect::new(0, 0, 100, 100),
        &[Site::plain("S", 10, 20)],
        RowParity::Any,
        &[],
        Some(10),
        &[],
    )
    .unwrap();
    assert_eq!(p.die, Rect::new(0, 0, 1000, 1010));
    assert_eq!(p.core_requested, Rect::new(0, 0, 100, 100));
}

#[test]
fn hybrid_rows_land_on_the_pattern() {
    let base = hybrid("H", 400, vec![entry("A", "R0", 100), entry("B", "MX", 300)]);
    let other = hybrid("G", 400, vec![entry("B", "MX", 300), entry("A", "R0", 100)]);
    let p = geometry(&[base, other], Rect::new(0, 0, 500, 1250)).unwrap();
    assert_eq!(p.pattern_rows, Some(("H".to_string(), 6)));
    assert_eq!(p.rows_per_site, vec![("G".to_string(), 2), ("H".to_string(), 3)]);
    let starts: Vec<i32> = p.rows[..6].iter().map(|r| r.y).collect();
    assert_eq!(starts, vec![0, 100, 400, 500, 800, 900]);
    for r in &p.rows[6..] {
        assert!(starts.contains(&r.y) && starts.contains(&(r.y + 400)) || r.y + 400 == 1200);
    }
    assert_eq!(p.core_final, Rect::new(0, 0, 500, 1200));
}

#[test]
fn a_mirrored_pattern_is_as_compatible() {
    let base = hybrid("H", 400, vec![entry("A", "R0", 100), entry("B", "MX", 300)]);
    let mirrored = hybrid("M", 400, vec![entry("B", "R0", 300), entry("A", "MX", 100)]);
    assert_eq!(pattern_offset(&base, &base), Some((0, "R0")));
    assert_eq!(pattern_offset(&base, &mirrored), Some((0, "MX")));
    assert_eq!(pattern_offset(&mirrored, &base), Some((0, "MX")));
    assert_eq!(pattern_offset(&base, &Site::plain("S", 50, 100)), None);
    assert_eq!(flip_x("sideways"), "R0");
}

#[test]
fn a_hybrid_site_that_does_not_match_is_refused() {
    let base = hybrid("H", 400, vec![entry("A", "R0", 100), entry("B", "MX", 300)]);
    let alien = hybrid("X", 100, vec![entry("Z", "R0", 100)]);
    assert_eq!(
        geometry(&[base.clone(), alien], Rect::new(0, 0, 500, 1250)),
        Err(PlanError::IncompatibleSite { site: "X".into(), base: "H".into() })
    );
    let mut flat = base.clone();
    flat.row_pattern[0].width = 0;
    assert_eq!(
        geometry(&[flat], Rect::new(0, 0, 500, 1250)),
        Err(PlanError::DegenerateSite("A".into()))
    );
    assert_eq!(geometry(&[base], Rect::new(0, 0, 500, 90)), Err(PlanError::NoRows));
}

#[test]
fn a_plain_site_beside_a_hybrid_base_gets_no_rows_of_its_own() {
    let base = hybrid("H", 400, vec![entry("A", "R0", 100), entry("B", "MX", 300)]);
    let a = Site::plain("A", 50, 100);
    let p = geometry(&[base, a], Rect::new(0, 0, 500, 400)).unwrap();
    assert_eq!(p.rows.len(), 3);
    assert_eq!(p.rows_per_site, vec![("H".to_string(), 1)]);
}

#[test]
fn every_refusal_has_its_sentence() {
    let sentences = [
        (PlanError::EmptyDieArea, "die area is empty; cannot build rows"),
        (PlanError::CoreNotInDie, "die area must contain the core area"),
        (PlanError::DegenerateSite("s".into()), "site s has zero width or height"),
        (
            PlanError::SiteHeightNotMultiple { site: "s".into(), base: "b".into() },
            "site s height is not a multiple of site b height",
        ),
        (PlanError::NoRows, "no rows created in the core area"),
        (
            PlanError::ParityWithHybridRows,
            "constraining row parity is not supported for hybrid rows",
        ),
        (
            PlanError::IncompatibleSite { site: "s".into(), base: "b".into() },
            "site s is incompatible with site b",
        ),
        (
            PlanError::InstanceDoesNotFit {
                name: "m".into(),
                width: 10,
                height: -20,
                core: Rect::new(-1, 2, 3, 2_147_483_647),
            },
            "m (10, -20 DBU) does not fit in the core area: (-1, 2) - (3, 2147483647)",
        ),
    ];
    for (e, text) in sentences {
        assert_eq!(e.message(), text);
    }
    assert_eq!(
        geometry(&[Site::plain("s", 0, 5)], Rect::new(0, 0, 10, 10)),
        Err(PlanError::DegenerateSite("s".into()))
    );
    assert_eq!(geometry(&[], Rect::new(0, 0, 10, 10)), Err(PlanError::NoRows));
}

#[test]
fn the_first_misfit_is_reported() {
    let inst = |name: &str, w: i32, h: i32| Instance {
        name: name.into(),
        width: w,
        height: h,
        is_pad: false,
        is_cover: false,
        symmetry_r90: false,
    };
    let core = Rect::new(0, 0, 100, 100);
    let e = check_instance_dimensions(
        &[inst("a", 1, 1), inst("b", 101, 1), inst("c", 500, 500)],
        core,
    );
    assert_eq!(
        e,
        Err(PlanError::InstanceDoesNotFit { name: "b".into(), width: 101, height: 1, core })
    );
}

fn row(name: &str, y: i32, site: &str, spacing: i32) -> Row {
    Row {
        name: name.into(),
        site: site.into(),
        x: 0,
        y,
        orient: "R0".into(),
        num_sites: 100,
        spacing,
    }
}

#[test]
fn pieces_stay_beside_the_domain() {
    let d = Domain { name: "D".into(), bbox: Rect::new(303, 295, 607, 605) };
    let core = Rect::new(5, 0, 1000, 1000);
    let out = split_rows_for_domains(
        vec![row("R", 300, "s", 10)],
        &[d],
        core,
        Some(4),
        &|_: &str| 10,
        &|_: &str| false,
    );
    let seen: Vec<(&str, i32, i32)> =
        out.iter().map(|r| (r.name.as_str(), r.x, r.num_sites)).collect();
    assert_eq!(seen, vec![("R_1", 5, 30), ("R_2", 610, 39), ("R_D", 310, 29)]);
    for r in &out {
        assert_eq!((r.y, r.site.as_str(), r.orient.as_str(), r.spacing), (300, "s", "R0", 10));
    }
}

#[test]
fn a_clear_domain_changes_nothing_and_domains_apply_in_turn() {
    let core = Rect::new(0, 0, 1000, 1000);
    let rows = vec![row("A", 0, "s", 10), row("B", 500, "s", 10)];
    let far = Domain { name: "F".into(), bbox: Rect::new(100, 800, 200, 900) };
    let out = split_rows_for_domains(
        rows.clone(),
        &[far],
        core,
        Some(1),
        &|_: &str| 10,
        &|_: &str| false,
    );
    assert_eq!(out, rows);
    let one = Domain { name: "P".into(), bbox: Rect::new(400, 480, 500, 540) };
    let two = Domain { name: "Q".into(), bbox: Rect::new(700, 480, 800, 540) };
    let out = split_rows_for_domains(
        rows.clone(),
        &[one, two],
        core,
        Some(10),
        &|_: &str| 10,
        &|_: &str| false,
    );
    let names: Vec<&str> = out.iter().map(|r| r.name.as_str()).collect();
    assert_eq!(
        names,
        vec![
            "A", "B_1_1", "B_2_1", "B_P_1", "B_1_2", "B_1_Q", "B_2_2", "B_2_Q", "B_P_2", "B_P_Q"
        ]
    );
    let pads = split_rows_for_domains(
        rows.clone(),
        &[Domain { name: "P".into(), bbox: Rect::new(400, 480, 500, 540) }],
        core,
        None,
        &|_: &str| 10,
        &|_: &str| true,
    );
    assert_eq!(pads, rows, "nothing but pad rows: nothing is cut");
    let flat = split_rows_for_domains(
        rows.clone(),
        &[Domain { name: "P".into(), bbox: Rect::new(400, 480, 500, 540) }],
        core,
        None,
        &|_: &str| 0,
        &|_: &str| false,
    );
    assert_eq!(flat, rows, "a smallest height of zero: nothing is cut");
}

#[test]
fn tracks_that_are_left_are_routable() {
    for min_width in 0..200 {
        for offset in 0..150 {
            let t = track_pattern(50, 1000, offset, 100, min_width).unwrap();
            let half = min_width / 2;
            assert!(t.origin - half >= 50);
            assert!(t.origin + (t.count - 1) * t.step + half <= 1050);
            assert!(t.origin + t.count * t.step + half > 1050, "none is missing");
        }
    }
    assert_eq!(
        track_pattern(0, 1000, 100, -100, 0),
        Some(TrackPattern { origin: 100, count: -8, step: -100 })
    );
}

#[test]
fn a_layer_is_skipped_whole() {
    assert_eq!(track_patterns(0, 10, 0, 10, 20, 5, 1, 5, 0), Err(TrackSkip::X));
    assert_eq!(track_patterns(0, 10, 0, 10, 1, 5, 20, 5, 0), Err(TrackSkip::Y));
}

#[test]
fn the_final_origin_is_one_row_up() {
    let all = non_uniform_track_origins(7, 100, 10, 20);
    assert_eq!(all, vec![27, 37, 47, 57, 67, 77, 87, 107]);
    assert_eq!(non_uniform_track_origins(0, 10, 10, 100), vec![190]);
}

#[test]
fn a_pattern_is_found_at_its_first_occurrence() {
    let base = hybrid(
        "H",
        500,
        vec![entry("A", "R0", 100), entry("A", "R0", 100), entry("B", "MX", 300)],
    );
    let site = hybrid("G", 400, vec![entry("A", "R0", 100), entry("B", "MX", 300)]);
    assert_eq!(pattern_offset(&base, &site), Some((100, "R0")));
    assert_eq!(match_pattern(&base.row_pattern, &site.row_pattern), Some(100));
    let around = [entry("B", "MX", 1), entry("A", "R0", 1), entry("A", "R0", 1)];
    assert_eq!(match_pattern(&base.row_pattern, &around), Some(200), "read cyclically");
    assert_eq!(match_pattern(&base.row_pattern, &[entry("A", "R0", 7)]), Some(0));
    assert_eq!(match_pattern(&base.row_pattern, &[entry("B", "R0", 300)]), None);
    assert_eq!(match_pattern(&base.row_pattern, &[]), None);
    assert_eq!(match_pattern(&[], &[entry("A", "R0", 1)]), None);
    let p = geometry(&[base, site], Rect::new(0, 0, 5_000, 1_000)).unwrap();
    let first = p.rows.iter().find(|r| r.site == "G").unwrap();
    assert_eq!((first.y, first.orient.as_str()), (100, "R0"));
}

#[test]
fn the_core_reaches_as_high_as_the_highest_row() {
    let h = hybrid("H", 400, vec![entry("A", "R0", 100), entry("B", "MX", 300)]);
    let h2 = hybrid("H2", 300, vec![entry("B", "MX", 300)]);
    let core = Rect::new(0, 0, 5_000, 1_000);
    let die = Rect::new(0, 0, 10_000, 10_000);
    for p in [
        plan_hybrid(die, core, core, &[&h, &h2], &h).unwrap(),
        plan(die, core, &[h.clone(), h2.clone()], RowParity::Any, &[], None, &[]).unwrap(),
    ] {
        assert_eq!(p.pattern_rows, Some(("H".to_string(), 5)));
        assert_eq!(p.rows_per_site, [("H".to_string(), 2), ("H2".to_string(), 3)]);
        let last = p.rows.last().unwrap();
        assert_eq!((last.site.as_str(), last.y), ("H2", 700));
        assert_eq!(p.core_final, core);
    }
}

#[test]
fn splitting_by_a_list_is_splitting_by_its_parts() {
    let row = |n: i32| Row {
        name: format!("ROW_{n}"),
        site: if n % 3 == 0 { "P".into() } else { "S".into() },
        x: 0,
        y: n * 10,
        orient: "R0".into(),
        num_sites: 100,
        spacing: 10,
    };
    let rows = || -> Vec<Row> { (0..9).map(row).collect() };
    let domain = |name: &str, bbox: Rect| Domain { name: name.into(), bbox };
    let a = domain("a", Rect::new(200, 10, 400, 40));
    let b = domain("b", Rect::new(600, 50, 700, 80));
    let core = Rect::new(0, 0, 1000, 90);
    let height = |_: &str| 10;
    let pad = |s: &str| s == "P";
    let split = |rows: Vec<Row>, domains: &[Domain]| {
        split_rows_for_domains(rows, domains, core, Some(5), &height, &pad)
    };
    let first = split(rows(), std::slice::from_ref(&a));
    assert_ne!(first, rows());
    let turns = split(first, std::slice::from_ref(&b));
    let whole = split(rows(), &[a, b]);
    assert_eq!(turns, whole);
    assert_eq!(split(rows(), &[]), rows());
    let pads = |rows: Vec<Row>| -> Vec<Row> { rows.into_iter().filter(|r| r.site == "P").collect() };
    assert_eq!(pads(whole), pads(rows()), "pad rows keep their order");
}
