//! The planner: rows, parity, snapping, hybrid sites and refusals.

use vyges_ifp::{
    apply_row_parity, check_instance_dimensions, flip_x, pattern_offset, plan,
    snap_core_lower_left, snap_to_mfg_grid, Instance, OrientedSite, PlanError, Rect, Row,
    RowParity, Site,
};

fn nangate_site() -> Site {
    Site::plain("FreePDK45_38x28_10R_NP_162NW_34O", 380, 2800)
}

#[test]
fn the_reference_case_reproduces_every_number_in_the_golden() {
    let site = nangate_site();
    let p = plan(
        Rect::new(0, 0, 2_000_000, 2_000_000),
        Rect::new(200_000, 200_000, 1_800_000, 1_800_000),
        std::slice::from_ref(&site),
        RowParity::Any,
        &[],
        None,
        &[],
    )
    .expect("plans");

    assert_eq!(
        (p.core_snapped.x_min, p.core_snapped.y_min),
        (200_260, 201_600)
    );
    assert!(p.core_was_snapped(), "IFP-28 applies here");

    assert_eq!(p.rows.len(), 570);
    assert_eq!(p.rows[0].num_sites, 4209);
    assert_eq!(p.rows_per_site, vec![(site.name.clone(), 570)]);

    assert_eq!(
        p.core_final,
        Rect::new(200_260, 201_600, 1_799_680, 1_797_600)
    );
}

#[test]
fn the_upper_right_does_not_move_when_the_lower_left_snaps() {
    let site = nangate_site();
    let core = Rect::new(200_000, 200_000, 1_800_000, 1_800_000);
    let s = snap_core_lower_left(core, &site);
    assert!(
        s.x_min > core.x_min && s.y_min > core.y_min,
        "lower left rounds UP"
    );
    assert_eq!(
        (s.x_max, s.y_max),
        (core.x_max, core.y_max),
        "upper right is untouched"
    );
}

#[test]
fn an_already_aligned_core_is_left_alone() {
    let site = nangate_site();
    let core = Rect::new(380 * 10, 2800 * 3, 380 * 100, 2800 * 30);
    assert_eq!(snap_core_lower_left(core, &site), core);
    let p = plan(
        Rect::new(0, 0, 10_000_000, 10_000_000),
        core,
        &[site],
        RowParity::Any,
        &[],
        None,
        &[],
    )
    .unwrap();
    assert!(
        !p.core_was_snapped(),
        "nothing moved, so IFP-28 must not be reported"
    );
}

#[test]
fn row_parity_trims_the_count_and_never_grows_it() {
    for n in 0..8 {
        assert_eq!(apply_row_parity(n, RowParity::Any), n);
        let e = apply_row_parity(n, RowParity::Even);
        assert!(e % 2 == 0 && e <= n, "even: {n} -> {e}");
        let o = apply_row_parity(n, RowParity::Odd);
        assert!(o <= n, "odd never grows: {n} -> {o}");
        if n > 0 {
            assert_eq!(o % 2, 1, "odd: {n} -> {o}");
        }
    }
    assert_eq!(
        apply_row_parity(0, RowParity::Odd),
        0,
        "0 stays 0 — there is no odd below it"
    );
}

#[test]
fn orientation_alternates_and_flipping_shifts_the_phase() {
    let site = nangate_site();
    let die = Rect::new(0, 0, 10_000_000, 10_000_000);
    let core = Rect::new(0, 0, 380 * 50, 2800 * 4);
    let plain = plan(
        die,
        core,
        std::slice::from_ref(&site),
        RowParity::Any,
        &[],
        None,
        &[],
    )
    .unwrap();
    assert_eq!(
        plain
            .rows
            .iter()
            .map(|r| r.orient.as_str())
            .collect::<Vec<_>>(),
        vec!["R0", "MX", "R0", "MX"]
    );
    let flipped = plan(
        die,
        core,
        std::slice::from_ref(&site),
        RowParity::Any,
        std::slice::from_ref(&site.name),
        None,
        &[],
    )
    .unwrap();
    assert_eq!(
        flipped
            .rows
            .iter()
            .map(|r| r.orient.as_str())
            .collect::<Vec<_>>(),
        vec!["MX", "R0", "MX", "R0"],
        "flipping a site shifts the phase, it does not reverse the sequence"
    );
}

#[test]
fn row_names_number_globally_across_sites() {
    let a = Site::plain("A", 100, 200);
    let b = Site::plain("B", 100, 400);
    let die = Rect::new(0, 0, 1_000_000, 1_000_000);
    let core = Rect::new(0, 0, 1000, 1200);
    let p = plan(die, core, &[a, b], RowParity::Any, &[], None, &[]).unwrap();
    let names: Vec<&str> = p.rows.iter().map(|r| r.name.as_str()).collect();
    assert_eq!(
        names,
        vec!["ROW_0", "ROW_1", "ROW_2", "ROW_3", "ROW_4", "ROW_5", "ROW_6", "ROW_7", "ROW_8"]
    );
    assert_eq!(
        p.rows_per_site,
        vec![("A".to_string(), 6), ("B".to_string(), 3)]
    );
}

#[test]
fn the_manufacturing_grid_rounds_to_nearest_not_up() {
    assert_eq!(
        snap_to_mfg_grid(104, Some(10)),
        100,
        "nearest rounds down here"
    );
    assert_eq!(snap_to_mfg_grid(106, Some(10)), 110);
    assert_eq!(
        snap_to_mfg_grid(105, Some(10)),
        110,
        "halfway rounds away from zero"
    );
    assert_eq!(
        snap_to_mfg_grid(104, None),
        104,
        "no grid declared, no snap"
    );
    assert_eq!(
        snap_to_mfg_grid(104, Some(0)),
        104,
        "a zero grid is 'none', not a divide by zero"
    );
}

fn inst(name: &str, w: i32, h: i32) -> Instance {
    Instance {
        name: name.into(),
        width: w,
        height: h,
        is_pad: false,
        is_cover: false,
        symmetry_r90: false,
    }
}

fn hybrid_pair() -> (Site, Site, Site) {
    let a = Site::plain("A", 50, 100);
    let b = Site::plain("B", 50, 300);
    let base = Site {
        name: "H".into(),
        width: 50,
        height: 400,
        row_pattern: vec![
            OrientedSite {
                site: "A".into(),
                orient: "R0".into(),
                width: 50,
                height: 100,
            },
            OrientedSite {
                site: "B".into(),
                orient: "MX".into(),
                width: 50,
                height: 300,
            },
        ],
    };
    (base, a, b)
}

#[test]
fn a_hybrid_floorplan_builds_pattern_rows_and_hybrid_rows_both() {
    let (base, ..) = hybrid_pair();
    let p = plan(
        Rect::new(0, 0, 10_000, 10_000),
        Rect::new(0, 0, 5_000, 4_000),
        std::slice::from_ref(&base),
        RowParity::Any,
        &[],
        None,
        &[],
    )
    .expect("plans");

    assert_eq!(p.pattern_rows, Some(("H".into(), 20)));
    assert_eq!(p.rows_per_site, vec![("H".to_string(), 10)]);
    assert_eq!(p.rows.len(), 30);

    assert_eq!(
        (
            p.rows[0].site.as_str(),
            p.rows[0].y,
            p.rows[0].orient.as_str()
        ),
        ("A", 0, "R0")
    );
    assert_eq!(
        (
            p.rows[1].site.as_str(),
            p.rows[1].y,
            p.rows[1].orient.as_str()
        ),
        ("B", 100, "MX")
    );
    assert_eq!((p.rows[2].site.as_str(), p.rows[2].y), ("A", 400));

    assert_eq!(p.rows[19].name, "ROW_19");
    assert_eq!(
        (p.rows[20].name.as_str(), p.rows[20].site.as_str()),
        ("ROW_20", "H")
    );
    assert!(p.rows.iter().all(|r| r.num_sites == 100 && r.spacing == 50));
}

#[test]
fn a_partial_pattern_at_the_top_is_not_built() {
    let (base, ..) = hybrid_pair();
    let p = plan(
        Rect::new(0, 0, 10_000, 10_000),
        Rect::new(0, 0, 5_000, 500),
        std::slice::from_ref(&base),
        RowParity::Any,
        &[],
        None,
        &[],
    )
    .expect("plans");
    assert_eq!(
        p.pattern_rows,
        Some(("H".into(), 3)),
        "A, B, then A again — B would overflow"
    );
    assert_eq!(
        p.rows_per_site,
        vec![("H".to_string(), 1)],
        "only one whole pattern fits"
    );
    assert_eq!(
        p.core_final.y_max, 500,
        "the last A ends exactly at the top"
    );
}

#[test]
fn a_second_hybrid_site_is_offset_to_where_its_pattern_starts() {
    let (base, ..) = hybrid_pair();
    let h2 = Site {
        name: "H2".into(),
        width: 50,
        height: 400,
        row_pattern: vec![
            OrientedSite {
                site: "B".into(),
                orient: "MX".into(),
                width: 50,
                height: 300,
            },
            OrientedSite {
                site: "A".into(),
                orient: "R0".into(),
                width: 50,
                height: 100,
            },
        ],
    };
    assert_eq!(pattern_offset(&base, &h2), Some((100, "R0")));

    let p = plan(
        Rect::new(0, 0, 10_000, 10_000),
        Rect::new(0, 0, 5_000, 4_000),
        &[base, h2],
        RowParity::Any,
        &[],
        None,
        &[],
    )
    .expect("plans");
    let h2_rows: Vec<&Row> = p.rows.iter().filter(|r| r.site == "H2").collect();
    assert_eq!(
        h2_rows[0].y, 100,
        "H2 starts where its pattern starts inside H's"
    );
    assert_eq!(
        h2_rows.len(),
        9,
        "starting 100 up, one fewer whole pattern fits below the top"
    );
}

#[test]
fn a_pattern_that_matches_upside_down_is_accepted_as_mirrored() {
    let (base, ..) = hybrid_pair();
    let mirrored = Site {
        name: "M".into(),
        width: 50,
        height: 400,
        row_pattern: vec![
            OrientedSite {
                site: "B".into(),
                orient: "R0".into(),
                width: 50,
                height: 300,
            },
            OrientedSite {
                site: "A".into(),
                orient: "MX".into(),
                width: 50,
                height: 100,
            },
        ],
    };
    assert_eq!(pattern_offset(&base, &mirrored), Some((0, "MX")));

    let alien = Site {
        name: "X".into(),
        width: 50,
        height: 100,
        row_pattern: vec![OrientedSite {
            site: "Z".into(),
            orient: "R0".into(),
            width: 50,
            height: 100,
        }],
    };
    assert_eq!(pattern_offset(&base, &alien), None);
}

#[test]
fn flipping_an_orientation_is_its_own_inverse() {
    for o in ["R0", "MX", "R90", "MYR90", "R180", "MY", "R270", "MXR90"] {
        assert_eq!(flip_x(flip_x(o)), o, "flipping {o} twice must return it");
        assert_ne!(flip_x(o), o, "flipping {o} must change it");
    }
}

#[test]
fn row_parity_is_refused_on_a_hybrid_floorplan() {
    let (base, ..) = hybrid_pair();
    for parity in [RowParity::Even, RowParity::Odd] {
        assert_eq!(
            plan(
                Rect::new(0, 0, 10_000, 10_000),
                Rect::new(0, 0, 5_000, 4_000),
                std::slice::from_ref(&base),
                parity,
                &[],
                None,
                &[]
            ),
            Err(PlanError::ParityWithHybridRows)
        );
    }
}

#[test]
fn a_hybrid_site_is_not_subjected_to_the_uniform_height_multiple_rule() {
    let (base, ..) = hybrid_pair();
    let odd = Site {
        name: "Odd".into(),
        width: 50,
        height: 400,
        row_pattern: base.row_pattern.clone(),
    };
    assert!(plan(
        Rect::new(0, 0, 10_000, 10_000),
        Rect::new(0, 0, 5_000, 4_000),
        &[base, odd],
        RowParity::Any,
        &[],
        None,
        &[]
    )
    .is_ok());
}

#[test]
fn a_master_taller_than_the_core_is_refused_and_named() {
    let core = Rect::new(20_000, 20_000, 80_000, 80_000);
    let macro_ = inst("dcache.mem", 59_090, 65_800);
    assert_eq!(
        check_instance_dimensions(&[macro_], core),
        Err(PlanError::InstanceDoesNotFit {
            name: "dcache.mem".into(),
            width: 59_090,
            height: 65_800,
            core,
        })
    );
    assert!(check_instance_dimensions(&[inst("snug", 60_000, 60_000)], core).is_ok());
}

#[test]
fn pads_and_covers_are_exempt_but_ordinary_masters_are_not() {
    let core = Rect::new(0, 0, 1_000, 1_000);
    let huge = inst("huge", 9_999, 9_999);
    assert!(check_instance_dimensions(std::slice::from_ref(&huge), core).is_err());
    for exempt in [
        Instance {
            is_pad: true,
            ..huge.clone()
        },
        Instance {
            is_cover: true,
            ..huge.clone()
        },
    ] {
        assert!(
            check_instance_dimensions(&[exempt], core).is_ok(),
            "a pad or cover belongs outside the core and is not measured against it"
        );
    }
}

#[test]
fn an_r90_symmetric_master_only_has_to_fit_the_larger_dimension() {
    let core = Rect::new(0, 0, 1_000, 5_000);
    let wide = inst("wide", 4_000, 500);
    assert!(check_instance_dimensions(std::slice::from_ref(&wide), core).is_err());
    assert!(check_instance_dimensions(
        &[Instance {
            symmetry_r90: true,
            ..wide
        }],
        core
    )
    .is_ok());
    assert!(check_instance_dimensions(
        &[Instance {
            symmetry_r90: true,
            ..inst("giant", 6_000, 6_000)
        }],
        core
    )
    .is_err());
}

#[test]
fn the_die_error_wins_over_an_oversized_macro() {
    let huge = inst("huge", 9_999_999, 9_999_999);
    assert_eq!(
        plan(
            Rect::new(0, 0, 0, 0),
            Rect::new(0, 0, 0, 0),
            &[nangate_site()],
            RowParity::Any,
            &[],
            None,
            &[huge]
        ),
        Err(PlanError::EmptyDieArea)
    );
}

#[test]
fn the_refusals_are_specific() {
    let site = nangate_site();
    let die = Rect::new(0, 0, 1_000_000, 1_000_000);
    assert_eq!(
        plan(
            Rect::new(0, 0, 0, 0),
            die,
            std::slice::from_ref(&site),
            RowParity::Any,
            &[],
            None,
            &[]
        ),
        Err(PlanError::EmptyDieArea)
    );
    assert_eq!(
        plan(
            die,
            Rect::new(-10, -10, 2_000_000, 2_000_000),
            std::slice::from_ref(&site),
            RowParity::Any,
            &[],
            None,
            &[]
        ),
        Err(PlanError::CoreNotInDie)
    );
    assert_eq!(
        plan(
            die,
            Rect::new(0, 0, 10, 10),
            std::slice::from_ref(&site),
            RowParity::Any,
            &[],
            None,
            &[]
        ),
        Err(PlanError::NoRows)
    );
    let odd = Site::plain("odd", 380, 2800 + 1);
    assert!(matches!(
        plan(
            die,
            Rect::new(0, 0, 500_000, 500_000),
            &[site, odd],
            RowParity::Any,
            &[],
            None,
            &[]
        ),
        Err(PlanError::SiteHeightNotMultiple { .. })
    ));
}
