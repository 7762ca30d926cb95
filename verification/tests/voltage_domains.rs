//! Voltage domains: which rows are rebuilt, and where their pieces land.

use vyges_ifp::{make_site_loc, split_rows_for_domains, Domain, Rect, Row};

fn row(name: &str, y: i32, site: &str) -> Row {
    Row {
        name: name.into(),
        site: site.into(),
        x: 0,
        y,
        orient: "N".into(),
        num_sites: 100,
        spacing: 10,
    }
}

#[test]
fn make_site_loc_floors_for_a_maximum_and_ceils_for_a_minimum() {
    assert_eq!(make_site_loc(27, 10, false, 0), 30, "ceil");
    assert_eq!(make_site_loc(27, 10, true, 0), 20, "floor");
    assert_eq!(make_site_loc(30, 10, false, 0), 30);
    assert_eq!(make_site_loc(30, 10, true, 0), 30);
    assert_eq!(make_site_loc(27, 10, true, 5), 25);
}

#[test]
fn a_row_crossing_a_domain_is_replaced_and_the_first_piece_takes_its_place() {
    let h = |_: &str| 10;
    let pad = |_: &str| false;
    let d = Domain {
        name: "PD".into(),
        bbox: Rect { x_min: 300, y_min: 300, x_max: 600, y_max: 600 },
    };
    let core = Rect { x_min: 0, y_min: 0, x_max: 1000, y_max: 1000 };
    let rows = vec![row("ROW_0", 0, "s"), row("ROW_1", 400, "s"), row("ROW_2", 900, "s")];

    let out = split_rows_for_domains(rows, &[d], core, Some(0), &h, &pad);
    let names: Vec<&str> = out.iter().map(|r| r.name.as_str()).collect();
    assert_eq!(
        names,
        vec!["ROW_0", "ROW_1_1", "ROW_2", "ROW_1_2", "ROW_1_PD"],
        "the FIRST piece takes the destroyed row's place; the rest are appended"
    );

    let left = out.iter().find(|r| r.name == "ROW_1_1").unwrap();
    assert_eq!((left.x, left.num_sites), (0, 30), "core_lx .. domain_x_min - gap");
    let right = out.iter().find(|r| r.name == "ROW_1_2").unwrap();
    assert_eq!((right.x, right.num_sites), (600, 40), "domain_x_max .. core_ux");
    let mid = out.iter().find(|r| r.name == "ROW_1_PD").unwrap();
    assert_eq!((mid.x, mid.num_sites), (300, 30), "across the domain itself");
}

#[test]
fn the_default_margin_is_six_minimum_site_heights() {
    let h = |_: &str| 10;
    let pad = |_: &str| false;
    let d = Domain {
        name: "PD".into(),
        bbox: Rect { x_min: 300, y_min: 300, x_max: 600, y_max: 600 },
    };
    let core = Rect { x_min: 0, y_min: 0, x_max: 1000, y_max: 1000 };
    let kept = split_rows_for_domains(vec![row("R", 230, "s")], &[d.clone()], core, None, &h, &pad);
    assert_eq!(kept.len(), 1);
    assert_eq!(kept[0].name, "R", "exactly on the margin edge, so untouched");

    let out = split_rows_for_domains(vec![row("R", 240, "s")], &[d], core, None, &h, &pad);
    assert!(out.iter().all(|r| r.name != "R"), "the row itself is gone");
    let names: Vec<&str> = out.iter().map(|r| r.name.as_str()).collect();
    assert_eq!(names, vec!["R_1", "R_2"], "_1 in place, _2 appended");
    assert!(out.iter().all(|r| r.name != "R_PD"), "margin rows lose their middle entirely");
}

#[test]
fn pad_rows_are_left_alone() {
    let h = |_: &str| 10;
    let d = Domain {
        name: "PD".into(),
        bbox: Rect { x_min: 300, y_min: 300, x_max: 600, y_max: 600 },
    };
    let core = Rect { x_min: 0, y_min: 0, x_max: 1000, y_max: 1000 };
    let out = split_rows_for_domains(
        vec![row("PADROW", 400, "padsite")],
        &[d],
        core,
        Some(0),
        &h,
        &|s| s == "padsite",
    );
    assert_eq!(out.len(), 1);
    assert_eq!(out[0].name, "PADROW", "a PAD row crossing the domain still survives");
}
