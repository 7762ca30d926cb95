//! The `make-tracks` command: its arguments, its layers and its report.

use vyges_ifp::command::Ending;
use vyges_ifp::track_report::{tracks_report, tracks_value};
use vyges_ifp::trackwork::{
    can_track, explicit_work, find_core_height, layer_work, make_track, parse_track_args,
    say_no_pitch, say_skip, tracks_ending, tracks_refusal, LayerInfo, TrackJob, TrackOutcome,
};
use vyges_ifp::{Rect, TrackPattern, TrackSkip};

fn strings(args: &[&str]) -> Vec<String> {
    args.iter().map(|a| a.to_string()).collect()
}

fn usage(args: &[&str]) -> String {
    parse_track_args(&strings(args)).expect_err("refuses").message()
}

#[test]
fn track_arguments_are_read() {
    let t = parse_track_args(&strings(&[
        "old", "--track", "metal1:0.1, .2 ,3,4e-1", "--out-odb", "out", "in.odb", "--track",
        "m:2:1,1,1,1",
    ]));
    let e = t.expect_err("a colon is no part of a number");
    assert_eq!(e.message(), "not a number: \"2:1\"");
    let t = parse_track_args(&strings(&[
        "old", "--track", "metal1:0.1, .2 ,3,4e-1", "--out-odb", "out", "-in.odb",
    ]))
    .unwrap();
    assert_eq!(t.path.as_deref(), Some("-in.odb"));
    assert_eq!(t.out.as_deref(), Some("out"));
    assert_eq!(t.explicit.len(), 1);
    assert_eq!(t.explicit[0].layer, "metal1");
    assert_eq!(t.explicit[0].values, ["0.1", ".2", "3", "4e-1"]);
}

#[test]
fn every_track_usage_error_says_what_is_wrong() {
    assert_eq!(usage(&["d", "--out-odb"]), "--out-odb needs a FILE");
    assert_eq!(usage(&["d", "--track"]), "--track needs LAYER:xoff,xpitch,yoff,ypitch");
    assert_eq!(usage(&["d", "--track", "m"]), "--track wants LAYER:xoff,xpitch,yoff,ypitch");
    assert_eq!(
        usage(&["d", "--track", "m:1,2,\"3\""]),
        "--track wants four values, got \"1,2,\\\"3\\\"\""
    );
    assert_eq!(usage(&["d", "--track", "m:1,,3,4"]), "not a number: \"\"");
    assert_eq!(usage(&["d", "--track", "m:1,2,3, x\t"]), "not a number: \" x\\t\"");
    assert_eq!(usage(&["d", "--nope"]), "unknown option --nope");
    assert_eq!(usage(&[]), "needs <design.odb>");
}

fn layer(name: &str) -> LayerInfo {
    LayerInfo {
        name: name.into(),
        direction: "HORIZONTAL".into(),
        layer_type: "ROUTING".into(),
        routing_level: 1,
        x_offset: 5,
        x_pitch: 10,
        y_offset: 6,
        y_pitch: 12,
        first_last_pitch: 0,
    }
}

#[test]
fn routing_layers_are_taken_from_the_technology() {
    let layers = [
        layer("m1"),
        LayerInfo { layer_type: "CUT".into(), ..layer("via") },
        LayerInfo { routing_level: 0, ..layer("m0") },
        LayerInfo { x_pitch: 0, ..layer("flat") },
        LayerInfo { y_pitch: 36, first_last_pitch: 45, ..layer("m2") },
    ];
    let w = layer_work(&layers, 0, Some(270));
    assert!(w.stop.is_none());
    assert_eq!(w.unpitched, ["flat"]);
    assert_eq!(w.jobs.len(), 8);
    assert_eq!(
        (w.jobs[0].layer.as_str(), w.jobs[0].x_offset, w.jobs[0].y_offset, w.jobs[0].y_pitch),
        ("m1", 5, 6, 12)
    );
    let stack: Vec<i32> = w.jobs[1..].iter().map(|j| j.y_offset).collect();
    assert_eq!(stack, vec![45, 81, 117, 153, 189, 225, 270]);
    assert!(w.jobs[1..].iter().all(|j| j.y_pitch == 270 && j.x_pitch == 10 && j.layer == "m2"));
}

#[test]
fn a_first_last_pitch_can_stop_the_command() {
    let flp = |name: &str| LayerInfo { first_last_pitch: 45, ..layer(name) };
    let tail = layer("m9");
    let w = layer_work(
        &[layer("m1"), LayerInfo { direction: "VERTICAL".into(), ..flp("m2") }, tail],
        0,
        Some(270),
    );
    assert_eq!(w.jobs.len(), 1);
    assert_eq!(
        w.stop.unwrap().message(),
        "IFP-0044 Non horizontal layer m2 uses property LEF58_PITCH."
    );
    let w = layer_work(&[flp("m2")], 0, None);
    assert_eq!(w.stop.unwrap().message(), "IFP-0045 No routing Row found in layer m2");
    let w = layer_work(&[LayerInfo { y_pitch: 0, ..flp("m2") }], 0, Some(270));
    assert_eq!(
        w.stop.unwrap().message(),
        "layer m2 carries LEF58_PITCH but no y pitch to space its tracks by."
    );
}

#[test]
fn the_first_core_row_gives_the_height() {
    let rows = [("PAD".to_string(), 1), ("CORE".to_string(), 2), ("CORE".to_string(), 3)];
    assert_eq!(find_core_height(&rows), Some(2));
    assert_eq!(find_core_height(&rows[..1]), None);
}

fn job(x_offset: i32, y_offset: i32) -> TrackJob {
    TrackJob { layer: "m1".into(), x_offset, x_pitch: 100, y_offset, y_pitch: 200 }
}

#[test]
fn a_job_gives_both_axes_or_none() {
    let die = Rect::new(0, 50, 1000, 1050);
    match make_track(&job(100, 0), 0, die) {
        TrackOutcome::Made { layer, x, y } => {
            assert_eq!(layer, "m1");
            assert_eq!(x, TrackPattern { origin: 100, count: 10, step: 100 });
            assert_eq!(y, TrackPattern { origin: 250, count: 5, step: 200 });
        }
        TrackOutcome::Skipped { .. } => panic!("the job fits"),
    }
    assert!(matches!(
        make_track(&job(2000, 2000), 0, die),
        TrackOutcome::Skipped { axis: TrackSkip::X, .. }
    ));
    assert!(matches!(
        make_track(&job(0, 2000), 0, die),
        TrackOutcome::Skipped { axis: TrackSkip::Y, .. }
    ));
    let n = say_skip("m1", TrackSkip::X);
    assert_eq!(
        n.text,
        "IFP-0021 Track pattern for m1 will be skipped due to x_offset > die width."
    );
    assert_eq!((n.code.as_str(), n.objects.as_slice()), ("IFP-TRACK-SKIP-X", &["layer:m1".into()][..]));
    assert_eq!(
        say_skip("m1", TrackSkip::Y).text,
        "IFP-0022 Track pattern for m1 will be skipped due to y_offset > die height."
    );
    assert_eq!(
        say_no_pitch("m1").text,
        "IFP-0056 No pitch found layer m1 so no tracks will be generated."
    );
}

#[test]
fn the_report_lists_tracks_and_skips() {
    let die = Rect::new(0, 0, 1000, 1000);
    let outcomes = vec![
        make_track(&job(100, 0), 0, die),
        make_track(&job(2000, 0), 0, die),
        make_track(&job(0, 2000), 0, die),
    ];
    let text = tracks_report(&["flat \"m\"".to_string()], &outcomes, "out.odb");
    let v: serde_json::Value = serde_json::from_str(&text).expect("the report is valid JSON");
    assert_eq!(v, tracks_value(&["flat \"m\"".to_string()], &outcomes, "out.odb"));
    assert_eq!(v["tool"], "vyges-ifp");
    assert_eq!(v["command"], "make-tracks");
    assert_eq!(v["status"], "applied");
    assert_eq!(v["layers"], 1);
    assert_eq!(v["odb_written"], "out.odb");
    assert_eq!(v["tracks"][0]["layer"], "m1");
    assert_eq!(v["tracks"][0]["x"]["origin"], 100);
    assert_eq!(v["tracks"][0]["x"]["count"], 10);
    assert_eq!(v["tracks"][0]["y"]["step"], 200);
    assert_eq!(v["skipped"].as_array().unwrap().len(), 3);
    assert_eq!(v["skipped"][0]["layer"], "flat \"m\"");
    assert_eq!(v["skipped"][0]["why"], "no pitch (IFP-56)");
    assert_eq!(v["skipped"][1]["why"], "x_offset > die width (IFP-21)");
    assert_eq!(v["skipped"][2]["why"], "y_offset > die height (IFP-22)");
    assert!(text.starts_with("{\n  \"command\": \"make-tracks\",\n  \"layers\": 1,\n"));
}

#[test]
fn a_layer_given_without_a_pitch_is_skipped() {
    let job = |layer: &str, x_pitch: i32, y_pitch: i32| TrackJob {
        layer: layer.into(),
        x_offset: 100,
        x_pitch,
        y_offset: 100,
        y_pitch,
    };
    let w = explicit_work(vec![
        job("metal1", 0, 200),
        job("metal2", 10, 20),
        job("metal3", 10, 0),
        job("metal4", 30, 40),
    ]);
    assert_eq!(w.unpitched, ["metal1", "metal3"]);
    let made: Vec<_> = w.jobs.iter().map(|j| (j.layer.as_str(), j.x_pitch, j.y_pitch)).collect();
    assert_eq!(made, [("metal2", 10, 20), ("metal4", 30, 40)]);
    assert!(w.stop.is_none());
    assert!(explicit_work(Vec::new()).jobs.is_empty());
}

#[test]
fn a_first_and_last_pitch_does_not_stand_in_for_a_missing_one() {
    let stacked = |name: &str| LayerInfo { y_pitch: 36, first_last_pitch: 45, ..layer(name) };
    let w = layer_work(&[LayerInfo { x_pitch: 0, ..stacked("m2") }, stacked("m3")], 0, Some(270));
    assert_eq!(w.unpitched, ["m2"]);
    assert_eq!(w.jobs.len(), 7);
    assert!(w.jobs.iter().all(|j| j.layer == "m3"));
    let w = layer_work(&[LayerInfo { x_pitch: 0, y_pitch: 0, ..stacked("m2") }], 0, Some(270));
    assert!(w.stop.is_some() && w.unpitched.is_empty());
}

#[test]
fn a_core_row_without_height_still_lets_an_offset_past_the_die_skip_the_layer() {
    let stacked = LayerInfo { y_pitch: 36, first_last_pitch: 500, ..layer("m2") };
    let w = layer_work(&[stacked], 0, Some(0));
    assert!(w.unpitched.is_empty());
    assert_eq!(tracks_ending(&w), None);
    assert_eq!(w.jobs.len(), 1);
    assert_eq!((w.jobs[0].y_offset, w.jobs[0].y_pitch), (964, 0));
    let die = Rect::new(0, 0, 1_000, 100);
    assert!(can_track(&w.jobs[0], 0, die));
    assert!(matches!(
        make_track(&w.jobs[0], 0, die),
        TrackOutcome::Skipped { axis: TrackSkip::Y, .. }
    ));
    assert!(!can_track(&w.jobs[0], 0, Rect::new(0, 0, 1_000, 1_000)), "no pitch to count by");
}

#[test]
fn make_tracks_refuses_where_it_is_stopped_or_has_nothing_to_make() {
    let w = layer_work(&[layer("m1")], 0, None);
    assert_eq!((tracks_ending(&w), tracks_refusal(&w)), (None, None));
    let none = "no routing layer produced a track pattern.";
    let w = layer_work(&[LayerInfo { x_pitch: 0, ..layer("m1") }], 0, None);
    assert_eq!(tracks_ending(&w), Some(Ending::Refused));
    assert_eq!(tracks_refusal(&w).as_deref(), Some(none));
    let w = explicit_work(Vec::new());
    assert_eq!(tracks_ending(&w), Some(Ending::Refused));
    assert_eq!(tracks_refusal(&w).as_deref(), Some(none));
    let w = layer_work(&[layer("m1"), LayerInfo { first_last_pitch: 45, ..layer("m2") }], 0, None);
    assert_eq!(w.jobs.len(), 1);
    assert_eq!(tracks_ending(&w), Some(Ending::Refused));
    assert_eq!(
        tracks_refusal(&w).as_deref(),
        Some("IFP-0045 No routing Row found in layer m2"),
        "what stopped it is said first"
    );
}
