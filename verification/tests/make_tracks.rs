//! Track patterns.

use vyges_ifp::{
    non_uniform_track_origins, track_pattern, track_patterns, TrackPattern, TrackSkip,
};

#[test]
fn a_pattern_starts_one_offset_in_and_counts_whole_pitches() {
    let p = track_pattern(0, 1000, 100, 100, 0).unwrap();
    assert_eq!(p, TrackPattern { origin: 100, count: 10, step: 100 });
}

#[test]
fn a_zero_offset_becomes_one_pitch() {
    assert_eq!(track_pattern(0, 1000, 0, 100, 0), track_pattern(0, 1000, 100, 100, 0));
}

#[test]
fn an_offset_wider_than_the_die_skips_the_layer() {
    assert_eq!(track_pattern(0, 500, 600, 100, 0), None, "skipped, not clamped");
}

#[test]
fn one_axis_over_the_die_suppresses_the_other_axis_too() {
    assert!(track_pattern(0, 1000, 100, 100, 0).is_some(), "y alone would be fine");
    assert_eq!(track_patterns(0, 500, 0, 1000, 600, 100, 100, 100, 0), Err(TrackSkip::X));

    assert!(track_pattern(0, 1000, 100, 100, 0).is_some(), "x alone would be fine");
    assert_eq!(track_patterns(0, 1000, 0, 500, 100, 100, 600, 100, 0), Err(TrackSkip::Y));

    assert_eq!(track_patterns(0, 500, 0, 500, 600, 100, 600, 100, 0), Err(TrackSkip::X));

    assert_eq!(
        track_patterns(0, 1000, 0, 1000, 100, 100, 100, 100, 0),
        Ok((
            track_pattern(0, 1000, 100, 100, 0).unwrap(),
            track_pattern(0, 1000, 100, 100, 0).unwrap()
        ))
    );
}

#[test]
fn a_first_last_pitch_layer_expands_into_a_stack_of_row_height_patterns() {
    assert_eq!(
        non_uniform_track_origins(0, 270, 36, 45),
        vec![45, 81, 117, 153, 189, 225, 270],
        "six inside the row, then one more from first_last_pitch - y_pitch"
    );
    assert_eq!(*non_uniform_track_origins(0, 270, 36, 45).last().unwrap(), 270);

    assert_eq!(non_uniform_track_origins(1000, 270, 36, 45)[0], 1045);

    assert_eq!(non_uniform_track_origins(0, 100, 36, 70), vec![104]);
}

#[test]
fn an_unroutable_first_track_is_dropped_and_the_origin_moves() {
    let p = track_pattern(0, 1000, 100, 100, 400).unwrap();
    assert_eq!(p, TrackPattern { origin: 200, count: 8, step: 100 });
}

#[test]
fn the_half_min_width_truncates_rather_than_rounding() {
    let p = track_pattern(0, 1000, 100, 100, 201).unwrap();
    assert_eq!(p.origin, 100, "100 - 201/2 = 100 - 100 = 0, which is not < 0");
    let q = track_pattern(0, 1000, 100, 100, 202).unwrap();
    assert_eq!(q.origin, 200, "100 - 101 = -1 < 0, so this one does move");
}

#[test]
fn the_die_origin_is_carried_into_the_track_origin() {
    let p = track_pattern(500, 1000, 100, 100, 0).unwrap();
    assert_eq!(p.origin, 600, "die_min + offset");
    assert_eq!(p.count, 10);
}
