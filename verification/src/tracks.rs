//! Track patterns: where a layer's routing tracks lie on the die.

use crate::geometry::{div_toward_zero, fits, in_range, trunc_div};
use vstd::arithmetic::div_mod::lemma_fundamental_div_mod;
use vstd::prelude::*;

verus! {

/// The content of a [`TrackPattern`].
#[verifier::ext_equal]
pub struct TrackModel {
    pub origin: int,
    pub count: int,
    pub step: int,
}

/// One layer's track pattern on one axis, exactly as a track grid takes it.
#[derive(Debug, Clone, Copy, PartialEq, Eq, Structural)]
pub struct TrackPattern {
    pub origin: i32,
    pub count: i32,
    pub step: i32,
}

impl View for TrackPattern {
    type V = TrackModel;

    open spec fn view(&self) -> TrackModel {
        TrackModel { origin: self.origin as int, count: self.count as int, step: self.step as int }
    }
}

/// How far in the first track lies: a zero offset means one pitch in.
pub open spec fn first_offset(offset: int, pitch: int) -> int {
    if offset == 0 {
        pitch
    } else {
        offset
    }
}

/// The tracks on one axis, or none when the offset passes the die. A first track closer to the
/// die's edge than half the minimum width is dropped, and then so is such a last track.
pub open spec fn tracks_on(
    die_min: int,
    die_span: int,
    offset: int,
    pitch: int,
    min_width: int,
) -> Option<TrackModel> {
    let inset = first_offset(offset, pitch);
    let half = trunc_div(min_width, 2);
    if inset > die_span {
        None
    } else {
        let all = trunc_div(die_span - inset, pitch) + 1;
        let (origin, count) = if inset < half {
            (die_min + inset + pitch, all - 1)
        } else {
            (die_min + inset, all)
        };
        let last = origin + (count - 1) * pitch;
        Some(
            TrackModel {
                origin,
                count: if last + half > die_min + die_span {
                    count - 1
                } else {
                    count
                },
                step: pitch,
            },
        )
    }
}

/// The tracks on one axis can be written in database units, and there is a pitch to count by.
pub open spec fn tracks_fit(
    die_min: int,
    die_span: int,
    offset: int,
    pitch: int,
    min_width: int,
) -> bool {
    tracks_on(die_min, die_span, offset, pitch, min_width) matches Some(t) ==> {
        &&& pitch != 0
        &&& fits(t.origin)
        &&& fits(t.count)
    }
}

/// The content of a pattern, where there is one.
pub open spec fn track_model(r: Option<TrackPattern>) -> Option<TrackModel> {
    match r {
        Some(t) => Some(t@),
        None => None,
    }
}

/// One axis of a layer's tracks, whatever its size: the origin and the count.
fn wide_tracks(
    die_min: i32,
    die_span: i32,
    offset: i32,
    pitch: i32,
    min_width: i32,
) -> (r: Option<(i64, i64)>)
    requires
        pitch != 0,
    ensures
        tracks_on(
            die_min as int,
            die_span as int,
            offset as int,
            pitch as int,
            min_width as int,
        ) == (match r {
            Some((origin, count)) => Some(
                TrackModel { origin: origin as int, count: count as int, step: pitch as int },
            ),
            None => None,
        }),
{
    let inset: i64 = if offset == 0 {
        pitch as i64
    } else {
        offset as i64
    };
    if inset > die_span as i64 {
        return None;
    }
    let half: i64 = div_toward_zero(min_width as i64, 2);
    let steps: i64 = div_toward_zero(die_span as i64 - inset, pitch as i64);
    proof {
        lemma_fewer_steps(die_span - inset, pitch as int);
    }
    let mut count: i64 = steps + 1;
    let mut origin: i64 = die_min as i64 + inset;
    if inset < half {
        origin = origin + pitch as i64;
        count = count - 1;
    }
    proof {
        let a = count - 1;
        let b = pitch as int;
        assert(-0x1000_0000_0000_0000_0000 <= a * b <= 0x1000_0000_0000_0000_0000)
            by (nonlinear_arith)
            requires
                -0x4_0000_0000 <= a <= 0x4_0000_0000,
                -0x8000_0000 <= b <= 0x8000_0000,
        ;
    }
    let last: i128 = origin as i128 + (count - 1) as i128 * pitch as i128;
    if last + half as i128 > die_min as i128 + die_span as i128 {
        count = count - 1;
    }
    Some((origin, count))
}

fn passes(offset: i32, pitch: i32, die_span: i32) -> (r: bool)
    ensures
        r == (first_offset(offset as int, pitch as int) > die_span),
{
    if offset == 0 {
        pitch > die_span
    } else {
        offset > die_span
    }
}

/// Can the tracks on one axis be written in database units, with a pitch to count by?
pub fn can_pattern(
    die_min: i32,
    die_span: i32,
    offset: i32,
    pitch: i32,
    min_width: i32,
) -> (r: bool)
    ensures
        r == tracks_fit(
            die_min as int,
            die_span as int,
            offset as int,
            pitch as int,
            min_width as int,
        ),
{
    if passes(offset, pitch, die_span) {
        return true;
    }
    if pitch == 0 {
        return false;
    }
    match wide_tracks(die_min, die_span, offset, pitch, min_width) {
        None => true,
        Some((origin, count)) => in_range(origin) && in_range(count),
    }
}

/// One axis of a layer's tracks.
///
/// A zero offset means one pitch in, and an offset past the die skips the layer. The two guards
/// are sequential, not alternatives: the last-track check reads the origin that the first-track
/// check may already have moved, so a pattern can lose a track at each end.
pub fn track_pattern(
    die_min: i32,
    die_span: i32,
    offset: i32,
    pitch: i32,
    min_width: i32,
) -> (r: Option<TrackPattern>)
    requires
        tracks_fit(
            die_min as int,
            die_span as int,
            offset as int,
            pitch as int,
            min_width as int,
        ),
    ensures
        track_model(r) == tracks_on(
            die_min as int,
            die_span as int,
            offset as int,
            pitch as int,
            min_width as int,
        ),
{
    if passes(offset, pitch, die_span) {
        return None;
    }
    match wide_tracks(die_min, die_span, offset, pitch, min_width) {
        None => None,
        Some((origin, count)) => Some(
            TrackPattern { origin: origin as i32, count: count as i32, step: pitch },
        ),
    }
}

proof fn lemma_fewer_steps(a: int, b: int)
    requires
        b != 0,
        -0x2_0000_0000 <= a <= 0x2_0000_0000,
    ensures
        -0x2_0000_0000 <= trunc_div(a, b) <= 0x2_0000_0000,
{
    let n = if a < 0 {
        -a
    } else {
        a
    };
    let d = if b < 0 {
        -b
    } else {
        b
    };
    assert(0 <= n / d <= n) by (nonlinear_arith)
        requires
            n >= 0,
            d >= 1,
    ;
}

/// Which axis' offset overflowed the die. The first one is reported, so only one is ever named
/// even when both are out of range.
#[derive(Debug, Clone, Copy, PartialEq, Eq, Structural)]
pub enum TrackSkip {
    /// `x_offset > die width`: IFP-21.
    X,
    /// `y_offset > die height`: IFP-22.
    Y,
}

/// A layer's tracks on both axes, or the first axis that skips the whole layer.
pub open spec fn layer_tracks(
    x: Option<TrackModel>,
    y: Option<TrackModel>,
) -> Result<(TrackModel, TrackModel), TrackSkip> {
    match x {
        None => Err(TrackSkip::X),
        Some(px) => match y {
            None => Err(TrackSkip::Y),
            Some(py) => Ok((px, py)),
        },
    }
}

/// The content of a layer's tracks.
pub open spec fn layer_model(
    r: Result<(TrackPattern, TrackPattern), TrackSkip>,
) -> Result<(TrackModel, TrackModel), TrackSkip> {
    match r {
        Ok((x, y)) => Ok((x@, y@)),
        Err(e) => Err(e),
    }
}

/// Both axes of a layer's tracks.
///
/// The skip is the whole layer, not one axis: an out-of-range offset on either axis leaves the
/// layer with no tracks at all, even though the other axis passed its own test.
pub fn track_patterns(
    die_x: i32,
    dx: i32,
    die_y: i32,
    dy: i32,
    x_offset: i32,
    x_pitch: i32,
    y_offset: i32,
    y_pitch: i32,
    min_width: i32,
) -> (r: Result<(TrackPattern, TrackPattern), TrackSkip>)
    requires
        tracks_fit(die_x as int, dx as int, x_offset as int, x_pitch as int, min_width as int),
        tracks_on(die_x as int, dx as int, x_offset as int, x_pitch as int, min_width as int)
            is Some ==> tracks_fit(
            die_y as int,
            dy as int,
            y_offset as int,
            y_pitch as int,
            min_width as int,
        ),
    ensures
        layer_model(r) == layer_tracks(
            tracks_on(die_x as int, dx as int, x_offset as int, x_pitch as int, min_width as int),
            tracks_on(die_y as int, dy as int, y_offset as int, y_pitch as int, min_width as int),
        ),
{
    match track_pattern(die_x, dx, x_offset, x_pitch, min_width) {
        None => Err(TrackSkip::X),
        Some(px) => match track_pattern(die_y, dy, y_offset, y_pitch, min_width) {
            None => Err(TrackSkip::Y),
            Some(py) => Ok((px, py)),
        },
    }
}

/// How many tracks lie in one cell row, between the first and the last pitch.
pub open spec fn row_tracks(cell_row_height: int, y_pitch: int, first_last_pitch: int) -> nat {
    let n = trunc_div(cell_row_height - 2 * first_last_pitch, y_pitch) + 1;
    if n > 0 {
        n as nat
    } else {
        0
    }
}

/// The offsets of the patterns that a layer with a first and last pitch expands into: one for
/// each track within the cell row, and always one more.
pub open spec fn stacked_origins(
    die_y_min: int,
    cell_row_height: int,
    y_pitch: int,
    first_last_pitch: int,
) -> Seq<int> {
    let n = row_tracks(cell_row_height, y_pitch, first_last_pitch);
    Seq::new(n, |i: int| die_y_min + first_last_pitch + i * y_pitch).push(
        die_y_min + first_last_pitch + n * y_pitch + first_last_pitch - y_pitch,
    )
}

/// The contents of a list of coordinates.
pub open spec fn coordinates(v: Seq<i32>) -> Seq<int> {
    v.map_values(|x: i32| x as int)
}

/// Can the offsets of the patterns that a layer with a first and last pitch expands into be written
/// in database units?
pub fn can_expand(
    die_y_min: i32,
    cell_row_height: i32,
    y_pitch: i32,
    first_last_pitch: i32,
) -> (r: bool)
    requires
        y_pitch != 0,
    ensures
        r == (forall|i: int|
            0 <= i < stacked_origins(
                die_y_min as int,
                cell_row_height as int,
                y_pitch as int,
                first_last_pitch as int,
            ).len() ==> fits(
                #[trigger] stacked_origins(
                    die_y_min as int,
                    cell_row_height as int,
                    y_pitch as int,
                    first_last_pitch as int,
                )[i],
            )),
{
    let ghost all = stacked_origins(
        die_y_min as int,
        cell_row_height as int,
        y_pitch as int,
        first_last_pitch as int,
    );
    let room: i64 = cell_row_height as i64 - 2 * first_last_pitch as i64;
    let steps: i64 = div_toward_zero(room, y_pitch as i64);
    proof {
        lemma_fewer_steps(room as int, y_pitch as int);
    }
    let count: i64 = if steps + 1 > 0 {
        steps + 1
    } else {
        0
    };
    let first: i64 = die_y_min as i64 + first_last_pitch as i64;
    assert(count == all.len() - 1);
    proof {
        let p = y_pitch as int;
        let n = count as int;
        assert(-0x1000_0000_0000_0000_0000 <= n * p <= 0x1000_0000_0000_0000_0000)
            by (nonlinear_arith)
            requires
                0 <= n <= 0x4_0000_0000,
                -0x8000_0000 <= p <= 0x8000_0000,
        ;
        assert((n - 1) * p == n * p - p) by (nonlinear_arith);
    }
    let beyond: i128 = first as i128 + count as i128 * y_pitch as i128;
    let last: i128 = beyond - y_pitch as i128;
    let extra: i128 = last + first_last_pitch as i128;
    let inner: bool = count == 0 || (in_range(first) && i32::MIN as i128 <= last && last
        <= i32::MAX as i128);
    let outer: bool = i32::MIN as i128 <= extra && extra <= i32::MAX as i128;
    proof {
        let p = y_pitch as int;
        let n = count as int;
        assert(all[n] == extra);
        if n > 0 {
            assert(0 * p == 0);
            assert(all[0] == first && all[n - 1] == last);
            assert forall|i: int| 0 <= i < n && inner implies fits(#[trigger] all[i]) by {
                assert(all[i] == first + i * p);
                assert(p >= 0 ==> 0 <= i * p <= (n - 1) * p) by (nonlinear_arith)
                    requires
                        0 <= i <= n - 1,
                ;
                assert(p <= 0 ==> (n - 1) * p <= i * p <= 0) by (nonlinear_arith)
                    requires
                        0 <= i <= n - 1,
                ;
            }
        }
    }
    inner && outer
}

/// The offsets of the patterns that a layer with a first and last pitch expands into.
///
/// Every pattern repeats on the cell row's height; `y_pitch` only spaces the offsets within one
/// row. The count of tracks within the row can be zero or negative when `first_last_pitch` is
/// large, which leaves only the final offset.
pub fn non_uniform_track_origins(
    die_y_min: i32,
    cell_row_height: i32,
    y_pitch: i32,
    first_last_pitch: i32,
) -> (r: Vec<i32>)
    requires
        y_pitch != 0,
        forall|i: int|
            0 <= i < stacked_origins(
                die_y_min as int,
                cell_row_height as int,
                y_pitch as int,
                first_last_pitch as int,
            ).len() ==> fits(
                #[trigger] stacked_origins(
                    die_y_min as int,
                    cell_row_height as int,
                    y_pitch as int,
                    first_last_pitch as int,
                )[i],
            ),
    ensures
        coordinates(r@) == stacked_origins(
            die_y_min as int,
            cell_row_height as int,
            y_pitch as int,
            first_last_pitch as int,
        ),
{
    let ghost all = stacked_origins(
        die_y_min as int,
        cell_row_height as int,
        y_pitch as int,
        first_last_pitch as int,
    );
    let ghost n = row_tracks(cell_row_height as int, y_pitch as int, first_last_pitch as int);
    let room: i64 = cell_row_height as i64 - 2 * first_last_pitch as i64;
    let count: i64 = div_toward_zero(room, y_pitch as i64) + 1;
    let mut out: Vec<i32> = Vec::new();
    let mut origin: i64 = die_y_min as i64 + first_last_pitch as i64;
    let mut i: i64 = 0;
    while i < count
        invariant
            all == stacked_origins(
                die_y_min as int,
                cell_row_height as int,
                y_pitch as int,
                first_last_pitch as int,
            ),
            n == row_tracks(cell_row_height as int, y_pitch as int, first_last_pitch as int),
            count == trunc_div(cell_row_height - 2 * first_last_pitch, y_pitch as int) + 1,
            forall|i: int| 0 <= i < all.len() ==> fits(#[trigger] all[i]),
            0 <= i <= n,
            origin == die_y_min + first_last_pitch + i * y_pitch,
            -0x2_0000_0000 <= origin <= 0x2_0000_0000,
            coordinates(out@) =~= all.take(i as int),
        decreases count - i,
    {
        assert(origin == all[i as int]);
        let ghost made = out@;
        out.push(origin as i32);
        proof {
            assert(coordinates(out@) =~= coordinates(made).push(all[i as int]));
            assert(all.take(i + 1) =~= all.take(i as int).push(all[i as int]));
            let p = y_pitch as int;
            assert((i + 1) * p == i * p + p) by (nonlinear_arith);
        }
        origin = origin + y_pitch as i64;
        i = i + 1;
    }
    assert(i == n);
    origin = origin + first_last_pitch as i64 - y_pitch as i64;
    assert(origin == all[n as int]);
    let ghost made = out@;
    out.push(origin as i32);
    assert(coordinates(out@) =~= coordinates(made).push(all[n as int]));
    assert(all =~= all.take(n as int).push(all[n as int]));
    out
}

/// The skip is the whole layer: there are tracks on both axes or on none, and the x axis is
/// tested first.
pub proof fn law_one_axis_skips_the_whole_layer(x: Option<TrackModel>, y: Option<TrackModel>)
    ensures
        layer_tracks(x, y) is Ok <==> x is Some && y is Some,
        layer_tracks(x, y) == Err::<(TrackModel, TrackModel), _>(TrackSkip::X) <==> x is None,
        layer_tracks(x, y) == Err::<(TrackModel, TrackModel), _>(TrackSkip::Y) <==> x is Some
            && y is None,
{
}

/// A zero offset is one pitch, and an offset past the die is skipped, not clamped.
pub proof fn law_offsets(die_min: int, die_span: int, offset: int, pitch: int, min_width: int)
    ensures
        tracks_on(die_min, die_span, 0, pitch, min_width) == tracks_on(
            die_min,
            die_span,
            pitch,
            pitch,
            min_width,
        ),
        tracks_on(die_min, die_span, offset, pitch, min_width) is None <==> first_offset(
            offset,
            pitch,
        ) > die_span,
{
}

/// Every track that is left is routable: half the minimum width stays inside the die on both
/// sides. And no track is missing behind the last one. This is so wherever half the minimum width
/// does not pass the pitch and the offset is not negative.
pub proof fn law_tracks_are_routable(
    die_min: int,
    die_span: int,
    offset: int,
    pitch: int,
    min_width: int,
    k: int,
)
    requires
        pitch > 0,
        offset >= 0,
        0 <= trunc_div(min_width, 2) <= pitch,
        tracks_on(die_min, die_span, offset, pitch, min_width) is Some,
    ensures
        ({
            let t = tracks_on(die_min, die_span, offset, pitch, min_width).unwrap();
            let half = trunc_div(min_width, 2);
            &&& 0 <= k < t.count ==> {
                &&& die_min <= t.origin + k * t.step - half
                &&& t.origin + k * t.step + half <= die_min + die_span
            }
            &&& t.origin + t.count * t.step + half > die_min + die_span
        }),
{
    let inset = first_offset(offset, pitch);
    let half = trunc_div(min_width, 2);
    let t = tracks_on(die_min, die_span, offset, pitch, min_width).unwrap();
    let steps = (die_span - inset) / pitch;
    lemma_fundamental_div_mod(die_span - inset, pitch);
    assert(steps * pitch <= die_span - inset < steps * pitch + pitch) by (nonlinear_arith)
        requires
            die_span - inset == pitch * steps + (die_span - inset) % pitch,
            0 <= (die_span - inset) % pitch < pitch,
    ;
    let c = t.count;
    assert((steps + 1) * pitch == steps * pitch + pitch) by (nonlinear_arith);
    assert((steps - 1) * pitch == steps * pitch - pitch) by (nonlinear_arith);
    assert((steps - 2) * pitch == steps * pitch - 2 * pitch) by (nonlinear_arith);
    assert((c - 1) * pitch == c * pitch - pitch) by (nonlinear_arith);
    if 0 <= k < c {
        assert(0 <= k * pitch <= (c - 1) * pitch) by (nonlinear_arith)
            requires
                0 <= k <= c - 1,
                pitch > 0,
        ;
    }
}

/// A layer with a first and last pitch always gets its final pattern, and one more for each track
/// within the cell row. Where the pitch divides what the first and last leave of the row, the
/// final offset is one row height above the die's edge.
pub proof fn law_the_final_origin(
    die_y_min: int,
    cell_row_height: int,
    y_pitch: int,
    first_last_pitch: int,
)
    requires
        y_pitch > 0,
    ensures
        ({
            let all = stacked_origins(die_y_min, cell_row_height, y_pitch, first_last_pitch);
            &&& all.len() == row_tracks(cell_row_height, y_pitch, first_last_pitch) + 1
            &&& cell_row_height - 2 * first_last_pitch >= 0 ==> all[0] == die_y_min
                + first_last_pitch
            &&& cell_row_height - 2 * first_last_pitch >= 0 && (cell_row_height - 2
                * first_last_pitch) % y_pitch == 0 ==> all.last() == die_y_min + cell_row_height
        }),
{
    let room = cell_row_height - 2 * first_last_pitch;
    let n = row_tracks(cell_row_height, y_pitch, first_last_pitch);
    if room >= 0 {
        let q = room / y_pitch;
        lemma_fundamental_div_mod(room, y_pitch);
        assert(q >= 0) by (nonlinear_arith)
            requires
                room == y_pitch * q + room % y_pitch,
                room % y_pitch < y_pitch,
                room >= 0,
                y_pitch > 0,
        ;
        assert((q + 1) * y_pitch == y_pitch * q + y_pitch) by (nonlinear_arith);
        assert(n == q + 1);
        assert(0 * y_pitch == 0);
    }
}

/// The tracks of one axis, in full. Tracks lie one pitch apart, the first one the offset in from
/// the die's edge, or one pitch where the offset is zero; `steps` more of them reach no further
/// than the die. The first is dropped exactly where it is closer to the edge than `half`, and the
/// last one then left is dropped exactly where it is closer than that to the other edge.
pub proof fn law_no_routable_track_is_missing(
    die_min: int,
    die_span: int,
    offset: int,
    pitch: int,
    min_width: int,
    steps: int,
    half: int,
)
    requires
        pitch > 0,
        min_width >= 0,
        2 * half <= min_width < 2 * half + 2,
        steps >= 0,
        ({
            let first = if offset == 0 {
                pitch
            } else {
                offset
            };
            first + steps * pitch <= die_span < first + steps * pitch + pitch
        }),
    ensures
        ({
            let first = if offset == 0 {
                pitch
            } else {
                offset
            };
            let low = first < half;
            let origin = if low {
                die_min + first + pitch
            } else {
                die_min + first
            };
            let high = die_min + first + steps * pitch + half > die_min + die_span;
            tracks_on(die_min, die_span, offset, pitch, min_width) == Some(
                TrackModel {
                    origin,
                    step: pitch,
                    count: steps + 1 - (if low {
                        1int
                    } else {
                        0
                    }) - (if high {
                        1int
                    } else {
                        0
                    }),
                },
            )
        }),
{
    let first = if offset == 0 {
        pitch
    } else {
        offset
    };
    let room = die_span - first;
    vstd::arithmetic::div_mod::lemma_fundamental_div_mod_converse(
        room,
        pitch,
        steps,
        room - steps * pitch,
    );
    vstd::arithmetic::div_mod::lemma_fundamental_div_mod_converse(
        min_width,
        2,
        half,
        min_width - 2 * half,
    );
    assert(steps * pitch >= 0) by (nonlinear_arith)
        requires
            steps >= 0,
            pitch > 0,
    ;
    assert(trunc_div(room, pitch) == steps && trunc_div(min_width, 2) == half);
    assert((steps - 1) * pitch == steps * pitch - pitch) by (nonlinear_arith);
}

/// The tracks of a moved die are moved with it.
pub proof fn law_tracks_move_with_the_die(
    die_min: int,
    die_span: int,
    offset: int,
    pitch: int,
    min_width: int,
    by: int,
)
    ensures
        tracks_on(die_min + by, die_span, offset, pitch, min_width) == (match tracks_on(
            die_min,
            die_span,
            offset,
            pitch,
            min_width,
        ) {
            Some(t) => Some(TrackModel { origin: t.origin + by, ..t }),
            None => None,
        }),
{
}

/// A layer with tracks has on x what the x axis gives and on y what the y axis gives.
pub proof fn law_each_axis_keeps_its_own_tracks(x: TrackModel, y: TrackModel)
    ensures
        layer_tracks(Some(x), Some(y)) == Ok::<_, TrackSkip>((x, y)),
{
}

/// The offsets of a layer with a first and last pitch, in full: the first lies that pitch above the
/// die's edge, each of the next `steps` one y pitch above the one before, as far as the last pitch
/// allows within the row, and the final one lies the first and last pitch above the last of them.
/// Where a whole y pitch is missing for the first and last pitch to fit into the row, the final one
/// is alone, one y pitch lower than twice that pitch above the edge.
pub proof fn law_the_stack_of_origins_in_full(
    die_y_min: int,
    cell_row_height: int,
    y_pitch: int,
    first_last_pitch: int,
    steps: int,
)
    requires
        y_pitch > 0,
        steps >= 0,
        steps > 0 ==> 2 * first_last_pitch + steps * y_pitch <= cell_row_height,
        cell_row_height < 2 * first_last_pitch + steps * y_pitch + y_pitch,
    ensures
        ({
            let all = stacked_origins(die_y_min, cell_row_height, y_pitch, first_last_pitch);
            &&& cell_row_height > 2 * first_last_pitch - y_pitch ==> {
                &&& all.len() == steps + 2
                &&& all[0] == die_y_min + first_last_pitch
                &&& forall|i: int|
                    0 < i <= steps ==> #[trigger] all[i] == die_y_min + first_last_pitch + i
                        * y_pitch
                &&& all[steps + 1] == all[steps] + first_last_pitch
            }
            &&& cell_row_height <= 2 * first_last_pitch - y_pitch ==> all == seq![
                die_y_min + 2 * first_last_pitch - y_pitch,
            ]
        }),
{
    let room = cell_row_height - 2 * first_last_pitch;
    let all = stacked_origins(die_y_min, cell_row_height, y_pitch, first_last_pitch);
    assert(0 * y_pitch == 0);
    assert((steps + 1) * y_pitch == steps * y_pitch + y_pitch) by (nonlinear_arith);
    assert(steps > 0 ==> steps * y_pitch > 0) by (nonlinear_arith)
        requires
            y_pitch > 0,
    ;
    if room >= 0 {
        vstd::arithmetic::div_mod::lemma_fundamental_div_mod_converse(
            room,
            y_pitch,
            steps,
            room - steps * y_pitch,
        );
    } else if room > -y_pitch {
        vstd::arithmetic::div_mod::lemma_fundamental_div_mod_converse(-room, y_pitch, 0, -room);
    } else {
        let q = (-room) / y_pitch;
        lemma_fundamental_div_mod(-room, y_pitch);
        assert(q >= 1) by (nonlinear_arith)
            requires
                -room == y_pitch * q + (-room) % y_pitch,
                (-room) % y_pitch < y_pitch,
                -room >= y_pitch,
                y_pitch > 0,
        ;
        assert(all =~= seq![die_y_min + 2 * first_last_pitch - y_pitch]);
    }
}

/// A pattern is known by its origin, count and step, each as it is stored. Tracks by a pitch fit as
/// soon as their origin and their count are in the 32-bit range, and an axis that gets none fits
/// anyway.
pub proof fn law_a_pattern_is_its_numbers(
    t: TrackPattern,
    die_min: int,
    die_span: int,
    offset: int,
    pitch: int,
    min_width: int,
)
    ensures
        t@.origin == t.origin && t@.count == t.count && t@.step == t.step,
        ({
            let r = tracks_on(die_min, die_span, offset, pitch, min_width);
            &&& r is None ==> tracks_fit(die_min, die_span, offset, pitch, min_width)
            &&& pitch != 0 && (r matches Some(u) && -0x8000_0000 <= u.origin <= 0x7fff_ffff
                && -0x8000_0000 <= u.count <= 0x7fff_ffff) ==> tracks_fit(
                die_min,
                die_span,
                offset,
                pitch,
                min_width,
            )
        }),
{
}

/// The tracks of one axis by a pitch of either sign, and wires of any width. An axis gets none
/// where the first track lies beyond the die. Else `steps` tracks are counted on from it, as many
/// as the rest of the die holds of the pitch, and down from it where the pitch is negative. The
/// drops at either edge are the same, with half the width rounded toward zero.
pub proof fn law_tracks_by_a_pitch_of_either_sign(
    die_min: int,
    die_span: int,
    offset: int,
    pitch: int,
    min_width: int,
    steps: int,
    half: int,
)
    requires
        pitch != 0,
        min_width >= 0 ==> 2 * half <= min_width < 2 * half + 2,
        min_width < 0 ==> 2 * half - 2 < min_width <= 2 * half,
    ensures
        ({
            let first = if offset == 0 {
                pitch
            } else {
                offset
            };
            let room = die_span - first;
            let span = steps * pitch;
            let r = tracks_on(die_min, die_span, offset, pitch, min_width);
            let low: int = if first < half {
                1
            } else {
                0
            };
            let high: int = if first + span + half > die_span {
                1
            } else {
                0
            };
            &&& first > die_span <==> r is None
            &&& pitch > 0 && steps >= 0 && span <= room < span + pitch || pitch < 0 && steps <= 0
                && span <= room < span - pitch ==> r == Some(
                TrackModel {
                    origin: die_min + first + low * pitch,
                    count: steps + 1 - low - high,
                    step: pitch,
                },
            )
        }),
{
    let first = first_offset(offset, pitch);
    let room = die_span - first;
    let span = steps * pitch;
    if min_width >= 0 {
        assert(trunc_div(min_width, 2) == half);
    } else {
        assert(trunc_div(min_width, 2) == half);
    }
    assert((steps - 1) * pitch == span - pitch) by (nonlinear_arith)
        requires
            span == steps * pitch,
    ;
    assert(1 * pitch == pitch && 0 * pitch == 0);
    if pitch > 0 && steps >= 0 && span <= room < span + pitch {
        assert(span >= 0) by (nonlinear_arith)
            requires
                span == steps * pitch,
                steps >= 0,
                pitch > 0,
        ;
        vstd::arithmetic::div_mod::lemma_fundamental_div_mod_converse(
            room,
            pitch,
            steps,
            room - span,
        );
        assert(trunc_div(room, pitch) == steps);
    } else if pitch < 0 && steps <= 0 && span <= room < span - pitch {
        assert(span >= 0 && (-steps) * (-pitch) == span) by (nonlinear_arith)
            requires
                span == steps * pitch,
                steps <= 0,
                pitch < 0,
        ;
        vstd::arithmetic::div_mod::lemma_fundamental_div_mod_converse(
            room,
            -pitch,
            -steps,
            room - span,
        );
        assert(trunc_div(room, pitch) == steps);
    }
}

/// The offsets of a layer whose y pitch is negative: they go down from the first one, `steps` more
/// of them where that many pitches are missing in the row, and the final one lies the first and
/// last pitch above the last of them. Where at least one whole pitch is left in the row, the final
/// one is alone.
pub proof fn law_the_stack_of_origins_by_a_falling_pitch(
    die_y_min: int,
    cell_row_height: int,
    y_pitch: int,
    first_last_pitch: int,
    steps: int,
)
    requires
        y_pitch < 0,
    ensures
        ({
            let all = stacked_origins(die_y_min, cell_row_height, y_pitch, first_last_pitch);
            let missing = 2 * first_last_pitch - cell_row_height;
            &&& missing <= y_pitch ==> all == seq![die_y_min + 2 * first_last_pitch - y_pitch]
            &&& y_pitch < missing && steps >= 0 && (steps > 0 ==> steps * (-y_pitch) <= missing)
                && missing < steps * (-y_pitch) - y_pitch ==> {
                &&& all.len() == steps + 2
                &&& forall|i: int|
                    0 <= i <= steps ==> #[trigger] all[i] == die_y_min + first_last_pitch + i
                        * y_pitch
                &&& all[steps + 1] == all[steps] + first_last_pitch
            }
        }),
{
    let p = -y_pitch;
    let room = cell_row_height - 2 * first_last_pitch;
    let all = stacked_origins(die_y_min, cell_row_height, y_pitch, first_last_pitch);
    assert(0 * y_pitch == 0 && 0 * p == 0);
    assert((steps + 1) * y_pitch == steps * y_pitch + y_pitch) by (nonlinear_arith);
    if room >= p {
        let q = room / p;
        lemma_fundamental_div_mod(room, p);
        assert(q >= 1) by (nonlinear_arith)
            requires
                room == p * q + room % p,
                room % p < p,
                room >= p,
                p > 0,
        ;
        assert(all =~= seq![die_y_min + 2 * first_last_pitch - y_pitch]);
    } else if steps >= 0 && (steps > 0 ==> steps * p <= -room) && -room < steps * p + p {
        if steps > 0 {
            assert(steps * p >= p) by (nonlinear_arith)
                requires
                    steps >= 1,
                    p > 0,
            ;
            vstd::arithmetic::div_mod::lemma_fundamental_div_mod_converse(
                -room,
                p,
                steps,
                -room - steps * p,
            );
        } else if room >= 0 {
            vstd::arithmetic::div_mod::lemma_fundamental_div_mod_converse(room, p, 0, room);
        } else {
            vstd::arithmetic::div_mod::lemma_fundamental_div_mod_converse(-room, p, 0, -room);
        }
        assert(row_tracks(cell_row_height, y_pitch, first_last_pitch) == steps + 1);
    }
}

} // verus!
