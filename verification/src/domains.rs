//! Voltage domains: rebuilding the rows that cross one.

use crate::geometry::{
    are_whole_steps, div_toward_zero, fits, in_range, law_site_loc_rounds_one_way,
    lemma_site_loc_above, site_loc, trunc_div, wide_site_loc, Area, Rect,
};
use crate::model::{domain_models, row_models, Domain, DomainModel, Row, RowModel};
use crate::text::joined;
use vstd::prelude::*;

verus! {

/// Asked whether `name` is a pad site, `f` answers, and never otherwise than `x`.
pub open spec fn tells_pad<P: Fn(&str) -> bool>(f: P, name: Seq<char>, x: bool) -> bool {
    &&& forall|s: &str| s@ == name ==> #[trigger] call_requires(f, (s,))
    &&& forall|s: &str, y: bool| s@ == name && #[trigger] call_ensures(f, (s,), y) ==> y == x
}

/// Asked how high the site `name` is, `f` answers, and never otherwise than `x`.
pub open spec fn tells_height<H: Fn(&str) -> i32>(f: H, name: Seq<char>, x: int) -> bool {
    &&& forall|s: &str| s@ == name ==> #[trigger] call_requires(f, (s,))
    &&& forall|s: &str, y: i32| s@ == name && #[trigger] call_ensures(f, (s,), y) ==> y == x
}

/// The two functions tell what `is_pad` and `height` say of the site `name`: whether it is a pad
/// site, and if it is not, how high it is.
pub open spec fn site_told<H: Fn(&str) -> i32, P: Fn(&str) -> bool>(
    site_height: H,
    site_is_pad: P,
    name: Seq<char>,
    height: spec_fn(Seq<char>) -> int,
    is_pad: spec_fn(Seq<char>) -> bool,
) -> bool {
    &&& tells_pad(site_is_pad, name, is_pad(name))
    &&& !is_pad(name) ==> tells_height(site_height, name, height(name))
}

/// The two functions tell what `is_pad` and `height` say of every site that rows are made of.
pub open spec fn told_of<H: Fn(&str) -> i32, P: Fn(&str) -> bool>(
    site_height: H,
    site_is_pad: P,
    rows: Seq<RowModel>,
    height: spec_fn(Seq<char>) -> int,
    is_pad: spec_fn(Seq<char>) -> bool,
) -> bool {
    forall|i: int|
        0 <= i < rows.len() ==> site_told(
            site_height,
            site_is_pad,
            (#[trigger] rows[i]).site,
            height,
            is_pad,
        )
}

/// The two functions have been asked about the site `name`.
spec fn heard<H: Fn(&str) -> i32, P: Fn(&str) -> bool>(
    site_height: H,
    site_is_pad: P,
    name: Seq<char>,
    is_pad: spec_fn(Seq<char>) -> bool,
) -> bool {
    &&& exists|s: &str, y: bool| s@ == name && #[trigger] call_ensures(site_is_pad, (s,), y)
    &&& !is_pad(name) ==> exists|s: &str, y: i32|
        s@ == name && #[trigger] call_ensures(site_height, (s,), y)
}

/// Two accounts of the site `name` agree, as far as they are asked for.
spec fn alike(
    name: Seq<char>,
    height: spec_fn(Seq<char>) -> int,
    is_pad: spec_fn(Seq<char>) -> bool,
    other_height: spec_fn(Seq<char>) -> int,
    other_is_pad: spec_fn(Seq<char>) -> bool,
) -> bool {
    &&& is_pad(name) == other_is_pad(name)
    &&& !is_pad(name) ==> height(name) == other_height(name)
}

/// The smaller of two, where there are two.
pub open spec fn least(a: Option<int>, b: int) -> Option<int> {
    match a {
        Some(x) => if x <= b {
            Some(x)
        } else {
            Some(b)
        },
        None => Some(b),
    }
}

/// The smallest site width among the rows that are not pad rows.
pub open spec fn least_spacing(
    rows: Seq<RowModel>,
    is_pad: spec_fn(Seq<char>) -> bool,
) -> Option<int>
    decreases rows.len(),
{
    if rows.len() == 0 {
        None
    } else {
        let rest = least_spacing(rows.drop_last(), is_pad);
        if is_pad(rows.last().site) {
            rest
        } else {
            least(rest, rows.last().spacing)
        }
    }
}

/// The smallest site height among the rows that are not pad rows.
pub open spec fn least_height(
    rows: Seq<RowModel>,
    height: spec_fn(Seq<char>) -> int,
    is_pad: spec_fn(Seq<char>) -> bool,
) -> Option<int>
    decreases rows.len(),
{
    if rows.len() == 0 {
        None
    } else {
        let rest = least_height(rows.drop_last(), height, is_pad);
        if is_pad(rows.last().site) {
            rest
        } else {
            least(rest, height(rows.last().site))
        }
    }
}

/// What a domain takes from the rows: its box on the site grid, and the margin around it.
#[verifier::ext_equal]
pub struct Cut {
    pub bbox: Area,
    pub space: int,
    pub name: Seq<char>,
}

/// The domain's box snapped inward, and its margin on both axes: the gap that was asked for, else
/// six of the smallest site heights. Nothing is cut where every row is a pad row, or where a
/// smallest dimension is not positive.
pub open spec fn cut_of(
    rows: Seq<RowModel>,
    domain: DomainModel,
    gap: Option<i32>,
    height: spec_fn(Seq<char>) -> int,
    is_pad: spec_fn(Seq<char>) -> bool,
) -> Option<Cut> {
    match (least_spacing(rows, is_pad), least_height(rows, height, is_pad)) {
        (Some(dx), Some(dy)) => if dx <= 0 || dy <= 0 {
            None
        } else {
            Some(
                Cut {
                    bbox: inward(domain.bbox, dx, dy),
                    space: match gap {
                        Some(g) => g as int,
                        None => 6 * dy,
                    },
                    name: domain.name,
                },
            )
        },
        _ => None,
    }
}

/// A box snapped inward to a grid: the minimum rounds up and the maximum rounds down.
pub open spec fn inward(bbox: Area, dx: int, dy: int) -> Area {
    Area {
        x_min: site_loc(bbox.x_min, dx, false, 0),
        y_min: site_loc(bbox.y_min, dy, false, 0),
        x_max: site_loc(bbox.x_max, dx, true, 0),
        y_max: site_loc(bbox.y_max, dy, true, 0),
    }
}

/// A row stays as it is: it is a pad row, or it lies clear of the domain and its margin.
pub open spec fn is_kept(
    row: RowModel,
    cut: Cut,
    height: spec_fn(Seq<char>) -> int,
    is_pad: spec_fn(Seq<char>) -> bool,
) -> bool {
    ||| is_pad(row.site)
    ||| row.y + height(row.site) + cut.space <= cut.bbox.y_min
    ||| row.y >= cut.bbox.y_max + cut.space
}

/// Where the piece right of the domain begins. Only this edge is put on the row's own grid again.
pub open spec fn right_start(row: RowModel, cut: Cut) -> int {
    site_loc(cut.bbox.x_max + cut.space, row.spacing, false, 0)
}

/// The piece left of the domain, if there is room for it.
pub open spec fn left_piece(row: RowModel, cut: Cut, core: Area) -> Seq<RowModel> {
    if cut.bbox.x_min - cut.space > core.x_min + row.spacing {
        seq![
            RowModel {
                name: row.name + "_1"@,
                num_sites: trunc_div(cut.bbox.x_min - cut.space - core.x_min, row.spacing),
                x: core.x_min,
                ..row
            },
        ]
    } else {
        Seq::empty()
    }
}

/// The piece right of the domain, if there is room for it.
pub open spec fn right_piece(row: RowModel, cut: Cut, core: Area) -> Seq<RowModel> {
    if right_start(row, cut) + row.spacing < core.x_max {
        seq![
            RowModel {
                name: row.name + "_2"@,
                num_sites: trunc_div(core.x_max - right_start(row, cut), row.spacing),
                x: right_start(row, cut),
                ..row
            },
        ]
    } else {
        Seq::empty()
    }
}

/// The piece across the domain, for a row that lies wholly within its vertical range. A row in
/// the margin above or below loses its middle.
pub open spec fn middle_piece(row: RowModel, cut: Cut, height: int) -> Seq<RowModel> {
    if row.y >= cut.bbox.y_min && row.y + height <= cut.bbox.y_max {
        seq![
            RowModel {
                name: row.name + "_"@ + cut.name,
                num_sites: trunc_div(cut.bbox.x_max - cut.bbox.x_min, row.spacing),
                x: cut.bbox.x_min,
                ..row
            },
        ]
    } else {
        Seq::empty()
    }
}

/// The pieces of a row that crosses the domain, in the order in which they are created.
pub open spec fn pieces(row: RowModel, cut: Cut, core: Area, height: int) -> Seq<RowModel> {
    left_piece(row, cut, core) + right_piece(row, cut, core) + middle_piece(row, cut, height)
}

/// What takes a row's place: the row itself, or its first piece.
pub open spec fn in_place_of(
    row: RowModel,
    cut: Cut,
    core: Area,
    height: spec_fn(Seq<char>) -> int,
    is_pad: spec_fn(Seq<char>) -> bool,
) -> Seq<RowModel> {
    if is_kept(row, cut, height, is_pad) {
        seq![row]
    } else {
        pieces(row, cut, core, height(row.site)).take(
            if pieces(row, cut, core, height(row.site)).len() > 0 {
                1
            } else {
                0
            },
        )
    }
}

/// What a row adds behind all others: its pieces but for the first.
pub open spec fn appended_for(
    row: RowModel,
    cut: Cut,
    core: Area,
    height: spec_fn(Seq<char>) -> int,
    is_pad: spec_fn(Seq<char>) -> bool,
) -> Seq<RowModel> {
    if is_kept(row, cut, height, is_pad) {
        Seq::empty()
    } else {
        pieces(row, cut, core, height(row.site)).skip(
            if pieces(row, cut, core, height(row.site)).len() > 0 {
                1
            } else {
                0
            },
        )
    }
}

/// What takes the rows' places.
pub open spec fn in_places(
    rows: Seq<RowModel>,
    cut: Cut,
    core: Area,
    height: spec_fn(Seq<char>) -> int,
    is_pad: spec_fn(Seq<char>) -> bool,
) -> Seq<RowModel>
    decreases rows.len(),
{
    if rows.len() == 0 {
        Seq::empty()
    } else {
        in_places(rows.drop_last(), cut, core, height, is_pad) + in_place_of(
            rows.last(),
            cut,
            core,
            height,
            is_pad,
        )
    }
}

/// What the rows add behind all others.
pub open spec fn appended(
    rows: Seq<RowModel>,
    cut: Cut,
    core: Area,
    height: spec_fn(Seq<char>) -> int,
    is_pad: spec_fn(Seq<char>) -> bool,
) -> Seq<RowModel>
    decreases rows.len(),
{
    if rows.len() == 0 {
        Seq::empty()
    } else {
        appended(rows.drop_last(), cut, core, height, is_pad) + appended_for(
            rows.last(),
            cut,
            core,
            height,
            is_pad,
        )
    }
}

/// The rows around one domain: a row that crosses it is replaced by its pieces, the first in its
/// place and the others behind all rows.
pub open spec fn split_by_one(
    rows: Seq<RowModel>,
    domain: DomainModel,
    core: Area,
    gap: Option<i32>,
    height: spec_fn(Seq<char>) -> int,
    is_pad: spec_fn(Seq<char>) -> bool,
) -> Seq<RowModel> {
    match cut_of(rows, domain, gap, height, is_pad) {
        Some(cut) => in_places(rows, cut, core, height, is_pad) + appended(
            rows,
            cut,
            core,
            height,
            is_pad,
        ),
        None => rows,
    }
}

/// The rows around every domain in turn, each applied to what the one before left.
pub open spec fn split_by_all(
    rows: Seq<RowModel>,
    domains: Seq<DomainModel>,
    core: Area,
    gap: Option<i32>,
    height: spec_fn(Seq<char>) -> int,
    is_pad: spec_fn(Seq<char>) -> bool,
) -> Seq<RowModel>
    decreases domains.len(),
{
    if domains.len() == 0 {
        rows
    } else {
        split_by_one(
            split_by_all(rows, domains.drop_last(), core, gap, height, is_pad),
            domains.last(),
            core,
            gap,
            height,
            is_pad,
        )
    }
}

/// The pieces of one row can be written in database units.
pub open spec fn pieces_fit(
    row: RowModel,
    cut: Cut,
    core: Area,
    height: spec_fn(Seq<char>) -> int,
    is_pad: spec_fn(Seq<char>) -> bool,
) -> bool {
    is_kept(row, cut, height, is_pad) || forall|i: int|
        0 <= i < pieces(row, cut, core, height(row.site)).len() ==> fits(
            (#[trigger] pieces(row, cut, core, height(row.site))[i]).num_sites,
        )
}

/// The pieces around one domain can be written in database units.
pub open spec fn split_fits(
    rows: Seq<RowModel>,
    domain: DomainModel,
    core: Area,
    gap: Option<i32>,
    height: spec_fn(Seq<char>) -> int,
    is_pad: spec_fn(Seq<char>) -> bool,
) -> bool {
    cut_of(rows, domain, gap, height, is_pad) matches Some(cut) ==> forall|i: int|
        0 <= i < rows.len() ==> pieces_fit(#[trigger] rows[i], cut, core, height, is_pad)
}

/// The pieces around the `k`-th domain, applied to what those before it left, can be written in
/// database units.
pub open spec fn stage_fits(
    rows: Seq<RowModel>,
    domains: Seq<DomainModel>,
    core: Area,
    gap: Option<i32>,
    height: spec_fn(Seq<char>) -> int,
    is_pad: spec_fn(Seq<char>) -> bool,
    k: int,
) -> bool {
    split_fits(
        split_by_all(rows, domains.take(k), core, gap, height, is_pad),
        domains[k],
        core,
        gap,
        height,
        is_pad,
    )
}

/// The pieces around every domain in turn can be written in database units.
pub open spec fn domains_fit(
    rows: Seq<RowModel>,
    domains: Seq<DomainModel>,
    core: Area,
    gap: Option<i32>,
    height: spec_fn(Seq<char>) -> int,
    is_pad: spec_fn(Seq<char>) -> bool,
) -> bool {
    forall|k: int|
        0 <= k < domains.len() ==> #[trigger] stage_fits(
            rows,
            domains,
            core,
            gap,
            height,
            is_pad,
            k,
        )
}

/// The exec counterpart of [`Cut`].
struct CutBox {
    bbox: Rect,
    space: i64,
}

impl CutBox {
    /// What the box, the margin and the domain's name describe.
    spec fn model(self, domain: DomainModel) -> Cut {
        Cut { bbox: self.bbox@, space: self.space as int, name: domain.name }
    }

    /// The margin is a gap, or six times a height.
    spec fn in_range(self) -> bool {
        -0x4_0000_0000 <= self.space <= 0x4_0000_0000
    }
}

/// Measures the rows and snaps the domain's box.
fn find_cut<H: Fn(&str) -> i32, P: Fn(&str) -> bool>(
    rows: &Vec<Row>,
    domain: &Domain,
    gap: Option<i32>,
    site_height: &H,
    site_is_pad: &P,
    Ghost(hs): Ghost<spec_fn(Seq<char>) -> int>,
    Ghost(ps): Ghost<spec_fn(Seq<char>) -> bool>,
) -> (r: Option<CutBox>)
    requires
        told_of(*site_height, *site_is_pad, row_models(rows@), hs, ps),
    ensures
        cut_of(row_models(rows@), domain@, gap, hs, ps) == (match r {
            Some(c) => Some(c.model(domain@)),
            None => None,
        }),
        r matches Some(c) ==> c.in_range() && forall|i: int|
            0 <= i < rows@.len() && !ps(rows@[i].site@) ==> (#[trigger] rows@[i]).spacing > 0,
        forall|i: int|
            0 <= i < rows@.len() ==> heard(
                *site_height,
                *site_is_pad,
                (#[trigger] row_models(rows@)[i]).site,
                ps,
            ),
{
    let ghost models = row_models(rows@);
    let mut dims: Option<(i32, i32)> = None;
    let mut i: usize = 0;
    while i < rows.len()
        invariant
            i <= rows@.len(),
            models == row_models(rows@),
            told_of(*site_height, *site_is_pad, models, hs, ps),
            forall|k: int|
                0 <= k < i ==> heard(*site_height, *site_is_pad, (#[trigger] models[k]).site, ps),
            match dims {
                Some((dx, dy)) => {
                    &&& least_spacing(models.take(i as int), ps) == Some(dx as int)
                    &&& least_height(models.take(i as int), hs, ps) == Some(dy as int)
                    &&& forall|k: int|
                        0 <= k < i && !ps(rows@[k].site@) ==> (#[trigger] rows@[k]).spacing >= dx
                },
                None => {
                    &&& least_spacing(models.take(i as int), ps) is None
                    &&& least_height(models.take(i as int), hs, ps) is None
                    &&& forall|k: int| 0 <= k < i ==> ps((#[trigger] rows@[k]).site@)
                },
            },
        decreases rows.len() - i,
    {
        let row: &Row = &rows[i];
        let site: &str = row.site.as_str();
        proof {
            assert(models.take(i + 1).drop_last() =~= models.take(i as int));
            assert(models.take(i + 1).last() == row@);
            assert(models[i as int].site == site@);
        }
        if !site_is_pad(site) {
            let dy: i32 = site_height(site);
            dims = match dims {
                Some((a, b)) => Some(
                    (
                        if a <= row.spacing {
                            a
                        } else {
                            row.spacing
                        },
                        if b <= dy {
                            b
                        } else {
                            dy
                        },
                    ),
                ),
                None => Some((row.spacing, dy)),
            };
        }
        i = i + 1;
    }
    assert(models.take(models.len() as int) =~= models);
    match dims {
        Some((dx, dy)) => {
            if dx <= 0 || dy <= 0 {
                return None;
            }
            let space: i64 = match gap {
                Some(g) => g as i64,
                None => 6 * dy as i64,
            };
            Some(
                CutBox {
                    bbox: Rect {
                        x_min: wide_site_loc(domain.bbox.x_min as i64, dx, false, 0),
                        y_min: wide_site_loc(domain.bbox.y_min as i64, dy, false, 0),
                        x_max: wide_site_loc(domain.bbox.x_max as i64, dx, true, 0),
                        y_max: wide_site_loc(domain.bbox.y_max as i64, dy, true, 0),
                    },
                    space,
                },
            )
        },
        None => None,
    }
}

fn with_suffix(row: &Row, suffix: &str, x: i32, num_sites: i32) -> (r: Row)
    ensures
        r@ == (RowModel {
            name: row@.name + suffix@,
            num_sites: num_sites as int,
            x: x as int,
            ..row@
        }),
{
    Row {
        name: joined(row.name.as_str(), suffix),
        site: row.site.clone(),
        x,
        y: row.y,
        orient: row.orient.clone(),
        num_sites,
        spacing: row.spacing,
    }
}

/// Can the pieces of a row that crosses the domain be written in database units?
fn can_cut(row: &Row, c: &CutBox, domain: &Domain, core: Rect, height: i32) -> (r: bool)
    requires
        c.in_range(),
        row.spacing > 0,
    ensures
        r == (forall|i: int|
            0 <= i < pieces(row@, c.model(domain@), core@, height as int).len() ==> fits(
                (#[trigger] pieces(row@, c.model(domain@), core@, height as int)[i]).num_sites,
            )),
{
    let ghost cut = c.model(domain@);
    let ghost left = left_piece(row@, cut, core@);
    let ghost right = right_piece(row@, cut, core@);
    let ghost all = pieces(row@, cut, core@, height as int);
    let dx: i64 = row.spacing as i64;
    let left_end: i64 = c.bbox.x_min as i64 - c.space;
    if left_end > core.x_min as i64 + dx {
        assert(all[0] == left[0]);
        if !in_range(div_toward_zero(left_end - core.x_min as i64, dx)) {
            return false;
        }
    }
    let right_x: i32 = wide_site_loc(c.bbox.x_max as i64 + c.space, row.spacing, false, 0);
    if (right_x as i64) + dx < core.x_max as i64 {
        assert(all[left.len() as int] == right[0]);
        if !in_range(div_toward_zero(core.x_max as i64 - right_x as i64, dx)) {
            return false;
        }
    }
    if row.y >= c.bbox.y_min && row.y as i64 + height as i64 <= c.bbox.y_max as i64 {
        assert(all[left.len() + right.len() as int] == middle_piece(row@, cut, height as int)[0]);
        if !in_range(div_toward_zero(c.bbox.x_max as i64 - c.bbox.x_min as i64, dx)) {
            return false;
        }
    }
    true
}

/// The pieces of a row that crosses the domain: left, right, then the domain row.
fn cut_row(row: &Row, c: &CutBox, domain: &Domain, core: Rect, height: i32) -> (r: Vec<Row>)
    requires
        c.in_range(),
        row.spacing > 0,
        forall|i: int|
            0 <= i < pieces(row@, c.model(domain@), core@, height as int).len() ==> fits(
                (#[trigger] pieces(row@, c.model(domain@), core@, height as int)[i]).num_sites,
            ),
    ensures
        row_models(r@) == pieces(row@, c.model(domain@), core@, height as int),
{
    let ghost cut = c.model(domain@);
    let ghost left = left_piece(row@, cut, core@);
    let ghost right = right_piece(row@, cut, core@);
    let ghost middle = middle_piece(row@, cut, height as int);
    let ghost all = pieces(row@, cut, core@, height as int);
    let mut out: Vec<Row> = Vec::new();
    let dx: i64 = row.spacing as i64;
    let left_end: i64 = c.bbox.x_min as i64 - c.space;
    assert(row_models(out@) =~= Seq::<RowModel>::empty());
    if left_end > core.x_min as i64 + dx {
        assert(all[0] == left[0]);
        let n: i64 = div_toward_zero(left_end - core.x_min as i64, dx);
        out.push(with_suffix(row, "_1", core.x_min, n as i32));
        assert(row_models(out@) =~= left);
    } else {
        assert(row_models(out@) =~= left);
    }
    let right_x: i32 = wide_site_loc(c.bbox.x_max as i64 + c.space, row.spacing, false, 0);
    let ghost made = out@;
    if (right_x as i64) + dx < core.x_max as i64 {
        assert(all[left.len() as int] == right[0]);
        let n: i64 = div_toward_zero(core.x_max as i64 - right_x as i64, dx);
        out.push(with_suffix(row, "_2", right_x, n as i32));
        assert(row_models(out@) =~= row_models(made).push(right[0]));
    }
    assert(row_models(out@) =~= left + right);
    let ghost made = out@;
    if row.y >= c.bbox.y_min && row.y as i64 + height as i64 <= c.bbox.y_max as i64 {
        assert(all[left.len() + right.len() as int] == middle[0]);
        let n: i64 = div_toward_zero(c.bbox.x_max as i64 - c.bbox.x_min as i64, dx);
        let suffix: String = joined("_", domain.name.as_str());
        out.push(with_suffix(row, suffix.as_str(), c.bbox.x_min, n as i32));
        proof {
            assert(row@.name + ("_"@ + cut.name) =~= row@.name + "_"@ + cut.name);
            assert(row_models(out@) =~= row_models(made).push(middle[0]));
        }
    }
    assert(row_models(out@) =~= all);
    out
}

proof fn lemma_alike<H: Fn(&str) -> i32, P: Fn(&str) -> bool>(
    site_height: H,
    site_is_pad: P,
    name: Seq<char>,
    hs: spec_fn(Seq<char>) -> int,
    ps: spec_fn(Seq<char>) -> bool,
    other_hs: spec_fn(Seq<char>) -> int,
    other_ps: spec_fn(Seq<char>) -> bool,
)
    requires
        heard(site_height, site_is_pad, name, ps),
        site_told(site_height, site_is_pad, name, hs, ps),
        site_told(site_height, site_is_pad, name, other_hs, other_ps),
    ensures
        alike(name, hs, ps, other_hs, other_ps),
{
}

/// What is cut from the rows depends on what is said of their sites alone.
proof fn lemma_cut_alike(
    rows: Seq<RowModel>,
    hs: spec_fn(Seq<char>) -> int,
    ps: spec_fn(Seq<char>) -> bool,
    other_hs: spec_fn(Seq<char>) -> int,
    other_ps: spec_fn(Seq<char>) -> bool,
)
    requires
        forall|i: int|
            0 <= i < rows.len() ==> alike((#[trigger] rows[i]).site, hs, ps, other_hs, other_ps),
    ensures
        least_spacing(rows, ps) == least_spacing(rows, other_ps),
        least_height(rows, hs, ps) == least_height(rows, other_hs, other_ps),
    decreases rows.len(),
{
    if rows.len() > 0 {
        let rest = rows.drop_last();
        assert forall|i: int| 0 <= i < rest.len() implies alike(
            (#[trigger] rest[i]).site,
            hs,
            ps,
            other_hs,
            other_ps,
        ) by {
            assert(rest[i] == rows[i]);
        }
        assert(rows[rows.len() - 1] == rows.last());
        lemma_cut_alike(rest, hs, ps, other_hs, other_ps);
    }
}

/// What becomes of the rows depends on what is said of their sites alone.
proof fn lemma_places_alike(
    rows: Seq<RowModel>,
    cut: Cut,
    core: Area,
    hs: spec_fn(Seq<char>) -> int,
    ps: spec_fn(Seq<char>) -> bool,
    other_hs: spec_fn(Seq<char>) -> int,
    other_ps: spec_fn(Seq<char>) -> bool,
)
    requires
        forall|i: int|
            0 <= i < rows.len() ==> alike((#[trigger] rows[i]).site, hs, ps, other_hs, other_ps),
    ensures
        in_places(rows, cut, core, hs, ps) == in_places(rows, cut, core, other_hs, other_ps),
        appended(rows, cut, core, hs, ps) == appended(rows, cut, core, other_hs, other_ps),
    decreases rows.len(),
{
    if rows.len() > 0 {
        let rest = rows.drop_last();
        assert forall|i: int| 0 <= i < rest.len() implies alike(
            (#[trigger] rest[i]).site,
            hs,
            ps,
            other_hs,
            other_ps,
        ) by {
            assert(rest[i] == rows[i]);
        }
        assert(rows[rows.len() - 1] == rows.last());
        lemma_places_alike(rest, cut, core, hs, ps, other_hs, other_ps);
    }
}

/// Every row that takes a place is made of the site of one of the rows.
proof fn lemma_site_in_place(
    rows: Seq<RowModel>,
    cut: Cut,
    core: Area,
    hs: spec_fn(Seq<char>) -> int,
    ps: spec_fn(Seq<char>) -> bool,
    i: int,
) -> (j: int)
    requires
        0 <= i < in_places(rows, cut, core, hs, ps).len(),
    ensures
        0 <= j < rows.len(),
        in_places(rows, cut, core, hs, ps)[i].site == rows[j].site,
    decreases rows.len(),
{
    let before = in_places(rows.drop_last(), cut, core, hs, ps);
    if i < before.len() {
        lemma_site_in_place(rows.drop_last(), cut, core, hs, ps, i)
    } else {
        let row = rows.last();
        assert(in_places(rows, cut, core, hs, ps)[i] == in_place_of(row, cut, core, hs, ps)[i
            - before.len()]);
        rows.len() - 1
    }
}

/// Every row that is appended is made of the site of one of the rows.
proof fn lemma_site_appended(
    rows: Seq<RowModel>,
    cut: Cut,
    core: Area,
    hs: spec_fn(Seq<char>) -> int,
    ps: spec_fn(Seq<char>) -> bool,
    i: int,
) -> (j: int)
    requires
        0 <= i < appended(rows, cut, core, hs, ps).len(),
    ensures
        0 <= j < rows.len(),
        appended(rows, cut, core, hs, ps)[i].site == rows[j].site,
    decreases rows.len(),
{
    let before = appended(rows.drop_last(), cut, core, hs, ps);
    if i < before.len() {
        lemma_site_appended(rows.drop_last(), cut, core, hs, ps, i)
    } else {
        let row = rows.last();
        assert(appended(rows, cut, core, hs, ps)[i] == appended_for(row, cut, core, hs, ps)[i
            - before.len()]);
        rows.len() - 1
    }
}

/// What is told of the rows' sites is told of the sites of what they are split into.
proof fn lemma_told_of_split<H: Fn(&str) -> i32, P: Fn(&str) -> bool>(
    site_height: H,
    site_is_pad: P,
    rows: Seq<RowModel>,
    domain: DomainModel,
    core: Area,
    gap: Option<i32>,
    hs: spec_fn(Seq<char>) -> int,
    ps: spec_fn(Seq<char>) -> bool,
)
    requires
        told_of(site_height, site_is_pad, rows, hs, ps),
    ensures
        told_of(
            site_height,
            site_is_pad,
            split_by_one(rows, domain, core, gap, hs, ps),
            hs,
            ps,
        ),
{
    match cut_of(rows, domain, gap, hs, ps) {
        Some(cut) => {
            let front = in_places(rows, cut, core, hs, ps);
            let back = appended(rows, cut, core, hs, ps);
            assert forall|i: int| 0 <= i < (front + back).len() implies site_told(
                site_height,
                site_is_pad,
                (#[trigger] (front + back)[i]).site,
                hs,
                ps,
            ) by {
                if i < front.len() {
                    let j = lemma_site_in_place(rows, cut, core, hs, ps, i);
                    assert(site_told(site_height, site_is_pad, rows[j].site, hs, ps));
                } else {
                    let j = lemma_site_appended(rows, cut, core, hs, ps, i - front.len());
                    assert(site_told(site_height, site_is_pad, rows[j].site, hs, ps));
                }
            }
        },
        None => {},
    }
}

/// The rows over again.
pub(crate) fn copy_rows(rows: &[Row]) -> (r: Vec<Row>)
    ensures
        row_models(r@) == row_models(rows@),
{
    let mut out: Vec<Row> = Vec::new();
    let mut i: usize = 0;
    while i < rows.len()
        invariant
            i <= rows@.len(),
            out@.len() == i,
            forall|k: int| 0 <= k < i ==> (#[trigger] out@[k])@ == rows@[k]@,
        decreases rows.len() - i,
    {
        out.push(rows[i].duplicate());
        i = i + 1;
    }
    assert(row_models(out@) =~= row_models(rows@));
    out
}

/// Can the pieces around one domain be written in database units?
fn can_split_once<H: Fn(&str) -> i32, P: Fn(&str) -> bool>(
    rows: &Vec<Row>,
    domain: &Domain,
    core: Rect,
    gap: Option<i32>,
    site_height: &H,
    site_is_pad: &P,
    Ghost(hs): Ghost<spec_fn(Seq<char>) -> int>,
    Ghost(ps): Ghost<spec_fn(Seq<char>) -> bool>,
) -> (r: bool)
    requires
        told_of(*site_height, *site_is_pad, row_models(rows@), hs, ps),
    ensures
        r == split_fits(row_models(rows@), domain@, core@, gap, hs, ps),
{
    let ghost models = row_models(rows@);
    let c: CutBox = match find_cut(
        rows,
        domain,
        gap,
        site_height,
        site_is_pad,
        Ghost(hs),
        Ghost(ps),
    ) {
        Some(c) => c,
        None => {
            return true;
        },
    };
    let ghost cut = c.model(domain@);
    let mut i: usize = 0;
    while i < rows.len()
        invariant
            i <= rows@.len(),
            models == row_models(rows@),
            told_of(*site_height, *site_is_pad, models, hs, ps),
            cut == c.model(domain@),
            cut_of(models, domain@, gap, hs, ps) == Some(cut),
            c.in_range(),
            forall|i: int|
                0 <= i < rows@.len() && !ps(rows@[i].site@) ==> (#[trigger] rows@[i]).spacing > 0,
            forall|k: int| 0 <= k < i ==> pieces_fit(#[trigger] models[k], cut, core@, hs, ps),
        decreases rows.len() - i,
    {
        let row: &Row = &rows[i];
        let site: &str = row.site.as_str();
        proof {
            assert(models[i as int] == row@);
            assert(models[i as int].site == site@);
        }
        if !site_is_pad(site) {
            let height: i32 = site_height(site);
            let y_max: i64 = row.y as i64 + height as i64;
            let keep: bool = y_max + c.space <= c.bbox.y_min as i64 || row.y as i64
                >= c.bbox.y_max as i64 + c.space;
            if !keep && !can_cut(row, &c, domain, core, height) {
                assert(!pieces_fit(models[i as int], cut, core@, hs, ps));
                return false;
            }
        }
        i = i + 1;
    }
    true
}

/// Can the pieces around every domain in turn be written in database units?
pub(crate) fn can_split_rows<H: Fn(&str) -> i32, P: Fn(&str) -> bool>(
    rows: &[Row],
    domains: &[Domain],
    core: Rect,
    gap: Option<i32>,
    site_height: &H,
    site_is_pad: &P,
    Ghost(hs): Ghost<spec_fn(Seq<char>) -> int>,
    Ghost(ps): Ghost<spec_fn(Seq<char>) -> bool>,
) -> (r: bool)
    requires
        told_of(*site_height, *site_is_pad, row_models(rows@), hs, ps),
    ensures
        r == domains_fit(row_models(rows@), domain_models(domains@), core@, gap, hs, ps),
{
    let ghost models = row_models(rows@);
    let ghost all = domain_models(domains@);
    let mut left: Vec<Row> = copy_rows(rows);
    assert(all.take(0) =~= Seq::<DomainModel>::empty());
    let mut k: usize = 0;
    while k < domains.len()
        invariant
            k <= domains@.len(),
            models == row_models(rows@),
            all == domain_models(domains@),
            told_of(*site_height, *site_is_pad, row_models(left@), hs, ps),
            row_models(left@) == split_by_all(models, all.take(k as int), core@, gap, hs, ps),
            forall|n: int|
                0 <= n < k ==> #[trigger] stage_fits(models, all, core@, gap, hs, ps, n),
        decreases domains.len() - k,
    {
        let ghost before = row_models(left@);
        proof {
            assert(all[k as int] == domains@[k as int]@);
            assert(all.take(k + 1).drop_last() =~= all.take(k as int));
            assert(all.take(k + 1).last() == domains@[k as int]@);
        }
        if !can_split_once(
            &left,
            &domains[k],
            core,
            gap,
            site_height,
            site_is_pad,
            Ghost(hs),
            Ghost(ps),
        ) {
            assert(!stage_fits(models, all, core@, gap, hs, ps, k as int));
            return false;
        }
        left =
        split_rows_for_one_domain(left, &domains[k], core, gap, site_height, site_is_pad);
        proof {
            lemma_told_of_split(
                *site_height,
                *site_is_pad,
                before,
                all[k as int],
                core@,
                gap,
                hs,
                ps,
            );
        }
        k = k + 1;
    }
    true
}

/// Rebuild the rows that cross one domain.
pub fn split_rows_for_one_domain<H: Fn(&str) -> i32, P: Fn(&str) -> bool>(
    rows: Vec<Row>,
    domain: &Domain,
    core: Rect,
    gap: Option<i32>,
    site_height: &H,
    site_is_pad: &P,
) -> (r: Vec<Row>)
    requires
        exists|hs: spec_fn(Seq<char>) -> int, ps: spec_fn(Seq<char>) -> bool|
            #[trigger] told_of(*site_height, *site_is_pad, row_models(rows@), hs, ps)
                && split_fits(row_models(rows@), domain@, core@, gap, hs, ps),
    ensures
        forall|hs: spec_fn(Seq<char>) -> int, ps: spec_fn(Seq<char>) -> bool|
            #[trigger] told_of(*site_height, *site_is_pad, row_models(rows@), hs, ps)
                ==> row_models(r@) == split_by_one(
                row_models(rows@),
                domain@,
                core@,
                gap,
                hs,
                ps,
            ),
{
    let ghost models = row_models(rows@);
    let ghost (hs, ps): (spec_fn(Seq<char>) -> int, spec_fn(Seq<char>) -> bool) =
        choose|hs: spec_fn(Seq<char>) -> int, ps: spec_fn(Seq<char>) -> bool|
        #[trigger] told_of(*site_height, *site_is_pad, models, hs, ps) && split_fits(
            models,
            domain@,
            core@,
            gap,
            hs,
            ps,
        );
    let found: Option<CutBox> = find_cut(
        &rows,
        domain,
        gap,
        site_height,
        site_is_pad,
        Ghost(hs),
        Ghost(ps),
    );
    proof {
        assert forall|a: spec_fn(Seq<char>) -> int, b: spec_fn(Seq<char>) -> bool|
            #[trigger] told_of(*site_height, *site_is_pad, models, a, b) implies split_by_one(
            models,
            domain@,
            core@,
            gap,
            a,
            b,
        ) == split_by_one(models, domain@, core@, gap, hs, ps) by {
            assert forall|i: int| 0 <= i < models.len() implies alike(
                (#[trigger] models[i]).site,
                hs,
                ps,
                a,
                b,
            ) by {
                lemma_alike(*site_height, *site_is_pad, models[i].site, hs, ps, a, b);
            }
            lemma_cut_alike(models, hs, ps, a, b);
            if let Some(cut) = cut_of(models, domain@, gap, hs, ps) {
                lemma_places_alike(models, cut, core@, hs, ps, a, b);
            }
        }
    }
    let c: CutBox = match found {
        Some(c) => c,
        None => {
            return rows;
        },
    };
    let ghost cut = c.model(domain@);
    let mut in_place: Vec<Row> = Vec::new();
    let mut behind: Vec<Row> = Vec::new();
    let mut i: usize = 0;
    assert(row_models(in_place@) =~= in_places(models.take(0), cut, core@, hs, ps));
    assert(row_models(behind@) =~= appended(models.take(0), cut, core@, hs, ps));
    while i < rows.len()
        invariant
            i <= rows@.len(),
            models == row_models(rows@),
            told_of(*site_height, *site_is_pad, models, hs, ps),
            cut == c.model(domain@),
            c.in_range(),
            forall|i: int|
                0 <= i < models.len() ==> pieces_fit(#[trigger] models[i], cut, core@, hs, ps),
            forall|i: int|
                0 <= i < rows@.len() && !ps(rows@[i].site@) ==> (#[trigger] rows@[i]).spacing > 0,
            row_models(in_place@) == in_places(models.take(i as int), cut, core@, hs, ps),
            row_models(behind@) == appended(models.take(i as int), cut, core@, hs, ps),
        decreases rows.len() - i,
    {
        let row: &Row = &rows[i];
        let site: &str = row.site.as_str();
        proof {
            assert(models.take(i + 1).drop_last() =~= models.take(i as int));
            assert(models.take(i + 1).last() == row@);
            assert(models[i as int] == row@);
            assert(models[i as int].site == site@);
        }
        let pad: bool = site_is_pad(site);
        let mut keep: bool = pad;
        let mut height: i32 = 0;
        if !pad {
            height = site_height(site);
            let y_max: i64 = row.y as i64 + height as i64;
            keep = y_max + c.space <= c.bbox.y_min as i64 || row.y as i64 >= c.bbox.y_max as i64
                + c.space;
        }
        assert(keep == is_kept(row@, cut, hs, ps));
        let ghost before = in_place@;
        let ghost last = behind@;
        if keep {
            in_place.push(row.duplicate());
            assert(row_models(in_place@) =~= row_models(before) + seq![row@]);
            assert(row_models(behind@) =~= row_models(last) + Seq::<RowModel>::empty());
        } else {
            let mut made: Vec<Row> = cut_row(row, &c, domain, core, height);
            let ghost all = pieces(row@, cut, core@, height as int);
            assert(all.len() == made@.len());
            if made.len() > 0 {
                let ghost whole = made@;
                let first: Row = made.remove(0);
                assert(first@ == row_models(whole)[0]);
                in_place.push(first);
                assert(row_models(in_place@) =~= row_models(before) + all.take(1));
                assert(row_models(made@) =~= all.skip(1));
            } else {
                assert(row_models(in_place@) =~= row_models(before) + all.take(0));
                assert(row_models(made@) =~= all.skip(0));
            }
            let ghost rest = made@;
            behind.append(&mut made);
            assert(row_models(behind@) =~= row_models(last) + row_models(rest));
        }
        i = i + 1;
    }
    assert(models.take(models.len() as int) =~= models);
    let ghost front = in_place@;
    let ghost back = behind@;
    in_place.append(&mut behind);
    assert(row_models(in_place@) =~= row_models(front) + row_models(back));
    in_place
}

/// Rebuild the rows that cross a domain.
///
/// The margin is `gap`, or six of the smallest site heights when no gap was given, and it is used
/// on both axes. Domains are applied in sequence, each seeing the rows the previous one left.
///
/// `site_height` and `site_is_pad` are asked about the rows' sites only, and the height of a pad
/// site is never asked for.
pub fn split_rows_for_domains<H: Fn(&str) -> i32, P: Fn(&str) -> bool>(
    rows: Vec<Row>,
    domains: &[Domain],
    core: Rect,
    gap: Option<i32>,
    site_height: &H,
    site_is_pad: &P,
) -> (r: Vec<Row>)
    requires
        exists|hs: spec_fn(Seq<char>) -> int, ps: spec_fn(Seq<char>) -> bool|
            #[trigger] told_of(*site_height, *site_is_pad, row_models(rows@), hs, ps)
                && domains_fit(
                row_models(rows@),
                domain_models(domains@),
                core@,
                gap,
                hs,
                ps,
            ),
    ensures
        forall|hs: spec_fn(Seq<char>) -> int, ps: spec_fn(Seq<char>) -> bool|
            #[trigger] told_of(*site_height, *site_is_pad, row_models(rows@), hs, ps)
                ==> row_models(r@) == split_by_all(
                row_models(rows@),
                domain_models(domains@),
                core@,
                gap,
                hs,
                ps,
            ),
{
    let ghost models = row_models(rows@);
    let ghost all = domain_models(domains@);
    let ghost (hs, ps): (spec_fn(Seq<char>) -> int, spec_fn(Seq<char>) -> bool) =
        choose|hs: spec_fn(Seq<char>) -> int, ps: spec_fn(Seq<char>) -> bool|
        #[trigger] told_of(*site_height, *site_is_pad, models, hs, ps) && domains_fit(
            models,
            all,
            core@,
            gap,
            hs,
            ps,
        );
    let mut rows: Vec<Row> = rows;
    let mut k: usize = 0;
    while k < domains.len()
        invariant
            k <= domains@.len(),
            all == domain_models(domains@),
            told_of(*site_height, *site_is_pad, models, hs, ps),
            domains_fit(models, all, core@, gap, hs, ps),
            forall|a: spec_fn(Seq<char>) -> int, b: spec_fn(Seq<char>) -> bool|
                #[trigger] told_of(*site_height, *site_is_pad, models, a, b) ==> {
                    &&& told_of(*site_height, *site_is_pad, row_models(rows@), a, b)
                    &&& row_models(rows@) == split_by_all(
                        models,
                        all.take(k as int),
                        core@,
                        gap,
                        a,
                        b,
                    )
                },
        decreases domains.len() - k,
    {
        let ghost before = row_models(rows@);
        proof {
            assert(stage_fits(models, all, core@, gap, hs, ps, k as int));
            assert(all[k as int] == domains@[k as int]@);
            assert(all.take(k + 1).drop_last() =~= all.take(k as int));
            assert(all.take(k + 1).last() == domains@[k as int]@);
        }
        rows =
        split_rows_for_one_domain(rows, &domains[k], core, gap, site_height, site_is_pad);
        proof {
            assert forall|a: spec_fn(Seq<char>) -> int, b: spec_fn(Seq<char>) -> bool|
                #[trigger] told_of(*site_height, *site_is_pad, models, a, b) implies told_of(
                *site_height,
                *site_is_pad,
                row_models(rows@),
                a,
                b,
            ) && row_models(rows@) == split_by_all(
                models,
                all.take(k + 1),
                core@,
                gap,
                a,
                b,
            ) by {
                assert(told_of(*site_height, *site_is_pad, before, a, b));
                lemma_told_of_split(
                    *site_height,
                    *site_is_pad,
                    before,
                    all[k as int],
                    core@,
                    gap,
                    a,
                    b,
                );
            }
        }
        k = k + 1;
    }
    assert(all.take(all.len() as int) =~= all);
    rows
}

/// A domain's box is snapped inward: no edge moves out, and none moves in by a whole step.
pub proof fn law_the_domain_box_is_snapped_inward(bbox: Area, dx: int, dy: int)
    requires
        dx > 0,
        dy > 0,
        bbox.fits(),
    ensures
        bbox.contains(inward(bbox, dx, dy)),
        inward(bbox, dx, dy).x_min < bbox.x_min + dx,
        inward(bbox, dx, dy).y_min < bbox.y_min + dy,
        inward(bbox, dx, dy).x_max > bbox.x_max - dx,
        inward(bbox, dx, dy).y_max > bbox.y_max - dy,
{
    law_site_loc_rounds_one_way(bbox.x_min, dx);
    law_site_loc_rounds_one_way(bbox.x_max, dx);
    law_site_loc_rounds_one_way(bbox.y_min, dy);
    law_site_loc_rounds_one_way(bbox.y_max, dy);
}

/// Every piece keeps its row's site, height, orientation and spacing. The left piece starts at
/// the core's edge and ends before the domain's margin, the right piece starts behind the margin
/// and ends inside the core, and each holds at least one site. The piece across a domain that has
/// an extent does not pass its right edge.
pub proof fn law_pieces_stay_beside_the_domain(
    row: RowModel,
    cut: Cut,
    core: Area,
    height: int,
    i: int,
)
    requires
        row.spacing > 0,
        core.fits(),
        0 <= i < pieces(row, cut, core, height).len(),
    ensures
        ({
            let p = pieces(row, cut, core, height)[i];
            let end = p.x + p.num_sites * p.spacing;
            &&& p.site == row.site && p.y == row.y && p.orient == row.orient && p.spacing
                == row.spacing
            &&& p.name == row.name + "_1"@ || p.name == row.name + "_2"@ || p.name == row.name
                + "_"@ + cut.name
            &&& i < left_piece(row, cut, core).len() ==> {
                &&& p.x == core.x_min
                &&& p.num_sites >= 1
                &&& end <= cut.bbox.x_min - cut.space
            }
            &&& left_piece(row, cut, core).len() <= i < left_piece(row, cut, core).len()
                + right_piece(row, cut, core).len() ==> {
                &&& p.x >= cut.bbox.x_max + cut.space
                &&& p.num_sites >= 1
                &&& end <= core.x_max
            }
            &&& i >= left_piece(row, cut, core).len() + right_piece(row, cut, core).len() ==> {
                &&& p.x == cut.bbox.x_min
                &&& cut.bbox.dx() >= 0 ==> p.num_sites >= 0 && end <= cut.bbox.x_max
            }
        }),
{
    let sp = row.spacing;
    let p = pieces(row, cut, core, height)[i];
    let left = left_piece(row, cut, core);
    let right = right_piece(row, cut, core);
    if i < left.len() {
        assert(p == left[0]);
        lemma_whole_sites(cut.bbox.x_min - cut.space - core.x_min, sp);
    } else if i < left.len() + right.len() {
        assert(p == right[0]);
        lemma_site_loc_above(cut.bbox.x_max + cut.space, sp);
        lemma_whole_sites(core.x_max - right_start(row, cut), sp);
    } else {
        assert(p == middle_piece(row, cut, height)[0]);
        if cut.bbox.dx() >= 0 {
            lemma_whole_sites(cut.bbox.dx(), sp);
        }
    }
}

proof fn lemma_whole_sites(room: int, step: int)
    requires
        step > 0,
        room >= 0,
    ensures
        trunc_div(room, step) >= 0,
        trunc_div(room, step) * step <= room,
        room >= step ==> trunc_div(room, step) >= 1,
{
    let q = trunc_div(room, step);
    vstd::arithmetic::div_mod::lemma_fundamental_div_mod(room, step);
    assert(q >= 0 && q * step <= room && (room >= step ==> q >= 1)) by (nonlinear_arith)
        requires
            room == step * q + room % step,
            0 <= room % step < step,
            room >= 0,
            step > 0,
    ;
}

/// Where every row that crosses the domain leaves at least one piece, each row's place is taken
/// by the row itself if it is kept, else by its first piece.
pub proof fn law_the_first_piece_takes_its_rows_place(
    rows: Seq<RowModel>,
    cut: Cut,
    core: Area,
    height: spec_fn(Seq<char>) -> int,
    is_pad: spec_fn(Seq<char>) -> bool,
)
    requires
        forall|i: int|
            0 <= i < rows.len() ==> is_kept(#[trigger] rows[i], cut, height, is_pad) || pieces(
                rows[i],
                cut,
                core,
                height(rows[i].site),
            ).len() > 0,
    ensures
        in_places(rows, cut, core, height, is_pad).len() == rows.len(),
        forall|i: int|
            0 <= i < rows.len() ==> #[trigger] in_places(rows, cut, core, height, is_pad)[i] == (
            if is_kept(rows[i], cut, height, is_pad) {
                rows[i]
            } else {
                pieces(rows[i], cut, core, height(rows[i].site))[0]
            }),
    decreases rows.len(),
{
    if rows.len() > 0 {
        let rest = rows.drop_last();
        assert forall|i: int| 0 <= i < rest.len() implies is_kept(
            #[trigger] rest[i],
            cut,
            height,
            is_pad,
        ) || pieces(rest[i], cut, core, height(rest[i].site)).len() > 0 by {
            assert(rest[i] == rows[i]);
        }
        assert(rows[rows.len() - 1] == rows.last());
        law_the_first_piece_takes_its_rows_place(rest, cut, core, height, is_pad);
        let before = in_places(rest, cut, core, height, is_pad);
        assert forall|i: int| 0 <= i < rows.len() implies #[trigger] in_places(
            rows,
            cut,
            core,
            height,
            is_pad,
        )[i] == (if is_kept(rows[i], cut, height, is_pad) {
            rows[i]
        } else {
            pieces(rows[i], cut, core, height(rows[i].site))[0]
        }) by {
            if i < rest.len() {
                assert(rest[i] == rows[i]);
                assert(in_places(rows, cut, core, height, is_pad)[i] == before[i]);
            }
        }
    }
}

/// A pad row, or a row clear of the domain and its margin, survives the domain untouched.
pub proof fn law_kept_rows_survive(
    rows: Seq<RowModel>,
    domain: DomainModel,
    core: Area,
    gap: Option<i32>,
    height: spec_fn(Seq<char>) -> int,
    is_pad: spec_fn(Seq<char>) -> bool,
    i: int,
)
    requires
        0 <= i < rows.len(),
        cut_of(rows, domain, gap, height, is_pad) matches Some(cut) ==> is_kept(
            rows[i],
            cut,
            height,
            is_pad,
        ),
    ensures
        split_by_one(rows, domain, core, gap, height, is_pad).contains(rows[i]),
{
    match cut_of(rows, domain, gap, height, is_pad) {
        Some(cut) => {
            let k = lemma_kept_in_place(rows, cut, core, height, is_pad, i);
            assert(split_by_one(rows, domain, core, gap, height, is_pad)[k] == rows[i]);
        },
        None => {},
    }
}

proof fn lemma_kept_in_place(
    rows: Seq<RowModel>,
    cut: Cut,
    core: Area,
    height: spec_fn(Seq<char>) -> int,
    is_pad: spec_fn(Seq<char>) -> bool,
    i: int,
) -> (k: int)
    requires
        0 <= i < rows.len(),
        is_kept(rows[i], cut, height, is_pad),
    ensures
        0 <= k < in_places(rows, cut, core, height, is_pad).len(),
        in_places(rows, cut, core, height, is_pad)[k] == rows[i],
    decreases rows.len(),
{
    let before = in_places(rows.drop_last(), cut, core, height, is_pad);
    if i == rows.len() - 1 {
        before.len() as int
    } else {
        lemma_kept_in_place(rows.drop_last(), cut, core, height, is_pad, i)
    }
}

/// Where no row crosses the domain, the rows come out as they were, in their order.
pub proof fn law_a_clear_domain_changes_nothing(
    rows: Seq<RowModel>,
    domain: DomainModel,
    core: Area,
    gap: Option<i32>,
    height: spec_fn(Seq<char>) -> int,
    is_pad: spec_fn(Seq<char>) -> bool,
)
    requires
        cut_of(rows, domain, gap, height, is_pad) matches Some(cut) ==> forall|i: int|
            0 <= i < rows.len() ==> is_kept(#[trigger] rows[i], cut, height, is_pad),
    ensures
        split_by_one(rows, domain, core, gap, height, is_pad) == rows,
{
    match cut_of(rows, domain, gap, height, is_pad) {
        Some(cut) => {
            law_the_first_piece_takes_its_rows_place(rows, cut, core, height, is_pad);
            lemma_nothing_appended(rows, cut, core, height, is_pad);
            assert(in_places(rows, cut, core, height, is_pad) =~= rows);
        },
        None => {},
    }
}

proof fn lemma_nothing_appended(
    rows: Seq<RowModel>,
    cut: Cut,
    core: Area,
    height: spec_fn(Seq<char>) -> int,
    is_pad: spec_fn(Seq<char>) -> bool,
)
    requires
        forall|i: int| 0 <= i < rows.len() ==> is_kept(#[trigger] rows[i], cut, height, is_pad),
    ensures
        appended(rows, cut, core, height, is_pad) == Seq::<RowModel>::empty(),
    decreases rows.len(),
{
    if rows.len() > 0 {
        let rest = rows.drop_last();
        assert forall|i: int| 0 <= i < rest.len() implies is_kept(
            #[trigger] rest[i],
            cut,
            height,
            is_pad,
        ) by {
            assert(rest[i] == rows[i]);
        }
        assert(rows[rows.len() - 1] == rows.last());
        lemma_nothing_appended(rest, cut, core, height, is_pad);
    }
}

/// Domains apply in sequence, each to the rows that the one before left: splitting by a list of
/// domains is splitting by its parts in turn, and no domain changes nothing.
pub proof fn law_domains_apply_in_sequence(
    rows: Seq<RowModel>,
    a: Seq<DomainModel>,
    b: Seq<DomainModel>,
    core: Area,
    gap: Option<i32>,
    height: spec_fn(Seq<char>) -> int,
    is_pad: spec_fn(Seq<char>) -> bool,
)
    ensures
        split_by_all(rows, a + b, core, gap, height, is_pad) == split_by_all(
            split_by_all(rows, a, core, gap, height, is_pad),
            b,
            core,
            gap,
            height,
            is_pad,
        ),
        split_by_all(rows, Seq::empty(), core, gap, height, is_pad) == rows,
    decreases b.len(),
{
    if b.len() == 0 {
        assert(a + b =~= a);
    } else {
        assert((a + b).drop_last() =~= a + b.drop_last());
        law_domains_apply_in_sequence(rows, a, b.drop_last(), core, gap, height, is_pad);
    }
}

/// The pad rows among `rows`, in order.
pub open spec fn pads_among(
    rows: Seq<RowModel>,
    is_pad: spec_fn(Seq<char>) -> bool,
) -> Seq<RowModel> {
    rows.filter(|r: RowModel| is_pad(r.site))
}

proof fn lemma_pads_join(
    a: Seq<RowModel>,
    b: Seq<RowModel>,
    is_pad: spec_fn(Seq<char>) -> bool,
)
    ensures
        pads_among(a + b, is_pad) == pads_among(a, is_pad) + pads_among(b, is_pad),
{
    Seq::filter_distributes_over_add(a, b, |r: RowModel| is_pad(r.site));
}

proof fn lemma_no_pads(rows: Seq<RowModel>, is_pad: spec_fn(Seq<char>) -> bool)
    requires
        forall|i: int| 0 <= i < rows.len() ==> !is_pad((#[trigger] rows[i]).site),
    ensures
        pads_among(rows, is_pad) == Seq::<RowModel>::empty(),
    decreases rows.len(),
{
    reveal(Seq::filter);
    if rows.len() > 0 {
        let rest = rows.drop_last();
        assert forall|i: int| 0 <= i < rest.len() implies !is_pad((#[trigger] rest[i]).site) by {
            assert(rest[i] == rows[i]);
        }
        assert(!is_pad(rows[rows.len() - 1].site));
        lemma_no_pads(rest, is_pad);
    }
}

proof fn lemma_pads_stay(
    rows: Seq<RowModel>,
    cut: Cut,
    core: Area,
    height: spec_fn(Seq<char>) -> int,
    is_pad: spec_fn(Seq<char>) -> bool,
)
    ensures
        pads_among(in_places(rows, cut, core, height, is_pad), is_pad) == pads_among(rows, is_pad),
        pads_among(appended(rows, cut, core, height, is_pad), is_pad) == Seq::<RowModel>::empty(),
    decreases rows.len(),
{
    if rows.len() == 0 {
        lemma_no_pads(rows, is_pad);
        lemma_no_pads(Seq::empty(), is_pad);
        assert(rows =~= Seq::empty());
    } else {
        let rest = rows.drop_last();
        let row = rows.last();
        let here = in_place_of(row, cut, core, height, is_pad);
        let behind = appended_for(row, cut, core, height, is_pad);
        lemma_pads_stay(rest, cut, core, height, is_pad);
        assert(rows =~= rest + seq![row]);
        lemma_pads_join(rest, seq![row], is_pad);
        lemma_pads_join(in_places(rest, cut, core, height, is_pad), here, is_pad);
        lemma_pads_join(appended(rest, cut, core, height, is_pad), behind, is_pad);
        if !is_pad(row.site) {
            assert forall|i: int| 0 <= i < here.len() implies !is_pad(
                (#[trigger] here[i]).site,
            ) by {
                assert(here[i].site == row.site);
            }
            lemma_no_pads(here, is_pad);
            lemma_no_pads(seq![row], is_pad);
        }
        assert forall|i: int| 0 <= i < behind.len() implies !is_pad(
            (#[trigger] behind[i]).site,
        ) by {
            assert(behind[i].site == row.site);
        }
        lemma_no_pads(behind, is_pad);
        assert(Seq::<RowModel>::empty() + Seq::<RowModel>::empty() =~= Seq::empty());
    }
}

/// Pad rows come through a split untouched and in their order, and nothing else becomes one.
pub proof fn law_pad_rows_keep_their_order(
    rows: Seq<RowModel>,
    domains: Seq<DomainModel>,
    core: Area,
    gap: Option<i32>,
    height: spec_fn(Seq<char>) -> int,
    is_pad: spec_fn(Seq<char>) -> bool,
)
    ensures
        pads_among(split_by_all(rows, domains, core, gap, height, is_pad), is_pad) == pads_among(
            rows,
            is_pad,
        ),
    decreases domains.len(),
{
    if domains.len() > 0 {
        let before = split_by_all(rows, domains.drop_last(), core, gap, height, is_pad);
        law_pad_rows_keep_their_order(rows, domains.drop_last(), core, gap, height, is_pad);
        match cut_of(before, domains.last(), gap, height, is_pad) {
            Some(cut) => {
                lemma_pads_stay(before, cut, core, height, is_pad);
                lemma_pads_join(
                    in_places(before, cut, core, height, is_pad),
                    appended(before, cut, core, height, is_pad),
                    is_pad,
                );
                assert(pads_among(before, is_pad) + Seq::<RowModel>::empty() =~= pads_among(
                    before,
                    is_pad,
                ));
            },
            None => {},
        }
    }
}

/// A domain's box on the site grid, and the margin around it.
#[verifier::ext_equal]
pub struct Zone {
    pub bbox: Area,
    pub space: int,
}

/// `zone` is what `bbox` takes from rows whose sites are at least `dx` wide and `dy` high: its
/// edges on that grid, no edge further out than the box's and none further in than the next grid
/// line, and as margin the gap that was asked for, else six of the heights.
pub open spec fn is_zone(
    zone: Zone,
    bbox: Area,
    gap: Option<i32>,
    dx: int,
    dy: int,
) -> bool {
    &&& zone.bbox.x_min % dx == 0 && bbox.x_min <= zone.bbox.x_min < bbox.x_min + dx
    &&& zone.bbox.y_min % dy == 0 && bbox.y_min <= zone.bbox.y_min < bbox.y_min + dy
    &&& zone.bbox.x_max % dx == 0 && bbox.x_max - dx < zone.bbox.x_max <= bbox.x_max
    &&& zone.bbox.y_max % dy == 0 && bbox.y_max - dy < zone.bbox.y_max <= bbox.y_max
    &&& zone.bbox.fits()
    &&& match gap {
        Some(g) => zone.space == g,
        None => zone.space == dy + dy + dy + dy + dy + dy,
    }
}

/// `dx` is the smallest spacing and `dy` the smallest height among the rows that are no pad rows.
pub open spec fn are_least(
    rows: Seq<RowModel>,
    height: spec_fn(Seq<char>) -> int,
    is_pad: spec_fn(Seq<char>) -> bool,
    dx: int,
    dy: int,
) -> bool {
    &&& forall|i: int|
        0 <= i < rows.len() && !is_pad((#[trigger] rows[i]).site) ==> dx <= rows[i].spacing && dy
            <= height(rows[i].site)
    &&& exists|i: int|
        0 <= i < rows.len() && !is_pad((#[trigger] rows[i]).site) && rows[i].spacing == dx
    &&& exists|i: int|
        0 <= i < rows.len() && !is_pad((#[trigger] rows[i]).site) && height(rows[i].site) == dy
}

/// `n` whole steps fit into `room`, and no more.
pub open spec fn fill(n: int, step: int, room: int) -> bool {
    n * step <= room < n * step + step
}

/// A row's stretch of `n` sites from `x`, under the row's name with `suffix` behind it.
pub open spec fn stretch(row: RowModel, suffix: Seq<char>, x: int, n: int) -> RowModel {
    RowModel {
        name: row.name + suffix,
        site: row.site,
        x,
        y: row.y,
        orient: row.orient,
        num_sites: n,
        spacing: row.spacing,
    }
}

/// `parts` is what the zone leaves of a row `h` high: the row itself where it stays the margin away
/// from the zone, above it or below it. Else it is cut: left of the margin from the core's edge,
/// right of the margin from the row's next site on, and across the zone where the row lies wholly
/// beside it; each stretch with as many sites as fit, and left and right only with room for more
/// than one.
pub open spec fn is_left_of(
    parts: Seq<RowModel>,
    row: RowModel,
    zone: Zone,
    name: Seq<char>,
    core: Area,
    h: int,
    left: int,
    right: int,
    start: int,
    across: int,
) -> bool {
    let clear = row.y + h + zone.space <= zone.bbox.y_min || zone.bbox.y_max + zone.space <= row.y;
    let has_left = core.x_min + row.spacing < zone.bbox.x_min - zone.space;
    let has_right = start + row.spacing < core.x_max;
    let beside = zone.bbox.y_min <= row.y && row.y + h <= zone.bbox.y_max;
    if clear {
        parts == seq![row]
    } else {
        &&& start % row.spacing == 0 && zone.bbox.x_max + zone.space <= start < zone.bbox.x_max
            + zone.space + row.spacing
        &&& has_left ==> fill(left, row.spacing, zone.bbox.x_min - zone.space - core.x_min)
        &&& has_right ==> fill(right, row.spacing, core.x_max - start)
        &&& beside ==> are_whole_steps(
            across,
            row.spacing,
            zone.bbox.x_max - zone.bbox.x_min,
        )
        &&& parts == (if has_left {
            seq![stretch(row, "_1"@, core.x_min, left)]
        } else {
            Seq::empty()
        }) + (if has_right {
            seq![stretch(row, "_2"@, start, right)]
        } else {
            Seq::empty()
        }) + (if beside {
            seq![stretch(row, "_"@ + name, zone.bbox.x_min, across)]
        } else {
            Seq::empty()
        })
    }
}

/// The first of each list's rows.
pub open spec fn first_parts(lists: Seq<Seq<RowModel>>) -> Seq<RowModel>
    decreases lists.len(),
{
    if lists.len() == 0 {
        Seq::empty()
    } else if lists.last().len() == 0 {
        first_parts(lists.drop_last())
    } else {
        first_parts(lists.drop_last()).push(lists.last()[0])
    }
}

/// All but the first of each list's rows.
pub open spec fn other_parts(lists: Seq<Seq<RowModel>>) -> Seq<RowModel>
    decreases lists.len(),
{
    if lists.len() == 0 {
        Seq::empty()
    } else if lists.last().len() == 0 {
        other_parts(lists.drop_last())
    } else {
        other_parts(lists.drop_last()) + lists.last().skip(1)
    }
}

proof fn lemma_least(
    rows: Seq<RowModel>,
    height: spec_fn(Seq<char>) -> int,
    is_pad: spec_fn(Seq<char>) -> bool,
)
    ensures
        match (least_spacing(rows, is_pad), least_height(rows, height, is_pad)) {
            (Some(dx), Some(dy)) => are_least(rows, height, is_pad, dx, dy),
            (None, None) => forall|i: int|
                0 <= i < rows.len() ==> is_pad((#[trigger] rows[i]).site),
            _ => false,
        },
    decreases rows.len(),
{
    if rows.len() > 0 {
        let rest = rows.drop_last();
        let last = rows.len() - 1;
        lemma_least(rest, height, is_pad);
        assert(rows[last] == rows.last());
        assert forall|i: int| 0 <= i < rest.len() implies #[trigger] rest[i] == rows[i] by {}
        match (least_spacing(rest, is_pad), least_height(rest, height, is_pad)) {
            (Some(dx), Some(dy)) => {
                let a = choose|i: int|
                    0 <= i < rest.len() && !is_pad((#[trigger] rest[i]).site) && rest[i].spacing
                        == dx;
                let b = choose|i: int|
                    0 <= i < rest.len() && !is_pad((#[trigger] rest[i]).site) && height(
                        rest[i].site,
                    ) == dy;
                assert(rows[a] == rest[a] && rows[b] == rest[b]);
                assert forall|i: int|
                    0 <= i < rows.len() && !is_pad((#[trigger] rows[i]).site) implies {
                    &&& i == last || (dx <= rows[i].spacing && dy <= height(rows[i].site))
                } by {
                    if i < rest.len() {
                        assert(rest[i] == rows[i]);
                    }
                }
            },
            _ => {
                assert forall|i: int| 0 <= i < rest.len() implies is_pad(
                    (#[trigger] rows[i]).site,
                ) by {
                    assert(rest[i] == rows[i]);
                }
            },
        }
    }
}

proof fn lemma_parts(
    rows: Seq<RowModel>,
    cut: Cut,
    core: Area,
    height: spec_fn(Seq<char>) -> int,
    is_pad: spec_fn(Seq<char>) -> bool,
    lists: Seq<Seq<RowModel>>,
)
    requires
        lists.len() == rows.len(),
        forall|i: int|
            0 <= i < rows.len() ==> #[trigger] lists[i] == (if is_kept(
                rows[i],
                cut,
                height,
                is_pad,
            ) {
                seq![rows[i]]
            } else {
                pieces(rows[i], cut, core, height(rows[i].site))
            }),
    ensures
        in_places(rows, cut, core, height, is_pad) == first_parts(lists),
        appended(rows, cut, core, height, is_pad) == other_parts(lists),
    decreases rows.len(),
{
    if rows.len() > 0 {
        let last = rows.len() - 1;
        assert forall|i: int| 0 <= i < last implies #[trigger] lists.drop_last()[i] == (if is_kept(
            rows.drop_last()[i],
            cut,
            height,
            is_pad,
        ) {
            seq![rows.drop_last()[i]]
        } else {
            pieces(rows.drop_last()[i], cut, core, height(rows.drop_last()[i].site))
        }) by {
            assert(lists.drop_last()[i] == lists[i]);
        }
        lemma_parts(rows.drop_last(), cut, core, height, is_pad, lists.drop_last());
        assert(lists[last] == lists.last() && rows[last] == rows.last());
        let p = lists.last();
        let before = first_parts(lists.drop_last());
        let behind = other_parts(lists.drop_last());
        if p.len() == 0 {
            assert(in_place_of(rows.last(), cut, core, height, is_pad) =~= Seq::empty());
            assert(appended_for(rows.last(), cut, core, height, is_pad) =~= Seq::empty());
            assert(before + Seq::<RowModel>::empty() =~= before);
            assert(behind + Seq::<RowModel>::empty() =~= behind);
        } else {
            assert(in_place_of(rows.last(), cut, core, height, is_pad) =~= seq![p[0]]);
            assert(before + seq![p[0]] =~= before.push(p[0]));
            assert(appended_for(rows.last(), cut, core, height, is_pad) =~= p.skip(1));
        }
    }
}

/// One domain's split, in full. Every pad row stays as it is, and every other row leaves what the
/// zone of the domain leaves of it: the zone lies on the grid of the smallest site width and height
/// among those rows, with the gap around it, or six of those heights. The first that each row
/// leaves stands where the row stood, and what else they leave follows behind all of those. Boxes
/// that reach the end of the 32-bit range are left out: there the grid ends.
pub proof fn law_a_split_in_full(
    rows: Seq<RowModel>,
    domain: DomainModel,
    core: Area,
    gap: Option<i32>,
    height: spec_fn(Seq<char>) -> int,
    is_pad: spec_fn(Seq<char>) -> bool,
    dx: int,
    dy: int,
    zone: Zone,
    left: spec_fn(int) -> int,
    right: spec_fn(int) -> int,
    start: spec_fn(int) -> int,
    across: spec_fn(int) -> int,
    lists: Seq<Seq<RowModel>>,
)
    requires
        core.fits(),
        domain.bbox.fits(),
        dx > 0,
        dy > 0,
        are_least(rows, height, is_pad, dx, dy),
        is_zone(zone, domain.bbox, gap, dx, dy),
        lists.len() == rows.len(),
        forall|i: int|
            0 <= i < rows.len() ==> fits(start(i)) && if is_pad(rows[i].site) {
                #[trigger] lists[i] == seq![rows[i]]
            } else {
                is_left_of(
                    lists[i],
                    rows[i],
                    zone,
                    domain.name,
                    core,
                    height(rows[i].site),
                    left(i),
                    right(i),
                    start(i),
                    across(i),
                )
            },
    ensures
        split_by_one(rows, domain, core, gap, height, is_pad) == first_parts(lists) + other_parts(
            lists,
        ),
{
    lemma_least(rows, height, is_pad);
    let some = choose|i: int|
        0 <= i < rows.len() && !is_pad((#[trigger] rows[i]).site) && rows[i].spacing == dx;
    assert(!is_pad(rows[some].site));
    let found = (least_spacing(rows, is_pad), least_height(rows, height, is_pad));
    assert(found.0 is Some && found.1 is Some);
    let (ax, ay) = (found.0.unwrap(), found.1.unwrap());
    assert(are_least(rows, height, is_pad, ax, ay));
    let a = choose|i: int|
        0 <= i < rows.len() && !is_pad((#[trigger] rows[i]).site) && rows[i].spacing == ax;
    let b = choose|i: int|
        0 <= i < rows.len() && !is_pad((#[trigger] rows[i]).site) && height(rows[i].site) == ay;
    let c = choose|i: int|
        0 <= i < rows.len() && !is_pad((#[trigger] rows[i]).site) && height(rows[i].site) == dy;
    assert(dx == ax && dy == ay) by {
        assert(dx <= rows[a].spacing && ax <= rows[some].spacing);
        assert(dy <= height(rows[b].site) && ay <= height(rows[c].site));
    }
    lemma_on_grid_up(domain.bbox.x_min, dx, zone.bbox.x_min);
    lemma_on_grid_up(domain.bbox.y_min, dy, zone.bbox.y_min);
    lemma_on_grid_down(domain.bbox.x_max, dx, zone.bbox.x_max);
    lemma_on_grid_down(domain.bbox.y_max, dy, zone.bbox.y_max);
    let cut = cut_of(rows, domain, gap, height, is_pad).unwrap();
    assert(cut.bbox == zone.bbox && cut.space == zone.space && cut.name == domain.name);
    assert forall|i: int| 0 <= i < rows.len() implies #[trigger] lists[i] == (if is_kept(
        rows[i],
        cut,
        height,
        is_pad,
    ) {
        seq![rows[i]]
    } else {
        pieces(rows[i], cut, core, height(rows[i].site))
    }) by {
        let row = rows[i];
        let h = height(row.site);
        if !is_kept(row, cut, height, is_pad) {
            let sp = row.spacing;
            assert(sp > 0);
            assert(is_left_of(
                lists[i],
                row,
                zone,
                domain.name,
                core,
                h,
                left(i),
                right(i),
                start(i),
                across(i),
            ));
            lemma_on_grid_above(cut.bbox.x_max + cut.space, sp, start(i));
            lemma_pieces_are(row, cut, core, h, left(i), right(i), across(i));
            assert(row.name + ("_"@ + domain.name) =~= row.name + "_"@ + domain.name);
        }
    }
    lemma_parts(rows, cut, core, height, is_pad, lists);
}

proof fn lemma_pieces_are(
    row: RowModel,
    cut: Cut,
    core: Area,
    h: int,
    left: int,
    right: int,
    across: int,
)
    requires
        row.spacing > 0,
        core.x_min + row.spacing < cut.bbox.x_min - cut.space ==> fill(
            left,
            row.spacing,
            cut.bbox.x_min - cut.space - core.x_min,
        ),
        right_start(row, cut) + row.spacing < core.x_max ==> fill(
            right,
            row.spacing,
            core.x_max - right_start(row, cut),
        ),
        cut.bbox.y_min <= row.y && row.y + h <= cut.bbox.y_max ==> are_whole_steps(
            across,
            row.spacing,
            cut.bbox.x_max - cut.bbox.x_min,
        ),
    ensures
        core.x_min + row.spacing < cut.bbox.x_min - cut.space ==> trunc_div(
            cut.bbox.x_min - cut.space - core.x_min,
            row.spacing,
        ) == left,
        right_start(row, cut) + row.spacing < core.x_max ==> trunc_div(
            core.x_max - right_start(row, cut),
            row.spacing,
        ) == right,
        cut.bbox.y_min <= row.y && row.y + h <= cut.bbox.y_max ==> trunc_div(
            cut.bbox.x_max - cut.bbox.x_min,
            row.spacing,
        ) == across,
{
    let sp = row.spacing;
    if core.x_min + sp < cut.bbox.x_min - cut.space {
        lemma_fill_unique(left, sp, cut.bbox.x_min - cut.space - core.x_min);
    }
    if right_start(row, cut) + sp < core.x_max {
        lemma_fill_unique(right, sp, core.x_max - right_start(row, cut));
    }
    if cut.bbox.y_min <= row.y && row.y + h <= cut.bbox.y_max {
        let length = cut.bbox.x_max - cut.bbox.x_min;
        if length >= 0 {
            assert((across + 1) * sp == across * sp + sp) by (nonlinear_arith);
            lemma_fill_unique(across, sp, length);
        } else {
            assert((across - 1) * sp == across * sp - sp) by (nonlinear_arith);
            assert((-across) * sp == -(across * sp)) by (nonlinear_arith);
            lemma_fill_unique(-across, sp, -length);
        }
    }
}

proof fn lemma_fill_unique(n: int, step: int, room: int)
    requires
        step > 0,
        room >= 0,
        fill(n, step, room),
    ensures
        n == trunc_div(room, step),
{
    vstd::arithmetic::div_mod::lemma_fundamental_div_mod_converse(
        room,
        step,
        n,
        room - n * step,
    );
}

proof fn lemma_multiple_unique(x: int, step: int, a: int, b: int)
    requires
        step > 0,
        a % step == 0,
        b % step == 0,
        x <= a < x + step,
        x <= b < x + step,
    ensures
        a == b,
{
    let p = a / step;
    let q = b / step;
    vstd::arithmetic::div_mod::lemma_fundamental_div_mod(a, step);
    vstd::arithmetic::div_mod::lemma_fundamental_div_mod(b, step);
    assert(p == q) by (nonlinear_arith)
        requires
            a == step * p,
            b == step * q,
            -step < a - b < step,
            step > 0,
    ;
}

proof fn lemma_multiple(k: int, step: int)
    requires
        step > 0,
    ensures
        (k * step) % step == 0,
{
    vstd::arithmetic::div_mod::lemma_fundamental_div_mod_converse(k * step, step, k, 0);
}

proof fn lemma_on_grid_up(x: int, step: int, to: int)
    requires
        step > 0,
        fits(x),
        fits(to),
        to % step == 0,
        x <= to < x + step,
    ensures
        site_loc(x, step, false, 0) == to,
{
    lemma_on_grid_above(x, step, to);
}

proof fn lemma_on_grid_above(x: int, step: int, to: int)
    requires
        step > 0,
        fits(to),
        to % step == 0,
        x <= to < x + step,
    ensures
        site_loc(x, step, false, 0) == to,
{
    let q = crate::geometry::ceil_div(x, step);
    vstd::arithmetic::div_mod::lemma_fundamental_div_mod(-x, step);
    let m = (-x) / step;
    assert(x <= (-m) * step < x + step) by (nonlinear_arith)
        requires
            -x == step * m + (-x) % step,
            0 <= (-x) % step < step,
    ;
    lemma_multiple(q, step);
    lemma_multiple_unique(x, step, q * step, to);
    assert(fits(q)) by (nonlinear_arith)
        requires
            q * step == to,
            i32::MIN <= to <= i32::MAX,
            step >= 1,
    ;
}

proof fn lemma_on_grid_down(x: int, step: int, to: int)
    requires
        step > 0,
        fits(x),
        fits(to),
        to % step == 0,
        x - step < to <= x,
    ensures
        site_loc(x, step, true, 0) == to,
{
    let q = crate::geometry::floor_div(x, step);
    vstd::arithmetic::div_mod::lemma_fundamental_div_mod(x, step);
    assert(x - step < q * step <= x) by (nonlinear_arith)
        requires
            x == step * q + x % step,
            0 <= x % step < step,
    ;
    lemma_multiple(q, step);
    lemma_multiple_unique(x - step + 1, step, q * step, to);
    assert(fits(q)) by (nonlinear_arith)
        requires
            q * step == to,
            i32::MIN <= to <= i32::MAX,
            step >= 1,
    ;
}

/// Rows are split only where there is a row that is no pad row, with a site that has a width and a
/// height; else every row stays as it is.
pub proof fn law_nothing_to_measure_by_leaves_the_rows(
    rows: Seq<RowModel>,
    domain: DomainModel,
    core: Area,
    gap: Option<i32>,
    height: spec_fn(Seq<char>) -> int,
    is_pad: spec_fn(Seq<char>) -> bool,
)
    requires
        (forall|i: int| 0 <= i < rows.len() ==> is_pad((#[trigger] rows[i]).site)) || exists|i: int|
            0 <= i < rows.len() && !is_pad((#[trigger] rows[i]).site) && (rows[i].spacing <= 0
                || height(rows[i].site) <= 0),
    ensures
        split_by_one(rows, domain, core, gap, height, is_pad) == rows,
{
    lemma_least(rows, height, is_pad);
}

/// A row that is no pad row comes through a split untouched only where it keeps the margin away
/// from the domain, on whichever side of it the row lies: between the row and the domain's box, its
/// edges on the grid of the smallest sites, there is at least the gap, or six of the smallest site
/// heights.
pub proof fn law_a_row_that_stays_keeps_its_distance(
    rows: Seq<RowModel>,
    domain: DomainModel,
    core: Area,
    gap: Option<i32>,
    height: spec_fn(Seq<char>) -> int,
    is_pad: spec_fn(Seq<char>) -> bool,
    dx: int,
    dy: int,
    low: int,
    high: int,
    i: int,
)
    requires
        domain.bbox.fits(),
        dx > 0,
        dy > 0,
        are_least(rows, height, is_pad, dx, dy),
        fits(low),
        fits(high),
        low % dy == 0 && domain.bbox.y_min <= low < domain.bbox.y_min + dy,
        high % dy == 0 && domain.bbox.y_max - dy < high <= domain.bbox.y_max,
        0 <= i < rows.len(),
        !is_pad(rows[i].site),
        forall|k: int|
            0 <= k < rows.len() && k != i ==> (#[trigger] rows[k]).y != rows[i].y,
    ensures
        ({
            let space = match gap {
                Some(g) => g as int,
                None => 6 * dy,
            };
            split_by_one(rows, domain, core, gap, height, is_pad).contains(rows[i]) <==> {
                ||| rows[i].y + height(rows[i].site) + space <= low
                ||| high + space <= rows[i].y
            }
        }),
{
    lemma_least(rows, height, is_pad);
    let found = (least_spacing(rows, is_pad), least_height(rows, height, is_pad));
    let s = choose|i: int|
        0 <= i < rows.len() && !is_pad((#[trigger] rows[i]).site) && rows[i].spacing == dx;
    assert(!is_pad(rows[s].site));
    assert(found.0 is Some && found.1 is Some);
    let (ax, ay) = (found.0.unwrap(), found.1.unwrap());
    let a = choose|i: int|
        0 <= i < rows.len() && !is_pad((#[trigger] rows[i]).site) && rows[i].spacing == ax;
    let b = choose|i: int|
        0 <= i < rows.len() && !is_pad((#[trigger] rows[i]).site) && height(rows[i].site) == ay;
    let c = choose|i: int|
        0 <= i < rows.len() && !is_pad((#[trigger] rows[i]).site) && height(rows[i].site) == dy;
    assert(dx == ax && dy == ay) by {
        assert(dx <= rows[a].spacing && ax <= rows[s].spacing);
        assert(dy <= height(rows[b].site) && ay <= height(rows[c].site));
    }
    lemma_on_grid_up(domain.bbox.y_min, dy, low);
    lemma_on_grid_down(domain.bbox.y_max, dy, high);
    let cut = cut_of(rows, domain, gap, height, is_pad).unwrap();
    let all = split_by_one(rows, domain, core, gap, height, is_pad);
    let front = in_places(rows, cut, core, height, is_pad);
    let back = appended(rows, cut, core, height, is_pad);
    if is_kept(rows[i], cut, height, is_pad) {
        law_kept_rows_survive(rows, domain, core, gap, height, is_pad, i);
    } else if all.contains(rows[i]) {
        let k = choose|k: int| 0 <= k < all.len() && all[k] == rows[i];
        if k < front.len() {
            let j = lemma_source_in_place(rows, cut, core, height, is_pad, k);
            assert(front[k] == rows[i]);
        } else {
            let j = lemma_source_appended(rows, cut, core, height, is_pad, k - front.len());
            assert(back[k - front.len()] == rows[i]);
        }
    }
}

proof fn lemma_piece_is_new(row: RowModel, cut: Cut, core: Area, height: int, i: int)
    requires
        0 <= i < pieces(row, cut, core, height).len(),
    ensures
        pieces(row, cut, core, height)[i].y == row.y,
        pieces(row, cut, core, height)[i].name.len() > row.name.len(),
{
    reveal_strlit("_1");
    reveal_strlit("_2");
    reveal_strlit("_");
    let p = pieces(row, cut, core, height)[i];
    let left = left_piece(row, cut, core);
    let right = right_piece(row, cut, core);
    if i < left.len() {
        assert(p == left[0]);
    } else if i < left.len() + right.len() {
        assert(p == right[0]);
    } else {
        assert(p == middle_piece(row, cut, height)[0]);
    }
}

proof fn lemma_source_in_place(
    rows: Seq<RowModel>,
    cut: Cut,
    core: Area,
    hs: spec_fn(Seq<char>) -> int,
    ps: spec_fn(Seq<char>) -> bool,
    i: int,
) -> (j: int)
    requires
        0 <= i < in_places(rows, cut, core, hs, ps).len(),
    ensures
        0 <= j < rows.len(),
        in_places(rows, cut, core, hs, ps)[i].y == rows[j].y,
        is_kept(rows[j], cut, hs, ps) || in_places(rows, cut, core, hs, ps)[i].name.len()
            > rows[j].name.len(),
    decreases rows.len(),
{
    let before = in_places(rows.drop_last(), cut, core, hs, ps);
    if i < before.len() {
        lemma_source_in_place(rows.drop_last(), cut, core, hs, ps, i)
    } else {
        let row = rows.last();
        assert(in_places(rows, cut, core, hs, ps)[i] == in_place_of(row, cut, core, hs, ps)[i
            - before.len()]);
        if !is_kept(row, cut, hs, ps) {
            lemma_piece_is_new(row, cut, core, hs(row.site), 0);
        }
        rows.len() - 1
    }
}

proof fn lemma_source_appended(
    rows: Seq<RowModel>,
    cut: Cut,
    core: Area,
    hs: spec_fn(Seq<char>) -> int,
    ps: spec_fn(Seq<char>) -> bool,
    i: int,
) -> (j: int)
    requires
        0 <= i < appended(rows, cut, core, hs, ps).len(),
    ensures
        0 <= j < rows.len(),
        appended(rows, cut, core, hs, ps)[i].y == rows[j].y,
        appended(rows, cut, core, hs, ps)[i].name.len() > rows[j].name.len(),
    decreases rows.len(),
{
    let before = appended(rows.drop_last(), cut, core, hs, ps);
    if i < before.len() {
        lemma_source_appended(rows.drop_last(), cut, core, hs, ps, i)
    } else {
        let row = rows.last();
        let k = i - before.len();
        assert(appended(rows, cut, core, hs, ps)[i] == appended_for(row, cut, core, hs, ps)[k]);
        lemma_piece_is_new(row, cut, core, hs(row.site), k + 1);
        rows.len() - 1
    }
}

/// Domains are taken one after the other: each splits what those before it left.
pub proof fn law_domains_split_in_turn(
    rows: Seq<RowModel>,
    a: Seq<DomainModel>,
    b: Seq<DomainModel>,
    domain: DomainModel,
    core: Area,
    gap: Option<i32>,
    height: spec_fn(Seq<char>) -> int,
    is_pad: spec_fn(Seq<char>) -> bool,
)
    ensures
        split_by_all(rows, Seq::empty(), core, gap, height, is_pad) == rows,
        split_by_all(rows, seq![domain], core, gap, height, is_pad) == split_by_one(
            rows,
            domain,
            core,
            gap,
            height,
            is_pad,
        ),
        split_by_all(rows, a + b, core, gap, height, is_pad) == split_by_all(
            split_by_all(rows, a, core, gap, height, is_pad),
            b,
            core,
            gap,
            height,
            is_pad,
        ),
    decreases b.len(),
{
    assert(seq![domain].drop_last() =~= Seq::<DomainModel>::empty());
    if b.len() == 0 {
        assert(a + b =~= a);
    } else {
        assert((a + b).drop_last() =~= a + b.drop_last());
        law_domains_split_in_turn(
            rows,
            a,
            b.drop_last(),
            domain,
            core,
            gap,
            height,
            is_pad,
        );
    }
}

/// It is enough that the two functions answer for the sites that rows are made of: whatever they
/// say of those sites is what the rows are split by.
pub proof fn law_the_functions_are_asked_about_the_rows<
    H: Fn(&str) -> i32,
    P: Fn(&str) -> bool,
>(
    site_height: H,
    site_is_pad: P,
    rows: Seq<RowModel>,
    height: spec_fn(Seq<char>) -> int,
    is_pad: spec_fn(Seq<char>) -> bool,
)
    requires
        forall|s: &str| #[trigger] call_requires(site_height, (s,)),
        forall|s: &str| #[trigger] call_requires(site_is_pad, (s,)),
        forall|s: &str, h: i32| #[trigger]
            call_ensures(site_height, (s,), h) ==> h == height(s@),
        forall|s: &str, b: bool| #[trigger]
            call_ensures(site_is_pad, (s,), b) ==> b == is_pad(s@),
    ensures
        told_of(site_height, site_is_pad, rows, height, is_pad),
{
}

} // verus!
