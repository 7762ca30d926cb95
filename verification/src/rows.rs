//! Rows of one height: parity, the core snap, and the uniform row grid.

use crate::geometry::{
    ceil_div, div_ceil, div_toward_zero, fits, in_range, trunc_div, Area, Rect,
};
use crate::model::{
    row_models, site_counts, site_ref_models, texts, Row, RowModel, RowParity, Site, SiteModel,
};
use crate::text::{decimal, lemma_decimal_injective, push_decimal, same_text};
use vstd::arithmetic::div_mod::{lemma_fundamental_div_mod, lemma_fundamental_div_mod_converse};
use vstd::prelude::*;

verus! {

/// `n` rows trimmed to a parity. No rows stay no rows: there is no odd count below zero.
pub open spec fn parity_trim(n: int, parity: RowParity) -> int {
    match parity {
        RowParity::Any => n,
        RowParity::Even => trunc_div(n, 2) * 2,
        RowParity::Odd => if n > 0 && n % 2 == 0 {
            n - 1
        } else {
            n
        },
    }
}

/// Trim a row count to the requested parity.
pub fn apply_row_parity(rows_y: i32, parity: RowParity) -> (r: i32)
    ensures
        r == parity_trim(rows_y as int, parity),
{
    match parity {
        RowParity::Any => rows_y,
        RowParity::Even => (div_toward_zero(rows_y as i64, 2) * 2) as i32,
        RowParity::Odd => if rows_y > 0 && rows_y % 2 == 0 {
            rows_y - 1
        } else {
            rows_y
        },
    }
}

/// The core with its lower left rounded up to the site grid. The upper right does not move, and a
/// core at a negative origin is left as given.
pub open spec fn snapped_core(core: Area, site: SiteModel) -> Area {
    if core.x_min < 0 || core.y_min < 0 {
        core
    } else {
        Area {
            x_min: ceil_div(core.x_min, site.width) * site.width,
            y_min: ceil_div(core.y_min, site.height) * site.height,
            x_max: core.x_max,
            y_max: core.y_max,
        }
    }
}

fn round_up(a: i32, b: i32) -> (r: i64)
    requires
        a >= 0,
        b > 0,
    ensures
        r == ceil_div(a as int, b as int) * b,
{
    let q: i64 = div_ceil(a, b) as i64;
    proof {
        let x = q as int;
        let y = b as int;
        assert(-0x4000_0000_0000_0000 <= x * y <= 0x4000_0000_0000_0000) by (nonlinear_arith)
            requires
                -0x8000_0000 <= x <= 0x8000_0000,
                0 <= y <= 0x8000_0000,
        ;
    }
    q * b as i64
}

/// Can the core's lower left be put on the site grid without leaving the database units?
pub fn can_snap_core(core: Rect, site: &Site) -> (r: bool)
    requires
        !site@.is_degenerate(),
    ensures
        r == snapped_core(core@, site@).fits(),
{
    core.x_min < 0 || core.y_min < 0 || in_range(round_up(core.x_min, site.width)) && in_range(
        round_up(core.y_min, site.height),
    )
}

/// Snap the core's lower left up to the site grid; the upper right does not move.
///
/// The lower left is rounded up so rows start on a legal site boundary, while the upper right is
/// left alone because the row count is what decides where the core really ends. A core placed at
/// a negative origin is left as given.
pub fn snap_core_lower_left(core: Rect, site: &Site) -> (r: Rect)
    requires
        core.x_min >= 0 && core.y_min >= 0 ==> {
            &&& !site@.is_degenerate()
            &&& snapped_core(core@, site@).fits()
        },
    ensures
        r@ == snapped_core(core@, site@),
{
    if core.x_min < 0 || core.y_min < 0 {
        return core;
    }
    Rect {
        x_min: round_up(core.x_min, site.width) as i32,
        y_min: round_up(core.y_min, site.height) as i32,
        x_max: core.x_max,
        y_max: core.y_max,
    }
}

/// The name of the `n`-th row.
pub open spec fn row_name(n: nat) -> Seq<char> {
    "ROW_"@ + decimal(n)
}

/// The name of the `n`-th row.
pub fn numbered_row(n: usize) -> (r: String)
    ensures
        r@ == row_name(n as nat),
{
    let mut out = String::from("ROW_");
    push_decimal(&mut out, n as u64);
    out
}

/// Different numbers name different rows.
pub proof fn lemma_row_name_injective(a: nat, b: nat)
    requires
        row_name(a) == row_name(b),
    ensures
        a == b,
{
    let head = "ROW_"@;
    assert(decimal(a) =~= row_name(a).skip(head.len() as int));
    assert(decimal(b) =~= row_name(b).skip(head.len() as int));
    lemma_decimal_injective(a, b);
}

/// Is `name` one of `list`?
pub fn lists_name(list: &[String], name: &str) -> (r: bool)
    ensures
        r == texts(list@).contains(name@),
{
    let mut i: usize = 0;
    while i < list.len()
        invariant
            i <= list@.len(),
            forall|j: int| 0 <= j < i ==> #[trigger] list@[j]@ != name@,
        decreases list.len() - i,
    {
        if same_text(list[i].as_str(), name) {
            assert(texts(list@)[i as int] == name@);
            return true;
        }
        i = i + 1;
    }
    assert forall|j: int| 0 <= j < texts(list@).len() implies #[trigger] texts(list@)[j]
        != name@ by {
        assert(texts(list@)[j] == list@[j]@);
    }
    false
}

/// How many rows of `height` the core holds, trimmed to `parity`.
pub open spec fn row_count(core: Area, height: int, parity: RowParity) -> int {
    parity_trim(trunc_div(core.dy(), height), parity)
}

/// Orientations alternate, and flipping a site shifts the phase.
pub open spec fn alternating(r: int, flip: bool) -> Seq<char> {
    if (r % 2 == 0) != flip {
        "R0"@
    } else {
        "MX"@
    }
}

/// The rows of one site, stacked from the core's floor. They are numbered from `first`, and their
/// horizontal count and spacing are those of the base site.
pub open spec fn site_rows(
    core: Area,
    base: SiteModel,
    site: SiteModel,
    parity: RowParity,
    flip: bool,
    first: nat,
) -> Seq<RowModel> {
    let n = row_count(core, site.height, parity);
    Seq::new(
        if n > 0 {
            n as nat
        } else {
            0
        },
        |r: int|
            RowModel {
                name: row_name((first + r) as nat),
                site: site.name,
                x: core.x_min,
                y: core.y_min + r * site.height,
                orient: alternating(r, flip),
                num_sites: trunc_div(core.dx(), base.width),
                spacing: base.width,
            },
    )
}

/// The rows of every site in turn, numbered throughout.
pub open spec fn uniform_rows(
    core: Area,
    base: SiteModel,
    ordered: Seq<SiteModel>,
    parity: RowParity,
    flipped: Seq<Seq<char>>,
) -> Seq<RowModel>
    decreases ordered.len(),
{
    if ordered.len() == 0 {
        Seq::empty()
    } else {
        let before = uniform_rows(core, base, ordered.drop_last(), parity, flipped);
        let site = ordered.last();
        before + site_rows(core, base, site, parity, flipped.contains(site.name), before.len())
    }
}

/// The row count of every site in turn.
pub open spec fn uniform_counts(
    core: Area,
    ordered: Seq<SiteModel>,
    parity: RowParity,
) -> Seq<(Seq<char>, int)> {
    Seq::new(
        ordered.len(),
        |i: int| (ordered[i].name, row_count(core, ordered[i].height, parity)),
    )
}

/// The rows stay below the core's top: as many as were counted have room.
pub proof fn lemma_rows_have_room(core: Area, height: int, parity: RowParity)
    requires
        height > 0,
    ensures
        row_count(core, height, parity) > 0 ==> {
            &&& core.dy() > 0
            &&& row_count(core, height, parity) * height <= core.dy()
        },
        row_count(core, height, parity) <= 0 ==> core.dy() < 2 * height,
        core.dy() >= 0 ==> row_count(core, height, parity) >= 0,
{
    let n = trunc_div(core.dy(), height);
    let c = row_count(core, height, parity);
    if core.dy() >= 0 {
        lemma_fundamental_div_mod(core.dy(), height);
        assert(n * height <= core.dy()) by (nonlinear_arith)
            requires
                core.dy() == height * n + core.dy() % height,
                0 <= core.dy() % height,
        ;
        assert(n >= 0) by (nonlinear_arith)
            requires
                core.dy() == height * n + core.dy() % height,
                core.dy() % height < height,
                core.dy() >= 0,
                height > 0,
        ;
        assert(c <= n);
        assert(c * height <= n * height) by (nonlinear_arith)
            requires
                c <= n,
                height > 0,
        ;
        if c <= 0 {
            assert(n <= 1);
            assert(core.dy() < 2 * height) by (nonlinear_arith)
                requires
                    core.dy() == height * n + core.dy() % height,
                    core.dy() % height < height,
                    n <= 1,
                    height > 0,
            ;
        }
    } else {
        let m = (-core.dy()) / height;
        assert(m >= 0) by (nonlinear_arith)
            requires
                m == (-core.dy()) / height,
                core.dy() < 0,
                height > 0,
        ;
    }
}

/// Appends the rows of one site and says how many it counted.
fn push_site_rows(
    rows: &mut Vec<Row>,
    core: Rect,
    base: &Site,
    site: &Site,
    parity: RowParity,
    flip: bool,
) -> (n: i32)
    requires
        base.width > 0,
        site.height > 0,
        fits(trunc_div(core@.dx(), base.width as int)),
        fits(trunc_div(core@.dy(), site.height as int)),
    ensures
        n == row_count(core@, site.height as int, parity),
        row_models(final(rows)@) == row_models(old(rows)@) + site_rows(
            core@,
            base@,
            site@,
            parity,
            flip,
            old(rows)@.len(),
        ),
{
    let rows_x: i32 = div_toward_zero(core.wide_dx(), base.width as i64) as i32;
    let n: i32 = apply_row_parity(
        div_toward_zero(core.wide_dy(), site.height as i64) as i32,
        parity,
    );
    let ghost before = rows@;
    let ghost stack = site_rows(core@, base@, site@, parity, flip, before.len());
    let mut r: i32 = 0;
    let mut up: bool = !flip;
    let mut y: i64 = core.y_min as i64;
    while r < n
        invariant
            base.width > 0,
            site.height > 0,
            rows_x == trunc_div(core@.dx(), base.width as int),
            n == row_count(core@, site.height as int, parity),
            stack == site_rows(core@, base@, site@, parity, flip, before.len()),
            0 <= r,
            r <= n || n < 0 && r == 0,
            up == ((r % 2 == 0) != flip),
            y == core.y_min + r * site.height,
            rows@.len() == before.len() + r,
            row_models(rows@) =~= row_models(before) + stack.take(r as int),
        decreases n - r,
    {
        proof {
            lemma_rows_have_room(core@, site.height as int, parity);
            let h = site.height as int;
            assert(0 <= r * h && r * h + h <= n * h) by (nonlinear_arith)
                requires
                    0 <= r < n,
                    h > 0,
            ;
        }
        let orient: &str = if up {
            "R0"
        } else {
            "MX"
        };
        let ghost made = rows@;
        rows.push(
            Row {
                name: numbered_row(rows.len()),
                site: site.name.clone(),
                x: core.x_min,
                y: y as i32,
                orient: String::from(orient),
                num_sites: rows_x,
                spacing: base.width,
            },
        );
        assert(rows@.last()@ == stack[r as int]);
        assert(row_models(rows@) =~= row_models(made).push(stack[r as int]));
        assert(stack.take(r + 1) =~= stack.take(r as int).push(stack[r as int]));
        up = !up;
        proof {
            let h = site.height as int;
            assert((r + 1) * h == r * h + h) by (nonlinear_arith);
        }
        y = y + site.height as i64;
        r = r + 1;
    }
    assert(stack.take(stack.len() as int) =~= stack);
    n
}

/// Builds the rows of every site in name order, and counts them.
pub fn build_uniform_rows(
    core: Rect,
    base: &Site,
    ordered: &[&Site],
    parity: RowParity,
    flipped: &[String],
) -> (r: (Vec<Row>, Vec<(String, i32)>))
    requires
        base.width > 0,
        fits(trunc_div(core@.dx(), base.width as int)),
        forall|i: int|
            0 <= i < ordered@.len() ==> (#[trigger] ordered@[i]).height > 0 && fits(
                trunc_div(core@.dy(), ordered@[i].height as int),
            ),
    ensures
        row_models(r.0@) == uniform_rows(
            core@,
            base@,
            site_ref_models(ordered@),
            parity,
            texts(flipped@),
        ),
        site_counts(r.1@) == uniform_counts(core@, site_ref_models(ordered@), parity),
{
    let mut rows: Vec<Row> = Vec::new();
    let mut counts: Vec<(String, i32)> = Vec::new();
    let ghost models = site_ref_models(ordered@);
    let mut i: usize = 0;
    while i < ordered.len()
        invariant
            i <= ordered@.len(),
            models == site_ref_models(ordered@),
            base.width > 0,
            fits(trunc_div(core@.dx(), base.width as int)),
            forall|i: int|
                0 <= i < ordered@.len() ==> (#[trigger] ordered@[i]).height > 0 && fits(
                    trunc_div(core@.dy(), ordered@[i].height as int),
                ),
            row_models(rows@) == uniform_rows(
                core@,
                base@,
                models.take(i as int),
                parity,
                texts(flipped@),
            ),
            site_counts(counts@) =~= uniform_counts(core@, models.take(i as int), parity),
        decreases ordered.len() - i,
    {
        let site: &Site = ordered[i];
        let flip: bool = lists_name(flipped, site.name.as_str());
        let n: i32 = push_site_rows(&mut rows, core, base, site, parity, flip);
        let ghost made = counts@;
        counts.push((site.name.clone(), n));
        proof {
            assert(site_counts(counts@) =~= site_counts(made).push((site@.name, n as int)));
            assert(models.take(i + 1).drop_last() =~= models.take(i as int));
            assert(models.take(i + 1).last() == site@);
        }
        i = i + 1;
    }
    assert(models.take(ordered@.len() as int) =~= models);
    (rows, counts)
}

/// `row` is the `k`-th row of `site`: it has room in the core, it stands on the one below, and its
/// orientation follows from `k` alone.
pub open spec fn is_kth_row(
    row: RowModel,
    core: Area,
    site: SiteModel,
    parity: RowParity,
    flip: bool,
    k: int,
) -> bool {
    &&& row.site == site.name
    &&& 0 <= k < row_count(core, site.height, parity)
    &&& row.y == core.y_min + k * site.height
    &&& core.y_min <= row.y
    &&& row.y + site.height <= core.y_max
    &&& row.orient == alternating(k, flip)
}

/// Every row of a uniform floorplan is one of some site's stack, starts at the core's left edge,
/// shares the base site's horizontal count and spacing, and is named by its position among all
/// rows.
pub proof fn law_every_row_is_one_of_a_stack(
    core: Area,
    base: SiteModel,
    ordered: Seq<SiteModel>,
    parity: RowParity,
    flipped: Seq<Seq<char>>,
    r: int,
)
    requires
        forall|i: int| 0 <= i < ordered.len() ==> (#[trigger] ordered[i]).height > 0,
        0 <= r < uniform_rows(core, base, ordered, parity, flipped).len(),
    ensures
        ({
            let row = uniform_rows(core, base, ordered, parity, flipped)[r];
            &&& row.name == row_name(r as nat)
            &&& row.x == core.x_min
            &&& row.num_sites == trunc_div(core.dx(), base.width)
            &&& row.spacing == base.width
            &&& exists|i: int, k: int|
                0 <= i < ordered.len() && #[trigger] is_kth_row(
                    row,
                    core,
                    ordered[i],
                    parity,
                    flipped.contains(ordered[i].name),
                    k,
                )
        }),
    decreases ordered.len(),
{
    let rest = ordered.drop_last();
    let site = ordered.last();
    let before = uniform_rows(core, base, rest, parity, flipped);
    let row = uniform_rows(core, base, ordered, parity, flipped)[r];
    assert forall|i: int| 0 <= i < rest.len() implies (#[trigger] rest[i]).height > 0 by {
        assert(rest[i] == ordered[i]);
    }
    if r < before.len() {
        law_every_row_is_one_of_a_stack(core, base, rest, parity, flipped, r);
        assert(row == before[r]);
        let (i, k): (int, int) = choose|i: int, k: int|
            0 <= i < rest.len() && #[trigger] is_kth_row(
                row,
                core,
                rest[i],
                parity,
                flipped.contains(rest[i].name),
                k,
            );
        assert(rest[i] == ordered[i]);
        assert(is_kth_row(row, core, ordered[i], parity, flipped.contains(ordered[i].name), k));
    } else {
        let k = r - before.len();
        let n = row_count(core, site.height, parity);
        let h = site.height;
        assert(ordered[ordered.len() - 1] == site);
        lemma_rows_have_room(core, h, parity);
        assert(0 <= k * h && k * h + h <= n * h) by (nonlinear_arith)
            requires
                0 <= k < n,
                h > 0,
        ;
        assert(is_kth_row(
            row,
            core,
            ordered[ordered.len() - 1],
            parity,
            flipped.contains(ordered[ordered.len() - 1].name),
            k,
        ));
    }
}

/// The rows of a uniform floorplan are as many as the counts say together. A count is negative
/// only in an inverted core.
pub proof fn law_the_counts_add_up(
    core: Area,
    base: SiteModel,
    ordered: Seq<SiteModel>,
    parity: RowParity,
    flipped: Seq<Seq<char>>,
)
    requires
        forall|i: int|
            0 <= i < ordered.len() ==> row_count(core, (#[trigger] ordered[i]).height, parity) >= 0,
    ensures
        uniform_rows(core, base, ordered, parity, flipped).len() == total(
            uniform_counts(core, ordered, parity),
        ),
    decreases ordered.len(),
{
    let counts = uniform_counts(core, ordered, parity);
    if ordered.len() > 0 {
        let rest = ordered.drop_last();
        assert forall|i: int| 0 <= i < rest.len() implies row_count(
            core,
            (#[trigger] rest[i]).height,
            parity,
        ) >= 0 by {
            assert(rest[i] == ordered[i]);
        }
        assert(ordered[ordered.len() - 1] == ordered.last());
        assert(counts.drop_last() =~= uniform_counts(core, rest, parity));
        law_the_counts_add_up(core, base, rest, parity, flipped);
    }
}

/// The sum of the counts.
pub open spec fn total(counts: Seq<(Seq<char>, int)>) -> int
    decreases counts.len(),
{
    if counts.len() == 0 {
        0
    } else {
        total(counts.drop_last()) + counts.last().1
    }
}

/// Trimming to a parity never adds a row and takes away one at most. An even count results from
/// `Even`, and an odd one from `Odd` unless there was no row at all.
pub proof fn law_parity_trims_and_never_grows(n: int, parity: RowParity)
    requires
        n >= 0,
    ensures
        n - 1 <= parity_trim(n, parity) <= n,
        parity_trim(n, parity) >= 0,
        parity == RowParity::Even ==> parity_trim(n, parity) % 2 == 0,
        parity == RowParity::Odd && n > 0 ==> parity_trim(n, parity) % 2 == 1,
        parity == RowParity::Any ==> parity_trim(n, parity) == n,
        n == 0 ==> parity_trim(n, parity) == 0,
{
}

/// Two neighbouring rows of a stack have opposite orientations, and flipping a site turns every
/// one of its rows over.
pub proof fn law_orientations_alternate(k: int, flip: bool)
    ensures
        alternating(k, flip) != alternating(k + 1, flip),
        alternating(k, !flip) == alternating(k + 1, flip),
        alternating(0, false) == "R0"@,
{
    reveal_strlit("R0");
    reveal_strlit("MX");
    assert("R0"@[0] == 'R' && "MX"@[0] == 'M');
}

/// The core snap moves the lower left up to the next site boundary and no further, and leaves the
/// upper right where it was. A core on the grid already, or at a negative origin, stays as it is.
pub proof fn law_the_core_snap_rounds_up(core: Area, site: SiteModel)
    requires
        !site.is_degenerate(),
    ensures
        ({
            let s = snapped_core(core, site);
            &&& s.x_max == core.x_max && s.y_max == core.y_max
            &&& core.x_min < 0 || core.y_min < 0 ==> s == core
            &&& core.x_min >= 0 && core.y_min >= 0 ==> {
                &&& core.x_min <= s.x_min < core.x_min + site.width
                &&& core.y_min <= s.y_min < core.y_min + site.height
                &&& s.x_min % site.width == 0
                &&& s.y_min % site.height == 0
            }
            &&& core.x_min % site.width == 0 && core.y_min % site.height == 0 ==> s == core
        }),
{
    lemma_round_up(core.x_min, site.width);
    lemma_round_up(core.y_min, site.height);
}

proof fn lemma_round_up(a: int, b: int)
    requires
        b > 0,
    ensures
        a <= ceil_div(a, b) * b < a + b,
        (ceil_div(a, b) * b) % b == 0,
        a % b == 0 ==> ceil_div(a, b) * b == a,
{
    let q = (-a) / b;
    let m = (-a) % b;
    lemma_fundamental_div_mod(-a, b);
    assert((-q) * b == a + m) by (nonlinear_arith)
        requires
            -a == b * q + m,
    ;
    lemma_fundamental_div_mod_converse((-q) * b, b, -q, 0);
    if a % b == 0 {
        let p = a / b;
        lemma_fundamental_div_mod(a, b);
        assert(-a == (-p) * b + 0) by (nonlinear_arith)
            requires
                a == b * p,
        ;
        lemma_fundamental_div_mod_converse(-a, b, -p, 0);
    }
}

/// A count of rows that a parity allows.
pub open spec fn allows(parity: RowParity, n: int) -> bool {
    match parity {
        RowParity::Any => true,
        RowParity::Even => n % 2 == 0,
        RowParity::Odd => n % 2 == 1,
    }
}

/// `n` is the largest count of rows of `height` that has room and is allowed, or none at all where
/// no allowed count has room.
pub open spec fn is_most(n: int, height: int, room: int, parity: RowParity) -> bool {
    &&& n >= 0
    &&& n * height <= room
    &&& n == 0 || allows(parity, n)
    &&& forall|m: int| n < m && #[trigger] allows(parity, m) ==> room < m * height
}

/// A core holds as many rows of one height as have room at the parity asked for. An inverted core
/// holds none: its count is what it lacks, rounded toward none.
pub proof fn law_as_many_rows_as_have_room(core: Area, height: int, parity: RowParity, q: int)
    requires
        height > 0,
    ensures
        core.y_min <= core.y_max ==> is_most(
            row_count(core, height, parity),
            height,
            core.y_max - core.y_min,
            parity,
        ),
        core.y_min > core.y_max && (q - 1) * height < core.y_max - core.y_min <= q * height ==> {
            let n = row_count(core, height, parity);
            &&& n <= 0
            &&& parity == RowParity::Even && q % 2 == 1 ==> n == q + 1
            &&& parity != RowParity::Even || q % 2 == 0 ==> n == q
        },
{
    let room = core.y_max - core.y_min;
    let c = row_count(core, height, parity);
    let n = trunc_div(core.dy(), height);
    if room >= 0 {
        lemma_rows_have_room(core, height, parity);
        lemma_fundamental_div_mod(room, height);
        assert(n == room / height);
        assert(c * height <= room) by {
            if c == 0 {
                assert(c * height == 0) by (nonlinear_arith)
                    requires
                        c == 0,
                ;
            }
        }
        assert forall|m: int| c < m && #[trigger] allows(parity, m) implies room < m * height by {
            assert(m >= n + 1);
            assert(room < m * height) by (nonlinear_arith)
                requires
                    m >= n + 1,
                    room == height * n + room % height,
                    room % height < height,
                    height > 0,
            ;
        }
    } else if (q - 1) * height < room <= q * height {
        assert(-room == (-q) * height + (q * height - room)) by (nonlinear_arith);
        assert((q - 1) * height == q * height - height) by (nonlinear_arith);
        lemma_fundamental_div_mod_converse(-room, height, -q, q * height - room);
        assert(q <= 0) by (nonlinear_arith)
            requires
                (q - 1) * height < 0,
                height > 0,
        ;
    }
}

/// Trimming leaves a count that the parity allows alone. It takes one row from another one, and
/// gives one to a count that lacks rows where it is to be even.
pub proof fn law_trimming_leaves_what_is_allowed(n: int, parity: RowParity)
    ensures
        allows(parity, n) ==> parity_trim(n, parity) == n,
        !allows(parity, n) && n > 0 ==> parity_trim(n, parity) == n - 1,
        !allows(parity, n) && n < 0 && parity == RowParity::Even ==> parity_trim(n, parity) == n
            + 1,
        !allows(parity, n) && n <= 0 && parity == RowParity::Odd ==> parity_trim(n, parity) == n,
{
}

/// The rows of the sites come one site after the other: behind the rows of the sites before it, a
/// site has its own, the lowest first. The even ones stand upright and the odd ones upside down, or
/// the other way round where the site is flipped. All start at the core's left edge and are as wide
/// as the base site's columns make them.
pub proof fn law_the_rows_of_a_site_in_full(
    core: Area,
    base: SiteModel,
    ordered: Seq<SiteModel>,
    parity: RowParity,
    flipped: Seq<Seq<char>>,
    i: int,
    k: int,
)
    requires
        0 <= i < ordered.len(),
        core.y_min <= core.y_max,
        forall|j: int| 0 <= j < ordered.len() ==> (#[trigger] ordered[j]).height > 0,
        0 <= k < uniform_counts(core, ordered, parity)[i].1,
    ensures
        ({
            let rows = uniform_rows(core, base, ordered, parity, flipped);
            let r = total(uniform_counts(core, ordered, parity).take(i)) + k;
            &&& 0 <= r < rows.len()
            &&& rows[r].name == "ROW_"@ + decimal(r as nat)
            &&& rows[r].site == ordered[i].name
            &&& rows[r].x == core.x_min
            &&& rows[r].y == core.y_min + k * ordered[i].height
            &&& rows[r].spacing == base.width
            &&& rows[r].orient == if (k % 2 == 0) == flipped.contains(ordered[i].name) {
                "MX"@
            } else {
                "R0"@
            }
        }),
    decreases ordered.len(),
{
    let rest = ordered.drop_last();
    let counts = uniform_counts(core, ordered, parity);
    let before = uniform_rows(core, base, rest, parity, flipped);
    assert(counts.drop_last() =~= uniform_counts(core, rest, parity));
    assert forall|j: int| 0 <= j < rest.len() implies (#[trigger] rest[j]).height > 0 && rest[j]
        == ordered[j] by {
        assert(rest[j] == ordered[j]);
    }
    if i < rest.len() {
        assert(rest[i] == ordered[i]);
        assert(counts.take(i) =~= counts.drop_last().take(i));
        law_the_rows_of_a_site_in_full(core, base, rest, parity, flipped, i, k);
        let r = total(counts.take(i)) + k;
        assert(uniform_rows(core, base, ordered, parity, flipped)[r] == before[r]);
    } else {
        assert forall|j: int| 0 <= j < rest.len() implies row_count(
            core,
            (#[trigger] rest[j]).height,
            parity,
        ) >= 0 by {
            lemma_rows_have_room(core, rest[j].height, parity);
        }
        law_the_counts_add_up(core, base, rest, parity, flipped);
        assert(counts.take(i) =~= counts.drop_last());
    }
}

} // verus!
