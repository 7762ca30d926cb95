//! From a plan to the database: the domains that split its rows, and what is written in which
//! order.

use crate::areas::Refusal;
use crate::command::{ending_of, run_ending, Ending};
use crate::domains::{
    can_split_rows, copy_rows, domains_fit, split_by_all, split_rows_for_domains, told_of,
};
use crate::geometry::{Area, Rect};
use crate::model::{
    domain_models, row_models, site_models, texts, Domain, DomainModel, Plan, PlanModel, Row,
    RowModel, Site, SiteModel,
};
use crate::json::{quoted, Json};
use crate::report::{lemma_report_names, report_members, report_names, report_values};
use crate::rows::lists_name;
use crate::text::{joined, same_text};
use vstd::prelude::*;

verus! {

/// The contents of a list of rectangles.
pub open spec fn area_models(rects: Seq<Rect>) -> Seq<Area> {
    rects.map_values(|r: Rect| r@)
}

/// The smallest rectangle that contains both.
pub open spec fn hull(a: Area, b: Area) -> Area {
    Area {
        x_min: if a.x_min <= b.x_min {
            a.x_min
        } else {
            b.x_min
        },
        y_min: if a.y_min <= b.y_min {
            a.y_min
        } else {
            b.y_min
        },
        x_max: if a.x_max >= b.x_max {
            a.x_max
        } else {
            b.x_max
        },
        y_max: if a.y_max >= b.y_max {
            a.y_max
        } else {
            b.y_max
        },
    }
}

/// The smallest rectangle that contains all of `areas`.
pub open spec fn bounding_box(areas: Seq<Area>) -> Area
    decreases areas.len(),
{
    if areas.len() <= 1 {
        areas[0]
    } else {
        hull(bounding_box(areas.drop_last()), areas.last())
    }
}

fn hull_of(a: Rect, b: Rect) -> (r: Rect)
    ensures
        r@ == hull(a@, b@),
{
    Rect {
        x_min: if a.x_min <= b.x_min {
            a.x_min
        } else {
            b.x_min
        },
        y_min: if a.y_min <= b.y_min {
            a.y_min
        } else {
            b.y_min
        },
        x_max: if a.x_max >= b.x_max {
            a.x_max
        } else {
            b.x_max
        },
        y_max: if a.y_max >= b.y_max {
            a.y_max
        } else {
            b.y_max
        },
    }
}

/// The smallest rectangle that contains all of `rects`.
pub fn bounds_of(rects: &[Rect]) -> (r: Rect)
    requires
        rects@.len() > 0,
    ensures
        r@ == bounding_box(area_models(rects@)),
{
    let ghost models = area_models(rects@);
    let mut out: Rect = rects[0];
    let mut i: usize = 1;
    proof {
        assert(models.take(1)[0] == rects@[0]@);
    }
    while i < rects.len()
        invariant
            1 <= i <= rects@.len(),
            models == area_models(rects@),
            out@ == bounding_box(models.take(i as int)),
        decreases rects.len() - i,
    {
        proof {
            assert(models.take(i + 1).drop_last() =~= models.take(i as int));
            assert(models.take(i + 1).last() == rects@[i as int]@);
        }
        out = hull_of(out, rects[i]);
        i = i + 1;
    }
    assert(models.take(models.len() as int) =~= models);
    out
}

/// A bounding box contains every rectangle, and each of its edges is an edge of one of them.
pub proof fn law_a_bounding_box_is_tight(areas: Seq<Area>, i: int)
    requires
        0 <= i < areas.len(),
    ensures
        bounding_box(areas).contains(areas[i]),
        exists|k: int|
            0 <= k < areas.len() && (#[trigger] areas[k]).x_min == bounding_box(areas).x_min,
        exists|k: int|
            0 <= k < areas.len() && (#[trigger] areas[k]).y_min == bounding_box(areas).y_min,
        exists|k: int|
            0 <= k < areas.len() && (#[trigger] areas[k]).x_max == bounding_box(areas).x_max,
        exists|k: int|
            0 <= k < areas.len() && (#[trigger] areas[k]).y_max == bounding_box(areas).y_max,
    decreases areas.len(),
{
    if areas.len() > 1 {
        let rest = areas.drop_last();
        law_a_bounding_box_is_tight(
            rest,
            if i < rest.len() {
                i
            } else {
                0
            },
        );
        let b = bounding_box(rest);
        let n = areas.len() - 1;
        let k = choose|k: int| 0 <= k < rest.len() && (#[trigger] rest[k]).x_min == b.x_min;
        assert(areas[k].x_min == b.x_min && areas[n] == areas.last());
        let k = choose|k: int| 0 <= k < rest.len() && (#[trigger] rest[k]).y_min == b.y_min;
        assert(areas[k].y_min == b.y_min);
        let k = choose|k: int| 0 <= k < rest.len() && (#[trigger] rest[k]).x_max == b.x_max;
        assert(areas[k].x_max == b.x_max);
        let k = choose|k: int| 0 <= k < rest.len() && (#[trigger] rest[k]).y_max == b.y_max;
        assert(areas[k].y_max == b.y_max);
    } else {
        assert(areas[0].x_min == bounding_box(areas).x_min);
    }
}

/// The content of a [`Group`].
#[verifier::ext_equal]
pub struct GroupModel {
    pub name: Seq<char>,
    pub group_type: Seq<char>,
    pub region: Seq<char>,
    pub bounds: Seq<Area>,
}

/// A group of the design, with the boundaries of its region.
#[derive(Debug)]
pub struct Group {
    pub name: String,
    pub group_type: String,
    /// The region's name, empty where there is none.
    pub region: String,
    pub bounds: Vec<Rect>,
}

impl View for Group {
    type V = GroupModel;

    open spec fn view(&self) -> GroupModel {
        GroupModel {
            name: self.name@,
            group_type: self.group_type@,
            region: self.region@,
            bounds: area_models(self.bounds@),
        }
    }
}

/// The contents of a list of groups.
pub open spec fn group_models(groups: Seq<Group>) -> Seq<GroupModel> {
    groups.map_values(|g: Group| g@)
}

impl GroupModel {
    /// A voltage or power domain with a region that has boundaries. The type is the selector:
    /// other groups can carry a name and a region just as a domain does.
    pub open spec fn is_domain(self) -> bool {
        &&& self.group_type == "VOLTAGE_DOMAIN"@ || self.group_type == "POWER_DOMAIN"@
        &&& self.region.len() > 0
        &&& self.bounds.len() > 0
    }
}

/// The domains among the groups, in order.
pub open spec fn domains_of(groups: Seq<GroupModel>) -> Seq<DomainModel>
    decreases groups.len(),
{
    if groups.len() == 0 {
        Seq::empty()
    } else {
        let before = domains_of(groups.drop_last());
        let g = groups.last();
        if g.is_domain() {
            before.push(DomainModel { name: g.name, bbox: bounding_box(g.bounds) })
        } else {
            before
        }
    }
}

/// Every voltage or power domain among the groups.
pub fn voltage_domains(groups: &[Group]) -> (r: Vec<Domain>)
    ensures
        domain_models(r@) == domains_of(group_models(groups@)),
{
    let ghost models = group_models(groups@);
    let mut out: Vec<Domain> = Vec::new();
    let mut i: usize = 0;
    assert(domain_models(out@) =~= Seq::<DomainModel>::empty());
    while i < groups.len()
        invariant
            i <= groups@.len(),
            models == group_models(groups@),
            domain_models(out@) == domains_of(models.take(i as int)),
        decreases groups.len() - i,
    {
        let g: &Group = &groups[i];
        proof {
            assert(models.take(i + 1).drop_last() =~= models.take(i as int));
            assert(models.take(i + 1).last() == g@);
            reveal_strlit("");
            assert(""@ =~= Seq::<char>::empty());
            if g@.region.len() == 0 {
                assert(g@.region =~= Seq::<char>::empty());
            }
            assert(g@.bounds.len() == g.bounds@.len());
        }
        let domain: bool = same_text(g.group_type.as_str(), "VOLTAGE_DOMAIN") || same_text(
            g.group_type.as_str(),
            "POWER_DOMAIN",
        );
        if domain && !same_text(g.region.as_str(), "") && g.bounds.len() > 0 {
            let ghost made = out@;
            out.push(Domain { name: g.name.clone(), bbox: bounds_of(g.bounds.as_slice()) });
            assert(domain_models(out@) =~= domain_models(made).push(out@.last()@));
        }
        i = i + 1;
    }
    assert(models.take(models.len() as int) =~= models);
    out
}

/// The height of the last site called `name`, or zero.
pub open spec fn last_height(sites: Seq<SiteModel>, name: Seq<char>) -> int
    decreases sites.len(),
{
    if sites.len() == 0 {
        0
    } else if sites.last().name == name {
        sites.last().height
    } else {
        last_height(sites.drop_last(), name)
    }
}

/// The names of the sites whose class is `PAD`.
pub open spec fn pads_of(sites: Seq<SiteModel>, classes: Seq<Seq<char>>) -> Seq<Seq<char>>
    decreases sites.len(),
{
    if sites.len() == 0 {
        Seq::empty()
    } else {
        let before = pads_of(sites.drop_last(), classes);
        if classes[sites.len() - 1] == "PAD"@ {
            before.push(sites.last().name)
        } else {
            before
        }
    }
}

/// The names of the sites whose class is `PAD`. The classes are those of the sites, in order.
pub fn pad_sites(sites: &[Site], classes: &[String]) -> (r: Vec<String>)
    requires
        sites@.len() == classes@.len(),
    ensures
        texts(r@) == pads_of(site_models(sites@), texts(classes@)),
{
    let ghost models = site_models(sites@);
    let ghost kinds = texts(classes@);
    let mut out: Vec<String> = Vec::new();
    let mut i: usize = 0;
    assert(texts(out@) =~= Seq::<Seq<char>>::empty());
    while i < sites.len()
        invariant
            i <= sites@.len(),
            sites@.len() == classes@.len(),
            models == site_models(sites@),
            kinds == texts(classes@),
            texts(out@) == pads_of(models.take(i as int), kinds),
        decreases sites.len() - i,
    {
        proof {
            assert(models.take(i + 1).drop_last() =~= models.take(i as int));
            assert(models.take(i + 1).last() == sites@[i as int]@);
            assert(kinds[i as int] == classes@[i as int]@);
        }
        if same_text(classes[i].as_str(), "PAD") {
            let ghost made = out@;
            out.push(sites[i].name.clone());
            assert(texts(out@) =~= texts(made).push(sites@[i as int]@.name));
        }
        i = i + 1;
    }
    assert(models.take(models.len() as int) =~= models);
    out
}

/// The heights of the sites, by name.
pub open spec fn site_heights(sites: Seq<SiteModel>) -> spec_fn(Seq<char>) -> int {
    |name: Seq<char>| last_height(sites, name)
}

/// The pad sites, by name.
pub open spec fn listed_pads(pads: Seq<Seq<char>>) -> spec_fn(Seq<char>) -> bool {
    |name: Seq<char>| pads.contains(name)
}

fn find_last_height(sites: &[Site], name: &str) -> (r: i32)
    ensures
        r == last_height(site_models(sites@), name@),
{
    let ghost models = site_models(sites@);
    let mut i: usize = sites.len();
    assert(models.take(models.len() as int) =~= models);
    while i > 0
        invariant
            i <= sites@.len(),
            models == site_models(sites@),
            last_height(models, name@) == last_height(models.take(i as int), name@),
        decreases i,
    {
        proof {
            assert(models.take(i as int).last() == sites@[i - 1]@);
            assert(models.take(i as int).drop_last() =~= models.take(i - 1));
        }
        if same_text(sites[i - 1].name.as_str(), name) {
            return sites[i - 1].height;
        }
        i = i - 1;
    }
    0
}

/// The rows as split around the domains, or nothing where there is no domain.
pub open spec fn split_of(
    p: PlanModel,
    sites: Seq<SiteModel>,
    pads: Seq<Seq<char>>,
    domains: Seq<DomainModel>,
    gap: Option<i32>,
) -> Option<Seq<RowModel>> {
    if domains.len() == 0 {
        None
    } else {
        Some(
            split_by_all(
                p.rows,
                domains,
                p.core_snapped,
                gap,
                site_heights(sites),
                listed_pads(pads),
            ),
        )
    }
}

/// Can the rows as split around the domains be written in database units?
pub fn can_split(
    p: &Plan,
    sites: &[Site],
    pads: &[String],
    domains: &[Domain],
    gap: Option<i32>,
) -> (r: bool)
    ensures
        r == domains_fit(
            p@.rows,
            domain_models(domains@),
            p@.core_snapped,
            gap,
            site_heights(site_models(sites@)),
            listed_pads(texts(pads@)),
        ),
{
    let site_height = |name: &str| -> (h: i32)
        ensures
            h == last_height(site_models(sites@), name@),
        { find_last_height(sites, name) };
    let site_is_pad = |name: &str| -> (b: bool)
        ensures
            b == texts(pads@).contains(name@),
        { lists_name(pads, name) };
    can_split_rows(
        p.rows.as_slice(),
        domains,
        p.core_snapped,
        gap,
        &site_height,
        &site_is_pad,
        Ghost(site_heights(site_models(sites@))),
        Ghost(listed_pads(texts(pads@))),
    )
}

/// The rows as split around the domains.
///
/// They are kept apart from the plan's own, because the core area and the counts per site are
/// derived from the rows before the split.
pub fn split_plan_rows(
    p: &Plan,
    sites: &[Site],
    pads: &[String],
    domains: &[Domain],
    gap: Option<i32>,
) -> (r: Option<Vec<Row>>)
    requires
        domains_fit(
            p@.rows,
            domain_models(domains@),
            p@.core_snapped,
            gap,
            site_heights(site_models(sites@)),
            listed_pads(texts(pads@)),
        ),
    ensures
        split_of(p@, site_models(sites@), texts(pads@), domain_models(domains@), gap) == (match r {
            Some(rows) => Some(row_models(rows@)),
            None => None,
        }),
{
    if domains.len() == 0 {
        return None;
    }
    let rows: Vec<Row> = copy_rows(p.rows.as_slice());
    let site_height = |name: &str| -> (h: i32)
        ensures
            h == last_height(site_models(sites@), name@),
        { find_last_height(sites, name) };
    let site_is_pad = |name: &str| -> (b: bool)
        ensures
            b == texts(pads@).contains(name@),
        { lists_name(pads, name) };
    assert(told_of(
        site_height,
        site_is_pad,
        p@.rows,
        site_heights(site_models(sites@)),
        listed_pads(texts(pads@)),
    ));
    Some(
        split_rows_for_domains(rows, domains, p.core_snapped, gap, &site_height, &site_is_pad),
    )
}

/// The content of a [`WriteStep`].
#[verifier::ext_equal]
pub enum WriteStepModel {
    SetDie(Area),
    ClearRows,
    CreateRow(RowModel),
    SetCore(Area),
    CutRows,
}

/// One thing done to the database.
#[derive(Debug)]
pub enum WriteStep {
    SetDie(Rect),
    /// Remove every row.
    ClearRows,
    CreateRow(Row),
    SetCore(Rect),
    /// Cut the rows at the block's placement blockages.
    CutRows,
}

impl View for WriteStep {
    type V = WriteStepModel;

    open spec fn view(&self) -> WriteStepModel {
        match *self {
            WriteStep::SetDie(r) => WriteStepModel::SetDie(r@),
            WriteStep::ClearRows => WriteStepModel::ClearRows,
            WriteStep::CreateRow(r) => WriteStepModel::CreateRow(r@),
            WriteStep::SetCore(r) => WriteStepModel::SetCore(r@),
            WriteStep::CutRows => WriteStepModel::CutRows,
        }
    }
}

/// The contents of a list of steps.
pub open spec fn step_models(steps: Seq<WriteStep>) -> Seq<WriteStepModel> {
    steps.map_values(|s: WriteStep| s@)
}

impl WriteStepModel {
    /// What the step could not do.
    pub open spec fn failure(self) -> Seq<char> {
        match self {
            WriteStepModel::SetDie(_) => "cannot set the die area"@,
            WriteStepModel::ClearRows => "cannot clear the existing rows"@,
            WriteStepModel::CreateRow(r) => "cannot create "@ + r.name,
            WriteStepModel::SetCore(_) => "cannot set the core area"@,
            WriteStepModel::CutRows => "cannot cut the rows around the blockages"@,
        }
    }
}

impl WriteStep {
    /// The sentence that says what could not be done, and why.
    pub fn failure(&self, error: &str) -> (r: String)
        ensures
            r@ == self@.failure() + ": "@ + error@,
    {
        let mut out: String = match self {
            WriteStep::SetDie(_) => String::from("cannot set the die area"),
            WriteStep::ClearRows => String::from("cannot clear the existing rows"),
            WriteStep::CreateRow(r) => joined("cannot create ", r.name.as_str()),
            WriteStep::SetCore(_) => String::from("cannot set the core area"),
            WriteStep::CutRows => String::from("cannot cut the rows around the blockages"),
        };
        out.append(": ");
        out.append(error);
        out
    }
}

/// What is written of a plan, in order: the die where it is this command's to write, the rows in
/// place of the old ones, then the core area, which follows from the rows before any split, and
/// last the cuts at the blockages.
pub open spec fn steps_of(
    p: PlanModel,
    split: Option<Seq<RowModel>>,
    set_die: bool,
) -> Seq<WriteStepModel> {
    let rows = match split {
        Some(rows) => rows,
        None => p.rows,
    };
    (if set_die {
        seq![WriteStepModel::SetDie(p.die)]
    } else {
        Seq::empty()
    }) + seq![WriteStepModel::ClearRows] + rows.map_values(
        |r: RowModel| WriteStepModel::CreateRow(r),
    ) + seq![WriteStepModel::SetCore(p.core_final), WriteStepModel::CutRows]
}

/// What is written of a plan, in order.
///
/// Rows are written once, in the order the planner decided: clearing and creating again would
/// scramble the row list.
pub fn write_steps(p: &Plan, split: &Option<Vec<Row>>, set_die: bool) -> (r: Vec<WriteStep>)
    ensures
        step_models(r@) == steps_of(
            p@,
            match *split {
                Some(rows) => Some(row_models(rows@)),
                None => None,
            },
            set_die,
        ),
{
    let mut out: Vec<WriteStep> = Vec::new();
    if set_die {
        out.push(WriteStep::SetDie(p.die));
    }
    out.push(WriteStep::ClearRows);
    let rows: &Vec<Row> = match split {
        Some(rows) => rows,
        None => &p.rows,
    };
    let ghost head = step_models(out@);
    let ghost models = row_models(rows@);
    let ghost creates = models.map_values(|r: RowModel| WriteStepModel::CreateRow(r));
    let mut i: usize = 0;
    while i < rows.len()
        invariant
            i <= rows@.len(),
            models == row_models(rows@),
            creates == models.map_values(|r: RowModel| WriteStepModel::CreateRow(r)),
            step_models(out@) =~= head + creates.take(i as int),
        decreases rows.len() - i,
    {
        let ghost made = out@;
        out.push(WriteStep::CreateRow(rows[i].duplicate()));
        proof {
            assert(models[i as int] == rows@[i as int]@);
            assert(out@.last()@ == creates[i as int]);
            assert(step_models(out@) =~= step_models(made).push(creates[i as int]));
            assert(creates.take(i + 1) =~= creates.take(i as int).push(creates[i as int]));
        }
        i = i + 1;
    }
    assert(creates.take(creates.len() as int) =~= creates);
    out.push(WriteStep::SetCore(p.core_final));
    out.push(WriteStep::CutRows);
    assert(step_models(out@) =~= head + creates + seq![
        WriteStepModel::SetCore(p@.core_final),
        WriteStepModel::CutRows,
    ]);
    assert(head =~= (if set_die {
        seq![WriteStepModel::SetDie(p@.die)]
    } else {
        Seq::empty()
    }) + seq![WriteStepModel::ClearRows]);
    out
}

/// What of a database the steps change.
#[verifier::ext_equal]
pub struct Floor {
    pub die: Area,
    pub core: Area,
    pub rows: Seq<RowModel>,
}

/// The floor after one step. Cutting is the database's own business and left out.
pub open spec fn after_step(f: Floor, s: WriteStepModel) -> Floor {
    match s {
        WriteStepModel::SetDie(die) => Floor { die, ..f },
        WriteStepModel::ClearRows => Floor { rows: Seq::empty(), ..f },
        WriteStepModel::CreateRow(r) => Floor { rows: f.rows.push(r), ..f },
        WriteStepModel::SetCore(core) => Floor { core, ..f },
        WriteStepModel::CutRows => f,
    }
}

/// The floor after the steps.
pub open spec fn after_steps(f: Floor, steps: Seq<WriteStepModel>) -> Floor
    decreases steps.len(),
{
    if steps.len() == 0 {
        f
    } else {
        after_step(after_steps(f, steps.drop_last()), steps.last())
    }
}

proof fn lemma_after_steps_concat(f: Floor, a: Seq<WriteStepModel>, b: Seq<WriteStepModel>)
    ensures
        after_steps(f, a + b) == after_steps(after_steps(f, a), b),
    decreases b.len(),
{
    if b.len() == 0 {
        assert(a + b =~= a);
    } else {
        assert((a + b).drop_last() =~= a + b.drop_last());
        lemma_after_steps_concat(f, a, b.drop_last());
    }
}

proof fn lemma_after_creates(f: Floor, rows: Seq<RowModel>)
    ensures
        after_steps(f, rows.map_values(|r: RowModel| WriteStepModel::CreateRow(r))) == (Floor {
            rows: f.rows + rows,
            ..f
        }),
    decreases rows.len(),
{
    let creates = rows.map_values(|r: RowModel| WriteStepModel::CreateRow(r));
    if rows.len() == 0 {
        assert(f.rows + rows =~= f.rows);
    } else {
        assert(creates.drop_last() =~= rows.drop_last().map_values(
            |r: RowModel| WriteStepModel::CreateRow(r),
        ));
        lemma_after_creates(f, rows.drop_last());
        assert((f.rows + rows.drop_last()).push(rows.last()) =~= f.rows + rows);
    }
}

/// Rows are rebuilt, not appended: whatever the database held before, it ends up with exactly the
/// rows of the plan, or of its split, and with the core area of the plan before the split. The die
/// is written only where it is this command's to write.
pub proof fn law_rows_are_rebuilt(
    f: Floor,
    p: PlanModel,
    split: Option<Seq<RowModel>>,
    set_die: bool,
)
    ensures
        ({
            let after = after_steps(f, steps_of(p, split, set_die));
            &&& after.rows == (match split {
                Some(rows) => rows,
                None => p.rows,
            })
            &&& after.core == p.core_final
            &&& after.die == (if set_die {
                p.die
            } else {
                f.die
            })
        }),
{
    let rows = match split {
        Some(rows) => rows,
        None => p.rows,
    };
    let first = if set_die {
        seq![WriteStepModel::SetDie(p.die)]
    } else {
        Seq::empty()
    };
    let clear = seq![WriteStepModel::ClearRows];
    let creates = rows.map_values(|r: RowModel| WriteStepModel::CreateRow(r));
    let last = seq![WriteStepModel::SetCore(p.core_final), WriteStepModel::CutRows];
    lemma_after_steps_concat(f, first + clear + creates, last);
    lemma_after_steps_concat(f, first + clear, creates);
    lemma_after_steps_concat(f, first, clear);
    assert(first.len() > 0 ==> first.drop_last() =~= Seq::<WriteStepModel>::empty());
    assert(clear.drop_last() =~= Seq::<WriteStepModel>::empty());
    reveal_with_fuel(after_steps, 3);
    lemma_after_creates(after_steps(f, first + clear), rows);
    assert(last.drop_last().drop_last() =~= Seq::<WriteStepModel>::empty());
    assert(Seq::<RowModel>::empty() + rows =~= rows);
}

/// The database that a run writes: none when it only plans, else the one asked for, else the
/// input.
pub open spec fn destination_of(
    dry_run: bool,
    odb: Seq<char>,
    out_odb: Option<Seq<char>>,
) -> Option<Seq<char>> {
    if dry_run {
        None
    } else {
        match out_odb {
            Some(out) => Some(out),
            None => Some(odb),
        }
    }
}

/// The database that a run writes.
pub fn destination(dry_run: bool, odb: &str, out_odb: &Option<String>) -> (r: Option<String>)
    ensures
        destination_of(
            dry_run,
            odb@,
            match *out_odb {
                Some(o) => Some(o@),
                None => None,
            },
        ) == (match r {
            Some(d) => Some(d@),
            None => None,
        }),
{
    if dry_run {
        return None;
    }
    match out_odb {
        Some(out) => Some(out.clone()),
        None => Some(String::from(odb)),
    }
}

/// The status that the report gives: `planned` when nothing is written, else `applied`.
pub open spec fn status_of(dry_run: bool) -> Seq<char> {
    if dry_run {
        "planned"@
    } else {
        "applied"@
    }
}

/// The status that the report gives.
pub fn status_word(dry_run: bool) -> (r: &'static str)
    ensures
        r@ == status_of(dry_run),
{
    if dry_run {
        "planned"
    } else {
        "applied"
    }
}

/// The content of a [`Writing`].
#[verifier::ext_equal]
pub struct WritingModel {
    pub steps: Seq<WriteStepModel>,
    pub destination: Option<Seq<char>>,
    pub ending: Ending,
}

/// What comes of a floorplan: what is done to the database, where it is written, and how the run
/// ends if all of that succeeds.
#[derive(Debug)]
pub struct Writing {
    pub steps: Vec<WriteStep>,
    /// Nothing is written where there is none.
    pub destination: Option<String>,
    pub ending: Ending,
}

impl View for Writing {
    type V = WritingModel;

    open spec fn view(&self) -> WritingModel {
        WritingModel {
            steps: step_models(self.steps@),
            destination: match self.destination {
                Some(d) => Some(d@),
                None => None,
            },
            ending: self.ending,
        }
    }
}

/// What comes of a floorplan, of a refused one where there is no plan. A refused plan and a dry
/// run leave the database alone.
pub open spec fn writing_of(
    planned: Option<PlanModel>,
    split: Option<Seq<RowModel>>,
    set_die: bool,
    dry_run: bool,
    odb: Seq<char>,
    out_odb: Option<Seq<char>>,
) -> WritingModel {
    match planned {
        None => WritingModel { steps: Seq::empty(), destination: None, ending: Ending::Refused },
        Some(p) => WritingModel {
            steps: if dry_run {
                Seq::empty()
            } else {
                steps_of(p, split, set_die)
            },
            destination: destination_of(dry_run, odb, out_odb),
            ending: ending_of(dry_run, false),
        },
    }
}

/// What comes of a floorplan.
pub fn conclude(
    planned: &Result<Plan, Refusal>,
    split: &Option<Vec<Row>>,
    set_die: bool,
    dry_run: bool,
    odb: &str,
    out_odb: &Option<String>,
) -> (r: Writing)
    ensures
        r@ == writing_of(
            match *planned {
                Ok(p) => Some(p@),
                Err(_) => None,
            },
            match *split {
                Some(rows) => Some(row_models(rows@)),
                None => None,
            },
            set_die,
            dry_run,
            odb@,
            match *out_odb {
                Some(o) => Some(o@),
                None => None,
            },
        ),
{
    match planned {
        Err(_) => {
            let r = Writing { steps: Vec::new(), destination: None, ending: Ending::Refused };
            assert(r@.steps =~= Seq::<WriteStepModel>::empty());
            r
        },
        Ok(p) => {
            if dry_run {
                let r = Writing {
                    steps: Vec::new(),
                    destination: None,
                    ending: run_ending(dry_run, false),
                };
                assert(r@.steps =~= Seq::<WriteStepModel>::empty());
                r
            } else {
                Writing {
                    steps: write_steps(p, split, set_die),
                    destination: destination(dry_run, odb, out_odb),
                    ending: run_ending(dry_run, false),
                }
            }
        },
    }
}

/// A refused plan writes nothing at all, and neither does a dry run: the database stays as it was,
/// and no file is written.
pub proof fn law_a_refused_plan_and_a_dry_run_write_nothing(
    f: Floor,
    planned: Option<PlanModel>,
    split: Option<Seq<RowModel>>,
    set_die: bool,
    dry_run: bool,
    odb: Seq<char>,
    out_odb: Option<Seq<char>>,
)
    ensures
        ({
            let w = writing_of(planned, split, set_die, dry_run, odb, out_odb);
            &&& planned is None || dry_run ==> after_steps(f, w.steps) == f && w.destination is None
            &&& planned is Some && !dry_run ==> w.destination is Some && w.steps.len() > 0
        }),
{
}

/// A dry run reports the same figures as the run that writes: only the status and the database
/// that was written are others.
pub proof fn law_a_dry_run_reports_the_same_figures(
    p: PlanModel,
    dbu: int,
    um: spec_fn(int) -> Seq<char>,
    odb: Seq<char>,
    out_odb: Option<Seq<char>>,
)
    ensures
        report_members(p, dbu, um, status_of(true), destination_of(true, odb, out_odb))
            == report_members(
            p,
            dbu,
            um,
            status_of(false),
            destination_of(false, odb, out_odb),
        ).insert("status"@, Json::Text("planned"@)).insert("odb_written"@, Json::Null),
        report_values(p, dbu, um, status_of(true), destination_of(true, odb, out_odb))
            == report_values(
            p,
            dbu,
            um,
            status_of(false),
            destination_of(false, odb, out_odb),
        ).update(1, quoted("planned"@)).update(11, "null"@),
{
    let wet = destination_of(false, odb, out_odb);
    let dry = report_members(p, dbu, um, status_of(true), None);
    let full = report_members(p, dbu, um, status_of(false), wet).insert(
        "status"@,
        Json::Text("planned"@),
    ).insert("odb_written"@, Json::Null);
    lemma_report_names();
    assert(report_names()[1] == "status"@ && report_names()[2] == "dbu_per_micron"@);
    assert(report_names()[3] == "die_area"@ && report_names()[4] == "core_area_requested"@);
    assert(report_names()[5] == "core_area_snapped"@ && report_names()[6] == "core_area"@);
    assert(report_names()[7] == "core_was_snapped"@ && report_names()[8] == "rows"@);
    assert(report_names()[9] == "sites_per_row"@ && report_names()[10] == "rows_per_site"@);
    assert(report_names()[11] == "odb_written"@);
    assert(dry =~= full);
}

/// What is written of a plan, step by step: the die where it is to be set, the old rows gone, every
/// new row in its order, the core area, and the cuts last of all.
pub proof fn law_the_rows_are_cut_last(
    p: PlanModel,
    split: Option<Seq<RowModel>>,
    set_die: bool,
    i: int,
)
    ensures
        ({
            let steps = steps_of(p, split, set_die);
            let rows = match split {
                Some(rows) => rows,
                None => p.rows,
            };
            let d: int = if set_die {
                1
            } else {
                0
            };
            &&& steps.len() == d + rows.len() + 3
            &&& set_die ==> steps[0] == WriteStepModel::SetDie(p.die)
            &&& steps[d] == WriteStepModel::ClearRows
            &&& 0 <= i < rows.len() ==> steps[d + 1 + i] == WriteStepModel::CreateRow(rows[i])
            &&& steps[steps.len() - 2] == WriteStepModel::SetCore(p.core_final)
            &&& steps[steps.len() - 1] == WriteStepModel::CutRows
        }),
{
}

/// How many of the groups are voltage or power domains whose region has a name and a boundary.
pub open spec fn domain_count(groups: Seq<GroupModel>) -> nat
    decreases groups.len(),
{
    if groups.len() == 0 {
        0
    } else {
        let g = groups.last();
        domain_count(groups.drop_last()) + (if (g.group_type == "VOLTAGE_DOMAIN"@ || g.group_type
            == "POWER_DOMAIN"@) && g.region.len() > 0 && g.bounds.len() > 0 {
            1nat
        } else {
            0nat
        })
    }
}

/// A group is a domain exactly where it is of either type and its region has a name and a boundary.
/// It keeps its name and its place among the domains, and its box is that of its boundaries.
pub proof fn law_a_domain_is_a_group_with_a_region(groups: Seq<GroupModel>, i: int)
    ensures
        domains_of(groups).len() == domain_count(groups),
        0 <= i < groups.len() && (groups[i].group_type == "VOLTAGE_DOMAIN"@ || groups[i].group_type
            == "POWER_DOMAIN"@) && groups[i].region.len() > 0 && groups[i].bounds.len() > 0 ==> {
            let k = domain_count(groups.take(i)) as int;
            &&& k < domains_of(groups).len()
            &&& domains_of(groups)[k].name == groups[i].name
            &&& domains_of(groups)[k].bbox == bounding_box(groups[i].bounds)
        },
    decreases groups.len(),
{
    if groups.len() > 0 {
        let rest = groups.drop_last();
        law_a_domain_is_a_group_with_a_region(rest, i);
        if 0 <= i < rest.len() {
            assert(rest.take(i) =~= groups.take(i));
            assert(rest[i] == groups[i]);
        } else if i == rest.len() {
            assert(groups.take(i) =~= rest);
        }
    }
}

/// A row is as high as the last site of its name, and has no height where no site bears it. A site
/// is a pad's exactly where a site of its name has the class of pads.
pub proof fn law_rows_take_their_height_from_the_last_of_a_name(
    sites: Seq<SiteModel>,
    classes: Seq<Seq<char>>,
    name: Seq<char>,
    k: int,
)
    requires
        sites.len() == classes.len(),
    ensures
        0 <= k < sites.len() && sites[k].name == name && (forall|j: int|
            k < j < sites.len() ==> (#[trigger] sites[j]).name != name) ==> site_heights(
            sites,
        )(name) == sites[k].height,
        (forall|j: int| 0 <= j < sites.len() ==> (#[trigger] sites[j]).name != name)
            ==> site_heights(sites)(name) == 0,
        listed_pads(pads_of(sites, classes))(name) <==> exists|j: int|
            0 <= j < sites.len() && (#[trigger] sites[j]).name == name && classes[j] == "PAD"@,
{
    lemma_last_height(sites, name, k);
    lemma_pads(sites, classes, name);
}

proof fn lemma_last_height(sites: Seq<SiteModel>, name: Seq<char>, k: int)
    ensures
        0 <= k < sites.len() && sites[k].name == name && (forall|j: int|
            k < j < sites.len() ==> (#[trigger] sites[j]).name != name) ==> last_height(sites, name)
            == sites[k].height,
        (forall|j: int| 0 <= j < sites.len() ==> (#[trigger] sites[j]).name != name)
            ==> last_height(sites, name) == 0,
    decreases sites.len(),
{
    if sites.len() > 0 {
        let rest = sites.drop_last();
        lemma_last_height(rest, name, k);
        assert(sites[sites.len() - 1] == sites.last());
        assert forall|j: int| 0 <= j < rest.len() implies rest[j] == #[trigger] sites[j] by {}
    }
}

proof fn lemma_pads(sites: Seq<SiteModel>, classes: Seq<Seq<char>>, name: Seq<char>)
    ensures
        pads_of(sites, classes).contains(name) <==> exists|j: int|
            0 <= j < sites.len() && (#[trigger] sites[j]).name == name && classes[j] == "PAD"@,
    decreases sites.len(),
{
    if sites.len() > 0 {
        let rest = sites.drop_last();
        let n = sites.len() - 1;
        let before = pads_of(rest, classes);
        let all = pads_of(sites, classes);
        lemma_pads(rest, classes, name);
        assert(sites[n] == sites.last());
        if before.contains(name) {
            let q = choose|q: int| 0 <= q < before.len() && before[q] == name;
            assert(all[q] == name);
            let j = choose|j: int|
                0 <= j < rest.len() && (#[trigger] rest[j]).name == name && classes[j] == "PAD"@;
            assert(sites[j].name == name);
        }
        if all.contains(name) && !before.contains(name) {
            let q = choose|q: int| 0 <= q < all.len() && all[q] == name;
            if q < before.len() {
                assert(before[q] == name);
            }
        }
        if sites.last().name == name && classes[n] == "PAD"@ {
            assert(all[before.len() as int] == name);
        }
        if exists|j: int|
            0 <= j < sites.len() && (#[trigger] sites[j]).name == name && classes[j] == "PAD"@ {
            let j = choose|j: int|
                0 <= j < sites.len() && (#[trigger] sites[j]).name == name && classes[j] == "PAD"@;
            if j < n {
                assert(rest[j].name == name);
            }
        }
    }
}

/// The rows of a plan are split in the snapped core, with the gap asked for, as soon as there is a
/// domain, and are not split where there is none.
pub proof fn law_domains_split_the_rows_of_the_plan(
    p: PlanModel,
    sites: Seq<SiteModel>,
    pads: Seq<Seq<char>>,
    domains: Seq<DomainModel>,
    gap: Option<i32>,
)
    ensures
        split_of(p, sites, pads, domains, gap) is None <==> domains.len() == 0,
        split_of(p, sites, pads, domains, gap) matches Some(rows) ==> rows == split_by_all(
            p.rows,
            domains,
            p.core_snapped,
            gap,
            site_heights(sites),
            listed_pads(pads),
        ),
{
}

/// A run writes the database that it was told to, else the one that it read, and a dry run neither.
/// Its ending says which.
pub proof fn law_a_run_writes_where_it_was_told(
    p: PlanModel,
    split: Option<Seq<RowModel>>,
    set_die: bool,
    odb: Seq<char>,
    out_odb: Option<Seq<char>>,
)
    ensures
        ({
            let wet = writing_of(Some(p), split, set_die, false, odb, out_odb);
            let dry = writing_of(Some(p), split, set_die, true, odb, out_odb);
            let none = writing_of(None, split, set_die, false, odb, out_odb);
            &&& out_odb is Some ==> wet.destination == out_odb
            &&& out_odb is None ==> wet.destination == Some(odb)
            &&& wet.steps == steps_of(p, split, set_die)
            &&& wet.ending == Ending::Applied
            &&& dry.ending == Ending::Planned
            &&& none.ending == Ending::Refused
            &&& destination_of(false, odb, out_odb) == wet.destination
            &&& destination_of(true, odb, out_odb) is None
            &&& status_of(false) == "applied"@
            &&& status_of(true) == "planned"@
        }),
{
}

/// A step that fails says what it could not do, and a row by its name.
pub proof fn law_a_failed_step_says_what_it_was(s: WriteStepModel)
    ensures
        s is SetDie ==> s.failure() == "cannot set the die area"@,
        s is ClearRows ==> s.failure() == "cannot clear the existing rows"@,
        s matches WriteStepModel::CreateRow(r) ==> s.failure() == "cannot create "@ + r.name,
        s is SetCore ==> s.failure() == "cannot set the core area"@,
        s is CutRows ==> s.failure() == "cannot cut the rows around the blockages"@,
{
}

/// Groups, steps and what comes of a floorplan are known by what they store.
pub proof fn law_what_is_written_is_what_is_stored(g: Group, s: WriteStep, w: Writing, i: int)
    ensures
        g@.name == g.name@ && g@.group_type == g.group_type@ && g@.region == g.region@,
        g@.bounds.len() == g.bounds@.len(),
        0 <= i < g.bounds@.len() ==> g@.bounds[i] == g.bounds@[i]@,
        s matches WriteStep::SetDie(r) ==> s@ == WriteStepModel::SetDie(r@),
        s is ClearRows ==> s@ is ClearRows,
        s matches WriteStep::CreateRow(r) ==> s@ == WriteStepModel::CreateRow(r@),
        s matches WriteStep::SetCore(r) ==> s@ == WriteStepModel::SetCore(r@),
        s is CutRows ==> s@ is CutRows,
        w@.ending == w.ending,
        w@.steps.len() == w.steps@.len(),
        0 <= i < w.steps@.len() ==> w@.steps[i] == w.steps@[i]@,
        w.destination is None ==> w@.destination is None,
        w.destination matches Some(d) ==> w@.destination == Some(d@),
{
}

} // verus!
