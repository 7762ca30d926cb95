//! What a floorplan is made of, and the mathematical content of each type.

use crate::geometry::{Area, Rect};
use crate::text::{is_upper_of, joined, push_signed, signed_decimal, upper, upper_text};
use vstd::prelude::*;

verus! {

/// The content of an [`OrientedSite`].
#[verifier::ext_equal]
pub struct OrientedSiteModel {
    pub site: Seq<char>,
    pub orient: Seq<char>,
    pub width: int,
    pub height: int,
}

/// One entry of a hybrid site's row pattern: which site, in which orientation, and how big it
/// is. Dimensions are carried here so the planner never has to look a site up.
#[derive(Debug, Clone, PartialEq, Eq)]
pub struct OrientedSite {
    pub site: String,
    pub orient: String,
    pub width: i32,
    pub height: i32,
}

impl View for OrientedSite {
    type V = OrientedSiteModel;

    open spec fn view(&self) -> OrientedSiteModel {
        OrientedSiteModel {
            site: self.site@,
            orient: self.orient@,
            width: self.width as int,
            height: self.height as int,
        }
    }
}

/// The contents of a row pattern.
pub open spec fn pattern_models(pattern: Seq<OrientedSite>) -> Seq<OrientedSiteModel> {
    pattern.map_values(|e: OrientedSite| e@)
}

/// The content of a [`Site`].
#[verifier::ext_equal]
pub struct SiteModel {
    pub name: Seq<char>,
    pub width: int,
    pub height: int,
    pub row_pattern: Seq<OrientedSiteModel>,
}

impl SiteModel {
    /// A site with a row pattern.
    pub open spec fn is_hybrid(self) -> bool {
        self.row_pattern.len() > 0
    }

    /// A site that nothing can be tiled with.
    pub open spec fn is_degenerate(self) -> bool {
        self.width <= 0 || self.height <= 0
    }
}

/// A site's footprint, in DBU.
///
/// A hybrid site carries a `row_pattern`: a repeating sequence of other sites that tiles the core
/// in its place. Its own `height` is the height of the whole pattern, which is what makes the
/// core snap work unchanged for both kinds.
#[derive(Debug, Clone, PartialEq, Eq)]
pub struct Site {
    pub name: String,
    pub width: i32,
    pub height: i32,
    /// Empty for an ordinary single-height site.
    pub row_pattern: Vec<OrientedSite>,
}

impl View for Site {
    type V = SiteModel;

    open spec fn view(&self) -> SiteModel {
        SiteModel {
            name: self.name@,
            width: self.width as int,
            height: self.height as int,
            row_pattern: pattern_models(self.row_pattern@),
        }
    }
}

/// The contents of a list of sites.
pub open spec fn site_models(sites: Seq<Site>) -> Seq<SiteModel> {
    sites.map_values(|s: Site| s@)
}

/// The contents of a list of borrowed sites.
pub open spec fn site_ref_models(sites: Seq<&Site>) -> Seq<SiteModel> {
    sites.map_values(|s: &Site| s@)
}

impl Site {
    /// An ordinary single-height site, named by what `name` converts to.
    pub fn plain<N: Into<String>>(name: N, width: i32, height: i32) -> (r: Site)
        ensures
            call_ensures(<N as Into<String>>::into, (name,), r.name),
            r.width == width,
            r.height == height,
            r.row_pattern@.len() == 0,
    {
        Site { name: name.into(), width, height, row_pattern: Vec::new() }
    }

    /// Does this site carry a row pattern?
    pub fn is_hybrid(&self) -> (r: bool)
        ensures
            r == self@.is_hybrid(),
    {
        self.row_pattern.len() != 0
    }
}

/// How many rows to keep.
#[derive(Debug, Clone, Copy, PartialEq, Eq, Structural)]
pub enum RowParity {
    /// Keep every row.
    Any,
    Even,
    Odd,
}

impl Default for RowParity {
    fn default() -> (r: RowParity)
        ensures
            r == RowParity::Any,
    {
        RowParity::Any
    }
}

/// The parity that a word names, in any mixture of cases.
pub open spec fn parity_named(s: Seq<char>) -> Option<RowParity> {
    if upper_text(s) == "NONE"@ {
        Some(RowParity::Any)
    } else if upper_text(s) == "EVEN"@ {
        Some(RowParity::Even)
    } else if upper_text(s) == "ODD"@ {
        Some(RowParity::Odd)
    } else {
        None
    }
}

impl RowParity {
    /// Reads `NONE`, `EVEN` or `ODD`, in any mixture of cases.
    pub fn parse(s: &str) -> (r: Option<RowParity>)
        ensures
            r == parity_named(s@),
    {
        if is_upper_of(s, "NONE") {
            Some(RowParity::Any)
        } else if is_upper_of(s, "EVEN") {
            Some(RowParity::Even)
        } else if is_upper_of(s, "ODD") {
            Some(RowParity::Odd)
        } else {
            None
        }
    }
}

/// The content of a [`Row`].
#[verifier::ext_equal]
pub struct RowModel {
    pub name: Seq<char>,
    pub site: Seq<char>,
    pub x: int,
    pub y: int,
    pub orient: Seq<char>,
    pub num_sites: int,
    pub spacing: int,
}

/// One row, as it will be created.
#[derive(Debug, Clone, PartialEq, Eq)]
pub struct Row {
    pub name: String,
    pub site: String,
    pub x: i32,
    pub y: i32,
    /// `R0`/`MX` from the alternation, or whatever the row pattern names.
    pub orient: String,
    pub num_sites: i32,
    pub spacing: i32,
}

impl View for Row {
    type V = RowModel;

    open spec fn view(&self) -> RowModel {
        RowModel {
            name: self.name@,
            site: self.site@,
            x: self.x as int,
            y: self.y as int,
            orient: self.orient@,
            num_sites: self.num_sites as int,
            spacing: self.spacing as int,
        }
    }
}

/// The contents of a list of rows.
pub open spec fn row_models(rows: Seq<Row>) -> Seq<RowModel> {
    rows.map_values(|r: Row| r@)
}

impl Row {
    /// The same row again.
    pub fn duplicate(&self) -> (r: Row)
        ensures
            r@ == self@,
    {
        Row {
            name: self.name.clone(),
            site: self.site.clone(),
            x: self.x,
            y: self.y,
            orient: self.orient.clone(),
            num_sites: self.num_sites,
            spacing: self.spacing,
        }
    }
}

/// The content of a [`Plan`].
#[verifier::ext_equal]
pub struct PlanModel {
    pub die: Area,
    pub core_requested: Area,
    pub core_snapped: Area,
    pub rows: Seq<RowModel>,
    pub core_final: Area,
    pub rows_per_site: Seq<(Seq<char>, int)>,
    pub pattern_rows: Option<(Seq<char>, int)>,
}

/// What the planner decided, before anything touches the database.
#[derive(Debug, Clone, PartialEq, Eq)]
pub struct Plan {
    pub die: Rect,
    /// The core as asked for.
    pub core_requested: Rect,
    /// The core with its lower left snapped up to the site grid.
    pub core_snapped: Rect,
    pub rows: Vec<Row>,
    /// What the rows actually cover: this is what the core area becomes.
    pub core_final: Rect,
    /// Rows created per site, in name order: `(site name, count)`.
    pub rows_per_site: Vec<(String, i32)>,
    /// Set only for a hybrid floorplan: `(base site name, rows built from its pattern)`. Its
    /// presence is what distinguishes the two constructions, and the two report differently.
    pub pattern_rows: Option<(String, i32)>,
}

/// The content of one `(site name, count)` pair.
pub open spec fn site_count(c: (String, i32)) -> (Seq<char>, int) {
    (c.0@, c.1 as int)
}

/// The contents of a list of `(site name, count)` pairs.
pub open spec fn site_counts(counts: Seq<(String, i32)>) -> Seq<(Seq<char>, int)> {
    counts.map_values(|c: (String, i32)| site_count(c))
}

impl View for Plan {
    type V = PlanModel;

    open spec fn view(&self) -> PlanModel {
        PlanModel {
            die: self.die@,
            core_requested: self.core_requested@,
            core_snapped: self.core_snapped@,
            rows: row_models(self.rows@),
            core_final: self.core_final@,
            rows_per_site: site_counts(self.rows_per_site@),
            pattern_rows: match self.pattern_rows {
                Some(c) => Some(site_count(c)),
                None => None,
            },
        }
    }
}

impl PlanModel {
    /// The snap moved the core's lower left.
    pub open spec fn core_was_snapped(self) -> bool {
        self.core_snapped.x_min != self.core_requested.x_min || self.core_snapped.y_min
            != self.core_requested.y_min
    }
}

impl Plan {
    /// Did the site-grid snap move the core's lower left?
    pub fn core_was_snapped(&self) -> (r: bool)
        ensures
            r == self@.core_was_snapped(),
    {
        self.core_snapped.x_min != self.core_requested.x_min || self.core_snapped.y_min
            != self.core_requested.y_min
    }
}

/// The content of an [`Instance`].
#[verifier::ext_equal]
pub struct InstanceModel {
    pub name: Seq<char>,
    pub width: int,
    pub height: int,
    pub is_pad: bool,
    pub is_cover: bool,
    pub symmetry_r90: bool,
}

/// One placed instance, reduced to what the floorplan cares about: how big its master is, and
/// the master flags that change whether "big" is a problem.
#[derive(Debug, Clone, PartialEq, Eq)]
pub struct Instance {
    pub name: String,
    /// Master width and height, in DBU.
    pub width: i32,
    pub height: i32,
    /// Pads and covers sit outside the core by definition and are exempt from the fit check.
    pub is_pad: bool,
    pub is_cover: bool,
    /// A master free to rotate 90 degrees only has to fit the core's larger dimension.
    pub symmetry_r90: bool,
}

impl View for Instance {
    type V = InstanceModel;

    open spec fn view(&self) -> InstanceModel {
        InstanceModel {
            name: self.name@,
            width: self.width as int,
            height: self.height as int,
            is_pad: self.is_pad,
            is_cover: self.is_cover,
            symmetry_r90: self.symmetry_r90,
        }
    }
}

/// The contents of a list of instances.
pub open spec fn instance_models(instances: Seq<Instance>) -> Seq<InstanceModel> {
    instances.map_values(|i: Instance| i@)
}

/// The contents of a list of names.
pub open spec fn texts(names: Seq<String>) -> Seq<Seq<char>> {
    names.map_values(|n: String| n@)
}

/// The content of a [`PlanError`].
#[verifier::ext_equal]
pub enum PlanErrorModel {
    InstanceDoesNotFit { name: Seq<char>, width: int, height: int, core: Area },
    EmptyDieArea,
    CoreNotInDie,
    DegenerateSite(Seq<char>),
    SiteHeightNotMultiple { site: Seq<char>, base: Seq<char> },
    NoRows,
    ParityWithHybridRows,
    IncompatibleSite { site: Seq<char>, base: Seq<char> },
}

/// What a plan cannot be made from.
#[derive(Debug, Clone, PartialEq, Eq)]
pub enum PlanError {
    /// A master is larger than the core area (IFP-0002). Dimensions are DBU; the caller converts
    /// to microns, since only it knows the database's scale.
    InstanceDoesNotFit { name: String, width: i32, height: i32, core: Rect },
    /// The die area has no extent (IFP-63).
    EmptyDieArea,
    /// The die does not contain the core (IFP-55).
    CoreNotInDie,
    /// A site has zero width or height: nothing can be tiled with it.
    DegenerateSite(String),
    /// An additional site's height is not a multiple of the base site's (IFP-54).
    SiteHeightNotMultiple { site: String, base: String },
    /// No site produced a single row (IFP-65).
    NoRows,
    /// Row parity was asked for on a hybrid floorplan (IFP-51).
    ParityWithHybridRows,
    /// A site's row pattern does not occur in the base site's (IFP-48).
    IncompatibleSite { site: String, base: String },
}

impl View for PlanError {
    type V = PlanErrorModel;

    open spec fn view(&self) -> PlanErrorModel {
        match *self {
            PlanError::InstanceDoesNotFit { name, width, height, core } => {
                PlanErrorModel::InstanceDoesNotFit {
                    name: name@,
                    width: width as int,
                    height: height as int,
                    core: core@,
                }
            },
            PlanError::EmptyDieArea => PlanErrorModel::EmptyDieArea,
            PlanError::CoreNotInDie => PlanErrorModel::CoreNotInDie,
            PlanError::DegenerateSite(site) => PlanErrorModel::DegenerateSite(site@),
            PlanError::SiteHeightNotMultiple { site, base } => {
                PlanErrorModel::SiteHeightNotMultiple { site: site@, base: base@ }
            },
            PlanError::NoRows => PlanErrorModel::NoRows,
            PlanError::ParityWithHybridRows => PlanErrorModel::ParityWithHybridRows,
            PlanError::IncompatibleSite { site, base } => {
                PlanErrorModel::IncompatibleSite { site: site@, base: base@ }
            },
        }
    }
}

impl PlanErrorModel {
    /// The sentence that explains the refusal.
    pub open spec fn message(self) -> Seq<char> {
        match self {
            PlanErrorModel::EmptyDieArea => "die area is empty; cannot build rows"@,
            PlanErrorModel::CoreNotInDie => "die area must contain the core area"@,
            PlanErrorModel::DegenerateSite(site) => {
                "site "@ + site + " has zero width or height"@
            },
            PlanErrorModel::SiteHeightNotMultiple { site, base } => {
                "site "@ + site + " height is not a multiple of site "@ + base + " height"@
            },
            PlanErrorModel::NoRows => "no rows created in the core area"@,
            PlanErrorModel::ParityWithHybridRows => {
                "constraining row parity is not supported for hybrid rows"@
            },
            PlanErrorModel::IncompatibleSite { site, base } => {
                "site "@ + site + " is incompatible with site "@ + base
            },
            PlanErrorModel::InstanceDoesNotFit { name, width, height, core } => {
                name + " ("@ + signed_decimal(width) + ", "@ + signed_decimal(height)
                    + " DBU) does not fit in the core area: ("@ + signed_decimal(core.x_min)
                    + ", "@ + signed_decimal(core.y_min) + ") - ("@ + signed_decimal(core.x_max)
                    + ", "@ + signed_decimal(core.y_max) + ")"@
            },
        }
    }
}

impl PlanError {
    /// The sentence that explains the refusal.
    pub fn message(&self) -> (r: String)
        ensures
            r@ == self@.message(),
    {
        match self {
            PlanError::EmptyDieArea => String::from("die area is empty; cannot build rows"),
            PlanError::CoreNotInDie => String::from("die area must contain the core area"),
            PlanError::DegenerateSite(site) => {
                let mut out = joined("site ", site.as_str());
                out.append(" has zero width or height");
                out
            },
            PlanError::SiteHeightNotMultiple { site, base } => {
                let mut out = joined("site ", site.as_str());
                out.append(" height is not a multiple of site ");
                out.append(base.as_str());
                out.append(" height");
                out
            },
            PlanError::NoRows => String::from("no rows created in the core area"),
            PlanError::ParityWithHybridRows => {
                String::from("constraining row parity is not supported for hybrid rows")
            },
            PlanError::IncompatibleSite { site, base } => {
                let mut out = joined("site ", site.as_str());
                out.append(" is incompatible with site ");
                out.append(base.as_str());
                out
            },
            PlanError::InstanceDoesNotFit { name, width, height, core } => {
                let mut out = joined(name.as_str(), " (");
                push_signed(&mut out, *width as i64);
                out.append(", ");
                push_signed(&mut out, *height as i64);
                out.append(" DBU) does not fit in the core area: (");
                push_signed(&mut out, core.x_min as i64);
                out.append(", ");
                push_signed(&mut out, core.y_min as i64);
                out.append(") - (");
                push_signed(&mut out, core.x_max as i64);
                out.append(", ");
                push_signed(&mut out, core.y_max as i64);
                out.append(")");
                out
            },
        }
    }
}

/// The content of what a planner returns.
pub open spec fn outcome(r: Result<Plan, PlanError>) -> Result<PlanModel, PlanErrorModel> {
    match r {
        Ok(p) => Ok(p@),
        Err(e) => Err(e@),
    }
}

/// The content of a [`Domain`].
#[verifier::ext_equal]
pub struct DomainModel {
    pub name: Seq<char>,
    pub bbox: Area,
}

/// A voltage or power domain: its group name, and the bounding box of its region's boundaries.
#[derive(Debug, Clone, PartialEq, Eq)]
pub struct Domain {
    pub name: String,
    pub bbox: Rect,
}

impl View for Domain {
    type V = DomainModel;

    open spec fn view(&self) -> DomainModel {
        DomainModel { name: self.name@, bbox: self.bbox@ }
    }
}

/// The contents of a list of domains.
pub open spec fn domain_models(domains: Seq<Domain>) -> Seq<DomainModel> {
    domains.map_values(|d: Domain| d@)
}

/// A letter in either case: `c` is the capital of code `capital` or its small letter.
pub open spec fn is_letter(c: char, capital: char) -> bool {
    c == capital || c as int == capital as int + 32
}

proof fn lemma_is_letter(c: char, capital: char)
    requires
        'A' <= capital <= 'Z',
    ensures
        is_letter(c, capital) <==> upper(c) == capital,
{
}

/// A parity is read letter by letter, in either case each: `none` keeps every row, `even` and `odd`
/// say which counts are kept, and no other word names a parity.
pub proof fn law_a_parity_is_read_in_any_case(s: Seq<char>)
    ensures
        parity_named(s) == Some(RowParity::Any) <==> s.len() == 4 && is_letter(s[0], 'N')
            && is_letter(s[1], 'O') && is_letter(s[2], 'N') && is_letter(s[3], 'E'),
        parity_named(s) == Some(RowParity::Even) <==> s.len() == 4 && is_letter(s[0], 'E')
            && is_letter(s[1], 'V') && is_letter(s[2], 'E') && is_letter(s[3], 'N'),
        parity_named(s) == Some(RowParity::Odd) <==> s.len() == 3 && is_letter(s[0], 'O')
            && is_letter(s[1], 'D') && is_letter(s[2], 'D'),
{
    reveal_strlit("NONE");
    reveal_strlit("EVEN");
    reveal_strlit("ODD");
    let none = "NONE"@;
    let even = "EVEN"@;
    let odd = "ODD"@;
    assert(none.len() == 4 && none[0] == 'N' && none[1] == 'O' && none[2] == 'N' && none[3] == 'E');
    assert(even.len() == 4 && even[0] == 'E' && even[1] == 'V' && even[2] == 'E' && even[3] == 'N');
    assert(odd.len() == 3 && odd[0] == 'O' && odd[1] == 'D' && odd[2] == 'D');
    let t = upper_text(s);
    if s.len() == 4 {
        lemma_is_letter(s[0], 'N');
        lemma_is_letter(s[1], 'O');
        lemma_is_letter(s[2], 'N');
        lemma_is_letter(s[3], 'E');
        lemma_is_letter(s[0], 'E');
        lemma_is_letter(s[1], 'V');
        lemma_is_letter(s[2], 'E');
        lemma_is_letter(s[3], 'N');
        assert(t =~= none <==> t[0] == none[0] && t[1] == none[1] && t[2] == none[2] && t[3]
            == none[3]);
        assert(t =~= even <==> t[0] == even[0] && t[1] == even[1] && t[2] == even[2] && t[3]
            == even[3]);
    }
    if s.len() == 3 {
        lemma_is_letter(s[0], 'O');
        lemma_is_letter(s[1], 'D');
        lemma_is_letter(s[2], 'D');
        assert(t =~= odd <==> t[0] == odd[0] && t[1] == odd[1] && t[2] == odd[2]);
    }
}

/// A refusal that names sites or an instance names them in its sentence: the site at fault before
/// the base, and the instance with its width and height before the core's lower left and upper
/// right.
pub proof fn law_a_refusal_names_what_is_at_fault(
    site: Seq<char>,
    base: Seq<char>,
    w: int,
    h: int,
    core: Area,
)
    ensures
        PlanErrorModel::DegenerateSite(site).message() == "site "@ + site
            + " has zero width or height"@,
        (PlanErrorModel::SiteHeightNotMultiple { site, base }).message() == "site "@ + site
            + " height is not a multiple of site "@ + base + " height"@,
        (PlanErrorModel::IncompatibleSite { site, base }).message() == "site "@ + site
            + " is incompatible with site "@ + base,
        (PlanErrorModel::InstanceDoesNotFit { name: site, width: w, height: h, core }).message()
            == site + " ("@ + signed_decimal(w) + ", "@ + signed_decimal(h)
            + " DBU) does not fit in the core area: ("@ + signed_decimal(core.x_min) + ", "@
            + signed_decimal(core.y_min) + ") - ("@ + signed_decimal(core.x_max) + ", "@
            + signed_decimal(core.y_max) + ")"@,
{
}

/// The core counts as snapped as soon as its lower left has moved on either axis.
pub proof fn law_a_snapped_core_has_moved(p: PlanModel)
    ensures
        !p.core_was_snapped() <==> (p.core_snapped.x_min, p.core_snapped.y_min) == (
            p.core_requested.x_min,
            p.core_requested.y_min,
        ),
{
}

/// Sites, rows, instances, domains and plans are known by what they store, field by field, and
/// lists of them item by item.
pub proof fn law_what_is_stored_is_what_is_known(
    e: OrientedSite,
    s: Site,
    r: Row,
    n: Instance,
    d: Domain,
    p: Plan,
    i: int,
)
    ensures
        e@.site == e.site@ && e@.orient == e.orient@ && e@.width == e.width && e@.height
            == e.height,
        s@.name == s.name@ && s@.width == s.width && s@.height == s.height,
        s@.row_pattern.len() == s.row_pattern@.len(),
        0 <= i < s.row_pattern@.len() ==> s@.row_pattern[i] == s.row_pattern@[i]@,
        r@.name == r.name@ && r@.site == r.site@ && r@.orient == r.orient@,
        r@.x == r.x && r@.y == r.y && r@.num_sites == r.num_sites && r@.spacing == r.spacing,
        n@.name == n.name@ && n@.width == n.width && n@.height == n.height,
        n@.is_pad == n.is_pad && n@.is_cover == n.is_cover && n@.symmetry_r90 == n.symmetry_r90,
        d@.name == d.name@ && d@.bbox == d.bbox@,
        p@.die == p.die@ && p@.core_requested == p.core_requested@,
        p@.core_snapped == p.core_snapped@ && p@.core_final == p.core_final@,
        p@.rows.len() == p.rows@.len() && p@.rows_per_site.len() == p.rows_per_site@.len(),
        0 <= i < p.rows@.len() ==> p@.rows[i] == p.rows@[i]@,
        0 <= i < p.rows_per_site@.len() ==> p@.rows_per_site[i].0 == p.rows_per_site@[i].0@
            && p@.rows_per_site[i].1 == p.rows_per_site@[i].1,
        p.pattern_rows is None <==> p@.pattern_rows is None,
        p.pattern_rows matches Some(c) ==> p@.pattern_rows == Some((c.0@, c.1 as int)),
{
}

/// A refusal is known by its sort and by what it stores, and an outcome is a plan exactly where a
/// plan was made.
pub proof fn law_a_refusal_is_what_it_stores(e: PlanError, r: Result<Plan, PlanError>)
    ensures
        e is EmptyDieArea <==> e@ is EmptyDieArea,
        e is CoreNotInDie <==> e@ is CoreNotInDie,
        e is NoRows <==> e@ is NoRows,
        e is ParityWithHybridRows <==> e@ is ParityWithHybridRows,
        e matches PlanError::DegenerateSite(site) ==> e@ == PlanErrorModel::DegenerateSite(site@),
        e matches PlanError::SiteHeightNotMultiple { site, base } ==> e@
            == (PlanErrorModel::SiteHeightNotMultiple { site: site@, base: base@ }),
        e matches PlanError::IncompatibleSite { site, base } ==> e@
            == (PlanErrorModel::IncompatibleSite { site: site@, base: base@ }),
        e matches PlanError::InstanceDoesNotFit { name, width, height, core } ==> e@
            == (PlanErrorModel::InstanceDoesNotFit {
            name: name@,
            width: width as int,
            height: height as int,
            core: core@,
        }),
        r matches Ok(p) ==> outcome(r) == Ok::<_, PlanErrorModel>(p@),
        r matches Err(f) ==> outcome(r) == Err::<PlanModel, _>(f@),
{
}

/// The refusals that name nothing have a sentence each.
pub proof fn law_a_refusal_has_its_sentence()
    ensures
        PlanErrorModel::EmptyDieArea.message() == "die area is empty; cannot build rows"@,
        PlanErrorModel::CoreNotInDie.message() == "die area must contain the core area"@,
        PlanErrorModel::NoRows.message() == "no rows created in the core area"@,
        PlanErrorModel::ParityWithHybridRows.message()
            == "constraining row parity is not supported for hybrid rows"@,
{
}

} // verus!
