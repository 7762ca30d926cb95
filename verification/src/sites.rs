//! Which sites take part: those asked for by name, and those that the design uses beyond them.

use crate::model::{
    pattern_models, site_models, texts, OrientedSite, OrientedSiteModel, Site, SiteModel,
};
use crate::order::{first_named, lemma_first_named_stays};
use crate::text::{joined, push_signed, same_text, signed_decimal};
use vstd::prelude::*;

verus! {

/// The content of a [`SiteLookup`].
#[verifier::ext_equal]
pub struct SiteLookupModel {
    pub name: Seq<char>,
    pub width: int,
    pub height: int,
    pub row_pattern: Option<Seq<OrientedSiteModel>>,
}

/// What the database says of a site that was asked for by name.
#[derive(Debug)]
pub struct SiteLookup {
    pub name: String,
    pub width: i32,
    pub height: i32,
    /// None where the row pattern could not be read.
    pub row_pattern: Option<Vec<OrientedSite>>,
}

impl View for SiteLookup {
    type V = SiteLookupModel;

    open spec fn view(&self) -> SiteLookupModel {
        SiteLookupModel {
            name: self.name@,
            width: self.width as int,
            height: self.height as int,
            row_pattern: match self.row_pattern {
                Some(p) => Some(pattern_models(p@)),
                None => None,
            },
        }
    }
}

/// The contents of a list of lookups.
pub open spec fn lookup_models(lookups: Seq<SiteLookup>) -> Seq<SiteLookupModel> {
    lookups.map_values(|l: SiteLookup| l@)
}

/// The content of a [`SiteFault`].
#[verifier::ext_equal]
pub enum SiteFaultModel {
    NoExtent { name: Seq<char>, width: int, height: int },
    NoPattern { name: Seq<char> },
}

/// Why a named site cannot take part.
#[derive(Debug)]
pub enum SiteFault {
    /// The site is unknown or has no extent.
    NoExtent { name: String, width: i32, height: i32 },
    /// The site's row pattern could not be read.
    NoPattern { name: String },
}

impl View for SiteFault {
    type V = SiteFaultModel;

    open spec fn view(&self) -> SiteFaultModel {
        match *self {
            SiteFault::NoExtent { name, width, height } => SiteFaultModel::NoExtent {
                name: name@,
                width: width as int,
                height: height as int,
            },
            SiteFault::NoPattern { name } => SiteFaultModel::NoPattern { name: name@ },
        }
    }
}

/// The texts of `list` with `sep` between them.
pub open spec fn list_text(list: Seq<Seq<char>>, sep: Seq<char>) -> Seq<char>
    decreases list.len(),
{
    if list.len() == 0 {
        Seq::empty()
    } else if list.len() == 1 {
        list[0]
    } else {
        list_text(list.drop_last(), sep) + sep + list.last()
    }
}

fn listed(list: &[String], sep: &str) -> (r: String)
    ensures
        r@ == list_text(texts(list@), sep@),
{
    let ghost models = texts(list@);
    let mut out: String = String::new();
    let mut i: usize = 0;
    while i < list.len()
        invariant
            i <= list@.len(),
            models == texts(list@),
            out@ =~= list_text(models.take(i as int), sep@),
        decreases list.len() - i,
    {
        proof {
            let upto = models.take(i + 1);
            assert(upto.drop_last() =~= models.take(i as int));
            assert(upto.last() == list@[i as int]@);
            assert(i == 0 ==> upto[0] == list@[0]@);
        }
        if i > 0 {
            out.append(sep);
        }
        out.append(list[i].as_str());
        i = i + 1;
    }
    assert(models.take(models.len() as int) =~= models);
    out
}

impl SiteFaultModel {
    /// The sentence that explains the fault. `detail` is what the library defines, or why the
    /// pattern could not be read.
    pub open spec fn message(self, detail: Seq<char>) -> Seq<char> {
        match self {
            SiteFaultModel::NoExtent { name, width, height } => {
                "site `"@ + name + "` is unknown or has no extent ("@ + signed_decimal(width)
                    + " x "@ + signed_decimal(height) + "); the library defines: "@ + detail
            },
            SiteFaultModel::NoPattern { name } => {
                "cannot read the row pattern of `"@ + name + "`: "@ + detail
            },
        }
    }
}

impl SiteFault {
    /// The sentence that explains the fault: it names the sites that the library defines, or says
    /// why the pattern could not be read.
    pub fn message(&self, defined: &[String], error: &str) -> (r: String)
        ensures
            r@ == self@.message(
                if self@ is NoExtent {
                    list_text(texts(defined@), ", "@)
                } else {
                    error@
                },
            ),
    {
        match self {
            SiteFault::NoExtent { name, width, height } => {
                let mut out: String = joined("site `", name.as_str());
                out.append("` is unknown or has no extent (");
                push_signed(&mut out, *width as i64);
                out.append(" x ");
                push_signed(&mut out, *height as i64);
                out.append("); the library defines: ");
                out.append(listed(defined, ", ").as_str());
                out
            },
            SiteFault::NoPattern { name } => {
                let mut out: String = joined("cannot read the row pattern of `", name.as_str());
                out.append("`: ");
                out.append(error);
                out
            },
        }
    }
}

/// The sites asked for by name, in order, or the first that cannot take part.
pub open spec fn sites_of(
    lookups: Seq<SiteLookupModel>,
) -> Result<Seq<SiteModel>, SiteFaultModel>
    decreases lookups.len(),
{
    if lookups.len() == 0 {
        Ok(Seq::empty())
    } else {
        match sites_of(lookups.drop_last()) {
            Err(e) => Err(e),
            Ok(before) => {
                let l = lookups.last();
                if l.width <= 0 || l.height <= 0 {
                    Err(
                        SiteFaultModel::NoExtent {
                            name: l.name,
                            width: l.width,
                            height: l.height,
                        },
                    )
                } else {
                    match l.row_pattern {
                        None => Err(SiteFaultModel::NoPattern { name: l.name }),
                        Some(row_pattern) => Ok(
                            before.push(
                                SiteModel {
                                    name: l.name,
                                    width: l.width,
                                    height: l.height,
                                    row_pattern,
                                },
                            ),
                        ),
                    }
                }
            },
        }
    }
}

proof fn lemma_site_fault_stays(lookups: Seq<SiteLookupModel>, k: int)
    requires
        0 <= k <= lookups.len(),
        sites_of(lookups.take(k)) is Err,
    ensures
        sites_of(lookups) == sites_of(lookups.take(k)),
    decreases lookups.len() - k,
{
    if k < lookups.len() {
        assert(lookups.take(k + 1).drop_last() =~= lookups.take(k));
        lemma_site_fault_stays(lookups, k + 1);
    } else {
        assert(lookups.take(k) =~= lookups);
    }
}

fn copy_pattern(pattern: &Vec<OrientedSite>) -> (r: Vec<OrientedSite>)
    ensures
        pattern_models(r@) == pattern_models(pattern@),
{
    let mut out: Vec<OrientedSite> = Vec::new();
    let mut i: usize = 0;
    while i < pattern.len()
        invariant
            i <= pattern@.len(),
            out@.len() == i,
            forall|k: int| 0 <= k < i ==> (#[trigger] out@[k])@ == pattern@[k]@,
        decreases pattern.len() - i,
    {
        let e = &pattern[i];
        out.push(
            OrientedSite {
                site: e.site.clone(),
                orient: e.orient.clone(),
                width: e.width,
                height: e.height,
            },
        );
        i = i + 1;
    }
    assert(pattern_models(out@) =~= pattern_models(pattern@));
    out
}

/// The sites asked for by name. A name that the library does not define is an error here, rather
/// than a zero-sized site that silently tiles nothing.
pub fn named_sites(lookups: &[SiteLookup]) -> (r: Result<Vec<Site>, SiteFault>)
    ensures
        match r {
            Ok(sites) => sites_of(lookup_models(lookups@)) == Ok::<_, SiteFaultModel>(
                site_models(sites@),
            ),
            Err(e) => sites_of(lookup_models(lookups@)) == Err::<Seq<SiteModel>, _>(e@),
        },
{
    let ghost models = lookup_models(lookups@);
    let mut sites: Vec<Site> = Vec::new();
    let mut i: usize = 0;
    assert(site_models(sites@) =~= Seq::<SiteModel>::empty());
    while i < lookups.len()
        invariant
            i <= lookups@.len(),
            models == lookup_models(lookups@),
            sites_of(models.take(i as int)) == Ok::<_, SiteFaultModel>(site_models(sites@)),
        decreases lookups.len() - i,
    {
        let l: &SiteLookup = &lookups[i];
        proof {
            assert(models.take(i + 1).drop_last() =~= models.take(i as int));
            assert(models.take(i + 1).last() == l@);
        }
        if l.width <= 0 || l.height <= 0 {
            proof {
                lemma_site_fault_stays(models, i + 1);
            }
            return Err(
                SiteFault::NoExtent { name: l.name.clone(), width: l.width, height: l.height },
            );
        }
        match &l.row_pattern {
            None => {
                proof {
                    lemma_site_fault_stays(models, i + 1);
                }
                return Err(SiteFault::NoPattern { name: l.name.clone() });
            },
            Some(p) => {
                let ghost made = sites@;
                sites.push(
                    Site {
                        name: l.name.clone(),
                        width: l.width,
                        height: l.height,
                        row_pattern: copy_pattern(p),
                    },
                );
                assert(site_models(sites@) =~= site_models(made).push(sites@.last()@));
            },
        }
        i = i + 1;
    }
    assert(models.take(models.len() as int) =~= models);
    Ok(sites)
}

/// The content of a [`UsedSite`].
#[verifier::ext_equal]
pub struct UsedSiteModel {
    pub auto_placeable: bool,
    pub block: bool,
    pub site: SiteModel,
}

/// The site of a placed instance's master.
#[derive(Debug)]
pub struct UsedSite {
    /// The master is placed into rows automatically.
    pub auto_placeable: bool,
    /// The master is a block: it is placed, not tiled into rows.
    pub block: bool,
    /// The site, without a name where the master has none.
    pub site: Site,
}

impl View for UsedSite {
    type V = UsedSiteModel;

    open spec fn view(&self) -> UsedSiteModel {
        UsedSiteModel {
            auto_placeable: self.auto_placeable,
            block: self.block,
            site: self.site@,
        }
    }
}

/// The contents of a list of used sites.
pub open spec fn used_models(used: Seq<UsedSite>) -> Seq<UsedSiteModel> {
    used.map_values(|u: UsedSite| u@)
}

impl UsedSiteModel {
    /// Rows have to be built for the site: a cell is placed on it, and it can be tiled with.
    pub open spec fn is_wanted(self) -> bool {
        self.auto_placeable && !self.block && self.site.name.len() > 0
            && !self.site.is_degenerate()
    }
}

/// The sites together with those that the design uses, each name once beyond the given ones.
pub open spec fn with_used(sites: Seq<SiteModel>, used: Seq<UsedSiteModel>) -> Seq<SiteModel>
    decreases used.len(),
{
    if used.len() == 0 {
        sites
    } else {
        let before = with_used(sites, used.drop_last());
        let u = used.last();
        if u.is_wanted() && first_named(before, u.site.name) is None {
            before.push(u.site)
        } else {
            before
        }
    }
}

fn is_listed(sites: &Vec<Site>, name: &str) -> (r: bool)
    ensures
        r == (first_named(site_models(sites@), name@) is Some),
{
    let ghost models = site_models(sites@);
    let mut i: usize = 0;
    while i < sites.len()
        invariant
            i <= sites@.len(),
            models == site_models(sites@),
            first_named(models.take(i as int), name@) is None,
        decreases sites.len() - i,
    {
        proof {
            assert(models.take(i + 1).drop_last() =~= models.take(i as int));
            assert(models.take(i + 1).last() == sites@[i as int]@);
        }
        if same_text(sites[i].name.as_str(), name) {
            proof {
                lemma_first_named_stays(models, name@, i + 1);
            }
            return true;
        }
        i = i + 1;
    }
    assert(models.take(models.len() as int) =~= models);
    false
}

/// The sites together with those that the design uses beyond them.
///
/// A hybrid library can place cells on a site that nobody mentioned, and those rows still have to
/// be built. Blocks are excluded: they are placed, not tiled into rows.
pub fn add_used_sites(sites: Vec<Site>, used: &[UsedSite]) -> (r: Vec<Site>)
    ensures
        site_models(r@) == with_used(site_models(sites@), used_models(used@)),
{
    let ghost given = site_models(sites@);
    let ghost models = used_models(used@);
    let mut sites: Vec<Site> = sites;
    let mut i: usize = 0;
    while i < used.len()
        invariant
            i <= used@.len(),
            models == used_models(used@),
            site_models(sites@) == with_used(given, models.take(i as int)),
        decreases used.len() - i,
    {
        let u: &UsedSite = &used[i];
        proof {
            assert(models.take(i + 1).drop_last() =~= models.take(i as int));
            assert(models.take(i + 1).last() == u@);
        }
        let named: bool = !same_text(u.site.name.as_str(), "");
        proof {
            reveal_strlit("");
            assert(""@ =~= Seq::<char>::empty());
            assert(named == (u@.site.name.len() > 0)) by {
                if u@.site.name.len() == 0 {
                    assert(u@.site.name =~= Seq::<char>::empty());
                }
            }
        }
        if u.auto_placeable && !u.block && named && u.site.width > 0 && u.site.height > 0
            && !is_listed(&sites, u.site.name.as_str()) {
            let ghost made = sites@;
            sites.push(
                Site {
                    name: u.site.name.clone(),
                    width: u.site.width,
                    height: u.site.height,
                    row_pattern: copy_pattern(&u.site.row_pattern),
                },
            );
            assert(sites@.last()@ == u@.site);
            assert(site_models(sites@) =~= site_models(made).push(u@.site));
        }
        i = i + 1;
    }
    assert(models.take(models.len() as int) =~= models);
    sites
}

/// Every site that the design needs rows for takes part, and the sites asked for stay in front, in
/// their order.
pub proof fn law_used_sites_take_part(
    sites: Seq<SiteModel>,
    used: Seq<UsedSiteModel>,
    i: int,
)
    requires
        0 <= i < used.len(),
    ensures
        used[i].is_wanted() ==> first_named(with_used(sites, used), used[i].site.name) is Some,
        with_used(sites, used).len() >= sites.len(),
        with_used(sites, used).take(sites.len() as int) == sites,
    decreases used.len(),
{
    let rest = used.drop_last();
    let before = with_used(sites, rest);
    let all = with_used(sites, used);
    if rest.len() > 0 {
        law_used_sites_take_part(
            sites,
            rest,
            if i < rest.len() {
                i
            } else {
                0
            },
        );
    }
    assert(all.take(sites.len() as int) =~= before.take(sites.len() as int));
    assert(before.take(sites.len() as int) =~= sites);
    assert(all.take(before.len() as int) =~= before);
    if used[i].is_wanted() {
        let name = used[i].site.name;
        if i < rest.len() {
            assert(rest[i] == used[i]);
            lemma_first_named_stays(all, name, before.len() as int);
        } else if first_named(before, name) is Some {
            lemma_first_named_stays(all, name, before.len() as int);
        } else {
            assert(all.drop_last() =~= before);
        }
    }
}

/// A used site takes part because of a cell that is placed by itself and is no block, on a site
/// that has a name, a width and a height. It comes behind the sites asked for, is the site that the
/// design uses, and bears a name that no site before it bears.
pub proof fn law_only_placeable_cells_bring_a_site(
    sites: Seq<SiteModel>,
    used: Seq<UsedSiteModel>,
    k: int,
)
    requires
        sites.len() <= k < with_used(sites, used).len(),
    ensures
        ({
            let all = with_used(sites, used);
            &&& exists|i: int|
                0 <= i < used.len() && (#[trigger] used[i]).site == all[k] && used[i].auto_placeable
                    && !used[i].block && used[i].site.name.len() > 0 && used[i].site.width > 0
                    && used[i].site.height > 0
            &&& forall|m: int| 0 <= m < k ==> (#[trigger] all[m]).name != all[k].name
        }),
    decreases used.len(),
{
    let all = with_used(sites, used);
    if used.len() > 0 {
        let rest = used.drop_last();
        let before = with_used(sites, rest);
        let last = used.len() - 1;
        assert(used[last] == used.last());
        if k < before.len() {
            law_only_placeable_cells_bring_a_site(sites, rest, k);
            let i = choose|i: int|
                0 <= i < rest.len() && (#[trigger] rest[i]).site == before[k]
                    && rest[i].auto_placeable && !rest[i].block && rest[i].site.name.len() > 0
                    && rest[i].site.width > 0 && rest[i].site.height > 0;
            assert(used[i] == rest[i]);
            assert(all[k] == before[k]);
            assert forall|m: int| 0 <= m < k implies (#[trigger] all[m]).name != all[k].name by {
                assert(all[m] == before[m]);
            }
        } else {
            crate::order::lemma_first_named(before, used.last().site.name);
            assert(used[last].site == all[k]);
            assert forall|m: int| 0 <= m < k implies (#[trigger] all[m]).name != all[k].name by {
                assert(all[m] == before[m]);
            }
        }
    }
}

/// The sites asked for are taken as they were looked up, in the order asked, where every one of
/// them has a width, a height and a pattern that can be read. Else the first one that lacks any is
/// at fault: for its extent, with the extent that it has, before its pattern.
pub proof fn law_the_first_unusable_site_is_at_fault(lookups: Seq<SiteLookupModel>, k: int)
    ensures
        (forall|i: int|
            0 <= i < lookups.len() ==> (#[trigger] lookups[i]).width > 0 && lookups[i].height > 0
                && lookups[i].row_pattern is Some) ==> (sites_of(lookups) matches Ok(s) && {
            &&& s.len() == lookups.len()
            &&& forall|i: int|
                0 <= i < s.len() ==> {
                    &&& (#[trigger] s[i]).name == lookups[i].name
                    &&& s[i].width == lookups[i].width && s[i].height == lookups[i].height
                    &&& lookups[i].row_pattern == Some(s[i].row_pattern)
                }
        }),
        0 <= k < lookups.len() && (forall|i: int|
            0 <= i < k ==> (#[trigger] lookups[i]).width > 0 && lookups[i].height > 0
                && lookups[i].row_pattern is Some) ==> {
            &&& lookups[k].width <= 0 || lookups[k].height <= 0 ==> sites_of(lookups) == Err::<
                Seq<SiteModel>,
                _,
            >(
                SiteFaultModel::NoExtent {
                    name: lookups[k].name,
                    width: lookups[k].width,
                    height: lookups[k].height,
                },
            )
            &&& lookups[k].width > 0 && lookups[k].height > 0 && lookups[k].row_pattern is None
                ==> sites_of(lookups) == Err::<Seq<SiteModel>, _>(
                SiteFaultModel::NoPattern { name: lookups[k].name },
            )
        },
    decreases lookups.len(),
{
    if lookups.len() > 0 {
        let rest = lookups.drop_last();
        let last = lookups.len() - 1;
        assert(lookups[last] == lookups.last());
        law_the_first_unusable_site_is_at_fault(rest, k);
        assert forall|i: int| 0 <= i < rest.len() implies rest[i] == #[trigger] lookups[i] by {}
        if k < rest.len() && k >= 0 {
            assert(rest[k] == lookups[k]);
        }
        if forall|i: int|
            0 <= i < last ==> (#[trigger] lookups[i]).width > 0 && lookups[i].height > 0
                && lookups[i].row_pattern is Some {
            assert forall|i: int| 0 <= i < rest.len() implies (#[trigger] rest[i]).width > 0
                && rest[i].height > 0 && rest[i].row_pattern is Some by {
                assert(rest[i] == lookups[i]);
            }
        }
    }
}

/// One more used site takes part exactly where it is that of a cell that is placed by itself and is
/// no block, it has a name and an extent, and no site before it bears its name.
pub proof fn law_what_a_used_site_adds(
    sites: Seq<SiteModel>,
    used: Seq<UsedSiteModel>,
    u: UsedSiteModel,
)
    ensures
        ({
            let before = with_used(sites, used);
            let after = with_used(sites, used.push(u));
            let wanted = u.auto_placeable && !u.block && u.site.name.len() > 0 && u.site.width > 0
                && u.site.height > 0;
            let known = exists|i: int|
                0 <= i < before.len() && (#[trigger] before[i]).name == u.site.name;
            &&& with_used(sites, Seq::empty()) == sites
            &&& wanted && !known ==> after == before.push(u.site)
            &&& !wanted || known ==> after == before
        }),
{
    let before = with_used(sites, used);
    assert(used.push(u).drop_last() =~= used);
    crate::order::lemma_first_named(before, u.site.name);
    if forall|i: int| 0 <= i < before.len() ==> (#[trigger] before[i]).name != u.site.name {
        crate::order::law_a_name_stands_for_the_first_that_bears_it(
            before,
            u.site.name,
            before.len() as int,
        );
    }
}

/// A site that cannot take part is named, with the extent that was found and what the library
/// defines, or with why its pattern could not be read. Several names are listed in their order.
pub proof fn law_a_site_fault_names_the_site(
    name: Seq<char>,
    w: int,
    h: int,
    detail: Seq<char>,
    list: Seq<Seq<char>>,
    sep: Seq<char>,
)
    ensures
        (SiteFaultModel::NoExtent { name, width: w, height: h }).message(detail) == "site `"@ + name
            + "` is unknown or has no extent ("@ + signed_decimal(w) + " x "@ + signed_decimal(h)
            + "); the library defines: "@ + detail,
        (SiteFaultModel::NoPattern { name }).message(detail)
            == "cannot read the row pattern of `"@ + name + "`: "@ + detail,
        list_text(Seq::empty(), sep).len() == 0,
        list_text(seq![name], sep) == name,
        list.len() > 0 ==> list_text(list.push(name), sep) == list_text(list, sep) + sep + name,
{
    assert(list.push(name).drop_last() =~= list);
}

/// Lookups, used sites and faults are known by what they store.
pub proof fn law_a_lookup_is_what_it_stores(l: SiteLookup, u: UsedSite, f: SiteFault)
    ensures
        l@.name == l.name@ && l@.width == l.width && l@.height == l.height,
        l.row_pattern is None ==> l@.row_pattern is None,
        l.row_pattern matches Some(p) ==> l@.row_pattern == Some(pattern_models(p@)),
        u@.auto_placeable == u.auto_placeable && u@.block == u.block && u@.site == u.site@,
        f matches SiteFault::NoExtent { name, width, height } ==> f@ == (SiteFaultModel::NoExtent {
            name: name@,
            width: width as int,
            height: height as int,
        }),
        f matches SiteFault::NoPattern { name } ==> f@ == (SiteFaultModel::NoPattern {
            name: name@,
        }),
{
}

} // verus!
