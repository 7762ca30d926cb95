//! Sites in name order, deduplicated by name.

use crate::model::{site_models, site_ref_models, Site, SiteModel};
use crate::text::{
    comes_before, lemma_before_total, lemma_before_transitive, same_text, text_before,
};
use vstd::prelude::*;

verus! {

/// How many of the first `i` entries of `ordered`, counted up to the first exception, are named
/// before `name`.
pub open spec fn rank_within(ordered: Seq<SiteModel>, name: Seq<char>, i: int) -> int
    decreases i,
{
    if i <= 0 {
        0
    } else {
        let r = rank_within(ordered, name, i - 1);
        if r == i - 1 && text_before(ordered[i - 1].name, name) {
            i
        } else {
            r
        }
    }
}

/// `ordered` with `site` put in its place, or unchanged where its name is taken.
pub open spec fn with_site(ordered: Seq<SiteModel>, site: SiteModel) -> Seq<SiteModel> {
    let k = rank_within(ordered, site.name, ordered.len() as int);
    if k < ordered.len() && ordered[k].name == site.name {
        ordered
    } else {
        ordered.insert(k, site)
    }
}

/// The sites in name order. Of several sites with one name the first given stays.
pub open spec fn name_order(sites: Seq<SiteModel>) -> Seq<SiteModel>
    decreases sites.len(),
{
    if sites.len() == 0 {
        Seq::empty()
    } else {
        with_site(name_order(sites.drop_last()), sites.last())
    }
}

/// The first site called `name`.
pub open spec fn first_named(sites: Seq<SiteModel>, name: Seq<char>) -> Option<SiteModel>
    decreases sites.len(),
{
    if sites.len() == 0 {
        None
    } else {
        match first_named(sites.drop_last(), name) {
            Some(s) => Some(s),
            None => if sites.last().name == name {
                Some(sites.last())
            } else {
                None
            },
        }
    }
}

/// Names strictly increase along `ordered`.
pub open spec fn strictly_ordered(ordered: Seq<SiteModel>) -> bool {
    forall|i: int, j: int|
        0 <= i < j < ordered.len() ==> text_before(
            #[trigger] ordered[i].name,
            #[trigger] ordered[j].name,
        )
}

/// The sites in name order, deduplicated by name.
///
/// Both the row numbering and the order of the log lines follow from this order, not from the
/// order in which the sites were given.
pub fn sites_by_name<'a>(sites: &'a [Site]) -> (r: Vec<&'a Site>)
    ensures
        site_ref_models(r@) == name_order(site_models(sites@)),
{
    let mut ordered: Vec<&'a Site> = Vec::new();
    let mut i: usize = 0;
    while i < sites.len()
        invariant
            i <= sites@.len(),
            site_ref_models(ordered@) == name_order(site_models(sites@.take(i as int))),
        decreases sites.len() - i,
    {
        let site = &sites[i];
        let ghost models = site_ref_models(ordered@);
        let mut k: usize = 0;
        while k < ordered.len() && comes_before(ordered[k].name.as_str(), site.name.as_str())
            invariant
                k <= ordered@.len(),
                models == site_ref_models(ordered@),
                rank_within(models, site@.name, k as int) == k,
            ensures
                k <= ordered@.len(),
                rank_within(models, site@.name, k as int) == k,
                k < ordered@.len() ==> !text_before(models[k as int].name, site@.name),
            decreases ordered.len() - k,
        {
            assert(models[k as int] == ordered@[k as int]@);
            k = k + 1;
        }
        proof {
            lemma_rank_stops(models, site@.name, k as int, models.len() as int);
            assert(site_models(sites@.take(i + 1)).drop_last() =~= site_models(
                sites@.take(i as int),
            ));
            assert(site_models(sites@.take(i + 1)).last() == site@);
        }
        let taken: bool = k < ordered.len() && same_text(
            ordered[k].name.as_str(),
            site.name.as_str(),
        );
        if !taken {
            ordered.insert(k, site);
            assert(site_ref_models(ordered@) =~= models.insert(k as int, site@));
        }
        i = i + 1;
    }
    assert(sites@.take(sites@.len() as int) =~= sites@);
    ordered
}

proof fn lemma_rank_stops(ordered: Seq<SiteModel>, name: Seq<char>, k: int, n: int)
    requires
        0 <= k <= n <= ordered.len(),
        rank_within(ordered, name, k) == k,
        k < ordered.len() ==> !text_before(ordered[k].name, name),
    ensures
        rank_within(ordered, name, n) == k,
    decreases n - k,
{
    if k < n {
        if n == k + 1 {
        } else {
            lemma_rank_stops(ordered, name, k, n - 1);
        }
    }
}

proof fn lemma_rank(ordered: Seq<SiteModel>, name: Seq<char>, i: int)
    requires
        0 <= i <= ordered.len(),
    ensures
        0 <= rank_within(ordered, name, i) <= i,
        forall|j: int|
            0 <= j < rank_within(ordered, name, i) ==> text_before(
                #[trigger] ordered[j].name,
                name,
            ),
        rank_within(ordered, name, i) < i ==> !text_before(
            ordered[rank_within(ordered, name, i)].name,
            name,
        ),
    decreases i,
{
    if i > 0 {
        lemma_rank(ordered, name, i - 1);
    }
}

/// Sites are visited in strictly increasing name order, whatever order they were given in: no
/// name is visited twice.
pub proof fn law_name_order_is_strict(sites: Seq<SiteModel>)
    ensures
        strictly_ordered(name_order(sites)),
    decreases sites.len(),
{
    if sites.len() > 0 {
        let ordered = name_order(sites.drop_last());
        let site = sites.last();
        law_name_order_is_strict(sites.drop_last());
        let k = rank_within(ordered, site.name, ordered.len() as int);
        lemma_rank(ordered, site.name, ordered.len() as int);
        if !(k < ordered.len() && ordered[k].name == site.name) {
            if k < ordered.len() {
                if !text_before(site.name, ordered[k].name) {
                    assert(site.name.take(0) =~= ordered[k].name.take(0));
                    lemma_before_total(site.name, ordered[k].name, 0);
                }
            }
            let out = ordered.insert(k, site);
            assert forall|i: int, j: int| 0 <= i < j < out.len() implies text_before(
                #[trigger] out[i].name,
                #[trigger] out[j].name,
            ) by {
                let a = if i < k {
                    i
                } else {
                    i - 1
                };
                let b = if j < k {
                    j
                } else {
                    j - 1
                };
                if i != k && j != k {
                    assert(out[i] == ordered[a] && out[j] == ordered[b]);
                } else if j == k {
                    assert(out[i] == ordered[i]);
                } else {
                    assert(out[j] == ordered[j - 1]);
                    if j - 1 > k {
                        lemma_before_transitive(site.name, ordered[k].name, ordered[j - 1].name, 0);
                    }
                }
            }
        }
    }
}

/// Every visited site is the first one given under its name.
pub proof fn law_name_order_keeps_the_first(sites: Seq<SiteModel>, i: int)
    requires
        0 <= i < name_order(sites).len(),
    ensures
        first_named(sites, name_order(sites)[i].name) == Some(name_order(sites)[i]),
    decreases sites.len(),
{
    let rest = sites.drop_last();
    let ordered = name_order(rest);
    let site = sites.last();
    let k = rank_within(ordered, site.name, ordered.len() as int);
    lemma_rank(ordered, site.name, ordered.len() as int);
    if k < ordered.len() && ordered[k].name == site.name {
        law_name_order_keeps_the_first(rest, i);
    } else if i == k {
        if first_named(rest, site.name) is Some {
            lemma_first_named(rest, site.name);
            let m = choose|m: int| 0 <= m < rest.len() && #[trigger] rest[m].name == site.name;
            law_name_order_covers(rest, m);
            let j = choose|j: int|
                0 <= j < ordered.len() && #[trigger] ordered[j].name == site.name;
            law_name_order_is_strict(rest);
            crate::text::lemma_before_irreflexive(site.name, 0);
            if j < k {
                assert(text_before(ordered[j].name, site.name));
            } else {
                if j > k {
                    assert(text_before(ordered[k].name, ordered[j].name));
                }
            }
            assert(false);
        }
    } else {
        let a = if i < k {
            i
        } else {
            i - 1
        };
        assert(name_order(sites)[i] == ordered[a]);
        law_name_order_keeps_the_first(rest, a);
    }
}

/// Every given site is visited, by its name.
pub proof fn law_name_order_covers(sites: Seq<SiteModel>, m: int)
    requires
        0 <= m < sites.len(),
    ensures
        exists|j: int|
            0 <= j < name_order(sites).len() && #[trigger] name_order(sites)[j].name
                == sites[m].name,
    decreases sites.len(),
{
    let rest = sites.drop_last();
    let ordered = name_order(rest);
    let site = sites.last();
    let out = name_order(sites);
    let k = rank_within(ordered, site.name, ordered.len() as int);
    lemma_rank(ordered, site.name, ordered.len() as int);
    if m == sites.len() - 1 {
        assert(out[k].name == site.name);
    } else {
        law_name_order_covers(rest, m);
        let j = choose|j: int| 0 <= j < ordered.len() && #[trigger] ordered[j].name == rest[m].name;
        if k < ordered.len() && ordered[k].name == site.name {
            assert(out[j].name == sites[m].name);
        } else if j < k {
            assert(out[j] == ordered[j]);
        } else {
            assert(out[j + 1] == ordered[j]);
        }
    }
}

/// What `first_named` finds is one of the sites and bears the name; what it misses is not there.
pub proof fn lemma_first_named(sites: Seq<SiteModel>, name: Seq<char>)
    ensures
        match first_named(sites, name) {
            Some(s) => s.name == name && exists|m: int|
                0 <= m < sites.len() && #[trigger] sites[m].name == name && sites[m] == s,
            None => forall|m: int| 0 <= m < sites.len() ==> #[trigger] sites[m].name != name,
        },
    decreases sites.len(),
{
    if sites.len() > 0 {
        let rest = sites.drop_last();
        lemma_first_named(rest, name);
        match first_named(rest, name) {
            Some(s) => {
                let m = choose|m: int|
                    0 <= m < rest.len() && #[trigger] rest[m].name == name && rest[m] == s;
                assert(sites[m].name == name && sites[m] == s);
            },
            None => {
                assert forall|m: int| 0 <= m < sites.len() && sites.last().name != name implies
                    #[trigger] sites[m].name != name by {
                    if m < rest.len() {
                        assert(rest[m].name != name);
                    }
                }
                if sites.last().name == name {
                    assert(sites[sites.len() - 1].name == name);
                }
            },
        }
    }
}

/// The first site called `name` stays the first when more are listed.
pub proof fn lemma_first_named_stays(sites: Seq<SiteModel>, name: Seq<char>, k: int)
    requires
        0 <= k <= sites.len(),
        first_named(sites.take(k), name) is Some,
    ensures
        first_named(sites, name) == first_named(sites.take(k), name),
    decreases sites.len() - k,
{
    if k < sites.len() {
        assert(sites.take(k + 1).drop_last() =~= sites.take(k));
        lemma_first_named_stays(sites, name, k + 1);
    } else {
        assert(sites.take(k) =~= sites);
    }
}

proof fn lemma_names_locate(sites: Seq<SiteModel>, name: Seq<char>) -> (j: int)
    requires
        first_named(sites, name) is Some,
    ensures
        0 <= j < name_order(sites).len(),
        name_order(sites)[j] == first_named(sites, name).unwrap(),
{
    lemma_first_named(sites, name);
    let m = choose|m: int| 0 <= m < sites.len() && #[trigger] sites[m].name == name;
    law_name_order_covers(sites, m);
    let j = choose|j: int|
        0 <= j < name_order(sites).len() && #[trigger] name_order(sites)[j].name == name;
    law_name_order_keeps_the_first(sites, j);
    j
}

/// Position `i` of `a` is taken by the same site as position `i` of `b`, once that holds below.
proof fn lemma_same_at(a: Seq<SiteModel>, b: Seq<SiteModel>, i: int)
    requires
        forall|name: Seq<char>| #[trigger] first_named(a, name) == first_named(b, name),
        0 <= i < name_order(a).len(),
        i <= name_order(b).len(),
        forall|k: int| 0 <= k < i ==> name_order(a)[k] == name_order(b)[k],
    ensures
        i < name_order(b).len(),
        !text_before(name_order(a)[i].name, name_order(b)[i].name),
{
    let x = name_order(a);
    let y = name_order(b);
    law_name_order_is_strict(a);
    law_name_order_is_strict(b);
    law_name_order_keeps_the_first(a, i);
    let j = lemma_names_locate(b, x[i].name);
    crate::text::lemma_before_irreflexive(x[i].name, 0);
    if j < i {
        assert(x[j] == y[j]);
        assert(text_before(x[j].name, x[i].name));
        assert(false);
    }
    if j > i {
        if text_before(x[i].name, y[i].name) {
            assert(text_before(y[i].name, y[j].name));
            lemma_before_transitive(x[i].name, y[i].name, y[j].name, 0);
            assert(false);
        }
    }
}

proof fn lemma_same_below(a: Seq<SiteModel>, b: Seq<SiteModel>, i: int)
    requires
        forall|name: Seq<char>| #[trigger] first_named(a, name) == first_named(b, name),
        0 <= i <= name_order(a).len(),
    ensures
        i <= name_order(b).len(),
        forall|k: int| 0 <= k < i ==> name_order(a)[k] == name_order(b)[k],
    decreases i,
{
    if i > 0 {
        let x = name_order(a);
        let y = name_order(b);
        lemma_same_below(a, b, i - 1);
        lemma_same_at(a, b, i - 1);
        assert forall|name: Seq<char>| #[trigger] first_named(b, name) == first_named(
            a,
            name,
        ) by {
            assert(first_named(a, name) == first_named(b, name));
        }
        lemma_same_at(b, a, i - 1);
        let p = x[i - 1].name;
        let q = y[i - 1].name;
        assert(p.take(0) =~= q.take(0));
        if p != q {
            lemma_before_total(p, q, 0);
        }
        law_name_order_keeps_the_first(a, i - 1);
        law_name_order_keeps_the_first(b, i - 1);
        assert(x[i - 1] == y[i - 1]);
    }
}

/// The order in which sites were given does not matter, nor does a repeated name: two lists that
/// agree on the first site of every name are visited alike.
pub proof fn law_name_order_depends_on_names_alone(a: Seq<SiteModel>, b: Seq<SiteModel>)
    requires
        forall|name: Seq<char>| #[trigger] first_named(a, name) == first_named(b, name),
    ensures
        name_order(a) == name_order(b),
{
    assert forall|name: Seq<char>| #[trigger] first_named(b, name) == first_named(a, name) by {
        assert(first_named(a, name) == first_named(b, name));
    }
    lemma_same_below(a, b, name_order(a).len() as int);
    lemma_same_below(b, a, name_order(b).len() as int);
    assert(name_order(a) =~= name_order(b));
}

/// A name stands for the first site that bears it, and for none where no site does.
pub proof fn law_a_name_stands_for_the_first_that_bears_it(
    sites: Seq<SiteModel>,
    name: Seq<char>,
    k: int,
)
    requires
        0 <= k <= sites.len(),
        forall|j: int| 0 <= j < k ==> (#[trigger] sites[j]).name != name,
    ensures
        k < sites.len() && sites[k].name == name ==> first_named(sites, name) == Some(sites[k]),
        k == sites.len() ==> first_named(sites, name) is None,
{
    lemma_none_named(sites, name, k);
    if k < sites.len() && sites[k].name == name {
        assert(sites.take(k + 1).drop_last() =~= sites.take(k));
        assert(sites.take(k + 1).last() == sites[k]);
        lemma_first_named_stays(sites, name, k + 1);
    }
    if k == sites.len() {
        assert(sites.take(k) =~= sites);
    }
}

proof fn lemma_none_named(sites: Seq<SiteModel>, name: Seq<char>, k: int)
    requires
        0 <= k <= sites.len(),
        forall|j: int| 0 <= j < k ==> (#[trigger] sites[j]).name != name,
    ensures
        first_named(sites.take(k), name) is None,
    decreases k,
{
    if k > 0 {
        lemma_none_named(sites, name, k - 1);
        assert(sites.take(k).drop_last() =~= sites.take(k - 1));
        assert(sites.take(k).last() == sites[k - 1]);
    }
}

} // verus!
