//! Row patterns: where one site's pattern occurs in another's.

use crate::geometry::fits;
use crate::model::{pattern_models, OrientedSite, OrientedSiteModel, Site};
use crate::text::same_text;
use vstd::arithmetic::div_mod::{
    lemma_fundamental_div_mod, lemma_fundamental_div_mod_converse, lemma_small_mod,
};
use vstd::prelude::*;

verus! {

/// `orient` mirrored across X. Anything that is no orientation counts as `R0`.
pub open spec fn mirrored_orient(orient: Seq<char>) -> Seq<char> {
    if orient == "R0"@ {
        "MX"@
    } else if orient == "MX"@ {
        "R0"@
    } else if orient == "R180"@ {
        "MY"@
    } else if orient == "MY"@ {
        "R180"@
    } else if orient == "R90"@ {
        "MYR90"@
    } else if orient == "MYR90"@ {
        "R90"@
    } else if orient == "R270"@ {
        "MXR90"@
    } else if orient == "MXR90"@ {
        "R270"@
    } else {
        "R0"@
    }
}

/// One of the eight orientations.
pub open spec fn is_orient(o: Seq<char>) -> bool {
    ||| o == "R0"@
    ||| o == "MX"@
    ||| o == "R180"@
    ||| o == "MY"@
    ||| o == "R90"@
    ||| o == "MYR90"@
    ||| o == "R270"@
    ||| o == "MXR90"@
}

/// Mirror an orientation across X.
///
/// Used to test whether a site's pattern matches the base's upside down, which is how a library
/// expresses the same row sequence built from the other end.
pub fn flip_x(orient: &str) -> (r: &'static str)
    ensures
        r@ == mirrored_orient(orient@),
{
    if same_text(orient, "R0") {
        "MX"
    } else if same_text(orient, "MX") {
        "R0"
    } else if same_text(orient, "R180") {
        "MY"
    } else if same_text(orient, "MY") {
        "R180"
    } else if same_text(orient, "R90") {
        "MYR90"
    } else if same_text(orient, "MYR90") {
        "R90"
    } else if same_text(orient, "R270") {
        "MXR90"
    } else if same_text(orient, "MXR90") {
        "R270"
    } else {
        "R0"
    }
}

/// Two entries name the same site in the same orientation.
pub open spec fn same_entry(a: OrientedSiteModel, b: OrientedSiteModel) -> bool {
    a.site == b.site && a.orient == b.orient
}

/// How far above the first the `r`-th entry begins when the pattern is repeated without end.
pub open spec fn climb(pattern: Seq<OrientedSiteModel>, r: nat) -> int
    decreases r,
{
    if r == 0 {
        0
    } else {
        climb(pattern, (r - 1) as nat) + pattern[(r - 1) % pattern.len() as int].height
    }
}

/// From entry `start` on, `base` read cyclically repeats the entries of `pattern`.
pub open spec fn occurs_at(
    base: Seq<OrientedSiteModel>,
    pattern: Seq<OrientedSiteModel>,
    start: int,
) -> bool {
    forall|k: int|
        0 <= k < pattern.len() ==> same_entry(
            base[(start + k) % base.len() as int],
            #[trigger] pattern[k],
        )
}

/// The first entry of `base`, from entry `from` on, at which the pattern occurs.
pub open spec fn first_start(
    base: Seq<OrientedSiteModel>,
    pattern: Seq<OrientedSiteModel>,
    from: int,
) -> Option<int>
    decreases base.len() - from,
{
    if from >= base.len() {
        None
    } else if occurs_at(base, pattern, from) {
        Some(from)
    } else {
        first_start(base, pattern, from + 1)
    }
}

/// How far up in `base` the pattern begins, where it occurs at all: at the first entry from which
/// `base`, read cyclically, repeats it.
pub open spec fn match_height(
    base: Seq<OrientedSiteModel>,
    pattern: Seq<OrientedSiteModel>,
) -> Option<int> {
    if pattern.len() == 0 {
        None
    } else {
        match first_start(base, pattern, 0) {
            Some(start) => Some(climb(base, start as nat)),
            None => None,
        }
    }
}

/// The pattern built from the other end: reversed, with every orientation mirrored.
pub open spec fn mirrored_pattern(pattern: Seq<OrientedSiteModel>) -> Seq<OrientedSiteModel> {
    Seq::new(
        pattern.len(),
        |i: int|
            OrientedSiteModel {
                orient: mirrored_orient(pattern[pattern.len() - 1 - i].orient),
                ..pattern[pattern.len() - 1 - i]
            },
    )
}

/// Where a pattern's rows start inside the base pattern, and in which orientation: as written, or
/// else from the other end.
pub open spec fn offset_in(
    base: Seq<OrientedSiteModel>,
    pattern: Seq<OrientedSiteModel>,
) -> Option<(int, Seq<char>)> {
    match match_height(base, pattern) {
        Some(h) => Some((h, "R0"@)),
        None => match match_height(base, mirrored_pattern(pattern)) {
            Some(h) => Some((h, "MX"@)),
            None => None,
        },
    }
}

/// The content of an offset.
pub open spec fn offset_model(r: Option<(i32, &'static str)>) -> Option<(int, Seq<char>)> {
    match r {
        Some((h, o)) => Some((h as int, o@)),
        None => None,
    }
}

/// Counting on by one wraps a remainder around.
pub proof fn lemma_wrap(n: int, len: int)
    requires
        0 <= n,
        len > 0,
    ensures
        0 <= n % len < len,
        (n + 1) % len == (if n % len + 1 == len {
            0
        } else {
            n % len + 1
        }),
{
    lemma_fundamental_div_mod(n, len);
    if n % len + 1 == len {
        assert(n + 1 == (n / len + 1) * len) by (nonlinear_arith)
            requires
                n == len * (n / len) + n % len,
                n % len + 1 == len,
        ;
        lemma_fundamental_div_mod_converse(n + 1, len, n / len + 1, 0);
    } else {
        assert(n + 1 == (n / len) * len + (n % len + 1)) by (nonlinear_arith)
            requires
                n == len * (n / len) + n % len,
        ;
        lemma_fundamental_div_mod_converse(n + 1, len, n / len, n % len + 1);
    }
}

fn entries_agree(a: &OrientedSite, b: &OrientedSite) -> (r: bool)
    ensures
        r == same_entry(a@, b@),
{
    same_text(a.site.as_str(), b.site.as_str()) && same_text(a.orient.as_str(), b.orient.as_str())
}

/// Does `pattern` occur in `base`, read cyclically, from entry `start` on?
fn occurs(base: &[OrientedSite], pattern: &[OrientedSite], start: usize) -> (r: bool)
    requires
        start < base@.len(),
    ensures
        r == occurs_at(pattern_models(base@), pattern_models(pattern@), start as int),
{
    let ghost b = pattern_models(base@);
    let ghost p = pattern_models(pattern@);
    let mut k: usize = 0;
    let mut at: usize = start;
    proof {
        lemma_small_mod(start as nat, b.len());
    }
    while k < pattern.len()
        invariant
            k <= pattern@.len(),
            start < base@.len(),
            at < base@.len(),
            at == (start + k) % base@.len() as int,
            b == pattern_models(base@),
            p == pattern_models(pattern@),
            forall|j: int|
                0 <= j < k ==> same_entry(b[(start + j) % b.len() as int], #[trigger] p[j]),
        decreases pattern.len() - k,
    {
        if !entries_agree(&base[at], &pattern[k]) {
            assert(!same_entry(b[(start + k) % b.len() as int], p[k as int]));
            return false;
        }
        proof {
            lemma_wrap(start + k, base@.len() as int);
        }
        at = if at + 1 == base.len() {
            0
        } else {
            at + 1
        };
        k = k + 1;
    }
    true
}

fn wide_match(base: &[OrientedSite], pattern: &[OrientedSite]) -> (r: Option<i128>)
    ensures
        match_height(pattern_models(base@), pattern_models(pattern@)) == (match r {
            Some(h) => Some(h as int),
            None => None,
        }),
        r matches Some(h) ==> -0x8000_0000_0000_0000_0000_0000 <= h
            <= 0x8000_0000_0000_0000_0000_0000,
{
    if pattern.len() == 0 {
        return None;
    }
    let ghost b = pattern_models(base@);
    let ghost p = pattern_models(pattern@);
    let mut start: usize = 0;
    let mut height: i128 = 0;
    while start < base.len()
        invariant
            start <= base@.len(),
            b == pattern_models(base@),
            p == pattern_models(pattern@),
            p.len() > 0,
            first_start(b, p, 0) == first_start(b, p, start as int),
            height == climb(b, start as nat),
            -0x8000_0000 * start <= height <= 0x8000_0000 * start,
        decreases base.len() - start,
    {
        if occurs(base, pattern, start) {
            return Some(height);
        }
        proof {
            lemma_small_mod(start as nat, b.len());
            assert(b[start as int] == base@[start as int]@);
        }
        height = height + base[start].height as i128;
        start = start + 1;
    }
    None
}

/// Does `pattern` occur in `base`, read cyclically? If so, how far up does it start?
///
/// The offset is the summed height of the base entries before the first occurrence, which is where
/// rows of that site have to begin so they land on the same boundaries the base pattern laid down.
pub fn match_pattern(base: &[OrientedSite], pattern: &[OrientedSite]) -> (r: Option<i32>)
    requires
        match_height(pattern_models(base@), pattern_models(pattern@)) matches Some(h) ==> fits(h),
    ensures
        match_height(pattern_models(base@), pattern_models(pattern@)) == (match r {
            Some(h) => Some(h as int),
            None => None,
        }),
{
    match wide_match(base, pattern) {
        Some(h) => Some(h as i32),
        None => None,
    }
}

fn mirror(pattern: &[OrientedSite]) -> (r: Vec<OrientedSite>)
    ensures
        pattern_models(r@) == mirrored_pattern(pattern_models(pattern@)),
{
    let mut out: Vec<OrientedSite> = Vec::new();
    let ghost p = pattern_models(pattern@);
    let mut i: usize = pattern.len();
    while i > 0
        invariant
            i <= pattern@.len(),
            p == pattern_models(pattern@),
            out@.len() == pattern@.len() - i,
            pattern_models(out@) =~= mirrored_pattern(p).take(pattern@.len() - i),
        decreases i,
    {
        let e = &pattern[i - 1];
        let ghost made = out@;
        out.push(
            OrientedSite {
                site: e.site.clone(),
                orient: String::from(flip_x(e.orient.as_str())),
                width: e.width,
                height: e.height,
            },
        );
        proof {
            let n = pattern@.len() - i;
            assert(p[i - 1] == e@);
            assert(out@.last()@ == mirrored_pattern(p)[n]);
            assert(pattern_models(out@) =~= pattern_models(made).push(mirrored_pattern(p)[n]));
            assert(mirrored_pattern(p).take(n + 1) =~= mirrored_pattern(p).take(n).push(
                mirrored_pattern(p)[n],
            ));
        }
        i = i - 1;
    }
    assert(mirrored_pattern(p).take(pattern@.len() as int) =~= mirrored_pattern(p));
    out
}

/// Where `site`'s rows start inside `base`'s pattern, however far up, and in which orientation.
pub(crate) fn wide_offset(base: &Site, site: &Site) -> (r: Option<(i128, &'static str)>)
    ensures
        offset_in(base@.row_pattern, site@.row_pattern) == (match r {
            Some((h, o)) => Some((h as int, o@)),
            None => None,
        }),
        r matches Some((h, _)) ==> -0x8000_0000_0000_0000_0000_0000 <= h
            <= 0x8000_0000_0000_0000_0000_0000,
{
    match wide_match(base.row_pattern.as_slice(), site.row_pattern.as_slice()) {
        Some(off) => Some((off, "R0")),
        None => {
            let flipped = mirror(site.row_pattern.as_slice());
            match wide_match(base.row_pattern.as_slice(), flipped.as_slice()) {
                Some(off) => Some((off, "MX")),
                None => None,
            }
        },
    }
}

/// Where `site`'s rows start inside `base`'s pattern, and in which orientation.
///
/// A site matches either as written (`R0`) or reversed with every orientation mirrored (`MX`),
/// the same sequence built from the other end.
pub fn pattern_offset(base: &Site, site: &Site) -> (r: Option<(i32, &'static str)>)
    requires
        offset_in(base@.row_pattern, site@.row_pattern) matches Some((h, _)) ==> fits(h),
    ensures
        offset_model(r) == offset_in(base@.row_pattern, site@.row_pattern),
{
    match match_pattern(base.row_pattern.as_slice(), site.row_pattern.as_slice()) {
        Some(off) => Some((off, "R0")),
        None => {
            let flipped = mirror(site.row_pattern.as_slice());
            match match_pattern(base.row_pattern.as_slice(), flipped.as_slice()) {
                Some(off) => Some((off, "MX")),
                None => None,
            }
        },
    }
}

proof fn lemma_orient_texts()
    ensures
        "R0"@ == seq!['R', '0'],
        "MX"@ == seq!['M', 'X'],
        "R180"@ == seq!['R', '1', '8', '0'],
        "MY"@ == seq!['M', 'Y'],
        "R90"@ == seq!['R', '9', '0'],
        "MYR90"@ == seq!['M', 'Y', 'R', '9', '0'],
        "R270"@ == seq!['R', '2', '7', '0'],
        "MXR90"@ == seq!['M', 'X', 'R', '9', '0'],
{
    reveal_strlit("R0");
    reveal_strlit("MX");
    reveal_strlit("R180");
    reveal_strlit("MY");
    reveal_strlit("R90");
    reveal_strlit("MYR90");
    reveal_strlit("R270");
    reveal_strlit("MXR90");
    assert("R0"@ =~= seq!['R', '0']);
    assert("MX"@ =~= seq!['M', 'X']);
    assert("R180"@ =~= seq!['R', '1', '8', '0']);
    assert("MY"@ =~= seq!['M', 'Y']);
    assert("R90"@ =~= seq!['R', '9', '0']);
    assert("MYR90"@ =~= seq!['M', 'Y', 'R', '9', '0']);
    assert("R270"@ =~= seq!['R', '2', '7', '0']);
    assert("MXR90"@ =~= seq!['M', 'X', 'R', '9', '0']);
}

/// Mirroring an orientation changes it, and mirroring it again brings it back.
pub proof fn law_mirroring_is_an_involution(o: Seq<char>)
    requires
        is_orient(o),
    ensures
        is_orient(mirrored_orient(o)),
        mirrored_orient(o) != o,
        mirrored_orient(mirrored_orient(o)) == o,
{
    lemma_orient_texts();
    let t = seq![
        "R0"@,
        "MX"@,
        "R180"@,
        "MY"@,
        "R90"@,
        "MYR90"@,
        "R270"@,
        "MXR90"@,
    ];
    assert(t[0].len() == 2 && t[1].len() == 2 && t[3].len() == 2 && t[2].len() == 4 && t[4].len()
        == 3 && t[5].len() == 5 && t[6].len() == 4 && t[7].len() == 5);
    assert(t[0][0] == 'R' && t[1][0] == 'M' && t[1][1] == 'X' && t[3][0] == 'M' && t[3][1] == 'Y');
    assert(t[2][1] == '1' && t[6][1] == '2');
    assert(t[5][1] == 'Y' && t[7][1] == 'X');
}

/// A pattern built from the other end twice is the pattern as written.
pub proof fn law_mirroring_a_pattern_twice(pattern: Seq<OrientedSiteModel>)
    requires
        forall|i: int| 0 <= i < pattern.len() ==> is_orient((#[trigger] pattern[i]).orient),
    ensures
        mirrored_pattern(mirrored_pattern(pattern)) == pattern,
{
    let twice = mirrored_pattern(mirrored_pattern(pattern));
    assert forall|i: int| 0 <= i < pattern.len() implies #[trigger] twice[i] == pattern[i] by {
        law_mirroring_is_an_involution(pattern[i].orient);
        assert(mirrored_pattern(pattern)[pattern.len() - 1 - i].orient == mirrored_orient(
            pattern[i].orient,
        ));
    }
    assert(twice =~= pattern);
}

/// What `first_start` finds is an occurrence with none before it; what it misses is not there.
pub proof fn lemma_first_start(
    base: Seq<OrientedSiteModel>,
    pattern: Seq<OrientedSiteModel>,
    from: int,
)
    requires
        0 <= from <= base.len(),
    ensures
        match first_start(base, pattern, from) {
            Some(s) => {
                &&& from <= s < base.len()
                &&& occurs_at(base, pattern, s)
                &&& forall|t: int| from <= t < s ==> !occurs_at(base, pattern, t)
            },
            None => forall|t: int| from <= t < base.len() ==> !occurs_at(base, pattern, t),
        },
    decreases base.len() - from,
{
    if from < base.len() {
        lemma_first_start(base, pattern, from + 1);
    }
}

/// A pattern is found exactly where it occurs, read cyclically from any entry of the base, and the
/// first such entry is where its rows start.
pub proof fn law_a_pattern_is_found_where_it_first_occurs(
    base: Seq<OrientedSiteModel>,
    pattern: Seq<OrientedSiteModel>,
    start: int,
)
    requires
        pattern.len() > 0,
    ensures
        match_height(base, pattern) is Some <==> exists|t: int|
            0 <= t < base.len() && occurs_at(base, pattern, t),
        0 <= start < base.len() && occurs_at(base, pattern, start) && (forall|t: int|
            0 <= t < start ==> !occurs_at(base, pattern, t)) ==> match_height(base, pattern)
            == Some(climb(base, start as nat)),
{
    lemma_first_start(base, pattern, 0);
}

/// A hybrid site's own pattern starts at its own floor, as written.
pub proof fn law_a_pattern_matches_itself(pattern: Seq<OrientedSiteModel>)
    requires
        pattern.len() > 0,
    ensures
        offset_in(pattern, pattern) == Some((0int, "R0"@)),
{
    assert forall|k: int| 0 <= k < pattern.len() implies same_entry(
        pattern[(0 + k) % pattern.len() as int],
        #[trigger] pattern[k],
    ) by {
        lemma_small_mod(k as nat, pattern.len());
    }
    assert(occurs_at(pattern, pattern, 0));
}

/// A pattern and the same pattern built from the other end are compatible with a base alike.
pub proof fn law_a_mirrored_pattern_is_as_compatible(
    base: Seq<OrientedSiteModel>,
    pattern: Seq<OrientedSiteModel>,
)
    requires
        forall|i: int| 0 <= i < pattern.len() ==> is_orient((#[trigger] pattern[i]).orient),
    ensures
        offset_in(base, pattern) is Some <==> offset_in(base, mirrored_pattern(pattern)) is Some,
{
    law_mirroring_a_pattern_twice(pattern);
}

/// The entries' heights, summed.
pub open spec fn total_height(entries: Seq<OrientedSiteModel>) -> int
    decreases entries.len(),
{
    if entries.len() == 0 {
        0
    } else {
        total_height(entries.drop_last()) + entries.last().height
    }
}

/// From entry `start` on, `base` read cyclically names the pattern's sites in their orientations.
pub open spec fn reads_upward(
    base: Seq<OrientedSiteModel>,
    pattern: Seq<OrientedSiteModel>,
    start: int,
) -> bool {
    forall|k: int|
        0 <= k < pattern.len() ==> {
            &&& base[(start + k) % base.len() as int].site == (#[trigger] pattern[k]).site
            &&& base[(start + k) % base.len() as int].orient == pattern[k].orient
        }
}

/// From entry `start` on, `base` read cyclically names the pattern's sites from the last to the
/// first, each turned over.
pub open spec fn reads_downward(
    base: Seq<OrientedSiteModel>,
    pattern: Seq<OrientedSiteModel>,
    start: int,
) -> bool {
    forall|k: int|
        0 <= k < pattern.len() ==> {
            let at = (start + pattern.len() - 1 - k) % base.len() as int;
            &&& base[at].site == (#[trigger] pattern[k]).site
            &&& base[at].orient == mirrored_orient(pattern[k].orient)
        }
}

proof fn lemma_climb_is_the_total(pattern: Seq<OrientedSiteModel>, r: nat)
    requires
        r <= pattern.len(),
    ensures
        climb(pattern, r) == total_height(pattern.take(r as int)),
    decreases r,
{
    if r > 0 {
        lemma_climb_is_the_total(pattern, (r - 1) as nat);
        lemma_small_mod((r - 1) as nat, pattern.len());
        assert(pattern.take(r as int).drop_last() =~= pattern.take(r - 1));
    }
}

proof fn lemma_reads(base: Seq<OrientedSiteModel>, pattern: Seq<OrientedSiteModel>, start: int)
    ensures
        reads_upward(base, pattern, start) == occurs_at(base, pattern, start),
        reads_downward(base, pattern, start) == occurs_at(base, mirrored_pattern(pattern), start),
{
    let m = mirrored_pattern(pattern);
    let n = pattern.len() as int;
    if occurs_at(base, pattern, start) {
        assert forall|k: int| 0 <= k < n implies base[(start + k) % base.len() as int].site == (
        #[trigger] pattern[k]).site && base[(start + k) % base.len() as int].orient
            == pattern[k].orient by {
            assert(same_entry(base[(start + k) % base.len() as int], pattern[k]));
        }
    }
    if occurs_at(base, m, start) {
        assert forall|k: int| 0 <= k < n implies {
            let at = (start + n - 1 - k) % base.len() as int;
            &&& base[at].site == (#[trigger] pattern[k]).site
            &&& base[at].orient == mirrored_orient(pattern[k].orient)
        } by {
            assert(m[n - 1 - k].site == pattern[k].site);
            assert(start + (n - 1 - k) == start + n - 1 - k);
        }
    }
    if reads_downward(base, pattern, start) {
        assert forall|j: int| 0 <= j < m.len() implies same_entry(
            base[(start + j) % base.len() as int],
            #[trigger] m[j],
        ) by {
            let k = n - 1 - j;
            assert(pattern[k].site == m[j].site);
            assert(start + n - 1 - k == start + j);
        }
    }
}

/// A hybrid site's rows start above the base entries that lie below the first occurrence of its
/// pattern, as high as those entries are together. They start there as written (`R0`) where the
/// base reads so from some entry on, and else from the other end (`MX`) where the base reads so.
/// Where it does neither, or where there is no pattern, they start nowhere.
pub proof fn law_an_offset_is_what_lies_below_the_first_occurrence(
    base: Seq<OrientedSiteModel>,
    pattern: Seq<OrientedSiteModel>,
    start: int,
)
    ensures
        pattern.len() == 0 ==> offset_in(base, pattern) is None,
        pattern.len() > 0 && 0 <= start < base.len() && reads_upward(base, pattern, start) && (
        forall|t: int| 0 <= t < start ==> !#[trigger] reads_upward(base, pattern, t)) ==> offset_in(
            base,
            pattern,
        ) == Some((total_height(base.take(start)), "R0"@)),
        pattern.len() > 0 && (forall|t: int|
            0 <= t < base.len() ==> !#[trigger] reads_upward(base, pattern, t)) ==> {
            &&& 0 <= start < base.len() && reads_downward(base, pattern, start) && (forall|t: int|
                0 <= t < start ==> !#[trigger] reads_downward(base, pattern, t)) ==> offset_in(
                base,
                pattern,
            ) == Some((total_height(base.take(start)), "MX"@))
            &&& (forall|t: int|
                0 <= t < base.len() ==> !#[trigger] reads_downward(base, pattern, t)) ==> offset_in(
                base,
                pattern,
            ) is None
        },
{
    let m = mirrored_pattern(pattern);
    assert forall|t: int| #[trigger] reads_upward(base, pattern, t) == occurs_at(
        base,
        pattern,
        t,
    ) by {
        lemma_reads(base, pattern, t);
    }
    assert forall|t: int| #[trigger] reads_downward(base, pattern, t) == occurs_at(base, m, t) by {
        lemma_reads(base, pattern, t);
    }
    lemma_first_start(base, pattern, 0);
    lemma_first_start(base, m, 0);
    match first_start(base, pattern, 0) {
        Some(s) => {
            assert(reads_upward(base, pattern, s));
            if 0 <= start < base.len() {
                lemma_climb_is_the_total(base, start as nat);
            }
        },
        None => {
            match first_start(base, m, 0) {
                Some(s) => {
                    assert(reads_downward(base, pattern, s));
                },
                None => {},
            }
            if 0 <= start < base.len() {
                lemma_climb_is_the_total(base, start as nat);
            }
        },
    }
}

/// Mirroring turns an orientation over and keeps how far it is turned: `R0` and `MX`, `R180` and
/// `MY`, `R90` and `MYR90`, `R270` and `MXR90` change places. What is no orientation counts as
/// `R0`.
pub proof fn law_mirroring_pairs_the_orientations(o: Seq<char>)
    ensures
        o == "R0"@ ==> mirrored_orient(o) == "MX"@,
        o == "MX"@ ==> mirrored_orient(o) == "R0"@,
        o == "R180"@ ==> mirrored_orient(o) == "MY"@,
        o == "MY"@ ==> mirrored_orient(o) == "R180"@,
        o == "R90"@ ==> mirrored_orient(o) == "MYR90"@,
        o == "MYR90"@ ==> mirrored_orient(o) == "R90"@,
        o == "R270"@ ==> mirrored_orient(o) == "MXR90"@,
        o == "MXR90"@ ==> mirrored_orient(o) == "R270"@,
        !is_orient(o) ==> mirrored_orient(o) == "R0"@,
{
    lemma_orient_texts();
    let a = "R180"@;
    let b = "R90"@;
    let c = "MYR90"@;
    let d = "R270"@;
    let e = "MXR90"@;
    assert("R0"@.len() == 2 && "MX"@.len() == 2 && "MY"@.len() == 2);
    assert(a.len() == 4 && b.len() == 3 && c.len() == 5 && d.len() == 4 && e.len() == 5);
    assert("R0"@[0] == 'R' && "MX"@[1] == 'X' && "MY"@[1] == 'Y' && "MX"@[0] == 'M');
    assert("MY"@[0] == 'M' && a[1] == '1' && d[1] == '2' && c[1] == 'Y' && e[1] == 'X');
}

} // verus!
