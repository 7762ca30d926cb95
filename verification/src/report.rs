//! The report of a floorplan, as JSON text.

use crate::geometry::{Area, Rect};
use crate::json::{
    are_names, brace, braced, bracket, bracketed, is_json_number, is_space,
    law_a_list_stands_for_its_items, law_a_quoted_text_stands_for_itself,
    law_a_whole_number_is_a_json_number, law_an_object_stands_for_its_members,
    law_white_space_around_a_value_does_not_matter, lemma_bare, member, name_value, quote, quoted,
    stands_for, Json,
};
use crate::model::{site_count, site_counts, texts, Plan, PlanModel};
use crate::notices::{can_read, in_microns, reads_as};
use crate::text::{joined, push_decimal, push_signed, signed_decimal};
use vstd::prelude::*;

verus! {

/// Four numbers in square brackets.
pub open spec fn four_text(
    a: Seq<char>,
    b: Seq<char>,
    c: Seq<char>,
    d: Seq<char>,
) -> Seq<char> {
    bracketed(""@, seq![a, b, c, d], " "@, ""@)
}

/// A rectangle in both unit systems.
pub open spec fn rect_text(a: Area, um: spec_fn(int) -> Seq<char>) -> Seq<char> {
    braced(
        " "@,
        seq![
            member(
                "dbu"@,
                four_text(
                    signed_decimal(a.x_min),
                    signed_decimal(a.y_min),
                    signed_decimal(a.x_max),
                    signed_decimal(a.y_max),
                ),
            ),
            member("um"@, four_text(um(a.x_min), um(a.y_min), um(a.x_max), um(a.y_max))),
        ],
        " "@,
        " "@,
    )
}

/// One site's rows.
pub open spec fn per_site_text(c: (Seq<char>, int)) -> Seq<char> {
    "    "@ + braced(
        " "@,
        seq![member("site"@, quoted(c.0)), member("rows"@, signed_decimal(c.1))],
        " "@,
        " "@,
    )
}

/// Every site's rows, one to a line.
pub open spec fn per_sites_text(counts: Seq<(Seq<char>, int)>) -> Seq<char> {
    bracketed(
        "\n"@,
        counts.map_values(|c: (Seq<char>, int)| per_site_text(c)),
        "\n"@,
        "\n  "@,
    )
}

/// The database that was written, or null.
pub open spec fn written_text(odb: Option<Seq<char>>) -> Seq<char> {
    match odb {
        Some(path) => quoted(path),
        None => "null"@,
    }
}

/// A truth value.
pub open spec fn truth_text(b: bool) -> Seq<char> {
    if b {
        "true"@
    } else {
        "false"@
    }
}

/// How many sites the rows of a plan have: as many as the first of them.
pub open spec fn sites_per_row(p: PlanModel) -> int {
    if p.rows.len() > 0 {
        p.rows[0].num_sites
    } else {
        0
    }
}

/// What a report says, name by name.
pub open spec fn report_names() -> Seq<Seq<char>> {
    seq![
        "tool"@,
        "status"@,
        "dbu_per_micron"@,
        "die_area"@,
        "core_area_requested"@,
        "core_area_snapped"@,
        "core_area"@,
        "core_was_snapped"@,
        "rows"@,
        "sites_per_row"@,
        "rows_per_site"@,
        "odb_written"@,
    ]
}

/// How the values of a report are written, name by name.
pub open spec fn report_values(
    p: PlanModel,
    dbu: int,
    um: spec_fn(int) -> Seq<char>,
    status: Seq<char>,
    odb: Option<Seq<char>>,
) -> Seq<Seq<char>> {
    seq![
        quoted("vyges-ifp"@),
        quoted(status),
        signed_decimal(dbu),
        rect_text(p.die, um),
        rect_text(p.core_requested, um),
        rect_text(p.core_snapped, um),
        rect_text(p.core_final, um),
        truth_text(p.core_was_snapped()),
        signed_decimal(p.rows.len() as int),
        signed_decimal(sites_per_row(p)),
        per_sites_text(p.rows_per_site),
        written_text(odb),
    ]
}

/// The report of a plan, one name to a line. The core as requested, as snapped and as the rows
/// cover it are reported separately, because they differ.
pub open spec fn report_text(
    p: PlanModel,
    dbu: int,
    um: spec_fn(int) -> Seq<char>,
    status: Seq<char>,
    odb: Option<Seq<char>>,
) -> Seq<char> {
    let values = report_values(p, dbu, um, status, odb);
    braced(
        "\n  "@,
        Seq::new(report_names().len(), |i: int| member(report_names()[i], values[i])),
        "\n  "@,
        "\n"@,
    )
}

fn four(a: String, b: String, c: String, d: String) -> (r: String)
    ensures
        r@ == four_text(a@, b@, c@, d@),
{
    let mut items: Vec<String> = Vec::new();
    let ghost models = seq![a@, b@, c@, d@];
    items.push(a);
    items.push(b);
    items.push(c);
    items.push(d);
    assert(texts(items@) =~= models);
    bracket("", items.as_slice(), " ", "")
}

fn number(n: i32) -> (r: String)
    ensures
        r@ == signed_decimal(n as int),
{
    let mut out: String = String::new();
    push_signed(&mut out, n as i64);
    assert(out@ =~= signed_decimal(n as int));
    out
}

fn push_member(out: &mut Vec<String>, name: &str, value: &str)
    ensures
        texts(final(out)@) == texts(old(out)@).push(member(name@, value@)),
{
    let ghost before = out@;
    out.push(name_value(name, value));
    assert(texts(out@) =~= texts(before).push(member(name@, value@)));
}

/// A rectangle in both unit systems.
pub fn rect_json<M: Fn(i32) -> String>(r: &Rect, um: &M) -> (s: String)
    requires
        can_read(*um),
    ensures
        forall|f: spec_fn(int) -> Seq<char>| #[trigger]
            reads_as(*um, f) ==> s@ == rect_text(r@, f),
{
    let dbu: String = four(number(r.x_min), number(r.y_min), number(r.x_max), number(r.y_max));
    let in_um: String = four(
        in_microns(um, r.x_min),
        in_microns(um, r.y_min),
        in_microns(um, r.x_max),
        in_microns(um, r.y_max),
    );
    let mut members: Vec<String> = Vec::new();
    assert(texts(members@) =~= Seq::<Seq<char>>::empty());
    push_member(&mut members, "dbu", dbu.as_str());
    push_member(&mut members, "um", in_um.as_str());
    assert(texts(members@) =~= seq![member("dbu"@, dbu@), member("um"@, in_um@)]);
    brace(" ", members.as_slice(), " ", " ")
}

fn per_site(c: &(String, i32)) -> (r: String)
    ensures
        r@ == per_site_text(site_count(*c)),
{
    let name: String = quote(c.0.as_str());
    let count: String = number(c.1);
    let mut members: Vec<String> = Vec::new();
    assert(texts(members@) =~= Seq::<Seq<char>>::empty());
    push_member(&mut members, "site", name.as_str());
    push_member(&mut members, "rows", count.as_str());
    assert(texts(members@) =~= seq![member("site"@, name@), member("rows"@, count@)]);
    joined("    ", brace(" ", members.as_slice(), " ", " ").as_str())
}

fn per_sites(counts: &[(String, i32)]) -> (r: String)
    ensures
        r@ == per_sites_text(site_counts(counts@)),
{
    let ghost models = site_counts(counts@);
    let ghost lines = models.map_values(|c: (Seq<char>, int)| per_site_text(c));
    let mut items: Vec<String> = Vec::new();
    let mut i: usize = 0;
    while i < counts.len()
        invariant
            i <= counts@.len(),
            models == site_counts(counts@),
            lines == models.map_values(|c: (Seq<char>, int)| per_site_text(c)),
            texts(items@) =~= lines.take(i as int),
        decreases counts.len() - i,
    {
        let ghost before = items@;
        items.push(per_site(&counts[i]));
        proof {
            assert(models[i as int] == site_count(counts@[i as int]));
            assert(items@.last()@ == lines[i as int]);
            assert(texts(items@) =~= texts(before).push(lines[i as int]));
            assert(lines.take(i + 1) =~= lines.take(i as int).push(lines[i as int]));
        }
        i = i + 1;
    }
    assert(lines.take(lines.len() as int) =~= lines);
    bracket("\n", items.as_slice(), "\n", "\n  ")
}

fn written(odb: Option<&str>) -> (r: String)
    ensures
        r@ == written_text(
            match odb {
                Some(p) => Some(p@),
                None => None,
            },
        ),
{
    match odb {
        Some(p) => quote(p),
        None => String::from("null"),
    }
}

fn truth(b: bool) -> (r: &'static str)
    ensures
        r@ == truth_text(b),
{
    if b {
        "true"
    } else {
        "false"
    }
}

/// The report of a plan. Written out field by field, so that it stays a stable contract even as
/// the plan's internals move.
pub fn report_json<M: Fn(i32) -> String>(
    p: &Plan,
    dbu: i32,
    um: &M,
    status: &str,
    odb_written: Option<&str>,
) -> (r: String)
    requires
        can_read(*um),
    ensures
        forall|f: spec_fn(int) -> Seq<char>| #[trigger]
            reads_as(*um, f) ==> r@ == report_text(
                p@,
                dbu as int,
                f,
                status@,
                match odb_written {
                    Some(path) => Some(path@),
                    None => None,
                },
            ),
{
    let across: i32 = if p.rows.len() > 0 {
        p.rows[0].num_sites
    } else {
        0
    };
    proof {
        assert(p@.rows.len() == p.rows@.len());
        if p.rows@.len() > 0 {
            assert(p@.rows[0] == p.rows@[0]@);
        }
    }
    let mut count: String = String::new();
    push_decimal(&mut count, p.rows.len() as u64);
    assert(count@ =~= signed_decimal(p@.rows.len() as int));
    let mut members: Vec<String> = Vec::new();
    assert(texts(members@) =~= Seq::<Seq<char>>::empty());
    push_member(&mut members, "tool", quote("vyges-ifp").as_str());
    push_member(&mut members, "status", quote(status).as_str());
    push_member(&mut members, "dbu_per_micron", number(dbu).as_str());
    push_member(&mut members, "die_area", rect_json(&p.die, um).as_str());
    push_member(&mut members, "core_area_requested", rect_json(&p.core_requested, um).as_str());
    push_member(&mut members, "core_area_snapped", rect_json(&p.core_snapped, um).as_str());
    push_member(&mut members, "core_area", rect_json(&p.core_final, um).as_str());
    push_member(&mut members, "core_was_snapped", truth(p.core_was_snapped()));
    push_member(&mut members, "rows", count.as_str());
    push_member(&mut members, "sites_per_row", number(across).as_str());
    push_member(&mut members, "rows_per_site", per_sites(p.rows_per_site.as_slice()).as_str());
    push_member(&mut members, "odb_written", written(odb_written).as_str());
    let r: String = brace("\n  ", members.as_slice(), "\n  ", "\n");
    proof {
        let odb = match odb_written {
            Some(path) => Some(path@),
            None => None,
        };
        assert forall|f: spec_fn(int) -> Seq<char>| #[trigger]
            reads_as(*um, f) implies r@ == report_text(p@, dbu as int, f, status@, odb) by {
            let values = report_values(p@, dbu as int, f, status@, odb);
            assert(texts(members@) =~= Seq::new(
                report_names().len(),
                |i: int| member(report_names()[i], values[i]),
            ));
        }
    }
    r
}

/// A rectangle in both unit systems, as a value.
pub open spec fn rect_value(a: Area, um: spec_fn(int) -> Seq<char>) -> Json {
    Json::Object(
        Map::empty().insert(
            "dbu"@,
            Json::List(
                seq![
                    Json::Number(a.x_min),
                    Json::Number(a.y_min),
                    Json::Number(a.x_max),
                    Json::Number(a.y_max),
                ],
            ),
        ).insert(
            "um"@,
            Json::List(
                seq![
                    Json::Decimal(um(a.x_min)),
                    Json::Decimal(um(a.y_min)),
                    Json::Decimal(um(a.x_max)),
                    Json::Decimal(um(a.y_max)),
                ],
            ),
        ),
    )
}

/// One site's rows, as a value.
pub open spec fn per_site_value(c: (Seq<char>, int)) -> Json {
    Json::Object(
        Map::empty().insert("site"@, Json::Text(c.0)).insert("rows"@, Json::Number(c.1)),
    )
}

/// What a report says, by name.
pub open spec fn report_members(
    p: PlanModel,
    dbu: int,
    um: spec_fn(int) -> Seq<char>,
    status: Seq<char>,
    odb: Option<Seq<char>>,
) -> Map<Seq<char>, Json> {
    Map::empty().insert("tool"@, Json::Text("vyges-ifp"@)).insert(
        "status"@,
        Json::Text(status),
    ).insert("dbu_per_micron"@, Json::Number(dbu)).insert(
        "die_area"@,
        rect_value(p.die, um),
    ).insert("core_area_requested"@, rect_value(p.core_requested, um)).insert(
        "core_area_snapped"@,
        rect_value(p.core_snapped, um),
    ).insert("core_area"@, rect_value(p.core_final, um)).insert(
        "core_was_snapped"@,
        Json::Bool(p.core_was_snapped()),
    ).insert("rows"@, Json::Number(p.rows.len() as int)).insert(
        "sites_per_row"@,
        Json::Number(sites_per_row(p)),
    ).insert(
        "rows_per_site"@,
        Json::List(p.rows_per_site.map_values(|c: (Seq<char>, int)| per_site_value(c))),
    ).insert(
        "odb_written"@,
        match odb {
            Some(path) => Json::Text(path),
            None => Json::Null,
        },
    )
}

proof fn lemma_spaces()
    ensures
        is_space(""@),
        is_space(" "@),
        is_space("    "@),
        is_space("\n"@),
        is_space("\n  "@),
{
    reveal_strlit("");
    reveal_strlit(" ");
    reveal_strlit("    ");
    reveal_strlit("\n");
    reveal_strlit("\n  ");
}

proof fn lemma_two_names(
    a: Seq<char>,
    u: Json,
    b: Seq<char>,
    v: Json,
)
    requires
        a != b,
    ensures
        are_names(seq![a, b], Map::empty().insert(a, u).insert(b, v)),
{
    let names = seq![a, b];
    assert(names[0] == a && names[1] == b);
}

proof fn lemma_two_members(a: Seq<char>, s: Seq<char>, u: Json, b: Seq<char>, t: Seq<char>, v: Json)
    requires
        a != b,
        stands_for(s, u),
        stands_for(t, v),
    ensures
        stands_for(
            braced(" "@, seq![member(a, s), member(b, t)], " "@, " "@),
            Json::Object(Map::empty().insert(a, u).insert(b, v)),
        ),
{
    let names = seq![a, b];
    let values = seq![s, t];
    lemma_spaces();
    lemma_two_names(a, u, b, v);
    law_an_object_stands_for_its_members(
        " "@,
        names,
        values,
        " "@,
        " "@,
        Map::empty().insert(a, u).insert(b, v),
    );
    assert(seq![member(a, s), member(b, t)] =~= Seq::new(
        names.len(),
        |i: int| member(names[i], values[i]),
    ));
}

proof fn lemma_rect_stands(a: Area, um: spec_fn(int) -> Seq<char>)
    requires
        forall|n: int| is_json_number(#[trigger] um(n)),
    ensures
        stands_for(rect_text(a, um), rect_value(a, um)),
{
    let dbu = seq![
        signed_decimal(a.x_min),
        signed_decimal(a.y_min),
        signed_decimal(a.x_max),
        signed_decimal(a.y_max),
    ];
    let numbers = seq![
        Json::Number(a.x_min),
        Json::Number(a.y_min),
        Json::Number(a.x_max),
        Json::Number(a.y_max),
    ];
    let in_um = seq![um(a.x_min), um(a.y_min), um(a.x_max), um(a.y_max)];
    let decimals = seq![
        Json::Decimal(um(a.x_min)),
        Json::Decimal(um(a.y_min)),
        Json::Decimal(um(a.x_max)),
        Json::Decimal(um(a.y_max)),
    ];
    law_a_whole_number_is_a_json_number(a.x_min);
    law_a_whole_number_is_a_json_number(a.y_min);
    law_a_whole_number_is_a_json_number(a.x_max);
    law_a_whole_number_is_a_json_number(a.y_max);
    assert forall|i: int| 0 <= i < 4 implies stands_for(#[trigger] in_um[i], decimals[i]) by {
        lemma_bare(in_um[i], decimals[i]);
    }
    lemma_spaces();
    law_a_list_stands_for_its_items(""@, dbu, " "@, ""@, numbers);
    law_a_list_stands_for_its_items(""@, in_um, " "@, ""@, decimals);
    reveal_strlit("dbu");
    reveal_strlit("um");
    assert("dbu"@.len() == 3 && "um"@.len() == 2);
    lemma_two_members(
        "dbu"@,
        bracketed(""@, dbu, " "@, ""@),
        Json::List(numbers),
        "um"@,
        bracketed(""@, in_um, " "@, ""@),
        Json::List(decimals),
    );
}

proof fn lemma_sites_stand(counts: Seq<(Seq<char>, int)>)
    ensures
        stands_for(
            per_sites_text(counts),
            Json::List(counts.map_values(|c: (Seq<char>, int)| per_site_value(c))),
        ),
{
    let lines = counts.map_values(|c: (Seq<char>, int)| per_site_text(c));
    let items = counts.map_values(|c: (Seq<char>, int)| per_site_value(c));
    lemma_spaces();
    assert forall|i: int| 0 <= i < items.len() implies stands_for(
        #[trigger] lines[i],
        items[i],
    ) by {
        let c = counts[i];
        let text = braced(
            " "@,
            seq![member("site"@, quoted(c.0)), member("rows"@, signed_decimal(c.1))],
            " "@,
            " "@,
        );
        law_a_quoted_text_stands_for_itself(c.0);
        law_a_whole_number_is_a_json_number(c.1);
        reveal_strlit("site");
        reveal_strlit("rows");
        assert("site"@[0] == 's' && "rows"@[0] == 'r');
        lemma_two_members(
            "site"@,
            quoted(c.0),
            Json::Text(c.0),
            "rows"@,
            signed_decimal(c.1),
            Json::Number(c.1),
        );
        law_white_space_around_a_value_does_not_matter("    "@, text, ""@, items[i]);
        reveal_strlit("");
        assert("    "@ + text + ""@ =~= lines[i]);
    }
    law_a_list_stands_for_its_items("\n"@, lines, "\n"@, "\n  "@, items);
}

/// The names in a report are all different.
pub proof fn lemma_report_names()
    ensures
        report_names().no_duplicates(),
{
    reveal_strlit("tool");
    reveal_strlit("status");
    reveal_strlit("dbu_per_micron");
    reveal_strlit("die_area");
    reveal_strlit("core_area_requested");
    reveal_strlit("core_area_snapped");
    reveal_strlit("core_area");
    reveal_strlit("core_was_snapped");
    reveal_strlit("rows");
    reveal_strlit("sites_per_row");
    reveal_strlit("rows_per_site");
    reveal_strlit("odb_written");
    let lengths = seq![4int, 6, 14, 8, 19, 17, 9, 16, 4, 13, 13, 11];
    assert forall|i: int| 0 <= i < 12 implies #[trigger] report_names()[i].len() == lengths[i] by {}
    assert("tool"@[0] == 't' && "rows"@[0] == 'r');
    assert("sites_per_row"@[0] == 's' && "rows_per_site"@[0] == 'r');
    assert forall|i: int, j: int| 0 <= i < j < 12 implies #[trigger] report_names()[i]
        != #[trigger] report_names()[j] by {
        let a = report_names()[i];
        let b = report_names()[j];
        assert(a.len() == lengths[i] && b.len() == lengths[j]);
        if lengths[i] == lengths[j] {
            assert((i == 0 && j == 8) || (i == 9 && j == 10));
            assert(a[0] != b[0]);
        }
    }
}

/// The first `n` of the values, each under its name.
spec fn members_upto(names: Seq<Seq<char>>, values: Seq<Json>, n: nat) -> Map<Seq<char>, Json>
    decreases n,
{
    if n == 0 {
        Map::empty()
    } else {
        members_upto(names, values, (n - 1) as nat).insert(names[n - 1], values[n - 1])
    }
}

proof fn lemma_members_upto(names: Seq<Seq<char>>, values: Seq<Json>, n: nat)
    requires
        names.no_duplicates(),
        n <= names.len(),
    ensures
        are_names(names.take(n as int), members_upto(names, values, n)),
        forall|i: int|
            0 <= i < n ==> members_upto(names, values, n)[#[trigger] names[i]] == values[i],
    decreases n,
{
    let upto = names.take(n as int);
    if n > 0 {
        let before = names.take(n - 1);
        let rest = members_upto(names, values, (n - 1) as nat);
        lemma_members_upto(names, values, (n - 1) as nat);
        assert forall|name: Seq<char>| #[trigger]
            members_upto(names, values, n).contains_key(name) <==> upto.contains(name) by {
            if before.contains(name) {
                let i = choose|i: int| 0 <= i < before.len() && before[i] == name;
                assert(upto[i] == name);
            }
            if name == names[n - 1] {
                assert(upto[n - 1] == name);
            }
            if upto.contains(name) {
                let i = choose|i: int| 0 <= i < upto.len() && upto[i] == name;
                if i < n - 1 {
                    assert(before[i] == name);
                }
            }
        }
    }
}

/// The values of a report, name by name.
spec fn report_jsons(
    p: PlanModel,
    dbu: int,
    um: spec_fn(int) -> Seq<char>,
    status: Seq<char>,
    odb: Option<Seq<char>>,
) -> Seq<Json> {
    seq![
        Json::Text("vyges-ifp"@),
        Json::Text(status),
        Json::Number(dbu),
        rect_value(p.die, um),
        rect_value(p.core_requested, um),
        rect_value(p.core_snapped, um),
        rect_value(p.core_final, um),
        Json::Bool(p.core_was_snapped()),
        Json::Number(p.rows.len() as int),
        Json::Number(sites_per_row(p)),
        Json::List(p.rows_per_site.map_values(|c: (Seq<char>, int)| per_site_value(c))),
        match odb {
            Some(path) => Json::Text(path),
            None => Json::Null,
        },
    ]
}

proof fn lemma_report_members(
    p: PlanModel,
    dbu: int,
    um: spec_fn(int) -> Seq<char>,
    status: Seq<char>,
    odb: Option<Seq<char>>,
)
    ensures
        are_names(report_names(), report_members(p, dbu, um, status, odb)),
        forall|i: int|
            0 <= i < 12 ==> report_members(p, dbu, um, status, odb)[#[trigger] report_names()[i]]
                == report_jsons(p, dbu, um, status, odb)[i],
{
    lemma_report_names();
    let jsons = report_jsons(p, dbu, um, status, odb);
    lemma_members_upto(report_names(), jsons, 12);
    reveal_with_fuel(members_upto, 13);
    assert(members_upto(report_names(), jsons, 12) == report_members(p, dbu, um, status, odb));
    assert(report_names().take(12) =~= report_names());
}

proof fn lemma_report_values(
    p: PlanModel,
    dbu: int,
    um: spec_fn(int) -> Seq<char>,
    status: Seq<char>,
    odb: Option<Seq<char>>,
    i: int,
)
    requires
        forall|n: int| is_json_number(#[trigger] um(n)),
        0 <= i < 12,
    ensures
        stands_for(
            report_values(p, dbu, um, status, odb)[i],
            report_jsons(p, dbu, um, status, odb)[i],
        ),
{
    if i == 0 {
        law_a_quoted_text_stands_for_itself("vyges-ifp"@);
    } else if i == 1 {
        law_a_quoted_text_stands_for_itself(status);
    } else if i == 2 {
        law_a_whole_number_is_a_json_number(dbu);
    } else if i == 3 {
        lemma_rect_stands(p.die, um);
    } else if i == 4 {
        lemma_rect_stands(p.core_requested, um);
    } else if i == 5 {
        lemma_rect_stands(p.core_snapped, um);
    } else if i == 6 {
        lemma_rect_stands(p.core_final, um);
    } else if i == 7 {
        lemma_bare(truth_text(p.core_was_snapped()), Json::Bool(p.core_was_snapped()));
    } else if i == 8 {
        law_a_whole_number_is_a_json_number(p.rows.len() as int);
    } else if i == 9 {
        law_a_whole_number_is_a_json_number(sites_per_row(p));
    } else if i == 10 {
        lemma_sites_stand(p.rows_per_site);
    } else {
        match odb {
            Some(path) => {
                law_a_quoted_text_stands_for_itself(path);
            },
            None => {
                lemma_bare("null"@, Json::Null);
            },
        }
    }
}

/// The report is JSON whatever the path, the status and the names of the sites, so long as
/// coordinates read as numbers in microns. It says what the plan says: an object with the status,
/// the areas, whether the core was snapped, the rows and their sites, and the database that was
/// written, or null.
pub proof fn law_the_report_is_json(
    p: PlanModel,
    dbu: int,
    um: spec_fn(int) -> Seq<char>,
    status: Seq<char>,
    odb: Option<Seq<char>>,
)
    requires
        forall|n: int| is_json_number(#[trigger] um(n)),
    ensures
        stands_for(
            report_text(p, dbu, um, status, odb),
            Json::Object(report_members(p, dbu, um, status, odb)),
        ),
{
    let names = report_names();
    let values = report_values(p, dbu, um, status, odb);
    let members = report_members(p, dbu, um, status, odb);
    lemma_spaces();
    lemma_report_members(p, dbu, um, status, odb);
    assert forall|i: int| 0 <= i < names.len() implies stands_for(
        #[trigger] values[i],
        members[names[i]],
    ) by {
        lemma_report_values(p, dbu, um, status, odb, i);
    }
    law_an_object_stands_for_its_members("\n  "@, names, values, "\n  "@, "\n"@, members);
}

/// What the report says of a plan, name by name: the areas as they are, in both unit systems, edge
/// by edge; that the core was snapped exactly where its lower left moved; how many rows there are,
/// how many sites the first of them has, and how many rows each site got, in their order; and the
/// database that was written, or null. It says nothing else.
pub proof fn law_what_the_report_says(
    p: PlanModel,
    dbu: int,
    um: spec_fn(int) -> Seq<char>,
    status: Seq<char>,
    odb: Option<Seq<char>>,
    i: int,
)
    ensures
        ({
            let m = report_members(p, dbu, um, status, odb);
            let from = p.core_requested;
            let to = p.core_snapped;
            &&& are_names(report_names(), m)
            &&& m["tool"@] == Json::Text("vyges-ifp"@)
            &&& m["status"@] == Json::Text(status)
            &&& m["dbu_per_micron"@] == Json::Number(dbu)
            &&& says_area(m["die_area"@], p.die, um)
            &&& says_area(m["core_area_requested"@], from, um)
            &&& says_area(m["core_area_snapped"@], to, um)
            &&& says_area(m["core_area"@], p.core_final, um)
            &&& m["core_was_snapped"@] == Json::Bool(
                from.x_min != to.x_min || from.y_min != to.y_min,
            )
            &&& m["rows"@] == Json::Number(p.rows.len() as int)
            &&& p.rows.len() > 0 ==> m["sites_per_row"@] == Json::Number(p.rows[0].num_sites)
            &&& p.rows.len() == 0 ==> m["sites_per_row"@] == Json::Number(0)
            &&& m["rows_per_site"@] matches Json::List(sites) && {
                &&& sites.len() == p.rows_per_site.len()
                &&& 0 <= i < sites.len() ==> (sites[i] matches Json::Object(s) && {
                    &&& s.dom() == set!["site"@, "rows"@]
                    &&& s["site"@] == Json::Text(p.rows_per_site[i].0)
                    &&& s["rows"@] == Json::Number(p.rows_per_site[i].1)
                })
            }
            &&& odb matches Some(path) ==> m["odb_written"@] == Json::Text(path)
            &&& odb is None ==> m["odb_written"@] == Json::Null
        }),
{
    lemma_report_members(p, dbu, um, status, odb);
    let names = report_names();
    assert(names[0] == "tool"@ && names[1] == "status"@ && names[2] == "dbu_per_micron"@);
    assert(names[3] == "die_area"@ && names[4] == "core_area_requested"@);
    assert(names[5] == "core_area_snapped"@ && names[6] == "core_area"@);
    assert(names[7] == "core_was_snapped"@ && names[8] == "rows"@);
    assert(names[9] == "sites_per_row"@ && names[10] == "rows_per_site"@);
    assert(names[11] == "odb_written"@);
    lemma_says_area(p.die, um);
    lemma_says_area(p.core_requested, um);
    lemma_says_area(p.core_snapped, um);
    lemma_says_area(p.core_final, um);
    if 0 <= i < p.rows_per_site.len() {
        reveal_strlit("site");
        reveal_strlit("rows");
        assert("site"@[0] == 's' && "rows"@[0] == 'r');
        let s = per_site_value(p.rows_per_site[i])->Object_0;
        assert(s.dom() =~= set!["site"@, "rows"@]);
    }
}

/// `v` gives the four edges of an area, in database units and in microns.
pub open spec fn says_area(v: Json, a: Area, um: spec_fn(int) -> Seq<char>) -> bool {
    v matches Json::Object(m) && {
        &&& m.dom() == set!["dbu"@, "um"@]
        &&& m["dbu"@] matches Json::List(d) && d.len() == 4 && d[0] == Json::Number(a.x_min) && d[1]
            == Json::Number(a.y_min) && d[2] == Json::Number(a.x_max) && d[3] == Json::Number(
            a.y_max,
        )
        &&& m["um"@] matches Json::List(d) && d.len() == 4 && d[0] == Json::Decimal(um(a.x_min))
            && d[1] == Json::Decimal(um(a.y_min)) && d[2] == Json::Decimal(um(a.x_max)) && d[3]
            == Json::Decimal(um(a.y_max))
    }
}

proof fn lemma_says_area(a: Area, um: spec_fn(int) -> Seq<char>)
    ensures
        says_area(rect_value(a, um), a, um),
{
    reveal_strlit("dbu");
    reveal_strlit("um");
    assert("dbu"@.len() == 3 && "um"@.len() == 2);
    let m = rect_value(a, um)->Object_0;
    assert(m.dom() =~= set!["dbu"@, "um"@]);
}

} // verus!
