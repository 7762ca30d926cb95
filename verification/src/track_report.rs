//! The report of `make-tracks`, as JSON text.

use crate::json::Json;
use crate::model::texts;
use crate::tracks::{TrackModel, TrackPattern, TrackSkip};
use crate::trackwork::{outcome_models, TrackOutcome, TrackOutcomeModel};
use vstd::prelude::*;

verus! {

/// A JSON value of `serde_json`.
#[verifier::external_type_specification]
#[verifier::external_body]
pub struct ExValue(serde_json::Value);

/// What a JSON value holds.
pub uninterp spec fn json_of(v: serde_json::Value) -> Json;

/// How `serde_json` writes a JSON value over several lines.
pub uninterp spec fn pretty_json(j: Json) -> Seq<char>;

/// What a list of JSON values holds.
pub open spec fn jsons_of(items: Seq<serde_json::Value>) -> Seq<Json> {
    items.map_values(|v: serde_json::Value| json_of(v))
}

/// What a list of named JSON values holds: each value under its name.
pub open spec fn entries_of(entries: Seq<(String, serde_json::Value)>) -> Map<Seq<char>, Json>
    decreases entries.len(),
{
    if entries.len() == 0 {
        Map::empty()
    } else {
        entries_of(entries.drop_last()).insert(entries.last().0@, json_of(entries.last().1))
    }
}

/// No name occurs twice among named JSON values.
pub open spec fn named_once(entries: Seq<(String, serde_json::Value)>) -> bool
    decreases entries.len(),
{
    entries.len() > 0 ==> named_once(entries.drop_last()) && !entries_of(
        entries.drop_last(),
    ).contains_key(entries.last().0@)
}

/// `From<i32>` of `serde_json::Value`: the number itself.
#[verifier::external_body]
fn number_value(n: i32) -> (r: serde_json::Value)
    ensures
        json_of(r) == Json::Number(n as int),
{
    serde_json::Value::from(n)
}

/// `From<usize>` of `serde_json::Value`: the number itself.
#[verifier::external_body]
fn count_value(n: usize) -> (r: serde_json::Value)
    ensures
        json_of(r) == Json::Number(n as int),
{
    serde_json::Value::from(n)
}

/// `From<&str>` of `serde_json::Value`: the text itself.
#[verifier::external_body]
fn text_value(s: &str) -> (r: serde_json::Value)
    ensures
        json_of(r) == Json::Text(s@),
{
    serde_json::Value::from(s)
}

/// `From<Vec<Value>>` of `serde_json::Value`: an array of the values in their order.
#[verifier::external_body]
fn list_value(items: Vec<serde_json::Value>) -> (r: serde_json::Value)
    ensures
        json_of(r) == Json::List(jsons_of(items@)),
{
    serde_json::Value::from(items)
}

/// `FromIterator<(String, Value)>` of `serde_json::Value`: an object that holds each value under
/// its name, where no name occurs twice.
#[verifier::external_body]
fn object_value(entries: Vec<(String, serde_json::Value)>) -> (r: serde_json::Value)
    requires
        named_once(entries@),
    ensures
        json_of(r) == Json::Object(entries_of(entries@)),
{
    serde_json::Value::from_iter(entries)
}

/// `serde_json::to_string_pretty` of a JSON value. Its keys are strings, so that writing it cannot
/// fail, and the text depends on what the value holds alone: objects keep their names sorted.
#[verifier::external_body]
fn pretty_text(v: &serde_json::Value) -> (r: String)
    ensures
        r@ == pretty_json(json_of(*v)),
{
    serde_json::to_string_pretty(v).expect("a JSON value can be written")
}

/// A track pattern.
pub open spec fn pattern_json(t: TrackModel) -> Json {
    Json::Object(
        Map::empty().insert("origin"@, Json::Number(t.origin)).insert(
            "count"@,
            Json::Number(t.count),
        ).insert("step"@, Json::Number(t.step)),
    )
}

/// A layer with tracks.
pub open spec fn made_json(layer: Seq<char>, x: TrackModel, y: TrackModel) -> Json {
    Json::Object(
        Map::empty().insert("layer"@, Json::Text(layer)).insert("x"@, pattern_json(x)).insert(
            "y"@,
            pattern_json(y),
        ),
    )
}

/// A layer without tracks, and why.
pub open spec fn skipped_json(layer: Seq<char>, why: Seq<char>) -> Json {
    Json::Object(
        Map::empty().insert("layer"@, Json::Text(layer)).insert("why"@, Json::Text(why)),
    )
}

/// Why a layer is skipped.
pub open spec fn skip_reason(axis: TrackSkip) -> Seq<char> {
    match axis {
        TrackSkip::X => "x_offset > die width (IFP-21)"@,
        TrackSkip::Y => "y_offset > die height (IFP-22)"@,
    }
}

/// The layers with tracks, in order.
pub open spec fn made_list(outcomes: Seq<TrackOutcomeModel>) -> Seq<Json>
    decreases outcomes.len(),
{
    if outcomes.len() == 0 {
        Seq::empty()
    } else {
        let before = made_list(outcomes.drop_last());
        match outcomes.last() {
            TrackOutcomeModel::Made { layer, x, y } => before.push(made_json(layer, x, y)),
            TrackOutcomeModel::Skipped { layer, axis } => before,
        }
    }
}

/// The layers without tracks: those without pitch, and behind them those that were skipped.
pub open spec fn skipped_list(
    unpitched: Seq<Seq<char>>,
    outcomes: Seq<TrackOutcomeModel>,
) -> Seq<Json>
    decreases outcomes.len(),
{
    if outcomes.len() == 0 {
        unpitched.map_values(|l: Seq<char>| skipped_json(l, "no pitch (IFP-56)"@))
    } else {
        let before = skipped_list(unpitched, outcomes.drop_last());
        match outcomes.last() {
            TrackOutcomeModel::Made { layer, x, y } => before,
            TrackOutcomeModel::Skipped { layer, axis } => before.push(
                skipped_json(layer, skip_reason(axis)),
            ),
        }
    }
}

/// The report of `make-tracks`.
pub open spec fn tracks_json(
    unpitched: Seq<Seq<char>>,
    outcomes: Seq<TrackOutcomeModel>,
    odb: Seq<char>,
) -> Json {
    Json::Object(
        Map::empty().insert("tool"@, Json::Text("vyges-ifp"@)).insert(
            "command"@,
            Json::Text("make-tracks"@),
        ).insert("status"@, Json::Text("applied"@)).insert(
            "layers"@,
            Json::Number(made_list(outcomes).len() as int),
        ).insert("tracks"@, Json::List(made_list(outcomes))).insert(
            "skipped"@,
            Json::List(skipped_list(unpitched, outcomes)),
        ).insert("odb_written"@, Json::Text(odb)),
    )
}

fn push_entry(entries: &mut Vec<(String, serde_json::Value)>, name: &str, v: serde_json::Value)
    requires
        named_once(old(entries)@),
        !entries_of(old(entries)@).contains_key(name@),
    ensures
        named_once(final(entries)@),
        entries_of(final(entries)@) == entries_of(old(entries)@).insert(name@, json_of(v)),
{
    let ghost before = entries@;
    entries.push((String::from(name), v));
    assert(entries@.drop_last() =~= before);
}

fn push_value(list: &mut Vec<serde_json::Value>, v: serde_json::Value)
    ensures
        jsons_of(final(list)@) == jsons_of(old(list)@).push(json_of(v)),
{
    let ghost before = list@;
    list.push(v);
    assert(jsons_of(list@) =~= jsons_of(before).push(json_of(v)));
}

fn pattern_value(t: TrackPattern) -> (r: serde_json::Value)
    ensures
        json_of(r) == pattern_json(t@),
{
    proof {
        reveal_strlit("origin");
        reveal_strlit("count");
        reveal_strlit("step");
        assert("origin"@.len() == 6 && "count"@.len() == 5 && "step"@.len() == 4);
    }
    let mut entries: Vec<(String, serde_json::Value)> = Vec::new();
    push_entry(&mut entries, "origin", number_value(t.origin));
    push_entry(&mut entries, "count", number_value(t.count));
    push_entry(&mut entries, "step", number_value(t.step));
    object_value(entries)
}

fn made_value(layer: &str, x: TrackPattern, y: TrackPattern) -> (r: serde_json::Value)
    ensures
        json_of(r) == made_json(layer@, x@, y@),
{
    proof {
        reveal_strlit("layer");
        reveal_strlit("x");
        reveal_strlit("y");
        assert("layer"@.len() == 5 && "x"@.len() == 1);
        assert("x"@[0] == 'x' && "y"@[0] == 'y');
    }
    let mut entries: Vec<(String, serde_json::Value)> = Vec::new();
    push_entry(&mut entries, "layer", text_value(layer));
    push_entry(&mut entries, "x", pattern_value(x));
    push_entry(&mut entries, "y", pattern_value(y));
    object_value(entries)
}

fn skipped_value(layer: &str, why: &str) -> (r: serde_json::Value)
    ensures
        json_of(r) == skipped_json(layer@, why@),
{
    proof {
        reveal_strlit("layer");
        reveal_strlit("why");
        assert("layer"@.len() == 5 && "why"@.len() == 3);
    }
    let mut entries: Vec<(String, serde_json::Value)> = Vec::new();
    push_entry(&mut entries, "layer", text_value(layer));
    push_entry(&mut entries, "why", text_value(why));
    object_value(entries)
}

fn reason(axis: TrackSkip) -> (r: &'static str)
    ensures
        r@ == skip_reason(axis),
{
    match axis {
        TrackSkip::X => "x_offset > die width (IFP-21)",
        TrackSkip::Y => "y_offset > die height (IFP-22)",
    }
}

/// The report of `make-tracks`, as a JSON value.
pub fn tracks_value(
    unpitched: &[String],
    outcomes: &[TrackOutcome],
    odb_written: &str,
) -> (r: serde_json::Value)
    ensures
        json_of(r) == tracks_json(texts(unpitched@), outcome_models(outcomes@), odb_written@),
{
    let ghost names = texts(unpitched@);
    let ghost models = outcome_models(outcomes@);
    let mut made: Vec<serde_json::Value> = Vec::new();
    let mut skipped: Vec<serde_json::Value> = Vec::new();
    let ghost first = names.map_values(|l: Seq<char>| skipped_json(l, "no pitch (IFP-56)"@));
    let mut i: usize = 0;
    while i < unpitched.len()
        invariant
            i <= unpitched@.len(),
            names == texts(unpitched@),
            first == names.map_values(|l: Seq<char>| skipped_json(l, "no pitch (IFP-56)"@)),
            jsons_of(skipped@) =~= first.take(i as int),
        decreases unpitched.len() - i,
    {
        proof {
            assert(names[i as int] == unpitched@[i as int]@);
            assert(first.take(i + 1) =~= first.take(i as int).push(first[i as int]));
        }
        push_value(&mut skipped, skipped_value(unpitched[i].as_str(), "no pitch (IFP-56)"));
        i = i + 1;
    }
    assert(first.take(first.len() as int) =~= first);
    assert(jsons_of(made@) =~= Seq::<Json>::empty());
    let mut k: usize = 0;
    while k < outcomes.len()
        invariant
            k <= outcomes@.len(),
            models == outcome_models(outcomes@),
            jsons_of(made@) == made_list(models.take(k as int)),
            jsons_of(skipped@) == skipped_list(names, models.take(k as int)),
        decreases outcomes.len() - k,
    {
        proof {
            assert(models.take(k + 1).drop_last() =~= models.take(k as int));
            assert(models.take(k + 1).last() == outcomes@[k as int]@);
        }
        match &outcomes[k] {
            TrackOutcome::Made { layer, x, y } => {
                push_value(&mut made, made_value(layer.as_str(), *x, *y));
            },
            TrackOutcome::Skipped { layer, axis } => {
                push_value(&mut skipped, skipped_value(layer.as_str(), reason(*axis)));
            },
        }
        k = k + 1;
    }
    assert(models.take(models.len() as int) =~= models);
    assert(jsons_of(made@).len() == made@.len());
    proof {
        reveal_strlit("tool");
        reveal_strlit("command");
        reveal_strlit("status");
        reveal_strlit("layers");
        reveal_strlit("tracks");
        reveal_strlit("skipped");
        reveal_strlit("odb_written");
        assert("tool"@.len() == 4 && "odb_written"@.len() == 11);
        assert("command"@.len() == 7 && "skipped"@.len() == 7);
        assert("command"@[0] == 'c' && "skipped"@[0] == 's');
        assert("status"@.len() == 6 && "layers"@.len() == 6 && "tracks"@.len() == 6);
        assert("status"@[0] == 's' && "layers"@[0] == 'l' && "tracks"@[0] == 't');
    }
    let mut entries: Vec<(String, serde_json::Value)> = Vec::new();
    push_entry(&mut entries, "tool", text_value("vyges-ifp"));
    push_entry(&mut entries, "command", text_value("make-tracks"));
    push_entry(&mut entries, "status", text_value("applied"));
    push_entry(&mut entries, "layers", count_value(made.len()));
    push_entry(&mut entries, "tracks", list_value(made));
    push_entry(&mut entries, "skipped", list_value(skipped));
    push_entry(&mut entries, "odb_written", text_value(odb_written));
    object_value(entries)
}

/// The report of `make-tracks`, over several lines like every other report.
pub fn tracks_report(
    unpitched: &[String],
    outcomes: &[TrackOutcome],
    odb_written: &str,
) -> (r: String)
    ensures
        r@ == pretty_json(
            tracks_json(texts(unpitched@), outcome_models(outcomes@), odb_written@),
        ),
{
    pretty_text(&tracks_value(unpitched, outcomes, odb_written))
}

/// A layer with tracks is reported by its name and by the origin, count and step of each axis. One
/// without is reported by its name and the reason, and nothing else stands in either.
pub proof fn law_how_a_layer_is_reported(
    layer: Seq<char>,
    x: TrackModel,
    y: TrackModel,
    why: Seq<char>,
)
    ensures
        made_json(layer, x, y) matches Json::Object(m) && {
            &&& m.dom() == set!["layer"@, "x"@, "y"@]
            &&& m["layer"@] == Json::Text(layer)
            &&& m["x"@] == pattern_json(x)
            &&& m["y"@] == pattern_json(y)
        },
        pattern_json(x) matches Json::Object(m) && {
            &&& m.dom() == set!["origin"@, "count"@, "step"@]
            &&& m["origin"@] == Json::Number(x.origin)
            &&& m["count"@] == Json::Number(x.count)
            &&& m["step"@] == Json::Number(x.step)
        },
        skipped_json(layer, why) matches Json::Object(m) && {
            &&& m.dom() == set!["layer"@, "why"@]
            &&& m["layer"@] == Json::Text(layer)
            &&& m["why"@] == Json::Text(why)
        },
{
    reveal_strlit("layer");
    reveal_strlit("x");
    reveal_strlit("y");
    reveal_strlit("why");
    reveal_strlit("origin");
    reveal_strlit("count");
    reveal_strlit("step");
    assert("layer"@.len() == 5 && "x"@.len() == 1 && "y"@.len() == 1 && "why"@.len() == 3);
    assert("x"@[0] == 'x' && "y"@[0] == 'y');
    assert("origin"@.len() == 6 && "count"@.len() == 5 && "step"@.len() == 4);
    assert(made_json(layer, x, y)->Object_0.dom() =~= set!["layer"@, "x"@, "y"@]);
    assert(pattern_json(x)->Object_0.dom() =~= set!["origin"@, "count"@, "step"@]);
    assert(skipped_json(layer, why)->Object_0.dom() =~= set!["layer"@, "why"@]);
}

/// Each outcome is reported once: a layer with tracks behind those with tracks before it, and one
/// that was skipped behind those that were skipped before it, by the axis at fault. The layers
/// without a pitch come first.
pub proof fn law_each_outcome_is_reported_once(
    unpitched: Seq<Seq<char>>,
    outcomes: Seq<TrackOutcomeModel>,
    o: TrackOutcomeModel,
    i: int,
)
    ensures
        made_list(Seq::empty()).len() == 0,
        skipped_list(unpitched, Seq::empty()).len() == unpitched.len(),
        0 <= i < unpitched.len() ==> skipped_list(unpitched, Seq::empty())[i] == skipped_json(
            unpitched[i],
            "no pitch (IFP-56)"@,
        ),
        o matches TrackOutcomeModel::Made { layer, x, y } ==> {
            &&& made_list(outcomes.push(o)) == made_list(outcomes).push(made_json(layer, x, y))
            &&& skipped_list(unpitched, outcomes.push(o)) == skipped_list(unpitched, outcomes)
        },
        o matches TrackOutcomeModel::Skipped { layer, axis } ==> {
            &&& made_list(outcomes.push(o)) == made_list(outcomes)
            &&& axis == TrackSkip::X ==> skipped_list(unpitched, outcomes.push(o)) == skipped_list(
                unpitched,
                outcomes,
            ).push(skipped_json(layer, "x_offset > die width (IFP-21)"@))
            &&& axis == TrackSkip::Y ==> skipped_list(unpitched, outcomes.push(o)) == skipped_list(
                unpitched,
                outcomes,
            ).push(skipped_json(layer, "y_offset > die height (IFP-22)"@))
        },
{
    assert(outcomes.push(o).drop_last() =~= outcomes);
}

/// The report holds the tool, the command, its status, how many layers got tracks, those layers,
/// the others, and the database that was written, each under its name and nothing else.
pub proof fn law_the_track_report_in_full(
    unpitched: Seq<Seq<char>>,
    outcomes: Seq<TrackOutcomeModel>,
    odb: Seq<char>,
)
    ensures
        tracks_json(unpitched, outcomes, odb) matches Json::Object(m) && {
            &&& m.dom() == set![
                "tool"@,
                "command"@,
                "status"@,
                "layers"@,
                "tracks"@,
                "skipped"@,
                "odb_written"@,
            ]
            &&& m["tool"@] == Json::Text("vyges-ifp"@)
            &&& m["command"@] == Json::Text("make-tracks"@)
            &&& m["status"@] == Json::Text("applied"@)
            &&& m["layers"@] == Json::Number(made_list(outcomes).len() as int)
            &&& m["tracks"@] == Json::List(made_list(outcomes))
            &&& m["skipped"@] == Json::List(skipped_list(unpitched, outcomes))
            &&& m["odb_written"@] == Json::Text(odb)
        },
{
    reveal_strlit("tool");
    reveal_strlit("command");
    reveal_strlit("status");
    reveal_strlit("layers");
    reveal_strlit("tracks");
    reveal_strlit("skipped");
    reveal_strlit("odb_written");
    assert("tool"@.len() == 4 && "odb_written"@.len() == 11);
    assert("command"@.len() == 7 && "skipped"@.len() == 7);
    assert("command"@[0] == 'c' && "skipped"@[0] == 's');
    assert("status"@.len() == 6 && "layers"@.len() == 6 && "tracks"@.len() == 6);
    assert("status"@[0] == 's' && "layers"@[0] == 'l' && "tracks"@[0] == 't');
    assert(tracks_json(unpitched, outcomes, odb)->Object_0.dom() =~= set![
        "tool"@,
        "command"@,
        "status"@,
        "layers"@,
        "tracks"@,
        "skipped"@,
        "odb_written"@,
    ]);
}

} // verus!
