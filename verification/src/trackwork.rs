//! The work of `make-tracks`: its arguments, the layers that get tracks, and what comes of them.

use crate::command::Ending;
use crate::geometry::{fits, in_range, Area, Rect};
use crate::model::texts;
use crate::notices::{about, say_about, Notice, NoticeModel, Severity};
use crate::text::{chars_of, joined, same_text};
use crate::tracks::{
    can_expand, can_pattern, layer_tracks, non_uniform_track_origins, row_tracks, stacked_origins,
    track_pattern, track_patterns, tracks_fit, tracks_on, TrackModel, TrackPattern, TrackSkip,
};
use crate::words::{is_number, reads_as_number, trim_text, trimmed};
use vstd::prelude::*;

verus! {

/// How the standard library's debug format quotes a text.
pub uninterp spec fn debug_quoted(s: Seq<char>) -> Seq<char>;

/// The standard library's debug format of a text: it depends on the text alone.
#[verifier::external_body]
fn debug_text(s: &str) -> (r: String)
    ensures
        r@ == debug_quoted(s@),
{
    format!("{s:?}")
}

/// The content of a [`TrackSpec`].
#[verifier::ext_equal]
pub struct TrackSpecModel {
    pub layer: Seq<char>,
    pub values: Seq<Seq<char>>,
}

/// One layer's tracks as given on the command line, in microns: x offset, x pitch, y offset and
/// y pitch.
#[derive(Debug)]
pub struct TrackSpec {
    pub layer: String,
    pub values: Vec<String>,
}

impl View for TrackSpec {
    type V = TrackSpecModel;

    open spec fn view(&self) -> TrackSpecModel {
        TrackSpecModel { layer: self.layer@, values: texts(self.values@) }
    }
}

/// The contents of a list of track arguments.
pub open spec fn spec_models(specs: Seq<TrackSpec>) -> Seq<TrackSpecModel> {
    specs.map_values(|s: TrackSpec| s@)
}

/// The content of [`TrackArgs`].
#[verifier::ext_equal]
pub struct TrackArgsModel {
    pub path: Option<Seq<char>>,
    pub out: Option<Seq<char>>,
    pub explicit: Seq<TrackSpecModel>,
}

/// What the arguments of `make-tracks` say.
#[derive(Debug)]
pub struct TrackArgs {
    pub path: Option<String>,
    pub out: Option<String>,
    pub explicit: Vec<TrackSpec>,
}

impl View for TrackArgs {
    type V = TrackArgsModel;

    open spec fn view(&self) -> TrackArgsModel {
        TrackArgsModel {
            path: crate::cli::text_option(self.path),
            out: crate::cli::text_option(self.out),
            explicit: spec_models(self.explicit@),
        }
    }
}

/// The content of a [`TrackUsage`].
#[verifier::ext_equal]
pub enum TrackUsageModel {
    NoOutFile,
    NoTrack,
    NoLayer,
    NotFour(Seq<char>),
    NotANumber(Seq<char>),
    UnknownOption(Seq<char>),
    NoDatabase,
}

/// What is wrong with the arguments of `make-tracks`.
#[derive(Debug)]
pub enum TrackUsage {
    NoOutFile,
    NoTrack,
    NoLayer,
    NotFour(String),
    NotANumber(String),
    UnknownOption(String),
    NoDatabase,
}

impl View for TrackUsage {
    type V = TrackUsageModel;

    open spec fn view(&self) -> TrackUsageModel {
        match *self {
            TrackUsage::NoOutFile => TrackUsageModel::NoOutFile,
            TrackUsage::NoTrack => TrackUsageModel::NoTrack,
            TrackUsage::NoLayer => TrackUsageModel::NoLayer,
            TrackUsage::NotFour(s) => TrackUsageModel::NotFour(s@),
            TrackUsage::NotANumber(s) => TrackUsageModel::NotANumber(s@),
            TrackUsage::UnknownOption(s) => TrackUsageModel::UnknownOption(s@),
            TrackUsage::NoDatabase => TrackUsageModel::NoDatabase,
        }
    }
}

impl TrackUsageModel {
    /// The sentence that explains the error.
    pub open spec fn message(self) -> Seq<char> {
        match self {
            TrackUsageModel::NoOutFile => "--out-odb needs a FILE"@,
            TrackUsageModel::NoTrack => "--track needs LAYER:xoff,xpitch,yoff,ypitch"@,
            TrackUsageModel::NoLayer => "--track wants LAYER:xoff,xpitch,yoff,ypitch"@,
            TrackUsageModel::NotFour(rest) => {
                "--track wants four values, got "@ + debug_quoted(rest)
            },
            TrackUsageModel::NotANumber(t) => "not a number: "@ + debug_quoted(t),
            TrackUsageModel::UnknownOption(a) => "unknown option "@ + a,
            TrackUsageModel::NoDatabase => "needs <design.odb>"@,
        }
    }
}

impl TrackUsage {
    /// The sentence that explains the error.
    pub fn message(&self) -> (r: String)
        ensures
            r@ == self@.message(),
    {
        match self {
            TrackUsage::NoOutFile => String::from("--out-odb needs a FILE"),
            TrackUsage::NoTrack => String::from("--track needs LAYER:xoff,xpitch,yoff,ypitch"),
            TrackUsage::NoLayer => String::from("--track wants LAYER:xoff,xpitch,yoff,ypitch"),
            TrackUsage::NotFour(rest) => joined(
                "--track wants four values, got ",
                debug_text(rest.as_str()).as_str(),
            ),
            TrackUsage::NotANumber(t) => joined(
                "not a number: ",
                debug_text(t.as_str()).as_str(),
            ),
            TrackUsage::UnknownOption(a) => joined("unknown option ", a.as_str()),
            TrackUsage::NoDatabase => String::from("needs <design.odb>"),
        }
    }
}

/// How many characters of `s` stand before its first `c`: all of them where there is none.
pub open spec fn before_first(s: Seq<char>, c: char) -> nat
    decreases s.len(),
{
    if s.len() == 0 || s[0] == c {
        0
    } else {
        1 + before_first(s.skip(1), c)
    }
}

/// The fields between commas, empty ones included.
pub open spec fn fields_of(s: Seq<char>) -> Seq<Seq<char>>
    decreases s.len(),
{
    if s.len() == 0 {
        seq![Seq::empty()]
    } else {
        let before = fields_of(s.drop_last());
        if s.last() == ',' {
            before.push(Seq::empty())
        } else {
            before.drop_last().push(before.last().push(s.last()))
        }
    }
}

proof fn lemma_before_first(s: Seq<char>, c: char, n: nat)
    requires
        n <= s.len(),
        forall|k: int| 0 <= k < n ==> #[trigger] s[k] != c,
        n == s.len() || s[n as int] == c,
    ensures
        before_first(s, c) == n,
    decreases n,
{
    if n > 0 {
        assert(s[0] != c);
        assert forall|k: int| 0 <= k < n - 1 implies #[trigger] s.skip(1)[k] != c by {
            assert(s.skip(1)[k] == s[k + 1]);
        }
        lemma_before_first(s.skip(1), c, (n - 1) as nat);
    }
}

proof fn lemma_open_field(s: Seq<char>, start: int)
    requires
        0 <= start <= s.len(),
        start == 0 || s[start - 1] == ',',
        forall|k: int| start <= k < s.len() ==> #[trigger] s[k] != ',',
    ensures
        fields_of(s) == (if start == 0 {
            Seq::<Seq<char>>::empty()
        } else {
            fields_of(s.take(start - 1))
        }).push(s.skip(start)),
    decreases s.len(),
{
    if start == s.len() {
        if start == 0 {
            assert(s.skip(0) =~= Seq::<char>::empty());
            assert(fields_of(s) =~= Seq::<Seq<char>>::empty().push(s.skip(0)));
        } else {
            assert(s.drop_last() =~= s.take(start - 1));
            assert(s.skip(start) =~= Seq::<char>::empty());
        }
    } else {
        let rest = s.drop_last();
        assert(s[s.len() - 1] != ',');
        lemma_open_field(rest, start);
        let before = fields_of(rest);
        assert(rest.skip(start).push(s.last()) =~= s.skip(start));
        if start > 0 {
            assert(rest.take(start - 1) =~= s.take(start - 1));
            assert(before.drop_last() =~= fields_of(s.take(start - 1)));
        } else {
            assert(before.drop_last() =~= Seq::<Seq<char>>::empty());
        }
    }
}

fn split_fields(s: &str) -> (r: Vec<String>)
    ensures
        texts(r@) == fields_of(s@),
{
    let chars: Vec<char> = chars_of(s);
    let mut out: Vec<String> = Vec::new();
    let mut start: usize = 0;
    let mut i: usize = 0;
    assert(texts(out@) =~= Seq::<Seq<char>>::empty());
    while i < chars.len()
        invariant
            chars@ == s@,
            start <= i <= chars@.len(),
            start == 0 || chars@[start - 1] == ',',
            forall|k: int| start <= k < i ==> #[trigger] chars@[k] != ',',
            texts(out@) == (if start == 0 {
                Seq::<Seq<char>>::empty()
            } else {
                fields_of(s@.take(start - 1))
            }),
        decreases chars.len() - i,
    {
        if chars[i] == ',' {
            let ghost upto = s@.take(i as int);
            let ghost made = out@;
            proof {
                assert forall|k: int| start <= k < upto.len() implies #[trigger] upto[k]
                    != ',' by {
                    assert(upto[k] == chars@[k]);
                }
                lemma_open_field(upto, start as int);
                if start > 0 {
                    assert(upto.take(start - 1) =~= s@.take(start - 1));
                }
            }
            out.push(s.substring_char(start, i).to_owned());
            proof {
                assert(upto.skip(start as int) =~= s@.subrange(start as int, i as int));
                assert(texts(out@) =~= texts(made).push(upto.skip(start as int)));
            }
            start = i + 1;
        }
        i = i + 1;
    }
    let ghost made = out@;
    proof {
        lemma_open_field(s@, start as int);
    }
    out.push(s.substring_char(start, i).to_owned());
    proof {
        assert(s@.skip(start as int) =~= s@.subrange(start as int, i as int));
        assert(texts(out@) =~= texts(made).push(s@.skip(start as int)));
    }
    out
}

/// The first field that is no number, white space around it aside.
pub open spec fn first_bad_field(fields: Seq<Seq<char>>) -> Option<Seq<char>>
    decreases fields.len(),
{
    if fields.len() == 0 {
        None
    } else {
        match first_bad_field(fields.drop_last()) {
            Some(f) => Some(f),
            None => if is_number(trimmed(fields.last())) {
                None
            } else {
                Some(fields.last())
            },
        }
    }
}

proof fn lemma_bad_field_stays(fields: Seq<Seq<char>>, k: int)
    requires
        0 <= k <= fields.len(),
        first_bad_field(fields.take(k)) is Some,
    ensures
        first_bad_field(fields) == first_bad_field(fields.take(k)),
    decreases fields.len() - k,
{
    if k < fields.len() {
        assert(fields.take(k + 1).drop_last() =~= fields.take(k));
        lemma_bad_field_stays(fields, k + 1);
    } else {
        assert(fields.take(k) =~= fields);
    }
}

/// One `--track` argument: a layer, a colon, and four numbers between commas.
pub open spec fn track_spec_of(s: Seq<char>) -> Result<TrackSpecModel, TrackUsageModel> {
    let n = before_first(s, ':') as int;
    if n >= s.len() {
        Err(TrackUsageModel::NoLayer)
    } else {
        let rest = s.skip(n + 1);
        let fields = fields_of(rest);
        if fields.len() != 4 {
            Err(TrackUsageModel::NotFour(rest))
        } else {
            match first_bad_field(fields) {
                Some(f) => Err(TrackUsageModel::NotANumber(f)),
                None => Ok(
                    TrackSpecModel {
                        layer: s.take(n),
                        values: fields.map_values(|f: Seq<char>| trimmed(f)),
                    },
                ),
            }
        }
    }
}

/// Reads one `--track` argument.
pub fn parse_track(s: &str) -> (r: Result<TrackSpec, TrackUsage>)
    ensures
        track_spec_of(s@) == (match r {
            Ok(t) => Ok(t@),
            Err(e) => Err(e@),
        }),
{
    let chars: Vec<char> = chars_of(s);
    let mut n: usize = 0;
    while n < chars.len() && chars[n] != ':'
        invariant
            chars@ == s@,
            n <= chars@.len(),
            forall|k: int| 0 <= k < n ==> #[trigger] chars@[k] != ':',
        ensures
            n <= chars@.len(),
            forall|k: int| 0 <= k < n ==> #[trigger] chars@[k] != ':',
            n == chars@.len() || chars@[n as int] == ':',
        decreases chars.len() - n,
    {
        n = n + 1;
    }
    proof {
        lemma_before_first(s@, ':', n as nat);
    }
    if n >= chars.len() {
        return Err(TrackUsage::NoLayer);
    }
    let rest: &str = s.substring_char(n + 1, chars.len());
    assert(rest@ =~= s@.skip(n + 1));
    let fields: Vec<String> = split_fields(rest);
    let ghost models = texts(fields@);
    if fields.len() != 4 {
        return Err(TrackUsage::NotFour(rest.to_owned()));
    }
    let ghost all = models.map_values(|f: Seq<char>| trimmed(f));
    let mut values: Vec<String> = Vec::new();
    let mut i: usize = 0;
    while i < fields.len()
        invariant
            i <= fields@.len(),
            models == texts(fields@),
            models == fields_of(s@.skip(n + 1)),
            models.len() == 4,
            n == before_first(s@, ':'),
            n < s@.len(),
            all == models.map_values(|f: Seq<char>| trimmed(f)),
            first_bad_field(models.take(i as int)) is None,
            texts(values@) =~= all.take(i as int),
        decreases fields.len() - i,
    {
        let t: String = trim_text(fields[i].as_str());
        proof {
            assert(models.take(i + 1).drop_last() =~= models.take(i as int));
            assert(models.take(i + 1).last() == fields@[i as int]@);
            assert(models[i as int] == fields@[i as int]@);
        }
        if !reads_as_number(t.as_str()) {
            proof {
                lemma_bad_field_stays(models, i + 1);
            }
            return Err(TrackUsage::NotANumber(fields[i].clone()));
        }
        let ghost made = values@;
        values.push(t);
        proof {
            assert(texts(values@) =~= texts(made).push(all[i as int]));
            assert(all.take(i + 1) =~= all.take(i as int).push(all[i as int]));
        }
        i = i + 1;
    }
    proof {
        assert(models.take(models.len() as int) =~= models);
        assert(all.take(all.len() as int) =~= all);
    }
    let layer: &str = s.substring_char(0, n);
    assert(layer@ =~= s@.take(n as int));
    Ok(TrackSpec { layer: layer.to_owned(), values })
}

/// Two dashes in front: an option.
pub open spec fn is_long_option(a: Seq<char>) -> bool {
    a.len() >= 2 && a[0] == '-' && a[1] == '-'
}

/// The arguments from `i` on, added to those read before, or the first error among them.
pub open spec fn scan_tracks(
    args: Seq<Seq<char>>,
    i: int,
    st: TrackArgsModel,
) -> Result<TrackArgsModel, TrackUsageModel>
    decreases args.len() - i,
{
    if i < 0 || i >= args.len() {
        Ok(st)
    } else if args[i] == "--out-odb"@ {
        if i + 1 >= args.len() {
            Err(TrackUsageModel::NoOutFile)
        } else {
            scan_tracks(args, i + 2, TrackArgsModel { out: Some(args[i + 1]), ..st })
        }
    } else if args[i] == "--track"@ {
        if i + 1 >= args.len() {
            Err(TrackUsageModel::NoTrack)
        } else {
            match track_spec_of(args[i + 1]) {
                Ok(t) => scan_tracks(
                    args,
                    i + 2,
                    TrackArgsModel { explicit: st.explicit.push(t), ..st },
                ),
                Err(e) => Err(e),
            }
        }
    } else if is_long_option(args[i]) {
        Err(TrackUsageModel::UnknownOption(args[i]))
    } else {
        scan_tracks(args, i + 1, TrackArgsModel { path: Some(args[i]), ..st })
    }
}

/// What the arguments of `make-tracks` say, or the first thing wrong with them.
pub open spec fn track_args_of(
    args: Seq<Seq<char>>,
) -> Result<TrackArgsModel, TrackUsageModel> {
    match scan_tracks(
        args,
        0,
        TrackArgsModel { path: None, out: None, explicit: Seq::empty() },
    ) {
        Ok(st) => if st.path is None {
            Err(TrackUsageModel::NoDatabase)
        } else {
            Ok(st)
        },
        Err(e) => Err(e),
    }
}

/// Reads the arguments of `make-tracks`. The path is always there in what is returned.
pub fn parse_track_args(args: &[String]) -> (r: Result<TrackArgs, TrackUsage>)
    ensures
        track_args_of(texts(args@)) == (match r {
            Ok(t) => Ok(t@),
            Err(e) => Err(e@),
        }),
{
    let ghost words = texts(args@);
    let ghost start = TrackArgsModel { path: None, out: None, explicit: Seq::empty() };
    let mut st: TrackArgs = TrackArgs { path: None, out: None, explicit: Vec::new() };
    assert(st@ =~= start);
    let mut i: usize = 0;
    while i < args.len()
        invariant
            i <= args@.len(),
            words == texts(args@),
            scan_tracks(words, 0, start) == scan_tracks(words, i as int, st@),
            start == (TrackArgsModel { path: None, out: None, explicit: Seq::empty() }),
        decreases args.len() - i,
    {
        let a: &str = args[i].as_str();
        assert(words[i as int] == a@);
        if same_text(a, "--out-odb") {
            if i + 1 >= args.len() {
                return Err(TrackUsage::NoOutFile);
            }
            assert(words[i + 1] == args@[i + 1]@);
            st.out = Some(args[i + 1].clone());
            i = i + 2;
        } else if same_text(a, "--track") {
            if i + 1 >= args.len() {
                return Err(TrackUsage::NoTrack);
            }
            assert(words[i + 1] == args@[i + 1]@);
            match parse_track(args[i + 1].as_str()) {
                Ok(t) => {
                    let ghost made = st.explicit@;
                    st.explicit.push(t);
                    assert(spec_models(st.explicit@) =~= spec_models(made).push(t@));
                },
                Err(e) => {
                    return Err(e);
                },
            }
            i = i + 2;
        } else {
            let chars: Vec<char> = chars_of(a);
            if chars.len() >= 2 && chars[0] == '-' && chars[1] == '-' {
                return Err(TrackUsage::UnknownOption(String::from(a)));
            }
            st.path = Some(String::from(a));
            i = i + 1;
        }
    }
    if st.path.is_none() {
        return Err(TrackUsage::NoDatabase);
    }
    Ok(st)
}

/// The content of a [`LayerInfo`].
#[verifier::ext_equal]
pub struct LayerModel {
    pub name: Seq<char>,
    pub direction: Seq<char>,
    pub layer_type: Seq<char>,
    pub routing_level: int,
    pub x_offset: int,
    pub x_pitch: int,
    pub y_offset: int,
    pub y_pitch: int,
    pub first_last_pitch: int,
}

/// What the technology says of a layer.
#[derive(Debug)]
pub struct LayerInfo {
    pub name: String,
    pub direction: String,
    pub layer_type: String,
    pub routing_level: i32,
    pub x_offset: i32,
    pub x_pitch: i32,
    pub y_offset: i32,
    pub y_pitch: i32,
    /// Not positive where the layer declares none.
    pub first_last_pitch: i32,
}

impl View for LayerInfo {
    type V = LayerModel;

    open spec fn view(&self) -> LayerModel {
        LayerModel {
            name: self.name@,
            direction: self.direction@,
            layer_type: self.layer_type@,
            routing_level: self.routing_level as int,
            x_offset: self.x_offset as int,
            x_pitch: self.x_pitch as int,
            y_offset: self.y_offset as int,
            y_pitch: self.y_pitch as int,
            first_last_pitch: self.first_last_pitch as int,
        }
    }
}

/// The contents of a list of layers.
pub open spec fn layer_models(layers: Seq<LayerInfo>) -> Seq<LayerModel> {
    layers.map_values(|l: LayerInfo| l@)
}

/// The content of a [`TrackJob`].
#[verifier::ext_equal]
pub struct TrackJobModel {
    pub layer: Seq<char>,
    pub x_offset: int,
    pub x_pitch: int,
    pub y_offset: int,
    pub y_pitch: int,
}

/// One layer's tracks to be made, in DBU.
#[derive(Debug)]
pub struct TrackJob {
    pub layer: String,
    pub x_offset: i32,
    pub x_pitch: i32,
    pub y_offset: i32,
    pub y_pitch: i32,
}

impl View for TrackJob {
    type V = TrackJobModel;

    open spec fn view(&self) -> TrackJobModel {
        TrackJobModel {
            layer: self.layer@,
            x_offset: self.x_offset as int,
            x_pitch: self.x_pitch as int,
            y_offset: self.y_offset as int,
            y_pitch: self.y_pitch as int,
        }
    }
}

/// The contents of a list of jobs.
pub open spec fn track_job_models(jobs: Seq<TrackJob>) -> Seq<TrackJobModel> {
    jobs.map_values(|j: TrackJob| j@)
}

/// The content of a [`LayerStop`].
#[verifier::ext_equal]
pub enum LayerStopModel {
    NotHorizontal(Seq<char>),
    NoCoreRow(Seq<char>),
    NoYPitch(Seq<char>),
}

/// Why a layer stops the command.
#[derive(Debug)]
pub enum LayerStop {
    /// A first and last pitch on a layer that is not horizontal.
    NotHorizontal(String),
    /// A first and last pitch without a core row to repeat on.
    NoCoreRow(String),
    /// A first and last pitch without a pitch to space the tracks by.
    NoYPitch(String),
}

impl View for LayerStop {
    type V = LayerStopModel;

    open spec fn view(&self) -> LayerStopModel {
        match *self {
            LayerStop::NotHorizontal(n) => LayerStopModel::NotHorizontal(n@),
            LayerStop::NoCoreRow(n) => LayerStopModel::NoCoreRow(n@),
            LayerStop::NoYPitch(n) => LayerStopModel::NoYPitch(n@),
        }
    }
}

impl LayerStopModel {
    /// The sentence that explains the stop.
    pub open spec fn message(self) -> Seq<char> {
        match self {
            LayerStopModel::NotHorizontal(n) => {
                "IFP-0044 Non horizontal layer "@ + n + " uses property LEF58_PITCH."@
            },
            LayerStopModel::NoCoreRow(n) => "IFP-0045 No routing Row found in layer "@ + n,
            LayerStopModel::NoYPitch(n) => {
                "layer "@ + n + " carries LEF58_PITCH but no y pitch to space its tracks by."@
            },
        }
    }
}

impl LayerStop {
    /// The sentence that explains the stop.
    pub fn message(&self) -> (r: String)
        ensures
            r@ == self@.message(),
    {
        match self {
            LayerStop::NotHorizontal(n) => {
                let mut out: String = joined("IFP-0044 Non horizontal layer ", n.as_str());
                out.append(" uses property LEF58_PITCH.");
                out
            },
            LayerStop::NoCoreRow(n) => joined("IFP-0045 No routing Row found in layer ", n.as_str()),
            LayerStop::NoYPitch(n) => {
                let mut out: String = joined("layer ", n.as_str());
                out.append(" carries LEF58_PITCH but no y pitch to space its tracks by.");
                out
            },
        }
    }
}

impl LayerModel {
    /// Tracks are made for routing layers with a routing level.
    pub open spec fn is_routing(self) -> bool {
        self.layer_type == "ROUTING"@ && self.routing_level != 0
    }

    /// The stop that a layer with a first and last pitch causes.
    pub open spec fn stop(self, core_row_height: Option<i32>) -> Option<LayerStopModel> {
        if !self.is_routing() || self.first_last_pitch <= 0 {
            None
        } else if self.direction != "HORIZONTAL"@ {
            Some(LayerStopModel::NotHorizontal(self.name))
        } else if core_row_height is None {
            Some(LayerStopModel::NoCoreRow(self.name))
        } else if self.y_pitch == 0 {
            Some(LayerStopModel::NoYPitch(self.name))
        } else {
            None
        }
    }

    /// A routing layer without pitch on an axis, for which no tracks are made. The y pitch of a
    /// layer with a first and last pitch is not tested here: such a layer repeats on the core row.
    pub open spec fn is_unpitched(self) -> bool {
        self.is_routing() && (self.x_pitch == 0 || (self.first_last_pitch <= 0 && self.y_pitch
            == 0))
    }

    /// The offsets of the patterns of a layer with a first and last pitch.
    pub open spec fn stacked(self, die_y_min: int, core_row_height: int) -> Seq<int> {
        stacked_origins(die_y_min, core_row_height, self.y_pitch, self.first_last_pitch)
    }

    /// What is to be made for a layer: one pattern as the technology gives it, or with a first
    /// and last pitch one for each offset, repeating on the height of the core row.
    pub open spec fn jobs(
        self,
        die_y_min: int,
        core_row_height: Option<i32>,
    ) -> Seq<TrackJobModel> {
        if !self.is_routing() || self.is_unpitched() {
            Seq::empty()
        } else if self.first_last_pitch > 0 {
            let height = core_row_height.unwrap() as int;
            self.stacked(die_y_min, height).map_values(
                |y: int|
                    TrackJobModel {
                        layer: self.name,
                        x_offset: self.x_offset,
                        x_pitch: self.x_pitch,
                        y_offset: y,
                        y_pitch: height,
                    },
            )
        } else {
            seq![
                TrackJobModel {
                    layer: self.name,
                    x_offset: self.x_offset,
                    x_pitch: self.x_pitch,
                    y_offset: self.y_offset,
                    y_pitch: self.y_pitch,
                },
            ]
        }
    }
}

/// The first stop among the layers.
pub open spec fn first_stop(
    layers: Seq<LayerModel>,
    core_row_height: Option<i32>,
) -> Option<LayerStopModel>
    decreases layers.len(),
{
    if layers.len() == 0 {
        None
    } else {
        match first_stop(layers.drop_last(), core_row_height) {
            Some(s) => Some(s),
            None => layers.last().stop(core_row_height),
        }
    }
}

/// What is to be made for the layers, up to the first stop.
pub open spec fn jobs_of(
    layers: Seq<LayerModel>,
    die_y_min: int,
    core_row_height: Option<i32>,
) -> Seq<TrackJobModel>
    decreases layers.len(),
{
    if layers.len() == 0 {
        Seq::empty()
    } else {
        let before = jobs_of(layers.drop_last(), die_y_min, core_row_height);
        if first_stop(layers, core_row_height) is Some {
            before
        } else {
            before + layers.last().jobs(die_y_min, core_row_height)
        }
    }
}

/// The layers without pitch, up to the first stop.
pub open spec fn unpitched_of(
    layers: Seq<LayerModel>,
    core_row_height: Option<i32>,
) -> Seq<Seq<char>>
    decreases layers.len(),
{
    if layers.len() == 0 {
        Seq::empty()
    } else {
        let before = unpitched_of(layers.drop_last(), core_row_height);
        if first_stop(layers, core_row_height) is None && layers.last().is_unpitched() {
            before.push(layers.last().name)
        } else {
            before
        }
    }
}

/// What is to be done for the technology's own layers.
#[derive(Debug)]
pub struct LayerWork {
    pub jobs: Vec<TrackJob>,
    /// The layers for which no tracks are made for want of a pitch.
    pub unpitched: Vec<String>,
    /// What stopped the command, if anything did.
    pub stop: Option<LayerStop>,
}

proof fn lemma_stop_stays(
    layers: Seq<LayerModel>,
    die_y_min: int,
    core_row_height: Option<i32>,
    k: int,
)
    requires
        0 <= k <= layers.len(),
        first_stop(layers.take(k), core_row_height) is Some,
    ensures
        first_stop(layers, core_row_height) == first_stop(layers.take(k), core_row_height),
        jobs_of(layers, die_y_min, core_row_height) == jobs_of(
            layers.take(k),
            die_y_min,
            core_row_height,
        ),
        unpitched_of(layers, core_row_height) == unpitched_of(layers.take(k), core_row_height),
    decreases layers.len() - k,
{
    if k < layers.len() {
        assert(layers.take(k + 1).drop_last() =~= layers.take(k));
        lemma_stop_stays(layers, die_y_min, core_row_height, k + 1);
    } else {
        assert(layers.take(k) =~= layers);
    }
}

/// The offsets of a layer's patterns can be written in database units.
pub open spec fn stack_fits(
    l: LayerModel,
    die_y_min: int,
    core_row_height: Option<i32>,
) -> bool {
    l.is_routing() && l.first_last_pitch > 0 && l.stop(core_row_height) is None
        && !l.is_unpitched() ==> forall|i: int|
        0 <= i < l.stacked(die_y_min, core_row_height.unwrap() as int).len() ==> fits(
            #[trigger] l.stacked(die_y_min, core_row_height.unwrap() as int)[i],
        )
}

fn push_stack(jobs: &mut Vec<TrackJob>, l: &LayerInfo, die_y_min: i32, core_row_height: i32)
    requires
        l@.is_routing(),
        l.first_last_pitch > 0,
        l.y_pitch != 0,
        l.x_pitch != 0,
        l@.direction == "HORIZONTAL"@,
        stack_fits(l@, die_y_min as int, Some(core_row_height)),
    ensures
        track_job_models(final(jobs)@) == track_job_models(old(jobs)@) + l@.jobs(
            die_y_min as int,
            Some(core_row_height),
        ),
{
    let ghost before = jobs@;
    let ghost all = l@.jobs(die_y_min as int, Some(core_row_height));
    let ghost stack = l@.stacked(die_y_min as int, core_row_height as int);
    let origins: Vec<i32> = non_uniform_track_origins(
        die_y_min,
        core_row_height,
        l.y_pitch,
        l.first_last_pitch,
    );
    assert(origins@.len() == stack.len());
    let mut i: usize = 0;
    while i < origins.len()
        invariant
            i <= origins@.len(),
            origins@.len() == stack.len(),
            stack == l@.stacked(die_y_min as int, core_row_height as int),
            crate::tracks::coordinates(origins@) == stack,
            all == l@.jobs(die_y_min as int, Some(core_row_height)),
            all.len() == stack.len(),
            l@.is_routing(),
            l.first_last_pitch > 0,
            l.y_pitch != 0,
            track_job_models(jobs@) =~= track_job_models(before) + all.take(i as int),
        decreases origins.len() - i,
    {
        let ghost made = jobs@;
        jobs.push(
            TrackJob {
                layer: l.name.clone(),
                x_offset: l.x_offset,
                x_pitch: l.x_pitch,
                y_offset: origins[i],
                y_pitch: core_row_height,
            },
        );
        proof {
            assert(stack[i as int] == origins@[i as int]);
            assert(jobs@.last()@ == all[i as int]);
            assert(track_job_models(jobs@) =~= track_job_models(made).push(all[i as int]));
            assert(all.take(i + 1) =~= all.take(i as int).push(all[i as int]));
        }
        i = i + 1;
    }
    assert(all.take(all.len() as int) =~= all);
}

/// Can the patterns of the technology's own layers be written in database units?
pub fn can_stack(layers: &[LayerInfo], die_y_min: i32, core_row_height: Option<i32>) -> (r: bool)
    ensures
        r == (forall|i: int|
            0 <= i < layers@.len() && first_stop(
                layer_models(layers@).take(i),
                core_row_height,
            ) is None ==> stack_fits(
                #[trigger] layer_models(layers@)[i],
                die_y_min as int,
                core_row_height,
            )),
{
    let ghost models = layer_models(layers@);
    let ghost y = die_y_min as int;
    let mut i: usize = 0;
    while i < layers.len()
        invariant
            i <= layers@.len(),
            models == layer_models(layers@),
            y == die_y_min,
            first_stop(models.take(i as int), core_row_height) is None,
            forall|k: int| 0 <= k < i ==> stack_fits(#[trigger] models[k], y, core_row_height),
        decreases layers.len() - i,
    {
        let l: &LayerInfo = &layers[i];
        proof {
            assert(models.take(i + 1).drop_last() =~= models.take(i as int));
            assert(models.take(i + 1).last() == l@);
            assert(models[i as int] == l@);
        }
        if same_text(l.layer_type.as_str(), "ROUTING") && l.routing_level != 0
            && l.first_last_pitch > 0 {
            match core_row_height {
                Some(h) if same_text(l.direction.as_str(), "HORIZONTAL") && l.y_pitch != 0 => {
                    if l.x_pitch != 0 && !can_expand(
                        die_y_min,
                        h,
                        l.y_pitch,
                        l.first_last_pitch,
                    ) {
                        proof {
                            let all = l@.stacked(y, h as int);
                            let k = choose|k: int| 0 <= k < all.len() && !fits(#[trigger] all[k]);
                            assert(!fits(l@.stacked(y, core_row_height.unwrap() as int)[k]));
                        }
                        return false;
                    }
                },
                _ => {
                    proof {
                        assert(first_stop(models.take(i + 1), core_row_height) is Some);
                        assert forall|k: int|
                            0 <= k < layers@.len() && first_stop(models.take(k), core_row_height)
                                is None implies stack_fits(
                            #[trigger] models[k],
                            y,
                            core_row_height,
                        ) by {
                            if k > i {
                                assert(models.take(k).take(i + 1) =~= models.take(i + 1));
                                lemma_stop_stays(models.take(k), y, core_row_height, i + 1);
                            }
                        }
                    }
                    return true;
                },
            }
        }
        i = i + 1;
    }
    true
}

/// What is to be done for the technology's own layers.
///
/// A first and last pitch is looked at before the pitches: what is wrong with it stops the command
/// even where a pitch is missing.
pub fn layer_work(
    layers: &[LayerInfo],
    die_y_min: i32,
    core_row_height: Option<i32>,
) -> (r: LayerWork)
    requires
        forall|i: int|
            0 <= i < layers@.len() && first_stop(
                layer_models(layers@).take(i),
                core_row_height,
            ) is None ==> stack_fits(
                #[trigger] layer_models(layers@)[i],
                die_y_min as int,
                core_row_height,
            ),
    ensures
        track_job_models(r.jobs@) == jobs_of(
            layer_models(layers@),
            die_y_min as int,
            core_row_height,
        ),
        texts(r.unpitched@) == unpitched_of(layer_models(layers@), core_row_height),
        first_stop(layer_models(layers@), core_row_height) == (match r.stop {
            Some(s) => Some(s@),
            None => None,
        }),
{
    let ghost models = layer_models(layers@);
    let ghost y = die_y_min as int;
    let mut jobs: Vec<TrackJob> = Vec::new();
    let mut unpitched: Vec<String> = Vec::new();
    let mut i: usize = 0;
    assert(track_job_models(jobs@) =~= Seq::<TrackJobModel>::empty());
    assert(texts(unpitched@) =~= Seq::<Seq<char>>::empty());
    while i < layers.len()
        invariant
            i <= layers@.len(),
            models == layer_models(layers@),
            y == die_y_min,
            forall|i: int|
                0 <= i < layers@.len() && first_stop(models.take(i), core_row_height) is None
                    ==> stack_fits(#[trigger] models[i], y, core_row_height),
            first_stop(models.take(i as int), core_row_height) is None,
            track_job_models(jobs@) == jobs_of(models.take(i as int), y, core_row_height),
            texts(unpitched@) == unpitched_of(models.take(i as int), core_row_height),
        decreases layers.len() - i,
    {
        let l: &LayerInfo = &layers[i];
        let ghost upto = models.take(i + 1);
        proof {
            assert(upto.drop_last() =~= models.take(i as int));
            assert(upto.last() == l@);
            assert(models[i as int] == l@);
        }
        let ghost made = jobs@;
        let ghost listed = unpitched@;
        if same_text(l.layer_type.as_str(), "ROUTING") && l.routing_level != 0 {
            if l.first_last_pitch > 0 {
                let mut stop: Option<LayerStop> = None;
                if !same_text(l.direction.as_str(), "HORIZONTAL") {
                    stop = Some(LayerStop::NotHorizontal(l.name.clone()));
                } else {
                    match core_row_height {
                        None => {
                            stop = Some(LayerStop::NoCoreRow(l.name.clone()));
                        },
                        Some(h) => {
                            if l.y_pitch == 0 {
                                stop = Some(LayerStop::NoYPitch(l.name.clone()));
                            } else if l.x_pitch == 0 {
                                unpitched.push(l.name.clone());
                                assert(texts(unpitched@) =~= texts(listed).push(l@.name));
                                assert(track_job_models(jobs@) =~= track_job_models(made) + Seq::<
                                    TrackJobModel,
                                >::empty());
                            } else {
                                push_stack(&mut jobs, l, die_y_min, h);
                            }
                        },
                    }
                }
                if stop.is_some() {
                    proof {
                        lemma_stop_stays(models, y, core_row_height, i + 1);
                    }
                    return LayerWork { jobs, unpitched, stop };
                }
            } else if l.x_pitch == 0 || l.y_pitch == 0 {
                unpitched.push(l.name.clone());
                assert(texts(unpitched@) =~= texts(listed).push(l@.name));
                assert(track_job_models(jobs@) =~= track_job_models(made) + Seq::<
                    TrackJobModel,
                >::empty());
            } else {
                jobs.push(
                    TrackJob {
                        layer: l.name.clone(),
                        x_offset: l.x_offset,
                        x_pitch: l.x_pitch,
                        y_offset: l.y_offset,
                        y_pitch: l.y_pitch,
                    },
                );
                assert(track_job_models(jobs@) =~= track_job_models(made) + l@.jobs(
                    y,
                    core_row_height,
                ));
            }
        } else {
            assert(track_job_models(jobs@) =~= track_job_models(made) + Seq::<
                TrackJobModel,
            >::empty());
        }
        i = i + 1;
    }
    assert(models.take(models.len() as int) =~= models);
    LayerWork { jobs, unpitched, stop: None }
}

/// A layer with a first and last pitch gets one pattern more than tracks lie in a cell row. Every
/// one of them repeats on the height of the core row, and their x axes are all the same.
pub proof fn law_a_stack_repeats_on_the_core_row(
    l: LayerModel,
    die_y_min: int,
    core_row_height: i32,
    i: int,
)
    requires
        l.is_routing(),
        l.first_last_pitch > 0,
        l.stop(Some(core_row_height)) is None,
        0 <= i < l.jobs(die_y_min, Some(core_row_height)).len(),
    ensures
        ({
            let jobs = l.jobs(die_y_min, Some(core_row_height));
            &&& jobs.len() == row_tracks(core_row_height as int, l.y_pitch, l.first_last_pitch) + 1
            &&& jobs[i].layer == l.name
            &&& jobs[i].x_offset == l.x_offset && jobs[i].x_pitch == l.x_pitch
            &&& jobs[i].y_offset == l.stacked(die_y_min, core_row_height as int)[i]
            &&& jobs[i].y_pitch == core_row_height
        }),
{
}

/// Where nothing stops the command, every routing layer is either without a pitch and listed as
/// such, or has something to be made for it; a layer that is not for routing has neither.
pub proof fn law_every_routing_layer_is_accounted_for(
    layers: Seq<LayerModel>,
    die_y_min: int,
    core_row_height: Option<i32>,
    i: int,
)
    requires
        0 <= i < layers.len(),
        first_stop(layers, core_row_height) is None,
    ensures
        ({
            let l = layers[i];
            &&& l.is_unpitched() ==> unpitched_of(
                layers,
                core_row_height,
            ).contains(l.name)
            &&& l.is_routing() && !l.is_unpitched() ==> exists|k: int|
                0 <= k < jobs_of(layers, die_y_min, core_row_height).len() && (
                #[trigger] jobs_of(layers, die_y_min, core_row_height)[k]).layer == l.name
            &&& !l.is_routing() ==> !l.is_unpitched() && l.jobs(
                die_y_min,
                core_row_height,
            ) == Seq::<TrackJobModel>::empty()
        }),
    decreases layers.len(),
{
    let rest = layers.drop_last();
    let last = layers.last();
    let listed = unpitched_of(rest, core_row_height);
    let before = jobs_of(rest, die_y_min, core_row_height);
    let made = last.jobs(die_y_min, core_row_height);
    let all = jobs_of(layers, die_y_min, core_row_height);
    let names = unpitched_of(layers, core_row_height);
    let l = layers[i];
    if i < rest.len() {
        law_every_routing_layer_is_accounted_for(rest, die_y_min, core_row_height, i);
        assert(rest[i] == l);
        if l.is_unpitched() {
            let k = choose|k: int| 0 <= k < listed.len() && listed[k] == l.name;
            assert(names[k] == l.name);
        } else if l.is_routing() {
            let k = choose|k: int| 0 <= k < before.len() && (#[trigger] before[k]).layer == l.name;
            assert(all[k] == before[k]);
        }
    } else if l.is_unpitched() {
        assert(names[listed.len() as int] == l.name);
    } else if l.is_routing() {
        assert(made.len() > 0);
        assert(all[before.len() as int] == made[0]);
    }
}

/// A job has a pitch on both axes.
pub open spec fn is_pitched(j: TrackJobModel) -> bool {
    j.x_pitch != 0 && j.y_pitch != 0
}

/// The layers of the jobs without a pitch on both axes, in order.
pub open spec fn unpitched_layers(jobs: Seq<TrackJobModel>) -> Seq<Seq<char>> {
    jobs.filter(|j: TrackJobModel| !is_pitched(j)).map_values(|j: TrackJobModel| j.layer)
}

/// What is to be done for the layers given by hand: those with a pitch on both axes are to be made
/// and the others are listed, each in their order.
pub fn explicit_work(jobs: Vec<TrackJob>) -> (r: LayerWork)
    ensures
        track_job_models(r.jobs@) == track_job_models(jobs@).filter(
            |j: TrackJobModel| is_pitched(j),
        ),
        texts(r.unpitched@) == unpitched_layers(track_job_models(jobs@)),
        r.stop is None,
{
    let ghost models = track_job_models(jobs@);
    let ghost pitched = |j: TrackJobModel| is_pitched(j);
    let ghost bare = |j: TrackJobModel| !is_pitched(j);
    let mut made: Vec<TrackJob> = Vec::new();
    let mut unpitched: Vec<String> = Vec::new();
    assert(track_job_models(made@) =~= models.take(0).filter(pitched)) by {
        reveal(Seq::filter);
    }
    assert(texts(unpitched@) =~= unpitched_layers(models.take(0))) by {
        reveal(Seq::filter);
    }
    let mut i: usize = 0;
    while i < jobs.len()
        invariant
            i <= jobs@.len(),
            models == track_job_models(jobs@),
            pitched == (|j: TrackJobModel| is_pitched(j)),
            bare == (|j: TrackJobModel| !is_pitched(j)),
            track_job_models(made@) == models.take(i as int).filter(pitched),
            texts(unpitched@) == unpitched_layers(models.take(i as int)),
        decreases jobs.len() - i,
    {
        let j: &TrackJob = &jobs[i];
        let ghost upto = models.take(i + 1);
        let ghost made_before = made@;
        let ghost listed = unpitched@;
        proof {
            assert(upto.drop_last() =~= models.take(i as int));
            assert(upto.last() == j@);
            reveal(Seq::filter);
        }
        if j.x_pitch != 0 && j.y_pitch != 0 {
            made.push(
                TrackJob {
                    layer: j.layer.clone(),
                    x_offset: j.x_offset,
                    x_pitch: j.x_pitch,
                    y_offset: j.y_offset,
                    y_pitch: j.y_pitch,
                },
            );
            assert(made@.last()@ == j@);
            assert(track_job_models(made@) =~= track_job_models(made_before).push(j@));
        } else {
            unpitched.push(j.layer.clone());
            assert(texts(unpitched@) =~= texts(listed).push(j@.layer));
            assert(unpitched_layers(upto) =~= unpitched_layers(models.take(i as int)).push(
                j@.layer,
            ));
        }
        i = i + 1;
    }
    assert(models.take(models.len() as int) =~= models);
    LayerWork { jobs: made, unpitched, stop: None }
}

impl LayerWork {
    /// Something stopped the command, or there is nothing to make.
    pub open spec fn is_refused(self) -> bool {
        self.stop is Some || self.jobs@.len() == 0
    }
}

/// How `make-tracks` ends before anything is made, if it does: it refuses where something stopped
/// it, and where there is nothing to make.
pub fn tracks_ending(work: &LayerWork) -> (r: Option<Ending>)
    ensures
        r == (if work.is_refused() {
            Some(Ending::Refused)
        } else {
            None
        }),
{
    if work.stop.is_some() || work.jobs.len() == 0 {
        Some(Ending::Refused)
    } else {
        None
    }
}

/// The sentence that explains why `make-tracks` refuses, where it does. What stopped it is said
/// rather than that there is nothing to make.
pub fn tracks_refusal(work: &LayerWork) -> (r: Option<String>)
    ensures
        r is Some <==> work.is_refused(),
        r matches Some(text) ==> text@ == (match work.stop {
            Some(stop) => stop@.message(),
            None => "no routing layer produced a track pattern."@,
        }),
{
    match &work.stop {
        Some(stop) => Some(stop.message()),
        None => if work.jobs.len() == 0 {
            Some(String::from("no routing layer produced a track pattern."))
        } else {
            None
        },
    }
}

/// Where nothing stops the command, there is nothing to make of the technology's own layers exactly
/// where none of them is a routing layer with a pitch.
pub proof fn law_nothing_is_made_only_where_no_layer_has_a_pitch(
    layers: Seq<LayerModel>,
    die_y_min: int,
    core_row_height: Option<i32>,
)
    requires
        first_stop(layers, core_row_height) is None,
    ensures
        jobs_of(layers, die_y_min, core_row_height).len() == 0 <==> forall|i: int|
            0 <= i < layers.len() ==> !(#[trigger] layers[i]).is_routing()
                || layers[i].is_unpitched(),
    decreases layers.len(),
{
    if layers.len() > 0 {
        let rest = layers.drop_last();
        let last = layers.last();
        law_nothing_is_made_only_where_no_layer_has_a_pitch(rest, die_y_min, core_row_height);
        assert(layers[layers.len() - 1] == last);
        assert(last.is_routing() && !last.is_unpitched() ==> last.jobs(
            die_y_min,
            core_row_height,
        ).len() > 0);
        assert forall|i: int| 0 <= i < rest.len() implies rest[i] == #[trigger] layers[i] by {}
        if exists|i: int|
            0 <= i < rest.len() && (#[trigger] rest[i]).is_routing() && !rest[i].is_unpitched() {
            let i = choose|i: int|
                0 <= i < rest.len() && (#[trigger] rest[i]).is_routing()
                    && !rest[i].is_unpitched();
            assert(layers[i] == rest[i]);
        }
    }
}

/// Whatever is to be made for the technology's own layers has a pitch on both axes, so long as the
/// core row has a height for a first and last pitch to repeat on. On the x axis it has one anyway.
pub proof fn law_every_job_has_a_pitch(
    layers: Seq<LayerModel>,
    die_y_min: int,
    core_row_height: Option<i32>,
    k: int,
)
    requires
        0 <= k < jobs_of(layers, die_y_min, core_row_height).len(),
    ensures
        jobs_of(layers, die_y_min, core_row_height)[k].x_pitch != 0,
        core_row_height != Some(0i32) ==> is_pitched(
            jobs_of(layers, die_y_min, core_row_height)[k],
        ),
    decreases layers.len(),
{
    let before = jobs_of(layers.drop_last(), die_y_min, core_row_height);
    if k < before.len() {
        law_every_job_has_a_pitch(layers.drop_last(), die_y_min, core_row_height, k);
    } else {
        let made = layers.last().jobs(die_y_min, core_row_height);
        assert(jobs_of(layers, die_y_min, core_row_height)[k] == made[k - before.len()]);
    }
}

/// The height of the first row whose site is of class `CORE`.
pub open spec fn first_core_height(rows: Seq<(Seq<char>, int)>) -> Option<int>
    decreases rows.len(),
{
    if rows.len() == 0 {
        None
    } else {
        match first_core_height(rows.drop_last()) {
            Some(h) => Some(h),
            None => if rows.last().0 == "CORE"@ {
                Some(rows.last().1)
            } else {
                None
            },
        }
    }
}

/// The class and height of each row's site.
pub open spec fn classed_models(rows: Seq<(String, i32)>) -> Seq<(Seq<char>, int)> {
    rows.map_values(|r: (String, i32)| (r.0@, r.1 as int))
}

proof fn lemma_core_height_stays(rows: Seq<(Seq<char>, int)>, k: int)
    requires
        0 <= k <= rows.len(),
        first_core_height(rows.take(k)) is Some,
    ensures
        first_core_height(rows) == first_core_height(rows.take(k)),
    decreases rows.len() - k,
{
    if k < rows.len() {
        assert(rows.take(k + 1).drop_last() =~= rows.take(k));
        lemma_core_height_stays(rows, k + 1);
    } else {
        assert(rows.take(k) =~= rows);
    }
}

/// The height of the first row whose site is of class `CORE`, from each row's class and height.
pub fn find_core_height(rows: &[(String, i32)]) -> (r: Option<i32>)
    ensures
        first_core_height(classed_models(rows@)) == (match r {
            Some(h) => Some(h as int),
            None => None,
        }),
{
    let ghost models = classed_models(rows@);
    let mut i: usize = 0;
    while i < rows.len()
        invariant
            i <= rows@.len(),
            models == classed_models(rows@),
            first_core_height(models.take(i as int)) is None,
        decreases rows.len() - i,
    {
        proof {
            assert(models.take(i + 1).drop_last() =~= models.take(i as int));
            assert(models.take(i + 1).last() == (rows@[i as int].0@, rows@[i as int].1 as int));
        }
        if same_text(rows[i].0.as_str(), "CORE") {
            proof {
                lemma_core_height_stays(models, i + 1);
            }
            return Some(rows[i].1);
        }
        i = i + 1;
    }
    assert(models.take(models.len() as int) =~= models);
    None
}

/// The content of a [`TrackOutcome`].
#[verifier::ext_equal]
pub enum TrackOutcomeModel {
    Made { layer: Seq<char>, x: TrackModel, y: TrackModel },
    Skipped { layer: Seq<char>, axis: TrackSkip },
}

/// What comes of a job: tracks on both axes, or on none.
#[derive(Debug)]
pub enum TrackOutcome {
    Made { layer: String, x: TrackPattern, y: TrackPattern },
    Skipped { layer: String, axis: TrackSkip },
}

impl View for TrackOutcome {
    type V = TrackOutcomeModel;

    open spec fn view(&self) -> TrackOutcomeModel {
        match *self {
            TrackOutcome::Made { layer, x, y } => TrackOutcomeModel::Made {
                layer: layer@,
                x: x@,
                y: y@,
            },
            TrackOutcome::Skipped { layer, axis } => TrackOutcomeModel::Skipped {
                layer: layer@,
                axis,
            },
        }
    }
}

/// The contents of a list of outcomes.
pub open spec fn outcome_models(outcomes: Seq<TrackOutcome>) -> Seq<TrackOutcomeModel> {
    outcomes.map_values(|o: TrackOutcome| o@)
}

/// The x axis of a job on the die.
pub open spec fn x_tracks(j: TrackJobModel, min_width: int, die: Area) -> Option<TrackModel> {
    tracks_on(die.x_min, die.dx(), j.x_offset, j.x_pitch, min_width)
}

/// The y axis of a job on the die.
pub open spec fn y_tracks(j: TrackJobModel, min_width: int, die: Area) -> Option<TrackModel> {
    tracks_on(die.y_min, die.dy(), j.y_offset, j.y_pitch, min_width)
}

/// Can the tracks of a job be written in database units, with a pitch wherever one is counted by?
pub fn can_track(job: &TrackJob, min_width: i32, die: Rect) -> (r: bool)
    ensures
        r == (fits(die@.dx()) && fits(die@.dy()) && job_fits(job@, min_width as int, die@)),
{
    if !in_range(die.wide_dx()) || !in_range(die.wide_dy()) {
        return false;
    }
    if !can_pattern(die.x_min, die.dx(), job.x_offset, job.x_pitch, min_width) {
        return false;
    }
    track_pattern(die.x_min, die.dx(), job.x_offset, job.x_pitch, min_width).is_none()
        || can_pattern(die.y_min, die.dy(), job.y_offset, job.y_pitch, min_width)
}

/// What comes of a job on a layer whose wires are at least `min_width` wide.
pub open spec fn outcome_of(j: TrackJobModel, min_width: int, die: Area) -> TrackOutcomeModel {
    match layer_tracks(x_tracks(j, min_width, die), y_tracks(j, min_width, die)) {
        Ok((x, y)) => TrackOutcomeModel::Made { layer: j.layer, x, y },
        Err(axis) => TrackOutcomeModel::Skipped { layer: j.layer, axis },
    }
}

/// The tracks of a job can be written in database units.
pub open spec fn job_fits(j: TrackJobModel, min_width: int, die: Area) -> bool {
    &&& tracks_fit(die.x_min, die.dx(), j.x_offset, j.x_pitch, min_width)
    &&& x_tracks(j, min_width, die) is Some ==> tracks_fit(
        die.y_min,
        die.dy(),
        j.y_offset,
        j.y_pitch,
        min_width,
    )
}

/// What comes of a job on a layer whose wires are at least `min_width` wide.
pub fn make_track(job: &TrackJob, min_width: i32, die: Rect) -> (r: TrackOutcome)
    requires
        fits(die@.dx()),
        fits(die@.dy()),
        job_fits(job@, min_width as int, die@),
    ensures
        r@ == outcome_of(job@, min_width as int, die@),
{
    match track_patterns(
        die.x_min,
        die.dx(),
        die.y_min,
        die.dy(),
        job.x_offset,
        job.x_pitch,
        job.y_offset,
        job.y_pitch,
        min_width,
    ) {
        Ok((x, y)) => TrackOutcome::Made { layer: job.layer.clone(), x, y },
        Err(axis) => TrackOutcome::Skipped { layer: job.layer.clone(), axis },
    }
}

/// What is said of a layer without pitch.
pub open spec fn no_pitch_notice(layer: Seq<char>) -> NoticeModel {
    about(
        Severity::Warn,
        "IFP-TRACK-NO-PITCH"@,
        "IFP-0056 No pitch found layer "@ + layer + " so no tracks will be generated."@,
        "layer:"@ + layer,
    )
}

/// What is said of a layer without pitch.
pub fn say_no_pitch(layer: &str) -> (r: Notice)
    ensures
        r@ == no_pitch_notice(layer@),
{
    let mut out: String = joined("IFP-0056 No pitch found layer ", layer);
    out.append(" so no tracks will be generated.");
    say_about(Severity::Warn, "IFP-TRACK-NO-PITCH", out, "layer:", layer)
}

/// What is said of a layer that is skipped.
pub open spec fn skip_notice(layer: Seq<char>, axis: TrackSkip) -> NoticeModel {
    match axis {
        TrackSkip::X => about(
            Severity::Warn,
            "IFP-TRACK-SKIP-X"@,
            "IFP-0021 Track pattern for "@ + layer
                + " will be skipped due to x_offset > die width."@,
            "layer:"@ + layer,
        ),
        TrackSkip::Y => about(
            Severity::Warn,
            "IFP-TRACK-SKIP-Y"@,
            "IFP-0022 Track pattern for "@ + layer
                + " will be skipped due to y_offset > die height."@,
            "layer:"@ + layer,
        ),
    }
}

/// What is said of a layer that is skipped.
pub fn say_skip(layer: &str, axis: TrackSkip) -> (r: Notice)
    ensures
        r@ == skip_notice(layer@, axis),
{
    match axis {
        TrackSkip::X => {
            let mut out: String = joined("IFP-0021 Track pattern for ", layer);
            out.append(" will be skipped due to x_offset > die width.");
            say_about(Severity::Warn, "IFP-TRACK-SKIP-X", out, "layer:", layer)
        },
        TrackSkip::Y => {
            let mut out: String = joined("IFP-0022 Track pattern for ", layer);
            out.append(" will be skipped due to y_offset > die height.");
            say_about(Severity::Warn, "IFP-TRACK-SKIP-Y", out, "layer:", layer)
        },
    }
}

/// A comma parts the fields before it from those behind it, and a text without a comma is one
/// field: this settles the fields of every text.
pub proof fn law_a_comma_parts_the_fields(a: Seq<char>, b: Seq<char>)
    ensures
        (forall|k: int| 0 <= k < a.len() ==> #[trigger] a[k] != ',') ==> fields_of(a) == seq![a],
        fields_of(a.push(',') + b) == fields_of(a) + fields_of(b),
        fields_of(a).len() > 0,
    decreases b.len(),
{
    lemma_a_field(a);
    if forall|k: int| 0 <= k < a.len() ==> #[trigger] a[k] != ',' {
        lemma_open_field(a, 0);
        assert(a.skip(0) =~= a);
        assert(fields_of(a) =~= seq![a]);
    }
    let whole = a.push(',') + b;
    if b.len() == 0 {
        assert(whole =~= a.push(','));
        assert(whole.drop_last() =~= a);
        assert(fields_of(a).push(Seq::empty()) =~= fields_of(a) + fields_of(b));
    } else {
        let rest = b.drop_last();
        law_a_comma_parts_the_fields(a, rest);
        lemma_a_field(rest);
        assert(whole.drop_last() =~= a.push(',') + rest);
        let head = fields_of(a);
        let tail = fields_of(rest);
        if b.last() == ',' {
            assert((head + tail).push(Seq::empty()) =~= head + tail.push(Seq::empty()));
        } else {
            assert((head + tail).drop_last().push((head + tail).last().push(b.last())) =~= head
                + tail.drop_last().push(tail.last().push(b.last())));
        }
    }
}

proof fn lemma_a_field(s: Seq<char>)
    ensures
        fields_of(s).len() > 0,
    decreases s.len(),
{
    if s.len() > 0 {
        lemma_a_field(s.drop_last());
    }
}

proof fn lemma_good_fields(fields: Seq<Seq<char>>, k: int)
    requires
        0 <= k <= fields.len(),
        forall|i: int| 0 <= i < k ==> is_number(trimmed(#[trigger] fields[i])),
    ensures
        first_bad_field(fields.take(k)) is None,
    decreases k,
{
    if k > 0 {
        lemma_good_fields(fields, k - 1);
        assert(fields.take(k).drop_last() =~= fields.take(k - 1));
        assert(fields.take(k).last() == fields[k - 1]);
    }
}

/// A track argument names its layer before the first colon. Behind it stand four numbers between
/// commas, white space around them aside, and they are kept in their order. What is wrong is said
/// of the argument, of what stands behind the colon, or of the first field that is no number.
pub proof fn law_a_track_argument_is_a_layer_and_four_numbers(
    layer: Seq<char>,
    rest: Seq<char>,
    k: int,
)
    requires
        forall|i: int| 0 <= i < layer.len() ==> #[trigger] layer[i] != ':',
    ensures
        track_spec_of(layer) == Err::<TrackSpecModel, _>(TrackUsageModel::NoLayer),
        ({
            let r = track_spec_of(layer.push(':') + rest);
            let fields = fields_of(rest);
            &&& fields.len() != 4 ==> r == Err::<TrackSpecModel, _>(TrackUsageModel::NotFour(rest))
            &&& fields.len() == 4 && 0 <= k < 4 && !is_number(trimmed(fields[k])) && (forall|i: int|
                0 <= i < k ==> is_number(trimmed(#[trigger] fields[i]))) ==> r == Err::<
                TrackSpecModel,
                _,
            >(TrackUsageModel::NotANumber(fields[k]))
            &&& fields.len() == 4 && (forall|i: int|
                0 <= i < 4 ==> is_number(trimmed(#[trigger] fields[i]))) ==> (r matches Ok(t) && {
                &&& t.layer == layer
                &&& t.values.len() == 4
                &&& forall|i: int| 0 <= i < 4 ==> #[trigger] t.values[i] == trimmed(fields[i])
            })
        }),
{
    let s = layer.push(':') + rest;
    let n = layer.len();
    lemma_before_first(layer, ':', n);
    assert forall|i: int| 0 <= i < n implies #[trigger] s[i] != ':' by {
        assert(s[i] == layer[i]);
    }
    lemma_before_first(s, ':', n);
    assert(s.skip(n as int + 1) =~= rest);
    assert(s.take(n as int) =~= layer);
    let fields = fields_of(rest);
    if fields.len() == 4 && 0 <= k < 4 && !is_number(trimmed(fields[k])) && (forall|i: int|
        0 <= i < k ==> is_number(trimmed(#[trigger] fields[i]))) {
        lemma_good_fields(fields, k);
        assert(fields.take(k + 1).drop_last() =~= fields.take(k));
        assert(fields.take(k + 1).last() == fields[k]);
        lemma_bad_field_stays(fields, k + 1);
    }
    if fields.len() == 4 && (forall|i: int|
        0 <= i < 4 ==> is_number(trimmed(#[trigger] fields[i]))) {
        lemma_good_fields(fields, 4);
        assert(fields.take(4) =~= fields);
    }
}

/// What is read of `args`, with nothing given before.
pub open spec fn track_settings(args: Seq<Seq<char>>) -> Result<TrackArgsModel, TrackUsageModel> {
    scan_tracks(args, 0, TrackArgsModel { path: None, out: None, explicit: Seq::empty() })
}

proof fn lemma_scan_tracks_goes_on(
    args: Seq<Seq<char>>,
    more: Seq<Seq<char>>,
    i: int,
    st: TrackArgsModel,
)
    requires
        0 <= i <= args.len(),
    ensures
        scan_tracks(args, i, st) matches Ok(end) ==> scan_tracks(args + more, i, st)
            == scan_tracks(args + more, args.len() as int, end),
    decreases args.len() - i,
{
    let all = args + more;
    if i < args.len() {
        assert(all[i] == args[i]);
        if args[i] == "--out-odb"@ {
            if i + 1 < args.len() {
                assert(all[i + 1] == args[i + 1]);
                lemma_scan_tracks_goes_on(
                    args,
                    more,
                    i + 2,
                    TrackArgsModel { out: Some(args[i + 1]), ..st },
                );
            }
        } else if args[i] == "--track"@ {
            if i + 1 < args.len() {
                assert(all[i + 1] == args[i + 1]);
                match track_spec_of(args[i + 1]) {
                    Ok(t) => {
                        lemma_scan_tracks_goes_on(
                            args,
                            more,
                            i + 2,
                            TrackArgsModel { explicit: st.explicit.push(t), ..st },
                        );
                    },
                    Err(_) => {},
                }
            }
        } else if !is_long_option(args[i]) {
            lemma_scan_tracks_goes_on(
                args,
                more,
                i + 1,
                TrackArgsModel { path: Some(args[i]), ..st },
            );
        }
    }
}

/// What one more argument changes: `--out-odb` sets the file to write and `--track` adds a layer
/// behind those given before, each with the argument that follows and needs it; an argument without
/// two dashes in front names the database, and any other option is unknown. A database must have
/// been named.
pub proof fn law_what_an_argument_of_make_tracks_sets(
    args: Seq<Seq<char>>,
    st: TrackArgsModel,
    a: Seq<char>,
    v: Seq<char>,
)
    requires
        track_settings(args) == Ok::<_, TrackUsageModel>(st),
    ensures
        track_settings(Seq::empty()) == Ok::<_, TrackUsageModel>(
            (TrackArgsModel { path: None, out: None, explicit: Seq::empty() }),
        ),
        st.path is None <==> track_args_of(args) == Err::<TrackArgsModel, _>(
            TrackUsageModel::NoDatabase,
        ),
        st.path is Some <==> track_args_of(args) == Ok::<_, TrackUsageModel>(st),
        track_settings(args + seq!["--out-odb"@, v]) == Ok::<_, TrackUsageModel>(
            (TrackArgsModel { out: Some(v), ..st }),
        ),
        track_settings(args.push("--out-odb"@)) == Err::<TrackArgsModel, _>(
            TrackUsageModel::NoOutFile,
        ),
        track_spec_of(v) matches Ok(t) ==> track_settings(args + seq!["--track"@, v]) == Ok::<
            _,
            TrackUsageModel,
        >((TrackArgsModel { explicit: st.explicit.push(t), ..st })),
        track_spec_of(v) matches Err(e) ==> track_settings(args + seq!["--track"@, v]) == Err::<
            TrackArgsModel,
            _,
        >(e),
        track_settings(args.push("--track"@)) == Err::<TrackArgsModel, _>(TrackUsageModel::NoTrack),
        a != "--out-odb"@ && a != "--track"@ && a.len() >= 2 && a[0] == '-' && a[1] == '-'
            ==> track_settings(args.push(a)) == Err::<TrackArgsModel, _>(
            TrackUsageModel::UnknownOption(a),
        ),
        a.len() < 2 || a[0] != '-' || a[1] != '-' ==> track_settings(args.push(a)) == Ok::<
            _,
            TrackUsageModel,
        >((TrackArgsModel { path: Some(a), ..st })),
{
    let start = TrackArgsModel { path: None, out: None, explicit: Seq::empty() };
    let n = args.len() as int;
    let o = "--out-odb"@;
    let t = "--track"@;
    reveal_strlit("--out-odb");
    reveal_strlit("--track");
    assert(o.len() == 9 && t.len() == 7 && o[0] == '-' && o[1] == '-' && t[0] == '-' && t[1]
        == '-');
    lemma_scan_tracks_goes_on(args, seq![o, v], 0, start);
    lemma_scan_tracks_goes_on(args, seq![t, v], 0, start);
    lemma_scan_tracks_goes_on(args, seq![o], 0, start);
    lemma_scan_tracks_goes_on(args, seq![t], 0, start);
    lemma_scan_tracks_goes_on(args, seq![a], 0, start);
    assert(args.push(o) =~= args + seq![o]);
    assert(args.push(t) =~= args + seq![t]);
    assert(args.push(a) =~= args + seq![a]);
    assert((args + seq![o, v])[n] == o && (args + seq![o, v])[n + 1] == v);
    assert((args + seq![t, v])[n] == t && (args + seq![t, v])[n + 1] == v);
    assert(args.push(o)[n] == o && args.push(t)[n] == t && args.push(a)[n] == a);
    reveal_with_fuel(scan_tracks, 2);
}

/// What one more layer of the technology adds. Nothing is made behind a stop. A layer that is not
/// for routing, or has no routing level, adds nothing. A layer with a first and last pitch stops
/// the command where it is not horizontal, where there is no core row, and where it has no y pitch,
/// in this order; else it is listed for want of an x pitch, or gets a pattern for each of its
/// offsets, repeating on the core row. Any other layer is listed for want of either pitch, or gets
/// one pattern, as the technology gives it.
pub proof fn law_what_a_layer_adds(
    layers: Seq<LayerModel>,
    l: LayerModel,
    die_y_min: int,
    core_row_height: Option<i32>,
    i: int,
)
    ensures
        ({
            let all = layers.push(l);
            let jobs = jobs_of(layers, die_y_min, core_row_height);
            let next = jobs_of(all, die_y_min, core_row_height);
            let listed = unpitched_of(layers, core_row_height);
            let then_listed = unpitched_of(all, core_row_height);
            let stop = first_stop(layers, core_row_height);
            let then_stop = first_stop(all, core_row_height);
            let routing = l.layer_type == "ROUTING"@ && l.routing_level != 0;
            let two = l.first_last_pitch > 0;
            let flat = l.direction == "HORIZONTAL"@;
            &&& jobs_of(Seq::empty(), die_y_min, core_row_height).len() == 0
            &&& unpitched_of(Seq::empty(), core_row_height).len() == 0
            &&& first_stop(Seq::empty(), core_row_height) is None
            &&& stop is Some ==> next == jobs && then_listed == listed && then_stop == stop
            &&& stop is None && !routing ==> next == jobs && then_listed == listed && then_stop
                is None
            &&& stop is None && routing && two ==> {
                &&& !flat ==> then_stop == Some(LayerStopModel::NotHorizontal(l.name))
                &&& flat && core_row_height is None ==> then_stop == Some(
                    LayerStopModel::NoCoreRow(l.name),
                )
                &&& flat && core_row_height is Some && l.y_pitch == 0 ==> then_stop == Some(
                    LayerStopModel::NoYPitch(l.name),
                )
                &&& flat && core_row_height is Some && l.y_pitch != 0 ==> then_stop is None
                &&& then_stop is Some ==> next == jobs && then_listed == listed
                &&& then_stop is None && l.x_pitch == 0 ==> next == jobs && then_listed
                    == listed.push(l.name)
                &&& then_stop is None && l.x_pitch != 0 ==> {
                    let height = core_row_height.unwrap() as int;
                    let offsets = stacked_origins(
                        die_y_min,
                        height,
                        l.y_pitch,
                        l.first_last_pitch,
                    );
                    &&& then_listed == listed
                    &&& next.len() == jobs.len() + offsets.len()
                    &&& next.take(jobs.len() as int) == jobs
                    &&& 0 <= i < offsets.len() ==> {
                        let j = next[jobs.len() + i];
                        &&& j.layer == l.name
                        &&& j.x_offset == l.x_offset && j.x_pitch == l.x_pitch
                        &&& j.y_offset == offsets[i] && j.y_pitch == height
                    }
                }
            }
            &&& stop is None && routing && !two ==> {
                &&& then_stop is None
                &&& l.x_pitch == 0 || l.y_pitch == 0 ==> next == jobs && then_listed == listed.push(
                    l.name,
                )
                &&& l.x_pitch != 0 && l.y_pitch != 0 ==> {
                    &&& then_listed == listed
                    &&& next.len() == jobs.len() + 1
                    &&& next.take(jobs.len() as int) == jobs
                    &&& next.last().layer == l.name
                    &&& next.last().x_offset == l.x_offset && next.last().x_pitch == l.x_pitch
                    &&& next.last().y_offset == l.y_offset && next.last().y_pitch == l.y_pitch
                }
            }
        }),
{
    let all = layers.push(l);
    assert(all.drop_last() =~= layers);
    let jobs = jobs_of(layers, die_y_min, core_row_height);
    let made = l.jobs(die_y_min, core_row_height);
    assert(jobs + Seq::<TrackJobModel>::empty() =~= jobs);
    assert((jobs + made).take(jobs.len() as int) =~= jobs);
}

/// One more layer given by hand is made where it has a pitch on both axes, and else listed.
pub proof fn law_what_a_layer_given_by_hand_adds(jobs: Seq<TrackJobModel>, j: TrackJobModel)
    ensures
        ({
            let pitched = |j: TrackJobModel| is_pitched(j);
            let bare = j.x_pitch == 0 || j.y_pitch == 0;
            &&& Seq::<TrackJobModel>::empty().filter(pitched).len() == 0
            &&& unpitched_layers(Seq::empty()).len() == 0
            &&& bare ==> jobs.push(j).filter(pitched) == jobs.filter(pitched)
            &&& bare ==> unpitched_layers(jobs.push(j)) == unpitched_layers(jobs).push(j.layer)
            &&& !bare ==> jobs.push(j).filter(pitched) == jobs.filter(pitched).push(j)
            &&& !bare ==> unpitched_layers(jobs.push(j)) == unpitched_layers(jobs)
        }),
{
    reveal(Seq::filter);
    assert(jobs.push(j).drop_last() =~= jobs);
    if !is_pitched(j) {
        assert(unpitched_layers(jobs.push(j)) =~= unpitched_layers(jobs).push(j.layer));
    }
}

/// The command refuses exactly where something stopped it or nothing is to be made, and then says
/// why: what stopped it, before that nothing is to be made.
pub proof fn law_make_tracks_refuses_what_it_cannot_make(
    work: LayerWork,
    ending: Option<Ending>,
    text: Option<String>,
)
    requires
        call_ensures(tracks_ending, (&work,), ending),
        call_ensures(tracks_refusal, (&work,), text),
    ensures
        work.stop is Some || work.jobs@.len() == 0 ==> ending == Some(Ending::Refused) && text
            is Some,
        work.stop is None && work.jobs@.len() > 0 ==> ending is None && text is None,
        work.stop matches Some(stop) ==> text.unwrap()@ == stop@.message(),
        work.stop is None && work.jobs@.len() == 0 ==> text.unwrap()@
            == "no routing layer produced a track pattern."@,
{
}

/// The core row is the first row whose site is of class `CORE`.
pub proof fn law_the_core_row_is_the_first_of_its_class(rows: Seq<(Seq<char>, int)>, k: int)
    requires
        0 <= k <= rows.len(),
        forall|i: int| 0 <= i < k ==> (#[trigger] rows[i]).0 != "CORE"@,
    ensures
        k < rows.len() && rows[k].0 == "CORE"@ ==> first_core_height(rows) == Some(rows[k].1),
        k == rows.len() ==> first_core_height(rows) is None,
{
    lemma_no_core_row(rows, k);
    if k < rows.len() && rows[k].0 == "CORE"@ {
        assert(rows.take(k + 1).drop_last() =~= rows.take(k));
        assert(rows.take(k + 1).last() == rows[k]);
        lemma_core_height_stays(rows, k + 1);
    }
    if k == rows.len() {
        assert(rows.take(k) =~= rows);
    }
}

proof fn lemma_no_core_row(rows: Seq<(Seq<char>, int)>, k: int)
    requires
        0 <= k <= rows.len(),
        forall|i: int| 0 <= i < k ==> (#[trigger] rows[i]).0 != "CORE"@,
    ensures
        first_core_height(rows.take(k)) is None,
    decreases k,
{
    if k > 0 {
        lemma_no_core_row(rows, k - 1);
        assert(rows.take(k).drop_last() =~= rows.take(k - 1));
        assert(rows.take(k).last() == rows[k - 1]);
    }
}

/// A job gets tracks on both axes of the die, each by its own offset and pitch, or on none: the x
/// axis is at fault before the y axis.
pub proof fn law_a_job_gets_both_axes_or_none(j: TrackJobModel, min_width: int, die: Area)
    ensures
        ({
            let x = tracks_on(
                die.x_min,
                die.x_max - die.x_min,
                j.x_offset,
                j.x_pitch,
                min_width,
            );
            let y = tracks_on(
                die.y_min,
                die.y_max - die.y_min,
                j.y_offset,
                j.y_pitch,
                min_width,
            );
            let r = outcome_of(j, min_width, die);
            &&& x is None ==> r == (TrackOutcomeModel::Skipped {
                layer: j.layer,
                axis: TrackSkip::X,
            })
            &&& x is Some && y is None ==> r == (TrackOutcomeModel::Skipped {
                layer: j.layer,
                axis: TrackSkip::Y,
            })
            &&& x is Some && y is Some ==> r == (TrackOutcomeModel::Made {
                layer: j.layer,
                x: x.unwrap(),
                y: y.unwrap(),
            })
        }),
{
}

/// What is said of a layer is a warning about it, by its name: that it has no pitch, or which of
/// its offsets passes the die.
pub proof fn law_what_is_said_of_a_layer(layer: Seq<char>)
    ensures
        ({
            let n = no_pitch_notice(layer);
            let x = skip_notice(layer, TrackSkip::X);
            let y = skip_notice(layer, TrackSkip::Y);
            &&& n.severity == Severity::Warn && x.severity == Severity::Warn && y.severity
                == Severity::Warn
            &&& n.code == "IFP-TRACK-NO-PITCH"@
            &&& x.code == "IFP-TRACK-SKIP-X"@
            &&& y.code == "IFP-TRACK-SKIP-Y"@
            &&& n.objects == seq!["layer:"@ + layer]
            &&& x.objects == n.objects && y.objects == n.objects
            &&& n.text == "IFP-0056 No pitch found layer "@ + layer
                + " so no tracks will be generated."@
            &&& x.text == "IFP-0021 Track pattern for "@ + layer
                + " will be skipped due to x_offset > die width."@
            &&& y.text == "IFP-0022 Track pattern for "@ + layer
                + " will be skipped due to y_offset > die height."@
        }),
{
}

/// A stop names its layer, and a usage error repeats the argument at fault.
pub proof fn law_a_stop_names_its_layer(n: Seq<char>)
    ensures
        LayerStopModel::NotHorizontal(n).message() == "IFP-0044 Non horizontal layer "@ + n
            + " uses property LEF58_PITCH."@,
        LayerStopModel::NoCoreRow(n).message() == "IFP-0045 No routing Row found in layer "@ + n,
        LayerStopModel::NoYPitch(n).message() == "layer "@ + n
            + " carries LEF58_PITCH but no y pitch to space its tracks by."@,
        TrackUsageModel::NotFour(n).message() == "--track wants four values, got "@ + debug_quoted(
            n,
        ),
        TrackUsageModel::NotANumber(n).message() == "not a number: "@ + debug_quoted(n),
        TrackUsageModel::UnknownOption(n).message() == "unknown option "@ + n,
{
}

/// Layers, jobs, arguments and outcomes are known by what they store.
pub proof fn law_a_layer_is_what_it_stores(
    l: LayerInfo,
    j: TrackJob,
    t: TrackSpec,
    a: TrackArgs,
    o: TrackOutcome,
    i: int,
)
    ensures
        l@.name == l.name@ && l@.direction == l.direction@ && l@.layer_type == l.layer_type@,
        l@.routing_level == l.routing_level && l@.first_last_pitch == l.first_last_pitch,
        l@.x_offset == l.x_offset && l@.x_pitch == l.x_pitch,
        l@.y_offset == l.y_offset && l@.y_pitch == l.y_pitch,
        j@.layer == j.layer@ && j@.x_offset == j.x_offset && j@.x_pitch == j.x_pitch,
        j@.y_offset == j.y_offset && j@.y_pitch == j.y_pitch,
        t@.layer == t.layer@ && t@.values.len() == t.values@.len(),
        0 <= i < t.values@.len() ==> t@.values[i] == t.values@[i]@,
        a.path is None ==> a@.path is None,
        a.path matches Some(p) ==> a@.path == Some(p@),
        a.out is None ==> a@.out is None,
        a.out matches Some(p) ==> a@.out == Some(p@),
        a@.explicit.len() == a.explicit@.len(),
        0 <= i < a.explicit@.len() ==> a@.explicit[i] == a.explicit@[i]@,
        o matches TrackOutcome::Made { layer, x, y } ==> o@ == (TrackOutcomeModel::Made {
            layer: layer@,
            x: x@,
            y: y@,
        }),
        o matches TrackOutcome::Skipped { layer, axis } ==> o@ == (TrackOutcomeModel::Skipped {
            layer: layer@,
            axis,
        }),
{
}

/// A stop and a usage error are known by their sort and by what they store, and those that repeat
/// nothing have their sentence.
pub proof fn law_a_stop_is_what_it_stores(s: LayerStop, u: TrackUsage)
    ensures
        s matches LayerStop::NotHorizontal(n) ==> s@ == LayerStopModel::NotHorizontal(n@),
        s matches LayerStop::NoCoreRow(n) ==> s@ == LayerStopModel::NoCoreRow(n@),
        s matches LayerStop::NoYPitch(n) ==> s@ == LayerStopModel::NoYPitch(n@),
        u matches TrackUsage::NotFour(t) ==> u@ == TrackUsageModel::NotFour(t@),
        u matches TrackUsage::NotANumber(t) ==> u@ == TrackUsageModel::NotANumber(t@),
        u matches TrackUsage::UnknownOption(t) ==> u@ == TrackUsageModel::UnknownOption(t@),
        u is NoOutFile ==> u@.message() == "--out-odb needs a FILE"@,
        u is NoTrack ==> u@.message() == "--track needs LAYER:xoff,xpitch,yoff,ypitch"@,
        u is NoLayer ==> u@.message() == "--track wants LAYER:xoff,xpitch,yoff,ypitch"@,
        u is NoDatabase ==> u@.message() == "needs <design.odb>"@,
        u is NoOutFile <==> u@ is NoOutFile,
        u is NoTrack <==> u@ is NoTrack,
        u is NoLayer <==> u@ is NoLayer,
        u is NoDatabase <==> u@ is NoDatabase,
{
}

/// A job fits as soon as the tracks of its x axis do, and those of its y axis where the x axis has
/// any. The offsets of a layer fit as soon as all of them are in the 32-bit range.
pub proof fn law_tracks_in_range_can_be_made(
    j: TrackJobModel,
    min_width: int,
    die: Area,
    l: LayerModel,
    y: int,
    height: i32,
)
    ensures
        tracks_fit(die.x_min, die.x_max - die.x_min, j.x_offset, j.x_pitch, min_width)
            && tracks_fit(die.y_min, die.y_max - die.y_min, j.y_offset, j.y_pitch, min_width)
            ==> job_fits(j, min_width, die),
        l.first_last_pitch <= 0 ==> stack_fits(l, y, Some(height)),
        stack_fits(l, y, None),
        (forall|i: int|
            0 <= i < stacked_origins(y, height as int, l.y_pitch, l.first_last_pitch).len()
                ==> -0x8000_0000 <= #[trigger] stacked_origins(
                y,
                height as int,
                l.y_pitch,
                l.first_last_pitch,
            )[i] <= 0x7fff_ffff) ==> stack_fits(l, y, Some(height)),
{
}

} // verus!
