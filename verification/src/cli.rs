//! The command line of `run` and `make-rows`.
//!
//! Numbers stay text until a database supplies the scale; an argument that is no number is
//! refused here.

use crate::model::{parity_named, texts, RowParity};
use crate::text::{chars_of, joined, same_text};
use crate::words::{
    all_numbers, are_numbers, is_number, parse_list, reads_as_number, split_words, trim_text,
    trimmed, words_of, Separator,
};
use vstd::prelude::*;

verus! {

/// The content of optional text.
pub open spec fn text_option(t: Option<String>) -> Option<Seq<char>> {
    match t {
        Some(s) => Some(s@),
        None => None,
    }
}

/// The content of optional words.
pub open spec fn words_option(t: Option<Vec<String>>) -> Option<Seq<Seq<char>>> {
    match t {
        Some(w) => Some(texts(w@)),
        None => None,
    }
}

/// The content of [`Options`].
#[verifier::ext_equal]
pub struct OptionsModel {
    pub die: Seq<Seq<char>>,
    pub core: Seq<Seq<char>>,
    pub additional: Seq<Seq<char>>,
    pub parity: RowParity,
    pub flipped: Seq<Seq<char>>,
    pub out_odb: Option<Seq<char>>,
    pub report: Option<Seq<char>>,
    pub dry_run: bool,
    pub gap: Option<Seq<char>>,
    pub utilization: Option<Seq<char>>,
    pub aspect_ratio: Option<Seq<char>>,
    pub core_space: Option<Seq<Seq<char>>>,
}

/// What the options of a command line say.
#[derive(Debug)]
pub struct Options {
    /// The die outline in microns: none, the four numbers of a rectangle, or more for a polygon.
    pub die: Vec<String>,
    /// The core outline in microns, likewise.
    pub core: Vec<String>,
    pub additional: Vec<String>,
    pub parity: RowParity,
    pub flipped: Vec<String>,
    pub out_odb: Option<String>,
    pub report: Option<String>,
    pub dry_run: bool,
    /// The margin around a voltage domain, in microns.
    pub gap: Option<String>,
    /// A percentage: the die is derived rather than given.
    pub utilization: Option<String>,
    pub aspect_ratio: Option<String>,
    /// Margins in microns: bottom, top, left, right.
    pub core_space: Option<Vec<String>>,
}

impl View for Options {
    type V = OptionsModel;

    open spec fn view(&self) -> OptionsModel {
        OptionsModel {
            die: texts(self.die@),
            core: texts(self.core@),
            additional: texts(self.additional@),
            parity: self.parity,
            flipped: texts(self.flipped@),
            out_odb: text_option(self.out_odb),
            report: text_option(self.report),
            dry_run: self.dry_run,
            gap: text_option(self.gap),
            utilization: text_option(self.utilization),
            aspect_ratio: text_option(self.aspect_ratio),
            core_space: words_option(self.core_space),
        }
    }
}

/// The content of [`Settings`].
#[verifier::ext_equal]
pub struct SettingsModel {
    pub odb: Option<Seq<char>>,
    pub site: Option<Seq<char>>,
    pub options: OptionsModel,
}

/// What has been read of a command line so far.
#[derive(Debug)]
pub struct Settings {
    pub odb: Option<String>,
    pub site: Option<String>,
    pub options: Options,
}

impl View for Settings {
    type V = SettingsModel;

    open spec fn view(&self) -> SettingsModel {
        SettingsModel {
            odb: text_option(self.odb),
            site: text_option(self.site),
            options: self.options@,
        }
    }
}

/// The content of a [`Cli`].
#[verifier::ext_equal]
pub struct CliModel {
    pub odb: Seq<char>,
    pub site: Seq<char>,
    pub make_rows: bool,
    pub options: OptionsModel,
}

/// A complete command line. Areas are held in microns, as text, until a database supplies the
/// scale.
#[derive(Debug)]
pub struct Cli {
    pub odb: String,
    pub site: String,
    /// Rows on a die that is already set: the die is read from the database instead of written.
    pub make_rows: bool,
    pub options: Options,
}

impl View for Cli {
    type V = CliModel;

    open spec fn view(&self) -> CliModel {
        CliModel {
            odb: self.odb@,
            site: self.site@,
            make_rows: self.make_rows,
            options: self.options@,
        }
    }
}

/// The content of a [`UsageError`].
#[verifier::ext_equal]
pub enum UsageErrorModel {
    NeedsValue(Seq<char>),
    Unwanted { option: Seq<char>, wants: Seq<char>, value: Seq<char> },
    MarginNotANumber(Seq<char>),
    MarginCount,
    UnknownOption(Seq<char>),
    NoDatabase,
    NoSite,
    DieWithMakeRows,
    NoCoreForRows,
    DieWithUtilization,
    CoreWithUtilization,
    NoMargins,
    AspectWithDie,
    MarginsWithDie,
    NoDie,
    NoCore,
}

/// What is wrong with a command line.
#[derive(Debug)]
pub enum UsageError {
    /// An option at the end of the line that takes a value.
    NeedsValue(String),
    /// A value that its option does not take.
    Unwanted { option: String, wants: String, value: String },
    MarginNotANumber(String),
    MarginCount,
    UnknownOption(String),
    NoDatabase,
    NoSite,
    DieWithMakeRows,
    NoCoreForRows,
    DieWithUtilization,
    CoreWithUtilization,
    NoMargins,
    AspectWithDie,
    MarginsWithDie,
    NoDie,
    NoCore,
}

impl View for UsageError {
    type V = UsageErrorModel;

    open spec fn view(&self) -> UsageErrorModel {
        match *self {
            UsageError::NeedsValue(s) => UsageErrorModel::NeedsValue(s@),
            UsageError::Unwanted { option, wants, value } => UsageErrorModel::Unwanted {
                option: option@,
                wants: wants@,
                value: value@,
            },
            UsageError::MarginNotANumber(s) => UsageErrorModel::MarginNotANumber(s@),
            UsageError::MarginCount => UsageErrorModel::MarginCount,
            UsageError::UnknownOption(s) => UsageErrorModel::UnknownOption(s@),
            UsageError::NoDatabase => UsageErrorModel::NoDatabase,
            UsageError::NoSite => UsageErrorModel::NoSite,
            UsageError::DieWithMakeRows => UsageErrorModel::DieWithMakeRows,
            UsageError::NoCoreForRows => UsageErrorModel::NoCoreForRows,
            UsageError::DieWithUtilization => UsageErrorModel::DieWithUtilization,
            UsageError::CoreWithUtilization => UsageErrorModel::CoreWithUtilization,
            UsageError::NoMargins => UsageErrorModel::NoMargins,
            UsageError::AspectWithDie => UsageErrorModel::AspectWithDie,
            UsageError::MarginsWithDie => UsageErrorModel::MarginsWithDie,
            UsageError::NoDie => UsageErrorModel::NoDie,
            UsageError::NoCore => UsageErrorModel::NoCore,
        }
    }
}

impl UsageErrorModel {
    /// The sentence that explains the error.
    pub open spec fn message(self) -> Seq<char> {
        match self {
            UsageErrorModel::NeedsValue(a) => a + " needs a value"@,
            UsageErrorModel::Unwanted { option, wants, value } => option + " wants "@ + wants
                + ", got `"@ + value + "`"@,
            UsageErrorModel::MarginNotANumber(t) => "--core-space: not a number: `"@ + t + "`"@,
            UsageErrorModel::MarginCount => {
                "IFP-0013 -core_space is either a list of 4 margins or one value for all margins."@
            },
            UsageErrorModel::UnknownOption(a) => "unknown option `"@ + a + "`"@,
            UsageErrorModel::NoDatabase => "needs a path to a .odb"@,
            UsageErrorModel::NoSite => "IFP-0035 use -site to add placement rows."@,
            UsageErrorModel::DieWithMakeRows => {
                "make-rows does not take a die area; it uses the one already set"@
            },
            UsageErrorModel::NoCoreForRows => {
                "IFP-0062 no -core_area or -core_space specified."@
            },
            UsageErrorModel::DieWithUtilization => {
                "IFP-0014 -die_area cannot be used with -utilization."@
            },
            UsageErrorModel::CoreWithUtilization => {
                "IFP-0020 -core_area cannot be used with -utilization."@
            },
            UsageErrorModel::NoMargins => "IFP-0034 no -core_space specified."@,
            UsageErrorModel::AspectWithDie => {
                "IFP-0033 -aspect_ratio cannot be used with -die_area."@
            },
            UsageErrorModel::MarginsWithDie => {
                "IFP-0024 -core_space cannot be used with -die_area."@
            },
            UsageErrorModel::NoDie => "`run` needs --die-area or --utilization"@,
            UsageErrorModel::NoCore => "`run` needs --core-area"@,
        }
    }
}

impl UsageError {
    /// The sentence that explains the error.
    pub fn message(&self) -> (r: String)
        ensures
            r@ == self@.message(),
    {
        match self {
            UsageError::NeedsValue(a) => joined(a.as_str(), " needs a value"),
            UsageError::Unwanted { option, wants, value } => {
                let mut out = joined(option.as_str(), " wants ");
                out.append(wants.as_str());
                out.append(", got `");
                out.append(value.as_str());
                out.append("`");
                out
            },
            UsageError::MarginNotANumber(t) => {
                let mut out = joined("--core-space: not a number: `", t.as_str());
                out.append("`");
                out
            },
            UsageError::MarginCount => String::from(
                "IFP-0013 -core_space is either a list of 4 margins or one value for all margins.",
            ),
            UsageError::UnknownOption(a) => {
                let mut out = joined("unknown option `", a.as_str());
                out.append("`");
                out
            },
            UsageError::NoDatabase => String::from("needs a path to a .odb"),
            UsageError::NoSite => String::from("IFP-0035 use -site to add placement rows."),
            UsageError::DieWithMakeRows => String::from(
                "make-rows does not take a die area; it uses the one already set",
            ),
            UsageError::NoCoreForRows => String::from(
                "IFP-0062 no -core_area or -core_space specified.",
            ),
            UsageError::DieWithUtilization => String::from(
                "IFP-0014 -die_area cannot be used with -utilization.",
            ),
            UsageError::CoreWithUtilization => String::from(
                "IFP-0020 -core_area cannot be used with -utilization.",
            ),
            UsageError::NoMargins => String::from("IFP-0034 no -core_space specified."),
            UsageError::AspectWithDie => String::from(
                "IFP-0033 -aspect_ratio cannot be used with -die_area.",
            ),
            UsageError::MarginsWithDie => String::from(
                "IFP-0024 -core_space cannot be used with -die_area.",
            ),
            UsageError::NoDie => String::from("`run` needs --die-area or --utilization"),
            UsageError::NoCore => String::from("`run` needs --core-area"),
        }
    }
}

/// `value` is not what `option` takes.
pub open spec fn unwanted(
    option: Seq<char>,
    wants: Seq<char>,
    value: Seq<char>,
) -> UsageErrorModel {
    UsageErrorModel::Unwanted { option, wants, value }
}

fn refuse_value(option: &str, wants: &str, value: &str) -> (r: UsageError)
    ensures
        r@ == unwanted(option@, wants@, value@),
{
    UsageError::Unwanted {
        option: String::from(option),
        wants: String::from(wants),
        value: String::from(value),
    }
}

/// Four words: a rectangle rather than a polygon.
pub open spec fn is_rectangle(words: Seq<Seq<char>>) -> bool {
    words.len() == 4
}

/// The coordinates of an area argument: four for a rectangle, more for a polygon.
pub open spec fn outline_of(
    option: Seq<char>,
    value: Seq<char>,
) -> Result<Seq<Seq<char>>, UsageErrorModel> {
    let words = words_of(value, Separator::Coordinate);
    if !all_numbers(words) {
        Err(unwanted(option, "numbers"@, value))
    } else if words.len() < 4 {
        Err(unwanted(option, "'x1 y1 x2 y2'"@, value))
    } else {
        Ok(words)
    }
}

/// Reads the coordinates of an area argument.
pub fn parse_outline(option: &str, value: &str) -> (r: Result<Vec<String>, UsageError>)
    ensures
        match r {
            Ok(w) => outline_of(option@, value@) == Ok::<_, UsageErrorModel>(texts(w@)),
            Err(e) => outline_of(option@, value@) == Err::<Seq<Seq<char>>, _>(e@),
        },
{
    let words: Vec<String> = split_words(value, Separator::Coordinate);
    assert(texts(words@).len() == words@.len());
    if !are_numbers(&words) {
        return Err(refuse_value(option, "numbers", value));
    }
    if words.len() < 4 {
        return Err(refuse_value(option, "'x1 y1 x2 y2'", value));
    }
    Ok(words)
}

/// The first word that is no number.
pub open spec fn first_non_number(words: Seq<Seq<char>>) -> Option<Seq<char>>
    decreases words.len(),
{
    if words.len() == 0 {
        None
    } else {
        match first_non_number(words.drop_last()) {
            Some(w) => Some(w),
            None => if is_number(words.last()) {
                None
            } else {
                Some(words.last())
            },
        }
    }
}

proof fn lemma_non_number_stays(words: Seq<Seq<char>>, k: int)
    requires
        0 <= k <= words.len(),
        first_non_number(words.take(k)) is Some,
    ensures
        first_non_number(words) == first_non_number(words.take(k)),
    decreases words.len() - k,
{
    if k < words.len() {
        assert(words.take(k + 1).drop_last() =~= words.take(k));
        lemma_non_number_stays(words, k + 1);
    } else {
        assert(words.take(k) =~= words);
    }
}

/// The four margins, bottom, top, left and right. One value fills all four.
pub open spec fn margins_of(value: Seq<char>) -> Result<Seq<Seq<char>>, UsageErrorModel> {
    let words = words_of(value, Separator::Blank);
    match first_non_number(words) {
        Some(w) => Err(UsageErrorModel::MarginNotANumber(w)),
        None => if words.len() == 1 {
            Ok(seq![words[0], words[0], words[0], words[0]])
        } else if words.len() == 4 {
            Ok(words)
        } else {
            Err(UsageErrorModel::MarginCount)
        },
    }
}

/// Reads the margins of the core.
pub fn parse_margins(value: &str) -> (r: Result<Vec<String>, UsageError>)
    ensures
        match r {
            Ok(w) => margins_of(value@) == Ok::<_, UsageErrorModel>(texts(w@)),
            Err(e) => margins_of(value@) == Err::<Seq<Seq<char>>, _>(e@),
        },
{
    let words: Vec<String> = split_words(value, Separator::Blank);
    let ghost models = texts(words@);
    let mut i: usize = 0;
    while i < words.len()
        invariant
            i <= words@.len(),
            models == texts(words@),
            models == words_of(value@, Separator::Blank),
            first_non_number(models.take(i as int)) is None,
        decreases words.len() - i,
    {
        proof {
            assert(models.take(i + 1).drop_last() =~= models.take(i as int));
            assert(models.take(i + 1).last() == words@[i as int]@);
        }
        if !reads_as_number(words[i].as_str()) {
            proof {
                lemma_non_number_stays(models, i + 1);
            }
            return Err(UsageError::MarginNotANumber(words[i].clone()));
        }
        i = i + 1;
    }
    assert(models.take(models.len() as int) =~= models);
    if words.len() == 1 {
        let mut four: Vec<String> = Vec::new();
        four.push(words[0].clone());
        four.push(words[0].clone());
        four.push(words[0].clone());
        four.push(words[0].clone());
        assert(texts(four@) =~= seq![models[0], models[0], models[0], models[0]]);
        Ok(four)
    } else if words.len() == 4 {
        Ok(words)
    } else {
        Err(UsageError::MarginCount)
    }
}

/// A single number, without the white space around it.
pub open spec fn number_of(
    option: Seq<char>,
    wants: Seq<char>,
    value: Seq<char>,
) -> Result<Seq<char>, UsageErrorModel> {
    if is_number(trimmed(value)) {
        Ok(trimmed(value))
    } else {
        Err(unwanted(option, wants, value))
    }
}

fn parse_number(option: &str, wants: &str, value: &str) -> (r: Result<String, UsageError>)
    ensures
        match r {
            Ok(t) => number_of(option@, wants@, value@) == Ok::<_, UsageErrorModel>(t@),
            Err(e) => number_of(option@, wants@, value@) == Err::<Seq<char>, _>(e@),
        },
{
    let t: String = trim_text(value);
    if reads_as_number(t.as_str()) {
        Ok(t)
    } else {
        Err(refuse_value(option, wants, value))
    }
}

/// An option that takes a value.
pub open spec fn takes_value(a: Seq<char>) -> bool {
    ||| a == "--die-area"@
    ||| a == "--core-area"@
    ||| a == "--site"@
    ||| a == "--additional-sites"@
    ||| a == "--flip-sites"@
    ||| a == "--row-parity"@
    ||| a == "--utilization"@
    ||| a == "--aspect-ratio"@
    ||| a == "--core-space"@
    ||| a == "--gap"@
    ||| a == "--out-odb"@
    ||| a == "-o"@
}

fn is_value_option(a: &str) -> (r: bool)
    ensures
        r == takes_value(a@),
{
    same_text(a, "--die-area") || same_text(a, "--core-area") || same_text(a, "--site")
        || same_text(a, "--additional-sites") || same_text(a, "--flip-sites") || same_text(
        a,
        "--row-parity",
    ) || same_text(a, "--utilization") || same_text(a, "--aspect-ratio") || same_text(
        a,
        "--core-space",
    ) || same_text(a, "--gap") || same_text(a, "--out-odb") || same_text(a, "-o")
}

/// The settings after `option` was given `value`. The last of several values counts.
pub open spec fn with_value(
    st: SettingsModel,
    option: Seq<char>,
    value: Seq<char>,
) -> Result<SettingsModel, UsageErrorModel> {
    let o = st.options;
    if option == "--die-area"@ {
        match outline_of(option, value) {
            Ok(die) => Ok(SettingsModel { options: OptionsModel { die, ..o }, ..st }),
            Err(e) => Err(e),
        }
    } else if option == "--core-area"@ {
        match outline_of(option, value) {
            Ok(core) => Ok(SettingsModel { options: OptionsModel { core, ..o }, ..st }),
            Err(e) => Err(e),
        }
    } else if option == "--site"@ {
        Ok(SettingsModel { site: Some(value), ..st })
    } else if option == "--additional-sites"@ {
        let additional = words_of(value, Separator::Name);
        Ok(SettingsModel { options: OptionsModel { additional, ..o }, ..st })
    } else if option == "--flip-sites"@ {
        let flipped = words_of(value, Separator::Name);
        Ok(SettingsModel { options: OptionsModel { flipped, ..o }, ..st })
    } else if option == "--row-parity"@ {
        match parity_named(value) {
            Some(parity) => Ok(SettingsModel { options: OptionsModel { parity, ..o }, ..st }),
            None => Err(unwanted(option, "NONE, ODD or EVEN"@, value)),
        }
    } else if option == "--utilization"@ {
        match number_of(option, "a percentage"@, value) {
            Ok(t) => Ok(
                SettingsModel { options: OptionsModel { utilization: Some(t), ..o }, ..st },
            ),
            Err(e) => Err(e),
        }
    } else if option == "--aspect-ratio"@ {
        match number_of(option, "a number"@, value) {
            Ok(t) => Ok(
                SettingsModel { options: OptionsModel { aspect_ratio: Some(t), ..o }, ..st },
            ),
            Err(e) => Err(e),
        }
    } else if option == "--core-space"@ {
        match margins_of(value) {
            Ok(w) => Ok(
                SettingsModel { options: OptionsModel { core_space: Some(w), ..o }, ..st },
            ),
            Err(e) => Err(e),
        }
    } else if option == "--gap"@ {
        match number_of(option, "a number in microns"@, value) {
            Ok(t) => Ok(SettingsModel { options: OptionsModel { gap: Some(t), ..o }, ..st }),
            Err(e) => Err(e),
        }
    } else if option == "--out-odb"@ {
        Ok(SettingsModel { options: OptionsModel { out_odb: Some(value), ..o }, ..st })
    } else {
        Ok(SettingsModel { options: OptionsModel { report: Some(value), ..o }, ..st })
    }
}

/// The settings after an argument that takes no value: a flag, or the database's path.
pub open spec fn with_flag(
    st: SettingsModel,
    a: Seq<char>,
) -> Result<SettingsModel, UsageErrorModel> {
    if a == "--dry-run"@ {
        Ok(SettingsModel { options: OptionsModel { dry_run: true, ..st.options }, ..st })
    } else if a == "--json"@ {
        Ok(st)
    } else if a.len() > 0 && a[0] == '-' {
        Err(UsageErrorModel::UnknownOption(a))
    } else {
        Ok(SettingsModel { odb: Some(a), ..st })
    }
}

/// The settings after the arguments from `i` on, or the first error among them.
pub open spec fn scan(
    args: Seq<Seq<char>>,
    i: int,
    st: SettingsModel,
) -> Result<SettingsModel, UsageErrorModel>
    decreases args.len() - i,
{
    if i < 0 || i >= args.len() {
        Ok(st)
    } else if takes_value(args[i]) {
        if i + 1 >= args.len() {
            Err(UsageErrorModel::NeedsValue(args[i]))
        } else {
            match with_value(st, args[i], args[i + 1]) {
                Ok(next) => scan(args, i + 2, next),
                Err(e) => Err(e),
            }
        }
    } else {
        match with_flag(st, args[i]) {
            Ok(next) => scan(args, i + 1, next),
            Err(e) => Err(e),
        }
    }
}

/// Nothing given.
pub open spec fn no_settings() -> SettingsModel {
    SettingsModel {
        odb: None,
        site: None,
        options: OptionsModel {
            die: Seq::empty(),
            core: Seq::empty(),
            additional: Seq::empty(),
            parity: RowParity::Any,
            flipped: Seq::empty(),
            out_odb: None,
            report: None,
            dry_run: false,
            gap: None,
            utilization: None,
            aspect_ratio: None,
            core_space: None,
        },
    }
}

/// The options contradict each other, or leave the areas open.
///
/// `make-rows` takes the core as a rectangle or as margins, and no die. `run` with a utilization
/// derives the die, so a die or a core given in any form is a contradiction rather than an
/// override; without one it takes two rectangles, unless either outline is a polygon, and a given
/// die excludes margins.
pub open spec fn area_fault(o: OptionsModel, make_rows: bool) -> Option<UsageErrorModel> {
    if make_rows {
        if o.die.len() > 0 {
            Some(UsageErrorModel::DieWithMakeRows)
        } else if !is_rectangle(o.core) && o.core_space is None {
            Some(UsageErrorModel::NoCoreForRows)
        } else {
            None
        }
    } else if o.utilization is Some {
        if o.die.len() > 0 {
            Some(UsageErrorModel::DieWithUtilization)
        } else if o.core.len() > 0 {
            Some(UsageErrorModel::CoreWithUtilization)
        } else if o.core_space is None {
            Some(UsageErrorModel::NoMargins)
        } else {
            None
        }
    } else if o.aspect_ratio is Some {
        Some(UsageErrorModel::AspectWithDie)
    } else if o.core_space is Some && o.die.len() > 0 {
        Some(UsageErrorModel::MarginsWithDie)
    } else if o.die.len() > 4 || o.core.len() > 4 {
        None
    } else if !is_rectangle(o.die) {
        Some(UsageErrorModel::NoDie)
    } else if !is_rectangle(o.core) {
        Some(UsageErrorModel::NoCore)
    } else {
        None
    }
}

/// The command line that the settings make.
pub open spec fn finished(
    st: SettingsModel,
    make_rows: bool,
) -> Result<CliModel, UsageErrorModel> {
    match (st.odb, st.site) {
        (None, _) => Err(UsageErrorModel::NoDatabase),
        (_, None) => Err(UsageErrorModel::NoSite),
        (Some(odb), Some(site)) => match area_fault(st.options, make_rows) {
            Some(e) => Err(e),
            None => Ok(CliModel { odb, site, make_rows, options: st.options }),
        },
    }
}

/// The command line that `args` are, or the first thing wrong with them.
pub open spec fn command_line(
    args: Seq<Seq<char>>,
    make_rows: bool,
) -> Result<CliModel, UsageErrorModel> {
    match scan(args, 0, no_settings()) {
        Ok(st) => finished(st, make_rows),
        Err(e) => Err(e),
    }
}

/// The content of a parsed command line.
pub open spec fn cli_outcome(r: Result<Cli, UsageError>) -> Result<CliModel, UsageErrorModel> {
    match r {
        Ok(c) => Ok(c@),
        Err(e) => Err(e@),
    }
}

fn set_value(st: Settings, option: &str, value: &str) -> (r: Result<Settings, UsageError>)
    requires
        takes_value(option@),
    ensures
        match r {
            Ok(s) => with_value(st@, option@, value@) == Ok::<_, UsageErrorModel>(s@),
            Err(e) => with_value(st@, option@, value@) == Err::<SettingsModel, _>(e@),
        },
{
    let mut st: Settings = st;
    if same_text(option, "--die-area") {
        match parse_outline(option, value) {
            Ok(w) => {
                st.options.die = w;
            },
            Err(e) => {
                return Err(e);
            },
        }
    } else if same_text(option, "--core-area") {
        match parse_outline(option, value) {
            Ok(w) => {
                st.options.core = w;
            },
            Err(e) => {
                return Err(e);
            },
        }
    } else if same_text(option, "--site") {
        st.site = Some(String::from(value));
    } else if same_text(option, "--additional-sites") {
        st.options.additional = parse_list(value);
    } else if same_text(option, "--flip-sites") {
        st.options.flipped = parse_list(value);
    } else if same_text(option, "--row-parity") {
        match RowParity::parse(value) {
            Some(p) => {
                st.options.parity = p;
            },
            None => {
                return Err(refuse_value(option, "NONE, ODD or EVEN", value));
            },
        }
    } else if same_text(option, "--utilization") {
        match parse_number(option, "a percentage", value) {
            Ok(t) => {
                st.options.utilization = Some(t);
            },
            Err(e) => {
                return Err(e);
            },
        }
    } else if same_text(option, "--aspect-ratio") {
        match parse_number(option, "a number", value) {
            Ok(t) => {
                st.options.aspect_ratio = Some(t);
            },
            Err(e) => {
                return Err(e);
            },
        }
    } else if same_text(option, "--core-space") {
        match parse_margins(value) {
            Ok(w) => {
                st.options.core_space = Some(w);
            },
            Err(e) => {
                return Err(e);
            },
        }
    } else if same_text(option, "--gap") {
        match parse_number(option, "a number in microns", value) {
            Ok(t) => {
                st.options.gap = Some(t);
            },
            Err(e) => {
                return Err(e);
            },
        }
    } else if same_text(option, "--out-odb") {
        st.options.out_odb = Some(String::from(value));
    } else {
        st.options.report = Some(String::from(value));
    }
    Ok(st)
}

fn set_flag(st: Settings, a: &str) -> (r: Result<Settings, UsageError>)
    ensures
        match r {
            Ok(s) => with_flag(st@, a@) == Ok::<_, UsageErrorModel>(s@),
            Err(e) => with_flag(st@, a@) == Err::<SettingsModel, _>(e@),
        },
{
    let mut st: Settings = st;
    if same_text(a, "--dry-run") {
        st.options.dry_run = true;
    } else if same_text(a, "--json") {
    } else {
        let chars: Vec<char> = chars_of(a);
        if chars.len() > 0 && chars[0] == '-' {
            return Err(UsageError::UnknownOption(String::from(a)));
        }
        st.odb = Some(String::from(a));
    }
    Ok(st)
}

fn fresh_settings() -> (r: Settings)
    ensures
        r@ == no_settings(),
{
    let st = Settings {
        odb: None,
        site: None,
        options: Options {
            die: Vec::new(),
            core: Vec::new(),
            additional: Vec::new(),
            parity: RowParity::Any,
            flipped: Vec::new(),
            out_odb: None,
            report: None,
            dry_run: false,
            gap: None,
            utilization: None,
            aspect_ratio: None,
            core_space: None,
        },
    };
    assert(st@ =~= no_settings());
    st
}

fn find_area_fault(o: &Options, make_rows: bool) -> (r: Option<UsageError>)
    ensures
        area_fault(o@, make_rows) == (match r {
            Some(e) => Some(e@),
            None => None,
        }),
{
    let die: usize = o.die.len();
    let core: usize = o.core.len();
    assert(o@.die.len() == die && o@.core.len() == core);
    if make_rows {
        if die > 0 {
            Some(UsageError::DieWithMakeRows)
        } else if core != 4 && o.core_space.is_none() {
            Some(UsageError::NoCoreForRows)
        } else {
            None
        }
    } else if o.utilization.is_some() {
        if die > 0 {
            Some(UsageError::DieWithUtilization)
        } else if core > 0 {
            Some(UsageError::CoreWithUtilization)
        } else if o.core_space.is_none() {
            Some(UsageError::NoMargins)
        } else {
            None
        }
    } else if o.aspect_ratio.is_some() {
        Some(UsageError::AspectWithDie)
    } else if o.core_space.is_some() && die > 0 {
        Some(UsageError::MarginsWithDie)
    } else if die > 4 || core > 4 {
        None
    } else if die != 4 {
        Some(UsageError::NoDie)
    } else if core != 4 {
        Some(UsageError::NoCore)
    } else {
        None
    }
}

/// Reads the arguments of either command.
pub fn parse_args_inner(args: &[String], make_rows: bool) -> (r: Result<Cli, UsageError>)
    ensures
        cli_outcome(r) == command_line(texts(args@), make_rows),
{
    let ghost words = texts(args@);
    let mut st: Settings = fresh_settings();
    let mut i: usize = 0;
    while i < args.len()
        invariant
            i <= args@.len(),
            words == texts(args@),
            scan(words, 0, no_settings()) == scan(words, i as int, st@),
        decreases args.len() - i,
    {
        assert(words[i as int] == args@[i as int]@);
        if is_value_option(args[i].as_str()) {
            if i + 1 >= args.len() {
                return Err(UsageError::NeedsValue(args[i].clone()));
            }
            assert(words[i + 1] == args@[i + 1]@);
            match set_value(st, args[i].as_str(), args[i + 1].as_str()) {
                Ok(next) => {
                    st = next;
                },
                Err(e) => {
                    return Err(e);
                },
            }
            i = i + 2;
        } else {
            match set_flag(st, args[i].as_str()) {
                Ok(next) => {
                    st = next;
                },
                Err(e) => {
                    return Err(e);
                },
            }
            i = i + 1;
        }
    }
    let fault: Option<UsageError> = find_area_fault(&st.options, make_rows);
    match (st.odb, st.site) {
        (None, _) => Err(UsageError::NoDatabase),
        (_, None) => Err(UsageError::NoSite),
        (Some(odb), Some(site)) => match fault {
            Some(e) => Err(e),
            None => Ok(Cli { odb, site, make_rows, options: st.options }),
        },
    }
}

/// Reads the arguments of `run`.
pub fn parse_args(args: &[String]) -> (r: Result<Cli, UsageError>)
    ensures
        cli_outcome(r) == command_line(texts(args@), false),
{
    parse_args_inner(args, false)
}

/// Reads the arguments of `make-rows`: those of `run` with the die left alone.
pub fn parse_args_make_rows(args: &[String]) -> (r: Result<Cli, UsageError>)
    ensures
        cli_outcome(r) == command_line(texts(args@), true),
{
    parse_args_inner(args, true)
}

/// Everything numeric that was given reads as a number, outlines are complete, and margins are
/// four.
pub open spec fn options_read(o: OptionsModel) -> bool {
    &&& all_numbers(o.die) && (o.die.len() == 0 || o.die.len() >= 4)
    &&& all_numbers(o.core) && (o.core.len() == 0 || o.core.len() >= 4)
    &&& o.gap matches Some(t) ==> is_number(t)
    &&& o.utilization matches Some(t) ==> is_number(t)
    &&& o.aspect_ratio matches Some(t) ==> is_number(t)
    &&& o.core_space matches Some(w) ==> w.len() == 4 && all_numbers(w)
}

proof fn lemma_no_non_number(words: Seq<Seq<char>>)
    requires
        first_non_number(words) is None,
    ensures
        all_numbers(words),
    decreases words.len(),
{
    if words.len() > 0 {
        let rest = words.drop_last();
        lemma_no_non_number(rest);
        assert forall|i: int| 0 <= i < words.len() implies is_number(#[trigger] words[i]) by {
            if i < rest.len() {
                assert(rest[i] == words[i]);
            }
        }
    }
}

proof fn lemma_scan_reads(args: Seq<Seq<char>>, i: int, st: SettingsModel)
    requires
        options_read(st.options),
    ensures
        scan(args, i, st) matches Ok(end) ==> options_read(end.options),
    decreases args.len() - i,
{
    if 0 <= i < args.len() {
        if takes_value(args[i]) {
            if i + 1 < args.len() {
                let v = args[i + 1];
                if first_non_number(words_of(v, Separator::Blank)) is None {
                    lemma_no_non_number(words_of(v, Separator::Blank));
                }
                match with_value(st, args[i], v) {
                    Ok(next) => {
                        assert(options_read(next.options));
                        lemma_scan_reads(args, i + 2, next);
                    },
                    Err(_) => {},
                }
            }
        } else {
            match with_flag(st, args[i]) {
                Ok(next) => {
                    lemma_scan_reads(args, i + 1, next);
                },
                Err(_) => {},
            }
        }
    }
}

/// An accepted command line can be converted: every number reads as one. It says where the areas
/// come from: `make-rows` has a rectangle or margins for the core and no die, and `run` has two
/// rectangles, a polygon, or a utilization with margins and no outline. Margins never stand beside
/// a given die.
pub proof fn law_an_accepted_command_line_is_complete(args: Seq<Seq<char>>, make_rows: bool)
    ensures
        command_line(args, make_rows) matches Ok(c) ==> {
            let o = c.options;
            &&& c.make_rows == make_rows
            &&& options_read(o)
            &&& make_rows ==> o.die.len() == 0 && (is_rectangle(o.core) || o.core_space is Some)
            &&& !make_rows && o.utilization is Some ==> o.core_space is Some && o.die.len() == 0
                && o.core.len() == 0
            &&& !make_rows && o.utilization is None ==> o.aspect_ratio is None && (o.die.len() > 4
                || o.core.len() > 4 || (is_rectangle(o.die) && is_rectangle(o.core)))
            &&& o.die.len() > 0 ==> o.core_space is None
        },
{
    lemma_scan_reads(args, 0, no_settings());
}

proof fn lemma_scan_goes_on(args: Seq<Seq<char>>, more: Seq<Seq<char>>, i: int, st: SettingsModel)
    requires
        0 <= i <= args.len(),
    ensures
        scan(args, i, st) matches Ok(end) ==> scan(args + more, i, st) == scan(
            args + more,
            args.len() as int,
            end,
        ),
        scan(args, i, st) matches Err(e) ==> e is NeedsValue || scan(args + more, i, st) == Err::<
            SettingsModel,
            _,
        >(e),
    decreases args.len() - i,
{
    let all = args + more;
    if i < args.len() {
        assert(all[i] == args[i]);
        if takes_value(args[i]) {
            if i + 1 < args.len() {
                assert(all[i + 1] == args[i + 1]);
                match with_value(st, args[i], args[i + 1]) {
                    Ok(next) => {
                        lemma_scan_goes_on(args, more, i + 2, next);
                    },
                    Err(_) => {},
                }
            }
        } else {
            match with_flag(st, args[i]) {
                Ok(next) => {
                    lemma_scan_goes_on(args, more, i + 1, next);
                },
                Err(_) => {},
            }
        }
    }
}

proof fn lemma_option_texts()
    ensures
        "--die-area"@.len() == 10 && "--core-area"@.len() == 11 && "--additional-sites"@.len()
            == 18,
        "--flip-sites"@.len() == 12 && "--row-parity"@.len() == 12 && "--core-space"@.len() == 12,
        "--flip-sites"@[2] == 'f' && "--row-parity"@[2] == 'r' && "--core-space"@[2] == 'c',
        "--utilization"@.len() == 13 && "--aspect-ratio"@.len() == 14 && "--gap"@.len() == 5,
        "--out-odb"@.len() == 9 && "--dry-run"@.len() == 9 && "-o"@.len() == 2,
        "--out-odb"@[2] == 'o' && "--dry-run"@[2] == 'd',
        "--site"@.len() == 6 && "--json"@.len() == 6 && "--site"@[2] == 's' && "--json"@[2] == 'j',
{
    reveal_strlit("--die-area");
    reveal_strlit("--core-area");
    reveal_strlit("--site");
    reveal_strlit("--additional-sites");
    reveal_strlit("--flip-sites");
    reveal_strlit("--row-parity");
    reveal_strlit("--utilization");
    reveal_strlit("--aspect-ratio");
    reveal_strlit("--core-space");
    reveal_strlit("--gap");
    reveal_strlit("--out-odb");
    reveal_strlit("-o");
    reveal_strlit("--dry-run");
    reveal_strlit("--json");
}

/// What is read of `args`, with nothing given before.
pub open spec fn settings_of(args: Seq<Seq<char>>) -> Result<SettingsModel, UsageErrorModel> {
    scan(args, 0, no_settings())
}

/// Without an argument nothing is set.
pub proof fn law_nothing_is_set_at_first()
    ensures
        settings_of(Seq::empty()) matches Ok(st) && {
            &&& st.odb is None && st.site is None
            &&& st.options.die.len() == 0 && st.options.core.len() == 0
            &&& st.options.additional.len() == 0 && st.options.flipped.len() == 0
            &&& st.options.parity == RowParity::Any
            &&& st.options.out_odb is None && st.options.report is None
            &&& !st.options.dry_run
            &&& st.options.gap is None && st.options.utilization is None
            &&& st.options.aspect_ratio is None && st.options.core_space is None
        },
{
}

/// What one more option with its value changes of what was read before: the setting that the option
/// is for, to what the value says, and no other. What was set before gives way.
pub proof fn law_an_option_sets_its_own(
    args: Seq<Seq<char>>,
    st: SettingsModel,
    v: Seq<char>,
    p: RowParity,
)
    requires
        settings_of(args) == Ok::<_, UsageErrorModel>(st),
    ensures
        ({
            let o = st.options;
            let coordinates = words_of(v, Separator::Coordinate);
            let names = words_of(v, Separator::Name);
            let outline = all_numbers(coordinates) && coordinates.len() >= 4;
            let t = trimmed(v);
            &&& outline ==> settings_of(args + seq!["--die-area"@, v]) == Ok::<_, UsageErrorModel>(
                (SettingsModel { options: OptionsModel { die: coordinates, ..o }, ..st }),
            )
            &&& outline ==> settings_of(args + seq!["--core-area"@, v]) == Ok::<_, UsageErrorModel>(
                (SettingsModel { options: OptionsModel { core: coordinates, ..o }, ..st }),
            )
            &&& settings_of(args + seq!["--site"@, v]) == Ok::<_, UsageErrorModel>(
                (SettingsModel { site: Some(v), ..st }),
            )
            &&& settings_of(args + seq!["--additional-sites"@, v]) == Ok::<_, UsageErrorModel>(
                (SettingsModel { options: OptionsModel { additional: names, ..o }, ..st }),
            )
            &&& settings_of(args + seq!["--flip-sites"@, v]) == Ok::<_, UsageErrorModel>(
                (SettingsModel { options: OptionsModel { flipped: names, ..o }, ..st }),
            )
            &&& parity_named(v) == Some(p) ==> settings_of(args + seq!["--row-parity"@, v]) == Ok::<
                _,
                UsageErrorModel,
            >((SettingsModel { options: OptionsModel { parity: p, ..o }, ..st }))
            &&& is_number(t) ==> settings_of(args + seq!["--utilization"@, v]) == Ok::<
                _,
                UsageErrorModel,
            >((SettingsModel { options: OptionsModel { utilization: Some(t), ..o }, ..st }))
            &&& is_number(t) ==> settings_of(args + seq!["--aspect-ratio"@, v]) == Ok::<
                _,
                UsageErrorModel,
            >((SettingsModel { options: OptionsModel { aspect_ratio: Some(t), ..o }, ..st }))
            &&& is_number(t) ==> settings_of(args + seq!["--gap"@, v]) == Ok::<_, UsageErrorModel>(
                (SettingsModel { options: OptionsModel { gap: Some(t), ..o }, ..st }),
            )
            &&& settings_of(args + seq!["--out-odb"@, v]) == Ok::<_, UsageErrorModel>(
                (SettingsModel { options: OptionsModel { out_odb: Some(v), ..o }, ..st }),
            )
            &&& settings_of(args + seq!["-o"@, v]) == Ok::<_, UsageErrorModel>(
                (SettingsModel { options: OptionsModel { report: Some(v), ..o }, ..st }),
            )
        }),
{
    lemma_option_texts();
    lemma_option_is_read(args, st, "--die-area"@, v);
    lemma_option_is_read(args, st, "--core-area"@, v);
    lemma_option_is_read(args, st, "--site"@, v);
    lemma_option_is_read(args, st, "--additional-sites"@, v);
    lemma_option_is_read(args, st, "--flip-sites"@, v);
    lemma_option_is_read(args, st, "--row-parity"@, v);
    lemma_option_is_read(args, st, "--utilization"@, v);
    lemma_option_is_read(args, st, "--aspect-ratio"@, v);
    lemma_option_is_read(args, st, "--gap"@, v);
    lemma_option_is_read(args, st, "--out-odb"@, v);
    lemma_option_is_read(args, st, "-o"@, v);
}

proof fn lemma_option_is_read(
    args: Seq<Seq<char>>,
    st: SettingsModel,
    option: Seq<char>,
    v: Seq<char>,
)
    requires
        settings_of(args) == Ok::<_, UsageErrorModel>(st),
        takes_value(option),
    ensures
        settings_of(args + seq![option, v]) == with_value(st, option, v),
        settings_of(args + seq![option]) == Err::<SettingsModel, _>(
            UsageErrorModel::NeedsValue(option),
        ),
{
    let all = args + seq![option, v];
    lemma_scan_goes_on(args, seq![option, v], 0, no_settings());
    assert(all[args.len() as int] == option && all[args.len() as int + 1] == v);
    reveal_with_fuel(scan, 2);
    let alone = args + seq![option];
    lemma_scan_goes_on(args, seq![option], 0, no_settings());
    assert(alone[args.len() as int] == option);
}

/// One margin is all four, and four margins are taken as they stand: bottom, top, left, right.
pub proof fn law_one_margin_is_all_four(args: Seq<Seq<char>>, st: SettingsModel, v: Seq<char>)
    requires
        settings_of(args) == Ok::<_, UsageErrorModel>(st),
    ensures
        ({
            let words = words_of(v, Separator::Blank);
            let r = settings_of(args + seq!["--core-space"@, v]);
            &&& all_numbers(words) && words.len() == 1 ==> (r matches Ok(next) && {
                &&& next.options.core_space matches Some(m) && m.len() == 4 && forall|i: int|
                    0 <= i < 4 ==> #[trigger] m[i] == words[0]
                &&& next == (SettingsModel {
                    options: OptionsModel {
                        core_space: next.options.core_space,
                        ..st.options
                    },
                    ..st
                })
            })
            &&& all_numbers(words) && words.len() == 4 ==> r == Ok::<_, UsageErrorModel>(
                (SettingsModel {
                    options: OptionsModel { core_space: Some(words), ..st.options },
                    ..st
                }),
            )
            &&& all_numbers(words) && words.len() != 1 && words.len() != 4 ==> r == Err::<
                SettingsModel,
                _,
            >(UsageErrorModel::MarginCount)
        }),
{
    let words = words_of(v, Separator::Blank);
    lemma_option_texts();
    lemma_option_is_read(args, st, "--core-space"@, v);
    if all_numbers(words) {
        lemma_all_numbers(words, words.len() as int);
        assert(words.take(words.len() as int) =~= words);
    }
}

proof fn lemma_all_numbers(words: Seq<Seq<char>>, k: int)
    requires
        0 <= k <= words.len(),
        forall|i: int| 0 <= i < k ==> is_number(#[trigger] words[i]),
    ensures
        first_non_number(words.take(k)) is None,
    decreases k,
{
    if k > 0 {
        lemma_all_numbers(words, k - 1);
        assert(words.take(k).drop_last() =~= words.take(k - 1));
        assert(words.take(k).last() == words[k - 1]);
    }
}

/// What is refused of a value, and how: a coordinate that is no number before too few coordinates,
/// the first margin that is no number, a word that names no parity, a text that is no number. The
/// refusal repeats the option and the value.
pub proof fn law_a_value_that_does_not_read_is_refused(
    args: Seq<Seq<char>>,
    st: SettingsModel,
    v: Seq<char>,
    k: int,
)
    requires
        settings_of(args) == Ok::<_, UsageErrorModel>(st),
    ensures
        ({
            let coordinates = words_of(v, Separator::Coordinate);
            let margins = words_of(v, Separator::Blank);
            let die = settings_of(args + seq!["--die-area"@, v]);
            let core = settings_of(args + seq!["--core-area"@, v]);
            &&& !all_numbers(coordinates) ==> die == Err::<SettingsModel, _>(
                (UsageErrorModel::Unwanted {
                    option: "--die-area"@,
                    wants: "numbers"@,
                    value: v,
                }),
            ) && core == Err::<SettingsModel, _>(
                (UsageErrorModel::Unwanted {
                    option: "--core-area"@,
                    wants: "numbers"@,
                    value: v,
                }),
            )
            &&& all_numbers(coordinates) && coordinates.len() < 4 ==> die == Err::<
                SettingsModel,
                _,
            >(
                (UsageErrorModel::Unwanted {
                    option: "--die-area"@,
                    wants: "'x1 y1 x2 y2'"@,
                    value: v,
                }),
            ) && core == Err::<SettingsModel, _>(
                (UsageErrorModel::Unwanted {
                    option: "--core-area"@,
                    wants: "'x1 y1 x2 y2'"@,
                    value: v,
                }),
            )
            &&& 0 <= k < margins.len() && !is_number(margins[k]) && (forall|i: int|
                0 <= i < k ==> is_number(#[trigger] margins[i])) ==> settings_of(
                args + seq!["--core-space"@, v],
            ) == Err::<SettingsModel, _>(UsageErrorModel::MarginNotANumber(margins[k]))
            &&& parity_named(v) is None ==> settings_of(args + seq!["--row-parity"@, v]) == Err::<
                SettingsModel,
                _,
            >(
                (UsageErrorModel::Unwanted {
                    option: "--row-parity"@,
                    wants: "NONE, ODD or EVEN"@,
                    value: v,
                }),
            )
            &&& !is_number(trimmed(v)) ==> {
                &&& settings_of(args + seq!["--utilization"@, v]) == Err::<SettingsModel, _>(
                    (UsageErrorModel::Unwanted {
                        option: "--utilization"@,
                        wants: "a percentage"@,
                        value: v,
                    }),
                )
                &&& settings_of(args + seq!["--aspect-ratio"@, v]) == Err::<SettingsModel, _>(
                    (UsageErrorModel::Unwanted {
                        option: "--aspect-ratio"@,
                        wants: "a number"@,
                        value: v,
                    }),
                )
                &&& settings_of(args + seq!["--gap"@, v]) == Err::<SettingsModel, _>(
                    (UsageErrorModel::Unwanted {
                        option: "--gap"@,
                        wants: "a number in microns"@,
                        value: v,
                    }),
                )
            }
        }),
{
    lemma_option_texts();
    lemma_option_is_read(args, st, "--die-area"@, v);
    lemma_option_is_read(args, st, "--core-area"@, v);
    lemma_option_is_read(args, st, "--core-space"@, v);
    lemma_option_is_read(args, st, "--row-parity"@, v);
    lemma_option_is_read(args, st, "--utilization"@, v);
    lemma_option_is_read(args, st, "--aspect-ratio"@, v);
    lemma_option_is_read(args, st, "--gap"@, v);
    let margins = words_of(v, Separator::Blank);
    if 0 <= k < margins.len() && !is_number(margins[k]) && (forall|i: int|
        0 <= i < k ==> is_number(#[trigger] margins[i])) {
        lemma_all_numbers(margins, k);
        assert(margins.take(k + 1).drop_last() =~= margins.take(k));
        assert(margins.take(k + 1).last() == margins[k]);
        lemma_non_number_stays(margins, k + 1);
    }
}

/// The options that stand for a setting.
pub open spec fn setting_options() -> Seq<Seq<char>> {
    seq![
        "--die-area"@,
        "--core-area"@,
        "--site"@,
        "--additional-sites"@,
        "--flip-sites"@,
        "--row-parity"@,
        "--utilization"@,
        "--aspect-ratio"@,
        "--core-space"@,
        "--gap"@,
        "--out-odb"@,
        "-o"@,
    ]
}

/// What one more argument changes that is no option with a value: `--dry-run` sets the dry run,
/// `--json` sets nothing, any other that begins with a hyphen is unknown, and the rest name the
/// database. An option that takes a value needs one, and what was refused stays refused, whatever
/// follows.
pub proof fn law_other_arguments(
    args: Seq<Seq<char>>,
    a: Seq<char>,
    k: int,
    more: Seq<Seq<char>>,
)
    ensures
        settings_of(args) matches Ok(st) ==> {
            let r = settings_of(args.push(a));
            &&& 0 <= k < setting_options().len() && a == setting_options()[k] ==> r == Err::<
                SettingsModel,
                _,
            >(UsageErrorModel::NeedsValue(a))
            &&& a == "--dry-run"@ ==> r == Ok::<_, UsageErrorModel>(
                (SettingsModel { options: OptionsModel { dry_run: true, ..st.options }, ..st }),
            )
            &&& a == "--json"@ ==> r == Ok::<_, UsageErrorModel>(st)
            &&& a.len() > 0 && a[0] == '-' && a != "--dry-run"@ && a != "--json"@
                && !setting_options().contains(a) ==> r == Err::<SettingsModel, _>(
                UsageErrorModel::UnknownOption(a),
            )
            &&& a.len() == 0 || a[0] != '-' ==> r == Ok::<_, UsageErrorModel>(
                (SettingsModel { odb: Some(a), ..st }),
            )
        },
        settings_of(args) matches Err(e) ==> e is NeedsValue || settings_of(args + more) == Err::<
            SettingsModel,
            _,
        >(e),
{
    lemma_scan_goes_on(args, seq![a], 0, no_settings());
    lemma_scan_goes_on(args, more, 0, no_settings());
    assert(args.push(a) =~= args + seq![a]);
    assert(args.push(a)[args.len() as int] == a);
    reveal_with_fuel(scan, 2);
    lemma_option_texts();
    lemma_hyphens();
    let all = setting_options();
    assert(all[0] == "--die-area"@ && all[1] == "--core-area"@ && all[2] == "--site"@);
    assert(all[3] == "--additional-sites"@ && all[4] == "--flip-sites"@);
    assert(all[5] == "--row-parity"@ && all[6] == "--utilization"@ && all[7] == "--aspect-ratio"@);
    assert(all[8] == "--core-space"@ && all[9] == "--gap"@ && all[10] == "--out-odb"@);
    assert(all[11] == "-o"@);
    assert(takes_value(a) <==> all.contains(a));
}

proof fn lemma_hyphens()
    ensures
        "--die-area"@[0] == '-' && "--core-area"@[0] == '-' && "--site"@[0] == '-',
        "--additional-sites"@[0] == '-' && "--flip-sites"@[0] == '-' && "--row-parity"@[0] == '-',
        "--utilization"@[0] == '-' && "--aspect-ratio"@[0] == '-' && "--core-space"@[0] == '-',
        "--gap"@[0] == '-' && "--out-odb"@[0] == '-' && "-o"@[0] == '-',
        "--dry-run"@[0] == '-' && "--json"@[0] == '-',
{
    reveal_strlit("--die-area");
    reveal_strlit("--core-area");
    reveal_strlit("--site");
    reveal_strlit("--additional-sites");
    reveal_strlit("--flip-sites");
    reveal_strlit("--row-parity");
    reveal_strlit("--utilization");
    reveal_strlit("--aspect-ratio");
    reveal_strlit("--core-space");
    reveal_strlit("--gap");
    reveal_strlit("--out-odb");
    reveal_strlit("-o");
    reveal_strlit("--dry-run");
    reveal_strlit("--json");
}

/// What a command line that reads is still refused for, in this order: no database, no site, and
/// areas that contradict each other or are left open. Else it is what was read, and the command
/// that was asked for.
pub proof fn law_a_command_line_that_reads(
    args: Seq<Seq<char>>,
    make_rows: bool,
    st: SettingsModel,
)
    requires
        settings_of(args) == Ok::<_, UsageErrorModel>(st),
    ensures
        ({
            let r = command_line(args, make_rows);
            let o = st.options;
            let named = st.odb is Some && st.site is Some;
            let die = o.die.len();
            let core = o.core.len();
            let derived = o.utilization is Some;
            &&& st.odb is None <==> r == Err::<CliModel, _>(UsageErrorModel::NoDatabase)
            &&& st.odb is Some && st.site is None <==> r == Err::<CliModel, _>(
                UsageErrorModel::NoSite,
            )
            &&& named && make_rows ==> {
                &&& die > 0 ==> r == Err::<CliModel, _>(UsageErrorModel::DieWithMakeRows)
                &&& die == 0 && core != 4 && o.core_space is None ==> r == Err::<CliModel, _>(
                    UsageErrorModel::NoCoreForRows,
                )
                &&& r is Ok <==> die == 0 && (core == 4 || o.core_space is Some)
            }
            &&& named && !make_rows && derived ==> {
                &&& die > 0 ==> r == Err::<CliModel, _>(UsageErrorModel::DieWithUtilization)
                &&& die == 0 && core > 0 ==> r == Err::<CliModel, _>(
                    UsageErrorModel::CoreWithUtilization,
                )
                &&& die == 0 && core == 0 && o.core_space is None ==> r == Err::<CliModel, _>(
                    UsageErrorModel::NoMargins,
                )
                &&& r is Ok <==> die == 0 && core == 0 && o.core_space is Some
            }
            &&& named && !make_rows && !derived ==> {
                let margins = o.core_space is Some && die > 0;
                let polygon = die > 4 || core > 4;
                &&& o.aspect_ratio is Some ==> r == Err::<CliModel, _>(
                    UsageErrorModel::AspectWithDie,
                )
                &&& o.aspect_ratio is None && margins ==> r == Err::<CliModel, _>(
                    UsageErrorModel::MarginsWithDie,
                )
                &&& o.aspect_ratio is None && !margins && !polygon && die != 4 ==> r == Err::<
                    CliModel,
                    _,
                >(UsageErrorModel::NoDie)
                &&& o.aspect_ratio is None && !margins && !polygon && die == 4 && core != 4 ==> r
                    == Err::<CliModel, _>(UsageErrorModel::NoCore)
                &&& r is Ok <==> o.aspect_ratio is None && !margins && (polygon || die == 4 && core
                    == 4)
            }
            &&& r matches Ok(c) ==> {
                &&& st.odb == Some(c.odb)
                &&& st.site == Some(c.site)
                &&& c.make_rows == make_rows
                &&& c.options == o
            }
        }),
{
}

/// A refusal of a value repeats the option, what it wants and what it got; an unknown option, an
/// option without a value and a margin that is no number are repeated too.
pub proof fn law_a_usage_error_repeats_the_argument(
    a: Seq<char>,
    wants: Seq<char>,
    value: Seq<char>,
)
    ensures
        UsageErrorModel::NeedsValue(a).message() == a + " needs a value"@,
        (UsageErrorModel::Unwanted { option: a, wants, value }).message() == a + " wants "@ + wants
            + ", got `"@ + value + "`"@,
        UsageErrorModel::MarginNotANumber(a).message() == "--core-space: not a number: `"@ + a
            + "`"@,
        UsageErrorModel::UnknownOption(a).message() == "unknown option `"@ + a + "`"@,
{
}

/// A command line is known by what it stores, option by option.
pub proof fn law_a_command_line_is_what_it_stores(c: Cli, e: UsageError, i: int)
    ensures
        ({
            let o = c.options;
            let m = c@.options;
            &&& c@.odb == c.odb@ && c@.site == c.site@ && c@.make_rows == c.make_rows
            &&& m.die.len() == o.die@.len() && m.core.len() == o.core@.len()
            &&& 0 <= i < o.die@.len() ==> m.die[i] == o.die@[i]@
            &&& 0 <= i < o.core@.len() ==> m.core[i] == o.core@[i]@
            &&& m.additional.len() == o.additional@.len() && m.flipped.len() == o.flipped@.len()
            &&& 0 <= i < o.additional@.len() ==> m.additional[i] == o.additional@[i]@
            &&& 0 <= i < o.flipped@.len() ==> m.flipped[i] == o.flipped@[i]@
            &&& m.parity == o.parity && m.dry_run == o.dry_run
            &&& o.out_odb is None ==> m.out_odb is None
            &&& o.out_odb matches Some(t) ==> m.out_odb == Some(t@)
            &&& o.report is None ==> m.report is None
            &&& o.report matches Some(t) ==> m.report == Some(t@)
            &&& o.gap is None ==> m.gap is None
            &&& o.gap matches Some(t) ==> m.gap == Some(t@)
            &&& o.utilization is None ==> m.utilization is None
            &&& o.utilization matches Some(t) ==> m.utilization == Some(t@)
            &&& o.aspect_ratio is None ==> m.aspect_ratio is None
            &&& o.aspect_ratio matches Some(t) ==> m.aspect_ratio == Some(t@)
            &&& o.core_space is None ==> m.core_space is None
            &&& o.core_space matches Some(w) ==> (m.core_space matches Some(v) && v.len()
                == w@.len() && (0 <= i < w@.len() ==> v[i] == w@[i]@))
        }),
        e matches UsageError::NeedsValue(a) ==> e@ == UsageErrorModel::NeedsValue(a@),
        e matches UsageError::Unwanted { option, wants, value } ==> e@
            == (UsageErrorModel::Unwanted { option: option@, wants: wants@, value: value@ }),
        e matches UsageError::MarginNotANumber(a) ==> e@ == UsageErrorModel::MarginNotANumber(a@),
        e matches UsageError::UnknownOption(a) ==> e@ == UsageErrorModel::UnknownOption(a@),
{
}

/// The usage errors that repeat nothing have a sentence each.
pub proof fn law_a_usage_error_has_its_sentence(e: UsageError)
    ensures
        e is MarginCount ==> e@.message()
            == "IFP-0013 -core_space is either a list of 4 margins or one value for all margins."@,
        e is NoDatabase ==> e@.message() == "needs a path to a .odb"@,
        e is NoSite ==> e@.message() == "IFP-0035 use -site to add placement rows."@,
        e is DieWithMakeRows ==> e@.message()
            == "make-rows does not take a die area; it uses the one already set"@,
        e is NoCoreForRows ==> e@.message()
            == "IFP-0062 no -core_area or -core_space specified."@,
        e is DieWithUtilization ==> e@.message()
            == "IFP-0014 -die_area cannot be used with -utilization."@,
        e is CoreWithUtilization ==> e@.message()
            == "IFP-0020 -core_area cannot be used with -utilization."@,
        e is NoMargins ==> e@.message() == "IFP-0034 no -core_space specified."@,
        e is AspectWithDie ==> e@.message()
            == "IFP-0033 -aspect_ratio cannot be used with -die_area."@,
        e is MarginsWithDie ==> e@.message()
            == "IFP-0024 -core_space cannot be used with -die_area."@,
        e is NoDie ==> e@.message() == "`run` needs --die-area or --utilization"@,
        e is NoCore ==> e@.message() == "`run` needs --core-area"@,
{
}

} // verus!
