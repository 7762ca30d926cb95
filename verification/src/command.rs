//! What the command answers by itself: which command is meant, its usage, and its description.

use crate::model::texts;
use crate::rows::lists_name;
use crate::text::{chars_of, same_text};
use vstd::prelude::*;

verus! {

/// How the command is used.
pub const USAGE: &'static str = "\
vyges physical ifp — initialize the floorplan: die area, core area, and rows

USAGE:
  vyges physical ifp run <design.odb> --die-area 'x1 y1 x2 y2' --core-area 'x1 y1 x2 y2' --site NAME
  vyges physical ifp run <design.odb> --utilization PCT --core-space 'b t l r' --site NAME
  vyges physical ifp make-rows <design.odb> --core-area 'x1 y1 x2 y2' --site NAME
  vyges physical ifp make-tracks <design.odb> [--track LAYER:xoff,xpitch,yoff,ypitch]... [--out-odb FILE]
  vyges physical ifp --describe
  vyges physical ifp --help

MAKE-ROWS:
  Rows on a die that is ALREADY set: same options as run minus the die, with the core given
  either explicitly (--core-area) or as margins off the die (--core-space).

MAKE-TRACKS:
  Routing tracks over the die, from the technology's own pitches. With no --track, every ROUTING
  layer with a non-zero routing level is taken from the LEF; --track gives one layer explicitly,
  in MICRONS, which is the form a technology's .tracks file uses. Repeatable.

OPTIONS:
  --die-area 'x1 y1 x2 y2'   die rectangle, in MICRONS
  --utilization PCT          derive the die from the placed cell area instead of giving it
  --aspect-ratio R           height/width for the derived core (default 1.0)
  --core-space 'b t l r'     margins in MICRONS, or ONE value for all four; required with
                             --utilization and refused with --die-area
  --core-area 'x1 y1 x2 y2'  core rectangle, in MICRONS
  --site NAME                the base site whose height sets the row pitch
  --additional-sites A,B     also tile rows for these sites (hybrid rows)
  --row-parity NONE|ODD|EVEN trim the row count to a parity (default NONE)
  --flip-sites A,B           shift the row-orientation phase for these sites
  --gap MICRONS              margin around a voltage domain (default: 6 x the site height)
  --out-odb FILE             write the database here (default: IN PLACE, over the input)
  --dry-run                  plan and report, write nothing
  -o FILE                    write the report to FILE instead of stdout
  --json                     emit JSON (the default)
  --describe                 print a machine-readable JSON description of the command

EXIT STATUS:
  0  applied     the floorplan was built and written
  1  refused     the design cannot be floorplanned as asked (empty die, core outside the
                 die, degenerate or mismatched site, or no row fits)
  2  error       usage error, unreadable database, no DBU scale, or a failed write
";

/// Where the description names the pin that the program was built against.
pub const PIN_TOKEN: &'static str = "@OPENROAD_PIN@";

/// The description of the command, for machines.
pub const DESCRIBE: &'static str = r#"{
  "schema": "vyges-tool-descriptor/1.1",
  "openroad_pin": "@OPENROAD_PIN@",
  "name": "ifp",
  "summary": "floorplan initialization: die area, site-grid snapping, rows, and the core area they cover",
  "maturity": "structured",
  "provenance_limitations": [
      "input_hash covers the argument vector, not the content of the .odb it names.",
      "Implements BOTH forms of initialize_floorplan. Give --die-area and --core-area explicitly, or give --utilization with --core-space and the die is derived from the placed cell area. The two are mutually exclusive, as upstream has them: --die-area with --utilization is refused (IFP-14), and so is --core-area (IFP-20).",
      "The utilization form is TWO steps and the intermediate matters. The die is derived first -- core_width from sqrt(design area / utilization / aspect ratio) TRUNCATED to a whole DBU, core_height ROUNDED from that already-truncated width -- and then snapped to the manufacturing grid. The core is taken back off the SNAPPED die by subtracting the same margins, so it is not the rectangle the die computation laid out. Both are upstream behaviours.",
      "Areas are given in MICRONS, matching the upstream Tcl argument, and converted with the database's dbu_per_micron. A database with no DBU scale is an error rather than an assumed scale.",
      "The core's lower left is snapped UP to the site grid while the upper right is left where it was; the core area finally stored is what the rows COVER, not what was asked for. Both are upstream behaviors and both are load-bearing -- a caller that reads back the core area will not always get its own argument.",
      "Rows are named globally across sites (ROW_0, ROW_1, ...) rather than restarting per site, so adding a site renumbers the rows that follow it.",
      "Existing rows are cleared before the new ones are built. Anything already placed on the old row grid is not re-legalized by this engine.",
      "Written against the upstream ifp regression goldens at pin @OPENROAD_PIN@. The algorithm is reimplemented from the published behavior, not transliterated; where the two disagree the goldens are the arbiter.",
      "MEASURED against that suite at the same pinned commit, re-run 2026-09-01, on THREE axes. Log lines: 23 cases reproduce every compared IFP-* line exactly, 0 fail, 17 not comparable (6 utilization form, 6 polygon floorplans, 3 that never call initialize_floorplan, 2 that need UPF). Track patterns: 8 of the 8 cases that call make_tracks match the reference database exactly, none skipped. Rows and die area, against the DEF goldens upstream ships: 21 comparable, of which 5 differed until the row cutting and the voltage-domain split landed. The log-line number alone was green throughout all five, which is why it is quoted last.",
      "HYBRID SITES are supported: a site with a row pattern tiles the core from that pattern (IFP-0049) and every hybrid site additionally gets rows spanning a whole pattern each (IFP-0050), offset to where its pattern occurs in the base pattern -- matching as written (R0) or reversed with orientations mirrored (MX). Row parity is REFUSED on a hybrid floorplan (IFP-0051), because parity would have to trim whole patterns rather than rows.",
      "Sites are visited in NAME order and deduplicated by name, not in the order given on the command line -- row numbering and log order both follow from this. The site set also includes sites used by placed instances that were never named as arguments (upstream addUsedSites), excluding blocks.",
      "VOLTAGE AND POWER DOMAINS split the rows. A row crossing a domain group's region, or lying within a margin of it, is replaced by up to three pieces: one left of the domain, one right of it, and -- only where the row lies wholly inside the domain's y range -- one across the domain itself. The margin is --gap, or 6x the minimum site height when none is given. Rows on PAD sites are never touched. The split happens AFTER the core area and the per-site row counts are settled, so IFP-0001 and IFP-0102 report the floorplan before it.",
      "ROWS ARE CUT against the block's placement blockages, using OpenDB's own cutRows rather than a reimplementation of it. This runs last and unconditionally; a design that declares no blockage is unaffected.",
      "SCOPE -- upstream ifp exposes FOUR commands and this engine implements THREE: initialize_floorplan is `run`, make_rows is `make-rows`, make_tracks is `make-tracks`. insert_tiecells is NOT implemented.",
      "make-rows builds rows on a die the database already holds and never writes a die of its own. The core is given explicitly or as margins off that die, and an empty die is refused with IFP-63 or IFP-64 depending on which of the two forms was used -- upstream uses two codes for the one condition.",
      "Known gap -- UPF POWER DOMAINS. Upstream's floorplan inserts power-domain instances and its instance census rises accordingly (16 to 40 on upf_test); this engine inserts none. All floorplan GEOMETRY matches exactly on those cases; what differs is the instance census that follows from the count -- IFP-0103, IFP-0104 and IFP-0105 together.",
      "A macro larger than the core area is refused with IFP-0002 before anything is snapped or written, matching upstream's ordering: the die checks come first, so a design with both an empty die and an oversized macro reports the die. Pads and covers are exempt, and a master with R90 symmetry is measured against the core's larger dimension because it is free to rotate.",
      "The instance census (IFP-0103 total instance area, IFP-0104 effective utilization) counts EVERY instance's master area, including the pads and covers the fit check skips -- it is a census of the design, not a question about the core. Utilization is omitted rather than printed as infinity when the core area is zero.",
      "make-tracks covers BOTH pitch forms. A layer whose technology carries LEF58_PITCH (FIRSTLASTPITCH) is not one grid at the layer pitch: it expands into a stack of patterns, one per track within the cell row, each repeating on the CORE ROW HEIGHT, with one further pattern past the end. A layer whose x or y offset runs past the die is skipped ENTIRELY -- both axes, not just the one that overran.",
      "The default output is IN PLACE, over the input database. Pass --out-odb to write elsewhere, or --dry-run to plan without writing."
  ],
  "invocation": {
    "args_template": ["run", "{odb}"],
    "optional": [
      { "arg": "out", "flag": "-o" },
      { "arg": "out_odb", "flag": "--out-odb" }
    ],
    "emits_json": true
  },
  "inputs": {
    "type": "object",
    "required": ["odb", "die_area", "core_area", "site"],
    "properties": {
      "odb": { "type": "string", "description": "path to the design database (.odb)" },
      "die_area": { "type": "string", "description": "die rectangle in microns, 'x1 y1 x2 y2'" },
      "core_area": { "type": "string", "description": "core rectangle in microns, 'x1 y1 x2 y2'" },
      "site": { "type": "string", "description": "base site name" },
      "out_odb": { "type": "string", "description": "write the database here instead of in place" },
      "out": { "type": "string", "description": "write the report to FILE instead of stdout" }
    }
  },
  "consumes": ["odb"],
  "produces": ["odb"],
  "artifacts": [ { "role": "floorplan_report", "field": "report_path" } ],
  "assertion": {
    "id": "floorplan-built",
    "field": "status",
    "pass_when": { "eq": "applied" }
  }
}
"#;

/// `s` with every `token` replaced by `with`, from the left.
pub open spec fn replaced(s: Seq<char>, token: Seq<char>, with: Seq<char>) -> Seq<char>
    decreases s.len(),
{
    if token.len() == 0 || s.len() < token.len() {
        s
    } else if s.take(token.len() as int) == token {
        with + replaced(s.skip(token.len() as int), token, with)
    } else {
        seq![s[0]] + replaced(s.skip(1), token, with)
    }
}

fn stands_at(s: &Vec<char>, token: &Vec<char>, i: usize) -> (r: bool)
    requires
        i <= s@.len(),
    ensures
        r == (s@.len() - i >= token@.len() && s@.skip(i as int).take(token@.len() as int)
            == token@),
{
    if s.len() - i < token.len() {
        return false;
    }
    let ghost here = s@.skip(i as int).take(token@.len() as int);
    let n: usize = s.len();
    let mut k: usize = 0;
    while k < token.len()
        invariant
            n == s@.len(),
            k <= token@.len() <= n - i,
            here == s@.skip(i as int).take(token@.len() as int),
            forall|j: int| 0 <= j < k ==> here[j] == #[trigger] token@[j],
        decreases token.len() - k,
    {
        assert(here[k as int] == s@[i + k]);
        if s[i + k] != token[k] {
            return false;
        }
        k = k + 1;
    }
    assert(here =~= token@);
    true
}

/// `s` with every `token` replaced by `with`.
pub fn replace_token(s: &str, token: &str, with: &str) -> (r: String)
    requires
        token@.len() > 0,
    ensures
        r@ == replaced(s@, token@, with@),
{
    let chars: Vec<char> = chars_of(s);
    let wanted: Vec<char> = chars_of(token);
    let ghost whole = replaced(s@, token@, with@);
    let mut out: String = String::new();
    let mut start: usize = 0;
    let mut i: usize = 0;
    proof {
        assert(s@.skip(0) =~= s@);
        assert(out@ + s@.subrange(0, 0) + replaced(s@.skip(0), token@, with@) =~= whole);
    }
    while i < chars.len()
        invariant
            chars@ == s@,
            wanted@ == token@,
            token@.len() > 0,
            start <= i <= chars@.len(),
            whole == replaced(s@, token@, with@),
            out@ + s@.subrange(start as int, i as int) + replaced(
                s@.skip(i as int),
                token@,
                with@,
            ) == whole,
        decreases chars.len() - i,
    {
        let ghost rest = s@.skip(i as int);
        if stands_at(&chars, &wanted, i) {
            let n: usize = wanted.len();
            let ghost before = out@;
            out.append(s.substring_char(start, i));
            out.append(with);
            proof {
                assert(rest.skip(n as int) =~= s@.skip(i + n));
                assert(s@.subrange(i + n, i + n) =~= Seq::<char>::empty());
                assert(out@ + s@.subrange(i + n, i + n) + replaced(
                    s@.skip(i + n),
                    token@,
                    with@,
                ) =~= before + s@.subrange(start as int, i as int) + replaced(
                    rest,
                    token@,
                    with@,
                ));
            }
            i = i + n;
            start = i;
        } else {
            proof {
                let tail = replaced(s@.skip(i + 1), token@, with@);
                assert(rest.skip(1) =~= s@.skip(i + 1));
                assert(s@.subrange(start as int, i + 1) =~= s@.subrange(start as int, i as int)
                    + seq![s@[i as int]]);
                if rest.len() < token@.len() {
                    assert(rest =~= seq![s@[i as int]] + s@.skip(i + 1));
                    assert(tail == s@.skip(i + 1));
                }
                assert(replaced(rest, token@, with@) =~= seq![s@[i as int]] + tail);
                assert(out@ + s@.subrange(start as int, i + 1) + tail =~= out@ + s@.subrange(
                    start as int,
                    i as int,
                ) + (seq![s@[i as int]] + tail));
            }
            i = i + 1;
        }
    }
    let ghost before = out@;
    out.append(s.substring_char(start, i));
    proof {
        assert(s@.skip(i as int) =~= Seq::<char>::empty());
        assert(out@ + Seq::<char>::empty() =~= out@);
    }
    out
}

/// The description of the command as built against `pin`.
///
/// It reports what the program was built against, not that the program is current.
pub fn describe(pin: &str) -> (r: String)
    ensures
        r@ == replaced(DESCRIBE@, PIN_TOKEN@, pin@),
{
    proof {
        reveal_strlit("@OPENROAD_PIN@");
    }
    replace_token(DESCRIBE, PIN_TOKEN, pin)
}

/// Which command is meant.
#[derive(Debug, Clone, Copy, PartialEq, Eq, Structural)]
pub enum Command {
    Version,
    Describe,
    /// The usage, asked for.
    Help,
    /// The usage, for want of a command.
    Nothing,
    Run,
    MakeRows,
    MakeTracks,
    /// The first argument is no command.
    Unknown,
}

/// Which command the arguments mean. Asking a program what it is does not depend on the rest of
/// the command line being valid.
pub open spec fn command_of(args: Seq<Seq<char>>) -> Command {
    if args.contains("--version"@) || args.contains("-V"@) {
        Command::Version
    } else if args.contains("--describe"@) {
        Command::Describe
    } else if args.len() == 0 {
        Command::Nothing
    } else if args.contains("--help"@) || args.contains("-h"@) {
        Command::Help
    } else if args[0] == "make-rows"@ {
        Command::MakeRows
    } else if args[0] == "make-tracks"@ {
        Command::MakeTracks
    } else if args[0] == "run"@ {
        Command::Run
    } else {
        Command::Unknown
    }
}

/// Which command the arguments mean.
pub fn which_command(args: &[String]) -> (r: Command)
    ensures
        r == command_of(texts(args@)),
{
    assert(texts(args@).len() == args@.len());
    if lists_name(args, "--version") || lists_name(args, "-V") {
        return Command::Version;
    }
    if lists_name(args, "--describe") {
        return Command::Describe;
    }
    if args.len() == 0 {
        return Command::Nothing;
    }
    if lists_name(args, "--help") || lists_name(args, "-h") {
        return Command::Help;
    }
    assert(texts(args@)[0] == args@[0]@);
    let first: &str = args[0].as_str();
    if same_text(first, "make-rows") {
        Command::MakeRows
    } else if same_text(first, "make-tracks") {
        Command::MakeTracks
    } else if same_text(first, "run") {
        Command::Run
    } else {
        Command::Unknown
    }
}

/// How a run of the command ends.
#[derive(Debug, Clone, Copy, PartialEq, Eq, Structural)]
pub enum Ending {
    /// It said what it was asked about itself.
    Answered,
    /// The floorplan was built and written.
    Applied,
    /// The floorplan was planned, and nothing was to be written.
    Planned,
    /// The design cannot be floorplanned as asked.
    Refused,
    /// The arguments are no command line.
    Misused,
    /// The database cannot be read, or does not hold what was named.
    Unreadable,
    /// The database has no DBU scale.
    NoScale,
    /// A write failed.
    Unwritten,
}

/// The exit status. A refusal is about the design and is told apart from an error about the run.
pub fn exit_status(e: Ending) -> (r: u8)
    ensures
        r == (match e {
            Ending::Answered | Ending::Applied | Ending::Planned => 0u8,
            Ending::Refused => 1u8,
            Ending::Misused | Ending::Unreadable | Ending::NoScale | Ending::Unwritten => 2u8,
        }),
{
    match e {
        Ending::Answered | Ending::Applied | Ending::Planned => 0,
        Ending::Refused => 1,
        Ending::Misused | Ending::Unreadable | Ending::NoScale | Ending::Unwritten => 2,
    }
}

/// How a run ends once there was something to make: a failed write is an error, a dry run only
/// planned, and any other run applied what it made.
pub open spec fn ending_of(dry_run: bool, failed: bool) -> Ending {
    if failed {
        Ending::Unwritten
    } else if dry_run {
        Ending::Planned
    } else {
        Ending::Applied
    }
}

/// How a run ends once there was something to make.
pub fn run_ending(dry_run: bool, failed: bool) -> (r: Ending)
    ensures
        r == ending_of(dry_run, failed),
{
    if failed {
        Ending::Unwritten
    } else if dry_run {
        Ending::Planned
    } else {
        Ending::Applied
    }
}

/// How a run ends before microns are converted, if it does: a database without a DBU scale is an
/// error, not an assumed scale.
pub fn scale_ending(dbu_per_micron: i32) -> (r: Option<Ending>)
    ensures
        r == (if dbu_per_micron <= 0 {
            Some(Ending::NoScale)
        } else {
            None
        }),
{
    if dbu_per_micron <= 0 {
        Some(Ending::NoScale)
    } else {
        None
    }
}

/// `token` stands in `s` at `i`.
pub open spec fn token_at(s: Seq<char>, token: Seq<char>, i: int) -> bool {
    0 <= i && i + token.len() <= s.len() && s.subrange(i, i + token.len()) == token
}

/// The first token in a text gives way to the new text, and everything before it stays. What comes
/// behind it is dealt with in the same way, and a text without the token stays as it is.
pub proof fn law_every_token_gives_way(
    s: Seq<char>,
    token: Seq<char>,
    with: Seq<char>,
    i: int,
)
    requires
        token.len() > 0,
        forall|k: int| 0 <= k < i ==> !token_at(s, token, k),
    ensures
        token_at(s, token, i) ==> replaced(s, token, with) == s.take(i) + with + replaced(
            s.skip(i + token.len()),
            token,
            with,
        ),
        i >= s.len() ==> replaced(s, token, with) == s,
    decreases s.len(),
{
    let n = token.len() as int;
    if s.len() >= n {
        assert(s.take(n) =~= s.subrange(0, n));
        if i <= 0 {
            if token_at(s, token, i) {
                assert(s.take(0) + with =~= with);
            }
        } else {
            assert(!token_at(s, token, 0));
            let t = s.skip(1);
            assert forall|k: int| 0 <= k < i - 1 implies !token_at(t, token, k) by {
                if token_at(t, token, k) {
                    assert(t.subrange(k, k + n) =~= s.subrange(k + 1, k + 1 + n));
                    assert(token_at(s, token, k + 1));
                }
            }
            law_every_token_gives_way(t, token, with, i - 1);
            if token_at(s, token, i) {
                assert(t.subrange(i - 1, i - 1 + n) =~= s.subrange(i, i + n));
                assert(t.skip(i - 1 + n) =~= s.skip(i + n));
                let rest = replaced(s.skip(i + n), token, with);
                assert(seq![s[0]] + (t.take(i - 1) + with + rest) =~= s.take(i) + with + rest);
            }
            if i >= s.len() {
                assert(seq![s[0]] + t =~= s);
            }
        }
    }
}

/// What a program is asked about itself wins over everything else: its version first, then its
/// description, then its usage. A command is meant by the first argument alone, and without an
/// argument there is none.
pub proof fn law_questions_come_before_commands(args: Seq<Seq<char>>)
    ensures
        ({
            let version = args.contains("--version"@) || args.contains("-V"@);
            let described = args.contains("--describe"@);
            let help = args.contains("--help"@) || args.contains("-h"@);
            let c = command_of(args);
            &&& c == Command::Version <==> version
            &&& c == Command::Describe <==> described && !version
            &&& c == Command::Nothing <==> args.len() == 0
            &&& c == Command::Help <==> help && !described && !version
            &&& !version && !described && !help && args.len() > 0 ==> {
                &&& args[0] == "run"@ ==> c == Command::Run
                &&& args[0] == "make-rows"@ ==> c == Command::MakeRows
                &&& args[0] == "make-tracks"@ ==> c == Command::MakeTracks
                &&& args[0] != "run"@ && args[0] != "make-rows"@ && args[0] != "make-tracks"@ ==> c
                    == Command::Unknown
            }
        }),
{
    reveal_strlit("run");
    reveal_strlit("make-rows");
    reveal_strlit("make-tracks");
    assert("run"@.len() == 3 && "make-rows"@.len() == 9 && "make-tracks"@.len() == 11);
}

/// The exit status tells a refusal from an error and both from success, and it is zero for success
/// alone. A dry run succeeds as the run that writes does, and a failed write never does.
pub proof fn law_the_exit_status_tells_the_endings_apart(
    e: Ending,
    status: u8,
    dry_run: bool,
    failed: bool,
    ending: Ending,
)
    requires
        call_ensures(exit_status, (e,), status),
        call_ensures(run_ending, (dry_run, failed), ending),
    ensures
        e == Ending::Answered || e == Ending::Applied || e == Ending::Planned <==> status == 0,
        e == Ending::Refused <==> status == 1,
        e == Ending::Misused || e == Ending::Unreadable || e == Ending::NoScale || e
            == Ending::Unwritten <==> status == 2,
        failed <==> ending == Ending::Unwritten,
        !failed && dry_run <==> ending == Ending::Planned,
        !failed && !dry_run <==> ending == Ending::Applied,
{
}

/// A scale is a positive number of database units to the micron; any other ends the run.
pub proof fn law_a_scale_is_positive(dbu_per_micron: i32, ending: Option<Ending>)
    requires
        call_ensures(scale_ending, (dbu_per_micron,), ending),
    ensures
        ending is None <==> dbu_per_micron >= 1,
        ending is Some ==> ending == Some(Ending::NoScale),
{
}

} // verus!
