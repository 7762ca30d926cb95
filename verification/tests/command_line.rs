//! Command lines, the description, and the report of a run.

use vyges_ifp::cli::{parse_margins, parse_outline, UsageError};
use vyges_ifp::command::{
    exit_status, replace_token, run_ending, scale_ending, which_command, Command, Ending,
};
use vyges_ifp::report::report_json;
use vyges_ifp::words::{is_blank, reads_as_number, split_words, trim_text, Separator};
use vyges_ifp::writing::{destination, status_word};
use vyges_ifp::{
    describe, parse_args, parse_args_make_rows, parse_list, plan, Rect, RowParity, Site, DESCRIBE,
    PIN_TOKEN, USAGE,
};

fn strings(args: &[&str]) -> Vec<String> {
    args.iter().map(|a| a.to_string()).collect()
}

fn parse_rect(s: &str) -> Option<[f64; 4]> {
    let words = parse_outline("--die-area", s).ok()?;
    let numbers: Vec<f64> = words.iter().map(|w| w.parse::<f64>().unwrap()).collect();
    <[f64; 4]>::try_from(numbers).ok()
}

#[test]
fn a_rect_parses_from_either_separator_and_rejects_the_wrong_arity() {
    assert_eq!(parse_rect("0 0 1000 1000"), Some([0.0, 0.0, 1000.0, 1000.0]));
    assert_eq!(parse_rect("0,0,10.5,20.25"), Some([0.0, 0.0, 10.5, 20.25]));
    assert_eq!(parse_rect("0 0 1000"), None, "three numbers is not a rectangle");
    assert_eq!(parse_rect("0 0 1000 1000 1000"), None, "nor is five");
    assert_eq!(parse_rect("0 0 x 1000"), None);
}

#[test]
fn the_required_arguments_are_each_named_when_missing() {
    let base = ["d.odb", "--die-area", "0 0 10 10", "--core-area", "1 1 9 9", "--site", "S"]
        .map(String::from);
    assert!(parse_args(&base).is_ok());

    for (drop_at, expect) in [(1, "--die-area"), (3, "--core-area"), (5, "IFP-0035")] {
        let mut a: Vec<String> = base.to_vec();
        a.drain(drop_at..drop_at + 2);
        let e = parse_args(&a).expect_err("must refuse").message();
        assert!(e.contains(expect), "dropping {expect} said: {e}");
    }
    let e = parse_args(&base[1..]).expect_err("must refuse").message();
    assert!(e.contains(".odb"), "{e}");
}

#[test]
fn a_value_taking_option_at_the_end_is_an_error_not_a_panic() {
    let a = ["d.odb", "--site"].map(String::from);
    assert!(parse_args(&a).expect_err("refuses").message().contains("--site"));
}

#[test]
fn lists_split_on_either_separator() {
    assert_eq!(parse_list("a,b"), vec!["a", "b"]);
    assert_eq!(parse_list("a b"), vec!["a", "b"]);
    assert_eq!(parse_list(""), Vec::<String>::new());
}

#[test]
fn the_descriptor_is_valid_json_and_declares_what_it_writes() {
    let d: serde_json::Value = serde_json::from_str(DESCRIBE).expect("descriptor is valid JSON");
    assert_eq!(d["name"], "ifp");
    assert_eq!(d["assertion"]["field"], "status");
    assert_eq!(d["produces"][0], "odb");
    let limits = d["provenance_limitations"].as_array().expect("an array");
    assert!(
        limits.iter().any(|l| l.as_str().unwrap_or("").contains("utilization")),
        "the utilization form must be declared"
    );
    assert!(limits.iter().any(|l| l.as_str().unwrap_or("").contains("IN PLACE")));
}

#[test]
fn the_report_is_valid_json_and_carries_both_unit_systems() {
    let site = Site::plain("S", 380, 2800);
    let p = plan(
        Rect::new(0, 0, 2_000_000, 2_000_000),
        Rect::new(200_000, 200_000, 1_800_000, 1_800_000),
        &[site],
        RowParity::Any,
        &[],
        None,
        &[],
    )
    .expect("plans");
    let um = |v: i32| format!("{:.4}", f64::from(v) / 2000.0);
    let v: serde_json::Value =
        serde_json::from_str(&report_json(&p, 2000, &um, "applied", Some("out.odb")))
            .expect("report is valid JSON");
    assert_eq!(v["status"], "applied");
    assert_eq!(v["rows"], 570);
    assert_eq!(v["core_area"]["dbu"][0], 200_260);
    assert_eq!(v["core_area"]["um"][0], 100.13);
    assert_eq!(v["core_was_snapped"], true);
    assert_eq!(v["odb_written"], "out.odb");
}

const PIN: &str = "b5624809f29048e1f9ce9e83eb562620c652e084";

#[test]
fn the_descriptor_reports_the_pin_this_binary_was_built_against() {
    let d = describe(PIN);
    assert!(
        !d.contains(PIN_TOKEN),
        "the pin placeholder survived into the output -- the substitution did not run"
    );
    let v: serde_json::Value =
        serde_json::from_str(&d).expect("the descriptor is still valid JSON once filled in");
    assert_eq!(
        v["openroad_pin"], PIN,
        "the descriptor must report the pin this binary was actually built against"
    );
    assert_eq!(PIN.len(), 40, "a full commit SHA, not an abbreviation");
    assert_eq!(d, DESCRIBE.replace(PIN_TOKEN, PIN));
}

#[test]
fn no_sha_is_hardcoded_anywhere_in_the_descriptor() {
    let raw = DESCRIBE;
    for tok in raw.split(|c: char| !c.is_ascii_hexdigit()) {
        assert!(
            tok.len() < 40,
            "{tok} looks like a hardcoded commit -- use the {PIN_TOKEN} placeholder"
        );
    }
}

#[test]
fn tokens_are_replaced_from_the_left() {
    for (s, token, with) in [
        ("aXXb", "XX", "y"),
        ("XXX", "XX", "y"),
        ("XXXX", "XX", ""),
        ("none", "XX", "y"),
        ("", "XX", "y"),
        ("X", "XX", "y"),
        ("@é@é", "é", "e"),
    ] {
        assert_eq!(replace_token(s, token, with), s.replace(token, with), "{s}");
    }
}

#[test]
fn numbers_are_told_apart_as_the_standard_parser_does() {
    for t in [
        "", "+", "-", ".", "e", "1", "01", "1.", ".5", "1.5", "-1.5", "+1.5", "--1", "1e", "1e5",
        "1E5", "1e+5", "1e-5", "1e+", "1.e3", ".e3", ".5e3", "e5", "inf", "-inf", "+INF",
        "infinity", "Infinity", "nan", "NaN", "-nan", "nane", "1 ", " 1", "1_000", "0x10", "1.5.5",
        "١", "1e5.0", "1e55555", "infinit", "١.٢", "9999999999999999999999", "1-", "1+2",
    ] {
        assert_eq!(reads_as_number(t), t.parse::<f64>().is_ok(), "{t:?}");
    }
}

#[test]
fn white_space_is_what_the_standard_library_calls_so() {
    for p in 0..=0x10FFFFu32 {
        if let Some(c) = char::from_u32(p) {
            assert_eq!(is_blank(c), c.is_whitespace(), "{p:#x}");
        }
    }
}

#[test]
fn words_and_trimming_follow_their_separators() {
    for s in ["", " ", "a", " a\tb,c  d\u{3000}e ", ",,a,,", "\u{a0}x\u{85}"] {
        let list: Vec<&str> = s.split([' ', ',']).filter(|t| !t.is_empty()).collect();
        assert_eq!(split_words(s, Separator::Name), list, "{s:?}");
        let coords: Vec<&str> = s.split([' ', ',', '\t']).filter(|t| !t.is_empty()).collect();
        assert_eq!(split_words(s, Separator::Coordinate), coords, "{s:?}");
        let blanks: Vec<&str> = s.split_whitespace().collect();
        assert_eq!(split_words(s, Separator::Blank), blanks, "{s:?}");
        assert_eq!(trim_text(s), s.trim(), "{s:?}");
    }
}

#[test]
fn every_option_is_read() {
    let cli = parse_args(&strings(&[
        "in.odb", "--die-area", "0 0 10 10", "--core-area", "1,1,9,9", "--site", "S",
        "--additional-sites", "A,B", "--flip-sites", "B", "--row-parity", "oDd", "--gap", " 1.5 ",
        "--out-odb", "out.odb", "-o", "r.json", "--dry-run", "--json",
    ]))
    .expect("reads");
    assert_eq!((cli.odb.as_str(), cli.site.as_str(), cli.make_rows), ("in.odb", "S", false));
    let o = cli.options;
    assert_eq!(o.die, ["0", "0", "10", "10"]);
    assert_eq!(o.core, ["1", "1", "9", "9"]);
    assert_eq!(o.additional, ["A", "B"]);
    assert_eq!(o.flipped, ["B"]);
    assert_eq!(o.parity, RowParity::Odd);
    assert_eq!(o.gap.as_deref(), Some("1.5"));
    assert_eq!(o.out_odb.as_deref(), Some("out.odb"));
    assert_eq!(o.report.as_deref(), Some("r.json"));
    assert!(o.dry_run);
    assert!(o.utilization.is_none() && o.aspect_ratio.is_none() && o.core_space.is_none());
}

#[test]
fn one_margin_fills_all_four() {
    assert_eq!(parse_margins("2").unwrap(), ["2", "2", "2", "2"]);
    assert_eq!(parse_margins("1 2 3 4").unwrap(), ["1", "2", "3", "4"]);
    assert!(matches!(parse_margins("1 2"), Err(UsageError::MarginCount)));
    assert!(matches!(parse_margins(""), Err(UsageError::MarginCount)));
    assert_eq!(
        parse_margins("1 2x 3").unwrap_err().message(),
        "--core-space: not a number: `2x`"
    );
}

fn usage(args: &[&str]) -> String {
    parse_args(&strings(args)).expect_err("refuses").message()
}

fn rows_usage(args: &[&str]) -> String {
    parse_args_make_rows(&strings(args)).expect_err("refuses").message()
}

#[test]
fn every_usage_error_says_what_is_wrong() {
    assert_eq!(usage(&["d", "--gap"]), "--gap needs a value");
    assert_eq!(usage(&["d", "--die-area", "a b"]), "--die-area wants numbers, got `a b`");
    assert_eq!(usage(&["d", "--die-area", "1 2"]), "--die-area wants 'x1 y1 x2 y2', got `1 2`");
    assert_eq!(
        usage(&["d", "--core-area", "1 2 3"]),
        "--core-area wants 'x1 y1 x2 y2', got `1 2 3`"
    );
    assert_eq!(
        usage(&["d", "--row-parity", "some"]),
        "--row-parity wants NONE, ODD or EVEN, got `some`"
    );
    assert_eq!(usage(&["d", "--utilization", "x"]), "--utilization wants a percentage, got `x`");
    assert_eq!(usage(&["d", "--aspect-ratio", "x"]), "--aspect-ratio wants a number, got `x`");
    assert_eq!(usage(&["d", "--gap", "x"]), "--gap wants a number in microns, got `x`");
    assert_eq!(
        usage(&["d", "--core-space", "1 2"]),
        "IFP-0013 -core_space is either a list of 4 margins or one value for all margins."
    );
    assert_eq!(usage(&["d", "--nope"]), "unknown option `--nope`");
    assert_eq!(usage(&[]), "needs a path to a .odb");
    assert_eq!(usage(&["d"]), "IFP-0035 use -site to add placement rows.");
    assert_eq!(
        usage(&["d", "--site", "S", "--utilization", "50", "--die-area", "0 0 1 1"]),
        "IFP-0014 -die_area cannot be used with -utilization."
    );
    assert_eq!(
        usage(&["d", "--site", "S", "--utilization", "50", "--core-area", "0 0 1 1"]),
        "IFP-0020 -core_area cannot be used with -utilization."
    );
    assert_eq!(
        usage(&["d", "--site", "S", "--utilization", "50"]),
        "IFP-0034 no -core_space specified."
    );
    assert_eq!(
        usage(&["d", "--site", "S", "--aspect-ratio", "1"]),
        "IFP-0033 -aspect_ratio cannot be used with -die_area."
    );
    assert_eq!(
        usage(&["d", "--site", "S", "--core-space", "1", "--die-area", "0 0 1 1"]),
        "IFP-0024 -core_space cannot be used with -die_area."
    );
    let outline = "0 0 0 10 10 10 10 0";
    assert_eq!(
        usage(&[
            "d.odb", "--utilization", "50", "--core-space", "1", "--die-area", outline, "--site",
            "S",
        ]),
        "IFP-0014 -die_area cannot be used with -utilization."
    );
    assert_eq!(
        usage(&["d", "--site", "S", "--utilization", "50", "--core-area", outline]),
        "IFP-0020 -core_area cannot be used with -utilization."
    );
    assert_eq!(
        usage(&["d", "--site", "S", "--core-space", "1", "--die-area", outline]),
        "IFP-0024 -core_space cannot be used with -die_area."
    );
    assert_eq!(usage(&["d", "--site", "S"]), "`run` needs --die-area or --utilization");
    assert_eq!(
        usage(&["d", "--site", "S", "--die-area", "0 0 1 1"]),
        "`run` needs --core-area"
    );
    assert_eq!(
        rows_usage(&["d", "--site", "S", "--die-area", "0 0 1 1"]),
        "make-rows does not take a die area; it uses the one already set"
    );
    assert_eq!(
        rows_usage(&["d", "--site", "S"]),
        "IFP-0062 no -core_area or -core_space specified."
    );
}

#[test]
fn a_polygon_outline_is_accepted_as_it_stands() {
    let cli = parse_args(&strings(&[
        "d", "--site", "S", "--die-area", "0 0 9 0 9 9 0 9 0 5",
    ]))
    .expect("polygons are validated later");
    assert_eq!(cli.options.die.len(), 10);
    assert!(cli.options.core.is_empty());
}

#[test]
fn make_rows_takes_the_core_or_margins() {
    let cli =
        parse_args_make_rows(&strings(&["d", "--site", "S", "--core-area", "0 0 1 1"])).unwrap();
    assert!(cli.make_rows);
    let cli = parse_args_make_rows(&strings(&["d", "--site", "S", "--core-space", "1"])).unwrap();
    assert_eq!(cli.options.core_space.unwrap(), ["1", "1", "1", "1"]);
}

#[test]
fn the_command_is_told_by_its_first_word_unless_a_question_is_asked() {
    assert_eq!(which_command(&strings(&[])), Command::Nothing);
    assert_eq!(which_command(&strings(&["run", "x"])), Command::Run);
    assert_eq!(which_command(&strings(&["make-rows"])), Command::MakeRows);
    assert_eq!(which_command(&strings(&["make-tracks"])), Command::MakeTracks);
    assert_eq!(which_command(&strings(&["x"])), Command::Unknown);
    assert_eq!(which_command(&strings(&["run", "-h"])), Command::Help);
    assert_eq!(which_command(&strings(&["--help", "--describe"])), Command::Describe);
    assert_eq!(which_command(&strings(&["--describe", "-V"])), Command::Version);
    assert!(USAGE.contains("--die-area"));
}

#[test]
fn the_report_is_written_field_by_field() {
    let p = plan(
        Rect::new(0, 0, 100_000, 100_000),
        Rect::new(10_000, 10_000, 90_000, 90_000),
        &[Site::plain("unithd", 460, 2720), Site::plain("tall", 460, 5440)],
        RowParity::Any,
        &[],
        None,
        &[],
    )
    .expect("plans");
    let um = |v: i32| format!("{:.4}", f64::from(v) / 1000.0);
    assert_eq!(
        report_json(&p, 1000, &um, "planned", None),
        "{
  \"tool\": \"vyges-ifp\",
  \"status\": \"planned\",
  \"dbu_per_micron\": 1000,
  \"die_area\": { \"dbu\": [0, 0, 100000, 100000], \"um\": [0.0000, 0.0000, 100.0000, 100.0000] },
  \"core_area_requested\": { \"dbu\": [10000, 10000, 90000, 90000], \"um\": [10.0000, 10.0000, 90.0000, 90.0000] },
  \"core_area_snapped\": { \"dbu\": [10120, 10880, 90000, 90000], \"um\": [10.1200, 10.8800, 90.0000, 90.0000] },
  \"core_area\": { \"dbu\": [10120, 10880, 89700, 89760], \"um\": [10.1200, 10.8800, 89.7000, 89.7600] },
  \"core_was_snapped\": true,
  \"rows\": 43,
  \"sites_per_row\": 173,
  \"rows_per_site\": [
    { \"site\": \"tall\", \"rows\": 14 },
    { \"site\": \"unithd\", \"rows\": 29 }
  ],
  \"odb_written\": null
}"
    );
}

#[test]
fn the_report_stays_json_whatever_is_in_a_name() {
    let odd = "q\"b\\n\nt\tu\u{1}\u{1f}é\u{1f600}/";
    let p = plan(
        Rect::new(0, 0, 100_000, 100_000),
        Rect::new(0, 0, 90_000, 90_000),
        &[Site::plain(odd, 460, 2720)],
        RowParity::Any,
        &[],
        None,
        &[],
    )
    .expect("plans");
    let um = |v: i32| format!("{:.4}", f64::from(v) / 1000.0);
    let text = report_json(&p, 1000, &um, odd, Some(odd));
    assert!(text.contains("\"q\\\"b\\\\n\\u000at\\u0009u\\u0001\\u001fé\u{1f600}/\""));
    let v: serde_json::Value = serde_json::from_str(&text).expect("report is valid JSON");
    assert_eq!(v["status"], odd);
    assert_eq!(v["odb_written"], odd);
    assert_eq!(v["rows_per_site"][0]["site"], odd);
    assert_eq!(v["rows_per_site"][0]["rows"], 33);
    assert_eq!(v["rows"], 33);
    assert_eq!(v["core_area"]["dbu"][2], 89_700);
    assert_eq!(v["core_was_snapped"], false);
}

#[test]
fn a_dry_run_reports_the_same_figures() {
    let p = plan(
        Rect::new(0, 0, 100_000, 100_000),
        Rect::new(10_000, 10_000, 90_000, 90_000),
        &[Site::plain("unithd", 460, 2720)],
        RowParity::Any,
        &[],
        None,
        &[],
    )
    .expect("plans");
    let um = |v: i32| format!("{:.4}", f64::from(v) / 1000.0);
    let report = |dry_run: bool| -> serde_json::Value {
        let written = destination(dry_run, "d.odb", &None);
        let text = report_json(&p, 1000, &um, status_word(dry_run), written.as_deref());
        serde_json::from_str(&text).expect("report is valid JSON")
    };
    let mut dry = report(true);
    let wet = report(false);
    assert_eq!((&dry["status"], &wet["status"]), (&"planned".into(), &"applied".into()));
    assert!(dry["odb_written"].is_null());
    assert_eq!(wet["odb_written"], "d.odb");
    dry["status"] = "applied".into();
    dry["odb_written"] = "d.odb".into();
    assert_eq!(dry, wet);
}

#[test]
fn the_exit_status_tells_a_refusal_from_an_error() {
    for e in [Ending::Answered, Ending::Applied, Ending::Planned] {
        assert_eq!(exit_status(e), 0);
    }
    assert_eq!(exit_status(Ending::Refused), 1);
    for e in [Ending::Misused, Ending::Unreadable, Ending::NoScale, Ending::Unwritten] {
        assert_eq!(exit_status(e), 2);
    }
}

#[test]
fn a_run_ends_by_what_was_to_be_written() {
    assert_eq!(run_ending(false, false), Ending::Applied);
    assert_eq!(run_ending(true, false), Ending::Planned);
    assert_eq!(run_ending(false, true), Ending::Unwritten);
    assert_eq!(run_ending(true, true), Ending::Unwritten);
    assert_eq!(scale_ending(0), Some(Ending::NoScale));
    assert_eq!(scale_ending(-1), Some(Ending::NoScale));
    assert_eq!(scale_ending(1), None);
}
