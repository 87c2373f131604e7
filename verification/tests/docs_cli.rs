use zaz::xtask::docs_cli::{
    docs_step, format_default, format_option_row, format_positional_row, is_implicit_help_or_version,
    one_line, pick_help, regenerate, render_command, takes_value, unified_diff, Arg, ArgAction,
    Command, DocsStep,
};

fn command(name: &str, arguments: Vec<Arg>) -> Command {
    Command {
        name: name.to_string(),
        hidden: false,
        arguments,
    }
}

fn argument(id: &str) -> Arg {
    Arg {
        id: id.to_string(),
        positional: false,
        required: false,
        short: None,
        long: None,
        value_name: None,
        action: ArgAction::TakeValue,
        default_values: vec![],
        help: None,
        long_help: None,
    }
}

#[test]
fn render_command_empty_subcommand_produces_placeholder() {
    let cmd = command("noop", vec![]);
    let body = render_command(&cmd, false);
    assert!(body.contains("takes no arguments"));
}

#[test]
fn render_command_emits_flag_table_for_options() {
    let mut path = argument("path");
    path.long = Some("path".to_string());
    path.value_name = Some("FILE".to_string());
    path.help = Some("path to thing".to_string());
    let cmd = command("demo", vec![path]);
    let body = render_command(&cmd, false);
    assert!(body.contains("**Flags**"));
    assert!(body.contains("`--path` `<FILE>`"));
    assert!(body.contains("path to thing"));
}

#[test]
fn render_command_emits_positional_table() {
    let mut group = argument("group");
    group.positional = true;
    group.value_name = Some("GROUP".to_string());
    group.help = Some("group name".to_string());
    let cmd = command("demo", vec![group]);
    let body = render_command(&cmd, false);
    assert!(body.contains("**Positional arguments**"));
    assert!(body.contains("`GROUP`"));
    assert!(body.contains("group name"));
}

#[test]
fn regenerate_fills_every_marker() {
    let doc = "# CLI\n<!-- BEGIN: zaz -->\nplaceholder\n<!-- END: zaz -->\n\n\
               <!-- BEGIN: zaz start -->\nplaceholder\n<!-- END: zaz start -->\n";
    let mut hidden = command("supervisor", vec![]);
    hidden.hidden = true;
    let subs = vec![command("start", vec![]), hidden];
    let text = regenerate(doc, &command("zaz", vec![]), &subs).unwrap();
    assert_eq!(
        text,
        "# CLI\n<!-- BEGIN: zaz -->\nThis subcommand takes no arguments or flags.\n\n\
         Global flags above apply when invoking `zaz` with no subcommand.\n\n\
         <!-- END: zaz -->\n\n<!-- BEGIN: zaz start -->\n\
         This subcommand takes no arguments or flags.\n\n<!-- END: zaz start -->\n"
    );
}

#[test]
fn a_missing_marker_is_named() {
    let error = regenerate("# CLI\n", &command("zaz", vec![]), &vec![]).unwrap_err();
    assert_eq!(error.marker, "zaz");
    assert_eq!(error.cause, "missing begin marker: <!-- BEGIN: zaz -->");
}

#[test]
fn option_rows_show_names_value_default_and_help() {
    let mut level = argument("log_level");
    level.short = Some('l');
    level.long = Some("log-level".to_string());
    level.default_values = vec!["info".to_string(), "warn".to_string()];
    level.help = Some("how much".to_string());
    assert_eq!(
        format_option_row(&level),
        "| `-l`, `--log-level` `<LOG_LEVEL>` | `info`, `warn` | how much |"
    );
    assert!(takes_value(&level));
    level.default_values = vec![];
    assert_eq!(format_default(&level), "\u{2014}");
    level.action = ArgAction::SetTrue;
    assert!(!takes_value(&level));
    assert_eq!(format_default(&level), "`false`");
    level.action = ArgAction::SetFalse;
    assert_eq!(format_default(&level), "`true`");
    level.action = ArgAction::Count;
    assert_eq!(format_default(&level), "`0`");
    assert_eq!(format_option_row(&argument("raw")), "| `raw` `<RAW>` | \u{2014} |  |");
}

#[test]
fn a_value_name_is_taken_from_the_id_in_upper_case() {
    let mut arg = argument("stra\u{df}e");
    arg.long = Some("x".to_string());
    assert_eq!(format_option_row(&arg), "| `--x` `<STRASSE>` | \u{2014} |  |");
}

#[test]
fn help_texts_fit_one_line() {
    assert_eq!(one_line("a\nb\n"), "a b");
    assert_eq!(one_line("a\n  b"), "a  b");
    let mut arg = argument("x");
    arg.positional = true;
    arg.required = true;
    arg.help = Some("short".to_string());
    assert_eq!(pick_help(&arg), "short");
    assert_eq!(format_positional_row(&arg), "| `x` | yes | short |");
    arg.long_help = Some("longer".to_string());
    assert_eq!(pick_help(&arg), "longer");
}

#[test]
fn help_and_version_are_left_out() {
    let mut help = argument("help");
    help.action = ArgAction::Help;
    assert!(is_implicit_help_or_version(&help));
    let mut version = argument("version");
    version.action = ArgAction::Version;
    assert!(is_implicit_help_or_version(&version));
    assert!(!is_implicit_help_or_version(&argument("path")));
}

#[test]
fn documents_are_written_only_when_asked_for() {
    assert!(matches!(docs_step("a", "a", true), DocsStep::UpToDate));
    assert!(matches!(docs_step("a", "b", true), DocsStep::Write));
    assert!(matches!(docs_step("a", "b", false), DocsStep::Drift));
}

#[test]
fn a_diff_shows_the_lines_that_differ() {
    assert_eq!(
        unified_diff("same\nold\n", "same\nnew\nmore\n", "docs/cli.md"),
        "--- docs/cli.md (committed)\n+++ docs/cli.md (regenerated)\n- old\n+ new\n+ more\n"
    );
}
