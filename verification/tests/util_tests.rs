use mmemo::command::{CliParseError, Command};
use mmemo::commands::memo_filename;
use mmemo::decimal::{u64_string, u64_string_2, usize_string};
use mmemo::error::MmemoError;
use mmemo::expand::{expand_home_str, HomeDir};
use mmemo::external::{selection_from_stdout, Builtin, Fzf, Skim};
use mmemo::path_utils::{config_dir, config_path, mmemo_dir, template_path};
use mmemo::render::{count_text, input_echo, outline_bottom, outline_top, render_line};
use mmemo::template::{date_string, replace_str, Template};

#[test]
fn paths_join_under_home() {
    assert_eq!(config_dir("/home/u"), "/home/u/.config/mmemo");
    assert_eq!(mmemo_dir("/home/u"), "/home/u/mmemo");
    assert_eq!(config_path("/home/u"), "/home/u/.config/mmemo/config.toml");
    assert_eq!(template_path("/home/u"), "/home/u/.config/mmemo/template.md");
}

#[test]
fn expand_home_handles_tilde_forms() {
    assert_eq!(expand_home_str("~", "/home/u"), "/home/u");
    assert_eq!(expand_home_str("~/mmemo", "/home/u"), "/home/u/mmemo");
    assert_eq!(expand_home_str("/abs/path", "/home/u"), "/abs/path");
    assert_eq!(expand_home_str("plain", "/home/u"), "plain");
    assert_eq!(expand_home_str("~x", "/home/u"), "~x");
    // A base with a trailing slash gains no second separator.
    assert_eq!(expand_home_str("~/m", "/home/u/"), "/home/u/m");
    // An absolute remainder replaces the base, as path joining does.
    assert_eq!(expand_home_str("~//etc", "/home/u"), "/etc");
    let owned = "~/notes".to_string();
    assert_eq!(owned.expand_home("/home/u"), "/home/u/notes");
}

#[test]
fn memo_filename_appends_md_only_without_extension() {
    let t = |parts: &[&str]| parts.iter().map(|s| s.to_string()).collect::<Vec<_>>();
    assert_eq!(memo_filename(&t(&["shopping", "list"])), "shopping_list.md");
    assert_eq!(memo_filename(&t(&["notes.txt"])), "notes.txt");
    assert_eq!(memo_filename(&t(&["archive.tar", "gz"])), "archive.tar_gz");
    assert_eq!(memo_filename(&t(&[".hidden"])), ".hidden.md");
    assert_eq!(memo_filename(&t(&[])), ".md");
    // A trailing slash hides no extension: the file name before it counts.
    assert_eq!(memo_filename(&t(&["notes.txt/"])), "notes.txt/");
    assert_eq!(memo_filename(&t(&["dir/", "x"])), "dir/_x.md");
}

#[test]
fn command_from_str_knows_every_name() {
    assert_eq!(Command::from_str("init").unwrap(), Command::Init);
    assert_eq!(Command::from_str("new").unwrap(), Command::New(None));
    assert_eq!(Command::from_str("edit").unwrap(), Command::Edit);
    assert_eq!(Command::from_str("delete").unwrap(), Command::Delete);
    assert_eq!(Command::from_str("list").unwrap(), Command::List);
    assert_eq!(Command::from_str("grep").unwrap(), Command::Grep);
    assert_eq!(Command::from_str("cat").unwrap(), Command::Cat);
    assert_eq!(Command::from_str("view").unwrap(), Command::View);
    assert_eq!(Command::from_str("config").unwrap(), Command::Config);
    assert_eq!(Command::from_str("help").unwrap(), Command::Help);
    assert_eq!(Command::from_str("-h").unwrap(), Command::Help);
    assert_eq!(Command::from_str("--help").unwrap(), Command::Help);
    assert_eq!(Command::from_str("version").unwrap(), Command::Version);
    assert_eq!(Command::from_str("-v").unwrap(), Command::Version);
    assert_eq!(Command::from_str("--version").unwrap(), Command::Version);
    assert!(Command::from_str("frobnicate").is_err());
}

#[test]
fn command_parse_collects_new_titles() {
    let args = |v: &[&str]| v.iter().map(|s| s.to_string()).collect::<Vec<_>>();
    assert_eq!(Command::parse(args(&["init"])).unwrap(), Command::Init);
    assert_eq!(Command::parse(args(&["config"])).unwrap(), Command::Config);
    assert_eq!(Command::parse(args(&["new"])).unwrap(), Command::New(None));
    assert_eq!(
        Command::parse(args(&["new", "shopping", "list"])).unwrap(),
        Command::New(Some(vec!["shopping".to_string(), "list".to_string()]))
    );
    assert_eq!(
        Command::parse(Vec::new()).unwrap_err(),
        CliParseError::CommandNotFound
    );
    match Command::parse(args(&["frobnicate"])).unwrap_err() {
        CliParseError::UnknownCommand { command } => assert_eq!(command, "frobnicate"),
        other => panic!("expected an unknown-command error, got {:?}", other),
    }
}

#[test]
fn command_and_error_display_strings() {
    assert_eq!(Command::Init.display_string(), "init");
    assert_eq!(
        Command::New(Some(vec!["a".to_string(), "b".to_string()])).display_string(),
        "new a_b"
    );
    assert_eq!(Command::Version.display_string(), "version");
    assert_eq!(
        CliParseError::UnknownCommand { command: "xyz".to_string() }.message(),
        "Parse error: xyz"
    );
    assert_eq!(CliParseError::CommandNotFound.message(), "command not found");
}

#[test]
fn error_messages_carry_their_prefix() {
    let e = MmemoError::Parse { message: "bad".to_string() };
    assert_eq!(e.message(), "Parse error: bad");
    let e = MmemoError::Io { message: "disk gone".to_string() };
    assert_eq!(e.message(), "File operation failed: disk gone");
    let e = MmemoError::Config { message: "no editor".to_string() };
    assert_eq!(e.message(), "Configuration error: no editor");
    let e = MmemoError::MemoNotFound { query: "abc".to_string() };
    assert_eq!(e.message(), "Memo search not found: abc");
}

#[test]
fn external_adapters_name_their_commands() {
    assert_eq!(Fzf::command_name(), "fzf");
    assert_eq!(Skim::command_name(), "sk");
    let _ = Builtin;
}

#[test]
fn selection_comes_from_trimmed_output() {
    assert_eq!(selection_from_stdout(""), None);
    assert_eq!(selection_from_stdout("pick.md\n"), Some("pick.md".to_string()));
    assert_eq!(selection_from_stdout("  padded \t\n"), Some("padded".to_string()));
    // Output that trims away to nothing is no selection at all.
    assert_eq!(selection_from_stdout("\n"), None);
    assert_eq!(selection_from_stdout(" \t \r\n"), None);
}

#[test]
fn decimal_renderings() {
    assert_eq!(usize_string(0), "0");
    assert_eq!(usize_string(7), "7");
    assert_eq!(usize_string(12034), "12034");
    assert_eq!(u64_string(18446744073709551615), "18446744073709551615");
    assert_eq!(u64_string_2(3), "03");
    assert_eq!(u64_string_2(10), "10");
    assert_eq!(u64_string_2(123), "123");
}

#[test]
fn date_strings_are_zero_padded() {
    assert_eq!(date_string(2024, 3, 7), "2024-03-07");
    assert_eq!(date_string(2024, 11, 25), "2024-11-25");
    assert_eq!(date_string(0, 1, 1), "0-01-01");
    assert_eq!(date_string(-44, 3, 15), "-44-03-15");
}

#[test]
fn template_replaces_every_placeholder() {
    let tpl = "# {{title}}\n\nDate: {{date}}\n\ntitle again: {{title}}\n";
    let out = Template::render(tpl, "groceries", "2024-03-07");
    assert_eq!(
        out,
        "# groceries\n\nDate: 2024-03-07\n\ntitle again: groceries\n"
    );
}

#[test]
fn replace_str_is_leftmost_and_non_overlapping() {
    assert_eq!(replace_str("aaaa", "aa", "b"), "bb");
    assert_eq!(replace_str("xyx", "y", "yy"), "xyyx");
    assert_eq!(replace_str("none here", "zz", "q"), "none here");
    assert_eq!(replace_str("abc", "", "q"), "abc");
}

#[test]
fn render_today_fills_in_a_date() {
    let out = Template::render_today("D: {{date}} T: {{title}}", "t");
    assert!(!out.contains("{{date}}"));
    assert!(!out.contains("{{title}}"));
    assert!(out.starts_with("D: "));
    assert!(out.ends_with(" T: t"));
    // The date is year-month-day with two-digit month and day.
    let date = &out[3..out.len() - 5];
    let parts: Vec<&str> = date.split('-').collect();
    assert_eq!(parts.len(), 3);
    assert!(parts[0].chars().all(|c| c.is_ascii_digit()));
    assert_eq!(parts[1].len(), 2);
    assert_eq!(parts[2].len(), 2);
}

#[test]
fn rendered_rows_carry_escapes_per_character() {
    assert_eq!(
        render_line("ab", &vec![1], false),
        "\u{1b}[0ma\u{1b}[32mb\u{1b}[0m"
    );
    assert_eq!(
        render_line("ab", &vec![0], true),
        "\u{1b}[32m\u{1b}[40ma\u{1b}[0m\u{1b}[40mb\u{1b}[0m"
    );
    assert_eq!(render_line("", &Vec::new(), false), "\u{1b}[0m");
}

#[test]
fn outline_rows_span_the_panel() {
    assert_eq!(outline_top(6), "╭────╮");
    assert_eq!(outline_bottom(6), "╰────╯");
    assert_eq!(outline_top(2), "╭╮");
}

#[test]
fn counter_and_prompt_rows() {
    assert_eq!(count_text(4, 30), "4/30");
    assert_eq!(count_text(0, 0), "0/0");
    assert_eq!(input_echo("quer"), "quer█");
}
