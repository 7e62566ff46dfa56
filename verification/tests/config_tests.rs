use mmemo::config::{Config, ConfigKey, InitStatus, Lexer, SelectorKind, Token};
use mmemo::error::MmemoError;

#[test]
fn tokenize_reads_string_entries() {
    let text = "editor = \"vim\"\nmemo_dir = \"~/mmemo\"\nmemo_template = \"~/.config/mmemo/template.md\"\n";
    let tokens = Lexer::new(text.to_string()).tokenize().unwrap();
    // The TOML table iterates its keys in sorted order.
    assert_eq!(tokens.len(), 3);
    assert_eq!(tokens[0].key, ConfigKey::Editor);
    assert_eq!(tokens[0].value, "vim");
    assert_eq!(tokens[1].key, ConfigKey::MemoDir);
    assert_eq!(tokens[1].value, "~/mmemo");
    assert_eq!(tokens[2].key, ConfigKey::MemoTemplate);
    assert_eq!(tokens[2].value, "~/.config/mmemo/template.md");
}

#[test]
fn tokenize_rejects_unknown_keys() {
    let r = Lexer::new("mystery = \"x\"\n".to_string()).tokenize();
    match r {
        Err(MmemoError::Parse { message }) => assert_eq!(message, "mystery"),
        other => panic!("expected a parse error, got {:?}", other),
    }
}

#[test]
fn tokenize_rejects_non_string_values() {
    let r = Lexer::new("editor = 3\n".to_string()).tokenize();
    match r {
        Err(MmemoError::Parse { message }) => {
            assert_eq!(message, "editor must be a string")
        },
        other => panic!("expected a parse error, got {:?}", other),
    }
}

#[test]
fn tokenize_rejects_broken_toml() {
    let r = Lexer::new("editor = \n".to_string()).tokenize();
    match r {
        Err(MmemoError::Parse { message }) => assert_eq!(message, "invalid toml"),
        other => panic!("expected a parse error, got {:?}", other),
    }
}

#[test]
fn tokenize_of_empty_file_yields_no_tokens() {
    let tokens = Lexer::new(String::new()).tokenize().unwrap();
    assert!(tokens.is_empty());
}

fn token(key: ConfigKey, value: &str) -> Token {
    Token { key, value: value.to_string() }
}

#[test]
fn try_from_builds_a_full_config() {
    let c = Config::try_from(vec![
        token(ConfigKey::Editor, "vim"),
        token(ConfigKey::MemoDir, "~/mmemo"),
        token(ConfigKey::MemoTemplate, "~/t.md"),
    ])
    .unwrap();
    assert_eq!(c.editor, "vim");
    assert_eq!(c.memo_dir, "~/mmemo");
    assert_eq!(c.memo_template, Some("~/t.md".to_string()));
}

#[test]
fn try_from_template_is_optional() {
    let c = Config::try_from(vec![
        token(ConfigKey::Editor, "vim"),
        token(ConfigKey::MemoDir, "~/mmemo"),
    ])
    .unwrap();
    assert_eq!(c.memo_template, None);
}

#[test]
fn try_from_trims_values_and_drops_blank_ones() {
    let c = Config::try_from(vec![
        token(ConfigKey::Editor, "  vim\t"),
        token(ConfigKey::MemoDir, "~/mmemo"),
        token(ConfigKey::MemoTemplate, "   "),
    ])
    .unwrap();
    assert_eq!(c.editor, "vim");
    assert_eq!(c.memo_template, None);
}

#[test]
fn try_from_lets_the_last_value_win() {
    let c = Config::try_from(vec![
        token(ConfigKey::Editor, "vim"),
        token(ConfigKey::MemoDir, "~/a"),
        token(ConfigKey::MemoDir, "~/b"),
    ])
    .unwrap();
    assert_eq!(c.memo_dir, "~/b");
}

#[test]
fn try_from_reports_each_missing_mandatory_key() {
    let e = Config::try_from(vec![token(ConfigKey::MemoTemplate, "~/t.md")]).unwrap_err();
    assert_eq!(
        e.0,
        vec![
            "Please check the editor settings".to_string(),
            "Please check the memo_dir settings".to_string()
        ]
    );
    let e = Config::try_from(vec![token(ConfigKey::MemoDir, "~/m")]).unwrap_err();
    assert_eq!(e.0, vec!["Please check the editor settings".to_string()]);
    let e = Config::try_from(vec![token(ConfigKey::Editor, "vim")]).unwrap_err();
    assert_eq!(e.0, vec!["Please check the memo_dir settings".to_string()]);
}

#[test]
fn blank_mandatory_value_counts_as_missing() {
    let e = Config::try_from(vec![
        token(ConfigKey::Editor, " "),
        token(ConfigKey::MemoDir, "~/m"),
    ])
    .unwrap_err();
    assert_eq!(e.0, vec!["Please check the editor settings".to_string()]);
}

#[test]
fn config_key_parses_and_names_round_trip() {
    for (name, key) in [
        ("editor", ConfigKey::Editor),
        ("memo_dir", ConfigKey::MemoDir),
        ("memo_template", ConfigKey::MemoTemplate),
    ] {
        assert_eq!(ConfigKey::from_str(name).unwrap(), key);
        assert_eq!(key.name(), name);
    }
    assert!(ConfigKey::from_str("EDITOR").is_err());
    assert!(ConfigKey::from_str("").is_err());
}

#[test]
fn init_status_and_selector_kind_are_plain_data() {
    assert_ne!(InitStatus::Created, InitStatus::AlreadyInitialized);
    assert_ne!(SelectorKind::Builtin, SelectorKind::Fzf);
    assert_ne!(SelectorKind::Fzf, SelectorKind::Skim);
}
