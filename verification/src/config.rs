//! Configuration: the `config.toml` keys and how raw text becomes a
//! [`Config`].
//!
//! Reading the file stays with the caller; parsing the TOML surface goes
//! through one trusted call into the `toml` crate, and everything from the
//! parsed key/value entries to the finished [`Config`] — key recognition,
//! value normalization, completeness checking — is verified.

use vstd::prelude::*;

use crate::error::{MmemoError, MmemoResult};
use crate::strutil::{is_unicode_ws, str_eq, trim_by, trim_unicode_str};

verus! {

/// Which selector backend a session uses.
#[derive(Debug, Clone, Copy, PartialEq, Eq, Structural)]
pub enum SelectorKind {
    Builtin,
    Fzf,
    Skim,
}

/// What initialization found.
#[derive(Debug, Clone, Copy, PartialEq, Eq, Structural)]
pub enum InitStatus {
    /// The configuration was created fresh.
    Created,
    /// A configuration file already existed.
    AlreadyInitialized,
}

/// The keys a configuration file may set.
#[derive(Debug, Clone, Copy, PartialEq, Eq, Structural)]
pub enum ConfigKey {
    Editor,
    MemoDir,
    MemoTemplate,
}

/// The error for a key name that names no configuration key.
#[derive(Debug, Clone, Copy, PartialEq, Eq, Structural)]
pub struct ParseConfigKeyError;

/// The configuration key a name denotes, if any.
pub open spec fn key_of(s: Seq<char>) -> Option<ConfigKey> {
    if s == "editor"@ {
        Some(ConfigKey::Editor)
    } else if s == "memo_dir"@ {
        Some(ConfigKey::MemoDir)
    } else if s == "memo_template"@ {
        Some(ConfigKey::MemoTemplate)
    } else {
        None
    }
}

impl ConfigKey {
    /// Parses a key name.
    pub fn from_str(s: &str) -> (r: Result<ConfigKey, ParseConfigKeyError>)
        ensures
            match key_of(s@) {
                Some(k) => r == Ok::<ConfigKey, ParseConfigKeyError>(k),
                None => r == Err::<ConfigKey, ParseConfigKeyError>(ParseConfigKeyError),
            },
    {
        if str_eq(s, "editor") {
            Ok(ConfigKey::Editor)
        } else if str_eq(s, "memo_dir") {
            Ok(ConfigKey::MemoDir)
        } else if str_eq(s, "memo_template") {
            Ok(ConfigKey::MemoTemplate)
        } else {
            Err(ParseConfigKeyError)
        }
    }

    /// The canonical name of the key.
    pub fn name(&self) -> (s: String)
        ensures
            match self {
                ConfigKey::Editor => s@ == "editor"@,
                ConfigKey::MemoDir => s@ == "memo_dir"@,
                ConfigKey::MemoTemplate => s@ == "memo_template"@,
            },
    {
        match self {
            ConfigKey::Editor => "editor".to_owned(),
            ConfigKey::MemoDir => "memo_dir".to_owned(),
            ConfigKey::MemoTemplate => "memo_template".to_owned(),
        }
    }
}

/// One key/value pair read from the configuration file.
#[derive(Debug, Clone, PartialEq, Eq)]
pub struct Token {
    pub key: ConfigKey,
    pub value: String,
}

/// The model of a key/value entry list: each key's characters and, for
/// entries whose value is a TOML string, the value's characters.
pub open spec fn entries_view(s: Seq<(String, Option<String>)>) -> Seq<
    (Seq<char>, Option<Seq<char>>),
> {
    s.map_values(
        |e: (String, Option<String>)|
            (
                e.0@,
                match e.1 {
                    Some(x) => Some(x@),
                    None => None::<Seq<char>>,
                },
            ),
    )
}

/// The model of a token list.
pub open spec fn tokens_view(s: Seq<Token>) -> Seq<(ConfigKey, Seq<char>)> {
    s.map_values(|t: Token| (t.key, t.value@))
}

/// What the entries of the configuration file are, as the `toml` crate
/// parses them: `None` for text that is not a TOML table, and otherwise
/// the table's entries in its (key-sorted) iteration order, each value
/// kept only when it is a TOML string.
pub uninterp spec fn toml_string_entries(s: Seq<char>) -> Option<
    Seq<(Seq<char>, Option<Seq<char>>)>,
>;

/// Relies on the `toml` crate: `Table`'s `FromStr` parses the text (a
/// function of the text alone), and the table iterates its entries in
/// key-sorted order, `Value::as_str` telling string values apart.
#[verifier::external_body]
fn parse_toml_entries(contents: &str) -> (r: Option<Vec<(String, Option<String>)>>)
    ensures
        match r {
            Some(v) => toml_string_entries(contents@) == Some(entries_view(v@)),
            None => toml_string_entries(contents@) is None,
        },
{
    match contents.parse::<toml::Table>() {
        Ok(table) => {
            let mut out: Vec<(String, Option<String>)> = Vec::new();
            for (k, v) in table.iter() {
                out.push((k.clone(), v.as_str().map(|s| s.to_string())));
            }
            Some(out)
        },
        Err(_) => None,
    }
}

/// The tokens an entry list yields: each key must name a configuration
/// key and each value must be a TOML string; the first offence is the
/// error, carrying the offending key's name (alone, or with
/// ` must be a string` appended).
pub open spec fn tokens_of(entries: Seq<(Seq<char>, Option<Seq<char>>)>) -> Result<
    Seq<(ConfigKey, Seq<char>)>,
    Seq<char>,
>
    decreases entries.len(),
{
    if entries.len() == 0 {
        Ok(Seq::empty())
    } else {
        let k = entries[0].0;
        match key_of(k) {
            None => Err(k),
            Some(key) => match entries[0].1 {
                None => Err(k + " must be a string"@),
                Some(val) => match tokens_of(entries.drop_first()) {
                    Ok(rest) => Ok(seq![(key, val)] + rest),
                    Err(m) => Err(m),
                },
            },
        }
    }
}

/// Turns parsed entries into tokens, or reports the first bad entry.
#[verifier::loop_isolation(false)]
pub fn tokens_from_entries(entries: &Vec<(String, Option<String>)>) -> (r: MmemoResult<
    Vec<Token>,
>)
    ensures
        match tokens_of(entries_view(entries@)) {
            Ok(ts) => match r {
                Ok(v) => tokens_view(v@) == ts,
                Err(_) => false,
            },
            Err(m) => match r {
                Err(MmemoError::Parse { message }) => message@ == m,
                _ => false,
            },
        },
{
    let ghost ev = entries_view(entries@);
    let mut out: Vec<Token> = Vec::new();
    let mut i: usize = 0;
    proof {
        assert(ev.skip(0) =~= ev);
        assert(tokens_view(out@) =~= Seq::<(ConfigKey, Seq<char>)>::empty());
    }
    while i < entries.len()
        invariant
            i <= entries@.len(),
            match tokens_of(ev.skip(i as int)) {
                Ok(ts) => tokens_of(ev) == Ok::<Seq<(ConfigKey, Seq<char>)>, Seq<char>>(
                    tokens_view(out@) + ts,
                ),
                Err(m) => tokens_of(ev) == Err::<Seq<(ConfigKey, Seq<char>)>, Seq<char>>(m),
            },
        decreases entries@.len() - i,
    {
        let k = &entries[i].0;
        proof {
            assert(ev.skip(i as int)[0] == ev[i as int]);
            assert(ev.skip(i as int).drop_first() =~= ev.skip(i + 1));
            assert(ev[i as int].0 == k@);
        }
        match ConfigKey::from_str(k.as_str()) {
            Err(_) => {
                return Err(MmemoError::Parse { message: k.clone() });
            },
            Ok(key) => {
                match &entries[i].1 {
                    None => {
                        let mut message = k.clone();
                        message.append(" must be a string");
                        return Err(MmemoError::Parse { message });
                    },
                    Some(val) => {
                        let ghost out_before = tokens_view(out@);
                        out.push(Token { key, value: val.clone() });
                        proof {
                            assert(tokens_view(out@) =~= out_before.push(
                                (key, ev[i as int].1->Some_0),
                            ));
                            match tokens_of(ev.skip(i + 1)) {
                                Ok(ts) => {
                                    assert(out_before.push((key, ev[i as int].1->Some_0)) + ts
                                        =~= out_before + (seq![(key, ev[i as int].1->Some_0)]
                                        + ts));
                                },
                                Err(_) => {},
                            }
                        }
                    },
                }
            },
        }
        i += 1;
    }
    proof {
        assert(ev.skip(entries@.len() as int) =~= Seq::<(Seq<char>, Option<Seq<char>>)>::empty());
        assert(tokens_view(out@) =~= tokens_view(out@) + Seq::<(ConfigKey, Seq<char>)>::empty());
    }
    Ok(out)
}

/// The raw text of a configuration file, ready to be tokenized.
#[derive(Debug, Clone, PartialEq, Eq)]
pub struct Lexer {
    pub contents: String,
}

impl Lexer {
    /// A lexer over the given file contents.
    pub fn new(contents: String) -> (l: Lexer)
        ensures
            l.contents == contents,
    {
        Lexer { contents }
    }

    /// Tokenizes the contents: a parse error for text that is not a TOML
    /// table, and otherwise one token per recognized entry.
    pub fn tokenize(&self) -> (r: MmemoResult<Vec<Token>>)
        ensures
            match toml_string_entries(self.contents@) {
                None => match r {
                    Err(MmemoError::Parse { message }) => message@ == "invalid toml"@,
                    _ => false,
                },
                Some(es) => match tokens_of(es) {
                    Ok(ts) => match r {
                        Ok(v) => tokens_view(v@) == ts,
                        Err(_) => false,
                    },
                    Err(m) => match r {
                        Err(MmemoError::Parse { message }) => message@ == m,
                        _ => false,
                    },
                },
            },
    {
        match parse_toml_entries(self.contents.as_str()) {
            None => Err(MmemoError::Parse { message: "invalid toml".to_owned() }),
            Some(v) => tokens_from_entries(&v),
        }
    }
}

/// The loaded configuration: which editor to run, where memos live, and
/// the template file to start a memo from, if one is set.
#[derive(Debug, Clone, PartialEq, Eq)]
pub struct Config {
    pub editor: String,
    pub memo_dir: String,
    pub memo_template: Option<String>,
}

/// The error of an incomplete configuration: one complaint per missing
/// mandatory key.
#[derive(Debug, Clone, PartialEq, Eq)]
pub struct ConfigBuildError(pub Vec<String>);

impl ConfigBuildError {
    /// The whole-configuration error this build error amounts to: the
    /// complaints joined onto separate lines.
    pub fn to_config_error(&self) -> (e: MmemoError)
        ensures
            match e {
                MmemoError::Config { message } => message@ == crate::strutil::join_with(
                    self.0.deep_view(),
                    "\n"@,
                ),
                _ => false,
            },
    {
        MmemoError::Config { message: crate::strutil::join_strings(&self.0, "\n") }
    }
}

/// The characters of an optional string.
pub open spec fn opt_str_view(o: Option<String>) -> Option<Seq<char>> {
    match o {
        Some(s) => Some(s@),
        None => None,
    }
}

/// A token's value, normalized: trimmed of whitespace, and discarded
/// entirely when nothing remains.
pub open spec fn normalized(v: Seq<char>) -> Option<Seq<char>> {
    let trimmed = trim_by(v, |c: char| is_unicode_ws(c));
    if trimmed.len() == 0 {
        None
    } else {
        Some(trimmed)
    }
}

/// The three settings after applying a token list in order: for each key,
/// the last normalized value wins.
pub open spec fn apply_tokens_spec(
    tokens: Seq<(ConfigKey, Seq<char>)>,
    editor: Option<Seq<char>>,
    dir: Option<Seq<char>>,
    template: Option<Seq<char>>,
) -> (Option<Seq<char>>, Option<Seq<char>>, Option<Seq<char>>)
    decreases tokens.len(),
{
    if tokens.len() == 0 {
        (editor, dir, template)
    } else {
        let v = normalized(tokens[0].1);
        match tokens[0].0 {
            ConfigKey::Editor => apply_tokens_spec(tokens.drop_first(), v, dir, template),
            ConfigKey::MemoDir => apply_tokens_spec(tokens.drop_first(), editor, v, template),
            ConfigKey::MemoTemplate => apply_tokens_spec(tokens.drop_first(), editor, dir, v),
        }
    }
}

/// What a token list builds: a configuration when both mandatory keys
/// survive, and otherwise one complaint per missing key, editor first.
pub open spec fn config_of(tokens: Seq<(ConfigKey, Seq<char>)>) -> Result<
    (Seq<char>, Seq<char>, Option<Seq<char>>),
    Seq<Seq<char>>,
> {
    let slots = apply_tokens_spec(tokens, None, None, None);
    match (slots.0, slots.1) {
        (Some(e), Some(d)) => Ok((e, d, slots.2)),
        (e, d) => Err(
            (if e is None {
                seq!["Please check the editor settings"@]
            } else {
                Seq::empty()
            }) + (if d is None {
                seq!["Please check the memo_dir settings"@]
            } else {
                Seq::empty()
            }),
        ),
    }
}

/// Applying one more token to fully applied slots is one more update.
proof fn lemma_apply_push(
    tokens: Seq<(ConfigKey, Seq<char>)>,
    x: (ConfigKey, Seq<char>),
    editor: Option<Seq<char>>,
    dir: Option<Seq<char>>,
    template: Option<Seq<char>>,
)
    ensures
        apply_tokens_spec(tokens.push(x), editor, dir, template) == ({
            let slots = apply_tokens_spec(tokens, editor, dir, template);
            let v = normalized(x.1);
            match x.0 {
                ConfigKey::Editor => (v, slots.1, slots.2),
                ConfigKey::MemoDir => (slots.0, v, slots.2),
                ConfigKey::MemoTemplate => (slots.0, slots.1, v),
            }
        }),
    decreases tokens.len(),
{
    if tokens.len() == 0 {
        assert(tokens.push(x)[0] == x);
        assert(tokens.push(x).drop_first() =~= Seq::<(ConfigKey, Seq<char>)>::empty());
        let v = normalized(x.1);
        match x.0 {
            ConfigKey::Editor => {
                assert(apply_tokens_spec(tokens.push(x), editor, dir, template)
                    == apply_tokens_spec(tokens.push(x).drop_first(), v, dir, template));
                assert(apply_tokens_spec(tokens.push(x), editor, dir, template) == (
                v,
                dir,
                template,
                ));
            },
            ConfigKey::MemoDir => {
                assert(apply_tokens_spec(tokens.push(x), editor, dir, template)
                    == apply_tokens_spec(tokens.push(x).drop_first(), editor, v, template));
                assert(apply_tokens_spec(tokens.push(x), editor, dir, template) == (
                editor,
                v,
                template,
                ));
            },
            ConfigKey::MemoTemplate => {
                assert(apply_tokens_spec(tokens.push(x), editor, dir, template)
                    == apply_tokens_spec(tokens.push(x).drop_first(), editor, dir, v));
                assert(apply_tokens_spec(tokens.push(x), editor, dir, template) == (
                editor,
                dir,
                v,
                ));
            },
        }
    } else {
        assert(tokens.push(x)[0] == tokens[0]);
        assert(tokens.push(x).drop_first() =~= tokens.drop_first().push(x));
        let v0 = normalized(tokens[0].1);
        match tokens[0].0 {
            ConfigKey::Editor => {
                lemma_apply_push(tokens.drop_first(), x, v0, dir, template);
            },
            ConfigKey::MemoDir => {
                lemma_apply_push(tokens.drop_first(), x, editor, v0, template);
            },
            ConfigKey::MemoTemplate => {
                lemma_apply_push(tokens.drop_first(), x, editor, dir, v0);
            },
        }
    }
}

impl Config {
    /// Builds a configuration from tokens: for each key the last
    /// non-empty, trimmed value wins; `editor` and `memo_dir` are
    /// mandatory, and a missing one earns its complaint.
    #[verifier::loop_isolation(false)]
    pub fn try_from(tokens: Vec<Token>) -> (r: Result<Config, ConfigBuildError>)
        ensures
            match config_of(tokens_view(tokens@)) {
                Ok((e, d, t)) => match r {
                    Ok(c) => c.editor@ == e && c.memo_dir@ == d && (match (c.memo_template, t) {
                        (Some(ct), Some(tt)) => ct@ == tt,
                        (None, None) => true,
                        _ => false,
                    }),
                    Err(_) => false,
                },
                Err(msgs) => match r {
                    Err(ConfigBuildError(v)) => v.deep_view() == msgs,
                    _ => false,
                },
            },
    {
        let ghost tv = tokens_view(tokens@);
        let mut editor: Option<String> = None;
        let mut memo_dir: Option<String> = None;
        let mut memo_template: Option<String> = None;
        let mut i: usize = 0;
        proof {
            assert(tv.take(0) =~= Seq::<(ConfigKey, Seq<char>)>::empty());
        }
        while i < tokens.len()
            invariant
                i <= tokens@.len(),
                tv == tokens_view(tokens@),
                apply_tokens_spec(tv.take(i as int), None, None, None) == ((
                    opt_str_view(editor),
                    opt_str_view(memo_dir),
                    opt_str_view(memo_template),
                )),
            decreases tokens@.len() - i,
        {
            let value = trim_unicode_str(tokens[i].value.as_str());
            let norm: Option<String> = if value.as_str().is_empty() {
                None
            } else {
                Some(value)
            };
            proof {
                assert(tv[i as int] == (tokens@[i as int].key, tokens@[i as int].value@));
                assert(opt_str_view(norm) == normalized(tv[i as int].1));
                assert(tv.take(i + 1) =~= tv.take(i as int).push(tv[i as int]));
                lemma_apply_push(
                    tv.take(i as int),
                    tv[i as int],
                    None,
                    None,
                    None,
                );
            }
            match tokens[i].key {
                ConfigKey::Editor => editor = norm,
                ConfigKey::MemoDir => memo_dir = norm,
                ConfigKey::MemoTemplate => memo_template = norm,
            }
            i += 1;
        }
        proof {
            assert(tv.take(tokens@.len() as int) =~= tv);
        }
        match (editor, memo_dir) {
            (Some(editor), Some(memo_dir)) => Ok(
                Config { editor, memo_dir, memo_template },
            ),
            (e, d) => {
                let mut errors: Vec<String> = Vec::new();
                if e.is_none() {
                    errors.push("Please check the editor settings".to_owned());
                }
                if d.is_none() {
                    errors.push("Please check the memo_dir settings".to_owned());
                }
                proof {
                    assert(errors.deep_view() =~= (if e is None {
                        seq!["Please check the editor settings"@]
                    } else {
                        Seq::<Seq<char>>::empty()
                    }) + (if d is None {
                        seq!["Please check the memo_dir settings"@]
                    } else {
                        Seq::<Seq<char>>::empty()
                    }));
                }
                Err(ConfigBuildError(errors))
            },
        }
    }
}

} // verus!
