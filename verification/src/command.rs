//! The command line's first word, parsed into a command.

use vstd::prelude::*;

use crate::strutil::{join_with, str_eq};

verus! {

/// A top-level command of the tool.
#[derive(Debug, Clone, PartialEq, Eq)]
pub enum Command {
    Init,
    New(Option<Vec<String>>),
    Edit,
    Delete,
    List,
    Grep,
    Cat,
    View,
    Config,
    Help,
    Version,
}

/// The error for a command word that names no command.
#[derive(Debug, Clone, Copy, PartialEq, Eq, Structural)]
pub struct CommandParseError;

/// The errors of whole-command-line parsing.
#[derive(Debug, Clone, PartialEq, Eq)]
pub enum CliParseError {
    /// The first argument names no command.
    UnknownCommand { command: String },
    /// There was no argument at all.
    CommandNotFound,
}

impl CliParseError {
    /// The display text of the error.
    pub fn message(&self) -> (s: String)
        ensures
            match self {
                CliParseError::UnknownCommand { command } => s@ == "Parse error: "@ + command@,
                CliParseError::CommandNotFound => s@ == "command not found"@,
            },
    {
        match self {
            CliParseError::UnknownCommand { command } => {
                let mut s = "Parse error: ".to_owned();
                s.append(command.as_str());
                s
            },
            CliParseError::CommandNotFound => "command not found".to_owned(),
        }
    }
}

/// The command a single word names, if any.  `-h`/`--help` and
/// `-v`/`--version` are aliases.
pub open spec fn command_of_name(s: Seq<char>) -> Option<Command> {
    if s == "init"@ {
        Some(Command::Init)
    } else if s == "new"@ {
        Some(Command::New(None))
    } else if s == "edit"@ {
        Some(Command::Edit)
    } else if s == "delete"@ {
        Some(Command::Delete)
    } else if s == "list"@ {
        Some(Command::List)
    } else if s == "grep"@ {
        Some(Command::Grep)
    } else if s == "cat"@ {
        Some(Command::Cat)
    } else if s == "view"@ {
        Some(Command::View)
    } else if s == "config"@ {
        Some(Command::Config)
    } else if s == "help"@ || s == "-h"@ || s == "--help"@ {
        Some(Command::Help)
    } else if s == "version"@ || s == "-v"@ || s == "--version"@ {
        Some(Command::Version)
    } else {
        None
    }
}

impl Command {
    /// Parses one word into a command.
    pub fn from_str(s: &str) -> (r: Result<Command, CommandParseError>)
        ensures
            match command_of_name(s@) {
                Some(c) => r == Ok::<Command, CommandParseError>(c),
                None => r == Err::<Command, CommandParseError>(CommandParseError),
            },
    {
        if str_eq(s, "init") {
            Ok(Command::Init)
        } else if str_eq(s, "new") {
            Ok(Command::New(None))
        } else if str_eq(s, "edit") {
            Ok(Command::Edit)
        } else if str_eq(s, "delete") {
            Ok(Command::Delete)
        } else if str_eq(s, "list") {
            Ok(Command::List)
        } else if str_eq(s, "grep") {
            Ok(Command::Grep)
        } else if str_eq(s, "cat") {
            Ok(Command::Cat)
        } else if str_eq(s, "view") {
            Ok(Command::View)
        } else if str_eq(s, "config") {
            Ok(Command::Config)
        } else if str_eq(s, "help") || str_eq(s, "-h") || str_eq(s, "--help") {
            Ok(Command::Help)
        } else if str_eq(s, "version") || str_eq(s, "-v") || str_eq(s, "--version") {
            Ok(Command::Version)
        } else {
            Err(CommandParseError)
        }
    }

    /// Parses a whole argument list: the first word picks the command, and
    /// for `new` the remaining words become the title.  The commands not
    /// yet wired up (`edit`, `delete`, `list`, `grep`, `cat`, `view`,
    /// `help`, `version`) are excluded by precondition: the caller must
    /// refuse them first.
    pub fn parse(args: Vec<String>) -> (r: Result<Command, CliParseError>)
        requires
            args.deep_view().len() > 0 ==> match command_of_name(args.deep_view()[0]) {
                Some(c) => c is Init || c is New || c is Config,
                None => true,
            },
        ensures
            ({
                let av = args.deep_view();
                if av.len() == 0 {
                    r == Err::<Command, CliParseError>(CliParseError::CommandNotFound)
                } else {
                    match command_of_name(av[0]) {
                        None => match r {
                            Err(CliParseError::UnknownCommand { command }) => command@ == av[0],
                            _ => false,
                        },
                        Some(c) => match c {
                            Command::Init => r == Ok::<Command, CliParseError>(Command::Init),
                            Command::Config => r == Ok::<Command, CliParseError>(Command::Config),
                            Command::New(_) => match r {
                                Ok(Command::New(title)) => if av.len() == 1 {
                                    title is None
                                } else {
                                    match title {
                                        Some(t) => t.deep_view() == av.skip(1),
                                        None => false,
                                    }
                                },
                                _ => false,
                            },
                            _ => false,
                        },
                    }
                }
            }),
    {
        let ghost av = args.deep_view();
        if args.len() == 0 {
            return Err(CliParseError::CommandNotFound);
        }
        let first = &args[0];
        proof {
            assert(first@ == av[0]);
        }
        match Command::from_str(first.as_str()) {
            Err(_) => Err(CliParseError::UnknownCommand { command: first.clone() }),
            Ok(cmd) => match cmd {
                Command::Init => Ok(Command::Init),
                Command::Config => Ok(Command::Config),
                Command::New(_) => {
                    let mut title: Vec<String> = Vec::new();
                    let mut i: usize = 1;
                    while i < args.len()
                        invariant
                            1 <= i <= args@.len(),
                            av == args.deep_view(),
                            title.deep_view() == av.subrange(1, i as int),
                        decreases args@.len() - i,
                    {
                        let ghost tdv = title.deep_view();
                        let ghost tv = title@;
                        let entry = args[i].clone();
                        proof {
                            assert(entry@ == av[i as int]);
                        }
                        title.push(entry);
                        proof {
                            assert(title@.len() == tv.len() + 1);
                            assert(tdv.len() == tv.len());
                            assert(tdv.len() == i - 1);
                            assert(title.deep_view().len() == title@.len());
                            assert(title.deep_view().len() == i as int);
                            assert forall|t: int|
                                0 <= t < title.deep_view().len() implies title.deep_view()[t]
                                == av.subrange(1, i + 1)[t] by {
                                assert(av.subrange(1, i + 1)[t] == av[1 + t]);
                                if t < tv.len() {
                                    assert(title@[t] == tv[t]);
                                    assert(title.deep_view()[t] == tdv[t]);
                                    assert(tdv[t] == av.subrange(1, i as int)[t]);
                                } else {
                                    assert(title@[t] == entry);
                                    assert(title.deep_view()[t] == entry.deep_view());
                                    assert(entry.deep_view() == entry@);
                                }
                            }
                            assert(title.deep_view() =~= av.subrange(1, i + 1));
                        }
                        i += 1;
                    }
                    proof {
                        assert(title.deep_view() =~= av.skip(1));
                    }
                    if title.len() == 0 {
                        Ok(Command::New(None))
                    } else {
                        Ok(Command::New(Some(title)))
                    }
                },
                _ => {
                    proof {
                        assert(false);
                    }
                    Err(CliParseError::CommandNotFound)
                },
            },
        }
    }

    /// The display text of the command: its name, and for `new` the title
    /// words joined by underscores.  A `new` without a title has no display
    /// text, so the caller must not ask for one.
    pub fn display_string(&self) -> (s: String)
        requires
            match self {
                Command::New(t) => t is Some,
                _ => true,
            },
        ensures
            match self {
                Command::Init => s@ == "init"@,
                Command::New(t) => s@ == "new "@ + join_with(t->Some_0.deep_view(), "_"@),
                Command::Edit => s@ == "edit"@,
                Command::Delete => s@ == "delete"@,
                Command::List => s@ == "list"@,
                Command::Grep => s@ == "grep"@,
                Command::Cat => s@ == "cat"@,
                Command::View => s@ == "view"@,
                Command::Config => s@ == "config"@,
                Command::Help => s@ == "help"@,
                Command::Version => s@ == "version"@,
            },
    {
        match self {
            Command::Init => "init".to_owned(),
            Command::New(t) => {
                let mut s = "new ".to_owned();
                match t {
                    Some(parts) => {
                        let joined = crate::strutil::join_strings(parts, "_");
                        s.append(joined.as_str());
                    },
                    None => {},
                }
                s
            },
            Command::Edit => "edit".to_owned(),
            Command::Delete => "delete".to_owned(),
            Command::List => "list".to_owned(),
            Command::Grep => "grep".to_owned(),
            Command::Cat => "cat".to_owned(),
            Command::View => "view".to_owned(),
            Command::Config => "config".to_owned(),
            Command::Help => "help".to_owned(),
            Command::Version => "version".to_owned(),
        }
    }
}

} // verus!
