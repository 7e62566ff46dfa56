//! Well-known paths under the user's home directory.
//!
//! Reading the `HOME` environment variable is I/O and stays with the caller;
//! every function here takes the home directory as a plain string and returns
//! the joined path, so each result is pinned down exactly.

use vstd::prelude::*;

verus! {

/// The configuration directory: `<home>/.config/mmemo`.
pub fn config_dir(home: &str) -> (r: String)
    ensures
        r@ == home@ + "/.config/mmemo"@,
{
    let mut s = home.to_owned();
    s.append("/.config/mmemo");
    s
}

/// The memo directory: `<home>/mmemo`.
pub fn mmemo_dir(home: &str) -> (r: String)
    ensures
        r@ == home@ + "/mmemo"@,
{
    let mut s = home.to_owned();
    s.append("/mmemo");
    s
}

/// The configuration file: `<home>/.config/mmemo/config.toml`.
pub fn config_path(home: &str) -> (r: String)
    ensures
        r@ == home@ + "/.config/mmemo/config.toml"@,
{
    let mut s = config_dir(home);
    s.append("/config.toml");
    proof {
        assert(s@ =~= home@ + "/.config/mmemo/config.toml"@) by {
            reveal_strlit("/.config/mmemo");
            reveal_strlit("/config.toml");
            reveal_strlit("/.config/mmemo/config.toml");
        }
    }
    s
}

/// The default template file: `<home>/.config/mmemo/template.md`.
pub fn template_path(home: &str) -> (r: String)
    ensures
        r@ == home@ + "/.config/mmemo/template.md"@,
{
    let mut s = config_dir(home);
    s.append("/template.md");
    proof {
        assert(s@ =~= home@ + "/.config/mmemo/template.md"@) by {
            reveal_strlit("/.config/mmemo");
            reveal_strlit("/template.md");
            reveal_strlit("/.config/mmemo/template.md");
        }
    }
    s
}

} // verus!
