//! Home-directory expansion for user-supplied paths.
//!
//! Reading the `HOME` environment variable is the caller's business; the
//! expansion itself — replacing a leading `~` with the home directory the
//! caller read — is pure and verified here.

use vstd::prelude::*;

use crate::strutil::{chars_of, string_from_chars};

verus! {

/// Joining a path onto a base, the way path concatenation behaves: an
/// absolute right side replaces the base, otherwise exactly one separator
/// stands between the two.
pub open spec fn join_path(base: Seq<char>, rest: Seq<char>) -> Seq<char> {
    if rest.len() > 0 && rest[0] == '/' {
        rest
    } else if base.len() > 0 && base.last() == '/' {
        base + rest
    } else {
        base + seq!['/'] + rest
    }
}

/// What home expansion produces: the home directory for a bare `~`, the
/// home directory joined with the remainder for a `~/` prefix, and the
/// path unchanged otherwise.
pub open spec fn expand_home_spec(p: Seq<char>, home: Seq<char>) -> Seq<char> {
    if p == seq!['~'] {
        home
    } else if seq!['~', '/'].is_prefix_of(p) {
        join_path(home, p.skip(2))
    } else {
        p
    }
}

/// A path-like value whose leading `~` can be replaced by a home
/// directory.
pub trait HomeDir {
    /// The characters of the path.
    spec fn path_view(&self) -> Seq<char>;

    /// The path with a leading `~` expanded to `home`.
    fn expand_home(&self, home: &str) -> (r: String)
        ensures
            r@ == expand_home_spec(self.path_view(), home@),
    ;
}

impl HomeDir for String {
    open spec fn path_view(&self) -> Seq<char> {
        self@
    }

    fn expand_home(&self, home: &str) -> (r: String) {
        expand_home_str(self.as_str(), home)
    }
}

/// Home expansion on a string slice.
pub fn expand_home_str(p: &str, home: &str) -> (r: String)
    ensures
        r@ == expand_home_spec(p@, home@),
{
    let pv = chars_of(p);
    let hv = chars_of(home);
    if pv.len() == 1 && pv[0] == '~' {
        proof {
            assert(pv@ =~= seq!['~']);
        }
        return home.to_owned();
    }
    proof {
        assert(p@ != seq!['~']);
    }
    if pv.len() >= 2 && pv[0] == '~' && pv[1] == '/' {
        proof {
            assert(seq!['~', '/'].is_prefix_of(p@)) by {
                assert(p@.subrange(0, 2) =~= seq!['~', '/']);
            }
        }
        // The remainder after the `~/` prefix.
        let mut rest: Vec<char> = Vec::new();
        let mut i: usize = 2;
        while i < pv.len()
            invariant
                2 <= i <= pv@.len(),
                pv@ == p@,
                rest@ == p@.subrange(2, i as int),
            decreases pv@.len() - i,
        {
            rest.push(pv[i]);
            i += 1;
            proof {
                assert(rest@ =~= p@.subrange(2, i as int));
            }
        }
        proof {
            assert(rest@ =~= p@.skip(2));
        }
        if rest.len() > 0 && rest[0] == '/' {
            return string_from_chars(&rest);
        }
        let mut out = home.to_owned();
        if hv.len() > 0 && hv[hv.len() - 1] == '/' {
            let tail = string_from_chars(&rest);
            out.append(tail.as_str());
            proof {
                assert(home@.last() == '/');
            }
            return out;
        }
        crate::strutil::push_char(&mut out, '/');
        let tail = string_from_chars(&rest);
        out.append(tail.as_str());
        proof {
            assert(out@ =~= home@ + seq!['/'] + p@.skip(2));
        }
        return out;
    }
    proof {
        if seq!['~', '/'].is_prefix_of(p@) {
            assert(p@.subrange(0, 2)[0] == p@[0]);
            assert(p@.subrange(0, 2)[1] == p@[1]);
            assert(false);
        }
    }
    p.to_owned()
}

} // verus!
