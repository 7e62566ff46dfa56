//! The pure parts of the top-level commands.
//!
//! Running an editor and touching the file system stay with the caller;
//! what is verified here is the memo file name the `new` command derives
//! from its title words.

use vstd::prelude::*;

use crate::strutil::{join_strings, join_with};

verus! {

/// The path with any trailing slashes removed: file-name extraction
/// ignores them.
pub open spec fn strip_trailing_slashes(f: Seq<char>) -> Seq<char>
    decreases f.len(),
{
    if f.len() > 0 && f.last() == '/' {
        strip_trailing_slashes(f.drop_last())
    } else {
        f
    }
}

/// Everything after the final slash.
pub open spec fn tail_component(f: Seq<char>) -> Seq<char>
    decreases f.len(),
{
    if f.len() == 0 {
        f
    } else if f.last() == '/' {
        Seq::empty()
    } else {
        tail_component(f.drop_last()).push(f.last())
    }
}

/// The last `/`-separated component of a path, trailing slashes ignored.
pub open spec fn last_component(f: Seq<char>) -> Seq<char> {
    tail_component(strip_trailing_slashes(f))
}

/// Whether a file name carries an extension: its last component holds a
/// dot past the first character (a lone leading dot marks a hidden file,
/// and `..` is no file name).
pub open spec fn has_extension(f: Seq<char>) -> bool {
    let name = last_component(f);
    name != seq!['.', '.'] && exists|i: int| 1 <= i < name.len() && name[i] == '.'
}

/// The memo file name for a title: the words joined by underscores, with
/// `.md` appended when the name has no extension yet.
pub open spec fn memo_filename_spec(title: Seq<Seq<char>>) -> Seq<char> {
    let joined = join_with(title, "_"@);
    if has_extension(joined) {
        joined
    } else {
        joined + ".md"@
    }
}

/// The last component, executably: trailing slashes dropped, then
/// everything after the final remaining slash.
fn last_component_exec(v: &Vec<char>) -> (r: Vec<char>)
    ensures
        r@ == last_component(v@),
{
    // Trailing slashes never count toward the component.
    let mut end = v.len();
    proof {
        assert(v@.subrange(0, v@.len() as int) =~= v@);
    }
    while end > 0 && v[end - 1] == '/'
        invariant
            end <= v@.len(),
            strip_trailing_slashes(v@) == strip_trailing_slashes(v@.subrange(0, end as int)),
        decreases end,
    {
        proof {
            let pre = v@.subrange(0, end as int);
            assert(pre.last() == v@[end - 1]);
            assert(pre.drop_last() =~= v@.subrange(0, end - 1));
        }
        end -= 1;
    }
    proof {
        if end > 0 {
            assert(v@.subrange(0, end as int).last() == v@[end - 1]);
        }
        assert(strip_trailing_slashes(v@.subrange(0, end as int)) == v@.subrange(0, end as int));
    }
    // Everything after the final slash before `end`.
    let mut cut: usize = 0;
    let mut i: usize = 0;
    while i < end
        invariant
            cut <= i <= end <= v@.len(),
            tail_component(v@.subrange(0, i as int)) == v@.subrange(cut as int, i as int),
        decreases end - i,
    {
        proof {
            let pre = v@.subrange(0, i + 1);
            assert(pre.drop_last() =~= v@.subrange(0, i as int));
            assert(pre.last() == v@[i as int]);
        }
        if v[i] == '/' {
            cut = i + 1;
            proof {
                assert(v@.subrange(cut as int, i + 1) =~= Seq::<char>::empty());
            }
        } else {
            proof {
                assert(v@.subrange(cut as int, i + 1) =~= v@.subrange(cut as int, i as int).push(
                    v@[i as int],
                ));
            }
        }
        i += 1;
    }
    let mut r: Vec<char> = Vec::new();
    let mut j = cut;
    while j < end
        invariant
            cut <= j <= end <= v@.len(),
            r@ == v@.subrange(cut as int, j as int),
        decreases end - j,
    {
        r.push(v[j]);
        j += 1;
        proof {
            assert(r@ =~= v@.subrange(cut as int, j as int));
        }
    }
    proof {
        assert(r@ =~= v@.subrange(cut as int, end as int));
    }
    r
}

/// The memo file name for the title words of a `new` command.
pub fn memo_filename(title: &Vec<String>) -> (r: String)
    ensures
        r@ == memo_filename_spec(title.deep_view()),
{
    let mut joined = join_strings(title, "_");
    let jv = crate::strutil::chars_of(joined.as_str());
    let name = last_component_exec(&jv);
    let mut has_ext = false;
    if name.len() == 2 && name[0] == '.' && name[1] == '.' {
        proof {
            assert(name@ =~= seq!['.', '.']);
        }
    } else {
        proof {
            if name@ == seq!['.', '.'] {
                assert(name@.len() == 2 && name@[0] == '.' && name@[1] == '.');
                assert(false);
            }
        }
        let mut i: usize = 1;
        while !has_ext && i < name.len()
            invariant
                1 <= i,
                i <= name@.len() || i == 1,
                has_ext ==> 1 <= (i as int) < name@.len() && name@[i as int] == '.',
                !has_ext ==> forall|t: int| 1 <= t < i ==> name@[t] != '.',
            decreases name@.len() - i + (if has_ext {
                0int
            } else {
                1int
            }),
        {
            if name[i] == '.' {
                has_ext = true;
            } else {
                i += 1;
            }
        }
        proof {
            if !has_ext {
                assert forall|t: int| 1 <= t < name@.len() implies name@[t] != '.' by {}
            }
        }
    }
    if has_ext {
        proof {
            assert(has_extension(jv@));
        }
        joined
    } else {
        proof {
            assert(!has_extension(jv@));
        }
        joined.append(".md");
        joined
    }
}

} // verus!
