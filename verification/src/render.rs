//! What the selection panel draws, computed as strings.
//!
//! The terminal writes themselves (positioning, color commands, flushing)
//! stay with the caller; the text they print — the border rows, the match
//! counter, the echoed query and each highlighted result row — is computed
//! and specified here.

use vstd::prelude::*;

use crate::decimal::{dec_digits, usize_string};
use crate::strutil::{chars_of, push_char};

verus! {

/// Whether a hit list holds the given offset.
fn hits_contain(hits: &Vec<usize>, x: usize) -> (r: bool)
    ensures
        r == hits@.contains(x),
{
    let mut i: usize = 0;
    while i < hits.len()
        invariant
            i <= hits@.len(),
            forall|t: int| 0 <= t < i ==> hits@[t] != x,
        decreases hits@.len() - i,
    {
        if hits[i] == x {
            return true;
        }
        i += 1;
    }
    false
}

/// One rendered row from the given character on: each character prefixed
/// by the accent escape when its offset is a hit and by the reset escape
/// otherwise, then by the selection background escape on the selected row;
/// the row ends with a reset.
pub open spec fn rendered_from(item: Seq<char>, hits: Seq<usize>, sel: bool, i: int) -> Seq<char>
    decreases item.len() - i,
{
    if i < 0 || i >= item.len() {
        "\u{1b}[0m"@
    } else {
        (if hits.contains(i as usize) {
            "\u{1b}[32m"@
        } else {
            "\u{1b}[0m"@
        }) + (if sel {
            "\u{1b}[40m"@
        } else {
            Seq::<char>::empty()
        }) + seq![item[i]] + rendered_from(item, hits, sel, i + 1)
    }
}

/// A whole rendered result row.
pub open spec fn rendered_line(item: Seq<char>, hits: Seq<usize>, sel: bool) -> Seq<char> {
    rendered_from(item, hits, sel, 0)
}

/// Renders one result row: the candidate's characters with the matched
/// offsets in the accent color, on the selection background when the row
/// is selected, reset at the end.
#[verifier::loop_isolation(false)]
pub fn render_line(item: &str, hits: &Vec<usize>, selected: bool) -> (r: String)
    ensures
        r@ == rendered_line(item@, hits@, selected),
{
    let iv = chars_of(item);
    let n = iv.len();
    let mut out = String::new();
    let mut i: usize = 0;
    while i < n
        invariant
            i <= n,
            rendered_line(item@, hits@, selected) == out@ + rendered_from(
                item@,
                hits@,
                selected,
                i as int,
            ),
        decreases n - i,
    {
        if hits_contain(hits, i) {
            out.append("\u{1b}[32m");
        } else {
            out.append("\u{1b}[0m");
        }
        if selected {
            out.append("\u{1b}[40m");
        }
        push_char(&mut out, iv[i]);
        proof {
            let chunk = (if hits@.contains(i as usize) {
                "\u{1b}[32m"@
            } else {
                "\u{1b}[0m"@
            }) + (if selected {
                "\u{1b}[40m"@
            } else {
                Seq::<char>::empty()
            }) + seq![item@[i as int]];
            assert(rendered_from(item@, hits@, selected, i as int) == chunk + rendered_from(
                item@,
                hits@,
                selected,
                i + 1,
            ));
            assert(out@ =~= (out@.subrange(0, out@.len() - chunk.len() as int)) + chunk) by {
                assert(out@.len() >= chunk.len());
            }
        }
        i += 1;
    }
    out.append("\u{1b}[0m");
    proof {
        assert(rendered_from(item@, hits@, selected, n as int) == "\u{1b}[0m"@);
    }
    out
}

/// The top border row: a left corner, a dash for every interior column,
/// and a right corner.
pub open spec fn top_border(cols: int) -> Seq<char> {
    seq!['╭'] + Seq::new((cols - 2) as nat, |i: int| '─') + seq!['╮']
}

/// The bottom border row.
pub open spec fn bottom_border(cols: int) -> Seq<char> {
    seq!['╰'] + Seq::new((cols - 2) as nat, |i: int| '─') + seq!['╯']
}

/// The top border of a panel `cols` columns wide.
pub fn outline_top(cols: u16) -> (r: String)
    requires
        cols >= 2,
    ensures
        r@ == top_border(cols as int),
{
    let mut s = String::new();
    push_char(&mut s, '╭');
    let mut c: u16 = 1;
    while c < cols - 1
        invariant
            1 <= c <= cols - 1,
            cols >= 2,
            s@ == seq!['╭'] + Seq::new((c - 1) as nat, |i: int| '─'),
        decreases cols - 1 - c,
    {
        push_char(&mut s, '─');
        c += 1;
        proof {
            assert(s@ =~= seq!['╭'] + Seq::new((c - 1) as nat, |i: int| '─'));
        }
    }
    push_char(&mut s, '╮');
    proof {
        assert(s@ =~= top_border(cols as int));
    }
    s
}

/// The bottom border of a panel `cols` columns wide.
pub fn outline_bottom(cols: u16) -> (r: String)
    requires
        cols >= 2,
    ensures
        r@ == bottom_border(cols as int),
{
    let mut s = String::new();
    push_char(&mut s, '╰');
    let mut c: u16 = 1;
    while c < cols - 1
        invariant
            1 <= c <= cols - 1,
            cols >= 2,
            s@ == seq!['╰'] + Seq::new((c - 1) as nat, |i: int| '─'),
        decreases cols - 1 - c,
    {
        push_char(&mut s, '─');
        c += 1;
        proof {
            assert(s@ =~= seq!['╰'] + Seq::new((c - 1) as nat, |i: int| '─'));
        }
    }
    push_char(&mut s, '╯');
    proof {
        assert(s@ =~= bottom_border(cols as int));
    }
    s
}

/// The `matched/total` counter row.
pub fn count_text(matched: usize, total: usize) -> (r: String)
    ensures
        r@ == dec_digits(matched as int) + "/"@ + dec_digits(total as int),
{
    let mut s = usize_string(matched);
    s.append("/");
    let t = usize_string(total);
    s.append(t.as_str());
    s
}

/// The echoed query with the trailing cursor glyph.
pub fn input_echo(input: &str) -> (r: String)
    ensures
        r@ == input@ + "█"@,
{
    let mut s = input.to_owned();
    s.append("█");
    s
}

} // verus!
