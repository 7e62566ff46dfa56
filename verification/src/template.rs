//! Rendering a memo from its template.
//!
//! A template holds `{{title}}` and `{{date}}` placeholders; rendering
//! substitutes the memo's title and the current date.  Reading the template
//! file stays with the caller; asking the clock for today's date goes
//! through one trusted call, and everything downstream of it is verified
//! for every date the clock could report.

use vstd::prelude::*;

use crate::decimal::{dec_digits, dec_digits_2, u64_string, u64_string_2};
use crate::ranking::match_pos_from;
use crate::strutil::{chars_of, push_char};

verus! {

/// The text from the cursor on, with every later occurrence of the
/// pattern replaced: plain text up to the leftmost occurrence, then the
/// replacement, then onward past the occurrence.  Meaningful for a
/// non-empty pattern.
pub open spec fn replace_from(s: Seq<char>, pat: Seq<char>, rep: Seq<char>, i: int) -> Seq<char>
    decreases s.len() + 1 - i when 0 <= i && pat.len() > 0 via replace_from_decreases
{
    match match_pos_from(s, pat, i) {
        None => s.skip(i),
        Some(d) => s.subrange(i, d) + rep + replace_from(s, pat, rep, d + pat.len() as int),
    }
}

#[via_fn]
proof fn replace_from_decreases(s: Seq<char>, pat: Seq<char>, rep: Seq<char>, i: int) {
    crate::ranking::lemma_match_pos_from(s, pat, i);
}

/// The text with every occurrence of the pattern replaced, leftmost first
/// and without overlap; an empty pattern leaves the text unchanged.
pub open spec fn replace_all(s: Seq<char>, pat: Seq<char>, rep: Seq<char>) -> Seq<char> {
    if pat.len() == 0 {
        s
    } else {
        replace_from(s, pat, rep, 0)
    }
}

/// What rendering a template produces: the title substituted for every
/// `{{title}}`, then the date for every `{{date}}`.
pub open spec fn rendered_template(tpl: Seq<char>, title: Seq<char>, date: Seq<char>) -> Seq<
    char,
> {
    replace_all(replace_all(tpl, "{{title}}"@, title), "{{date}}"@, date)
}

/// A date as `year-month-day`, the month and day zero-padded to two
/// digits and a negative year signed.
pub open spec fn date_text(y: int, m: int, d: int) -> Seq<char> {
    (if y < 0 {
        seq!['-'] + dec_digits(-y)
    } else {
        dec_digits(y)
    }) + "-"@ + dec_digits_2(m) + "-"@ + dec_digits_2(d)
}

/// Replaces every occurrence of `pat` in `s` by `rep`.
#[verifier::loop_isolation(false)]
#[verifier::rlimit(60)]
pub fn replace_str(s: &str, pat: &str, rep: &str) -> (r: String)
    ensures
        r@ == replace_all(s@, pat@, rep@),
{
    let sv = chars_of(s);
    let pv = chars_of(pat);
    let n = sv.len();
    let m = pv.len();
    if m == 0 {
        return s.to_owned();
    }
    let mut out = String::new();
    let mut i: usize = 0;
    while m <= n && i <= n - m
        invariant
            0 <= i <= n,
            replace_from(s@, pat@, rep@, 0) == out@ + replace_from(s@, pat@, rep@, i as int),
        decreases n - i,
    {
        if crate::matcher::occurs_here(&sv, &pv, i) {
            proof {
                assert(match_pos_from(s@, pat@, i as int) == Some(i as int));
                assert(s@.subrange(i as int, i as int) =~= Seq::<char>::empty());
                assert(Seq::<char>::empty() + rep@ + replace_from(
                    s@,
                    pat@,
                    rep@,
                    i + m,
                ) =~= rep@ + replace_from(s@, pat@, rep@, i + m));
            }
            out.append(rep);
            i += m;
        } else {
            proof {
                assert(match_pos_from(s@, pat@, i as int) == match_pos_from(s@, pat@, i + 1));
                lemma_replace_step(s@, pat@, rep@, i as int);
            }
            push_char(&mut out, sv[i]);
            i += 1;
        }
    }
    // No further occurrence fits: copy the tail verbatim.
    proof {
        assert(match_pos_from(s@, pat@, i as int) is None);
    }
    while i < n
        invariant
            i <= n,
            replace_from(s@, pat@, rep@, 0) == out@ + s@.skip(i as int),
        decreases n - i,
    {
        proof {
            assert(s@.skip(i as int) =~= seq![s@[i as int]] + s@.skip(i + 1));
        }
        push_char(&mut out, sv[i]);
        i += 1;
    }
    proof {
        assert(s@.skip(i as int) =~= Seq::<char>::empty());
        assert(out@ =~= out@ + Seq::<char>::empty());
    }
    out
}

/// Stepping the cursor over a non-matching character copies it verbatim.
proof fn lemma_replace_step(s: Seq<char>, pat: Seq<char>, rep: Seq<char>, i: int)
    requires
        0 <= i < s.len(),
        pat.len() > 0,
        match_pos_from(s, pat, i) == match_pos_from(s, pat, i + 1),
    ensures
        replace_from(s, pat, rep, i) == seq![s[i]] + replace_from(s, pat, rep, i + 1),
{
    crate::ranking::lemma_match_pos_from(s, pat, i + 1);
    match match_pos_from(s, pat, i) {
        None => {
            assert(s.skip(i) =~= seq![s[i]] + s.skip(i + 1));
        },
        Some(d) => {
            assert(d >= i + 1);
            assert(s.subrange(i, d) =~= seq![s[i]] + s.subrange(i + 1, d));
            assert((seq![s[i]] + s.subrange(i + 1, d)) + rep + replace_from(s, pat, rep, d
                + pat.len() as int) =~= seq![s[i]] + (s.subrange(i + 1, d) + rep + replace_from(
                s,
                pat,
                rep,
                d + pat.len() as int,
            )));
        },
    }
}

/// The memo template and its placeholders.
#[derive(Debug, Clone, Copy)]
pub struct Template;

impl Template {
    /// Renders template text with the given title and date.
    pub fn render(contents: &str, title: &str, date: &str) -> (r: String)
        ensures
            r@ == rendered_template(contents@, title@, date@),
    {
        let pass = replace_str(contents, "{{title}}", title);
        replace_str(pass.as_str(), "{{date}}", date)
    }

    /// Renders template text with the given title and today's UTC date.
    /// Whatever day the clock reports, the result is the rendering with
    /// that day's `year-month-day` text.
    pub fn render_today(contents: &str, title: &str) -> (r: String)
        ensures
            exists|y: int, m: int, d: int|
                1 <= m <= 12 && 1 <= d <= 31 && r@ == rendered_template(
                    contents@,
                    title@,
                    date_text(y, m, d),
                ),
    {
        let (y, m, d) = today_utc();
        let date = date_string(y, m, d);
        let r = Template::render(contents, title, date.as_str());
        proof {
            assert(1 <= m <= 12 && 1 <= d <= 31 && r@ == rendered_template(
                contents@,
                title@,
                date_text(y as int, m as int, d as int),
            ));
        }
        r
    }
}

/// The `year-month-day` text of a date.
pub fn date_string(y: i32, m: u32, d: u32) -> (r: String)
    ensures
        r@ == date_text(y as int, m as int, d as int),
{
    let mut s = String::new();
    if y < 0 {
        push_char(&mut s, '-');
        let mag: u64 = (-(y as i64)) as u64;
        proof {
            assert(mag as int == -(y as int));
        }
        let digits = u64_string(mag);
        s.append(digits.as_str());
    } else {
        let digits = u64_string(y as u64);
        s.append(digits.as_str());
    }
    s.append("-");
    let mm = u64_string_2(m as u64);
    s.append(mm.as_str());
    s.append("-");
    let dd = u64_string_2(d as u64);
    s.append(dd.as_str());
    s
}

/// Relies on chrono's `Utc::now` and the `Datelike` accessors `year`,
/// `month` and `day`: the month is between 1 and 12 and the day between 1
/// and 31, as chrono documents.
#[verifier::external_body]
fn today_utc() -> (r: (i32, u32, u32))
    ensures
        1 <= r.1 <= 12,
        1 <= r.2 <= 31,
{
    let now = chrono::Utc::now();
    (chrono::Datelike::year(&now), chrono::Datelike::month(&now), chrono::Datelike::day(&now))
}

} // verus!
