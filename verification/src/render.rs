//! Placeholder substitution for templates.
//!
//! A template is a byte string; rendering replaces every occurrence of the
//! project-name, current-year and author markers with the run's values, in
//! that order, exactly as a left-to-right scan finds them.
use crate::text::vec_u8_clone;
use vstd::prelude::*;

verus! {

broadcast use crate::views::lemma_byte_vec_deep_view;

/// True when `pat` occurs in `s` starting at position `i`.
pub open spec fn matches_at(s: Seq<u8>, pat: Seq<u8>, i: int) -> bool {
    0 <= i && i + pat.len() <= s.len() && s.subrange(i, i + pat.len()) == pat
}

/// True when `pat` occurs somewhere in `s`.
pub open spec fn occurs_in(s: Seq<u8>, pat: Seq<u8>) -> bool {
    exists|i: int| matches_at(s, pat, i)
}

/// Every occurrence of `pat` in `text` replaced by `repl`, scanning left to
/// right and never rescanning a replacement. An empty `pat` replaces nothing.
pub open spec fn replace_all(text: Seq<u8>, pat: Seq<u8>, repl: Seq<u8>) -> Seq<u8>
    decreases text.len(),
{
    if pat.len() == 0 {
        text
    } else if text.len() < pat.len() {
        text
    } else if text.subrange(0, pat.len() as int) == pat {
        repl + replace_all(text.skip(pat.len() as int), pat, repl)
    } else {
        seq![text[0]] + replace_all(text.drop_first(), pat, repl)
    }
}

/// A text in which the pattern does not occur is left exactly as it is.
pub proof fn lemma_replace_all_absent(text: Seq<u8>, pat: Seq<u8>, repl: Seq<u8>)
    requires
        !occurs_in(text, pat),
    ensures
        replace_all(text, pat, repl) == text,
    decreases text.len(),
{
    if pat.len() == 0 {
        assert(text.subrange(0, 0) =~= pat);
        assert(matches_at(text, pat, 0));
    } else if text.len() < pat.len() {
    } else {
        assert(!matches_at(text, pat, 0));
        assert(text.subrange(0, pat.len() as int) != pat);
        assert forall|i: int| !matches_at(text.drop_first(), pat, i) by {
            if matches_at(text.drop_first(), pat, i) {
                assert(text.drop_first().subrange(i, i + pat.len()) =~= text.subrange(
                    i + 1,
                    i + 1 + pat.len(),
                ));
                assert(matches_at(text, pat, i + 1));
            }
        }
        lemma_replace_all_absent(text.drop_first(), pat, repl);
        assert(seq![text[0]] + text.drop_first() =~= text);
    }
}

/// Replacement acts on the first occurrence and then on the rest: if the
/// first match of `pat` in `text` starts at `k`, everything before `k` is
/// kept, `repl` is put in place of the match, and the scan continues after it.
pub proof fn lemma_replace_all_at_first_match(text: Seq<u8>, pat: Seq<u8>, repl: Seq<u8>, k: int)
    requires
        pat.len() > 0,
        matches_at(text, pat, k),
        forall|i: int| 0 <= i < k ==> !matches_at(text, pat, i),
    ensures
        replace_all(text, pat, repl) == text.take(k) + repl + replace_all(
            text.skip(k + pat.len()),
            pat,
            repl,
        ),
    decreases text.len(),
{
    if k == 0 {
        assert(text.subrange(0, pat.len() as int) == pat);
        assert(text.take(0) =~= Seq::<u8>::empty());
        assert(text.take(0) + repl =~= repl);
        assert((text.take(0) + repl) + replace_all(text.skip(pat.len() as int), pat, repl) =~= repl
            + replace_all(text.skip(pat.len() as int), pat, repl));
    } else {
        assert(!matches_at(text, pat, 0));
        assert(text.len() >= pat.len()) by {
            assert(k + pat.len() <= text.len());
        }
        assert(text.subrange(0, pat.len() as int) != pat);
        let rest = text.drop_first();
        assert(matches_at(rest, pat, k - 1)) by {
            assert(rest.subrange(k - 1, k - 1 + pat.len()) =~= text.subrange(k, k + pat.len()));
        }
        assert forall|i: int| 0 <= i < k - 1 implies !matches_at(rest, pat, i) by {
            if matches_at(rest, pat, i) {
                assert(rest.subrange(i, i + pat.len()) =~= text.subrange(i + 1, i + 1 + pat.len()));
                assert(matches_at(text, pat, i + 1));
            }
        }
        lemma_replace_all_at_first_match(rest, pat, repl, k - 1);
        assert(rest.skip(k - 1 + pat.len()) =~= text.skip(k + pat.len()));
        assert(seq![text[0]] + (rest.take(k - 1) + repl + replace_all(
            text.skip(k + pat.len()),
            pat,
            repl,
        )) =~= text.take(k) + repl + replace_all(text.skip(k + pat.len()), pat, repl));
    }
}

/// Decimal digits of a non-negative number, most significant first.
pub open spec fn dec_digits(n: nat) -> Seq<u8>
    decreases n,
{
    if n < 10 {
        seq![(48 + n) as u8]
    } else {
        dec_digits(n / 10).push((48 + n % 10) as u8)
    }
}

/// Decimal rendering of an integer, with a leading minus sign if negative.
pub open spec fn int_digits(v: int) -> Seq<u8> {
    if v < 0 {
        seq![45u8] + dec_digits((-v) as nat)
    } else {
        dec_digits(v as nat)
    }
}

fn push_dec_digits(n: u32, out: &mut Vec<u8>)
    ensures
        final(out)@ == old(out)@ + dec_digits(n as nat),
    decreases n,
{
    if n < 10 {
        out.push((48 + n) as u8);
        assert(out@ =~= old(out)@ + dec_digits(n as nat));
    } else {
        push_dec_digits(n / 10, out);
        out.push((48 + n % 10) as u8);
        assert(out@ =~= old(out)@ + dec_digits(n as nat));
    }
}

/// Writes an integer in decimal, as the current year is written into
/// rendered templates.
pub fn int_to_digits(v: i32) -> (r: Vec<u8>)
    ensures
        r@ == int_digits(v as int),
{
    let mut out: Vec<u8> = Vec::new();
    if v < 0 {
        out.push(45);
        let m: u32 = (-(v as i64)) as u32;
        push_dec_digits(m, &mut out);
        assert(out@ =~= int_digits(v as int));
    } else {
        push_dec_digits(v as u32, &mut out);
    }
    out
}

/// The literal marker that rendering replaces with the project name.
pub open spec fn name_marker() -> Seq<u8> {
    vstd::utf8::encode_utf8("$$PROJECT_NAME"@)
}

/// The literal marker that rendering replaces with the current year.
pub open spec fn year_marker() -> Seq<u8> {
    vstd::utf8::encode_utf8("$$CURRENT_YEAR"@)
}

/// The literal marker that rendering replaces with the author.
pub open spec fn author_marker() -> Seq<u8> {
    vstd::utf8::encode_utf8("$$PROJECT_AUTHOR"@)
}

/// The project-name marker, as bytes.
pub fn name_marker_bytes() -> (r: Vec<u8>)
    ensures
        r@ == name_marker(),
{
    let s = "$$PROJECT_NAME";
    s.as_bytes_vec()
}

/// The current-year marker, as bytes.
pub fn year_marker_bytes() -> (r: Vec<u8>)
    ensures
        r@ == year_marker(),
{
    let s = "$$CURRENT_YEAR";
    s.as_bytes_vec()
}

/// The author marker, as bytes.
pub fn author_marker_bytes() -> (r: Vec<u8>)
    ensures
        r@ == author_marker(),
{
    let s = "$$PROJECT_AUTHOR";
    s.as_bytes_vec()
}

/// A rendered template: the three markers replaced, in the fixed order
/// project name, then current year, then author.
pub open spec fn render_spec(text: Seq<u8>, name: Seq<u8>, year: int, author: Seq<u8>) -> Seq<u8> {
    replace_all(
        replace_all(replace_all(text, name_marker(), name), year_marker(), int_digits(year)),
        author_marker(),
        author,
    )
}

/// A text holding none of the three markers renders to itself.
pub proof fn lemma_render_no_markers(text: Seq<u8>, name: Seq<u8>, year: int, author: Seq<u8>)
    requires
        !occurs_in(text, name_marker()),
        !occurs_in(text, year_marker()),
        !occurs_in(text, author_marker()),
    ensures
        render_spec(text, name, year, author) == text,
{
    lemma_replace_all_absent(text, name_marker(), name);
    lemma_replace_all_absent(text, year_marker(), int_digits(year));
    lemma_replace_all_absent(text, author_marker(), author);
}

fn match_at_bytes(text: &Vec<u8>, pat: &Vec<u8>, i: usize) -> (r: bool)
    requires
        i + pat@.len() <= text@.len(),
    ensures
        r == (text@.subrange(i as int, i + pat@.len()) == pat@),
{
    let n = text.len();
    let mut k: usize = 0;
    while k < pat.len()
        invariant
            k <= pat@.len(),
            i + pat@.len() <= text@.len(),
            n == text@.len(),
            forall|j: int| 0 <= j < k ==> text@[i + j] == pat@[j],
        decreases pat.len() - k,
    {
        if text[i + k] != pat[k] {
            proof {
                assert(text@.subrange(i as int, i + pat@.len())[k as int] != pat@[k as int]);
            }
            return false;
        }
        k = k + 1;
    }
    proof {
        assert(text@.subrange(i as int, i + pat@.len()) =~= pat@);
    }
    true
}

fn push_all(out: &mut Vec<u8>, s: &Vec<u8>)
    ensures
        final(out)@ == old(out)@ + s@,
{
    let mut k: usize = 0;
    while k < s.len()
        invariant
            k <= s@.len(),
            out@ =~= old(out)@ + s@.take(k as int),
        decreases s.len() - k,
    {
        out.push(s[k]);
        k = k + 1;
        assert(out@ =~= old(out)@ + s@.take(k as int));
    }
    assert(out@ =~= old(out)@ + s@);
}

/// Replaces every occurrence of `pat` in `text` by `repl`, scanning left
/// to right.
pub fn replace_all_bytes(text: &Vec<u8>, pat: &Vec<u8>, repl: &Vec<u8>) -> (r: Vec<u8>)
    ensures
        r@ == replace_all(text@, pat@, repl@),
{
    if pat.len() == 0 {
        return vec_u8_clone(text);
    }
    let mut out: Vec<u8> = Vec::new();
    let mut i: usize = 0;
    proof {
        assert(text@.skip(0) =~= text@);
        assert(out@ + replace_all(text@, pat@, repl@) =~= replace_all(text@, pat@, repl@));
    }
    while i < text.len()
        invariant
            i <= text@.len(),
            pat@.len() > 0,
            replace_all(text@, pat@, repl@) == out@ + replace_all(text@.skip(i as int), pat@, repl@),
        decreases text.len() - i,
    {
        let ghost rest = text@.skip(i as int);
        if pat.len() <= text.len() - i && match_at_bytes(text, pat, i) {
            proof {
                assert(rest.subrange(0, pat@.len() as int) =~= text@.subrange(
                    i as int,
                    i + pat@.len(),
                ));
                assert(rest.skip(pat@.len() as int) =~= text@.skip(i + pat@.len()));
            }
            push_all(&mut out, repl);
            i = i + pat.len();
        } else {
            proof {
                if pat@.len() <= rest.len() {
                    assert(rest.subrange(0, pat@.len() as int) =~= text@.subrange(
                        i as int,
                        i + pat@.len(),
                    ));
                }
                assert(rest.drop_first() =~= text@.skip(i + 1));
                assert(out@.push(text@[i as int]) =~= out@ + seq![text@[i as int]]);
            }
            let b = text[i];
            out.push(b);
            i = i + 1;
        }
    }
    proof {
        assert(text@.skip(text@.len() as int) =~= Seq::<u8>::empty());
        assert(out@ + Seq::<u8>::empty() =~= out@);
    }
    out
}

/// Renders a template with the given project name, year and author.
pub fn render(text: &Vec<u8>, name: &Vec<u8>, year: i32, author: &Vec<u8>) -> (r: Vec<u8>)
    ensures
        r@ == render_spec(text@, name@, year as int, author@),
{
    let m1 = name_marker_bytes();
    let m2 = year_marker_bytes();
    let m3 = author_marker_bytes();
    let y = int_to_digits(year);
    let pass1 = replace_all_bytes(text, &m1, name);
    let pass2 = replace_all_bytes(&pass1, &m2, &y);
    replace_all_bytes(&pass2, &m3, author)
}

} // verus!
