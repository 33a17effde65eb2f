//! Byte-level text primitives: whitespace, trimming, tokenising,
//! ASCII lowercasing, lexicographic ordering and sorting of tokens,
//! and joining tokens with underscores.
//!
//! All user-entered answers and template keys are treated as UTF-8 byte
//! strings; every operation here is specified over `Seq<u8>` and verified.
use vstd::multiset::Multiset;
use vstd::prelude::*;
use vstd::relations::{sorted_by, total_ordering};
use vstd::seq_lib::lemma_multiset_commutative;
use vstd::seq_lib::lemma_sorted_unique;

verus! {

broadcast use crate::views::lemma_byte_vec_deep_view;

/// True for the ASCII whitespace bytes that delimit user-entered tokens.
/// Whitespace is ASCII-only throughout this library: a non-ASCII Unicode
/// space never delimits or trims, and every token the plan recognizes is
/// plain ASCII.
pub open spec fn is_space(b: u8) -> bool {
    b == 32 || b == 9 || b == 10 || b == 13 || b == 11 || b == 12
}

/// Executable test for a token-delimiting whitespace byte.
pub fn is_space_byte(b: u8) -> (r: bool)
    ensures
        r == is_space(b),
{
    b == 32 || b == 9 || b == 10 || b == 13 || b == 11 || b == 12
}

/// ASCII lowercasing of a single byte; bytes outside `A`..`Z` are unchanged,
/// so multi-byte UTF-8 sequences are never altered. Lowercasing, like
/// whitespace, is ASCII-only: non-ASCII letters keep their case, which is
/// enough since every recognized token is plain ASCII.
pub open spec fn to_lower(b: u8) -> u8 {
    if 65 <= b && b <= 90 {
        (b + 32) as u8
    } else {
        b
    }
}

/// ASCII lowercasing of a whole byte string.
pub open spec fn lower(s: Seq<u8>) -> Seq<u8> {
    s.map_values(|b: u8| to_lower(b))
}

/// Lowercases a byte string.
pub fn lower_bytes(s: &Vec<u8>) -> (r: Vec<u8>)
    ensures
        r@ == lower(s@),
{
    let mut r: Vec<u8> = Vec::new();
    let mut i: usize = 0;
    while i < s.len()
        invariant
            i <= s.len(),
            r@ =~= lower(s@).take(i as int),
        decreases s.len() - i,
    {
        let b = s[i];
        if 65 <= b && b <= 90 {
            r.push(b + 32);
        } else {
            r.push(b);
        }
        i = i + 1;
        assert(r@ =~= lower(s@).take(i as int));
    }
    assert(lower(s@).take(s@.len() as int) =~= lower(s@));
    r
}

/// Lowercasing never turns a byte into whitespace or whitespace into a letter.
pub broadcast proof fn lemma_lower_keeps_space(b: u8)
    ensures
        is_space(#[trigger] to_lower(b)) == is_space(b),
{
}

/// A byte string with its leading and trailing whitespace removed
/// (ASCII whitespace only, as [`is_space`] defines it).
pub open spec fn trim_spec(s: Seq<u8>) -> Seq<u8>
    decreases s.len(),
{
    if s.len() == 0 {
        s
    } else if is_space(s[0]) {
        trim_spec(s.drop_first())
    } else if is_space(s.last()) {
        trim_spec(s.drop_last())
    } else {
        s
    }
}

proof fn lemma_trim_all_space(s: Seq<u8>)
    requires
        forall|k: int| 0 <= k < s.len() ==> is_space(s[k]),
    ensures
        trim_spec(s) =~= Seq::<u8>::empty(),
    decreases s.len(),
{
    if s.len() > 0 {
        lemma_trim_all_space(s.drop_first());
    }
}

proof fn lemma_trim_range(s: Seq<u8>, lo: int, hi: int)
    requires
        0 <= lo < hi <= s.len(),
        forall|k: int| 0 <= k < lo ==> is_space(s[k]),
        forall|k: int| hi <= k < s.len() ==> is_space(s[k]),
        !is_space(s[lo]),
        !is_space(s[hi - 1]),
    ensures
        trim_spec(s) == s.subrange(lo, hi),
    decreases s.len(),
{
    if lo > 0 {
        lemma_trim_range(s.drop_first(), lo - 1, hi - 1);
        assert(s.drop_first().subrange(lo - 1, hi - 1) =~= s.subrange(lo, hi));
    } else if hi < s.len() {
        assert(is_space(s.last()));
        lemma_trim_range(s.drop_last(), lo, hi);
        assert(s.drop_last().subrange(lo, hi) =~= s.subrange(lo, hi));
    } else {
        assert(trim_spec(s) == s);
        assert(s.subrange(0, s.len() as int) =~= s);
    }
}

/// A trimmed byte string never starts or ends with whitespace.
pub proof fn lemma_trim_no_edge_space(s: Seq<u8>)
    ensures
        trim_spec(s).len() > 0 ==> !is_space(trim_spec(s)[0]),
        trim_spec(s).len() > 0 ==> !is_space(trim_spec(s).last()),
    decreases s.len(),
{
    if s.len() > 0 {
        if is_space(s[0]) {
            lemma_trim_no_edge_space(s.drop_first());
        } else if is_space(s.last()) {
            lemma_trim_no_edge_space(s.drop_last());
        }
    }
}

/// Removes leading and trailing whitespace from a byte string.
pub fn trim_bytes(s: &Vec<u8>) -> (r: Vec<u8>)
    ensures
        r@ == trim_spec(s@),
{
    let mut lo: usize = 0;
    while lo < s.len() && is_space_byte(s[lo])
        invariant
            lo <= s.len(),
            forall|k: int| 0 <= k < lo ==> is_space(s@[k]),
        decreases s.len() - lo,
    {
        lo = lo + 1;
    }
    if lo == s.len() {
        proof {
            lemma_trim_all_space(s@);
        }
        let r: Vec<u8> = Vec::new();
        return r;
    }
    let mut hi: usize = s.len();
    while hi > lo && is_space_byte(s[hi - 1])
        invariant
            lo <= hi <= s.len(),
            forall|k: int| hi <= k < s.len() ==> is_space(s@[k]),
        decreases hi,
    {
        hi = hi - 1;
    }
    // `s[lo]` is not whitespace, so the backward scan stops strictly after it.
    assert(hi > lo);
    proof {
        lemma_trim_range(s@, lo as int, hi as int);
    }
    let mut r: Vec<u8> = Vec::new();
    let mut k: usize = lo;
    while k < hi
        invariant
            lo <= k <= hi <= s.len(),
            r@ =~= s@.subrange(lo as int, k as int),
        decreases hi - k,
    {
        r.push(s[k]);
        k = k + 1;
        assert(r@ =~= s@.subrange(lo as int, k as int));
    }
    r
}

/// The whitespace-delimited tokens of `s` from position `i` on, given the
/// token bytes `cur` read so far and the tokens `acc` already complete.
pub open spec fn tokens_from(s: Seq<u8>, i: int, cur: Seq<u8>, acc: Seq<Seq<u8>>) -> Seq<Seq<u8>>
    decreases s.len() - i,
{
    if i < 0 || i >= s.len() {
        if cur.len() > 0 {
            acc.push(cur)
        } else {
            acc
        }
    } else if is_space(s[i]) {
        if cur.len() > 0 {
            tokens_from(s, i + 1, Seq::empty(), acc.push(cur))
        } else {
            tokens_from(s, i + 1, cur, acc)
        }
    } else {
        tokens_from(s, i + 1, cur.push(s[i]), acc)
    }
}

/// The whitespace-delimited tokens of a byte string, in order.
pub open spec fn tokens_of(s: Seq<u8>) -> Seq<Seq<u8>> {
    tokens_from(s, 0, Seq::empty(), Seq::empty())
}

proof fn lemma_tokens_from_grows(s: Seq<u8>, i: int, cur: Seq<u8>, acc: Seq<Seq<u8>>)
    requires
        0 <= i,
    ensures
        tokens_from(s, i, cur, acc).len() >= acc.len(),
        cur.len() > 0 || (exists|k: int| i <= k < s.len() && !is_space(s[k])) ==> tokens_from(
            s,
            i,
            cur,
            acc,
        ).len() >= acc.len() + 1,
    decreases s.len() - i,
{
    if 0 <= i < s.len() {
        if is_space(s[i]) {
            if cur.len() > 0 {
                lemma_tokens_from_grows(s, i + 1, Seq::empty(), acc.push(cur));
            } else {
                lemma_tokens_from_grows(s, i + 1, cur, acc);
                if exists|k: int| i <= k < s.len() && !is_space(s[k]) {
                    let k = choose|k: int| i <= k < s.len() && !is_space(s[k]);
                    assert(i + 1 <= k < s.len() && !is_space(s[k]));
                }
            }
        } else {
            lemma_tokens_from_grows(s, i + 1, cur.push(s[i]), acc);
        }
    }
}

/// A byte string that holds any non-whitespace byte splits into at least
/// one token.
pub proof fn lemma_tokens_nonempty(s: Seq<u8>)
    requires
        exists|k: int| 0 <= k < s.len() && !is_space(s[k]),
    ensures
        tokens_of(s).len() >= 1,
{
    lemma_tokens_from_grows(s, 0, Seq::empty(), Seq::empty());
}

/// Splits a byte string into its whitespace-delimited tokens.
pub fn split_tokens(s: &Vec<u8>) -> (r: Vec<Vec<u8>>)
    ensures
        r.deep_view() == tokens_of(s@),
{
    let mut acc: Vec<Vec<u8>> = Vec::new();
    let mut cur: Vec<u8> = Vec::new();
    let mut i: usize = 0;
    proof {
        assert(cur@ =~= Seq::<u8>::empty());
        assert(acc.deep_view() =~= Seq::<Seq<u8>>::empty());
    }
    while i < s.len()
        invariant
            i <= s.len(),
            tokens_of(s@) == tokens_from(s@, i as int, cur@, acc.deep_view()),
        decreases s.len() - i,
    {
        let b = s[i];
        if is_space_byte(b) {
            if cur.len() > 0 {
                let ghost old_acc = acc.deep_view();
                let ghost old_cur = cur@;
                acc.push(cur);
                cur = Vec::new();
                assert(acc.deep_view() =~= old_acc.push(old_cur));
            }
        } else {
            cur.push(b);
        }
        i = i + 1;
    }
    if cur.len() > 0 {
        let ghost old_acc = acc.deep_view();
        let ghost old_cur = cur@;
        acc.push(cur);
        assert(acc.deep_view() =~= old_acc.push(old_cur));
    }
    acc
}

/// Lexicographic (byte-wise) order on byte strings; this is the order in
/// which license tokens are sorted.
pub open spec fn lex_le(a: Seq<u8>, b: Seq<u8>) -> bool
    decreases a.len(),
{
    if a.len() == 0 {
        true
    } else if b.len() == 0 {
        false
    } else if a[0] < b[0] {
        true
    } else if a[0] > b[0] {
        false
    } else {
        lex_le(a.drop_first(), b.drop_first())
    }
}

/// The lexicographic order as a relation value, for use with `sort_by`.
pub open spec fn lex_leq() -> spec_fn(Seq<u8>, Seq<u8>) -> bool {
    |a: Seq<u8>, b: Seq<u8>| lex_le(a, b)
}

proof fn lemma_lex_refl(a: Seq<u8>)
    ensures
        lex_le(a, a),
    decreases a.len(),
{
    if a.len() > 0 {
        lemma_lex_refl(a.drop_first());
    }
}

proof fn lemma_lex_antisym(a: Seq<u8>, b: Seq<u8>)
    requires
        lex_le(a, b),
        lex_le(b, a),
    ensures
        a =~= b,
    decreases a.len(),
{
    if a.len() > 0 && b.len() > 0 {
        lemma_lex_antisym(a.drop_first(), b.drop_first());
        assert(a =~= seq![a[0]] + a.drop_first());
        assert(b =~= seq![b[0]] + b.drop_first());
    }
}

proof fn lemma_lex_trans(a: Seq<u8>, b: Seq<u8>, c: Seq<u8>)
    requires
        lex_le(a, b),
        lex_le(b, c),
    ensures
        lex_le(a, c),
    decreases a.len(),
{
    if a.len() > 0 && b.len() > 0 && c.len() > 0 {
        if a[0] == b[0] && b[0] == c[0] {
            lemma_lex_trans(a.drop_first(), b.drop_first(), c.drop_first());
        }
    }
}

proof fn lemma_lex_connected(a: Seq<u8>, b: Seq<u8>)
    ensures
        lex_le(a, b) || lex_le(b, a),
    decreases a.len(),
{
    if a.len() > 0 && b.len() > 0 && a[0] == b[0] {
        lemma_lex_connected(a.drop_first(), b.drop_first());
    }
}

/// The lexicographic order on byte strings is a total order, so sorting
/// by it has exactly one possible result.
pub proof fn lemma_lex_total_ordering()
    ensures
        total_ordering(lex_leq()),
{
    let r = lex_leq();
    assert forall|a: Seq<u8>| #[trigger] r(a, a) by {
        lemma_lex_refl(a);
    }
    assert forall|a: Seq<u8>, b: Seq<u8>| #[trigger] r(a, b) && #[trigger] r(b, a) implies a == b by {
        lemma_lex_antisym(a, b);
    }
    assert forall|a: Seq<u8>, b: Seq<u8>, c: Seq<u8>|
        #[trigger] r(a, b) && #[trigger] r(b, c) implies r(a, c) by {
        lemma_lex_trans(a, b, c);
    }
    assert forall|a: Seq<u8>, b: Seq<u8>| #[trigger] r(a, b) || #[trigger] r(b, a) by {
        lemma_lex_connected(a, b);
    }
}

/// Compares two byte strings in lexicographic order.
pub fn lex_le_bytes(a: &Vec<u8>, b: &Vec<u8>) -> (r: bool)
    ensures
        r == lex_le(a@, b@),
{
    let mut i: usize = 0;
    proof {
        assert(a@.skip(0) =~= a@);
        assert(b@.skip(0) =~= b@);
    }
    while i < a.len() && i < b.len()
        invariant
            i <= a.len(),
            i <= b.len(),
            forall|k: int| 0 <= k < i ==> a@[k] == b@[k],
            lex_le(a@, b@) == lex_le(a@.skip(i as int), b@.skip(i as int)),
        decreases a.len() - i,
    {
        let ghost sa = a@.skip(i as int);
        let ghost sb = b@.skip(i as int);
        if a[i] < b[i] {
            return true;
        }
        if a[i] > b[i] {
            return false;
        }
        proof {
            assert(sa.drop_first() =~= a@.skip(i + 1));
            assert(sb.drop_first() =~= b@.skip(i + 1));
        }
        i = i + 1;
    }
    proof {
        if i >= a.len() {
            assert(a@.skip(i as int).len() == 0);
        } else {
            assert(b@.skip(i as int).len() == 0);
            assert(a@.skip(i as int).len() > 0);
        }
    }
    i >= a.len()
}

/// Tests two byte strings for equality.
pub fn bytes_eq(a: &Vec<u8>, b: &Vec<u8>) -> (r: bool)
    ensures
        r == (a@ == b@),
{
    if a.len() != b.len() {
        proof {
            assert(a@.len() != b@.len());
        }
        return false;
    }
    let mut i: usize = 0;
    while i < a.len()
        invariant
            i <= a.len(),
            a@.len() == b@.len(),
            forall|k: int| 0 <= k < i ==> a@[k] == b@[k],
        decreases a.len() - i,
    {
        if a[i] != b[i] {
            return false;
        }
        i = i + 1;
    }
    proof {
        assert(a@ =~= b@);
    }
    true
}

/// Sorts a list of tokens into lexicographic order; the result is the
/// unique sorted permutation of the input.
pub fn sort_tokens(v: &Vec<Vec<u8>>) -> (r: Vec<Vec<u8>>)
    ensures
        r.deep_view() == v.deep_view().sort_by(lex_leq()),
        sorted_by(r.deep_view(), lex_leq()),
        r.deep_view().to_multiset() == v.deep_view().to_multiset(),
{
    proof {
        lemma_lex_total_ordering();
        broadcast use vstd::seq_lib::group_to_multiset_ensures;

    }
    let mut out: Vec<Vec<u8>> = Vec::new();
    let mut i: usize = 0;
    proof {
        assert(v.deep_view().take(0) =~= Seq::<Seq<u8>>::empty());
        assert(out.deep_view().to_multiset() =~= v.deep_view().take(0).to_multiset());
    }
    while i < v.len()
        invariant
            i <= v.len(),
            v.deep_view().len() == v@.len(),
            sorted_by(out.deep_view(), lex_leq()),
            out.deep_view().to_multiset() == v.deep_view().take(i as int).to_multiset(),
        decreases v.len() - i,
    {
        let x = vec_u8_clone(&v[i]);
        let ghost xv = x@;
        let ghost outv = out.deep_view();
        let mut pos: usize = 0;
        while pos < out.len() && lex_le_bytes(&out[pos], &x)
            invariant
                pos <= out.len(),
                out.deep_view() == outv,
                x@ == xv,
                forall|k: int| 0 <= k < pos ==> lex_le(#[trigger] outv[k], xv),
            decreases out.len() - pos,
        {
            pos = pos + 1;
        }
        proof {
            if pos < outv.len() {
                lemma_lex_connected(outv[pos as int], xv);
            }
        }
        out.insert(pos, x);
        proof {
            broadcast use vstd::seq_lib::group_to_multiset_ensures;

            let newv = out.deep_view();
            assert(newv =~= outv.insert(pos as int, xv));
            lemma_insert_keeps_sorted(outv, pos as int, xv);
            lemma_insert_multiset(outv, pos as int, xv);
            assert(v.deep_view().take(i + 1) =~= v.deep_view().take(i as int).push(
                v.deep_view()[i as int],
            ));
            assert(v.deep_view()[i as int] == v@[i as int]@);
            assert(newv.to_multiset() =~= v.deep_view().take(i + 1).to_multiset());
        }
        i = i + 1;
    }
    proof {
        assert(v.deep_view().take(v@.len() as int) =~= v.deep_view());
        v.deep_view().lemma_sort_by_ensures(lex_leq());
        lemma_sorted_unique(out.deep_view(), v.deep_view().sort_by(lex_leq()), lex_leq());
    }
    out
}

/// Copies a byte string.
pub fn vec_u8_clone(v: &Vec<u8>) -> (r: Vec<u8>)
    ensures
        r@ == v@,
{
    let mut r: Vec<u8> = Vec::new();
    let mut i: usize = 0;
    while i < v.len()
        invariant
            i <= v.len(),
            r@ =~= v@.take(i as int),
        decreases v.len() - i,
    {
        r.push(v[i]);
        i = i + 1;
        assert(r@ =~= v@.take(i as int));
    }
    assert(v@.take(v@.len() as int) =~= v@);
    r
}

proof fn lemma_insert_keeps_sorted(s: Seq<Seq<u8>>, pos: int, x: Seq<u8>)
    requires
        sorted_by(s, lex_leq()),
        0 <= pos <= s.len(),
        forall|k: int| 0 <= k < pos ==> lex_le(#[trigger] s[k], x),
        pos < s.len() ==> lex_le(x, s[pos]),
    ensures
        sorted_by(s.insert(pos, x), lex_leq()),
{
    let t = s.insert(pos, x);
    let r = lex_leq();
    assert forall|i: int, j: int| 0 <= i < j < t.len() implies #[trigger] r(t[i], t[j]) by {
        if i < pos && j == pos {
            assert(t[i] == s[i] && t[j] == x);
        } else if i == pos && j > pos {
            assert(t[i] == x && t[j] == s[j - 1]);
            if j - 1 > pos {
                assert(r(s[pos], s[j - 1]));
                lemma_lex_trans(x, s[pos], s[j - 1]);
            }
        } else if i < pos && j > pos {
            assert(t[i] == s[i] && t[j] == s[j - 1]);
            if i < j - 1 {
                assert(r(s[i], s[j - 1]));
            } else {
                lemma_lex_refl(s[i]);
            }
        } else if j < pos {
            assert(t[i] == s[i] && t[j] == s[j]);
        } else {
            assert(i > pos && j > pos);
            assert(t[i] == s[i - 1] && t[j] == s[j - 1]);
        }
    }
}

proof fn lemma_insert_multiset(s: Seq<Seq<u8>>, pos: int, x: Seq<u8>)
    requires
        0 <= pos <= s.len(),
    ensures
        s.insert(pos, x).to_multiset() == s.to_multiset().insert(x),
{
    broadcast use vstd::seq_lib::group_to_multiset_ensures;

    let t = s.insert(pos, x);
    assert(t =~= s.take(pos) + (seq![x] + s.skip(pos)));
    lemma_multiset_commutative(s.take(pos), seq![x] + s.skip(pos));
    lemma_multiset_commutative(seq![x], s.skip(pos));
    assert(seq![x] =~= Seq::<Seq<u8>>::empty().push(x));
    assert(seq![x].to_multiset() =~= Multiset::<Seq<u8>>::empty().insert(x));
    assert(s =~= s.take(pos) + s.skip(pos));
    lemma_multiset_commutative(s.take(pos), s.skip(pos));
    assert(t.to_multiset() =~= s.to_multiset().insert(x));
}

/// The UTF-8 bytes of a character string; template keys, paths and answers
/// are all handled in this form.
pub open spec fn str_bytes(s: Seq<char>) -> Seq<u8> {
    vstd::utf8::encode_utf8(s)
}

/// The UTF-8 bytes of a string slice.
pub fn str_to_bytes(s: &str) -> (r: Vec<u8>)
    ensures
        r@ == str_bytes(s@),
{
    s.as_bytes_vec()
}

/// Concatenates two byte strings.
pub fn concat_bytes(a: &Vec<u8>, b: &Vec<u8>) -> (r: Vec<u8>)
    ensures
        r@ == a@ + b@,
{
    let mut r = vec_u8_clone(a);
    let mut i: usize = 0;
    while i < b.len()
        invariant
            i <= b.len(),
            r@ =~= a@ + b@.take(i as int),
        decreases b.len() - i,
    {
        r.push(b[i]);
        i = i + 1;
        assert(r@ =~= a@ + b@.take(i as int));
    }
    assert(a@ + b@.take(b@.len() as int) =~= a@ + b@);
    r
}

/// The tokens joined with a single underscore between each pair.
pub open spec fn join_us(toks: Seq<Seq<u8>>) -> Seq<u8>
    decreases toks.len(),
{
    if toks.len() == 0 {
        Seq::empty()
    } else if toks.len() == 1 {
        toks[0]
    } else {
        toks[0] + seq![95u8] + join_us(toks.drop_first())
    }
}

proof fn lemma_join_push(toks: Seq<Seq<u8>>, t: Seq<u8>)
    ensures
        toks.len() == 0 ==> join_us(toks.push(t)) == t,
        toks.len() > 0 ==> join_us(toks.push(t)) =~= join_us(toks) + seq![95u8] + t,
    decreases toks.len(),
{
    if toks.len() == 0 {
        assert(join_us(toks.push(t)) == toks.push(t)[0]);
    } else if toks.len() == 1 {
        assert(toks.push(t).drop_first() =~= seq![t]);
        assert(join_us(seq![t]) == t);
    } else {
        lemma_join_push(toks.drop_first(), t);
        assert(toks.push(t).drop_first() =~= toks.drop_first().push(t));
        assert(toks.push(t)[0] == toks[0]);
    }
}

/// Joins tokens with underscores, as compound template keys are named.
pub fn join_underscore(toks: &Vec<Vec<u8>>) -> (r: Vec<u8>)
    ensures
        r@ == join_us(toks.deep_view()),
{
    let mut r: Vec<u8> = Vec::new();
    let mut i: usize = 0;
    while i < toks.len()
        invariant
            i <= toks.len(),
            toks.deep_view().len() == toks@.len(),
            r@ == join_us(toks.deep_view().take(i as int)),
        decreases toks.len() - i,
    {
        if i > 0 {
            r.push(95);
        }
        let t = &toks[i];
        let mut k: usize = 0;
        let ghost base = r@;
        while k < t.len()
            invariant
                k <= t.len(),
                t@ == toks@[i as int]@,
                r@ =~= base + t@.take(k as int),
            decreases t.len() - k,
        {
            r.push(t[k]);
            k = k + 1;
            assert(r@ =~= base + t@.take(k as int));
        }
        proof {
            let dv = toks.deep_view();
            assert(t@.take(t@.len() as int) =~= t@);
            assert(dv[i as int] == toks@[i as int]@);
            lemma_join_push(dv.take(i as int), dv[i as int]);
            assert(dv.take(i + 1) =~= dv.take(i as int).push(dv[i as int]));
            assert(r@ =~= join_us(dv.take(i + 1)));
        }
        i = i + 1;
    }
    proof {
        assert(toks.deep_view().take(toks@.len() as int) =~= toks.deep_view());
    }
    r
}

} // verus!
