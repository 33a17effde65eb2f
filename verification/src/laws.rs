//! The laws of the library, each stated over the same spec functions its
//! contracts use and proved here once and for all.
use crate::plan::{
    combined_license_key, combined_readme_key, lang_head_steps, lang_steps, license_steps,
    plan_spec, readme_step, SpecStep,
};
use crate::project::{licenses_spec, resolve_answer_spec};
use crate::render::{matches_at, occurs_in, replace_all};
use crate::text::{
    is_space, lemma_lex_total_ordering, lemma_tokens_nonempty, lemma_trim_no_edge_space, lex_leq,
    lower, str_bytes, to_lower, tokens_of, trim_spec,
};
use vstd::prelude::*;
use vstd::relations::sorted_by;
use vstd::seq_lib::lemma_sorted_unique;

verus! {

/// Law: sorting license tokens depends only on which tokens were entered,
/// not on their order, and always yields a lexicographically sorted list;
/// every compound template key built from the sorted list is therefore the
/// same for any entry order.
pub proof fn lemma_sorted_licenses_order_independent(a: Seq<Seq<u8>>, b: Seq<Seq<u8>>)
    requires
        a.to_multiset() == b.to_multiset(),
    ensures
        a.sort_by(lex_leq()) == b.sort_by(lex_leq()),
        sorted_by(a.sort_by(lex_leq()), lex_leq()),
        combined_license_key(a.sort_by(lex_leq())) == combined_license_key(b.sort_by(lex_leq())),
        combined_readme_key(a.sort_by(lex_leq())) == combined_readme_key(b.sort_by(lex_leq())),
{
    lemma_lex_total_ordering();
    a.lemma_sort_by_ensures(lex_leq());
    b.lemma_sort_by_ensures(lex_leq());
    lemma_sorted_unique(a.sort_by(lex_leq()), b.sort_by(lex_leq()), lex_leq());
}

proof fn lemma_lang_steps_no_dir(langs: Seq<Seq<u8>>)
    ensures
        forall|j: int|
            0 <= j < lang_steps(langs).len() ==> !(#[trigger] lang_steps(langs)[j] is MakeDir),
    decreases langs.len(),
{
    if langs.len() > 0 {
        lemma_lang_steps_no_dir(langs.drop_first());
        assert forall|j: int| 0 <= j < lang_steps(langs).len() implies !(#[trigger] lang_steps(
            langs,
        )[j] is MakeDir) by {
            let head = lang_head_steps(langs[0]);
            if j < head.len() {
                assert(lang_steps(langs)[j] == head[j]);
            } else {
                assert(lang_steps(langs)[j] == lang_steps(langs.drop_first())[j - head.len()]);
            }
        }
    }
}

/// Law: with exactly one license token, that token's own template becomes
/// `LICENSE`, the plain readme template is used, and no step of the whole
/// plan creates a directory.
pub proof fn lemma_single_license_plan(langs: Seq<Seq<u8>>, lics: Seq<Seq<u8>>)
    requires
        lics.len() == 1,
    ensures
        license_steps(lics) == seq![
            (SpecStep::RenderFile { template: lics[0], path: str_bytes("LICENSE"@) }),
        ],
        readme_step(lics) == (SpecStep::RenderFile {
            template: str_bytes("readme"@),
            path: str_bytes("README.md"@),
        }),
        forall|j: int|
            0 <= j < plan_spec(langs, lics).len() ==> !(#[trigger] plan_spec(langs, lics)[j]
                is MakeDir),
{
    lemma_lang_steps_no_dir(langs);
    let whole = plan_spec(langs, lics);
    let ls = lang_steps(langs);
    assert forall|j: int| 0 <= j < whole.len() implies !(#[trigger] whole[j] is MakeDir) by {
        if j < ls.len() {
            assert(whole[j] == ls[j]);
        } else if j < ls.len() + 1 {
            assert(whole[j] == license_steps(lics)[0]);
        } else if j < ls.len() + 2 {
            assert(whole[j] == readme_step(lics));
        } else {
            assert(whole[j] == crate::plan::static_file_steps()[j - ls.len() - 2]);
        }
    }
}

/// Law: replacement acts on every occurrence, not only the first. A text
/// that decomposes as `a`, an occurrence, `b`, an occurrence, `c` — with no
/// earlier occurrence starting inside `a` or `b` and none in `c` — renders
/// with the replacement in both places.
pub proof fn lemma_replace_all_both_occurrences(
    a: Seq<u8>,
    b: Seq<u8>,
    c: Seq<u8>,
    pat: Seq<u8>,
    repl: Seq<u8>,
)
    requires
        pat.len() > 0,
        forall|i: int| 0 <= i < a.len() ==> !matches_at(a + pat + b + pat + c, pat, i),
        forall|i: int| 0 <= i < b.len() ==> !matches_at(b + pat + c, pat, i),
        !occurs_in(c, pat),
    ensures
        replace_all(a + pat + b + pat + c, pat, repl) == a + repl + b + repl + c,
{
    let t = a + pat + b + pat + c;
    assert(matches_at(t, pat, a.len() as int)) by {
        assert(t.subrange(a.len() as int, a.len() + pat.len() as int) =~= pat);
    }
    crate::render::lemma_replace_all_at_first_match(t, pat, repl, a.len() as int);
    assert(t.take(a.len() as int) =~= a);
    let u = b + pat + c;
    assert(t.skip(a.len() + pat.len() as int) =~= u);
    assert(matches_at(u, pat, b.len() as int)) by {
        assert(u.subrange(b.len() as int, b.len() + pat.len() as int) =~= pat);
    }
    crate::render::lemma_replace_all_at_first_match(u, pat, repl, b.len() as int);
    assert(u.take(b.len() as int) =~= b);
    assert(u.skip(b.len() + pat.len() as int) =~= c);
    crate::render::lemma_replace_all_absent(c, pat, repl);
    assert(a + repl + (b + repl + c) =~= a + repl + b + repl + c);
}

/// Law: an answer resolved against a default that is not all whitespace
/// always yields at least one license token; the license list of a run is
/// never empty.
pub proof fn lemma_licenses_never_empty(line: Seq<u8>, default_answer: Seq<u8>)
    requires
        exists|k: int| 0 <= k < default_answer.len() && !is_space(default_answer[k]),
    ensures
        licenses_spec(resolve_answer_spec(line, default_answer)).len() >= 1,
{
    broadcast use vstd::seq_lib::group_to_multiset_ensures;

    lemma_lex_total_ordering();
    let ans = resolve_answer_spec(line, default_answer);
    assert(exists|k: int| 0 <= k < ans.len() && !is_space(ans[k])) by {
        if trim_spec(line).len() == 0 {
            assert(ans == default_answer);
        } else {
            lemma_trim_no_edge_space(line);
            assert(ans == trim_spec(line));
            assert(0 <= 0 < ans.len() && !is_space(ans[0]));
        }
    }
    let k = choose|k: int| 0 <= k < ans.len() && !is_space(ans[k]);
    assert(lower(ans)[k] == to_lower(ans[k]));
    crate::text::lemma_lower_keeps_space(ans[k]);
    assert(0 <= k < lower(ans).len() && !is_space(lower(ans)[k]));
    lemma_tokens_nonempty(lower(ans));
    let toks = tokens_of(lower(ans));
    toks.lemma_sort_by_ensures(lex_leq());
    assert(toks.sort_by(lex_leq()).len() == toks.sort_by(lex_leq()).to_multiset().len());
    assert(toks.len() == toks.to_multiset().len());
}

} // verus!
