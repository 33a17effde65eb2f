//! The file-generation plan.
//!
//! From the collected answers the library computes the exact ordered list of
//! actions a run performs: which directories to create, which templates to
//! render or copy, and to which output paths. The unverified shell only
//! executes these steps one by one.
use crate::text::{bytes_eq, concat_bytes, join_underscore, join_us, str_bytes, str_to_bytes};
use vstd::prelude::*;

verus! {

broadcast use crate::views::lemma_byte_vec_deep_view;

/// One action of a run, at the specification level.
pub enum SpecStep {
    /// Create a directory; a run fails if it already exists.
    MakeDir { path: Seq<u8> },
    /// Read the template, substitute the placeholder markers, and write the
    /// result to a new file at the path; skip if the file exists.
    RenderFile { template: Seq<u8>, path: Seq<u8> },
    /// Read the template and write it unchanged to a new file at the path;
    /// skip if the file exists.
    CopyFile { template: Seq<u8>, path: Seq<u8> },
    /// Warn that the token names no known license; nothing is written.
    Unsupported { token: Seq<u8> },
}

/// One action of a run: create a directory, render a template into a new
/// file, copy a template into a new file, or warn about an unknown license.
#[derive(Debug, Clone, PartialEq, Eq)]
pub enum Step {
    MakeDir { path: Vec<u8> },
    RenderFile { template: Vec<u8>, path: Vec<u8> },
    CopyFile { template: Vec<u8>, path: Vec<u8> },
    Unsupported { token: Vec<u8> },
}

impl View for Step {
    type V = SpecStep;

    open spec fn view(&self) -> SpecStep {
        match self {
            Step::MakeDir { path } => SpecStep::MakeDir { path: path@ },
            Step::RenderFile { template, path } => SpecStep::RenderFile {
                template: template@,
                path: path@,
            },
            Step::CopyFile { template, path } => SpecStep::CopyFile {
                template: template@,
                path: path@,
            },
            Step::Unsupported { token } => SpecStep::Unsupported { token: token@ },
        }
    }
}

impl DeepView for Step {
    type V = SpecStep;

    open spec fn deep_view(&self) -> SpecStep {
        self.view()
    }
}

/// The two extra files generated for a Rust project: the dependency-policy
/// configuration and the formatting configuration.
pub open spec fn rust_file_steps() -> Seq<SpecStep> {
    seq![
        SpecStep::CopyFile { template: str_bytes("cargo_deny"@), path: str_bytes("deny.toml"@) },
        SpecStep::CopyFile { template: str_bytes("rustfmt"@), path: str_bytes("rustfmt.toml"@) },
    ]
}

/// The steps one language token contributes: only Rust produces files.
pub open spec fn lang_head_steps(lang: Seq<u8>) -> Seq<SpecStep> {
    if lang == str_bytes("rust"@) || lang == str_bytes("rs"@) {
        rust_file_steps()
    } else {
        Seq::empty()
    }
}

/// The per-language steps, in the order the language tokens were entered.
pub open spec fn lang_steps(langs: Seq<Seq<u8>>) -> Seq<SpecStep>
    decreases langs.len(),
{
    if langs.len() == 0 {
        Seq::empty()
    } else {
        lang_head_steps(langs[0]) + lang_steps(langs.drop_first())
    }
}

proof fn lemma_lang_steps_push(langs: Seq<Seq<u8>>, lang: Seq<u8>)
    ensures
        lang_steps(langs.push(lang)) =~= lang_steps(langs) + lang_head_steps(lang),
    decreases langs.len(),
{
    let p = langs.push(lang);
    if langs.len() == 0 {
        assert(p[0] == lang);
        assert(p.drop_first() =~= Seq::<Seq<u8>>::empty());
        assert(lang_steps(p) == lang_head_steps(lang) + lang_steps(p.drop_first()));
        assert(lang_head_steps(lang) + Seq::<SpecStep>::empty() =~= lang_head_steps(lang));
        assert(Seq::<SpecStep>::empty() + lang_head_steps(lang) =~= lang_head_steps(lang));
    } else {
        lemma_lang_steps_push(langs.drop_first(), lang);
        assert(p.drop_first() =~= langs.drop_first().push(lang));
        assert(p[0] == langs[0]);
        assert(lang_steps(p) == lang_head_steps(langs[0]) + lang_steps(p.drop_first()));
        assert(lang_steps(p.drop_first()) =~= lang_steps(langs.drop_first()) + lang_head_steps(
            lang,
        ));
        assert(lang_head_steps(langs[0]) + (lang_steps(langs.drop_first()) + lang_head_steps(lang))
            =~= (lang_head_steps(langs[0]) + lang_steps(langs.drop_first())) + lang_head_steps(
            lang,
        ));
    }
}

/// The compound license template key: the sorted tokens joined with
/// underscores, with the license suffix.
pub open spec fn combined_license_key(lics: Seq<Seq<u8>>) -> Seq<u8> {
    join_us(lics) + str_bytes("_license"@)
}

/// The compound readme template key: the sorted tokens joined with
/// underscores, with the readme suffix.
pub open spec fn combined_readme_key(lics: Seq<Seq<u8>>) -> Seq<u8> {
    join_us(lics) + str_bytes("_readme"@)
}

/// The step one license token contributes under `docs`: its own template
/// for a recognized license, a warning otherwise.
pub open spec fn one_license_step(tok: Seq<u8>) -> SpecStep {
    if tok == str_bytes("mit"@) {
        SpecStep::RenderFile { template: str_bytes("mit"@), path: str_bytes("docs/LICENSE-MIT"@) }
    } else if tok == str_bytes("apache"@) {
        SpecStep::RenderFile {
            template: str_bytes("apache"@),
            path: str_bytes("docs/LICENSE-APACHE"@),
        }
    } else {
        SpecStep::Unsupported { token: tok }
    }
}

/// The per-license steps written under `docs` when several licenses were
/// chosen, in sorted order.
pub open spec fn each_license_steps(lics: Seq<Seq<u8>>) -> Seq<SpecStep>
    decreases lics.len(),
{
    if lics.len() == 0 {
        Seq::empty()
    } else {
        seq![one_license_step(lics[0])] + each_license_steps(lics.drop_first())
    }
}

proof fn lemma_each_license_steps_push(lics: Seq<Seq<u8>>, tok: Seq<u8>)
    ensures
        each_license_steps(lics.push(tok)) =~= each_license_steps(lics) + seq![
            one_license_step(tok),
        ],
    decreases lics.len(),
{
    let p = lics.push(tok);
    let one = seq![one_license_step(tok)];
    if lics.len() == 0 {
        assert(p[0] == tok);
        assert(p.drop_first() =~= Seq::<Seq<u8>>::empty());
        assert(each_license_steps(p) == seq![one_license_step(tok)] + each_license_steps(
            p.drop_first(),
        ));
        assert(one + Seq::<SpecStep>::empty() =~= one);
        assert(Seq::<SpecStep>::empty() + one =~= one);
    } else {
        lemma_each_license_steps_push(lics.drop_first(), tok);
        assert(p.drop_first() =~= lics.drop_first().push(tok));
        assert(p[0] == lics[0]);
        assert(each_license_steps(p) == seq![one_license_step(lics[0])] + each_license_steps(
            p.drop_first(),
        ));
        assert(each_license_steps(p.drop_first()) =~= each_license_steps(lics.drop_first()) + one);
        assert(seq![one_license_step(lics[0])] + (each_license_steps(lics.drop_first()) + one) =~= (
        seq![one_license_step(lics[0])] + each_license_steps(lics.drop_first())) + one);
    }
}

/// The license file steps: with a single license, its own template becomes
/// `LICENSE`; with several, `docs` is created, the combined template becomes
/// `LICENSE`, and each recognized license gets its file under `docs`.
pub open spec fn license_steps(lics: Seq<Seq<u8>>) -> Seq<SpecStep> {
    if lics.len() > 1 {
        seq![
            SpecStep::MakeDir { path: str_bytes("docs"@) },
            SpecStep::RenderFile {
                template: combined_license_key(lics),
                path: str_bytes("LICENSE"@),
            },
        ] + each_license_steps(lics)
    } else if lics.len() == 1 {
        seq![SpecStep::RenderFile { template: lics[0], path: str_bytes("LICENSE"@) }]
    } else {
        Seq::empty()
    }
}

/// The readme step: the combined readme template with several licenses, the
/// plain readme template with one.
pub open spec fn readme_step(lics: Seq<Seq<u8>>) -> SpecStep {
    SpecStep::RenderFile {
        template: if lics.len() > 1 {
            combined_readme_key(lics)
        } else {
            str_bytes("readme"@)
        },
        path: str_bytes("README.md"@),
    }
}

/// The four fixed auxiliary files every run copies.
pub open spec fn static_file_steps() -> Seq<SpecStep> {
    seq![
        SpecStep::CopyFile { template: str_bytes("gitignore"@), path: str_bytes(".gitignore"@) },
        SpecStep::CopyFile {
            template: str_bytes("markdownlintignore"@),
            path: str_bytes(".markdownlintignore"@),
        },
        SpecStep::CopyFile { template: str_bytes("changelog"@), path: str_bytes("CHANGELOG.md"@) },
        SpecStep::CopyFile {
            template: str_bytes("gitattributes"@),
            path: str_bytes(".gitattributes"@),
        },
    ]
}

/// The whole plan of a run, in execution order: per-language files, license
/// files, the readme, then the fixed auxiliary files.
pub open spec fn plan_spec(langs: Seq<Seq<u8>>, lics: Seq<Seq<u8>>) -> Seq<SpecStep> {
    lang_steps(langs) + license_steps(lics) + seq![readme_step(lics)] + static_file_steps()
}

/// The template directory entry for a key: the fixed template directory,
/// the key, and the fixed text-file suffix.
pub open spec fn template_rel_path(key: Seq<u8>) -> Seq<u8> {
    str_bytes(".jinx-templates/"@) + key + str_bytes(".txt"@)
}

/// Builds the path of a template file relative to the template root.
pub fn template_path_bytes(key: &Vec<u8>) -> (r: Vec<u8>)
    ensures
        r@ == template_rel_path(key@),
{
    let prefix = str_to_bytes(".jinx-templates/");
    let suffix = str_to_bytes(".txt");
    let head = concat_bytes(&prefix, key);
    concat_bytes(&head, &suffix)
}

fn build_rust_file_steps(out: &mut Vec<Step>)
    ensures
        final(out).deep_view() == old(out).deep_view() + rust_file_steps(),
{
    let ghost base = out.deep_view();
    out.push(
        Step::CopyFile { template: str_to_bytes("cargo_deny"), path: str_to_bytes("deny.toml") },
    );
    out.push(Step::CopyFile { template: str_to_bytes("rustfmt"), path: str_to_bytes("rustfmt.toml") });
    assert(out.deep_view() =~= base + rust_file_steps());
}

fn build_lang_steps(langs: &Vec<Vec<u8>>, out: &mut Vec<Step>)
    ensures
        final(out).deep_view() == old(out).deep_view() + lang_steps(langs.deep_view()),
{
    let ghost base = out.deep_view();
    let rust_long = str_to_bytes("rust");
    let rust_short = str_to_bytes("rs");
    let mut i: usize = 0;
    proof {
        assert(lang_steps(langs.deep_view().take(0)) =~= Seq::<SpecStep>::empty());
        assert(out.deep_view() =~= base + lang_steps(langs.deep_view().take(0)));
    }
    while i < langs.len()
        invariant
            i <= langs@.len(),
            langs.deep_view().len() == langs@.len(),
            rust_long@ == str_bytes("rust"@),
            rust_short@ == str_bytes("rs"@),
            out.deep_view() == base + lang_steps(langs.deep_view().take(i as int)),
        decreases langs.len() - i,
    {
        let ghost dv = langs.deep_view();
        if bytes_eq(&langs[i], &rust_long) || bytes_eq(&langs[i], &rust_short) {
            build_rust_file_steps(out);
        }
        proof {
            lemma_lang_steps_push(dv.take(i as int), dv[i as int]);
            assert(dv.take(i + 1) =~= dv.take(i as int).push(dv[i as int]));
            assert(dv[i as int] == langs@[i as int]@);
            if !(langs@[i as int]@ == str_bytes("rust"@) || langs@[i as int]@ == str_bytes(
                "rs"@,
            )) {
                assert(lang_head_steps(dv[i as int]) =~= Seq::<SpecStep>::empty());
                assert(out.deep_view() =~= base + lang_steps(dv.take(i + 1)));
            } else {
                assert(out.deep_view() =~= base + lang_steps(dv.take(i + 1)));
            }
        }
        i = i + 1;
    }
    proof {
        assert(langs.deep_view().take(langs@.len() as int) =~= langs.deep_view());
    }
}

fn build_license_steps(lics: &Vec<Vec<u8>>, out: &mut Vec<Step>)
    requires
        lics@.len() >= 1,
    ensures
        final(out).deep_view() == old(out).deep_view() + license_steps(lics.deep_view()),
{
    let ghost base = out.deep_view();
    let ghost dv = lics.deep_view();
    if lics.len() > 1 {
        out.push(Step::MakeDir { path: str_to_bytes("docs") });
        let joined = join_underscore(lics);
        let suffix = str_to_bytes("_license");
        let key = concat_bytes(&joined, &suffix);
        out.push(Step::RenderFile { template: key, path: str_to_bytes("LICENSE") });
        let ghost head = out.deep_view();
        let mit = str_to_bytes("mit");
        let apache = str_to_bytes("apache");
        let mut i: usize = 0;
        proof {
            assert(each_license_steps(dv.take(0)) =~= Seq::<SpecStep>::empty());
            assert(out.deep_view() =~= head + each_license_steps(dv.take(0)));
        }
        while i < lics.len()
            invariant
                i <= lics@.len(),
                dv == lics.deep_view(),
                dv.len() == lics@.len(),
                mit@ == str_bytes("mit"@),
                apache@ == str_bytes("apache"@),
                out.deep_view() == head + each_license_steps(dv.take(i as int)),
            decreases lics.len() - i,
        {
            proof {
                assert(dv[i as int] == lics@[i as int]@);
            }
            let step: Step;
            if bytes_eq(&lics[i], &mit) {
                step = Step::RenderFile {
                    template: str_to_bytes("mit"),
                    path: str_to_bytes("docs/LICENSE-MIT"),
                };
                proof {
                    assert(step@ == one_license_step(dv[i as int]));
                }
            } else if bytes_eq(&lics[i], &apache) {
                step = Step::RenderFile {
                    template: str_to_bytes("apache"),
                    path: str_to_bytes("docs/LICENSE-APACHE"),
                };
                proof {
                    assert(step@ == one_license_step(dv[i as int]));
                }
            } else {
                let tok = crate::text::vec_u8_clone(&lics[i]);
                step = Step::Unsupported { token: tok };
                proof {
                    assert(step@ == one_license_step(dv[i as int]));
                }
            }
            let ghost before = out.deep_view();
            out.push(step);
            proof {
                assert(out.deep_view() =~= before.push(one_license_step(dv[i as int])));
                lemma_each_license_steps_push(dv.take(i as int), dv[i as int]);
                assert(dv.take(i + 1) =~= dv.take(i as int).push(dv[i as int]));
                assert(each_license_steps(dv.take(i + 1)) =~= each_license_steps(dv.take(i as int))
                    + seq![one_license_step(dv[i as int])]);
                assert(out.deep_view() =~= head + each_license_steps(dv.take(i + 1)));
            }
            i = i + 1;
        }
        proof {
            assert(dv.take(lics@.len() as int) =~= dv);
            assert(out.deep_view() =~= base + license_steps(dv));
        }
    } else {
        let tok = crate::text::vec_u8_clone(&lics[0]);
        out.push(Step::RenderFile { template: tok, path: str_to_bytes("LICENSE") });
        proof {
            assert(dv[0] == lics@[0]@);
            assert(out.deep_view() =~= base + license_steps(dv));
        }
    }
}

fn build_readme_step(lics: &Vec<Vec<u8>>, out: &mut Vec<Step>)
    requires
        lics@.len() >= 1,
    ensures
        final(out).deep_view() == old(out).deep_view() + seq![readme_step(lics.deep_view())],
{
    let ghost base = out.deep_view();
    if lics.len() > 1 {
        let joined = join_underscore(lics);
        let suffix = str_to_bytes("_readme");
        let key = concat_bytes(&joined, &suffix);
        out.push(Step::RenderFile { template: key, path: str_to_bytes("README.md") });
    } else {
        out.push(
            Step::RenderFile { template: str_to_bytes("readme"), path: str_to_bytes("README.md") },
        );
    }
    assert(out.deep_view() =~= base + seq![readme_step(lics.deep_view())]);
}

fn build_static_steps(out: &mut Vec<Step>)
    ensures
        final(out).deep_view() == old(out).deep_view() + static_file_steps(),
{
    let ghost base = out.deep_view();
    out.push(
        Step::CopyFile { template: str_to_bytes("gitignore"), path: str_to_bytes(".gitignore") },
    );
    out.push(
        Step::CopyFile {
            template: str_to_bytes("markdownlintignore"),
            path: str_to_bytes(".markdownlintignore"),
        },
    );
    out.push(
        Step::CopyFile { template: str_to_bytes("changelog"), path: str_to_bytes("CHANGELOG.md") },
    );
    out.push(
        Step::CopyFile {
            template: str_to_bytes("gitattributes"),
            path: str_to_bytes(".gitattributes"),
        },
    );
    assert(out.deep_view() =~= base + static_file_steps());
}

/// Computes the whole plan of a run from the language tokens and the sorted
/// license tokens, in execution order.
pub fn build_plan(langs: &Vec<Vec<u8>>, lics: &Vec<Vec<u8>>) -> (r: Vec<Step>)
    requires
        lics@.len() >= 1,
    ensures
        r.deep_view() == plan_spec(langs.deep_view(), lics.deep_view()),
{
    let mut out: Vec<Step> = Vec::new();
    proof {
        assert(out.deep_view() =~= Seq::<SpecStep>::empty());
    }
    build_lang_steps(langs, &mut out);
    build_license_steps(lics, &mut out);
    build_readme_step(lics, &mut out);
    build_static_steps(&mut out);
    proof {
        assert(out.deep_view() =~= plan_spec(langs.deep_view(), lics.deep_view()));
    }
    out
}

} // verus!
