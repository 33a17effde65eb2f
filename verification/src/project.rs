//! The collected answers of an interactive session and the operations the
//! run performs on them: turning raw input lines into token lists, computing
//! the file-generation plan, and substituting the placeholder markers.
use crate::plan::{build_plan, plan_spec, rust_file_steps, Step};
use crate::render::{render, render_spec};
use crate::text::{
    lex_leq, lower, sort_tokens, split_tokens, str_bytes, tokens_of, trim_spec, vec_u8_clone,
};
use vstd::prelude::*;

verus! {

broadcast use crate::views::lemma_byte_vec_deep_view;

/// The answers collected from the user: project name, language tokens,
/// author, and license tokens (kept sorted so that compound template names
/// are deterministic).
#[derive(Debug)]
pub struct Project {
    pub name: String,
    pub languages: Vec<String>,
    pub author: String,
    pub licenses: Vec<String>,
}

/// The byte strings of a list of character strings, element for element.
pub open spec fn strs_bytes(ss: Seq<Seq<char>>) -> Seq<Seq<u8>> {
    ss.map_values(|s: Seq<char>| str_bytes(s))
}

/// An answer line resolved against a default: the trimmed line, or the
/// default when nothing but whitespace was entered.
pub open spec fn resolve_answer_spec(line: Seq<u8>, default_answer: Seq<u8>) -> Seq<u8> {
    if trim_spec(line).len() == 0 {
        default_answer
    } else {
        trim_spec(line)
    }
}

/// Resolves one answer line against a default.
pub fn resolve_answer(line: &Vec<u8>, default_answer: &Vec<u8>) -> (r: Vec<u8>)
    ensures
        r@ == resolve_answer_spec(line@, default_answer@),
{
    let trimmed = crate::text::trim_bytes(line);
    if trimmed.len() == 0 {
        vec_u8_clone(default_answer)
    } else {
        trimmed
    }
}

/// The language tokens of an answer line: its whitespace-delimited words,
/// lowercased, in the order they were entered.
pub open spec fn languages_spec(line: Seq<u8>) -> Seq<Seq<u8>> {
    tokens_of(lower(line))
}

/// Splits an answer line into lowercased language tokens.
pub fn parse_languages(line: &Vec<u8>) -> (r: Vec<Vec<u8>>)
    ensures
        r.deep_view() == languages_spec(line@),
{
    let lowered = crate::text::lower_bytes(line);
    split_tokens(&lowered)
}

/// The license tokens of an answer line: lowercased, split on whitespace,
/// and sorted into lexicographic order.
pub open spec fn licenses_spec(line: Seq<u8>) -> Seq<Seq<u8>> {
    tokens_of(lower(line)).sort_by(lex_leq())
}

/// Splits an answer line into lowercased, sorted license tokens.
pub fn parse_licenses(line: &Vec<u8>) -> (r: Vec<Vec<u8>>)
    ensures
        r.deep_view() == licenses_spec(line@),
{
    let lowered = crate::text::lower_bytes(line);
    let toks = split_tokens(&lowered);
    sort_tokens(&toks)
}

/// Relies on chrono: `Local::now()` reads the clock and time zone, and
/// `Datelike::year` returns the calendar year of that date, which chrono's
/// date representation keeps within `(i32::MIN >> 13)..=(i32::MAX >> 13)`.
///
/// chrono itself panics when the system clock reads before the Unix epoch
/// or the local timezone data is degenerate; those environment-caused
/// failures cannot be excluded by a precondition and are inherited here.
#[verifier::external_body]
fn current_year() -> (y: i32)
    ensures
        -262144 <= y <= 262143,
{
    chrono::Datelike::year(&chrono::Local::now())
}

impl Project {
    /// A fresh record with every answer still empty.
    pub fn new() -> (p: Project)
        ensures
            p.name@ == Seq::<char>::empty(),
            p.languages@ == Seq::<String>::empty(),
            p.author@ == Seq::<char>::empty(),
            p.licenses@ == Seq::<String>::empty(),
    {
        Project {
            name: String::new(),
            languages: Vec::new(),
            licenses: Vec::new(),
            author: String::new(),
        }
    }

    /// Replaces every placeholder marker in a template with this project's
    /// name, the current calendar year, and this project's author, in that
    /// order.
    pub fn search_and_replace(&self, text: &Vec<u8>) -> (r: Vec<u8>)
        ensures
            exists|y: int|
                -262144 <= y <= 262143 && r@ == render_spec(
                    text@,
                    str_bytes(self.name@),
                    y,
                    str_bytes(self.author@),
                ),
    {
        let year = current_year();
        let name = self.name.as_str().as_bytes_vec();
        let author = self.author.as_str().as_bytes_vec();
        let r = render(text, &name, year, &author);
        proof {
            let y = year as int;
            assert(-262144 <= y <= 262143 && r@ == render_spec(
                text@,
                str_bytes(self.name@),
                y,
                str_bytes(self.author@),
            ));
        }
        r
    }

    /// The plan of this run, computed from the language and license tokens.
    pub fn plan(&self) -> (r: Vec<Step>)
        requires
            self.licenses@.len() >= 1,
        ensures
            r.deep_view() == plan_spec(
                strs_bytes(self.languages.deep_view()),
                strs_bytes(self.licenses.deep_view()),
            ),
    {
        let langs = strings_to_bytes(&self.languages);
        let lics = strings_to_bytes(&self.licenses);
        build_plan(&langs, &lics)
    }

    /// The two configuration files a Rust project receives.
    pub fn generate_rust_specific_files() -> (r: Vec<Step>)
        ensures
            r.deep_view() == rust_file_steps(),
    {
        let mut out: Vec<Step> = Vec::new();
        out.push(
            Step::CopyFile {
                template: crate::text::str_to_bytes("cargo_deny"),
                path: crate::text::str_to_bytes("deny.toml"),
            },
        );
        out.push(
            Step::CopyFile {
                template: crate::text::str_to_bytes("rustfmt"),
                path: crate::text::str_to_bytes("rustfmt.toml"),
            },
        );
        proof {
            assert(out.deep_view() =~= rust_file_steps());
        }
        out
    }
}

/// The byte strings of a list of character strings.
pub fn strings_to_bytes(v: &Vec<String>) -> (r: Vec<Vec<u8>>)
    ensures
        r.deep_view() == strs_bytes(v.deep_view()),
{
    let mut r: Vec<Vec<u8>> = Vec::new();
    let mut i: usize = 0;
    proof {
        assert(r.deep_view() =~= strs_bytes(v.deep_view()).take(0));
    }
    while i < v.len()
        invariant
            i <= v@.len(),
            v.deep_view().len() == v@.len(),
            r.deep_view() == strs_bytes(v.deep_view()).take(i as int),
        decreases v.len() - i,
    {
        let b = v[i].as_str().as_bytes_vec();
        proof {
            assert(b@ == str_bytes(v@[i as int]@));
            assert(v.deep_view()[i as int] == v@[i as int]@);
        }
        let ghost before = r.deep_view();
        r.push(b);
        proof {
            let dv = v.deep_view();
            assert(r.deep_view() =~= before.push(b@));
            assert(strs_bytes(dv).take(i + 1) =~= strs_bytes(dv).take(i as int).push(
                str_bytes(dv[i as int]),
            ));
            assert(r.deep_view() =~= strs_bytes(dv).take(i + 1));
        }
        i = i + 1;
    }
    proof {
        assert(strs_bytes(v.deep_view()).take(v@.len() as int) =~= strs_bytes(v.deep_view()));
    }
    r
}

} // verus!
