//! Tests for answer parsing, the generation plan, and the end-to-end
//! scenarios the plan and renderer support. Actual filesystem behaviour
//! (create-new writes, skips of existing files) belongs to the unverified
//! shell and is not exercised here.
use jinx::cli::{cli_action, CliAction};
use jinx::plan::{build_plan, template_path_bytes, Step};
use jinx::project::{parse_languages, parse_licenses, resolve_answer, Project};
use jinx::render::render;

fn toks(list: &[&str]) -> Vec<Vec<u8>> {
    list.iter().map(|s| s.as_bytes().to_vec()).collect()
}

#[test]
fn resolve_answer_applies_default_on_blank_input() {
    assert_eq!(resolve_answer(&b"".to_vec(), &b"mit".to_vec()), b"mit".to_vec());
    assert_eq!(resolve_answer(&b"  \t\n".to_vec(), &b"mit".to_vec()), b"mit".to_vec());
    assert_eq!(resolve_answer(&b" apache \n".to_vec(), &b"mit".to_vec()), b"apache".to_vec());
}

#[test]
fn parse_languages_lowercases_and_keeps_order() {
    assert_eq!(parse_languages(&b"rust python ts".to_vec()), toks(&["rust", "python", "ts"]));
    assert_eq!(parse_languages(&b"Rust PYTHON Ts".to_vec()), toks(&["rust", "python", "ts"]));
    assert_eq!(parse_languages(&b"".to_vec()), Vec::<Vec<u8>>::new());
}

#[test]
fn uppercase_language_answer_still_triggers_rust_files() {
    let plan = build_plan(&parse_languages(&b"Rust".to_vec()), &toks(&["mit"]));
    assert_eq!(
        plan[0],
        Step::CopyFile { template: b"cargo_deny".to_vec(), path: b"deny.toml".to_vec() }
    );
    assert_eq!(
        plan[1],
        Step::CopyFile { template: b"rustfmt".to_vec(), path: b"rustfmt.toml".to_vec() }
    );
}

#[test]
fn parse_licenses_lowercases_and_sorts() {
    assert_eq!(parse_licenses(&b"MIT apache".to_vec()), toks(&["apache", "mit"]));
    assert_eq!(parse_licenses(&b"mit".to_vec()), toks(&["mit"]));
}

#[test]
fn license_order_does_not_matter() {
    let a = parse_licenses(&b"apache mit".to_vec());
    let b = parse_licenses(&b"mit apache".to_vec());
    assert_eq!(a, b);
    assert_eq!(a, toks(&["apache", "mit"]));
}

#[test]
fn single_license_uses_own_template_and_no_docs_dir() {
    let plan = build_plan(&Vec::new(), &toks(&["mit"]));
    assert!(plan.iter().all(|s| !matches!(s, Step::MakeDir { .. })));
    assert_eq!(
        plan[0],
        Step::RenderFile { template: b"mit".to_vec(), path: b"LICENSE".to_vec() }
    );
    assert_eq!(
        plan[1],
        Step::RenderFile { template: b"readme".to_vec(), path: b"README.md".to_vec() }
    );
}

#[test]
fn multiple_licenses_use_sorted_compound_templates() {
    let plan = build_plan(&Vec::new(), &parse_licenses(&b"mit apache".to_vec()));
    assert_eq!(plan[0], Step::MakeDir { path: b"docs".to_vec() });
    assert_eq!(
        plan[1],
        Step::RenderFile { template: b"apache_mit_license".to_vec(), path: b"LICENSE".to_vec() }
    );
    assert_eq!(
        plan[2],
        Step::RenderFile { template: b"apache".to_vec(), path: b"docs/LICENSE-APACHE".to_vec() }
    );
    assert_eq!(
        plan[3],
        Step::RenderFile { template: b"mit".to_vec(), path: b"docs/LICENSE-MIT".to_vec() }
    );
    assert_eq!(
        plan[4],
        Step::RenderFile { template: b"apache_mit_readme".to_vec(), path: b"README.md".to_vec() }
    );
}

#[test]
fn unsupported_license_token_becomes_warning_step() {
    let plan = build_plan(&Vec::new(), &parse_licenses(&b"foo mit".to_vec()));
    assert_eq!(plan[0], Step::MakeDir { path: b"docs".to_vec() });
    assert_eq!(
        plan[1],
        Step::RenderFile { template: b"foo_mit_license".to_vec(), path: b"LICENSE".to_vec() }
    );
    assert_eq!(plan[2], Step::Unsupported { token: b"foo".to_vec() });
    assert_eq!(
        plan[3],
        Step::RenderFile { template: b"mit".to_vec(), path: b"docs/LICENSE-MIT".to_vec() }
    );
}

#[test]
fn scenario_one_license_rust_project() {
    // Project `demo` by Jane Doe, language rust, licenses left blank so the
    // default applies.
    let licenses_line = resolve_answer(&b"\n".to_vec(), &b"mit".to_vec());
    let licenses = parse_licenses(&licenses_line);
    assert_eq!(licenses, toks(&["mit"]));
    let languages = parse_languages(&b"rust".to_vec());
    let plan = build_plan(&languages, &licenses);

    let expected = vec![
        Step::CopyFile { template: b"cargo_deny".to_vec(), path: b"deny.toml".to_vec() },
        Step::CopyFile { template: b"rustfmt".to_vec(), path: b"rustfmt.toml".to_vec() },
        Step::RenderFile { template: b"mit".to_vec(), path: b"LICENSE".to_vec() },
        Step::RenderFile { template: b"readme".to_vec(), path: b"README.md".to_vec() },
        Step::CopyFile { template: b"gitignore".to_vec(), path: b".gitignore".to_vec() },
        Step::CopyFile {
            template: b"markdownlintignore".to_vec(),
            path: b".markdownlintignore".to_vec(),
        },
        Step::CopyFile { template: b"changelog".to_vec(), path: b"CHANGELOG.md".to_vec() },
        Step::CopyFile { template: b"gitattributes".to_vec(), path: b".gitattributes".to_vec() },
    ];
    assert_eq!(plan, expected);

    let mit_template = b"MIT License\n\nCopyright (c) $$CURRENT_YEAR $$PROJECT_AUTHOR\n".to_vec();
    let rendered = render(&mit_template, &b"demo".to_vec(), 2026, &b"Jane Doe".to_vec());
    assert_eq!(rendered, b"MIT License\n\nCopyright (c) 2026 Jane Doe\n".to_vec());
}

#[test]
fn scenario_two_licenses() {
    let licenses = parse_licenses(&resolve_answer(&b"mit apache\n".to_vec(), &b"mit".to_vec()));
    let plan = build_plan(&Vec::new(), &licenses);
    let paths: Vec<&[u8]> = plan
        .iter()
        .filter_map(|s| match s {
            Step::RenderFile { path, .. } => Some(path.as_slice()),
            Step::CopyFile { path, .. } => Some(path.as_slice()),
            _ => None,
        })
        .collect();
    assert!(paths.contains(&b"docs/LICENSE-MIT".as_slice()));
    assert!(paths.contains(&b"docs/LICENSE-APACHE".as_slice()));
    let templates: Vec<&[u8]> = plan
        .iter()
        .filter_map(|s| match s {
            Step::RenderFile { template, .. } => Some(template.as_slice()),
            _ => None,
        })
        .collect();
    assert!(templates.contains(&b"apache_mit_license".as_slice()));
    assert!(templates.contains(&b"apache_mit_readme".as_slice()));
    assert_eq!(plan[0], Step::MakeDir { path: b"docs".to_vec() });
}

#[test]
fn scenario_rerun_is_deterministic() {
    // A second run with identical inputs computes the identical plan; which
    // files are then skipped is decided by the filesystem, outside the
    // library.
    let first = build_plan(&parse_languages(&b"rust".to_vec()), &parse_licenses(&b"mit".to_vec()));
    let second = build_plan(&parse_languages(&b"rust".to_vec()), &parse_licenses(&b"mit".to_vec()));
    assert_eq!(first, second);
}

#[test]
fn project_new_is_empty() {
    let p = Project::new();
    assert_eq!(p.name, "");
    assert_eq!(p.author, "");
    assert!(p.languages.is_empty());
    assert!(p.licenses.is_empty());
}

#[test]
fn project_plan_matches_byte_plan() {
    let p = Project {
        name: "demo".to_string(),
        languages: vec!["rust".to_string()],
        author: "Jane Doe".to_string(),
        licenses: vec!["mit".to_string()],
    };
    let via_project = p.plan();
    let via_bytes = build_plan(&toks(&["rust"]), &toks(&["mit"]));
    assert_eq!(via_project, via_bytes);
}

#[test]
fn rust_specific_files() {
    let steps = Project::generate_rust_specific_files();
    assert_eq!(
        steps,
        vec![
            Step::CopyFile { template: b"cargo_deny".to_vec(), path: b"deny.toml".to_vec() },
            Step::CopyFile { template: b"rustfmt".to_vec(), path: b"rustfmt.toml".to_vec() },
        ]
    );
}

#[test]
fn search_and_replace_uses_the_real_current_year() {
    let p = Project {
        name: "demo".to_string(),
        languages: Vec::new(),
        author: "Jane Doe".to_string(),
        licenses: vec!["mit".to_string()],
    };
    let out = p.search_and_replace(&b"$$PROJECT_NAME $$CURRENT_YEAR $$PROJECT_AUTHOR".to_vec());
    let year = chrono::Datelike::year(&chrono::Local::now());
    let expected = format!("demo {} Jane Doe", year).into_bytes();
    assert_eq!(out, expected);
}

#[test]
fn template_paths_are_under_the_template_directory() {
    assert_eq!(template_path_bytes(&b"mit".to_vec()), b".jinx-templates/mit.txt".to_vec());
    assert_eq!(
        template_path_bytes(&b"apache_mit_readme".to_vec()),
        b".jinx-templates/apache_mit_readme.txt".to_vec()
    );
}

#[test]
fn cli_decision_precedence() {
    assert_eq!(cli_action(true, true, 3), CliAction::ShowHelp);
    assert_eq!(cli_action(false, true, 3), CliAction::ShowVersion);
    assert_eq!(cli_action(false, false, 1), CliAction::UsageError);
    assert_eq!(cli_action(false, false, 0), CliAction::Run);
}
