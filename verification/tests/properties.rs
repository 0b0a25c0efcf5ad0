//! End-to-end properties of the engine: idempotence, determinism,
//! non-destructive matching, ignore correctness, shebang preservation,
//! and the documented example scenarios.

use licensa::catalog::{Catalog, LicenseSpec};
use licensa::engine::{apply_all, Mode, Outcome, SkipReason, WorkItem};
use licensa::run::{build_fields, run, EngineError};
use licensa::scanner::filter_paths;

fn mit_catalog() -> Catalog {
    let mut catalog = Catalog::new();
    let added = catalog.add(LicenseSpec {
        id: b"MIT".to_vec(),
        display_name: b"MIT License".to_vec(),
        header_template: b"Copyright {{year}} {{author}}\nSPDX-License-Identifier: MIT".to_vec(),
    });
    assert!(added);
    catalog
}

fn jane_fields() -> Vec<licensa::template::Field> {
    build_fields(&b"Jane Doe".to_vec(), 2024)
}

fn item(path: &[u8], content: &[u8]) -> WorkItem {
    WorkItem { path: path.to_vec(), content: Some(content.to_vec()) }
}

#[test]
fn insert_into_file_without_header() {
    // License id MIT, author Jane Doe, year 2024, main.rs with no header.
    let catalog = mit_catalog();
    let items = vec![item(b"main.rs", b"fn main() {}\n")];
    let report = run(
        &catalog,
        &b"MIT".to_vec(),
        &vec![b"*".to_vec()],
        &jane_fields(),
        &items,
        Mode::Write,
    )
    .unwrap();
    assert_eq!(report.inserted, 1);
    assert_eq!(report.results.len(), 1);
    assert_eq!(report.results[0].outcome, Outcome::Inserted);
    let new = report.results[0].new_content.as_ref().unwrap();
    let expected = b"// Copyright 2024 Jane Doe\n// SPDX-License-Identifier: MIT\nfn main() {}\n";
    assert_eq!(new.as_slice(), &expected[..]);
    let text = String::from_utf8(new.clone()).unwrap();
    assert!(text.contains("Copyright 2024 Jane Doe"));
    assert!(text.contains("SPDX-License-Identifier: MIT"));
}

#[test]
fn update_stale_header_changes_only_the_year() {
    // Same config, file already carries a 2023 header for MIT.
    let catalog = mit_catalog();
    let old = b"// Copyright 2023 Jane Doe\n// SPDX-License-Identifier: MIT\nfn main() {}\n";
    let items = vec![item(b"main.rs", old)];
    let report = run(
        &catalog,
        &b"MIT".to_vec(),
        &vec![b"*".to_vec()],
        &jane_fields(),
        &items,
        Mode::Write,
    )
    .unwrap();
    assert_eq!(report.updated, 1);
    assert_eq!(report.results[0].outcome, Outcome::Updated);
    let new = report.results[0].new_content.as_ref().unwrap();
    let expected = b"// Copyright 2024 Jane Doe\n// SPDX-License-Identifier: MIT\nfn main() {}\n";
    assert_eq!(new.as_slice(), &expected[..]);
}

#[test]
fn disallowed_license_aborts_before_touching_any_file() {
    // allowedLicenseIds = ["MIT", "Apache-2.0"], config requests GPL-3.0.
    let mut catalog = mit_catalog();
    catalog.add(LicenseSpec {
        id: b"GPL-3.0".to_vec(),
        display_name: b"GNU GPL v3".to_vec(),
        header_template: b"{{author}} {{year}}\nSPDX-License-Identifier: GPL-3.0".to_vec(),
    });
    let items = vec![item(b"main.rs", b"fn main() {}\n")];
    let allowed = vec![b"MIT".to_vec(), b"Apache-2.0".to_vec()];
    let result = run(
        &catalog,
        &b"GPL-3.0".to_vec(),
        &allowed,
        &jane_fields(),
        &items,
        Mode::Write,
    );
    match result {
        Err(EngineError::LicenseNotAllowed(id)) => assert_eq!(id, b"GPL-3.0".to_vec()),
        _ => panic!("expected the run to abort with a configuration error"),
    }
}

#[test]
fn write_twice_is_idempotent() {
    // Second write-mode pass: AlreadyCompliant everywhere, zero changes.
    let catalog = mit_catalog();
    let allowed = vec![b"*".to_vec()];
    let items = vec![
        item(b"main.rs", b"fn main() {}\n"),
        item(b"tool.py", b"#!/usr/bin/env python\nprint(1)\n"),
        item(b"style.css", b"body { margin: 0; }\n"),
        item(
            b"old.rs",
            b"// Copyright 2019 Jane Doe\n// SPDX-License-Identifier: MIT\nfn f() {}\n",
        ),
    ];
    let first = run(&catalog, &b"MIT".to_vec(), &allowed, &jane_fields(), &items, Mode::Write)
        .unwrap();
    assert_eq!(first.inserted, 3);
    assert_eq!(first.updated, 1);
    let rewritten: Vec<WorkItem> = first
        .results
        .iter()
        .map(|r| WorkItem {
            path: r.path.clone(),
            content: Some(r.new_content.clone().unwrap()),
        })
        .collect();
    let second = run(
        &catalog,
        &b"MIT".to_vec(),
        &allowed,
        &jane_fields(),
        &rewritten,
        Mode::Write,
    )
    .unwrap();
    assert_eq!(second.compliant, 4);
    assert_eq!(second.inserted, 0);
    assert_eq!(second.updated, 0);
    for r in &second.results {
        assert_eq!(r.outcome, Outcome::AlreadyCompliant);
        assert!(r.new_content.is_none());
    }
}

#[test]
fn two_runs_are_byte_identical() {
    // Determinism: fixed workspace and config, identical reports.
    let catalog = mit_catalog();
    let allowed = vec![b"*".to_vec()];
    let items = vec![
        item(b"a.rs", b"fn a() {}\n"),
        item(b"b.sh", b"#!/bin/sh\necho hi\n"),
        item(b"notes.txt", b"no comment style\n"),
    ];
    let r1 = run(&catalog, &b"MIT".to_vec(), &allowed, &jane_fields(), &items, Mode::Write)
        .unwrap();
    let r2 = run(&catalog, &b"MIT".to_vec(), &allowed, &jane_fields(), &items, Mode::Write)
        .unwrap();
    assert_eq!(r1.results.len(), r2.results.len());
    for (a, b) in r1.results.iter().zip(r2.results.iter()) {
        assert_eq!(a.path, b.path);
        assert_eq!(a.outcome, b.outcome);
        assert_eq!(a.new_content, b.new_content);
    }
    assert_eq!(r1.inserted, r2.inserted);
    assert_eq!(r1.skipped, r2.skipped);
}

#[test]
fn foreign_comment_block_is_never_modified() {
    // Same delimiter style, no recognized SPDX token: left alone, every run.
    let catalog = mit_catalog();
    let allowed = vec![b"*".to_vec()];
    let foreign = b"// utility helpers\n// maintained by the build team\nfn util() {}\n";
    let items = vec![item(b"util.rs", foreign)];
    for _ in 0..3 {
        let report = run(
            &catalog,
            &b"MIT".to_vec(),
            &allowed,
            &jane_fields(),
            &items,
            Mode::Write,
        )
        .unwrap();
        assert_eq!(report.results[0].outcome, Outcome::Skipped(SkipReason::Foreign));
        assert!(report.results[0].new_content.is_none());
        assert_eq!(report.skipped, 1);
    }
}

#[test]
fn ignored_paths_never_reach_the_engine() {
    // A path matching a configured glob never appears in the processed set.
    let paths = vec![
        b"src/main.rs".to_vec(),
        b"target/debug/build.rs".to_vec(),
        b"src/lib.rs".to_vec(),
        b"vendor/dep.rs".to_vec(),
        b"vendor/keep/this.rs".to_vec(),
    ];
    let patterns = vec![
        b"target/*".to_vec(),
        b"vendor/*".to_vec(),
        b"!vendor/keep/*".to_vec(),
    ];
    let kept = filter_paths(&paths, &patterns);
    let kept: Vec<&[u8]> = kept.iter().map(|p| p.as_slice()).collect();
    assert_eq!(
        kept,
        vec![
            &b"src/main.rs"[..],
            &b"src/lib.rs"[..],
            &b"vendor/keep/this.rs"[..],
        ]
    );
}

#[test]
fn shebang_stays_first_and_header_follows() {
    let catalog = mit_catalog();
    let items = vec![item(b"run.sh", b"#!/usr/bin/env bash\nset -e\n")];
    let report = run(
        &catalog,
        &b"MIT".to_vec(),
        &vec![b"*".to_vec()],
        &jane_fields(),
        &items,
        Mode::Write,
    )
    .unwrap();
    let new = report.results[0].new_content.as_ref().unwrap();
    let expected = b"#!/usr/bin/env bash\n# Copyright 2024 Jane Doe\n# SPDX-License-Identifier: MIT\nset -e\n";
    assert_eq!(new.as_slice(), &expected[..]);
}

#[test]
fn byte_order_mark_is_preserved_untouched() {
    let catalog = mit_catalog();
    let items = vec![item(b"lib.rs", b"\xEF\xBB\xBFfn lib() {}\n")];
    let report = run(
        &catalog,
        &b"MIT".to_vec(),
        &vec![b"*".to_vec()],
        &jane_fields(),
        &items,
        Mode::Write,
    )
    .unwrap();
    assert_eq!(report.results[0].outcome, Outcome::Inserted);
    let new = report.results[0].new_content.as_ref().unwrap();
    let expected =
        b"\xEF\xBB\xBF// Copyright 2024 Jane Doe\n// SPDX-License-Identifier: MIT\nfn lib() {}\n";
    assert_eq!(new.as_slice(), &expected[..]);
}

#[test]
fn shebang_without_trailing_newline_gains_one() {
    let catalog = mit_catalog();
    let items = vec![item(b"run.sh", b"#!/bin/sh")];
    let report = run(
        &catalog,
        &b"MIT".to_vec(),
        &vec![b"*".to_vec()],
        &jane_fields(),
        &items,
        Mode::Write,
    )
    .unwrap();
    let new = report.results[0].new_content.as_ref().unwrap();
    let expected = b"#!/bin/sh\n# Copyright 2024 Jane Doe\n# SPDX-License-Identifier: MIT\n";
    assert_eq!(new.as_slice(), &expected[..]);
}

#[test]
fn check_mode_reports_without_writing() {
    let catalog = mit_catalog();
    let allowed = vec![b"*".to_vec()];
    let items = vec![
        item(b"a.rs", b"fn a() {}\n"),
        item(
            b"b.rs",
            b"// Copyright 2024 Jane Doe\n// SPDX-License-Identifier: MIT\nfn b() {}\n",
        ),
    ];
    let report = run(&catalog, &b"MIT".to_vec(), &allowed, &jane_fields(), &items, Mode::Check)
        .unwrap();
    assert_eq!(report.results[0].outcome, Outcome::NonCompliant);
    assert_eq!(report.results[1].outcome, Outcome::Compliant);
    assert!(report.results[0].new_content.is_none());
    assert!(report.results[1].new_content.is_none());
    assert_eq!(report.noncompliant, 1);
    assert_eq!(report.compliant, 1);
}

#[test]
fn unknown_license_is_a_configuration_error() {
    let catalog = mit_catalog();
    let items = vec![item(b"a.rs", b"fn a() {}\n")];
    let result = run(
        &catalog,
        &b"BSL-1.0".to_vec(),
        &vec![b"*".to_vec()],
        &jane_fields(),
        &items,
        Mode::Write,
    );
    match result {
        Err(EngineError::UnknownLicense(id)) => assert_eq!(id, b"BSL-1.0".to_vec()),
        _ => panic!("expected an unknown-license error"),
    }
}

#[test]
fn missing_field_aborts_the_whole_run() {
    let mut catalog = Catalog::new();
    catalog.add(LicenseSpec {
        id: b"MIT".to_vec(),
        display_name: b"MIT License".to_vec(),
        header_template: b"Copyright {{year}} {{holder}}".to_vec(),
    });
    let items = vec![item(b"a.rs", b"fn a() {}\n")];
    let result = run(
        &catalog,
        &b"MIT".to_vec(),
        &vec![b"*".to_vec()],
        &jane_fields(),
        &items,
        Mode::Write,
    );
    match result {
        Err(EngineError::MissingField(name)) => assert_eq!(name, b"holder".to_vec()),
        _ => panic!("expected a missing-field error"),
    }
}

#[test]
fn unreadable_and_unsupported_files_are_recorded() {
    let items = vec![
        WorkItem { path: b"gone.rs".to_vec(), content: None },
        item(b"data.json", b"{}\n"),
    ];
    let report = apply_all(
        &items,
        &b"Copyright 2024 Jane Doe\nSPDX-License-Identifier: MIT".to_vec(),
        &b"MIT".to_vec(),
        Mode::Write,
    );
    assert_eq!(report.results[0].outcome, Outcome::Failed);
    assert_eq!(
        report.results[1].outcome,
        Outcome::Skipped(SkipReason::Unsupported)
    );
    assert_eq!(report.failed, 1);
    assert_eq!(report.skipped, 1);
    assert_eq!(report.failed_paths(), vec![b"gone.rs".to_vec()]);
}
