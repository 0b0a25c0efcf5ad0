//! Component-level tests: template rendering, comment wrapping, the
//! syntax table, the header matcher's tiers, glob and ignore rules,
//! decimal formatting, the catalog, and configuration defaults.

use licensa::catalog::{Catalog, LicenseSpec};
use licensa::config::{
    default_allowed_licenses, default_gitignore, default_ignore_patterns, default_license_type,
    default_spdx_only_flag, license_allowed,
};
use licensa::engine::{process_file, Mode, Outcome};
use licensa::matcher::{header_start, match_header, MatchResult};
use licensa::run::{decimal_bytes, license_id_allowed};
use licensa::scanner::{glob_matches, is_excluded, lex_leq, parse_ignore_file, sort_paths};
use licensa::style::{style_for, wrap_header, CommentStyle};
use licensa::template::{render, Field, RenderError};

fn fields(pairs: &[(&[u8], &[u8])]) -> Vec<Field> {
    pairs
        .iter()
        .map(|(n, v)| Field { name: n.to_vec(), value: v.to_vec() })
        .collect()
}

#[test]
fn render_substitutes_each_placeholder() {
    let t = b"Copyright {{year}} {{author}}\nAll rights reserved.".to_vec();
    let f = fields(&[(b"author", b"Jane Doe"), (b"year", b"2024")]);
    let out = render(&t, &f).unwrap();
    assert_eq!(out, b"Copyright 2024 Jane Doe\nAll rights reserved.".to_vec());
}

#[test]
fn render_ignores_surplus_fields_and_keeps_structure() {
    let t = b"line one\n\nline {{n}} three\n".to_vec();
    let f = fields(&[(b"n", b"number"), (b"unused", b"x")]);
    let out = render(&t, &f).unwrap();
    assert_eq!(out, b"line one\n\nline number three\n".to_vec());
}

#[test]
fn render_fails_on_a_missing_field() {
    let t = b"Hello {{who}}".to_vec();
    let f = fields(&[(b"author", b"Jane")]);
    match render(&t, &f) {
        Err(RenderError::MissingField(name)) => assert_eq!(name, b"who".to_vec()),
        _ => panic!("expected a missing-field error"),
    }
}

#[test]
fn render_keeps_an_unclosed_delimiter_literal() {
    let t = b"brace {{ stays".to_vec();
    let out = render(&t, &fields(&[])).unwrap();
    assert_eq!(out, b"brace {{ stays".to_vec());
}

#[test]
fn wrap_line_style_prefixes_every_line() {
    let style = style_for(&b"src/main.rs".to_vec()).unwrap();
    let out = wrap_header(&style, &b"one\ntwo".to_vec());
    assert_eq!(out, b"// one\n// two\n".to_vec());
}

#[test]
fn wrap_block_style_frames_the_text() {
    let style = style_for(&b"site.css".to_vec()).unwrap();
    let out = wrap_header(&style, &b"one\ntwo".to_vec());
    assert_eq!(out, b"/*\n * one\n * two\n */\n".to_vec());
}

#[test]
fn syntax_table_classifies_by_extension_and_name() {
    assert!(matches!(
        style_for(&b"a/b/c.rs".to_vec()),
        Some(CommentStyle::Line { .. })
    ));
    assert!(matches!(
        style_for(&b"Makefile".to_vec()),
        Some(CommentStyle::Line { .. })
    ));
    assert!(matches!(
        style_for(&b"doc/index.html".to_vec()),
        Some(CommentStyle::Block { .. })
    ));
    assert!(style_for(&b"data.json".to_vec()).is_none());
    assert!(style_for(&b"no_extension".to_vec()).is_none());
    assert!(style_for(&b".gitignore".to_vec()).is_none());
}

#[test]
fn matcher_distinguishes_all_four_tiers() {
    let style = style_for(&b"x.rs".to_vec()).unwrap();
    let expected = b"// Copyright 2024 Jane Doe\n// SPDX-License-Identifier: MIT\n".to_vec();
    let id = b"MIT".to_vec();

    let absent = b"fn main() {}\n".to_vec();
    assert_eq!(match_header(&absent, &expected, &style, &id), MatchResult::Absent);

    let mut correct = expected.clone();
    correct.extend_from_slice(b"fn main() {}\n");
    assert_eq!(match_header(&correct, &expected, &style, &id), MatchResult::Correct);

    let stale = b"// Copyright 2001 Jane Doe\n// SPDX-License-Identifier: MIT\nfn main() {}\n"
        .to_vec();
    match match_header(&stale, &expected, &style, &id) {
        MatchResult::Stale { start, end } => {
            assert_eq!(start, 0);
            assert_eq!(end, b"// Copyright 2001 Jane Doe\n// SPDX-License-Identifier: MIT\n".len());
        }
        other => panic!("expected a stale match, got {:?}", other),
    }

    let foreign = b"// just a comment\nfn main() {}\n".to_vec();
    assert_eq!(match_header(&foreign, &expected, &style, &id), MatchResult::Foreign);
}

#[test]
fn block_style_stale_and_foreign_blocks() {
    let style = style_for(&b"site.css".to_vec()).unwrap();
    let rendered = b"Copyright 2024 Jane Doe\nSPDX-License-Identifier: MIT".to_vec();
    let expected = wrap_header(&style, &rendered);
    let id = b"MIT".to_vec();

    let stale = b"/*\n * Copyright 1999 Jane Doe\n * SPDX-License-Identifier: MIT\n */\nbody {}\n";
    match match_header(&stale.to_vec(), &expected, &style, &id) {
        MatchResult::Stale { start, end } => {
            assert_eq!(start, 0);
            assert_eq!(end, b"/*\n * Copyright 1999 Jane Doe\n * SPDX-License-Identifier: MIT\n */\n".len());
        }
        other => panic!("expected a stale match, got {:?}", other),
    }

    let foreign = b"/* reset rules */\nbody {}\n".to_vec();
    assert_eq!(match_header(&foreign, &expected, &style, &id), MatchResult::Foreign);

    // An unterminated block comment is not treated as a header block.
    let unterminated = b"/* dangling\nbody {}\n".to_vec();
    assert_eq!(match_header(&unterminated, &expected, &style, &id), MatchResult::Absent);
}

#[test]
fn insert_into_empty_file() {
    let style = style_for(&b"x.rs".to_vec()).unwrap();
    let expected = b"// h\n".to_vec();
    let (outcome, new) = process_file(
        &Vec::new(),
        &expected,
        &style,
        &b"MIT".to_vec(),
        Mode::Write,
    );
    assert_eq!(outcome, Outcome::Inserted);
    assert_eq!(new.unwrap(), b"// h\n".to_vec());
}

#[test]
fn render_of_an_empty_template_is_empty() {
    let out = render(&Vec::new(), &fields(&[])).unwrap();
    assert!(out.is_empty());
}

#[test]
fn matcher_skips_a_shebang_line() {
    let style = style_for(&b"x.py".to_vec()).unwrap();
    let expected = b"# Copyright 2024 Jane Doe\n".to_vec();
    let id = b"MIT".to_vec();
    let content = b"#!/usr/bin/env python\n# Copyright 2024 Jane Doe\nprint(1)\n".to_vec();
    assert_eq!(header_start(&content), b"#!/usr/bin/env python\n".len());
    assert_eq!(match_header(&content, &expected, &style, &id), MatchResult::Correct);
}

#[test]
fn header_start_skips_a_byte_order_mark() {
    let plain = b"fn main() {}\n".to_vec();
    assert_eq!(header_start(&plain), 0);
    let bom = b"\xEF\xBB\xBFfn main() {}\n".to_vec();
    assert_eq!(header_start(&bom), 3);
    let bom_shebang = b"\xEF\xBB\xBF#!/bin/sh\necho\n".to_vec();
    assert_eq!(header_start(&bom_shebang), b"\xEF\xBB\xBF#!/bin/sh\n".len());
}

#[test]
fn process_file_leaves_compliant_content_alone() {
    let style = style_for(&b"x.rs".to_vec()).unwrap();
    let expected = b"// h\n".to_vec();
    let content = b"// h\nfn f() {}\n".to_vec();
    let (outcome, new) = process_file(&content, &expected, &style, &b"MIT".to_vec(), Mode::Write);
    assert_eq!(outcome, Outcome::AlreadyCompliant);
    assert!(new.is_none());
}

#[test]
fn glob_star_and_question_mark() {
    assert!(glob_matches(&b"*.rs".to_vec(), &b"src/main.rs".to_vec()));
    assert!(glob_matches(&b"src/*".to_vec(), &b"src/deep/file.c".to_vec()));
    assert!(glob_matches(&b"a?c".to_vec(), &b"abc".to_vec()));
    assert!(!glob_matches(&b"a?c".to_vec(), &b"ac".to_vec()));
    assert!(!glob_matches(&b"*.rs".to_vec(), &b"main.c".to_vec()));
    assert!(glob_matches(&b"*".to_vec(), &b"".to_vec()));
    assert!(!glob_matches(&b"".to_vec(), &b"x".to_vec()));
}

#[test]
fn last_matching_ignore_pattern_wins() {
    let patterns = vec![
        b"build/*".to_vec(),
        b"!build/keep.rs".to_vec(),
        b"build/keep.rs.bak".to_vec(),
    ];
    assert!(is_excluded(&b"build/x.rs".to_vec(), &patterns));
    assert!(!is_excluded(&b"build/keep.rs".to_vec(), &patterns));
    assert!(is_excluded(&b"build/keep.rs.bak".to_vec(), &patterns));
    assert!(!is_excluded(&b"src/x.rs".to_vec(), &patterns));
    assert!(!is_excluded(&b"anything".to_vec(), &Vec::new()));
}

#[test]
fn ignore_file_parsing_drops_blanks_and_comments() {
    let text = b"# build outputs\ntarget/*\n\n  !target/keep.rs  \n\t\n*.tmp".to_vec();
    let patterns = parse_ignore_file(&text);
    let expect: Vec<Vec<u8>> = vec![
        b"target/*".to_vec(),
        b"!target/keep.rs".to_vec(),
        b"*.tmp".to_vec(),
    ];
    assert_eq!(patterns, expect);
    assert!(parse_ignore_file(&Vec::new()).is_empty());
}

#[test]
fn paths_sort_into_lexicographic_order() {
    let paths = vec![
        b"src/z.rs".to_vec(),
        b"Makefile".to_vec(),
        b"src/a.rs".to_vec(),
        b"src".to_vec(),
        b"src/a.rs".to_vec(),
    ];
    let sorted = sort_paths(paths);
    let expect: Vec<Vec<u8>> = vec![
        b"Makefile".to_vec(),
        b"src".to_vec(),
        b"src/a.rs".to_vec(),
        b"src/a.rs".to_vec(),
        b"src/z.rs".to_vec(),
    ];
    assert_eq!(sorted, expect);
    assert!(lex_leq(&b"a".to_vec(), &b"ab".to_vec()));
    assert!(!lex_leq(&b"b".to_vec(), &b"ab".to_vec()));
    assert!(lex_leq(&b"".to_vec(), &b"".to_vec()));
}

#[test]
fn decimal_bytes_exact_values() {
    assert_eq!(decimal_bytes(0), b"0".to_vec());
    assert_eq!(decimal_bytes(7), b"7".to_vec());
    assert_eq!(decimal_bytes(2024), b"2024".to_vec());
    assert_eq!(decimal_bytes(u16::MAX), b"65535".to_vec());
}

#[test]
fn catalog_lookup_and_duplicate_rejection() {
    let mut catalog = Catalog::new();
    assert!(catalog.add(LicenseSpec {
        id: b"MIT".to_vec(),
        display_name: b"MIT License".to_vec(),
        header_template: b"t".to_vec(),
    }));
    assert!(catalog.add(LicenseSpec {
        id: b"Apache-2.0".to_vec(),
        display_name: b"Apache License 2.0".to_vec(),
        header_template: b"u".to_vec(),
    }));
    assert!(!catalog.add(LicenseSpec {
        id: b"MIT".to_vec(),
        display_name: b"again".to_vec(),
        header_template: b"v".to_vec(),
    }));
    assert_eq!(catalog.lookup(&b"MIT".to_vec()), Some(0));
    assert_eq!(catalog.lookup(&b"Apache-2.0".to_vec()), Some(1));
    assert_eq!(catalog.lookup(&b"GPL-3.0".to_vec()), None);
}

#[test]
fn configuration_defaults() {
    assert_eq!(default_license_type(), "MIT");
    assert!(default_ignore_patterns().is_empty());
    assert!(default_gitignore());
    assert!(!default_spdx_only_flag());
    assert_eq!(default_allowed_licenses(), vec!["*".to_string()]);
}

#[test]
fn allow_list_checks() {
    let restrictive = vec!["MIT".to_string(), "Apache-2.0".to_string()];
    assert!(license_allowed(&"MIT".to_string(), &restrictive));
    assert!(!license_allowed(&"GPL-3.0".to_string(), &restrictive));
    assert!(license_allowed(&"GPL-3.0".to_string(), &vec!["*".to_string()]));
    assert!(!license_allowed(&"MIT".to_string(), &Vec::new()));

    let bytes_allowed = vec![b"MIT".to_vec()];
    assert!(license_id_allowed(&b"MIT".to_vec(), &bytes_allowed));
    assert!(!license_id_allowed(&b"ISC".to_vec(), &bytes_allowed));
    assert!(license_id_allowed(&b"ISC".to_vec(), &vec![b"*".to_vec()]));
}
