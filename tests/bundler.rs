use rust_bundler::bundler::Bundler;
use rust_bundler::inline::{
    declaration_opener, find_file, plan_line, resolve, BundleError, SourceFile,
};
use rust_bundler::rules::{
    check_rules, comment_line, declaration_line, declaration_name, decoration_line,
    test_opener_line,
};
use rust_bundler::prune::{block_end, prune_flagged, prune_test_blocks};
use rust_bundler::text::{
    char_is_white, chars_contain, count_char, ident_char, replace_token, trim_chars,
};

fn lines(v: &[&str]) -> Vec<String> {
    v.iter().map(|s| s.to_string()).collect()
}

fn file(path: &str, body: &[&str]) -> SourceFile {
    SourceFile { path: path.to_string(), lines: lines(body) }
}

fn chars(s: &str) -> Vec<char> {
    s.chars().collect()
}

#[test]
fn test_bundle_bin() {
    assert_eq!(1, 1);
}

#[test]
fn two_flat_submodules_in_order() {
    let files = vec![
        file("src/lib.rs", &["mod a;", "pub mod b;"]),
        file("src/a.rs", &["pub fn f() {}"]),
        file("src/b.rs", &["pub fn g() {}"]),
    ];
    let mut b = Bundler::new("app", "src/bin/main.rs", "out.rs", false);
    let out = b.run(&files, None, &lines(&["fn main() {}"])).unwrap();
    assert_eq!(
        out,
        "pub mod app {\n\tmod a {\n\t\tpub fn f() {}\n\t}\n\tpub mod b {\n\t\tpub fn g() {}\n\t}\n}\nfn main() {}\n\n"
    );
}

#[test]
fn test_block_with_attribute_is_removed() {
    let files = vec![
        file("src/lib.rs", &["mod a;"]),
        file(
            "src/a.rs",
            &["pub fn f() {}", "#[cfg(test)]", "mod a_tests {", "fn t() {}", "}"],
        ),
    ];
    let mut b = Bundler::new("app", "main.rs", "out.rs", false);
    let out = b.run(&files, None, &lines(&["fn main() {}"])).unwrap();
    assert_eq!(out, "pub mod app {\n\tmod a {\n\t\tpub fn f() {}\n\t}\n}\nfn main() {}\n\n");
    assert!(!out.contains("cfg"));
    assert!(!out.contains("a_tests"));
}

#[test]
fn declared_tests_module_is_removed() {
    let files = vec![
        file("src/lib.rs", &["pub fn f() {}", "", "#[cfg(test)]", "mod tests;"]),
        file("src/tests.rs", &["#[test]", "fn t() { assert!(true); }"]),
    ];
    let mut b = Bundler::new("app", "main.rs", "out.rs", false);
    let out = b.run(&files, None, &lines(&[])).unwrap();
    assert_eq!(out, "pub mod app {\n\tpub fn f() {}\n}\n\n");
}

#[test]
fn one_line_two_statements() {
    let mut b = Bundler::new("app", "main.rs", "out.rs", true);
    b.write_to_buf("let a = 1;".to_string(), 0);
    b.write_to_buf("  let b = 2;  ".to_string(), 1);
    b.minify();
    assert_eq!(b.file_buf, vec!["let a = 1; let b = 2;".to_string()]);
    assert_eq!(b.flush(), "let a = 1; let b = 2;\n");
}

#[test]
fn one_line_run() {
    let files = vec![
        file("src/lib.rs", &["mod a;", "// note"]),
        file("src/a.rs", &["  pub fn f() {}  "]),
    ];
    let mut b = Bundler::new("app", "main.rs", "out.rs", true);
    let out = b.run(&files, None, &lines(&["fn main() {}", "// end"])).unwrap();
    assert_eq!(out, "pub mod app { mod a { pub fn f() {} } }\nfn main() {}\n\n");
}

#[test]
fn directory_form_wins() {
    let files = vec![
        file("src/lib.rs", &["mod a;"]),
        file("src/a.rs", &["pub fn flat() {}"]),
        file("src/a/mod.rs", &["pub fn dir() {}", "mod c;"]),
        file("src/a/c.rs", &["pub fn deep() {}"]),
    ];
    assert!(resolve(&files, "src/", "zz").is_err());
    let r = resolve(&files, "src/", "a").unwrap();
    assert_eq!(r.0, 2);
    assert_eq!(r.1, "src/a/");
    let mut b = Bundler::new("app", "main.rs", "out.rs", false);
    let out = b.run(&files, None, &lines(&[])).unwrap();
    assert!(out.contains("pub fn dir() {}"));
    assert!(!out.contains("flat"));
    assert!(out.contains("\n\t\t\tpub fn deep() {}\n"));
}

#[test]
fn indentation_follows_depth() {
    let files = vec![
        file("src/lib.rs", &["fn root() {}", "mod a;"]),
        file("src/a/mod.rs", &["mod b;"]),
        file("src/a/b.rs", &["fn leaf() {}"]),
    ];
    let mut b = Bundler::new("app", "main.rs", "out.rs", false);
    let out = b.run(&files, None, &lines(&[])).unwrap();
    assert_eq!(
        out,
        "pub mod app {\n\tfn root() {}\n\tmod a {\n\t\tmod b {\n\t\t\tfn leaf() {}\n\t\t}\n\t}\n}\n\n"
    );
}

#[test]
fn unresolved_module_fails() {
    let files = vec![file("src/lib.rs", &["fn f() {}", "mod missing;"])];
    let mut b = Bundler::new("app", "main.rs", "out.rs", false);
    assert_eq!(
        b.run(&files, None, &lines(&[])),
        Err(BundleError::Unresolved {
            flat: "src/missing.rs".to_string(),
            index: "src/missing/mod.rs".to_string()
        })
    );
    assert!(b.file_buf.is_empty());
}

#[test]
fn missing_root_fails() {
    let files: Vec<SourceFile> = vec![];
    let root_missing = Err(BundleError::Unresolved {
        flat: "src/lib.rs".to_string(),
        index: "src/lib/mod.rs".to_string(),
    });
    let mut b = Bundler::new("app", "main.rs", "out.rs", false);
    assert_eq!(b.run(&files, None, &lines(&[])), root_missing);
    let files = vec![file("src/main.rs", &[])];
    let mut b = Bundler::new("app", "main.rs", "out.rs", false);
    assert_eq!(b.run(&files, None, &lines(&[])), root_missing);
}

#[test]
fn cyclic_declaration_fails() {
    let files = vec![file("src/lib.rs", &["mod a;"]), file("src/a.rs", &["mod a;"])];
    let mut b = Bundler::new("app", "main.rs", "out.rs", false);
    assert_eq!(b.run(&files, None, &lines(&[])), Err(BundleError::TooDeep));
}

#[test]
fn banner_keeps_comments() {
    let files = vec![file("src/lib.rs", &["pub fn f() {}"])];
    let mut b = Bundler::new("app", "main.rs", "out.rs", true);
    b.set_banner("banner.rs");
    assert_eq!(b.banner_file, Some("banner.rs".to_string()));
    let banner = lines(&["// Author: me", "#![allow(dead_code)]"]);
    let out = b.run(&files, Some(&banner), &lines(&["// c", "fn main() {}"])).unwrap();
    assert_eq!(
        out,
        "// Author: me\n#![allow(dead_code)]\n\npub mod app { pub fn f() {} }\nfn main() {}\n\n"
    );
}

#[test]
fn crate_paths_are_requalified() {
    let mut b = Bundler::new("app", "main.rs", "out.rs", false);
    b.write_to_buf("use crate::x::Y; let crate_name = crate::z();".to_string(), 0);
    b.write_to_buf("fn f() {}".to_string(), 1);
    b.fix_use_crate();
    assert_eq!(
        b.file_buf,
        vec![
            "use crate::app::x::Y; let crate_name = crate::app::z();".to_string(),
            "\tfn f() {}".to_string()
        ]
    );
}

#[test]
fn comments_dropped_unless_kept() {
    let mut b = Bundler::new("app", "main.rs", "out.rs", false);
    b.write_to_buf("   // gone".to_string(), 2);
    b.write_to_buf_keep_comment("// kept".to_string(), 1);
    b.write_to_buf_raw("x".to_string(), 2, false);
    assert_eq!(b.file_buf, vec!["\t// kept".to_string(), "\t\tx".to_string()]);
    assert_eq!(b.flush(), "\t// kept\n\t\tx\n");
    assert!(b.file_buf.is_empty());
}

#[test]
fn prune_without_tests_is_identity() {
    let v = lines(&["mod a {", "fn f() {}", "}", "", "#[inline]", "fn g() {}"]);
    assert_eq!(prune_test_blocks(&v), Some(v));
}

#[test]
fn prune_twice_same_as_once() {
    let v = lines(&[
        "fn f() {}",
        "#[cfg(test)]",
        "mod tests {",
        "    mod inner_tests {",
        "    }",
        "}",
        "",
        "pub mod more_tests",
        "fn g() {}",
    ]);
    let once = prune_test_blocks(&v).unwrap();
    assert_eq!(once, lines(&["fn f() {}", "fn g() {}"]));
    assert_eq!(prune_test_blocks(&once), Some(once));
}

#[test]
fn unclosed_test_block_is_an_error() {
    let v = lines(&["fn f() {}", "mod tests {", "fn t() {"]);
    assert_eq!(block_end(&v, 1), 3);
    assert_eq!(prune_test_blocks(&v), None);
    let one = lines(&["mod tests {"]);
    assert_eq!(block_end(&one, 0), 1);
    assert_eq!(prune_test_blocks(&one), None);
    let mut b = Bundler::new("app", "main.rs", "out.rs", false);
    b.write_to_buf("mod tests {".to_string(), 0);
    assert_eq!(b.clean_inline_test_mod(), Err(BundleError::UnclosedTestBlock));
    assert_eq!(b.file_buf, lines(&["mod tests {"]));
}

#[test]
fn unclosed_test_block_fails_the_run() {
    let files = vec![
        file("src/lib.rs", &["mod a;"]),
        file("src/a.rs", &["pub fn f() {}", "#[cfg(test)]", "mod tests {", "fn t() { {"]),
    ];
    let mut b = Bundler::new("app", "main.rs", "out.rs", false);
    assert_eq!(
        b.run(&files, None, &lines(&["fn main() {}"])),
        Err(BundleError::UnclosedTestBlock)
    );
    assert!(b.file_buf.is_empty());
}

#[test]
fn block_end_counts_braces() {
    let v = lines(&["mod tests {", "fn a() { }", "}", "fn b() {}"]);
    assert_eq!(block_end(&v, 0), 2);
}

#[test]
fn text_helpers() {
    assert_eq!(trim_chars(&chars(" \t a b \u{3000}")), chars("a b"));
    assert_eq!(trim_chars(&chars("   ")), chars(""));
    assert_eq!(count_char(&chars("{{}"), '{'), 2);
    assert!(chars_contain(&chars("my_tests"), &chars("tests")));
    assert!(!chars_contain(&chars("test"), &chars("tests")));
    assert_eq!(
        replace_token(&chars("crate::a crate::b"), &chars("crate::"), &chars("crate::k::")),
        chars("crate::k::a crate::k::b")
    );
    assert_eq!(
        replace_token(&chars("my_crate::a xcrate::b (crate::c)"), &chars("crate::"), &chars("crate::k::")),
        chars("my_crate::a xcrate::b (crate::k::c)")
    );
    assert!(ident_char('_') && ident_char('z') && ident_char('7') && ident_char('é'));
    assert!(!ident_char(':') && !ident_char(' ') && !ident_char('('));
    assert!(char_is_white('\u{a0}'));
    assert!(!char_is_white('x'));
    let files = vec![file("a", &[]), file("b", &["x"]), file("b", &[])];
    assert_eq!(find_file(&files, &"b".to_string()), Some(1));
    assert_eq!(find_file(&files, &"c".to_string()), None);
}

#[test]
fn line_rules() {
    assert!(check_rules());
    assert!(comment_line("   // note"));
    assert!(!comment_line("let x = 1; // note"));
    assert!(decoration_line("  #[cfg(test)]"));
    assert!(decoration_line("   "));
    assert!(!decoration_line("fn f() {}"));
    assert!(test_opener_line("pub mod unit_tests {"));
    assert!(test_opener_line("mod tests"));
    assert!(!test_opener_line("mod helpers {"));
    assert!(!test_opener_line("fn tests() {"));
    assert!(declaration_line("  pub mod foo ;  "));
    assert!(!declaration_line("mod foo {"));
    assert_eq!(declaration_name("pub mod foo_bar;"), Some("foo_bar".to_string()));
    assert_eq!(declaration_name("fn x();"), None);
    assert_eq!(declaration_opener("  pub mod foo; "), Some("  pub mod foo {".to_string()));
    assert_eq!(declaration_opener("mod foo"), None);
}

#[test]
fn identifiers_ending_in_crate_are_kept() {
    let mut b = Bundler::new("mylib", "main.rs", "out.rs", false);
    b.write_to_buf("use my_crate::x;".to_string(), 0);
    b.write_to_buf("let v = my_crate::x + crate::y + écrate::z;".to_string(), 0);
    b.fix_use_crate();
    assert_eq!(
        b.file_buf,
        lines(&["use my_crate::x;", "let v = my_crate::x + crate::mylib::y + écrate::z;"])
    );
}

#[test]
fn prune_by_flags() {
    let v = lines(&["a", "#[x]", "", "open {", "b", "}", "c"]);
    let opener = vec![false, false, false, true, false, false, false];
    let deco = vec![false, true, true, false, false, false, false];
    assert_eq!(prune_flagged(&v, &opener, &deco), Some(lines(&["a", "c"])));
    let no_deco = vec![false; 7];
    assert_eq!(prune_flagged(&v, &opener, &no_deco), Some(lines(&["a", "#[x]", "", "c"])));
    let none = vec![false; 7];
    assert_eq!(prune_flagged(&v, &none, &deco), Some(v.clone()));
    let late = vec![false, false, false, false, false, false, true];
    assert_eq!(prune_flagged(&v, &late, &deco), Some(lines(&["a", "#[x]", "", "open {", "b", "}"])));
    let unclosed = lines(&["x", "open {"]);
    assert_eq!(prune_flagged(&unclosed, &vec![false, true], &vec![false, false]), None);
}

#[test]
fn plan_each_line() {
    assert_eq!(plan_line("fn f() {}", false, None), Ok(None));
    assert_eq!(plan_line("mod a;", false, Some("a".to_string())), Ok(None));
    assert_eq!(
        plan_line("  pub mod a;", true, Some("a".to_string())),
        Ok(Some(("  pub mod a {".to_string(), "a".to_string())))
    );
    assert_eq!(plan_line("mod a;", true, None), Err(BundleError::MalformedDeclaration));
    assert_eq!(
        plan_line("mod a", true, Some("a".to_string())),
        Err(BundleError::MalformedDeclaration)
    );
}

#[test]
fn banner_needs_a_banner_file() {
    let files = vec![file("src/lib.rs", &["pub fn f() {}"])];
    let banner = lines(&["// head"]);
    let mut b = Bundler::new("app", "main.rs", "out.rs", false);
    let out = b.run(&files, Some(&banner), &lines(&[])).unwrap();
    assert_eq!(out, "pub mod app {\n\tpub fn f() {}\n}\n\n");
}
