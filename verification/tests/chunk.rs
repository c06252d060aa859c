use askgrep::chunk::{chunk_file, is_git_internal, is_worth_reading, split_file, starts_definition};

#[test]
fn splits_on_zero_indent_definitions_and_keeps_line_numbers() {
    let src = "use std::io;\n\nfn alpha() {\n    let a = 1;\n    let b = 2;\n}\n\nfn beta() {\n    let c = 3;\n    let d = 4;\n}\n";
    let cs = split_file("x.rs", src, 10, 4096);
    let heads: Vec<&str> = cs.iter().map(|c| c.head()).collect();
    assert!(heads.contains(&"fn alpha() {"), "got {heads:?}");
    assert!(heads.contains(&"fn beta() {"), "got {heads:?}");
    let beta = cs.iter().find(|c| c.head() == "fn beta() {").unwrap();
    assert_eq!(
        beta.line, 8,
        "line numbers are 1-indexed and point at the definition"
    );
    assert!(
        beta.text.contains("let d = 4;"),
        "body runs to the next definition"
    );
}

#[test]
fn a_windowed_continuation_still_names_its_definition() {
    let long: String = (0..300).map(|i| format!("    let v{i} = {i};\n")).collect();
    let src = format!("fn enormous() {{\n{long}}}\n");
    let cs = split_file("big.rs", &src, 10, 800);
    assert!(cs.len() > 2, "expected several windows, got {}", cs.len());
    for c in &cs {
        assert_eq!(
            c.head(),
            "fn enormous() {",
            "every window names the function"
        );
    }
}

#[test]
fn a_file_with_no_definitions_is_windowed_not_sent_whole() {
    let src = (0..400)
        .map(|i| format!("    value_{i} = {i}"))
        .collect::<Vec<_>>()
        .join("\n");
    let cs = split_file("data.txt", &src, 10, 500);
    assert!(
        cs.len() > 1,
        "expected windowing, got {} chunk(s)",
        cs.len()
    );
    assert!(cs.iter().all(|c| c.text.len() <= 600));
}

#[test]
fn methods_inside_an_impl_block_are_their_own_chunks() {
    let src = "impl Store {\n    pub fn get(&self) -> u8 {\n        self.a\n    }\n\n    pub fn put(&mut self, v: u8) {\n        self.a = v;\n    }\n}\n";
    let cs = split_file("s.rs", src, 5, 4096);
    let heads: Vec<&str> = cs.iter().map(|c| c.head()).collect();
    assert!(heads.iter().any(|h| h.contains("fn get")), "got {heads:?}");
    assert!(heads.iter().any(|h| h.contains("fn put")), "got {heads:?}");
}

#[test]
fn git_internals_are_never_chunked() {
    // Catches the case the hidden-file default misses: a path pointed
    // straight at .git, or a .git nested inside a submodule.
    assert!(is_git_internal(".git/config"));
    assert!(is_git_internal("/repo/.git/logs/HEAD"));
    assert!(is_git_internal("/repo/vendor/dep/.git/COMMIT_EDITMSG"));
    assert!(!is_git_internal("/repo/src/git.rs"));
    assert!(!is_git_internal("/repo/.github/workflows/ci.yml"));
}

#[test]
fn closing_braces_and_comments_do_not_start_a_chunk() {
    assert!(!starts_definition("}"));
    assert!(!starts_definition("// a note"));
    assert!(
        starts_definition("    fn indented() {"),
        "a method is a definition"
    );
    assert!(!starts_definition("    let x = 1;"), "a statement is not");
    assert!(starts_definition("pub fn real() {"));
    assert!(starts_definition("def python_fn():"));
}

#[test]
fn chunks_come_out_in_file_order_and_above_min() {
    let src = "fn a() {\n    1\n}\nfn b() {\n    2\n}\n\n}\nfn c() {\n    3\n}\n";
    let cs = split_file("o.rs", src, 5, 4096);
    let lines: Vec<usize> = cs.iter().map(|c| c.line).collect();
    assert_eq!(lines, vec![1, 4, 9]);
    assert!(cs.iter().all(|c| c.file == "o.rs"));
    assert!(cs.iter().all(|c| c.text.trim().len() >= 5));
    // A window too small once trimmed is dropped.
    let cs = split_file("o.rs", "x\nfn long_enough() {}\n", 10, 4096);
    assert_eq!(cs.len(), 1);
    assert_eq!(cs[0].line, 2);
}

#[test]
fn a_continuation_repeats_the_definition_and_a_marker() {
    let body: String = (0..20).map(|i| format!("    line {i};\n")).collect();
    let src = format!("fn f() {{\n{body}}}\n");
    let cs = split_file("f.rs", &src, 1, 60);
    assert!(cs.len() > 1);
    assert_eq!(cs[0].line, 1);
    assert!(cs[0].text.starts_with("fn f() {\n"));
    for c in &cs[1..] {
        assert!(c.text.starts_with("fn f() {\n    // ...\n"), "{}", c.text);
    }
    // Windows stop once they reach the limit: every window's own lines but
    // the last fit under it.
    for c in &cs[1..] {
        let own: Vec<&str> = c.text.lines().skip(2).collect();
        let before_last: usize = own[..own.len() - 1].iter().map(|l| l.len() + 1).sum();
        assert!(before_last < 60);
    }
}

#[test]
fn heads_skip_blank_lines_and_trailing_space() {
    let c = askgrep::chunk::Chunk {
        file: "h.rs".to_string(),
        line: 1,
        text: "\n  \r\n  fn spaced() {   \r\nbody".to_string(),
    };
    assert_eq!(c.head(), "  fn spaced() {");
    let empty = askgrep::chunk::Chunk { file: String::new(), line: 1, text: " \n\t".to_string() };
    assert_eq!(empty.head(), "");
}

#[test]
fn lines_end_at_line_feeds_and_drop_a_carriage_return() {
    // A file whose last line has no ending still counts that line.
    let cs = split_file("r.rs", "fn a() {}\r\nfn b() {}", 1, 4096);
    assert_eq!(cs.len(), 2);
    assert_eq!(cs[0].text, "fn a() {}");
    assert_eq!(cs[1].text, "fn b() {}");
    assert_eq!(cs[1].line, 2);
    assert!(split_file("e.rs", "", 0, 10).is_empty());
}

#[test]
fn only_files_worth_reading_outside_git_are_chunked() {
    assert!(chunk_file(".git/config", "fn config_like() {}\n", 1, 100).is_empty());
    assert_eq!(chunk_file("src/ok.rs", "fn fine() {}\n", 1, 100).len(), 1);
    let minified = format!("var a={};\n", "1,".repeat(1500));
    assert!(!is_worth_reading(&minified));
    assert!(chunk_file("app.min.js", &minified, 1, 100).is_empty());
    assert!(is_worth_reading(&"x".repeat(2000)));
    assert!(!is_worth_reading(&"x".repeat(2001)));
    // Two-byte characters count twice.
    assert!(!is_worth_reading(&"é".repeat(1001)));
    assert!(is_git_internal(".git"));
    assert!(is_git_internal("a/./.git/x"));
    assert!(!is_git_internal("a/x.git/y"));
    assert!(!is_git_internal(""));
}

#[test]
fn definition_keywords_catch_indented_methods() {
    for line in ["    pub async fn go() {", "\tdef method(self):", "  public void run() {", "    const fn k() {}"] {
        assert!(starts_definition(line), "{line}");
    }
    for line in ["", "   ", "    return x;", "  */", "#[derive(Debug)]", "    ) -> u8 {", "/* c */"] {
        assert!(!starts_definition(line), "{line:?}");
    }
    assert!(starts_definition("x = 1"));
}

#[test]
fn a_final_line_ending_changes_nothing() {
    let a = split_file("a.rs", "fn a() {\n    1\n}", 1, 4096);
    let b = split_file("a.rs", "fn a() {\n    1\n}\n", 1, 4096);
    assert_eq!(a.len(), b.len());
    for (x, y) in a.iter().zip(b.iter()) {
        assert_eq!(x.line, y.line);
        assert_eq!(x.text, y.text);
    }
}
