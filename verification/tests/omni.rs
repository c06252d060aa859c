use askgrep::context::{file_arg, header_title, hot_count, report};
use askgrep::doctor::condense_agent_report;
use askgrep::pi::{
    collect_omni_sources, contains_omni, find_omni_references, Json, JsonList, PiSettingsSnapshot,
};
use askgrep::dashboard::{request_path, response, response_text, route, Route};
use askgrep::doctor::{format_time_ago_at, mcp_tool_line, DoctorCheck};
use askgrep::flags::{
    aliases, column_rule, flag_entries, flag_name, flag_spec_column, has_any, has_flag, print_flags,
    wants_help,
    HELP_FLAG,
};
use askgrep::goal::{check_goal, run, GoalCommand, GoalError, GOAL_FLAGS};
use askgrep::init::install_halves;

fn args(v: &[&str]) -> Vec<String> {
    v.iter().map(|s| s.to_string()).collect()
}

#[test]
fn a_flag_is_named_with_or_without_a_value() {
    assert_eq!(flag_name("--port=8080"), "--port");
    assert_eq!(flag_name("--port"), "--port");
    assert_eq!(flag_name("=x"), "");
    let a = args(&["omni", "reset", "--openclaw=1"]);
    assert!(has_flag(&a, "--openclaw"));
    assert!(!has_flag(&a, "--open"));
    assert!(has_any(&a, &["--claw", "--openclaw"]));
    assert!(!has_any(&a, &[]));
}

#[test]
fn help_is_asked_for_only_as_the_first_argument() {
    assert!(wants_help(&args(&["omni", "query", "--help"])));
    assert!(wants_help(&args(&["omni", "query", "-h"])));
    assert!(wants_help(&args(&["omni", "query", "help"])));
    assert!(!wants_help(&args(&["omni", "query", "-h=1"])));
    assert!(!wants_help(&args(&["omni", "query", "what", "does", "--help", "do"])));
    assert!(!wants_help(&args(&["omni", "query", "how", "do", "i", "get", "help"])));
    assert!(!wants_help(&args(&["omni", "query", "help=notes.txt"])));
    assert!(!wants_help(&args(&["omni", "--help"])));
}

#[test]
fn the_rule_matches_the_widths() {
    assert_eq!(column_rule(&[3, 1]), "─── ─");
    assert_eq!(column_rule(&[]), "");
    assert_eq!(column_rule(&[0, 2]), " ──");
}

#[test]
fn aliases_drop_placeholders() {
    assert_eq!(aliases("--today, -d"), vec!["--today", "-d"]);
    assert_eq!(aliases("--validate <file.toml>"), vec!["--validate"]);
    assert_eq!(aliases(" , -x"), vec!["-x"]);
}

#[test]
fn the_flag_block_ends_with_help_and_lines_up() {
    let flags = [("--all-commands", "Every command"), ("-d", "Detail")];
    let e = flag_entries(&flags);
    assert_eq!(e.len(), 3);
    assert_eq!(e[2], HELP_FLAG);
    let col = flag_spec_column(&e);
    assert_eq!(col, vec!["--all-commands", "-d            ", "--help, -h    "]);
}

#[test]
fn the_flags_block_prints_as_lines() {
    let flags = [("--all-commands", "Every command"), ("-d", "Detail")];
    assert_eq!(
        print_flags(&flags),
        vec![
            "",
            "FLAGS:",
            "  --all-commands Every command",
            "  -d             Detail",
            "  --help, -h     Show this help message",
        ]
    );
    assert_eq!(print_flags(&[]), vec!["", "FLAGS:", "  --help, -h Show this help message"]);
}

#[test]
fn goal_arguments_pick_the_subcommand() {
    match run(&args(&["set", "  Build", "the", "auth", "module "])) {
        GoalCommand::SetGoal(g) => assert_eq!(g, "Build the auth module"),
        _ => panic!("set"),
    }
    match run(&args(&["build", "the", "auth", "module"])) {
        GoalCommand::SetGoal(g) => assert_eq!(g, "build the auth module"),
        _ => panic!("free text is the goal"),
    }
    assert!(matches!(run(&args(&[])), GoalCommand::Show));
    assert!(matches!(run(&args(&["--status"])), GoalCommand::Show));
    assert!(matches!(run(&args(&["unset"])), GoalCommand::Clear));
    assert!(matches!(run(&args(&["-h"])), GoalCommand::Help));
    match run(&args(&["--nonsense"])) {
        GoalCommand::UnknownFlag(f) => assert_eq!(f, "--nonsense"),
        _ => panic!("a leading unknown flag is refused"),
    }
    match run(&args(&["set", "ship", "with", "--release"])) {
        GoalCommand::SetGoal(g) => assert_eq!(g, "ship with --release"),
        _ => panic!("a flag inside the goal is text"),
    }
    assert_eq!(GOAL_FLAGS.len(), 1);
}

#[test]
fn set_empty_goal_returns_error() {
    assert!(check_goal("hi").is_err());
}

#[test]
fn goals_are_checked_by_trimmed_and_whole_length() {
    assert!(matches!(check_goal("hi"), Err(GoalError::TooShort)));
    assert!(matches!(check_goal("   hi    "), Err(GoalError::TooShort)));
    assert!(check_goal("Build the auth module").is_ok());
    assert!(matches!(check_goal(&"x".repeat(501)), Err(GoalError::TooLong)));
    assert!(check_goal(&"x".repeat(500)).is_ok());
    assert_eq!(
        GoalError::TooShort.message(),
        "Goal is too short. Describe your project objective clearly."
    );
}

#[test]
fn only_get_requests_name_a_path() {
    assert_eq!(request_path("GET /health?x=1 HTTP/1.1\r\n"), "/health");
    assert_eq!(request_path("GET / HTTP/1.1"), "/");
    assert_eq!(request_path("POST / HTTP/1.1"), "/nothing");
    assert_eq!(request_path("DELETE /health HTTP/1.1"), "/nothing");
    assert_eq!(request_path(""), "/");
    assert_eq!(request_path("GET"), "/");
    assert_eq!(request_path("  \r\n"), "/");
    assert!(matches!(route("/"), Route::Page));
    assert!(matches!(route("/health"), Route::Health));
    assert!(matches!(route("/nothing"), Route::NotFound));
    assert_eq!(Route::NotFound.status(), "404 Not Found");
    assert_eq!(Route::Page.content_type(), "text/html; charset=utf-8");
    assert_eq!(
        response_text("200 OK", "text/plain; charset=utf-8", "ok"),
        "HTTP/1.1 200 OK\r\nContent-Type: text/plain; charset=utf-8\r\nContent-Length: 2\r\nConnection: close\r\n\r\nok"
    );
    assert!(response_text("200 OK", "t", "é").contains("Content-Length: 2\r\n"));
}

#[test]
fn the_dashboard_answers_each_path() {
    assert_eq!(
        response("/", "<p>é</p>"),
        "HTTP/1.1 200 OK\r\nContent-Type: text/html; charset=utf-8\r\nContent-Length: 9\r\nConnection: close\r\n\r\n<p>é</p>"
    );
    assert_eq!(
        response("/health", "<p>page</p>"),
        "HTTP/1.1 200 OK\r\nContent-Type: text/plain; charset=utf-8\r\nContent-Length: 2\r\nConnection: close\r\n\r\nok"
    );
    assert_eq!(
        response(&request_path("POST / HTTP/1.1"), "<p>page</p>"),
        "HTTP/1.1 404 Not Found\r\nContent-Type: text/plain; charset=utf-8\r\nContent-Length: 9\r\nConnection: close\r\n\r\nnot found"
    );
}

#[test]
fn time_ago_picks_the_largest_unit() {
    assert_eq!(format_time_ago_at(100, 100), "just now");
    assert_eq!(format_time_ago_at(100, 200), "just now");
    assert_eq!(format_time_ago_at(100, 41), "59 seconds ago");
    assert_eq!(format_time_ago_at(3000, 0), "50 minutes ago");
    assert_eq!(format_time_ago_at(4000, 0), "1 hours ago");
    assert_eq!(format_time_ago_at(86399, 0), "23 hours ago");
    assert_eq!(format_time_ago_at(200000, 0), "2 days ago");
}

#[test]
fn the_mcp_line_names_the_setting() {
    assert_eq!(
        mcp_tool_line("terminal", false, 12, 5),
        "  MCP tools:      5 of 12 advertised to terminal (OMNI_MCP_TOOLS=all restores the rest)"
    );
    assert_eq!(
        mcp_tool_line("cursor", true, 12, 5),
        "  MCP tools:      12 of 12 advertised to cursor (OMNI_MCP_TOOLS=all is set)"
    );
    let c = DoctorCheck::new("binary", true, "omni v1".to_string());
    assert_eq!(c.name, "binary");
}

#[test]
fn naming_one_half_installs_that_half_alone() {
    assert_eq!(install_halves(false, false, true, false), (true, false));
    assert_eq!(install_halves(false, false, false, true), (false, true));
    assert_eq!(install_halves(false, false, false, false), (true, true));
    assert_eq!(install_halves(false, false, true, true), (true, true));
    assert_eq!(install_halves(true, false, true, false), (true, true));
    assert_eq!(install_halves(false, true, false, true), (true, true));
}

#[test]
fn a_condensed_report_counts_what_passed() {
    let report = "\n  Pi:\n   Config:  found [OK]\n   Hooks:   installed [OK]\n\n   Duplicates: 2\n     git:omni\n";
    let (out, hidden) = condense_agent_report("Pi", "full", report, false, 8, 6);
    assert_eq!(hidden, 2);
    assert_eq!(
        out,
        "  Pi      full  2 checks [OK]\n    Duplicates: 2\n      git:omni\n"
    );
    let (out, hidden) = condense_agent_report("Zed", "none", "Zed:\n   Config: missing\n", false, 5, 5);
    assert_eq!(hidden, 0);
    assert_eq!(out, "  Zed  none\n    Config: missing\n");
    let (out, hidden) = condense_agent_report("Pi", "full", "Pi:\n", true, 8, 6);
    assert_eq!(hidden, 0);
    assert_eq!(out, "Pi:\n   Distill tier:   full\n");
    let (out, _) = condense_agent_report("A", "t", "A:\n ok [OK]\n", false, 2, 2);
    assert_eq!(out, "  A t 1 check  [OK]\n");
}

#[test]
fn omni_is_found_in_any_case() {
    assert!(contains_omni("git:github.com/fajarhide/omni"));
    assert!(contains_omni("pi-OMNI"));
    assert!(contains_omni("OmNi"));
    assert!(contains_omni("OMN\u{130}"));
    assert!(!contains_omni("omn"));
    assert!(!contains_omni("o m n i"));
    assert!(!contains_omni(""));
    // Whatever the standard library's lower-casing makes of it.
    for s in ["OMNI", "omnİ", "ÖMNI", "omnı"] {
        assert_eq!(contains_omni(s), s.to_lowercase().contains("omni"), "{s}");
    }
}

#[test]
fn the_hot_lookup_uses_the_path_it_is_given() {
    // The report is written for the path the graph resolved; the session is
    // keyed by that path, so the typed spelling `./src/thing.rs` finds nothing.
    let hot = vec![("src/thing.rs".to_string(), 4u64)];
    assert_eq!(hot_count(Some(&hot), "src/thing.rs"), 4);
    assert_eq!(hot_count(Some(&hot), "./src/thing.rs"), 0);
    assert_eq!(hot_count(None, "src/thing.rs"), 0);
    assert!(report("src/thing.rs", &[], &[], Some(&hot)).contains("Hot in session: yes (4x)"));
}

#[test]
fn the_context_report_names_the_resolved_file() {
    let imports: Vec<String> = (0..10).map(|i| format!("m{i}")).collect();
    let hot = vec![("src/other.rs".to_string(), 9u64), ("src/thing.rs".to_string(), 4u64)];
    let out = report("src/thing.rs", &imports, &[], Some(&hot));
    assert_eq!(
        out,
        "OMNI Context for src/thing.rs\nImports: m0, m1, m2, m3, m4, m5, m6, m7\nImported by: none detected\nHot in session: yes (4x)\n"
    );
    assert!(report("a", &[], &["b".to_string()], None).ends_with("Imported by: b\nHot in session: no\n"));
    assert!(report("a", &[], &[], Some(&hot)).ends_with("Hot in session: no\n"));
    assert_eq!(file_arg(&args(&["omni", "context", "--json", "./src/x.rs"])), Some(3));
    assert_eq!(file_arg(&args(&["omni", "context", "-v"])), None);
    assert_eq!(file_arg(&args(&["omni"])), None);
    assert_eq!(header_title(Some("stats")), "OMNI · stats");
    assert_eq!(header_title(None), "OMNI");
}

fn list(items: Vec<Json>) -> JsonList {
    items
        .into_iter()
        .rev()
        .fold(JsonList::Nil, |tail, v| JsonList::Cons(Box::new(v), Box::new(tail)))
}

fn s(t: &str) -> Json {
    Json::Str(t.to_string())
}

#[test]
fn omni_packages_are_found_at_any_depth() {
    // {"packages": [{"source": "git:github.com/fajarhide/omni"}], "theme": "dark"}
    let settings = Json::Object(list(vec![
        Json::Array(list(vec![Json::Object(list(vec![s("git:github.com/fajarhide/omni")]))])),
        s("dark"),
    ]));
    assert!(find_omni_references(&settings));
    assert_eq!(collect_omni_sources(&settings), vec!["git:github.com/fajarhide/omni"]);
    let plain = Json::Object(list(vec![s("dark"), Json::Scalar]));
    assert!(!find_omni_references(&plain));
    assert!(collect_omni_sources(&plain).is_empty());
}

#[test]
fn the_settings_that_name_omni_are_preferred() {
    let g = Json::Object(list(vec![s("npm:other")]));
    let l = Json::Object(list(vec![Json::Array(list(vec![s("npm:pi-omni"), s("git:OMNI")]))]));
    let snap = PiSettingsSnapshot::from_documents("g".into(), Some(g), "l".into(), Some(l));
    assert_eq!(snap.path, "l");
    assert!(snap.has_omni_package());
    assert_eq!(snap.duplicate_sources(), vec!["npm:pi-omni", "git:OMNI"]);
    let snap = PiSettingsSnapshot::from_documents("g".into(), None, "l".into(), Some(Json::Scalar));
    assert_eq!(snap.path, "g");
    assert!(matches!(snap.json, Some(Json::Scalar)));
    assert!(!snap.has_omni_package());
    let snap = PiSettingsSnapshot::from_documents("g".into(), None, "l".into(), None);
    assert!(snap.json.is_none());
    assert!(snap.duplicate_sources().is_empty());
}

#[test]
fn settings_are_parsed_and_the_one_naming_omni_is_loaded() {
    let global = r#"{"packages": ["npm:other"]}"#;
    let local = r#"{"packages": ["npm:pi-omni", {"source": "git:OMNI", "n": 1}], "x": null}"#;
    let snap = PiSettingsSnapshot::load_from_texts("g".into(), Some(global), "l".into(), Some(local));
    assert_eq!(snap.path, "l");
    assert!(snap.has_omni_package());
    assert_eq!(snap.duplicate_sources(), vec!["npm:pi-omni", "git:OMNI"]);
    // A text serde_json refuses counts as no document.
    let snap = PiSettingsSnapshot::load_from_texts("g".into(), Some("{oops"), "l".into(), Some("[1]"));
    assert_eq!(snap.path, "g");
    assert!(matches!(snap.json, Some(Json::Array(_))));
    assert!(!snap.has_omni_package());
    let snap = PiSettingsSnapshot::load_from_texts("g".into(), None, "l".into(), Some("\"omni\""));
    assert_eq!(snap.path, "l");
    assert!(matches!(&snap.json, Some(Json::Str(t)) if t == "omni"));
    let snap = PiSettingsSnapshot::load_from_texts("g".into(), None, "l".into(), None);
    assert!(snap.json.is_none());
}
