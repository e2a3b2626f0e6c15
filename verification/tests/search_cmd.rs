use indexrs::error::IndexError;
use indexrs::query::{LiteralQuery, Query, RegexQuery};
use indexrs::search::{LineMatch, MatchPattern};
use indexrs::search_cmd::{
    filter_files, flags_to_query, language_filter_allows, match_column, match_language, output_lines, pattern_for_flags,
    resolve_match_pattern, run_query_search, run_search, run_search_streaming,
    str_eq_ignore_ascii_case, stream_step, vimgrep_line, ExitCode, FileMatch, PathGlob, SearchCmdOptions, StreamAction,
    StreamEvent, StreamState,
};
use indexrs::types::Language;

#[test]
fn test_resolve_match_pattern_literal() {
    let pattern = resolve_match_pattern("hello", false, false, true, false);
    assert!(matches!(pattern, MatchPattern::LiteralCaseInsensitive(_)));
}

#[test]
fn test_resolve_match_pattern_case_sensitive() {
    let pattern = resolve_match_pattern("hello", false, true, false, false);
    assert!(matches!(pattern, MatchPattern::Literal(_)));
}

#[test]
fn test_resolve_match_pattern_regex() {
    let pattern = resolve_match_pattern("fn\\s+", true, false, false, false);
    assert!(matches!(pattern, MatchPattern::Regex(_)));
}

#[test]
fn test_resolve_match_pattern_smart_case_lower() {
    let pattern = resolve_match_pattern("hello", false, false, false, true);
    assert!(matches!(pattern, MatchPattern::LiteralCaseInsensitive(_)));
}

#[test]
fn test_resolve_match_pattern_smart_case_upper() {
    let pattern = resolve_match_pattern("Hello", false, false, false, true);
    assert!(matches!(pattern, MatchPattern::Literal(_)));
}

#[test]
fn test_flags_to_query_case_insensitive() {
    let pattern = MatchPattern::LiteralCaseInsensitive("hello".to_string());
    let query = flags_to_query(&pattern, None).unwrap();
    assert_eq!(query, Query::Literal(LiteralQuery { text: "hello".to_string(), case_sensitive: false }));
}

#[test]
fn test_flags_to_query_case_sensitive() {
    let pattern = MatchPattern::Literal("Hello".to_string());
    let query = flags_to_query(&pattern, None).unwrap();
    assert_eq!(query, Query::Literal(LiteralQuery { text: "Hello".to_string(), case_sensitive: true }));
}

#[test]
fn test_flags_to_query_regex() {
    let pattern = MatchPattern::Regex("fn\\s+".to_string());
    let query = flags_to_query(&pattern, None).unwrap();
    assert_eq!(query, Query::Regex(RegexQuery { pattern: "fn\\s+".to_string(), case_sensitive: true }));
}

#[test]
fn test_flags_to_query_with_language() {
    let pattern = MatchPattern::LiteralCaseInsensitive("println".to_string());
    let query = flags_to_query(&pattern, Some("rust")).unwrap();
    if let Query::And(children) = &query {
        assert_eq!(children.len(), 2);
        assert!(matches!(children[0], Query::LanguageFilter(_)));
    } else {
        panic!("expected And, got {query:?}");
    }
}

#[test]
fn test_flags_to_query_unknown_language() {
    let pattern = MatchPattern::LiteralCaseInsensitive("hello".to_string());
    assert!(flags_to_query(&pattern, Some("brainfuck")).is_err());
}

#[test]
fn resolve_keeps_query_text() {
    assert_eq!(
        resolve_match_pattern("Hello", false, false, false, true),
        MatchPattern::Literal("Hello".to_string())
    );
    assert_eq!(
        resolve_match_pattern("Hello", false, false, true, true),
        MatchPattern::LiteralCaseInsensitive("Hello".to_string())
    );
    assert_eq!(
        resolve_match_pattern("Hello", true, true, true, true),
        MatchPattern::Regex("Hello".to_string())
    );
}

#[test]
fn smart_case_is_the_default() {
    // No flag at all behaves like smart case.
    assert_eq!(resolve_match_pattern("abc", false, false, false, false), MatchPattern::LiteralCaseInsensitive("abc".to_string()));
    assert_eq!(resolve_match_pattern("aBc", false, false, false, false), MatchPattern::Literal("aBc".to_string()));
}

#[test]
fn smart_case_sees_non_ascii_uppercase() {
    assert_eq!(resolve_match_pattern("Ärger", false, false, false, true), MatchPattern::Literal("Ärger".to_string()));
    assert_eq!(resolve_match_pattern("ärger", false, false, false, true), MatchPattern::LiteralCaseInsensitive("ärger".to_string()));
}

#[test]
fn pattern_for_flags_uses_given_case_answer() {
    assert_eq!(pattern_for_flags("abc", false, false, false, true, true), MatchPattern::Literal("abc".to_string()));
    assert_eq!(pattern_for_flags("ABC", false, false, false, true, false), MatchPattern::LiteralCaseInsensitive("ABC".to_string()));
}

#[test]
fn flags_to_query_with_language_holds_filter_then_leaf() {
    let pattern = MatchPattern::Literal("x".to_string());
    let query = flags_to_query(&pattern, Some("PY")).unwrap();
    assert_eq!(
        query,
        Query::And(vec![
            Query::LanguageFilter(Language::Python),
            Query::Literal(LiteralQuery { text: "x".to_string(), case_sensitive: true }),
        ])
    );
}

#[test]
fn unknown_language_error_names_the_language() {
    let pattern = MatchPattern::Regex("a".to_string());
    assert_eq!(
        flags_to_query(&pattern, Some("brainfuck")),
        Err(IndexError::UnknownLanguage("brainfuck".to_string()))
    );
}

#[test]
fn match_language_accepts_names_and_extensions() {
    assert_eq!(match_language("rust"), Ok(Language::Rust));
    assert_eq!(match_language("RS"), Ok(Language::Rust));
    assert_eq!(match_language("Python"), Ok(Language::Python));
    assert_eq!(match_language("tsx"), Ok(Language::TypeScript));
    assert_eq!(match_language("mjs"), Ok(Language::JavaScript));
    assert_eq!(match_language("go"), Ok(Language::Go));
    assert_eq!(match_language("h"), Ok(Language::C));
    assert_eq!(match_language("C++"), Ok(Language::Cpp));
    assert_eq!(match_language("java"), Ok(Language::Java));
    assert_eq!(match_language("rb"), Ok(Language::Ruby));
    assert_eq!(match_language("bash"), Ok(Language::Shell));
    assert_eq!(match_language("md"), Ok(Language::Markdown));
    assert_eq!(match_language(""), Err(IndexError::UnknownLanguage(String::new())));
    assert_eq!(match_language("unknown"), Err(IndexError::UnknownLanguage("unknown".to_string())));
}

#[test]
fn ascii_case_insensitive_equality() {
    assert!(str_eq_ignore_ascii_case("Rust", "rUST"));
    assert!(!str_eq_ignore_ascii_case("rust", "rusty"));
    assert!(!str_eq_ignore_ascii_case("Ä", "ä"));
}

#[test]
fn language_filter_compares_display_name() {
    assert!(language_filter_allows(Language::Rust, None));
    assert!(language_filter_allows(Language::Rust, Some("rust")));
    assert!(language_filter_allows(Language::Cpp, Some("c++")));
    assert!(!language_filter_allows(Language::Rust, Some("rs")));
    assert!(!language_filter_allows(Language::Python, Some("rust")));
}

fn file(path: &str, language: Language) -> FileMatch {
    FileMatch { path: path.to_string(), display_path: path.to_string(), language, lines: vec![] }
}

#[test]
fn filter_files_by_language() {
    let files = vec![file("a.rs", Language::Rust), file("b.py", Language::Python), file("c.rs", Language::Rust)];
    let kept = filter_files(files, None, Some("Rust")).unwrap();
    let paths: Vec<&str> = kept.iter().map(|f| f.path.as_str()).collect();
    assert_eq!(paths, vec!["a.rs", "c.rs"]);
}

#[test]
fn filter_files_by_glob() {
    let files = vec![
        file("src/main.rs", Language::Rust),
        file("README.md", Language::Markdown),
        file("src/util.py", Language::Python),
    ];
    let kept = filter_files(files, Some("src/*"), None).unwrap();
    let paths: Vec<&str> = kept.iter().map(|f| f.path.as_str()).collect();
    assert_eq!(paths, vec!["src/main.rs", "src/util.py"]);
}

#[test]
fn filter_files_without_filters_keeps_all() {
    let files = vec![file("x", Language::Unknown), file("y", Language::Go)];
    assert_eq!(filter_files(files, None, None).unwrap().len(), 2);
}

#[test]
fn filter_files_rejects_invalid_glob() {
    let files = vec![file("x", Language::Unknown)];
    assert_eq!(filter_files(files, Some("a[b"), None).err(), Some(IndexError::InvalidPathGlob("a[b".to_string())));
}

#[test]
fn path_glob_compiles_and_matches() {
    let glob = PathGlob::new("*.rs").ok().unwrap();
    assert!(glob.is_match("main.rs"));
    assert!(!glob.is_match("main.py"));
    assert!(PathGlob::new("{a").is_err());
}

#[test]
fn column_is_one_past_first_range_start() {
    let mut line = LineMatch {
        line_number: 3,
        content: "  foo".to_string(),
        ranges: vec![(2, 5), (7, 9)],
        context_before: vec![],
        context_after: vec![],
    };
    assert_eq!(match_column(&line), 3);
    line.ranges.clear();
    assert_eq!(match_column(&line), 1);
}


fn hit(line_number: u32, content: &str, start: usize) -> LineMatch {
    LineMatch {
        line_number,
        content: content.to_string(),
        ranges: vec![(start, start + 1)],
        context_before: vec![],
        context_after: vec![],
    }
}

fn file_with(path: &str, language: Language, lines: Vec<LineMatch>) -> FileMatch {
    FileMatch { path: path.to_string(), display_path: path.to_string(), language, lines }
}

fn options(language: Option<&str>, path_glob: Option<&str>) -> SearchCmdOptions {
    SearchCmdOptions {
        pattern: MatchPattern::LiteralCaseInsensitive("println".to_string()),
        context_lines: 0,
        limit: 1000,
        language: language.map(|s| s.to_string()),
        path_glob: path_glob.map(|s| s.to_string()),
        stats: false,
    }
}

fn sample_files() -> Vec<FileMatch> {
    vec![
        file_with("src/main.rs", Language::Rust, vec![hit(2, "    println!(\"hello world\");", 4)]),
        file_with("tools/gen.py", Language::Python, vec![hit(1, "print(1)", 0), hit(12, "x = 1", 4)]),
    ]
}

#[test]
fn vimgrep_line_has_path_line_column_content() {
    let line = hit(2, "    println!(\"hi\");", 4);
    assert_eq!(vimgrep_line("src/main.rs", &line), "src/main.rs:2:5:    println!(\"hi\");");
    let mut bare = hit(10, "text", 0);
    bare.ranges.clear();
    assert_eq!(vimgrep_line("a", &bare), "a:10:1:text");
}

#[test]
fn output_lines_go_file_after_file() {
    let lines = output_lines(&sample_files());
    assert_eq!(
        lines,
        vec![
            "src/main.rs:2:5:    println!(\"hello world\");".to_string(),
            "tools/gen.py:1:1:print(1)".to_string(),
            "tools/gen.py:12:5:x = 1".to_string(),
        ]
    );
}

#[test]
fn run_search_prints_vimgrep_lines() {
    let out = run_search(sample_files(), &options(None, None)).ok().unwrap();
    assert_eq!(out.exit, ExitCode::Success);
    assert_eq!(out.lines.len(), 3);
    assert!(out.lines[0].starts_with("src/main.rs:2:"));
    assert!(out.lines[0].contains("println"));
}

#[test]
fn run_search_without_files_ends_with_no_results() {
    let out = run_search(vec![], &options(None, Some("a[b"))).ok().unwrap();
    assert_eq!(out.exit, ExitCode::NoResults);
    assert!(out.lines.is_empty());
}

#[test]
fn run_search_filters_by_language_and_glob() {
    let out = run_search(sample_files(), &options(Some("python"), None)).ok().unwrap();
    assert_eq!(out.lines, vec!["tools/gen.py:1:1:print(1)".to_string(), "tools/gen.py:12:5:x = 1".to_string()]);
    let out = run_search(sample_files(), &options(None, Some("src/*"))).ok().unwrap();
    assert_eq!(out.lines.len(), 1);
    // Everything filtered out ends with no results.
    let out = run_search(sample_files(), &options(Some("go"), None)).ok().unwrap();
    assert_eq!(out.exit, ExitCode::NoResults);
    assert!(out.lines.is_empty());
}

#[test]
fn run_search_rejects_invalid_glob() {
    let err = run_search(sample_files(), &options(None, Some("a[b"))).err();
    assert_eq!(err, Some(IndexError::InvalidPathGlob("a[b".to_string())));
}

#[test]
fn run_search_streaming_checks_glob_first() {
    let err = run_search_streaming(vec![], &options(Some("brainfuck"), Some("a[b"))).err();
    assert_eq!(err, Some(IndexError::InvalidPathGlob("a[b".to_string())));
    let err = run_search_streaming(vec![], &options(Some("brainfuck"), None)).err();
    assert_eq!(err, Some(IndexError::UnknownLanguage("brainfuck".to_string())));
}

#[test]
fn run_search_streaming_exit_follows_glob() {
    let out = run_search_streaming(sample_files(), &options(Some("rust"), Some("tools/*"))).ok().unwrap();
    assert_eq!(out.exit, ExitCode::Success);
    assert_eq!(out.lines.len(), 2);
    let out = run_search_streaming(sample_files(), &options(None, Some("docs/*"))).ok().unwrap();
    assert_eq!(out.exit, ExitCode::NoResults);
    assert!(out.lines.is_empty());
}

#[test]
fn run_query_search_prints_every_file() {
    let out = run_query_search(&sample_files());
    assert_eq!(out.exit, ExitCode::Success);
    assert_eq!(out.lines.len(), 3);
    let out = run_query_search(&vec![]);
    assert_eq!(out.exit, ExitCode::NoResults);
    assert!(out.lines.is_empty());
}

#[test]
fn glob_sees_repository_path_output_shows_display_path() {
    let mut f = file_with("src/main.rs", Language::Rust, vec![hit(2, "fn main() {}", 0)]);
    f.display_path = "main.rs".to_string();
    let out = run_search(vec![f], &options(None, Some("src/*"))).ok().unwrap();
    assert_eq!(out.exit, ExitCode::Success);
    assert_eq!(out.lines, vec!["main.rs:2:1:fn main() {}".to_string()]);
}

fn written(action: &StreamAction) -> Option<String> {
    match action {
        StreamAction::Write(line) => Some(line.clone()),
        _ => None,
    }
}

#[test]
fn streaming_writer_steps() {
    let files = sample_files();
    let mut it = files.into_iter();
    let state = StreamState { pending: vec![], has_results: false };
    // A file that fails the glob is skipped.
    let (state, action) = stream_step(state, StreamEvent::File { file: it.next().unwrap(), passes_glob: false });
    assert!(matches!(action, StreamAction::AwaitFile));
    assert!(!state.has_results);
    // A passing file's lines are written one by one.
    let (state, action) = stream_step(state, StreamEvent::File { file: it.next().unwrap(), passes_glob: true });
    assert_eq!(written(&action), Some("tools/gen.py:1:1:print(1)".to_string()));
    let (state, action) = stream_step(state, StreamEvent::Written(true));
    assert_eq!(written(&action), Some("tools/gen.py:12:5:x = 1".to_string()));
    let (state, action) = stream_step(state, StreamEvent::Written(true));
    assert!(matches!(action, StreamAction::AwaitFile));
    let (_, action) = stream_step(state, StreamEvent::Finished);
    assert!(matches!(action, StreamAction::Exit(ExitCode::Success)));
}

#[test]
fn streaming_writer_drops_file_after_failed_write() {
    let file = sample_files().pop().unwrap();
    let state = StreamState { pending: vec![], has_results: false };
    let (state, action) = stream_step(state, StreamEvent::File { file, passes_glob: true });
    assert!(written(&action).is_some());
    let (state, action) = stream_step(state, StreamEvent::Written(false));
    assert!(matches!(action, StreamAction::AwaitFile));
    assert!(state.pending.is_empty());
    let (_, action) = stream_step(state, StreamEvent::Finished);
    assert!(matches!(action, StreamAction::Exit(ExitCode::Success)));
    let (_, action) = stream_step(StreamState { pending: vec![], has_results: false }, StreamEvent::Finished);
    assert!(matches!(action, StreamAction::Exit(ExitCode::NoResults)));
}
