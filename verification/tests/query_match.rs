use indexrs::query::{LiteralQuery, PhraseQuery, Query, RegexQuery};
use indexrs::query_match::QueryMatcher;
use indexrs::types::Language;

fn lit(text: &str) -> Query {
    Query::Literal(LiteralQuery { text: text.to_string(), case_sensitive: false })
}

#[test]
fn test_literal_match() {
    let query = Query::Literal(LiteralQuery { text: "hello".to_string(), case_sensitive: false });
    let matcher = QueryMatcher::new(&query, 0);
    let content = b"say hello world\n";
    let result = matcher.matches(content);
    assert!(result.is_some());
    let lines = result.unwrap();
    assert_eq!(lines.len(), 1);
    assert_eq!(lines[0].line_number, 1);
    assert!(lines[0].content.contains("hello"));
}

#[test]
fn test_literal_no_match() {
    let query = Query::Literal(LiteralQuery { text: "foobar".to_string(), case_sensitive: false });
    let matcher = QueryMatcher::new(&query, 0);
    let content = b"nothing relevant here\n";
    let result = matcher.matches(content);
    assert!(result.is_none());
}

#[test]
fn test_and_both_match() {
    let query = Query::And(vec![
        Query::Literal(LiteralQuery { text: "hello".to_string(), case_sensitive: false }),
        Query::Literal(LiteralQuery { text: "world".to_string(), case_sensitive: false }),
    ]);
    let matcher = QueryMatcher::new(&query, 0);
    let content = b"hello there\nworld here\n";
    let result = matcher.matches(content);
    assert!(result.is_some());
    let lines = result.unwrap();
    assert_eq!(lines.len(), 2);
}

#[test]
fn test_and_one_missing() {
    let query = Query::And(vec![
        Query::Literal(LiteralQuery { text: "hello".to_string(), case_sensitive: false }),
        Query::Literal(LiteralQuery { text: "nonexistent".to_string(), case_sensitive: false }),
    ]);
    let matcher = QueryMatcher::new(&query, 0);
    let content = b"hello there\n";
    let result = matcher.matches(content);
    assert!(result.is_none());
}

#[test]
fn test_or_one_matches() {
    let query = Query::Or(
        Box::new(Query::Literal(LiteralQuery { text: "hello".to_string(), case_sensitive: false })),
        Box::new(Query::Literal(LiteralQuery { text: "nonexistent".to_string(), case_sensitive: false })),
    );
    let matcher = QueryMatcher::new(&query, 0);
    let content = b"hello there\n";
    let result = matcher.matches(content);
    assert!(result.is_some());
    let lines = result.unwrap();
    assert_eq!(lines.len(), 1);
    assert!(lines[0].content.contains("hello"));
}

#[test]
fn test_or_neither_matches() {
    let query = Query::Or(
        Box::new(Query::Literal(LiteralQuery { text: "nonexistent".to_string(), case_sensitive: false })),
        Box::new(Query::Literal(LiteralQuery { text: "alsonothere".to_string(), case_sensitive: false })),
    );
    let matcher = QueryMatcher::new(&query, 0);
    let content = b"hello world\n";
    let result = matcher.matches(content);
    assert!(result.is_none());
}

#[test]
fn test_not_excludes() {
    let query = Query::Not(Box::new(Query::Literal(LiteralQuery {
        text: "hello".to_string(),
        case_sensitive: false,
    })));
    let matcher = QueryMatcher::new(&query, 0);
    let content = b"hello world\n";
    let result = matcher.matches(content);
    assert!(result.is_none());
}

#[test]
fn test_not_includes() {
    let query = Query::Not(Box::new(Query::Literal(LiteralQuery {
        text: "nonexistent".to_string(),
        case_sensitive: false,
    })));
    let matcher = QueryMatcher::new(&query, 0);
    let content = b"hello world\n";
    let result = matcher.matches(content);
    assert!(result.is_some());
    assert!(result.unwrap().is_empty());
}

#[test]
fn test_regex_match() {
    let query = Query::Regex(RegexQuery { pattern: r"fn\s+\w+".to_string(), case_sensitive: true });
    let matcher = QueryMatcher::new(&query, 0);
    let content = b"fn main() {}\nlet x = 1;\n";
    let result = matcher.matches(content);
    assert!(result.is_some());
    let lines = result.unwrap();
    assert_eq!(lines.len(), 1);
    assert_eq!(lines[0].line_number, 1);
}

#[test]
fn test_phrase_match() {
    let query = Query::Phrase(PhraseQuery { text: "hello world".to_string(), case_sensitive: false });
    let matcher = QueryMatcher::new(&query, 0);
    let content = b"say Hello World to all\n";
    let result = matcher.matches(content);
    assert!(result.is_some());
    let lines = result.unwrap();
    assert_eq!(lines.len(), 1);
    assert!(lines[0].content.contains("Hello World"));
}

#[test]
fn test_language_filter_passes_through() {
    let query = Query::LanguageFilter(Language::Rust);
    let matcher = QueryMatcher::new(&query, 0);
    let content = b"fn main() {}\n";
    let result = matcher.matches(content);
    assert!(result.is_some());
    assert!(result.unwrap().is_empty());
}

#[test]
fn test_context_lines_literal() {
    let query = Query::Literal(LiteralQuery { text: "MATCH".to_string(), case_sensitive: false });
    let matcher = QueryMatcher::new(&query, 2);
    let content = b"line 1\nline 2\nline 3\nMATCH here\nline 5\nline 6\nline 7\n";
    let result = matcher.matches(content);
    assert!(result.is_some());
    let lines = result.unwrap();
    assert_eq!(lines.len(), 1);
    assert_eq!(lines[0].line_number, 4);
    assert_eq!(lines[0].context_before.len(), 2);
    assert_eq!(lines[0].context_before[0].line_number, 2);
    assert_eq!(lines[0].context_before[1].line_number, 3);
    assert_eq!(lines[0].context_after.len(), 2);
    assert_eq!(lines[0].context_after[0].line_number, 5);
    assert_eq!(lines[0].context_after[1].line_number, 6);
}

#[test]
fn test_context_lines_merges_nearby() {
    let query = Query::Literal(LiteralQuery { text: "MATCH".to_string(), case_sensitive: false });
    let matcher = QueryMatcher::new(&query, 1);
    let content = b"line 1\nMATCH1\nline 3\nMATCH2\nline 5\n";
    let result = matcher.matches(content);
    assert!(result.is_some());
    let lines = result.unwrap();
    assert_eq!(lines.len(), 2);
    assert_eq!(lines[0].context_before.len(), 1);
    assert_eq!(lines[0].context_before[0].line_number, 1);
    assert!(lines[0].context_after.is_empty());
    assert!(lines[1].context_before.is_empty());
    assert_eq!(lines[1].context_after.len(), 1);
    assert_eq!(lines[1].context_after[0].line_number, 5);
}

#[test]
fn test_context_lines_zero() {
    let query = Query::Literal(LiteralQuery { text: "hello".to_string(), case_sensitive: false });
    let matcher = QueryMatcher::new(&query, 0);
    let content = b"line 1\nhello world\nline 3\n";
    let result = matcher.matches(content);
    assert!(result.is_some());
    let lines = result.unwrap();
    assert_eq!(lines.len(), 1);
    assert!(lines[0].context_before.is_empty());
    assert!(lines[0].context_after.is_empty());
}

#[test]
fn test_complex_and_or_not() {
    // (println OR eprintln) AND NOT deprecated
    let query = Query::And(vec![
        Query::Or(
            Box::new(Query::Literal(LiteralQuery { text: "println".to_string(), case_sensitive: false })),
            Box::new(Query::Literal(LiteralQuery { text: "eprintln".to_string(), case_sensitive: false })),
        ),
        Query::Not(Box::new(Query::Literal(LiteralQuery {
            text: "deprecated".to_string(),
            case_sensitive: false,
        }))),
    ]);
    let matcher = QueryMatcher::new(&query, 0);

    let content1 = b"fn main() {\n    println!(\"hi\");\n}\n";
    let result1 = matcher.matches(content1);
    assert!(result1.is_some());

    let content2 = b"// deprecated\neprintln!(\"error\");\n";
    let result2 = matcher.matches(content2);
    assert!(result2.is_none());

    let content3 = b"fn helper() {}\n";
    let result3 = matcher.matches(content3);
    assert!(result3.is_none());
}

#[test]
fn literal_ranges_are_byte_offsets_within_line() {
    let query = lit("foo");
    let matcher = QueryMatcher::new(&query, 0);
    let lines = matcher.matches(b"xx\nafoo FOO foo\n").unwrap();
    assert_eq!(lines.len(), 1);
    assert_eq!(lines[0].line_number, 2);
    assert_eq!(lines[0].content, "afoo FOO foo");
    assert_eq!(lines[0].ranges, vec![(1, 4), (5, 8), (9, 12)]);
}

#[test]
fn case_sensitive_literal_skips_other_case() {
    let query = Query::Literal(LiteralQuery { text: "Foo".to_string(), case_sensitive: true });
    let matcher = QueryMatcher::new(&query, 0);
    assert!(matcher.matches(b"foo\nFOO\n").is_none());
    let lines = matcher.matches(b"foo\nFoo\n").unwrap();
    assert_eq!(lines.len(), 1);
    assert_eq!(lines[0].line_number, 2);
    assert_eq!(lines[0].ranges, vec![(0, 3)]);
}

#[test]
fn empty_literal_matches_nothing() {
    let query = lit("");
    let matcher = QueryMatcher::new(&query, 0);
    assert!(matcher.matches(b"anything\n").is_none());
}

#[test]
fn empty_content_matches_no_literal() {
    let query = lit("a");
    let matcher = QueryMatcher::new(&query, 3);
    assert!(matcher.matches(b"").is_none());
}

#[test]
fn crlf_line_endings_are_stripped() {
    let query = lit("two");
    let matcher = QueryMatcher::new(&query, 1);
    let lines = matcher.matches(b"one\r\ntwo\r\nthree\r\n").unwrap();
    assert_eq!(lines.len(), 1);
    assert_eq!(lines[0].content, "two");
    assert_eq!(lines[0].context_before[0].content, "one");
    assert_eq!(lines[0].context_after[0].content, "three");
}

#[test]
fn last_line_without_newline_is_searched() {
    let query = lit("tail");
    let matcher = QueryMatcher::new(&query, 0);
    let lines = matcher.matches(b"head\ntail").unwrap();
    assert_eq!(lines.len(), 1);
    assert_eq!(lines[0].line_number, 2);
    assert_eq!(lines[0].content, "tail");
}

#[test]
fn invalid_utf8_line_has_empty_text() {
    let query = lit("ab");
    let matcher = QueryMatcher::new(&query, 0);
    let lines = matcher.matches(b"ab\xff\n").unwrap();
    assert_eq!(lines.len(), 1);
    assert_eq!(lines[0].content, "");
    assert_eq!(lines[0].ranges, vec![(0, 2)]);
}

#[test]
fn invalid_regex_matches_nothing() {
    let query = Query::Regex(RegexQuery { pattern: "(unclosed".to_string(), case_sensitive: true });
    let matcher = QueryMatcher::new(&query, 0);
    assert!(matcher.matches(b"(unclosed\n").is_none());
}

#[test]
fn case_insensitive_regex_gets_flag() {
    let insensitive = Query::Regex(RegexQuery { pattern: "HELLO".to_string(), case_sensitive: false });
    let lines = QueryMatcher::new(&insensitive, 0).matches(b"say hello\n").unwrap();
    assert_eq!(lines[0].ranges, vec![(4, 9)]);
    let sensitive = Query::Regex(RegexQuery { pattern: "HELLO".to_string(), case_sensitive: true });
    assert!(QueryMatcher::new(&sensitive, 0).matches(b"say hello\n").is_none());
}

#[test]
fn path_filter_passes_through() {
    let query = Query::PathFilter("src/".to_string());
    let result = QueryMatcher::new(&query, 2).matches(b"x\n");
    assert_eq!(result.map(|v| v.len()), Some(0));
}

#[test]
fn double_negation_matches_like_operand() {
    let query = Query::Not(Box::new(Query::Not(Box::new(lit("hello")))));
    let matcher = QueryMatcher::new(&query, 0);
    let hit = matcher.matches(b"hello\n");
    assert!(hit.is_some());
    assert!(hit.unwrap().is_empty());
    assert!(matcher.matches(b"bye\n").is_none());
}

#[test]
fn or_merges_lines_in_order_without_duplicates() {
    let query = Query::Or(Box::new(lit("b")), Box::new(lit("a")));
    let lines = QueryMatcher::new(&query, 0).matches(b"a\nb\nab\nc\n").unwrap();
    let numbers: Vec<u32> = lines.iter().map(|l| l.line_number).collect();
    assert_eq!(numbers, vec![1, 2, 3]);
    // Line 3 keeps the ranges of the left operand.
    assert_eq!(lines[2].ranges, vec![(1, 2)]);
}

#[test]
fn and_reports_lines_of_every_child() {
    let query = Query::And(vec![lit("x"), lit("y"), Query::LanguageFilter(Language::Go)]);
    let lines = QueryMatcher::new(&query, 0).matches(b"y\nz\nx\n").unwrap();
    let numbers: Vec<u32> = lines.iter().map(|l| l.line_number).collect();
    assert_eq!(numbers, vec![1, 3]);
}

#[test]
fn empty_and_matches_everything() {
    let query = Query::And(vec![]);
    let result = QueryMatcher::new(&query, 0).matches(b"anything\n");
    assert_eq!(result.map(|v| v.len()), Some(0));
}

#[test]
fn context_is_clamped_to_file_bounds() {
    let query = lit("first");
    let lines = QueryMatcher::new(&query, 5).matches(b"first\nsecond\n").unwrap();
    assert_eq!(lines.len(), 1);
    assert!(lines[0].context_before.is_empty());
    assert_eq!(lines[0].context_after.len(), 1);
    assert_eq!(lines[0].context_after[0].line_number, 2);
    assert_eq!(lines[0].context_after[0].content, "second");
}

#[test]
fn distant_matches_form_separate_groups() {
    let query = lit("m");
    let content = b"m\n.\n.\n.\nm\n";
    let lines = QueryMatcher::new(&query, 1).matches(content).unwrap();
    assert_eq!(lines.len(), 2);
    // 5 - 1 = 4 > 2 * 1 + 1, so both matches get both sides.
    assert_eq!(lines[0].context_after.len(), 1);
    assert_eq!(lines[1].context_before.len(), 1);
    assert_eq!(lines[1].context_before[0].line_number, 4);
}

#[test]
fn context_does_not_change_matches() {
    let query = Query::Or(Box::new(lit("a")), Box::new(lit("c")));
    let content = b"a\nb\nc\nd\n";
    let plain = QueryMatcher::new(&query, 0).matches(content).unwrap();
    let wide = QueryMatcher::new(&query, 3).matches(content).unwrap();
    assert_eq!(plain.len(), wide.len());
    for (p, w) in plain.iter().zip(wide.iter()) {
        assert_eq!(p.line_number, w.line_number);
        assert_eq!(p.content, w.content);
        assert_eq!(p.ranges, w.ranges);
    }
}
