use indexrs::query_trigrams::{
    BranchLiterals, TrigramQuery, extract_literal_trigrams, extract_regex_trigrams, trigrams_from_regex_literals,
};
use indexrs::trigram::{TrigramSet, extract_unique_trigrams_folded};
use indexrs::types::Trigram;

#[test]
fn test_trigram_query_none_is_none() {
    assert!(TrigramQuery::FullScan.is_none());
}

#[test]
fn test_trigram_query_all_is_not_none() {
    let mut set = TrigramSet::new();
    set.insert(Trigram::from_bytes(b'a', b'b', b'c'));
    assert!(!TrigramQuery::All(set).is_none());
}

#[test]
fn test_trigram_query_count_all() {
    let mut set = TrigramSet::new();
    set.insert(Trigram::from_bytes(b'a', b'b', b'c'));
    set.insert(Trigram::from_bytes(b'b', b'c', b'd'));
    assert_eq!(TrigramQuery::All(set).trigram_count(), 2);
}

#[test]
fn test_trigram_query_count_any() {
    let mut s1 = TrigramSet::new();
    s1.insert(Trigram::from_bytes(b'a', b'b', b'c'));
    let mut s2 = TrigramSet::new();
    s2.insert(Trigram::from_bytes(b'x', b'y', b'z'));
    s2.insert(Trigram::from_bytes(b'y', b'z', b'w'));
    assert_eq!(TrigramQuery::Any(vec![s1, s2]).trigram_count(), 3);
}

#[test]
fn test_trigram_query_count_none() {
    assert_eq!(TrigramQuery::FullScan.trigram_count(), 0);
}

#[test]
fn test_extract_literal_trigrams_lowercase() {
    // "httprequest" -> 9 trigrams, all lowercase
    let result = extract_literal_trigrams("httprequest");
    match result {
        TrigramQuery::All(set) => {
            assert_eq!(set.len(), 9);
            assert!(set.contains(&Trigram::from_bytes(b'h', b't', b't')));
            assert!(set.contains(&Trigram::from_bytes(b'e', b's', b't')));
        }
        _ => panic!("expected TrigramQuery::All"),
    }
}

#[test]
fn test_extract_literal_trigrams_mixed_case_folded() {
    // "HttpRequest" -> folded to lowercase trigrams
    let result = extract_literal_trigrams("HttpRequest");
    match result {
        TrigramQuery::All(set) => {
            assert_eq!(set.len(), 9);
            assert!(set.contains(&Trigram::from_bytes(b'h', b't', b't')));
            assert!(set.contains(&Trigram::from_bytes(b'e', b's', b't')));
            assert!(!set.contains(&Trigram::from_bytes(b'H', b't', b't')));
        }
        _ => panic!("expected TrigramQuery::All"),
    }
}

#[test]
fn test_extract_literal_trigrams_short() {
    // "fn" is only 2 chars -> no trigrams -> full scan
    assert_eq!(extract_literal_trigrams("fn"), TrigramQuery::FullScan);
}

#[test]
fn test_extract_literal_trigrams_exact_three() {
    let result = extract_literal_trigrams("abc");
    match result {
        TrigramQuery::All(set) => {
            assert_eq!(set.len(), 1);
            assert!(set.contains(&Trigram::from_bytes(b'a', b'b', b'c')));
        }
        _ => panic!("expected TrigramQuery::All"),
    }
}

#[test]
fn test_extract_literal_trigrams_empty() {
    assert_eq!(extract_literal_trigrams(""), TrigramQuery::FullScan);
}

#[test]
fn test_extract_literal_trigrams_deduplicates() {
    // "aaaa" has trigrams: "aaa", "aaa" -> deduplicated to 1
    let result = extract_literal_trigrams("aaaa");
    match result {
        TrigramQuery::All(set) => assert_eq!(set.len(), 1),
        _ => panic!("expected TrigramQuery::All"),
    }
}

#[test]
fn test_extract_regex_trigrams_simple_literal() {
    let result = extract_regex_trigrams("HttpRequest");
    match result {
        TrigramQuery::All(set) => {
            assert_eq!(set.len(), 9);
            assert!(set.contains(&Trigram::from_bytes(b'h', b't', b't')));
        }
        _ => panic!("expected TrigramQuery::All"),
    }
}

#[test]
fn test_extract_regex_trigrams_with_wildcard() {
    let result = extract_regex_trigrams(r"Err\(.*Error\)");
    match result {
        TrigramQuery::All(set) => {
            assert!(set.len() >= 1);
            assert!(set.contains(&Trigram::from_bytes(b'e', b'r', b'r')));
        }
        _ => panic!("expected TrigramQuery::All, got {:?}", result),
    }
}

#[test]
fn test_extract_regex_trigrams_alternation() {
    let result = extract_regex_trigrams("foo|bar");
    match result {
        TrigramQuery::Any(branches) => {
            assert_eq!(branches.len(), 2);
        }
        TrigramQuery::All(_) | TrigramQuery::FullScan => {}
    }
}

#[test]
fn test_extract_regex_trigrams_pure_wildcard() {
    let result = extract_regex_trigrams(".*");
    assert_eq!(result, TrigramQuery::FullScan);
}

#[test]
fn test_extract_regex_trigrams_short_literal() {
    let result = extract_regex_trigrams("ab");
    assert_eq!(result, TrigramQuery::FullScan);
}

#[test]
fn test_extract_regex_trigrams_invalid_regex() {
    let result = extract_regex_trigrams("(unclosed");
    assert_eq!(result, TrigramQuery::FullScan);
}

fn set_of(trigrams: &[&[u8; 3]]) -> TrigramSet {
    let mut set = TrigramSet::new();
    for t in trigrams {
        set.insert(Trigram::from_bytes(t[0], t[1], t[2]));
    }
    set
}

#[test]
fn trigram_set_insert_reports_novelty() {
    let mut set = TrigramSet::new();
    assert!(set.is_empty());
    assert!(set.insert(Trigram::from_bytes(b'x', b'y', b'z')));
    assert!(!set.insert(Trigram::from_bytes(b'x', b'y', b'z')));
    assert!(set.insert(Trigram::from_bytes(b'a', b'b', b'c')));
    assert_eq!(set.len(), 2);
    assert!(set.contains(&Trigram::from_bytes(b'a', b'b', b'c')));
    assert!(!set.contains(&Trigram::from_bytes(b'a', b'b', b'd')));
}

#[test]
fn trigram_set_lists_members_in_key_order() {
    let set = set_of(&[b"zzz", b"abc", b"mno", b"abc"]);
    let keys: Vec<u32> = set.to_vec().iter().map(|t| t.to_u32()).collect();
    assert_eq!(keys.len(), 3);
    assert!(keys[0] < keys[1] && keys[1] < keys[2]);
    assert_eq!(set.to_vec()[0], Trigram::from_bytes(b'a', b'b', b'c'));
}

#[test]
fn trigram_set_extend_is_union() {
    let mut a = set_of(&[b"abc", b"bcd"]);
    let b = set_of(&[b"bcd", b"cde"]);
    a.extend(&b);
    assert_eq!(a, set_of(&[b"abc", b"bcd", b"cde"]));
    assert_eq!(a.clone(), a);
}

#[test]
fn folded_trigrams_lower_ascii_only() {
    let set = extract_unique_trigrams_folded("ÄBC".as_bytes());
    // The two bytes of 'Ä' stay as they are; only 'B' and 'C' are folded.
    assert!(set.contains(&Trigram::from_bytes(0xc3, 0x84, b'b')));
    assert!(set.contains(&Trigram::from_bytes(0x84, b'b', b'c')));
    assert_eq!(set.len(), 2);
}

#[test]
fn literal_trigrams_ignore_case() {
    assert_eq!(extract_literal_trigrams("HTTPRequest"), extract_literal_trigrams("httprequest"));
}

#[test]
fn literal_trigrams_are_windows_of_bytes() {
    assert_eq!(extract_literal_trigrams("a b c"), TrigramQuery::All(set_of(&[b"a b", b" b ", b"b c"])));
}

#[test]
fn regex_plan_from_literals() {
    let lits = |p: &[&str], s: &[&str]| BranchLiterals {
        prefixes: Some(p.iter().map(|x| x.as_bytes().to_vec()).collect()),
        suffixes: Some(s.iter().map(|x| x.as_bytes().to_vec()).collect()),
    };
    // One branch: the trigrams of its prefix and suffix literals of three bytes or more.
    let one = vec![lits(&["Err"], &["Error)"])];
    assert_eq!(
        trigrams_from_regex_literals(false, &one),
        TrigramQuery::All(set_of(&[b"err", b"rro", b"ror", b"or)"]))
    );
    // Alternative literals only require the trigrams they all share; a short
    // alternative shares none.
    let alts = vec![lits(&["foobaz", "barbaz"], &["Error)", "ab"])];
    assert_eq!(trigrams_from_regex_literals(false, &alts), TrigramQuery::All(set_of(&[b"baz"])));
    // An alternation with a branch without trigrams cannot be pruned.
    let alt = vec![lits(&["foo"], &["foo"]), lits(&["ab"], &["ab"])];
    assert_eq!(trigrams_from_regex_literals(true, &alt), TrigramQuery::FullScan);
    let alt = vec![lits(&["foo"], &["foo"]), lits(&["bar"], &[])];
    assert_eq!(
        trigrams_from_regex_literals(true, &alt),
        TrigramQuery::Any(vec![set_of(&[b"foo"]), set_of(&[b"bar"])])
    );
    // An infinite literal sequence contributes nothing.
    let inf = vec![BranchLiterals { prefixes: None, suffixes: None }];
    assert_eq!(trigrams_from_regex_literals(false, &inf), TrigramQuery::FullScan);
    // A single alternation branch is looked up on its own.
    let single = vec![lits(&["xyz"], &[])];
    assert_eq!(trigrams_from_regex_literals(true, &single), TrigramQuery::All(set_of(&[b"xyz"])));
}

#[test]
fn regex_alternation_gives_one_set_per_branch() {
    assert_eq!(
        extract_regex_trigrams("foo|bar"),
        TrigramQuery::Any(vec![set_of(&[b"foo"]), set_of(&[b"bar"])])
    );
    assert_eq!(extract_regex_trigrams("foo|ab"), TrigramQuery::FullScan);
}

#[test]
fn regex_branches_keep_their_order() {
    assert_eq!(
        extract_regex_trigrams("abc|def|ghi"),
        TrigramQuery::Any(vec![set_of(&[b"abc"]), set_of(&[b"def"]), set_of(&[b"ghi"])])
    );
    assert_eq!(
        extract_regex_trigrams("foo|barbaz"),
        TrigramQuery::Any(vec![set_of(&[b"foo"]), set_of(&[b"bar", b"arb", b"rba", b"baz"])])
    );
}

#[test]
fn parse_needs_par_ars_rse() {
    assert_eq!(extract_literal_trigrams("parse"), TrigramQuery::All(set_of(&[b"par", b"ars", b"rse"])));
}

#[test]
fn regex_alternatives_inside_require_only_shared_trigrams() {
    match extract_regex_trigrams("(foo|bar)baz") {
        TrigramQuery::All(set) => {
            assert!(set.contains(&Trigram::from_bytes(b'b', b'a', b'z')));
            assert!(!set.contains(&Trigram::from_bytes(b'f', b'o', b'o')));
            assert!(!set.contains(&Trigram::from_bytes(b'b', b'a', b'r')));
        }
        other => panic!("expected TrigramQuery::All, got {:?}", other),
    }
}

#[test]
fn trigram_count_counts_shared_trigrams_once() {
    let q = TrigramQuery::Any(vec![set_of(&[b"abc"]), set_of(&[b"abc", b"bcd"])]);
    assert_eq!(q.trigram_count(), 2);
}
