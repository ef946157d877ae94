use rustpcre::errors::Error;
use rustpcre::pattern::CompiledPattern;
use rustpcre::pattern::MatchResult;

#[test]
fn test_match_basic() {
    let r = CompiledPattern::compile("...").unwrap();
    let m = r.match_subject("abc").unwrap();
    assert!(m.matched());
    assert!(m.substrings().is_empty());
}

#[test]
fn test_match_fail() {
    let r = CompiledPattern::compile("....").unwrap();
    let m = r.match_subject("ab").unwrap();
    assert!(!m.matched());
}

#[test]
fn test_substring() {
    let r = CompiledPattern::compile("(.)bcd(e.g)").unwrap();
    let m = r.match_subject("abcdefg").unwrap();
    assert!(m.matched());
    assert_eq!(m.substring(0).unwrap(), "a");
    assert_eq!(m.substring(1).unwrap(), "efg");
}

#[test]
fn test_named() {
    let r = CompiledPattern::compile("(?<foo>..).(?<bar>..)").unwrap();
    let m = r.match_subject("abcde").unwrap();
    assert!(m.matched());
    assert_eq!(m.named("foo").unwrap(), "ab");
    assert_eq!(m.named("bar").unwrap(), "de");
}

#[test]
fn test_substrings_in_group_order() {
    let r = CompiledPattern::compile("(.)bcd(e.g)").unwrap();
    let m = r.match_subject("abcdefg").unwrap();
    assert!(m.matched());
    assert_eq!(m.substrings(), vec!["a".to_string(), "efg".to_string()]);
}

#[test]
fn test_optional_group_skipped() {
    // The optional middle group does not participate: the result sequence is
    // shorter than the group count and holds no empty placeholder for it.
    let r = CompiledPattern::compile("(a)(x)?(c)").unwrap();
    let m = r.match_subject("ac").unwrap();
    assert!(m.matched());
    assert_eq!(m.substrings(), vec!["a".to_string(), "c".to_string()]);
}

#[test]
fn test_unknown_group_name() {
    let r = CompiledPattern::compile("(?<foo>..)").unwrap();
    let m = r.match_subject("ab").unwrap();
    assert!(m.matched());
    assert_eq!(m.named("nope").unwrap_err(), Error::UnknownGroupName);
}

#[test]
fn test_substring_out_of_range() {
    let r = CompiledPattern::compile("(.)").unwrap();
    let m = r.match_subject("a").unwrap();
    assert!(m.matched());
    assert!(m.substring(0).is_ok());
    assert_eq!(m.substring(1).unwrap_err(), Error::IndexOutOfRange);
}

#[test]
fn test_substring_on_unmatched() {
    let r = CompiledPattern::compile("z").unwrap();
    let m = r.match_subject("a").unwrap();
    assert!(!m.matched());
    assert_eq!(m.substring(0).unwrap_err(), Error::IndexOutOfRange);
}

#[test]
fn test_named_on_unmatched() {
    let r = CompiledPattern::compile("(?<foo>z)").unwrap();
    let m = r.match_subject("a").unwrap();
    assert!(!m.matched());
    assert_eq!(m.named("foo").unwrap_err(), Error::NoMatch);
}

#[test]
fn test_named_group_not_participating() {
    // The named group exists in the pattern but did not take part in this
    // match, so its position lies beyond the extracted sequence.
    let r = CompiledPattern::compile("(?<opt>x)?y").unwrap();
    let m = r.match_subject("y").unwrap();
    assert!(m.matched());
    assert!(m.substrings().is_empty());
    assert_eq!(m.named("opt").unwrap_err(), Error::IndexOutOfRange);
}

#[test]
fn test_compile_error() {
    match CompiledPattern::compile("(unclosed") {
        Err(Error::CompileError { message, offset }) => {
            assert!(!message.is_empty());
            assert!(offset <= "(unclosed".len());
        }
        _ => panic!("a malformed pattern must be rejected with a compile error"),
    }
}

#[test]
fn test_pattern_reused_across_matches() {
    let r = CompiledPattern::compile("(.)(.)").unwrap();
    let first = r.match_subject("ab").unwrap();
    let second = r.match_subject("cd").unwrap();
    assert_eq!(first.substrings(), vec!["a".to_string(), "b".to_string()]);
    assert_eq!(second.substrings(), vec!["c".to_string(), "d".to_string()]);
}

#[test]
fn test_multibyte_subject() {
    // Offsets are byte offsets; the engine reports whole-character spans and
    // extraction copies them out intact.
    let r = CompiledPattern::compile("(\u{e9}.)").unwrap();
    let m = r.match_subject("x\u{e9}y").unwrap();
    assert!(m.matched());
    assert_eq!(m.substring(0).unwrap(), "\u{e9}y");
}

#[test]
fn test_empty_capture_is_skipped() {
    // A group that matches the empty string reports an empty span, which is
    // treated as non-participating and never emitted as an empty string.
    let r = CompiledPattern::compile("(a*)b").unwrap();
    let m = r.match_subject("b").unwrap();
    assert!(m.matched());
    assert!(m.substrings().is_empty());
}

#[test]
fn test_str_eq() {
    assert!(rustpcre::pattern::str_eq("abc", "abc"));
    assert!(!rustpcre::pattern::str_eq("abc", "abd"));
    assert!(!rustpcre::pattern::str_eq("abc", "ab"));
    assert!(rustpcre::pattern::str_eq("", ""));
}

#[test]
fn test_resolve_name() {
    let names = vec![None, Some("x".to_string()), Some("y".to_string())];
    assert_eq!(rustpcre::pattern::resolve_name(&names, "x"), Some(1));
    assert_eq!(rustpcre::pattern::resolve_name(&names, "y"), Some(2));
    assert_eq!(rustpcre::pattern::resolve_name(&names, "z"), None);
}

#[test]
fn test_from_report_no_report_is_unmatched() {
    let p = CompiledPattern::compile("x").unwrap();
    let m = MatchResult::from_report(&p, None, "ab").unwrap();
    assert!(!m.matched());
}

#[test]
fn test_from_report_extracts_pairs() {
    let p = CompiledPattern::compile("x").unwrap();
    let report = Some(vec![Some((0, 2)), Some((0, 1))]);
    let m = MatchResult::from_report(&p, report, "ab").unwrap();
    assert!(m.matched());
    assert_eq!(m.substrings(), vec!["a".to_string()]);
}

#[test]
fn test_from_report_reversed_span_is_extraction_error() {
    let p = CompiledPattern::compile("x").unwrap();
    let report = Some(vec![Some((0, 2)), Some((2, 1))]);
    match MatchResult::from_report(&p, report, "ab") {
        Err(e) => assert_eq!(e, Error::ExtractionError),
        Ok(_) => panic!("a reversed span must be an extraction error"),
    }
}

#[test]
fn test_from_report_split_character_is_extraction_error() {
    let p = CompiledPattern::compile("x").unwrap();
    let report = Some(vec![Some((0, 2)), Some((0, 1))]);
    match MatchResult::from_report(&p, report, "\u{e9}") {
        Err(e) => assert_eq!(e, Error::ExtractionError),
        Ok(_) => panic!("an offset inside a character must be an extraction error"),
    }
}
