use re_bridge::error::{Error, Failure, Position, Span};
use re_bridge::flags::Flags;
use re_bridge::{
    collect_matches, re_build, re_find, re_find_impl, re_replace, re_replace_impl,
    re_replace_list, re_replace_list_impl, try_re_find, try_re_replace, try_re_replace_list, CapSer,
    MatchSer, Replacement,
};

fn cap(
    group_name: Option<&str>,
    match_num: usize,
    group_num: usize,
    content: &str,
    start: usize,
    end: usize,
    start_utf16: usize,
    end_utf16: usize,
) -> CapSer {
    CapSer {
        group_name: group_name.map(str::to_owned),
        match_num,
        group_num,
        is_participating: true,
        entire_match: group_num == 0,
        content: Some(content.to_owned()),
        start_utf16: Some(start_utf16),
        start: Some(start),
        end_utf16: Some(end_utf16),
        end: Some(end),
    }
}

fn same(found: &MatchSer, expected: &[Vec<CapSer>]) {
    assert_eq!(format!("{:#?}", found.matches), format!("{:#?}", expected));
}

#[test]
fn find_unicode() {
    let s = "😃";
    let found = re_find(s, ".", "u", None, None).unwrap();
    same(&found, &[vec![cap(None, 0, 0, s, 0, 4, 0, 2)]]);
}

#[test]
fn find_indices() {
    let s = "😀😃😄";
    let found = re_find(s, ".*", "u", None, None).unwrap();
    same(&found, &[vec![cap(None, 0, 0, s, 0, 12, 0, 6)]]);
}

#[test]
fn find_invalid_utf8() {
    // test without unicode flag
    let s = "a😀a";
    let found = re_find(s, "..", "g", None, None).unwrap();
    same(
        &found,
        &[
            vec![cap(None, 0, 0, r"a\xf0", 0, 2, 0, 3)],
            vec![cap(None, 1, 0, r"\x9f\x98", 2, 4, 3, 3)],
            vec![cap(None, 2, 0, r"\x80a", 4, 6, 3, 4)],
        ],
    );
}

#[test]
fn find_first_match_only_without_g() {
    let found = re_find("ab ab ab", "ab", "", None, None).unwrap();
    assert_eq!(found.matches.len(), 1);
    let found = re_find("ab ab ab", "ab", "g", None, None).unwrap();
    assert_eq!(found.matches.len(), 3);
    assert_eq!(found.matches[2][0].match_num, 2);
    assert_eq!(found.matches[2][0].start, Some(6));
    let found = re_find("ab ab ab", "zz", "g", None, None).unwrap();
    assert_eq!(found.matches.len(), 0);
}

#[test]
fn find_groups_named_and_absent() {
    let found = re_find("é1 b", r"(?P<word>[a-z]+)|(\d)", "g", None, None).unwrap();
    assert_eq!(found.matches.len(), 2);
    let first = &found.matches[0];
    assert_eq!(first.len(), 3);
    assert_eq!(first[0].group_name, None);
    assert!(first[0].entire_match && first[0].is_participating);
    assert_eq!(first[0].content.as_deref(), Some("1"));
    assert_eq!((first[0].start, first[0].end), (Some(2), Some(3)));
    assert_eq!((first[0].start_utf16, first[0].end_utf16), (Some(1), Some(2)));
    assert_eq!(first[1].group_name.as_deref(), Some("word"));
    assert!(!first[1].is_participating && !first[1].entire_match);
    assert_eq!(first[1].content, None);
    assert_eq!((first[1].start, first[1].end), (None, None));
    assert_eq!((first[1].start_utf16, first[1].end_utf16), (None, None));
    assert_eq!((first[1].match_num, first[1].group_num), (0, 1));
    assert!(first[2].is_participating && !first[2].entire_match);
    assert_eq!(first[2].group_num, 2);
    let second = &found.matches[1];
    assert_eq!(second[1].content.as_deref(), Some("b"));
    assert_eq!((second[1].match_num, second[1].group_num), (1, 1));
    assert!(!second[2].is_participating);
}

#[test]
fn find_with_an_empty_pattern() {
    let found = re_find("abc", "", "g", None, None).unwrap();
    assert_eq!(found.matches.len(), 0);
    // an empty pattern is not even parsed for its flags' sake
    assert!(re_find_impl("abc", "", "gimsUux").unwrap().matches.is_empty());
    assert!(re_build("", "g").unwrap().is_none());
    let state = re_build("a", "gi").unwrap().unwrap();
    assert!(state.global);
    assert!(state.re.is_match(b"A"));
    assert_eq!(state.pattern, "a");
    assert_eq!(state.flags, Flags::parse("ig").unwrap());
    let state = re_build("a", "").unwrap().unwrap();
    assert!(!state.global);
    assert!(!state.re.is_match(b"A"));
}

#[test]
fn find_flags_reach_the_matcher() {
    assert_eq!(re_find("A", "a", "", None, None).unwrap().matches.len(), 0);
    assert_eq!(re_find("A", "a", "i", None, None).unwrap().matches.len(), 1);
    assert_eq!(re_find("a\nb", "^b", "", None, None).unwrap().matches.len(), 0);
    assert_eq!(re_find("a\nb", "^b", "m", None, None).unwrap().matches.len(), 1);
    assert_eq!(re_find("a\nb", "a.b", "", None, None).unwrap().matches.len(), 0);
    assert_eq!(re_find("a\nb", "a.b", "s", None, None).unwrap().matches.len(), 1);
    let greedy = re_find("aaa", "a+", "", None, None).unwrap();
    assert_eq!(greedy.matches[0][0].end, Some(3));
    let lazy = re_find("aaa", "a+", "U", None, None).unwrap();
    assert_eq!(lazy.matches[0][0].end, Some(1));
    assert_eq!(re_find("ab", "a b", "", None, None).unwrap().matches.len(), 0);
    assert_eq!(re_find("ab", "a b", "x", None, None).unwrap().matches.len(), 1);
    // without `u` a dot takes one byte, with it a code point
    assert_eq!(re_find("é", ".", "g", None, None).unwrap().matches.len(), 2);
    assert_eq!(re_find("é", ".", "gu", None, None).unwrap().matches.len(), 1);
}

#[test]
fn flag_strings() {
    assert_eq!(Flags::parse(""), Some(Flags::default()));
    let all = Flags::parse("gimsUux").unwrap();
    assert!(
        all.global
            && all.case_insensitive
            && all.multi_line
            && all.dot_matches_new_line
            && all.swap_greed
            && all.unicode
            && all.ignore_whitespace
    );
    let some = Flags::parse("xgg").unwrap();
    assert!(some.global && some.ignore_whitespace && !some.unicode && !some.swap_greed);
    assert_eq!(Flags::parse("u").unwrap().swap_greed, false);
    assert_eq!(Flags::parse("U").unwrap().unicode, false);
    assert_eq!(Flags::parse("gq"), None);
    assert_eq!(Flags::parse("G"), None);
    assert_eq!(Flags::parse("é"), None);
    assert_eq!(Flags::parse(" "), None);
}

#[test]
fn find_unescapes_first() {
    let found = re_find(r"a\nb", r"\n", "", Some("str".to_string()), None).unwrap();
    assert_eq!(found.matches.len(), 1);
    assert_eq!(found.matches[0][0].start, Some(1));
    // the pattern as a standard string: `\\d` stands for `\d`
    let found = re_find("a1", r"\\d", "", None, Some("str".to_string())).unwrap();
    assert_eq!(found.matches[0][0].content.as_deref(), Some("1"));
}

fn unescape_failure<T: std::fmt::Debug>(out: Result<T, Failure>) -> (String, Option<&'static str>, usize) {
    match out {
        Err(Failure::Reported(Error::Unescape(err))) => {
            (err.message.clone(), err.source, err.span.start.offset)
        }
        other => panic!("{:?}", other),
    }
}

#[test]
fn unescape_errors_name_their_source() {
    let raw = Some("raw".to_string());
    let std = Some("str".to_string());
    assert_eq!(
        unescape_failure(re_find("a\"", "(", "", raw.clone(), raw.clone())),
        ("pattern '\"' may not be contained in raw strings".to_string(), Some("text"), 1)
    );
    assert_eq!(
        unescape_failure(re_find("a", r"ab\q", "", raw.clone(), std.clone())),
        ("invalid escape character".to_string(), Some("reg_exp"), 2)
    );
    assert_eq!(
        unescape_failure(re_replace("a", r"\q", r"\q", "", None, std.clone(), std.clone())),
        ("invalid escape character".to_string(), Some("reg_exp"), 0)
    );
    assert_eq!(
        unescape_failure(re_replace("a", "a", r"x\q", "", None, None, std.clone())),
        ("invalid escape character".to_string(), Some("rep"), 1)
    );
    assert_eq!(
        unescape_failure(re_replace_list("\\", "a", r"x\q", "", std.clone(), None, std.clone())),
        (
            "escaped '\\' character without continuation".to_string(),
            Some("text"),
            0
        )
    );
    assert_eq!(
        unescape_failure(re_replace_list("a", "a", "\"", "", None, None, raw.clone())),
        ("pattern '\"' may not be contained in raw strings".to_string(), Some("rep"), 0)
    );
}

#[test]
fn syntax_error_with_spans() {
    let err = match re_find("x", "é😀(a", "", None, None) {
        Err(Failure::Reported(Error::RegexSyntax(err))) => err,
        other => panic!("{:?}", other),
    };
    assert_eq!(err.kind, "GroupUnclosed");
    assert_eq!(err.message, "unclosed group");
    assert_eq!(err.pattern, "é😀(a");
    assert_eq!(err.span, Span::new(Position::new(6, 1, 3), Position::new(7, 1, 4)));
    assert_eq!(err.span_utf16, Span::new(Position::new(3, 1, 4), Position::new(4, 1, 5)));
    assert_eq!(err.auxiliary_span, None);
    assert_eq!(err.auxiliary_span_utf16, None);
}

#[test]
fn syntax_error_with_two_spans() {
    let err = match re_find("x", "😀(?P<n>a)\n😀(?P<n>b)", "", None, None) {
        Err(Failure::Reported(Error::RegexSyntax(err))) => err,
        other => panic!("{:?}", other),
    };
    assert!(err.kind.starts_with("GroupNameDuplicate {"));
    assert_eq!(err.message, "duplicate capture group name");
    assert_eq!(err.span, Span::new(Position::new(21, 2, 6), Position::new(22, 2, 7)));
    assert_eq!(err.span_utf16, Span::new(Position::new(17, 2, 7), Position::new(18, 2, 8)));
    assert_eq!(
        err.auxiliary_span,
        Some(Span::new(Position::new(8, 1, 6), Position::new(9, 1, 7)))
    );
    assert_eq!(
        err.auxiliary_span_utf16,
        Some(Span::new(Position::new(6, 1, 7), Position::new(7, 1, 8)))
    );
}

#[test]
fn translate_error_with_span() {
    // without the `u` flag, a letter beyond ASCII is refused when the syntax
    // is translated
    let err = match re_find("x", "aé", "", None, None) {
        Err(Failure::Reported(Error::RegexSyntax(err))) => err,
        other => panic!("{:?}", other),
    };
    assert_eq!(err.kind, "UnicodeNotAllowed");
    assert_eq!(err.message, "Unicode not allowed here");
    assert_eq!(err.span, Span::new(Position::new(1, 1, 2), Position::new(3, 1, 3)));
    assert_eq!(err.span_utf16, Span::new(Position::new(1, 1, 2), Position::new(2, 1, 3)));
    assert_eq!(err.auxiliary_span, None);
    // with it, a class that Unicode does not have
    let err = match re_find("x", r"😀\p{Quux}", "u", None, None) {
        Err(Failure::Reported(Error::RegexSyntax(err))) => err,
        other => panic!("{:?}", other),
    };
    assert_eq!(err.kind, "UnicodePropertyNotFound");
    assert_eq!(err.message, "Unicode property not found");
    assert_eq!(err.pattern, r"😀\p{Quux}");
    assert_eq!(err.span, Span::new(Position::new(4, 1, 2), Position::new(12, 1, 10)));
    assert_eq!(err.span_utf16, Span::new(Position::new(2, 1, 3), Position::new(10, 1, 11)));
}

#[test]
fn parser_position_beyond_the_last_line() {
    // The span of this error ends after the line feed, on a second line that
    // the pattern does not have.
    match re_find("x", "(?\n", "", None, None) {
        Err(Failure::Upstream) => {}
        other => panic!("{:?}", other),
    }
}

#[test]
fn compiled_too_big() {
    match re_find("x", r"(?:\pL{100}){100}{100}", "u", None, None) {
        Err(Failure::Reported(Error::RegexCompiledTooBig(message))) => {
            assert_eq!(message, "Compiled regex exceeds size limit of 10485760 bytes.");
        }
        other => panic!("{:?}", other),
    }
}

#[test]
fn replace() {
    let res = re_replace(
        "test 1234 end",
        r#"test (?P<cap>\d+)\s?"#,
        "$cap: ",
        "",
        None,
        None,
        None,
    );
    match res {
        Ok(Replacement::Record(replaced)) => assert_eq!(replaced.result, "1234: end"),
        other => panic!("{:?}", other),
    }
}

#[test]
fn replace_list() {
    let res = re_replace_list("foo bar!", r#"\w+"#, "$0\n", "g", None, None, None);
    match res {
        Ok(Replacement::Record(replaced)) => assert_eq!(replaced.result, "foo\nbar\n"),
        other => panic!("{:?}", other),
    }
}

#[test]
fn replace_first_or_all() {
    match re_replace("a a a", "a", "b", "", None, None, None) {
        Ok(Replacement::Record(replaced)) => assert_eq!(replaced.result, "b a a"),
        other => panic!("{:?}", other),
    }
    match re_replace("a a a", "a", "b", "g", None, None, None) {
        Ok(Replacement::Record(replaced)) => assert_eq!(replaced.result, "b b b"),
        other => panic!("{:?}", other),
    }
    match re_replace_list("a1 a2 a3", r"a(\d)", "<$1>", "", None, None, None) {
        Ok(Replacement::Record(replaced)) => assert_eq!(replaced.result, "<1>"),
        other => panic!("{:?}", other),
    }
    match re_replace_list("a1 a2 a3", r"b(\d)", "<$1>", "g", None, None, None) {
        Ok(Replacement::Record(replaced)) => assert_eq!(replaced.result, ""),
        other => panic!("{:?}", other),
    }
}

#[test]
fn replace_that_cuts_a_code_point() {
    // the first byte of the emoji goes, the other three are no text
    match re_replace("😀", ".", "", "", None, None, None) {
        Ok(Replacement::Record(replaced)) => assert_eq!(replaced.result, "\u{fffd}\u{fffd}\u{fffd}"),
        other => panic!("{:?}", other),
    }
}

#[test]
fn replace_with_an_empty_pattern() {
    match re_replace(r"a\nb", "", "x", "g", Some("str".to_string()), None, None) {
        Ok(Replacement::Plain(text)) => assert_eq!(text, "a\nb"),
        other => panic!("{:?}", other),
    }
    match re_replace_list("abc", "", "x", "g", None, None, None) {
        Ok(Replacement::Plain(text)) => assert_eq!(text, ""),
        other => panic!("{:?}", other),
    }
}

#[test]
fn records_from_given_ranges() {
    let names = vec![None, Some("n".to_string())];
    let ranges = vec![vec![Some((1, 5)), None], vec![Some((5, 6)), Some((5, 6))]];
    let found = collect_matches("a😀b", &names, &ranges);
    same(
        &found,
        &[
            vec![
                cap(None, 0, 0, "😀", 1, 5, 1, 3),
                CapSer {
                    group_name: Some("n".to_string()),
                    match_num: 0,
                    group_num: 1,
                    is_participating: false,
                    entire_match: false,
                    content: None,
                    start_utf16: None,
                    start: None,
                    end_utf16: None,
                    end: None,
                },
            ],
            vec![cap(None, 1, 0, "b", 5, 6, 3, 4), cap(Some("n"), 1, 1, "b", 5, 6, 3, 4)],
        ],
    );
    // all offsets are translated as one batch, so 2 holds 6 back
    let found = collect_matches("a😀😀", &vec![None], &vec![vec![Some((2, 6))]]);
    same(&found, &[vec![cap(None, 0, 0, r"\x9f\x98\x80\xf0", 2, 6, 3, 3)]]);
    // an empty range at the very end
    let found = collect_matches("abc", &vec![None], &vec![vec![Some((3, 3))]]);
    same(&found, &[vec![cap(None, 0, 0, "", 3, 3, 3, 3)]]);
    assert!(collect_matches("abc", &vec![], &vec![]).matches.is_empty());
}

#[test]
fn update_indices_of_given_records() {
    let mut found = MatchSer {
        matches: vec![vec![
            CapSer { start: Some(5), end: Some(1), ..CapSer::default() },
            CapSer { start_utf16: Some(77), end: Some(3), ..CapSer::default() },
        ]],
    };
    found.update_indices_utf16("a😀b", vec![5, 1, 3, 0, 5]);
    assert_eq!(found.matches[0][0].start_utf16, Some(3));
    assert_eq!(found.matches[0][0].end_utf16, Some(1));
    assert_eq!(found.matches[0][1].start_utf16, Some(77));
    assert_eq!(found.matches[0][1].end_utf16, Some(3));
    assert_eq!(found.matches[0][1].end, Some(3));
    assert_eq!(MatchSer::default().matches.len(), 0);
}

#[test]
fn replace_without_unescaping() {
    match re_replace_impl("a1 a2", r"a(\d)", "<$1>", "g") {
        Ok(Replacement::Record(replaced)) => assert_eq!(replaced.result, "<1> <2>"),
        other => panic!("{:?}", other),
    }
    match re_replace_impl("a1 a2", r"a(\d)", "<$1>", "") {
        Ok(Replacement::Record(replaced)) => assert_eq!(replaced.result, "<1> a2"),
        other => panic!("{:?}", other),
    }
    match re_replace_list_impl("a1 a2 a3", r"a(?P<n>\d)", "$n,", "g") {
        Ok(Replacement::Record(replaced)) => assert_eq!(replaced.result, "1,2,3,"),
        other => panic!("{:?}", other),
    }
    match re_replace_list_impl("a1 a2 a3", r"a(?P<n>\d)", "$n,", "i") {
        Ok(Replacement::Record(replaced)) => assert_eq!(replaced.result, "1,"),
        other => panic!("{:?}", other),
    }
    assert!(matches!(
        re_replace_impl("a", "(", "b", ""),
        Err(Failure::Reported(Error::RegexSyntax(_)))
    ));
    assert!(matches!(
        re_replace_list_impl("a", r"(?:\pL{100}){100}{100}", "b", "u"),
        Err(Failure::Reported(Error::RegexCompiledTooBig(_)))
    ));
}

#[test]
fn requests_that_cannot_be_answered() {
    let odd = Some("odd".to_string());
    // a string type without a name
    assert!(try_re_find("a", "a", "", odd.clone(), None).is_none());
    assert!(try_re_find("a", "a", "", None, odd.clone()).is_none());
    assert!(try_re_replace("a", "a", "b", "", None, None, odd.clone()).is_none());
    assert!(try_re_replace_list("a", "a", "b", "", None, odd.clone(), None).is_none());
    // a flag that is none
    assert!(try_re_find("a", "a", "q", None, None).is_none());
    assert!(try_re_replace("a", "a", "b", "gq", None, None, None).is_none());
    assert!(try_re_replace_list("a", "a", "b", "G", None, None, None).is_none());
}

#[test]
fn what_stands_behind_an_error_is_not_looked_at() {
    let odd = Some("odd".to_string());
    let std = Some("str".to_string());
    // the text does not unescape: neither the other string types nor the
    // flags are looked at
    match try_re_find(r"\q", "a", "q", std.clone(), odd.clone()) {
        Some(Err(Failure::Reported(Error::Unescape(err)))) => assert_eq!(err.source, Some("text")),
        other => panic!("{:?}", other),
    }
    match try_re_replace("a", r"\q", "b", "q", None, std.clone(), odd.clone()) {
        Some(Err(Failure::Reported(Error::Unescape(err)))) => {
            assert_eq!(err.source, Some("reg_exp"))
        }
        other => panic!("{:?}", other),
    }
    match try_re_replace_list("a", "a", r"\q", "q", None, None, std.clone()) {
        Some(Err(Failure::Reported(Error::Unescape(err)))) => assert_eq!(err.source, Some("rep")),
        other => panic!("{:?}", other),
    }
    // the pattern is empty: the flags are not looked at
    assert_eq!(try_re_find("a", "", "q", None, None).unwrap().unwrap().matches.len(), 0);
    match try_re_replace("abc", "", "b", "q", None, None, None) {
        Some(Ok(Replacement::Plain(text))) => assert_eq!(text, "abc"),
        other => panic!("{:?}", other),
    }
    match try_re_replace_list("abc", "", "b", "q", None, None, None) {
        Some(Ok(Replacement::Plain(text))) => assert_eq!(text, ""),
        other => panic!("{:?}", other),
    }
    // and a request that can be answered is
    match try_re_replace("a1", r"\d", "x", "g", None, None, None) {
        Some(Ok(Replacement::Record(replaced))) => assert_eq!(replaced.result, "ax"),
        other => panic!("{:?}", other),
    }
    assert_eq!(try_re_find("a1", r"\d", "g", None, None).unwrap().unwrap().matches.len(), 1);
}
