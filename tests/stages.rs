use hangul_normalize::{control_chars, derepeat, hangul_to_jamo, normalize, whitespace_less, NormalizeConfig};

#[test]
fn it_whitespace_less() {
    assert_eq!(
        whitespace_less("   가     나  다 라    "),
        "가 나 다 라".to_string()
    );
}

#[test]
fn it_hangul_to_jamo() {
    assert_eq!(
        hangul_to_jamo("가힣 뷁 ab123킼ㄱㄴㄷ".to_string()),
        "ㄱㅏㅎㅣㅎ ㅂㅞㄺ ab123ㅋㅣㅋㄱㄴㄷ".to_string()
    );
}

#[test]
fn it_control_chars() {
    assert_eq!(
        control_chars("가힣#ㄱㅏz1()!?[]/ &", "흠"),
        "가힣흠ㄱㅏz1()!?[]/ 흠".to_string()
    );
}

#[test]
fn it_derepeat() {
    assert_eq!(
        derepeat("아아아아아 음음음 호호호호 홀홀 ", 3),
        "아아아 음음음 호호호 홀홀 ".to_string()
    );
}

#[test]
fn decompose_single_syllables() {
    assert_eq!(hangul_to_jamo("가".to_string()), "ㄱㅏ".to_string());
    assert_eq!(hangul_to_jamo("힣".to_string()), "ㅎㅣㅎ".to_string());
}

#[test]
fn decompose_twice_equals_once() {
    let inputs = ["가힣 뷁 ab123킼ㄱㄴㄷ", "", "한국어 텍스트!", "ㅋㅋㅋ abc"];
    for input in inputs {
        let once = hangul_to_jamo(input.to_string());
        let twice = hangul_to_jamo(once.clone());
        assert_eq!(once, twice);
    }
}

#[test]
fn decompose_leaves_other_text() {
    assert_eq!(hangul_to_jamo("abc 123 ㄱㅏ".to_string()), "abc 123 ㄱㅏ".to_string());
    assert_eq!(hangul_to_jamo(String::new()), String::new());
}

#[test]
fn filter_length_follows_counts() {
    // 2 disallowed characters ('#', '&'), 14 kept, replacement of 2 characters.
    let input = "가힣#ㄱㅏz1()!?[]/ &";
    let out = control_chars(input, "xy");
    assert_eq!(out.chars().count(), 14 + 2 * 2);
    assert_eq!(out, "가힣xyㄱㅏz1()!?[]/ xy".to_string());
}

#[test]
fn filter_with_empty_replacement_drops() {
    assert_eq!(control_chars("a#b&c", ""), "abc".to_string());
}

#[test]
fn filter_replaces_each_character_of_a_run() {
    assert_eq!(control_chars("a##b", "_"), "a__b".to_string());
}

#[test]
fn filter_outside_allow_list() {
    assert_eq!(control_chars("a<b>c\td", "_"), "a_b_c_d".to_string());
    assert_eq!(control_chars("é日", "?"), "??".to_string());
}

#[test]
fn filter_keeps_allow_list() {
    let kept = "AZaz09ㄱㅎㅏㅣ가힣~!?.,():;*/=+-[] \n";
    assert_eq!(control_chars(kept, "#"), kept.to_string());
}

#[test]
fn derepeat_zero_removes_everything() {
    assert_eq!(derepeat("아아 abc", 0), String::new());
    assert_eq!(derepeat("x", 0), String::new());
}

#[test]
fn derepeat_bound_one() {
    assert_eq!(derepeat("aaabbbcaa", 1), "abca".to_string());
}

#[test]
fn derepeat_short_runs_untouched() {
    assert_eq!(derepeat("aabbbcc", 3), "aabbbcc".to_string());
    assert_eq!(derepeat("aaaaabb", 3), "aaabb".to_string());
}

#[test]
fn derepeat_runs_broken_by_space() {
    assert_eq!(derepeat("aa aa", 1), "a a".to_string());
}

#[test]
fn whitespace_keeps_tabs() {
    assert_eq!(whitespace_less("a \t  b"), "a \tb".to_string());
    assert_eq!(whitespace_less("a\t\t b"), "a\t\tb".to_string());
}

#[test]
fn whitespace_collapses_newlines() {
    assert_eq!(whitespace_less("\n a \n\n b \n"), "a b".to_string());
}

#[test]
fn whitespace_only_and_empty() {
    assert_eq!(whitespace_less("  \n\t "), String::new());
    assert_eq!(whitespace_less(""), String::new());
}

#[test]
fn whitespace_output_has_no_double_space() {
    let out = whitespace_less("  가 \n  나\u{3000}\u{3000}다  ");
    let chars: Vec<char> = out.chars().collect();
    assert!(!chars[0].is_whitespace());
    assert!(!chars[chars.len() - 1].is_whitespace());
    for pair in chars.windows(2) {
        let plain = |c: char| c.is_whitespace() && c != '\t';
        assert!(!(plain(pair[0]) && plain(pair[1])));
    }
    assert_eq!(out, "가 나\u{3000}다".to_string());
}

#[test]
fn normalize_all_stages() {
    let opts = NormalizeConfig {
        hangul_to_jamo: true,
        control_chars: Some(" ".to_string()),
        repeat: Some(2),
        whitespace_less: true,
    };
    assert_eq!(
        normalize("  가가가#  힣&ㅋㅋㅋ  ".to_string(), &opts),
        "ㄱㅏㄱㅏ ㅎㅣㅎ ㅋㅋ".to_string()
    );
}

#[test]
fn normalize_no_stage_is_identity() {
    let opts = NormalizeConfig {
        hangul_to_jamo: false,
        control_chars: None,
        repeat: None,
        whitespace_less: false,
    };
    let input = "  가가가#  힣&  ".to_string();
    assert_eq!(normalize(input.clone(), &opts), input);
}

#[test]
fn normalize_filter_runs_before_collapse() {
    let opts = NormalizeConfig {
        hangul_to_jamo: false,
        control_chars: Some(" ".to_string()),
        repeat: None,
        whitespace_less: true,
    };
    assert_eq!(normalize("#a##b#".to_string(), &opts), "a b".to_string());
}

#[test]
fn derepeat_splits_where_the_character_changes() {
    let whole = derepeat("aaaabbbbba", 2);
    let parts = derepeat("aaaa", 2) + &derepeat("bbbbba", 2);
    assert_eq!(whole, parts);
    assert_eq!(whole, "aabba".to_string());
}

#[test]
fn normalize_repeat_zero_empties() {
    let opts = NormalizeConfig {
        hangul_to_jamo: true,
        control_chars: None,
        repeat: Some(0),
        whitespace_less: true,
    };
    assert_eq!(normalize("가나다".to_string(), &opts), String::new());
}
