use fuzzy_search::scored::score_alignment;
use fuzzy_search::text::{chars_of, eq_ignore_case};
use fuzzy_search::{fuzzy_match, simple_fuzzy_match};

#[test]
fn test_fuzzy_1() {
    assert!(simple_fuzzy_match("ftw", "ForrestTheWoods"));
}

#[test]
fn test_fuzzy_2() {
    assert!(!simple_fuzzy_match("fwt", "ForrestTheWoods"));
}

#[test]
fn test_fuzzy_3() {
    assert!(simple_fuzzy_match("gh", "GitHub"));
}

#[test]
fn test_fuzzy_4() {
    assert_eq!(fuzzy_match("otw", "Power Of The Wild"), (true, 161));
}

#[test]
fn test_fuzzy_5() {
    assert_eq!(fuzzy_match("otw", "Druid of the Claw"), (true, 131));
}

#[test]
fn test_fuzzy_6() {
    assert_eq!(fuzzy_match("otw", "Frostwolf Grunt"), (true, 93));
}

#[test]
fn simple_match_empty_inputs() {
    assert!(!simple_fuzzy_match("abc", ""));
    assert!(!simple_fuzzy_match("", "abc"));
    assert!(!simple_fuzzy_match("", ""));
}

#[test]
fn simple_match_ignores_ascii_case() {
    assert!(simple_fuzzy_match("FTW", "forrestthewoods"));
    assert!(simple_fuzzy_match("abc", "ABC"));
    assert!(!simple_fuzzy_match("abcd", "ABC"));
}

#[test]
fn simple_match_non_ascii_target() {
    assert!(simple_fuzzy_match("éa", "xÉéyA"));
    assert!(!simple_fuzzy_match("é", "É"));
}

#[test]
fn scored_match_empty_inputs() {
    assert_eq!(fuzzy_match("", "abc"), (true, 0));
    assert_eq!(fuzzy_match("abc", ""), (true, 0));
}

#[test]
fn scored_match_no_subsequence() {
    assert_eq!(fuzzy_match("fwt", "ForrestTheWoods"), (false, 0));
    assert_eq!(fuzzy_match("xyz", "abc"), (false, 0));
}

#[test]
fn scored_match_exact_whole_target() {
    // 100 + 15 (first) + 15 + 15 (adjacent), nothing left unmatched.
    assert_eq!(fuzzy_match("abc", "abc"), (true, 145));
}

#[test]
fn scored_match_prefers_word_starts() {
    // Taking "b" right after "a" gives 100 + 15 + 15 - 2 = 128; taking the
    // "b" after the separator gives 100 + 15 + 30 - 2 = 143.
    assert_eq!(fuzzy_match("ab", "ab_b"), (true, 143));
}

#[test]
fn scored_match_camel_case_bonus() {
    // "B" follows a small letter: 100 - 5 (leading) - 1 (unmatched) + 30.
    assert_eq!(fuzzy_match("b", "aB"), (true, 124));
}

#[test]
fn scored_match_leading_penalty_is_capped() {
    // Start at 5: penalty capped at 15; 5 characters unmatched.
    assert_eq!(fuzzy_match("z", "aaaaaz"), (true, 80));
}

#[test]
fn scored_match_agrees_with_simple_match() {
    let cases = [
        ("ftw", "ForrestTheWoods"),
        ("fwt", "ForrestTheWoods"),
        ("gh", "GitHub"),
        ("otw", "Frostwolf Grunt"),
        ("zz", "z"),
    ];
    for (p, t) in cases {
        assert_eq!(fuzzy_match(p, t).0, simple_fuzzy_match(p, t));
    }
}

#[test]
fn scored_match_is_repeatable() {
    let first = fuzzy_match("otw", "Druid of the Claw");
    let second = fuzzy_match("otw", "Druid of the Claw");
    assert_eq!(first, second);
    assert_eq!(
        simple_fuzzy_match("gh", "GitHub"),
        simple_fuzzy_match("gh", "GitHub")
    );
}

#[test]
fn contiguous_start_beats_gapped_late_match() {
    let t = chars_of("abcdef");
    let contiguous = score_alignment(&t, &vec![0, 1, 2]);
    let gapped = score_alignment(&t, &vec![1, 3, 5]);
    assert_eq!(contiguous, 142);
    assert_eq!(gapped, 92);
    assert!(contiguous > gapped);
}

#[test]
fn repetitive_target_is_bounded() {
    let t = "a".repeat(40);
    let r = fuzzy_match("aaaa", &t);
    assert!(r.0);
}

#[test]
fn case_folding_helpers() {
    assert!(eq_ignore_case('A', 'a'));
    assert!(eq_ignore_case('z', 'Z'));
    assert!(!eq_ignore_case('a', 'b'));
    assert!(!eq_ignore_case('É', 'é'));
    assert_eq!(chars_of("aé"), vec!['a', 'é']);
}
