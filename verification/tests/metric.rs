use levenshtein_distance::levenshtein_distance;

const WORDS: [&str; 12] = [
    "",
    "a",
    "b",
    "ab",
    "ba",
    "abc",
    "kitten",
    "sitting",
    "flaw",
    "lawn",
    "naïve",
    "日本語",
];

#[test]
fn one_dropped_letter() {
    assert_eq!(levenshtein_distance("playwright", "playright"), 1);
}

#[test]
fn single_units_match_or_differ() {
    assert_eq!(levenshtein_distance("a", "a"), 0);
    assert_eq!(levenshtein_distance("a", "b"), 1);
    assert_eq!(levenshtein_distance("a", ""), 1);
    assert_eq!(levenshtein_distance("", "a"), 1);
}

#[test]
fn every_word_is_at_distance_zero_from_itself() {
    for word in WORDS {
        assert_eq!(levenshtein_distance(word, word), 0);
        let copy = String::from(word);
        assert_eq!(levenshtein_distance(word, &copy), 0);
    }
}

#[test]
fn only_equal_words_are_at_distance_zero() {
    for a in WORDS {
        for b in WORDS {
            assert_eq!(levenshtein_distance(a, b) == 0, a == b);
        }
    }
}

#[test]
fn distance_is_symmetric() {
    for a in WORDS {
        for b in WORDS {
            assert_eq!(levenshtein_distance(a, b), levenshtein_distance(b, a));
        }
    }
    assert_eq!(levenshtein_distance("sitting", "kitten"), 3);
    assert_eq!(levenshtein_distance("kitten", "sitting"), 3);
}

#[test]
fn distance_obeys_the_triangle_inequality() {
    for a in WORDS {
        for b in WORDS {
            for c in WORDS {
                let direct = levenshtein_distance(a, c);
                let detour = levenshtein_distance(a, b) + levenshtein_distance(b, c);
                assert!(direct <= detour);
            }
        }
    }
    // A detour through an unrelated word costs more; one through a word on
    // the way costs the same.
    assert_eq!(levenshtein_distance("flaw", "lawn"), 2);
    assert_eq!(levenshtein_distance("flaw", "law"), 1);
    assert_eq!(levenshtein_distance("law", "lawn"), 1);
    assert_eq!(levenshtein_distance("flaw", "kitten"), 6);
    assert_eq!(levenshtein_distance("kitten", "lawn"), 5);
}

#[test]
fn distance_lies_between_the_length_bounds() {
    for a in WORDS {
        for b in WORDS {
            let distance = levenshtein_distance(a, b);
            assert!(a.len().abs_diff(b.len()) <= distance);
            assert!(distance <= a.len().max(b.len()));
        }
    }
    // Both bounds are reached.
    assert_eq!(levenshtein_distance("abc", "abcdef"), 3);
    assert_eq!(levenshtein_distance("abc", "xyz"), 3);
}

#[test]
fn distance_to_the_empty_string_is_the_length() {
    for word in WORDS {
        assert_eq!(levenshtein_distance("", word), word.len());
        assert_eq!(levenshtein_distance(word, ""), word.len());
    }
}

#[test]
fn distance_counts_code_units_not_characters() {
    // "é" is two code units, neither of which is "e".
    assert_eq!(levenshtein_distance("é", "e"), 2);
    // "é" and "è" share their first code unit.
    assert_eq!(levenshtein_distance("é", "è"), 1);
    assert_eq!(levenshtein_distance("naïve", "naive"), 2);
    assert_eq!(levenshtein_distance("", "日本語"), 9);
    assert_eq!(levenshtein_distance("日本語", "日本"), 3);
}

#[test]
fn unequal_strings_of_equal_length() {
    assert_eq!(levenshtein_distance("ab", "ba"), 2);
    assert_eq!(levenshtein_distance("abcd", "bcda"), 2);
}

#[test]
fn equal_last_units_align_for_free() {
    assert_eq!(levenshtein_distance("xa", "ya"), 1);
    assert_eq!(levenshtein_distance("intention", "execution"), 5);
    assert_eq!(levenshtein_distance("saturday", "sunday"), 3);
}

#[test]
fn long_inputs() {
    let a = "ab".repeat(200);
    let b = "ba".repeat(200);
    assert_eq!(levenshtein_distance(&a, &b), 2);
    let c = "a".repeat(300);
    assert_eq!(levenshtein_distance(&a, &c), 200);
}
