use levenshtein_distance::levenshtein_distance;

#[test]
fn identical_strings() {
    let result = levenshtein_distance("identical", "identical");
    assert_eq!(result, 0); // No changes
}

#[test]
fn single_character_difference() {
    let result = levenshtein_distance("kitten", "sitten");
    assert_eq!(result, 1); // One substitution
}

#[test]
fn single_insertion() {
    let result = levenshtein_distance("kitten", "kittens");
    assert_eq!(result, 1); // One insertion
}

#[test]
fn single_deletion() {
    let result = levenshtein_distance("kitten", "kitte");
    assert_eq!(result, 1); // One deletion
}

#[test]
fn insertion_deletion() {
    let result = levenshtein_distance("flaw", "lawn");
    assert_eq!(result, 2); // One insertion and one deletion
}

#[test]
fn multiple_edits() {
    let result = levenshtein_distance("sitting", "kitten");
    assert_eq!(result, 3); // Three edits (substitution, deletion, insertion)
}

#[test]
fn empty_string() {
    let result = levenshtein_distance("", "nonempty");
    assert_eq!(result, 8); // All characters need to be inserted
}

#[test]
fn both_empty_strings() {
    let result = levenshtein_distance("", "");
    assert_eq!(result, 0); // No changes
}

#[test]
fn right_empty_string() {
    let result = levenshtein_distance("nonempty", "");
    assert_eq!(result, 8); // All characters need to be deleted
}

#[test]
fn long_strings_with_common_prefix() {
    let result = levenshtein_distance("abcdefghij", "abcxyzghij");
    assert_eq!(result, 3); // Three substitutions (d->x, e->y, f->z)
}

#[test]
fn long_strings_with_large_difference() {
    let result = levenshtein_distance("abcdefghij", "zyxwvutsrq");
    assert_eq!(result, 10); // All characters are different
}

#[test]
fn mixed_edits() {
    let result = levenshtein_distance("algorithm", "altrorithm");
    assert_eq!(result, 2); // One substitution and one insertion
}
