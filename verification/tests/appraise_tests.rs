use blasphemy::appraise::{classify, WordQuality};
use blasphemy::letters::Letter;

fn letter(c: char, points: u32) -> Letter {
    Letter { c, points }
}

fn word(s: &str) -> Vec<char> {
    s.chars().collect()
}

#[test]
fn too_short_regardless_of_bank() {
    let empty_bank: Vec<Letter> = Vec::new();
    let full_bank = vec![letter('A', 2), letter('B', 2), letter('C', 1)];
    assert_eq!(classify(&word(""), &empty_bank, true), WordQuality::TooShort);
    assert_eq!(classify(&word("A"), &full_bank, true), WordQuality::TooShort);
    assert_eq!(classify(&word("AB"), &full_bank, false), WordQuality::TooShort);
    assert_eq!(classify(&word("AB"), &empty_bank, true), WordQuality::TooShort);
}

#[test]
fn valid_points_are_sum_of_consumed_tiles() {
    let bank = vec![letter('A', 2), letter('A', 2), letter('B', 2), letter('T', 4)];
    assert_eq!(classify(&word("BAT"), &bank, true), WordQuality::Valid(8));
}

#[test]
fn example_bank_bat_scores_five() {
    // bank A(2), A(2), B(2), T(1); "BAT" consumes B(2) + A(2) + T(1).
    let bank = vec![letter('A', 2), letter('A', 2), letter('B', 2), letter('T', 1)];
    assert_eq!(classify(&word("BAT"), &bank, true), WordQuality::Valid(5));
}

#[test]
fn repeated_appraisal_is_idempotent() {
    let bank = vec![letter('A', 2), letter('A', 2), letter('B', 2), letter('T', 4)];
    let w = word("BAT");
    let first = classify(&w, &bank, true);
    let second = classify(&w, &bank, true);
    assert_eq!(first, second);
    // The bank itself was only copied, never consumed.
    assert_eq!(bank.len(), 4);
    assert_eq!(bank[0], letter('A', 2));
    assert_eq!(bank[3], letter('T', 4));
}

#[test]
fn missing_letters_in_input_order() {
    let bank = vec![letter('A', 2)];
    match classify(&word("ABA"), &bank, true) {
        WordQuality::MissingLetters(m) => assert_eq!(m, vec!['B', 'A']),
        other => panic!("expected MissingLetters, got {:?}", other),
    }
}

#[test]
fn excess_occurrences_each_reported() {
    let bank = vec![letter('A', 2), letter('B', 2)];
    match classify(&word("AAAB"), &bank, true) {
        WordQuality::MissingLetters(m) => assert_eq!(m, vec!['A', 'A']),
        other => panic!("expected MissingLetters, got {:?}", other),
    }
}

#[test]
fn covered_but_unrecognized_is_invalid() {
    let bank = vec![letter('C', 1), letter('A', 2), letter('T', 4)];
    assert_eq!(classify(&word("TCA"), &bank, false), WordQuality::Invalid);
}

#[test]
fn zero_point_tiles_are_a_legitimate_configuration() {
    let bank = vec![letter('C', 0), letter('A', 0), letter('T', 0)];
    assert_eq!(classify(&word("CAT"), &bank, true), WordQuality::Valid(0));
}
