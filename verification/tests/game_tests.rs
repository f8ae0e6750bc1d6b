use blasphemy::appraise::WordQuality;
use blasphemy::channel::CommandQueue;
use blasphemy::game::{GameState, BANK_TARGET, WORD_MAX};
use blasphemy::letters::{pool_lookup, Letter};

fn letter(c: char, points: u32) -> Letter {
    Letter { c, points }
}

#[test]
fn new_game_has_full_pool_priced_bank() {
    let g = GameState::new();
    assert_eq!(g.score, 0);
    assert_eq!(g.word.len(), 0);
    assert_eq!(g.bank.len(), BANK_TARGET);
    for tile in &g.bank {
        let priced = pool_lookup(tile.c).expect("drawn tile must be a pool letter");
        assert_eq!(priced.points, tile.points);
    }
}

#[test]
fn accept_valid_word_scores_and_refills() {
    let bank = vec![letter('A', 2), letter('A', 2), letter('B', 2), letter('T', 1)];
    let mut g = GameState::with_bank(bank);
    g.push_char('B');
    g.push_char('A');
    g.push_char('T');
    assert_eq!(g.appraise_word(), WordQuality::Valid(5));
    g.accept_word();
    assert_eq!(g.score, 5);
    assert_eq!(g.word.len(), 0);
    assert_eq!(g.bank.len(), BANK_TARGET);
    // One A(2), the B(2) and the T(1) were each removed once; the other
    // A(2) survives in place, ahead of the replenished tiles.
    assert_eq!(g.bank[0], letter('A', 2));
    for tile in &g.bank[1..] {
        let priced = pool_lookup(tile.c).expect("refill tile must be a pool letter");
        assert_eq!(priced.points, tile.points);
    }
}

#[test]
fn accept_uncovered_word_changes_nothing() {
    let bank = vec![letter('A', 2), letter('B', 2)];
    let mut g = GameState::with_bank(bank.clone());
    g.push_char('X');
    g.push_char('Y');
    g.push_char('Z');
    g.accept_word();
    assert_eq!(g.score, 0);
    assert_eq!(g.word, vec!['X', 'Y', 'Z']);
    assert_eq!(g.bank, bank);
}

#[test]
fn accept_unrecognized_word_changes_nothing() {
    let bank = vec![letter('T', 4), letter('C', 1), letter('A', 2)];
    let mut g = GameState::with_bank(bank.clone());
    g.push_char('T');
    g.push_char('C');
    g.push_char('A');
    assert_eq!(g.appraise_word(), WordQuality::Invalid);
    g.accept_word();
    assert_eq!(g.score, 0);
    assert_eq!(g.word, vec!['T', 'C', 'A']);
    assert_eq!(g.bank, bank);
}

#[test]
fn accept_short_word_changes_nothing() {
    let bank = vec![letter('A', 2), letter('B', 2)];
    let mut g = GameState::with_bank(bank.clone());
    g.push_char('A');
    g.accept_word();
    assert_eq!(g.score, 0);
    assert_eq!(g.word, vec!['A']);
    assert_eq!(g.bank, bank);
}

#[test]
fn word_buffer_is_bounded_and_editable() {
    let mut g = GameState::with_bank(Vec::new());
    for _ in 0..WORD_MAX + 6 {
        g.push_char('A');
    }
    assert_eq!(g.word.len(), WORD_MAX);
    g.backspace();
    assert_eq!(g.word.len(), WORD_MAX - 1);
    g.clear_word();
    assert_eq!(g.word.len(), 0);
    g.backspace();
    assert_eq!(g.word.len(), 0);
}

#[test]
fn command_swaps_first_matching_tile_for_pool_price() {
    let bank = vec![letter('B', 2), letter('A', 2), letter('A', 2)];
    let mut g = GameState::with_bank(bank);
    g.apply_command(('A', 'Z'));
    assert_eq!(g.bank, vec![letter('B', 2), letter('Z', 2), letter('A', 2)]);
}

#[test]
fn command_with_absent_letter_leaves_bank_unchanged() {
    let bank = vec![letter('A', 2), letter('B', 2)];
    let mut g = GameState::with_bank(bank.clone());
    g.apply_command(('Q', 'Z'));
    assert_eq!(g.bank, bank);
    assert_eq!(g.score, 0);
}

#[test]
fn queued_commands_apply_one_per_tick() {
    let mut q = CommandQueue::new();
    q.send(('A', 'Z'));
    q.send(('B', 'Y'));
    let mut g = GameState::with_bank(vec![letter('A', 2), letter('B', 2)]);
    if let Some(command) = q.try_receive() {
        g.apply_command(command);
    }
    assert_eq!(g.bank, vec![letter('Z', 2), letter('B', 2)]);
    if let Some(command) = q.try_receive() {
        g.apply_command(command);
    }
    assert_eq!(g.bank, vec![letter('Z', 2), letter('Y', 4)]);
    assert_eq!(q.try_receive(), None);
}

#[test]
fn command_with_unpooled_replacement_leaves_bank_unchanged() {
    let bank = vec![letter('A', 2)];
    let mut g = GameState::with_bank(bank.clone());
    g.apply_command(('A', '1'));
    assert_eq!(g.bank, bank);
}
