use mta_queue::bayes::{BayesModel, OsbToken, TokenHash, Weights};

fn token(h1: u64, h2: u64) -> OsbToken<TokenHash> {
    OsbToken { inner: TokenHash { h1, h2 }, idx: 0 }
}

#[test]
fn token_key_joins_both_hashes() {
    assert_eq!(TokenHash { h1: 0, h2: 0 }.key(), 0);
    assert_eq!(TokenHash { h1: 0, h2: 5 }.key(), 5);
    assert_eq!(TokenHash { h1: 1, h2: 0 }.key(), 1u128 << 64);
    assert_eq!(TokenHash { h1: u64::MAX, h2: u64::MAX }.key(), u128::MAX);
    assert_ne!(TokenHash { h1: 1, h2: 2 }.key(), TokenHash { h1: 2, h2: 1 }.key());
}

#[test]
fn training_counts_messages_and_tokens() {
    let mut model = BayesModel::new();
    model.train(vec![token(1, 1), token(2, 2), token(1, 1)], true);
    model.train(vec![token(1, 1), token(3, 3)], false);
    assert_eq!(model.spam_learns, 1);
    assert_eq!(model.ham_learns, 1);
    assert_eq!(model.weights.len(), 3);
    assert_eq!(model.weights[&TokenHash { h1: 1, h2: 1 }.key()], Weights { spam: 2, ham: 1 });
    assert_eq!(model.weights[&TokenHash { h1: 2, h2: 2 }.key()], Weights { spam: 1, ham: 0 });
    assert_eq!(model.weights[&TokenHash { h1: 3, h2: 3 }.key()], Weights { spam: 0, ham: 1 });
}

#[test]
fn training_without_tokens_counts_the_message() {
    let mut model = BayesModel::new();
    model.train(vec![], false);
    assert_eq!(model.ham_learns, 1);
    assert_eq!(model.spam_learns, 0);
    assert!(model.weights.is_empty());
}

#[test]
fn untraining_undoes_training() {
    let mut model = BayesModel::new();
    model.train(vec![token(1, 1), token(2, 2)], true);
    model.train(vec![token(1, 1), token(2, 2), token(1, 1)], true);
    model.untrain(vec![token(1, 1), token(2, 2), token(1, 1)], true);
    assert_eq!(model.spam_learns, 1);
    assert_eq!(model.ham_learns, 0);
    assert_eq!(model.weights[&TokenHash { h1: 1, h2: 1 }.key()], Weights { spam: 1, ham: 0 });
    assert_eq!(model.weights[&TokenHash { h1: 2, h2: 2 }.key()], Weights { spam: 1, ham: 0 });
    model.untrain(vec![token(2, 2), token(1, 1)], true);
    assert_eq!(model.spam_learns, 0);
    assert_eq!(model.weights[&TokenHash { h1: 1, h2: 1 }.key()], Weights { spam: 0, ham: 0 });
    assert_eq!(model.weights.len(), 2);
}
