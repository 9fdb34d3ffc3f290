//! Training of the Bayes classifier: per-token counts of spam and ham
//! sightings.

use std::collections::HashMap;
use vstd::prelude::*;

verus! {

broadcast use vstd::std_specs::hash::group_hash_axioms;

/// A token, hashed twice.
#[derive(Debug, Clone, Copy, PartialEq, Eq, Hash)]
pub struct TokenHash {
    pub h1: u64,
    pub h2: u64,
}

/// A token with the position at which it was found.
#[derive(Debug, Clone, Copy, PartialEq, Eq)]
pub struct OsbToken<T> {
    pub inner: T,
    pub idx: usize,
}

/// How often a token was seen in spam and in ham.
#[derive(Debug, Clone, Copy, PartialEq, Eq, Structural)]
pub struct Weights {
    pub spam: u32,
    pub ham: u32,
}

/// The classifier's counts. `weights` is keyed by `TokenHash::key`.
pub struct BayesModel {
    pub weights: HashMap<u128, Weights>,
    pub spam_learns: u32,
    pub ham_learns: u32,
}

impl TokenHash {
    /// Both hashes as one number: `h1` in the upper half, `h2` in the
    /// lower.
    pub open spec fn key_spec(self) -> u128 {
        (self.h1 as u128 * 0x1_0000_0000_0000_0000u128 + self.h2 as u128) as u128
    }

    /// Both hashes as one number.
    pub fn key(&self) -> (k: u128)
        ensures
            k == self.key_spec(),
    {
        self.h1 as u128 * 0x1_0000_0000_0000_0000u128 + self.h2 as u128
    }
}

/// How often `key` occurs among `tokens`.
pub open spec fn occurrences(tokens: Seq<OsbToken<TokenHash>>, key: u128) -> nat
    decreases tokens.len(),
{
    if tokens.len() == 0 {
        0
    } else {
        occurrences(tokens.drop_last(), key) + if tokens.last().inner.key_spec() == key {
            1nat
        } else {
            0nat
        }
    }
}

/// The keys that occur among `tokens`.
pub open spec fn token_keys(tokens: Seq<OsbToken<TokenHash>>) -> Set<u128> {
    Set::new(|key: u128| occurrences(tokens, key) > 0)
}

/// The counts kept for `key`; zero where there are none.
pub open spec fn weight_of(weights: Map<u128, Weights>, key: u128) -> Weights {
    if weights.contains_key(key) {
        weights[key]
    } else {
        Weights { spam: 0, ham: 0 }
    }
}

/// The count of one kind.
pub open spec fn count(w: Weights, is_spam: bool) -> u32 {
    if is_spam {
        w.spam
    } else {
        w.ham
    }
}

/// `w` with the count of one kind changed by `by`.
pub open spec fn shifted(w: Weights, is_spam: bool, by: int) -> Weights {
    if is_spam {
        Weights { spam: (w.spam + by) as u32, ham: w.ham }
    } else {
        Weights { spam: w.spam, ham: (w.ham + by) as u32 }
    }
}

/// Distinct token hashes have distinct keys.
pub proof fn lemma_key_injective(a: TokenHash, b: TokenHash)
    requires
        a.key_spec() == b.key_spec(),
    ensures
        a == b,
{
}

impl BayesModel {
    /// A model that has learned nothing.
    pub fn new() -> (m: BayesModel)
        ensures
            m.weights@ == Map::<u128, Weights>::empty(),
            m.spam_learns == 0,
            m.ham_learns == 0,
    {
        BayesModel { weights: HashMap::new(), spam_learns: 0, ham_learns: 0 }
    }

    /// Learns one message: the count of messages of its kind goes up by
    /// one, and the count of that kind goes up by one for each
    /// occurrence of each token.
    pub fn train(&mut self, tokens: Vec<OsbToken<TokenHash>>, is_spam: bool)
        requires
            (if is_spam {
                old(self).spam_learns
            } else {
                old(self).ham_learns
            }) < u32::MAX,
            forall|key: u128|
                count(weight_of(old(self).weights@, key), is_spam) + #[trigger] occurrences(
                    tokens@,
                    key,
                ) <= u32::MAX,
        ensures
            final(self).spam_learns == old(self).spam_learns + if is_spam {
                1int
            } else {
                0int
            },
            final(self).ham_learns == old(self).ham_learns + if is_spam {
                0int
            } else {
                1int
            },
            final(self).weights@.dom() == old(self).weights@.dom().union(token_keys(tokens@)),
            forall|key: u128|
                weight_of(final(self).weights@, key) == shifted(
                    weight_of(old(self).weights@, key),
                    is_spam,
                    #[trigger] occurrences(tokens@, key) as int,
                ),
    {
        if is_spam {
            self.spam_learns += 1;
        } else {
            self.ham_learns += 1;
        }
        let n = tokens.len();
        let mut i: usize = 0;
        while i < n
            invariant
                i <= n,
                n == tokens@.len(),
                self.spam_learns == old(self).spam_learns + if is_spam {
                    1int
                } else {
                    0int
                },
                self.ham_learns == old(self).ham_learns + if is_spam {
                    0int
                } else {
                    1int
                },
                forall|key: u128|
                    count(weight_of(old(self).weights@, key), is_spam) + #[trigger] occurrences(
                        tokens@,
                        key,
                    ) <= u32::MAX,
                self.weights@.dom() == old(self).weights@.dom().union(
                    token_keys(tokens@.take(i as int)),
                ),
                forall|key: u128|
                    weight_of(self.weights@, key) == shifted(
                        weight_of(old(self).weights@, key),
                        is_spam,
                        #[trigger] occurrences(tokens@.take(i as int), key) as int,
                    ),
            decreases n - i,
        {
            let key = tokens[i].inner.key();
            let ghost before = self.weights@;
            proof {
                assert(tokens@.take(i + 1).drop_last() == tokens@.take(i as int));
                assert(tokens@.take(i + 1).last() == tokens@[i as int]);
                lemma_occurrences_prefix(tokens@, i + 1, key);
                assert(occurrences(tokens@.take(i + 1), key) == occurrences(
                    tokens@.take(i as int),
                    key,
                ) + 1);
            }
            let mut w = match self.weights.get(&key) {
                Some(w) => *w,
                None => Weights { spam: 0, ham: 0 },
            };
            assert(w == weight_of(before, key));
            if is_spam {
                w.spam += 1;
            } else {
                w.ham += 1;
            }
            self.weights.insert(key, w);
            proof {
                assert forall|k: u128| #![trigger occurrences(tokens@.take(i + 1), k)]
                    occurrences(tokens@.take(i + 1), k) == occurrences(tokens@.take(i as int), k)
                        + if k == key {
                        1nat
                    } else {
                        0nat
                    } by {
                    assert(occurrences(tokens@.take(i + 1), k) == occurrences(
                        tokens@.take(i as int),
                        k,
                    ) + if tokens@[i as int].inner.key_spec() == k {
                        1nat
                    } else {
                        0nat
                    });
                }
                assert(self.weights@.dom() =~= old(self).weights@.dom().union(
                    token_keys(tokens@.take(i + 1)),
                ));
                assert forall|k: u128|
                    weight_of(self.weights@, k) == shifted(
                        weight_of(old(self).weights@, k),
                        is_spam,
                        #[trigger] occurrences(tokens@.take(i + 1), k) as int,
                    ) by {
                    assert(weight_of(before, k) == shifted(
                        weight_of(old(self).weights@, k),
                        is_spam,
                        occurrences(tokens@.take(i as int), k) as int,
                    ));
                    lemma_occurrences_prefix(tokens@, i + 1, k);
                }
            }
            i += 1;
        }
        proof {
            assert(tokens@.take(n as int) == tokens@);
        }
    }

    /// Forgets one message: the count of messages of its kind goes down
    /// by one, and the count of that kind goes down by one for each
    /// occurrence of each token.
    pub fn untrain(&mut self, tokens: Vec<OsbToken<TokenHash>>, is_spam: bool)
        requires
            (if is_spam {
                old(self).spam_learns
            } else {
                old(self).ham_learns
            }) > 0,
            forall|key: u128|
                count(weight_of(old(self).weights@, key), is_spam) >= #[trigger] occurrences(
                    tokens@,
                    key,
                ),
        ensures
            final(self).spam_learns == old(self).spam_learns - if is_spam {
                1int
            } else {
                0int
            },
            final(self).ham_learns == old(self).ham_learns - if is_spam {
                0int
            } else {
                1int
            },
            final(self).weights@.dom() == old(self).weights@.dom(),
            forall|key: u128|
                weight_of(final(self).weights@, key) == shifted(
                    weight_of(old(self).weights@, key),
                    is_spam,
                    -(#[trigger] occurrences(tokens@, key) as int),
                ),
    {
        if is_spam {
            self.spam_learns -= 1;
        } else {
            self.ham_learns -= 1;
        }
        let n = tokens.len();
        let mut i: usize = 0;
        while i < n
            invariant
                i <= n,
                n == tokens@.len(),
                self.spam_learns == old(self).spam_learns - if is_spam {
                    1int
                } else {
                    0int
                },
                self.ham_learns == old(self).ham_learns - if is_spam {
                    0int
                } else {
                    1int
                },
                forall|key: u128|
                    count(weight_of(old(self).weights@, key), is_spam) >= #[trigger] occurrences(
                        tokens@,
                        key,
                    ),
                self.weights@.dom() == old(self).weights@.dom(),
                forall|key: u128|
                    weight_of(self.weights@, key) == shifted(
                        weight_of(old(self).weights@, key),
                        is_spam,
                        -(#[trigger] occurrences(tokens@.take(i as int), key) as int),
                    ),
            decreases n - i,
        {
            let key = tokens[i].inner.key();
            let ghost before = self.weights@;
            proof {
                assert(tokens@.take(i + 1).drop_last() == tokens@.take(i as int));
                assert(tokens@.take(i + 1).last() == tokens@[i as int]);
                lemma_occurrences_prefix(tokens@, i + 1, key);
                assert(occurrences(tokens@.take(i + 1), key) == occurrences(
                    tokens@.take(i as int),
                    key,
                ) + 1);
                assert(occurrences(tokens@, key) >= 1);
                assert(old(self).weights@.contains_key(key));
            }
            let mut w = match self.weights.get(&key) {
                Some(w) => *w,
                None => Weights { spam: 0, ham: 0 },
            };
            assert(w == weight_of(before, key));
            if is_spam {
                w.spam -= 1;
            } else {
                w.ham -= 1;
            }
            self.weights.insert(key, w);
            proof {
                assert forall|k: u128|
                    weight_of(self.weights@, k) == shifted(
                        weight_of(old(self).weights@, k),
                        is_spam,
                        -(#[trigger] occurrences(tokens@.take(i + 1), k) as int),
                    ) by {
                    assert(weight_of(before, k) == shifted(
                        weight_of(old(self).weights@, k),
                        is_spam,
                        -(occurrences(tokens@.take(i as int), k) as int),
                    ));
                    lemma_occurrences_prefix(tokens@, i + 1, k);
                }
            }
            i += 1;
        }
        proof {
            assert(tokens@.take(n as int) == tokens@);
        }
    }
}

/// A prefix holds no more occurrences of a key than the whole.
pub proof fn lemma_occurrences_prefix(tokens: Seq<OsbToken<TokenHash>>, k: int, key: u128)
    requires
        0 <= k <= tokens.len(),
    ensures
        occurrences(tokens.take(k), key) <= occurrences(tokens, key),
    decreases tokens.len() - k,
{
    if k < tokens.len() {
        lemma_occurrences_prefix(tokens, k + 1, key);
        assert(tokens.take(k + 1).drop_last() == tokens.take(k));
    } else {
        assert(tokens.take(k) == tokens);
    }
}

/// Forgetting a message that was learned gives back the counts that
/// were there before.
pub proof fn lemma_untrain_undoes_train(w: Weights, is_spam: bool, by: int)
    requires
        0 <= by,
        count(w, is_spam) + by <= u32::MAX,
    ensures
        shifted(shifted(w, is_spam, by), is_spam, -by) == w,
{
}

} // verus!
