use meonode_compiler::order::{order_preserved, EmitRank};

#[test]
fn zero_effectful_values_is_trivially_preserved() {
    assert!(order_preserved(&[]));
}

#[test]
fn one_effectful_value_is_trivially_preserved() {
    assert!(order_preserved(&[EmitRank::Special]));
    assert!(order_preserved(&[EmitRank::Css]));
    assert!(order_preserved(&[EmitRank::Data]));
    assert!(order_preserved(&[EmitRank::Spread]));
}

#[test]
fn two_effectful_values_same_rank_preserved() {
    // Same bucket: relative source order is preserved by construction
    // (nothing is reordered within a bucket), so equal ranks are
    // always fine regardless of which bucket.
    assert!(order_preserved(&[EmitRank::Css, EmitRank::Css]));
    assert!(order_preserved(&[EmitRank::Data, EmitRank::Data]));
    assert!(order_preserved(&[EmitRank::Special, EmitRank::Special]));
}

#[test]
fn two_effectful_values_increasing_rank_preserved() {
    assert!(order_preserved(&[EmitRank::Spread, EmitRank::Css]));
    assert!(order_preserved(&[EmitRank::Css, EmitRank::Data]));
    assert!(order_preserved(&[EmitRank::Data, EmitRank::Special]));
    assert!(order_preserved(&[EmitRank::Spread, EmitRank::Special]));
}

#[test]
fn two_effectful_values_decreasing_rank_violates_order() {
    // A `d`-bucket effectful value in source before a `c`-bucket
    // effectful value: emission puts `c` first, so this is exactly the
    // reordering that has to be rejected.
    assert!(!order_preserved(&[EmitRank::Data, EmitRank::Css]));
    assert!(!order_preserved(&[EmitRank::Special, EmitRank::Data]));
    assert!(!order_preserved(&[EmitRank::Special, EmitRank::Css]));
    assert!(!order_preserved(&[EmitRank::Css, EmitRank::Spread]));
}

#[test]
fn three_effectful_values_all_non_decreasing_preserved() {
    assert!(order_preserved(&[EmitRank::Spread, EmitRank::Css, EmitRank::Css]));
    assert!(order_preserved(&[EmitRank::Css, EmitRank::Data, EmitRank::Special]));
    assert!(order_preserved(&[EmitRank::Spread, EmitRank::Data, EmitRank::Special]));
}

#[test]
fn three_effectful_values_single_inversion_in_middle_violates_order() {
    // Css, Special, Data: the middle-to-last step (Special -> Data) is a
    // decrease, even though the first step (Css -> Special) increases.
    assert!(!order_preserved(&[EmitRank::Css, EmitRank::Special, EmitRank::Data]));
}

#[test]
fn three_effectful_values_last_pair_inverted_violates_order() {
    assert!(!order_preserved(&[EmitRank::Spread, EmitRank::Data, EmitRank::Css]));
}

#[test]
fn many_same_rank_values_are_fine() {
    assert!(order_preserved(&[EmitRank::Data, EmitRank::Data, EmitRank::Data, EmitRank::Data, EmitRank::Data]));
}
