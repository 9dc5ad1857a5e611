use std::collections::{HashMap, HashSet};

use moss_street::pair::SwapPair;

#[test]
fn test_cmp() {
    let a = SwapPair::new("usd".to_string(), "btc".to_string());
    let b = SwapPair::new("btc".to_string(), "usd".to_string());

    assert_eq!(
        a, b,
        "Swap Pairs did not match! {a:#?} is supposed to be equal to {b:#?}"
    );
}

#[test]
fn test_hashes_equal() {
    let a = SwapPair::new("usd".to_string(), "btc".to_string());
    let b = SwapPair::new("btc".to_string(), "usd".to_string());

    let mut hs = HashSet::new();
    hs.insert(a);
    hs.insert(b);

    assert_eq!(hs.len(), 1);
}

#[test]
fn test_swap_pair_in_hash_map() {
    let a = SwapPair::new("usd".to_string(), "btc".to_string());
    let b = SwapPair::new("btc".to_string(), "usd".to_string());

    let mut hm = HashMap::new();
    let a_val = "A Value";
    hm.insert(&a, a_val);
    assert_eq!(*hm.get(&a).unwrap(), a_val);

    let b_val = "B Value";
    let removed = hm.insert(&b, b_val).unwrap();
    assert_eq!(removed, a_val);
    assert_eq!(*hm.get(&b).unwrap(), b_val);
}

#[test]
fn test_canonical_order() {
    let a = SwapPair::new("usd".to_string(), "btc".to_string());
    assert_eq!(a.first().as_str(), "btc");
    assert_eq!(a.second().as_str(), "usd");
    let b = SwapPair::new("btc".to_string(), "usd".to_string());
    assert_eq!(b.first().as_str(), "btc");
    assert_eq!(b.second().as_str(), "usd");
}

#[test]
fn test_has_symbol() {
    let a = SwapPair::new("usd".to_string(), "btc".to_string());
    assert!(a.has_symbol(&"usd".to_string()));
    assert!(a.has_symbol(&"btc".to_string()));
    assert!(!a.has_symbol(&"eth".to_string()));
}
