use std::hash::{DefaultHasher, Hash, Hasher};

use crabsweeper::hash;
use deterministic_hash::DeterministicHasher;

#[test]
fn text_hash_is_the_deterministic_hash_of_the_text() {
    let mut hasher = DeterministicHasher::new(DefaultHasher::new());
    String::from("crab").hash(&mut hasher);
    assert_eq!(hash("crab"), hasher.finish());
    assert_eq!(hash(""), hash(&String::new()));
    assert_ne!(hash("crab"), hash("crabs"));
}
