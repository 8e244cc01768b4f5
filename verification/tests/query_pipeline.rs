use chain_query::block::BlockIdentifier;
use chain_query::block::BlockTag;
use chain_query::block::ChainIndex;
use chain_query::errors::QueryError;
use chain_query::query::ChainState;
use chain_query::snapshot::StateEntry;
use chain_query::state::StateStore;

/// A chain of `n` blocks whose hash at height `h` is `1000 + h`, with the
/// given write set applied at each height that names one.
fn build_state(n: u64, writes_at: Vec<(u64, Vec<StateEntry>)>) -> ChainState {
    let mut store = StateStore::new();
    for h in 0..n {
        let mut writes = Vec::new();
        for (wh, ws) in &writes_at {
            if *wh == h {
                for e in ws {
                    writes.push(StateEntry { key: e.key.clone(), raw: e.raw.clone() });
                }
            }
        }
        store.push_block(writes);
    }
    let canonical = (0..n).map(|h| 1000 + h).collect();
    ChainState { chain: ChainIndex { canonical, orphaned: vec![] }, store }
}

fn entry(key: Vec<u8>, raw: Vec<u8>) -> StateEntry {
    StateEntry { key, raw }
}

#[test]
fn nonce_at_two_heights() {
    // Heights 0..=100; account [0xA1] has nonce 3 from height 50 and
    // nonce 5 from height 100.
    let cs = build_state(
        101,
        vec![
            (50, vec![entry(vec![0xA1], vec![3])]),
            (100, vec![entry(vec![0xA1], vec![5])]),
        ],
    );
    assert_eq!(cs.get_nonce(BlockIdentifier::ByHeight(50), &vec![0xA1]), Ok(3));
    assert_eq!(cs.get_nonce(BlockIdentifier::ByHeight(99), &vec![0xA1]), Ok(3));
    assert_eq!(cs.get_nonce(BlockIdentifier::ByHeight(100), &vec![0xA1]), Ok(5));
    // The nonce never decreases with height.
    let v50 = cs.get_nonce(BlockIdentifier::ByHeight(50), &vec![0xA1]).unwrap();
    let v100 = cs.get_nonce(BlockIdentifier::ByHeight(100), &vec![0xA1]).unwrap();
    assert!(v100 >= v50);
    // A height beyond the chain fails resolution.
    assert_eq!(
        cs.get_nonce(BlockIdentifier::ByHeight(150), &vec![0xA1]),
        Err(QueryError::BlockNotFound)
    );
    // The account does not exist yet at genesis.
    assert_eq!(
        cs.get_nonce(BlockIdentifier::Tag(BlockTag::Earliest), &vec![0xB2]),
        Err(QueryError::KeyNotFound)
    );
}

#[test]
fn absent_key_distinct_from_nonce_zero() {
    let cs = build_state(2, vec![(1, vec![entry(vec![0xA1], vec![])])]);
    // An empty stored entry decodes to nonce zero: the account exists.
    assert_eq!(cs.get_nonce(BlockIdentifier::ByHeight(1), &vec![0xA1]), Ok(0));
    // A key never written yields KeyNotFound, not zero.
    assert_eq!(
        cs.get_nonce(BlockIdentifier::ByHeight(1), &vec![0xB2]),
        Err(QueryError::KeyNotFound)
    );
    // Before the account existed, the same key is also not found.
    assert_eq!(
        cs.get_nonce(BlockIdentifier::ByHeight(0), &vec![0xA1]),
        Err(QueryError::KeyNotFound)
    );
}

#[test]
fn corrupt_entry_is_internal_error() {
    // A stored entry wider than a counter cannot be decoded and is never
    // coerced to a value.
    let wide = vec![1, 0, 0, 0, 0, 0, 0, 0, 0];
    let cs = build_state(1, vec![(0, vec![entry(vec![0xA1], wide)])]);
    assert_eq!(
        cs.get_nonce(BlockIdentifier::ByHeight(0), &vec![0xA1]),
        Err(QueryError::InternalError)
    );
}

#[test]
fn widest_counter_decodes_exactly() {
    let cs = build_state(1, vec![(0, vec![entry(vec![0xA1], vec![0xFF; 8])])]);
    assert_eq!(cs.get_nonce(BlockIdentifier::ByHeight(0), &vec![0xA1]), Ok(u64::MAX));
}

#[test]
fn wire_encodings_of_one_address_agree() {
    let cs = build_state(1, vec![(0, vec![entry(vec![0xA1], vec![7])])]);
    // The same logical address, spelled with and without leading zeros.
    let bare = vec![0xA1];
    let padded = vec![0, 0, 0, 0xA1];
    assert_eq!(cs.get_nonce(BlockIdentifier::ByHeight(0), &bare), Ok(7));
    assert_eq!(
        cs.get_nonce(BlockIdentifier::ByHeight(0), &bare),
        cs.get_nonce(BlockIdentifier::ByHeight(0), &padded)
    );
}

#[test]
fn repeated_reads_are_identical() {
    let cs = build_state(3, vec![(1, vec![entry(vec![0xA1], vec![9])])]);
    let first = cs.get_nonce(BlockIdentifier::ByHeight(2), &vec![0xA1]);
    let second = cs.get_nonce(BlockIdentifier::ByHeight(2), &vec![0xA1]);
    assert_eq!(first, second);
    assert_eq!(first, Ok(9));
    let e1 = cs.get_nonce(BlockIdentifier::ByHash(4), &vec![0xA1]);
    let e2 = cs.get_nonce(BlockIdentifier::ByHash(4), &vec![0xA1]);
    assert_eq!(e1, e2);
}

#[test]
fn later_write_overrides_earlier_one() {
    let cs = build_state(
        3,
        vec![
            (0, vec![entry(vec![0xA1], vec![1]), entry(vec![0xC3], vec![2])]),
            (2, vec![entry(vec![0xA1], vec![4])]),
        ],
    );
    assert_eq!(cs.get_nonce(BlockIdentifier::ByHeight(2), &vec![0xA1]), Ok(4));
    // An untouched account keeps its value.
    assert_eq!(cs.get_nonce(BlockIdentifier::ByHeight(2), &vec![0xC3]), Ok(2));
}

#[test]
fn wire_codes_are_stable() {
    assert_eq!(QueryError::BlockNotFound.wire_code(), "BLOCK_NOT_FOUND");
    assert_eq!(QueryError::StateUnavailable.wire_code(), "BLOCK_NOT_FOUND");
    assert_eq!(QueryError::KeyNotFound.wire_code(), "CONTRACT_NOT_FOUND");
    assert_eq!(QueryError::InternalError.wire_code(), "INTERNAL_ERROR");
}
