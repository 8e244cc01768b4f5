use chain_query::address::normalize;
use chain_query::block::BlockIdentifier;
use chain_query::block::ChainIndex;
use chain_query::encoding::decode_u64;
use chain_query::errors::QueryError;
use chain_query::query::ChainState;
use chain_query::snapshot::StateEntry;
use chain_query::state::StateStore;

fn build(n: u64, nonce_at: impl Fn(u64) -> Option<(Vec<u8>, Vec<u8>)>) -> ChainState {
    let mut store = StateStore::new();
    for h in 0..n {
        let mut writes = Vec::new();
        if let Some((key, raw)) = nonce_at(h) {
            writes.push(StateEntry { key, raw });
        }
        store.push_block(writes);
    }
    let canonical = (0..n).map(|h| 1000 + h).collect();
    ChainState { chain: ChainIndex { canonical, orphaned: vec![] }, store }
}

#[test]
fn pruned_height_is_reconstructed_exactly() {
    // State for height 10 is pruned from the direct store but remains
    // reconstructable from the retained write sets: the answer must be the
    // one the direct store gave before pruning.
    let mut cs = build(12, |h| {
        if h == 4 {
            Some((vec![0xA1], vec![3]))
        } else {
            None
        }
    });
    let before = cs.get_nonce(BlockIdentifier::ByHeight(10), &vec![0xA1]);
    assert_eq!(before, Ok(3));
    cs.store.prune_direct(10);
    let after = cs.get_nonce(BlockIdentifier::ByHeight(10), &vec![0xA1]);
    assert_eq!(after, before);
}

#[test]
fn unreconstructable_height_is_state_unavailable() {
    let mut cs = build(6, |h| {
        if h == 1 {
            Some((vec![0xA1], vec![2]))
        } else {
            None
        }
    });
    cs.store.prune_direct(3);
    cs.store.prune_diff(2);
    // Height 3: direct snapshot gone, and replay is broken below it.
    assert_eq!(
        cs.get_nonce(BlockIdentifier::ByHeight(3), &vec![0xA1]),
        Err(QueryError::StateUnavailable)
    );
    // The block itself still resolves: the failure is about state, not
    // about the block's existence.
    assert!(cs.chain.resolve(BlockIdentifier::ByHeight(3)).is_ok());
    // A later height with its direct snapshot intact still answers.
    assert_eq!(cs.get_nonce(BlockIdentifier::ByHeight(5), &vec![0xA1]), Ok(2));
}

#[test]
fn pruning_the_tip_write_set_keeps_direct_reads() {
    let mut cs = build(4, |h| {
        if h == 0 {
            Some((vec![0xA1], vec![9]))
        } else {
            None
        }
    });
    cs.store.prune_diff(3);
    // The direct store still serves the height whose write set is gone.
    assert_eq!(cs.get_nonce(BlockIdentifier::ByHeight(3), &vec![0xA1]), Ok(9));
}

#[test]
fn every_pruned_height_answers_as_before() {
    // Prune every direct snapshot below the tip: each height must still
    // answer exactly as it did when the direct store held it.
    let mut cs = build(9, |h| {
        if h % 2 == 0 {
            Some((vec![0xA1], vec![h as u8]))
        } else {
            None
        }
    });
    let mut before = Vec::new();
    for h in 0..9 {
        before.push(cs.get_nonce(BlockIdentifier::ByHeight(h), &vec![0xA1]));
    }
    for h in 0..8 {
        cs.store.prune_direct(h);
    }
    for h in 0..9 {
        let after = cs.get_nonce(BlockIdentifier::ByHeight(h), &vec![0xA1]);
        assert_eq!(after, before[h as usize]);
    }
    assert_eq!(before[0], Ok(0));
    assert_eq!(before[8], Ok(8));
}

#[test]
fn normalize_strips_leading_zeros() {
    let k = normalize(&vec![0, 0, 0xA1, 0x05]);
    assert_eq!(k.bytes, vec![0xA1, 0x05]);
    let z = normalize(&vec![0, 0, 0]);
    assert_eq!(z.bytes, Vec::<u8>::new());
}

#[test]
fn decode_bounds() {
    assert_eq!(decode_u64(&vec![]), Some(0));
    assert_eq!(decode_u64(&vec![1, 0]), Some(256));
    assert_eq!(decode_u64(&vec![0xFF; 8]), Some(u64::MAX));
    assert_eq!(decode_u64(&vec![1, 0, 0, 0, 0, 0, 0, 0, 0]), None);
}

#[test]
fn empty_store_covers_no_heights() {
    let store = StateStore::new();
    assert_eq!(store.diffs.len(), 0);
    assert_eq!(store.direct.len(), 0);
}
