use chain_query::block::BlockIdentifier;
use chain_query::block::BlockTag;
use chain_query::block::CanonicalBlockRef;
use chain_query::block::ChainIndex;
use chain_query::errors::QueryError;

fn chain(hashes: Vec<u64>, orphaned: Vec<u64>) -> ChainIndex {
    ChainIndex { canonical: hashes, orphaned }
}

#[test]
fn by_height_resolves_to_canonical_hash() {
    let c = chain(vec![100, 101, 102], vec![]);
    let r = c.resolve(BlockIdentifier::ByHeight(1)).unwrap();
    assert_eq!(r, CanonicalBlockRef { hash: 101, height: 1 });
}

#[test]
fn by_height_beyond_best_is_block_not_found() {
    let c = chain(vec![100, 101, 102], vec![]);
    let r = c.resolve(BlockIdentifier::ByHeight(3));
    assert_eq!(r, Err(QueryError::BlockNotFound));
    let r = c.resolve(BlockIdentifier::ByHeight(u64::MAX));
    assert_eq!(r, Err(QueryError::BlockNotFound));
}

#[test]
fn by_hash_resolves_height() {
    let c = chain(vec![100, 101, 102], vec![]);
    let r = c.resolve(BlockIdentifier::ByHash(102)).unwrap();
    assert_eq!(r, CanonicalBlockRef { hash: 102, height: 2 });
}

#[test]
fn unknown_hash_is_block_not_found() {
    let c = chain(vec![100, 101, 102], vec![]);
    let r = c.resolve(BlockIdentifier::ByHash(999));
    assert_eq!(r, Err(QueryError::BlockNotFound));
}

#[test]
fn orphaned_hash_is_block_not_found() {
    let c = chain(vec![100, 101, 102], vec![555]);
    let r = c.resolve(BlockIdentifier::ByHash(555));
    assert_eq!(r, Err(QueryError::BlockNotFound));
}

#[test]
fn latest_resolves_to_best_block() {
    let c = chain(vec![100, 101, 102], vec![]);
    let r = c.resolve(BlockIdentifier::Tag(BlockTag::Latest)).unwrap();
    assert_eq!(r, CanonicalBlockRef { hash: 102, height: 2 });
}

#[test]
fn latest_twice_without_new_block_is_stable() {
    let c = chain(vec![100, 101, 102], vec![]);
    let r1 = c.resolve(BlockIdentifier::Tag(BlockTag::Latest));
    let r2 = c.resolve(BlockIdentifier::Tag(BlockTag::Latest));
    assert_eq!(r1, r2);
    assert!(r1.is_ok());
}

#[test]
fn pending_falls_back_to_latest() {
    let c = chain(vec![100, 101, 102], vec![]);
    let p = c.resolve(BlockIdentifier::Tag(BlockTag::Pending));
    let l = c.resolve(BlockIdentifier::Tag(BlockTag::Latest));
    assert_eq!(p, l);
}

#[test]
fn earliest_resolves_to_genesis() {
    let c = chain(vec![100, 101, 102], vec![]);
    let r = c.resolve(BlockIdentifier::Tag(BlockTag::Earliest)).unwrap();
    assert_eq!(r, CanonicalBlockRef { hash: 100, height: 0 });
}

#[test]
fn genesis_only_chain_resolves_all_tags() {
    let c = chain(vec![7], vec![]);
    assert_eq!(
        c.resolve(BlockIdentifier::Tag(BlockTag::Earliest)).unwrap(),
        CanonicalBlockRef { hash: 7, height: 0 }
    );
    assert_eq!(
        c.resolve(BlockIdentifier::Tag(BlockTag::Latest)).unwrap(),
        CanonicalBlockRef { hash: 7, height: 0 }
    );
}
