use light_client::store::{LightStore, State, StoreEntry};
use light_client::supervisor::Instance;
use light_client::types::{Height, LightBlock, SignedHeader, Status};

fn lb(height: Height, header_hash: u64) -> LightBlock {
    LightBlock {
        signed_header: SignedHeader { height, header_hash, commit_hash: 0 },
        validators_hash: 1,
        next_validators_hash: 2,
        provider: 3,
    }
}

#[test]
fn empty_store_has_nothing() {
    let store = LightStore::new();
    assert_eq!(store.get(0), None);
    assert_eq!(store.highest(Status::Trusted), None);
    assert_eq!(store.highest(Status::Unverified), None);
}

#[test]
fn update_replaces_the_block_at_a_height() {
    let mut store = LightStore::new();
    store.update(&lb(5, 1), Status::Verified);
    store.update(&lb(7, 2), Status::Trusted);
    store.update(&lb(5, 9), Status::Failed);
    assert_eq!(store.get(5), Some(StoreEntry { block: lb(5, 9), status: Status::Failed }));
    assert_eq!(store.get(7), Some(StoreEntry { block: lb(7, 2), status: Status::Trusted }));
    assert_eq!(store.get(6), None);
    assert_eq!(store.highest(Status::Verified), None);
}

#[test]
fn highest_goes_by_status_and_height() {
    let mut store = LightStore::new();
    store.update(&lb(9, 1), Status::Trusted);
    store.update(&lb(3, 2), Status::Trusted);
    store.update(&lb(20, 3), Status::Verified);
    store.update(&lb(u64::MAX, 4), Status::Unverified);
    assert_eq!(store.highest(Status::Trusted), Some(lb(9, 1)));
    assert_eq!(store.highest(Status::Verified), Some(lb(20, 3)));
    assert_eq!(store.highest(Status::Unverified), Some(lb(u64::MAX, 4)));
    assert_eq!(store.highest(Status::Failed), None);
}

#[test]
fn instance_trusts_blocks() {
    let mut inst = Instance::new((), State::new(LightStore::new()));
    assert_eq!(inst.latest_trusted(), None);
    inst.state.light_store.update(&lb(4, 1), Status::Verified);
    assert_eq!(inst.latest_trusted(), None);
    inst.trust_block(&lb(4, 1));
    assert_eq!(inst.latest_trusted(), Some(lb(4, 1)));
    inst.trust_block(&lb(2, 2));
    assert_eq!(inst.latest_trusted(), Some(lb(4, 1)));
    inst.trust_block(&lb(4, 1));
    assert_eq!(inst.latest_trusted(), Some(lb(4, 1)));
    inst.trust_block(&lb(8, 3));
    assert_eq!(inst.latest_trusted(), Some(lb(8, 3)));
    assert_eq!(
        inst.state.light_store.get(2),
        Some(StoreEntry { block: lb(2, 2), status: Status::Trusted })
    );
}
