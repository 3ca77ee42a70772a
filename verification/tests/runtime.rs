use finality_pbft::{AuthorityId, AuthorityList, PbftApi, SetId};

/// A host that knows at which block each authority set took effect.
struct Host {
    /// The block at which a set took effect, with the list, oldest first.
    sets: Vec<(u64, AuthorityList)>,
}

impl Host {
    fn generation_at(&self, at: u64) -> usize {
        self.sets.iter().rposition(|(since, _)| *since <= at).unwrap()
    }
}

impl PbftApi for Host {
    type BlockId = u64;

    fn pbft_authorities(&self, at: &u64) -> AuthorityList {
        self.sets[self.generation_at(*at)].1.clone()
    }

    fn current_set_id(&self, at: &u64) -> SetId {
        self.generation_at(*at) as u64
    }
}

#[test]
fn query_as_of_a_block_gives_the_set_for_its_descendants() {
    let old = vec![AuthorityId([1; 32]), AuthorityId([2; 32])];
    let new = vec![AuthorityId([3; 32])];
    // A change signalled in block 7 with a delay of 3 takes effect with block 10: block 10
    // is still finalized by the old set, its descendants by the new one.
    let host = Host { sets: vec![(0, old.clone()), (10, new.clone())] };
    let finalizers_of = |block: u64| host.pbft_authorities(&(block - 1));

    assert_eq!(host.pbft_authorities(&9), old);
    assert_eq!(host.pbft_authorities(&10), new);
    assert_eq!(finalizers_of(10), old);
    assert_eq!(finalizers_of(11), new);
    assert_eq!(finalizers_of(12), new);
    assert_eq!(host.current_set_id(&9), 0);
    assert_eq!(host.current_set_id(&10), 1);
}
