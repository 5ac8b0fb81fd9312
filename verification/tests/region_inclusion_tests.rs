use lib::borrow::{VirBorrowEnvironment, VirBorrowRegion, VirBorrowRegionConstraint, VirBorrowRegionOrigin, VirBorrowRegionScope};
use lib::ids::{VirBorrowRegionConstraintId, VirBorrowRegionId, VirFunctionId, VirOriginId};

fn region(id: u32, owner: u32) -> VirBorrowRegion {
    VirBorrowRegion {
        id: VirBorrowRegionId(id),
        owner: VirFunctionId(owner),
        origin: VirBorrowRegionOrigin::Inferred,
        scope: VirBorrowRegionScope::Function,
        source_origin: VirOriginId(0),
    }
}

fn edge(id: u32, owner: u32, sub: u32, sup: u32) -> VirBorrowRegionConstraint {
    VirBorrowRegionConstraint {
        id: VirBorrowRegionConstraintId(id),
        owner: VirFunctionId(owner),
        subregion: VirBorrowRegionId(sub),
        superregion: VirBorrowRegionId(sup),
        source_origin: VirOriginId(0),
    }
}

fn environment() -> VirBorrowEnvironment {
    VirBorrowEnvironment::from_tables(
        vec![region(0, 0), region(1, 0), region(2, 0), region(3, 0), region(4, 1)],
        vec![edge(0, 0, 0, 1), edge(1, 0, 1, 2), edge(2, 1, 2, 3)],
    )
}

#[test]
fn inclusion_follows_same_owner_chains_only() {
    let env = environment();
    let r = VirBorrowRegionId;
    assert_eq!(env.includes(r(0), r(2), 100), Some(true));
    assert_eq!(env.includes(r(0), r(0), 100), Some(true));
    assert_eq!(env.includes(r(2), r(0), 100), Some(false));
    assert_eq!(env.includes(r(0), r(3), 100), Some(false));
    assert_eq!(env.includes(r(0), r(4), 100), Some(false));
    assert_eq!(env.includes(r(0), r(9), 100), None);
}

#[test]
fn inclusion_gives_up_past_its_visit_limit() {
    let env = environment();
    assert_eq!(env.includes(VirBorrowRegionId(0), VirBorrowRegionId(3), 1), None);
}
