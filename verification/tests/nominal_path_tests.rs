use lib::ids::{VirFieldId, VirLayoutId, VirTypeId, VirVariantId};
use lib::memory::VirMemoryAccess;
use lib::object_shape::VirObjectPathSegment;
use lib::provenance::VirNominalPath;

const ROOT: VirMemoryAccess = VirMemoryAccess { ty: VirTypeId(3), layout: VirLayoutId(3) };

#[test]
fn extending_in_two_steps_equals_extending_once() {
    let first = [VirObjectPathSegment::Field(VirFieldId::new(2)), VirObjectPathSegment::TupleElement(1)];
    let second = [VirObjectPathSegment::Variant(VirVariantId::new(4))];
    let whole = [
        VirObjectPathSegment::Field(VirFieldId::new(2)),
        VirObjectPathSegment::TupleElement(1),
        VirObjectPathSegment::Variant(VirVariantId::new(4)),
    ];
    let root = VirNominalPath::root(ROOT);
    let stepwise = root.extend(&first).and_then(|p| p.extend(&second)).expect("three steps fit");
    let at_once = root.extend(&whole).expect("three steps fit");
    assert_eq!(stepwise, at_once);
}

#[test]
fn extending_past_eight_steps_fails() {
    let eight = [VirObjectPathSegment::ArrayElement(0); 8];
    let root = VirNominalPath::root(ROOT);
    let full = root.extend(&eight).expect("eight steps fit");
    assert_eq!(full.extend(&[VirObjectPathSegment::ArrayElement(1)]), None);
    assert_eq!(full.extend(&[]), Some(full));
}
