use lib::ids::{ValueCapability, VirTypeId};
use lib::memory::{VirMemorySchema, VirMemorySchemaErrorKind, VirSchemaTable};
use lib::object_shape::VirObjectShapeErrorKind;

fn word_access(schema: &VirMemorySchema) -> lib::memory::VirMemoryAccess {
    schema.access(VirTypeId(0)).expect("the word type resolves")
}

#[test]
fn capability_table_of_wrong_length_is_reported() {
    let mut schema = VirMemorySchema::core_u64();
    schema.type_capabilities = vec![];
    let error = schema.validate().expect_err("a missing capability table is refused");
    assert_eq!(*error.kind(), VirMemorySchemaErrorKind::TypeCapabilityTableMismatch);
}

#[test]
fn stored_capability_that_differs_from_the_derived_one_is_reported() {
    let mut schema = VirMemorySchema::core_u64();
    schema.type_capabilities[0].value = ValueCapability::MoveOnly;
    let error = schema.validate().expect_err("a wrong capability is refused");
    assert_eq!(*error.kind(), VirMemorySchemaErrorKind::TypeCapabilityMismatch { ty: VirTypeId(0) });
}

#[test]
fn object_shape_reports_the_fault_validation_reports() {
    let mut wrong_length = VirMemorySchema::core_u64();
    let access = word_access(&wrong_length);
    wrong_length.type_capabilities = vec![];
    let error = wrong_length.object_shape(access).expect_err("an invalid schema derives no shape");
    assert_eq!(
        *error.kind(),
        VirObjectShapeErrorKind::InvalidSchema(VirMemorySchemaErrorKind::TypeCapabilityTableMismatch)
    );

    let mut non_dense = VirMemorySchema::core_u64();
    non_dense.types[0].id = VirTypeId(1);
    let reported = non_dense.validate().expect_err("a non-dense type table is refused");
    assert_eq!(*reported.kind(), VirMemorySchemaErrorKind::NonDenseTable { table: VirSchemaTable::Type });
    let error = non_dense.object_shape(access).expect_err("an invalid schema derives no shape");
    assert_eq!(*error.kind(), VirObjectShapeErrorKind::InvalidSchema(reported.kind().clone()));
}

#[test]
fn rebuilding_capabilities_twice_keeps_the_table_and_validates() {
    let mut schema = VirMemorySchema::core_u64();
    schema.type_capabilities = vec![];
    schema.assign_canonical_type_capabilities().expect("the word type derives capabilities");
    let first = schema.type_capabilities.clone();
    assert_eq!(first, VirMemorySchema::core_u64().type_capabilities);
    assert_eq!(schema.validate(), Ok(()));
    schema.assign_canonical_type_capabilities().expect("a second rebuild succeeds");
    assert_eq!(schema.type_capabilities, first);
    assert_eq!(schema.validate(), Ok(()));
}
