use lib::dump::dump_memory_schema;
use lib::ids::{DropCapability, SizeCapability, TypeCapabilities, ValueCapability, VirFieldId, VirLayoutId, VirTypeId, VirVariantId};
use lib::memory::{
    VirAbiClass, VirEndianness, VirField, VirFieldLayout, VirIntegerType, VirLayout, VirMemorySchema, VirMemoryType, VirMemoryTypeKind,
    VirTargetDataLayout, VirVariant, VirVariantCaseLayout, VirVariantLayout,
};

#[test]
fn core_u64_schema_dumps_target_type_and_layout_lines() {
    let mut out = String::new();
    dump_memory_schema(&mut out, &VirMemorySchema::core_u64());
    assert_eq!(
        out,
        "target little pointer 8/8 usize 8/8\n\
         type type0 = u64 layout layout0 capabilities copy/trivial-drop/resource-free/sized\n\
         layout layout0 type type0 size 8 align 8 abi scalar fields []\n"
    );
}

#[test]
fn enum_schema_dumps_fields_variants_and_cases() {
    let caps = TypeCapabilities {
        value: ValueCapability::MoveOnly,
        drop: DropCapability::BuiltinDrop,
        contains_resource: true,
        size: SizeCapability::Sized,
    };
    let memory = VirMemorySchema {
        target: VirTargetDataLayout {
            endianness: VirEndianness::Big,
            pointer_size_bytes: 4,
            pointer_alignment: 4,
            usize_size_bytes: 4,
            usize_alignment: 4,
        },
        types: vec![
            VirMemoryType { id: VirTypeId(0), kind: VirMemoryTypeKind::Integer(VirIntegerType::U64), layout: VirLayoutId(0) },
            VirMemoryType {
                id: VirTypeId(1),
                kind: VirMemoryTypeKind::Enum { variants: vec![VirVariantId::new(0), VirVariantId::new(1)] },
                layout: VirLayoutId(1),
            },
        ],
        type_capabilities: vec![caps],
        layouts: vec![VirLayout {
            id: VirLayoutId(1),
            ty: VirTypeId(1),
            size_bytes: 16,
            alignment: 8,
            abi: VirAbiClass::Aggregate,
            fields: vec![],
            variants: Some(VirVariantLayout {
                tag_size_bytes: 8,
                tag_alignment: 8,
                cases: vec![
                    VirVariantCaseLayout {
                        variant: VirVariantId::new(0),
                        payload_offset_bytes: 8,
                        fields: vec![VirFieldLayout { field: VirFieldId::new(0), offset_bytes: 0 }],
                    },
                    VirVariantCaseLayout { variant: VirVariantId::new(1), payload_offset_bytes: 8, fields: vec![] },
                ],
            }),
        }],
        fields: vec![VirField { id: VirFieldId::new(0), owner: VirTypeId(1), ty: VirTypeId(0) }],
        variants: vec![
            VirVariant { id: VirVariantId::new(0), owner: VirTypeId(1), fields: vec![VirFieldId::new(0)], discriminant: 0 },
            VirVariant { id: VirVariantId::new(1), owner: VirTypeId(1), fields: vec![], discriminant: 1 },
        ],
    };
    let mut out = String::from("# ");
    dump_memory_schema(&mut out, &memory);
    assert_eq!(
        out,
        "# target big pointer 4/4 usize 4/4\n\
         type type0 = u64 layout layout0 capabilities move-only/builtin-drop/resource/sized\n\
         type type1 = enum<variant0, variant1> layout layout1 capabilities <missing>\n\
         field field0 owner type1 type type0\n\
         variant variant0 owner type1 discriminant 0 fields [field0]\n\
         variant variant1 owner type1 discriminant 1 fields []\n\
         layout layout1 type type1 size 16 align 8 abi aggregate fields [] variants tag 8/8 [variant0@8(field0@0), variant1@8()]\n"
    );
}
