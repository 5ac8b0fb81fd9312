//! The stable text form of a memory schema: its target, then one line per
//! type, field, variant and layout, in table order.

use vstd::prelude::*;
use vstd::string::StringExecFns;

use crate::ids::{DropCapability, SizeCapability, ValueCapability, VirFieldId, VirTypeId, VirVariantId};
use crate::memory::{
    VirAbiClass, VirEndianness, VirField, VirFieldLayout, VirIntegerType, VirLayout, VirMemorySchema, VirMemoryType, VirMemoryTypeKind,
    VirMutability, VirPointerKind, VirVariant, VirVariantCaseLayout,
};
use crate::messages::{append_decimal, decimal};

verus! {

/// The items `item(0)`, ..., `item(n - 1)`, separated by `sep`.
pub open spec fn joined(item: spec_fn(int) -> Seq<char>, sep: Seq<char>, n: int) -> Seq<char>
    decreases n,
{
    if n <= 0 {
        Seq::empty()
    } else {
        joined(item, sep, n - 1) + (if n > 1 { sep } else { Seq::empty() }) + item(n - 1)
    }
}

pub open spec fn spec_endianness_name(e: VirEndianness) -> Seq<char> {
    match e {
        VirEndianness::Little => "little"@,
        VirEndianness::Big => "big"@,
    }
}

pub open spec fn spec_integer_name(i: VirIntegerType) -> Seq<char> {
    match i {
        VirIntegerType::U8 => "u8"@,
        VirIntegerType::U16 => "u16"@,
        VirIntegerType::U32 => "u32"@,
        VirIntegerType::U64 => "u64"@,
        VirIntegerType::U128 => "u128"@,
        VirIntegerType::Usize => "usize"@,
        VirIntegerType::I8 => "i8"@,
        VirIntegerType::I16 => "i16"@,
        VirIntegerType::I32 => "i32"@,
        VirIntegerType::I64 => "i64"@,
        VirIntegerType::I128 => "i128"@,
        VirIntegerType::Isize => "isize"@,
    }
}

pub open spec fn spec_mutability_name(m: VirMutability) -> Seq<char> {
    match m {
        VirMutability::Const => "const"@,
        VirMutability::Mutable => "mutable"@,
    }
}

pub open spec fn spec_pointer_kind_name(k: VirPointerKind) -> Seq<char> {
    match k {
        VirPointerKind::Own => "own"@,
        VirPointerKind::Raw => "raw"@,
        VirPointerKind::Reference => "reference"@,
    }
}

pub open spec fn spec_abi_name(a: VirAbiClass) -> Seq<char> {
    match a {
        VirAbiClass::Ignore => "ignore"@,
        VirAbiClass::Scalar => "scalar"@,
        VirAbiClass::ScalarPair => "scalar-pair"@,
        VirAbiClass::Aggregate => "aggregate"@,
    }
}

pub open spec fn spec_value_capability_name(c: ValueCapability) -> Seq<char> {
    match c {
        ValueCapability::Copy => "copy"@,
        ValueCapability::MoveOnly => "move-only"@,
    }
}

pub open spec fn spec_drop_capability_name(c: DropCapability) -> Seq<char> {
    match c {
        DropCapability::TrivialDrop => "trivial-drop"@,
        DropCapability::BuiltinDrop => "builtin-drop"@,
        DropCapability::UserDropGated => "user-drop-gated"@,
    }
}

pub open spec fn spec_size_capability_name(c: SizeCapability) -> Seq<char> {
    match c {
        SizeCapability::Sized => "sized"@,
        SizeCapability::Unsized => "unsized"@,
    }
}

/// `type<id>` for each type of `ids`.
pub open spec fn type_items(ids: Seq<VirTypeId>) -> spec_fn(int) -> Seq<char> {
    |k: int| "type"@ + decimal(ids[k].0 as nat)
}

/// `field<id>` for each field of `ids`.
pub open spec fn field_items(ids: Seq<VirFieldId>) -> spec_fn(int) -> Seq<char> {
    |k: int| "field"@ + decimal(ids[k].0 as nat)
}

/// `variant<id>` for each variant of `ids`.
pub open spec fn variant_items(ids: Seq<VirVariantId>) -> spec_fn(int) -> Seq<char> {
    |k: int| "variant"@ + decimal(ids[k].0 as nat)
}

/// `field<id>@<offset>` for each field layout of `fields`.
pub open spec fn field_layout_items(fields: Seq<VirFieldLayout>) -> spec_fn(int) -> Seq<char> {
    |k: int| "field"@ + decimal(fields[k].field.0 as nat) + "@"@ + decimal(fields[k].offset_bytes as nat)
}

/// `variant<id>@<payload offset>(<field layouts>)` for each case of `cases`.
pub open spec fn case_items(cases: Seq<VirVariantCaseLayout>) -> spec_fn(int) -> Seq<char> {
    |k: int|
        "variant"@ + decimal(cases[k].variant.0 as nat) + "@"@ + decimal(cases[k].payload_offset_bytes as nat) + "("@ + joined(
            field_layout_items(cases[k].fields@),
            ", "@,
            cases[k].fields@.len() as int,
        ) + ")"@
}

/// The text of a memory type kind.
pub open spec fn spec_kind_text(kind: VirMemoryTypeKind) -> Seq<char> {
    match kind {
        VirMemoryTypeKind::Unit => "unit"@,
        VirMemoryTypeKind::Bool => "bool"@,
        VirMemoryTypeKind::Integer(i) => spec_integer_name(i),
        VirMemoryTypeKind::Pointer { pointee, kind, mutability } => spec_pointer_kind_name(kind) + " "@ + spec_mutability_name(mutability)
            + " pointer<type"@ + decimal(pointee.0 as nat) + ">"@,
        VirMemoryTypeKind::Array { element, length } => "array<type"@ + decimal(element.0 as nat) + "; "@ + decimal(length as nat) + ">"@,
        VirMemoryTypeKind::Slice { element, mutability } => "slice<"@ + spec_mutability_name(mutability) + " type"@ + decimal(
            element.0 as nat,
        ) + ">"@,
        VirMemoryTypeKind::Tuple(elements) => "tuple<"@ + joined(type_items(elements@), ", "@, elements@.len() as int) + ">"@,
        VirMemoryTypeKind::Struct { fields } => "struct<"@ + joined(field_items(fields@), ", "@, fields@.len() as int) + ">"@,
        VirMemoryTypeKind::Enum { variants } => "enum<"@ + joined(variant_items(variants@), ", "@, variants@.len() as int) + ">"@,
        VirMemoryTypeKind::Never => "never"@,
    }
}

/// The line of type `ty`: its kind, layout and capabilities.
pub open spec fn spec_type_line(memory: VirMemorySchema, ty: VirMemoryType) -> Seq<char> {
    "type type"@ + decimal(ty.id.0 as nat) + " = "@ + spec_kind_text(ty.kind) + " layout layout"@ + decimal(ty.layout.0 as nat)
        + " capabilities "@ + match memory.spec_type_capabilities(ty.id) {
        Some(c) => spec_value_capability_name(c.value) + "/"@ + spec_drop_capability_name(c.drop) + "/"@ + (if c.contains_resource {
            "resource"@
        } else {
            "resource-free"@
        }) + "/"@ + spec_size_capability_name(c.size),
        None => "<missing>"@,
    } + "\n"@
}

/// The line of field `f`.
pub open spec fn spec_field_line(f: VirField) -> Seq<char> {
    "field field"@ + decimal(f.id.0 as nat) + " owner type"@ + decimal(f.owner.0 as nat) + " type type"@ + decimal(f.ty.0 as nat) + "\n"@
}

/// The line of variant `v`.
pub open spec fn spec_variant_line(v: VirVariant) -> Seq<char> {
    "variant variant"@ + decimal(v.id.0 as nat) + " owner type"@ + decimal(v.owner.0 as nat) + " discriminant "@ + decimal(
        v.discriminant as nat,
    ) + " fields ["@ + joined(field_items(v.fields@), ", "@, v.fields@.len() as int) + "]\n"@
}

/// The line of layout `l`: its size, alignment, ABI and field offsets,
/// then its tag and cases for an enum.
pub open spec fn spec_layout_line(l: VirLayout) -> Seq<char> {
    spec_layout_head(l) + spec_layout_variants(l) + "\n"@
}

/// The part of a layout line before the cases.
pub open spec fn spec_layout_head(l: VirLayout) -> Seq<char> {
    "layout layout"@ + decimal(l.id.0 as nat) + " type type"@ + decimal(l.ty.0 as nat) + " size "@ + decimal(l.size_bytes as nat)
        + " align "@ + decimal(l.alignment as nat) + " abi "@ + spec_abi_name(l.abi) + " fields ["@ + joined(
        field_layout_items(l.fields@),
        ", "@,
        l.fields@.len() as int,
    ) + "]"@
}

/// The tag and cases of an enum layout; nothing for any other layout.
pub open spec fn spec_layout_variants(l: VirLayout) -> Seq<char> {
    match l.variants {
        Some(vl) => " variants tag "@ + decimal(vl.tag_size_bytes as nat) + "/"@ + decimal(vl.tag_alignment as nat) + " ["@ + joined(
            case_items(vl.cases@),
            ", "@,
            vl.cases@.len() as int,
        ) + "]"@,
        None => Seq::empty(),
    }
}

/// The target line of `memory`.
pub open spec fn spec_target_line(memory: VirMemorySchema) -> Seq<char> {
    let t = memory.target;
    "target "@ + spec_endianness_name(t.endianness) + " pointer "@ + decimal(t.pointer_size_bytes as nat) + "/"@ + decimal(
        t.pointer_alignment as nat,
    ) + " usize "@ + decimal(t.usize_size_bytes as nat) + "/"@ + decimal(t.usize_alignment as nat) + "\n"@
}

/// The text of `memory`: the target line, then the lines of its types,
/// fields, variants and layouts in table order.
pub open spec fn spec_dump_schema(memory: VirMemorySchema) -> Seq<char> {
    spec_target_line(memory) + joined(|k: int| spec_type_line(memory, memory.types@[k]), Seq::empty(), memory.types@.len() as int)
        + joined(|k: int| spec_field_line(memory.fields@[k]), Seq::empty(), memory.fields@.len() as int) + joined(
        |k: int| spec_variant_line(memory.variants@[k]),
        Seq::empty(),
        memory.variants@.len() as int,
    ) + joined(|k: int| spec_layout_line(memory.layouts@[k]), Seq::empty(), memory.layouts@.len() as int)
}

fn endianness_name(e: VirEndianness) -> (r: &'static str)
    ensures
        r@ == spec_endianness_name(e),
{
    match e {
        VirEndianness::Little => "little",
        VirEndianness::Big => "big",
    }
}

fn integer_name(i: VirIntegerType) -> (r: &'static str)
    ensures
        r@ == spec_integer_name(i),
{
    match i {
        VirIntegerType::U8 => "u8",
        VirIntegerType::U16 => "u16",
        VirIntegerType::U32 => "u32",
        VirIntegerType::U64 => "u64",
        VirIntegerType::U128 => "u128",
        VirIntegerType::Usize => "usize",
        VirIntegerType::I8 => "i8",
        VirIntegerType::I16 => "i16",
        VirIntegerType::I32 => "i32",
        VirIntegerType::I64 => "i64",
        VirIntegerType::I128 => "i128",
        VirIntegerType::Isize => "isize",
    }
}

fn mutability_name(m: VirMutability) -> (r: &'static str)
    ensures
        r@ == spec_mutability_name(m),
{
    match m {
        VirMutability::Const => "const",
        VirMutability::Mutable => "mutable",
    }
}

fn pointer_kind_name(k: VirPointerKind) -> (r: &'static str)
    ensures
        r@ == spec_pointer_kind_name(k),
{
    match k {
        VirPointerKind::Own => "own",
        VirPointerKind::Raw => "raw",
        VirPointerKind::Reference => "reference",
    }
}

fn abi_name(a: VirAbiClass) -> (r: &'static str)
    ensures
        r@ == spec_abi_name(a),
{
    match a {
        VirAbiClass::Ignore => "ignore",
        VirAbiClass::Scalar => "scalar",
        VirAbiClass::ScalarPair => "scalar-pair",
        VirAbiClass::Aggregate => "aggregate",
    }
}

fn value_capability_name(c: ValueCapability) -> (r: &'static str)
    ensures
        r@ == spec_value_capability_name(c),
{
    match c {
        ValueCapability::Copy => "copy",
        ValueCapability::MoveOnly => "move-only",
    }
}

fn drop_capability_name(c: DropCapability) -> (r: &'static str)
    ensures
        r@ == spec_drop_capability_name(c),
{
    match c {
        DropCapability::TrivialDrop => "trivial-drop",
        DropCapability::BuiltinDrop => "builtin-drop",
        DropCapability::UserDropGated => "user-drop-gated",
    }
}

fn size_capability_name(c: SizeCapability) -> (r: &'static str)
    ensures
        r@ == spec_size_capability_name(c),
{
    match c {
        SizeCapability::Sized => "sized",
        SizeCapability::Unsized => "unsized",
    }
}

/// One more item of a separated list.
proof fn lemma_joined_next(item: spec_fn(int) -> Seq<char>, sep: Seq<char>, base: Seq<char>, n: int)
    requires
        n >= 0,
    ensures
        base + joined(item, sep, n + 1) == base + joined(item, sep, n) + (if n > 0 { sep } else { Seq::empty() }) + item(n),
{
    assert(base + joined(item, sep, n + 1) =~= base + joined(item, sep, n) + (if n > 0 { sep } else { Seq::empty() }) + item(n));
}

fn append_type_ids(out: &mut String, ids: &Vec<VirTypeId>)
    ensures
        final(out)@ == old(out)@ + joined(type_items(ids@), ", "@, ids@.len() as int),
{
    let ghost base = out@;
    let mut i: usize = 0;
    while i < ids.len()
        invariant
            0 <= i <= ids@.len(),
            out@ == base + joined(type_items(ids@), ", "@, i as int),
        decreases ids.len() - i,
    {
        if i != 0 {
            out.append(", ");
        }
        out.append("type");
        append_decimal(out, ids[i].0 as u64);
        proof {
            lemma_joined_next(type_items(ids@), ", "@, base, i as int);
            assert(out@ =~= base + joined(type_items(ids@), ", "@, i + 1));
        }
        i = i + 1;
    }
}

fn append_field_ids(out: &mut String, ids: &Vec<VirFieldId>)
    ensures
        final(out)@ == old(out)@ + joined(field_items(ids@), ", "@, ids@.len() as int),
{
    let ghost base = out@;
    let mut i: usize = 0;
    while i < ids.len()
        invariant
            0 <= i <= ids@.len(),
            out@ == base + joined(field_items(ids@), ", "@, i as int),
        decreases ids.len() - i,
    {
        if i != 0 {
            out.append(", ");
        }
        out.append("field");
        append_decimal(out, ids[i].0 as u64);
        proof {
            lemma_joined_next(field_items(ids@), ", "@, base, i as int);
            assert(out@ =~= base + joined(field_items(ids@), ", "@, i + 1));
        }
        i = i + 1;
    }
}

fn append_variant_ids(out: &mut String, ids: &Vec<VirVariantId>)
    ensures
        final(out)@ == old(out)@ + joined(variant_items(ids@), ", "@, ids@.len() as int),
{
    let ghost base = out@;
    let mut i: usize = 0;
    while i < ids.len()
        invariant
            0 <= i <= ids@.len(),
            out@ == base + joined(variant_items(ids@), ", "@, i as int),
        decreases ids.len() - i,
    {
        if i != 0 {
            out.append(", ");
        }
        out.append("variant");
        append_decimal(out, ids[i].0 as u64);
        proof {
            lemma_joined_next(variant_items(ids@), ", "@, base, i as int);
            assert(out@ =~= base + joined(variant_items(ids@), ", "@, i + 1));
        }
        i = i + 1;
    }
}

fn append_field_layouts(out: &mut String, fields: &Vec<VirFieldLayout>)
    ensures
        final(out)@ == old(out)@ + joined(field_layout_items(fields@), ", "@, fields@.len() as int),
{
    let ghost base = out@;
    let mut i: usize = 0;
    while i < fields.len()
        invariant
            0 <= i <= fields@.len(),
            out@ == base + joined(field_layout_items(fields@), ", "@, i as int),
        decreases fields.len() - i,
    {
        if i != 0 {
            out.append(", ");
        }
        out.append("field");
        append_decimal(out, fields[i].field.0 as u64);
        out.append("@");
        append_decimal(out, fields[i].offset_bytes);
        proof {
            lemma_joined_next(field_layout_items(fields@), ", "@, base, i as int);
            assert(out@ =~= base + joined(field_layout_items(fields@), ", "@, i + 1));
        }
        i = i + 1;
    }
}

fn append_cases(out: &mut String, cases: &Vec<VirVariantCaseLayout>)
    ensures
        final(out)@ == old(out)@ + joined(case_items(cases@), ", "@, cases@.len() as int),
{
    let ghost base = out@;
    let mut i: usize = 0;
    while i < cases.len()
        invariant
            0 <= i <= cases@.len(),
            out@ == base + joined(case_items(cases@), ", "@, i as int),
        decreases cases.len() - i,
    {
        if i != 0 {
            out.append(", ");
        }
        let case = &cases[i];
        out.append("variant");
        append_decimal(out, case.variant.0 as u64);
        out.append("@");
        append_decimal(out, case.payload_offset_bytes);
        out.append("(");
        append_field_layouts(out, &case.fields);
        out.append(")");
        proof {
            lemma_joined_next(case_items(cases@), ", "@, base, i as int);
            assert(out@ =~= base + joined(case_items(cases@), ", "@, i + 1));
        }
        i = i + 1;
    }
}

fn append_kind(out: &mut String, kind: &VirMemoryTypeKind)
    ensures
        final(out)@ == old(out)@ + spec_kind_text(*kind),
{
    let ghost base = out@;
    match kind {
        VirMemoryTypeKind::Unit => out.append("unit"),
        VirMemoryTypeKind::Bool => out.append("bool"),
        VirMemoryTypeKind::Integer(i) => out.append(integer_name(*i)),
        VirMemoryTypeKind::Pointer { pointee, kind, mutability } => {
            out.append(pointer_kind_name(*kind));
            out.append(" ");
            out.append(mutability_name(*mutability));
            out.append(" pointer<type");
            append_decimal(out, pointee.0 as u64);
            out.append(">");
        },
        VirMemoryTypeKind::Array { element, length } => {
            out.append("array<type");
            append_decimal(out, element.0 as u64);
            out.append("; ");
            append_decimal(out, *length);
            out.append(">");
        },
        VirMemoryTypeKind::Slice { element, mutability } => {
            out.append("slice<");
            out.append(mutability_name(*mutability));
            out.append(" type");
            append_decimal(out, element.0 as u64);
            out.append(">");
        },
        VirMemoryTypeKind::Tuple(elements) => {
            out.append("tuple<");
            append_type_ids(out, elements);
            out.append(">");
        },
        VirMemoryTypeKind::Struct { fields } => {
            out.append("struct<");
            append_field_ids(out, fields);
            out.append(">");
        },
        VirMemoryTypeKind::Enum { variants } => {
            out.append("enum<");
            append_variant_ids(out, variants);
            out.append(">");
        },
        VirMemoryTypeKind::Never => out.append("never"),
    }
    proof {
        assert(out@ =~= base + spec_kind_text(*kind));
    }
}

fn append_type_line(out: &mut String, memory: &VirMemorySchema, ty: &VirMemoryType)
    ensures
        final(out)@ == old(out)@ + spec_type_line(*memory, *ty),
{
    let ghost base = out@;
    out.append("type type");
    append_decimal(out, ty.id.0 as u64);
    out.append(" = ");
    append_kind(out, &ty.kind);
    out.append(" layout layout");
    append_decimal(out, ty.layout.0 as u64);
    out.append(" capabilities ");
    match memory.type_capabilities(ty.id) {
        Some(c) => {
            out.append(value_capability_name(c.value));
            out.append("/");
            out.append(drop_capability_name(c.drop));
            out.append("/");
            out.append(if c.contains_resource { "resource" } else { "resource-free" });
            out.append("/");
            out.append(size_capability_name(c.size));
        },
        None => out.append("<missing>"),
    }
    out.append("\n");
    proof {
        assert(out@ =~= base + spec_type_line(*memory, *ty));
    }
}

fn append_layout_line(out: &mut String, l: &VirLayout)
    ensures
        final(out)@ == old(out)@ + spec_layout_line(*l),
{
    let ghost base = out@;
    out.append("layout layout");
    append_decimal(out, l.id.0 as u64);
    out.append(" type type");
    append_decimal(out, l.ty.0 as u64);
    out.append(" size ");
    append_decimal(out, l.size_bytes);
    out.append(" align ");
    append_decimal(out, l.alignment);
    out.append(" abi ");
    out.append(abi_name(l.abi));
    out.append(" fields [");
    append_field_layouts(out, &l.fields);
    out.append("]");
    proof {
        assert(out@ =~= base + spec_layout_head(*l));
    }
    let ghost b1 = out@;
    match &l.variants {
        Some(vl) => {
            out.append(" variants tag ");
            append_decimal(out, vl.tag_size_bytes);
            out.append("/");
            append_decimal(out, vl.tag_alignment);
            out.append(" [");
            append_cases(out, &vl.cases);
            out.append("]");
        },
        None => {},
    }
    proof {
        assert(out@ =~= b1 + spec_layout_variants(*l));
    }
    out.append("\n");
    proof {
        assert(out@ =~= base + spec_layout_line(*l));
    }
}

fn append_variant_line(out: &mut String, v: &VirVariant)
    ensures
        final(out)@ == old(out)@ + spec_variant_line(*v),
{
    let ghost base = out@;
    out.append("variant variant");
    append_decimal(out, v.id.0 as u64);
    out.append(" owner type");
    append_decimal(out, v.owner.0 as u64);
    out.append(" discriminant ");
    append_decimal(out, v.discriminant);
    out.append(" fields [");
    append_field_ids(out, &v.fields);
    out.append("]\n");
    proof {
        assert(out@ =~= base + spec_variant_line(*v));
    }
}

/// Appends the text of `memory` to `out`.
pub fn dump_memory_schema(out: &mut String, memory: &VirMemorySchema)
    ensures
        final(out)@ == old(out)@ + spec_dump_schema(*memory),
{
    let ghost base = out@;
    let t = memory.target;
    out.append("target ");
    out.append(endianness_name(t.endianness));
    out.append(" pointer ");
    append_decimal(out, t.pointer_size_bytes);
    out.append("/");
    append_decimal(out, t.pointer_alignment);
    out.append(" usize ");
    append_decimal(out, t.usize_size_bytes);
    out.append("/");
    append_decimal(out, t.usize_alignment);
    out.append("\n");
    proof {
        assert(out@ =~= base + spec_target_line(*memory));
    }
    let ghost types_item = |k: int| spec_type_line(*memory, memory.types@[k]);
    let ghost b1 = out@;
    let mut i: usize = 0;
    while i < memory.types.len()
        invariant
            0 <= i <= memory.types@.len(),
            out@ == b1 + joined(types_item, Seq::empty(), i as int),
            types_item == (|k: int| spec_type_line(*memory, memory.types@[k])),
        decreases memory.types.len() - i,
    {
        append_type_line(out, memory, &memory.types[i]);
        proof {
            lemma_joined_next(types_item, Seq::empty(), b1, i as int);
            assert(out@ =~= b1 + joined(types_item, Seq::empty(), i + 1));
        }
        i = i + 1;
    }
    let ghost fields_item = |k: int| spec_field_line(memory.fields@[k]);
    let ghost b2 = out@;
    let mut i: usize = 0;
    while i < memory.fields.len()
        invariant
            0 <= i <= memory.fields@.len(),
            out@ == b2 + joined(fields_item, Seq::empty(), i as int),
            fields_item == (|k: int| spec_field_line(memory.fields@[k])),
        decreases memory.fields.len() - i,
    {
        let f = &memory.fields[i];
        out.append("field field");
        append_decimal(out, f.id.0 as u64);
        out.append(" owner type");
        append_decimal(out, f.owner.0 as u64);
        out.append(" type type");
        append_decimal(out, f.ty.0 as u64);
        out.append("\n");
        proof {
            lemma_joined_next(fields_item, Seq::empty(), b2, i as int);
            assert(out@ =~= b2 + joined(fields_item, Seq::empty(), i + 1));
        }
        i = i + 1;
    }
    let ghost variants_item = |k: int| spec_variant_line(memory.variants@[k]);
    let ghost b3 = out@;
    let mut i: usize = 0;
    while i < memory.variants.len()
        invariant
            0 <= i <= memory.variants@.len(),
            out@ == b3 + joined(variants_item, Seq::empty(), i as int),
            variants_item == (|k: int| spec_variant_line(memory.variants@[k])),
        decreases memory.variants.len() - i,
    {
        append_variant_line(out, &memory.variants[i]);
        proof {
            lemma_joined_next(variants_item, Seq::empty(), b3, i as int);
            assert(out@ =~= b3 + joined(variants_item, Seq::empty(), i + 1));
        }
        i = i + 1;
    }
    let ghost layouts_item = |k: int| spec_layout_line(memory.layouts@[k]);
    let ghost b4 = out@;
    let mut i: usize = 0;
    while i < memory.layouts.len()
        invariant
            0 <= i <= memory.layouts@.len(),
            out@ == b4 + joined(layouts_item, Seq::empty(), i as int),
            layouts_item == (|k: int| spec_layout_line(memory.layouts@[k])),
        decreases memory.layouts.len() - i,
    {
        append_layout_line(out, &memory.layouts[i]);
        proof {
            lemma_joined_next(layouts_item, Seq::empty(), b4, i as int);
            assert(out@ =~= b4 + joined(layouts_item, Seq::empty(), i + 1));
        }
        i = i + 1;
    }
    proof {
        assert(out@ =~= base + spec_dump_schema(*memory));
    }
}

} // verus!
