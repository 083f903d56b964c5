//! The bytes of each kind of value, from its first byte to its last.

use vstd::prelude::*;
use crate::bytes;
use crate::encoding;
use crate::model::{
    ArmModel, AttrDeclModel, FieldModel, FunctionModel, IdModel, InstanceModel, ProviderModel,
    RuleModel, ValueModel,
};
use crate::order;
use crate::values;
use crate::values::AttrType;

verus! {

// ---- values that hold no others ----

/// The bytes of none, of a truth value, of an integer, of a text, of a file and of a label.
pub proof fn law_plain_bytes(i: i64, s: Seq<char>)
    ensures
        encoding::encoding(ValueModel::Nil) == seq![0u8],
        encoding::encoding(ValueModel::Bool(false)) == seq![1u8, 0u8],
        encoding::encoding(ValueModel::Bool(true)) == seq![1u8, 1u8],
        encoding::encoding(ValueModel::Int(i)) == seq![2u8] + bytes::be_bytes(
            bytes::twos_complement(i),
        ),
        encoding::encoding(ValueModel::Str(s)) == seq![3u8] + bytes::text_frame(s),
        encoding::encoding(ValueModel::File(s)) == seq![8u8] + bytes::text_frame(s),
        encoding::encoding(ValueModel::Label(s)) == seq![11u8] + bytes::text_frame(s),
{
    assert(encoding::encoding(ValueModel::Nil) =~= seq![0u8]);
    assert(encoding::encoding(ValueModel::Bool(false)) =~= seq![1u8, 0u8]);
    assert(encoding::encoding(ValueModel::Bool(true)) =~= seq![1u8, 1u8]);
}

/// The bytes of a rule: the defining module, the name, the number of attributes and of each its name and the
/// code of its type, and the toolchain types.
pub proof fn law_rule_bytes(r: RuleModel)
    ensures
        encoding::encoding(ValueModel::Rule(r)) == seq![5u8] + bytes::text_frame(r.bzl)
            + bytes::text_frame(r.name) + bytes::count_bytes(r.attrs.len()) + bytes::concat(
            r.attrs.map_values(
                |a: (Seq<char>, AttrType)| bytes::text_frame(a.0).push(values::attr_code(a.1)),
            ),
        ) + bytes::texts_bytes(r.toolchains),
{
    broadcast use bytes::lemma_join;

    let f = |a: (Seq<char>, AttrType)| bytes::text_frame(a.0).push(values::attr_code(a.1));
    assert forall|i: int| 0 <= i < r.attrs.len() implies #[trigger] encoding::schema_parts(
        r.attrs,
    )[i] == r.attrs.map_values(f)[i] by {
        assert(encoding::schema_parts(r.attrs)[i] =~= f(r.attrs[i]));
    }
    assert(encoding::schema_parts(r.attrs) =~= r.attrs.map_values(f));
}

/// The bytes of a provider's identity: a zero, the optional defining module, and the name.
pub proof fn law_identity_bytes(id: IdModel)
    ensures
        encoding::identity_bytes(id) == seq![0u8] + bytes::opt_text_bytes(id.bzl)
            + bytes::text_frame(id.name),
{
    broadcast use bytes::lemma_join;

}

/// The bytes of a provider type: its identity and the names of its fields.
pub proof fn law_provider_bytes(p: ProviderModel)
    ensures
        encoding::encoding(ValueModel::Provider(p)) == seq![6u8] + encoding::identity_bytes(p.id)
            + bytes::texts_bytes(p.fields),
{
    broadcast use bytes::lemma_join;

}

/// The bytes of a function: the module, the name, and the digest of the module's content.
pub proof fn law_function_bytes(f: FunctionModel)
    ensures
        encoding::encoding(ValueModel::FunctionRef(f)) == seq![10u8] + bytes::text_frame(f.module)
            + bytes::text_frame(f.name) + f.defining_digest,
{
    broadcast use bytes::lemma_join;

}

/// The bytes of an attribute declaration: the code of its type, the optional file extensions behind a mark,
/// the providers, whether it is mandatory, and the optional default.
pub proof fn law_attr_decl_bytes(a: AttrDeclModel)
    ensures
        encoding::encoding(ValueModel::AttrDecl(a)) == seq![13u8, a.code] + (match a.allow_files {
            None => seq![0u8],
            Some(extensions) => seq![1u8] + bytes::texts_bytes(extensions),
        }) + bytes::texts_bytes(a.providers) + seq![
            if a.mandatory {
                1u8
            } else {
                0u8
            },
        ] + bytes::opt_text_bytes(a.default),
{
    broadcast use bytes::lemma_join;

    assert(seq![13u8, a.code] =~= seq![13u8] + seq![a.code]);
}

// ---- values that hold others ----

/// The bytes of a list: its tag, the number of all its elements, and the encoding of each of them, in order.
pub proof fn law_list_bytes(items: Seq<ValueModel>)
    ensures
        encoding::encoding(ValueModel::List(items)) == seq![4u8] + (bytes::count_bytes(items.len())
            + bytes::concat(items.map_values(|v: ValueModel| encoding::encoding(v)))),
{
    lemma_value_run(items);
}

/// The bytes of a tuple: its tag, the number of all its elements, and the encoding of each of them, in order.
pub proof fn law_tuple_bytes(items: Seq<ValueModel>)
    ensures
        encoding::encoding(ValueModel::Tuple(items)) == seq![14u8] + (bytes::count_bytes(items.len())
            + bytes::concat(items.map_values(|v: ValueModel| encoding::encoding(v)))),
{
    lemma_value_run(items);
}

proof fn lemma_value_run(items: Seq<ValueModel>)
    ensures
        encoding::canonical_values(items).len() == items.len(),
        encoding::value_parts(encoding::canonical_values(items)) == items.map_values(
            |v: ValueModel| encoding::encoding(v),
        ),
{
    let c = encoding::canonical_values(items);
    encoding::lemma_canonical_values(items);
    encoding::lemma_value_parts(c);
    assert(encoding::value_parts(c) =~= items.map_values(|v: ValueModel| encoding::encoding(v)));
}

/// The bytes of a dict: its tag, the number of all its pairs, and of each pair the encoding of the key and
/// that of the value, in the order of insertion.
pub proof fn law_dict_bytes(pairs: Seq<(ValueModel, ValueModel)>)
    ensures
        encoding::encoding(ValueModel::Dict(pairs)) == seq![12u8] + (bytes::count_bytes(pairs.len())
            + bytes::concat(
            pairs.map_values(
                |p: (ValueModel, ValueModel)| encoding::encoding(p.0) + encoding::encoding(p.1),
            ),
        )),
{
    let c = encoding::canonical_pairs(pairs);
    encoding::lemma_canonical_pairs(pairs);
    encoding::lemma_pair_parts(c);
    let f = |p: (ValueModel, ValueModel)| encoding::encoding(p.0) + encoding::encoding(p.1);
    assert forall|i: int| 0 <= i < pairs.len() implies #[trigger] encoding::pair_parts(c)[i]
        == pairs.map_values(f)[i] by {
        assert(c[i].0 == encoding::canonical(pairs[i].0));
    }
    assert(encoding::pair_parts(c) =~= pairs.map_values(f));
}

/// The bytes of a selection: its tag, the number of all its arms, and the encoding of each of them, in order.
pub proof fn law_select_bytes(arms: Seq<ArmModel>)
    ensures
        encoding::encoding(ValueModel::Select(arms)) == seq![15u8] + (bytes::count_bytes(arms.len())
            + bytes::concat(arms.map_values(|a: ArmModel| encoding::arm_encoding(a)))),
{
    let c = encoding::canonical_arms(arms);
    encoding::lemma_canonical_arms(arms);
    encoding::lemma_arm_parts(c);
    assert(encoding::arm_parts(c) =~= arms.map_values(|a: ArmModel| encoding::arm_encoding(a)));
}

/// The bytes of an arm that is a value: a zero and the encoding of the value.
pub proof fn law_concrete_arm_bytes(v: ValueModel)
    ensures
        encoding::arm_encoding(ArmModel::Concrete(v)) == seq![0u8] + encoding::encoding(v),
{
}

/// The bytes of a branch: a one, the number of its conditions, each condition once, sorted by label, and the
/// error message. Conditions of one label stay in the order in which they are given.
pub proof fn law_branch_bytes(conditions: Seq<FieldModel>, no_match_error: Seq<char>)
    ensures
        encoding::arm_encoding(ArmModel::Branch { conditions, no_match_error }) == seq![1u8] + (
        bytes::count_bytes(conditions.len()) + bytes::concat(
            order::sorted_by(conditions, encoding::by_name()).map_values(
                |f: FieldModel| bytes::text_frame(f.0) + encoding::encoding(f.1),
            ),
        )) + bytes::text_frame(no_match_error),
{
    broadcast use bytes::lemma_join;

    lemma_sorted_run(conditions);
}

/// The bytes of a named value: the framed name and the encoding of the value.
pub proof fn law_field_bytes(f: FieldModel)
    ensures
        encoding::field_bytes(f) == bytes::text_frame(f.0) + encoding::encoding(f.1),
{
}

/// Named values are sorted by the UTF-8 form of their names, and by nothing else.
pub proof fn law_fields_are_sorted_by_name(f: FieldModel)
    ensures
        encoding::by_name()(f) == seq![vstd::utf8::encode_utf8(f.0)],
{
}

pub(crate) proof fn lemma_sorted_run(fields: Seq<FieldModel>)
    ensures
        ({
            let key = encoding::by_name::<ValueModel>();
            let sorted = order::sorted_by(encoding::canonical_fields(fields), key);
            &&& sorted.len() == fields.len()
            &&& sorted == order::sorted_by(fields, key).map_values(encoding::canonical_field())
            &&& encoding::field_parts(sorted) == order::sorted_by(fields, key).map_values(
                |f: FieldModel| bytes::text_frame(f.0) + encoding::encoding(f.1),
            )
        }),
{
    let key = encoding::by_name::<ValueModel>();
    let given = order::sorted_by(fields, key);
    let sorted = order::sorted_by(encoding::canonical_fields(fields), key);
    encoding::lemma_canonical_fields(fields);
    order::lemma_sorted_by_map(fields, encoding::canonical_field(), key, key);
    order::law_sorting_orders_and_keeps_items(fields, key);
    encoding::lemma_field_parts(sorted);
    assert(encoding::field_parts(sorted) =~= given.map_values(
        |f: FieldModel| bytes::text_frame(f.0) + encoding::encoding(f.1),
    ));
}

/// The bytes of a provider instance: the provider's identity, the number of all its fields, and of each
/// field the framed name and the encoding of the value, in the given order.
pub proof fn law_instance_bytes(p: InstanceModel)
    ensures
        encoding::instance_encoding(p) == encoding::identity_bytes(p.provider) + (
        bytes::count_bytes(p.fields.len()) + bytes::concat(
            p.fields.map_values(
                |f: FieldModel| bytes::text_frame(f.0) + encoding::encoding(f.1),
            ),
        )),
{
    let c = encoding::canonical_fields(p.fields);
    encoding::lemma_canonical_fields(p.fields);
    encoding::lemma_field_parts(c);
    assert(encoding::field_parts(c) =~= p.fields.map_values(
        |f: FieldModel| bytes::text_frame(f.0) + encoding::encoding(f.1),
    ));
}

} // verus!
