//! What holds of the encoding as a whole: it is canonical, it loses nothing that the canonical form keeps,
//! and it says where it ends.

use vstd::prelude::*;
use crate::bytes;
use crate::encoding;
use crate::model::{
    ArmModel, AttrDeclModel, DepsetModel, FieldModel, FunctionModel, IdModel, InstanceModel,
    ProviderModel, RuleModel, ValueModel,
};
use crate::order;
use crate::provider;
use crate::values;
use crate::values::AttrType;

verus! {

// ---- the layout is read back from the front of a byte string ----

/// An attribute of a schema is read back from the front of a byte string.
proof fn lemma_attr_delimits(
    a: (Seq<char>, AttrType),
    b: (Seq<char>, AttrType),
    x: Seq<u8>,
    y: Seq<u8>,
)
    requires
        bytes::text_fits(a.0),
        bytes::text_fits(b.0),
        (bytes::text_frame(a.0) + seq![values::attr_code(a.1)]) + x == (bytes::text_frame(b.0)
            + seq![values::attr_code(b.1)]) + y,
    ensures
        a == b,
        x == y,
{
    let (p, q) = (values::attr_code(a.1), values::attr_code(b.1));
    bytes::lemma_join(bytes::text_frame(a.0), seq![p], x);
    bytes::lemma_join(bytes::text_frame(b.0), seq![q], y);
    bytes::lemma_text_delimits(a.0, b.0, seq![p] + x, seq![q] + y);
    bytes::lemma_byte_delimits(p, q, x, y);
    values::law_attr_codes_round_trip(a.1, p);
    values::law_attr_codes_round_trip(b.1, q);
}

proof fn lemma_schema_delimits(
    a: Seq<(Seq<char>, AttrType)>,
    b: Seq<(Seq<char>, AttrType)>,
    x: Seq<u8>,
    y: Seq<u8>,
)
    requires
        bytes::fits(a.len()),
        bytes::fits(b.len()),
        forall|i: int| 0 <= i < a.len() ==> bytes::text_fits((#[trigger] a[i]).0),
        forall|i: int| 0 <= i < b.len() ==> bytes::text_fits((#[trigger] b[i]).0),
        (bytes::count_bytes(a.len()) + bytes::concat(encoding::schema_parts(a))) + x == (
        bytes::count_bytes(b.len()) + bytes::concat(encoding::schema_parts(b))) + y,
    ensures
        a == b,
        x == y,
{
    let (ps, qs) = (encoding::schema_parts(a), encoding::schema_parts(b));
    assert forall|i: int| 0 <= i < ps.len() && i < qs.len() implies bytes::delimited(
        #[trigger] ps[i],
        qs[i],
    ) by {
        assert forall|u: Seq<u8>, w: Seq<u8>| #[trigger]
            (ps[i] + u) == #[trigger] (qs[i] + w) implies ps[i] == qs[i] by {
            lemma_attr_delimits(a[i], b[i], u, w);
        }
    }
    bytes::lemma_counted_delimits(ps, qs, x, y);
    assert forall|i: int| 0 <= i < a.len() implies a[i] == b[i] by {
        assert(ps[i] == qs[i]);
        lemma_attr_delimits(a[i], b[i], seq![], seq![]);
    }
    assert(a =~= b);
}

proof fn lemma_rule_delimits(a: RuleModel, b: RuleModel, x: Seq<u8>, y: Seq<u8>)
    requires
        encoding::sized(ValueModel::Rule(a), true),
        encoding::sized(ValueModel::Rule(b), true),
        encoding::rule_payload(a) + x == encoding::rule_payload(b) + y,
    ensures
        a == b,
        x == y,
{
    broadcast use bytes::lemma_join;

    let a3 = bytes::texts_bytes(a.toolchains) + x;
    let b3 = bytes::texts_bytes(b.toolchains) + y;
    let a2 = (bytes::count_bytes(a.attrs.len()) + bytes::concat(encoding::schema_parts(a.attrs)))
        + a3;
    let b2 = (bytes::count_bytes(b.attrs.len()) + bytes::concat(encoding::schema_parts(b.attrs)))
        + b3;
    let a1 = bytes::text_frame(a.name) + a2;
    let b1 = bytes::text_frame(b.name) + b2;
    assert(bytes::text_frame(a.bzl) + a1 == bytes::text_frame(b.bzl) + b1);
    bytes::lemma_text_delimits(a.bzl, b.bzl, a1, b1);
    bytes::lemma_text_delimits(a.name, b.name, a2, b2);
    lemma_schema_delimits(a.attrs, b.attrs, a3, b3);
    bytes::lemma_texts_delimit(a.toolchains, b.toolchains, x, y);
}

/// The identity of a provider is read back from the front of a byte string, whatever follows it: providers
/// of one name from different modules never share their bytes.
pub proof fn law_identity_is_self_delimiting(a: IdModel, b: IdModel, x: Seq<u8>, y: Seq<u8>)
    requires
        encoding::identity_sized(a),
        encoding::identity_sized(b),
        encoding::identity_bytes(a) + x == encoding::identity_bytes(b) + y,
    ensures
        a == b,
        x == y,
{
    broadcast use bytes::lemma_join;

    let a2 = bytes::text_frame(a.name) + x;
    let b2 = bytes::text_frame(b.name) + y;
    let a1 = bytes::opt_text_bytes(a.bzl) + a2;
    let b1 = bytes::opt_text_bytes(b.bzl) + b2;
    assert(encoding::identity_bytes(a) + x == seq![0u8] + a1);
    assert(encoding::identity_bytes(b) + y == seq![0u8] + b1);
    bytes::lemma_byte_delimits(0, 0, a1, b1);
    bytes::lemma_opt_text_delimits(a.bzl, b.bzl, a2, b2);
    bytes::lemma_text_delimits(a.name, b.name, x, y);
}

/// The first byte of an identity is `0`, and the second tells whether there is a defining module.
pub proof fn law_identity_starts_with_two_marks(id: IdModel)
    ensures
        encoding::identity_bytes(id).len() > 2,
        encoding::identity_bytes(id)[0] == 0,
        encoding::identity_bytes(id)[1] == if id.bzl is None {
            0u8
        } else {
            1u8
        },
{
}

proof fn lemma_provider_delimits(a: ProviderModel, b: ProviderModel, x: Seq<u8>, y: Seq<u8>)
    requires
        encoding::sized(ValueModel::Provider(a), true),
        encoding::sized(ValueModel::Provider(b), true),
        encoding::provider_payload(a) + x == encoding::provider_payload(b) + y,
    ensures
        a == b,
        x == y,
{
    broadcast use bytes::lemma_join;

    let a1 = bytes::texts_bytes(a.fields) + x;
    let b1 = bytes::texts_bytes(b.fields) + y;
    assert(encoding::provider_payload(a) + x == encoding::identity_bytes(a.id) + a1);
    assert(encoding::provider_payload(b) + y == encoding::identity_bytes(b.id) + b1);
    law_identity_is_self_delimiting(a.id, b.id, a1, b1);
    bytes::lemma_texts_delimit(a.fields, b.fields, x, y);
}

proof fn lemma_function_delimits(a: FunctionModel, b: FunctionModel, x: Seq<u8>, y: Seq<u8>)
    requires
        encoding::sized(ValueModel::FunctionRef(a), true),
        encoding::sized(ValueModel::FunctionRef(b), true),
        encoding::function_payload(a) + x == encoding::function_payload(b) + y,
    ensures
        a == b,
        x == y,
{
    broadcast use bytes::lemma_join;

    let a2 = a.defining_digest + x;
    let b2 = b.defining_digest + y;
    let a1 = bytes::text_frame(a.name) + a2;
    let b1 = bytes::text_frame(b.name) + b2;
    assert(encoding::function_payload(a) + x == bytes::text_frame(a.module) + a1);
    assert(encoding::function_payload(b) + y == bytes::text_frame(b.module) + b1);
    bytes::lemma_text_delimits(a.module, b.module, a1, b1);
    bytes::lemma_text_delimits(a.name, b.name, a2, b2);
    bytes::lemma_same_split(a.defining_digest, b.defining_digest, x, y);
}

proof fn lemma_opt_texts_delimit(
    a: Option<Seq<Seq<char>>>,
    b: Option<Seq<Seq<char>>>,
    x: Seq<u8>,
    y: Seq<u8>,
)
    requires
        a matches Some(t) ==> bytes::texts_fit(t),
        b matches Some(t) ==> bytes::texts_fit(t),
        encoding::opt_texts_bytes(a) + x == encoding::opt_texts_bytes(b) + y,
    ensures
        a == b,
        x == y,
{
    let (m, p) = match a {
        None => (0u8, x),
        Some(t) => (1u8, bytes::texts_bytes(t) + x),
    };
    let (n, q) = match b {
        None => (0u8, y),
        Some(t) => (1u8, bytes::texts_bytes(t) + y),
    };
    if a is Some {
        bytes::lemma_join(seq![1u8], bytes::texts_bytes(a->0), x);
    }
    if b is Some {
        bytes::lemma_join(seq![1u8], bytes::texts_bytes(b->0), y);
    }
    bytes::lemma_byte_delimits(m, n, p, q);
    if a is Some {
        bytes::lemma_texts_delimit(a->0, b->0, x, y);
    }
}

proof fn lemma_attr_decl_delimits(a: AttrDeclModel, b: AttrDeclModel, x: Seq<u8>, y: Seq<u8>)
    requires
        encoding::sized(ValueModel::AttrDecl(a), true),
        encoding::sized(ValueModel::AttrDecl(b), true),
        encoding::attr_decl_payload(a) + x == encoding::attr_decl_payload(b) + y,
    ensures
        a == b,
        x == y,
{
    broadcast use bytes::lemma_join;

    let (ma, mb) = (bytes::bool_byte(a.mandatory), bytes::bool_byte(b.mandatory));
    let a4 = bytes::opt_text_bytes(a.default) + x;
    let b4 = bytes::opt_text_bytes(b.default) + y;
    let a3 = seq![ma] + a4;
    let b3 = seq![mb] + b4;
    let a2 = bytes::texts_bytes(a.providers) + a3;
    let b2 = bytes::texts_bytes(b.providers) + b3;
    let a1 = encoding::opt_texts_bytes(a.allow_files) + a2;
    let b1 = encoding::opt_texts_bytes(b.allow_files) + b2;
    assert(encoding::attr_decl_payload(a) + x == seq![a.code] + a1);
    assert(encoding::attr_decl_payload(b) + y == seq![b.code] + b1);
    bytes::lemma_byte_delimits(a.code, b.code, a1, b1);
    lemma_opt_texts_delimit(a.allow_files, b.allow_files, a2, b2);
    bytes::lemma_texts_delimit(a.providers, b.providers, a3, b3);
    bytes::lemma_byte_delimits(ma, mb, a4, b4);
    bytes::lemma_opt_text_delimits(a.default, b.default, x, y);
}

/// The layout of a value is read back from the front of a byte string, whatever follows it.
proof fn lemma_layout_delimits(a: ValueModel, b: ValueModel, x: Seq<u8>, y: Seq<u8>)
    requires
        encoding::sized(a, true),
        encoding::sized(b, true),
        encoding::layout(a) + x == encoding::layout(b) + y,
    ensures
        a == b,
        x == y,
    decreases a, 1nat,
{
    broadcast use bytes::lemma_join;

    let pa = encoding::payload(a) + x;
    let pb = encoding::payload(b) + y;
    assert(encoding::layout(a) + x == seq![encoding::tag(a)] + pa);
    assert(encoding::layout(b) + y == seq![encoding::tag(b)] + pb);
    bytes::lemma_byte_delimits(encoding::tag(a), encoding::tag(b), pa, pb);
    lemma_payload_delimits(a, b, x, y);
}

proof fn lemma_payload_delimits(a: ValueModel, b: ValueModel, x: Seq<u8>, y: Seq<u8>)
    requires
        encoding::sized(a, true),
        encoding::sized(b, true),
        encoding::tag(a) == encoding::tag(b),
        encoding::payload(a) + x == encoding::payload(b) + y,
    ensures
        a == b,
        x == y,
    decreases a, 0nat,
{
    match a {
        ValueModel::Nil => {
            assert(encoding::payload(a) + x =~= x);
            assert(encoding::payload(b) + y =~= y);
        },
        ValueModel::Bool(p) => {
            let q = b->Bool_0;
            bytes::lemma_byte_delimits(bytes::bool_byte(p), bytes::bool_byte(q), x, y);
        },
        ValueModel::Int(i) => {
            let j = b->Int_0;
            let (p, q) = (bytes::twos_complement(i), bytes::twos_complement(j));
            bytes::lemma_same_split(bytes::be_bytes(p), bytes::be_bytes(q), x, y);
            bytes::lemma_be_bytes_injective(p, q);
        },
        ValueModel::Str(s) => bytes::lemma_text_delimits(s, b->Str_0, x, y),
        ValueModel::List(items) => lemma_values_delimit(items, b->List_0, x, y),
        ValueModel::Rule(r) => lemma_rule_delimits(r, b->Rule_0, x, y),
        ValueModel::Provider(p) => lemma_provider_delimits(p, b->Provider_0, x, y),
        ValueModel::Depset(d) => lemma_depset_delimits(d, b->Depset_0, x, y),
        ValueModel::File(p) => bytes::lemma_text_delimits(p, b->File_0, x, y),
        ValueModel::Struct(fields) => lemma_fields_delimit(fields, b->Struct_0, x, y),
        ValueModel::FunctionRef(f) => lemma_function_delimits(f, b->FunctionRef_0, x, y),
        ValueModel::Label(s) => bytes::lemma_text_delimits(s, b->Label_0, x, y),
        ValueModel::Dict(pairs) => lemma_pairs_delimit(pairs, b->Dict_0, x, y),
        ValueModel::AttrDecl(d) => lemma_attr_decl_delimits(d, b->AttrDecl_0, x, y),
        ValueModel::Tuple(items) => lemma_values_delimit(items, b->Tuple_0, x, y),
        ValueModel::Select(arms) => lemma_arms_delimit(arms, b->Select_0, x, y),
    }
}

proof fn lemma_values_delimit(
    a: Seq<ValueModel>,
    b: Seq<ValueModel>,
    x: Seq<u8>,
    y: Seq<u8>,
)
    requires
        bytes::fits(a.len()),
        bytes::fits(b.len()),
        forall|i: int| 0 <= i < a.len() ==> encoding::sized(#[trigger] a[i], true),
        forall|i: int| 0 <= i < b.len() ==> encoding::sized(#[trigger] b[i], true),
        (bytes::count_bytes(a.len()) + bytes::concat(encoding::value_parts(a))) + x == (
        bytes::count_bytes(b.len()) + bytes::concat(encoding::value_parts(b))) + y,
    ensures
        a == b,
        x == y,
    decreases a, 0nat,
{
    let (ps, qs) = (encoding::value_parts(a), encoding::value_parts(b));
    encoding::lemma_value_parts(a);
    encoding::lemma_value_parts(b);
    assert forall|i: int| 0 <= i < ps.len() && i < qs.len() implies bytes::delimited(
        #[trigger] ps[i],
        qs[i],
    ) by {
        assert forall|u: Seq<u8>, w: Seq<u8>| #[trigger]
            (ps[i] + u) == #[trigger] (qs[i] + w) implies ps[i] == qs[i] by {
            lemma_layout_delimits(a[i], b[i], u, w);
        }
    }
    bytes::lemma_counted_delimits(ps, qs, x, y);
    assert forall|i: int| 0 <= i < a.len() implies a[i] == b[i] by {
        assert(ps[i] == qs[i]);
        lemma_layout_delimits(a[i], b[i], seq![], seq![]);
    }
    assert(a =~= b);
}

/// A named value is read back from the front of a byte string.
proof fn lemma_field_delimits(a: FieldModel, b: FieldModel, x: Seq<u8>, y: Seq<u8>)
    requires
        bytes::text_fits(a.0),
        bytes::text_fits(b.0),
        encoding::sized(a.1, true),
        encoding::sized(b.1, true),
        (bytes::text_frame(a.0) + encoding::layout(a.1)) + x == (bytes::text_frame(b.0)
            + encoding::layout(b.1)) + y,
    ensures
        a == b,
        x == y,
    decreases a, 0nat,
{
    let (p, q) = (encoding::layout(a.1), encoding::layout(b.1));
    bytes::lemma_join(bytes::text_frame(a.0), p, x);
    bytes::lemma_join(bytes::text_frame(b.0), q, y);
    bytes::lemma_text_delimits(a.0, b.0, p + x, q + y);
    lemma_layout_delimits(a.1, b.1, x, y);
}

proof fn lemma_fields_delimit(a: Seq<FieldModel>, b: Seq<FieldModel>, x: Seq<u8>, y: Seq<u8>)
    requires
        encoding::fields_sized(a, true),
        encoding::fields_sized(b, true),
        (bytes::count_bytes(a.len()) + bytes::concat(encoding::field_parts(a))) + x == (
        bytes::count_bytes(b.len()) + bytes::concat(encoding::field_parts(b))) + y,
    ensures
        a == b,
        x == y,
    decreases a, 0nat,
{
    let (ps, qs) = (encoding::field_parts(a), encoding::field_parts(b));
    encoding::lemma_field_parts(a);
    encoding::lemma_field_parts(b);
    assert forall|i: int| 0 <= i < ps.len() && i < qs.len() implies bytes::delimited(
        #[trigger] ps[i],
        qs[i],
    ) by {
        assert forall|u: Seq<u8>, w: Seq<u8>| #[trigger]
            (ps[i] + u) == #[trigger] (qs[i] + w) implies ps[i] == qs[i] by {
            lemma_field_delimits(a[i], b[i], u, w);
        }
    }
    bytes::lemma_counted_delimits(ps, qs, x, y);
    assert forall|i: int| 0 <= i < a.len() implies a[i] == b[i] by {
        assert(ps[i] == qs[i]);
        lemma_field_delimits(a[i], b[i], seq![], seq![]);
    }
    assert(a =~= b);
}

/// A key and its value are read back from the front of a byte string.
proof fn lemma_pair_delimits(
    a: (ValueModel, ValueModel),
    b: (ValueModel, ValueModel),
    x: Seq<u8>,
    y: Seq<u8>,
)
    requires
        encoding::sized(a.0, true),
        encoding::sized(a.1, true),
        encoding::sized(b.0, true),
        encoding::sized(b.1, true),
        (encoding::layout(a.0) + encoding::layout(a.1)) + x == (encoding::layout(b.0)
            + encoding::layout(b.1)) + y,
    ensures
        a == b,
        x == y,
    decreases a, 0nat,
{
    let (p, q) = (encoding::layout(a.1), encoding::layout(b.1));
    bytes::lemma_join(encoding::layout(a.0), p, x);
    bytes::lemma_join(encoding::layout(b.0), q, y);
    lemma_layout_delimits(a.0, b.0, p + x, q + y);
    lemma_layout_delimits(a.1, b.1, x, y);
}

proof fn lemma_pairs_delimit(
    a: Seq<(ValueModel, ValueModel)>,
    b: Seq<(ValueModel, ValueModel)>,
    x: Seq<u8>,
    y: Seq<u8>,
)
    requires
        encoding::sized(ValueModel::Dict(a), true),
        encoding::sized(ValueModel::Dict(b), true),
        (bytes::count_bytes(a.len()) + bytes::concat(encoding::pair_parts(a))) + x == (
        bytes::count_bytes(b.len()) + bytes::concat(encoding::pair_parts(b))) + y,
    ensures
        a == b,
        x == y,
    decreases a, 0nat,
{
    let (ps, qs) = (encoding::pair_parts(a), encoding::pair_parts(b));
    encoding::lemma_pair_parts(a);
    encoding::lemma_pair_parts(b);
    assert forall|i: int| 0 <= i < ps.len() && i < qs.len() implies bytes::delimited(
        #[trigger] ps[i],
        qs[i],
    ) by {
        assert forall|u: Seq<u8>, w: Seq<u8>| #[trigger]
            (ps[i] + u) == #[trigger] (qs[i] + w) implies ps[i] == qs[i] by {
            lemma_pair_delimits(a[i], b[i], u, w);
        }
    }
    bytes::lemma_counted_delimits(ps, qs, x, y);
    assert forall|i: int| 0 <= i < a.len() implies a[i] == b[i] by {
        assert(ps[i] == qs[i]);
        lemma_pair_delimits(a[i], b[i], seq![], seq![]);
    }
    assert(a =~= b);
}

pub(crate) proof fn lemma_arm_delimits(a: ArmModel, b: ArmModel, x: Seq<u8>, y: Seq<u8>)
    requires
        encoding::arm_sized(a, true),
        encoding::arm_sized(b, true),
        encoding::arm_layout(a) + x == encoding::arm_layout(b) + y,
    ensures
        a == b,
        x == y,
    decreases a, 0nat,
{
    broadcast use bytes::lemma_join;

    let p = encoding::arm_layout(a) + x;
    let q = encoding::arm_layout(b) + y;
    assert(p[0] == q[0]);
    match (a, b) {
        (ArmModel::Concrete(v), ArmModel::Concrete(w)) => {
            let (p1, q1) = (encoding::layout(v) + x, encoding::layout(w) + y);
            assert(p == seq![0u8] + p1 && q == seq![0u8] + q1);
            bytes::lemma_byte_delimits(0, 0, p1, q1);
            lemma_layout_delimits(v, w, x, y);
        },
        (
            ArmModel::Branch { conditions: c, no_match_error: e },
            ArmModel::Branch { conditions: d, no_match_error: f },
        ) => {
            let (p2, q2) = (bytes::text_frame(e) + x, bytes::text_frame(f) + y);
            let cs = bytes::count_bytes(c.len()) + bytes::concat(encoding::field_parts(c));
            let ds = bytes::count_bytes(d.len()) + bytes::concat(encoding::field_parts(d));
            assert(p == seq![1u8] + (cs + p2) && q == seq![1u8] + (ds + q2));
            bytes::lemma_byte_delimits(1, 1, cs + p2, ds + q2);
            lemma_fields_delimit(c, d, p2, q2);
            bytes::lemma_text_delimits(e, f, x, y);
        },
        _ => {},
    }
}

proof fn lemma_arms_delimit(a: Seq<ArmModel>, b: Seq<ArmModel>, x: Seq<u8>, y: Seq<u8>)
    requires
        encoding::sized(ValueModel::Select(a), true),
        encoding::sized(ValueModel::Select(b), true),
        (bytes::count_bytes(a.len()) + bytes::concat(encoding::arm_parts(a))) + x == (
        bytes::count_bytes(b.len()) + bytes::concat(encoding::arm_parts(b))) + y,
    ensures
        a == b,
        x == y,
    decreases a, 0nat,
{
    let (ps, qs) = (encoding::arm_parts(a), encoding::arm_parts(b));
    encoding::lemma_arm_parts(a);
    encoding::lemma_arm_parts(b);
    assert forall|i: int| 0 <= i < ps.len() && i < qs.len() implies bytes::delimited(
        #[trigger] ps[i],
        qs[i],
    ) by {
        assert forall|u: Seq<u8>, w: Seq<u8>| #[trigger]
            (ps[i] + u) == #[trigger] (qs[i] + w) implies ps[i] == qs[i] by {
            lemma_arm_delimits(a[i], b[i], u, w);
        }
    }
    bytes::lemma_counted_delimits(ps, qs, x, y);
    assert forall|i: int| 0 <= i < a.len() implies a[i] == b[i] by {
        assert(ps[i] == qs[i]);
        lemma_arm_delimits(a[i], b[i], seq![], seq![]);
    }
    assert(a =~= b);
}

proof fn lemma_depset_delimits(a: DepsetModel, b: DepsetModel, x: Seq<u8>, y: Seq<u8>)
    requires
        encoding::depset_sized(a, true),
        encoding::depset_sized(b, true),
        encoding::depset_payload(a) + x == encoding::depset_payload(b) + y,
    ensures
        a == b,
        x == y,
    decreases a, 0nat,
{
    broadcast use bytes::lemma_join;

    let (oa, ob) = (provider::order_code(a.order), provider::order_code(b.order));
    let a2 = (bytes::count_bytes(a.transitive.len()) + bytes::concat(
        encoding::depset_parts(a.transitive),
    )) + x;
    let b2 = (bytes::count_bytes(b.transitive.len()) + bytes::concat(
        encoding::depset_parts(b.transitive),
    )) + y;
    let a1 = (bytes::count_bytes(a.direct.len()) + bytes::concat(encoding::value_parts(a.direct)))
        + a2;
    let b1 = (bytes::count_bytes(b.direct.len()) + bytes::concat(encoding::value_parts(b.direct)))
        + b2;
    assert(encoding::depset_payload(a) + x == seq![oa] + a1);
    assert(encoding::depset_payload(b) + y == seq![ob] + b1);
    bytes::lemma_byte_delimits(oa, ob, a1, b1);
    provider::law_order_codes_round_trip(a.order, oa);
    provider::law_order_codes_round_trip(b.order, ob);
    lemma_values_delimit(a.direct, b.direct, a2, b2);
    lemma_depsets_delimit(a.transitive, b.transitive, x, y);
}

/// A depset behind its tag is read back from the front of a byte string.
pub(crate) proof fn lemma_tagged_depset_delimits(a: DepsetModel, b: DepsetModel, x: Seq<u8>, y: Seq<u8>)
    requires
        encoding::depset_sized(a, true),
        encoding::depset_sized(b, true),
        encoding::depset_layout(a) + x == encoding::depset_layout(b) + y,
    ensures
        a == b,
        x == y,
    decreases a, 1nat,
{
    let (p, q) = (encoding::depset_payload(a), encoding::depset_payload(b));
    bytes::lemma_join(seq![7u8], p, x);
    bytes::lemma_join(seq![7u8], q, y);
    bytes::lemma_byte_delimits(7, 7, p + x, q + y);
    lemma_depset_delimits(a, b, x, y);
}

proof fn lemma_depsets_delimit(
    a: Seq<DepsetModel>,
    b: Seq<DepsetModel>,
    x: Seq<u8>,
    y: Seq<u8>,
)
    requires
        bytes::fits(a.len()),
        bytes::fits(b.len()),
        forall|i: int| 0 <= i < a.len() ==> encoding::depset_sized(#[trigger] a[i], true),
        forall|i: int| 0 <= i < b.len() ==> encoding::depset_sized(#[trigger] b[i], true),
        (bytes::count_bytes(a.len()) + bytes::concat(encoding::depset_parts(a))) + x == (
        bytes::count_bytes(b.len()) + bytes::concat(encoding::depset_parts(b))) + y,
    ensures
        a == b,
        x == y,
    decreases a, 0nat,
{
    let (ps, qs) = (encoding::depset_parts(a), encoding::depset_parts(b));
    encoding::lemma_depset_parts(a);
    encoding::lemma_depset_parts(b);
    assert forall|i: int| 0 <= i < ps.len() && i < qs.len() implies bytes::delimited(
        #[trigger] ps[i],
        qs[i],
    ) by {
        assert forall|u: Seq<u8>, w: Seq<u8>| #[trigger]
            (ps[i] + u) == #[trigger] (qs[i] + w) implies ps[i] == qs[i] by {
            lemma_tagged_depset_delimits(a[i], b[i], u, w);
        }
    }
    bytes::lemma_counted_delimits(ps, qs, x, y);
    assert forall|i: int| 0 <= i < a.len() implies a[i] == b[i] by {
        assert(ps[i] == qs[i]);
        lemma_tagged_depset_delimits(a[i], b[i], seq![], seq![]);
    }
    assert(a =~= b);
}

// ---- the canonical form ----

/// What sorting brings out was put in.
pub(crate) proof fn lemma_sorted_from_given(fields: Seq<FieldModel>, i: int)
    requires
        0 <= i < order::sorted_by(fields, encoding::by_name()).len(),
    ensures
        fields.contains(order::sorted_by(fields, encoding::by_name())[i]),
{
    let sorted = order::sorted_by(fields, encoding::by_name());
    order::law_sorting_orders_and_keeps_items(fields, encoding::by_name());
    sorted.to_multiset_ensures();
    fields.to_multiset_ensures();
    assert(sorted.to_multiset().count(sorted[i]) > 0);
}

proof fn lemma_canonical_sized(v: ValueModel)
    requires
        encoding::representable(v),
    ensures
        encoding::sized(encoding::canonical(v), true),
    decreases v,
{
    match v {
        ValueModel::List(items) => lemma_canonical_values_sized(items),
        ValueModel::Tuple(items) => lemma_canonical_values_sized(items),
        ValueModel::Depset(d) => lemma_canonical_depset_sized(d),
        ValueModel::Struct(fields) => {
            lemma_canonical_fields_sized(fields);
        },
        ValueModel::Dict(pairs) => {
            let c = encoding::canonical_pairs(pairs);
            encoding::lemma_canonical_pairs(pairs);
            assert forall|i: int| 0 <= i < c.len() implies encoding::sized(
                (#[trigger] c[i]).0,
                true,
            ) && encoding::sized(c[i].1, true) by {
                lemma_canonical_sized(pairs[i].0);
                lemma_canonical_sized(pairs[i].1);
            }
        },
        ValueModel::Select(arms) => {
            let c = encoding::canonical_arms(arms);
            encoding::lemma_canonical_arms(arms);
            assert forall|i: int| 0 <= i < c.len() implies encoding::arm_sized(
                #[trigger] c[i],
                true,
            ) by {
                lemma_canonical_arm_sized(arms[i]);
            }
        },
        _ => {},
    }
}

proof fn lemma_canonical_values_sized(items: Seq<ValueModel>)
    requires
        forall|i: int| 0 <= i < items.len() ==> encoding::representable(#[trigger] items[i]),
    ensures
        encoding::canonical_values(items).len() == items.len(),
        forall|i: int|
            0 <= i < items.len() ==> encoding::sized(
                #[trigger] encoding::canonical_values(items)[i],
                true,
            ),
    decreases items,
{
    encoding::lemma_canonical_values(items);
    assert forall|i: int| 0 <= i < items.len() implies encoding::sized(
        #[trigger] encoding::canonical_values(items)[i],
        true,
    ) by {
        lemma_canonical_sized(items[i]);
    }
}

proof fn lemma_canonical_fields_sized(fields: Seq<FieldModel>)
    requires
        encoding::fields_sized(fields, false),
    ensures
        encoding::fields_sized(encoding::canonical_fields(fields), true),
        encoding::fields_sized(
            order::sorted_by(encoding::canonical_fields(fields), encoding::by_name()),
            true,
        ),
    decreases fields,
{
    let c = encoding::canonical_fields(fields);
    encoding::lemma_canonical_fields(fields);
    assert forall|i: int| 0 <= i < c.len() implies bytes::text_fits((#[trigger] c[i]).0)
        && encoding::sized(c[i].1, true) by {
        assert(fields[i].0 == c[i].0);
        lemma_canonical_sized(fields[i].1);
    }
    let sorted = order::sorted_by(c, encoding::by_name());
    order::law_sorting_orders_and_keeps_items(c, encoding::by_name());
    assert forall|i: int| 0 <= i < sorted.len() implies bytes::text_fits((#[trigger] sorted[i]).0)
        && encoding::sized(sorted[i].1, true) by {
        lemma_sorted_from_given(c, i);
        let j = choose|j: int| 0 <= j < c.len() && c[j] == sorted[i];
        assert(c[j] == sorted[i]);
    }
}

pub(crate) proof fn lemma_canonical_arm_sized(arm: ArmModel)
    requires
        encoding::arm_sized(arm, false),
    ensures
        encoding::arm_sized(encoding::canonical_arm(arm), true),
    decreases arm,
{
    match arm {
        ArmModel::Concrete(v) => lemma_canonical_sized(v),
        ArmModel::Branch { conditions, no_match_error } => lemma_canonical_fields_sized(conditions),
    }
}

pub(crate) proof fn lemma_canonical_depset_sized(d: DepsetModel)
    requires
        encoding::depset_sized(d, false),
    ensures
        encoding::depset_sized(encoding::canonical_depset(d), true),
    decreases d,
{
    lemma_canonical_values_sized(d.direct);
    let c = encoding::canonical_depsets(d.transitive);
    encoding::lemma_canonical_depsets(d.transitive);
    assert forall|i: int| 0 <= i < c.len() implies encoding::depset_sized(
        #[trigger] c[i],
        true,
    ) by {
        lemma_canonical_depset_sized(d.transitive[i]);
    }
}

proof fn lemma_idempotent(v: ValueModel)
    ensures
        encoding::canonical(encoding::canonical(v)) == encoding::canonical(v),
    decreases v,
{
    match v {
        ValueModel::List(items) => lemma_values_idempotent(items),
        ValueModel::Tuple(items) => lemma_values_idempotent(items),
        ValueModel::Depset(d) => lemma_depset_idempotent(d),
        ValueModel::Struct(fields) => lemma_fields_idempotent(fields),
        ValueModel::Dict(pairs) => {
            let c = encoding::canonical_pairs(pairs);
            encoding::lemma_canonical_pairs(pairs);
            encoding::lemma_canonical_pairs(c);
            assert forall|i: int| 0 <= i < c.len() implies encoding::canonical_pairs(c)[i]
                == #[trigger] c[i] by {
                lemma_idempotent(pairs[i].0);
                lemma_idempotent(pairs[i].1);
                assert(encoding::canonical_pairs(c)[i] == (
                    encoding::canonical(c[i].0),
                    encoding::canonical(c[i].1),
                ));
            }
            assert(encoding::canonical_pairs(c) =~= c);
        },
        ValueModel::Select(arms) => {
            let c = encoding::canonical_arms(arms);
            encoding::lemma_canonical_arms(arms);
            encoding::lemma_canonical_arms(c);
            assert forall|i: int| 0 <= i < c.len() implies encoding::canonical_arms(c)[i]
                == #[trigger] c[i] by {
                lemma_arm_idempotent(arms[i]);
                assert(encoding::canonical_arms(c)[i] == encoding::canonical_arm(c[i]));
            }
            assert(encoding::canonical_arms(c) =~= c);
        },
        _ => {},
    }
}

proof fn lemma_values_idempotent(items: Seq<ValueModel>)
    ensures
        encoding::canonical_values(encoding::canonical_values(items)) == encoding::canonical_values(
            items,
        ),
    decreases items,
{
    let c = encoding::canonical_values(items);
    encoding::lemma_canonical_values(items);
    encoding::lemma_canonical_values(c);
    assert forall|i: int| 0 <= i < c.len() implies encoding::canonical_values(c)[i]
        == #[trigger] c[i] by {
        lemma_idempotent(items[i]);
        assert(encoding::canonical_values(c)[i] == encoding::canonical(c[i]));
    }
    assert(encoding::canonical_values(c) =~= c);
}

proof fn lemma_fields_idempotent(fields: Seq<FieldModel>)
    ensures
        ({
            let sorted = order::sorted_by(encoding::canonical_fields(fields), encoding::by_name());
            order::sorted_by(encoding::canonical_fields(sorted), encoding::by_name()) == sorted
        }),
    decreases fields,
{
    let c = encoding::canonical_fields(fields);
    let sorted = order::sorted_by(c, encoding::by_name());
    encoding::lemma_canonical_fields(fields);
    encoding::lemma_canonical_fields(sorted);
    order::law_sorting_orders_and_keeps_items(c, encoding::by_name());
    assert forall|i: int| 0 <= i < sorted.len() implies encoding::canonical_fields(sorted)[i]
        == #[trigger] sorted[i] by {
        lemma_sorted_from_given(c, i);
        let j = choose|j: int| 0 <= j < c.len() && c[j] == sorted[i];
        assert(c[j] == (fields[j].0, encoding::canonical(fields[j].1)));
        lemma_idempotent(fields[j].1);
        assert(encoding::canonical_fields(sorted)[i] == (
            sorted[i].0,
            encoding::canonical(sorted[i].1),
        ));
    }
    assert(encoding::canonical_fields(sorted) =~= sorted);
    order::lemma_sorting_the_sorted(sorted, encoding::by_name());
}

proof fn lemma_arm_idempotent(arm: ArmModel)
    ensures
        encoding::canonical_arm(encoding::canonical_arm(arm)) == encoding::canonical_arm(arm),
    decreases arm,
{
    match arm {
        ArmModel::Concrete(v) => lemma_idempotent(v),
        ArmModel::Branch { conditions, no_match_error } => lemma_fields_idempotent(conditions),
    }
}

proof fn lemma_depset_idempotent(d: DepsetModel)
    ensures
        encoding::canonical_depset(encoding::canonical_depset(d)) == encoding::canonical_depset(d),
    decreases d,
{
    lemma_values_idempotent(d.direct);
    let c = encoding::canonical_depsets(d.transitive);
    encoding::lemma_canonical_depsets(d.transitive);
    encoding::lemma_canonical_depsets(c);
    assert forall|i: int| 0 <= i < c.len() implies encoding::canonical_depsets(c)[i]
        == #[trigger] c[i] by {
        lemma_depset_idempotent(d.transitive[i]);
        assert(encoding::canonical_depsets(c)[i] == encoding::canonical_depset(c[i]));
    }
    assert(encoding::canonical_depsets(c) =~= c);
}

/// The canonical form of a canonical form is itself, so a value and its canonical form are encoded alike.
pub proof fn law_canonical_form_is_final(v: ValueModel)
    ensures
        encoding::canonical(encoding::canonical(v)) == encoding::canonical(v),
        encoding::encoding(encoding::canonical(v)) == encoding::encoding(v),
{
    lemma_idempotent(v);
}

// ---- what the encoding tells apart ----

/// An encoding says where it ends: from a byte string that starts with one, the canonical form of the
/// value is read back, and so is whatever follows.
pub proof fn law_encoding_is_self_delimiting(a: ValueModel, b: ValueModel, x: Seq<u8>, y: Seq<u8>)
    requires
        encoding::representable(a),
        encoding::representable(b),
        encoding::encoding(a) + x == encoding::encoding(b) + y,
    ensures
        encoding::canonical(a) == encoding::canonical(b),
        x == y,
{
    lemma_canonical_sized(a);
    lemma_canonical_sized(b);
    lemma_layout_delimits(encoding::canonical(a), encoding::canonical(b), x, y);
}

/// Two values have one encoding exactly when they have one canonical form.
pub proof fn law_encoding_is_injective(a: ValueModel, b: ValueModel)
    requires
        encoding::representable(a),
        encoding::representable(b),
    ensures
        encoding::encoding(a) == encoding::encoding(b) <==> encoding::canonical(a)
            == encoding::canonical(b),
{
    if encoding::encoding(a) == encoding::encoding(b) {
        law_encoding_is_self_delimiting(a, b, seq![], seq![]);
    }
}

/// The first byte of an encoding is the tag of the value, so values of different kinds are never encoded
/// alike.
pub proof fn law_first_byte_is_the_tag(a: ValueModel, b: ValueModel)
    ensures
        encoding::encoding(a).len() > 0,
        encoding::encoding(a)[0] == encoding::tag(a),
        encoding::tag(a) != encoding::tag(b) ==> encoding::encoding(a) != encoding::encoding(b),
{
    assert(encoding::tag(encoding::canonical(a)) == encoding::tag(a));
    assert(encoding::tag(encoding::canonical(b)) == encoding::tag(b));
    assert(encoding::encoding(a)[0] == encoding::tag(a));
    assert(encoding::encoding(b)[0] == encoding::tag(b));
}

/// Values of a kind that holds no other values are told apart whenever they differ: none, truth values,
/// integers, texts, rules, providers, files, functions, labels and attribute declarations.
pub proof fn law_plain_values_are_told_apart(a: ValueModel, b: ValueModel)
    requires
        encoding::representable(a),
        encoding::representable(b),
        !(a is List || a is Depset || a is Struct || a is Dict || a is Tuple || a is Select),
    ensures
        encoding::encoding(a) == encoding::encoding(b) <==> a == b,
{
    law_encoding_is_injective(a, b);
    if encoding::encoding(a) == encoding::encoding(b) {
        law_first_byte_is_the_tag(a, b);
    }
}

/// The order in which the fields of a struct are given is not encoded.
///
/// Where one name occurs twice with different values the order of the two is encoded, and the law does not
/// hold.
pub proof fn law_field_order_is_no_content(fields: Seq<FieldModel>, others: Seq<FieldModel>)
    requires
        fields.to_multiset() == others.to_multiset(),
        order::keys_identify(fields, encoding::by_name()),
    ensures
        encoding::encoding(ValueModel::Struct(fields)) == encoding::encoding(
            ValueModel::Struct(others),
        ),
{
    lemma_canonical_order(fields, others);
}

/// The bytes of a struct: its tag, the number of its fields, and each field once, sorted by name. Fields of
/// one name stay in the order in which they are given.
pub proof fn law_struct_bytes(fields: Seq<FieldModel>)
    ensures
        encoding::encoding(ValueModel::Struct(fields)) == seq![9u8] + (bytes::count_bytes(
            fields.len(),
        ) + bytes::concat(
            order::sorted_by(fields, encoding::by_name()).map_values(
                |f: FieldModel| encoding::field_bytes(f),
            ),
        )),
{
    let key = encoding::by_name::<ValueModel>();
    let given = order::sorted_by(fields, key);
    let sorted = order::sorted_by(encoding::canonical_fields(fields), key);
    encoding::lemma_canonical_fields(fields);
    order::lemma_sorted_by_map(fields, encoding::canonical_field(), key, key);
    order::law_sorting_orders_and_keeps_items(fields, key);
    encoding::lemma_field_parts(sorted);
    assert(encoding::field_parts(sorted) =~= given.map_values(
        |f: FieldModel| encoding::field_bytes(f),
    ));
}

/// The two arms are one, or branches with the same error message and the same conditions, given in any
/// order. A condition that occurs twice has one value.
pub open spec fn same_but_for_order(a: ArmModel, b: ArmModel) -> bool {
    ||| a == b
    ||| {
        &&& a matches ArmModel::Branch { conditions: c, no_match_error: e }
        &&& b matches ArmModel::Branch { conditions: d, no_match_error: f }
        &&& e == f
        &&& c.to_multiset() == d.to_multiset()
        &&& order::keys_identify(c, encoding::by_name())
    }
}

/// The order in which the conditions of branches are given is not encoded, in however many branches it
/// changes.
///
/// Where one condition occurs twice with different values the order of the two is encoded, and the law does
/// not hold.
pub proof fn law_condition_order_is_no_content(arms: Seq<ArmModel>, others: Seq<ArmModel>)
    requires
        arms.len() == others.len(),
        forall|i: int|
            0 <= i < arms.len() ==> same_but_for_order(#[trigger] arms[i], others[i]),
    ensures
        encoding::encoding(ValueModel::Select(arms)) == encoding::encoding(
            ValueModel::Select(others),
        ),
{
    encoding::lemma_canonical_arms(arms);
    encoding::lemma_canonical_arms(others);
    assert forall|i: int| 0 <= i < arms.len() implies #[trigger] encoding::canonical_arms(arms)[i]
        == encoding::canonical_arms(others)[i] by {
        assert(same_but_for_order(arms[i], others[i]));
        if arms[i] != others[i] {
            lemma_canonical_order(arms[i]->conditions, others[i]->conditions);
        }
    }
    assert(encoding::canonical_arms(arms) =~= encoding::canonical_arms(others));
}

/// The order of the arms, whether each is a value or a branch, the values and the error messages are all
/// encoded: selections that are encoded alike have the same arms, up to the canonical form, in the same
/// order.
pub proof fn law_select_structure_is_content(arms: Seq<ArmModel>, others: Seq<ArmModel>)
    requires
        encoding::representable(ValueModel::Select(arms)),
        encoding::representable(ValueModel::Select(others)),
    ensures
        encoding::encoding(ValueModel::Select(arms)) == encoding::encoding(
            ValueModel::Select(others),
        ) <==> {
            &&& arms.len() == others.len()
            &&& forall|i: int|
                0 <= i < arms.len() ==> encoding::canonical_arm(#[trigger] arms[i])
                    == encoding::canonical_arm(others[i])
        },
{
    law_encoding_is_injective(ValueModel::Select(arms), ValueModel::Select(others));
    encoding::lemma_canonical_arms(arms);
    encoding::lemma_canonical_arms(others);
    let (c, d) = (encoding::canonical_arms(arms), encoding::canonical_arms(others));
    if c == d {
        assert forall|i: int| 0 <= i < arms.len() implies encoding::canonical_arm(
            #[trigger] arms[i],
        ) == encoding::canonical_arm(others[i]) by {
            assert(c[i] == d[i]);
        }
    }
    if arms.len() == others.len() && (forall|i: int|
        0 <= i < arms.len() ==> encoding::canonical_arm(#[trigger] arms[i])
            == encoding::canonical_arm(others[i])) {
        assert(c =~= d);
    }
}

proof fn lemma_canonical_order(fields: Seq<FieldModel>, others: Seq<FieldModel>)
    requires
        fields.to_multiset() == others.to_multiset(),
        order::keys_identify(fields, encoding::by_name()),
    ensures
        order::sorted_by(encoding::canonical_fields(fields), encoding::by_name())
            == order::sorted_by(encoding::canonical_fields(others), encoding::by_name()),
{
    let key = encoding::by_name::<ValueModel>();
    order::law_sorting_ignores_the_given_order(fields, others, key);
    encoding::lemma_canonical_fields(fields);
    encoding::lemma_canonical_fields(others);
    order::lemma_sorted_by_map(fields, encoding::canonical_field(), key, key);
    order::lemma_sorted_by_map(others, encoding::canonical_field(), key, key);
}

/// The two depsets differ at most in what they, and the depsets below them, say of the type of their
/// elements.
pub open spec fn same_but_for_elem(d: DepsetModel, e: DepsetModel) -> bool
    decreases d,
{
    &&& d.order == e.order
    &&& d.direct == e.direct
    &&& d.transitive.len() == e.transitive.len()
    &&& forall|i: int|
        0 <= i < d.transitive.len() ==> same_but_for_elem(
            #[trigger] d.transitive[i],
            e.transitive[i],
        )
}

proof fn lemma_elem_dropped(d: DepsetModel, e: DepsetModel)
    requires
        same_but_for_elem(d, e),
    ensures
        encoding::canonical_depset(d) == encoding::canonical_depset(e),
    decreases d,
{
    let (c, f) = (
        encoding::canonical_depsets(d.transitive),
        encoding::canonical_depsets(e.transitive),
    );
    encoding::lemma_canonical_depsets(d.transitive);
    encoding::lemma_canonical_depsets(e.transitive);
    assert forall|i: int| 0 <= i < c.len() implies #[trigger] c[i] == f[i] by {
        lemma_elem_dropped(d.transitive[i], e.transitive[i]);
    }
    assert(c =~= f);
}

/// What a depset, and every depset below it, says of the type of its elements is not encoded.
pub proof fn law_element_type_is_no_content(d: DepsetModel, e: DepsetModel)
    requires
        same_but_for_elem(d, e),
    ensures
        encoding::depset_encoding(d) == encoding::depset_encoding(e),
        encoding::encoding(ValueModel::Depset(d)) == encoding::encoding(ValueModel::Depset(e)),
{
    lemma_elem_dropped(d, e);
}

/// The bytes of a depset: its tag, the code of its order, its own values behind their number, and the
/// depsets below it behind theirs, each with its own tag and order. Nothing is flattened, and nothing left
/// out.
pub proof fn law_depset_bytes(d: DepsetModel)
    ensures
        encoding::encoding(ValueModel::Depset(d)) == encoding::depset_encoding(d),
        encoding::depset_encoding(d) == seq![7u8] + (seq![provider::order_code(d.order)] + ((
        bytes::count_bytes(d.direct.len()) + bytes::concat(
            d.direct.map_values(|v: ValueModel| encoding::encoding(v)),
        )) + (bytes::count_bytes(d.transitive.len()) + bytes::concat(
            d.transitive.map_values(|t: DepsetModel| encoding::depset_encoding(t)),
        )))),
{
    let c = encoding::canonical_depset(d);
    encoding::lemma_canonical_values(d.direct);
    encoding::lemma_canonical_depsets(d.transitive);
    encoding::lemma_value_parts(c.direct);
    encoding::lemma_depset_parts(c.transitive);
    assert(encoding::value_parts(c.direct) =~= d.direct.map_values(
        |v: ValueModel| encoding::encoding(v),
    ));
    assert(encoding::depset_parts(c.transitive) =~= d.transitive.map_values(
        |t: DepsetModel| encoding::depset_encoding(t),
    ));
}

/// The order, the own values and the depsets below are all encoded: depsets that are encoded alike agree in
/// each, up to the canonical form.
pub proof fn law_depset_structure_is_content(d: DepsetModel, e: DepsetModel)
    requires
        encoding::representable(ValueModel::Depset(d)),
        encoding::representable(ValueModel::Depset(e)),
    ensures
        encoding::encoding(ValueModel::Depset(d)) == encoding::encoding(ValueModel::Depset(e)) <==> (
        d.order == e.order && encoding::canonical_values(d.direct) == encoding::canonical_values(
            e.direct,
        ) && encoding::canonical_depsets(d.transitive) == encoding::canonical_depsets(
            e.transitive,
        )),
{
    law_encoding_is_injective(ValueModel::Depset(d), ValueModel::Depset(e));
}

/// The order of a dict's pairs is encoded: dicts that are encoded alike have the same pairs, up to the
/// canonical form, in the same order.
pub proof fn law_dict_order_is_content(
    pairs: Seq<(ValueModel, ValueModel)>,
    others: Seq<(ValueModel, ValueModel)>,
)
    requires
        encoding::representable(ValueModel::Dict(pairs)),
        encoding::representable(ValueModel::Dict(others)),
    ensures
        encoding::encoding(ValueModel::Dict(pairs)) == encoding::encoding(ValueModel::Dict(others))
            <==> encoding::canonical_pairs(pairs) == encoding::canonical_pairs(others),
{
    law_encoding_is_injective(ValueModel::Dict(pairs), ValueModel::Dict(others));
}

/// A tuple and a list are never encoded alike, not even with the same elements.
pub proof fn law_tuple_is_no_list(items: Seq<ValueModel>, others: Seq<ValueModel>)
    ensures
        encoding::encoding(ValueModel::Tuple(items)) != encoding::encoding(ValueModel::List(others)),
{
    law_first_byte_is_the_tag(ValueModel::Tuple(items), ValueModel::List(others));
}

/// The encoding of a provider instance says where it ends, and the identity of the provider and the
/// canonical form of the fields are read back from it: the defining module is part of the identity, and the
/// order of the fields is encoded.
pub proof fn law_instance_encoding_is_self_delimiting(
    p: InstanceModel,
    q: InstanceModel,
    x: Seq<u8>,
    y: Seq<u8>,
)
    requires
        encoding::instance_representable(p),
        encoding::instance_representable(q),
        encoding::instance_encoding(p) + x == encoding::instance_encoding(q) + y,
    ensures
        p.provider == q.provider,
        encoding::canonical_fields(p.fields) == encoding::canonical_fields(q.fields),
        x == y,
{
    broadcast use bytes::lemma_join;

    let (c, d) = (encoding::canonical_fields(p.fields), encoding::canonical_fields(q.fields));
    lemma_canonical_fields_sized(p.fields);
    lemma_canonical_fields_sized(q.fields);
    encoding::lemma_canonical_fields(p.fields);
    encoding::lemma_canonical_fields(q.fields);
    let p1 = (bytes::count_bytes(c.len()) + bytes::concat(encoding::field_parts(c))) + x;
    let q1 = (bytes::count_bytes(d.len()) + bytes::concat(encoding::field_parts(d))) + y;
    assert(encoding::instance_encoding(p) + x == encoding::identity_bytes(p.provider) + p1);
    assert(encoding::instance_encoding(q) + y == encoding::identity_bytes(q.provider) + q1);
    law_identity_is_self_delimiting(p.provider, q.provider, p1, q1);
    lemma_fields_delimit(c, d, x, y);
}

/// A run of provider instances behind their number is read back instance by instance.
pub proof fn law_counted_instances_are_self_delimiting(
    ps: Seq<InstanceModel>,
    qs: Seq<InstanceModel>,
    x: Seq<u8>,
    y: Seq<u8>,
)
    requires
        bytes::fits(ps.len()),
        bytes::fits(qs.len()),
        forall|i: int|
            0 <= i < ps.len() ==> encoding::instance_representable(#[trigger] ps[i]),
        forall|i: int|
            0 <= i < qs.len() ==> encoding::instance_representable(#[trigger] qs[i]),
        bytes::count_bytes(ps.len()) + bytes::concat(
            ps.map_values(|p: InstanceModel| encoding::instance_encoding(p)),
        ) + x == bytes::count_bytes(qs.len()) + bytes::concat(
            qs.map_values(|p: InstanceModel| encoding::instance_encoding(p)),
        ) + y,
    ensures
        ps.len() == qs.len(),
        forall|i: int|
            0 <= i < ps.len() ==> (#[trigger] ps[i]).provider == qs[i].provider
                && encoding::canonical_fields(ps[i].fields) == encoding::canonical_fields(
                qs[i].fields,
            ),
        x == y,
{
    let a = ps.map_values(|p: InstanceModel| encoding::instance_encoding(p));
    let b = qs.map_values(|p: InstanceModel| encoding::instance_encoding(p));
    assert forall|i: int| 0 <= i < a.len() && i < b.len() implies bytes::delimited(
        #[trigger] a[i],
        b[i],
    ) by {
        assert forall|u: Seq<u8>, w: Seq<u8>| #[trigger]
            (a[i] + u) == #[trigger] (b[i] + w) implies a[i] == b[i] by {
            law_instance_encoding_is_self_delimiting(ps[i], qs[i], u, w);
            encoding::lemma_canonical_fields(ps[i].fields);
            encoding::lemma_canonical_fields(qs[i].fields);
        }
    }
    bytes::lemma_counted_delimits(a, b, x, y);
    assert forall|i: int| 0 <= i < ps.len() implies (#[trigger] ps[i]).provider == qs[i].provider
        && encoding::canonical_fields(ps[i].fields) == encoding::canonical_fields(qs[i].fields) by {
        assert(a[i] == b[i]);
        law_instance_encoding_is_self_delimiting(ps[i], qs[i], seq![], seq![]);
    }
}

} // verus!
