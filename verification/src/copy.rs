//! Copies of values: a clone is the same value.

use vstd::prelude::*;
use crate::bytes;
use crate::provider;
use crate::provider::{
    ActionTemplate, DepProviders, Depset, ModuleFileValue, ProviderDef, ProviderId, ProviderInstance,
    RepoDecl, ResolvedToolchain, RuleResult,
};
use crate::values;
use crate::values::{
    AttrDecl, AttrType, BzlModule, BzlValue, FunctionRef, RuleDef, RuleOrigin, SelectArm, TargetDecl,
};

verus! {

/// A copy of a list of strings.
pub(crate) fn copy_texts(list: &Vec<String>) -> (r: Vec<String>)
    ensures
        bytes::texts(r@) == bytes::texts(list@),
{
    let n: usize = list.len();
    let mut r: Vec<String> = Vec::new();
    for i in 0..n
        invariant
            n == list@.len(),
            r@.len() == i,
            forall|j: int| 0 <= j < i ==> (#[trigger] r@[j])@ == list@[j]@,
    {
        r.push(list[i].clone());
    }
    assert(bytes::texts(r@) =~= bytes::texts(list@));
    r
}

/// A copy of an optional string.
pub(crate) fn copy_opt(s: &Option<String>) -> (r: Option<String>)
    ensures
        bytes::opt_text(r) == bytes::opt_text(*s),
{
    match s {
        None => None,
        Some(t) => Some(t.clone()),
    }
}

fn copy_schema(attrs: &Vec<(String, AttrType)>) -> (r: Vec<(String, AttrType)>)
    ensures
        values::schema_of(r@) == values::schema_of(attrs@),
{
    let n: usize = attrs.len();
    let mut r: Vec<(String, AttrType)> = Vec::new();
    for i in 0..n
        invariant
            n == attrs@.len(),
            r@.len() == i,
            forall|j: int|
                0 <= j < i ==> (#[trigger] r@[j]).0@ == attrs@[j].0@ && r@[j].1 == attrs@[j].1,
    {
        r.push((attrs[i].0.clone(), attrs[i].1));
    }
    assert(values::schema_of(r@) =~= values::schema_of(attrs@));
    r
}

impl Clone for RuleDef {
    fn clone(&self) -> (r: Self)
        ensures
            r@ == self@,
    {
        RuleDef {
            bzl: self.bzl.clone(),
            name: self.name.clone(),
            attrs: copy_schema(&self.attrs),
            toolchains: copy_texts(&self.toolchains),
        }
    }
}

impl Clone for ProviderId {
    fn clone(&self) -> (r: Self)
        ensures
            r@ == self@,
    {
        ProviderId { name: self.name.clone(), bzl: copy_opt(&self.bzl) }
    }
}

impl Clone for ProviderDef {
    fn clone(&self) -> (r: Self)
        ensures
            r@ == self@,
    {
        ProviderDef { id: self.id.clone(), fields: copy_texts(&self.fields) }
    }
}

impl Clone for AttrDecl {
    fn clone(&self) -> (r: Self)
        ensures
            r@ == self@,
    {
        AttrDecl {
            code: self.code,
            allow_files: match &self.allow_files {
                None => None,
                Some(exts) => Some(copy_texts(exts)),
            },
            providers: copy_texts(&self.providers),
            mandatory: self.mandatory,
            default: copy_opt(&self.default),
        }
    }
}

impl Clone for FunctionRef {
    fn clone(&self) -> (r: Self)
        ensures
            r@ == self@,
    {
        FunctionRef {
            module: self.module.clone(),
            name: self.name.clone(),
            defining_digest: self.defining_digest,
        }
    }
}

fn copy_value(v: &BzlValue) -> (r: BzlValue)
    ensures
        r@ == v@,
    decreases v,
{
    proof {
        values::lemma_value_view(*v);
    }
    let r = match v {
        BzlValue::Nil => BzlValue::Nil,
        BzlValue::Bool(x) => BzlValue::Bool(*x),
        BzlValue::Int(i) => BzlValue::Int(*i),
        BzlValue::Str(s) => BzlValue::Str(s.clone()),
        BzlValue::List(items) => BzlValue::List(copy_values(items.as_slice())),
        BzlValue::Rule(rd) => BzlValue::Rule(rd.clone()),
        BzlValue::Provider(pd) => BzlValue::Provider(pd.clone()),
        BzlValue::Depset(d) => BzlValue::Depset(copy_depset(d)),
        BzlValue::File(p) => BzlValue::File(p.clone()),
        BzlValue::Struct(fields) => BzlValue::Struct(copy_fields(fields.as_slice())),
        BzlValue::FunctionRef(f) => BzlValue::FunctionRef(f.clone()),
        BzlValue::Label(s) => BzlValue::Label(s.clone()),
        BzlValue::Dict(pairs) => BzlValue::Dict(copy_pairs(pairs.as_slice())),
        BzlValue::AttrDecl(a) => BzlValue::AttrDecl(a.clone()),
        BzlValue::Tuple(items) => BzlValue::Tuple(copy_values(items.as_slice())),
        BzlValue::Select(arms) => BzlValue::Select(copy_arms(arms.as_slice())),
    };
    proof {
        values::lemma_value_view(r);
    }
    r
}

fn copy_values(items: &[BzlValue]) -> (r: Vec<BzlValue>)
    ensures
        values::values_of(r@) == values::values_of(items@),
    decreases items@,
{
    let n: usize = items.len();
    let mut r: Vec<BzlValue> = Vec::new();
    for i in 0..n
        invariant
            n == items@.len(),
            r@.len() == i,
            forall|j: int| 0 <= j < i ==> (#[trigger] r@[j])@ == items@[j]@,
    {
        r.push(copy_value(&items[i]));
    }
    assert(values::values_of(r@) =~= values::values_of(items@));
    r
}

fn copy_fields(fields: &[(String, BzlValue)]) -> (r: Vec<(String, BzlValue)>)
    ensures
        values::fields_of(r@) == values::fields_of(fields@),
    decreases fields@,
{
    let n: usize = fields.len();
    let mut r: Vec<(String, BzlValue)> = Vec::new();
    for i in 0..n
        invariant
            n == fields@.len(),
            r@.len() == i,
            forall|j: int|
                0 <= j < i ==> (#[trigger] r@[j]).0@ == fields@[j].0@ && r@[j].1@ == fields@[j].1@,
    {
        r.push((fields[i].0.clone(), copy_value(&fields[i].1)));
    }
    assert(values::fields_of(r@) =~= values::fields_of(fields@));
    r
}

fn copy_pairs(pairs: &[(BzlValue, BzlValue)]) -> (r: Vec<(BzlValue, BzlValue)>)
    ensures
        values::pairs_of(r@) == values::pairs_of(pairs@),
    decreases pairs@,
{
    let n: usize = pairs.len();
    let mut r: Vec<(BzlValue, BzlValue)> = Vec::new();
    for i in 0..n
        invariant
            n == pairs@.len(),
            r@.len() == i,
            forall|j: int|
                0 <= j < i ==> (#[trigger] r@[j]).0@ == pairs@[j].0@ && r@[j].1@ == pairs@[j].1@,
    {
        r.push((copy_value(&pairs[i].0), copy_value(&pairs[i].1)));
    }
    assert(values::pairs_of(r@) =~= values::pairs_of(pairs@));
    r
}

fn copy_arm(arm: &SelectArm) -> (r: SelectArm)
    ensures
        r@ == arm@,
    decreases arm,
{
    proof {
        values::lemma_arm_view(*arm);
    }
    let r = match arm {
        SelectArm::Concrete(v) => SelectArm::Concrete(copy_value(v)),
        SelectArm::Branch { conditions, no_match_error } => SelectArm::Branch {
            conditions: copy_fields(conditions.as_slice()),
            no_match_error: no_match_error.clone(),
        },
    };
    proof {
        values::lemma_arm_view(r);
    }
    r
}

fn copy_arms(arms: &[SelectArm]) -> (r: Vec<SelectArm>)
    ensures
        values::arms_of(r@) == values::arms_of(arms@),
    decreases arms@,
{
    let n: usize = arms.len();
    let mut r: Vec<SelectArm> = Vec::new();
    for i in 0..n
        invariant
            n == arms@.len(),
            r@.len() == i,
            forall|j: int| 0 <= j < i ==> (#[trigger] r@[j])@ == arms@[j]@,
    {
        r.push(copy_arm(&arms[i]));
    }
    assert(values::arms_of(r@) =~= values::arms_of(arms@));
    r
}

fn copy_depset(d: &Depset) -> (r: Depset)
    ensures
        r@ == d@,
    decreases d,
{
    let r = Depset {
        order: d.order,
        elem: copy_opt(&d.elem),
        direct: copy_values(d.direct.as_slice()),
        transitive: copy_depsets(d.transitive.as_slice()),
    };
    proof {
        provider::lemma_depset_view(*d);
        provider::lemma_depset_view(r);
    }
    r
}

fn copy_depsets(list: &[Depset]) -> (r: Vec<Depset>)
    ensures
        provider::depsets_of(r@) == provider::depsets_of(list@),
    decreases list@,
{
    let n: usize = list.len();
    let mut r: Vec<Depset> = Vec::new();
    for i in 0..n
        invariant
            n == list@.len(),
            r@.len() == i,
            forall|j: int| 0 <= j < i ==> (#[trigger] r@[j])@ == list@[j]@,
    {
        r.push(copy_depset(&list[i]));
    }
    assert(provider::depsets_of(r@) =~= provider::depsets_of(list@));
    r
}

impl Clone for BzlValue {
    fn clone(&self) -> (r: Self)
        ensures
            r@ == self@,
    {
        copy_value(self)
    }
}

impl Clone for SelectArm {
    fn clone(&self) -> (r: Self)
        ensures
            r@ == self@,
    {
        copy_arm(self)
    }
}

impl Clone for Depset {
    fn clone(&self) -> (r: Self)
        ensures
            r@ == self@,
    {
        copy_depset(self)
    }
}

impl Clone for BzlModule {
    fn clone(&self) -> (r: Self)
        ensures
            r@ == self@,
    {
        BzlModule { bindings: copy_fields(self.bindings.as_slice()) }
    }
}

impl Clone for RuleOrigin {
    fn clone(&self) -> (r: Self)
        ensures
            r@ == self@,
    {
        RuleOrigin { bzl: self.bzl.clone(), name: self.name.clone() }
    }
}

impl Clone for TargetDecl {
    fn clone(&self) -> (r: Self)
        ensures
            r@ == self@,
    {
        TargetDecl {
            kind: self.kind.clone(),
            name: self.name.clone(),
            attrs: copy_fields(self.attrs.as_slice()),
            origin: match &self.origin {
                None => None,
                Some(o) => Some(o.clone()),
            },
        }
    }
}

impl Clone for ProviderInstance {
    fn clone(&self) -> (r: Self)
        ensures
            r@ == self@,
    {
        ProviderInstance {
            provider: self.provider.clone(),
            fields: copy_fields(self.fields.as_slice()),
        }
    }
}

/// A copy of a list of provider instances.
fn copy_instances(list: &Vec<ProviderInstance>) -> (r: Vec<ProviderInstance>)
    ensures
        provider::instances_of(r@) == provider::instances_of(list@),
{
    let n: usize = list.len();
    let mut r: Vec<ProviderInstance> = Vec::new();
    for i in 0..n
        invariant
            n == list@.len(),
            r@.len() == i,
            forall|j: int| 0 <= j < i ==> (#[trigger] r@[j])@ == list@[j]@,
    {
        r.push(list[i].clone());
    }
    assert(provider::instances_of(r@) =~= provider::instances_of(list@));
    r
}

impl Clone for DepProviders {
    fn clone(&self) -> (r: Self)
        ensures
            r@ == self@,
    {
        DepProviders { label: self.label.clone(), providers: copy_instances(&self.providers) }
    }
}

impl Clone for ResolvedToolchain {
    fn clone(&self) -> (r: Self)
        ensures
            r@ == self@,
    {
        ResolvedToolchain {
            toolchain_type: self.toolchain_type.clone(),
            info: self.info.clone(),
        }
    }
}

/// A copy of a list of settings.
fn copy_settings(list: &Vec<(String, String)>) -> (r: Vec<(String, String)>)
    ensures
        provider::settings_of(r@) == provider::settings_of(list@),
{
    let n: usize = list.len();
    let mut r: Vec<(String, String)> = Vec::new();
    for i in 0..n
        invariant
            n == list@.len(),
            r@.len() == i,
            forall|j: int|
                0 <= j < i ==> (#[trigger] r@[j]).0@ == list@[j].0@ && r@[j].1@ == list@[j].1@,
    {
        r.push((list[i].0.clone(), list[i].1.clone()));
    }
    assert(provider::settings_of(r@) =~= provider::settings_of(list@));
    r
}

impl Clone for ActionTemplate {
    fn clone(&self) -> (r: Self)
        ensures
            r@ == self@,
    {
        ActionTemplate {
            mnemonic: self.mnemonic.clone(),
            argv: copy_texts(&self.argv),
            env: copy_settings(&self.env),
            inputs: copy_texts(&self.inputs),
            outputs: copy_texts(&self.outputs),
        }
    }
}

/// A copy of a list of actions.
fn copy_actions(list: &Vec<ActionTemplate>) -> (r: Vec<ActionTemplate>)
    ensures
        provider::actions_of(r@) == provider::actions_of(list@),
{
    let n: usize = list.len();
    let mut r: Vec<ActionTemplate> = Vec::new();
    for i in 0..n
        invariant
            n == list@.len(),
            r@.len() == i,
            forall|j: int| 0 <= j < i ==> (#[trigger] r@[j])@ == list@[j]@,
    {
        r.push(list[i].clone());
    }
    assert(provider::actions_of(r@) =~= provider::actions_of(list@));
    r
}

impl Clone for RuleResult {
    fn clone(&self) -> (r: Self)
        ensures
            r@ == self@,
    {
        RuleResult {
            providers: copy_instances(&self.providers),
            actions: copy_actions(&self.actions),
        }
    }
}

impl Clone for RepoDecl {
    fn clone(&self) -> (r: Self)
        ensures
            r@ == self@,
    {
        RepoDecl {
            name: self.name.clone(),
            path: self.path.clone(),
            build_file: copy_opt(&self.build_file),
        }
    }
}

/// A copy of a list of repositories.
fn copy_repos(list: &Vec<RepoDecl>) -> (r: Vec<RepoDecl>)
    ensures
        provider::repos_of(r@) == provider::repos_of(list@),
{
    let n: usize = list.len();
    let mut r: Vec<RepoDecl> = Vec::new();
    for i in 0..n
        invariant
            n == list@.len(),
            r@.len() == i,
            forall|j: int| 0 <= j < i ==> (#[trigger] r@[j])@ == list@[j]@,
    {
        r.push(list[i].clone());
    }
    assert(provider::repos_of(r@) =~= provider::repos_of(list@));
    r
}

impl Clone for ModuleFileValue {
    fn clone(&self) -> (r: Self)
        ensures
            r@ == self@,
    {
        ModuleFileValue {
            module_name: self.module_name.clone(),
            registered_toolchains: copy_texts(&self.registered_toolchains),
            repos: copy_repos(&self.repos),
        }
    }
}

} // verus!
