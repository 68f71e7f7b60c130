//! Persistent shared objects: named, session-cached dynamic objects whose
//! `data` member round-trips through the JSON codec to the storage backend.

use vstd::prelude::*;
use crate::context::{Avm1, UpdateContext, spec_cached};
use crate::json_codec::{
    Doc, jv_as_bool, jv_as_str, jv_doc, jv_dump, jv_entries, jv_insert_bool, jv_insert_null,
    jv_insert_num, jv_insert_str, jv_insert_value, jv_is_null, jv_is_object, jv_new_object,
    jv_num_parts, jv_parse, obj_insert, dump_text, parsed_doc,
};
use crate::object::{
    Attributes, Obj, ObjModel, PropertyModel, Role, RoleModel, ScriptObject, ScriptObjectModel,
    TypeOf, NativeFn, spec_define, spec_own, store_wf,
};
use crate::stage_object::with_base_props;
use crate::storage::spec_stored;
use crate::table::table_find;
use crate::value::{Number, Value, ValueModel};

verus! {

/// How deep a dynamic-object graph is serialized or deserialized before the
/// walk stops; nothing scripts persist in practice comes near it.
pub const SERIALIZE_DEPTH: u64 = 64;

/// The shared-object role data beside the generic base: the storage key.
pub struct SharedObjectData {
    pub name: String,
}

/// The model of the shared-object role data.
pub struct SharedObjectModel {
    pub name: Seq<char>,
}

impl View for SharedObjectData {
    type V = SharedObjectModel;

    open spec fn view(&self) -> SharedObjectModel {
        SharedObjectModel { name: self.name@ }
    }
}

/// The magnitude of a signed number.
pub open spec fn spec_magnitude(n: i64) -> u64 {
    if n >= 0 {
        n as u64
    } else {
        (-(n as int)) as u64
    }
}

/// The document an object serializes to: its enumerable own properties in
/// slot order, each value serialized by kind. An exhausted depth budget
/// serializes as an empty object.
pub open spec fn spec_serialize(objs: Seq<ObjModel>, id: int, fuel: nat) -> Doc
    decreases fuel, 1nat, 0nat,
{
    if fuel == 0 || !(0 <= id < objs.len()) {
        Doc::Obj(Seq::empty())
    } else {
        Doc::Obj(spec_serialize_entries(objs, objs[id].base.props, fuel))
    }
}

/// The serialized entries of a property list: properties flagged
/// non-enumerable, undefined values, and function objects are omitted.
pub open spec fn spec_serialize_entries(
    objs: Seq<ObjModel>,
    props: Seq<(Seq<char>, PropertyModel)>,
    fuel: nat,
) -> Seq<(Seq<char>, Doc)>
    decreases fuel, 0nat, props.len(),
{
    if props.len() == 0 {
        Seq::empty()
    } else {
        let rest = spec_serialize_entries(objs, props.drop_last(), fuel);
        let e = props.last();
        if e.1.attrs.dont_enum {
            rest
        } else {
            match spec_serialize_value(objs, e.1.value, fuel) {
                Some(d) => rest.push((e.0, d)),
                None => rest,
            }
        }
    }
}

/// The document one value serializes to: nothing for the undefined value and
/// for function objects, a null node for null and for non-finite numbers
/// (which the codec prints as null), the direct equivalent for booleans,
/// numbers and text, and a nested document for an object.
pub open spec fn spec_serialize_value(objs: Seq<ObjModel>, v: ValueModel, fuel: nat) -> Option<Doc>
    decreases fuel, 0nat, 0nat,
    when fuel >= 0
{
    match v {
        ValueModel::Undefined => None,
        ValueModel::Null => Some(Doc::Null),
        ValueModel::Bool(b) => Some(Doc::Bool(b)),
        ValueModel::Number(Number::Finite(n)) => Some(Doc::Num(n >= 0, spec_magnitude(n), 0)),
        ValueModel::Number(_) => Some(Doc::Null),
        ValueModel::Text(s) => Some(Doc::Str(s)),
        ValueModel::Object(o) => if 0 <= o < objs.len() && objs[o].base.native is None {
            if fuel > 0 {
                Some(spec_serialize(objs, o, (fuel - 1) as nat))
            } else {
                Some(Doc::Obj(Seq::empty()))
            }
        } else {
            None
        },
    }
}

/// Every serialized key was a property key.
proof fn lemma_serialize_entries_keys(
    objs: Seq<ObjModel>,
    props: Seq<(Seq<char>, PropertyModel)>,
    fuel: nat,
)
    ensures
        forall|j: int|
            0 <= j < spec_serialize_entries(objs, props, fuel).len() ==> exists|k: int|
                0 <= k < props.len() && props[k].0 == #[trigger] spec_serialize_entries(
                    objs,
                    props,
                    fuel,
                )[j].0,
    decreases props.len(),
{
    if props.len() > 0 {
        lemma_serialize_entries_keys(objs, props.drop_last(), fuel);
        let rest = spec_serialize_entries(objs, props.drop_last(), fuel);
        let whole = spec_serialize_entries(objs, props, fuel);
        assert forall|j: int| 0 <= j < whole.len() implies exists|k: int|
            0 <= k < props.len() && props[k].0 == #[trigger] whole[j].0 by {
            if j < rest.len() {
                let k = choose|k: int|
                    0 <= k < props.drop_last().len() && props.drop_last()[k].0 == #[trigger] rest[j].0;
                assert(props[k].0 == whole[j].0);
            } else {
                assert(whole[j].0 == props.last().0);
                assert(props[props.len() - 1].0 == whole[j].0);
            }
        }
    }
}

/// Serialize an object's own enumerable properties into a JSON object node,
/// nested objects recursively up to the depth budget. Undefined values are
/// omitted entirely; function objects are skipped.
pub fn recursive_serialize(
    _avm: &Avm1,
    context: &UpdateContext,
    obj: usize,
    json_obj: &mut json::JsonValue,
    fuel: u64,
)
    requires
        context.wf(),
        obj < context.objects@.len(),
        jv_doc(*old(json_obj)) == Doc::Obj(Seq::<(Seq<char>, Doc)>::empty()),
    ensures
        jv_doc(*final(json_obj)) == spec_serialize(context.objects@, obj as int, fuel as nat),
    decreases fuel,
{
    if fuel == 0 {
        return ;
    }
    let ghost objs = context.objects@;
    let ghost props = context.objects@[obj as int].base.props;
    let ghost efuel = fuel as nat;
    let n = context.objects.objs[obj].base.props.len();
    let mut i: usize = 0;
    proof {
        assert(props.take(0) =~= Seq::<(Seq<char>, PropertyModel)>::empty());
    }
    while i < n
        invariant
            context.wf(),
            obj < context.objects@.len(),
            objs == context.objects@,
            props == context.objects@[obj as int].base.props,
            efuel == fuel as nat,
            fuel >= 1,
            n == props.len(),
            i <= n,
            jv_doc(*json_obj) == Doc::Obj(spec_serialize_entries(objs, props.take(i as int), efuel)),
        decreases n - i,
    {
        let ghost taken = props.take(i as int);
        let ghost entries_now = spec_serialize_entries(objs, taken, efuel);
        proof {
            assert(props.take(i as int + 1).drop_last() =~= taken);
            assert(props.take(i as int + 1).last() == props[i as int]);
            // A fresh key: serialized keys come from earlier slots, whose
            // names all differ from this slot's name.
            lemma_serialize_entries_keys(objs, taken, efuel);
            assert forall|j: int| 0 <= j < entries_now.len() implies !crate::text::name_matches(
                #[trigger] entries_now[j].0,
                props[i as int].0,
                true,
            ) by {
                let k = choose|k: int|
                    0 <= k < taken.len() && taken[k].0 == #[trigger] entries_now[j].0;
                assert(props[k].0 == entries_now[j].0);
                assert(props[k].0 != props[i as int].0);
            }
            crate::table::lemma_table_find_none(entries_now, props[i as int].0, true);
        }
        let dont_enum = context.objects.objs[obj].base.props.value_at(i).attrs.dont_enum;
        proof {
            assert(props[i as int].1.attrs.dont_enum == dont_enum);
        }
        if !dont_enum {
            let key = context.objects.objs[obj].base.props.key_at(i).clone();
            match &context.objects.objs[obj].base.props.value_at(i).value {
                Value::Undefined => {},
                Value::Null => {
                    assert(props[i as int].1.value is Null);
                    jv_insert_null(json_obj, key.as_str());
                    assert(spec_serialize_value(objs, props[i as int].1.value, efuel) == Some(
                        Doc::Null,
                    ));
                    assert(jv_doc(*json_obj) == Doc::Obj(
                        obj_insert(entries_now, props[i as int].0, Doc::Null),
                    ));
                    assert(obj_insert(entries_now, props[i as int].0, Doc::Null)
                        == entries_now.push((props[i as int].0, Doc::Null)));
                },
                Value::Bool(b) => {
                    jv_insert_bool(json_obj, key.as_str(), *b);
                },
                Value::Number(Number::Finite(v)) => {
                    let v = *v;
                    let positive = v >= 0;
                    let mantissa: u64 = if v >= 0 {
                        v as u64
                    } else {
                        (-(v as i128)) as u64
                    };
                    assert(mantissa == spec_magnitude(v));
                    jv_insert_num(json_obj, key.as_str(), positive, mantissa);
                },
                Value::Number(_) => {
                    jv_insert_null(json_obj, key.as_str());
                },
                Value::Text(s) => {
                    let text = s.clone();
                    jv_insert_str(json_obj, key.as_str(), text.as_str());
                },
                Value::Object(o) => {
                    let o = *o;
                    assert(o < context.objects@.len());
                    if context.objects.objs[o].base.native.is_none() {
                        let mut sub = jv_new_object();
                        recursive_serialize(_avm, context, o, &mut sub, fuel - 1);
                        jv_insert_value(json_obj, key.as_str(), sub);
                    }
                },
            }
        }
        proof {
            assert(jv_doc(*json_obj) == Doc::Obj(
                spec_serialize_entries(objs, props.take(i as int + 1), efuel),
            ));
        }
        i = i + 1;
    }
    proof {
        assert(props.take(n as int) =~= props);
    }
}


/// A property defined on one object of the arena, all else unchanged.
pub open spec fn spec_define_on(
    objs: Seq<ObjModel>,
    id: int,
    key: Seq<char>,
    v: ValueModel,
) -> Seq<ObjModel> {
    objs.update(
        id,
        with_base_props(
            objs[id],
            spec_define(
                objs[id].base.props,
                key,
                v,
                Attributes { dont_enum: false, dont_delete: false, read_only: false },
            ),
        ),
    )
}

/// A fresh plain object with the given prototype.
pub open spec fn spec_plain_obj(proto: int) -> ObjModel {
    ObjModel {
        base: ScriptObjectModel {
            props: Seq::empty(),
            proto: Some(proto),
            type_of: TypeOf::Object,
            native: None,
        },
        role: RoleModel::Plain,
    }
}

/// What deserializing a document's entries into an object leaves the arena
/// holding: null, boolean, text and in-range integer entries become own
/// properties; a nested document becomes a fresh plain object populated the
/// same way; arrays and out-of-range numbers are dropped.
pub open spec fn spec_deserialize_entries(
    objs: Seq<ObjModel>,
    id: int,
    entries: Seq<(Seq<char>, Doc)>,
    proto: int,
    fuel: nat,
) -> Seq<ObjModel>
    decreases fuel, entries.len(),
{
    if entries.len() == 0 {
        objs
    } else {
        let objs1 = spec_deserialize_entries(objs, id, entries.drop_last(), proto, fuel);
        let e = entries.last();
        match e.1 {
            Doc::Null => spec_define_on(objs1, id, e.0, ValueModel::Null),
            Doc::Bool(b) => spec_define_on(objs1, id, e.0, ValueModel::Bool(b)),
            Doc::Str(s) => spec_define_on(objs1, id, e.0, ValueModel::Text(s)),
            Doc::Num(p, m, ex) => if ex == 0 && m <= i64::MAX as u64 {
                spec_define_on(
                    objs1,
                    id,
                    e.0,
                    ValueModel::Number(
                        Number::Finite(
                            if p {
                                m as i64
                            } else {
                                (-(m as int)) as i64
                            },
                        ),
                    ),
                )
            } else {
                objs1
            },
            Doc::Obj(sub) => if fuel > 0 {
                let nid = objs1.len() as int;
                let objs2 = objs1.push(spec_plain_obj(proto));
                let objs3 = spec_deserialize_entries(objs2, nid, sub, proto, (fuel - 1) as nat);
                spec_define_on(objs3, id, e.0, ValueModel::Object(nid))
            } else {
                objs1
            },
            Doc::Arr(_) => objs1,
        }
    }
}

/// The document's entries if it is an object node, else nothing.
pub open spec fn doc_entries(d: Doc) -> Seq<(Seq<char>, Doc)> {
    match d {
        Doc::Obj(entries) => entries,
        _ => Seq::empty(),
    }
}

/// Defining a value whose object handle (if any) is in range keeps the
/// store well formed.
proof fn lemma_store_wf_after_define(
    pre: Seq<ObjModel>,
    post: Seq<ObjModel>,
    id: int,
    key: Seq<char>,
    v: ValueModel,
)
    requires
        store_wf(pre),
        0 <= id < pre.len(),
        v matches ValueModel::Object(o) ==> 0 <= o < pre.len(),
        post == spec_define_on(pre, id, key, v),
    ensures
        store_wf(post),
{
    let props = pre[id].base.props;
    let props2 = post[id].base.props;
    crate::table::lemma_table_find_props(props, key, true);
    assert forall|i: int| 0 <= i < post.len() implies {
        let m = #[trigger] post[i];
        &&& (m.base.proto matches Some(p) ==> 0 <= p < post.len())
        &&& (forall|j: int, k: int|
            0 <= j < k < m.base.props.len() ==> m.base.props[j].0 != m.base.props[k].0)
        &&& (forall|j: int|
            0 <= j < m.base.props.len() ==> ((#[trigger] m.base.props[j]).1.value matches
            ValueModel::Object(o) ==> 0 <= o < post.len()))
    } by {
        if i == id {
            match table_find(props, key, true) {
                Some(slot) => {
                    assert forall|j: int, k: int| 0 <= j < k < post[i].base.props.len() implies
                        post[i].base.props[j].0 != post[i].base.props[k].0 by {
                        assert(props2[j].0 == props[j].0);
                        assert(props2[k].0 == props[k].0);
                    }
                    assert forall|j: int| 0 <= j < post[i].base.props.len() implies ((
                    #[trigger] post[i].base.props[j]).1.value matches ValueModel::Object(o)
                        ==> 0 <= o < post.len()) by {
                        if j != slot {
                            assert(props2[j] == props[j]);
                        }
                    }
                },
                None => {
                    assert forall|j: int, k: int| 0 <= j < k < post[i].base.props.len() implies
                        post[i].base.props[j].0 != post[i].base.props[k].0 by {
                        if k < props.len() {
                            assert(props2[j] == props[j]);
                            assert(props2[k] == props[k]);
                        } else {
                            assert(props2[j] == props[j]);
                            assert(props2[k].0 == key);
                            assert(!crate::text::name_matches(props[j].0, key, true));
                        }
                    }
                    assert forall|j: int| 0 <= j < post[i].base.props.len() implies ((
                    #[trigger] post[i].base.props[j]).1.value matches ValueModel::Object(o)
                        ==> 0 <= o < post.len()) by {
                        if j < props.len() {
                            assert(props2[j] == props[j]);
                        }
                    }
                },
            }
        } else {
            assert(post[i] == pre[i]);
        }
    }
}

/// Growing the arena with a fresh property-less object that is not
/// stage-bound, and touching nothing else, keeps the whole context well
/// formed.
proof fn lemma_ctx_wf_after_push(pre: UpdateContext, post: UpdateContext, m: ObjModel)
    requires
        pre.wf(),
        m.base.props == Seq::<(Seq<char>, PropertyModel)>::empty(),
        m.base.proto matches Some(p) ==> 0 <= p < pre.objects@.len(),
        !(m.role is Stage),
        post.objects@ == pre.objects@.push(m),
        post.stage == pre.stage,
        post.storage == pre.storage,
        post.shared_objects == pre.shared_objects,
    ensures
        post.wf(),
{
    let objs = post.objects@;
    let pres = pre.objects@;
    assert(post.cache() == pre.cache());
    assert(store_wf(objs)) by {
        assert forall|i: int| 0 <= i < objs.len() implies {
            let m = #[trigger] objs[i];
            &&& (m.base.proto matches Some(p) ==> 0 <= p < objs.len())
            &&& (forall|j: int, k: int|
                0 <= j < k < m.base.props.len() ==> m.base.props[j].0 != m.base.props[k].0)
            &&& (forall|j: int|
                0 <= j < m.base.props.len() ==> ((#[trigger] m.base.props[j]).1.value matches
                ValueModel::Object(o) ==> 0 <= o < objs.len()))
        } by {
            if i < pres.len() {
                assert(objs[i] == pres[i]);
            }
        }
    }
    assert forall|i: int|
        0 <= i < objs.len() implies match (#[trigger] objs[i]).role {
        RoleModel::Stage(d) => {
            &&& d.display_object < post.stage@.nodes.len()
            &&& forall|j: int|
                0 <= j < d.text_field_bindings.len()
                    ==> (#[trigger] d.text_field_bindings[j]).0 < post.stage@.nodes.len()
        },
        _ => true,
    } by {
        if i < pres.len() {
            assert(objs[i] == pres[i]);
        }
    }
}

/// Defining an in-range value on an object and touching nothing else keeps
/// the whole context well formed.
proof fn lemma_ctx_wf_after_define(
    pre: UpdateContext,
    post: UpdateContext,
    id: int,
    key: Seq<char>,
    v: ValueModel,
)
    requires
        pre.wf(),
        0 <= id < pre.objects@.len(),
        v matches ValueModel::Object(o) ==> 0 <= o < pre.objects@.len(),
        post.objects@ == spec_define_on(pre.objects@, id, key, v),
        post.stage == pre.stage,
        post.storage == pre.storage,
        post.shared_objects == pre.shared_objects,
    ensures
        post.wf(),
{
    lemma_store_wf_after_define(pre.objects@, post.objects@, id, key, v);
    assert(post.cache() == pre.cache());
    assert forall|i: int|
        0 <= i < post.objects@.len() implies match (#[trigger] post.objects@[i]).role {
        RoleModel::Stage(d) => {
            &&& d.display_object < post.stage@.nodes.len()
            &&& forall|j: int|
                0 <= j < d.text_field_bindings.len()
                    ==> (#[trigger] d.text_field_bindings[j]).0 < post.stage@.nodes.len()
        },
        _ => true,
    } by {
        assert(post.objects@[i].role == pre.objects@[i].role);
    }
}

/// Define an own property on an object of the arena with empty flags.
fn define_on(context: &mut UpdateContext, id: usize, key: &str, v: Value)
    requires
        old(context).wf(),
        id < old(context).objects@.len(),
        v@ matches ValueModel::Object(o) ==> 0 <= o < old(context).objects@.len(),
    ensures
        final(context).wf(),
        final(context).objects@ == spec_define_on(old(context).objects@, id as int, key@, v@),
        final(context).stage == old(context).stage,
        final(context).storage == old(context).storage,
        final(context).shared_objects == old(context).shared_objects,
        final(context).unbound_text_fields == old(context).unbound_text_fields,
{
    let ghost pre = context.objects@;
    let ghost vm = v@;
    context.objects.objs[id].base.define_value(key, v, Attributes::empty());
    proof {
        let objs = context.objects@;
        let target = with_base_props(
            pre[id as int],
            spec_define(
                pre[id as int].base.props,
                key@,
                vm,
                Attributes { dont_enum: false, dont_delete: false, read_only: false },
            ),
        );
        assert(objs[id as int].base.props == target.base.props);
        assert(objs[id as int].base == target.base);
        assert(objs[id as int] == target);
        assert(objs =~= pre.update(id as int, target));
        lemma_ctx_wf_after_define(*old(context), *context, id as int, key@, vm);
    }
}


/// The model of a fresh shared object bound to a storage key.
pub open spec fn spec_shared_obj(proto: int, name: Seq<char>) -> ObjModel {
    ObjModel {
        base: ScriptObjectModel {
            props: Seq::empty(),
            proto: Some(proto),
            type_of: TypeOf::Object,
            native: None,
        },
        role: RoleModel::Shared(SharedObjectModel { name }),
    }
}

/// The model of a fresh native-function object.
pub open spec fn spec_fn_obj(func: NativeFn, proto: Option<int>) -> ObjModel {
    ObjModel {
        base: ScriptObjectModel {
            props: Seq::empty(),
            proto,
            type_of: TypeOf::Function,
            native: Some(func),
        },
        role: RoleModel::Plain,
    }
}

/// Deserialize a document's entries into an object's own properties: null,
/// boolean, text and in-range integer nodes become plain values, nested
/// object nodes become fresh plain dynamic objects populated recursively,
/// and array nodes are dropped.
pub fn recursive_deserialize(
    json_obj: &json::JsonValue,
    avm: &Avm1,
    object: usize,
    context: &mut UpdateContext,
    fuel: u64,
)
    requires
        old(context).wf(),
        object < old(context).objects@.len(),
        avm.prototypes.object < old(context).objects@.len(),
    ensures
        final(context).wf(),
        final(context).objects@ == spec_deserialize_entries(
            old(context).objects@,
            object as int,
            doc_entries(jv_doc(*json_obj)),
            avm.prototypes.object as int,
            fuel as nat,
        ),
        final(context).objects@.len() >= old(context).objects@.len(),
        object < final(context).objects@.len(),
        avm.prototypes.object < final(context).objects@.len(),
        final(context).stage == old(context).stage,
        final(context).storage == old(context).storage,
        final(context).shared_objects == old(context).shared_objects,
        final(context).unbound_text_fields == old(context).unbound_text_fields,
    decreases fuel,
{
    let entries = jv_entries(json_obj);
    let ghost docs = doc_entries(jv_doc(*json_obj));
    let n = entries.len();
    proof {
        assert(n == docs.len());
        assert(docs.take(0) =~= Seq::<(Seq<char>, Doc)>::empty());
    }
    let mut i: usize = 0;
    while i < n
        invariant
            context.wf(),
            n == entries@.len(),
            n == docs.len(),
            i <= n,
            forall|j: int|
                0 <= j < n ==> (#[trigger] entries@[j]).0@ == docs[j].0 && jv_doc(entries@[j].1)
                    == docs[j].1,
            context.objects@ == spec_deserialize_entries(
                old(context).objects@,
                object as int,
                docs.take(i as int),
                avm.prototypes.object as int,
                fuel as nat,
            ),
            context.objects@.len() >= old(context).objects@.len(),
            object < old(context).objects@.len(),
            avm.prototypes.object < old(context).objects@.len(),
            context.stage == old(context).stage,
            context.storage == old(context).storage,
            context.shared_objects == old(context).shared_objects,
            context.unbound_text_fields == old(context).unbound_text_fields,
        decreases n - i,
    {
        proof {
            assert(docs.take(i as int + 1).drop_last() =~= docs.take(i as int));
            assert(docs.take(i as int + 1).last() == docs[i as int]);
        }
        let key = entries[i].0.clone();
        let val = &entries[i].1;
        assert(key@ == docs[i as int].0);
        assert(jv_doc(*val) == docs[i as int].1);
        if jv_is_null(val) {
            define_on(context, object, key.as_str(), Value::Null);
        } else if let Some(s) = jv_as_str(val) {
            define_on(context, object, key.as_str(), Value::Text(s));
        } else if let Some(parts) = jv_num_parts(val) {
            let (positive, mantissa, exponent) = parts;
            if exponent == 0 && mantissa <= 0x7fffffffffffffffu64 {
                let v: i64 = if positive {
                    mantissa as i64
                } else {
                    -(mantissa as i64)
                };
                define_on(context, object, key.as_str(), Value::Number(Number::Finite(v)));
            }
        } else if let Some(b) = jv_as_bool(val) {
            define_on(context, object, key.as_str(), Value::Bool(b));
        } else if jv_is_object(val) {
            if fuel > 0 {
                let ghost ctx_pre = *context;
                let nid = context.objects.add_obj(
                    Obj {
                        base: ScriptObject::object(Some(avm.prototypes.object)),
                        role: Role::Plain,
                    },
                );
                proof {
                    assert(context.objects@ =~= ctx_pre.objects@.push(
                        spec_plain_obj(avm.prototypes.object as int),
                    ));
                    lemma_ctx_wf_after_push(
                        ctx_pre,
                        *context,
                        spec_plain_obj(avm.prototypes.object as int),
                    );
                }
                recursive_deserialize(val, avm, nid, context, fuel - 1);
                define_on(context, object, key.as_str(), Value::Object(nid));
            }
        } else {
            // An array node: dropped, a documented limitation of this store.
        }
        i = i + 1;
    }
    proof {
        assert(docs.take(n as int) =~= docs);
    }
}


/// The arena `getLocal` leaves behind when the name is not yet cached: the
/// fresh shared object, its fresh `data` object, the stored document (if
/// the backend held text that parses) deserialized into `data`, and the
/// `data` property defined on the shared object.
pub open spec fn spec_get_local_fresh(
    objs: Seq<ObjModel>,
    storage: Seq<(Seq<char>, Seq<char>)>,
    name: Seq<char>,
    so_proto: int,
    obj_proto: int,
) -> Seq<ObjModel> {
    let so_id = objs.len() as int;
    let data_id = so_id + 1;
    let objs1 = objs.push(spec_shared_obj(so_proto, name)).push(spec_plain_obj(obj_proto));
    let objs2 = match spec_stored(storage, name) {
        Some(text) => match parsed_doc(text) {
            Some(d) => spec_deserialize_entries(
                objs1,
                data_id,
                doc_entries(d),
                obj_proto,
                SERIALIZE_DEPTH as nat,
            ),
            None => objs1,
        },
        None => objs1,
    };
    spec_define_on(objs2, so_id, "data"@, ValueModel::Object(data_id))
}

/// Fetch the shared object of a name: the session cache wins and is returned
/// unchanged; otherwise a fresh instance is built, its `data` loaded from
/// the storage backend where stored text parses (anything else degrades to
/// an empty `data`), and the instance is cached under the name. Extra
/// arguments (a local path or a secure flag) are accepted and not honored.
pub fn get_local(avm: &Avm1, action_context: &mut UpdateContext, _this: usize, args: &[Value]) -> (r:
    Value)
    requires
        old(action_context).wf(),
        avm.prototypes.object < old(action_context).objects@.len(),
        avm.prototypes.shared_object < old(action_context).objects@.len(),
    ensures
        final(action_context).wf(),
        ({
            let nm = if args@.len() > 0 {
                crate::value::spec_coerce_to_string(args@[0]@)
            } else {
                crate::value::spec_coerce_to_string(ValueModel::Undefined)
            };
            match spec_cached(old(action_context).cache(), nm) {
                Some(id) => {
                    &&& r@ == ValueModel::Object(id)
                    &&& final(action_context).objects@ == old(action_context).objects@
                    &&& final(action_context).cache() == old(action_context).cache()
                },
                None => {
                    let so_id = old(action_context).objects@.len();
                    &&& r@ == ValueModel::Object(so_id as int)
                    &&& final(action_context).objects@ == spec_get_local_fresh(
                        old(action_context).objects@,
                        old(action_context).storage@,
                        nm,
                        avm.prototypes.shared_object as int,
                        avm.prototypes.object as int,
                    )
                    &&& final(action_context).cache() == old(action_context).cache().push(
                        (nm, so_id as int),
                    )
                },
            }
        }),
        final(action_context).stage == old(action_context).stage,
        final(action_context).storage == old(action_context).storage,
        final(action_context).unbound_text_fields == old(action_context).unbound_text_fields,
{
    let name_string: String = if args.len() > 0 {
        args[0].coerce_to_string()
    } else {
        Value::Undefined.coerce_to_string()
    };
    let ghost nm = name_string@;

    // An instance already lives in the session cache: return it unchanged,
    // without reloading from storage.
    if let Some(so) = action_context.cached_shared_object(name_string.as_str()) {
        return Value::Object(so);
    }

    // Build the instance and its empty data object.
    let ghost ctx0 = *action_context;
    let so_id = action_context.objects.add_obj(
        Obj {
            base: ScriptObject {
                props: crate::table::PropertyTable::new(),
                proto: Some(avm.prototypes.shared_object),
                type_of: TypeOf::Object,
                native: None,
            },
            role: Role::Shared(SharedObjectData { name: name_string.clone() }),
        },
    );
    proof {
        assert(action_context.objects@ =~= ctx0.objects@.push(
            spec_shared_obj(avm.prototypes.shared_object as int, name_string@),
        ));
        lemma_ctx_wf_after_push(
            ctx0,
            *action_context,
            spec_shared_obj(avm.prototypes.shared_object as int, name_string@),
        );
    }
    let ghost ctx1 = *action_context;
    let data_id = action_context.objects.add_obj(
        Obj { base: ScriptObject::object(Some(avm.prototypes.object)), role: Role::Plain },
    );
    proof {
        assert(action_context.objects@ =~= ctx1.objects@.push(
            spec_plain_obj(avm.prototypes.object as int),
        ));
        lemma_ctx_wf_after_push(
            ctx1,
            *action_context,
            spec_plain_obj(avm.prototypes.object as int),
        );
    }

    // Load prior data where the backend holds text that parses.
    match action_context.storage.get_string(name_string.as_str()) {
        Some(saved) => {
            match jv_parse(saved.as_str()) {
                Some(json_data) => {
                    recursive_deserialize(
                        &json_data,
                        avm,
                        data_id,
                        action_context,
                        SERIALIZE_DEPTH,
                    );
                },
                None => {},
            }
        },
        None => {},
    }

    define_on(action_context, so_id, "data", Value::Object(data_id));

    let ghost ctx2 = *action_context;
    action_context.shared_objects.push((name_string, so_id));
    proof {
        assert(action_context.cache() =~= ctx2.cache().push((nm, so_id as int)));
        assert forall|i: int|
            0 <= i < action_context.cache().len() implies (#[trigger] action_context.cache()[i]).1
                < action_context.objects@.len() by {
            if i < ctx2.cache().len() {
                assert(action_context.cache()[i] == ctx2.cache()[i]);
            }
        }
        crate::context::UpdateContext::lemma_wf_fields_cache(ctx2, *action_context);
    }
    Value::Object(so_id)
}


/// The storage key of a shared object.
pub open spec fn spec_so_name(objs: Seq<ObjModel>, this: int) -> Seq<char> {
    objs[this].role->Shared_0.name
}

/// The handle of a shared object's `data` member.
pub open spec fn spec_data_id(objs: Seq<ObjModel>, this: int, case_sensitive: bool) -> int {
    spec_own(objs[this].base.props, "data"@, case_sensitive)->Some_0.value->Object_0
}

/// A shared object whose `data` member is in place: an own `data` property
/// holding an object handle of the arena.
pub open spec fn shared_object_ready(objs: Seq<ObjModel>, this: int, case_sensitive: bool) -> bool {
    &&& 0 <= this < objs.len()
    &&& objs[this].role is Shared
    &&& spec_own(objs[this].base.props, "data"@, case_sensitive) matches Some(p)
    &&& spec_own(objs[this].base.props, "data"@, case_sensitive)->Some_0.value matches
        ValueModel::Object(d)
    &&& 0 <= spec_data_id(objs, this, case_sensitive) < objs.len()
}

/// Serialize the `data` member and write the text to the storage backend
/// under the object's name; the backend's success report is returned.
pub fn flush(avm: &Avm1, action_context: &mut UpdateContext, this: usize, _args: &[Value]) -> (r:
    Value)
    requires
        old(action_context).wf(),
        shared_object_ready(old(action_context).objects@, this as int, avm.case_sensitive),
    ensures
        final(action_context).wf(),
        r@ == ValueModel::Bool(true),
        spec_stored(
            final(action_context).storage@,
            spec_so_name(old(action_context).objects@, this as int),
        ) == Some(
            dump_text(
                spec_serialize(
                    old(action_context).objects@,
                    spec_data_id(old(action_context).objects@, this as int, avm.case_sensitive),
                    SERIALIZE_DEPTH as nat,
                ),
            ),
        ),
        forall|k: Seq<char>|
            k != spec_so_name(old(action_context).objects@, this as int)
                ==> #[trigger] spec_stored(final(action_context).storage@, k) == spec_stored(
                old(action_context).storage@,
                k,
            ),
        final(action_context).objects@ == old(action_context).objects@,
        final(action_context).stage == old(action_context).stage,
        final(action_context).shared_objects == old(action_context).shared_objects,
        final(action_context).unbound_text_fields == old(action_context).unbound_text_fields,
{
    let data_id: usize = match action_context.objects.objs[this].base.get_local(
        "data",
        avm.is_case_sensitive(),
    ) {
        Some(Value::Object(d)) => d,
        _ => {
            proof {
                assert(false);
            }
            0
        },
    };
    let mut data_json = jv_new_object();
    recursive_serialize(avm, action_context, data_id, &mut data_json, SERIALIZE_DEPTH);
    let text = jv_dump(&data_json);
    let name: String = match &action_context.objects.objs[this].role {
        Role::Shared(d) => d.name.clone(),
        _ => {
            proof {
                assert(false);
            }
            String::new()
        },
    };
    let ghost ctx_pre = *action_context;
    let ok = action_context.storage.put_string(name.as_str(), text);
    proof {
        assert(action_context.storage.wf());
        crate::context::UpdateContext::lemma_wf_fields_storage(ctx_pre, *action_context);
    }
    Value::Bool(ok)
}

/// Empty the `data` member and remove the stored entry of the object's name
/// from the backend, so that a later fresh load starts from nothing.
pub fn clear(avm: &Avm1, action_context: &mut UpdateContext, this: usize, _args: &[Value]) -> (r:
    Value)
    requires
        old(action_context).wf(),
        shared_object_ready(old(action_context).objects@, this as int, avm.case_sensitive),
    ensures
        final(action_context).wf(),
        r@ == ValueModel::Undefined,
        spec_stored(
            final(action_context).storage@,
            spec_so_name(old(action_context).objects@, this as int),
        ) is None,
        forall|k: Seq<char>|
            k != spec_so_name(old(action_context).objects@, this as int)
                ==> #[trigger] spec_stored(final(action_context).storage@, k) == spec_stored(
                old(action_context).storage@,
                k,
            ),
        ({
            let data_id = spec_data_id(old(action_context).objects@, this as int, avm.case_sensitive);
            let pre_objs = old(action_context).objects@;
            &&& final(action_context).objects@.len() == pre_objs.len()
            &&& forall|i: int|
                0 <= i < pre_objs.len() && i != data_id
                    ==> #[trigger] final(action_context).objects@[i] == pre_objs[i]
            &&& final(action_context).objects@[data_id].role == pre_objs[data_id].role
            &&& final(action_context).objects@[data_id].base.proto == pre_objs[data_id].base.proto
            &&& ((forall|j: int|
                0 <= j < pre_objs[data_id].base.props.len()
                    ==> (#[trigger] pre_objs[data_id].base.props[j]).1.attrs == (Attributes {
                    dont_enum: false,
                    dont_delete: false,
                    read_only: false,
                })) ==> final(action_context).objects@[data_id].base.props == Seq::<(
                Seq<char>,
                PropertyModel,
            )>::empty())
        }),
        final(action_context).stage == old(action_context).stage,
        final(action_context).shared_objects == old(action_context).shared_objects,
        final(action_context).unbound_text_fields == old(action_context).unbound_text_fields,
{
    let case_sensitive = avm.is_case_sensitive();
    let data_id: usize = match action_context.objects.objs[this].base.get_local(
        "data",
        case_sensitive,
    ) {
        Some(Value::Object(d)) => d,
        _ => {
            proof {
                assert(false);
            }
            0
        },
    };
    let ghost pre_objs = action_context.objects@;
    let ghost data_props = pre_objs[data_id as int].base.props;
    let ghost plain = Attributes { dont_enum: false, dont_delete: false, read_only: false };
    let ghost all_plain = forall|j: int|
        0 <= j < data_props.len() ==> (#[trigger] data_props[j]).1.attrs == plain;

    let keys = action_context.objects.objs[data_id].base.get_keys();
    proof {
        if all_plain {
            lemma_enum_keys_all_plain(data_props);
            assert(data_props.skip(0) =~= data_props);
        }
    }
    let n = keys.len();
    let mut i: usize = 0;
    while i < n
        invariant
            action_context.wf(),
            this < pre_objs.len(),
            data_id < action_context.objects@.len(),
            data_id == spec_data_id(pre_objs, this as int, avm.case_sensitive),
            plain == (Attributes { dont_enum: false, dont_delete: false, read_only: false }),
            case_sensitive == avm.case_sensitive,
            n == keys@.len(),
            i <= n,
            crate::object::spec_strings(keys@) == crate::object::spec_enum_keys(data_props),
            data_props == pre_objs[data_id as int].base.props,
            all_plain == (forall|j: int|
                0 <= j < data_props.len() ==> (#[trigger] data_props[j]).1.attrs == plain),
            action_context.objects@.len() == pre_objs.len(),
            forall|i2: int|
                0 <= i2 < pre_objs.len() && i2 != data_id ==> #[trigger] action_context.objects@[i2]
                    == pre_objs[i2],
            action_context.objects@[data_id as int].role == pre_objs[data_id as int].role,
            action_context.objects@[data_id as int].base.proto == pre_objs[data_id as int].base.proto,
            action_context.objects@[data_id as int].base.type_of == pre_objs[data_id as int].base.type_of,
            action_context.objects@[data_id as int].base.native == pre_objs[data_id as int].base.native,
            all_plain ==> {
                &&& n == data_props.len()
                &&& action_context.objects@[data_id as int].base.props == data_props.skip(i as int)
            },
            action_context.stage == old(action_context).stage,
            action_context.storage == old(action_context).storage,
            action_context.shared_objects == old(action_context).shared_objects,
            action_context.unbound_text_fields == old(action_context).unbound_text_fields,
        decreases n - i,
    {
        let ghost ctx_iter = *action_context;
        let ghost objs_pre = action_context.objects@;
        let ghost props_pre = objs_pre[data_id as int].base.props;
        let _ = action_context.objects.objs[data_id].base.delete(keys[i].as_str(), case_sensitive);
        proof {
            let objs_post = action_context.objects@;
            assert(objs_post[data_id as int].base.props == (match table_find(
                props_pre,
                keys@[i as int]@,
                case_sensitive,
            ) {
                Some(slot) => if props_pre[slot].1.attrs.dont_delete {
                    props_pre
                } else {
                    props_pre.remove(slot)
                },
                None => props_pre,
            }));
            assert forall|i2: int|
                0 <= i2 < pre_objs.len() && i2 != data_id implies #[trigger] objs_post[i2]
                    == pre_objs[i2] by {
                assert(objs_post[i2] == objs_pre[i2]);
            }
            if all_plain {
                lemma_enum_keys_all_plain(data_props);
                assert(keys@[i as int]@ == crate::object::spec_enum_keys(data_props)[i as int]);
                assert(keys@[i as int]@ == data_props[i as int].0);
                assert(props_pre == data_props.skip(i as int));
                assert(props_pre[0].0 == data_props[i as int].0);
                assert(crate::text::name_matches(props_pre[0].0, keys@[i as int]@, case_sensitive))
                    by {
                    if !case_sensitive {
                    }
                }
                crate::table::lemma_table_find_at(props_pre, keys@[i as int]@, case_sensitive, 0);
                assert(props_pre[0].1.attrs == plain);
                assert(objs_post[data_id as int].base.props =~= data_props.skip(i as int + 1));
            }
            match table_find(props_pre, keys@[i as int]@, case_sensitive) {
                Some(slot) => {
                    crate::table::lemma_table_find_props(props_pre, keys@[i as int]@, case_sensitive);
                    if !props_pre[slot].1.attrs.dont_delete {
                        assert(objs_post[data_id as int].base.props == props_pre.remove(slot));
                    }
                },
                None => {},
            }
            lemma_store_wf_delete_frame(objs_pre, objs_post, data_id as int);
            assert forall|i2: int|
                0 <= i2 < objs_post.len() implies (#[trigger] objs_post[i2]).role
                    == ctx_iter.objects@[i2].role by {
                if i2 != data_id {
                    assert(objs_post[i2] == objs_pre[i2]);
                }
            }
            crate::context::UpdateContext::lemma_wf_fields_objects(ctx_iter, *action_context);
        }
        i = i + 1;
    }
    proof {
        if all_plain {
            assert(data_props.skip(n as int) =~= Seq::<(Seq<char>, PropertyModel)>::empty());
        }
    }

    proof {
        if this as int != data_id as int {
            assert(action_context.objects@[this as int] == pre_objs[this as int]);
        }
        assert(action_context.objects@[this as int].role == pre_objs[this as int].role);
        assert(pre_objs[this as int].role is Shared);
    }
    let name: String = match &action_context.objects.objs[this].role {
        Role::Shared(d) => {
            assert(d@.name == spec_so_name(pre_objs, this as int));
            d.name.clone()
        },
        _ => {
            proof {
                assert(false);
            }
            String::new()
        },
    };
    let ghost ctx_pre = *action_context;
    action_context.storage.remove_key(name.as_str());
    proof {
        assert(action_context.storage.wf());
        crate::context::UpdateContext::lemma_wf_fields_storage(ctx_pre, *action_context);
    }
    Value::Undefined
}

/// When every property carries empty flags, the enumerable keys are exactly
/// all the keys, in order.
proof fn lemma_enum_keys_all_plain(props: Seq<(Seq<char>, PropertyModel)>)
    requires
        forall|j: int|
            0 <= j < props.len() ==> (#[trigger] props[j]).1.attrs == (Attributes {
                dont_enum: false,
                dont_delete: false,
                read_only: false,
            }),
    ensures
        crate::object::spec_enum_keys(props).len() == props.len(),
        forall|j: int|
            0 <= j < props.len() ==> #[trigger] crate::object::spec_enum_keys(props)[j]
                == props[j].0,
    decreases props.len(),
{
    if props.len() > 0 {
        lemma_enum_keys_all_plain(props.drop_first());
        assert forall|j: int| 0 <= j < props.len() - 1 implies props.drop_first()[j]
            == props[j + 1] by {}
    }
}

/// Deleting a property keeps the store well formed.
proof fn lemma_store_wf_delete_frame(pre: Seq<ObjModel>, post: Seq<ObjModel>, id: int)
    requires
        store_wf(pre),
        0 <= id < pre.len(),
        post.len() == pre.len(),
        forall|i: int| 0 <= i < pre.len() && i != id ==> #[trigger] post[i] == pre[i],
        post[id].base.proto == pre[id].base.proto,
        post[id].base.props == pre[id].base.props || exists|slot: int|
            0 <= slot < pre[id].base.props.len() && post[id].base.props == pre[id].base.props.remove(
                slot,
            ),
    ensures
        store_wf(post),
{
    assert forall|i: int| 0 <= i < post.len() implies {
        let m = #[trigger] post[i];
        &&& (m.base.proto matches Some(p) ==> 0 <= p < post.len())
        &&& (forall|j: int, k: int|
            0 <= j < k < m.base.props.len() ==> m.base.props[j].0 != m.base.props[k].0)
        &&& (forall|j: int|
            0 <= j < m.base.props.len() ==> ((#[trigger] m.base.props[j]).1.value matches
            ValueModel::Object(o) ==> 0 <= o < post.len()))
    } by {
        if i == id {
            let props = pre[id].base.props;
            let props2 = post[id].base.props;
            if props2 != props {
                let slot = choose|slot: int|
                    0 <= slot < props.len() && props2 == props.remove(slot);
                assert forall|j: int, k: int| 0 <= j < k < props2.len() implies props2[j].0
                    != props2[k].0 by {
                    let pj: int = if j < slot {
                        j
                    } else {
                        j + 1
                    };
                    let pk: int = if k < slot {
                        k
                    } else {
                        k + 1
                    };
                    assert(props2[j] == props[pj]);
                    assert(props2[k] == props[pk]);
                }
                assert forall|j: int| 0 <= j < props2.len() implies ((#[trigger] props2[j]).1.value
                    matches ValueModel::Object(o) ==> 0 <= o < post.len()) by {
                    let pj: int = if j < slot {
                        j
                    } else {
                        j + 1
                    };
                    assert(props2[j] == props[pj]);
                }
            }
        } else {
            assert(post[i] == pre[i]);
        }
    }
}


/// Deleting every shared object is unsupported: a graceful stub that takes no action and yields the undefined
/// value, preserving forward script compatibility.
pub fn delete_all(_avm: &Avm1, _action_context: &mut UpdateContext, _this: usize, _args: &[Value]) -> (r:
    Value)
    ensures
        r@ == ValueModel::Undefined,
        *final(_action_context) == *old(_action_context),
{
    Value::Undefined
}

/// Reporting disk usage is unsupported: a graceful stub that takes no action and yields the undefined
/// value, preserving forward script compatibility.
pub fn get_disk_usage(_avm: &Avm1, _action_context: &mut UpdateContext, _this: usize, _args: &[Value]) -> (r:
    Value)
    ensures
        r@ == ValueModel::Undefined,
        *final(_action_context) == *old(_action_context),
{
    Value::Undefined
}

/// Remote shared objects are unsupported: a graceful stub that takes no action and yields the undefined
/// value, preserving forward script compatibility.
pub fn get_remote(_avm: &Avm1, _action_context: &mut UpdateContext, _this: usize, _args: &[Value]) -> (r:
    Value)
    ensures
        r@ == ValueModel::Undefined,
        *final(_action_context) == *old(_action_context),
{
    Value::Undefined
}

/// Reporting the size limit is unsupported: a graceful stub that takes no action and yields the undefined
/// value, preserving forward script compatibility.
pub fn get_max_size(_avm: &Avm1, _action_context: &mut UpdateContext, _this: usize, _args: &[Value]) -> (r:
    Value)
    ensures
        r@ == ValueModel::Undefined,
        *final(_action_context) == *old(_action_context),
{
    Value::Undefined
}

/// Sync listeners are unsupported: a graceful stub that takes no action and yields the undefined
/// value, preserving forward script compatibility.
pub fn add_listener(_avm: &Avm1, _action_context: &mut UpdateContext, _this: usize, _args: &[Value]) -> (r:
    Value)
    ensures
        r@ == ValueModel::Undefined,
        *final(_action_context) == *old(_action_context),
{
    Value::Undefined
}

/// Sync listeners are unsupported: a graceful stub that takes no action and yields the undefined
/// value, preserving forward script compatibility.
pub fn remove_listener(_avm: &Avm1, _action_context: &mut UpdateContext, _this: usize, _args: &[Value]) -> (r:
    Value)
    ensures
        r@ == ValueModel::Undefined,
        *final(_action_context) == *old(_action_context),
{
    Value::Undefined
}

/// Closing a connection is unsupported: a graceful stub that takes no action and yields the undefined
/// value, preserving forward script compatibility.
pub fn close(_avm: &Avm1, _action_context: &mut UpdateContext, _this: usize, _args: &[Value]) -> (r:
    Value)
    ensures
        r@ == ValueModel::Undefined,
        *final(_action_context) == *old(_action_context),
{
    Value::Undefined
}

/// Remote connections are unsupported: a graceful stub that takes no action and yields the undefined
/// value, preserving forward script compatibility.
pub fn connect(_avm: &Avm1, _action_context: &mut UpdateContext, _this: usize, _args: &[Value]) -> (r:
    Value)
    ensures
        r@ == ValueModel::Undefined,
        *final(_action_context) == *old(_action_context),
{
    Value::Undefined
}

/// Reporting the serialized size is unsupported: a graceful stub that takes no action and yields the undefined
/// value, preserving forward script compatibility.
pub fn get_size(_avm: &Avm1, _action_context: &mut UpdateContext, _this: usize, _args: &[Value]) -> (r:
    Value)
    ensures
        r@ == ValueModel::Undefined,
        *final(_action_context) == *old(_action_context),
{
    Value::Undefined
}

/// Sending over a connection is unsupported: a graceful stub that takes no action and yields the undefined
/// value, preserving forward script compatibility.
pub fn send(_avm: &Avm1, _action_context: &mut UpdateContext, _this: usize, _args: &[Value]) -> (r:
    Value)
    ensures
        r@ == ValueModel::Undefined,
        *final(_action_context) == *old(_action_context),
{
    Value::Undefined
}

/// Setting a sync rate is unsupported: a graceful stub that takes no action and yields the undefined
/// value, preserving forward script compatibility.
pub fn set_fps(_avm: &Avm1, _action_context: &mut UpdateContext, _this: usize, _args: &[Value]) -> (r:
    Value)
    ensures
        r@ == ValueModel::Undefined,
        *final(_action_context) == *old(_action_context),
{
    Value::Undefined
}

/// The status callback is unsupported: a graceful stub that takes no action and yields the undefined
/// value, preserving forward script compatibility.
pub fn on_status(_avm: &Avm1, _action_context: &mut UpdateContext, _this: usize, _args: &[Value]) -> (r:
    Value)
    ensures
        r@ == ValueModel::Undefined,
        *final(_action_context) == *old(_action_context),
{
    Value::Undefined
}

/// The sync callback is unsupported: a graceful stub that takes no action and yields the undefined
/// value, preserving forward script compatibility.
pub fn on_sync(_avm: &Avm1, _action_context: &mut UpdateContext, _this: usize, _args: &[Value]) -> (r:
    Value)
    ensures
        r@ == ValueModel::Undefined,
        *final(_action_context) == *old(_action_context),
{
    Value::Undefined
}

/// The shared-object constructor body: construction itself does nothing,
/// and yields the undefined value.
pub fn constructor(_avm: &Avm1, _context: &mut UpdateContext, _this: usize, _args: &[Value]) -> (r:
    Value)
    ensures
        r@ == ValueModel::Undefined,
        *final(_context) == *old(_context),
{
    Value::Undefined
}

/// Install a native method on an object: a fresh function object carrying
/// the tag is pushed, and the name is defined to hold it.
fn force_set_function(
    context: &mut UpdateContext,
    obj: usize,
    name: &str,
    func: NativeFn,
    fn_proto: Option<usize>,
)
    requires
        old(context).wf(),
        obj < old(context).objects@.len(),
        fn_proto matches Some(p) ==> p < old(context).objects@.len(),
    ensures
        final(context).wf(),
        final(context).objects@ == spec_define_on(
            old(context).objects@.push(
                spec_fn_obj(
                    func,
                    match fn_proto {
                        Some(p) => Some(p as int),
                        None => None,
                    },
                ),
            ),
            obj as int,
            name@,
            ValueModel::Object(old(context).objects@.len() as int),
        ),
        final(context).stage == old(context).stage,
        final(context).storage == old(context).storage,
        final(context).shared_objects == old(context).shared_objects,
        final(context).unbound_text_fields == old(context).unbound_text_fields,
{
    let ghost ctx0 = *context;
    let fn_id = context.objects.add_obj(
        Obj {
            base: ScriptObject {
                props: crate::table::PropertyTable::new(),
                proto: fn_proto,
                type_of: TypeOf::Function,
                native: Some(func),
            },
            role: Role::Plain,
        },
    );
    proof {
        let m = spec_fn_obj(
            func,
            match fn_proto {
                Some(p) => Some(p as int),
                None => None,
            },
        );
        assert(context.objects@ =~= ctx0.objects@.push(m));
        lemma_ctx_wf_after_push(ctx0, *context, m);
    }
    define_on(context, obj, name, Value::Object(fn_id));
}

/// Build the shared-object prototype: a fresh shared object carrying the
/// nine prototype methods, each a native function object.
#[verifier::rlimit(100)]
pub fn create_proto(context: &mut UpdateContext, proto: usize, fn_proto: usize) -> (r: usize)
    requires
        old(context).wf(),
        proto < old(context).objects@.len(),
        fn_proto < old(context).objects@.len(),
    ensures
        final(context).wf(),
        r == old(context).objects@.len(),
        final(context).objects@.len() == old(context).objects@.len() + 10,
        forall|i: int|
            0 <= i < old(context).objects@.len() ==> #[trigger] final(context).objects@[i] == old(
                context,
            ).objects@[i],
        final(context).objects@[r as int].role == RoleModel::Shared(
            SharedObjectModel { name: Seq::empty() },
        ),
        final(context).objects@[r as int].base.proto == Some(proto as int),
        final(context).objects@[r as int].base.props == proto_method_entries(r as int),
        forall|k: int|
            0 <= k < 9 ==> (#[trigger] final(context).objects@[r + 1 + k].base.native) == Some(
                proto_method_tag(k),
            ),
        forall|k: int|
            0 <= k < 9 ==> (#[trigger] final(context).objects@[r + 1 + k].base.proto) == Some(
                fn_proto as int,
            ),
        final(context).stage == old(context).stage,
        final(context).storage == old(context).storage,
        final(context).shared_objects == old(context).shared_objects,
        final(context).unbound_text_fields == old(context).unbound_text_fields,
{
    proof {
        reveal_strlit("");
        reveal_strlit("clear");
        reveal_strlit("close");
        reveal_strlit("connect");
        reveal_strlit("flush");
        reveal_strlit("getSize");
        reveal_strlit("send");
        reveal_strlit("setFps");
        reveal_strlit("onStatus");
        reveal_strlit("onSync");
        assert("clear"@.len() == 5 && "close"@.len() == 5 && "connect"@.len() == 7
            && "flush"@.len() == 5 && "getSize"@.len() == 7 && "send"@.len() == 4
            && "setFps"@.len() == 6 && "onStatus"@.len() == 8 && "onSync"@.len() == 6);
        assert("clear"@[2] != "close"@[2]);
        assert("clear"@[0] != "flush"@[0]);
        assert("close"@[0] != "flush"@[0]);
        assert("connect"@[0] != "getSize"@[0]);
        assert("setFps"@[0] != "onSync"@[0]);
    }
    let ghost ctx0 = *context;
    let shared_obj = context.objects.add_obj(
        Obj {
            base: ScriptObject {
                props: crate::table::PropertyTable::new(),
                proto: Some(proto),
                type_of: TypeOf::Object,
                native: None,
            },
            role: Role::Shared(SharedObjectData { name: String::new() }),
        },
    );
    proof {
        assert(context.objects@ =~= ctx0.objects@.push(spec_shared_obj(proto as int, Seq::empty())));
        lemma_ctx_wf_after_push(ctx0, *context, spec_shared_obj(proto as int, Seq::empty()));
    }
    force_set_function(context, shared_obj, "clear", NativeFn::Clear, Some(fn_proto));
    proof {
        let prior: Seq<(Seq<char>, PropertyModel)> = Seq::<(Seq<char>, PropertyModel)>::empty();
        assert forall|j: int| 0 <= j < prior.len() implies !crate::text::name_matches(
            #[trigger] prior[j].0,
            "clear"@,
            true,
        ) by {
            reveal_strlit("clear");
        }
        crate::table::lemma_table_find_none(prior, "clear"@, true);
        assert(context.objects@[shared_obj as int].base.props =~= seq![("clear"@, method_prop(shared_obj as int + 1))]);
    }
    force_set_function(context, shared_obj, "close", NativeFn::Close, Some(fn_proto));
    proof {
        let prior: Seq<(Seq<char>, PropertyModel)> = seq![("clear"@, method_prop(shared_obj as int + 1))];
        assert forall|j: int| 0 <= j < prior.len() implies !crate::text::name_matches(
            #[trigger] prior[j].0,
            "close"@,
            true,
        ) by {
            reveal_strlit("close");
        }
        crate::table::lemma_table_find_none(prior, "close"@, true);
        assert(context.objects@[shared_obj as int].base.props =~= seq![("clear"@, method_prop(shared_obj as int + 1)), ("close"@, method_prop(shared_obj as int + 2))]);
    }
    force_set_function(context, shared_obj, "connect", NativeFn::Connect, Some(fn_proto));
    proof {
        let prior: Seq<(Seq<char>, PropertyModel)> = seq![("clear"@, method_prop(shared_obj as int + 1)), ("close"@, method_prop(shared_obj as int + 2))];
        assert forall|j: int| 0 <= j < prior.len() implies !crate::text::name_matches(
            #[trigger] prior[j].0,
            "connect"@,
            true,
        ) by {
            reveal_strlit("connect");
        }
        crate::table::lemma_table_find_none(prior, "connect"@, true);
        assert(context.objects@[shared_obj as int].base.props =~= seq![("clear"@, method_prop(shared_obj as int + 1)), ("close"@, method_prop(shared_obj as int + 2)), ("connect"@, method_prop(shared_obj as int + 3))]);
    }
    force_set_function(context, shared_obj, "flush", NativeFn::Flush, Some(fn_proto));
    proof {
        let prior: Seq<(Seq<char>, PropertyModel)> = seq![("clear"@, method_prop(shared_obj as int + 1)), ("close"@, method_prop(shared_obj as int + 2)), ("connect"@, method_prop(shared_obj as int + 3))];
        assert forall|j: int| 0 <= j < prior.len() implies !crate::text::name_matches(
            #[trigger] prior[j].0,
            "flush"@,
            true,
        ) by {
            reveal_strlit("flush");
        }
        crate::table::lemma_table_find_none(prior, "flush"@, true);
        assert(context.objects@[shared_obj as int].base.props =~= seq![("clear"@, method_prop(shared_obj as int + 1)), ("close"@, method_prop(shared_obj as int + 2)), ("connect"@, method_prop(shared_obj as int + 3)), ("flush"@, method_prop(shared_obj as int + 4))]);
    }
    force_set_function(context, shared_obj, "getSize", NativeFn::GetSize, Some(fn_proto));
    proof {
        let prior: Seq<(Seq<char>, PropertyModel)> = seq![("clear"@, method_prop(shared_obj as int + 1)), ("close"@, method_prop(shared_obj as int + 2)), ("connect"@, method_prop(shared_obj as int + 3)), ("flush"@, method_prop(shared_obj as int + 4))];
        assert forall|j: int| 0 <= j < prior.len() implies !crate::text::name_matches(
            #[trigger] prior[j].0,
            "getSize"@,
            true,
        ) by {
            reveal_strlit("getSize");
        }
        crate::table::lemma_table_find_none(prior, "getSize"@, true);
        assert(context.objects@[shared_obj as int].base.props =~= seq![("clear"@, method_prop(shared_obj as int + 1)), ("close"@, method_prop(shared_obj as int + 2)), ("connect"@, method_prop(shared_obj as int + 3)), ("flush"@, method_prop(shared_obj as int + 4)), ("getSize"@, method_prop(shared_obj as int + 5))]);
    }
    force_set_function(context, shared_obj, "send", NativeFn::Send, Some(fn_proto));
    proof {
        let prior: Seq<(Seq<char>, PropertyModel)> = seq![("clear"@, method_prop(shared_obj as int + 1)), ("close"@, method_prop(shared_obj as int + 2)), ("connect"@, method_prop(shared_obj as int + 3)), ("flush"@, method_prop(shared_obj as int + 4)), ("getSize"@, method_prop(shared_obj as int + 5))];
        assert forall|j: int| 0 <= j < prior.len() implies !crate::text::name_matches(
            #[trigger] prior[j].0,
            "send"@,
            true,
        ) by {
            reveal_strlit("send");
        }
        crate::table::lemma_table_find_none(prior, "send"@, true);
        assert(context.objects@[shared_obj as int].base.props =~= seq![("clear"@, method_prop(shared_obj as int + 1)), ("close"@, method_prop(shared_obj as int + 2)), ("connect"@, method_prop(shared_obj as int + 3)), ("flush"@, method_prop(shared_obj as int + 4)), ("getSize"@, method_prop(shared_obj as int + 5)), ("send"@, method_prop(shared_obj as int + 6))]);
    }
    force_set_function(context, shared_obj, "setFps", NativeFn::SetFps, Some(fn_proto));
    proof {
        let prior: Seq<(Seq<char>, PropertyModel)> = seq![("clear"@, method_prop(shared_obj as int + 1)), ("close"@, method_prop(shared_obj as int + 2)), ("connect"@, method_prop(shared_obj as int + 3)), ("flush"@, method_prop(shared_obj as int + 4)), ("getSize"@, method_prop(shared_obj as int + 5)), ("send"@, method_prop(shared_obj as int + 6))];
        assert forall|j: int| 0 <= j < prior.len() implies !crate::text::name_matches(
            #[trigger] prior[j].0,
            "setFps"@,
            true,
        ) by {
            reveal_strlit("setFps");
        }
        crate::table::lemma_table_find_none(prior, "setFps"@, true);
        assert(context.objects@[shared_obj as int].base.props =~= seq![("clear"@, method_prop(shared_obj as int + 1)), ("close"@, method_prop(shared_obj as int + 2)), ("connect"@, method_prop(shared_obj as int + 3)), ("flush"@, method_prop(shared_obj as int + 4)), ("getSize"@, method_prop(shared_obj as int + 5)), ("send"@, method_prop(shared_obj as int + 6)), ("setFps"@, method_prop(shared_obj as int + 7))]);
    }
    force_set_function(context, shared_obj, "onStatus", NativeFn::OnStatus, Some(fn_proto));
    proof {
        let prior: Seq<(Seq<char>, PropertyModel)> = seq![("clear"@, method_prop(shared_obj as int + 1)), ("close"@, method_prop(shared_obj as int + 2)), ("connect"@, method_prop(shared_obj as int + 3)), ("flush"@, method_prop(shared_obj as int + 4)), ("getSize"@, method_prop(shared_obj as int + 5)), ("send"@, method_prop(shared_obj as int + 6)), ("setFps"@, method_prop(shared_obj as int + 7))];
        assert forall|j: int| 0 <= j < prior.len() implies !crate::text::name_matches(
            #[trigger] prior[j].0,
            "onStatus"@,
            true,
        ) by {
            reveal_strlit("onStatus");
        }
        crate::table::lemma_table_find_none(prior, "onStatus"@, true);
        assert(context.objects@[shared_obj as int].base.props =~= seq![("clear"@, method_prop(shared_obj as int + 1)), ("close"@, method_prop(shared_obj as int + 2)), ("connect"@, method_prop(shared_obj as int + 3)), ("flush"@, method_prop(shared_obj as int + 4)), ("getSize"@, method_prop(shared_obj as int + 5)), ("send"@, method_prop(shared_obj as int + 6)), ("setFps"@, method_prop(shared_obj as int + 7)), ("onStatus"@, method_prop(shared_obj as int + 8))]);
    }
    force_set_function(context, shared_obj, "onSync", NativeFn::OnSync, Some(fn_proto));
    proof {
        let prior: Seq<(Seq<char>, PropertyModel)> = seq![("clear"@, method_prop(shared_obj as int + 1)), ("close"@, method_prop(shared_obj as int + 2)), ("connect"@, method_prop(shared_obj as int + 3)), ("flush"@, method_prop(shared_obj as int + 4)), ("getSize"@, method_prop(shared_obj as int + 5)), ("send"@, method_prop(shared_obj as int + 6)), ("setFps"@, method_prop(shared_obj as int + 7)), ("onStatus"@, method_prop(shared_obj as int + 8))];
        assert forall|j: int| 0 <= j < prior.len() implies !crate::text::name_matches(
            #[trigger] prior[j].0,
            "onSync"@,
            true,
        ) by {
            reveal_strlit("onSync");
        }
        crate::table::lemma_table_find_none(prior, "onSync"@, true);
        assert(context.objects@[shared_obj as int].base.props =~= seq![("clear"@, method_prop(shared_obj as int + 1)), ("close"@, method_prop(shared_obj as int + 2)), ("connect"@, method_prop(shared_obj as int + 3)), ("flush"@, method_prop(shared_obj as int + 4)), ("getSize"@, method_prop(shared_obj as int + 5)), ("send"@, method_prop(shared_obj as int + 6)), ("setFps"@, method_prop(shared_obj as int + 7)), ("onStatus"@, method_prop(shared_obj as int + 8)), ("onSync"@, method_prop(shared_obj as int + 9))]);
    }
    proof {
        assert(context.objects@[shared_obj as int].base.props =~= proto_method_entries(
            shared_obj as int,
        ));
    }
    shared_obj
}

/// The tag of the k-th prototype method, in registration order.
pub open spec fn proto_method_tag(k: int) -> NativeFn {
    if k == 0 {
        NativeFn::Clear
    } else if k == 1 {
        NativeFn::Close
    } else if k == 2 {
        NativeFn::Connect
    } else if k == 3 {
        NativeFn::Flush
    } else if k == 4 {
        NativeFn::GetSize
    } else if k == 5 {
        NativeFn::Send
    } else if k == 6 {
        NativeFn::SetFps
    } else if k == 7 {
        NativeFn::OnStatus
    } else {
        NativeFn::OnSync
    }
}

/// The own properties the shared-object prototype ends up with: each method
/// name bound to its function object, in registration order.
pub open spec fn proto_method_entries(base: int) -> Seq<(Seq<char>, PropertyModel)> {
    seq![
        ("clear"@, method_prop(base + 1)),
        ("close"@, method_prop(base + 2)),
        ("connect"@, method_prop(base + 3)),
        ("flush"@, method_prop(base + 4)),
        ("getSize"@, method_prop(base + 5)),
        ("send"@, method_prop(base + 6)),
        ("setFps"@, method_prop(base + 7)),
        ("onStatus"@, method_prop(base + 8)),
        ("onSync"@, method_prop(base + 9)),
    ]
}

/// A method slot: an object handle under empty flags.
pub open spec fn method_prop(id: int) -> PropertyModel {
    PropertyModel {
        value: ValueModel::Object(id),
        attrs: Attributes { dont_enum: false, dont_delete: false, read_only: false },
    }
}

/// Build the shared-object constructor function: a native function object
/// whose own properties carry the class methods.
#[verifier::rlimit(100)]
pub fn create_shared_object_object(
    context: &mut UpdateContext,
    shared_object_proto: Option<usize>,
    fn_proto: Option<usize>,
) -> (r: usize)
    requires
        old(context).wf(),
        shared_object_proto matches Some(p) ==> p < old(context).objects@.len(),
        fn_proto matches Some(p) ==> p < old(context).objects@.len(),
    ensures
        final(context).wf(),
        r == old(context).objects@.len(),
        final(context).objects@.len() == old(context).objects@.len() + 8,
        forall|i: int|
            0 <= i < old(context).objects@.len() ==> #[trigger] final(context).objects@[i] == old(
                context,
            ).objects@[i],
        final(context).objects@[r as int].base.native == Some(NativeFn::Constructor),
        final(context).objects@[r as int].base.props == class_method_entries(r as int),
        forall|k: int|
            0 <= k < 7 ==> (#[trigger] final(context).objects@[r + 1 + k].base.native) == Some(
                class_method_tag(k),
            ),
        final(context).stage == old(context).stage,
        final(context).storage == old(context).storage,
        final(context).shared_objects == old(context).shared_objects,
        final(context).unbound_text_fields == old(context).unbound_text_fields,
{
    proof {
        reveal_strlit("deleteAll");
        reveal_strlit("getDiskUsage");
        reveal_strlit("getLocal");
        reveal_strlit("getRemote");
        reveal_strlit("getMaxSize");
        reveal_strlit("addListener");
        reveal_strlit("removeListener");
        assert("deleteAll"@.len() == 9 && "getDiskUsage"@.len() == 12 && "getLocal"@.len() == 8
            && "getRemote"@.len() == 9 && "getMaxSize"@.len() == 10 && "addListener"@.len() == 11
            && "removeListener"@.len() == 14);
        assert("deleteAll"@[0] != "getRemote"@[0]);
    }
    let ghost ctx0 = *context;
    let ghost proto_model = match fn_proto {
        Some(p) => Some(p as int),
        None => None::<int>,
    };
    let shared_obj = context.objects.add_obj(
        Obj {
            base: ScriptObject {
                props: crate::table::PropertyTable::new(),
                proto: fn_proto,
                type_of: TypeOf::Function,
                native: Some(NativeFn::Constructor),
            },
            role: Role::Plain,
        },
    );
    let _ = shared_object_proto;
    proof {
        assert(context.objects@ =~= ctx0.objects@.push(
            spec_fn_obj(NativeFn::Constructor, proto_model),
        ));
        lemma_ctx_wf_after_push(ctx0, *context, spec_fn_obj(NativeFn::Constructor, proto_model));
    }
    force_set_function(context, shared_obj, "deleteAll", NativeFn::DeleteAll, fn_proto);
    proof {
        let prior: Seq<(Seq<char>, PropertyModel)> = Seq::<(Seq<char>, PropertyModel)>::empty();
        assert forall|j: int| 0 <= j < prior.len() implies !crate::text::name_matches(
            #[trigger] prior[j].0,
            "deleteAll"@,
            true,
        ) by {
            reveal_strlit("deleteAll");
        }
        crate::table::lemma_table_find_none(prior, "deleteAll"@, true);
        assert(context.objects@[shared_obj as int].base.props =~= seq![("deleteAll"@, method_prop(shared_obj as int + 1))]);
    }
    force_set_function(context, shared_obj, "getDiskUsage", NativeFn::GetDiskUsage, fn_proto);
    proof {
        let prior: Seq<(Seq<char>, PropertyModel)> = seq![("deleteAll"@, method_prop(shared_obj as int + 1))];
        assert forall|j: int| 0 <= j < prior.len() implies !crate::text::name_matches(
            #[trigger] prior[j].0,
            "getDiskUsage"@,
            true,
        ) by {
            reveal_strlit("getDiskUsage");
        }
        crate::table::lemma_table_find_none(prior, "getDiskUsage"@, true);
        assert(context.objects@[shared_obj as int].base.props =~= seq![("deleteAll"@, method_prop(shared_obj as int + 1)), ("getDiskUsage"@, method_prop(shared_obj as int + 2))]);
    }
    force_set_function(context, shared_obj, "getLocal", NativeFn::GetLocal, fn_proto);
    proof {
        let prior: Seq<(Seq<char>, PropertyModel)> = seq![("deleteAll"@, method_prop(shared_obj as int + 1)), ("getDiskUsage"@, method_prop(shared_obj as int + 2))];
        assert forall|j: int| 0 <= j < prior.len() implies !crate::text::name_matches(
            #[trigger] prior[j].0,
            "getLocal"@,
            true,
        ) by {
            reveal_strlit("getLocal");
        }
        crate::table::lemma_table_find_none(prior, "getLocal"@, true);
        assert(context.objects@[shared_obj as int].base.props =~= seq![("deleteAll"@, method_prop(shared_obj as int + 1)), ("getDiskUsage"@, method_prop(shared_obj as int + 2)), ("getLocal"@, method_prop(shared_obj as int + 3))]);
    }
    force_set_function(context, shared_obj, "getRemote", NativeFn::GetRemote, fn_proto);
    proof {
        let prior: Seq<(Seq<char>, PropertyModel)> = seq![("deleteAll"@, method_prop(shared_obj as int + 1)), ("getDiskUsage"@, method_prop(shared_obj as int + 2)), ("getLocal"@, method_prop(shared_obj as int + 3))];
        assert forall|j: int| 0 <= j < prior.len() implies !crate::text::name_matches(
            #[trigger] prior[j].0,
            "getRemote"@,
            true,
        ) by {
            reveal_strlit("getRemote");
        }
        crate::table::lemma_table_find_none(prior, "getRemote"@, true);
        assert(context.objects@[shared_obj as int].base.props =~= seq![("deleteAll"@, method_prop(shared_obj as int + 1)), ("getDiskUsage"@, method_prop(shared_obj as int + 2)), ("getLocal"@, method_prop(shared_obj as int + 3)), ("getRemote"@, method_prop(shared_obj as int + 4))]);
    }
    force_set_function(context, shared_obj, "getMaxSize", NativeFn::GetMaxSize, fn_proto);
    proof {
        let prior: Seq<(Seq<char>, PropertyModel)> = seq![("deleteAll"@, method_prop(shared_obj as int + 1)), ("getDiskUsage"@, method_prop(shared_obj as int + 2)), ("getLocal"@, method_prop(shared_obj as int + 3)), ("getRemote"@, method_prop(shared_obj as int + 4))];
        assert forall|j: int| 0 <= j < prior.len() implies !crate::text::name_matches(
            #[trigger] prior[j].0,
            "getMaxSize"@,
            true,
        ) by {
            reveal_strlit("getMaxSize");
        }
        crate::table::lemma_table_find_none(prior, "getMaxSize"@, true);
        assert(context.objects@[shared_obj as int].base.props =~= seq![("deleteAll"@, method_prop(shared_obj as int + 1)), ("getDiskUsage"@, method_prop(shared_obj as int + 2)), ("getLocal"@, method_prop(shared_obj as int + 3)), ("getRemote"@, method_prop(shared_obj as int + 4)), ("getMaxSize"@, method_prop(shared_obj as int + 5))]);
    }
    force_set_function(context, shared_obj, "addListener", NativeFn::AddListener, fn_proto);
    proof {
        let prior: Seq<(Seq<char>, PropertyModel)> = seq![("deleteAll"@, method_prop(shared_obj as int + 1)), ("getDiskUsage"@, method_prop(shared_obj as int + 2)), ("getLocal"@, method_prop(shared_obj as int + 3)), ("getRemote"@, method_prop(shared_obj as int + 4)), ("getMaxSize"@, method_prop(shared_obj as int + 5))];
        assert forall|j: int| 0 <= j < prior.len() implies !crate::text::name_matches(
            #[trigger] prior[j].0,
            "addListener"@,
            true,
        ) by {
            reveal_strlit("addListener");
        }
        crate::table::lemma_table_find_none(prior, "addListener"@, true);
        assert(context.objects@[shared_obj as int].base.props =~= seq![("deleteAll"@, method_prop(shared_obj as int + 1)), ("getDiskUsage"@, method_prop(shared_obj as int + 2)), ("getLocal"@, method_prop(shared_obj as int + 3)), ("getRemote"@, method_prop(shared_obj as int + 4)), ("getMaxSize"@, method_prop(shared_obj as int + 5)), ("addListener"@, method_prop(shared_obj as int + 6))]);
    }
    force_set_function(context, shared_obj, "removeListener", NativeFn::RemoveListener, fn_proto);
    proof {
        let prior: Seq<(Seq<char>, PropertyModel)> = seq![("deleteAll"@, method_prop(shared_obj as int + 1)), ("getDiskUsage"@, method_prop(shared_obj as int + 2)), ("getLocal"@, method_prop(shared_obj as int + 3)), ("getRemote"@, method_prop(shared_obj as int + 4)), ("getMaxSize"@, method_prop(shared_obj as int + 5)), ("addListener"@, method_prop(shared_obj as int + 6))];
        assert forall|j: int| 0 <= j < prior.len() implies !crate::text::name_matches(
            #[trigger] prior[j].0,
            "removeListener"@,
            true,
        ) by {
            reveal_strlit("removeListener");
        }
        crate::table::lemma_table_find_none(prior, "removeListener"@, true);
        assert(context.objects@[shared_obj as int].base.props =~= seq![("deleteAll"@, method_prop(shared_obj as int + 1)), ("getDiskUsage"@, method_prop(shared_obj as int + 2)), ("getLocal"@, method_prop(shared_obj as int + 3)), ("getRemote"@, method_prop(shared_obj as int + 4)), ("getMaxSize"@, method_prop(shared_obj as int + 5)), ("addListener"@, method_prop(shared_obj as int + 6)), ("removeListener"@, method_prop(shared_obj as int + 7))]);
    }
    proof {
        assert(context.objects@[shared_obj as int].base.props =~= class_method_entries(
            shared_obj as int,
        ));
    }
    shared_obj
}

/// The tag of the k-th class method, in registration order.
pub open spec fn class_method_tag(k: int) -> NativeFn {
    if k == 0 {
        NativeFn::DeleteAll
    } else if k == 1 {
        NativeFn::GetDiskUsage
    } else if k == 2 {
        NativeFn::GetLocal
    } else if k == 3 {
        NativeFn::GetRemote
    } else if k == 4 {
        NativeFn::GetMaxSize
    } else if k == 5 {
        NativeFn::AddListener
    } else {
        NativeFn::RemoveListener
    }
}

/// The own properties the constructor ends up with.
pub open spec fn class_method_entries(base: int) -> Seq<(Seq<char>, PropertyModel)> {
    seq![
        ("deleteAll"@, method_prop(base + 1)),
        ("getDiskUsage"@, method_prop(base + 2)),
        ("getLocal"@, method_prop(base + 3)),
        ("getRemote"@, method_prop(base + 4)),
        ("getMaxSize"@, method_prop(base + 5)),
        ("addListener"@, method_prop(base + 6)),
        ("removeListener"@, method_prop(base + 7)),
    ]
}


/// A leaf value a flat record can hold: one that serialization and a fresh
/// load carry through unchanged. The one number outside the codec's exact
/// integer range is excluded.
pub open spec fn flat_value(v: ValueModel) -> bool {
    match v {
        ValueModel::Null => true,
        ValueModel::Bool(_) => true,
        ValueModel::Text(_) => true,
        ValueModel::Number(Number::Finite(n)) => n > i64::MIN,
        _ => false,
    }
}

/// The document node a flat leaf value serializes to.
pub open spec fn leaf_doc(v: ValueModel) -> Doc {
    match v {
        ValueModel::Null => Doc::Null,
        ValueModel::Bool(b) => Doc::Bool(b),
        ValueModel::Text(s) => Doc::Str(s),
        ValueModel::Number(Number::Finite(n)) => Doc::Num(n >= 0, spec_magnitude(n), 0),
        _ => Doc::Null,
    }
}

/// The persistence round trip, proved for flat records: serializing a
/// property list of enumerable leaf values under empty flags and
/// deserializing the document into an object with no properties reproduces
/// every entry, with its value, flags and order, and builds no extra
/// objects. Together with the codec's parse-after-print guarantee this
/// carries a flat `data` record through `flush` and a fresh load intact.
pub proof fn lemma_flat_round_trip(
    src_objs: Seq<ObjModel>,
    dst_objs: Seq<ObjModel>,
    id: int,
    props: Seq<(Seq<char>, PropertyModel)>,
    proto: int,
    serialize_fuel: nat,
    deserialize_fuel: nat,
)
    requires
        forall|j: int|
            0 <= j < props.len() ==> ((#[trigger] props[j]).1.attrs == (Attributes {
                dont_enum: false,
                dont_delete: false,
                read_only: false,
            }) && flat_value(props[j].1.value)),
        forall|i: int, j: int| 0 <= i < j < props.len() ==> props[i].0 != props[j].0,
        0 <= id < dst_objs.len(),
        dst_objs[id].base.props == Seq::<(Seq<char>, PropertyModel)>::empty(),
    ensures
        ({
            let entries = spec_serialize_entries(src_objs, props, serialize_fuel);
            let out = spec_deserialize_entries(dst_objs, id, entries, proto, deserialize_fuel);
            &&& entries.len() == props.len()
            &&& forall|j: int|
                0 <= j < props.len() ==> #[trigger] entries[j] == (
                props[j].0,
                leaf_doc(props[j].1.value),
            )
            &&& out.len() == dst_objs.len()
            &&& out[id].base.props == props
            &&& out[id].base.proto == dst_objs[id].base.proto
            &&& out[id].role == dst_objs[id].role
            &&& forall|i: int| 0 <= i < out.len() && i != id ==> #[trigger] out[i] == dst_objs[i]
        }),
    decreases props.len(),
{
    let entries = spec_serialize_entries(src_objs, props, serialize_fuel);
    if props.len() == 0 {
        assert(entries.len() == 0);
        assert(spec_deserialize_entries(dst_objs, id, entries, proto, deserialize_fuel) == dst_objs);
        assert(spec_deserialize_entries(dst_objs, id, entries, proto, deserialize_fuel)[id].base.props
            =~= props);
    } else {
        let front = props.drop_last();
        let last = props.last();
        lemma_flat_round_trip(
            src_objs,
            dst_objs,
            id,
            front,
            proto,
            serialize_fuel,
            deserialize_fuel,
        );
        let entries_front = spec_serialize_entries(src_objs, front, serialize_fuel);
        // The serialized document appends this entry.
        assert(!last.1.attrs.dont_enum);
        assert(spec_serialize_value(src_objs, last.1.value, serialize_fuel) == Some(
            leaf_doc(last.1.value),
        ));
        assert(entries == entries_front.push((last.0, leaf_doc(last.1.value))));
        assert forall|j: int| 0 <= j < props.len() implies #[trigger] entries[j] == (
            props[j].0,
            leaf_doc(props[j].1.value),
        ) by {
            if j < front.len() {
                assert(entries[j] == entries_front[j]);
                assert(front[j] == props[j]);
            }
        }
        // Deserializing steps through the front, then defines this entry.
        let out_front = spec_deserialize_entries(
            dst_objs,
            id,
            entries_front,
            proto,
            deserialize_fuel,
        );
        assert(entries.drop_last() =~= entries_front);
        assert(entries.last() == (last.0, leaf_doc(last.1.value)));
        let out = spec_deserialize_entries(dst_objs, id, entries, proto, deserialize_fuel);
        // The leaf defines exactly the original value.
        let defined: ValueModel = match leaf_doc(last.1.value) {
            Doc::Num(p, m, e) => ValueModel::Number(
                Number::Finite(
                    if p {
                        m as i64
                    } else {
                        (-(m as int)) as i64
                    },
                ),
            ),
            other_doc => last.1.value,
        };
        assert(flat_value(last.1.value));
        if let ValueModel::Number(Number::Finite(n)) = last.1.value {
            assert(spec_magnitude(n) <= i64::MAX as u64);
            assert(defined == last.1.value);
        }
        assert(defined == last.1.value);
        assert(out == spec_define_on(out_front, id, last.0, last.1.value));
        // The key is fresh among the already-defined front keys.
        assert forall|j: int| 0 <= j < out_front[id].base.props.len()
            implies !crate::text::name_matches(
            #[trigger] out_front[id].base.props[j].0,
            last.0,
            true,
        ) by {
            assert(out_front[id].base.props[j].0 == front[j].0);
            assert(props[j].0 != props[props.len() - 1].0);
        }
        crate::table::lemma_table_find_none(out_front[id].base.props, last.0, true);
        assert(out[id].base.props =~= front.push(
            (
                last.0,
                PropertyModel {
                    value: last.1.value,
                    attrs: Attributes { dont_enum: false, dont_delete: false, read_only: false },
                },
            ),
        ));
        assert(props[props.len() - 1].1 == (PropertyModel {
            value: last.1.value,
            attrs: Attributes { dont_enum: false, dont_delete: false, read_only: false },
        }));
        assert(out[id].base.props =~= props);
        assert forall|i: int| 0 <= i < out.len() && i != id implies #[trigger] out[i]
            == dst_objs[i] by {
            assert(out[i] == out_front[i]);
        }
    }
}

} // verus!
