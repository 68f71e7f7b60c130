use avm1_runtime::context::new_session;
use avm1_runtime::object::{Obj, Role, ScriptObject};
use avm1_runtime::shared_object::{clear, flush, get_local};
use avm1_runtime::value::{Number, Value};

fn num(v: i64) -> Value {
    Value::Number(Number::Finite(v))
}

fn object_id(v: &Value) -> usize {
    match v {
        Value::Object(o) => *o,
        other => panic!("expected an object, got {:?}", other),
    }
}

#[test]
fn get_local_is_cached_per_name_per_session() {
    let (avm, mut context) = new_session(false);
    let a1 = object_id(&get_local(&avm, &mut context, 0, &[Value::Text(String::from("prefs"))]));
    let a2 = object_id(&get_local(&avm, &mut context, 0, &[Value::Text(String::from("prefs"))]));
    // Object identity: the same cache entry answers both calls.
    assert_eq!(a1, a2);
    let b = object_id(&get_local(&avm, &mut context, 0, &[Value::Text(String::from("other"))]));
    assert_ne!(a1, b);
    // A mutation through the first handle is visible through the second.
    let data = object_id(&context.objects.objs[a1].base.get_local("data", true).unwrap());
    context.objects.objs[data].base.internal_set("seen", num(5), true);
    let data_again = object_id(&context.objects.objs[a2].base.get_local("data", true).unwrap());
    let v = context.objects.objs[data_again].base.get_local("seen", true).unwrap();
    assert!(matches!(v, Value::Number(Number::Finite(5))));
}

#[test]
fn round_trip_reproduces_entries_and_drops_undefined() {
    let (avm, mut context) = new_session(false);
    let so = object_id(&get_local(&avm, &mut context, 0, &[Value::Text(String::from("save"))]));
    let data = object_id(&context.objects.objs[so].base.get_local("data", true).unwrap());
    context.objects.objs[data].base.internal_set("a", num(1), true);
    context.objects.objs[data].base.internal_set("b", Value::Text(String::from("x")), true);
    context.objects.objs[data].base.internal_set("c", Value::Null, true);
    let nested = context.objects.add_obj(Obj {
        base: ScriptObject::object(Some(avm.prototypes.object)),
        role: Role::Plain,
    });
    context.objects.objs[nested].base.internal_set("e", Value::Bool(true), true);
    context.objects.objs[data].base.internal_set("d", Value::Object(nested), true);
    context.objects.objs[data].base.internal_set("ghostly", Value::Undefined, true);
    assert!(matches!(flush(&avm, &mut context, so, &[]), Value::Bool(true)));

    // A fresh load: the session cache is emptied so the name reloads from
    // the storage backend.
    context.shared_objects = Vec::new();
    let so2 = object_id(&get_local(&avm, &mut context, 0, &[Value::Text(String::from("save"))]));
    assert_ne!(so, so2);
    let data2 = object_id(&context.objects.objs[so2].base.get_local("data", true).unwrap());
    let a = context.objects.objs[data2].base.get_local("a", true).unwrap();
    assert!(matches!(a, Value::Number(Number::Finite(1))));
    let b = context.objects.objs[data2].base.get_local("b", true).unwrap();
    assert!(matches!(b, Value::Text(t) if t == "x"));
    let c = context.objects.objs[data2].base.get_local("c", true).unwrap();
    assert!(matches!(c, Value::Null));
    let d = object_id(&context.objects.objs[data2].base.get_local("d", true).unwrap());
    let e = context.objects.objs[d].base.get_local("e", true).unwrap();
    assert!(matches!(e, Value::Bool(true)));
    // The undefined-valued entry is never serialized.
    assert!(context.objects.objs[data2].base.get_local("ghostly", true).is_none());
    assert_eq!(context.objects.objs[data2].base.get_keys().len(), 4);
}

#[test]
fn clear_removes_the_stored_entry_and_empties_data() {
    let (avm, mut context) = new_session(false);
    let so = object_id(&get_local(&avm, &mut context, 0, &[Value::Text(String::from("wipe"))]));
    let data = object_id(&context.objects.objs[so].base.get_local("data", true).unwrap());
    context.objects.objs[data].base.internal_set("k", num(9), true);
    assert!(matches!(flush(&avm, &mut context, so, &[]), Value::Bool(true)));
    assert!(matches!(clear(&avm, &mut context, so, &[]), Value::Undefined));
    assert_eq!(context.objects.objs[data].base.get_keys().len(), 0);
    // A later fresh load finds no stored entry and yields an empty data
    // object.
    context.shared_objects = Vec::new();
    let so2 = object_id(&get_local(&avm, &mut context, 0, &[Value::Text(String::from("wipe"))]));
    let data2 = object_id(&context.objects.objs[so2].base.get_local("data", true).unwrap());
    assert_eq!(context.objects.objs[data2].base.get_keys().len(), 0);
}

#[test]
fn functions_are_skipped_and_malformed_text_degrades_to_empty() {
    let (avm, mut context) = new_session(false);
    let so = object_id(&get_local(&avm, &mut context, 0, &[Value::Text(String::from("fns"))]));
    let data = object_id(&context.objects.objs[so].base.get_local("data", true).unwrap());
    // A function value is never serialized.
    let clear_fn = object_id(
        &context.objects.objs[avm.prototypes.shared_object]
            .base
            .get_local("clear", true)
            .unwrap(),
    );
    context.objects.objs[data].base.internal_set("f", Value::Object(clear_fn), true);
    context.objects.objs[data].base.internal_set("ok", num(2), true);
    assert!(matches!(flush(&avm, &mut context, so, &[]), Value::Bool(true)));
    context.shared_objects = Vec::new();
    let so2 = object_id(&get_local(&avm, &mut context, 0, &[Value::Text(String::from("fns"))]));
    let data2 = object_id(&context.objects.objs[so2].base.get_local("data", true).unwrap());
    assert!(context.objects.objs[data2].base.get_local("f", true).is_none());
    assert!(context.objects.objs[data2].base.get_local("ok", true).is_some());

    // Malformed stored text degrades to no prior data rather than failing.
    context.storage.put_string("broken", String::from("{not json"));
    let so3 = object_id(&get_local(&avm, &mut context, 0, &[Value::Text(String::from("broken"))]));
    let data3 = object_id(&context.objects.objs[so3].base.get_local("data", true).unwrap());
    assert_eq!(context.objects.objs[data3].base.get_keys().len(), 0);
}

#[test]
fn unsupported_methods_are_graceful_stubs() {
    let (avm, mut context) = new_session(false);
    let r = avm1_runtime::shared_object::delete_all(&avm, &mut context, 0, &[]);
    assert!(matches!(r, Value::Undefined));
    let r = avm1_runtime::shared_object::get_remote(&avm, &mut context, 0, &[]);
    assert!(matches!(r, Value::Undefined));
    let r = avm1_runtime::shared_object::get_max_size(&avm, &mut context, 0, &[]);
    assert!(matches!(r, Value::Undefined));
    let r = avm1_runtime::shared_object::send(&avm, &mut context, 0, &[]);
    assert!(matches!(r, Value::Undefined));
    let r = avm1_runtime::shared_object::on_sync(&avm, &mut context, 0, &[]);
    assert!(matches!(r, Value::Undefined));
}
