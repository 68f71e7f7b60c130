use avm1_runtime::context::new_session;
use avm1_runtime::display::DisplayNode;
use avm1_runtime::display_props::{
    property_coerce_to_number, set_rotation, set_visible, set_x, set_x_scale, rotation, visible, x,
    x_scale,
};
use avm1_runtime::object::{Attributes, Obj, Role, ScriptObject};
use avm1_runtime::stage_object::StageObject;
use avm1_runtime::value::{Number, Value};

fn num(v: i64) -> Value {
    Value::Number(Number::Finite(v))
}

fn expect_num(v: &Value) -> i64 {
    match v {
        Value::Number(Number::Finite(n)) => *n,
        other => panic!("expected a finite number, got {:?}", other),
    }
}

#[test]
fn get_after_set_round_trips_geometry() {
    let (avm, mut context) = new_session(false);
    let node = context
        .stage
        .add_node(DisplayNode::new(String::from("clip"), String::from("/clip")));
    set_x(&avm, &mut context, node, &num(42));
    assert_eq!(expect_num(&x(&avm, &context, node)), 42);
    set_x_scale(&avm, &mut context, node, &num(50));
    assert_eq!(expect_num(&x_scale(&avm, &context, node)), 50);
    // The internal storage is a fraction of one, not the percent itself.
    assert_eq!(context.stage.nodes[node].scale_x_frac, 500000);
}

#[test]
fn non_finite_writes_are_discarded() {
    let (avm, mut context) = new_session(false);
    let node = context
        .stage
        .add_node(DisplayNode::new(String::from("clip"), String::from("/clip")));
    set_x(&avm, &mut context, node, &num(7));
    set_x(&avm, &mut context, node, &Value::Number(Number::NotANumber));
    assert_eq!(expect_num(&x(&avm, &context, node)), 7);
    set_x(&avm, &mut context, node, &Value::Undefined);
    set_x(&avm, &mut context, node, &Value::Null);
    set_x(&avm, &mut context, node, &Value::Number(Number::Infinity));
    assert_eq!(expect_num(&x(&avm, &context, node)), 7);
}

#[test]
fn visibility_coerces_through_numbers_not_booleans() {
    let (avm, mut context) = new_session(false);
    let node = context
        .stage
        .add_node(DisplayNode::new(String::from("clip"), String::from("/clip")));
    // A boolean-like string coerces to no number and the write is dropped.
    set_visible(&avm, &mut context, node, &Value::Text(String::from("false")));
    assert!(matches!(visible(&avm, &context, node), Value::Bool(true)));
    set_visible(&avm, &mut context, node, &num(0));
    assert!(matches!(visible(&avm, &context, node), Value::Bool(false)));
    set_visible(&avm, &mut context, node, &num(-3));
    assert!(matches!(visible(&avm, &context, node), Value::Bool(true)));
}

#[test]
fn rotation_normalizes_into_half_open_range() {
    let (avm, mut context) = new_session(false);
    let node = context
        .stage
        .add_node(DisplayNode::new(String::from("clip"), String::from("/clip")));
    set_rotation(&avm, &mut context, node, &num(450));
    assert_eq!(expect_num(&rotation(&avm, &context, node)), 90);
    set_rotation(&avm, &mut context, node, &num(-270));
    assert_eq!(expect_num(&rotation(&avm, &context, node)), 90);
    set_rotation(&avm, &mut context, node, &num(180));
    assert_eq!(expect_num(&rotation(&avm, &context, node)), 180);
    set_rotation(&avm, &mut context, node, &num(-180));
    assert_eq!(expect_num(&rotation(&avm, &context, node)), 180);
}

#[test]
fn own_property_wins_resolution() {
    let (avm, mut context) = new_session(false);
    let parent = context
        .stage
        .add_node(DisplayNode::new(String::from("parent"), String::from("/parent")));
    let child = context
        .stage
        .add_node(DisplayNode::new(String::from("foo"), String::from("/parent/foo")));
    context.stage.nodes[parent].children.push(child);
    // A prototype that also defines the name.
    let proto = context.objects.add_obj(Obj {
        base: ScriptObject::object(None),
        role: Role::Plain,
    });
    context.objects.objs[proto]
        .base
        .internal_set("foo", num(111), true);
    let so = StageObject::for_display_object(&mut context, parent, Some(proto));
    so.set(&avm, &mut context, "foo", &num(222));
    assert_eq!(expect_num(&so.get(&avm, &context, "foo")), 222);
}

#[test]
fn special_property_wins_over_prototype() {
    let (avm, mut context) = new_session(false);
    let node = context
        .stage
        .add_node(DisplayNode::new(String::from("clip"), String::from("/clip")));
    let proto = context.objects.add_obj(Obj {
        base: ScriptObject::object(None),
        role: Role::Plain,
    });
    context.objects.objs[proto]
        .base
        .internal_set("_x", num(999), true);
    let so = StageObject::for_display_object(&mut context, node, Some(proto));
    set_x(&avm, &mut context, node, &num(5));
    // No own property named _x exists, so the special property answers,
    // even though the prototype chain also defines the name.
    assert_eq!(expect_num(&so.get(&avm, &context, "_x")), 5);
}

#[test]
fn special_names_match_case_insensitively_even_in_case_sensitive_mode() {
    let (avm, mut context) = new_session(true);
    let node = context
        .stage
        .add_node(DisplayNode::new(String::from("clip"), String::from("/clip")));
    let so = StageObject::for_display_object(&mut context, node, None);
    set_x(&avm, &mut context, node, &num(12));
    assert_eq!(expect_num(&so.get(&avm, &context, "_X")), 12);
    assert_eq!(expect_num(&so.get(&avm, &context, "_x")), 12);
}

#[test]
fn child_lookup_follows_the_case_rule() {
    let (_avm, mut context) = new_session(true);
    let parent = context
        .stage
        .add_node(DisplayNode::new(String::from("parent"), String::from("/parent")));
    let child = context
        .stage
        .add_node(DisplayNode::new(String::from("foo"), String::from("/parent/foo")));
    context.stage.nodes[parent].children.push(child);
    assert_eq!(context.stage.get_child_by_name(parent, "Foo", true), None);
    assert_eq!(context.stage.get_child_by_name(parent, "foo", true), Some(child));
    assert_eq!(context.stage.get_child_by_name(parent, "Foo", false), Some(child));
}

#[test]
fn resolution_reaches_children_levels_and_prototypes() {
    let (avm, mut context) = new_session(false);
    let parent = context
        .stage
        .add_node(DisplayNode::new(String::from("parent"), String::from("/parent")));
    let child = context
        .stage
        .add_node(DisplayNode::new(String::from("kid"), String::from("/parent/kid")));
    context.stage.nodes[parent].children.push(child);
    let child_obj = context.objects.add_obj(Obj {
        base: ScriptObject::object(None),
        role: Role::Plain,
    });
    context.stage.nodes[child].object = Some(child_obj);
    let level = context
        .stage
        .add_node(DisplayNode::new(String::from("root"), String::from("/")));
    let level_obj = context.objects.add_obj(Obj {
        base: ScriptObject::object(None),
        role: Role::Plain,
    });
    context.stage.nodes[level].object = Some(level_obj);
    context.stage.add_level(3, level);
    let proto = context.objects.add_obj(Obj {
        base: ScriptObject::object(None),
        role: Role::Plain,
    });
    context.objects.objs[proto]
        .base
        .internal_set("inherited", num(77), true);
    let so = StageObject::for_display_object(&mut context, parent, Some(proto));
    assert!(matches!(so.get(&avm, &context, "kid"), Value::Object(o) if o == child_obj));
    assert!(matches!(so.get(&avm, &context, "_level3"), Value::Object(o) if o == level_obj));
    assert!(matches!(so.get(&avm, &context, "_LEVEL3"), Value::Object(o) if o == level_obj));
    assert_eq!(expect_num(&so.get(&avm, &context, "inherited")), 77);
    assert!(matches!(so.get(&avm, &context, "missing"), Value::Undefined));
    // has_property covers own properties, children and levels, but not
    // special properties.
    assert!(so.has_property(&avm, &context, "kid"));
    assert!(so.has_property(&avm, &context, "_level3"));
    assert!(!so.has_property(&avm, &context, "_x"));
}

#[test]
fn text_binding_fires_on_own_and_special_writes() {
    let (avm, mut context) = new_session(false);
    let clip = context
        .stage
        .add_node(DisplayNode::new(String::from("clip"), String::from("/clip")));
    let mut field = DisplayNode::new(String::from("field"), String::from("/clip/field"));
    field.is_text_field = true;
    let field = context.stage.add_node(field);
    let so = StageObject::for_display_object(&mut context, clip, None);
    so.register_text_field_binding(&mut context, field, "label");
    so.set(&avm, &mut context, "label", &Value::Text(String::from("hi")));
    assert_eq!(context.stage.nodes[field].text, "hi");
    // A binding on a special-property name fires too, before the setter.
    so.register_text_field_binding(&mut context, field, "_x");
    so.set(&avm, &mut context, "_x", &num(9));
    assert_eq!(context.stage.nodes[field].text, "9");
    assert_eq!(expect_num(&x(&avm, &context, clip)), 9);
}

#[test]
fn binding_lifecycle_clears_and_unregisters() {
    let (avm, mut context) = new_session(false);
    let clip = context
        .stage
        .add_node(DisplayNode::new(String::from("clip"), String::from("/clip")));
    let field_a = context
        .stage
        .add_node(DisplayNode::new(String::from("a"), String::from("/clip/a")));
    let field_b = context
        .stage
        .add_node(DisplayNode::new(String::from("b"), String::from("/clip/b")));
    let so = StageObject::for_display_object(&mut context, clip, None);
    so.register_text_field_binding(&mut context, field_a, "va");
    so.register_text_field_binding(&mut context, field_b, "vb");
    so.clear_text_field_binding(&mut context, field_a);
    so.set(&avm, &mut context, "va", &Value::Text(String::from("gone")));
    assert_eq!(context.stage.nodes[field_a].text, "");
    so.set(&avm, &mut context, "vb", &Value::Text(String::from("still")));
    assert_eq!(context.stage.nodes[field_b].text, "still");
    // Unregistering drains the rest onto the unbound queue.
    so.unregister_text_field_bindings(&mut context);
    assert_eq!(context.unbound_text_fields, vec![field_b]);
    so.set(&avm, &mut context, "vb", &Value::Text(String::from("quiet")));
    assert_eq!(context.stage.nodes[field_b].text, "still");
}

#[test]
fn get_keys_lists_own_keys_then_children() {
    let (avm, mut context) = new_session(false);
    let parent = context
        .stage
        .add_node(DisplayNode::new(String::from("parent"), String::from("/parent")));
    let deep = context
        .stage
        .add_node(DisplayNode::new(String::from("deep"), String::from("/parent/deep")));
    let shallow = context
        .stage
        .add_node(DisplayNode::new(String::from("shallow"), String::from("/parent/shallow")));
    // Children are kept ordered from highest depth to lowest.
    context.stage.nodes[parent].children.push(deep);
    context.stage.nodes[parent].children.push(shallow);
    let so = StageObject::for_display_object(&mut context, parent, None);
    so.set(&avm, &mut context, "alpha", &num(1));
    so.set(&avm, &mut context, "beta", &num(2));
    let keys = so.get_keys(&context);
    assert_eq!(keys, vec!["alpha", "beta", "deep", "shallow"]);
}

#[test]
fn coercion_follows_the_legacy_rules() {
    assert_eq!(property_coerce_to_number(&Value::Text(String::from("12"))), Some(12));
    assert_eq!(property_coerce_to_number(&Value::Text(String::from("-4"))), Some(-4));
    assert_eq!(property_coerce_to_number(&Value::Text(String::from("false"))), None);
    assert_eq!(property_coerce_to_number(&Value::Text(String::from(""))), None);
    assert_eq!(property_coerce_to_number(&Value::Bool(true)), Some(1));
    assert_eq!(property_coerce_to_number(&Value::Bool(false)), Some(0));
    assert_eq!(property_coerce_to_number(&Value::Undefined), None);
    assert_eq!(property_coerce_to_number(&Value::Null), None);
    assert_eq!(property_coerce_to_number(&num(3)), Some(3));
    assert_eq!(property_coerce_to_number(&Value::Number(Number::NegInfinity)), None);
}

#[test]
fn registry_keeps_the_opcode_order() {
    let (avm, mut context) = new_session(false);
    let node = context
        .stage
        .add_node(DisplayNode::new(String::from("clip"), String::from("/clip")));
    set_x(&avm, &mut context, node, &num(4));
    let by_index = avm.display_properties.get_by_index(0).copied().unwrap();
    assert_eq!(expect_num(&by_index.get(&avm, &context, node)), 4);
    set_rotation(&avm, &mut context, node, &num(30));
    let by_index = avm.display_properties.get_by_index(10).copied().unwrap();
    assert_eq!(expect_num(&by_index.get(&avm, &context, node)), 30);
    assert!(avm.display_properties.get_by_index(22).is_none());
    // Names match case-insensitively.
    let p = avm.display_properties.get_by_name("_XsCaLe").copied().unwrap();
    assert!(p.has_setter);
    // Read-only entries silently swallow writes.
    let target = avm.display_properties.get_by_name("_target").copied().unwrap();
    assert!(!target.has_setter);
    target.set(&avm, &mut context, node, &num(1));
    assert!(matches!(target.get(&avm, &context, node), Value::Text(t) if t == "/clip"));
}

#[test]
fn placeholder_properties_return_fixed_defaults() {
    let (avm, mut context) = new_session(false);
    let node = context
        .stage
        .add_node(DisplayNode::new(String::from("clip"), String::from("/clip")));
    let so = StageObject::for_display_object(&mut context, node, None);
    assert!(matches!(so.get(&avm, &context, "_droptarget"), Value::Text(t) if t.is_empty()));
    assert!(matches!(so.get(&avm, &context, "_url"), Value::Text(t) if t.is_empty()));
    assert_eq!(expect_num(&so.get(&avm, &context, "_highquality")), 1);
    assert!(matches!(so.get(&avm, &context, "_focusrect"), Value::Null));
    assert_eq!(expect_num(&so.get(&avm, &context, "_soundbuftime")), 5);
    assert!(matches!(so.get(&avm, &context, "_quality"), Value::Text(t) if t == "HIGH"));
    // Their setters accept and discard writes.
    so.set(&avm, &mut context, "_quality", &Value::Text(String::from("LOW")));
    assert!(matches!(so.get(&avm, &context, "_quality"), Value::Text(t) if t == "HIGH"));
}

#[test]
fn mouse_position_transforms_into_local_space() {
    let (avm, mut context) = new_session(false);
    let node = context
        .stage
        .add_node(DisplayNode::new(String::from("clip"), String::from("/clip")));
    context.mouse_x = 100;
    context.mouse_y = 40;
    set_x(&avm, &mut context, node, &num(30));
    let so = StageObject::for_display_object(&mut context, node, None);
    assert_eq!(expect_num(&so.get(&avm, &context, "_xmouse")), 70);
    assert_eq!(expect_num(&so.get(&avm, &context, "_ymouse")), 40);
}

#[test]
fn read_only_own_properties_swallow_script_writes() {
    let (_avm, mut context) = new_session(false);
    let obj = context.objects.add_obj(Obj {
        base: ScriptObject::object(None),
        role: Role::Plain,
    });
    context.objects.objs[obj].base.define_value(
        "locked",
        num(1),
        Attributes { dont_enum: false, dont_delete: false, read_only: true },
    );
    context.objects.objs[obj].base.internal_set("locked", num(2), true);
    let v = context.objects.objs[obj].base.get_local("locked", true).unwrap();
    assert_eq!(expect_num(&v), 1);
    // A protected property survives deletion attempts.
    context.objects.objs[obj].base.define_value(
        "pinned",
        num(3),
        Attributes { dont_enum: false, dont_delete: true, read_only: false },
    );
    assert!(!context.objects.objs[obj].base.delete("pinned", true));
    assert!(context.objects.objs[obj].base.has_own_property("pinned", true));
}

#[test]
fn fscommand_parse_recognizes_the_prefix() {
    assert_eq!(avm1_runtime::fscommand::parse("FSCommand:save"), Some(String::from("save")));
    assert_eq!(avm1_runtime::fscommand::parse("fscommand:"), Some(String::from("")));
    assert_eq!(avm1_runtime::fscommand::parse("http://example"), None);
    assert_eq!(avm1_runtime::fscommand::parse("fscomman"), None);
}

#[test]
fn decimal_text_round_trips() {
    assert_eq!(avm1_runtime::text::i64_to_string(0), "0");
    assert_eq!(avm1_runtime::text::i64_to_string(-5), "-5");
    assert_eq!(avm1_runtime::text::i64_to_string(9007), "9007");
    assert_eq!(avm1_runtime::text::parse_i64("9007"), Some(9007));
    assert_eq!(avm1_runtime::text::parse_i64("-5"), Some(-5));
    assert_eq!(avm1_runtime::text::parse_i64("5x"), None);
    assert_eq!(avm1_runtime::text::parse_i64(""), None);
    let big = avm1_runtime::value::Value::Number(Number::Finite(i64::MIN)).coerce_to_string();
    assert_eq!(big, "-9223372036854775808");
}
