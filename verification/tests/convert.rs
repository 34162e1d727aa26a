use param_tree::arena::ParamArena;
use param_tree::arena::ScalarValue;
use param_tree::errors::ParamError;
use param_tree::hash::HashKey;
use param_tree::labels::LabelRegistry;
use param_tree::value::ParamValue;

#[test]
fn lower_then_lift_round_trips() {
    let mut a = ParamArena::new();
    let k1 = HashKey::from_value(100);
    let k2 = HashKey::from_value(200);
    let s1 = a.new_str(String::from("name"));
    let f1 = a.new_float_bits(2.25f32.to_bits());
    let l1 = a.new_list(vec![s1, f1]);
    let b1 = a.new_bool(false);
    let root = a.new_struct(vec![(k1, l1), (k2, b1)]);

    let flat = a.lower(root);
    let back = a.lift(&flat);
    assert!(a.param_eq(root, back));
    assert!(!root.is_alias_of(&back));
}

#[test]
fn lower_copies_point_in_time() {
    let mut a = ParamArena::new();
    let x = a.new_i32(1);
    let l = a.new_list(vec![x]);
    let flat = a.lower(l);
    a.set_i32(x, 2);
    let back = a.lift(&flat);
    // the lowered copy still holds the old value
    let old_elem = a.list_get(back, 0).unwrap();
    assert!(matches!(a.get_scalar_value(old_elem), Ok(ScalarValue::I32(1))));
    assert!(!a.param_eq(l, back));
}

#[test]
fn lift_builds_unaliased_nodes() {
    let mut a = ParamArena::new();
    let flat = ParamValue::List(vec![ParamValue::U8(1), ParamValue::U8(2)]);
    let h1 = a.lift(&flat);
    let h2 = a.lift(&flat);
    assert!(a.param_eq(h1, h2));
    assert!(!h1.is_alias_of(&h2));
    let e1 = a.list_get(h1, 0).unwrap();
    a.set_u8(e1, 9);
    assert!(!a.param_eq(h1, h2));
}

#[test]
fn saving_requires_a_struct_root() {
    let mut a = ParamArena::new();
    let l = a.new_list(vec![]);
    assert!(matches!(a.lower_root(l), Err(ParamError::TypeKind)));
    let b = a.new_bool(true);
    assert!(matches!(a.lower_root(b), Err(ParamError::TypeKind)));

    let k = HashKey::from_value(1);
    let v = a.new_u16(9);
    let root = a.new_struct(vec![(k, v)]);
    match a.lower_root(root).unwrap() {
        ParamValue::Struct(entries) => {
            assert_eq!(entries.len(), 1);
            assert_eq!(entries[0].0.get_value(), 1);
            assert!(matches!(entries[0].1, ParamValue::U16(9)));
        },
        _ => panic!("a struct root lowers to a struct value"),
    }
}

#[test]
fn lowering_preserves_duplicate_keys_and_order() {
    let mut a = ParamArena::new();
    let k = HashKey::from_value(5);
    let v1 = a.new_i8(1);
    let v2 = a.new_i8(2);
    let root = a.new_struct(vec![(k, v1), (k, v2)]);
    match a.lower(root) {
        ParamValue::Struct(entries) => {
            assert_eq!(entries.len(), 2);
            assert_eq!(entries[0].0.get_value(), 5);
            assert_eq!(entries[1].0.get_value(), 5);
            assert!(matches!(entries[0].1, ParamValue::I8(1)));
            assert!(matches!(entries[1].1, ParamValue::I8(2)));
        },
        _ => panic!("a struct node lowers to a struct value"),
    }
}

#[test]
fn scalar_params_render_their_payloads() {
    let mut a = ParamArena::new();
    let reg = LabelRegistry::new();
    let h = a.new_i32(-5);
    assert_eq!(a.render(h, &reg), "param i32 (-5)");
    let h = a.new_bool(true);
    assert_eq!(a.render(h, &reg), "param bool (true)");
    let h = a.new_u32(0);
    assert_eq!(a.render(h, &reg), "param u32 (0)");
    let h = a.new_str(String::from("hi"));
    assert_eq!(a.render(h, &reg), "param str (hi)");
    let h = a.new_float_bits(1.0f32.to_bits());
    assert_eq!(a.render(h, &reg), "param float (bits 0x3f800000)");
}

#[test]
fn container_params_render_their_lengths() {
    let mut a = ParamArena::new();
    let reg = LabelRegistry::new();
    let e1 = a.new_u8(1);
    let e2 = a.new_u8(2);
    let l = a.new_list(vec![e1, e2]);
    assert_eq!(a.render(l, &reg), "param list (len = 2)");
    let s = a.new_struct(vec![]);
    assert_eq!(a.render(s, &reg), "param struct (len = 0)");
}
