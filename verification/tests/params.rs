use param_tree::arena::PARAM_TYPE_BOOL;
use param_tree::arena::PARAM_TYPE_FLOAT;
use param_tree::arena::PARAM_TYPE_HASH;
use param_tree::arena::PARAM_TYPE_I16;
use param_tree::arena::PARAM_TYPE_I32;
use param_tree::arena::PARAM_TYPE_I8;
use param_tree::arena::PARAM_TYPE_LIST;
use param_tree::arena::PARAM_TYPE_STR;
use param_tree::arena::PARAM_TYPE_STRUCT;
use param_tree::arena::PARAM_TYPE_U16;
use param_tree::arena::PARAM_TYPE_U32;
use param_tree::arena::PARAM_TYPE_U8;
use param_tree::arena::ParamArena;
use param_tree::arena::ScalarValue;
use param_tree::arena::SharedParam;
use param_tree::arena::StructLookup;
use param_tree::errors::ParamError;
use param_tree::hash::HashKey;
use param_tree::iter::IterEntry;

#[test]
fn scalar_values_round_trip() {
    let mut a = ParamArena::new();

    let b = a.new_bool(true);
    assert!(matches!(a.get_scalar_value(b), Ok(ScalarValue::Bool(true))));
    assert_eq!(a.get_type(b), PARAM_TYPE_BOOL);

    let h = a.new_i8(-5);
    assert!(matches!(a.get_scalar_value(h), Ok(ScalarValue::I8(-5))));
    assert_eq!(a.get_type(h), PARAM_TYPE_I8);

    let h = a.new_u8(200);
    assert!(matches!(a.get_scalar_value(h), Ok(ScalarValue::U8(200))));
    assert_eq!(a.get_type(h), PARAM_TYPE_U8);

    let h = a.new_i16(-1000);
    assert!(matches!(a.get_scalar_value(h), Ok(ScalarValue::I16(-1000))));
    assert_eq!(a.get_type(h), PARAM_TYPE_I16);

    let h = a.new_u16(50000);
    assert!(matches!(a.get_scalar_value(h), Ok(ScalarValue::U16(50000))));
    assert_eq!(a.get_type(h), PARAM_TYPE_U16);

    let h = a.new_i32(-70000);
    assert!(matches!(a.get_scalar_value(h), Ok(ScalarValue::I32(-70000))));
    assert_eq!(a.get_type(h), PARAM_TYPE_I32);

    let h = a.new_u32(3000000000);
    assert!(matches!(a.get_scalar_value(h), Ok(ScalarValue::U32(3000000000))));
    assert_eq!(a.get_type(h), PARAM_TYPE_U32);

    let h = a.new_hash(HashKey::from_value(0x12345));
    match a.get_scalar_value(h) {
        Ok(ScalarValue::Hash(k)) => assert_eq!(k.get_value(), 0x12345),
        _ => panic!("expected a hash payload"),
    }
    assert_eq!(a.get_type(h), PARAM_TYPE_HASH);

    let h = a.new_str(String::from("hello"));
    match a.get_scalar_value(h) {
        Ok(ScalarValue::Str(s)) => assert_eq!(s, "hello"),
        _ => panic!("expected a string payload"),
    }
    assert_eq!(a.get_type(h), PARAM_TYPE_STR);
}

#[test]
fn float_values_round_trip_through_bits() {
    let mut a = ParamArena::new();
    let h = a.new_float_bits(1.5f32.to_bits());
    match a.get_scalar_value(h) {
        Ok(ScalarValue::FloatBits(bits)) => assert_eq!(f32::from_bits(bits), 1.5f32),
        _ => panic!("expected a float payload"),
    }
    assert_eq!(a.get_type(h), PARAM_TYPE_FLOAT);
}

#[test]
fn alias_mutation_is_observed_through_all_handles() {
    let mut a = ParamArena::new();
    let x = a.new_i32(1);
    let y = x.alias();
    assert!(x.is_alias_of(&y));
    a.set_i32(y, 7);
    assert!(matches!(a.get_scalar_value(x), Ok(ScalarValue::I32(7))));
    // a wholesale set may even change the variant
    a.set_bool(y, true);
    assert_eq!(a.get_type(x), PARAM_TYPE_BOOL);
}

#[test]
fn container_constructors_take_aliases() {
    let mut a = ParamArena::new();
    let e = a.new_u8(1);
    let l = a.new_list(vec![e.alias()]);
    a.set_u8(e, 42);
    let got = a.list_get(l, 0).unwrap();
    assert!(matches!(a.get_scalar_value(got), Ok(ScalarValue::U8(42))));
}

#[test]
fn deep_duplicate_is_equal_but_independent() {
    let mut a = ParamArena::new();
    let k1 = HashKey::from_value(1);
    let k2 = HashKey::from_value(2);
    let inner = a.new_str(String::from("x"));
    let lst = a.new_list(vec![inner.alias()]);
    let ten = a.new_i32(10);
    let root = a.new_struct(vec![(k1, ten), (k2, lst.alias())]);

    let copy = a.deep_duplicate(root);
    assert!(a.param_eq(root, copy));
    assert!(!root.is_alias_of(&copy));

    // mutating through the copy does not change the original
    let copied_list = match a.struct_get(copy, k2).unwrap() {
        StructLookup::One(p) => p,
        StructLookup::Many(_) => panic!("key is unambiguous"),
    };
    let copied_str = a.list_get(copied_list, 0).unwrap();
    a.set_str(copied_str, String::from("y"));
    assert!(matches!(a.get_scalar_value(inner), Ok(ScalarValue::Str(s)) if s == "x"));
    assert!(!a.param_eq(root, copy));
}

#[test]
fn equality_of_self_alias_completes_on_deep_nesting() {
    let mut a = ParamArena::new();
    let mut h = a.new_bool(false);
    let mut i: usize = 0;
    while i < 64 {
        h = a.new_list(vec![h.alias()]);
        i += 1;
    }
    assert!(a.param_eq(h, h.alias()));
}

#[test]
fn equality_is_structural_across_allocations() {
    let mut a = ParamArena::new();
    let x1 = a.new_i32(3);
    let l1 = a.new_list(vec![x1]);
    let x2 = a.new_i32(3);
    let l2 = a.new_list(vec![x2]);
    assert!(a.param_eq(l1, l2));
    a.set_i32(x2, 4);
    assert!(!a.param_eq(l1, l2));
}

#[test]
fn struct_lookup_surfaces_ambiguity() {
    let mut a = ParamArena::new();
    let k1 = HashKey::from_value(11);
    let k2 = HashKey::from_value(22);
    let k3 = HashKey::from_value(33);
    let va = a.new_str(String::from("a"));
    let vb = a.new_str(String::from("b"));
    let vc = a.new_str(String::from("c"));
    let root = a.new_struct(vec![(k1, va), (k1, vb), (k2, vc)]);

    match a.struct_get(root, k1).unwrap() {
        StructLookup::Many(es) => {
            assert_eq!(es.len(), 2);
            assert!(matches!(a.get_scalar_value(es[0]), Ok(ScalarValue::Str(s)) if s == "a"));
            assert!(matches!(a.get_scalar_value(es[1]), Ok(ScalarValue::Str(s)) if s == "b"));
        },
        StructLookup::One(_) => panic!("two entries match k1"),
    }
    match a.struct_get(root, k2).unwrap() {
        StructLookup::One(e) => {
            assert!(matches!(a.get_scalar_value(e), Ok(ScalarValue::Str(s)) if s == "c"));
        },
        StructLookup::Many(_) => panic!("exactly one entry matches k2"),
    }
    assert!(matches!(a.struct_get(root, k3), Err(ParamError::KeyNotFound)));
}

#[test]
fn struct_set_is_asymmetric_about_ambiguity() {
    let mut a = ParamArena::new();
    let k1 = HashKey::from_value(11);
    let k2 = HashKey::from_value(22);
    let k3 = HashKey::from_value(33);
    let va = a.new_str(String::from("a"));
    let vb = a.new_str(String::from("b"));
    let vc = a.new_str(String::from("c"));
    let root = a.new_struct(vec![(k1, va), (k1, vb), (k2, vc)]);

    let repl = a.new_str(String::from("d"));
    assert!(matches!(a.struct_set(root, k1, repl), Err(ParamError::AmbiguousKey)));
    assert!(matches!(a.struct_set(root, k3, repl), Err(ParamError::KeyNotFound)));
    assert!(a.struct_set(root, k2, repl).is_ok());
    match a.struct_get(root, k2).unwrap() {
        StructLookup::One(e) => {
            assert!(matches!(a.get_scalar_value(e), Ok(ScalarValue::Str(s)) if s == "d"));
        },
        StructLookup::Many(_) => panic!("exactly one entry matches k2"),
    }
}

#[test]
fn struct_set_stores_the_supplied_handle() {
    let mut a = ParamArena::new();
    let k = HashKey::from_value(9);
    let v0 = a.new_u8(0);
    let root = a.new_struct(vec![(k, v0)]);
    let repl = a.new_u8(1);
    a.struct_set(root, k, repl).unwrap();
    // the stored entry aliases the supplied handle
    a.set_u8(repl, 5);
    match a.struct_get(root, k).unwrap() {
        StructLookup::One(e) => {
            assert!(e.is_alias_of(&repl));
            assert!(matches!(a.get_scalar_value(e), Ok(ScalarValue::U8(5))));
        },
        StructLookup::Many(_) => panic!("exactly one entry matches"),
    }
    assert_eq!(a.length(root).unwrap(), 1);
}

#[test]
fn string_payloads_can_be_replaced_in_place() {
    let mut a = ParamArena::new();
    let h = a.new_str(String::from("before"));
    assert!(a.set_scalar_value(h, ScalarValue::Str(String::from("after"))).is_ok());
    assert!(matches!(a.get_scalar_value(h), Ok(ScalarValue::Str(s)) if s == "after"));
}

#[test]
fn indexed_assignment_demands_the_right_shape() {
    let mut a = ParamArena::new();
    let s = a.new_i32(5);
    let k = HashKey::from_value(1);
    let v = a.new_u8(0);
    let root = a.new_struct(vec![(k, v)]);
    let x = a.new_u8(1);
    assert!(matches!(a.list_set(root, 0, x), Err(ParamError::TypeKind)));
    assert!(matches!(a.struct_set(s, k, x), Err(ParamError::TypeKind)));
}

#[test]
fn list_bounds_are_checked() {
    let mut a = ParamArena::new();
    let e0 = a.new_u8(0);
    let e1 = a.new_u8(1);
    let e2 = a.new_u8(2);
    let l = a.new_list(vec![e0, e1, e2]);
    assert!(a.list_get(l, 2).is_ok());
    assert!(matches!(a.list_get(l, 3), Err(ParamError::IndexOutOfRange)));
    let x = a.new_u8(9);
    assert!(matches!(a.list_set(l, 3, x), Err(ParamError::IndexOutOfRange)));
    assert!(a.list_set(l, 0, x).is_ok());
    let got = a.list_get(l, 0).unwrap();
    assert!(got.is_alias_of(&x));
}

#[test]
fn type_errors_on_wrong_variants() {
    let mut a = ParamArena::new();
    let s = a.new_i32(5);
    let l = a.new_list(vec![]);
    assert!(matches!(a.get_scalar_value(l), Err(ParamError::TypeKind)));
    assert!(matches!(a.length(s), Err(ParamError::TypeKind)));
    assert!(matches!(a.list_get(s, 0), Err(ParamError::TypeKind)));
    assert!(matches!(a.struct_get(l, HashKey::from_value(1)), Err(ParamError::TypeKind)));
    assert!(matches!(a.iterate(s), Err(ParamError::TypeKind)));
    assert_eq!(a.length(l).unwrap(), 0);
}

#[test]
fn set_scalar_value_demands_a_matching_kind() {
    let mut a = ParamArena::new();
    let h = a.new_i32(5);
    assert!(a.set_scalar_value(h, ScalarValue::I32(6)).is_ok());
    assert!(matches!(a.get_scalar_value(h), Ok(ScalarValue::I32(6))));
    assert!(matches!(a.set_scalar_value(h, ScalarValue::U32(6)), Err(ParamError::TypeKind)));
    let l = a.new_list(vec![]);
    assert!(matches!(a.set_scalar_value(l, ScalarValue::Bool(true)), Err(ParamError::TypeKind)));
    assert!(matches!(a.get_scalar_value(h), Ok(ScalarValue::I32(6))));
}

#[test]
fn snapshot_iteration_survives_source_mutation() {
    let mut a = ParamArena::new();
    let e0 = a.new_u8(10);
    let e1 = a.new_u8(20);
    let e2 = a.new_u8(30);
    let l = a.new_list(vec![e0, e1, e2]);
    let other = l.alias();

    let mut it = a.iterate(l).unwrap();
    // append and remove elements through another handle
    let e3 = a.new_u8(40);
    a.set_list(other, vec![e1, e3]);

    let mut seen: Vec<u8> = Vec::new();
    while let Some(entry) = it.next() {
        match entry {
            IterEntry::Elem(e) => match a.get_scalar_value(e) {
                Ok(ScalarValue::U8(v)) => seen.push(v),
                _ => panic!("expected a u8 element"),
            },
            IterEntry::Pair(_, _) => panic!("list iteration yields plain elements"),
        }
    }
    assert_eq!(seen, vec![10, 20, 30]);
    assert!(it.next().is_none());
    assert!(it.next().is_none());
    assert_eq!(a.length(l).unwrap(), 2);
}

#[test]
fn struct_iteration_yields_keyed_pairs() {
    let mut a = ParamArena::new();
    let k1 = HashKey::from_value(7);
    let k2 = HashKey::from_value(8);
    let v1 = a.new_bool(true);
    let v2 = a.new_u8(3);
    let root = a.new_struct(vec![(k1, v1), (k2, v2)]);
    let mut it = a.iterate(root).unwrap();
    match it.next().unwrap() {
        IterEntry::Pair(k, e) => {
            assert_eq!(k.get_value(), 7);
            assert!(e.is_alias_of(&v1));
        },
        IterEntry::Elem(_) => panic!("struct iteration yields pairs"),
    }
    match it.next().unwrap() {
        IterEntry::Pair(k, e) => {
            assert_eq!(k.get_value(), 8);
            assert!(e.is_alias_of(&v2));
        },
        IterEntry::Elem(_) => panic!("struct iteration yields pairs"),
    }
    assert!(it.next().is_none());
}

#[test]
fn handles_are_checked_against_the_arena() {
    let mut a = ParamArena::new();
    let h = a.new_bool(true);
    assert!(a.contains(h));
    assert!(!a.contains(SharedParam { idx: 100 }));
}

#[test]
fn error_messages_name_the_failure() {
    assert_eq!(ParamError::IndexOutOfRange.message(), "index out of bounds");
    assert_eq!(ParamError::TypeKind.message(), "operation not valid for this param type");
}

#[test]
fn type_codes_follow_the_stable_enumeration() {
    let mut a = ParamArena::new();
    let l = a.new_list(vec![]);
    let s = a.new_struct(vec![]);
    assert_eq!(a.get_type(l), PARAM_TYPE_LIST);
    assert_eq!(a.get_type(s), PARAM_TYPE_STRUCT);
    assert_eq!(PARAM_TYPE_BOOL, 1);
    assert_eq!(PARAM_TYPE_FLOAT, 8);
    assert_eq!(PARAM_TYPE_STRUCT, 12);
}
