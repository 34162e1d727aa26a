use param_tree::arena::ParamArena;
use param_tree::errors::ParamError;
use param_tree::hash::HashKey;
use param_tree::labels::HashInput;
use param_tree::labels::LabelRegistry;

#[test]
fn digest_matches_known_values() {
    assert_eq!(HashKey::from_digest("").get_value(), 0);
    assert_eq!(HashKey::from_digest("a").get_value(), 0x01e8b7be43);
    assert_eq!(HashKey::from_digest("damage_max").get_value(), 0x0aa3cb8810);
    assert!(HashKey::from_digest("anything at all").get_value() < 1u64 << 40);
}

#[test]
fn raw_and_digest_construction_always_succeed() {
    let k = HashKey::from_value(0xdead_beef_dead_beef);
    assert_eq!(k.get_value(), 0xdead_beef_dead_beef);
    let reg = LabelRegistry::new();
    match HashKey::ingest(&reg, &HashInput::Raw(77)) {
        Ok(k) => assert_eq!(k.get_value(), 77),
        Err(_) => panic!("raw ingestion always succeeds"),
    }
    match HashKey::ingest(&reg, &HashInput::Key(k)) {
        Ok(k2) => assert_eq!(k2.get_value(), k.get_value()),
        Err(_) => panic!("key ingestion always succeeds"),
    }
}

#[test]
fn label_resolution_follows_the_strict_flag() {
    let mut reg = LabelRegistry::new();

    // lenient and empty: falls back to digesting the label itself
    let k = HashKey::from_label(&reg, "foo").unwrap();
    assert_eq!(k.get_value(), HashKey::from_digest("foo").get_value());

    // strict and empty: fails
    reg.set_strict(true);
    assert!(matches!(HashKey::from_label(&reg, "foo"), Err(ParamError::UnresolvedLabel)));

    // after loading a source that maps "foo" to its own digest, strict
    // resolution succeeds and the display form renders as the label
    let digest = HashKey::from_digest("foo").get_value();
    let line = format!("0x{:010x},foo", digest);
    reg.load_labels(&vec![line]).unwrap();
    let k2 = HashKey::from_label(&reg, "foo").unwrap();
    assert_eq!(k2.get_value(), digest);
    assert_eq!(k2.render(&reg), "foo");
}

#[test]
fn display_form_falls_back_to_hex() {
    let reg = LabelRegistry::new();
    let k = HashKey::from_value(0x038c736521);
    assert_eq!(k.render(&reg), "0x038c736521");
    let zero = HashKey::from_value(0);
    assert_eq!(zero.render(&reg), "0x0000000000");
    // keys above the 40-bit range still render all their digits
    let wide = HashKey::from_value(0x1_0000_0000_00);
    assert_eq!(wide.render(&reg), "0x10000000000");
    let max = HashKey::from_value(u64::MAX);
    assert_eq!(max.render(&reg), "0xffffffffffffffff");
}

#[test]
fn display_form_is_not_cached() {
    let mut reg = LabelRegistry::new();
    let k = HashKey::from_value(0x42);
    assert_eq!(k.render(&reg), "0x0000000042");
    reg.add_label(0x42, String::from("answer"));
    assert_eq!(k.render(&reg), "answer");
    reg.add_label(0x42, String::from("other"));
    assert_eq!(k.render(&reg), "other");
}

#[test]
fn later_loads_overwrite_in_both_directions() {
    let mut reg = LabelRegistry::new();
    reg.add_label(1, String::from("x"));
    reg.add_label(1, String::from("y"));
    // the key now has exactly one label, and the old label no key
    assert_eq!(reg.label_of(1), Some(String::from("y")));
    assert_eq!(reg.key_of_label(&String::from("x")), None);
    assert_eq!(reg.key_of_label(&String::from("y")), Some(1));
    // a label stolen by another key leaves its old key unlabeled
    reg.add_label(2, String::from("y"));
    assert_eq!(reg.label_of(1), None);
    assert_eq!(reg.label_of(2), Some(String::from("y")));
}

#[test]
fn label_sources_are_parsed_whole_or_not_at_all() {
    let mut reg = LabelRegistry::new();
    let lines = vec![String::from("0x01,one"), String::from("not a label line")];
    assert!(matches!(reg.load_labels(&lines), Err(ParamError::Source)));
    // the first, well-formed line was not merged either
    assert_eq!(reg.label_of(1), None);

    let good = vec![String::from("0x01,one"), String::from("0x02,two")];
    reg.load_labels(&good).unwrap();
    assert_eq!(reg.label_of(1), Some(String::from("one")));
    assert_eq!(reg.label_of(2), Some(String::from("two")));
}

#[test]
fn malformed_label_lines_are_rejected() {
    let mut reg = LabelRegistry::new();
    assert!(matches!(reg.load_labels(&vec![String::from("0x,empty")]), Err(ParamError::Source)));
    assert!(matches!(reg.load_labels(&vec![String::from("01,noprefix")]), Err(ParamError::Source)));
    assert!(matches!(reg.load_labels(&vec![String::from("0xzz,bad")]), Err(ParamError::Source)));
    assert!(matches!(
        reg.load_labels(&vec![String::from("0x10000000000000000,toobig")]),
        Err(ParamError::Source)
    ));
    // upper-case digits, a second comma ending the label, and an empty
    // label are all fine
    reg.load_labels(&vec![String::from("0x0AB,label,tail")]).unwrap();
    assert_eq!(reg.label_of(0xab), Some(String::from("label")));
    reg.load_labels(&vec![String::from("0x0cd,")]).unwrap();
    assert_eq!(reg.label_of(0xcd), Some(String::from("")));
}

#[test]
fn ingest_resolves_labels_through_the_registry() {
    let mut reg = LabelRegistry::new();
    reg.add_label(500, String::from("named"));
    match HashKey::ingest(&reg, &HashInput::Label(String::from("named"))) {
        Ok(k) => assert_eq!(k.get_value(), 500),
        Err(_) => panic!("a stored reverse mapping wins"),
    }
    reg.set_strict(true);
    assert!(matches!(
        HashKey::ingest(&reg, &HashInput::Label(String::from("unnamed"))),
        Err(ParamError::UnresolvedLabel)
    ));
}

#[test]
fn hash_params_render_through_the_registry() {
    let mut a = ParamArena::new();
    let mut reg = LabelRegistry::new();
    let h = a.new_hash(HashKey::from_value(0x77));
    assert_eq!(a.render(h, &reg), "param hash (0x0000000077)");
    reg.add_label(0x77, String::from("width"));
    assert_eq!(a.render(h, &reg), "param hash (width)");
}
