use js2cpp::manifest::PropertyManifest;

fn names(xs: &[&str]) -> Vec<String> {
    xs.iter().map(|x| String::from(*x)).collect()
}

#[test]
fn generation_is_idempotent_under_duplicates() {
    let m1 = PropertyManifest::from_names(names(&["a", "b", "a"]));
    let m2 = PropertyManifest::from_names(names(&["a", "b"]));
    assert_eq!(m1.len(), 2);
    assert_eq!(m2.len(), 2);
    let (s1, l1) = m1.generate();
    let (s2, l2) = m2.generate();
    assert_eq!(s1, s2);
    assert_eq!(l1, l2);
}

#[test]
fn generation_ignores_input_order() {
    let m1 = PropertyManifest::from_names(names(&["b", "a", "c"]));
    let m2 = PropertyManifest::from_names(names(&["c", "b", "a", "b"]));
    assert_eq!(m1.generate(), m2.generate());
}

#[test]
fn storage_decl_exact_text() {
    let m = PropertyManifest::from_names(names(&["b", "a"]));
    assert_eq!(
        m.storage_decl(),
        "optional<JSValue> prop_a;optional<JSValue> prop_b;"
    );
}

#[test]
fn lookup_source_exact_text() {
    let m = PropertyManifest::from_names(names(&["x"]));
    assert_eq!(
        m.lookup_source(),
        "static optional<JSValue> *prop(JSValue key,JSBase &out){ \
         if(key.coerce_to_string() == \"x\")return &out.prop_x;return 0;};"
    );
}

#[test]
fn lookup_slots_distinct_and_not_found() {
    let m = PropertyManifest::from_names(names(&["x", "y"]));
    let sx = m.slot_of(&String::from("x"));
    let sy = m.slot_of(&String::from("y"));
    assert!(sx.is_some());
    assert!(sy.is_some());
    assert_ne!(sx.unwrap(), sy.unwrap());
    assert_eq!(m.slot_of(&String::from("z")), None);
}

#[test]
fn mangling_escapes_non_identifier_characters() {
    // '-' is code point 0x2d; '_' itself is escaped as 0x5f
    let m = PropertyManifest::from_names(names(&["a-b"]));
    assert_eq!(m.storage_decl(), "optional<JSValue> prop_a_2d_b;");
    let m2 = PropertyManifest::from_names(names(&["a_b"]));
    assert_eq!(m2.storage_decl(), "optional<JSValue> prop_a_5f_b;");
}

#[test]
fn carriage_return_is_escaped() {
    let m = PropertyManifest::from_names(names(&["a\rb"]));
    let l = m.lookup_source();
    assert!(l.contains("coerce_to_string() == \"a\\rb\""));
    // 0x0d mangles into an underscore-delimited escape
    assert_eq!(m.storage_decl(), "optional<JSValue> prop_a_d_b;");
}

#[test]
fn lookup_escapes_string_literals() {
    let m = PropertyManifest::from_names(names(&["a\"b"]));
    let l = m.lookup_source();
    assert!(l.contains("coerce_to_string() == \"a\\\"b\""));
}
