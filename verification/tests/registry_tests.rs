use cxdb::client::json::JsonValue;
use cxdb::server::error::StoreError;
use cxdb::server::registry::{
    bundle_filename, items_spec, normalize_version, parse_version, FieldDef, ItemsSpec, PutOutcome, Registry,
    RegistryBundle, RendererSpec, TypeEntry, TypeVersion,
};

fn field(name: &str, ty: &str, enum_ref: Option<&str>) -> FieldDef {
    FieldDef {
        name: name.to_string(),
        field_type: ty.to_string(),
        enum_ref: enum_ref.map(|s| s.to_string()),
        type_ref: None,
        optional: None,
        items: None,
    }
}

fn version(fields: Vec<(&str, FieldDef)>, renderer: Option<&str>) -> TypeVersion {
    TypeVersion {
        fields: fields.into_iter().map(|(t, f)| (t.to_string(), f)).collect(),
        renderer: renderer.map(|u| RendererSpec { esm_url: u.to_string(), component: None, integrity: None }),
    }
}

fn bundle(id: &str, types: Vec<(&str, Vec<(&str, TypeVersion)>)>, enums: Vec<(&str, Vec<(&str, &str)>)>) -> RegistryBundle {
    RegistryBundle {
        registry_version: 1,
        bundle_id: id.to_string(),
        types: types
            .into_iter()
            .map(|(t, vs)| {
                (t.to_string(), TypeEntry { versions: vs.into_iter().map(|(v, tv)| (v.to_string(), tv)).collect() })
            })
            .collect(),
        enums: enums
            .into_iter()
            .map(|(e, m)| (e.to_string(), m.into_iter().map(|(k, v)| (k.to_string(), v.to_string())).collect()))
            .collect(),
    }
}

fn message_bundle(id: &str) -> RegistryBundle {
    bundle(
        id,
        vec![(
            "com.example.Message",
            vec![("1", version(vec![("1", field("role", "u8", Some("com.example.Role"))), ("2", field("text", "string", None))], None))],
        )],
        vec![("com.example.Role", vec![("0", "system"), ("1", "user")])],
    )
}

fn invalid(e: StoreError) -> String {
    match e {
        StoreError::InvalidInput(m) => m,
        other => panic!("expected InvalidInput, got {other:?}"),
    }
}

#[test]
fn put_bundle_registers_types_and_enums() {
    let mut reg = Registry::new();
    let out = reg.put_bundle("b1", b"raw-1", Ok(message_bundle("b1"))).unwrap();
    assert_eq!(out, PutOutcome::Created);
    let v = reg.get_type_version("com.example.Message", 1).expect("version 1");
    assert_eq!(v.version, 1);
    assert_eq!(v.fields.len(), 2);
    let role = &v.fields.iter().find(|(t, _)| *t == 1).unwrap().1;
    assert_eq!(role.name, "role");
    assert_eq!(role.enum_ref.as_deref(), Some("com.example.Role"));
    assert!(!role.optional);
    assert!(reg.get_type_version("com.example.Message", 2).is_none());
    assert!(reg.get_type_version("missing", 1).is_none());
    let e = reg.get_enum("com.example.Role").expect("enum");
    assert_eq!(e.len(), 2);
    assert_eq!(reg.last_bundle_id(), Some("b1".to_string()));
    assert_eq!(reg.get_bundle("b1"), Some(&b"raw-1"[..]));
    assert_eq!(reg.get_bundle("b2"), None);
    let stats = reg.stats();
    assert_eq!((stats.bundles_total, stats.types_total, stats.enums_total), (1, 1, 1));
}

#[test]
fn same_bytes_again_already_exist() {
    let mut reg = Registry::new();
    reg.put_bundle("b1", b"raw-1", Ok(message_bundle("b1"))).unwrap();
    let again = reg.put_bundle("b1", b"raw-1", Err("not parsed".to_string())).unwrap();
    assert_eq!(again, PutOutcome::AlreadyExists);
    let err = reg.put_bundle("b1", b"raw-2", Ok(message_bundle("b1"))).unwrap_err();
    assert_eq!(invalid(err), "bundle_id already exists with different content");
    assert_eq!(reg.stats().bundles_total, 1);
}

#[test]
fn unparsed_or_misnamed_bundles_are_refused() {
    let mut reg = Registry::new();
    let err = reg.put_bundle("b1", b"{", Err("EOF while parsing".to_string())).unwrap_err();
    assert_eq!(invalid(err), "invalid json: EOF while parsing");
    let err = reg.put_bundle("b1", b"{}", Ok(message_bundle("other"))).unwrap_err();
    assert_eq!(invalid(err), "bundle_id does not match path");
    let mut b = message_bundle("b1");
    b.registry_version = 0;
    let err = reg.put_bundle("b1", b"{}", Ok(b)).unwrap_err();
    assert_eq!(invalid(err), "registry_version must be > 0");
    assert_eq!(reg.stats().types_total, 0);
    assert_eq!(reg.last_bundle_id(), None);
}

#[test]
fn changed_enum_is_refused() {
    let mut reg = Registry::new();
    reg.put_bundle("b1", b"1", Ok(message_bundle("b1"))).unwrap();
    let b2 = bundle("b2", vec![], vec![("com.example.Role", vec![("0", "system"), ("1", "assistant")])]);
    let err = reg.put_bundle("b2", b"2", Ok(b2)).unwrap_err();
    assert_eq!(invalid(err), "enum com.example.Role already exists with different mapping");
    // the same mapping, written in another order, is accepted
    let b3 = bundle("b3", vec![], vec![("com.example.Role", vec![("1", "user"), ("0", "system")])]);
    assert_eq!(reg.put_bundle("b3", b"3", Ok(b3)).unwrap(), PutOutcome::Created);
}

#[test]
fn changed_version_is_refused() {
    let mut reg = Registry::new();
    reg.put_bundle("b1", b"1", Ok(message_bundle("b1"))).unwrap();
    let b2 = bundle(
        "b2",
        vec![("com.example.Message", vec![("1", version(vec![("1", field("role", "u8", Some("com.example.Role")))], None))])],
        vec![],
    );
    let err = reg.put_bundle("b2", b"2", Ok(b2)).unwrap_err();
    assert_eq!(invalid(err), "type com.example.Message version 1 differs from existing");
}

#[test]
fn reused_tag_with_other_meaning_is_refused() {
    let mut reg = Registry::new();
    reg.put_bundle("b1", b"1", Ok(message_bundle("b1"))).unwrap();
    let b2 = bundle(
        "b2",
        vec![("com.example.Message", vec![("2", version(vec![("2", field("text", "int64", None))], None))])],
        vec![],
    );
    let err = reg.put_bundle("b2", b"2", Ok(b2)).unwrap_err();
    assert_eq!(invalid(err), "tag reuse conflict for type com.example.Message tag 2");
    // the same meaning under a new name is fine
    let b3 = bundle(
        "b3",
        vec![("com.example.Message", vec![("2", version(vec![("2", field("body", "string", None))], None))])],
        vec![],
    );
    assert_eq!(reg.put_bundle("b3", b"3", Ok(b3)).unwrap(), PutOutcome::Created);
}

#[test]
fn missing_enum_is_refused() {
    let mut reg = Registry::new();
    let b = bundle("b1", vec![("T", vec![("1", version(vec![("4", field("kind", "u8", Some("E")))], None))])], vec![]);
    let err = reg.put_bundle("b1", b"1", Ok(b)).unwrap_err();
    assert_eq!(invalid(err), "missing enum E for type T version 1 tag 4");
    assert_eq!(reg.get_bundle("b1"), None);
}

#[test]
fn invalid_version_and_tag_texts() {
    let mut reg = Registry::new();
    let b = bundle("b1", vec![("T", vec![("v1", version(vec![], None))])], vec![]);
    assert_eq!(invalid(reg.put_bundle("b1", b"1", Ok(b)).unwrap_err()), "invalid type version");
    let b = bundle("b2", vec![("T", vec![("1", version(vec![("x", field("a", "string", None))], None))])], vec![]);
    assert_eq!(invalid(reg.put_bundle("b2", b"2", Ok(b)).unwrap_err()), "invalid field tag");
    assert_eq!(parse_version("42").unwrap(), 42);
    assert!(parse_version("4294967296").is_err());
}

#[test]
fn latest_version_is_the_highest() {
    let mut reg = Registry::new();
    let b = bundle(
        "b1",
        vec![(
            "T",
            vec![
                ("3", version(vec![("1", field("a", "string", None))], Some("builtin:Three"))),
                ("1", version(vec![("1", field("a", "string", None))], None)),
            ],
        )],
        vec![],
    );
    reg.put_bundle("b1", b"1", Ok(b)).unwrap();
    assert_eq!(reg.get_latest_type_version("T").unwrap().version, 3);
    assert!(reg.get_latest_type_version("U").is_none());
    let renderers = reg.get_all_renderers();
    assert_eq!(renderers.len(), 1);
    assert_eq!(renderers[0].0, "T");
    assert_eq!(renderers[0].1.esm_url, "builtin:Three");
}

#[test]
fn renderer_is_filled_in_for_an_existing_version() {
    let mut reg = Registry::new();
    let b1 = bundle("b1", vec![("T", vec![("1", version(vec![("1", field("a", "string", None))], None))])], vec![]);
    reg.put_bundle("b1", b"1", Ok(b1)).unwrap();
    assert!(reg.get_all_renderers().is_empty());
    let b2 = bundle("b2", vec![("T", vec![("1", version(vec![("1", field("a", "string", None))], Some("https://x/r.js")))])], vec![]);
    reg.put_bundle("b2", b"2", Ok(b2)).unwrap();
    let v = reg.get_type_version("T", 1).unwrap();
    assert_eq!(v.renderer.as_ref().unwrap().esm_url, "https://x/r.js");
    // a later renderer does not replace it
    let b3 = bundle("b3", vec![("T", vec![("1", version(vec![("1", field("a", "string", None))], Some("https://y/r.js")))])], vec![]);
    reg.put_bundle("b3", b"3", Ok(b3)).unwrap();
    assert_eq!(reg.get_type_version("T", 1).unwrap().renderer.as_ref().unwrap().esm_url, "https://x/r.js");
}

#[test]
fn items_are_read_in_every_form() {
    let s = |t: &str| JsonValue::Str(t.to_string());
    let obj = |pairs: Vec<(&str, JsonValue)>| {
        let (k, v): (Vec<String>, Vec<JsonValue>) = pairs.into_iter().map(|(k, v)| (k.to_string(), v)).unzip();
        JsonValue::Object(k, v)
    };
    assert!(matches!(items_spec(&Some(s("string"))), Some(ItemsSpec::Simple(t)) if t == "string"));
    assert!(matches!(items_spec(&Some(obj(vec![("type", s("ref")), ("ref", s("cxdb:Item"))]))), Some(ItemsSpec::Ref(t)) if t == "cxdb:Item"));
    assert!(matches!(items_spec(&Some(obj(vec![("ref", s("cxdb.ToolCallItem"))]))), Some(ItemsSpec::Ref(t)) if t == "cxdb.ToolCallItem"));
    assert!(matches!(items_spec(&Some(obj(vec![("type", s("int64"))]))), Some(ItemsSpec::Simple(t)) if t == "int64"));
    assert!(items_spec(&Some(obj(vec![("type", s("ref"))]))).is_none());
    assert!(items_spec(&Some(JsonValue::UInt(3))).is_none());
    assert!(items_spec(&None).is_none());
}

#[test]
fn normalize_keeps_the_last_field_for_a_tag() {
    let mut def = version(vec![("1", field("a", "string", None)), ("01", field("b", "int64", None))], None);
    def.fields[0].1.optional = Some(true);
    let v = normalize_version(7, &def).unwrap();
    assert_eq!(v.version, 7);
    assert_eq!(v.fields.len(), 1);
    assert_eq!(v.fields[0].0, 1);
    assert_eq!(v.fields[0].1.name, "b");
    assert!(!v.fields[0].1.optional);
}

#[test]
fn bundle_file_names_are_safe() {
    assert_eq!(bundle_filename("2025-12-19T00:00:00Z#test"), "bundle_2025-12-19T00_00_00Z_test.json");
    assert_eq!(bundle_filename("a/b"), "bundle_a_b.json");
}

#[test]
fn loaded_bundles_are_stored_under_their_id() {
    let mut reg = Registry::new();
    let err = reg.load_bundle(b"{", Err("EOF".to_string())).unwrap_err();
    assert_eq!(err, StoreError::Corrupt("invalid bundle json: EOF".to_string()));
    reg.load_bundle(b"raw", Ok(message_bundle("disk"))).unwrap();
    assert_eq!(reg.get_bundle("disk"), Some(&b"raw"[..]));
    assert_eq!(reg.last_bundle_id(), Some("disk".to_string()));
    // loading the same id again replaces the bytes
    reg.load_bundle(b"raw2", Ok(message_bundle("disk"))).unwrap();
    assert_eq!(reg.get_bundle("disk"), Some(&b"raw2"[..]));
    assert_eq!(reg.stats().bundles_total, 1);
}
