use cxdb::client::json::JsonValue;
use cxdb::server::projection::{
    project_msgpack, render_value, BytesRender, EnumRender, RenderOptions, TimeRender, U64Format,
};
use cxdb::server::msgpack::MsgValue;
use cxdb::server::registry::{FieldDef, PutOutcome, Registry, RegistryBundle, RendererSpec, TypeEntry, TypeVersion};
use rmpv::Value;

fn default_options() -> RenderOptions {
    RenderOptions {
        bytes_render: BytesRender::Base64,
        u64_format: U64Format::String,
        enum_render: EnumRender::Label,
        time_render: TimeRender::Iso,
        include_unknown: true,
    }
}

fn json_value(v: &serde_json::Value) -> JsonValue {
    match v {
        serde_json::Value::Null => JsonValue::Null,
        serde_json::Value::Bool(b) => JsonValue::Bool(*b),
        serde_json::Value::Number(n) => match (n.as_u64(), n.as_i64()) {
            (Some(u), _) => JsonValue::UInt(u),
            (None, Some(i)) => JsonValue::NegInt(i),
            _ => JsonValue::Float(n.to_string()),
        },
        serde_json::Value::String(s) => JsonValue::Str(s.clone()),
        serde_json::Value::Array(a) => JsonValue::Array(a.iter().map(json_value).collect()),
        serde_json::Value::Object(m) => JsonValue::Object(m.keys().cloned().collect(), m.values().map(json_value).collect()),
    }
}

fn text(v: &serde_json::Value, key: &str) -> Option<String> {
    v.get(key).and_then(|x| x.as_str()).map(|s| s.to_string())
}

fn entries(v: &serde_json::Value, key: &str) -> Vec<(String, serde_json::Value)> {
    match v.get(key).and_then(|x| x.as_object()) {
        Some(m) => m.iter().map(|(k, v)| (k.clone(), v.clone())).collect(),
        None => Vec::new(),
    }
}

/// The bundle a JSON text describes, read as the server's bundle format.
fn parse_bundle(raw: &str) -> RegistryBundle {
    let doc: serde_json::Value = serde_json::from_str(raw).unwrap();
    let types = entries(&doc, "types")
        .into_iter()
        .map(|(id, t)| {
            let versions = entries(&t, "versions")
                .into_iter()
                .map(|(ver, def)| {
                    let fields = entries(&def, "fields")
                        .into_iter()
                        .map(|(tag, f)| {
                            (
                                tag,
                                FieldDef {
                                    name: text(&f, "name").unwrap(),
                                    field_type: text(&f, "type").unwrap(),
                                    enum_ref: text(&f, "enum"),
                                    type_ref: text(&f, "ref"),
                                    optional: f.get("optional").and_then(|x| x.as_bool()),
                                    items: f.get("items").map(json_value),
                                },
                            )
                        })
                        .collect();
                    let renderer = def.get("renderer").map(|r| RendererSpec {
                        esm_url: text(r, "esm_url").unwrap(),
                        component: text(r, "component"),
                        integrity: text(r, "integrity"),
                    });
                    (ver, TypeVersion { fields, renderer })
                })
                .collect();
            (id, TypeEntry { versions })
        })
        .collect();
    let enums = entries(&doc, "enums")
        .into_iter()
        .map(|(id, m)| {
            let map = m.as_object().unwrap().iter().map(|(k, v)| (k.clone(), v.as_str().unwrap().to_string())).collect();
            (id, map)
        })
        .collect();
    RegistryBundle {
        registry_version: doc["registry_version"].as_u64().unwrap() as u32,
        bundle_id: text(&doc, "bundle_id").unwrap(),
        types,
        enums,
    }
}

fn put(registry: &mut Registry, id: &str, raw: &str) {
    assert_eq!(registry.put_bundle(id, raw.as_bytes(), Ok(parse_bundle(raw))).expect("put bundle"), PutOutcome::Created);
}

fn encode(value: &Value) -> Vec<u8> {
    let mut buf = Vec::new();
    rmpv::encode::write_value(&mut buf, value).expect("encode msgpack");
    buf
}

fn get<'a>(v: &'a JsonValue, key: &str) -> Option<&'a JsonValue> {
    match v {
        JsonValue::Object(keys, values) => keys.iter().position(|k| k == key).map(|i| &values[i]),
        _ => None,
    }
}

fn as_str(v: &JsonValue) -> &str {
    match v {
        JsonValue::Str(s) => s.as_str(),
        other => panic!("not a string: {other:?}"),
    }
}

fn as_i64(v: &JsonValue) -> i64 {
    match v {
        JsonValue::UInt(u) => *u as i64,
        JsonValue::NegInt(i) => *i,
        other => panic!("not an integer: {other:?}"),
    }
}

fn as_array(v: &JsonValue) -> &Vec<JsonValue> {
    match v {
        JsonValue::Array(a) => a,
        other => panic!("not an array: {other:?}"),
    }
}

fn mint(i: i64) -> Value {
    Value::Integer(i.into())
}

fn s(t: &str) -> Value {
    Value::String(t.into())
}

#[test]
fn registry_ingest_and_project() {
    let mut registry = Registry::new();
    let bundle = r#"
    {
      "registry_version": 1,
      "bundle_id": "2025-12-19T00:00:00Z#test",
      "types": {
        "com.example.Message": {
          "versions": {
            "1": {
              "fields": {
                "1": { "name": "role", "type": "u8", "enum": "com.example.Role" },
                "2": { "name": "text", "type": "string" }
              }
            }
          }
        }
      },
      "enums": {
        "com.example.Role": { "1": "system", "2": "user" }
      }
    }
    "#;
    put(&mut registry, "2025-12-19T00:00:00Z#test", bundle);
    let desc = registry.get_type_version("com.example.Message", 1).expect("descriptor");
    let value = Value::Map(vec![(mint(1), mint(2)), (mint(2), s("hello")), (mint(9), mint(42))]);
    let projection = project_msgpack(&encode(&value), desc, &registry, &default_options()).expect("project");
    assert_eq!(as_str(get(&projection.data, "role").unwrap()), "user");
    assert_eq!(as_str(get(&projection.data, "text").unwrap()), "hello");
    let unknown = projection.unknown.expect("unknown");
    assert!(get(&unknown, "9").is_some());
}

#[test]
fn nested_type_references() {
    let mut registry = Registry::new();
    let bundle = r#"
    {
      "registry_version": 1,
      "bundle_id": "nested-test",
      "types": {
        "test:Item": {
          "versions": {
            "1": {
              "fields": {
                "1": { "name": "item_type", "type": "string" },
                "2": { "name": "nested", "type": "ref", "ref": "test:Nested" },
                "3": { "name": "items", "type": "array", "items": { "type": "ref", "ref": "test:ArrayItem" } }
              }
            }
          }
        },
        "test:Nested": {
          "versions": { "1": { "fields": {
            "1": { "name": "name", "type": "string" },
            "2": { "name": "value", "type": "int64" }
          } } }
        },
        "test:ArrayItem": {
          "versions": { "1": { "fields": {
            "1": { "name": "id", "type": "string" },
            "2": { "name": "count", "type": "int32" }
          } } }
        }
      },
      "enums": {}
    }
    "#;
    put(&mut registry, "nested-test", bundle);
    let desc = registry.get_type_version("test:Item", 1).expect("descriptor");
    let nested = Value::Map(vec![(mint(1), s("bar")), (mint(2), mint(42))]);
    let item = Value::Map(vec![(mint(1), s("x")), (mint(2), mint(1))]);
    let value = Value::Map(vec![(mint(1), s("foo")), (mint(2), nested), (mint(3), Value::Array(vec![item]))]);
    let projection = project_msgpack(&encode(&value), desc, &registry, &default_options()).expect("project");
    let data = &projection.data;
    assert_eq!(as_str(get(data, "item_type").unwrap()), "foo");
    let nested = get(data, "nested").unwrap();
    assert_eq!(as_str(get(nested, "name").unwrap()), "bar");
    assert_eq!(as_str(get(nested, "value").unwrap()), "42");
    let items = as_array(get(data, "items").unwrap());
    assert_eq!(items.len(), 1);
    assert_eq!(as_str(get(&items[0], "id").unwrap()), "x");
    assert_eq!(as_i64(get(&items[0], "count").unwrap()), 1);
}

#[test]
fn bundle_with_renderer_parses() {
    let mut registry = Registry::new();
    let bundle = r#"
    {
      "registry_version": 1,
      "bundle_id": "renderer-test",
      "types": {
        "test:Message": {
          "versions": {
            "1": {
              "fields": { "1": { "name": "text", "type": "string" } },
              "renderer": {
                "esm_url": "builtin:MessageRenderer",
                "component": "MessageRendererWrapper",
                "integrity": "sha384-abc123"
              }
            }
          }
        }
      },
      "enums": {}
    }
    "#;
    put(&mut registry, "renderer-test", bundle);
    let spec = registry.get_type_version("test:Message", 1).expect("type version");
    let renderer = spec.renderer.as_ref().expect("renderer should exist");
    assert_eq!(renderer.esm_url, "builtin:MessageRenderer");
    assert_eq!(renderer.component.as_ref().unwrap(), "MessageRendererWrapper");
    assert_eq!(renderer.integrity.as_ref().unwrap(), "sha384-abc123");
}

#[test]
fn bundle_without_renderer_backward_compat() {
    let mut registry = Registry::new();
    let bundle = r#"
    {
      "registry_version": 1,
      "bundle_id": "no-renderer-test",
      "types": {
        "test:OldType": {
          "versions": { "1": { "fields": { "1": { "name": "value", "type": "int32" } } } }
        }
      },
      "enums": {}
    }
    "#;
    put(&mut registry, "no-renderer-test", bundle);
    let spec = registry.get_type_version("test:OldType", 1).expect("type version");
    assert!(spec.renderer.is_none(), "renderer should be None for old bundles");
    assert!(spec.fields.iter().any(|(t, _)| *t == 1));
}

#[test]
fn get_all_renderers() {
    let mut registry = Registry::new();
    let bundle = r#"
    {
      "registry_version": 1,
      "bundle_id": "multi-renderer-test",
      "types": {
        "test:TypeA": {
          "versions": { "1": {
            "fields": { "1": { "name": "a", "type": "string" } },
            "renderer": { "esm_url": "builtin:RendererA" }
          } }
        },
        "test:TypeB": {
          "versions": { "1": { "fields": { "1": { "name": "b", "type": "string" } } } }
        },
        "test:TypeC": {
          "versions": {
            "1": { "fields": { "1": { "name": "c1", "type": "string" } } },
            "2": {
              "fields": { "1": { "name": "c2", "type": "string" } },
              "renderer": { "esm_url": "builtin:RendererC", "component": "CWrapper" }
            }
          }
        }
      },
      "enums": {}
    }
    "#;
    put(&mut registry, "multi-renderer-test", bundle);
    let renderers = registry.get_all_renderers();
    let find = |id: &str| renderers.iter().find(|(t, _)| t == id).map(|(_, r)| r);
    assert_eq!(find("test:TypeA").unwrap().esm_url, "builtin:RendererA");
    assert!(find("test:TypeB").is_none());
    let c = find("test:TypeC").unwrap();
    assert_eq!(c.esm_url, "builtin:RendererC");
    assert_eq!(c.component.as_ref().unwrap(), "CWrapper");
}

#[test]
fn map_with_ref_recursively_projects() {
    let mut registry = Registry::new();
    let bundle = r#"
    {
      "registry_version": 1,
      "bundle_id": "map-ref-test",
      "types": {
        "test:Outer": {
          "versions": { "1": { "fields": {
            "1": { "name": "item_type", "type": "string" },
            "13": { "name": "handoff", "type": "map", "ref": "test:Inner", "optional": true }
          } } }
        },
        "test:Inner": {
          "versions": { "1": { "fields": {
            "1": { "name": "from_agent", "type": "string" },
            "2": { "name": "to_agent", "type": "string" },
            "5": { "name": "reason", "type": "string" }
          } } }
        }
      },
      "enums": {}
    }
    "#;
    put(&mut registry, "map-ref-test", bundle);
    let desc = registry.get_type_version("test:Outer", 1).expect("descriptor");
    let inner = Value::Map(vec![(mint(1), s("root")), (mint(2), s("explorer")), (mint(5), s("delegation"))]);
    let value = Value::Map(vec![(mint(1), s("handoff")), (mint(13), inner)]);
    let projection = project_msgpack(&encode(&value), desc, &registry, &default_options()).expect("project");
    let data = &projection.data;
    assert_eq!(as_str(get(data, "item_type").unwrap()), "handoff");
    let handoff = get(data, "handoff").expect("handoff field present");
    assert_eq!(as_str(get(handoff, "from_agent").unwrap()), "root");
    assert_eq!(as_str(get(handoff, "to_agent").unwrap()), "explorer");
    assert_eq!(as_str(get(handoff, "reason").unwrap()), "delegation");
    assert!(get(handoff, "1").is_none(), "numeric key '1' should not appear in typed view");
    assert!(get(handoff, "2").is_none(), "numeric key '2' should not appear in typed view");
}

#[test]
fn array_shorthand_ref_recursively_projects() {
    let mut registry = Registry::new();
    let bundle = r#"
    {
      "registry_version": 1,
      "bundle_id": "shorthand-ref-test",
      "types": {
        "test:Parent": {
          "versions": { "1": { "fields": {
            "1": { "name": "label", "type": "string" },
            "2": { "name": "children", "type": "array", "items": { "ref": "test:Child" }, "optional": true }
          } } }
        },
        "test:Child": {
          "versions": { "1": { "fields": {
            "1": { "name": "name", "type": "string" },
            "2": { "name": "score", "type": "int32" }
          } } }
        }
      },
      "enums": {}
    }
    "#;
    put(&mut registry, "shorthand-ref-test", bundle);
    let desc = registry.get_type_version("test:Parent", 1).expect("descriptor");
    let child = Value::Map(vec![(mint(1), s("a")), (mint(2), mint(10))]);
    let value = Value::Map(vec![(mint(1), s("grp")), (mint(2), Value::Array(vec![child]))]);
    let projection = project_msgpack(&encode(&value), desc, &registry, &default_options()).expect("project");
    let data = &projection.data;
    assert_eq!(as_str(get(data, "label").unwrap()), "grp");
    let children = as_array(get(data, "children").unwrap());
    assert_eq!(children.len(), 1);
    assert_eq!(as_str(get(&children[0], "name").unwrap()), "a");
    assert_eq!(as_i64(get(&children[0], "score").unwrap()), 10);
    assert!(get(&children[0], "1").is_none(), "numeric key '1' should not appear in shorthand ref array items");
}

fn build_nested_registry_with_unknown() -> Registry {
    let mut registry = Registry::new();
    let bundle = r#"
    {
      "registry_version": 1,
      "bundle_id": "unknown-nested-test",
      "types": {
        "test:Root": {
          "versions": { "1": { "fields": {
            "1": { "name": "label", "type": "string" },
            "2": { "name": "nested", "type": "ref", "ref": "test:Nested" },
            "3": { "name": "items", "type": "array", "items": { "ref": "test:ArrayItem" } }
          } } }
        },
        "test:Nested": { "versions": { "1": { "fields": { "1": { "name": "name", "type": "string" } } } } },
        "test:ArrayItem": { "versions": { "1": { "fields": { "1": { "name": "id", "type": "string" } } } } }
      },
      "enums": {}
    }
    "#;
    put(&mut registry, "unknown-nested-test", bundle);
    registry
}

fn nested_payload() -> Vec<u8> {
    let nested = Value::Map(vec![(mint(1), s("known")), (mint(99), s("extra_nested"))]);
    encode(&Value::Map(vec![(mint(1), s("hello")), (mint(2), nested), (mint(3), Value::Array(vec![]))]))
}

#[test]
fn nested_ref_includes_unknown_tags() {
    let registry = build_nested_registry_with_unknown();
    let desc = registry.get_type_version("test:Root", 1).expect("descriptor");
    let options = RenderOptions { include_unknown: true, ..default_options() };
    let projection = project_msgpack(&nested_payload(), desc, &registry, &options).expect("project");
    let nested = get(&projection.data, "nested").unwrap();
    assert_eq!(as_str(get(nested, "name").unwrap()), "known");
    let nested_unknown = get(nested, "_unknown").expect("nested _unknown must be present when include_unknown=true");
    assert_eq!(as_str(get(nested_unknown, "99").unwrap()), "extra_nested");
}

#[test]
fn nested_ref_omits_unknown_when_disabled() {
    let registry = build_nested_registry_with_unknown();
    let desc = registry.get_type_version("test:Root", 1).expect("descriptor");
    let options = RenderOptions { include_unknown: false, ..default_options() };
    let projection = project_msgpack(&nested_payload(), desc, &registry, &options).expect("project");
    let nested = get(&projection.data, "nested").unwrap();
    assert!(get(nested, "_unknown").is_none(), "_unknown should not appear when include_unknown is false");
    assert!(projection.unknown.is_none());
}

#[test]
fn array_ref_items_include_unknown_tags() {
    let registry = build_nested_registry_with_unknown();
    let desc = registry.get_type_version("test:Root", 1).expect("descriptor");
    let item_a = Value::Map(vec![(mint(1), s("item_a")), (mint(50), mint(123))]);
    let item_b = Value::Map(vec![(mint(1), s("item_b"))]);
    let value = Value::Map(vec![
        (mint(1), s("hello")),
        (mint(2), Value::Map(vec![(mint(1), s("n"))])),
        (mint(3), Value::Array(vec![item_a, item_b])),
    ]);
    let options = RenderOptions { include_unknown: true, ..default_options() };
    let projection = project_msgpack(&encode(&value), desc, &registry, &options).expect("project");
    let items = as_array(get(&projection.data, "items").unwrap());
    assert_eq!(items.len(), 2);
    assert_eq!(as_str(get(&items[0], "id").unwrap()), "item_a");
    assert!(get(get(&items[0], "_unknown").expect("first item _unknown must be present"), "50").is_some());
    assert_eq!(as_str(get(&items[1], "id").unwrap()), "item_b");
    assert!(get(&items[1], "_unknown").is_none(), "_unknown should not appear when there are no unknown tags");
}

#[test]
fn render_options_shape_values() {
    let bytes = MsgValue::Binary(vec![0xde, 0xad]);
    let hex = RenderOptions { bytes_render: BytesRender::Hex, ..default_options() };
    assert_eq!(as_str(&render_value(&bytes, &hex)), "dead");
    assert_eq!(as_str(&render_value(&bytes, &default_options())), "3q0=");
    let len = RenderOptions { bytes_render: BytesRender::LenOnly, ..default_options() };
    assert_eq!(as_i64(&render_value(&bytes, &len)), 2);
    let num = RenderOptions { u64_format: U64Format::Number, ..default_options() };
    assert_eq!(as_i64(&render_value(&MsgValue::UInt(7), &num)), 7);
    assert_eq!(as_str(&render_value(&MsgValue::UInt(7), &default_options())), "7");
    let payload = encode(&mint(3));
    let mut registry = Registry::new();
    put(&mut registry, "b", r#"{"registry_version":1,"bundle_id":"b","types":{"T":{"versions":{"1":{"fields":{
        "1":{"name":"at","type":"unix_ms"},
        "2":{"name":"kind","type":"u8","enum":"E"}}}}}},"enums":{"E":{"1":"one"}}}"#);
    let desc = registry.get_type_version("T", 1).unwrap();
    match project_msgpack(&payload, desc, &registry, &default_options()) {
        Err(e) => assert_eq!(e, cxdb::server::error::StoreError::InvalidInput("payload is not a map".to_string())),
        Ok(_) => panic!("expected an error"),
    }
    let value = Value::Map(vec![(mint(1), mint(0)), (mint(2), mint(1))]);
    let both = RenderOptions { enum_render: EnumRender::Both, ..default_options() };
    let p = project_msgpack(&encode(&value), desc, &registry, &both).unwrap();
    assert_eq!(as_str(get(&p.data, "at").unwrap()), "1970-01-01T00:00:00+00:00");
    let kind = get(&p.data, "kind").unwrap();
    assert_eq!(as_str(get(kind, "label").unwrap()), "one");
    assert_eq!(as_i64(get(kind, "value").unwrap()), 1);
    assert!(project_msgpack(&[0x92], desc, &registry, &both).is_err());
}
