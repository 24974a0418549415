use zeroclaw::layered::{
    apply_layer_texts, apply_layered_files, default_layered_paths, join_path, merge_values,
    parse_layer, ConfigValue, LayerSource,
};

fn table(entries: Vec<(&str, ConfigValue)>) -> ConfigValue {
    ConfigValue::Table(entries.into_iter().map(|(k, v)| (k.to_string(), v)).collect())
}

fn get<'a>(v: &'a ConfigValue, k: &str) -> Option<&'a ConfigValue> {
    match v {
        ConfigValue::Table(es) => es.iter().find(|(key, _)| key == k).map(|(_, v)| v),
        ConfigValue::Leaf(_) => None,
    }
}

fn leaf(v: &ConfigValue) -> Option<u64> {
    match v {
        ConfigValue::Leaf(h) => Some(*h),
        ConfigValue::Table(_) => None,
    }
}

#[test]
fn paths_of_layers() {
    let p = default_layered_paths("/ws", Some("/home/u".to_string()));
    assert_eq!(p.user.as_deref(), Some("/home/u/.zeroclaw/config.toml"));
    assert_eq!(p.project.as_deref(), Some("/ws/.zeroclaw/config.toml"));
    assert_eq!(p.local.as_deref(), Some("/ws/.zeroclaw/config.local.toml"));
    let q = default_layered_paths("/ws/", None);
    assert!(q.user.is_none());
    assert_eq!(q.project.as_deref(), Some("/ws/.zeroclaw/config.toml"));
    assert_eq!(join_path("", "a"), "a");
}

#[test]
fn merge_overrides_and_keeps() {
    let mut base = table(vec![
        ("a", ConfigValue::Leaf(1)),
        ("t", table(vec![("x", ConfigValue::Leaf(2)), ("y", ConfigValue::Leaf(3))])),
    ]);
    let over = table(vec![
        ("t", table(vec![("y", ConfigValue::Leaf(30)), ("z", ConfigValue::Leaf(40))])),
        ("b", ConfigValue::Leaf(5)),
    ]);
    merge_values(&mut base, over);
    assert_eq!(get(&base, "a").and_then(leaf), Some(1));
    assert_eq!(get(&base, "b").and_then(leaf), Some(5));
    let t = get(&base, "t").unwrap();
    assert_eq!(get(t, "x").and_then(leaf), Some(2));
    assert_eq!(get(t, "y").and_then(leaf), Some(30));
    assert_eq!(get(t, "z").and_then(leaf), Some(40));
}

#[test]
fn merge_non_table_replaces() {
    let mut base = table(vec![("a", ConfigValue::Leaf(1))]);
    merge_values(&mut base, ConfigValue::Leaf(9));
    assert_eq!(leaf(&base), Some(9));
    let mut base = ConfigValue::Leaf(1);
    merge_values(&mut base, table(vec![("a", ConfigValue::Leaf(2))]));
    assert_eq!(get(&base, "a").and_then(leaf), Some(2));
}

#[test]
fn later_layers_override_earlier() {
    let base = table(vec![("k", ConfigValue::Leaf(0)), ("keep", ConfigValue::Leaf(7))]);
    let layers = vec![
        LayerSource { path: "/u".to_string(), value: Some(table(vec![("k", ConfigValue::Leaf(1))])) },
        LayerSource { path: "/p".to_string(), value: None },
        LayerSource { path: "/l".to_string(), value: Some(table(vec![("k", ConfigValue::Leaf(3))])) },
    ];
    let out = apply_layered_files(base, "/orig".to_string(), "/ws".to_string(), layers);
    assert_eq!(get(&out.value, "k").and_then(leaf), Some(3));
    assert_eq!(get(&out.value, "keep").and_then(leaf), Some(7));
    assert_eq!(out.config_path, "/l");
    assert_eq!(out.last_path, "/l");
    assert_eq!(out.workspace_dir, "/ws");
}

#[test]
fn no_layers_keep_original_path() {
    let out = apply_layered_files(ConfigValue::Leaf(4), "/orig".to_string(), "/ws".to_string(), Vec::new());
    assert_eq!(leaf(&out.value), Some(4));
    assert_eq!(out.config_path, "/orig");
    let out = apply_layered_files(
        ConfigValue::Leaf(4),
        "/orig".to_string(),
        "/ws".to_string(),
        vec![LayerSource { path: String::new(), value: Some(ConfigValue::Leaf(5)) }],
    );
    assert_eq!(out.config_path, "/orig");
    assert_eq!(out.last_path, "");
}

#[test]
fn parse_layer_numbers_plain_values() {
    let mut leaves: Vec<toml::Value> = vec![toml::Value::Integer(0)];
    let v = parse_layer("a = 1\n[t]\nb = \"x\"\n", &mut leaves).unwrap();
    assert_eq!(get(&v, "a").and_then(leaf), Some(1));
    assert_eq!(get(&v, "t").and_then(|t| get(t, "b")).and_then(leaf), Some(2));
    assert_eq!(leaves.len(), 3);
    assert_eq!(leaves[1], toml::Value::Integer(1));
    assert_eq!(leaves[2], toml::Value::String("x".to_string()));
    assert!(parse_layer("= broken", &mut leaves).is_none());
    assert_eq!(leaves.len(), 3);
}

#[test]
fn layer_texts_are_parsed_and_merged() {
    let mut leaves: Vec<toml::Value> =
        vec![toml::Value::Integer(10), toml::Value::Integer(20)];
    let base = table(vec![("k", ConfigValue::Leaf(0)), ("keep", ConfigValue::Leaf(1))]);
    let layers = vec![
        ("/u".to_string(), Some("k = 5".to_string())),
        ("/p".to_string(), None),
        ("/l".to_string(), Some("k = = 6".to_string())),
    ];
    let out = apply_layer_texts(base, "/orig".to_string(), "/ws".to_string(), layers, &mut leaves);
    assert_eq!(get(&out.value, "k").and_then(leaf), Some(2));
    assert_eq!(get(&out.value, "keep").and_then(leaf), Some(1));
    assert_eq!(leaves[2], toml::Value::Integer(5));
    assert_eq!(out.config_path, "/u");
    assert_eq!(out.workspace_dir, "/ws");
}
