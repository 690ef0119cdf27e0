use herdr_layout::config::{key_text, parse_yaml, read_config_text, validate_config_root, Yaml, YamlKey};
use herdr_layout::model::{Layout, LayoutTarget};

fn target(label: &str, command: &str) -> LayoutTarget {
    LayoutTarget { label: label.to_string(), command: command.to_string() }
}

fn layout(tabs: Vec<LayoutTarget>) -> Layout {
    Layout { first_uses_current_tab: false, tabs }
}

fn yaml(raw: &str) -> Yaml {
    parse_yaml(raw).expect("test YAML parses")
}

#[test]
fn config_validation_accepts_slots_1_2_3() {
    let raw = yaml(
        r#"
layouts:
  "1":
    tabs:
      - label: one
        command: one
  "2":
    tabs:
      - label: two
        command: two
  "3":
    tabs:
      - label: three
        command: three
"#,
    );
    let got = validate_config_root(&raw, "cfg").unwrap();

    assert_eq!(got.len(), 3);
    assert_eq!(got.get("1"), Some(&layout(vec![target("one", "one")])));
    assert_eq!(got.get("2"), Some(&layout(vec![target("two", "two")])));
    assert_eq!(got.get("3"), Some(&layout(vec![target("three", "three")])));
}

#[test]
fn config_validation_rejects_invalid_shapes_fields_and_duplicate_labels() {
    let cases = [
        ("root", "null", "YAML root must be a map"),
        ("layouts", "{}", "layouts must be a map"),
        (
            "slot",
            r#"
layouts:
  "4":
    tabs:
      - label: api
        command: api
"#,
            "invalid layout slot 4",
        ),
        (
            "tabs",
            r#"
layouts:
  "1":
    tabs: []
"#,
            "tabs must be a non-empty list",
        ),
        (
            "label",
            r#"
layouts:
  "1":
    tabs:
      - label: ""
        command: api
"#,
            "label must be a non-empty string",
        ),
        (
            "command",
            r#"
layouts:
  "1":
    tabs:
      - label: api
        command: ""
"#,
            "command must be a non-empty string",
        ),
        (
            "duplicate",
            r#"
layouts:
  "1":
    tabs:
      - label: api
        command: api
      - label: api
        command: worker
"#,
            "duplicate tab label api",
        ),
    ];

    for (name, raw, fragment) in cases {
        let error = validate_config_root(&yaml(raw), &format!("cfg-{name}")).unwrap_err();
        assert!(error.contains(fragment), "{name}: {error}");
    }
}

#[test]
fn config_text_is_parsed_then_validated() {
    let got = read_config_text("layouts:\n  1:\n    tabs:\n      - label: a\n        command: a\n", "cfg").unwrap();
    assert_eq!(got.get("1"), Some(&layout(vec![target("a", "a")])));
    let error = read_config_text("layouts: [unclosed", "cfg.yaml").unwrap_err();
    assert!(error.starts_with("cfg.yaml: "), "{error}");
    assert!(error.len() > "cfg.yaml: ".len());
    assert_eq!(key_text(&YamlKey { value: Yaml::Null, debug: "Null".to_string() }), "Null");
    let keyed = read_config_text("layouts:\n  null:\n    tabs: []\n", "cfg").unwrap_err();
    assert_eq!(keyed, "cfg: invalid layout slot Null");
    let tagged_number = read_config_text("layouts:\n  !t 1:\n    tabs: []\n", "cfg").unwrap_err();
    assert!(tagged_number.starts_with("cfg: invalid layout slot TaggedValue"), "{tagged_number}");
    assert_eq!(parse_yaml("!tag x").unwrap(), Yaml::Tagged(Box::new(Yaml::String("x".to_string()))));
    assert_eq!(
        parse_yaml("{a: 1, true: [null]}").unwrap(),
        Yaml::Mapping(vec![
            (YamlKey { value: Yaml::String("a".to_string()), debug: "String(\"a\")".to_string() }, Yaml::Number("1".to_string())),
            (YamlKey { value: Yaml::Bool(true), debug: "Bool(true)".to_string() }, Yaml::Sequence(vec![Yaml::Null])),
        ])
    );
}
