use geometric_pyo3::{config_from_toml, parse_config, toml2py, toml2py_val, tomlstr2py, ConfigError, ConfigValue, HostValue};

fn keys(entries: &[(String, HostValue)]) -> Vec<&str> {
    entries.iter().map(|(k, _)| k.as_str()).collect()
}

fn lookup<'a>(entries: &'a [(String, HostValue)], key: &str) -> &'a HostValue {
    &entries.iter().find(|(k, _)| k == key).unwrap().1
}

#[test]
fn test_toml2py() {
    let toml_str = r#"
        [package]
        name = "example"
        version = "0.1.0"
        authors = ["Alice", "Bob"]
        license = "MIT"
        description = "An example package"
        keywords = ["example", "rust", "toml"]
        homepage = "https://example.com"
        repository = ""
        [dependencies]
        pyo3 = { version = "0.15", features = ["extension-module"] }
        numpy = "1.21"
        [features]
        default = ["numpy"]
        optional = ["numpy"]
        [build]
        build = "build.rs"
    "#;
    let dict = tomlstr2py(toml_str).unwrap();
    println!("Converted TOML to PyObject: {:?}", dict);
    assert_eq!(keys(&dict.entries), vec!["package", "dependencies", "features", "build"]);
    match lookup(&dict.entries, "package") {
        HostValue::Dict(p) => {
            assert_eq!(
                keys(p),
                vec!["name", "version", "authors", "license", "description", "keywords", "homepage", "repository"]
            );
            assert_eq!(lookup(p, "repository"), &HostValue::Str(String::new()));
            assert_eq!(
                lookup(p, "authors"),
                &HostValue::List(vec![HostValue::Str("Alice".to_string()), HostValue::Str("Bob".to_string())])
            );
        },
        other => panic!("package is not a mapping: {:?}", other),
    }
    match lookup(&dict.entries, "dependencies") {
        HostValue::Dict(d) => match lookup(d, "pyo3") {
            HostValue::Dict(p) => assert_eq!(keys(p), vec!["version", "features"]),
            other => panic!("pyo3 is not a mapping: {:?}", other),
        },
        other => panic!("dependencies is not a mapping: {:?}", other),
    }
}

#[test]
fn test_toml2py_2() {
    let toml_str = r#"
    convergence_energy =   1.0e-8
    convergence_grms =     1.0e-6
    convergence_gmax =     1.0e-6
    convergence_drms =     1.0e-4
    convergence_dmax =     1.0e-4
    "#;
    let dict = tomlstr2py(toml_str).unwrap();
    println!("Converted TOML to PyObject: {:?}", dict);
    assert_eq!(
        keys(&dict.entries),
        vec!["convergence_energy", "convergence_grms", "convergence_gmax", "convergence_drms", "convergence_dmax"]
    );
    assert_eq!(lookup(&dict.entries, "convergence_energy"), &HostValue::Float(1.0e-8f64.to_bits()));
    assert_eq!(lookup(&dict.entries, "convergence_drms"), &HostValue::Float(1.0e-4f64.to_bits()));
}

#[test]
fn scalars_keep_their_kind() {
    let dict = tomlstr2py("flag = true\nother = false\ncount = 3\nratio = 0.5\nname = \"x\"\n").unwrap();
    assert_eq!(lookup(&dict.entries, "flag"), &HostValue::Bool(true));
    assert_eq!(lookup(&dict.entries, "other"), &HostValue::Bool(false));
    assert_eq!(lookup(&dict.entries, "count"), &HostValue::Int(3));
    assert_eq!(lookup(&dict.entries, "ratio"), &HostValue::Float(0.5f64.to_bits()));
    assert_eq!(lookup(&dict.entries, "name"), &HostValue::Str("x".to_string()));
}

#[test]
fn datetime_becomes_its_text() {
    let dict = tomlstr2py("when = 1979-05-27T07:32:00Z\nday = 1979-05-27\n").unwrap();
    assert_eq!(lookup(&dict.entries, "when"), &HostValue::Str("1979-05-27T07:32:00Z".to_string()));
    assert_eq!(lookup(&dict.entries, "day"), &HostValue::Str("1979-05-27".to_string()));
}

#[test]
fn parse_keeps_document_order() {
    let tree = parse_config("zeta = 1\nalpha = [3, 1, 2]\n[mid]\nb = 1\na = 2\n").unwrap();
    match tree {
        ConfigValue::Table(t) => {
            let ks: Vec<&str> = t.iter().map(|(k, _)| k.as_str()).collect();
            assert_eq!(ks, vec!["zeta", "alpha", "mid"]);
            assert_eq!(
                t[1].1,
                ConfigValue::Array(vec![ConfigValue::Integer(3), ConfigValue::Integer(1), ConfigValue::Integer(2)])
            );
            match &t[2].1 {
                ConfigValue::Table(m) => {
                    let ks: Vec<&str> = m.iter().map(|(k, _)| k.as_str()).collect();
                    assert_eq!(ks, vec!["b", "a"]);
                },
                other => panic!("mid is not a table: {:?}", other),
            }
        },
        other => panic!("root is not a table: {:?}", other),
    }
}

#[test]
fn round_trip_through_text() {
    let mut inner = toml::Table::new();
    inner.insert("on".to_string(), toml::Value::Boolean(true));
    inner.insert("steps".to_string(), toml::Value::Integer(-7));
    let mut root = toml::Table::new();
    root.insert("thresh".to_string(), toml::Value::Float(2.5e-3));
    root.insert("flags".to_string(), toml::Value::Array(vec![toml::Value::Boolean(false), toml::Value::Integer(1)]));
    root.insert("label".to_string(), toml::Value::String("ts".to_string()));
    root.insert("opts".to_string(), toml::Value::Table(inner));
    let text = toml::to_string(&toml::Value::Table(root)).unwrap();
    let dict = tomlstr2py(&text).unwrap();
    assert_eq!(keys(&dict.entries), vec!["thresh", "flags", "label", "opts"]);
    assert_eq!(lookup(&dict.entries, "thresh"), &HostValue::Float(2.5e-3f64.to_bits()));
    assert_eq!(
        lookup(&dict.entries, "flags"),
        &HostValue::List(vec![HostValue::Bool(false), HostValue::Int(1)])
    );
    assert_eq!(lookup(&dict.entries, "label"), &HostValue::Str("ts".to_string()));
    assert_eq!(
        lookup(&dict.entries, "opts"),
        &HostValue::Dict(vec![("on".to_string(), HostValue::Bool(true)), ("steps".to_string(), HostValue::Int(-7))])
    );
}

#[test]
fn malformed_text_is_a_parse_error() {
    match tomlstr2py("key = = 1") {
        Err(ConfigError::Parse(msg)) => assert!(!msg.is_empty()),
        other => panic!("expected a parse error, got {:?}", other),
    }
    assert!(matches!(parse_config("[unclosed"), Err(ConfigError::Parse(_))));
}

#[test]
fn non_table_root_is_a_type_mismatch() {
    assert_eq!(toml2py(&ConfigValue::Integer(4)), Err(ConfigError::TypeMismatch));
    assert_eq!(toml2py(&ConfigValue::Array(vec![])), Err(ConfigError::TypeMismatch));
    let ok = toml2py(&ConfigValue::Table(vec![])).unwrap();
    assert!(ok.entries.is_empty());
}

#[test]
fn value_conversion_per_variant() {
    assert_eq!(toml2py_val(&ConfigValue::String("a".to_string())), HostValue::Str("a".to_string()));
    assert_eq!(toml2py_val(&ConfigValue::Integer(i64::MIN)), HostValue::Int(i64::MIN));
    assert_eq!(toml2py_val(&ConfigValue::Float(7)), HostValue::Float(7));
    assert_eq!(toml2py_val(&ConfigValue::Boolean(true)), HostValue::Bool(true));
    assert_eq!(
        toml2py_val(&ConfigValue::Datetime("07:32:00".to_string())),
        HostValue::Str("07:32:00".to_string())
    );
    assert_eq!(
        toml2py_val(&ConfigValue::Table(vec![(
            "k".to_string(),
            ConfigValue::Array(vec![ConfigValue::Boolean(false)])
        )])),
        HostValue::Dict(vec![("k".to_string(), HostValue::List(vec![HostValue::Bool(false)]))])
    );
}

#[test]
fn empty_document_is_an_empty_mapping() {
    let dict = tomlstr2py("# only a comment\n").unwrap();
    assert!(dict.entries.is_empty());
}

#[test]
fn commented_parameters_with_transition_flag() {
    let toml_str = r#"
        transition = true # evaluate transition state
        convergence_energy   = 1.0e-8  # Eh
        convergence_grms     = 1.0e-6  # Eh/Bohr
        convergence_gmax     = 1.0e-6  # Eh/Bohr
        convergence_drms     = 1.0e-4  # Angstrom
        convergence_dmax     = 1.0e-4  # Angstrom
    "#;
    let dict = tomlstr2py(toml_str).unwrap();
    assert_eq!(
        keys(&dict.entries),
        vec!["transition", "convergence_energy", "convergence_grms", "convergence_gmax", "convergence_drms", "convergence_dmax"]
    );
    assert_eq!(lookup(&dict.entries, "transition"), &HostValue::Bool(true));
    assert_eq!(lookup(&dict.entries, "convergence_grms"), &HostValue::Float(1.0e-6f64.to_bits()));
    assert_eq!(lookup(&dict.entries, "convergence_dmax"), &HostValue::Float(1.0e-4f64.to_bits()));
}

#[test]
fn text_conversion_is_parse_then_root_conversion() {
    let text = "a = 1\nb = [true, 2.0]\n[c]\nd = \"e\"\n";
    let tree = parse_config(text).unwrap();
    assert_eq!(tomlstr2py(text).unwrap(), toml2py(&tree).unwrap());
    let value: toml::Value = toml::from_str(text).unwrap();
    assert_eq!(config_from_toml(&value).unwrap(), tree);
}

#[test]
fn parsed_value_tree_keeps_every_kind() {
    let value: toml::Value =
        toml::from_str("s = \"x\"\ni = 4\nf = 1.0\nb = false\nt = 1979-05-27T00:32:00-07:00\n").unwrap();
    assert_eq!(
        config_from_toml(&value).unwrap(),
        ConfigValue::Table(vec![
            ("s".to_string(), ConfigValue::String("x".to_string())),
            ("i".to_string(), ConfigValue::Integer(4)),
            ("f".to_string(), ConfigValue::Float(1.0f64.to_bits())),
            ("b".to_string(), ConfigValue::Boolean(false)),
            ("t".to_string(), ConfigValue::Datetime("1979-05-27T00:32:00-07:00".to_string())),
        ])
    );
    assert_eq!(config_from_toml(&toml::Value::Integer(3)).unwrap(), ConfigValue::Integer(3));
}

#[test]
fn document_read_as_a_datetime_is_a_type_mismatch() {
    let text = "\"$__toml_private_datetime\" = \"1979-05-27T07:32:00Z\"\n";
    assert_eq!(tomlstr2py(text), Err(ConfigError::TypeMismatch));
    assert_eq!(parse_config(text), Err(ConfigError::TypeMismatch));
}
