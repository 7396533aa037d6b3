use contemplate::error::{DataSourceError, Error, ToDataSourceError};
use contemplate::jsontext::to_json_text;
use contemplate::parse::{classify_path, FileFormat};
use contemplate::source::{
    order_sources, parse_source_list, scalar_of_text, ConfigMap, Environment, File, Secret,
    Source, SourceRegistry,
};
use contemplate::value::ConfigValue;

fn pairs(list: Vec<(&str, &str)>) -> Vec<(String, String)> {
    list.into_iter().map(|(k, v)| (k.to_string(), v.to_string())).collect()
}

#[test]
fn environment_layer_with_prefix() {
    let src = Environment::new(Some("APP".to_string()));
    let layer = src.layer(&pairs(vec![("APP_X", "2"), ("OTHER_Y", "9")]));
    assert_eq!(to_json_text(&layer), "{\"x\":2}");
}

#[test]
fn environment_layer_nests_on_underscores() {
    let src = Environment::new(None);
    let layer = src.layer(&pairs(vec![("DB_HOST", "h"), ("DB_PORT", "5432")]));
    assert_eq!(
        to_json_text(&layer),
        "{\"db\":{\"host\":\"h\",\"port\":5432}}"
    );
}

#[test]
fn environment_later_variables_win() {
    let src = Environment::new(None);
    let layer = src.layer(&pairs(vec![("A", "1"), ("A", "2")]));
    assert_eq!(to_json_text(&layer), "{\"a\":2}");
}

#[test]
fn scalar_typing() {
    assert_eq!(to_json_text(&scalar_of_text("true")), "true");
    assert_eq!(to_json_text(&scalar_of_text("false")), "false");
    assert_eq!(to_json_text(&scalar_of_text("42")), "42");
    assert_eq!(to_json_text(&scalar_of_text("-7")), "-7");
    assert_eq!(to_json_text(&scalar_of_text("2.5")), "2.5");
    assert_eq!(to_json_text(&scalar_of_text("hello")), "\"hello\"");
    assert_eq!(to_json_text(&scalar_of_text("1.2.3")), "\"1.2.3\"");
}

#[test]
fn classify_by_extension() {
    assert!(matches!(classify_path(&"a/b.json".to_string()), Ok(FileFormat::Json)));
    assert!(matches!(classify_path(&"a/b.TOML".to_string()), Ok(FileFormat::Toml)));
    assert!(matches!(classify_path(&"x.yaml".to_string()), Ok(FileFormat::Yaml)));
    assert!(matches!(classify_path(&"x.yml".to_string()), Ok(FileFormat::Yaml)));
    assert!(matches!(
        classify_path(&"x.ini".to_string()),
        Err(Error::UnknownFileExtension { .. })
    ));
    assert!(matches!(
        classify_path(&"noext".to_string()),
        Err(Error::UnknownFileType { .. })
    ));
    assert!(matches!(
        classify_path(&"dir/.hidden".to_string()),
        Err(Error::UnknownFileType { .. })
    ));
}

#[test]
fn file_layer_parses_each_format() {
    let yaml = File::new("a.yaml".to_string());
    let v = yaml.layer("x: 1").unwrap();
    assert_eq!(to_json_text(&v), "{\"x\":1}");

    let json = File::new("a.json".to_string());
    let v = json.layer("{\"x\": [1, 2]}").unwrap();
    assert_eq!(to_json_text(&v), "{\"x\":[1,2]}");

    let toml = File::new("a.toml".to_string());
    let v = toml.layer("x = \"s\"").unwrap();
    assert_eq!(to_json_text(&v), "{\"x\":\"s\"}");
}

#[test]
fn file_layer_failures_are_fatal() {
    let bad_ext = File::new("a.conf".to_string());
    match bad_ext.layer("anything") {
        Err(e) => {
            assert!(e.is_fatal());
            assert!(matches!(e.into_error(), Error::UnknownFileExtension { .. }));
        }
        Ok(_) => panic!("unknown extension must be fatal"),
    }

    let bad_text = File::new("a.json".to_string());
    match bad_text.layer("{ not json") {
        Err(e) => {
            assert!(e.is_fatal());
            assert!(matches!(e.into_error(), Error::ParseError(_)));
        }
        Ok(_) => panic!("unparseable text must be fatal"),
    }
}

#[test]
fn configmap_layer_transforms_keys() {
    let cm = ConfigMap::new("cm".to_string(), None);
    let v = cm.layer(Some(&pairs(vec![("DB_HOST", "h")]))).unwrap();
    assert_eq!(to_json_text(&v), "{\"db\":{\"host\":\"h\"}}");
}

#[test]
fn configmap_absent_is_recoverable() {
    let cm = ConfigMap::new("cm".to_string(), None);
    match cm.layer(None) {
        Err(e) => {
            assert!(e.is_recoverable());
            assert!(matches!(e.into_error(), Error::ConfigMapDoesNotExist(_)));
        }
        Ok(_) => panic!("absent config map must be recoverable"),
    }
}

#[test]
fn secret_layer_exposes_bytes_and_text() {
    let sec = Secret::new("s".to_string(), None);
    let data: Vec<(String, Vec<u8>)> = vec![("TOKEN".to_string(), b"ab".to_vec())];
    let v = sec.layer(Some(&data)).unwrap();
    assert_eq!(
        to_json_text(&v),
        "{\"token\":{\"bytes\":[97,98],\"string\":\"ab\"}}"
    );

    let raw: Vec<(String, Vec<u8>)> = vec![("BIN".to_string(), vec![0xff])];
    let v = sec.layer(Some(&raw)).unwrap();
    assert_eq!(to_json_text(&v), "{\"bin\":{\"bytes\":[255]}}");
}

#[test]
fn registry_merges_in_registration_order() {
    // file A, environment, file B: interleaved kinds keep their order,
    // and later sources win at the leaves.
    let registry = SourceRegistry::new(vec![
        Source::File(File::new("a.yaml".to_string())),
        Source::Environment(Environment::new(Some("APP".to_string()))),
        Source::File(File::new("b.yaml".to_string())),
    ]);
    let outcomes = vec![
        Ok(ConfigValue::Tree(vec![
            ("x".to_string(), ConfigValue::Int(1)),
            ("y".to_string(), ConfigValue::Int(1)),
            ("z".to_string(), ConfigValue::Int(1)),
        ])),
        Ok(ConfigValue::Tree(vec![("y".to_string(), ConfigValue::Int(2))])),
        Ok(ConfigValue::Tree(vec![("z".to_string(), ConfigValue::Int(3))])),
    ];
    let snap = registry.as_snapshot(outcomes).unwrap();
    assert_eq!(to_json_text(&snap), "{\"x\":1,\"y\":2,\"z\":3}");
}

#[test]
fn registry_skips_recoverable_and_aborts_on_fatal() {
    let registry = SourceRegistry::new(vec![
        Source::ConfigMap(ConfigMap::new("cm".to_string(), None)),
        Source::File(File::new("a.yaml".to_string())),
    ]);
    let outcomes = vec![
        Err(Error::ConfigMapDoesNotExist("cm".to_string()).recoverable()),
        Ok(ConfigValue::Tree(vec![("x".to_string(), ConfigValue::Int(1))])),
    ];
    let snap = registry.as_snapshot(outcomes).unwrap();
    assert_eq!(to_json_text(&snap), "{\"x\":1}");

    let registry = SourceRegistry::new(vec![Source::File(File::new("a.json".to_string()))]);
    let outcomes: Vec<Result<ConfigValue, DataSourceError>> =
        vec![Err(Error::ParseError("a.json".to_string()).fatal())];
    match registry.as_snapshot(outcomes) {
        Err(Error::ParseError(p)) => assert_eq!(p, "a.json"),
        _ => panic!("fatal source failure must abort assembly"),
    }
}

#[test]
fn registry_watch_starts_at_most_once() {
    let mut registry = SourceRegistry::new(vec![]);
    assert!(registry.begin_watch().is_ok());
    assert!(registry.begin_watch().is_err());
}

#[test]
fn sources_order_by_flag_position() {
    // -f A -e -f B: two file flags interleaved with an environment flag.
    let items: Vec<(Source, u64)> = vec![
        (Source::File(File::new("A".to_string())), 1),
        (Source::File(File::new("B".to_string())), 5),
        (Source::Environment(Environment::new(None)), 3),
    ];
    let ordered = order_sources(items);
    let kinds: Vec<String> = ordered
        .iter()
        .map(|(s, _)| match s {
            Source::File(f) => format!("file:{}", f.path),
            Source::Environment(_) => "env".to_string(),
            Source::ConfigMap(c) => format!("cm:{}", c.name),
            Source::Secret(c) => format!("secret:{}", c.name),
        })
        .collect();
    assert_eq!(kinds, vec!["file:A", "env", "file:B"]);
}

#[test]
fn parse_source_list_in_order() {
    let ns = Some("ns".to_string());
    let list = parse_source_list("file:a.json,environment:APP,k8s-configmap:cm", &ns).unwrap();
    assert_eq!(list.len(), 3);
    assert!(matches!(&list[0], Source::File(f) if f.path == "a.json"));
    assert!(
        matches!(&list[1], Source::Environment(e) if e.prefix.as_deref() == Some("APP"))
    );
    assert!(
        matches!(&list[2], Source::ConfigMap(c) if c.name == "cm" && c.namespace.as_deref() == Some("ns"))
    );
}

#[test]
fn parse_source_list_refuses_unknown_kinds() {
    assert!(parse_source_list("file:a.json,bogus:x", &None).is_none());
    assert!(parse_source_list("file", &None).is_none());
}

#[test]
fn environment_empty_prefix_means_none() {
    let list = parse_source_list("environment:", &None).unwrap();
    assert!(matches!(&list[0], Source::Environment(e) if e.prefix.is_none()));
    let list = parse_source_list("environment", &None).unwrap();
    assert!(matches!(&list[0], Source::Environment(e) if e.prefix.is_none()));
}
