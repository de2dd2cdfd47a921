use std::collections::BTreeMap;
use std::collections::HashMap;

use toml_comment::{Document, Field, FieldValue, TomlComment, TomlCommentDefault, TomlValue};

fn lines(docs: &[&str]) -> Vec<String> {
    docs.iter().map(|d| d.to_string()).collect()
}

fn field(name: &str, docs: &[&str], value: FieldValue) -> Field {
    Field { name: name.to_string(), docs: lines(docs), value }
}

fn string(s: &str) -> TomlValue {
    TomlValue::String(s.to_string())
}

/// A `BTreeMap` or `HashMap` of strings as the table it serializes to
/// (whose entries are walked in key order).
fn string_table<'a>(entries: impl Iterator<Item = (&'a String, &'a String)>) -> TomlValue {
    let mut sorted: Vec<(String, TomlValue)> =
        entries.map(|(k, v)| (k.clone(), string(v))).collect();
    sorted.sort_by(|a, b| a.0.cmp(&b.0));
    TomlValue::Table(sorted)
}

/// Application settings
struct AppConfig {
    /// The application name
    name: String,
    /// Whether debug mode is enabled
    debug: bool,
    /// Maximum retry count
    max_retries: u32,
}

impl Default for AppConfig {
    fn default() -> Self {
        Self { name: "myapp".to_string(), debug: false, max_retries: 3 }
    }
}

impl TomlComment for AppConfig {
    fn document(&self) -> Document {
        Document {
            docs: lines(&[" Application settings"]),
            fields: vec![
                field("name", &[" The application name"], FieldValue::Plain(string(&self.name))),
                field(
                    "debug",
                    &[" Whether debug mode is enabled"],
                    FieldValue::Plain(TomlValue::Boolean(self.debug)),
                ),
                field(
                    "max_retries",
                    &[" Maximum retry count"],
                    FieldValue::Plain(TomlValue::Integer(i64::from(self.max_retries))),
                ),
            ],
        }
    }
}

#[test]
fn basic_struct() {
    let toml = AppConfig::default_toml();
    let expected = "\
# Application settings
# The application name
name = \"myapp\"
# Whether debug mode is enabled
debug = false
# Maximum retry count
max_retries = 3
";
    assert_eq!(toml, expected);
}

struct ServerConfig {
    /// Port to listen on
    port: u16,
    /// Bind address
    host: String,
}

impl Default for ServerConfig {
    fn default() -> Self {
        Self { port: 8080, host: "127.0.0.1".to_string() }
    }
}

impl TomlComment for ServerConfig {
    fn document(&self) -> Document {
        Document {
            docs: vec![],
            fields: vec![
                field(
                    "port",
                    &[" Port to listen on"],
                    FieldValue::Plain(TomlValue::Integer(i64::from(self.port))),
                ),
                field("host", &[" Bind address"], FieldValue::Plain(string(&self.host))),
            ],
        }
    }
}

impl ServerConfig {
    /// The table that a `ServerConfig` serializes to (keys in order).
    fn table(&self) -> TomlValue {
        TomlValue::Table(vec![
            ("host".to_string(), string(&self.host)),
            ("port".to_string(), TomlValue::Integer(i64::from(self.port))),
        ])
    }
}

/// Root config
struct RootConfig {
    server: ServerConfig,
}

impl Default for RootConfig {
    fn default() -> Self {
        Self { server: ServerConfig::default() }
    }
}

impl TomlComment for RootConfig {
    fn document(&self) -> Document {
        Document {
            docs: lines(&[" Root config"]),
            fields: vec![field("server", &[], FieldValue::Section(self.server.document()))],
        }
    }
}

#[test]
fn nested_struct() {
    let toml = RootConfig::default_toml();
    let expected = "\
# Root config

[server]
# Port to listen on
port = 8080
# Bind address
host = \"127.0.0.1\"
";
    assert_eq!(toml, expected);
}

struct WithOption {
    /// Always present
    name: String,
    /// Sometimes present
    extra: Option<String>,
}

impl Default for WithOption {
    fn default() -> Self {
        Self { name: "hello".to_string(), extra: None }
    }
}

impl TomlComment for WithOption {
    fn document(&self) -> Document {
        Document {
            docs: vec![],
            fields: vec![
                field("name", &[" Always present"], FieldValue::Plain(string(&self.name))),
                field(
                    "extra",
                    &[" Sometimes present"],
                    FieldValue::Optional(self.extra.as_ref().map(|s| string(s))),
                ),
            ],
        }
    }
}

#[test]
fn option_none_omitted() {
    let toml = WithOption::default_toml();
    let expected = "\
# Always present
name = \"hello\"
";
    assert_eq!(toml, expected);
}

#[test]
fn option_some_included() {
    let cfg = WithOption { name: "hello".to_string(), extra: Some("world".to_string()) };
    let toml = cfg.to_commented_toml();
    let expected = "\
# Always present
name = \"hello\"
# Sometimes present
extra = \"world\"
";
    assert_eq!(toml, expected);
}

struct WithVec {
    /// Allowed origins
    origins: Vec<String>,
}

impl Default for WithVec {
    fn default() -> Self {
        Self { origins: vec!["localhost".to_string(), "example.com".to_string()] }
    }
}

impl TomlComment for WithVec {
    fn document(&self) -> Document {
        Document {
            docs: vec![],
            fields: vec![field(
                "origins",
                &[" Allowed origins"],
                FieldValue::Plain(TomlValue::Array(self.origins.iter().map(|s| string(s)).collect())),
            )],
        }
    }
}

#[test]
fn vec_field() {
    let toml = WithVec::default_toml();
    let expected = "\
# Allowed origins
origins = [\"localhost\", \"example.com\"]
";
    assert_eq!(toml, expected);
}

struct NoComments {
    name: String,
    count: u32,
}

impl Default for NoComments {
    fn default() -> Self {
        Self { name: "test".to_string(), count: 42 }
    }
}

impl TomlComment for NoComments {
    fn document(&self) -> Document {
        Document {
            docs: vec![],
            fields: vec![
                field("name", &[], FieldValue::Plain(string(&self.name))),
                field("count", &[], FieldValue::Plain(TomlValue::Integer(i64::from(self.count)))),
            ],
        }
    }
}

#[test]
fn no_comment_fields() {
    let toml = NoComments::default_toml();
    let expected = "\
name = \"test\"
count = 42
";
    assert_eq!(toml, expected);
}

#[test]
fn non_default_values() {
    let cfg = AppConfig { name: "custom".to_string(), debug: true, max_retries: 10 };
    let toml = cfg.to_commented_toml();
    assert!(toml.contains("name = \"custom\""));
    assert!(toml.contains("debug = true"));
    assert!(toml.contains("max_retries = 10"));
}

struct LoggingConfig {
    /// Log level
    level: String,
}

impl Default for LoggingConfig {
    fn default() -> Self {
        Self { level: "info".to_string() }
    }
}

impl TomlComment for LoggingConfig {
    fn document(&self) -> Document {
        Document {
            docs: vec![],
            fields: vec![field("level", &[" Log level"], FieldValue::Plain(string(&self.level)))],
        }
    }
}

struct DatabaseConfig {
    /// Connection URL
    url: String,
}

impl Default for DatabaseConfig {
    fn default() -> Self {
        Self { url: "sqlite://data.db".to_string() }
    }
}

impl TomlComment for DatabaseConfig {
    fn document(&self) -> Document {
        Document {
            docs: vec![],
            fields: vec![field("url", &[" Connection URL"], FieldValue::Plain(string(&self.url)))],
        }
    }
}

/// Multi-section config
struct MultiSection {
    logging: LoggingConfig,
    database: DatabaseConfig,
}

impl Default for MultiSection {
    fn default() -> Self {
        Self { logging: LoggingConfig::default(), database: DatabaseConfig::default() }
    }
}

impl TomlComment for MultiSection {
    fn document(&self) -> Document {
        Document {
            docs: lines(&[" Multi-section config"]),
            fields: vec![
                field("logging", &[], FieldValue::Section(self.logging.document())),
                field("database", &[], FieldValue::Section(self.database.document())),
            ],
        }
    }
}

#[test]
fn multiple_sections_separated_by_blank_line() {
    let toml = MultiSection::default_toml();
    let expected = "\
# Multi-section config

[logging]
# Log level
level = \"info\"

[database]
# Connection URL
url = \"sqlite://data.db\"
";
    assert_eq!(toml, expected);
}

struct Thresholds {
    /// Temperature threshold
    temperature: f64,
    /// Ratio value
    ratio: f64,
}

impl Default for Thresholds {
    fn default() -> Self {
        Self { temperature: 1.0, ratio: 0.75 }
    }
}

impl TomlComment for Thresholds {
    fn document(&self) -> Document {
        Document {
            docs: vec![],
            fields: vec![
                field(
                    "temperature",
                    &[" Temperature threshold"],
                    FieldValue::Plain(TomlValue::Float(self.temperature.to_string())),
                ),
                field(
                    "ratio",
                    &[" Ratio value"],
                    FieldValue::Plain(TomlValue::Float(self.ratio.to_string())),
                ),
            ],
        }
    }
}

#[test]
fn float_formatting() {
    let toml = Thresholds::default_toml();
    assert!(toml.contains("temperature = 1.0"));
    assert!(toml.contains("ratio = 0.75"));
}

struct ThresholdsNoDefault {
    /// Temperature threshold
    temperature: f64,
    /// Ratio value
    ratio: f64,
}

impl TomlComment for ThresholdsNoDefault {
    fn document(&self) -> Document {
        Document {
            docs: vec![],
            fields: vec![
                field(
                    "temperature",
                    &[" Temperature threshold"],
                    FieldValue::Plain(TomlValue::Float(self.temperature.to_string())),
                ),
                field(
                    "ratio",
                    &[" Ratio value"],
                    FieldValue::Plain(TomlValue::Float(self.ratio.to_string())),
                ),
            ],
        }
    }
}

#[test]
fn float_formatting_nodefault() {
    let toml = ThresholdsNoDefault { temperature: 0.0f64, ratio: 0.0f64 }.to_commented_toml();
    assert!(toml.contains("temperature = 0.0"));
    assert!(toml.contains("ratio = 0.0"));
}

// --- Enum support ---

enum LogLevel {
    Debug,
    Info,
    Warn,
}

impl LogLevel {
    /// The value a unit variant serializes to: its name.
    fn value(&self) -> TomlValue {
        match self {
            LogLevel::Debug => string("Debug"),
            LogLevel::Info => string("Info"),
            LogLevel::Warn => string("Warn"),
        }
    }
}

struct WithEnum {
    /// The log level
    level: LogLevel,
    /// App name
    name: String,
}

impl Default for WithEnum {
    fn default() -> Self {
        Self { level: LogLevel::Info, name: "app".to_string() }
    }
}

impl TomlComment for WithEnum {
    fn document(&self) -> Document {
        Document {
            docs: vec![],
            fields: vec![
                field("level", &[" The log level"], FieldValue::Plain(self.level.value())),
                field("name", &[" App name"], FieldValue::Plain(string(&self.name))),
            ],
        }
    }
}

#[test]
fn enum_field_inline() {
    let toml = WithEnum::default_toml();
    let expected = "\
# The log level
level = \"Info\"
# App name
name = \"app\"
";
    assert_eq!(toml, expected);
}

struct WithOptionalEnum {
    level: Option<LogLevel>,
}

impl Default for WithOptionalEnum {
    fn default() -> Self {
        Self { level: None }
    }
}

impl TomlComment for WithOptionalEnum {
    fn document(&self) -> Document {
        Document {
            docs: vec![],
            fields: vec![field(
                "level",
                &[],
                FieldValue::Optional(self.level.as_ref().map(|l| l.value())),
            )],
        }
    }
}

#[test]
fn option_enum_none() {
    let toml = WithOptionalEnum::default_toml();
    assert_eq!(toml, "");
}

#[test]
fn option_enum_some() {
    let cfg = WithOptionalEnum { level: Some(LogLevel::Warn) };
    let toml = cfg.to_commented_toml();
    assert_eq!(toml, "level = \"Warn\"\n");
}

// --- Map support ---

struct WithHashMap {
    /// Environment variables
    env: HashMap<String, String>,
}

impl Default for WithHashMap {
    fn default() -> Self {
        let mut env = HashMap::new();
        env.insert("KEY".to_string(), "value".to_string());
        Self { env }
    }
}

impl TomlComment for WithHashMap {
    fn document(&self) -> Document {
        Document {
            docs: vec![],
            fields: vec![field(
                "env",
                &[" Environment variables"],
                FieldValue::MapEntries(string_table(self.env.iter())),
            )],
        }
    }
}

#[test]
fn hashmap_leaf_values() {
    let toml = WithHashMap::default_toml();
    let expected = "\
# Environment variables
KEY = \"value\"
";
    assert_eq!(toml, expected);
}

struct WithBTreeMap {
    /// Sorted settings
    settings: BTreeMap<String, String>,
}

impl Default for WithBTreeMap {
    fn default() -> Self {
        let mut settings = BTreeMap::new();
        settings.insert("alpha".to_string(), "first".to_string());
        settings.insert("beta".to_string(), "second".to_string());
        Self { settings }
    }
}

impl TomlComment for WithBTreeMap {
    fn document(&self) -> Document {
        Document {
            docs: vec![],
            fields: vec![field(
                "settings",
                &[" Sorted settings"],
                FieldValue::MapEntries(string_table(self.settings.iter())),
            )],
        }
    }
}

#[test]
fn btreemap_deterministic_order() {
    let toml = WithBTreeMap::default_toml();
    let expected = "\
# Sorted settings
alpha = \"first\"
beta = \"second\"
";
    assert_eq!(toml, expected);
}

struct WithStructMap {
    entries: HashMap<String, ServerConfig>,
}

impl Default for WithStructMap {
    fn default() -> Self {
        let mut entries = HashMap::new();
        entries.insert(
            "main".to_string(),
            ServerConfig { port: 3000, host: "0.0.0.0".to_string() },
        );
        Self { entries }
    }
}

impl TomlComment for WithStructMap {
    fn document(&self) -> Document {
        let mut table: Vec<(String, TomlValue)> =
            self.entries.iter().map(|(k, v)| (k.clone(), v.table())).collect();
        table.sort_by(|a, b| a.0.cmp(&b.0));
        Document {
            docs: vec![],
            fields: vec![field("entries", &[], FieldValue::MapEntries(TomlValue::Table(table)))],
        }
    }
}

#[test]
fn hashmap_struct_values() {
    let toml = WithStructMap::default_toml();
    assert!(toml.contains("main = {"));
    assert!(toml.contains("port = 3000"));
    assert!(toml.contains("host = \"0.0.0.0\""));
}

struct WithEmptyMap {
    /// Tags for the resource
    tags: BTreeMap<String, String>,
}

impl Default for WithEmptyMap {
    fn default() -> Self {
        Self { tags: BTreeMap::new() }
    }
}

impl TomlComment for WithEmptyMap {
    fn document(&self) -> Document {
        Document {
            docs: vec![],
            fields: vec![field(
                "tags",
                &[" Tags for the resource"],
                FieldValue::MapEntries(string_table(self.tags.iter())),
            )],
        }
    }
}

#[test]
fn empty_map_no_output() {
    let toml = WithEmptyMap::default_toml();
    assert_eq!(toml, "");
}

struct EnumAndMap {
    mode: LogLevel,
    labels: BTreeMap<String, String>,
}

impl Default for EnumAndMap {
    fn default() -> Self {
        let mut labels = BTreeMap::new();
        labels.insert("env".to_string(), "prod".to_string());
        Self { mode: LogLevel::Debug, labels }
    }
}

impl TomlComment for EnumAndMap {
    fn document(&self) -> Document {
        Document {
            docs: vec![],
            fields: vec![
                field("mode", &[], FieldValue::Plain(self.mode.value())),
                field("labels", &[], FieldValue::MapEntries(string_table(self.labels.iter()))),
            ],
        }
    }
}

#[test]
fn enum_and_map_combined() {
    let toml = EnumAndMap::default_toml();
    let expected = "\
mode = \"Debug\"
env = \"prod\"
";
    assert_eq!(toml, expected);
}
