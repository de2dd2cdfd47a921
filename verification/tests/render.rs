use toml_comment::document::emit_docs;
use toml_comment::{Document, Field, FieldValue, TomlComment, TomlValue, render_document, render_into};

fn lines(docs: &[&str]) -> Vec<String> {
    docs.iter().map(|d| d.to_string()).collect()
}

fn field(name: &str, docs: &[&str], value: FieldValue) -> Field {
    Field { name: name.to_string(), docs: lines(docs), value }
}

fn integer(i: i64) -> FieldValue {
    FieldValue::Plain(TomlValue::Integer(i))
}

#[test]
fn doc_lines_become_comments() {
    let mut out = String::from("x\n");
    emit_docs(&lines(&[" one", "", "two"]), &mut out);
    assert_eq!(out, "x\n# one\n#\n#two\n");
}

#[test]
fn first_section_without_docs_has_no_blank_line() {
    let doc = Document {
        docs: vec![],
        fields: vec![
            field("a", &[], FieldValue::Section(Document { docs: vec![], fields: vec![field("x", &[], integer(1))] })),
            field("b", &[" B"], FieldValue::Section(Document { docs: vec![], fields: vec![] })),
        ],
    };
    assert_eq!(render_document(&doc), "[a]\nx = 1\n\n# B\n[b]\n");
}

#[test]
fn plain_field_before_section_does_not_add_blank_line() {
    let doc = Document {
        docs: vec![],
        fields: vec![
            field("n", &[], integer(5)),
            field("s", &[], FieldValue::Section(Document { docs: vec![], fields: vec![] })),
        ],
    };
    assert_eq!(render_document(&doc), "n = 5\n[s]\n");
}

#[test]
fn nested_sections_have_dotted_paths() {
    let inner = Document {
        docs: lines(&[" Inner docs"]),
        fields: vec![field("deep", &[], integer(3))],
    };
    let middle = Document {
        docs: vec![],
        fields: vec![field("port", &[], integer(80)), field("inner", &[], FieldValue::Section(inner))],
    };
    let doc = Document { docs: vec![], fields: vec![field("outer", &[], FieldValue::Section(middle))] };
    assert_eq!(
        render_document(&doc),
        "[outer]\nport = 80\n[outer.inner]\n# Inner docs\ndeep = 3\n"
    );
}

#[test]
fn render_into_appends_inside_a_prefix() {
    let doc = Document {
        docs: vec![],
        fields: vec![field("s", &[], FieldValue::Section(Document { docs: vec![], fields: vec![field("k", &[], integer(1))] }))],
    };
    let mut out = String::from("head\n");
    render_into(&doc, &mut out, "top");
    assert_eq!(out, "head\n[top.s]\nk = 1\n");
}

#[test]
fn maps_need_a_non_empty_table() {
    let doc = Document {
        docs: vec![],
        fields: vec![
            field("not_table", &[" skipped"], FieldValue::MapEntries(TomlValue::Integer(1))),
            field("empty", &[" skipped"], FieldValue::MapEntries(TomlValue::Table(vec![]))),
            field(
                "m",
                &[" kept"],
                FieldValue::MapEntries(TomlValue::Table(vec![
                    ("a b".to_string(), TomlValue::Integer(1)),
                    ("c".to_string(), TomlValue::Array(vec![])),
                ])),
            ),
        ],
    };
    assert_eq!(render_document(&doc), "# kept\na b = 1\nc = []\n");
}

#[test]
fn omitted_fields_leave_no_trace() {
    let section = || FieldValue::Section(Document { docs: vec![], fields: vec![] });
    let with = Document {
        docs: vec![],
        fields: vec![
            field("gone", &[" no"], FieldValue::Optional(None)),
            field("s1", &[], section()),
            field("empty", &[], FieldValue::MapEntries(TomlValue::Table(vec![]))),
            field("s2", &[], section()),
        ],
    };
    let without = Document { docs: vec![], fields: vec![field("s1", &[], section()), field("s2", &[], section())] };
    assert_eq!(render_document(&with), render_document(&without));
    assert_eq!(render_document(&with), "[s1]\n\n[s2]\n");
}

#[test]
fn output_is_whole_lines() {
    let doc = Document {
        docs: lines(&[" d"]),
        fields: vec![
            field("s", &[], FieldValue::Section(Document { docs: vec![], fields: vec![] })),
        ],
    };
    let text = render_document(&doc);
    assert_eq!(text, "# d\n\n[s]\n");
    assert!(text.ends_with('\n'));
    let empty = Document { docs: vec![], fields: vec![] };
    assert_eq!(render_document(&empty), "");
}

struct Pair {
    a: i64,
}

impl TomlComment for Pair {
    fn document(&self) -> Document {
        Document { docs: vec![], fields: vec![field("a", &[], integer(self.a))] }
    }
}

#[test]
fn trait_methods_agree() {
    let p = Pair { a: 7 };
    let mut out = String::new();
    p._render(&mut out, "");
    assert_eq!(out, p.to_commented_toml());
    assert_eq!((&p).to_commented_toml(), "a = 7\n");
    let mut q = Pair { a: -1 };
    let r = &mut q;
    assert_eq!(r.to_commented_toml(), "a = -1\n");
}

/// A struct that writes its own text rather than the provided one.
struct OwnText;

impl TomlComment for OwnText {
    fn document(&self) -> Document {
        Document { docs: vec![], fields: vec![] }
    }

    fn to_commented_toml(&self) -> String {
        "own = 1\n".to_string()
    }

    fn _render(&self, out: &mut String, _prefix: &str) {
        out.push_str("own = 2\n");
    }
}

#[test]
fn references_use_the_values_own_methods() {
    let v = OwnText;
    assert_eq!(<&OwnText as TomlComment>::to_commented_toml(&&v), "own = 1\n");
    let mut out = String::from("x\n");
    <&OwnText as TomlComment>::_render(&&v, &mut out, "p");
    assert_eq!(out, "x\nown = 2\n");
    let mut w = OwnText;
    let m = &mut w;
    assert_eq!(<&mut OwnText as TomlComment>::to_commented_toml(&m), "own = 1\n");
    let mut out = String::new();
    <&mut OwnText as TomlComment>::_render(&m, &mut out, "");
    assert_eq!(out, "own = 2\n");
    assert_eq!(render_document(&(&v).document()), "");
}
