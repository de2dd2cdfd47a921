//! The commented TOML text of a documented struct.

use vstd::prelude::*;

use crate::text::push_char;
use crate::value::{TomlValue, fmt_value, value_text};

verus! {

/// A struct to be written as commented TOML: its doc comment lines and its
/// fields in declaration order.
pub struct Document {
    pub docs: Vec<String>,
    pub fields: Vec<Field>,
}

/// One field: its name, its doc comment lines and its value.
pub struct Field {
    pub name: String,
    pub docs: Vec<String>,
    pub value: FieldValue,
}

/// The value of a field, by the way the field is written.
pub enum FieldValue {
    /// A map: its value, whose entries are written one per line when it is a
    /// non-empty table.
    MapEntries(TomlValue),
    /// A nested struct, written as a `[section]` of its own.
    Section(Document),
    /// An optional value: written as `name = value` only when present.
    Optional(Option<TomlValue>),
    /// Any other value, written as `name = value`.
    Plain(TomlValue),
}

/// A doc comment line `d` as a TOML comment: `#`, the line, a newline.
pub open spec fn comment_line(d: Seq<char>) -> Seq<char> {
    seq!['#'] + d + seq!['\n']
}

/// The first `n` doc comment lines, each as a TOML comment.
pub open spec fn comment_lines(docs: Seq<String>, n: nat) -> Seq<char>
    decreases n,
{
    if n == 0 || n > docs.len() {
        seq![]
    } else {
        comment_lines(docs, (n - 1) as nat) + comment_line(docs[n - 1]@)
    }
}

/// All the doc comment lines, each as a TOML comment.
pub open spec fn comments(docs: Seq<String>) -> Seq<char> {
    comment_lines(docs, docs.len())
}

/// A `key = value` line.
pub open spec fn key_line(key: Seq<char>, v: TomlValue) -> Seq<char> {
    key + seq![' ', '=', ' '] + value_text(v) + seq!['\n']
}

/// The first `n` entries of a table, each as a `key = value` line.
pub open spec fn entry_lines(entries: Seq<(String, TomlValue)>, n: nat) -> Seq<char>
    decreases n,
{
    if n == 0 || n > entries.len() {
        seq![]
    } else {
        entry_lines(entries, (n - 1) as nat) + key_line(entries[n - 1].0@, entries[n - 1].1)
    }
}

/// The dotted path of a section named `name` inside the section `prefix`
/// (the top level when `prefix` is empty).
pub open spec fn section_path(prefix: Seq<char>, name: Seq<char>) -> Seq<char> {
    if prefix.len() == 0 {
        name
    } else {
        prefix + seq!['.'] + name
    }
}

/// Whether one of the first `i` fields is a section.
pub open spec fn section_before(fields: Seq<Field>, i: nat) -> bool
    decreases i,
{
    if i == 0 || i > fields.len() {
        false
    } else {
        fields[i - 1].value is Section || section_before(fields, (i - 1) as nat)
    }
}

/// The text of one field inside the section `prefix`; `blank` says whether
/// a section starts with an empty line.
pub open spec fn field_text(f: Field, prefix: Seq<char>, blank: bool) -> Seq<char>
    decreases f, 0nat,
{
    match f.value {
        FieldValue::MapEntries(v) => match v {
            TomlValue::Table(entries) => if entries@.len() == 0 {
                seq![]
            } else {
                comments(f.docs@) + entry_lines(entries@, entries@.len())
            },
            _ => seq![],
        },
        FieldValue::Section(d) => {
            let path = section_path(prefix, f.name@);
            (if blank {
                seq!['\n']
            } else {
                seq![]
            }) + comments(f.docs@) + seq!['['] + path + seq![']', '\n'] + document_text(d, path)
        },
        FieldValue::Optional(o) => match o {
            Some(v) => comments(f.docs@) + key_line(f.name@, v),
            None => seq![],
        },
        FieldValue::Plain(v) => comments(f.docs@) + key_line(f.name@, v),
    }
}

/// The text of the first `n` fields inside the section `prefix`, where
/// `documented` says whether the struct has doc comment lines. A section
/// starts with an empty line unless it is the first section of a struct
/// without doc comment lines.
pub open spec fn fields_text(fields: Seq<Field>, n: nat, prefix: Seq<char>, documented: bool) -> Seq<char>
    decreases fields, n,
{
    if n == 0 || n > fields.len() {
        seq![]
    } else {
        fields_text(fields, (n - 1) as nat, prefix, documented) + field_text(
            fields[n - 1],
            prefix,
            documented || section_before(fields, (n - 1) as nat),
        )
    }
}

/// The commented TOML text of a struct inside the section `prefix`: its doc
/// comment lines, then its fields.
pub open spec fn document_text(doc: Document, prefix: Seq<char>) -> Seq<char>
    decreases doc, 0nat,
{
    comments(doc.docs@) + fields_text(doc.fields@, doc.fields@.len(), prefix, doc.docs@.len() > 0)
}

/// Appends each doc comment line as a TOML comment (`#` and the line).
pub fn emit_docs(docs: &Vec<String>, out: &mut String)
    ensures
        final(out)@ == old(out)@ + comments(docs@),
{
    let mut i: usize = 0;
    while i < docs.len()
        invariant
            i <= docs@.len(),
            out@ == old(out)@ + comment_lines(docs@, i as nat),
        decreases docs@.len() - i,
    {
        let ghost start = out@;
        push_char(out, '#');
        out.append(docs[i].as_str());
        push_char(out, '\n');
        assert(out@ =~= start + comment_line(docs@[i as int]@));
        i = i + 1;
    }
}


/// Appends each entry of a table as a `key = value` line.
fn push_entry_lines(entries: &Vec<(String, TomlValue)>, out: &mut String)
    ensures
        final(out)@ == old(out)@ + entry_lines(entries@, entries@.len()),
{
    let mut i: usize = 0;
    while i < entries.len()
        invariant
            i <= entries@.len(),
            out@ == old(out)@ + entry_lines(entries@, i as nat),
        decreases entries@.len() - i,
    {
        let ghost start = out@;
        push_key_line(out, entries[i].0.as_str(), &entries[i].1);
        assert(out@ =~= start + key_line(entries@[i as int].0@, entries@[i as int].1));
        i = i + 1;
    }
}

/// Appends a `key = value` line.
fn push_key_line(out: &mut String, key: &str, v: &TomlValue)
    ensures
        final(out)@ == old(out)@ + key_line(key@, *v),
{
    out.append(key);
    out.append(" = ");
    let t = fmt_value(v);
    out.append(t.as_str());
    push_char(out, '\n');
    proof {
        reveal_strlit(" = ");
    }
    assert(final(out)@ =~= old(out)@ + key_line(key@, *v));
}

/// Appends the text of one field inside the section `prefix`; `blank` says
/// whether a section starts with an empty line.
fn render_field(field: &Field, out: &mut String, prefix: &str, blank: bool)
    ensures
        final(out)@ == old(out)@ + field_text(*field, prefix@, blank),
    decreases field, 0nat,
{
    match &field.value {
        FieldValue::MapEntries(v) => {
            match v {
                TomlValue::Table(entries) => {
                    if entries.len() > 0 {
                        emit_docs(&field.docs, out);
                        push_entry_lines(entries, out);
                    }
                },
                _ => {},
            }
        },
        FieldValue::Section(d) => {
            let section = if prefix.is_empty() {
                field.name.clone()
            } else {
                let mut path = String::from_str(prefix);
                push_char(&mut path, '.');
                path.append(field.name.as_str());
                path
            };
            assert(section@ =~= section_path(prefix@, field.name@));
            if blank {
                push_char(out, '\n');
            }
            emit_docs(&field.docs, out);
            push_char(out, '[');
            out.append(section.as_str());
            push_char(out, ']');
            push_char(out, '\n');
            render_into(d, out, section.as_str());
        },
        FieldValue::Optional(o) => {
            match o {
                Some(v) => {
                    emit_docs(&field.docs, out);
                    push_key_line(out, field.name.as_str(), v);
                },
                None => {},
            }
        },
        FieldValue::Plain(v) => {
            emit_docs(&field.docs, out);
            push_key_line(out, field.name.as_str(), v);
        },
    }
    assert(final(out)@ =~= old(out)@ + field_text(*field, prefix@, blank));
}

/// Appends the commented TOML text of `doc` as the content of the section
/// `prefix` (the top level when `prefix` is empty): the struct's doc comment
/// lines as `#` comments, then each field in order. A plain field is written
/// as its comments and a `name = value` line; an optional one likewise when
/// present, and not at all when absent; a map as its comments and one
/// `key = value` line per entry, and not at all when it is not a non-empty
/// table; a nested struct as an empty line (unless it is the first section
/// of a struct without doc comments), its comments, a `[path]` header with
/// the dotted path, and its own text inside that path.
pub fn render_into(doc: &Document, out: &mut String, prefix: &str)
    ensures
        final(out)@ == old(out)@ + document_text(*doc, prefix@),
    decreases doc, 1nat,
{
    emit_docs(&doc.docs, out);
    let documented = doc.docs.len() > 0;
    let mut seen_section = false;
    let mut i: usize = 0;
    while i < doc.fields.len()
        invariant
            i <= doc.fields@.len(),
            documented == (doc.docs@.len() > 0),
            seen_section == section_before(doc.fields@, i as nat),
            out@ == old(out)@ + comments(doc.docs@) + fields_text(doc.fields@, i as nat, prefix@, documented),
        decreases doc.fields@.len() - i,
    {
        let ghost start = out@;
        let field = &doc.fields[i];
        render_field(field, out, prefix, documented || seen_section);
        if let FieldValue::Section(_) = &field.value {
            seen_section = true;
        }
        assert(out@ =~= old(out)@ + comments(doc.docs@) + fields_text(doc.fields@, (i + 1) as nat, prefix@, documented));
        i = i + 1;
    }
}

/// The commented TOML text of `doc` at the top level.
pub fn render_document(doc: &Document) -> (s: String)
    ensures
        s@ == document_text(*doc, seq![]),
{
    let mut s = String::new();
    render_into(doc, &mut s, "");
    proof {
        reveal_strlit("");
        assert(""@ =~= Seq::<char>::empty());
    }
    s
}

} // verus!
