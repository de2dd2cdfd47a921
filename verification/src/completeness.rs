//! Laws that nothing is dropped: every doc line, field, item, entry and
//! map entry that the input holds is written, in order, and each field is
//! written the way its class says.

use vstd::prelude::*;

use crate::document::{
    Document, Field, FieldValue, comment_lines, comments, document_text, entry_lines, field_text,
    fields_text, key_line, section_before,
};
use crate::laws::is_omitted;
use crate::plan::{
    MetaShape, AttrShape, FieldClass, FieldInput, TypeShape, doc_text, doc_texts, docs_of, field_class,
    field_value_of, fits, is_leaf_type_name,
};
use crate::text::{decimal_digits, decimal_text, is_white_space, trim};
use crate::value::{TomlValue, entries_text, entry_text, items_text, value_text};

verus! {

// ---- doc comment lines -------------------------------------------------

proof fn lemma_comment_lines_prefix(docs: Seq<String>, d: String, k: nat)
    requires
        k <= docs.len(),
    ensures
        comment_lines(docs.push(d), k) == comment_lines(docs, k),
    decreases k,
{
    if k > 0 {
        lemma_comment_lines_prefix(docs, d, (k - 1) as nat);
        assert(docs.push(d)[k - 1] == docs[k - 1]);
    }
}

/// Every doc comment line is written, in order, as `#`, the line and a
/// newline: no lines give no text, and one more line adds exactly its
/// comment at the end.
pub proof fn lemma_every_doc_line_is_written(docs: Seq<String>, d: String)
    ensures
        comments(Seq::<String>::empty()) == Seq::<char>::empty(),
        comments(docs.push(d)) == comments(docs) + seq!['#'] + d@ + seq!['\n'],
{
    lemma_comment_lines_prefix(docs, d, docs.len());
    assert(docs.push(d)[docs.len() as int] == d);
    assert(comments(docs.push(d)) =~= comments(docs) + seq!['#'] + d@ + seq!['\n']);
}

/// The doc comment lines of a declaration are all kept, in order: no
/// attributes give no lines, and one more attribute adds its text exactly
/// when it is a doc comment.
pub proof fn lemma_every_doc_attribute_is_kept(attrs: Seq<AttrShape>, a: AttrShape)
    ensures
        docs_of(Seq::<AttrShape>::empty()) == Seq::<Seq<char>>::empty(),
        doc_text(a) matches Some(d) ==> docs_of(attrs.push(a)) == docs_of(attrs).push(d),
        doc_text(a) is None ==> docs_of(attrs.push(a)) == docs_of(attrs),
{
    lemma_doc_texts_prefix(attrs, a, attrs.len());
    assert(attrs.push(a)[attrs.len() as int] == a);
}

proof fn lemma_doc_texts_prefix(attrs: Seq<AttrShape>, a: AttrShape, k: nat)
    requires
        k <= attrs.len(),
    ensures
        doc_texts(attrs.push(a), k) == doc_texts(attrs, k),
    decreases k,
{
    if k > 0 {
        lemma_doc_texts_prefix(attrs, a, (k - 1) as nat);
        assert(attrs.push(a)[k - 1] == attrs[k - 1]);
    }
}

/// The number of doc comment lines kept is the number of doc comment
/// attributes.
pub open spec fn count_docs(attrs: Seq<AttrShape>) -> nat
    decreases attrs.len(),
{
    if attrs.len() == 0 {
        0
    } else {
        count_docs(attrs.drop_last()) + if doc_text(attrs.last()) is Some {
            1nat
        } else {
            0nat
        }
    }
}

/// As many doc comment lines are kept as there are doc comment attributes.
pub proof fn lemma_doc_count(attrs: Seq<AttrShape>)
    ensures
        docs_of(attrs).len() == count_docs(attrs),
    decreases attrs.len(),
{
    if attrs.len() > 0 {
        let init = attrs.drop_last();
        lemma_doc_count(init);
        assert(init.push(attrs.last()) =~= attrs);
        lemma_every_doc_attribute_is_kept(init, attrs.last());
    }
}

// ---- fields ------------------------------------------------------------

/// A plain field is always written, whatever its value (an empty array
/// too): its doc comments, then `name = value` and a newline. An optional
/// field that is present is written the same way.
pub proof fn lemma_plain_fields_are_written(f: Field, prefix: Seq<char>, blank: bool)
    ensures
        f.value matches FieldValue::Plain(v) ==> field_text(f, prefix, blank) == comments(f.docs@)
            + f.name@ + seq![' ', '=', ' '] + value_text(v) + seq!['\n'],
        f.value matches FieldValue::Optional(Some(v)) ==> field_text(f, prefix, blank) == comments(
            f.docs@,
        ) + f.name@ + seq![' ', '=', ' '] + value_text(v) + seq!['\n'],
{
    match f.value {
        FieldValue::Plain(v) => {
            assert(field_text(f, prefix, blank) =~= comments(f.docs@) + f.name@ + seq![' ', '=', ' ']
                + value_text(v) + seq!['\n']);
        },
        FieldValue::Optional(Some(v)) => {
            assert(field_text(f, prefix, blank) =~= comments(f.docs@) + f.name@ + seq![' ', '=', ' ']
                + value_text(v) + seq!['\n']);
        },
        _ => {},
    }
}

/// A section is written as its empty line (when asked for), its doc
/// comments, its header `[path]` with the dotted path, and then the nested
/// struct's own text inside that path.
pub proof fn lemma_sections_are_written(f: Field, prefix: Seq<char>, blank: bool)
    ensures
        f.value matches FieldValue::Section(d) ==> {
            let path = if prefix.len() == 0 {
                f.name@
            } else {
                prefix + seq!['.'] + f.name@
            };
            field_text(f, prefix, blank) == (if blank {
                seq!['\n']
            } else {
                seq![]
            }) + comments(f.docs@) + seq!['['] + path + seq![']', '\n'] + document_text(d, path)
        },
{
}

/// Only an absent `Option`, or a map that is not a non-empty table, leaves
/// no text: every other field writes something.
pub proof fn lemma_only_omitted_fields_vanish(f: Field, prefix: Seq<char>, blank: bool)
    ensures
        field_text(f, prefix, blank).len() == 0 ==> is_omitted(f),
{
    let t = field_text(f, prefix, blank);
    match f.value {
        FieldValue::MapEntries(v) => {
            if let TomlValue::Table(entries) = v {
                if entries@.len() > 0 {
                    lemma_entry_lines_nonempty(entries@, entries@.len());
                    assert(t == comments(f.docs@) + entry_lines(entries@, entries@.len()));
                }
            }
        },
        FieldValue::Section(d) => {
            lemma_sections_are_written(f, prefix, blank);
        },
        FieldValue::Optional(o) => {
            lemma_plain_fields_are_written(f, prefix, blank);
        },
        FieldValue::Plain(v) => {
            lemma_plain_fields_are_written(f, prefix, blank);
        },
    }
}

proof fn lemma_entry_lines_nonempty(entries: Seq<(String, TomlValue)>, n: nat)
    requires
        0 < n <= entries.len(),
    ensures
        entry_lines(entries, n).len() > 0,
{
    assert(entry_lines(entries, n) == entry_lines(entries, (n - 1) as nat) + key_line(
        entries[n - 1].0@,
        entries[n - 1].1,
    ));
}

proof fn lemma_entry_lines_step(entries: Seq<(String, TomlValue)>, n: nat)
    requires
        n < entries.len(),
    ensures
        entry_lines(entries, n + 1) == entry_lines(entries, n) + entries[n as int].0@ + seq![
            ' ',
            '=',
            ' ',
        ] + value_text(entries[n as int].1) + seq!['\n'],
{
    assert(entry_lines(entries, n + 1) =~= entry_lines(entries, n) + entries[n as int].0@ + seq![
        ' ',
        '=',
        ' ',
    ] + value_text(entries[n as int].1) + seq!['\n']);
}

/// A map field that is a non-empty table is written as its doc comments and
/// then one `key = value` line for each entry, in order: the lines of the
/// first `n` entries are followed by the line of the next one.
pub proof fn lemma_every_map_entry_is_written(entries: Seq<(String, TomlValue)>, n: nat)
    requires
        n < entries.len(),
    ensures
        entry_lines(entries, 0) == Seq::<char>::empty(),
        entry_lines(entries, n + 1) == entry_lines(entries, n) + entries[n as int].0@ + seq![
            ' ',
            '=',
            ' ',
        ] + value_text(entries[n as int].1) + seq!['\n'],
{
    lemma_entry_lines_step(entries, n);
}

/// `part` stands at position `start` of `text`.
pub open spec fn holds_at(text: Seq<char>, part: Seq<char>, start: int) -> bool {
    0 <= start && start + part.len() <= text.len() && text.subrange(start, start + part.len())
        == part
}

/// `part` stands, whole, somewhere inside `text`.
pub open spec fn contains_text(text: Seq<char>, part: Seq<char>) -> bool {
    exists|start: int| #[trigger] holds_at(text, part, start)
}

proof fn lemma_holds_in_join(a: Seq<char>, part: Seq<char>, b: Seq<char>)
    ensures
        holds_at(a + part + b, part, a.len() as int),
        contains_text(a + part + b, part),
{
    assert((a + part + b).subrange(a.len() as int, (a.len() + part.len()) as int) =~= part);
    assert(holds_at(a + part + b, part, a.len() as int));
}

proof fn lemma_fields_text_prefix(
    fields: Seq<Field>,
    m: nat,
    n: nat,
    prefix: Seq<char>,
    documented: bool,
)
    requires
        m <= n <= fields.len(),
    ensures
        fields_text(fields, m, prefix, documented).len() <= fields_text(
            fields,
            n,
            prefix,
            documented,
        ).len(),
        fields_text(fields, n, prefix, documented).subrange(
            0,
            fields_text(fields, m, prefix, documented).len() as int,
        ) == fields_text(fields, m, prefix, documented),
    decreases n,
{
    let tm = fields_text(fields, m, prefix, documented);
    if m == n {
        assert(tm.subrange(0, tm.len() as int) =~= tm);
    } else {
        lemma_fields_text_prefix(fields, m, (n - 1) as nat, prefix, documented);
        let before = fields_text(fields, (n - 1) as nat, prefix, documented);
        let last = field_text(
            fields[n - 1],
            prefix,
            documented || section_before(fields, (n - 1) as nat),
        );
        assert(fields_text(fields, n, prefix, documented) == before + last);
        assert((before + last).subrange(0, tm.len() as int) =~= before.subrange(0, tm.len() as int));
    }
}

/// Every field of a struct is written: its text stands, whole, inside the
/// struct's text, right after the text of the struct's doc comments and of
/// the fields before it.
pub proof fn lemma_every_field_is_written(doc: Document, i: int, prefix: Seq<char>)
    requires
        0 <= i < doc.fields@.len(),
    ensures
        contains_text(
            document_text(doc, prefix),
            field_text(
                doc.fields@[i],
                prefix,
                doc.docs@.len() > 0 || section_before(doc.fields@, i as nat),
            ),
        ),
{
    let fields = doc.fields@;
    let documented = doc.docs@.len() > 0;
    let here = field_text(fields[i], prefix, documented || section_before(fields, i as nat));
    let upto = fields_text(fields, (i + 1) as nat, prefix, documented);
    let before = fields_text(fields, i as nat, prefix, documented);
    assert(upto == before + here);
    lemma_fields_text_prefix(fields, (i + 1) as nat, fields.len(), prefix, documented);
    let all = fields_text(fields, fields.len(), prefix, documented);
    let rest = all.subrange(upto.len() as int, all.len() as int);
    assert(all =~= before + here + rest);
    let pre = comments(doc.docs@) + before;
    assert(document_text(doc, prefix) =~= pre + here + rest);
    lemma_holds_in_join(pre, here, rest);
}

/// Every plain field of a struct appears in its text as its doc comments
/// followed by `name = value` and a newline, whatever the value.
pub proof fn lemma_plain_field_line_appears(doc: Document, i: int, prefix: Seq<char>)
    requires
        0 <= i < doc.fields@.len(),
        doc.fields@[i].value is Plain,
    ensures
        contains_text(
            document_text(doc, prefix),
            comments(doc.fields@[i].docs@) + doc.fields@[i].name@ + seq![' ', '=', ' '] + value_text(
                doc.fields@[i].value->Plain_0,
            ) + seq!['\n'],
        ),
{
    let f = doc.fields@[i];
    let blank = doc.docs@.len() > 0 || section_before(doc.fields@, i as nat);
    lemma_every_field_is_written(doc, i, prefix);
    lemma_plain_fields_are_written(f, prefix, blank);
}

// ---- values ------------------------------------------------------------

/// Every item of an array is written, in order: the text of the first
/// `n + 1` items is that of the first `n`, then `, ` (but before the first
/// item), then the next item's text.
pub proof fn lemma_every_item_is_written(items: Seq<TomlValue>, n: nat)
    requires
        n < items.len(),
    ensures
        items_text(items, 0) == Seq::<char>::empty(),
        items_text(items, n + 1) == items_text(items, n) + (if n > 0 {
            seq![',', ' ']
        } else {
            seq![]
        }) + value_text(items[n as int]),
{
    if n == 0 {
        assert(items_text(items, 1) =~= Seq::<char>::empty() + seq![] + value_text(items[0]));
    }
}

/// Every entry of an inline table is written, in order, as `key = value`:
/// the text of the first `n + 1` entries is that of the first `n`, then
/// `, ` (but before the first entry), then the next `key = value`.
pub proof fn lemma_every_entry_is_written(entries: Seq<(String, TomlValue)>, n: nat)
    requires
        n < entries.len(),
    ensures
        entries_text(entries, 0) == Seq::<char>::empty(),
        entries_text(entries, n + 1) == entries_text(entries, n) + (if n > 0 {
            seq![',', ' ']
        } else {
            seq![]
        }) + entries[n as int].0@ + seq![' ', '=', ' '] + value_text(entries[n as int].1),
{
    assert(entry_text(entries[n as int].0@, entries[n as int].1) == entries[n as int].0@ + seq![
        ' ',
        '=',
        ' ',
    ] + value_text(entries[n as int].1));
    if n == 0 {
        assert(entries_text(entries, 1) =~= Seq::<char>::empty() + seq![] + entries[0].0@ + seq![
            ' ',
            '=',
            ' ',
        ] + value_text(entries[0].1));
    } else {
        assert(entries_text(entries, n + 1) =~= entries_text(entries, n) + seq![',', ' ']
            + entries[n as int].0@ + seq![' ', '=', ' '] + value_text(entries[n as int].1));
    }
}

proof fn lemma_items_prefix(items: Seq<TomlValue>, m: nat, n: nat)
    requires
        m <= n <= items.len(),
    ensures
        items_text(items, m).len() <= items_text(items, n).len(),
        items_text(items, n).subrange(0, items_text(items, m).len() as int) == items_text(items, m),
    decreases n,
{
    let tm = items_text(items, m);
    if m == n {
        assert(tm.subrange(0, tm.len() as int) =~= tm);
    } else {
        lemma_items_prefix(items, m, (n - 1) as nat);
        lemma_every_item_is_written(items, (n - 1) as nat);
        let before = items_text(items, (n - 1) as nat);
        let tail = (if n - 1 > 0 {
            seq![',', ' ']
        } else {
            seq![]
        }) + value_text(items[n - 1]);
        assert(items_text(items, n) =~= before + tail);
        assert((before + tail).subrange(0, tm.len() as int) =~= before.subrange(0, tm.len() as int));
    }
}

/// The text of every item stands, whole, inside the text of the array.
pub proof fn lemma_array_holds_every_item(items: Vec<TomlValue>, i: int)
    requires
        0 <= i < items@.len(),
    ensures
        contains_text(value_text(TomlValue::Array(items)), value_text(items@[i])),
{
    let s = items@;
    lemma_every_item_is_written(s, i as nat);
    let sep = if i > 0 {
        seq![',', ' ']
    } else {
        seq![]
    };
    let before = items_text(s, i as nat);
    let upto = items_text(s, (i + 1) as nat);
    assert(upto =~= before + sep + value_text(s[i]));
    lemma_items_prefix(s, (i + 1) as nat, s.len());
    let all = items_text(s, s.len());
    let rest = all.subrange(upto.len() as int, all.len() as int);
    assert(all =~= before + sep + value_text(s[i]) + rest);
    let pre = seq!['['] + before + sep;
    assert(value_text(TomlValue::Array(items)) =~= pre + value_text(s[i]) + (rest + seq![']']));
    lemma_holds_in_join(pre, value_text(s[i]), rest + seq![']']);
}

// ---- classes -----------------------------------------------------------

/// A field is written as map entries exactly when it is not inline and its
/// type's last segment is `HashMap` or `BTreeMap`; any other map-like type
/// (`HashSet`, `IndexMap`, ...) is not.
pub proof fn lemma_map_entries_only_for_maps(ty: TypeShape, inline: bool)
    ensures
        field_class(ty, inline) == FieldClass::MapEntries <==> (!inline && match ty {
            TypeShape::Path(Some(seg)) => seg.ident@ == "HashMap"@ || seg.ident@ == "BTreeMap"@,
            _ => false,
        }),
{
}

/// A field is written as a section exactly when it is not inline and its
/// type is a path whose last segment has no generic arguments, is not a
/// leaf type and is not `HashMap` or `BTreeMap`.
pub proof fn lemma_sections_only_for_structs(ty: TypeShape, inline: bool)
    ensures
        field_class(ty, inline) == FieldClass::Section <==> (!inline && match ty {
            TypeShape::Path(Some(seg)) => !seg.angle_bracketed && !is_leaf_type_name(seg.ident@)
                && seg.ident@ != "HashMap"@ && seg.ident@ != "BTreeMap"@,
            _ => false,
        }),
{
}

/// Only a field whose type's last segment is `Option` is written as an
/// optional value.
pub proof fn lemma_optional_only_for_options(ty: TypeShape, inline: bool)
    ensures
        field_class(ty, inline) == FieldClass::Optional ==> match ty {
            TypeShape::Path(Some(seg)) => seg.ident@ == "Option"@,
            _ => false,
        },
{
}

/// An attribute counts as a doc comment line exactly when its path is the
/// single identifier `doc` and its value is a string literal; the line is
/// that literal's text.
pub proof fn lemma_what_a_doc_line_is(a: AttrShape)
    ensures
        doc_text(a) is Some <==> (match a.path {
            Some(p) => p@ == "doc"@,
            None => false,
        } && match a.meta {
            MetaShape::NameValue(Some(_)) => true,
            _ => false,
        }),
        a.meta matches MetaShape::NameValue(Some(v)) ==> (doc_text(a) is Some ==> doc_text(a)
            == Some(v@)),
{
}

/// The class of field a field value is.
pub open spec fn class_of_value(v: FieldValue) -> FieldClass {
    match v {
        FieldValue::MapEntries(_) => FieldClass::MapEntries,
        FieldValue::Section(_) => FieldClass::Section,
        FieldValue::Optional(_) => FieldClass::Optional,
        FieldValue::Plain(_) => FieldClass::Plain,
    }
}

/// Whether the field value `v` holds exactly what `input` gives.
pub open spec fn carries(v: FieldValue, input: FieldInput) -> bool {
    match (v, input) {
        (FieldValue::MapEntries(a), FieldInput::Serialized(b)) => a == b,
        (FieldValue::Plain(a), FieldInput::Serialized(b)) => a == b,
        (FieldValue::Optional(a), FieldInput::Present(b)) => a == b,
        (FieldValue::Section(a), FieldInput::Nested(b)) => a == b,
        _ => false,
    }
}

/// A field built from its plan has the plan's class, whatever its value (a
/// plain field whose value is a table stays plain), and it holds the value
/// given, unchanged.
pub proof fn lemma_built_fields_follow_their_class(class: FieldClass, input: FieldInput)
    requires
        fits(class, input),
    ensures
        class_of_value(field_value_of(class, input)) == class,
        carries(field_value_of(class, input), input),
{
}


// ---- numbers and trimming ----------------------------------------------

/// Whether `c` is a decimal digit character.
pub open spec fn is_digit(c: char) -> bool {
    '0' <= c && c <= '9'
}

/// The number that a string of decimal digits spells.
pub open spec fn digits_value(s: Seq<char>) -> nat
    decreases s.len(),
{
    if s.len() == 0 {
        0
    } else {
        digits_value(s.drop_last()) * 10 + (s.last() as nat - '0' as nat) as nat
    }
}

/// The decimal numeral of a natural number is made of digits only, has no
/// leading zero (but for `0` itself), and spells the number back.
pub proof fn lemma_decimal_digits_spell_the_number(n: nat)
    ensures
        decimal_digits(n).len() > 0,
        forall|i: int| 0 <= i < decimal_digits(n).len() ==> is_digit(#[trigger] decimal_digits(n)[i]),
        decimal_digits(n)[0] == '0' ==> n == 0,
        digits_value(decimal_digits(n)) == n,
    decreases n,
{
    if n < 10 {
        assert(decimal_digits(n) =~= seq![(48 + n) as char]);
        assert(decimal_digits(n).drop_last() =~= Seq::<char>::empty());
        assert(((48 + n) as char) as nat == 48 + n);
        assert('0' as nat == 48);
        assert(digits_value(decimal_digits(n)) == digits_value(decimal_digits(n).drop_last()) * 10
            + (decimal_digits(n).last() as nat - '0' as nat) as nat);
    } else {
        assert('0' as nat == 48);
        lemma_decimal_digits_spell_the_number(n / 10);
        let high = decimal_digits(n / 10);
        let d = (48 + n % 10) as char;
        assert(decimal_digits(n) == high.push(d));
        assert(high.push(d).drop_last() =~= high);
        assert(high.push(d)[0] == high[0]);
        assert(d as nat == 48 + n % 10);
        assert(digits_value(high.push(d)) == (n / 10) * 10 + n % 10);
        assert((n / 10) * 10 + n % 10 == n) by (nonlinear_arith);
        assert forall|i: int| 0 <= i < high.push(d).len() implies is_digit(#[trigger] high.push(d)[i]) by {
            if i < high.len() {
                assert(high.push(d)[i] == high[i]);
            }
        }
    }
}

/// An integer is written in decimal: a `-` before the digits of its
/// magnitude when it is negative, and those digits spell the magnitude.
pub proof fn lemma_integers_in_decimal(i: int)
    ensures
        i < 0 ==> decimal_text(i)[0] == '-' && decimal_text(i).drop_first() == decimal_digits(
            (-i) as nat,
        ) && digits_value(decimal_text(i).drop_first()) == -i,
        i >= 0 ==> decimal_text(i) == decimal_digits(i as nat) && digits_value(decimal_text(i)) == i,
{
    if i < 0 {
        lemma_decimal_digits_spell_the_number((-i) as nat);
        assert((seq!['-'] + decimal_digits((-i) as nat)).drop_first() =~= decimal_digits((-i) as nat));
    } else {
        lemma_decimal_digits_spell_the_number(i as nat);
    }
}

proof fn lemma_trim_start_splits(s: Seq<char>)
    ensures
        exists|k: int|
            0 <= k <= s.len() && #[trigger] s.skip(k) == crate::text::trim_start(s) && (forall|j: int|
                0 <= j < k ==> is_white_space(#[trigger] s[j])),
        crate::text::trim_start(s).len() > 0 ==> !is_white_space(crate::text::trim_start(s)[0]),
    decreases s.len(),
{
    if s.len() > 0 && is_white_space(s[0]) {
        lemma_trim_start_splits(s.drop_first());
        let k = choose|k: int|
            0 <= k <= s.drop_first().len() && #[trigger] s.drop_first().skip(k)
                == crate::text::trim_start(s.drop_first()) && (forall|j: int|
                0 <= j < k ==> is_white_space(#[trigger] s.drop_first()[j]));
        assert(s.skip(k + 1) =~= s.drop_first().skip(k));
        assert forall|j: int| 0 <= j < k + 1 implies is_white_space(#[trigger] s[j]) by {
            if j > 0 {
                assert(s[j] == s.drop_first()[j - 1]);
            }
        }
    } else {
        assert(s.skip(0) =~= s);
    }
}

proof fn lemma_trim_end_splits(s: Seq<char>)
    ensures
        exists|k: int|
            0 <= k <= s.len() && #[trigger] s.take(k) == crate::text::trim_end(s) && (forall|j: int|
                k <= j < s.len() ==> is_white_space(#[trigger] s[j])),
        crate::text::trim_end(s).len() > 0 ==> !is_white_space(crate::text::trim_end(s).last()),
    decreases s.len(),
{
    if s.len() > 0 && is_white_space(s.last()) {
        lemma_trim_end_splits(s.drop_last());
        let k = choose|k: int|
            0 <= k <= s.drop_last().len() && #[trigger] s.drop_last().take(k)
                == crate::text::trim_end(s.drop_last()) && (forall|j: int|
                k <= j < s.drop_last().len() ==> is_white_space(#[trigger] s.drop_last()[j]));
        assert(s.take(k) =~= s.drop_last().take(k));
        assert forall|j: int| k <= j < s.len() implies is_white_space(#[trigger] s[j]) by {
            if j < s.len() - 1 {
                assert(s[j] == s.drop_last()[j]);
            }
        }
    } else {
        assert(s.take(s.len() as int) =~= s);
    }
}

/// Trimming takes away white space at both ends and nothing else: what is
/// left is a piece of the text, the characters before and after it are all
/// white space, and it neither starts nor ends with white space.
pub proof fn lemma_trim_removes_only_outer_white_space(s: Seq<char>)
    ensures
        exists|a: int, b: int|
            0 <= a <= b <= s.len() && #[trigger] s.subrange(a, b) == trim(s) && (forall|j: int|
                0 <= j < a ==> is_white_space(#[trigger] s[j])) && (forall|j: int|
                b <= j < s.len() ==> is_white_space(#[trigger] s[j])),
        trim(s).len() > 0 ==> !is_white_space(trim(s)[0]) && !is_white_space(trim(s).last()),
{
    lemma_trim_start_splits(s);
    let a = choose|k: int|
        0 <= k <= s.len() && #[trigger] s.skip(k) == crate::text::trim_start(s) && (forall|j: int|
            0 <= j < k ==> is_white_space(#[trigger] s[j]));
    let t = crate::text::trim_start(s);
    lemma_trim_end_splits(t);
    let k = choose|k: int|
        0 <= k <= t.len() && #[trigger] t.take(k) == crate::text::trim_end(t) && (forall|j: int|
            k <= j < t.len() ==> is_white_space(#[trigger] t[j]));
    let b = a + k;
    assert(s.subrange(a, b) =~= t.take(k));
    assert forall|j: int| b <= j < s.len() implies is_white_space(#[trigger] s[j]) by {
        assert(s[j] == t[j - a]);
    }
    if trim(s).len() > 0 {
        assert(trim(s)[0] == t[0]);
    }
    assert(s.subrange(a, b) == trim(s));
}

} // verus!
