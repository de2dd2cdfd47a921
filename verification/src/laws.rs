//! Properties of the rendered text that hold for every input.

use vstd::prelude::*;

use crate::document::{
    Document, Field, FieldValue, comment_line, comment_lines, comments, document_text, entry_lines,
    field_text, fields_text, key_line, section_before, section_path,
};
use crate::value::{
    TomlValue, date_display, date_parts, datetime_display, entries_text, entry_text, float_text,
    items_text, offset_display, offset_parts, quoted, time_display, time_parts, value_text,
    without_trailing_zeros, zero_padded,
};
use crate::text::{
    decimal_digits, decimal_text, digit_char, escaped, escaped_char, is_forbidden_control,
    read_basic_string, simple_escape, unescape_basic,
};
use crate::plan::{FieldClass, PathSegmentShape, TypeShape, field_class, is_leaf_type_name};

verus! {

/// Every line of text ends with a newline: the text is empty or its last
/// character is `\n`.
pub open spec fn whole_lines(s: Seq<char>) -> bool {
    s.len() == 0 || s.last() == '\n'
}

proof fn lemma_append_lines(a: Seq<char>, b: Seq<char>)
    requires
        whole_lines(a),
        whole_lines(b),
    ensures
        whole_lines(a + b),
{
    if b.len() > 0 {
        assert((a + b).last() == b.last());
    } else {
        assert(a + b =~= a);
    }
}

proof fn lemma_comment_lines(docs: Seq<String>, n: nat)
    ensures
        whole_lines(comment_lines(docs, n)),
    decreases n,
{
    if n > 0 && n <= docs.len() {
        lemma_comment_lines(docs, (n - 1) as nat);
        lemma_append_lines(comment_lines(docs, (n - 1) as nat), comment_line(docs[n - 1]@));
    }
}

proof fn lemma_entry_lines(entries: Seq<(String, TomlValue)>, n: nat)
    ensures
        whole_lines(entry_lines(entries, n)),
    decreases n,
{
    if n > 0 && n <= entries.len() {
        lemma_entry_lines(entries, (n - 1) as nat);
        lemma_append_lines(
            entry_lines(entries, (n - 1) as nat),
            key_line(entries[n - 1].0@, entries[n - 1].1),
        );
    }
}

proof fn lemma_section_lines(f: Field, d: Document, prefix: Seq<char>, blank: bool)
    requires
        f.value == FieldValue::Section(d),
    ensures
        whole_lines(field_text(f, prefix, blank)),
    decreases f, 1nat,
{
    let path = section_path(prefix, f.name@);
    let head = (if blank {
        seq!['\n']
    } else {
        seq![]
    }) + comments(f.docs@) + seq!['['] + path + seq![']', '\n'];
    assert(head.last() == '\n');
    assert(decreases_to!(f => f.value));
    assert(decreases_to!(f.value => f.value->Section_0));
    lemma_document_lines(d, path);
    lemma_append_lines(head, document_text(d, path));
    assert(field_text(f, prefix, blank) == head + document_text(d, path));
}

proof fn lemma_field_lines(f: Field, prefix: Seq<char>, blank: bool)
    ensures
        whole_lines(field_text(f, prefix, blank)),
    decreases f, 2nat,
{
    lemma_comment_lines(f.docs@, f.docs@.len());
    match f.value {
        FieldValue::MapEntries(v) => {
            if let TomlValue::Table(entries) = v {
                lemma_entry_lines(entries@, entries@.len());
                lemma_append_lines(comments(f.docs@), entry_lines(entries@, entries@.len()));
            }
        },
        FieldValue::Section(d) => {
            lemma_section_lines(f, d, prefix, blank);
        },
        FieldValue::Optional(o) => {
            if let Some(v) = o {
                lemma_append_lines(comments(f.docs@), key_line(f.name@, v));
            }
        },
        FieldValue::Plain(v) => {
            lemma_append_lines(comments(f.docs@), key_line(f.name@, v));
        },
    }
}

proof fn lemma_fields_lines(fields: Seq<Field>, n: nat, prefix: Seq<char>, documented: bool)
    ensures
        whole_lines(fields_text(fields, n, prefix, documented)),
    decreases fields, n,
{
    if n > 0 && n <= fields.len() {
        lemma_fields_lines(fields, (n - 1) as nat, prefix, documented);
        let blank = documented || section_before(fields, (n - 1) as nat);
        lemma_field_lines(fields[n - 1], prefix, blank);
        lemma_append_lines(
            fields_text(fields, (n - 1) as nat, prefix, documented),
            field_text(fields[n - 1], prefix, blank),
        );
    }
}

/// The commented TOML of a struct is made of whole lines: it is empty or it
/// ends with a newline, at the top level and inside any section.
pub proof fn lemma_document_lines(doc: Document, prefix: Seq<char>)
    ensures
        whole_lines(document_text(doc, prefix)),
    decreases doc, 0nat,
{
    lemma_comment_lines(doc.docs@, doc.docs@.len());
    lemma_fields_lines(doc.fields@, doc.fields@.len(), prefix, doc.docs@.len() > 0);
    lemma_append_lines(
        comments(doc.docs@),
        fields_text(doc.fields@, doc.fields@.len(), prefix, doc.docs@.len() > 0),
    );
}


/// A field that leaves no text: an absent `Option`, or a map whose value is
/// not a non-empty table.
pub open spec fn is_omitted(f: Field) -> bool {
    match f.value {
        FieldValue::Optional(o) => o is None,
        FieldValue::MapEntries(v) => !(v matches TomlValue::Table(entries) && entries@.len() > 0),
        _ => false,
    }
}

proof fn lemma_omitted_field_text(f: Field, prefix: Seq<char>, blank: bool)
    requires
        is_omitted(f),
    ensures
        field_text(f, prefix, blank) == Seq::<char>::empty(),
{
}

proof fn lemma_section_before_remove(fields: Seq<Field>, i: int, k: nat)
    requires
        0 <= i < fields.len(),
        !(fields[i].value is Section),
        k <= fields.len(),
    ensures
        k <= i ==> section_before(fields.remove(i), k) == section_before(fields, k),
        k > i ==> section_before(fields.remove(i), (k - 1) as nat) == section_before(fields, k),
    decreases k,
{
    let r = fields.remove(i);
    if k > 0 {
        lemma_section_before_remove(fields, i, (k - 1) as nat);
        if k <= i {
            assert(r[k - 1] == fields[k - 1]);
        } else if k > i + 1 {
            assert(r[k - 2] == fields[k - 1]);
        }
    }
}

proof fn lemma_fields_remove(fields: Seq<Field>, i: int, n: nat, prefix: Seq<char>, documented: bool)
    requires
        0 <= i < fields.len(),
        is_omitted(fields[i]),
        n <= fields.len(),
    ensures
        n <= i ==> fields_text(fields.remove(i), n, prefix, documented) == fields_text(
            fields,
            n,
            prefix,
            documented,
        ),
        n > i ==> fields_text(fields.remove(i), (n - 1) as nat, prefix, documented) == fields_text(
            fields,
            n,
            prefix,
            documented,
        ),
    decreases n,
{
    let r = fields.remove(i);
    if n > 0 {
        lemma_fields_remove(fields, i, (n - 1) as nat, prefix, documented);
        if n <= i {
            lemma_section_before_remove(fields, i, (n - 1) as nat);
            assert(r[n - 1] == fields[n - 1]);
        } else if n == i + 1 {
            lemma_omitted_field_text(
                fields[i],
                prefix,
                documented || section_before(fields, i as nat),
            );
            assert(fields_text(fields, n, prefix, documented) =~= fields_text(
                fields,
                i as nat,
                prefix,
                documented,
            ));
        } else {
            lemma_section_before_remove(fields, i, (n - 1) as nat);
            assert(r[n - 2] == fields[n - 1]);
        }
    }
}

/// Taking out a field that leaves no text (an absent `Option`, or a map that
/// is not a non-empty table) leaves the text of the struct unchanged: such a
/// field is not written, and it moves no empty line before a section.
pub proof fn lemma_omitted_field_leaves_no_trace(
    doc: Document,
    without: Document,
    i: int,
    prefix: Seq<char>,
)
    requires
        0 <= i < doc.fields@.len(),
        is_omitted(doc.fields@[i]),
        without.docs@ == doc.docs@,
        without.fields@ == doc.fields@.remove(i),
    ensures
        document_text(without, prefix) == document_text(doc, prefix),
{
    lemma_fields_remove(doc.fields@, i, doc.fields@.len(), prefix, doc.docs@.len() > 0);
}

proof fn lemma_all_omitted_fields(fields: Seq<Field>, n: nat, prefix: Seq<char>, documented: bool)
    requires
        n <= fields.len(),
        forall|k: int| 0 <= k < fields.len() ==> is_omitted(#[trigger] fields[k]),
    ensures
        fields_text(fields, n, prefix, documented) == Seq::<char>::empty(),
    decreases n,
{
    if n > 0 {
        lemma_all_omitted_fields(fields, (n - 1) as nat, prefix, documented);
        assert(is_omitted(fields[n - 1]));
        lemma_omitted_field_text(
            fields[n - 1],
            prefix,
            documented || section_before(fields, (n - 1) as nat),
        );
    }
}

/// A struct without doc comments whose fields all leave no text (absent
/// `Option`s, maps that are not non-empty tables) is written as nothing.
pub proof fn lemma_nothing_to_write(doc: Document, prefix: Seq<char>)
    requires
        doc.docs@.len() == 0,
        forall|k: int| 0 <= k < doc.fields@.len() ==> is_omitted(#[trigger] doc.fields@[k]),
    ensures
        document_text(doc, prefix) == Seq::<char>::empty(),
{
    lemma_all_omitted_fields(doc.fields@, doc.fields@.len(), prefix, false);
    assert(comments(doc.docs@) =~= Seq::<char>::empty());
}

proof fn lemma_section_before_exists(fields: Seq<Field>, i: nat)
    requires
        i <= fields.len(),
    ensures
        section_before(fields, i) <==> exists|j: int| 0 <= j < i && (#[trigger] fields[j]).value is Section,
    decreases i,
{
    if i > 0 {
        lemma_section_before_exists(fields, (i - 1) as nat);
        if fields[i - 1].value is Section {
            assert(exists|j: int| 0 <= j < i && (#[trigger] fields[j]).value is Section);
        }
        if exists|j: int| 0 <= j < i && (#[trigger] fields[j]).value is Section {
            let j = choose|j: int| 0 <= j < i && (#[trigger] fields[j]).value is Section;
            if j < i - 1 {
                assert(exists|j: int| 0 <= j < i - 1 && (#[trigger] fields[j]).value is Section);
            }
        }
    }
}

/// A section starts with an empty line exactly when the struct has doc
/// comments or an earlier field is a section: the first section of a struct
/// without doc comments follows the previous lines directly, every other one
/// is set apart by an empty line.
pub proof fn lemma_section_separation(fields: Seq<Field>, i: int, prefix: Seq<char>, documented: bool)
    requires
        0 <= i < fields.len(),
        fields[i].value is Section,
    ensures
        fields_text(fields, (i + 1) as nat, prefix, documented) == fields_text(
            fields,
            i as nat,
            prefix,
            documented,
        ) + field_text(fields[i], prefix, documented || section_before(fields, i as nat)),
        field_text(fields[i], prefix, documented || section_before(fields, i as nat))[0] == '\n'
            <==> (documented || exists|j: int| 0 <= j < i && (#[trigger] fields[j]).value is Section),
{
    lemma_section_before_exists(fields, i as nat);
    let f = fields[i];
    let blank = documented || section_before(fields, i as nat);
    if let FieldValue::Section(d) = f.value {
        let path = section_path(prefix, f.name@);
        let rest = comments(f.docs@) + seq!['['] + path + seq![']', '\n'] + document_text(d, path);
        if blank {
            assert(field_text(f, prefix, blank) =~= seq!['\n'] + rest);
        } else {
            assert(field_text(f, prefix, blank) =~= rest);
            if f.docs@.len() > 0 {
                lemma_comments_start(f.docs@, f.docs@.len());
                assert(rest[0] == comments(f.docs@)[0]);
            } else {
                assert(comments(f.docs@) =~= Seq::<char>::empty());
                assert(rest[0] == '[');
            }
        }
    }
}

proof fn lemma_comments_start(docs: Seq<String>, n: nat)
    requires
        0 < n <= docs.len(),
    ensures
        comment_lines(docs, n).len() > 0,
        comment_lines(docs, n)[0] == '#',
    decreases n,
{
    if n > 1 {
        lemma_comments_start(docs, (n - 1) as nat);
    } else {
        assert(comment_lines(docs, 0) =~= Seq::<char>::empty());
        assert(comment_lines(docs, n) =~= comment_line(docs[0]@));
    }
}

/// The text of a float always holds a decimal point: `Display`'s text when
/// it has one, else that text followed by `.0`.
pub proof fn lemma_float_text_has_point(t: Seq<char>)
    ensures
        float_text(t).contains('.'),
        t.contains('.') ==> float_text(t) == t,
        !t.contains('.') ==> float_text(t) == t + seq!['.', '0'],
{
    if !t.contains('.') {
        assert((t + seq!['.', '0'])[t.len() as int] == '.');
    }
}

proof fn lemma_escaped_char_last(c: char)
    ensures
        escaped_char(c).len() > 0,
        escaped_char(c).last() == c,
{
}

/// Escaping is one to one: two texts with the same escaped form are equal.
pub proof fn lemma_escaped_injective(a: Seq<char>, b: Seq<char>)
    requires
        escaped(a) == escaped(b),
    ensures
        a == b,
    decreases a.len() + b.len(),
{
    if a.len() == 0 && b.len() == 0 {
        assert(a =~= b);
    } else if a.len() == 0 {
        lemma_escaped_char_last(b.last());
        assert(escaped(b).len() > 0);
    } else if b.len() == 0 {
        lemma_escaped_char_last(a.last());
        assert(escaped(a).len() > 0);
    } else {
        let ea = escaped(a.drop_last());
        let eb = escaped(b.drop_last());
        let ca = escaped_char(a.last());
        let cb = escaped_char(b.last());
        lemma_escaped_char_last(a.last());
        lemma_escaped_char_last(b.last());
        assert((ea + ca).last() == ca.last());
        assert((eb + cb).last() == cb.last());
        assert(a.last() == b.last());
        let total = escaped(a);
        assert(total.subrange(0, total.len() - ca.len()) =~= ea);
        assert(total.subrange(0, total.len() - cb.len()) =~= eb);
        lemma_escaped_injective(a.drop_last(), b.drop_last());
        assert(a =~= a.drop_last().push(a.last()));
        assert(b =~= b.drop_last().push(b.last()));
    }
}

/// Two strings are written as the same TOML string only when they are equal.
pub proof fn lemma_quoted_injective(a: Seq<char>, b: Seq<char>)
    requires
        quoted(a) == quoted(b),
    ensures
        a == b,
{
    let qa = quoted(a);
    assert(qa.subrange(1, qa.len() - 1) =~= escaped(a));
    assert(quoted(b).subrange(1, quoted(b).len() - 1) =~= escaped(b));
    lemma_escaped_injective(a, b);
}


/// A field marked `#[toml_comment(inline)]` is always written on one line as
/// `name = value` (when present): never as map entries nor as a section.
pub proof fn lemma_inline_fields_stay_inline(ty: TypeShape)
    ensures
        field_class(ty, true) == FieldClass::Optional || field_class(ty, true) == FieldClass::Plain,
{
}

/// An `Option<..>` field is written as an optional value, inline or not.
pub proof fn lemma_option_fields_are_optional(seg: PathSegmentShape, inline: bool)
    requires
        seg.ident@ == "Option"@,
        seg.angle_bracketed,
    ensures
        field_class(TypeShape::Path(Some(seg)), inline) == FieldClass::Optional,
{
    reveal_strlit("Option");
    reveal_strlit("HashMap");
    reveal_strlit("BTreeMap");
    assert("Option"@[0] == 'O' && "HashMap"@[0] == 'H' && "BTreeMap"@[0] == 'B');
}

/// A field whose type has generic arguments (`Vec<String>`) is never written
/// as a section, and one of a leaf type (`u32`, `String`, ...) is written as
/// `name = value`.
pub proof fn lemma_generic_and_leaf_fields(seg: PathSegmentShape, inline: bool)
    ensures
        seg.angle_bracketed ==> field_class(TypeShape::Path(Some(seg)), inline) != FieldClass::Section,
        !seg.angle_bracketed && is_leaf_type_name(seg.ident@) ==> field_class(
            TypeShape::Path(Some(seg)),
            inline,
        ) == FieldClass::Plain,
{
    reveal_strlit("Option");
    reveal_strlit("HashMap");
    reveal_strlit("BTreeMap");
    reveal_strlit("bool");
    reveal_strlit("u8");
    reveal_strlit("u16");
    reveal_strlit("u32");
    reveal_strlit("u64");
    reveal_strlit("u128");
    reveal_strlit("i8");
    reveal_strlit("i16");
    reveal_strlit("i32");
    reveal_strlit("i64");
    reveal_strlit("i128");
    reveal_strlit("f32");
    reveal_strlit("f64");
    reveal_strlit("usize");
    reveal_strlit("isize");
    reveal_strlit("String");
    assert("Option"@[0] == 'O' && "HashMap"@[0] == 'H' && "BTreeMap"@[0] == 'B');
    if is_leaf_type_name(seg.ident@) {
        let c = seg.ident@[0];
        assert(c == 'b' || c == 'u' || c == 'i' || c == 'f' || c == 'S');
    }
}


/// A text without line breaks: no `\n` and no `\r`.
pub open spec fn single_line(s: Seq<char>) -> bool {
    forall|i: int| 0 <= i < s.len() ==> #[trigger] s[i] != '\n' && s[i] != '\r'
}

/// A value whose strings, table keys and float texts (at any depth) have no
/// line breaks.
pub open spec fn line_free(v: TomlValue) -> bool
    decreases v, 0nat,
{
    match v {
        TomlValue::String(s) => single_line(s@),
        TomlValue::Float(t) => single_line(t@),
        TomlValue::Array(items) => line_free_items(items@, items@.len()),
        TomlValue::Table(entries) => line_free_entries(entries@, entries@.len()),
        _ => true,
    }
}

/// The first `n` items are line free.
pub open spec fn line_free_items(items: Seq<TomlValue>, n: nat) -> bool
    decreases items, n,
{
    if n == 0 || n > items.len() {
        true
    } else {
        line_free_items(items, (n - 1) as nat) && line_free(items[n - 1])
    }
}

/// The first `n` entries have line-free keys and values.
pub open spec fn line_free_entries(entries: Seq<(String, TomlValue)>, n: nat) -> bool
    decreases entries, n,
{
    if n == 0 || n > entries.len() {
        true
    } else {
        line_free_entries(entries, (n - 1) as nat) && single_line(entries[n - 1].0@) && line_free(
            entries[n - 1].1,
        )
    }
}

proof fn lemma_join_single(a: Seq<char>, b: Seq<char>)
    requires
        single_line(a),
        single_line(b),
    ensures
        single_line(a + b),
{
    assert forall|i: int| 0 <= i < (a + b).len() implies #[trigger] (a + b)[i] != '\n' && (a
        + b)[i] != '\r' by {
        if i < a.len() {
            assert((a + b)[i] == a[i]);
        } else {
            assert((a + b)[i] == b[i - a.len()]);
        }
    }
}

proof fn lemma_escaped_single(s: Seq<char>)
    requires
        single_line(s),
    ensures
        single_line(escaped(s)),
    decreases s.len(),
{
    if s.len() > 0 {
        assert(single_line(s.drop_last()));
        lemma_escaped_single(s.drop_last());
        let c = s.last();
        assert(s[s.len() - 1] == c);
        lemma_join_single(escaped(s.drop_last()), escaped_char(c));
    }
}

proof fn lemma_digits_single(n: nat)
    ensures
        single_line(decimal_digits(n)),
    decreases n,
{
    if n < 10 {
        assert(digit_char(n) as u32 == 48 + n);
    } else {
        lemma_digits_single(n / 10);
        assert(digit_char(n % 10) as u32 == 48 + n % 10);
        lemma_join_single(decimal_digits(n / 10), seq![digit_char(n % 10)]);
        assert(decimal_digits(n) == decimal_digits(n / 10) + seq![digit_char(n % 10)]);
    }
}

proof fn lemma_padded_single(n: nat, width: nat)
    ensures
        single_line(zero_padded(n, width)),
{
    lemma_digits_single(n);
    let digits = decimal_digits(n);
    if digits.len() < width {
        let zeros = Seq::new((width - digits.len()) as nat, |i: int| '0');
        lemma_join_single(zeros, digits);
    }
}

proof fn lemma_trimmed_single(s: Seq<char>)
    requires
        single_line(s),
    ensures
        single_line(without_trailing_zeros(s)),
    decreases s.len(),
{
    if s.len() > 0 && s.last() == '0' {
        assert(single_line(s.drop_last()));
        lemma_trimmed_single(s.drop_last());
    }
}

proof fn lemma_datetime_single(
    date: Option<(u16, u8, u8)>,
    time: Option<(u8, u8, u8, u32)>,
    offset: Option<Option<i16>>,
)
    ensures
        single_line(datetime_display(date, time, offset)),
{
    let a = match date {
        Some((y, mo, d)) => date_display(y, mo, d),
        None => seq![],
    };
    let b = match time {
        Some((h, mi, se, ns)) => (if date is Some {
            seq!['T']
        } else {
            seq![]
        }) + time_display(h, mi, se, ns),
        None => seq![],
    };
    let c = match offset {
        Some(o) => offset_display(o),
        None => seq![],
    };
    if let Some((y, mo, d)) = date {
        lemma_padded_single(y as nat, 4);
        lemma_padded_single(mo as nat, 2);
        lemma_padded_single(d as nat, 2);
        lemma_join_single(zero_padded(y as nat, 4), seq!['-']);
        lemma_join_single(zero_padded(y as nat, 4) + seq!['-'], zero_padded(mo as nat, 2));
        lemma_join_single(zero_padded(y as nat, 4) + seq!['-'] + zero_padded(mo as nat, 2), seq!['-']);
        lemma_join_single(
            zero_padded(y as nat, 4) + seq!['-'] + zero_padded(mo as nat, 2) + seq!['-'],
            zero_padded(d as nat, 2),
        );
    }
    if let Some((h, mi, se, ns)) = time {
        lemma_padded_single(h as nat, 2);
        lemma_padded_single(mi as nat, 2);
        lemma_padded_single(se as nat, 2);
        let p1 = zero_padded(h as nat, 2) + seq![':'];
        lemma_join_single(zero_padded(h as nat, 2), seq![':']);
        lemma_join_single(p1, zero_padded(mi as nat, 2));
        let p2 = p1 + zero_padded(mi as nat, 2) + seq![':'];
        lemma_join_single(p1 + zero_padded(mi as nat, 2), seq![':']);
        lemma_join_single(p2, zero_padded(se as nat, 2));
        let p3 = p2 + zero_padded(se as nat, 2);
        let frac = if ns != 0 {
            seq!['.'] + without_trailing_zeros(zero_padded(ns as nat, 9))
        } else {
            seq![]
        };
        lemma_padded_single(ns as nat, 9);
        lemma_trimmed_single(zero_padded(ns as nat, 9));
        lemma_join_single(seq!['.'], without_trailing_zeros(zero_padded(ns as nat, 9)));
        lemma_join_single(p3, frac);
        assert(time_display(h, mi, se, ns) == p3 + frac);
        let t = if date is Some {
            seq!['T']
        } else {
            seq![]
        };
        lemma_join_single(t, p3 + frac);
    }
    if let Some(o) = offset {
        if let Some(m) = o {
            let magnitude: int = if m < 0 {
                -m
            } else {
                m as int
            };
            let sign = seq![
                if m < 0 {
                    '-'
                } else {
                    '+'
                },
            ];
            lemma_padded_single((magnitude / 60) as nat, 2);
            lemma_padded_single((magnitude % 60) as nat, 2);
            lemma_join_single(sign, zero_padded((magnitude / 60) as nat, 2));
            lemma_join_single(sign + zero_padded((magnitude / 60) as nat, 2), seq![':']);
            lemma_join_single(
                sign + zero_padded((magnitude / 60) as nat, 2) + seq![':'],
                zero_padded((magnitude % 60) as nat, 2),
            );
        }
    }
    lemma_join_single(a, b);
    lemma_join_single(a + b, c);
}

proof fn lemma_items_single(items: Seq<TomlValue>, n: nat)
    requires
        line_free_items(items, n),
    ensures
        single_line(items_text(items, n)),
    decreases items, n,
{
    if n > 0 && n <= items.len() {
        lemma_items_single(items, (n - 1) as nat);
        lemma_values_stay_on_one_line(items[n - 1]);
        if n > 1 {
            lemma_join_single(items_text(items, (n - 1) as nat), seq![',', ' ']);
            lemma_join_single(
                items_text(items, (n - 1) as nat) + seq![',', ' '],
                value_text(items[n - 1]),
            );
        }
    }
}

proof fn lemma_entries_single(entries: Seq<(String, TomlValue)>, n: nat)
    requires
        line_free_entries(entries, n),
    ensures
        single_line(entries_text(entries, n)),
    decreases entries, n,
{
    if n > 0 && n <= entries.len() {
        lemma_entries_single(entries, (n - 1) as nat);
        let k = entries[n - 1].0@;
        let v = entries[n - 1].1;
        lemma_values_stay_on_one_line(v);
        lemma_join_single(k, seq![' ', '=', ' ']);
        lemma_join_single(k + seq![' ', '=', ' '], value_text(v));
        assert(entry_text(k, v) == k + seq![' ', '=', ' '] + value_text(v));
        if n > 1 {
            lemma_join_single(entries_text(entries, (n - 1) as nat), seq![',', ' ']);
            lemma_join_single(
                entries_text(entries, (n - 1) as nat) + seq![',', ' '],
                entry_text(k, v),
            );
        }
    }
}

/// Every value is written on one line: when no string, table key or float
/// text inside it holds a line break, neither does its text.
pub proof fn lemma_values_stay_on_one_line(v: TomlValue)
    requires
        line_free(v),
    ensures
        single_line(value_text(v)),
    decreases v, 1nat,
{
    match v {
        TomlValue::String(s) => {
            lemma_escaped_single(s@);
            lemma_join_single(seq!['"'], escaped(s@));
            lemma_join_single(seq!['"'] + escaped(s@), seq!['"']);
        },
        TomlValue::Integer(i) => {
            lemma_digits_single((if i < 0 {
                -i
            } else {
                i as int
            }) as nat);
            if i < 0 {
                lemma_join_single(seq!['-'], decimal_digits((-i) as nat));
            }
        },
        TomlValue::Float(t) => {
            if !t@.contains('.') {
                lemma_join_single(t@, seq!['.', '0']);
            }
        },
        TomlValue::Boolean(b) => {},
        TomlValue::Datetime(dt) => {
            lemma_datetime_single(
                date_parts(dt.date),
                time_parts(dt.time),
                offset_parts(dt.offset),
            );
        },
        TomlValue::Array(items) => {
            lemma_items_single(items@, items@.len());
            lemma_join_single(seq!['['], items_text(items@, items@.len()));
            lemma_join_single(seq!['['] + items_text(items@, items@.len()), seq![']']);
        },
        TomlValue::Table(entries) => {
            lemma_entries_single(entries@, entries@.len());
            lemma_join_single(seq!['{', ' '], entries_text(entries@, entries@.len()));
            lemma_join_single(
                seq!['{', ' '] + entries_text(entries@, entries@.len()),
                seq![' ', '}'],
            );
        },
    }
}


proof fn lemma_escaped_concat(a: Seq<char>, b: Seq<char>)
    ensures
        escaped(a + b) == escaped(a) + escaped(b),
    decreases b.len(),
{
    if b.len() == 0 {
        assert(a + b =~= a);
        assert(escaped(a) + escaped(b) =~= escaped(a));
    } else {
        lemma_escaped_concat(a, b.drop_last());
        assert((a + b).drop_last() =~= a + b.drop_last());
        assert((a + b).last() == b.last());
        assert(escaped(a) + escaped(b) =~= escaped(a) + escaped(b.drop_last()) + escaped_char(
            b.last(),
        ));
    }
}

proof fn lemma_escaped_front(s: Seq<char>)
    requires
        s.len() > 0,
    ensures
        escaped(s) == escaped_char(s[0]) + escaped(s.drop_first()),
{
    let head = seq![s[0]];
    assert(s =~= head + s.drop_first());
    lemma_escaped_concat(head, s.drop_first());
    assert(head.drop_last() =~= Seq::<char>::empty());
    assert(escaped(head.drop_last()) =~= Seq::<char>::empty());
    assert(head.last() == s[0]);
    assert(escaped(head) == escaped(head.drop_last()) + escaped_char(head.last()));
    assert(escaped(head) =~= escaped_char(s[0]));
}

/// A text in which every character may stand in a TOML basic string once
/// `\` and `"` are escaped: no control character other than tab.
pub open spec fn no_forbidden_controls(s: Seq<char>) -> bool {
    forall|i: int| 0 <= i < s.len() ==> !is_forbidden_control(#[trigger] s[i])
}

proof fn lemma_unescape_escaped(s: Seq<char>)
    requires
        no_forbidden_controls(s),
    ensures
        unescape_basic(escaped(s)) == Some(s),
    decreases s.len(),
{
    if s.len() == 0 {
        assert(escaped(s) =~= Seq::<char>::empty());
    } else {
        lemma_escaped_front(s);
        let c = s[0];
        let rest = s.drop_first();
        assert(no_forbidden_controls(rest)) by {
            assert forall|i: int| 0 <= i < rest.len() implies !is_forbidden_control(
                #[trigger] rest[i],
            ) by {
                assert(rest[i] == s[i + 1]);
            }
        }
        lemma_unescape_escaped(rest);
        let e = escaped(s);
        if c == '\\' || c == '"' {
            assert(e =~= seq!['\\', c] + escaped(rest));
            assert(e.skip(2) =~= escaped(rest));
            assert(simple_escape(c) == Some(c));
        } else {
            assert(e =~= seq![c] + escaped(rest));
            assert(e.drop_first() =~= escaped(rest));
            assert(!is_forbidden_control(s[0]));
        }
        assert(seq![c] + rest =~= s);
    }
}

/// A TOML reader gets back every string that is written: the text that a
/// string value is written as (`"` and `\` escaped, between quotes) reads as
/// that same string, whenever the string holds no control character other
/// than tab (those a basic string cannot hold unescaped).
pub proof fn lemma_strings_read_back(s: String)
    requires
        no_forbidden_controls(s@),
    ensures
        read_basic_string(value_text(TomlValue::String(s))) == Some(s@),
{
    lemma_unescape_escaped(s@);
    let t = value_text(TomlValue::String(s));
    assert(t == quoted(s@));
    assert(t.subrange(1, t.len() - 1) =~= escaped(s@));
}

} // verus!
