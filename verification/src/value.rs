//! A model of TOML values and their inline rendering.

use vstd::prelude::*;

use crate::text::{
    chars_of, decimal_digits, decimal_text, escaped, push_char, push_decimal, push_escaped,
};

verus! {

/// A calendar date of a TOML datetime.
pub struct TomlDate {
    pub year: u16,
    pub month: u8,
    pub day: u8,
}

/// A wall-clock time of a TOML datetime.
pub struct TomlTime {
    pub hour: u8,
    pub minute: u8,
    pub second: u8,
    pub nanosecond: u32,
}

/// A UTC offset in minutes. Every value but `i16::MIN` can be displayed, so
/// that one is refused when the offset is made.
pub struct UtcOffset {
    minutes: i16,
}

impl UtcOffset {
    #[verifier::type_invariant]
    spec fn displayable(self) -> bool {
        self.minutes != i16::MIN
    }

    /// The offset in minutes.
    pub closed spec fn spec_minutes(self) -> i16 {
        self.minutes
    }

    /// The offset of `minutes` minutes from UTC, or `None` for `i16::MIN`.
    pub fn new(minutes: i16) -> (r: Option<UtcOffset>)
        ensures
            r matches Some(o) ==> o.spec_minutes() == minutes,
            r is None <==> minutes == i16::MIN,
    {
        if minutes == i16::MIN {
            None
        } else {
            Some(UtcOffset { minutes })
        }
    }

    /// The offset in minutes.
    pub fn minutes(&self) -> (m: i16)
        ensures
            m == self.spec_minutes(),
            m != i16::MIN,
    {
        proof {
            use_type_invariant(self);
        }
        self.minutes
    }
}

/// The offset part of a TOML datetime: `Z`, or a number of minutes.
pub enum TomlOffset {
    Z,
    Custom(UtcOffset),
}

/// A TOML datetime: a date, a time, or both, with an optional offset.
pub struct TomlDatetime {
    pub date: Option<TomlDate>,
    pub time: Option<TomlTime>,
    pub offset: Option<TomlOffset>,
}

/// A TOML value, as `toml::Value` holds it. A float is held by the text
/// that Rust's `Display` gives for it, and a table by its entries in the
/// order in which the table is walked.
pub enum TomlValue {
    String(String),
    Integer(i64),
    Float(String),
    Boolean(bool),
    Datetime(TomlDatetime),
    Array(Vec<TomlValue>),
    Table(Vec<(String, TomlValue)>),
}

/// `n` in decimal with leading zeros up to `width` digits, as `{:0width$}`
/// writes it.
pub open spec fn zero_padded(n: nat, width: nat) -> Seq<char> {
    let digits = decimal_digits(n);
    if digits.len() < width {
        Seq::new((width - digits.len()) as nat, |i: int| '0') + digits
    } else {
        digits
    }
}

/// `s` without its trailing `0`s.
pub open spec fn without_trailing_zeros(s: Seq<char>) -> Seq<char>
    decreases s.len(),
{
    if s.len() > 0 && s.last() == '0' {
        without_trailing_zeros(s.drop_last())
    } else {
        s
    }
}

/// A date as `YYYY-MM-DD`.
pub open spec fn date_display(year: u16, month: u8, day: u8) -> Seq<char> {
    zero_padded(year as nat, 4) + seq!['-'] + zero_padded(month as nat, 2) + seq!['-']
        + zero_padded(day as nat, 2)
}

/// A time as `HH:MM:SS`, followed, when the nanoseconds are not zero, by a
/// `.` and the nine-digit nanoseconds without their trailing zeros.
pub open spec fn time_display(hour: u8, minute: u8, second: u8, nanosecond: u32) -> Seq<char> {
    zero_padded(hour as nat, 2) + seq![':'] + zero_padded(minute as nat, 2) + seq![':']
        + zero_padded(second as nat, 2) + if nanosecond != 0 {
        seq!['.'] + without_trailing_zeros(zero_padded(nanosecond as nat, 9))
    } else {
        seq![]
    }
}

/// An offset: `Z` for `None`; for `Some(m)`, the sign of `m` (`+` for zero)
/// and its magnitude as `HH:MM`.
pub open spec fn offset_display(offset: Option<i16>) -> Seq<char> {
    match offset {
        None => seq!['Z'],
        Some(m) => {
            let magnitude: int = if m < 0 {
                -m
            } else {
                m as int
            };
            seq![
                if m < 0 {
                    '-'
                } else {
                    '+'
                },
            ] + zero_padded((magnitude / 60) as nat, 2) + seq![':'] + zero_padded(
                (magnitude % 60) as nat,
                2,
            )
        },
    }
}

/// What `toml::value::Datetime`'s `Display` writes for the datetime made of
/// these parts (the offset: `None` for none, `Some(None)` for `Z`,
/// `Some(Some(m))` for `m` minutes): the date, then the time (after a `T`
/// when there is a date), then the offset.
pub open spec fn datetime_display(
    date: Option<(u16, u8, u8)>,
    time: Option<(u8, u8, u8, u32)>,
    offset: Option<Option<i16>>,
) -> Seq<char> {
    (match date {
        Some((y, mo, d)) => date_display(y, mo, d),
        None => seq![],
    }) + (match time {
        Some((h, mi, se, ns)) => (if date is Some {
            seq!['T']
        } else {
            seq![]
        }) + time_display(h, mi, se, ns),
        None => seq![],
    }) + (match offset {
        Some(o) => offset_display(o),
        None => seq![],
    })
}

/// Builds a `toml::value::Datetime` from its parts and formats it with its
/// `Display` impl (through `to_string`): `{:04}-{:02}-{:02}` for the date,
/// `{:02}:{:02}:{:02}` for the time with `.` and the `{:09}` nanoseconds
/// less their trailing zeros when they are not zero, a `T` between date and
/// time, and `Z` or a sign with `{:02}:{:02}` hours and minutes for the
/// offset. The impl negates a negative offset, which overflows for
/// `i16::MIN`.
#[verifier::external_body]
fn display_datetime(
    date: Option<(u16, u8, u8)>,
    time: Option<(u8, u8, u8, u32)>,
    offset: Option<Option<i16>>,
) -> (s: String)
    requires
        offset != Some(Some(i16::MIN)),
    ensures
        s@ == datetime_display(date, time, offset),
{
    toml::value::Datetime {
        date: date.map(|(year, month, day)| toml::value::Date { year, month, day }),
        time: time.map(|(hour, minute, second, nanosecond)| toml::value::Time { hour, minute, second, nanosecond }),
        offset: offset.map(|o| match o {
            None => toml::value::Offset::Z,
            Some(minutes) => toml::value::Offset::Custom { minutes },
        }),
    }.to_string()
}

/// The date of a datetime as `(year, month, day)`.
pub open spec fn date_parts(d: Option<TomlDate>) -> Option<(u16, u8, u8)> {
    match d {
        Some(d) => Some((d.year, d.month, d.day)),
        None => None,
    }
}

/// The time of a datetime as `(hour, minute, second, nanosecond)`.
pub open spec fn time_parts(t: Option<TomlTime>) -> Option<(u8, u8, u8, u32)> {
    match t {
        Some(t) => Some((t.hour, t.minute, t.second, t.nanosecond)),
        None => None,
    }
}

/// The offset of a datetime: `Some(None)` for `Z`, `Some(Some(m))` for `m` minutes.
pub open spec fn offset_parts(o: Option<TomlOffset>) -> Option<Option<i16>> {
    match o {
        Some(TomlOffset::Z) => Some(None),
        Some(TomlOffset::Custom(m)) => Some(Some(m.spec_minutes())),
        None => None,
    }
}

/// The text of a datetime.
pub open spec fn datetime_text(dt: TomlDatetime) -> Seq<char> {
    datetime_display(date_parts(dt.date), time_parts(dt.time), offset_parts(dt.offset))
}

/// The text of a float, given the text `Display` writes for it: that text
/// when it holds a `.`, else that text followed by `.0`.
pub open spec fn float_text(t: Seq<char>) -> Seq<char> {
    if t.contains('.') {
        t
    } else {
        t + seq!['.', '0']
    }
}

/// A basic TOML string: `s` escaped, between double quotes.
pub open spec fn quoted(s: Seq<char>) -> Seq<char> {
    seq!['"'] + escaped(s) + seq!['"']
}

/// The inline text of a TOML value.
pub open spec fn value_text(v: TomlValue) -> Seq<char>
    decreases v, 0nat,
{
    match v {
        TomlValue::String(s) => quoted(s@),
        TomlValue::Integer(i) => decimal_text(i as int),
        TomlValue::Float(t) => float_text(t@),
        TomlValue::Boolean(b) => if b {
            seq!['t', 'r', 'u', 'e']
        } else {
            seq!['f', 'a', 'l', 's', 'e']
        },
        TomlValue::Datetime(dt) => datetime_text(dt),
        TomlValue::Array(items) => seq!['['] + items_text(items@, items@.len()) + seq![']'],
        TomlValue::Table(entries) => seq!['{', ' '] + entries_text(entries@, entries@.len())
            + seq![' ', '}'],
    }
}

/// The first `n` items, each by its inline text, joined by `, `.
pub open spec fn items_text(items: Seq<TomlValue>, n: nat) -> Seq<char>
    decreases items, n,
{
    if n == 0 || n > items.len() {
        seq![]
    } else if n == 1 {
        value_text(items[0])
    } else {
        items_text(items, (n - 1) as nat) + seq![',', ' '] + value_text(items[n - 1])
    }
}

/// `key = value` for one entry of an inline table.
pub open spec fn entry_text(key: Seq<char>, v: TomlValue) -> Seq<char>
    decreases v, 1nat,
{
    key + seq![' ', '=', ' '] + value_text(v)
}

/// The first `n` entries, each as `key = value`, joined by `, `.
pub open spec fn entries_text(entries: Seq<(String, TomlValue)>, n: nat) -> Seq<char>
    decreases entries, n,
{
    if n == 0 || n > entries.len() {
        seq![]
    } else if n == 1 {
        entry_text(entries[0].0@, entries[0].1)
    } else {
        entries_text(entries, (n - 1) as nat) + seq![',', ' '] + entry_text(
            entries[n - 1].0@,
            entries[n - 1].1,
        )
    }
}

/// Appends the text of a float to `out`, given the text `Display` wrote for it.
fn push_float(out: &mut String, t: &String)
    ensures
        final(out)@ == old(out)@ + float_text(t@),
{
    let chars = chars_of(t.as_str());
    let mut i: usize = 0;
    let mut has_point = false;
    while i < chars.len()
        invariant
            i <= chars@.len(),
            chars@ == t@,
            has_point <==> exists|k: int| 0 <= k < i && #[trigger] chars@[k] == '.',
        decreases chars@.len() - i,
    {
        if chars[i] == '.' {
            has_point = true;
        }
        i = i + 1;
    }
    assert(has_point <==> t@.contains('.'));
    out.append(t.as_str());
    if !has_point {
        out.append(".0");
    }
    assert(final(out)@ =~= old(out)@ + float_text(t@)) by {
        reveal_strlit(".0");
    }
}

/// Formats a TOML value the way it stands on the right of `key = `: a string
/// quoted and escaped, numbers and booleans as written, a datetime as
/// `toml` displays it, an array as `[a, b]` and a table as `{ k = v }`.
pub fn fmt_value(val: &TomlValue) -> (s: String)
    ensures
        s@ == value_text(*val),
    decreases val,
{
    let mut out = String::new();
    match val {
        TomlValue::String(s) => {
            push_char(&mut out, '"');
            push_escaped(&mut out, s.as_str());
            push_char(&mut out, '"');
        },
        TomlValue::Integer(i) => {
            push_decimal(&mut out, *i);
        },
        TomlValue::Float(t) => {
            push_float(&mut out, t);
        },
        TomlValue::Boolean(b) => {
            if *b {
                out.append("true");
            } else {
                out.append("false");
            }
            proof {
                reveal_strlit("true");
                reveal_strlit("false");
            }
        },
        TomlValue::Datetime(dt) => {
            let date = match &dt.date {
                Some(d) => Some((d.year, d.month, d.day)),
                None => None,
            };
            let time = match &dt.time {
                Some(t) => Some((t.hour, t.minute, t.second, t.nanosecond)),
                None => None,
            };
            let offset = match &dt.offset {
                Some(TomlOffset::Z) => Some(None),
                Some(TomlOffset::Custom(m)) => Some(Some(m.minutes())),
                None => None,
            };
            out = display_datetime(date, time, offset);
        },
        TomlValue::Array(items) => {
            push_char(&mut out, '[');
            let mut i: usize = 0;
            while i < items.len()
                invariant
                    i <= items@.len(),
                    out@ == seq!['['] + items_text(items@, i as nat),
                    *val == TomlValue::Array(*items),
                decreases items@.len() - i,
            {
                if i > 0 {
                    out.append(", ");
                    proof {
                        reveal_strlit(", ");
                    }
                }
                proof {
                    assert(decreases_to!(*val => (*val)->Array_0));
                    assert(decreases_to!((*val)->Array_0 => items@));
                    assert(decreases_to!(items@ => items@[i as int]));
                }
                let t = fmt_value(&items[i]);
                out.append(t.as_str());
                i = i + 1;
            }
            push_char(&mut out, ']');
        },
        TomlValue::Table(entries) => {
            out.append("{ ");
            proof {
                reveal_strlit("{ ");
            }
            let mut i: usize = 0;
            while i < entries.len()
                invariant
                    i <= entries@.len(),
                    out@ == seq!['{', ' '] + entries_text(entries@, i as nat),
                    *val == TomlValue::Table(*entries),
                decreases entries@.len() - i,
            {
                let ghost start = out@;
                if i > 0 {
                    out.append(", ");
                    proof {
                        reveal_strlit(", ");
                    }
                }
                let entry = &entries[i];
                out.append(entry.0.as_str());
                out.append(" = ");
                proof {
                    reveal_strlit(" = ");
                }
                proof {
                    assert(decreases_to!(*val => (*val)->Table_0));
                    assert(decreases_to!((*val)->Table_0 => entries@));
                    assert(decreases_to!(entries@ => entries@[i as int]));
                    assert(decreases_to!(entries@[i as int] => entries@[i as int].1));
                }
                let ghost before = out@;
                let t = fmt_value(&entry.1);
                out.append(t.as_str());
                assert(out@ =~= before + value_text(entries@[i as int].1));
                let ghost e = entry_text(entries@[i as int].0@, entries@[i as int].1);
                if i == 0 {
                    assert(out@ =~= start + e);
                } else {
                    assert(out@ =~= start + seq![',', ' '] + e);
                }
                assert(seq!['{', ' '] + entries_text(entries@, (i + 1) as nat) =~= out@);
                i = i + 1;
            }
            out.append(" }");
            proof {
                reveal_strlit(" }");
            }
        },
    }
    out
}

} // verus!
