//! A plain model of JSON values, as the plugins hand them to the library.
//!
//! Objects keep their entries in order; a lookup finds the first entry with
//! the key (the maps that produce them have unique keys).
use vstd::prelude::*;
use crate::text::{push_char, str_eq, chars_of};

verus! {

broadcast use vstd::string::group_string_axioms;

/// A JSON number: its value when it is an integer that fits `i64` or `u64`;
/// its value read as an `f64`, rounded to the nearest integer (halves away
/// from zero) and kept within `i64` (which is what is read of a number that
/// is not an `i64`); and its decimal text.
#[derive(Debug)]
pub struct JsonNumber {
    pub as_i64: Option<i64>,
    pub as_u64: Option<u64>,
    pub rounded: i64,
    pub text: String,
}

/// A JSON value.
#[derive(Debug)]
pub enum JsonValue {
    Null,
    Bool(bool),
    Number(JsonNumber),
    Str(String),
    Array(Vec<JsonValue>),
    Object(Vec<(String, JsonValue)>),
}

/// The index of the first entry whose key is `key`, or the number of entries.
pub open spec fn entry_index(entries: Seq<(String, JsonValue)>, key: Seq<char>) -> int
    decreases entries.len(),
{
    if entries.len() == 0 {
        0
    } else if entries[0].0@ == key {
        0
    } else {
        1 + entry_index(entries.drop_first(), key)
    }
}

proof fn lemma_entry_index(entries: Seq<(String, JsonValue)>, key: Seq<char>)
    ensures
        0 <= entry_index(entries, key) <= entries.len(),
        entry_index(entries, key) < entries.len() ==> entries[entry_index(entries, key)].0@ == key,
        forall|j: int| 0 <= j < entry_index(entries, key) ==> entries[j].0@ != key,
    decreases entries.len(),
{
    if entries.len() > 0 && entries[0].0@ != key {
        lemma_entry_index(entries.drop_first(), key);
        assert forall|j: int| 0 <= j < entry_index(entries, key) implies entries[j].0@ != key by {
            if j > 0 {
                assert(entries[j] == entries.drop_first()[j - 1]);
            }
        }
    }
}

/// `value.get(key)`: the value of the first entry with that key, when `value`
/// is an object.
pub open spec fn get_spec(value: JsonValue, key: Seq<char>) -> Option<JsonValue> {
    match value {
        JsonValue::Object(entries) => {
            let i = entry_index(entries@, key);
            if i < entries@.len() {
                Some(entries@[i].1)
            } else {
                None
            }
        },
        _ => None,
    }
}

/// `value.get(key)`.
pub fn get<'a>(value: &'a JsonValue, key: &str) -> (r: Option<&'a JsonValue>)
    ensures
        match r {
            Some(x) => get_spec(*value, key@) == Some(*x),
            None => get_spec(*value, key@) is None,
        },
{
    match value {
        JsonValue::Object(entries) => {
            proof {
                lemma_entry_index(entries@, key@);
            }
            let mut i: usize = 0;
            while i < entries.len()
                invariant
                    0 <= i <= entries@.len(),
                    *value == JsonValue::Object(*entries),
                    forall|j: int| 0 <= j < i ==> entries@[j].0@ != key@,
                    0 <= entry_index(entries@, key@) <= entries@.len(),
                    entry_index(entries@, key@) < entries@.len() ==> entries@[entry_index(
                        entries@,
                        key@,
                    )].0@ == key@,
                    forall|j: int| 0 <= j < entry_index(entries@, key@) ==> entries@[j].0@ != key@,
                decreases entries.len() - i,
            {
                let k = entries[i].0.as_str();
                if str_eq(k, key) {
                    assert(entries@[i as int].0@ == key@);
                    assert(entry_index(entries@, key@) == i);
                    return Some(&entries[i].1);
                }
                i = i + 1;
            }
            None
        },
        _ => None,
    }
}

/// The text of a string value.
pub open spec fn str_spec(value: Option<JsonValue>) -> Option<Seq<char>> {
    match value {
        Some(JsonValue::Str(s)) => Some(s@),
        _ => None,
    }
}

/// `value.get(key).and_then(Value::as_str).unwrap_or_default()`.
pub open spec fn string_field(value: JsonValue, key: Seq<char>) -> Seq<char> {
    match str_spec(get_spec(value, key)) {
        Some(s) => s,
        None => Seq::empty(),
    }
}

/// `value.get(key).and_then(Value::as_str)`.
pub fn get_str<'a>(value: &'a JsonValue, key: &str) -> (r: Option<&'a str>)
    ensures
        match r {
            Some(s) => str_spec(get_spec(*value, key@)) == Some(s@),
            None => str_spec(get_spec(*value, key@)) is None,
        },
{
    match get(value, key) {
        Some(JsonValue::Str(s)) => Some(s.as_str()),
        _ => None,
    }
}

/// The text of `value[key]` when it is a string, else the empty text.
pub fn string_field_exec(value: &JsonValue, key: &str) -> (r: String)
    ensures
        r@ == string_field(*value, key@),
{
    match get_str(value, key) {
        Some(s) => s.to_string(),
        None => String::new(),
    }
}

/// The text `serde_json` writes for a boolean.
pub open spec fn bool_text(b: bool) -> Seq<char> {
    if b {
        seq!['t', 'r', 'u', 'e']
    } else {
        seq!['f', 'a', 'l', 's', 'e']
    }
}

/// Appends the text of a boolean.
pub fn push_bool_text(out: &mut String, b: bool)
    ensures
        final(out)@ == old(out)@ + bool_text(b),
{
    let ghost start = out@;
    if b {
        push_char(out, 't');
        push_char(out, 'r');
        push_char(out, 'u');
        push_char(out, 'e');
    } else {
        push_char(out, 'f');
        push_char(out, 'a');
        push_char(out, 'l');
        push_char(out, 's');
        push_char(out, 'e');
    }
    assert(out@ =~= start + bool_text(b));
}

// ---------------------------------------------------------------------------
// JSON text
// ---------------------------------------------------------------------------

/// The lower-case hexadecimal digit of a value below sixteen.
pub open spec fn hex_digit(n: u32) -> char {
    if n < 10 {
        (('0' as u32) + n) as char
    } else {
        (('a' as u32) + n - 10) as char
    }
}

/// A character as it stands inside a JSON string: `"` and `\` behind a
/// backslash, backspace, form feed, line feed, carriage return and tab as
/// `\b`, `\f`, `\n`, `\r`, `\t`, the other control characters below U+0020
/// as `\u00XX`, and every other character as it is.
pub open spec fn escaped_char(c: char) -> Seq<char> {
    let n = c as u32;
    if c == '"' {
        seq!['\\', '"']
    } else if c == '\\' {
        seq!['\\', '\\']
    } else if n == 8 {
        seq!['\\', 'b']
    } else if n == 12 {
        seq!['\\', 'f']
    } else if c == '\n' {
        seq!['\\', 'n']
    } else if c == '\r' {
        seq!['\\', 'r']
    } else if c == '\t' {
        seq!['\\', 't']
    } else if n < 32 {
        seq!['\\', 'u', '0', '0', hex_digit(n / 16), hex_digit(n % 16)]
    } else {
        seq![c]
    }
}

/// A text with each character escaped (see [`escaped_char`]).
pub open spec fn escaped(s: Seq<char>) -> Seq<char>
    decreases s.len(),
{
    if s.len() == 0 {
        Seq::empty()
    } else {
        escaped(s.drop_last()) + escaped_char(s.last())
    }
}

/// A JSON string literal.
pub open spec fn quoted(s: Seq<char>) -> Seq<char> {
    seq!['"'] + escaped(s) + seq!['"']
}

/// The compact JSON text of a value: `null`, `true`, `false`, the number's
/// text, a quoted string, `[a,b]` and `{"k":v,"l":w}` with the entries in
/// their order and no spaces.
pub open spec fn json_text(v: JsonValue) -> Seq<char>
    decreases v,
{
    match v {
        JsonValue::Null => seq!['n', 'u', 'l', 'l'],
        JsonValue::Bool(b) => bool_text(b),
        JsonValue::Number(n) => n.text@,
        JsonValue::Str(s) => quoted(s@),
        JsonValue::Array(items) => seq!['['] + json_items(items@) + seq![']'],
        JsonValue::Object(entries) => seq!['{'] + json_entries(entries@) + seq!['}'],
    }
}

/// The texts of array items, separated by commas.
pub open spec fn json_items(items: Seq<JsonValue>) -> Seq<char>
    decreases items,
{
    if items.len() == 0 {
        Seq::empty()
    } else if items.len() == 1 {
        json_text(items[0])
    } else {
        json_items(items.drop_last()) + seq![','] + json_text(items.last())
    }
}

/// The texts of object entries, `"key":value`, separated by commas.
pub open spec fn json_entries(entries: Seq<(String, JsonValue)>) -> Seq<char>
    decreases entries,
{
    if entries.len() == 0 {
        Seq::empty()
    } else {
        let e = entries.last();
        let t = quoted(e.0@) + seq![':'] + json_text(e.1);
        if entries.len() == 1 {
            t
        } else {
            json_entries(entries.drop_last()) + seq![','] + t
        }
    }
}

fn hex_digit_exec(n: u32) -> (r: char)
    requires
        n < 16,
    ensures
        r == hex_digit(n),
{
    if n < 10 {
        char_of(48 + n)
    } else {
        char_of(87 + n)
    }
}

fn char_of(n: u32) -> (r: char)
    requires
        48 <= n < 128,
    ensures
        r == n as char,
{
    let b: u8 = n as u8;
    b as char
}

/// Appends a text as a JSON string literal (see [`quoted`]).
pub fn push_quoted(out: &mut String, s: &str)
    ensures
        final(out)@ == old(out)@ + quoted(s@),
{
    let ghost start = out@;
    push_char(out, '"');
    let cs = chars_of(s);
    let mut i: usize = 0;
    while i < cs.len()
        invariant
            0 <= i <= cs@.len(),
            cs@ == s@,
            out@ == start + seq!['"'] + escaped(cs@.take(i as int)),
        decreases cs.len() - i,
    {
        let c = cs[i];
        let n = c as u32;
        let ghost before = out@;
        if c == '"' || c == '\\' {
            push_char(out, '\\');
            push_char(out, c);
        } else if n == 8 {
            push_char(out, '\\');
            push_char(out, 'b');
        } else if n == 12 {
            push_char(out, '\\');
            push_char(out, 'f');
        } else if c == '\n' {
            push_char(out, '\\');
            push_char(out, 'n');
        } else if c == '\r' {
            push_char(out, '\\');
            push_char(out, 'r');
        } else if c == '\t' {
            push_char(out, '\\');
            push_char(out, 't');
        } else if n < 32 {
            push_char(out, '\\');
            push_char(out, 'u');
            push_char(out, '0');
            push_char(out, '0');
            push_char(out, hex_digit_exec(n / 16));
            push_char(out, hex_digit_exec(n % 16));
        } else {
            push_char(out, c);
        }
        assert(out@ =~= before + escaped_char(c));
        assert(cs@.take(i + 1).drop_last() =~= cs@.take(i as int));
        i = i + 1;
    }
    assert(cs@.take(cs@.len() as int) =~= cs@);
    push_char(out, '"');
    assert(out@ =~= start + quoted(s@));
}

/// Appends the compact JSON text of a value (see [`json_text`]).
pub fn push_json(out: &mut String, v: &JsonValue)
    ensures
        final(out)@ == old(out)@ + json_text(*v),
    decreases v,
{
    let ghost start = out@;
    match v {
        JsonValue::Null => {
            out.append("null");
            proof {
                reveal_strlit("null");
            }
            assert(out@ =~= start + json_text(*v));
        },
        JsonValue::Bool(b) => {
            push_bool_text(out, *b);
        },
        JsonValue::Number(n) => {
            out.append(n.text.as_str());
        },
        JsonValue::Str(s) => {
            push_quoted(out, s.as_str());
        },
        JsonValue::Array(items) => {
            push_char(out, '[');
            let mut i: usize = 0;
            while i < items.len()
                invariant
                    0 <= i <= items@.len(),
                    *v == JsonValue::Array(*items),
                    out@ == start + seq!['['] + json_items(items@.take(i as int)),
                decreases items.len() - i,
            {
                assert(items@.take(i + 1).drop_last() =~= items@.take(i as int));
                assert(items@.take(i + 1).last() == items@[i as int]);
                assert(decreases_to!(*v => (*v)->Array_0));
                assert(decreases_to!(*items => items@));
                assert(decreases_to!(items@ => items@[i as int]));
                let ghost before = out@;
                if i > 0 {
                    push_char(out, ',');
                }
                push_json(out, &items[i]);
                assert(out@ =~= start + seq!['['] + json_items(items@.take(i + 1)));
                i = i + 1;
            }
            assert(items@.take(items@.len() as int) =~= items@);
            push_char(out, ']');
            assert(out@ =~= start + json_text(*v));
        },
        JsonValue::Object(entries) => {
            push_char(out, '{');
            let mut i: usize = 0;
            while i < entries.len()
                invariant
                    0 <= i <= entries@.len(),
                    *v == JsonValue::Object(*entries),
                    out@ == start + seq!['{'] + json_entries(entries@.take(i as int)),
                decreases entries.len() - i,
            {
                assert(entries@.take(i + 1).drop_last() =~= entries@.take(i as int));
                assert(entries@.take(i + 1).last() == entries@[i as int]);
                assert(decreases_to!(*v => (*v)->Object_0));
                assert(decreases_to!(*entries => entries@));
                assert(decreases_to!(entries@ => entries@[i as int]));
                assert(decreases_to!(entries@[i as int] => entries@[i as int].1));
                if i > 0 {
                    push_char(out, ',');
                }
                push_quoted(out, entries[i].0.as_str());
                push_char(out, ':');
                push_json(out, &entries[i].1);
                assert(out@ =~= start + seq!['{'] + json_entries(entries@.take(i + 1)));
                i = i + 1;
            }
            assert(entries@.take(entries@.len() as int) =~= entries@);
            push_char(out, '}');
            assert(out@ =~= start + json_text(*v));
        },
    }
}

} // verus!
