//! The host side of the plugin runtime: which calls a plugin may make, and
//! the host API that plugin scripts call (`Platform.*`). The JavaScript
//! engine, the network and the cache file are driven by the caller, which
//! hands each host call to [`HostApi::call`] and carries out the step it
//! returns.
use vstd::prelude::*;
use crate::clock::{system_millis, millis_as_u64, max_duration_millis, low_bits};
use crate::json::{JsonValue, JsonNumber, get, get_spec, string_field, string_field_exec, entry_index};
use crate::codec::{
    base64_encode, base64_decode, base64_url_encode, base64_url_decode, md5_digest, aes_encrypt,
    aes_decrypt, inflate, utf8_text, spec_base64_encode, spec_base64_decode, spec_base64_url_encode,
    spec_base64_url_decode, spec_md5, spec_aes_encrypt, spec_aes_decrypt, spec_inflate,
    spec_utf8_error,
};
use crate::plugins::manifest::SourcePlugin;
use crate::text::{
    str_eq, strings_view, contains_text, chars_of, starts_with, replace_char, replace_char_exec, string_of,
};
use crate::library::{sort_texts, texts_sorted};
use crate::text::{eq_ignore_ascii_case, eq_ignore_ascii_case_exec};

verus! {

broadcast use vstd::string::group_string_axioms;

// ---------------------------------------------------------------------------
// invocation
// ---------------------------------------------------------------------------

/// The plugin functions the host calls.
pub open spec fn supported_function(name: Seq<char>) -> bool {
    name == "searchSongs"@ || name == "getLyrics"@ || name == "searchCovers"@
}

/// Why a plugin function may not be invoked, if it may not: the plugin is
/// disabled, the function is not one the host calls, or the plugin does not
/// declare it.
pub open spec fn invocation_problem(
    enabled: bool,
    capabilities: Seq<Seq<char>>,
    function_name: Seq<char>,
) -> Option<Seq<char>> {
    if !enabled {
        Some("Plugin is disabled"@)
    } else if !supported_function(function_name) {
        Some("Unsupported plugin function: "@ + function_name)
    } else if !capabilities.contains(function_name) {
        Some("Plugin does not declare the "@ + function_name + " capability"@)
    } else {
        None
    }
}

/// The checks made before a plugin function runs (see
/// [`invocation_problem`]).
pub fn check_invocation(plugin: &SourcePlugin, function_name: &str) -> (r: Result<(), String>)
    ensures
        match r {
            Ok(()) => invocation_problem(
                plugin.enabled,
                strings_view(plugin.manifest.capabilities@),
                function_name@,
            ) is None,
            Err(e) => invocation_problem(
                plugin.enabled,
                strings_view(plugin.manifest.capabilities@),
                function_name@,
            ) == Some(e@),
        },
{
    if !plugin.enabled {
        return Err("Plugin is disabled".to_string());
    }
    if !(str_eq(function_name, "searchSongs") || str_eq(function_name, "getLyrics") || str_eq(
        function_name,
        "searchCovers",
    )) {
        let mut e = "Unsupported plugin function: ".to_string();
        e.append(function_name);
        return Err(e);
    }
    if !contains_text(&plugin.manifest.capabilities, function_name) {
        let mut e = "Plugin does not declare the ".to_string();
        e.append(function_name);
        e.append(" capability");
        return Err(e);
    }
    Ok(())
}

// ---------------------------------------------------------------------------
// scripts
// ---------------------------------------------------------------------------

/// A script path as the runtime names it: `\` read as `/`.
pub open spec fn script_name(path: Seq<char>) -> Seq<char> {
    replace_char(path, '\\', '/')
}

/// The order in which a plugin's scripts run: the scripts found in its
/// include directories (their paths relative to the plugin) in text order,
/// then its entry script.
pub open spec fn script_order_ok(found: Seq<Seq<char>>, entry: Seq<char>, r: Seq<Seq<char>>) -> bool {
    &&& r.len() == found.len() + 1
    &&& r.drop_last().to_multiset() == found.map_values(|f: Seq<char>| script_name(f)).to_multiset()
    &&& texts_sorted(r.drop_last())
    &&& r.last() == script_name(entry)
}

fn script_name_exec(path: &str) -> (r: String)
    ensures
        r@ == script_name(path@),
{
    let chars = chars_of(path);
    let replaced = replace_char_exec(chars.as_slice(), '\\', '/');
    string_of(replaced.as_slice())
}

/// The order in which a plugin's scripts run (see [`script_order_ok`]);
/// `found` are the `.js` files of its include directories, relative to the
/// plugin.
pub fn script_order(found: Vec<String>, entry: &str) -> (r: Vec<String>)
    ensures
        script_order_ok(strings_view(found@), entry@, strings_view(r@)),
{
    let ghost fv = strings_view(found@);
    let mut named: Vec<String> = Vec::new();
    let mut k: usize = 0;
    while k < found.len()
        invariant
            0 <= k <= found@.len(),
            fv == strings_view(found@),
            strings_view(named@) == fv.take(k as int).map_values(|f: Seq<char>| script_name(f)),
        decreases found.len() - k,
    {
        let n = script_name_exec(found[k].as_str());
        let ghost before = strings_view(named@);
        named.push(n);
        assert(strings_view(named@) =~= before.push(n@));
        assert(fv.take(k + 1) =~= fv.take(k as int).push(fv[k as int]));
        assert(fv.take(k + 1).map_values(|f: Seq<char>| script_name(f)) =~= fv.take(k as int).map_values(
            |f: Seq<char>| script_name(f),
        ).push(script_name(fv[k as int])));
        k = k + 1;
    }
    assert(fv.take(found@.len() as int) == fv);
    let ghost nv = strings_view(named@);
    assert(nv == fv.map_values(|f: Seq<char>| script_name(f)));
    let mut r = sort_texts(named);
    let ghost sorted = strings_view(r@);
    let e = script_name_exec(entry);
    r.push(e);
    assert(strings_view(r@) =~= sorted.push(e@));
    assert(strings_view(r@).drop_last() =~= sorted);
    assert(sorted.len() == nv.len()) by {
        vstd::seq_lib::to_multiset_len(sorted);
        vstd::seq_lib::to_multiset_len(nv);
    }
    r
}

// ---------------------------------------------------------------------------
// bytes
// ---------------------------------------------------------------------------

/// `bytes` XOR-ed with `key` repeated.
pub open spec fn xor_spec(bytes: Seq<u8>, key: Seq<u8>) -> Seq<u8> {
    Seq::new(bytes.len(), |i: int| bytes[i] ^ key[i % key.len() as int])
}

/// XORs `bytes` with `key` repeated over them; an empty key is refused.
pub fn xor(bytes: &[u8], key: &[u8]) -> (r: Result<Vec<u8>, String>)
    ensures
        match r {
            Ok(v) => key@.len() > 0 && v@ == xor_spec(bytes@, key@),
            Err(e) => key@.len() == 0 && e@ == "XOR key must not be empty"@,
        },
{
    if key.len() == 0 {
        return Err("XOR key must not be empty".to_string());
    }
    let mut out: Vec<u8> = Vec::new();
    let mut i: usize = 0;
    while i < bytes.len()
        invariant
            0 <= i <= bytes@.len(),
            key@.len() > 0,
            out@ == xor_spec(bytes@, key@).take(i as int),
        decreases bytes.len() - i,
    {
        out.push(bytes[i] ^ key[i % key.len()]);
        assert(out@ =~= xor_spec(bytes@, key@).take(i + 1));
        i = i + 1;
    }
    assert(out@ =~= xor_spec(bytes@, key@));
    Ok(out)
}

/// The UTF-8 bytes of a text.
pub fn bytes_of(s: &str) -> (r: Vec<u8>)
    ensures
        r@ == vstd::utf8::encode_utf8(s@),
{
    let b = s.as_bytes();
    let mut out: Vec<u8> = Vec::new();
    let mut i: usize = 0;
    while i < b.len()
        invariant
            0 <= i <= b@.len(),
            out@ == b@.take(i as int),
        decreases b.len() - i,
    {
        out.push(b[i]);
        assert(out@ =~= b@.take(i + 1));
        i = i + 1;
    }
    assert(b@.take(b@.len() as int) =~= b@);
    out
}

/// The numbers of a JSON array that fit `u64`, each cut to its low byte;
/// nothing for anything but an array.
pub open spec fn byte_array_spec(value: Option<JsonValue>) -> Seq<u8> {
    match value {
        Some(JsonValue::Array(items)) => byte_items(items@),
        _ => Seq::empty(),
    }
}

/// The bytes of the items that are numbers fitting `u64`.
pub open spec fn byte_items(items: Seq<JsonValue>) -> Seq<u8>
    decreases items.len(),
{
    if items.len() == 0 {
        Seq::empty()
    } else {
        let p = byte_items(items.drop_last());
        match items.last() {
            JsonValue::Number(n) => match n.as_u64 {
                Some(v) => p.push(v as u8),
                None => p,
            },
            _ => p,
        }
    }
}

/// The bytes given as a JSON array of numbers (see [`byte_array_spec`]).
pub fn byte_array(value: Option<&JsonValue>) -> (r: Vec<u8>)
    ensures
        r@ == byte_array_spec(match value {
            Some(v) => Some(*v),
            None => None,
        }),
{
    let mut out: Vec<u8> = Vec::new();
    if let Some(JsonValue::Array(items)) = value {
        let mut i: usize = 0;
        while i < items.len()
            invariant
                0 <= i <= items@.len(),
                out@ == byte_items(items@.take(i as int)),
            decreases items.len() - i,
        {
            assert(items@.take(i + 1).drop_last() == items@.take(i as int));
            assert(items@.take(i + 1).last() == items@[i as int]);
            if let JsonValue::Number(n) = &items[i] {
                if let Some(v) = n.as_u64 {
                    out.push(v as u8);
                }
            }
            i = i + 1;
        }
        assert(items@.take(items@.len() as int) == items@);
    }
    out
}

// ---------------------------------------------------------------------------
// hexadecimal
// ---------------------------------------------------------------------------

/// The hexadecimal digit of a value below 16, in lower or upper case.
pub open spec fn hex_digit(d: int, upper: bool) -> char {
    if d < 10 {
        ((d + 48) as u32) as char
    } else if upper {
        ((d + 55) as u32) as char
    } else {
        ((d + 87) as u32) as char
    }
}

/// Each byte as two hexadecimal digits.
pub open spec fn hex_text(bytes: Seq<u8>, upper: bool) -> Seq<char>
    decreases bytes.len(),
{
    if bytes.len() == 0 {
        Seq::empty()
    } else {
        hex_text(bytes.drop_last(), upper) + seq![
            hex_digit(bytes.last() as int / 16, upper),
            hex_digit(bytes.last() as int % 16, upper),
        ]
    }
}

fn hex_digit_exec(d: u8, upper: bool) -> (c: char)
    requires
        d < 16,
    ensures
        c == hex_digit(d as int, upper),
{
    if d < 10 {
        match d {
            0 => '0',
            1 => '1',
            2 => '2',
            3 => '3',
            4 => '4',
            5 => '5',
            6 => '6',
            7 => '7',
            8 => '8',
            _ => '9',
        }
    } else if upper {
        match d {
            10 => 'A',
            11 => 'B',
            12 => 'C',
            13 => 'D',
            14 => 'E',
            _ => 'F',
        }
    } else {
        match d {
            10 => 'a',
            11 => 'b',
            12 => 'c',
            13 => 'd',
            14 => 'e',
            _ => 'f',
        }
    }
}

/// The bytes as hexadecimal text (`{:x}` of a digest, or `{:02X}` per byte).
pub fn hex_exec(bytes: &[u8], upper: bool) -> (r: String)
    ensures
        r@ == hex_text(bytes@, upper),
{
    let mut out = String::new();
    let mut i: usize = 0;
    while i < bytes.len()
        invariant
            0 <= i <= bytes@.len(),
            out@ == hex_text(bytes@.take(i as int), upper),
        decreases bytes.len() - i,
    {
        assert(bytes@.take(i + 1).drop_last() == bytes@.take(i as int));
        assert(bytes@.take(i + 1).last() == bytes@[i as int]);
        let b = bytes[i];
        crate::text::push_char(&mut out, hex_digit_exec(b / 16, upper));
        crate::text::push_char(&mut out, hex_digit_exec(b % 16, upper));
        assert(out@ =~= hex_text(bytes@.take(i + 1), upper));
        i = i + 1;
    }
    assert(bytes@.take(bytes@.len() as int) == bytes@);
    out
}

// ---------------------------------------------------------------------------
// base64 text, URL-safe and back
// ---------------------------------------------------------------------------

/// `s` without its trailing `=` characters.
pub open spec fn trim_end_eq(s: Seq<char>) -> Seq<char>
    decreases s.len(),
{
    if s.len() > 0 && s.last() == '=' {
        trim_end_eq(s.drop_last())
    } else {
        s
    }
}

/// The number of UTF-8 bytes of a text.
pub open spec fn utf8_len(s: Seq<char>) -> int {
    vstd::utf8::encode_utf8(s).len() as int
}

/// The `=` characters `fromUrl` appends: as many as bring the UTF-8 length
/// to a multiple of four.
pub open spec fn padding_for(len: int) -> int {
    (4 - len % 4) % 4
}

/// `base64.toUrl`: `+` to `-`, `/` to `_`, trailing `=` removed.
pub open spec fn to_url_spec(s: Seq<char>) -> Seq<char> {
    trim_end_eq(replace_char(replace_char(s, '+', '-'), '/', '_'))
}

/// `base64.fromUrl`: `-` to `+`, `_` to `/`, then `=` appended until the
/// UTF-8 length is a multiple of four.
pub open spec fn from_url_spec(s: Seq<char>) -> Seq<char> {
    let r = replace_char(replace_char(s, '-', '+'), '_', '/');
    r + Seq::new(padding_for(utf8_len(r)) as nat, |i: int| '=')
}

/// Turns standard base64 text into its URL-safe unpadded form.
pub fn base64_to_url(s: &str) -> (r: String)
    ensures
        r@ == to_url_spec(s@),
{
    let chars = chars_of(s);
    let a = replace_char_exec(chars.as_slice(), '+', '-');
    let b = replace_char_exec(a.as_slice(), '/', '_');
    let mut end: usize = b.len();
    assert(b@.take(b@.len() as int) =~= b@);
    while end > 0 && b[end - 1] == '='
        invariant
            0 <= end <= b@.len(),
            trim_end_eq(b@) == trim_end_eq(b@.take(end as int)),
        decreases end,
    {
        assert(b@.take(end as int).drop_last() == b@.take(end - 1));
        end = end - 1;
    }
    assert(b@.take(b@.len() as int) == b@);
    crate::text::string_of_range(b.as_slice(), 0, end)
}

/// Turns URL-safe base64 text back into the standard padded form.
pub fn base64_from_url(s: &str) -> (r: String)
    ensures
        r@ == from_url_spec(s@),
{
    let chars = chars_of(s);
    let a = replace_char_exec(chars.as_slice(), '-', '+');
    let b = replace_char_exec(a.as_slice(), '_', '/');
    let mut out = crate::text::string_of(b.as_slice());
    let m = utf8_len_mod4(b.as_slice());
    let pad = (4 - m) % 4;
    let ghost r = b@;
    assert(pad == padding_for(utf8_len(r)));
    let mut added: usize = 0;
    while added < pad
        invariant
            0 <= added <= pad,
            out@ == r + Seq::new(added as nat, |i: int| '='),
        decreases pad - added,
    {
        crate::text::push_char(&mut out, '=');
        added = added + 1;
        assert(out@ =~= r + Seq::new(added as nat, |i: int| '='));
    }
    out
}

/// The UTF-8 length of a text, modulo four.
fn utf8_len_mod4(s: &[char]) -> (r: usize)
    ensures
        r == utf8_len(s@) % 4,
        r < 4,
{
    let mut acc: usize = 0;
    let mut i: usize = 0;
    assert(utf8_len(s@.take(0)) == 0) by {
        assert(s@.take(0) =~= Seq::<char>::empty());
        assert(vstd::utf8::encode_utf8(Seq::<char>::empty()) =~= Seq::<u8>::empty());
    }
    while i < s.len()
        invariant
            0 <= i <= s@.len(),
            acc < 4,
            acc == utf8_len(s@.take(i as int)) % 4,
        decreases s.len() - i,
    {
        let c = s[i];
        let w: usize = if (c as u32) < 0x80 {
            1
        } else if (c as u32) < 0x800 {
            2
        } else if (c as u32) < 0x10000 {
            3
        } else {
            4
        };
        proof {
            lemma_utf8_len_push(s@.take(i as int), c);
            assert(s@.take(i + 1) =~= s@.take(i as int).push(c));
        }
        acc = (acc + w) % 4;
        i = i + 1;
    }
    assert(s@.take(s@.len() as int) =~= s@);
    acc
}

proof fn lemma_encode_concat(a: Seq<char>, b: Seq<char>)
    ensures
        vstd::utf8::encode_utf8(a + b) == vstd::utf8::encode_utf8(a) + vstd::utf8::encode_utf8(b),
    decreases a.len(),
{
    if a.len() == 0 {
        assert(a + b =~= b);
        assert(vstd::utf8::encode_utf8(a) =~= Seq::<u8>::empty());
        assert(Seq::<u8>::empty() + vstd::utf8::encode_utf8(b) =~= vstd::utf8::encode_utf8(b));
    } else {
        lemma_encode_concat(a.drop_first(), b);
        assert((a + b).drop_first() =~= a.drop_first() + b);
        assert((a + b)[0] == a[0]);
        assert(vstd::utf8::encode_scalar(a[0] as u32) + (vstd::utf8::encode_utf8(a.drop_first())
            + vstd::utf8::encode_utf8(b)) =~= (vstd::utf8::encode_scalar(a[0] as u32)
            + vstd::utf8::encode_utf8(a.drop_first())) + vstd::utf8::encode_utf8(b));
    }
}

proof fn lemma_utf8_len_push(s: Seq<char>, c: char)
    ensures
        utf8_len(s.push(c)) == utf8_len(s) + crate::lyrics::lrc::utf8_width(c),
{
    lemma_encode_concat(s, seq![c]);
    assert(s.push(c) =~= s + seq![c]);
    assert(seq![c].drop_first() =~= Seq::<char>::empty());
    assert(vstd::utf8::encode_utf8(Seq::<char>::empty()) =~= Seq::<u8>::empty());
    assert(vstd::utf8::encode_utf8(seq![c]) == vstd::utf8::encode_scalar(c as u32)
        + vstd::utf8::encode_utf8(seq![c].drop_first()));
    broadcast use vstd::utf8::char_is_scalar;
    assert(vstd::utf8::is_scalar(c as u32));
}

/// The length of `s` without its trailing `=`, and the shape that gives.
proof fn lemma_trim_end_eq(x: Seq<char>)
    ensures
        trim_end_eq(x).len() <= x.len(),
        trim_end_eq(x) == x.take(trim_end_eq(x).len() as int),
        forall|i: int| trim_end_eq(x).len() <= i < x.len() ==> x[i] == '=',
        trim_end_eq(x).len() > 0 ==> x[trim_end_eq(x).len() - 1] != '=',
    decreases x.len(),
{
    if x.len() > 0 && x.last() == '=' {
        lemma_trim_end_eq(x.drop_last());
        let k = trim_end_eq(x).len() as int;
        assert(x.drop_last().take(k) =~= x.take(k));
        assert forall|i: int| k <= i < x.len() implies x[i] == '=' by {
            if i < x.len() - 1 {
                assert(x[i] == x.drop_last()[i]);
            }
        }
        if k > 0 {
            assert(x[k - 1] == x.drop_last()[k - 1]);
        }
    } else {
        assert(x.take(x.len() as int) =~= x);
    }
}

/// Texts with `=` at the same places lose the same number of trailing `=`.
proof fn lemma_trim_same(x: Seq<char>, y: Seq<char>)
    requires
        x.len() == y.len(),
        forall|i: int| 0 <= i < x.len() ==> (x[i] == '=' <==> y[i] == '='),
    ensures
        trim_end_eq(x).len() == trim_end_eq(y).len(),
    decreases x.len(),
{
    if x.len() > 0 {
        assert(x.last() == '=' <==> y.last() == '=');
        if x.last() == '=' {
            assert forall|i: int| 0 <= i < x.drop_last().len() implies (x.drop_last()[i] == '='
                <==> y.drop_last()[i] == '=') by {
                assert(x.drop_last()[i] == x[i] && y.drop_last()[i] == y[i]);
            }
            lemma_trim_same(x.drop_last(), y.drop_last());
        }
    }
}

proof fn lemma_utf8_len_eqs(n: nat)
    ensures
        utf8_len(Seq::new(n, |i: int| '=')) == n,
    decreases n,
{
    if n == 0 {
        assert(Seq::new(0, |i: int| '=') =~= Seq::<char>::empty());
        assert(vstd::utf8::encode_utf8(Seq::<char>::empty()) =~= Seq::<u8>::empty());
    } else {
        lemma_utf8_len_eqs((n - 1) as nat);
        assert(Seq::new(n, |i: int| '=') =~= Seq::new((n - 1) as nat, |i: int| '=').push('='));
        lemma_utf8_len_push(Seq::new((n - 1) as nat, |i: int| '='), '=');
    }
}

/// Standard base64 text comes back unchanged from its URL-safe form: for a
/// text without `-` or `_` whose UTF-8 length is a multiple of four and
/// that ends in at most three `=`, `fromUrl(toUrl(s)) == s`.
pub proof fn base64_url_round_trip(s: Seq<char>)
    requires
        !s.contains('-'),
        !s.contains('_'),
        utf8_len(s) % 4 == 0,
        s.len() - trim_end_eq(s).len() <= 3,
    ensures
        from_url_spec(to_url_spec(s)) == s,
{
    let r = replace_char(replace_char(s, '+', '-'), '/', '_');
    lemma_trim_end_eq(s);
    lemma_trim_end_eq(r);
    assert forall|i: int| 0 <= i < s.len() implies (s[i] == '=' <==> r[i] == '=') by {}
    lemma_trim_same(s, r);
    let k = trim_end_eq(s).len() as int;
    let t = s.len() - k;
    let u = to_url_spec(s);
    assert(u == r.take(k));
    let back = replace_char(replace_char(u, '-', '+'), '_', '/');
    assert forall|i: int| 0 <= i < k implies back[i] == s[i] by {
        assert(u[i] == r[i]);
        assert(s[i] != '-' && s[i] != '_') by {
            if s[i] == '-' {
                assert(s.contains('-'));
            }
            if s[i] == '_' {
                assert(s.contains('_'));
            }
        }
    }
    assert(back =~= s.take(k));
    let eqs = Seq::new(t as nat, |i: int| '=');
    assert(s =~= s.take(k) + eqs);
    lemma_encode_concat(s.take(k), eqs);
    lemma_utf8_len_eqs(t as nat);
    assert(utf8_len(back) == utf8_len(s) - t);
    assert(padding_for(utf8_len(back)) == t) by {
        let l = utf8_len(s);
        assert(l % 4 == 0);
        assert((l - t) % 4 == (4 - t) % 4);
    }
}

// ---------------------------------------------------------------------------
// the clock, timeouts and the cache
// ---------------------------------------------------------------------------

/// The current time in milliseconds since the Unix epoch, cut to `u64`.
pub fn now_ms() -> (r: u64)
    ensures
        exists|millis: u128| millis <= max_duration_millis() && r == #[trigger] low_bits(millis),
{
    let millis = system_millis();
    millis_as_u64(millis)
}

/// The read timeout of an HTTP call: the requested one (12 s by default)
/// kept between 1 s and 60 s.
pub open spec fn timeout_for(requested: Option<u64>) -> u64 {
    let t = match requested {
        Some(v) => v,
        None => 12_000,
    };
    if t < 1_000 {
        1_000
    } else if t > 60_000 {
        60_000
    } else {
        t
    }
}

/// The read timeout of an HTTP call (see [`timeout_for`]).
pub fn http_timeout_ms(requested: Option<u64>) -> (r: u64)
    ensures
        r == timeout_for(requested),
{
    let t = match requested {
        Some(v) => v,
        None => 12_000,
    };
    if t < 1_000 {
        1_000
    } else if t > 60_000 {
        60_000
    } else {
        t
    }
}

/// The body an HTTP post sends: the `bodyBytes` array when there is one,
/// else the decoded `bodyBase64` when it is not empty, else the UTF-8 bytes
/// of `body`.
pub open spec fn request_body_spec(payload: JsonValue) -> Result<Seq<u8>, Seq<char>> {
    if get_spec(payload, "bodyBytes"@) matches Some(JsonValue::Array(_)) {
        Ok(byte_array_spec(get_spec(payload, "bodyBytes"@)))
    } else if string_field(payload, "bodyBase64"@).len() > 0 {
        spec_base64_decode(string_field(payload, "bodyBase64"@))
    } else {
        Ok(vstd::utf8::encode_utf8(string_field(payload, "body"@)))
    }
}

/// The body an HTTP post sends (see [`request_body_spec`]).
pub fn http_request_body(payload: &JsonValue) -> (r: Result<Vec<u8>, String>)
    ensures
        match r {
            Ok(v) => request_body_spec(*payload) == Ok::<Seq<u8>, Seq<char>>(v@),
            Err(e) => request_body_spec(*payload) == Err::<Seq<u8>, Seq<char>>(e@),
        },
{
    let bytes = get(payload, "bodyBytes");
    if let Some(JsonValue::Array(_)) = bytes {
        return Ok(byte_array(bytes));
    }
    let b64 = string_field_exec(payload, "bodyBase64");
    if !b64.as_str().is_empty() {
        return base64_decode(b64.as_str());
    }
    let body = string_field_exec(payload, "body");
    Ok(bytes_of(body.as_str()))
}

/// How the answer of an HTTP host call is made: the body as text, the body
/// in base64, or the whole response (with its body in base64 when the call
/// asks for bytes).
#[derive(Debug)]
pub enum HttpReply {
    Text,
    Base64,
    Response(bool),
}

/// An HTTP request that a plugin asked for, as the caller sends it.
#[derive(Debug)]
pub struct HttpPlan {
    pub url: String,
    pub post: bool,
    pub body: Result<Vec<u8>, String>,
    pub content_type: String,
    pub timeout_ms: u64,
    pub follow_redirects: bool,
    pub headers: Vec<(String, String)>,
    pub default_user_agent: bool,
    pub reply: HttpReply,
}

/// An optional integer field as `Value::as_u64` reads it.
pub open spec fn opt_u64_field(payload: JsonValue, key: Seq<char>) -> Option<u64> {
    match get_spec(payload, key) {
        Some(JsonValue::Number(n)) => n.as_u64,
        _ => None,
    }
}

/// The text of a header value: a string as it is, anything else empty.
pub open spec fn header_text(v: JsonValue) -> Seq<char> {
    match v {
        JsonValue::Str(s) => s@,
        _ => Seq::empty(),
    }
}

/// The headers a call asks for: the entries of its `headers` object.
pub open spec fn request_headers(payload: JsonValue) -> Seq<(Seq<char>, Seq<char>)> {
    match get_spec(payload, "headers"@) {
        Some(JsonValue::Object(entries)) => entries@.map_values(
            |e: (String, JsonValue)| (e.0@, header_text(e.1)),
        ),
        _ => Seq::empty(),
    }
}

/// Whether the headers name a user agent (header names ignore ASCII case).
pub open spec fn names_user_agent(headers: Seq<(Seq<char>, Seq<char>)>) -> bool {
    exists|i: int| 0 <= i < headers.len() && eq_ignore_ascii_case(#[trigger] headers[i].0, "user-agent"@)
}

/// The content type of a post: the `contentType` text, JSON by default.
pub open spec fn content_type_spec(payload: JsonValue) -> Seq<char> {
    match get_spec(payload, "contentType"@) {
        Some(JsonValue::Str(s)) => s@,
        _ => "application/json; charset=utf-8"@,
    }
}

/// Whether redirects are followed: `followRedirects`, true by default.
pub open spec fn follow_redirects_spec(payload: JsonValue) -> bool {
    match get_spec(payload, "followRedirects"@) {
        Some(JsonValue::Bool(b)) => b,
        _ => true,
    }
}

/// The answer a call makes: `getText` and `postText` answer the body as
/// text, `postBytes` the body in base64, the others the whole response,
/// with the body in base64 for `getBytes` and `postBytesResponse`.
pub open spec fn reply_for(name: Seq<char>) -> HttpReply {
    if name == "http.getText"@ || name == "http.postText"@ {
        HttpReply::Text
    } else if name == "http.postBytes"@ {
        HttpReply::Base64
    } else {
        HttpReply::Response(name == "http.getBytes"@ || name == "http.postBytesResponse"@)
    }
}

/// The view of a request body.
pub open spec fn body_view(b: Result<Vec<u8>, String>) -> Result<Seq<u8>, Seq<char>> {
    match b {
        Ok(v) => Ok(v@),
        Err(e) => Err(e@),
    }
}

/// The request an HTTP host call makes: a post when the call's name holds
/// `post` (with the body of [`request_body_spec`] and the content type of
/// [`content_type_spec`]), else a get; the URL, timeout, redirects and
/// headers from the payload; a default user agent when none is named.
pub open spec fn http_plan_ok(name: Seq<char>, payload: JsonValue, p: HttpPlan) -> bool {
    let post = crate::batch::metadata::contains_seq(name, "post"@);
    &&& p.url@ == string_field(payload, "url"@)
    &&& p.post == post
    &&& (if post {
        body_view(p.body) == request_body_spec(payload)
    } else {
        body_view(p.body) == Ok::<Seq<u8>, Seq<char>>(Seq::empty())
    })
    &&& p.content_type@ == content_type_spec(payload)
    &&& p.timeout_ms == timeout_for(opt_u64_field(payload, "readTimeoutMs"@))
    &&& p.follow_redirects == follow_redirects_spec(payload)
    &&& crate::batch::metadata::pairs_view(p.headers@) == request_headers(payload)
    &&& p.default_user_agent == !names_user_agent(request_headers(payload))
    &&& p.reply == reply_for(name)
}

fn header_text_exec(v: &JsonValue) -> (r: String)
    ensures
        r@ == header_text(*v),
{
    match v {
        JsonValue::Str(s) => s.clone(),
        _ => String::new(),
    }
}

/// The request an HTTP host call makes (see [`http_plan_ok`]).
pub fn http_plan(name: &str, payload: &JsonValue) -> (p: HttpPlan)
    ensures
        http_plan_ok(name@, *payload, p),
{
    let post = crate::batch::metadata::contains_str(name, "post");
    let body = if post {
        http_request_body(payload)
    } else {
        Ok(Vec::new())
    };
    let content_type = match get(payload, "contentType") {
        Some(JsonValue::Str(s)) => s.clone(),
        _ => "application/json; charset=utf-8".to_string(),
    };
    let requested = match get(payload, "readTimeoutMs") {
        Some(JsonValue::Number(n)) => n.as_u64,
        _ => None,
    };
    let follow_redirects = match get(payload, "followRedirects") {
        Some(JsonValue::Bool(b)) => *b,
        _ => true,
    };
    let mut headers: Vec<(String, String)> = Vec::new();
    let mut named = false;
    match get(payload, "headers") {
        Some(JsonValue::Object(entries)) => {
            let ghost ev = entries@.map_values(|e: (String, JsonValue)| (e.0@, header_text(e.1)));
            let mut k: usize = 0;
            while k < entries.len()
                invariant
                    0 <= k <= entries@.len(),
                    ev == entries@.map_values(|e: (String, JsonValue)| (e.0@, header_text(e.1))),
                    crate::batch::metadata::pairs_view(headers@) == ev.take(k as int),
                    named == exists|i: int| 0 <= i < k && eq_ignore_ascii_case(#[trigger] ev[i].0, "user-agent"@),
                decreases entries.len() - k,
            {
                let key = entries[k].0.clone();
                let value = header_text_exec(&entries[k].1);
                let is_agent = eq_ignore_ascii_case_exec(key.as_str(), "user-agent");
                let ghost before = crate::batch::metadata::pairs_view(headers@);
                headers.push((key, value));
                assert(crate::batch::metadata::pairs_view(headers@) =~= before.push(ev[k as int]));
                assert(ev.take(k + 1) =~= ev.take(k as int).push(ev[k as int]));
                if is_agent {
                    assert(eq_ignore_ascii_case(ev[k as int].0, "user-agent"@));
                }
                named = named || is_agent;
                k = k + 1;
            }
            assert(ev.take(entries@.len() as int) == ev);
        },
        _ => {
            assert(crate::batch::metadata::pairs_view(headers@) =~= Seq::empty());
        },
    }
    let reply = if str_eq(name, "http.getText") || str_eq(name, "http.postText") {
        HttpReply::Text
    } else if str_eq(name, "http.postBytes") {
        HttpReply::Base64
    } else {
        HttpReply::Response(str_eq(name, "http.getBytes") || str_eq(name, "http.postBytesResponse"))
    };
    HttpPlan {
        url: string_field_exec(payload, "url"),
        post,
        body,
        content_type,
        timeout_ms: http_timeout_ms(requested),
        follow_redirects,
        headers,
        default_user_agent: !named,
        reply,
    }
}

/// The text stored for a cache item.
pub open spec fn cache_value(item: JsonValue) -> Seq<char> {
    string_field(item, "value"@)
}

/// The expiry of a cache item, 0 for none.
pub open spec fn cache_expiry(item: JsonValue) -> u64 {
    match get_spec(item, "expiresAt"@) {
        Some(JsonValue::Number(n)) => match n.as_u64 {
            Some(v) => v,
            None => 0,
        },
        _ => 0,
    }
}

/// A cache item whose expiry has passed at `now`.
pub open spec fn cache_expired(item: JsonValue, now: u64) -> bool {
    cache_expiry(item) > 0 && cache_expiry(item) <= now
}

/// The expiry stored for a time to live: `now + ttl` (saturating) for a
/// positive one, else none (0).
pub open spec fn expiry_for(now: u64, ttl: i64) -> u64 {
    if ttl > 0 {
        if now + ttl > u64::MAX {
            u64::MAX
        } else {
            (now + ttl) as u64
        }
    } else {
        0
    }
}

/// The item of the cache under `key`.
pub open spec fn cache_lookup(cache: Seq<(String, JsonValue)>, key: Seq<char>) -> Option<JsonValue> {
    let i = entry_index(cache, key);
    if 0 <= i < cache.len() {
        Some(cache[i].1)
    } else {
        None
    }
}

/// The cache without the items under `key`.
pub open spec fn without_key(cache: Seq<(String, JsonValue)>, key: Seq<char>) -> Seq<(String, JsonValue)>
    decreases cache.len(),
{
    if cache.len() == 0 {
        Seq::empty()
    } else {
        let p = without_key(cache.drop_last(), key);
        if cache.last().0@ == key {
            p
        } else {
            p.push(cache.last())
        }
    }
}

/// An integer field of the payload as `Value::as_i64` reads it, 0 when
/// missing.
pub open spec fn i64_field(payload: JsonValue, key: Seq<char>) -> i64 {
    match get_spec(payload, key) {
        Some(JsonValue::Number(n)) => match n.as_i64 {
            Some(v) => v,
            None => 0,
        },
        _ => 0,
    }
}

/// An integer field of the payload as `Value::as_u64` reads it, 0 when
/// missing.
pub open spec fn u64_field(payload: JsonValue, key: Seq<char>) -> u64 {
    match get_spec(payload, key) {
        Some(JsonValue::Number(n)) => match n.as_u64 {
            Some(v) => v,
            None => 0,
        },
        _ => 0,
    }
}

fn i64_field_exec(payload: &JsonValue, key: &str) -> (r: i64)
    ensures
        r == i64_field(*payload, key@),
{
    match get(payload, key) {
        Some(JsonValue::Number(n)) => match n.as_i64 {
            Some(v) => v,
            None => 0,
        },
        _ => 0,
    }
}

fn u64_field_exec(payload: &JsonValue, key: &str) -> (r: u64)
    ensures
        r == u64_field(*payload, key@),
{
    match get(payload, key) {
        Some(JsonValue::Number(n)) => match n.as_u64 {
            Some(v) => v,
            None => 0,
        },
        _ => 0,
    }
}

// ---------------------------------------------------------------------------
// the host API
// ---------------------------------------------------------------------------

/// A value a host call answers with; the application facts (its name,
/// version and user agent, and the runtime description) are rendered by the
/// caller.
#[derive(Debug)]
pub enum HostValue {
    Text(String),
    Bytes(Vec<u8>),
    AppInfo,
    UserAgent,
    RuntimeInfo,
}

/// The view of a [`HostValue`].
pub enum HostValueView {
    Text(Seq<char>),
    Bytes(Seq<u8>),
    AppInfo,
    UserAgent,
    RuntimeInfo,
}

impl View for HostValue {
    type V = HostValueView;

    open spec fn view(&self) -> HostValueView {
        match self {
            HostValue::Text(t) => HostValueView::Text(t@),
            HostValue::Bytes(b) => HostValueView::Bytes(b@),
            HostValue::AppInfo => HostValueView::AppInfo,
            HostValue::UserAgent => HostValueView::UserAgent,
            HostValue::RuntimeInfo => HostValueView::RuntimeInfo,
        }
    }
}

/// What the caller does for a host call: answer it; save the changed cache
/// and answer it (a failed save is the call's error); print a plugin log
/// line (tag, message) and answer with the empty text; or perform the HTTP
/// or XML call itself.
#[derive(Debug)]
pub enum HostStep {
    Reply(Result<HostValue, String>),
    SaveCache(Result<HostValue, String>),
    Log(String, String),
    Http,
    Xml,
}

/// The view of a host call's answer.
pub open spec fn answer_view(r: Result<HostValue, String>) -> Result<HostValueView, Seq<char>> {
    match r {
        Ok(v) => Ok(v@),
        Err(e) => Err(e@),
    }
}

/// The view of a [`HostStep`].
pub enum HostStepView {
    Reply(Result<HostValueView, Seq<char>>),
    SaveCache(Result<HostValueView, Seq<char>>),
    Log(Seq<char>, Seq<char>),
    Http,
    Xml,
}

impl View for HostStep {
    type V = HostStepView;

    open spec fn view(&self) -> HostStepView {
        match self {
            HostStep::Reply(r) => HostStepView::Reply(answer_view(*r)),
            HostStep::SaveCache(r) => HostStepView::SaveCache(answer_view(*r)),
            HostStep::Log(t, m) => HostStepView::Log(t@, m@),
            HostStep::Http => HostStepView::Http,
            HostStep::Xml => HostStepView::Xml,
        }
    }
}

/// Bytes answered as base64 text.
pub open spec fn as_base64(r: Result<Seq<u8>, Seq<char>>) -> Result<HostValueView, Seq<char>> {
    match r {
        Ok(b) => Ok(HostValueView::Text(spec_base64_encode(b))),
        Err(e) => Err(e),
    }
}

/// Bytes answered as the text they encode in UTF-8.
pub open spec fn as_text(r: Result<Seq<u8>, Seq<char>>) -> Result<HostValueView, Seq<char>> {
    match r {
        Ok(b) => if vstd::utf8::valid_utf8(b) {
            Ok(HostValueView::Text(vstd::utf8::decode_utf8(b)))
        } else {
            Err(spec_utf8_error(b))
        },
        Err(e) => Err(e),
    }
}

/// Bytes answered as bytes.
pub open spec fn as_bytes(r: Result<Seq<u8>, Seq<char>>) -> Result<HostValueView, Seq<char>> {
    match r {
        Ok(b) => Ok(HostValueView::Bytes(b)),
        Err(e) => Err(e),
    }
}

/// Text answered as text.
pub open spec fn as_plain(r: Result<Seq<char>, Seq<char>>) -> Result<HostValueView, Seq<char>> {
    match r {
        Ok(t) => Ok(HostValueView::Text(t)),
        Err(e) => Err(e),
    }
}

/// `bytes` XOR-ed with `key`, an empty key refused.
pub open spec fn xor_result(bytes: Seq<u8>, key: Seq<u8>) -> Result<Seq<u8>, Seq<char>> {
    if key.len() == 0 {
        Err("XOR key must not be empty"@)
    } else {
        Ok(xor_spec(bytes, key))
    }
}

/// The bytes after the first `count`, none when there are fewer.
pub open spec fn drop_bytes(bytes: Seq<u8>, count: int) -> Seq<u8> {
    if count <= bytes.len() {
        bytes.skip(count)
    } else {
        Seq::empty()
    }
}

/// The text field of the payload, as UTF-8 bytes.
pub open spec fn text_bytes(payload: JsonValue, key: Seq<char>) -> Seq<u8> {
    vstd::utf8::encode_utf8(string_field(payload, key))
}

/// AES decryption of base64 text to text.
pub open spec fn aes_decrypt_text(payload: JsonValue) -> Result<HostValueView, Seq<char>> {
    match spec_base64_decode(string_field(payload, "base64"@)) {
        Ok(bytes) => as_text(spec_aes_decrypt(bytes, text_bytes(payload, "key"@))),
        Err(e) => Err(e),
    }
}

/// The answer of a host call that does not touch the cache, the log, the
/// network or XML, by name; `None` for the other names.
pub open spec fn pure_call(name: Seq<char>, payload: JsonValue) -> Option<Result<HostValueView, Seq<char>>> {
    let p = payload;
    if name == "app.info"@ {
        Some(Ok(HostValueView::AppInfo))
    } else if name == "app.userAgent"@ {
        Some(Ok(HostValueView::UserAgent))
    } else if name == "runtime.info"@ {
        Some(Ok(HostValueView::RuntimeInfo))
    } else if name == "crypto.md5"@ {
        Some(Ok(HostValueView::Text(hex_text(spec_md5(text_bytes(p, "text"@)), false))))
    } else if name == "crypto.aesEcbPkcs5EncryptBase64"@ {
        Some(as_base64(spec_aes_encrypt(text_bytes(p, "text"@), text_bytes(p, "key"@))))
    } else if name == "crypto.aesEcbPkcs5EncryptHex"@ {
        Some(match spec_aes_encrypt(text_bytes(p, "text"@), text_bytes(p, "key"@)) {
            Ok(b) => Ok(HostValueView::Text(hex_text(b, true))),
            Err(e) => Err(e),
        })
    } else if name == "crypto.aesEcbPkcs5DecryptBase64ToText"@ {
        Some(aes_decrypt_text(p))
    } else if name == "base64.encodeText"@ {
        Some(Ok(HostValueView::Text(spec_base64_encode(text_bytes(p, "text"@)))))
    } else if name == "base64.decodeText"@ {
        Some(as_text(spec_base64_decode(string_field(p, "base64"@))))
    } else if name == "base64.dropBytes"@ {
        Some(match spec_base64_decode(string_field(p, "base64"@)) {
            Ok(b) => Ok(HostValueView::Text(spec_base64_encode(drop_bytes(b, u64_field(p, "count"@) as usize as int)))),
            Err(e) => Err(e),
        })
    } else if name == "base64.decodeBytes"@ {
        Some(as_bytes(spec_base64_decode(string_field(p, "base64"@))))
    } else if name == "base64.encodeBytes"@ {
        Some(Ok(HostValueView::Text(spec_base64_encode(byte_array_spec(get_spec(p, "bytes"@))))))
    } else if name == "base64.encodeUrlText"@ {
        Some(Ok(HostValueView::Text(spec_base64_url_encode(text_bytes(p, "text"@)))))
    } else if name == "base64.decodeUrlText"@ {
        Some(as_text(spec_base64_url_decode(string_field(p, "base64Url"@))))
    } else if name == "base64.encodeUrlBytes"@ {
        Some(Ok(HostValueView::Text(spec_base64_url_encode(byte_array_spec(get_spec(p, "bytes"@))))))
    } else if name == "base64.decodeUrlBytes"@ {
        Some(as_bytes(spec_base64_url_decode(string_field(p, "base64Url"@))))
    } else if name == "base64.toUrl"@ {
        Some(Ok(HostValueView::Text(to_url_spec(string_field(p, "base64"@)))))
    } else if name == "base64.fromUrl"@ {
        Some(Ok(HostValueView::Text(from_url_spec(string_field(p, "base64Url"@)))))
    } else if name == "bytes.xor"@ {
        Some(as_bytes(xor_result(byte_array_spec(get_spec(p, "bytes"@)), byte_array_spec(get_spec(p, "key"@)))))
    } else if name == "bytes.xorBase64"@ {
        Some(match spec_base64_decode(string_field(p, "base64"@)) {
            Ok(b) => as_base64(xor_result(b, byte_array_spec(get_spec(p, "key"@)))),
            Err(e) => Err(e),
        })
    } else if name == "compression.inflateBytesToText"@ {
        Some(as_plain(spec_inflate(byte_array_spec(get_spec(p, "bytes"@)))))
    } else if name == "compression.inflateBase64ToText"@ {
        Some(match spec_base64_decode(string_field(p, "base64"@)) {
            Ok(b) => as_plain(spec_inflate(b)),
            Err(e) => Err(e),
        })
    } else {
        None
    }
}

/// The empty text answer.
pub open spec fn empty_answer() -> Result<HostValueView, Seq<char>> {
    Ok(HostValueView::Text(Seq::empty()))
}

/// The step of a host call: the log names print, the cache names read or
/// change the cache (see [`cache_after`]), the other known names answer as
/// [`pure_call`] says, `http.*` and `xml.*` are the caller's, and any other
/// name is refused.
pub open spec fn host_step(
    name: Seq<char>,
    payload: JsonValue,
    cache: Seq<(String, JsonValue)>,
    now: u64,
) -> HostStepView {
    let key = string_field(payload, "key"@);
    if name == "log.debug"@ || name == "log.warn"@ || name == "log.error"@ {
        HostStepView::Log(string_field(payload, "tag"@), string_field(payload, "message"@))
    } else if name == "cache.get"@ {
        match cache_lookup(cache, key) {
            None => HostStepView::Reply(empty_answer()),
            Some(item) => if cache_expired(item, now) {
                HostStepView::SaveCache(empty_answer())
            } else {
                HostStepView::Reply(Ok(HostValueView::Text(cache_value(item))))
            },
        }
    } else if name == "cache.set"@ {
        if key.len() == 0 {
            HostStepView::Reply(Err("Cache key must not be empty"@))
        } else {
            HostStepView::SaveCache(empty_answer())
        }
    } else if name == "cache.remove"@ || name == "cache.clear"@ {
        HostStepView::SaveCache(empty_answer())
    } else if pure_call(name, payload) is Some {
        HostStepView::Reply(pure_call(name, payload).unwrap())
    } else if name.len() >= 5 && name.take(5) == "http."@ {
        HostStepView::Http
    } else if name.len() >= 4 && name.take(4) == "xml."@ {
        HostStepView::Xml
    } else {
        HostStepView::Reply(Err("Unsupported host API: "@ + name))
    }
}

/// How a host call leaves the cache: an expired item that is read is
/// dropped, `cache.set` (with a key) stores the value and its expiry under
/// the key, `cache.remove` drops the key, `cache.clear` empties the cache;
/// anything else leaves it as it was.
pub open spec fn cache_after(
    name: Seq<char>,
    payload: JsonValue,
    cache: Seq<(String, JsonValue)>,
    now: u64,
    next: Seq<(String, JsonValue)>,
) -> bool {
    let key = string_field(payload, "key"@);
    if name == "log.debug"@ || name == "log.warn"@ || name == "log.error"@ {
        next == cache
    } else if name == "cache.get"@ {
        if cache_lookup(cache, key) matches Some(item) && cache_expired(item, now) {
            next == without_key(cache, key)
        } else {
            next == cache
        }
    } else if name == "cache.set"@ {
        if key.len() == 0 {
            next == cache
        } else {
            &&& next.len() > 0
            &&& next.drop_last() == without_key(cache, key)
            &&& next.last().0@ == key
            &&& cache_value(next.last().1) == string_field(payload, "value"@)
            &&& cache_expiry(next.last().1) == expiry_for(now, i64_field(payload, "ttlMs"@))
        }
    } else if name == "cache.remove"@ {
        next == without_key(cache, key)
    } else if name == "cache.clear"@ {
        next.len() == 0
    } else {
        next == cache
    }
}

/// The host side of one running plugin: its id and its cache (the items of
/// the plugin's cache file).
#[derive(Debug)]
pub struct HostApi {
    pub plugin_id: String,
    pub cache: Vec<(String, JsonValue)>,
}

fn remove_key(cache: &mut Vec<(String, JsonValue)>, key: &str)
    ensures
        final(cache)@ == without_key(old(cache)@, key@),
{
    let ghost start = cache@;
    let mut i: usize = 0;
    let mut j: usize = 0;
    assert(start.skip(0) =~= start);
    assert(without_key(start.take(0), key@) =~= Seq::<(String, JsonValue)>::empty()) by {
        assert(start.take(0) =~= Seq::<(String, JsonValue)>::empty());
    }
    assert(start.len() <= usize::MAX) by {
        let n = cache.len();
    }
    while i < cache.len()
        invariant
            0 <= j <= start.len() <= usize::MAX,
            i == without_key(start.take(j as int), key@).len(),
            cache@ == without_key(start.take(j as int), key@) + start.skip(j as int),
        decreases start.len() - j,
    {
        assert(j < start.len()) by {
            assert(cache@.len() == i + start.skip(j as int).len());
        }
        assert(start.take(j + 1).drop_last() == start.take(j as int));
        assert(start.take(j + 1).last() == start[j as int]);
        assert(cache@[i as int] == start[j as int]);
        let k = cache[i].0.as_str();
        if str_eq(k, key) {
            let ghost before = cache@;
            let _ = cache.remove(i);
            assert(cache@ =~= without_key(start.take(j + 1), key@) + start.skip(j + 1));
        } else {
            assert(cache@ =~= without_key(start.take(j + 1), key@) + start.skip(j + 1));
            i = i + 1;
        }
        j = j + 1;
    }
    assert(j == start.len()) by {
        if j < start.len() {
            assert(cache@.len() == i + start.skip(j as int).len());
        }
    }
    assert(start.take(start.len() as int) =~= start);
    assert(start.skip(start.len() as int) =~= Seq::<(String, JsonValue)>::empty());
    assert(cache@ =~= without_key(start, key@));
}

fn lookup_exec(cache: &Vec<(String, JsonValue)>, key: &str) -> (r: Option<usize>)
    ensures
        match r {
            Some(i) => i < cache@.len() && cache_lookup(cache@, key@) == Some(cache@[i as int].1),
            None => cache_lookup(cache@, key@) is None,
        },
{
    let mut i: usize = 0;
    while i < cache.len()
        invariant
            0 <= i <= cache@.len(),
            forall|j: int| 0 <= j < i ==> cache@[j].0@ != key@,
        decreases cache.len() - i,
    {
        if str_eq(cache[i].0.as_str(), key) {
            proof {
                lemma_entry_index_at(cache@, key@, i as int);
            }
            return Some(i);
        }
        i = i + 1;
    }
    proof {
        lemma_entry_index_none(cache@, key@);
    }
    None
}

proof fn lemma_entry_index_at(cache: Seq<(String, JsonValue)>, key: Seq<char>, i: int)
    requires
        0 <= i < cache.len(),
        cache[i].0@ == key,
        forall|j: int| 0 <= j < i ==> cache[j].0@ != key,
    ensures
        entry_index(cache, key) == i,
    decreases i,
{
    if i > 0 {
        assert forall|j: int| 0 <= j < i - 1 implies cache.drop_first()[j].0@ != key by {
            assert(cache.drop_first()[j] == cache[j + 1]);
        }
        lemma_entry_index_at(cache.drop_first(), key, i - 1);
    }
}

proof fn lemma_entry_index_none(cache: Seq<(String, JsonValue)>, key: Seq<char>)
    requires
        forall|j: int| 0 <= j < cache.len() ==> cache[j].0@ != key,
    ensures
        entry_index(cache, key) == cache.len(),
    decreases cache.len(),
{
    if cache.len() > 0 {
        assert forall|j: int| 0 <= j < cache.drop_first().len() implies cache.drop_first()[j].0@ != key by {
            assert(cache.drop_first()[j] == cache[j + 1]);
        }
        lemma_entry_index_none(cache.drop_first(), key);
    }
}

fn text_answer(t: String) -> (r: Result<HostValue, String>)
    ensures
        answer_view(r) == Ok::<HostValueView, Seq<char>>(HostValueView::Text(t@)),
{
    Ok(HostValue::Text(t))
}

fn base64_answer(r: Result<Vec<u8>, String>) -> (a: Result<HostValue, String>)
    ensures
        answer_view(a) == as_base64(match r {
            Ok(v) => Ok(v@),
            Err(e) => Err(e@),
        }),
{
    match r {
        Ok(v) => Ok(HostValue::Text(base64_encode(v.as_slice()))),
        Err(e) => Err(e),
    }
}

fn text_of_bytes(r: Result<Vec<u8>, String>) -> (a: Result<HostValue, String>)
    ensures
        answer_view(a) == as_text(match r {
            Ok(v) => Ok(v@),
            Err(e) => Err(e@),
        }),
{
    match r {
        Ok(v) => match utf8_text(v) {
            Ok(t) => Ok(HostValue::Text(t)),
            Err(e) => Err(e),
        },
        Err(e) => Err(e),
    }
}

fn bytes_answer(r: Result<Vec<u8>, String>) -> (a: Result<HostValue, String>)
    ensures
        answer_view(a) == as_bytes(match r {
            Ok(v) => Ok(v@),
            Err(e) => Err(e@),
        }),
{
    match r {
        Ok(v) => Ok(HostValue::Bytes(v)),
        Err(e) => Err(e),
    }
}

fn plain_answer(r: Result<String, String>) -> (a: Result<HostValue, String>)
    ensures
        answer_view(a) == as_plain(match r {
            Ok(t) => Ok(t@),
            Err(e) => Err(e@),
        }),
{
    match r {
        Ok(t) => Ok(HostValue::Text(t)),
        Err(e) => Err(e),
    }
}

fn text_bytes_exec(payload: &JsonValue, key: &str) -> (r: Vec<u8>)
    ensures
        r@ == text_bytes(*payload, key@),
{
    let t = string_field_exec(payload, key);
    bytes_of(t.as_str())
}

/// The answer of a host call that touches neither the cache, the log, the
/// network nor XML (see [`pure_call`]).
pub fn pure_host_call(name: &str, payload: &JsonValue) -> (r: Option<Result<HostValue, String>>)
    ensures
        match r {
            Some(a) => pure_call(name@, *payload) == Some(answer_view(a)),
            None => pure_call(name@, *payload) is None,
        },
{
    let p = payload;
    if str_eq(name, "app.info") {
        Some(Ok(HostValue::AppInfo))
    } else if str_eq(name, "app.userAgent") {
        Some(Ok(HostValue::UserAgent))
    } else if str_eq(name, "runtime.info") {
        Some(Ok(HostValue::RuntimeInfo))
    } else if str_eq(name, "crypto.md5") {
        let digest = md5_digest(text_bytes_exec(p, "text").as_slice());
        Some(text_answer(hex_exec(digest.as_slice(), false)))
    } else if str_eq(name, "crypto.aesEcbPkcs5EncryptBase64") {
        let k = text_bytes_exec(p, "key");
        Some(base64_answer(aes_encrypt(text_bytes_exec(p, "text").as_slice(), k.as_slice())))
    } else if str_eq(name, "crypto.aesEcbPkcs5EncryptHex") {
        let k = text_bytes_exec(p, "key");
        Some(match aes_encrypt(text_bytes_exec(p, "text").as_slice(), k.as_slice()) {
            Ok(b) => Ok(HostValue::Text(hex_exec(b.as_slice(), true))),
            Err(e) => Err(e),
        })
    } else if str_eq(name, "crypto.aesEcbPkcs5DecryptBase64ToText") {
        let b64 = string_field_exec(p, "base64");
        Some(match base64_decode(b64.as_str()) {
            Ok(bytes) => {
                let k = text_bytes_exec(p, "key");
                text_of_bytes(aes_decrypt(bytes.as_slice(), k.as_slice()))
            },
            Err(e) => Err(e),
        })
    } else if str_eq(name, "base64.encodeText") {
        Some(text_answer(base64_encode(text_bytes_exec(p, "text").as_slice())))
    } else if str_eq(name, "base64.decodeText") {
        let b64 = string_field_exec(p, "base64");
        Some(text_of_bytes(base64_decode(b64.as_str())))
    } else if str_eq(name, "base64.dropBytes") {
        let b64 = string_field_exec(p, "base64");
        Some(match base64_decode(b64.as_str()) {
            Ok(bytes) => {
                #[verifier::truncate]
                let count = u64_field_exec(p, "count") as usize;
                let mut rest: Vec<u8> = Vec::new();
                if count <= bytes.len() {
                    let mut i = count;
                    while i < bytes.len()
                        invariant
                            count <= i <= bytes@.len(),
                            rest@ == bytes@.subrange(count as int, i as int),
                        decreases bytes.len() - i,
                    {
                        rest.push(bytes[i]);
                        assert(rest@ =~= bytes@.subrange(count as int, i + 1));
                        i = i + 1;
                    }
                    assert(rest@ =~= bytes@.skip(count as int));
                } else {
                    assert(rest@ =~= Seq::<u8>::empty());
                }
                Ok(HostValue::Text(base64_encode(rest.as_slice())))
            },
            Err(e) => Err(e),
        })
    } else if str_eq(name, "base64.decodeBytes") {
        let b64 = string_field_exec(p, "base64");
        Some(bytes_answer(base64_decode(b64.as_str())))
    } else if str_eq(name, "base64.encodeBytes") {
        Some(text_answer(base64_encode(byte_array(get(p, "bytes")).as_slice())))
    } else if str_eq(name, "base64.encodeUrlText") {
        Some(text_answer(base64_url_encode(text_bytes_exec(p, "text").as_slice())))
    } else if str_eq(name, "base64.decodeUrlText") {
        let b64 = string_field_exec(p, "base64Url");
        Some(text_of_bytes(base64_url_decode(b64.as_str())))
    } else if str_eq(name, "base64.encodeUrlBytes") {
        Some(text_answer(base64_url_encode(byte_array(get(p, "bytes")).as_slice())))
    } else if str_eq(name, "base64.decodeUrlBytes") {
        let b64 = string_field_exec(p, "base64Url");
        Some(bytes_answer(base64_url_decode(b64.as_str())))
    } else if str_eq(name, "base64.toUrl") {
        let b64 = string_field_exec(p, "base64");
        Some(text_answer(base64_to_url(b64.as_str())))
    } else if str_eq(name, "base64.fromUrl") {
        let b64 = string_field_exec(p, "base64Url");
        Some(text_answer(base64_from_url(b64.as_str())))
    } else if str_eq(name, "bytes.xor") {
        let bytes = byte_array(get(p, "bytes"));
        let key = byte_array(get(p, "key"));
        Some(bytes_answer(xor(bytes.as_slice(), key.as_slice())))
    } else if str_eq(name, "bytes.xorBase64") {
        let b64 = string_field_exec(p, "base64");
        Some(match base64_decode(b64.as_str()) {
            Ok(bytes) => {
                let key = byte_array(get(p, "key"));
                base64_answer(xor(bytes.as_slice(), key.as_slice()))
            },
            Err(e) => Err(e),
        })
    } else if str_eq(name, "compression.inflateBytesToText") {
        let bytes = byte_array(get(p, "bytes"));
        Some(plain_answer(inflate(bytes.as_slice())))
    } else if str_eq(name, "compression.inflateBase64ToText") {
        let b64 = string_field_exec(p, "base64");
        Some(match base64_decode(b64.as_str()) {
            Ok(bytes) => plain_answer(inflate(bytes.as_slice())),
            Err(e) => Err(e),
        })
    } else {
        None
    }
}

impl HostApi {
    /// One host call of the plugin (see [`host_step`] and [`cache_after`]);
    /// `now` is the current time in milliseconds.
    pub fn call(&mut self, name: &str, payload: &JsonValue, now: u64) -> (r: HostStep)
        ensures
            r@ == host_step(name@, *payload, old(self).cache@, now),
            cache_after(name@, *payload, old(self).cache@, now, final(self).cache@),
            final(self).plugin_id == old(self).plugin_id,
    {
        if str_eq(name, "log.debug") || str_eq(name, "log.warn") || str_eq(name, "log.error") {
            return HostStep::Log(string_field_exec(payload, "tag"), string_field_exec(payload, "message"));
        }
        let key = string_field_exec(payload, "key");
        if str_eq(name, "cache.get") {
            match lookup_exec(&self.cache, key.as_str()) {
                None => {
                    return HostStep::Reply(text_answer(String::new()));
                },
                Some(i) => {
                    let item = &self.cache[i].1;
                    let expires = match get(item, "expiresAt") {
                        Some(JsonValue::Number(n)) => match n.as_u64 {
                            Some(v) => v,
                            None => 0,
                        },
                        _ => 0,
                    };
                    if expires > 0 && expires <= now {
                        remove_key(&mut self.cache, key.as_str());
                        return HostStep::SaveCache(text_answer(String::new()));
                    }
                    let value = string_field_exec(item, "value");
                    return HostStep::Reply(text_answer(value));
                },
            }
        }
        if str_eq(name, "cache.set") {
            if key.as_str().is_empty() {
                return HostStep::Reply(Err("Cache key must not be empty".to_string()));
            }
            let value = string_field_exec(payload, "value");
            let ttl = i64_field_exec(payload, "ttlMs");
            let expires: u64 = if ttl > 0 {
                now.saturating_add(ttl as u64)
            } else {
                0
            };
            assert(expires == expiry_for(now, i64_field(*payload, "ttlMs"@)));
            let ghost kv = key@;
            remove_key(&mut self.cache, key.as_str());
            let ghost without = self.cache@;
            let item = cache_item(value, expires);
            self.cache.push((key, item));
            assert(self.cache@.drop_last() == without);
            assert(self.cache@.last().0@ == kv);
            return HostStep::SaveCache(text_answer(String::new()));
        }
        if str_eq(name, "cache.remove") {
            remove_key(&mut self.cache, key.as_str());
            return HostStep::SaveCache(text_answer(String::new()));
        }
        if str_eq(name, "cache.clear") {
            self.cache.clear();
            return HostStep::SaveCache(text_answer(String::new()));
        }
        if let Some(answer) = pure_host_call(name, payload) {
            return HostStep::Reply(answer);
        }
        let chars = chars_of(name);
        let http = chars_of("http.");
        let xml = chars_of("xml.");
        proof {
            reveal_strlit("http.");
            reveal_strlit("xml.");
        }
        if starts_with(chars.as_slice(), http.as_slice()) {
            return HostStep::Http;
        }
        if starts_with(chars.as_slice(), xml.as_slice()) {
            return HostStep::Xml;
        }
        let mut e = "Unsupported host API: ".to_string();
        e.append(name);
        HostStep::Reply(Err(e))
    }
}

/// A cache item: the value and its expiry.
fn cache_item(value: String, expires: u64) -> (r: JsonValue)
    ensures
        cache_value(r) == value@,
        cache_expiry(r) == expires,
{
    let mut text = String::new();
    crate::text::push_decimal(&mut text, expires);
    let as_i64: Option<i64> = if expires <= i64::MAX as u64 {
        Some(expires as i64)
    } else {
        None
    };
    let rounded: i64 = match as_i64 {
        Some(v) => v,
        None => i64::MAX,
    };
    let number = JsonNumber { as_i64, as_u64: Some(expires), rounded, text };
    let entries = vec![("value".to_string(), JsonValue::Str(value)), ("expiresAt".to_string(), JsonValue::Number(number))];
    let r = JsonValue::Object(entries);
    proof {
        reveal_strlit("value");
        reveal_strlit("expiresAt");
        assert(entry_index(entries@, "value"@) == 0);
        assert("expiresAt"@ != "value"@) by {
            assert("expiresAt"@.len() != "value"@.len());
        }
        assert(entry_index(entries@.drop_first(), "expiresAt"@) == 0);
        assert(entry_index(entries@, "expiresAt"@) == 1);
    }
    r
}

proof fn lemma_without_key(cache: Seq<(String, JsonValue)>, key: Seq<char>)
    ensures
        forall|j: int| 0 <= j < without_key(cache, key).len() ==> #[trigger] without_key(cache, key)[j].0@ != key,
    decreases cache.len(),
{
    if cache.len() == 0 {
        assert(without_key(cache, key).len() == 0);
    } else {
        lemma_without_key(cache.drop_last(), key);
        let p = without_key(cache.drop_last(), key);
        let w = without_key(cache, key);
        if cache.last().0@ != key {
            assert(w == p.push(cache.last()));
            assert forall|j: int| 0 <= j < w.len() implies #[trigger] w[j].0@ != key by {
                if j < p.len() {
                    assert(w[j] == p[j]);
                    assert(p[j].0@ != key);
                } else {
                    assert(j == p.len());
                    assert(w[j] == cache.last());
                    assert(cache.last().0@ != key);
                    assert(w[j].0@ == cache.last().0@);
                }
            }
        } else {
            assert(w == p);
            assert forall|j: int| 0 <= j < w.len() implies #[trigger] w[j].0@ != key by {
                assert(w[j] == p[j]);
                assert(p[j].0@ != key);
            }
        }
    }
}

/// What a plugin stores in its cache it reads back: after `cache.set` of a
/// value under a key, `cache.get` of that key answers the value, as long as
/// the item has not expired (no time to live, or a read before the expiry).
pub proof fn cache_set_then_get(
    set_payload: JsonValue,
    get_payload: JsonValue,
    before: Seq<(String, JsonValue)>,
    after: Seq<(String, JsonValue)>,
    set_time: u64,
    get_time: u64,
)
    requires
        string_field(set_payload, "key"@).len() > 0,
        string_field(get_payload, "key"@) == string_field(set_payload, "key"@),
        cache_after("cache.set"@, set_payload, before, set_time, after),
        expiry_for(set_time, i64_field(set_payload, "ttlMs"@)) == 0 || get_time < expiry_for(
            set_time,
            i64_field(set_payload, "ttlMs"@),
        ),
    ensures
        host_step("cache.get"@, get_payload, after, get_time) == HostStepView::Reply(
            Ok(HostValueView::Text(string_field(set_payload, "value"@))),
        ),
{
    let key = string_field(set_payload, "key"@);
    reveal_strlit("cache.set");
    reveal_strlit("cache.get");
    reveal_strlit("log.debug");
    reveal_strlit("log.warn");
    reveal_strlit("log.error");
    assert("cache.set"@[0] != "log.debug"@[0] && "cache.set"@.len() != "log.warn"@.len()
        && "cache.set"@[0] != "log.error"@[0] && "cache.set"@[6] != "cache.get"@[6]);
    assert("cache.get"@[0] != "log.debug"@[0] && "cache.get"@.len() != "log.warn"@.len()
        && "cache.get"@[0] != "log.error"@[0]);
    lemma_without_key(before, key);
    assert(key.len() > 0);
    assert(after.drop_last() == without_key(before, key));
    let n = after.len() - 1;
    assert forall|j: int| 0 <= j < n implies after[j].0@ != key by {
        assert(after[j] == after.drop_last()[j]);
        assert(without_key(before, key)[j].0@ != key);
    }
    lemma_entry_index_at(after, key, n);
}

/// A removed item is gone: after `cache.remove` of a key, `cache.get` of
/// that key answers the empty text.
pub proof fn cache_remove_then_get(
    remove_payload: JsonValue,
    get_payload: JsonValue,
    before: Seq<(String, JsonValue)>,
    after: Seq<(String, JsonValue)>,
    remove_time: u64,
    get_time: u64,
)
    requires
        string_field(get_payload, "key"@) == string_field(remove_payload, "key"@),
        cache_after("cache.remove"@, remove_payload, before, remove_time, after),
    ensures
        host_step("cache.get"@, get_payload, after, get_time) == HostStepView::Reply(empty_answer()),
{
    let key = string_field(remove_payload, "key"@);
    reveal_strlit("cache.remove");
    reveal_strlit("cache.get");
    reveal_strlit("cache.set");
    reveal_strlit("log.debug");
    reveal_strlit("log.warn");
    reveal_strlit("log.error");
    assert("cache.remove"@[0] != "log.debug"@[0] && "cache.remove"@.len() != "log.warn"@.len()
        && "cache.remove"@[0] != "log.error"@[0] && "cache.remove"@.len() != "cache.get"@.len()
        && "cache.remove"@.len() != "cache.set"@.len());
    assert("cache.get"@[0] != "log.debug"@[0] && "cache.get"@.len() != "log.warn"@.len()
        && "cache.get"@[0] != "log.error"@[0]);
    lemma_without_key(before, key);
    assert(after == without_key(before, key));
    lemma_entry_index_none(after, key);
}

/// A cleared cache is empty: after `cache.clear`, `cache.get` of any key
/// answers the empty text.
pub proof fn cache_clear_then_get(
    clear_payload: JsonValue,
    get_payload: JsonValue,
    before: Seq<(String, JsonValue)>,
    after: Seq<(String, JsonValue)>,
    clear_time: u64,
    get_time: u64,
)
    requires
        cache_after("cache.clear"@, clear_payload, before, clear_time, after),
    ensures
        host_step("cache.get"@, get_payload, after, get_time) == HostStepView::Reply(empty_answer()),
{
    reveal_strlit("cache.clear");
    reveal_strlit("cache.remove");
    reveal_strlit("cache.get");
    reveal_strlit("cache.set");
    reveal_strlit("log.debug");
    reveal_strlit("log.warn");
    reveal_strlit("log.error");
    assert("cache.clear"@[0] != "log.debug"@[0] && "cache.clear"@.len() != "log.warn"@.len()
        && "cache.clear"@[0] != "log.error"@[0] && "cache.clear"@[6] != "cache.get"@[6]
        && "cache.clear"@[6] != "cache.set"@[6] && "cache.clear"@.len() != "cache.remove"@.len());
    assert("cache.get"@[0] != "log.debug"@[0] && "cache.get"@.len() != "log.warn"@.len()
        && "cache.get"@[0] != "log.error"@[0]);
    lemma_entry_index_none(after, string_field(get_payload, "key"@));
}

/// XOR-ing with the same key twice gives the bytes back.
pub proof fn xor_twice(bytes: Seq<u8>, key: Seq<u8>)
    requires
        key.len() > 0,
    ensures
        xor_spec(xor_spec(bytes, key), key) == bytes,
{
    assert forall|i: int| 0 <= i < bytes.len() implies #[trigger] xor_spec(xor_spec(bytes, key), key)[i]
        == bytes[i] by {
        let b = bytes[i];
        let k = key[i % key.len() as int];
        assert((b ^ k) ^ k == b) by (bit_vector);
    }
    assert(xor_spec(xor_spec(bytes, key), key) =~= bytes);
}

} // verus!
