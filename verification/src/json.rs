//! A small JSON-style value tree and its canonical text form.
//!
//! The wire format of the renderer is one serialized value per line:
//! unsigned integers, double-quoted strings, `[...]` arrays and `{...}`
//! objects with ordered members, written without any whitespace. The
//! serializer and the parser below are exact inverses on every value,
//! which carries the round-trip guarantee for whole scene forests.

use vstd::prelude::*;

verus! {

/// A JSON-style value.
///
/// Object members are an ordered list; the canonical form writes them in
/// the order given and the parser returns them in the order read.
pub enum Json {
    UInt(u64),
    Str(Vec<char>),
    Arr(Vec<Json>),
    Obj(Vec<(Vec<char>, Json)>),
}

/// The mathematical model of a JSON value.
pub enum JsonV {
    UInt(u64),
    Str(Seq<char>),
    Arr(Seq<JsonV>),
    Obj(Seq<(Seq<char>, JsonV)>),
}

/// The model of one value.
pub open spec fn json_view(j: Json) -> JsonV
    decreases j,
{
    match j {
        Json::UInt(n) => JsonV::UInt(n),
        Json::Str(s) => JsonV::Str(s@),
        Json::Arr(elems) => JsonV::Arr(elems_view(elems@)),
        Json::Obj(members) => JsonV::Obj(members_view(members@)),
    }
}

pub open spec fn elems_view(s: Seq<Json>) -> Seq<JsonV>
    decreases s,
{
    if s.len() == 0 {
        Seq::empty()
    } else {
        seq![json_view(s[0])] + elems_view(s.drop_first())
    }
}

pub open spec fn members_view(s: Seq<(Vec<char>, Json)>) -> Seq<(Seq<char>, JsonV)>
    decreases s,
{
    if s.len() == 0 {
        Seq::empty()
    } else {
        seq![(s[0].0@, json_view(s[0].1))] + members_view(s.drop_first())
    }
}

impl View for Json {
    type V = JsonV;

    open spec fn view(&self) -> JsonV {
        json_view(*self)
    }
}

// ---------------------------------------------------------------------------
// Characters
// ---------------------------------------------------------------------------

/// A decimal digit.
pub open spec fn is_digit(c: char) -> bool {
    48 <= c as u32 <= 57
}

/// Numeric value of a decimal digit.
pub open spec fn digit_val(c: char) -> nat {
    (c as u32 - 48) as nat
}

/// The decimal digit for a value below ten.
pub open spec fn digit_char(d: nat) -> char {
    ((48 + d) as u32) as char
}

/// A lower-case hexadecimal digit.
pub open spec fn is_hex(c: char) -> bool {
    48 <= c as u32 <= 57 || 97 <= c as u32 <= 102
}

/// Numeric value of a lower-case hexadecimal digit.
pub open spec fn hex_val(c: char) -> nat {
    if 48 <= c as u32 <= 57 {
        (c as u32 - 48) as nat
    } else {
        (c as u32 - 87) as nat
    }
}

/// The lower-case hexadecimal digit for a value below sixteen.
pub open spec fn hex_char(d: nat) -> char {
    if d < 10 {
        ((48 + d) as u32) as char
    } else {
        ((87 + d) as u32) as char
    }
}

// ---------------------------------------------------------------------------
// String escaping
// ---------------------------------------------------------------------------

/// The escape of one character: quotes and backslashes get a backslash,
/// control characters become `\u00xx`, everything else stands as itself.
pub open spec fn esc_char(c: char) -> Seq<char> {
    if c == '"' {
        seq!['\\', '"']
    } else if c == '\\' {
        seq!['\\', '\\']
    } else if (c as u32) < 32 {
        seq!['\\', 'u', '0', '0', hex_char((c as u32 / 16) as nat), hex_char((c as u32 % 16) as nat)]
    } else {
        seq![c]
    }
}

/// The escaped body of a string, without the surrounding quotes.
pub open spec fn escape(s: Seq<char>) -> Seq<char>
    decreases s,
{
    if s.len() == 0 {
        Seq::empty()
    } else {
        esc_char(s[0]) + escape(s.drop_first())
    }
}

/// `pat` occurs in `s` starting at position `i`.
pub open spec fn matches_at(s: Seq<char>, i: int, pat: Seq<char>) -> bool {
    &&& 0 <= i
    &&& i + pat.len() <= s.len()
    &&& forall|k: int| 0 <= k < pat.len() ==> s[i + k] == pat[k]
}

/// One character read out of a match.
pub proof fn lemma_matches_index(s: Seq<char>, i: int, pat: Seq<char>, k: int)
    requires
        matches_at(s, i, pat),
        0 <= k < pat.len(),
    ensures
        s[i + k] == pat[k],
{
}

/// A match of a concatenation splits into two adjacent matches.
pub proof fn lemma_matches_split(s: Seq<char>, i: int, a: Seq<char>, b: Seq<char>)
    requires
        matches_at(s, i, a + b),
    ensures
        matches_at(s, i, a),
        matches_at(s, i + a.len(), b),
{
    assert forall|k: int| 0 <= k < a.len() implies s[i + k] == a[k] by {
        assert((a + b)[k] == a[k]);
    }
    assert forall|k: int| 0 <= k < b.len() implies s[i + a.len() + k] == b[k] by {
        assert((a + b)[a.len() + k] == b[k]);
    }
}

// ---------------------------------------------------------------------------
// String parsing
// ---------------------------------------------------------------------------

/// Parse the body of a string, `i` standing just after the opening quote.
/// Returns the unescaped content and the position just after the closing
/// quote.
pub open spec fn p_string(s: Seq<char>, i: int) -> Option<(Seq<char>, int)>
    decreases s.len() - i,
{
    if i < 0 || i >= s.len() {
        None
    } else if s[i] == '"' {
        Some((Seq::empty(), i + 1))
    } else if s[i] == '\\' {
        if s.len() - i >= 2 && (s[i + 1] == '"' || s[i + 1] == '\\') {
            match p_string(s, i + 2) {
                Some((rest, j)) => Some((seq![s[i + 1]] + rest, j)),
                None => None,
            }
        } else if i + 6 <= s.len() && s[i + 1] == 'u' && s[i + 2] == '0' && s[i + 3] == '0'
            && is_hex(s[i + 4]) && is_hex(s[i + 5]) && hex_val(s[i + 4]) * 16 + hex_val(s[i + 5]) < 32 {
            let code = hex_val(s[i + 4]) * 16 + hex_val(s[i + 5]);
            match p_string(s, i + 6) {
                Some((rest, j)) => Some((seq![(code as u32) as char] + rest, j)),
                None => None,
            }
        } else {
            None
        }
    } else {
        match p_string(s, i + 1) {
            Some((rest, j)) => Some((seq![s[i]] + rest, j)),
            None => None,
        }
    }
}

/// A parsed string body ends after the opening position and inside the text.
pub proof fn lemma_p_string_progress(s: Seq<char>, i: int)
    requires
        p_string(s, i) is Some,
    ensures
        i + 1 <= p_string(s, i).unwrap().1 <= s.len(),
    decreases s.len() - i,
{
    if s[i] == '"' {
    } else if s[i] == '\\' {
        if s.len() - i >= 2 && (s[i + 1] == '"' || s[i + 1] == '\\') {
            lemma_p_string_progress(s, i + 2);
        } else {
            lemma_p_string_progress(s, i + 6);
        }
    } else {
        lemma_p_string_progress(s, i + 1);
    }
}

/// Parsing reads back exactly what escaping wrote: if the escape of `str`
/// followed by a closing quote stands at `i`, the parser returns `str` and
/// stops just past that quote.
pub proof fn lemma_rt_string(s: Seq<char>, i: int, str: Seq<char>)
    requires
        matches_at(s, i, escape(str) + seq!['"']),
    ensures
        p_string(s, i) == Some((str, i + escape(str).len() + 1)),
    decreases str.len(),
{
    if str.len() == 0 {
        assert(s[i + 0] == (escape(str) + seq!['"'])[0]);
        assert(s[i] == '"');
    } else {
        let c = str[0];
        let tail = str.drop_first();
        assert(escape(str) == esc_char(c) + escape(tail));
        assert((esc_char(c) + escape(tail)) + seq!['"'] =~= esc_char(c) + (escape(tail)
            + seq!['"']));
        lemma_matches_split(s, i, esc_char(c), escape(tail) + seq!['"']);
        assert(matches_at(s, i + esc_char(c).len(), escape(tail) + seq!['"']));
        lemma_rt_string(s, i + esc_char(c).len(), tail);
        assert forall|k: int| 0 <= k < esc_char(c).len() implies s[i + k] == esc_char(c)[k] by {}
        if c == '"' {
            assert(s[i] == '\\' && s[i + 1] == '"');
            assert(seq![s[i + 1]] + tail == str);
        } else if c == '\\' {
            assert(s[i] == '\\' && s[i + 1] == '\\');
            assert(seq![s[i + 1]] + tail == str);
        } else if (c as u32) < 32 {
            let hi = (c as u32 / 16) as nat;
            let lo = (c as u32 % 16) as nat;
            assert(s[i] == '\\' && s[i + 1] == 'u' && s[i + 2] == '0' && s[i + 3] == '0');
            assert(s[i + 4] == hex_char(hi) && s[i + 5] == hex_char(lo));
            lemma_hex_char_val(hi);
            lemma_hex_char_val(lo);
            assert(hex_val(s[i + 4]) * 16 + hex_val(s[i + 5]) == c as u32);
            vstd::utf8::char_u32_cast(c, c as u32);
            assert(seq![(c as u32) as char] + tail == str);
        } else {
            assert(s[i + 0] == esc_char(c)[0]);
            assert(s[i] == c);
            assert(c != '"' && c != '\\');
            assert(seq![s[i]] + tail == str);
        }
    }
}

/// A hexadecimal digit character reads back as its value.
pub proof fn lemma_hex_char_val(d: nat)
    requires
        d < 16,
    ensures
        is_hex(hex_char(d)),
        hex_val(hex_char(d)) == d,
{
}

// ---------------------------------------------------------------------------
// Numbers
// ---------------------------------------------------------------------------

/// The decimal digits of a number, most significant first.
pub open spec fn ser_nat(n: nat) -> Seq<char>
    decreases n,
{
    if n < 10 {
        seq![digit_char(n)]
    } else {
        ser_nat(n / 10) + seq![digit_char(n % 10)]
    }
}

/// The first position at or after `i` that does not hold a decimal digit.
pub open spec fn digits_end(s: Seq<char>, i: int) -> int
    decreases s.len() - i,
{
    if 0 <= i < s.len() && is_digit(s[i]) {
        digits_end(s, i + 1)
    } else {
        i
    }
}

/// The value of the decimal digits standing from `i` up to `j`.
pub open spec fn dec_val(s: Seq<char>, i: int, j: int) -> nat
    decreases j - i,
{
    if i < j {
        dec_val(s, i, j - 1) * 10 + digit_val(s[j - 1])
    } else {
        0
    }
}

/// Parse a number standing at `i`: the maximal run of digits, rejected when
/// its value does not fit an unsigned 64-bit integer.
pub open spec fn p_number(s: Seq<char>, i: int) -> Option<(JsonV, int)> {
    let e = digits_end(s, i);
    if e == i {
        None
    } else if dec_val(s, i, e) > u64::MAX {
        None
    } else {
        Some((JsonV::UInt(dec_val(s, i, e) as u64), e))
    }
}

/// The digit run ends exactly where the digits stop.
proof fn lemma_digits_end_at(s: Seq<char>, i: int, j: int)
    requires
        0 <= i <= j <= s.len(),
        forall|k: int| i <= k < j ==> is_digit(s[k]),
        j == s.len() || !is_digit(s[j]),
    ensures
        digits_end(s, i) == j,
    decreases j - i,
{
    if i < j {
        lemma_digits_end_at(s, i + 1, j);
    }
}

/// The serialized form of a number is all digits, and at least one.
proof fn lemma_ser_nat_digits(n: nat)
    ensures
        ser_nat(n).len() >= 1,
        forall|k: int| 0 <= k < ser_nat(n).len() ==> is_digit(#[trigger] ser_nat(n)[k]),
    decreases n,
{
    if n < 10 {
        assert(is_digit(ser_nat(n)[0]));
    } else {
        lemma_ser_nat_digits(n / 10);
        assert forall|k: int| 0 <= k < ser_nat(n).len() implies is_digit(#[trigger] ser_nat(n)[k]) by {
            if k < ser_nat(n / 10).len() {
                assert(ser_nat(n)[k] == ser_nat(n / 10)[k]);
            } else {
                assert(ser_nat(n)[k] == digit_char(n % 10));
            }
        }
    }
}

/// The digits written for a number read back as its value.
proof fn lemma_dec_val_ser(s: Seq<char>, i: int, n: nat)
    requires
        matches_at(s, i, ser_nat(n)),
    ensures
        dec_val(s, i, i + ser_nat(n).len()) == n,
    decreases n,
{
    if n < 10 {
        assert(s[i + 0] == ser_nat(n)[0]);
        assert(ser_nat(n)[0] == digit_char(n));
        assert(dec_val(s, i, i) == 0);
    } else {
        let hd = ser_nat(n / 10);
        lemma_matches_split(s, i, hd, seq![digit_char(n % 10)]);
        lemma_dec_val_ser(s, i, n / 10);
        assert(s[i + hd.len() + 0] == seq![digit_char(n % 10)][0]);
        assert(dec_val(s, i, i + ser_nat(n).len()) == dec_val(s, i, i + hd.len()) * 10 + digit_val(
            s[i + hd.len()],
        ));
    }
}

/// Parsing reads back exactly the number that was written, provided no
/// further digit follows it.
pub proof fn lemma_rt_number(s: Seq<char>, i: int, n: u64)
    requires
        matches_at(s, i, ser_nat(n as nat)),
        i + ser_nat(n as nat).len() == s.len() || !is_digit(s[i + ser_nat(n as nat).len()]),
    ensures
        p_number(s, i) == Some((JsonV::UInt(n), i + ser_nat(n as nat).len())),
{
    let e = i + ser_nat(n as nat).len();
    lemma_ser_nat_digits(n as nat);
    assert forall|k: int| i <= k < e implies is_digit(s[k]) by {
        assert(s[i + (k - i)] == ser_nat(n as nat)[k - i]);
    }
    lemma_digits_end_at(s, i, e);
    lemma_dec_val_ser(s, i, n as nat);
}

// ---------------------------------------------------------------------------
// Serialization
// ---------------------------------------------------------------------------

/// The canonical text of a value: no whitespace, members in order, strings
/// escaped as in `esc_char`.
pub open spec fn ser_json(j: JsonV) -> Seq<char>
    decreases j,
{
    match j {
        JsonV::UInt(n) => ser_nat(n as nat),
        JsonV::Str(str) => seq!['"'] + escape(str) + seq!['"'],
        JsonV::Arr(elems) => if elems.len() == 0 {
            seq!['[', ']']
        } else {
            seq!['['] + ser_elems(elems) + seq![']']
        },
        JsonV::Obj(ms) => if ms.len() == 0 {
            seq!['{', '}']
        } else {
            seq!['{'] + ser_members(ms) + seq!['}']
        },
    }
}

/// The elements of a non-empty array, comma-separated.
pub open spec fn ser_elems(elems: Seq<JsonV>) -> Seq<char>
    decreases elems,
{
    if elems.len() == 0 {
        Seq::empty()
    } else if elems.len() == 1 {
        ser_json(elems[0])
    } else {
        ser_json(elems[0]) + seq![','] + ser_elems(elems.drop_first())
    }
}

/// The members of a non-empty object, comma-separated `"key":value` pairs.
pub open spec fn ser_members(ms: Seq<(Seq<char>, JsonV)>) -> Seq<char>
    decreases ms,
{
    if ms.len() == 0 {
        Seq::empty()
    } else if ms.len() == 1 {
        seq!['"'] + escape(ms[0].0) + seq!['"', ':'] + ser_json(ms[0].1)
    } else {
        seq!['"'] + escape(ms[0].0) + seq!['"', ':'] + ser_json(ms[0].1) + seq![','] + ser_members(
            ms.drop_first(),
        )
    }
}

// ---------------------------------------------------------------------------
// Parsing
// ---------------------------------------------------------------------------

/// Prepending one element prepends its model.
pub proof fn lemma_elems_view_cons(v: Json, rest: Seq<Json>)
    ensures
        elems_view(seq![v] + rest) == seq![json_view(v)] + elems_view(rest),
{
    assert((seq![v] + rest)[0] == v);
    assert((seq![v] + rest).drop_first() =~= rest);
}

/// Prepending one member prepends its model.
pub proof fn lemma_members_view_cons(kv: (Vec<char>, Json), rest: Seq<(Vec<char>, Json)>)
    ensures
        members_view(seq![kv] + rest) == seq![(kv.0@, json_view(kv.1))] + members_view(rest),
{
    assert((seq![kv] + rest)[0] == kv);
    assert((seq![kv] + rest).drop_first() =~= rest);
}

/// Parse one value standing at `i`. The fuel only serves termination; any
/// fuel of at least `2 * (s.len() - i) + 4` gives the definitive answer.
pub open spec fn p_value(s: Seq<char>, i: int, f: nat) -> Option<(JsonV, int)>
    decreases f,
{
    if f == 0 {
        None
    } else if !(0 <= i < s.len()) {
        None
    } else if s[i] == '"' {
        match p_string(s, i + 1) {
            Some((str, j)) => Some((JsonV::Str(str), j)),
            None => None,
        }
    } else if is_digit(s[i]) {
        p_number(s, i)
    } else if s[i] == '[' {
        if i + 1 < s.len() && s[i + 1] == ']' {
            Some((JsonV::Arr(Seq::empty()), i + 2))
        } else {
            match p_elems(s, i + 1, (f - 1) as nat) {
                Some((elems, j)) => Some((JsonV::Arr(elems), j)),
                None => None,
            }
        }
    } else if s[i] == '{' {
        if i + 1 < s.len() && s[i + 1] == '}' {
            Some((JsonV::Obj(Seq::empty()), i + 2))
        } else {
            match p_members(s, i + 1, (f - 1) as nat) {
                Some((ms, j)) => Some((JsonV::Obj(ms), j)),
                None => None,
            }
        }
    } else {
        None
    }
}

/// Parse the elements of a non-empty array, up to and including the
/// closing bracket.
pub open spec fn p_elems(s: Seq<char>, i: int, f: nat) -> Option<(Seq<JsonV>, int)>
    decreases f,
{
    if f == 0 {
        None
    } else {
        match p_value(s, i, (f - 1) as nat) {
            None => None,
            Some((v, j)) => if j < s.len() && s[j] == ',' {
                match p_elems(s, j + 1, (f - 1) as nat) {
                    Some((rest, k)) => Some((seq![v] + rest, k)),
                    None => None,
                }
            } else if j < s.len() && s[j] == ']' {
                Some((seq![v], j + 1))
            } else {
                None
            },
        }
    }
}

/// Parse the members of a non-empty object, up to and including the
/// closing brace.
pub open spec fn p_members(s: Seq<char>, i: int, f: nat) -> Option<
    (Seq<(Seq<char>, JsonV)>, int),
>
    decreases f,
{
    if f == 0 {
        None
    } else if 0 <= i < s.len() && s[i] == '"' {
        match p_string(s, i + 1) {
            None => None,
            Some((key, j)) => if j < s.len() && s[j] == ':' {
                match p_value(s, j + 1, (f - 1) as nat) {
                    None => None,
                    Some((v, k)) => if k < s.len() && s[k] == ',' {
                        match p_members(s, k + 1, (f - 1) as nat) {
                            Some((rest, l)) => Some((seq![(key, v)] + rest, l)),
                            None => None,
                        }
                    } else if k < s.len() && s[k] == '}' {
                        Some((seq![(key, v)], k + 1))
                    } else {
                        None
                    },
                }
            } else {
                None
            },
        }
    } else {
        None
    }
}

/// The digit run never moves backwards and stays inside the text.
proof fn lemma_digits_end_bounds(s: Seq<char>, i: int)
    requires
        0 <= i <= s.len(),
    ensures
        i <= digits_end(s, i) <= s.len(),
    decreases s.len() - i,
{
    if i < s.len() && is_digit(s[i]) {
        lemma_digits_end_bounds(s, i + 1);
    }
}

/// A successful parse always consumes at least one character and stays
/// inside the text.
pub proof fn lemma_p_value_progress(s: Seq<char>, i: int, f: nat)
    ensures
        p_value(s, i, f) is Some ==> i + 1 <= p_value(s, i, f).unwrap().1 <= s.len(),
    decreases f,
{
    if f > 0 && 0 <= i < s.len() {
        if s[i] == '"' {
            if p_string(s, i + 1) is Some {
                lemma_p_string_progress(s, i + 1);
            }
        } else if is_digit(s[i]) {
            lemma_digits_end_bounds(s, i);
        } else if s[i] == '[' {
            if !(i + 1 < s.len() && s[i + 1] == ']') {
                lemma_p_elems_progress(s, i + 1, (f - 1) as nat);
            }
        } else if s[i] == '{' {
            if !(i + 1 < s.len() && s[i + 1] == '}') {
                lemma_p_members_progress(s, i + 1, (f - 1) as nat);
            }
        }
    }
}

pub proof fn lemma_p_elems_progress(s: Seq<char>, i: int, f: nat)
    ensures
        p_elems(s, i, f) is Some ==> i + 1 <= p_elems(s, i, f).unwrap().1 <= s.len(),
    decreases f,
{
    if f > 0 {
        lemma_p_value_progress(s, i, (f - 1) as nat);
        match p_value(s, i, (f - 1) as nat) {
            None => {},
            Some((v, j)) => {
                if j < s.len() && s[j] == ',' {
                    lemma_p_elems_progress(s, j + 1, (f - 1) as nat);
                }
            },
        }
    }
}

pub proof fn lemma_p_members_progress(s: Seq<char>, i: int, f: nat)
    ensures
        p_members(s, i, f) is Some ==> i + 1 <= p_members(s, i, f).unwrap().1 <= s.len(),
    decreases f,
{
    if f > 0 && 0 <= i < s.len() && s[i] == '"' {
        match p_string(s, i + 1) {
            None => {},
            Some((key, j)) => {
                lemma_p_string_progress(s, i + 1);
                if j < s.len() && s[j] == ':' {
                    lemma_p_value_progress(s, j + 1, (f - 1) as nat);
                    match p_value(s, j + 1, (f - 1) as nat) {
                        None => {},
                        Some((v, k)) => {
                            if k < s.len() && s[k] == ',' {
                                lemma_p_members_progress(s, k + 1, (f - 1) as nat);
                            }
                        },
                    }
                }
            },
        }
    }
}

/// Above the stated bound, the answer does not depend on the fuel.
pub proof fn lemma_p_value_fuel(s: Seq<char>, i: int, f1: nat, f2: nat)
    requires
        f1 >= 2 * (s.len() - i) + 4,
        f2 >= 2 * (s.len() - i) + 4,
    ensures
        p_value(s, i, f1) == p_value(s, i, f2),
    decreases f1 + f2,
{
    if 0 <= i < s.len() {
        if s[i] == '[' && !(i + 1 < s.len() && s[i + 1] == ']') {
            lemma_p_elems_fuel(s, i + 1, (f1 - 1) as nat, (f2 - 1) as nat);
        } else if s[i] == '{' && !(i + 1 < s.len() && s[i + 1] == '}') {
            lemma_p_members_fuel(s, i + 1, (f1 - 1) as nat, (f2 - 1) as nat);
        }
    }
}

pub proof fn lemma_p_elems_fuel(s: Seq<char>, i: int, f1: nat, f2: nat)
    requires
        f1 >= 2 * (s.len() - i) + 5,
        f2 >= 2 * (s.len() - i) + 5,
    ensures
        p_elems(s, i, f1) == p_elems(s, i, f2),
    decreases f1 + f2,
{
    if f1 > 0 && f2 > 0 {
        lemma_p_value_fuel(s, i, (f1 - 1) as nat, (f2 - 1) as nat);
        lemma_p_value_progress(s, i, (f1 - 1) as nat);
        match p_value(s, i, (f1 - 1) as nat) {
            None => {},
            Some((v, j)) => {
                if j < s.len() && s[j] == ',' {
                    lemma_p_elems_fuel(s, j + 1, (f1 - 1) as nat, (f2 - 1) as nat);
                }
            },
        }
    } else {
        // A fuel of zero forces the position past the end of the text, where
        // every parse is refused whatever the fuel.
        assert(i > s.len());
        assert forall|f: nat| f > 0 implies p_elems(s, i, f) is None by {
            assert(p_value(s, i, (f - 1) as nat) is None);
        }
    }
}

pub proof fn lemma_p_members_fuel(s: Seq<char>, i: int, f1: nat, f2: nat)
    requires
        f1 >= 2 * (s.len() - i) + 5,
        f2 >= 2 * (s.len() - i) + 5,
    ensures
        p_members(s, i, f1) == p_members(s, i, f2),
    decreases f1 + f2,
{
    if f1 > 0 && f2 > 0 && 0 <= i < s.len() && s[i] == '"' {
        match p_string(s, i + 1) {
            None => {},
            Some((key, j)) => {
                lemma_p_string_progress(s, i + 1);
                if j < s.len() && s[j] == ':' {
                    lemma_p_value_fuel(s, j + 1, (f1 - 1) as nat, (f2 - 1) as nat);
                    lemma_p_value_progress(s, j + 1, (f1 - 1) as nat);
                    match p_value(s, j + 1, (f1 - 1) as nat) {
                        None => {},
                        Some((v, k)) => {
                            if k < s.len() && s[k] == ',' {
                                lemma_p_members_fuel(s, k + 1, (f1 - 1) as nat, (f2 - 1) as nat);
                            }
                        },
                    }
                }
            },
        }
    }
}

// ---------------------------------------------------------------------------
// Round trip
// ---------------------------------------------------------------------------

/// A serialized value is never empty, and its first character announces
/// its kind.
pub proof fn lemma_ser_json_first(j: JsonV)
    ensures
        ser_json(j).len() >= 1,
        ser_json(j)[0] == '"' || ser_json(j)[0] == '[' || ser_json(j)[0] == '{' || is_digit(
            ser_json(j)[0],
        ),
{
    match j {
        JsonV::UInt(n) => {
            lemma_ser_nat_digits(n as nat);
        },
        JsonV::Str(str) => {
            assert(ser_json(j)[0] == '"');
        },
        JsonV::Arr(elems) => {
            assert(ser_json(j)[0] == '[');
        },
        JsonV::Obj(ms) => {
            assert(ser_json(j)[0] == '{');
        },
    }
}

/// Parsing reads back exactly the value that was written: if the canonical
/// text of `j` stands at `i` and no digit follows it, the parser returns
/// `j` and stops just past that text.
pub proof fn lemma_rt_value(s: Seq<char>, i: int, j: JsonV, f: nat)
    requires
        matches_at(s, i, ser_json(j)),
        i + ser_json(j).len() == s.len() || !is_digit(s[i + ser_json(j).len()]),
        f >= 2 * (s.len() - i) + 4,
    ensures
        p_value(s, i, f) == Some((j, i + ser_json(j).len())),
    decreases j,
{
    match j {
        JsonV::UInt(n) => {
            lemma_ser_nat_digits(n as nat);
            lemma_matches_index(s, i, ser_json(j), 0);
            assert(ser_json(j) == ser_nat(n as nat));
            assert(is_digit(ser_nat(n as nat)[0]));
            assert(is_digit(s[i]));
            lemma_rt_number(s, i, n);
            assert(p_value(s, i, f) == p_number(s, i));
        },
        JsonV::Str(str) => {
            let q = seq!['"'];
            assert((q + escape(str)) + q =~= q + (escape(str) + q));
            lemma_matches_split(s, i, q, escape(str) + q);
            assert(s[i + 0] == q[0]);
            lemma_rt_string(s, i + 1, str);
        },
        JsonV::Arr(elems) => {
            if elems.len() == 0 {
                assert(s[i + 0] == ser_json(j)[0]);
                assert(s[i + 1] == ser_json(j)[1]);
                assert(elems =~= Seq::<JsonV>::empty());
            } else {
                let body = ser_elems(elems);
                assert((seq!['['] + body) + seq![']'] =~= seq!['['] + (body + seq![']']));
                lemma_matches_split(s, i, seq!['['], body + seq![']']);
                assert(s[i + 0] == seq!['['][0]);
                lemma_ser_json_first(elems[0]);
                if elems.len() == 1 {
                    assert(body[0] == ser_json(elems[0])[0]);
                } else {
                    assert(body[0] == ((ser_json(elems[0]) + seq![',']) + ser_elems(
                        elems.drop_first(),
                    ))[0]);
                    assert(body[0] == ser_json(elems[0])[0]);
                }
                assert(s[i + 1] == (body + seq![']'])[0]);
                assert(s[i + 1] != ']');
                lemma_rt_elems(s, i + 1, elems, (f - 1) as nat);
            }
        },
        JsonV::Obj(ms) => {
            if ms.len() == 0 {
                assert(s[i + 0] == ser_json(j)[0]);
                assert(s[i + 1] == ser_json(j)[1]);
                assert(ms =~= Seq::<(Seq<char>, JsonV)>::empty());
            } else {
                let body = ser_members(ms);
                assert((seq!['{'] + body) + seq!['}'] =~= seq!['{'] + (body + seq!['}']));
                lemma_matches_split(s, i, seq!['{'], body + seq!['}']);
                assert(s[i + 0] == seq!['{'][0]);
                lemma_ser_members_first(ms);
                assert(s[i + 1] == (body + seq!['}'])[0]);
                assert(s[i + 1] != '}');
                lemma_rt_members(s, i + 1, ms, (f - 1) as nat);
            }
        },
    }
}

/// The members of a non-empty object open with a quoted key.
proof fn lemma_ser_members_first(ms: Seq<(Seq<char>, JsonV)>)
    requires
        ms.len() >= 1,
    ensures
        ser_members(ms).len() >= 1,
        ser_members(ms)[0] == '"',
{
    if ms.len() == 1 {
        assert(ser_members(ms)[0] == (((seq!['"'] + escape(ms[0].0)) + seq!['"', ':']) + ser_json(
            ms[0].1,
        ))[0]);
    } else {
        assert(ser_members(ms)[0] == ((((seq!['"'] + escape(ms[0].0)) + seq!['"', ':']) + ser_json(
            ms[0].1,
        ) + seq![',']) + ser_members(ms.drop_first()))[0]);
    }
}

/// Round trip for the elements of a non-empty array, closing bracket
/// included.
proof fn lemma_rt_elems(s: Seq<char>, i: int, elems: Seq<JsonV>, f: nat)
    requires
        elems.len() >= 1,
        matches_at(s, i, ser_elems(elems) + seq![']']),
        f >= 2 * (s.len() - i) + 5,
    ensures
        p_elems(s, i, f) == Some((elems, i + ser_elems(elems).len() + 1)),
    decreases elems,
{
    let a = ser_json(elems[0]);
    lemma_ser_json_first(elems[0]);
    if elems.len() == 1 {
        lemma_matches_split(s, i, a, seq![']']);
        let j = i + a.len();
        lemma_matches_index(s, j, seq![']'], 0);
        assert(s[j + 0] == seq![']'][0]);
        lemma_rt_value(s, i, elems[0], (f - 1) as nat);
        assert(seq![elems[0]] =~= elems);
    } else {
        let b = ser_elems(elems.drop_first());
        assert(((a + seq![',']) + b) + seq![']'] =~= a + (seq![','] + (b + seq![']'])));
        lemma_matches_split(s, i, a, seq![','] + (b + seq![']']));
        let j = i + a.len();
        lemma_matches_split(s, j, seq![','], b + seq![']']);
        lemma_matches_index(s, j, seq![','], 0);
        assert(s[j + 0] == seq![','][0]);
        lemma_rt_value(s, i, elems[0], (f - 1) as nat);
        lemma_rt_elems(s, j + 1, elems.drop_first(), (f - 1) as nat);
        assert(seq![elems[0]] + elems.drop_first() =~= elems);
    }
}

/// Round trip for the members of a non-empty object, closing brace
/// included.
proof fn lemma_rt_members(s: Seq<char>, i: int, ms: Seq<(Seq<char>, JsonV)>, f: nat)
    requires
        ms.len() >= 1,
        matches_at(s, i, ser_members(ms) + seq!['}']),
        f >= 2 * (s.len() - i) + 5,
    ensures
        p_members(s, i, f) == Some((ms, i + ser_members(ms).len() + 1)),
    decreases ms,
{
    let key = ms[0].0;
    let v = ms[0].1;
    let q = seq!['"'];
    let serv = ser_json(v);
    lemma_ser_json_first(v);
    if ms.len() == 1 {
        let whole = ((q + escape(key)) + seq!['"', ':']) + serv;
        assert(whole + seq!['}'] =~= q + ((escape(key) + q) + (seq![':'] + (serv + seq!['}']))));
        lemma_matches_split(s, i, q, (escape(key) + q) + (seq![':'] + (serv + seq!['}'])));
        lemma_matches_index(s, i, q, 0);
        assert(s[i + 0] == q[0]);
        lemma_matches_split(s, i + 1, escape(key) + q, seq![':'] + (serv + seq!['}']));
        lemma_rt_string(s, i + 1, key);
        let j = i + 1 + escape(key).len() + 1;
        lemma_matches_split(s, j, seq![':'], serv + seq!['}']);
        lemma_matches_index(s, j, seq![':'], 0);
        assert(s[j + 0] == seq![':'][0]);
        lemma_matches_split(s, j + 1, serv, seq!['}']);
        let k = j + 1 + serv.len();
        lemma_matches_index(s, k, seq!['}'], 0);
        assert(s[k + 0] == seq!['}'][0]);
        lemma_rt_value(s, j + 1, v, (f - 1) as nat);
        assert(seq![(key, v)] =~= ms);
    } else {
        let rest = ser_members(ms.drop_first());
        let whole = (((q + escape(key)) + seq!['"', ':']) + serv + seq![',']) + rest;
        assert(whole + seq!['}'] =~= q + ((escape(key) + q) + (seq![':'] + (serv + (seq![',']
            + (rest + seq!['}']))))));
        lemma_matches_split(s, i, q, (escape(key) + q) + (seq![':'] + (serv + (seq![','] + (rest
            + seq!['}'])))));
        lemma_matches_index(s, i, q, 0);
        assert(s[i + 0] == q[0]);
        lemma_matches_split(s, i + 1, escape(key) + q, seq![':'] + (serv + (seq![','] + (rest
            + seq!['}']))));
        lemma_rt_string(s, i + 1, key);
        let j = i + 1 + escape(key).len() + 1;
        lemma_matches_split(s, j, seq![':'], serv + (seq![','] + (rest + seq!['}'])));
        lemma_matches_index(s, j, seq![':'], 0);
        assert(s[j + 0] == seq![':'][0]);
        lemma_matches_split(s, j + 1, serv, seq![','] + (rest + seq!['}']));
        let k = j + 1 + serv.len();
        lemma_matches_split(s, k, seq![','], rest + seq!['}']);
        lemma_matches_index(s, k, seq![','], 0);
        assert(s[k + 0] == seq![','][0]);
        lemma_rt_value(s, j + 1, v, (f - 1) as nat);
        lemma_rt_members(s, k + 1, ms.drop_first(), (f - 1) as nat);
        assert(seq![(key, v)] + ms.drop_first() =~= ms);
    }
}

// ---------------------------------------------------------------------------
// Whole-text parsing
// ---------------------------------------------------------------------------

/// Fuel that always suffices for a text of this length.
pub open spec fn fuel_for(s: Seq<char>, i: int) -> nat {
    (2 * (s.len() - i) + 5) as nat
}

/// Parse a whole text as one value: the parse must consume every character.
pub open spec fn parse_json_text(s: Seq<char>) -> Option<JsonV> {
    match p_value(s, 0, fuel_for(s, 0)) {
        Some((j, n)) => if n == s.len() {
            Some(j)
        } else {
            None
        },
        None => None,
    }
}

/// The canonical text of any value parses back to exactly that value.
pub proof fn lemma_rt_json(j: JsonV)
    ensures
        parse_json_text(ser_json(j)) == Some(j),
{
    let s = ser_json(j);
    lemma_ser_json_first(j);
    assert(matches_at(s, 0, s));
    lemma_rt_value(s, 0, j, fuel_for(s, 0));
}

// ---------------------------------------------------------------------------
// Executable serializer
// ---------------------------------------------------------------------------

impl Json {
    /// Append the canonical text of this value to `out`.
    pub fn write(&self, out: &mut Vec<char>)
        ensures
            final(out)@ == old(out)@ + ser_json(self@),
        decreases *self, 0int,
    {
        match self {
            Json::UInt(n) => {
                write_nat(*n, out);
            },
            Json::Str(s) => {
                out.push('"');
                write_escaped(s, out);
                out.push('"');
                proof {
                    assert(out@ =~= old(out)@ + ((seq!['"'] + escape(s@)) + seq!['"']));
                }
            },
            Json::Arr(elems) => {
                out.push('[');
                if elems.len() == 0 {
                    out.push(']');
                    proof {
                        assert(elems_view(elems@) =~= Seq::<JsonV>::empty());
                        assert(out@ =~= old(out)@ + ser_json(self@));
                    }
                } else {
                    write_elems(elems, 0, out);
                    out.push(']');
                    proof {
                        assert(elems@.skip(0) =~= elems@);
                        assert(out@ =~= old(out)@ + ((seq!['['] + ser_elems(elems_view(elems@)))
                            + seq![']']));
                    }
                }
            },
            Json::Obj(ms) => {
                out.push('{');
                if ms.len() == 0 {
                    out.push('}');
                    proof {
                        assert(members_view(ms@) =~= Seq::<(Seq<char>, JsonV)>::empty());
                        assert(out@ =~= old(out)@ + ser_json(self@));
                    }
                } else {
                    write_members(ms, 0, out);
                    out.push('}');
                    proof {
                        assert(ms@.skip(0) =~= ms@);
                        assert(out@ =~= old(out)@ + ((seq!['{'] + ser_members(members_view(ms@)))
                            + seq!['}']));
                    }
                }
            },
        }
    }
}

/// The models of the elements from position `k` on.
pub open spec fn elems_view_from(elems: Seq<Json>, k: int) -> Seq<JsonV> {
    elems_view(elems.skip(k))
}

/// Stepping `elems_view` one element forward.
pub proof fn lemma_elems_view_step(elems: Seq<Json>, k: int)
    requires
        0 <= k < elems.len(),
    ensures
        elems_view(elems.skip(k)).len() == elems.len() - k,
        elems_view(elems.skip(k)) == seq![json_view(elems[k])] + elems_view(elems.skip(k + 1)),
    decreases elems.len() - k,
{
    let sk = elems.skip(k);
    assert(sk[0] == elems[k]);
    assert(sk.drop_first() =~= elems.skip(k + 1));
    if k + 1 < elems.len() {
        lemma_elems_view_step(elems, k + 1);
    } else {
        assert(elems_view(elems.skip(k + 1)) =~= Seq::<JsonV>::empty());
    }
}

/// Write the elements from `k` on, comma-separated.
fn write_elems(elems: &Vec<Json>, k: usize, out: &mut Vec<char>)
    requires
        k < elems.len(),
    ensures
        final(out)@ == old(out)@ + ser_elems(elems_view(elems@.skip(k as int))),
    decreases *elems, elems.len() - k,
{
    proof {
        lemma_elems_view_step(elems@, k as int);
    }
    elems[k].write(out);
    if k + 1 < elems.len() {
        out.push(',');
        write_elems(elems, k + 1, out);
        proof {
            let vs = elems_view(elems@.skip(k as int));
            assert(vs[0] == json_view(elems@[k as int]));
            assert(vs.drop_first() =~= elems_view(elems@.skip(k as int + 1)));
            assert(out@ =~= old(out)@ + ((ser_json(vs[0]) + seq![',']) + ser_elems(
                vs.drop_first(),
            )));
        }
    } else {
        proof {
            let vs = elems_view(elems@.skip(k as int));
            assert(vs.len() == 1);
            assert(out@ =~= old(out)@ + ser_elems(vs));
        }
    }
}

/// The models of the members from position `k` on.
pub proof fn lemma_members_view_step(ms: Seq<(Vec<char>, Json)>, k: int)
    requires
        0 <= k < ms.len(),
    ensures
        members_view(ms.skip(k)).len() == ms.len() - k,
        members_view(ms.skip(k)) == seq![(ms[k].0@, json_view(ms[k].1))] + members_view(
            ms.skip(k + 1),
        ),
    decreases ms.len() - k,
{
    let sk = ms.skip(k);
    assert(sk[0] == ms[k]);
    assert(sk.drop_first() =~= ms.skip(k + 1));
    if k + 1 < ms.len() {
        lemma_members_view_step(ms, k + 1);
    } else {
        assert(members_view(ms.skip(k + 1)) =~= Seq::<(Seq<char>, JsonV)>::empty());
    }
}

/// Write the members from `k` on, comma-separated `"key":value` pairs.
fn write_members(ms: &Vec<(Vec<char>, Json)>, k: usize, out: &mut Vec<char>)
    requires
        k < ms.len(),
    ensures
        final(out)@ == old(out)@ + ser_members(members_view(ms@.skip(k as int))),
    decreases *ms, ms.len() - k,
{
    proof {
        lemma_members_view_step(ms@, k as int);
    }
    out.push('"');
    write_escaped(&ms[k].0, out);
    out.push('"');
    out.push(':');
    ms[k].1.write(out);
    if k + 1 < ms.len() {
        out.push(',');
        write_members(ms, k + 1, out);
        proof {
            let vs = members_view(ms@.skip(k as int));
            assert(vs[0] == (ms@[k as int].0@, json_view(ms@[k as int].1)));
            assert(vs.drop_first() =~= members_view(ms@.skip(k as int + 1)));
            assert(out@ =~= old(out)@ + (((((seq!['"'] + escape(vs[0].0)) + seq!['"', ':'])
                + ser_json(vs[0].1)) + seq![',']) + ser_members(vs.drop_first())));
        }
    } else {
        proof {
            let vs = members_view(ms@.skip(k as int));
            assert(vs.len() == 1);
            assert(out@ =~= old(out)@ + (((seq!['"'] + escape(vs[0].0)) + seq!['"', ':'])
                + ser_json(vs[0].1)));
            assert(out@ =~= old(out)@ + ser_members(vs));
        }
    }
}

/// Write the decimal digits of `n`.
fn write_nat(n: u64, out: &mut Vec<char>)
    ensures
        final(out)@ == old(out)@ + ser_nat(n as nat),
    decreases n,
{
    if n < 10 {
        out.push(((48 + n) as u8) as char);
        proof {
            assert(out@ =~= old(out)@ + seq![digit_char(n as nat)]);
        }
    } else {
        write_nat(n / 10, out);
        out.push(((48 + (n % 10)) as u8) as char);
        proof {
            assert(out@ =~= old(out)@ + (ser_nat((n / 10) as nat) + seq![digit_char(
                (n % 10) as nat,
            )]));
        }
    }
}

/// Write the escaped form of the characters of `s`.
fn write_escaped(s: &Vec<char>, out: &mut Vec<char>)
    ensures
        final(out)@ == old(out)@ + escape(s@),
{
    let ghost out0 = out@;
    let mut t: usize = 0;
    while t < s.len()
        invariant
            t <= s.len(),
            out@ == out0 + escape(s@.take(t as int)),
        decreases s.len() - t,
    {
        proof {
            lemma_escape_snoc(s@, t as int);
        }
        let c = s[t];
        let code = c as u32;
        if c == '"' {
            out.push('\\');
            out.push('"');
        } else if c == '\\' {
            out.push('\\');
            out.push('\\');
        } else if code < 32 {
            out.push('\\');
            out.push('u');
            out.push('0');
            out.push('0');
            out.push(hex_digit((code / 16) as u8));
            out.push(hex_digit((code % 16) as u8));
        } else {
            out.push(c);
        }
        proof {
            assert(out@ =~= out0 + (escape(s@.take(t as int)) + esc_char(s@[t as int])));
        }
        t = t + 1;
    }
    proof {
        assert(s@.take(s@.len() as int) =~= s@);
    }
}

/// Escaping one more character appends its escape.
proof fn lemma_escape_snoc(s: Seq<char>, t: int)
    requires
        0 <= t < s.len(),
    ensures
        escape(s.take(t + 1)) == escape(s.take(t)) + esc_char(s[t]),
    decreases t,
{
    let a = s.take(t + 1);
    let b = s.take(t);
    if t == 0 {
        assert(a.drop_first() =~= Seq::<char>::empty());
        assert(escape(a) == esc_char(a[0]) + escape(a.drop_first()));
        assert(escape(b) =~= Seq::<char>::empty());
        assert(escape(b) + esc_char(s[0]) =~= esc_char(s[0]));
        assert(esc_char(a[0]) + escape(a.drop_first()) =~= esc_char(s[0]));
    } else {
        assert(a.drop_first() =~= s.drop_first().take(t));
        assert(b.drop_first() =~= s.drop_first().take(t - 1));
        lemma_escape_snoc(s.drop_first(), t - 1);
        assert(escape(a) == esc_char(a[0]) + escape(s.drop_first().take(t)));
        assert(escape(s.drop_first().take(t)) == escape(s.drop_first().take(t - 1)) + esc_char(
            s.drop_first()[t - 1],
        ));
        assert(s.drop_first()[t - 1] == s[t]);
        assert(a[0] == s[0] && b[0] == s[0]);
        assert(escape(b) == esc_char(s[0]) + escape(s.drop_first().take(t - 1)));
        assert(escape(a) =~= (esc_char(s[0]) + escape(s.drop_first().take(t - 1))) + esc_char(
            s[t],
        ));
    }
}

/// The lower-case hexadecimal digit character for a value below sixteen.
fn hex_digit(d: u8) -> (c: char)
    requires
        d < 16,
    ensures
        c == hex_char(d as nat),
{
    if d < 10 {
        (48 + d) as char
    } else {
        (87 + d) as char
    }
}

// ---------------------------------------------------------------------------
// Executable parser
// ---------------------------------------------------------------------------

/// Fuel that settles a value parse at position `i`.
pub open spec fn fuel_v(s: Seq<char>, i: int) -> nat {
    (2 * (s.len() - i) + 4) as nat
}

/// Fuel that settles an element or member parse at position `i`.
pub open spec fn fuel_em(s: Seq<char>, i: int) -> nat {
    (2 * (s.len() - i) + 5) as nat
}

/// The model of an executable value-parse result.
pub open spec fn view_value(r: Option<(Json, usize)>) -> Option<(JsonV, int)> {
    match r {
        Some((j, n)) => Some((json_view(j), n as int)),
        None => None,
    }
}

/// The model of an executable string-parse result.
pub open spec fn view_chars(r: Option<(Vec<char>, usize)>) -> Option<(Seq<char>, int)> {
    match r {
        Some((cs, n)) => Some((cs@, n as int)),
        None => None,
    }
}

/// The model of an executable element-list parse result.
pub open spec fn view_elems(r: Option<(Vec<Json>, usize)>) -> Option<(Seq<JsonV>, int)> {
    match r {
        Some((es, n)) => Some((elems_view(es@), n as int)),
        None => None,
    }
}

/// The model of an executable member-list parse result.
pub open spec fn view_members(r: Option<(Vec<(Vec<char>, Json)>, usize)>) -> Option<
    (Seq<(Seq<char>, JsonV)>, int),
> {
    match r {
        Some((ms, n)) => Some((members_view(ms@), n as int)),
        None => None,
    }
}

/// The numeric value of a lower-case hexadecimal digit character.
fn hex_value(c: char) -> (d: u8)
    requires
        is_hex(c),
    ensures
        d as nat == hex_val(c),
{
    let code = c as u32;
    if code <= 57 {
        (code - 48) as u8
    } else {
        (code - 87) as u8
    }
}

/// Parse the body of a string, `i` standing just after the opening quote.
fn parse_string(s: &Vec<char>, i: usize) -> (r: Option<(Vec<char>, usize)>)
    ensures
        view_chars(r) == p_string(s@, i as int),
    decreases s@.len() - i,
{
    if i >= s.len() {
        return None;
    }
    let c = s[i];
    if c == '"' {
        let content: Vec<char> = Vec::new();
        proof {
            assert(content@ =~= Seq::<char>::empty());
        }
        Some((content, i + 1))
    } else if c == '\\' {
        if s.len() - i >= 2 && (s[i + 1] == '"' || s[i + 1] == '\\') {
            match parse_string(s, i + 2) {
                Some((mut rest, j)) => {
                    rest.insert(0, s[i + 1]);
                    proof {
                        assert(rest@ =~= seq![s@[i + 1]] + rest@.drop_first());
                    }
                    Some((rest, j))
                },
                None => None,
            }
        } else if s.len() - i >= 6 && s[i + 1] == 'u' && s[i + 2] == '0' && s[i + 3] == '0' && {
            let c4 = s[i + 4] as u32;
            let c5 = s[i + 5] as u32;
            (48 <= c4 && c4 <= 57 || 97 <= c4 && c4 <= 102) && (48 <= c5 && c5 <= 57 || 97 <= c5
                && c5 <= 102)
        } {
            let hi = hex_value(s[i + 4]);
            let lo = hex_value(s[i + 5]);
            let code: u32 = hi as u32 * 16 + lo as u32;
            if code < 32 {
                match parse_string(s, i + 6) {
                    Some((mut rest, j)) => {
                        rest.insert(0, (code as u8) as char);
                        proof {
                            assert(rest@ =~= seq![((hex_val(s@[i + 4]) * 16 + hex_val(s@[i + 5]))
                                as u32) as char] + rest@.drop_first());
                        }
                        Some((rest, j))
                    },
                    None => None,
                }
            } else {
                None
            }
        } else {
            None
        }
    } else {
        match parse_string(s, i + 1) {
            Some((mut rest, j)) => {
                rest.insert(0, c);
                proof {
                    assert(rest@ =~= seq![s@[i as int]] + rest@.drop_first());
                }
                Some((rest, j))
            },
            None => None,
        }
    }
}

/// The value of a decimal digit run never shrinks as it extends.
proof fn lemma_dec_val_grows(s: Seq<char>, i: int, j: int, e: int)
    requires
        i <= j <= e,
    ensures
        dec_val(s, i, j) <= dec_val(s, i, e),
    decreases e - j,
{
    if j < e {
        lemma_dec_val_grows(s, i, j, e - 1);
        assert(dec_val(s, i, e) == dec_val(s, i, e - 1) * 10 + digit_val(s[e - 1]));
        assert(dec_val(s, i, e - 1) * 10 >= dec_val(s, i, e - 1));
    }
}

/// Parse the maximal digit run standing at `i`.
fn parse_number(s: &Vec<char>, i: usize) -> (r: Option<(Json, usize)>)
    requires
        i <= s@.len(),
    ensures
        view_value(r) == p_number(s@, i as int),
{
    let mut j = i;
    let mut acc: u64 = 0;
    let mut over = false;
    loop
        invariant
            i <= j <= s@.len(),
            digits_end(s@, i as int) == digits_end(s@, j as int),
            !over ==> acc as nat == dec_val(s@, i as int, j as int),
            over ==> dec_val(s@, i as int, j as int) > u64::MAX,
        ensures
            i <= j <= s@.len(),
            digits_end(s@, i as int) == j as int,
            !over ==> acc as nat == dec_val(s@, i as int, j as int),
            over ==> dec_val(s@, i as int, j as int) > u64::MAX,
        decreases s@.len() - j,
    {
        if j >= s.len() {
            proof {
                assert(digits_end(s@, j as int) == j as int);
            }
            break;
        }
        let code = s[j] as u32;
        if !(48 <= code && code <= 57) {
            proof {
                assert(!is_digit(s@[j as int]));
                assert(digits_end(s@, j as int) == j as int);
            }
            break;
        }
        let d = (code - 48) as u64;
        proof {
            assert(digits_end(s@, j as int) == digits_end(s@, j as int + 1));
            assert(dec_val(s@, i as int, j as int + 1) == dec_val(s@, i as int, j as int) * 10
                + digit_val(s@[j as int]));
        }
        if over {
            proof {
                lemma_dec_val_grows(s@, i as int, j as int, j as int + 1);
            }
        } else if acc > (u64::MAX - d) / 10 {
            over = true;
            proof {
                assert(dec_val(s@, i as int, j as int + 1) > u64::MAX);
            }
        } else {
            acc = acc * 10 + d;
        }
        j = j + 1;
    }
    if j == i {
        None
    } else if over {
        None
    } else {
        Some((Json::UInt(acc), j))
    }
}

/// Parse one value standing at `i`.
fn parse_value(s: &Vec<char>, i: usize) -> (r: Option<(Json, usize)>)
    requires
        i <= s@.len(),
    ensures
        view_value(r) == p_value(s@, i as int, fuel_v(s@, i as int)),
    decreases s@.len() - i, 0int,
{
    if i >= s.len() {
        return None;
    }
    let c = s[i];
    if c == '"' {
        match parse_string(s, i + 1) {
            Some((content, j)) => Some((Json::Str(content), j)),
            None => None,
        }
    } else {
        let code = c as u32;
        if 48 <= code && code <= 57 {
            parse_number(s, i)
        } else if c == '[' {
            if i + 1 < s.len() && s[i + 1] == ']' {
                let elems: Vec<Json> = Vec::new();
                proof {
                    assert(elems_view(elems@) =~= Seq::<JsonV>::empty());
                }
                Some((Json::Arr(elems), i + 2))
            } else {
                proof {
                    lemma_p_elems_fuel(
                        s@,
                        i as int + 1,
                        fuel_em(s@, i as int + 1),
                        (fuel_v(s@, i as int) - 1) as nat,
                    );
                }
                match parse_elems(s, i + 1) {
                    Some((elems, j)) => Some((Json::Arr(elems), j)),
                    None => None,
                }
            }
        } else if c == '{' {
            if i + 1 < s.len() && s[i + 1] == '}' {
                let ms: Vec<(Vec<char>, Json)> = Vec::new();
                proof {
                    assert(members_view(ms@) =~= Seq::<(Seq<char>, JsonV)>::empty());
                }
                Some((Json::Obj(ms), i + 2))
            } else {
                proof {
                    lemma_p_members_fuel(
                        s@,
                        i as int + 1,
                        fuel_em(s@, i as int + 1),
                        (fuel_v(s@, i as int) - 1) as nat,
                    );
                }
                match parse_members(s, i + 1) {
                    Some((ms, j)) => Some((Json::Obj(ms), j)),
                    None => None,
                }
            }
        } else {
            None
        }
    }
}

/// Parse the elements of a non-empty array, closing bracket included.
fn parse_elems(s: &Vec<char>, i: usize) -> (r: Option<(Vec<Json>, usize)>)
    requires
        i <= s@.len(),
    ensures
        view_elems(r) == p_elems(s@, i as int, fuel_em(s@, i as int)),
    decreases s@.len() - i, 1int,
{
    proof {
        lemma_p_value_fuel(
            s@,
            i as int,
            fuel_v(s@, i as int),
            (fuel_em(s@, i as int) - 1) as nat,
        );
    }
    match parse_value(s, i) {
        None => None,
        Some((v, j)) => {
            proof {
                lemma_p_value_progress(s@, i as int, fuel_v(s@, i as int));
            }
            if j < s.len() && s[j] == ',' {
                proof {
                    lemma_p_elems_fuel(
                        s@,
                        j as int + 1,
                        fuel_em(s@, j as int + 1),
                        (fuel_em(s@, i as int) - 1) as nat,
                    );
                }
                match parse_elems(s, j + 1) {
                    Some((mut rest, k)) => {
                        let ghost old_rest = rest@;
                        let ghost vg = v;
                        rest.insert(0, v);
                        proof {
                            assert(rest@ =~= seq![vg] + old_rest);
                            lemma_elems_view_cons(vg, old_rest);
                        }
                        Some((rest, k))
                    },
                    None => None,
                }
            } else if j < s.len() && s[j] == ']' {
                let ghost vg = v;
                let mut one: Vec<Json> = Vec::new();
                one.push(v);
                proof {
                    assert(one@ =~= seq![vg] + Seq::<Json>::empty());
                    lemma_elems_view_cons(vg, Seq::<Json>::empty());
                    assert(elems_view(Seq::<Json>::empty()) =~= Seq::<JsonV>::empty());
                    assert(elems_view(one@) =~= seq![json_view(vg)]);
                }
                Some((one, j + 1))
            } else {
                None
            }
        },
    }
}

/// Parse the members of a non-empty object, closing brace included.
fn parse_members(s: &Vec<char>, i: usize) -> (r: Option<(Vec<(Vec<char>, Json)>, usize)>)
    requires
        i <= s@.len(),
    ensures
        view_members(r) == p_members(s@, i as int, fuel_em(s@, i as int)),
    decreases s@.len() - i, 1int,
{
    if i < s.len() && s[i] == '"' {
        match parse_string(s, i + 1) {
            None => None,
            Some((key, j)) => {
                proof {
                    lemma_p_string_progress(s@, i as int + 1);
                }
                if j < s.len() && s[j] == ':' {
                    proof {
                        lemma_p_value_fuel(
                            s@,
                            j as int + 1,
                            fuel_v(s@, j as int + 1),
                            (fuel_em(s@, i as int) - 1) as nat,
                        );
                    }
                    match parse_value(s, j + 1) {
                        None => None,
                        Some((v, k)) => {
                            proof {
                                lemma_p_value_progress(s@, j as int + 1, fuel_v(s@, j as int + 1));
                            }
                            if k < s.len() && s[k] == ',' {
                                proof {
                                    lemma_p_members_fuel(
                                        s@,
                                        k as int + 1,
                                        fuel_em(s@, k as int + 1),
                                        (fuel_em(s@, i as int) - 1) as nat,
                                    );
                                }
                                match parse_members(s, k + 1) {
                                    Some((mut rest, l)) => {
                                        let ghost kvg = (key@, json_view(v));
                                        let ghost old_rest = rest@;
                                        let ghost kv0 = (key, v);
                                        rest.insert(0, (key, v));
                                        proof {
                                            assert(rest@ =~= seq![kv0] + old_rest);
                                            lemma_members_view_cons(kv0, old_rest);
                                        }
                                        Some((rest, l))
                                    },
                                    None => None,
                                }
                            } else if k < s.len() && s[k] == '}' {
                                let ghost kv0 = (key, v);
                                let mut one: Vec<(Vec<char>, Json)> = Vec::new();
                                one.push((key, v));
                                proof {
                                    assert(one@ =~= seq![kv0] + Seq::<(Vec<char>, Json)>::empty());
                                    lemma_members_view_cons(kv0, Seq::<(Vec<char>, Json)>::empty());
                                    assert(members_view(Seq::<(Vec<char>, Json)>::empty())
                                        =~= Seq::<(Seq<char>, JsonV)>::empty());
                                    assert(members_view(one@) =~= seq![(kv0.0@, json_view(kv0.1))]);
                                }
                                Some((one, k + 1))
                            } else {
                                None
                            }
                        },
                    }
                } else {
                    None
                }
            },
        }
    } else {
        None
    }
}

impl Json {
    /// The canonical text of this value.
    pub fn to_text(&self) -> (out: Vec<char>)
        ensures
            out@ == ser_json(self@),
    {
        let mut out: Vec<char> = Vec::new();
        self.write(&mut out);
        proof {
            assert(out@ =~= ser_json(json_view(*self)));
        }
        out
    }

    /// Parse a whole text as one value; every character must be consumed.
    pub fn parse_text(s: &Vec<char>) -> (r: Option<Json>)
        ensures
            match r {
                Some(j) => parse_json_text(s@) == Some(json_view(j)),
                None => parse_json_text(s@) is None,
            },
    {
        proof {
            lemma_p_value_fuel(s@, 0, fuel_v(s@, 0), fuel_for(s@, 0));
        }
        match parse_value(s, 0) {
            Some((j, n)) => {
                if n == s.len() {
                    Some(j)
                } else {
                    None
                }
            },
            None => None,
        }
    }
}

/// `members_view` read at each index.
pub proof fn lemma_members_view_all(ms: Seq<(Vec<char>, Json)>)
    ensures
        members_view(ms).len() == ms.len(),
        forall|i: int|
            0 <= i < ms.len() ==> members_view(ms)[i] == (ms[i].0@, json_view(ms[i].1)),
    decreases ms,
{
    if ms.len() > 0 {
        lemma_members_view_all(ms.drop_first());
        assert forall|i: int|
            0 <= i < ms.len() implies members_view(ms)[i] == (ms[i].0@, json_view(ms[i].1)) by {
            if i > 0 {
                assert(members_view(ms)[i] == members_view(ms.drop_first())[i - 1]);
                assert(ms.drop_first()[i - 1] == ms[i]);
            }
        }
    }
}

/// `elems_view` read at each index.
pub proof fn lemma_elems_view_all(es: Seq<Json>)
    ensures
        elems_view(es).len() == es.len(),
        forall|i: int| 0 <= i < es.len() ==> elems_view(es)[i] == json_view(es[i]),
    decreases es,
{
    if es.len() > 0 {
        lemma_elems_view_all(es.drop_first());
        assert forall|i: int| 0 <= i < es.len() implies elems_view(es)[i] == json_view(es[i]) by {
            if i > 0 {
                assert(elems_view(es)[i] == elems_view(es.drop_first())[i - 1]);
                assert(es.drop_first()[i - 1] == es[i]);
            }
        }
    }
}

} // verus!
