//! Pure conversions from command-line style options to the style type.
//!
//! The renderer's companion tools describe styles with flat textual
//! options. Everything here is plain text-to-value conversion: the option
//! plumbing itself lives outside the library.

use vstd::prelude::*;

use crate::style::AlignItems;
use crate::style::AlignSelf;
use crate::style::DimRect;
use crate::style::DimSize;
use crate::style::Dimension;
use crate::style::FlexDirection;
use crate::style::JustifyContent;
use crate::style::Style;
use crate::style::empty_style;

verus! {

/// An option value that does not parse.
#[derive(Clone, Copy, Debug, PartialEq, Eq, Structural)]
pub struct OptParseError;

/// A decimal digit.
pub open spec fn dec_digit(c: char) -> bool {
    48 <= c as u32 <= 57
}

/// A hexadecimal digit, either case.
pub open spec fn hex_digit_any(c: char) -> bool {
    48 <= c as u32 <= 57 || 97 <= c as u32 <= 102 || 65 <= c as u32 <= 70
}

/// The value of a hexadecimal digit, either case.
pub open spec fn hex_digit_val(c: char) -> nat {
    if 48 <= c as u32 <= 57 {
        (c as u32 - 48) as nat
    } else if 97 <= c as u32 <= 102 {
        (c as u32 - 87) as nat
    } else {
        (c as u32 - 55) as nat
    }
}

/// The text with every leading `0x` stripped.
pub open spec fn strip_hex_prefix(s: Seq<char>) -> Seq<char>
    decreases s.len(),
{
    if s.len() >= 2 && s[0] == '0' && s[1] == 'x' {
        strip_hex_prefix(s.skip(2))
    } else {
        s
    }
}

/// The value of a run of hexadecimal digits.
pub open spec fn hex_value_of(s: Seq<char>) -> nat
    decreases s.len(),
{
    if s.len() == 0 {
        0
    } else {
        hex_value_of(s.take(s.len() - 1)) * 16 + hex_digit_val(s[s.len() - 1])
    }
}

/// The value of a run of decimal digits.
pub open spec fn dec_value_of(s: Seq<char>) -> nat
    decreases s.len(),
{
    if s.len() == 0 {
        0
    } else {
        dec_value_of(s.take(s.len() - 1)) * 10 + (s[s.len() - 1] as u32 - 48) as nat
    }
}

/// The digits of a hexadecimal option: every leading `0x` stripped, then
/// an optional plus sign dropped.
pub open spec fn spec_hex_body(s: Seq<char>) -> Seq<char> {
    let t = strip_hex_prefix(s);
    if t.len() >= 1 && t[0] == '+' {
        t.drop_first()
    } else {
        t
    }
}

/// What a hexadecimal color option means: every leading `0x` is stripped,
/// an optional leading plus sign is allowed, and what remains must be a
/// non-empty run of hexadecimal digits whose value fits 32 bits.
pub open spec fn spec_parse_hex(s: Seq<char>) -> Option<u32> {
    let body = spec_hex_body(s);
    if body.len() == 0 {
        None
    } else if !(forall|i: int| 0 <= i < body.len() ==> hex_digit_any(body[i])) {
        None
    } else if hex_value_of(body) > u32::MAX {
        None
    } else {
        Some(hex_value_of(body) as u32)
    }
}

/// Parse a color given in hexadecimal, `0xRRGGBBAA` or bare digits.
pub fn parse_hex(input: &str) -> (r: Result<u32, OptParseError>)
    ensures
        match r {
            Ok(v) => spec_parse_hex(input@) == Some(v),
            Err(_) => spec_parse_hex(input@) is None,
        },
{
    let cs = crate::codec::chars_of(input);
    let n = cs.len();
    proof {
        assert(cs@.skip(0) =~= cs@);
    }
    let mut i: usize = 0;
    while n - i >= 2 && cs[i] == '0' && cs[i + 1] == 'x'
        invariant
            i <= n,
            n == cs@.len(),
            cs@ == input@,
            strip_hex_prefix(input@) == strip_hex_prefix(cs@.skip(i as int)),
        decreases n - i,
    {
        proof {
            assert(cs@.skip(i as int)[0] == '0');
            assert(cs@.skip(i as int)[1] == 'x');
            assert(cs@.skip(i as int).skip(2) =~= cs@.skip(i as int + 2));
        }
        i = i + 2;
    }
    proof {
        let tt = cs@.skip(i as int);
        if tt.len() >= 2 && tt[0] == '0' && tt[1] == 'x' {
            assert(cs@[i as int] == tt[0]);
            assert(cs@[i as int + 1] == tt[1]);
            assert(n - i >= 2 && cs@[i as int] == '0' && cs@[i as int + 1] == 'x');
        }
        assert(strip_hex_prefix(cs@.skip(i as int)) == cs@.skip(i as int));
    }
    let ghost t = cs@.skip(i as int);
    let start = if i < n && cs[i] == '+' {
        proof {
            assert(t[0] == cs@[i as int]);
            assert(t.drop_first() =~= cs@.skip(i as int + 1));
        }
        i + 1
    } else {
        proof {
            if t.len() >= 1 {
                assert(t[0] == cs@[i as int]);
            }
        }
        i
    };
    let ghost body = cs@.skip(start as int);
    if start == n {
        proof {
            assert(body.len() == 0);
        }
        return Err(OptParseError);
    }
    proof {
        assert(body == spec_hex_body(input@));
    }
    let mut j = start;
    let mut acc: u64 = 0;
    let mut over = false;
    while j < n
        invariant
            start <= j <= n,
            n == cs@.len(),
            body == cs@.skip(start as int),
            body == spec_hex_body(input@),
            body.len() >= 1,
            forall|k: int| 0 <= k < j - start ==> hex_digit_any(body[k]),
            !over ==> acc as nat == hex_value_of(body.take(j - start)),
            over ==> hex_value_of(body.take(j - start)) > u32::MAX,
            acc <= u32::MAX as u64,
        decreases n - j,
    {
        let code = cs[j] as u32;
        let d: u32 = if 48 <= code && code <= 57 {
            code - 48
        } else if 97 <= code && code <= 102 {
            code - 87
        } else if 65 <= code && code <= 70 {
            code - 55
        } else {
            proof {
                assert(body[j - start] == cs@[j as int]);
                assert(!hex_digit_any(body[j - start]));
                let sb = spec_hex_body(input@);
                assert(!(forall|i2: int| 0 <= i2 < sb.len() ==> hex_digit_any(sb[i2])));
            }
            return Err(OptParseError);
        };
        proof {
            assert(body[j - start] == cs@[j as int]);
            assert(hex_digit_any(body[j - start]));
            assert(hex_digit_val(body[j - start]) == d as nat);
            assert(body.take(j - start + 1).take(j - start) =~= body.take(j - start));
            assert(body.take(j - start + 1)[j - start] == body[j - start]);
            assert(hex_value_of(body.take(j - start + 1)) == hex_value_of(body.take(j - start))
                * 16 + d as nat);
        }
        if over {
        } else if acc > ((u32::MAX as u64) - (d as u64)) / 16 {
            over = true;
            proof {
                assert(hex_value_of(body.take(j - start + 1)) > u32::MAX);
            }
        } else {
            acc = acc * 16 + d as u64;
        }
        proof {
            if over && hex_value_of(body.take(j - start)) > u32::MAX {
                assert(hex_value_of(body.take(j - start)) * 16 + d as nat > u32::MAX);
            }
        }
        j = j + 1;
    }
    proof {
        assert(body.take(j - start) =~= body);
    }
    if over {
        Err(OptParseError)
    } else {
        Ok(acc as u32)
    }
}

/// What a dimension option means: `auto`, a whole number of pixels, or a
/// whole percentage ending in `%`, carried in thousandths.
pub open spec fn spec_parse_dimension(s: Seq<char>) -> Option<Dimension> {
    if s == "auto"@ {
        Some(Dimension::Auto)
    } else if s.len() >= 1 && (forall|i: int| 0 <= i < s.len() ==> dec_digit(s[i])) {
        if dec_value_of(s) <= u32::MAX {
            Some(Dimension::Points(dec_value_of(s) as u32))
        } else {
            None
        }
    } else if s.len() >= 2 && s.last() == '%' && (forall|i: int|
        0 <= i < s.len() - 1 ==> dec_digit(s[i])) {
        if dec_value_of(s.drop_last()) * 10 <= u32::MAX {
            Some(Dimension::Percent((dec_value_of(s.drop_last()) * 10) as u32))
        } else {
            None
        }
    } else {
        None
    }
}

/// Parse a run of decimal digits out of `cs[start..end]`.
fn parse_digits(cs: &Vec<char>, start: usize, end: usize) -> (r: Option<u32>)
    requires
        start <= end <= cs@.len(),
    ensures
        (forall|i: int| 0 <= i < end - start ==> dec_digit(cs@.subrange(start as int, end as int)[i]))
            ==> r == if dec_value_of(cs@.subrange(start as int, end as int)) <= u32::MAX {
            Some(dec_value_of(cs@.subrange(start as int, end as int)) as u32)
        } else {
            None::<u32>
        },
        r is Some ==> (forall|i: int|
            0 <= i < end - start ==> dec_digit(cs@.subrange(start as int, end as int)[i])),
{
    let ghost body = cs@.subrange(start as int, end as int);
    let mut j = start;
    let mut acc: u64 = 0;
    let mut over = false;
    while j < end
        invariant
            start <= j <= end <= cs@.len(),
            body == cs@.subrange(start as int, end as int),
            forall|k: int| 0 <= k < j - start ==> dec_digit(body[k]),
            !over ==> acc as nat == dec_value_of(body.take(j - start)),
            over ==> dec_value_of(body.take(j - start)) > u32::MAX,
            acc <= u32::MAX as u64,
        decreases end - j,
    {
        let code = cs[j] as u32;
        if !(48 <= code && code <= 57) {
            proof {
                assert(body[j - start] == cs@[j as int]);
                assert(!dec_digit(body[j - start]));
            }
            return None;
        }
        let d: u32 = code - 48;
        proof {
            assert(body[j - start] == cs@[j as int]);
            assert(body.take(j - start + 1).take(j - start) =~= body.take(j - start));
            assert(body.take(j - start + 1)[j - start] == body[j - start]);
            assert(dec_value_of(body.take(j - start + 1)) == dec_value_of(body.take(j - start))
                * 10 + d as nat);
        }
        if over {
        } else if acc > ((u32::MAX as u64) - (d as u64)) / 10 {
            over = true;
            proof {
                assert(dec_value_of(body.take(j - start + 1)) > u32::MAX);
            }
        } else {
            acc = acc * 10 + d as u64;
        }
        proof {
            if over && dec_value_of(body.take(j - start)) > u32::MAX {
                assert(dec_value_of(body.take(j - start)) * 10 + d as nat > u32::MAX);
            }
        }
        j = j + 1;
    }
    proof {
        assert(body.take(j - start) =~= body);
    }
    if over {
        None
    } else {
        Some(acc as u32)
    }
}

/// Parse a dimension option: `auto`, pixels, or a percentage.
pub fn parse_dimension(input: &str) -> (r: Result<Dimension, OptParseError>)
    ensures
        match r {
            Ok(d) => spec_parse_dimension(input@) == Some(d),
            Err(_) => spec_parse_dimension(input@) is None,
        },
{
    let cs = crate::codec::chars_of(input);
    if chars_eq_lit(&cs, "auto") {
        return Ok(Dimension::Auto);
    }
    let n = cs.len();
    if n >= 1 {
        proof {
            assert(cs@.subrange(0, n as int) =~= cs@);
        }
        match parse_digits(&cs, 0, n) {
            Some(v) => {
                return Ok(Dimension::Points(v));
            },
            None => {},
        }
        if n >= 2 && cs[n - 1] == '%' {
            let ghost head = cs@.subrange(0, n as int - 1);
            proof {
                assert(head =~= cs@.drop_last());
            }
            match parse_digits(&cs, 0, n - 1) {
                Some(v) => {
                    if v <= u32::MAX / 10 {
                        return Ok(Dimension::Percent(v * 10));
                    } else {
                        proof {
                            assert(dec_value_of(cs@.drop_last()) * 10 > u32::MAX);
                        }
                        return Err(OptParseError);
                    }
                },
                None => {
                    return Err(OptParseError);
                },
            }
        }
    }
    Err(OptParseError)
}

/// Whether a character vector spells exactly the given text.
fn chars_eq_lit(v: &Vec<char>, s: &str) -> (r: bool)
    ensures
        r == (v@ == s@),
{
    let n = s.unicode_len();
    if v.len() != n {
        proof {
            assert(v@ != s@);
        }
        return false;
    }
    let mut i: usize = 0;
    while i < n
        invariant
            i <= n,
            n == s@.len(),
            v@.len() == n,
            forall|k: int| 0 <= k < i ==> v@[k] == s@[k],
        decreases n - i,
    {
        if v[i] != s.get_char(i) {
            proof {
                assert(v@[i as int] != s@[i as int]);
            }
            return false;
        }
        i = i + 1;
    }
    proof {
        assert(v@ =~= s@);
    }
    true
}

/// Parse a plain whole number.
pub fn parse_number(input: &str) -> (r: Result<u32, OptParseError>)
    ensures
        match r {
            Ok(v) => input@.len() >= 1 && (forall|i: int|
                0 <= i < input@.len() ==> dec_digit(input@[i])) && dec_value_of(input@) == v,
            Err(_) => input@.len() == 0 || !(forall|i: int|
                0 <= i < input@.len() ==> dec_digit(input@[i])) || dec_value_of(input@)
                > u32::MAX,
        },
{
    let cs = crate::codec::chars_of(input);
    let n = cs.len();
    if n == 0 {
        return Err(OptParseError);
    }
    proof {
        assert(cs@.subrange(0, n as int) =~= cs@);
    }
    match parse_digits(&cs, 0, n) {
        Some(v) => Ok(v),
        None => Err(OptParseError),
    }
}

/// Parse a cross-axis alignment for a container's items.
pub fn parse_align_items(input: &str) -> (r: Result<AlignItems, OptParseError>)
    ensures
        input@ == "flex_start"@ ==> r == Ok::<AlignItems, OptParseError>(AlignItems::FlexStart),
        input@ == "flex_end"@ ==> r == Ok::<AlignItems, OptParseError>(AlignItems::FlexEnd),
        input@ == "center"@ ==> r == Ok::<AlignItems, OptParseError>(AlignItems::Center),
        input@ == "baseline"@ ==> r == Ok::<AlignItems, OptParseError>(AlignItems::Baseline),
        input@ == "stretch"@ ==> r == Ok::<AlignItems, OptParseError>(AlignItems::Stretch),
        input@ != "flex_start"@ && input@ != "flex_end"@ && input@ != "center"@ && input@
            != "baseline"@ && input@ != "stretch"@ ==> r is Err,
{
    let cs = crate::codec::chars_of(input);
    proof {
        reveal_strlit("flex_start");
        reveal_strlit("flex_end");
        reveal_strlit("center");
        reveal_strlit("baseline");
        reveal_strlit("stretch");
        crate::codec::lemma_ne_len("flex_end", "flex_start");
        crate::codec::lemma_ne_len("center", "flex_start");
        crate::codec::lemma_ne_len("center", "flex_end");
        crate::codec::lemma_ne_len("baseline", "flex_start");
        crate::codec::lemma_ne_at("baseline", "flex_end", 0);
        crate::codec::lemma_ne_len("baseline", "center");
        crate::codec::lemma_ne_len("stretch", "flex_start");
        crate::codec::lemma_ne_len("stretch", "flex_end");
        crate::codec::lemma_ne_len("stretch", "center");
        crate::codec::lemma_ne_len("stretch", "baseline");
    }
    if chars_eq_lit(&cs, "flex_start") {
        Ok(AlignItems::FlexStart)
    } else if chars_eq_lit(&cs, "flex_end") {
        Ok(AlignItems::FlexEnd)
    } else if chars_eq_lit(&cs, "center") {
        Ok(AlignItems::Center)
    } else if chars_eq_lit(&cs, "baseline") {
        Ok(AlignItems::Baseline)
    } else if chars_eq_lit(&cs, "stretch") {
        Ok(AlignItems::Stretch)
    } else {
        Err(OptParseError)
    }
}

/// Parse a node's own cross-axis alignment. `auto` defers to the parent's
/// items alignment, which the solver treats as flex-start here.
pub fn parse_align_self(input: &str) -> (r: Result<AlignSelf, OptParseError>)
    ensures
        input@ == "auto"@ ==> r == Ok::<AlignSelf, OptParseError>(AlignSelf::FlexStart),
        input@ == "flex_start"@ ==> r == Ok::<AlignSelf, OptParseError>(AlignSelf::FlexStart),
        input@ == "flex_end"@ ==> r == Ok::<AlignSelf, OptParseError>(AlignSelf::FlexEnd),
        input@ == "center"@ ==> r == Ok::<AlignSelf, OptParseError>(AlignSelf::Center),
        input@ == "baseline"@ ==> r == Ok::<AlignSelf, OptParseError>(AlignSelf::Baseline),
        input@ == "stretch"@ ==> r == Ok::<AlignSelf, OptParseError>(AlignSelf::Stretch),
        input@ != "auto"@ && input@ != "flex_start"@ && input@ != "flex_end"@ && input@
            != "center"@ && input@ != "baseline"@ && input@ != "stretch"@ ==> r is Err,
{
    let cs = crate::codec::chars_of(input);
    proof {
        reveal_strlit("auto");
        reveal_strlit("flex_start");
        reveal_strlit("flex_end");
        reveal_strlit("center");
        reveal_strlit("baseline");
        reveal_strlit("stretch");
        crate::codec::lemma_ne_len("flex_start", "auto");
        crate::codec::lemma_ne_len("flex_end", "auto");
        crate::codec::lemma_ne_len("flex_end", "flex_start");
        crate::codec::lemma_ne_len("center", "auto");
        crate::codec::lemma_ne_len("center", "flex_start");
        crate::codec::lemma_ne_len("center", "flex_end");
        crate::codec::lemma_ne_len("baseline", "auto");
        crate::codec::lemma_ne_len("baseline", "flex_start");
        crate::codec::lemma_ne_at("baseline", "flex_end", 0);
        crate::codec::lemma_ne_len("baseline", "center");
        crate::codec::lemma_ne_len("stretch", "auto");
        crate::codec::lemma_ne_len("stretch", "flex_start");
        crate::codec::lemma_ne_len("stretch", "flex_end");
        crate::codec::lemma_ne_len("stretch", "center");
        crate::codec::lemma_ne_len("stretch", "baseline");
    }
    if chars_eq_lit(&cs, "auto") {
        Ok(AlignSelf::FlexStart)
    } else if chars_eq_lit(&cs, "flex_start") {
        Ok(AlignSelf::FlexStart)
    } else if chars_eq_lit(&cs, "flex_end") {
        Ok(AlignSelf::FlexEnd)
    } else if chars_eq_lit(&cs, "center") {
        Ok(AlignSelf::Center)
    } else if chars_eq_lit(&cs, "baseline") {
        Ok(AlignSelf::Baseline)
    } else if chars_eq_lit(&cs, "stretch") {
        Ok(AlignSelf::Stretch)
    } else {
        Err(OptParseError)
    }
}

/// Parse a main-axis content distribution.
pub fn parse_justify_content(input: &str) -> (r: Result<JustifyContent, OptParseError>)
    ensures
        input@ == "flex_start"@ ==> r == Ok::<JustifyContent, OptParseError>(
            JustifyContent::FlexStart,
        ),
        input@ == "flex_end"@ ==> r == Ok::<JustifyContent, OptParseError>(
            JustifyContent::FlexEnd,
        ),
        input@ == "center"@ ==> r == Ok::<JustifyContent, OptParseError>(JustifyContent::Center),
        input@ == "space_between"@ ==> r == Ok::<JustifyContent, OptParseError>(
            JustifyContent::SpaceBetween,
        ),
        input@ == "space_around"@ ==> r == Ok::<JustifyContent, OptParseError>(
            JustifyContent::SpaceAround,
        ),
        input@ == "space_evenly"@ ==> r == Ok::<JustifyContent, OptParseError>(
            JustifyContent::SpaceEvenly,
        ),
        input@ != "flex_start"@ && input@ != "flex_end"@ && input@ != "center"@ && input@
            != "space_between"@ && input@ != "space_around"@ && input@ != "space_evenly"@ ==> r
            is Err,
{
    let cs = crate::codec::chars_of(input);
    proof {
        reveal_strlit("flex_start");
        reveal_strlit("flex_end");
        reveal_strlit("center");
        reveal_strlit("space_between");
        reveal_strlit("space_around");
        reveal_strlit("space_evenly");
        crate::codec::lemma_ne_len("flex_end", "flex_start");
        crate::codec::lemma_ne_len("center", "flex_start");
        crate::codec::lemma_ne_len("center", "flex_end");
        crate::codec::lemma_ne_len("space_between", "flex_start");
        crate::codec::lemma_ne_len("space_between", "flex_end");
        crate::codec::lemma_ne_len("space_between", "center");
        crate::codec::lemma_ne_len("space_around", "flex_start");
        crate::codec::lemma_ne_len("space_around", "flex_end");
        crate::codec::lemma_ne_len("space_around", "center");
        crate::codec::lemma_ne_len("space_around", "space_between");
        crate::codec::lemma_ne_len("space_evenly", "flex_start");
        crate::codec::lemma_ne_len("space_evenly", "flex_end");
        crate::codec::lemma_ne_len("space_evenly", "center");
        crate::codec::lemma_ne_len("space_evenly", "space_between");
        crate::codec::lemma_ne_at("space_evenly", "space_around", 6);
    }
    if chars_eq_lit(&cs, "flex_start") {
        Ok(JustifyContent::FlexStart)
    } else if chars_eq_lit(&cs, "flex_end") {
        Ok(JustifyContent::FlexEnd)
    } else if chars_eq_lit(&cs, "center") {
        Ok(JustifyContent::Center)
    } else if chars_eq_lit(&cs, "space_between") {
        Ok(JustifyContent::SpaceBetween)
    } else if chars_eq_lit(&cs, "space_around") {
        Ok(JustifyContent::SpaceAround)
    } else if chars_eq_lit(&cs, "space_evenly") {
        Ok(JustifyContent::SpaceEvenly)
    } else {
        Err(OptParseError)
    }
}

/// Parse a layout direction.
pub fn parse_flex_direction(input: &str) -> (r: Result<FlexDirection, OptParseError>)
    ensures
        input@ == "row"@ ==> r == Ok::<FlexDirection, OptParseError>(FlexDirection::Row),
        input@ == "column"@ ==> r == Ok::<FlexDirection, OptParseError>(FlexDirection::Column),
        input@ == "row_reverse"@ ==> r == Ok::<FlexDirection, OptParseError>(
            FlexDirection::RowReverse,
        ),
        input@ == "column_reverse"@ ==> r == Ok::<FlexDirection, OptParseError>(
            FlexDirection::ColumnReverse,
        ),
        input@ != "row"@ && input@ != "column"@ && input@ != "row_reverse"@ && input@
            != "column_reverse"@ ==> r is Err,
{
    let cs = crate::codec::chars_of(input);
    proof {
        reveal_strlit("row");
        reveal_strlit("column");
        reveal_strlit("row_reverse");
        reveal_strlit("column_reverse");
        crate::codec::lemma_ne_len("column", "row");
        crate::codec::lemma_ne_len("row_reverse", "row");
        crate::codec::lemma_ne_len("row_reverse", "column");
        crate::codec::lemma_ne_len("column_reverse", "row");
        crate::codec::lemma_ne_len("column_reverse", "column");
        crate::codec::lemma_ne_len("column_reverse", "row_reverse");
    }
    if chars_eq_lit(&cs, "row") {
        Ok(FlexDirection::Row)
    } else if chars_eq_lit(&cs, "column") {
        Ok(FlexDirection::Column)
    } else if chars_eq_lit(&cs, "row_reverse") {
        Ok(FlexDirection::RowReverse)
    } else if chars_eq_lit(&cs, "column_reverse") {
        Ok(FlexDirection::ColumnReverse)
    } else {
        Err(OptParseError)
    }
}

/// The flat style options of the companion tools.
#[derive(Clone, Copy, Debug, PartialEq, Eq)]
pub struct StyleOpts {
    pub width: Option<Dimension>,
    pub height: Option<Dimension>,
    pub grow: Option<u32>,
    pub shrink: Option<u32>,
    pub margin: Option<Dimension>,
    pub padding: Option<Dimension>,
    pub padding_end: Option<Dimension>,
    pub padding_start: Option<Dimension>,
    pub padding_top: Option<Dimension>,
    pub padding_bottom: Option<Dimension>,
    pub align_items: Option<AlignItems>,
    pub align_self: Option<AlignSelf>,
    pub justify_content: Option<JustifyContent>,
    pub flex_direction: Option<FlexDirection>,
    pub aspect_ratio: Option<u32>,
}

/// A missing option, where a sibling forces the group to exist, stands in
/// as this solver default.
pub open spec fn or_undefined(d: Option<Dimension>) -> Dimension {
    match d {
        Some(v) => v,
        None => Dimension::Undefined,
    }
}

/// A missing size axis, where the other axis is given, stands in as auto.
pub open spec fn or_auto(d: Option<Dimension>) -> Dimension {
    match d {
        Some(v) => v,
        None => Dimension::Auto,
    }
}

/// The style the flat options describe: the size group exists when either
/// axis is given, the margin applies to all four edges, each padding edge
/// falls back to the uniform padding, and every untouched property stays
/// absent.
pub open spec fn spec_to_style(o: StyleOpts) -> Style {
    Style {
        size: if o.width is Some || o.height is Some {
            Some(DimSize { width: or_auto(o.width), height: or_auto(o.height) })
        } else {
            None
        },
        margin: match o.margin {
            Some(m) => Some(DimRect { start: m, end: m, top: m, bottom: m }),
            None => None,
        },
        padding: if o.padding_start is Some || o.padding_end is Some || o.padding_top is Some
            || o.padding_bottom is Some || o.padding is Some {
            Some(
                DimRect {
                    start: or_undefined(
                        match o.padding_start {
                            Some(v) => Some(v),
                            None => o.padding,
                        },
                    ),
                    end: or_undefined(
                        match o.padding_end {
                            Some(v) => Some(v),
                            None => o.padding,
                        },
                    ),
                    top: or_undefined(
                        match o.padding_top {
                            Some(v) => Some(v),
                            None => o.padding,
                        },
                    ),
                    bottom: or_undefined(
                        match o.padding_bottom {
                            Some(v) => Some(v),
                            None => o.padding,
                        },
                    ),
                },
            )
        } else {
            None
        },
        flex_grow: o.grow,
        flex_shrink: o.shrink,
        align_items: o.align_items,
        align_self: o.align_self,
        justify_content: o.justify_content,
        flex_direction: o.flex_direction,
        aspect_ratio: o.aspect_ratio,
        ..empty_style()
    }
}

impl StyleOpts {
    /// The style these options describe.
    pub fn to_style(&self) -> (s: Style)
        ensures
            s == spec_to_style(*self),
    {
        let size = if self.width.is_some() || self.height.is_some() {
            Some(
                DimSize {
                    width: match self.width {
                        Some(v) => v,
                        None => Dimension::Auto,
                    },
                    height: match self.height {
                        Some(v) => v,
                        None => Dimension::Auto,
                    },
                },
            )
        } else {
            None
        };
        let margin = match self.margin {
            Some(m) => Some(DimRect { start: m, end: m, top: m, bottom: m }),
            None => None,
        };
        let padding = if self.padding_start.is_some() || self.padding_end.is_some()
            || self.padding_top.is_some() || self.padding_bottom.is_some()
            || self.padding.is_some() {
            Some(
                DimRect {
                    start: edge(self.padding_start, self.padding),
                    end: edge(self.padding_end, self.padding),
                    top: edge(self.padding_top, self.padding),
                    bottom: edge(self.padding_bottom, self.padding),
                },
            )
        } else {
            None
        };
        Style {
            size,
            margin,
            padding,
            flex_grow: self.grow,
            flex_shrink: self.shrink,
            align_items: self.align_items,
            align_self: self.align_self,
            justify_content: self.justify_content,
            flex_direction: self.flex_direction,
            aspect_ratio: self.aspect_ratio,
            ..Style::default()
        }
    }
}

/// One padding edge: its own option first, the uniform padding next, the
/// solver default last.
fn edge(own: Option<Dimension>, uniform: Option<Dimension>) -> (d: Dimension)
    ensures
        d == or_undefined(
            match own {
                Some(v) => Some(v),
                None => uniform,
            },
        ),
{
    match own {
        Some(v) => v,
        None => match uniform {
            Some(v) => v,
            None => Dimension::Undefined,
        },
    }
}

} // verus!
