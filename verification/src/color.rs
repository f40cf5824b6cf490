//! Terminal color escapes for span colors.
use vstd::prelude::*;

use crate::error::GenerateError;
use crate::text::{decimal, decimal_digits, digit_char, push_char, push_str, str_eq};

verus! {

/// The value of an ASCII digit byte in `radix` (2..=36), as `char::to_digit`
/// gives it: `0`-`9`, then `a`-`z` or `A`-`Z` for 10 and above.
pub open spec fn digit_value(b: u8, radix: nat) -> Option<nat> {
    let v: int = if 48 <= b <= 57 {
        b - 48
    } else if 97 <= b <= 122 {
        b - 87
    } else if 65 <= b <= 90 {
        b - 55
    } else {
        radix as int
    };
    if v < radix {
        Some(v as nat)
    } else {
        None
    }
}

/// The number written by the digit bytes `d` in `radix`, if they all are digits.
pub open spec fn digits_value(d: Seq<u8>, radix: nat) -> Option<nat>
    decreases d.len(),
{
    if d.len() == 0 {
        Some(0)
    } else {
        match (digits_value(d.drop_last(), radix), digit_value(d.last(), radix)) {
            (Some(v), Some(x)) => Some(v * radix + x),
            _ => None,
        }
    }
}

/// The bytes after an optional leading `+`, as the integer parsers of `core`
/// read them; `None` for an empty input or a lone sign.
pub open spec fn unsigned_digits(b: Seq<u8>) -> Option<Seq<u8>> {
    if b.len() == 0 {
        None
    } else if b.len() == 1 && (b[0] == 43 || b[0] == 45) {
        None
    } else if b[0] == 43 {
        Some(b.drop_first())
    } else {
        Some(b)
    }
}

/// What `u8::from_str_radix` returns for the UTF-8 bytes `b`: the value when
/// the bytes are an optional `+` followed by digits whose value fits in a `u8`.
pub open spec fn parse_u8_radix(b: Seq<u8>, radix: nat) -> Option<u8> {
    match unsigned_digits(b) {
        Some(d) => match digits_value(d, radix) {
            Some(v) => if v <= 255 {
                Some(v as u8)
            } else {
                None
            },
            None => None,
        },
        None => None,
    }
}

/// Parses the bytes `b[start..end]` as a `u8` written in `radix` (10 or 16).
fn parse_u8_bytes(b: &[u8], start: usize, end: usize, radix: u8) -> (r: Option<u8>)
    requires
        start <= end <= b@.len(),
        radix == 10 || radix == 16,
    ensures
        r == parse_u8_radix(b@.subrange(start as int, end as int), radix as nat),
{
    let ghost s = b@.subrange(start as int, end as int);
    if start == end {
        return None;
    }
    if end - start == 1 && (b[start] == 43 || b[start] == 45) {
        return None;
    }
    let first = if b[start] == 43 { start + 1 } else { start };
    let ghost d = b@.subrange(first as int, end as int);
    assert(unsigned_digits(s) == Some(d)) by {
        if b[start as int] == 43 {
            assert(s.drop_first() =~= d);
        } else {
            assert(s =~= d);
        }
    }
    let mut acc: u32 = 0;
    let mut i: usize = first;
    assert(d.take(0) =~= seq![]);
    while i < end
        invariant
            first <= i <= end <= b@.len(),
            d == b@.subrange(first as int, end as int),
            unsigned_digits(b@.subrange(start as int, end as int)) == Some(d),
            radix == 10 || radix == 16,
            digits_value(d.take(i - first), radix as nat) matches Some(v) && acc == (if v > 256 {
                256
            } else {
                v
            }),
        decreases end - i,
    {
        let c = b[i];
        let x: u32 = if 48 <= c && c <= 57 {
            (c - 48) as u32
        } else if 97 <= c && c <= 122 {
            (c - 87) as u32
        } else if 65 <= c && c <= 90 {
            (c - 55) as u32
        } else {
            radix as u32
        };
        let ghost pre = d.take(i - first);
        assert(d.take(i + 1 - first).drop_last() =~= pre);
        assert(d.take(i + 1 - first).last() == c);
        if x >= radix as u32 {
            assert(digit_value(c, radix as nat) is None);
            assert(digits_value(d.take(i + 1 - first), radix as nat) is None);
            proof {
                lemma_digits_none_extends(d, (i + 1 - first) as int, radix as nat);
            }
            assert(d.take(d.len() as int) =~= d);
            return None;
        }
        let next = acc * (radix as u32) + x;
        acc = if next > 256 { 256 } else { next };
        i = i + 1;
    }
    assert(d.take(i - first) =~= d);
    if acc <= 255 {
        Some(acc as u8)
    } else {
        None
    }
}

proof fn lemma_digits_none_extends(d: Seq<u8>, k: int, radix: nat)
    requires
        0 <= k <= d.len(),
        digits_value(d.take(k), radix) is None,
    ensures
        digits_value(d, radix) is None,
    decreases d.len() - k,
{
    if k < d.len() {
        assert(d.take(k + 1).drop_last() =~= d.take(k));
        lemma_digits_none_extends(d, k + 1, radix);
    } else {
        assert(d.take(k) =~= d);
    }
}

} // verus!

verus! {

/// Why a color has no escape.
#[derive(Debug, Clone, Copy, PartialEq, Eq, Structural)]
pub enum ColorProblem {
    /// Neither a palette index, a `#rrggbb` value nor a known name.
    Unsupported,
    /// A `#rrggbb` value with a part that is not a hexadecimal byte.
    InvalidHexDigit,
}

/// Whether byte position `i` of the UTF-8 bytes `b` starts a character or is
/// the end, as `str::is_char_boundary` documents it.
pub open spec fn byte_boundary(b: Seq<u8>, i: int) -> bool {
    i == 0 || i == b.len() || (0 < i < b.len() && !(0x80 <= b[i] <= 0xBF))
}

/// The six bytes after the `#` of a `#rrggbb` color.
pub open spec fn hex_part(b: Seq<u8>) -> Option<Seq<u8>> {
    if b.len() == 7 && b[0] == 35 {
        Some(b.drop_first())
    } else {
        None
    }
}

/// The palette index of a named color.
pub open spec fn named_color_code(c: Seq<char>) -> Option<nat> {
    if c == "black"@ { Some(0) }
    else if c == "red"@ { Some(1) }
    else if c == "green"@ { Some(2) }
    else if c == "yellow"@ { Some(3) }
    else if c == "blue"@ { Some(4) }
    else if c == "magenta"@ { Some(5) }
    else if c == "cyan"@ { Some(6) }
    else if c == "white"@ { Some(7) }
    else if c == "bright-black"@ || c == "darkGray"@ { Some(8) }
    else if c == "bright-red"@ || c == "lightRed"@ { Some(9) }
    else if c == "bright-green"@ || c == "lightGreen"@ { Some(10) }
    else if c == "bright-yellow"@ || c == "lightYellow"@ { Some(11) }
    else if c == "bright-blue"@ || c == "lightBlue"@ { Some(12) }
    else if c == "bright-magenta"@ || c == "lightMagenta"@ { Some(13) }
    else if c == "bright-cyan"@ || c == "lightCyan"@ { Some(14) }
    else if c == "bright-white"@ || c == "lightWhite"@ { Some(15) }
    else { None }
}

/// The color means "no color".
pub open spec fn is_clear_color(c: Seq<char>) -> bool {
    c == "transparent"@ || c == "default"@
}

/// `ESC [ prefix ; 5 ; index m`: a 256-color palette escape.
pub open spec fn palette_escape(prefix: nat, index: nat) -> Seq<char> {
    seq!['\u{1b}', '['] + decimal_digits(prefix) + seq![';', '5', ';'] + decimal_digits(index) + seq!['m']
}

/// `ESC [ prefix ; 2 ; r ; g ; b m`: a truecolor escape.
pub open spec fn truecolor_escape(prefix: nat, r: nat, g: nat, b: nat) -> Seq<char> {
    seq!['\u{1b}', '['] + decimal_digits(prefix) + seq![';', '2', ';'] + decimal_digits(r) + seq![';']
        + decimal_digits(g) + seq![';'] + decimal_digits(b) + seq!['m']
}

/// The escape for a foreground (38) or background (48) color.
pub open spec fn color_prefix(background: bool) -> nat {
    if background { 48 } else { 38 }
}

/// Reading the three hexadecimal bytes of a `#rrggbb` color would slice the
/// text inside a character (the checks run on bytes, in order, and stop at the
/// first part that is not hexadecimal).
pub open spec fn hex_slicing_breaks(h: Seq<u8>) -> bool {
    !byte_boundary(h, 2) || (parse_u8_radix(h.subrange(0, 2), 16) is Some && !byte_boundary(h, 4))
}

/// Computing the escape of `color` would slice its text inside a character.
pub open spec fn color_escape_breaks(color: Seq<char>) -> bool {
    let b = vstd::utf8::encode_utf8(color);
    &&& !is_clear_color(color)
    &&& parse_u8_radix(b, 10) is None
    &&& hex_part(b) matches Some(h) && hex_slicing_breaks(h)
}

/// The escape for `color` (`None`: no color given): empty for no color,
/// `transparent` or `default`; a palette escape for an index `0`-`255`; a
/// truecolor escape for `#rrggbb`; a palette escape for a known name.
pub open spec fn spec_color_escape(color: Option<Seq<char>>, background: bool) -> Result<Seq<char>, ColorProblem> {
    match color {
        None => Ok(seq![]),
        Some(c) => if is_clear_color(c) {
            Ok(seq![])
        } else {
            let prefix = color_prefix(background);
            let b = vstd::utf8::encode_utf8(c);
            match parse_u8_radix(b, 10) {
                Some(index) => Ok(palette_escape(prefix, index as nat)),
                None => match hex_part(b) {
                    Some(h) => match (
                        parse_u8_radix(h.subrange(0, 2), 16),
                        parse_u8_radix(h.subrange(2, 4), 16),
                        parse_u8_radix(h.subrange(4, 6), 16),
                    ) {
                        (Some(r), Some(g), Some(bl)) => Ok(truecolor_escape(prefix, r as nat, g as nat, bl as nat)),
                        _ => Err(ColorProblem::InvalidHexDigit),
                    },
                    None => match named_color_code(c) {
                        Some(k) => Ok(palette_escape(prefix, k)),
                        None => Err(ColorProblem::Unsupported),
                    },
                },
            }
        },
    }
}

/// The view of an optional string.
pub open spec fn opt_view(s: Option<&String>) -> Option<Seq<char>> {
    match s {
        Some(x) => Some(x@),
        None => None,
    }
}

fn named_code(c: &str) -> (r: Option<u8>)
    ensures
        r matches Some(k) ==> named_color_code(c@) == Some(k as nat),
        r is None ==> named_color_code(c@) is None,
{
    if str_eq(c, "black") { Some(0) }
    else if str_eq(c, "red") { Some(1) }
    else if str_eq(c, "green") { Some(2) }
    else if str_eq(c, "yellow") { Some(3) }
    else if str_eq(c, "blue") { Some(4) }
    else if str_eq(c, "magenta") { Some(5) }
    else if str_eq(c, "cyan") { Some(6) }
    else if str_eq(c, "white") { Some(7) }
    else if str_eq(c, "bright-black") || str_eq(c, "darkGray") { Some(8) }
    else if str_eq(c, "bright-red") || str_eq(c, "lightRed") { Some(9) }
    else if str_eq(c, "bright-green") || str_eq(c, "lightGreen") { Some(10) }
    else if str_eq(c, "bright-yellow") || str_eq(c, "lightYellow") { Some(11) }
    else if str_eq(c, "bright-blue") || str_eq(c, "lightBlue") { Some(12) }
    else if str_eq(c, "bright-magenta") || str_eq(c, "lightMagenta") { Some(13) }
    else if str_eq(c, "bright-cyan") || str_eq(c, "lightCyan") { Some(14) }
    else if str_eq(c, "bright-white") || str_eq(c, "lightWhite") { Some(15) }
    else { None }
}

fn palette(prefix: u8, index: u8) -> (r: String)
    ensures
        r@ == palette_escape(prefix as nat, index as nat),
{
    let mut out = String::new();
    push_char(&mut out, '\u{1b}');
    push_char(&mut out, '[');
    push_str(&mut out, decimal(prefix as u64).as_str());
    push_char(&mut out, ';');
    push_char(&mut out, '5');
    push_char(&mut out, ';');
    push_str(&mut out, decimal(index as u64).as_str());
    push_char(&mut out, 'm');
    assert(out@ =~= palette_escape(prefix as nat, index as nat));
    out
}

fn truecolor(prefix: u8, r: u8, g: u8, b: u8) -> (out: String)
    ensures
        out@ == truecolor_escape(prefix as nat, r as nat, g as nat, b as nat),
{
    let mut out = String::new();
    push_char(&mut out, '\u{1b}');
    push_char(&mut out, '[');
    push_str(&mut out, decimal(prefix as u64).as_str());
    push_char(&mut out, ';');
    push_char(&mut out, '2');
    push_char(&mut out, ';');
    push_str(&mut out, decimal(r as u64).as_str());
    push_char(&mut out, ';');
    push_str(&mut out, decimal(g as u64).as_str());
    push_char(&mut out, ';');
    push_str(&mut out, decimal(b as u64).as_str());
    push_char(&mut out, 'm');
    assert(out@ =~= truecolor_escape(prefix as nat, r as nat, g as nat, b as nat));
    out
}

/// Whether computing the escape of `color` would slice its text inside a
/// character, the inputs that `color_escape` does not accept. Callers test
/// this first and reject such a color.
pub fn color_escape_would_break(color: &str) -> (r: bool)
    ensures
        r == color_escape_breaks(color@),
{
    if str_eq(color, "transparent") || str_eq(color, "default") {
        return false;
    }
    let b = color.as_bytes();
    assert(b@.subrange(0, b@.len() as int) =~= b@);
    if parse_u8_bytes(b, 0, b.len(), 10).is_some() {
        return false;
    }
    if !(b.len() == 7 && b[0] == 35) {
        return false;
    }
    let ghost h = b@.drop_first();
    assert(h.subrange(0, 2) =~= b@.subrange(1, 3));
    if 0x80 <= b[3] && b[3] <= 0xBF {
        return true;
    }
    parse_u8_bytes(b, 1, 3, 16).is_some() && 0x80 <= b[5] && b[5] <= 0xBF
}

/// The terminal escape that selects `color` as foreground or, with
/// `background`, as background color.
pub fn color_escape(color: Option<&String>, background: bool) -> (r: Result<String, GenerateError>)
    requires
        color matches Some(c) ==> !color_escape_breaks(c@),
    ensures
        match spec_color_escape(opt_view(color), background) {
            Ok(text) => r matches Ok(s) && s@ == text,
            Err(ColorProblem::InvalidHexDigit) => r matches Err(GenerateError::InvalidHexColor),
            Err(ColorProblem::Unsupported) => r matches Err(GenerateError::UnsupportedColor(c))
                && Some(c@) == opt_view(color),
        },
{
    let color = match color {
        Some(c) => c.as_str(),
        None => {
            return Ok(String::new());
        },
    };
    if str_eq(color, "transparent") || str_eq(color, "default") {
        return Ok(String::new());
    }
    let prefix: u8 = if background { 48 } else { 38 };
    let b = color.as_bytes();
    assert(b@.subrange(0, b@.len() as int) =~= b@);
    if let Some(index) = parse_u8_bytes(b, 0, b.len(), 10) {
        return Ok(palette(prefix, index));
    }
    if b.len() == 7 && b[0] == 35 {
        let ghost h = b@.drop_first();
        assert(h.subrange(0, 2) =~= b@.subrange(1, 3));
        assert(h.subrange(2, 4) =~= b@.subrange(3, 5));
        assert(h.subrange(4, 6) =~= b@.subrange(5, 7));
        let red = match parse_u8_bytes(b, 1, 3, 16) {
            Some(v) => v,
            None => {
                return Err(GenerateError::InvalidHexColor);
            },
        };
        let green = match parse_u8_bytes(b, 3, 5, 16) {
            Some(v) => v,
            None => {
                return Err(GenerateError::InvalidHexColor);
            },
        };
        let blue = match parse_u8_bytes(b, 5, 7, 16) {
            Some(v) => v,
            None => {
                return Err(GenerateError::InvalidHexColor);
            },
        };
        return Ok(truecolor(prefix, red, green, blue));
    }
    match named_code(color) {
        Some(code) => Ok(palette(prefix, code)),
        None => Err(GenerateError::UnsupportedColor(color.to_owned())),
    }
}

/// The foreground escape of `fg` followed by the background escape of `bg`.
pub fn ansi_pair(fg: Option<&String>, bg: Option<&String>) -> (r: Result<String, GenerateError>)
    requires
        fg matches Some(c) ==> !color_escape_breaks(c@),
        bg matches Some(c) ==> !color_escape_breaks(c@),
    ensures
        match (spec_color_escape(opt_view(fg), false), spec_color_escape(opt_view(bg), true)) {
            (Ok(f), Ok(b)) => r matches Ok(s) && s@ == f + b,
            (Err(ColorProblem::InvalidHexDigit), _) => r matches Err(GenerateError::InvalidHexColor),
            (Err(ColorProblem::Unsupported), _) => r matches Err(GenerateError::UnsupportedColor(c))
                && Some(c@) == opt_view(fg),
            (Ok(_), Err(ColorProblem::InvalidHexDigit)) => r matches Err(GenerateError::InvalidHexColor),
            (Ok(_), Err(ColorProblem::Unsupported)) => r matches Err(GenerateError::UnsupportedColor(c))
                && Some(c@) == opt_view(bg),
        },
{
    let mut out = String::new();
    let f = color_escape(fg, false)?;
    push_str(&mut out, f.as_str());
    let b = color_escape(bg, true)?;
    push_str(&mut out, b.as_str());
    Ok(out)
}

} // verus!

verus! {

proof fn lemma_selector_digits()
    ensures
        decimal_digits(38) == seq!['3', '8'],
        decimal_digits(48) == seq!['4', '8'],
{
    reveal_with_fuel(decimal_digits, 3);
    assert(digit_char(3) == '3' && digit_char(8) == '8' && digit_char(4) == '4');
    assert(decimal_digits(3) == seq!['3']);
    assert(decimal_digits(4) == seq!['4']);
    assert(decimal_digits(38) =~= seq!['3', '8']);
    assert(decimal_digits(48) =~= seq!['4', '8']);
}

/// Law: a color's background escape differs from its foreground escape only in
/// the selector, `48` in place of `38`; a color is rejected as a background
/// exactly when it is rejected as a foreground, for the same reason.
pub proof fn background_only_changes_selector(color: Option<Seq<char>>)
    requires
        color matches Some(c) ==> !color_escape_breaks(c),
    ensures
        match (spec_color_escape(color, false), spec_color_escape(color, true)) {
            (Ok(f), Ok(b)) => if f.len() == 0 {
                b.len() == 0
            } else {
                &&& f.len() >= 4
                &&& f.subrange(0, 4) == seq!['\u{1b}', '[', '3', '8']
                &&& b == seq!['\u{1b}', '[', '4', '8'] + f.subrange(4, f.len() as int)
            },
            (Err(e1), Err(e2)) => e1 == e2,
            _ => false,
        },
{
    lemma_selector_digits();
    let esc = seq!['\u{1b}', '['];
    let fg = seq!['\u{1b}', '[', '3', '8'];
    let bgp = seq!['\u{1b}', '[', '4', '8'];
    match (spec_color_escape(color, false), spec_color_escape(color, true)) {
        (Ok(f), Ok(b)) => {
            if f.len() != 0 {
                let c = color.unwrap();
                let bytes = vstd::utf8::encode_utf8(c);
                let rest = f.subrange(4, f.len() as int);
                match parse_u8_radix(bytes, 10) {
                    Some(index) => {
                        assert(f =~= fg + rest);
                        assert(b =~= bgp + rest);
                    },
                    None => match hex_part(bytes) {
                        Some(h) => {
                            assert(f =~= fg + rest);
                            assert(b =~= bgp + rest);
                        },
                        None => {
                            assert(f =~= fg + rest);
                            assert(b =~= bgp + rest);
                        },
                    },
                }
            }
        },
        _ => {},
    }
}

} // verus!

verus! {

/// The UTF-8 encoding of a text whose first character is ASCII starts with
/// that character's byte.
proof fn lemma_ascii_first_byte(s: Seq<char>)
    requires
        s.len() > 0,
        (s[0] as u32) <= 0x7f,
    ensures
        vstd::utf8::encode_utf8(s).len() > 0,
        vstd::utf8::encode_utf8(s)[0] as u32 == s[0] as u32,
{
    let x = s[0] as u32;
    assert((x & 0x7F) as u8 == x as u8) by (bit_vector)
        requires
            x <= 0x7f,
    ;
}

/// An ASCII text is encoded one byte per character, each byte being the
/// character's code.
proof fn lemma_ascii_encoding(s: Seq<char>)
    requires
        forall|i: int| 0 <= i < s.len() ==> #[trigger] (s[i] as u32) <= 0x7f,
    ensures
        vstd::utf8::encode_utf8(s).len() == s.len(),
        forall|i: int| 0 <= i < s.len() ==> #[trigger] vstd::utf8::encode_utf8(s)[i] as u32 == s[i] as u32,
    decreases s.len(),
{
    if s.len() > 0 {
        let t = s.drop_first();
        assert forall|i: int| 0 <= i < t.len() implies #[trigger] (t[i] as u32) <= 0x7f by {
            assert(t[i] == s[i + 1]);
        }
        lemma_ascii_encoding(t);
        lemma_ascii_first_byte(s);
        let x = s[0] as u32;
        assert(vstd::utf8::encode_scalar(x).len() == 1);
        let e = vstd::utf8::encode_utf8(s);
        assert(e == vstd::utf8::encode_scalar(x) + vstd::utf8::encode_utf8(t));
        assert forall|i: int| 0 <= i < s.len() implies #[trigger] e[i] as u32 == s[i] as u32 by {
            if i > 0 {
                assert(e[i] == vstd::utf8::encode_utf8(t)[i - 1]);
                assert(s[i] == t[i - 1]);
            }
        }
    }
}

/// Bytes whose first byte is no digit have no value.
proof fn lemma_first_not_digit(d: Seq<u8>, radix: nat)
    requires
        d.len() > 0,
        digit_value(d[0], radix) is None,
    ensures
        digits_value(d, radix) is None,
    decreases d.len(),
{
    if d.len() > 1 {
        assert(d.drop_last()[0] == d[0]);
        lemma_first_not_digit(d.drop_last(), radix);
    }
}

/// Every character of `decimal_digits(n)` is an ASCII digit.
proof fn lemma_decimal_digits_ascii(n: nat)
    ensures
        decimal_digits(n).len() > 0,
        forall|i: int| 0 <= i < decimal_digits(n).len() ==> 48 <= #[trigger] (decimal_digits(n)[i] as u32) <= 57,
    decreases n,
{
    if n >= 10 {
        lemma_decimal_digits_ascii(n / 10);
        let p = decimal_digits(n / 10);
        assert forall|i: int| 0 <= i < decimal_digits(n).len() implies 48 <= #[trigger] (decimal_digits(n)[i] as u32) <= 57 by {
            if i < p.len() {
                assert(decimal_digits(n)[i] == p[i]);
            }
        }
    }
}

/// The UTF-8 bytes of `decimal_digits(n)` read back, in base 10, as `n`.
proof fn lemma_decimal_digits_value(n: nat)
    ensures
        digits_value(vstd::utf8::encode_utf8(decimal_digits(n)), 10) == Some(n),
        vstd::utf8::encode_utf8(decimal_digits(n)).len() == decimal_digits(n).len(),
        forall|i: int| 0 <= i < decimal_digits(n).len() ==>
            #[trigger] vstd::utf8::encode_utf8(decimal_digits(n))[i] as u32 == decimal_digits(n)[i] as u32,
    decreases n,
{
    let s = decimal_digits(n);
    lemma_decimal_digits_ascii(n);
    lemma_ascii_encoding(s);
    let e = vstd::utf8::encode_utf8(s);
    if n < 10 {
        assert(e.drop_last() =~= seq![]);
        assert(e.last() as u32 == 48 + n);
        assert(digits_value(e.drop_last(), 10) == Some(0nat));
        assert(digit_value(e.last(), 10) == Some(n));
    } else {
        lemma_decimal_digits_value(n / 10);
        let p = decimal_digits(n / 10);
        let pe = vstd::utf8::encode_utf8(p);
        assert(e.drop_last() =~= pe) by {
            assert forall|i: int| 0 <= i < pe.len() implies e.drop_last()[i] == pe[i] by {
                assert(s[i] == p[i]);
                assert(e[i] as u32 == s[i] as u32);
                assert(pe[i] as u32 == p[i] as u32);
            }
        }
        assert(s.last() == digit_char(n % 10));
        assert(e.last() as u32 == 48 + n % 10);
        assert(digits_value(e.drop_last(), 10) == Some(n / 10));
        assert(digit_value(e.last(), 10) == Some(n % 10));
        assert(n == (n / 10) * 10 + n % 10);
    }
}

/// A palette index written in decimal parses back as that index.
proof fn lemma_decimal_parses(n: nat)
    requires
        n <= 255,
    ensures
        parse_u8_radix(vstd::utf8::encode_utf8(decimal_digits(n)), 10) == Some(n as u8),
        !is_clear_color(decimal_digits(n)),
{
    lemma_decimal_digits_value(n);
    lemma_decimal_digits_ascii(n);
    let s = decimal_digits(n);
    let e = vstd::utf8::encode_utf8(s);
    assert(48 <= (s[0] as u32) <= 57);
    assert(e[0] as u32 == s[0] as u32);
    assert(unsigned_digits(e) == Some(e));
    reveal_strlit("transparent");
    reveal_strlit("default");
    assert(s != "transparent"@) by {
        assert("transparent"@[0] == 't');
    }
    assert(s != "default"@) by {
        assert("default"@[0] == 'd');
    }
}

/// Law: each of the known color names selects the palette entry of its code
/// (0 to 15), exactly as that code written as a palette index does; names are
/// matched exactly, letter case included.
pub proof fn named_colors_are_palette_entries(name: Seq<char>, background: bool)
    requires
        named_color_code(name) is Some,
    ensures
        ({
            let n = named_color_code(name).unwrap();
            &&& n <= 15
            &&& spec_color_escape(Some(name), background) == Ok::<Seq<char>, ColorProblem>(
                palette_escape(color_prefix(background), n),
            )
            &&& spec_color_escape(Some(decimal_digits(n)), background) == Ok::<Seq<char>, ColorProblem>(
                palette_escape(color_prefix(background), n),
            )
        }),
{
    reveal_strlit("black");
    reveal_strlit("red");
    reveal_strlit("green");
    reveal_strlit("yellow");
    reveal_strlit("blue");
    reveal_strlit("magenta");
    reveal_strlit("cyan");
    reveal_strlit("white");
    reveal_strlit("bright-black");
    reveal_strlit("darkGray");
    reveal_strlit("bright-red");
    reveal_strlit("lightRed");
    reveal_strlit("bright-green");
    reveal_strlit("lightGreen");
    reveal_strlit("bright-yellow");
    reveal_strlit("lightYellow");
    reveal_strlit("bright-blue");
    reveal_strlit("lightBlue");
    reveal_strlit("bright-magenta");
    reveal_strlit("lightMagenta");
    reveal_strlit("bright-cyan");
    reveal_strlit("lightCyan");
    reveal_strlit("bright-white");
    reveal_strlit("lightWhite");
    reveal_strlit("transparent");
    reveal_strlit("default");
    let n = named_color_code(name).unwrap();
    assert(name.len() > 0 && 97 <= (name[0] as u32) <= 122);
    assert(!is_clear_color(name));
    lemma_ascii_first_byte(name);
    let b = vstd::utf8::encode_utf8(name);
    assert(unsigned_digits(b) == Some(b));
    lemma_first_not_digit(b, 10);
    assert(hex_part(b) is None);
    lemma_decimal_parses(n);
}

} // verus!
