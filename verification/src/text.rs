use vstd::prelude::*;

verus! {

/// The decimal digit `d`, for `d < 10`.
pub open spec fn digit_char(d: nat) -> char {
    seq!['0', '1', '2', '3', '4', '5', '6', '7', '8', '9'][d as int]
}

/// The decimal numeral of `n`, without sign or leading zeros.
pub open spec fn decimal_text(n: nat) -> Seq<char>
    decreases n,
{
    if n < 10 {
        seq![digit_char(n)]
    } else {
        decimal_text(n / 10) + seq![digit_char(n % 10)]
    }
}

/// The lower-case hexadecimal digit `d`, for `d < 16`.
pub open spec fn hex_char(d: nat) -> char {
    seq!['0', '1', '2', '3', '4', '5', '6', '7', '8', '9', 'a', 'b', 'c', 'd', 'e', 'f'][d as int]
}

/// How a character stands inside a JSON string literal: `"` and `\` behind a backslash,
/// backspace, tab, line feed, form feed and carriage return as `\b \t \n \f \r`, any
/// other character below U+0020 as `\u00` and two lower-case hexadecimal digits, and
/// every other character as itself.
pub open spec fn escaped_char(c: char) -> Seq<char> {
    if c == '"' {
        seq!['\\', '"']
    } else if c == '\\' {
        seq!['\\', '\\']
    } else if c == '\u{8}' {
        seq!['\\', 'b']
    } else if c == '\t' {
        seq!['\\', 't']
    } else if c == '\n' {
        seq!['\\', 'n']
    } else if c == '\u{c}' {
        seq!['\\', 'f']
    } else if c == '\r' {
        seq!['\\', 'r']
    } else if (c as u32) < 0x20 {
        seq!['\\', 'u', '0', '0', hex_char((c as u32 / 16) as nat), hex_char((c as u32 % 16) as nat)]
    } else {
        seq![c]
    }
}

/// The characters of `s`, each as it stands inside a JSON string literal.
pub open spec fn escaped_text(s: Seq<char>) -> Seq<char>
    decreases s.len(),
{
    if s.len() == 0 {
        Seq::empty()
    } else {
        escaped_char(s[0]) + escaped_text(s.drop_first())
    }
}

/// The JSON string literal of `s`: its escaped characters between double quotes, as
/// `serde_json::to_string` writes a string slice.
pub open spec fn json_string_text(s: Seq<char>) -> Seq<char> {
    seq!['"'] + escaped_text(s) + seq!['"']
}

/// The value of a hexadecimal digit of either case.
pub open spec fn hex_value(c: char) -> Option<nat> {
    if '0' <= c && c <= '9' {
        Some((c as u32 - '0' as u32) as nat)
    } else if 'a' <= c && c <= 'f' {
        Some((c as u32 - 'a' as u32 + 10) as nat)
    } else if 'A' <= c && c <= 'F' {
        Some((c as u32 - 'A' as u32 + 10) as nat)
    } else {
        None
    }
}

/// The code point written by the four hexadecimal digits of a `\u` escape.
pub open spec fn hex4_value(t: Seq<char>) -> Option<nat>
    recommends
        t.len() >= 4,
{
    match (hex_value(t[0]), hex_value(t[1]), hex_value(t[2]), hex_value(t[3])) {
        (Some(a), Some(b), Some(c), Some(d)) => Some(a * 4096 + b * 256 + c * 16 + d),
        _ => None,
    }
}

/// `c` followed by what decoding `t` from index `k` gives, as JSON string decoding goes.
pub open spec fn decode_then(c: char, t: Seq<char>, k: int) -> Option<(Seq<char>, nat)>
    recommends
        0 < k <= t.len(),
    decreases t.len(), 0int,
    when 0 < k <= t.len()
{
    match decode_string(t.skip(k)) {
        Some((rest, n)) => Some((seq![c] + rest, n + k as nat)),
        None => None,
    }
}

/// Reads the body of a JSON string literal whose opening quote has been read: the
/// characters it stands for and how many characters of `t` it spans, up to and with the
/// closing quote. `None` where `t` is not such a body. Surrogate pairs in `\u` escapes,
/// which serde_json never writes, are not read.
#[verifier::opaque]
pub open spec fn decode_string(t: Seq<char>) -> Option<(Seq<char>, nat)>
    decreases t.len(), 1int,
{
    if t.len() == 0 {
        None
    } else if t[0] == '"' {
        Some((Seq::empty(), 1))
    } else if t[0] == '\\' {
        if t.len() < 2 {
            None
        } else {
            let e = t[1];
            if e == '"' || e == '\\' || e == '/' {
                decode_then(e, t, 2)
            } else if e == 'b' {
                decode_then('\u{8}', t, 2)
            } else if e == 't' {
                decode_then('\t', t, 2)
            } else if e == 'n' {
                decode_then('\n', t, 2)
            } else if e == 'f' {
                decode_then('\u{c}', t, 2)
            } else if e == 'r' {
                decode_then('\r', t, 2)
            } else if e == 'u' && t.len() >= 6 {
                match hex4_value(t.subrange(2, 6)) {
                    Some(v) => if v < 0xD800 || (0xE000 <= v && v < 0x10000) {
                        decode_then(v as char, t, 6)
                    } else {
                        None
                    },
                    None => None,
                }
            } else {
                None
            }
        }
    } else if (t[0] as u32) < 0x20 {
        None
    } else {
        decode_then(t[0], t, 1)
    }
}

proof fn lemma_decode_escaped_char(c: char, rest: Seq<char>)
    ensures
        decode_string(escaped_char(c) + rest) == decode_then(
            c,
            escaped_char(c) + rest,
            escaped_char(c).len() as int,
        ),
        (escaped_char(c) + rest).skip(escaped_char(c).len() as int) == rest,
        escaped_char(c).len() >= 1,
{
    reveal(decode_string);
    let t = escaped_char(c) + rest;
    assert(t.skip(escaped_char(c).len() as int) =~= rest);
    if (c as u32) < 0x20 && c != '\u{8}' && c != '\t' && c != '\n' && c != '\u{c}' && c != '\r' {
        let hi = (c as u32 / 16) as nat;
        let lo = (c as u32 % 16) as nat;
        assert(hi < 2);
        assert(t.subrange(2, 6) =~= seq!['0', '0', hex_char(hi), hex_char(lo)]);
        assert(hex_value(hex_char(hi)) == Some(hi));
        assert(hex_value(hex_char(lo)) == Some(lo)) by {
            assert(lo < 16);
        }
        assert(hex4_value(t.subrange(2, 6)) == Some(hi * 16 + lo));
        assert(hi * 16 + lo == c as u32);
        assert((c as u32) as char == c);
    }
}

/// Decoding the escaped text of `s`, followed by a closing quote, gives back `s` and stops
/// right after that quote, whatever follows it.
pub proof fn lemma_decode_escaped_text(s: Seq<char>, after: Seq<char>)
    ensures
        decode_string(escaped_text(s) + seq!['"'] + after) == Some(
            (s, escaped_text(s).len() + 1),
        ),
    decreases s.len(),
{
    reveal(decode_string);
    if s.len() == 0 {
        assert(escaped_text(s) + seq!['"'] + after =~= seq!['"'] + after);
    } else {
        let c = s[0];
        let rest = escaped_text(s.drop_first()) + seq!['"'] + after;
        lemma_decode_escaped_text(s.drop_first(), after);
        assert(escaped_text(s) + seq!['"'] + after =~= escaped_char(c) + rest);
        lemma_decode_escaped_char(c, rest);
        assert(seq![c] + s.drop_first() =~= s);
    }
}

/// Calls `serde_json::to_string` on an unsigned integer. serde_json writes an unsigned
/// integer as its plain decimal numeral, and writing into its own buffer cannot fail.
#[verifier::external_body]
fn serde_number_text(n: usize) -> (r: String)
    ensures
        r@ == decimal_text(n as nat),
{
    match serde_json::to_string(&n) {
        Ok(text) => text,
        Err(_) => String::new(),
    }
}

/// Calls `serde_json::to_string` on a string slice. serde_json writes the string between
/// double quotes and escapes, byte by byte, `"`, `\\` and the bytes below 0x20 (the
/// five with a short form as `\b \t \n \f \r`, the rest as `\u00xx` in lower-case
/// hexadecimal); every other byte, and so every other character, is copied. Writing into
/// its own buffer cannot fail.
#[verifier::external_body]
fn serde_string_text(s: &str) -> (r: String)
    ensures
        r@ == json_string_text(s@),
{
    match serde_json::to_string(s) {
        Ok(text) => text,
        Err(_) => String::new(),
    }
}

/// Appends the decimal numeral of `n` to `out`.
pub fn push_number(out: &mut String, n: usize)
    ensures
        final(out)@ == old(out)@ + decimal_text(n as nat),
{
    let text = serde_number_text(n);
    out.append(text.as_str());
}

/// Appends `s` as a JSON string literal to `out`.
pub fn push_json_string(out: &mut String, s: &str)
    ensures
        final(out)@ == old(out)@ + json_string_text(s@),
{
    let text = serde_string_text(s);
    out.append(text.as_str());
}

} // verus!
