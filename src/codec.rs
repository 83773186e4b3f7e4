use vstd::prelude::*;

verus! {

/// The lowercase hexadecimal digit of a value below sixteen.
pub open spec fn hex_digit(n: int) -> char {
    if n < 10 {
        (48 + n) as char
    } else {
        (87 + n) as char
    }
}

/// The value of a hexadecimal digit of either case.
pub open spec fn digit_value(c: char) -> Option<int> {
    if '0' <= c && c <= '9' {
        Some(c as int - 48)
    } else if 'a' <= c && c <= 'f' {
        Some(c as int - 87)
    } else if 'A' <= c && c <= 'F' {
        Some(c as int - 55)
    } else {
        None
    }
}

/// Two lowercase hexadecimal digits for each byte, high digit first.
pub open spec fn hex_of(b: Seq<u8>) -> Seq<char>
    decreases b.len(),
{
    if b.len() == 0 {
        Seq::empty()
    } else {
        seq![hex_digit(b[0] as int / 16), hex_digit(b[0] as int % 16)] + hex_of(b.drop_first())
    }
}

/// The bytes that a text of hexadecimal digit pairs stands for, if it is one.
pub open spec fn unhex(s: Seq<char>) -> Option<Seq<u8>>
    decreases s.len(),
{
    if s.len() == 0 {
        Some(Seq::empty())
    } else if s.len() == 1 {
        None
    } else {
        match (digit_value(s[0]), digit_value(s[1]), unhex(s.subrange(2, s.len() as int))) {
            (Some(h), Some(l), Some(rest)) => Some(seq![(h * 16 + l) as u8] + rest),
            _ => None,
        }
    }
}

/// A lowercase hexadecimal digit.
pub open spec fn is_lower_hex_digit(c: char) -> bool {
    ('0' <= c && c <= '9') || ('a' <= c && c <= 'f')
}

/// `s` is the lowercase hex of the bytes it decodes to.
pub open spec fn canonical_hex(s: Seq<char>) -> bool {
    match unhex(s) {
        Some(b) => hex_of(b) == s,
        None => false,
    }
}

pub proof fn lemma_digit_round_trip(n: int)
    requires
        0 <= n < 16,
    ensures
        digit_value(hex_digit(n)) == Some(n),
        is_lower_hex_digit(hex_digit(n)),
        hex_digit(n) != '.',
{
}

/// Decoding what was encoded gives back the bytes.
pub proof fn lemma_unhex_hex_of(b: Seq<u8>)
    ensures
        unhex(hex_of(b)) == Some(b),
    decreases b.len(),
{
    if b.len() > 0 {
        let h = hex_of(b);
        let hi = b[0] as int / 16;
        let lo = b[0] as int % 16;
        lemma_digit_round_trip(hi);
        lemma_digit_round_trip(lo);
        assert(h.subrange(2, h.len() as int) =~= hex_of(b.drop_first()));
        lemma_unhex_hex_of(b.drop_first());
        assert(seq![(hi * 16 + lo) as u8] + b.drop_first() =~= b);
    }
}

/// Encoded bytes are lowercase digits only, so they hold no dot.
pub proof fn lemma_hex_of_digits(b: Seq<u8>)
    ensures
        forall|k: int| 0 <= k < hex_of(b).len() ==> is_lower_hex_digit(hex_of(b)[k]),
        forall|k: int| 0 <= k < hex_of(b).len() ==> hex_of(b)[k] != '.',
        hex_of(b).len() == 2 * b.len(),
    decreases b.len(),
{
    if b.len() > 0 {
        lemma_digit_round_trip(b[0] as int / 16);
        lemma_digit_round_trip(b[0] as int % 16);
        lemma_hex_of_digits(b.drop_first());
        let h = hex_of(b);
        assert forall|k: int| 0 <= k < h.len() implies is_lower_hex_digit(h[k]) && h[k] != '.' by {
            if k >= 2 {
                assert(h[k] == hex_of(b.drop_first())[k - 2]);
            }
        }
    }
}

/// Relies on hex::encode: two lowercase digits for each byte, in order.
#[verifier::external_body]
pub(crate) fn hex_encode(b: &[u8]) -> (r: String)
    ensures
        r@ == hex_of(b@),
{
    hex::encode(b)
}

/// Relies on hex::decode: a text of digit pairs of either case decodes to its
/// bytes, and any other text (odd length, another character) is refused.
#[verifier::external_body]
pub(crate) fn hex_decode(s: &str) -> (r: Option<Vec<u8>>)
    ensures
        match unhex(s@) {
            Some(b) => r matches Some(v) && v@ == b,
            None => r is None,
        },
{
    hex::decode(s).ok()
}

/// How a JSON string literal writes one character: quote, backslash and the
/// control characters are escaped, every other character stands for itself.
pub open spec fn escaped_char(c: char) -> Seq<char> {
    if c == '"' {
        seq!['\\', '"']
    } else if c == '\\' {
        seq!['\\', '\\']
    } else if c == '\x08' {
        seq!['\\', 'b']
    } else if c == '\x0c' {
        seq!['\\', 'f']
    } else if c == '\n' {
        seq!['\\', 'n']
    } else if c == '\r' {
        seq!['\\', 'r']
    } else if c == '\t' {
        seq!['\\', 't']
    } else if (c as u32) < 0x20 {
        seq!['\\', 'u', '0', '0', hex_digit((c as u32) as int / 16), hex_digit((c as u32) as int % 16)]
    } else {
        seq![c]
    }
}

pub open spec fn escaped(s: Seq<char>) -> Seq<char>
    decreases s.len(),
{
    if s.len() == 0 {
        Seq::empty()
    } else {
        escaped_char(s[0]) + escaped(s.drop_first())
    }
}

/// The JSON string literal of a text.
pub open spec fn json_quoted(s: Seq<char>) -> Seq<char> {
    seq!['"'] + escaped(s) + seq!['"']
}

/// Relies on serde_json::to_string on a `str`: the JSON string literal, escaped
/// as its `ESCAPE` table says. Writing to memory does not fail.
#[verifier::external_body]
pub(crate) fn json_quote(s: &str) -> (r: String)
    ensures
        r@ == json_quoted(s@),
{
    serde_json::to_string(s).unwrap_or_default()
}

/// Relies on serde_json::from_str into a `String`: a literal written as
/// `json_quoted` says reads back as its text.
#[verifier::external_body]
pub(crate) fn json_unquote(t: &str) -> (r: Option<String>)
    ensures
        forall|x: Seq<char>| #[trigger] json_quoted(x) == t@ ==> r.is_some() && r.unwrap()@ == x,
{
    serde_json::from_str::<String>(t).ok()
}

/// The decimal digits of a number, without leading zeros.
pub open spec fn decimal(n: nat) -> Seq<char>
    decreases n,
{
    if n < 10 {
        seq![hex_digit(n as int)]
    } else {
        decimal(n / 10) + seq![hex_digit((n % 10) as int)]
    }
}

/// Relies on `u64`'s `to_string`: its decimal digits.
#[verifier::external_body]
pub(crate) fn decimal_text(n: u64) -> (r: String)
    ensures
        r@ == decimal(n as nat),
{
    n.to_string()
}

/// Relies on `str::parse` into a `u64`: the decimal digits of a number read
/// back as that number.
#[verifier::external_body]
pub(crate) fn parse_decimal(t: &str) -> (r: Option<u64>)
    ensures
        forall|n: u64| #[trigger] decimal(n as nat) == t@ ==> r == Some(n),
{
    t.parse::<u64>().ok()
}

} // verus!
