use vstd::prelude::*;
use crate::codec::{
    decimal, decimal_text, escaped, escaped_char, hex_digit, json_quote, json_quoted, json_unquote,
    lemma_digit_round_trip, parse_decimal,
};
use crate::types::{Rank, TokenData};

verus! {

/// Where the string literal whose body starts at `i` ends (just past its
/// closing quote): a backslash takes the next character with it.
pub open spec fn string_end(s: Seq<char>, i: int) -> Option<int>
    decreases s.len() - i,
{
    if i < 0 || i >= s.len() {
        None
    } else if s[i] == '"' {
        Some(i + 1)
    } else if s[i] == '\\' {
        if i + 1 >= s.len() {
            None
        } else {
            string_end(s, i + 2)
        }
    } else {
        string_end(s, i + 1)
    }
}

proof fn lemma_escaped_split(x: Seq<char>)
    requires
        x.len() > 0,
    ensures
        escaped(x) == escaped_char(x[0]) + escaped(x.drop_first()),
{
}

/// Scanning an escaped text followed by a quote stops right after that quote.
pub proof fn lemma_string_end_escaped(s: Seq<char>, i: int, x: Seq<char>)
    requires
        0 <= i,
        i + escaped(x).len() + 1 <= s.len(),
        s.subrange(i, i + escaped(x).len() + 1) == escaped(x).push('"'),
    ensures
        string_end(s, i) == Some(i + escaped(x).len() + 1),
    decreases x.len(),
{
    let ex = escaped(x);
    assert(s[i + ex.len()] == ex.push('"')[ex.len() as int]);
    if x.len() == 0 {
        assert(s[i] == '"');
    } else {
        lemma_escaped_split(x);
        let c = x[0];
        let ec = escaped_char(c);
        let rest = escaped(x.drop_first());
        assert(ex == ec + rest);
        assert forall|k: int| 0 <= k < ec.len() implies s[i + k] == ec[k] by {
            assert(s.subrange(i, i + ex.len() + 1)[k] == ex.push('"')[k]);
        }
        let j = i + ec.len();
        assert(s.subrange(j, j + rest.len() + 1) =~= rest.push('"')) by {
            assert forall|k: int| 0 <= k < rest.len() + 1 implies s.subrange(j, j + rest.len() + 1)[k]
                == rest.push('"')[k] by {
                assert(s.subrange(i, i + ex.len() + 1)[ec.len() + k] == ex.push('"')[ec.len() + k]);
            }
        }
        lemma_string_end_escaped(s, j, x.drop_first());
        if c == '"' || c == '\\' || c == '\x08' || c == '\x0c' || c == '\n' || c == '\r' || c == '\t' {
            assert(s[i + 0] == ec[0]);
            assert(s[i] == '\\');
            assert(string_end(s, i) == string_end(s, i + 2));
        } else if (c as u32) < 0x20 {

            lemma_digit_round_trip((c as u32) as int / 16);
            lemma_digit_round_trip((c as u32) as int % 16);
            assert(s[i + 0] == ec[0]);
            assert(s[i + 4] == ec[4] && s[i + 5] == ec[5]);
            assert(s[i] == '\\');
            assert(s[i + 2] == '0' && s[i + 3] == '0');
            assert(string_end(s, i + 5) == string_end(s, i + 6));
            assert(string_end(s, i + 4) == string_end(s, i + 5));
            assert(string_end(s, i + 3) == string_end(s, i + 4));
            assert(string_end(s, i + 2) == string_end(s, i + 3));
            assert(string_end(s, i) == string_end(s, i + 2));
        } else {
            assert(ec[0] == c);
            assert(s[i + 0] == ec[0]);
            assert(string_end(s, i) == string_end(s, i + 1));
        }
    }
}

/// Where a JSON string literal that starts at `pos` ends.
pub open spec fn literal_end(s: Seq<char>, pos: int) -> Option<int> {
    if 0 <= pos < s.len() && s[pos] == '"' {
        string_end(s, pos + 1)
    } else {
        None
    }
}

/// A JSON string literal standing at `pos` is found whole.
pub proof fn lemma_literal_end(s: Seq<char>, pos: int, x: Seq<char>)
    requires
        0 <= pos,
        pos + json_quoted(x).len() <= s.len(),
        s.subrange(pos, pos + json_quoted(x).len()) == json_quoted(x),
    ensures
        literal_end(s, pos) == Some(pos + json_quoted(x).len()),
{
    let q = json_quoted(x);
    assert(s[pos] == q[0]);
    assert(s.subrange(pos + 1, pos + 1 + escaped(x).len() + 1) =~= escaped(x).push('"')) by {
        assert forall|k: int| 0 <= k < escaped(x).len() + 1 implies s.subrange(
            pos + 1,
            pos + 1 + escaped(x).len() + 1,
        )[k] == escaped(x).push('"')[k] by {
            assert(s.subrange(pos, pos + q.len())[k + 1] == q[k + 1]);
        }
    }
    lemma_string_end_escaped(s, pos + 1, x);
}

fn scan_literal(p: &str, n: usize, pos: usize) -> (r: Option<usize>)
    requires
        n == p@.len(),
    ensures
        match literal_end(p@, pos as int) {
            Some(e) => r == Some(e as usize),
            None => r is None,
        },
        r is Some ==> pos < r.unwrap() <= n,
{
    if pos >= n || p.get_char(pos) != '"' {
        return None;
    }
    let mut i: usize = pos + 1;
    while i < n
        invariant
            n == p@.len(),
            pos + 1 <= i <= n,
            p@[pos as int] == '"',
            string_end(p@, pos + 1) == string_end(p@, i as int),
        decreases n - i,
    {
        let c = p.get_char(i);
        if c == '"' {
            return Some(i + 1);
        } else if c == '\\' {
            if i + 1 >= n {
                return None;
            }
            i = i + 2;
        } else {
            i = i + 1;
        }
    }
    None
}

/// Index of the first `c` at or after `pos`, or the length if there is none.
fn find_char(p: &str, n: usize, pos: usize, c: char) -> (r: usize)
    requires
        n == p@.len(),
        pos <= n,
    ensures
        pos <= r <= n,
        forall|k: int| pos <= k < r ==> p@[k] != c,
        r < n ==> p@[r as int] == c,
{
    let mut i: usize = pos;
    while i < n
        invariant
            n == p@.len(),
            pos <= i <= n,
            forall|k: int| pos <= k < i ==> p@[k] != c,
        decreases n - i,
    {
        if p.get_char(i) == c {
            return i;
        }
        i = i + 1;
    }
    n
}

/// Whether `lit` stands in `p` at `pos`.
fn has_at(p: &str, n: usize, pos: usize, lit: &str) -> (r: bool)
    requires
        n == p@.len(),
    ensures
        r == (pos + lit@.len() <= n && p@.subrange(pos as int, pos + lit@.len()) == lit@),
{
    let len = lit.unicode_len();
    if pos > n || len > n - pos {
        return false;
    }
    let sub = p.substring_char(pos, pos + len).to_owned();
    let whole = lit.to_owned();
    sub == whole
}

/// The text of a rank in a payload, with the closing brace of the payload.
pub open spec fn rank_tail(rank: Rank) -> Seq<char> {
    match rank {
        Rank::User => "\"User\"}"@,
        Rank::Admin => "\"Admin\"}"@,
    }
}

/// The JSON object of a token's claims, in field order and without spaces.
#[verifier::opaque]
pub open spec fn payload_text(username: Seq<char>, user_id: Seq<char>, expires_at: u64, rank: Rank) -> Seq<char> {
    "{\"username\":"@ + json_quoted(username) + ",\"user_id\":"@ + json_quoted(user_id)
        + ",\"expires_at\":"@ + decimal(expires_at as nat) + ",\"rank\":"@ + rank_tail(rank)
}

/// Writes the claims of a token as its payload.
pub fn encode_payload(data: &TokenData) -> (r: String)
    ensures
        r@ == payload_text(data.username@, data.user_id@, data.expires_at, data.rank),
{
    reveal(payload_text);
    let mut r = String::from_str("{\"username\":");
    r.append(json_quote(data.username.as_str()).as_str());
    r.append(",\"user_id\":");
    r.append(json_quote(data.user_id.as_str()).as_str());
    r.append(",\"expires_at\":");
    r.append(decimal_text(data.expires_at).as_str());
    r.append(",\"rank\":");
    match data.rank {
        Rank::User => r.append("\"User\"}"),
        Rank::Admin => r.append("\"Admin\"}"),
    }
    r
}

proof fn lemma_decimal_digits(n: nat)
    ensures
        forall|k: int| 0 <= k < decimal(n).len() ==> decimal(n)[k] != ',',
    decreases n,
{
    if n >= 10 {
        lemma_decimal_digits(n / 10);
        lemma_digit_round_trip((n % 10) as int);
        assert(hex_digit((n % 10) as int) != ',');
        let d = decimal(n);
        assert forall|k: int| 0 <= k < d.len() implies d[k] != ',' by {
            if k < decimal(n / 10).len() {
                assert(d[k] == decimal(n / 10)[k]);
            }
        }
    } else {
        lemma_digit_round_trip(n as int);
        assert(hex_digit(n as int) != ',');
    }
}

proof fn lemma_part(t: Seq<char>, a: Seq<char>, b: Seq<char>, c: Seq<char>)
    requires
        t =~= a + b + c,
    ensures
        t.subrange(a.len() as int, (a.len() + b.len()) as int) == b,
{
    assert(t.subrange(a.len() as int, (a.len() + b.len()) as int) =~= b);
}

/// Where each part of a payload stands.
pub(crate) proof fn lemma_payload_layout(username: Seq<char>, user_id: Seq<char>, expires_at: u64, rank: Rank)
    ensures
        ({
            let t = payload_text(username, user_id, expires_at, rank);
            let o1 = "{\"username\":"@.len();
            let o2 = o1 + json_quoted(username).len();
            let o3 = o2 + ",\"user_id\":"@.len();
            let o4 = o3 + json_quoted(user_id).len();
            let o5 = o4 + ",\"expires_at\":"@.len();
            let o6 = o5 + decimal(expires_at as nat).len();
            let o7 = o6 + ",\"rank\":"@.len();
            &&& t.len() == o7 + rank_tail(rank).len()
            &&& t.subrange(0, o1 as int) == "{\"username\":"@
            &&& t.subrange(o1 as int, o2 as int) == json_quoted(username)
            &&& t.subrange(o2 as int, o3 as int) == ",\"user_id\":"@
            &&& t.subrange(o3 as int, o4 as int) == json_quoted(user_id)
            &&& t.subrange(o4 as int, o5 as int) == ",\"expires_at\":"@
            &&& t.subrange(o5 as int, o6 as int) == decimal(expires_at as nat)
            &&& (forall|k: int| o5 <= k < o6 ==> t[k] != ',')
            &&& t[o6 as int] == ','
            &&& t.subrange(o6 as int, o7 as int) == ",\"rank\":"@
            &&& t.subrange(o7 as int, t.len() as int) == rank_tail(rank)
        }),
{
    let l1 = "{\"username\":"@;
    let q1 = json_quoted(username);
    let l2 = ",\"user_id\":"@;
    let q2 = json_quoted(user_id);
    let l3 = ",\"expires_at\":"@;
    let d = decimal(expires_at as nat);
    let l4 = ",\"rank\":"@;
    let tail = rank_tail(rank);
    let t = payload_text(username, user_id, expires_at, rank);
    reveal(payload_text);
    assert(t == l1 + q1 + l2 + q2 + l3 + d + l4 + tail);
    lemma_part(t, Seq::empty(), l1, q1 + l2 + q2 + l3 + d + l4 + tail);
    lemma_part(t, l1, q1, l2 + q2 + l3 + d + l4 + tail);
    lemma_part(t, l1 + q1, l2, q2 + l3 + d + l4 + tail);
    lemma_part(t, l1 + q1 + l2, q2, l3 + d + l4 + tail);
    lemma_part(t, l1 + q1 + l2 + q2, l3, d + l4 + tail);
    lemma_part(t, l1 + q1 + l2 + q2 + l3, d, l4 + tail);
    lemma_part(t, l1 + q1 + l2 + q2 + l3 + d, l4, tail);
    lemma_part(t, l1 + q1 + l2 + q2 + l3 + d + l4, tail, Seq::empty());
    assert(t.subrange(0, l1.len() as int) =~= l1);
    lemma_decimal_digits(expires_at as nat);
    let o5 = (l1 + q1 + l2 + q2 + l3).len();
    assert forall|k: int| o5 <= k < o5 + d.len() implies t[k] != ',' by {
        assert(t[k] == t.subrange(o5 as int, (o5 + d.len()) as int)[k - o5]);
    }
    let o6 = o5 + d.len();
    reveal_strlit(",\"rank\":");
    assert(t[o6 as int] == t.subrange(o6 as int, (o6 + l4.len()) as int)[0]);
}

/// Whether `p` is the payload of some claims.
pub open spec fn is_payload(p: Seq<char>) -> bool {
    exists|u: Seq<char>, i: Seq<char>, e: u64, k: Rank| payload_text(u, i, e, k) == p
}

/// Reads the claims of a token back from its payload: exactly the texts that
/// `payload_text` gives are read, each as the claims it was written from.
#[verifier::spinoff_prover]
#[verifier::rlimit(50)]
pub fn decode_payload(p: &str) -> (r: Option<TokenData>)
    ensures
        r is Some <==> is_payload(p@),
        r is Some ==> payload_text(r.unwrap().username@, r.unwrap().user_id@, r.unwrap().expires_at, r.unwrap().rank) == p@,
        forall|u: Seq<char>, i: Seq<char>, e: u64, k: Rank| #[trigger] payload_text(u, i, e, k) == p@
            ==> r.is_some() && r.unwrap().username@ == u && r.unwrap().user_id@ == i
                && r.unwrap().expires_at == e && r.unwrap().rank == k,
{
    let n = p.unicode_len();
    let l1 = "{\"username\":";
    let l2 = ",\"user_id\":";
    let l3 = ",\"expires_at\":";
    let l4 = ",\"rank\":";
    if !has_at(p, n, 0, l1) {
        assert forall|u: Seq<char>, i: Seq<char>, e: u64, k: Rank| #[trigger] payload_text(u, i, e, k) != p@ by {
            lemma_payload_layout(u, i, e, k);
        }
        return None;
    }
    let a = l1.unicode_len();
    let e1 = match scan_literal(p, n, a) {
        Some(x) => x,
        None => {
            assert forall|u: Seq<char>, i: Seq<char>, e: u64, k: Rank| #[trigger] payload_text(u, i, e, k) != p@ by {
                lemma_payload_layout(u, i, e, k);
                if payload_text(u, i, e, k) == p@ {
                    lemma_literal_end(p@, a as int, u);
                }
            }
            return None;
        },
    };
    let username = match json_unquote(p.substring_char(a, e1)) {
        Some(x) => x,
        None => {
            assert forall|u: Seq<char>, i: Seq<char>, e: u64, k: Rank| #[trigger] payload_text(u, i, e, k) != p@ by {
                lemma_payload_layout(u, i, e, k);
                if payload_text(u, i, e, k) == p@ {
                    lemma_literal_end(p@, a as int, u);
                    assert(json_quoted(u) == p@.subrange(a as int, e1 as int));
                }
            }
            return None;
        },
    };
    if !has_at(p, n, e1, l2) {
        assert forall|u: Seq<char>, i: Seq<char>, e: u64, k: Rank| #[trigger] payload_text(u, i, e, k) != p@ by {
            lemma_payload_layout(u, i, e, k);
            if payload_text(u, i, e, k) == p@ {
                lemma_literal_end(p@, a as int, u);
            }
        }
        return None;
    }
    let b = e1 + l2.unicode_len();
    let e2 = match scan_literal(p, n, b) {
        Some(x) => x,
        None => {
            assert forall|u: Seq<char>, i: Seq<char>, e: u64, k: Rank| #[trigger] payload_text(u, i, e, k) != p@ by {
                lemma_payload_layout(u, i, e, k);
                if payload_text(u, i, e, k) == p@ {
                    lemma_literal_end(p@, a as int, u);
                    lemma_literal_end(p@, b as int, i);
                }
            }
            return None;
        },
    };
    let user_id = match json_unquote(p.substring_char(b, e2)) {
        Some(x) => x,
        None => {
            assert forall|u: Seq<char>, i: Seq<char>, e: u64, k: Rank| #[trigger] payload_text(u, i, e, k) != p@ by {
                lemma_payload_layout(u, i, e, k);
                if payload_text(u, i, e, k) == p@ {
                    lemma_literal_end(p@, a as int, u);
                    lemma_literal_end(p@, b as int, i);
                    assert(json_quoted(i) == p@.subrange(b as int, e2 as int));
                }
            }
            return None;
        },
    };
    if !has_at(p, n, e2, l3) {
        assert forall|u: Seq<char>, i: Seq<char>, e: u64, k: Rank| #[trigger] payload_text(u, i, e, k) != p@ by {
            lemma_payload_layout(u, i, e, k);
            if payload_text(u, i, e, k) == p@ {
                lemma_literal_end(p@, a as int, u);
                lemma_literal_end(p@, b as int, i);
            }
        }
        return None;
    }
    let c = e2 + l3.unicode_len();
    let d = find_char(p, n, c, ',');
    let expires_at = match parse_decimal(p.substring_char(c, d)) {
        Some(x) => x,
        None => {
            assert forall|u: Seq<char>, i: Seq<char>, e: u64, k: Rank| #[trigger] payload_text(u, i, e, k) != p@ by {
                lemma_payload_layout(u, i, e, k);
                if payload_text(u, i, e, k) == p@ {
                    lemma_literal_end(p@, a as int, u);
                    lemma_literal_end(p@, b as int, i);
                    assert(d == c + decimal(e as nat).len());
                    assert(decimal(e as nat) == p@.subrange(c as int, d as int));
                }
            }
            return None;
        },
    };
    if !has_at(p, n, d, l4) {
        assert forall|u: Seq<char>, i: Seq<char>, e: u64, k: Rank| #[trigger] payload_text(u, i, e, k) != p@ by {
            lemma_payload_layout(u, i, e, k);
            if payload_text(u, i, e, k) == p@ {
                lemma_literal_end(p@, a as int, u);
                lemma_literal_end(p@, b as int, i);
                assert(d == c + decimal(e as nat).len());
            }
        }
        return None;
    }
    let f = d + l4.unicode_len();
    let rank = if has_at(p, n, f, "\"User\"}") && f + "\"User\"}".unicode_len() == n {
        Rank::User
    } else if has_at(p, n, f, "\"Admin\"}") && f + "\"Admin\"}".unicode_len() == n {
        Rank::Admin
    } else {
        assert forall|u: Seq<char>, i: Seq<char>, e: u64, k: Rank| #[trigger] payload_text(u, i, e, k) != p@ by {
            lemma_payload_layout(u, i, e, k);
            if payload_text(u, i, e, k) == p@ {
                lemma_literal_end(p@, a as int, u);
                lemma_literal_end(p@, b as int, i);
                assert(d == c + decimal(e as nat).len());
            }
        }
        return None;
    };
    let r = TokenData { username, user_id, expires_at, rank };
    assert forall|u: Seq<char>, i: Seq<char>, e: u64, k: Rank| #[trigger] payload_text(u, i, e, k) == p@
        implies r.username@ == u && r.user_id@ == i && r.expires_at == e && r.rank == k by {
        lemma_payload_layout(u, i, e, k);
        lemma_literal_end(p@, a as int, u);
        lemma_literal_end(p@, b as int, i);
        assert(json_quoted(u) == p@.subrange(a as int, e1 as int));
        assert(json_quoted(i) == p@.subrange(b as int, e2 as int));
        assert(d == c + decimal(e as nat).len());
        assert(decimal(e as nat) == p@.subrange(c as int, d as int));
        reveal_strlit("\"User\"}");
        reveal_strlit("\"Admin\"}");
        if k == Rank::Admin {
            assert(p@.subrange(f as int, f + 7)[1] != "\"User\"}"@[1]);
        }
    }
    let again = encode_payload(&r);
    if again != p.to_owned() {
        return None;
    }
    Some(r)
}

proof fn lemma_escaped_char_prefix(s: Seq<char>, a: char, b: char)
    requires
        escaped_char(a).len() <= s.len(),
        escaped_char(b).len() <= s.len(),
        s.subrange(0, escaped_char(a).len() as int) == escaped_char(a),
        s.subrange(0, escaped_char(b).len() as int) == escaped_char(b),
    ensures
        a == b,
{
    broadcast use vstd::utf8::char_u32_cast;
    let ea = escaped_char(a);
    let eb = escaped_char(b);
    assert(s[0] == ea[0] && s[0] == eb[0]);
    if ea.len() > 1 && eb.len() > 1 {
        assert(s[1] == ea[1] && s[1] == eb[1]);
    }
    if ea.len() == 6 && eb.len() == 6 {
        assert(s[4] == ea[4] && s[4] == eb[4]);
        assert(s[5] == ea[5] && s[5] == eb[5]);
        let x = a as u32;
        let y = b as u32;
        lemma_digit_round_trip(x as int / 16);
        lemma_digit_round_trip(x as int % 16);
        lemma_digit_round_trip(y as int / 16);
        lemma_digit_round_trip(y as int % 16);
        assert(x == y);
        assert(a == (x as char));
    }
}

/// Different texts escape differently.
pub proof fn lemma_escaped_injective(x: Seq<char>, y: Seq<char>)
    requires
        escaped(x) == escaped(y),
    ensures
        x == y,
    decreases x.len(),
{
    if x.len() == 0 {
        if y.len() > 0 {
            lemma_escaped_split(y);
        }
        assert(y =~= x);
    } else {
        lemma_escaped_split(x);
        if y.len() == 0 {
            assert(escaped(y).len() == 0);
            assert(escaped_char(x[0]).len() > 0);
            assert(false);
        }
        lemma_escaped_split(y);
        let e = escaped(x);
        let ea = escaped_char(x[0]);
        let eb = escaped_char(y[0]);
        assert(e.subrange(0, ea.len() as int) =~= ea);
        assert(e.subrange(0, eb.len() as int) =~= eb);
        lemma_escaped_char_prefix(e, x[0], y[0]);
        assert(escaped(x.drop_first()) =~= e.subrange(ea.len() as int, e.len() as int));
        assert(escaped(y.drop_first()) =~= e.subrange(ea.len() as int, e.len() as int));
        lemma_escaped_injective(x.drop_first(), y.drop_first());
        assert(x =~= seq![x[0]] + x.drop_first());
        assert(y =~= seq![y[0]] + y.drop_first());
    }
}

proof fn lemma_decimal_injective(a: nat, b: nat)
    requires
        decimal(a) == decimal(b),
    ensures
        a == b,
    decreases a,
{
    if a >= 10 {
        assert(decimal(a / 10).len() >= 1) by { reveal_with_fuel(decimal, 2); }
    }
    if b >= 10 {
        assert(decimal(b / 10).len() >= 1) by { reveal_with_fuel(decimal, 2); }
    }
    let d = decimal(a);
    if a < 10 && b < 10 {
        lemma_digit_round_trip(a as int);
        lemma_digit_round_trip(b as int);
        assert(d[0] == hex_digit(a as int));
        assert(d[0] == hex_digit(b as int));
    } else if a < 10 {
        assert(decimal(b).len() >= 2);
    } else if b < 10 {
        assert(decimal(a).len() >= 2);
    } else {
        assert(d.last() == hex_digit((a % 10) as int));
        assert(d.last() == hex_digit((b % 10) as int));
        lemma_digit_round_trip((a % 10) as int);
        lemma_digit_round_trip((b % 10) as int);
        assert(decimal(a / 10) =~= d.drop_last());
        assert(decimal(b / 10) =~= d.drop_last());
        lemma_decimal_injective(a / 10, b / 10);
    }
}

/// Different claims give different payloads.
pub proof fn lemma_payload_injective(
    u1: Seq<char>, i1: Seq<char>, e1: u64, k1: Rank,
    u2: Seq<char>, i2: Seq<char>, e2: u64, k2: Rank,
)
    requires
        payload_text(u1, i1, e1, k1) == payload_text(u2, i2, e2, k2),
    ensures
        u1 == u2 && i1 == i2 && e1 == e2 && k1 == k2,
{
    let t = payload_text(u1, i1, e1, k1);
    lemma_payload_layout(u1, i1, e1, k1);
    lemma_payload_layout(u2, i2, e2, k2);
    let o1 = "{\"username\":"@.len() as int;
    lemma_literal_end(t, o1, u1);
    lemma_literal_end(t, o1, u2);
    let q = json_quoted(u1);
    assert(escaped(u1) =~= q.subrange(1, q.len() - 1));
    assert(escaped(u2) =~= json_quoted(u2).subrange(1, q.len() - 1));
    lemma_escaped_injective(u1, u2);
    let o3 = o1 + q.len() + ",\"user_id\":"@.len();
    lemma_literal_end(t, o3, i1);
    lemma_literal_end(t, o3, i2);
    let r = json_quoted(i1);
    assert(escaped(i1) =~= r.subrange(1, r.len() - 1));
    assert(escaped(i2) =~= json_quoted(i2).subrange(1, r.len() - 1));
    lemma_escaped_injective(i1, i2);
    let o5 = o3 + r.len() + ",\"expires_at\":"@.len();
    let l1 = decimal(e1 as nat).len() as int;
    let l2 = decimal(e2 as nat).len() as int;
    if l1 < l2 {
        assert(t[o5 + l1] == ',');
    } else if l2 < l1 {
        assert(t[o5 + l2] == ',');
    }
    lemma_decimal_injective(e1 as nat, e2 as nat);
    reveal_strlit("\"User\"}");
    reveal_strlit("\"Admin\"}");
}

} // verus!
