use vstd::prelude::*;

use crate::entities::{error_json, message_json, success_json};
use crate::text::{decimal, digit_char, escape_char, escaped, hex_digit, int_text, quoted};

verus! {

/// The value of the hexadecimal digit `h`, or -1 where `h` is none.
pub open spec fn hex_value(h: char) -> int {
    let u = h as u32;
    if 48 <= u <= 57 {
        u - 48
    } else if 97 <= u <= 102 {
        u - 87
    } else if 65 <= u <= 70 {
        u - 55
    } else {
        -1
    }
}

/// The character that the escape at the start of `t` stands for, and the
/// escape's length.
pub open spec fn unescape_one(t: Seq<char>) -> Option<(char, int)> {
    if t.len() < 2 || t[0] != '\\' {
        None
    } else if t[1] == '"' || t[1] == '\\' || t[1] == '/' {
        Some((t[1], 2))
    } else if t[1] == 'b' {
        Some(('\u{8}', 2))
    } else if t[1] == 't' {
        Some(('\t', 2))
    } else if t[1] == 'n' {
        Some(('\n', 2))
    } else if t[1] == 'f' {
        Some(('\u{c}', 2))
    } else if t[1] == 'r' {
        Some(('\r', 2))
    } else if t[1] == 'u' && t.len() >= 6 && hex_value(t[2]) >= 0 && hex_value(t[3]) >= 0
        && hex_value(t[4]) >= 0 && hex_value(t[5]) >= 0 {
        let v = 4096 * hex_value(t[2]) + 256 * hex_value(t[3]) + 16 * hex_value(t[4])
            + hex_value(t[5]);
        if v < 0xD800 || v > 0xDFFF {
            Some(((v as u32) as char, 6))
        } else {
            None
        }
    } else {
        None
    }
}

/// The first character of a string body `t`, and how many characters of `t`
/// it takes; `None` where `t` is empty, or starts with the closing quote or
/// with what no string body holds.
pub open spec fn body_char(t: Seq<char>) -> Option<(char, int)> {
    if t.len() == 0 || t[0] == '"' {
        None
    } else if t[0] == '\\' {
        unescape_one(t)
    } else if (t[0] as u32) < 0x20 {
        None
    } else {
        Some((t[0], 1))
    }
}

/// The string whose body starts `t` and ends at the first unescaped quote,
/// and how many characters were read, the closing quote included.
pub open spec fn unquote_body(t: Seq<char>) -> Option<(Seq<char>, int)>
    decreases t.len(),
{
    if t.len() == 0 {
        None
    } else if t[0] == '"' {
        Some((Seq::empty(), 1))
    } else {
        match body_char(t) {
            None => None,
            Some((c, k)) => if 0 < k <= t.len() {
                match unquote_body(t.skip(k)) {
                    None => None,
                    Some((s, m)) => Some((seq![c] + s, k + m)),
                }
            } else {
                None
            },
        }
    }
}

/// The string of the JSON string literal at the start of `t`, and what
/// follows it.
pub open spec fn take_string(t: Seq<char>) -> Option<(Seq<char>, Seq<char>)> {
    if t.len() == 0 || t[0] != '"' {
        None
    } else {
        match unquote_body(t.skip(1)) {
            None => None,
            Some((s, m)) => Some((s, t.skip(1 + m))),
        }
    }
}

/// What follows `p` in `t`, where `t` starts with `p`.
pub open spec fn after(t: Seq<char>, p: Seq<char>) -> Option<Seq<char>> {
    if p.len() <= t.len() && t.take(p.len() as int) == p {
        Some(t.skip(p.len() as int))
    } else {
        None
    }
}

pub open spec fn is_digit(c: char) -> bool {
    48 <= (c as u32) <= 57
}

/// The length of the run of decimal digits that starts `t`.
pub open spec fn digit_run(t: Seq<char>) -> nat
    decreases t.len(),
{
    if t.len() > 0 && is_digit(t[0]) {
        1 + digit_run(t.skip(1))
    } else {
        0
    }
}

/// The value of the decimal digits `d`.
pub open spec fn digits_value(d: Seq<char>) -> int
    decreases d.len(),
{
    if d.len() == 0 {
        0
    } else {
        digits_value(d.drop_last()) * 10 + ((d.last() as u32) - 48)
    }
}

/// The JSON integer at the start of `t`, and what follows it.
pub open spec fn take_int(t: Seq<char>) -> Option<(int, Seq<char>)> {
    if t.len() > 0 && t[0] == '-' {
        let n = digit_run(t.skip(1)) as int;
        if n == 0 {
            None
        } else {
            Some((-digits_value(t.subrange(1, 1 + n)), t.skip(1 + n)))
        }
    } else {
        let n = digit_run(t);
        if n == 0 {
            None
        } else {
            Some((digits_value(t.take(n as int)), t.skip(n as int)))
        }
    }
}

/// Escaping a string works character by character from the front too.
pub proof fn lemma_escaped_cons(c: char, s: Seq<char>)
    ensures
        escaped(seq![c] + s) == escape_char(c) + escaped(s),
    decreases s.len(),
{
    if s.len() == 0 {
        assert((seq![c] + s).drop_last() =~= Seq::<char>::empty());
        assert((seq![c] + s).last() == c);
        assert(escaped(Seq::<char>::empty()) == Seq::<char>::empty());
        assert(escaped(seq![c] + s) =~= escape_char(c) + escaped(s));
    } else {
        assert((seq![c] + s).drop_last() =~= seq![c] + s.drop_last());
        lemma_escaped_cons(c, s.drop_last());
        assert(escaped(seq![c] + s) =~= escape_char(c) + escaped(s));
    }
}

proof fn lemma_hex_value(n: u32)
    requires
        n < 16,
    ensures
        hex_value(hex_digit(n)) == n,
{
}

/// The body reader takes back one escaped character.
proof fn lemma_body_char(c: char, more: Seq<char>)
    ensures
        body_char(escape_char(c) + more) == Some((c, escape_char(c).len() as int)),
{
    let t = escape_char(c) + more;
    assert(t.take(escape_char(c).len() as int) =~= escape_char(c));
    if (c as u32) < 0x20 && c != '\u{8}' && c != '\t' && c != '\n' && c != '\u{c}' && c != '\r' {
        let u = c as u32;
        lemma_hex_value(u / 16);
        lemma_hex_value(u % 16);
        assert(t[2] == '0' && t[3] == '0');
        assert(t[4] == hex_digit(u / 16) && t[5] == hex_digit(u % 16));
        let v = 4096 * hex_value(t[2]) + 256 * hex_value(t[3]) + 16 * hex_value(t[4])
            + hex_value(t[5]);
        assert(v == u);
        vstd::utf8::char_u32_cast(c, u);
    }
}

/// Reading back the body of a string literal gives the string.
pub proof fn lemma_unquote_body(s: Seq<char>, rest: Seq<char>)
    ensures
        unquote_body(escaped(s) + seq!['"'] + rest) == Some((s, escaped(s).len() + 1int)),
    decreases s.len(),
{
    let t = escaped(s) + seq!['"'] + rest;
    if s.len() == 0 {
        assert(t[0] == '"');
    } else {
        let c = s[0];
        let tail = s.skip(1);
        assert(s =~= seq![c] + tail);
        lemma_escaped_cons(c, tail);
        let e = escape_char(c);
        assert(t =~= e + (escaped(tail) + seq!['"'] + rest));
        lemma_body_char(c, escaped(tail) + seq!['"'] + rest);
        assert(t.skip(e.len() as int) =~= escaped(tail) + seq!['"'] + rest);
        lemma_unquote_body(tail, rest);
        assert(t[0] != '"');
    }
}

/// Reading back a string literal gives the string and what follows it.
pub proof fn lemma_take_string(s: Seq<char>, rest: Seq<char>)
    ensures
        take_string(quoted(s) + rest) == Some((s, rest)),
{
    let t = quoted(s) + rest;
    assert(t.skip(1) =~= escaped(s) + seq!['"'] + rest);
    lemma_unquote_body(s, rest);
    assert(t.skip(1 + escaped(s).len() as int + 1) =~= rest);
}

proof fn lemma_decimal_digits(n: nat)
    ensures
        decimal(n).len() > 0,
        forall|i: int| 0 <= i < decimal(n).len() ==> is_digit(#[trigger] decimal(n)[i]),
        digits_value(decimal(n)) == n,
    decreases n,
{
    if n >= 10 {
        lemma_decimal_digits(n / 10);
        assert(decimal(n).drop_last() =~= decimal(n / 10));
        assert(decimal(n).last() == digit_char((n % 10) as u32));
        assert(((n / 10) as int) * 10 + (n % 10) as int == n);
    } else {
        assert(decimal(n).drop_last() =~= Seq::<char>::empty());
        assert(digits_value(Seq::<char>::empty()) == 0);
    }
}

proof fn lemma_digit_run(d: Seq<char>, rest: Seq<char>)
    requires
        forall|i: int| 0 <= i < d.len() ==> is_digit(#[trigger] d[i]),
        rest.len() == 0 || !is_digit(rest[0]),
    ensures
        digit_run(d + rest) == d.len(),
    decreases d.len(),
{
    if d.len() > 0 {
        assert((d + rest).skip(1) =~= d.skip(1) + rest);
        lemma_digit_run(d.skip(1), rest);
    } else {
        assert(d + rest =~= rest);
    }
}

/// Reading back an integer gives it and what follows it.
pub proof fn lemma_take_int(i: int, rest: Seq<char>)
    requires
        rest.len() == 0 || !is_digit(rest[0]),
    ensures
        take_int(int_text(i) + rest) == Some((i, rest)),
{
    let t = int_text(i) + rest;
    if i < 0 {
        let d = decimal((-i) as nat);
        lemma_decimal_digits((-i) as nat);
        assert(t.skip(1) =~= d + rest);
        lemma_digit_run(d, rest);
        assert(t.subrange(1, 1 + d.len() as int) =~= d);
        assert(t.skip(1 + d.len() as int) =~= rest);
    } else {
        let d = decimal(i as nat);
        lemma_decimal_digits(i as nat);
        lemma_digit_run(d, rest);
        assert(t.take(d.len() as int) =~= d);
        assert(t.skip(d.len() as int) =~= rest);
    }
}

/// The plain and HTML texts of the message object at the start of `t`, and
/// what follows it.
pub open spec fn take_message(t: Seq<char>) -> Option<(Seq<char>, Seq<char>, Seq<char>)> {
    match after(t, "{\"plain\":"@) {
        None => None,
        Some(t1) => match take_string(t1) {
            None => None,
            Some((plain, t2)) => match after(t2, ",\"html\":"@) {
                None => None,
                Some(t3) => match take_string(t3) {
                    None => None,
                    Some((html, t4)) => match after(t4, "}"@) {
                        None => None,
                        Some(t5) => Some((plain, html, t5)),
                    },
                },
            },
        },
    }
}

/// The index, plain text and HTML of the error record whose JSON text is `t`.
pub open spec fn decode_error(t: Seq<char>) -> Option<(int, Seq<char>, Seq<char>)> {
    match after(t, "{\"index\":"@) {
        None => None,
        Some(t1) => match take_int(t1) {
            None => None,
            Some((index, t2)) => match after(t2, ",\"message\":"@) {
                None => None,
                Some(t3) => match take_message(t3) {
                    None => None,
                    Some((plain, html, t4)) => if t4 == "}"@ {
                        Some((index, plain, html))
                    } else {
                        None
                    },
                },
            },
        },
    }
}

/// The semantics, plain text and HTML of the success record whose JSON text
/// is `t`.
pub open spec fn decode_success(t: Seq<char>) -> Option<(Seq<char>, Seq<char>, Seq<char>)> {
    match after(t, "{\"semantics\":"@) {
        None => None,
        Some(t1) => match take_string(t1) {
            None => None,
            Some((semantics, t2)) => match after(t2, ",\"message\":"@) {
                None => None,
                Some(t3) => match take_message(t3) {
                    None => None,
                    Some((plain, html, t4)) => if t4 == "}"@ {
                        Some((semantics, plain, html))
                    } else {
                        None
                    },
                },
            },
        },
    }
}

proof fn lemma_after(p: Seq<char>, x: Seq<char>)
    ensures
        after(p + x, p) == Some(x),
{
    assert((p + x).take(p.len() as int) =~= p);
    assert((p + x).skip(p.len() as int) =~= x);
}

proof fn lemma_take_message(plain: Seq<char>, html: Seq<char>, rest: Seq<char>)
    ensures
        take_message(message_json(plain, html) + rest) == Some((plain, html, rest)),
{
    let p1 = "{\"plain\":"@;
    let p2 = ",\"html\":"@;
    let p3 = "}"@;
    let t = message_json(plain, html) + rest;
    let t1 = quoted(plain) + (p2 + quoted(html) + p3 + rest);
    assert(t =~= p1 + t1);
    lemma_after(p1, t1);
    lemma_take_string(plain, p2 + quoted(html) + p3 + rest);
    let t3 = quoted(html) + (p3 + rest);
    assert(p2 + quoted(html) + p3 + rest =~= p2 + t3);
    lemma_after(p2, t3);
    lemma_take_string(html, p3 + rest);
    lemma_after(p3, rest);
}

/// Decoding the JSON text of an error record gives back its index, plain
/// text and HTML.
pub proof fn error_json_round_trip(index: int, plain: Seq<char>, html: Seq<char>)
    ensures
        decode_error(error_json(index, plain, html)) == Some((index, plain, html)),
{
    let p1 = "{\"index\":"@;
    let p2 = ",\"message\":"@;
    let p3 = "}"@;
    let t = error_json(index, plain, html);
    let t2 = p2 + (message_json(plain, html) + p3);
    assert(t =~= p1 + (int_text(index) + t2));
    lemma_after(p1, int_text(index) + t2);
    reveal_strlit(",\"message\":");
    assert(t2[0] == ',');
    lemma_take_int(index, t2);
    lemma_after(p2, message_json(plain, html) + p3);
    lemma_take_message(plain, html, p3);
}

/// Decoding the JSON text of a success record gives back its semantics,
/// plain text and HTML.
pub proof fn success_json_round_trip(semantics: Seq<char>, plain: Seq<char>, html: Seq<char>)
    ensures
        decode_success(success_json(semantics, plain, html)) == Some((semantics, plain, html)),
{
    let p1 = "{\"semantics\":"@;
    let p2 = ",\"message\":"@;
    let p3 = "}"@;
    let t = success_json(semantics, plain, html);
    let t2 = p2 + (message_json(plain, html) + p3);
    assert(t =~= p1 + (quoted(semantics) + t2));
    lemma_after(p1, quoted(semantics) + t2);
    lemma_take_string(semantics, t2);
    lemma_after(p2, message_json(plain, html) + p3);
    lemma_take_message(plain, html, p3);
}

} // verus!
