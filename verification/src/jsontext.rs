//! JSON string escaping and scanning, shared by the record codec and the
//! webhook payload: what a JSON string literal holds, how the writer
//! escapes, and that parsing inverts escaping.

use vstd::prelude::*;

verus! {

/// Whether the writer leaves a character as it stands: anything but the
/// quote, the backslash and the control range.
pub open spec fn plain_char(c: char) -> bool {
    c != '"' && c != '\\' && (c as u32) >= 0x20
}

/// The hexadecimal digit for a value below sixteen.
pub open spec fn hex_digit(n: u32) -> char {
    if n == 0 {
        '0'
    } else if n == 1 {
        '1'
    } else if n == 2 {
        '2'
    } else if n == 3 {
        '3'
    } else if n == 4 {
        '4'
    } else if n == 5 {
        '5'
    } else if n == 6 {
        '6'
    } else if n == 7 {
        '7'
    } else if n == 8 {
        '8'
    } else if n == 9 {
        '9'
    } else if n == 10 {
        'a'
    } else if n == 11 {
        'b'
    } else if n == 12 {
        'c'
    } else if n == 13 {
        'd'
    } else if n == 14 {
        'e'
    } else {
        'f'
    }
}

/// The value of a hexadecimal digit, or -1.
pub open spec fn hex_val(c: char) -> int {
    if c == '0' {
        0
    } else if c == '1' {
        1
    } else if c == '2' {
        2
    } else if c == '3' {
        3
    } else if c == '4' {
        4
    } else if c == '5' {
        5
    } else if c == '6' {
        6
    } else if c == '7' {
        7
    } else if c == '8' {
        8
    } else if c == '9' {
        9
    } else if c == 'a' {
        10
    } else if c == 'b' {
        11
    } else if c == 'c' {
        12
    } else if c == 'd' {
        13
    } else if c == 'e' {
        14
    } else if c == 'f' {
        15
    } else {
        -1
    }
}

/// How the writer escapes one character inside a JSON string literal.
pub open spec fn esc_char(c: char) -> Seq<char> {
    if c == '"' {
        seq!['\\', '"']
    } else if c == '\\' {
        seq!['\\', '\\']
    } else if c == '\n' {
        seq!['\\', 'n']
    } else if c == '\r' {
        seq!['\\', 'r']
    } else if c == '\t' {
        seq!['\\', 't']
    } else if (c as u32) < 0x20 {
        seq!['\\', 'u', '0', '0', hex_digit((c as u32) / 16), hex_digit((c as u32) % 16)]
    } else {
        seq![c]
    }
}

/// The escaped form of a whole string body.
pub open spec fn escape_str(s: Seq<char>) -> Seq<char>
    decreases s.len(),
{
    if s.len() == 0 {
        Seq::<char>::empty()
    } else {
        esc_char(s[0]) + escape_str(s.drop_first())
    }
}

/// The character named by a single-letter escape.
pub open spec fn esc_code(c: char) -> Option<char> {
    if c == '"' {
        Some('"')
    } else if c == '\\' {
        Some('\\')
    } else if c == '/' {
        Some('/')
    } else if c == 'n' {
        Some('\n')
    } else if c == 'r' {
        Some('\r')
    } else if c == 't' {
        Some('\t')
    } else if c == 'b' {
        Some('\u{8}')
    } else if c == 'f' {
        Some('\u{c}')
    } else {
        None
    }
}

/// Parse a JSON string body up to and including its closing quote: the
/// contents, and how many characters were consumed. Accepts the
/// single-letter escapes and `\u00XX`.
pub open spec fn parse_jstring(s: Seq<char>) -> Option<(Seq<char>, int)>
    decreases s.len(),
{
    if s.len() == 0 {
        None
    } else if s[0] == '"' {
        Some((Seq::<char>::empty(), 1))
    } else if s[0] == '\\' {
        if s.len() < 2 {
            None
        } else if s[1] == 'u' {
            if s.len() < 6 {
                None
            } else if s[2] == '0' && s[3] == '0' && hex_val(s[4]) >= 0 && hex_val(s[5]) >= 0 {
                match parse_jstring(s.skip(6)) {
                    Some((t, n)) => Some(
                        (seq![(((hex_val(s[4]) * 16 + hex_val(s[5])) as u32) as char)] + t, n + 6),
                    ),
                    None => None,
                }
            } else {
                None
            }
        } else {
            match esc_code(s[1]) {
                Some(c) => match parse_jstring(s.skip(2)) {
                    Some((t, n)) => Some((seq![c] + t, n + 2)),
                    None => None,
                },
                None => None,
            }
        }
    } else {
        match parse_jstring(s.skip(1)) {
            Some((t, n)) => Some((seq![s[0]] + t, n + 1)),
            None => None,
        }
    }
}

/// Parsing inverts escaping: the escaped body followed by the closing quote
/// and anything after it parses back to the unescaped contents, consuming
/// the body and the quote.
pub proof fn lemma_parse_escaped(sv: Seq<char>, rest: Seq<char>)
    ensures
        parse_jstring(escape_str(sv) + seq!['"'] + rest) == Some(
            (sv, escape_str(sv).len() as int + 1),
        ),
    decreases sv.len(),
{
    let w = escape_str(sv) + seq!['"'] + rest;
    if sv.len() == 0 {
        assert(w[0] == '"');
    } else {
        lemma_parse_escaped(sv.drop_first(), rest);
        let c = sv[0];
        let e = esc_char(c);
        let w2 = escape_str(sv.drop_first()) + seq!['"'] + rest;
        assert(w =~= e + w2);
        assert forall|j: int| 0 <= j < e.len() implies w[j] == e[j] by {}
        if c == '"' || c == '\\' || c == '\n' || c == '\r' || c == '\t' {
            assert(w.skip(2) =~= w2);
            assert(seq![c] + sv.drop_first() =~= sv);
        } else if (c as u32) < 0x20 {
            assert(w.skip(6) =~= w2);
            let cu = c as u32;
            let hi = cu / 16;
            let lo = cu % 16;
            assert(hi < 2 && lo < 16);
            assert(hex_val(hex_digit(hi)) == hi as int);
            assert(hex_val(hex_digit(lo)) == lo as int);
            assert(((hex_val(hex_digit(hi)) * 16 + hex_val(hex_digit(lo))) as u32) == cu);
            vstd::utf8::char_u32_cast(c, cu);
            assert((cu as char) == c);
            assert(seq![c] + sv.drop_first() =~= sv);
        } else {
            assert(w.skip(1) =~= w2);
            assert(seq![c] + sv.drop_first() =~= sv);
        }
    }
}

/// Escaping leaves a string of plain characters as it stands.
pub proof fn lemma_escape_plain(s: Seq<char>)
    requires
        forall|i: int| 0 <= i < s.len() ==> plain_char(#[trigger] s[i]),
    ensures
        escape_str(s) == s,
    decreases s.len(),
{
    if s.len() > 0 {
        assert(plain_char(s[0]));
        lemma_escape_plain(s.drop_first());
        assert(escape_str(s) =~= s);
    }
}

/// Relies on `core::str::Chars` (through `collect`): the characters of the
/// string, in order, as a vector.
#[verifier::external_body]
pub(crate) fn string_to_chars(s: &str) -> (v: Vec<char>)
    ensures
        v@ == s@,
{
    s.chars().collect()
}

/// Relies on `String::from_iter`: the string holding exactly the given
/// characters, in order.
#[verifier::external_body]
pub(crate) fn chars_to_string(v: &Vec<char>) -> (s: String)
    ensures
        s@ == v@,
{
    v.iter().collect()
}

/// Relies on `serde_json::from_str::<Value>`: whether the text is a single
/// well-formed JSON value, a function of the text alone.
pub uninterp spec fn json_valid(s: Seq<char>) -> bool;

/// Relies on `serde_json::from_str::<Value>` for validating client-supplied
/// bodies.
#[verifier::external_body]
pub(crate) fn check_json(s: &str) -> (r: bool)
    ensures
        r == json_valid(s@),
{
    serde_json::from_str::<serde_json::Value>(s).is_ok()
}

/// The writer's escape step, over the characters of a string.
pub fn escape_chars(s: &Vec<char>) -> (out: Vec<char>)
    ensures
        out@ == escape_str(s@),
{
    let mut out: Vec<char> = Vec::new();
    let mut i: usize = 0;
    proof {
        assert(escape_str(s@.take(0)) =~= Seq::<char>::empty());
    }
    while i < s.len()
        invariant
            i <= s@.len(),
            out@ == escape_str(s@.take(i as int)),
        decreases s@.len() - i,
    {
        let c = s[i];
        if c == '"' {
            out.push('\\');
            out.push('"');
        } else if c == '\\' {
            out.push('\\');
            out.push('\\');
        } else if c == '\n' {
            out.push('\\');
            out.push('n');
        } else if c == '\r' {
            out.push('\\');
            out.push('r');
        } else if c == '\t' {
            out.push('\\');
            out.push('t');
        } else if (c as u32) < 0x20 {
            out.push('\\');
            out.push('u');
            out.push('0');
            out.push('0');
            out.push(hex_digit_exec((c as u32) / 16));
            out.push(hex_digit_exec((c as u32) % 16));
        } else {
            out.push(c);
        }
        i = i + 1;
        proof {
            lemma_escape_take_step(s@, i as int);
        }
    }
    proof {
        assert(s@.take(s@.len() as int) =~= s@);
    }
    out
}

/// One more character extends the escaped prefix by its escape.
proof fn lemma_escape_take_step(s: Seq<char>, i: int)
    requires
        0 < i <= s.len(),
    ensures
        escape_str(s.take(i)) == escape_str(s.take(i - 1)) + esc_char(s[i - 1]),
    decreases i,
{
    if i == 1 {
        assert(s.take(1) =~= seq![s[0]]);
        assert(seq![s[0]].drop_first() =~= Seq::<char>::empty());
        assert(escape_str(seq![s[0]]) == esc_char(s[0]) + escape_str(Seq::<char>::empty()));
        assert(esc_char(s[0]) + Seq::<char>::empty() =~= esc_char(s[0]));
        assert(s.take(0) =~= Seq::<char>::empty());
        assert(escape_str(s.take(0)) + esc_char(s[0]) =~= esc_char(s[0]));
    } else {
        lemma_escape_take_step(s.drop_first(), i - 1);
        assert(s.take(i).drop_first() =~= s.drop_first().take(i - 1));
        assert(s.take(i - 1).drop_first() =~= s.drop_first().take(i - 2));
        assert(s.take(i)[0] == s[0]);
        assert(s.take(i - 1)[0] == s[0]);
        assert(s.drop_first()[i - 2] == s[i - 1]);
        assert(escape_str(s.take(i)) =~= esc_char(s[0]) + escape_str(s.drop_first().take(i - 1)));
        assert(escape_str(s.take(i - 1)) + esc_char(s[i - 1]) =~= esc_char(s[0]) + (escape_str(
            s.drop_first().take(i - 2),
        ) + esc_char(s.drop_first()[i - 2])));
    }
}

/// The hexadecimal digit for a value below sixteen.
fn hex_digit_exec(n: u32) -> (c: char)
    requires
        n < 16,
    ensures
        c == hex_digit(n),
{
    if n == 0 {
        '0'
    } else if n == 1 {
        '1'
    } else if n == 2 {
        '2'
    } else if n == 3 {
        '3'
    } else if n == 4 {
        '4'
    } else if n == 5 {
        '5'
    } else if n == 6 {
        '6'
    } else if n == 7 {
        '7'
    } else if n == 8 {
        '8'
    } else if n == 9 {
        '9'
    } else if n == 10 {
        'a'
    } else if n == 11 {
        'b'
    } else if n == 12 {
        'c'
    } else if n == 13 {
        'd'
    } else if n == 14 {
        'e'
    } else {
        'f'
    }
}

/// Escape a string for inclusion in a JSON string literal.
pub fn escape_json(s: &str) -> (r: String)
    ensures
        r@ == escape_str(s@),
{
    let v = string_to_chars(s);
    let out = escape_chars(&v);
    chars_to_string(&out)
}

/// The payload POSTed to the webhook: a JSON object with the message body
/// under the key `text`.
pub open spec fn spec_webhook_payload(body: Seq<char>) -> Seq<char> {
    "{\"text\":\""@ + escape_str(body) + "\"}"@
}

/// Wrap a message body as the webhook's JSON payload.
pub fn webhook_payload(body: &str) -> (r: String)
    ensures
        r@ == spec_webhook_payload(body@),
{
    let mut r = "{\"text\":\"".to_owned();
    r.append(escape_json(body).as_str());
    r.append("\"}");
    r
}

} // verus!
