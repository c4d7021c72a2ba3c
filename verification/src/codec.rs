//! The persisted layout of a record: a JSON object holding `url` (only when
//! attached), `status`, `reason` (only when non-empty) and the client's
//! `data` verbatim. The writer is canonical, the reader parses exactly that
//! shape, and parsing inverts writing.

use vstd::prelude::*;
use crate::jsontext::{
    chars_to_string, escape_json, escape_str, esc_code, hex_val, lemma_escape_plain,
    lemma_parse_escaped, parse_jstring, plain_char, string_to_chars,
};
use crate::record::UrlValue;
use crate::registry::RecordV;
use crate::status::Status;

verus! {

/// Whether `s` begins with `p`.
pub open spec fn starts_with(s: Seq<char>, p: Seq<char>) -> bool {
    p.len() <= s.len() && s.take(p.len() as int) == p
}

/// The status a persisted name denotes.
pub open spec fn status_of_name(n: Seq<char>) -> Option<Status> {
    if n == "Healthy"@ {
        Some(Status::Healthy)
    } else if n == "Unhealthy"@ {
        Some(Status::Unhealthy)
    } else if n == "Unreacheable"@ {
        Some(Status::Unreacheable)
    } else if n == "Removed"@ {
        Some(Status::Removed)
    } else {
        None
    }
}

/// The canonical serialized form of a record.
pub open spec fn spec_serialize(v: RecordV) -> Seq<char> {
    "{"@ + (match v.url {
        Some(u) => "\"url\":\""@ + escape_str(u) + "\","@,
        None => Seq::<char>::empty(),
    }) + "\"status\":\""@ + v.status.spec_name() + "\""@ + (if v.reason.len() > 0 {
        ",\"reason\":\""@ + escape_str(v.reason) + "\""@
    } else {
        Seq::<char>::empty()
    }) + ",\"data\":"@ + v.data + "}"@
}

/// The tail of a parse, after the status and an optional reason have been
/// read: expect the data field and the closing brace; the data text is
/// everything in between, verbatim.
pub open spec fn spec_deser_data(
    t: Seq<char>,
    url: Option<Seq<char>>,
    status: Status,
    reason: Seq<char>,
) -> Option<RecordV> {
    if starts_with(t, ",\"data\":"@) {
        let d = t.skip(8);
        if d.len() >= 1 && d.last() == '}' {
            Some(RecordV { url, status, reason, data: d.take(d.len() as int - 1) })
        } else {
            None
        }
    } else {
        None
    }
}

/// After the status: an optional reason field.
pub open spec fn spec_deser_reason(
    t: Seq<char>,
    url: Option<Seq<char>>,
    status: Status,
) -> Option<RecordV> {
    if starts_with(t, ",\"reason\":\""@) {
        match parse_jstring(t.skip(11)) {
            Some((re, n)) => spec_deser_data(t.skip(11 + n), url, status, re),
            None => None,
        }
    } else {
        spec_deser_data(t, url, status, Seq::<char>::empty())
    }
}

/// After the opening brace and an optional url field: the status field.
pub open spec fn spec_deser_status(t: Seq<char>, url: Option<Seq<char>>) -> Option<RecordV> {
    if starts_with(t, "\"status\":\""@) {
        match parse_jstring(t.skip(10)) {
            Some((name, n)) => match status_of_name(name) {
                Some(st) => spec_deser_reason(t.skip(10 + n), url, st),
                None => None,
            },
            None => None,
        }
    } else {
        None
    }
}

/// What a serialized record's text denotes, if it is well-formed.
pub open spec fn spec_deserialize(s: Seq<char>) -> Option<RecordV> {
    if s.len() == 0 || s[0] != '{' {
        None
    } else {
        let t1 = s.skip(1);
        if starts_with(t1, "\"url\":\""@) {
            match parse_jstring(t1.skip(7)) {
                Some((u, n)) => {
                    let t2 = t1.skip(7 + n);
                    if t2.len() > 0 && t2[0] == ',' {
                        spec_deser_status(t2.skip(1), Some(u))
                    } else {
                        None
                    }
                },
                None => None,
            }
        } else {
            spec_deser_status(t1, None)
        }
    }
}

/// Write a record in its persisted form.
pub fn serialize(v: &UrlValue) -> (r: String)
    ensures
        r@ == spec_serialize(v@),
{
    let mut r = "{".to_owned();
    match &v.url {
        Some(u) => {
            r.append("\"url\":\"");
            r.append(escape_json(u.as_str()).as_str());
            r.append("\",");
        },
        None => {},
    }
    r.append("\"status\":\"");
    r.append(v.status.name().as_str());
    r.append("\"");
    if !v.reason.as_str().is_empty() {
        r.append(",\"reason\":\"");
        r.append(escape_json(v.reason.as_str()).as_str());
        r.append("\"");
    }
    r.append(",\"data\":");
    r.append(v.data.as_str());
    r.append("}");
    proof {
        assert(r@ =~= spec_serialize(v@));
    }
    r
}

/// Whether the text beginning at `i` starts with the literal.
fn match_lit(v: &Vec<char>, i: usize, lit: &str) -> (r: bool)
    requires
        i <= v@.len(),
    ensures
        r == starts_with(v@.skip(i as int), lit@),
{
    let n = lit.unicode_len();
    let len = v.len();
    if len - i < n {
        return false;
    }
    let mut j: usize = 0;
    while j < n
        invariant
            j <= n,
            n == lit@.len(),
            len == v@.len(),
            i + n <= len,
            forall|k: int| 0 <= k < j ==> v@[i + k] == lit@[k],
        decreases n - j,
    {
        if v[i + j] != lit.get_char(j) {
            proof {
                assert(v@.skip(i as int)[j as int] != lit@[j as int]);
                assert(v@.skip(i as int).take(lit@.len() as int)[j as int] != lit@[j as int]);
            }
            return false;
        }
        j = j + 1;
    }
    proof {
        assert(v@.skip(i as int).take(lit@.len() as int) =~= lit@);
    }
    true
}

/// The value of a hexadecimal digit, or -1.
fn hex_val_exec(c: char) -> (r: i8)
    ensures
        r as int == hex_val(c),
{
    if c == '0' {
        0
    } else if c == '1' {
        1
    } else if c == '2' {
        2
    } else if c == '3' {
        3
    } else if c == '4' {
        4
    } else if c == '5' {
        5
    } else if c == '6' {
        6
    } else if c == '7' {
        7
    } else if c == '8' {
        8
    } else if c == '9' {
        9
    } else if c == 'a' {
        10
    } else if c == 'b' {
        11
    } else if c == 'c' {
        12
    } else if c == 'd' {
        13
    } else if c == 'e' {
        14
    } else if c == 'f' {
        15
    } else {
        -1
    }
}

/// Parse a JSON string body beginning at `i`, returning its contents and
/// the position just past the closing quote.
fn parse_jstring_exec(v: &Vec<char>, i: usize) -> (r: Option<(Vec<char>, usize)>)
    requires
        i <= v@.len(),
    ensures
        match r {
            Some((t, j)) => {
                &&& parse_jstring(v@.skip(i as int)) == Some((t@, j - i))
                &&& i < j <= v@.len()
            },
            None => parse_jstring(v@.skip(i as int)) is None,
        },
    decreases v@.len() - i,
{
    let ghost s = v@.skip(i as int);
    if i == v.len() {
        return None;
    }
    proof {
        assert(s[0] == v@[i as int]);
    }
    let c = v[i];
    if c == '"' {
        let out: Vec<char> = Vec::new();
        proof {
            assert(out@ =~= Seq::<char>::empty());
        }
        return Some((out, i + 1));
    }
    if c == '\\' {
        if v.len() - i < 2 {
            proof {
                assert(s.len() < 2);
            }
            return None;
        }
        proof {
            assert(s[1] == v@[i + 1]);
        }
        let d = v[i + 1];
        if d == 'u' {
            if v.len() - i < 6 {
                proof {
                    assert(s.len() < 6);
                }
                return None;
            }
            proof {
                assert(s[2] == v@[i + 2]);
                assert(s[3] == v@[i + 3]);
                assert(s[4] == v@[i + 4]);
                assert(s[5] == v@[i + 5]);
            }
            if v[i + 2] != '0' || v[i + 3] != '0' {
                return None;
            }
            let h1 = hex_val_exec(v[i + 4]);
            let h2 = hex_val_exec(v[i + 5]);
            if h1 < 0 || h2 < 0 {
                return None;
            }
            let code: u8 = (h1 as u8) * 16 + (h2 as u8);
            let ch = code as char;
            proof {
                assert(s.skip(6) =~= v@.skip(i + 6));
            }
            match parse_jstring_exec(v, i + 6) {
                Some((t, j)) => {
                    let mut t = t;
                    t.insert(0, ch);
                    proof {
                        assert((code as u32) == ((hex_val(s[4]) * 16 + hex_val(s[5])) as u32));
                        assert(ch == (((hex_val(s[4]) * 16 + hex_val(s[5])) as u32) as char));
                        assert(t@ =~= seq![ch] + t@.skip(1));
                    }
                    Some((t, j))
                },
                None => None,
            }
        } else {
            let ch: char;
            if d == '"' {
                ch = '"';
            } else if d == '\\' {
                ch = '\\';
            } else if d == '/' {
                ch = '/';
            } else if d == 'n' {
                ch = '\n';
            } else if d == 'r' {
                ch = '\r';
            } else if d == 't' {
                ch = '\t';
            } else if d == 'b' {
                ch = '\u{8}';
            } else if d == 'f' {
                ch = '\u{c}';
            } else {
                return None;
            }
            proof {
                assert(esc_code(s[1]) == Some(ch));
                assert(s.skip(2) =~= v@.skip(i + 2));
            }
            match parse_jstring_exec(v, i + 2) {
                Some((t, j)) => {
                    let mut t = t;
                    t.insert(0, ch);
                    proof {
                        assert(t@ =~= seq![ch] + t@.skip(1));
                    }
                    Some((t, j))
                },
                None => None,
            }
        }
    } else {
        proof {
            assert(s.skip(1) =~= v@.skip(i + 1));
        }
        match parse_jstring_exec(v, i + 1) {
            Some((t, j)) => {
                let mut t = t;
                t.insert(0, c);
                proof {
                    assert(t@ =~= seq![c] + t@.skip(1));
                }
                Some((t, j))
            },
            None => None,
        }
    }
}

/// The status a persisted name denotes.
fn status_from_name(n: &String) -> (r: Option<Status>)
    ensures
        r == status_of_name(n@),
{
    if *n == "Healthy".to_owned() {
        Some(Status::Healthy)
    } else if *n == "Unhealthy".to_owned() {
        Some(Status::Unhealthy)
    } else if *n == "Unreacheable".to_owned() {
        Some(Status::Unreacheable)
    } else if *n == "Removed".to_owned() {
        Some(Status::Removed)
    } else {
        None
    }
}

/// Read a record from its persisted form; `None` when the text is not a
/// record the writer produces.
#[verifier::rlimit(60)]
pub fn deserialize(s: &str) -> (r: Option<UrlValue>)
    ensures
        match r {
            Some(v) => spec_deserialize(s@) == Some(v@),
            None => spec_deserialize(s@) is None,
        },
{
    proof {
        reveal_strlit("\"url\":\"");
        reveal_strlit("\"status\":\"");
        reveal_strlit(",\"reason\":\"");
        reveal_strlit(",\"data\":");
    }
    let cv = string_to_chars(s);
    if cv.len() == 0 {
        return None;
    }
    if cv[0] != '{' {
        return None;
    }
    let ghost t1 = s@.skip(1);
    proof {
        assert(t1 =~= cv@.skip(1));
    }
    let url: Option<String>;
    let mut i: usize;
    if match_lit(&cv, 1, "\"url\":\"") {
        proof {
            assert(t1.skip(7) =~= cv@.skip(8));
        }
        match parse_jstring_exec(&cv, 8) {
            Some((u, j)) => {
                proof {
                    assert(t1.skip(7 + (j - 8)) =~= cv@.skip(j as int));
                }
                if j < cv.len() && cv[j] == ',' {
                    url = Some(chars_to_string(&u));
                    i = j + 1;
                    proof {
                        assert(cv@.skip(j as int)[0] == cv@[j as int]);
                        assert(cv@.skip(j as int).skip(1) =~= cv@.skip(j + 1));
                    }
                } else {
                    proof {
                        if j < cv.len() {
                            assert(cv@.skip(j as int)[0] == cv@[j as int]);
                        }
                    }
                    return None;
                }
            },
            None => {
                return None;
            },
        }
    } else {
        url = None;
        i = 1;
    }
    let ghost gurl = (match &url {
        Some(u) => Some(u@),
        None => None::<Seq<char>>,
    });
    let ghost t = cv@.skip(i as int);
    proof {
        assert(spec_deserialize(s@) == spec_deser_status(t, gurl));
    }
    // the status field
    if !match_lit(&cv, i, "\"status\":\"") {
        return None;
    }
    proof {
        assert(t.skip(10) =~= cv@.skip(i + 10));
    }
    let status: Status;
    let j2: usize;
    match parse_jstring_exec(&cv, i + 10) {
        Some((nm, j)) => {
            let name = chars_to_string(&nm);
            match status_from_name(&name) {
                Some(st) => {
                    status = st;
                    j2 = j;
                    proof {
                        assert(t.skip(10 + (j - (i + 10))) =~= cv@.skip(j as int));
                    }
                },
                None => {
                    return None;
                },
            }
        },
        None => {
            return None;
        },
    }
    let ghost t3 = cv@.skip(j2 as int);
    proof {
        assert(spec_deser_status(t, gurl) == spec_deser_reason(t3, gurl, status));
    }
    // the optional reason field
    let reason: String;
    let i4: usize;
    if match_lit(&cv, j2, ",\"reason\":\"") {
        proof {
            assert(t3.skip(11) =~= cv@.skip(j2 + 11));
        }
        match parse_jstring_exec(&cv, j2 + 11) {
            Some((re, j)) => {
                reason = chars_to_string(&re);
                i4 = j;
                proof {
                    assert(t3.skip(11 + (j - (j2 + 11))) =~= cv@.skip(j as int));
                }
            },
            None => {
                return None;
            },
        }
    } else {
        reason = String::new();
        i4 = j2;
    }
    let ghost t4 = cv@.skip(i4 as int);
    proof {
        assert(spec_deser_reason(t3, gurl, status) == spec_deser_data(t4, gurl, status, reason@));
    }
    // the data field and the closing brace
    if !match_lit(&cv, i4, ",\"data\":") {
        return None;
    }
    let dstart = i4 + 8;
    proof {
        assert(t4.skip(8) =~= cv@.skip(dstart as int));
    }
    if cv.len() - dstart < 1 {
        return None;
    }
    proof {
        assert(cv@.skip(dstart as int).last() == cv@[cv@.len() - 1]);
    }
    if cv[cv.len() - 1] != '}' {
        return None;
    }
    let mut data_chars: Vec<char> = Vec::new();
    let mut k: usize = dstart;
    let dend = cv.len() - 1;
    while k < dend
        invariant
            dstart <= k <= dend,
            dend < cv@.len(),
            data_chars@ =~= cv@.subrange(dstart as int, k as int),
        decreases dend - k,
    {
        data_chars.push(cv[k]);
        k = k + 1;
    }
    let data = chars_to_string(&data_chars);
    proof {
        let d = cv@.skip(dstart as int);
        assert(data@ =~= d.take(d.len() as int - 1));
    }
    Some(UrlValue { url, status, reason, data })
}

/// The serialized reason field: present only when non-empty.
pub open spec fn reason_part(re: Seq<char>) -> Seq<char> {
    if re.len() > 0 {
        ",\"reason\":\""@ + escape_str(re) + "\""@
    } else {
        Seq::<char>::empty()
    }
}

/// The serialized url field: present only when attached.
pub open spec fn url_part(url: Option<Seq<char>>) -> Seq<char> {
    match url {
        Some(u) => "\"url\":\""@ + escape_str(u) + "\","@,
        None => Seq::<char>::empty(),
    }
}

/// A status name consists of plain characters and is read back as the
/// status it names.
proof fn lemma_status_name_facts(st: Status)
    ensures
        forall|i: int| 0 <= i < st.spec_name().len() ==> plain_char(#[trigger] st.spec_name()[i]),
        status_of_name(st.spec_name()) == Some(st),
{
    reveal_strlit("Healthy");
    reveal_strlit("Unhealthy");
    reveal_strlit("Unreacheable");
    reveal_strlit("Removed");
    match st {
        Status::Healthy => {
            assert forall|i: int| 0 <= i < "Healthy"@.len() implies plain_char(
                #[trigger] "Healthy"@[i],
            ) by {}
        },
        Status::Unhealthy => {
            assert forall|i: int| 0 <= i < "Unhealthy"@.len() implies plain_char(
                #[trigger] "Unhealthy"@[i],
            ) by {}
            assert("Unhealthy"@ != "Healthy"@);
        },
        Status::Unreacheable => {
            assert forall|i: int| 0 <= i < "Unreacheable"@.len() implies plain_char(
                #[trigger] "Unreacheable"@[i],
            ) by {}
            assert("Unreacheable"@ != "Healthy"@);
            assert("Unreacheable"@ != "Unhealthy"@);
        },
        Status::Removed => {
            assert forall|i: int| 0 <= i < "Removed"@.len() implies plain_char(
                #[trigger] "Removed"@[i],
            ) by {}
            assert("Removed"@[0] != "Healthy"@[0]);
            assert("Removed"@ != "Healthy"@);
            assert("Removed"@ != "Unhealthy"@);
            assert("Removed"@ != "Unreacheable"@);
        },
    }
}

proof fn lemma_rt_data(url: Option<Seq<char>>, st: Status, re: Seq<char>, data: Seq<char>)
    ensures
        spec_deser_data(",\"data\":"@ + data + "}"@, url, st, re) == Some(
            RecordV { url, status: st, reason: re, data },
        ),
{
    reveal_strlit(",\"data\":");
    reveal_strlit("}");
    let t = ",\"data\":"@ + data + "}"@;
    assert(t.take(8) =~= ",\"data\":"@);
    assert(t.skip(8) =~= data + "}"@);
    let d = t.skip(8);
    assert(d.last() == '}');
    assert(d.take(d.len() as int - 1) =~= data);
}

proof fn lemma_rt_reason(url: Option<Seq<char>>, st: Status, re: Seq<char>, data: Seq<char>)
    ensures
        spec_deser_reason(reason_part(re) + (",\"data\":"@ + data + "}"@), url, st) == Some(
            RecordV { url, status: st, reason: re, data },
        ),
{
    reveal_strlit(",\"reason\":\"");
    reveal_strlit(",\"data\":");
    reveal_strlit("\"");
    let tail = ",\"data\":"@ + data + "}"@;
    let t = reason_part(re) + tail;
    if re.len() > 0 {
        assert(t.take(11) =~= ",\"reason\":\""@);
        assert(starts_with(t, ",\"reason\":\""@));
        assert(t.skip(11) =~= escape_str(re) + seq!['"'] + tail);
        lemma_parse_escaped(re, tail);
        assert(parse_jstring(t.skip(11)) == Some((re, escape_str(re).len() as int + 1)));
        assert(t.skip(11 + (escape_str(re).len() as int + 1)) =~= tail);
        lemma_rt_data(url, st, re, data);
        assert(spec_deser_data(t.skip(11 + (escape_str(re).len() as int + 1)), url, st, re)
            == Some(RecordV { url, status: st, reason: re, data }));
    } else {
        assert(re =~= Seq::<char>::empty());
        assert(t =~= tail);
        assert(t[2] == 'd');
        if starts_with(t, ",\"reason\":\""@) {
            assert(t[2] == ",\"reason\":\""@[2]);
            assert(false);
        }
        lemma_rt_data(url, st, re, data);
    }
}

proof fn lemma_rt_status(url: Option<Seq<char>>, st: Status, re: Seq<char>, data: Seq<char>)
    ensures
        spec_deser_status(
            "\"status\":\""@ + st.spec_name() + "\""@ + reason_part(re) + (",\"data\":"@ + data
                + "}"@),
            url,
        ) == Some(RecordV { url, status: st, reason: re, data }),
{
    reveal_strlit("\"status\":\"");
    reveal_strlit("\"");
    let name = st.spec_name();
    let tail = reason_part(re) + (",\"data\":"@ + data + "}"@);
    let t = "\"status\":\""@ + name + "\""@ + reason_part(re) + (",\"data\":"@ + data + "}"@);
    assert(t.take(10) =~= "\"status\":\""@);
    lemma_status_name_facts(st);
    lemma_escape_plain(name);
    assert(t.skip(10) =~= escape_str(name) + seq!['"'] + tail);
    lemma_parse_escaped(name, tail);
    assert(t.skip(10 + (name.len() as int + 1)) =~= tail);
    lemma_rt_reason(url, st, re, data);
}

/// Parsing inverts writing: every record reads back from its serialized
/// form exactly as it was.
#[verifier::rlimit(60)]
pub proof fn lemma_serialize_deserialize(v: RecordV)
    ensures
        spec_deserialize(spec_serialize(v)) == Some(v),
{
    reveal_strlit("{");
    reveal_strlit("\"url\":\"");
    reveal_strlit("\",");
    reveal_strlit("\"status\":\"");
    let w = spec_serialize(v);
    let statuspart = "\"status\":\""@ + v.status.spec_name() + "\""@ + reason_part(v.reason) + (
    ",\"data\":"@ + v.data + "}"@);
    assert(w =~= "{"@ + url_part(v.url) + statuspart);
    assert(w[0] == '{');
    let t1 = w.skip(1);
    assert(t1 =~= url_part(v.url) + statuspart);
    match v.url {
        Some(u) => {
            assert(t1.take(7) =~= "\"url\":\""@);
            assert(t1.skip(7) =~= escape_str(u) + seq!['"'] + (seq![','] + statuspart));
            lemma_parse_escaped(u, seq![','] + statuspart);
            let n = escape_str(u).len() as int + 1;
            let t2 = t1.skip(7 + n);
            assert(t2 =~= seq![','] + statuspart);
            assert(t2[0] == ',');
            assert(t2.skip(1) =~= statuspart);
            lemma_rt_status(Some(u), v.status, v.reason, v.data);
        },
        None => {
            assert(t1 =~= statuspart);
            assert(t1[1] == 's');
            if starts_with(t1, "\"url\":\""@) {
                assert(t1[1] == "\"url\":\""@[1]);
                assert(false);
            }
            lemma_rt_status(None, v.status, v.reason, v.data);
        },
    }
    assert(spec_deserialize(w) == Some(RecordV { url: v.url, status: v.status, reason: v.reason, data: v.data }));
    assert(v == RecordV { url: v.url, status: v.status, reason: v.reason, data: v.data });
}

/// Every record text in the store — a writer's output — re-serializes to
/// itself after a read.
pub proof fn lemma_store_round_trip(v: RecordV)
    ensures
        ({
            let text = spec_serialize(v);
            &&& spec_deserialize(text) matches Some(m)
            &&& spec_deserialize(text) == Some(v)
            &&& spec_serialize(spec_deserialize(text)->0) == text
        }),
{
    lemma_serialize_deserialize(v);
}

} // verus!
