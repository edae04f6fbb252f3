use crate::common::Version;
use crate::flatten::escape_char;
use crate::flatten::escape_json;
use crate::flatten::json_escaped;
use crate::reporter::str_eq_at;
use vstd::prelude::*;
use vstd::string::StrSliceExecFns;
use vstd::string::StringExecFns;

verus! {

/// The marker file's text for a version: the version object alone, compact,
/// with its three fields in a fixed order and their values JSON-quoted.
pub open spec fn marker_text(iid: Seq<char>, date: Seq<char>, sha: Seq<char>) -> Seq<char> {
    "{\"iid\":\""@ + json_escaped(iid) + "\",\"committed_date\":\""@ + json_escaped(date)
        + "\",\"sha\":\""@ + json_escaped(sha) + "\"}"@
}

/// Writes a version as the marker file's text.
pub fn encode_marker(v: &Version) -> (r: String)
    ensures
        r@ == marker_text(v.iid@, v.committed_date@, v.sha@),
{
    let mut r = String::new();
    r.append("{\"iid\":\"");
    let e1 = escape_json(v.iid.as_str());
    r.append(e1.as_str());
    r.append("\",\"committed_date\":\"");
    let e2 = escape_json(v.committed_date.as_str());
    r.append(e2.as_str());
    r.append("\",\"sha\":\"");
    let e3 = escape_json(v.sha.as_str());
    r.append(e3.as_str());
    r.append("\"}");
    proof {
        assert(r@ =~= marker_text(v.iid@, v.committed_date@, v.sha@));
    }
    r
}

/// Whether a character is one of the single-letter JSON escapes.
pub open spec fn is_simple_escape(c: char) -> bool {
    c == '"' || c == '\\' || c == '/' || c == 'b' || c == 't' || c == 'n' || c == 'f' || c == 'r'
}

/// The character a single-letter JSON escape denotes.
pub open spec fn simple_unescape(c: char) -> char {
    if c == '"' {
        '"'
    } else if c == '\\' {
        '\\'
    } else if c == '/' {
        '/'
    } else if c == 'b' {
        '\u{8}'
    } else if c == 't' {
        '\t'
    } else if c == 'n' {
        '\n'
    } else if c == 'f' {
        '\u{c}'
    } else {
        '\r'
    }
}

/// Whether a character is a lower-case hexadecimal digit.
pub open spec fn is_hex_digit(c: char) -> bool {
    (('0' as int) <= (c as int) && (c as int) <= ('9' as int)) || (('a' as int) <= (c as int) && (c
        as int) <= ('f' as int))
}

/// The value of a lower-case hexadecimal digit.
pub open spec fn hex_val(c: char) -> nat {
    if ('0' as int) <= (c as int) && (c as int) <= ('9' as int) {
        ((c as int) - ('0' as int)) as nat
    } else {
        ((c as int) - ('a' as int) + 10) as nat
    }
}

/// Reads a JSON string body up to its closing quote: the characters it
/// denotes, and what follows the quote. Accepts the single-letter escapes
/// and `\u00..` with lower-case digits; nothing for an unterminated or
/// ill-escaped body.
pub open spec fn scan_string(s: Seq<char>) -> Option<(Seq<char>, Seq<char>)>
    decreases s.len(),
{
    if s.len() == 0 {
        Option::None
    } else if s[0] == '"' {
        Option::Some((Seq::empty(), s.drop_first()))
    } else if s[0] == '\\' {
        if s.len() >= 2 && is_simple_escape(s[1]) {
            match scan_string(s.skip(2)) {
                Option::None => Option::None,
                Option::Some(p) => Option::Some((seq![simple_unescape(s[1])] + p.0, p.1)),
            }
        } else if s.len() >= 6 && s[1] == 'u' && s[2] == '0' && s[3] == '0' && is_hex_digit(s[4])
            && is_hex_digit(s[5]) {
            match scan_string(s.skip(6)) {
                Option::None => Option::None,
                Option::Some(p) => Option::Some(
                    (seq![(((16 * hex_val(s[4]) + hex_val(s[5])) as u8) as char)] + p.0, p.1),
                ),
            }
        } else {
            Option::None
        }
    } else {
        match scan_string(s.drop_first()) {
            Option::None => Option::None,
            Option::Some(p) => Option::Some((seq![s[0]] + p.0, p.1)),
        }
    }
}

/// The three field values of a marker file's text; nothing for text in any
/// other shape.
pub open spec fn marker_fields(s: Seq<char>) -> Option<(Seq<char>, Seq<char>, Seq<char>)> {
    let p0 = "{\"iid\":\""@;
    let p1 = ",\"committed_date\":\""@;
    let p2 = ",\"sha\":\""@;
    if p0.len() <= s.len() && s.take(p0.len() as int) == p0 {
        match scan_string(s.skip(p0.len() as int)) {
            Option::None => Option::None,
            Option::Some((iid, r1)) => {
                if p1.len() <= r1.len() && r1.take(p1.len() as int) == p1 {
                    match scan_string(r1.skip(p1.len() as int)) {
                        Option::None => Option::None,
                        Option::Some((date, r2)) => {
                            if p2.len() <= r2.len() && r2.take(p2.len() as int) == p2 {
                                match scan_string(r2.skip(p2.len() as int)) {
                                    Option::None => Option::None,
                                    Option::Some((sha, r3)) => {
                                        if r3 == "}"@ {
                                            Option::Some((iid, date, sha))
                                        } else {
                                            Option::None
                                        }
                                    },
                                }
                            } else {
                                Option::None
                            }
                        },
                    }
                } else {
                    Option::None
                }
            },
        }
    } else {
        Option::None
    }
}

fn hex_val_exec(c: char) -> (v: u8)
    requires
        is_hex_digit(c),
    ensures
        v as nat == hex_val(c),
        v < 16,
{
    let u = c as u32;
    if u <= 57 {
        (u - 48) as u8
    } else {
        (u - 87) as u8
    }
}

/// Reads a JSON string body from position `i`, mirroring `scan_string` on
/// the remaining text.
fn scan_string_exec(s: &str, i: usize) -> (r: Option<(String, usize)>)
    requires
        i <= s@.len(),
        s@.len() <= usize::MAX,
    ensures
        ({
            let g = scan_string(s@.skip(i as int));
            match r {
                Option::Some(p) => g matches Option::Some(q) && p.0@ == q.0 && p.1 <= s@.len()
                    && s@.skip(p.1 as int) == q.1,
                Option::None => g is None,
            }
        }),
    decreases s@.len() - i,
{
    let ghost rest = s@.skip(i as int);
    let n = s.unicode_len();
    if i >= n {
        assert(rest.len() == 0);
        return Option::None;
    }
    let c = s.get_char(i);
    proof {
        assert(rest[0] == s@[i as int]);
    }
    if c == '"' {
        proof {
            assert(rest.drop_first() =~= s@.skip(i + 1));
        }
        return Option::Some((String::new(), i + 1));
    }
    if c == '\\' {
        if i + 1 >= n {
            assert(rest.len() < 2);
            return Option::None;
        }
        let e = s.get_char(i + 1);
        proof {
            assert(rest[1] == s@[i + 1]);
        }
        if e == '"' || e == '\\' || e == '/' || e == 'b' || e == 't' || e == 'n' || e == 'f' || e
            == 'r' {
            let u: char = if e == '"' {
                '"'
            } else if e == '\\' {
                '\\'
            } else if e == '/' {
                '/'
            } else if e == 'b' {
                '\u{8}'
            } else if e == 't' {
                '\t'
            } else if e == 'n' {
                '\n'
            } else if e == 'f' {
                '\u{c}'
            } else {
                '\r'
            };
            assert(u == simple_unescape(rest[1]));
            proof {
                assert(rest.skip(2) =~= s@.skip(i + 2));
            }
            match scan_string_exec(s, i + 2) {
                Option::None => {
                    return Option::None;
                },
                Option::Some((tail, j)) => {
                    let mut out = String::new();
                    out.push(u);
                    out.append(tail.as_str());
                    proof {
                        assert(out@ =~= seq![simple_unescape(rest[1])] + tail@);
                    }
                    return Option::Some((out, j));
                },
            }
        }
        if e == 'u' && n - i > 5 {
            let d2 = s.get_char(i + 2);
            let d3 = s.get_char(i + 3);
            proof {
                assert(rest[2] == s@[i + 2]);
                assert(rest[3] == s@[i + 3]);
                assert(rest[4] == s@[i + 4]);
                assert(rest[5] == s@[i + 5]);
            }
            if d2 == '0' && d3 == '0' {
                let d4 = s.get_char(i + 4);
                let d5 = s.get_char(i + 5);
                let hi_ok = (d4 as u32 >= 48 && d4 as u32 <= 57) || (d4 as u32 >= 97 && d4 as u32
                    <= 102);
                let lo_ok = (d5 as u32 >= 48 && d5 as u32 <= 57) || (d5 as u32 >= 97 && d5 as u32
                    <= 102);
                if hi_ok && lo_ok {
                    let hi = hex_val_exec(d4);
                    let lo = hex_val_exec(d5);
                    let code: u8 = 16 * hi + lo;
                    let u: char = code as char;
                    assert(u == (((16 * hex_val(rest[4]) + hex_val(rest[5])) as u8) as char));
                    proof {
                        assert(rest.skip(6) =~= s@.skip(i + 6));
                    }
                    match scan_string_exec(s, i + 6) {
                        Option::None => {
                            return Option::None;
                        },
                        Option::Some((tail, j)) => {
                            let mut out = String::new();
                            out.push(u);
                            out.append(tail.as_str());
                            proof {
                                assert(out@ =~= seq![
                                    (((16 * hex_val(rest[4]) + hex_val(rest[5])) as u8) as char),
                                ] + tail@);
                            }
                            return Option::Some((out, j));
                        },
                    }
                }
            }
        }
        return Option::None;
    }
    proof {
        assert(rest.drop_first() =~= s@.skip(i + 1));
    }
    match scan_string_exec(s, i + 1) {
        Option::None => Option::None,
        Option::Some((tail, j)) => {
            let mut out = String::new();
            out.push(c);
            out.append(tail.as_str());
            proof {
                assert(out@ =~= seq![rest[0]] + tail@);
            }
            Option::Some((out, j))
        },
    }
}

/// Reads a marker file's text back into a version: exactly the texts in the
/// marker shape parse, and to exactly the fields they encode.
pub fn parse_marker(s: &str) -> (r: Option<Version>)
    ensures
        match r {
            Option::Some(v) => marker_fields(s@) == Option::Some(
                (v.iid@, v.committed_date@, v.sha@),
            ),
            Option::None => marker_fields(s@) is None,
        },
{
    let n = s.unicode_len();
    let p0 = "{\"iid\":\"";
    let p1 = ",\"committed_date\":\"";
    let p2 = ",\"sha\":\"";
    let m0 = p0.unicode_len();
    let m1 = p1.unicode_len();
    let m2 = p2.unicode_len();
    if n < m0 || !str_eq_at(s, 0, p0) {
        proof {
            if m0 <= n {
                assert(s@.take(p0@.len() as int) =~= s@.subrange(0, p0@.len() as int));
            }
        }
        return Option::None;
    }
    proof {
        assert(s@.take(p0@.len() as int) =~= s@.subrange(0, p0@.len() as int));
    }
    let (iid, j1) = match scan_string_exec(s, m0) {
        Option::None => {
            return Option::None;
        },
        Option::Some(p) => p,
    };
    let ghost r1 = s@.skip(j1 as int);
    if n - j1 < m1 || !str_eq_at(s, j1, p1) {
        proof {
            if m1 <= n - j1 {
                assert(r1.take(p1@.len() as int) =~= s@.subrange(j1 as int, j1 + p1@.len()));
            }
        }
        return Option::None;
    }
    proof {
        assert(r1.take(p1@.len() as int) =~= s@.subrange(j1 as int, j1 + p1@.len()));
        assert(r1.skip(p1@.len() as int) =~= s@.skip(j1 + p1@.len()));
    }
    let (date, j2) = match scan_string_exec(s, j1 + m1) {
        Option::None => {
            return Option::None;
        },
        Option::Some(p) => p,
    };
    let ghost r2 = s@.skip(j2 as int);
    if n - j2 < m2 || !str_eq_at(s, j2, p2) {
        proof {
            if m2 <= n - j2 {
                assert(r2.take(p2@.len() as int) =~= s@.subrange(j2 as int, j2 + p2@.len()));
            }
        }
        return Option::None;
    }
    proof {
        assert(r2.take(p2@.len() as int) =~= s@.subrange(j2 as int, j2 + p2@.len()));
        assert(r2.skip(p2@.len() as int) =~= s@.skip(j2 + p2@.len()));
    }
    let (sha, j3) = match scan_string_exec(s, j2 + m2) {
        Option::None => {
            return Option::None;
        },
        Option::Some(p) => p,
    };
    let ghost r3 = s@.skip(j3 as int);
    if n - j3 == 1 && s.get_char(j3) == '}' {
        proof {
            reveal_strlit("}");
            assert(r3.len() == 1);
            assert(r3[0] == s@[j3 as int]);
            assert(r3 =~= "}"@);
        }
        Option::Some(Version { iid, committed_date: date, sha })
    } else {
        proof {
            reveal_strlit("}");
            if r3 == "}"@ {
                assert(r3.len() == 1);
                assert(s@[j3 as int] == r3[0]);
            }
        }
        Option::None
    }
}


/// A character below 256 is recovered from its code point.
proof fn lemma_char_code_roundtrip(c: char)
    requires
        (c as u32) < 256,
    ensures
        (((c as u32) as u8) as char) == c,
{
}

/// The JSON escape of a string, unfolded from the front.
proof fn lemma_json_escaped_first(s: Seq<char>)
    requires
        s.len() > 0,
    ensures
        json_escaped(s) == escape_char(s[0]) + json_escaped(s.drop_first()),
    decreases s.len(),
{
    if s.len() == 1 {
        assert(s.drop_last() =~= Seq::<char>::empty());
        assert(s.drop_first() =~= Seq::<char>::empty());
        assert(json_escaped(Seq::<char>::empty()) == Seq::<char>::empty());
        assert(s.last() == s[0]);
        assert(Seq::<char>::empty() + escape_char(s[0]) =~= escape_char(s[0]) + Seq::<
            char,
        >::empty());
    } else {
        lemma_json_escaped_first(s.drop_last());
        assert(s.drop_last()[0] == s[0]);
        assert(s.drop_last().drop_first() =~= s.drop_first().drop_last());
        assert(s.drop_first().last() == s.last());
        assert((escape_char(s[0]) + json_escaped(s.drop_last().drop_first())) + escape_char(
            s.last(),
        ) =~= escape_char(s[0]) + (json_escaped(s.drop_first().drop_last()) + escape_char(
            s.drop_first().last(),
        )));
    }
}

/// A digit's hexadecimal character reads back as that digit.
proof fn lemma_hex_char_val(d: nat)
    requires
        d < 16,
    ensures
        is_hex_digit(crate::flatten::hex_char(d)),
        hex_val(crate::flatten::hex_char(d)) == d,
{
}

/// Scanning a JSON-escaped string consumes it up to its closing quote and
/// reads back exactly the characters that were escaped.
proof fn lemma_scan_escaped(content: Seq<char>, tail: Seq<char>)
    ensures
        scan_string(json_escaped(content) + seq!['"'] + tail) == Option::Some((content, tail)),
    decreases content.len(),
{
    let s = json_escaped(content) + seq!['"'] + tail;
    if content.len() == 0 {
        assert(json_escaped(content) == Seq::<char>::empty());
        assert(s =~= seq!['"'] + tail);
        assert(s[0] == '"');
        assert(s.drop_first() =~= tail);
        assert(content =~= Seq::<char>::empty());
    } else {
        let c = content[0];
        let rest = content.drop_first();
        lemma_json_escaped_first(content);
        lemma_scan_escaped(rest, tail);
        let s2 = json_escaped(rest) + seq!['"'] + tail;
        assert(s =~= escape_char(c) + s2);
        let u = c as u32;
        if c == '"' {
            reveal_strlit("\\\"");
            assert(escape_char(c) =~= seq!['\\', '"']);
            assert(s[0] == '\\' && s[1] == '"');
            assert(is_simple_escape(s[1]) && simple_unescape(s[1]) == c);
            assert(s.skip(2) =~= s2);
            assert(seq![c] + rest =~= content);
        } else if c == '\\' {
            reveal_strlit("\\\\");
            assert(escape_char(c) =~= seq!['\\', '\\']);
            assert(s[0] == '\\' && s[1] == '\\');
            assert(is_simple_escape(s[1]) && simple_unescape(s[1]) == c);
            assert(s.skip(2) =~= s2);
            assert(seq![c] + rest =~= content);
        } else if u == 8 {
            reveal_strlit("\\b");
            assert(escape_char(c) =~= seq!['\\', 'b']);
            assert(s[0] == '\\' && s[1] == 'b');
            assert(simple_unescape(s[1]) == '\u{8}');
            lemma_char_code_roundtrip(c);
            assert(((u as u8) as char) == c);
            assert((('\u{8}' as u32) as u8) as char == '\u{8}');
            assert(('\u{8}' as u32) == 8);
            assert('\u{8}' == c);
            assert(s.skip(2) =~= s2);
            assert(seq![c] + rest =~= content);
        } else if u == 9 {
            reveal_strlit("\\t");
            assert(escape_char(c) =~= seq!['\\', 't']);
            assert(s[0] == '\\' && s[1] == 't');
            assert(simple_unescape(s[1]) == '\t');
            lemma_char_code_roundtrip(c);
            assert(((u as u8) as char) == c);
            assert((('\t' as u32) as u8) as char == '\t');
            assert(('\t' as u32) == 9);
            assert('\t' == c);
            assert(s.skip(2) =~= s2);
            assert(seq![c] + rest =~= content);
        } else if u == 10 {
            reveal_strlit("\\n");
            assert(escape_char(c) =~= seq!['\\', 'n']);
            assert(s[0] == '\\' && s[1] == 'n');
            assert(simple_unescape(s[1]) == '\n');
            lemma_char_code_roundtrip(c);
            assert(((u as u8) as char) == c);
            assert((('\n' as u32) as u8) as char == '\n');
            assert(('\n' as u32) == 10);
            assert('\n' == c);
            assert(s.skip(2) =~= s2);
            assert(seq![c] + rest =~= content);
        } else if u == 12 {
            reveal_strlit("\\f");
            assert(escape_char(c) =~= seq!['\\', 'f']);
            assert(s[0] == '\\' && s[1] == 'f');
            assert(simple_unescape(s[1]) == '\u{c}');
            lemma_char_code_roundtrip(c);
            assert(((u as u8) as char) == c);
            assert((('\u{c}' as u32) as u8) as char == '\u{c}');
            assert(('\u{c}' as u32) == 12);
            assert('\u{c}' == c);
            assert(s.skip(2) =~= s2);
            assert(seq![c] + rest =~= content);
        } else if u == 13 {
            reveal_strlit("\\r");
            assert(escape_char(c) =~= seq!['\\', 'r']);
            assert(s[0] == '\\' && s[1] == 'r');
            assert(simple_unescape(s[1]) == '\r');
            lemma_char_code_roundtrip(c);
            assert(((u as u8) as char) == c);
            assert((('\r' as u32) as u8) as char == '\r');
            assert(('\r' as u32) == 13);
            assert('\r' == c);
            assert(s.skip(2) =~= s2);
            assert(seq![c] + rest =~= content);
        } else if u < 32 {
            reveal_strlit("\\u00");
            let hi = (u / 16) as nat;
            let lo = (u % 16) as nat;
            lemma_hex_char_val(hi);
            lemma_hex_char_val(lo);
            assert(escape_char(c) =~= seq![
                '\\',
                'u',
                '0',
                '0',
                crate::flatten::hex_char(hi),
                crate::flatten::hex_char(lo),
            ]);
            assert(s[0] == '\\' && s[1] == 'u' && s[2] == '0' && s[3] == '0');
            assert(s[4] == crate::flatten::hex_char(hi) && s[5] == crate::flatten::hex_char(lo));
            assert(!is_simple_escape(s[1]));
            assert(is_hex_digit(s[4]) && is_hex_digit(s[5]));
            assert(16 * hex_val(s[4]) + hex_val(s[5]) == u);
            lemma_char_code_roundtrip(c);
            assert(((u as u8) as char) == c);
            assert((((16 * hex_val(s[4]) + hex_val(s[5])) as u8) as char) == c);
            assert(s.skip(6) =~= s2);
            assert(seq![c] + rest =~= content);
        } else {
            assert(escape_char(c) =~= seq![c]);
            assert(s[0] == c);
            assert(s.drop_first() =~= s2);
            assert(seq![c] + rest =~= content);
        }
    }
}

/// Law: the marker file round-trips: a version written as marker text and
/// read back yields its three fields unchanged, for every version.
pub proof fn lemma_marker_round_trip(iid: Seq<char>, date: Seq<char>, sha: Seq<char>)
    ensures
        marker_fields(marker_text(iid, date, sha)) == Option::Some((iid, date, sha)),
{
    reveal_strlit("{\"iid\":\"");
    reveal_strlit("\",\"committed_date\":\"");
    reveal_strlit("\",\"sha\":\"");
    reveal_strlit("\"}");
    reveal_strlit(",\"committed_date\":\"");
    reveal_strlit(",\"sha\":\"");
    reveal_strlit("}");
    let p0 = "{\"iid\":\""@;
    let p1 = ",\"committed_date\":\""@;
    let p2 = ",\"sha\":\""@;
    let s = marker_text(iid, date, sha);
    let tail3 = "}"@;
    let tail2 = p2 + json_escaped(sha) + seq!['"'] + tail3;
    let tail1 = p1 + json_escaped(date) + seq!['"'] + tail2;
    assert("\",\"committed_date\":\""@ =~= seq!['"'] + p1);
    assert("\",\"sha\":\""@ =~= seq!['"'] + p2);
    assert("\"}"@ =~= seq!['"'] + tail3);
    assert(s.take(p0.len() as int) =~= p0);
    assert(s.skip(p0.len() as int) =~= json_escaped(iid) + seq!['"'] + tail1);
    lemma_scan_escaped(iid, tail1);
    assert(tail1.take(p1.len() as int) =~= p1);
    assert(tail1.skip(p1.len() as int) =~= json_escaped(date) + seq!['"'] + tail2);
    lemma_scan_escaped(date, tail2);
    assert(tail2.take(p2.len() as int) =~= p2);
    assert(tail2.skip(p2.len() as int) =~= json_escaped(sha) + seq!['"'] + tail3);
    lemma_scan_escaped(sha, tail3);
}


} // verus!
