//! The record decoder: turns the external tool's line-delimited record
//! output into container records.
//!
//! Each line is expected to hold one flat record object: named fields in
//! braces, every name and value a double-quoted string. The accepted
//! escape sequences are the usual single-character ones and four-digit
//! unicode escapes for characters up to the ASCII range; a record must
//! carry all seven schema fields (looked up by their first occurrence) and
//! a non-empty identifier. Any line that does not conform yields no record
//! and is silently skipped, without disturbing the lines around it.

use vstd::prelude::*;
use vstd::string::{StrSliceExecFns, StringExecFns};
use crate::record::{ContainerRecord, RecordView};

verus! {

/// Whitespace accepted between the tokens of a record line.
pub open spec fn is_record_ws(c: char) -> bool {
    c == ' ' || c == '\t' || c == '\r' || c == '\n'
}

/// The first position at or after `i` holding something other than
/// whitespace (or the end of the line).
pub open spec fn spec_skip_ws(s: Seq<char>, i: int) -> int
    decreases s.len() - i when 0 <= i <= s.len()
{
    if i < s.len() && is_record_ws(s[i]) {
        spec_skip_ws(s, i + 1)
    } else {
        i
    }
}

pub proof fn lemma_skip_ws_bounds(s: Seq<char>, i: int)
    requires
        0 <= i <= s.len(),
    ensures
        i <= spec_skip_ws(s, i) <= s.len(),
    decreases s.len() - i,
{
    if i < s.len() && is_record_ws(s[i]) {
        lemma_skip_ws_bounds(s, i + 1);
    }
}

/// What a single-character escape stands for, if it is one.
pub open spec fn spec_escape_char(c: char) -> Option<char> {
    if c == '"' {
        Some('"')
    } else if c == '\\' {
        Some('\\')
    } else if c == '/' {
        Some('/')
    } else if c == 'b' {
        Some('\u{0008}')
    } else if c == 'f' {
        Some('\u{000C}')
    } else if c == 'n' {
        Some('\n')
    } else if c == 'r' {
        Some('\r')
    } else if c == 't' {
        Some('\t')
    } else {
        None
    }
}

/// The value of one hexadecimal digit, if the character is one.
pub open spec fn spec_hex_val(c: char) -> Option<u32> {
    let u = c as u32;
    if 48 <= u && u <= 57 {
        Some((u - 48) as u32)
    } else if 97 <= u && u <= 102 {
        Some((u - 87) as u32)
    } else if 65 <= u && u <= 70 {
        Some((u - 55) as u32)
    } else {
        None
    }
}

/// The value of the four hexadecimal digits starting at `i`, if all four
/// are digits.
pub open spec fn spec_hex4(s: Seq<char>, i: int) -> Option<u32>
    recommends
        0 <= i,
        i + 4 <= s.len(),
{
    if spec_hex_val(s[i]) is Some && spec_hex_val(s[i + 1]) is Some && spec_hex_val(
        s[i + 2],
    ) is Some && spec_hex_val(s[i + 3]) is Some {
        Some(
            (spec_hex_val(s[i])->0 * 4096 + spec_hex_val(s[i + 1])->0 * 256 + spec_hex_val(
                s[i + 2],
            )->0 * 16 + spec_hex_val(s[i + 3])->0) as u32,
        )
    } else {
        None
    }
}

/// The body of a quoted string starting at `i` (just past the opening
/// quote): the captured content with escapes resolved, and the position
/// just past the closing quote. Raw control characters, unknown escapes
/// and unicode escapes beyond the ASCII range do not conform.
pub open spec fn spec_parse_string_body(s: Seq<char>, i: int, acc: Seq<char>) -> Option<
    (Seq<char>, int),
>
    decreases s.len() - i when 0 <= i <= s.len()
{
    if i >= s.len() {
        None
    } else if s[i] == '"' {
        Some((acc, i + 1))
    } else if s[i] == '\\' {
        if i + 1 < s.len() {
            if s[i + 1] == 'u' {
                if i + 6 <= s.len() && spec_hex4(s, i + 2) is Some && spec_hex4(s, i + 2)->0
                    <= 127 {
                    spec_parse_string_body(s, i + 6, acc.push((spec_hex4(s, i + 2)->0 as u8) as char))
                } else {
                    None
                }
            } else if spec_escape_char(s[i + 1]) is Some {
                spec_parse_string_body(s, i + 2, acc.push(spec_escape_char(s[i + 1])->0))
            } else {
                None
            }
        } else {
            None
        }
    } else if (s[i] as u32) < 32 {
        None
    } else {
        spec_parse_string_body(s, i + 1, acc.push(s[i]))
    }
}

pub proof fn lemma_parse_string_body_bounds(s: Seq<char>, i: int, acc: Seq<char>)
    requires
        0 <= i <= s.len(),
        spec_parse_string_body(s, i, acc) is Some,
    ensures
        i < (spec_parse_string_body(s, i, acc)->0).1 <= s.len(),
    decreases s.len() - i,
{
    if i < s.len() && s[i] == '"' {
    } else if i < s.len() && s[i] == '\\' && i + 1 < s.len() && s[i + 1] == 'u' {
        lemma_parse_string_body_bounds(
            s,
            i + 6,
            acc.push((spec_hex4(s, i + 2)->0 as u8) as char),
        );
    } else if i < s.len() && s[i] == '\\' && i + 1 < s.len() {
        lemma_parse_string_body_bounds(s, i + 2, acc.push(spec_escape_char(s[i + 1])->0));
    } else if i < s.len() {
        lemma_parse_string_body_bounds(s, i + 1, acc.push(s[i]));
    }
}

/// The members of a record object from position `i` (just past the opening
/// brace or a separating comma) up to and past the closing brace: the
/// accumulated name/value pairs in source order, and the position just past
/// the brace.
pub open spec fn spec_parse_members(
    s: Seq<char>,
    i: int,
    acc: Seq<(Seq<char>, Seq<char>)>,
) -> Option<(Seq<(Seq<char>, Seq<char>)>, int)>
    decreases s.len() - i when 0 <= i <= s.len()
{
    let k = spec_skip_ws(s, i);
    if !(i <= k && k < s.len() && s[k] == '"') {
        None
    } else {
        match spec_parse_string_body(s, k + 1, Seq::empty()) {
            None => None,
            Some((key, a)) => {
                let b = spec_skip_ws(s, a);
                if !(a <= b && b < s.len() && s[b] == ':') {
                    None
                } else {
                    let c = spec_skip_ws(s, b + 1);
                    if !(b < c && c < s.len() && s[c] == '"') {
                        None
                    } else {
                        match spec_parse_string_body(s, c + 1, Seq::empty()) {
                            None => None,
                            Some((val, d)) => {
                                let e = spec_skip_ws(s, d);
                                if !(d <= e && e < s.len()) {
                                    None
                                } else if s[e] == '}' {
                                    Some((acc.push((key, val)), e + 1))
                                } else if s[e] == ',' && i < e + 1 && c < d && k < a {
                                    spec_parse_members(s, e + 1, acc.push((key, val)))
                                } else {
                                    None
                                }
                            },
                        }
                    }
                }
            },
        }
    }
}

/// A whole record line: optional whitespace, one flat object of quoted
/// names and values, optional trailing whitespace, nothing else.
pub open spec fn spec_parse_object(s: Seq<char>) -> Option<Seq<(Seq<char>, Seq<char>)>> {
    let i = spec_skip_ws(s, 0);
    if !(0 <= i && i < s.len() && s[i] == '{') {
        None
    } else {
        let j = spec_skip_ws(s, i + 1);
        if i < j && j < s.len() && s[j] == '}' {
            if spec_skip_ws(s, j + 1) == s.len() {
                Some(Seq::empty())
            } else {
                None
            }
        } else {
            match spec_parse_members(s, i + 1, Seq::empty()) {
                None => None,
                Some((ps, k)) => if 0 <= k <= s.len() && spec_skip_ws(s, k) == s.len() {
                    Some(ps)
                } else {
                    None
                },
            }
        }
    }
}

/// The value under the first occurrence of a field name, if the name is
/// present.
pub open spec fn spec_lookup(ps: Seq<(Seq<char>, Seq<char>)>, key: Seq<char>) -> Option<Seq<char>>
    decreases ps.len(),
{
    if ps.len() == 0 {
        None
    } else if ps[0].0 == key {
        Some(ps[0].1)
    } else {
        spec_lookup(ps.drop_first(), key)
    }
}

/// The record carried by a parsed member list: all seven schema fields
/// present, with a non-empty identifier.
pub open spec fn spec_record_of_pairs(ps: Seq<(Seq<char>, Seq<char>)>) -> Option<RecordView> {
    if spec_lookup(ps, "ID"@) is Some && spec_lookup(ps, "ID"@)->0.len() > 0 && spec_lookup(
        ps,
        "Image"@,
    ) is Some && spec_lookup(ps, "Command"@) is Some && spec_lookup(ps, "CreatedAt"@) is Some
        && spec_lookup(ps, "Status"@) is Some && spec_lookup(ps, "Ports"@) is Some && spec_lookup(
        ps,
        "Names"@,
    ) is Some {
        Some(
            RecordView {
                id: spec_lookup(ps, "ID"@)->0,
                image: spec_lookup(ps, "Image"@)->0,
                command: spec_lookup(ps, "Command"@)->0,
                created_at: spec_lookup(ps, "CreatedAt"@)->0,
                status: spec_lookup(ps, "Status"@)->0,
                ports: spec_lookup(ps, "Ports"@)->0,
                names: spec_lookup(ps, "Names"@)->0,
            },
        )
    } else {
        None
    }
}

/// What one line decodes to, if it conforms to the schema.
pub open spec fn spec_decode_line(s: Seq<char>) -> Option<RecordView> {
    match spec_parse_object(s) {
        None => None,
        Some(ps) => spec_record_of_pairs(ps),
    }
}

/// The records decoded from the text starting at position `i`, with `cur`
/// the part of the current line read so far: each newline closes a line,
/// and the text's end closes the last one.
pub open spec fn spec_decode_all_from(s: Seq<char>, i: int, cur: Seq<char>) -> Seq<RecordView>
    decreases s.len() - i when 0 <= i <= s.len()
{
    if i >= s.len() {
        match spec_decode_line(cur) {
            Some(r) => seq![r],
            None => Seq::empty(),
        }
    } else if s[i] == '\n' {
        (match spec_decode_line(cur) {
            Some(r) => seq![r],
            None => Seq::empty(),
        }) + spec_decode_all_from(s, i + 1, Seq::empty())
    } else {
        spec_decode_all_from(s, i + 1, cur.push(s[i]))
    }
}

/// The ordered records decoded from a whole output blob: one attempt per
/// newline-separated line, failures silently omitted.
pub open spec fn spec_decode_all(s: Seq<char>) -> Seq<RecordView> {
    spec_decode_all_from(s, 0, Seq::empty())
}

pub proof fn lemma_parse_members_bounds(s: Seq<char>, i: int, acc: Seq<(Seq<char>, Seq<char>)>)
    requires
        0 <= i <= s.len(),
        spec_parse_members(s, i, acc) is Some,
    ensures
        i < (spec_parse_members(s, i, acc)->0).1 <= s.len(),
    decreases s.len() - i,
{
    let k = spec_skip_ws(s, i);
    lemma_skip_ws_bounds(s, i);
    let (key, a) = spec_parse_string_body(s, k + 1, Seq::empty())->0;
    lemma_parse_string_body_bounds(s, k + 1, Seq::empty());
    let b = spec_skip_ws(s, a);
    lemma_skip_ws_bounds(s, a);
    let c = spec_skip_ws(s, b + 1);
    lemma_skip_ws_bounds(s, b + 1);
    let (val, d) = spec_parse_string_body(s, c + 1, Seq::empty())->0;
    lemma_parse_string_body_bounds(s, c + 1, Seq::empty());
    let e = spec_skip_ws(s, d);
    lemma_skip_ws_bounds(s, d);
    if s[e] == '}' {
    } else {
        lemma_parse_members_bounds(s, e + 1, acc.push((key, val)));
    }
}

/// Relies on `String::push`: appends one character at the end of the
/// string.
#[verifier::external_body]
fn push_char(s: &mut String, c: char)
    ensures
        final(s)@ == old(s)@.push(c),
{
    s.push(c);
}

/// The characters of a string slice, as a vector.
fn chars_of(s: &str) -> (r: Vec<char>)
    ensures
        r@ == s@,
{
    let n = s.unicode_len();
    let mut r: Vec<char> = Vec::new();
    let mut i: usize = 0;
    while i < n
        invariant
            n == s@.len(),
            i <= n,
            r@ == s@.subrange(0, i as int),
        decreases n - i,
    {
        let c = s.get_char(i);
        r.push(c);
        proof {
            assert(s@.subrange(0, i + 1 as int) =~= s@.subrange(0, i as int).push(s@[i as int]));
        }
        i = i + 1;
    }
    proof {
        assert(s@.subrange(0, n as int) =~= s@);
    }
    r
}

/// Whitespace accepted between the tokens of a record line.
fn is_ws(c: char) -> (b: bool)
    ensures
        b == is_record_ws(c),
{
    c == ' ' || c == '\t' || c == '\r' || c == '\n'
}

/// The first position at or after `i` holding something other than
/// whitespace.
fn skip_ws(s: &Vec<char>, i: usize) -> (r: usize)
    requires
        i <= s@.len(),
    ensures
        r as int == spec_skip_ws(s@, i as int),
        i <= r <= s@.len(),
{
    let mut j = i;
    while j < s.len() && is_ws(s[j])
        invariant
            i <= j <= s@.len(),
            spec_skip_ws(s@, i as int) == spec_skip_ws(s@, j as int),
        decreases s@.len() - j,
    {
        j = j + 1;
    }
    j
}

/// The value of one hexadecimal digit, if the character is one.
fn hex_val(c: char) -> (r: Option<u32>)
    ensures
        r == spec_hex_val(c),
{
    let u = c as u32;
    if 48 <= u && u <= 57 {
        Some(u - 48)
    } else if 97 <= u && u <= 102 {
        Some(u - 87)
    } else if 65 <= u && u <= 70 {
        Some(u - 55)
    } else {
        None
    }
}

/// The value of the four hexadecimal digits starting at `i`.
fn hex4(s: &Vec<char>, i: usize) -> (r: Option<u32>)
    requires
        i + 4 <= s@.len(),
    ensures
        r == spec_hex4(s@, i as int),
{
    // Fixes that the vector's length, and so every index below, fits in
    // usize.
    let _n = s.len();
    let a = hex_val(s[i]);
    let b = hex_val(s[i + 1]);
    let c = hex_val(s[i + 2]);
    let d = hex_val(s[i + 3]);
    match (a, b, c, d) {
        (Some(a), Some(b), Some(c), Some(d)) => Some(a * 4096 + b * 256 + c * 16 + d),
        _ => None,
    }
}

/// The body of a quoted string starting at `start` (just past the opening
/// quote): the captured content and the position just past the closing
/// quote.
fn parse_string_body(s: &Vec<char>, start: usize) -> (r: Option<(String, usize)>)
    requires
        start <= s@.len(),
    ensures
        match spec_parse_string_body(s@, start as int, Seq::empty()) {
            None => r is None,
            Some((content, j)) => r is Some && (r->0).0@ == content && (r->0).1 as int == j,
        },
{
    let mut acc = String::new();
    let mut i = start;
    loop
        invariant
            start <= i <= s@.len(),
            spec_parse_string_body(s@, start as int, Seq::empty()) == spec_parse_string_body(
                s@,
                i as int,
                acc@,
            ),
        decreases s@.len() - i,
    {
        if i >= s.len() {
            return None;
        }
        let c = s[i];
        if c == '"' {
            return Some((acc, i + 1));
        } else if c == '\\' {
            if i + 1 >= s.len() {
                return None;
            }
            let e = s[i + 1];
            if e == 'u' {
                if s.len() - i < 6 {
                    return None;
                }
                match hex4(s, i + 2) {
                    Some(v) => {
                        if v <= 127 {
                            push_char(&mut acc, (v as u8) as char);
                            i = i + 6;
                        } else {
                            return None;
                        }
                    },
                    None => {
                        return None;
                    },
                }
            } else {
                match escape_char(e) {
                    Some(t) => {
                        push_char(&mut acc, t);
                        i = i + 2;
                    },
                    None => {
                        return None;
                    },
                }
            }
        } else if (c as u32) < 32 {
            return None;
        } else {
            push_char(&mut acc, c);
            i = i + 1;
        }
    }
}

/// What a single-character escape stands for, if it is one.
fn escape_char(c: char) -> (r: Option<char>)
    ensures
        r == spec_escape_char(c),
{
    if c == '"' {
        Some('"')
    } else if c == '\\' {
        Some('\\')
    } else if c == '/' {
        Some('/')
    } else if c == 'b' {
        Some('\u{0008}')
    } else if c == 'f' {
        Some('\u{000C}')
    } else if c == 'n' {
        Some('\n')
    } else if c == 'r' {
        Some('\r')
    } else if c == 't' {
        Some('\t')
    } else {
        None
    }
}

/// The view of a parsed member list: each name/value pair as sequences.
pub open spec fn pairs_view(ps: Seq<(String, String)>) -> Seq<(Seq<char>, Seq<char>)> {
    ps.map_values(|p: (String, String)| (p.0@, p.1@))
}

/// The members of a record object from `start` (just past the opening
/// brace) up to and past the closing brace.
fn parse_members(s: &Vec<char>, start: usize) -> (r: Option<(Vec<(String, String)>, usize)>)
    requires
        start <= s@.len(),
    ensures
        match spec_parse_members(s@, start as int, Seq::empty()) {
            None => r is None,
            Some((ps, j)) => r is Some && pairs_view((r->0).0@) == ps && (r->0).1 as int == j,
        },
{
    let mut acc: Vec<(String, String)> = Vec::new();
    let mut i = start;
    proof {
        assert(pairs_view(acc@) =~= Seq::<(Seq<char>, Seq<char>)>::empty());
    }
    loop
        invariant
            start <= i <= s@.len(),
            spec_parse_members(s@, start as int, Seq::empty()) == spec_parse_members(
                s@,
                i as int,
                pairs_view(acc@),
            ),
        decreases s@.len() - i,
    {
        let k = skip_ws(s, i);
        if k >= s.len() {
            return None;
        }
        if s[k] != '"' {
            return None;
        }
        let (key, a) = match parse_string_body(s, k + 1) {
            Some(p) => p,
            None => {
                return None;
            },
        };
        proof {
            lemma_parse_string_body_bounds(s@, k + 1 as int, Seq::empty());
        }
        let b = skip_ws(s, a);
        if b >= s.len() {
            return None;
        }
        if s[b] != ':' {
            return None;
        }
        let c = skip_ws(s, b + 1);
        if c >= s.len() {
            return None;
        }
        if s[c] != '"' {
            return None;
        }
        let (val, d) = match parse_string_body(s, c + 1) {
            Some(p) => p,
            None => {
                return None;
            },
        };
        proof {
            lemma_parse_string_body_bounds(s@, c + 1 as int, Seq::empty());
        }
        let e = skip_ws(s, d);
        if e >= s.len() {
            return None;
        }
        if s[e] == '}' {
            let ghost prev = acc@;
            let ghost pair = (key@, val@);
            acc.push((key, val));
            proof {
                assert(pairs_view(acc@) =~= pairs_view(prev).push(pair));
            }
            return Some((acc, e + 1));
        } else if s[e] == ',' {
            let ghost prev = acc@;
            let ghost pair = (key@, val@);
            acc.push((key, val));
            proof {
                assert(pairs_view(acc@) =~= pairs_view(prev).push(pair));
            }
            i = e + 1;
        } else {
            return None;
        }
    }
}

/// A whole record line as its member list, if the line conforms.
fn parse_object(s: &Vec<char>) -> (r: Option<Vec<(String, String)>>)
    ensures
        match spec_parse_object(s@) {
            None => r is None,
            Some(ps) => r is Some && pairs_view(r->0@) == ps,
        },
{
    let i = skip_ws(s, 0);
    if i >= s.len() {
        return None;
    }
    if s[i] != '{' {
        return None;
    }
    let j = skip_ws(s, i + 1);
    if j < s.len() && s[j] == '}' {
        let t = skip_ws(s, j + 1);
        if t == s.len() {
            let empty: Vec<(String, String)> = Vec::new();
            proof {
                assert(pairs_view(empty@) =~= Seq::<(Seq<char>, Seq<char>)>::empty());
            }
            return Some(empty);
        } else {
            return None;
        }
    }
    match parse_members(s, i + 1) {
        None => None,
        Some((ps, k)) => {
            proof {
                lemma_parse_members_bounds(s@, i + 1 as int, Seq::empty());
            }
            let t = skip_ws(s, k);
            if t == s.len() {
                Some(ps)
            } else {
                None
            }
        },
    }
}

/// The value under the first occurrence of a field name, if present.
fn lookup_field(ps: &Vec<(String, String)>, key: &String) -> (r: Option<String>)
    ensures
        match spec_lookup(pairs_view(ps@), key@) {
            None => r is None,
            Some(v) => r is Some && r->0@ == v,
        },
{
    let ghost mapped = pairs_view(ps@);
    let mut idx: usize = 0;
    proof {
        assert(mapped.skip(0) =~= mapped);
    }
    while idx < ps.len()
        invariant
            idx <= ps@.len(),
            mapped == pairs_view(ps@),
            spec_lookup(mapped, key@) == spec_lookup(mapped.skip(idx as int), key@),
        decreases ps@.len() - idx,
    {
        let p = &ps[idx];
        if p.0 == *key {
            return Some(p.1.clone());
        }
        proof {
            assert(mapped.skip(idx as int).drop_first() =~= mapped.skip(idx + 1 as int));
        }
        idx = idx + 1;
    }
    proof {
        assert(mapped.skip(ps@.len() as int) =~= Seq::<(Seq<char>, Seq<char>)>::empty());
    }
    None
}

/// The record carried by a parsed member list, if all seven schema fields
/// are present and the identifier is non-empty.
fn record_of_pairs(ps: &Vec<(String, String)>) -> (r: Option<ContainerRecord>)
    ensures
        match spec_record_of_pairs(pairs_view(ps@)) {
            None => r is None,
            Some(rv) => r is Some && r->0@ == rv,
        },
{
    let id = match lookup_field(ps, &String::from_str("ID")) {
        Some(v) => v,
        None => {
            return None;
        },
    };
    if id.as_str().is_empty() {
        return None;
    }
    let image = match lookup_field(ps, &String::from_str("Image")) {
        Some(v) => v,
        None => {
            return None;
        },
    };
    let command = match lookup_field(ps, &String::from_str("Command")) {
        Some(v) => v,
        None => {
            return None;
        },
    };
    let created_at = match lookup_field(ps, &String::from_str("CreatedAt")) {
        Some(v) => v,
        None => {
            return None;
        },
    };
    let status = match lookup_field(ps, &String::from_str("Status")) {
        Some(v) => v,
        None => {
            return None;
        },
    };
    let ports = match lookup_field(ps, &String::from_str("Ports")) {
        Some(v) => v,
        None => {
            return None;
        },
    };
    let names = match lookup_field(ps, &String::from_str("Names")) {
        Some(v) => v,
        None => {
            return None;
        },
    };
    Some(ContainerRecord { id, image, command, created_at, status, ports, names })
}

/// One line's record, over its characters.
fn decode_line_chars(s: &Vec<char>) -> (r: Option<ContainerRecord>)
    ensures
        match spec_decode_line(s@) {
            None => r is None,
            Some(rv) => r is Some && r->0@ == rv,
        },
{
    match parse_object(s) {
        None => None,
        Some(ps) => record_of_pairs(&ps),
    }
}

/// Attempt to decode one line of tool output into a container record. A
/// line that does not conform to the schema yields `None`; no error is
/// surfaced for it.
pub fn decode_line(line: &str) -> (r: Option<ContainerRecord>)
    ensures
        match spec_decode_line(line@) {
            None => r is None,
            Some(rv) => r is Some && r->0@ == rv,
        },
{
    let cs = chars_of(line);
    decode_line_chars(&cs)
}

/// Decode a whole output blob: the ordered sequence of records from its
/// newline-separated lines, in source order, silently omitting every line
/// that fails to decode. Every record handed back carries a non-empty
/// identifier.
pub fn decode_output(text: &str) -> (r: Vec<ContainerRecord>)
    ensures
        r@.map_values(|c: ContainerRecord| c@) == spec_decode_all(text@),
        forall|i: int| 0 <= i < r@.len() ==> (#[trigger] r@[i])@.well_formed(),
{
    let cs = chars_of(text);
    let mut out: Vec<ContainerRecord> = Vec::new();
    let mut cur: Vec<char> = Vec::new();
    let mut i: usize = 0;
    proof {
        assert(out@.map_values(|c: ContainerRecord| c@) =~= Seq::<RecordView>::empty());
        assert(cur@ =~= Seq::<char>::empty());
    }
    while i < cs.len()
        invariant
            i <= cs@.len(),
            cs@ == text@,
            spec_decode_all(text@) == out@.map_values(|c: ContainerRecord| c@)
                + spec_decode_all_from(cs@, i as int, cur@),
            forall|j: int| 0 <= j < out@.len() ==> (#[trigger] out@[j])@.well_formed(),
        decreases cs@.len() - i,
    {
        let c = cs[i];
        if c == '\n' {
            let ghost prev_out = out@;
            let ghost prev_cur = cur@;
            match decode_line_chars(&cur) {
                Some(rec) => {
                    proof {
                        lemma_decoded_record_well_formed(prev_cur);
                    }
                    out.push(rec);
                    proof {
                        assert(out@.map_values(|c: ContainerRecord| c@) =~= prev_out.map_values(
                            |c: ContainerRecord| c@,
                        ).push(out@.last()@));
                    }
                },
                None => {},
            }
            cur = Vec::new();
            proof {
                assert(cur@ =~= Seq::<char>::empty());
                assert(spec_decode_all(text@) =~= out@.map_values(|c: ContainerRecord| c@)
                    + spec_decode_all_from(cs@, i + 1 as int, cur@));
            }
        } else {
            cur.push(c);
        }
        i = i + 1;
    }
    let ghost prev_out = out@;
    let ghost prev_cur = cur@;
    match decode_line_chars(&cur) {
        Some(rec) => {
            proof {
                lemma_decoded_record_well_formed(prev_cur);
            }
            out.push(rec);
            proof {
                assert(out@.map_values(|c: ContainerRecord| c@) =~= prev_out.map_values(
                    |c: ContainerRecord| c@,
                ).push(out@.last()@));
            }
        },
        None => {},
    }
    proof {
        assert(spec_decode_all(text@) =~= out@.map_values(|c: ContainerRecord| c@));
    }
    out
}

/// Law: every record that survives decoding carries a non-empty
/// identifier.
pub proof fn lemma_decoded_record_well_formed(s: Seq<char>)
    requires
        spec_decode_line(s) is Some,
    ensures
        (spec_decode_line(s)->0).well_formed(),
{
}

proof fn lemma_decode_all_from_offset(s: Seq<char>, t: Seq<char>, i: int, cur: Seq<char>)
    requires
        0 <= i <= t.len(),
    ensures
        spec_decode_all_from(s + t, s.len() + i, cur) == spec_decode_all_from(t, i, cur),
    decreases t.len() - i,
{
    let u = s + t;
    if i >= t.len() {
    } else if t[i] == '\n' {
        assert(u[s.len() + i] == t[i]);
        lemma_decode_all_from_offset(s, t, i + 1, Seq::empty());
    } else {
        assert(u[s.len() + i] == t[i]);
        lemma_decode_all_from_offset(s, t, i + 1, cur.push(t[i]));
    }
}

proof fn lemma_decode_all_from_first_line(line: Seq<char>, rest: Seq<char>, i: int, cur: Seq<char>)
    requires
        0 <= i <= line.len(),
        forall|k: int| 0 <= k < line.len() ==> line[k] != '\n',
    ensures
        spec_decode_all_from(line + seq!['\n'] + rest, i, cur) == (match spec_decode_line(
            cur + line.skip(i),
        ) {
            Some(r) => seq![r],
            None => Seq::<RecordView>::empty(),
        }) + spec_decode_all(rest),
    decreases line.len() - i,
{
    let s = line + seq!['\n'] + rest;
    if i == line.len() {
        assert(s[i] == '\n');
        assert(cur + line.skip(i) =~= cur);
        assert((line + seq!['\n']) + rest =~= s);
        lemma_decode_all_from_offset(line + seq!['\n'], rest, 0, Seq::empty());
        assert(spec_decode_all_from(s, i + 1, Seq::empty()) == spec_decode_all(rest));
    } else {
        assert(s[i] == line[i]);
        assert(s[i] != '\n');
        assert(cur.push(line[i]) + line.skip(i + 1) =~= cur + line.skip(i));
        lemma_decode_all_from_first_line(line, rest, i + 1, cur.push(line[i]));
    }
}

/// Law: the first line of a blob is decoded on its own: whatever it holds,
/// its one attempted record is simply prepended to whatever the remaining
/// lines decode to.
pub proof fn lemma_first_line_decodes_independently(line: Seq<char>, rest: Seq<char>)
    requires
        forall|k: int| 0 <= k < line.len() ==> line[k] != '\n',
    ensures
        spec_decode_all(line + seq!['\n'] + rest) == (match spec_decode_line(line) {
            Some(r) => seq![r],
            None => Seq::<RecordView>::empty(),
        }) + spec_decode_all(rest),
{
    lemma_decode_all_from_first_line(line, rest, 0, Seq::empty());
    assert(Seq::<char>::empty() + line.skip(0) =~= line);
}

/// Law: a malformed line yields no record and leaves the decoding of every
/// line after it untouched.
pub proof fn lemma_malformed_line_isolated(line: Seq<char>, rest: Seq<char>)
    requires
        forall|k: int| 0 <= k < line.len() ==> line[k] != '\n',
        spec_decode_line(line) is None,
    ensures
        spec_decode_all(line + seq!['\n'] + rest) == spec_decode_all(rest),
{
    lemma_first_line_decodes_independently(line, rest);
    assert(Seq::<RecordView>::empty() + spec_decode_all(rest) =~= spec_decode_all(rest));
}

proof fn lemma_decode_all_from_last_line(line: Seq<char>, i: int, cur: Seq<char>)
    requires
        0 <= i <= line.len(),
        forall|k: int| 0 <= k < line.len() ==> line[k] != '\n',
    ensures
        spec_decode_all_from(line, i, cur) == (match spec_decode_line(cur + line.skip(i)) {
            Some(r) => seq![r],
            None => Seq::<RecordView>::empty(),
        }),
    decreases line.len() - i,
{
    if i == line.len() {
        assert(cur + line.skip(i) =~= cur);
    } else {
        assert(cur.push(line[i]) + line.skip(i + 1) =~= cur + line.skip(i));
        lemma_decode_all_from_last_line(line, i + 1, cur.push(line[i]));
    }
}

/// Law: a blob that is a single line, with no newline, decodes to that one
/// line's attempt alone.
pub proof fn lemma_single_line_decodes_alone(line: Seq<char>)
    requires
        forall|k: int| 0 <= k < line.len() ==> line[k] != '\n',
    ensures
        spec_decode_all(line) == (match spec_decode_line(line) {
            Some(r) => seq![r],
            None => Seq::<RecordView>::empty(),
        }),
{
    lemma_decode_all_from_last_line(line, 0, Seq::empty());
    assert(Seq::<char>::empty() + line.skip(0) =~= line);
}

/// The lines joined back into one blob, one newline between neighbours.
pub open spec fn spec_join_lines(lines: Seq<Seq<char>>) -> Seq<char>
    decreases lines.len(),
{
    if lines.len() == 0 {
        Seq::empty()
    } else if lines.len() == 1 {
        lines[0]
    } else {
        lines[0] + seq!['\n'] + spec_join_lines(lines.drop_first())
    }
}

/// Law: a refresh that receives zero valid lines yields no records at all:
/// when every line of the blob fails to decode, the whole blob decodes to
/// the empty sequence.
pub proof fn lemma_no_valid_lines_decode_empty(lines: Seq<Seq<char>>)
    requires
        forall|j: int, k: int|
            0 <= j < lines.len() && 0 <= k < lines[j].len() ==> #[trigger] lines[j][k] != '\n',
        forall|j: int| 0 <= j < lines.len() ==> #[trigger] spec_decode_line(lines[j]) is None,
    ensures
        spec_decode_all(spec_join_lines(lines)) == Seq::<RecordView>::empty(),
    decreases lines.len(),
{
    if lines.len() == 0 {
        lemma_single_line_decodes_alone(Seq::empty());
    } else if lines.len() == 1 {
        lemma_single_line_decodes_alone(lines[0]);
    } else {
        lemma_malformed_line_isolated(lines[0], spec_join_lines(lines.drop_first()));
        lemma_no_valid_lines_decode_empty(lines.drop_first());
    }
}

} // verus!
