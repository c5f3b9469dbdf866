//! The payload codec: a bundle is exchanged with the remote store as one
//! textual payload, an object of text fields in the common brace-and-quote
//! object notation, pretty-printed with one field per line.  `encode` is
//! deterministic over the bundle's sorted entries; `decode` accepts any text
//! that denotes an object of text fields and rejects everything else.

use crate::bundle::{insert_all, lemma_sorted_unique_canonical, map_of, sorted_unique, Bundle};
use crate::chars::{char_from_code, chars_of, string_from_chars};
use crate::errors::SyncError;
use vstd::prelude::*;

verus! {

broadcast use vstd::utf8::char_is_scalar, vstd::utf8::char_u32_cast;

/// The whitespace characters that may surround tokens of a payload.
pub open spec fn is_json_ws(c: char) -> bool {
    c == ' ' || c == '\t' || c == '\n' || c == '\r'
}

/// The input without its leading whitespace.
pub open spec fn skip_ws(s: Seq<char>) -> Seq<char>
    decreases s.len(),
{
    if s.len() > 0 && is_json_ws(s[0]) {
        skip_ws(s.skip(1))
    } else {
        s
    }
}

/// The digit characters used when a control character is escaped.
pub open spec fn hex_digit_char(d: int) -> char {
    if d == 0 {
        '0'
    } else if d == 1 {
        '1'
    } else if d == 2 {
        '2'
    } else if d == 3 {
        '3'
    } else if d == 4 {
        '4'
    } else if d == 5 {
        '5'
    } else if d == 6 {
        '6'
    } else if d == 7 {
        '7'
    } else if d == 8 {
        '8'
    } else if d == 9 {
        '9'
    } else if d == 10 {
        'a'
    } else if d == 11 {
        'b'
    } else if d == 12 {
        'c'
    } else if d == 13 {
        'd'
    } else if d == 14 {
        'e'
    } else {
        'f'
    }
}

/// The value of a hexadecimal digit character, if it is one.
pub open spec fn hex_val(c: char) -> Option<int> {
    if '0' as u32 <= c as u32 && c as u32 <= '9' as u32 {
        Some(c as u32 - '0' as u32)
    } else if 'a' as u32 <= c as u32 && c as u32 <= 'f' as u32 {
        Some(c as u32 - 'a' as u32 + 10)
    } else if 'A' as u32 <= c as u32 && c as u32 <= 'F' as u32 {
        Some(c as u32 - 'A' as u32 + 10)
    } else {
        None
    }
}

/// The value of the four hexadecimal digits that begin `s`, if they do.
pub open spec fn hex4_val(s: Seq<char>) -> Option<int> {
    if s.len() < 4 {
        None
    } else if hex_val(s[0]) is Some && hex_val(s[1]) is Some && hex_val(s[2]) is Some && hex_val(
        s[3],
    ) is Some {
        Some(
            hex_val(s[0])->Some_0 * 4096 + hex_val(s[1])->Some_0 * 256 + hex_val(s[2])->Some_0 * 16
                + hex_val(s[3])->Some_0,
        )
    } else {
        None
    }
}

/// How one character is written inside a quoted field.
pub open spec fn esc_char(c: char) -> Seq<char> {
    if c == '"' {
        seq!['\\', '"']
    } else if c == '\\' {
        seq!['\\', '\\']
    } else if c == '\u{8}' {
        seq!['\\', 'b']
    } else if c == '\t' {
        seq!['\\', 't']
    } else if c == '\n' {
        seq!['\\', 'n']
    } else if c == '\u{c}' {
        seq!['\\', 'f']
    } else if c == '\r' {
        seq!['\\', 'r']
    } else if (c as u32) < 0x20 {
        seq!['\\', 'u', '0', '0', hex_digit_char((c as int) / 16), hex_digit_char((c as int) % 16)]
    } else {
        seq![c]
    }
}

/// How a text is written inside a quoted field.
pub open spec fn esc(s: Seq<char>) -> Seq<char>
    decreases s.len(),
{
    if s.len() == 0 {
        Seq::empty()
    } else {
        esc_char(s[0]) + esc(s.skip(1))
    }
}

/// The character denoted by a single-letter escape, if the letter is one.
pub open spec fn short_unesc(e: char) -> Option<char> {
    if e == '"' {
        Some('"')
    } else if e == '\\' {
        Some('\\')
    } else if e == '/' {
        Some('/')
    } else if e == 'b' {
        Some('\u{8}')
    } else if e == 'f' {
        Some('\u{c}')
    } else if e == 'n' {
        Some('\n')
    } else if e == 'r' {
        Some('\r')
    } else if e == 't' {
        Some('\t')
    } else {
        None
    }
}

/// Parses the body of a quoted field, after its opening quote: the denoted
/// text and the remainder after the closing quote.
pub open spec fn parse_str_body(s: Seq<char>) -> Option<(Seq<char>, Seq<char>)>
    decreases s.len(),
{
    if s.len() == 0 {
        None
    } else if s[0] == '"' {
        Some((Seq::empty(), s.skip(1)))
    } else if s[0] == '\\' {
        if s.len() < 2 {
            None
        } else if s[1] == 'u' {
            match hex4_val(s.skip(2)) {
                None => None,
                Some(n) => {
                    if 0xD800 <= n && n <= 0xDBFF {
                        // a high surrogate must pair with a following low one
                        if s.len() >= 8 && s[6] == '\\' && s[7] == 'u' {
                            match hex4_val(s.skip(8)) {
                                None => None,
                                Some(m) => {
                                    if 0xDC00 <= m && m <= 0xDFFF {
                                        let code = 0x10000 + (n - 0xD800) * 0x400 + (m - 0xDC00);
                                        match parse_str_body(s.skip(12)) {
                                            None => None,
                                            Some((t, r)) => Some(
                                                (seq![((code as u32) as char)] + t, r),
                                            ),
                                        }
                                    } else {
                                        None
                                    }
                                },
                            }
                        } else {
                            None
                        }
                    } else if 0xDC00 <= n && n <= 0xDFFF {
                        None
                    } else {
                        match parse_str_body(s.skip(6)) {
                            None => None,
                            Some((t, r)) => Some((seq![((n as u32) as char)] + t, r)),
                        }
                    }
                },
            }
        } else {
            match short_unesc(s[1]) {
                None => None,
                Some(c) => match parse_str_body(s.skip(2)) {
                    None => None,
                    Some((t, r)) => Some((seq![c] + t, r)),
                },
            }
        }
    } else if (s[0] as u32) < 0x20 {
        // a raw control character may not stand in a quoted field
        None
    } else {
        match parse_str_body(s.skip(1)) {
            None => None,
            Some((t, r)) => Some((seq![s[0]] + t, r)),
        }
    }
}

/// A successful parse of a quoted field consumes at least its closing quote.
proof fn lemma_parse_str_body_len(s: Seq<char>)
    ensures
        parse_str_body(s) matches Some(tr) ==> tr.1.len() < s.len(),
    decreases s.len(),
{
    if s.len() == 0 {
    } else if s[0] == '"' {
    } else if s[0] == '\\' {
        if s.len() >= 2 && s[1] == 'u' {
            if s.len() >= 12 {
                lemma_parse_str_body_len(s.skip(12));
            }
            if s.len() >= 6 {
                lemma_parse_str_body_len(s.skip(6));
            }
        } else if s.len() >= 2 {
            lemma_parse_str_body_len(s.skip(2));
        }
    } else {
        lemma_parse_str_body_len(s.skip(1));
    }
}

/// Dropping whitespace never lengthens the input.
proof fn lemma_skip_ws_len(s: Seq<char>)
    ensures
        skip_ws(s).len() <= s.len(),
    decreases s.len(),
{
    if s.len() > 0 && is_json_ws(s[0]) {
        lemma_skip_ws_len(s.skip(1));
    }
}

/// Parses the members of a non-empty object, positioned at the opening quote
/// of a field name: the accumulated map and the remainder after the closing
/// brace.
pub open spec fn parse_members(s: Seq<char>, m: Map<Seq<char>, Seq<char>>) -> Option<
    (Map<Seq<char>, Seq<char>>, Seq<char>),
>
    decreases s.len(),
    via parse_members_decreases
{
    if s.len() == 0 || s[0] != '"' {
        None
    } else {
        match parse_str_body(s.skip(1)) {
            None => None,
            Some((k, r1)) => {
                let r2 = skip_ws(r1);
                if r2.len() == 0 || r2[0] != ':' {
                    None
                } else {
                    let r3 = skip_ws(r2.skip(1));
                    if r3.len() == 0 || r3[0] != '"' {
                        None
                    } else {
                        match parse_str_body(r3.skip(1)) {
                            None => None,
                            Some((v, r4)) => {
                                let m2 = m.insert(k, v);
                                let r5 = skip_ws(r4);
                                if r5.len() == 0 {
                                    None
                                } else if r5[0] == ',' {
                                    parse_members(skip_ws(r5.skip(1)), m2)
                                } else if r5[0] == '}' {
                                    Some((m2, r5.skip(1)))
                                } else {
                                    None
                                }
                            },
                        }
                    }
                }
            },
        }
    }
}

#[via_fn]
proof fn parse_members_decreases(s: Seq<char>, m: Map<Seq<char>, Seq<char>>) {
    if s.len() > 0 && s[0] == '"' {
        lemma_parse_str_body_len(s.skip(1));
        if parse_str_body(s.skip(1)) is Some {
            let r1 = parse_str_body(s.skip(1))->Some_0.1;
            lemma_skip_ws_len(r1);
            let r2 = skip_ws(r1);
            if r2.len() > 0 && r2[0] == ':' {
                lemma_skip_ws_len(r2.skip(1));
                let r3 = skip_ws(r2.skip(1));
                if r3.len() > 0 && r3[0] == '"' {
                    lemma_parse_str_body_len(r3.skip(1));
                    if parse_str_body(r3.skip(1)) is Some {
                        let r4 = parse_str_body(r3.skip(1))->Some_0.1;
                        lemma_skip_ws_len(r4);
                        let r5 = skip_ws(r4);
                        if r5.len() > 0 && r5[0] == ',' {
                            lemma_skip_ws_len(r5.skip(1));
                        }
                    }
                }
            }
        }
    }
}

/// Parses a whole payload: the object's map, if the payload is exactly one
/// object of text fields.
pub open spec fn parse_payload(s: Seq<char>) -> Option<Map<Seq<char>, Seq<char>>> {
    let t = skip_ws(s);
    if t.len() == 0 || t[0] != '{' {
        None
    } else {
        let u = skip_ws(t.skip(1));
        if u.len() > 0 && u[0] == '}' {
            if skip_ws(u.skip(1)).len() == 0 {
                Some(Map::empty())
            } else {
                None
            }
        } else {
            match parse_members(u, Map::empty()) {
                None => None,
                Some((m, r)) => {
                    if skip_ws(r).len() == 0 {
                        Some(m)
                    } else {
                        None
                    }
                },
            }
        }
    }
}

/// How one entry is written: two spaces of indent, the quoted name, a colon,
/// and the quoted content.
pub open spec fn enc_entry(k: Seq<char>, v: Seq<char>) -> Seq<char> {
    seq![' ', ' ', '"'] + esc(k) + seq!['"', ':', ' ', '"'] + esc(v) + seq!['"']
}

/// How the entries are written, one per line, separated by commas.
pub open spec fn enc_entries(es: Seq<(Seq<char>, Seq<char>)>) -> Seq<char>
    decreases es.len(),
{
    if es.len() == 0 {
        Seq::empty()
    } else if es.len() == 1 {
        enc_entry(es[0].0, es[0].1)
    } else {
        enc_entry(es[0].0, es[0].1) + seq![',', '\n'] + enc_entries(es.skip(1))
    }
}

/// How a whole bundle is written.
pub open spec fn encode_spec(es: Seq<(Seq<char>, Seq<char>)>) -> Seq<char> {
    if es.len() == 0 {
        seq!['{', '}']
    } else {
        seq!['{', '\n'] + enc_entries(es) + seq!['\n', '}']
    }
}

/// `esc` distributes over appending one character.
proof fn lemma_esc_snoc(a: Seq<char>, c: char)
    ensures
        esc(a.push(c)) == esc(a) + esc_char(c),
    decreases a.len(),
{
    if a.len() == 0 {
        assert(a.push(c)[0] == c);
        assert(a.push(c).skip(1) =~= Seq::<char>::empty());
        assert(esc(a.push(c).skip(1)) == esc(Seq::<char>::empty()));
        assert(esc(Seq::<char>::empty()) =~= Seq::<char>::empty());
        assert(esc(a.push(c)) =~= esc(a) + esc_char(c));
    } else {
        assert(a.push(c)[0] == a[0]);
        assert(a.push(c).skip(1) =~= a.skip(1).push(c));
        lemma_esc_snoc(a.skip(1), c);
        assert(esc(a.push(c)) == esc_char(a[0]) + esc(a.skip(1).push(c)));
        assert(esc(a.skip(1).push(c)) == esc(a.skip(1)) + esc_char(c));
        assert(esc(a) == esc_char(a[0]) + esc(a.skip(1)));
        assert(esc(a.push(c)) =~= esc(a) + esc_char(c));
    }
}

/// `enc_entries` distributes over appending one entry.
proof fn lemma_enc_entries_snoc(es: Seq<(Seq<char>, Seq<char>)>, e: (Seq<char>, Seq<char>))
    ensures
        es.len() == 0 ==> enc_entries(es.push(e)) == enc_entry(e.0, e.1),
        es.len() > 0 ==> enc_entries(es.push(e)) == enc_entries(es) + seq![',', '\n'] + enc_entry(
            e.0,
            e.1,
        ),
    decreases es.len(),
{
    if es.len() == 0 {
        assert(es.push(e)[0] == e);
    } else {
        assert(es.push(e)[0] == es[0]);
        assert(es.push(e).skip(1) =~= es.skip(1).push(e));
        lemma_enc_entries_snoc(es.skip(1), e);
        if es.len() == 1 {
            assert(enc_entries(es.push(e)) =~= enc_entries(es) + seq![',', '\n'] + enc_entry(
                e.0,
                e.1,
            ));
        } else {
            assert(enc_entries(es.push(e)) =~= enc_entries(es) + seq![',', '\n'] + enc_entry(
                e.0,
                e.1,
            ));
        }
    }
}

/// The digit character for `d`.
fn hex_digit(d: u32) -> (c: char)
    requires
        d < 16,
    ensures
        c == hex_digit_char(d as int),
{
    if d == 0 {
        '0'
    } else if d == 1 {
        '1'
    } else if d == 2 {
        '2'
    } else if d == 3 {
        '3'
    } else if d == 4 {
        '4'
    } else if d == 5 {
        '5'
    } else if d == 6 {
        '6'
    } else if d == 7 {
        '7'
    } else if d == 8 {
        '8'
    } else if d == 9 {
        '9'
    } else if d == 10 {
        'a'
    } else if d == 11 {
        'b'
    } else if d == 12 {
        'c'
    } else if d == 13 {
        'd'
    } else if d == 14 {
        'e'
    } else {
        'f'
    }
}

/// Appends the written form of one character.
fn push_esc_char(out: &mut Vec<char>, c: char)
    ensures
        final(out)@ == old(out)@ + esc_char(c),
{
    if c == '"' {
        out.push('\\');
        out.push('"');
    } else if c == '\\' {
        out.push('\\');
        out.push('\\');
    } else if c == '\u{8}' {
        out.push('\\');
        out.push('b');
    } else if c == '\t' {
        out.push('\\');
        out.push('t');
    } else if c == '\n' {
        out.push('\\');
        out.push('n');
    } else if c == '\u{c}' {
        out.push('\\');
        out.push('f');
    } else if c == '\r' {
        out.push('\\');
        out.push('r');
    } else if (c as u32) < 0x20 {
        let u = c as u32;
        out.push('\\');
        out.push('u');
        out.push('0');
        out.push('0');
        out.push(hex_digit(u / 16));
        out.push(hex_digit(u % 16));
    } else {
        out.push(c);
    }
    proof {
        assert(final(out)@ =~= old(out)@ + esc_char(c));
    }
}

/// Appends the written form of a text.
fn push_esc(out: &mut Vec<char>, s: &str)
    ensures
        final(out)@ == old(out)@ + esc(s@),
{
    let n = s.unicode_len();
    let mut i: usize = 0;
    proof {
        assert(esc(s@.subrange(0, 0)) =~= Seq::<char>::empty());
    }
    while i < n
        invariant
            0 <= i <= n,
            n == s@.len(),
            out@ == old(out)@ + esc(s@.subrange(0, i as int)),
        decreases n - i,
    {
        let c = s.get_char(i);
        push_esc_char(out, c);
        proof {
            lemma_esc_snoc(s@.subrange(0, i as int), c);
            assert(s@.subrange(0, i as int).push(c) =~= s@.subrange(0, i as int + 1));
            assert(out@ =~= old(out)@ + esc(s@.subrange(0, i as int + 1)));
        }
        i = i + 1;
    }
    proof {
        assert(s@.subrange(0, n as int) =~= s@);
    }
}

/// Appends the written form of one entry.
fn push_entry(out: &mut Vec<char>, name: &str, content: &str)
    ensures
        final(out)@ == old(out)@ + enc_entry(name@, content@),
{
    out.push(' ');
    out.push(' ');
    out.push('"');
    push_esc(out, name);
    out.push('"');
    out.push(':');
    out.push(' ');
    out.push('"');
    push_esc(out, content);
    out.push('"');
    proof {
        assert(final(out)@ =~= old(out)@ + enc_entry(name@, content@));
    }
}

/// Writes the bundle as one textual payload: an object of text fields, one
/// per line, in the bundle's sorted entry order.
pub fn encode(b: &Bundle) -> (r: String)
    ensures
        r@ == encode_spec(b.entries_seq()),
{
    let ghost es = b.entries_seq();
    let n = b.entries.len();
    if n == 0 {
        let mut out: Vec<char> = Vec::new();
        out.push('{');
        out.push('}');
        proof {
            assert(out@ =~= encode_spec(es));
        }
        return string_from_chars(&out);
    }
    let mut out: Vec<char> = Vec::new();
    out.push('{');
    out.push('\n');
    let mut i: usize = 0;
    while i < n
        invariant
            0 <= i <= n,
            n == es.len(),
            n == b.entries@.len(),
            es == b.entries_seq(),
            i == 0 ==> out@ == seq!['{', '\n'],
            i > 0 ==> out@ == seq!['{', '\n'] + enc_entries(es.subrange(0, i as int)),
        decreases n - i,
    {
        if i > 0 {
            out.push(',');
            out.push('\n');
        }
        push_entry(&mut out, b.entries[i].name.as_str(), b.entries[i].content.as_str());
        proof {
            assert(es[i as int] == (b.entries@[i as int].name@, b.entries@[i as int].content@));
            lemma_enc_entries_snoc(es.subrange(0, i as int), es[i as int]);
            assert(es.subrange(0, i as int).push(es[i as int]) =~= es.subrange(0, i as int + 1));
            if i == 0 {
                assert(out@ =~= seq!['{', '\n'] + enc_entries(es.subrange(0, 1)));
            } else {
                assert(out@ =~= seq!['{', '\n'] + enc_entries(es.subrange(0, i as int + 1)));
            }
        }
        i = i + 1;
    }
    out.push('\n');
    out.push('}');
    proof {
        assert(es.subrange(0, n as int) =~= es);
        assert(out@ =~= encode_spec(es));
    }
    string_from_chars(&out)
}

/// Whether `c` is payload whitespace.
fn is_ws(c: char) -> (r: bool)
    ensures
        r == is_json_ws(c),
{
    c == ' ' || c == '\t' || c == '\n' || c == '\r'
}

/// Positions `i` at the first non-whitespace character at or after `i`.
pub(crate) fn skip_ws_exec(cs: &Vec<char>, i: usize) -> (j: usize)
    requires
        i <= cs@.len(),
    ensures
        i <= j <= cs@.len(),
        skip_ws(cs@.skip(i as int)) == cs@.skip(j as int),
{
    let n = cs.len();
    let mut j = i;
    loop
        invariant
            i <= j <= n,
            n == cs@.len(),
            skip_ws(cs@.skip(i as int)) == skip_ws(cs@.skip(j as int)),
        decreases n - j,
    {
        if j == n {
            assert(cs@.skip(j as int).len() == 0);
            return j;
        }
        let c = cs[j];
        assert(cs@.skip(j as int)[0] == c);
        if !is_ws(c) {
            return j;
        }
        proof {
            assert(cs@.skip(j as int).skip(1) =~= cs@.skip(j as int + 1));
        }
        j = j + 1;
    }
}

/// The value of a hexadecimal digit character, if it is one.
fn hex_val_exec(c: char) -> (r: Option<u32>)
    ensures
        match r {
            Some(d) => hex_val(c) == Some(d as int),
            None => hex_val(c) is None,
        },
{
    let u = c as u32;
    if 48 <= u && u <= 57 {
        Some(u - 48)
    } else if 97 <= u && u <= 102 {
        Some(u - 97 + 10)
    } else if 65 <= u && u <= 70 {
        Some(u - 65 + 10)
    } else {
        None
    }
}

/// The value of the four hexadecimal digits at `i`, if they are ones.
fn hex4_exec(cs: &Vec<char>, i: usize) -> (r: Option<u32>)
    requires
        i <= cs@.len(),
    ensures
        match r {
            Some(n) => hex4_val(cs@.skip(i as int)) == Some(n as int) && n <= 0xFFFF,
            None => hex4_val(cs@.skip(i as int)) is None,
        },
{
    let n = cs.len();
    if n - i < 4 {
        return None;
    }
    proof {
        assert(cs@.skip(i as int)[0] == cs@[i as int]);
        assert(cs@.skip(i as int)[1] == cs@[i as int + 1]);
        assert(cs@.skip(i as int)[2] == cs@[i as int + 2]);
        assert(cs@.skip(i as int)[3] == cs@[i as int + 3]);
    }
    let d0 = hex_val_exec(cs[i]);
    let d1 = hex_val_exec(cs[i + 1]);
    let d2 = hex_val_exec(cs[i + 2]);
    let d3 = hex_val_exec(cs[i + 3]);
    match (d0, d1, d2, d3) {
        (Some(a), Some(b), Some(c), Some(d)) => {
            proof {
                assert(a <= 15 && b <= 15 && c <= 15 && d <= 15);
            }
            Some(a * 4096 + b * 256 + c * 16 + d)
        },
        _ => None,
    }
}

/// The character denoted by a single-letter escape, if the letter is one.
fn short_unesc_exec(e: char) -> (r: Option<char>)
    ensures
        r == short_unesc(e),
{
    if e == '"' {
        Some('"')
    } else if e == '\\' {
        Some('\\')
    } else if e == '/' {
        Some('/')
    } else if e == 'b' {
        Some('\u{8}')
    } else if e == 'f' {
        Some('\u{c}')
    } else if e == 'n' {
        Some('\n')
    } else if e == 'r' {
        Some('\r')
    } else if e == 't' {
        Some('\t')
    } else {
        None
    }
}

/// The parse of `pre` is the parse of a suffix with `out` already decoded.
pub open spec fn body_step(pre: Seq<char>, out: Seq<char>, suf: Seq<char>) -> bool {
    match parse_str_body(suf) {
        None => parse_str_body(pre) is None,
        Some((t, r)) => parse_str_body(pre) == Some((out + t, r)),
    }
}

proof fn lemma_body_step_push(pre: Seq<char>, out: Seq<char>, suf: Seq<char>, c: char, suf2: Seq<char>)
    requires
        body_step(pre, out, suf),
        parse_str_body(suf) == (match parse_str_body(suf2) {
            None => None::<(Seq<char>, Seq<char>)>,
            Some((t, r)) => Some((seq![c] + t, r)),
        }),
    ensures
        body_step(pre, out.push(c), suf2),
{
    match parse_str_body(suf2) {
        None => {},
        Some((t, r)) => {
            assert(out + (seq![c] + t) =~= out.push(c) + t);
        },
    }
}

/// Parses the body of a quoted field starting at `i` (after the opening
/// quote): the decoded characters and the position after the closing quote.
#[verifier::rlimit(60)]
fn parse_str_exec(cs: &Vec<char>, i: usize) -> (r: Option<(Vec<char>, usize)>)
    requires
        i <= cs@.len(),
    ensures
        match r {
            Some(tj) => tj.1 <= cs@.len() && parse_str_body(cs@.skip(i as int)) == Some(
                (tj.0@, cs@.skip(tj.1 as int)),
            ),
            None => parse_str_body(cs@.skip(i as int)) is None,
        },
{
    let n = cs.len();
    let mut out: Vec<char> = Vec::new();
    let mut p = i;
    proof {
        assert(out@ + Seq::<char>::empty() =~= out@);
    }
    loop
        invariant
            i <= p <= n,
            n == cs@.len(),
            body_step(cs@.skip(i as int), out@, cs@.skip(p as int)),
        decreases n - p,
    {
        let ghost s = cs@.skip(p as int);
        if p == n {
            assert(s.len() == 0);
            return None;
        }
        let c = cs[p];
        assert(s[0] == c);
        if c == '"' {
            proof {
                assert(s.skip(1) =~= cs@.skip(p as int + 1));
                assert(parse_str_body(s) == Some((Seq::<char>::empty(), cs@.skip(p as int + 1))));
                assert(out@ + Seq::<char>::empty() =~= out@);
            }
            return Some((out, p + 1));
        }
        if c == '\\' {
            if p + 1 == n {
                assert(s.len() < 2);
                return None;
            }
            let e = cs[p + 1];
            assert(s[1] == e);
            if e == 'u' {
                proof {
                    assert(s.skip(2) =~= cs@.skip(p as int + 2));
                }
                let h = hex4_exec(cs, p + 2);
                match h {
                    None => {
                        return None;
                    },
                    Some(nval) => {
                        if 0xD800 <= nval && nval <= 0xDBFF {
                            if n - p < 8 {
                                assert(s.len() < 8);
                                return None;
                            }
                            let c6 = cs[p + 6];
                            let c7 = cs[p + 7];
                            assert(s[6] == c6);
                            assert(s[7] == c7);
                            if !(c6 == '\\' && c7 == 'u') {
                                return None;
                            }
                            proof {
                                assert(s.skip(8) =~= cs@.skip(p as int + 8));
                            }
                            let h2 = hex4_exec(cs, p + 8);
                            match h2 {
                                None => {
                                    return None;
                                },
                                Some(mval) => {
                                    if !(0xDC00 <= mval && mval <= 0xDFFF) {
                                        return None;
                                    }
                                    let code: u32 = 0x10000 + (nval - 0xD800) * 0x400 + (mval
                                        - 0xDC00);
                                    proof {
                                        assert(0x10000 <= code && code <= 0x10FFFF);
                                        assert(crate::valid_char_code(code));
                                        assert(s.skip(12) =~= cs@.skip(p as int + 12));
                                    }
                                    let ch = match char_from_code(code) {
                                        Some(ch) => ch,
                                        None => {
                                            proof {
                                                assert(false);
                                            }
                                            vstd::pervasive::unreached()
                                        },
                                    };
                                    proof {
                                        lemma_body_step_push(
                                            cs@.skip(i as int),
                                            out@,
                                            s,
                                            ch,
                                            cs@.skip(p as int + 12),
                                        );
                                    }
                                    out.push(ch);
                                    p = p + 12;
                                },
                            }
                        } else if 0xDC00 <= nval && nval <= 0xDFFF {
                            return None;
                        } else {
                            proof {
                                assert(nval < 0xD800 || nval > 0xDFFF);
                                assert(crate::valid_char_code(nval));
                                assert(s.skip(6) =~= cs@.skip(p as int + 6));
                            }
                            let ch = match char_from_code(nval) {
                                Some(ch) => ch,
                                None => {
                                    proof {
                                        assert(false);
                                    }
                                    vstd::pervasive::unreached()
                                },
                            };
                            proof {
                                lemma_body_step_push(
                                    cs@.skip(i as int),
                                    out@,
                                    s,
                                    ch,
                                    cs@.skip(p as int + 6),
                                );
                            }
                            out.push(ch);
                            p = p + 6;
                        }
                    },
                }
            } else {
                let u = short_unesc_exec(e);
                match u {
                    None => {
                        return None;
                    },
                    Some(c2) => {
                        proof {
                            assert(s.skip(2) =~= cs@.skip(p as int + 2));
                            lemma_body_step_push(
                                cs@.skip(i as int),
                                out@,
                                s,
                                c2,
                                cs@.skip(p as int + 2),
                            );
                        }
                        out.push(c2);
                        p = p + 2;
                    },
                }
            }
        } else if (c as u32) < 0x20 {
            return None;
        } else {
            proof {
                assert(s.skip(1) =~= cs@.skip(p as int + 1));
                lemma_body_step_push(cs@.skip(i as int), out@, s, c, cs@.skip(p as int + 1));
            }
            out.push(c);
            p = p + 1;
        }
    }
}

/// The parse of `pre` from an empty accumulator equals the parse of a suffix
/// from the accumulated map.
pub open spec fn members_step(pre: Seq<char>, m: Map<Seq<char>, Seq<char>>, suf: Seq<char>) -> bool {
    parse_members(pre, Map::empty()) == parse_members(suf, m)
}

/// Parses the members of a non-empty object, positioned at the opening quote
/// of the first field name: the decoded bundle and the position after the
/// closing brace.
#[verifier::rlimit(100)]
fn parse_members_exec(cs: &Vec<char>, start: usize) -> (r: Option<(Bundle, usize)>)
    requires
        start <= cs@.len(),
    ensures
        match r {
            Some(bj) => bj.1 <= cs@.len() && bj.0.wf() && parse_members(
                cs@.skip(start as int),
                Map::empty(),
            ) == Some((bj.0@, cs@.skip(bj.1 as int))),
            None => parse_members(cs@.skip(start as int), Map::empty()) is None,
        },
{
    let n = cs.len();
    let mut b = Bundle::new();
    let mut p = start;
    loop
        invariant
            start <= p <= n,
            n == cs@.len(),
            b.wf(),
            members_step(cs@.skip(start as int), b@, cs@.skip(p as int)),
        decreases n - p,
    {
        let ghost s = cs@.skip(p as int);
        if p == n {
            assert(s.len() == 0);
            return None;
        }
        if cs[p] != '"' {
            assert(s[0] == cs@[p as int]);
            return None;
        }
        assert(s[0] == '"');
        proof {
            assert(s.skip(1) =~= cs@.skip(p as int + 1));
        }
        let kr = parse_str_exec(cs, p + 1);
        match kr {
            None => {
                return None;
            },
            Some((kv, q1)) => {
                proof {
                    lemma_parse_str_body_len(cs@.skip(p as int + 1));
                }
                let ghost r1 = cs@.skip(q1 as int);
                let q2 = skip_ws_exec(cs, q1);
                let ghost r2 = cs@.skip(q2 as int);
                if q2 == n {
                    assert(r2.len() == 0);
                    return None;
                }
                if cs[q2] != ':' {
                    assert(r2[0] == cs@[q2 as int]);
                    return None;
                }
                assert(r2[0] == ':');
                proof {
                    assert(r2.skip(1) =~= cs@.skip(q2 as int + 1));
                }
                let q3 = skip_ws_exec(cs, q2 + 1);
                let ghost r3 = cs@.skip(q3 as int);
                if q3 == n {
                    assert(r3.len() == 0);
                    return None;
                }
                if cs[q3] != '"' {
                    assert(r3[0] == cs@[q3 as int]);
                    return None;
                }
                assert(r3[0] == '"');
                proof {
                    assert(r3.skip(1) =~= cs@.skip(q3 as int + 1));
                }
                let vr = parse_str_exec(cs, q3 + 1);
                match vr {
                    None => {
                        return None;
                    },
                    Some((vv, q4)) => {
                        proof {
                            lemma_parse_str_body_len(cs@.skip(q3 as int + 1));
                        }
                        let kstr = string_from_chars(&kv);
                        let vstr = string_from_chars(&vv);
                        b.insert(kstr, vstr);
                        let q5 = skip_ws_exec(cs, q4);
                        let ghost r5 = cs@.skip(q5 as int);
                        if q5 == n {
                            assert(r5.len() == 0);
                            return None;
                        }
                        if cs[q5] == ',' {
                            assert(r5[0] == ',');
                            proof {
                                assert(r5.skip(1) =~= cs@.skip(q5 as int + 1));
                            }
                            let p2 = skip_ws_exec(cs, q5 + 1);
                            p = p2;
                        } else if cs[q5] == '}' {
                            assert(r5[0] == '}');
                            proof {
                                assert(r5.skip(1) =~= cs@.skip(q5 as int + 1));
                            }
                            return Some((b, q5 + 1));
                        } else {
                            assert(r5[0] == cs@[q5 as int]);
                            return None;
                        }
                    },
                }
            },
        }
    }
}

/// The message with which a malformed payload is rejected.
pub open spec fn decode_err_message() -> Seq<char> {
    "the secret payload is not an object of text fields"@
}

fn decode_err() -> (e: SyncError)
    ensures
        e.spec_kind() == crate::errors::ErrorKind::Decode,
        e.spec_message() == decode_err_message(),
{
    SyncError::Decode {
        message: String::from_str("the secret payload is not an object of text fields"),
    }
}

/// Reads a payload back into a bundle.  Succeeds exactly on the texts that
/// denote an object of text fields, whatever their whitespace and escapes.
pub fn decode(s: &str) -> (r: Result<Bundle, SyncError>)
    ensures
        match r {
            Ok(b) => b.wf() && parse_payload(s@) == Some(b@),
            Err(e) => parse_payload(s@) is None && e.spec_kind() == crate::errors::ErrorKind::Decode
                && e.spec_message() == decode_err_message(),
        },
{
    let cs = chars_of(s);
    let n = cs.len();
    proof {
        assert(cs@.skip(0) =~= s@);
    }
    let j1 = skip_ws_exec(&cs, 0);
    let ghost t = cs@.skip(j1 as int);
    if j1 == n {
        assert(t.len() == 0);
        return Err(decode_err());
    }
    if cs[j1] != '{' {
        assert(t[0] == cs@[j1 as int]);
        return Err(decode_err());
    }
    assert(t[0] == '{');
    proof {
        assert(t.skip(1) =~= cs@.skip(j1 as int + 1));
    }
    let ju = skip_ws_exec(&cs, j1 + 1);
    let ghost u = cs@.skip(ju as int);
    if ju < n && cs[ju] == '}' {
        assert(u.len() > 0 && u[0] == '}');
        proof {
            assert(u.skip(1) =~= cs@.skip(ju as int + 1));
        }
        let je = skip_ws_exec(&cs, ju + 1);
        if je == n {
            assert(cs@.skip(je as int).len() == 0);
            let b = Bundle::new();
            return Ok(b);
        }
        assert(skip_ws(u.skip(1)).len() > 0);
        return Err(decode_err());
    }
    proof {
        if u.len() > 0 {
            assert(u[0] == cs@[ju as int]);
        }
        assert(!(u.len() > 0 && u[0] == '}'));
    }
    let mr = parse_members_exec(&cs, ju);
    match mr {
        None => Err(decode_err()),
        Some((b, jr)) => {
            let jf = skip_ws_exec(&cs, jr);
            if jf == n {
                assert(cs@.skip(jf as int).len() == 0);
                Ok(b)
            } else {
                assert(skip_ws(cs@.skip(jr as int)).len() > 0);
                Err(decode_err())
            }
        },
    }
}

proof fn lemma_hex_digit_val(d: int)
    requires
        0 <= d < 16,
    ensures
        hex_val(hex_digit_char(d)) == Some(d),
{
}

/// Dropping a leading whitespace character commutes with `skip_ws`.
proof fn lemma_skip_ws_uncons(c: char, t: Seq<char>)
    requires
        is_json_ws(c),
    ensures
        skip_ws(seq![c] + t) == skip_ws(t),
{
    let s = seq![c] + t;
    assert(s[0] == c);
    assert(s.skip(1) =~= t);
}

/// Parsing the written form of one character decodes that character.
proof fn lemma_parse_esc_char(c: char, tail: Seq<char>, t0: Seq<char>, r0: Seq<char>)
    requires
        parse_str_body(tail) == Some((t0, r0)),
    ensures
        parse_str_body(esc_char(c) + tail) == Some((seq![c] + t0, r0)),
{
    let s = esc_char(c) + tail;
    if c == '"' || c == '\\' || c == '\u{8}' || c == '\t' || c == '\n' || c == '\u{c}' || c == '\r' {
        assert(s[0] == '\\');
        assert(s[1] == esc_char(c)[1]);
        assert(s[1] != 'u');
        assert(short_unesc(s[1]) == Some(c));
        assert(s.skip(2) =~= tail);
        assert(parse_str_body(s) == Some((seq![c] + t0, r0)));
    } else if (c as u32) < 0x20 {
        let hi = (c as int) / 16;
        let lo = (c as int) % 16;
        assert(0 <= hi < 2);
        assert(0 <= lo < 16);
        assert(s[0] == '\\');
        assert(s[1] == 'u');
        assert(s.skip(2) =~= seq!['0', '0', hex_digit_char(hi), hex_digit_char(lo)] + tail);
        let h = s.skip(2);
        assert(h[0] == '0');
        assert(h[1] == '0');
        assert(h[2] == hex_digit_char(hi));
        assert(h[3] == hex_digit_char(lo));
        lemma_hex_digit_val(0);
        lemma_hex_digit_val(hi);
        lemma_hex_digit_val(lo);
        assert(hex_val('0') == Some(0int));
        assert(hex4_val(h) == Some(hi * 16 + lo));
        assert(hi * 16 + lo == c as int);
        assert(hex4_val(h) == Some(c as int));
        assert((c as int) < 0x20);
        assert(s.skip(6) =~= tail);
        vstd::utf8::char_u32_cast(c, c as u32);
        assert((((c as int) as u32) as char) == c);
        assert(parse_str_body(s) == Some((seq![c] + t0, r0)));
    } else {
        assert(esc_char(c) == seq![c]);
        assert(s[0] == c);
        assert(s.skip(1) =~= tail);
        assert(parse_str_body(s) == Some((seq![c] + t0, r0)));
    }
}

/// Parsing the written form of a text, followed by the closing quote,
/// decodes exactly that text.
proof fn lemma_parse_esc(k: Seq<char>, rest: Seq<char>)
    ensures
        parse_str_body(esc(k) + seq!['"'] + rest) == Some((k, rest)),
    decreases k.len(),
{
    if k.len() == 0 {
        let s = esc(k) + seq!['"'] + rest;
        assert(s =~= seq!['"'] + rest);
        assert(s[0] == '"');
        assert(s.skip(1) =~= rest);
        assert(Seq::<char>::empty() =~= k);
        assert(parse_str_body(s) == Some((k, rest)));
    } else {
        lemma_parse_esc(k.skip(1), rest);
        let inner = esc(k.skip(1)) + seq!['"'] + rest;
        lemma_parse_esc_char(k[0], inner, k.skip(1), rest);
        assert(esc(k) + seq!['"'] + rest =~= esc_char(k[0]) + inner);
        assert(seq![k[0]] + k.skip(1) =~= k);
    }
}

/// Parsing the written entries, followed by the closing line, accumulates
/// exactly those entries.
#[verifier::rlimit(60)]
proof fn lemma_parse_enc_entries(es: Seq<(Seq<char>, Seq<char>)>, m: Map<Seq<char>, Seq<char>>)
    requires
        es.len() > 0,
    ensures
        ({
            let w = skip_ws(enc_entries(es) + seq!['\n', '}']);
            w.len() > 0 && w[0] == '"' && parse_members(w, m) == Some(
                (insert_all(m, es), Seq::<char>::empty()),
            )
        }),
    decreases es.len(),
{
    let k = es[0].0;
    let v = es[0].1;
    let sep: Seq<char> = if es.len() == 1 {
        seq!['\n', '}']
    } else {
        seq![',', '\n'] + enc_entries(es.skip(1)) + seq!['\n', '}']
    };
    let mid = seq![':', ' ', '"'] + esc(v) + seq!['"'] + sep;
    let rbody = esc(k) + seq!['"'] + mid;
    let x = enc_entries(es) + seq!['\n', '}'];
    assert(x =~= seq![' '] + (seq![' '] + (seq!['"'] + rbody)));
    lemma_skip_ws_uncons(' ', seq![' '] + (seq!['"'] + rbody));
    lemma_skip_ws_uncons(' ', seq!['"'] + rbody);
    assert((seq!['"'] + rbody)[0] == '"');
    assert(skip_ws(seq!['"'] + rbody) == seq!['"'] + rbody);
    let w = seq!['"'] + rbody;
    assert(skip_ws(x) == w);
    assert(w.len() > 0 && w[0] == '"');
    assert(w.skip(1) =~= rbody);
    lemma_parse_esc(k, mid);
    assert(parse_str_body(w.skip(1)) == Some((k, mid)));
    assert(mid[0] == ':');
    assert(skip_ws(mid) == mid);
    assert(mid.skip(1) =~= seq![' '] + (seq!['"'] + (esc(v) + seq!['"'] + sep)));
    lemma_skip_ws_uncons(' ', seq!['"'] + (esc(v) + seq!['"'] + sep));
    let r3 = seq!['"'] + (esc(v) + seq!['"'] + sep);
    assert(r3[0] == '"');
    assert(skip_ws(r3) == r3);
    assert(skip_ws(mid.skip(1)) == r3);
    assert(r3.skip(1) =~= esc(v) + seq!['"'] + sep);
    lemma_parse_esc(v, sep);
    assert(parse_str_body(r3.skip(1)) == Some((v, sep)));
    let m2 = m.insert(k, v);
    if es.len() == 1 {
        assert(sep[0] == '\n');
        assert(sep.skip(1) =~= seq!['}']);
        lemma_skip_ws_uncons('\n', seq!['}']);
        assert(sep =~= seq!['\n'] + seq!['}']);
        assert(skip_ws(sep) == seq!['}']);
        let r5 = skip_ws(sep);
        assert(r5[0] == '}');
        assert(r5.skip(1) =~= Seq::<char>::empty());
        assert(insert_all(m, es) == insert_all(m2, es.skip(1)));
        assert(es.skip(1).len() == 0);
        assert(insert_all(m2, es.skip(1)) == m2);
        assert(parse_members(w, m) == Some((insert_all(m, es), Seq::<char>::empty())));
    } else {
        assert(sep[0] == ',');
        assert(skip_ws(sep) == sep);
        let r5 = sep;
        assert(r5.skip(1) =~= seq!['\n'] + (enc_entries(es.skip(1)) + seq!['\n', '}']));
        lemma_skip_ws_uncons('\n', enc_entries(es.skip(1)) + seq!['\n', '}']);
        assert(skip_ws(r5.skip(1)) == skip_ws(enc_entries(es.skip(1)) + seq!['\n', '}']));
        lemma_parse_enc_entries(es.skip(1), m2);
        assert(parse_members(skip_ws(r5.skip(1)), m2) == Some(
            (insert_all(m2, es.skip(1)), Seq::<char>::empty()),
        ));
        assert(insert_all(m, es) == insert_all(m2, es.skip(1)));
        assert(parse_members(w, m) == Some((insert_all(m, es), Seq::<char>::empty())));
    }
}

/// Round trip: the encoding of any sequence of entries parses back to
/// exactly the mapping those entries describe.
pub proof fn lemma_round_trip(es: Seq<(Seq<char>, Seq<char>)>)
    ensures
        parse_payload(encode_spec(es)) == Some(map_of(es)),
{
    let s = encode_spec(es);
    if es.len() == 0 {
        assert(s == seq!['{', '}']);
        assert(s[0] == '{');
        assert(skip_ws(s) == s);
        assert(s.skip(1) =~= seq!['}']);
        assert(skip_ws(seq!['}']) == seq!['}']);
        let u = seq!['}'];
        assert(u[0] == '}');
        assert(u.skip(1) =~= Seq::<char>::empty());
        assert(skip_ws(Seq::<char>::empty()).len() == 0);
        assert(map_of(es) == Map::<Seq<char>, Seq<char>>::empty());
        assert(parse_payload(s) == Some(map_of(es)));
    } else {
        let body = enc_entries(es) + seq!['\n', '}'];
        assert(s[0] == '{');
        assert(skip_ws(s) == s);
        assert(s.skip(1) =~= seq!['\n'] + body);
        lemma_skip_ws_uncons('\n', body);
        assert(skip_ws(s.skip(1)) == skip_ws(body));
        lemma_parse_enc_entries(es, Map::empty());
        let u = skip_ws(body);
        assert(u.len() > 0 && u[0] == '"');
        assert(u[0] != '}');
        assert(parse_members(u, Map::empty()) == Some((map_of(es), Seq::<char>::empty())));
        assert(skip_ws(Seq::<char>::empty()).len() == 0);
        assert(parse_payload(s) == Some(map_of(es)));
    }
}

/// Round trip at the bundle level: when the encoding of one sorted sequence
/// of entries parses to the map of another, the two sequences are the same,
/// entry for entry.  With `encode`'s and `decode`'s contracts this says that
/// decoding the encoding of any well-formed bundle gives that bundle back.
pub proof fn lemma_round_trip_bundle(
    es: Seq<(Seq<char>, Seq<char>)>,
    es2: Seq<(Seq<char>, Seq<char>)>,
)
    requires
        sorted_unique(es),
        sorted_unique(es2),
        parse_payload(encode_spec(es)) == Some(map_of(es2)),
    ensures
        es2 == es,
{
    lemma_round_trip(es);
    lemma_sorted_unique_canonical(es2, es);
}

} // verus!
