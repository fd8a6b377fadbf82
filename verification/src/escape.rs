//! JSON string text: escaping on the way out, unescaping on the way in, and
//! the proof that reading back what was written restores the original text.

use crate::text::char_from_code;
use vstd::prelude::*;

verus! {

/// The hexadecimal digit of a value below sixteen, lower case.
pub open spec fn hex_char(d: int) -> char {
    if d == 0 {
        '0'
    } else if d == 1 {
        '1'
    } else if d == 2 {
        '2'
    } else if d == 3 {
        '3'
    } else if d == 4 {
        '4'
    } else if d == 5 {
        '5'
    } else if d == 6 {
        '6'
    } else if d == 7 {
        '7'
    } else if d == 8 {
        '8'
    } else if d == 9 {
        '9'
    } else if d == 10 {
        'a'
    } else if d == 11 {
        'b'
    } else if d == 12 {
        'c'
    } else if d == 13 {
        'd'
    } else if d == 14 {
        'e'
    } else {
        'f'
    }
}

/// The value of a hexadecimal digit, either case; sixteen for any other
/// character.
pub open spec fn hex_val(c: char) -> int {
    if c == '0' {
        0
    } else if c == '1' {
        1
    } else if c == '2' {
        2
    } else if c == '3' {
        3
    } else if c == '4' {
        4
    } else if c == '5' {
        5
    } else if c == '6' {
        6
    } else if c == '7' {
        7
    } else if c == '8' {
        8
    } else if c == '9' {
        9
    } else if c == 'a' || c == 'A' {
        10
    } else if c == 'b' || c == 'B' {
        11
    } else if c == 'c' || c == 'C' {
        12
    } else if c == 'd' || c == 'D' {
        13
    } else if c == 'e' || c == 'E' {
        14
    } else if c == 'f' || c == 'F' {
        15
    } else {
        16
    }
}

pub open spec fn is_hex(c: char) -> bool {
    hex_val(c) < 16
}

/// How one character is written inside a JSON string: itself, a two-character
/// escape, or a `\u00..` escape for the remaining control characters.
pub open spec fn esc_char(c: char) -> Seq<char> {
    if c == '"' {
        seq!['\\', '"']
    } else if c == '\\' {
        seq!['\\', '\\']
    } else if c == '\n' {
        seq!['\\', 'n']
    } else if c == '\r' {
        seq!['\\', 'r']
    } else if c == '\t' {
        seq!['\\', 't']
    } else if (c as u32) < 0x20 {
        seq!['\\', 'u', '0', '0', hex_char((c as u32) as int / 16), hex_char((c as u32) as int % 16)]
    } else {
        seq![c]
    }
}

/// How a text is written inside a JSON string, character by character.
pub open spec fn esc_seq(s: Seq<char>) -> Seq<char>
    decreases s.len(),
{
    if s.len() == 0 {
        Seq::empty()
    } else {
        esc_char(s[0]) + esc_seq(s.drop_first())
    }
}

/// The character a two-character escape stands for, if the second character
/// makes one.
pub open spec fn short_escape(e: char) -> Option<char> {
    if e == '"' {
        Some('"')
    } else if e == '\\' {
        Some('\\')
    } else if e == '/' {
        Some('/')
    } else if e == 'n' {
        Some('\n')
    } else if e == 't' {
        Some('\t')
    } else if e == 'r' {
        Some('\r')
    } else if e == 'b' {
        Some('\u{0008}')
    } else if e == 'f' {
        Some('\u{000C}')
    } else {
        None
    }
}

/// Reading a JSON string body up to its closing quote: the text it denotes
/// and how many characters were read, the quote included. `None` on a
/// malformed body: an unterminated string, an unknown or truncated escape, a
/// `\u` escape naming a surrogate, or a raw control character.
pub open spec fn unesc(s: Seq<char>) -> Option<(Seq<char>, nat)>
    decreases s.len(),
{
    if s.len() == 0 {
        None
    } else if s[0] == '"' {
        Some((Seq::empty(), 1nat))
    } else if s[0] == '\\' {
        if s.len() < 2 {
            None
        } else if s[1] == 'u' {
            if s.len() >= 6 && is_hex(s[2]) && is_hex(s[3]) && is_hex(s[4]) && is_hex(s[5]) {
                let code = hex_val(s[2]) * 4096 + hex_val(s[3]) * 256 + hex_val(s[4]) * 16
                    + hex_val(s[5]);
                if code < 0xD800 || code >= 0xE000 {
                    match unesc(s.skip(6)) {
                        Some(p) => Some((seq![((code as u32) as char)] + p.0, (6 + p.1) as nat)),
                        None => None,
                    }
                } else {
                    None
                }
            } else {
                None
            }
        } else {
            match short_escape(s[1]) {
                Some(c) => match unesc(s.skip(2)) {
                    Some(p) => Some((seq![c] + p.0, (2 + p.1) as nat)),
                    None => None,
                },
                None => None,
            }
        }
    } else if (s[0] as u32) < 0x20 {
        None
    } else {
        match unesc(s.skip(1)) {
            Some(p) => Some((seq![s[0]] + p.0, (1 + p.1) as nat)),
            None => None,
        }
    }
}

/// A successful read consumes at least the closing quote and no more than
/// the whole text.
pub proof fn lemma_unesc_bound(s: Seq<char>)
    ensures
        unesc(s) matches Some(p) ==> 1 <= p.1 <= s.len(),
    decreases s.len(),
{
    if s.len() == 0 {
    } else if s[0] == '"' {
    } else if s[0] == '\\' {
        if s.len() >= 2 {
            if s[1] == 'u' {
                if s.len() >= 6 {
                    lemma_unesc_bound(s.skip(6));
                }
            } else {
                lemma_unesc_bound(s.skip(2));
            }
        }
    } else {
        lemma_unesc_bound(s.skip(1));
    }
}

/// The hexadecimal digit of a value below sixteen, as executable code.
pub fn hex_char_exec(d: u32) -> (c: char)
    requires
        d <= 15,
    ensures
        c == hex_char(d as int),
{
    if d == 0 {
        '0'
    } else if d == 1 {
        '1'
    } else if d == 2 {
        '2'
    } else if d == 3 {
        '3'
    } else if d == 4 {
        '4'
    } else if d == 5 {
        '5'
    } else if d == 6 {
        '6'
    } else if d == 7 {
        '7'
    } else if d == 8 {
        '8'
    } else if d == 9 {
        '9'
    } else if d == 10 {
        'a'
    } else if d == 11 {
        'b'
    } else if d == 12 {
        'c'
    } else if d == 13 {
        'd'
    } else if d == 14 {
        'e'
    } else {
        'f'
    }
}

/// The value of a hexadecimal digit, as executable code; sixteen for any
/// other character.
pub fn hex_val_exec(c: char) -> (d: u32)
    ensures
        d == hex_val(c),
{
    if c == '0' {
        0
    } else if c == '1' {
        1
    } else if c == '2' {
        2
    } else if c == '3' {
        3
    } else if c == '4' {
        4
    } else if c == '5' {
        5
    } else if c == '6' {
        6
    } else if c == '7' {
        7
    } else if c == '8' {
        8
    } else if c == '9' {
        9
    } else if c == 'a' || c == 'A' {
        10
    } else if c == 'b' || c == 'B' {
        11
    } else if c == 'c' || c == 'C' {
        12
    } else if c == 'd' || c == 'D' {
        13
    } else if c == 'e' || c == 'E' {
        14
    } else if c == 'f' || c == 'F' {
        15
    } else {
        16
    }
}

/// How one character is written inside a JSON string, as executable code.
pub fn esc_char_exec(c: char) -> (v: Vec<char>)
    ensures
        v@ == esc_char(c),
{
    let mut v: Vec<char> = Vec::new();
    if c == '"' {
        v.push('\\');
        v.push('"');
        assert(v@ =~= esc_char(c));
    } else if c == '\\' {
        v.push('\\');
        v.push('\\');
        assert(v@ =~= esc_char(c));
    } else if c == '\n' {
        v.push('\\');
        v.push('n');
        assert(v@ =~= esc_char(c));
    } else if c == '\r' {
        v.push('\\');
        v.push('r');
        assert(v@ =~= esc_char(c));
    } else if c == '\t' {
        v.push('\\');
        v.push('t');
        assert(v@ =~= esc_char(c));
    } else if (c as u32) < 0x20 {
        let u = c as u32;
        v.push('\\');
        v.push('u');
        v.push('0');
        v.push('0');
        v.push(hex_char_exec(u / 16));
        v.push(hex_char_exec(u % 16));
        assert(v@ =~= esc_char(c));
    } else {
        v.push(c);
        assert(v@ =~= esc_char(c));
    }
    v
}

/// The whole text written inside a JSON string, as executable code.
pub fn escape_from(v: &Vec<char>, i: usize) -> (out: Vec<char>)
    requires
        i <= v.len(),
    ensures
        out@ == esc_seq(v@.skip(i as int)),
    decreases v.len() - i,
{
    if i == v.len() {
        let out: Vec<char> = Vec::new();
        assert(v@.skip(i as int) =~= Seq::<char>::empty());
        out
    } else {
        let mut out = esc_char_exec(v[i]);
        let mut tail = escape_from(v, i + 1);
        out.append(&mut tail);
        proof {
            let s = v@.skip(i as int);
            assert(s.len() > 0);
            assert(s[0] == v@[i as int]);
            assert(s.drop_first() =~= v@.skip(i + 1));
            assert(out@ =~= esc_char(s[0]) + esc_seq(s.drop_first()));
        }
        out
    }
}

/// Reading a JSON string body up to its closing quote, as executable code:
/// the text and the position just past the quote.
pub fn unesc_exec(v: &Vec<char>, i: usize) -> (r: Option<(Vec<char>, usize)>)
    requires
        i <= v.len(),
    ensures
        ({
            let m = unesc(v@.skip(i as int));
            &&& (r is Some <==> m is Some)
            &&& (r matches Some(p) ==> m matches Some(q) && p.0@ == q.0 && p.1 == i + q.1 && i
                + q.1 <= v@.len())
        }),
    decreases v.len() - i,
{
    proof {
        lemma_unesc_bound(v@.skip(i as int));
    }
    let ghost s = v@.skip(i as int);
    if i == v.len() {
        assert(s.len() == 0);
        return None;
    }
    let c0 = v[i];
    assert(c0 == s[0]);
    if c0 == '"' {
        let out: Vec<char> = Vec::new();
        assert(out@ =~= Seq::<char>::empty());
        return Some((out, i + 1));
    }
    if c0 == '\\' {
        if i + 1 == v.len() {
            assert(s.len() < 2);
            return None;
        }
        let c1 = v[i + 1];
        assert(c1 == s[1]);
        if c1 == 'u' {
            if v.len() - i < 6 {
                assert(s.len() < 6);
                return None;
            }
            assert(s.len() >= 6);
            let h2 = hex_val_exec(v[i + 2]);
            let h3 = hex_val_exec(v[i + 3]);
            let h4 = hex_val_exec(v[i + 4]);
            let h5 = hex_val_exec(v[i + 5]);
            assert(v@[i + 2] == s[2] && v@[i + 3] == s[3] && v@[i + 4] == s[4] && v@[i + 5]
                == s[5]);
            if h2 > 15 || h3 > 15 || h4 > 15 || h5 > 15 {
                return None;
            }
            let code: u32 = h2 * 4096 + h3 * 256 + h4 * 16 + h5;
            if code >= 0xD800 && code < 0xE000 {
                return None;
            }
            let c = match char_from_code(code) {
                Some(c) => c,
                None => {
                    proof {
                        assert(false);
                    }
                    '0'
                },
            };
            proof {
                vstd::utf8::char_u32_cast(c, code);
            }
            match unesc_exec(v, i + 6) {
                Some(p) => {
                    let (tail, j) = p;
                    let mut out: Vec<char> = Vec::new();
                    out.push(c);
                    let mut t = tail;
                    out.append(&mut t);
                    proof {
                        assert(s.skip(6) =~= v@.skip(i + 6));
                        let q = unesc(s.skip(6)).unwrap();
                        assert(out@ =~= seq![c] + q.0);
                    }
                    Some((out, j))
                },
                None => {
                    assert(v@.skip(i + 6) =~= s.skip(6));
                    None
                },
            }
        } else {
            let rep: char = if c1 == '"' {
                '"'
            } else if c1 == '\\' {
                '\\'
            } else if c1 == '/' {
                '/'
            } else if c1 == 'n' {
                '\n'
            } else if c1 == 't' {
                '\t'
            } else if c1 == 'r' {
                '\r'
            } else if c1 == 'b' {
                '\u{0008}'
            } else if c1 == 'f' {
                '\u{000C}'
            } else {
                assert(short_escape(s[1]) is None);
                return None;
            };
            assert(short_escape(s[1]) == Some(rep));
            match unesc_exec(v, i + 2) {
                Some(p) => {
                    let (tail, j) = p;
                    let mut out: Vec<char> = Vec::new();
                    out.push(rep);
                    let mut t = tail;
                    out.append(&mut t);
                    proof {
                        assert(s.skip(2) =~= v@.skip(i + 2));
                        let q = unesc(s.skip(2)).unwrap();
                        assert(out@ =~= seq![rep] + q.0);
                    }
                    Some((out, j))
                },
                None => {
                    assert(v@.skip(i + 2) =~= s.skip(2));
                    None
                },
            }
        }
    } else if (c0 as u32) < 0x20 {
        None
    } else {
        match unesc_exec(v, i + 1) {
            Some(p) => {
                let (tail, j) = p;
                let mut out: Vec<char> = Vec::new();
                out.push(c0);
                let mut t = tail;
                out.append(&mut t);
                proof {
                    assert(s.skip(1) =~= v@.skip(i + 1));
                    let q = unesc(s.skip(1)).unwrap();
                    assert(out@ =~= seq![c0] + q.0);
                }
                Some((out, j))
            },
            None => {
                assert(v@.skip(i + 1) =~= s.skip(1));
                None
            },
        }
    }
}

/// Reading back an escaped text followed by its closing quote restores the
/// text and stops just past the quote, whatever follows.
pub proof fn lemma_unesc_esc(s: Seq<char>, rest: Seq<char>)
    ensures
        unesc(esc_seq(s) + seq!['"'] + rest) == Some((s, (esc_seq(s).len() + 1) as nat)),
    decreases s.len(),
{
    let t = esc_seq(s) + seq!['"'] + rest;
    if s.len() == 0 {
        assert(esc_seq(s) =~= Seq::<char>::empty());
        assert(t[0] == '"');
        assert(s =~= Seq::<char>::empty());
    } else {
        let c = s[0];
        let e = esc_char(c);
        let tail = s.drop_first();
        let t2 = esc_seq(tail) + seq!['"'] + rest;
        lemma_unesc_esc(tail, rest);
        assert(esc_seq(s) == e + esc_seq(tail));
        assert(t =~= e + t2);
        let n2 = (esc_seq(tail).len() + 1) as nat;
        if c == '"' || c == '\\' || c == '\n' || c == '\r' || c == '\t' {
            assert(e.len() == 2);
            assert(t[0] == e[0] && t[1] == e[1]);
            assert(t[0] == '\\');
            assert(t[1] != 'u');
            assert(short_escape(t[1]) == Some(c));
            assert(t.skip(2) =~= t2);
            assert(unesc(t) == Some((seq![c] + tail, (2 + n2) as nat)));
            assert(seq![c] + tail =~= s);
            assert(2 + n2 == esc_seq(s).len() + 1);
        } else if (c as u32) < 0x20 {
            let u = (c as u32) as int;
            assert(e == seq!['\\', 'u', '0', '0', hex_char(u / 16), hex_char(u % 16)]);
            assert(e.len() == 6);
            assert(t[0] == '\\' && t[1] == 'u');
            assert(t[2] == '0' && t[3] == '0' && t[4] == hex_char(u / 16) && t[5] == hex_char(
                u % 16,
            ));
            assert(0 <= u < 0x20);
            assert(0 <= u / 16 <= 15 && 0 <= u % 16 <= 15);
            assert(is_hex(t[2]) && is_hex(t[3]) && is_hex(t[4]) && is_hex(t[5]));
            let code = hex_val(t[2]) * 4096 + hex_val(t[3]) * 256 + hex_val(t[4]) * 16 + hex_val(
                t[5],
            );
            assert(hex_val(hex_char(u / 16)) == u / 16);
            assert(hex_val(hex_char(u % 16)) == u % 16);
            assert(code == u / 16 * 16 + u % 16);
            assert(code == u);
            assert(code < 0xD800);
            assert(t.skip(6) =~= t2);
            vstd::utf8::char_u32_cast(c, c as u32);
            assert(((code as u32) as char) == c);
            assert(unesc(t) == Some((seq![c] + tail, (6 + n2) as nat)));
            assert(seq![c] + tail =~= s);
            assert(6 + n2 == esc_seq(s).len() + 1);
        } else {
            assert(e == seq![c]);
            assert(t[0] == c);
            assert(t[0] != '"' && t[0] != '\\');
            assert(!((t[0] as u32) < 0x20));
            assert(t.skip(1) =~= t2);
            assert(unesc(t) == Some((seq![c] + tail, (1 + n2) as nat)));
            assert(seq![c] + tail =~= s);
            assert(1 + n2 == esc_seq(s).len() + 1);
        }
    }
}

} // verus!
