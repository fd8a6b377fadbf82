//! The wire shape of the metadata service: a flat JSON object whose values
//! are strings and one signed integer. The module states what a body
//! denotes, writes a record in that shape, reads one back, and proves that
//! reading back a written record restores it field for field.

use crate::comic::Comic;
use crate::escape::{esc_seq, escape_from, unesc, unesc_exec};
use crate::escape::lemma_unesc_esc;
use crate::numbers::{
    dec_digits, dec_int, fmt_i64, is_digit, is_digit_exec, lemma_dec_digits_shape,
    lemma_parse_int_dec, parse_int, parse_int_exec,
};
use crate::text::{chars_eq, chars_to_string, str_to_chars};
use vstd::prelude::*;

verus! {

/// The JSON whitespace characters.
pub open spec fn is_ws(c: char) -> bool {
    c == ' ' || c == '\t' || c == '\n' || c == '\r'
}

/// How many whitespace characters the text starts with.
pub open spec fn ws_count(s: Seq<char>) -> nat
    decreases s.len(),
{
    if s.len() > 0 && is_ws(s[0]) {
        (1 + ws_count(s.drop_first())) as nat
    } else {
        0
    }
}

/// A scalar member value: a string or an integer.
pub enum JsonVal {
    Text(Seq<char>),
    Int(int),
}

/// A member value as executable code holds it.
pub enum ParsedVal {
    Text(Vec<char>),
    Int(i64),
}

/// What a parsed value denotes.
pub open spec fn val_abs(v: ParsedVal) -> JsonVal {
    match v {
        ParsedVal::Text(t) => JsonVal::Text(t@),
        ParsedVal::Int(n) => JsonVal::Int(n as int),
    }
}

/// The fields gathered while reading an object, each at most once.
pub struct PartialFields {
    pub month: Option<Seq<char>>,
    pub num: Option<int>,
    pub link: Option<Seq<char>>,
    pub year: Option<Seq<char>>,
    pub news: Option<Seq<char>>,
    pub safe_title: Option<Seq<char>>,
    pub transcript: Option<Seq<char>>,
    pub alt: Option<Seq<char>>,
    pub img: Option<Seq<char>>,
    pub title: Option<Seq<char>>,
    pub day: Option<Seq<char>>,
}

pub open spec fn empty_fields() -> PartialFields {
    PartialFields {
        month: None,
        num: None,
        link: None,
        year: None,
        news: None,
        safe_title: None,
        transcript: None,
        alt: None,
        img: None,
        title: None,
        day: None,
    }
}

/// Recording one member: a known key takes its value once and must have the
/// right kind; a repeated known key is refused; an unknown key is ignored.
pub open spec fn set_field(p: PartialFields, key: Seq<char>, v: JsonVal) -> Option<PartialFields> {
    if key == "month"@ {
        match v {
            JsonVal::Text(t) => if p.month is None {
                Some(PartialFields { month: Some(t), ..p })
            } else {
                None
            },
            JsonVal::Int(n) => None,
        }
    } else if key == "num"@ {
        match v {
            JsonVal::Int(n) => if p.num is None {
                Some(PartialFields { num: Some(n), ..p })
            } else {
                None
            },
            JsonVal::Text(t) => None,
        }
    } else if key == "link"@ {
        match v {
            JsonVal::Text(t) => if p.link is None {
                Some(PartialFields { link: Some(t), ..p })
            } else {
                None
            },
            JsonVal::Int(n) => None,
        }
    } else if key == "year"@ {
        match v {
            JsonVal::Text(t) => if p.year is None {
                Some(PartialFields { year: Some(t), ..p })
            } else {
                None
            },
            JsonVal::Int(n) => None,
        }
    } else if key == "news"@ {
        match v {
            JsonVal::Text(t) => if p.news is None {
                Some(PartialFields { news: Some(t), ..p })
            } else {
                None
            },
            JsonVal::Int(n) => None,
        }
    } else if key == "safe_title"@ {
        match v {
            JsonVal::Text(t) => if p.safe_title is None {
                Some(PartialFields { safe_title: Some(t), ..p })
            } else {
                None
            },
            JsonVal::Int(n) => None,
        }
    } else if key == "transcript"@ {
        match v {
            JsonVal::Text(t) => if p.transcript is None {
                Some(PartialFields { transcript: Some(t), ..p })
            } else {
                None
            },
            JsonVal::Int(n) => None,
        }
    } else if key == "alt"@ {
        match v {
            JsonVal::Text(t) => if p.alt is None {
                Some(PartialFields { alt: Some(t), ..p })
            } else {
                None
            },
            JsonVal::Int(n) => None,
        }
    } else if key == "img"@ {
        match v {
            JsonVal::Text(t) => if p.img is None {
                Some(PartialFields { img: Some(t), ..p })
            } else {
                None
            },
            JsonVal::Int(n) => None,
        }
    } else if key == "title"@ {
        match v {
            JsonVal::Text(t) => if p.title is None {
                Some(PartialFields { title: Some(t), ..p })
            } else {
                None
            },
            JsonVal::Int(n) => None,
        }
    } else if key == "day"@ {
        match v {
            JsonVal::Text(t) => if p.day is None {
                Some(PartialFields { day: Some(t), ..p })
            } else {
                None
            },
            JsonVal::Int(n) => None,
        }
    } else {
        Some(p)
    }
}

/// Reading one scalar value.
pub open spec fn parse_value(s: Seq<char>) -> Option<(JsonVal, nat)> {
    if s.len() == 0 {
        None
    } else if s[0] == '"' {
        match unesc(s.skip(1)) {
            Some(p) => Some((JsonVal::Text(p.0), (1 + p.1) as nat)),
            None => None,
        }
    } else if s[0] == '-' || is_digit(s[0]) {
        match parse_int(s) {
            Some(p) => Some((JsonVal::Int(p.0), p.1)),
            None => None,
        }
    } else {
        None
    }
}

/// Reading one member: whitespace, a quoted key, whitespace, a colon,
/// whitespace, a value.
pub open spec fn parse_member(s: Seq<char>) -> Option<((Seq<char>, JsonVal), nat)> {
    let w = ws_count(s);
    let t = s.skip(w as int);
    if t.len() > 0 && t[0] == '"' {
        match unesc(t.skip(1)) {
            Some(kp) => {
                let after = t.skip(1 + kp.1 as int);
                let w2 = ws_count(after);
                let u = after.skip(w2 as int);
                if u.len() > 0 && u[0] == ':' {
                    let w3 = ws_count(u.skip(1));
                    let val_in = u.skip(1 + w3 as int);
                    match parse_value(val_in) {
                        Some(vp) => Some(
                            ((kp.0, vp.0), (w + 1 + kp.1 + w2 + 1 + w3 + vp.1) as nat),
                        ),
                        None => None,
                    }
                } else {
                    None
                }
            },
            None => None,
        }
    } else {
        None
    }
}

/// Reading the members of an object after its opening brace: one member,
/// then either a comma and more members or the closing brace. The fuel only
/// bounds the recursion; one character per member is consumed at least, so a
/// fuel of the text's length never runs out first.
pub open spec fn parse_members(s: Seq<char>, p: PartialFields, fuel: nat) -> Option<
    (PartialFields, nat),
>
    decreases fuel,
{
    if fuel == 0 {
        None
    } else {
        match parse_member(s) {
            Some(mp) => match set_field(p, mp.0.0, mp.0.1) {
                Some(p2) => {
                    let rest = s.skip(mp.1 as int);
                    let w = ws_count(rest);
                    let r = rest.skip(w as int);
                    if r.len() > 0 && r[0] == ',' {
                        match parse_members(r.skip(1), p2, (fuel - 1) as nat) {
                            Some(q) => Some((q.0, (mp.1 + w + 1 + q.1) as nat)),
                            None => None,
                        }
                    } else if r.len() > 0 && r[0] == '}' {
                        Some((p2, (mp.1 + w + 1) as nat))
                    } else {
                        None
                    }
                },
                None => None,
            },
            None => None,
        }
    }
}

/// Reading one object: whitespace, an opening brace, then members or an
/// immediate closing brace.
pub open spec fn parse_object(s: Seq<char>) -> Option<(PartialFields, nat)> {
    let w = ws_count(s);
    let t = s.skip(w as int);
    if t.len() > 0 && t[0] == '{' {
        let w2 = ws_count(t.skip(1));
        let u = t.skip(1 + w2 as int);
        if u.len() > 0 && u[0] == '}' {
            Some((empty_fields(), (w + 1 + w2 + 1) as nat))
        } else {
            match parse_members(t.skip(1), empty_fields(), s.len()) {
                Some(p) => Some((p.0, (w + 1 + p.1) as nat)),
                None => None,
            }
        }
    } else {
        None
    }
}

/// One comic's metadata as a plain value: the denotation of a well-formed
/// body.
pub struct ComicData {
    pub month: Seq<char>,
    pub num: int,
    pub link: Seq<char>,
    pub year: Seq<char>,
    pub news: Seq<char>,
    pub safe_title: Seq<char>,
    pub transcript: Seq<char>,
    pub alt: Seq<char>,
    pub img: Seq<char>,
    pub title: Seq<char>,
    pub day: Seq<char>,
}

pub open spec fn complete(p: PartialFields) -> bool {
    &&& p.month is Some
    &&& p.num is Some
    &&& p.link is Some
    &&& p.year is Some
    &&& p.news is Some
    &&& p.safe_title is Some
    &&& p.transcript is Some
    &&& p.alt is Some
    &&& p.img is Some
    &&& p.title is Some
    &&& p.day is Some
}

pub open spec fn data_of(p: PartialFields) -> ComicData
    recommends
        complete(p),
{
    ComicData {
        month: p.month->Some_0,
        num: p.num->Some_0,
        link: p.link->Some_0,
        year: p.year->Some_0,
        news: p.news->Some_0,
        safe_title: p.safe_title->Some_0,
        transcript: p.transcript->Some_0,
        alt: p.alt->Some_0,
        img: p.img->Some_0,
        title: p.title->Some_0,
        day: p.day->Some_0,
    }
}

/// What a record holds, as plain values.
pub open spec fn comic_data(c: Comic) -> ComicData {
    ComicData {
        month: c.month@,
        num: c.num as int,
        link: c.link@,
        year: c.year@,
        news: c.news@,
        safe_title: c.safe_title@,
        transcript: c.transcript@,
        alt: c.alt@,
        img: c.img@,
        title: c.title@,
        day: c.day@,
    }
}

/// What a whole body denotes: a complete object with nothing but whitespace
/// after it, or nothing.
pub open spec fn parse_comic_spec(s: Seq<char>) -> Option<ComicData> {
    match parse_object(s) {
        Some(p) => {
            let rest = s.skip(p.1 as int);
            if ws_count(rest) == rest.len() && complete(p.0) {
                Some(data_of(p.0))
            } else {
                None
            }
        },
        None => None,
    }
}

/// The first position at or after `i` holding no whitespace.
pub fn skip_ws_exec(v: &Vec<char>, i: usize) -> (j: usize)
    requires
        i <= v.len(),
    ensures
        j == i + ws_count(v@.skip(i as int)),
        i <= j <= v.len(),
    decreases v.len() - i,
{
    let ghost s = v@.skip(i as int);
    if i < v.len() {
        let c = v[i];
        assert(c == s[0]);
        if c == ' ' || c == '\t' || c == '\n' || c == '\r' {
            proof {
                assert(is_ws(s[0]));
                assert(s.drop_first() =~= v@.skip(i + 1));
            }
            skip_ws_exec(v, i + 1)
        } else {
            assert(!is_ws(s[0]));
            i
        }
    } else {
        assert(s.len() == 0);
        i
    }
}

/// Reading one scalar value, as executable code.
pub fn parse_value_exec(v: &Vec<char>, i: usize) -> (r: Option<(ParsedVal, usize)>)
    requires
        i <= v.len(),
    ensures
        ({
            let m = parse_value(v@.skip(i as int));
            &&& (r is Some <==> m is Some)
            &&& (r matches Some(p) ==> m matches Some(q) && val_abs(p.0) == q.0 && p.1 == i + q.1
                && p.1 <= v@.len())
        }),
{
    let ghost s = v@.skip(i as int);
    if i == v.len() {
        assert(s.len() == 0);
        return None;
    }
    let c = v[i];
    assert(c == s[0]);
    if c == '"' {
        proof {
            assert(v@.skip(i + 1) =~= s.skip(1));
        }
        match unesc_exec(v, i + 1) {
            Some(p) => {
                let (tv, j) = p;
                Some((ParsedVal::Text(tv), j))
            },
            None => None,
        }
    } else if c == '-' || is_digit_exec(c) {
        match parse_int_exec(v, i) {
            Some(p) => Some((ParsedVal::Int(p.0), p.1)),
            None => None,
        }
    } else {
        None
    }
}

/// Reading one member, as executable code: the key, the value, and the
/// position just past the value.
pub fn parse_member_exec(v: &Vec<char>, i: usize) -> (r: Option<(Vec<char>, ParsedVal, usize)>)
    requires
        i <= v.len(),
    ensures
        ({
            let m = parse_member(v@.skip(i as int));
            &&& (r is Some <==> m is Some)
            &&& (r matches Some(p) ==> m matches Some(q) && p.0@ == q.0.0 && val_abs(p.1) == q.0.1
                && p.2 == i + q.1 && p.2 <= v@.len())
        }),
{
    let ghost s = v@.skip(i as int);
    let j0 = skip_ws_exec(v, i);
    let ghost w = ws_count(s);
    let ghost t = s.skip(w as int);
    proof {
        assert(j0 == i + w);
        assert(t =~= v@.skip(j0 as int));
    }
    if j0 == v.len() {
        assert(t.len() == 0);
        return None;
    }
    if v[j0] != '"' {
        assert(t[0] == v@[j0 as int]);
        return None;
    }
    assert(t.len() > 0 && t[0] == '"');
    proof {
        assert(t.skip(1) =~= v@.skip(j0 + 1));
    }
    match unesc_exec(v, j0 + 1) {
        Some(kp) => {
            let (key, j1) = kp;
            let ghost kq = unesc(t.skip(1)).unwrap();
            let ghost after = t.skip(1 + kq.1 as int);
            proof {
                assert(j1 == j0 + 1 + kq.1);
                assert(after =~= v@.skip(j1 as int));
            }
            let j2 = skip_ws_exec(v, j1);
            let ghost w2 = ws_count(after);
            let ghost u = after.skip(w2 as int);
            proof {
                assert(j2 == j1 + w2);
                assert(u =~= v@.skip(j2 as int));
            }
            if j2 == v.len() {
                assert(u.len() == 0);
                return None;
            }
            if v[j2] != ':' {
                assert(u[0] == v@[j2 as int]);
                return None;
            }
            assert(u.len() > 0 && u[0] == ':');
            proof {
                assert(u.skip(1) =~= v@.skip(j2 + 1));
            }
            let j3 = skip_ws_exec(v, j2 + 1);
            let ghost w3 = ws_count(u.skip(1));
            proof {
                assert(j3 == j2 + 1 + w3);
                assert(u.skip(1).skip(w3 as int) =~= v@.skip(j3 as int));
                assert(u.skip(1 + w3 as int) =~= u.skip(1).skip(w3 as int));
            }
            match parse_value_exec(v, j3) {
                Some(vp) => {
                    let (val, j4) = vp;
                    Some((key, val, j4))
                },
                None => None,
            }
        },
        None => None,
    }
}

/// The field slots as executable code holds them while reading.
pub struct FieldSlots {
    pub month: Option<Vec<char>>,
    pub num: Option<i64>,
    pub link: Option<Vec<char>>,
    pub year: Option<Vec<char>>,
    pub news: Option<Vec<char>>,
    pub safe_title: Option<Vec<char>>,
    pub transcript: Option<Vec<char>>,
    pub alt: Option<Vec<char>>,
    pub img: Option<Vec<char>>,
    pub title: Option<Vec<char>>,
    pub day: Option<Vec<char>>,
}

pub open spec fn slot_abs(o: Option<Vec<char>>) -> Option<Seq<char>> {
    match o {
        Some(v) => Some(v@),
        None => None,
    }
}

/// What the slots gathered so far denote.
pub open spec fn slots_abs(b: FieldSlots) -> PartialFields {
    PartialFields {
        month: slot_abs(b.month),
        num: match b.num {
            Some(n) => Some(n as int),
            None => None,
        },
        link: slot_abs(b.link),
        year: slot_abs(b.year),
        news: slot_abs(b.news),
        safe_title: slot_abs(b.safe_title),
        transcript: slot_abs(b.transcript),
        alt: slot_abs(b.alt),
        img: slot_abs(b.img),
        title: slot_abs(b.title),
        day: slot_abs(b.day),
    }
}

fn empty_slots() -> (b: FieldSlots)
    ensures
        slots_abs(b) == empty_fields(),
{
    FieldSlots {
        month: None,
        num: None,
        link: None,
        year: None,
        news: None,
        safe_title: None,
        transcript: None,
        alt: None,
        img: None,
        title: None,
        day: None,
    }
}

/// Recording one member into the slots, as executable code.
fn set_field_exec(slots: &mut FieldSlots, key: &Vec<char>, val: ParsedVal) -> (r: bool)
    ensures
        ({
            let m = set_field(slots_abs(*old(slots)), key@, val_abs(val));
            &&& (r <==> m is Some)
            &&& (r ==> (m matches Some(p) && slots_abs(*final(slots)) == p))
        }),
{
    let lit_month = str_to_chars("month");
    if chars_eq(key, &lit_month) {
        match val {
            ParsedVal::Text(t) => {
                if slots.month.is_none() {
                    slots.month = Some(t);
                    return true;
                }
                return false;
            },
            ParsedVal::Int(_) => {
                return false;
            },
        }
    }
    let lit_num = str_to_chars("num");
    if chars_eq(key, &lit_num) {
        match val {
            ParsedVal::Int(n) => {
                if slots.num.is_none() {
                    slots.num = Some(n);
                    return true;
                }
                return false;
            },
            ParsedVal::Text(_) => {
                return false;
            },
        }
    }
    let lit_link = str_to_chars("link");
    if chars_eq(key, &lit_link) {
        match val {
            ParsedVal::Text(t) => {
                if slots.link.is_none() {
                    slots.link = Some(t);
                    return true;
                }
                return false;
            },
            ParsedVal::Int(_) => {
                return false;
            },
        }
    }
    let lit_year = str_to_chars("year");
    if chars_eq(key, &lit_year) {
        match val {
            ParsedVal::Text(t) => {
                if slots.year.is_none() {
                    slots.year = Some(t);
                    return true;
                }
                return false;
            },
            ParsedVal::Int(_) => {
                return false;
            },
        }
    }
    let lit_news = str_to_chars("news");
    if chars_eq(key, &lit_news) {
        match val {
            ParsedVal::Text(t) => {
                if slots.news.is_none() {
                    slots.news = Some(t);
                    return true;
                }
                return false;
            },
            ParsedVal::Int(_) => {
                return false;
            },
        }
    }
    let lit_safe_title = str_to_chars("safe_title");
    if chars_eq(key, &lit_safe_title) {
        match val {
            ParsedVal::Text(t) => {
                if slots.safe_title.is_none() {
                    slots.safe_title = Some(t);
                    return true;
                }
                return false;
            },
            ParsedVal::Int(_) => {
                return false;
            },
        }
    }
    let lit_transcript = str_to_chars("transcript");
    if chars_eq(key, &lit_transcript) {
        match val {
            ParsedVal::Text(t) => {
                if slots.transcript.is_none() {
                    slots.transcript = Some(t);
                    return true;
                }
                return false;
            },
            ParsedVal::Int(_) => {
                return false;
            },
        }
    }
    let lit_alt = str_to_chars("alt");
    if chars_eq(key, &lit_alt) {
        match val {
            ParsedVal::Text(t) => {
                if slots.alt.is_none() {
                    slots.alt = Some(t);
                    return true;
                }
                return false;
            },
            ParsedVal::Int(_) => {
                return false;
            },
        }
    }
    let lit_img = str_to_chars("img");
    if chars_eq(key, &lit_img) {
        match val {
            ParsedVal::Text(t) => {
                if slots.img.is_none() {
                    slots.img = Some(t);
                    return true;
                }
                return false;
            },
            ParsedVal::Int(_) => {
                return false;
            },
        }
    }
    let lit_title = str_to_chars("title");
    if chars_eq(key, &lit_title) {
        match val {
            ParsedVal::Text(t) => {
                if slots.title.is_none() {
                    slots.title = Some(t);
                    return true;
                }
                return false;
            },
            ParsedVal::Int(_) => {
                return false;
            },
        }
    }
    let lit_day = str_to_chars("day");
    if chars_eq(key, &lit_day) {
        match val {
            ParsedVal::Text(t) => {
                if slots.day.is_none() {
                    slots.day = Some(t);
                    return true;
                }
                return false;
            },
            ParsedVal::Int(_) => {
                return false;
            },
        }
    }
    true
}

/// Reading the members after the opening brace, as executable code: fills
/// the slots and gives the position just past the closing brace.
pub fn parse_members_exec(v: &Vec<char>, i: usize, slots: &mut FieldSlots, fuel: usize) -> (r:
    Option<usize>)
    requires
        i <= v.len(),
    ensures
        ({
            let m = parse_members(v@.skip(i as int), slots_abs(*old(slots)), fuel as nat);
            &&& (r is Some <==> m is Some)
            &&& (r matches Some(j) ==> m matches Some(q) && slots_abs(*final(slots)) == q.0 && j
                == i + q.1 && j <= v@.len())
        }),
    decreases fuel,
{
    let ghost s = v@.skip(i as int);
    if fuel == 0 {
        return None;
    }
    match parse_member_exec(v, i) {
        Some(mp) => {
            let (key, val, j1) = mp;
            let ghost mq = parse_member(s).unwrap();
            if !set_field_exec(slots, &key, val) {
                return None;
            }
            let ghost rest = s.skip(mq.1 as int);
            proof {
                assert(rest =~= v@.skip(j1 as int));
            }
            let j2 = skip_ws_exec(v, j1);
            let ghost w = ws_count(rest);
            let ghost r2 = rest.skip(w as int);
            proof {
                assert(j2 == j1 + w);
                assert(r2 =~= v@.skip(j2 as int));
            }
            if j2 == v.len() {
                assert(r2.len() == 0);
                return None;
            }
            let c = v[j2];
            assert(c == r2[0]);
            if c == ',' {
                proof {
                    assert(r2.skip(1) =~= v@.skip(j2 + 1));
                }
                match parse_members_exec(v, j2 + 1, slots, fuel - 1) {
                    Some(j3) => Some(j3),
                    None => None,
                }
            } else if c == '}' {
                Some(j2 + 1)
            } else {
                None
            }
        },
        None => None,
    }
}

/// The outcome of reading a metadata body: the record it describes, or
/// nothing where the body does not match the wire shape.
pub enum ParseOutcome {
    Found(Comic),
    NoMatch,
}

/// Reading a whole metadata body. The record is returned exactly where the
/// body denotes one; any mismatch with the wire shape gives `NoMatch`.
pub fn parse_comic(body: &str) -> (r: ParseOutcome)
    ensures
        ({
            let m = parse_comic_spec(body@);
            &&& (r is Found <==> m is Some)
            &&& (r matches ParseOutcome::Found(c) ==> m matches Some(d) && comic_data(c) == d)
        }),
{
    let v = str_to_chars(body);
    let ghost s = body@;
    proof {
        assert(v@.skip(0) =~= v@);
    }
    let j0 = skip_ws_exec(&v, 0);
    let ghost w = ws_count(s);
    let ghost t = s.skip(w as int);
    proof {
        assert(j0 == w);
        assert(t =~= v@.skip(j0 as int));
    }
    if j0 == v.len() {
        assert(t.len() == 0);
        return ParseOutcome::NoMatch;
    }
    if v[j0] != '{' {
        assert(t[0] == v@[j0 as int]);
        return ParseOutcome::NoMatch;
    }
    assert(t.len() > 0 && t[0] == '{');
    let j1 = skip_ws_exec(&v, j0 + 1);
    proof {
        assert(t.skip(1) =~= v@.skip(j0 + 1));
    }
    let ghost w2 = ws_count(t.skip(1));
    let ghost u = t.skip(1 + w2 as int);
    proof {
        assert(j1 == j0 + 1 + w2);
        assert(u =~= t.skip(1).skip(w2 as int));
        assert(u =~= v@.skip(j1 as int));
    }
    if j1 < v.len() && v[j1] == '}' {
        assert(u.len() > 0 && u[0] == '}');
        assert(parse_object(s) matches Some(p) && p.0 == empty_fields());
        return ParseOutcome::NoMatch;
    }
    assert(!(u.len() > 0 && u[0] == '}'));
    let mut slots = empty_slots();
    let fuel = v.len();
    let ghost members_in = t.skip(1);
    proof {
        assert(members_in =~= v@.skip(j0 + 1));
        assert(s.len() == v@.len());
    }
    match parse_members_exec(&v, j0 + 1, &mut slots, fuel) {
        Some(jend) => {
            let ghost mq = parse_members(members_in, empty_fields(), s.len()).unwrap();
            let ghost obj_len = (w + 1 + mq.1) as int;
            let ghost rest = s.skip(obj_len);
            proof {
                assert(jend == j0 + 1 + mq.1);
                assert(rest =~= v@.skip(jend as int));
            }
            let jf = skip_ws_exec(&v, jend);
            if jf != v.len() {
                proof {
                    assert(ws_count(rest) == jf - jend);
                    assert(rest.len() == v@.len() - jend);
                    assert(ws_count(rest) != rest.len());
                }
                return ParseOutcome::NoMatch;
            }
            proof {
                assert(ws_count(rest) == jf - jend);
                assert(rest.len() == v@.len() - jend);
                assert(ws_count(rest) == rest.len());
            }
            let FieldSlots { month, num, link, year, news, safe_title, transcript, alt, img, title, day } = slots;
            if let (
                Some(month),
                Some(num),
                Some(link),
                Some(year),
                Some(news),
                Some(safe_title),
                Some(transcript),
                Some(alt),
                Some(img),
                Some(title),
                Some(day),
            ) = (month, num, link, year, news, safe_title, transcript, alt, img, title, day) {
                let c = Comic {
                    month: chars_to_string(&month),
                    num,
                    link: chars_to_string(&link),
                    year: chars_to_string(&year),
                    news: chars_to_string(&news),
                    safe_title: chars_to_string(&safe_title),
                    transcript: chars_to_string(&transcript),
                    alt: chars_to_string(&alt),
                    img: chars_to_string(&img),
                    title: chars_to_string(&title),
                    day: chars_to_string(&day),
                };
                ParseOutcome::Found(c)
            } else {
                ParseOutcome::NoMatch
            }
        },
        None => ParseOutcome::NoMatch,
    }
}

/// A text written as a JSON string: a quote, the escaped text, a quote.
pub open spec fn wr_string(s: Seq<char>) -> Seq<char> {
    seq!['"'] + esc_seq(s) + seq!['"']
}

/// A member with a string value, written without spaces.
pub open spec fn wr_sfield(name: Seq<char>, val: Seq<char>) -> Seq<char> {
    wr_string(name) + seq![':'] + wr_string(val)
}

/// A member with an integer value, written without spaces.
pub open spec fn wr_ifield(name: Seq<char>, n: int) -> Seq<char> {
    wr_string(name) + seq![':'] + dec_int(n)
}



/// A whole record on the wire.
pub open spec fn json_of(c: Comic) -> Seq<char> {
    seq!['{'] + members_text(c)
}

/// A text written as a JSON string, appended to the output.
fn write_quoted(out: &mut Vec<char>, text: &str)
    ensures
        final(out)@ == old(out)@ + wr_string(text@),
{
    out.push('"');
    let chars = str_to_chars(text);
    let mut esc = escape_from(&chars, 0);
    proof {
        assert(chars@.skip(0) =~= chars@);
    }
    out.append(&mut esc);
    out.push('"');
    assert(out@ =~= old(out)@ + wr_string(text@));
}

/// A member with a string value, appended to the output.
fn write_sfield(out: &mut Vec<char>, name: &str, val: &String)
    ensures
        final(out)@ == old(out)@ + wr_sfield(name@, val@),
{
    write_quoted(out, name);
    out.push(':');
    write_quoted(out, val.as_str());
    assert(out@ =~= old(out)@ + wr_sfield(name@, val@));
}

/// A member with an integer value, appended to the output.
fn write_ifield(out: &mut Vec<char>, name: &str, n: i64)
    ensures
        final(out)@ == old(out)@ + wr_ifield(name@, n as int),
{
    write_quoted(out, name);
    out.push(':');
    let mut digits = fmt_i64(n);
    out.append(&mut digits);
    assert(out@ =~= old(out)@ + wr_ifield(name@, n as int));
}

/// A record written in the documented wire shape, without spaces, each
/// field once, in the service's order.
#[verifier::rlimit(100)]
pub fn comic_to_json(c: &Comic) -> (r: String)
    ensures
        r@ == json_of(*c),
{
    let mut out: Vec<char> = Vec::new();
    out.push('{');
    write_sfield(&mut out, "month", &c.month);
    out.push(',');
    write_ifield(&mut out, "num", c.num);
    out.push(',');
    write_sfield(&mut out, "link", &c.link);
    out.push(',');
    write_sfield(&mut out, "year", &c.year);
    out.push(',');
    write_sfield(&mut out, "news", &c.news);
    out.push(',');
    write_sfield(&mut out, "safe_title", &c.safe_title);
    out.push(',');
    write_sfield(&mut out, "transcript", &c.transcript);
    out.push(',');
    write_sfield(&mut out, "alt", &c.alt);
    out.push(',');
    write_sfield(&mut out, "img", &c.img);
    out.push(',');
    write_sfield(&mut out, "title", &c.title);
    out.push(',');
    write_sfield(&mut out, "day", &c.day);
    out.push('}');
    assert(out@ =~= json_of(*c));
    chars_to_string(&out)
}

} // verus!

verus! {

/// The fields of a fully read record.
pub open spec fn full_fields(c: Comic) -> PartialFields {
    PartialFields {
        month: Some(c.month@),
        num: Some(c.num as int),
        link: Some(c.link@),
        year: Some(c.year@),
        news: Some(c.news@),
        safe_title: Some(c.safe_title@),
        transcript: Some(c.transcript@),
        alt: Some(c.alt@),
        img: Some(c.img@),
        title: Some(c.title@),
        day: Some(c.day@),
    }
}

/// A written string value reads back as itself.
proof fn lemma_parse_value_text(val: Seq<char>, rest: Seq<char>)
    ensures
        parse_value(wr_string(val) + rest) == Some(
            (JsonVal::Text(val), wr_string(val).len() as nat),
        ),
{
    let s = wr_string(val) + rest;
    assert(s.len() > 0);
    assert(s[0] == '"');
    assert(s.skip(1) =~= esc_seq(val) + seq!['"'] + rest);
    lemma_unesc_esc(val, rest);
    assert(unesc(s.skip(1)) == Some((val, (esc_seq(val).len() + 1) as nat)));
    assert(wr_string(val).len() == esc_seq(val).len() + 2);
}

/// A written integer value followed by a delimiter reads back as itself.
proof fn lemma_parse_value_int(n: int, rest: Seq<char>)
    requires
        -0x8000_0000_0000_0000 <= n <= 0x7FFF_FFFF_FFFF_FFFF,
        rest.len() > 0,
        !is_digit(rest[0]),
    ensures
        parse_value(dec_int(n) + rest) == Some((JsonVal::Int(n), dec_int(n).len() as nat)),
{
    let s = dec_int(n) + rest;
    lemma_parse_int_dec(n, rest);
    if n >= 0 {
        lemma_dec_digits_shape(n);
        assert(s[0] == dec_digits(n)[0]);
        assert(is_digit(s[0]));
        assert(s[0] != '"');
    } else {
        lemma_dec_digits_shape(-n);
        assert(s[0] == '-');
        assert(s[0] != '"');
    }
}

/// A written member with a string value reads back as that key and value.
#[verifier::rlimit(100)]
proof fn lemma_parse_member_text(name: Seq<char>, val: Seq<char>, rest: Seq<char>)
    ensures
        parse_member(wr_sfield(name, val) + rest) == Some(
            ((name, JsonVal::Text(val)), wr_sfield(name, val).len() as nat),
        ),
{
    let s = wr_sfield(name, val) + rest;
    assert(s[0] == '"');
    assert(!is_ws(s[0]));
    assert(ws_count(s) == 0);
    assert(s.skip(0) =~= s);
    let tail1 = seq![':'] + wr_string(val) + rest;
    assert(s.skip(1) =~= esc_seq(name) + seq!['"'] + tail1);
    lemma_unesc_esc(name, tail1);
    let k1 = (esc_seq(name).len() + 1) as nat;
    assert(unesc(s.skip(1)) == Some((name, k1)));
    let after = s.skip(1 + k1 as int);
    assert(after =~= tail1);
    assert(after[0] == ':');
    assert(!is_ws(after[0]));
    assert(ws_count(after) == 0);
    assert(after.skip(0) =~= after);
    assert(after.skip(1) =~= wr_string(val) + rest);
    assert((wr_string(val) + rest)[0] == '"');
    assert(!is_ws((wr_string(val) + rest)[0]));
    assert(ws_count(after.skip(1)) == 0);
    lemma_parse_value_text(val, rest);
    assert(wr_sfield(name, val).len() == 1 + k1 + 1 + wr_string(val).len());
}

/// A written member with an integer value, followed by a delimiter, reads
/// back as that key and value.
#[verifier::rlimit(100)]
proof fn lemma_parse_member_int(name: Seq<char>, n: int, rest: Seq<char>)
    requires
        -0x8000_0000_0000_0000 <= n <= 0x7FFF_FFFF_FFFF_FFFF,
        rest.len() > 0,
        !is_digit(rest[0]),
    ensures
        parse_member(wr_ifield(name, n) + rest) == Some(
            ((name, JsonVal::Int(n)), wr_ifield(name, n).len() as nat),
        ),
{
    let s = wr_ifield(name, n) + rest;
    assert(s[0] == '"');
    assert(!is_ws(s[0]));
    assert(ws_count(s) == 0);
    assert(s.skip(0) =~= s);
    let tail1 = seq![':'] + dec_int(n) + rest;
    assert(s.skip(1) =~= esc_seq(name) + seq!['"'] + tail1);
    lemma_unesc_esc(name, tail1);
    let k1 = (esc_seq(name).len() + 1) as nat;
    assert(unesc(s.skip(1)) == Some((name, k1)));
    let after = s.skip(1 + k1 as int);
    assert(after =~= tail1);
    assert(after[0] == ':');
    assert(!is_ws(after[0]));
    assert(ws_count(after) == 0);
    assert(after.skip(0) =~= after);
    assert(after.skip(1) =~= dec_int(n) + rest);
    lemma_parse_value_int(n, rest);
    if n >= 0 {
        lemma_dec_digits_shape(n);
        assert((dec_int(n) + rest)[0] == dec_digits(n)[0]);
        assert(is_digit((dec_int(n) + rest)[0]));
    } else {
        assert((dec_int(n) + rest)[0] == '-');
    }
    assert(!is_ws((dec_int(n) + rest)[0]));
    assert(ws_count(after.skip(1)) == 0);
    assert(wr_ifield(name, n).len() == 1 + k1 + 1 + dec_int(n).len());
}

/// A string member, a comma and further members read back in sequence.
#[verifier::rlimit(100)]
proof fn lemma_members_cons_text(
    name: Seq<char>,
    val: Seq<char>,
    rest2: Seq<char>,
    p: PartialFields,
    p2: PartialFields,
    q0: PartialFields,
    qn: nat,
    fuel: nat,
)
    requires
        fuel >= 1,
        set_field(p, name, JsonVal::Text(val)) == Some(p2),
        parse_members(rest2, p2, (fuel - 1) as nat) == Some((q0, qn)),
    ensures
        parse_members(wr_sfield(name, val) + seq![','] + rest2, p, fuel) == Some(
            (q0, (wr_sfield(name, val).len() + 1 + qn) as nat),
        ),
{
    let m = wr_sfield(name, val);
    let s = m + seq![','] + rest2;
    assert(s =~= m + (seq![','] + rest2));
    lemma_parse_member_text(name, val, seq![','] + rest2);
    assert(parse_member(s) == Some(((name, JsonVal::Text(val)), m.len() as nat)));
    let rest = s.skip(m.len() as int);
    assert(rest =~= seq![','] + rest2);
    assert(rest[0] == ',');
    assert(!is_ws(rest[0]));
    assert(ws_count(rest) == 0);
    assert(rest.skip(0) =~= rest);
    assert(rest.skip(1) =~= rest2);
}

/// An integer member, a comma and further members read back in sequence.
#[verifier::rlimit(100)]
proof fn lemma_members_cons_int(
    name: Seq<char>,
    n: int,
    rest2: Seq<char>,
    p: PartialFields,
    p2: PartialFields,
    q0: PartialFields,
    qn: nat,
    fuel: nat,
)
    requires
        -0x8000_0000_0000_0000 <= n <= 0x7FFF_FFFF_FFFF_FFFF,
        fuel >= 1,
        set_field(p, name, JsonVal::Int(n)) == Some(p2),
        parse_members(rest2, p2, (fuel - 1) as nat) == Some((q0, qn)),
    ensures
        parse_members(wr_ifield(name, n) + seq![','] + rest2, p, fuel) == Some(
            (q0, (wr_ifield(name, n).len() + 1 + qn) as nat),
        ),
{
    let m = wr_ifield(name, n);
    let s = m + seq![','] + rest2;
    assert(s =~= m + (seq![','] + rest2));
    assert((seq![','] + rest2)[0] == ',');
    lemma_parse_member_int(name, n, seq![','] + rest2);
    assert(parse_member(s) == Some(((name, JsonVal::Int(n)), m.len() as nat)));
    let rest = s.skip(m.len() as int);
    assert(rest =~= seq![','] + rest2);
    assert(rest[0] == ',');
    assert(!is_ws(rest[0]));
    assert(ws_count(rest) == 0);
    assert(rest.skip(0) =~= rest);
    assert(rest.skip(1) =~= rest2);
}

/// The last member and the closing brace read back and end the object.
#[verifier::rlimit(100)]
proof fn lemma_members_last_text(
    name: Seq<char>,
    val: Seq<char>,
    p: PartialFields,
    p2: PartialFields,
    fuel: nat,
)
    requires
        fuel >= 1,
        set_field(p, name, JsonVal::Text(val)) == Some(p2),
    ensures
        parse_members(wr_sfield(name, val) + seq!['}'], p, fuel) == Some(
            (p2, (wr_sfield(name, val).len() + 1) as nat),
        ),
{
    let m = wr_sfield(name, val);
    let s = m + seq!['}'];
    lemma_parse_member_text(name, val, seq!['}']);
    assert(parse_member(s) == Some(((name, JsonVal::Text(val)), m.len() as nat)));
    let rest = s.skip(m.len() as int);
    assert(rest =~= seq!['}']);
    assert(rest[0] == '}');
    assert(!is_ws(rest[0]));
    assert(ws_count(rest) == 0);
    assert(rest.skip(0) =~= rest);
    assert(rest[0] != ',');
}

/// The eleven fields of a record, gathered in the service's order.
pub open spec fn fields_upto(c: Comic, k: int) -> PartialFields {
    PartialFields {
        month: if k >= 1 { Some(c.month@) } else { None },
        num: if k >= 2 { Some(c.num as int) } else { None },
        link: if k >= 3 { Some(c.link@) } else { None },
        year: if k >= 4 { Some(c.year@) } else { None },
        news: if k >= 5 { Some(c.news@) } else { None },
        safe_title: if k >= 6 { Some(c.safe_title@) } else { None },
        transcript: if k >= 7 { Some(c.transcript@) } else { None },
        alt: if k >= 8 { Some(c.alt@) } else { None },
        img: if k >= 9 { Some(c.img@) } else { None },
        title: if k >= 10 { Some(c.title@) } else { None },
        day: if k >= 11 { Some(c.day@) } else { None },
    }
}

/// Each key of a written record lands in its own empty slot, in order.
#[verifier::rlimit(100)]
proof fn lemma_set_field_chain(c: Comic)
    ensures
        fields_upto(c, 0) == empty_fields(),
        fields_upto(c, 11) == full_fields(c),
        set_field(fields_upto(c, 0), "month"@, JsonVal::Text(c.month@)) == Some(fields_upto(c, 1)),
        set_field(fields_upto(c, 1), "num"@, JsonVal::Int(c.num as int)) == Some(fields_upto(c, 2)),
        set_field(fields_upto(c, 2), "link"@, JsonVal::Text(c.link@)) == Some(fields_upto(c, 3)),
        set_field(fields_upto(c, 3), "year"@, JsonVal::Text(c.year@)) == Some(fields_upto(c, 4)),
        set_field(fields_upto(c, 4), "news"@, JsonVal::Text(c.news@)) == Some(fields_upto(c, 5)),
        set_field(fields_upto(c, 5), "safe_title"@, JsonVal::Text(c.safe_title@)) == Some(
            fields_upto(c, 6),
        ),
        set_field(fields_upto(c, 6), "transcript"@, JsonVal::Text(c.transcript@)) == Some(
            fields_upto(c, 7),
        ),
        set_field(fields_upto(c, 7), "alt"@, JsonVal::Text(c.alt@)) == Some(fields_upto(c, 8)),
        set_field(fields_upto(c, 8), "img"@, JsonVal::Text(c.img@)) == Some(fields_upto(c, 9)),
        set_field(fields_upto(c, 9), "title"@, JsonVal::Text(c.title@)) == Some(
            fields_upto(c, 10),
        ),
        set_field(fields_upto(c, 10), "day"@, JsonVal::Text(c.day@)) == Some(fields_upto(c, 11)),
{
    reveal_strlit("month");
    reveal_strlit("num");
    reveal_strlit("link");
    reveal_strlit("year");
    reveal_strlit("news");
    reveal_strlit("safe_title");
    reveal_strlit("transcript");
    reveal_strlit("alt");
    reveal_strlit("img");
    reveal_strlit("title");
    reveal_strlit("day");
    assert("month"@.len() == 5 && "num"@.len() == 3 && "link"@.len() == 4 && "year"@.len() == 4
        && "news"@.len() == 4 && "safe_title"@.len() == 10 && "transcript"@.len() == 10
        && "alt"@.len() == 3 && "img"@.len() == 3 && "title"@.len() == 5 && "day"@.len() == 3);
    assert("num"@ != "month"@);
    assert("link"@ != "month"@ && "link"@ != "num"@);
    assert("year"@ != "month"@ && "year"@ != "num"@ && ("year"@)[0] != ("link"@)[0]);
    assert("news"@ != "month"@ && "news"@ != "num"@ && ("news"@)[0] != ("link"@)[0] && ("news"@)[0]
        != ("year"@)[0]);
    assert("safe_title"@ != "month"@ && "safe_title"@ != "num"@ && "safe_title"@ != "link"@
        && "safe_title"@ != "year"@ && "safe_title"@ != "news"@);
    assert("transcript"@ != "month"@ && "transcript"@ != "num"@ && "transcript"@ != "link"@
        && "transcript"@ != "year"@ && "transcript"@ != "news"@ && ("transcript"@)[0]
        != ("safe_title"@)[0]);
    assert("alt"@ != "month"@ && ("alt"@)[0] != ("num"@)[0] && "alt"@ != "link"@ && "alt"@
        != "year"@ && "alt"@ != "news"@ && "alt"@ != "safe_title"@ && "alt"@ != "transcript"@);
    assert("img"@ != "month"@ && ("img"@)[0] != ("num"@)[0] && "img"@ != "link"@ && "img"@
        != "year"@ && "img"@ != "news"@ && "img"@ != "safe_title"@ && "img"@ != "transcript"@
        && ("img"@)[0] != ("alt"@)[0]);
    assert(("title"@)[0] != ("month"@)[0] && "title"@ != "num"@ && "title"@ != "link"@ && "title"@
        != "year"@ && "title"@ != "news"@ && "title"@ != "safe_title"@ && "title"@
        != "transcript"@ && "title"@ != "alt"@ && "title"@ != "img"@);
    assert("day"@ != "month"@ && ("day"@)[0] != ("num"@)[0] && "day"@ != "link"@ && "day"@
        != "year"@ && "day"@ != "news"@ && "day"@ != "safe_title"@ && "day"@ != "transcript"@
        && ("day"@)[0] != ("alt"@)[0] && ("day"@)[0] != ("img"@)[0] && "day"@ != "title"@);
}

/// The last six members of a written record, with the closing brace.
pub open spec fn members_tail_text(c: Comic) -> Seq<char> {
    wr_sfield("safe_title"@, c.safe_title@) + seq![','] + (wr_sfield("transcript"@, c.transcript@)
        + seq![','] + (wr_sfield("alt"@, c.alt@) + seq![','] + (wr_sfield("img"@, c.img@)
        + seq![','] + (wr_sfield("title"@, c.title@) + seq![','] + (wr_sfield("day"@, c.day@)
        + seq!['}'])))))
}

/// The last six members of a written record read back into their fields.
#[verifier::rlimit(100)]
proof fn lemma_members_tail(c: Comic, fuel: nat)
    requires
        fuel >= 6,
    ensures
        parse_members(members_tail_text(c), fields_upto(c, 5), fuel) == Some(
            (fields_upto(c, 11), members_tail_text(c).len() as nat),
        ),
{
    lemma_set_field_chain(c);
    let m6 = wr_sfield("safe_title"@, c.safe_title@);
    let m7 = wr_sfield("transcript"@, c.transcript@);
    let m8 = wr_sfield("alt"@, c.alt@);
    let m9 = wr_sfield("img"@, c.img@);
    let m10 = wr_sfield("title"@, c.title@);
    let m11 = wr_sfield("day"@, c.day@);
    let p5 = fields_upto(c, 5);
    let p6 = fields_upto(c, 6);
    let p7 = fields_upto(c, 7);
    let p8 = fields_upto(c, 8);
    let p9 = fields_upto(c, 9);
    let p10 = fields_upto(c, 10);
    let p11 = fields_upto(c, 11);
    let s11 = m11 + seq!['}'];
    let s10 = m10 + seq![','] + s11;
    let s9 = m9 + seq![','] + s10;
    let s8 = m8 + seq![','] + s9;
    let s7 = m7 + seq![','] + s8;
    let s6 = m6 + seq![','] + s7;
    lemma_members_last_text("day"@, c.day@, p10, p11, (fuel - 5) as nat);
    let n11 = (m11.len() + 1) as nat;
    assert(n11 == s11.len());
    lemma_members_cons_text("title"@, c.title@, s11, p9, p10, p11, n11, (fuel - 4) as nat);
    let n10 = (m10.len() + 1 + n11) as nat;
    assert(n10 == s10.len());
    lemma_members_cons_text("img"@, c.img@, s10, p8, p9, p11, n10, (fuel - 3) as nat);
    let n9 = (m9.len() + 1 + n10) as nat;
    assert(n9 == s9.len());
    lemma_members_cons_text("alt"@, c.alt@, s9, p7, p8, p11, n9, (fuel - 2) as nat);
    let n8 = (m8.len() + 1 + n9) as nat;
    assert(n8 == s8.len());
    lemma_members_cons_text("transcript"@, c.transcript@, s8, p6, p7, p11, n8, (fuel - 1) as nat);
    let n7 = (m7.len() + 1 + n8) as nat;
    assert(n7 == s7.len());
    lemma_members_cons_text("safe_title"@, c.safe_title@, s7, p5, p6, p11, n7, fuel);
    let n6 = (m6.len() + 1 + n7) as nat;
    assert(n6 == s6.len());
    assert(members_tail_text(c) == s6);
}

/// The members of a written record, each field once, in the service's
/// order, with the closing brace, grouped member by member.
pub open spec fn members_text(c: Comic) -> Seq<char> {
    wr_sfield("month"@, c.month@) + seq![','] + (wr_ifield("num"@, c.num as int) + seq![','] + (
    wr_sfield("link"@, c.link@) + seq![','] + (wr_sfield("year"@, c.year@) + seq![','] + (
    wr_sfield("news"@, c.news@) + seq![','] + members_tail_text(c)))))
}

/// The members of a written record read back into exactly its fields.
#[verifier::rlimit(100)]
proof fn lemma_members_canonical(c: Comic, fuel: nat)
    requires
        fuel >= 11,
    ensures
        parse_members(members_text(c), empty_fields(), fuel) == Some(
            (full_fields(c), members_text(c).len() as nat),
        ),
{
    lemma_set_field_chain(c);
    lemma_members_tail(c, (fuel - 5) as nat);
    let m1 = wr_sfield("month"@, c.month@);
    let m2 = wr_ifield("num"@, c.num as int);
    let m3 = wr_sfield("link"@, c.link@);
    let m4 = wr_sfield("year"@, c.year@);
    let m5 = wr_sfield("news"@, c.news@);
    let p0 = fields_upto(c, 0);
    let p1 = fields_upto(c, 1);
    let p2 = fields_upto(c, 2);
    let p3 = fields_upto(c, 3);
    let p4 = fields_upto(c, 4);
    let p5 = fields_upto(c, 5);
    let p11 = fields_upto(c, 11);
    let s6 = members_tail_text(c);
    let s5 = m5 + seq![','] + s6;
    let s4 = m4 + seq![','] + s5;
    let s3 = m3 + seq![','] + s4;
    let s2 = m2 + seq![','] + s3;
    let s1 = m1 + seq![','] + s2;
    let n6 = s6.len() as nat;
    lemma_members_cons_text("news"@, c.news@, s6, p4, p5, p11, n6, (fuel - 4) as nat);
    let n5 = (m5.len() + 1 + n6) as nat;
    assert(n5 == s5.len());
    lemma_members_cons_text("year"@, c.year@, s5, p3, p4, p11, n5, (fuel - 3) as nat);
    let n4 = (m4.len() + 1 + n5) as nat;
    assert(n4 == s4.len());
    lemma_members_cons_text("link"@, c.link@, s4, p2, p3, p11, n4, (fuel - 2) as nat);
    let n3 = (m3.len() + 1 + n4) as nat;
    assert(n3 == s3.len());
    lemma_members_cons_int("num"@, c.num as int, s3, p1, p2, p11, n3, (fuel - 1) as nat);
    let n2 = (m2.len() + 1 + n3) as nat;
    assert(n2 == s2.len());
    lemma_members_cons_text("month"@, c.month@, s2, p0, p1, p11, n2, fuel);
    let n1 = (m1.len() + 1 + n2) as nat;
    assert(n1 == s1.len());
    assert(members_text(c) == s1);
    assert(parse_members(members_text(c), empty_fields(), fuel) == Some((p11, n1)));
}



/// A whole written record reads back as one object covering the whole text.
proof fn lemma_object_canonical(c: Comic)
    ensures
        parse_object(json_of(c)) == Some((full_fields(c), json_of(c).len() as nat)),
{
    let s = json_of(c);
    let mt = members_text(c);
    assert(s =~= seq!['{'] + mt);
    assert(s[0] == '{');
    assert(!is_ws(s[0]));
    assert(ws_count(s) == 0);
    assert(s.skip(0) =~= s);
    assert(s.skip(1) =~= mt);
    assert(mt[0] == '"');
    assert(!is_ws(mt[0]));
    assert(ws_count(s.skip(1)) == 0);
    assert(mt[0] != '}');
    if c.num as int >= 0 {
        lemma_dec_digits_shape(c.num as int);
    } else {
        lemma_dec_digits_shape(-(c.num as int));
    }
    assert(dec_int(c.num as int).len() >= 1);
    assert(s.len() >= 11);
    lemma_members_canonical(c, s.len());
    assert(parse_members(s.skip(1), empty_fields(), s.len()) == Some(
        (full_fields(c), mt.len() as nat),
    ));
    assert(s.len() == 1 + mt.len());
}

/// Writing a record in the wire shape and reading the text back always
/// restores the record, field for field: the round trip over the wire is
/// the identity.
pub proof fn lemma_metadata_round_trip(c: Comic)
    ensures
        parse_comic_spec(json_of(c)) == Some(comic_data(c)),
{
    lemma_object_canonical(c);
    let s = json_of(c);
    let rest = s.skip(s.len() as int);
    assert(rest =~= Seq::<char>::empty());
    assert(ws_count(rest) == 0);
    assert(complete(full_fields(c)));
    assert(data_of(full_fields(c)) == comic_data(c));
}

} // verus!
