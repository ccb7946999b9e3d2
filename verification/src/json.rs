//! The JSON subset that carries identity records on the wire: one object
//! whose member values are strings or arrays of strings — all this format
//! ever holds. The reader accepts surrounding whitespace, the standard
//! string escapes including `\uXXXX` with surrogate pairs, and members in
//! any order; the writer produces the compact form with minimal escapes.
//!
//! String contents are byte strings (UTF-8 is checked where a value becomes
//! a `String`, not here).

use vstd::prelude::*;
use vstd::utf8::encode_scalar;

verus! {

/// A member's value: a string or an array of strings.
pub enum MemberVal {
    MStr(Seq<u8>),
    MArr(Seq<Seq<u8>>),
}

/// A parsed object: its members in source order.
pub type Members = Seq<(Seq<u8>, MemberVal)>;

// ---------- reading ----------

/// JSON whitespace.
pub open spec fn is_ws(b: u8) -> bool {
    b == 0x20 || b == 0x09 || b == 0x0A || b == 0x0D
}

/// `s` without its leading whitespace.
pub open spec fn skip_ws(s: Seq<u8>) -> Seq<u8>
    decreases s.len(),
{
    if s.len() > 0 && is_ws(s[0]) {
        skip_ws(s.skip(1))
    } else {
        s
    }
}

/// Value of one hexadecimal digit, either case.
pub open spec fn hex_val(b: u8) -> Option<u32> {
    if 0x30 <= b <= 0x39 {
        Some((b - 0x30) as u32)
    } else if 0x61 <= b <= 0x66 {
        Some((b - 0x61 + 10) as u32)
    } else if 0x41 <= b <= 0x46 {
        Some((b - 0x41 + 10) as u32)
    } else {
        None
    }
}

/// Four hexadecimal digits off the front of `s`.
pub open spec fn parse_hex4(s: Seq<u8>) -> Option<(u32, Seq<u8>)> {
    if s.len() >= 4 {
        match (hex_val(s[0]), hex_val(s[1]), hex_val(s[2]), hex_val(s[3])) {
            (Some(a), Some(b), Some(c), Some(d)) => Some(
                ((a * 4096 + b * 256 + c * 16 + d) as u32, s.skip(4)),
            ),
            _ => None,
        }
    } else {
        None
    }
}

/// The body of a string after its opening quote: unescape until the closing
/// quote, appending to `acc`. An unescaped control byte, a bad escape, or a
/// lone surrogate is malformed.
pub open spec fn parse_str_body(s: Seq<u8>, acc: Seq<u8>) -> Option<(Seq<u8>, Seq<u8>)>
    decreases s.len(),
{
    if s.len() == 0 {
        None
    } else if s[0] == 0x22 {
        Some((acc, s.skip(1)))
    } else if s[0] == 0x5C {
        if s.len() < 2 {
            None
        } else {
            let e = s[1];
            if e == 0x22 || e == 0x5C || e == 0x2F {
                parse_str_body(s.skip(2), acc.push(e))
            } else if e == 0x62 {
                parse_str_body(s.skip(2), acc.push(0x08))
            } else if e == 0x66 {
                parse_str_body(s.skip(2), acc.push(0x0C))
            } else if e == 0x6E {
                parse_str_body(s.skip(2), acc.push(0x0A))
            } else if e == 0x72 {
                parse_str_body(s.skip(2), acc.push(0x0D))
            } else if e == 0x74 {
                parse_str_body(s.skip(2), acc.push(0x09))
            } else if e == 0x75 {
                match parse_hex4(s.skip(2)) {
                    None => None,
                    Some((cp, r)) => {
                        if 0xD800 <= cp <= 0xDBFF {
                            if r.len() >= 2 && r[0] == 0x5C && r[1] == 0x75 {
                                match parse_hex4(r.skip(2)) {
                                    None => None,
                                    Some((lo, r2)) => {
                                        if 0xDC00 <= lo <= 0xDFFF {
                                            parse_str_body(
                                                r2,
                                                acc + encode_scalar(
                                                    (0x10000 + (cp - 0xD800) * 0x400 + (lo
                                                        - 0xDC00)) as u32,
                                                ),
                                            )
                                        } else {
                                            None
                                        }
                                    },
                                }
                            } else {
                                None
                            }
                        } else if 0xDC00 <= cp <= 0xDFFF {
                            None
                        } else {
                            parse_str_body(r, acc + encode_scalar(cp))
                        }
                    },
                }
            } else {
                None
            }
        }
    } else if s[0] < 0x20 {
        None
    } else {
        parse_str_body(s.skip(1), acc.push(s[0]))
    }
}

/// A whole string, opening quote included.
pub open spec fn parse_string(s: Seq<u8>) -> Option<(Seq<u8>, Seq<u8>)> {
    if s.len() > 0 && s[0] == 0x22 {
        parse_str_body(s.skip(1), Seq::empty())
    } else {
        None
    }
}

/// The elements after the first of an array of strings: `s` stands just
/// past an element. The length test guards the recursion; a string parse
/// always consumes, so it never fails on a parsed element.
pub open spec fn parse_arr_rest(s: Seq<u8>, acc: Seq<Seq<u8>>) -> Option<(Seq<Seq<u8>>, Seq<u8>)>
    decreases s.len(),
{
    let t = skip_ws(s);
    if t.len() == 0 {
        None
    } else if t[0] == 0x5D {
        Some((acc, t.skip(1)))
    } else if t[0] == 0x2C {
        match parse_string(skip_ws(t.skip(1))) {
            None => None,
            Some((elem, rest)) => {
                if rest.len() < s.len() {
                    parse_arr_rest(rest, acc.push(elem))
                } else {
                    None
                }
            },
        }
    } else {
        None
    }
}

/// An array of strings, `s` at its opening bracket.
pub open spec fn parse_array(s: Seq<u8>) -> Option<(Seq<Seq<u8>>, Seq<u8>)> {
    if s.len() > 0 && s[0] == 0x5B {
        let t = skip_ws(s.skip(1));
        if t.len() > 0 && t[0] == 0x5D {
            Some((Seq::empty(), t.skip(1)))
        } else {
            match parse_string(t) {
                None => None,
                Some((elem, rest)) => {
                    if rest.len() < s.len() {
                        parse_arr_rest(rest, seq![elem])
                    } else {
                        None
                    }
                },
            }
        }
    } else {
        None
    }
}

/// One `"key": value` member.
pub open spec fn parse_member(s: Seq<u8>) -> Option<((Seq<u8>, MemberVal), Seq<u8>)> {
    match parse_string(skip_ws(s)) {
        None => None,
        Some((key, r1)) => {
            let t = skip_ws(r1);
            if t.len() > 0 && t[0] == 0x3A {
                let u = skip_ws(t.skip(1));
                if u.len() > 0 && u[0] == 0x5B {
                    match parse_array(u) {
                        None => None,
                        Some((items, rest)) => Some(((key, MemberVal::MArr(items)), rest)),
                    }
                } else {
                    match parse_string(u) {
                        None => None,
                        Some((sv, rest)) => Some(((key, MemberVal::MStr(sv)), rest)),
                    }
                }
            } else {
                None
            }
        },
    }
}

/// The members after the first: `s` stands just past a member.
pub open spec fn parse_members_rest(s: Seq<u8>, acc: Members) -> Option<(Members, Seq<u8>)>
    decreases s.len(),
{
    let t = skip_ws(s);
    if t.len() == 0 {
        None
    } else if t[0] == 0x7D {
        Some((acc, t.skip(1)))
    } else if t[0] == 0x2C {
        match parse_member(t.skip(1)) {
            None => None,
            Some((m, rest)) => {
                if rest.len() < s.len() {
                    parse_members_rest(rest, acc.push(m))
                } else {
                    None
                }
            },
        }
    } else {
        None
    }
}

/// An object, `s` at its opening brace.
pub open spec fn parse_object(s: Seq<u8>) -> Option<(Members, Seq<u8>)> {
    if s.len() > 0 && s[0] == 0x7B {
        let t = skip_ws(s.skip(1));
        if t.len() > 0 && t[0] == 0x7D {
            Some((Seq::empty(), t.skip(1)))
        } else {
            match parse_member(s.skip(1)) {
                None => None,
                Some((m, rest)) => {
                    if rest.len() < s.len() {
                        parse_members_rest(rest, seq![m])
                    } else {
                        None
                    }
                },
            }
        }
    } else {
        None
    }
}

/// A whole document: one object with surrounding whitespace and nothing
/// else.
pub open spec fn parse_doc(s: Seq<u8>) -> Option<Members> {
    match parse_object(skip_ws(s)) {
        None => None,
        Some((members, rest)) => {
            if skip_ws(rest).len() == 0 {
                Some(members)
            } else {
                None
            }
        },
    }
}

/// First member named `key`, if any.
pub open spec fn find_member(members: Members, key: Seq<u8>) -> Option<MemberVal>
    decreases members.len(),
{
    if members.len() == 0 {
        None
    } else if members[0].0 == key {
        Some(members[0].1)
    } else {
        find_member(members.skip(1), key)
    }
}

// ---------- writing ----------

/// Digit of a value below 16, lower case.
pub open spec fn hex_digit(v: u8) -> u8 {
    if v < 10 {
        (0x30 + v) as u8
    } else {
        (0x61 + v - 10) as u8
    }
}

/// Escape of a single byte inside a string: quote and backslash get a
/// backslash, control bytes become `\u00XX`, everything else stands as is.
pub open spec fn esc1(b: u8) -> Seq<u8> {
    if b == 0x22 {
        seq![0x5Cu8, 0x22u8]
    } else if b == 0x5C {
        seq![0x5Cu8, 0x5Cu8]
    } else if b < 0x20 {
        seq![0x5Cu8, 0x75u8, 0x30u8, 0x30u8, hex_digit(b / 16), hex_digit(b % 16)]
    } else {
        seq![b]
    }
}

/// Escape of a whole string content.
pub open spec fn esc(content: Seq<u8>) -> Seq<u8>
    decreases content.len(),
{
    if content.len() == 0 {
        Seq::empty()
    } else {
        esc1(content[0]) + esc(content.skip(1))
    }
}

/// Wire form of a string: quoted, escaped content.
pub open spec fn jstr_enc(content: Seq<u8>) -> Seq<u8> {
    seq![0x22u8] + esc(content) + seq![0x22u8]
}

/// Wire form of array elements, comma separated.
pub open spec fn arr_items_enc(items: Seq<Seq<u8>>) -> Seq<u8>
    decreases items.len(),
{
    if items.len() == 0 {
        Seq::empty()
    } else if items.len() == 1 {
        jstr_enc(items[0])
    } else {
        jstr_enc(items[0]) + seq![0x2Cu8] + arr_items_enc(items.skip(1))
    }
}

/// Wire form of an array of strings.
pub open spec fn arr_enc(items: Seq<Seq<u8>>) -> Seq<u8> {
    seq![0x5Bu8] + arr_items_enc(items) + seq![0x5Du8]
}

/// Wire form of a member value.
pub open spec fn val_enc(v: MemberVal) -> Seq<u8> {
    match v {
        MemberVal::MStr(c) => jstr_enc(c),
        MemberVal::MArr(items) => arr_enc(items),
    }
}

/// Wire form of members, comma separated.
pub open spec fn members_enc(members: Members) -> Seq<u8>
    decreases members.len(),
{
    if members.len() == 0 {
        Seq::empty()
    } else if members.len() == 1 {
        jstr_enc(members[0].0) + seq![0x3Au8] + val_enc(members[0].1)
    } else {
        jstr_enc(members[0].0) + seq![0x3Au8] + val_enc(members[0].1) + seq![0x2Cu8]
            + members_enc(members.skip(1))
    }
}

/// Wire form of an object.
pub open spec fn obj_enc(members: Members) -> Seq<u8> {
    seq![0x7Bu8] + members_enc(members) + seq![0x7Du8]
}

// ---------- the writer parses back ----------

/// Escaping distributes over concatenation.
pub proof fn lemma_esc_append(a: Seq<u8>, b: Seq<u8>)
    ensures
        esc(a + b) == esc(a) + esc(b),
    decreases a.len(),
{
    if a.len() == 0 {
        assert(a + b =~= b);
        assert(esc(a) + esc(b) =~= esc(b));
    } else {
        assert((a + b).skip(1) =~= a.skip(1) + b);
        lemma_esc_append(a.skip(1), b);
        assert(esc(a + b) =~= esc(a) + esc(b));
    }
}

/// Unescaping an escaped content followed by a closing quote recovers it.
#[verifier::rlimit(100)]
pub proof fn lemma_parse_str_body_esc(content: Seq<u8>, rest: Seq<u8>, acc: Seq<u8>)
    ensures
        parse_str_body(esc(content) + seq![0x22u8] + rest, acc) == Some((acc + content, rest)),
    decreases content.len(),
{
    let s = esc(content) + seq![0x22u8] + rest;
    if content.len() == 0 {
        assert(s =~= seq![0x22u8] + rest);
        assert(s[0] == 0x22);
        assert(s.skip(1) =~= rest);
        assert(acc + content =~= acc);
    } else {
        let b = content[0];
        let tail = content.skip(1);
        let s_tail = esc(tail) + seq![0x22u8] + rest;
        assert(s =~= esc1(b) + s_tail);
        if b == 0x22 || b == 0x5C {
            assert(s[0] == 0x5C && s[1] == b);
            assert(s.skip(2) =~= s_tail);
            lemma_parse_str_body_esc(tail, rest, acc.push(b));
            assert(acc.push(b) + tail =~= acc + content);
        } else if b < 0x20 {
            assert(s[0] == 0x5C && s[1] == 0x75);
            let h1 = hex_digit(b / 16);
            let h2 = hex_digit(b % 16);
            assert(s[2] == 0x30 && s[3] == 0x30 && s[4] == h1 && s[5] == h2);
            let s2 = s.skip(2);
            assert(s2[0] == 0x30 && s2[1] == 0x30 && s2[2] == h1 && s2[3] == h2);
            assert(hex_val(0x30) == Some(0u32));
            assert(b / 16 < 2);
            assert(hex_val(h1) == Some((b / 16) as u32));
            assert(hex_val(h2) == Some((b % 16) as u32));
            let cp = ((b / 16) * 16 + (b % 16)) as u32;
            assert(cp == b) by {
                assert((b / 16) * 16 + (b % 16) == b) by (nonlinear_arith);
            }
            assert(parse_hex4(s2) == Some((cp, s2.skip(4))));
            assert(s2.skip(4) =~= s_tail);
            assert(encode_scalar(cp) =~= seq![(cp & 0x7F) as u8]);
            assert((cp & 0x7F) as u8 == b) by (bit_vector)
                requires cp == b as u32, b < 0x20;
            assert(acc + encode_scalar(cp) =~= acc.push(b));
            lemma_parse_str_body_esc(tail, rest, acc.push(b));
            assert(acc.push(b) + tail =~= acc + content);
        } else {
            assert(s[0] == b);
            assert(b != 0x22 && b != 0x5C && b >= 0x20);
            assert(s.skip(1) =~= s_tail);
            lemma_parse_str_body_esc(tail, rest, acc.push(b));
            assert(acc.push(b) + tail =~= acc + content);
        }
    }
}

/// Parsing a written string recovers its content.
pub proof fn lemma_parse_string_enc(content: Seq<u8>, rest: Seq<u8>)
    ensures
        parse_string(jstr_enc(content) + rest) == Some((content, rest)),
{
    let s = jstr_enc(content) + rest;
    assert(s[0] == 0x22);
    assert(s.skip(1) =~= esc(content) + seq![0x22u8] + rest);
    lemma_parse_str_body_esc(content, rest, Seq::empty());
    assert(Seq::<u8>::empty() + content =~= content);
}

/// The elements after the first parse back to what was written.
proof fn lemma_parse_arr_rest_enc(items: Seq<Seq<u8>>, acc: Seq<Seq<u8>>, rest: Seq<u8>)
    ensures
        parse_arr_rest(rest_items_enc(items) + seq![0x5Du8] + rest, acc) == Some(
            (acc + items, rest),
        ),
    decreases items.len(),
{
    let s = rest_items_enc(items) + seq![0x5Du8] + rest;
    if items.len() == 0 {
        assert(s =~= seq![0x5Du8] + rest);
        assert(!is_ws(0x5D));
        assert(skip_ws(s) == s);
        assert(s.skip(1) =~= rest);
        assert(acc + items =~= acc);
    } else {
        let e0 = items[0];
        let tail = items.skip(1);
        let after_elem = rest_items_enc(tail) + seq![0x5Du8] + rest;
        assert(s =~= seq![0x2Cu8] + (jstr_enc(e0) + after_elem));
        assert(!is_ws(0x2C));
        assert(skip_ws(s) == s);
        assert(s[0] == 0x2C);
        assert(s.skip(1) =~= jstr_enc(e0) + after_elem);
        assert(skip_ws(s.skip(1)) == s.skip(1)) by {
            assert((jstr_enc(e0) + after_elem)[0] == 0x22);
            assert(!is_ws(0x22));
        }
        lemma_parse_string_enc(e0, after_elem);
        assert(after_elem.len() < s.len());
        lemma_parse_arr_rest_enc(tail, acc.push(e0), rest);
        assert(acc.push(e0) + tail =~= acc + items);
    }
}

/// Wire form of elements each led by a comma.
pub open spec fn rest_items_enc(items: Seq<Seq<u8>>) -> Seq<u8>
    decreases items.len(),
{
    if items.len() == 0 {
        Seq::empty()
    } else {
        seq![0x2Cu8] + jstr_enc(items[0]) + rest_items_enc(items.skip(1))
    }
}

/// Splitting the first element off the comma-separated form.
proof fn lemma_items_enc_cons(items: Seq<Seq<u8>>)
    requires
        items.len() >= 1,
    ensures
        arr_items_enc(items) == jstr_enc(items[0]) + rest_items_enc(items.skip(1)),
    decreases items.len(),
{
    if items.len() == 1 {
        assert(rest_items_enc(items.skip(1)) =~= Seq::<u8>::empty());
        assert(arr_items_enc(items) =~= jstr_enc(items[0]) + rest_items_enc(items.skip(1)));
    } else {
        lemma_items_enc_cons(items.skip(1));
        assert(arr_items_enc(items) =~= jstr_enc(items[0]) + rest_items_enc(items.skip(1)));
    }
}

/// Parsing a written array recovers its elements.
pub proof fn lemma_parse_array_enc(items: Seq<Seq<u8>>, rest: Seq<u8>)
    ensures
        parse_array(arr_enc(items) + rest) == Some((items, rest)),
{
    let s = arr_enc(items) + rest;
    assert(s[0] == 0x5B);
    if items.len() == 0 {
        assert(s.skip(1) =~= seq![0x5Du8] + rest);
        assert(!is_ws(0x5D));
        assert(skip_ws(s.skip(1)) == s.skip(1));
        assert(s.skip(1).skip(1) =~= rest);
        assert(Seq::<Seq<u8>>::empty() + items =~= items);
    } else {
        lemma_items_enc_cons(items);
        let after_elem = rest_items_enc(items.skip(1)) + seq![0x5Du8] + rest;
        assert(s.skip(1) =~= jstr_enc(items[0]) + after_elem);
        assert((jstr_enc(items[0]) + after_elem)[0] == 0x22);
        assert(!is_ws(0x22));
        assert(skip_ws(s.skip(1)) == s.skip(1));
        lemma_parse_string_enc(items[0], after_elem);
        assert(after_elem.len() < s.len());
        lemma_parse_arr_rest_enc(items.skip(1), seq![items[0]], rest);
        assert(seq![items[0]] + items.skip(1) =~= items);
    }
}

/// Parsing a written member recovers it.
proof fn lemma_parse_member_enc(key: Seq<u8>, v: MemberVal, rest: Seq<u8>)
    ensures
        parse_member(jstr_enc(key) + seq![0x3Au8] + val_enc(v) + rest) == Some(((key, v), rest)),
{
    let s = jstr_enc(key) + seq![0x3Au8] + val_enc(v) + rest;
    assert(s[0] == 0x22);
    assert(!is_ws(0x22));
    assert(skip_ws(s) == s);
    let after_key = seq![0x3Au8] + val_enc(v) + rest;
    assert(s =~= jstr_enc(key) + after_key);
    lemma_parse_string_enc(key, after_key);
    assert(after_key[0] == 0x3A);
    assert(!is_ws(0x3A));
    assert(skip_ws(after_key) == after_key);
    let after_colon = val_enc(v) + rest;
    assert(after_key.skip(1) =~= after_colon);
    match v {
        MemberVal::MStr(c) => {
            assert(after_colon[0] == 0x22);
            assert(!is_ws(0x22));
            assert(skip_ws(after_colon) == after_colon);
            lemma_parse_string_enc(c, rest);
            assert(after_colon =~= jstr_enc(c) + rest);
        },
        MemberVal::MArr(items) => {
            assert(after_colon[0] == 0x5B);
            assert(!is_ws(0x5B));
            assert(skip_ws(after_colon) == after_colon);
            lemma_parse_array_enc(items, rest);
            assert(after_colon =~= arr_enc(items) + rest);
        },
    }
}

/// Wire form of members each led by a comma.
spec fn rest_members_enc(members: Members) -> Seq<u8>
    decreases members.len(),
{
    if members.len() == 0 {
        Seq::empty()
    } else {
        seq![0x2Cu8] + jstr_enc(members[0].0) + seq![0x3Au8] + val_enc(members[0].1)
            + rest_members_enc(members.skip(1))
    }
}

/// Splitting the first member off the comma-separated form.
proof fn lemma_members_enc_cons(members: Members)
    requires
        members.len() >= 1,
    ensures
        members_enc(members) == jstr_enc(members[0].0) + seq![0x3Au8] + val_enc(members[0].1)
            + rest_members_enc(members.skip(1)),
    decreases members.len(),
{
    if members.len() == 1 {
        assert(members_enc(members) =~= jstr_enc(members[0].0) + seq![0x3Au8] + val_enc(
            members[0].1,
        ) + rest_members_enc(members.skip(1)));
    } else {
        lemma_members_enc_cons(members.skip(1));
        assert(members_enc(members) =~= jstr_enc(members[0].0) + seq![0x3Au8] + val_enc(
            members[0].1,
        ) + rest_members_enc(members.skip(1)));
    }
}

/// The members after the first parse back to what was written.
#[verifier::rlimit(60)]
proof fn lemma_parse_members_rest_enc(members: Members, acc: Members, rest: Seq<u8>)
    ensures
        parse_members_rest(rest_members_enc(members) + seq![0x7Du8] + rest, acc) == Some(
            (acc + members, rest),
        ),
    decreases members.len(),
{
    let s = rest_members_enc(members) + seq![0x7Du8] + rest;
    if members.len() == 0 {
        assert(s =~= seq![0x7Du8] + rest);
        assert(!is_ws(0x7D));
        assert(skip_ws(s) == s);
        assert(s.skip(1) =~= rest);
        assert(acc + members =~= acc);
    } else {
        let m0 = members[0];
        let tail = members.skip(1);
        let after_m = rest_members_enc(tail) + seq![0x7Du8] + rest;
        assert(s =~= seq![0x2Cu8] + (jstr_enc(m0.0) + seq![0x3Au8] + val_enc(m0.1) + after_m));
        assert(!is_ws(0x2C));
        assert(skip_ws(s) == s);
        assert(s[0] == 0x2C);
        assert(s.skip(1) =~= jstr_enc(m0.0) + seq![0x3Au8] + val_enc(m0.1) + after_m);
        lemma_parse_member_enc(m0.0, m0.1, after_m);
        assert(after_m.len() < s.len());
        lemma_parse_members_rest_enc(tail, acc.push(m0), rest);
        assert(acc.push(m0) + tail =~= acc + members);
        assert((m0.0, m0.1) == m0);
    }
}

/// Parsing a written object recovers its members.
pub proof fn lemma_parse_object_enc(members: Members, rest: Seq<u8>)
    ensures
        parse_object(obj_enc(members) + rest) == Some((members, rest)),
{
    let s = obj_enc(members) + rest;
    assert(s[0] == 0x7B);
    if members.len() == 0 {
        assert(s.skip(1) =~= seq![0x7Du8] + rest);
        assert(!is_ws(0x7D));
        assert(skip_ws(s.skip(1)) == s.skip(1));
        assert(s.skip(1).skip(1) =~= rest);
        assert(Seq::<(Seq<u8>, MemberVal)>::empty() + members =~= members);
    } else {
        lemma_members_enc_cons(members);
        let m0 = members[0];
        let after_m = rest_members_enc(members.skip(1)) + seq![0x7Du8] + rest;
        assert(s.skip(1) =~= jstr_enc(m0.0) + seq![0x3Au8] + val_enc(m0.1) + after_m);
        assert((jstr_enc(m0.0) + seq![0x3Au8] + val_enc(m0.1) + after_m)[0] == 0x22);
        assert(!is_ws(0x22));
        assert(skip_ws(s.skip(1)) == s.skip(1));
        lemma_parse_member_enc(m0.0, m0.1, after_m);
        assert(after_m.len() < s.len());
        lemma_parse_members_rest_enc(members.skip(1), seq![m0], rest);
        assert(seq![m0] + members.skip(1) =~= members);
        assert((m0.0, m0.1) == m0);
    }
}

/// Parsing a written document recovers its members.
pub proof fn lemma_parse_doc_enc(members: Members)
    ensures
        parse_doc(obj_enc(members)) == Some(members),
{
    let s = obj_enc(members);
    assert(s[0] == 0x7B);
    assert(!is_ws(0x7B));
    assert(skip_ws(s) == s);
    assert(s =~= obj_enc(members) + Seq::<u8>::empty());
    lemma_parse_object_enc(members, Seq::empty());
    assert(skip_ws(Seq::<u8>::empty()).len() == 0);
}

// ---------- executable reader ----------

/// A member's value as read from bytes.
pub enum JsonVal {
    Str(Vec<u8>),
    Arr(Vec<Vec<u8>>),
}

/// The byte strings a vector of byte vectors holds.
pub open spec fn strs_view(v: Seq<Vec<u8>>) -> Seq<Seq<u8>> {
    Seq::new(v.len(), |i: int| v[i]@)
}

impl View for JsonVal {
    type V = MemberVal;

    open spec fn view(&self) -> MemberVal {
        match self {
            JsonVal::Str(c) => MemberVal::MStr(c@),
            JsonVal::Arr(items) => MemberVal::MArr(strs_view(items@)),
        }
    }
}

/// The members a vector of parsed members holds.
pub open spec fn members_view(v: Seq<(Vec<u8>, JsonVal)>) -> Members {
    Seq::new(v.len(), |i: int| (v[i].0@, v[i].1@))
}

/// Index just past the whitespace starting at `i`.
fn ws_at(data: &[u8], i: usize) -> (j: usize)
    requires
        i <= data@.len(),
    ensures
        i <= j <= data@.len(),
        skip_ws(data@.skip(i as int)) == data@.skip(j as int),
        j < data@.len() ==> !is_ws(data@[j as int]),
{
    let mut j = i;
    while j < data.len() && (data[j] == 0x20 || data[j] == 0x09 || data[j] == 0x0A || data[j]
        == 0x0D)
        invariant
            i <= j <= data@.len(),
            skip_ws(data@.skip(i as int)) == skip_ws(data@.skip(j as int)),
        decreases data@.len() - j,
    {
        proof {
            assert(data@.skip(j as int)[0] == data@[j as int]);
            assert(data@.skip(j as int).skip(1) =~= data@.skip(j as int + 1));
        }
        j = j + 1;
    }
    proof {
        if j < data@.len() {
            assert(data@.skip(j as int)[0] == data@[j as int]);
        }
        assert(skip_ws(data@.skip(j as int)) == data@.skip(j as int));
    }
    j
}

/// Value of a hexadecimal digit byte.
fn hex_nibble(b: u8) -> (r: Option<u32>)
    ensures
        r == hex_val(b),
{
    if 0x30 <= b && b <= 0x39 {
        Some((b - 0x30) as u32)
    } else if 0x61 <= b && b <= 0x66 {
        Some((b - 0x61 + 10) as u32)
    } else if 0x41 <= b && b <= 0x46 {
        Some((b - 0x41 + 10) as u32)
    } else {
        None
    }
}

/// Four hexadecimal digits starting at `i`.
fn hex4_at(data: &[u8], i: usize) -> (r: Option<(u32, usize)>)
    requires
        i <= data@.len(),
    ensures
        match r {
            Some((cp, j)) => {
                &&& j == i + 4 <= data@.len()
                &&& cp <= 0xFFFF
                &&& parse_hex4(data@.skip(i as int)) == Some((cp, data@.skip(j as int)))
            },
            None => parse_hex4(data@.skip(i as int)) is None,
        },
{
    if data.len() < 4 || i > data.len() - 4 {
        return None;
    }
    proof {
        assert(data@.skip(i as int)[0] == data@[i as int]);
        assert(data@.skip(i as int)[1] == data@[i as int + 1]);
        assert(data@.skip(i as int)[2] == data@[i as int + 2]);
        assert(data@.skip(i as int)[3] == data@[i as int + 3]);
        assert(data@.skip(i as int).skip(4) =~= data@.skip(i as int + 4));
    }
    let a = match hex_nibble(data[i]) {
        Some(v) => v,
        None => {
            return None;
        },
    };
    let b = match hex_nibble(data[i + 1]) {
        Some(v) => v,
        None => {
            return None;
        },
    };
    let c = match hex_nibble(data[i + 2]) {
        Some(v) => v,
        None => {
            return None;
        },
    };
    let d = match hex_nibble(data[i + 3]) {
        Some(v) => v,
        None => {
            return None;
        },
    };
    Some((a * 4096 + b * 256 + c * 16 + d, i + 4))
}

/// Append the UTF-8 encoding of a scalar value.
fn push_scalar(out: &mut Vec<u8>, scalar: u32)
    requires
        scalar <= 0x10FFFF,
        !(0xD800 <= scalar <= 0xDFFF),
    ensures
        final(out)@ == old(out)@ + encode_scalar(scalar),
{
    if scalar < 0x80 {
        out.push((scalar & 0x7F) as u8);
    } else if scalar < 0x800 {
        out.push(0xC0u8 | ((scalar >> 6) & 0x1F) as u8);
        out.push(0x80u8 | (scalar & 0x3F) as u8);
    } else if scalar < 0x10000 {
        out.push(0xE0u8 | ((scalar >> 12) & 0x0F) as u8);
        out.push(0x80u8 | ((scalar >> 6) & 0x3F) as u8);
        out.push(0x80u8 | (scalar & 0x3F) as u8);
    } else {
        out.push(0xF0u8 | ((scalar >> 18) & 0x7) as u8);
        out.push(0x80u8 | ((scalar >> 12) & 0x3F) as u8);
        out.push(0x80u8 | ((scalar >> 6) & 0x3F) as u8);
        out.push(0x80u8 | (scalar & 0x3F) as u8);
    }
    proof {
        assert(out@ =~= old(out)@ + encode_scalar(scalar));
    }
}

/// Read one string starting at `i` (at its opening quote).
#[verifier::rlimit(100)]
fn parse_string_at(data: &[u8], i: usize) -> (r: Option<(Vec<u8>, usize)>)
    requires
        i <= data@.len(),
    ensures
        match r {
            Some((v, j)) => {
                &&& i < j <= data@.len()
                &&& parse_string(data@.skip(i as int)) == Some((v@, data@.skip(j as int)))
            },
            None => parse_string(data@.skip(i as int)) is None,
        },
{
    if i >= data.len() || data[i] != 0x22 {
        proof {
            if i < data@.len() {
                assert(data@.skip(i as int)[0] == data@[i as int]);
            }
        }
        return None;
    }
    proof {
        assert(data@.skip(i as int)[0] == 0x22);
        assert(data@.skip(i as int).skip(1) =~= data@.skip(i as int + 1));
    }
    let mut acc: Vec<u8> = Vec::new();
    let mut k: usize = i + 1;
    loop
        invariant
            i < k <= data@.len(),
            parse_string(data@.skip(i as int)) == parse_str_body(data@.skip(k as int), acc@),
        decreases data@.len() - k,
    {
        if k >= data.len() {
            return None;
        }
        let b = data[k];
        let ghost s_k = data@.skip(k as int);
        proof {
            assert(s_k[0] == b);
            assert(s_k.skip(1) =~= data@.skip(k as int + 1));
        }
        if b == 0x22 {
            return Some((acc, k + 1));
        } else if b == 0x5C {
            if k + 1 >= data.len() {
                return None;
            }
            let e = data[k + 1];
            proof {
                assert(s_k[1] == e);
                assert(s_k.skip(2) =~= data@.skip(k as int + 2));
            }
            if e == 0x22 || e == 0x5C || e == 0x2F {
                acc.push(e);
                k = k + 2;
            } else if e == 0x62 {
                acc.push(0x08);
                k = k + 2;
            } else if e == 0x66 {
                acc.push(0x0C);
                k = k + 2;
            } else if e == 0x6E {
                acc.push(0x0A);
                k = k + 2;
            } else if e == 0x72 {
                acc.push(0x0D);
                k = k + 2;
            } else if e == 0x74 {
                acc.push(0x09);
                k = k + 2;
            } else if e == 0x75 {
                let (cp, k2) = match hex4_at(data, k + 2) {
                    Some(x) => x,
                    None => {
                        return None;
                    },
                };
                if 0xD800 <= cp && cp <= 0xDBFF {
                    let ghost r_spec = data@.skip(k2 as int);
                    if data.len() - k2 >= 2 && data[k2] == 0x5C && data[k2 + 1] == 0x75 {
                        proof {
                            assert(r_spec[0] == 0x5C && r_spec[1] == 0x75);
                            assert(r_spec.skip(2) =~= data@.skip(k2 as int + 2));
                        }
                        let (lo, k3) = match hex4_at(data, k2 + 2) {
                            Some(x) => x,
                            None => {
                                return None;
                            },
                        };
                        if 0xDC00 <= lo && lo <= 0xDFFF {
                            let scalar = 0x10000 + (cp - 0xD800) * 0x400 + (lo - 0xDC00);
                            push_scalar(&mut acc, scalar);
                            k = k3;
                        } else {
                            return None;
                        }
                    } else {
                        proof {
                            if r_spec.len() >= 2 {
                                assert(r_spec[0] == data@[k2 as int]);
                                assert(r_spec[1] == data@[k2 as int + 1]);
                            }
                        }
                        return None;
                    }
                } else if 0xDC00 <= cp && cp <= 0xDFFF {
                    return None;
                } else {
                    push_scalar(&mut acc, cp);
                    k = k2;
                }
            } else {
                return None;
            }
        } else if b < 0x20 {
            return None;
        } else {
            acc.push(b);
            k = k + 1;
        }
    }
}

/// Read one array of strings starting at `i` (at its opening bracket).
fn parse_array_at(data: &[u8], i: usize) -> (r: Option<(Vec<Vec<u8>>, usize)>)
    requires
        i <= data@.len(),
    ensures
        match r {
            Some((items, j)) => {
                &&& i < j <= data@.len()
                &&& parse_array(data@.skip(i as int)) == Some(
                    (strs_view(items@), data@.skip(j as int)),
                )
            },
            None => parse_array(data@.skip(i as int)) is None,
        },
{
    if i >= data.len() || data[i] != 0x5B {
        proof {
            if i < data@.len() {
                assert(data@.skip(i as int)[0] == data@[i as int]);
            }
        }
        return None;
    }
    proof {
        assert(data@.skip(i as int)[0] == 0x5B);
        assert(data@.skip(i as int).skip(1) =~= data@.skip(i as int + 1));
    }
    let t = ws_at(data, i + 1);
    let mut items: Vec<Vec<u8>> = Vec::new();
    if t < data.len() && data[t] == 0x5D {
        proof {
            assert(data@.skip(t as int)[0] == 0x5D);
            assert(data@.skip(t as int).skip(1) =~= data@.skip(t as int + 1));
            assert(strs_view(items@) =~= Seq::<Seq<u8>>::empty());
        }
        return Some((items, t + 1));
    }
    proof {
        if t < data@.len() {
            assert(data@.skip(t as int)[0] == data@[t as int]);
        }
    }
    let (e0, mut k) = match parse_string_at(data, t) {
        Some(x) => x,
        None => {
            return None;
        },
    };
    items.push(e0);
    proof {
        assert(strs_view(items@) =~= seq![items@[0]@]);
        assert(parse_array(data@.skip(i as int)) == parse_arr_rest(
            data@.skip(k as int),
            strs_view(items@),
        ));
    }
    loop
        invariant
            i < k <= data@.len(),
            parse_array(data@.skip(i as int)) == parse_arr_rest(
                data@.skip(k as int),
                strs_view(items@),
            ),
        decreases data@.len() - k,
    {
        let t2 = ws_at(data, k);
        if t2 >= data.len() {
            return None;
        }
        let b = data[t2];
        proof {
            assert(data@.skip(t2 as int)[0] == b);
            assert(data@.skip(t2 as int).skip(1) =~= data@.skip(t2 as int + 1));
        }
        if b == 0x5D {
            return Some((items, t2 + 1));
        } else if b == 0x2C {
            let u = ws_at(data, t2 + 1);
            let (e, k2) = match parse_string_at(data, u) {
                Some(x) => x,
                None => {
                    return None;
                },
            };
            let ghost pre_items = strs_view(items@);
            items.push(e);
            proof {
                assert(strs_view(items@) =~= pre_items.push(e@));
            }
            k = k2;
        } else {
            return None;
        }
    }
}

/// Read one `"key": value` member starting at `i`.
fn parse_member_at(data: &[u8], i: usize) -> (r: Option<((Vec<u8>, JsonVal), usize)>)
    requires
        i <= data@.len(),
    ensures
        match r {
            Some(((key, v), j)) => {
                &&& i < j <= data@.len()
                &&& parse_member(data@.skip(i as int)) == Some(((key@, v@), data@.skip(j as int)))
            },
            None => parse_member(data@.skip(i as int)) is None,
        },
{
    let t0 = ws_at(data, i);
    let (key, j1) = match parse_string_at(data, t0) {
        Some(x) => x,
        None => {
            return None;
        },
    };
    let t = ws_at(data, j1);
    if t >= data.len() {
        return None;
    }
    let c = data[t];
    proof {
        assert(data@.skip(t as int)[0] == c);
        assert(data@.skip(t as int).skip(1) =~= data@.skip(t as int + 1));
    }
    if c != 0x3A {
        return None;
    }
    let u = ws_at(data, t + 1);
    proof {
        if u < data@.len() {
            assert(data@.skip(u as int)[0] == data@[u as int]);
        }
    }
    if u < data.len() && data[u] == 0x5B {
        let (items, j2) = match parse_array_at(data, u) {
            Some(x) => x,
            None => {
                return None;
            },
        };
        return Some(((key, JsonVal::Arr(items)), j2));
    }
    let (sv, j2) = match parse_string_at(data, u) {
        Some(x) => x,
        None => {
            return None;
        },
    };
    Some(((key, JsonVal::Str(sv)), j2))
}

/// Read one object starting at `i` (at its opening brace).
fn parse_object_at(data: &[u8], i: usize) -> (r: Option<(Vec<(Vec<u8>, JsonVal)>, usize)>)
    requires
        i <= data@.len(),
    ensures
        match r {
            Some((members, j)) => {
                &&& i < j <= data@.len()
                &&& parse_object(data@.skip(i as int)) == Some(
                    (members_view(members@), data@.skip(j as int)),
                )
            },
            None => parse_object(data@.skip(i as int)) is None,
        },
{
    if i >= data.len() || data[i] != 0x7B {
        proof {
            if i < data@.len() {
                assert(data@.skip(i as int)[0] == data@[i as int]);
            }
        }
        return None;
    }
    proof {
        assert(data@.skip(i as int)[0] == 0x7B);
        assert(data@.skip(i as int).skip(1) =~= data@.skip(i as int + 1));
    }
    let t = ws_at(data, i + 1);
    let mut members: Vec<(Vec<u8>, JsonVal)> = Vec::new();
    if t < data.len() && data[t] == 0x7D {
        proof {
            assert(data@.skip(t as int)[0] == 0x7D);
            assert(data@.skip(t as int).skip(1) =~= data@.skip(t as int + 1));
            assert(members_view(members@) =~= Seq::<(Seq<u8>, MemberVal)>::empty());
        }
        return Some((members, t + 1));
    }
    proof {
        if t < data@.len() {
            assert(data@.skip(t as int)[0] == data@[t as int]);
        }
    }
    let (m0, mut k) = match parse_member_at(data, i + 1) {
        Some(x) => x,
        None => {
            return None;
        },
    };
    members.push(m0);
    proof {
        assert(members_view(members@) =~= seq![(members@[0].0@, members@[0].1@)]);
        assert(parse_object(data@.skip(i as int)) == parse_members_rest(
            data@.skip(k as int),
            members_view(members@),
        ));
    }
    loop
        invariant
            i < k <= data@.len(),
            parse_object(data@.skip(i as int)) == parse_members_rest(
                data@.skip(k as int),
                members_view(members@),
            ),
        decreases data@.len() - k,
    {
        let t2 = ws_at(data, k);
        if t2 >= data.len() {
            return None;
        }
        let b = data[t2];
        proof {
            assert(data@.skip(t2 as int)[0] == b);
            assert(data@.skip(t2 as int).skip(1) =~= data@.skip(t2 as int + 1));
        }
        if b == 0x7D {
            return Some((members, t2 + 1));
        } else if b == 0x2C {
            let (m, k2) = match parse_member_at(data, t2 + 1) {
                Some(x) => x,
                None => {
                    return None;
                },
            };
            let ghost pre = members_view(members@);
            let ghost mv = (m.0@, m.1@);
            members.push(m);
            proof {
                assert(members_view(members@) =~= pre.push(mv));
            }
            k = k2;
        } else {
            return None;
        }
    }
}

/// Read a whole document: one object with nothing but whitespace around it.
pub fn parse_doc_bytes(data: &[u8]) -> (r: Option<Vec<(Vec<u8>, JsonVal)>>)
    ensures
        match r {
            Some(members) => parse_doc(data@) == Some(members_view(members@)),
            None => parse_doc(data@) is None,
        },
{
    let t = ws_at(data, 0);
    proof {
        assert(data@.skip(0) =~= data@);
    }
    let (members, j) = match parse_object_at(data, t) {
        Some(x) => x,
        None => {
            return None;
        },
    };
    let t2 = ws_at(data, j);
    if t2 < data.len() {
        proof {
            assert(data@.skip(t2 as int).len() > 0);
        }
        return None;
    }
    proof {
        assert(data@.skip(t2 as int).len() == 0);
    }
    Some(members)
}

// ---------- executable writer ----------

/// Digit byte of a value below 16.
fn hex_digit_byte(v: u8) -> (r: u8)
    requires
        v < 16,
    ensures
        r == hex_digit(v),
{
    if v < 10 {
        0x30 + v
    } else {
        0x61 + v - 10
    }
}

/// Append the wire form of a string (quotes and escapes) to `out`.
pub fn write_jstr(out: &mut Vec<u8>, content: &[u8])
    ensures
        final(out)@ == old(out)@ + jstr_enc(content@),
{
    out.push(0x22);
    let mut k: usize = 0;
    while k < content.len()
        invariant
            k <= content@.len(),
            out@ == old(out)@ + seq![0x22u8] + esc(content@.take(k as int)),
        decreases content@.len() - k,
    {
        let b = content[k];
        let ghost pre = esc(content@.take(k as int));
        if b == 0x22 {
            out.push(0x5C);
            out.push(0x22);
        } else if b == 0x5C {
            out.push(0x5C);
            out.push(0x5C);
        } else if b < 0x20 {
            out.push(0x5C);
            out.push(0x75);
            out.push(0x30);
            out.push(0x30);
            out.push(hex_digit_byte(b / 16));
            out.push(hex_digit_byte(b % 16));
        } else {
            out.push(b);
        }
        proof {
            assert(content@.take(k as int + 1) =~= content@.take(k as int) + seq![b]);
            lemma_esc_append(content@.take(k as int), seq![b]);
            assert(seq![b].skip(1) =~= Seq::<u8>::empty());
            assert(esc(seq![b]) =~= esc1(b) + esc(Seq::<u8>::empty()));
            assert(esc(seq![b]) =~= esc1(b));
            assert(out@ =~= old(out)@ + seq![0x22u8] + esc(content@.take(k as int + 1)));
        }
        k = k + 1;
    }
    out.push(0x22);
    proof {
        assert(content@.take(content@.len() as int) =~= content@);
        assert(out@ =~= old(out)@ + jstr_enc(content@));
    }
}

} // verus!
