//! The round-trip law: a record's canonical line parses back to the
//! record, and the file-level consequences the store's laws rest on.

use vstd::prelude::*;

use crate::codec::{
    encode_id, encode_item, encode_record_line, escape, escape_char, hex_char, is_control,
    lit_close, lit_desc, lit_open, lit_status, status_text,
};
use crate::decode::{
    hex_val, key_description, key_id, key_status, lemma_line_end_bounds, line_end,
    line_is_blank, parse_file, parse_item, parse_pair, parse_members, parse_str_body,
    partial_empty, skip_ws, Partial,
};
use crate::digits::{dec_rep, is_digit, lemma_dec_rep_digits, lemma_parse_number_dec_rep};
use crate::record::{IdView, ItemView, Status};

verus! {

/// A hexadecimal digit's character reads back as its value.
proof fn lemma_hex_val_hex_char(d: nat)
    requires
        d < 16,
    ensures
        hex_val(hex_char(d)) == Some(d),
{
}

/// Escaping changes nothing in text free of quotes, backslashes and
/// control characters.
proof fn lemma_escape_plain(s: Seq<char>)
    requires
        forall|k: int|
            0 <= k < s.len() ==> #[trigger] s[k] != '"' && s[k] != '\\' && !is_control(s[k]),
    ensures
        escape(s) == s,
    decreases s.len(),
{
    if s.len() == 0 {
        assert(escape(s) =~= s);
    } else {
        lemma_escape_plain(s.drop_first());
        assert(escape_char(s[0]) =~= seq![s[0]]);
        assert(escape(s) =~= s);
    }
}

/// Reading an escaped text followed by a closing quote recovers the
/// text and stops right after the quote.
proof fn lemma_parse_escaped(s: Seq<char>, i: int, acc: Seq<char>, t: Seq<char>)
    requires
        0 <= i,
        i + escape(t).len() + 1 <= s.len(),
        s.subrange(i, i + escape(t).len() as int) == escape(t),
        s[i + escape(t).len() as int] == '"',
    ensures
        parse_str_body(s, i, acc) == Some((acc + t, i + escape(t).len() + 1)),
    decreases t.len(),
{
    let e = escape(t);
    if t.len() == 0 {
        assert(e =~= Seq::<char>::empty());
        assert(s[i] == '"');
        assert(acc + t =~= acc);
    } else {
        let c = t[0];
        let ec = escape_char(c);
        let rest = escape(t.drop_first());
        assert(e == ec + rest);
        assert forall|k: int| 0 <= k < ec.len() implies s[i + k] == ec[k] by {
            lemma_char_at(s, i, e, k);
            assert(e[k] == ec[k]);
        }
        let i2 = i + ec.len();
        assert(s.subrange(i2, i + e.len() as int) =~= rest) by {
            assert forall|k: int|
                0 <= k < rest.len() implies s.subrange(i2, i + e.len() as int)[k] == rest[k] by {
                lemma_char_at(s, i, e, ec.len() + k);
                assert(e[ec.len() + k] == rest[k]);
                assert(s.subrange(i2, i + e.len() as int)[k] == s[i2 + k]);
            }
        }
        if c == '"' {
            assert(s[i + 0] == ec[0]);
            assert(s[i] == '\\' && s[i + 1] == '"');
            lemma_parse_escaped(s, i + 2, acc.push('"'), t.drop_first());
            assert(acc.push('"') + t.drop_first() =~= acc + t);
        } else if c == '\\' {
            assert(s[i + 0] == ec[0]);
            assert(s[i] == '\\' && s[i + 1] == '\\');
            lemma_parse_escaped(s, i + 2, acc.push('\\'), t.drop_first());
            assert(acc.push('\\') + t.drop_first() =~= acc + t);
        } else if is_control(c) {
            let hi = (c as u32 / 16) as nat;
            let lo = (c as u32 % 16) as nat;
            assert(s[i + 0] == ec[0]);
            assert(s[i] == '\\' && s[i + 1] == 'u' && s[i + 2] == '0' && s[i + 3] == '0');
            assert(s[i + 4] == hex_char(hi) && s[i + 5] == hex_char(lo));
            lemma_hex_val_hex_char(hi);
            lemma_hex_val_hex_char(lo);
            vstd::arithmetic::div_mod::lemma_fundamental_div_mod(c as u32 as int, 16);
            assert(hi * 16 + lo == c as u32);
            vstd::utf8::char_u32_cast(c, (hi * 16 + lo) as u32);
            assert(((hi * 16 + lo) as u32) as char == c);
            assert(((hi * 16 + lo) as u8) as char == c);
            lemma_parse_escaped(s, i + 6, acc.push(c), t.drop_first());
            assert(acc.push(c) + t.drop_first() =~= acc + t);
        } else {
            assert(s[i + 0] == ec[0]);
            assert(s[i] == c);
            assert(c != '"' && c != '\\' && !((c as u32) < 32));
            lemma_parse_escaped(s, i + 1, acc.push(c), t.drop_first());
            assert(acc.push(c) + t.drop_first() =~= acc + t);
        }
    }
}

/// Escape output never holds a raw newline, so an encoded object stays
/// on one line.
pub proof fn lemma_escape_line_safe(t: Seq<char>)
    ensures
        forall|k: int| 0 <= k < escape(t).len() ==> #[trigger] escape(t)[k] != '\n',
    decreases t.len(),
{
    if t.len() > 0 {
        lemma_escape_line_safe(t.drop_first());
        let c = t[0];
        let ec = escape_char(c);
        let rest = escape(t.drop_first());
        assert forall|k: int| 0 <= k < escape(t).len() implies escape(t)[k] != '\n' by {
            assert(escape(t) == ec + rest);
            if k < ec.len() {
                assert(escape(t)[k] == ec[k]);
                if c == '"' || c == '\\' {
                } else if is_control(c) {
                    lemma_hex_char_plain((c as u32 / 16) as nat);
                    lemma_hex_char_plain((c as u32 % 16) as nat);
                }
            } else {
                assert(escape(t)[k] == rest[k - ec.len()]);
            }
        }
    }
}

/// A character of a chunk equals the matching character of the whole.
proof fn lemma_char_at(s: Seq<char>, i: int, e: Seq<char>, k: int)
    requires
        0 <= i,
        i + e.len() <= s.len(),
        s.subrange(i, i + e.len() as int) == e,
        0 <= k < e.len(),
    ensures
        s[i + k] == e[k],
{
    assert(s.subrange(i, i + e.len() as int)[k] == s[i + k]);
}

/// Hexadecimal digit characters are ordinary text, never a newline.
proof fn lemma_hex_char_plain(d: nat)
    requires
        d < 16,
    ensures
        hex_char(d) != '\n',
{
}

/// Positions of the chunks inside a record's canonical object.
spec fn rt_p1(v: ItemView) -> int {
    6 + encode_id(v.id).len() as int
}

spec fn rt_p2(v: ItemView) -> int {
    rt_p1(v) + 16
}

spec fn rt_p3(v: ItemView) -> int {
    rt_p2(v) + escape(v.description).len() as int
}

spec fn rt_p4(v: ItemView) -> int {
    rt_p3(v) + 12
}

spec fn rt_p5(v: ItemView) -> int {
    rt_p4(v) + status_text(v.status).len() as int
}

/// Fields gathered after the identifier member.
spec fn rt_after1(v: ItemView) -> Partial {
    Partial { id: Some(v.id), description: None, status: None }
}

/// Fields gathered after the description member.
spec fn rt_after2(v: ItemView) -> Partial {
    Partial { id: Some(v.id), description: Some(v.description), status: None }
}

/// All three fields gathered.
spec fn rt_full(v: ItemView) -> Partial {
    Partial { id: Some(v.id), description: Some(v.description), status: Some(v.status) }
}

/// The canonical object's layout: each chunk sits at its position.
proof fn lemma_rt_layout(v: ItemView)
    ensures
        encode_item(v).len() == rt_p5(v) + 2,
        encode_item(v).subrange(0, 6) == lit_open(),
        encode_item(v).subrange(6, rt_p1(v)) == encode_id(v.id),
        encode_item(v).subrange(rt_p1(v), rt_p2(v)) == lit_desc(),
        encode_item(v).subrange(rt_p2(v), rt_p3(v)) == escape(v.description),
        encode_item(v).subrange(rt_p3(v), rt_p4(v)) == lit_status(),
        encode_item(v).subrange(rt_p4(v), rt_p5(v)) == status_text(v.status),
        encode_item(v).subrange(rt_p5(v), rt_p5(v) + 2) == lit_close(),
{
    let s = encode_item(v);
    assert(s.subrange(0, 6) =~= lit_open());
    assert(s.subrange(6, rt_p1(v)) =~= encode_id(v.id));
    assert(s.subrange(rt_p1(v), rt_p2(v)) =~= lit_desc());
    assert(s.subrange(rt_p2(v), rt_p3(v)) =~= escape(v.description));
    assert(s.subrange(rt_p3(v), rt_p4(v)) =~= lit_status());
    assert(s.subrange(rt_p4(v), rt_p5(v)) =~= status_text(v.status));
    assert(s.subrange(rt_p5(v), rt_p5(v) + 2) =~= lit_close());
}

/// The identifier member parses back to the record's identifier.
#[verifier::rlimit(60)]
proof fn lemma_rt_pair1(v: ItemView)
    ensures
        parse_pair(encode_item(v), 1, partial_empty()) == Some((rt_after1(v), rt_p1(v))),
{
    let s = encode_item(v);
    let idp = encode_id(v.id);
    let p1 = rt_p1(v);
    lemma_rt_layout(v);
    lemma_char_at(s, 0, lit_open(), 0);
    lemma_char_at(s, 0, lit_open(), 1);
    lemma_char_at(s, 0, lit_open(), 2);
    lemma_char_at(s, 0, lit_open(), 3);
    lemma_char_at(s, 0, lit_open(), 4);
    lemma_char_at(s, 0, lit_open(), 5);
    assert(s[0] == '{' && s[1] == '"' && s[2] == 'i' && s[3] == 'd' && s[4] == '"' && s[5]
        == ':');
    lemma_escape_plain(key_id());
    assert(s.subrange(2, 4) =~= key_id());
    lemma_parse_escaped(s, 2, Seq::<char>::empty(), key_id());
    assert(Seq::<char>::empty() + key_id() =~= key_id());
    assert(parse_str_body(s, 2, Seq::<char>::empty()) == Some((key_id(), 5int)));
    lemma_char_at(s, p1, lit_desc(), 0);
    assert(s[p1] == ',');
    lemma_char_at(s, 6, idp, 0);
    match v.id {
        IdView::Num(n) => {
            lemma_dec_rep_digits(n as nat);
            assert(idp == dec_rep(n as nat));
            assert(is_digit(s[6]));
            assert(!is_digit(s[p1]));
            lemma_parse_number_dec_rep(s, 6, n);
            assert(crate::digits::parse_number(s, 6) == Some((n, p1)));
            assert(s[6] != '"');
        },
        IdView::Token(tok) => {
            let te = escape(tok);
            assert(idp == seq!['"'] + te + seq!['"']);
            assert(idp[0] == '"');
            assert(s[6] == '"');
            assert(s.subrange(7, 7 + te.len() as int) =~= te) by {
                assert forall|k: int|
                    0 <= k < te.len() implies s.subrange(7, 7 + te.len() as int)[k] == te[k] by {
                    lemma_char_at(s, 6, idp, 1 + k);
                    assert(idp[1 + k] == te[k]);
                    assert(s.subrange(7, 7 + te.len() as int)[k] == s[7 + k]);
                }
            }
            lemma_char_at(s, 6, idp, idp.len() as int - 1);
            assert(idp[idp.len() - 1] == '"');
            assert(s[7 + te.len() as int] == '"');
            lemma_parse_escaped(s, 7, Seq::<char>::empty(), tok);
            assert(Seq::<char>::empty() + tok =~= tok);
            assert(parse_str_body(s, 7, Seq::<char>::empty()) == Some((tok, p1)));
        },
    }
    assert(parse_pair(s, 1, partial_empty()) == Some((rt_after1(v), p1)));
}

/// The description member parses back to the record's description.
#[verifier::rlimit(60)]
proof fn lemma_rt_pair2(v: ItemView)
    ensures
        parse_pair(encode_item(v), rt_p1(v) + 1, rt_after1(v)) == Some(
            (rt_after2(v), rt_p3(v) + 1),
        ),
{
    let s = encode_item(v);
    let p1 = rt_p1(v);
    let p2 = rt_p2(v);
    let p3 = rt_p3(v);
    lemma_rt_layout(v);
    lemma_char_at(s, p1, lit_desc(), 0);
    lemma_char_at(s, p1, lit_desc(), 1);
    lemma_char_at(s, p1, lit_desc(), 13);
    lemma_char_at(s, p1, lit_desc(), 14);
    lemma_char_at(s, p1, lit_desc(), 15);
    assert(s[p1] == ',' && s[p1 + 1] == '"' && s[p1 + 13] == '"' && s[p1 + 14] == ':' && s[p1
        + 15] == '"');
    lemma_escape_plain(key_description());
    assert(s.subrange(p1 + 2, p1 + 13) =~= key_description()) by {
        assert forall|k: int|
            0 <= k < 11 implies s.subrange(p1 + 2, p1 + 13)[k] == key_description()[k] by {
            lemma_char_at(s, p1, lit_desc(), 2 + k);
            assert(lit_desc()[2 + k] == key_description()[k]);
            assert(s.subrange(p1 + 2, p1 + 13)[k] == s[p1 + 2 + k]);
        }
    }
    lemma_parse_escaped(s, p1 + 2, Seq::<char>::empty(), key_description());
    assert(Seq::<char>::empty() + key_description() =~= key_description());
    assert(parse_str_body(s, p1 + 2, Seq::<char>::empty()) == Some((key_description(), p1 + 14)));
    lemma_char_at(s, p3, lit_status(), 0);
    assert(s[p3] == '"');
    lemma_parse_escaped(s, p2, Seq::<char>::empty(), v.description);
    assert(Seq::<char>::empty() + v.description =~= v.description);
    assert(parse_str_body(s, p2, Seq::<char>::empty()) == Some((v.description, p3 + 1)));
    assert(key_description() != key_id());
    assert(parse_pair(s, p1 + 1, rt_after1(v)) == Some((rt_after2(v), p3 + 1)));
}

/// The status member parses back to the record's status.
#[verifier::rlimit(60)]
proof fn lemma_rt_pair3(v: ItemView)
    ensures
        parse_pair(encode_item(v), rt_p3(v) + 2, rt_after2(v)) == Some(
            (rt_full(v), rt_p5(v) + 1),
        ),
{
    let s = encode_item(v);
    let p3 = rt_p3(v);
    let p4 = rt_p4(v);
    let p5 = rt_p5(v);
    let st = status_text(v.status);
    lemma_rt_layout(v);
    lemma_char_at(s, p3, lit_status(), 1);
    lemma_char_at(s, p3, lit_status(), 2);
    lemma_char_at(s, p3, lit_status(), 9);
    lemma_char_at(s, p3, lit_status(), 10);
    lemma_char_at(s, p3, lit_status(), 11);
    assert(s[p3 + 1] == ',' && s[p3 + 2] == '"' && s[p3 + 9] == '"' && s[p3 + 10] == ':' && s[p3
        + 11] == '"');
    lemma_escape_plain(key_status());
    assert(s.subrange(p3 + 3, p3 + 9) =~= key_status()) by {
        assert forall|k: int|
            0 <= k < 6 implies s.subrange(p3 + 3, p3 + 9)[k] == key_status()[k] by {
            lemma_char_at(s, p3, lit_status(), 3 + k);
            assert(lit_status()[3 + k] == key_status()[k]);
            assert(s.subrange(p3 + 3, p3 + 9)[k] == s[p3 + 3 + k]);
        }
    }
    lemma_parse_escaped(s, p3 + 3, Seq::<char>::empty(), key_status());
    assert(Seq::<char>::empty() + key_status() =~= key_status());
    assert(parse_str_body(s, p3 + 3, Seq::<char>::empty()) == Some((key_status(), p3 + 10)));
    lemma_char_at(s, p5, lit_close(), 0);
    assert(s[p5] == '"');
    lemma_escape_plain(st);
    lemma_parse_escaped(s, p4, Seq::<char>::empty(), st);
    assert(Seq::<char>::empty() + st =~= st);
    assert(parse_str_body(s, p4, Seq::<char>::empty()) == Some((st, p5 + 1)));
    assert(key_status() != key_id());
    assert(key_status() != key_description());
    assert(status_text(Status::Complete) != status_text(Status::Incomplete));
    assert(parse_pair(s, p3 + 2, rt_after2(v)) == Some((rt_full(v), p5 + 1)));
}

/// The round-trip law for one record: the canonical object the encoder
/// produces parses back to exactly the record it was produced from.
#[verifier::rlimit(60)]
pub proof fn lemma_parse_encode_item(v: ItemView)
    ensures
        parse_item(encode_item(v)) == Some(v),
{
    let s = encode_item(v);
    let p1 = rt_p1(v);
    let p3 = rt_p3(v);
    let p5 = rt_p5(v);
    lemma_rt_layout(v);
    lemma_rt_pair1(v);
    lemma_rt_pair2(v);
    lemma_rt_pair3(v);
    lemma_char_at(s, 0, lit_open(), 0);
    assert(s[0] == '{');
    lemma_char_at(s, p1, lit_desc(), 0);
    assert(s[p1] == ',');
    lemma_char_at(s, p3, lit_status(), 1);
    assert(s[p3 + 1] == ',');
    lemma_char_at(s, p5, lit_close(), 1);
    assert(s[p5 + 1] == '}');
    assert(skip_ws(s, 0) == 0);
    assert(skip_ws(s, p1) == p1);
    assert(skip_ws(s, p3 + 1) == p3 + 1);
    assert(skip_ws(s, p5 + 1) == p5 + 1);
    assert(skip_ws(s, p5 + 2) == p5 + 2);
    assert(parse_members(s, p3 + 2, rt_after2(v), 2) == Some((rt_full(v), p5 + 1)));
    assert(parse_members(s, p1 + 1, rt_after1(v), 3) == Some((rt_full(v), p5 + 1)));
    assert(parse_members(s, 1, partial_empty(), 4) == Some((rt_full(v), p5 + 1)));
    assert(v == ItemView { id: v.id, description: v.description, status: v.status });
    assert(parse_item(s) == Some(v));
}

/// In a text whose last character is a newline, the first line ends
/// inside the text, whatever follows it.
proof fn lemma_line_end_prefix(a: Seq<char>, b: Seq<char>, i: int)
    requires
        0 <= i < a.len(),
        a[a.len() - 1] == '\n',
    ensures
        line_end(a + b, i) == line_end(a, i),
        line_end(a, i) < a.len(),
    decreases a.len() - i,
{
    assert((a + b)[i] == a[i]);
    if a[i] != '\n' {
        lemma_line_end_prefix(a, b, i + 1);
    }
}

/// Parsing distributes over concatenation at a line boundary: a
/// newline-terminated prefix contributes its records before the rest's.
pub proof fn lemma_parse_file_concat(a: Seq<char>, b: Seq<char>)
    requires
        a.len() == 0 || a[a.len() - 1] == '\n',
    ensures
        parse_file(a + b) == (match (parse_file(a), parse_file(b)) {
            (Some(x), Some(y)) => Some(x + y),
            _ => None::<Seq<ItemView>>,
        }),
    decreases a.len(),
{
    if a.len() == 0 {
        assert(a + b =~= b);
        assert(parse_file(a) == Some(Seq::<ItemView>::empty()));
        if parse_file(b) is Some {
            let y = parse_file(b)->0;
            assert(Seq::<ItemView>::empty() + y =~= y);
        }
    } else {
        let s = a + b;
        lemma_line_end_prefix(a, b, 0);
        let e = line_end(a, 0);
        lemma_line_end_bounds(a, 0);
        assert(s.subrange(0, e) =~= a.subrange(0, e));
        let a2 = a.subrange(e + 1, a.len() as int);
        if e + 1 == a.len() {
            assert(a2 =~= Seq::<char>::empty());
        } else {
            assert(a2[a2.len() - 1] == '\n');
        }
        assert(s.subrange(e + 1, s.len() as int) =~= a2 + b);
        lemma_parse_file_concat(a2, b);
        let line = a.subrange(0, e);
        if line_is_blank(line) {
        } else {
            match parse_item(line) {
                None => {},
                Some(v) => {
                    if parse_file(a2) is Some && parse_file(b) is Some {
                        let x2 = parse_file(a2)->0;
                        let y = parse_file(b)->0;
                        assert(seq![v] + (x2 + y) =~= (seq![v] + x2) + y);
                    }
                },
            }
        }
    }
}

/// An encoded object holds no raw newline: the appended line is one
/// line of the file.
pub proof fn lemma_encode_item_no_newline(v: ItemView)
    ensures
        forall|k: int|
            0 <= k < encode_item(v).len() ==> #[trigger] encode_item(v)[k] != '\n',
{
    let s = encode_item(v);
    let idp = encode_id(v.id);
    let esc = escape(v.description);
    let st = status_text(v.status);
    let p1 = rt_p1(v);
    let p2 = rt_p2(v);
    let p3 = rt_p3(v);
    let p4 = rt_p4(v);
    let p5 = rt_p5(v);
    lemma_rt_layout(v);
    lemma_escape_line_safe(v.description);
    assert forall|k: int| 0 <= k < s.len() implies s[k] != '\n' by {
        if k < 6 {
            lemma_char_at(s, 0, lit_open(), k);
        } else if k < p1 {
            lemma_char_at(s, 6, idp, k - 6);
            match v.id {
                IdView::Num(n) => {
                    lemma_dec_rep_digits(n as nat);
                    assert(is_digit(idp[k - 6]));
                },
                IdView::Token(tok) => {
                    let te = escape(tok);
                    lemma_escape_line_safe(tok);
                    assert(idp == seq!['"'] + te + seq!['"']);
                    if k - 6 == 0 {
                        assert(idp[0] == '"');
                    } else if k - 6 < 1 + te.len() {
                        assert(idp[k - 6] == te[k - 7]);
                    } else {
                        assert(idp[k - 6] == '"');
                    }
                },
            }
        } else if k < p2 {
            lemma_char_at(s, p1, lit_desc(), k - p1);
        } else if k < p3 {
            lemma_char_at(s, p2, esc, k - p2);
        } else if k < p4 {
            lemma_char_at(s, p3, lit_status(), k - p3);
        } else if k < p5 {
            lemma_char_at(s, p4, st, k - p4);
        } else {
            lemma_char_at(s, p5, lit_close(), k - p5);
        }
    }
}

/// A file holding exactly one encoded line holds exactly that record.
pub proof fn lemma_parse_encode_line(v: ItemView)
    ensures
        parse_file(encode_record_line(v)) == Some(seq![v]),
{
    let s = encode_record_line(v);
    let body = encode_item(v);
    let n = body.len() as int;
    lemma_encode_item_no_newline(v);
    lemma_parse_encode_item(v);
    assert(s[n] == '\n');
    assert(forall|k: int| 0 <= k < n ==> #[trigger] s[k] == body[k]);
    lemma_line_end_at(s, 0, n);
    assert(s.subrange(0, n) =~= body);
    assert(s.subrange(n + 1, s.len() as int) =~= Seq::<char>::empty());
    lemma_rt_layout(v);
    lemma_char_at(body, 0, lit_open(), 0);
    assert(body[0] == '{');
    assert(skip_ws(body, 0) == 0);
    assert(!line_is_blank(body));
    assert(parse_file(Seq::<char>::empty()) == Some(Seq::<ItemView>::empty()));
    assert(seq![v] + Seq::<ItemView>::empty() =~= seq![v]);
}

/// Law: a record created and appended to a well-formed file is read
/// back as the new last record, with its description and status intact.
pub proof fn lemma_create_then_list(file: Seq<char>, items: Seq<ItemView>, v: ItemView)
    requires
        parse_file(file) == Some(items),
        file.len() == 0 || file[file.len() - 1] == '\n',
    ensures
        parse_file(file + encode_record_line(v)) == Some(items.push(v)),
        items.push(v).last() == v,
    decreases file.len(),
{
    lemma_parse_file_concat(file, encode_record_line(v));
    lemma_parse_encode_line(v);
    assert(items + seq![v] =~= items.push(v));
}

/// The whole file a sequence of records encodes to: their lines in
/// order.
pub open spec fn encode_file(items: Seq<ItemView>) -> Seq<char>
    decreases items.len(),
{
    if items.len() == 0 {
        Seq::<char>::empty()
    } else {
        encode_record_line(items[0]) + encode_file(items.drop_first())
    }
}

/// Law: a file holding the encoded lines of a sequence of records reads
/// back as exactly those records, in file order — in particular, a file
/// of that shape with N lines yields N records.
pub proof fn lemma_parse_encode_file(items: Seq<ItemView>)
    ensures
        parse_file(encode_file(items)) == Some(items),
    decreases items.len(),
{
    if items.len() == 0 {
        assert(encode_file(items) =~= Seq::<char>::empty());
        assert(items =~= Seq::<ItemView>::empty());
    } else {
        let v = items[0];
        let rest = items.drop_first();
        lemma_parse_encode_file(rest);
        lemma_parse_encode_line(v);
        assert(encode_record_line(v)[encode_record_line(v).len() - 1] == '\n');
        lemma_parse_file_concat(encode_record_line(v), encode_file(rest));
        assert(seq![v] + rest =~= items);
    }
}

/// Law: one malformed, non-blank line without a newline of its own
/// fails the whole read, whatever valid lines stand before or after it.
pub proof fn lemma_malformed_line_fails(pre: Seq<char>, line: Seq<char>, post: Seq<char>)
    requires
        pre.len() == 0 || pre[pre.len() - 1] == '\n',
        forall|k: int| 0 <= k < line.len() ==> #[trigger] line[k] != '\n',
        !line_is_blank(line),
        parse_item(line) is None,
    ensures
        parse_file(pre + (line + seq!['\n'] + post)) == None::<Seq<ItemView>>,
{
    let tail = line + seq!['\n'] + post;
    assert(tail[line.len() as int] == '\n');
    assert(forall|k: int| 0 <= k < line.len() ==> #[trigger] tail[k] == line[k]);
    lemma_line_end_at(tail, 0, line.len() as int);
    assert(tail.subrange(0, line.len() as int) =~= line);
    assert(parse_file(tail) is None);
    lemma_parse_file_concat(pre, tail);
}

/// A run without newlines ending at a newline or the end pins the line
/// end; shared by the file-level laws.
proof fn lemma_line_end_at(s: Seq<char>, i: int, m: int)
    requires
        0 <= i <= m <= s.len(),
        forall|k: int| i <= k < m ==> s[k] != '\n',
        m == s.len() || s[m] == '\n',
    ensures
        line_end(s, i) == m,
    decreases m - i,
{
    if i < m {
        lemma_line_end_at(s, i + 1, m);
    }
}

} // verus!
