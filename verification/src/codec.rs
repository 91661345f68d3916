//! Canonical encoding of a record as one JSON object on a single line.
//!
//! The wire format is a UTF-8 text file holding one object per line:
//! `{"id":<integer or string>,"description":<string>,"status":<tag>}`
//! followed by exactly one newline. String contents escape `"` and `\`,
//! and render control characters as `\u00XX`, so any text round-trips.

use vstd::prelude::*;

use crate::digits::{dec_rep, digit_char};
use crate::record::{Id, IdView, Item, ItemView, Status};

verus! {

/// Whether `c` is a control character, which the encoding never emits
/// raw inside a string.
pub open spec fn is_control(c: char) -> bool {
    (c as u32) < 32
}

/// Lowercase hexadecimal digit for a value below 16.
pub open spec fn hex_char(d: nat) -> char
    recommends
        d < 16,
{
    if d < 10 {
        digit_char(d)
    } else if d == 10 {
        'a'
    } else if d == 11 {
        'b'
    } else if d == 12 {
        'c'
    } else if d == 13 {
        'd'
    } else if d == 14 {
        'e'
    } else {
        'f'
    }
}

/// The escaped rendering of one character inside a JSON string.
pub open spec fn escape_char(c: char) -> Seq<char> {
    if c == '"' {
        seq!['\\', '"']
    } else if c == '\\' {
        seq!['\\', '\\']
    } else if is_control(c) {
        seq!['\\', 'u', '0', '0', hex_char((c as u32 / 16) as nat), hex_char((c as u32 % 16) as nat)]
    } else {
        seq![c]
    }
}

/// The escaped rendering of a whole string body.
pub open spec fn escape(s: Seq<char>) -> Seq<char>
    decreases s.len(),
{
    if s.len() == 0 {
        Seq::<char>::empty()
    } else {
        escape_char(s[0]) + escape(s.drop_first())
    }
}

/// The object's fixed text up to the id value.
pub open spec fn lit_open() -> Seq<char> {
    seq!['{', '"', 'i', 'd', '"', ':']
}

/// The fixed text between the id value and the description value.
pub open spec fn lit_desc() -> Seq<char> {
    seq![',', '"', 'd', 'e', 's', 'c', 'r', 'i', 'p', 't', 'i', 'o', 'n', '"', ':', '"']
}

/// The fixed text between the description value and the status value.
pub open spec fn lit_status() -> Seq<char> {
    seq!['"', ',', '"', 's', 't', 'a', 't', 'u', 's', '"', ':', '"']
}

/// The fixed text closing the object.
pub open spec fn lit_close() -> Seq<char> {
    seq!['"', '}']
}

/// The textual tag of a status value.
pub open spec fn status_text(st: Status) -> Seq<char> {
    match st {
        Status::Complete => seq!['C', 'o', 'm', 'p', 'l', 'e', 't', 'e'],
        Status::Incomplete => seq!['I', 'n', 'c', 'o', 'm', 'p', 'l', 'e', 't', 'e'],
    }
}

/// The rendering of an identifier: a bare integer, or a quoted string.
pub open spec fn encode_id(id: IdView) -> Seq<char> {
    match id {
        IdView::Num(n) => dec_rep(n as nat),
        IdView::Token(t) => seq!['"'] + escape(t) + seq!['"'],
    }
}

/// The canonical one-line object for a record, without the newline.
pub open spec fn encode_item(v: ItemView) -> Seq<char> {
    lit_open() + encode_id(v.id) + lit_desc() + escape(v.description) + lit_status()
        + status_text(v.status) + lit_close()
}

/// The full appended line: the object followed by exactly one newline.
pub open spec fn encode_record_line(v: ItemView) -> Seq<char> {
    encode_item(v) + seq!['\n']
}

/// Escaping one more character appends its escaped rendering.
pub proof fn lemma_escape_snoc(s: Seq<char>, c: char)
    ensures
        escape(s.push(c)) == escape(s) + escape_char(c),
    decreases s.len(),
{
    assert(s.push(c)[0] == if s.len() == 0 { c } else { s[0] });
    if s.len() == 0 {
        assert(s.push(c).drop_first() =~= Seq::<char>::empty());
        assert(escape(Seq::<char>::empty()) =~= Seq::<char>::empty());
        assert(escape(s.push(c)) =~= escape_char(c));
        assert(escape(s) + escape_char(c) =~= escape_char(c));
    } else {
        assert(s.push(c).drop_first() =~= s.drop_first().push(c));
        lemma_escape_snoc(s.drop_first(), c);
        assert(escape(s.push(c)) =~= escape(s) + escape_char(c));
    }
}

/// Exec rendering of one decimal digit value.
fn digit_char_exec(d: u64) -> (c: char)
    requires
        d < 10,
    ensures
        c == digit_char(d as nat),
{
    if d == 0 {
        '0'
    } else if d == 1 {
        '1'
    } else if d == 2 {
        '2'
    } else if d == 3 {
        '3'
    } else if d == 4 {
        '4'
    } else if d == 5 {
        '5'
    } else if d == 6 {
        '6'
    } else if d == 7 {
        '7'
    } else if d == 8 {
        '8'
    } else {
        '9'
    }
}

/// Exec rendering of one hexadecimal digit value.
fn hex_char_exec(d: u64) -> (c: char)
    requires
        d < 16,
    ensures
        c == hex_char(d as nat),
{
    if d < 10 {
        digit_char_exec(d)
    } else if d == 10 {
        'a'
    } else if d == 11 {
        'b'
    } else if d == 12 {
        'c'
    } else if d == 13 {
        'd'
    } else if d == 14 {
        'e'
    } else {
        'f'
    }
}

/// Appends the decimal rendering of `n`.
fn push_dec(n: u64, out: &mut Vec<char>)
    ensures
        final(out)@ == old(out)@ + dec_rep(n as nat),
    decreases n,
{
    if n >= 10 {
        push_dec(n / 10, out);
    }
    out.push(digit_char_exec(n % 10));
    if n < 10 {
        assert(out@ =~= old(out)@ + dec_rep(n as nat));
    } else {
        assert(out@ =~= old(out)@ + dec_rep(n as nat));
    }
}

/// Appends the escaped rendering of one character.
fn push_escape_char(c: char, out: &mut Vec<char>)
    ensures
        final(out)@ == old(out)@ + escape_char(c),
{
    if c == '"' {
        out.push('\\');
        out.push('"');
    } else if c == '\\' {
        out.push('\\');
        out.push('\\');
    } else if (c as u32) < 32 {
        let v = c as u32;
        out.push('\\');
        out.push('u');
        out.push('0');
        out.push('0');
        out.push(hex_char_exec((v / 16) as u64));
        out.push(hex_char_exec((v % 16) as u64));
    } else {
        out.push(c);
    }
    assert(out@ =~= old(out)@ + escape_char(c));
}

/// Collects the characters of a string slice.
pub(crate) fn str_chars(s: &str) -> (v: Vec<char>)
    ensures
        v@ == s@,
{
    let n = s.unicode_len();
    let mut v: Vec<char> = Vec::new();
    let mut i: usize = 0;
    while i < n
        invariant
            n == s@.len(),
            i <= n,
            v@ == s@.take(i as int),
        decreases n - i,
    {
        v.push(s.get_char(i));
        assert(s@.take(i + 1) =~= s@.take(i as int).push(s@[i as int]));
        i = i + 1;
    }
    assert(s@.take(n as int) =~= s@);
    v
}

/// Appends the escaped rendering of a whole string.
fn push_escaped(s: &str, out: &mut Vec<char>)
    ensures
        final(out)@ == old(out)@ + escape(s@),
{
    let chars = str_chars(s);
    let n = chars.len();
    let mut i: usize = 0;
    while i < n
        invariant
            n == chars@.len(),
            chars@ == s@,
            i <= n,
            out@ == old(out)@ + escape(s@.take(i as int)),
        decreases n - i,
    {
        proof {
            lemma_escape_snoc(s@.take(i as int), s@[i as int]);
            assert(s@.take(i + 1) =~= s@.take(i as int).push(s@[i as int]));
        }
        push_escape_char(chars[i], out);
        i = i + 1;
    }
    assert(s@.take(n as int) =~= s@);
}

/// Appends a fixed sequence of characters; each caller pushes its own.
fn push_status(st: &Status, out: &mut Vec<char>)
    ensures
        final(out)@ == old(out)@ + status_text(*st),
{
    match st {
        Status::Complete => {
            out.push('C');
            out.push('o');
            out.push('m');
            out.push('p');
            out.push('l');
            out.push('e');
            out.push('t');
            out.push('e');
        },
        Status::Incomplete => {
            out.push('I');
            out.push('n');
            out.push('c');
            out.push('o');
            out.push('m');
            out.push('p');
            out.push('l');
            out.push('e');
            out.push('t');
            out.push('e');
        },
    }
    assert(out@ =~= old(out)@ + status_text(*st));
}

/// Appends the fixed text opening the object.
fn push_lit_open(out: &mut Vec<char>)
    ensures
        final(out)@ == old(out)@ + lit_open(),
{
    out.push('{');
    out.push('"');
    out.push('i');
    out.push('d');
    out.push('"');
    out.push(':');
    assert(out@ =~= old(out)@ + lit_open());
}

/// Appends the fixed text introducing the description value.
fn push_lit_desc(out: &mut Vec<char>)
    ensures
        final(out)@ == old(out)@ + lit_desc(),
{
    out.push(',');
    out.push('"');
    out.push('d');
    out.push('e');
    out.push('s');
    out.push('c');
    out.push('r');
    out.push('i');
    out.push('p');
    out.push('t');
    out.push('i');
    out.push('o');
    out.push('n');
    out.push('"');
    out.push(':');
    out.push('"');
    assert(out@ =~= old(out)@ + lit_desc());
}

/// Appends the fixed text introducing the status value.
fn push_lit_status(out: &mut Vec<char>)
    ensures
        final(out)@ == old(out)@ + lit_status(),
{
    out.push('"');
    out.push(',');
    out.push('"');
    out.push('s');
    out.push('t');
    out.push('a');
    out.push('t');
    out.push('u');
    out.push('s');
    out.push('"');
    out.push(':');
    out.push('"');
    assert(out@ =~= old(out)@ + lit_status());
}

/// Builds the characters of the canonical object for `item`.
#[verifier::rlimit(30)]
fn encode_item_chars(item: &Item) -> (v: Vec<char>)
    ensures
        v@ == encode_item(item@),
{
    let mut v: Vec<char> = Vec::new();
    push_lit_open(&mut v);
    match &item.id {
        Id::Num(n) => {
            push_dec(*n, &mut v);
        },
        Id::Token(t) => {
            v.push('"');
            push_escaped(t.as_str(), &mut v);
            v.push('"');
            assert(v@ =~= lit_open() + (seq!['"'] + escape(t@) + seq!['"']));
        },
    }
    assert(v@ == lit_open() + encode_id(item@.id));
    push_lit_desc(&mut v);
    assert(v@ =~= lit_open() + encode_id(item@.id) + lit_desc());
    push_escaped(item.description.as_str(), &mut v);
    assert(v@ =~= lit_open() + encode_id(item@.id) + lit_desc() + escape(item@.description));
    push_lit_status(&mut v);
    assert(v@ =~= lit_open() + encode_id(item@.id) + lit_desc() + escape(item@.description)
        + lit_status());
    push_status(&item.status, &mut v);
    v.push('"');
    v.push('}');
    assert(v@ =~= encode_item(item@));
    v
}

/// Relies on `String`'s `FromIterator<char>` implementation: collecting
/// characters yields the string of exactly those characters in order.
#[verifier::external_body]
pub(crate) fn chars_to_string(v: &Vec<char>) -> (r: String)
    ensures
        r@ == v@,
{
    v.iter().collect()
}

/// The line `create` appends for a record: the canonical JSON object for
/// `item` followed by exactly one newline.
pub fn encode_line(item: &Item) -> (r: String)
    ensures
        r@ == encode_record_line(item@),
{
    let mut v = encode_item_chars(item);
    v.push('\n');
    proof {
        assert(v@ =~= encode_record_line(item@));
    }
    chars_to_string(&v)
}

} // verus!
