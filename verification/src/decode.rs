//! Parsing of persisted lines back into records.
//!
//! The reader accepts one JSON object per line in any field order, with
//! optional whitespace between tokens, and rejects unknown, missing or
//! repeated fields. Blank lines are skipped; any other malformed line
//! fails the whole read, with no partial result.

use vstd::prelude::*;

use crate::digits::{digit_val, is_digit, parse_digits, parse_number};
use crate::record::{Id, IdView, Item, ItemView, Status, StoreError};

verus! {

/// Whitespace accepted between tokens.
pub open spec fn is_ws(c: char) -> bool {
    c == ' ' || c == '\t' || c == '\r' || c == '\n'
}

/// Position of the first non-whitespace character at or after `i`.
pub open spec fn skip_ws(s: Seq<char>, i: int) -> int
    decreases s.len() - i,
{
    if 0 <= i < s.len() && is_ws(s[i]) {
        skip_ws(s, i + 1)
    } else {
        i
    }
}

/// Value of a hexadecimal digit character, either case.
pub open spec fn hex_val(c: char) -> Option<nat> {
    if is_digit(c) {
        Some(digit_val(c))
    } else if c == 'a' || c == 'A' {
        Some(10)
    } else if c == 'b' || c == 'B' {
        Some(11)
    } else if c == 'c' || c == 'C' {
        Some(12)
    } else if c == 'd' || c == 'D' {
        Some(13)
    } else if c == 'e' || c == 'E' {
        Some(14)
    } else if c == 'f' || c == 'F' {
        Some(15)
    } else {
        None
    }
}

/// Body of a JSON string starting at `i` (just past the opening quote),
/// accumulated into `acc`; yields the content and the position after the
/// closing quote. Escapes accepted: the two the encoder must escape, the
/// common single-character ones, and `\u00XX`.
pub open spec fn parse_str_body(s: Seq<char>, i: int, acc: Seq<char>) -> Option<(Seq<char>, int)>
    decreases s.len() - i,
{
    if i < 0 || i >= s.len() {
        None
    } else if s[i] == '"' {
        Some((acc, i + 1))
    } else if s[i] == '\\' {
        if i + 1 >= s.len() {
            None
        } else if s[i + 1] == '"' {
            parse_str_body(s, i + 2, acc.push('"'))
        } else if s[i + 1] == '\\' {
            parse_str_body(s, i + 2, acc.push('\\'))
        } else if s[i + 1] == '/' {
            parse_str_body(s, i + 2, acc.push('/'))
        } else if s[i + 1] == 'n' {
            parse_str_body(s, i + 2, acc.push('\n'))
        } else if s[i + 1] == 'r' {
            parse_str_body(s, i + 2, acc.push('\r'))
        } else if s[i + 1] == 't' {
            parse_str_body(s, i + 2, acc.push('\t'))
        } else if s[i + 1] == 'b' {
            parse_str_body(s, i + 2, acc.push('\u{8}'))
        } else if s[i + 1] == 'f' {
            parse_str_body(s, i + 2, acc.push('\u{c}'))
        } else if s[i + 1] == 'u' {
            if i + 6 <= s.len() && s[i + 2] == '0' && s[i + 3] == '0' && hex_val(s[i + 4]) is Some
                && hex_val(s[i + 5]) is Some {
                let v = hex_val(s[i + 4])->0 * 16 + hex_val(s[i + 5])->0;
                parse_str_body(s, i + 6, acc.push((v as u8) as char))
            } else {
                None
            }
        } else {
            None
        }
    } else if (s[i] as u32) < 32 {
        None
    } else {
        parse_str_body(s, i + 1, acc.push(s[i]))
    }
}

/// The fields gathered so far while reading an object's members.
pub struct Partial {
    pub id: Option<IdView>,
    pub description: Option<Seq<char>>,
    pub status: Option<Status>,
}

/// A `Partial` with nothing gathered yet.
pub open spec fn partial_empty() -> Partial {
    Partial { id: None, description: None, status: None }
}

/// The key naming the identifier field.
pub open spec fn key_id() -> Seq<char> {
    seq!['i', 'd']
}

/// The key naming the description field.
pub open spec fn key_description() -> Seq<char> {
    seq!['d', 'e', 's', 'c', 'r', 'i', 'p', 't', 'i', 'o', 'n']
}

/// The key naming the status field.
pub open spec fn key_status() -> Seq<char> {
    seq!['s', 't', 'a', 't', 'u', 's']
}

/// One `"key": value` member starting at `i`, folded into `p`.
/// A repeated or unknown key, or a value of the wrong shape, fails.
pub open spec fn parse_pair(s: Seq<char>, i: int, p: Partial) -> Option<(Partial, int)> {
    let i1 = skip_ws(s, i);
    if i1 < s.len() && s[i1] == '"' {
        match parse_str_body(s, i1 + 1, Seq::<char>::empty()) {
            None => None,
            Some((k, i2)) => {
                let i3 = skip_ws(s, i2);
                if i3 < s.len() && s[i3] == ':' {
                    let i4 = skip_ws(s, i3 + 1);
                    if k == key_id() {
                        if p.id is Some {
                            None
                        } else if i4 < s.len() && s[i4] == '"' {
                            match parse_str_body(s, i4 + 1, Seq::<char>::empty()) {
                                None => None,
                                Some((t, i5)) => Some(
                                    (
                                        Partial {
                                            id: Some(IdView::Token(t)),
                                            description: p.description,
                                            status: p.status,
                                        },
                                        i5,
                                    ),
                                ),
                            }
                        } else {
                            match parse_number(s, i4) {
                                None => None,
                                Some((n, i5)) => Some(
                                    (
                                        Partial {
                                            id: Some(IdView::Num(n)),
                                            description: p.description,
                                            status: p.status,
                                        },
                                        i5,
                                    ),
                                ),
                            }
                        }
                    } else if k == key_description() {
                        if p.description is Some {
                            None
                        } else if i4 < s.len() && s[i4] == '"' {
                            match parse_str_body(s, i4 + 1, Seq::<char>::empty()) {
                                None => None,
                                Some((d, i5)) => Some(
                                    (
                                        Partial {
                                            id: p.id,
                                            description: Some(d),
                                            status: p.status,
                                        },
                                        i5,
                                    ),
                                ),
                            }
                        } else {
                            None
                        }
                    } else if k == key_status() {
                        if p.status is Some {
                            None
                        } else if i4 < s.len() && s[i4] == '"' {
                            match parse_str_body(s, i4 + 1, Seq::<char>::empty()) {
                                None => None,
                                Some((t, i5)) => {
                                    if t == crate::codec::status_text(Status::Complete) {
                                        Some(
                                            (
                                                Partial {
                                                    id: p.id,
                                                    description: p.description,
                                                    status: Some(Status::Complete),
                                                },
                                                i5,
                                            ),
                                        )
                                    } else if t == crate::codec::status_text(Status::Incomplete) {
                                        Some(
                                            (
                                                Partial {
                                                    id: p.id,
                                                    description: p.description,
                                                    status: Some(Status::Incomplete),
                                                },
                                                i5,
                                            ),
                                        )
                                    } else {
                                        None
                                    }
                                },
                            }
                        } else {
                            None
                        }
                    } else {
                        None
                    }
                } else {
                    None
                }
            },
        }
    } else {
        None
    }
}

/// The members of an object starting at `i`: pairs separated by commas.
/// `budget` bounds how many pairs may still be read; three distinct keys
/// exist, so a budget of four admits every object a bounded reader could
/// accept (a fourth pair necessarily repeats or mistakes a key).
/// Yields the gathered fields and the whitespace-skipped position after
/// the last pair.
pub open spec fn parse_members(s: Seq<char>, i: int, p: Partial, budget: nat) -> Option<
    (Partial, int),
>
    decreases budget,
{
    if budget == 0 {
        None
    } else {
        match parse_pair(s, i, p) {
            None => None,
            Some((p2, j)) => {
                let j1 = skip_ws(s, j);
                if j1 < s.len() && s[j1] == ',' {
                    parse_members(s, j1 + 1, p2, (budget - 1) as nat)
                } else {
                    Some((p2, j1))
                }
            },
        }
    }
}

/// A whole line holding one object: optional surrounding whitespace, an
/// object with exactly the three required fields, nothing after it.
pub open spec fn parse_item(s: Seq<char>) -> Option<ItemView> {
    let i0 = skip_ws(s, 0);
    if i0 < s.len() && s[i0] == '{' {
        match parse_members(s, i0 + 1, partial_empty(), 4) {
            None => None,
            Some((p, j)) => {
                if j < s.len() && s[j] == '}' && skip_ws(s, j + 1) == s.len() {
                    match (p.id, p.description, p.status) {
                        (Some(id), Some(description), Some(status)) => Some(
                            ItemView { id, description, status },
                        ),
                        _ => None,
                    }
                } else {
                    None
                }
            },
        }
    } else {
        None
    }
}

/// Whether a line holds only whitespace.
pub open spec fn line_is_blank(s: Seq<char>) -> bool {
    skip_ws(s, 0) == s.len()
}

/// Position of the first newline at or after `i`, or the end.
pub open spec fn line_end(s: Seq<char>, i: int) -> int
    decreases s.len() - i,
{
    if 0 <= i < s.len() && s[i] != '\n' {
        line_end(s, i + 1)
    } else if 0 <= i < s.len() {
        i
    } else {
        s.len() as int
    }
}

/// The end of a line never lies before its start, nor past the end.
pub proof fn lemma_line_end_bounds(s: Seq<char>, i: int)
    requires
        0 <= i <= s.len(),
    ensures
        i <= line_end(s, i) <= s.len(),
    decreases s.len() - i,
{
    if i < s.len() && s[i] != '\n' {
        lemma_line_end_bounds(s, i + 1);
    }
}

/// The records held by a whole file: its lines in order, blank lines
/// skipped, every other line one object. Any malformed line makes the
/// whole file malformed.
pub open spec fn parse_file(s: Seq<char>) -> Option<Seq<ItemView>>
    decreases s.len(),
    via parse_file_decreases
{
    if s.len() == 0 {
        Some(Seq::<ItemView>::empty())
    } else {
        let e = line_end(s, 0);
        let line = s.subrange(0, e);
        let rest = if e == s.len() {
            Seq::<char>::empty()
        } else {
            s.subrange(e + 1, s.len() as int)
        };
        let tail = parse_file(rest);
        if line_is_blank(line) {
            tail
        } else {
            match parse_item(line) {
                None => None,
                Some(v) => match tail {
                    None => None,
                    Some(t) => Some(seq![v] + t),
                },
            }
        }
    }
}

#[via_fn]
proof fn parse_file_decreases(s: Seq<char>) {
    if s.len() > 0 {
        lemma_line_end_bounds(s, 0);
    }
}

/// The view of a sequence of records.
pub open spec fn items_view(s: Seq<Item>) -> Seq<ItemView> {
    s.map_values(|it: Item| it@)
}

/// Exec whitespace skipping.
fn skip_ws_exec(s: &Vec<char>, i: usize) -> (r: usize)
    requires
        i <= s.len(),
    ensures
        r == skip_ws(s@, i as int),
        i <= r <= s.len(),
{
    let mut j = i;
    loop
        invariant
            i <= j <= s@.len(),
            skip_ws(s@, i as int) == skip_ws(s@, j as int),
        decreases s@.len() - j,
    {
        if j < s.len() {
            let c = s[j];
            if c == ' ' || c == '\t' || c == '\r' || c == '\n' {
                j = j + 1;
                continue ;
            }
        }
        return j;
    }
}

/// Exec hexadecimal digit value.
fn hex_val_exec(c: char) -> (r: Option<u8>)
    ensures
        match r {
            Some(v) => hex_val(c) == Some(v as nat) && v < 16,
            None => hex_val(c) is None,
        },
{
    let u = c as u32;
    if 48 <= u && u <= 57 {
        Some((u - 48) as u8)
    } else if c == 'a' || c == 'A' {
        Some(10)
    } else if c == 'b' || c == 'B' {
        Some(11)
    } else if c == 'c' || c == 'C' {
        Some(12)
    } else if c == 'd' || c == 'D' {
        Some(13)
    } else if c == 'e' || c == 'E' {
        Some(14)
    } else if c == 'f' || c == 'F' {
        Some(15)
    } else {
        None
    }
}

/// Exec scan of a JSON string body starting just past the opening quote.
fn scan_str_body(s: &Vec<char>, start: usize) -> (r: Option<(Vec<char>, usize)>)
    requires
        start <= s.len(),
    ensures
        match r {
            Some((content, end)) => parse_str_body(s@, start as int, Seq::<char>::empty())
                == Some((content@, end as int)) && end <= s.len(),
            None => parse_str_body(s@, start as int, Seq::<char>::empty()) is None,
        },
{
    let mut i = start;
    let mut acc: Vec<char> = Vec::new();
    loop
        invariant
            start <= i <= s@.len(),
            parse_str_body(s@, start as int, Seq::<char>::empty()) == parse_str_body(
                s@,
                i as int,
                acc@,
            ),
        decreases s@.len() - i,
    {
        if i >= s.len() {
            return None;
        }
        let c = s[i];
        if c == '"' {
            return Some((acc, i + 1));
        } else if c == '\\' {
            if i + 1 >= s.len() {
                return None;
            }
            let e = s[i + 1];
            if e == '"' {
                acc.push('"');
                i = i + 2;
            } else if e == '\\' {
                acc.push('\\');
                i = i + 2;
            } else if e == '/' {
                acc.push('/');
                i = i + 2;
            } else if e == 'n' {
                acc.push('\n');
                i = i + 2;
            } else if e == 'r' {
                acc.push('\r');
                i = i + 2;
            } else if e == 't' {
                acc.push('\t');
                i = i + 2;
            } else if e == 'b' {
                acc.push('\u{8}');
                i = i + 2;
            } else if e == 'f' {
                acc.push('\u{c}');
                i = i + 2;
            } else if e == 'u' {
                if s.len() - i >= 6 && s[i + 2] == '0' && s[i + 3] == '0' {
                    let h4 = hex_val_exec(s[i + 4]);
                    let h5 = hex_val_exec(s[i + 5]);
                    match (h4, h5) {
                        (Some(a), Some(b)) => {
                            let v: u8 = a * 16 + b;
                            assert(v as char == ((hex_val(s@[i + 4])->0 * 16 + hex_val(
                                s@[i + 5],
                            )->0) as u8) as char);
                            acc.push(v as char);
                            i = i + 6;
                        },
                        _ => {
                            return None;
                        },
                    }
                } else {
                    return None;
                }
            } else {
                return None;
            }
        } else if (c as u32) < 32 {
            return None;
        } else {
            acc.push(c);
            i = i + 1;
        }
    }
}

/// Exec scan of an integer identifier value.
fn scan_number(s: &Vec<char>, i: usize) -> (r: Option<(u64, usize)>)
    requires
        i <= s.len(),
    ensures
        match r {
            Some((n, end)) => parse_number(s@, i as int) == Some((n, end as int)) && end
                <= s.len(),
            None => parse_number(s@, i as int) is None,
        },
{
    if !(i < s.len() && {
        let u = s[i] as u32;
        48 <= u && u <= 57
    }) {
        return None;
    }
    if s[i] == '0' {
        return Some((0, i + 1));
    }
    let mut j = i;
    let mut acc: u64 = 0;
    loop
        invariant
            i <= j <= s@.len(),
            i < s@.len(),
            is_digit(s@[i as int]),
            s@[i as int] != '0',
            parse_digits(s@, i as int, 0) == parse_digits(s@, j as int, acc),
        decreases s@.len() - j,
    {
        if j >= s.len() {
            return Some((acc, j));
        }
        let u = s[j] as u32;
        if !(48 <= u && u <= 57) {
            return Some((acc, j));
        }
        let d = (u - 48) as u64;
        proof {
            vstd::arithmetic::div_mod::lemma_fundamental_div_mod(
                (u64::MAX - d as u64) as int,
                10,
            );
        }
        if acc > (u64::MAX - d) / 10 {
            assert(acc as nat * 10 + digit_val(s@[j as int]) > u64::MAX as nat);
            return None;
        }
        assert(acc as nat * 10 + digit_val(s@[j as int]) <= u64::MAX as nat);
        acc = acc * 10 + d;
        j = j + 1;
    }
}

/// Exec equality of two character vectors.
fn vec_chars_eq(a: &Vec<char>, b: &Vec<char>) -> (r: bool)
    ensures
        r == (a@ == b@),
{
    if a.len() != b.len() {
        assert(a@ != b@);
        return false;
    }
    let n = a.len();
    let mut j: usize = 0;
    while j < n
        invariant
            n == a@.len() == b@.len(),
            j <= n,
            forall|k: int| 0 <= k < j ==> a@[k] == b@[k],
        decreases n - j,
    {
        if a[j] != b[j] {
            assert(a@ != b@);
            return false;
        }
        j = j + 1;
    }
    assert(a@ =~= b@);
    true
}

/// The fields gathered so far, as executable state.
pub struct PartialRec {
    pub id: Option<Id>,
    pub description: Option<String>,
    pub status: Option<Status>,
}

impl View for PartialRec {
    type V = Partial;

    open spec fn view(&self) -> Partial {
        Partial {
            id: match self.id {
                Some(ref x) => Some(x@),
                None => None,
            },
            description: match self.description {
                Some(ref d) => Some(d@),
                None => None,
            },
            status: match self.status {
                Some(st) => Some(st),
                None => None,
            },
        }
    }
}

/// Exec parse of one `"key": value` member.
fn parse_pair_exec(s: &Vec<char>, i: usize, p: PartialRec) -> (r: Option<(PartialRec, usize)>)
    requires
        i <= s.len(),
    ensures
        match r {
            Some((p2, j)) => parse_pair(s@, i as int, p@) == Some((p2@, j as int)) && j
                <= s.len(),
            None => parse_pair(s@, i as int, p@) is None,
        },
{
    let i1 = skip_ws_exec(s, i);
    if !(i1 < s.len() && s[i1] == '"') {
        return None;
    }
    let scanned = scan_str_body(s, i1 + 1);
    match scanned {
        None => None,
        Some((k, i2)) => {
            let i3 = skip_ws_exec(s, i2);
            if !(i3 < s.len() && s[i3] == ':') {
                return None;
            }
            let i4 = skip_ws_exec(s, i3 + 1);
            let kid: Vec<char> = vec!['i', 'd'];
            let kdesc: Vec<char> = vec![
                'd',
                'e',
                's',
                'c',
                'r',
                'i',
                'p',
                't',
                'i',
                'o',
                'n',
            ];
            let kstat: Vec<char> = vec!['s', 't', 'a', 't', 'u', 's'];
            assert(kid@ =~= key_id());
            assert(kdesc@ =~= key_description());
            assert(kstat@ =~= key_status());
            if vec_chars_eq(&k, &kid) {
                if p.id.is_some() {
                    return None;
                }
                if i4 < s.len() && s[i4] == '"' {
                    match scan_str_body(s, i4 + 1) {
                        None => None,
                        Some((t, i5)) => {
                            let tok = crate::codec::chars_to_string(&t);
                            Some(
                                (
                                    PartialRec {
                                        id: Some(Id::Token(tok)),
                                        description: p.description,
                                        status: p.status,
                                    },
                                    i5,
                                ),
                            )
                        },
                    }
                } else {
                    match scan_number(s, i4) {
                        None => None,
                        Some((n, i5)) => Some(
                            (
                                PartialRec {
                                    id: Some(Id::Num(n)),
                                    description: p.description,
                                    status: p.status,
                                },
                                i5,
                            ),
                        ),
                    }
                }
            } else if vec_chars_eq(&k, &kdesc) {
                if p.description.is_some() {
                    return None;
                }
                if i4 < s.len() && s[i4] == '"' {
                    match scan_str_body(s, i4 + 1) {
                        None => None,
                        Some((d, i5)) => {
                            let text = crate::codec::chars_to_string(&d);
                            Some(
                                (
                                    PartialRec {
                                        id: p.id,
                                        description: Some(text),
                                        status: p.status,
                                    },
                                    i5,
                                ),
                            )
                        },
                    }
                } else {
                    None
                }
            } else if vec_chars_eq(&k, &kstat) {
                if p.status.is_some() {
                    return None;
                }
                if i4 < s.len() && s[i4] == '"' {
                    match scan_str_body(s, i4 + 1) {
                        None => None,
                        Some((t, i5)) => {
                            let complete: Vec<char> = vec!['C', 'o', 'm', 'p', 'l', 'e', 't', 'e'];
                            let incomplete: Vec<char> = vec![
                                'I',
                                'n',
                                'c',
                                'o',
                                'm',
                                'p',
                                'l',
                                'e',
                                't',
                                'e',
                            ];
                            assert(complete@ =~= crate::codec::status_text(Status::Complete));
                            assert(incomplete@ =~= crate::codec::status_text(Status::Incomplete));
                            if vec_chars_eq(&t, &complete) {
                                Some(
                                    (
                                        PartialRec {
                                            id: p.id,
                                            description: p.description,
                                            status: Some(Status::Complete),
                                        },
                                        i5,
                                    ),
                                )
                            } else if vec_chars_eq(&t, &incomplete) {
                                Some(
                                    (
                                        PartialRec {
                                            id: p.id,
                                            description: p.description,
                                            status: Some(Status::Incomplete),
                                        },
                                        i5,
                                    ),
                                )
                            } else {
                                None
                            }
                        },
                    }
                } else {
                    None
                }
            } else {
                None
            }
        },
    }
}

/// Exec parse of a whole line's characters into a record.
fn parse_item_chars(s: &Vec<char>) -> (r: Option<Item>)
    ensures
        match r {
            Some(item) => parse_item(s@) == Some(item@),
            None => parse_item(s@) is None,
        },
{
    let i0 = skip_ws_exec(s, 0);
    if !(i0 < s.len() && s[i0] == '{') {
        return None;
    }
    let mut p = PartialRec { id: None, description: None, status: None };
    let mut pos = i0 + 1;
    let mut budget: usize = 4;
    assert(p@ == partial_empty());
    loop
        invariant
            pos <= s@.len(),
            budget <= 4,
            i0 == skip_ws(s@, 0),
            i0 < s@.len(),
            s@[i0 as int] == '{',
            parse_members(s@, (i0 + 1) as int, partial_empty(), 4) == parse_members(
                s@,
                pos as int,
                p@,
                budget as nat,
            ),
        decreases budget,
    {
        if budget == 0 {
            return None;
        }
        match parse_pair_exec(s, pos, p) {
            None => {
                return None;
            },
            Some((p2, j)) => {
                let j1 = skip_ws_exec(s, j);
                if j1 < s.len() && s[j1] == ',' {
                    p = p2;
                    pos = j1 + 1;
                    budget = budget - 1;
                } else {
                    // End of the members: check the closing brace and
                    // that all three fields were gathered.
                    assert(parse_members(s@, (i0 + 1) as int, partial_empty(), 4) == Some(
                        (p2@, j1 as int),
                    ));
                    if !(j1 < s.len() && s[j1] == '}') {
                        return None;
                    }
                    let j2 = skip_ws_exec(s, j1 + 1);
                    if j2 != s.len() {
                        return None;
                    }
                    match (p2.id, p2.description, p2.status) {
                        (Some(id), Some(description), Some(status)) => {
                            let item = Item { id, description, status };
                            return Some(item);
                        },
                        _ => {
                            return None;
                        },
                    }
                }
            },
        }
    }
}

/// Copies a range of a character vector.
fn subvec(s: &Vec<char>, a: usize, b: usize) -> (v: Vec<char>)
    requires
        a <= b <= s.len(),
    ensures
        v@ == s@.subrange(a as int, b as int),
{
    let mut v: Vec<char> = Vec::new();
    let mut j = a;
    while j < b
        invariant
            a <= j <= b <= s@.len(),
            v@ == s@.subrange(a as int, j as int),
        decreases b - j,
    {
        v.push(s[j]);
        assert(s@.subrange(a as int, j + 1) =~= s@.subrange(a as int, j as int).push(
            s@[j as int],
        ));
        j = j + 1;
    }
    v
}

/// A run without newlines ending at a newline or the end pins `line_end`.
proof fn lemma_line_end_at(s: Seq<char>, i: int, m: int)
    requires
        0 <= i <= m <= s.len(),
        forall|k: int| i <= k < m ==> s[k] != '\n',
        m == s.len() || s[m] == '\n',
    ensures
        line_end(s, i) == m,
    decreases m - i,
{
    if i < m {
        lemma_line_end_at(s, i + 1, m);
    }
}

/// Parses one line of a file's contents: the record it holds, if valid.
/// Succeeds exactly on the lines the file reader accepts as records.
pub fn decode_item(line: &str) -> (r: Result<Item, StoreError>)
    ensures
        match r {
            Ok(item) => parse_item(line@) == Some(item@),
            Err(e) => parse_item(line@) is None && e == StoreError::Malformed,
        },
{
    let chars = crate::codec::str_chars(line);
    match parse_item_chars(&chars) {
        Some(item) => Ok(item),
        None => Err(StoreError::Malformed),
    }
}

/// Parses a whole backing file's contents into its records, in file
/// order. Returns `Err` exactly when some non-blank line is not a valid
/// encoded record; no partial result is returned.
pub fn decode_file(contents: &str) -> (r: Result<Vec<Item>, StoreError>)
    ensures
        match r {
            Ok(items) => parse_file(contents@) == Some(items_view(items@)),
            Err(e) => parse_file(contents@) is None && e == StoreError::Malformed,
        },
{
    let chars = crate::codec::str_chars(contents);
    let n = chars.len();
    let mut items: Vec<Item> = Vec::new();
    let mut pos: usize = 0;
    proof {
        assert(chars@.subrange(0, n as int) =~= contents@);
        assert(items_view(items@) =~= Seq::<ItemView>::empty());
        if parse_file(contents@) is Some {
            let t0 = parse_file(contents@)->0;
            assert(items_view(items@) + t0 =~= t0);
        }
    }
    while pos < n
        invariant
            pos <= n,
            n == chars@.len(),
            chars@ == contents@,
            parse_file(contents@) == (match parse_file(chars@.subrange(pos as int, n as int)) {
                None => None::<Seq<ItemView>>,
                Some(t) => Some(items_view(items@) + t),
            }),
        decreases n - pos,
    {
        let ghost rem = chars@.subrange(pos as int, n as int);
        let mut e = pos;
        while e < n && chars[e] != '\n'
            invariant
                pos <= e <= n,
                n == chars@.len(),
                forall|k: int| pos <= k < e ==> chars@[k] != '\n',
            decreases n - e,
        {
            e = e + 1;
        }
        proof {
            assert(forall|k: int| 0 <= k < e - pos ==> rem[k] != '\n');
            lemma_line_end_at(rem, 0, e - pos);
        }
        let line = subvec(&chars, pos, e);
        proof {
            assert(line@ =~= rem.subrange(0, e - pos));
        }
        let next = if e < n {
            e + 1
        } else {
            n
        };
        let ghost rem2 = chars@.subrange(next as int, n as int);
        proof {
            if e < n {
                assert(rem2 =~= rem.subrange(e - pos + 1, rem.len() as int));
            } else {
                assert(rem2 =~= Seq::<char>::empty());
                assert(rem.subrange(0, e - pos) =~= rem);
            }
        }
        let bl = skip_ws_exec(&line, 0);
        if bl == line.len() {
            pos = next;
        } else {
            match parse_item_chars(&line) {
                None => {
                    return Err(StoreError::Malformed);
                },
                Some(item) => {
                    let ghost old_items = items@;
                    items.push(item);
                    proof {
                        assert(items_view(items@) =~= items_view(old_items).push(item@));
                        if parse_file(rem2) is Some {
                            let t2 = parse_file(rem2)->0;
                            assert(items_view(old_items) + (seq![item@] + t2) =~= items_view(
                                items@,
                            ) + t2);
                        }
                    }
                    pos = next;
                },
            }
        }
    }
    proof {
        assert(chars@.subrange(n as int, n as int) =~= Seq::<char>::empty());
        assert(items_view(items@) + Seq::<ItemView>::empty() =~= items_view(items@));
    }
    Ok(items)
}

} // verus!
