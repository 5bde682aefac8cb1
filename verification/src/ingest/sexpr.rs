//! Minimal OCaml `sexp_of_t` text parser.
//!
//! The format is OCaml `ppx_sexp_conv`:
//!
//!   * Lists are `(a b c)`, atoms are bare tokens or `"quoted"` strings.
//!   * Records are lists of `(field value)` pairs.
//!   * Sum types render as `(Tag value)` (non-nullary) or bare `Tag`.
//!   * Optionals are `()` for None or `(value)` for Some.
//!
//! Quoted-atom escapes: `\\`, `\"`, `\n`, `\t`, `\r`, `\b` and `\NNN`
//! (three-digit decimal byte). Errors carry the byte offset at which the
//! reader stopped.
//!
//! The grammar is stated once as spec functions over the input bytes
//! (`parse_text`, `parse_one_at`, `list_items_from`, `quoted_from`,
//! `bare_atom`); the executable reader is proved to compute exactly them.
use vstd::prelude::*;
use vstd::utf8::*;
use vstd::string::*;
use crate::text::{debug_char, debug_str, decimal, decimal_text, join, join3, str_debug, text};

verus! {

broadcast use vstd::utf8::group_utf8_lib;

/// `(`
pub const LPAREN: u8 = 40;

/// `)`
pub const RPAREN: u8 = 41;

/// `"`
pub const DQUOTE: u8 = 34;

/// `\`
pub const BACKSLASH: u8 = 92;

// ---------------------------------------------------------------------------
// The abstract syntax and the grammar
// ---------------------------------------------------------------------------

/// The mathematical value of an S-expression: atoms are character strings.
pub enum SexpView {
    Atom(Seq<char>),
    List(Seq<SexpView>),
}

/// Whitespace bytes skipped between S-expressions: space, tab, LF, CR.
pub open spec fn is_ws(c: u8) -> bool {
    c == 32 || c == 9 || c == 10 || c == 13
}

/// Bytes that end a bare atom: whitespace, parentheses and the double quote.
pub open spec fn is_bare_stop(c: u8) -> bool {
    is_ws(c) || c == LPAREN || c == RPAREN || c == DQUOTE
}

pub open spec fn is_digit(c: u8) -> bool {
    48 <= c <= 57
}

/// The value of the decimal escape `\abc`.
pub open spec fn decimal3(a: u8, b: u8, c: u8) -> int {
    (a - 48) * 100 + (b - 48) * 10 + (c - 48)
}

/// The byte that a one-letter escape `\c` stands for.
pub open spec fn escape_byte(c: u8) -> Option<u8> {
    if c == BACKSLASH {
        Some(BACKSLASH)
    } else if c == DQUOTE {
        Some(DQUOTE)
    } else if c == 110 {
        Some(10u8)
    } else if c == 116 {
        Some(9u8)
    } else if c == 114 {
        Some(13u8)
    } else if c == 98 {
        Some(8u8)
    } else {
        None
    }
}

/// The least position at or after `pos` that does not hold whitespace.
pub open spec fn skip_ws_from(b: Seq<u8>, pos: int) -> int
    decreases b.len() - pos,
{
    if 0 <= pos < b.len() && is_ws(b[pos]) {
        skip_ws_from(b, pos + 1)
    } else {
        pos
    }
}

/// The least position at or after `pos` that holds a byte ending a bare atom.
pub open spec fn bare_end(b: Seq<u8>, pos: int) -> int
    decreases b.len() - pos,
{
    if 0 <= pos < b.len() && !is_bare_stop(b[pos]) {
        bare_end(b, pos + 1)
    } else {
        pos
    }
}

/// The body of a quoted atom, read from `pos` with `acc` the bytes decoded so
/// far: the decoded bytes and the position after the closing quote, or the
/// offset of the error.
pub open spec fn quoted_from(b: Seq<u8>, pos: int, acc: Seq<u8>) -> Result<(Seq<u8>, int), int>
    decreases b.len() - pos,
{
    if pos < 0 || pos >= b.len() {
        Err(pos)
    } else if b[pos] == DQUOTE {
        Ok((acc, pos + 1))
    } else if b[pos] == BACKSLASH {
        let e = pos + 1;
        if e >= b.len() {
            Err(e)
        } else if escape_byte(b[e]) is Some {
            quoted_from(b, e + 1, acc.push(escape_byte(b[e]).unwrap()))
        } else if is_digit(b[e]) {
            if e + 2 >= b.len() {
                Err(e)
            } else if !(is_digit(b[e + 1]) && is_digit(b[e + 2])) {
                Err(e)
            } else if decimal3(b[e], b[e + 1], b[e + 2]) > 255 {
                Err(e)
            } else {
                quoted_from(b, e + 3, acc.push(decimal3(b[e], b[e + 1], b[e + 2]) as u8))
            }
        } else {
            Err(e)
        }
    } else {
        quoted_from(b, pos + 1, acc.push(b[pos]))
    }
}

/// A quoted atom whose opening quote is at `pos`: its characters (the decoded
/// bytes read as UTF-8) and the position after it, or the offset of the error.
pub open spec fn quoted_atom(b: Seq<u8>, pos: int) -> Result<(Seq<char>, int), int> {
    match quoted_from(b, pos + 1, Seq::empty()) {
        Err(e) => Err(e),
        Ok((bytes, q)) => if valid_utf8(bytes) {
            Ok((decode_utf8(bytes), q))
        } else {
            Err(q)
        },
    }
}

/// A bare atom starting at `pos`: the non-empty run of bytes up to the next
/// stop byte, read as UTF-8, and the position after it.
pub open spec fn bare_atom(b: Seq<u8>, pos: int) -> Result<(Seq<char>, int), int> {
    let e = bare_end(b, pos);
    if e == pos {
        Err(pos)
    } else if valid_utf8(b.subrange(pos, e)) {
        Ok((decode_utf8(b.subrange(pos, e)), e))
    } else {
        Err(e)
    }
}

/// One S-expression starting exactly at `pos`: its value and the position
/// after it, or the offset of the error.
pub open spec fn parse_one_at(b: Seq<u8>, pos: int) -> Result<(SexpView, int), int>
    decreases b.len() - pos, 1int,
{
    if pos < 0 || pos >= b.len() {
        Err(pos)
    } else if b[pos] == LPAREN {
        list_items_from(b, pos + 1, Seq::empty())
    } else if b[pos] == RPAREN {
        Err(pos)
    } else if b[pos] == DQUOTE {
        match quoted_atom(b, pos) {
            Ok((a, q)) => Ok((SexpView::Atom(a), q)),
            Err(e) => Err(e),
        }
    } else {
        match bare_atom(b, pos) {
            Ok((a, q)) => Ok((SexpView::Atom(a), q)),
            Err(e) => Err(e),
        }
    }
}

/// The rest of a list whose items so far are `acc`, read from `pos`: the list
/// and the position after its closing parenthesis, or the offset of the error.
pub open spec fn list_items_from(b: Seq<u8>, pos: int, acc: Seq<SexpView>) -> Result<(SexpView, int), int>
    decreases b.len() - pos, 2int,
{
    if pos < 0 || pos > b.len() {
        Err(pos)
    } else {
        let p = skip_ws_from(b, pos);
        proof {
            lemma_skip_ws_bounds(b, pos);
        }
        if p >= b.len() {
            Err(p)
        } else if b[p] == RPAREN {
            Ok((SexpView::List(acc), p + 1))
        } else {
            match parse_one_at(b, p) {
                Err(e) => Err(e),
                Ok((s, q)) => if p < q <= b.len() {
                    list_items_from(b, q, acc.push(s))
                } else {
                    Err(q)
                },
            }
        }
    }
}

/// A whole text: one S-expression, with only whitespace around it.
pub open spec fn parse_text(b: Seq<u8>) -> Result<SexpView, int> {
    match parse_one_at(b, skip_ws_from(b, 0)) {
        Err(e) => Err(e),
        Ok((s, q)) => if skip_ws_from(b, q) == b.len() {
            Ok(s)
        } else {
            Err(skip_ws_from(b, q))
        },
    }
}

// ---------------------------------------------------------------------------
// Lemmas on the grammar
// ---------------------------------------------------------------------------

pub proof fn lemma_skip_ws_bounds(b: Seq<u8>, pos: int)
    requires
        0 <= pos <= b.len(),
    ensures
        pos <= skip_ws_from(b, pos) <= b.len(),
        skip_ws_from(b, pos) < b.len() ==> !is_ws(b[skip_ws_from(b, pos)]),
    decreases b.len() - pos,
{
    if pos < b.len() && is_ws(b[pos]) {
        lemma_skip_ws_bounds(b, pos + 1);
    }
}

pub proof fn lemma_bare_end_bounds(b: Seq<u8>, pos: int)
    requires
        0 <= pos <= b.len(),
    ensures
        pos <= bare_end(b, pos) <= b.len(),
    decreases b.len() - pos,
{
    if pos < b.len() && !is_bare_stop(b[pos]) {
        lemma_bare_end_bounds(b, pos + 1);
    }
}

pub proof fn lemma_quoted_advances(b: Seq<u8>, pos: int, acc: Seq<u8>)
    requires
        0 <= pos,
    ensures
        quoted_from(b, pos, acc) matches Ok((_, q)) ==> pos < q <= b.len(),
    decreases b.len() - pos,
{
    if 0 <= pos < b.len() && b[pos] != DQUOTE {
        if b[pos] == BACKSLASH {
            let e = pos + 1;
            if e < b.len() {
                if escape_byte(b[e]) is Some {
                    lemma_quoted_advances(b, e + 1, acc.push(escape_byte(b[e]).unwrap()));
                } else if is_digit(b[e]) && e + 2 < b.len() {
                    lemma_quoted_advances(b, e + 3, acc.push(decimal3(b[e], b[e + 1], b[e + 2]) as u8));
                }
            }
        } else {
            lemma_quoted_advances(b, pos + 1, acc.push(b[pos]));
        }
    }
}

pub proof fn lemma_list_advances(b: Seq<u8>, pos: int, acc: Seq<SexpView>)
    ensures
        list_items_from(b, pos, acc) matches Ok((_, q)) ==> pos < q <= b.len(),
    decreases b.len() - pos,
{
    if 0 <= pos <= b.len() {
        lemma_skip_ws_bounds(b, pos);
        let p = skip_ws_from(b, pos);
        if p < b.len() && b[p] != RPAREN {
            if let Ok((s, q)) = parse_one_at(b, p) {
                if p < q <= b.len() {
                    lemma_list_advances(b, q, acc.push(s));
                }
            }
        }
    }
}

pub proof fn lemma_parse_one_advances(b: Seq<u8>, pos: int)
    ensures
        parse_one_at(b, pos) matches Ok((_, q)) ==> pos < q <= b.len(),
{
    if 0 <= pos < b.len() {
        if b[pos] == LPAREN {
            lemma_list_advances(b, pos + 1, Seq::empty());
        } else if b[pos] == DQUOTE {
            lemma_quoted_advances(b, pos + 1, Seq::empty());
        } else if b[pos] != RPAREN {
            lemma_bare_end_bounds(b, pos);
        }
    }
}

// ---------------------------------------------------------------------------
// The executable values
// ---------------------------------------------------------------------------

#[derive(Debug, PartialEq, Eq)]
pub enum Sexp {
    Atom(String),
    List(Vec<Sexp>),
}

/// A reader error: the byte offset at which reading stopped and a message.
#[derive(Debug)]
pub struct ParseError {
    pub offset: usize,
    pub message: String,
}

impl ParseError {
    /// The error's text.
    pub fn text(&self) -> (r: String)
        ensures
            r@ == "sexp parse error at offset "@ + decimal_text(self.offset as nat) + ": "@ + self.message@,
    {
        let mut r = text("sexp parse error at offset ");
        r.append(&decimal(self.offset));
        r.append(": ");
        r.append(self.message.as_str());
        r
    }
}

pub open spec fn sexp_view(s: Sexp) -> SexpView
    decreases s,
{
    match s {
        Sexp::Atom(a) => SexpView::Atom(a@),
        Sexp::List(items) => SexpView::List(sexp_seq_view(items@)),
    }
}

pub open spec fn sexp_seq_view(items: Seq<Sexp>) -> Seq<SexpView>
    decreases items,
{
    if items.len() == 0 {
        Seq::empty()
    } else {
        sexp_seq_view(items.drop_last()).push(sexp_view(items.last()))
    }
}

impl View for Sexp {
    type V = SexpView;

    open spec fn view(&self) -> SexpView {
        sexp_view(*self)
    }
}

/// The view of a sequence of S-expressions is taken item by item.
pub proof fn lemma_seq_view_index(items: Seq<Sexp>)
    ensures
        sexp_seq_view(items).len() == items.len(),
        forall|i: int| 0 <= i < items.len() ==> #[trigger] sexp_seq_view(items)[i] == items[i]@,
    decreases items.len(),
{
    if items.len() > 0 {
        lemma_seq_view_index(items.drop_last());
    }
}

proof fn lemma_seq_view_push(items: Seq<Sexp>, s: Sexp)
    ensures
        sexp_seq_view(items.push(s)) == sexp_seq_view(items).push(s@),
{
    assert(items.push(s).drop_last() =~= items);
}

/// How a reader result stands to the grammar's outcome.
pub open spec fn read_matches<T: View>(r: Result<T, ParseError>, g: Result<(T::V, int), int>, end: int) -> bool {
    match (r, g) {
        (Ok(v), Ok((m, q))) => v@ == m && end == q,
        (Err(e), Err(o)) => e.offset == o,
        _ => false,
    }
}

/// `String::from_utf8`: the string whose UTF-8 encoding is `bytes`, or the
/// rendered decoding error when `bytes` is not valid UTF-8.
#[verifier::external_body]
fn string_from_utf8(bytes: Vec<u8>) -> (r: Result<String, String>)
    ensures
        r is Ok <==> valid_utf8(bytes@),
        r matches Ok(s) ==> s@ == decode_utf8(bytes@),
{
    match String::from_utf8(bytes) {
        Ok(s) => Ok(s),
        Err(e) => Err(e.to_string()),
    }
}

fn err(offset: usize, message: String) -> (r: ParseError)
    ensures
        r.offset == offset,
        r.message == message,
{
    ParseError { offset, message }
}

// ---------------------------------------------------------------------------
// The reader
// ---------------------------------------------------------------------------

/// Parse one S-expression that spans all of `input` but for surrounding
/// whitespace.
pub fn parse(input: &str) -> (r: Result<Sexp, ParseError>)
    ensures
        match (r, parse_text(input.spec_bytes())) {
            (Ok(s), Ok(m)) => s@ == m,
            (Err(e), Err(o)) => e.offset == o,
            _ => false,
        },
{
    let bytes = input.as_bytes();
    let mut pos: usize = 0;
    skip_ws(bytes, &mut pos);
    proof {
        lemma_skip_ws_bounds(bytes@, 0);
    }
    let s = match parse_one(bytes, &mut pos) {
        Ok(s) => s,
        Err(e) => return Err(e),
    };
    proof {
        lemma_parse_one_advances(bytes@, skip_ws_from(bytes@, 0));
    }
    proof {
        lemma_skip_ws_bounds(bytes@, pos as int);
    }
    skip_ws(bytes, &mut pos);
    if pos != bytes.len() {
        let m = join3("trailing bytes (first: ", &debug_char(bytes[pos]), ")");
        return Err(err(pos, m));
    }
    Ok(s)
}

fn is_ws_byte(c: u8) -> (r: bool)
    ensures
        r == is_ws(c),
{
    c == 32 || c == 9 || c == 10 || c == 13
}

fn is_bare_stop_byte(c: u8) -> (r: bool)
    ensures
        r == is_bare_stop(c),
{
    is_ws_byte(c) || c == LPAREN || c == RPAREN || c == DQUOTE
}

fn skip_ws(bytes: &[u8], pos: &mut usize)
    requires
        *old(pos) <= bytes@.len(),
    ensures
        *final(pos) == skip_ws_from(bytes@, *old(pos) as int),
{
    proof {
        lemma_skip_ws_bounds(bytes@, *pos as int);
    }
    while *pos < bytes.len() && is_ws_byte(bytes[*pos])
        invariant
            *pos <= bytes@.len(),
            skip_ws_from(bytes@, *pos as int) == skip_ws_from(bytes@, *old(pos) as int),
        decreases bytes@.len() - *pos,
    {
        *pos += 1;
    }
}

fn parse_one(bytes: &[u8], pos: &mut usize) -> (r: Result<Sexp, ParseError>)
    requires
        *old(pos) <= bytes@.len(),
    ensures
        read_matches(r, parse_one_at(bytes@, *old(pos) as int), *final(pos) as int),
    decreases bytes@.len() - *old(pos), 2int,
{
    if *pos >= bytes.len() {
        return Err(err(*pos, text("unexpected EOF")));
    }
    let c = bytes[*pos];
    if c == LPAREN {
        parse_list(bytes, pos)
    } else if c == RPAREN {
        Err(err(*pos, text("unexpected ')'")))
    } else if c == DQUOTE {
        match parse_quoted(bytes, pos) {
            Ok(a) => Ok(Sexp::Atom(a)),
            Err(e) => Err(e),
        }
    } else {
        match parse_bare(bytes, pos) {
            Ok(a) => Ok(Sexp::Atom(a)),
            Err(e) => Err(e),
        }
    }
}

fn parse_list(bytes: &[u8], pos: &mut usize) -> (r: Result<Sexp, ParseError>)
    requires
        *old(pos) < bytes@.len(),
        bytes@[*old(pos) as int] == LPAREN,
    ensures
        read_matches(r, list_items_from(bytes@, *old(pos) + 1, Seq::empty()), *final(pos) as int),
    decreases bytes@.len() - *old(pos), 1int,
{
    let ghost start = *pos;
    let n = bytes.len();
    *pos += 1;
    let mut items: Vec<Sexp> = Vec::new();
    loop
        invariant
            start == *old(pos),
            start < *pos <= bytes@.len(),
            bytes@.len() - *pos < bytes@.len() - start,
            list_items_from(bytes@, *pos as int, sexp_seq_view(items@)) == list_items_from(
                bytes@,
                start + 1,
                Seq::empty(),
            ),
        decreases bytes@.len() - *pos,
    {
        let ghost before = *pos;
        proof {
            lemma_skip_ws_bounds(bytes@, *pos as int);
        }
        skip_ws(bytes, pos);
        assert(list_items_from(bytes@, before as int, sexp_seq_view(items@)) == if *pos >= bytes@.len() {
            Err(*pos as int)
        } else if bytes@[*pos as int] == RPAREN {
            Ok((SexpView::List(sexp_seq_view(items@)), *pos + 1))
        } else {
            match parse_one_at(bytes@, *pos as int) {
                Err(e) => Err(e),
                Ok((s, q)) => if *pos < q <= bytes@.len() {
                    list_items_from(bytes@, q, sexp_seq_view(items@).push(s))
                } else {
                    Err(q)
                },
            }
        });
        if *pos >= bytes.len() {
            return Err(err(*pos, text("unclosed list")));
        }
        if bytes[*pos] == RPAREN {
            *pos += 1;
            return Ok(Sexp::List(items));
        }
        let ghost p = *pos;
        assert(bytes@.len() - p < bytes@.len() - start);
        match parse_one(bytes, pos) {
            Ok(s) => {
                proof {
                    lemma_parse_one_advances(bytes@, p as int);
                    lemma_seq_view_push(items@, s);
                }
                items.push(s);
            },
            Err(e) => return Err(e),
        }
    }
}

fn parse_quoted(bytes: &[u8], pos: &mut usize) -> (r: Result<String, ParseError>)
    requires
        *old(pos) < bytes@.len(),
        bytes@[*old(pos) as int] == DQUOTE,
    ensures
        read_matches(r, quoted_atom(bytes@, *old(pos) as int), *final(pos) as int),
{
    let ghost start = *pos;
    let n = bytes.len();
    *pos += 1;
    let mut out: Vec<u8> = Vec::new();
    while *pos < bytes.len()
        invariant
            start == *old(pos),
            start < *pos <= bytes@.len(),
            quoted_from(bytes@, *pos as int, out@) == quoted_from(bytes@, start + 1, Seq::empty()),
        decreases bytes@.len() - *pos,
    {
        let c = bytes[*pos];
        let ghost here = *pos as int;
        if c == DQUOTE {
            assert(quoted_from(bytes@, here, out@) == Ok::<(Seq<u8>, int), int>((out@, here + 1)));
            *pos += 1;
            return match string_from_utf8(out) {
                Ok(s) => Ok(s),
                Err(e) => Err(err(*pos, join("quoted atom not UTF-8: ", &e))),
            };
        }
        if c == BACKSLASH {
            *pos += 1;
            if *pos >= bytes.len() {
                assert(quoted_from(bytes@, here, out@) == Err::<(Seq<u8>, int), int>(here + 1));
                return Err(err(*pos, text("trailing backslash in quoted atom")));
            }
            let esc = bytes[*pos];
            if esc == BACKSLASH {
                out.push(BACKSLASH);
            } else if esc == DQUOTE {
                out.push(DQUOTE);
            } else if esc == 110 {
                out.push(10);
            } else if esc == 116 {
                out.push(9);
            } else if esc == 114 {
                out.push(13);
            } else if esc == 98 {
                out.push(8);
            } else if 48 <= esc && esc <= 57 {
                // \NNN three-digit decimal byte
                if bytes.len() - *pos <= 2 {
                    return Err(err(*pos, text("truncated \\NNN escape")));
                }
                let d1 = bytes[*pos + 1];
                let d2 = bytes[*pos + 2];
                if !(48 <= d1 && d1 <= 57 && 48 <= d2 && d2 <= 57) {
                    // the three bytes must be UTF-8 text before they are read as digits
                    let three = vstd::slice::slice_to_vec(&bytes[*pos..*pos + 3]);
                    return match string_from_utf8(three) {
                        Err(e) => Err(err(*pos, join("\\NNN: ", &e))),
                        Ok(_) => Err(err(*pos, text("\\NNN parse: invalid digit found in string"))),
                    };
                }
                let n: usize = (esc - 48) as usize * 100 + (d1 - 48) as usize * 10 + (d2 - 48) as usize;
                if n > 255 {
                    return Err(err(*pos, join("\\NNN out of range: ", &decimal(n))));
                }
                out.push(n as u8);
                *pos += 2;
            } else {
                return Err(err(*pos, join("unknown escape \\", &debug_char(esc))));
            }
            *pos += 1;
        } else {
            out.push(c);
            *pos += 1;
        }
    }
    Err(err(*pos, text("unterminated quoted atom")))
}

fn parse_bare(bytes: &[u8], pos: &mut usize) -> (r: Result<String, ParseError>)
    requires
        *old(pos) <= bytes@.len(),
    ensures
        read_matches(r, bare_atom(bytes@, *old(pos) as int), *final(pos) as int),
{
    let start = *pos;
    proof {
        lemma_bare_end_bounds(bytes@, *pos as int);
    }
    while *pos < bytes.len() && !is_bare_stop_byte(bytes[*pos])
        invariant
            start <= *pos <= bytes@.len(),
            bare_end(bytes@, *pos as int) == bare_end(bytes@, start as int),
        decreases bytes@.len() - *pos,
    {
        *pos += 1;
    }
    if *pos == start {
        return Err(err(*pos, text("empty atom")));
    }
    let raw = vstd::slice::slice_to_vec(&bytes[start..*pos]);
    match string_from_utf8(raw) {
        Ok(s) => Ok(s),
        Err(e) => Err(err(*pos, join("bare atom not UTF-8: ", &e))),
    }
}

// ---------------------------------------------------------------------------
// Navigator helpers
// ---------------------------------------------------------------------------

/// Why a record has no value under a name.
pub enum FieldMiss {
    /// The record, or an entry met before the name, is this atom.
    NotAList(Seq<char>),
    /// No entry is named so.
    NotFound,
    /// The first entry so named has no value.
    ValueMissing,
    /// The first entry so named has this many elements, name included.
    Arity(nat),
}

/// Why looking up `name` from entry `i` on fails, or `None` where it
/// succeeds.
pub open spec fn entries_miss(entries: Seq<SexpView>, name: Seq<char>, i: int) -> Option<FieldMiss>
    decreases entries.len() - i,
{
    if i < 0 || i >= entries.len() {
        Some(FieldMiss::NotFound)
    } else {
        match entries[i] {
            SexpView::Atom(a) => Some(FieldMiss::NotAList(a)),
            SexpView::List(pair) => if pair.len() >= 1 && pair[0] == SexpView::Atom(name) {
                if pair.len() == 2 {
                    None
                } else if pair.len() == 1 {
                    Some(FieldMiss::ValueMissing)
                } else {
                    Some(FieldMiss::Arity(pair.len()))
                }
            } else {
                entries_miss(entries, name, i + 1)
            },
        }
    }
}

/// Why `s` has no value under `name`, or `None` where it has one.
pub open spec fn field_miss(s: SexpView, name: Seq<char>) -> Option<FieldMiss> {
    match s {
        SexpView::Atom(a) => Some(FieldMiss::NotAList(a)),
        SexpView::List(entries) => entries_miss(entries, name, 0),
    }
}

/// The message of a failed lookup.
pub open spec fn field_miss_text(name: Seq<char>, k: FieldMiss) -> Seq<char> {
    match k {
        FieldMiss::NotAList(a) => "field `"@ + name + "`: "@ + "expected list, got atom "@ + str_debug(a),
        FieldMiss::NotFound => "field `"@ + name + "` not found"@,
        FieldMiss::ValueMissing => "field `"@ + name + "`: "@ + "value missing"@,
        FieldMiss::Arity(n) => "field `"@ + name + "`: expected (key value), got "@ + decimal_text(n)
            + " elements"@,
    }
}

/// `m` is the message of a failed lookup.
pub open spec fn field_miss_message(m: Seq<char>, name: Seq<char>, k: FieldMiss) -> bool {
    m == field_miss_text(name, k)
}

/// The value stored under `name` in a record `((k1 v1) (k2 v2) ...)`: the
/// entries are scanned in order; empty entries are passed over, an entry
/// that is not a list stops the search, and the first entry whose head is
/// the atom `name` decides: it must be a pair `(name value)`.
pub open spec fn record_field(s: SexpView, name: Seq<char>) -> Option<SexpView> {
    match s {
        SexpView::Atom(_) => None,
        SexpView::List(entries) => entries_field(entries, name, 0),
    }
}

pub open spec fn entries_field(entries: Seq<SexpView>, name: Seq<char>, i: int) -> Option<SexpView>
    decreases entries.len() - i,
{
    if i < 0 || i >= entries.len() {
        None
    } else {
        match entries[i] {
            SexpView::Atom(_) => None,
            SexpView::List(pair) => if pair.len() >= 1 && pair[0] == SexpView::Atom(name) {
                if pair.len() == 2 {
                    Some(pair[1])
                } else {
                    None
                }
            } else {
                entries_field(entries, name, i + 1)
            },
        }
    }
}

/// Whether two strings hold the same characters.
pub(crate) fn str_eq(a: &str, b: &str) -> (r: bool)
    ensures
        r == (a@ == b@),
{
    let x = a.as_bytes();
    let y = b.as_bytes();
    proof {
        encode_utf8_decode_utf8(a@);
        encode_utf8_decode_utf8(b@);
    }
    if x.len() != y.len() {
        return false;
    }
    let mut i: usize = 0;
    while i < x.len()
        invariant
            x@ == a.spec_bytes(),
            y@ == b.spec_bytes(),
            x@.len() == y@.len(),
            i <= x@.len(),
            forall|j: int| 0 <= j < i ==> x@[j] == y@[j],
        decreases x@.len() - i,
    {
        if x[i] != y[i] {
            assert(x@ != y@);
            return false;
        }
        i += 1;
    }
    assert(x@ =~= y@);
    true
}

impl Sexp {
    pub fn as_atom(&self) -> (r: Result<&str, String>)
        ensures
            match (r, self@) {
                (Ok(a), SexpView::Atom(v)) => a@ == v,
                (Err(m), SexpView::List(_)) => m@ == "expected atom, got list"@,
                _ => false,
            },
    {
        match self {
            Sexp::Atom(s) => Ok(s.as_str()),
            Sexp::List(_) => Err(text("expected atom, got list")),
        }
    }

    pub fn as_list(&self) -> (r: Result<&[Sexp], String>)
        ensures
            match (r, self@) {
                (Ok(items), SexpView::List(v)) => sexp_seq_view(items@) == v,
                (Err(m), SexpView::Atom(a)) => m@ == "expected list, got atom "@ + str_debug(a),
                _ => false,
            },
    {
        match self {
            Sexp::List(items) => Ok(items.as_slice()),
            Sexp::Atom(a) => {
                Err(join("expected list, got atom ", &debug_str(a.as_str())))
            },
        }
    }

    /// Treat this S-expression as a record `((k1 v1)(k2 v2)...)` and find the
    /// value for `name`.
    pub fn field(&self, name: &str) -> (r: Result<&Sexp, String>)
        ensures
            match r {
                Ok(v) => record_field(self@, name@) == Some(v@) && field_miss(self@, name@) is None,
                Err(m) => record_field(self@, name@) is None && (field_miss(self@, name@) matches Some(k)
                    && field_miss_message(m@, name@, k)),
            },
    {
        let items = match self.as_list() {
            Ok(items) => items,
            Err(e) => {
                let m = field_message(name, &e);
                assert(m@ =~= field_miss_text(name@, field_miss(self@, name@).unwrap()));
                return Err(m);
            },
        };
        let ghost entries = sexp_seq_view(items@);
        proof {
            lemma_seq_view_index(items@);
        }
        let mut i: usize = 0;
        while i < items.len()
            invariant
                entries == sexp_seq_view(items@),
                entries.len() == items@.len(),
                forall|j: int| 0 <= j < items@.len() ==> #[trigger] entries[j] == items@[j]@,
                i <= items@.len(),
                entries_field(entries, name@, i as int) == record_field(self@, name@),
                entries_miss(entries, name@, i as int) == field_miss(self@, name@),
            decreases items@.len() - i,
        {
            let entry = &items[i];
            let pair = match entry.as_list() {
                Ok(pair) => pair,
                Err(e) => {
                    let m = field_message(name, &e);
                    assert(m@ =~= field_miss_text(name@, field_miss(self@, name@).unwrap()));
                    return Err(m);
                },
            };
            proof {
                lemma_seq_view_index(pair@);
            }
            if pair.len() >= 1 {
                if let Ok(k) = pair[0].as_atom() {
                    if str_eq(k, name) {
                        if pair.len() == 1 {
                            let m = field_message(name, "value missing");
                            assert(m@ =~= field_miss_text(name@, FieldMiss::ValueMissing));
                            return Err(m);
                        }
                        if pair.len() == 2 {
                            return Ok(&pair[1]);
                        }
                        let mut m = join3("field `", name, "`: expected (key value), got ");
                        m.append(&decimal(pair.len()));
                        m.append(" elements");
                        assert(m@ =~= field_miss_text(name@, FieldMiss::Arity(pair@.len())));
                        return Err(m);
                    }
                }
            }
            i += 1;
        }
        let m = join3("field `", name, "` not found");
        assert(m@ =~= field_miss_text(name@, FieldMiss::NotFound));
        Err(m)
    }
}

/// "field `name`: detail"
fn field_message(name: &str, detail: &str) -> (r: String)
    ensures
        r@ == "field `"@ + name@ + "`: "@ + detail@,
{
    let mut m = join3("field `", name, "`: ");
    m.append(detail);
    m
}

// ---------------------------------------------------------------------------
// Laws
// ---------------------------------------------------------------------------

proof fn lemma_quoted_error_in_text(b: Seq<u8>, pos: int, acc: Seq<u8>)
    requires
        0 <= pos <= b.len(),
    ensures
        quoted_from(b, pos, acc) matches Err(e) ==> pos <= e <= b.len(),
    decreases b.len() - pos,
{
    if pos < b.len() && b[pos] != DQUOTE {
        if b[pos] == BACKSLASH {
            let e = pos + 1;
            if e < b.len() {
                if escape_byte(b[e]) is Some {
                    lemma_quoted_error_in_text(b, e + 1, acc.push(escape_byte(b[e]).unwrap()));
                } else if is_digit(b[e]) && e + 2 < b.len() {
                    lemma_quoted_error_in_text(b, e + 3, acc.push(decimal3(b[e], b[e + 1], b[e + 2]) as u8));
                }
            }
        } else {
            lemma_quoted_error_in_text(b, pos + 1, acc.push(b[pos]));
        }
    }
}

proof fn lemma_one_error_in_text(b: Seq<u8>, pos: int)
    requires
        0 <= pos <= b.len(),
    ensures
        parse_one_at(b, pos) matches Err(e) ==> pos <= e <= b.len(),
    decreases b.len() - pos, 1int,
{
    if pos < b.len() {
        if b[pos] == LPAREN {
            lemma_list_error_in_text(b, pos + 1, Seq::empty());
        } else if b[pos] == DQUOTE {
            lemma_quoted_error_in_text(b, pos + 1, Seq::empty());
            lemma_quoted_advances(b, pos + 1, Seq::empty());
        } else if b[pos] != RPAREN {
            lemma_bare_end_bounds(b, pos);
        }
    }
}

proof fn lemma_list_error_in_text(b: Seq<u8>, pos: int, acc: Seq<SexpView>)
    requires
        0 <= pos <= b.len(),
    ensures
        list_items_from(b, pos, acc) matches Err(e) ==> pos <= e <= b.len(),
    decreases b.len() - pos, 2int,
{
    lemma_skip_ws_bounds(b, pos);
    let p = skip_ws_from(b, pos);
    if p < b.len() && b[p] != RPAREN {
        lemma_one_error_in_text(b, p);
        lemma_parse_one_advances(b, p);
        if let Ok((s, q)) = parse_one_at(b, p) {
            lemma_list_error_in_text(b, q, acc.push(s));
        }
    }
}

/// An error's offset lies within the text read: reading stops at a byte of
/// the text, or at its end.
pub proof fn lemma_error_offset_in_text(b: Seq<u8>)
    ensures
        parse_text(b) matches Err(e) ==> 0 <= e <= b.len(),
{
    lemma_skip_ws_bounds(b, 0);
    let p = skip_ws_from(b, 0);
    lemma_one_error_in_text(b, p);
    lemma_parse_one_advances(b, p);
    if let Ok((_, q)) = parse_one_at(b, p) {
        lemma_skip_ws_bounds(b, q);
    }
}


/// The body of a quoted atom holding the bytes `t`: every backslash and
/// double quote preceded by a backslash, every other byte as it is.
pub open spec fn escape_quoted(t: Seq<u8>) -> Seq<u8>
    decreases t.len(),
{
    if t.len() == 0 {
        Seq::empty()
    } else {
        (if t[0] == BACKSLASH || t[0] == DQUOTE {
            seq![BACKSLASH, t[0]]
        } else {
            seq![t[0]]
        }) + escape_quoted(t.drop_first())
    }
}

/// An escaped body followed by the closing quote reads back its bytes.
proof fn lemma_quoted_escaped(b: Seq<u8>, pos: int, acc: Seq<u8>, t: Seq<u8>)
    requires
        0 <= pos,
        pos + escape_quoted(t).len() < b.len(),
        b.subrange(pos, pos + escape_quoted(t).len()) == escape_quoted(t),
        b[pos + escape_quoted(t).len()] == DQUOTE,
    ensures
        quoted_from(b, pos, acc) == Ok::<(Seq<u8>, int), int>((acc + t, pos + escape_quoted(t).len() + 1)),
    decreases t.len(),
{
    let e = escape_quoted(t);
    if t.len() == 0 {
        assert(acc + t =~= acc);
    } else {
        let rest = t.drop_first();
        let er = escape_quoted(rest);
        let head: Seq<u8> = if t[0] == BACKSLASH || t[0] == DQUOTE {
            seq![BACKSLASH, t[0]]
        } else {
            seq![t[0]]
        };
        assert(e == head + er);
        let l = head.len() as int;
        assert(b[pos] == e[0]);
        assert(b.subrange(pos + l, pos + l + er.len()) =~= e.subrange(l, e.len() as int));
        assert(e.subrange(l, e.len() as int) =~= er);
        assert((acc.push(t[0])) + rest =~= acc + t);
        if l == 2 {
            assert(b[pos + 1] == e[1]);
            lemma_quoted_escaped(b, pos + 2, acc.push(t[0]), rest);
        } else {
            lemma_quoted_escaped(b, pos + 1, acc.push(t[0]), rest);
        }
    }
}

/// A quoted atom, its backslashes and double quotes escaped, reads back as
/// its string whatever bytes follow it, and the reading ends just after its
/// closing quote.
pub proof fn lemma_quoted_atom_roundtrip(a: Seq<char>, rest: Seq<u8>)
    ensures
        quoted_atom(seq![DQUOTE] + escape_quoted(encode_utf8(a)) + seq![DQUOTE] + rest, 0) == Ok::<
            (Seq<char>, int),
            int,
        >((a, escape_quoted(encode_utf8(a)).len() + 2int)),
{
    let t = encode_utf8(a);
    let e = escape_quoted(t);
    let b = seq![DQUOTE] + e + seq![DQUOTE] + rest;
    assert(b.subrange(1, 1 + e.len() as int) =~= e);
    assert(b[1 + e.len() as int] == DQUOTE);
    lemma_quoted_escaped(b, 1, Seq::empty(), t);
    assert(Seq::<u8>::empty() + t =~= t);
    encode_utf8_valid_utf8(a);
    encode_utf8_decode_utf8(a);
}

/// Any string written as a quoted atom, its backslashes and double quotes
/// escaped, reads back as that string.
pub proof fn lemma_quoted_roundtrip(a: Seq<char>)
    ensures
        parse_text(seq![DQUOTE] + escape_quoted(encode_utf8(a)) + seq![DQUOTE]) == Ok::<SexpView, int>(
            SexpView::Atom(a),
        ),
{
    let t = encode_utf8(a);
    let e = escape_quoted(t);
    let b = seq![DQUOTE] + e + seq![DQUOTE];
    assert(b.subrange(1, 1 + e.len() as int) =~= e);
    assert(b[1 + e.len() as int] == DQUOTE);
    lemma_quoted_escaped(b, 1, Seq::empty(), t);
    assert(Seq::<u8>::empty() + t =~= t);
    encode_utf8_valid_utf8(a);
    encode_utf8_decode_utf8(a);
    assert(skip_ws_from(b, 0) == 0);
    assert(skip_ws_from(b, b.len() as int) == b.len());
}


/// Every byte of `w` is whitespace.
pub open spec fn all_ws(w: Seq<u8>) -> bool {
    forall|i: int| 0 <= i < w.len() ==> is_ws(#[trigger] w[i])
}

/// A reading's positions moved on by `k`.
pub open spec fn shifted<T>(r: Result<(T, int), int>, k: int) -> Result<(T, int), int> {
    match r {
        Ok((v, q)) => Ok((v, q + k)),
        Err(e) => Err(e + k),
    }
}

proof fn lemma_shift_skip(w: Seq<u8>, s: Seq<u8>, p: int)
    requires
        0 <= p <= s.len(),
    ensures
        skip_ws_from(w + s, w.len() + p) == w.len() + skip_ws_from(s, p),
    decreases s.len() - p,
{
    if p < s.len() {
        assert((w + s)[w.len() + p] == s[p]);
        if is_ws(s[p]) {
            lemma_shift_skip(w, s, p + 1);
        }
    }
}

proof fn lemma_skip_through_ws(w: Seq<u8>, s: Seq<u8>, i: int)
    requires
        all_ws(w),
        0 <= i <= w.len(),
    ensures
        skip_ws_from(w + s, i) == skip_ws_from(w + s, w.len() as int),
    decreases w.len() - i,
{
    if i < w.len() {
        assert((w + s)[i] == w[i]);
        lemma_skip_through_ws(w, s, i + 1);
    }
}

proof fn lemma_shift_bare_end(w: Seq<u8>, s: Seq<u8>, p: int)
    requires
        0 <= p <= s.len(),
    ensures
        bare_end(w + s, w.len() + p) == w.len() + bare_end(s, p),
    decreases s.len() - p,
{
    if p < s.len() {
        assert((w + s)[w.len() + p] == s[p]);
        if !is_bare_stop(s[p]) {
            lemma_shift_bare_end(w, s, p + 1);
        }
    }
}

proof fn lemma_shift_quoted(w: Seq<u8>, s: Seq<u8>, p: int, acc: Seq<u8>)
    requires
        0 <= p,
    ensures
        quoted_from(w + s, w.len() + p, acc) == shifted(quoted_from(s, p, acc), w.len() as int),
    decreases s.len() - p,
{
    let b = w + s;
    let k = w.len() as int;
    if p < s.len() {
        assert(b[k + p] == s[p]);
        if s[p] == BACKSLASH {
            let e = p + 1;
            if e < s.len() {
                assert(b[k + e] == s[e]);
                if escape_byte(s[e]) is Some {
                    lemma_shift_quoted(w, s, e + 1, acc.push(escape_byte(s[e]).unwrap()));
                } else if is_digit(s[e]) && e + 2 < s.len() {
                    assert(b[k + e + 1] == s[e + 1]);
                    assert(b[k + e + 2] == s[e + 2]);
                    lemma_shift_quoted(w, s, e + 3, acc.push(decimal3(s[e], s[e + 1], s[e + 2]) as u8));
                }
            }
        } else if s[p] != DQUOTE {
            lemma_shift_quoted(w, s, p + 1, acc.push(s[p]));
        }
    }
}

proof fn lemma_shift_one(w: Seq<u8>, s: Seq<u8>, p: int)
    requires
        0 <= p,
    ensures
        parse_one_at(w + s, w.len() + p) == shifted(parse_one_at(s, p), w.len() as int),
    decreases s.len() - p, 1int,
{
    let b = w + s;
    let k = w.len() as int;
    if p < s.len() {
        assert(b[k + p] == s[p]);
        if s[p] == LPAREN {
            lemma_shift_list(w, s, p + 1, Seq::empty());
        } else if s[p] == DQUOTE {
            lemma_shift_quoted(w, s, p + 1, Seq::empty());
        } else if s[p] != RPAREN {
            lemma_shift_bare_end(w, s, p);
            lemma_bare_end_bounds(s, p);
            let e = bare_end(s, p);
            assert(b.subrange(k + p, k + e) =~= s.subrange(p, e));
        }
    }
}

proof fn lemma_shift_list(w: Seq<u8>, s: Seq<u8>, p: int, acc: Seq<SexpView>)
    requires
        0 <= p,
    ensures
        list_items_from(w + s, w.len() + p, acc) == shifted(list_items_from(s, p, acc), w.len() as int),
    decreases s.len() - p, 2int,
{
    let b = w + s;
    let k = w.len() as int;
    if p <= s.len() {
        lemma_shift_skip(w, s, p);
        lemma_skip_ws_bounds(s, p);
        let q0 = skip_ws_from(s, p);
        if q0 < s.len() {
            assert(b[k + q0] == s[q0]);
            if s[q0] != RPAREN {
                lemma_shift_one(w, s, q0);
                lemma_parse_one_advances(s, q0);
                if let Ok((v, q)) = parse_one_at(s, q0) {
                    lemma_shift_list(w, s, q, acc.push(v));
                }
            }
        }
    }
}

proof fn lemma_extend_skip(s: Seq<u8>, w: Seq<u8>, p: int)
    requires
        all_ws(w),
        0 <= p <= s.len(),
    ensures
        skip_ws_from(s + w, p) == if skip_ws_from(s, p) < s.len() {
            skip_ws_from(s, p)
        } else {
            (s.len() + w.len()) as int
        },
    decreases s.len() + w.len() - p,
{
    lemma_skip_ws_bounds(s, p);
    if p < s.len() {
        assert((s + w)[p] == s[p]);
        if is_ws(s[p]) {
            lemma_extend_skip(s, w, p + 1);
        }
    } else {
        lemma_skip_through_tail(s, w, 0);
    }
}

proof fn lemma_skip_through_tail(s: Seq<u8>, w: Seq<u8>, j: int)
    requires
        all_ws(w),
        0 <= j <= w.len(),
    ensures
        skip_ws_from(s + w, s.len() + j) == s.len() + w.len(),
    decreases w.len() - j,
{
    if j < w.len() {
        assert((s + w)[s.len() + j] == w[j]);
        lemma_skip_through_tail(s, w, j + 1);
    }
}

proof fn lemma_extend_bare_end(s: Seq<u8>, w: Seq<u8>, p: int)
    requires
        all_ws(w),
        0 <= p <= s.len(),
    ensures
        bare_end(s + w, p) == bare_end(s, p),
    decreases s.len() - p,
{
    if p < s.len() {
        assert((s + w)[p] == s[p]);
        if !is_bare_stop(s[p]) {
            lemma_extend_bare_end(s, w, p + 1);
        }
    } else if w.len() > 0 {
        assert((s + w)[p] == w[0]);
    }
}

proof fn lemma_extend_quoted(s: Seq<u8>, w: Seq<u8>, p: int, acc: Seq<u8>)
    requires
        0 <= p,
        quoted_from(s, p, acc) is Ok,
    ensures
        quoted_from(s + w, p, acc) == quoted_from(s, p, acc),
    decreases s.len() - p,
{
    let b = s + w;
    assert(p < s.len());
    assert(b[p] == s[p]);
    if s[p] == BACKSLASH {
        let e = p + 1;
        assert(b[e] == s[e]);
        if escape_byte(s[e]) is Some {
            lemma_extend_quoted(s, w, e + 1, acc.push(escape_byte(s[e]).unwrap()));
        } else {
            assert(b[e + 1] == s[e + 1]);
            assert(b[e + 2] == s[e + 2]);
            lemma_extend_quoted(s, w, e + 3, acc.push(decimal3(s[e], s[e + 1], s[e + 2]) as u8));
        }
    } else if s[p] != DQUOTE {
        lemma_extend_quoted(s, w, p + 1, acc.push(s[p]));
    }
}

proof fn lemma_extend_one(s: Seq<u8>, w: Seq<u8>, p: int)
    requires
        all_ws(w),
        0 <= p,
        parse_one_at(s, p) is Ok,
    ensures
        parse_one_at(s + w, p) == parse_one_at(s, p),
    decreases s.len() - p, 1int,
{
    let b = s + w;
    assert(p < s.len());
    assert(b[p] == s[p]);
    if s[p] == LPAREN {
        lemma_extend_list(s, w, p + 1, Seq::empty());
    } else if s[p] == DQUOTE {
        lemma_extend_quoted(s, w, p + 1, Seq::empty());
    } else {
        lemma_extend_bare_end(s, w, p);
        lemma_bare_end_bounds(s, p);
        let e = bare_end(s, p);
        assert(b.subrange(p, e) =~= s.subrange(p, e));
    }
}

proof fn lemma_extend_list(s: Seq<u8>, w: Seq<u8>, p: int, acc: Seq<SexpView>)
    requires
        all_ws(w),
        0 <= p,
        list_items_from(s, p, acc) is Ok,
    ensures
        list_items_from(s + w, p, acc) == list_items_from(s, p, acc),
    decreases s.len() - p, 2int,
{
    let b = s + w;
    assert(p <= s.len());
    lemma_extend_skip(s, w, p);
    lemma_skip_ws_bounds(s, p);
    let q0 = skip_ws_from(s, p);
    assert(q0 < s.len());
    assert(b[q0] == s[q0]);
    if s[q0] != RPAREN {
        lemma_extend_one(s, w, q0);
        lemma_parse_one_advances(s, q0);
        if let Ok((v, q)) = parse_one_at(s, q0) {
            lemma_extend_list(s, w, q, acc.push(v));
        }
    }
}

/// Whitespace around a text moves its error offsets, and changes nothing
/// else: leading whitespace moves every offset by its length, and a text
/// that reads keeps its value when whitespace follows it.
pub proof fn lemma_whitespace_around(w1: Seq<u8>, s: Seq<u8>, w2: Seq<u8>)
    requires
        all_ws(w1),
        all_ws(w2),
    ensures
        parse_text(w1 + s) == match parse_text(s) {
            Ok(v) => Ok::<SexpView, int>(v),
            Err(e) => Err(e + w1.len()),
        },
        parse_text(s) is Ok ==> parse_text(w1 + s + w2) == parse_text(s),
{
    let k = w1.len() as int;
    let b = w1 + s;
    // leading whitespace
    lemma_skip_through_ws(w1, s, 0);
    lemma_shift_skip(w1, s, 0);
    lemma_skip_ws_bounds(s, 0);
    let p = skip_ws_from(s, 0);
    lemma_shift_one(w1, s, p);
    lemma_parse_one_advances(s, p);
    if let Ok((v, q)) = parse_one_at(s, p) {
        lemma_shift_skip(w1, s, q);
    }
    // trailing whitespace, on a text that reads
    if parse_text(s) is Ok {
        let t = w1 + s;
        assert(parse_text(t) == parse_text(s));
        lemma_skip_ws_bounds(t, 0);
        let pt = skip_ws_from(t, 0);
        lemma_extend_skip(t, w2, 0);
        lemma_parse_one_advances(t, pt);
        lemma_extend_one(t, w2, pt);
        if let Ok((v, q)) = parse_one_at(t, pt) {
            lemma_extend_skip(t, w2, q);
        }
    }
}


/// A tree written out: an atom as its UTF-8 bytes, a list as its items
/// between parentheses, separated by single spaces.
pub open spec fn render(v: SexpView) -> Seq<u8>
    decreases v,
{
    match v {
        SexpView::Atom(a) => encode_utf8(a),
        SexpView::List(xs) => seq![LPAREN] + render_items(xs) + seq![RPAREN],
    }
}

/// Items written out, separated by single spaces.
pub open spec fn render_items(xs: Seq<SexpView>) -> Seq<u8>
    decreases xs,
{
    if xs.len() == 0 {
        Seq::empty()
    } else {
        render(xs[0]) + render_tail(xs.drop_first())
    }
}

/// Items written out, each preceded by a space.
pub open spec fn render_tail(ys: Seq<SexpView>) -> Seq<u8>
    decreases ys,
{
    if ys.len() == 0 {
        Seq::empty()
    } else {
        seq![32u8] + render(ys[0]) + render_tail(ys.drop_first())
    }
}

/// A tree that writes out as a bare-atom text: every atom non-empty, and
/// no byte of its UTF-8 encoding one that ends a bare atom (whitespace,
/// parentheses, the double quote).
pub open spec fn renderable(v: SexpView) -> bool
    decreases v,
{
    match v {
        SexpView::Atom(a) => encode_utf8(a).len() > 0 && forall|i: int|
            0 <= i < encode_utf8(a).len() ==> !is_bare_stop(#[trigger] encode_utf8(a)[i]),
        SexpView::List(xs) => renderable_items(xs),
    }
}

pub open spec fn renderable_items(xs: Seq<SexpView>) -> bool
    decreases xs,
{
    xs.len() == 0 || (renderable(xs[0]) && renderable_items(xs.drop_first()))
}

proof fn lemma_render_first(v: SexpView)
    requires
        renderable(v),
    ensures
        render(v).len() > 0,
        !is_ws(render(v)[0]),
        render(v)[0] != RPAREN,
{
}

proof fn lemma_bare_run(b: Seq<u8>, p: int, e: int)
    requires
        0 <= p <= e <= b.len(),
        forall|j: int| p <= j < e ==> !is_bare_stop(#[trigger] b[j]),
        e == b.len() || is_bare_stop(b[e]),
    ensures
        bare_end(b, p) == e,
    decreases e - p,
{
    if p < e {
        lemma_bare_run(b, p + 1, e);
    }
}

proof fn lemma_render_one(v: SexpView, b: Seq<u8>, p: int)
    requires
        renderable(v),
        0 <= p,
        p + render(v).len() <= b.len(),
        b.subrange(p, p + render(v).len()) == render(v),
        v is Atom ==> (p + render(v).len() == b.len() || is_bare_stop(b[p + render(v).len()])),
    ensures
        parse_one_at(b, p) == Ok::<(SexpView, int), int>((v, p + render(v).len())),
    decreases v,
{
    let r = render(v);
    let l = r.len() as int;
    assert(b[p] == r[0]);
    match v {
        SexpView::Atom(a) => {
            assert forall|j: int| p <= j < p + l implies !is_bare_stop(#[trigger] b[j]) by {
                assert(b[j] == r[j - p]);
            }
            lemma_bare_run(b, p, p + l);
            assert(b.subrange(p, p + l) == encode_utf8(a));
            encode_utf8_valid_utf8(a);
            encode_utf8_decode_utf8(a);
        },
        SexpView::List(xs) => {
            let ri = render_items(xs);
            assert(r == seq![LPAREN] + ri + seq![RPAREN]);
            assert(b.subrange(p + 1, p + 1 + ri.len()) =~= ri) by {
                assert(b.subrange(p + 1, p + 1 + ri.len()) =~= r.subrange(1, 1 + ri.len() as int));
            }
            assert(b[p + 1 + ri.len()] == r[1 + ri.len() as int]);
            lemma_render_items(xs, b, p + 1, Seq::empty());
            assert(Seq::<SexpView>::empty() + xs =~= xs);
        },
    }
}

proof fn lemma_render_items(xs: Seq<SexpView>, b: Seq<u8>, p: int, acc: Seq<SexpView>)
    requires
        renderable_items(xs),
        0 <= p,
        p + render_items(xs).len() < b.len(),
        b.subrange(p, p + render_items(xs).len()) == render_items(xs),
        b[p + render_items(xs).len()] == RPAREN,
    ensures
        list_items_from(b, p, acc) == Ok::<(SexpView, int), int>(
            (SexpView::List(acc + xs), p + render_items(xs).len() + 1),
        ),
    decreases xs,
{
    if xs.len() == 0 {
        assert(acc + xs =~= acc);
    } else {
        let x = xs[0];
        let rest = xs.drop_first();
        let rx = render(x);
        let rt = render_tail(rest);
        let l = rx.len() as int;
        assert(render_items(xs) == rx + rt);
        lemma_render_first(x);
        assert(b[p] == b.subrange(p, p + render_items(xs).len())[0]);
        assert((rx + rt)[0] == rx[0]);
        assert(b[p] == rx[0]);
        assert(skip_ws_from(b, p) == p);
        assert(b.subrange(p, p + l) =~= rx) by {
            assert(b.subrange(p, p + l) =~= render_items(xs).subrange(0, l));
        }
        assert(b.subrange(p + l, p + l + rt.len()) =~= rt) by {
            assert(b.subrange(p + l, p + l + rt.len()) =~= render_items(xs).subrange(l, l + rt.len()));
        }
        if rest.len() == 0 {
            assert(b[p + l] == RPAREN);
        } else {
            assert(rt[0] == 32u8);
            assert(b[p + l] == rt[0]);
        }
        lemma_render_one(x, b, p);
        lemma_render_tail(rest, b, p + l, acc.push(x));
        assert(acc.push(x) + rest =~= acc + xs);
    }
}

proof fn lemma_render_tail(ys: Seq<SexpView>, b: Seq<u8>, p: int, acc: Seq<SexpView>)
    requires
        renderable_items(ys),
        0 <= p,
        p + render_tail(ys).len() < b.len(),
        b.subrange(p, p + render_tail(ys).len()) == render_tail(ys),
        b[p + render_tail(ys).len()] == RPAREN,
    ensures
        list_items_from(b, p, acc) == Ok::<(SexpView, int), int>(
            (SexpView::List(acc + ys), p + render_tail(ys).len() + 1),
        ),
    decreases ys,
{
    if ys.len() == 0 {
        assert(acc + ys =~= acc);
        assert(skip_ws_from(b, p) == p);
    } else {
        let y = ys[0];
        let rest = ys.drop_first();
        let ry = render(y);
        let rt = render_tail(rest);
        let l = ry.len() as int;
        let t = render_tail(ys);
        assert(t == seq![32u8] + ry + rt);
        lemma_render_first(y);
        assert(b[p] == t[0]);
        assert(b[p + 1] == t[1]);
        assert(skip_ws_from(b, p + 1) == p + 1);
        assert(skip_ws_from(b, p) == p + 1);
        assert(b.subrange(p + 1, p + 1 + l) =~= ry) by {
            assert(b.subrange(p + 1, p + 1 + l) =~= t.subrange(1, 1 + l));
        }
        assert(b.subrange(p + 1 + l, p + 1 + l + rt.len()) =~= rt) by {
            assert(b.subrange(p + 1 + l, p + 1 + l + rt.len()) =~= t.subrange(1 + l, 1 + l + rt.len()));
        }
        if rest.len() == 0 {
            assert(b[p + 1 + l] == RPAREN);
        } else {
            assert(rt[0] == 32u8);
            assert(b[p + 1 + l] == rt[0]);
        }
        lemma_render_one(y, b, p + 1);
        lemma_render_tail(rest, b, p + 1 + l, acc.push(y));
        assert(acc.push(y) + rest =~= acc + ys);
    }
}

/// Items written out one directly after another, with nothing between
/// them.
pub open spec fn render_packed(xs: Seq<SexpView>) -> Seq<u8>
    decreases xs.len(),
{
    if xs.len() == 0 {
        Seq::empty()
    } else {
        render(xs[0]) + render_packed(xs.drop_first())
    }
}

/// No two neighbouring items are both atoms.
pub open spec fn no_adjacent_atoms(xs: Seq<SexpView>) -> bool {
    forall|i: int| 0 <= i < xs.len() - 1 ==> !((#[trigger] xs[i]) is Atom && xs[i + 1] is Atom)
}

proof fn lemma_render_packed(xs: Seq<SexpView>, b: Seq<u8>, p: int, acc: Seq<SexpView>)
    requires
        renderable_items(xs),
        no_adjacent_atoms(xs),
        0 <= p,
        p + render_packed(xs).len() < b.len(),
        b.subrange(p, p + render_packed(xs).len()) == render_packed(xs),
        b[p + render_packed(xs).len()] == RPAREN,
    ensures
        list_items_from(b, p, acc) == Ok::<(SexpView, int), int>(
            (SexpView::List(acc + xs), p + render_packed(xs).len() + 1),
        ),
    decreases xs.len(),
{
    if xs.len() == 0 {
        assert(acc + xs =~= acc);
        assert(skip_ws_from(b, p) == p);
    } else {
        let x = xs[0];
        let rest = xs.drop_first();
        let rx = render(x);
        let rt = render_packed(rest);
        let l = rx.len() as int;
        assert(render_packed(xs) == rx + rt);
        lemma_render_first(x);
        assert(b[p] == b.subrange(p, p + render_packed(xs).len())[0]);
        assert((rx + rt)[0] == rx[0]);
        assert(skip_ws_from(b, p) == p);
        assert(b.subrange(p, p + l) =~= rx) by {
            assert(b.subrange(p, p + l) =~= render_packed(xs).subrange(0, l));
        }
        assert(b.subrange(p + l, p + l + rt.len()) =~= rt) by {
            assert(b.subrange(p + l, p + l + rt.len()) =~= render_packed(xs).subrange(l, l + rt.len()));
        }
        assert(no_adjacent_atoms(rest)) by {
            assert forall|i: int| 0 <= i < rest.len() - 1 implies !((#[trigger] rest[i]) is Atom && rest[i + 1] is Atom) by {
                assert(rest[i] == xs[i + 1] && rest[i + 1] == xs[i + 2]);
                assert(!(xs[i + 1] is Atom && xs[i + 2] is Atom));
            }
        }
        if rest.len() == 0 {
            assert(b[p + l] == RPAREN);
        } else {
            let r0 = render(rest[0]);
            assert(renderable_items(rest));
            assert(renderable(rest[0]));
            lemma_render_first(rest[0]);
            assert(rt == r0 + render_packed(rest.drop_first()));
            assert(b[p + l] == rt[0]);
            assert(rt[0] == r0[0]);
            if x is Atom {
                assert(rest[0] == xs[1]);
                assert(!(xs[0] is Atom && xs[1] is Atom));
                assert(r0[0] == LPAREN);
            }
        }
        lemma_render_one(x, b, p);
        lemma_render_packed(rest, b, p + l, acc.push(x));
        assert(acc.push(x) + rest =~= acc + xs);
    }
}

/// A list whose items are written one directly after another, with nothing
/// between them, reads back as that list, where no two neighbouring items
/// are bare atoms (which would run together) and every atom can be written
/// bare.
pub proof fn lemma_packed_list_roundtrip(xs: Seq<SexpView>)
    requires
        renderable_items(xs),
        no_adjacent_atoms(xs),
    ensures
        parse_text(seq![LPAREN] + render_packed(xs) + seq![RPAREN]) == Ok::<SexpView, int>(SexpView::List(xs)),
{
    let r = render_packed(xs);
    let b = seq![LPAREN] + r + seq![RPAREN];
    assert(skip_ws_from(b, 0) == 0);
    assert(b.subrange(1, 1 + r.len() as int) =~= r);
    assert(b[1 + r.len() as int] == RPAREN);
    lemma_render_packed(xs, b, 1, Seq::empty());
    assert(Seq::<SexpView>::empty() + xs =~= xs);
    assert(skip_ws_from(b, b.len() as int) == b.len());
}

/// A tree written with every atom quoted, its backslashes and double quotes
/// escaped, and nothing at all between the items of a list.
pub open spec fn render_quoted(v: SexpView) -> Seq<u8>
    decreases v,
{
    match v {
        SexpView::Atom(a) => seq![DQUOTE] + escape_quoted(encode_utf8(a)) + seq![DQUOTE],
        SexpView::List(xs) => seq![LPAREN] + render_quoted_items(xs) + seq![RPAREN],
    }
}

/// Items written quoted, one directly after another.
pub open spec fn render_quoted_items(xs: Seq<SexpView>) -> Seq<u8>
    decreases xs,
{
    if xs.len() == 0 {
        Seq::empty()
    } else {
        render_quoted(xs[0]) + render_quoted_items(xs.drop_first())
    }
}

proof fn lemma_quoted_one(v: SexpView, b: Seq<u8>, p: int)
    requires
        0 <= p,
        p + render_quoted(v).len() <= b.len(),
        b.subrange(p, p + render_quoted(v).len()) == render_quoted(v),
    ensures
        parse_one_at(b, p) == Ok::<(SexpView, int), int>((v, p + render_quoted(v).len())),
    decreases v,
{
    let r = render_quoted(v);
    let l = r.len() as int;
    assert(b[p] == r[0]);
    match v {
        SexpView::Atom(a) => {
            let t = encode_utf8(a);
            let e = escape_quoted(t);
            assert(b.subrange(p + 1, p + 1 + e.len()) =~= e) by {
                assert(b.subrange(p + 1, p + 1 + e.len()) =~= r.subrange(1, 1 + e.len() as int));
            }
            assert(b[p + 1 + e.len()] == r[1 + e.len() as int]);
            lemma_quoted_escaped(b, p + 1, Seq::empty(), t);
            assert(Seq::<u8>::empty() + t =~= t);
            encode_utf8_valid_utf8(a);
            encode_utf8_decode_utf8(a);
        },
        SexpView::List(xs) => {
            let ri = render_quoted_items(xs);
            assert(b.subrange(p + 1, p + 1 + ri.len()) =~= ri) by {
                assert(b.subrange(p + 1, p + 1 + ri.len()) =~= r.subrange(1, 1 + ri.len() as int));
            }
            assert(b[p + 1 + ri.len()] == r[1 + ri.len() as int]);
            lemma_quoted_items(xs, b, p + 1, Seq::empty());
            assert(Seq::<SexpView>::empty() + xs =~= xs);
        },
    }
}

proof fn lemma_quoted_items(xs: Seq<SexpView>, b: Seq<u8>, p: int, acc: Seq<SexpView>)
    requires
        0 <= p,
        p + render_quoted_items(xs).len() < b.len(),
        b.subrange(p, p + render_quoted_items(xs).len()) == render_quoted_items(xs),
        b[p + render_quoted_items(xs).len()] == RPAREN,
    ensures
        list_items_from(b, p, acc) == Ok::<(SexpView, int), int>(
            (SexpView::List(acc + xs), p + render_quoted_items(xs).len() + 1),
        ),
    decreases xs,
{
    if xs.len() == 0 {
        assert(acc + xs =~= acc);
        assert(skip_ws_from(b, p) == p);
    } else {
        let x = xs[0];
        let rest = xs.drop_first();
        let rx = render_quoted(x);
        let rt = render_quoted_items(rest);
        let l = rx.len() as int;
        assert(render_quoted_items(xs) == rx + rt);
        assert(b[p] == b.subrange(p, p + render_quoted_items(xs).len())[0]);
        assert((rx + rt)[0] == rx[0]);
        assert(rx[0] == DQUOTE || rx[0] == LPAREN);
        assert(skip_ws_from(b, p) == p);
        assert(b.subrange(p, p + l) =~= rx) by {
            assert(b.subrange(p, p + l) =~= render_quoted_items(xs).subrange(0, l));
        }
        assert(b.subrange(p + l, p + l + rt.len()) =~= rt) by {
            assert(b.subrange(p + l, p + l + rt.len()) =~= render_quoted_items(xs).subrange(l, l + rt.len()));
        }
        lemma_quoted_one(x, b, p);
        lemma_quoted_items(rest, b, p + l, acc.push(x));
        assert(acc.push(x) + rest =~= acc + xs);
    }
}

/// Any tree written with every atom quoted and nothing between the items
/// of a list reads back as that tree: an item may be followed directly by
/// the next, whether that opens a list or a quoted atom.
pub proof fn lemma_quoted_render_roundtrip(v: SexpView)
    ensures
        parse_text(render_quoted(v)) == Ok::<SexpView, int>(v),
{
    let b = render_quoted(v);
    assert(b[0] == DQUOTE || b[0] == LPAREN);
    assert(skip_ws_from(b, 0) == 0);
    assert(b.subrange(0, b.len() as int) =~= b);
    lemma_quoted_one(v, b, 0);
    assert(skip_ws_from(b, b.len() as int) == b.len());
}

/// A tree written out reads back as that tree, where every atom is
/// non-empty and holds no byte that ends a bare atom.
pub proof fn lemma_render_roundtrip(v: SexpView)
    requires
        renderable(v),
    ensures
        parse_text(render(v)) == Ok::<SexpView, int>(v),
{
    let b = render(v);
    lemma_render_first(v);
    assert(skip_ws_from(b, 0) == 0);
    assert(b.subrange(0, b.len() as int) =~= b);
    lemma_render_one(v, b, 0);
    assert(skip_ws_from(b, b.len() as int) == b.len());
}

} // verus!
