//! Secret-reference templates: finding `op://` references, expanding shell
//! style variables and substituting resolved secret values.
//!
//! Five patterns make up the template grammar. Each is given as a predicate
//! `find_at(pat, s, p)` saying whether, and how, the pattern matches text `s`
//! starting at position `p`. A scan tries positions from left to right and,
//! after a match, resumes at its end: the leftmost-first, non-overlapping
//! search of a regular-expression engine.
//!
//! - `UnenclosedRef`: `op://` followed by one or more of
//!   `A-Z a-z 0-9 - ? _ . /` or white space other than a line break, not
//!   preceded by a letter, digit,
//!   `-`, `+`, `\` or `.`.
//! - `EnclosedRef`: `{{`, optional white space, `op://`, one or more
//!   characters other than `}`, then `}}`.
//! - `VarWithDefault`: `${`, optional white space, an identifier, optional
//!   white space, `:-`, a default up to the first `}` on the same line.
//! - `EnclosedVar`: `${`, optional white space, an identifier, optional white
//!   space, `}`.
//! - `UnenclosedVar`: `$` and an identifier.
use vstd::prelude::*;

use crate::text::{
    chars_eq, chars_of, chars_seq_view, extend_chars, is_whitespace, is_ws, string_of,
    strings_of, strings_view, subvec, trim, trimmed_subvec, unique_chars,
};

verus! {

/// A lookup table of text keys to text values; the first entry with a key wins.
pub open spec fn lookup(table: Seq<(Seq<char>, Seq<char>)>, key: Seq<char>) -> Option<Seq<char>>
    decreases table.len(),
{
    if table.len() == 0 {
        None
    } else if table[0].0 == key {
        Some(table[0].1)
    } else {
        lookup(table.drop_first(), key)
    }
}

/// The character view of a table of string pairs.
pub open spec fn table_view(t: Seq<(String, String)>) -> Seq<(Seq<char>, Seq<char>)> {
    t.map_values(|e: (String, String)| (e.0@, e.1@))
}

pub open spec fn is_alpha(c: char) -> bool {
    ('A' <= c && c <= 'Z') || ('a' <= c && c <= 'z')
}

pub open spec fn is_digit(c: char) -> bool {
    '0' <= c && c <= '9'
}

/// First character of a variable name: `[A-Za-z_]`.
pub open spec fn is_ident_start(c: char) -> bool {
    is_alpha(c) || c == '_'
}

/// Later characters of a variable name: `[A-Za-z0-9_]`.
pub open spec fn is_ident_char(c: char) -> bool {
    is_alpha(c) || is_digit(c) || c == '_'
}

/// Characters of an unenclosed reference after `op://`: `[A-Za-z0-9\-?_./]`
/// and white space other than a line break, so that a reference ends with
/// its line.
pub open spec fn is_ref_char(c: char) -> bool {
    is_alpha(c) || is_digit(c) || c == '-' || c == '?' || c == '_' || c == '.' || c == '/'
        || (is_ws(c) && c != '\n' && c != '\r')
}

/// Characters that may not directly precede an unenclosed reference:
/// `[A-Za-z0-9\-+\\.]`.
pub open spec fn blocks_ref(c: char) -> bool {
    is_alpha(c) || is_digit(c) || c == '-' || c == '+' || c == '\\' || c == '.'
}

/// The character classes that the patterns repeat.
#[derive(Clone, Copy, PartialEq, Eq, Debug)]
pub enum CharClass {
    Ws,
    Ident,
    RefBody,
    NotBrace,
    DefaultBody,
}

pub open spec fn in_class(k: CharClass, c: char) -> bool {
    match k {
        CharClass::Ws => is_ws(c),
        CharClass::Ident => is_ident_char(c),
        CharClass::RefBody => is_ref_char(c),
        CharClass::NotBrace => c != '}',
        CharClass::DefaultBody => c != '}' && c != '\n',
    }
}

/// The end of the longest run of class-`k` characters starting at `p`.
pub open spec fn span_end(s: Seq<char>, p: int, k: CharClass) -> int
    decreases s.len() - p,
{
    if 0 <= p < s.len() && in_class(k, s[p]) {
        span_end(s, p + 1, k)
    } else {
        p
    }
}

/// Whether `lit` occurs in `s` at position `p`.
pub open spec fn lit_at(s: Seq<char>, p: int, lit: Seq<char>) -> bool {
    0 <= p && p + lit.len() <= s.len() && s.subrange(p, p + lit.len()) == lit
}

pub open spec fn op_scheme() -> Seq<char> {
    seq!['o', 'p', ':', '/', '/']
}

/// The five patterns of the template grammar.
#[derive(Clone, Copy, PartialEq, Eq, Debug)]
pub enum Pattern {
    UnenclosedRef,
    EnclosedRef,
    VarWithDefault,
    EnclosedVar,
    UnenclosedVar,
}

/// Where a match ends and where its captured parts lie. `cap` is the
/// reference or variable name; `alt` is the default of `VarWithDefault`.
pub struct SpecFound {
    pub end: int,
    pub cap_start: int,
    pub cap_end: int,
    pub alt_start: int,
    pub alt_end: int,
}

pub open spec fn found(end: int, cs: int, ce: int, a_s: int, a_e: int) -> Option<SpecFound> {
    Some(SpecFound { end: end, cap_start: cs, cap_end: ce, alt_start: a_s, alt_end: a_e })
}

/// Whether, and how, pattern `pat` matches `s` at position `p`.
pub open spec fn find_at(pat: Pattern, s: Seq<char>, p: int) -> Option<SpecFound> {
    match pat {
        Pattern::UnenclosedRef => {
            if (p == 0 || (0 < p <= s.len() && !blocks_ref(s[p - 1]))) && lit_at(s, p, op_scheme())
                && p + 5 < s.len() && is_ref_char(s[p + 5]) {
                let e = span_end(s, p + 5, CharClass::RefBody);
                found(e, p, e, p, p)
            } else {
                None
            }
        },
        Pattern::EnclosedRef => {
            if lit_at(s, p, seq!['{', '{']) {
                let q = span_end(s, p + 2, CharClass::Ws);
                let r = span_end(s, q + 5, CharClass::NotBrace);
                if lit_at(s, q, op_scheme()) && r > q + 5 && r + 1 < s.len() && s[r + 1] == '}' {
                    found(r + 2, q, r, p, p)
                } else {
                    None
                }
            } else {
                None
            }
        },
        Pattern::VarWithDefault => {
            if lit_at(s, p, seq!['$', '{']) {
                let q = span_end(s, p + 2, CharClass::Ws);
                let n = span_end(s, q + 1, CharClass::Ident);
                let w = span_end(s, n, CharClass::Ws);
                let d = span_end(s, w + 2, CharClass::DefaultBody);
                if q < s.len() && is_ident_start(s[q]) && lit_at(s, w, seq![':', '-']) && d < s.len()
                    && s[d] == '}' {
                    found(d + 1, q, n, w + 2, d)
                } else {
                    None
                }
            } else {
                None
            }
        },
        Pattern::EnclosedVar => {
            if lit_at(s, p, seq!['$', '{']) {
                let q = span_end(s, p + 2, CharClass::Ws);
                let n = span_end(s, q + 1, CharClass::Ident);
                let w = span_end(s, n, CharClass::Ws);
                if q < s.len() && is_ident_start(s[q]) && w < s.len() && s[w] == '}' {
                    found(w + 1, q, n, p, p)
                } else {
                    None
                }
            } else {
                None
            }
        },
        Pattern::UnenclosedVar => {
            if 0 <= p && p + 1 < s.len() && s[p] == '$' && is_ident_start(s[p + 1]) {
                let n = span_end(s, p + 2, CharClass::Ident);
                found(n, p + 1, n, p, p)
            } else {
                None
            }
        },
    }
}

/// A match at `p` that a scan accepts (it makes progress and stays in range).
pub open spec fn accepted(pat: Pattern, s: Seq<char>, p: int) -> bool {
    match find_at(pat, s, p) {
        Some(f) => p < f.end <= s.len() && p <= f.cap_start <= f.cap_end <= f.end && p <= f.alt_start
            <= f.alt_end <= f.end,
        None => false,
    }
}

/// A run of class characters never ends before it starts, nor after the text.
pub proof fn lemma_span_end_bounds(s: Seq<char>, p: int, k: CharClass)
    requires
        0 <= p,
    ensures
        p <= span_end(s, p, k),
        p <= s.len() ==> span_end(s, p, k) <= s.len(),
    decreases s.len() - p,
{
    if 0 <= p < s.len() && in_class(k, s[p]) {
        lemma_span_end_bounds(s, p + 1, k);
    }
}

/// Every match that a pattern finds is one that a scan accepts: it is not
/// empty, ends inside the text, and its parts lie inside it in order.
pub proof fn lemma_found_is_accepted(pat: Pattern, s: Seq<char>, p: int)
    requires
        0 <= p < s.len(),
        find_at(pat, s, p) is Some,
    ensures
        accepted(pat, s, p),
{
    lemma_span_end_bounds(s, p + 5, CharClass::RefBody);
    lemma_span_end_bounds(s, p + 2, CharClass::Ws);
    lemma_span_end_bounds(s, p + 2, CharClass::Ident);
    let q = span_end(s, p + 2, CharClass::Ws);
    if q >= 0 {
        lemma_span_end_bounds(s, q + 5, CharClass::NotBrace);
        lemma_span_end_bounds(s, q + 1, CharClass::Ident);
        let n = span_end(s, q + 1, CharClass::Ident);
        lemma_span_end_bounds(s, n, CharClass::Ws);
        let w = span_end(s, n, CharClass::Ws);
        lemma_span_end_bounds(s, w + 2, CharClass::DefaultBody);
    }
}

/// The text that replaces a match: the looked-up value, or a fallback.
pub open spec fn replacement(
    pat: Pattern,
    s: Seq<char>,
    p: int,
    f: SpecFound,
    table: Seq<(Seq<char>, Seq<char>)>,
) -> Seq<char> {
    let cap = s.subrange(f.cap_start, f.cap_end);
    match pat {
        Pattern::VarWithDefault => match lookup(table, cap) {
            Some(v) => v,
            None => s.subrange(f.alt_start, f.alt_end),
        },
        Pattern::EnclosedVar => match lookup(table, cap) {
            Some(v) => v,
            None => seq!['$', '{'] + cap + seq!['}'],
        },
        Pattern::UnenclosedVar => match lookup(table, cap) {
            Some(v) => v,
            None => seq!['$'] + cap,
        },
        _ => match lookup(table, trim(cap)) {
            Some(v) => v,
            None => s.subrange(p, f.end),
        },
    }
}

/// `s[p..]` with every match of `pat` replaced (leftmost first, no overlaps).
pub open spec fn replace_from(
    pat: Pattern,
    s: Seq<char>,
    p: int,
    table: Seq<(Seq<char>, Seq<char>)>,
) -> Seq<char>
    decreases s.len() - p,
{
    if p < 0 || p >= s.len() {
        Seq::empty()
    } else if accepted(pat, s, p) {
        let f = find_at(pat, s, p).unwrap();
        replacement(pat, s, p, f, table) + replace_from(pat, s, f.end, table)
    } else {
        seq![s[p]] + replace_from(pat, s, p + 1, table)
    }
}

/// `s` with every match of `pat` replaced.
pub open spec fn replace_all(pat: Pattern, s: Seq<char>, table: Seq<(Seq<char>, Seq<char>)>) -> Seq<
    char,
> {
    replace_from(pat, s, 0, table)
}

/// The trimmed captures of the matches of `pat` in `s[p..]`, in order.
pub open spec fn captures_from(pat: Pattern, s: Seq<char>, p: int) -> Seq<Seq<char>>
    decreases s.len() - p,
{
    if p < 0 || p >= s.len() {
        Seq::empty()
    } else if accepted(pat, s, p) {
        let f = find_at(pat, s, p).unwrap();
        seq![trim(s.subrange(f.cap_start, f.cap_end))] + captures_from(pat, s, f.end)
    } else {
        captures_from(pat, s, p + 1)
    }
}

/// The references that a template names: the trimmed references of both
/// syntaxes.
pub open spec fn references_in(s: Seq<char>) -> Set<Seq<char>> {
    captures_from(Pattern::UnenclosedRef, s, 0).to_set() + captures_from(
        Pattern::EnclosedRef,
        s,
        0,
    ).to_set()
}

/// Variable expansion: defaults first, then `${NAME}`, then `$NAME`.
pub open spec fn resolved(s: Seq<char>, env: Seq<(Seq<char>, Seq<char>)>) -> Seq<char> {
    replace_all(
        Pattern::UnenclosedVar,
        replace_all(Pattern::EnclosedVar, replace_all(Pattern::VarWithDefault, s, env), env),
        env,
    )
}

/// Reference substitution: enclosed references first, then unenclosed ones.
pub open spec fn substituted(s: Seq<char>, values: Seq<(Seq<char>, Seq<char>)>) -> Seq<char> {
    replace_all(
        Pattern::UnenclosedRef,
        replace_all(Pattern::EnclosedRef, s, values),
        values,
    )
}


/// A match found by the executable scanner; see [`SpecFound`].
pub struct Found {
    pub end: usize,
    pub cap_start: usize,
    pub cap_end: usize,
    pub alt_start: usize,
    pub alt_end: usize,
}

pub open spec fn same_found(r: Option<Found>, f: Option<SpecFound>) -> bool {
    match (r, f) {
        (None, None) => true,
        (Some(a), Some(b)) => a.end == b.end && a.cap_start == b.cap_start && a.cap_end == b.cap_end
            && a.alt_start == b.alt_start && a.alt_end == b.alt_end,
        _ => false,
    }
}

/// Character view of a lookup table held as character vectors.
pub open spec fn chars_table_view(t: Seq<(Vec<char>, Vec<char>)>) -> Seq<(Seq<char>, Seq<char>)> {
    t.map_values(|e: (Vec<char>, Vec<char>)| (e.0@, e.1@))
}

fn in_class_exec(k: CharClass, c: char) -> (r: bool)
    ensures
        r == in_class(k, c),
{
    match k {
        CharClass::Ws => is_whitespace(c),
        CharClass::Ident => ('A' <= c && c <= 'Z') || ('a' <= c && c <= 'z') || ('0' <= c && c
            <= '9') || c == '_',
        CharClass::RefBody => ('A' <= c && c <= 'Z') || ('a' <= c && c <= 'z') || ('0' <= c && c
            <= '9') || c == '-' || c == '?' || c == '_' || c == '.' || c == '/' || (is_whitespace(c) && c
            != '\n' && c != '\r'),
        CharClass::NotBrace => c != '}',
        CharClass::DefaultBody => c != '}' && c != '\n',
    }
}

fn is_ident_start_exec(c: char) -> (r: bool)
    ensures
        r == is_ident_start(c),
{
    ('A' <= c && c <= 'Z') || ('a' <= c && c <= 'z') || c == '_'
}

fn blocks_ref_exec(c: char) -> (r: bool)
    ensures
        r == blocks_ref(c),
{
    ('A' <= c && c <= 'Z') || ('a' <= c && c <= 'z') || ('0' <= c && c <= '9') || c == '-' || c
        == '+' || c == '\\' || c == '.'
}

fn span_end_exec(s: &Vec<char>, p: usize, k: CharClass) -> (e: usize)
    requires
        p <= s.len(),
    ensures
        e as int == span_end(s@, p as int, k),
        p <= e <= s.len(),
{
    let mut i = p;
    while i < s.len() && in_class_exec(k, s[i])
        invariant
            p <= i <= s.len(),
            span_end(s@, p as int, k) == span_end(s@, i as int, k),
        decreases s.len() - i,
    {
        i = i + 1;
    }
    i
}

fn two_at(s: &Vec<char>, p: usize, a: char, b: char) -> (r: bool)
    ensures
        r == lit_at(s@, p as int, seq![a, b]),
{
    if p < s.len() && s.len() - p >= 2 && s[p] == a && s[p + 1] == b {
        proof {
            assert(s@.subrange(p as int, p + 2) =~= seq![a, b]);
        }
        true
    } else {
        proof {
            if p + 2 <= s.len() {
                let t = s@.subrange(p as int, p + 2);
                if t == seq![a, b] {
                    assert(t[0] == a && t[1] == b);
                }
            }
        }
        false
    }
}

fn op_scheme_at(s: &Vec<char>, p: usize) -> (r: bool)
    ensures
        r == lit_at(s@, p as int, op_scheme()),
{
    if p < s.len() && s.len() - p >= 5 && s[p] == 'o' && s[p + 1] == 'p' && s[p + 2] == ':' && s[p
        + 3] == '/' && s[p + 4] == '/' {
        proof {
            assert(s@.subrange(p as int, p + 5) =~= op_scheme());
        }
        true
    } else {
        proof {
            if p + 5 <= s.len() {
                let t = s@.subrange(p as int, p + 5);
                if t == op_scheme() {
                    assert(t[0] == 'o' && t[1] == 'p' && t[2] == ':' && t[3] == '/' && t[4] == '/');
                }
            }
        }
        false
    }
}

fn some_found(end: usize, cs: usize, ce: usize, a_s: usize, a_e: usize) -> (r: Option<Found>)
    ensures
        same_found(r, found(end as int, cs as int, ce as int, a_s as int, a_e as int)),
{
    Some(Found { end, cap_start: cs, cap_end: ce, alt_start: a_s, alt_end: a_e })
}

/// Executable form of [`find_at`].
pub fn find_at_exec(pat: Pattern, s: &Vec<char>, p: usize) -> (r: Option<Found>)
    requires
        p <= s.len(),
    ensures
        same_found(r, find_at(pat, s@, p as int)),
{
    match pat {
        Pattern::UnenclosedRef => {
            if (p == 0 || !blocks_ref_exec(s[p - 1])) && op_scheme_at(s, p) && s.len() - p > 5
                && in_class_exec(CharClass::RefBody, s[p + 5]) {
                let e = span_end_exec(s, p + 5, CharClass::RefBody);
                some_found(e, p, e, p, p)
            } else {
                None
            }
        },
        Pattern::EnclosedRef => {
            if !two_at(s, p, '{', '{') {
                return None;
            }
            let q = span_end_exec(s, p + 2, CharClass::Ws);
            if !op_scheme_at(s, q) {
                return None;
            }
            let r = span_end_exec(s, q + 5, CharClass::NotBrace);
            if r > q + 5 && s.len() - r > 1 && s[r + 1] == '}' {
                some_found(r + 2, q, r, p, p)
            } else {
                None
            }
        },
        Pattern::VarWithDefault => {
            if !two_at(s, p, '$', '{') {
                return None;
            }
            let q = span_end_exec(s, p + 2, CharClass::Ws);
            if q >= s.len() || !is_ident_start_exec(s[q]) {
                return None;
            }
            let n = span_end_exec(s, q + 1, CharClass::Ident);
            let w = span_end_exec(s, n, CharClass::Ws);
            if !two_at(s, w, ':', '-') {
                return None;
            }
            let d = span_end_exec(s, w + 2, CharClass::DefaultBody);
            if d < s.len() && s[d] == '}' {
                some_found(d + 1, q, n, w + 2, d)
            } else {
                None
            }
        },
        Pattern::EnclosedVar => {
            if !two_at(s, p, '$', '{') {
                return None;
            }
            let q = span_end_exec(s, p + 2, CharClass::Ws);
            if q >= s.len() || !is_ident_start_exec(s[q]) {
                return None;
            }
            let n = span_end_exec(s, q + 1, CharClass::Ident);
            let w = span_end_exec(s, n, CharClass::Ws);
            if w < s.len() && s[w] == '}' {
                some_found(w + 1, q, n, p, p)
            } else {
                None
            }
        },
        Pattern::UnenclosedVar => {
            if s.len() - p > 1 && s[p] == '$' && is_ident_start_exec(s[p + 1]) {
                let n = span_end_exec(s, p + 2, CharClass::Ident);
                some_found(n, p + 1, n, p, p)
            } else {
                None
            }
        },
    }
}

/// Executable form of [`lookup`].
pub fn lookup_exec(table: &Vec<(Vec<char>, Vec<char>)>, key: &Vec<char>) -> (r: Option<Vec<char>>)
    ensures
        match (r, lookup(chars_table_view(table@), key@)) {
            (Some(a), Some(b)) => a@ == b,
            (None, None) => true,
            _ => false,
        },
{
    let ghost t = chars_table_view(table@);
    let mut i: usize = 0;
    proof {
        assert(t.skip(0) =~= t);
    }
    while i < table.len()
        invariant
            i <= table.len(),
            t == chars_table_view(table@),
            lookup(t, key@) == lookup(t.skip(i as int), key@),
        decreases table.len() - i,
    {
        proof {
            assert(t.skip(i as int).drop_first() =~= t.skip(i + 1));
            assert(t.skip(i as int)[0] == (table@[i as int].0@, table@[i as int].1@));
        }
        if chars_eq(&table[i].0, key) {
            return Some(crate::text::copy_vec(&table[i].1));
        }
        i = i + 1;
    }
    proof {
        assert(t.skip(i as int).len() == 0);
    }
    None
}

fn replacement_exec(
    pat: Pattern,
    s: &Vec<char>,
    p: usize,
    f: &Found,
    table: &Vec<(Vec<char>, Vec<char>)>,
) -> (r: Vec<char>)
    requires
        p <= f.cap_start <= f.cap_end <= f.end <= s.len(),
        p <= f.alt_start <= f.alt_end <= f.end,
    ensures
        r@ == replacement(
            pat,
            s@,
            p as int,
            SpecFound {
                end: f.end as int,
                cap_start: f.cap_start as int,
                cap_end: f.cap_end as int,
                alt_start: f.alt_start as int,
                alt_end: f.alt_end as int,
            },
            chars_table_view(table@),
        ),
{
    let cap = subvec(s, f.cap_start, f.cap_end);
    match pat {
        Pattern::VarWithDefault => match lookup_exec(table, &cap) {
            Some(v) => v,
            None => subvec(s, f.alt_start, f.alt_end),
        },
        Pattern::EnclosedVar => match lookup_exec(table, &cap) {
            Some(v) => v,
            None => {
                let mut r: Vec<char> = Vec::new();
                r.push('$');
                r.push('{');
                extend_chars(&mut r, &cap);
                r.push('}');
                proof {
                    assert(r@ =~= seq!['$', '{'] + cap@ + seq!['}']);
                }
                r
            },
        },
        Pattern::UnenclosedVar => match lookup_exec(table, &cap) {
            Some(v) => v,
            None => {
                let mut r: Vec<char> = Vec::new();
                r.push('$');
                extend_chars(&mut r, &cap);
                proof {
                    assert(r@ =~= seq!['$'] + cap@);
                }
                r
            },
        },
        _ => {
            let key = trimmed_subvec(s, f.cap_start, f.cap_end);
            match lookup_exec(table, &key) {
                Some(v) => v,
                None => subvec(s, p, f.end),
            }
        },
    }
}

/// Whether a found match is one that the scan accepts (see [`accepted`]).
fn accept_exec(s: &Vec<char>, p: usize, f: &Found) -> (r: bool)
    ensures
        r == (p < f.end <= s.len() && p <= f.cap_start <= f.cap_end <= f.end && p <= f.alt_start
            <= f.alt_end <= f.end),
{
    p < f.end && f.end <= s.len() && p <= f.cap_start && f.cap_start <= f.cap_end && f.cap_end
        <= f.end && p <= f.alt_start && f.alt_start <= f.alt_end && f.alt_end <= f.end
}

/// Executable form of [`replace_all`].
pub fn replace_pattern(pat: Pattern, s: &Vec<char>, table: &Vec<(Vec<char>, Vec<char>)>) -> (r: Vec<
    char,
>)
    ensures
        r@ == replace_all(pat, s@, chars_table_view(table@)),
{
    let ghost t = chars_table_view(table@);
    let mut out: Vec<char> = Vec::new();
    let mut p: usize = 0;
    while p < s.len()
        invariant
            p <= s.len(),
            t == chars_table_view(table@),
            out@ + replace_from(pat, s@, p as int, t) == replace_all(pat, s@, t),
        decreases s.len() - p,
    {
        let fo = find_at_exec(pat, s, p);
        match fo {
            Some(f) => {
                if accept_exec(s, p, &f) {
                    let rep = replacement_exec(pat, s, p, &f, table);
                    let ghost before = out@;
                    extend_chars(&mut out, &rep);
                    proof {
                        assert(accepted(pat, s@, p as int));
                        assert(before + replace_from(pat, s@, p as int, t) =~= out@ + replace_from(
                            pat,
                            s@,
                            f.end as int,
                            t,
                        ));
                    }
                    p = f.end;
                    continue;
                }
            },
            None => {},
        }
        let ghost before = out@;
        out.push(s[p]);
        proof {
            assert(!accepted(pat, s@, p as int));
            assert(before + replace_from(pat, s@, p as int, t) =~= out@ + replace_from(
                pat,
                s@,
                p + 1,
                t,
            ));
        }
        p = p + 1;
    }
    proof {
        assert(out@ + replace_from(pat, s@, p as int, t) =~= out@);
    }
    out
}

/// Executable form of [`captures_from`] from the start of `s`.
pub fn captures(pat: Pattern, s: &Vec<char>) -> (r: Vec<Vec<char>>)
    ensures
        r@.map_values(|v: Vec<char>| v@) == captures_from(pat, s@, 0),
{
    let mut out: Vec<Vec<char>> = Vec::new();
    let mut p: usize = 0;
    while p < s.len()
        invariant
            p <= s.len(),
            out@.map_values(|v: Vec<char>| v@) + captures_from(pat, s@, p as int) == captures_from(
                pat,
                s@,
                0,
            ),
        decreases s.len() - p,
    {
        let fo = find_at_exec(pat, s, p);
        match fo {
            Some(f) => {
                if accept_exec(s, p, &f) {
                    let cap = trimmed_subvec(s, f.cap_start, f.cap_end);
                    let ghost before = out@.map_values(|v: Vec<char>| v@);
                    out.push(cap);
                    proof {
                        assert(accepted(pat, s@, p as int));
                        assert(out@.map_values(|v: Vec<char>| v@) =~= before.push(cap@));
                        assert(before + captures_from(pat, s@, p as int) =~= out@.map_values(
                            |v: Vec<char>| v@,
                        ) + captures_from(pat, s@, f.end as int));
                    }
                    p = f.end;
                    continue;
                }
            },
            None => {},
        }
        proof {
            assert(!accepted(pat, s@, p as int));
        }
        p = p + 1;
    }
    proof {
        assert(out@.map_values(|v: Vec<char>| v@) + captures_from(pat, s@, p as int) =~= out@.map_values(
            |v: Vec<char>| v@,
        ));
    }
    out
}


/// Where a pattern has no match, replacing leaves the text as it is.
pub proof fn lemma_replace_without_matches(
    pat: Pattern,
    s: Seq<char>,
    p: int,
    table: Seq<(Seq<char>, Seq<char>)>,
)
    requires
        0 <= p <= s.len(),
        captures_from(pat, s, p).len() == 0,
    ensures
        replace_from(pat, s, p, table) == s.skip(p),
    decreases s.len() - p,
{
    if p >= s.len() {
        assert(s.skip(p).len() == 0);
    } else {
        assert(!accepted(pat, s, p));
        lemma_replace_without_matches(pat, s, p + 1, table);
        assert(seq![s[p]] + s.skip(p + 1) =~= s.skip(p));
    }
}

/// Replacing references with no value known leaves the text as it is.
pub proof fn lemma_replace_refs_unknown(pat: Pattern, s: Seq<char>, p: int)
    requires
        0 <= p <= s.len(),
        pat == Pattern::EnclosedRef || pat == Pattern::UnenclosedRef,
    ensures
        replace_from(pat, s, p, Seq::empty()) == s.skip(p),
    decreases s.len() - p,
{
    if p >= s.len() {
        assert(s.skip(p).len() == 0);
    } else if accepted(pat, s, p) {
        let f = find_at(pat, s, p).unwrap();
        lemma_replace_refs_unknown(pat, s, f.end);
        assert(s.subrange(p, f.end) + s.skip(f.end) =~= s.skip(p));
    } else {
        lemma_replace_refs_unknown(pat, s, p + 1);
        assert(seq![s[p]] + s.skip(p + 1) =~= s.skip(p));
    }
}

/// **Text without references is left alone.** Substituting values into a
/// template that names no secret reference gives the template back,
/// whatever the values.
pub proof fn lemma_substitute_without_references(s: Seq<char>, values: Seq<(Seq<char>, Seq<char>)>)
    requires
        references_in(s) == Set::<Seq<char>>::empty(),
    ensures
        substituted(s, values) == s,
{
    let c1 = captures_from(Pattern::UnenclosedRef, s, 0);
    let c2 = captures_from(Pattern::EnclosedRef, s, 0);
    if c1.len() > 0 {
        assert(c1.to_set().contains(c1[0]));
        assert(references_in(s).contains(c1[0]));
    }
    if c2.len() > 0 {
        assert(c2.to_set().contains(c2[0]));
        assert(references_in(s).contains(c2[0]));
    }
    lemma_replace_without_matches(Pattern::EnclosedRef, s, 0, values);
    assert(s.skip(0) =~= s);
    lemma_replace_without_matches(Pattern::UnenclosedRef, s, 0, values);
}

/// **Unknown references stay.** Substituting with no values known gives the
/// template back unchanged.
pub proof fn lemma_substitute_nothing_known(s: Seq<char>)
    ensures
        substituted(s, Seq::empty()) == s,
{
    lemma_replace_refs_unknown(Pattern::EnclosedRef, s, 0);
    assert(s.skip(0) =~= s);
    lemma_replace_refs_unknown(Pattern::UnenclosedRef, s, 0);
}

/// A variable pattern has no match in text without `$`, so replacing leaves
/// such text as it is.
pub proof fn lemma_replace_vars_without_dollar(
    pat: Pattern,
    s: Seq<char>,
    p: int,
    env: Seq<(Seq<char>, Seq<char>)>,
)
    requires
        pat == Pattern::VarWithDefault || pat == Pattern::EnclosedVar || pat
            == Pattern::UnenclosedVar,
        0 <= p <= s.len(),
        !s.contains('$'),
    ensures
        replace_from(pat, s, p, env) == s.skip(p),
    decreases s.len() - p,
{
    if p >= s.len() {
        assert(s.skip(p).len() == 0);
    } else {
        if lit_at(s, p, seq!['$', '{']) {
            assert(s.subrange(p, p + 2)[0] == s[p]);
            assert(s.contains(s[p]));
        }
        assert(s[p] != '$') by {
            if s[p] == '$' {
                assert(s.contains(s[p]));
            }
        }
        assert(find_at(pat, s, p) is None);
        lemma_replace_vars_without_dollar(pat, s, p + 1, env);
        assert(seq![s[p]] + s.skip(p + 1) =~= s.skip(p));
    }
}

/// **Text without variables is left alone.** Expanding variables in text
/// that holds no `$` gives the text back, whatever the environment.
pub proof fn lemma_resolve_without_variables(s: Seq<char>, env: Seq<(Seq<char>, Seq<char>)>)
    requires
        !s.contains('$'),
    ensures
        resolved(s, env) == s,
{
    lemma_replace_vars_without_dollar(Pattern::VarWithDefault, s, 0, env);
    assert(s.skip(0) =~= s);
    lemma_replace_vars_without_dollar(Pattern::EnclosedVar, s, 0, env);
    lemma_replace_vars_without_dollar(Pattern::UnenclosedVar, s, 0, env);
}

/// The default pattern has no match in text without `:`, so replacing
/// leaves such text as it is.
proof fn lemma_replace_defaults_without_colon(
    s: Seq<char>,
    p: int,
    env: Seq<(Seq<char>, Seq<char>)>,
)
    requires
        0 <= p <= s.len(),
        !s.contains(':'),
    ensures
        replace_from(Pattern::VarWithDefault, s, p, env) == s.skip(p),
    decreases s.len() - p,
{
    if p >= s.len() {
        assert(s.skip(p).len() == 0);
    } else {
        if accepted(Pattern::VarWithDefault, s, p) {
            let q = span_end(s, p + 2, CharClass::Ws);
            let nn = span_end(s, q + 1, CharClass::Ident);
            let w = span_end(s, nn, CharClass::Ws);
            assert(lit_at(s, w, seq![':', '-']));
            assert(s.subrange(w, w + 2)[0] == s[w]);
            assert(s.contains(s[w]));
            assert(false);
        }
        lemma_replace_defaults_without_colon(s, p + 1, env);
        assert(seq![s[p]] + s.skip(p + 1) =~= s.skip(p));
    }
}

/// No white space stands directly inside a pair of braces: none follows a
/// `{` and none precedes a `}`.
pub open spec fn tight_braces(s: Seq<char>) -> bool {
    forall|i: int|
        0 <= i < s.len() - 1 ==> (#[trigger] s[i] == '{' ==> !is_ws(s[i + 1])) && (s[i + 1] == '}'
            ==> !is_ws(s[i]))
}

/// The last character of a non-empty run is of the run's class.
proof fn lemma_span_end_last(s: Seq<char>, p: int, k: CharClass)
    requires
        0 <= p,
        span_end(s, p, k) > p,
    ensures
        0 < span_end(s, p, k) <= s.len(),
        in_class(k, s[span_end(s, p, k) - 1]),
    decreases s.len() - p,
{
    if span_end(s, p + 1, k) > p + 1 {
        lemma_span_end_last(s, p + 1, k);
    }
}

/// An unset `${NAME}` without white space inside its braces is replaced by
/// itself.
proof fn lemma_enclosed_unset_kept(s: Seq<char>, p: int, env: Seq<(Seq<char>, Seq<char>)>)
    requires
        0 <= p < s.len(),
        accepted(Pattern::EnclosedVar, s, p),
        tight_braces(s),
        lookup(env, s.subrange(
            find_at(Pattern::EnclosedVar, s, p).unwrap().cap_start,
            find_at(Pattern::EnclosedVar, s, p).unwrap().cap_end,
        )) is None,
    ensures
        replacement(Pattern::EnclosedVar, s, p, find_at(Pattern::EnclosedVar, s, p).unwrap(), env)
            == s.subrange(p, find_at(Pattern::EnclosedVar, s, p).unwrap().end),
{
    let f = find_at(Pattern::EnclosedVar, s, p).unwrap();
    assert(s.subrange(p, p + 2)[0] == s[p]);
    assert(s.subrange(p, p + 2)[1] == s[p + 1]);
    if p + 2 < s.len() {
        assert(s[p + 1] == '{');
        assert(!is_ws(s[p + 2]));
    }
    let q = span_end(s, p + 2, CharClass::Ws);
    assert(q == p + 2);
    let nn = span_end(s, q + 1, CharClass::Ident);
    lemma_span_end_bounds(s, q + 1, CharClass::Ident);
    let w = span_end(s, nn, CharClass::Ws);
    lemma_span_end_bounds(s, nn, CharClass::Ws);
    if w > nn {
        lemma_span_end_last(s, nn, CharClass::Ws);
        assert(s[(w - 1) + 1] == '}');
        assert(!is_ws(s[w - 1]));
    }
    assert(w == nn);
    assert(replacement(Pattern::EnclosedVar, s, p, f, env) =~= s.subrange(p, f.end));
}

/// With no variable set, `${NAME}` and `$NAME` are left as they are where
/// no white space stands inside braces.
proof fn lemma_replace_unset_vars(pat: Pattern, s: Seq<char>, p: int, env: Seq<(Seq<char>, Seq<char>)>)
    requires
        pat == Pattern::EnclosedVar || pat == Pattern::UnenclosedVar,
        0 <= p <= s.len(),
        tight_braces(s),
        forall|k: Seq<char>| #[trigger] lookup(env, k) is None,
    ensures
        replace_from(pat, s, p, env) == s.skip(p),
    decreases s.len() - p,
{
    if p >= s.len() {
        assert(s.skip(p).len() == 0);
    } else if accepted(pat, s, p) {
        let f = find_at(pat, s, p).unwrap();
        let cap = s.subrange(f.cap_start, f.cap_end);
        assert(lookup(env, cap) is None);
        if pat == Pattern::EnclosedVar {
            lemma_enclosed_unset_kept(s, p, env);
        } else {
            assert(replacement(pat, s, p, f, env) =~= s.subrange(p, f.end));
        }
        lemma_replace_unset_vars(pat, s, f.end, env);
        assert(s.subrange(p, f.end) + s.skip(f.end) =~= s.skip(p));
    } else {
        lemma_replace_unset_vars(pat, s, p + 1, env);
        assert(seq![s[p]] + s.skip(p + 1) =~= s.skip(p));
    }
}

/// **Unset variables stay.** With no variable set, expanding text that has
/// no `:` (so no `${NAME:-default}`, whose default would stand in) and no
/// white space inside braces (`${ NAME }` is written back as `${NAME}`) gives
/// the text back: `$NAME` and `${NAME}` are kept as written.
pub proof fn lemma_resolve_unset_variables(s: Seq<char>, env: Seq<(Seq<char>, Seq<char>)>)
    requires
        forall|k: Seq<char>| #[trigger] lookup(env, k) is None,
        !s.contains(':'),
        tight_braces(s),
    ensures
        resolved(s, env) == s,
{
    lemma_replace_defaults_without_colon(s, 0, env);
    assert(s.skip(0) =~= s);
    lemma_replace_unset_vars(Pattern::EnclosedVar, s, 0, env);
    lemma_replace_unset_vars(Pattern::UnenclosedVar, s, 0, env);
}

/// A table of string pairs as character vectors.
pub fn chars_table(t: &Vec<(String, String)>) -> (r: Vec<(Vec<char>, Vec<char>)>)
    ensures
        chars_table_view(r@) == table_view(t@),
{
    let mut out: Vec<(Vec<char>, Vec<char>)> = Vec::new();
    let mut i: usize = 0;
    while i < t.len()
        invariant
            i <= t.len(),
            chars_table_view(out@) == table_view(t@).take(i as int),
        decreases t.len() - i,
    {
        let k = chars_of(t[i].0.as_str());
        let v = chars_of(t[i].1.as_str());
        let ghost before = out@;
        out.push((k, v));
        proof {
            assert(out@ =~= before.push((k, v)));
            assert(chars_table_view(out@) =~= chars_table_view(before).push((k@, v@)));
            assert(table_view(t@).take(i + 1) =~= table_view(t@).take(i as int).push(
                (t@[i as int].0@, t@[i as int].1@),
            ));
        }
        i = i + 1;
    }
    proof {
        assert(table_view(t@).take(t.len() as int) =~= table_view(t@));
    }
    out
}

/// The trimmed captures of both reference patterns in `s`; each reference of
/// [`references_in`] occurs at least once.
pub fn reference_captures(s: &Vec<char>) -> (r: Vec<Vec<char>>)
    ensures
        forall|x: Seq<char>| chars_seq_view(r@).contains(x) <==> references_in(s@).contains(x),
{
    let mut all = captures(Pattern::UnenclosedRef, s);
    let enclosed = captures(Pattern::EnclosedRef, s);
    let ghost a = chars_seq_view(all@);
    let mut i: usize = 0;
    while i < enclosed.len()
        invariant
            i <= enclosed.len(),
            chars_seq_view(all@) == a + chars_seq_view(enclosed@).take(i as int),
        decreases enclosed.len() - i,
    {
        let ghost before = all@;
        all.push(crate::text::copy_vec(&enclosed[i]));
        proof {
            assert(chars_seq_view(all@) =~= chars_seq_view(before).push(enclosed@[i as int]@));
            assert(chars_seq_view(enclosed@).take(i + 1) =~= chars_seq_view(enclosed@).take(
                i as int,
            ).push(enclosed@[i as int]@));
            assert(chars_seq_view(all@) =~= a + chars_seq_view(enclosed@).take(i + 1));
        }
        i = i + 1;
    }
    proof {
        let e = chars_seq_view(enclosed@);
        assert(e.take(enclosed.len() as int) =~= e);
        let c1 = captures_from(Pattern::UnenclosedRef, s@, 0);
        let c2 = captures_from(Pattern::EnclosedRef, s@, 0);
        assert forall|x: Seq<char>| (c1 + c2).contains(x) <==> (c1.contains(x) || c2.contains(x)) by {
            if (c1 + c2).contains(x) {
                let k = choose|k: int| 0 <= k < (c1 + c2).len() && (c1 + c2)[k] == x;
                if k < c1.len() {
                    assert(c1[k] == x);
                } else {
                    assert(c2[k - c1.len()] == x);
                }
            }
            if c1.contains(x) {
                let k = choose|k: int| 0 <= k < c1.len() && c1[k] == x;
                assert((c1 + c2)[k] == x);
            }
            if c2.contains(x) {
                let k = choose|k: int| 0 <= k < c2.len() && c2[k] == x;
                assert((c1 + c2)[k + c1.len()] == x);
            }
        }
    }
    all
}

/// The distinct secret references in `input`, in both the enclosed
/// (`{{ op://... }}`) and the unenclosed (`op://...`) syntax, each trimmed of
/// surrounding white space. Each occurs once in the result.
pub fn extract_references(input: &str) -> (refs: Vec<String>)
    ensures
        strings_view(refs@).no_duplicates(),
        strings_view(refs@).to_set() == references_in(input@),
{
    let s = chars_of(input);
    let all = reference_captures(&s);
    let uniq = unique_chars(&all);
    let out = strings_of(&uniq);
    proof {
        assert(strings_view(out@).to_set() =~= references_in(input@));
    }
    out
}

/// `input` with shell-style variables expanded from `env`, in three passes:
/// `${NAME:-default}` (the value of `NAME`, else the default), then
/// `${NAME}` and then `$NAME` (the value, else the text left as it was).
/// `env` holds the environment's variables; the first entry of a name counts.
pub fn resolve_variables(input: &str, env: &Vec<(String, String)>) -> (out: String)
    ensures
        out@ == resolved(input@, table_view(env@)),
{
    let t = chars_table(env);
    let s = chars_of(input);
    let a = replace_pattern(Pattern::VarWithDefault, &s, &t);
    let b = replace_pattern(Pattern::EnclosedVar, &a, &t);
    let c = replace_pattern(Pattern::UnenclosedVar, &b, &t);
    string_of(&c)
}

/// `input` with each secret reference replaced by its value in `values`:
/// enclosed references (`{{ op://... }}`, the braces included) first, then
/// unenclosed ones. A reference is looked up trimmed; one without a value
/// stays as it was.
pub fn substitute_references(input: &str, values: &Vec<(String, String)>) -> (out: String)
    ensures
        out@ == substituted(input@, table_view(values@)),
{
    let t = chars_table(values);
    let s = chars_of(input);
    let a = replace_pattern(Pattern::EnclosedRef, &s, &t);
    let b = replace_pattern(Pattern::UnenclosedRef, &a, &t);
    string_of(&b)
}

} // verus!
