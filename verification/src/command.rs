//! The decisions of the `read`, `inject`, `run` and `store` commands that do
//! not touch the process, the terminal or the file system: option parsing,
//! environment files, reference collection, secret masking and age labels.
use vstd::prelude::*;

pub mod run;

use crate::template::{reference_captures, references_in};
use crate::text::{
    chars_of, chars_seq_view, dec, extend_chars, is_whitespace, lines_exec, lines_of,
    push_decimal, replace_chars, replace_str, starts_with, string_of, strings_of, strings_view,
    trim, trimmed_subvec, unique_chars,
};
use crate::time::now_secs;

verus! {

// ---------------------------------------------------------------- file modes

/// Whether `c` is an octal digit.
pub open spec fn is_octal(c: char) -> bool {
    '0' <= c && c <= '7'
}

/// The value of a sequence of octal digits.
pub open spec fn octal_value(d: Seq<char>) -> int
    decreases d.len(),
{
    if d.len() == 0 {
        0
    } else {
        octal_value(d.drop_last()) * 8 + (d.last() as int - '0' as int)
    }
}

/// The file mode that `u32::from_str_radix(s, 8)` reads from `s`: an optional
/// `+` and one or more octal digits whose value fits in a `u32`.
pub open spec fn file_mode_of(s: Seq<char>) -> Option<u32> {
    let d = mode_digits(s);
    if d.len() >= 1 && all_octal(d) && octal_value(d) <= u32::MAX {
        Some(octal_value(d) as u32)
    } else {
        None
    }
}

/// The digits of a file mode: the text without one leading `+`.
pub open spec fn mode_digits(s: Seq<char>) -> Seq<char> {
    if s.len() > 0 && s[0] == '+' {
        s.drop_first()
    } else {
        s
    }
}

/// Whether every character is an octal digit.
pub open spec fn all_octal(d: Seq<char>) -> bool {
    forall|j: int| 0 <= j < d.len() ==> is_octal(#[trigger] d[j])
}

/// The text given for `--file-mode` is not an octal file mode.
#[derive(Debug, Clone, Copy, PartialEq, Eq)]
pub struct InvalidFileMode;

proof fn lemma_octal_value_nonneg(d: Seq<char>)
    requires
        forall|j: int| 0 <= j < d.len() ==> is_octal(#[trigger] d[j]),
    ensures
        octal_value(d) >= 0,
    decreases d.len(),
{
    if d.len() > 0 {
        assert forall|j: int| 0 <= j < d.drop_last().len() implies is_octal(
            #[trigger] d.drop_last()[j],
        ) by {
            assert(d.drop_last()[j] == d[j]);
        }
        lemma_octal_value_nonneg(d.drop_last());
        assert(is_octal(d[d.len() - 1]));
    }
}

/// Parses the value of `--file-mode` as an octal number
/// (`u32::from_str_radix(s, 8)`).
pub fn parse_file_mode(s: &str) -> (r: Result<u32, InvalidFileMode>)
    ensures
        match r {
            Ok(m) => file_mode_of(s@) == Some(m),
            Err(_) => file_mode_of(s@) is None,
        },
{
    let c = chars_of(s);
    let start: usize = if c.len() > 0 && c[0] == '+' {
        1
    } else {
        0
    };
    let ghost d = mode_digits(s@);
    proof {
        assert(d =~= c@.skip(start as int));
    }
    if c.len() == start {
        return Err(InvalidFileMode);
    }
    let mut value: u64 = 0;
    let mut i = start;
    while i < c.len()
        invariant
            start <= i <= c.len(),
            d == c@.skip(start as int),
            d == mode_digits(s@),
            value == octal_value(d.take(i - start)),
            value <= u32::MAX,
            forall|j: int| 0 <= j < i - start ==> is_octal(#[trigger] d[j]),
        decreases c.len() - i,
    {
        let ch = c[i];
        proof {
            assert(d.take(i - start + 1).drop_last() =~= d.take(i - start));
            assert(d[i - start] == ch);
        }
        if !('0' <= ch && ch <= '7') {
            proof {
                assert(!is_octal(d[i - start]));
                assert(!all_octal(d));
                assert(file_mode_of(s@) is None);
            }
            return Err(InvalidFileMode);
        }
        let digit = (ch as u32 - '0' as u32) as u64;
        value = value * 8 + digit;
        if value > 0xffff_ffff {
            proof {
                assert(octal_value(d.take(i - start + 1)) > u32::MAX);
                lemma_octal_prefix_grows(d, i - start + 1);
                assert(file_mode_of(s@) is None);
            }
            return Err(InvalidFileMode);
        }
        i = i + 1;
    }
    proof {
        assert(d.take(i - start) =~= d);
    }
    Ok(value as u32)
}

/// A longer run of octal digits is worth at least as much as its prefix.
proof fn lemma_octal_prefix_grows(d: Seq<char>, n: int)
    requires
        0 <= n <= d.len(),
        forall|j: int| 0 <= j < n ==> is_octal(#[trigger] d[j]),
    ensures
        all_octal(d) ==> octal_value(d) >= octal_value(d.take(n)),
    decreases d.len() - n,
{
    if n < d.len() && all_octal(d) {
        lemma_octal_prefix_grows(d, n + 1);
        assert(d.take(n + 1).drop_last() =~= d.take(n));
        assert(is_octal(d[n]));
        assert forall|j: int| 0 <= j < d.take(n).len() implies is_octal(#[trigger] d.take(n)[j]) by {
            assert(d.take(n)[j] == d[j]);
        }
        lemma_octal_value_nonneg(d.take(n));
    } else if n == d.len() {
        assert(d.take(n) =~= d);
    }
}

// ------------------------------------------------------------- masking

/// The text that stands for a secret in the output of a masked command.
pub open spec fn mask_text() -> Seq<char> {
    seq![
        '<', 'c', 'o', 'n', 'c', 'e', 'a', 'l', 'e', 'd', ' ', 'b', 'y', ' ', '1', 'P', 'a', 's',
        's', 'w', 'o', 'r', 'd', '>'
    ]
}

/// Each non-empty secret in turn replaced by the mask text.
pub open spec fn masked(s: Seq<char>, secrets: Seq<Seq<char>>) -> Seq<char>
    decreases secrets.len(),
{
    if secrets.len() == 0 {
        s
    } else if secrets[0].len() == 0 {
        masked(s, secrets.drop_first())
    } else {
        masked(replace_str(s, secrets[0], mask_text()), secrets.drop_first())
    }
}

fn mask_chars() -> (r: Vec<char>)
    ensures
        r@ == mask_text(),
{
    let r = vec![
        '<', 'c', 'o', 'n', 'c', 'e', 'a', 'l', 'e', 'd', ' ', 'b', 'y', ' ', '1', 'P', 'a', 's',
        's', 'w', 'o', 'r', 'd', '>'
    ];
    proof {
        assert(r@ =~= mask_text());
    }
    r
}

/// A line of a command's output with every secret replaced by
/// `<concealed by 1Password>`, secret after secret; empty secrets are skipped.
pub fn mask_secrets(input: &str, secrets: &[String]) -> (r: String)
    ensures
        r@ == masked(input@, secrets@.map_values(|x: String| x@)),
{
    let ghost sv = secrets@.map_values(|x: String| x@);
    let mask = mask_chars();
    let mut result = chars_of(input);
    let mut i: usize = 0;
    proof {
        assert(sv.skip(0) =~= sv);
    }
    while i < secrets.len()
        invariant
            i <= secrets.len(),
            sv == secrets@.map_values(|x: String| x@),
            mask@ == mask_text(),
            masked(input@, sv) == masked(result@, sv.skip(i as int)),
        decreases secrets.len() - i,
    {
        let secret = chars_of(secrets[i].as_str());
        proof {
            assert(sv.skip(i as int)[0] == secret@);
            assert(sv.skip(i as int).drop_first() =~= sv.skip(i + 1));
        }
        if secret.len() > 0 {
            result = replace_chars(&result, &secret, &mask);
        }
        i = i + 1;
    }
    proof {
        assert(sv.skip(i as int).len() == 0);
    }
    string_of(&result)
}

/// Whether `x` occurs in `t`.
pub open spec fn occurs_in(x: Seq<char>, t: Seq<char>) -> bool {
    exists|i: int| 0 <= i && i + x.len() <= t.len() && #[trigger] t.subrange(i, i + x.len()) == x
}

/// A secret that masking can hide: not empty, free of `<` and `>`, and not a
/// part of the mask text itself.
pub open spec fn maskable(x: Seq<char>) -> bool {
    &&& x.len() > 0
    &&& !x.contains('<')
    &&& !x.contains('>')
    &&& !occurs_in(x, mask_text())
}

/// The first `n` characters of a replacement's output that hold no `<` were
/// kept from the input, at positions where the pattern does not begin.
proof fn lemma_replace_kept_prefix(t: Seq<char>, y: Seq<char>, n: int)
    requires
        y.len() > 0,
        0 <= n <= replace_str(t, y, mask_text()).len(),
        forall|k: int| 0 <= k < n ==> replace_str(t, y, mask_text())[k] != '<',
    ensures
        n <= t.len(),
        replace_str(t, y, mask_text()).take(n) == t.take(n),
        forall|j: int| 0 <= j < n ==> !starts_with(#[trigger] t.skip(j), y),
    decreases n,
{
    let r = replace_str(t, y, mask_text());
    if n == 0 {
        assert(r.take(0) =~= t.take(0));
    } else {
        assert(t.len() > 0);
        if starts_with(t, y) {
            assert(r[0] == mask_text()[0]);
            assert(false);
        }
        let t1 = t.drop_first();
        let r1 = replace_str(t1, y, mask_text());
        assert(r == seq![t[0]] + r1);
        assert forall|k: int| 0 <= k < n - 1 implies r1[k] != '<' by {
            assert(r1[k] == r[k + 1]);
        }
        lemma_replace_kept_prefix(t1, y, n - 1);
        assert(r.take(n) =~= seq![t[0]] + r1.take(n - 1));
        assert(t.take(n) =~= seq![t[0]] + t1.take(n - 1));
        assert forall|j: int| 0 <= j < n implies !starts_with(#[trigger] t.skip(j), y) by {
            if j > 0 {
                assert(t.skip(j) =~= t1.skip(j - 1));
            } else {
                assert(t.skip(0) =~= t);
            }
        }
    }
}

/// After replacing `y` by the mask, a maskable `x` does not occur, provided
/// it did not occur before or it is `y` itself.
proof fn lemma_replace_hides(s: Seq<char>, y: Seq<char>, x: Seq<char>)
    requires
        y.len() > 0,
        maskable(x),
        x == y || !occurs_in(x, s),
    ensures
        !occurs_in(x, replace_str(s, y, mask_text())),
    decreases s.len(),
{
    let m = mask_text();
    let r = replace_str(s, y, m);
    if s.len() == 0 {
        if occurs_in(x, r) {
            let i = choose|i: int| 0 <= i && i + x.len() <= r.len() && #[trigger] r.subrange(i, i + x.len()) == x;
            assert(false);
        }
    } else if starts_with(s, y) {
        let rest = s.skip(y.len() as int);
        if x != y {
            if occurs_in(x, rest) {
                let i = choose|i: int|
                    0 <= i && i + x.len() <= rest.len() && #[trigger] rest.subrange(i, i + x.len()) == x;
                assert(s.subrange(i + y.len(), i + y.len() + x.len()) =~= rest.subrange(i, i + x.len()));
                assert(false);
            }
        }
        lemma_replace_hides(rest, y, x);
        let r1 = replace_str(rest, y, m);
        assert(r == m + r1);
        if occurs_in(x, r) {
            let i = choose|i: int| 0 <= i && i + x.len() <= r.len() && #[trigger] r.subrange(i, i + x.len()) == x;
            if i + x.len() <= m.len() {
                assert(r.subrange(i, i + x.len()) =~= m.subrange(i, i + x.len()));
                assert(false);
            } else if i < m.len() {
                let k = m.len() - 1 - i;
                assert(x[k] == r[m.len() - 1]);
                assert(r[m.len() - 1] == '>');
                assert(x.contains('>'));
                assert(false);
            } else {
                assert(r1.subrange(i - m.len(), i - m.len() + x.len()) =~= r.subrange(i, i + x.len()));
                assert(false);
            }
        }
    } else {
        let s1 = s.drop_first();
        if x != y {
            if occurs_in(x, s1) {
                let i = choose|i: int|
                    0 <= i && i + x.len() <= s1.len() && #[trigger] s1.subrange(i, i + x.len()) == x;
                assert(s.subrange(i + 1, i + 1 + x.len()) =~= s1.subrange(i, i + x.len()));
                assert(false);
            }
        }
        lemma_replace_hides(s1, y, x);
        let r1 = replace_str(s1, y, m);
        assert(r == seq![s[0]] + r1);
        if occurs_in(x, r) {
            let i = choose|i: int| 0 <= i && i + x.len() <= r.len() && #[trigger] r.subrange(i, i + x.len()) == x;
            if i > 0 {
                assert(r1.subrange(i - 1, i - 1 + x.len()) =~= r.subrange(i, i + x.len()));
                assert(false);
            } else {
                let n = x.len() - 1;
                assert forall|k: int| 0 <= k < n implies r1[k] != '<' by {
                    assert(r1[k] == x[k + 1]);
                }
                lemma_replace_kept_prefix(s1, y, n);
                assert(s.take(x.len() as int) =~= seq![s[0]] + s1.take(n));
                assert(x =~= seq![s[0]] + r1.take(n));
                assert(s.subrange(0, x.len() as int) == x);
                if x == y {
                    assert(s.take(y.len() as int) == y);
                    assert(false);
                } else {
                    assert(false);
                }
            }
        }
    }
}

/// Masking hides a maskable `x` if it did not occur or is one of the secrets.
proof fn lemma_masked_hides(s: Seq<char>, secrets: Seq<Seq<char>>, x: Seq<char>)
    requires
        maskable(x),
        forall|i: int| 0 <= i < secrets.len() ==> #[trigger] secrets[i].len() == 0 || maskable(secrets[i]),
        secrets.contains(x) || !occurs_in(x, s),
    ensures
        !occurs_in(x, masked(s, secrets)),
    decreases secrets.len(),
{
    if secrets.len() > 0 {
        let y = secrets[0];
        let rest = secrets.drop_first();
        assert forall|i: int| 0 <= i < rest.len() implies #[trigger] rest[i].len() == 0 || maskable(rest[i]) by {
            assert(rest[i] == secrets[i + 1]);
        }
        let s1 = if y.len() == 0 {
            s
        } else {
            replace_str(s, y, mask_text())
        };
        if y.len() > 0 && (x == y || !occurs_in(x, s)) {
            lemma_replace_hides(s, y, x);
        }
        if !(x == y) && secrets.contains(x) {
            let k = choose|k: int| 0 <= k < secrets.len() && secrets[k] == x;
            assert(k > 0);
            assert(rest[k - 1] == x);
        }
        lemma_masked_hides(s1, rest, x);
    }
}

/// **Secrets are concealed.** After masking, no non-empty secret occurs in
/// the line any more, provided each secret is free of `<` and `>` and is not
/// itself a part of the mask text `<concealed by 1Password>`.
pub proof fn lemma_mask_conceals(s: Seq<char>, secrets: Seq<Seq<char>>)
    requires
        forall|i: int| 0 <= i < secrets.len() ==> #[trigger] secrets[i].len() == 0 || maskable(secrets[i]),
    ensures
        forall|i: int|
            0 <= i < secrets.len() && secrets[i].len() > 0 ==> !occurs_in(
                #[trigger] secrets[i],
                masked(s, secrets),
            ),
{
    assert forall|i: int|
        0 <= i < secrets.len() && secrets[i].len() > 0 implies !occurs_in(
        #[trigger] secrets[i],
        masked(s, secrets),
    ) by {
        assert(secrets.contains(secrets[i]));
        lemma_masked_hides(s, secrets, secrets[i]);
    }
}

// ------------------------------------------------------------- env files

/// A value without one pair of surrounding double or single quotes.
pub open spec fn unquote(v: Seq<char>) -> Seq<char> {
    if v.len() >= 2 && v[0] == '"' && v.last() == '"' {
        v.subrange(1, v.len() - 1)
    } else if v.len() >= 2 && v[0] == '\'' && v.last() == '\'' {
        v.subrange(1, v.len() - 1)
    } else {
        v
    }
}

/// The index of the first `=` in `s`, or its length.
pub open spec fn first_eq(s: Seq<char>) -> int
    decreases s.len(),
{
    if s.len() == 0 || s[0] == '=' {
        0
    } else {
        1 + first_eq(s.drop_first())
    }
}

/// The variable that one line of an environment file sets, if any: blank
/// lines, comments (`#`) and lines without `=` set none; otherwise the
/// trimmed key before the first `=` and the trimmed, unquoted value after it.
pub open spec fn env_line(line: Seq<char>) -> Option<(Seq<char>, Seq<char>)> {
    let t = trim(line);
    let k = first_eq(t);
    if t.len() == 0 || t[0] == '#' || k >= t.len() {
        None
    } else {
        Some((trim(t.take(k)), unquote(trim(t.skip(k + 1)))))
    }
}

/// The variables that the lines set, in order.
pub open spec fn env_entries(lines: Seq<Seq<char>>) -> Seq<(Seq<char>, Seq<char>)>
    decreases lines.len(),
{
    if lines.len() == 0 {
        Seq::empty()
    } else {
        match env_line(lines[0]) {
            Some(e) => seq![e] + env_entries(lines.drop_first()),
            None => env_entries(lines.drop_first()),
        }
    }
}

proof fn lemma_first_eq_bounds(s: Seq<char>)
    ensures
        0 <= first_eq(s) <= s.len(),
        first_eq(s) < s.len() ==> s[first_eq(s)] == '=',
    decreases s.len(),
{
    if s.len() > 0 && s[0] != '=' {
        lemma_first_eq_bounds(s.drop_first());
    }
}

fn env_line_exec(line: &Vec<char>) -> (r: Option<(Vec<char>, Vec<char>)>)
    ensures
        match (r, env_line(line@)) {
            (Some(a), Some(b)) => a.0@ == b.0 && a.1@ == b.1,
            (None, None) => true,
            _ => false,
        },
{
    let t = trimmed_subvec(line, 0, line.len());
    proof {
        assert(line@.subrange(0, line@.len() as int) =~= line@);
    }
    if t.len() == 0 || t[0] == '#' {
        return None;
    }
    let mut k: usize = 0;
    proof {
        assert(t@.skip(0) =~= t@);
    }
    while k < t.len() && t[k] != '='
        invariant
            k <= t.len(),
            first_eq(t@) == k + first_eq(t@.skip(k as int)),
        decreases t.len() - k,
    {
        proof {
            assert(t@.skip(k as int).drop_first() =~= t@.skip(k + 1));
        }
        k = k + 1;
    }
    proof {
        assert(t@.skip(0) =~= t@);
        if k < t.len() {
            assert(t@.skip(k as int)[0] == '=');
        }
        assert(first_eq(t@) == k);
    }
    if k == t.len() {
        return None;
    }
    let key = trimmed_subvec(&t, 0, k);
    let v = trimmed_subvec(&t, k + 1, t.len());
    proof {
        assert(t@.subrange(0, k as int) =~= t@.take(k as int));
        assert(t@.subrange(k + 1, t@.len() as int) =~= t@.skip(k + 1));
    }
    let n = v.len();
    let value = if n >= 2 && ((v[0] == '"' && v[n - 1] == '"') || (v[0] == '\'' && v[n - 1]
        == '\'')) {
        crate::text::subvec(&v, 1, n - 1)
    } else {
        crate::text::copy_vec(&v)
    };
    Some((key, value))
}

/// The variables that an environment file sets, in the order of its lines
/// (a later line for the same key overrides an earlier one when applied).
pub fn parse_env_file(contents: &str) -> (r: Vec<(String, String)>)
    ensures
        r@.map_values(|e: (String, String)| (e.0@, e.1@)) == env_entries(lines_of(contents@)),
{
    let c = chars_of(contents);
    let lines = lines_exec(&c);
    let ghost ls = chars_seq_view(lines@);
    let mut out: Vec<(String, String)> = Vec::new();
    let mut i: usize = 0;
    proof {
        assert(ls.skip(0) =~= ls);
        assert(out@.map_values(|e: (String, String)| (e.0@, e.1@)) =~= Seq::<
            (Seq<char>, Seq<char>),
        >::empty());
    }
    while i < lines.len()
        invariant
            i <= lines.len(),
            ls == chars_seq_view(lines@),
            ls == lines_of(contents@),
            out@.map_values(|e: (String, String)| (e.0@, e.1@)) + env_entries(ls.skip(i as int))
                == env_entries(ls),
        decreases lines.len() - i,
    {
        let ghost before = out@.map_values(|e: (String, String)| (e.0@, e.1@));
        proof {
            assert(ls.skip(i as int)[0] == lines@[i as int]@);
            assert(ls.skip(i as int).drop_first() =~= ls.skip(i + 1));
        }
        match env_line_exec(&lines[i]) {
            Some((k, v)) => {
                let ghost ob = out@;
                let ks = string_of(&k);
                let vs = string_of(&v);
                out.push((ks, vs));
                proof {
                    assert(out@ =~= ob.push((ks, vs)));
                    assert(out@.map_values(|e: (String, String)| (e.0@, e.1@)) =~= before.push(
                        (k@, v@),
                    ));
                    assert(before + env_entries(ls.skip(i as int)) =~= out@.map_values(
                        |e: (String, String)| (e.0@, e.1@),
                    ) + env_entries(ls.skip(i + 1)));
                }
            },
            None => {},
        }
        i = i + 1;
    }
    proof {
        assert(ls.skip(i as int).len() == 0);
        assert(out@.map_values(|e: (String, String)| (e.0@, e.1@)) + env_entries(ls.skip(i as int))
            =~= out@.map_values(|e: (String, String)| (e.0@, e.1@)));
    }
    out
}

// ------------------------------------------------------------- references

/// The distinct secret references named in any of the texts (environment
/// values and command arguments), each once.
pub fn collect_references(texts: &Vec<String>) -> (r: Vec<String>)
    ensures
        strings_view(r@).no_duplicates(),
        forall|x: Seq<char>|
            strings_view(r@).contains(x) <==> exists|i: int|
                0 <= i < texts.len() && references_in(#[trigger] texts@[i]@).contains(x),
{
    let mut all: Vec<Vec<char>> = Vec::new();
    let mut i: usize = 0;
    while i < texts.len()
        invariant
            i <= texts.len(),
            forall|x: Seq<char>|
                chars_seq_view(all@).contains(x) <==> exists|j: int|
                    0 <= j < i && references_in(#[trigger] texts@[j]@).contains(x),
        decreases texts.len() - i,
    {
        let s = chars_of(texts[i].as_str());
        let caps = reference_captures(&s);
        let ghost before = chars_seq_view(all@);
        let mut k: usize = 0;
        while k < caps.len()
            invariant
                k <= caps.len(),
                chars_seq_view(all@) == before + chars_seq_view(caps@).take(k as int),
            decreases caps.len() - k,
        {
            let ghost ab = all@;
            all.push(crate::text::copy_vec(&caps[k]));
            proof {
                assert(chars_seq_view(all@) =~= chars_seq_view(ab).push(caps@[k as int]@));
                assert(chars_seq_view(caps@).take(k + 1) =~= chars_seq_view(caps@).take(
                    k as int,
                ).push(caps@[k as int]@));
            }
            k = k + 1;
        }
        proof {
            let cv = chars_seq_view(caps@);
            assert(cv.take(caps.len() as int) =~= cv);
            let after = chars_seq_view(all@);
            assert forall|x: Seq<char>|
                after.contains(x) <==> exists|j: int|
                    0 <= j < i + 1 && references_in(#[trigger] texts@[j]@).contains(x) by {
                if after.contains(x) {
                    let m = choose|m: int| 0 <= m < after.len() && after[m] == x;
                    if m < before.len() {
                        assert(before[m] == x);
                        assert(before.contains(x));
                    } else {
                        assert(cv[m - before.len()] == x);
                        assert(cv.contains(x));
                        assert(references_in(texts@[i as int]@).contains(x));
                    }
                }
                if exists|j: int| 0 <= j < i + 1 && references_in(#[trigger] texts@[j]@).contains(x) {
                    let j = choose|j: int|
                        0 <= j < i + 1 && references_in(#[trigger] texts@[j]@).contains(x);
                    if j < i {
                        assert(before.contains(x));
                        let m = choose|m: int| 0 <= m < before.len() && before[m] == x;
                        assert(after[m] == x);
                    } else {
                        assert(s@ == texts@[i as int]@);
                        assert(cv.contains(x));
                        let m = choose|m: int| 0 <= m < cv.len() && cv[m] == x;
                        assert(after[before.len() + m] == x);
                    }
                }
            }
        }
        i = i + 1;
    }
    let uniq = unique_chars(&all);
    strings_of(&uniq)
}

// ------------------------------------------------------------- ages

/// How long ago something was stored, as the `store list` command shows it:
/// seconds below a minute, minutes below an hour, hours below a day, else
/// days, always rounded down.
pub open spec fn age_label(elapsed: nat) -> Seq<char> {
    if elapsed < 60 {
        dec(elapsed) + seq!['s', ' ', 'a', 'g', 'o']
    } else if elapsed < 3600 {
        dec(elapsed / 60) + seq!['m', ' ', 'a', 'g', 'o']
    } else if elapsed < 86400 {
        dec(elapsed / 3600) + seq!['h', ' ', 'a', 'g', 'o']
    } else {
        dec(elapsed / 86400) + seq!['d', ' ', 'a', 'g', 'o']
    }
}

/// The time between `timestamp` and `now`, or zero if `timestamp` lies ahead.
pub open spec fn elapsed_since(now: u64, timestamp: u64) -> nat {
    if now >= timestamp {
        (now - timestamp) as nat
    } else {
        0
    }
}

/// The age label of `timestamp` at time `now` (seconds since the epoch).
pub fn chrono_conversion_at(now: u64, timestamp: u64) -> (r: String)
    ensures
        r@ == age_label(elapsed_since(now, timestamp)),
{
    let elapsed = now.saturating_sub(timestamp);
    let mut out: Vec<char> = Vec::new();
    let unit: char;
    if elapsed < 60 {
        push_decimal(&mut out, elapsed);
        unit = 's';
    } else if elapsed < 3600 {
        push_decimal(&mut out, elapsed / 60);
        unit = 'm';
    } else if elapsed < 86400 {
        push_decimal(&mut out, elapsed / 3600);
        unit = 'h';
    } else {
        push_decimal(&mut out, elapsed / 86400);
        unit = 'd';
    }
    out.push(unit);
    out.push(' ');
    out.push('a');
    out.push('g');
    out.push('o');
    proof {
        assert(elapsed as nat == elapsed_since(now, timestamp));
        assert(out@ =~= age_label(elapsed_since(now, timestamp)));
    }
    string_of(&out)
}

/// The age label of `timestamp` at the current time.
pub fn chrono_conversion(timestamp: u64) -> (r: String)
    ensures
        exists|now: u64| r@ == age_label(elapsed_since(now, timestamp)),
{
    let now = now_secs();
    chrono_conversion_at(now, timestamp)
}

} // verus!
