//! Character-level helpers shared by the template, batch and env-file code.
//!
//! All text is handled as sequences of `char`; `&str`/`String` values are
//! converted at the boundary of each public function.
use vstd::prelude::*;

verus! {

/// The Unicode `White_Space` property: what `char::is_whitespace`, `str::trim`
/// and the regex class `\s` accept.
pub open spec fn is_ws(c: char) -> bool {
    ||| ('\u{9}' <= c && c <= '\u{d}')
    ||| c == ' '
    ||| c == '\u{85}'
    ||| c == '\u{a0}'
    ||| c == '\u{1680}'
    ||| ('\u{2000}' <= c && c <= '\u{200a}')
    ||| c == '\u{2028}'
    ||| c == '\u{2029}'
    ||| c == '\u{202f}'
    ||| c == '\u{205f}'
    ||| c == '\u{3000}'
}

/// Executable form of [`is_ws`].
pub fn is_whitespace(c: char) -> (r: bool)
    ensures
        r == is_ws(c),
{
    ('\u{9}' <= c && c <= '\u{d}') || c == ' ' || c == '\u{85}' || c == '\u{a0}'
        || c == '\u{1680}' || ('\u{2000}' <= c && c <= '\u{200a}') || c == '\u{2028}'
        || c == '\u{2029}' || c == '\u{202f}' || c == '\u{205f}' || c == '\u{3000}'
}

/// The characters of a string slice, in order.
pub fn chars_of(s: &str) -> (v: Vec<char>)
    ensures
        v@ == s@,
{
    broadcast use vstd::string::group_string_axioms;
    let mut v: Vec<char> = Vec::new();
    let chars = s.chars();
    for c in it: chars
        invariant
            it.seq() == s@,
            v@ == it.seq().take(it.index()),
    {
        v.push(c);
    }
    v
}

/// Appends one character to a `String` (`String::push`).
#[verifier::external_body]
fn string_push(s: &mut String, c: char)
    ensures
        final(s)@ == old(s)@.push(c),
{
    s.push(c);
}

/// A `String` holding exactly the given characters.
pub fn string_of(v: &Vec<char>) -> (s: String)
    ensures
        s@ == v@,
{
    let mut s = String::new();
    let mut i: usize = 0;
    while i < v.len()
        invariant
            i <= v.len(),
            s@ == v@.take(i as int),
        decreases v.len() - i,
    {
        string_push(&mut s, v[i]);
        proof {
            assert(v@.take(i + 1) =~= v@.take(i as int).push(v@[i as int]));
        }
        i = i + 1;
    }
    proof {
        assert(v@.take(v.len() as int) =~= v@);
    }
    s
}


/// `str::trim_start` on a character sequence.
pub open spec fn trim_start(s: Seq<char>) -> Seq<char>
    decreases s.len(),
{
    if s.len() > 0 && is_ws(s[0]) {
        trim_start(s.drop_first())
    } else {
        s
    }
}

/// `str::trim_end` on a character sequence.
pub open spec fn trim_end(s: Seq<char>) -> Seq<char>
    decreases s.len(),
{
    if s.len() > 0 && is_ws(s.last()) {
        trim_end(s.drop_last())
    } else {
        s
    }
}

/// `str::trim`: leading and trailing white space removed.
pub open spec fn trim(s: Seq<char>) -> Seq<char> {
    trim_end(trim_start(s))
}

/// The characters `s[a..b]`.
pub fn subvec(s: &Vec<char>, a: usize, b: usize) -> (r: Vec<char>)
    requires
        a <= b <= s.len(),
    ensures
        r@ == s@.subrange(a as int, b as int),
{
    let mut r: Vec<char> = Vec::new();
    let mut i = a;
    while i < b
        invariant
            a <= i <= b <= s.len(),
            r@ == s@.subrange(a as int, i as int),
        decreases b - i,
    {
        r.push(s[i]);
        proof {
            assert(s@.subrange(a as int, i + 1) =~= s@.subrange(a as int, i as int).push(s@[i as int]));
        }
        i = i + 1;
    }
    r
}

/// The characters `trim(s[a..b])`.
pub fn trimmed_subvec(s: &Vec<char>, a: usize, b: usize) -> (r: Vec<char>)
    requires
        a <= b <= s.len(),
    ensures
        r@ == trim(s@.subrange(a as int, b as int)),
{
    let mut i = a;
    while i < b && is_whitespace(s[i])
        invariant
            a <= i <= b <= s.len(),
            trim_start(s@.subrange(a as int, b as int)) == trim_start(s@.subrange(i as int, b as int)),
        decreases b - i,
    {
        proof {
            assert(s@.subrange(i as int, b as int).drop_first() =~= s@.subrange(i + 1, b as int));
        }
        i = i + 1;
    }
    let mut j = b;
    while j > i && is_whitespace(s[j - 1])
        invariant
            i <= j <= b <= s.len(),
            trim_end(s@.subrange(i as int, b as int)) == trim_end(s@.subrange(i as int, j as int)),
        decreases j - i,
    {
        proof {
            assert(s@.subrange(i as int, j as int).drop_last() =~= s@.subrange(i as int, j - 1));
        }
        j = j - 1;
    }
    subvec(s, i, j)
}

/// `s` without its trailing white space (`str::trim_end`).
pub fn trim_end_str(s: &str) -> (r: String)
    ensures
        r@ == trim_end(s@),
{
    let c = chars_of(s);
    let mut j = c.len();
    proof {
        assert(c@.subrange(0, j as int) =~= c@);
    }
    while j > 0 && is_whitespace(c[j - 1])
        invariant
            j <= c.len(),
            trim_end(c@) == trim_end(c@.subrange(0, j as int)),
        decreases j,
    {
        proof {
            assert(c@.subrange(0, j as int).drop_last() =~= c@.subrange(0, j - 1));
        }
        j = j - 1;
    }
    let t = subvec(&c, 0, j);
    string_of(&t)
}

/// Whether two character vectors are equal.
pub fn chars_eq(a: &Vec<char>, b: &Vec<char>) -> (r: bool)
    ensures
        r == (a@ == b@),
{
    if a.len() != b.len() {
        return false;
    }
    let mut i: usize = 0;
    while i < a.len()
        invariant
            i <= a.len() == b.len(),
            forall|k: int| 0 <= k < i ==> a@[k] == b@[k],
        decreases a.len() - i,
    {
        if a[i] != b[i] {
            return false;
        }
        i = i + 1;
    }
    proof {
        assert(a@ =~= b@);
    }
    true
}

/// Appends all characters of `b` to `a`.
pub fn extend_chars(a: &mut Vec<char>, b: &Vec<char>)
    ensures
        final(a)@ == old(a)@ + b@,
{
    let mut i: usize = 0;
    while i < b.len()
        invariant
            i <= b.len(),
            a@ == old(a)@ + b@.take(i as int),
        decreases b.len() - i,
    {
        a.push(b[i]);
        proof {
            assert(b@.take(i + 1) =~= b@.take(i as int).push(b@[i as int]));
            assert(old(a)@ + b@.take(i + 1) =~= (old(a)@ + b@.take(i as int)).push(b@[i as int]));
        }
        i = i + 1;
    }
    proof {
        assert(b@.take(b.len() as int) =~= b@);
    }
}


/// The character view of a vector of character vectors.
pub open spec fn chars_seq_view(v: Seq<Vec<char>>) -> Seq<Seq<char>> {
    v.map_values(|x: Vec<char>| x@)
}

/// The character view of a vector of strings.
pub open spec fn strings_view(v: Seq<String>) -> Seq<Seq<char>> {
    v.map_values(|x: String| x@)
}

/// Whether `x` is one of the vectors in `v`.
pub fn contains_chars(v: &Vec<Vec<char>>, x: &Vec<char>) -> (r: bool)
    ensures
        r == chars_seq_view(v@).contains(x@),
{
    let mut i: usize = 0;
    while i < v.len()
        invariant
            i <= v.len(),
            forall|k: int| 0 <= k < i ==> v@[k]@ != x@,
        decreases v.len() - i,
    {
        if chars_eq(&v[i], x) {
            proof {
                assert(chars_seq_view(v@)[i as int] == x@);
            }
            return true;
        }
        i = i + 1;
    }
    proof {
        if chars_seq_view(v@).contains(x@) {
            let k = choose|k: int| 0 <= k < chars_seq_view(v@).len() && chars_seq_view(v@)[k] == x@;
            assert(v@[k]@ == x@);
        }
    }
    false
}

/// The distinct vectors of `items`, each once, in order of first occurrence.
pub fn unique_chars(items: &Vec<Vec<char>>) -> (r: Vec<Vec<char>>)
    ensures
        chars_seq_view(r@).no_duplicates(),
        forall|x: Seq<char>| chars_seq_view(r@).contains(x) <==> chars_seq_view(items@).contains(x),
{
    let ghost all = chars_seq_view(items@);
    let mut out: Vec<Vec<char>> = Vec::new();
    let mut i: usize = 0;
    while i < items.len()
        invariant
            i <= items.len(),
            all == chars_seq_view(items@),
            chars_seq_view(out@).no_duplicates(),
            forall|x: Seq<char>| chars_seq_view(out@).contains(x) <==> all.take(i as int).contains(x),
        decreases items.len() - i,
    {
        let ghost before = chars_seq_view(out@);
        let ghost prev = all.take(i as int);
        let ghost next = all.take(i + 1);
        let ghost item = all[i as int];
        proof {
            assert(next =~= prev.push(item));
            assert(next[i as int] == item);
        }
        if !contains_chars(&out, &items[i]) {
            out.push(copy_vec(&items[i]));
            proof {
                let after = chars_seq_view(out@);
                assert(after =~= before.push(item));
                assert forall|x: Seq<char>| after.contains(x) <==> next.contains(x) by {
                    if after.contains(x) && x != item {
                        let k = choose|k: int| 0 <= k < after.len() && after[k] == x;
                        assert(k < before.len());
                        assert(before[k] == x);
                        assert(before.contains(x));
                        assert(prev.contains(x));
                        let j = choose|j: int| 0 <= j < prev.len() && prev[j] == x;
                        assert(next[j] == x);
                    }
                    if next.contains(x) && x != item {
                        let k = choose|k: int| 0 <= k < next.len() && next[k] == x;
                        assert(prev[k] == x);
                        assert(before.contains(x));
                        let j = choose|j: int| 0 <= j < before.len() && before[j] == x;
                        assert(after[j] == x);
                    }
                    if x == item {
                        assert(after[before.len() as int] == x);
                    }
                }
            }
        } else {
            proof {
                assert forall|x: Seq<char>| before.contains(x) <==> next.contains(x) by {
                    if next.contains(x) && x != item {
                        let k = choose|k: int| 0 <= k < next.len() && next[k] == x;
                        assert(prev[k] == x);
                    }
                    if prev.contains(x) {
                        let k = choose|k: int| 0 <= k < prev.len() && prev[k] == x;
                        assert(next[k] == x);
                    }
                }
            }
        }
        i = i + 1;
    }
    proof {
        assert(all.take(items.len() as int) =~= all);
    }
    out
}

/// A copy of a character vector.
pub fn copy_vec(v: &Vec<char>) -> (r: Vec<char>)
    ensures
        r@ == v@,
{
    let r = subvec(v, 0, v.len());
    proof {
        assert(v@.subrange(0, v@.len() as int) =~= v@);
    }
    r
}

/// Strings holding the given character vectors.
pub fn strings_of(v: &Vec<Vec<char>>) -> (r: Vec<String>)
    ensures
        strings_view(r@) == chars_seq_view(v@),
{
    let mut out: Vec<String> = Vec::new();
    let mut i: usize = 0;
    while i < v.len()
        invariant
            i <= v.len(),
            strings_view(out@) == chars_seq_view(v@).take(i as int),
        decreases v.len() - i,
    {
        let ghost before = out@;
        let st = string_of(&v[i]);
        out.push(st);
        proof {
            assert(out@ =~= before.push(st));
            assert(strings_view(out@) =~= strings_view(before).push(st@));
            assert(chars_seq_view(v@).take(i + 1) =~= chars_seq_view(v@).take(i as int).push(v@[i as int]@));
            assert(strings_view(out@) =~= chars_seq_view(v@).take(i + 1));
        }
        i = i + 1;
    }
    proof {
        assert(chars_seq_view(v@).take(v.len() as int) =~= chars_seq_view(v@));
    }
    out
}


/// The decimal digit character for `d` (`0 <= d < 10`).
pub open spec fn digit_char(d: int) -> char {
    if d == 0 {
        '0'
    } else if d == 1 {
        '1'
    } else if d == 2 {
        '2'
    } else if d == 3 {
        '3'
    } else if d == 4 {
        '4'
    } else if d == 5 {
        '5'
    } else if d == 6 {
        '6'
    } else if d == 7 {
        '7'
    } else if d == 8 {
        '8'
    } else {
        '9'
    }
}

/// The decimal notation of `n`, as `n.to_string()` writes it.
pub open spec fn dec(n: nat) -> Seq<char>
    decreases n,
{
    if n < 10 {
        seq![digit_char(n as int)]
    } else {
        dec(n / 10).push(digit_char((n % 10) as int))
    }
}

fn digit_exec(d: u64) -> (c: char)
    requires
        d < 10,
    ensures
        c == digit_char(d as int),
{
    if d == 0 {
        '0'
    } else if d == 1 {
        '1'
    } else if d == 2 {
        '2'
    } else if d == 3 {
        '3'
    } else if d == 4 {
        '4'
    } else if d == 5 {
        '5'
    } else if d == 6 {
        '6'
    } else if d == 7 {
        '7'
    } else if d == 8 {
        '8'
    } else {
        '9'
    }
}

/// Appends the decimal notation of `n` to `out`.
pub fn push_decimal(out: &mut Vec<char>, n: u64)
    ensures
        final(out)@ == old(out)@ + dec(n as nat),
    decreases n,
{
    if n >= 10 {
        push_decimal(out, n / 10);
    }
    let ghost mid = out@;
    out.push(digit_exec(n % 10));
    proof {
        if n >= 10 {
            assert(out@ =~= old(out)@ + dec(n as nat));
        } else {
            assert(out@ =~= old(out)@ + dec(n as nat));
        }
    }
}

/// Whether `s` begins with `p`.
pub open spec fn starts_with(s: Seq<char>, p: Seq<char>) -> bool {
    p.len() <= s.len() && s.take(p.len() as int) == p
}

/// Executable form of [`starts_with`].
pub fn starts_with_exec(s: &Vec<char>, p: &Vec<char>) -> (r: bool)
    ensures
        r == starts_with(s@, p@),
{
    if p.len() > s.len() {
        return false;
    }
    let mut i: usize = 0;
    while i < p.len()
        invariant
            i <= p.len() <= s.len(),
            forall|k: int| 0 <= k < i ==> s@[k] == p@[k],
        decreases p.len() - i,
    {
        if s[i] != p[i] {
            proof {
                if starts_with(s@, p@) {
                    assert(s@.take(p.len() as int)[i as int] == s@[i as int]);
                }
            }
            return false;
        }
        i = i + 1;
    }
    proof {
        assert(s@.take(p.len() as int) =~= p@);
    }
    true
}

/// The index of the first line feed in `s`, or its length if it has none.
pub open spec fn first_nl(s: Seq<char>) -> int
    decreases s.len(),
{
    if s.len() == 0 {
        0
    } else if s[0] == '\n' {
        0
    } else {
        1 + first_nl(s.drop_first())
    }
}

/// A line without the carriage return that ends it, if any.
pub open spec fn strip_cr(l: Seq<char>) -> Seq<char> {
    if l.len() > 0 && l.last() == '\r' {
        l.drop_last()
    } else {
        l
    }
}

/// The lines of `s`, as `str::lines` gives them: split at `\n`, a `\r`
/// before the `\n` dropped, and no empty line after a final line feed.
pub open spec fn lines_of(s: Seq<char>) -> Seq<Seq<char>>
    decreases s.len(),
{
    if s.len() == 0 {
        Seq::empty()
    } else {
        let k = first_nl(s);
        if k >= s.len() {
            seq![s]
        } else {
            proof {
                lemma_first_nl_bounds(s);
            }
            seq![strip_cr(s.take(k))] + lines_of(s.skip(k + 1))
        }
    }
}

pub proof fn lemma_first_nl_bounds(s: Seq<char>)
    ensures
        0 <= first_nl(s) <= s.len(),
        first_nl(s) < s.len() ==> s[first_nl(s)] == '\n',
        forall|j: int| 0 <= j < first_nl(s) ==> s[j] != '\n',
    decreases s.len(),
{
    if s.len() > 0 && s[0] != '\n' {
        lemma_first_nl_bounds(s.drop_first());
        assert forall|j: int| 0 <= j < first_nl(s) implies s[j] != '\n' by {
            if j > 0 {
                assert(s[j] == s.drop_first()[j - 1]);
            }
        }
    }
}

/// Executable form of [`lines_of`].
pub fn lines_exec(s: &Vec<char>) -> (r: Vec<Vec<char>>)
    ensures
        chars_seq_view(r@) == lines_of(s@),
{
    let mut out: Vec<Vec<char>> = Vec::new();
    let mut start: usize = 0;
    proof {
        assert(s@.skip(0) =~= s@);
    }
    while start < s.len()
        invariant
            start <= s.len(),
            chars_seq_view(out@) + lines_of(s@.skip(start as int)) == lines_of(s@),
        decreases s.len() - start,
    {
        let ghost rest = s@.skip(start as int);
        let mut j = start;
        while j < s.len() && s[j] != '\n'
            invariant
                start <= j <= s.len(),
                rest == s@.skip(start as int),
                first_nl(rest) == (j - start) + first_nl(s@.skip(j as int)),
            decreases s.len() - j,
        {
            proof {
                assert(s@.skip(j as int).drop_first() =~= s@.skip(j + 1));
            }
            j = j + 1;
        }
        proof {
            if j < s.len() {
                assert(s@.skip(j as int)[0] == '\n');
            } else {
                assert(s@.skip(j as int).len() == 0);
            }
            assert(first_nl(rest) == j - start);
        }
        let ghost before = chars_seq_view(out@);
        if j == s.len() {
            let line = subvec(s, start, j);
            out.push(line);
            proof {
                assert(rest =~= s@.subrange(start as int, j as int));
                assert(chars_seq_view(out@) =~= before.push(line@));
                assert(s@.skip(j as int).len() == 0);
                assert(lines_of(s@.skip(j as int)) =~= Seq::<Seq<char>>::empty());
                assert(chars_seq_view(out@) + lines_of(s@.skip(j as int)) =~= before + lines_of(rest));
            }
            start = j;
        } else {
            let mut e = j;
            if e > start && s[e - 1] == '\r' {
                e = e - 1;
            }
            let line = subvec(s, start, e);
            out.push(line);
            proof {
                assert(rest.take(j - start) =~= s@.subrange(start as int, j as int));
                assert(line@ == strip_cr(rest.take(j - start)));
                assert(rest.skip(j - start + 1) =~= s@.skip(j + 1));
                assert(chars_seq_view(out@) =~= before.push(line@));
                assert(chars_seq_view(out@) + lines_of(s@.skip(j + 1)) =~= before + lines_of(rest));
            }
            start = j + 1;
        }
    }
    proof {
        assert(s@.skip(start as int).len() == 0);
        assert(chars_seq_view(out@) + lines_of(s@.skip(start as int)) =~= chars_seq_view(out@));
    }
    out
}

/// Lines joined with `\n` between them (`[..].join("\n")`).
pub open spec fn join_lines(ls: Seq<Seq<char>>) -> Seq<char>
    decreases ls.len(),
{
    if ls.len() == 0 {
        Seq::empty()
    } else if ls.len() == 1 {
        ls[0]
    } else {
        join_lines(ls.drop_last()) + seq!['\n'] + ls.last()
    }
}

/// Executable form of [`join_lines`].
pub fn join_lines_exec(ls: &Vec<Vec<char>>) -> (r: Vec<char>)
    ensures
        r@ == join_lines(chars_seq_view(ls@)),
{
    let ghost v = chars_seq_view(ls@);
    let mut out: Vec<char> = Vec::new();
    let mut i: usize = 0;
    while i < ls.len()
        invariant
            i <= ls.len(),
            v == chars_seq_view(ls@),
            out@ == join_lines(v.take(i as int)),
        decreases ls.len() - i,
    {
        proof {
            assert(v.take(i + 1).drop_last() =~= v.take(i as int));
        }
        if i > 0 {
            out.push('\n');
        }
        extend_chars(&mut out, &ls[i]);
        proof {
            if i == 0 {
                assert(out@ =~= join_lines(v.take(1)));
            } else {
                assert(out@ =~= join_lines(v.take(i + 1)));
            }
        }
        i = i + 1;
    }
    proof {
        assert(v.take(ls.len() as int) =~= v);
    }
    out
}


/// Where the first line feed of a concatenation lies.
pub proof fn lemma_first_nl_concat(x: Seq<char>, y: Seq<char>)
    ensures
        first_nl(x) < x.len() ==> first_nl(x + y) == first_nl(x),
        first_nl(x) >= x.len() ==> first_nl(x + y) == x.len() + first_nl(y),
    decreases x.len(),
{
    if x.len() > 0 {
        assert((x + y)[0] == x[0]);
        if x[0] != '\n' {
            assert((x + y).drop_first() =~= x.drop_first() + y);
            lemma_first_nl_concat(x.drop_first(), y);
        }
    } else {
        assert(x + y =~= y);
    }
}

/// The lines of text that ends with a line feed, followed by more text, are
/// the lines of each part.
pub proof fn lemma_lines_concat(x: Seq<char>, y: Seq<char>)
    requires
        x.len() == 0 || x.last() == '\n',
    ensures
        lines_of(x + y) == lines_of(x) + lines_of(y),
    decreases x.len(),
{
    if x.len() == 0 {
        assert(x + y =~= y);
        assert(lines_of(x) =~= Seq::<Seq<char>>::empty());
        assert(lines_of(x) + lines_of(y) =~= lines_of(y));
    } else {
        lemma_first_nl_bounds(x);
        let k = first_nl(x);
        if k >= x.len() {
            assert(x[x.len() - 1] != '\n');
        }
        lemma_first_nl_concat(x, y);
        lemma_first_nl_bounds(x + y);
        assert((x + y).take(k) =~= x.take(k));
        assert((x + y).skip(k + 1) =~= x.skip(k + 1) + y);
        if x.skip(k + 1).len() > 0 {
            assert(x.skip(k + 1).last() == x.last());
        }
        lemma_lines_concat(x.skip(k + 1), y);
        assert(lines_of(x + y) =~= lines_of(x) + lines_of(y));
    }
}

/// A line without line feed, followed by a line feed, is one line.
pub proof fn lemma_lines_single(w: Seq<char>)
    requires
        forall|j: int| 0 <= j < w.len() ==> w[j] != '\n' && w[j] != '\r',
    ensures
        lines_of(w + seq!['\n']) == seq![w],
{
    lemma_first_nl_bounds(w);
    if first_nl(w) < w.len() {
        assert(w[first_nl(w)] == '\n');
    }
    lemma_first_nl_concat(w, seq!['\n']);
    let s = w + seq!['\n'];
    assert(first_nl(s) == w.len());
    assert(s.take(w.len() as int) =~= w);
    assert(s.skip(w.len() as int + 1).len() == 0);
    assert(lines_of(s.skip(w.len() as int + 1)) =~= Seq::<Seq<char>>::empty());
    assert(lines_of(s) =~= seq![w]);
}

/// Joining a first line with the rest.
pub proof fn lemma_join_front(a: Seq<char>, rest: Seq<Seq<char>>)
    requires
        rest.len() >= 1,
    ensures
        join_lines(seq![a] + rest) == a + seq!['\n'] + join_lines(rest),
    decreases rest.len(),
{
    let all = seq![a] + rest;
    if rest.len() == 1 {
        assert(all.drop_last() =~= seq![a]);
        assert(all.last() == rest[0]);
        assert(join_lines(seq![a]) == a);
        assert(join_lines(rest) == rest[0]);
        assert(join_lines(all) == join_lines(all.drop_last()) + seq!['\n'] + all.last());
        assert(join_lines(all) =~= a + seq!['\n'] + join_lines(rest));
    } else {
        assert(all.drop_last() =~= seq![a] + rest.drop_last());
        lemma_join_front(a, rest.drop_last());
        assert(all.last() == rest.last());
        assert(join_lines(all) =~= a + seq!['\n'] + join_lines(rest));
    }
}

/// Text without carriage returns is the join of its own lines.
pub proof fn lemma_join_lines_of(v: Seq<char>)
    requires
        forall|j: int| 0 <= j < v.len() ==> v[j] != '\r',
    ensures
        lines_of(v + seq!['\n']).len() >= 1,
        join_lines(lines_of(v + seq!['\n'])) == v,
    decreases v.len(),
{
    let s = v + seq!['\n'];
    lemma_first_nl_bounds(v);
    lemma_first_nl_concat(v, seq!['\n']);
    lemma_first_nl_bounds(s);
    let k = first_nl(v);
    if k >= v.len() {
        assert(first_nl(s) == v.len());
        assert(s.take(v.len() as int) =~= v);
        if v.len() > 0 {
            assert(v.last() != '\r');
        }
        assert(s.skip(v.len() as int + 1).len() == 0);
        assert(lines_of(s.skip(v.len() as int + 1)) =~= Seq::<Seq<char>>::empty());
        assert(lines_of(s) =~= seq![v]);
    } else {
        let a = v.take(k);
        let t = v.skip(k + 1);
        assert(s.take(k) =~= a);
        if a.len() > 0 {
            assert(a.last() == v[k - 1]);
        }
        assert(strip_cr(a) == a);
        assert(s.skip(k + 1) =~= t + seq!['\n']);
        lemma_join_lines_of(t);
        assert(lines_of(s) =~= seq![a] + lines_of(t + seq!['\n']));
        lemma_join_front(a, lines_of(t + seq!['\n']));
        assert(a + seq!['\n'] + t =~= v);
    }
}

/// Decimal notation holds digits only.
pub proof fn lemma_dec_digits(n: nat)
    ensures
        dec(n).len() >= 1,
        forall|j: int| 0 <= j < dec(n).len() ==> '0' <= #[trigger] dec(n)[j] <= '9',
    decreases n,
{
    if n >= 10 {
        lemma_dec_digits(n / 10);
    }
}


/// `s.replace(pat, rep)` for a non-empty `pat`: the non-overlapping
/// occurrences of `pat`, found from the left, each replaced by `rep`.
pub open spec fn replace_str(s: Seq<char>, pat: Seq<char>, rep: Seq<char>) -> Seq<char>
    decreases s.len(),
{
    if s.len() == 0 || pat.len() == 0 {
        s
    } else if starts_with(s, pat) {
        rep + replace_str(s.skip(pat.len() as int), pat, rep)
    } else {
        seq![s[0]] + replace_str(s.drop_first(), pat, rep)
    }
}

/// Whether `pat` occurs in `s` at position `p`.
pub fn starts_with_at(s: &Vec<char>, p: usize, pat: &Vec<char>) -> (r: bool)
    requires
        p <= s.len(),
    ensures
        r == starts_with(s@.skip(p as int), pat@),
{
    if pat.len() > s.len() - p {
        return false;
    }
    let mut i: usize = 0;
    while i < pat.len()
        invariant
            i <= pat.len() <= s.len() - p,
            forall|k: int| 0 <= k < i ==> s@[p + k] == pat@[k],
        decreases pat.len() - i,
    {
        if s[p + i] != pat[i] {
            proof {
                if starts_with(s@.skip(p as int), pat@) {
                    assert(s@.skip(p as int).take(pat.len() as int)[i as int] == s@[p + i]);
                }
            }
            return false;
        }
        i = i + 1;
    }
    proof {
        assert(s@.skip(p as int).take(pat.len() as int) =~= pat@);
    }
    true
}

/// Executable form of [`replace_str`].
pub fn replace_chars(s: &Vec<char>, pat: &Vec<char>, rep: &Vec<char>) -> (r: Vec<char>)
    requires
        pat.len() > 0,
    ensures
        r@ == replace_str(s@, pat@, rep@),
{
    let mut out: Vec<char> = Vec::new();
    let mut p: usize = 0;
    proof {
        assert(s@.skip(0) =~= s@);
    }
    while p < s.len()
        invariant
            p <= s.len(),
            pat.len() > 0,
            out@ + replace_str(s@.skip(p as int), pat@, rep@) == replace_str(s@, pat@, rep@),
        decreases s.len() - p,
    {
        let ghost before = out@;
        let ghost rest = s@.skip(p as int);
        if starts_with_at(s, p, pat) {
            extend_chars(&mut out, rep);
            proof {
                assert(rest.skip(pat.len() as int) =~= s@.skip(p + pat.len()));
                assert(before + replace_str(rest, pat@, rep@) =~= out@ + replace_str(
                    s@.skip(p + pat.len()),
                    pat@,
                    rep@,
                ));
            }
            p = p + pat.len();
        } else {
            out.push(s[p]);
            proof {
                assert(rest.drop_first() =~= s@.skip(p + 1));
                assert(rest[0] == s@[p as int]);
                assert(before + replace_str(rest, pat@, rep@) =~= out@ + replace_str(
                    s@.skip(p + 1),
                    pat@,
                    rep@,
                ));
            }
            p = p + 1;
        }
    }
    proof {
        assert(s@.skip(p as int).len() == 0);
        assert(out@ + replace_str(s@.skip(p as int), pat@, rep@) =~= out@);
    }
    out
}

} // verus!
