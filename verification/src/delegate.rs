//! Batch reads through `op inject`: each reference is framed by a pair of
//! numbered sentinel lines, the framed template is handed to `op inject`, and
//! its output is split back into one value per reference.
use vstd::prelude::*;

use crate::text::{
    chars_of, chars_seq_view, dec, extend_chars, join_lines, join_lines_exec, lemma_dec_digits,
    lemma_join_lines_of, lemma_lines_concat, lemma_lines_single, lines_exec, lines_of,
    push_decimal, starts_with, starts_with_exec, string_of, strings_of, strings_view,
};

verus! {

/// `--OPFAST:`
pub open spec fn sentinel_head() -> Seq<char> {
    seq!['-', '-', 'O', 'P', 'F', 'A', 'S', 'T', ':']
}

/// What every sentinel line of a batch with this tag begins with:
/// `--OPFAST:<tag>:`.
pub open spec fn batch_prefix(tag: nat) -> Seq<char> {
    sentinel_head() + dec(tag) + seq![':']
}

/// The sentinel line `--OPFAST:<tag>:BEGIN:<index>--` or
/// `--OPFAST:<tag>:END:<index>--`.
pub open spec fn sentinel_line(tag: nat, index: nat, end: bool) -> Seq<char> {
    batch_prefix(tag) + (if end {
        seq!['E', 'N', 'D']
    } else {
        seq!['B', 'E', 'G', 'I', 'N']
    }) + seq![':'] + dec(index) + seq!['-', '-']
}

/// One framed section: the begin sentinel, the body, the end sentinel, each
/// on a line of its own.
pub open spec fn batch_section(tag: nat, index: nat, body: Seq<char>) -> Seq<char> {
    sentinel_line(tag, index, false) + seq!['\n'] + body + seq!['\n'] + sentinel_line(
        tag,
        index,
        true,
    ) + seq!['\n']
}

/// The sections of all bodies, numbered from 0, one after the other. With the
/// references as bodies this is the template handed to `op inject`; with the
/// secret values as bodies it is what `op inject` answers.
pub open spec fn batch_text(tag: nat, bodies: Seq<Seq<char>>) -> Seq<char>
    decreases bodies.len(),
{
    if bodies.len() == 0 {
        Seq::empty()
    } else {
        batch_text(tag, bodies.drop_last()) + batch_section(
            tag,
            (bodies.len() - 1) as nat,
            bodies.last(),
        )
    }
}

/// Why the output of `op inject` was refused.
#[derive(Clone, Copy, PartialEq, Eq, Debug)]
pub enum BatchError {
    /// A line outside any section that is not the next begin sentinel.
    UnexpectedContent,
    /// A line inside a section that begins like a sentinel of this batch but
    /// is not the section's end sentinel.
    MisplacedSentinel,
    /// The output ended inside a section.
    UnterminatedSection,
    /// The number of sections differs from the number of references.
    SectionCountMismatch { found: usize, expected: usize },
}

/// The parser's state between lines: the values read so far and, inside a
/// section, the lines of the section so far.
#[verifier::ext_equal]
pub struct BatchState {
    pub values: Seq<Seq<char>>,
    pub current: Option<Seq<Seq<char>>>,
}

pub open spec fn batch_start() -> BatchState {
    BatchState { values: Seq::empty(), current: None }
}

/// One line of output read in state `st`.
pub open spec fn batch_step(st: BatchState, line: Seq<char>, tag: nat) -> Result<
    BatchState,
    BatchError,
> {
    match st.current {
        None => {
            if line == sentinel_line(tag, st.values.len(), false) {
                Ok(BatchState { values: st.values, current: Some(Seq::empty()) })
            } else {
                Err(BatchError::UnexpectedContent)
            }
        },
        Some(ls) => {
            if line == sentinel_line(tag, st.values.len(), true) {
                Ok(BatchState { values: st.values.push(join_lines(ls)), current: None })
            } else if starts_with(line, batch_prefix(tag)) {
                Err(BatchError::MisplacedSentinel)
            } else {
                Ok(BatchState { values: st.values, current: Some(ls.push(line)) })
            }
        },
    }
}

/// The lines read one after the other, from state `st`; the first error stops.
pub open spec fn batch_run(st: Result<BatchState, BatchError>, lines: Seq<Seq<char>>, tag: nat) -> Result<
    BatchState,
    BatchError,
>
    decreases lines.len(),
{
    if lines.len() == 0 {
        st
    } else {
        match st {
            Err(e) => Err(e),
            Ok(s) => batch_run(batch_step(s, lines[0], tag), lines.drop_first(), tag),
        }
    }
}

/// What parsing the output of `op inject` yields: the value of each section,
/// or the first reason to refuse the output.
pub open spec fn batch_result(output: Seq<char>, expected: nat, tag: nat) -> Result<
    Seq<Seq<char>>,
    BatchError,
> {
    match batch_run(Ok(batch_start()), lines_of(output), tag) {
        Err(e) => Err(e),
        Ok(st) => {
            if st.current is Some {
                Err(BatchError::UnterminatedSection)
            } else if st.values.len() != expected {
                Err(
                    BatchError::SectionCountMismatch {
                        found: st.values.len() as usize,
                        expected: expected as usize,
                    },
                )
            } else {
                Ok(st.values)
            }
        },
    }
}

/// Appends the sentinel line for `tag`, `index` and `end` to `out`.
fn push_sentinel(out: &mut Vec<char>, tag: u32, index: usize, end: bool)
    ensures
        final(out)@ == old(out)@ + sentinel_line(tag as nat, index as nat, end),
{
    push_sentinel_prefix(out, tag);
    if end {
        out.push('E');
        out.push('N');
        out.push('D');
    } else {
        out.push('B');
        out.push('E');
        out.push('G');
        out.push('I');
        out.push('N');
    }
    out.push(':');
    push_decimal(out, index as u64);
    out.push('-');
    out.push('-');
    proof {
        assert(out@ =~= old(out)@ + sentinel_line(tag as nat, index as nat, end));
    }
}

/// The sentinel line `--OPFAST:<tag>:BEGIN:<index>--` (or `END` when `end`).
pub fn sentinel(tag: u32, index: usize, end: bool) -> (s: String)
    ensures
        s@ == sentinel_line(tag as nat, index as nat, end),
{
    let mut out: Vec<char> = Vec::new();
    push_sentinel(&mut out, tag, index, end);
    string_of(&out)
}

/// The template handed to `op inject`: each reference on a line of its own,
/// between its numbered begin and end sentinels.
pub fn build_batch_template(references: &[&str], tag: u32) -> (template: String)
    ensures
        template@ == batch_text(tag as nat, references@.map_values(|r: &str| r@)),
{
    let ghost refs = references@.map_values(|r: &str| r@);
    let mut out: Vec<char> = Vec::new();
    let mut i: usize = 0;
    while i < references.len()
        invariant
            i <= references.len(),
            refs == references@.map_values(|r: &str| r@),
            out@ == batch_text(tag as nat, refs.take(i as int)),
        decreases references.len() - i,
    {
        let ghost before = out@;
        push_sentinel(&mut out, tag, i, false);
        out.push('\n');
        let r = chars_of(references[i]);
        extend_chars(&mut out, &r);
        out.push('\n');
        push_sentinel(&mut out, tag, i, true);
        out.push('\n');
        proof {
            assert(refs.take(i + 1).drop_last() =~= refs.take(i as int));
            assert(refs.take(i + 1).last() == refs[i as int]);
            assert(out@ =~= before + batch_section(tag as nat, i as nat, refs[i as int]));
        }
        i = i + 1;
    }
    proof {
        assert(refs.take(references.len() as int) =~= refs);
    }
    string_of(&out)
}

/// The references paired, in order, with the values read for them; pairs
/// are formed as far as both lists go.
pub fn pair_values(references: &[&str], values: &Vec<String>) -> (r: Vec<(String, String)>)
    ensures
        r.len() == if references.len() <= values.len() {
            references.len()
        } else {
            values.len()
        },
        forall|i: int|
            0 <= i < r.len() ==> #[trigger] r@[i].0@ == references@[i]@ && r@[i].1@
                == values@[i]@,
{
    let mut out: Vec<(String, String)> = Vec::new();
    let mut i: usize = 0;
    while i < references.len() && i < values.len()
        invariant
            i <= references.len(),
            i <= values.len(),
            out.len() == i,
            forall|j: int|
                0 <= j < i ==> #[trigger] out@[j].0@ == references@[j]@ && out@[j].1@
                    == values@[j]@,
        decreases references.len() - i,
    {
        let name = string_of(&chars_of(references[i]));
        let value = values[i].clone();
        let ghost before = out@;
        out.push((name, value));
        proof {
            assert(out@ =~= before.push((name, value)));
        }
        i = i + 1;
    }
    out
}

/// Splits the output of `op inject` for a template of `expected` references
/// (see [`build_batch_template`]) into the value of each reference, in order.
/// A section's value is its lines joined by `\n`. The output is refused if a
/// line stands outside the sections, if a section holds a sentinel-like line
/// of this tag, if the last section is not closed, or if the number of
/// sections is not `expected`.
///
/// So the output that `op inject` gives for clean values (the batch text
/// with each value in place of its reference) is read back as exactly those
/// values; and whatever is accepted has `expected` values, with every line
/// that starts like a sentinel of this tag being one.
pub fn parse_batch_output(output: &str, expected: usize, tag: u32) -> (r: Result<
    Vec<String>,
    BatchError,
>)
    ensures
        match (r, batch_result(output@, expected as nat, tag as nat)) {
            (Ok(v), Ok(w)) => strings_view(v@) == w,
            (Err(e), Err(f)) => e == f,
            _ => false,
        },
        forall|values: Seq<Seq<char>>|
            #![trigger batch_text(tag as nat, values)]
            output@ == batch_text(tag as nat, values) && values.len() == expected && (forall|i: int|
                0 <= i < values.len() ==> clean_value(#[trigger] values[i], tag as nat)) ==> (r matches Ok(
                v) && strings_view(v@) == values),
        r matches Ok(v) ==> v.len() == expected && forall|j: int|
            0 <= j < lines_of(output@).len() && starts_with(
                #[trigger] lines_of(output@)[j],
                batch_prefix(tag as nat),
            ) ==> is_sentinel_line(lines_of(output@)[j], tag as nat),
{
    let r = run_batch_parser(output, expected, tag);
    proof {
        assert forall|values: Seq<Seq<char>>|
            #![trigger batch_text(tag as nat, values)]
            output@ == batch_text(tag as nat, values) && values.len() == expected && (forall|i: int|
                0 <= i < values.len() ==> clean_value(#[trigger] values[i], tag as nat)) implies (r matches Ok(
                v) && strings_view(v@) == values) by {
            lemma_batch_round_trip(tag, values);
        }
        if r is Ok {
            lemma_batch_fail_closed(output@, expected as nat, tag as nat);
            assert(strings_view(r->Ok_0@).len() == r->Ok_0@.len());
        }
    }
    r
}

/// The parser of [`parse_batch_output`], stated by [`batch_result`].
fn run_batch_parser(output: &str, expected: usize, tag: u32) -> (r: Result<Vec<String>, BatchError>)
    ensures
        match (r, batch_result(output@, expected as nat, tag as nat)) {
            (Ok(v), Ok(w)) => strings_view(v@) == w,
            (Err(e), Err(f)) => e == f,
            _ => false,
        },
{
    let s = chars_of(output);
    let lines = lines_exec(&s);
    let ghost ls = chars_seq_view(lines@);
    let mut values: Vec<Vec<char>> = Vec::new();
    let mut current: Option<Vec<Vec<char>>> = None;
    let mut prefix: Vec<char> = Vec::new();
    push_sentinel_prefix(&mut prefix, tag);
    let mut i: usize = 0;
    proof {
        assert(ls.skip(0) =~= ls);
        assert(state_view(values@, current) =~= batch_start());
    }
    while i < lines.len()
        invariant
            i <= lines.len(),
            ls == chars_seq_view(lines@),
            ls == lines_of(output@),
            prefix@ == batch_prefix(tag as nat),
            batch_run(Ok(batch_start()), ls, tag as nat) == batch_run(
                Ok(state_view(values@, current)),
                ls.skip(i as int),
                tag as nat,
            ),
        decreases lines.len() - i,
    {
        let ghost st = state_view(values@, current);
        proof {
            assert(ls.skip(i as int)[0] == lines@[i as int]@);
            assert(ls.skip(i as int).drop_first() =~= ls.skip(i + 1));
        }
        let line = &lines[i];
        let mut sent: Vec<char> = Vec::new();
        let in_section = current.is_some();
        push_sentinel(&mut sent, tag, values.len(), in_section);
        let is_sentinel = crate::text::chars_eq(line, &sent);
        match current {
            None => {
                if is_sentinel {
                    current = Some(Vec::new());
                    proof {
                        assert(state_view(values@, current) =~= BatchState {
                            values: st.values,
                            current: Some(Seq::empty()),
                        });
                    }
                } else {
                    proof {
                        lemma_batch_run_err(BatchError::UnexpectedContent, ls.skip(i + 1), tag as nat);
                    }
                    return Err(BatchError::UnexpectedContent);
                }
            },
            Some(mut acc) => {
                if is_sentinel {
                    let v = join_lines_exec(&acc);
                    let ghost vb = values@;
                    values.push(v);
                    current = None;
                    proof {
                        assert(chars_seq_view(values@) =~= chars_seq_view(vb).push(v@));
                    }
                } else if starts_with_exec(line, &prefix) {
                    proof {
                        lemma_batch_run_err(BatchError::MisplacedSentinel, ls.skip(i + 1), tag as nat);
                    }
                    return Err(BatchError::MisplacedSentinel);
                } else {
                    let ghost ab = acc@;
                    acc.push(crate::text::copy_vec(line));
                    proof {
                        assert(chars_seq_view(acc@) =~= chars_seq_view(ab).push(line@));
                    }
                    current = Some(acc);
                }
            },
        }
        i = i + 1;
    }
    proof {
        assert(ls.skip(i as int).len() == 0);
    }
    if current.is_some() {
        return Err(BatchError::UnterminatedSection);
    }
    if values.len() != expected {
        return Err(BatchError::SectionCountMismatch { found: values.len(), expected });
    }
    Ok(strings_of(&values))
}

/// Once refused, the output stays refused.
pub proof fn lemma_batch_run_err(e: BatchError, lines: Seq<Seq<char>>, tag: nat)
    ensures
        batch_run(Err(e), lines, tag) == Err::<BatchState, BatchError>(e),
    decreases lines.len(),
{
}

/// The parser state that the executable variables stand for.
pub open spec fn state_view(values: Seq<Vec<char>>, current: Option<Vec<Vec<char>>>) -> BatchState {
    BatchState {
        values: chars_seq_view(values),
        current: match current {
            Some(c) => Some(chars_seq_view(c@)),
            None => None,
        },
    }
}

/// Appends `--OPFAST:<tag>:` to `out`.
fn push_sentinel_prefix(out: &mut Vec<char>, tag: u32)
    ensures
        final(out)@ == old(out)@ + batch_prefix(tag as nat),
{
    let head = ['-', '-', 'O', 'P', 'F', 'A', 'S', 'T', ':'];
    let mut i: usize = 0;
    while i < 9
        invariant
            i <= 9,
            head@ == sentinel_head(),
            out@ == old(out)@ + sentinel_head().take(i as int),
        decreases 9 - i,
    {
        out.push(head[i]);
        proof {
            assert(sentinel_head().take(i + 1) =~= sentinel_head().take(i as int).push(head@[i as int]));
        }
        i = i + 1;
    }
    push_decimal(out, tag as u64);
    out.push(':');
    proof {
        assert(sentinel_head().take(9) =~= sentinel_head());
        assert(out@ =~= old(out)@ + batch_prefix(tag as nat));
    }
}


/// A value that survives the round trip through a batch: it holds no carriage
/// return, and none of its lines begins like a sentinel of this batch.
pub open spec fn clean_value(v: Seq<char>, tag: nat) -> bool {
    &&& forall|j: int| 0 <= j < v.len() ==> v[j] != '\r'
    &&& forall|j: int|
        0 <= j < lines_of(v + seq!['\n']).len() ==> !starts_with(
            #[trigger] lines_of(v + seq!['\n'])[j],
            batch_prefix(tag),
        )
}

/// Reading lines in two parts is reading them all.
pub proof fn lemma_batch_run_concat(
    st: Result<BatchState, BatchError>,
    a: Seq<Seq<char>>,
    b: Seq<Seq<char>>,
    tag: nat,
)
    ensures
        batch_run(st, a + b, tag) == batch_run(batch_run(st, a, tag), b, tag),
    decreases a.len(),
{
    if a.len() == 0 {
        assert(a + b =~= b);
    } else {
        match st {
            Err(e) => {
                lemma_batch_run_err(e, a + b, tag);
                lemma_batch_run_err(e, a, tag);
                lemma_batch_run_err(e, b, tag);
            },
            Ok(s0) => {
                assert((a + b)[0] == a[0]);
                assert((a + b).drop_first() =~= a.drop_first() + b);
                lemma_batch_run_concat(batch_step(s0, a[0], tag), a.drop_first(), b, tag);
            },
        }
    }
}

/// A sentinel line begins with its batch prefix and holds no line break.
pub proof fn lemma_sentinel_shape(tag: nat, index: nat, end: bool)
    ensures
        starts_with(sentinel_line(tag, index, end), batch_prefix(tag)),
        forall|j: int|
            0 <= j < sentinel_line(tag, index, end).len() ==> sentinel_line(tag, index, end)[j]
                != '\n' && sentinel_line(tag, index, end)[j] != '\r',
{
    let l = sentinel_line(tag, index, end);
    let p = batch_prefix(tag);
    assert(l.take(p.len() as int) =~= p);
    lemma_dec_digits(tag);
    lemma_dec_digits(index);
    let mid = if end {
        seq!['E', 'N', 'D']
    } else {
        seq!['B', 'E', 'G', 'I', 'N']
    };
    let d1 = dec(tag);
    let d2 = dec(index);
    assert forall|j: int| 0 <= j < l.len() implies l[j] != '\n' && l[j] != '\r' by {
        let h = sentinel_head();
        if j < 9 {
            assert(l[j] == h[j]);
        } else if j < 9 + d1.len() {
            assert(l[j] == d1[j - 9]);
        } else if j == 9 + d1.len() {
            assert(l[j] == ':');
        } else if j < 10 + d1.len() + mid.len() {
            assert(l[j] == mid[j - 10 - d1.len()]);
        } else if j == 10 + d1.len() + mid.len() {
            assert(l[j] == ':');
        } else if j < 11 + d1.len() + mid.len() + d2.len() {
            assert(l[j] == d2[j - 11 - d1.len() - mid.len()]);
        } else {
            assert(l[j] == '-');
        }
    }
}

/// Inside a section, lines that do not look like sentinels are collected
/// until the end sentinel closes the section.
pub proof fn lemma_batch_section_body(
    values: Seq<Seq<char>>,
    acc: Seq<Seq<char>>,
    body: Seq<Seq<char>>,
    tag: nat,
)
    requires
        forall|j: int| 0 <= j < body.len() ==> !starts_with(#[trigger] body[j], batch_prefix(tag)),
    ensures
        batch_run(
            Ok(BatchState { values: values, current: Some(acc) }),
            body + seq![sentinel_line(tag, values.len(), true)],
            tag,
        ) == Ok::<BatchState, BatchError>(
            BatchState { values: values.push(join_lines(acc + body)), current: None },
        ),
    decreases body.len(),
{
    let end = sentinel_line(tag, values.len(), true);
    let st = BatchState { values: values, current: Some(acc) };
    lemma_sentinel_shape(tag, values.len(), true);
    if body.len() == 0 {
        assert(body + seq![end] =~= seq![end]);
        assert(acc + body =~= acc);
        assert(seq![end].drop_first().len() == 0);
        assert(batch_step(st, end, tag) == Ok::<BatchState, BatchError>(
            BatchState { values: values.push(join_lines(acc)), current: None },
        ));
        assert(batch_run(Ok(st), seq![end], tag) == batch_run(
            batch_step(st, end, tag),
            seq![end].drop_first(),
            tag,
        ));
    } else {
        let l = body[0];
        assert((body + seq![end])[0] == l);
        assert((body + seq![end]).drop_first() =~= body.drop_first() + seq![end]);
        assert(l != end);
        assert(!starts_with(body[0], batch_prefix(tag)));
        assert(batch_step(st, l, tag) == Ok::<BatchState, BatchError>(
            BatchState { values: values, current: Some(acc.push(l)) },
        ));
        assert(batch_run(Ok(st), body + seq![end], tag) == batch_run(
            batch_step(st, l, tag),
            body.drop_first() + seq![end],
            tag,
        ));
        assert forall|j: int|
            0 <= j < body.drop_first().len() implies !starts_with(
            #[trigger] body.drop_first()[j],
            batch_prefix(tag),
        ) by {
            assert(body.drop_first()[j] == body[j + 1]);
        }
        lemma_batch_section_body(values, acc.push(l), body.drop_first(), tag);
        assert(acc.push(l) + body.drop_first() =~= acc + body);
    }
}

/// Batch text is empty or ends with a line feed.
pub proof fn lemma_batch_text_ends(tag: nat, bodies: Seq<Seq<char>>)
    ensures
        batch_text(tag, bodies).len() == 0 || batch_text(tag, bodies).last() == '\n',
{
}

/// **Round trip.** When `op inject` answers a batch template with the value of
/// each reference in its place, parsing the answer gives back exactly those
/// values, in order, provided no value holds a carriage return or a line that
/// begins like a sentinel of the batch (`--OPFAST:<tag>:`).
pub proof fn lemma_batch_round_trip(tag: u32, values: Seq<Seq<char>>)
    requires
        forall|i: int| 0 <= i < values.len() ==> clean_value(#[trigger] values[i], tag as nat),
    ensures
        batch_result(batch_text(tag as nat, values), values.len(), tag as nat) == Ok::<
            Seq<Seq<char>>,
            BatchError,
        >(values),
{
    lemma_batch_parse_all(tag as nat, values);
}

/// All sections of clean values are read back as those values.
pub proof fn lemma_batch_parse_all(tag: nat, values: Seq<Seq<char>>)
    requires
        forall|i: int| 0 <= i < values.len() ==> clean_value(#[trigger] values[i], tag),
    ensures
        batch_run(Ok(batch_start()), lines_of(batch_text(tag, values)), tag) == Ok::<
            BatchState,
            BatchError,
        >(BatchState { values: values, current: None }),
    decreases values.len(),
{
    if values.len() == 0 {
        assert(lines_of(batch_text(tag, values)) =~= Seq::<Seq<char>>::empty());
        assert(batch_start() =~= BatchState { values: values, current: None });
    } else {
        let pre = values.drop_last();
        let v = values.last();
        let n = pre.len();
        assert forall|i: int| 0 <= i < pre.len() implies clean_value(#[trigger] pre[i], tag) by {
            assert(pre[i] == values[i]);
        }
        lemma_batch_parse_all(tag, pre);
        assert(clean_value(values[values.len() - 1], tag));
        let b = sentinel_line(tag, n, false);
        let e = sentinel_line(tag, n, true);
        lemma_sentinel_shape(tag, n, false);
        lemma_sentinel_shape(tag, n, true);
        let tb = batch_text(tag, pre);
        let sec = batch_section(tag, n, v);
        lemma_batch_text_ends(tag, pre);
        lemma_lines_concat(tb, sec);
        // the section's lines
        let bl = b + seq!['\n'];
        let vl = v + seq!['\n'];
        let el = e + seq!['\n'];
        assert(sec =~= bl + (vl + el));
        lemma_lines_concat(bl, vl + el);
        lemma_lines_concat(vl, el);
        lemma_lines_single(b);
        lemma_lines_single(e);
        let lv = lines_of(vl);
        assert(lines_of(sec) =~= seq![b] + (lv + seq![e]));
        // reading them
        lemma_batch_run_concat(Ok(batch_start()), lines_of(tb), lines_of(sec), tag);
        let st = BatchState { values: pre, current: None };
        assert(batch_step(st, b, tag) == Ok::<BatchState, BatchError>(
            BatchState { values: pre, current: Some(Seq::empty()) },
        ));
        assert((seq![b] + (lv + seq![e]))[0] == b);
        assert((seq![b] + (lv + seq![e])).drop_first() =~= lv + seq![e]);
        lemma_batch_section_body(pre, Seq::empty(), lv, tag);
        assert(Seq::<Seq<char>>::empty() + lv =~= lv);
        lemma_join_lines_of(v);
        assert(pre.push(v) =~= values);
    }
}


/// Whether a line is one of the batch's sentinel lines.
pub open spec fn is_sentinel_line(line: Seq<char>, tag: nat) -> bool {
    exists|i: nat, end: bool| line == #[trigger] sentinel_line(tag, i, end)
}

/// Reading lines without error only ever accepts lines that begin like a
/// sentinel when they are sentinels.
pub proof fn lemma_batch_run_sentinels(st: BatchState, lines: Seq<Seq<char>>, tag: nat)
    requires
        batch_run(Ok(st), lines, tag) is Ok,
    ensures
        forall|j: int|
            0 <= j < lines.len() && starts_with(#[trigger] lines[j], batch_prefix(tag))
                ==> is_sentinel_line(lines[j], tag),
    decreases lines.len(),
{
    if lines.len() > 0 {
        let l = lines[0];
        match batch_step(st, l, tag) {
            Err(e) => {
                lemma_batch_run_err(e, lines.drop_first(), tag);
            },
            Ok(next) => {
                lemma_batch_run_sentinels(next, lines.drop_first(), tag);
                if starts_with(l, batch_prefix(tag)) {
                    match st.current {
                        None => {
                            assert(l == sentinel_line(tag, st.values.len(), false));
                        },
                        Some(_) => {
                            assert(l == sentinel_line(tag, st.values.len(), true));
                        },
                    }
                }
                assert forall|j: int|
                    0 <= j < lines.len() && starts_with(#[trigger] lines[j], batch_prefix(tag))
                        implies is_sentinel_line(lines[j], tag) by {
                    if j > 0 {
                        assert(lines[j] == lines.drop_first()[j - 1]);
                    }
                }
            },
        }
    }
}

/// **Fail closed.** Output that is accepted has exactly as many values as
/// there were references, and every line of it that begins like a sentinel
/// of the batch (`--OPFAST:<tag>:`) is one of the batch's sentinel lines:
/// no value can carry a forged marker.
pub proof fn lemma_batch_fail_closed(output: Seq<char>, expected: nat, tag: nat)
    requires
        batch_result(output, expected, tag) is Ok,
    ensures
        batch_result(output, expected, tag)->Ok_0.len() == expected,
        forall|j: int|
            0 <= j < lines_of(output).len() && starts_with(
                #[trigger] lines_of(output)[j],
                batch_prefix(tag),
            ) ==> is_sentinel_line(lines_of(output)[j], tag),
{
    lemma_batch_run_sentinels(batch_start(), lines_of(output), tag);
}

} // verus!
