//! The decisions of the `run` command: which environment the child process
//! gets, and what its environment values and arguments become once variables
//! are expanded and secret references replaced.
use vstd::prelude::*;

use crate::template::{
    chars_table, chars_table_view, lookup, resolve_variables, resolved, substitute_references,
    substituted, table_view,
};
use crate::text::{chars_eq, string_of};

verus! {

/// The value of the last entry for `key` in `t`: the one that wins when the
/// entries are applied in order.
pub open spec fn last_value(t: Seq<(Seq<char>, Seq<char>)>, key: Seq<char>) -> Option<Seq<char>>
    decreases t.len(),
{
    if t.len() == 0 {
        None
    } else if t.last().0 == key {
        Some(t.last().1)
    } else {
        last_value(t.drop_last(), key)
    }
}

/// No key occurs twice in `t`.
pub open spec fn keys_unique(t: Seq<(Seq<char>, Seq<char>)>) -> bool {
    forall|i: int, j: int| 0 <= i < j < t.len() ==> #[trigger] t[i].0 != #[trigger] t[j].0
}

/// In a table without repeated keys, an entry is what a lookup of its key
/// finds.
pub proof fn lemma_lookup_unique(t: Seq<(Seq<char>, Seq<char>)>, j: int)
    requires
        keys_unique(t),
        0 <= j < t.len(),
    ensures
        lookup(t, t[j].0) == Some(t[j].1),
    decreases j,
{
    if j > 0 {
        let rest = t.drop_first();
        assert(t[0].0 != t[j].0);
        assert(rest[j - 1] == t[j]);
        assert forall|a: int, b: int| 0 <= a < b < rest.len() implies #[trigger] rest[a].0
            != #[trigger] rest[b].0 by {
            assert(rest[a] == t[a + 1] && rest[b] == t[b + 1]);
        }
        lemma_lookup_unique(rest, j - 1);
    }
}

/// A lookup of a key that no entry has finds nothing.
pub proof fn lemma_lookup_absent(t: Seq<(Seq<char>, Seq<char>)>, key: Seq<char>)
    requires
        forall|i: int| 0 <= i < t.len() ==> #[trigger] t[i].0 != key,
    ensures
        lookup(t, key) is None,
    decreases t.len(),
{
    if t.len() > 0 {
        let rest = t.drop_first();
        assert forall|i: int| 0 <= i < rest.len() implies #[trigger] rest[i].0 != key by {
            assert(rest[i] == t[i + 1]);
        }
        lemma_lookup_absent(rest, key);
    }
}

/// What a lookup finds in `new`, which is `old` with the entry at `j`
/// replaced by `(key, value)` (or, for `j == old.len()`, appended): the new
/// value for `key`, what `old` held for any other key.
proof fn lemma_lookup_after_set(
    old: Seq<(Seq<char>, Seq<char>)>,
    new: Seq<(Seq<char>, Seq<char>)>,
    j: int,
    key: Seq<char>,
    value: Seq<char>,
    k: Seq<char>,
)
    requires
        keys_unique(old),
        keys_unique(new),
        0 <= j < new.len(),
        new[j] == (key, value),
        new.len() == old.len() || new.len() == old.len() + 1,
        new.len() == old.len() + 1 ==> j == old.len(),
        forall|i: int| 0 <= i < old.len() && i != j ==> #[trigger] new[i] == old[i],
        j < old.len() ==> old[j].0 == key,
    ensures
        lookup(new, k) == (if k == key {
            Some(value)
        } else {
            lookup(old, k)
        }),
{
    if k == key {
        lemma_lookup_unique(new, j);
    } else if exists|i: int| 0 <= i < new.len() && #[trigger] new[i].0 == k {
        let i = choose|i: int| 0 <= i < new.len() && #[trigger] new[i].0 == k;
        assert(i != j);
        assert(i < old.len());
        assert(new[i] == old[i]);
        lemma_lookup_unique(new, i);
        lemma_lookup_unique(old, i);
    } else {
        assert forall|i: int| 0 <= i < old.len() implies #[trigger] old[i].0 != k by {
            if i != j {
                assert(new[i] == old[i]);
            }
        }
        lemma_lookup_absent(new, k);
        lemma_lookup_absent(old, k);
    }
}

/// Sets `key` to `value` in a table without repeated keys: the entry of
/// `key` is replaced where there is one, else the pair is appended.
fn set_entry(table: &mut Vec<(Vec<char>, Vec<char>)>, key: Vec<char>, value: Vec<char>)
    requires
        keys_unique(chars_table_view(old(table)@)),
    ensures
        keys_unique(chars_table_view(final(table)@)),
        forall|k: Seq<char>|
            #[trigger] lookup(chars_table_view(final(table)@), k) == (if k == key@ {
                Some(value@)
            } else {
                lookup(chars_table_view(old(table)@), k)
            }),
{
    let ghost old_view = chars_table_view(table@);
    let mut j: usize = 0;
    while j < table.len()
        invariant
            j <= table.len(),
            old_view == chars_table_view(table@),
            keys_unique(old_view),
            forall|i: int| 0 <= i < j ==> #[trigger] old_view[i].0 != key@,
        ensures
            j <= table.len(),
            old_view == chars_table_view(table@),
            forall|i: int| 0 <= i < j ==> #[trigger] old_view[i].0 != key@,
            j < table.len() ==> old_view[j as int].0 == key@,
        decreases table.len() - j,
    {
        if chars_eq(&table[j].0, &key) {
            break;
        }
        j = j + 1;
    }
    let ghost kv = key@;
    let ghost vv = value@;
    if j < table.len() {
        proof {
            assert(old_view[j as int].0 == kv);
        }
        table.set(j, (key, value));
    } else {
        table.push((key, value));
    }
    proof {
        let new_view = chars_table_view(table@);
        assert(new_view[j as int] == (kv, vv));
        assert forall|i: int| 0 <= i < old_view.len() && i != j implies #[trigger] new_view[i]
            == old_view[i] by {}
        assert forall|a: int, b: int| 0 <= a < b < new_view.len() implies #[trigger] new_view[a].0
            != #[trigger] new_view[b].0 by {
            if a != j && b != j {
                assert(new_view[a] == old_view[a] && new_view[b] == old_view[b]);
            } else if a == j {
                assert(new_view[b] == old_view[b]);
                if j < old_view.len() {
                    assert(old_view[a].0 == kv);
                }
            } else {
                assert(new_view[a] == old_view[a]);
                if j < old_view.len() {
                    assert(old_view[b].0 == kv);
                }
            }
        }
        assert forall|k: Seq<char>|
            #[trigger] lookup(new_view, k) == (if k == kv {
                Some(vv)
            } else {
                lookup(old_view, k)
            }) by {
            lemma_lookup_after_set(old_view, new_view, j as int, kv, vv, k);
        }
    }
}

/// Applies the entries of `t` in order to `out`.
fn apply_entries(out: &mut Vec<(Vec<char>, Vec<char>)>, t: &Vec<(Vec<char>, Vec<char>)>, Ghost(
    before,
): Ghost<Seq<(Seq<char>, Seq<char>)>>)
    requires
        keys_unique(chars_table_view(old(out)@)),
        forall|k: Seq<char>| #[trigger]
            lookup(chars_table_view(old(out)@), k) == last_value(before, k),
    ensures
        keys_unique(chars_table_view(final(out)@)),
        forall|k: Seq<char>| #[trigger]
            lookup(chars_table_view(final(out)@), k) == last_value(
                before + chars_table_view(t@),
                k,
            ),
{
    let ghost tv = chars_table_view(t@);
    let mut i: usize = 0;
    proof {
        assert(before + tv.take(0) =~= before);
    }
    while i < t.len()
        invariant
            i <= t.len(),
            tv == chars_table_view(t@),
            keys_unique(chars_table_view(out@)),
            forall|k: Seq<char>| #[trigger]
                lookup(chars_table_view(out@), k) == last_value(before + tv.take(i as int), k),
        decreases t.len() - i,
    {
        let ghost prev = chars_table_view(out@);
        let key = crate::text::copy_vec(&t[i].0);
        let value = crate::text::copy_vec(&t[i].1);
        set_entry(out, key, value);
        proof {
            let longer = before + tv.take(i + 1);
            assert(longer =~= (before + tv.take(i as int)).push(tv[i as int]));
            assert(longer.drop_last() =~= before + tv.take(i as int));
            assert(tv[i as int] == (key@, value@));
            assert forall|k: Seq<char>| #[trigger]
                lookup(chars_table_view(out@), k) == last_value(longer, k) by {}
        }
        i = i + 1;
    }
    proof {
        assert(tv.take(t.len() as int) =~= tv);
    }
}

/// A table of character vectors as string pairs.
fn strings_table(t: &Vec<(Vec<char>, Vec<char>)>) -> (r: Vec<(String, String)>)
    ensures
        table_view(r@) == chars_table_view(t@),
{
    let mut out: Vec<(String, String)> = Vec::new();
    let mut i: usize = 0;
    while i < t.len()
        invariant
            i <= t.len(),
            table_view(out@) == chars_table_view(t@).take(i as int),
        decreases t.len() - i,
    {
        let ghost before = out@;
        let e = (string_of(&t[i].0), string_of(&t[i].1));
        out.push(e);
        proof {
            assert(out@ =~= before.push(e));
            assert(table_view(out@) =~= table_view(before).push((e.0@, e.1@)));
            assert(chars_table_view(t@).take(i + 1) =~= chars_table_view(t@).take(i as int).push(
                (t@[i as int].0@, t@[i as int].1@),
            ));
        }
        i = i + 1;
    }
    proof {
        assert(chars_table_view(t@).take(t.len() as int) =~= chars_table_view(t@));
    }
    out
}

/// The environment of the child process: the variables of `base` (the
/// shell's) with those of `overrides` (the environment files', in order)
/// applied on top; for each name the last assignment wins, and each name
/// occurs once.
pub fn merge_environment(base: &Vec<(String, String)>, overrides: &Vec<(String, String)>) -> (r:
    Vec<(String, String)>)
    ensures
        keys_unique(table_view(r@)),
        forall|k: Seq<char>| #[trigger]
            lookup(table_view(r@), k) == last_value(table_view(base@) + table_view(overrides@), k),
{
    let a = chars_table(base);
    let b = chars_table(overrides);
    let mut out: Vec<(Vec<char>, Vec<char>)> = Vec::new();
    proof {
        assert forall|k: Seq<char>| #[trigger]
            lookup(chars_table_view(out@), k) == last_value(Seq::empty(), k) by {
            assert(chars_table_view(out@).len() == 0);
        }
    }
    apply_entries(&mut out, &a, Ghost(Seq::empty()));
    proof {
        assert(Seq::<(Seq<char>, Seq<char>)>::empty() + chars_table_view(a@) =~= chars_table_view(
            a@,
        ));
    }
    apply_entries(&mut out, &b, Ghost(chars_table_view(a@)));
    strings_table(&out)
}

/// **Environment files take precedence.** A variable that the environment
/// files set has their last value, whatever the shell set; any other keeps
/// the shell's value.
pub proof fn lemma_overrides_take_precedence(
    base: Seq<(Seq<char>, Seq<char>)>,
    overrides: Seq<(Seq<char>, Seq<char>)>,
    key: Seq<char>,
)
    ensures
        last_value(base + overrides, key) == (if last_value(overrides, key) is Some {
            last_value(overrides, key)
        } else {
            last_value(base, key)
        }),
    decreases overrides.len(),
{
    if overrides.len() == 0 {
        assert(base + overrides =~= base);
    } else {
        assert((base + overrides).drop_last() =~= base + overrides.drop_last());
        assert((base + overrides).last() == overrides.last());
        lemma_overrides_take_precedence(base, overrides.drop_last(), key);
    }
}

/// `text` with variables expanded from `environment` and then secret
/// references replaced by their values.
pub open spec fn rendered(
    text: Seq<char>,
    environment: Seq<(Seq<char>, Seq<char>)>,
    values: Seq<(Seq<char>, Seq<char>)>,
) -> Seq<char> {
    substituted(resolved(text, environment), values)
}

/// The child's environment variables with each value rendered: variables
/// expanded from `environment` (the process's own), then secret references
/// replaced from `values`. Names and order stay.
pub fn resolve_environment(
    vars: &Vec<(String, String)>,
    environment: &Vec<(String, String)>,
    values: &Vec<(String, String)>,
) -> (r: Vec<(String, String)>)
    ensures
        r.len() == vars.len(),
        forall|i: int|
            0 <= i < vars.len() ==> #[trigger] r@[i].0@ == vars@[i].0@ && r@[i].1@ == rendered(
                vars@[i].1@,
                table_view(environment@),
                table_view(values@),
            ),
{
    let mut out: Vec<(String, String)> = Vec::new();
    let mut i: usize = 0;
    while i < vars.len()
        invariant
            i <= vars.len(),
            out.len() == i,
            forall|j: int|
                0 <= j < i ==> #[trigger] out@[j].0@ == vars@[j].0@ && out@[j].1@ == rendered(
                    vars@[j].1@,
                    table_view(environment@),
                    table_view(values@),
                ),
        decreases vars.len() - i,
    {
        let expanded = resolve_variables(vars[i].1.as_str(), environment);
        let value = substitute_references(expanded.as_str(), values);
        let name = vars[i].0.clone();
        let ghost before = out@;
        out.push((name, value));
        proof {
            assert(out@ =~= before.push((name, value)));
        }
        i = i + 1;
    }
    out
}

/// The command's arguments, each rendered as [`resolve_environment`]
/// renders a value.
pub fn resolve_arguments(
    args: &Vec<String>,
    environment: &Vec<(String, String)>,
    values: &Vec<(String, String)>,
) -> (r: Vec<String>)
    ensures
        r.len() == args.len(),
        forall|i: int|
            0 <= i < args.len() ==> #[trigger] r@[i]@ == rendered(
                args@[i]@,
                table_view(environment@),
                table_view(values@),
            ),
{
    let mut out: Vec<String> = Vec::new();
    let mut i: usize = 0;
    while i < args.len()
        invariant
            i <= args.len(),
            out.len() == i,
            forall|j: int|
                0 <= j < i ==> #[trigger] out@[j]@ == rendered(
                    args@[j]@,
                    table_view(environment@),
                    table_view(values@),
                ),
        decreases args.len() - i,
    {
        let expanded = resolve_variables(args[i].as_str(), environment);
        let value = substitute_references(expanded.as_str(), values);
        let ghost before = out@;
        out.push(value);
        proof {
            assert(out@ =~= before.push(value));
        }
        i = i + 1;
    }
    out
}

} // verus!
