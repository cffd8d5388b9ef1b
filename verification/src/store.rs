//! The store used by the commands: a [`Db`] together with the configuration
//! that decides each secret's time to live.
use vstd::prelude::*;

pub mod db;
pub mod laws;

pub use db::{Db, Meta, StoreError};

use crate::config::{ttl_for, Config};
use crate::text::strings_view;
use crate::time::now_secs;

verus! {

/// Whether a store opened at time `now` collects its garbage first: one time
/// in ten, when the clock's seconds end in zero.
pub open spec fn gc_due(now: u64) -> bool {
    now % 10 == 0
}

/// Makes the operating system's keyring (the Linux kernel's keyutils) the
/// store of keyring entries.
pub fn init() -> (r: Result<(), StoreError>)
    ensures
        r matches Err(e) ==> e is KeyringInit,
{
    match crate::storage::install_keyutils_store() {
        Ok(()) => Ok(()),
        Err(e) => Err(StoreError::KeyringInit(e)),
    }
}

/// **One in ten.** Of any ten consecutive seconds, garbage collection is due
/// in exactly one: the 10% of invocations that the documentation promises.
pub proof fn lemma_gc_one_in_ten(start: u64)
    requires
        start <= u64::MAX - 9,
    ensures
        exists|k: int| 0 <= k < 10 && #[trigger] gc_due((start + k) as u64),
        forall|j: int, k: int|
            0 <= j < 10 && 0 <= k < 10 && #[trigger] gc_due((start + j) as u64) && #[trigger] gc_due(
                (start + k) as u64,
            ) ==> j == k,
{
    let k = (10 - start % 10) % 10;
    assert(((start + k) as u64) % 10 == 0);
    assert(gc_due((start + k) as u64));
}

/// Whether garbage collection is due at time `now`.
pub fn gc_due_at(now: u64) -> (r: bool)
    ensures
        r == gc_due(now),
{
    now % 10 == 0
}

/// The references of `refs` whose flag in `hit` is `keep`, in order.
pub open spec fn selected(refs: Seq<Seq<char>>, hit: Seq<bool>, keep: bool) -> Seq<Seq<char>>
    decreases refs.len(),
{
    if refs.len() == 0 {
        Seq::empty()
    } else {
        let rest = selected(refs.drop_last(), hit.drop_last(), keep);
        if hit.last() == keep {
            rest.push(refs.last())
        } else {
            rest
        }
    }
}

/// The names of found values.
pub open spec fn found_names(found: Seq<(String, String)>) -> Seq<Seq<char>> {
    found.map_values(|e: (String, String)| e.0@)
}

/// What the store held of a list of references.
pub struct Lookup {
    /// The references it held, with their values, in the order asked.
    pub found: Vec<(String, String)>,
    /// The references it did not hold, in the order asked.
    pub missing: Vec<String>,
}

/// Which of the store's answers found a value.
pub open spec fn hits_of(answers: Seq<Option<String>>) -> Seq<bool> {
    answers.map_values(|a: Option<String>| a is Some)
}

/// The values found, in order.
pub open spec fn present_values(answers: Seq<Option<String>>) -> Seq<Seq<char>>
    decreases answers.len(),
{
    if answers.len() == 0 {
        Seq::empty()
    } else {
        let rest = present_values(answers.drop_last());
        match answers.last() {
            Some(v) => rest.push(v@),
            None => rest,
        }
    }
}

/// A found pair `(name, value)` comes from some `references[j]` (with
/// `j < bound`) whose answer was a value equal to `value`.
pub open spec fn pairs_with(
    name: Seq<char>,
    value: Seq<char>,
    references: Seq<String>,
    answers: Seq<Option<String>>,
    bound: int,
) -> bool {
    exists|j: int|
        0 <= j < bound && #[trigger] references[j]@ == name && answers[j] is Some
            && answers[j]->Some_0@ == value
}

/// A missing `name` comes from some `references[j]` (with `j < bound`)
/// whose answer was nothing.
pub open spec fn lacks_with(
    name: Seq<char>,
    references: Seq<String>,
    answers: Seq<Option<String>>,
    bound: int,
) -> bool {
    exists|j: int| 0 <= j < bound && #[trigger] references[j]@ == name && answers[j] is None
}

/// Splits `references` by the store's answer for each, `answers[i]` being
/// the answer for `references[i]`: a reference whose answer is a value goes
/// with that value among the found ones, the others among the missing
/// ones; both keep the order given.
pub fn split_lookups(references: &Vec<String>, answers: Vec<Option<String>>) -> (l: Lookup)
    requires
        answers.len() == references.len(),
    ensures
        found_names(l.found@) == selected(strings_view(references@), hits_of(answers@), true),
        strings_view(l.missing@) == selected(strings_view(references@), hits_of(answers@), false),
        l.found@.map_values(|e: (String, String)| e.1@) == present_values(answers@),
        forall|k: int|
            0 <= k < l.found.len() ==> #[trigger] pairs_with(
                l.found@[k].0@,
                l.found@[k].1@,
                references@,
                answers@,
                references.len() as int,
            ),
        forall|k: int|
            0 <= k < l.missing.len() ==> #[trigger] lacks_with(
                l.missing@[k]@,
                references@,
                answers@,
                references.len() as int,
            ),
{
    let ghost rv = strings_view(references@);
    let ghost av = answers@;
    let ghost hv = hits_of(answers@);
    let mut found: Vec<(String, String)> = Vec::new();
    let mut missing: Vec<String> = Vec::new();
    let mut i: usize = 0;
    while i < references.len()
        invariant
            i <= references.len(),
            answers.len() == references.len(),
            rv == strings_view(references@),
            av == answers@,
            hv == hits_of(av),
            selected(rv.take(i as int), hv.take(i as int), true) == found_names(found@),
            selected(rv.take(i as int), hv.take(i as int), false) == strings_view(missing@),
            found@.map_values(|e: (String, String)| e.1@) == present_values(av.take(i as int)),
            forall|k: int|
                0 <= k < found.len() ==> #[trigger] pairs_with(
                    found@[k].0@,
                    found@[k].1@,
                    references@,
                    av,
                    i as int,
                ),
            forall|k: int|
                0 <= k < missing.len() ==> #[trigger] lacks_with(missing@[k]@, references@, av, i as int),
        decreases references.len() - i,
    {
        let ghost prefix = rv.take(i + 1);
        let ghost hp = hv.take(i + 1);
        proof {
            assert(prefix.drop_last() =~= rv.take(i as int));
            assert(prefix.last() == references@[i as int]@);
            assert(hp.drop_last() =~= hv.take(i as int));
            assert(hp.last() == (av[i as int] is Some));
            assert(av.take(i + 1).drop_last() =~= av.take(i as int));
            assert(av.take(i + 1).last() == av[i as int]);
        }
        match &answers[i] {
            Some(value) => {
                let ghost fb = found@;
                let name = references[i].clone();
                let v = value.clone();
                found.push((name, v));
                proof {
                    assert(found@ =~= fb.push((name, v)));
                    assert forall|k: int| 0 <= k < found.len() implies #[trigger] pairs_with(
                        found@[k].0@,
                        found@[k].1@,
                        references@,
                        av,
                        i + 1,
                    ) by {
                        if k < fb.len() {
                            assert(found@[k] == fb[k]);
                            assert(pairs_with(fb[k].0@, fb[k].1@, references@, av, i as int));
                            let j = choose|j: int|
                                0 <= j < i && #[trigger] references@[j]@ == fb[k].0@ && av[j] is Some
                                    && av[j]->Some_0@ == fb[k].1@;
                            assert(references@[j]@ == found@[k].0@);
                        } else {
                            assert(found@[k] == (name, v));
                            assert(references@[i as int]@ == name@);
                        }
                    }
                    assert forall|k: int| 0 <= k < missing.len() implies #[trigger] lacks_with(
                        missing@[k]@,
                        references@,
                        av,
                        i + 1,
                    ) by {
                        assert(lacks_with(missing@[k]@, references@, av, i as int));
                        let j = choose|j: int|
                            0 <= j < i && #[trigger] references@[j]@ == missing@[k]@ && av[j] is None;
                        assert(references@[j]@ == missing@[k]@);
                    }
                    assert(found_names(found@) =~= found_names(fb).push(name@));
                    assert(found@.map_values(|e: (String, String)| e.1@) =~= fb.map_values(
                        |e: (String, String)| e.1@,
                    ).push(v@));
                    assert(selected(prefix, hp, true) == selected(
                        rv.take(i as int),
                        hv.take(i as int),
                        true,
                    ).push(name@));
                    assert(selected(prefix, hp, false) == selected(
                        rv.take(i as int),
                        hv.take(i as int),
                        false,
                    ));
                }
            },
            None => {
                let ghost mb = missing@;
                let name = references[i].clone();
                missing.push(name);
                proof {
                    assert(missing@ =~= mb.push(name));
                    assert forall|k: int| 0 <= k < missing.len() implies #[trigger] lacks_with(
                        missing@[k]@,
                        references@,
                        av,
                        i + 1,
                    ) by {
                        if k < mb.len() {
                            assert(missing@[k] == mb[k]);
                            assert(lacks_with(mb[k]@, references@, av, i as int));
                            let j = choose|j: int|
                                0 <= j < i && #[trigger] references@[j]@ == mb[k]@ && av[j] is None;
                            assert(references@[j]@ == missing@[k]@);
                        } else {
                            assert(missing@[k] == name);
                            assert(references@[i as int]@ == name@);
                        }
                    }
                    assert forall|k: int| 0 <= k < found.len() implies #[trigger] pairs_with(
                        found@[k].0@,
                        found@[k].1@,
                        references@,
                        av,
                        i + 1,
                    ) by {
                        assert(pairs_with(found@[k].0@, found@[k].1@, references@, av, i as int));
                        let j = choose|j: int|
                            0 <= j < i && #[trigger] references@[j]@ == found@[k].0@ && av[j] is Some
                                && av[j]->Some_0@ == found@[k].1@;
                        assert(references@[j]@ == found@[k].0@);
                    }
                    assert(strings_view(missing@) =~= strings_view(mb).push(name@));
                    assert(selected(prefix, hp, false) == selected(
                        rv.take(i as int),
                        hv.take(i as int),
                        false,
                    ).push(name@));
                    assert(selected(prefix, hp, true) == selected(
                        rv.take(i as int),
                        hv.take(i as int),
                        true,
                    ));
                }
            },
        }
        i = i + 1;
    }
    proof {
        assert(rv.take(references.len() as int) =~= rv);
        assert(hv.take(references.len() as int) =~= hv);
        assert(av.take(references.len() as int) =~= av);
    }
    Lookup { found, missing }
}

/// The store answered `answer` for a reference named `name`: a call of
/// [`Store::get`] on it gave `Ok(answer)`.
pub open spec fn store_answered(store: &Store, name: Seq<char>, answer: Option<String>) -> bool {
    exists|s: &str|
        s@ == name && #[trigger] call_ensures(
            Store::get,
            (store, s),
            Ok::<Option<String>, StoreError>(answer),
        )
}

/// The store answered the value `value` for a reference named `name`.
pub open spec fn store_holds(store: &Store, name: Seq<char>, value: Seq<char>) -> bool {
    exists|v: String| v@ == value && #[trigger] store_answered(store, name, Some(v))
}

/// Every found pair of `l` is a value that `store` answered for its name,
/// and every missing name is one for which it answered nothing.
pub open spec fn answers_kept(store: &Store, l: Lookup) -> bool {
    &&& forall|k: int|
        0 <= k < l.found.len() ==> #[trigger] store_holds(store, l.found@[k].0@, l.found@[k].1@)
    &&& forall|k: int|
        0 <= k < l.missing.len() ==> #[trigger] store_answered(store, l.missing@[k]@, None)
}

/// Whether `store` stored `value` for a reference named `name`: a call of
/// [`Store::put`] with them succeeded.
pub open spec fn stored_by(store: &Store, name: Seq<char>, value: Seq<char>) -> bool {
    exists|s: &str, v: &str|
        s@ == name && v@ == value && #[trigger] call_ensures(
            Store::put,
            (store, s, v),
            Ok::<(), StoreError>(()),
        )
}

/// The store of secret values with their configured lifetimes.
pub struct Store {
    db: Db,
    config: Config,
}

impl Store {
    /// A store over `db` with `config`, opened at time `now`: expired
    /// entries are deleted first exactly when garbage collection is due at
    /// `now` ([`gc_due`]); the second part is then the collection's outcome.
    pub fn from_parts_at(db: Db, config: Config, now: u64) -> (r: (
        Store,
        Option<Result<usize, StoreError>>,
    ))
        ensures
            r.0.held_db() == db,
            r.0.held_config() == config,
            r.1 is Some <==> gc_due(now),
            r.1 matches Some(Err(e)) ==> e is Database || e is KeyringEntry || e is Keyring,
            r.1 matches Some(o) ==> call_ensures(Db::gc, (&db,), o),
    {
        let store = Store { db, config };
        if gc_due_at(now) {
            let collect = Db::gc;
            let outcome = collect(&store.db);
            (store, Some(outcome))
        } else {
            (store, None)
        }
    }

    /// A store over `db` with `config`, opened at the clock's time
    /// ([`Store::from_parts_at`]); a failure of the collection is reported,
    /// not returned.
    pub fn from_parts(db: Db, config: Config) -> (r: (Store, Option<StoreError>))
        ensures
            r.0.held_db() == db,
            r.0.held_config() == config,
            r.1 matches Some(e) ==> e is Database || e is KeyringEntry || e is Keyring,
    {
        let (store, outcome) = Store::from_parts_at(db, config, now_secs());
        match outcome {
            Some(Err(e)) => (store, Some(e)),
            _ => (store, None),
        }
    }

    /// The store's database.
    pub closed spec fn held_db(self) -> Db {
        self.db
    }

    /// The configuration that gives stored secrets their lifetimes.
    pub closed spec fn held_config(self) -> Config {
        self.config
    }

    /// The stored, unexpired value of `reference`, if any.
    pub fn get(&self, reference: &str) -> (r: Result<Option<String>, StoreError>)
        ensures
            r matches Err(e) ==> e is Database || e is KeyringEntry || e is Keyring,
            call_ensures(Db::get, (&self.held_db(), reference), r),
    {
        let read = Db::get;
        read(&self.db, reference)
    }

    /// The metadata a secret named `reference` stored at `now` gets: the
    /// time to live of the first configured rule that matches it, else the
    /// default.
    pub open spec fn record_at(&self, reference: Seq<char>, now: u64) -> Meta {
        Meta::new_at_spec(
            ttl_for(self.held_config().ttl_rules@, self.held_config().default_ttl, reference),
            now,
        )
    }

    /// The time to live that the configuration gives `reference`
    /// ([`Config::resolve_ttl`]).
    pub fn ttl_of(&self, reference: &str) -> (ttl: u64)
        ensures
            ttl == ttl_for(
                self.held_config().ttl_rules@,
                self.held_config().default_ttl,
                reference@,
            ),
    {
        self.config.resolve_ttl(reference)
    }

    /// The metadata that a secret for `reference` stored at time `now` gets:
    /// stored then, living the time [`Store::ttl_of`] gives it.
    pub fn record_for(&self, reference: &str, now: u64) -> (m: Meta)
        ensures
            m == Meta::new_at_spec(
                ttl_for(
                    self.held_config().ttl_rules@,
                    self.held_config().default_ttl,
                    reference@,
                ),
                now,
            ),
    {
        Meta::new_at(self.ttl_of(reference), now)
    }

    /// Stores `value` for `reference` ([`Db::put_record`]) with the metadata
    /// [`Store::record_for`] gives it at the clock's time.
    ///
    /// So the record handed on is the one of the first configured rule that
    /// matches `reference` (else the default), stored at the clock's time.
    pub fn put(&self, reference: &str, value: &str) -> (r: Result<(), StoreError>)
        ensures
            r matches Err(e) ==> e is KeyringEntry || e is KeyringStore || e is Database,
            exists|now: u64|
                #![trigger call_ensures(now_secs, (), now)]
                call_ensures(now_secs, (), now) && call_ensures(
                    Db::put_record,
                    (&self.held_db(), reference, value, &self.record_at(reference@, now)),
                    r,
                ),
    {
        let clock = now_secs;
        let now = clock();
        let meta = self.record_for(reference, now);
        let write = Db::put_record;
        write(&self.db, reference, value, &meta)
    }

    /// Looks up each of `references`: every one of them lands either among
    /// the found values or among the missing references, in the order given.
    /// The first failure of the store is returned.
    pub fn lookup_all(&self, references: &Vec<String>) -> (r: Result<Lookup, StoreError>)
        ensures
            r matches Ok(l) ==> exists|hit: Seq<bool>|
                #![trigger selected(strings_view(references@), hit, true)]
                hit.len() == references.len() && selected(strings_view(references@), hit, true)
                    == found_names(l.found@) && selected(strings_view(references@), hit, false)
                    == strings_view(l.missing@),
            references.len() == 0 ==> (r matches Ok(l) && l.found.len() == 0 && l.missing.len()
                == 0),
            r matches Ok(l) ==> answers_kept(self, l),
            r matches Err(e) ==> e is Database || e is KeyringEntry || e is Keyring,
    {
        let mut answers: Vec<Option<String>> = Vec::new();
        let mut i: usize = 0;
        while i < references.len()
            invariant
                i <= references.len(),
                answers.len() == i,
                forall|j: int|
                    0 <= j < i ==> #[trigger] store_answered(self, references@[j]@, answers@[j]),
            decreases references.len() - i,
        {
            let name = references[i].as_str();
            let ask = Store::get;
            let answer = ask(self, name)?;
            let ghost before = answers@;
            proof {
                assert(store_answered(self, references@[i as int]@, answer));
            }
            answers.push(answer);
            proof {
                assert(answers@ =~= before.push(answer));
            }
            i = i + 1;
        }
        let ghost av = answers@;
        let ghost hit = hits_of(answers@);
        let l = split_lookups(references, answers);
        proof {
            assert forall|k: int| 0 <= k < l.found.len() implies #[trigger] store_holds(
                self,
                l.found@[k].0@,
                l.found@[k].1@,
            ) by {
                assert(pairs_with(l.found@[k].0@, l.found@[k].1@, references@, av, references.len() as int));
                let j = choose|j: int|
                    0 <= j < references.len() && #[trigger] references@[j]@ == l.found@[k].0@
                        && av[j] is Some && av[j]->Some_0@ == l.found@[k].1@;
                assert(store_answered(self, references@[j]@, av[j]));
                assert(av[j] == Some(av[j]->Some_0));
            }
            assert forall|k: int| 0 <= k < l.missing.len() implies #[trigger] store_answered(
                self,
                l.missing@[k]@,
                None,
            ) by {
                assert(lacks_with(l.missing@[k]@, references@, av, references.len() as int));
                let j = choose|j: int|
                    0 <= j < references.len() && #[trigger] references@[j]@ == l.missing@[k]@
                        && av[j] is None;
                assert(store_answered(self, references@[j]@, av[j]));
            }
            assert(hit.len() == references.len());
            if references.len() == 0 {
                assert(strings_view(references@).len() == 0);
                assert(found_names(l.found@).len() == l.found@.len());
                assert(strings_view(l.missing@).len() == l.missing@.len());
            }
        }
        Ok(l)
    }

    /// Stores each of `entries` as [`Store::put`] does, in order; the first
    /// failure is returned.
    ///
    /// On success every entry was stored: [`Store::put`] succeeded for each
    /// name with its own value.
    pub fn put_all(&self, entries: &Vec<(String, String)>) -> (r: Result<(), StoreError>)
        ensures
            entries.len() == 0 ==> r is Ok,
            r matches Err(e) ==> e is KeyringEntry || e is KeyringStore || e is Database,
            r is Ok ==> forall|i: int|
                0 <= i < entries.len() ==> #[trigger] stored_by(
                    self,
                    entries@[i].0@,
                    entries@[i].1@,
                ),
    {
        let mut i: usize = 0;
        while i < entries.len()
            invariant
                i <= entries.len(),
                forall|j: int|
                    0 <= j < i ==> #[trigger] stored_by(self, entries@[j].0@, entries@[j].1@),
            decreases entries.len() - i,
        {
            let name = entries[i].0.as_str();
            let value = entries[i].1.as_str();
            let write = Store::put;
            let answer = write(self, name, value);
            match answer {
                Ok(()) => {
                    proof {
                        assert(answer is Ok);
                        assert(answer->Ok_0 == ());
                        assert(answer == Ok::<(), StoreError>(()));
                        assert(stored_by(self, entries@[i as int].0@, entries@[i as int].1@));
                    }
                },
                Err(e) => return Err(e),
            }
            i = i + 1;
        }
        Ok(())
    }

    /// Deletes `reference`; `true` if anything was stored for it.
    pub fn delete(&self, reference: &str) -> (r: Result<bool, StoreError>)
        ensures
            r matches Err(e) ==> e is KeyringEntry || e is Keyring || e is Database,
            call_ensures(Db::delete, (&self.held_db(), reference), r),
    {
        let drop = Db::delete;
        drop(&self.db, reference)
    }

    /// Every stored reference with its metadata.
    pub fn list(&self) -> (r: Result<Vec<(String, Meta)>, StoreError>)
        ensures
            r matches Err(e) ==> e is Database,
            call_ensures(Db::list, (&self.held_db(),), r),
    {
        let listing = Db::list;
        listing(&self.db)
    }

    /// Deletes everything stored.
    pub fn clear(&self) -> (r: Result<(), StoreError>)
        ensures
            r matches Err(e) ==> e is Database,
            call_ensures(Db::clear, (&self.held_db(),), r),
    {
        let erase = Db::clear;
        erase(&self.db)
    }
}

} // verus!
