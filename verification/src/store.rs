//! The definition store: validated definitions, each under its id and version.

use crate::error::EngineError;
use crate::model::WorkflowDefinition;
use crate::plan::Plan;
use crate::validate::{check, compiled, validate};
use vstd::prelude::*;
use vstd::string::*;

verus! {

/// A definition as it was published, and the form in which it is run.
#[derive(Debug, PartialEq, Eq)]
pub struct Published {
    pub definition: WorkflowDefinition,
    pub plan: Plan,
}

/// Whether `p` is a publication of `id`, in `version` where one is asked for.
pub open spec fn is_match(p: Published, id: Seq<char>, version: Option<i32>) -> bool {
    p.definition.id@ == id && (version is None || version == Some(p.definition.version))
}

/// The position of the last publication of `id` (in `version`, where one is
/// asked for).
pub open spec fn last_match(entries: Seq<Published>, id: Seq<char>, version: Option<i32>) -> Option<
    int,
>
    decreases entries.len(),
{
    if entries.len() == 0 {
        None
    } else if is_match(entries.last(), id, version) {
        Some(entries.len() - 1)
    } else {
        last_match(entries.drop_last(), id, version)
    }
}

/// The definition published under `id` and `version`.
pub open spec fn found(entries: Seq<Published>, id: Seq<char>, version: i32) -> Option<
    WorkflowDefinition,
> {
    match last_match(entries, id, Some(version)) {
        Some(i) => Some(entries[i].definition),
        None => None,
    }
}

/// The definition published last under `id`.
pub open spec fn newest(entries: Seq<Published>, id: Seq<char>) -> Option<WorkflowDefinition> {
    match last_match(entries, id, None) {
        Some(i) => Some(entries[i].definition),
        None => None,
    }
}

/// The version published last under `id`; zero where there is none.
pub open spec fn latest_version(entries: Seq<Published>, id: Seq<char>) -> int {
    match last_match(entries, id, None) {
        Some(i) => entries[i].definition.version as int,
        None => 0,
    }
}

/// Whether entry `i` carries the version that follows those before it.
pub open spec fn versioned(entries: Seq<Published>, i: int) -> bool {
    entries[i].definition.version == latest_version(
        entries.take(i),
        entries[i].definition.id@,
    ) + 1
}

/// Whether entry `i` is a valid definition together with its plan.
pub open spec fn sound(entries: Seq<Published>, i: int) -> bool {
    let submitted = entries[i].definition.published_as(0);
    &&& check(submitted) is None
    &&& compiled(entries[i].plan, submitted)
    &&& entries[i].plan.wf()
}

/// Whether entry `i` is valid and carries the version that follows.
pub open spec fn entry_ok(entries: Seq<Published>, i: int) -> bool {
    versioned(entries, i) && sound(entries, i)
}

/// The store's consistency: every entry is valid and carries the version
/// that follows the earlier ones of its id.
pub open spec fn store_ok(entries: Seq<Published>) -> bool {
    forall|i: int| 0 <= i < entries.len() ==> #[trigger] entry_ok(entries, i)
}

/// A match is a position of the store, and what stands there matches.
pub proof fn lemma_last_match(entries: Seq<Published>, id: Seq<char>, version: Option<i32>)
    ensures
        match last_match(entries, id, version) {
            Some(i) => 0 <= i < entries.len() && is_match(entries[i], id, version) && forall|
                j: int,
            |
                i < j < entries.len() ==> !is_match(#[trigger] entries[j], id, version),
            None => forall|j: int|
                0 <= j < entries.len() ==> !is_match(#[trigger] entries[j], id, version),
        },
    decreases entries.len(),
{
    if entries.len() > 0 && !is_match(entries.last(), id, version) {
        lemma_last_match(entries.drop_last(), id, version);
        assert forall|j: int| 0 <= j < entries.len() - 1 implies entries.drop_last()[j]
            == entries[j] by {}
    }
}

/// Versions begin at one and grow by one: a good store holds, under an id
/// whose latest version is `v`, no version above `v`, and `v` is not negative.
pub proof fn lemma_versions_bounded(entries: Seq<Published>, id: Seq<char>)
    requires
        store_ok(entries),
    ensures
        0 <= latest_version(entries, id),
        forall|j: int|
            0 <= j < entries.len() && (#[trigger] entries[j]).definition.id@ == id
                ==> 1 <= entries[j].definition.version <= latest_version(entries, id),
    decreases entries.len(),
{
    if entries.len() > 0 {
        let n = entries.len() - 1;
        let front = entries.drop_last();
        assert(front =~= entries.take(n));
        assert forall|i: int| 0 <= i < front.len() implies #[trigger] entry_ok(front, i) by {
            assert(entry_ok(entries, i));
            assert(front.take(i) =~= entries.take(i));
        }
        lemma_versions_bounded(front, id);
        lemma_last_match(front, id, None);
        assert(entry_ok(entries, n));
        if entries[n].definition.id@ == id {
            assert forall|j: int|
                0 <= j < entries.len() && (#[trigger] entries[j]).definition.id@ == id implies 1
                <= entries[j].definition.version <= latest_version(entries, id) by {
                if j < n {
                    assert(front[j] == entries[j]);
                }
            }
        } else {
            assert forall|j: int|
                0 <= j < entries.len() && (#[trigger] entries[j]).definition.id@ == id implies 1
                <= entries[j].definition.version <= latest_version(entries, id) by {
                assert(front[j] == entries[j]);
            }
        }
    }
}

/// What is published is found under its id and version, as it was published.
pub proof fn lemma_published_is_found(entries: Seq<Published>, p: Published)
    ensures
        found(entries.push(p), p.definition.id@, p.definition.version) == Some(p.definition),
        newest(entries.push(p), p.definition.id@) == Some(p.definition),
        latest_version(entries.push(p), p.definition.id@) == p.definition.version,
{
}

/// A store that has grown by the publication of `definition` under
/// `version` gives that definition back under its id and that version, and
/// gives it as the latest of its id.
pub proof fn lemma_publish_then_get(
    before: Seq<Published>,
    after: Seq<Published>,
    definition: WorkflowDefinition,
    version: i32,
)
    requires
        after.len() == before.len() + 1,
        after.take(before.len() as int) == before,
        after[before.len() as int].definition == definition.published_as(version),
    ensures
        found(after, definition.id@, version) == Some(definition.published_as(version)),
        newest(after, definition.id@) == Some(definition.published_as(version)),
        latest_version(after, definition.id@) == version,
{
    let p = after[before.len() as int];
    assert(after =~= after.take(before.len() as int).push(p));
    lemma_published_is_found(before, p);
}

/// Two publications under one id, one after the other: the second gets a
/// higher version than the first.
pub proof fn lemma_publish_twice(
    first: Seq<Published>,
    second: Seq<Published>,
    third: Seq<Published>,
    a: WorkflowDefinition,
    b: WorkflowDefinition,
    va: i32,
    vb: i32,
)
    requires
        a.id@ == b.id@,
        second.len() == first.len() + 1,
        second.take(first.len() as int) == first,
        second[first.len() as int].definition == a.published_as(va),
        va == latest_version(first, a.id@) + 1,
        third.len() == second.len() + 1,
        third.take(second.len() as int) == second,
        third[second.len() as int].definition == b.published_as(vb),
        vb == latest_version(second, b.id@) + 1,
    ensures
        va < vb,
        found(third, a.id@, va) == Some(a.published_as(va)),
        found(third, b.id@, vb) == Some(b.published_as(vb)),
{
    lemma_publish_then_get(first, second, a, va);
    lemma_publish_then_get(second, third, b, vb);
    let p = third[second.len() as int];
    assert(third =~= second.push(p));
    lemma_publish_keeps_others(second, p, a.id@, va);
}

/// Publishing leaves what is found under every other id or version as it was.
pub proof fn lemma_publish_keeps_others(
    entries: Seq<Published>,
    p: Published,
    id: Seq<char>,
    version: i32,
)
    requires
        id != p.definition.id@ || version != p.definition.version,
    ensures
        found(entries.push(p), id, version) == found(entries, id, version),
{
    assert(entries.push(p).drop_last() =~= entries);
    lemma_last_match(entries, id, Some(version));
}

/// A version that follows the latest is new: nothing is replaced by
/// publishing under it.
pub proof fn lemma_next_version_is_free(entries: Seq<Published>, id: Seq<char>)
    requires
        store_ok(entries),
        latest_version(entries, id) < i32::MAX,
    ensures
        found(entries, id, (latest_version(entries, id) + 1) as i32) is None,
{
    lemma_versions_bounded(entries, id);
    lemma_last_match(entries, id, Some((latest_version(entries, id) + 1) as i32));
}

/// Of two publications under one id, the later has the higher version.
pub proof fn lemma_versions_increase(entries: Seq<Published>, i: int, j: int)
    requires
        store_ok(entries),
        0 <= i < j < entries.len(),
        entries[i].definition.id@ == entries[j].definition.id@,
    ensures
        entries[i].definition.version < entries[j].definition.version,
{
    let front = entries.take(j);
    assert(entry_ok(entries, j));
    assert forall|k: int| 0 <= k < front.len() implies #[trigger] entry_ok(front, k) by {
        assert(entry_ok(entries, k));
        assert(front.take(k) =~= entries.take(k));
    }
    lemma_versions_bounded(front, entries[j].definition.id@);
    assert(front[i] == entries[i]);
}

/// The definitions that were published.
#[derive(Debug, PartialEq, Eq)]
pub struct DefinitionStore {
    pub entries: Vec<Published>,
}

impl DefinitionStore {
    pub open spec fn wf(&self) -> bool {
        store_ok(self.entries@)
    }

    /// An empty store.
    pub fn new() -> (r: DefinitionStore)
        ensures
            r.wf(),
            r.entries@.len() == 0,
    {
        DefinitionStore { entries: Vec::new() }
    }

    /// The position of the last publication of `id` (in `version`, where one
    /// is given).
    pub fn locate(&self, id: &str, version: Option<i32>) -> (r: Option<usize>)
        ensures
            match r {
                Some(i) => last_match(self.entries@, id@, version) == Some(i as int) && i
                    < self.entries@.len(),
                None => last_match(self.entries@, id@, version) is None,
            },
    {
        let mut i: usize = self.entries.len();
        assert(self.entries@.take(i as int) =~= self.entries@);
        while i > 0
            invariant
                i <= self.entries@.len(),
                last_match(self.entries@, id@, version) == last_match(
                    self.entries@.take(i as int),
                    id@,
                    version,
                ),
            decreases i,
        {
            i -= 1;
            assert(self.entries@.take(i + 1).drop_last() =~= self.entries@.take(i as int));
            let d = &self.entries[i].definition;
            let hit = *d.id.as_str() == *id && match version {
                None => true,
                Some(v) => v == d.version,
            };
            if hit {
                return Some(i);
            }
        }
        None
    }

    /// The definition published under `id` and `version`.
    pub fn get(&self, id: &str, version: i32) -> (r: Result<&WorkflowDefinition, EngineError>)
        ensures
            match r {
                Ok(d) => found(self.entries@, id@, version) == Some(*d),
                Err(e) => found(self.entries@, id@, version) is None && (e matches EngineError::UnknownWorkflow(
                    s,
                ) && s@ == id@),
            },
    {
        match self.locate(id, Some(version)) {
            Some(i) => Ok(&self.entries[i].definition),
            None => Err(EngineError::UnknownWorkflow(id.to_owned())),
        }
    }

    /// The definition published last under `id`.
    pub fn latest(&self, id: &str) -> (r: Result<&WorkflowDefinition, EngineError>)
        ensures
            match r {
                Ok(d) => newest(self.entries@, id@) == Some(*d),
                Err(e) => newest(self.entries@, id@) is None && (e matches EngineError::UnknownWorkflow(
                    s,
                ) && s@ == id@),
            },
    {
        match self.locate(id, None) {
            Some(i) => Ok(&self.entries[i].definition),
            None => Err(EngineError::UnknownWorkflow(id.to_owned())),
        }
    }

    /// Validates a definition and stores it under the version that follows
    /// the latest of its id (the first version is 1). A definition that is
    /// not valid is not stored.
    pub fn publish(&mut self, definition: WorkflowDefinition) -> (r: Result<
        (String, i32),
        EngineError,
    >)
        requires
            old(self).wf(),
        ensures
            final(self).wf(),
            match r {
                Ok((id, version)) => {
                    let n = old(self).entries@.len() as int;
                    &&& check(definition) is None
                    &&& id@ == definition.id@
                    &&& version == latest_version(old(self).entries@, definition.id@) + 1
                    &&& final(self).entries@.len() == n + 1
                    &&& final(self).entries@.take(n) == old(self).entries@
                    &&& final(self).entries@[n].definition == definition.published_as(version)
                    &&& compiled(final(self).entries@[n].plan, definition)
                },
                Err(e) => {
                    &&& final(self).entries@ == old(self).entries@
                    &&& match check(definition) {
                        Some(v) => e == EngineError::Validation(v),
                        None => e == EngineError::VersionsExhausted && latest_version(
                            old(self).entries@,
                            definition.id@,
                        ) == i32::MAX,
                    }
                },
            },
    {
        let plan = match validate(&definition) {
            Ok(plan) => plan,
            Err(e) => {
                return Err(EngineError::Validation(e));
            },
        };
        proof {
            lemma_versions_bounded(self.entries@, definition.id@);
        }
        let latest: i32 = match self.locate(definition.id.as_str(), None) {
            Some(i) => self.entries[i].definition.version,
            None => 0,
        };
        if latest == i32::MAX {
            return Err(EngineError::VersionsExhausted);
        }
        let version = latest + 1;
        let id = definition.id.clone();
        let mut stored = definition;
        stored.version = version;
        self.entries.push(Published { definition: stored, plan });
        proof {
            let before = old(self).entries@;
            let after = self.entries@;
            let n = before.len() as int;
            assert(after.take(n) =~= before);
            assert(after[n].definition.published_as(0) == definition);
            assert forall|i: int| 0 <= i < after.len() implies #[trigger] entry_ok(after, i) by {
                if i < n {
                    assert(entry_ok(before, i));
                    assert(after.take(i) =~= before.take(i));
                }
            }
        }
        Ok((id, version))
    }
}

} // verus!
