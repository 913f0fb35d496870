//! Values of a run's variable context, and the context itself.

use vstd::prelude::*;

verus! {

/// `str`'s `==` (`PartialEq::eq`): two string slices are equal exactly when
/// they hold the same characters.
pub assume_specification[ <str as PartialEq>::eq ](a: &str, b: &str) -> (r: bool)
    ensures
        r == (a@ == b@),
;

/// A value that a step outcome can produce and a condition can read.
#[derive(Clone, Debug, PartialEq, Eq)]
pub enum Scalar {
    Null,
    Bool(bool),
    Int(i64),
    Text(String),
}

/// The mathematical content of a [`Scalar`].
pub enum Datum {
    Null,
    Bool(bool),
    Int(int),
    Text(Seq<char>),
}

impl View for Scalar {
    type V = Datum;

    open spec fn view(&self) -> Datum {
        match self {
            Scalar::Null => Datum::Null,
            Scalar::Bool(b) => Datum::Bool(*b),
            Scalar::Int(i) => Datum::Int(*i as int),
            Scalar::Text(s) => Datum::Text(s@),
        }
    }
}

impl Scalar {
    /// Whether two values have the same content.
    pub fn same(&self, other: &Scalar) -> (r: bool)
        ensures
            r == (self@ == other@),
    {
        match (self, other) {
            (Scalar::Null, Scalar::Null) => true,
            (Scalar::Bool(a), Scalar::Bool(b)) => *a == *b,
            (Scalar::Int(a), Scalar::Int(b)) => *a == *b,
            (Scalar::Text(a), Scalar::Text(b)) => *a == *b,
            _ => false,
        }
    }

    /// A copy of the value.
    pub fn duplicate(&self) -> (r: Scalar)
        ensures
            r == *self,
    {
        match self {
            Scalar::Null => Scalar::Null,
            Scalar::Bool(b) => Scalar::Bool(*b),
            Scalar::Int(i) => Scalar::Int(*i),
            Scalar::Text(s) => Scalar::Text(s.clone()),
        }
    }
}

/// One named value.
#[derive(Clone, Debug, PartialEq, Eq)]
pub struct Binding {
    pub name: String,
    pub value: Scalar,
}

/// What `name` is bound to in `entries`: the first entry of that name decides.
pub open spec fn lookup(entries: Seq<Binding>, name: Seq<char>) -> Option<Datum>
    decreases entries.len(),
{
    if entries.len() == 0 {
        None
    } else if entries[0].name@ == name {
        Some(entries[0].value@)
    } else {
        lookup(entries.drop_first(), name)
    }
}

/// The mapping from names to contents that `entries` stands for.
pub open spec fn bindings_map(entries: Seq<Binding>) -> Map<Seq<char>, Datum> {
    Map::new(|k: Seq<char>| lookup(entries, k) is Some, |k: Seq<char>| lookup(entries, k)->0)
}

/// Replacing the first entry named `b.name` by `b` rebinds that name and no other.
proof fn lemma_lookup_update(entries: Seq<Binding>, i: int, b: Binding, name: Seq<char>)
    requires
        0 <= i < entries.len(),
        entries[i].name@ == b.name@,
        forall|j: int| 0 <= j < i ==> entries[j].name@ != b.name@,
    ensures
        lookup(entries.update(i, b), name) == if name == b.name@ {
            Some(b.value@)
        } else {
            lookup(entries, name)
        },
    decreases entries.len(),
{
    if i > 0 {
        assert(entries.update(i, b).drop_first() =~= entries.drop_first().update(i - 1, b));
        lemma_lookup_update(entries.drop_first(), i - 1, b, name);
    } else {
        assert(entries.update(0, b).drop_first() =~= entries.drop_first());
    }
}

/// Appending an entry whose name is new binds that name and changes no other.
proof fn lemma_lookup_push(entries: Seq<Binding>, b: Binding, name: Seq<char>)
    requires
        forall|j: int| 0 <= j < entries.len() ==> entries[j].name@ != b.name@,
    ensures
        lookup(entries.push(b), name) == if name == b.name@ {
            Some(b.value@)
        } else {
            lookup(entries, name)
        },
    decreases entries.len(),
{
    if entries.len() > 0 {
        assert(entries.push(b).drop_first() =~= entries.drop_first().push(b));
        lemma_lookup_push(entries.drop_first(), b, name);
    } else {
        assert(entries.push(b).drop_first() =~= entries);
    }
}

/// A run's variable context: a mapping from names to values.
#[derive(Clone, Debug, PartialEq, Eq)]
pub struct Context {
    pub entries: Vec<Binding>,
}

impl View for Context {
    type V = Map<Seq<char>, Datum>;

    open spec fn view(&self) -> Map<Seq<char>, Datum> {
        bindings_map(self.entries@)
    }
}

impl Context {
    /// The empty context.
    pub fn new() -> (r: Context)
        ensures
            r@ == Map::<Seq<char>, Datum>::empty(),
            r.entries@.len() == 0,
    {
        let r = Context { entries: Vec::new() };
        assert(r@ =~= Map::<Seq<char>, Datum>::empty());
        r
    }

    /// A copy of the context: the same entries in the same order.
    pub fn duplicate(&self) -> (r: Context)
        ensures
            r.entries@ == self.entries@,
            r@ == self@,
    {
        let mut entries: Vec<Binding> = Vec::new();
        let mut i: usize = 0;
        while i < self.entries.len()
            invariant
                i <= self.entries@.len(),
                entries@ == self.entries@.take(i as int),
            decreases self.entries@.len() - i,
        {
            let b = &self.entries[i];
            entries.push(Binding { name: b.name.clone(), value: b.value.duplicate() });
            assert(entries@ =~= self.entries@.take(i + 1));
            i += 1;
        }
        assert(entries@ =~= self.entries@);
        Context { entries }
    }

    /// The value bound to `name`, if any.
    pub fn get(&self, name: &str) -> (r: Option<&Scalar>)
        ensures
            match r {
                Some(v) => self@.contains_key(name@) && self@[name@] == v@,
                None => !self@.contains_key(name@),
            },
    {
        let mut i: usize = 0;
        assert(self.entries@.skip(0) =~= self.entries@);
        while i < self.entries.len()
            invariant
                i <= self.entries@.len(),
                lookup(self.entries@, name@) == lookup(self.entries@.skip(i as int), name@),
            decreases self.entries@.len() - i,
        {
            if *self.entries[i].name.as_str() == *name {
                return Some(&self.entries[i].value);
            }
            assert(self.entries@.skip(i as int).drop_first() =~= self.entries@.skip(i + 1));
            i += 1;
        }
        None
    }

    /// Binds `name` to `value`, replacing what it was bound to.
    pub fn set(&mut self, name: String, value: Scalar)
        ensures
            final(self)@ == old(self)@.insert(name@, value@),
    {
        let ghost before = self.entries@;
        let b = Binding { name, value };
        let mut i: usize = 0;
        while i < self.entries.len()
            invariant
                self.entries@ == before,
                before == old(self).entries@,
                b.name == name,
                b.value == value,
                i <= before.len(),
                forall|j: int| 0 <= j < i ==> before[j].name@ != b.name@,
            decreases before.len() - i,
        {
            if self.entries[i].name == b.name {
                self.entries[i] = b;
                assert(self.entries@ =~= before.update(i as int, b));
                assert forall|k: Seq<char>| #[trigger]
                    lookup(self.entries@, k) == if k == b.name@ {
                        Some(b.value@)
                    } else {
                        lookup(before, k)
                    } by {
                    lemma_lookup_update(before, i as int, b, k);
                }
                assert(self@ =~= old(self)@.insert(b.name@, b.value@));
                return ;
            }
            i += 1;
        }
        self.entries.push(b);
        assert forall|k: Seq<char>| #[trigger]
            lookup(self.entries@, k) == if k == b.name@ {
                Some(b.value@)
            } else {
                lookup(before, k)
            } by {
            lemma_lookup_push(before, b, k);
        }
        assert(self@ =~= old(self)@.insert(b.name@, b.value@));
    }

    /// Merges `fields` into this context; on a name that both bind, `fields` wins.
    pub fn merge(&mut self, fields: Context)
        ensures
            final(self)@ == old(self)@.union_prefer_right(fields@),
    {
        let mut rest = fields.entries;
        let ghost all = rest@;
        assert(rest@.skip(rest@.len() as int) =~= Seq::<Binding>::empty());
        assert(self@ =~= old(self)@.union_prefer_right(bindings_map(Seq::<Binding>::empty())));
        while rest.len() > 0
            invariant
                rest@.len() <= all.len(),
                rest@ == all.take(rest@.len() as int),
                self@ == old(self)@.union_prefer_right(bindings_map(all.skip(rest@.len() as int))),
            decreases rest@.len(),
        {
            let ghost n = rest@.len() as int;
            let ghost cur = self@;
            let b = rest.pop().unwrap();
            assert(b == all[n - 1]);
            assert(all.skip(n - 1).drop_first() =~= all.skip(n));
            assert(rest@ =~= all.take(n - 1));
            self.set(b.name, b.value);
            assert(self@ =~= old(self)@.union_prefer_right(bindings_map(all.skip(n - 1))));
        }
        assert(all.skip(0) =~= all);
    }
}

} // verus!
