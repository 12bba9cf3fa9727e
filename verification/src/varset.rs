//! A set of named variables: the bindings handed to the engine for one
//! evaluation.
//!
//! The set is modelled as a map from variable name to value model.  Bindings
//! are kept in insertion order; binding a name again shadows the earlier
//! binding, so the map always reflects the latest binding of each name.

use vstd::prelude::*;
use crate::value::{DataValue, ValueModel, model_of};
use crate::strutil::str_eq;

verus! {

/// The map described by a sequence of bindings, later bindings winning.
pub open spec fn map_of_entries(s: Seq<(String, DataValue)>) -> Map<Seq<char>, ValueModel>
    decreases s,
{
    if s.len() == 0 {
        Map::empty()
    } else {
        map_of_entries(s.drop_last()).insert(s.last().0@, model_of(s.last().1))
    }
}

/// A name is bound exactly when some binding carries it.
pub proof fn lemma_map_contains(s: Seq<(String, DataValue)>, k: Seq<char>)
    ensures
        map_of_entries(s).contains_key(k) <==> (exists|i: int|
            0 <= i < s.len() && (#[trigger] s[i]).0@ == k),
    decreases s,
{
    if s.len() > 0 {
        lemma_map_contains(s.drop_last(), k);
        if s.last().0@ == k {
            assert(s[s.len() - 1].0@ == k);
        } else {
            if map_of_entries(s).contains_key(k) {
                let i = choose|i: int| 0 <= i < s.drop_last().len() && (#[trigger] s.drop_last()[i]).0@ == k;
                assert(s[i].0@ == k);
            }
            if exists|i: int| 0 <= i < s.len() && (#[trigger] s[i]).0@ == k {
                let i = choose|i: int| 0 <= i < s.len() && (#[trigger] s[i]).0@ == k;
                assert(s.drop_last()[i].0@ == k);
            }
        }
    }
}

/// The latest binding of a name decides its value in the map.
pub proof fn lemma_map_at_last(s: Seq<(String, DataValue)>, k: Seq<char>, i: int)
    requires
        0 <= i < s.len(),
        s[i].0@ == k,
        forall|j: int| i < j < s.len() ==> (#[trigger] s[j]).0@ != k,
    ensures
        map_of_entries(s).contains_key(k),
        map_of_entries(s)[k] == model_of(s[i].1),
    decreases s,
{
    if i < s.len() - 1 {
        assert(s.last().0@ != k);
        assert(forall|j: int| i < j < s.drop_last().len() ==> (#[trigger] s.drop_last()[j]).0@ != k);
        assert(s.drop_last()[i].0@ == k);
        lemma_map_at_last(s.drop_last(), k, i);
    }
}

/// The variables for one evaluation: a map from name to value, built by
/// binding names one at a time.
#[derive(Debug)]
pub struct VariableSet {
    entries: Vec<(String, DataValue)>,
}

impl View for VariableSet {
    type V = Map<Seq<char>, ValueModel>;

    closed spec fn view(&self) -> Map<Seq<char>, ValueModel> {
        map_of_entries(self.entries@)
    }
}

impl VariableSet {
    /// The bindings in insertion order; the map view folds over these.
    pub closed spec fn entry_seq(self) -> Seq<(String, DataValue)> {
        self.entries@
    }

    /// The view is the fold of the entries.
    pub proof fn lemma_view_is_fold(self)
        ensures
            self@ == map_of_entries(self.entry_seq()),
    {
    }

    /// An empty set.
    pub fn new() -> (r: VariableSet)
        ensures
            r@ == Map::<Seq<char>, ValueModel>::empty(),
            r.entry_seq().len() == 0,
    {
        VariableSet { entries: Vec::new() }
    }

    /// How many bindings the set holds.
    pub fn len(&self) -> (r: usize)
        ensures
            r == self.entry_seq().len(),
    {
        self.entries.len()
    }

    /// Binds `name` to `v`; an earlier binding of the same name is shadowed.
    pub fn insert(&mut self, name: String, v: DataValue)
        ensures
            final(self)@ == old(self)@.insert(name@, model_of(v)),
            final(self).entry_seq() == old(self).entry_seq().push((name, v)),
    {
        self.entries.push((name, v));
        proof {
            assert(self.entries@.drop_last() =~= old(self).entries@);
        }
    }

    /// Whether `name` is bound.
    pub fn contains_key(&self, name: &str) -> (r: bool)
        ensures
            r == self@.contains_key(name@),
    {
        let n = self.entries.len();
        let mut i: usize = 0;
        while i < n
            invariant
                i <= n,
                n == self.entries@.len(),
                forall|j: int| 0 <= j < i as int ==> (#[trigger] self.entries@[j]).0@ != name@,
            decreases n - i,
        {
            if str_eq(self.entries[i].0.as_str(), name) {
                proof {
                    lemma_map_contains(self.entries@, name@);
                }
                return true;
            }
            i = i + 1;
        }
        proof {
            lemma_map_contains(self.entries@, name@);
        }
        false
    }

    /// The value bound to `name`, if any; the latest binding wins.
    pub fn get(&self, name: &str) -> (r: Option<&DataValue>)
        ensures
            match r {
                Some(v) => self@.contains_key(name@) && v@ == self@[name@],
                None => !self@.contains_key(name@),
            },
    {
        let n = self.entries.len();
        let mut i: usize = n;
        while i > 0
            invariant
                i <= n,
                n == self.entries@.len(),
                forall|j: int| i as int <= j < n as int ==> (#[trigger] self.entries@[j]).0@ != name@,
            decreases i,
        {
            i = i - 1;
            if str_eq(self.entries[i].0.as_str(), name) {
                proof {
                    lemma_map_at_last(self.entries@, name@, i as int);
                }
                return Some(&self.entries[i].1);
            }
        }
        proof {
            lemma_map_contains(self.entries@, name@);
        }
        None
    }

    /// The name of the `i`-th binding.
    pub fn name_at(&self, i: usize) -> (r: &String)
        requires
            i < self.entry_seq().len(),
        ensures
            r@ == self.entry_seq()[i as int].0@,
    {
        &self.entries[i].0
    }

    /// The value of the `i`-th binding.
    pub fn value_at(&self, i: usize) -> (r: &DataValue)
        requires
            i < self.entry_seq().len(),
        ensures
            r@ == model_of(self.entry_seq()[i as int].1),
    {
        &self.entries[i].1
    }

    /// A copy with the same bindings.
    pub fn duplicate(&self) -> (r: VariableSet)
        ensures
            r@ == self@,
        decreases self,
    {
        let n = self.entries.len();
        let mut out: Vec<(String, DataValue)> = Vec::new();
        let mut i: usize = 0;
        while i < n
            invariant
                i <= n,
                n == self.entries@.len(),
                out@.len() == i as int,
                forall|k: int| 0 <= k < i as int ==> (#[trigger] out@[k]).0@ == self.entries@[k].0@
                    && model_of(out@[k].1) == model_of(self.entries@[k].1),
            decreases n - i,
        {
            let name = self.entries[i].0.clone();
            let v = self.entries[i].1.duplicate();
            out.push((name, v));
            i = i + 1;
        }
        let r = VariableSet { entries: out };
        proof {
            lemma_map_same(out@, self.entries@);
        }
        r
    }
}

/// Binding sequences with the same names and value models fold to the same
/// map.
proof fn lemma_map_same(a: Seq<(String, DataValue)>, b: Seq<(String, DataValue)>)
    requires
        a.len() == b.len(),
        forall|k: int| 0 <= k < a.len() ==> (#[trigger] a[k]).0@ == b[k].0@
            && model_of(a[k].1) == model_of(b[k].1),
    ensures
        map_of_entries(a) == map_of_entries(b),
    decreases a,
{
    if a.len() > 0 {
        assert(forall|k: int| 0 <= k < a.drop_last().len() ==> (#[trigger] a.drop_last()[k]).0@
            == b.drop_last()[k].0@ && model_of(a.drop_last()[k].1) == model_of(b.drop_last()[k].1));
        lemma_map_same(a.drop_last(), b.drop_last());
        assert(a.last().0@ == b.last().0@ && model_of(a.last().1) == model_of(b.last().1));
    }
}

} // verus!
