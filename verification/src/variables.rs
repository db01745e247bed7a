use crate::text::same_text;
use vstd::prelude::*;

verus! {

/// A list of names with their values, as sequences of characters.
pub type Pairs = Seq<(Seq<char>, Seq<char>)>;

/// `vars` after each pair of `pairs` was assigned in turn: a later value of a
/// name replaces an earlier one.
pub open spec fn assign(vars: Map<Seq<char>, Seq<char>>, pairs: Pairs) -> Map<
    Seq<char>,
    Seq<char>,
>
    decreases pairs.len(),
{
    if pairs.len() == 0 {
        vars
    } else {
        assign(vars, pairs.drop_last()).insert(pairs.last().0, pairs.last().1)
    }
}

/// The names and values of `entries` as sequences of characters.
pub open spec fn pairs_of(entries: Seq<(String, String)>) -> Pairs {
    entries.map_values(|entry: (String, String)| (entry.0@, entry.1@))
}

/// Whether no name stands twice in `entries`.
pub open spec fn distinct_names(entries: Seq<(String, String)>) -> bool {
    forall|i: int, j: int|
        0 <= i < j < entries.len() ==> (#[trigger] entries[i]).0@ != (#[trigger] entries[j]).0@
}

/// Assigning a first pair and then the others is assigning them all.
pub proof fn lemma_assign_first(
    vars: Map<Seq<char>, Seq<char>>,
    name: Seq<char>,
    value: Seq<char>,
    pairs: Pairs,
)
    ensures
        assign(vars, seq![(name, value)] + pairs) == assign(vars.insert(name, value), pairs),
    decreases pairs.len(),
{
    let all = seq![(name, value)] + pairs;
    if pairs.len() == 0 {
        assert(all.drop_last() =~= Seq::<(Seq<char>, Seq<char>)>::empty());
        assert(assign(vars, all.drop_last()) == vars);
        assert(all.last() == (name, value));
    } else {
        lemma_assign_first(vars, name, value, pairs.drop_last());
        assert(all.drop_last() =~= seq![(name, value)] + pairs.drop_last());
        assert(all.last() == pairs.last());
    }
}

/// Assigning one more pair is an insertion.
pub proof fn lemma_assign_push(
    vars: Map<Seq<char>, Seq<char>>,
    pairs: Pairs,
    name: Seq<char>,
    value: Seq<char>,
)
    ensures
        assign(vars, pairs.push((name, value))) == assign(vars, pairs).insert(name, value),
{
    assert(pairs.push((name, value)).drop_last() =~= pairs);
}

/// The pairs of a list that grew by one entry.
pub proof fn lemma_pairs_push(entries: Seq<(String, String)>, entry: (String, String))
    ensures
        pairs_of(entries.push(entry)) == pairs_of(entries).push((entry.0@, entry.1@)),
{
    assert(pairs_of(entries.push(entry)) =~= pairs_of(entries).push((entry.0@, entry.1@)));
}

/// A new value at the last place where a name stands is an insertion.
proof fn lemma_assign_update(pairs: Pairs, at: int, value: Seq<char>)
    requires
        0 <= at < pairs.len(),
        forall|j: int| at < j < pairs.len() ==> (#[trigger] pairs[j]).0 != pairs[at].0,
    ensures
        assign(Map::empty(), pairs.update(at, (pairs[at].0, value))) == assign(
            Map::empty(),
            pairs,
        ).insert(pairs[at].0, value),
    decreases pairs.len(),
{
    let name = pairs[at].0;
    let updated = pairs.update(at, (name, value));
    let front = assign(Map::empty(), pairs.drop_last());
    if at == pairs.len() - 1 {
        assert(updated.drop_last() =~= pairs.drop_last());
        assert(front.insert(name, value) =~= front.insert(name, pairs[at].1).insert(name, value));
    } else {
        let last = pairs.last();
        lemma_assign_update(pairs.drop_last(), at, value);
        assert(updated.drop_last() =~= pairs.drop_last().update(at, (name, value)));
        assert(updated.last() == last);
        assert(last.0 != name);
        assert(front.insert(name, value).insert(last.0, last.1) =~= front.insert(
            last.0,
            last.1,
        ).insert(name, value));
    }
}

/// Pairs of which no two have the same name give as many variables as they
/// are.
proof fn lemma_assign_len(pairs: Pairs)
    requires
        forall|i: int, j: int|
            0 <= i < j < pairs.len() ==> (#[trigger] pairs[i]).0 != (#[trigger] pairs[j]).0,
    ensures
        assign(Map::empty(), pairs).dom().finite(),
        assign(Map::empty(), pairs).len() == pairs.len(),
    decreases pairs.len(),
{
    if pairs.len() > 0 {
        let front = assign(Map::<Seq<char>, Seq<char>>::empty(), pairs.drop_last());
        lemma_assign_len(pairs.drop_last());
        assert forall|j: int| 0 <= j < pairs.drop_last().len() implies (
        #[trigger] pairs.drop_last()[j]).0 != pairs.last().0 by {
            assert(pairs.drop_last()[j] == pairs[j]);
            assert(pairs.last() == pairs[pairs.len() - 1]);
        }
        lemma_assign_keeps(Map::empty(), pairs.drop_last(), pairs.last().0);
        assert(assign(Map::empty(), pairs).dom() =~= front.dom().insert(pairs.last().0));
    } else {
        assert(assign(Map::<Seq<char>, Seq<char>>::empty(), pairs).dom() =~= Set::empty());
    }
}

/// Environment variables: each name has one value.
#[derive(Debug)]
pub struct Variables {
    entries: Vec<(String, String)>,
}

impl View for Variables {
    type V = Map<Seq<char>, Seq<char>>;

    /// The value of each name.
    closed spec fn view(&self) -> Map<Seq<char>, Seq<char>> {
        assign(Map::empty(), pairs_of(self.entries@))
    }
}

impl Variables {
    /// No name stands twice.
    pub closed spec fn wf(&self) -> bool {
        distinct_names(self.entries@)
    }

    /// The names with their values, in the order in which the names came.
    pub closed spec fn entries(&self) -> Seq<(String, String)> {
        self.entries@
    }

    /// The view is what assigning the entries gives, and no name stands twice
    /// among them.
    pub proof fn lemma_entries(&self)
        requires
            self.wf(),
        ensures
            self@ == assign(Map::empty(), pairs_of(self.entries())),
            distinct_names(self.entries()),
    {
    }

    /// No variables.
    pub fn new() -> (vars: Variables)
        ensures
            vars.wf(),
            vars@ == Map::<Seq<char>, Seq<char>>::empty(),
            vars.entries().len() == 0,
    {
        Variables { entries: Vec::new() }
    }

    /// How many names have a value.
    pub fn len(&self) -> (n: usize)
        ensures
            n == self.entries().len(),
            self.wf() ==> n == self@.len(),
    {
        proof {
            if self.wf() {
                let pairs = pairs_of(self.entries@);
                assert forall|i: int, j: int| 0 <= i < j < pairs.len() implies (
                #[trigger] pairs[i]).0 != (#[trigger] pairs[j]).0 by {
                    assert(pairs[i].0 == self.entries@[i].0@);
                    assert(pairs[j].0 == self.entries@[j].0@);
                }
                lemma_assign_len(pairs);
            }
        }
        self.entries.len()
    }

    /// The name and the value at place `i`.
    pub fn entry(&self, i: usize) -> (entry: &(String, String))
        requires
            i < self.entries().len(),
        ensures
            *entry == self.entries()[i as int],
    {
        &self.entries[i]
    }

    /// The place at which `name` stands, if it has a value.
    fn position(&self, name: &str) -> (at: Option<usize>)
        ensures
            match at {
                Some(i) => i < self.entries@.len() && self.entries@[i as int].0@ == name@,
                None => forall|j: int|
                    0 <= j < self.entries@.len() ==> (#[trigger] self.entries@[j]).0@ != name@,
            },
    {
        let mut i: usize = 0;
        while i < self.entries.len()
            invariant
                i <= self.entries@.len(),
                forall|j: int| 0 <= j < i ==> (#[trigger] self.entries@[j]).0@ != name@,
            decreases self.entries.len() - i,
        {
            if same_text(self.entries[i].0.as_str(), name) {
                return Some(i);
            }
            i += 1;
        }
        None
    }

    /// The value of `name`, if it has one.
    pub fn get(&self, name: &str) -> (value: Option<&String>)
        requires
            self.wf(),
        ensures
            match value {
                Some(v) => self@.contains_key(name@) && self@[name@] == v@,
                None => !self@.contains_key(name@),
            },
    {
        let ghost pairs = pairs_of(self.entries@);
        match self.position(name) {
            Some(i) => {
                proof {
                    assert(pairs[i as int] == (self.entries@[i as int].0@, self.entries@[i as int].1@));
                    assert forall|j: int| i < j < pairs.len() implies (#[trigger] pairs[j]).0
                        != pairs[i as int].0 by {
                        assert(pairs[j].0 == self.entries@[j].0@);
                    }
                    lemma_assign_last_wins(Map::empty(), pairs, i as int);
                }
                Some(&self.entries[i].1)
            },
            None => {
                proof {
                    assert forall|j: int| 0 <= j < pairs.len() implies (#[trigger] pairs[j]).0
                        != name@ by {
                        assert(pairs[j].0 == self.entries@[j].0@);
                    }
                    lemma_assign_keeps(Map::empty(), pairs, name@);
                }
                None
            },
        }
    }

    /// Gives `name` the value `value`, in place of the one it had, if any.
    pub fn insert(&mut self, name: String, value: String)
        requires
            old(self).wf(),
        ensures
            final(self).wf(),
            final(self)@ == old(self)@.insert(name@, value@),
    {
        let ghost before = self.entries@;
        let ghost pairs = pairs_of(before);
        match self.position(name.as_str()) {
            Some(i) => {
                proof {
                    assert(pairs[i as int] == (before[i as int].0@, before[i as int].1@));
                    assert forall|j: int| i < j < pairs.len() implies (#[trigger] pairs[j]).0
                        != pairs[i as int].0 by {
                        assert(pairs[j].0 == before[j].0@);
                    }
                    lemma_assign_update(pairs, i as int, value@);
                }
                self.entries.set(i, (name, value));
                proof {
                    assert(pairs_of(self.entries@) =~= pairs.update(i as int, (name@, value@)));
                    assert forall|a: int, b: int| 0 <= a < b < self.entries@.len() implies (
                    #[trigger] self.entries@[a]).0@ != (#[trigger] self.entries@[b]).0@ by {
                        assert(self.entries@[a].0@ == before[a].0@);
                        assert(self.entries@[b].0@ == before[b].0@);
                    }
                }
            },
            None => {
                proof {
                    lemma_pairs_push(before, (name, value));
                    lemma_assign_push(Map::empty(), pairs, name@, value@);
                }
                self.entries.push((name, value));
            },
        }
    }

    /// Gives a copy of the variables.
    pub fn copy(&self) -> (vars: Variables)
        requires
            self.wf(),
        ensures
            vars.wf(),
            vars@ == self@,
            vars.entries() == self.entries(),
    {
        let mut entries: Vec<(String, String)> = Vec::new();
        let mut i: usize = 0;
        while i < self.entries.len()
            invariant
                i <= self.entries@.len(),
                entries@ == self.entries@.take(i as int),
            decreases self.entries.len() - i,
        {
            let entry = &self.entries[i];
            entries.push((entry.0.clone(), entry.1.clone()));
            assert(self.entries@.take(i + 1) =~= self.entries@.take(i as int).push(
                self.entries@[i as int],
            ));
            i += 1;
        }
        assert(self.entries@.take(i as int) =~= self.entries@);
        Variables { entries }
    }

    /// Gives each name of `other` the value that it has there, in place of the
    /// one it had here, if any.
    pub fn extend(&mut self, other: &Variables)
        requires
            old(self).wf(),
            other.wf(),
        ensures
            final(self).wf(),
            final(self)@ == old(self)@.union_prefer_right(other@),
    {
        let mut i: usize = 0;
        assert(pairs_of(other.entries@.take(0)) =~= Seq::<(Seq<char>, Seq<char>)>::empty());
        while i < other.entries.len()
            invariant
                i <= other.entries@.len(),
                self.wf(),
                self@ == assign(old(self)@, pairs_of(other.entries@.take(i as int))),
            decreases other.entries.len() - i,
        {
            let entry = &other.entries[i];
            proof {
                let seen = other.entries@.take(i as int);
                assert(other.entries@.take(i + 1) =~= seen.push(*entry));
                lemma_pairs_push(seen, *entry);
                lemma_assign_push(old(self)@, pairs_of(seen), entry.0@, entry.1@);
            }
            self.insert(entry.0.clone(), entry.1.clone());
            i += 1;
        }
        proof {
            assert(other.entries@.take(i as int) =~= other.entries@);
            lemma_assign_over(old(self)@, pairs_of(other.entries@));
        }
    }
}

/// The last value that the pairs give to a name is the value that the name
/// has in the end, whatever it had before.
pub proof fn lemma_assign_last_wins(vars: Map<Seq<char>, Seq<char>>, pairs: Pairs, at: int)
    requires
        0 <= at < pairs.len(),
        forall|j: int| at < j < pairs.len() ==> (#[trigger] pairs[j]).0 != pairs[at].0,
    ensures
        assign(vars, pairs).contains_key(pairs[at].0),
        assign(vars, pairs)[pairs[at].0] == pairs[at].1,
    decreases pairs.len(),
{
    if at < pairs.len() - 1 {
        lemma_assign_last_wins(vars, pairs.drop_last(), at);
    }
}

/// A name to which the pairs give no value keeps what it had before.
pub proof fn lemma_assign_keeps(vars: Map<Seq<char>, Seq<char>>, pairs: Pairs, name: Seq<char>)
    requires
        forall|j: int| 0 <= j < pairs.len() ==> (#[trigger] pairs[j]).0 != name,
    ensures
        assign(vars, pairs).contains_key(name) == vars.contains_key(name),
        vars.contains_key(name) ==> assign(vars, pairs)[name] == vars[name],
    decreases pairs.len(),
{
    if pairs.len() > 0 {
        lemma_assign_keeps(vars, pairs.drop_last(), name);
    }
}

/// Assigning pairs to variables gives what assigning them to none gives, laid
/// over the variables.
pub proof fn lemma_assign_over(vars: Map<Seq<char>, Seq<char>>, pairs: Pairs)
    ensures
        assign(vars, pairs) == vars.union_prefer_right(assign(Map::empty(), pairs)),
    decreases pairs.len(),
{
    let alone = assign(Map::empty(), pairs);
    if pairs.len() == 0 {
        assert(vars =~= vars.union_prefer_right(alone));
    } else {
        lemma_assign_over(vars, pairs.drop_last());
        let front = assign(Map::empty(), pairs.drop_last());
        assert(vars.union_prefer_right(front).insert(pairs.last().0, pairs.last().1)
            =~= vars.union_prefer_right(alone));
    }
}

} // verus!
