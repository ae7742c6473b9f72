//! What the services that detect fills remember: fills that have been dealt with,
//! and amounts by order.
use crate::double::Double;
use crate::text;
use vstd::prelude::*;
use vstd::string::*;

verus! {

/// A set of names.
#[derive(Debug)]
pub struct ProcessedFills {
    names: Vec<String>,
}

/// `name` is among `names`.
pub open spec fn listed(names: Seq<String>, name: Seq<char>) -> bool {
    exists|i: int| 0 <= i < names.len() && (#[trigger] names[i])@ == name
}

impl View for ProcessedFills {
    type V = Set<Seq<char>>;

    closed spec fn view(&self) -> Set<Seq<char>> {
        Set::new(|name: Seq<char>| listed(self.names@, name))
    }
}

impl ProcessedFills {
    pub fn new() -> (p: ProcessedFills)
        ensures
            p@ == Set::<Seq<char>>::empty(),
    {
        let p = ProcessedFills { names: Vec::new() };
        assert(p@ =~= Set::<Seq<char>>::empty());
        p
    }

    pub fn contains(&self, name: &str) -> (r: bool)
        ensures
            r == self@.contains(name@),
    {
        let mut i: usize = 0;
        while i < self.names.len()
            invariant
                i <= self.names@.len(),
                forall|k: int| 0 <= k < i ==> (#[trigger] self.names@[k])@ != name@,
            decreases self.names@.len() - i,
        {
            if text::same(self.names[i].as_str(), name) {
                assert(listed(self.names@, name@));
                return true;
            }
            i = i + 1;
        }
        false
    }

    /// Adds a name; nothing changes if it is there already.
    pub fn insert(&mut self, name: String)
        ensures
            final(self)@ == old(self)@.insert(name@),
    {
        if !self.contains(name.as_str()) {
            let ghost before = self.names@;
            let ghost added = name@;
            self.names.push(name);
            proof {
                assert forall|n: Seq<char>| listed(self.names@, n) == (listed(before, n) || n
                    == added) by {
                    if listed(before, n) {
                        let i = choose|i: int| 0 <= i < before.len() && (#[trigger] before[i])@ == n;
                        assert(self.names@[i]@ == n);
                    }
                    if n == added {
                        assert(self.names@[before.len() as int]@ == n);
                    }
                    if listed(self.names@, n) && n != added {
                        let i = choose|i: int|
                            0 <= i < self.names@.len() && (#[trigger] self.names@[i])@ == n;
                        assert(before[i]@ == n);
                    }
                }
            }
        }
        assert(self@ =~= old(self)@.insert(name@));
    }
}

/// Amounts by name.
#[derive(Debug)]
pub struct Amounts {
    rows: Vec<(String, Double)>,
}

/// The place of the first row with the name, the length without one.
pub closed spec fn row_of(rows: Seq<(String, Double)>, name: Seq<char>) -> int
    decreases rows.len(),
{
    if rows.len() == 0 || rows[0].0@ == name {
        0
    } else {
        1 + row_of(rows.drop_first(), name)
    }
}

proof fn lemma_row_of(rows: Seq<(String, Double)>, name: Seq<char>)
    ensures
        0 <= row_of(rows, name) <= rows.len(),
        row_of(rows, name) < rows.len() ==> rows[row_of(rows, name)].0@ == name,
        forall|i: int| 0 <= i < row_of(rows, name) ==> (#[trigger] rows[i]).0@ != name,
    decreases rows.len(),
{
    if rows.len() > 0 && rows[0].0@ != name {
        let rest = rows.drop_first();
        lemma_row_of(rest, name);
        assert forall|i: int| 0 <= i < row_of(rows, name) implies (#[trigger] rows[i]).0@
            != name by {
            if i > 0 {
                assert(rest[i - 1] == rows[i]);
            }
        }
    }
}

proof fn lemma_row_unique(rows: Seq<(String, Double)>, name: Seq<char>, k: int)
    requires
        0 <= k <= rows.len(),
        k < rows.len() ==> rows[k].0@ == name,
        forall|i: int| 0 <= i < k ==> (#[trigger] rows[i]).0@ != name,
    ensures
        row_of(rows, name) == k,
{
    lemma_row_of(rows, name);
    let p = row_of(rows, name);
    if p < k {
        assert(rows[p].0@ != name);
    } else if k < p {
        assert(rows[k].0@ != name);
    }
}

/// The amounts that the rows hold.
pub closed spec fn amounts(rows: Seq<(String, Double)>) -> Map<Seq<char>, Double> {
    Map::new(
        |name: Seq<char>| row_of(rows, name) < rows.len(),
        |name: Seq<char>| rows[row_of(rows, name)].1,
    )
}

impl View for Amounts {
    type V = Map<Seq<char>, Double>;

    closed spec fn view(&self) -> Map<Seq<char>, Double> {
        amounts(self.rows@)
    }
}

/// The amount under the name, 0 without one.
pub open spec fn amount_of(m: Map<Seq<char>, Double>, name: Seq<char>) -> Double {
    if m.contains_key(name) {
        m[name]
    } else {
        Double::whole_number(0)
    }
}

impl Amounts {
    /// No name stands in two rows.
    pub closed spec fn wf(&self) -> bool {
        forall|i: int, j: int|
            0 <= i < j < self.rows@.len() ==> self.rows@[i].0@ != self.rows@[j].0@
    }

    pub fn new() -> (a: Amounts)
        ensures
            a.wf(),
            a@ == Map::<Seq<char>, Double>::empty(),
    {
        let a = Amounts { rows: Vec::new() };
        assert(a@ =~= Map::<Seq<char>, Double>::empty());
        a
    }

    fn place(&self, name: &str) -> (k: usize)
        ensures
            k == row_of(self.rows@, name@),
            k <= self.rows@.len(),
            k < self.rows@.len() ==> self.rows@[k as int].0@ == name@,
    {
        let mut k: usize = 0;
        while k < self.rows.len() && !text::same(self.rows[k].0.as_str(), name)
            invariant
                k <= self.rows@.len(),
                forall|i: int| 0 <= i < k ==> (#[trigger] self.rows@[i]).0@ != name@,
            decreases self.rows@.len() - k,
        {
            k = k + 1;
        }
        proof {
            lemma_row_unique(self.rows@, name@, k as int);
        }
        k
    }

    pub fn get(&self, name: &str) -> (r: Option<Double>)
        ensures
            r == if self@.contains_key(name@) {
                Some(self@[name@])
            } else {
                None
            },
    {
        let k = self.place(name);
        if k < self.rows.len() {
            Some(self.rows[k].1)
        } else {
            None
        }
    }

    /// The amount under the name, 0 without one.
    pub fn get_or_zero(&self, name: &str) -> (d: Double)
        ensures
            d == amount_of(self@, name@),
    {
        match self.get(name) {
            Some(d) => d,
            None => Double::whole(0),
        }
    }

    pub fn insert(&mut self, name: &str, amount: Double)
        requires
            old(self).wf(),
        ensures
            final(self).wf(),
            final(self)@ == old(self)@.insert(name@, amount),
    {
        let k = self.place(name);
        let ghost before = self.rows@;
        proof {
            lemma_row_of(before, name@);
        }
        if k < self.rows.len() {
            self.rows.set(k, (name.to_owned(), amount));
        } else {
            self.rows.push((name.to_owned(), amount));
        }
        proof {
            let after = self.rows@;
            assert forall|n: Seq<char>|
                #[trigger] row_of(after, n) == (if n == name@ {
                    k as int
                } else if row_of(before, n) < before.len() {
                    row_of(before, n)
                } else {
                    after.len() as int
                }) && (n != name@ && row_of(before, n) < before.len() ==> after[row_of(before, n)]
                    == before[row_of(before, n)]) by {
                lemma_row_of(before, n);
                let p = if n == name@ {
                    k as int
                } else if row_of(before, n) < before.len() {
                    row_of(before, n)
                } else {
                    after.len() as int
                };
                lemma_row_unique(after, n, p);
            }
            assert(self@ =~= old(self)@.insert(name@, amount));
        }
    }

    pub fn remove(&mut self, name: &str)
        requires
            old(self).wf(),
        ensures
            final(self).wf(),
            final(self)@ == old(self)@.remove(name@),
    {
        let k = self.place(name);
        let ghost before = self.rows@;
        if k < self.rows.len() {
            self.rows.remove(k);
            proof {
                lemma_removed_row(before, self.rows@, k as int);
            }
        } else {
            assert(self@ =~= old(self)@.remove(name@));
        }
    }

    pub fn clear(&mut self)
        ensures
            final(self).wf(),
            final(self)@ == Map::<Seq<char>, Double>::empty(),
    {
        self.rows.clear();
        assert(self@ =~= Map::<Seq<char>, Double>::empty());
    }

    /// Keeps the amounts under the given names only.
    pub fn retain(&mut self, names: &Vec<String>)
        requires
            old(self).wf(),
        ensures
            final(self).wf(),
            final(self)@ == old(self)@.restrict(Set::new(|n: Seq<char>| listed(names@, n))),
    {
        let ghost kept = Set::new(|n: Seq<char>| listed(names@, n));
        let mut i: usize = 0;
        while i < self.rows.len()
            invariant
                i <= self.rows@.len(),
                self.wf(),
                kept == Set::new(|n: Seq<char>| listed(names@, n)),
                forall|k: int| 0 <= k < i ==> kept.contains((#[trigger] self.rows@[k]).0@),
                self@.restrict(kept) == old(self)@.restrict(kept),
                self@.dom().subset_of(old(self)@.dom()),
            decreases self.rows@.len() - i,
        {
            let mut j: usize = 0;
            while j < names.len() && !text::same(names[j].as_str(), self.rows[i].0.as_str())
                invariant
                    j <= names@.len(),
                    i < self.rows@.len(),
                    forall|k: int| 0 <= k < j ==> (#[trigger] names@[k])@ != self.rows@[i as int].0@,
                decreases names@.len() - j,
            {
                j = j + 1;
            }
            if j < names.len() {
                assert(kept.contains(self.rows@[i as int].0@));
                i = i + 1;
            } else {
                let name = self.rows[i].0.clone();
                let ghost before = self@;
                let ghost rows = self.rows@;
                assert(!kept.contains(name@));
                self.rows.remove(i);
                proof {
                    lemma_removed_row(rows, self.rows@, i as int);
                    assert(self@ == before.remove(name@));
                    assert(self@.restrict(kept) =~= before.restrict(kept));
                }
            }
        }
        proof {
            assert forall|n: Seq<char>| self@.contains_key(n) implies kept.contains(n) by {
                lemma_row_of(self.rows@, n);
                assert(self.rows@[row_of(self.rows@, n)].0@ == n);
            }
            assert(self@ =~= self@.restrict(kept));
        }
    }
}

/// Where no name stands twice, taking a row out takes its name out.
proof fn lemma_removed_row(before: Seq<(String, Double)>, after: Seq<(String, Double)>, k: int)
    requires
        0 <= k < before.len(),
        after == before.remove(k),
        forall|i: int, j: int| 0 <= i < j < before.len() ==> before[i].0@ != before[j].0@,
    ensures
        amounts(after) == amounts(before).remove(before[k].0@),
{
    let name = before[k].0@;
    lemma_row_unique(before, name, k);
    assert forall|n: Seq<char>| n != name implies (row_of(after, n) < after.len()) == (row_of(
        before,
        n,
    ) < before.len()) && (row_of(after, n) < after.len() ==> after[row_of(after, n)]
        == before[row_of(before, n)]) by {
        lemma_row_of(before, n);
        let p = row_of(before, n);
        let q = if k < p {
            p - 1
        } else {
            p
        };
        lemma_row_unique(after, n, q);
    }
    assert forall|i: int| 0 <= i < after.len() implies (#[trigger] after[i]).0@ != name by {
        if i >= k {
            assert(after[i] == before[i + 1]);
        }
    }
    lemma_row_unique(after, name, after.len() as int);
    assert(amounts(after) =~= amounts(before).remove(name));
}

} // verus!
