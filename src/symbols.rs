//! The symbol table: constants, substituted textually into instruction
//! lines, and labels, bound to instruction offsets.
use vstd::prelude::*;

use crate::error::{AsmError, Fault};
use crate::text::same_text;

verus! {

/// Constant and label bindings of one assembly run.
#[derive(Debug)]
pub struct SymbolTable {
    constants: Vec<(String, String)>,
    labels: Vec<(String, usize)>,
}

/// What a token becomes under the constants `m`: the bound value if it is a
/// constant's name, else the token itself. The value is not substituted again.
pub open spec fn subst(m: Map<Seq<char>, Seq<char>>, t: Seq<char>) -> Seq<char> {
    if m.contains_key(t) {
        m[t]
    } else {
        t
    }
}

spec fn constant_keys_unique(v: Seq<(String, String)>) -> bool {
    forall|i: int, j: int|
        0 <= i < v.len() && 0 <= j < v.len() && (#[trigger] v[i].0)@ == (#[trigger] v[j].0)@
            ==> i == j
}

spec fn label_keys_unique(v: Seq<(String, usize)>) -> bool {
    forall|i: int, j: int|
        0 <= i < v.len() && 0 <= j < v.len() && (#[trigger] v[i].0)@ == (#[trigger] v[j].0)@
            ==> i == j
}

spec fn constant_map(v: Seq<(String, String)>) -> Map<Seq<char>, Seq<char>> {
    Map::new(
        |k: Seq<char>| exists|i: int| 0 <= i < v.len() && (#[trigger] v[i].0)@ == k,
        |k: Seq<char>| v[choose|i: int| 0 <= i < v.len() && (#[trigger] v[i].0)@ == k].1@,
    )
}

spec fn label_map(v: Seq<(String, usize)>) -> Map<Seq<char>, usize> {
    Map::new(
        |k: Seq<char>| exists|i: int| 0 <= i < v.len() && (#[trigger] v[i].0)@ == k,
        |k: Seq<char>| v[choose|i: int| 0 <= i < v.len() && (#[trigger] v[i].0)@ == k].1,
    )
}

proof fn lemma_constant_at(v: Seq<(String, String)>, i: int)
    requires
        constant_keys_unique(v),
        0 <= i < v.len(),
    ensures
        constant_map(v).contains_key(v[i].0@),
        constant_map(v)[v[i].0@] == v[i].1@,
{
    let k = v[i].0@;
    assert(exists|j: int| 0 <= j < v.len() && (#[trigger] v[j].0)@ == k);
    let j = choose|j: int| 0 <= j < v.len() && (#[trigger] v[j].0)@ == k;
    assert(v[j].0@ == v[i].0@);
}

proof fn lemma_label_at(v: Seq<(String, usize)>, i: int)
    requires
        label_keys_unique(v),
        0 <= i < v.len(),
    ensures
        label_map(v).contains_key(v[i].0@),
        label_map(v)[v[i].0@] == v[i].1,
{
    let k = v[i].0@;
    assert(exists|j: int| 0 <= j < v.len() && (#[trigger] v[j].0)@ == k);
    let j = choose|j: int| 0 <= j < v.len() && (#[trigger] v[j].0)@ == k;
    assert(v[j].0@ == v[i].0@);
}

impl SymbolTable {
    /// Every name is bound at most once.
    pub closed spec fn wf(&self) -> bool {
        constant_keys_unique(self.constants@) && label_keys_unique(self.labels@)
    }

    /// The constants, by name.
    pub closed spec fn constants(&self) -> Map<Seq<char>, Seq<char>> {
        constant_map(self.constants@)
    }

    /// The labels, by name, with the offsets they were bound to.
    pub closed spec fn labels(&self) -> Map<Seq<char>, usize> {
        label_map(self.labels@)
    }

    /// A table with no bindings.
    pub fn new() -> (r: SymbolTable)
        ensures
            r.wf(),
            r.constants() == Map::<Seq<char>, Seq<char>>::empty(),
            r.labels() == Map::<Seq<char>, usize>::empty(),
    {
        let r = SymbolTable { constants: Vec::new(), labels: Vec::new() };
        assert(r.constants() =~= Map::<Seq<char>, Seq<char>>::empty());
        assert(r.labels() =~= Map::<Seq<char>, usize>::empty());
        r
    }

    fn constant_index(&self, name: &str) -> (r: Option<usize>)
        ensures
            match r {
                Some(i) => i < self.constants@.len() && self.constants@[i as int].0@ == name@,
                None => forall|i: int|
                    0 <= i < self.constants@.len() ==> (#[trigger] self.constants@[i].0)@
                        != name@,
            },
    {
        let mut i: usize = 0;
        while i < self.constants.len()
            invariant
                i <= self.constants@.len(),
                forall|j: int| 0 <= j < i ==> (#[trigger] self.constants@[j].0)@ != name@,
            decreases self.constants@.len() - i,
        {
            if same_text(self.constants[i].0.as_str(), name) {
                return Some(i);
            }
            i += 1;
        }
        None
    }

    fn label_index(&self, name: &str) -> (r: Option<usize>)
        ensures
            match r {
                Some(i) => i < self.labels@.len() && self.labels@[i as int].0@ == name@,
                None => forall|i: int|
                    0 <= i < self.labels@.len() ==> (#[trigger] self.labels@[i].0)@ != name@,
            },
    {
        let mut i: usize = 0;
        while i < self.labels.len()
            invariant
                i <= self.labels@.len(),
                forall|j: int| 0 <= j < i ==> (#[trigger] self.labels@[j].0)@ != name@,
            decreases self.labels@.len() - i,
        {
            if same_text(self.labels[i].0.as_str(), name) {
                return Some(i);
            }
            i += 1;
        }
        None
    }

    /// Binds `name` to `value`, replacing an earlier binding of `name`.
    pub fn define_constant(&mut self, name: String, value: String)
        requires
            old(self).wf(),
        ensures
            final(self).wf(),
            final(self).constants() == old(self).constants().insert(name@, value@),
            final(self).labels() == old(self).labels(),
    {
        let ghost before = self.constants@;
        let ghost m0 = constant_map(before);
        let ghost (nk, nv) = (name@, value@);
        match self.constant_index(name.as_str()) {
            Some(i) => {
                self.constants.set(i, (name, value));
                let ghost after = self.constants@;
                assert forall|a: int, b: int|
                    0 <= a < after.len() && 0 <= b < after.len() && (#[trigger] after[a].0)@ == (
                    #[trigger] after[b].0)@ implies a == b by {
                    if a != i && b != i {
                        assert(before[a] == after[a] && before[b] == after[b]);
                    } else if a != i {
                        assert(before[a].0@ == before[i as int].0@);
                    } else if b != i {
                        assert(before[b].0@ == before[i as int].0@);
                    }
                }
                assert forall|k: Seq<char>| #[trigger] constant_map(after).contains_key(k) == m0.insert(
                    nk,
                    nv,
                ).contains_key(k) by {
                    if constant_map(after).contains_key(k) {
                        let j = choose|j: int| 0 <= j < after.len() && (#[trigger] after[j].0)@ == k;
                        if j != i {
                            assert(before[j] == after[j]);
                        }
                    }
                    if m0.contains_key(k) {
                        let j = choose|j: int| 0 <= j < before.len() && (#[trigger] before[j].0)@ == k;
                        if j != i {
                            assert(before[j] == after[j]);
                        } else {
                            assert(after[j].0@ == k);
                        }
                    }
                    if k == nk {
                        assert(after[i as int].0@ == k);
                    }
                }
                assert forall|k: Seq<char>| #[trigger] constant_map(after).contains_key(k) implies constant_map(after)[k] == m0.insert(nk, nv)[k] by {
                    let j = choose|j: int| 0 <= j < after.len() && (#[trigger] after[j].0)@ == k;
                    lemma_constant_at(after, j);
                    if j != i {
                        assert(before[j] == after[j]);
                        lemma_constant_at(before, j);
                    }
                }
                assert(constant_map(after) =~= m0.insert(nk, nv));
            },
            None => {
                self.constants.push((name, value));
                let ghost after = self.constants@;
                let ghost n = before.len() as int;
                assert forall|a: int, b: int|
                    0 <= a < after.len() && 0 <= b < after.len() && (#[trigger] after[a].0)@ == (
                    #[trigger] after[b].0)@ implies a == b by {
                    if a < n && b < n {
                        assert(before[a] == after[a] && before[b] == after[b]);
                    } else if a < n {
                        assert(before[a] == after[a]);
                    } else if b < n {
                        assert(before[b] == after[b]);
                    }
                }
                assert forall|k: Seq<char>| #[trigger] constant_map(after).contains_key(k) == m0.insert(
                    nk,
                    nv,
                ).contains_key(k) by {
                    if constant_map(after).contains_key(k) {
                        let j = choose|j: int| 0 <= j < after.len() && (#[trigger] after[j].0)@ == k;
                        if j < n {
                            assert(before[j] == after[j]);
                        }
                    }
                    if m0.contains_key(k) {
                        let j = choose|j: int| 0 <= j < before.len() && (#[trigger] before[j].0)@ == k;
                        assert(before[j] == after[j]);
                    }
                    if k == nk {
                        assert(after[n].0@ == k);
                    }
                }
                assert forall|k: Seq<char>| #[trigger] constant_map(after).contains_key(k) implies constant_map(after)[k] == m0.insert(nk, nv)[k] by {
                    let j = choose|j: int| 0 <= j < after.len() && (#[trigger] after[j].0)@ == k;
                    lemma_constant_at(after, j);
                    if j < n {
                        assert(before[j] == after[j]);
                        lemma_constant_at(before, j);
                    }
                }
                assert(constant_map(after) =~= m0.insert(nk, nv));
            },
        }
    }

    /// Binds the label `name` to `offset`. A name that is bound already is
    /// refused, and the table is left as it was.
    pub fn define_label(&mut self, name: String, offset: usize) -> (r: Result<(), AsmError>)
        requires
            old(self).wf(),
        ensures
            final(self).wf(),
            final(self).constants() == old(self).constants(),
            old(self).labels().contains_key(name@) ==> final(self).labels() == old(self).labels()
                && r == Err::<(), AsmError>(AsmError::AmbiguousLabel { name }),
            !old(self).labels().contains_key(name@) ==> final(self).labels() == old(
                self,
            ).labels().insert(name@, offset) && r is Ok,
    {
        let ghost before = self.labels@;
        let ghost m0 = label_map(before);
        match self.label_index(name.as_str()) {
            Some(i) => {
                proof {
                    lemma_label_at(before, i as int);
                }
                Err(AsmError::AmbiguousLabel { name })
            },
            None => {
                let ghost nk = name@;
                assert(!m0.contains_key(nk));
                self.labels.push((name, offset));
                let ghost after = self.labels@;
                let ghost n = before.len() as int;
                assert forall|a: int, b: int|
                    0 <= a < after.len() && 0 <= b < after.len() && (#[trigger] after[a].0)@ == (
                    #[trigger] after[b].0)@ implies a == b by {
                    if a < n && b < n {
                        assert(before[a] == after[a] && before[b] == after[b]);
                    } else if a < n {
                        assert(before[a] == after[a]);
                    } else if b < n {
                        assert(before[b] == after[b]);
                    }
                }
                assert forall|k: Seq<char>| #[trigger] label_map(after).contains_key(k) == m0.insert(
                    nk,
                    offset,
                ).contains_key(k) by {
                    if label_map(after).contains_key(k) {
                        let j = choose|j: int| 0 <= j < after.len() && (#[trigger] after[j].0)@ == k;
                        if j < n {
                            assert(before[j] == after[j]);
                        }
                    }
                    if m0.contains_key(k) {
                        let j = choose|j: int| 0 <= j < before.len() && (#[trigger] before[j].0)@ == k;
                        assert(before[j] == after[j]);
                    }
                    if k == nk {
                        assert(after[n].0@ == k);
                    }
                }
                assert forall|k: Seq<char>| #[trigger] label_map(after).contains_key(k) implies label_map(after)[k] == m0.insert(nk, offset)[k] by {
                    let j = choose|j: int| 0 <= j < after.len() && (#[trigger] after[j].0)@ == k;
                    lemma_label_at(after, j);
                    if j < n {
                        assert(before[j] == after[j]);
                        lemma_label_at(before, j);
                    }
                }
                assert(label_map(after) =~= m0.insert(nk, offset));
                Ok(())
            },
        }
    }

    /// The token with constant substitution applied once.
    pub fn substitute(&self, token: &str) -> (r: String)
        requires
            self.wf(),
        ensures
            r@ == subst(self.constants(), token@),
    {
        match self.constant_index(token) {
            Some(i) => {
                proof {
                    lemma_constant_at(self.constants@, i as int);
                }
                self.constants[i].1.clone()
            },
            None => {
                assert(!self.constants().contains_key(token@));
                token.to_owned()
            },
        }
    }

    /// The offset that the label `name` was bound to.
    pub fn resolve_label(&self, name: &str) -> (r: Result<usize, AsmError>)
        requires
            self.wf(),
        ensures
            self.labels().contains_key(name@) ==> r == Ok::<usize, AsmError>(self.labels()[name@]),
            !self.labels().contains_key(name@) ==> r is Err && r->Err_0@ == Fault::UnknownLabel(name@),
    {
        match self.label_index(name) {
            Some(i) => {
                proof {
                    lemma_label_at(self.labels@, i as int);
                }
                Ok(self.labels[i].1)
            },
            None => {
                assert(!self.labels().contains_key(name@));
                Err(AsmError::UnknownLabel { name: name.to_owned() })
            },
        }
    }
}

} // verus!
