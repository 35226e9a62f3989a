//! A small string-keyed map with unique keys, stored as an association
//! vector.  It stands in for hash maps wherever the library's logic
//! reads or fills one: the metadata bag of a file and the content-hash
//! index both use it.

use vstd::prelude::*;
use vstd::string::StringExecFns;

use crate::strutil::str_eq;

verus! {

/// First value bound to `k` in the association list `m`.
pub open spec fn spec_get(m: Seq<(Seq<char>, Seq<char>)>, k: Seq<char>) -> Option<Seq<char>>
    decreases m.len(),
{
    if m.len() == 0 {
        None
    } else if m[0].0 == k {
        Some(m[0].1)
    } else {
        spec_get(m.drop_first(), k)
    }
}

/// No key occurs twice.
pub open spec fn unique_keys(m: Seq<(Seq<char>, Seq<char>)>) -> bool {
    forall|i: int, j: int| 0 <= i < j < m.len() ==> (#[trigger] m[i]).0 != (#[trigger] m[j]).0
}

/// A mapping from strings to strings with unique keys; insertion
/// replaces the value of an existing key in place.
#[derive(Clone)]
pub struct StringMap {
    pairs: Vec<(String, String)>,
}

impl View for StringMap {
    type V = Seq<(Seq<char>, Seq<char>)>;

    closed spec fn view(&self) -> Seq<(Seq<char>, Seq<char>)> {
        self.pairs@.map_values(|p: (String, String)| (p.0@, p.1@))
    }
}

pub proof fn lemma_spec_get_present(m: Seq<(Seq<char>, Seq<char>)>, i: int)
    requires
        0 <= i < m.len(),
        forall|j: int| 0 <= j < i ==> (#[trigger] m[j]).0 != m[i].0,
    ensures
        spec_get(m, m[i].0) == Some(m[i].1),
    decreases m.len(),
{
    if i > 0 {
        let d = m.drop_first();
        assert forall|j: int| 0 <= j < i - 1 implies (#[trigger] d[j]).0 != d[i - 1].0 by {
            assert(d[j] == m[j + 1]);
        }
        lemma_spec_get_present(d, i - 1);
    }
}

pub proof fn lemma_spec_get_absent(m: Seq<(Seq<char>, Seq<char>)>, k: Seq<char>)
    requires
        forall|i: int| 0 <= i < m.len() ==> (#[trigger] m[i]).0 != k,
    ensures
        spec_get(m, k) is None,
    decreases m.len(),
{
    if m.len() > 0 {
        let d = m.drop_first();
        assert forall|i: int| 0 <= i < d.len() implies (#[trigger] d[i]).0 != k by {
            assert(d[i] == m[i + 1]);
        }
        lemma_spec_get_absent(d, k);
    }
}

impl StringMap {
    /// The map's keys are unique; all operations keep this.
    pub open spec fn wf(&self) -> bool {
        unique_keys(self@)
    }

    pub fn new() -> (r: StringMap)
        ensures
            r@ == Seq::<(Seq<char>, Seq<char>)>::empty(),
            r.wf(),
    {
        let r = StringMap { pairs: Vec::new() };
        proof {
            assert(r@ =~= Seq::<(Seq<char>, Seq<char>)>::empty());
        }
        r
    }

    pub fn len(&self) -> (r: usize)
        ensures
            r == self@.len(),
    {
        self.pairs.len()
    }

    /// Looks a key up; the returned value is a copy.
    pub fn get(&self, key: &str) -> (r: Option<String>)
        ensures
            match r {
                Some(v) => spec_get(self@, key@) == Some(v@),
                None => spec_get(self@, key@) is None,
            },
    {
        let n = self.pairs.len();
        proof {
            assert(self@.skip(0) =~= self@);
        }
        let mut i: usize = 0;
        while i < n
            invariant
                n == self@.len(),
                n == self.pairs@.len(),
                i <= n,
                spec_get(self@, key@) == spec_get(self@.skip(i as int), key@),
                forall|j: int| 0 <= j < n ==> self@[j] == ((#[trigger] self.pairs@[j]).0@, self.pairs@[j].1@),
            decreases n - i,
        {
            if str_eq(self.pairs[i].0.as_str(), key) {
                proof {
                    assert(self@.skip(i as int)[0] == self@[i as int]);
                }
                return Some(self.pairs[i].1.clone());
            }
            proof {
                assert(self@.skip(i as int)[0] == self@[i as int]);
                assert(self@.skip(i as int).drop_first() =~= self@.skip(i as int + 1));
            }
            i = i + 1;
        }
        proof {
            assert(self@.skip(n as int) =~= Seq::<(Seq<char>, Seq<char>)>::empty());
        }
        None
    }

    /// The entry at position `i`, as copies.
    pub fn entry(&self, i: usize) -> (r: (String, String))
        requires
            i < self@.len(),
        ensures
            (r.0@, r.1@) == self@[i as int],
    {
        let p = &self.pairs[i];
        (p.0.clone(), p.1.clone())
    }

    /// Binds `key` to `value`, replacing any earlier binding in place.
    pub fn insert(&mut self, key: String, value: String)
        requires
            old(self).wf(),
        ensures
            final(self).wf(),
            spec_get(final(self)@, key@) == Some(value@),
            forall|k: Seq<char>|
                k != key@ ==> #[trigger] spec_get(final(self)@, k) == spec_get(old(self)@, k),
            final(self)@.len() == if spec_get(old(self)@, key@) is Some {
                old(self)@.len()
            } else {
                old(self)@.len() + 1
            },
    {
        let ghost m0 = self@;
        let n = self.pairs.len();
        let mut i: usize = 0;
        while i < n
            invariant
                n == m0.len(),
                n == self.pairs@.len(),
                i <= n,
                self@ == m0,
                m0 == old(self)@,
                unique_keys(m0),
                forall|j: int| 0 <= j < i ==> (#[trigger] m0[j]).0 != key@,
                forall|j: int| 0 <= j < n ==> m0[j] == ((#[trigger] self.pairs@[j]).0@, self.pairs@[j].1@),
            decreases n - i,
        {
            if str_eq(self.pairs[i].0.as_str(), key.as_str()) {
                proof {
                    lemma_spec_get_present(m0, i as int);
                }
                let ghost km = key@;
                let ghost vm = value@;
                self.pairs.set(i, (key, value));
                proof {
                    let m1 = self@;
                    assert(m0[i as int].0 == km);
                    assert(m1 =~= m0.update(i as int, (km, vm)));
                    assert(m1[i as int] == (km, vm));
                    assert forall|a: int, b: int| 0 <= a < b < m1.len() implies (#[trigger] m1[a]).0
                        != (#[trigger] m1[b]).0 by {
                        if a != i {
                            assert(m1[a] == m0[a]);
                        }
                        if b != i {
                            assert(m1[b] == m0[b]);
                        }
                        assert(m0[a].0 != m0[b].0);
                    }
                    assert forall|j: int| 0 <= j < i implies (#[trigger] m1[j]).0 != m1[i as int].0
                        by {
                        assert(m1[j] == m0[j]);
                    }
                    lemma_spec_get_present(m1, i as int);
                    assert forall|k: Seq<char>|
                        k != km implies #[trigger] spec_get(m1, k) == spec_get(m0, k) by {
                        lemma_spec_get_update_other(m0, i as int, (km, vm), k);
                    }
                }
                return ;
            }
            i = i + 1;
        }
        proof {
            lemma_spec_get_absent(m0, key@);
        }
        let ghost km = key@;
        let ghost vm = value@;
        self.pairs.push((key, value));
        proof {
            let m1 = self@;
            assert(m1 =~= m0.push((km, vm)));
            assert forall|a: int, b: int| 0 <= a < b < m1.len() implies (#[trigger] m1[a]).0 != (
            #[trigger] m1[b]).0 by {
                if b < m0.len() {
                } else {
                    assert(m1[b] == (km, vm));
                    assert(m0[a].0 != km);
                }
            }
            lemma_spec_get_push(m0, (km, vm), km);
            assert forall|k: Seq<char>|
                k != km implies #[trigger] spec_get(m1, k) == spec_get(m0, k) by {
                lemma_spec_get_push(m0, (km, vm), k);
            }
        }
    }
}

proof fn lemma_spec_get_update_other(
    m: Seq<(Seq<char>, Seq<char>)>,
    i: int,
    p: (Seq<char>, Seq<char>),
    k: Seq<char>,
)
    requires
        0 <= i < m.len(),
        m[i].0 == p.0,
        k != p.0,
    ensures
        spec_get(m.update(i, p), k) == spec_get(m, k),
    decreases m.len(),
{
    let u = m.update(i, p);
    if i == 0 {
        assert(u[0] == p);
        assert(u.drop_first() =~= m.drop_first());
    } else {
        assert(u[0] == m[0]);
        if m[0].0 == k {
        } else {
            assert(u.drop_first() =~= m.drop_first().update(i - 1, p));
            lemma_spec_get_update_other(m.drop_first(), i - 1, p, k);
        }
    }
}

proof fn lemma_spec_get_push(
    m: Seq<(Seq<char>, Seq<char>)>,
    x: (Seq<char>, Seq<char>),
    k: Seq<char>,
)
    ensures
        spec_get(m.push(x), k) == (match spec_get(m, k) {
            Some(v) => Some(v),
            None => if x.0 == k {
                Some(x.1)
            } else {
                None
            },
        }),
    decreases m.len(),
{
    let u = m.push(x);
    if m.len() == 0 {
        assert(u[0] == x);
        assert(u.drop_first() =~= Seq::<(Seq<char>, Seq<char>)>::empty());
    } else {
        assert(u[0] == m[0]);
        assert(u.drop_first() =~= m.drop_first().push(x));
        lemma_spec_get_push(m.drop_first(), x, k);
    }
}

} // verus!
