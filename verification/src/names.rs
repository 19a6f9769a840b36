//! An ordered set of identifiers: the names an analysis collects, kept sorted
//! by character code and free of duplicates, so every walk over them is
//! deterministic.

use crate::llty::texts;
use crate::text::owned;
use vstd::prelude::*;
use vstd::string::StrSliceExecFns;

verus! {

/// `a` sorts strictly before `b`: the lexicographic order of character codes
/// (the order of their UTF-8 bytes as well).
pub open spec fn lex_lt(a: Seq<char>, b: Seq<char>) -> bool
    decreases a.len(),
{
    if a.len() == 0 {
        b.len() > 0
    } else if b.len() == 0 {
        false
    } else if a[0] != b[0] {
        (a[0] as u32) < (b[0] as u32)
    } else {
        lex_lt(a.drop_first(), b.drop_first())
    }
}

/// Nothing sorts before itself.
pub proof fn lemma_lex_irreflexive(a: Seq<char>)
    ensures
        !lex_lt(a, a),
    decreases a.len(),
{
    if a.len() > 0 {
        lemma_lex_irreflexive(a.drop_first());
    }
}

/// Different characters have different codes.
proof fn lemma_char_code_injective(c: char, d: char)
    ensures
        c != d ==> (c as u32) != (d as u32),
{
}

/// Two different names are ordered one way or the other.
pub proof fn lemma_lex_total(a: Seq<char>, b: Seq<char>)
    ensures
        a != b ==> (lex_lt(a, b) || lex_lt(b, a)),
    decreases a.len(),
{
    if a.len() > 0 && b.len() > 0 && a[0] == b[0] {
        lemma_lex_total(a.drop_first(), b.drop_first());
        if a.drop_first() =~= b.drop_first() {
            assert forall|k: int| 0 <= k < a.len() implies a[k] == b[k] by {
                if k > 0 {
                    assert(a[k] == a.drop_first()[k - 1]);
                    assert(b[k] == b.drop_first()[k - 1]);
                }
            }
            assert(a =~= b);
        }
    } else if a.len() > 0 && b.len() > 0 && a[0] != b[0] {
        lemma_char_code_injective(a[0], b[0]);
    } else if a.len() == 0 && b.len() == 0 {
        assert(a =~= b);
    }
}

/// The order is transitive.
pub proof fn lemma_lex_transitive(a: Seq<char>, b: Seq<char>, c: Seq<char>)
    requires
        lex_lt(a, b),
        lex_lt(b, c),
    ensures
        lex_lt(a, c),
    decreases a.len(),
{
    if a.len() > 0 && b.len() > 0 && c.len() > 0 && a[0] == b[0] && b[0] == c[0] {
        lemma_lex_transitive(a.drop_first(), b.drop_first(), c.drop_first());
    }
}

/// The order is asymmetric.
pub proof fn lemma_lex_asymmetric(a: Seq<char>, b: Seq<char>)
    requires
        lex_lt(a, b),
    ensures
        !lex_lt(b, a),
{
    if lex_lt(b, a) {
        lemma_lex_transitive(a, b, a);
        lemma_lex_irreflexive(a);
    }
}

/// Whether `a` sorts strictly before `b`.
pub fn str_lt(a: &str, b: &str) -> (r: bool)
    ensures
        r == lex_lt(a@, b@),
{
    let n = a.unicode_len();
    let m = b.unicode_len();
    let mut i: usize = 0;
    assert(a@.skip(0) =~= a@);
    assert(b@.skip(0) =~= b@);
    while i < n && i < m
        invariant
            n == a@.len(),
            m == b@.len(),
            i <= n,
            i <= m,
            lex_lt(a@, b@) == lex_lt(a@.skip(i as int), b@.skip(i as int)),
        decreases n - i,
    {
        let x = a.get_char(i);
        let y = b.get_char(i);
        proof {
            assert(a@.skip(i as int)[0] == x);
            assert(b@.skip(i as int)[0] == y);
        }
        if x != y {
            return (x as u32) < (y as u32);
        }
        proof {
            assert(a@.skip(i as int).drop_first() =~= a@.skip(i + 1));
            assert(b@.skip(i as int).drop_first() =~= b@.skip(i + 1));
        }
        i = i + 1;
    }
    i == n && i < m
}

/// The names are strictly increasing.
pub open spec fn sorted(names: Seq<Seq<char>>) -> bool {
    forall|i: int, j: int| 0 <= i < j < names.len() ==> lex_lt(names[i], names[j])
}

/// A set of names, kept sorted and free of duplicates.
#[derive(Debug)]
pub struct NameSet {
    names: Vec<String>,
}

impl NameSet {
    /// The names, in increasing order.
    pub closed spec fn list(&self) -> Seq<Seq<char>> {
        texts(self.names@)
    }

    /// The set of names.
    pub open spec fn set(&self) -> Set<Seq<char>> {
        self.list().to_set()
    }

    /// The list is sorted, hence free of duplicates.
    pub closed spec fn wf(&self) -> bool {
        sorted(self.list())
    }

    /// An empty set.
    pub fn new() -> (r: NameSet)
        ensures
            r.wf(),
            r.list() == Seq::<Seq<char>>::empty(),
            r.set() == Set::<Seq<char>>::empty(),
    {
        let r = NameSet { names: Vec::new() };
        assert(r.list() =~= Seq::<Seq<char>>::empty());
        assert(r.set() =~= Set::<Seq<char>>::empty());
        r
    }

    /// A well-formed set lists its names in increasing order.
    pub proof fn lemma_sorted(&self)
        requires
            self.wf(),
        ensures
            sorted(self.list()),
    {
    }

    /// A sorted list holds each name once.
    pub proof fn lemma_no_duplicates(&self)
        requires
            self.wf(),
        ensures
            self.list().no_duplicates(),
    {
        assert forall|i: int, j: int|
            0 <= i < self.list().len() && 0 <= j < self.list().len() && i != j implies self.list()[i]
            != self.list()[j] by {
            if i < j {
                lemma_lex_irreflexive(self.list()[i]);
            } else {
                lemma_lex_irreflexive(self.list()[j]);
            }
        }
    }

    /// The number of names.
    pub fn len(&self) -> (r: usize)
        requires
            self.wf(),
        ensures
            r == self.set().len(),
            r == self.list().len(),
    {
        proof {
            self.lemma_no_duplicates();
            self.list().unique_seq_to_set();
        }
        self.names.len()
    }

    /// The position of the first name not sorting before `name`.
    fn position(&self, name: &str) -> (r: usize)
        requires
            self.wf(),
        ensures
            r <= self.list().len(),
            forall|k: int| 0 <= k < r ==> lex_lt(#[trigger] self.list()[k], name@),
            r < self.list().len() ==> !lex_lt(self.list()[r as int], name@),
    {
        let mut i: usize = 0;
        while i < self.names.len()
            invariant
                self.wf(),
                i <= self.list().len(),
                self.list().len() == self.names@.len(),
                forall|k: int| 0 <= k < i ==> lex_lt(#[trigger] self.list()[k], name@),
            decreases self.names@.len() - i,
        {
            if !str_lt(self.names[i].as_str(), name) {
                return i;
            }
            i = i + 1;
        }
        i
    }

    /// Whether `name` is in the set.
    pub fn contains(&self, name: &str) -> (r: bool)
        requires
            self.wf(),
        ensures
            r == self.set().contains(name@),
    {
        let i = self.position(name);
        let found = i < self.names.len() && crate::text::str_eq(self.names[i].as_str(), name);
        proof {
            if !found && self.set().contains(name@) {
                let k = choose|k: int| 0 <= k < self.list().len() && self.list()[k] == name@;
                if k < i {
                    lemma_lex_irreflexive(name@);
                } else if k > i {
                    lemma_lex_total(self.list()[i as int], name@);
                    lemma_lex_transitive(self.list()[i as int], name@, self.list()[k]);
                    lemma_lex_asymmetric(self.list()[i as int], self.list()[k]);
                    lemma_lex_irreflexive(name@);
                }
            }
            if found {
                assert(self.list()[i as int] == name@);
            }
        }
        found
    }

    /// Add `name`; a name already present is not added twice.
    pub fn insert(&mut self, name: &str)
        requires
            old(self).wf(),
        ensures
            final(self).wf(),
            final(self).set() == old(self).set().insert(name@),
    {
        let i = self.position(name);
        if i < self.names.len() && crate::text::str_eq(self.names[i].as_str(), name) {
            assert(self.set() =~= self.set().insert(name@));
            return;
        }
        let ghost before = self.list();
        proof {
            if i < before.len() {
                lemma_lex_total(before[i as int], name@);
                assert(lex_lt(name@, before[i as int]));
            }
        }
        self.names.insert(i, owned(name));
        proof {
            let after = self.list();
            assert(after =~= before.insert(i as int, name@));
            assert forall|a: int, b: int| 0 <= a < b < after.len() implies lex_lt(
                after[a],
                after[b],
            ) by {
                if b < i {
                } else if a < i && b == i {
                } else if a < i && b > i {
                    if b - 1 > i {
                        lemma_lex_transitive(name@, before[i as int], before[b - 1]);
                    }
                    lemma_lex_transitive(after[a], name@, after[b]);
                } else if a == i {
                    if b == i + 1 {
                    } else {
                        lemma_lex_transitive(name@, before[i as int], after[b]);
                    }
                }
            }
            assert forall|x: Seq<char>| after.to_set().contains(x) <==> before.to_set().insert(
                name@,
            ).contains(x) by {
                if after.to_set().contains(x) {
                    let k = choose|k: int| 0 <= k < after.len() && after[k] == x;
                    if k < i {
                        assert(before[k] == x);
                    } else if k > i {
                        assert(before[k - 1] == x);
                    }
                }
                if before.to_set().contains(x) {
                    let k = choose|k: int| 0 <= k < before.len() && before[k] == x;
                    if k < i {
                        assert(after[k] == x);
                    } else {
                        assert(after[k + 1] == x);
                    }
                }
                if x == name@ {
                    assert(after[i as int] == x);
                }
            }
            assert(after.to_set() =~= before.to_set().insert(name@));
        }
    }

    /// The names in both `self` and `other`, in order.
    pub fn intersection(&self, other: &NameSet) -> (r: NameSet)
        requires
            self.wf(),
            other.wf(),
        ensures
            r.wf(),
            r.set() == self.set().intersect(other.set()),
    {
        let mut r = NameSet::new();
        let ghost l = self.list();
        let mut i: usize = 0;
        assert(r.set() =~= l.subrange(0, 0).to_set().intersect(other.set()));
        while i < self.names.len()
            invariant
                l == self.list(),
                l.len() == self.names@.len(),
                i <= l.len(),
                r.wf(),
                other.wf(),
                r.set() == l.subrange(0, i as int).to_set().intersect(other.set()),
            decreases self.names@.len() - i,
        {
            let ghost before = r.set();
            let name = self.names[i].as_str();
            if other.contains(name) {
                r.insert(name);
            }
            proof {
                assert(l[i as int] == name@);
                let a = l.subrange(0, i + 1);
                let b = l.subrange(0, i as int);
                assert forall|x: Seq<char>| #[trigger] a.to_set().contains(x) <==> (b.to_set().contains(
                    x,
                ) || x == name@) by {
                    if a.to_set().contains(x) {
                        let k = choose|k: int| 0 <= k < a.len() && a[k] == x;
                        if k < i {
                            assert(b[k] == x);
                        }
                    }
                    if b.to_set().contains(x) {
                        let k = choose|k: int| 0 <= k < b.len() && b[k] == x;
                        assert(a[k] == x);
                    }
                    if x == name@ {
                        assert(a[i as int] == x);
                    }
                }
                assert(r.set() =~= l.subrange(0, i + 1).to_set().intersect(other.set()));
            }
            i = i + 1;
        }
        assert(l.subrange(0, i as int) =~= l);
        r
    }

    /// The names, in increasing order.
    pub fn as_slice(&self) -> (r: &[String])
        ensures
            texts(r@) == self.list(),
    {
        self.names.as_slice()
    }
}

} // verus!
