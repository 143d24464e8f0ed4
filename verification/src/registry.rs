//! The alias registry and short-name generator.
//!
//! The registry remembers, for each truncated base name, how many aliases
//! have been allocated under it during the run. The first alias under a base
//! is the base itself; the `k`-th further one is `base~k`. Because
//! transliterated bases never contain `~`, these names are pairwise
//! distinct within the run.

use vstd::prelude::*;
use crate::digits::{
    dec_rep, push_char, push_dec, lemma_dec_rep_len, lemma_dec_rep_digits,
    lemma_dec_rep_injective,
};
use crate::translit::{base_of, no_tilde, make_base};

verus! {

/// Why a rewrite cannot proceed. The only failure the engine itself can
/// produce is running out of collision suffixes for one base name; every
/// other failure of a run (link creation, workspace creation, spawning)
/// arises outside the engine.
#[derive(Debug, PartialEq, Eq, Structural, Clone, Copy)]
pub enum WrapError {
    /// Every collision index under one base name has been allocated.
    NamespaceExhausted,
}

/// The alias name allocated under `base` with collision index `k`: the base
/// itself for `k == 0`, `base~k` afterwards.
pub open spec fn alias_for(base: Seq<char>, k: nat) -> Seq<char> {
    if k == 0 {
        base
    } else {
        base + seq!['~'] + dec_rep(k)
    }
}

/// One base name with the number of aliases allocated under it so far.
pub struct RegEntry {
    pub base: String,
    pub count: usize,
}

/// How many aliases the entries record under `base` (zero when the base has
/// never been seen).
pub open spec fn reg_count(es: Seq<RegEntry>, base: Seq<char>) -> nat
    decreases es.len(),
{
    if es.len() == 0 {
        0
    } else if es.last().base@ == base {
        es.last().count as nat
    } else {
        reg_count(es.drop_last(), base)
    }
}

/// The registry of allocated alias names, keyed by truncated base name.
pub struct AliasRegistry {
    entries: Vec<RegEntry>,
}

impl AliasRegistry {
    /// Entries name pairwise distinct bases.
    pub closed spec fn wf(&self) -> bool {
        forall|i: int, j: int|
            0 <= i < j < self.entries@.len() ==> (#[trigger] self.entries@[i]).base@ != (
            #[trigger] self.entries@[j]).base@
    }

    /// The number of aliases allocated so far under `base`.
    pub closed spec fn spec_count(&self, base: Seq<char>) -> nat {
        reg_count(self.entries@, base)
    }

    /// An empty registry: no alias allocated under any base.
    pub fn new() -> (r: AliasRegistry)
        ensures
            r.wf(),
            forall|b: Seq<char>| #[trigger] r.spec_count(b) == 0,
    {
        let r = AliasRegistry { entries: Vec::new() };
        proof {
            assert forall|b: Seq<char>| #[trigger] r.spec_count(b) == 0 by {
                assert(r.entries@.len() == 0);
            }
        }
        r
    }

    /// A found entry holds the count `reg_count` describes.
    proof fn lemma_count_at(&self, i: int)
        requires
            self.wf(),
            0 <= i < self.entries@.len(),
        ensures
            self.spec_count(self.entries@[i].base@) == self.entries@[i].count,
    {
        Self::lemma_reg_count_at(self.entries@, i);
    }

    proof fn lemma_reg_count_at(es: Seq<RegEntry>, i: int)
        requires
            0 <= i < es.len(),
            forall|p: int, q: int|
                0 <= p < q < es.len() ==> (#[trigger] es[p]).base@ != (#[trigger] es[q]).base@,
        ensures
            reg_count(es, es[i].base@) == es[i].count,
        decreases es.len(),
    {
        if i < es.len() - 1 {
            assert(es.last().base@ != es[i].base@);
            assert(es.drop_last()[i] == es[i]);
            Self::lemma_reg_count_at(es.drop_last(), i);
        }
    }

    /// A base named by no entry has count zero.
    proof fn lemma_reg_count_absent(es: Seq<RegEntry>, base: Seq<char>)
        requires
            forall|i: int| 0 <= i < es.len() ==> (#[trigger] es[i]).base@ != base,
        ensures
            reg_count(es, base) == 0,
        decreases es.len(),
    {
        if es.len() > 0 {
            assert(es.drop_last() =~= es.take(es.len() - 1));
            Self::lemma_reg_count_absent(es.drop_last(), base);
        }
    }

    /// Updating one entry's count changes that base's count and no other,
    /// provided the bases are pairwise distinct.
    proof fn lemma_reg_count_update(old_es: Seq<RegEntry>, new_es: Seq<RegEntry>, i: int)
        requires
            0 <= i < old_es.len(),
            new_es.len() == old_es.len(),
            new_es[i].base@ == old_es[i].base@,
            forall|j: int| 0 <= j < old_es.len() && j != i ==> new_es[j] == old_es[j],
            forall|p: int, q: int|
                0 <= p < q < old_es.len() ==> (#[trigger] old_es[p]).base@ != (
                #[trigger] old_es[q]).base@,
        ensures
            reg_count(new_es, old_es[i].base@) == new_es[i].count,
            forall|b: Seq<char>|
                b != old_es[i].base@ ==> reg_count(new_es, b) == reg_count(old_es, b),
        decreases old_es.len(),
    {
        if i == old_es.len() - 1 {
            assert(new_es.drop_last() =~= old_es.drop_last());
            assert(new_es.last() == new_es[i]);
            assert forall|b: Seq<char>| b != old_es[i].base@ implies reg_count(new_es, b)
                == reg_count(old_es, b) by {
                assert(reg_count(new_es, b) == reg_count(new_es.drop_last(), b));
                assert(reg_count(old_es, b) == reg_count(old_es.drop_last(), b));
            }
        } else {
            assert(new_es.last() == old_es.last());
            assert(old_es.last().base@ != old_es[i].base@);
            assert(new_es.drop_last()[i] == new_es[i]);
            assert forall|j: int| 0 <= j < old_es.drop_last().len() && j != i implies #[trigger]
                new_es.drop_last()[j] == old_es.drop_last()[j] by {
                assert(new_es[j] == old_es[j]);
            }
            assert forall|p: int, q: int|
                0 <= p < q < old_es.drop_last().len() implies (#[trigger] old_es.drop_last()[
            p]).base@ != (#[trigger] old_es.drop_last()[q]).base@ by {
                assert(old_es[p].base@ != old_es[q].base@);
            }
            Self::lemma_reg_count_update(old_es.drop_last(), new_es.drop_last(), i);
            assert forall|b: Seq<char>| b != old_es[i].base@ implies reg_count(new_es, b)
                == reg_count(old_es, b) by {
                if b == old_es.last().base@ {
                    assert(reg_count(new_es, b) == new_es.last().count);
                    assert(reg_count(old_es, b) == old_es.last().count);
                } else {
                    assert(reg_count(new_es, b) == reg_count(new_es.drop_last(), b));
                    assert(reg_count(old_es, b) == reg_count(old_es.drop_last(), b));
                }
            }
        }
    }

    /// Any recorded count fits in a machine word.
    pub proof fn lemma_count_bound(&self, base: Seq<char>)
        ensures
            self.spec_count(base) <= usize::MAX,
    {
        Self::lemma_reg_count_bound(self.entries@, base);
    }

    proof fn lemma_reg_count_bound(es: Seq<RegEntry>, base: Seq<char>)
        ensures
            reg_count(es, base) <= usize::MAX,
        decreases es.len(),
    {
        if es.len() > 0 {
            Self::lemma_reg_count_bound(es.drop_last(), base);
        }
    }

    /// Allocates the next alias name under the base derived from `name`:
    /// transliterate if not ASCII, cut to the base budget, then suffix with
    /// `~k` when `k` aliases already share the base. Fails only when every
    /// collision index under that base has been used.
    pub fn generate(&mut self, name: &str) -> (r: Result<String, WrapError>)
        requires
            old(self).wf(),
        ensures
            final(self).wf(),
            r is Err <==> old(self).spec_count(base_of(name@)) == usize::MAX,
            r is Err ==> *final(self) == *old(self) && r == Err::<String, WrapError>(
                WrapError::NamespaceExhausted,
            ),
            r matches Ok(a) ==> {
                &&& a@ == alias_for(base_of(name@), old(self).spec_count(base_of(name@)))
                &&& final(self).spec_count(base_of(name@)) == old(self).spec_count(
                    base_of(name@),
                ) + 1
                &&& forall|b: Seq<char>|
                    b != base_of(name@) ==> final(self).spec_count(b) == old(self).spec_count(b)
            },
    {
        let base = make_base(name);
        let mut found: Option<usize> = None;
        let n = self.entries.len();
        let mut i: usize = 0;
        while i < n
            invariant
                n == self.entries@.len(),
                i <= n,
                found matches Some(j) ==> j < n && self.entries@[j as int].base@ == base@,
                found is None ==> forall|j: int|
                    0 <= j < i ==> (#[trigger] self.entries@[j]).base@ != base@,
            decreases n - i,
        {
            if found.is_none() && self.entries[i].base == base {
                found = Some(i);
            }
            i = i + 1;
        }
        match found {
            Some(j) => {
                let k = self.entries[j].count;
                proof {
                    self.lemma_count_at(j as int);
                }
                if k == usize::MAX {
                    return Err(WrapError::NamespaceExhausted);
                }
                let mut alias = base.clone();
                if k > 0 {
                    push_char(&mut alias, '~');
                    push_dec(&mut alias, k);
                    proof {
                        assert(alias@ =~= alias_for(base@, k as nat));
                    }
                }
                let ghost old_es = self.entries@;
                self.entries[j].count = k + 1;
                proof {
                    assert(self.entries@[j as int].base@ == base@);
                    assert forall|p: int, q: int|
                        0 <= p < q < self.entries@.len() implies (#[trigger] self.entries@[p]).base@
                        != (#[trigger] self.entries@[q]).base@ by {
                        assert(old_es[p].base@ != old_es[q].base@);
                    }
                    Self::lemma_reg_count_update(old_es, self.entries@, j as int);
                }
                Ok(alias)
            },
            None => {
                proof {
                    Self::lemma_reg_count_absent(self.entries@, base@);
                }
                let ghost old_es = self.entries@;
                self.entries.push(RegEntry { base: base.clone(), count: 1 });
                proof {
                    assert forall|p: int, q: int|
                        0 <= p < q < self.entries@.len() implies (#[trigger] self.entries@[p]).base@
                        != (#[trigger] self.entries@[q]).base@ by {
                        if q < old_es.len() {
                            assert(self.entries@[p] == old_es[p]);
                            assert(self.entries@[q] == old_es[q]);
                        } else {
                            assert(self.entries@[p] == old_es[p]);
                            assert(self.entries@[q].base@ == base@);
                        }
                    }
                    assert(self.entries@.drop_last() =~= old_es);
                }
                Ok(base)
            },
        }
    }
}

/// Distinct numbers give distinct aliases under one tilde-free base, and
/// tilde-free bases never produce each other's aliases: the collision
/// suffix is unambiguous.
pub proof fn lemma_alias_injective(b1: Seq<char>, k1: nat, b2: Seq<char>, k2: nat)
    requires
        no_tilde(b1),
        no_tilde(b2),
        alias_for(b1, k1) == alias_for(b2, k2),
    ensures
        b1 == b2,
        k1 == k2,
{
    lemma_dec_rep_len(k1);
    lemma_dec_rep_len(k2);
    lemma_dec_rep_digits(k1);
    lemma_dec_rep_digits(k2);
    let a = alias_for(b1, k1);
    if k1 == 0 && k2 == 0 {
    } else if k1 == 0 {
        assert(a[b2.len() as int] == '~');
        assert(b1[b2.len() as int] != '~');
    } else if k2 == 0 {
        assert(a[b1.len() as int] == '~');
        assert(b2[b1.len() as int] != '~');
    } else {
        assert(a[b1.len() as int] == '~');
        assert(a[b2.len() as int] == '~');
        if b1.len() < b2.len() {
            assert(a[b1.len() as int] == b2[b1.len() as int]);
            assert(false);
        }
        if b2.len() < b1.len() {
            assert(a[b2.len() as int] == b1[b2.len() as int]);
            assert(false);
        }
        let h1 = b1 + seq!['~'];
        let h2 = b2 + seq!['~'];
        assert(a == h1 + dec_rep(k1));
        assert(a == h2 + dec_rep(k2));
        assert(b1 =~= b2) by {
            assert forall|k: int| 0 <= k < b1.len() implies b1[k] == b2[k] by {
                assert((h1 + dec_rep(k1))[k] == b1[k]);
                assert((h2 + dec_rep(k2))[k] == b2[k]);
            }
        }
        assert(dec_rep(k1) =~= dec_rep(k2)) by {
            assert(h1.len() == h2.len());
            assert(a.len() == h1.len() + dec_rep(k1).len());
            assert(a.len() == h2.len() + dec_rep(k2).len());
            assert(dec_rep(k1).len() == dec_rep(k2).len());
            assert forall|k: int| 0 <= k < dec_rep(k1).len() implies dec_rep(k1)[k] == dec_rep(
                k2,
            )[k] by {
                assert(k < dec_rep(k2).len());
                assert((h1 + dec_rep(k1))[h1.len() + k] == dec_rep(k1)[k]);
                assert((h2 + dec_rep(k2))[h2.len() + k] == dec_rep(k2)[k]);
            }
        }
        lemma_dec_rep_injective(k1, k2);
    }
}

/// Under one tilde-free base, allocations with distinct collision indices
/// carry distinct names: the run's aliases under that base are the sequence
/// `base`, `base~1`, `base~2`, ... in allocation order, pairwise distinct
/// for any number of allocations.
pub proof fn lemma_alias_order(b: Seq<char>, i: nat, j: nat)
    requires
        no_tilde(b),
        i != j,
    ensures
        alias_for(b, i) != alias_for(b, j),
{
    if alias_for(b, i) == alias_for(b, j) {
        lemma_alias_injective(b, i, b, j);
    }
}

/// Under one base the first three allocations are named `base`, `base~1`,
/// `base~2`, in allocation order.
pub proof fn lemma_collision_sequence(b: Seq<char>)
    ensures
        alias_for(b, 0) == b,
        alias_for(b, 1) == b + seq!['~', '1'],
        alias_for(b, 2) == b + seq!['~', '2'],
{
    assert(alias_for(b, 1) =~= b + seq!['~', '1']);
    assert(alias_for(b, 2) =~= b + seq!['~', '2']);
}

} // verus!
