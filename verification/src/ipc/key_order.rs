use vstd::prelude::*;
use vstd::std_specs::cmp::OrdSpec;
use std::collections::BTreeMap;
use vstd::std_specs::iter::IteratorSpec;

verus! {

/// The keys of a map come out of its key iterator in strictly increasing order.
pub proof fn lemma_keys_increase(s: Seq<&u64>)
    requires
        vstd::std_specs::btree::increasing_seq(s),
    ensures
        forall|i: int, j: int| 0 <= i < j < s.len() ==> *s[i] < *s[j],
{
    broadcast use vstd::std_specs::btree::group_btree_axioms;
    broadcast use vstd::laws_cmp::group_laws_cmp;
    assert(vstd::laws_cmp::obeys_cmp::<&u64>());
    vstd::std_specs::btree::axiom_increasing_seq_meaning(s);
    assert forall|i: int, j: int| 0 <= i < j < s.len() implies *s[i] < *s[j] by {
        assert(OrdSpec::cmp_spec(&s[i], &s[j]) is Less);
    }
}

/// The keys of `m`, in increasing order.
pub fn sorted_keys<V>(m: &BTreeMap<u64, V>) -> (ks: Vec<u64>)
    ensures
        forall|i: int, j: int| 0 <= i < j < ks@.len() ==> ks@[i] < ks@[j],
        ks@.to_set() == m@.dom(),
        ks@.len() == m@.dom().len(),
{
    broadcast use vstd::std_specs::btree::group_btree_axioms;
    let ghost key_seq = vstd::std_specs::btree::spec_keys_iter(m).remaining();
    let mut ks: Vec<u64> = Vec::new();
    proof {
        assert(vstd::std_specs::btree::increasing_seq(key_seq));
        lemma_keys_increase(key_seq);
    }
    for k in it: m.keys()
        invariant
            it.seq().unref().to_set() == m@.dom(),
            it.seq() == key_seq,
            ks@ == it.seq().unref().take(it.index()),
            forall|i: int, j: int| 0 <= i < j < key_seq.len() ==> *key_seq[i] < *key_seq[j],
    {
        proof {
            assert(it.seq().unref()[it.index()] == *k);
        }
        ks.push(*k);
        proof {
            assert(ks@ =~= it.seq().unref().take(it.index() + 1));
        }
    }
    proof {
        assert(ks@ =~= key_seq.unref());
        assert forall|i: int, j: int| 0 <= i < j < ks@.len() implies ks@[i] < ks@[j] by {
            assert(ks@[i] == *key_seq[i] && ks@[j] == *key_seq[j]);
        }
        assert(ks@.no_duplicates()) by {
            assert forall|i: int, j: int| 0 <= i < ks@.len() && 0 <= j < ks@.len() && i != j implies ks@[i] != ks@[j] by {
                if i < j {
                    assert(ks@[i] < ks@[j]);
                } else {
                    assert(ks@[j] < ks@[i]);
                }
            }
        }
        ks@.unique_seq_to_set();
    }
    ks
}

} // verus!
