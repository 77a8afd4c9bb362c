//! Roster storage: a vector of entities kept sorted ascending by the
//! ordering key. The user-facing display order is the reverse of storage,
//! so the highest key appears first.

use vstd::prelude::*;
use crate::entity::{Entity, EntityModel, entity_le, key_le, lemma_key_le_total, lemma_key_le_trans};

verus! {

/// The mathematical contents of a roster vector.
pub open spec fn roster_view(s: Seq<Entity>) -> Seq<EntityModel> {
    s.map_values(|e: Entity| e@)
}

pub open spec fn sorted_by_key(s: Seq<EntityModel>) -> bool {
    forall|i: int, j: int| 0 <= i < j < s.len() ==> key_le(#[trigger] s[i], #[trigger] s[j])
}

/// Where a new entity lands in a sorted roster: after every entity whose
/// key is less than or equal to its own.
pub open spec fn insert_pos(s: Seq<EntityModel>, x: EntityModel) -> int
    decreases s.len(),
{
    if s.len() == 0 {
        0
    } else if key_le(s[0], x) {
        1 + insert_pos(s.drop_first(), x)
    } else {
        0
    }
}

proof fn lemma_insert_pos_at(s: Seq<EntityModel>, x: EntityModel, i: int)
    requires
        0 <= i <= s.len(),
        forall|j: int| 0 <= j < i ==> key_le(#[trigger] s[j], x),
        i < s.len() ==> !key_le(s[i], x),
    ensures
        insert_pos(s, x) == i,
    decreases i,
{
    if i == 0 {
        if s.len() > 0 {
            assert(!key_le(s[0], x));
        }
    } else {
        assert(key_le(s[0], x));
        assert(forall|j: int| 0 <= j < i - 1 ==> key_le(#[trigger] s.drop_first()[j], x));
        assert(i - 1 < s.drop_first().len() ==> !key_le(s.drop_first()[i - 1], x));
        lemma_insert_pos_at(s.drop_first(), x, i - 1);
    }
}

/// Add an entity to the roster: it lands at its key's position, and a
/// sorted roster stays sorted.
pub fn insert_sorted(v: &mut Vec<Entity>, e: Entity)
    ensures
        0 <= insert_pos(roster_view(old(v)@), e@) <= old(v)@.len(),
        final(v)@.len() == old(v)@.len() + 1,
        roster_view(final(v)@) =~= roster_view(old(v)@).insert(
            insert_pos(roster_view(old(v)@), e@),
            e@,
        ),
        sorted_by_key(roster_view(old(v)@)) ==> sorted_by_key(roster_view(final(v)@)),
{
    let ghost s = roster_view(v@);
    let mut i: usize = 0;
    while i < v.len() && entity_le(&v[i], &e)
        invariant
            i <= v@.len(),
            s == roster_view(v@),
            forall|j: int| 0 <= j < i ==> key_le(#[trigger] s[j], e@),
        decreases v@.len() - i,
    {
        i += 1;
    }
    proof {
        lemma_insert_pos_at(s, e@, i as int);
    }
    let ghost k = i as int;
    v.insert(i, e);
    proof {
        assert(roster_view(v@) =~= s.insert(k, e@));
        if sorted_by_key(s) {
            let t = roster_view(v@);
            assert forall|p: int, q: int| 0 <= p < q < t.len() implies key_le(t[p], t[q]) by {
                assert(forall|j: int| 0 <= j < k ==> t[j] == s[j]);
                assert(forall|j: int| k < j < t.len() ==> t[j] == s[j - 1]);
                assert(t[k] == e@);
                if p == k {
                    // q > k: e@ precedes s[q - 1]
                    lemma_key_le_total(s[k], e@);
                    if k < s.len() && k < q - 1 {
                        lemma_key_le_trans(e@, s[k], s[q - 1]);
                    }
                } else if q == k {
                    // p < k: s[p] precedes e@ by the loop's bound
                } else if p < k && q > k {
                    // both sides of the insertion point: s[p] and s[q - 1]
                    if k < s.len() {
                        lemma_key_le_total(s[k], e@);
                        if p < k {
                            if k <= q - 1 && k != q - 1 {
                                assert(key_le(s[p], s[q - 1]));
                            }
                        }
                    }
                    if p < q - 1 {
                        assert(key_le(s[p], s[q - 1]));
                    } else {
                        // q - 1 == p < k contradicts q > k
                        assert(false);
                    }
                }
            }
        }
    }
}

/// The roster as the user sees it: highest ordering key first.
pub open spec fn display_of(s: Seq<EntityModel>) -> Seq<EntityModel> {
    s.reverse()
}

/// Removing storage index `len - 1 - i` deletes exactly display index `i`.
pub proof fn lemma_remove_display(s: Seq<EntityModel>, i: int)
    requires
        0 <= i < s.len(),
    ensures
        display_of(s.remove(s.len() - 1 - i)) =~= display_of(s).remove(i),
{
    let k = s.len() - 1 - i;
    s.remove_ensures(k);
    assert(display_of(s.remove(k)).len() == display_of(s).remove(i).len());
    assert forall|j: int| 0 <= j < s.len() - 1 implies display_of(s.remove(k))[j] == display_of(
        s,
    ).remove(i)[j] by {
        if j < i {
            assert(display_of(s).remove(i)[j] == s[s.len() - 1 - j]);
            assert(display_of(s.remove(k))[j] == s.remove(k)[s.len() - 2 - j]);
            assert(s.remove(k)[s.len() - 2 - j] == s[s.len() - 1 - j]);
        } else {
            assert(display_of(s).remove(i)[j] == s[s.len() - 2 - j]);
            assert(display_of(s.remove(k))[j] == s.remove(k)[s.len() - 2 - j]);
            assert(s.remove(k)[s.len() - 2 - j] == s[s.len() - 2 - j]);
        }
    }
}

/// A roster sorted ascending stays sorted after any removal.
pub proof fn lemma_remove_keeps_sorted(s: Seq<EntityModel>, k: int)
    requires
        sorted_by_key(s),
        0 <= k < s.len(),
    ensures
        sorted_by_key(s.remove(k)),
{
    s.remove_ensures(k);
}

} // verus!
