//! Which schema migrations a database still needs.
//!
//! A migration runs only when the database's version is below its own, and
//! each one raises the version to its number, so running them twice changes
//! nothing the second time.

use vstd::prelude::*;

verus! {

/// The schema versions, in the order they are applied.
pub open spec fn migration_versions() -> Seq<u32> {
    seq![1u32]
}

pub fn migration_list() -> (v: Vec<u32>)
    ensures
        v@ == migration_versions(),
{
    let mut v: Vec<u32> = Vec::new();
    v.push(1);
    assert(v@ =~= migration_versions());
    v
}

/// The versions above `current`, in order.
pub open spec fn pending_from(versions: Seq<u32>, current: u32) -> Seq<u32>
    decreases versions.len(),
{
    if versions.len() == 0 {
        Seq::empty()
    } else {
        let rest = pending_from(versions.drop_last(), current);
        if versions.last() > current { rest.push(versions.last()) } else { rest }
    }
}

/// The migrations a database at version `current` still needs.
pub fn pending_migrations(current: u32) -> (p: Vec<u32>)
    ensures
        p@ == pending_from(migration_versions(), current),
{
    let all = migration_list();
    let mut p: Vec<u32> = Vec::new();
    let mut i: usize = 0;
    assert(all@.take(0) =~= Seq::<u32>::empty());
    while i < all.len()
        invariant
            i <= all@.len(),
            all@ == migration_versions(),
            p@ == pending_from(all@.take(i as int), current),
        decreases all@.len() - i,
    {
        proof {
            assert(all@.take(i + 1).drop_last() =~= all@.take(i as int));
        }
        if all[i] > current {
            p.push(all[i]);
        }
        i = i + 1;
    }
    assert(all@.take(all@.len() as int) =~= all@);
    p
}

/// The version a database ends at once `applied` ran, in order.
pub open spec fn version_after(current: u32, applied: Seq<u32>) -> u32 {
    if applied.len() == 0 { current } else { applied.last() }
}

proof fn lemma_pending_bounds(versions: Seq<u32>, current: u32)
    ensures
        forall|i: int| 0 <= i < pending_from(versions, current).len() ==> #[trigger] pending_from(versions, current)[i] > current,
        pending_from(versions, current).len() > 0 ==> versions.len() > 0 && pending_from(versions, current).last() == versions.last()
            || exists|k: int| 0 <= k < versions.len() && versions[k] == pending_from(versions, current).last(),
    decreases versions.len(),
{
    if versions.len() > 0 {
        lemma_pending_bounds(versions.drop_last(), current);
        let rest = pending_from(versions.drop_last(), current);
        if rest.len() > 0 && !(versions.last() > current) {
            let k = choose|k: int| 0 <= k < versions.drop_last().len() && versions.drop_last()[k] == rest.last();
            assert(versions[k] == rest.last());
        }
    }
}

/// Once the pending migrations ran, none is pending any more: running them
/// again changes nothing. Holds for versions listed in increasing order.
pub proof fn lemma_migrating_twice_changes_nothing(versions: Seq<u32>, current: u32)
    requires
        forall|i: int, j: int| 0 <= i < j < versions.len() ==> versions[i] < versions[j],
    ensures
        pending_from(versions, version_after(current, pending_from(versions, current))).len() == 0,
    decreases versions.len(),
{
    let p = pending_from(versions, current);
    let after = version_after(current, p);
    lemma_no_pending_above(versions, after);
    if p.len() > 0 {
        lemma_last_pending_is_last(versions, current);
    } else {
        lemma_none_pending_means_all_below(versions, current);
    }
}

proof fn lemma_no_pending_above(versions: Seq<u32>, v: u32)
    ensures
        (forall|i: int| 0 <= i < versions.len() ==> versions[i] <= v) ==> pending_from(versions, v).len() == 0,
    decreases versions.len(),
{
    if versions.len() > 0 {
        lemma_no_pending_above(versions.drop_last(), v);
        if forall|i: int| 0 <= i < versions.len() ==> versions[i] <= v {
            assert forall|i: int| 0 <= i < versions.drop_last().len() implies versions.drop_last()[i] <= v by {
                assert(versions.drop_last()[i] == versions[i]);
            }
            assert(versions.last() == versions[versions.len() - 1]);
        }
    }
}

proof fn lemma_last_pending_is_last(versions: Seq<u32>, current: u32)
    requires
        forall|i: int, j: int| 0 <= i < j < versions.len() ==> versions[i] < versions[j],
        pending_from(versions, current).len() > 0,
    ensures
        forall|i: int| 0 <= i < versions.len() ==> versions[i] <= pending_from(versions, current).last(),
    decreases versions.len(),
{
    let rest = pending_from(versions.drop_last(), current);
    if versions.last() > current {
        assert forall|i: int| 0 <= i < versions.len() implies versions[i] <= pending_from(versions, current).last() by {
            if i < versions.len() - 1 {
                assert(versions[i] < versions[versions.len() - 1]);
            }
        }
    } else {
        assert forall|i: int, j: int| 0 <= i < j < versions.drop_last().len() implies versions.drop_last()[i] < versions.drop_last()[j] by {
            assert(versions.drop_last()[i] == versions[i] && versions.drop_last()[j] == versions[j]);
        }
        lemma_last_pending_is_last(versions.drop_last(), current);
        lemma_pending_bounds(versions.drop_last(), current);
        assert(rest.last() > current);
        assert(versions.last() <= current);
        let k = versions.len() - 2;
        assert(versions.drop_last()[k] <= rest.last());
        assert(versions[k] < versions[k + 1]);
    }
}

proof fn lemma_none_pending_means_all_below(versions: Seq<u32>, current: u32)
    requires
        pending_from(versions, current).len() == 0,
    ensures
        forall|i: int| 0 <= i < versions.len() ==> versions[i] <= current,
    decreases versions.len(),
{
    if versions.len() > 0 {
        lemma_none_pending_means_all_below(versions.drop_last(), current);
        assert forall|i: int| 0 <= i < versions.len() implies versions[i] <= current by {
            if i < versions.len() - 1 {
                assert(versions.drop_last()[i] == versions[i]);
            }
        }
    }
}

} // verus!
