//! Change sets between two enumerations of the device's packages.
//!
//! A cycle's diff is four set differences keyed by package id: freshly
//! listed packages are added, packages gone from the full listing are
//! removed, and the two differences of the disabled listing give the
//! packages disabled and re-enabled since the previous cycle.

use vstd::prelude::*;

use crate::package::{Package, PackageV, pkgs_view};

verus! {

/// What changed between the previous enumeration and the current one.
/// Produced once per cycle and handed to the consumer; the engine does
/// not retain it.
pub struct DiffEvent {
    pub added: Vec<Package>,
    pub removed: Vec<String>,
    pub disabled: Vec<String>,
    pub re_enabled: Vec<String>,
}

/// The value sequence of an id vector.
pub open spec fn ids_view(v: Seq<String>) -> Seq<Seq<char>> {
    v.map_values(|s: String| s@)
}

/// The ids of a package vector, in listing order.
pub open spec fn pkg_ids(v: Seq<Package>) -> Seq<Seq<char>> {
    v.map_values(|p: Package| p.id@)
}

/// Whether `id` occurs in `ids`.
fn ids_contain(ids: &Vec<String>, id: &String) -> (r: bool)
    ensures
        r == ids_view(ids@).contains(id@),
{
    let mut i: usize = 0;
    while i < ids.len()
        invariant
            0 <= i <= ids@.len(),
            forall|j: int| 0 <= j < i ==> (#[trigger] ids@[j])@ != id@,
        decreases ids@.len() - i,
    {
        if ids[i] == *id {
            assert(ids_view(ids@)[i as int] == id@);
            return true;
        }
        i += 1;
    }
    assert forall|j: int| 0 <= j < ids_view(ids@).len() implies ids_view(ids@)[j] != id@ by {
        assert(ids_view(ids@)[j] == ids@[j]@);
    }
    false
}

/// Whether some package in `pkgs` has the id `id`.
fn pkgs_contain(pkgs: &Vec<Package>, id: &String) -> (r: bool)
    ensures
        r == pkg_ids(pkgs@).contains(id@),
{
    let mut i: usize = 0;
    while i < pkgs.len()
        invariant
            0 <= i <= pkgs@.len(),
            forall|j: int| 0 <= j < i ==> (#[trigger] pkgs@[j]).id@ != id@,
        decreases pkgs@.len() - i,
    {
        if pkgs[i].id == *id {
            assert(pkg_ids(pkgs@)[i as int] == id@);
            return true;
        }
        i += 1;
    }
    assert forall|j: int| 0 <= j < pkg_ids(pkgs@).len() implies pkg_ids(pkgs@)[j] != id@ by {
        assert(pkg_ids(pkgs@)[j] == pkgs@[j].id@);
    }
    false
}

/// The packages of `cur` whose id is not listed in `prev`, in order.
fn packages_not_listed(cur: &Vec<Package>, prev: &Vec<String>) -> (r: Vec<Package>)
    ensures
        pkgs_view(r@) == pkgs_view(cur@).filter(
            |p: PackageV| !ids_view(prev@).contains(p.id),
        ),
{
    let ghost pred = |p: PackageV| !ids_view(prev@).contains(p.id);
    let mut out: Vec<Package> = Vec::new();
    let mut i: usize = 0;
    proof {
        assert(pkgs_view(cur@.take(0)) =~= Seq::<PackageV>::empty());
        reveal(Seq::filter);
        assert(pkgs_view(out@) =~= pkgs_view(cur@.take(0)).filter(pred));
    }
    while i < cur.len()
        invariant
            0 <= i <= cur@.len(),
            pred == (|p: PackageV| !ids_view(prev@).contains(p.id)),
            pkgs_view(out@) == pkgs_view(cur@.take(i as int)).filter(pred),
        decreases cur@.len() - i,
    {
        let hit = ids_contain(prev, &cur[i].id);
        let ghost prefix = pkgs_view(cur@.take(i as int));
        proof {
            reveal(Seq::filter);
            assert(pkgs_view(cur@.take(i + 1)) =~= prefix.push(cur@[i as int]@));
            assert(prefix.push(cur@[i as int]@).drop_last() =~= prefix);
            assert(pkgs_view(cur@.take(i + 1)).filter(pred) == if pred(cur@[i as int]@) {
                prefix.filter(pred).push(cur@[i as int]@)
            } else {
                prefix.filter(pred)
            });
        }
        if !hit {
            let ghost prev_out = out@;
            out.push(cur[i].clone());
            proof {
                assert(pkgs_view(out@) =~= pkgs_view(prev_out).push(cur@[i as int]@));
            }
        }
        i += 1;
    }
    proof {
        assert(cur@.take(cur@.len() as int) =~= cur@);
    }
    out
}

/// The ids of `a` that `keep` holds for, in order: the generic step of
/// the id-set differences.
fn ids_not_in_ids(a: &Vec<String>, b: &Vec<String>) -> (r: Vec<String>)
    ensures
        ids_view(r@) == ids_view(a@).filter(|i: Seq<char>| !ids_view(b@).contains(i)),
{
    let ghost pred = |x: Seq<char>| !ids_view(b@).contains(x);
    let mut out: Vec<String> = Vec::new();
    let mut i: usize = 0;
    proof {
        assert(ids_view(a@.take(0)) =~= Seq::<Seq<char>>::empty());
        reveal(Seq::filter);
        assert(ids_view(out@) =~= ids_view(a@.take(0)).filter(pred));
    }
    while i < a.len()
        invariant
            0 <= i <= a@.len(),
            pred == (|x: Seq<char>| !ids_view(b@).contains(x)),
            ids_view(out@) == ids_view(a@.take(i as int)).filter(pred),
        decreases a@.len() - i,
    {
        let hit = ids_contain(b, &a[i]);
        let ghost prefix = ids_view(a@.take(i as int));
        proof {
            reveal(Seq::filter);
            assert(ids_view(a@.take(i + 1)) =~= prefix.push(a@[i as int]@));
            assert(prefix.push(a@[i as int]@).drop_last() =~= prefix);
            assert(ids_view(a@.take(i + 1)).filter(pred) == if pred(a@[i as int]@) {
                prefix.filter(pred).push(a@[i as int]@)
            } else {
                prefix.filter(pred)
            });
        }
        if !hit {
            let ghost prev_out = out@;
            out.push(a[i].clone());
            proof {
                assert(ids_view(out@) =~= ids_view(prev_out).push(a@[i as int]@));
            }
        }
        i += 1;
    }
    proof {
        assert(a@.take(a@.len() as int) =~= a@);
    }
    out
}

/// The ids of `prev` that no package of `cur` carries, in order.
fn ids_not_in_pkgs(prev: &Vec<String>, cur: &Vec<Package>) -> (r: Vec<String>)
    ensures
        ids_view(r@) == ids_view(prev@).filter(|i: Seq<char>| !pkg_ids(cur@).contains(i)),
{
    let ghost pred = |x: Seq<char>| !pkg_ids(cur@).contains(x);
    let mut out: Vec<String> = Vec::new();
    let mut i: usize = 0;
    proof {
        assert(ids_view(prev@.take(0)) =~= Seq::<Seq<char>>::empty());
        reveal(Seq::filter);
        assert(ids_view(out@) =~= ids_view(prev@.take(0)).filter(pred));
    }
    while i < prev.len()
        invariant
            0 <= i <= prev@.len(),
            pred == (|x: Seq<char>| !pkg_ids(cur@).contains(x)),
            ids_view(out@) == ids_view(prev@.take(i as int)).filter(pred),
        decreases prev@.len() - i,
    {
        let hit = pkgs_contain(cur, &prev[i]);
        let ghost prefix = ids_view(prev@.take(i as int));
        proof {
            reveal(Seq::filter);
            assert(ids_view(prev@.take(i + 1)) =~= prefix.push(prev@[i as int]@));
            assert(prefix.push(prev@[i as int]@).drop_last() =~= prefix);
            assert(ids_view(prev@.take(i + 1)).filter(pred) == if pred(prev@[i as int]@) {
                prefix.filter(pred).push(prev@[i as int]@)
            } else {
                prefix.filter(pred)
            });
        }
        if !hit {
            let ghost prev_out = out@;
            out.push(prev[i].clone());
            proof {
                assert(ids_view(out@) =~= ids_view(prev_out).push(prev@[i as int]@));
            }
        }
        i += 1;
    }
    proof {
        assert(prev@.take(prev@.len() as int) =~= prev@);
    }
    out
}

/// The diff of two enumerations: `added` is the current listing less
/// the previous one (as full records, in listing order), `removed` the
/// previous less the current, `disabled` and `re_enabled` the two
/// differences of the disabled listing. A disabled package is still
/// listed in full, so only a true uninstall shows up as removed.
pub fn diff(
    prev_full: &Vec<String>,
    prev_disabled: &Vec<String>,
    cur_full: &Vec<Package>,
    cur_disabled: &Vec<String>,
) -> (r: DiffEvent)
    ensures
        pkgs_view(r.added@) == pkgs_view(cur_full@).filter(
            |p: PackageV| !ids_view(prev_full@).contains(p.id),
        ),
        ids_view(r.removed@) == ids_view(prev_full@).filter(
            |i: Seq<char>| !pkg_ids(cur_full@).contains(i),
        ),
        ids_view(r.disabled@) == ids_view(cur_disabled@).filter(
            |i: Seq<char>| !ids_view(prev_disabled@).contains(i),
        ),
        ids_view(r.re_enabled@) == ids_view(prev_disabled@).filter(
            |i: Seq<char>| !ids_view(cur_disabled@).contains(i),
        ),
{
    DiffEvent {
        added: packages_not_listed(cur_full, prev_full),
        removed: ids_not_in_pkgs(prev_full, cur_full),
        disabled: ids_not_in_ids(cur_disabled, prev_disabled),
        re_enabled: ids_not_in_ids(prev_disabled, cur_disabled),
    }
}

/// Membership in a filtered sequence is membership plus the predicate.
proof fn lemma_filter_membership<A>(s: Seq<A>, pred: spec_fn(A) -> bool, x: A)
    ensures
        s.filter(pred).contains(x) <==> s.contains(x) && pred(x),
    decreases s.len(),
{
    reveal(Seq::filter);
    if s.len() > 0 {
        lemma_filter_membership(s.drop_last(), pred, x);
        assert(s.contains(x) <==> s.drop_last().contains(x) || s.last() == x) by {
            if s.contains(x) {
                let i = choose|i: int| 0 <= i < s.len() && s[i] == x;
                if i < s.len() - 1 {
                    assert(s.drop_last()[i] == x);
                }
            }
            if s.drop_last().contains(x) {
                let i = choose|i: int|
                    0 <= i < s.drop_last().len() && s.drop_last()[i] == x;
                assert(s[i] == x);
            }
            if s.last() == x {
                assert(s[s.len() - 1] == x);
            }
        }
        if pred(s.last()) {
            let sub = s.drop_last().filter(pred);
            assert(s.filter(pred) == sub.push(s.last()));
            assert(sub.push(s.last()).contains(x) <==> sub.contains(x) || s.last() == x) by {
                if sub.push(s.last()).contains(x) {
                    let i = choose|i: int|
                        0 <= i < sub.push(s.last()).len() && sub.push(s.last())[i] == x;
                    if i < sub.len() {
                        assert(sub[i] == x);
                    }
                }
                if sub.contains(x) {
                    let i = choose|i: int| 0 <= i < sub.len() && sub[i] == x;
                    assert(sub.push(s.last())[i] == x);
                }
                if s.last() == x {
                    assert(sub.push(s.last())[sub.len() as int] == x);
                }
            }
        }
    }
}

/// The diff components are set differences keyed by id: an id is in
/// the difference exactly when the first listing has it and the second
/// does not.
pub proof fn lemma_difference_members(a: Seq<Seq<char>>, b: Seq<Seq<char>>, x: Seq<char>)
    ensures
        a.filter(|i: Seq<char>| !b.contains(i)).contains(x) <==> a.contains(x) && !b.contains(
            x,
        ),
{
    lemma_filter_membership(a, |i: Seq<char>| !b.contains(i), x);
}

/// Stated over whole sets: filtering `a` by absence from `b` yields
/// exactly the set difference of the two.
pub proof fn lemma_diff_is_set_difference(a: Seq<Seq<char>>, b: Seq<Seq<char>>)
    ensures
        a.filter(|i: Seq<char>| !b.contains(i)).to_set() =~= a.to_set().difference(
            b.to_set(),
        ),
{
    let f = a.filter(|i: Seq<char>| !b.contains(i));
    assert forall|x: Seq<char>| #[trigger] f.to_set().contains(x) implies a.to_set().difference(
        b.to_set(),
    ).contains(x) by {
        lemma_difference_members(a, b, x);
    }
    assert forall|x: Seq<char>| #[trigger] a.to_set().difference(b.to_set()).contains(x) implies f
        .to_set().contains(x) by {
        lemma_difference_members(a, b, x);
    }
}

} // verus!
