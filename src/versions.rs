//! Reconciling the version history of a source package with what the
//! destination package has already published.

use vstd::prelude::*;

verus! {

/// The versions of a list, each as its characters.
pub open spec fn version_ids(v: Seq<String>) -> Seq<Seq<char>> {
    v.map_values(|s: String| s@)
}

/// The versions of `source` that still need mirroring: all of them when the
/// destination does not exist, else those the destination lacks, in order.
pub open spec fn reconcile_spec(source: Seq<Seq<char>>, destination: Option<Seq<Seq<char>>>) -> Seq<Seq<char>> {
    match destination {
        None => source,
        Some(d) => source.filter(|v: Seq<char>| !d.contains(v)),
    }
}

/// The destination's versions, when the destination package exists.
pub open spec fn destination_ids(destination: Option<&Vec<String>>) -> Option<Seq<Seq<char>>> {
    match destination {
        None => None,
        Some(d) => Some(version_ids(d@)),
    }
}

/// Whether `versions` holds `v`, compared by exact string identity.
fn contains_version(versions: &Vec<String>, v: &String) -> (r: bool)
    ensures
        r == version_ids(versions@).contains(v@),
{
    let mut i: usize = 0;
    while i < versions.len()
        invariant
            i <= versions.len(),
            forall|j: int| 0 <= j < i ==> versions@[j]@ != v@,
        decreases versions.len() - i,
    {
        if versions[i] == *v {
            assert(version_ids(versions@)[i as int] == v@);
            return true;
        }
        i = i + 1;
    }
    proof {
        if version_ids(versions@).contains(v@) {
            let k = choose|k: int| 0 <= k < version_ids(versions@).len() && version_ids(versions@)[k] == v@;
            assert(versions@[k]@ == v@);
        }
    }
    false
}

/// The versions of `source` that are still to be mirrored: every one of them
/// when `destination` is `None` (the destination package does not exist yet),
/// else those that `destination` does not hold, in the order of `source`.
pub fn reconcile(source: &Vec<String>, destination: Option<&Vec<String>>) -> (r: Vec<String>)
    ensures
        version_ids(r@) == reconcile_spec(version_ids(source@), destination_ids(destination)),
        destination is None ==> r@ == source@,
{
    match destination {
        None => source.clone(),
        Some(d) => {
            let ghost src = version_ids(source@);
            let ghost dst = version_ids(d@);
            let ghost keep = |v: Seq<char>| !dst.contains(v);
            let mut out: Vec<String> = Vec::new();
            let mut i: usize = 0;
            while i < source.len()
                invariant
                    i <= source.len(),
                    src == version_ids(source@),
                    dst == version_ids(d@),
                    keep == (|v: Seq<char>| !dst.contains(v)),
                    version_ids(out@) == src.take(i as int).filter(keep),
                decreases source.len() - i,
            {
                let v = &source[i];
                let present = contains_version(d, v);
                proof {
                    assert(src.take(i as int + 1).drop_last() == src.take(i as int));
                    assert(src.take(i as int + 1).last() == v@);
                }
                if !present {
                    out.push(v.clone());
                    assert(version_ids(out@) =~= version_ids(out@).drop_last().push(v@));
                }
                proof {
                    reveal(Seq::filter);
                    assert(version_ids(out@) =~= src.take(i as int + 1).filter(keep));
                }
                i = i + 1;
            }
            assert(src.take(source.len() as int) =~= src);
            out
        },
    }
}

/// Without a destination package, every source version is still to be mirrored.
pub proof fn lemma_reconcile_without_destination(a: Seq<Seq<char>>)
    ensures
        reconcile_spec(a, None) == a,
{
}

/// With a destination package, the versions still to be mirrored are exactly
/// the source versions that the destination lacks: none of them is at the
/// destination, each of them is in the source, and as sets they are `a \ b`.
/// No version is listed twice when the source lists none twice.
pub proof fn lemma_reconcile_is_difference(a: Seq<Seq<char>>, b: Seq<Seq<char>>)
    ensures
        forall|v: Seq<char>| reconcile_spec(a, Some(b)).contains(v) ==> !b.contains(v),
        forall|v: Seq<char>| reconcile_spec(a, Some(b)).contains(v) ==> a.contains(v),
        reconcile_spec(a, Some(b)).to_set() == a.to_set().difference(b.to_set()),
        a.no_duplicates() ==> reconcile_spec(a, Some(b)).no_duplicates(),
{
    broadcast use vstd::seq_lib::group_filter_ensures, Seq::lemma_filter_contains_rev;
    let keep = |v: Seq<char>| !b.contains(v);
    let r = reconcile_spec(a, Some(b));
    assert(r == a.filter(keep));
    assert forall|v: Seq<char>| r.contains(v) implies !b.contains(v) && a.contains(v) by {
        let k = choose|k: int| 0 <= k < r.len() && r[k] == v;
        assert(keep(r[k]));
    }
    assert forall|v: Seq<char>| a.contains(v) && !b.contains(v) implies r.contains(v) by {
        let k = choose|k: int| 0 <= k < a.len() && a[k] == v;
        assert(keep(a[k]));
    }
    assert(r.to_set() =~= a.to_set().difference(b.to_set()));
    if a.no_duplicates() {
        lemma_filter_no_duplicates(a, keep);
    }
}

/// Filtering keeps a sequence free of duplicates.
proof fn lemma_filter_no_duplicates(a: Seq<Seq<char>>, keep: spec_fn(Seq<char>) -> bool)
    requires
        a.no_duplicates(),
    ensures
        a.filter(keep).no_duplicates(),
    decreases a.len(),
{
    broadcast use Seq::lemma_filter_contains_rev;
    reveal(Seq::filter);
    if a.len() > 0 {
        let rest = a.drop_last();
        assert(rest.no_duplicates());
        lemma_filter_no_duplicates(rest, keep);
        if keep(a.last()) {
            let f = rest.filter(keep);
            if f.contains(a.last()) {
                assert(rest.contains(a.last()));
                let k = choose|k: int| 0 <= k < rest.len() && rest[k] == a.last();
                assert(a[k] == a[a.len() - 1]);
            }
            assert(a.filter(keep) == f.push(a.last()));
        }
    }
}

/// Against a destination that already holds every source version, nothing is
/// left to mirror.
pub proof fn lemma_reconcile_against_itself(a: Seq<Seq<char>>)
    ensures
        reconcile_spec(a, Some(a)).len() == 0,
{
    lemma_reconcile_is_difference(a, a);
    let r = reconcile_spec(a, Some(a));
    if r.len() > 0 {
        assert(r.contains(r[0]));
    }
}

} // verus!
