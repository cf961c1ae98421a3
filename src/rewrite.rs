//! Rewriting a manifest for the mirror: its identity, and the dependencies
//! that are redirected to substitute packages.

use crate::manifest::{
    renames_view, DependencyRename, ManifestView, deps_view, pairs_view, strings_view, DepEntry, Dependency, EntryView, Manifest, Pairs, RenameOutcome,
};
use vstd::string::{StrSliceExecFns, StringExecFns};
use vstd::prelude::*;

verus! {

pub open spec fn package_key() -> Seq<char> {
    "package"@
}

pub open spec fn version_key() -> Seq<char> {
    "version"@
}

/// Whether some pair of `p` has key `k`.
pub open spec fn has_key(p: Pairs, k: Seq<char>) -> bool {
    exists|i: int| 0 <= i < p.len() && p[i].0 == k
}

/// `p` with the value of key `k` set to `v`: replaced in place where `k` is
/// present, appended where it is not.
pub open spec fn set_key(p: Pairs, k: Seq<char>, v: Seq<char>) -> Pairs {
    if has_key(p, k) {
        p.map_values(|kv: (Seq<char>, Seq<char>)| if kv.0 == k { (k, v) } else { kv })
    } else {
        p.push((k, v))
    }
}

/// One entry redirected to the package whose name has TOML text `package`: a
/// shorthand becomes `{ version = <it>, package = <package> }`, an expanded
/// entry keeps its keys and gets `package` set, any other shape stays.
pub open spec fn redirect_entry(e: EntryView, package: Seq<char>) -> EntryView {
    match e {
        EntryView::Shorthand(v) => EntryView::Expanded(seq![(version_key(), v), (package_key(), package)]),
        EntryView::Expanded(p) => EntryView::Expanded(set_key(p, package_key(), package)),
        EntryView::Other(t) => EntryView::Other(t),
    }
}

/// Whether a rename of `renames` is keyed `name`.
pub open spec fn has_rename(name: Seq<char>, renames: Seq<(Seq<char>, Seq<char>)>) -> bool {
    exists|i: int| 0 <= i < renames.len() && renames[i].0 == name
}

/// The entry keyed `name` after each rename of `renames` keyed `name` has been
/// applied to it, in order.
pub open spec fn entry_after(name: Seq<char>, e: EntryView, renames: Seq<(Seq<char>, Seq<char>)>) -> EntryView
    decreases renames.len(),
{
    if renames.len() == 0 {
        e
    } else {
        let before = entry_after(name, e, renames.drop_last());
        if renames.last().0 == name {
            redirect_entry(before, renames.last().1)
        } else {
            before
        }
    }
}

/// A dependency table after the renames: same keys in the same order, each
/// entry redirected by the renames keyed like it.
pub open spec fn redirect_all(
    deps: Seq<(Seq<char>, EntryView)>,
    renames: Seq<(Seq<char>, Seq<char>)>,
) -> Seq<(Seq<char>, EntryView)> {
    deps.map_values(|d: (Seq<char>, EntryView)| (d.0, entry_after(d.0, d.1, renames)))
}

/// The keys of the entries that a rename names and that are redirected.
pub open spec fn redirected_names(
    deps: Seq<(Seq<char>, EntryView)>,
    renames: Seq<(Seq<char>, Seq<char>)>,
) -> Seq<Seq<char>> {
    deps.filter(|d: (Seq<char>, EntryView)| has_rename(d.0, renames) && !(d.1 is Other)).map_values(
        |d: (Seq<char>, EntryView)| d.0,
    )
}

/// The keys of the entries that a rename names but whose shape is neither a
/// shorthand nor expanded, and which are left as they are.
pub open spec fn unrecognized_names(
    deps: Seq<(Seq<char>, EntryView)>,
    renames: Seq<(Seq<char>, Seq<char>)>,
) -> Seq<Seq<char>> {
    deps.filter(|d: (Seq<char>, EntryView)| has_rename(d.0, renames) && d.1 is Other).map_values(
        |d: (Seq<char>, EntryView)| d.0,
    )
}

/// `p` with its `package` key set to `package`.
fn set_package(p: &Vec<(String, String)>, package: &String) -> (r: Vec<(String, String)>)
    ensures
        pairs_view(r@) == set_key(pairs_view(p@), package_key(), package@),
{
    let key = String::from_str("package");
    let ghost pv = pairs_view(p@);
    let ghost k = package_key();
    let ghost f = |kv: (Seq<char>, Seq<char>)| if kv.0 == k { (k, package@) } else { kv };
    let mut out: Vec<(String, String)> = Vec::new();
    let mut found = false;
    let mut i: usize = 0;
    while i < p.len()
        invariant
            i <= p.len(),
            pv == pairs_view(p@),
            key@ == k,
            k == package_key(),
            f == (|kv: (Seq<char>, Seq<char>)| if kv.0 == k { (k, package@) } else { kv }),
            pairs_view(out@) == pv.take(i as int).map_values(f),
            found == has_key(pv.take(i as int), k),
        decreases p.len() - i,
    {
        let ghost before = out@;
        let is_package = p[i].0 == key;
        if is_package {
            out.push((key.clone(), package.clone()));
            found = true;
        } else {
            out.push((p[i].0.clone(), p[i].1.clone()));
        }
        assert(pv[i as int] == (p@[i as int].0@, p@[i as int].1@));
        assert(pairs_view(out@) =~= pairs_view(before).push(f(pv[i as int])));
        assert(pv.take(i as int + 1) =~= pv.take(i as int).push(pv[i as int]));
        assert(pairs_view(out@) =~= pv.take(i as int + 1).map_values(f));
        assert(pv.take(i as int + 1)[i as int] == pv[i as int]);
        proof {
            let t0 = pv.take(i as int);
            let t1 = pv.take(i as int + 1);
            if has_key(t1, k) {
                let j = choose|j: int| 0 <= j < t1.len() && #[trigger] t1[j].0 == k;
                if j < i {
                    assert(t0[j] == t1[j]);
                }
            }
            if has_key(t0, k) {
                let j = choose|j: int| 0 <= j < t0.len() && #[trigger] t0[j].0 == k;
                assert(t0[j] == t1[j]);
            }
            assert(has_key(t1, k) == (has_key(t0, k) || pv[i as int].0 == k));
        }
        i = i + 1;
    }
    assert(pv.take(p.len() as int) =~= pv);
    if !found {
        let ghost before = out@;
        out.push((key, package.clone()));
        assert(pv.map_values(f) =~= pv) by {
            assert forall|j: int| 0 <= j < pv.len() implies pv[j].0 != k by {
                if pv[j].0 == k {
                    assert(has_key(pv, k));
                }
            }
        }
        assert(pairs_view(out@) =~= pairs_view(before).push((k, package@)));
    }
    out
}

/// `e` redirected to the package whose name has TOML text `package`.
fn redirect(e: &DepEntry, package: &String) -> (r: DepEntry)
    ensures
        r@ == redirect_entry(e@, package@),
{
    match e {
        DepEntry::Shorthand(v) => {
            let mut p: Vec<(String, String)> = Vec::new();
            p.push((String::from_str("version"), v.clone()));
            p.push((String::from_str("package"), package.clone()));
            assert(pairs_view(p@) =~= seq![(version_key(), v@), (package_key(), package@)]);
            DepEntry::Expanded(p)
        },
        DepEntry::Expanded(p) => DepEntry::Expanded(set_package(p, package)),
        DepEntry::Other(t) => DepEntry::Other(t.clone()),
    }
}

/// The entry keyed `name` after `renames`, and whether any of them is keyed
/// `name`.
fn entry_after_renames(name: &String, e: &DepEntry, renames: &Vec<(String, String)>) -> (r: (DepEntry, bool))
    ensures
        r.0@ == entry_after(name@, e@, pairs_view(renames@)),
        r.1 == has_rename(name@, pairs_view(renames@)),
{
    let ghost rv = pairs_view(renames@);
    let mut cur = e.duplicate();
    let mut named = false;
    let mut i: usize = 0;
    while i < renames.len()
        invariant
            i <= renames.len(),
            rv == pairs_view(renames@),
            cur@ == entry_after(name@, e@, rv.take(i as int)),
            named == has_rename(name@, rv.take(i as int)),
        decreases renames.len() - i,
    {
        assert(rv[i as int] == (renames@[i as int].0@, renames@[i as int].1@));
        if renames[i].0 == *name {
            cur = redirect(&cur, &renames[i].1);
            named = true;
        }
        proof {
            let t0 = rv.take(i as int);
            let t1 = rv.take(i as int + 1);
            assert(t1.drop_last() =~= t0);
            assert(t1.last() == rv[i as int]);
            if has_rename(name@, t1) {
                let j = choose|j: int| 0 <= j < t1.len() && #[trigger] t1[j].0 == name@;
                if j < i {
                    assert(t0[j] == t1[j]);
                }
            }
            if has_rename(name@, t0) {
                let j = choose|j: int| 0 <= j < t0.len() && #[trigger] t0[j].0 == name@;
                assert(t0[j] == t1[j]);
            }
            assert(has_rename(name@, t1) == (has_rename(name@, t0) || rv[i as int].0 == name@));
        }
        i = i + 1;
    }
    assert(rv.take(renames.len() as int) =~= rv);
    (cur, named)
}

/// `deps` after `renames`, with the keys redirected and the keys left for
/// their shape.
fn redirect_table(deps: &Vec<Dependency>, renames: &Vec<(String, String)>) -> (r: (
    Vec<Dependency>,
    RenameOutcome,
))
    ensures
        deps_view(r.0@) == redirect_all(deps_view(deps@), pairs_view(renames@)),
        strings_view(r.1.redirected@) == redirected_names(deps_view(deps@), pairs_view(renames@)),
        strings_view(r.1.unrecognized@) == unrecognized_names(deps_view(deps@), pairs_view(renames@)),
        r.1.skipped@.len() == 0,
{
    let ghost dv = deps_view(deps@);
    let ghost rv = pairs_view(renames@);
    let ghost f = |d: (Seq<char>, EntryView)| (d.0, entry_after(d.0, d.1, rv));
    let ghost pr = |d: (Seq<char>, EntryView)| has_rename(d.0, rv) && !(d.1 is Other);
    let ghost pu = |d: (Seq<char>, EntryView)| has_rename(d.0, rv) && d.1 is Other;
    let ghost key = |d: (Seq<char>, EntryView)| d.0;
    let mut out: Vec<Dependency> = Vec::new();
    let mut redirected: Vec<String> = Vec::new();
    let mut unrecognized: Vec<String> = Vec::new();
    let mut i: usize = 0;
    while i < deps.len()
        invariant
            i <= deps.len(),
            dv == deps_view(deps@),
            rv == pairs_view(renames@),
            f == (|d: (Seq<char>, EntryView)| (d.0, entry_after(d.0, d.1, rv))),
            pr == (|d: (Seq<char>, EntryView)| has_rename(d.0, rv) && !(d.1 is Other)),
            pu == (|d: (Seq<char>, EntryView)| has_rename(d.0, rv) && d.1 is Other),
            key == (|d: (Seq<char>, EntryView)| d.0),
            deps_view(out@) == dv.take(i as int).map_values(f),
            strings_view(redirected@) == dv.take(i as int).filter(pr).map_values(key),
            strings_view(unrecognized@) == dv.take(i as int).filter(pu).map_values(key),
        decreases deps.len() - i,
    {
        let d = &deps[i];
        let (entry, named) = entry_after_renames(&d.name, &d.entry, renames);
        let is_other = match d.entry {
            DepEntry::Other(_) => true,
            _ => false,
        };
        let ghost o0 = out@;
        let ghost r0 = redirected@;
        let ghost u0 = unrecognized@;
        out.push(Dependency { name: d.name.clone(), entry });
        if named && !is_other {
            redirected.push(d.name.clone());
        }
        if named && is_other {
            unrecognized.push(d.name.clone());
        }
        proof {
            reveal(Seq::filter);
            let t0 = dv.take(i as int);
            let t1 = dv.take(i as int + 1);
            assert(dv[i as int] == d@);
            assert(t1.drop_last() =~= t0);
            assert(t1.last() == d@);
            assert(deps_view(out@) =~= deps_view(o0).push(f(d@)));
            assert(deps_view(out@) =~= t1.map_values(f));
            assert(is_other == (d@.1 is Other));
            assert(named == has_rename(d@.0, rv));
            if pr(d@) {
                assert(t1.filter(pr) == t0.filter(pr).push(d@));
                assert(strings_view(redirected@) =~= strings_view(r0).push(d.name@));
            } else {
                assert(t1.filter(pr) == t0.filter(pr));
                assert(redirected@ == r0);
            }
            if pu(d@) {
                assert(t1.filter(pu) == t0.filter(pu).push(d@));
                assert(strings_view(unrecognized@) =~= strings_view(u0).push(d.name@));
            } else {
                assert(t1.filter(pu) == t0.filter(pu));
                assert(unrecognized@ == u0);
            }
            assert(strings_view(redirected@) =~= t1.filter(pr).map_values(key));
            assert(strings_view(unrecognized@) =~= t1.filter(pu).map_values(key));
        }
        i = i + 1;
    }
    assert(dv.take(deps.len() as int) =~= dv);
    (out, RenameOutcome { redirected, unrecognized, skipped: Vec::new() })
}

/// The manifest after the renames: only the dependency table changes.
pub open spec fn manifest_after_renames(m: ManifestView, renames: Seq<(Seq<char>, Seq<char>)>) -> ManifestView {
    ManifestView {
        name: m.name,
        description: m.description,
        dependencies: match m.dependencies {
            None => None,
            Some(d) => Some(redirect_all(d, renames)),
        },
    }
}

/// The keys that a rename pass redirects.
pub open spec fn redirected_in(m: ManifestView, renames: Seq<(Seq<char>, Seq<char>)>) -> Seq<Seq<char>> {
    match m.dependencies {
        None => Seq::empty(),
        Some(d) => redirected_names(d, renames),
    }
}

/// The keys that a rename pass leaves for their shape.
pub open spec fn unrecognized_in(m: ManifestView, renames: Seq<(Seq<char>, Seq<char>)>) -> Seq<Seq<char>> {
    match m.dependencies {
        None => Seq::empty(),
        Some(d) => unrecognized_names(d, renames),
    }
}

/// Redirects the dependencies of `m` by `renames`, each a dependency key with
/// the TOML text of its substitute's name (`"detsurtnu"`), in order. A manifest
/// without a dependency table is left as it is.
pub fn apply_renames(m: &mut Manifest, renames: &Vec<(String, String)>) -> (r: RenameOutcome)
    ensures
        final(m)@ == manifest_after_renames(old(m)@, pairs_view(renames@)),
        strings_view(r.redirected@) == redirected_in(old(m)@, pairs_view(renames@)),
        strings_view(r.unrecognized@) == unrecognized_in(old(m)@, pairs_view(renames@)),
        r.skipped@.len() == 0,
{
    let rewritten = match &m.dependencies {
        None => None,
        Some(deps) => Some(redirect_table(deps, renames)),
    };
    match rewritten {
        None => {
            let r = RenameOutcome { redirected: Vec::new(), unrecognized: Vec::new(), skipped: Vec::new() };
            assert(strings_view(r.redirected@) =~= Seq::empty());
            assert(strings_view(r.unrecognized@) =~= Seq::empty());
            r
        },
        Some((deps, outcome)) => {
            m.dependencies = Some(deps);
            outcome
        },
    }
}

/// Whether `s` holds `len` copies of `q` from `start` on.
pub open spec fn run_of(s: Seq<char>, start: int, len: int, q: char) -> bool {
    forall|j: int| start <= j < start + len ==> s[j] == q
}

/// Whether `s` holds 256 copies of `q` in a row.
pub open spec fn has_long_run(s: Seq<char>, q: char) -> bool {
    exists|i: int| 0 <= i && i + 256 <= s.len() && #[trigger] run_of(s, i, 256, q)
}

/// Whether toml_edit can write `s` as a string: it counts runs of each quote
/// character in a byte, so a run of 256 single or double quotes is beyond it.
pub open spec fn toml_writable(s: Seq<char>) -> bool {
    !has_long_run(s, '\'') && !has_long_run(s, '"')
}

/// Whether `s` can be written between double quotes as it is: no double
/// quote, backslash or control character.
pub open spec fn plain_basic(s: Seq<char>) -> bool {
    forall|i: int|
        0 <= i < s.len() ==> #[trigger] s[i] != '"' && s[i] != '\\' && (s[i] as u32) > 0x1f && (s[i] as u32)
            != 0x7f
}

/// Whether `s` holds 256 copies of `q` in a row.
fn long_run(s: &str, q: char) -> (r: bool)
    ensures
        r == has_long_run(s@, q),
{
    let n = s.unicode_len();
    let mut run: usize = 0;
    let mut i: usize = 0;
    while i < n
        invariant
            n == s@.len(),
            i <= n,
            run <= i,
            run < 256,
            run_of(s@, i - run, run as int, q),
            run < i ==> s@[i - run - 1] != q,
            forall|k: int| 0 <= k && k + 256 <= i ==> !#[trigger] run_of(s@, k, 256, q),
        decreases n - i,
    {
        let c = s.get_char(i);
        let ghost prev = run;
        if c == q {
            run = run + 1;
            if run == 256 {
                assert(run_of(s@, i + 1 - 256, 256, q));
                return true;
            }
        } else {
            run = 0;
        }
        proof {
            assert forall|k: int| 0 <= k && k + 256 <= i + 1 implies !#[trigger] run_of(s@, k, 256, q) by {
                if k + 256 == i + 1 {
                    if c != q {
                        assert(s@[i as int] != q);
                    } else {
                        assert(prev < i);
                        assert(s@[i - prev - 1] != q);
                    }
                }
            }
        }
        i = i + 1;
    }
    false
}

/// Whether toml_edit can write `s` as a string.
pub fn is_toml_writable(s: &str) -> (r: bool)
    ensures
        r == toml_writable(s@),
{
    !long_run(s, '\'') && !long_run(s, '"')
}

/// Names the text that toml_edit writes for a string value.
pub uninterp spec fn toml_string_text(s: Seq<char>) -> Seq<char>;

/// Relies on toml_edit: `Value::from(&str)` makes a string value with no
/// decoration, and `Display` writes it as TOML, as a function of `s` alone
/// (toml_write's `TomlStringBuilder::as_default`). A plain string is written
/// as a basic string, between double quotes and unescaped. Its quote counters
/// are bytes, hence the `requires`.
#[verifier::external_body]
fn toml_string(s: &str) -> (r: String)
    requires
        toml_writable(s@),
    ensures
        r@ == toml_string_text(s@),
        plain_basic(s@) ==> r@ == seq!['"'] + s@ + seq!['"'],
{
    toml_edit::Value::from(s).to_string()
}

/// The renames with each substitute written as a TOML string.
pub open spec fn rendered(renames: Seq<(Seq<char>, Seq<char>)>) -> Seq<(Seq<char>, Seq<char>)> {
    renames.map_values(|r: (Seq<char>, Seq<char>)| (r.0, toml_string_text(r.1)))
}

/// The renames whose substitute can be written as a TOML string.
pub open spec fn writable(renames: Seq<(Seq<char>, Seq<char>)>) -> Seq<(Seq<char>, Seq<char>)> {
    renames.filter(|r: (Seq<char>, Seq<char>)| toml_writable(r.1))
}

/// The original names of the renames whose substitute cannot be written.
pub open spec fn unwritable_names(renames: Seq<(Seq<char>, Seq<char>)>) -> Seq<Seq<char>> {
    renames.filter(|r: (Seq<char>, Seq<char>)| !toml_writable(r.1)).map_values(
        |r: (Seq<char>, Seq<char>)| r.0,
    )
}

/// Redirects every dependency of `m` keyed by a rename's original name to its
/// substitute package, keeping the version constraint and every other key; a
/// manifest without a dependency table is left as it is. Reports which
/// entries were redirected, which were left for their shape, and which
/// renames were skipped because their substitute cannot be written as TOML.
pub fn rewrite_dependencies(m: &mut Manifest, renames: &Vec<DependencyRename>) -> (r: RenameOutcome)
    ensures
        final(m)@ == manifest_after_renames(old(m)@, rendered(writable(renames_view(renames@)))),
        strings_view(r.redirected@) == redirected_in(old(m)@, rendered(writable(renames_view(renames@)))),
        strings_view(r.unrecognized@) == unrecognized_in(old(m)@, rendered(writable(renames_view(renames@)))),
        strings_view(r.skipped@) == unwritable_names(renames_view(renames@)),
{
    let ghost rv = renames_view(renames@);
    let ghost ok = |r: (Seq<char>, Seq<char>)| toml_writable(r.1);
    let ghost bad = |r: (Seq<char>, Seq<char>)| !toml_writable(r.1);
    let ghost first = |r: (Seq<char>, Seq<char>)| r.0;
    let mut texts: Vec<(String, String)> = Vec::new();
    let mut skipped: Vec<String> = Vec::new();
    let mut i: usize = 0;
    while i < renames.len()
        invariant
            i <= renames.len(),
            rv == renames_view(renames@),
            ok == (|r: (Seq<char>, Seq<char>)| toml_writable(r.1)),
            bad == (|r: (Seq<char>, Seq<char>)| !toml_writable(r.1)),
            first == (|r: (Seq<char>, Seq<char>)| r.0),
            pairs_view(texts@) == rendered(rv.take(i as int).filter(ok)),
            strings_view(skipped@) == rv.take(i as int).filter(bad).map_values(first),
        decreases renames.len() - i,
    {
        let ghost t0 = texts@;
        let ghost s0 = skipped@;
        let rn = &renames[i];
        assert(rv[i as int] == rn@);
        if is_toml_writable(rn.substitute.as_str()) {
            let substitute = toml_string(rn.substitute.as_str());
            texts.push((rn.original.clone(), substitute));
        } else {
            skipped.push(rn.original.clone());
        }
        proof {
            reveal(Seq::filter);
            let w0 = rv.take(i as int);
            let w1 = rv.take(i as int + 1);
            assert(w1.drop_last() =~= w0);
            assert(w1.last() == rn@);
            if ok(rn@) {
                assert(w1.filter(ok) == w0.filter(ok).push(rn@));
                assert(w1.filter(bad) == w0.filter(bad));
                assert(pairs_view(texts@) =~= pairs_view(t0).push((rn.original@, toml_string_text(rn.substitute@))));
                assert(skipped@ == s0);
            } else {
                assert(w1.filter(ok) == w0.filter(ok));
                assert(w1.filter(bad) == w0.filter(bad).push(rn@));
                assert(texts@ == t0);
                assert(strings_view(skipped@) =~= strings_view(s0).push(rn.original@));
            }
            assert(pairs_view(texts@) =~= rendered(w1.filter(ok)));
            assert(strings_view(skipped@) =~= w1.filter(bad).map_values(first));
        }
        i = i + 1;
    }
    assert(rv.take(renames.len() as int) =~= rv);
    let mut outcome = apply_renames(m, &texts);
    outcome.skipped = skipped;
    outcome
}

/// An entry that no rename names is left as it is.
pub proof fn lemma_entry_after_unnamed(name: Seq<char>, e: EntryView, renames: Seq<(Seq<char>, Seq<char>)>)
    requires
        !has_rename(name, renames),
    ensures
        entry_after(name, e, renames) == e,
    decreases renames.len(),
{
    if renames.len() > 0 {
        let rest = renames.drop_last();
        if has_rename(name, rest) {
            let j = choose|j: int| 0 <= j < rest.len() && #[trigger] rest[j].0 == name;
            assert(renames[j] == rest[j]);
        }
        assert(renames.last() == renames[renames.len() - 1]);
        lemma_entry_after_unnamed(name, e, rest);
    }
}

proof fn lemma_keys_differ()
    ensures
        version_key() != package_key(),
{
    reveal_strlit("version");
    reveal_strlit("package");
    assert(version_key()[0] != package_key()[0]);
}

/// Redirecting twice is redirecting once, to the later package.
pub proof fn lemma_redirect_twice(e: EntryView, a: Seq<char>, b: Seq<char>)
    ensures
        redirect_entry(redirect_entry(e, a), b) == redirect_entry(e, b),
{
    let k = package_key();
    match e {
        EntryView::Shorthand(v) => {
            lemma_keys_differ();
            let p = seq![(version_key(), v), (k, a)];
            assert(p[1].0 == k);
            assert(has_key(p, k));
            assert(set_key(p, k, b) =~= seq![(version_key(), v), (k, b)]);
        },
        EntryView::Expanded(p) => {
            let p1 = set_key(p, k, a);
            if has_key(p, k) {
                let j = choose|j: int| 0 <= j < p.len() && #[trigger] p[j].0 == k;
                assert(p1[j].0 == k);
                assert(has_key(p1, k));
                assert(set_key(p1, k, b) =~= set_key(p, k, b));
            } else {
                assert(p1[p.len() as int].0 == k);
                assert(has_key(p1, k));
                assert forall|j: int| 0 <= j < p.len() implies p[j].0 != k by {
                    if p[j].0 == k {
                        assert(has_key(p, k));
                    }
                }
                assert(set_key(p1, k, b) =~= p.push((k, b)));
            }
        },
        EntryView::Other(_) => {},
    }
}

/// The substitute of the last rename keyed `name`.
pub open spec fn last_substitute(name: Seq<char>, renames: Seq<(Seq<char>, Seq<char>)>) -> Seq<char>
    decreases renames.len(),
{
    if renames.len() == 0 {
        Seq::empty()
    } else if renames.last().0 == name {
        renames.last().1
    } else {
        last_substitute(name, renames.drop_last())
    }
}

/// An entry that some rename names ends redirected to the last such rename's
/// substitute, whatever it was before.
pub proof fn lemma_entry_after_named(name: Seq<char>, e: EntryView, renames: Seq<(Seq<char>, Seq<char>)>)
    requires
        has_rename(name, renames),
    ensures
        entry_after(name, e, renames) == redirect_entry(e, last_substitute(name, renames)),
    decreases renames.len(),
{
    let rest = renames.drop_last();
    assert(renames.last() == renames[renames.len() - 1]);
    if renames.last().0 == name {
        if has_rename(name, rest) {
            lemma_entry_after_named(name, e, rest);
            lemma_redirect_twice(e, last_substitute(name, rest), renames.last().1);
        } else {
            lemma_entry_after_unnamed(name, e, rest);
        }
    } else {
        let j = choose|j: int| 0 <= j < renames.len() && #[trigger] renames[j].0 == name;
        assert(rest[j] == renames[j]);
        lemma_entry_after_named(name, e, rest);
    }
}

/// Rewriting the dependencies a second time with the same renames changes
/// nothing more.
pub proof fn lemma_renames_idempotent(m: ManifestView, renames: Seq<(Seq<char>, Seq<char>)>)
    ensures
        manifest_after_renames(manifest_after_renames(m, renames), renames) == manifest_after_renames(m, renames),
{
    if let Some(d) = m.dependencies {
        let once = redirect_all(d, renames);
        assert forall|i: int| 0 <= i < d.len() implies entry_after(d[i].0, entry_after(d[i].0, d[i].1, renames), renames)
            == entry_after(d[i].0, d[i].1, renames) by {
            let name = d[i].0;
            if has_rename(name, renames) {
                let s = last_substitute(name, renames);
                lemma_entry_after_named(name, d[i].1, renames);
                lemma_entry_after_named(name, redirect_entry(d[i].1, s), renames);
                lemma_redirect_twice(d[i].1, s, s);
            } else {
                lemma_entry_after_unnamed(name, d[i].1, renames);
                lemma_entry_after_unnamed(name, entry_after(name, d[i].1, renames), renames);
            }
        }
        assert(redirect_all(once, renames) =~= once);
    }
}

/// A shorthand entry `name = <v>` renamed to `s` becomes exactly
/// `name = { version = <v>, package = <s> }`.
pub proof fn lemma_shorthand_expands(deps: Seq<(Seq<char>, EntryView)>, i: int, v: Seq<char>, s: Seq<char>)
    requires
        0 <= i < deps.len(),
        deps[i].1 == EntryView::Shorthand(v),
    ensures
        redirect_all(deps, seq![(deps[i].0, s)])[i] == (
            deps[i].0,
            EntryView::Expanded(seq![(version_key(), v), (package_key(), s)]),
        ),
{
    let r = seq![(deps[i].0, s)];
    let name = deps[i].0;
    let e = deps[i].1;
    assert(r.drop_last() =~= Seq::<(Seq<char>, Seq<char>)>::empty());
    assert(r.last() == (name, s));
    assert(entry_after(name, e, r.drop_last()) == e);
    assert(entry_after(name, e, r) == redirect_entry(e, s));
    assert(redirect_all(deps, r)[i] == (name, entry_after(name, e, r)));
}

/// An expanded entry renamed to `s` keeps its keys and their values in order
/// and gets `package = <s>`: appended when it had no `package` key, put in
/// place of the old value when it had one.
pub proof fn lemma_expanded_keeps_keys(deps: Seq<(Seq<char>, EntryView)>, i: int, p: Pairs, s: Seq<char>)
    requires
        0 <= i < deps.len(),
        deps[i].1 == EntryView::Expanded(p),
    ensures
        !has_key(p, package_key()) ==> redirect_all(deps, seq![(deps[i].0, s)])[i] == (
            deps[i].0,
            EntryView::Expanded(p.push((package_key(), s))),
        ),
        redirect_all(deps, seq![(deps[i].0, s)])[i] == (
            deps[i].0,
            EntryView::Expanded(set_key(p, package_key(), s)),
        ),
{
    let r = seq![(deps[i].0, s)];
    let name = deps[i].0;
    let e = deps[i].1;
    assert(r.drop_last() =~= Seq::<(Seq<char>, Seq<char>)>::empty());
    assert(r.last() == (name, s));
    assert(entry_after(name, e, r.drop_last()) == e);
    assert(entry_after(name, e, r) == redirect_entry(e, s));
    assert(redirect_all(deps, r)[i] == (name, entry_after(name, e, r)));
}

/// Entries that no rename names are left as they are; when no rename names
/// any entry, the whole table is.
pub proof fn lemma_unnamed_untouched(deps: Seq<(Seq<char>, EntryView)>, renames: Seq<(Seq<char>, Seq<char>)>)
    ensures
        forall|i: int| 0 <= i < deps.len() && !has_rename(deps[i].0, renames) ==> #[trigger] redirect_all(deps, renames)[i] == deps[i],
        (forall|i: int| 0 <= i < deps.len() ==> !has_rename(#[trigger] deps[i].0, renames)) ==> redirect_all(deps, renames) == deps,
{
    assert forall|i: int| 0 <= i < deps.len() && !has_rename(deps[i].0, renames) implies #[trigger] redirect_all(deps, renames)[i] == deps[i] by {
        lemma_entry_after_unnamed(deps[i].0, deps[i].1, renames);
    }
    if forall|i: int| 0 <= i < deps.len() ==> !has_rename(#[trigger] deps[i].0, renames) {
        assert(redirect_all(deps, renames) =~= deps);
    }
}

} // verus!
