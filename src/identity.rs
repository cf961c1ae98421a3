//! The mirror's identity: the package name becomes the destination's, and the
//! description says which package it mirrors.

use crate::manifest::{Manifest, ManifestError, ManifestView};
use vstd::prelude::*;
use vstd::string::{StrSliceExecFns, StringExecFns};

verus! {

/// What the mirror's description starts with.
pub open spec fn mirror_prefix(source: Seq<char>) -> Seq<char> {
    "Automated mirror of "@ + source + " - "@
}

/// The mirror's description: the original one after a prefix that names the
/// source package, unless it already starts with that prefix.
pub open spec fn mirrored_description(source: Seq<char>, description: Seq<char>) -> Seq<char> {
    if mirror_prefix(source).is_prefix_of(description) {
        description
    } else {
        mirror_prefix(source) + description
    }
}

/// The manifest after its identity has been rewritten, when it has a
/// description.
pub open spec fn manifest_with_identity(m: ManifestView, destination: Seq<char>, source: Seq<char>) -> ManifestView
    recommends
        m.description is Some,
{
    ManifestView {
        name: destination,
        description: Some(mirrored_description(source, m.description.unwrap())),
        dependencies: m.dependencies,
    }
}

/// Whether `s` starts with `prefix`.
fn starts_with(s: &str, prefix: &str) -> (r: bool)
    ensures
        r == prefix@.is_prefix_of(s@),
{
    let n = prefix.unicode_len();
    let len = s.unicode_len();
    if n > len {
        return false;
    }
    let mut i: usize = 0;
    while i < n
        invariant
            n == prefix@.len(),
            len == s@.len(),
            n <= len,
            i <= n,
            forall|j: int| 0 <= j < i ==> prefix@[j] == s@[j],
        decreases n - i,
    {
        if prefix.get_char(i) != s.get_char(i) {
            assert(prefix@[i as int] != s@.subrange(0, n as int)[i as int]);
            return false;
        }
        i = i + 1;
    }
    assert(prefix@ =~= s@.subrange(0, n as int));
    true
}

/// Makes `m` the manifest of the mirror: its name becomes `destination`, and
/// its description is prefixed with `Automated mirror of <source> - ` unless it
/// already is. Fails, leaving `m` as it is, when `m` has no description.
pub fn rewrite_identity(m: &mut Manifest, destination: &str, source: &str) -> (r: Result<(), ManifestError>)
    ensures
        old(m)@.description is None ==> r == Err::<(), ManifestError>(ManifestError::MalformedManifest)
            && final(m)@ == old(m)@,
        old(m)@.description is Some ==> r is Ok && final(m)@ == manifest_with_identity(old(m)@, destination@, source@),
{
    let description = match &m.description {
        None => {
            return Err(ManifestError::MalformedManifest);
        },
        Some(d) => {
            let prefix = String::from_str("Automated mirror of ").concat(source).concat(" - ");
            if starts_with(d.as_str(), prefix.as_str()) {
                d.clone()
            } else {
                prefix.concat(d.as_str())
            }
        },
    };
    m.name = String::from_str(destination);
    m.description = Some(description);
    Ok(())
}

/// The mirror's description names the source package and holds the original
/// description at its end.
pub proof fn lemma_description_names_source(source: Seq<char>, description: Seq<char>)
    ensures
        exists|i: int|
            0 <= i && i + source.len() <= mirrored_description(source, description).len()
                && #[trigger] mirrored_description(source, description).subrange(i, i + source.len()) == source,
        description.is_suffix_of(mirrored_description(source, description)),
{
    let head = "Automated mirror of "@;
    let a = head.len() as int;
    let b = a + source.len();
    let p = mirror_prefix(source);
    let md = mirrored_description(source, description);
    assert(p.subrange(a, b) =~= source);
    if p.is_prefix_of(description) {
        assert(md.subrange(a, b) =~= p.subrange(a, b));
        assert(description =~= md.subrange(0, md.len() as int));
    } else {
        assert(md.subrange(a, b) =~= source);
        assert(description =~= md.subrange(p.len() as int, md.len() as int));
    }
}

/// A description that does not yet carry the mirror prefix gets it: the
/// result ends with the old description and names the source before it.
pub proof fn lemma_description_prefixed(source: Seq<char>, description: Seq<char>)
    requires
        !mirror_prefix(source).is_prefix_of(description),
    ensures
        mirrored_description(source, description) == mirror_prefix(source) + description,
        description.is_suffix_of(mirrored_description(source, description)),
        ({
            let md = mirrored_description(source, description);
            let a = "Automated mirror of "@.len() as int;
            &&& a + source.len() <= md.len() - description.len()
            &&& md.subrange(a, a + source.len()) == source
        }),
{
    let md = mirrored_description(source, description);
    let p = mirror_prefix(source);
    let a = "Automated mirror of "@.len() as int;
    assert(md.subrange(a, a + source.len()) =~= source);
    assert(description =~= md.subrange(p.len() as int, md.len() as int));
}

/// Rewriting the identity a second time changes nothing more.
pub proof fn lemma_identity_idempotent(m: ManifestView, destination: Seq<char>, source: Seq<char>)
    requires
        m.description is Some,
    ensures
        manifest_with_identity(manifest_with_identity(m, destination, source), destination, source)
            == manifest_with_identity(m, destination, source),
{
    let p = mirror_prefix(source);
    let d = m.description.unwrap();
    if !p.is_prefix_of(d) {
        assert((p + d).subrange(0, p.len() as int) =~= p);
    }
}

} // verus!
