//! The parts of a package manifest that mirroring reads and rewrites.
//!
//! Values are kept as their TOML source text (`"0.3"`, `["x"]`), so that what
//! is not rewritten goes back out exactly as it came in.

use vstd::prelude::*;
use vstd::string::StringExecFns;

verus! {

/// The value of one dependency entry.
#[derive(Debug, Clone, PartialEq, Eq)]
pub enum DepEntry {
    /// `name = <value>`: a bare version constraint, as its TOML text.
    Shorthand(String),
    /// `name = { key = value, ... }` or a `[dependencies.name]` table: its
    /// keys in declaration order, each with its value's TOML text.
    Expanded(Vec<(String, String)>),
    /// Any other shape, as its TOML text; it is passed through untouched.
    Other(String),
}

/// A dependency entry with its key.
#[derive(Debug, Clone, PartialEq, Eq)]
pub struct Dependency {
    pub name: String,
    pub entry: DepEntry,
}

/// What the rewrite reads of a manifest.
#[derive(Debug, Clone, PartialEq, Eq)]
pub struct Manifest {
    /// The package's name.
    pub name: String,
    /// The package's description; `None` when it is absent or not a string.
    pub description: Option<String>,
    /// The dependency table in declaration order; `None` when there is none.
    pub dependencies: Option<Vec<Dependency>>,
}

/// A dependency to redirect: entries keyed `original` get `package = substitute`.
#[derive(Debug, Clone, PartialEq, Eq)]
pub struct DependencyRename {
    pub original: String,
    pub substitute: String,
}

/// Why a manifest could not be rewritten.
#[derive(PartialEq, Eq, Structural, Debug, Clone, Copy)]
pub enum ManifestError {
    /// The manifest has no description string to build the mirror's from.
    MalformedManifest,
}

/// Key and value texts of an expanded entry.
pub type Pairs = Seq<(Seq<char>, Seq<char>)>;

/// A dependency entry as characters.
pub enum EntryView {
    Shorthand(Seq<char>),
    Expanded(Pairs),
    Other(Seq<char>),
}

pub open spec fn pairs_view(p: Seq<(String, String)>) -> Pairs {
    p.map_values(|kv: (String, String)| (kv.0@, kv.1@))
}

impl View for DepEntry {
    type V = EntryView;

    open spec fn view(&self) -> EntryView {
        match self {
            DepEntry::Shorthand(v) => EntryView::Shorthand(v@),
            DepEntry::Expanded(p) => EntryView::Expanded(pairs_view(p@)),
            DepEntry::Other(t) => EntryView::Other(t@),
        }
    }
}

impl View for Dependency {
    type V = (Seq<char>, EntryView);

    open spec fn view(&self) -> (Seq<char>, EntryView) {
        (self.name@, self.entry@)
    }
}

pub open spec fn deps_view(d: Seq<Dependency>) -> Seq<(Seq<char>, EntryView)> {
    d.map_values(|x: Dependency| x@)
}

/// A manifest as characters.
pub struct ManifestView {
    pub name: Seq<char>,
    pub description: Option<Seq<char>>,
    pub dependencies: Option<Seq<(Seq<char>, EntryView)>>,
}

impl View for Manifest {
    type V = ManifestView;

    open spec fn view(&self) -> ManifestView {
        ManifestView {
            name: self.name@,
            description: match self.description {
                None => None,
                Some(d) => Some(d@),
            },
            dependencies: match self.dependencies {
                None => None,
                Some(d) => Some(deps_view(d@)),
            },
        }
    }
}

impl View for DependencyRename {
    type V = (Seq<char>, Seq<char>);

    open spec fn view(&self) -> (Seq<char>, Seq<char>) {
        (self.original@, self.substitute@)
    }
}

/// Strings as their characters.
pub open spec fn strings_view(v: Seq<String>) -> Seq<Seq<char>> {
    v.map_values(|s: String| s@)
}

/// What a rename pass did, by dependency key in table order.
#[derive(Debug, Clone, PartialEq, Eq)]
pub struct RenameOutcome {
    /// Entries that were redirected to their substitute.
    pub redirected: Vec<String>,
    /// Entries named by a rename but left untouched for their shape.
    pub unrecognized: Vec<String>,
    /// Renames, by original name, that were not applied because their
    /// substitute cannot be written as a TOML string.
    pub skipped: Vec<String>,
}

/// The renames that mirroring uses: `ring` depends on `untrusted`, whose
/// yanked versions cannot be depended on by a republished package, so it is
/// redirected to its own mirror, `detsurtnu`.
pub fn default_renames() -> (r: Vec<DependencyRename>)
    ensures
        renames_view(r@) == seq![("untrusted"@, "detsurtnu"@)],
{
    let mut r: Vec<DependencyRename> = Vec::new();
    r.push(DependencyRename { original: String::from_str("untrusted"), substitute: String::from_str("detsurtnu") });
    assert(renames_view(r@) =~= seq![("untrusted"@, "detsurtnu"@)]);
    r
}

pub open spec fn renames_view(r: Seq<DependencyRename>) -> Seq<(Seq<char>, Seq<char>)> {
    r.map_values(|x: DependencyRename| x@)
}

pub fn clone_pairs(p: &Vec<(String, String)>) -> (r: Vec<(String, String)>)
    ensures
        pairs_view(r@) == pairs_view(p@),
{
    let mut out: Vec<(String, String)> = Vec::new();
    let mut i: usize = 0;
    while i < p.len()
        invariant
            i <= p.len(),
            pairs_view(out@) == pairs_view(p@).take(i as int),
        decreases p.len() - i,
    {
        let k = p[i].0.clone();
        let v = p[i].1.clone();
        let ghost before = out@;
        out.push((k, v));
        assert(out@ == before.push((k, v)));
        assert(pairs_view(p@)[i as int] == (k@, v@));
        assert(pairs_view(out@) =~= pairs_view(before).push((k@, v@)));
        assert(pairs_view(out@) =~= pairs_view(p@).take(i as int + 1));
        i = i + 1;
    }
    assert(pairs_view(p@).take(p.len() as int) =~= pairs_view(p@));
    out
}

impl DepEntry {
    /// A copy of this entry.
    pub fn duplicate(&self) -> (r: DepEntry)
        ensures
            r@ == self@,
    {
        match self {
            DepEntry::Shorthand(v) => DepEntry::Shorthand(v.clone()),
            DepEntry::Expanded(p) => DepEntry::Expanded(clone_pairs(p)),
            DepEntry::Other(t) => DepEntry::Other(t.clone()),
        }
    }
}

} // verus!
