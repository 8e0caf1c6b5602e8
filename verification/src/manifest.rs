//! The package manifest (`package.json`) as the installer reads it.

use crate::name::PackageName;
use crate::paths::{join_path, join_path_spec};
use crate::strmap::StrMap;
use crate::strs::opt_view;
use crate::text::{owned, str_eq};
use crate::version::{semver_parse, strip_v, Version};
use vstd::prelude::*;

verus! {

/// Node/npm engine constraints.
#[derive(Debug, Clone)]
pub struct Engines {
    /// Minimum Node version (e.g., ">=14").
    pub node: Option<String>,
}

/// The `bin` field: nothing, one path for the package's own name, or a map
/// of command names to paths.
#[derive(Debug, Clone)]
pub enum BinField {
    /// Not set.
    Empty,
    /// A single bin entry named after the package.
    Shorthand(String),
    /// Command names mapped to entry points.
    Commands(StrMap<String>),
}

/// A parsed package.json manifest.
#[derive(Debug, Clone)]
pub struct Manifest {
    /// Package name.
    pub name: Option<String>,
    /// Package version.
    pub version: Option<String>,
    /// Package description.
    pub description: Option<String>,
    /// Production dependencies.
    pub dependencies: StrMap<String>,
    /// Development dependencies.
    pub dev_dependencies: StrMap<String>,
    /// Peer dependencies.
    pub peer_dependencies: StrMap<String>,
    /// Optional dependencies.
    pub optional_dependencies: StrMap<String>,
    /// Lifecycle scripts.
    pub scripts: StrMap<String>,
    /// Engine constraints.
    pub engines: Option<Engines>,
    /// Supported operating systems.
    pub os: Vec<String>,
    /// Supported CPU architectures.
    pub cpu: Vec<String>,
    /// Bin entries.
    pub bin: BinField,
    /// Files included in the package.
    pub files: Vec<String>,
    /// Whether this is a private package.
    pub private: Option<bool>,
    /// Module type ("module" or "commonjs").
    pub module_type: Option<String>,
}

/// `(command, path)` pairs by their characters.
pub open spec fn pairs_view(v: Seq<(String, String)>) -> Seq<(Seq<char>, Seq<char>)> {
    v.map_values(|e: (String, String)| (e.0@, e.1@))
}

/// The bin entries of a field, for a package named `pkg`.
pub open spec fn bin_entries_spec(b: BinField, pkg: Seq<char>) -> Seq<(Seq<char>, Seq<char>)> {
    match b {
        BinField::Empty => seq![],
        BinField::Shorthand(p) => seq![(pkg, p@)],
        BinField::Commands(m) => Seq::new(m.keys().len(), |i: int| (m.keys()[i], m.str_vals()[i])),
    }
}

/// The path of the first entry named `cmd`.
pub open spec fn find_entry(es: Seq<(Seq<char>, Seq<char>)>, cmd: Seq<char>) -> Option<Seq<char>>
    decreases es.len(),
{
    if es.len() == 0 {
        None
    } else if es[0].0 == cmd {
        Some(es[0].1)
    } else {
        find_entry(es.drop_first(), cmd)
    }
}

/// The name used for the shorthand bin entry: the manifest name, or empty.
pub open spec fn bin_owner(name: Option<String>) -> Seq<char> {
    match name {
        Some(n) => n@,
        None => Seq::empty(),
    }
}

impl Default for Manifest {
    fn default() -> (r: Self)
        ensures
            r.name is None,
            r.version is None,
            r.description is None,
            r.dependencies.keys().len() == 0,
            r.dev_dependencies.keys().len() == 0,
            r.peer_dependencies.keys().len() == 0,
            r.optional_dependencies.keys().len() == 0,
            r.scripts.keys().len() == 0,
            r.engines is None,
            r.os@.len() == 0,
            r.cpu@.len() == 0,
            r.bin is Empty,
            r.files@.len() == 0,
            r.private is None,
            r.module_type is None,
    {
        Manifest {
            name: None,
            version: None,
            description: None,
            dependencies: StrMap::new(),
            dev_dependencies: StrMap::new(),
            peer_dependencies: StrMap::new(),
            optional_dependencies: StrMap::new(),
            scripts: StrMap::new(),
            engines: None,
            os: Vec::new(),
            cpu: Vec::new(),
            bin: BinField::Empty,
            files: Vec::new(),
            private: None,
            module_type: None,
        }
    }
}

impl BinField {
    /// All bin entries as `(command, path)` pairs; the shorthand form is
    /// named after `pkg_name`.
    pub fn entries(&self, pkg_name: &str) -> (r: Vec<(String, String)>)
        ensures
            pairs_view(r@) == bin_entries_spec(*self, pkg_name@),
    {
        match self {
            BinField::Empty => {
                let r: Vec<(String, String)> = Vec::new();
                proof {
                    assert(pairs_view(r@) =~= bin_entries_spec(*self, pkg_name@));
                }
                r
            },
            BinField::Shorthand(path) => {
                let mut r: Vec<(String, String)> = Vec::new();
                r.push((owned(pkg_name), owned(path.as_str())));
                proof {
                    assert(pairs_view(r@) =~= bin_entries_spec(*self, pkg_name@));
                }
                r
            },
            BinField::Commands(m) => {
                let r = m.pairs();
                proof {
                    assert(pairs_view(r@) =~= bin_entries_spec(*self, pkg_name@));
                }
                r
            },
        }
    }

    /// Whether the field is not set.
    pub fn is_empty(&self) -> (r: bool)
        ensures
            r == (*self is Empty),
    {
        match self {
            BinField::Empty => true,
            _ => false,
        }
    }
}

impl Manifest {
    /// Whether any production, development or optional dependency is
    /// declared.
    pub fn has_dependencies(&self) -> (r: bool)
        ensures
            r == (self.dependencies.keys().len() > 0 || self.dev_dependencies.keys().len() > 0
                || self.optional_dependencies.keys().len() > 0),
    {
        !self.dependencies.is_empty() || !self.dev_dependencies.is_empty()
            || !self.optional_dependencies.is_empty()
    }

    /// The name as a package name (not validated), if present.
    pub fn name_as_pkg_name(&self) -> (r: Option<PackageName>)
        ensures
            match r {
                Some(p) => opt_view(self.name) == Some(p@),
                None => self.name is None,
            },
    {
        match &self.name {
            Some(n) => Some(PackageName::new(owned(n.as_str()))),
            None => None,
        }
    }

    /// The version, if present and a valid semantic version.
    pub fn version_as_version(&self) -> (r: Option<Version>)
        ensures
            match self.version {
                Some(v) => match semver_parse(strip_v(v@)) {
                    Some(x) => r is Some && r->0@ == x,
                    None => r is None,
                },
                None => r is None,
            },
    {
        match &self.version {
            Some(v) => Version::parse(v.as_str()),
            None => None,
        }
    }

    /// The path of the bin entry named `cmd_name`, joined onto
    /// `package_root`.
    pub fn resolve_bin(&self, cmd_name: &str, package_root: &str) -> (r: Option<String>)
        ensures
            match find_entry(bin_entries_spec(self.bin, bin_owner(self.name)), cmd_name@) {
                Some(p) => r is Some && r->0@ == join_path_spec(package_root@, p),
                None => r is None,
            },
    {
        let owner: &str = match &self.name {
            Some(n) => n.as_str(),
            None => "",
        };
        proof {
            reveal_strlit("");
            assert(owner@ == bin_owner(self.name));
        }
        let entries = self.bin.entries(owner);
        let ghost es = pairs_view(entries@);
        let mut i: usize = 0;
        proof {
            assert(es.skip(0) =~= es);
        }
        while i < entries.len()
            invariant
                es == pairs_view(entries@),
                es == bin_entries_spec(self.bin, bin_owner(self.name)),
                i <= entries@.len(),
                find_entry(es, cmd_name@) == find_entry(es.skip(i as int), cmd_name@),
            decreases entries@.len() - i,
        {
            proof {
                assert(es.skip(i as int).drop_first() =~= es.skip(i + 1));
                assert(es.skip(i as int)[0] == es[i as int]);
                assert(es[i as int] == (entries@[i as int].0@, entries@[i as int].1@));
            }
            if str_eq(entries[i].0.as_str(), cmd_name) {
                return Some(join_path(package_root, entries[i].1.as_str()));
            }
            i = i + 1;
        }
        proof {
            assert(es.skip(i as int).len() == 0);
        }
        None
    }
}

} // verus!
