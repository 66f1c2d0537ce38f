//! The index model: the typed, read-only representation of a fetched package
//! index document, and the first-match lookups the resolver performs on it.

use vstd::prelude::*;

use crate::version::Version;

verus! {

/// A package index document: the packages it enumerates.
pub struct IndexFile {
    pub packages: Vec<Package>,
}

/// One vendor's entry in the index: its platforms and tools.
pub struct Package {
    pub name: String,
    pub platforms: Vec<Platform>,
    pub tools: Vec<Tool>,
}

/// One downloadable platform artifact.
pub struct Platform {
    pub name: String,
    pub version: Version,
    pub url: String,
    pub archive_file_name: String,
    pub checksum: String,
}

/// One tool the index offers, with one artifact per host system.
pub struct Tool {
    pub name: String,
    pub version: String,
    pub systems: Vec<System>,
}

/// A tool artifact for one host system.
pub struct System {
    pub checksum: String,
    pub archive_file_name: String,
    pub url: String,
}

/// The position of the first package at or after `i` whose name is `name`.
pub open spec fn package_match_from(packages: Seq<Package>, name: Seq<char>, i: int) -> Option<
    int,
>
    recommends
        0 <= i <= packages.len(),
    decreases packages.len() - i when 0 <= i <= packages.len()
{
    if i >= packages.len() {
        None
    } else if packages[i].name@ == name {
        Some(i)
    } else {
        package_match_from(packages, name, i + 1)
    }
}

/// The position of the first platform entry at or after `i` whose name is
/// `name`. The version is deliberately not compared: the index format does
/// not guarantee uniqueness by name alone, and the resolver takes the first
/// name match whatever version it carries.
pub open spec fn entry_match_from(entries: Seq<Platform>, name: Seq<char>, i: int) -> Option<int>
    recommends
        0 <= i <= entries.len(),
    decreases entries.len() - i when 0 <= i <= entries.len()
{
    if i >= entries.len() {
        None
    } else if entries[i].name@ == name {
        Some(i)
    } else {
        entry_match_from(entries, name, i + 1)
    }
}

/// A package lookup misses exactly when no package bears the name, and a hit
/// is the first package that does.
pub proof fn lemma_package_match_from(packages: Seq<Package>, name: Seq<char>, i: int)
    requires
        0 <= i <= packages.len(),
    ensures
        match package_match_from(packages, name, i) {
            None => forall|k: int| i <= k < packages.len() ==> packages[k].name@ != name,
            Some(j) => i <= j < packages.len() && packages[j].name@ == name && (forall|k: int|
                i <= k < j ==> packages[k].name@ != name),
        },
    decreases packages.len() - i,
{
    if i < packages.len() && packages[i].name@ != name {
        lemma_package_match_from(packages, name, i + 1);
    }
}

/// An entry lookup misses exactly when no entry bears the name, and a hit is
/// the first entry that does.
pub proof fn lemma_entry_match_from(entries: Seq<Platform>, name: Seq<char>, i: int)
    requires
        0 <= i <= entries.len(),
    ensures
        match entry_match_from(entries, name, i) {
            None => forall|k: int| i <= k < entries.len() ==> entries[k].name@ != name,
            Some(j) => i <= j < entries.len() && entries[j].name@ == name && (forall|k: int|
                i <= k < j ==> entries[k].name@ != name),
        },
    decreases entries.len() - i,
{
    if i < entries.len() && entries[i].name@ != name {
        lemma_entry_match_from(entries, name, i + 1);
    }
}

/// Finds the first package with the given name.
pub fn find_package<'a>(index: &'a IndexFile, name: &String) -> (r: Option<&'a Package>)
    ensures
        match r {
            Some(p) => package_match_from(index.packages@, name@, 0) is Some && *p
                == index.packages@[package_match_from(index.packages@, name@, 0).unwrap()],
            None => package_match_from(index.packages@, name@, 0) is None,
        },
{
    let n = index.packages.len();
    let mut i: usize = 0;
    while i < n
        invariant
            0 <= i <= n,
            n == index.packages@.len(),
            package_match_from(index.packages@, name@, 0) == package_match_from(
                index.packages@,
                name@,
                i as int,
            ),
        decreases n - i,
    {
        if index.packages[i].name == *name {
            return Some(&index.packages[i]);
        }
        i = i + 1;
    }
    None
}

/// Finds the first platform entry with the given name, ignoring its version.
pub fn find_entry<'a>(package: &'a Package, name: &String) -> (r: Option<&'a Platform>)
    ensures
        match r {
            Some(e) => entry_match_from(package.platforms@, name@, 0) is Some && *e
                == package.platforms@[entry_match_from(package.platforms@, name@, 0).unwrap()],
            None => entry_match_from(package.platforms@, name@, 0) is None,
        },
{
    let n = package.platforms.len();
    let mut i: usize = 0;
    while i < n
        invariant
            0 <= i <= n,
            n == package.platforms@.len(),
            entry_match_from(package.platforms@, name@, 0) == entry_match_from(
                package.platforms@,
                name@,
                i as int,
            ),
        decreases n - i,
    {
        if package.platforms[i].name == *name {
            return Some(&package.platforms[i]);
        }
        i = i + 1;
    }
    None
}

} // verus!
