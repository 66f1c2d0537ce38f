//! The resolver and the deduplicating emitter: locate each referenced
//! platform in its index document, resolve it to a pinned artifact exactly
//! once per distinct reference, rewrite the manifest to the pinned locations,
//! and render the deterministic build description.

use vstd::prelude::*;

use crate::index_json::{
    entry_match_from, lemma_entry_match_from, lemma_package_match_from, package_match_from,
    IndexFile,
};
use crate::sketch_yaml::{format_chars, PlatformName, PlatformNameV, Profile, Project};
use crate::version::{dec_digits, u64_to_dec};

verus! {

/// Failure of one platform resolution.
#[derive(Debug)]
pub enum ResolveError {
    /// The index could not be fetched (transport error or non-success
    /// status). Raised by the caller that performs the network fetch.
    Fetch(String),
    /// The fetched index document could not be decoded. Raised by the caller
    /// that performs the decoding.
    Decode(String),
    /// No package or platform entry in the index matches the reference.
    NotFound(String),
}

/// Failure of the whole generation run.
#[derive(Debug)]
pub enum GenerateError {
    /// A platform resolution failed; generation aborts on the first failure.
    Resolve(ResolveError),
    /// Fewer index documents were supplied than the fetch plan asks for.
    MissingIndex,
}

/// A resolved platform pinned for reproducible fetching: a deterministic
/// variable name bound to a download URL and a bare checksum.
pub struct ResolvedArtifact {
    pub variable_name: String,
    pub url: String,
    pub checksum: String,
}

/// The mathematical value of a pinned artifact.
#[verifier::ext_equal]
pub ghost struct ResolvedArtifactV {
    pub variable_name: Seq<char>,
    pub url: Seq<char>,
    pub checksum: Seq<char>,
}

impl View for ResolvedArtifact {
    type V = ResolvedArtifactV;

    open spec fn view(&self) -> ResolvedArtifactV {
        ResolvedArtifactV {
            variable_name: self.variable_name@,
            url: self.url@,
            checksum: self.checksum@,
        }
    }
}

/// The kebab-cased form of a string, as convert_case computes it.
pub uninterp spec fn kebab_of(s: Seq<char>) -> Seq<char>;

/// Relies on convert_case's `Casing::to_case` with `Case::Kebab`, with the
/// letter-digit boundaries removed so a name like `esp32` stays one word:
/// the kebab-cased form of a string depends on its characters alone.
#[verifier::external_body]
fn to_kebab(s: &String) -> (r: String)
    ensures
        r@ == kebab_of(s@),
{
    convert_case::Casing::remove_boundaries(s, &convert_case::Boundary::digits()).to_case(
        convert_case::Case::Kebab,
    )
}

/// The deterministic variable name a reference is pinned under:
/// `{vendor}-{platform}-v{major}-{minor}-{patch}` with the two names folded
/// to kebab case and the version's dots rendered as hyphens.
pub open spec fn variable_name_chars(p: PlatformNameV) -> Seq<char> {
    kebab_of(p.package) + "-"@ + kebab_of(p.platform) + "-v"@ + dec_digits(p.version.major as nat)
        + "-"@ + dec_digits(p.version.minor as nat) + "-"@ + dec_digits(p.version.patch as nat)
}

/// Computes the deterministic variable name of a reference.
pub fn variable_name(p: &PlatformName) -> (r: String)
    ensures
        r@ == variable_name_chars(p@),
{
    let mut r = to_kebab(&p.package);
    r.append("-");
    let plat = to_kebab(&p.platform);
    r.append(plat.as_str());
    r.append("-v");
    let major = u64_to_dec(p.version.major);
    r.append(major.as_str());
    r.append("-");
    let minor = u64_to_dec(p.version.minor);
    r.append(minor.as_str());
    r.append("-");
    let patch = u64_to_dec(p.version.patch);
    r.append(patch.as_str());
    proof {
        reveal_strlit("-");
        reveal_strlit("-v");
        assert(r@ =~= variable_name_chars(p@));
    }
    r
}

/// A checksum with any leading `SHA-256:` tag removed, leaving the bare hex
/// digest.
pub open spec fn strip_sha256(s: Seq<char>) -> Seq<char> {
    if s.len() >= 8 && s.subrange(0, 8) == "SHA-256:"@ {
        s.subrange(8, s.len() as int)
    } else {
        s
    }
}

/// Strips a leading `SHA-256:` tag from a checksum, if present.
pub fn strip_checksum_prefix(s: &String) -> (r: String)
    ensures
        r@ == strip_sha256(s@),
{
    let tag = "SHA-256:";
    proof {
        reveal_strlit("SHA-256:");
    }
    let n = s.as_str().unicode_len();
    if n < 8 {
        return s.clone();
    }
    let mut k: usize = 0;
    let mut same = true;
    while k < 8
        invariant
            0 <= k <= 8,
            8 <= n == s@.len(),
            tag@.len() == 8,
            tag@ == "SHA-256:"@,
            same <==> (forall|m: int| 0 <= m < k ==> s@[m] == tag@[m]),
        decreases 8 - k,
    {
        if s.as_str().get_char(k) != tag.get_char(k) {
            same = false;
        }
        k = k + 1;
    }
    if same {
        proof {
            assert(s@.subrange(0, 8) =~= "SHA-256:"@);
        }
        s.as_str().substring_char(8, n).to_owned()
    } else {
        proof {
            let m = choose|m: int| 0 <= m < 8 && s@[m] != tag@[m];
            assert(s@.subrange(0, 8)[m] == s@[m]);
            assert(s@.subrange(0, 8) != "SHA-256:"@);
        }
        s.clone()
    }
}

/// The diagnostic carried by `ResolveError::NotFound`: it names the vendor,
/// platform and version that could not be matched.
pub open spec fn not_found_chars(p: PlatformNameV) -> Seq<char> {
    "no platform matching "@ + format_chars(p) + " in the index"@
}

/// What resolving a reference against an index document yields: the URL and
/// bare checksum of the first platform entry named like the reference inside
/// the first package named like the reference's vendor, or nothing.
pub open spec fn spec_resolve(p: PlatformNameV, packages: Seq<crate::index_json::Package>) -> Option<
    (Seq<char>, Seq<char>),
> {
    match package_match_from(packages, p.package, 0) {
        None => None,
        Some(i) => match entry_match_from(packages[i].platforms@, p.platform, 0) {
            None => None,
            Some(j) => Some(
                (
                    packages[i].platforms@[j].url@,
                    strip_sha256(packages[i].platforms@[j].checksum@),
                ),
            ),
        },
    }
}

/// Locates the artifact a reference pins to inside a fetched index document.
/// The search is by vendor name, then by platform name; the version of a
/// matching entry is deliberately not checked (first name match wins), since
/// the index format does not guarantee uniqueness by name alone.
pub fn resolve_in_index(reference: &PlatformName, index: &IndexFile) -> (r: Result<
    ResolvedArtifact,
    ResolveError,
>)
    ensures
        match r {
            Ok(a) => spec_resolve(reference@, index.packages@) == Some((a.url@, a.checksum@))
                && a.variable_name@ == variable_name_chars(reference@),
            Err(e) => spec_resolve(reference@, index.packages@) is None && (e matches
                ResolveError::NotFound(m) && m@ == not_found_chars(reference@)),
        },
{
    let entry = match crate::index_json::find_package(index, &reference.package) {
        None => None,
        Some(package) => crate::index_json::find_entry(package, &reference.platform),
    };
    match entry {
        Some(e) => Ok(
            ResolvedArtifact {
                variable_name: variable_name(reference),
                url: e.url.clone(),
                checksum: strip_checksum_prefix(&e.checksum),
            },
        ),
        None => {
            let mut m = String::from_str("no platform matching ");
            let text = reference.format();
            m.append(text.as_str());
            m.append(" in the index");
            proof {
                assert(m@ =~= not_found_chars(reference@));
            }
            Err(ResolveError::NotFound(m))
        },
    }
}

/// Lookup law: a resolution only ever answers with a package named like the
/// reference's vendor holding a platform entry named like the reference's
/// platform; when no such pair exists — in particular when the platform name
/// is absent from the package's platform list — it answers with nothing,
/// never with another entry.
pub proof fn lemma_resolve_matches_names(
    p: PlatformNameV,
    packages: Seq<crate::index_json::Package>,
)
    ensures
        spec_resolve(p, packages) is Some ==> exists|i: int, j: int|
            0 <= i < packages.len() && 0 <= j < packages[i].platforms@.len() && packages[i].name@
                == p.package && (#[trigger] packages[i].platforms@[j].name@) == p.platform,
        (forall|i: int, j: int|
            0 <= i < packages.len() && 0 <= j < packages[i].platforms@.len() ==> !(packages[i].name@
                == p.package && (#[trigger] packages[i].platforms@[j].name@) == p.platform))
            ==> spec_resolve(p, packages) is None,
{
    lemma_package_match_from(packages, p.package, 0);
    if package_match_from(packages, p.package, 0) is Some {
        let i = package_match_from(packages, p.package, 0).unwrap();
        lemma_entry_match_from(packages[i].platforms@, p.platform, 0);
        if entry_match_from(packages[i].platforms@, p.platform, 0) is Some {
            let j = entry_match_from(packages[i].platforms@, p.platform, 0).unwrap();
            assert(packages[i].name@ == p.package && packages[i].platforms@[j].name@
                == p.platform);
        }
    }
}

/// The references of a profile's platform dependencies, in order.
pub open spec fn dep_refs(deps: Seq<crate::sketch_yaml::Platform>) -> Seq<PlatformNameV> {
    deps.map_values(|d: crate::sketch_yaml::Platform| d.platform@)
}

/// The emitted-name set after walking a run of dependencies.
pub open spec fn seen_after(deps: Seq<PlatformNameV>, seen: Set<Seq<char>>) -> Set<Seq<char>>
    decreases deps.len(),
{
    if deps.len() == 0 {
        seen
    } else {
        seen_after(deps.drop_first(), seen.insert(variable_name_chars(deps[0])))
    }
}

/// The distinct references of a run of dependencies in first-seen order,
/// given the names already emitted.
pub open spec fn plan_deps(deps: Seq<PlatformNameV>, seen: Set<Seq<char>>) -> Seq<PlatformNameV>
    decreases deps.len(),
{
    if deps.len() == 0 {
        seq![]
    } else {
        let vn = variable_name_chars(deps[0]);
        if seen.contains(vn) {
            plan_deps(deps.drop_first(), seen)
        } else {
            seq![deps[0]] + plan_deps(deps.drop_first(), seen.insert(vn))
        }
    }
}

/// The distinct references across a run of profiles, in first-seen order.
pub open spec fn plan_profiles(profiles: Seq<(String, Profile)>, seen: Set<Seq<char>>) -> Seq<
    PlatformNameV,
>
    decreases profiles.len(),
{
    if profiles.len() == 0 {
        seq![]
    } else {
        plan_deps(dep_refs(profiles[0].1.platforms@), seen) + plan_profiles(
            profiles.drop_first(),
            seen_after(dep_refs(profiles[0].1.platforms@), seen),
        )
    }
}

/// The fetch plan of a manifest: each distinct platform reference exactly
/// once, in the order the profiles first name it.
pub open spec fn project_plan(project: Project) -> Seq<PlatformNameV> {
    plan_profiles(project.profiles@, Set::empty())
}

/// The name set after a run of dependencies holds a name exactly when it
/// was already seen or is the name of one of those dependencies.
pub proof fn lemma_seen_after_names(deps: Seq<PlatformNameV>, seen: Set<Seq<char>>, x: Seq<char>)
    ensures
        seen_after(deps, seen).contains(x) <==> seen.contains(x) || exists|k: int|
            0 <= k < deps.len() && variable_name_chars(#[trigger] deps[k]) == x,
    decreases deps.len(),
{
    if deps.len() > 0 {
        let vn = variable_name_chars(deps[0]);
        let seen1 = seen.insert(vn);
        let rest = deps.drop_first();
        lemma_seen_after_names(rest, seen1, x);
        if seen_after(deps, seen).contains(x) {
            if !seen.contains(x) {
                if seen1.contains(x) {
                    assert(variable_name_chars(deps[0]) == x);
                } else {
                    let k = choose|k: int|
                        0 <= k < rest.len() && variable_name_chars(#[trigger] rest[k]) == x;
                    assert(rest[k] == deps[k + 1]);
                    assert(variable_name_chars(deps[k + 1]) == x);
                }
            }
        }
        if seen.contains(x) {
            assert(seen1.contains(x));
        } else if exists|k: int|
            0 <= k < deps.len() && variable_name_chars(#[trigger] deps[k]) == x {
            let k = choose|k: int|
                0 <= k < deps.len() && variable_name_chars(#[trigger] deps[k]) == x;
            if k == 0 {
                assert(seen1.contains(x));
            } else {
                assert(rest[k - 1] == deps[k]);
                assert(variable_name_chars(rest[k - 1]) == x);
            }
        }
    }
}

/// The plan of a run of dependencies holds a name exactly when the name was
/// not yet seen and belongs to one of those dependencies.
pub proof fn lemma_plan_deps_names(deps: Seq<PlatformNameV>, seen: Set<Seq<char>>, x: Seq<char>)
    ensures
        (exists|a: int|
            0 <= a < plan_deps(deps, seen).len() && variable_name_chars(
                #[trigger] plan_deps(deps, seen)[a],
            ) == x) <==> (!seen.contains(x) && exists|k: int|
            0 <= k < deps.len() && variable_name_chars(#[trigger] deps[k]) == x),
    decreases deps.len(),
{
    let plan = plan_deps(deps, seen);
    if deps.len() > 0 {
        let vn = variable_name_chars(deps[0]);
        let rest = deps.drop_first();
        if seen.contains(vn) {
            let tail = plan_deps(rest, seen);
            lemma_plan_deps_names(rest, seen, x);
            assert(plan == tail);
            if exists|a: int|
                0 <= a < tail.len() && variable_name_chars(#[trigger] tail[a]) == x {
                let k = choose|k: int|
                    0 <= k < rest.len() && variable_name_chars(#[trigger] rest[k]) == x;
                assert(rest[k] == deps[k + 1]);
                assert(variable_name_chars(deps[k + 1]) == x);
            }
            if !seen.contains(x) && exists|k: int|
                0 <= k < deps.len() && variable_name_chars(#[trigger] deps[k]) == x {
                let k = choose|k: int|
                    0 <= k < deps.len() && variable_name_chars(#[trigger] deps[k]) == x;
                assert(k != 0);
                assert(rest[k - 1] == deps[k]);
                assert(variable_name_chars(rest[k - 1]) == x);
                let a = choose|a: int|
                    0 <= a < tail.len() && variable_name_chars(#[trigger] tail[a]) == x;
                assert(variable_name_chars(plan[a]) == x);
            }
        } else {
            let seen1 = seen.insert(vn);
            let tail = plan_deps(rest, seen1);
            lemma_plan_deps_names(rest, seen1, x);
            assert(plan =~= seq![deps[0]] + tail);
            assert(plan[0] == deps[0]);
            if exists|a: int|
                0 <= a < plan.len() && variable_name_chars(#[trigger] plan[a]) == x {
                let a = choose|a: int|
                    0 <= a < plan.len() && variable_name_chars(#[trigger] plan[a]) == x;
                if a == 0 {
                    assert(variable_name_chars(deps[0]) == x);
                } else {
                    assert(plan[a] == tail[a - 1]);
                    assert(variable_name_chars(tail[a - 1]) == x);
                    let k = choose|k: int|
                        0 <= k < rest.len() && variable_name_chars(#[trigger] rest[k]) == x;
                    assert(rest[k] == deps[k + 1]);
                    assert(variable_name_chars(deps[k + 1]) == x);
                }
            }
            if !seen.contains(x) && exists|k: int|
                0 <= k < deps.len() && variable_name_chars(#[trigger] deps[k]) == x {
                if x == vn {
                    assert(variable_name_chars(plan[0]) == x);
                } else {
                    let k = choose|k: int|
                        0 <= k < deps.len() && variable_name_chars(#[trigger] deps[k]) == x;
                    assert(k != 0);
                    assert(rest[k - 1] == deps[k]);
                    assert(variable_name_chars(rest[k - 1]) == x);
                    assert(!seen1.contains(x));
                    let a = choose|a: int|
                        0 <= a < tail.len() && variable_name_chars(#[trigger] tail[a]) == x;
                    assert(plan[a + 1] == tail[a]);
                    assert(variable_name_chars(plan[a + 1]) == x);
                }
            }
        }
    }
}

/// The plan of a run of dependencies holds no name twice and no name already
/// seen, and every plan entry is one of the dependencies.
pub proof fn lemma_plan_deps_distinct(deps: Seq<PlatformNameV>, seen: Set<Seq<char>>)
    ensures
        forall|a: int|
            0 <= a < plan_deps(deps, seen).len() ==> !seen.contains(
                variable_name_chars(#[trigger] plan_deps(deps, seen)[a]),
            ),
        forall|a: int, b: int|
            0 <= a < b < plan_deps(deps, seen).len() ==> variable_name_chars(
                plan_deps(deps, seen)[a],
            ) != variable_name_chars(plan_deps(deps, seen)[b]),
        forall|a: int|
            0 <= a < plan_deps(deps, seen).len() ==> exists|k: int|
                0 <= k < deps.len() && #[trigger] plan_deps(deps, seen)[a] == deps[k],
    decreases deps.len(),
{
    let plan = plan_deps(deps, seen);
    if deps.len() > 0 {
        let vn = variable_name_chars(deps[0]);
        let rest = deps.drop_first();
        if seen.contains(vn) {
            let tail = plan_deps(rest, seen);
            lemma_plan_deps_distinct(rest, seen);
            assert(plan == tail);
            assert forall|a: int| 0 <= a < plan.len() implies #[trigger] plan[a] == tail[a] by {}
            assert forall|a: int| 0 <= a < plan.len() implies exists|k: int|
                0 <= k < deps.len() && #[trigger] plan[a] == deps[k] by {
                assert(tail[a] == plan[a]);
                let k = choose|k: int| 0 <= k < rest.len() && tail[a] == rest[k];
                assert(rest[k] == deps[k + 1]);
                assert(plan[a] == deps[k + 1]);
            }
        } else {
            let seen1 = seen.insert(vn);
            let tail = plan_deps(rest, seen1);
            lemma_plan_deps_distinct(rest, seen1);
            assert(plan =~= seq![deps[0]] + tail);
            assert(plan[0] == deps[0]);
            assert forall|a: int| 0 <= a < plan.len() implies !seen.contains(
                variable_name_chars(#[trigger] plan[a]),
            ) by {
                if a > 0 {
                    assert(plan[a] == tail[a - 1]);
                    assert(!seen1.contains(variable_name_chars(tail[a - 1])));
                }
            }
            assert forall|a: int, b: int|
                0 <= a < b < plan.len() implies variable_name_chars(plan[a])
                != variable_name_chars(plan[b]) by {
                if a == 0 {
                    assert(plan[b] == tail[b - 1]);
                    assert(!seen1.contains(variable_name_chars(tail[b - 1])));
                    assert(seen1.contains(vn));
                } else {
                    assert(plan[a] == tail[a - 1]);
                    assert(plan[b] == tail[b - 1]);
                }
            }
            assert forall|a: int| 0 <= a < plan.len() implies exists|k: int|
                0 <= k < deps.len() && #[trigger] plan[a] == deps[k] by {
                if a == 0 {
                    assert(plan[0] == deps[0]);
                } else {
                    assert(plan[a] == tail[a - 1]);
                    let k = choose|k: int| 0 <= k < rest.len() && tail[a - 1] == rest[k];
                    assert(rest[k] == deps[k + 1]);
                    assert(plan[a] == deps[k + 1]);
                }
            }
        }
    }
}

/// The name of the dependency at profile `i`, position `j`.
pub open spec fn dep_name_at(profiles: Seq<(String, Profile)>, i: int, j: int) -> Seq<char> {
    variable_name_chars(profiles[i].1.platforms@[j].platform@)
}

/// The plan across profiles holds a name exactly when the name was not yet
/// seen and belongs to some profile's dependency.
pub proof fn lemma_plan_profiles_names(
    profiles: Seq<(String, Profile)>,
    seen: Set<Seq<char>>,
    x: Seq<char>,
)
    ensures
        (exists|a: int|
            0 <= a < plan_profiles(profiles, seen).len() && variable_name_chars(
                #[trigger] plan_profiles(profiles, seen)[a],
            ) == x) <==> (!seen.contains(x) && exists|i: int, j: int|
            0 <= i < profiles.len() && 0 <= j < profiles[i].1.platforms@.len()
                && #[trigger] dep_name_at(profiles, i, j) == x),
    decreases profiles.len(),
{
    let plan = plan_profiles(profiles, seen);
    if profiles.len() > 0 {
        let refs0 = dep_refs(profiles[0].1.platforms@);
        let head = plan_deps(refs0, seen);
        let seen1 = seen_after(refs0, seen);
        let rest = profiles.drop_first();
        let tail = plan_profiles(rest, seen1);
        lemma_plan_deps_names(refs0, seen, x);
        lemma_seen_after_names(refs0, seen, x);
        lemma_plan_profiles_names(rest, seen1, x);
        assert(plan =~= head + tail);
        if exists|a: int| 0 <= a < plan.len() && variable_name_chars(#[trigger] plan[a]) == x {
            let a = choose|a: int|
                0 <= a < plan.len() && variable_name_chars(#[trigger] plan[a]) == x;
            if a < head.len() {
                assert(variable_name_chars(head[a]) == x);
                let k = choose|k: int|
                    0 <= k < refs0.len() && variable_name_chars(#[trigger] refs0[k]) == x;
                assert(refs0[k] == profiles[0].1.platforms@[k].platform@);
                assert(dep_name_at(profiles, 0, k) == x);
            } else {
                assert(plan[a] == tail[a - head.len()]);
                assert(variable_name_chars(tail[a - head.len()]) == x);
                let (i2, j2): (int, int) = choose|i2: int, j2: int|
                    0 <= i2 < rest.len() && 0 <= j2 < rest[i2].1.platforms@.len()
                        && #[trigger] dep_name_at(rest, i2, j2) == x;
                assert(rest[i2] == profiles[i2 + 1]);
                assert(dep_name_at(profiles, i2 + 1, j2) == x);
            }
        }
        if !seen.contains(x) && exists|i: int, j: int|
            0 <= i < profiles.len() && 0 <= j < profiles[i].1.platforms@.len()
                && #[trigger] dep_name_at(profiles, i, j) == x {
            if exists|k: int| 0 <= k < refs0.len() && variable_name_chars(#[trigger] refs0[k]) == x {
                let a = choose|a: int|
                    0 <= a < head.len() && variable_name_chars(#[trigger] head[a]) == x;
                assert(plan[a] == head[a]);
                assert(variable_name_chars(plan[a]) == x);
            } else {
                let (i2, j2): (int, int) = choose|i2: int, j2: int|
                    0 <= i2 < profiles.len() && 0 <= j2 < profiles[i2].1.platforms@.len()
                        && #[trigger] dep_name_at(profiles, i2, j2) == x;
                assert(i2 != 0) by {
                    if i2 == 0 {
                        assert(refs0[j2] == profiles[0].1.platforms@[j2].platform@);
                        assert(variable_name_chars(refs0[j2]) == x);
                    }
                }
                assert(rest[i2 - 1] == profiles[i2]);
                assert(dep_name_at(rest, i2 - 1, j2) == x);
                assert(!seen1.contains(x));
                let a = choose|a: int|
                    0 <= a < tail.len() && variable_name_chars(#[trigger] tail[a]) == x;
                assert(plan[head.len() + a] == tail[a]);
                assert(variable_name_chars(plan[head.len() + a]) == x);
            }
        }
    }
}

/// The plan across profiles holds no name twice and no name already seen,
/// and every plan entry is some profile's dependency.
pub proof fn lemma_plan_profiles_distinct(profiles: Seq<(String, Profile)>, seen: Set<Seq<char>>)
    ensures
        forall|a: int|
            0 <= a < plan_profiles(profiles, seen).len() ==> !seen.contains(
                variable_name_chars(#[trigger] plan_profiles(profiles, seen)[a]),
            ),
        forall|a: int, b: int|
            0 <= a < b < plan_profiles(profiles, seen).len() ==> variable_name_chars(
                plan_profiles(profiles, seen)[a],
            ) != variable_name_chars(plan_profiles(profiles, seen)[b]),
        forall|a: int|
            0 <= a < plan_profiles(profiles, seen).len() ==> exists|i: int, j: int|
                0 <= i < profiles.len() && 0 <= j < profiles[i].1.platforms@.len()
                    && #[trigger] plan_profiles(profiles, seen)[a] == profiles[i].1.platforms@[j].platform@,
    decreases profiles.len(),
{
    let plan = plan_profiles(profiles, seen);
    if profiles.len() > 0 {
        let refs0 = dep_refs(profiles[0].1.platforms@);
        let head = plan_deps(refs0, seen);
        let seen1 = seen_after(refs0, seen);
        let rest = profiles.drop_first();
        let tail = plan_profiles(rest, seen1);
        lemma_plan_deps_distinct(refs0, seen);
        lemma_plan_profiles_distinct(rest, seen1);
        assert(plan =~= head + tail);
        assert forall|a: int| 0 <= a < plan.len() implies !seen.contains(
            variable_name_chars(#[trigger] plan[a]),
        ) by {
            if a < head.len() {
                assert(plan[a] == head[a]);
            } else {
                assert(plan[a] == tail[a - head.len()]);
                assert(!seen1.contains(variable_name_chars(tail[a - head.len()])));
                lemma_seen_after_names(refs0, seen, variable_name_chars(plan[a]));
            }
        }
        assert forall|a: int, b: int|
            0 <= a < b < plan.len() implies variable_name_chars(plan[a]) != variable_name_chars(
            plan[b],
        ) by {
            if b < head.len() {
                assert(plan[a] == head[a]);
                assert(plan[b] == head[b]);
            } else if a >= head.len() {
                assert(plan[a] == tail[a - head.len()]);
                assert(plan[b] == tail[b - head.len()]);
            } else {
                assert(plan[a] == head[a]);
                assert(plan[b] == tail[b - head.len()]);
                let x = variable_name_chars(head[a]);
                lemma_plan_deps_names(refs0, seen, x);
                assert(variable_name_chars(head[a]) == x);
                lemma_seen_after_names(refs0, seen, x);
                assert(seen1.contains(x));
                assert(!seen1.contains(variable_name_chars(tail[b - head.len()])));
            }
        }
        assert forall|a: int| 0 <= a < plan.len() implies exists|i: int, j: int|
            0 <= i < profiles.len() && 0 <= j < profiles[i].1.platforms@.len()
                && #[trigger] plan[a] == profiles[i].1.platforms@[j].platform@ by {
            if a < head.len() {
                assert(plan[a] == head[a]);
                let k = choose|k: int| 0 <= k < refs0.len() && head[a] == #[trigger] refs0[k];
                assert(refs0[k] == profiles[0].1.platforms@[k].platform@);
                assert(plan[a] == profiles[0].1.platforms@[k].platform@);
            } else {
                assert(plan[a] == tail[a - head.len()]);
                let (i2, j2): (int, int) = choose|i2: int, j2: int|
                    0 <= i2 < rest.len() && 0 <= j2 < rest[i2].1.platforms@.len()
                        && #[trigger] tail[a - head.len()] == rest[i2].1.platforms@[j2].platform@;
                assert(rest[i2] == profiles[i2 + 1]);
                assert(plan[a] == profiles[i2 + 1].1.platforms@[j2].platform@);
            }
        }
    }
}

/// True when some entry of the manifest's fetch plan bears the name `x`.
pub open spec fn name_pinned(project: Project, x: Seq<char>) -> bool {
    exists|a: int|
        0 <= a < project_plan(project).len() && variable_name_chars(
            #[trigger] project_plan(project)[a],
        ) == x
}

/// Deduplication law: the fetch plan of a manifest pins each distinct
/// platform reference exactly once. Its entries bear pairwise distinct
/// variable names, each entry is one of the profiles' dependencies, and
/// every dependency of every profile has its variable name pinned by some
/// entry. Together with the contract of `generate_profiles`, two profiles
/// referencing the identical platform yield exactly one pinned declaration,
/// and both rewritten index URLs point at it.
pub proof fn lemma_plan_deduplicates(project: Project)
    ensures
        forall|a: int, b: int|
            0 <= a < b < project_plan(project).len() ==> variable_name_chars(
                project_plan(project)[a],
            ) != variable_name_chars(project_plan(project)[b]),
        forall|a: int|
            0 <= a < project_plan(project).len() ==> exists|i: int, j: int|
                0 <= i < project.profiles@.len() && 0 <= j
                    < project.profiles@[i].1.platforms@.len()
                    && #[trigger] project_plan(project)[a]
                    == project.profiles@[i].1.platforms@[j].platform@,
        forall|i: int, j: int|
            0 <= i < project.profiles@.len() && 0 <= j < project.profiles@[i].1.platforms@.len()
                ==> name_pinned(project, #[trigger] dep_name_at(project.profiles@, i, j)),
{
    lemma_plan_profiles_distinct(project.profiles@, Set::empty());
    assert forall|i: int, j: int|
        0 <= i < project.profiles@.len() && 0 <= j
            < project.profiles@[i].1.platforms@.len() implies name_pinned(
        project,
        #[trigger] dep_name_at(project.profiles@, i, j),
    ) by {
        let x = dep_name_at(project.profiles@, i, j);
        lemma_plan_profiles_names(project.profiles@, Set::empty(), x);
        assert(!Set::<Seq<char>>::empty().contains(x));
        assert(exists|i2: int, j2: int|
            0 <= i2 < project.profiles@.len() && 0 <= j2
                < project.profiles@[i2].1.platforms@.len() && #[trigger] dep_name_at(
                project.profiles@,
                i2,
                j2,
            ) == x);
        let a = choose|a: int|
            0 <= a < plan_profiles(project.profiles@, Set::empty()).len()
                && variable_name_chars(
                #[trigger] plan_profiles(project.profiles@, Set::empty())[a],
            ) == x;
        assert(variable_name_chars(project_plan(project)[a]) == x);
    }
}

/// The rewritten index URL of a pinned dependency: a reference to the pinned
/// local artifact.
pub open spec fn pinned_url_chars(vn: Seq<char>) -> Seq<char> {
    "file://${"@ + vn + "}"@
}

/// Computes the rewritten index URL for a pinned variable name.
pub fn pinned_url(vn: &String) -> (r: String)
    ensures
        r@ == pinned_url_chars(vn@),
{
    let mut r = String::from_str("file://${");
    r.append(vn.as_str());
    r.append("}");
    proof {
        assert(r@ =~= pinned_url_chars(vn@));
    }
    r
}

/// How the emitter rewrites one dependency: the reference and every
/// unrecognized field survive unchanged, and the index URL now points at the
/// pinned artifact.
pub open spec fn dep_rewritten(
    old_dep: crate::sketch_yaml::Platform,
    new_dep: crate::sketch_yaml::Platform,
) -> bool {
    &&& new_dep.platform == old_dep.platform
    &&& new_dep.platform_index_url@ == pinned_url_chars(variable_name_chars(old_dep.platform@))
    &&& new_dep.extra == old_dep.extra
}

/// How the emitter rewrites one profile: name, board, libraries and
/// unrecognized fields survive unchanged; each dependency is rewritten.
pub open spec fn profile_rewritten(old_p: (String, Profile), new_p: (String, Profile)) -> bool {
    &&& new_p.0 == old_p.0
    &&& new_p.1.fqbn == old_p.1.fqbn
    &&& new_p.1.libraries == old_p.1.libraries
    &&& new_p.1.extra == old_p.1.extra
    &&& new_p.1.platforms@.len() == old_p.1.platforms@.len()
    &&& forall|j: int|
        0 <= j < old_p.1.platforms@.len() ==> dep_rewritten(
            old_p.1.platforms@[j],
            new_p.1.platforms@[j],
        )
}

/// True of a vector of pinned declarations that contains the given name.
fn contains_name(decls: &Vec<ResolvedArtifact>, vn: &String) -> (r: bool)
    ensures
        r <==> exists|k: int| 0 <= k < decls@.len() && decls@[k].variable_name@ == vn@,
{
    let n = decls.len();
    let mut i: usize = 0;
    while i < n
        invariant
            0 <= i <= n,
            n == decls@.len(),
            forall|k: int| 0 <= k < i ==> decls@[k].variable_name@ != vn@,
        decreases n - i,
    {
        if decls[i].variable_name == *vn {
            return true;
        }
        i = i + 1;
    }
    false
}

/// Resolves every distinct platform reference exactly once, in first-seen
/// order, against the index documents supplied in that same order, and
/// rewrites every dependency's index URL to its pinned location. Succeeds
/// exactly when an index document is supplied for each distinct reference
/// and each resolves; the first failure aborts the run.
#[verifier::loop_isolation(false)]
pub fn generate_profiles(project: Project, indexes: &Vec<IndexFile>) -> (r: Result<
    (Project, Vec<ResolvedArtifact>),
    GenerateError,
>)
    ensures
        match r {
            Ok((new_project, new_decls)) => {
                &&& new_decls@.len() == project_plan(project).len()
                &&& project_plan(project).len() <= indexes@.len()
                &&& forall|k: int|
                    0 <= k < project_plan(project).len() ==> (#[trigger] new_decls@[k]).variable_name@
                        == variable_name_chars(project_plan(project)[k]) && spec_resolve(
                        project_plan(project)[k],
                        indexes@[k].packages@,
                    ) == Some((new_decls@[k].url@, new_decls@[k].checksum@))
                &&& new_project.profiles@.len() == project.profiles@.len()
                &&& forall|i: int|
                    0 <= i < project.profiles@.len() ==> profile_rewritten(
                        project.profiles@[i],
                        #[trigger] new_project.profiles@[i],
                    )
            },
            Err(GenerateError::MissingIndex) => indexes@.len() < project_plan(project).len(),
            Err(GenerateError::Resolve(e)) => exists|k: int|
                0 <= k < project_plan(project).len() && k < indexes@.len() && spec_resolve(
                    #[trigger] project_plan(project)[k],
                    indexes@[k].packages@,
                ) is None && (e matches ResolveError::NotFound(m) && m@ == not_found_chars(
                    project_plan(project)[k],
                )),
        },
{
    let ghost project0 = project;
    let ghost all = project.profiles@;
    proof {
        assert(project_plan(project0) == plan_profiles(all, Set::empty()));
    }
    let mut profiles = project.profiles;
    let mut out_profiles: Vec<(String, Profile)> = Vec::new();
    let mut decls: Vec<ResolvedArtifact> = Vec::new();
    let ghost mut planned: Seq<PlatformNameV> = Seq::empty();
    let ghost mut seen: Set<Seq<char>> = Set::empty();
    proof {
        assert(profiles@ =~= all.subrange(out_profiles@.len() as int, all.len() as int));
    }
    while profiles.len() > 0
        invariant
            out_profiles@.len() + profiles@.len() == all.len(),
            profiles@ =~= all.subrange(out_profiles@.len() as int, all.len() as int),
            plan_profiles(all, Set::empty()) =~= planned + plan_profiles(profiles@, seen),
            decls@.len() == planned.len(),
            planned.len() <= indexes@.len(),
            forall|k: int|
                0 <= k < planned.len() ==> (#[trigger] decls@[k]).variable_name@
                    == variable_name_chars(planned[k]) && spec_resolve(
                    planned[k],
                    indexes@[k].packages@,
                ) == Some((decls@[k].url@, decls@[k].checksum@)),
            forall|x: Seq<char>|
                seen.contains(x) <==> exists|k: int|
                    0 <= k < planned.len() && variable_name_chars(#[trigger] planned[k]) == x,
            forall|i: int|
                0 <= i < out_profiles@.len() ==> profile_rewritten(
                    all[i],
                    #[trigger] out_profiles@[i],
                ),
        decreases profiles@.len(),
    {
        let pair = profiles.remove(0);
        let pname = pair.0;
        let profile = pair.1;
        let ghost profiles_before = all.subrange(out_profiles@.len() as int, all.len() as int);
        proof {
            assert(profiles_before[0].1 == profile);
            assert(profiles_before.drop_first() =~= profiles@);
        }
        let Profile { fqbn, platforms, libraries, extra } = profile;
        let mut deps = platforms;
        let ghost alldeps = deps@;
        let mut new_deps: Vec<crate::sketch_yaml::Platform> = Vec::new();
        proof {
            assert(dep_refs(deps@) =~= dep_refs(alldeps).subrange(
                new_deps@.len() as int,
                alldeps.len() as int,
            ));
        }
        while deps.len() > 0
            invariant
                new_deps@.len() + deps@.len() == alldeps.len(),
                dep_refs(deps@) =~= dep_refs(alldeps).subrange(
                    new_deps@.len() as int,
                    alldeps.len() as int,
                ),
                forall|j: int|
                    0 <= j < new_deps@.len() ==> dep_rewritten(
                        alldeps[j],
                        #[trigger] new_deps@[j],
                    ),
                forall|j: int|
                    0 <= j < deps@.len() ==> #[trigger] deps@[j] == alldeps[
                        new_deps@.len() + j
                    ],
                plan_profiles(all, Set::empty()) =~= planned + plan_deps(dep_refs(deps@), seen)
                    + plan_profiles(profiles@, seen_after(dep_refs(deps@), seen)),
                decls@.len() == planned.len(),
                planned.len() <= indexes@.len(),
                forall|k: int|
                    0 <= k < planned.len() ==> (#[trigger] decls@[k]).variable_name@
                        == variable_name_chars(planned[k]) && spec_resolve(
                        planned[k],
                        indexes@[k].packages@,
                    ) == Some((decls@[k].url@, decls@[k].checksum@)),
                forall|x: Seq<char>|
                    seen.contains(x) <==> exists|k: int|
                        0 <= k < planned.len() && variable_name_chars(#[trigger] planned[k]) == x,
            decreases deps@.len(),
        {
            let ghost deps_before = deps@;
            let mut dep = deps.remove(0);
            let ghost ref0 = dep.platform@;
            proof {
                assert(dep_refs(deps_before)[0] == ref0);
                assert(dep_refs(deps_before).drop_first() =~= dep_refs(deps@));
            }
            let vn = variable_name(&dep.platform);
            if !contains_name(&decls, &vn) {
                proof {
                    assert(!seen.contains(variable_name_chars(ref0))) by {
                        if seen.contains(variable_name_chars(ref0)) {
                            let k = choose|k: int|
                                0 <= k < planned.len() && variable_name_chars(planned[k])
                                    == variable_name_chars(ref0);
                            assert(decls@[k].variable_name@ == vn@);
                        }
                    }
                    assert(plan_deps(dep_refs(deps_before), seen) =~= seq![ref0] + plan_deps(
                        dep_refs(deps@),
                        seen.insert(variable_name_chars(ref0)),
                    ));
                    assert(plan_profiles(all, Set::empty())[planned.len() as int] == ref0);
                    assert(plan_profiles(all, Set::empty()).len() > planned.len());
                    assert(project_plan(project) == plan_profiles(all, Set::empty()));
                    assert(project_plan(project0) == plan_profiles(all, Set::empty()));
                }
                if decls.len() >= indexes.len() {
                    return Err(GenerateError::MissingIndex);
                }
                let resolved = match resolve_in_index(&dep.platform, &indexes[decls.len()]) {
                    Ok(a) => a,
                    Err(e) => {
                        return Err(GenerateError::Resolve(e));
                    },
                };
                decls.push(resolved);
                proof {
                    let planned0 = planned;
                    let seen0 = seen;
                    planned = planned.push(ref0);
                    seen = seen.insert(variable_name_chars(ref0));
                    assert(planned[planned.len() - 1] == ref0);
                    assert forall|x: Seq<char>| seen.contains(x) implies exists|k: int|
                        0 <= k < planned.len() && variable_name_chars(#[trigger] planned[k])
                            == x by {
                        if x == variable_name_chars(ref0) {
                            assert(variable_name_chars(planned[planned.len() - 1]) == x);
                        } else {
                            let k = choose|k: int|
                                0 <= k < planned0.len() && variable_name_chars(
                                    #[trigger] planned0[k],
                                ) == x;
                            assert(variable_name_chars(planned[k]) == x);
                        }
                    }
                    assert forall|x: Seq<char>|
                        exists|k: int|
                            0 <= k < planned.len() && variable_name_chars(#[trigger] planned[k])
                                == x implies seen.contains(x) by {
                        let k = choose|k: int|
                            0 <= k < planned.len() && variable_name_chars(#[trigger] planned[k])
                                == x;
                        if k < planned0.len() {
                            assert(variable_name_chars(planned0[k]) == x);
                            assert(seen0.contains(x));
                        } else {
                            assert(planned[k] == ref0);
                        }
                    }
                }
            } else {
                proof {
                    assert(seen.contains(variable_name_chars(ref0)));
                    assert(plan_deps(dep_refs(deps_before), seen) =~= plan_deps(
                        dep_refs(deps@),
                        seen,
                    ));
                    assert(seen.insert(variable_name_chars(ref0)) =~= seen);
                }
            }
            dep.platform_index_url = pinned_url(&vn);
            new_deps.push(dep);
        }
        let new_profile = Profile { fqbn, platforms: new_deps, libraries, extra };
        out_profiles.push((pname, new_profile));
        proof {
            assert(dep_refs(alldeps).subrange(alldeps.len() as int, alldeps.len() as int)
                =~= Seq::<PlatformNameV>::empty());
        }
    }
    proof {
        assert(plan_profiles(profiles@, seen) =~= Seq::<PlatformNameV>::empty());
        assert(planned =~= plan_profiles(all, Set::empty()));
    }
    Ok((Project { profiles: out_profiles }, decls))
}

/// One pinned-fetch declaration: the variable name bound to the artifact's
/// URL and bare checksum.
pub open spec fn decl_line_chars(d: ResolvedArtifactV) -> Seq<char> {
    d.variable_name + " = (pkgs.fetchurl { url = \""@ + d.url + "\"; sha256 = \""@ + d.checksum
        + "\"; });\n"@
}

/// Renders one pinned-fetch declaration line.
pub fn decl_line(d: &ResolvedArtifact) -> (r: String)
    ensures
        r@ == decl_line_chars(d@),
{
    let mut r = d.variable_name.clone();
    r.append(" = (pkgs.fetchurl { url = \"");
    r.append(d.url.as_str());
    r.append("\"; sha256 = \"");
    r.append(d.checksum.as_str());
    r.append("\"; });\n");
    proof {
        assert(r@ =~= decl_line_chars(d@));
    }
    r
}

/// The pinned-fetch declarations in emission order, one line each.
pub open spec fn decls_text(ds: Seq<ResolvedArtifact>) -> Seq<char>
    decreases ds.len(),
{
    if ds.len() == 0 {
        Seq::empty()
    } else {
        decls_text(ds.drop_last()) + decl_line_chars(ds.last()@)
    }
}

/// Renders the pinned-fetch declarations in emission order.
pub fn render_decls(decls: &Vec<ResolvedArtifact>) -> (r: String)
    ensures
        r@ == decls_text(decls@),
{
    let mut r = String::new();
    let mut i: usize = 0;
    proof {
        assert(decls@.take(0) =~= Seq::<ResolvedArtifact>::empty());
    }
    while i < decls.len()
        invariant
            0 <= i <= decls@.len(),
            r@ == decls_text(decls@.take(i as int)),
        decreases decls@.len() - i,
    {
        let line = decl_line(&decls[i]);
        r.append(line.as_str());
        proof {
            assert(decls@.take(i as int + 1).drop_last() =~= decls@.take(i as int));
            assert(decls@.take(i as int + 1).last() == decls@[i as int]);
        }
        i = i + 1;
    }
    proof {
        assert(decls@.take(decls@.len() as int) =~= decls@);
    }
    r
}

/// The section embedding the rewritten manifest in the build description.
pub open spec fn sketch_yaml_section_chars(yaml: Seq<char>) -> Seq<char> {
    "sketch_yaml = pkgs.writeText \"sketch.json\" ''\n"@ + yaml + "\n'';\n"@
}

/// Renders the section that embeds the serialized rewritten manifest, so the
/// build description is self-contained.
pub fn generate_sketch_yaml(project_yaml: &str) -> (r: String)
    ensures
        r@ == sketch_yaml_section_chars(project_yaml@),
{
    let mut r = String::from_str("sketch_yaml = pkgs.writeText \"sketch.json\" ''\n");
    r.append(project_yaml);
    r.append("\n'';\n");
    proof {
        assert(r@ =~= sketch_yaml_section_chars(project_yaml@));
    }
    r
}

/// The fixed opening of the build description: the generated-file notice and
/// the start of the let-bindings.
pub open spec fn header_chars() -> Seq<char> {
    "# Auto-generated with arduino2nix. Do not modify.\n# Edit your sketch.yaml and then run `arduino2nix generate` to update this file.\n{ pkgs ? <nixpkgs> {}, pname, version }:\nlet\n"@
}

/// The fixed closing of the build description: the derivation that compiles
/// the sketch against the rewritten manifest and copies out the one artifact.
pub open spec fn footer_chars() -> Seq<char> {
    "in\npkgs.stdenv.mkDerivation {\ninherit pname version;\nsrc = ./.;\nbuildInputs = [ pkgs.arduino-cli ];\npostUnpack = ''\nrm -f $sourceRoot/sketch.yaml\nln -s ${sketch_yaml} $sourceRoot/sketch.yaml\ncat $sourceRoot/sketch.yaml\n'';\nbuildPhase = ''\narduino-cli compile --profile ${pname} --output-dir output\n'';\ninstallPhase = ''\ncp output/${pname}.ino.elf $out/payload.elf\n'';\n}\n"@
}

/// The whole build description: header, pinned-fetch declarations in
/// emission order, the embedded rewritten manifest, and the build steps.
pub open spec fn body_chars(decls: Seq<ResolvedArtifact>, yaml: Seq<char>) -> Seq<char> {
    header_chars() + decls_text(decls) + sketch_yaml_section_chars(yaml) + footer_chars()
}

/// Renders the complete build description from the pinned declarations and
/// the serialized rewritten manifest.
pub fn body(decls: &Vec<ResolvedArtifact>, sketch_yaml: &str) -> (r: String)
    ensures
        r@ == body_chars(decls@, sketch_yaml@),
{
    let mut r = String::from_str(
        "# Auto-generated with arduino2nix. Do not modify.\n# Edit your sketch.yaml and then run `arduino2nix generate` to update this file.\n{ pkgs ? <nixpkgs> {}, pname, version }:\nlet\n",
    );
    let ds = render_decls(decls);
    r.append(ds.as_str());
    let section = generate_sketch_yaml(sketch_yaml);
    r.append(section.as_str());
    r.append(
        "in\npkgs.stdenv.mkDerivation {\ninherit pname version;\nsrc = ./.;\nbuildInputs = [ pkgs.arduino-cli ];\npostUnpack = ''\nrm -f $sourceRoot/sketch.yaml\nln -s ${sketch_yaml} $sourceRoot/sketch.yaml\ncat $sourceRoot/sketch.yaml\n'';\nbuildPhase = ''\narduino-cli compile --profile ${pname} --output-dir output\n'';\ninstallPhase = ''\ncp output/${pname}.ino.elf $out/payload.elf\n'';\n}\n",
    );
    proof {
        assert(r@ =~= body_chars(decls@, sketch_yaml@));
    }
    r
}

/// Determinism law: the emitted build description is a function of the
/// manifest and the fetched index documents alone. Equal manifests have
/// equal fetch plans, and equal declarations with an equal embedded manifest
/// render byte-identical output, so re-running generation on unchanged input
/// reproduces the description exactly.
pub proof fn lemma_generation_deterministic(
    p1: Project,
    p2: Project,
    d1: Seq<ResolvedArtifact>,
    d2: Seq<ResolvedArtifact>,
    y1: Seq<char>,
    y2: Seq<char>,
)
    requires
        p1.profiles@ == p2.profiles@,
        d1 == d2,
        y1 == y2,
    ensures
        project_plan(p1) == project_plan(p2),
        body_chars(d1, y1) == body_chars(d2, y2),
{
}

} // verus!
