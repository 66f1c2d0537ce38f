//! The manifest model: the textual platform-reference grammar
//! `vendor:platform (major.minor.patch)` and the typed, order-stable
//! representation of the project manifest.

use vstd::prelude::*;

use crate::version::{
    dec_digits, digit_val, is_digit_char, lemma_dec_digits_are_digits, lemma_val_of_dec_digits,
    val_of, version_chars, Version,
};

verus! {

/// Failure of the platform-reference grammar: the text does not match
/// `vendor:platform (major.minor.patch)`.
#[derive(Clone, Copy, PartialEq, Eq, Structural, Debug)]
pub enum ParseError {
    Malformed,
}

/// The characters a vendor or platform name may hold.
pub open spec fn is_name_char(c: char) -> bool {
    ('a' <= c && c <= 'z') || ('A' <= c && c <= 'Z') || ('0' <= c && c <= '9') || c == '_' || c
        == '-'
}

/// Horizontal whitespace permitted around the version parenthesis.
pub open spec fn is_space_char(c: char) -> bool {
    c == ' ' || c == '\t'
}

pub open spec fn name_char_fn() -> spec_fn(char) -> bool {
    |c: char| is_name_char(c)
}

pub open spec fn space_char_fn() -> spec_fn(char) -> bool {
    |c: char| is_space_char(c)
}

pub open spec fn digit_char_fn() -> spec_fn(char) -> bool {
    |c: char| is_digit_char(c)
}

/// The first position at or after `i` whose character fails `p` (or the end
/// of the text): maximal-munch scanning.
pub open spec fn scan(s: Seq<char>, i: int, p: spec_fn(char) -> bool) -> int
    recommends
        0 <= i <= s.len(),
    decreases s.len() - i when 0 <= i <= s.len()
{
    if i < s.len() && p(s[i]) {
        scan(s, i + 1, p)
    } else {
        i
    }
}

pub proof fn lemma_scan_bounds(s: Seq<char>, i: int, p: spec_fn(char) -> bool)
    requires
        0 <= i <= s.len(),
    ensures
        i <= scan(s, i, p) <= s.len(),
        forall|k: int| i <= k < scan(s, i, p) ==> p(s[k]),
        scan(s, i, p) < s.len() ==> !p(s[scan(s, i, p)]),
    decreases s.len() - i,
{
    if i < s.len() && p(s[i]) {
        lemma_scan_bounds(s, i + 1, p);
    }
}

/// A scan ends exactly at the first failing position.
pub proof fn lemma_scan_is(s: Seq<char>, i: int, j: int, p: spec_fn(char) -> bool)
    requires
        0 <= i <= j <= s.len(),
        forall|k: int| i <= k < j ==> p(s[k]),
        j < s.len() ==> !p(s[j]),
    ensures
        scan(s, i, p) == j,
    decreases j - i,
{
    if i < j {
        lemma_scan_is(s, i + 1, j, p);
    }
}

/// Extending a digit run never shrinks its value.
pub proof fn lemma_val_of_extend(s: Seq<char>, i: int, j: int, k: int)
    requires
        0 <= i <= j <= k <= s.len(),
    ensures
        val_of(s.subrange(i, k)) >= val_of(s.subrange(i, j)),
    decreases k - j,
{
    if j < k {
        lemma_val_of_extend(s, i, j, k - 1);
        assert(s.subrange(i, k).drop_last() =~= s.subrange(i, k - 1));
        assert(val_of(s.subrange(i, k)) == val_of(s.subrange(i, k - 1)) * 10 + digit_val(
            s.subrange(i, k).last(),
        ));
    }
}

/// One more digit multiplies the value by ten and adds the digit.
pub proof fn lemma_val_of_step(s: Seq<char>, i: int, k: int)
    requires
        0 <= i <= k < s.len(),
    ensures
        val_of(s.subrange(i, k + 1)) == val_of(s.subrange(i, k)) * 10 + digit_val(s[k]),
{
    assert(s.subrange(i, k + 1).drop_last() =~= s.subrange(i, k));
    assert(s.subrange(i, k + 1).last() == s[k]);
}

fn is_name_char_exec(c: char) -> (r: bool)
    ensures
        r == is_name_char(c),
{
    ('a' <= c && c <= 'z') || ('A' <= c && c <= 'Z') || ('0' <= c && c <= '9') || c == '_' || c
        == '-'
}

fn is_space_char_exec(c: char) -> (r: bool)
    ensures
        r == is_space_char(c),
{
    c == ' ' || c == '\t'
}

fn is_digit_char_exec(c: char) -> (r: bool)
    ensures
        r == is_digit_char(c),
{
    '0' <= c && c <= '9'
}

/// Scans a run of name characters starting at `i`.
fn scan_name(s: &str, i: usize) -> (j: usize)
    requires
        i <= s@.len(),
    ensures
        j == scan(s@, i as int, name_char_fn()),
{
    let n = s.unicode_len();
    let mut j = i;
    while j < n && is_name_char_exec(s.get_char(j))
        invariant
            i <= j <= n,
            n == s@.len(),
            scan(s@, i as int, name_char_fn()) == scan(s@, j as int, name_char_fn()),
        decreases n - j,
    {
        j = j + 1;
    }
    j
}

/// Scans a run of whitespace characters starting at `i`.
fn scan_space(s: &str, i: usize) -> (j: usize)
    requires
        i <= s@.len(),
    ensures
        j == scan(s@, i as int, space_char_fn()),
{
    let n = s.unicode_len();
    let mut j = i;
    while j < n && is_space_char_exec(s.get_char(j))
        invariant
            i <= j <= n,
            n == s@.len(),
            scan(s@, i as int, space_char_fn()) == scan(s@, j as int, space_char_fn()),
        decreases n - j,
    {
        j = j + 1;
    }
    j
}

/// Scans a run of digits starting at `i`.
fn scan_digits(s: &str, i: usize) -> (j: usize)
    requires
        i <= s@.len(),
    ensures
        j == scan(s@, i as int, digit_char_fn()),
{
    let n = s.unicode_len();
    let mut j = i;
    while j < n && is_digit_char_exec(s.get_char(j))
        invariant
            i <= j <= n,
            n == s@.len(),
            scan(s@, i as int, digit_char_fn()) == scan(s@, j as int, digit_char_fn()),
        decreases n - j,
    {
        j = j + 1;
    }
    j
}

/// A number parse: a non-empty digit run whose value fits in `u64`, read at
/// position `i`, together with the position after the run.
pub open spec fn parse_num(s: Seq<char>, i: int) -> Option<(u64, int)>
    recommends
        0 <= i <= s.len(),
{
    let j = scan(s, i, digit_char_fn());
    if j == i {
        None
    } else {
        let v = val_of(s.subrange(i, j));
        if v > u64::MAX {
            None
        } else {
            Some((v as u64, j))
        }
    }
}

/// Reads a decimal number at position `i`, failing on an empty digit run or
/// on a value that does not fit in `u64`.
fn parse_num_exec(s: &str, i: usize) -> (r: Option<(u64, usize)>)
    requires
        i <= s@.len(),
    ensures
        r is Some <==> parse_num(s@, i as int) is Some,
        r matches Some((v, j)) ==> parse_num(s@, i as int) == Some((v, j as int)) && i <= j
            <= s@.len(),
{
    let j = scan_digits(s, i);
    proof {
        lemma_scan_bounds(s@, i as int, digit_char_fn());
    }
    if j == i {
        return None;
    }
    let mut acc: u64 = 0;
    let mut k = i;
    while k < j
        invariant
            i <= k <= j <= s@.len(),
            j == scan(s@, i as int, digit_char_fn()),
            forall|m: int| i <= m < j ==> is_digit_char(s@[m]),
            acc as nat == val_of(s@.subrange(i as int, k as int)),
        decreases j - k,
    {
        let c = s.get_char(k);
        let d: u64 = (c as u32 - '0' as u32) as u64;
        proof {
            lemma_val_of_step(s@, i as int, k as int);
            assert(d == digit_val(s@[k as int]));
        }
        let step = match acc.checked_mul(10) {
            Some(t) => t.checked_add(d),
            None => None,
        };
        match step {
            Some(next) => {
                acc = next;
            },
            None => {
                proof {
                    lemma_val_of_extend(s@, i as int, k as int + 1, j as int);
                }
                return None;
            },
        }
        k = k + 1;
    }
    proof {
        assert(s@.subrange(i as int, j as int) == s@.subrange(i as int, k as int));
    }
    Some((acc, j))
}

/// A parsed platform reference: one hardware-support package, named by
/// vendor (package), platform, and exact version.
#[derive(Debug)]
pub struct PlatformName {
    pub package: String,
    pub platform: String,
    pub version: Version,
}

/// The mathematical value of a platform reference.
#[verifier::ext_equal]
pub ghost struct PlatformNameV {
    pub package: Seq<char>,
    pub platform: Seq<char>,
    pub version: Version,
}

impl View for PlatformName {
    type V = PlatformNameV;

    open spec fn view(&self) -> PlatformNameV {
        PlatformNameV { package: self.package@, platform: self.platform@, version: self.version }
    }
}

impl Clone for PlatformName {
    fn clone(&self) -> (r: Self)
        ensures
            r@ == self@,
    {
        PlatformName {
            package: self.package.clone(),
            platform: self.platform.clone(),
            version: self.version,
        }
    }
}

impl PartialEq for PlatformName {
    fn eq(&self, other: &Self) -> (r: bool) {
        self.package == other.package && self.platform == other.platform && self.version
            == other.version
    }
}

impl vstd::std_specs::cmp::PartialEqSpecImpl for PlatformName {
    open spec fn obeys_eq_spec() -> bool {
        true
    }

    open spec fn eq_spec(&self, other: &Self) -> bool {
        self@ == other@
    }
}

/// A non-empty run of name characters.
pub open spec fn valid_name(s: Seq<char>) -> bool {
    s.len() > 0 && (forall|i: int| 0 <= i < s.len() ==> is_name_char(#[trigger] s[i]))
}

/// The invariant a parsed reference satisfies.
pub open spec fn wf_ref(p: PlatformNameV) -> bool {
    valid_name(p.package) && valid_name(p.platform)
}

/// The canonical text of a reference: `vendor:platform (version)`, always
/// with the single-space form regardless of the whitespace the author wrote.
pub open spec fn format_chars(p: PlatformNameV) -> Seq<char> {
    p.package + seq![':'] + p.platform + seq![' ', '('] + version_chars(p.version) + seq![')']
}

/// The reference grammar, as a deterministic maximal-munch descent:
/// `name ':' name ws '(' ws digits '.' digits '.' digits ws ')'`, where the
/// whole text must be consumed. `None` is a malformed reference.
pub open spec fn spec_parse(s: Seq<char>) -> Option<PlatformNameV> {
    let e1 = scan(s, 0, name_char_fn());
    if e1 == 0 || !(e1 < s.len() && s[e1] == ':') {
        None
    } else {
        let b2 = e1 + 1;
        let e2 = scan(s, b2, name_char_fn());
        if e2 == b2 {
            None
        } else {
            let i3 = scan(s, e2, space_char_fn());
            if !(i3 < s.len() && s[i3] == '(') {
                None
            } else {
                let i4 = scan(s, i3 + 1, space_char_fn());
                spec_parse_version(s, i4, s.subrange(0, e1), s.subrange(b2, e2))
            }
        }
    }
}

/// The version-and-closing-parenthesis tail of the grammar, from position
/// `i`: `digits '.' digits '.' digits ws ')'` ending exactly at the end of
/// the text.
pub open spec fn spec_parse_version(
    s: Seq<char>,
    i: int,
    package: Seq<char>,
    platform: Seq<char>,
) -> Option<PlatformNameV> {
    match parse_num(s, i) {
        None => None,
        Some((major, p1)) => if !(p1 < s.len() && s[p1] == '.') {
            None
        } else {
            match parse_num(s, p1 + 1) {
                None => None,
                Some((minor, p2)) => if !(p2 < s.len() && s[p2] == '.') {
                    None
                } else {
                    match parse_num(s, p2 + 1) {
                        None => None,
                        Some((patch, p3)) => {
                            let i7 = scan(s, p3, space_char_fn());
                            if i7 < s.len() && s[i7] == ')' && i7 + 1 == s.len() {
                                Some(
                                    PlatformNameV {
                                        package,
                                        platform,
                                        version: Version { major, minor, patch },
                                    },
                                )
                            } else {
                                None
                            }
                        },
                    }
                },
            }
        },
    }
}

impl PlatformName {
    /// Parses the textual reference `vendor:platform (major.minor.patch)`.
    /// Returns `Malformed` exactly when the text does not match the grammar.
    pub fn parse(s: &str) -> (r: Result<PlatformName, ParseError>)
        ensures
            match r {
                Ok(p) => spec_parse(s@) == Some(p@) && wf_ref(p@),
                Err(e) => spec_parse(s@) is None && e == ParseError::Malformed,
            },
    {
        let n = s.unicode_len();
        let e1 = scan_name(s, 0);
        proof {
            lemma_scan_bounds(s@, 0, name_char_fn());
        }
        if e1 == 0 || !(e1 < n && s.get_char(e1) == ':') {
            return Err(ParseError::Malformed);
        }
        let b2 = e1 + 1;
        let e2 = scan_name(s, b2);
        proof {
            lemma_scan_bounds(s@, b2 as int, name_char_fn());
        }
        if e2 == b2 {
            return Err(ParseError::Malformed);
        }
        let i3 = scan_space(s, e2);
        proof {
            lemma_scan_bounds(s@, e2 as int, space_char_fn());
        }
        if !(i3 < n && s.get_char(i3) == '(') {
            return Err(ParseError::Malformed);
        }
        let i4 = scan_space(s, i3 + 1);
        proof {
            lemma_scan_bounds(s@, i3 as int + 1, space_char_fn());
        }
        let package = s.substring_char(0, e1).to_owned();
        let platform = s.substring_char(b2, e2).to_owned();
        let ghost packageg = s@.subrange(0, e1 as int);
        let ghost platformg = s@.subrange(b2 as int, e2 as int);
        let major = match parse_num_exec(s, i4) {
            None => {
                return Err(ParseError::Malformed);
            },
            Some(m) => m,
        };
        let p1 = major.1;
        if !(p1 < n && s.get_char(p1) == '.') {
            return Err(ParseError::Malformed);
        }
        let minor = match parse_num_exec(s, p1 + 1) {
            None => {
                return Err(ParseError::Malformed);
            },
            Some(m) => m,
        };
        let p2 = minor.1;
        if !(p2 < n && s.get_char(p2) == '.') {
            return Err(ParseError::Malformed);
        }
        let patch = match parse_num_exec(s, p2 + 1) {
            None => {
                return Err(ParseError::Malformed);
            },
            Some(m) => m,
        };
        let p3 = patch.1;
        let i7 = scan_space(s, p3);
        proof {
            lemma_scan_bounds(s@, p3 as int, space_char_fn());
        }
        if !(i7 < n && s.get_char(i7) == ')' && i7 + 1 == n) {
            return Err(ParseError::Malformed);
        }
        let result = PlatformName {
            package,
            platform,
            version: Version { major: major.0, minor: minor.0, patch: patch.0 },
        };
        proof {
            assert(valid_name(packageg));
            assert(valid_name(platformg));
            assert(spec_parse(s@) =~= Some(result@));
        }
        Ok(result)
    }

    /// Canonical text of the reference: `vendor:platform (version)`.
    pub fn format(&self) -> (r: String)
        ensures
            r@ == format_chars(self@),
    {
        let mut r = self.package.clone();
        r.append(":");
        r.append(self.platform.as_str());
        r.append(" (");
        let v = self.version.format();
        r.append(v.as_str());
        r.append(")");
        proof {
            reveal_strlit(":");
            reveal_strlit(" (");
            reveal_strlit(")");
            assert(r@ =~= format_chars(self@));
        }
        r
    }
}

// A YAML value is opaque to the library: unrecognized manifest fields are
// carried through untouched and merged back in at serialization time.
#[verifier::external_type_specification]
#[verifier::external_body]
pub struct ExYamlValue(serde_yaml_ng::Value);

/// One platform dependency of a profile: the parsed reference and the index
/// URL it resolves against. `extra` holds every field the library does not
/// model, in document order, so a read-modify-write cycle preserves it.
pub struct Platform {
    pub platform: PlatformName,
    pub platform_index_url: String,
    pub extra: Vec<(String, serde_yaml_ng::Value)>,
}

/// One build profile: its board identifier, platform dependencies, library
/// references, and the unrecognized fields it carries through.
pub struct Profile {
    pub fqbn: String,
    pub platforms: Vec<Platform>,
    pub libraries: Vec<String>,
    pub extra: Vec<(String, serde_yaml_ng::Value)>,
}

/// The project manifest: its profiles as an order-stable mapping from
/// profile name to profile, in document order.
pub struct Project {
    pub profiles: Vec<(String, Profile)>,
}

/// Round-trip law of the identifier grammar: parsing the canonical text of
/// any well-formed reference yields that reference back. Together with the
/// contracts of `PlatformName::parse` and `PlatformName::format`, this pins
/// `parse(format(x)) == Ok(x)` for every valid `x`.
pub proof fn lemma_parse_format_roundtrip(p: PlatformNameV)
    requires
        wf_ref(p),
    ensures
        spec_parse(format_chars(p)) == Some(p),
{
    let s = format_chars(p);
    let vc = version_chars(p.version);
    let d1 = dec_digits(p.version.major as nat);
    let d2 = dec_digits(p.version.minor as nat);
    let d3 = dec_digits(p.version.patch as nat);
    let l1 = p.package.len() as int;
    let l2 = p.platform.len() as int;
    let n1 = d1.len() as int;
    let n2 = d2.len() as int;
    let n3 = d3.len() as int;
    lemma_dec_digits_are_digits(p.version.major as nat);
    lemma_dec_digits_are_digits(p.version.minor as nat);
    lemma_dec_digits_are_digits(p.version.patch as nat);
    lemma_val_of_dec_digits(p.version.major as nat);
    lemma_val_of_dec_digits(p.version.minor as nat);
    lemma_val_of_dec_digits(p.version.patch as nat);
    assert(s.len() == l1 + 1 + l2 + 2 + n1 + 1 + n2 + 1 + n3 + 1);
    // The character at each region of the canonical text.
    assert(forall|k: int| 0 <= k < l1 ==> s[k] == p.package[k]);
    assert(s[l1] == ':');
    assert(forall|k: int| 0 <= k < l2 ==> s[l1 + 1 + k] == p.platform[k]);
    assert(s[l1 + 1 + l2] == ' ');
    assert(s[l1 + 1 + l2 + 1] == '(');
    let base = l1 + 1 + l2 + 2;
    assert(forall|k: int| 0 <= k < vc.len() ==> s[base + k] == vc[k]);
    assert(forall|k: int| 0 <= k < n1 ==> vc[k] == d1[k]);
    assert(vc[n1] == '.');
    assert(forall|k: int| 0 <= k < n2 ==> vc[n1 + 1 + k] == d2[k]);
    assert(vc[n1 + 1 + n2] == '.');
    assert(forall|k: int| 0 <= k < n3 ==> vc[n1 + 1 + n2 + 1 + k] == d3[k]);
    assert(s[s.len() - 1] == ')');
    // Scanning the vendor name stops at the colon.
    assert(!is_name_char(':'));
    lemma_scan_is(s, 0, l1, name_char_fn());
    assert(s.subrange(0, l1) =~= p.package);
    // Scanning the platform name stops at the space before the parenthesis.
    assert(!is_name_char(' '));
    lemma_scan_is(s, l1 + 1, l1 + 1 + l2, name_char_fn());
    assert(s.subrange(l1 + 1, l1 + 1 + l2) =~= p.platform);
    // One space, then the opening parenthesis.
    lemma_scan_is(s, l1 + 1 + l2, l1 + 1 + l2 + 1, space_char_fn());
    assert(!is_space_char(d1[0]));
    lemma_scan_is(s, base, base, space_char_fn());
    // The major digits end at the first dot.
    assert(!is_digit_char('.'));
    lemma_scan_is(s, base, base + n1, digit_char_fn());
    assert(s.subrange(base, base + n1) =~= d1);
    assert(parse_num(s, base) == Some((p.version.major, base + n1)));
    // The minor digits end at the second dot.
    let bm = base + n1 + 1;
    lemma_scan_is(s, bm, bm + n2, digit_char_fn());
    assert(s.subrange(bm, bm + n2) =~= d2);
    assert(parse_num(s, bm) == Some((p.version.minor, bm + n2)));
    // The patch digits end at the closing parenthesis.
    let bp = bm + n2 + 1;
    assert(!is_digit_char(')'));
    lemma_scan_is(s, bp, bp + n3, digit_char_fn());
    assert(s.subrange(bp, bp + n3) =~= d3);
    assert(parse_num(s, bp) == Some((p.version.patch, bp + n3)));
    // No space before the closing parenthesis, which ends the text.
    assert(!is_space_char(')'));
    lemma_scan_is(s, bp + n3, bp + n3, space_char_fn());
    assert(spec_parse(s) =~= Some(p));
}

} // verus!
