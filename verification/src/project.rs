//! Projects: the identifier of a project root, the search roots, and the rules
//! that pick exactly one project for a reference.
use crate::ids::hex_digit;
use crate::paths::{components_end_with, ends_with_seq, file_name, file_name_spec, components_spec, join, join_spec};
use crate::text::{blank, is_blank, split_on, split_spec, str_eq, string_views, trim, trim_spec};
use vstd::prelude::*;
use vstd::string::*;
use vstd::utf8::encode_utf8;

verus! {

/// A project: an identifier derived from its root directory, and that root.
#[derive(Debug, Clone, PartialEq, Eq)]
pub struct Project {
    pub id: String,
    pub root: String,
}

/// Why a project reference could not be resolved.
#[derive(Debug, Clone, PartialEq, Eq)]
pub enum ProjectError {
    EmptyReference,
    NotFound(String),
    Ambiguous { reference: String, candidates: Vec<String> },
    Canonicalize { path: String, message: String },
    Io(String),
}

/// The search for a reference: the trimmed reference and the roots to search.
#[derive(Debug, Clone, PartialEq, Eq)]
pub struct ResolvePlan {
    pub reference: String,
    pub roots: Vec<String>,
}

/// The 32-byte BLAKE3 digest of `input`, as `blake3::hash` computes it.
pub uninterp spec fn blake3_digest(input: Seq<u8>) -> Seq<u8>;

/// Lowercase hexadecimal, two digits per byte, high nibble first.
pub open spec fn hex_of_bytes(b: Seq<u8>) -> Seq<char> {
    Seq::new(
        2 * b.len(),
        |i: int|
            if i % 2 == 0 {
                hex_digit(b[i / 2] as int / 16)
            } else {
                hex_digit(b[i / 2] as int % 16)
            },
    )
}

/// The identifier of a project with root `root`: the first 16 hexadecimal
/// digits of the BLAKE3 digest of the root's bytes.
pub open spec fn project_id_spec(root: Seq<char>) -> Seq<char> {
    hex_of_bytes(blake3_digest(encode_utf8(root))).take(16)
}

/// `blake3::hash(input).to_hex()`: the digest of `input` in lowercase
/// hexadecimal. What the digest is stays unstated (the name `blake3_digest`);
/// the contract states its 32-byte length and the hexadecimal encoding that
/// `Hash::to_hex` applies.
#[verifier::external_body]
fn blake3_hex(input: &[u8]) -> (s: String)
    ensures
        s@ == hex_of_bytes(blake3_digest(input@)) && s@.len() == 64,
{
    blake3::hash(input).to_hex().to_string()
}

impl Project {
    /// A copy of this project.
    pub fn copied(&self) -> (r: Project)
        ensures
            r == *self,
    {
        Project { id: self.id.clone(), root: self.root.clone() }
    }

    /// The project whose root is `root` (a canonical path).
    pub fn for_root(root: String) -> (p: Project)
        ensures
            p.root@ == root@,
            p.id@ == project_id_spec(root@),
            p.id@.len() == 16,
    {
        let hex = blake3_hex(root.as_str().as_bytes());
        let id = String::from_str(hex.as_str().substring_char(0, 16));
        Project { id, root }
    }

    /// The project that a (canonical) working directory belongs to: the root
    /// of its git work tree when it is in one, else the directory itself.
    pub fn discover(cwd: String, git_root: Option<String>) -> (p: Project)
        ensures
            p.root@ == (match git_root {
                Some(g) => g@,
                None => cwd@,
            }),
            p.id@ == project_id_spec(p.root@),
            p.id@.len() == 16,
    {
        match git_root {
            Some(g) => Project::for_root(g),
            None => Project::for_root(cwd),
        }
    }

    /// The first step of resolving a reference: trims it, refuses an empty one,
    /// and computes the roots to search from the comma-separated `configured`
    /// directories and the home directory.
    pub fn resolve(reference: &str, configured: &str, home: Option<String>) -> (r: Result<
        ResolvePlan,
        ProjectError,
    >)
        ensures
            blank(reference@) ==> r == Err::<ResolvePlan, ProjectError>(ProjectError::EmptyReference),
            !blank(reference@) ==> (r matches Ok(plan) && plan.reference@ == trim_spec(reference@)
                && string_views(plan.roots@) == search_roots_spec(configured@, opt_view(home))),
    {
        let trimmed = trim(reference);
        proof {
            lemma_trim_empty_iff_blank(reference@);
        }
        if trimmed.as_str().unicode_len() == 0 {
            return Err(ProjectError::EmptyReference);
        }
        let roots = search_roots(configured, home);
        Ok(ResolvePlan { reference: trimmed, roots })
    }

    /// The last step of resolving a reference: of the projects that the
    /// candidate directories belong to, keeps the first one per root, and
    /// answers the single project, or why there is none or more than one.
    pub fn resolve_in(reference: &str, projects: Vec<Project>) -> (r: Result<Project, ProjectError>)
        ensures
            resolve_in_ok(reference@, projects@, r),
    {
        let trimmed = trim(reference);
        proof {
            lemma_trim_empty_iff_blank(reference@);
        }
        if trimmed.as_str().unicode_len() == 0 {
            return Err(ProjectError::EmptyReference);
        }
        let unique = dedup_projects(&projects);
        if unique.len() == 0 {
            Err(ProjectError::NotFound(trimmed))
        } else if unique.len() == 1 {
            Ok(unique[0].copied())
        } else {
            let mut candidates: Vec<String> = Vec::new();
            let mut i: usize = 0;
            while i < unique.len()
                invariant
                    i <= unique@.len(),
                    string_views(candidates@) == roots_of(unique@.take(i as int)),
                decreases unique.len() - i,
            {
                candidates.push(unique[i].root.clone());
                proof {
                    assert(unique@.take(i + 1).drop_last() =~= unique@.take(i as int));
                    assert(string_views(candidates@) =~= roots_of(unique@.take(i + 1)));
                }
                i = i + 1;
            }
            proof {
                assert(unique@.take(unique@.len() as int) =~= unique@);
            }
            Err(ProjectError::Ambiguous { reference: trimmed, candidates })
        }
    }
}

/// What `resolve_in` answers for `reference` and the candidate projects.
pub open spec fn resolve_in_ok(
    reference: Seq<char>,
    projects: Seq<Project>,
    r: Result<Project, ProjectError>,
) -> bool {
    let t = trim_spec(reference);
    let d = dedup_by_root(projects);
    if t.len() == 0 {
        r == Err::<Project, ProjectError>(ProjectError::EmptyReference)
    } else if d.len() == 0 {
        r matches Err(ProjectError::NotFound(n)) && n@ == t
    } else if d.len() == 1 {
        r == Ok::<Project, ProjectError>(d[0])
    } else {
        r matches Err(ProjectError::Ambiguous { reference: n, candidates: c }) && n@ == t
            && string_views(c@) == roots_of(d)
    }
}

/// The roots of a sequence of projects.
pub open spec fn roots_of(s: Seq<Project>) -> Seq<Seq<char>>
    decreases s.len(),
{
    if s.len() == 0 {
        Seq::empty()
    } else {
        roots_of(s.drop_last()).push(s.last().root@)
    }
}

/// Whether some project in `s` has root `root`.
pub open spec fn has_root(s: Seq<Project>, root: Seq<char>) -> bool {
    exists|i: int| 0 <= i < s.len() && s[i].root@ == root
}

/// The projects of `s`, keeping only the first one of each root.
pub open spec fn dedup_by_root(s: Seq<Project>) -> Seq<Project>
    decreases s.len(),
{
    if s.len() == 0 {
        s
    } else {
        let d = dedup_by_root(s.drop_last());
        if has_root(d, s.last().root@) {
            d
        } else {
            d.push(s.last())
        }
    }
}

/// The view of an optional string.
pub open spec fn opt_view(o: Option<String>) -> Option<Seq<char>> {
    match o {
        Some(s) => Some(s@),
        None => None,
    }
}

/// One configured search root expanded: trimmed, empty ones dropped, `~` and a
/// leading `~/` taken relative to the home directory (dropped without one).
pub open spec fn expand_root(value: Seq<char>, home: Option<Seq<char>>) -> Option<Seq<char>> {
    let t = trim_spec(value);
    if t.len() == 0 {
        None
    } else if t == seq!['~'] {
        home
    } else if t.len() >= 2 && t[0] == '~' && t[1] == '/' {
        match home {
            Some(h) => Some(join_spec(h, t.skip(2))),
            None => None,
        }
    } else {
        Some(t)
    }
}

/// The expanded roots of a sequence of configured values, in order.
pub open spec fn expand_roots(values: Seq<Seq<char>>, home: Option<Seq<char>>) -> Seq<Seq<char>>
    decreases values.len(),
{
    if values.len() == 0 {
        Seq::empty()
    } else {
        let r = expand_roots(values.drop_last(), home);
        match expand_root(values.last(), home) {
            Some(x) => r.push(x),
            None => r,
        }
    }
}

/// The project search roots for the configured directory list: the list split
/// at commas, or `~/Development` when it is blank, each entry expanded.
pub open spec fn search_roots_spec(configured: Seq<char>, home: Option<Seq<char>>) -> Seq<
    Seq<char>,
> {
    let values = if blank(configured) {
        seq![seq!['~', '/', 'D', 'e', 'v', 'e', 'l', 'o', 'p', 'm', 'e', 'n', 't']]
    } else {
        split_spec(configured, ',')
    };
    expand_roots(values, home)
}

/// Directory names that the recursive project search never enters.
pub open spec fn pruned_name(name: Seq<char>) -> bool {
    ||| name == seq!['.', 'g', 'i', 't']
    ||| name == seq!['n', 'o', 'd', 'e', '_', 'm', 'o', 'd', 'u', 'l', 'e', 's']
    ||| name == seq!['.', 'd', 'i', 'r', 'e', 'n', 'v']
    ||| name == seq!['t', 'a', 'r', 'g', 'e', 't']
}

proof fn lemma_trim_empty_iff_blank(s: Seq<char>)
    ensures
        trim_spec(s).len() == 0 <==> blank(s),
{
    crate::text::lemma_trim_bounds(s);
}

/// The search roots for the configured directory list and home directory.
pub fn search_roots(configured: &str, home: Option<String>) -> (roots: Vec<String>)
    ensures
        string_views(roots@) == search_roots_spec(configured@, opt_view(home)),
{
    let values: Vec<String> = if is_blank(configured) {
        let mut v = Vec::new();
        v.push(String::from_str("~/Development"));
        proof {
            reveal_strlit("~/Development");
            assert("~/Development"@ =~= seq!['~', '/', 'D', 'e', 'v', 'e', 'l', 'o', 'p', 'm', 'e', 'n', 't']);
            assert(string_views(v@) =~= seq![
                seq!['~', '/', 'D', 'e', 'v', 'e', 'l', 'o', 'p', 'm', 'e', 'n', 't'],
            ]);
        }
        v
    } else {
        split_on(configured, ',')
    };
    let ghost gv = string_views(values@);
    let ghost gh = opt_view(home);
    let mut roots: Vec<String> = Vec::new();
    let mut i: usize = 0;
    while i < values.len()
        invariant
            gv == string_views(values@),
            gh == opt_view(home),
            i <= values@.len(),
            string_views(roots@) == expand_roots(gv.take(i as int), gh),
        decreases values.len() - i,
    {
        let expanded = expand_one(values[i].as_str(), &home);
        proof {
            assert(gv.take(i + 1).drop_last() =~= gv.take(i as int));
            assert(gv.take(i + 1).last() == values@[i as int]@);
        }
        match expanded {
            Some(x) => {
                let ghost prev = roots@;
                roots.push(x);
                proof {
                    assert(string_views(roots@) =~= string_views(prev).push(x@));
                }
            },
            None => {},
        }
        i = i + 1;
    }
    proof {
        assert(gv.take(values@.len() as int) =~= gv);
    }
    roots
}

fn expand_one(value: &str, home: &Option<String>) -> (r: Option<String>)
    ensures
        opt_view(r) == expand_root(value@, opt_view(*home)),
{
    let t = trim(value);
    let n = t.as_str().unicode_len();
    if n == 0 {
        return None;
    }
    if n == 1 && t.as_str().get_char(0) == '~' {
        proof {
            assert(t@ =~= seq!['~']);
        }
        return match home {
            Some(h) => Some(h.clone()),
            None => None,
        };
    }
    proof {
        if t@ == seq!['~'] {
            assert(t@.len() == 1);
        }
    }
    if n >= 2 && t.as_str().get_char(0) == '~' && t.as_str().get_char(1) == '/' {
        let rest = t.as_str().substring_char(2, n);
        proof {
            assert(rest@ =~= t@.skip(2));
        }
        match home {
            Some(h) => Some(join(h.as_str(), rest)),
            None => None,
        }
    } else {
        Some(t)
    }
}

/// Whether the recursive project search skips a directory with this name.
pub fn is_pruned(name: &str) -> (b: bool)
    ensures
        b == pruned_name(name@),
{
    proof {
        reveal_strlit(".git");
        reveal_strlit("node_modules");
        reveal_strlit(".direnv");
        reveal_strlit("target");
        assert(".git"@ =~= seq!['.', 'g', 'i', 't']);
        assert("node_modules"@ =~= seq!['n', 'o', 'd', 'e', '_', 'm', 'o', 'd', 'u', 'l', 'e', 's']);
        assert(".direnv"@ =~= seq!['.', 'd', 'i', 'r', 'e', 'n', 'v']);
        assert("target"@ =~= seq!['t', 'a', 'r', 'g', 'e', 't']);
    }
    str_eq(name, ".git") || str_eq(name, "node_modules") || str_eq(name, ".direnv") || str_eq(
        name,
        "target",
    )
}

/// Whether a directory found by the recursive search matches the reference:
/// its name is the whole reference, or its path relative to the search root
/// (given by components) ends with the reference's components.
pub fn entry_matches(name: &str, relative: &Vec<String>, reference: &str) -> (b: bool)
    ensures
        b == (name@ == reference@ || ends_with_seq(
            string_views(relative@),
            components_spec(reference@),
        )),
{
    str_eq(name, reference) || components_end_with(relative, reference)
}

/// Whether a reference is an absolute path.
pub open spec fn is_absolute_spec(reference: Seq<char>) -> bool {
    reference.len() > 0 && reference[0] == '/'
}

/// The direct candidates for `reference` over the first `roots.len()` roots:
/// each root whose own name is the reference, then `root/reference` when that
/// is a directory (`joined_is_dir`), root by root.
pub open spec fn direct_over_roots(
    reference: Seq<char>,
    roots: Seq<Seq<char>>,
    joined_is_dir: Seq<bool>,
) -> Seq<Seq<char>>
    decreases roots.len(),
{
    if roots.len() == 0 {
        Seq::empty()
    } else {
        let n = roots.len() - 1;
        let before = direct_over_roots(reference, roots.drop_last(), joined_is_dir);
        let named = if file_name_spec(roots[n]) == Some(reference) {
            seq![roots[n]]
        } else {
            Seq::<Seq<char>>::empty()
        };
        let joined = if joined_is_dir[n] {
            seq![join_spec(roots[n], reference)]
        } else {
            Seq::<Seq<char>>::empty()
        };
        before + named + joined
    }
}

/// The direct candidates for a reference: the reference itself when it is an
/// absolute path to a directory, then those found at each search root.
pub open spec fn direct_candidates_spec(
    reference: Seq<char>,
    reference_is_dir: bool,
    roots: Seq<Seq<char>>,
    joined_is_dir: Seq<bool>,
) -> Seq<Seq<char>> {
    (if is_absolute_spec(reference) && reference_is_dir {
        seq![reference]
    } else {
        Seq::<Seq<char>>::empty()
    }) + direct_over_roots(reference, roots, joined_is_dir)
}

proof fn lemma_direct_over_roots_elements(
    reference: Seq<char>,
    roots: Seq<Seq<char>>,
    joined_is_dir: Seq<bool>,
)
    ensures
        forall|k: int|
            0 <= k < direct_over_roots(reference, roots, joined_is_dir).len() ==> exists|i: int|
                0 <= i < roots.len() && (#[trigger] direct_over_roots(reference, roots, joined_is_dir)[k]
                    == roots[i] || direct_over_roots(reference, roots, joined_is_dir)[k]
                    == join_spec(roots[i], reference)),
    decreases roots.len(),
{
    if roots.len() > 0 {
        let t = roots.drop_last();
        let n = roots.len() - 1;
        lemma_direct_over_roots_elements(reference, t, joined_is_dir);
        let before = direct_over_roots(reference, t, joined_is_dir);
        let all = direct_over_roots(reference, roots, joined_is_dir);
        assert forall|k: int| 0 <= k < all.len() implies exists|i: int|
            0 <= i < roots.len() && (#[trigger] all[k] == roots[i] || all[k] == join_spec(
                roots[i],
                reference,
            )) by {
            if k < before.len() {
                assert(all[k] == before[k]);
                let i = choose|i: int|
                    0 <= i < t.len() && (before[k] == t[i] || before[k] == join_spec(t[i], reference));
                assert(roots[i] == t[i]);
            } else {
                assert(all[k] == roots[n] || all[k] == join_spec(roots[n], reference));
            }
        }
    }
}

/// Law: a relative reference is never a direct candidate itself, whether or
/// not a directory of that name exists where the command runs: its direct
/// candidates are only search roots and `root/reference` paths, none equal to
/// the reference when the roots are absolute. An absolute reference that is a
/// directory comes first.
pub proof fn law_relative_reference_is_never_direct(
    reference: Seq<char>,
    roots: Seq<Seq<char>>,
    joined_is_dir: Seq<bool>,
)
    requires
        forall|i: int| 0 <= i < roots.len() ==> roots[i].len() > 0 && (#[trigger] roots[i])[0] == '/',
    ensures
        !(reference.len() > 0 && reference[0] == '/') ==> direct_candidates_spec(
            reference,
            true,
            roots,
            joined_is_dir,
        ) == direct_candidates_spec(reference, false, roots, joined_is_dir),
        !(reference.len() > 0 && reference[0] == '/') ==> !direct_candidates_spec(
            reference,
            true,
            roots,
            joined_is_dir,
        ).contains(reference),
        forall|b: bool, k: int|
            !(reference.len() > 0 && reference[0] == '/') && 0 <= k < direct_candidates_spec(
                reference,
                b,
                roots,
                joined_is_dir,
            ).len() ==> exists|i: int|
                0 <= i < roots.len() && (#[trigger] direct_candidates_spec(
                    reference,
                    b,
                    roots,
                    joined_is_dir,
                )[k] == roots[i] || direct_candidates_spec(reference, b, roots, joined_is_dir)[k]
                    == join_spec(roots[i], reference)),
        reference.len() > 0 && reference[0] == '/' ==> direct_candidates_spec(
            reference,
            true,
            roots,
            joined_is_dir,
        )[0] == reference,
{
    lemma_direct_over_roots_elements(reference, roots, joined_is_dir);
    let d = direct_over_roots(reference, roots, joined_is_dir);
    if !(reference.len() > 0 && reference[0] == '/') {
        assert(direct_candidates_spec(reference, true, roots, joined_is_dir) =~= d);
        assert(direct_candidates_spec(reference, false, roots, joined_is_dir) =~= d);
        if d.contains(reference) {
            let k = choose|k: int| 0 <= k < d.len() && d[k] == reference;
            let i = choose|i: int|
                0 <= i < roots.len() && (d[k] == roots[i] || d[k] == join_spec(roots[i], reference));
            assert(roots[i][0] == '/');
            if d[k] == join_spec(roots[i], reference) {
                assert(join_spec(roots[i], reference)[0] == '/');
            }
        }
    }
}

/// The paths that resolve a reference directly, before any recursive search
/// (see `direct_candidates_spec`). `reference_is_dir` tells whether the
/// reference names a directory, and `joined_is_dir[i]` whether
/// `roots[i]/reference` does.
pub fn direct_candidates(
    reference: &str,
    reference_is_dir: bool,
    roots: &Vec<String>,
    joined_is_dir: &Vec<bool>,
) -> (c: Vec<String>)
    requires
        joined_is_dir@.len() == roots@.len(),
    ensures
        string_views(c@) == direct_candidates_spec(
            reference@,
            reference_is_dir,
            string_views(roots@),
            joined_is_dir@,
        ),
{
    let mut c: Vec<String> = Vec::new();
    let absolute = reference.unicode_len() > 0 && reference.get_char(0) == '/';
    if absolute && reference_is_dir {
        c.push(String::from_str(reference));
    }
    let ghost head = string_views(c@);
    proof {
        assert(head =~= (if is_absolute_spec(reference@) && reference_is_dir {
            seq![reference@]
        } else {
            Seq::<Seq<char>>::empty()
        }));
    }
    let ghost rv = string_views(roots@);
    let mut i: usize = 0;
    while i < roots.len()
        invariant
            i <= roots@.len(),
            joined_is_dir@.len() == roots@.len(),
            rv == string_views(roots@),
            string_views(c@) == head + direct_over_roots(reference@, rv.take(i as int), joined_is_dir@),
        decreases roots.len() - i,
    {
        let root = roots[i].as_str();
        let ghost prev = string_views(c@);
        if root_named(root, reference) {
            c.push(String::from_str(root));
        }
        let ghost mid = string_views(c@);
        if joined_is_dir[i] {
            let j = join(root, reference);
            let ghost before_push = c@;
            c.push(j);
            proof {
                assert(string_views(c@) =~= string_views(before_push).push(j@));
            }
        }
        proof {
            let t = rv.take(i + 1);
            let r = roots@[i as int]@;
            assert(t.drop_last() =~= rv.take(i as int));
            assert(t[i as int] == r);
            let named = if file_name_spec(r) == Some(reference@) {
                seq![r]
            } else {
                Seq::<Seq<char>>::empty()
            };
            let joined = if joined_is_dir@[i as int] {
                seq![join_spec(r, reference@)]
            } else {
                Seq::<Seq<char>>::empty()
            };
            assert(direct_over_roots(reference@, t, joined_is_dir@) == direct_over_roots(
                reference@,
                rv.take(i as int),
                joined_is_dir@,
            ) + named + joined);
            assert(mid =~= prev + named);
            assert(string_views(c@) =~= mid + joined);
            assert(string_views(c@) =~= head + direct_over_roots(reference@, t, joined_is_dir@));
        }
        i = i + 1;
    }
    proof {
        assert(rv.take(roots@.len() as int) =~= rv);
    }
    c
}

/// The candidates to settle: the direct ones when there are any, else those
/// that the recursive search found. A recursive match never competes with a
/// direct one.
pub fn settle_candidates(direct: Vec<String>, found: Vec<String>) -> (c: Vec<String>)
    ensures
        c@ == (if direct@.len() > 0 {
            direct@
        } else {
            found@
        }),
{
    if direct.len() > 0 {
        direct
    } else {
        found
    }
}

/// Whether a search root's own directory name is the reference.
pub fn root_named(root: &str, reference: &str) -> (b: bool)
    ensures
        b == (file_name_spec(root@) == Some(reference@)),
{
    match file_name(root) {
        Some(name) => str_eq(name.as_str(), reference),
        None => false,
    }
}

/// Keeps the first project of each root, in order.
pub fn dedup_projects(projects: &Vec<Project>) -> (unique: Vec<Project>)
    ensures
        unique@ == dedup_by_root(projects@),
{
    let mut unique: Vec<Project> = Vec::new();
    let mut i: usize = 0;
    while i < projects.len()
        invariant
            i <= projects@.len(),
            unique@ == dedup_by_root(projects@.take(i as int)),
        decreases projects.len() - i,
    {
        let candidate = &projects[i];
        let mut seen = false;
        let mut j: usize = 0;
        while j < unique.len()
            invariant
                j <= unique@.len(),
                seen <==> exists|k: int| 0 <= k < j && unique@[k].root@ == candidate.root@,
            decreases unique.len() - j,
        {
            if str_eq(unique[j].root.as_str(), candidate.root.as_str()) {
                seen = true;
            }
            j = j + 1;
        }
        proof {
            assert(projects@.take(i + 1).drop_last() =~= projects@.take(i as int));
            assert(projects@.take(i + 1).last() == *candidate);
        }
        if !seen {
            unique.push(candidate.copied());
        }
        i = i + 1;
    }
    proof {
        assert(projects@.take(projects@.len() as int) =~= projects@);
    }
    unique
}

/// Law: after keeping the first project of each root, no root occurs twice.
pub proof fn law_dedup_roots_unique(s: Seq<Project>)
    ensures
        forall|i: int, j: int|
            0 <= i < j < dedup_by_root(s).len() ==> dedup_by_root(s)[i].root@ != dedup_by_root(
                s,
            )[j].root@,
    decreases s.len(),
{
    if s.len() > 0 {
        law_dedup_roots_unique(s.drop_last());
        let d = dedup_by_root(s.drop_last());
        if !has_root(d, s.last().root@) {
            let e = d.push(s.last());
            assert forall|i: int, j: int| 0 <= i < j < e.len() implies e[i].root@ != e[j].root@ by {
                if j == d.len() {
                    assert(e[i] == d[i]);
                } else {
                    assert(e[i] == d[i] && e[j] == d[j]);
                }
            }
        }
    }
}

/// Law: every root of the candidates is the root of some kept project, and
/// every kept project is one of the candidates.
pub proof fn law_dedup_roots_cover(s: Seq<Project>)
    ensures
        forall|i: int| 0 <= i < s.len() ==> has_root(dedup_by_root(s), #[trigger] s[i].root@),
        forall|i: int| 0 <= i < dedup_by_root(s).len() ==> s.contains(#[trigger] dedup_by_root(s)[i]),
    decreases s.len(),
{
    if s.len() > 0 {
        let t = s.drop_last();
        law_dedup_roots_cover(t);
        let d = dedup_by_root(t);
        assert forall|i: int| 0 <= i < s.len() implies has_root(dedup_by_root(s), #[trigger] s[i].root@) by {
            if i < t.len() {
                assert(t[i] == s[i]);
                assert(has_root(d, t[i].root@));
                let k = choose|k: int| 0 <= k < d.len() && d[k].root@ == t[i].root@;
                if !has_root(d, s.last().root@) {
                    assert(d.push(s.last())[k] == d[k]);
                }
            } else {
                if !has_root(d, s.last().root@) {
                    assert(d.push(s.last())[d.len() as int] == s.last());
                }
            }
        }
        assert forall|i: int| 0 <= i < dedup_by_root(s).len() implies s.contains(#[trigger] dedup_by_root(s)[i]) by {
            if i < d.len() {
                assert(t.contains(d[i]));
                let k = choose|k: int| 0 <= k < t.len() && t[k] == d[i];
                assert(s[k] == t[k]);
            } else {
                assert(s[s.len() - 1] == s.last());
            }
        }
    }
}

} // verus!
