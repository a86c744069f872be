//! Locations inside the Longfellow harness and in the vendored Longfellow
//! tree, given the harness root.
use vstd::prelude::*;

use crate::paths::{join, parent, path_joined, path_parent};

verus! {

/// The directory of one benchmark, e.g. `prove-verify/`.
pub fn bench_dir(crate_dir: &str, name: &str) -> (r: String)
    ensures
        r@ == path_joined(crate_dir@, name@),
{
    join(crate_dir, name)
}

/// `<root>/clang-build-release/circuits/tests/ec/<test_name>`.
pub open spec fn default_bin_path_spec(root: Seq<char>, test_name: Seq<char>) -> Seq<char> {
    path_joined(
        path_joined(
            path_joined(
                path_joined(path_joined(root, "clang-build-release"@), "circuits"@),
                "tests"@,
            ),
            "ec"@,
        ),
        test_name,
    )
}

/// Where the CMake release build of the Longfellow tree at `root` puts a
/// benchmark binary.
pub fn default_bin_path(root: &str, test_name: &str) -> (r: String)
    ensures
        r@ == default_bin_path_spec(root@, test_name@),
{
    let a = join(root, "clang-build-release");
    let b = join(a.as_str(), "circuits");
    let c = join(b.as_str(), "tests");
    let d = join(c.as_str(), "ec");
    join(d.as_str(), test_name)
}

/// The `n`-th ancestor of `p`, counting `p` itself as the first.
pub open spec fn ancestor(p: Seq<char>, n: nat) -> Option<Seq<char>>
    decreases n,
{
    if n == 0 {
        Some(p)
    } else {
        match ancestor(p, (n - 1) as nat) {
            Some(q) => path_parent(q),
            None => None,
        }
    }
}

/// Three levels above the harness root, or the root itself where the path
/// is too short.
pub open spec fn repo_root_spec(crate_dir: Seq<char>) -> Seq<char> {
    match ancestor(crate_dir, 3) {
        Some(r) => r,
        None => crate_dir,
    }
}

/// `rust/prove-verify/standard` -> the repository root.
pub fn repo_root(crate_dir: &str) -> (r: String)
    ensures
        r@ == repo_root_spec(crate_dir@),
{
    let mut cur: String = crate_dir.to_owned();
    let mut i: usize = 0;
    while i < 3
        invariant
            i <= 3,
            ancestor(crate_dir@, i as nat) == Some(cur@),
        decreases 3 - i,
    {
        match parent(cur.as_str()) {
            Some(p) => {
                cur = p;
            },
            None => {
                proof {
                    lemma_ancestor_stays_none(crate_dir@, (i + 1) as nat, 3);
                }
                return crate_dir.to_owned();
            },
        }
        i = i + 1;
    }
    cur
}

proof fn lemma_ancestor_stays_none(p: Seq<char>, k: nat, n: nat)
    requires
        ancestor(p, k) is None,
        k <= n,
    ensures
        ancestor(p, n) is None,
    decreases n - k,
{
    if k < n {
        lemma_ancestor_stays_none(p, k + 1, n);
    }
}

/// The places searched for the Longfellow tree, in order: beside the
/// harness, the harness root itself, and the main checkout at the
/// repository root.
pub open spec fn longfellow_candidates_spec(crate_dir: Seq<char>) -> Seq<Seq<char>> {
    seq![
        path_joined(crate_dir, "longfellow-zk"@),
        crate_dir,
        path_joined(repo_root_spec(crate_dir), "prove-verify/standard/longfellow-zk"@),
    ]
}

pub fn longfellow_candidates(crate_dir: &str) -> (r: Vec<String>)
    ensures
        crate::text::strings_view(r@) == longfellow_candidates_spec(crate_dir@),
{
    let mut r: Vec<String> = Vec::new();
    r.push(join(crate_dir, "longfellow-zk"));
    r.push(crate_dir.to_owned());
    let root = repo_root(crate_dir);
    r.push(join(root.as_str(), "prove-verify/standard/longfellow-zk"));
    assert(crate::text::strings_view(r@) =~= longfellow_candidates_spec(crate_dir@));
    r
}

/// The file whose presence marks a directory as a Longfellow tree.
pub fn longfellow_marker(dir: &str) -> (r: String)
    ensures
        r@ == path_joined(path_joined(dir@, "lib"@), "CMakeLists.txt"@),
{
    let lib = join(dir, "lib");
    join(lib.as_str(), "CMakeLists.txt")
}

/// The index of the first candidate whose marker exists.
pub open spec fn first_true(flags: Seq<bool>) -> Option<int>
    decreases flags.len(),
{
    if flags.len() == 0 {
        None
    } else if flags[0] {
        Some(0)
    } else {
        match first_true(flags.drop_first()) {
            Some(i) => Some(i + 1),
            None => None,
        }
    }
}

/// The Longfellow tree: `LONGFELLOW_ROOT` when set and non-empty, else the
/// first candidate whose marker exists, else the harness root.
pub open spec fn longfellow_root_spec(
    env_root: Option<Seq<char>>,
    crate_dir: Seq<char>,
    has_marker: Seq<bool>,
) -> Seq<char> {
    match env_root {
        Some(r) if r.len() > 0 => r,
        _ => match first_true(has_marker) {
            Some(i) => longfellow_candidates_spec(crate_dir)[i],
            None => crate_dir,
        },
    }
}

/// Picks the Longfellow tree; `has_marker[i]` says whether candidate `i`
/// of [`longfellow_candidates`] holds the marker file.
pub fn longfellow_root(env_root: Option<String>, crate_dir: &str, has_marker: &[bool]) -> (r:
    String)
    requires
        has_marker.len() == 3,
    ensures
        r@ == longfellow_root_spec(
            crate::revocation::env::opt_view(env_root),
            crate_dir@,
            has_marker@,
        ),
{
    match env_root {
        Some(r) => {
            if !r.as_str().is_empty() {
                return r;
            }
        },
        None => {},
    }
    let candidates = longfellow_candidates(crate_dir);
    let ghost flags = has_marker@;
    proof {
        reveal_with_fuel(first_true, 4);
    }
    let ghost cv = crate::text::strings_view(candidates@);
    assert(cv.len() == candidates@.len());
    assert(cv[0] == candidates@[0]@ && cv[1] == candidates@[1]@ && cv[2] == candidates@[2]@);
    assert(flags.drop_first().drop_first().drop_first().len() == 0);
    if has_marker[0] {
        return candidates[0].clone();
    }
    assert(flags.drop_first()[0] == flags[1]);
    if has_marker[1] {
        return candidates[1].clone();
    }
    assert(flags.drop_first().drop_first()[0] == flags[2]);
    if has_marker[2] {
        return candidates[2].clone();
    }
    crate_dir.to_owned()
}

} // verus!
