//! Finding the root of the project a directory belongs to.

use vstd::prelude::*;

use crate::corelib::join;
use crate::parser::opt_view;

verus! {

/// What `Path::parent` gives for a path: the path without its last
/// component; `None` for a root or an empty path.
pub uninterp spec fn path_parent(p: Seq<char>) -> Option<Seq<char>>;

/// The parent of a path (`Path::parent`); the result is named
/// `path_parent`. As the documentation has it, a parent is the path without
/// its final component, so it is shorter.
#[verifier::external_body]
fn parent_of(p: &str) -> (r: Option<String>)
    ensures
        opt_view(r) == path_parent(p@),
        r matches Some(q) ==> q@.len() < p@.len(),
{
    std::path::Path::new(p).parent().map(|q| q.to_string_lossy().into_owned())
}

/// Whether the path is a directory on disk (`Path::is_dir`). Nothing is
/// stated of the answer: it depends on the disk.
#[verifier::external_body]
fn is_dir(p: &str) -> (r: bool) {
    std::path::Path::new(p).is_dir()
}

/// `q` is `p`'s `n`-th parent.
pub open spec fn ancestor_at(p: Seq<char>, q: Seq<char>, n: nat) -> bool
    decreases n,
{
    if n == 0 {
        p == q
    } else {
        match path_parent(p) {
            Some(pp) => ancestor_at(pp, q, (n - 1) as nat),
            None => false,
        }
    }
}

/// `q` is `p` or one of its parents.
pub open spec fn is_ancestor(p: Seq<char>, q: Seq<char>) -> bool {
    exists|n: nat| ancestor_at(p, q, n)
}

/// The root of the project `dir` belongs to: the nearest of `dir` and its
/// parents that holds a `.bit` directory.
pub fn get_project_dir(dir: &str) -> (res: Result<String, String>)
    ensures
        res matches Ok(r) ==> is_ancestor(dir@, r@),
        res matches Err(e) ==> e@ == "Given directory is not a BIT working directory"@,
    decreases dir@.len(),
{
    let p = join(dir, ".bit");
    if is_dir(p.as_str()) {
        let r = dir.to_owned();
        proof {
            assert(ancestor_at(dir@, r@, 0nat));
            assert(is_ancestor(dir@, r@));
        }
        return Ok(r);
    }
    match parent_of(dir) {
        None => Err("Given directory is not a BIT working directory".to_string()),
        Some(q) => {
            let r = get_project_dir(q.as_str());
            proof {
                if r is Ok {
                    let rr = r->Ok_0;
                    let n = choose|n: nat| ancestor_at(q@, rr@, n);
                    assert(ancestor_at(dir@, rr@, n + 1));
                    assert(is_ancestor(dir@, rr@));
                }
            }
            r
        },
    }
}

} // verus!
