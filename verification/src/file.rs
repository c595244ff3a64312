//! The files of a project folder and what changed between two listings.

use vstd::prelude::*;

verus! {

/// A file of the project folder: its path, its name and when it was last
/// modified (nanoseconds since the Unix epoch).
#[derive(Debug)]
pub struct File {
    pub path: String,
    pub name: Option<String>,
    pub modified: u128,
}

/// What changed between two listings.
#[derive(Debug)]
pub struct FilesDiff<'a> {
    pub new: Vec<&'a File>,
    pub removed: Vec<&'a File>,
    pub modified: Vec<&'a File>,
    pub unmodified: Vec<&'a File>,
}

impl<'a> FilesDiff<'a> {
    /// No changes yet.
    pub fn new() -> (r: Self)
        ensures
            r.new@.len() == 0,
            r.removed@.len() == 0,
            r.modified@.len() == 0,
            r.unmodified@.len() == 0,
    {
        FilesDiff { new: Vec::new(), removed: Vec::new(), modified: Vec::new(), unmodified: Vec::new() }
    }

    /// Nothing new, removed or modified.
    pub fn is_clean(&self) -> (r: bool)
        ensures
            r == (self.new@.len() == 0 && self.removed@.len() == 0 && self.modified@.len() == 0),
    {
        self.new.len() == 0 && self.removed.len() == 0 && self.modified.len() == 0
    }
}

/// Position of the first file with the given path (or `-1`).
pub open spec fn path_pos(s: Seq<&File>, path: Seq<char>) -> int
    decreases s.len(),
{
    if s.len() == 0 {
        -1
    } else {
        let f = path_pos(s.drop_last(), path);
        if f >= 0 {
            f
        } else if s.last().path@ == path {
            s.len() - 1
        } else {
            -1
        }
    }
}

proof fn lemma_path_pos(s: Seq<&File>, path: Seq<char>)
    ensures
        -1 <= path_pos(s, path) < s.len(),
        path_pos(s, path) >= 0 ==> s[path_pos(s, path)].path@ == path,
        forall|k: int|
            0 <= k < s.len() && (path_pos(s, path) < 0 || k < path_pos(s, path)) ==> #[trigger] s[k].path@
                != path,
    decreases s.len(),
{
    if s.len() > 0 {
        lemma_path_pos(s.drop_last(), path);
        assert forall|k: int|
            0 <= k < s.len() && (path_pos(s, path) < 0 || k < path_pos(s, path)) implies #[trigger] s[k].path@
            != path by {
            if k < s.len() - 1 {
                assert(s.drop_last()[k] == s[k]);
            }
        }
    }
}

/// The diff after the current files `now`, one after the other: the past
/// files not matched yet, and the new, modified and unmodified files. A
/// current file matches the first past file with the same path; it is
/// modified when the past one is older.
pub open spec fn diff_run<'a>(past: Seq<&'a File>, now: Seq<&'a File>) -> (
    Seq<&'a File>,
    Seq<&'a File>,
    Seq<&'a File>,
    Seq<&'a File>,
)
    decreases now.len(),
{
    if now.len() == 0 {
        (past, Seq::empty(), Seq::empty(), Seq::empty())
    } else {
        let st = diff_run(past, now.drop_last());
        let nf = now.last();
        let pos = path_pos(st.0, nf.path@);
        if pos >= 0 {
            if st.0[pos].modified < nf.modified {
                (st.0.remove(pos), st.1, st.2.push(nf), st.3)
            } else {
                (st.0.remove(pos), st.1, st.2, st.3.push(nf))
            }
        } else {
            (st.0, st.1.push(nf), st.2, st.3)
        }
    }
}

fn find_path<'a>(files: &Vec<&'a File>, path: &String) -> (r: Option<usize>)
    ensures
        match r {
            Some(k) => k as int == path_pos(files@, path@) && k < files.len(),
            None => path_pos(files@, path@) < 0,
        },
{
    proof {
        lemma_path_pos(files@, path@);
    }
    let mut k: usize = 0;
    while k < files.len()
        invariant
            k <= files.len(),
            forall|j: int| 0 <= j < k ==> #[trigger] files@[j].path@ != path@,
            -1 <= path_pos(files@, path@) < files@.len(),
            path_pos(files@, path@) >= 0 ==> files@[path_pos(files@, path@)].path@ == path@,
            forall|j: int|
                0 <= j < files@.len() && (path_pos(files@, path@) < 0 || j < path_pos(files@, path@))
                    ==> #[trigger] files@[j].path@ != path@,
        decreases files.len() - k,
    {
        if crate::text::str_eq(files[k].path.as_str(), path.as_str()) {
            return Some(k);
        }
        k = k + 1;
    }
    None
}

/// Compares two listings of the project folder: current files not listed
/// before are new, listed files are modified or unmodified by their times,
/// and listed files no longer there are removed.
pub fn diff_files<'a>(past: &'a Vec<File>, now: &'a Vec<File>) -> (r: FilesDiff<'a>)
    ensures
        ({
            let st = diff_run(
                Seq::new(past@.len(), |i: int| &past@[i]),
                Seq::new(now@.len(), |i: int| &now@[i]),
            );
            &&& r.removed@ == st.0
            &&& r.new@ == st.1
            &&& r.modified@ == st.2
            &&& r.unmodified@ == st.3
        }),
{
    let ghost ps = Seq::new(past@.len(), |i: int| &past@[i]);
    let ghost ns = Seq::new(now@.len(), |i: int| &now@[i]);
    let mut pfiles: Vec<&File> = Vec::new();
    let mut i: usize = 0;
    while i < past.len()
        invariant
            i <= past@.len(),
            ps == Seq::new(past@.len(), |i: int| &past@[i]),
            pfiles@ == ps.take(i as int),
        decreases past.len() - i,
    {
        pfiles.push(&past[i]);
        proof {
            assert(ps.take(i + 1) =~= ps.take(i as int).push(&past@[i as int]));
        }
        i = i + 1;
    }
    proof {
        assert(ps.take(past@.len() as int) =~= ps);
    }
    let mut res = FilesDiff::new();
    let mut k: usize = 0;
    while k < now.len()
        invariant
            k <= now@.len(),
            ns == Seq::new(now@.len(), |i: int| &now@[i]),
            ({
                let st = diff_run(ps, ns.take(k as int));
                &&& pfiles@ == st.0
                &&& res.new@ == st.1
                &&& res.modified@ == st.2
                &&& res.unmodified@ == st.3
                &&& res.removed@.len() == 0
            }),
        decreases now.len() - k,
    {
        let nf: &File = &now[k];
        proof {
            assert(ns.take(k + 1).drop_last() =~= ns.take(k as int));
            assert(ns.take(k + 1).last() == nf);
        }
        match find_path(&pfiles, &nf.path) {
            Some(pos) => {
                if pfiles[pos].modified < nf.modified {
                    res.modified.push(nf);
                } else {
                    res.unmodified.push(nf);
                }
                pfiles.remove(pos);
            },
            None => {
                res.new.push(nf);
            },
        }
        k = k + 1;
    }
    proof {
        assert(ns.take(now@.len() as int) =~= ns);
    }
    let ghost st = diff_run(ps, ns);
    let mut j: usize = 0;
    while j < pfiles.len()
        invariant
            j <= pfiles@.len(),
            ps == Seq::new(past@.len(), |i: int| &past@[i]),
            ns == Seq::new(now@.len(), |i: int| &now@[i]),
            st == diff_run(ps, ns),
            pfiles@ == st.0,
            res.new@ == st.1,
            res.modified@ == st.2,
            res.unmodified@ == st.3,
            res.removed@ == pfiles@.take(j as int),
        decreases pfiles.len() - j,
    {
        res.removed.push(pfiles[j]);
        proof {
            assert(pfiles@.take(j + 1) =~= pfiles@.take(j as int).push(pfiles@[j as int]));
        }
        j = j + 1;
    }
    proof {
        assert(pfiles@.take(pfiles@.len() as int) =~= pfiles@);
    }
    res
}

} // verus!

verus! {

/// Every current file is new, modified or unmodified, and every past file
/// is removed or matched by exactly one current file.
pub proof fn law_diff_accounts_for_every_file<'a>(past: Seq<&'a File>, now: Seq<&'a File>)
    ensures
        ({
            let st = diff_run(past, now);
            &&& st.1.len() + st.2.len() + st.3.len() == now.len()
            &&& st.0.len() + st.2.len() + st.3.len() == past.len()
        }),
    decreases now.len(),
{
    if now.len() > 0 {
        law_diff_accounts_for_every_file(past, now.drop_last());
        let st = diff_run(past, now.drop_last());
        lemma_path_pos(st.0, now.last().path@);
    }
}

} // verus!
