//! The repository: its mode, the local and remote commit logs, the store of
//! documents, and the server-side merge of a pushed commit.
//!
//! The store and the logs are held in memory; reading and writing them to
//! disk, and the network transport, stand outside the library.

use vstd::prelude::*;

use crate::parser::opt_view;
use crate::sync::{
    aob_copy, last_id, now_micros, new_uuid, same_but_commit, staging_positions, ActionExt,
    ActionKind, ActionObject, Commit, Context, Document, Status,
};

verus! {

/// `b` is a copy of the commit `a`: every field equal, the actions copied.
pub open spec fn commit_copy<A: ActionExt>(a: Commit<A>, b: Commit<A>) -> bool {
    &&& b.id == a.id
    &&& b.uid@ == a.uid@
    &&& b.dtime == a.dtime
    &&& b.comment@ == a.comment@
    &&& b.ancestor_id == a.ancestor_id
    &&& b.actions@.len() == a.actions@.len()
    &&& forall|k: int| 0 <= k < a.actions@.len() ==> aob_copy(#[trigger] a.actions@[k], b.actions@[k])
    &&& opt_view(b.remote_signature) == opt_view(a.remote_signature)
}

impl<A: ActionExt> Commit<A> {
    /// A copy of the commit.
    pub fn duplicate(&self) -> (r: Self)
        ensures
            commit_copy(*self, r),
    {
        let mut actions: Vec<ActionObject<A>> = Vec::new();
        let mut k: usize = 0;
        while k < self.actions.len()
            invariant
                k <= self.actions.len(),
                actions@.len() == k,
                forall|j: int| 0 <= j < k ==> aob_copy(#[trigger] self.actions@[j], actions@[j]),
            decreases self.actions.len() - k,
        {
            actions.push(self.actions[k].duplicate());
            k = k + 1;
        }
        let sig = match &self.remote_signature {
            Some(s) => Some(s.clone()),
            None => None,
        };
        Commit {
            id: self.id,
            uid: self.uid.clone(),
            dtime: self.dtime,
            comment: self.comment.clone(),
            ancestor_id: self.ancestor_id,
            actions,
            remote_signature: sig,
        }
    }
}

/// Repository mode: a server, a client of a remote server, or local only.
#[derive(Debug)]
pub enum Mode {
    Server { remote_address: String },
    Remote { remote_url: String },
    Local,
}

/// The name a mode is shown by.
pub open spec fn mode_name(m: Mode) -> Seq<char> {
    match m {
        Mode::Server { .. } => "SERVER"@,
        Mode::Remote { .. } => "REMOTE"@,
        Mode::Local => "LOCAL"@,
    }
}

impl Mode {
    /// Server mode listening on the given address.
    pub fn server(server_addr: String) -> (r: Self)
        ensures
            r matches Mode::Server { remote_address } && remote_address@ == server_addr@,
    {
        Mode::Server { remote_address: server_addr }
    }

    /// Client mode of the server at the given url.
    pub fn remote(remote_url: String) -> (r: Self)
        ensures
            r matches Mode::Remote { remote_url: u } && u@ == remote_url@,
    {
        Mode::Remote { remote_url }
    }

    /// Local mode.
    pub fn local() -> (r: Self)
        ensures
            r is Local,
    {
        Mode::Local
    }

    /// The mode's name: `SERVER`, `REMOTE` or `LOCAL`.
    pub fn to_string(&self) -> (r: String)
        ensures
            r@ == mode_name(*self),
    {
        match self {
            Mode::Server { .. } => "SERVER".to_string(),
            Mode::Remote { .. } => "REMOTE".to_string(),
            Mode::Local => "LOCAL".to_string(),
        }
    }
}

impl Default for Mode {
    fn default() -> (r: Self)
        ensures
            r is Local,
    {
        Mode::Local
    }
}

/// The ids of the latest local and the latest remote commit.
#[derive(Debug, Clone, Copy)]
pub struct CommitIndex {
    pub latest_local_commit_id: Option<u128>,
    pub latest_remote_commit_id: Option<u128>,
}

/// Each commit's ancestor is the commit before it (the first has none), and
/// `latest` is the id of the last one.
pub open spec fn is_commit_chain<A>(s: Seq<Commit<A>>, latest: Option<u128>) -> bool {
    &&& forall|k: int|
        0 <= k < s.len() ==> (#[trigger] s[k]).ancestor_id == if k == 0 {
            None
        } else {
            Some(s[k - 1].id)
        }
    &&& latest == if s.len() == 0 {
        None
    } else {
        Some(s.last().id)
    }
}

/// Position of the first commit with the given id (or `-1`).
pub open spec fn commit_pos<A>(s: Seq<Commit<A>>, id: u128) -> int
    decreases s.len(),
{
    if s.len() == 0 {
        -1
    } else {
        let f = commit_pos(s.drop_last(), id);
        if f >= 0 {
            f
        } else if s.last().id == id {
            s.len() - 1
        } else {
            -1
        }
    }
}

proof fn lemma_commit_pos<A>(s: Seq<Commit<A>>, id: u128)
    ensures
        -1 <= commit_pos(s, id) < s.len(),
        commit_pos(s, id) >= 0 ==> s[commit_pos(s, id)].id == id,
        forall|k: int|
            0 <= k < s.len() && (commit_pos(s, id) < 0 || k < commit_pos(s, id)) ==> #[trigger] s[k].id
                != id,
    decreases s.len(),
{
    if s.len() > 0 {
        lemma_commit_pos(s.drop_last(), id);
        assert forall|k: int|
            0 <= k < s.len() && (commit_pos(s, id) < 0 || k < commit_pos(s, id)) implies #[trigger] s[k].id
            != id by {
            if k < s.len() - 1 {
                assert(s.drop_last()[k] == s[k]);
            }
        }
    }
}

/// The commits after the first one with the given id; none when no commit
/// has that id.
pub open spec fn commits_after<A>(s: Seq<Commit<A>>, id: u128) -> Seq<Commit<A>> {
    if commit_pos(s, id) >= 0 {
        s.skip(commit_pos(s, id) + 1)
    } else {
        Seq::empty()
    }
}

/// The local and the remote commit logs with their index.
#[derive(Debug)]
pub struct CommitLog<A> {
    pub locals: Vec<Commit<A>>,
    pub remotes: Vec<Commit<A>>,
    pub index: CommitIndex,
}

impl<A: ActionExt> CommitLog<A> {
    /// Both logs are chains and the index names their last commits.
    pub open spec fn wf(&self) -> bool {
        &&& is_commit_chain(self.locals@, self.index.latest_local_commit_id)
        &&& is_commit_chain(self.remotes@, self.index.latest_remote_commit_id)
    }

    /// Empty logs.
    pub fn init() -> (r: Self)
        ensures
            r.locals@.len() == 0,
            r.remotes@.len() == 0,
            r.index.latest_local_commit_id is None,
            r.index.latest_remote_commit_id is None,
            r.wf(),
    {
        CommitLog {
            locals: Vec::new(),
            remotes: Vec::new(),
            index: CommitIndex { latest_local_commit_id: None, latest_remote_commit_id: None },
        }
    }

    /// Copies of the remote commits after the one with id `after_id`.
    pub fn load_remotes_after(&self, after_id: u128) -> (r: Vec<Commit<A>>)
        ensures
            r@.len() == commits_after(self.remotes@, after_id).len(),
            forall|j: int|
                0 <= j < r@.len() ==> commit_copy(
                    #[trigger] commits_after(self.remotes@, after_id)[j],
                    r@[j],
                ),
    {
        let ghost s = self.remotes@;
        proof {
            lemma_commit_pos(s, after_id);
        }
        let mut r: Vec<Commit<A>> = Vec::new();
        let mut append = false;
        let mut start: usize = 0;
        let mut k: usize = 0;
        while k < self.remotes.len()
            invariant
                s == self.remotes@,
                k <= s.len(),
                -1 <= commit_pos(s, after_id) < s.len(),
                commit_pos(s, after_id) >= 0 ==> s[commit_pos(s, after_id)].id == after_id,
                forall|j: int|
                    0 <= j < s.len() && (commit_pos(s, after_id) < 0 || j < commit_pos(
                        s,
                        after_id,
                    )) ==> #[trigger] s[j].id != after_id,
                append <==> (commit_pos(s, after_id) >= 0 && commit_pos(s, after_id) < k),
                append ==> start == commit_pos(s, after_id) + 1,
                append ==> r@.len() == k - start,
                !append ==> r@.len() == 0,
                append ==> forall|j: int| 0 <= j < r@.len() ==> commit_copy(#[trigger] s[start + j], r@[j]),
            decreases s.len() - k,
        {
            if append {
                r.push(self.remotes[k].duplicate());
            } else if self.remotes[k].id == after_id {
                append = true;
                start = k + 1;
            }
            k = k + 1;
        }
        proof {
            if append {
                assert forall|j: int| 0 <= j < r@.len() implies commit_copy(
                    #[trigger] commits_after(s, after_id)[j],
                    r@[j],
                ) by {
                    assert(commits_after(s, after_id)[j] == s[start + j]);
                }
            }
        }
        r
    }

    /// Adds a local commit on top of the latest local one.
    pub fn add_local_commit(&mut self, local_commit: Commit<A>)
        ensures
            final(self).locals@ == old(self).locals@.push(
                Commit { ancestor_id: old(self).index.latest_local_commit_id, ..local_commit },
            ),
            final(self).index.latest_local_commit_id == Some(local_commit.id),
            final(self).remotes == old(self).remotes,
            final(self).index.latest_remote_commit_id == old(self).index.latest_remote_commit_id,
            old(self).wf() ==> final(self).wf(),
    {
        let mut local_commit = local_commit;
        local_commit.set_ancestor_id(self.index.latest_local_commit_id);
        self.index.latest_local_commit_id = Some(local_commit.id);
        self.locals.push(local_commit);
    }

    /// Adds a commit signed by the server; it must follow the latest remote
    /// commit, otherwise nothing changes.
    pub fn add_remote_commit(&mut self, remote_commit: Commit<A>) -> (res: Result<(), String>)
        ensures
            remote_commit.ancestor_id != old(self).index.latest_remote_commit_id ==> (res matches Err(
                e,
            ) && e@ == "Remote commit ancestor ID error! Please pull"@) && *final(self) == *old(self),
            remote_commit.ancestor_id == old(self).index.latest_remote_commit_id ==> res is Ok
                && final(self).remotes@ == old(self).remotes@.push(remote_commit)
                && final(self).index.latest_remote_commit_id == Some(remote_commit.id)
                && final(self).locals == old(self).locals
                && final(self).index.latest_local_commit_id == old(self).index.latest_local_commit_id,
            old(self).wf() ==> final(self).wf(),
    {
        if remote_commit.ancestor_id != self.index.latest_remote_commit_id {
            return Err("Remote commit ancestor ID error! Please pull".to_string());
        }
        self.index.latest_remote_commit_id = Some(remote_commit.id);
        self.remotes.push(remote_commit);
        Ok(())
    }

    /// Empties the local log.
    pub fn reset_local_commits(&mut self)
        ensures
            final(self).locals@.len() == 0,
            final(self).index.latest_local_commit_id is None,
            final(self).remotes == old(self).remotes,
            final(self).index.latest_remote_commit_id == old(self).index.latest_remote_commit_id,
            old(self).wf() ==> final(self).wf(),
    {
        self.locals = Vec::new();
        self.index.latest_local_commit_id = None;
    }
}

} // verus!

verus! {

/// Position of the document with the given id (or `-1`).
pub open spec fn doc_pos<A>(s: Seq<Document<A>>, id: u128) -> int
    decreases s.len(),
{
    if s.len() == 0 {
        -1
    } else {
        let f = doc_pos(s.drop_last(), id);
        if f >= 0 {
            f
        } else if s.last().id == id {
            s.len() - 1
        } else {
            -1
        }
    }
}

proof fn lemma_doc_pos<A>(s: Seq<Document<A>>, id: u128)
    ensures
        -1 <= doc_pos(s, id) < s.len(),
        doc_pos(s, id) >= 0 ==> s[doc_pos(s, id)].id == id,
        forall|k: int|
            0 <= k < s.len() && (doc_pos(s, id) < 0 || k < doc_pos(s, id)) ==> #[trigger] s[k].id
                != id,
    decreases s.len(),
{
    if s.len() > 0 {
        lemma_doc_pos(s.drop_last(), id);
        assert forall|k: int|
            0 <= k < s.len() && (doc_pos(s, id) < 0 || k < doc_pos(s, id)) implies #[trigger] s[k].id
            != id by {
            if k < s.len() - 1 {
                assert(s.drop_last()[k] == s[k]);
            }
        }
    }
}

/// Finds the document with the given id.
fn find_doc<A>(docs: &Vec<Document<A>>, id: u128) -> (r: Option<usize>)
    ensures
        match r {
            Some(k) => k as int == doc_pos(docs@, id) && k < docs.len(),
            None => doc_pos(docs@, id) < 0,
        },
{
    proof {
        lemma_doc_pos(docs@, id);
    }
    let mut k: usize = 0;
    while k < docs.len()
        invariant
            k <= docs.len(),
            forall|j: int| 0 <= j < k ==> #[trigger] docs@[j].id != id,
            -1 <= doc_pos(docs@, id) < docs@.len(),
            doc_pos(docs@, id) >= 0 ==> docs@[doc_pos(docs@, id)].id == id,
            forall|j: int|
                0 <= j < docs@.len() && (doc_pos(docs@, id) < 0 || j < doc_pos(docs@, id))
                    ==> #[trigger] docs@[j].id != id,
        decreases docs.len() - k,
    {
        if docs[k].id == id {
            return Some(k);
        }
        k = k + 1;
    }
    None
}

/// What the documents' index does with a document: it is told of every
/// document that changes. Implemented by the users of the repository.
pub trait IndexExt<A> {
    /// The ids of the documents the index took in since it was last reset,
    /// in the order they came.
    spec fn synced(&self) -> Seq<u128>;

    /// Forgets every document.
    fn reset_docrefs(&mut self) -> (res: Result<(), String>)
        ensures
            res is Ok ==> final(self).synced() == Seq::<u128>::empty(),
    ;

    /// Brings the index in line with the document.
    fn sync_doc(&mut self, doc: &Document<A>) -> (res: Result<(), String>)
        ensures
            res is Ok ==> final(self).synced() == old(self).synced().push(doc.id),
    ;
}

/// The document that a create action starts.
pub open spec fn created_doc<A>(d: Document<A>, aob: ActionObject<A>) -> bool {
    &&& d.id == aob.object_id
    &&& d.storage_id@ == aob.storage_id@
    &&& d.actions@ == seq![aob]
    &&& d.status == Status::Okay
}

/// `b` is a copy of the document `a`.
pub open spec fn doc_copy<A: ActionExt>(a: Document<A>, b: Document<A>) -> bool {
    &&& b.id == a.id
    &&& b.storage_id@ == a.storage_id@
    &&& b.status == a.status
    &&& b.actions@.len() == a.actions@.len()
    &&& forall|k: int| 0 <= k < a.actions@.len() ==> aob_copy(#[trigger] a.actions@[k], b.actions@[k])
}

impl<A: ActionExt> Document<A> {
    /// A copy of the document.
    pub fn duplicate(&self) -> (r: Self)
        ensures
            doc_copy(*self, r),
    {
        let mut actions: Vec<ActionObject<A>> = Vec::new();
        let mut k: usize = 0;
        while k < self.actions.len()
            invariant
                k <= self.actions.len(),
                actions@.len() == k,
                forall|j: int| 0 <= j < k ==> aob_copy(#[trigger] self.actions@[j], actions@[j]),
            decreases self.actions.len() - k,
        {
            actions.push(self.actions[k].duplicate());
            k = k + 1;
        }
        Document { id: self.id, storage_id: self.storage_id.clone(), actions, status: self.status }
    }
}

/// The repository: its context, its mode, its documents and its commit logs.
#[derive(Debug)]
pub struct Repository<A> {
    pub ctx: Context,
    pub mode: Mode,
    pub documents: Vec<Document<A>>,
    pub commit_log: CommitLog<A>,
}

impl<A: ActionExt> Repository<A> {
    /// Document ids are unique and the commit logs are chains.
    pub open spec fn wf(&self) -> bool {
        &&& forall|i: int, j: int|
            0 <= i < j < self.documents@.len() ==> #[trigger] self.documents@[i].id
                != #[trigger] self.documents@[j].id
        &&& self.commit_log.wf()
    }

    /// A new repository in the given mode: no documents, empty logs.
    pub fn init(ctx: Context, mode: Mode) -> (r: Self)
        ensures
            r.ctx == ctx,
            r.mode == mode,
            r.documents@.len() == 0,
            r.commit_log.locals@.len() == 0,
            r.commit_log.remotes@.len() == 0,
            r.commit_log.index.latest_local_commit_id is None,
            r.commit_log.index.latest_remote_commit_id is None,
            r.wf(),
    {
        Repository { ctx, mode, documents: Vec::new(), commit_log: CommitLog::init() }
    }

    /// The address a server repository listens on.
    pub fn get_server_address(&self) -> (r: Option<&String>)
        ensures
            match self.mode {
                Mode::Server { remote_address } => r == Some(&remote_address),
                _ => r is None,
            },
    {
        match &self.mode {
            Mode::Server { remote_address } => Some(remote_address),
            _ => None,
        }
    }

    /// The server address a remote repository pulls from and pushes to;
    /// none outside remote mode.
    pub fn get_remote_address(&self) -> (r: Option<&String>)
        ensures
            match self.mode {
                Mode::Remote { remote_url } => r == Some(&remote_url),
                _ => r is None,
            },
    {
        match &self.mode {
            Mode::Remote { remote_url } => Some(remote_url),
            _ => None,
        }
    }

    /// Whether the repository is in server mode.
    pub fn is_server_mode(&self) -> (r: bool)
        ensures
            r == self.mode is Server,
    {
        match &self.mode {
            Mode::Server { .. } => true,
            _ => false,
        }
    }

    /// The document with the given id.
    pub fn get_doc(&self, document_id: u128) -> (res: Result<&Document<A>, String>)
        ensures
            doc_pos(self.documents@, document_id) >= 0 ==> res == Ok::<&Document<A>, String>(
                &self.documents@[doc_pos(self.documents@, document_id)],
            ),
            doc_pos(self.documents@, document_id) < 0 ==> (res matches Err(e) && e@
                == "No document by id found"@),
    {
        match find_doc(&self.documents, document_id) {
            Some(k) => Ok(&self.documents[k]),
            None => Err("No document by id found".to_string()),
        }
    }

    /// Starts a document with a create action; an existing document, or an
    /// action that is no create action, is refused.
    pub fn document_create(&mut self, aob: ActionObject<A>) -> (res: Result<(), String>)
        ensures
            final(self).ctx == old(self).ctx,
            final(self).mode == old(self).mode,
            final(self).commit_log == old(self).commit_log,
            doc_pos(old(self).documents@, aob.object_id) >= 0 ==> (res matches Err(e) && e@
                == "Document already exist"@) && final(self).documents == old(self).documents,
            doc_pos(old(self).documents@, aob.object_id) < 0 && aob.action is Patch ==> (res matches Err(
                e,
            ) && e@ == "Aob must be create action kind to create new document"@)
                && final(self).documents == old(self).documents,
            doc_pos(old(self).documents@, aob.object_id) < 0 && aob.action is Create ==> res is Ok
                && final(self).documents@.len() == old(self).documents@.len() + 1
                && final(self).documents@.drop_last() == old(self).documents@
                && created_doc(final(self).documents@.last(), aob),
            old(self).wf() ==> final(self).wf(),
    {
        proof {
            lemma_doc_pos(self.documents@, aob.object_id);
        }
        if find_doc(&self.documents, aob.object_id).is_some() {
            return Err("Document already exist".to_string());
        }
        if aob.is_kind_patch() {
            return Err("Aob must be create action kind to create new document".to_string());
        }
        let id = aob.object_id;
        let storage_id = aob.storage_id.clone();
        let mut actions: Vec<ActionObject<A>> = Vec::new();
        actions.push(aob);
        self.documents.push(Document { id, storage_id, actions, status: Status::Okay });
        proof {
            assert(self.documents@.drop_last() =~= old(self).documents@);
            assert(self.documents@.last().actions@ =~= seq![aob]);
        }
        Ok(())
    }
}

} // verus!

verus! {

/// A document as a value: id, storage id, actions, status.
pub open spec fn doc_view<A>(d: Document<A>) -> (u128, Seq<char>, Seq<ActionObject<A>>, Status) {
    (d.id, d.storage_id@, d.actions@, d.status)
}

/// The documents as values.
pub open spec fn store_view<A>(docs: Seq<Document<A>>) -> Seq<(u128, Seq<char>, Seq<ActionObject<A>>, Status)> {
    docs.map_values(|d: Document<A>| doc_view(d))
}

/// Position of the document value with the given id (or `-1`).
pub open spec fn view_pos<A>(s: Seq<(u128, Seq<char>, Seq<ActionObject<A>>, Status)>, id: u128) -> int
    decreases s.len(),
{
    if s.len() == 0 {
        -1
    } else {
        let f = view_pos(s.drop_last(), id);
        if f >= 0 {
            f
        } else if s.last().0 == id {
            s.len() - 1
        } else {
            -1
        }
    }
}

proof fn lemma_view_pos_props<A>(s: Seq<(u128, Seq<char>, Seq<ActionObject<A>>, Status)>, id: u128)
    ensures
        -1 <= view_pos(s, id) < s.len(),
        view_pos(s, id) >= 0 ==> s[view_pos(s, id)].0 == id,
        forall|k: int|
            0 <= k < s.len() && (view_pos(s, id) < 0 || k < view_pos(s, id)) ==> #[trigger] s[k].0 != id,
    decreases s.len(),
{
    if s.len() > 0 {
        lemma_view_pos_props(s.drop_last(), id);
        assert forall|k: int|
            0 <= k < s.len() && (view_pos(s, id) < 0 || k < view_pos(s, id)) implies #[trigger] s[k].0 != id by {
            if k < s.len() - 1 {
                assert(s[k] == s.drop_last()[k]);
            }
        }
    }
}

proof fn lemma_view_pos_is<A>(s: Seq<(u128, Seq<char>, Seq<ActionObject<A>>, Status)>, id: u128, q: int)
    requires
        0 <= q < s.len(),
        s[q].0 == id,
        forall|k: int| 0 <= k < q ==> #[trigger] s[k].0 != id,
    ensures
        view_pos(s, id) == q,
    decreases s.len(),
{
    if q < s.len() - 1 {
        assert forall|k: int| 0 <= k < q implies #[trigger] s.drop_last()[k].0 != id by {
            assert(s.drop_last()[k] == s[k]);
        }
        lemma_view_pos_is(s.drop_last(), id, q);
    } else {
        lemma_view_pos_props(s.drop_last(), id);
        if view_pos(s.drop_last(), id) >= 0 {
            let f = view_pos(s.drop_last(), id);
            assert(s[f] == s.drop_last()[f]);
        }
    }
}

/// An action that a client's store took in can be found there afterwards:
/// the document of its object holds it, unless an action with its id was
/// there already, in which case the store is left as it was.
pub proof fn law_added_action_is_found<A>(
    store: Seq<(u128, Seq<char>, Seq<ActionObject<A>>, Status)>,
    aob: ActionObject<A>,
)
    requires
        client_add(store, aob) is Ok,
    ensures
        ({
            let s = client_add(store, aob)->Ok_0;
            let p = view_pos(s, aob.object_id);
            &&& p >= 0
            &&& s[p].2.contains(aob) || (s == store && crate::sync::first_with_id(s[p].2, aob.id) >= 0)
        }),
{
    let p = view_pos(store, aob.object_id);
    lemma_view_pos_props(store, aob.object_id);
    let s = client_add(store, aob)->Ok_0;
    if p >= 0 {
        match crate::sync::add_aob_spec(store[p].2, aob) {
            Ok(None) => {},
            Ok(Some(acts)) => {
                let q = crate::sync::first_with_id(store[p].2, aob.parent_action_id->0);
                crate::sync::lemma_first_with_id(store[p].2, aob.parent_action_id->0);
                assert(acts[q + 1] == aob);
                assert forall|k: int| 0 <= k < p implies #[trigger] s[k].0 != aob.object_id by {
                    assert(s[k] == store[k]);
                }
                lemma_view_pos_is(s, aob.object_id, p);
            },
            Err(_) => {},
        }
    } else {
        assert forall|k: int| 0 <= k < store.len() implies #[trigger] s[k].0 != aob.object_id by {
            assert(s[k] == store[k]);
        }
        lemma_view_pos_is(s, aob.object_id, store.len() as int);
        assert(s[store.len() as int].2[0] == aob);
    }
}

proof fn lemma_view_pos<A>(docs: Seq<Document<A>>, id: u128)
    ensures
        view_pos(store_view(docs), id) == doc_pos(docs, id),
    decreases docs.len(),
{
    if docs.len() > 0 {
        assert(store_view(docs.drop_last()) =~= store_view(docs).drop_last());
        lemma_view_pos(docs.drop_last(), id);
    }
}

/// What the server does with one signed action: a create action starts a
/// new document; a patch action is appended to its document when it follows
/// the document's last action.
pub open spec fn server_add<A>(
    store: Seq<(u128, Seq<char>, Seq<ActionObject<A>>, Status)>,
    aob: ActionObject<A>,
) -> Result<Seq<(u128, Seq<char>, Seq<ActionObject<A>>, Status)>, Seq<char>> {
    let p = view_pos(store, aob.object_id);
    match aob.action {
        ActionKind::Create(_) => if p >= 0 {
            Err("Document already exist"@)
        } else {
            Ok(store.push((aob.object_id, aob.storage_id@, seq![aob], Status::Okay)))
        },
        ActionKind::Patch(_) => if p < 0 {
            Err("No document by id found"@)
        } else if aob.remote_signature is None {
            Err("Only remote aob can be append as remote procedure"@)
        } else if aob.parent_action_id != last_id(store[p].2) {
            Err("Cannot insert aob; parent aob not found"@)
        } else {
            Ok(store.update(p, (store[p].0, store[p].1, store[p].2.push(aob), store[p].3)))
        },
    }
}

/// The server's actions applied one after the other; an error stops the
/// run and comes with the documents as they were at that point.
pub open spec fn server_add_all<A>(
    store: Seq<(u128, Seq<char>, Seq<ActionObject<A>>, Status)>,
    aobs: Seq<ActionObject<A>>,
) -> Result<
    Seq<(u128, Seq<char>, Seq<ActionObject<A>>, Status)>,
    (Seq<char>, Seq<(u128, Seq<char>, Seq<ActionObject<A>>, Status)>),
>
    decreases aobs.len(),
{
    if aobs.len() == 0 {
        Ok(store)
    } else {
        match server_add_all(store, aobs.drop_last()) {
            Err(x) => Err(x),
            Ok(s) => match server_add(s, aobs.last()) {
                Err(e) => Err((e, s)),
                Ok(s2) => Ok(s2),
            },
        }
    }
}

/// The actions of a pushed commit as the server signs them.
pub open spec fn signed_actions<A>(actions: Seq<ActionObject<A>>, signatures: Seq<String>) -> Seq<
    ActionObject<A>,
> {
    Seq::new(
        actions.len(),
        |k: int| ActionObject { remote_signature: Some(signatures[k]), ..actions[k] },
    )
}

/// Once a run of server actions fails on a prefix, it fails the same way on
/// the whole.
proof fn lemma_add_all_err_extends<A>(
    store: Seq<(u128, Seq<char>, Seq<ActionObject<A>>, Status)>,
    aobs: Seq<ActionObject<A>>,
    k: int,
)
    requires
        0 <= k <= aobs.len(),
        server_add_all(store, aobs.take(k)) is Err,
    ensures
        server_add_all(store, aobs) == server_add_all(store, aobs.take(k)),
    decreases aobs.len(),
{
    if k < aobs.len() {
        assert(aobs.drop_last().take(k) =~= aobs.take(k));
        lemma_add_all_err_extends(store, aobs.drop_last(), k);
    } else {
        assert(aobs.take(k) =~= aobs);
    }
}

impl<A: ActionExt> Repository<A> {
    /// Adds a signed action as the server does (see `server_add`).
    pub fn add_aob_server_side(&mut self, new_aob: ActionObject<A>) -> (res: Result<(), String>)
        ensures
            final(self).ctx == old(self).ctx,
            final(self).mode == old(self).mode,
            final(self).commit_log == old(self).commit_log,
            match server_add(store_view(old(self).documents@), new_aob) {
                Ok(s) => res is Ok && store_view(final(self).documents@) == s,
                Err(e) => (res matches Err(m) && m@ == e) && final(self).documents@
                    == old(self).documents@,
            },
            old(self).wf() ==> final(self).wf(),
    {
        proof {
            lemma_view_pos(self.documents@, new_aob.object_id);
            lemma_doc_pos(self.documents@, new_aob.object_id);
        }
        if new_aob.is_kind_create() {
            let r = self.document_create(new_aob);
            proof {
                if r is Ok {
                    assert(store_view(self.documents@) =~= store_view(old(self).documents@).push(
                        (new_aob.object_id, new_aob.storage_id@, seq![new_aob], Status::Okay),
                    )) by {
                        assert(store_view(self.documents@).drop_last() =~= store_view(old(self).documents@));
                    }
                }
            }
            return r;
        }
        match find_doc(&self.documents, new_aob.object_id) {
            None => Err("No document by id found".to_string()),
            Some(p) => {
                proof {
                    assert(store_view(old(self).documents@)[p as int] == doc_view(
                        old(self).documents@[p as int],
                    ));
                }
                let mut d = self.documents.remove(p);
                let r = d.add_aob_server_side(new_aob);
                self.documents.insert(p, d);
                proof {
                    assert(self.documents@ =~= old(self).documents@.update(p as int, d));
                    if r is Ok {
                        assert(store_view(self.documents@) =~= store_view(old(self).documents@).update(
                            p as int,
                            (d.id, d.storage_id@, d.actions@, d.status),
                        ));
                    } else {
                        assert(d == old(self).documents@[p as int]);
                        assert(self.documents@ =~= old(self).documents@);
                    }
                }
                r
            },
        }
    }
}

/// The server side of the repository.
#[derive(Debug)]
pub struct ServerInner<A> {
    pub repository: Repository<A>,
}

impl<A: ActionExt> ServerInner<A> {
    /// Merges a commit pushed by a client. It must follow the latest remote
    /// commit. Each action is signed (`aob_signatures[k]` is the signature
    /// computed for the `k`-th action) and added as the server does; the
    /// commit is signed with `commit_signature`, carries the signed actions,
    /// and becomes the latest remote commit; a copy of it is returned.
    /// An error stops the merge; documents changed before it stay changed.
    pub fn merge_push_request(
        &mut self,
        commit: Commit<A>,
        aob_signatures: Vec<String>,
        commit_signature: String,
    ) -> (res: Result<Commit<A>, String>)
        requires
            aob_signatures@.len() == commit.actions@.len(),
        ensures
            final(self).repository.ctx == old(self).repository.ctx,
            final(self).repository.mode == old(self).repository.mode,
            old(self).repository.wf() ==> final(self).repository.wf(),
            commit.ancestor_id != old(self).repository.commit_log.index.latest_remote_commit_id ==> (res matches Err(e) && e@ == "Commit parent id error. Please pull before commit."@)
                && final(self).repository == old(self).repository,
            commit.ancestor_id == old(self).repository.commit_log.index.latest_remote_commit_id ==> match server_add_all(
                store_view(old(self).repository.documents@),
                signed_actions(commit.actions@, aob_signatures@),
            ) {
                Err((e, s)) => (res matches Err(m) && m@ == e) && store_view(final(self).repository.documents@) == s
                    && final(self).repository.commit_log == old(self).repository.commit_log,
                Ok(s) => store_view(final(self).repository.documents@) == s && if commit.remote_signature is Some {
                    (res matches Err(m) && m@ == "Commit already has remote signature!"@)
                        && final(self).repository.commit_log == old(self).repository.commit_log
                } else {
                    &&& res is Ok
                    &&& final(self).repository.commit_log.remotes@.len() == old(self).repository.commit_log.remotes@.len() + 1
                    &&& final(self).repository.commit_log.remotes@.drop_last() == old(self).repository.commit_log.remotes@
                    &&& final(self).repository.commit_log.locals == old(self).repository.commit_log.locals
                    &&& final(self).repository.commit_log.index.latest_remote_commit_id == Some(commit.id)
                    &&& final(self).repository.commit_log.index.latest_local_commit_id == old(self).repository.commit_log.index.latest_local_commit_id
                    &&& res matches Ok(c) && commit_copy(final(self).repository.commit_log.remotes@.last(), c)
                    &&& {
                        let l = final(self).repository.commit_log.remotes@.last();
                        &&& l.id == commit.id
                        &&& l.uid == commit.uid
                        &&& l.dtime == commit.dtime
                        &&& l.comment == commit.comment
                        &&& l.ancestor_id == commit.ancestor_id
                        &&& l.remote_signature == Some(commit_signature)
                        &&& l.actions@.len() == commit.actions@.len()
                        &&& forall|k: int| 0 <= k < l.actions@.len() ==> aob_copy(
                            #[trigger] signed_actions(commit.actions@, aob_signatures@)[k],
                            l.actions@[k],
                        )
                    }
                },
            },
    {
        if self.repository.commit_log.index.latest_remote_commit_id != commit.ancestor_id {
            return Err("Commit parent id error. Please pull before commit.".to_string());
        }
        let ghost signed = signed_actions(commit.actions@, aob_signatures@);
        let ghost store0 = store_view(self.repository.documents@);
        let ghost log0 = self.repository.commit_log;
        let mut pushed = commit;
        let ghost commit0 = pushed;
        let mut actions: Vec<ActionObject<A>> = Vec::new();
        std::mem::swap(&mut actions, &mut pushed.actions);
        let mut sigs = aob_signatures;
        let mut signed_aobs: Vec<ActionObject<A>> = Vec::new();
        let n = actions.len();
        let mut k: usize = 0;
        while k < n
            invariant
                n == commit0.actions@.len(),
                k <= n,
                actions@ == commit0.actions@.skip(k as int),
                sigs@ == aob_signatures@.skip(k as int),
                aob_signatures@.len() == n,
                signed == signed_actions(commit0.actions@, aob_signatures@),
                commit0 == commit,
                commit.ancestor_id == old(self).repository.commit_log.index.latest_remote_commit_id,
                pushed.id == commit0.id,
                pushed.uid == commit0.uid,
                pushed.dtime == commit0.dtime,
                pushed.comment == commit0.comment,
                pushed.ancestor_id == commit0.ancestor_id,
                pushed.remote_signature == commit0.remote_signature,
                signed_aobs@.len() == k,
                forall|j: int| 0 <= j < k ==> aob_copy(#[trigger] signed[j], signed_aobs@[j]),
                server_add_all(store0, signed.take(k as int)) == Ok::<
                    Seq<(u128, Seq<char>, Seq<ActionObject<A>>, Status)>,
                    (Seq<char>, Seq<(u128, Seq<char>, Seq<ActionObject<A>>, Status)>),
                >(store_view(self.repository.documents@)),
                self.repository.ctx == old(self).repository.ctx,
                self.repository.mode == old(self).repository.mode,
                self.repository.commit_log == log0,
                log0 == old(self).repository.commit_log,
                old(self).repository.wf() ==> self.repository.wf(),
                store0 == store_view(old(self).repository.documents@),
            decreases n - k,
        {
            let mut aob = actions.remove(0);
            let sig = sigs.remove(0);
            aob.remote_sign(sig);
            proof {
                assert(aob == signed[k as int]);
                assert(signed.take(k + 1).drop_last() =~= signed.take(k as int));
                assert(actions@ =~= commit0.actions@.skip(k + 1));
                assert(sigs@ =~= aob_signatures@.skip(k + 1));
            }
            let copy = aob.duplicate();
            let r = self.repository.add_aob_server_side(aob);
            match r {
                Err(e) => {
                    proof {
                        lemma_add_all_err_extends(store0, signed, k + 1);
                    }
                    return Err(e);
                },
                Ok(()) => {},
            }
            signed_aobs.push(copy);
            k = k + 1;
        }
        proof {
            assert(signed.take(n as int) =~= signed);
        }
        let r = pushed.add_remote_signature(commit_signature);
        match r {
            Err(e) => {
                return Err(e);
            },
            Ok(()) => {},
        }
        pushed.actions = signed_aobs;
        let returned = pushed.duplicate();
        let added = self.repository.commit_log.add_remote_commit(pushed);
        proof {
            assert(added is Ok);
        }
        Ok(returned)
    }
}

} // verus!

verus! {

/// What a client does with one action: an action on a known document goes
/// through `add_aob`; a create action starts a new document; a patch action
/// on an unknown document is refused.
pub open spec fn client_add<A>(
    store: Seq<(u128, Seq<char>, Seq<ActionObject<A>>, Status)>,
    aob: ActionObject<A>,
) -> Result<Seq<(u128, Seq<char>, Seq<ActionObject<A>>, Status)>, Seq<char>> {
    let p = view_pos(store, aob.object_id);
    if p >= 0 {
        match crate::sync::add_aob_spec(store[p].2, aob) {
            Err(e) => Err(e),
            Ok(None) => Ok(store),
            Ok(Some(s)) => Ok(
                store.update(p, (store[p].0, store[p].1, s, crate::sync::computed_status(s))),
            ),
        }
    } else {
        match aob.action {
            ActionKind::Create(_) => Ok(
                store.push((aob.object_id, aob.storage_id@, seq![aob], Status::Okay)),
            ),
            ActionKind::Patch(_) => Err(
                "Patch aob cannot be added to a not existing document. Pull first."@,
            ),
        }
    }
}

/// The documents `after` are what a refused `add_aob` of `aob` leaves of
/// `before`, its error being `e`: a refusal of the store leaves them as
/// they were; after a refusal of the index, a new document stays as the
/// store made it, and an existing one is put back as a copy of itself.
pub open spec fn add_refused<A: ActionExt>(
    before: Seq<Document<A>>,
    after: Seq<Document<A>>,
    aob: ActionObject<A>,
    e: Seq<char>,
) -> bool {
    match client_add(store_view(before), aob) {
        Err(m) => e == m && after == before,
        Ok(s) => if doc_pos(before, aob.object_id) < 0 {
            store_view(after) == s
        } else {
            let p = doc_pos(before, aob.object_id);
            &&& after.len() == before.len()
            &&& forall|i: int| 0 <= i < before.len() && i != p ==> #[trigger] after[i] == before[i]
            &&& doc_copy(before[p], after[p])
        },
    }
}

/// A client's actions applied one after the other (`None` on the first
/// refusal).
pub open spec fn client_add_all<A>(
    store: Seq<(u128, Seq<char>, Seq<ActionObject<A>>, Status)>,
    aobs: Seq<ActionObject<A>>,
) -> Option<Seq<(u128, Seq<char>, Seq<ActionObject<A>>, Status)>>
    decreases aobs.len(),
{
    if aobs.len() == 0 {
        Some(store)
    } else {
        match client_add_all(store, aobs.drop_last()) {
            None => None,
            Some(s) => match client_add(s, aobs.last()) {
                Err(_) => None,
                Ok(s2) => Some(s2),
            },
        }
    }
}

/// Some action of the document is staging.
pub open spec fn has_staging<A>(d: Document<A>) -> bool {
    exists|k: int| 0 <= k < d.actions@.len() && (#[trigger] d.actions@[k]).commit_id is None
}

/// Some document has a staging action.
pub open spec fn any_staging<A>(docs: Seq<Document<A>>) -> bool {
    exists|i: int| 0 <= i < docs.len() && has_staging(#[trigger] docs[i])
}

/// The staging actions of the documents `olds[..n]`, read from `news` at the
/// positions they had in `olds`.
pub open spec fn staged_upto<A>(olds: Seq<Document<A>>, news: Seq<Document<A>>, n: nat) -> Seq<
    ActionObject<A>,
>
    decreases n,
{
    if n == 0 {
        Seq::empty()
    } else {
        staged_upto(olds, news, (n - 1) as nat) + Seq::new(
            staging_positions(olds[n - 1].actions@).len(),
            |j: int| news[n - 1].actions@[staging_positions(olds[n - 1].actions@)[j]],
        )
    }
}

proof fn lemma_staged_upto_frame<A>(
    olds: Seq<Document<A>>,
    news1: Seq<Document<A>>,
    news2: Seq<Document<A>>,
    n: nat,
)
    requires
        forall|i: int| 0 <= i < n ==> news1[i] == news2[i],
    ensures
        staged_upto(olds, news1, n) == staged_upto(olds, news2, n),
    decreases n,
{
    if n > 0 {
        lemma_staged_upto_frame(olds, news1, news2, (n - 1) as nat);
        assert(news1[n - 1] == news2[n - 1]);
    }
}

/// `b` is the document `a` after its staging actions went into commit `cid`.
pub open spec fn doc_committed<A>(a: Document<A>, b: Document<A>, cid: u128) -> bool {
    &&& b.id == a.id
    &&& b.storage_id == a.storage_id
    &&& b.status == a.status
    &&& b.actions@.len() == a.actions@.len()
    &&& forall|k: int|
        0 <= k < a.actions@.len() ==> same_but_commit(a.actions@[k], #[trigger] b.actions@[k])
            && b.actions@[k].commit_id == if a.actions@[k].commit_id is None {
            Some(cid)
        } else {
            a.actions@[k].commit_id
        }
}

/// `f` is the repository `o` after a local commit with the given id, time
/// and comment: every staging action went into it, in document order.
pub open spec fn commit_applied<A: ActionExt>(
    o: Repository<A>,
    f: Repository<A>,
    id: u128,
    dtime: i64,
    comment: Seq<char>,
) -> bool {
    &&& f.ctx == o.ctx
    &&& f.mode == o.mode
    &&& f.documents@.len() == o.documents@.len()
    &&& forall|i: int|
        0 <= i < o.documents@.len() ==> doc_committed(
            o.documents@[i],
            #[trigger] f.documents@[i],
            id,
        )
    &&& f.commit_log.remotes == o.commit_log.remotes
    &&& f.commit_log.index.latest_remote_commit_id == o.commit_log.index.latest_remote_commit_id
    &&& f.commit_log.index.latest_local_commit_id == Some(id)
    &&& f.commit_log.locals@.len() == o.commit_log.locals@.len() + 1
    &&& f.commit_log.locals@.drop_last() == o.commit_log.locals@
    &&& {
        let c = f.commit_log.locals@.last();
        let staged = staged_upto(o.documents@, f.documents@, o.documents@.len());
        &&& c.id == id
        &&& c.uid@ == o.ctx.uid@
        &&& c.dtime == dtime
        &&& c.comment@ == comment
        &&& c.ancestor_id == o.commit_log.index.latest_local_commit_id
        &&& c.remote_signature is None
        &&& c.actions@.len() == staged.len()
        &&& forall|j: int| 0 <= j < staged.len() ==> aob_copy(#[trigger] staged[j], c.actions@[j])
    }
}

impl<A: ActionExt> Repository<A> {
    /// Adds an action as a client does (see `client_add`) and tells the
    /// index of the changed document. When the index refuses, an existing
    /// document is put back as it was (a copy), a created one stays.
    pub fn add_aob<I: IndexExt<A>>(&mut self, new_aob: ActionObject<A>, index: &mut I) -> (res:
        Result<(), String>)
        ensures
            final(self).ctx == old(self).ctx,
            final(self).mode == old(self).mode,
            final(self).commit_log == old(self).commit_log,
            old(self).wf() ==> final(self).wf(),
            match client_add(store_view(old(self).documents@), new_aob) {
                Err(e) => (res matches Err(m) && m@ == e) && final(self).documents@
                    == old(self).documents@,
                Ok(s) => {
                    &&& res is Ok ==> store_view(final(self).documents@) == s
                    &&& res is Err && doc_pos(old(self).documents@, new_aob.object_id) < 0
                        ==> store_view(final(self).documents@) == s
                    &&& res is Err && doc_pos(old(self).documents@, new_aob.object_id) >= 0 ==> {
                        let p = doc_pos(old(self).documents@, new_aob.object_id);
                        &&& final(self).documents@.len() == old(self).documents@.len()
                        &&& forall|i: int|
                            0 <= i < old(self).documents@.len() && i != p
                                ==> #[trigger] final(self).documents@[i] == old(self).documents@[i]
                        &&& doc_copy(old(self).documents@[p], final(self).documents@[p])
                    }
                },
            },
    {
        proof {
            lemma_view_pos(self.documents@, new_aob.object_id);
            lemma_doc_pos(self.documents@, new_aob.object_id);
        }
        match find_doc(&self.documents, new_aob.object_id) {
            Some(p) => {
                proof {
                    assert(store_view(old(self).documents@)[p as int] == doc_view(
                        old(self).documents@[p as int],
                    ));
                }
                let mut d = self.documents.remove(p);
                let backup = d.duplicate();
                let r = d.add_aob(new_aob);
                match r {
                    Err(e) => {
                        self.documents.insert(p, d);
                        proof {
                            assert(self.documents@ =~= old(self).documents@);
                        }
                        Err(e)
                    },
                    Ok(()) => {
                        let s = index.sync_doc(&d);
                        match s {
                            Ok(()) => {
                                self.documents.insert(p, d);
                                proof {
                                    assert(self.documents@ =~= old(self).documents@.update(
                                        p as int,
                                        d,
                                    ));
                                    assert(store_view(self.documents@) =~= store_view(
                                        old(self).documents@,
                                    ).update(p as int, doc_view(d)));
                                }
                                Ok(())
                            },
                            Err(e) => {
                                self.documents.insert(p, backup);
                                proof {
                                    assert(self.documents@ =~= old(self).documents@.update(
                                        p as int,
                                        backup,
                                    ));
                                }
                                Err(e)
                            },
                        }
                    },
                }
            },
            None => {
                if new_aob.is_kind_patch() {
                    return Err(
                        "Patch aob cannot be added to a not existing document. Pull first.".to_string(),
                    );
                }
                let ghost aob = new_aob;
                let c = self.document_create(new_aob);
                proof {
                    assert(c is Ok);
                    assert(store_view(self.documents@) =~= store_view(old(self).documents@).push(
                        (aob.object_id, aob.storage_id@, seq![aob], Status::Okay),
                    )) by {
                        assert(store_view(self.documents@).drop_last() =~= store_view(
                            old(self).documents@,
                        ));
                    }
                }
                let n = self.documents.len();
                index.sync_doc(&self.documents[n - 1])
            },
        }
    }

    /// Tells the index to forget everything, then of every document, in
    /// order; the index's first error is passed on. When all went well the
    /// index has taken in exactly the documents, in their order.
    pub fn reset_index<I: IndexExt<A>>(&self, index: &mut I) -> (res: Result<(), String>)
        ensures
            res is Ok ==> final(index).synced() == self.documents@.map_values(|d: Document<A>| d.id),
    {
        index.reset_docrefs()?;
        let mut k: usize = 0;
        while k < self.documents.len()
            invariant
                k <= self.documents.len(),
                index.synced() == self.documents@.take(k as int).map_values(|d: Document<A>| d.id),
            decreases self.documents.len() - k,
        {
            index.sync_doc(&self.documents[k])?;
            proof {
                assert(self.documents@.take(k + 1).map_values(|d: Document<A>| d.id) =~= self.documents@.take(
                    k as int,
                ).map_values(|d: Document<A>| d.id).push(self.documents@[k as int].id));
            }
            k = k + 1;
        }
        proof {
            assert(self.documents@.take(self.documents.len() as int) =~= self.documents@);
        }
        Ok(())
    }

    /// Copies of every staging action, document by document.
    pub fn get_staging_aobs(&self) -> (r: Vec<ActionObject<A>>)
        ensures
            r@.len() == staged_upto(self.documents@, self.documents@, self.documents@.len()).len(),
            forall|j: int|
                0 <= j < r@.len() ==> aob_copy(
                    #[trigger] staged_upto(self.documents@, self.documents@, self.documents@.len())[j],
                    r@[j],
                ),
    {
        let ghost d = self.documents@;
        let mut r: Vec<ActionObject<A>> = Vec::new();
        let mut k: usize = 0;
        while k < self.documents.len()
            invariant
                d == self.documents@,
                k <= d.len(),
                r@.len() == staged_upto(d, d, k as nat).len(),
                forall|j: int|
                    0 <= j < r@.len() ==> aob_copy(#[trigger] staged_upto(d, d, k as nat)[j], r@[j]),
            decreases d.len() - k,
        {
            let mut v = self.documents[k].get_staging_aobs();
            let ghost r0 = r@;
            let ghost v0 = v@;
            r.append(&mut v);
            proof {
                let st = staged_upto(d, d, (k + 1) as nat);
                assert(st == staged_upto(d, d, k as nat) + Seq::new(
                    staging_positions(d[k as int].actions@).len(),
                    |j: int| d[k as int].actions@[staging_positions(d[k as int].actions@)[j]],
                ));
                assert forall|j: int| 0 <= j < r@.len() implies aob_copy(#[trigger] st[j], r@[j]) by {
                    if j >= r0.len() {
                        let jj = j - r0.len();
                        assert(r@[j] == v0[jj]);
                        assert(st[j] == d[k as int].actions@[staging_positions(d[k as int].actions@)[jj]]);
                    } else {
                        assert(r@[j] == r0[j]);
                        assert(st[j] == staged_upto(d, d, k as nat)[j]);
                    }
                }
            }
            k = k + 1;
        }
        r
    }
}

} // verus!

verus! {

impl<A: ActionExt> Repository<A> {
    /// Whether some document has a staging action.
    fn has_staging_docs(&self) -> (r: bool)
        ensures
            r == any_staging(self.documents@),
    {
        let mut k: usize = 0;
        while k < self.documents.len()
            invariant
                k <= self.documents.len(),
                forall|i: int| 0 <= i < k ==> !has_staging(#[trigger] self.documents@[i]),
            decreases self.documents.len() - k,
        {
            if self.documents[k].check_has_staging_aob() {
                proof {
                    assert(has_staging(self.documents@[k as int]));
                }
                return true;
            }
            k = k + 1;
        }
        false
    }

    /// Commits every staging action into a new local commit with the given
    /// id and time; with nothing to commit it is an error and nothing changes.
    #[verifier::rlimit(40)]
    pub fn commit_with(&mut self, id: u128, dtime: i64, comment: String) -> (res: Result<(), String>)
        ensures
            !any_staging(old(self).documents@) ==> (res matches Err(e) && e@ == "Nothing to commit."@)
                && *final(self) == *old(self),
            any_staging(old(self).documents@) ==> res is Ok && commit_applied(
                *old(self),
                *final(self),
                id,
                dtime,
                comment@,
            ),
            old(self).wf() ==> final(self).wf(),
    {
        if !self.has_staging_docs() {
            return Err("Nothing to commit.".to_string());
        }
        let ghost olds = self.documents@;
        let mut commit = Commit::new(id, self.ctx.uid.clone(), dtime, comment);
        let mut k: usize = 0;
        while k < self.documents.len()
            invariant
                k <= self.documents.len(),
                self.documents@.len() == olds.len(),
                olds == old(self).documents@,
                self.ctx == old(self).ctx,
                self.mode == old(self).mode,
                self.commit_log == old(self).commit_log,
                forall|i: int| 0 <= i < k ==> doc_committed(olds[i], #[trigger] self.documents@[i], id),
                forall|i: int| k <= i < olds.len() ==> #[trigger] self.documents@[i] == olds[i],
                commit.id == id,
                commit.uid@ == old(self).ctx.uid@,
                commit.dtime == dtime,
                commit.comment@ == comment@,
                commit.ancestor_id is None,
                commit.remote_signature is None,
                commit.actions@.len() == staged_upto(olds, self.documents@, k as nat).len(),
                forall|j: int|
                    0 <= j < commit.actions@.len() ==> aob_copy(
                        #[trigger] staged_upto(olds, self.documents@, k as nat)[j],
                        commit.actions@[j],
                    ),
            decreases olds.len() - k,
        {
            let ghost before = self.documents@;
            let ghost c0 = commit.actions@;
            let mut d = self.documents.remove(k);
            d.commit(&mut commit);
            self.documents.insert(k, d);
            proof {
                assert(self.documents@ =~= before.update(k as int, d));
                lemma_staged_upto_frame(olds, before, self.documents@, k as nat);
                let st = staged_upto(olds, self.documents@, (k + 1) as nat);
                let pos = staging_positions(olds[k as int].actions@);
                assert(st == staged_upto(olds, self.documents@, k as nat) + Seq::new(
                    pos.len(),
                    |j: int| d.actions@[pos[j]],
                ));
                assert forall|j: int| 0 <= j < commit.actions@.len() implies aob_copy(
                    #[trigger] st[j],
                    commit.actions@[j],
                ) by {
                    if j >= c0.len() {
                        let jj = j - c0.len();
                        assert(st[j] == d.actions@[pos[jj]]);
                    } else {
                        assert(commit.actions@.take(c0.len() as int)[j] == c0[j]);
                        assert(st[j] == staged_upto(olds, before, k as nat)[j]);
                    }
                }
            }
            k = k + 1;
        }
        let ghost docs_final = self.documents@;
        self.commit_log.add_local_commit(commit);
        proof {
            assert(self.commit_log.locals@.drop_last() =~= old(self).commit_log.locals@);
            if old(self).wf() {
                assert forall|i: int, j: int|
                    0 <= i < j < self.documents@.len() implies #[trigger] self.documents@[i].id
                    != #[trigger] self.documents@[j].id by {
                    assert(self.documents@[i].id == olds[i].id);
                    assert(self.documents@[j].id == olds[j].id);
                }
            }
        }
        Ok(())
    }

    /// Commits every staging action into a new local commit made by the
    /// context's user, with a fresh random id and the current time.
    pub fn commit(&mut self, comment: String) -> (res: Result<(), String>)
        ensures
            !any_staging(old(self).documents@) ==> (res matches Err(e) && e@ == "Nothing to commit."@)
                && *final(self) == *old(self),
            any_staging(old(self).documents@) ==> res is Ok && commit_applied(
                *old(self),
                *final(self),
                final(self).commit_log.locals@.last().id,
                final(self).commit_log.locals@.last().dtime,
                comment@,
            ),
            old(self).wf() ==> final(self).wf(),
    {
        let id = new_uuid();
        let dtime = now_micros();
        self.commit_with(id, dtime, comment)
    }

    /// The local commits.
    pub fn local_commits(&self) -> (r: &Vec<Commit<A>>)
        ensures
            r@ == self.commit_log.locals@,
    {
        &self.commit_log.locals
    }

    /// The remote commits.
    pub fn remote_commits(&self) -> (r: &Vec<Commit<A>>)
        ensures
            r@ == self.commit_log.remotes@,
    {
        &self.commit_log.remotes
    }

    /// Copies of the remote commits after the one with the given id.
    pub fn remote_commits_after(&self, after_id: u128) -> (r: Vec<Commit<A>>)
        ensures
            r@.len() == commits_after(self.commit_log.remotes@, after_id).len(),
            forall|j: int|
                0 <= j < r@.len() ==> commit_copy(
                    #[trigger] commits_after(self.commit_log.remotes@, after_id)[j],
                    r@[j],
                ),
    {
        self.commit_log.load_remotes_after(after_id)
    }

    /// The local commits as they are pushed: copies, the first one moved on
    /// top of the latest remote commit.
    pub fn push_commits(&self) -> (r: Vec<Commit<A>>)
        ensures
            r@.len() == self.commit_log.locals@.len(),
            forall|k: int|
                0 < k < r@.len() ==> commit_copy(#[trigger] self.commit_log.locals@[k], r@[k]),
            r@.len() > 0 ==> commit_copy(
                Commit {
                    ancestor_id: self.commit_log.index.latest_remote_commit_id,
                    ..self.commit_log.locals@[0]
                },
                r@[0],
            ),
    {
        let mut r: Vec<Commit<A>> = Vec::new();
        let mut k: usize = 0;
        while k < self.commit_log.locals.len()
            invariant
                k <= self.commit_log.locals.len(),
                r@.len() == k,
                forall|j: int|
                    0 < j < k ==> commit_copy(#[trigger] self.commit_log.locals@[j], r@[j]),
                k > 0 ==> commit_copy(
                    Commit {
                        ancestor_id: self.commit_log.index.latest_remote_commit_id,
                        ..self.commit_log.locals@[0]
                    },
                    r@[0],
                ),
            decreases self.commit_log.locals.len() - k,
        {
            let mut c = self.commit_log.locals[k].duplicate();
            if k == 0 {
                c.set_ancestor_id(self.commit_log.index.latest_remote_commit_id);
            }
            r.push(c);
            k = k + 1;
        }
        r
    }

    /// Takes in a commit pulled from the server: it becomes the latest
    /// remote commit (it must follow the current one), then its actions are
    /// added one after the other as a client adds them. An error stops the
    /// run.
    pub fn apply_remote_commit<I: IndexExt<A>>(&mut self, commit: Commit<A>, index: &mut I) -> (res:
        Result<(), String>)
        ensures
            final(self).ctx == old(self).ctx,
            final(self).mode == old(self).mode,
            old(self).wf() ==> final(self).wf(),
            commit.ancestor_id != old(self).commit_log.index.latest_remote_commit_id ==> (res matches Err(
                e,
            ) && e@ == "Remote commit ancestor ID error! Please pull"@) && *final(self) == *old(self),
            commit.ancestor_id == old(self).commit_log.index.latest_remote_commit_id ==> {
                &&& final(self).commit_log.remotes@.len() == old(self).commit_log.remotes@.len() + 1
                &&& final(self).commit_log.remotes@.drop_last() == old(self).commit_log.remotes@
                &&& commit_copy(commit, final(self).commit_log.remotes@.last())
                &&& final(self).commit_log.index.latest_remote_commit_id == Some(commit.id)
                &&& final(self).commit_log.locals == old(self).commit_log.locals
                &&& final(self).commit_log.index.latest_local_commit_id
                    == old(self).commit_log.index.latest_local_commit_id
                &&& commit.actions@.len() == 0 ==> res is Ok
                &&& res is Ok ==> client_add_all(store_view(old(self).documents@), commit.actions@)
                    == Some(store_view(final(self).documents@))
                &&& res matches Err(e) ==> exists|k: int, mid: Seq<Document<A>>|
                    0 <= k < commit.actions@.len() && client_add_all(
                        store_view(old(self).documents@),
                        commit.actions@.take(k),
                    ) == Some(store_view(mid)) && #[trigger] add_refused(
                        mid,
                        final(self).documents@,
                        commit.actions@[k],
                        e@,
                    )
            },
    {
        let logged = commit.duplicate();
        self.commit_log.add_remote_commit(logged)?;
        proof {
            assert(self.commit_log.remotes@.drop_last() =~= old(self).commit_log.remotes@);
        }
        let ghost log1 = self.commit_log;
        let ghost store0 = store_view(self.documents@);
        let ghost all = commit.actions@;
        let ghost c0 = commit;
        let mut pulled = commit;
        let mut actions: Vec<ActionObject<A>> = Vec::new();
        std::mem::swap(&mut actions, &mut pulled.actions);
        let n = actions.len();
        let mut k: usize = 0;
        while k < n
            invariant
                n == all.len(),
                k <= n,
                actions@ == all.skip(k as int),
                client_add_all(store0, all.take(k as int)) == Some(store_view(self.documents@)),
                self.commit_log == log1,
                c0 == commit,
                all == commit.actions@,
                commit.ancestor_id == old(self).commit_log.index.latest_remote_commit_id,
                log1.remotes@.len() == old(self).commit_log.remotes@.len() + 1,
                log1.remotes@.drop_last() == old(self).commit_log.remotes@,
                commit_copy(commit, log1.remotes@.last()),
                log1.index.latest_remote_commit_id == Some(commit.id),
                log1.locals == old(self).commit_log.locals,
                log1.index.latest_local_commit_id == old(self).commit_log.index.latest_local_commit_id,
                self.ctx == old(self).ctx,
                self.mode == old(self).mode,
                old(self).wf() ==> self.wf(),
                store0 == store_view(old(self).documents@),
            decreases n - k,
        {
            let aob = actions.remove(0);
            proof {
                assert(aob == all[k as int]);
                assert(all.take(k + 1).drop_last() =~= all.take(k as int));
                assert(actions@ =~= all.skip(k + 1));
            }
            let ghost mid = self.documents@;
            match self.add_aob(aob, index) {
                Ok(()) => {},
                Err(e) => {
                    proof {
                        assert(add_refused(mid, self.documents@, all[k as int], e@));
                    }
                    return Err(e);
                },
            }
            k = k + 1;
        }
        proof {
            assert(all.take(n as int) =~= all);
        }
        Ok(())
    }
}

} // verus!

verus! {

/// A storage object type that document actions are replayed onto.
/// Implemented by the users of the repository.
pub trait ActionPatch<A: ActionExt>: Sized {
    /// Name of the storage the objects live in.
    spec fn storage_name() -> Seq<char>;

    /// The storage the objects live in.
    fn storage_id() -> (r: String)
        ensures
            r@ == Self::storage_name(),
    ;

    /// The object is as it is before any action.
    spec fn is_initial(self) -> bool;

    /// An object before any action.
    fn initial_value() -> (r: Self)
        ensures
            r.is_initial(),
    ;

    /// The actions the object takes.
    spec fn accepts(action: A) -> bool;

    /// Whether the object takes the action.
    fn takes(action: &A) -> (r: bool)
        ensures
            r == Self::accepts(*action),
    ;

    /// The object after the action.
    spec fn patched(self, action: A, dtime: i64, uid: Seq<char>) -> Self;

    /// Applies an action made by `uid` at time `dtime`.
    fn patch(&mut self, action: A, dtime: i64, uid: &str)
        requires
            Self::accepts(action),
        ensures
            *final(self) == old(self).patched(action, dtime, uid@),
    ;
}

/// The action an action object carries.
pub open spec fn payload<A>(k: ActionKind<A>) -> A {
    match k {
        ActionKind::Create(p) => p,
        ActionKind::Patch(p) => p,
    }
}

/// `data` with the actions replayed onto it, in order.
pub open spec fn replay<A: ActionExt, T: ActionPatch<A>>(data: T, aobs: Seq<ActionObject<A>>) -> T
    decreases aobs.len(),
{
    if aobs.len() == 0 {
        data
    } else {
        replay(data, aobs.drop_last()).patched(
            payload(aobs.last().action),
            aobs.last().dtime,
            aobs.last().uid@,
        )
    }
}

/// Where replaying starts for an object that has seen the action `last`:
/// right after it, or from the first action when `last` is the first
/// action or is not found.
pub open spec fn replay_start<A>(actions: Seq<ActionObject<A>>, last: u128) -> int {
    let pos = crate::sync::first_with_id(actions, last);
    if pos <= 0 {
        0
    } else {
        pos + 1
    }
}

/// A storage object kept in line with its document.
#[derive(Debug)]
pub struct DocRef<T, A> {
    pub object_id: u128,
    pub storage_id: String,
    pub data: T,
    /// The last action replayed onto `data`
    pub last_aob_id: u128,
    pub action: std::marker::PhantomData<A>,
}

/// `r` with the document's actions from its replay start replayed onto it.
pub open spec fn synced<A: ActionExt, T: ActionPatch<A>>(
    r: DocRef<T, A>,
    actions: Seq<ActionObject<A>>,
) -> DocRef<T, A> {
    let rest = actions.skip(replay_start(actions, r.last_aob_id));
    DocRef {
        data: replay(r.data, rest),
        last_aob_id: if rest.len() > 0 {
            rest.last().id
        } else {
            r.last_aob_id
        },
        ..r
    }
}

impl<T: ActionPatch<A>, A: ActionExt> DocRef<T, A> {
    /// A fresh object for the document the action belongs to.
    pub fn init_from_aob(aob: &ActionObject<A>) -> (r: Self)
        ensures
            r.object_id == aob.object_id,
            r.storage_id@ == aob.storage_id@,
            r.data.is_initial(),
            r.last_aob_id == aob.id,
    {
        DocRef {
            object_id: aob.object_id,
            storage_id: aob.storage_id.clone(),
            data: T::initial_value(),
            last_aob_id: aob.id,
            action: std::marker::PhantomData,
        }
    }

    /// A new staging patch action on the object's document.
    pub fn create_aob(&self, repository: &Repository<A>, patch: A) -> (res: Result<
        ActionObject<A>,
        String,
    >)
        ensures
            doc_pos(repository.documents@, self.object_id) < 0 ==> (res matches Err(e) && e@
                == "No document by id found"@),
            doc_pos(repository.documents@, self.object_id) >= 0 ==> {
                let d = repository.documents@[doc_pos(repository.documents@, self.object_id)];
                res matches Ok(a) && a.storage_id@ == d.storage_id@ && a.object_id == d.id
                    && a.uid@ == repository.ctx.uid@ && a.commit_id is None && a.parent_action_id
                    == last_id(d.actions@) && a.action == ActionKind::Patch(patch)
                    && a.remote_signature is None
            },
    {
        let doc = repository.get_doc(self.object_id)?;
        doc.create_aob(&repository.ctx, ActionKind::Patch(patch))
    }
}

/// Position of the object with the given id (or `-1`).
pub open spec fn ref_pos<T, A>(s: Seq<DocRef<T, A>>, id: u128) -> int
    decreases s.len(),
{
    if s.len() == 0 {
        -1
    } else {
        let f = ref_pos(s.drop_last(), id);
        if f >= 0 {
            f
        } else if s.last().object_id == id {
            s.len() - 1
        } else {
            -1
        }
    }
}

proof fn lemma_ref_pos<T, A>(s: Seq<DocRef<T, A>>, id: u128)
    ensures
        -1 <= ref_pos(s, id) < s.len(),
        ref_pos(s, id) >= 0 ==> s[ref_pos(s, id)].object_id == id,
        forall|k: int|
            0 <= k < s.len() && (ref_pos(s, id) < 0 || k < ref_pos(s, id)) ==> #[trigger] s[k].object_id
                != id,
    decreases s.len(),
{
    if s.len() > 0 {
        lemma_ref_pos(s.drop_last(), id);
        assert forall|k: int|
            0 <= k < s.len() && (ref_pos(s, id) < 0 || k < ref_pos(s, id)) implies #[trigger] s[k].object_id
            != id by {
            if k < s.len() - 1 {
                assert(s.drop_last()[k] == s[k]);
            }
        }
    }
}

/// The storage objects of one storage.
#[derive(Debug)]
pub struct DocRefVec<T, A> {
    pub doc_refs: Vec<DocRef<T, A>>,
}

fn find_ref<T, A>(refs: &Vec<DocRef<T, A>>, id: u128) -> (r: Option<usize>)
    ensures
        match r {
            Some(k) => k as int == ref_pos(refs@, id) && k < refs.len(),
            None => ref_pos(refs@, id) < 0,
        },
{
    proof {
        lemma_ref_pos(refs@, id);
    }
    let mut k: usize = 0;
    while k < refs.len()
        invariant
            k <= refs.len(),
            forall|j: int| 0 <= j < k ==> #[trigger] refs@[j].object_id != id,
            -1 <= ref_pos(refs@, id) < refs@.len(),
            ref_pos(refs@, id) >= 0 ==> refs@[ref_pos(refs@, id)].object_id == id,
            forall|j: int|
                0 <= j < refs@.len() && (ref_pos(refs@, id) < 0 || j < ref_pos(refs@, id))
                    ==> #[trigger] refs@[j].object_id != id,
        decreases refs.len() - k,
    {
        if refs[k].object_id == id {
            return Some(k);
        }
        k = k + 1;
    }
    None
}

/// Replays the actions from `start` on onto the object.
fn replay_onto<T: ActionPatch<A>, A: ActionExt>(r: &mut DocRef<T, A>, actions: &Vec<ActionObject<A>>, start: usize)
    requires
        start <= actions@.len(),
        forall|k: int| start <= k < actions@.len() ==> T::accepts(payload(#[trigger] actions@[k].action)),
    ensures
        final(r).data == replay(old(r).data, actions@.skip(start as int)),
        final(r).last_aob_id == if start < actions@.len() {
            actions@.last().id
        } else {
            old(r).last_aob_id
        },
        final(r).object_id == old(r).object_id,
        final(r).storage_id == old(r).storage_id,
        final(r).action == old(r).action,
{
    let mut k: usize = start;
    while k < actions.len()
        invariant
            start <= k <= actions@.len(),
            forall|j: int| start <= j < actions@.len() ==> T::accepts(payload(#[trigger] actions@[j].action)),
            r.data == replay(old(r).data, actions@.subrange(start as int, k as int)),
            r.last_aob_id == if start < k {
                actions@[k - 1].id
            } else {
                old(r).last_aob_id
            },
            r.object_id == old(r).object_id,
            r.storage_id == old(r).storage_id,
            r.action == old(r).action,
        decreases actions.len() - k,
    {
        let a = &actions[k];
        let p = match &a.action {
            ActionKind::Create(p) => p.duplicate(),
            ActionKind::Patch(p) => p.duplicate(),
        };
        proof {
            assert(p == payload(actions@[k as int].action));
            assert(actions@.subrange(start as int, k + 1).drop_last() =~= actions@.subrange(
                start as int,
                k as int,
            ));
        }
        r.data.patch(p, a.dtime, a.uid.as_str());
        r.last_aob_id = a.id;
        k = k + 1;
    }
    proof {
        assert(actions@.subrange(start as int, actions@.len() as int) =~= actions@.skip(start as int));
    }
}

/// Every action that syncing the document would replay is one the objects
/// take.
pub open spec fn can_sync_spec<T: ActionPatch<A>, A: ActionExt>(refs: Seq<DocRef<T, A>>, doc: Document<A>) -> bool {
    if ref_pos(refs, doc.id) >= 0 {
        forall|k: int|
            replay_start(doc.actions@, refs[ref_pos(refs, doc.id)].last_aob_id) <= k < doc.actions@.len()
                ==> T::accepts(payload(#[trigger] doc.actions@[k].action))
    } else {
        forall|k: int| 0 <= k < doc.actions@.len() ==> T::accepts(payload(#[trigger] doc.actions@[k].action))
    }
}

/// `new` and `res` are what syncing the document does to the objects
/// `old`: the document's object has the actions it has not seen replayed
/// onto it; a new object is made from the document's first action when
/// there is none.
pub open spec fn sync_spec<T: ActionPatch<A>, A: ActionExt>(
    old: Seq<DocRef<T, A>>,
    new: Seq<DocRef<T, A>>,
    doc: Document<A>,
    res: Result<(), String>,
) -> bool {
    &&& ref_pos(old, doc.id) >= 0 ==> {
        let p = ref_pos(old, doc.id);
        res is Ok && new == old.update(p, synced(old[p], doc.actions@))
    }
    &&& ref_pos(old, doc.id) < 0 ==> {
        let a0 = doc.actions@[0];
        let n = new.last();
        &&& new.len() == old.len() + 1
        &&& new.drop_last() == old
        &&& n.object_id == a0.object_id
        &&& n.storage_id@ == a0.storage_id@
        &&& a0.object_id == doc.id ==> res is Ok && (exists|b: T|
            b.is_initial() && n.data == replay(b, doc.actions@)) && n.last_aob_id
            == doc.actions@.last().id
        &&& a0.object_id != doc.id ==> (res matches Err(e) && e@
            == "Cannot find docref by objectid"@) && n.data.is_initial()
            && n.last_aob_id == a0.id
    }
}

impl<T: ActionPatch<A>, A: ActionExt> DocRefVec<T, A> {
    /// No objects.
    pub fn new() -> (r: Self)
        ensures
            r.doc_refs@.len() == 0,
    {
        DocRefVec { doc_refs: Vec::new() }
    }

    /// Forgets every object.
    pub fn reset(&mut self)
        ensures
            final(self).doc_refs@.len() == 0,
    {
        self.doc_refs = Vec::new();
    }

    /// The object with the given id.
    pub fn get(&self, object_id: u128) -> (res: Result<&DocRef<T, A>, String>)
        ensures
            ref_pos(self.doc_refs@, object_id) >= 0 ==> res == Ok::<&DocRef<T, A>, String>(
                &self.doc_refs@[ref_pos(self.doc_refs@, object_id)],
            ),
            ref_pos(self.doc_refs@, object_id) < 0 ==> (res matches Err(e) && e@
                == "Cannot find docref by objectid"@),
    {
        match find_ref(&self.doc_refs, object_id) {
            Some(k) => Ok(&self.doc_refs[k]),
            None => Err("Cannot find docref by objectid".to_string()),
        }
    }

    /// The object with the given id, to change in place.
    pub fn get_mut(&mut self, object_id: u128) -> (res: Result<&mut DocRef<T, A>, String>)
        ensures
            ({
                let p = ref_pos(old(self).doc_refs@, object_id);
                match res {
                    Ok(r) => {
                        &&& p >= 0
                        &&& *r == old(self).doc_refs@[p]
                        &&& final(self).doc_refs@ == old(self).doc_refs@.update(p, *final(r))
                    },
                    Err(e) => p < 0 && e@ == "Cannot find docref by objectid"@ && *final(self) == *old(self),
                }
            }),
    {
        match find_ref(&self.doc_refs, object_id) {
            Some(k) => Ok(&mut self.doc_refs[k]),
            None => Err("Cannot find docref by objectid".to_string()),
        }
    }

    /// Brings the document's object in line with it: a new object is made
    /// from the document's first action when there is none, then the
    /// actions the object has not seen are replayed onto it.
    pub fn sync_with_doc(&mut self, doc: &Document<A>) -> (res: Result<(), String>)
        requires
            doc.actions@.len() > 0,
            can_sync_spec(old(self).doc_refs@, *doc),
        ensures
            sync_spec(old(self).doc_refs@, final(self).doc_refs@, *doc, res),
    {
        let ghost refs0 = self.doc_refs@;
        if find_ref(&self.doc_refs, doc.id).is_none() {
            let r = DocRef::init_from_aob(&doc.actions[0]);
            self.doc_refs.push(r);
            proof {
                assert(self.doc_refs@.drop_last() =~= refs0);
                lemma_ref_pos(self.doc_refs@, doc.id);
                lemma_ref_pos(refs0, doc.id);
                if doc.actions@[0].object_id == doc.id {
                    assert(ref_pos(self.doc_refs@, doc.id) == refs0.len());
                } else {
                    assert(ref_pos(self.doc_refs@, doc.id) < 0);
                }
            }
        }
        let ghost refs1 = self.doc_refs@;
        let p = match find_ref(&self.doc_refs, doc.id) {
            Some(p) => p,
            None => {
                return Err("Cannot find docref by objectid".to_string());
            },
        };
        let mut r = self.doc_refs.remove(p);
        let ghost data0 = r.data;
        let pos = match crate::sync::find_action(&doc.actions, r.last_aob_id) {
            Some(k) => k,
            None => 0,
        };
        let start = if pos == 0 {
            0
        } else {
            pos + 1
        };
        proof {
            assert(start == replay_start(doc.actions@, r.last_aob_id));
            if ref_pos(refs0, doc.id) < 0 {
                assert(r.last_aob_id == doc.actions@[0].id);
                crate::sync::lemma_first_with_id(doc.actions@, r.last_aob_id);
                assert(start == 0);
            }
        }
        replay_onto(&mut r, &doc.actions, start);
        self.doc_refs.insert(p, r);
        proof {
            assert(self.doc_refs@ =~= refs1.update(p as int, r));
            if ref_pos(refs0, doc.id) < 0 {
                lemma_skip0(doc.actions@);
                assert(data0.is_initial());
                assert(self.doc_refs@.last().data == replay(data0, doc.actions@));
                assert(self.doc_refs@.drop_last() =~= refs0);
            }
        }
        Ok(())
    }

    /// Whether every action that `sync_with_doc` would replay for the
    /// document is one the objects take.
    pub fn can_sync(&self, doc: &Document<A>) -> (r: bool)
        requires
            doc.actions@.len() > 0,
        ensures
            r == can_sync_spec(self.doc_refs@, *doc),
    {
        let start = match find_ref(&self.doc_refs, doc.id) {
            Some(p) => {
                let pos = match crate::sync::find_action(&doc.actions, self.doc_refs[p].last_aob_id) {
                    Some(k) => k,
                    None => 0,
                };
                if pos == 0 {
                    0
                } else {
                    pos + 1
                }
            },
            None => 0,
        };
        let ghost want = if ref_pos(self.doc_refs@, doc.id) >= 0 {
            replay_start(doc.actions@, self.doc_refs@[ref_pos(self.doc_refs@, doc.id)].last_aob_id)
        } else {
            0
        };
        assert(start == want);
        let mut k = start;
        while k < doc.actions.len()
            invariant
                start <= k <= doc.actions@.len(),
                start == want,
                want == if ref_pos(self.doc_refs@, doc.id) >= 0 {
                    replay_start(doc.actions@, self.doc_refs@[ref_pos(self.doc_refs@, doc.id)].last_aob_id)
                } else {
                    0
                },
                forall|j: int| start <= j < k ==> T::accepts(payload(#[trigger] doc.actions@[j].action)),
            decreases doc.actions.len() - k,
        {
            let ok = match &doc.actions[k].action {
                ActionKind::Create(p) => T::takes(p),
                ActionKind::Patch(p) => T::takes(p),
            };
            if !ok {
                return false;
            }
            k = k + 1;
        }
        true
    }

    /// The create action of a new object of this storage, made by `uid`,
    /// with a fresh random action id and object id and the current time.
    pub fn create_init_aob(&self, init_action: A, uid: String) -> (r: ActionObject<A>)
        ensures
            r.storage_id@ == T::storage_name(),
            r.uid@ == uid@,
            r.commit_id is None,
            r.parent_action_id is None,
            r.action == ActionKind::Create(init_action),
            r.remote_signature is None,
    {
        ActionObject {
            id: new_uuid(),
            storage_id: T::storage_id(),
            object_id: new_uuid(),
            uid,
            dtime: now_micros(),
            commit_id: None,
            parent_action_id: None,
            action: ActionKind::Create(init_action),
            remote_signature: None,
        }
    }
}

proof fn lemma_skip0<A>(s: Seq<ActionObject<A>>)
    ensures
        s.skip(0) == s,
{
    assert(s.skip(0) =~= s);
}

} // verus!

verus! {

/// A lowercase hexadecimal digit.
pub open spec fn hex_char(d: int) -> char {
    if d < 10 {
        ((48 + d) as u8) as char
    } else {
        ((87 + d) as u8) as char
    }
}

/// The `k`-th hexadecimal digit of `x`, counted from the least significant.
pub open spec fn nibble(x: nat, k: nat) -> nat
    decreases k,
{
    if k == 0 {
        x % 16
    } else {
        nibble(x / 16, (k - 1) as nat)
    }
}

/// An id in the hyphenated form of a UUID: 32 lowercase hexadecimal
/// digits, most significant first, grouped 8-4-4-4-12.
pub open spec fn uuid_text(id: u128) -> Seq<char> {
    Seq::new(
        36,
        |i: int|
            if i == 8 || i == 13 || i == 18 || i == 23 {
                '-'
            } else {
                let k = if i < 8 {
                    i
                } else if i < 13 {
                    i - 1
                } else if i < 18 {
                    i - 2
                } else if i < 23 {
                    i - 3
                } else {
                    i - 4
                };
                hex_char(nibble(id as nat, (31 - k) as nat) as int)
            },
    )
}

/// An id as a UUID shows it (`Uuid::from_u128(id)` formatted with
/// `Display`, which is the hyphenated lowercase form).
#[verifier::external_body]
fn uuid_string(id: u128) -> (r: String)
    ensures
        r@ == uuid_text(id),
{
    uuid::Uuid::from_u128(id).to_string()
}

/// The text of the UTC date and time `micros` microseconds after the Unix
/// epoch, as chrono shows it (`DateTime<Utc>::naive_local().to_string()`;
/// the empty text when chrono has no such time).
pub uninterp spec fn utc_time_text(micros: i64) -> Seq<char>;

/// Calls `DateTime::from_timestamp_micros` and shows the UTC date and time
/// with `naive_local().to_string()`; the result is named `utc_time_text`
/// (on a `DateTime<Utc>` the "local" time is the UTC time, so it depends on
/// the argument alone).
#[verifier::external_body]
fn local_time_text(dtime: i64) -> (r: String)
    ensures
        r@ == utc_time_text(dtime),
{
    match chrono::DateTime::from_timestamp_micros(dtime) {
        Some(t) => t.naive_local().to_string(),
        None => String::new(),
    }
}

/// The message an action kind is shown by.
pub open spec fn kind_text<A: ActionExt>(k: ActionKind<A>) -> Seq<char> {
    match k {
        ActionKind::Create(a) => "CREATE: "@ + a.display_text(),
        ActionKind::Patch(a) => "PATCH: "@ + a.display_text(),
    }
}

/// The mark of an action in a history: staging, local or remote.
pub open spec fn aob_mark<A>(a: ActionObject<A>) -> Seq<char> {
    if a.commit_id is None {
        "S"@
    } else if a.remote_signature is None {
        "L"@
    } else {
        "R"@
    }
}

/// One action of a history; `time` is how its time is shown.
pub open spec fn history_line<A: ActionExt>(a: ActionObject<A>, time: Seq<char>) -> Seq<char> {
    "["@ + aob_mark(a) + "] "@ + kind_text(a.action) + "\n    "@ + time + " - "@ + a.uid@ + "\n\n"@
}

/// The lines of the actions, `times[k]` showing the time of the `k`-th.
pub open spec fn history(actions: Seq<ActionObject<impl ActionExt>>, times: Seq<Seq<char>>) -> Seq<char>
    decreases actions.len(),
{
    if actions.len() == 0 {
        Seq::empty()
    } else {
        history(actions.drop_last(), times.take(actions.len() - 1)) + history_line(
            actions.last(),
            times[actions.len() - 1],
        )
    }
}

fn push_str(s: &mut String, t: &str)
    ensures
        final(s)@ == old(s)@ + t@,
{
    s.append(t);
}

/// The text of one action of a history.
fn history_entry<A: ActionExt>(a: &ActionObject<A>, time: &str) -> (r: String)
    ensures
        r@ == history_line(*a, time@),
{
    let mark = if a.is_staging() {
        "S"
    } else if a.is_local() {
        "L"
    } else {
        "R"
    };
    let msg = match &a.action {
        ActionKind::Create(x) => {
            let mut m = "CREATE: ".to_string();
            let d = x.display();
            push_str(&mut m, d.as_str());
            m
        },
        ActionKind::Patch(x) => {
            let mut m = "PATCH: ".to_string();
            let d = x.display();
            push_str(&mut m, d.as_str());
            m
        },
    };
    let mut res = "[".to_string();
    push_str(&mut res, mark);
    push_str(&mut res, "] ");
    push_str(&mut res, msg.as_str());
    push_str(&mut res, "\n    ");
    push_str(&mut res, time);
    push_str(&mut res, " - ");
    push_str(&mut res, a.uid.as_str());
    push_str(&mut res, "\n\n");
    proof {
        assert(mark@ == aob_mark(*a)) by {
            reveal_strlit("S");
            reveal_strlit("L");
            reveal_strlit("R");
        }
        assert(res@ =~= history_line(*a, time@));
    }
    res
}

/// A document as text: its ids, its status and its history, the time of
/// the `k`-th action shown as `times[k]`.
pub open spec fn document_text<A: ActionExt>(d: Document<A>, times: Seq<Seq<char>>) -> Seq<char> {
    "ID: "@ + uuid_text(d.id) + "\n"@ + "Storage ID: "@ + d.storage_id@ + "\n"@ + "Status: "@ + (if d.status
        == Status::Okay {
        "Ok"@
    } else {
        "Conflict"@
    }) + "\n\n"@ + "History:\n----------------------\n\n"@ + history(d.actions@, times)
}

impl<A: ActionExt> Document<A> {
    /// The document as text: its ids, its status and its history, the
    /// time of the `k`-th action shown as `times[k]`.
    pub fn print_with(&self, times: &Vec<String>) -> (r: String)
        requires
            times@.len() == self.actions@.len(),
        ensures
            r@ == document_text(*self, times@.map_values(|t: String| t@)),
    {
        let mut res = "ID: ".to_string();
        let id = uuid_string(self.id);
        push_str(&mut res, id.as_str());
        push_str(&mut res, "\n");
        push_str(&mut res, "Storage ID: ");
        push_str(&mut res, self.storage_id.as_str());
        push_str(&mut res, "\n");
        push_str(&mut res, "Status: ");
        match self.status {
            Status::Okay => push_str(&mut res, "Ok"),
            Status::Conflict => push_str(&mut res, "Conflict"),
        }
        push_str(&mut res, "\n\n");
        push_str(&mut res, "History:\n----------------------\n\n");
        let ghost head = res@;
        let ghost tv = times@.map_values(|t: String| t@);
        let mut k: usize = 0;
        while k < self.actions.len()
            invariant
                k <= self.actions@.len(),
                times@.len() == self.actions@.len(),
                tv == times@.map_values(|t: String| t@),
                res@ == head + history(self.actions@.take(k as int), tv.take(k as int)),
            decreases self.actions.len() - k,
        {
            let line = history_entry(&self.actions[k], times[k].as_str());
            let ghost before = res@;
            push_str(&mut res, line.as_str());
            proof {
                assert(self.actions@.take(k + 1).drop_last() =~= self.actions@.take(k as int));
                assert(tv.take(k + 1).take(k as int) =~= tv.take(k as int));
                assert(self.actions@.take(k + 1).last() == self.actions@[k as int]);
                assert(tv.take(k + 1)[k as int] == times@[k as int]@);
            }
            k = k + 1;
        }
        proof {
            assert(self.actions@.take(self.actions@.len() as int) =~= self.actions@);
            assert(tv.take(self.actions@.len() as int) =~= tv);
        }
        res
    }

    /// The document as text, each action's time shown as its UTC date and
    /// time.
    pub fn print(&self) -> (r: String)
        ensures
            r@ == document_text(*self, self.actions@.map_values(|a: ActionObject<A>| utc_time_text(a.dtime))),
    {
        let mut times: Vec<String> = Vec::new();
        let mut k: usize = 0;
        while k < self.actions.len()
            invariant
                k <= self.actions@.len(),
                times@.map_values(|t: String| t@) =~= self.actions@.take(k as int).map_values(
                    |a: ActionObject<A>| utc_time_text(a.dtime),
                ),
            decreases self.actions.len() - k,
        {
            let t = local_time_text(self.actions[k].dtime);
            times.push(t);
            proof {
                assert(self.actions@.take(k + 1).map_values(|a: ActionObject<A>| utc_time_text(a.dtime))
                    =~= self.actions@.take(k as int).map_values(|a: ActionObject<A>| utc_time_text(a.dtime)).push(
                    utc_time_text(self.actions@[k as int].dtime),
                ));
            }
            k = k + 1;
        }
        proof {
            assert(self.actions@.take(self.actions.len() as int) =~= self.actions@);
        }
        self.print_with(&times)
    }
}

} // verus!
