//! Repository synchronisation: documents as chains of action objects, local
//! commits, the server-side merge of pushed commits, and the index that
//! replays document actions onto storage objects.
//!
//! Ids (`Uuid` in the wire format) are `u128` values here, and times
//! (`DateTime<Utc>`) are microseconds since the Unix epoch.

use vstd::prelude::*;

use crate::parser::opt_view;

verus! {

/// Action trait for actionable types: implemented types can be used as
/// storage patch objects.
pub trait ActionExt: Clone {
    /// The message the action is shown by.
    spec fn display_text(&self) -> Seq<char>;

    /// Human readable display message of the action.
    fn display(&self) -> (r: String)
        ensures
            r@ == self.display_text(),
    ;

    /// An equal copy of the action.
    fn duplicate(&self) -> (r: Self)
        ensures
            r == *self,
    ;
}

/// Generic action representation.
#[derive(Debug)]
pub enum ActionKind<A> {
    /// Create a new empty object
    Create(A),
    /// Patch object with action A
    Patch(A),
}

/// Status of a document's action chain.
#[derive(Debug, Clone, Copy, PartialEq, Eq, Structural)]
pub enum Status {
    Okay,
    Conflict,
}

/// An action applied to a storage object.
#[derive(Debug)]
pub struct ActionObject<A> {
    /// Unique id
    pub id: u128,
    /// Storage the object lives in
    pub storage_id: String,
    /// The object the action applies to
    pub object_id: u128,
    /// User id
    pub uid: String,
    /// Time of the action
    pub dtime: i64,
    /// Commit the action belongs to (`None` while staging)
    pub commit_id: Option<u128>,
    /// The previous action of the same object
    pub parent_action_id: Option<u128>,
    /// Create or Patch
    pub action: ActionKind<A>,
    /// Signature given by the server
    pub remote_signature: Option<String>,
}

/// `b` is a copy of `a`.
pub open spec fn kind_copy<A: ActionExt>(a: ActionKind<A>, b: ActionKind<A>) -> bool {
    b == a
}

/// `b` is a copy of `a`: every field equal, the payload cloned.
pub open spec fn aob_copy<A: ActionExt>(a: ActionObject<A>, b: ActionObject<A>) -> bool {
    &&& b.id == a.id
    &&& b.storage_id@ == a.storage_id@
    &&& b.object_id == a.object_id
    &&& b.uid@ == a.uid@
    &&& b.dtime == a.dtime
    &&& b.commit_id == a.commit_id
    &&& b.parent_action_id == a.parent_action_id
    &&& kind_copy(a.action, b.action)
    &&& opt_view(b.remote_signature) == opt_view(a.remote_signature)
}

impl<A: ActionExt> ActionKind<A> {
    /// A copy of the action kind.
    pub fn duplicate(&self) -> (r: Self)
        ensures
            kind_copy(*self, r),
    {
        match self {
            ActionKind::Create(a) => ActionKind::Create(a.duplicate()),
            ActionKind::Patch(a) => ActionKind::Patch(a.duplicate()),
        }
    }
}

fn clone_opt_string(o: &Option<String>) -> (r: Option<String>)
    ensures
        opt_view(r) == opt_view(*o),
{
    match o {
        Some(s) => Some(s.clone()),
        None => None,
    }
}

impl<A: ActionExt> ActionObject<A> {
    /// A copy of the action object.
    pub fn duplicate(&self) -> (r: Self)
        ensures
            aob_copy(*self, r),
    {
        ActionObject {
            id: self.id,
            storage_id: self.storage_id.clone(),
            object_id: self.object_id,
            uid: self.uid.clone(),
            dtime: self.dtime,
            commit_id: self.commit_id,
            parent_action_id: self.parent_action_id,
            action: self.action.duplicate(),
            remote_signature: clone_opt_string(&self.remote_signature),
        }
    }

    /// The action patches an existing object.
    pub fn is_kind_patch(&self) -> (r: bool)
        ensures
            r == self.action is Patch,
    {
        if let ActionKind::Patch(_) = self.action {
            return true;
        }
        false
    }

    /// The action creates an object.
    pub fn is_kind_create(&self) -> (r: bool)
        ensures
            r == self.action is Create,
    {
        if let ActionKind::Create(_) = self.action {
            return true;
        }
        false
    }

    /// Not signed by the server yet.
    pub fn is_local(&self) -> (r: bool)
        ensures
            r == self.remote_signature is None,
    {
        self.remote_signature.is_none()
    }

    /// Signed by the server.
    pub fn is_remote(&self) -> (r: bool)
        ensures
            r == self.remote_signature is Some,
    {
        !self.is_local()
    }

    /// Not part of any commit yet.
    pub fn is_staging(&self) -> (r: bool)
        ensures
            r == self.commit_id is None,
    {
        self.commit_id.is_none()
    }

    /// Adds a staging action to a local commit: it gets the commit's id and a
    /// copy of it is appended to the commit. A committed action is left alone.
    pub fn be_commited(&mut self, commit: &mut Commit<A>)
        ensures
            old(self).commit_id is None ==> {
                &&& final(self).commit_id == Some(old(commit).id)
                &&& final(commit).actions@.len() == old(commit).actions@.len() + 1
                &&& final(commit).actions@.take(old(commit).actions@.len() as int)
                    == old(commit).actions@
                &&& aob_copy(*final(self), final(commit).actions@.last())
            },
            old(self).commit_id is Some ==> final(commit).actions@ == old(commit).actions@
                && final(self).commit_id == old(self).commit_id,
            same_but_commit(*old(self), *final(self)),
            final(commit).id == old(commit).id,
            final(commit).uid == old(commit).uid,
            final(commit).dtime == old(commit).dtime,
            final(commit).comment == old(commit).comment,
            final(commit).ancestor_id == old(commit).ancestor_id,
            final(commit).remote_signature == old(commit).remote_signature,
    {
        if self.is_staging() {
            self.commit_id = Some(commit.id);
            commit.add_action_object(self);
            proof {
                assert(commit.actions@.take(old(commit).actions@.len() as int) =~= old(commit).actions@);
            }
        }
    }

    /// The server's signature on this action equals `signature`, the
    /// signature computed for it.
    pub fn has_valid_signature(&self, signature: &String) -> (r: bool)
        ensures
            r == (opt_view(self.remote_signature) == Some(signature@)),
    {
        match &self.remote_signature {
            Some(s) => crate::text::str_eq(s.as_str(), signature.as_str()),
            None => false,
        }
    }

    /// Signs the action as the server: `signature` is the signature computed
    /// for the action without a signature.
    pub fn remote_sign(&mut self, signature: String)
        ensures
            *final(self) == (ActionObject { remote_signature: Some(signature), ..*old(self) }),
    {
        self.remote_signature = Some(signature);
    }

    /// Sets the parent action id (done by clients only).
    pub fn reset_parent_action_id(&mut self, parent_action_id: Option<u128>)
        ensures
            *final(self) == (ActionObject { parent_action_id, ..*old(self) }),
    {
        self.parent_action_id = parent_action_id;
    }

    /// Sets the action's time to `now` (done when a remote update occurs).
    pub fn reset_dtime(&mut self, now: i64)
        ensures
            *final(self) == (ActionObject { dtime: now, ..*old(self) }),
    {
        self.dtime = now;
    }
}

/// `b` is `a` with at most its commit id changed.
pub open spec fn same_but_commit<A>(a: ActionObject<A>, b: ActionObject<A>) -> bool {
    &&& b.id == a.id
    &&& b.storage_id == a.storage_id
    &&& b.object_id == a.object_id
    &&& b.uid == a.uid
    &&& b.dtime == a.dtime
    &&& b.parent_action_id == a.parent_action_id
    &&& b.action == a.action
    &&& b.remote_signature == a.remote_signature
}

/// `b` is `a` with at most its signature changed.
pub open spec fn same_but_signature<A>(a: ActionObject<A>, b: ActionObject<A>) -> bool {
    &&& b.id == a.id
    &&& b.storage_id == a.storage_id
    &&& b.object_id == a.object_id
    &&& b.uid == a.uid
    &&& b.dtime == a.dtime
    &&& b.commit_id == a.commit_id
    &&& b.parent_action_id == a.parent_action_id
    &&& b.action == a.action
}

/// A set of actions committed together.
#[derive(Debug)]
pub struct Commit<A> {
    pub id: u128,
    pub uid: String,
    pub dtime: i64,
    pub comment: String,
    pub ancestor_id: Option<u128>,
    /// The committed actions (serialised one by one on the wire)
    pub actions: Vec<ActionObject<A>>,
    /// Signature given by the server
    pub remote_signature: Option<String>,
}

impl<A: ActionExt> Commit<A> {
    /// An empty local commit.
    pub fn new(id: u128, uid: String, dtime: i64, comment: String) -> (r: Self)
        ensures
            r.id == id,
            r.uid@ == uid@,
            r.dtime == dtime,
            r.comment@ == comment@,
            r.ancestor_id is None,
            r.actions@.len() == 0,
            r.remote_signature is None,
    {
        Commit {
            id,
            uid,
            dtime,
            comment,
            ancestor_id: None,
            actions: Vec::new(),
            remote_signature: None,
        }
    }

    /// Appends a copy of the action object.
    pub fn add_action_object(&mut self, aob: &ActionObject<A>)
        ensures
            final(self).actions@.len() == old(self).actions@.len() + 1,
            final(self).actions@.take(old(self).actions@.len() as int) == old(self).actions@,
            aob_copy(*aob, final(self).actions@.last()),
            final(self).id == old(self).id,
            final(self).uid == old(self).uid,
            final(self).dtime == old(self).dtime,
            final(self).comment == old(self).comment,
            final(self).ancestor_id == old(self).ancestor_id,
            final(self).remote_signature == old(self).remote_signature,
    {
        let copy = aob.duplicate();
        self.actions.push(copy);
        proof {
            assert(self.actions@.take(old(self).actions@.len() as int) =~= old(self).actions@);
        }
    }

    /// Sets the commit's time.
    pub fn set_dtime(&mut self, now: i64)
        ensures
            *final(self) == (Commit { dtime: now, ..*old(self) }),
    {
        self.dtime = now;
    }

    /// Sets the commit this one follows.
    pub fn set_ancestor_id(&mut self, ancestor_id: Option<u128>)
        ensures
            *final(self) == (Commit { ancestor_id, ..*old(self) }),
    {
        self.ancestor_id = ancestor_id;
    }

    /// Signed by the server.
    pub fn is_remote(&self) -> (r: bool)
        ensures
            r == self.remote_signature is Some,
    {
        self.remote_signature.is_some()
    }

    /// Not signed by the server.
    pub fn is_local(&self) -> (r: bool)
        ensures
            r == self.remote_signature is None,
    {
        !self.is_remote()
    }

    /// Signs the commit as the server with the signature computed for it;
    /// a commit that already has a signature is refused.
    pub fn add_remote_signature(&mut self, signature: String) -> (res: Result<(), String>)
        ensures
            old(self).remote_signature is Some ==> (res matches Err(e) && e@
                == "Commit already has remote signature!"@) && *final(self) == *old(self),
            old(self).remote_signature is None ==> res is Ok && *final(self) == (Commit {
                remote_signature: Some(signature),
                ..*old(self)
            }),
    {
        if self.is_remote() {
            return Err("Commit already has remote signature!".to_string());
        }
        self.remote_signature = Some(signature);
        Ok(())
    }

    /// The commit carries `signature`, the signature computed for it.
    pub fn has_valid_remote_signature(&self, signature: &String) -> (r: Result<bool, String>)
        ensures
            r == Ok::<bool, String>(opt_view(self.remote_signature) == Some(signature@)),
    {
        match &self.remote_signature {
            Some(s) => Ok(crate::text::str_eq(s.as_str(), signature.as_str())),
            None => Ok(false),
        }
    }
}


/// Where the actions of a storage object are kept.
#[derive(Debug)]
pub struct Context {
    pub db_root_path: String,
    pub uid: String,
}

impl Context {
    /// A context for the given database root and user id.
    pub fn init(db_root_path: String, uid: String) -> (r: Self)
        ensures
            r.db_root_path@ == db_root_path@,
            r.uid@ == uid@,
    {
        Self { db_root_path, uid }
    }
}

/// A storage object: its id, its storage, and the chain of its actions.
#[derive(Debug)]
pub struct Document<A> {
    pub id: u128,
    pub storage_id: String,
    pub actions: Vec<ActionObject<A>>,
    pub status: Status,
}

/// Position of the first action with the given id (or `-1`).
pub open spec fn first_with_id<A>(s: Seq<ActionObject<A>>, id: u128) -> int
    decreases s.len(),
{
    if s.len() == 0 {
        -1
    } else {
        let f = first_with_id(s.drop_last(), id);
        if f >= 0 {
            f
        } else if s.last().id == id {
            s.len() - 1
        } else {
            -1
        }
    }
}

pub(crate) proof fn lemma_first_with_id<A>(s: Seq<ActionObject<A>>, id: u128)
    ensures
        -1 <= first_with_id(s, id) < s.len(),
        first_with_id(s, id) >= 0 ==> s[first_with_id(s, id)].id == id,
        forall|k: int| 0 <= k < s.len() && (first_with_id(s, id) < 0 || k < first_with_id(s, id))
            ==> #[trigger] s[k].id != id,
    decreases s.len(),
{
    if s.len() > 0 {
        lemma_first_with_id(s.drop_last(), id);
        assert forall|k: int| 0 <= k < s.len() && (first_with_id(s, id) < 0 || k < first_with_id(
            s,
            id,
        )) implies #[trigger] s[k].id != id by {
            if k < s.len() - 1 {
                assert(s.drop_last()[k] == s[k]);
            }
        }
    }
}

/// Finds the first action with the given id.
pub(crate) fn find_action<A>(actions: &Vec<ActionObject<A>>, id: u128) -> (r: Option<usize>)
    ensures
        match r {
            Some(k) => k as int == first_with_id(actions@, id) && k < actions.len(),
            None => first_with_id(actions@, id) < 0,
        },
{
    proof {
        lemma_first_with_id(actions@, id);
    }
    let mut k: usize = 0;
    while k < actions.len()
        invariant
            k <= actions.len(),
            forall|j: int| 0 <= j < k ==> #[trigger] actions@[j].id != id,
            -1 <= first_with_id(actions@, id) < actions@.len(),
            first_with_id(actions@, id) >= 0 ==> actions@[first_with_id(actions@, id)].id == id,
            forall|j: int|
                0 <= j < actions@.len() && (first_with_id(actions@, id) < 0 || j < first_with_id(
                    actions@,
                    id,
                )) ==> #[trigger] actions@[j].id != id,
        decreases actions.len() - k,
    {
        if actions[k].id == id {
            return Some(k);
        }
        k = k + 1;
    }
    None
}

/// `Conflict` when some action has a parent id, else `Okay` (the chain check
/// compares every parent with "no parent").
pub open spec fn computed_status<A>(s: Seq<ActionObject<A>>) -> Status {
    if exists|k: int| 0 <= k < s.len() && (#[trigger] s[k]).parent_action_id is Some {
        Status::Conflict
    } else {
        Status::Okay
    }
}

/// What `add_aob` does with the actions of a document: an action whose id is
/// already there leaves them as they are; otherwise it goes right after its
/// parent.
pub open spec fn add_aob_spec<A>(s: Seq<ActionObject<A>>, new_aob: ActionObject<A>) -> Result<
    Option<Seq<ActionObject<A>>>,
    Seq<char>,
> {
    if first_with_id(s, new_aob.id) >= 0 {
        Ok(None)
    } else {
        match new_aob.parent_action_id {
            Some(p) => if first_with_id(s, p) >= 0 {
                Ok(Some(s.insert(first_with_id(s, p) + 1, new_aob)))
            } else {
                Err("Cannot insert aob; parent aob not found"@)
            },
            None => Err("Cannot insert aob; parent aob not found"@),
        }
    }
}

/// Each action's parent is the action before it, and the first has none.
pub open spec fn is_chain<A>(s: Seq<ActionObject<A>>) -> bool {
    forall|k: int|
        0 <= k < s.len() ==> (#[trigger] s[k]).parent_action_id == if k == 0 {
            None
        } else {
            Some(s[k - 1].id)
        }
}

/// The id of the last action, if any.
pub open spec fn last_id<A>(s: Seq<ActionObject<A>>) -> Option<u128> {
    if s.len() == 0 {
        None
    } else {
        Some(s.last().id)
    }
}

impl<A: ActionExt> Document<A> {
    /// Conflict status of the document.
    pub fn has_conflict(&self) -> (r: bool)
        ensures
            r == (self.status == Status::Conflict),
    {
        match self.status {
            Status::Conflict => true,
            _ => false,
        }
    }

    /// Recomputes the status from the action chain.
    pub fn check_status(&mut self)
        ensures
            final(self).status == computed_status(old(self).actions@),
            final(self).actions == old(self).actions,
            final(self).id == old(self).id,
            final(self).storage_id == old(self).storage_id,
    {
        let mut status = Status::Okay;
        let previous_aob_id: Option<u128> = None;
        let mut k: usize = 0;
        while k < self.actions.len()
            invariant
                k <= self.actions.len(),
                previous_aob_id is None,
                self.actions == old(self).actions,
                self.id == old(self).id,
                self.storage_id == old(self).storage_id,
                status == if exists|j: int|
                    0 <= j < k && (#[trigger] self.actions@[j]).parent_action_id is Some {
                    Status::Conflict
                } else {
                    Status::Okay
                },
            decreases self.actions.len() - k,
        {
            let differs = match (self.actions[k].parent_action_id, previous_aob_id) {
                (Some(a), Some(b)) => a != b,
                (None, None) => false,
                _ => true,
            };
            if differs {
                status = Status::Conflict;
            }
            proof {
                let pr = |j: int| 0 <= j < k + 1 && self.actions@[j].parent_action_id is Some;
                if self.actions@[k as int].parent_action_id is Some {
                    assert(pr(k as int));
                } else {
                    assert forall|j: int| pr(j) implies 0 <= j < k && (
                    #[trigger] self.actions@[j]).parent_action_id is Some by {}
                }
            }
            k = k + 1;
        }
        self.status = status;
    }

    /// Whether some action is still staging (in no commit).
    pub fn check_has_staging_aob(&self) -> (r: bool)
        ensures
            r == exists|k: int| 0 <= k < self.actions@.len() && (
            #[trigger] self.actions@[k]).commit_id is None,
    {
        let mut res = false;
        let mut k: usize = 0;
        while k < self.actions.len()
            invariant
                k <= self.actions.len(),
                res == exists|j: int| 0 <= j < k && (#[trigger] self.actions@[j]).commit_id is None,
            decreases self.actions.len() - k,
        {
            if self.actions[k].is_staging() {
                res = true;
            }
            k = k + 1;
        }
        res
    }

    /// Adds an action: one whose id is already in the document leaves it as
    /// it is; otherwise it is inserted right after its parent action and the
    /// status is recomputed. Without its parent in the document it is an
    /// error and the document is unchanged.
    pub fn add_aob(&mut self, new_aob: ActionObject<A>) -> (res: Result<(), String>)
        ensures
            final(self).id == old(self).id,
            final(self).storage_id == old(self).storage_id,
            match add_aob_spec(old(self).actions@, new_aob) {
                Ok(None) => res is Ok && final(self).actions == old(self).actions && final(self).status == old(self).status,
                Ok(Some(s)) => res is Ok && final(self).actions@ == s && final(self).status
                    == computed_status(s),
                Err(e) => (res matches Err(m) && m@ == e) && final(self).actions == old(self).actions && final(self).status == old(self).status,
            },
    {
        if find_action(&self.actions, new_aob.id).is_some() {
            return Ok(());
        }
        match new_aob.parent_action_id {
            Some(p) => match find_action(&self.actions, p) {
                Some(position) => {
                    self.actions.insert(position + 1, new_aob);
                    self.check_status();
                    Ok(())
                },
                None => Err("Cannot insert aob; parent aob not found".to_string()),
            },
            None => Err("Cannot insert aob; parent aob not found".to_string()),
        }
    }

    /// Appends an action as the server does: only signed actions are taken,
    /// and only when their parent is the document's last action.
    pub fn add_aob_server_side(&mut self, new_aob: ActionObject<A>) -> (res: Result<(), String>)
        ensures
            final(self).id == old(self).id,
            final(self).storage_id == old(self).storage_id,
            final(self).status == old(self).status,
            new_aob.remote_signature is None ==> (res matches Err(e) && e@
                == "Only remote aob can be append as remote procedure"@) && final(self).actions
                == old(self).actions,
            new_aob.remote_signature is Some && new_aob.parent_action_id != last_id(
                old(self).actions@,
            ) ==> (res matches Err(e) && e@ == "Cannot insert aob; parent aob not found"@) && final(self).actions == old(self).actions,
            new_aob.remote_signature is Some && new_aob.parent_action_id == last_id(
                old(self).actions@,
            ) ==> res is Ok && final(self).actions@ == old(self).actions@.push(new_aob),
    {
        if new_aob.is_local() {
            return Err("Only remote aob can be append as remote procedure".to_string());
        }
        let last_aob_id = if self.actions.len() == 0 {
            None
        } else {
            Some(self.actions[self.actions.len() - 1].id)
        };
        if new_aob.parent_action_id == last_aob_id {
            self.actions.push(new_aob);
            Ok(())
        } else {
            Err("Cannot insert aob; parent aob not found".to_string())
        }
    }
}


/// Positions of the staging actions (those in no commit), in order.
pub open spec fn staging_positions<A>(s: Seq<ActionObject<A>>) -> Seq<int>
    decreases s.len(),
{
    if s.len() == 0 {
        Seq::empty()
    } else {
        let p = staging_positions(s.drop_last());
        if s.last().commit_id is None {
            p.push(s.len() - 1)
        } else {
            p
        }
    }
}

proof fn lemma_staging_positions<A>(s: Seq<ActionObject<A>>)
    ensures
        forall|j: int|
            0 <= j < staging_positions(s).len() ==> 0 <= #[trigger] staging_positions(s)[j]
                < s.len() && s[staging_positions(s)[j]].commit_id is None,
    decreases s.len(),
{
    if s.len() > 0 {
        lemma_staging_positions(s.drop_last());
    }
}

/// The actions whose mask bit is set, in order.
pub open spec fn masked<A>(s: Seq<ActionObject<A>>, mask: Seq<bool>) -> Seq<ActionObject<A>>
    decreases s.len(),
{
    if s.len() == 0 || mask.len() < s.len() {
        Seq::empty()
    } else {
        let r = masked(s.drop_last(), mask.take(s.len() - 1));
        if mask[s.len() - 1] {
            r.push(s.last())
        } else {
            r
        }
    }
}

/// Keeps the actions whose mask bit is set.
fn retain_masked<A>(v: &mut Vec<ActionObject<A>>, mask: &Vec<bool>)
    requires
        mask@.len() == old(v)@.len(),
    ensures
        final(v)@ == masked(old(v)@, mask@),
{
    let ghost orig = v@;
    let mut rest: Vec<ActionObject<A>> = Vec::new();
    std::mem::swap(&mut rest, v);
    let mut i: usize = 0;
    let n = rest.len();
    proof {
        assert(orig.skip(0) =~= orig);
        assert(mask@.take(0) =~= Seq::<bool>::empty());
    }
    while i < n
        invariant
            n == orig.len(),
            mask@.len() == n,
            i <= n,
            rest@ == orig.skip(i as int),
            v@ == masked(orig.take(i as int), mask@.take(i as int)),
        decreases n - i,
    {
        let a = rest.remove(0);
        proof {
            assert(orig.take(i + 1).drop_last() =~= orig.take(i as int));
            assert(mask@.take(i + 1).take(i as int) =~= mask@.take(i as int));
            assert(orig.take(i + 1).last() == a);
            assert(rest@ =~= orig.skip(i + 1));
        }
        if mask[i] {
            v.push(a);
        }
        i = i + 1;
    }
    proof {
        assert(orig.take(n as int) =~= orig);
        assert(mask@.take(n as int) =~= mask@);
    }
}

/// Whether the action created the document as the server signed it.
pub open spec fn server_accepts<A>(s: Seq<ActionObject<A>>, aob: ActionObject<A>) -> bool {
    aob.remote_signature is Some && aob.parent_action_id == last_id(s)
}

/// A fresh random id (`Uuid::new_v4`), as a `u128`. Nothing is stated of it.
#[verifier::external_body]
pub(crate) fn new_uuid() -> u128 {
    uuid::Uuid::new_v4().as_u128()
}

/// The current time (`Utc::now`), in microseconds since the Unix epoch.
/// Nothing is stated of it.
#[verifier::external_body]
pub(crate) fn now_micros() -> i64 {
    chrono::Utc::now().timestamp_micros()
}

impl<A: ActionExt> Document<A> {
    /// Copies of the staging actions, in order.
    pub fn get_staging_aobs(&self) -> (r: Vec<ActionObject<A>>)
        ensures
            r@.len() == staging_positions(self.actions@).len(),
            forall|j: int|
                0 <= j < r@.len() ==> aob_copy(
                    self.actions@[#[trigger] staging_positions(self.actions@)[j]],
                    r@[j],
                ),
    {
        let mut r: Vec<ActionObject<A>> = Vec::new();
        let mut k: usize = 0;
        while k < self.actions.len()
            invariant
                k <= self.actions.len(),
                r@.len() == staging_positions(self.actions@.take(k as int)).len(),
                forall|j: int|
                    0 <= j < r@.len() ==> aob_copy(
                        self.actions@[#[trigger] staging_positions(self.actions@.take(k as int))[j]],
                        r@[j],
                    ),
            decreases self.actions.len() - k,
        {
            proof {
                assert(self.actions@.take(k + 1).drop_last() =~= self.actions@.take(k as int));
                lemma_staging_positions(self.actions@.take(k as int));
            }
            if self.actions[k].is_staging() {
                let c = self.actions[k].duplicate();
                r.push(c);
            }
            k = k + 1;
        }
        proof {
            assert(self.actions@.take(self.actions.len() as int) =~= self.actions@);
        }
        r
    }

    /// Commits every staging action into `commit`: each gets the commit's id
    /// and a copy of it is appended to the commit, in document order.
    pub fn commit(&mut self, commit: &mut Commit<A>)
        ensures
            final(self).id == old(self).id,
            final(self).storage_id == old(self).storage_id,
            final(self).status == old(self).status,
            final(self).actions@.len() == old(self).actions@.len(),
            forall|k: int|
                0 <= k < old(self).actions@.len() ==> same_but_commit(
                    old(self).actions@[k],
                    #[trigger] final(self).actions@[k],
                ) && final(self).actions@[k].commit_id == if old(self).actions@[k].commit_id is None {
                    Some(old(commit).id)
                } else {
                    old(self).actions@[k].commit_id
                },
            forall|k: int|
                0 <= k < final(self).actions@.len() ==> (#[trigger] final(self).actions@[k]).commit_id is Some,
            final(commit).actions@.len() == old(commit).actions@.len() + staging_positions(
                old(self).actions@,
            ).len(),
            final(commit).actions@.take(old(commit).actions@.len() as int) == old(commit).actions@,
            forall|j: int|
                0 <= j < staging_positions(old(self).actions@).len() ==> aob_copy(
                    final(self).actions@[#[trigger] staging_positions(old(self).actions@)[j]],
                    final(commit).actions@[old(commit).actions@.len() + j],
                ),
            final(commit).id == old(commit).id,
            final(commit).uid == old(commit).uid,
            final(commit).dtime == old(commit).dtime,
            final(commit).comment == old(commit).comment,
            final(commit).ancestor_id == old(commit).ancestor_id,
            final(commit).remote_signature == old(commit).remote_signature,
    {
        let ghost s0 = self.actions@;
        let ghost c0 = commit.actions@;
        let mut k: usize = 0;
        while k < self.actions.len()
            invariant
                k <= self.actions.len(),
                self.actions@.len() == s0.len(),
                self.id == old(self).id,
                self.storage_id == old(self).storage_id,
                self.status == old(self).status,
                s0 == old(self).actions@,
                c0 == old(commit).actions@,
                commit.id == old(commit).id,
                commit.uid == old(commit).uid,
                commit.dtime == old(commit).dtime,
                commit.comment == old(commit).comment,
                commit.ancestor_id == old(commit).ancestor_id,
                commit.remote_signature == old(commit).remote_signature,
                forall|j: int|
                    0 <= j < s0.len() ==> same_but_commit(s0[j], #[trigger] self.actions@[j]),
                forall|j: int|
                    0 <= j < k ==> (#[trigger] self.actions@[j]).commit_id == if s0[j].commit_id is None {
                        Some(commit.id)
                    } else {
                        s0[j].commit_id
                    },
                forall|j: int| k <= j < s0.len() ==> #[trigger] self.actions@[j] == s0[j],
                commit.actions@.len() == c0.len() + staging_positions(s0.take(k as int)).len(),
                commit.actions@.take(c0.len() as int) == c0,
                forall|j: int|
                    0 <= j < staging_positions(s0.take(k as int)).len() ==> aob_copy(
                        self.actions@[#[trigger] staging_positions(s0.take(k as int))[j]],
                        commit.actions@[c0.len() + j],
                    ),
            decreases self.actions.len() - k,
        {
            proof {
                assert(s0.take(k + 1).drop_last() =~= s0.take(k as int));
                lemma_staging_positions(s0.take(k as int));
            }
            let ghost before = self.actions@;
            let ghost cbefore = commit.actions@;
            let mut aob = self.actions.remove(k);
            aob.be_commited(commit);
            self.actions.insert(k, aob);
            proof {
                assert(self.actions@ =~= before.update(k as int, self.actions@[k as int]));
                assert forall|j: int|
                    0 <= j < staging_positions(s0.take(k + 1)).len() implies aob_copy(
                    self.actions@[#[trigger] staging_positions(s0.take(k + 1))[j]],
                    commit.actions@[c0.len() + j],
                ) by {
                    if j < staging_positions(s0.take(k as int)).len() {
                        assert(staging_positions(s0.take(k + 1))[j] == staging_positions(
                            s0.take(k as int),
                        )[j]);
                        assert(commit.actions@[c0.len() + j] == cbefore[c0.len() + j]);
                    }
                }
                assert(commit.actions@.take(c0.len() as int) =~= c0) by {
                    assert(commit.actions@.take(cbefore.len() as int) == cbefore);
                    assert forall|j: int| 0 <= j < c0.len() implies commit.actions@[j] == c0[j] by {
                        assert(cbefore.take(c0.len() as int) == c0);
                        assert(cbefore[j] == c0[j]);
                        assert(commit.actions@.take(cbefore.len() as int)[j] == cbefore[j]);
                    }
                }
            }
            k = k + 1;
        }
        proof {
            assert(s0.take(self.actions.len() as int) =~= s0);
        }
    }

    /// Drops every action that is not in a commit yet.
    pub fn clear_staging(&mut self) -> (res: Result<(), String>)
        ensures
            res is Ok,
            final(self).actions@ == masked(
                old(self).actions@,
                old(self).actions@.map_values(|a: ActionObject<A>| a.commit_id is Some),
            ),
            final(self).id == old(self).id,
            final(self).storage_id == old(self).storage_id,
            final(self).status == old(self).status,
    {
        let mut mask: Vec<bool> = Vec::new();
        let mut k: usize = 0;
        while k < self.actions.len()
            invariant
                k <= self.actions.len(),
                mask@ =~= self.actions@.take(k as int).map_values(
                    |a: ActionObject<A>| a.commit_id is Some,
                ),
            decreases self.actions.len() - k,
        {
            mask.push(self.actions[k].commit_id.is_some());
            k = k + 1;
        }
        proof {
            assert(self.actions@.take(self.actions.len() as int) =~= self.actions@);
        }
        retain_masked(&mut self.actions, &mask);
        Ok(())
    }

    /// Whether the document holds no signed action (its first action is
    /// unsigned).
    pub fn is_local_document(&self) -> (r: bool)
        requires
            self.actions@.len() > 0,
        ensures
            r == (self.actions@[0].remote_signature is None),
    {
        self.actions[0].remote_signature.is_none()
    }

    /// Whether the document's first action is signed.
    pub fn is_remote_document(&self) -> (r: bool)
        requires
            self.actions@.len() > 0,
        ensures
            r == (self.actions@[0].remote_signature is Some),
    {
        !self.is_local_document()
    }

    /// Drops every action whose signature is not valid; `signatures[k]` is
    /// the signature computed for the `k`-th action. Only a document with a
    /// signed first action can be cleared.
    pub fn clear_local_aobs(&mut self, signatures: &Vec<String>) -> (res: Result<(), String>)
        requires
            old(self).actions@.len() > 0,
            signatures@.len() == old(self).actions@.len(),
        ensures
            old(self).actions@[0].remote_signature is None ==> (res matches Err(e) && e@
                == "Only remote StorageObject can be cleared locally"@) && final(self).actions
                == old(self).actions,
            old(self).actions@[0].remote_signature is Some ==> res is Ok && final(self).actions@
                == masked(
                old(self).actions@,
                Seq::new(
                    old(self).actions@.len(),
                    |k: int|
                        opt_view(old(self).actions@[k].remote_signature) == Some(signatures@[k]@),
                ),
            ),
            final(self).id == old(self).id,
            final(self).status == old(self).status,
    {
        if self.is_local_document() {
            return Err("Only remote StorageObject can be cleared locally".to_string());
        }
        let ghost want = Seq::new(
            self.actions@.len(),
            |k: int| opt_view(self.actions@[k].remote_signature) == Some(signatures@[k]@),
        );
        let mut mask: Vec<bool> = Vec::new();
        let mut k: usize = 0;
        while k < self.actions.len()
            invariant
                k <= self.actions.len(),
                signatures@.len() == self.actions@.len(),
                want == Seq::new(
                    self.actions@.len(),
                    |k: int| opt_view(self.actions@[k].remote_signature) == Some(signatures@[k]@),
                ),
                mask@ =~= want.take(k as int),
            decreases self.actions.len() - k,
        {
            mask.push(self.actions[k].has_valid_signature(&signatures[k]));
            k = k + 1;
        }
        proof {
            assert(want.take(self.actions.len() as int) =~= want);
        }
        retain_masked(&mut self.actions, &mask);
        Ok(())
    }

    /// A new staging action on this document, made by the context's user;
    /// its parent is the document's last action. Its id is a fresh random id
    /// and its time the current time.
    pub fn create_aob(&self, ctx: &Context, action: ActionKind<A>) -> (res: Result<
        ActionObject<A>,
        String,
    >)
        ensures
            res matches Ok(a) && a.storage_id@ == self.storage_id@ && a.object_id == self.id
                && a.uid@ == ctx.uid@ && a.commit_id is None && a.parent_action_id == last_id(
                self.actions@,
            ) && a.action == action && a.remote_signature is None,
    {
        let id = new_uuid();
        let dtime = now_micros();
        Ok(self.create_aob_with(ctx, action, id, dtime))
    }

    /// `create_aob` with the given id and time.
    pub fn create_aob_with(&self, ctx: &Context, action: ActionKind<A>, id: u128, dtime: i64) -> (r:
        ActionObject<A>)
        ensures
            r.id == id,
            r.dtime == dtime,
            r.storage_id@ == self.storage_id@,
            r.object_id == self.id,
            r.uid@ == ctx.uid@,
            r.commit_id is None,
            r.parent_action_id == last_id(self.actions@),
            r.action == action,
            r.remote_signature is None,
    {
        let parent = if self.actions.len() == 0 {
            None
        } else {
            Some(self.actions[self.actions.len() - 1].id)
        };
        ActionObject {
            id,
            storage_id: self.storage_id.clone(),
            object_id: self.id,
            uid: ctx.uid.clone(),
            dtime,
            commit_id: None,
            parent_action_id: parent,
            action,
            remote_signature: None,
        }
    }
}

/// Server-side history is linear: appending a signed action whose parent is
/// the last action keeps a chain a chain.
pub proof fn law_server_append_keeps_chain<A>(s: Seq<ActionObject<A>>, aob: ActionObject<A>)
    requires
        is_chain(s),
        server_accepts(s, aob),
    ensures
        is_chain(s.push(aob)),
{
    assert forall|k: int| 0 <= k < s.push(aob).len() implies (#[trigger] s.push(aob)[k]).parent_action_id
        == if k == 0 {
        None
    } else {
        Some(s.push(aob)[k - 1].id)
    } by {
        if k < s.len() {
            assert(s.push(aob)[k] == s[k]);
        }
    }
}

/// An action created on a document and then signed by the server is taken
/// by the server-side append of that document.
pub proof fn law_created_then_signed_is_accepted<A>(
    s: Seq<ActionObject<A>>,
    created: ActionObject<A>,
    signed: ActionObject<A>,
)
    requires
        created.parent_action_id == last_id(s),
        same_but_signature(created, signed),
        signed.remote_signature is Some,
    ensures
        server_accepts(s, signed),
{
}

} // verus!
