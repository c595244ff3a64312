//! The operations of the first version of the synchronisation engine that
//! the repository's engine does not have: signing a local action, closing a
//! document's staging actions into a commit, and patching a document.

use vstd::prelude::*;

use crate::sync::{
    computed_status, last_id, now_micros, new_uuid, same_but_commit, ActionExt, ActionKind, ActionObject, Context, Document,
};

verus! {

impl<A: ActionExt> ActionObject<A> {
    /// Signs a local action; an action that is signed already is refused.
    pub fn add_signature(&mut self, sig: String) -> (res: Result<(), String>)
        ensures
            old(self).remote_signature is Some ==> (res matches Err(e) && e@
                == "Signature can added only for local AOB"@) && *final(self) == *old(self),
            old(self).remote_signature is None ==> res is Ok && *final(self) == (ActionObject {
                remote_signature: Some(sig),
                ..*old(self)
            }),
    {
        if self.is_remote() {
            return Err("Signature can added only for local AOB".to_string());
        }
        self.remote_signature = Some(sig);
        Ok(())
    }
}

impl<A: ActionExt> Document<A> {
    /// Puts every staging action into the commit `commit_id`.
    pub fn close_staging(&mut self, commit_id: u128)
        ensures
            final(self).id == old(self).id,
            final(self).storage_id == old(self).storage_id,
            final(self).status == old(self).status,
            final(self).actions@.len() == old(self).actions@.len(),
            forall|k: int|
                0 <= k < old(self).actions@.len() ==> same_but_commit(
                    old(self).actions@[k],
                    #[trigger] final(self).actions@[k],
                ) && final(self).actions@[k].commit_id == if old(self).actions@[k].commit_id is None {
                    Some(commit_id)
                } else {
                    old(self).actions@[k].commit_id
                },
    {
        let ghost s0 = self.actions@;
        let mut k: usize = 0;
        while k < self.actions.len()
            invariant
                k <= self.actions.len(),
                self.actions@.len() == s0.len(),
                s0 == old(self).actions@,
                self.id == old(self).id,
                self.storage_id == old(self).storage_id,
                self.status == old(self).status,
                forall|j: int| 0 <= j < s0.len() ==> same_but_commit(s0[j], #[trigger] self.actions@[j]),
                forall|j: int|
                    0 <= j < k ==> (#[trigger] self.actions@[j]).commit_id == if s0[j].commit_id is None {
                        Some(commit_id)
                    } else {
                        s0[j].commit_id
                    },
                forall|j: int| k <= j < s0.len() ==> #[trigger] self.actions@[j] == s0[j],
            decreases self.actions.len() - k,
        {
            let mut a = self.actions.remove(k);
            if a.is_staging() {
                a.commit_id = Some(commit_id);
            }
            self.actions.insert(k, a);
            k = k + 1;
        }
    }

    /// Makes a patch action of the context's user on this document (a fresh
    /// random id, the current time, the last action as its parent), adds it
    /// after the last action and recomputes the status. The result is `Ok`.
    pub fn patch(&mut self, ctx: &Context, action: A) -> (res: Result<(), String>)
        ensures
            res is Ok,
            final(self).id == old(self).id,
            final(self).storage_id == old(self).storage_id,
            final(self).status == computed_status(final(self).actions@),
            exists|a: ActionObject<A>|
                #[trigger] final(self).actions@ == old(self).actions@.push(a)
                    && a.parent_action_id == last_id(old(self).actions@)
                    && a.action == ActionKind::Patch(action)
                    && a.commit_id is None
                    && a.remote_signature is None
                    && a.object_id == old(self).id
                    && a.storage_id@ == old(self).storage_id@
                    && a.uid@ == ctx.uid@,
    {
        let aob = self.create_aob_with(ctx, ActionKind::Patch(action), new_uuid(), now_micros());
        let ghost a = aob;
        self.actions.push(aob);
        self.check_status();
        proof {
            assert(self.actions@ == old(self).actions@.push(a));
        }
        Ok(())
    }
}

} // verus!
