//! Bookkeeping objects kept in the repository (accounts, partners), their
//! actions, the project context and the errors of the storage layer.

use vstd::prelude::*;

use crate::repo::ActionPatch;
use crate::sync::ActionExt;
use crate::text::{lemma_text_le_total, lemma_text_le_transitive, str_eq, str_le, text_le};

verus! {

/// Actions on the bookkeeping objects.
#[derive(Debug, Clone)]
pub enum BitAction {
    AccountRename { name: String },
    AccountRemove,
    PartnerRename { name: String },
    PartnerRemove,
    NoteUnset {
        partner: bool,
        description: bool,
        idate: bool,
        cdate: bool,
        ddate: bool,
        net: bool,
        vat: bool,
        gross: bool,
    },
}

/// The text an action is shown by.
pub open spec fn bit_action_text(a: BitAction) -> Seq<char> {
    match a {
        BitAction::AccountRename { name } => "Rename account to: "@ + name@,
        BitAction::AccountRemove => "Remove account"@,
        BitAction::PartnerRename { name } => "Rename partner to: "@ + name@,
        BitAction::PartnerRemove => "Remove partner"@,
        BitAction::NoteUnset { .. } => "Unset note params"@,
    }
}

fn concat(a: &str, b: &str) -> (r: String)
    ensures
        r@ == a@ + b@,
{
    let mut r = a.to_string();
    r.append(b);
    r
}

impl ActionExt for BitAction {
    open spec fn display_text(&self) -> Seq<char> {
        bit_action_text(*self)
    }

    fn display(&self) -> (r: String) {
        match self {
            BitAction::AccountRename { name } => concat("Rename account to: ", name.as_str()),
            BitAction::AccountRemove => "Remove account".to_string(),
            BitAction::PartnerRename { name } => concat("Rename partner to: ", name.as_str()),
            BitAction::PartnerRemove => "Remove partner".to_string(),
            BitAction::NoteUnset { .. } => "Unset note params".to_string(),
        }
    }

    fn duplicate(&self) -> (r: Self) {
        match self {
            BitAction::AccountRename { name } => BitAction::AccountRename { name: name.clone() },
            BitAction::AccountRemove => BitAction::AccountRemove,
            BitAction::PartnerRename { name } => BitAction::PartnerRename { name: name.clone() },
            BitAction::PartnerRemove => BitAction::PartnerRemove,
            BitAction::NoteUnset { partner, description, idate, cdate, ddate, net, vat, gross } =>
                BitAction::NoteUnset {
                partner: *partner,
                description: *description,
                idate: *idate,
                cdate: *cdate,
                ddate: *ddate,
                net: *net,
                vat: *vat,
                gross: *gross,
            },
        }
    }
}

/// A ledger account.
#[derive(Debug, Clone)]
pub struct Account {
    pub id: String,
    pub name: String,
    pub removed: bool,
}

impl Account {
    /// A new account, not removed.
    pub fn new(id: String, name: String) -> (r: Self)
        ensures
            r.id == id,
            r.name == name,
            !r.removed,
    {
        Account { id, name, removed: false }
    }

    /// The account's id.
    pub fn id(&self) -> (r: &str)
        ensures
            r@ == self.id@,
    {
        self.id.as_str()
    }

    /// The account's name.
    pub fn name(&self) -> (r: &str)
        ensures
            r@ == self.name@,
    {
        self.name.as_str()
    }

    /// Renames the account.
    pub fn rename(&mut self, name: String)
        ensures
            *final(self) == (Account { name, ..*old(self) }),
    {
        self.name = name;
    }

    /// Marks the account removed.
    pub fn remove(&mut self)
        ensures
            *final(self) == (Account { removed: true, ..*old(self) }),
    {
        self.removed = true;
    }

    /// Marks the account not removed.
    pub fn restore(&mut self)
        ensures
            *final(self) == (Account { removed: false, ..*old(self) }),
    {
        self.removed = false;
    }
}

impl ActionPatch<BitAction> for Account {
    open spec fn storage_name() -> Seq<char> {
        "account"@
    }

    fn storage_id() -> (r: String) {
        "account".to_string()
    }

    open spec fn is_initial(self) -> bool {
        self.id@.len() == 0 && self.name@.len() == 0 && !self.removed
    }

    fn initial_value() -> (r: Self) {
        Account { id: String::new(), name: String::new(), removed: false }
    }

    open spec fn accepts(action: BitAction) -> bool {
        action is AccountRename || action is AccountRemove
    }

    fn takes(action: &BitAction) -> (r: bool) {
        match action {
            BitAction::AccountRename { .. } => true,
            BitAction::AccountRemove => true,
            _ => false,
        }
    }

    open spec fn patched(self, action: BitAction, dtime: i64, uid: Seq<char>) -> Self {
        match action {
            BitAction::AccountRename { name } => Account { name, ..self },
            BitAction::AccountRemove => Account { removed: true, ..self },
            _ => self,
        }
    }

    fn patch(&mut self, action: BitAction, dtime: i64, uid: &str) {
        match action {
            BitAction::AccountRename { name } => self.rename(name),
            BitAction::AccountRemove => self.remove(),
            _ => {},
        }
    }
}

/// A business partner.
#[derive(Debug, Clone)]
pub struct Partner {
    pub id: String,
    pub name: String,
    pub removed: bool,
}

impl Partner {
    /// A new partner, not removed.
    pub fn new(id: String, name: String) -> (r: Self)
        ensures
            r.id == id,
            r.name == name,
            !r.removed,
    {
        Partner { id, name, removed: false }
    }

    /// Renames the partner.
    pub fn set_name(&mut self, name: String)
        ensures
            *final(self) == (Partner { name, ..*old(self) }),
    {
        self.name = name;
    }

    /// Marks the partner removed.
    pub fn remove(&mut self)
        ensures
            *final(self) == (Partner { removed: true, ..*old(self) }),
    {
        self.removed = true;
    }

    /// Restores the partner: as it stands, this marks the partner removed.
    pub fn restore(&mut self)
        ensures
            *final(self) == (Partner { removed: true, ..*old(self) }),
    {
        self.removed = true;
    }
}

impl ActionPatch<BitAction> for Partner {
    open spec fn storage_name() -> Seq<char> {
        "partner"@
    }

    fn storage_id() -> (r: String) {
        "partner".to_string()
    }

    open spec fn is_initial(self) -> bool {
        self.id@.len() == 0 && self.name@.len() == 0 && !self.removed
    }

    fn initial_value() -> (r: Self) {
        Partner { id: String::new(), name: String::new(), removed: false }
    }

    open spec fn accepts(action: BitAction) -> bool {
        action is PartnerRename || action is PartnerRemove
    }

    fn takes(action: &BitAction) -> (r: bool) {
        match action {
            BitAction::PartnerRename { .. } => true,
            BitAction::PartnerRemove => true,
            _ => false,
        }
    }

    open spec fn patched(self, action: BitAction, dtime: i64, uid: Seq<char>) -> Self {
        match action {
            BitAction::PartnerRename { name } => Partner { name, ..self },
            BitAction::PartnerRemove => Partner { removed: true, ..self },
            _ => self,
        }
    }

    fn patch(&mut self, action: BitAction, dtime: i64, uid: &str) {
        match action {
            BitAction::PartnerRename { name } => self.set_name(name),
            BitAction::PartnerRemove => self.remove(),
            _ => {},
        }
    }
}

/// A file attached to a note.
#[derive(Debug, Default)]
pub struct Blob {
    pub id: String,
    pub note_id: Option<String>,
    pub file_name: Option<String>,
    pub title: Option<String>,
    pub description: Option<String>,
}

/// Context errors.
#[derive(Debug)]
pub enum CtxError {
    NotProjectDir,
}

impl CtxError {
    /// The error's message.
    pub fn to_string(&self) -> (r: String)
        ensures
            r@ == "Not Project Dir"@,
    {
        "Not Project Dir".to_string()
    }
}

/// `base` joined with the relative path `rel`.
pub open spec fn join_path(base: Seq<char>, rel: Seq<char>) -> Seq<char> {
    if base.len() == 0 {
        rel
    } else if base.last() == '/' {
        base + rel
    } else {
        base + seq!['/'] + rel
    }
}

/// Joins `rel` onto `base`.
pub fn join(base: &str, rel: &str) -> (r: String)
    ensures
        r@ == join_path(base@, rel@),
{
    let b = crate::text::chars_of(base);
    if b.len() == 0 {
        return rel.to_string();
    }
    let mut r = base.to_string();
    if b[b.len() - 1] != '/' {
        r.append("/");
        proof {
            reveal_strlit("/");
            assert(r@ == base@ + seq!['/']);
        }
    }
    r.append(rel);
    r
}

/// Whether the directory exists on disk. Nothing is stated of the answer:
/// it depends on the disk.
#[verifier::external_body]
fn dir_exists(path: &str) -> (r: bool) {
    std::path::Path::new(path).exists()
}

/// The project's data directory under `cwd`.
pub fn bitdir_of(cwd: &str) -> (r: String)
    ensures
        r@ == join_path(cwd@, ".bit"@),
{
    join(cwd, ".bit")
}

/// Whether `cwd` holds a project (a `.bit` directory).
pub fn is_project_cwd(cwd: &str) -> (r: bool) {
    let p = bitdir_of(cwd);
    dir_exists(p.as_str())
}

/// The paths of a project.
#[derive(Debug)]
pub struct Context {
    pub root_path: String,
    pub bitdir_path: String,
}

impl Context {
    /// The context of the project at `cwd`, given whether `cwd` holds a
    /// project.
    pub fn with_check(cwd: String, is_project: bool) -> (res: Result<Self, CtxError>)
        ensures
            !is_project ==> res matches Err(CtxError::NotProjectDir),
            is_project ==> (res matches Ok(c) && c.root_path@ == cwd@ && c.bitdir_path@ == join_path(
                cwd@,
                ".bit"@,
            )),
    {
        if !is_project {
            return Err(CtxError::NotProjectDir);
        }
        Ok(Context::new_cwd(cwd))
    }

    /// The context of the project at `cwd`; an error when `cwd` holds no
    /// project.
    pub fn new(cwd: String) -> (res: Result<Self, CtxError>)
        ensures
            res matches Ok(c) ==> c.root_path@ == cwd@ && c.bitdir_path@ == join_path(
                cwd@,
                ".bit"@,
            ),
            res matches Err(e) ==> e is NotProjectDir,
    {
        let is_project = is_project_cwd(cwd.as_str());
        Self::with_check(cwd, is_project)
    }

    /// The context of a project to be made at `cwd`.
    pub fn new_cwd(cwd: String) -> (r: Self)
        ensures
            r.root_path@ == cwd@,
            r.bitdir_path@ == join_path(cwd@, ".bit"@),
    {
        let bitdir_path = bitdir_of(cwd.as_str());
        Context { root_path: cwd, bitdir_path }
    }

    /// The project's root.
    pub fn root_path(&self) -> (r: &str)
        ensures
            r@ == self.root_path@,
    {
        self.root_path.as_str()
    }

    /// The project's data directory.
    pub fn bitdir_path(&self) -> (r: &str)
        ensures
            r@ == self.bitdir_path@,
    {
        self.bitdir_path.as_str()
    }
}

/// The records of a continuous file that come after the first one `filter`
/// picks; none when it picks none. `filter` is asked about the records in
/// order, up to and including the first one it picks, and about no other.
pub fn records_after_filter<T, F: Fn(&T) -> bool>(records: Vec<T>, filter: F) -> (r: Vec<T>)
    requires
        forall|t: &T| call_requires(filter, (t,)),
    ensures
        exists|k: int|
            #![trigger records@.skip(k)]
            0 <= k <= records@.len()
            && (forall|i: int| 0 <= i < k ==> call_ensures(filter, (&records@[i],), false))
            && (k < records@.len() ==> call_ensures(filter, (&records@[k],), true) && r@ == records@.skip(k + 1))
            && (k == records@.len() ==> r@.len() == 0),
{
    let n = records.len();
    let mut k: usize = 0;
    while k < n
        invariant
            n == records@.len(),
            k <= n,
            forall|t: &T| call_requires(filter, (t,)),
            forall|i: int| 0 <= i < k ==> call_ensures(filter, (&records@[i],), false),
        decreases n - k,
    {
        let picked = filter(&records[k]);
        if picked {
            let ghost all = records@;
            let mut records = records;
            let rest = records.split_off(k + 1);
            proof {
                assert(rest@ =~= all.skip(k + 1));
                assert(all.skip(k as int) == all.skip(k as int));
            }
            return rest;
        }
        k = k + 1;
    }
    proof {
        assert(records@.skip(n as int) == records@.skip(n as int));
    }
    Vec::new()
}

/// `needle` occurs in `hay` (`str::contains`).
pub open spec fn text_contains(hay: Seq<char>, needle: Seq<char>) -> bool {
    exists|i: int| 0 <= i <= hay.len() - needle.len() && #[trigger] hay.subrange(i, i + needle.len()) == needle
}

/// Whether `needle` occurs in `hay`.
pub fn str_contains(hay: &str, needle: &str) -> (r: bool)
    ensures
        r == text_contains(hay@, needle@),
{
    let h = crate::text::chars_of(hay);
    let n = crate::text::chars_of(needle);
    if n.len() > h.len() {
        return false;
    }
    let mut i: usize = 0;
    while i <= h.len() - n.len()
        invariant
            h@ == hay@,
            n@ == needle@,
            n.len() <= h.len(),
            i <= h.len() - n.len() + 1,
            forall|j: int| 0 <= j < i ==> #[trigger] hay@.subrange(j, j + needle@.len()) != needle@,
        decreases h.len() - n.len() + 1 - i,
    {
        let mut k: usize = 0;
        while k < n.len() && h[i + k] == n[k]
            invariant
                i + n.len() <= h.len(),
                k <= n.len(),
                forall|q: int| 0 <= q < k ==> h@[i + q] == n@[q],
            decreases n.len() - k,
        {
            k = k + 1;
        }
        if k == n.len() {
            proof {
                assert(hay@.subrange(i as int, i + needle@.len()) =~= needle@);
            }
            return true;
        }
        proof {
            assert(hay@.subrange(i as int, i + needle@.len())[k as int] != needle@[k as int]);
        }
        i = i + 1;
    }
    proof {
        assert forall|j: int| 0 <= j <= hay@.len() - needle@.len() implies #[trigger] hay@.subrange(
            j,
            j + needle@.len(),
        ) != needle@ by {}
    }
    false
}

/// A note passes the filters: its id holds the id filter, its partner the
/// partner filter; a filter that is not given passes every note.
pub open spec fn note_passes(
    note: (Option<Seq<char>>, Option<Seq<char>>),
    id: Option<Seq<char>>,
    partner: Option<Seq<char>>,
) -> bool {
    &&& match id {
        Some(f) => match note.0 {
            Some(x) => text_contains(x, f),
            None => false,
        },
        None => true,
    }
    &&& match partner {
        Some(f) => match note.1 {
            Some(x) => text_contains(x, f),
            None => false,
        },
        None => true,
    }
}

/// The ids of the notes that pass the filters, in order.
pub open spec fn filtered_note_ids(
    notes: Seq<(Option<Seq<char>>, Option<Seq<char>>)>,
    id: Option<Seq<char>>,
    partner: Option<Seq<char>>,
) -> Seq<Seq<char>>
    decreases notes.len(),
{
    if notes.len() == 0 {
        Seq::empty()
    } else {
        let rest = filtered_note_ids(notes.drop_last(), id, partner);
        if note_passes(notes.last(), id, partner) {
            rest.push(notes.last().0->0)
        } else {
            rest
        }
    }
}

/// The notes as (id, partner) values.
pub open spec fn note_values(notes: Seq<(Option<String>, Option<String>)>) -> Seq<(Option<Seq<char>>, Option<Seq<char>>)> {
    notes.map_values(|n: (Option<String>, Option<String>)| (crate::parser::opt_view(n.0), crate::parser::opt_view(n.1)))
}

/// The ids of the notes (given by their id and partner) whose id contains
/// `id` and whose partner contains `partner`, a filter that is not given
/// passing every note. A note that passes must have an id.
pub fn note_filter(
    notes: &Vec<(Option<String>, Option<String>)>,
    id: Option<String>,
    partner: Option<String>,
) -> (r: Vec<String>)
    requires
        forall|k: int|
            0 <= k < notes@.len() && #[trigger] note_passes(
                note_values(notes@)[k],
                crate::parser::opt_view(id),
                crate::parser::opt_view(partner),
            ) ==> notes@[k].0 is Some,
    ensures
        r@.map_values(|s: String| s@) == filtered_note_ids(
            note_values(notes@),
            crate::parser::opt_view(id),
            crate::parser::opt_view(partner),
        ),
{
    let ghost nv = note_values(notes@);
    let ghost fi = crate::parser::opt_view(id);
    let ghost fp = crate::parser::opt_view(partner);
    let mut r: Vec<String> = Vec::new();
    let mut k: usize = 0;
    while k < notes.len()
        invariant
            k <= notes@.len(),
            nv == note_values(notes@),
            fi == crate::parser::opt_view(id),
            fp == crate::parser::opt_view(partner),
            forall|j: int|
                0 <= j < notes@.len() && #[trigger] note_passes(nv[j], fi, fp) ==> notes@[j].0 is Some,
            r@.map_values(|s: String| s@) == filtered_note_ids(nv.take(k as int), fi, fp),
        decreases notes.len() - k,
    {
        let n = &notes[k];
        let id_ok = match &id {
            Some(f) => match &n.0 {
                Some(x) => str_contains(x.as_str(), f.as_str()),
                None => false,
            },
            None => true,
        };
        let partner_ok = match &partner {
            Some(f) => match &n.1 {
                Some(x) => str_contains(x.as_str(), f.as_str()),
                None => false,
            },
            None => true,
        };
        proof {
            assert(nv.take(k + 1).drop_last() =~= nv.take(k as int));
            assert(nv.take(k + 1).last() == nv[k as int]);
            assert(nv[k as int] == (crate::parser::opt_view(n.0), crate::parser::opt_view(n.1)));
            assert((id_ok && partner_ok) == note_passes(nv[k as int], fi, fp));
        }
        if id_ok && partner_ok {
            let nid = match &n.0 {
                Some(x) => x.clone(),
                None => String::new(),
            };
            let ghost before = r@;
            r.push(nid);
            proof {
                assert(r@.map_values(|s: String| s@) =~= before.map_values(|s: String| s@).push(nid@));
            }
        }
        k = k + 1;
    }
    proof {
        assert(nv.take(notes@.len() as int) =~= nv);
    }
    r
}

/// Errors of the storage layer.
#[derive(Debug)]
pub enum FsError {
    SerError(String),
    DeserError(String),
    OpenError(String),
    WriteError(String),
    ReadError(String),
    FlushError(String),
    CreateDirError(String),
    CreateFileError(String),
}

impl FsError {
    /// The error's message.
    pub fn to_string(&self) -> (r: String)
        ensures
            r@ == match *self {
                FsError::SerError(e) => e@,
                FsError::DeserError(e) => e@,
                FsError::OpenError(e) => e@,
                FsError::WriteError(e) => e@,
                FsError::ReadError(e) => e@,
                FsError::FlushError(e) => e@,
                FsError::CreateDirError(e) => e@,
                FsError::CreateFileError(e) => e@,
            },
    {
        match self {
            FsError::SerError(e) => e.clone(),
            FsError::DeserError(e) => e.clone(),
            FsError::OpenError(e) => e.clone(),
            FsError::WriteError(e) => e.clone(),
            FsError::ReadError(e) => e.clone(),
            FsError::FlushError(e) => e.clone(),
            FsError::CreateDirError(e) => e.clone(),
            FsError::CreateFileError(e) => e.clone(),
        }
    }
}

/// Errors of the index.
#[derive(Debug)]
pub enum IndexError {
    AlreadyInited,
    NotRepo,
    Fs(FsError),
    CtxError(CtxError),
    SyncError(String),
}

impl IndexError {
    /// The error's message.
    pub fn to_string(&self) -> (r: String)
        ensures
            r@ == match *self {
                IndexError::AlreadyInited => "Path already an inited repo"@,
                IndexError::NotRepo => "Path is not a repository."@,
                IndexError::Fs(FsError::SerError(e)) => e@,
                IndexError::Fs(FsError::DeserError(e)) => e@,
                IndexError::Fs(FsError::OpenError(e)) => e@,
                IndexError::Fs(FsError::WriteError(e)) => e@,
                IndexError::Fs(FsError::ReadError(e)) => e@,
                IndexError::Fs(FsError::FlushError(e)) => e@,
                IndexError::Fs(FsError::CreateDirError(e)) => e@,
                IndexError::Fs(FsError::CreateFileError(e)) => e@,
                IndexError::CtxError(_) => "Not Project Dir"@,
                IndexError::SyncError(e) => e@,
            },
    {
        match self {
            IndexError::AlreadyInited => "Path already an inited repo".to_string(),
            IndexError::NotRepo => "Path is not a repository.".to_string(),
            IndexError::Fs(f) => f.to_string(),
            IndexError::CtxError(c) => c.to_string(),
            IndexError::SyncError(e) => e.clone(),
        }
    }
}

} // verus!

verus! {

/// The accounts and partners kept in line with their documents.
pub struct IndexInner {
    pub accounts: crate::repo::DocRefVec<Account, BitAction>,
    pub partners: crate::repo::DocRefVec<Partner, BitAction>,
    /// The ids of the documents taken in since the last reset, in order.
    pub synced_ids: Ghost<Seq<u128>>,
}

/// Position of the first account with the given id (or `-1`).
pub open spec fn account_pos(s: Seq<crate::repo::DocRef<Account, BitAction>>, id: Seq<char>) -> int
    decreases s.len(),
{
    if s.len() == 0 {
        -1
    } else {
        let f = account_pos(s.drop_last(), id);
        if f >= 0 {
            f
        } else if s.last().data.id@ == id {
            s.len() - 1
        } else {
            -1
        }
    }
}

/// Position of the first partner with the given id (or `-1`).
pub open spec fn partner_pos(s: Seq<crate::repo::DocRef<Partner, BitAction>>, id: Seq<char>) -> int
    decreases s.len(),
{
    if s.len() == 0 {
        -1
    } else {
        let f = partner_pos(s.drop_last(), id);
        if f >= 0 {
            f
        } else if s.last().data.id@ == id {
            s.len() - 1
        } else {
            -1
        }
    }
}

proof fn lemma_account_pos(s: Seq<crate::repo::DocRef<Account, BitAction>>, id: Seq<char>)
    ensures
        -1 <= account_pos(s, id) < s.len(),
        account_pos(s, id) >= 0 ==> s[account_pos(s, id)].data.id@ == id,
        forall|k: int|
            0 <= k < s.len() && (account_pos(s, id) < 0 || k < account_pos(s, id)) ==> #[trigger] s[k].data.id@
                != id,
    decreases s.len(),
{
    if s.len() > 0 {
        lemma_account_pos(s.drop_last(), id);
        assert forall|k: int|
            0 <= k < s.len() && (account_pos(s, id) < 0 || k < account_pos(s, id)) implies #[trigger] s[k].data.id@
            != id by {
            if k < s.len() - 1 {
                assert(s.drop_last()[k] == s[k]);
            }
        }
    }
}

proof fn lemma_partner_pos(s: Seq<crate::repo::DocRef<Partner, BitAction>>, id: Seq<char>)
    ensures
        -1 <= partner_pos(s, id) < s.len(),
        partner_pos(s, id) >= 0 ==> s[partner_pos(s, id)].data.id@ == id,
        forall|k: int|
            0 <= k < s.len() && (partner_pos(s, id) < 0 || k < partner_pos(s, id)) ==> #[trigger] s[k].data.id@
                != id,
    decreases s.len(),
{
    if s.len() > 0 {
        lemma_partner_pos(s.drop_last(), id);
        assert forall|k: int|
            0 <= k < s.len() && (partner_pos(s, id) < 0 || k < partner_pos(s, id)) implies #[trigger] s[k].data.id@
            != id by {
            if k < s.len() - 1 {
                assert(s.drop_last()[k] == s[k]);
            }
        }
    }
}

/// Where an account with id `x` goes in `s`: before the first account whose
/// id sorts after `x`.
pub open spec fn id_slot(s: Seq<crate::repo::DocRef<Account, BitAction>>, x: Seq<char>) -> int
    decreases s.len(),
{
    if s.len() == 0 {
        0
    } else if !text_le(s[0].data.id@, x) {
        0
    } else {
        1 + id_slot(s.drop_first(), x)
    }
}

/// The accounts ordered by id; accounts with the same id keep the order
/// they came in.
pub open spec fn sorted_by_id(s: Seq<crate::repo::DocRef<Account, BitAction>>) -> Seq<
    crate::repo::DocRef<Account, BitAction>,
>
    decreases s.len(),
{
    if s.len() == 0 {
        s
    } else {
        let t = sorted_by_id(s.drop_last());
        t.insert(id_slot(t, s.last().data.id@), s.last())
    }
}

/// Each account's id sorts before or with the ids after it.
pub open spec fn ids_ordered(s: Seq<crate::repo::DocRef<Account, BitAction>>) -> bool {
    forall|i: int, j: int| 0 <= i < j < s.len() ==> text_le(#[trigger] s[i].data.id@, #[trigger] s[j].data.id@)
}

proof fn lemma_id_slot(s: Seq<crate::repo::DocRef<Account, BitAction>>, x: Seq<char>)
    ensures
        0 <= id_slot(s, x) <= s.len(),
        forall|k: int| 0 <= k < id_slot(s, x) ==> text_le(#[trigger] s[k].data.id@, x),
        id_slot(s, x) < s.len() ==> !text_le(s[id_slot(s, x)].data.id@, x),
    decreases s.len(),
{
    if s.len() > 0 && text_le(s[0].data.id@, x) {
        lemma_id_slot(s.drop_first(), x);
        assert forall|k: int| 0 <= k < id_slot(s, x) implies text_le(#[trigger] s[k].data.id@, x) by {
            if k > 0 {
                assert(s[k] == s.drop_first()[k - 1]);
            }
        }
    }
}

proof fn lemma_id_slot_at(s: Seq<crate::repo::DocRef<Account, BitAction>>, x: Seq<char>, j: int)
    requires
        0 <= j <= s.len(),
        forall|k: int| 0 <= k < j ==> text_le(#[trigger] s[k].data.id@, x),
        j < s.len() ==> !text_le(s[j].data.id@, x),
    ensures
        id_slot(s, x) == j,
    decreases s.len(),
{
    if s.len() > 0 && j > 0 {
        assert(text_le(s[0].data.id@, x));
        assert forall|k: int| 0 <= k < j - 1 implies text_le(#[trigger] s.drop_first()[k].data.id@, x) by {
            assert(s.drop_first()[k] == s[k + 1]);
        }
        lemma_id_slot_at(s.drop_first(), x, j - 1);
    }
}

/// Sorting puts the accounts in id order and keeps every one of them: the
/// result is ordered and holds the same accounts as often as before.
pub proof fn law_sorted_accounts_are_ordered(s: Seq<crate::repo::DocRef<Account, BitAction>>)
    ensures
        ids_ordered(sorted_by_id(s)),
        sorted_by_id(s).to_multiset() == s.to_multiset(),
    decreases s.len(),
{
    broadcast use vstd::seq_lib::to_multiset_insert, vstd::seq_lib::to_multiset_build;

    if s.len() > 0 {
        let front = s.drop_last();
        let x = s.last();
        law_sorted_accounts_are_ordered(front);
        let t = sorted_by_id(front);
        let p = id_slot(t, x.data.id@);
        lemma_id_slot(t, x.data.id@);
        let r = t.insert(p, x);
        assert forall|i: int, j: int| 0 <= i < j < r.len() implies text_le(
            #[trigger] r[i].data.id@,
            #[trigger] r[j].data.id@,
        ) by {
            if j < p {
                assert(r[i] == t[i] && r[j] == t[j]);
            } else if j == p {
                assert(r[i] == t[i]);
            } else if i == p {
                assert(r[j] == t[j - 1]);
                assert(!text_le(t[p].data.id@, x.data.id@));
                lemma_text_le_total(t[p].data.id@, x.data.id@);
                if j - 1 > p {
                    assert(text_le(t[p].data.id@, t[j - 1].data.id@));
                    lemma_text_le_transitive(x.data.id@, t[p].data.id@, t[j - 1].data.id@);
                }
            } else if i < p {
                assert(r[i] == t[i] && r[j] == t[j - 1]);
            } else {
                assert(r[i] == t[i - 1] && r[j] == t[j - 1]);
            }
        }
        assert(s =~= front.push(x));
    }
}

impl IndexInner {

    /// Orders the accounts by id; accounts with the same id keep their order.
    pub fn account_sort(&mut self)
        ensures
            final(self).accounts.doc_refs@ == sorted_by_id(old(self).accounts.doc_refs@),
            final(self).partners == old(self).partners,
    {
        let ghost orig = self.accounts.doc_refs@;
        let mut src: Vec<crate::repo::DocRef<Account, BitAction>> = Vec::new();
        std::mem::swap(&mut src, &mut self.accounts.doc_refs);
        let mut out: Vec<crate::repo::DocRef<Account, BitAction>> = Vec::new();
        let ghost mut i: int = 0;
        proof {
            assert(orig.take(0) =~= Seq::<crate::repo::DocRef<Account, BitAction>>::empty());
            assert(orig.skip(0) =~= orig);
        }
        while src.len() > 0
            invariant
                0 <= i <= orig.len(),
                src@ == orig.skip(i),
                out@ == sorted_by_id(orig.take(i)),
            decreases src.len(),
        {
            let x = src.remove(0);
            let mut j: usize = 0;
            while j < out.len() && str_le(out[j].data.id.as_str(), x.data.id.as_str())
                invariant
                    j <= out.len(),
                    forall|k: int| 0 <= k < j ==> text_le(#[trigger] out@[k].data.id@, x.data.id@),
                decreases out.len() - j,
            {
                j = j + 1;
            }
            proof {
                lemma_id_slot_at(out@, x.data.id@, j as int);
                assert(orig.take(i + 1).drop_last() =~= orig.take(i));
                assert(orig.take(i + 1).last() == x);
                assert(orig.skip(i + 1) =~= orig.skip(i).drop_first());
            }
            out.insert(j, x);
            proof {
                i = i + 1;
            }
        }
        proof {
            assert(orig.take(i) =~= orig);
        }
        self.accounts.doc_refs = out;
    }
    /// No accounts and no partners.
    pub fn new() -> (r: Self)
        ensures
            r.accounts.doc_refs@.len() == 0,
            r.partners.doc_refs@.len() == 0,
            crate::repo::IndexExt::<BitAction>::synced(&r) == Seq::<u128>::empty(),
    {
        IndexInner {
            accounts: crate::repo::DocRefVec::new(),
            partners: crate::repo::DocRefVec::new(),
            synced_ids: Ghost(Seq::empty()),
        }
    }

    /// Position of the account with the given id.
    fn find_account(&self, id: &str) -> (r: Option<usize>)
        ensures
            match r {
                Some(k) => k as int == account_pos(self.accounts.doc_refs@, id@) && k < self.accounts.doc_refs@.len(),
                None => account_pos(self.accounts.doc_refs@, id@) < 0,
            },
    {
        let ghost s = self.accounts.doc_refs@;
        proof {
            lemma_account_pos(s, id@);
        }
        let mut k: usize = 0;
        while k < self.accounts.doc_refs.len()
            invariant
                s == self.accounts.doc_refs@,
                k <= s.len(),
                forall|j: int| 0 <= j < k ==> #[trigger] s[j].data.id@ != id@,
                -1 <= account_pos(s, id@) < s.len(),
                account_pos(s, id@) >= 0 ==> s[account_pos(s, id@)].data.id@ == id@,
                forall|j: int|
                    0 <= j < s.len() && (account_pos(s, id@) < 0 || j < account_pos(s, id@)) ==> #[trigger] s[j].data.id@
                        != id@,
            decreases s.len() - k,
        {
            if str_eq(self.accounts.doc_refs[k].data.id.as_str(), id) {
                return Some(k);
            }
            k = k + 1;
        }
        None
    }

    /// Position of the partner with the given id.
    fn find_partner(&self, id: &str) -> (r: Option<usize>)
        ensures
            match r {
                Some(k) => k as int == partner_pos(self.partners.doc_refs@, id@) && k < self.partners.doc_refs@.len(),
                None => partner_pos(self.partners.doc_refs@, id@) < 0,
            },
    {
        let ghost s = self.partners.doc_refs@;
        proof {
            lemma_partner_pos(s, id@);
        }
        let mut k: usize = 0;
        while k < self.partners.doc_refs.len()
            invariant
                s == self.partners.doc_refs@,
                k <= s.len(),
                forall|j: int| 0 <= j < k ==> #[trigger] s[j].data.id@ != id@,
                -1 <= partner_pos(s, id@) < s.len(),
                partner_pos(s, id@) >= 0 ==> s[partner_pos(s, id@)].data.id@ == id@,
                forall|j: int|
                    0 <= j < s.len() && (partner_pos(s, id@) < 0 || j < partner_pos(s, id@)) ==> #[trigger] s[j].data.id@
                        != id@,
            decreases s.len() - k,
        {
            if str_eq(self.partners.doc_refs[k].data.id.as_str(), id) {
                return Some(k);
            }
            k = k + 1;
        }
        None
    }

    /// Whether an account has the given id.
    pub fn account_exist(&self, id: &str) -> (r: bool)
        ensures
            r == (account_pos(self.accounts.doc_refs@, id@) >= 0),
    {
        self.find_account(id).is_some()
    }

    /// The account with the given id.
    pub fn account_get(&self, id: &str) -> (res: Result<&Account, String>)
        ensures
            account_pos(self.accounts.doc_refs@, id@) >= 0 ==> res == Ok::<&Account, String>(
                &self.accounts.doc_refs@[account_pos(self.accounts.doc_refs@, id@)].data,
            ),
            account_pos(self.accounts.doc_refs@, id@) < 0 ==> (res matches Err(e) && e@
                == "Account not found"@),
    {
        match self.find_account(id) {
            Some(k) => Ok(&self.accounts.doc_refs[k].data),
            None => Err("Account not found".to_string()),
        }
    }

    /// The account with the given id, to change in place.
    pub fn account_get_mut(&mut self, id: &str) -> (res: Result<&mut Account, String>)
        ensures
            ({
                let p = account_pos(old(self).accounts.doc_refs@, id@);
                match res {
                    Ok(a) => {
                        &&& p >= 0
                        &&& *a == old(self).accounts.doc_refs@[p].data
                        &&& final(self).partners == old(self).partners
                        &&& final(self).accounts.doc_refs@ == old(self).accounts.doc_refs@.update(
                            p,
                            crate::repo::DocRef { data: *final(a), ..old(self).accounts.doc_refs@[p] },
                        )
                    },
                    Err(e) => p < 0 && e@ == "Account not found"@ && *final(self) == *old(self),
                }
            }),
    {
        match self.find_account(id) {
            Some(k) => Ok(&mut self.accounts.doc_refs[k].data),
            None => Err("Account not found".to_string()),
        }
    }

    /// Whether a partner has the given id.
    pub fn partner_exist(&self, id: &str) -> (r: bool)
        ensures
            r == (partner_pos(self.partners.doc_refs@, id@) >= 0),
    {
        self.find_partner(id).is_some()
    }

    /// The partner with the given id.
    pub fn partner_get(&self, id: &str) -> (res: Result<&Partner, String>)
        ensures
            partner_pos(self.partners.doc_refs@, id@) >= 0 ==> res == Ok::<&Partner, String>(
                &self.partners.doc_refs@[partner_pos(self.partners.doc_refs@, id@)].data,
            ),
            partner_pos(self.partners.doc_refs@, id@) < 0 ==> (res matches Err(e) && e@
                == "Partner not found"@),
    {
        match self.find_partner(id) {
            Some(k) => Ok(&self.partners.doc_refs[k].data),
            None => Err("Partner not found".to_string()),
        }
    }

    /// The partner with the given id, to change in place.
    pub fn partner_get_mut(&mut self, id: &str) -> (res: Result<&mut Partner, String>)
        ensures
            ({
                let p = partner_pos(old(self).partners.doc_refs@, id@);
                match res {
                    Ok(a) => {
                        &&& p >= 0
                        &&& *a == old(self).partners.doc_refs@[p].data
                        &&& final(self).accounts == old(self).accounts
                        &&& final(self).partners.doc_refs@ == old(self).partners.doc_refs@.update(
                            p,
                            crate::repo::DocRef { data: *final(a), ..old(self).partners.doc_refs@[p] },
                        )
                    },
                    Err(e) => p < 0 && e@ == "Partner not found"@ && *final(self) == *old(self),
                }
            }),
    {
        match self.find_partner(id) {
            Some(k) => Ok(&mut self.partners.doc_refs[k].data),
            None => Err("Partner not found".to_string()),
        }
    }
}

/// The project's index together with its repository: the bookkeeping
/// objects and the documents they are kept in line with.
pub struct IndexDb {
    pub ctx: Context,
    pub inner: IndexInner,
    pub repository: crate::repo::Repository<BitAction>,
}

/// The text of the document at position `p` of `docs`, each action's time
/// shown as its UTC date and time.
pub open spec fn printed_document(docs: Seq<crate::sync::Document<BitAction>>, p: int) -> Seq<char> {
    crate::repo::document_text(
        docs[p],
        docs[p].actions@.map_values(|a: crate::sync::ActionObject<BitAction>| crate::repo::utc_time_text(a.dtime)),
    )
}

/// What recording the patch action `patch` on the account `id` did to the
/// index and repository `a`, giving `b` and `res`: an unknown account, or
/// an account without its document, is an error that changes nothing.
/// Otherwise a staging patch action of the repository's user, following the
/// document's last action, was handed to the repository. When that was
/// taken in, the store is what the repository makes of it and the accounts
/// are in id order; when it was refused, the documents are as the refusal
/// leaves them.
pub open spec fn account_patch_done(a: IndexDb, b: IndexDb, id: Seq<char>, patch: BitAction, res: Result<(), String>) -> bool {
    let k = account_pos(a.inner.accounts.doc_refs@, id);
    let docs = a.repository.documents@;
    let p = crate::repo::doc_pos(docs, a.inner.accounts.doc_refs@[k].object_id);
    &&& k < 0 ==> (res matches Err(e) && e@ == "Account not found"@) && b == a
    &&& k >= 0 && p < 0 ==> (res matches Err(e) && e@ == "No document by id found"@) && b == a
    &&& k >= 0 && p >= 0 ==> exists|x: crate::sync::ActionObject<BitAction>|
        x.object_id == docs[p].id && x.storage_id@ == docs[p].storage_id@ && x.uid@ == a.repository.ctx.uid@
            && x.commit_id is None && x.parent_action_id == crate::sync::last_id(docs[p].actions@)
            && x.action == crate::sync::ActionKind::Patch(patch) && x.remote_signature is None
            && (res is Ok ==> #[trigger] crate::repo::client_add(crate::repo::store_view(docs), x) == Ok::<
            Seq<(u128, Seq<char>, Seq<crate::sync::ActionObject<BitAction>>, crate::sync::Status)>,
            Seq<char>,
        >(crate::repo::store_view(b.repository.documents@)) && ids_ordered(b.inner.accounts.doc_refs@))
            && (res matches Err(e) ==> crate::repo::add_refused(docs, b.repository.documents@, x, e@))
}

impl IndexDb {
    /// Commits every staging action of the repository (see
    /// `Repository::commit`).
    pub fn commit(&mut self, comment: String) -> (res: Result<(), String>)
        ensures
            final(self).ctx == old(self).ctx,
            final(self).inner == old(self).inner,
            !crate::repo::any_staging(old(self).repository.documents@) ==> (res matches Err(e) && e@
                == "Nothing to commit."@) && final(self).repository == old(self).repository,
            crate::repo::any_staging(old(self).repository.documents@) ==> res is Ok && crate::repo::commit_applied(
                old(self).repository,
                final(self).repository,
                final(self).repository.commit_log.locals@.last().id,
                final(self).repository.commit_log.locals@.last().dtime,
                comment@,
            ),
    {
        self.repository.commit(comment)
    }

    /// The history of the document with the given id, as text.
    pub fn print_document(&self, doc_id: u128) -> (res: Result<String, String>)
        ensures
            ({
                let p = crate::repo::doc_pos(self.repository.documents@, doc_id);
                &&& p < 0 ==> (res matches Err(e) && e@ == "No document by id found"@)
                &&& p >= 0 ==> (res matches Ok(t) && t@ == printed_document(self.repository.documents@, p))
            }),
    {
        let doc = self.repository.get_doc(doc_id)?;
        Ok(doc.print())
    }

    /// Makes the index forget every document.
    pub fn db_emptyindex(&mut self) -> (res: Result<(), String>)
        ensures
            res is Ok,
            final(self).inner.accounts.doc_refs@.len() == 0,
            final(self).inner.partners.doc_refs@.len() == 0,
            final(self).inner.synced_ids@ == Seq::<u128>::empty(),
            final(self).repository == old(self).repository,
            final(self).ctx == old(self).ctx,
    {
        crate::repo::IndexExt::<BitAction>::reset_docrefs(&mut self.inner)
    }

    /// Builds the index again from every document of the repository, in
    /// order; the index's first error is passed on.
    pub fn db_reindex(&mut self) -> (res: Result<(), String>)
        ensures
            final(self).repository == old(self).repository,
            final(self).ctx == old(self).ctx,
            res is Ok ==> final(self).inner.synced_ids@ == old(self).repository.documents@.map_values(
                |d: crate::sync::Document<BitAction>| d.id,
            ),
    {
        self.repository.reset_index(&mut self.inner)
    }

    /// The history of the account with the given id, as text.
    pub fn account_history(&self, id: &str) -> (res: Result<String, String>)
        ensures
            ({
                let k = account_pos(self.inner.accounts.doc_refs@, id@);
                let p = crate::repo::doc_pos(
                    self.repository.documents@,
                    self.inner.accounts.doc_refs@[k].object_id,
                );
                &&& k < 0 ==> (res matches Err(e) && e@ == "Account not found"@)
                &&& k >= 0 && p < 0 ==> (res matches Err(e) && e@ == "No document by id found"@)
                &&& k >= 0 && p >= 0 ==> (res matches Ok(t) && t@ == printed_document(
                    self.repository.documents@,
                    p,
                ))
            }),
    {
        match self.inner.find_account(id) {
            Some(k) => self.print_document(self.inner.accounts.doc_refs[k].object_id),
            None => Err("Account not found".to_string()),
        }
    }

    /// Records a patch action on the account with the given id: the action
    /// is made on the account's document and added to the repository, and
    /// the accounts are sorted by id again. Where the repository or the
    /// index refuses the action, its error is given back.
    fn account_patch(&mut self, id: &str, patch: BitAction) -> (res: Result<(), String>)
        ensures
            final(self).ctx == old(self).ctx,
            account_patch_done(*old(self), *final(self), id@, patch, res),
    {
        let k = match self.inner.find_account(id) {
            Some(k) => k,
            None => {
                return Err("Account not found".to_string());
            },
        };
        let ghost docs = self.repository.documents@;
        let ghost oid = self.inner.accounts.doc_refs@[k as int].object_id;
        let aob = self.inner.accounts.doc_refs[k].create_aob(&self.repository, patch)?;
        let ghost a = aob;
        proof {
            let p = crate::repo::doc_pos(docs, oid);
            assert(p >= 0);
            assert(a.object_id == docs[p].id && a.storage_id@ == docs[p].storage_id@
                && a.uid@ == self.repository.ctx.uid@ && a.commit_id is None
                && a.parent_action_id == crate::sync::last_id(docs[p].actions@)
                && a.action == crate::sync::ActionKind::Patch(patch) && a.remote_signature is None);
        }
        match self.repository.add_aob(aob, &mut self.inner) {
            Ok(()) => {},
            Err(e) => {
                proof {
                    assert(crate::repo::add_refused(docs, self.repository.documents@, a, e@));
                }
                return Err(e);
            },
        }
        proof {
            assert(crate::repo::client_add(crate::repo::store_view(docs), a) == Ok::<
                Seq<(u128, Seq<char>, Seq<crate::sync::ActionObject<BitAction>>, crate::sync::Status)>,
                Seq<char>,
            >(crate::repo::store_view(self.repository.documents@)));
        }
        let ghost unsorted = self.inner.accounts.doc_refs@;
        self.inner.account_sort();
        proof {
            law_sorted_accounts_are_ordered(unsorted);
        }
        Ok(())
    }

    /// Records the removal of the account with the given id (see
    /// `account_patch`).
    pub fn account_remove(&mut self, id: &str) -> (res: Result<(), String>)
        ensures
            final(self).ctx == old(self).ctx,
            account_patch_done(*old(self), *final(self), id@, BitAction::AccountRemove, res),
    {
        self.account_patch(id, BitAction::AccountRemove)
    }

    /// Records the renaming of the account with the given id (see
    /// `account_patch`).
    pub fn account_rename(&mut self, id: &str, name: String) -> (res: Result<(), String>)
        ensures
            final(self).ctx == old(self).ctx,
            account_patch_done(*old(self), *final(self), id@, BitAction::AccountRename { name: name }, res),
    {
        self.account_patch(id, BitAction::AccountRename { name })
    }

    /// Drops the partner with the given id from the index.
    pub fn partner_remove(&mut self, id: &str) -> (res: Result<(), String>)
        ensures
            final(self).ctx == old(self).ctx,
            final(self).repository == old(self).repository,
            final(self).inner.accounts == old(self).inner.accounts,
            partner_pos(old(self).inner.partners.doc_refs@, id@) < 0 ==> (res matches Err(e) && e@
                == "Partner not found"@) && *final(self) == *old(self),
            partner_pos(old(self).inner.partners.doc_refs@, id@) >= 0 ==> res is Ok
                && final(self).inner.partners.doc_refs@ == old(self).inner.partners.doc_refs@.filter(
                |r: crate::repo::DocRef<Partner, BitAction>| r.data.id@ != id@,
            ),
    {
        let _ = self.inner.partner_get(id)?;
        let ghost olds = self.inner.partners.doc_refs@;
        let mut src: Vec<crate::repo::DocRef<Partner, BitAction>> = Vec::new();
        std::mem::swap(&mut src, &mut self.inner.partners.doc_refs);
        let mut kept: Vec<crate::repo::DocRef<Partner, BitAction>> = Vec::new();
        let ghost mut i: int = 0;
        proof {
            assert(olds.skip(0) =~= olds);
            assert(olds.take(0).filter(|r: crate::repo::DocRef<Partner, BitAction>| r.data.id@ != id@)
                =~= Seq::<crate::repo::DocRef<Partner, BitAction>>::empty());
        }
        while src.len() > 0
            invariant
                0 <= i <= olds.len(),
                src@ == olds.skip(i),
                kept@ == olds.take(i).filter(|r: crate::repo::DocRef<Partner, BitAction>| r.data.id@ != id@),
            decreases src.len(),
        {
            let r = src.remove(0);
            proof {
                assert(olds.take(i + 1) =~= olds.take(i).push(r));
                assert(olds.skip(i + 1) =~= olds.skip(i).drop_first());
                olds.take(i).lemma_filter_push(r, |r: crate::repo::DocRef<Partner, BitAction>| r.data.id@ != id@);
            }
            let keep = !str_eq(r.data.id.as_str(), id);
            if keep {
                kept.push(r);
            }
            proof {
                i = i + 1;
            }
        }
        proof {
            assert(olds.take(i) =~= olds);
        }
        self.inner.partners.doc_refs = kept;
        Ok(())
    }

    /// Renames the partner with the given id in the index.
    pub fn partner_rename(&mut self, id: &str, name: String) -> (res: Result<(), String>)
        ensures
            final(self).ctx == old(self).ctx,
            final(self).repository == old(self).repository,
            final(self).inner.accounts == old(self).inner.accounts,
            ({
                let p = partner_pos(old(self).inner.partners.doc_refs@, id@);
                let olds = old(self).inner.partners.doc_refs@;
                &&& p < 0 ==> (res matches Err(e) && e@ == "Partner not found"@) && *final(self) == *old(self)
                &&& p >= 0 ==> res is Ok && final(self).inner.partners.doc_refs@ == olds.update(
                    p,
                    crate::repo::DocRef { data: Partner { name: name, ..olds[p].data }, ..olds[p] },
                )
            }),
    {
        let a = self.inner.partner_get_mut(id)?;
        a.name = name;
        Ok(())
    }
}

impl crate::repo::IndexExt<BitAction> for IndexInner {
    open spec fn synced(&self) -> Seq<u128> {
        self.synced_ids@
    }

    fn reset_docrefs(&mut self) -> (res: Result<(), String>)
        ensures
            res is Ok,
            final(self).accounts.doc_refs@.len() == 0,
            final(self).partners.doc_refs@.len() == 0,
    {
        self.accounts.reset();
        self.partners.reset();
        self.synced_ids = Ghost(Seq::empty());
        Ok(())
    }

    /// Brings the accounts or partners in line with an account or partner
    /// document; a note document is taken in without change, as this index
    /// keeps no notes; any other storage is an error.
    fn sync_doc(&mut self, doc: &crate::sync::Document<BitAction>) -> (res: Result<(), String>)
        ensures
            doc.actions@.len() == 0 ==> res is Ok && final(self).accounts == old(self).accounts
                && final(self).partners == old(self).partners,
            doc.actions@.len() > 0 && doc.storage_id@ == "account"@ ==> if crate::repo::can_sync_spec(
                old(self).accounts.doc_refs@,
                *doc,
            ) {
                res is Ok && final(self).partners == old(self).partners && (exists|r: Result<(), String>|
                    crate::repo::sync_spec(old(self).accounts.doc_refs@, final(self).accounts.doc_refs@, *doc, r))
            } else {
                (res matches Err(e) && e@ == "Just account action can be processed for accounts"@)
                    && final(self).accounts == old(self).accounts && final(self).partners == old(self).partners
            },
            doc.actions@.len() > 0 && doc.storage_id@ == "partner"@ ==> if crate::repo::can_sync_spec(
                old(self).partners.doc_refs@,
                *doc,
            ) {
                res is Ok && final(self).accounts == old(self).accounts && (exists|r: Result<(), String>|
                    crate::repo::sync_spec(old(self).partners.doc_refs@, final(self).partners.doc_refs@, *doc, r))
            } else {
                (res matches Err(e) && e@ == "Only partner action can be patched to partner"@)
                    && final(self).accounts == old(self).accounts && final(self).partners == old(self).partners
            },
            doc.actions@.len() > 0 && doc.storage_id@ == "note"@ ==> res is Ok && final(self).accounts
                == old(self).accounts && final(self).partners == old(self).partners,
            doc.actions@.len() > 0 && doc.storage_id@ != "account"@ && doc.storage_id@ != "partner"@
                && doc.storage_id@ != "note"@ ==> (res matches Err(e) && e@ == "No storage found by id"@)
                && final(self).accounts == old(self).accounts && final(self).partners == old(self).partners,
    {
        proof {
            reveal_strlit("account");
            reveal_strlit("partner");
            reveal_strlit("note");
            assert("account"@[0] != "partner"@[0]);
        }
        let ghost taken = self.synced_ids@.push(doc.id);
        if doc.actions.len() == 0 {
            self.synced_ids = Ghost(taken);
            return Ok(());
        }
        if str_eq(doc.storage_id.as_str(), "account") {
            if !self.accounts.can_sync(doc) {
                return Err("Just account action can be processed for accounts".to_string());
            }
            let r = self.accounts.sync_with_doc(doc);
            self.synced_ids = Ghost(taken);
            proof {
                assert(crate::repo::sync_spec(old(self).accounts.doc_refs@, self.accounts.doc_refs@, *doc, r));
            }
            Ok(())
        } else if str_eq(doc.storage_id.as_str(), "partner") {
            if !self.partners.can_sync(doc) {
                return Err("Only partner action can be patched to partner".to_string());
            }
            let r = self.partners.sync_with_doc(doc);
            self.synced_ids = Ghost(taken);
            proof {
                assert(crate::repo::sync_spec(old(self).partners.doc_refs@, self.partners.doc_refs@, *doc, r));
            }
            Ok(())
        } else if str_eq(doc.storage_id.as_str(), "note") {
            self.synced_ids = Ghost(taken);
            Ok(())
        } else {
            Err("No storage found by id".to_string())
        }
    }
}

} // verus!
