use bit::corelib::{Account, BitAction, Partner};
use bit::repo::{ActionPatch, CommitLog, DocRef, DocRefVec, IndexExt, Mode, Repository, ServerInner};
use bit::sync::{ActionExt, ActionKind, ActionObject, Commit, Context, Document, Status};

fn aob(id: u128, object_id: u128, parent: Option<u128>, action: ActionKind<BitAction>) -> ActionObject<BitAction> {
    ActionObject {
        id,
        storage_id: "account".to_string(),
        object_id,
        uid: "peti".to_string(),
        dtime: 0,
        commit_id: None,
        parent_action_id: parent,
        action,
        remote_signature: None,
    }
}


fn repo() -> Repository<BitAction> {
    Repository::init(Context::init("./data".to_string(), "peti".to_string()), Mode::local())
}

#[test]
fn mode_names() {
    assert_eq!(Mode::server("0.0.0.0:1".to_string()).to_string(), "SERVER");
    assert_eq!(Mode::remote("http://x".to_string()).to_string(), "REMOTE");
    assert_eq!(Mode::local().to_string(), "LOCAL");
    let mut r = repo();
    assert!(!r.is_server_mode());
    assert_eq!(r.get_server_address(), None);
    r.mode = Mode::server("addr".to_string());
    assert!(r.is_server_mode());
    assert_eq!(r.get_server_address(), Some(&"addr".to_string()));
    assert_eq!(r.get_remote_address(), None);
    r.mode = Mode::remote("http://x".to_string());
    assert_eq!(r.get_remote_address(), Some(&"http://x".to_string()));
}

#[test]
fn documents_are_created_and_patched_in_order() {
    let mut r = repo();
    let mut index = bit::corelib::IndexInner::new();
    let create = aob(1, 100, None, ActionKind::Patch(BitAction::AccountRemove));
    assert_eq!(
        r.add_aob(create, &mut index).unwrap_err(),
        "Patch aob cannot be added to a not existing document. Pull first."
    );
    let create = aob(1, 100, None, ActionKind::Create(BitAction::AccountRemove));
    r.add_aob(create, &mut index).unwrap();
    let patch = aob(2, 100, Some(1), ActionKind::Patch(BitAction::AccountRename { name: "Bank".to_string() }));
    r.add_aob(patch, &mut index).unwrap();
    assert_eq!(index.account_get("").unwrap().name, "Bank");
    let doc = r.get_doc(100).unwrap();
    assert_eq!(doc.actions.len(), 2);
    assert_eq!(doc.status, Status::Conflict);
    let orphan = aob(3, 100, Some(77), ActionKind::Patch(BitAction::AccountRemove));
    assert_eq!(r.add_aob(orphan, &mut index).unwrap_err(), "Cannot insert aob; parent aob not found");
    assert_eq!(r.get_doc(5).unwrap_err(), "No document by id found");
}

#[test]
fn refused_index_puts_document_back() {
    let mut r = repo();
    let mut index = bit::corelib::IndexInner::new();
    r.add_aob(aob(1, 100, None, ActionKind::Create(BitAction::AccountRemove)), &mut index).unwrap();
    let patch = aob(2, 100, Some(1), ActionKind::Patch(BitAction::PartnerRemove));
    assert_eq!(r.add_aob(patch, &mut index).unwrap_err(), "Just account action can be processed for accounts");
    assert_eq!(r.get_doc(100).unwrap().actions.len(), 1);
}

#[test]
fn commit_takes_every_staging_action() {
    let mut r = repo();
    let mut index = bit::corelib::IndexInner::new();
    assert_eq!(r.commit_with(9, 0, "c".to_string()).unwrap_err(), "Nothing to commit.");
    r.add_aob(aob(1, 100, None, ActionKind::Create(BitAction::AccountRemove)), &mut index).unwrap();
    r.add_aob(aob(2, 200, None, ActionKind::Create(BitAction::AccountRemove)), &mut index).unwrap();
    assert_eq!(r.get_staging_aobs().len(), 2);
    r.commit_with(9, 5, "first".to_string()).unwrap();
    assert_eq!(r.local_commits().len(), 1);
    let c = &r.local_commits()[0];
    assert_eq!(c.id, 9);
    assert_eq!(c.ancestor_id, None);
    assert_eq!(c.actions.len(), 2);
    assert_eq!(c.actions[0].commit_id, Some(9));
    assert_eq!(r.get_staging_aobs().len(), 0);
    assert_eq!(r.commit_with(10, 6, "again".to_string()).unwrap_err(), "Nothing to commit.");
    let pushed = r.push_commits();
    assert_eq!(pushed.len(), 1);
    assert_eq!(pushed[0].ancestor_id, None);
}

#[test]
fn server_merges_a_pushed_commit_once() {
    let mut server = ServerInner {
        repository: Repository::init(Context::init("./srv".to_string(), "server".to_string()), Mode::server("a".to_string())),
    };
    let mut c: Commit<BitAction> = Commit::new(7, "peti".to_string(), 0, "push".to_string());
    c.add_action_object(&aob(1, 100, None, ActionKind::Create(BitAction::AccountRemove)));
    let signed = server
        .merge_push_request(c, vec!["sig-aob".to_string()], "sig-commit".to_string())
        .unwrap();
    assert_eq!(signed.remote_signature, Some("sig-commit".to_string()));
    assert_eq!(signed.actions[0].remote_signature, Some("sig-aob".to_string()));
    assert_eq!(server.repository.commit_log.index.latest_remote_commit_id, Some(7));
    assert_eq!(server.repository.get_doc(100).unwrap().actions.len(), 1);

    let stale: Commit<BitAction> = Commit::new(8, "peti".to_string(), 0, "stale".to_string());
    assert_eq!(
        server.merge_push_request(stale, vec![], "s".to_string()).unwrap_err(),
        "Commit parent id error. Please pull before commit."
    );
}

#[test]
fn remote_log_takes_only_the_next_commit() {
    let mut log: CommitLog<BitAction> = CommitLog::init();
    let c1: Commit<BitAction> = Commit::new(1, "u".to_string(), 0, "a".to_string());
    log.add_remote_commit(c1).unwrap();
    let c3: Commit<BitAction> = Commit::new(3, "u".to_string(), 0, "b".to_string());
    assert_eq!(log.add_remote_commit(c3).unwrap_err(), "Remote commit ancestor ID error! Please pull");
    let mut c2: Commit<BitAction> = Commit::new(2, "u".to_string(), 0, "c".to_string());
    c2.set_ancestor_id(Some(1));
    log.add_remote_commit(c2).unwrap();
    assert_eq!(log.load_remotes_after(1).len(), 1);
    assert_eq!(log.load_remotes_after(1)[0].id, 2);
    assert_eq!(log.load_remotes_after(5).len(), 0);
    log.add_local_commit(Commit::new(10, "u".to_string(), 0, "l".to_string()));
    log.add_local_commit(Commit::new(11, "u".to_string(), 0, "l".to_string()));
    assert_eq!(log.locals[1].ancestor_id, Some(10));
    log.reset_local_commits();
    assert_eq!(log.locals.len(), 0);
    assert_eq!(log.index.latest_local_commit_id, None);
}

#[test]
fn document_sync_replays_unseen_actions() {
    let mut refs: DocRefVec<Account, BitAction> = DocRefVec::new();
    let mut doc: Document<BitAction> = Document {
        id: 100,
        storage_id: "account".to_string(),
        actions: vec![aob(1, 100, None, ActionKind::Create(BitAction::AccountRename { name: "A".to_string() }))],
        status: Status::Okay,
    };
    refs.sync_with_doc(&doc).unwrap();
    assert_eq!(refs.get(100).unwrap().data.name, "A");
    doc.actions.push(aob(2, 100, Some(1), ActionKind::Patch(BitAction::AccountRemove)));
    refs.sync_with_doc(&doc).unwrap();
    let r = refs.get(100).unwrap();
    assert!(r.data.removed);
    assert_eq!(r.last_aob_id, 2);
    assert_eq!(refs.get(5).unwrap_err(), "Cannot find docref by objectid");
    refs.get_mut(100).unwrap().data.name = "B".to_string();
    assert_eq!(refs.get(100).unwrap().data.name, "B");
    assert_eq!(refs.get_mut(5).unwrap_err(), "Cannot find docref by objectid");
    let init = refs.create_init_aob(BitAction::AccountRemove, "peti".to_string());
    assert_eq!(init.storage_id, "account");
    assert_eq!(init.parent_action_id, None);
    let _ = DocRef::<Account, BitAction>::init_from_aob(&init);
}

#[test]
fn accounts_and_partners() {
    let mut a = Account::new("1".to_string(), "Bank".to_string());
    a.rename("Cash".to_string());
    a.remove();
    assert!(a.removed);
    a.restore();
    assert!(!a.removed);
    assert_eq!(a.name(), "Cash");
    assert_eq!(a.id(), "1");
    a.patch(BitAction::AccountRemove, 0, "u");
    assert!(a.removed);
    let mut p = Partner::new("p".to_string(), "Shop".to_string());
    p.set_name("Store".to_string());
    p.restore();
    assert!(p.removed);
    assert_eq!(BitAction::AccountRename { name: "X".to_string() }.display(), "Rename account to: X");
}

#[test]
fn staging_and_signatures_of_a_document() {
    let mut doc: Document<BitAction> = Document {
        id: 1,
        storage_id: "account".to_string(),
        actions: vec![aob(1, 1, None, ActionKind::Create(BitAction::AccountRemove))],
        status: Status::Okay,
    };
    assert!(doc.check_has_staging_aob());
    assert_eq!(doc.clear_local_aobs(&vec!["s".to_string()]).unwrap_err(), "Only remote StorageObject can be cleared locally");
    doc.actions[0].remote_sign("s".to_string());
    assert!(doc.actions[0].has_valid_signature(&"s".to_string()));
    doc.clear_local_aobs(&vec!["s".to_string()]).unwrap();
    assert_eq!(doc.actions.len(), 1);
    doc.clear_staging().unwrap();
    assert_eq!(doc.actions.len(), 0);
}

#[test]
fn document_history_text() {
    let mut d: Document<BitAction> = Document {
        id: 0x67e55044_10b1_426f_9247_bb680e5fe0c8,
        storage_id: "account".to_string(),
        actions: vec![aob(1, 1, None, ActionKind::Create(BitAction::AccountRemove))],
        status: Status::Okay,
    };
    let text = d.print_with(&vec!["2023-01-01 10:00:00".to_string()]);
    assert_eq!(
        text,
        "ID: 67e55044-10b1-426f-9247-bb680e5fe0c8\nStorage ID: account\nStatus: Ok\n\nHistory:\n----------------------\n\n[S] CREATE: Remove account\n    2023-01-01 10:00:00 - peti\n\n"
    );
    d.actions[0].commit_id = Some(3);
    assert!(d.print().contains("[L] CREATE: Remove account"));
}

#[test]
fn index_keeps_accounts_in_line() {
    use_index();
}

fn use_index() {
    let mut index = bit::corelib::IndexInner::new();
    let mut r = repo();
    r.add_aob(aob(1, 100, None, ActionKind::Create(BitAction::AccountRename { name: "Bank".to_string() })), &mut index)
        .unwrap();
    assert!(index.account_exist(""));
    assert_eq!(index.account_get("").unwrap().name, "Bank");
    assert_eq!(index.account_get("x").unwrap_err(), "Account not found");
    assert_eq!(index.partner_get("x").unwrap_err(), "Partner not found");
    let wrong = aob(5, 300, None, ActionKind::Create(BitAction::PartnerRemove));
    assert_eq!(r.add_aob(wrong, &mut index).unwrap_err(), "Just account action can be processed for accounts");
}

#[test]
fn index_get_mut_changes_in_place() {
    let mut index = bit::corelib::IndexInner::new();
    let mut r = repo();
    r.add_aob(aob(1, 100, None, ActionKind::Create(BitAction::AccountRename { name: "Bank".to_string() })), &mut index)
        .unwrap();
    index.account_get_mut("").unwrap().name = "Cash".to_string();
    assert_eq!(index.account_get("").unwrap().name, "Cash");
    assert_eq!(index.account_get_mut("nope").unwrap_err(), "Account not found");
    assert_eq!(index.partner_get_mut("nope").unwrap_err(), "Partner not found");
}

fn account_ref(object_id: u128, id: &str) -> DocRef<Account, BitAction> {
    DocRef {
        object_id,
        storage_id: "account".to_string(),
        data: Account::new(id.to_string(), format!("name {object_id}")),
        last_aob_id: 0,
        action: std::marker::PhantomData,
    }
}

#[test]
fn index_account_sort_orders_by_id() {
    let mut index = bit::corelib::IndexInner::new();
    index.accounts.doc_refs = vec![
        account_ref(1, "20"),
        account_ref(2, "1"),
        account_ref(3, "b"),
        account_ref(4, "1"),
        account_ref(5, "10"),
        account_ref(6, "A"),
    ];
    index.account_sort();
    let order: Vec<u128> = index.accounts.doc_refs.iter().map(|r| r.object_id).collect();
    assert_eq!(order, vec![2, 4, 5, 1, 6, 3]);
}

#[test]
fn added_action_is_found_in_its_document() {
    let mut index = bit::corelib::IndexInner::new();
    let mut r = repo();
    r.add_aob(aob(1, 100, None, ActionKind::Create(BitAction::AccountRename { name: "Bank".to_string() })), &mut index)
        .unwrap();
    r.add_aob(aob(2, 100, Some(1), ActionKind::Patch(BitAction::AccountRemove)), &mut index).unwrap();
    let ids: Vec<u128> = r.get_doc(100).unwrap().actions.iter().map(|a| a.id).collect();
    assert_eq!(ids, vec![1, 2]);
    r.add_aob(aob(2, 100, Some(1), ActionKind::Patch(BitAction::AccountRemove)), &mut index).unwrap();
    assert_eq!(r.get_doc(100).unwrap().actions.len(), 2);
}

#[test]
fn reset_index_rebuilds_from_documents() {
    let mut index = bit::corelib::IndexInner::new();
    let mut r = repo();
    r.add_aob(aob(1, 100, None, ActionKind::Create(BitAction::AccountRename { name: "Bank".to_string() })), &mut index)
        .unwrap();
    index.account_get_mut("").unwrap().name = "changed".to_string();
    r.reset_index(&mut index).unwrap();
    assert_eq!(index.account_get("").unwrap().name, "Bank");
    assert_eq!(index.accounts.doc_refs.len(), 1);
}

#[test]
fn patch_appends_a_patch_action() {
    let mut d: Document<BitAction> = Document {
        id: 100,
        storage_id: "account".to_string(),
        actions: vec![aob(1, 100, None, ActionKind::Create(BitAction::AccountRemove))],
        status: Status::Okay,
    };
    let ctx = Context::init("./data".to_string(), "anna".to_string());
    d.patch(&ctx, BitAction::AccountRename { name: "X".to_string() }).unwrap();
    assert_eq!(d.actions.len(), 2);
    let a = &d.actions[1];
    assert_eq!(a.parent_action_id, Some(1));
    assert_eq!(a.object_id, 100);
    assert_eq!(a.uid, "anna");
    assert_eq!(a.storage_id, "account");
    assert_eq!(a.commit_id, None);
    assert!(matches!(a.action, ActionKind::Patch(BitAction::AccountRename { .. })));
}

#[test]
fn print_shows_utc_times() {
    let mut a = aob(1, 100, None, ActionKind::Create(BitAction::AccountRemove));
    a.dtime = 1_500_000;
    let d: Document<BitAction> = Document { id: 100, storage_id: "account".to_string(), actions: vec![a], status: Status::Okay };
    assert!(d.print().contains("    1970-01-01 00:00:01.500 - peti\n"));
}

fn pulled(id: u128, ancestor: Option<u128>, actions: Vec<ActionObject<BitAction>>) -> Commit<BitAction> {
    Commit {
        id,
        uid: "server".to_string(),
        dtime: 0,
        comment: "pulled".to_string(),
        ancestor_id: ancestor,
        actions,
        remote_signature: Some("sig".to_string()),
    }
}

#[test]
fn apply_remote_commit_takes_in_pulled_actions() {
    let mut index = bit::corelib::IndexInner::new();
    let mut r = repo();
    r.apply_remote_commit(pulled(7, None, vec![]), &mut index).unwrap();
    assert_eq!(r.remote_commits().len(), 1);
    assert_eq!(
        r.apply_remote_commit(pulled(8, None, vec![]), &mut index).unwrap_err(),
        "Remote commit ancestor ID error! Please pull"
    );
    let create = aob(1, 100, None, ActionKind::Create(BitAction::AccountRename { name: "Bank".to_string() }));
    r.apply_remote_commit(pulled(8, Some(7), vec![create]), &mut index).unwrap();
    assert_eq!(index.account_get("").unwrap().name, "Bank");
    let orphan = aob(3, 100, Some(99), ActionKind::Patch(BitAction::AccountRemove));
    assert_eq!(
        r.apply_remote_commit(pulled(9, Some(8), vec![orphan]), &mut index).unwrap_err(),
        "Cannot insert aob; parent aob not found"
    );
    assert_eq!(r.get_doc(100).unwrap().actions.len(), 1);
}

#[test]
fn note_documents_are_taken_in() {
    let mut index = bit::corelib::IndexInner::new();
    let mut r = repo();
    let mut note = aob(1, 500, None, ActionKind::Create(BitAction::NoteUnset {
        partner: true,
        description: false,
        idate: false,
        cdate: false,
        ddate: false,
        net: false,
        vat: false,
        gross: false,
    }));
    note.storage_id = "note".to_string();
    r.add_aob(note, &mut index).unwrap();
    assert_eq!(index.accounts.doc_refs.len(), 0);
    let mut other = aob(2, 600, None, ActionKind::Create(BitAction::AccountRemove));
    other.storage_id = "ledger".to_string();
    assert_eq!(r.add_aob(other, &mut index).unwrap_err(), "No storage found by id");
}

fn index_db() -> bit::corelib::IndexDb {
    let mut db = bit::corelib::IndexDb {
        ctx: bit::corelib::Context::new_cwd("./p".to_string()),
        inner: bit::corelib::IndexInner::new(),
        repository: repo(),
    };
    db.repository
        .add_aob(aob(1, 100, None, ActionKind::Create(BitAction::AccountRename { name: "Bank".to_string() })), &mut db.inner)
        .unwrap();
    db
}

#[test]
fn index_db_account_patches() {
    let mut db = index_db();
    assert_eq!(db.account_rename("nope", "X".to_string()).unwrap_err(), "Account not found");
    db.account_rename("", "Cash".to_string()).unwrap();
    assert_eq!(db.inner.account_get("").unwrap().name, "Cash");
    assert_eq!(db.repository.get_doc(100).unwrap().actions.len(), 2);
    db.account_remove("").unwrap();
    assert!(db.inner.account_get("").unwrap().removed);
    let history = db.account_history("").unwrap();
    assert!(history.contains("Rename account to: Cash"));
    assert!(history.contains("Remove account"));
    assert_eq!(db.account_history("nope").unwrap_err(), "Account not found");
    assert_eq!(db.print_document(5).unwrap_err(), "No document by id found");
    db.commit("c".to_string()).unwrap();
    assert_eq!(db.commit("again".to_string()).unwrap_err(), "Nothing to commit.");
}

#[test]
fn index_db_rebuilds_and_empties() {
    let mut db = index_db();
    db.inner.account_get_mut("").unwrap().name = "stale".to_string();
    db.db_reindex().unwrap();
    assert_eq!(db.inner.account_get("").unwrap().name, "Bank");
    db.db_emptyindex().unwrap();
    assert!(!db.inner.account_exist(""));
}

#[test]
fn index_db_partner_edits() {
    let mut db = index_db();
    db.inner.partners.doc_refs = vec![
        DocRef {
            object_id: 1,
            storage_id: "partner".to_string(),
            data: Partner::new("p1".to_string(), "One".to_string()),
            last_aob_id: 0,
            action: std::marker::PhantomData,
        },
        DocRef {
            object_id: 2,
            storage_id: "partner".to_string(),
            data: Partner::new("p2".to_string(), "Two".to_string()),
            last_aob_id: 0,
            action: std::marker::PhantomData,
        },
    ];
    db.partner_rename("p2", "Deux".to_string()).unwrap();
    assert_eq!(db.inner.partner_get("p2").unwrap().name, "Deux");
    db.partner_remove("p1").unwrap();
    assert_eq!(db.inner.partner_get("p1").unwrap_err(), "Partner not found");
    assert_eq!(db.partner_remove("p1").unwrap_err(), "Partner not found");
    assert_eq!(db.partner_rename("p1", "x".to_string()).unwrap_err(), "Partner not found");
}
