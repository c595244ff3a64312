//! The general ledger: for every day of the year and every account, the
//! opening balance, the debit and credit turnover and the closing balance.

use vstd::prelude::*;

use crate::date::{is_leap_year, is_valid_date, spec_ordinal0, today, Date};
use crate::note::Note;
use crate::text::str_eq;

verus! {

/// An account of the chart of accounts.
#[derive(Debug)]
pub struct Account {
    pub id: String,
    pub name: String,
}

impl Account {
    /// An account with the given id and name.
    pub fn new(id: String, name: String) -> (r: Self)
        ensures
            r.id@ == id@,
            r.name@ == name@,
    {
        Self { id, name }
    }
}

/// One accounted amount between a debit and a credit account on a day.
#[derive(Debug)]
pub struct Transaction {
    pub completion_date: Date,
    pub amount: i64,
    pub debit: String,
    pub credit: String,
}

/// Balances of one account on one day.
#[derive(Debug, Clone, Copy, PartialEq, Eq, Structural)]
pub struct LedgerIndexItem {
    /// Balance opening
    pub bo: i64,
    /// Turnover debit
    pub td: i64,
    /// Turnover credit
    pub tc: i64,
    /// Balance closing
    pub bc: i64,
}

impl Default for LedgerIndexItem {
    fn default() -> (r: Self)
        ensures
            r == (LedgerIndexItem { bo: 0, td: 0, tc: 0, bc: 0 }),
    {
        LedgerIndexItem { bo: 0, td: 0, tc: 0, bc: 0 }
    }
}

/// `x` fits an `i64`.
pub open spec fn fits(x: int) -> bool {
    i64::MIN <= x <= i64::MAX
}

/// The item after `amount` is booked to its debit side on the completion day.
pub open spec fn debited(it: LedgerIndexItem, amount: int) -> LedgerIndexItem {
    LedgerIndexItem {
        td: (it.td + amount) as i64,
        bc: (it.bo + ((it.td + amount) - it.tc)) as i64,
        ..it
    }
}

/// Booking `amount` to the debit side stays within `i64`.
pub open spec fn debit_fits(it: LedgerIndexItem, amount: int) -> bool {
    fits(it.td + amount) && fits((it.td + amount) - it.tc) && fits(
        it.bo + ((it.td + amount) - it.tc),
    )
}

/// The item after `amount` is booked to its credit side on the completion day.
pub open spec fn credited(it: LedgerIndexItem, amount: int) -> LedgerIndexItem {
    LedgerIndexItem {
        tc: (it.tc + amount) as i64,
        bc: (it.bo + (it.td - (it.tc + amount))) as i64,
        ..it
    }
}

/// Booking `amount` to the credit side stays within `i64`.
pub open spec fn credit_fits(it: LedgerIndexItem, amount: int) -> bool {
    fits(it.tc + amount) && fits(it.td - (it.tc + amount)) && fits(
        it.bo + (it.td - (it.tc + amount)),
    )
}

/// The item of a later day after a closing balance `delta` of the completion
/// day is carried into it: the opening balance grows by `delta` and the
/// closing balance by the new `bo + td - tc`.
pub open spec fn carried(it: LedgerIndexItem, delta: int) -> LedgerIndexItem {
    LedgerIndexItem {
        bo: (it.bo + delta) as i64,
        bc: (it.bc + (((it.bo + delta) + it.td) - it.tc)) as i64,
        ..it
    }
}

/// Carrying `delta` stays within `i64`.
pub open spec fn carry_fits(it: LedgerIndexItem, delta: int) -> bool {
    fits(it.bo + delta) && fits((it.bo + delta) + it.td) && fits(((it.bo + delta) + it.td) - it.tc)
        && fits(it.bc + (((it.bo + delta) + it.td) - it.tc))
}

/// The completion day after booking: debit first, then credit.
pub open spec fn booked_day(day: Seq<LedgerIndexItem>, di: int, ci: int, amount: int) -> Seq<
    LedgerIndexItem,
> {
    let d1 = day.update(di, debited(day[di], amount));
    d1.update(ci, credited(d1[ci], amount))
}

/// Booking on the completion day stays within `i64`.
pub open spec fn booked_day_fits(day: Seq<LedgerIndexItem>, di: int, ci: int, amount: int) -> bool {
    let d1 = day.update(di, debited(day[di], amount));
    debit_fits(day[di], amount) && credit_fits(d1[ci], amount)
}

/// A later day after the closing balances `cbd` (debit) and `cbc` (credit)
/// of the completion day are carried into it.
pub open spec fn carried_day(
    day: Seq<LedgerIndexItem>,
    di: int,
    ci: int,
    cbd: int,
    cbc: int,
) -> Seq<LedgerIndexItem> {
    let d1 = day.update(di, carried(day[di], cbd));
    d1.update(ci, carried(d1[ci], cbc))
}

/// Carrying into a later day stays within `i64`.
pub open spec fn carried_day_fits(
    day: Seq<LedgerIndexItem>,
    di: int,
    ci: int,
    cbd: int,
    cbc: int,
) -> bool {
    let d1 = day.update(di, carried(day[di], cbd));
    carry_fits(day[di], cbd) && carry_fits(d1[ci], cbc)
}

/// Closing balance of the debit account on the completion day, after its debit.
pub open spec fn closing_debit(index: Seq<Seq<LedgerIndexItem>>, day: int, di: int, amount: int) -> int {
    debited(index[day][di], amount).bc as int
}

/// Closing balance of the credit account on the completion day, after booking.
pub open spec fn closing_credit(index: Seq<Seq<LedgerIndexItem>>, day: int, di: int, ci: int, amount: int) -> int {
    booked_day(index[day], di, ci, amount)[ci].bc as int
}

/// The whole index after a transaction of `amount` on `day` between the
/// accounts at positions `di` (debit) and `ci` (credit).
pub open spec fn booked_index(
    index: Seq<Seq<LedgerIndexItem>>,
    day: int,
    di: int,
    ci: int,
    amount: int,
) -> Seq<Seq<LedgerIndexItem>> {
    let cbd = closing_debit(index, day, di, amount);
    let cbc = closing_credit(index, day, di, ci, amount);
    Seq::new(
        index.len(),
        |d: int|
            if d < day {
                index[d]
            } else if d == day {
                booked_day(index[d], di, ci, amount)
            } else {
                carried_day(index[d], di, ci, cbd, cbc)
            },
    )
}

/// Booking the transaction stays within `i64` everywhere.
pub open spec fn booked_index_fits(
    index: Seq<Seq<LedgerIndexItem>>,
    day: int,
    di: int,
    ci: int,
    amount: int,
) -> bool {
    let cbd = closing_debit(index, day, di, amount);
    let cbc = closing_credit(index, day, di, ci, amount);
    &&& booked_day_fits(index[day], di, ci, amount)
    &&& forall|d: int|
        day < d < index.len() ==> #[trigger] carried_day_fits(index[d], di, ci, cbd, cbc)
}

/// Position of `id` among the accounts (or `-1`).
pub open spec fn account_pos(accounts: Seq<Seq<char>>, id: Seq<char>) -> int
    decreases accounts.len(),
{
    if accounts.len() == 0 {
        -1
    } else if accounts.last() == id {
        accounts.len() - 1
    } else {
        account_pos(accounts.drop_last(), id)
    }
}

proof fn lemma_account_pos(accounts: Seq<Seq<char>>, id: Seq<char>)
    ensures
        -1 <= account_pos(accounts, id) < accounts.len(),
        account_pos(accounts, id) >= 0 ==> accounts[account_pos(accounts, id)] == id,
        account_pos(accounts, id) < 0 <==> !accounts.contains(id),
    decreases accounts.len(),
{
    if accounts.len() > 0 {
        lemma_account_pos(accounts.drop_last(), id);
        if accounts.last() != id && accounts.drop_last().contains(id) {
            let k = choose|k: int| 0 <= k < accounts.drop_last().len() && accounts.drop_last()[k] == id;
            assert(accounts[k] == id);
        }
        if accounts.contains(id) && accounts.last() != id {
            let k = choose|k: int| 0 <= k < accounts.len() && accounts[k] == id;
            assert(k < accounts.len() - 1);
            assert(accounts.drop_last()[k] == id);
        }
    }
}

/// A transaction's plain values: `(day, amount, debit, credit)`.
pub open spec fn txn_view(t: Transaction) -> (int, int, Seq<char>, Seq<char>) {
    (spec_ordinal0(t.completion_date), t.amount as int, t.debit@, t.credit@)
}

/// Views of a vector of texts.
pub open spec fn texts(v: Seq<String>) -> Seq<Seq<char>> {
    v.map_values(|s: String| s@)
}

/// What booking a transaction does: `None` on the inputs where booking
/// cannot go on (a day or account slot that the index lacks, or a sum that
/// does not fit), else the new index or the error message.
pub open spec fn book(
    accounts: Seq<Seq<char>>,
    index: Seq<Seq<LedgerIndexItem>>,
    t: (int, int, Seq<char>, Seq<char>),
    known: Seq<Seq<char>>,
) -> Option<Result<Seq<Seq<LedgerIndexItem>>, Seq<char>>> {
    let (day, amount, debit, credit) = t;
    if !known.contains(debit) {
        Some(Err("Unknown account ID "@ + debit + " for debit"@))
    } else if !known.contains(credit) {
        Some(Err("Unknown account ID for credit "@ + credit))
    } else {
        let di = account_pos(accounts, debit);
        let ci = account_pos(accounts, credit);
        if day >= index.len() || di < 0 || ci < 0 || !booked_index_fits(index, day, di, ci, amount) {
            None
        } else {
            Some(Ok(booked_index(index, day, di, ci, amount)))
        }
    }
}

/// The general ledger.
#[derive(Debug)]
pub struct Ledger {
    /// The accounts each day is kept for, in index order.
    pub accounts: Vec<String>,
    /// `ledger_index[day][k]`: the balances of `accounts[k]` on `day`.
    pub ledger_index: Vec<Vec<LedgerIndexItem>>,
    pub note_counter: i32,
    pub transaction_counter: i32,
}

impl Default for Ledger {
    fn default() -> (r: Self)
        ensures
            r.accounts@.len() == 0,
            r.ledger_index@.len() == 0,
            r.note_counter == 0,
            r.transaction_counter == 0,
    {
        Ledger { accounts: Vec::new(), ledger_index: Vec::new(), note_counter: 0, transaction_counter: 0 }
    }
}

impl Ledger {
    /// The day-by-account balances.
    pub open spec fn index(&self) -> Seq<Seq<LedgerIndexItem>> {
        self.ledger_index@.map_values(|d: Vec<LedgerIndexItem>| d@)
    }

    /// Every day holds one item per account, and no account appears twice.
    pub open spec fn wf(&self) -> bool {
        &&& forall|d: int| 0 <= d < self.ledger_index@.len() ==> (#[trigger] self.ledger_index@[d])@.len()
            == self.accounts@.len()
        &&& texts(self.accounts@).no_duplicates()
    }

    /// Sets up the index for the current year: every day up to (not including)
    /// December 31 gets an empty item for every account.
    pub fn init(&mut self, accounts: &Vec<String>)
        requires
            texts(accounts@).no_duplicates(),
        ensures
            final(self).wf(),
            texts(final(self).accounts@) == texts(accounts@),
            final(self).ledger_index@.len() == 364 || final(self).ledger_index@.len() == 365,
            forall|d: int, k: int|
                0 <= d < final(self).index().len() && 0 <= k < accounts@.len()
                    ==> #[trigger] final(self).index()[d][k] == LedgerIndexItem::default_spec(),
            final(self).note_counter == old(self).note_counter,
            final(self).transaction_counter == old(self).transaction_counter,
    {
        let year = today().year;
        self.init_for_year(accounts, year);
    }

    /// `init` for a given year: as many days as the zero-based ordinal of
    /// December 31 of that year (364, or 365 in a leap year).
    pub fn init_for_year(&mut self, accounts: &Vec<String>, year: i32)
        requires
            texts(accounts@).no_duplicates(),
        ensures
            final(self).wf(),
            texts(final(self).accounts@) == texts(accounts@),
            final(self).ledger_index@.len() == if is_leap_year(year as int) {
                365int
            } else {
                364int
            },
            forall|d: int, k: int|
                0 <= d < final(self).index().len() && 0 <= k < accounts@.len()
                    ==> #[trigger] final(self).index()[d][k] == LedgerIndexItem::default_spec(),
            final(self).note_counter == old(self).note_counter,
            final(self).transaction_counter == old(self).transaction_counter,
    {
        let days: usize = if crate::date::leap_year(year) {
            365
        } else {
            364
        };
        let mut index: Vec<Vec<LedgerIndexItem>> = Vec::new();
        let mut d: usize = 0;
        while d < days
            invariant
                d <= days,
                index@.len() == d,
                forall|e: int| 0 <= e < d ==> (#[trigger] index@[e])@.len() == accounts@.len(),
                forall|e: int, k: int|
                    0 <= e < d && 0 <= k < accounts@.len() ==> #[trigger] index@[e]@[k]
                        == LedgerIndexItem::default_spec(),
            decreases days - d,
        {
            let mut day: Vec<LedgerIndexItem> = Vec::new();
            let mut k: usize = 0;
            while k < accounts.len()
                invariant
                    k <= accounts.len(),
                    day@.len() == k,
                    forall|j: int| 0 <= j < k ==> #[trigger] day@[j] == LedgerIndexItem::default_spec(),
                decreases accounts.len() - k,
            {
                day.push(LedgerIndexItem { bo: 0, td: 0, tc: 0, bc: 0 });
                k = k + 1;
            }
            index.push(day);
            d = d + 1;
        }
        let mut names: Vec<String> = Vec::new();
        let mut k: usize = 0;
        while k < accounts.len()
            invariant
                k <= accounts.len(),
                texts(names@) =~= texts(accounts@).take(k as int),
            decreases accounts.len() - k,
        {
            names.push(accounts[k].clone());
            proof {
                assert(texts(accounts@).take(k + 1) =~= texts(accounts@).take(k as int).push(
                    accounts@[k as int]@,
                ));
            }
            k = k + 1;
        }
        proof {
            assert(texts(accounts@).take(accounts.len() as int) =~= texts(accounts@));
        }
        self.accounts = names;
        self.ledger_index = index;
    }
}

impl LedgerIndexItem {
    /// The empty item.
    pub open spec fn default_spec() -> LedgerIndexItem {
        LedgerIndexItem { bo: 0, td: 0, tc: 0, bc: 0 }
    }
}


/// Position of `id` in `v`, or `None`.
fn find_text(v: &Vec<String>, id: &String) -> (r: Option<usize>)
    ensures
        match r {
            Some(k) => k as int == account_pos(texts(v@), id@) && k < v.len(),
            None => account_pos(texts(v@), id@) < 0,
        },
{
    let ghost t = texts(v@);
    let mut k = v.len();
    proof {
        assert(t.take(k as int) =~= t);
    }
    while k > 0
        invariant
            k <= v.len(),
            t == texts(v@),
            account_pos(t, id@) == account_pos(t.take(k as int), id@),
        decreases k,
    {
        proof {
            assert(t.take(k as int).drop_last() =~= t.take(k - 1));
            assert(t.take(k as int).last() == v@[k - 1]@);
        }
        if str_eq(v[k - 1].as_str(), id.as_str()) {
            return Some(k - 1);
        }
        k = k - 1;
    }
    proof {
        assert(t.take(0) =~= Seq::<Seq<char>>::empty());
    }
    None
}

/// Whether `id` is among `v`.
fn contains_text(v: &Vec<String>, id: &String) -> (r: bool)
    ensures
        r == texts(v@).contains(id@),
{
    proof {
        lemma_account_pos(texts(v@), id@);
    }
    find_text(v, id).is_some()
}

impl Ledger {
    /// Books a transaction: both accounts must be among `accounts`. On the
    /// completion day the amount is added to the debit turnover of the debit
    /// account and to the credit turnover of the credit account and their
    /// closing balances are recomputed; on every later day the closing balance
    /// of the completion day is added to the opening balance and the closing
    /// balance grows by the new `bo + td - tc`.
    pub fn add_transaction(&mut self, transaction: Transaction, accounts: &Vec<String>) -> (res:
        Result<(), String>)
        requires
            old(self).wf(),
            is_valid_date(transaction.completion_date),
            book(texts(old(self).accounts@), old(self).index(), txn_view(transaction), texts(accounts@))
                is Some,
        ensures
            final(self).wf(),
            final(self).accounts@ == old(self).accounts@,
            final(self).note_counter == old(self).note_counter,
            final(self).transaction_counter == old(self).transaction_counter,
            match book(texts(old(self).accounts@), old(self).index(), txn_view(transaction), texts(accounts@)) {
                Some(Ok(ix)) => res is Ok && final(self).index() == ix,
                Some(Err(e)) => res matches Err(m) && m@ == e && final(self).index() == old(self).index(),
                None => false,
            },
    {
        let ghost t = txn_view(transaction);
        if !contains_text(accounts, &transaction.debit) {
            let mut msg = "Unknown account ID ".to_string();
            msg.append(transaction.debit.as_str());
            msg.append(" for debit");
            return Err(msg);
        }
        if !contains_text(accounts, &transaction.credit) {
            let mut msg = "Unknown account ID for credit ".to_string();
            msg.append(transaction.credit.as_str());
            return Err(msg);
        }
        let ghost index0 = self.index();
        let ghost accts = texts(self.accounts@);
        let last_day = self.ledger_index.len();
        let completion_day = transaction.completion_date.ordinal0() as usize;
        let di = match find_text(&self.accounts, &transaction.debit) {
            Some(k) => k,
            None => {
                return Err(String::new());
            },
        };
        let ci = match find_text(&self.accounts, &transaction.credit) {
            Some(k) => k,
            None => {
                return Err(String::new());
            },
        };
        let amount = transaction.amount;
        proof {
            lemma_account_pos(accts, transaction.debit@);
            lemma_account_pos(accts, transaction.credit@);
            assert(booked_index_fits(index0, completion_day as int, di as int, ci as int, amount as int));
        }
        // Completion day: debit, then credit.
        let mut day = self.ledger_index[completion_day].clone();
        proof {
            assert(day@ == index0[completion_day as int]);
        }
        let mut it = day[di];
        it.td = it.td + amount;
        it.bc = it.bo + (it.td - it.tc);
        let cbd = it.bc;
        day.set(di, it);
        let mut it = day[ci];
        it.tc = it.tc + amount;
        it.bc = it.bo + (it.td - it.tc);
        let cbc = it.bc;
        day.set(ci, it);
        proof {
            assert(day@ =~= booked_day(index0[completion_day as int], di as int, ci as int, amount as int));
        }
        self.ledger_index.set(completion_day, day);
        // Later days: carry the closing balances.
        let mut d = completion_day + 1;
        while d < last_day
            invariant
                completion_day < d <= last_day,
                last_day == self.ledger_index@.len(),
                last_day == index0.len(),
                di < self.accounts@.len(),
                ci < self.accounts@.len(),
                self.accounts@ == old(self).accounts@,
                self.note_counter == old(self).note_counter,
                self.transaction_counter == old(self).transaction_counter,
                index0 == old(self).index(),
                old(self).wf(),
                cbd as int == closing_debit(index0, completion_day as int, di as int, amount as int),
                cbc as int == closing_credit(index0, completion_day as int, di as int, ci as int, amount as int),
                booked_index_fits(index0, completion_day as int, di as int, ci as int, amount as int),
                forall|e: int|
                    0 <= e < d ==> #[trigger] self.index()[e] == booked_index(
                        index0,
                        completion_day as int,
                        di as int,
                        ci as int,
                        amount as int,
                    )[e],
                forall|e: int| d <= e < last_day ==> #[trigger] self.index()[e] == index0[e],
            decreases last_day - d,
        {
            proof {
                assert(self.index()[d as int] == index0[d as int]);
            }
            let ghost before = self.index();
            let mut day = self.ledger_index[d].clone();
            proof {
                assert(day@ == index0[d as int]);
                assert(carried_day_fits(index0[d as int], di as int, ci as int, cbd as int, cbc as int));
            }
            let mut it = day[di];
            it.bo = it.bo + cbd;
            it.bc = it.bc + (it.bo + it.td - it.tc);
            day.set(di, it);
            let mut it = day[ci];
            it.bo = it.bo + cbc;
            it.bc = it.bc + (it.bo + it.td - it.tc);
            day.set(ci, it);
            proof {
                assert(day@ =~= carried_day(index0[d as int], di as int, ci as int, cbd as int, cbc as int));
            }
            self.ledger_index.set(d, day);
            proof {
                assert forall|e: int| 0 <= e < last_day implies #[trigger] self.index()[e] == if e
                    == d {
                    booked_index(index0, completion_day as int, di as int, ci as int, amount as int)[e]
                } else {
                    before[e]
                } by {
                    assert(self.index()[e] == self.ledger_index@[e]@);
                }
            }
            d = d + 1;
        }
        proof {
            let ix = booked_index(index0, completion_day as int, di as int, ci as int, amount as int);
            assert(self.index() =~= ix);
            assert forall|e: int| 0 <= e < self.ledger_index@.len() implies (
            #[trigger] self.ledger_index@[e])@.len() == self.accounts@.len() by {
                assert(self.index()[e] == self.ledger_index@[e]@);
                assert(index0[e] == old(self).ledger_index@[e]@);
            }
        }
        Ok(())
    }
}

/// Booking transactions one after the other; the first panic or error stops.
pub open spec fn book_all(
    accounts: Seq<Seq<char>>,
    index: Seq<Seq<LedgerIndexItem>>,
    ts: Seq<(int, int, Seq<char>, Seq<char>)>,
    known: Seq<Seq<char>>,
) -> Option<Result<Seq<Seq<LedgerIndexItem>>, Seq<char>>>
    decreases ts.len(),
{
    if ts.len() == 0 {
        Some(Ok(index))
    } else {
        match book_all(accounts, index, ts.drop_last(), known) {
            Some(Ok(ix)) => book(accounts, ix, ts.last(), known),
            other => other,
        }
    }
}

proof fn lemma_book_all_stops(
    accounts: Seq<Seq<char>>,
    index: Seq<Seq<LedgerIndexItem>>,
    ts: Seq<(int, int, Seq<char>, Seq<char>)>,
    known: Seq<Seq<char>>,
    k: int,
)
    requires
        0 <= k <= ts.len(),
        !(book_all(accounts, index, ts.take(k), known) is Some && book_all(
            accounts,
            index,
            ts.take(k),
            known,
        ).unwrap() is Ok),
    ensures
        book_all(accounts, index, ts, known) == book_all(accounts, index, ts.take(k), known),
    decreases ts.len() - k,
{
    if k < ts.len() {
        assert(ts.take(k + 1).drop_last() =~= ts.take(k));
        lemma_book_all_stops(accounts, index, ts, known, k + 1);
    } else {
        assert(ts.take(k) =~= ts);
    }
}

/// The transactions of a note as booked on `day`.
pub open spec fn note_txns(n: Note, day: int) -> Seq<(int, int, Seq<char>, Seq<char>)> {
    n.transactions@.map_values(
        |t: crate::note::Transaction| (day, t.amount as int, t.debit@, t.credit@),
    )
}

/// What `add_note` does: `None` on the inputs where adding cannot go on,
/// else the new index and note count or the error message.
pub open spec fn add_note_spec(
    accounts: Seq<Seq<char>>,
    index: Seq<Seq<LedgerIndexItem>>,
    counter: int,
    n: Note,
    known: Seq<Seq<char>>,
) -> Option<(Seq<Seq<LedgerIndexItem>>, int, Result<(), Seq<char>>)> {
    if n.transactions.len() == 0 {
        Some((index, counter, Ok(())))
    } else {
        match n.completion_date {
            None => Some((index, counter, Err("No completion date for note!"@))),
            Some(d) => if counter + 1 > i32::MAX || !is_valid_date(d) {
                None
            } else {
                match book_all(accounts, index, note_txns(n, spec_ordinal0(d)), known) {
                    None => None,
                    Some(Ok(ix)) => Some((ix, counter + 1, Ok(()))),
                    Some(Err(e)) => Some(
                        (
                            book_all_partial(accounts, index, note_txns(n, spec_ordinal0(d)), known),
                            counter + 1,
                            Err(e),
                        ),
                    ),
                }
            },
        }
    }
}

/// The index as left by the transactions booked before the first error.
pub open spec fn book_all_partial(
    accounts: Seq<Seq<char>>,
    index: Seq<Seq<LedgerIndexItem>>,
    ts: Seq<(int, int, Seq<char>, Seq<char>)>,
    known: Seq<Seq<char>>,
) -> Seq<Seq<LedgerIndexItem>>
    decreases ts.len(),
{
    if ts.len() == 0 {
        index
    } else {
        match book_all(accounts, index, ts.drop_last(), known) {
            Some(Ok(ix)) => match book(accounts, ix, ts.last(), known) {
                Some(Ok(ix2)) => ix2,
                _ => ix,
            },
            _ => book_all_partial(accounts, index, ts.drop_last(), known),
        }
    }
}

proof fn lemma_book_all_partial_stops(
    accounts: Seq<Seq<char>>,
    index: Seq<Seq<LedgerIndexItem>>,
    ts: Seq<(int, int, Seq<char>, Seq<char>)>,
    known: Seq<Seq<char>>,
    k: int,
    ix: Seq<Seq<LedgerIndexItem>>,
)
    requires
        0 < k <= ts.len(),
        book_all(accounts, index, ts.take(k - 1), known) == Some(
            Ok::<Seq<Seq<LedgerIndexItem>>, Seq<char>>(ix),
        ),
        book(accounts, ix, ts[k - 1], known) matches Some(Err(_)),
    ensures
        book_all_partial(accounts, index, ts, known) == ix,
{
    lemma_partial_step(accounts, index, ts, known, k, ix, ts.len() as int);
    assert(ts.take(ts.len() as int) =~= ts);
}

proof fn lemma_partial_step(
    accounts: Seq<Seq<char>>,
    index: Seq<Seq<LedgerIndexItem>>,
    ts: Seq<(int, int, Seq<char>, Seq<char>)>,
    known: Seq<Seq<char>>,
    k: int,
    ix: Seq<Seq<LedgerIndexItem>>,
    j: int,
)
    requires
        0 < k <= j <= ts.len(),
        book_all(accounts, index, ts.take(k - 1), known) == Some(
            Ok::<Seq<Seq<LedgerIndexItem>>, Seq<char>>(ix),
        ),
        book(accounts, ix, ts[k - 1], known) matches Some(Err(_)),
    ensures
        book_all_partial(accounts, index, ts.take(j), known) == ix,
        book_all(accounts, index, ts.take(j), known) == book_all(accounts, index, ts.take(k), known),
    decreases j - k,
{
    assert(ts.take(k).drop_last() =~= ts.take(k - 1));
    assert(ts.take(k).last() == ts[k - 1]);
    if j > k {
        lemma_partial_step(accounts, index, ts, known, k, ix, j - 1);
        assert(ts.take(j).drop_last() =~= ts.take(j - 1));
    }
}

impl Ledger {
    /// Books every transaction of a note on its completion date. A note
    /// without transactions is skipped; one without a completion date is an
    /// error. The note counter grows by one before the transactions are
    /// booked; a failing transaction stops the booking (earlier ones stay).
    pub fn add_note(&mut self, note: &Note, accounts: &Vec<String>) -> (res: Result<(), String>)
        requires
            old(self).wf(),
            add_note_spec(
                texts(old(self).accounts@),
                old(self).index(),
                old(self).note_counter as int,
                *note,
                texts(accounts@),
            ) is Some,
        ensures
            final(self).wf(),
            final(self).accounts@ == old(self).accounts@,
            final(self).transaction_counter == old(self).transaction_counter,
            ({
                let r = add_note_spec(
                    texts(old(self).accounts@),
                    old(self).index(),
                    old(self).note_counter as int,
                    *note,
                    texts(accounts@),
                ).unwrap();
                &&& final(self).index() == r.0
                &&& final(self).note_counter == r.1
                &&& match r.2 {
                    Ok(()) => res is Ok,
                    Err(e) => res matches Err(m) && m@ == e,
                }
            }),
    {
        if note.transactions.len() == 0 {
            return Ok(());
        }
        let completion_date = match note.completion_date {
            Some(d) => d,
            None => {
                return Err("No completion date for note!".to_string());
            },
        };
        self.note_counter = self.note_counter + 1;
        let ghost day = spec_ordinal0(completion_date);
        let ghost ts = note_txns(*note, day);
        let ghost accts = texts(self.accounts@);
        let ghost index0 = self.index();
        let mut i: usize = 0;
        while i < note.transactions.len()
            invariant
                i <= note.transactions.len(),
                self.wf(),
                self.accounts@ == old(self).accounts@,
                accts == texts(self.accounts@),
                index0 == old(self).index(),
                self.note_counter == old(self).note_counter + 1,
                self.transaction_counter == old(self).transaction_counter,
                note.completion_date == Some(completion_date),
                is_valid_date(completion_date),
                day == spec_ordinal0(completion_date),
                ts == note_txns(*note, day),
                book_all(accts, index0, ts, texts(accounts@)) is Some,
                book_all(accts, index0, ts.take(i as int), texts(accounts@)) == Some(
                    Ok::<Seq<Seq<LedgerIndexItem>>, Seq<char>>(self.index()),
                ),
            decreases note.transactions.len() - i,
        {
            let ghost ix = self.index();
            let tr = &note.transactions[i];
            proof {
                assert(ts.take(i + 1).drop_last() =~= ts.take(i as int));
                assert(ts.take(i + 1).last() == ts[i as int]);
                if book(accts, ix, ts[i as int], texts(accounts@)) is None {
                    lemma_book_all_stops(accts, index0, ts, texts(accounts@), i as int + 1);
                }
            }
            let t = Transaction {
                completion_date,
                amount: tr.amount,
                debit: tr.debit.clone(),
                credit: tr.credit.clone(),
            };
            proof {
                assert(txn_view(t) == ts[i as int]);
            }
            let r = self.add_transaction(t, accounts);
            if r.is_err() {
                proof {
                    lemma_book_all_stops(accts, index0, ts, texts(accounts@), i as int + 1);
                    lemma_book_all_partial_stops(accts, index0, ts, texts(accounts@), i as int + 1, ix);
                }
                return r;
            }
            i = i + 1;
        }
        proof {
            assert(ts.take(note.transactions.len() as int) =~= ts);
        }
        Ok(())
    }
}

/// The ledger of one day: each account with its balances.
pub open spec fn day_entries(accounts: Seq<Seq<char>>, day: Seq<LedgerIndexItem>) -> Seq<
    (Seq<char>, LedgerIndexItem),
> {
    Seq::new(accounts.len(), |k: int| (accounts[k], day[k]))
}

impl Ledger {
    /// The balances of every account on the day with zero-based index
    /// `day_index`, or an error past the end of the index.
    pub fn get_ledger_by_date(&self, day_index: usize) -> (res: Result<
        Vec<(String, LedgerIndexItem)>,
        String,
    >)
        requires
            self.wf(),
        ensures
            day_index < self.ledger_index@.len() ==> (res matches Ok(v) && v@.map_values(
                |p: (String, LedgerIndexItem)| (p.0@, p.1),
            ) == day_entries(texts(self.accounts@), self.index()[day_index as int])),
            day_index >= self.ledger_index@.len() ==> (res matches Err(e) && e@
                == "Out of range date"@),
    {
        if day_index >= self.ledger_index.len() {
            return Err("Out of range date".to_string());
        }
        let day = &self.ledger_index[day_index];
        let ghost want = day_entries(texts(self.accounts@), self.index()[day_index as int]);
        let mut out: Vec<(String, LedgerIndexItem)> = Vec::new();
        let mut k: usize = 0;
        while k < self.accounts.len()
            invariant
                self.wf(),
                day_index < self.ledger_index@.len(),
                day@ == self.index()[day_index as int],
                want == day_entries(texts(self.accounts@), self.index()[day_index as int]),
                k <= self.accounts.len(),
                out@.map_values(|p: (String, LedgerIndexItem)| (p.0@, p.1)) =~= want.take(k as int),
            decreases self.accounts.len() - k,
        {
            proof {
                assert(self.ledger_index@[day_index as int]@.len() == self.accounts@.len());
            }
            out.push((self.accounts[k].clone(), day[k]));
            proof {
                assert(want.take(k + 1) =~= want.take(k as int).push(want[k as int]));
            }
            k = k + 1;
        }
        proof {
            assert(want.take(self.accounts.len() as int) =~= want);
        }
        Ok(out)
    }
}

impl LedgerIndexItem {
    /// Sum of two items: turnovers add up, the opening balance is this one's,
    /// and the closing balance is recomputed as `bo + td - tc`.
    pub fn add(self, rhs: Self) -> (r: Self)
        requires
            fits(self.td + rhs.td),
            fits(self.tc + rhs.tc),
            fits(self.bo + (self.td + rhs.td)),
            fits(self.bo + (self.td + rhs.td) - (self.tc + rhs.tc)),
        ensures
            r.bo == self.bo,
            r.td == self.td + rhs.td,
            r.tc == self.tc + rhs.tc,
            r.bc == r.bo + r.td - r.tc,
    {
        let new_td = self.td + rhs.td;
        let new_tc = self.tc + rhs.tc;
        LedgerIndexItem { bo: self.bo, td: new_td, tc: new_tc, bc: self.bo + new_td - new_tc }
    }

    /// Debit turnover, credit turnover, debit balance and credit balance,
    /// each with spaces between groups of three digits and padded to 13
    /// chars, separated by `" | "`.
    pub fn print_full(&self) -> (r: String)
        requires
            self.bc != i64::MIN,
        ensures
            r@ == pad_right(spaced_number(self.td as int), 13) + " | "@ + pad_right(
                spaced_number(self.tc as int),
                13,
            ) + " | "@ + pad_right(
                spaced_number(
                    if self.bc >= 0 {
                        self.bc as int
                    } else {
                        0
                    },
                ),
                13,
            ) + " | "@ + pad_right(
                spaced_number(
                    if self.bc < 0 {
                        -self.bc
                    } else {
                        0
                    },
                ),
                13,
            ),
    {
        let debit_balance: i64 = if self.bc >= 0 {
            self.bc
        } else {
            0
        };
        let credit_balance: i64 = if self.bc < 0 {
            -self.bc
        } else {
            0
        };
        let mut r = padded(separate_with_spaces(self.td), 13);
        r.append(" | ");
        r.append(padded(separate_with_spaces(self.tc), 13).as_str());
        r.append(" | ");
        r.append(padded(separate_with_spaces(debit_balance), 13).as_str());
        r.append(" | ");
        r.append(padded(separate_with_spaces(credit_balance), 13).as_str());
        r
    }
}

/// Digits with a space between every three of them, counted from the right.
pub open spec fn grouped_by_three(d: Seq<char>) -> Seq<char>
    decreases d.len(),
{
    if d.len() <= 3 {
        d
    } else {
        grouped_by_three(d.take(d.len() - 3)) + seq![' '] + d.skip(d.len() - 3)
    }
}

/// What `thousands::Separable::separate_with_spaces` makes of an integer:
/// its decimal form (a `-` before a negative one) with a space between
/// groups of three digits, counted from the right.
pub open spec fn spaced_number(n: int) -> Seq<char> {
    if n < 0 {
        seq!['-'] + grouped_by_three(crate::note::decimal((-n) as nat))
    } else {
        grouped_by_three(crate::note::decimal(n as nat))
    }
}

/// Calls `Separable::separate_with_spaces` of the `thousands` crate: it
/// formats the number with `Display` and puts the separator between groups
/// of three digits of its digit run.
#[verifier::external_body]
fn separate_with_spaces(n: i64) -> (r: String)
    ensures
        r@ == spaced_number(n as int),
{
    thousands::Separable::separate_with_spaces(&n)
}

/// `s` followed by spaces up to `width` chars (`format!("{: <width$}")`).
pub open spec fn pad_right(s: Seq<char>, width: int) -> Seq<char> {
    if s.len() >= width {
        s
    } else {
        s + Seq::new((width - s.len()) as nat, |i: int| ' ')
    }
}

fn padded(s: String, width: usize) -> (r: String)
    ensures
        r@ == pad_right(s@, width as int),
{
    let n = s.as_str().unicode_len();
    let mut r = s;
    let ghost s0 = r@;
    let mut k = n;
    while k < width
        invariant
            n == s0.len(),
            n <= k <= width || (n > width && k == n),
            r@ == s0 + Seq::new((k - n) as nat, |i: int| ' '),
        decreases width - k,
    {
        crate::text::push_char(&mut r, ' ');
        proof {
            assert(s0 + Seq::new((k + 1 - n) as nat, |i: int| ' ') =~= (s0 + Seq::new(
                (k - n) as nat,
                |i: int| ' ',
            )).push(' '));
        }
        k = k + 1;
    }
    proof {
        if n >= width {
            assert(r@ =~= s0);
        }
    }
    r
}

/// What picking the reporting period gives for `date_str`, with `first`,
/// `second` and `third` the dates that three readings of the clock gave, in
/// that order: for no month, January 1 of `first`'s year to `second`; for a
/// month from 1 to 11, that month of `first`'s year, ending on its last day
/// in `second`'s year; for December, December 1 of `first`'s year to
/// December 31 of `third`'s year; for a text that is no month, the error.
pub open spec fn period_of(
    date_str: Option<String>,
    first: Date,
    second: Date,
    third: Date,
    res: Result<(Date, Date), String>,
) -> bool {
    match date_str {
        None => res == Ok::<(Date, Date), String>((Date { year: first.year, month: 1, day: 1 }, second)),
        Some(m) => match crate::text::int_in_range(m@, false, 0, u32::MAX as int) {
            None => res matches Err(e) && e@ == "Wrong month number. 1-12"@,
            Some(x) => if x < 1 || x > 12 {
                res matches Err(e) && e@ == "Month date should be a valid 1-12 integer"@
            } else if x < 12 {
                res == Ok::<(Date, Date), String>(
                    (
                        Date { year: first.year, month: x as u32, day: 1 },
                        Date {
                            year: second.year,
                            month: x as u32,
                            day: crate::date::days_in_month(second.year as int, x) as u32,
                        },
                    ),
                )
            } else {
                res == Ok::<(Date, Date), String>(
                    (Date { year: first.year, month: 12, day: 1 }, Date { year: third.year, month: 12, day: 31 }),
                )
            },
        },
    }
}

/// Start and end of a reporting period: the whole given month (`"1"` to
/// `"12"`) of the current year, or January 1 to today when none is given.
/// The clock is read three times (see `period_of`); the period is the one
/// for some three valid dates.
pub fn unzip_dates(date_str: Option<String>) -> (res: Result<(Date, Date), String>)
    ensures
        exists|first: Date, second: Date, third: Date|
            is_valid_date(first) && is_valid_date(second) && is_valid_date(third) && #[trigger] period_of(
                date_str,
                first,
                second,
                third,
                res,
            ),
{
    let first = today();
    let second = today();
    let third = today();
    let r = unzip_dates_at(date_str, first, second, third);
    assert(is_valid_date(first) && is_valid_date(second) && is_valid_date(third) && period_of(
        date_str,
        first,
        second,
        third,
        r,
    ));
    r
}

/// `unzip_dates` for the given clock readings.
pub fn unzip_dates_at(date_str: Option<String>, first: Date, second: Date, third: Date) -> (res: Result<(Date, Date), String>)
    requires
        is_valid_date(first),
        is_valid_date(second),
        is_valid_date(third),
    ensures
        period_of(date_str, first, second, third, res),
        res matches Ok((s, e)) ==> is_valid_date(s) && s.day == 1,
{
    match date_str {
        Some(month) => {
            let chars = crate::text::chars_of(month.as_str());
            let month = match crate::text::parse_u32(&chars) {
                Some(m) => m,
                None => {
                    return Err("Wrong month number. 1-12".to_string());
                },
            };
            if month < 1 || month > 12 {
                return Err("Month date should be a valid 1-12 integer".to_string());
            }
            let sdate = Date { year: first.year, month, day: 1 };
            let ldate = if month < 12 {
                Date { year: second.year, month, day: 1 }.last_day_of_month()
            } else {
                Date { year: third.year, month: 12, day: 31 }
            };
            Ok((sdate, ldate))
        },
        None => Ok((Date { year: first.year, month: 1, day: 1 }, second)),
    }
}

/// Sum of the debit turnovers of a day.
pub open spec fn total_td(day: Seq<LedgerIndexItem>) -> int
    decreases day.len(),
{
    if day.len() == 0 {
        0
    } else {
        total_td(day.drop_last()) + day.last().td
    }
}

/// Sum of the credit turnovers of a day.
pub open spec fn total_tc(day: Seq<LedgerIndexItem>) -> int
    decreases day.len(),
{
    if day.len() == 0 {
        0
    } else {
        total_tc(day.drop_last()) + day.last().tc
    }
}

proof fn lemma_totals_update(day: Seq<LedgerIndexItem>, i: int, x: LedgerIndexItem)
    requires
        0 <= i < day.len(),
    ensures
        total_td(day.update(i, x)) == total_td(day) - day[i].td + x.td,
        total_tc(day.update(i, x)) == total_tc(day) - day[i].tc + x.tc,
    decreases day.len(),
{
    if i < day.len() - 1 {
        lemma_totals_update(day.drop_last(), i, x);
        assert(day.update(i, x).drop_last() =~= day.drop_last().update(i, x));
    } else {
        assert(day.update(i, x).drop_last() =~= day.drop_last());
    }
}

/// Double entry: booking a transaction raises the day's total debit turnover
/// and its total credit turnover by the same amount, so the two totals keep
/// their difference.
pub proof fn law_booking_balances_turnover(
    index: Seq<Seq<LedgerIndexItem>>,
    day: int,
    di: int,
    ci: int,
    amount: int,
)
    requires
        0 <= day < index.len(),
        0 <= di < index[day].len(),
        0 <= ci < index[day].len(),
        booked_index_fits(index, day, di, ci, amount),
    ensures
        total_td(booked_index(index, day, di, ci, amount)[day]) == total_td(index[day]) + amount,
        total_tc(booked_index(index, day, di, ci, amount)[day]) == total_tc(index[day]) + amount,
        forall|d: int|
            0 <= d < day ==> #[trigger] booked_index(index, day, di, ci, amount)[d] == index[d],
{
    let d0 = index[day];
    let d1 = d0.update(di, debited(d0[di], amount));
    lemma_totals_update(d0, di, debited(d0[di], amount));
    lemma_totals_update(d1, ci, credited(d1[ci], amount));
}
/// Booking a transaction closes the books of its completion day: for the
/// debit account and for the credit account, the closing balance is the
/// opening balance plus the debit turnover minus the credit turnover. The
/// debit account's debit turnover and the credit account's credit turnover
/// grow by the amount (each by the amount once more when the two accounts
/// are one), the opening balances of that day stay, and earlier days are
/// untouched.
pub proof fn law_booking_closes_balances(
    accounts: Seq<Seq<char>>,
    index: Seq<Seq<LedgerIndexItem>>,
    t: (int, int, Seq<char>, Seq<char>),
    known: Seq<Seq<char>>,
    booked: Seq<Seq<LedgerIndexItem>>,
)
    requires
        forall|d: int| 0 <= d < index.len() ==> (#[trigger] index[d]).len() == accounts.len(),
        t.0 >= 0,
        book(accounts, index, t, known) == Some(Ok::<Seq<Seq<LedgerIndexItem>>, Seq<char>>(booked)),
    ensures
        ({
            let (day, amount, debit, credit) = t;
            let di = account_pos(accounts, debit);
            let ci = account_pos(accounts, credit);
            &&& 0 <= day < index.len() && booked.len() == index.len()
            &&& 0 <= di < accounts.len() && 0 <= ci < accounts.len()
            &&& booked[day][di].bc == booked[day][di].bo + booked[day][di].td - booked[day][di].tc
            &&& booked[day][ci].bc == booked[day][ci].bo + booked[day][ci].td - booked[day][ci].tc
            &&& booked[day][di].bo == index[day][di].bo
            &&& booked[day][ci].bo == index[day][ci].bo
            &&& di != ci ==> booked[day][di].td == index[day][di].td + amount && booked[day][ci].tc
                == index[day][ci].tc + amount && booked[day][di].tc == index[day][di].tc
                && booked[day][ci].td == index[day][ci].td
            &&& di == ci ==> booked[day][di].td == index[day][di].td + amount && booked[day][di].tc
                == index[day][di].tc + amount
            &&& forall|d: int| 0 <= d < day ==> #[trigger] booked[d] == index[d]
            &&& di != ci ==> forall|d: int|
                day < d < index.len() ==> (#[trigger] booked[d])[di].bo == index[d][di].bo + booked[day][di].bc
                    && booked[d][ci].bo == index[d][ci].bo + booked[day][ci].bc
        }),
{
    let (day, amount, debit, credit) = t;
    let di = account_pos(accounts, debit);
    let ci = account_pos(accounts, credit);
    lemma_account_pos(accounts, debit);
    lemma_account_pos(accounts, credit);
    assert(known.contains(debit) && known.contains(credit));
    assert(!(day >= index.len() || di < 0 || ci < 0 || !booked_index_fits(index, day, di, ci, amount)));
    assert(booked == booked_index(index, day, di, ci, amount));
    let d0 = index[day];
    assert(d0.len() == accounts.len());
    let d1 = d0.update(di, debited(d0[di], amount));
    assert(booked[day] == d1.update(ci, credited(d1[ci], amount)));
    if di != ci {
        assert forall|d: int| day < d < index.len() implies (#[trigger] booked[d])[di].bo == index[d][di].bo
            + booked[day][di].bc && booked[d][ci].bo == index[d][ci].bo + booked[day][ci].bc by {
            assert(carried_day_fits(
                index[d],
                di,
                ci,
                closing_debit(index, day, di, amount),
                closing_credit(index, day, di, ci, amount),
            ));
            assert(index[d].len() == accounts.len());
        }
    }
}

} // verus!
