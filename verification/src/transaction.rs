//! The ledger's objects as the expression language defines them: accounts,
//! references (documents), their economic events and transactions, and
//! the ledger's totals.

use vstd::prelude::*;

use crate::date::Date;
use crate::text::{chars_of, lowercase_of, string_of, to_lowercase, trim, trim_spec};

verus! {

/// The trimmed, lower-cased form of an id.
pub open spec fn id_form(s: Seq<char>) -> Seq<char> {
    lowercase_of(trim_spec(s))
}

fn trimmed(s: &str) -> (r: String)
    ensures
        r@ == trim_spec(s@),
{
    string_of(&trim(&chars_of(s)))
}

fn id_of(s: &str) -> (r: String)
    ensures
        r@ == id_form(s@),
{
    let t = trimmed(s);
    to_lowercase(t.as_str())
}

/// A ledger account.
#[derive(Debug)]
pub struct Account {
    /// User defined id
    pub id: String,
    /// Human readable name
    pub name: String,
}

impl Account {
    /// A new account: the id trimmed and lower-cased, the name trimmed.
    pub fn new(id: String, name: String) -> (r: Self)
        ensures
            r.id@ == id_form(id@),
            r.name@ == trim_spec(name@),
    {
        Account { id: id_of(id.as_str()), name: trimmed(name.as_str()) }
    }

    /// Renames the account (the name is trimmed).
    pub fn rename(&mut self, name: String) -> (r: &Self)
        ensures
            final(self).name@ == trim_spec(name@),
            final(self).id == old(self).id,
            *r == *final(self),
    {
        self.name = trimmed(name.as_str());
        self
    }

    /// The account's id.
    pub fn id(&self) -> (r: &str)
        ensures
            r@ == self.id@,
    {
        self.id.as_str()
    }

    /// The account's name.
    pub fn name(&self) -> (r: &str)
        ensures
            r@ == self.name@,
    {
        self.name.as_str()
    }
}

/// One transaction of an event.
#[derive(Debug)]
pub struct Transaction {
    pub id: u128,
    pub reference: String,
    pub event: u32,
    pub debit: String,
    pub credit: String,
    pub amount: i32,
    pub cdate: Date,
}

/// An economic event of a reference.
#[derive(Debug)]
pub struct Event {
    pub id: u32,
    pub reference: String,
    pub name: Option<String>,
    pub cdate: Date,
    pub transactions: Vec<Transaction>,
}

/// A reference: a document the events belong to.
#[derive(Debug)]
pub struct Reference {
    pub id: String,
    pub name: String,
    pub idate: Option<Date>,
    pub cdate: Date,
    pub ddate: Option<Date>,
    pub events: Vec<Event>,
}

impl Reference {
    /// A new reference without events: the id trimmed and lower-cased, the
    /// name trimmed.
    pub fn new(id: String, name: String, idate: Option<Date>, cdate: Date, ddate: Option<Date>) -> (r:
        Self)
        ensures
            r.id@ == id_form(id@),
            r.name@ == trim_spec(name@),
            r.idate == idate,
            r.cdate == cdate,
            r.ddate == ddate,
            r.events@.len() == 0,
    {
        Reference {
            id: id_of(id.as_str()),
            name: trimmed(name.as_str()),
            idate,
            cdate,
            ddate,
            events: Vec::new(),
        }
    }

    /// The reference's id.
    pub fn id(&self) -> (r: &str)
        ensures
            r@ == self.id@,
    {
        self.id.as_str()
    }

    /// The reference's name.
    pub fn name(&self) -> (r: &str)
        ensures
            r@ == self.name@,
    {
        self.name.as_str()
    }

    /// Issue date.
    pub fn idate(&self) -> (r: Option<Date>)
        ensures
            r == self.idate,
    {
        self.idate
    }

    /// Completion date.
    pub fn cdate(&self) -> (r: Date)
        ensures
            r == self.cdate,
    {
        self.cdate
    }

    /// Due date.
    pub fn ddate(&self) -> (r: Option<Date>)
        ensures
            r == self.ddate,
    {
        self.ddate
    }

    /// The events of the reference.
    pub fn events(&self) -> (r: &Vec<Event>)
        ensures
            r@ == self.events@,
    {
        &self.events
    }

    /// Renames the reference (the name is trimmed).
    pub fn rename(&mut self, name: String) -> (r: &Self)
        ensures
            final(self).name@ == trim_spec(name@),
            final(self).id == old(self).id,
            final(self).events == old(self).events,
            *r == *final(self),
    {
        self.name = trimmed(name.as_str());
        self
    }

    /// Adds an event to the reference.
    pub fn add_event(&mut self, event: Event) -> (res: Result<&Self, String>)
        ensures
            final(self).events@ == old(self).events@.push(event),
            final(self).id == old(self).id,
            final(self).name == old(self).name,
            res matches Ok(r) && *r == *final(self),
    {
        self.events.push(event);
        Ok(self)
    }
}

/// Everything the ledger holds.
#[derive(Debug)]
pub struct Index {
    pub accounts: Vec<Account>,
    pub references: Vec<Reference>,
    pub events: Vec<Event>,
    pub transactions: Vec<Transaction>,
}

/// The ledger's totals.
#[derive(Debug)]
pub struct LedgerItem {
    pub total_debit: i32,
    pub total_credit: i32,
    pub total_balance: i32,
    pub count_reference: i32,
    pub count_events: i32,
    pub count_transactions: i32,
}

} // verus!
