//! Walking the expressions of a file and turning them into ledger records,
//! in order, with the checks the file's mode asks for.

use vstd::prelude::*;

use crate::date::Date;
use crate::parser::{Expression, ModeExp};

verus! {

/// What the inspector hands to the ledger, in order.
#[derive(Debug)]
pub enum LedgerRecord {
    Account { id: String, name: String },
    Transaction { debit: String, credit: String, event_id: u32, cdate: Date, amount: i32 },
    Reference { id: String, name: Option<String>, idate: Option<Date>, cdate: Date, ddate: Option<Date> },
    Event {
        reference_id: String,
        name: Option<String>,
        idate: Option<Date>,
        cdate: Date,
        ddate: Option<Date>,
    },
}

/// Reads the expressions of a file.
#[derive(Debug)]
pub struct Inspector {
    pub expressions: Vec<Expression>,
    pub mode: Option<ModeExp>,
    pub reference_id: Option<String>,
    pub event_id: Option<u32>,
    pub cdate: Option<Date>,
}

/// One expression: the mode afterwards and the record it gives, if any.
pub open spec fn inspect_step(
    mode: Option<ModeExp>,
    event_id: Option<u32>,
    cdate: Option<Date>,
    e: Expression,
) -> Result<(Option<ModeExp>, Option<LedgerRecord>), Seq<char>> {
    match e {
        Expression::DocComment(_) => Ok((mode, None)),
        Expression::Mode(m) => match mode {
            Some(_) => Err("Mode already set"@),
            None => Ok((Some(m), None)),
        },
        Expression::Account(a) => match mode {
            Some(ModeExp::Account) => Ok((mode, Some(LedgerRecord::Account { id: a.id, name: a.name }))),
            _ => Err("Cannot define account when your mode is not account"@),
        },
        Expression::Transaction(t) => {
            let c = match t.cdate {
                Some(c) => Some(c),
                None => cdate,
            };
            let ev = match t.event_id {
                Some(x) => Some(x),
                None => event_id,
            };
            match c {
                None => Err("No cdate set before"@),
                Some(c) => match ev {
                    None => Err("No event id set before"@),
                    Some(ev) => Ok((
                        mode,
                        Some(
                            LedgerRecord::Transaction {
                                debit: t.debit,
                                credit: t.credit,
                                event_id: ev,
                                cdate: c,
                                amount: t.amount,
                            },
                        ),
                    )),
                },
            }
        },
        Expression::Reference(r) => Ok((
            mode,
            Some(
                LedgerRecord::Reference {
                    id: r.id,
                    name: r.name,
                    idate: r.idate,
                    cdate: r.cdate,
                    ddate: r.ddate,
                },
            ),
        )),
        Expression::Event(v) => {
            let c = match v.cdate {
                Some(c) => Some(c),
                None => cdate,
            };
            match c {
                None => Err("No cdate set before"@),
                Some(c) => Ok((
                    mode,
                    Some(
                        LedgerRecord::Event {
                            reference_id: v.reference_id,
                            name: v.name,
                            idate: v.idate,
                            cdate: c,
                            ddate: v.ddate,
                        },
                    ),
                )),
            }
        },
    }
}

/// The expressions walked in order: the mode and the records so far, or
/// the first error.
pub open spec fn inspect_run(
    mode: Option<ModeExp>,
    event_id: Option<u32>,
    cdate: Option<Date>,
    es: Seq<Expression>,
) -> Result<(Option<ModeExp>, Seq<LedgerRecord>), Seq<char>>
    decreases es.len(),
{
    if es.len() == 0 {
        Ok((mode, Seq::empty()))
    } else {
        match inspect_run(mode, event_id, cdate, es.drop_last()) {
            Err(m) => Err(m),
            Ok((md, rs)) => match inspect_step(md, event_id, cdate, es.last()) {
                Err(m) => Err(m),
                Ok((md2, None)) => Ok((md2, rs)),
                Ok((md2, Some(r))) => Ok((md2, rs.push(r))),
            },
        }
    }
}

proof fn lemma_inspect_err(
    mode: Option<ModeExp>,
    event_id: Option<u32>,
    cdate: Option<Date>,
    es: Seq<Expression>,
    k: int,
)
    requires
        0 <= k <= es.len(),
        inspect_run(mode, event_id, cdate, es.take(k)) is Err,
    ensures
        inspect_run(mode, event_id, cdate, es) == inspect_run(mode, event_id, cdate, es.take(k)),
    decreases es.len(),
{
    if k < es.len() {
        assert(es.drop_last().take(k) =~= es.take(k));
        lemma_inspect_err(mode, event_id, cdate, es.drop_last(), k);
    } else {
        assert(es.take(k) =~= es);
    }
}

impl Inspector {
    /// An inspector of the expressions, with no mode set.
    pub fn new(expressions: Vec<Expression>) -> (r: Self)
        ensures
            r.expressions == expressions,
            r.mode is None,
            r.reference_id is None,
            r.event_id is None,
            r.cdate is None,
    {
        Inspector { expressions, mode: None, reference_id: None, event_id: None, cdate: None }
    }

    /// Walks the expressions in order and gives the records for the ledger:
    /// a mode may be set once; accounts need the account mode; a
    /// transaction needs a completion date and an event id, an event a
    /// completion date (its own, or the inspector's).
    pub fn process_to_ledger(self) -> (res: Result<Vec<LedgerRecord>, String>)
        ensures
            match inspect_run(self.mode, self.event_id, self.cdate, self.expressions@) {
                Ok((_, rs)) => res matches Ok(v) && v@ == rs,
                Err(m) => res matches Err(e) && e@ == m,
            },
    {
        let ghost all = self.expressions@;
        let event_id = self.event_id;
        let cdate = self.cdate;
        let mut mode = self.mode;
        let mut exprs = self.expressions;
        let mut records: Vec<LedgerRecord> = Vec::new();
        let n = exprs.len();
        let mut k: usize = 0;
        while k < n
            invariant
                k <= n,
                n == all.len(),
                exprs@ == all.skip(k as int),
                event_id == self.event_id,
                cdate == self.cdate,
                all == self.expressions@,
                inspect_run(self.mode, event_id, cdate, all.take(k as int)) == Ok::<
                    (Option<ModeExp>, Seq<LedgerRecord>),
                    Seq<char>,
                >((mode, records@)),
            decreases n - k,
        {
            let e = exprs.remove(0);
            proof {
                assert(e == all[k as int]);
                assert(exprs@ =~= all.skip(k + 1));
                assert(all.take(k + 1).drop_last() =~= all.take(k as int));
                assert(all.take(k + 1).last() == all[k as int]);
            }
            let step: Result<(Option<ModeExp>, Option<LedgerRecord>), String> = match e {
                Expression::DocComment(_) => Ok((mode, None)),
                Expression::Mode(m) => match mode {
                    Some(_) => Err("Mode already set".to_string()),
                    None => Ok((Some(m), None)),
                },
                Expression::Account(a) => match mode {
                    Some(ModeExp::Account) => Ok(
                        (mode, Some(LedgerRecord::Account { id: a.id, name: a.name })),
                    ),
                    _ => Err("Cannot define account when your mode is not account".to_string()),
                },
                Expression::Transaction(t) => {
                    let c = match t.cdate {
                        Some(c) => Some(c),
                        None => cdate,
                    };
                    let ev = match t.event_id {
                        Some(x) => Some(x),
                        None => event_id,
                    };
                    match c {
                        None => Err("No cdate set before".to_string()),
                        Some(c) => match ev {
                            None => Err("No event id set before".to_string()),
                            Some(ev) => Ok(
                                (
                                    mode,
                                    Some(
                                        LedgerRecord::Transaction {
                                            debit: t.debit,
                                            credit: t.credit,
                                            event_id: ev,
                                            cdate: c,
                                            amount: t.amount,
                                        },
                                    ),
                                ),
                            ),
                        },
                    }
                },
                Expression::Reference(r) => Ok(
                    (
                        mode,
                        Some(
                            LedgerRecord::Reference {
                                id: r.id,
                                name: r.name,
                                idate: r.idate,
                                cdate: r.cdate,
                                ddate: r.ddate,
                            },
                        ),
                    ),
                ),
                Expression::Event(v) => {
                    let c = match v.cdate {
                        Some(c) => Some(c),
                        None => cdate,
                    };
                    match c {
                        None => Err("No cdate set before".to_string()),
                        Some(c) => Ok(
                            (
                                mode,
                                Some(
                                    LedgerRecord::Event {
                                        reference_id: v.reference_id,
                                        name: v.name,
                                        idate: v.idate,
                                        cdate: c,
                                        ddate: v.ddate,
                                    },
                                ),
                            ),
                        ),
                    }
                },
            };
            match step {
                Err(m) => {
                    proof {
                        lemma_inspect_err(self.mode, event_id, cdate, all, k + 1);
                    }
                    return Err(m);
                },
                Ok((md, rec)) => {
                    mode = md;
                    match rec {
                        Some(r) => records.push(r),
                        None => {},
                    }
                },
            }
            k = k + 1;
        }
        proof {
            assert(all.take(n as int) =~= all);
        }
        Ok(records)
    }
}


/// The debit account, the credit account and the amount of each
/// transaction expression, in order.
pub open spec fn expression_bookings(es: Seq<Expression>) -> Seq<(String, String, i32)>
    decreases es.len(),
{
    if es.len() == 0 {
        Seq::empty()
    } else {
        let r = expression_bookings(es.drop_last());
        match es.last() {
            Expression::Transaction(t) => r.push((t.debit, t.credit, t.amount)),
            _ => r,
        }
    }
}

/// The debit account, the credit account and the amount of each
/// transaction record, in order.
pub open spec fn record_bookings(rs: Seq<LedgerRecord>) -> Seq<(String, String, i32)>
    decreases rs.len(),
{
    if rs.len() == 0 {
        Seq::empty()
    } else {
        let r = record_bookings(rs.drop_last());
        match rs.last() {
            LedgerRecord::Transaction { debit, credit, amount, .. } => r.push((debit, credit, amount)),
            _ => r,
        }
    }
}

/// Every transaction the inspector hands to the ledger is one of the file's
/// transaction expressions, in the same order, with the same debit account,
/// the same credit account and the same amount; no transaction is dropped,
/// added or turned around.
pub proof fn law_records_keep_debit_and_credit(
    mode: Option<ModeExp>,
    event_id: Option<u32>,
    cdate: Option<Date>,
    es: Seq<Expression>,
    end_mode: Option<ModeExp>,
    rs: Seq<LedgerRecord>,
)
    requires
        inspect_run(mode, event_id, cdate, es) == Ok::<(Option<ModeExp>, Seq<LedgerRecord>), Seq<char>>((end_mode, rs)),
    ensures
        record_bookings(rs) == expression_bookings(es),
    decreases es.len(),
{
    if es.len() > 0 {
        let front = es.drop_last();
        match inspect_run(mode, event_id, cdate, front) {
            Err(_) => {},
            Ok((md, rs0)) => {
                law_records_keep_debit_and_credit(mode, event_id, cdate, front, md, rs0);
                match inspect_step(md, event_id, cdate, es.last()) {
                    Err(_) => {},
                    Ok((_, None)) => {},
                    Ok((_, Some(r))) => {
                        assert(rs == rs0.push(r));
                        assert(rs.drop_last() =~= rs0);
                    },
                }
            },
        }
    }
}

} // verus!
