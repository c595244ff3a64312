//! Reading expressions from the tokens of a block: a command key, then
//! parameters (a key and its values).

use vstd::prelude::*;

use crate::date::{naive_date_from_str, parse_date, Date};
use crate::frame::{token_view, tokens_view, Token};
use vstd::string::StringSliceAdditionalSpecFns;

verus! {

/// Why a token could not be read.
#[derive(Debug)]
pub enum ParseError {
    EndOfStream,
    /// All other errors
    Other(String),
}

/// The message of a parse error.
pub open spec fn parse_error_text(e: ParseError) -> Seq<char> {
    match e {
        ParseError::EndOfStream => "End of stream"@,
        ParseError::Other(m) => m@,
    }
}

impl ParseError {
    /// The error's message.
    pub fn to_string(&self) -> (r: String)
        ensures
            r@ == parse_error_text(*self),
    {
        match self {
            ParseError::EndOfStream => "End of stream".to_string(),
            ParseError::Other(m) => m.clone(),
        }
    }
}

/// A reader over the tokens of a block.
#[derive(Debug)]
pub struct Parse {
    pub parts: Vec<Token>,
    pub pos: usize,
}

/// Words joined with single spaces.
pub open spec fn join_words(ws: Seq<Seq<char>>) -> Seq<char>
    decreases ws.len(),
{
    if ws.len() == 0 {
        Seq::empty()
    } else if ws.len() == 1 {
        ws[0]
    } else {
        join_words(ws.drop_last()) + " "@ + ws.last()
    }
}

/// End of the run of values that starts at `p`.
pub open spec fn value_run_end(ts: Seq<(bool, Seq<char>)>, p: int) -> int
    decreases ts.len() - p,
{
    if p < 0 || p >= ts.len() || ts[p].0 {
        p
    } else {
        value_run_end(ts, p + 1)
    }
}

/// The values from `p` on, up to the next key, joined with spaces, and
/// where reading goes on; an error when no value comes first.
pub open spec fn bulk_spec(ts: Seq<(bool, Seq<char>)>, p: int) -> Result<(Seq<char>, int), Seq<char>> {
    if p >= ts.len() {
        Err("End of stream"@)
    } else if ts[p].0 {
        Err("invalid argument. must be a value!"@)
    } else {
        let e = value_run_end(ts, p);
        Ok((join_words(ts.subrange(p, e).map_values(|t: (bool, Seq<char>)| t.1)), e))
    }
}

/// The token at `p` as a value, and where reading goes on.
pub open spec fn value_spec(ts: Seq<(bool, Seq<char>)>, p: int) -> Result<(Seq<char>, int), Seq<char>> {
    if p < 0 || p >= ts.len() {
        Err("End of stream"@)
    } else if ts[p].0 {
        Err("invalid argument. must be a value!"@)
    } else {
        Ok((ts[p].1, p + 1))
    }
}

/// The text of the token at `p` (key or value), read as a float number:
/// the text, or an error.
pub open spec fn number_spec(ts: Seq<(bool, Seq<char>)>, p: int) -> Result<(Seq<char>, int), Seq<char>> {
    if p < 0 || p >= ts.len() {
        Err("End of stream"@)
    } else if crate::text::float_grammar(ts[p].1) {
        Ok((ts[p].1, p + 1))
    } else {
        Err("Not a number"@)
    }
}

/// The text of the token at `p` (key or value), read as a date.
pub open spec fn date_spec(ts: Seq<(bool, Seq<char>)>, p: int) -> Result<(Date, int), Seq<char>> {
    if p < 0 || p >= ts.len() {
        Err("End of stream"@)
    } else {
        match naive_date_from_str(ts[p].1) {
            Some(d) => Ok((d, p + 1)),
            None => Err("Not a date"@),
        }
    }
}

proof fn lemma_value_run_end(ts: Seq<(bool, Seq<char>)>, p: int)
    requires
        0 <= p <= ts.len(),
    ensures
        p <= value_run_end(ts, p) <= ts.len(),
        forall|i: int| p <= i < value_run_end(ts, p) ==> !(#[trigger] ts[i]).0,
        value_run_end(ts, p) < ts.len() ==> ts[value_run_end(ts, p)].0,
    decreases ts.len() - p,
{
    if p < ts.len() && !ts[p].0 {
        lemma_value_run_end(ts, p + 1);
    }
}

impl Parse {
    /// The tokens as values.
    pub open spec fn tokens(&self) -> Seq<(bool, Seq<char>)> {
        tokens_view(self.parts@)
    }

    /// A reader at the first token.
    pub fn new(tokens: Vec<Token>) -> (r: Self)
        ensures
            r.parts == tokens,
            r.pos == 0,
    {
        Parse { parts: tokens, pos: 0 }
    }

    /// The next token's kind and text.
    fn next(&mut self) -> (res: Result<(bool, String), ParseError>)
        ensures
            final(self).parts == old(self).parts,
            old(self).pos < old(self).parts@.len() ==> final(self).pos == old(self).pos + 1 && (res matches Ok(
                t,
            ) && t.0 == old(self).tokens()[old(self).pos as int].0 && t.1@ == old(self).tokens()[old(self).pos as int].1),
            old(self).pos >= old(self).parts@.len() ==> final(self).pos == old(self).pos && res matches Err(
                ParseError::EndOfStream,
            ),
    {
        if self.pos >= self.parts.len() {
            return Err(ParseError::EndOfStream);
        }
        let r = match &self.parts[self.pos] {
            Token::Key(t) => (true, t.clone()),
            Token::Value(t) => (false, t.clone()),
        };
        proof {
            assert(self.tokens()[self.pos as int] == token_view(self.parts@[self.pos as int]));
        }
        self.pos = self.pos + 1;
        Ok(r)
    }

    /// The next token's text.
    pub fn next_string(&mut self) -> (res: Result<String, ParseError>)
        ensures
            final(self).parts == old(self).parts,
            old(self).pos < old(self).parts@.len() ==> final(self).pos == old(self).pos + 1 && (res matches Ok(
                t,
            ) && t@ == old(self).tokens()[old(self).pos as int].1),
            old(self).pos >= old(self).parts@.len() ==> final(self).pos == old(self).pos && res matches Err(
                ParseError::EndOfStream,
            ),
    {
        let (_, t) = self.next()?;
        Ok(t)
    }

    /// The next token, which must be a key; the token is read either way.
    pub fn next_key(&mut self) -> (res: Result<String, ParseError>)
        ensures
            final(self).parts == old(self).parts,
            old(self).pos >= old(self).parts@.len() ==> final(self).pos == old(self).pos && res matches Err(
                ParseError::EndOfStream,
            ),
            old(self).pos < old(self).parts@.len() ==> final(self).pos == old(self).pos + 1,
            old(self).pos < old(self).parts@.len() && old(self).tokens()[old(self).pos as int].0 ==> (res matches Ok(
                t,
            ) && t@ == old(self).tokens()[old(self).pos as int].1),
            old(self).pos < old(self).parts@.len() && !old(self).tokens()[old(self).pos as int].0 ==> (res matches Err(
                ParseError::Other(m),
            ) && m@ == "invalid argument. must be a key!"@),
    {
        let (is_key, t) = self.next()?;
        if is_key {
            Ok(t)
        } else {
            Err(ParseError::Other("invalid argument. must be a key!".to_string()))
        }
    }

    /// The next token, which must be a value; the token is read either way.
    pub fn next_value(&mut self) -> (res: Result<String, ParseError>)
        ensures
            final(self).parts == old(self).parts,
            old(self).pos >= old(self).parts@.len() ==> final(self).pos == old(self).pos && res matches Err(
                ParseError::EndOfStream,
            ),
            old(self).pos < old(self).parts@.len() ==> final(self).pos == old(self).pos + 1,
            old(self).pos < old(self).parts@.len() && !old(self).tokens()[old(self).pos as int].0 ==> (res matches Ok(
                t,
            ) && t@ == old(self).tokens()[old(self).pos as int].1),
            old(self).pos < old(self).parts@.len() && old(self).tokens()[old(self).pos as int].0 ==> (res matches Err(
                ParseError::Other(m),
            ) && m@ == "invalid argument. must be a value!"@),
    {
        let (is_key, t) = self.next()?;
        if is_key {
            Err(ParseError::Other("invalid argument. must be a value!".to_string()))
        } else {
            Ok(t)
        }
    }

    /// The values up to the next key, joined with spaces; an error when no
    /// value comes first (the token is read then).
    pub fn next_value_bulk(&mut self) -> (res: Result<String, ParseError>)
        ensures
            final(self).parts == old(self).parts,
            match bulk_spec(old(self).tokens(), old(self).pos as int) {
                Ok((s, e)) => (res matches Ok(t) && t@ == s) && final(self).pos == e,
                Err(m) => res matches Err(err) && parse_error_text(err) == m,
            },
    {
        let ghost ts = self.tokens();
        let ghost p0 = self.pos as int;
        let first = self.next_value()?;
        proof {
            lemma_value_run_end(ts, p0);
        }
        let mut res = first;
        loop
            invariant
                self.parts == old(self).parts,
                ts == self.tokens(),
                p0 == old(self).pos,
                p0 < ts.len(),
                !ts[p0].0,
                p0 < self.pos <= value_run_end(ts, p0),
                value_run_end(ts, p0) <= ts.len(),
                forall|i: int| p0 <= i < value_run_end(ts, p0) ==> !(#[trigger] ts[i]).0,
                value_run_end(ts, p0) < ts.len() ==> ts[value_run_end(ts, p0)].0,
                res@ == join_words(ts.subrange(p0, self.pos as int).map_values(|t: (bool, Seq<char>)| t.1)),
            ensures
                self.pos == value_run_end(ts, p0),
                self.parts == old(self).parts,
                res@ == join_words(ts.subrange(p0, self.pos as int).map_values(|t: (bool, Seq<char>)| t.1)),
            decreases ts.len() - self.pos,
        {
            if self.pos >= self.parts.len() {
                break;
            }
            let is_key = match &self.parts[self.pos] {
                Token::Key(_) => true,
                Token::Value(_) => false,
            };
            proof {
                assert(ts[self.pos as int] == token_view(self.parts@[self.pos as int]));
            }
            if is_key {
                break;
            }
            let ghost q = self.pos as int;
            let v = self.next_value()?;
            res.append(" ");
            res.append(v.as_str());
            proof {
                reveal_strlit(" ");
                let ws = ts.subrange(p0, q + 1).map_values(|t: (bool, Seq<char>)| t.1);
                assert(ws.drop_last() =~= ts.subrange(p0, q).map_values(|t: (bool, Seq<char>)| t.1));
                assert(ws.len() >= 2);
            }
        }
        Ok(res)
    }

    /// The next token's text read as a date (`YYYY-mm-dd`).
    pub fn next_date(&mut self) -> (res: Result<Date, ParseError>)
        ensures
            final(self).parts == old(self).parts,
            old(self).pos >= old(self).parts@.len() ==> final(self).pos == old(self).pos && res matches Err(
                ParseError::EndOfStream,
            ),
            old(self).pos < old(self).parts@.len() ==> final(self).pos == old(self).pos + 1 && match naive_date_from_str(
                old(self).tokens()[old(self).pos as int].1,
            ) {
                Some(d) => res == Ok::<Date, ParseError>(d),
                None => res matches Err(ParseError::Other(m)) && m@ == "Not a date"@,
            },
    {
        let s = self.next_string()?;
        match parse_date(s.as_str()) {
            Some(d) => Ok(d),
            None => Err(ParseError::Other("Not a date".to_string())),
        }
    }

    /// The next token's text, which must read as a float number; the text
    /// is given back (the amount itself is a float, which this library does
    /// not hold).
    pub fn next_number(&mut self) -> (res: Result<String, ParseError>)
        ensures
            final(self).parts == old(self).parts,
            match number_spec(old(self).tokens(), old(self).pos as int) {
                Ok((v, e)) => (res matches Ok(t) && t@ == v) && final(self).pos == e,
                Err(m) => res matches Err(err) && parse_error_text(err) == m,
            },
    {
        let s = self.next_string()?;
        if crate::text::float_text(s.as_str()) {
            Ok(s)
        } else {
            Err(ParseError::Other("Not a number".to_string()))
        }
    }

    /// There must be no tokens left.
    pub fn finish(&mut self) -> (res: Result<(), ParseError>)
        ensures
            final(self).parts == old(self).parts,
            old(self).pos >= old(self).parts@.len() ==> res is Ok,
            old(self).pos < old(self).parts@.len() ==> (res matches Err(ParseError::Other(m)) && m@
                == "protocol error; expected end of frame, but there was more"@) && final(self).pos
                == old(self).pos + 1,
    {
        if self.next().is_err() {
            Ok(())
        } else {
            Err(ParseError::Other("protocol error; expected end of frame, but there was more".to_string()))
        }
    }
}

} // verus!

verus! {

/// An account expression.
#[derive(Debug, Default)]
pub struct Account {
    pub id: Option<String>,
    pub name: Option<String>,
}

/// A comment expression.
#[derive(Debug, Default)]
pub struct Comment {
    pub message: String,
}

/// Reading account parameters from `p` on: `ID` and `NAME` take the values
/// that follow; `#` and `//` skip them; any other key is an error. Reading
/// stops at the end or at a value where a key is expected (that value is
/// read). Gives the id, the name and where reading stopped.
pub open spec fn account_run(
    ts: Seq<(bool, Seq<char>)>,
    p: int,
    id: Option<Seq<char>>,
    name: Option<Seq<char>>,
) -> Result<(Option<Seq<char>>, Option<Seq<char>>, int), Seq<char>>
    decreases ts.len() - p,
{
    if p < 0 || p >= ts.len() {
        Ok((id, name, p))
    } else if !ts[p].0 {
        Ok((id, name, p + 1))
    } else {
        let k = ts[p].1;
        if k == "ID"@ || k == "NAME"@ || k == "#"@ || k == "//"@ {
            match bulk_spec(ts, p + 1) {
                Err(m) => Err(m),
                Ok((v, e)) => if p < e <= ts.len() {
                    if k == "ID"@ {
                        account_run(ts, e, Some(v), name)
                    } else if k == "NAME"@ {
                        account_run(ts, e, id, Some(v))
                    } else {
                        account_run(ts, e, id, name)
                    }
                } else {
                    Ok((id, name, p))
                },
            }
        } else {
            Err("Unknown parameter"@)
        }
    }
}

proof fn lemma_bulk_advances(ts: Seq<(bool, Seq<char>)>, p: int)
    requires
        0 <= p,
    ensures
        bulk_spec(ts, p) matches Ok((_, e)) ==> p < e <= ts.len(),
{
    if p < ts.len() && !ts[p].0 {
        lemma_value_run_end(ts, p);
        lemma_value_run_end(ts, p + 1);
    }
}

fn str_is(s: &String, lit: &str) -> (r: bool)
    ensures
        r == (s@ == lit@),
{
    crate::text::str_eq(s.as_str(), lit)
}

impl Account {
    /// Reads the account's parameters (see `account_run`).
    pub fn parse(parse: &mut Parse) -> (res: Result<Account, String>)
        ensures
            final(parse).parts == old(parse).parts,
            match account_run(old(parse).tokens(), old(parse).pos as int, None, None) {
                Ok((id, name, e)) => (res matches Ok(a) && crate::parser::opt_view(a.id) == id
                    && crate::parser::opt_view(a.name) == name) && final(parse).pos == e,
                Err(m) => res matches Err(x) && x@ == m,
            },
    {
        let ghost ts = parse.tokens();
        let mut target = Account { id: None, name: None };
        loop
            invariant
                parse.parts == old(parse).parts,
                ts == parse.tokens(),
                account_run(ts, old(parse).pos as int, None, None) == account_run(
                    ts,
                    parse.pos as int,
                    crate::parser::opt_view(target.id),
                    crate::parser::opt_view(target.name),
                ),
            decreases ts.len() - parse.pos,
        {
            proof {
                lemma_bulk_advances(ts, parse.pos + 1);
            }
            let key = match parse.next_key() {
                Ok(k) => k,
                Err(_) => {
                    return Ok(target);
                },
            };
            proof {
                reveal_strlit("ID");
                reveal_strlit("NAME");
                reveal_strlit("#");
                reveal_strlit("//");
            }
            if str_is(&key, "ID") {
                match parse.next_value_bulk() {
                    Ok(v) => {
                        target.id = Some(v);
                    },
                    Err(e) => {
                        return Err(e.to_string());
                    },
                }
            } else if str_is(&key, "NAME") {
                match parse.next_value_bulk() {
                    Ok(v) => {
                        target.name = Some(v);
                    },
                    Err(e) => {
                        return Err(e.to_string());
                    },
                }
            } else if str_is(&key, "#") || str_is(&key, "//") {
                match parse.next_value_bulk() {
                    Ok(_) => {},
                    Err(e) => {
                        return Err(e.to_string());
                    },
                }
            } else {
                return Err("Unknown parameter".to_string());
            }
        }
    }
}

/// A note expression's parameters, as values; amounts are kept as the
/// text that was read.
pub struct NoteFields {
    pub id: Option<Seq<char>>,
    pub partner: Option<Seq<char>>,
    pub description: Option<Seq<char>>,
    pub net: Option<Seq<char>>,
    pub vat: Option<Seq<char>>,
    pub gross: Option<Seq<char>>,
    pub cdate: Option<Date>,
    pub ddate: Option<Date>,
    pub idate: Option<Date>,
}

/// A note with no parameter set.
pub open spec fn no_note_fields() -> NoteFields {
    NoteFields {
        id: None,
        partner: None,
        description: None,
        net: None,
        vat: None,
        gross: None,
        cdate: None,
        ddate: None,
        idate: None,
    }
}

/// One note parameter read at the key `ts[p]`: `ID` and `PARTNER` take the
/// values that follow, `DESCRIPTION` one value, `NET`, `VAT` and `GROSS` a
/// number, `CDATE`, `DDATE` and `IDATE` a date; any other key is an error.
/// Gives the fields and where reading goes on.
pub open spec fn note_step(ts: Seq<(bool, Seq<char>)>, p: int, n: NoteFields) -> Result<(NoteFields, int), Seq<char>> {
    let k = ts[p].1;
    if k == "ID"@ || k == "PARTNER"@ {
        match bulk_spec(ts, p + 1) {
            Err(m) => Err(m),
            Ok((v, e)) => Ok((if k == "ID"@ { NoteFields { id: Some(v), ..n } } else { NoteFields { partner: Some(v), ..n } }, e)),
        }
    } else if k == "DESCRIPTION"@ {
        match value_spec(ts, p + 1) {
            Err(m) => Err(m),
            Ok((v, e)) => Ok((NoteFields { description: Some(v), ..n }, e)),
        }
    } else if k == "NET"@ || k == "VAT"@ || k == "GROSS"@ {
        match number_spec(ts, p + 1) {
            Err(m) => Err(m),
            Ok((v, e)) => Ok((
                if k == "NET"@ {
                    NoteFields { net: Some(v), ..n }
                } else if k == "VAT"@ {
                    NoteFields { vat: Some(v), ..n }
                } else {
                    NoteFields { gross: Some(v), ..n }
                },
                e,
            )),
        }
    } else if k == "CDATE"@ || k == "DDATE"@ || k == "IDATE"@ {
        match date_spec(ts, p + 1) {
            Err(m) => Err(m),
            Ok((d, e)) => Ok((
                if k == "CDATE"@ {
                    NoteFields { cdate: Some(d), ..n }
                } else if k == "DDATE"@ {
                    NoteFields { ddate: Some(d), ..n }
                } else {
                    NoteFields { idate: Some(d), ..n }
                },
                e,
            )),
        }
    } else {
        Err("Unknown parameter"@)
    }
}

/// Reading note parameters from `p` on, one key after the other (see
/// `note_step`); reading stops at the end or at a value where a key is
/// expected (that value is read). The first error stops it.
pub open spec fn note_run(ts: Seq<(bool, Seq<char>)>, p: int, n: NoteFields) -> Result<(NoteFields, int), Seq<char>>
    decreases ts.len() - p,
{
    if p < 0 || p >= ts.len() {
        Ok((n, p))
    } else if !ts[p].0 {
        Ok((n, p + 1))
    } else {
        match note_step(ts, p, n) {
            Err(m) => Err(m),
            Ok((n2, e)) => if p < e <= ts.len() {
                note_run(ts, e, n2)
            } else {
                Ok((n2, e))
            },
        }
    }
}

/// A transaction expression's parameters, as values: credit, debit and the
/// amount's text.
pub struct TransactionFields {
    pub credit: Option<Seq<char>>,
    pub debit: Option<Seq<char>>,
    pub amount: Option<Seq<char>>,
}

/// One transaction parameter read at the key `ts[p]`: `CREDIT` and `DEBIT`
/// take the values that follow, `AMOUNT` a number; any other key is an error.
pub open spec fn transaction_step(ts: Seq<(bool, Seq<char>)>, p: int, t: TransactionFields) -> Result<(TransactionFields, int), Seq<char>> {
    let k = ts[p].1;
    if k == "CREDIT"@ || k == "DEBIT"@ {
        match bulk_spec(ts, p + 1) {
            Err(m) => Err(m),
            Ok((v, e)) => Ok((
                if k == "CREDIT"@ { TransactionFields { credit: Some(v), ..t } } else { TransactionFields { debit: Some(v), ..t } },
                e,
            )),
        }
    } else if k == "AMOUNT"@ {
        match number_spec(ts, p + 1) {
            Err(m) => Err(m),
            Ok((v, e)) => Ok((TransactionFields { amount: Some(v), ..t }, e)),
        }
    } else {
        Err("Unknown parameter"@)
    }
}

/// Reading transaction parameters from `p` on (see `transaction_step`),
/// stopping as `note_run` does.
pub open spec fn transaction_run(ts: Seq<(bool, Seq<char>)>, p: int, t: TransactionFields) -> Result<(TransactionFields, int), Seq<char>>
    decreases ts.len() - p,
{
    if p < 0 || p >= ts.len() {
        Ok((t, p))
    } else if !ts[p].0 {
        Ok((t, p + 1))
    } else {
        match transaction_step(ts, p, t) {
            Err(m) => Err(m),
            Ok((t2, e)) => if p < e <= ts.len() {
                transaction_run(ts, e, t2)
            } else {
                Ok((t2, e))
            },
        }
    }
}

/// A note expression.
#[derive(Debug, Default)]
pub struct Note {
    pub id: Option<String>,
    pub partner: Option<String>,
    pub description: Option<String>,
    /// The net amount's text.
    pub net: Option<String>,
    /// The VAT amount's text.
    pub vat: Option<String>,
    /// The gross amount's text.
    pub gross: Option<String>,
    pub cdate: Option<Date>,
    pub ddate: Option<Date>,
    pub idate: Option<Date>,
}

/// The note's parameters as values.
pub open spec fn note_fields(n: Note) -> NoteFields {
    NoteFields {
        id: crate::parser::opt_view(n.id),
        partner: crate::parser::opt_view(n.partner),
        description: crate::parser::opt_view(n.description),
        net: crate::parser::opt_view(n.net),
        vat: crate::parser::opt_view(n.vat),
        gross: crate::parser::opt_view(n.gross),
        cdate: n.cdate,
        ddate: n.ddate,
        idate: n.idate,
    }
}

/// A transaction expression.
#[derive(Debug, Default)]
pub struct Transaction {
    pub credit: Option<String>,
    pub debit: Option<String>,
    /// The amount's text.
    pub amount: Option<String>,
}

/// The transaction's parameters as values.
pub open spec fn transaction_fields(t: Transaction) -> TransactionFields {
    TransactionFields {
        credit: crate::parser::opt_view(t.credit),
        debit: crate::parser::opt_view(t.debit),
        amount: crate::parser::opt_view(t.amount),
    }
}

proof fn lemma_readers_advance(ts: Seq<(bool, Seq<char>)>, p: int)
    requires
        0 <= p,
    ensures
        bulk_spec(ts, p) matches Ok((_, e)) ==> p < e <= ts.len(),
        value_spec(ts, p) matches Ok((_, e)) ==> e == p + 1 && e <= ts.len(),
        number_spec(ts, p) matches Ok((_, e)) ==> e == p + 1 && e <= ts.len(),
        date_spec(ts, p) matches Ok((_, e)) ==> e == p + 1 && e <= ts.len(),
{
    lemma_bulk_advances(ts, p);
}

impl Note {
    /// Reads the note's parameters (see `note_run`).
    pub fn parse(parse: &mut Parse) -> (res: Result<Note, String>)
        ensures
            final(parse).parts == old(parse).parts,
            match note_run(old(parse).tokens(), old(parse).pos as int, no_note_fields()) {
                Ok((n, e)) => (res matches Ok(x) && note_fields(x) == n) && final(parse).pos == e,
                Err(m) => res matches Err(x) && x@ == m,
            },
    {
        let ghost ts = parse.tokens();
        let mut target = Note {
            id: None,
            partner: None,
            description: None,
            net: None,
            vat: None,
            gross: None,
            cdate: None,
            ddate: None,
            idate: None,
        };
        proof {
            reveal_strlit("ID");
            reveal_strlit("PARTNER");
            reveal_strlit("DESCRIPTION");
            reveal_strlit("NET");
            reveal_strlit("VAT");
            reveal_strlit("GROSS");
            reveal_strlit("CDATE");
            reveal_strlit("DDATE");
            reveal_strlit("IDATE");
        }
        loop
            invariant
                parse.parts == old(parse).parts,
                ts == parse.tokens(),
                note_run(ts, old(parse).pos as int, no_note_fields()) == note_run(ts, parse.pos as int, note_fields(target)),
            decreases ts.len() - parse.pos,
        {
            proof {
                lemma_readers_advance(ts, parse.pos + 1);
            }
            let ghost p = parse.pos as int;
            let ghost n0 = note_fields(target);
            let key = match parse.next_key() {
                Ok(k) => k,
                Err(_) => {
                    return Ok(target);
                },
            };
            if str_is(&key, "ID") || str_is(&key, "PARTNER") {
                let v = match parse.next_value_bulk() {
                    Ok(v) => v,
                    Err(e) => {
                        return Err(e.to_string());
                    },
                };
                if str_is(&key, "ID") {
                    target.id = Some(v);
                } else {
                    target.partner = Some(v);
                }
            } else if str_is(&key, "DESCRIPTION") {
                let v = match parse.next_value() {
                    Ok(v) => v,
                    Err(e) => {
                        return Err(e.to_string());
                    },
                };
                target.description = Some(v);
            } else if str_is(&key, "NET") || str_is(&key, "VAT") || str_is(&key, "GROSS") {
                let v = match parse.next_number() {
                    Ok(v) => v,
                    Err(e) => {
                        return Err(e.to_string());
                    },
                };
                if str_is(&key, "NET") {
                    target.net = Some(v);
                } else if str_is(&key, "VAT") {
                    target.vat = Some(v);
                } else {
                    target.gross = Some(v);
                }
            } else if str_is(&key, "CDATE") || str_is(&key, "DDATE") || str_is(&key, "IDATE") {
                let d = match parse.next_date() {
                    Ok(d) => d,
                    Err(e) => {
                        return Err(e.to_string());
                    },
                };
                if str_is(&key, "CDATE") {
                    target.cdate = Some(d);
                } else if str_is(&key, "DDATE") {
                    target.ddate = Some(d);
                } else {
                    target.idate = Some(d);
                }
            } else {
                return Err("Unknown parameter".to_string());
            }
            proof {
                assert(note_step(ts, p, n0) == Ok::<(NoteFields, int), Seq<char>>((note_fields(target), parse.pos as int)));
            }
        }
    }
}

impl Transaction {
    /// Reads the transaction's parameters (see `transaction_run`).
    pub fn parse(parse: &mut Parse) -> (res: Result<Transaction, String>)
        ensures
            final(parse).parts == old(parse).parts,
            match transaction_run(
                old(parse).tokens(),
                old(parse).pos as int,
                TransactionFields { credit: None, debit: None, amount: None },
            ) {
                Ok((t, e)) => (res matches Ok(x) && transaction_fields(x) == t) && final(parse).pos == e,
                Err(m) => res matches Err(x) && x@ == m,
            },
    {
        let ghost ts = parse.tokens();
        let mut target = Transaction { credit: None, debit: None, amount: None };
        proof {
            reveal_strlit("CREDIT");
            reveal_strlit("DEBIT");
            reveal_strlit("AMOUNT");
        }
        loop
            invariant
                parse.parts == old(parse).parts,
                ts == parse.tokens(),
                transaction_run(ts, old(parse).pos as int, TransactionFields { credit: None, debit: None, amount: None })
                    == transaction_run(ts, parse.pos as int, transaction_fields(target)),
            decreases ts.len() - parse.pos,
        {
            proof {
                lemma_readers_advance(ts, parse.pos + 1);
            }
            let ghost p = parse.pos as int;
            let ghost t0 = transaction_fields(target);
            let key = match parse.next_key() {
                Ok(k) => k,
                Err(_) => {
                    return Ok(target);
                },
            };
            if str_is(&key, "CREDIT") || str_is(&key, "DEBIT") {
                let v = match parse.next_value_bulk() {
                    Ok(v) => v,
                    Err(e) => {
                        return Err(e.to_string());
                    },
                };
                if str_is(&key, "CREDIT") {
                    target.credit = Some(v);
                } else {
                    target.debit = Some(v);
                }
            } else if str_is(&key, "AMOUNT") {
                let v = match parse.next_number() {
                    Ok(v) => v,
                    Err(e) => {
                        return Err(e.to_string());
                    },
                };
                target.amount = Some(v);
            } else {
                return Err("Unknown parameter".to_string());
            }
            proof {
                assert(transaction_step(ts, p, t0) == Ok::<(TransactionFields, int), Seq<char>>((transaction_fields(target), parse.pos as int)));
            }
        }
    }
}

/// An expression read by `from_str`: an account, a note or a transaction.
#[derive(Debug)]
pub enum Expression {
    Account(Account),
    Note(Note),
    Transaction(Transaction),
}

/// An expression as a value.
pub enum ExpressionView {
    Account(Option<Seq<char>>, Option<Seq<char>>),
    Note(NoteFields),
    Transaction(TransactionFields),
}

/// The expression as a value.
pub open spec fn expression_view(e: Expression) -> ExpressionView {
    match e {
        Expression::Account(a) => ExpressionView::Account(
            crate::parser::opt_view(a.id),
            crate::parser::opt_view(a.name),
        ),
        Expression::Note(n) => ExpressionView::Note(note_fields(n)),
        Expression::Transaction(t) => ExpressionView::Transaction(transaction_fields(t)),
    }
}

/// What a block of tokens reads as: nothing when it does not start with a
/// known command key.
pub open spec fn block_expression(ts: Seq<(bool, Seq<char>)>) -> Result<Option<ExpressionView>, Seq<char>> {
    if ts.len() == 0 || !ts[0].0 {
        Ok(None)
    } else if ts[0].1 == "ACCOUNT"@ {
        match account_run(ts, 1, None, None) {
            Err(m) => Err(m),
            Ok((id, name, _)) => Ok(Some(ExpressionView::Account(id, name))),
        }
    } else if ts[0].1 == "NOTE"@ {
        match note_run(ts, 1, no_note_fields()) {
            Err(m) => Err(m),
            Ok((n, _)) => Ok(Some(ExpressionView::Note(n))),
        }
    } else if ts[0].1 == "TRANSACTION"@ {
        match transaction_run(ts, 1, TransactionFields { credit: None, debit: None, amount: None }) {
            Err(m) => Err(m),
            Ok((t, _)) => Ok(Some(ExpressionView::Transaction(t))),
        }
    } else {
        Ok(None)
    }
}

/// The expressions of the blocks, in order; the first error stops.
pub open spec fn block_expressions(blocks: Seq<Seq<(bool, Seq<char>)>>) -> Result<Seq<ExpressionView>, Seq<char>>
    decreases blocks.len(),
{
    if blocks.len() == 0 {
        Ok(Seq::empty())
    } else {
        match block_expressions(blocks.drop_last()) {
            Err(m) => Err(m),
            Ok(es) => match block_expression(blocks.last()) {
                Err(m) => Err(m),
                Ok(None) => Ok(es),
                Ok(Some(x)) => Ok(es.push(x)),
            },
        }
    }
}

/// The tokens of each block of the text.
pub open spec fn text_blocks(src: &str) -> Seq<Seq<(bool, Seq<char>)>> {
    let b = src.spec_bytes();
    let bs = crate::frame::blocks_from(b, 0);
    Seq::new(bs.len(), |k: int| crate::frame::tokens_from(b.subrange(bs[k].0, bs[k].1), 0))
}

proof fn lemma_block_expressions_err(blocks: Seq<Seq<(bool, Seq<char>)>>, k: int)
    requires
        0 <= k <= blocks.len(),
        block_expressions(blocks.take(k)) is Err,
    ensures
        block_expressions(blocks) == block_expressions(blocks.take(k)),
    decreases blocks.len(),
{
    if k < blocks.len() {
        assert(blocks.drop_last().take(k) =~= blocks.take(k));
        lemma_block_expressions_err(blocks.drop_last(), k);
    } else {
        assert(blocks.take(k) =~= blocks);
    }
}

/// Reads the expressions of a text, block by block: a block whose first
/// token is no key is skipped, as is an unknown command; an account, a note
/// or a transaction whose parameters cannot be read is an error.
pub fn from_str(src: &str) -> (res: Result<Vec<Expression>, String>)
    requires
        src@.len() >= 1,
    ensures
        match block_expressions(text_blocks(src)) {
            Ok(es) => res matches Ok(v) && v@.map_values(|e: Expression| expression_view(e)) == es,
            Err(m) => res matches Err(x) && x@ == m,
        },
{
    let blocks = match crate::frame::parse(src) {
        Ok(b) => b,
        Err(e) => {
            return Err(e.to_string());
        },
    };
    let ghost all = text_blocks(src);
    let ghost b0 = blocks@;
    proof {
        assert(b0.map_values(|v: Vec<Token>| tokens_view(v@)) =~= all);
    }
    let mut res: Vec<Expression> = Vec::new();
    let mut blocks = blocks;
    let n = blocks.len();
    let mut k: usize = 0;
    while k < n
        invariant
            k <= n,
            n == b0.len(),
            all == text_blocks(src),
            all.len() == n,
            forall|j: int| 0 <= j < n ==> tokens_view((#[trigger] b0[j])@) == all[j],
            blocks@ == b0.skip(k as int),
            block_expressions(all.take(k as int)) matches Ok(es) && res@.map_values(
                |e: Expression| expression_view(e),
            ) == es,
        decreases n - k,
    {
        let tokens = blocks.remove(0);
        proof {
            assert(tokens == b0[k as int]);
            assert(blocks@ =~= b0.skip(k + 1));
            assert(all.take(k + 1).drop_last() =~= all.take(k as int));
            assert(all.take(k + 1).last() == all[k as int]);
            reveal_strlit("ACCOUNT");
            reveal_strlit("NOTE");
            reveal_strlit("TRANSACTION");
        }
        let ghost ts = all[k as int];
        let ghost r0 = res@;
        let mut parse = Parse::new(tokens);
        if let Ok(cmd) = parse.next_key() {
            if str_is(&cmd, "ACCOUNT") {
                let a = match Account::parse(&mut parse) {
                    Ok(a) => a,
                    Err(e) => {
                        proof {
                            assert(tokens_view(parse.parts@) == ts);
                            assert(ts[0].1 == "ACCOUNT"@);
                            assert(block_expression(ts) == Err::<Option<ExpressionView>, Seq<char>>(e@));
                            assert(block_expressions(all.take(k + 1)) == Err::<Seq<ExpressionView>, Seq<char>>(e@));
                            lemma_block_expressions_err(all, k + 1);
                        }
                        return Err(e);
                    },
                };
                res.push(Expression::Account(a));
                proof {
                    assert(res@.map_values(|e: Expression| expression_view(e)) =~= r0.map_values(
                        |e: Expression| expression_view(e),
                    ).push(expression_view(res@.last())));
                }
            } else if str_is(&cmd, "NOTE") {
                let n = match Note::parse(&mut parse) {
                    Ok(n) => n,
                    Err(e) => {
                        proof {
                            assert(tokens_view(parse.parts@) == ts);
                            assert(block_expression(ts) == Err::<Option<ExpressionView>, Seq<char>>(e@));
                            assert(block_expressions(all.take(k + 1)) == Err::<Seq<ExpressionView>, Seq<char>>(e@));
                            lemma_block_expressions_err(all, k + 1);
                        }
                        return Err(e);
                    },
                };
                res.push(Expression::Note(n));
                proof {
                    assert(res@.map_values(|e: Expression| expression_view(e)) =~= r0.map_values(
                        |e: Expression| expression_view(e),
                    ).push(expression_view(res@.last())));
                }
            } else if str_is(&cmd, "TRANSACTION") {
                let t = match Transaction::parse(&mut parse) {
                    Ok(t) => t,
                    Err(e) => {
                        proof {
                            assert(tokens_view(parse.parts@) == ts);
                            assert(block_expression(ts) == Err::<Option<ExpressionView>, Seq<char>>(e@));
                            assert(block_expressions(all.take(k + 1)) == Err::<Seq<ExpressionView>, Seq<char>>(e@));
                            lemma_block_expressions_err(all, k + 1);
                        }
                        return Err(e);
                    },
                };
                res.push(Expression::Transaction(t));
                proof {
                    assert(res@.map_values(|e: Expression| expression_view(e)) =~= r0.map_values(
                        |e: Expression| expression_view(e),
                    ).push(expression_view(res@.last())));
                }
            }
        }
        k = k + 1;
    }
    proof {
        assert(all.take(n as int) =~= all);
    }
    Ok(res)
}

} // verus!
