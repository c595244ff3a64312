//! Accounting notes: an invoice or receipt with its dates, amounts and
//! transactions, read line by line from a note file (or accounts, from the
//! accounts file).

use vstd::prelude::*;

use crate::date::{naive_date_from_iso, parse_iso_date, Date};
use crate::ledger::Account;
use crate::text::{chars_of, int_in_range, push_char, remove_char, remove_char_spec, parse_i64};

verus! {

/// How a note was paid.
#[derive(Debug, Clone, Copy, PartialEq, Eq, Structural)]
pub enum PaymentKind {
    Cash,
    Card,
    Transfer,
}

/// One transaction of a note: debit and credit account ids and an amount.
#[derive(Debug)]
pub struct Transaction {
    pub id: i32,
    pub debit: String,
    pub credit: String,
    pub amount: i64,
}

/// The commands of a note file.
#[derive(Debug, Clone, Copy, PartialEq, Eq, Structural)]
pub enum Command {
    Alias,
    Id,
    Docid,
    Author,
    PaymentKind,
    Net,
    Gross,
    Vat,
    IssueDate,
    CompletionDate,
    DueDate,
    Transaction,
    Signature,
    Account,
    Unknown,
}

/// What a token of a note line is: a command word or a text.
#[derive(Debug)]
pub enum TokenKind {
    Command(Command),
    Text(String),
}

/// A token of a note line with its position (row, column).
#[derive(Debug)]
pub struct NoteToken {
    pub kind: TokenKind,
    pub row: usize,
    pub column: usize,
}

/// The text of a token, if it is a text.
pub open spec fn text_of(t: NoteToken) -> Option<Seq<char>> {
    match t.kind {
        TokenKind::Text(s) => Some(s@),
        TokenKind::Command(_) => None,
    }
}

/// A decimal digit.
pub open spec fn digit_char(d: int) -> char {
    if d == 0 { '0' } else if d == 1 { '1' } else if d == 2 { '2' } else if d == 3 { '3' }
    else if d == 4 { '4' } else if d == 5 { '5' } else if d == 6 { '6' } else if d == 7 { '7' }
    else if d == 8 { '8' } else { '9' }
}

/// The decimal form of a number.
pub open spec fn decimal(n: nat) -> Seq<char>
    decreases n,
{
    if n < 10 {
        seq![digit_char(n as int)]
    } else {
        decimal(n / 10).push(digit_char((n % 10) as int))
    }
}

fn digit(d: usize) -> (c: char)
    requires
        d < 10,
    ensures
        c == digit_char(d as int),
{
    if d == 0 { '0' } else if d == 1 { '1' } else if d == 2 { '2' } else if d == 3 { '3' }
    else if d == 4 { '4' } else if d == 5 { '5' } else if d == 6 { '6' } else if d == 7 { '7' }
    else if d == 8 { '8' } else { '9' }
}

/// The decimal form of `n`.
pub fn decimal_string(n: usize) -> (r: String)
    ensures
        r@ == decimal(n as nat),
    decreases n,
{
    if n < 10 {
        let mut s = String::new();
        push_char(&mut s, digit(n));
        proof {
            assert(s@ =~= seq![digit_char(n as int)]);
        }
        s
    } else {
        let mut s = decimal_string(n / 10);
        push_char(&mut s, digit(n % 10));
        s
    }
}

/// An error message pointing at a token.
pub open spec fn err_text(t: NoteToken, message: Seq<char>) -> Seq<char> {
    "Error row "@ + decimal(t.row as nat) + " column "@ + decimal(t.column as nat) + "\n"@ + message
}

/// The error message for `token`.
pub fn error_msg(token: &NoteToken, message: &str) -> (r: String)
    ensures
        r@ == err_text(*token, message@),
{
    let mut r = "Error row ".to_string();
    let row = decimal_string(token.row);
    r.append(row.as_str());
    r.append(" column ");
    let col = decimal_string(token.column);
    r.append(col.as_str());
    r.append("\n");
    r.append(message);
    proof {
        reveal_strlit("Error row ");
        reveal_strlit(" column ");
        reveal_strlit("\n");
    }
    r
}

/// A note as values.
pub struct NoteView {
    pub id: Option<Seq<char>>,
    pub alias: Option<Seq<char>>,
    pub docid: Option<Seq<char>>,
    pub author: Option<Seq<char>>,
    pub payment_kind: Option<PaymentKind>,
    pub net: i64,
    pub vat: i64,
    pub gross: i64,
    pub issue_date: Option<Date>,
    pub completion_date: Option<Date>,
    pub duedate: Option<Date>,
    pub transactions: Seq<(i32, Seq<char>, Seq<char>, i64)>,
    pub accounts: Seq<(Seq<char>, Seq<char>)>,
}

/// A note as read from its file.
#[derive(Debug)]
pub struct Note {
    pub path: String,
    pub id: Option<String>,
    pub alias: Option<String>,
    pub docid: Option<String>,
    pub author: Option<String>,
    pub payment_kind: Option<PaymentKind>,
    pub net: i64,
    pub vat: i64,
    pub gross: i64,
    pub issue_date: Option<Date>,
    pub completion_date: Option<Date>,
    pub duedate: Option<Date>,
    pub transactions: Vec<Transaction>,
    pub accounts: Vec<Account>,
}

/// The note as values.
pub open spec fn note_view(n: Note) -> NoteView {
    NoteView {
        id: crate::parser::opt_view(n.id),
        alias: crate::parser::opt_view(n.alias),
        docid: crate::parser::opt_view(n.docid),
        author: crate::parser::opt_view(n.author),
        payment_kind: n.payment_kind,
        net: n.net,
        vat: n.vat,
        gross: n.gross,
        issue_date: n.issue_date,
        completion_date: n.completion_date,
        duedate: n.duedate,
        transactions: n.transactions@.map_values(
            |t: Transaction| (t.id, t.debit@, t.credit@, t.amount),
        ),
        accounts: n.accounts@.map_values(|a: Account| (a.id@, a.name@)),
    }
}

/// The whole-number value of an amount text (underscores ignored).
pub open spec fn amount_of(text: Seq<char>) -> Option<int> {
    int_in_range(remove_char_spec(text, '_'), true, i64::MIN as int, i64::MAX as int)
}

/// The texts of tokens joined with single spaces (every token a text).
pub open spec fn joined_texts(ts: Seq<NoteToken>) -> Seq<char>
    decreases ts.len(),
{
    if ts.len() == 0 {
        Seq::empty()
    } else if ts.len() == 1 {
        text_of(ts[0]).unwrap()
    } else {
        joined_texts(ts.drop_last()) + " "@ + text_of(ts.last()).unwrap()
    }
}

/// Every token is a text.
pub open spec fn all_texts(ts: Seq<NoteToken>) -> bool {
    forall|i: int| 0 <= i < ts.len() ==> (#[trigger] ts[i]).kind is Text
}

/// An amount command (`NET`, `GROSS`, `VAT`): its value, or the error.
pub open spec fn amount_param(f: NoteToken, ps: Seq<NoteToken>, one_param: Seq<char>, not_integer: Seq<char>) -> Result<i64, Seq<char>> {
    if ps.len() != 1 {
        Err(err_text(f, one_param))
    } else {
        match text_of(ps[0]) {
            None => Err(err_text(f, one_param)),
            Some(t) => match amount_of(t) {
                Some(x) => Ok(x as i64),
                None => Err(err_text(f, not_integer)),
            },
        }
    }
}

/// A date command: its date, or the error (the parameter must be a text).
pub open spec fn date_param(f: NoteToken, ps: Seq<NoteToken>, one_param: Seq<char>) -> Result<Date, Seq<char>> {
    if ps.len() != 1 {
        Err(err_text(f, one_param))
    } else {
        match naive_date_from_iso(text_of(ps[0]).unwrap()) {
            Some(d) => Ok(d),
            None => Err(err_text(f, "Date must have valid ISO format. YYYY-mm-dd"@)),
        }
    }
}

/// A line would stop the program: a parameter that must be a text is a
/// command word.
pub open spec fn line_panics(v: NoteView, line: Seq<NoteToken>, is_account_file: bool) -> bool {
    line.len() > 0 && match line[0].kind {
        TokenKind::Text(_) => false,
        TokenKind::Command(c) => {
            let ps = line.drop_first();
            match c {
                Command::Author => ps.len() >= 1 && !all_texts(ps),
                Command::IssueDate | Command::CompletionDate | Command::DueDate => ps.len() == 1
                    && !(ps[0].kind is Text),
                Command::Transaction => ps.len() >= 3 && !(ps[0].kind is Text && ps[1].kind is Text
                    && ps[2].kind is Text),
                Command::Account => is_account_file && ps.len() >= 2 && !all_texts(ps),
                _ => false,
            }
        },
    }
}

/// What one line does to a note.
pub open spec fn note_line(v: NoteView, line: Seq<NoteToken>, is_account_file: bool) -> Result<NoteView, Seq<char>> {
    if line.len() == 0 {
        Ok(v)
    } else {
        let f = line[0];
        let ps = line.drop_first();
        match f.kind {
            TokenKind::Text(_) => Ok(v),
            TokenKind::Command(c) => match c {
                Command::Alias => if ps.len() != 1 {
                    Err(err_text(f, "Alias must have one parameter"@))
                } else {
                    Ok(NoteView { alias: text_of(ps[0]), ..v })
                },
                Command::Id => if ps.len() != 1 {
                    Err(err_text(f, "ID must have one parameter"@))
                } else {
                    Ok(NoteView { id: text_of(ps[0]), ..v })
                },
                Command::Docid => if ps.len() != 1 {
                    Err(err_text(f, "DOCID must have one parameter"@))
                } else {
                    Ok(NoteView { docid: text_of(ps[0]), ..v })
                },
                Command::Author => if ps.len() < 1 {
                    Err(err_text(f, "AUTHOR must have at least one parameter"@))
                } else {
                    Ok(NoteView { author: Some(joined_texts(ps)), ..v })
                },
                Command::PaymentKind => if ps.len() != 1 {
                    Err(err_text(f, "AUTHOR must have one parameter"@))
                } else {
                    match text_of(ps[0]) {
                        None => Err(err_text(f, "PAYMENT_KIND must have one parameter"@)),
                        Some(t) => if t == "cash"@ {
                            Ok(NoteView { payment_kind: Some(PaymentKind::Cash), ..v })
                        } else if t == "card"@ {
                            Ok(NoteView { payment_kind: Some(PaymentKind::Card), ..v })
                        } else if t == "transfer"@ {
                            Ok(NoteView { payment_kind: Some(PaymentKind::Transfer), ..v })
                        } else {
                            Err(err_text(f, "PAYMENT_KIND value error. Must be: card, cash or transfer"@))
                        },
                    }
                },
                Command::Net => match amount_param(f, ps, "NET must have one parameter"@, "NET must be integer number"@) {
                    Ok(x) => Ok(NoteView { net: x, ..v }),
                    Err(e) => Err(e),
                },
                Command::Gross => match amount_param(f, ps, "GROSS must have one parameter"@, "GROSS must be integer number"@) {
                    Ok(x) => Ok(NoteView { gross: x, ..v }),
                    Err(e) => Err(e),
                },
                Command::Vat => match amount_param(f, ps, "VAT must have one parameter"@, "VAT must be integer number"@) {
                    Ok(x) => Ok(NoteView { vat: x, ..v }),
                    Err(e) => Err(e),
                },
                Command::IssueDate => match date_param(f, ps, "ISSUEDATE must have one parameter"@) {
                    Ok(d) => Ok(NoteView { issue_date: Some(d), ..v }),
                    Err(e) => Err(e),
                },
                Command::CompletionDate => match date_param(f, ps, "COMPLETIONDATE must have one parameter"@) {
                    Ok(d) => Ok(NoteView { completion_date: Some(d), ..v }),
                    Err(e) => Err(e),
                },
                Command::DueDate => match date_param(f, ps, "DUEDATE must have one parameter"@) {
                    Ok(d) => Ok(NoteView { duedate: Some(d), ..v }),
                    Err(e) => Err(e),
                },
                Command::Transaction => if ps.len() < 3 {
                    Err(err_text(f, "TRANSACTION must have minimum 3 parameters. Debit, Credit, Amount"@))
                } else {
                    match amount_of(text_of(ps[2]).unwrap()) {
                        None => Err(err_text(f, "TRANSACTION amount must be integer number"@)),
                        Some(x) => Ok(NoteView {
                            transactions: v.transactions.push(
                                (
                                    (v.transactions.len() + 1) as i32,
                                    text_of(ps[0]).unwrap(),
                                    text_of(ps[1]).unwrap(),
                                    x as i64,
                                ),
                            ),
                            ..v
                        }),
                    }
                },
                Command::Signature => Ok(v),
                Command::Account => if !is_account_file {
                    Err(err_text(f, "Account cannot be defined in a note file"@))
                } else if ps.len() < 2 {
                    Err(err_text(f, "ACCOUNT must have at least two parameter"@))
                } else {
                    Ok(NoteView {
                        accounts: v.accounts.push((text_of(ps[0]).unwrap(), joined_texts(ps.drop_first()))),
                        ..v
                    })
                },
                Command::Unknown => Err(err_text(f, "Unknown command"@)),
            },
        }
    }
}

/// The note after the lines, read in order from `v`: `None` when a line
/// read would stop the program, else the note or the first error.
pub open spec fn note_lines(v: NoteView, lines: Seq<Seq<NoteToken>>, is_account_file: bool) -> Option<Result<NoteView, Seq<char>>>
    decreases lines.len(),
{
    if lines.len() == 0 {
        Some(Ok(v))
    } else {
        match note_lines(v, lines.drop_last(), is_account_file) {
            None => None,
            Some(Err(e)) => Some(Err(e)),
            Some(Ok(w)) => if line_panics(w, lines.last(), is_account_file) {
                None
            } else {
                Some(note_line(w, lines.last(), is_account_file))
            },
        }
    }
}

/// The empty note of the file at `path`.
pub open spec fn empty_view() -> NoteView {
    NoteView {
        id: None,
        alias: None,
        docid: None,
        author: None,
        payment_kind: None,
        net: 0,
        vat: 0,
        gross: 0,
        issue_date: None,
        completion_date: None,
        duedate: None,
        transactions: Seq::empty(),
        accounts: Seq::empty(),
    }
}

} // verus!

verus! {

/// `res` and the note `b` are what the line does to the note `a`.
pub open spec fn line_applied(a: Note, b: Note, res: Result<(), String>, line: Seq<NoteToken>, is_account_file: bool) -> bool {
    &&& b.path == a.path
    &&& match note_line(note_view(a), line, is_account_file) {
        Ok(w) => res is Ok && note_view(b) == w,
        Err(e) => (res matches Err(m) && m@ == e) && note_view(b) == note_view(a),
    }
}

/// The text of a token.
fn token_text(t: &NoteToken) -> (r: Option<String>)
    ensures
        crate::parser::opt_view(r) == text_of(*t),
{
    match &t.kind {
        TokenKind::Text(s) => Some(s.clone()),
        TokenKind::Command(_) => None,
    }
}

/// The texts of the tokens joined with single spaces.
fn join_texts(ts: &Vec<NoteToken>, from: usize) -> (r: String)
    requires
        from < ts@.len(),
        all_texts(ts@.skip(from as int)),
    ensures
        r@ == joined_texts(ts@.skip(from as int)),
{
    let ghost s = ts@.skip(from as int);
    assert(s[0] == ts@[from as int]);
    let mut r = match &ts[from].kind {
        TokenKind::Text(t) => t.clone(),
        TokenKind::Command(_) => String::new(),
    };
    proof {
        assert(s.take(1) =~= seq![s[0]]);
        assert(joined_texts(s.take(1)) == text_of(s[0]).unwrap());
    }
    let n = ts.len();
    let mut i = from + 1;
    while i < n
        invariant
            from < i <= ts@.len(),
            n == ts@.len(),
            s == ts@.skip(from as int),
            all_texts(s),
            r@ == joined_texts(s.take(i - from)),
        decreases n - i,
    {
        assert(s[i - from] == ts@[i as int]);
        let t = match &ts[i].kind {
            TokenKind::Text(t) => t.clone(),
            TokenKind::Command(_) => String::new(),
        };
        r.append(" ");
        r.append(t.as_str());
        proof {
            reveal_strlit(" ");
            assert(s.take(i + 1 - from).drop_last() =~= s.take(i - from));
            assert(s.take(i + 1 - from).last() == s[i - from]);
        }
        i = i + 1;
    }
    proof {
        assert(s.take(ts@.len() - from) =~= s);
    }
    r
}

/// The whole-number value of an amount text.
fn amount(text: &String) -> (r: Option<i64>)
    ensures
        match amount_of(text@) {
            Some(x) => r == Some(x as i64),
            None => r is None,
        },
{
    let cs = remove_char(&chars_of(text.as_str()), '_');
    parse_i64(&cs)
}

impl Note {
    /// An empty note of the file at `path`.
    pub fn empty(path: String) -> (r: Self)
        ensures
            r.path == path,
            note_view(r) == empty_view(),
    {
        let r = Note {
            path,
            id: None,
            alias: None,
            docid: None,
            author: None,
            payment_kind: None,
            net: 0,
            vat: 0,
            gross: 0,
            issue_date: None,
            completion_date: None,
            duedate: None,
            transactions: Vec::new(),
            accounts: Vec::new(),
        };
        proof {
            assert(note_view(r).transactions =~= Seq::<(i32, Seq<char>, Seq<char>, i64)>::empty());
            assert(note_view(r).accounts =~= Seq::<(Seq<char>, Seq<char>)>::empty());
        }
        r
    }

    /// `ALIAS <alias>`.
    pub fn set_alias(&mut self, first_token: &NoteToken, params: Vec<NoteToken>) -> (res: Result<(), String>)
        requires
            first_token.kind == TokenKind::Command(Command::Alias),
        ensures
            line_applied(*old(self), *final(self), res, seq![*first_token] + params@, true),
    {
        proof {
            assert((seq![*first_token] + params@).drop_first() =~= params@);
        }
        if params.len() != 1 {
            return Err(error_msg(first_token, "Alias must have one parameter"));
        }
        self.alias = token_text(&params[0]);
        Ok(())
    }

    /// `ID <id>`.
    pub fn set_id(&mut self, first_token: &NoteToken, params: Vec<NoteToken>) -> (res: Result<(), String>)
        requires
            first_token.kind == TokenKind::Command(Command::Id),
        ensures
            line_applied(*old(self), *final(self), res, seq![*first_token] + params@, true),
    {
        proof {
            assert((seq![*first_token] + params@).drop_first() =~= params@);
        }
        if params.len() != 1 {
            return Err(error_msg(first_token, "ID must have one parameter"));
        }
        self.id = token_text(&params[0]);
        Ok(())
    }

    /// `DOCID <id>`.
    pub fn set_docid(&mut self, first_token: &NoteToken, params: Vec<NoteToken>) -> (res: Result<(), String>)
        requires
            first_token.kind == TokenKind::Command(Command::Docid),
        ensures
            line_applied(*old(self), *final(self), res, seq![*first_token] + params@, true),
    {
        proof {
            assert((seq![*first_token] + params@).drop_first() =~= params@);
        }
        if params.len() != 1 {
            return Err(error_msg(first_token, "DOCID must have one parameter"));
        }
        self.docid = token_text(&params[0]);
        Ok(())
    }

    /// `AUTHOR <words>`.
    pub fn set_author(&mut self, first_token: &NoteToken, params: Vec<NoteToken>) -> (res: Result<(), String>)
        requires
            first_token.kind == TokenKind::Command(Command::Author),
            params@.len() >= 1 ==> all_texts(params@),
        ensures
            line_applied(*old(self), *final(self), res, seq![*first_token] + params@, true),
    {
        proof {
            assert((seq![*first_token] + params@).drop_first() =~= params@);
        }
        if params.len() < 1 {
            return Err(error_msg(first_token, "AUTHOR must have at least one parameter"));
        }
        proof {
            assert(params@.skip(0) =~= params@);
        }
        self.author = Some(join_texts(&params, 0));
        Ok(())
    }

    /// `NET <amount>`.
    pub fn set_net(&mut self, first_token: &NoteToken, params: Vec<NoteToken>) -> (res: Result<(), String>)
        requires
            first_token.kind == TokenKind::Command(Command::Net),
        ensures
            line_applied(*old(self), *final(self), res, seq![*first_token] + params@, true),
    {
        proof {
            assert((seq![*first_token] + params@).drop_first() =~= params@);
        }
        if params.len() != 1 {
            return Err(error_msg(first_token, "NET must have one parameter"));
        }
        match token_text(&params[0]) {
            Some(text) => match amount(&text) {
                Some(x) => {
                    self.net = x;
                    Ok(())
                },
                None => Err(error_msg(first_token, "NET must be integer number")),
            },
            None => Err(error_msg(first_token, "NET must have one parameter")),
        }
    }

    /// `GROSS <amount>`.
    pub fn set_gross(&mut self, first_token: &NoteToken, params: Vec<NoteToken>) -> (res: Result<(), String>)
        requires
            first_token.kind == TokenKind::Command(Command::Gross),
        ensures
            line_applied(*old(self), *final(self), res, seq![*first_token] + params@, true),
    {
        proof {
            assert((seq![*first_token] + params@).drop_first() =~= params@);
        }
        if params.len() != 1 {
            return Err(error_msg(first_token, "GROSS must have one parameter"));
        }
        match token_text(&params[0]) {
            Some(text) => match amount(&text) {
                Some(x) => {
                    self.gross = x;
                    Ok(())
                },
                None => Err(error_msg(first_token, "GROSS must be integer number")),
            },
            None => Err(error_msg(first_token, "GROSS must have one parameter")),
        }
    }

    /// `VAT <amount>`.
    pub fn set_vat(&mut self, first_token: &NoteToken, params: Vec<NoteToken>) -> (res: Result<(), String>)
        requires
            first_token.kind == TokenKind::Command(Command::Vat),
        ensures
            line_applied(*old(self), *final(self), res, seq![*first_token] + params@, true),
    {
        proof {
            assert((seq![*first_token] + params@).drop_first() =~= params@);
        }
        if params.len() != 1 {
            return Err(error_msg(first_token, "VAT must have one parameter"));
        }
        match token_text(&params[0]) {
            Some(text) => match amount(&text) {
                Some(x) => {
                    self.vat = x;
                    Ok(())
                },
                None => Err(error_msg(first_token, "VAT must be integer number")),
            },
            None => Err(error_msg(first_token, "VAT must have one parameter")),
        }
    }

    /// `PAYMENT_KIND cash|card|transfer`.
    pub fn set_payment_kind(&mut self, first_token: &NoteToken, params: Vec<NoteToken>) -> (res: Result<(), String>)
        requires
            first_token.kind == TokenKind::Command(Command::PaymentKind),
        ensures
            line_applied(*old(self), *final(self), res, seq![*first_token] + params@, true),
    {
        proof {
            assert((seq![*first_token] + params@).drop_first() =~= params@);
        }
        if params.len() != 1 {
            return Err(error_msg(first_token, "AUTHOR must have one parameter"));
        }
        match token_text(&params[0]) {
            Some(text) => {
                if crate::text::str_eq(text.as_str(), "cash") {
                    self.payment_kind = Some(PaymentKind::Cash);
                    Ok(())
                } else if crate::text::str_eq(text.as_str(), "card") {
                    self.payment_kind = Some(PaymentKind::Card);
                    Ok(())
                } else if crate::text::str_eq(text.as_str(), "transfer") {
                    self.payment_kind = Some(PaymentKind::Transfer);
                    Ok(())
                } else {
                    Err(error_msg(first_token, "PAYMENT_KIND value error. Must be: card, cash or transfer"))
                }
            },
            None => Err(error_msg(first_token, "PAYMENT_KIND must have one parameter")),
        }
    }

    /// The date of a date command.
    fn date_of(first_token: &NoteToken, params: &Vec<NoteToken>, one_param: &str) -> (res: Result<Date, String>)
        requires
            params@.len() == 1 ==> params@[0].kind is Text,
        ensures
            params@.len() != 1 ==> (res matches Err(m) && m@ == err_text(*first_token, one_param@)),
            params@.len() == 1 ==> match naive_date_from_iso(text_of(params@[0]).unwrap()) {
                Some(d) => res == Ok::<Date, String>(d),
                None => res matches Err(m) && m@ == err_text(*first_token, "Date must have valid ISO format. YYYY-mm-dd"@),
            },
    {
        if params.len() != 1 {
            return Err(error_msg(first_token, one_param));
        }
        let text = match &params[0].kind {
            TokenKind::Text(t) => t.clone(),
            TokenKind::Command(_) => String::new(),
        };
        match parse_iso_date(text.as_str()) {
            Some(d) => Ok(d),
            None => Err(error_msg(first_token, "Date must have valid ISO format. YYYY-mm-dd")),
        }
    }

    /// `ISSUEDATE <YYYY-mm-dd>`.
    pub fn set_issuedate(&mut self, first_token: &NoteToken, params: Vec<NoteToken>) -> (res: Result<(), String>)
        requires
            first_token.kind == TokenKind::Command(Command::IssueDate),
            params@.len() == 1 ==> params@[0].kind is Text,
        ensures
            line_applied(*old(self), *final(self), res, seq![*first_token] + params@, true),
    {
        proof {
            assert((seq![*first_token] + params@).drop_first() =~= params@);
        }
        let d = Self::date_of(first_token, &params, "ISSUEDATE must have one parameter")?;
        self.issue_date = Some(d);
        Ok(())
    }

    /// `COMPLETIONDATE <YYYY-mm-dd>`.
    pub fn set_completiondate(&mut self, first_token: &NoteToken, params: Vec<NoteToken>) -> (res: Result<(), String>)
        requires
            first_token.kind == TokenKind::Command(Command::CompletionDate),
            params@.len() == 1 ==> params@[0].kind is Text,
        ensures
            line_applied(*old(self), *final(self), res, seq![*first_token] + params@, true),
    {
        proof {
            assert((seq![*first_token] + params@).drop_first() =~= params@);
        }
        let d = Self::date_of(first_token, &params, "COMPLETIONDATE must have one parameter")?;
        self.completion_date = Some(d);
        Ok(())
    }

    /// `DUEDATE <YYYY-mm-dd>`.
    pub fn set_duedate(&mut self, first_token: &NoteToken, params: Vec<NoteToken>) -> (res: Result<(), String>)
        requires
            first_token.kind == TokenKind::Command(Command::DueDate),
            params@.len() == 1 ==> params@[0].kind is Text,
        ensures
            line_applied(*old(self), *final(self), res, seq![*first_token] + params@, true),
    {
        proof {
            assert((seq![*first_token] + params@).drop_first() =~= params@);
        }
        let d = Self::date_of(first_token, &params, "DUEDATE must have one parameter")?;
        self.duedate = Some(d);
        Ok(())
    }

    /// `TRANSACTION <debit> <credit> <amount>`: numbered after the note's
    /// transactions.
    pub fn set_transaction(&mut self, first_token: &NoteToken, params: Vec<NoteToken>) -> (res: Result<(), String>)
        requires
            first_token.kind == TokenKind::Command(Command::Transaction),
            params@.len() >= 3 ==> params@[0].kind is Text && params@[1].kind is Text
                && params@[2].kind is Text,
            old(self).transactions@.len() < i32::MAX,
        ensures
            line_applied(*old(self), *final(self), res, seq![*first_token] + params@, true),
    {
        proof {
            assert((seq![*first_token] + params@).drop_first() =~= params@);
        }
        if params.len() < 3 {
            return Err(error_msg(first_token, "TRANSACTION must have minimum 3 parameters. Debit, Credit, Amount"));
        }
        let debit = match &params[0].kind {
            TokenKind::Text(t) => t.clone(),
            TokenKind::Command(_) => String::new(),
        };
        let credit = match &params[1].kind {
            TokenKind::Text(t) => t.clone(),
            TokenKind::Command(_) => String::new(),
        };
        let amount_text = match &params[2].kind {
            TokenKind::Text(t) => t.clone(),
            TokenKind::Command(_) => String::new(),
        };
        let value = match amount(&amount_text) {
            Some(x) => x,
            None => {
                return Err(error_msg(first_token, "TRANSACTION amount must be integer number"));
            },
        };
        let id = self.transactions.len() as i32 + 1;
        self.transactions.push(Transaction { id, debit, credit, amount: value });
        proof {
            assert(note_view(*self).transactions =~= note_view(*old(self)).transactions.push(
                (id, debit@, credit@, value),
            ));
        }
        Ok(())
    }

    /// `ACCOUNT <id> <name words>`: only in the accounts file.
    pub fn set_account(&mut self, first_token: &NoteToken, params: Vec<NoteToken>) -> (res: Result<(), String>)
        requires
            first_token.kind == TokenKind::Command(Command::Account),
            params@.len() >= 2 ==> all_texts(params@),
        ensures
            line_applied(*old(self), *final(self), res, seq![*first_token] + params@, true),
    {
        proof {
            assert((seq![*first_token] + params@).drop_first() =~= params@);
        }
        if params.len() < 2 {
            return Err(error_msg(first_token, "ACCOUNT must have at least two parameter"));
        }
        let name = match &params[0].kind {
            TokenKind::Text(t) => t.clone(),
            TokenKind::Command(_) => String::new(),
        };
        proof {
            assert(params@[0].kind is Text);
            assert(params@.skip(1) =~= params@.drop_first());
            assert(all_texts(params@.skip(1)));
        }
        let value = join_texts(&params, 1);
        let account = Account::new(name, value);
        self.accounts.push(account);
        proof {
            assert(note_view(*self).accounts =~= note_view(*old(self)).accounts.push(
                (account.id@, account.name@),
            ));
        }
        Ok(())
    }
}

} // verus!

verus! {

/// What reading a note's lines gives: the note, or the first error; a note
/// file (not the accounts file) must have an id.
pub open spec fn note_result(path: Seq<char>, lines: Seq<Seq<NoteToken>>, is_account_file: bool) -> Result<NoteView, Seq<char>> {
    match note_lines(empty_view(), lines, is_account_file) {
        Some(Ok(v)) => if !is_account_file && v.id is None {
            Err("MISSING ID at "@ + path)
        } else {
            Ok(v)
        },
        Some(Err(e)) => Err(e),
        None => Err(Seq::empty()),
    }
}

impl Note {
    /// A note file must have an id.
    pub fn check(&self, is_account_file: bool) -> (res: Result<(), String>)
        ensures
            !is_account_file && self.id is None ==> (res matches Err(e) && e@ == "MISSING ID at "@
                + self.path@),
            is_account_file || self.id is Some ==> res is Ok,
    {
        if !is_account_file && self.id.is_none() {
            let mut e = "MISSING ID at ".to_string();
            e.append(self.path.as_str());
            return Err(e);
        }
        Ok(())
    }

    /// Applies one line of a note file.
    fn apply_line(&mut self, line: Vec<NoteToken>, is_account_file: bool) -> (res: Result<(), String>)
        requires
            !line_panics(note_view(*old(self)), line@, is_account_file),
            old(self).transactions@.len() < i32::MAX,
        ensures
            final(self).path == old(self).path,
            match note_line(note_view(*old(self)), line@, is_account_file) {
                Ok(w) => res is Ok && note_view(*final(self)) == w,
                Err(e) => (res matches Err(m) && m@ == e),
            },
    {
        if line.len() == 0 {
            return Ok(());
        }
        let ghost l0 = line@;
        let mut params = line;
        let first = params.remove(0);
        proof {
            assert(l0 =~= seq![first] + params@);
            assert(l0.drop_first() =~= params@);
        }
        let c = match &first.kind {
            TokenKind::Text(_) => {
                return Ok(());
            },
            TokenKind::Command(c) => *c,
        };
        match c {
            Command::Alias => self.set_alias(&first, params),
            Command::Id => self.set_id(&first, params),
            Command::Docid => self.set_docid(&first, params),
            Command::Author => self.set_author(&first, params),
            Command::PaymentKind => self.set_payment_kind(&first, params),
            Command::Net => self.set_net(&first, params),
            Command::Gross => self.set_gross(&first, params),
            Command::Vat => self.set_vat(&first, params),
            Command::IssueDate => self.set_issuedate(&first, params),
            Command::CompletionDate => self.set_completiondate(&first, params),
            Command::DueDate => self.set_duedate(&first, params),
            Command::Transaction => self.set_transaction(&first, params),
            Command::Signature => Ok(()),
            Command::Account => if is_account_file {
                self.set_account(&first, params)
            } else {
                Err(error_msg(&first, "Account cannot be defined in a note file"))
            },
            Command::Unknown => Err(error_msg(&first, "Unknown command")),
        }
    }

    /// Reads a note from the tokens of its file's lines: every line that
    /// starts with a command sets what the command names, other lines are
    /// skipped; the first error stops the reading. A note file must have an
    /// id; accounts may only be defined in the accounts file.
    pub fn from_raw_note(path: String, lines: Vec<Vec<NoteToken>>, is_account_file: bool) -> (res: Result<Note, String>)
        requires
            note_lines(empty_view(), lines@.map_values(|l: Vec<NoteToken>| l@), is_account_file) is Some,
            lines@.len() < i32::MAX,
        ensures
            match note_result(path@, lines@.map_values(|l: Vec<NoteToken>| l@), is_account_file) {
                Ok(v) => res matches Ok(n) && note_view(n) == v && n.path == path,
                Err(e) => res matches Err(m) && m@ == e,
            },
    {
        let ghost all = lines@.map_values(|l: Vec<NoteToken>| l@);
        let mut note = Note::empty(path);
        let mut rest = lines;
        let n = rest.len();
        let mut k: usize = 0;
        while k < n
            invariant
                k <= n,
                n == all.len(),
                n < i32::MAX,
                rest@.map_values(|l: Vec<NoteToken>| l@) == all.skip(k as int),
                all == lines@.map_values(|l: Vec<NoteToken>| l@),
                note.path == path,
                note_lines(empty_view(), all, is_account_file) is Some,
                note_lines(empty_view(), all.take(k as int), is_account_file) == Some(
                    Ok::<NoteView, Seq<char>>(note_view(note)),
                ),
                note_view(note).transactions.len() <= k,
            decreases n - k,
        {
            proof {
                assert(rest@.map_values(|l: Vec<NoteToken>| l@).len() == rest@.len());
                assert(note_view(note).transactions.len() == note.transactions@.len());
            }
            let ghost ol = rest@;
            let line = rest.remove(0);
            proof {
                assert(ol.map_values(|l: Vec<NoteToken>| l@)[0] == all.skip(k as int)[0]);
                assert(line@ == all[k as int]);
                assert(all.take(k + 1).drop_last() =~= all.take(k as int));
                assert(all.take(k + 1).last() == all[k as int]);
                assert forall|j: int| 0 <= j < rest@.len() implies rest@.map_values(
                    |l: Vec<NoteToken>| l@,
                )[j] == all.skip(k + 1)[j] && #[trigger] rest@[j] == ol[j + 1] by {
                    assert(rest@[j] == ol[j + 1]);
                    assert(ol.map_values(|l: Vec<NoteToken>| l@)[j + 1] == all.skip(k as int)[j + 1]);
                }
                assert(rest@.map_values(|l: Vec<NoteToken>| l@) =~= all.skip(k + 1));
                lemma_note_lines_prefix(empty_view(), all, is_account_file, k + 1);
            }
            let ghost before = note_view(note);
            let r = note.apply_line(line, is_account_file);
            match r {
                Err(e) => {
                    proof {
                        assert(note_lines(empty_view(), all.take(k + 1), is_account_file) == Some(
                            note_line(before, all[k as int], is_account_file),
                        ));
                        assert(note_lines(empty_view(), all.take(k + 1), is_account_file) == Some(
                            Err::<NoteView, Seq<char>>(e@),
                        ));
                        lemma_note_lines_err(empty_view(), all, is_account_file, k + 1);
                    }
                    return Err(e);
                },
                Ok(()) => {},
            }
            proof {
                lemma_line_tx(before, all[k as int], is_account_file);
            }
            k = k + 1;
        }
        proof {
            assert(all.take(n as int) =~= all);
        }
        note.check(is_account_file)?;
        Ok(note)
    }
}

/// A line adds at most one transaction.
proof fn lemma_line_tx(v: NoteView, line: Seq<NoteToken>, acct: bool)
    ensures
        note_line(v, line, acct) matches Ok(w) ==> w.transactions.len() <= v.transactions.len() + 1,
{
}

/// A prefix of a readable run is readable.
proof fn lemma_note_lines_prefix(v: NoteView, lines: Seq<Seq<NoteToken>>, acct: bool, k: int)
    requires
        0 <= k <= lines.len(),
        note_lines(v, lines, acct) is Some,
    ensures
        note_lines(v, lines.take(k), acct) is Some,
    decreases lines.len(),
{
    if k < lines.len() {
        assert(lines.drop_last().take(k) =~= lines.take(k));
        lemma_note_lines_prefix(v, lines.drop_last(), acct, k);
    } else {
        assert(lines.take(k) =~= lines);
    }
}

/// Once a run of lines fails, the longer run fails the same way.
proof fn lemma_note_lines_err(v: NoteView, lines: Seq<Seq<NoteToken>>, acct: bool, k: int)
    requires
        0 <= k <= lines.len(),
        note_lines(v, lines.take(k), acct) matches Some(Err(_)),
        note_lines(v, lines, acct) is Some,
    ensures
        note_lines(v, lines, acct) == note_lines(v, lines.take(k), acct),
    decreases lines.len(),
{
    if k < lines.len() {
        assert(lines.drop_last().take(k) =~= lines.take(k));
        lemma_note_lines_prefix(v, lines, acct, lines.len() - 1);
        assert(lines.take(lines.len() - 1) =~= lines.drop_last());
        lemma_note_lines_err(v, lines.drop_last(), acct, k);
    } else {
        assert(lines.take(k) =~= lines);
    }
}


/// A TRANSACTION line read after other lines books one transaction at the
/// end of the note: its debit account is the text of the line's first
/// parameter, its credit account the text of the second, its amount the
/// value of the third, and its id one more than the number of transactions
/// before it. The transactions read before stay as they were. Stated of any
/// note `n` that the lines read into.
pub proof fn law_transaction_line_books_debit_then_credit(
    lines: Seq<Seq<NoteToken>>,
    line: Seq<NoteToken>,
    is_account_file: bool,
    before: NoteView,
    n: Note,
)
    requires
        note_lines(empty_view(), lines, is_account_file) == Some(Ok::<NoteView, Seq<char>>(before)),
        line.len() >= 4,
        line[0].kind == TokenKind::Command(Command::Transaction),
        line[1].kind is Text,
        line[2].kind is Text,
        line[3].kind is Text,
        amount_of(text_of(line[3]).unwrap()) is Some,
        note_lines(empty_view(), lines.push(line), is_account_file) == Some(Ok::<NoteView, Seq<char>>(note_view(n))),
    ensures
        n.transactions@.len() == before.transactions.len() + 1,
        n.transactions@.last().debit@ == text_of(line[1]).unwrap(),
        n.transactions@.last().credit@ == text_of(line[2]).unwrap(),
        n.transactions@.last().amount == amount_of(text_of(line[3]).unwrap())->0,
        n.transactions@.last().id == (before.transactions.len() + 1) as i32,
        note_view(n).transactions.drop_last() == before.transactions,
{
    let full = lines.push(line);
    assert(full.drop_last() =~= lines);
    assert(full.last() == line);
    let ps = line.drop_first();
    assert(ps[0] == line[1] && ps[1] == line[2] && ps[2] == line[3]);
    assert(!line_panics(before, line, is_account_file));
    assert(note_lines(empty_view(), full, is_account_file) == Some(note_line(before, line, is_account_file)));
    let x = amount_of(text_of(line[3]).unwrap())->0;
    let t = ((before.transactions.len() + 1) as i32, text_of(ps[0]).unwrap(), text_of(ps[1]).unwrap(), x as i64);
    assert(note_line(before, line, is_account_file) == Ok::<NoteView, Seq<char>>(
        NoteView { transactions: before.transactions.push(t), ..before },
    ));
    let v = note_view(n);
    assert(v.transactions == before.transactions.push(t));
    assert(v.transactions.len() == n.transactions@.len());
    let k = n.transactions@.len() - 1;
    assert(v.transactions[k] == (
        n.transactions@[k].id,
        n.transactions@[k].debit@,
        n.transactions@[k].credit@,
        n.transactions@[k].amount,
    ));
}

} // verus!
