//! The ledger source language: pre-processing into comment and text blocks,
//! splitting an expression into a command and its parameters, and reading the
//! parameters of each expression kind.

use vstd::prelude::*;

use crate::date::{is_valid_date, naive_date_from_str, parse_date, Date};
use crate::text::{
    all_digits, before_dslash, before_dslash_spec, chars_of, extend_chars, int_in_range, lines,
    lines_spec, parse_i32, parse_u32, remove_char, remove_char_spec, split_whitespace, str_eq,
    string_of, strip_end, trim, trim_matches, trim_matches_spec, trim_spec, trim_start,
    trim_start_spec, views, words_spec, ws,
};

verus! {

// ---------------------------------------------------------------------------
// Pre-processing
// ---------------------------------------------------------------------------

/// A run of consecutive doc-comment lines or of consecutive text lines.
#[derive(Debug, PartialEq, Eq)]
pub enum PreProcessToken {
    Comment(String),
    TextBlock(String),
}

impl View for PreProcessToken {
    /// `(is_comment, text)`
    type V = (bool, Seq<char>);

    open spec fn view(&self) -> (bool, Seq<char>) {
        match self {
            PreProcessToken::Comment(s) => (true, s@),
            PreProcessToken::TextBlock(s) => (false, s@),
        }
    }
}

/// What one source line contributes: nothing when it is blank, a comment line
/// when its first visible char is `#`, else a text line cut at `//`.
pub open spec fn classify_line(line: Seq<char>) -> Option<(bool, Seq<char>)> {
    let t = trim_spec(line);
    if t.len() == 0 {
        None
    } else if trim_start_spec(line)[0] == '#' {
        Some((true, trim_spec(trim_matches_spec(t, '#'))))
    } else {
        Some((false, trim_spec(before_dslash_spec(t))))
    }
}

/// `a`, a newline, then `b`.
pub open spec fn join_nl(a: Seq<char>, b: Seq<char>) -> Seq<char> {
    a.push('\n') + b
}

/// One step of the grouping: a line of the same kind as the open block is
/// appended to it; a line of the other kind closes the block and opens a new one.
pub open spec fn group_step(
    st: (Seq<(bool, Seq<char>)>, Option<(bool, Seq<char>)>),
    item: Option<(bool, Seq<char>)>,
) -> (Seq<(bool, Seq<char>)>, Option<(bool, Seq<char>)>) {
    match item {
        None => st,
        Some(t) => match st.1 {
            None => (st.0, Some(t)),
            Some(o) => if o.0 == t.0 {
                (st.0, Some((o.0, join_nl(o.1, t.1))))
            } else {
                (st.0.push(o), Some(t))
            },
        },
    }
}

/// Closed blocks and the open block after the given lines.
pub open spec fn group_lines(lines: Seq<Seq<char>>) -> (
    Seq<(bool, Seq<char>)>,
    Option<(bool, Seq<char>)>,
)
    decreases lines.len(),
{
    if lines.len() == 0 {
        (Seq::empty(), None)
    } else {
        group_step(group_lines(lines.drop_last()), classify_line(lines.last()))
    }
}

/// The text has at least one line that is not blank.
pub open spec fn has_content(s: Seq<char>) -> bool {
    exists|i: int| 0 <= i < lines_spec(s).len() && trim_spec(#[trigger] lines_spec(s)[i]).len() > 0
}

/// The tokens `pre_process` gives back for a text.
pub open spec fn pre_process_spec(s: Seq<char>) -> Seq<(bool, Seq<char>)> {
    let st = group_lines(lines_spec(s));
    st.0.push(st.1.unwrap())
}

/// Neighbouring tokens are never of the same kind.
pub open spec fn alternating(ts: Seq<(bool, Seq<char>)>) -> bool {
    forall|k: int| 0 <= k < ts.len() - 1 ==> #[trigger] ts[k].0 != ts[k + 1].0
}

proof fn lemma_group_lines_open(lines: Seq<Seq<char>>, i: int)
    requires
        0 <= i < lines.len(),
        trim_spec(lines[i]).len() > 0,
    ensures
        group_lines(lines).1 is Some,
    decreases lines.len(),
{
    if i < lines.len() - 1 {
        lemma_group_lines_open(lines.drop_last(), i);
    }
}

proof fn lemma_group_lines_alternating(lines: Seq<Seq<char>>)
    ensures
        alternating(group_lines(lines).0),
        group_lines(lines).0.len() > 0 ==> group_lines(lines).1 is Some,
        group_lines(lines).0.len() > 0 && group_lines(lines).1 is Some ==> group_lines(
            lines,
        ).0.last().0 != group_lines(lines).1.unwrap().0,
    decreases lines.len(),
{
    if lines.len() > 0 {
        lemma_group_lines_alternating(lines.drop_last());
        let prev = group_lines(lines.drop_last());
        let cur = group_lines(lines);
        assert forall|k: int| 0 <= k < cur.0.len() - 1 implies #[trigger] cur.0[k].0 != cur.0[k
            + 1].0 by {
            if k + 1 < prev.0.len() {
                assert(cur.0[k] == prev.0[k]);
                assert(cur.0[k + 1] == prev.0[k + 1]);
            } else {
                assert(cur.0[k] == prev.0[k]);
            }
        }
    }
}

/// `len` copies of `v[..]`, turned into owned tokens.
fn make_token(is_comment: bool, text: &Vec<char>) -> (r: PreProcessToken)
    ensures
        r@ == (is_comment, text@),
{
    let s = string_of(text);
    if is_comment {
        PreProcessToken::Comment(s)
    } else {
        PreProcessToken::TextBlock(s)
    }
}

/// What a single line contributes (see `classify_line`).
fn classify(line: &Vec<char>) -> (r: Option<(bool, Vec<char>)>)
    ensures
        match r {
            None => classify_line(line@) is None,
            Some(t) => classify_line(line@) == Some((t.0, t.1@)),
        },
{
    let t = trim(line);
    if t.len() == 0 {
        return None;
    }
    let st = trim_start(line);
    proof {
        if st@.len() == 0 {
            assert(strip_end(st@, ws()) == st@);
        }
    }
    if st[0] == '#' {
        let inner = trim_matches(&t, '#');
        Some((true, trim(&inner)))
    } else {
        let before = before_dslash(&t);
        Some((false, trim(&before)))
    }
}

/// Splits a source text into alternating blocks of doc comments (lines that
/// start with `#`) and of text (with `//` line comments cut off). Blank lines
/// are skipped; consecutive lines of the same kind are joined with `'\n'`.
pub fn pre_process(input: &str) -> (res: Vec<PreProcessToken>)
    requires
        has_content(input@),
    ensures
        res@.map_values(|t: PreProcessToken| t@) == pre_process_spec(input@),
        alternating(pre_process_spec(input@)),
{
    let chars = chars_of(input);
    let all_lines = lines(&chars);
    let ghost ls = views(all_lines@);
    let mut res: Vec<PreProcessToken> = Vec::new();
    let mut open: Option<(bool, Vec<char>)> = None;
    let mut i: usize = 0;
    while i < all_lines.len()
        invariant
            ls == views(all_lines@),
            ls == lines_spec(input@),
            i <= all_lines.len(),
            ({
                let st = group_lines(ls.take(i as int));
                &&& res@.map_values(|t: PreProcessToken| t@) == st.0
                &&& match open {
                    None => st.1 is None,
                    Some(o) => st.1 == Some((o.0, o.1@)),
                }
            }),
        decreases all_lines.len() - i,
    {
        proof {
            assert(ls.take(i + 1).drop_last() =~= ls.take(i as int));
            assert(ls.take(i + 1).last() == all_lines@[i as int]@);
        }
        let ghost before_res = res@.map_values(|t: PreProcessToken| t@);
        let item = classify(&all_lines[i]);
        match item {
            None => {},
            Some(t) => {
                let cur = open.take();
                match cur {
                    None => {
                        open = Some(t);
                    },
                    Some(o) => {
                        if o.0 == t.0 {
                            let mut joined = o.1;
                            joined.push('\n');
                            extend_chars(&mut joined, &t.1);
                            open = Some((o.0, joined));
                        } else {
                            let tok = make_token(o.0, &o.1);
                            res.push(tok);
                            proof {
                                assert(res@.map_values(|t: PreProcessToken| t@) =~= before_res.push(
                                    (o.0, o.1@),
                                ));
                            }
                            open = Some(t);
                        }
                    },
                }
            },
        }
        i = i + 1;
    }
    proof {
        assert(ls.take(all_lines.len() as int) =~= ls);
        let k = choose|k: int| 0 <= k < ls.len() && trim_spec(#[trigger] ls[k]).len() > 0;
        lemma_group_lines_open(ls, k);
        lemma_group_lines_alternating(ls);
    }
    let ghost before_res = res@.map_values(|t: PreProcessToken| t@);
    match open {
        Some(o) => {
            let tok = make_token(o.0, &o.1);
            res.push(tok);
            proof {
                assert(res@.map_values(|t: PreProcessToken| t@) =~= before_res.push((o.0, o.1@)));
            }
        },
        None => {},
    }
    proof {
        let st = group_lines(ls);
        assert forall|k: int| 0 <= k < pre_process_spec(input@).len() - 1 implies #[trigger] pre_process_spec(
            input@,
        )[k].0 != pre_process_spec(input@)[k + 1].0 by {
            if k + 1 < st.0.len() {
                assert(st.0[k].0 != st.0[k + 1].0);
            }
        }
    }
    res
}

// ---------------------------------------------------------------------------
// Expression candidates
// ---------------------------------------------------------------------------

/// A command word followed by `(key, value)` parameter pairs.
#[derive(Debug)]
pub struct ExpressionCandidate {
    pub command: String,
    pub parameters: Vec<(String, String)>,
}

/// Views of parameter pairs.
pub open spec fn pairs_view(v: Seq<(String, String)>) -> Seq<(Seq<char>, Seq<char>)> {
    v.map_values(|p: (String, String)| (p.0@, p.1@))
}

/// The whitespace-separated words of an expression, `;` removed.
pub open spec fn expression_words(s: Seq<char>) -> Seq<Seq<char>> {
    words_spec(trim_spec(remove_char_spec(s, ';'))).map_values(|w: Seq<char>| trim_spec(w))
}

/// `a`, a space, then `b`.
pub open spec fn join_sp(a: Seq<char>, b: Seq<char>) -> Seq<char> {
    a.push(' ') + b
}

/// One step of re-assembling quoted words: `(words, in_quote, failed)`.
/// Inside a quote a word is appended to the previous one; a word starting with
/// `"` opens a quote (an error when one is open), one ending with `"` closes it.
pub open spec fn quote_step(st: (Seq<Seq<char>>, bool, bool), t: Seq<char>) -> (
    Seq<Seq<char>>,
    bool,
    bool,
) {
    if st.2 {
        st
    } else {
        let opening = t.len() > 0 && t[0] == '"';
        let closing = t.len() > 0 && t.last() == '"';
        let out = if st.1 && st.0.len() > 0 {
            st.0.update(st.0.len() - 1, join_sp(st.0.last(), t))
        } else {
            st.0.push(t)
        };
        if opening && st.1 {
            (out, st.1, true)
        } else {
            let a = if opening {
                true
            } else {
                st.1
            };
            (out, if closing {
                false
            } else {
                a
            }, false)
        }
    }
}

/// Quote re-assembly over a sequence of words.
pub open spec fn quote_merge(ts: Seq<Seq<char>>) -> (Seq<Seq<char>>, bool, bool)
    decreases ts.len(),
{
    if ts.len() == 0 {
        (Seq::empty(), false, false)
    } else {
        quote_step(quote_merge(ts.drop_last()), ts.last())
    }
}

/// Once re-assembly has failed it stays failed.
proof fn lemma_quote_merge_failed(ts: Seq<Seq<char>>, k: int)
    requires
        0 <= k <= ts.len(),
        quote_merge(ts.take(k)).2,
    ensures
        quote_merge(ts).2,
    decreases ts.len() - k,
{
    if k < ts.len() {
        assert(ts.take(k + 1).drop_last() =~= ts.take(k));
        lemma_quote_merge_failed(ts, k + 1);
    } else {
        assert(ts.take(k) =~= ts);
    }
}

/// Consecutive words taken two by two.
pub open spec fn pair_up(ws: Seq<Seq<char>>) -> Seq<(Seq<char>, Seq<char>)> {
    Seq::new(ws.len() / 2, |k: int| (ws[2 * k], ws[2 * k + 1]))
}

/// What `ExpressionCandidate::from_str` gives back: `(command, parameters)` or
/// the error message.
pub open spec fn candidate_spec(s: Seq<char>) -> Result<
    (Seq<char>, Seq<(Seq<char>, Seq<char>)>),
    Seq<char>,
> {
    let ws = expression_words(s);
    if ws.len() < 1 {
        Err("Empty expression. Impossible error!"@)
    } else {
        let m = quote_merge(ws.drop_first());
        if m.2 {
            Err("Syntax error! Quotation in quotation"@)
        } else if m.0.len() % 2 == 1 {
            Err("No value for parameter "@ + m.0.last())
        } else {
            Ok((ws[0], pair_up(m.0)))
        }
    }
}

/// The view of a `from_str` result.
pub open spec fn candidate_view(r: Result<ExpressionCandidate, String>) -> Result<
    (Seq<char>, Seq<(Seq<char>, Seq<char>)>),
    Seq<char>,
> {
    match r {
        Ok(ec) => Ok((ec.command@, pairs_view(ec.parameters@))),
        Err(e) => Err(e@),
    }
}

impl ExpressionCandidate {
    /// Splits one expression into its command word and `(key, value)` pairs.
    /// `;` is dropped, words are separated by whitespace, and a value may span
    /// several words between double quotes.
    pub fn from_str(single_expression: &str) -> (res: Result<ExpressionCandidate, String>)
        ensures
            candidate_view(res) == candidate_spec(single_expression@),
    {
        let chars = chars_of(single_expression);
        let no_semi = remove_char(&chars, ';');
        let trimmed = trim(&no_semi);
        let raw = split_whitespace(&trimmed);
        let mut words: Vec<Vec<char>> = Vec::new();
        let mut i: usize = 0;
        while i < raw.len()
            invariant
                i <= raw.len(),
                views(raw@) == words_spec(trim_spec(remove_char_spec(single_expression@, ';'))),
                views(words@) =~= views(raw@).take(i as int).map_values(|w: Seq<char>| trim_spec(w)),
            decreases raw.len() - i,
        {
            let w = trim(&raw[i]);
            let ghost before = views(words@);
            words.push(w);
            proof {
                assert(views(words@) =~= before.push(trim_spec(raw@[i as int]@)));
                assert(views(raw@).take(i + 1) =~= views(raw@).take(i as int).push(raw@[i as int]@));
            }
            i = i + 1;
        }
        let ghost ws = views(words@);
        proof {
            assert(views(raw@).take(raw.len() as int) =~= views(raw@));
            assert(ws =~= expression_words(single_expression@));
        }
        if words.len() < 1 {
            return Err("Empty expression. Impossible error!".to_string());
        }
        let command = string_of(&words[0]);
        let ghost rest = ws.drop_first();
        let mut out: Vec<Vec<char>> = Vec::new();
        let mut append_mode = false;
        let mut j: usize = 1;
        while j < words.len()
            invariant
                1 <= j <= words.len(),
                ws == views(words@),
                ws == expression_words(single_expression@),
                rest == ws.drop_first(),
                quote_merge(rest.take(j - 1)) == (views(out@), append_mode, false),
            decreases words.len() - j,
        {
            let ghost st = (views(out@), append_mode, false);
            proof {
                assert(rest.take(j as int).drop_last() =~= rest.take(j - 1));
                assert(rest.take(j as int).last() == words@[j as int]@);
            }
            let token = &words[j];
            let is_opening = token.len() > 0 && token[0] == '"';
            let is_closing = token.len() > 0 && token[token.len() - 1] == '"';
            if append_mode && out.len() > 0 {
                let last_index = out.len() - 1;
                let mut last = out.pop().unwrap();
                last.push(' ');
                extend_chars(&mut last, token);
                out.push(last);
                proof {
                    assert(views(out@) =~= st.0.update(st.0.len() - 1, join_sp(st.0.last(), token@)));
                }
            } else {
                out.push(token.clone());
                proof {
                    assert(views(out@) =~= st.0.push(token@));
                }
            }
            if is_opening {
                if append_mode {
                    proof {
                        assert(quote_merge(rest.take(j as int)) == quote_step(st, token@));
                        assert(quote_step(st, token@).2);
                        lemma_quote_merge_failed(rest, j as int);
                    }
                    return Err("Syntax error! Quotation in quotation".to_string());
                }
                append_mode = true;
            }
            if is_closing {
                append_mode = false;
            }
            j = j + 1;
        }
        proof {
            assert(rest.take(words.len() - 1) =~= rest);
        }
        let ghost merged = views(out@);
        if out.len() % 2 == 1 {
            let mut msg = "No value for parameter ".to_string();
            let last = string_of(&out[out.len() - 1]);
            msg.append(last.as_str());
            return Err(msg);
        }
        let mut parameters: Vec<(String, String)> = Vec::new();
        let mut k: usize = 0;
        while k < out.len() / 2
            invariant
                out.len() % 2 == 0,
                merged == views(out@),
                k <= out.len() / 2,
                pairs_view(parameters@) =~= pair_up(merged).take(k as int),
            decreases out.len() / 2 - k,
        {
            let key = string_of(&out[2 * k]);
            let value = string_of(&out[2 * k + 1]);
            let ghost before = pairs_view(parameters@);
            parameters.push((key, value));
            proof {
                assert(pairs_view(parameters@) =~= before.push((merged[2 * k], merged[2 * k + 1])));
                assert(pair_up(merged).take(k + 1) =~= pair_up(merged).take(k as int).push(
                    pair_up(merged)[k as int],
                ));
            }
            k = k + 1;
        }
        proof {
            assert(pair_up(merged).take((out.len() / 2) as int) =~= pair_up(merged));
        }
        Ok(ExpressionCandidate { command, parameters })
    }
}

// ---------------------------------------------------------------------------
// Expressions
// ---------------------------------------------------------------------------

/// A parsed expression of the source language.
#[derive(Debug)]
pub enum Expression {
    DocComment(CommentExp),
    Mode(ModeExp),
    Account(AccountExp),
    Transaction(TransactionExp),
    Reference(ReferenceExp),
    Event(EventExp),
}

/// The view of an optional text.
pub open spec fn opt_view(o: Option<String>) -> Option<Seq<char>> {
    match o {
        Some(s) => Some(s@),
        None => None,
    }
}

/// `k` is `lower` or `upper`.
pub open spec fn key_is(k: Seq<char>, lower: Seq<char>, upper: Seq<char>) -> bool {
    k == lower || k == upper
}

fn key_matches(k: &String, lower: &str, upper: &str) -> (r: bool)
    ensures
        r == key_is(k@, lower@, upper@),
{
    str_eq(k.as_str(), lower) || str_eq(k.as_str(), upper)
}

fn text(s: &str) -> (r: String)
    ensures
        r@ == s@,
{
    s.to_string()
}

/// The mode an input file is written in.
#[derive(Debug, PartialEq, Eq, Structural)]
pub enum ModeExp {
    Account,
    Balance,
    Profit,
    Transaction,
}

/// What `ModeExp::parse_params` gives back for its first parameter.
pub open spec fn mode_spec(first: (Seq<char>, Seq<char>)) -> Result<ModeExp, Seq<char>> {
    if key_is(first.0, "set"@, "SET"@) {
        if first.1 == "account"@ {
            Ok(ModeExp::Account)
        } else if first.1 == "balance"@ {
            Ok(ModeExp::Balance)
        } else if first.1 == "profit"@ {
            Ok(ModeExp::Profit)
        } else if first.1 == "transaction"@ {
            Ok(ModeExp::Transaction)
        } else {
            Err("Unknown mode"@)
        }
    } else {
        Err("Unknown parameter for MODE"@)
    }
}

/// The view of a result whose error is a `String`.
pub open spec fn err_view<T>(r: Result<T, String>) -> Result<T, Seq<char>> {
    match r {
        Ok(t) => Ok(t),
        Err(e) => Err(e@),
    }
}

impl ModeExp {
    /// Reads `SET <mode>` from the first parameter; the others are ignored.
    pub fn parse_params(params: &Vec<(String, String)>) -> (res: Result<ModeExp, String>)
        requires
            params.len() > 0,
        ensures
            err_view(res) == mode_spec(pairs_view(params@)[0]),
    {
        let first = &params[0];
        if key_matches(&first.0, "set", "SET") {
            let v = first.1.as_str();
            if str_eq(v, "account") {
                Ok(ModeExp::Account)
            } else if str_eq(v, "balance") {
                Ok(ModeExp::Balance)
            } else if str_eq(v, "profit") {
                Ok(ModeExp::Profit)
            } else if str_eq(v, "transaction") {
                Ok(ModeExp::Transaction)
            } else {
                Err(text("Unknown mode"))
            }
        } else {
            Err(text("Unknown parameter for MODE"))
        }
    }
}

/// A documentation comment.
#[derive(Debug)]
pub struct CommentExp(pub String);

/// An account definition.
#[derive(Debug)]
pub struct AccountExp {
    pub id: String,
    pub name: String,
}

/// Fields of an account definition read so far: `(id, name)`.
pub open spec fn account_fold(rows: Seq<(Seq<char>, Seq<char>)>) -> Result<
    (Option<Seq<char>>, Option<Seq<char>>),
    Seq<char>,
>
    decreases rows.len(),
{
    if rows.len() == 0 {
        Ok((None, None))
    } else {
        match account_fold(rows.drop_last()) {
            Err(e) => Err(e),
            Ok(f) => {
                let (k, v) = rows.last();
                if key_is(k, "id"@, "ID"@) {
                    Ok((Some(v), f.1))
                } else if key_is(k, "name"@, "NAME"@) {
                    Ok((f.0, Some(v)))
                } else {
                    Err("Unknown parameter"@)
                }
            },
        }
    }
}

/// What `AccountExp::parse_params` gives back: `(id, name)` or the error.
pub open spec fn account_spec(rows: Seq<(Seq<char>, Seq<char>)>) -> Result<
    (Seq<char>, Seq<char>),
    Seq<char>,
> {
    match account_fold(rows) {
        Err(e) => Err(e),
        Ok(f) => if f.0 is None {
            Err("No ID given"@)
        } else if f.1 is None {
            Err("No NAME given"@)
        } else {
            Ok((f.0.unwrap(), f.1.unwrap()))
        },
    }
}

impl AccountExp {
    /// Reads `ID` and `NAME` (either case); the last occurrence wins.
    pub fn parse_params(from: &Vec<(String, String)>) -> (res: Result<AccountExp, String>)
        ensures
            match res {
                Ok(a) => account_spec(pairs_view(from@)) == Ok::<
                    (Seq<char>, Seq<char>),
                    Seq<char>,
                >((a.id@, a.name@)),
                Err(e) => account_spec(pairs_view(from@)) == Err::<
                    (Seq<char>, Seq<char>),
                    Seq<char>,
                >(e@),
            },
    {
        let ghost rows = pairs_view(from@);
        let mut id: Option<String> = None;
        let mut name: Option<String> = None;
        let mut i: usize = 0;
        while i < from.len()
            invariant
                i <= from.len(),
                rows == pairs_view(from@),
                account_fold(rows.take(i as int)) == Ok::<
                    (Option<Seq<char>>, Option<Seq<char>>),
                    Seq<char>,
                >((opt_view(id), opt_view(name))),
            decreases from.len() - i,
        {
            proof {
                assert(rows.take(i + 1).drop_last() =~= rows.take(i as int));
                assert(rows.take(i + 1).last() == rows[i as int]);
            }
            let row = &from[i];
            if key_matches(&row.0, "id", "ID") {
                id = Some(row.1.clone());
            } else if key_matches(&row.0, "name", "NAME") {
                name = Some(row.1.clone());
            } else {
                proof {
                    lemma_account_fold_failed(rows, i as int + 1);
                }
                return Err(text("Unknown parameter"));
            }
            i = i + 1;
        }
        proof {
            assert(rows.take(from.len() as int) =~= rows);
        }
        match id {
            None => Err(text("No ID given")),
            Some(id) => match name {
                None => Err(text("No NAME given")),
                Some(name) => Ok(AccountExp { id, name }),
            },
        }
    }
}

proof fn lemma_account_fold_failed(rows: Seq<(Seq<char>, Seq<char>)>, k: int)
    requires
        0 <= k <= rows.len(),
        account_fold(rows.take(k)) is Err,
    ensures
        account_fold(rows) == account_fold(rows.take(k)),
    decreases rows.len() - k,
{
    if k < rows.len() {
        assert(rows.take(k + 1).drop_last() =~= rows.take(k));
        lemma_account_fold_failed(rows, k + 1);
    } else {
        assert(rows.take(k) =~= rows);
    }
}

/// A transaction line: debit and credit accounts and an amount.
#[derive(Debug)]
pub struct TransactionExp {
    pub debit: String,
    pub credit: String,
    pub event_id: Option<u32>,
    pub cdate: Option<Date>,
    pub amount: i32,
}

/// Fields of a transaction read so far.
pub struct TxnFields {
    pub debit: Option<Seq<char>>,
    pub credit: Option<Seq<char>>,
    pub event_id: Option<u32>,
    pub cdate: Option<Date>,
    pub amount: Option<i32>,
}

/// One parameter of a transaction.
pub open spec fn txn_row(f: TxnFields, row: (Seq<char>, Seq<char>)) -> Result<TxnFields, Seq<char>> {
    let (k, v) = row;
    if key_is(k, "debit"@, "DEBIT"@) {
        Ok(TxnFields { debit: Some(v), ..f })
    } else if key_is(k, "credit"@, "CREDIT"@) {
        Ok(TxnFields { credit: Some(v), ..f })
    } else if key_is(k, "event_id"@, "EVENT_ID"@) {
        match int_in_range(v, false, 0, u32::MAX as int) {
            Some(x) => Ok(TxnFields { event_id: Some(x as u32), ..f }),
            None => Err("Event ID must be positive integer"@),
        }
    } else if key_is(k, "cdate"@, "CDATE"@) {
        match naive_date_from_str(v) {
            Some(d) => Ok(TxnFields { cdate: Some(d), ..f }),
            None => Err("Wrong date format"@),
        }
    } else if key_is(k, "amount"@, "AMOUNT"@) {
        match int_in_range(remove_char_spec(v, '_'), true, i32::MIN as int, i32::MAX as int) {
            Some(x) => Ok(TxnFields { amount: Some(x as i32), ..f }),
            None => Err("Amount must be integer number"@),
        }
    } else {
        Err("Unknown parameter"@)
    }
}

/// Transaction fields after the given parameters.
pub open spec fn txn_fold(rows: Seq<(Seq<char>, Seq<char>)>) -> Result<TxnFields, Seq<char>>
    decreases rows.len(),
{
    if rows.len() == 0 {
        Ok(TxnFields { debit: None, credit: None, event_id: None, cdate: None, amount: None })
    } else {
        match txn_fold(rows.drop_last()) {
            Err(e) => Err(e),
            Ok(f) => txn_row(f, rows.last()),
        }
    }
}

/// What `TransactionExp::parse_params` gives back:
/// `(debit, credit, event_id, cdate, amount)` or the error.
pub open spec fn transaction_spec(rows: Seq<(Seq<char>, Seq<char>)>) -> Result<
    (Seq<char>, Seq<char>, Option<u32>, Option<Date>, i32),
    Seq<char>,
> {
    match txn_fold(rows) {
        Err(e) => Err(e),
        Ok(f) => if f.debit is None {
            Err("No debit given"@)
        } else if f.credit is None {
            Err("No credit given"@)
        } else if f.amount is None {
            Err("No amount given"@)
        } else {
            Ok((f.debit.unwrap(), f.credit.unwrap(), f.event_id, f.cdate, f.amount.unwrap()))
        },
    }
}

proof fn lemma_txn_fold_failed(rows: Seq<(Seq<char>, Seq<char>)>, k: int)
    requires
        0 <= k <= rows.len(),
        txn_fold(rows.take(k)) is Err,
    ensures
        txn_fold(rows) == txn_fold(rows.take(k)),
    decreases rows.len() - k,
{
    if k < rows.len() {
        assert(rows.take(k + 1).drop_last() =~= rows.take(k));
        lemma_txn_fold_failed(rows, k + 1);
    } else {
        assert(rows.take(k) =~= rows);
    }
}

impl TransactionExp {
    /// Reads `DEBIT`, `CREDIT`, `EVENT_ID`, `CDATE` and `AMOUNT` (either case;
    /// `_` digit separators are allowed in the amount). The last occurrence of
    /// a parameter wins; the first bad parameter is the error.
    pub fn parse_params(from: &Vec<(String, String)>) -> (res: Result<TransactionExp, String>)
        ensures
            match res {
                Ok(t) => transaction_spec(pairs_view(from@)) == Ok::<
                    (Seq<char>, Seq<char>, Option<u32>, Option<Date>, i32),
                    Seq<char>,
                >((t.debit@, t.credit@, t.event_id, t.cdate, t.amount)),
                Err(e) => transaction_spec(pairs_view(from@)) == Err::<
                    (Seq<char>, Seq<char>, Option<u32>, Option<Date>, i32),
                    Seq<char>,
                >(e@),
            },
    {
        let ghost rows = pairs_view(from@);
        let mut debit: Option<String> = None;
        let mut credit: Option<String> = None;
        let mut event_id: Option<u32> = None;
        let mut cdate: Option<Date> = None;
        let mut amount: Option<i32> = None;
        let mut i: usize = 0;
        while i < from.len()
            invariant
                i <= from.len(),
                rows == pairs_view(from@),
                txn_fold(rows.take(i as int)) == Ok::<TxnFields, Seq<char>>(
                    TxnFields {
                        debit: opt_view(debit),
                        credit: opt_view(credit),
                        event_id,
                        cdate,
                        amount,
                    },
                ),
            decreases from.len() - i,
        {
            proof {
                assert(rows.take(i + 1).drop_last() =~= rows.take(i as int));
                assert(rows.take(i + 1).last() == rows[i as int]);
            }
            let row = &from[i];
            if key_matches(&row.0, "debit", "DEBIT") {
                debit = Some(row.1.clone());
            } else if key_matches(&row.0, "credit", "CREDIT") {
                credit = Some(row.1.clone());
            } else if key_matches(&row.0, "event_id", "EVENT_ID") {
                let v = chars_of(row.1.as_str());
                match parse_u32(&v) {
                    Some(x) => event_id = Some(x),
                    None => {
                        proof {
                            lemma_txn_fold_failed(rows, i as int + 1);
                        }
                        return Err(text("Event ID must be positive integer"));
                    },
                }
            } else if key_matches(&row.0, "cdate", "CDATE") {
                match parse_date(row.1.as_str()) {
                    Some(d) => cdate = Some(d),
                    None => {
                        proof {
                            lemma_txn_fold_failed(rows, i as int + 1);
                        }
                        return Err(text("Wrong date format"));
                    },
                }
            } else if key_matches(&row.0, "amount", "AMOUNT") {
                let v = chars_of(row.1.as_str());
                let digits = remove_char(&v, '_');
                match parse_i32(&digits) {
                    Some(x) => amount = Some(x),
                    None => {
                        proof {
                            lemma_txn_fold_failed(rows, i as int + 1);
                        }
                        return Err(text("Amount must be integer number"));
                    },
                }
            } else {
                proof {
                    lemma_txn_fold_failed(rows, i as int + 1);
                }
                return Err(text("Unknown parameter"));
            }
            i = i + 1;
        }
        proof {
            assert(rows.take(from.len() as int) =~= rows);
        }
        match debit {
            None => Err(text("No debit given")),
            Some(debit) => match credit {
                None => Err(text("No credit given")),
                Some(credit) => match amount {
                    None => Err(text("No amount given")),
                    Some(amount) => Ok(TransactionExp { debit, credit, event_id, cdate, amount }),
                },
            },
        }
    }
}

/// Optional dates of a reference or an event: issue, completion, due.
pub struct DateFields {
    pub id: Option<Seq<char>>,
    pub name: Option<Seq<char>>,
    pub idate: Option<Date>,
    pub cdate: Option<Date>,
    pub ddate: Option<Date>,
}

/// One parameter of a reference (`id_lower`/`id_upper` name its id key).
pub open spec fn dated_row(
    f: DateFields,
    row: (Seq<char>, Seq<char>),
    id_lower: Seq<char>,
    id_upper: Seq<char>,
) -> Result<DateFields, Seq<char>> {
    let (k, v) = row;
    if key_is(k, id_lower, id_upper) {
        Ok(DateFields { id: Some(v), ..f })
    } else if key_is(k, "name"@, "NAME"@) {
        Ok(DateFields { name: Some(v), ..f })
    } else if key_is(k, "idate"@, "IDATE"@) {
        match naive_date_from_str(v) {
            Some(d) => Ok(DateFields { idate: Some(d), ..f }),
            None => Err("Wrong IDATE date format"@),
        }
    } else if key_is(k, "cdate"@, "CDATE"@) {
        match naive_date_from_str(v) {
            Some(d) => Ok(DateFields { cdate: Some(d), ..f }),
            None => Err("Wrong CDATE date format"@),
        }
    } else if key_is(k, "ddate"@, "DDATE"@) {
        match naive_date_from_str(v) {
            Some(d) => Ok(DateFields { ddate: Some(d), ..f }),
            None => Err("Wrong DDATE date format"@),
        }
    } else {
        Err("Unknown parameter"@)
    }
}

/// Reference or event fields after the given parameters.
pub open spec fn dated_fold(
    rows: Seq<(Seq<char>, Seq<char>)>,
    id_lower: Seq<char>,
    id_upper: Seq<char>,
) -> Result<DateFields, Seq<char>>
    decreases rows.len(),
{
    if rows.len() == 0 {
        Ok(DateFields { id: None, name: None, idate: None, cdate: None, ddate: None })
    } else {
        match dated_fold(rows.drop_last(), id_lower, id_upper) {
            Err(e) => Err(e),
            Ok(f) => dated_row(f, rows.last(), id_lower, id_upper),
        }
    }
}

proof fn lemma_dated_fold_failed(
    rows: Seq<(Seq<char>, Seq<char>)>,
    k: int,
    id_lower: Seq<char>,
    id_upper: Seq<char>,
)
    requires
        0 <= k <= rows.len(),
        dated_fold(rows.take(k), id_lower, id_upper) is Err,
    ensures
        dated_fold(rows, id_lower, id_upper) == dated_fold(rows.take(k), id_lower, id_upper),
    decreases rows.len() - k,
{
    if k < rows.len() {
        assert(rows.take(k + 1).drop_last() =~= rows.take(k));
        lemma_dated_fold_failed(rows, k + 1, id_lower, id_upper);
    } else {
        assert(rows.take(k) =~= rows);
    }
}

/// Exec form of the dated-field loop shared by references and events.
struct DatedParams {
    id: Option<String>,
    name: Option<String>,
    idate: Option<Date>,
    cdate: Option<Date>,
    ddate: Option<Date>,
}

fn parse_dated(from: &Vec<(String, String)>, id_lower: &str, id_upper: &str) -> (res: Result<
    DatedParams,
    String,
>)
    ensures
        match res {
            Ok(p) => dated_fold(pairs_view(from@), id_lower@, id_upper@) == Ok::<
                DateFields,
                Seq<char>,
            >(
                DateFields {
                    id: opt_view(p.id),
                    name: opt_view(p.name),
                    idate: p.idate,
                    cdate: p.cdate,
                    ddate: p.ddate,
                },
            ),
            Err(e) => dated_fold(pairs_view(from@), id_lower@, id_upper@) == Err::<
                DateFields,
                Seq<char>,
            >(e@),
        },
{
    let ghost rows = pairs_view(from@);
    let mut p = DatedParams { id: None, name: None, idate: None, cdate: None, ddate: None };
    let mut i: usize = 0;
    while i < from.len()
        invariant
            i <= from.len(),
            rows == pairs_view(from@),
            dated_fold(rows.take(i as int), id_lower@, id_upper@) == Ok::<DateFields, Seq<char>>(
                DateFields {
                    id: opt_view(p.id),
                    name: opt_view(p.name),
                    idate: p.idate,
                    cdate: p.cdate,
                    ddate: p.ddate,
                },
            ),
        decreases from.len() - i,
    {
        proof {
            assert(rows.take(i + 1).drop_last() =~= rows.take(i as int));
            assert(rows.take(i + 1).last() == rows[i as int]);
        }
        let row = &from[i];
        if key_matches(&row.0, id_lower, id_upper) {
            p.id = Some(row.1.clone());
        } else if key_matches(&row.0, "name", "NAME") {
            p.name = Some(row.1.clone());
        } else if key_matches(&row.0, "idate", "IDATE") {
            match parse_date(row.1.as_str()) {
                Some(d) => p.idate = Some(d),
                None => {
                    proof {
                        lemma_dated_fold_failed(rows, i as int + 1, id_lower@, id_upper@);
                    }
                    return Err(text("Wrong IDATE date format"));
                },
            }
        } else if key_matches(&row.0, "cdate", "CDATE") {
            match parse_date(row.1.as_str()) {
                Some(d) => p.cdate = Some(d),
                None => {
                    proof {
                        lemma_dated_fold_failed(rows, i as int + 1, id_lower@, id_upper@);
                    }
                    return Err(text("Wrong CDATE date format"));
                },
            }
        } else if key_matches(&row.0, "ddate", "DDATE") {
            match parse_date(row.1.as_str()) {
                Some(d) => p.ddate = Some(d),
                None => {
                    proof {
                        lemma_dated_fold_failed(rows, i as int + 1, id_lower@, id_upper@);
                    }
                    return Err(text("Wrong DDATE date format"));
                },
            }
        } else {
            proof {
                lemma_dated_fold_failed(rows, i as int + 1, id_lower@, id_upper@);
            }
            return Err(text("Unknown parameter"));
        }
        i = i + 1;
    }
    proof {
        assert(rows.take(from.len() as int) =~= rows);
    }
    Ok(p)
}

/// A source document (invoice, receipt, ...) that events refer to.
#[derive(Debug)]
pub struct ReferenceExp {
    pub id: String,
    pub name: Option<String>,
    pub idate: Option<Date>,
    pub cdate: Date,
    pub ddate: Option<Date>,
}

/// What `ReferenceExp::parse_params` gives back:
/// `(id, name, idate, cdate, ddate)` or the error.
pub open spec fn reference_spec(rows: Seq<(Seq<char>, Seq<char>)>) -> Result<
    (Seq<char>, Option<Seq<char>>, Option<Date>, Date, Option<Date>),
    Seq<char>,
> {
    match dated_fold(rows, "id"@, "ID"@) {
        Err(e) => Err(e),
        Ok(f) => if f.id is None {
            Err("Missing reference ID"@)
        } else if f.cdate is None {
            Err("Missing CDATE"@)
        } else {
            Ok((f.id.unwrap(), f.name, f.idate, f.cdate.unwrap(), f.ddate))
        },
    }
}

impl ReferenceExp {
    /// Reads `ID`, `NAME`, `IDATE`, `CDATE` and `DDATE` (either case); `ID`
    /// and `CDATE` are required.
    pub fn parse_params(from: &Vec<(String, String)>) -> (res: Result<ReferenceExp, String>)
        ensures
            match res {
                Ok(r) => reference_spec(pairs_view(from@)) == Ok::<
                    (Seq<char>, Option<Seq<char>>, Option<Date>, Date, Option<Date>),
                    Seq<char>,
                >((r.id@, opt_view(r.name), r.idate, r.cdate, r.ddate)),
                Err(e) => reference_spec(pairs_view(from@)) == Err::<
                    (Seq<char>, Option<Seq<char>>, Option<Date>, Date, Option<Date>),
                    Seq<char>,
                >(e@),
            },
    {
        let p = parse_dated(from, "id", "ID")?;
        match p.id {
            None => Err(text("Missing reference ID")),
            Some(id) => match p.cdate {
                None => Err(text("Missing CDATE")),
                Some(cdate) => Ok(
                    ReferenceExp { id, name: p.name, idate: p.idate, cdate, ddate: p.ddate },
                ),
            },
        }
    }
}

/// An economic event of a reference.
#[derive(Debug)]
pub struct EventExp {
    pub reference_id: String,
    pub name: Option<String>,
    pub idate: Option<Date>,
    pub cdate: Option<Date>,
    pub ddate: Option<Date>,
}

/// What `EventExp::parse_params` gives back:
/// `(reference_id, name, idate, cdate, ddate)` or the error.
pub open spec fn event_spec(rows: Seq<(Seq<char>, Seq<char>)>) -> Result<
    (Seq<char>, Option<Seq<char>>, Option<Date>, Option<Date>, Option<Date>),
    Seq<char>,
> {
    match dated_fold(rows, "reference_id"@, "REFERENCE_ID"@) {
        Err(e) => Err(e),
        Ok(f) => if f.id is None {
            Err("Missing reference ID"@)
        } else {
            Ok((f.id.unwrap(), f.name, f.idate, f.cdate, f.ddate))
        },
    }
}

impl EventExp {
    /// Reads `REFERENCE_ID`, `NAME`, `IDATE`, `CDATE` and `DDATE` (either
    /// case); `REFERENCE_ID` is required.
    pub fn parse_params(from: &Vec<(String, String)>) -> (res: Result<EventExp, String>)
        ensures
            match res {
                Ok(r) => event_spec(pairs_view(from@)) == Ok::<
                    (Seq<char>, Option<Seq<char>>, Option<Date>, Option<Date>, Option<Date>),
                    Seq<char>,
                >((r.reference_id@, opt_view(r.name), r.idate, r.cdate, r.ddate)),
                Err(e) => event_spec(pairs_view(from@)) == Err::<
                    (Seq<char>, Option<Seq<char>>, Option<Date>, Option<Date>, Option<Date>),
                    Seq<char>,
                >(e@),
            },
    {
        let p = parse_dated(from, "reference_id", "REFERENCE_ID")?;
        match p.id {
            None => Err(text("Missing reference ID")),
            Some(reference_id) => Ok(
                EventExp { reference_id, name: p.name, idate: p.idate, cdate: p.cdate, ddate: p.ddate },
            ),
        }
    }
}

/// Every pre-processed token is a doc comment.
pub open spec fn all_comments(ts: Seq<(bool, Seq<char>)>) -> bool {
    forall|k: int| 0 <= k < ts.len() ==> (#[trigger] ts[k]).0
}

/// The text of a doc-comment expression, or `None` for other expressions.
pub open spec fn comment_text(e: Expression) -> Option<Seq<char>> {
    match e {
        Expression::DocComment(c) => Some(c.0@),
        _ => None,
    }
}

/// Turns pre-processed tokens into expressions. Each doc-comment block becomes
/// one `DocComment` expression. Text blocks are handed to the expression
/// reader, which has no parsing for them yet, so a text block stops the run;
/// the inputs that hold one are left out here.
pub fn parse_expr(pre_tokens: Vec<PreProcessToken>) -> (res: Result<Vec<Expression>, String>)
    requires
        all_comments(pre_tokens@.map_values(|t: PreProcessToken| t@)),
    ensures
        res is Ok,
        res matches Ok(v) ==> v.len() == pre_tokens.len() && forall|k: int|
            0 <= k < v.len() ==> comment_text(#[trigger] v@[k]) == Some(pre_tokens@[k]@.1),
{
    let ghost toks = pre_tokens@;
    let mut res: Vec<Expression> = Vec::new();
    let mut rest = pre_tokens;
    let mut i: usize = 0;
    let n = rest.len();
    while i < n
        invariant
            n == toks.len(),
            i <= n,
            rest.len() == n,
            rest@ == toks,
            all_comments(toks.map_values(|t: PreProcessToken| t@)),
            res.len() == i,
            forall|k: int| 0 <= k < i ==> comment_text(#[trigger] res@[k]) == Some(toks[k]@.1),
        decreases n - i,
    {
        proof {
            assert(toks.map_values(|t: PreProcessToken| t@)[i as int].0);
        }
        let text = match &rest[i] {
            PreProcessToken::Comment(s) => s.clone(),
            PreProcessToken::TextBlock(s) => s.clone(),
        };
        res.push(Expression::DocComment(CommentExp(text)));
        i = i + 1;
    }
    Ok(res)
}

/// Public parse interface: the expression list of a source text. Defined on
/// the texts that have content and whose blocks are all doc comments (see
/// `parse_expr`).
pub fn parse(input: &str) -> (res: Result<Vec<Expression>, String>)
    requires
        has_content(input@),
        all_comments(pre_process_spec(input@)),
    ensures
        res matches Ok(v) ==> v.len() == pre_process_spec(input@).len() && forall|k: int|
            0 <= k < v.len() ==> comment_text(#[trigger] v@[k]) == Some(
                pre_process_spec(input@)[k].1,
            ),
        res is Ok,
{
    let pre_tokens = pre_process(input);
    parse_expr(pre_tokens)
}

} // verus!
