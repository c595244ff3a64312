//! Reading `KEY value KEY "several words"` command lines into a key/value map.

use vstd::prelude::*;

use crate::text::{is_uppercase, char_is_uppercase, lowercase_of, push_char, to_lowercase};

verus! {

// ---------------------------------------------------------------------------
// Text maps (`serde_json::Map`, a `BTreeMap` of strings)
// ---------------------------------------------------------------------------

/// Lexicographic order on texts, char by char (`String`'s `Ord`).
pub open spec fn text_lt(a: Seq<char>, b: Seq<char>) -> bool
    decreases a.len(),
{
    if a.len() == 0 {
        b.len() > 0
    } else if b.len() == 0 {
        false
    } else if a[0] != b[0] {
        a[0] < b[0]
    } else {
        text_lt(a.drop_first(), b.drop_first())
    }
}

/// `BTreeMap::insert` on a key-sorted list: the value of an equal key is
/// replaced, a new key goes before the first larger one.
pub open spec fn map_insert(
    m: Seq<(Seq<char>, Seq<char>)>,
    k: Seq<char>,
    v: Seq<char>,
) -> Seq<(Seq<char>, Seq<char>)>
    decreases m.len(),
{
    if m.len() == 0 {
        seq![(k, v)]
    } else if m[0].0 == k {
        seq![(k, v)] + m.drop_first()
    } else if text_lt(k, m[0].0) {
        seq![(k, v)] + m
    } else {
        seq![m[0]] + map_insert(m.drop_first(), k, v)
    }
}

/// `serde_json::Map`, the map the command reader fills.
#[verifier::external_type_specification]
#[verifier::external_body]
#[verifier::reject_recursive_types(K)]
#[verifier::reject_recursive_types(V)]
pub struct ExJsonMap<K, V>(serde_json::Map<K, V>);

/// `serde_json::Value`, a JSON value.
#[verifier::external_type_specification]
#[verifier::external_body]
pub struct ExJsonValue(serde_json::Value);

/// The entries of a `serde_json::Map`, in the map's key order, each value
/// as its text (a string value's own text).
pub uninterp spec fn json_entries(m: serde_json::Map<String, serde_json::Value>) -> Seq<(Seq<char>, Seq<char>)>;

/// Calls `serde_json::Map::new`: a map without entries.
#[verifier::external_body]
fn json_map_new() -> (r: serde_json::Map<String, serde_json::Value>)
    ensures
        json_entries(r) == Seq::<(Seq<char>, Seq<char>)>::empty(),
{
    serde_json::Map::new()
}

/// Calls `serde_json::Map::insert` with the text as a string value. Without
/// the `preserve_order` feature the map is a `BTreeMap`: an equal key gets
/// the new value, a new key takes its place in key order (`map_insert`).
#[verifier::external_body]
fn json_map_insert(m: &mut serde_json::Map<String, serde_json::Value>, k: String, v: String)
    ensures
        json_entries(*final(m)) == map_insert(json_entries(*old(m)), k@, v@),
{
    let _ = m.insert(k, serde_json::Value::String(v));
}

/// Calls `serde_json::Map::iter`: the entries in key order, each value as
/// its text.
#[verifier::external_body]
fn json_map_entries(m: &serde_json::Map<String, serde_json::Value>) -> (r: Vec<(String, String)>)
    ensures
        r@.map_values(|p: (String, String)| (p.0@, p.1@)) == json_entries(*m),
{
    m.iter()
        .map(|(k, v)| match v {
            serde_json::Value::String(t) => (k.clone(), t.clone()),
            other => (k.clone(), other.to_string()),
        })
        .collect()
}

// ---------------------------------------------------------------------------
// The command reader
// ---------------------------------------------------------------------------

/// Whether the reader is before any key, inside a key or inside a value.
#[derive(Debug, Clone, Copy, PartialEq, Eq, Structural)]
pub enum ParserMode {
    Empty,
    Key,
    Value,
}

impl ParserMode {
    /// Switches between key and value; stays put before any key.
    pub fn flip(&mut self)
        ensures
            *final(self) == match *old(self) {
                ParserMode::Empty => ParserMode::Empty,
                ParserMode::Key => ParserMode::Value,
                ParserMode::Value => ParserMode::Key,
            },
    {
        match self {
            ParserMode::Empty => {},
            ParserMode::Key => *self = ParserMode::Value,
            ParserMode::Value => *self = ParserMode::Key,
        }
    }

    /// Goes to key mode.
    pub fn flip_to_key(&mut self)
        ensures
            *final(self) == ParserMode::Key,
    {
        *self = ParserMode::Key;
    }
}

/// The reader's state: entries read, inside quotes, mode, pending key and
/// value, and the outcome so far (`0` running, `1` failed, `2` panicked).
pub struct CmdState {
    pub entries: Seq<(Seq<char>, Seq<char>)>,
    pub quoted: bool,
    pub mode: ParserMode,
    pub key: Option<Seq<char>>,
    pub value: Option<Seq<char>>,
    pub outcome: int,
    pub error: Seq<char>,
}

/// The pending text with `c` appended (started when there was none).
pub open spec fn push_opt(o: Option<Seq<char>>, c: char) -> Option<Seq<char>> {
    match o {
        Some(s) => Some(s.push(c)),
        None => Some(seq![c]),
    }
}

/// `add_k_v`: the pending pair is stored (missing parts as empty texts).
pub open spec fn store_pending(st: CmdState) -> Seq<(Seq<char>, Seq<char>)> {
    map_insert(
        st.entries,
        match st.key {
            Some(k) => k,
            None => Seq::empty(),
        },
        match st.value {
            Some(v) => v,
            None => Seq::empty(),
        },
    )
}

/// The error message for a non-uppercase char where a key is read.
pub open spec fn key_error(c: char) -> Seq<char> {
    "Key '"@ + seq![c] + "' error. KEY mut be uppercase"@
}

/// One char of the command line.
pub open spec fn cmd_step(st: CmdState, c: char) -> CmdState {
    if st.outcome != 0 {
        st
    } else if c == '"' {
        CmdState { quoted: !st.quoted, ..st }
    } else if c == ' ' {
        if st.quoted {
            match st.value {
                Some(v) => CmdState { value: Some(v.push(c)), ..st },
                None => CmdState { outcome: 2, ..st },
            }
        } else {
            match st.mode {
                ParserMode::Empty => st,
                ParserMode::Key => CmdState { mode: ParserMode::Value, ..st },
                ParserMode::Value => CmdState {
                    entries: store_pending(st),
                    key: None,
                    value: None,
                    mode: ParserMode::Key,
                    ..st
                },
            }
        }
    } else {
        match st.mode {
            ParserMode::Empty => if char_is_uppercase(c) {
                CmdState { mode: ParserMode::Key, key: push_opt(st.key, c), ..st }
            } else {
                CmdState { outcome: 1, error: key_error(c), ..st }
            },
            ParserMode::Key => if char_is_uppercase(c) {
                CmdState { key: push_opt(st.key, c), ..st }
            } else {
                CmdState { outcome: 1, error: key_error(c), ..st }
            },
            ParserMode::Value => CmdState { value: push_opt(st.value, c), ..st },
        }
    }
}

/// The reader's state after the given chars.
pub open spec fn cmd_run(s: Seq<char>) -> CmdState
    decreases s.len(),
{
    if s.len() == 0 {
        CmdState {
            entries: Seq::empty(),
            quoted: false,
            mode: ParserMode::Empty,
            key: None,
            value: None,
            outcome: 0,
            error: Seq::empty(),
        }
    } else {
        cmd_step(cmd_run(s.drop_last()), s.last())
    }
}

/// Entries after the end of the line: a complete pending pair is stored.
pub open spec fn cmd_entries(s: Seq<char>) -> Seq<(Seq<char>, Seq<char>)> {
    let st = cmd_run(s);
    if st.key is Some && st.value is Some {
        store_pending(st)
    } else {
        st.entries
    }
}

/// The entries re-inserted with lower-cased keys, in key order.
pub open spec fn lowercase_keys(m: Seq<(Seq<char>, Seq<char>)>) -> Seq<(Seq<char>, Seq<char>)>
    decreases m.len(),
{
    if m.len() == 0 {
        Seq::empty()
    } else {
        map_insert(lowercase_keys(m.drop_last()), lowercase_of(m.last().0), m.last().1)
    }
}

/// A space inside quotes before any value char leaves the parser with no
/// value to extend: on such a command it cannot go on.
pub open spec fn cmd_panics(s: Seq<char>) -> bool {
    cmd_run(s).outcome == 2
}

/// What `parse_cmd` gives back: the lower-cased key map or the error.
pub open spec fn parse_cmd_spec(s: Seq<char>) -> Result<Seq<(Seq<char>, Seq<char>)>, Seq<char>> {
    let st = cmd_run(s);
    if st.outcome == 1 {
        Err(st.error)
    } else {
        Ok(lowercase_keys(cmd_entries(s)))
    }
}

/// Reads `KEY value` pairs from a command line. Keys are upper-case words;
/// a value runs to the next space, or over spaces between double quotes. The
/// keys come back lower-cased, in the order of a `BTreeMap`; a repeated key
/// keeps its last value.
pub fn parse_cmd(raw_cmd: &str) -> (res: Result<serde_json::Map<String, serde_json::Value>, String>)
    requires
        !cmd_panics(raw_cmd@),
    ensures
        match res {
            Ok(m) => parse_cmd_spec(raw_cmd@) == Ok::<
                Seq<(Seq<char>, Seq<char>)>,
                Seq<char>,
            >(json_entries(m)),
            Err(e) => parse_cmd_spec(raw_cmd@) == Err::<Seq<(Seq<char>, Seq<char>)>, Seq<char>>(
                e@,
            ),
        },
{
    match parse_cmd_checked(raw_cmd) {
        Some(r) => r,
        None => Err(String::new()),
    }
}

/// `parse_cmd` on any command line: `None` on the lines `parse_cmd` does not
/// take (a space inside quotes before any value char).
pub fn parse_cmd_checked(raw_cmd: &str) -> (res: Option<Result<serde_json::Map<String, serde_json::Value>, String>>)
    ensures
        res is None <==> cmd_panics(raw_cmd@),
        match res {
            Some(Ok(m)) => parse_cmd_spec(raw_cmd@) == Ok::<
                Seq<(Seq<char>, Seq<char>)>,
                Seq<char>,
            >(json_entries(m)),
            Some(Err(e)) => parse_cmd_spec(raw_cmd@) == Err::<Seq<(Seq<char>, Seq<char>)>, Seq<char>>(
                e@,
            ),
            None => true,
        },
{
    let chars = crate::text::chars_of(raw_cmd);
    let ghost s = raw_cmd@;
    let mut result = json_map_new();
    let mut multi_word = false;
    let mut mode = ParserMode::Empty;
    let mut key: Option<String> = None;
    let mut value: Option<String> = None;
    let mut i: usize = 0;
    while i < chars.len()
        invariant
            chars@ == s,
            s == raw_cmd@,
            i <= chars.len(),
            ({
                let st = cmd_run(s.take(i as int));
                &&& st.outcome == 0
                &&& st.entries == json_entries(result)
                &&& st.quoted == multi_word
                &&& st.mode == mode
                &&& st.key == crate::parser::opt_view(key)
                &&& st.value == crate::parser::opt_view(value)
            }),
        decreases chars.len() - i,
    {
        let ch = chars[i];
        proof {
            assert(s.take(i + 1).drop_last() =~= s.take(i as int));
            assert(s.take(i + 1).last() == ch);
        }
        if ch == '"' {
            multi_word = !multi_word;
        } else if ch == ' ' {
            if multi_word {
                match value {
                    Some(mut v) => {
                        push_char(&mut v, ch);
                        value = Some(v);
                    },
                    None => {
                        proof {
                            lemma_cmd_outcome_sticky(s, i as int + 1);
                        }
                        return None;
                    },
                }
            } else {
                match mode {
                    ParserMode::Empty => {},
                    ParserMode::Key => mode.flip(),
                    ParserMode::Value => {
                        let k = match key.take() {
                            Some(k) => k,
                            None => String::new(),
                        };
                        let v = match value.take() {
                            Some(v) => v,
                            None => String::new(),
                        };
                        json_map_insert(&mut result, k, v);
                        mode.flip_to_key();
                    },
                }
            }
        } else {
            match mode {
                ParserMode::Empty | ParserMode::Key => {
                    if is_uppercase(ch) {
                        mode.flip_to_key();
                        key = match key {
                            Some(mut k) => {
                                push_char(&mut k, ch);
                                Some(k)
                            },
                            None => {
                                let mut k = String::new();
                                push_char(&mut k, ch);
                                Some(k)
                            },
                        };
                    } else {
                        let mut msg = "Key '".to_string();
                        push_char(&mut msg, ch);
                        msg.append("' error. KEY mut be uppercase");
                        proof {
                            assert(!char_is_uppercase(ch));
                            assert(cmd_run(s.take(i + 1)).outcome == 1);
                            lemma_cmd_outcome_sticky(s, i as int + 1);
                            assert(msg@ =~= key_error(ch));
                        }
                        return Some(Err(msg));
                    }
                },
                ParserMode::Value => {
                    value = match value {
                        Some(mut v) => {
                            push_char(&mut v, ch);
                            Some(v)
                        },
                        None => {
                            let mut v = String::new();
                            push_char(&mut v, ch);
                            Some(v)
                        },
                    };
                },
            }
        }
        i = i + 1;
    }
    proof {
        assert(s.take(chars.len() as int) =~= s);
    }
    let has_pair = key.is_some() && value.is_some();
    if has_pair {
        let k = match key {
            Some(k) => k,
            None => String::new(),
        };
        let v = match value {
            Some(v) => v,
            None => String::new(),
        };
        json_map_insert(&mut result, k, v);
    }
    let ghost entries = json_entries(result);
    let pairs = json_map_entries(&result);
    let mut out = json_map_new();
    let mut j: usize = 0;
    while j < pairs.len()
        invariant
            j <= pairs.len(),
            entries == pairs@.map_values(|p: (String, String)| (p.0@, p.1@)),
            json_entries(out) == lowercase_keys(entries.take(j as int)),
        decreases pairs.len() - j,
    {
        proof {
            assert(entries.take(j + 1).drop_last() =~= entries.take(j as int));
            assert(entries.take(j + 1).last() == entries[j as int]);
        }
        let k = to_lowercase(pairs[j].0.as_str());
        let v = pairs[j].1.clone();
        json_map_insert(&mut out, k, v);
        j = j + 1;
    }
    proof {
        assert(entries.take(pairs.len() as int) =~= entries);
    }
    Some(Ok(out))
}

/// Once the reader has stopped (failed or panicked) it stays stopped.
proof fn lemma_cmd_outcome_sticky(s: Seq<char>, k: int)
    requires
        0 <= k <= s.len(),
        cmd_run(s.take(k)).outcome != 0,
    ensures
        cmd_run(s) == cmd_run(s.take(k)),
    decreases s.len() - k,
{
    if k < s.len() {
        assert(s.take(k + 1).drop_last() =~= s.take(k));
        lemma_cmd_outcome_sticky(s, k + 1);
    } else {
        assert(s.take(k) =~= s);
    }
}

} // verus!
