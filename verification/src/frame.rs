//! Splitting a text into blocks (a line and the lines indented under it)
//! and a block into tokens: words in capitals are keys, other words are
//! values.

use vstd::prelude::*;

use crate::parser::opt_view;
use crate::text::char_is_uppercase;
use vstd::string::StringSliceAdditionalSpecFns;

verus! {

/// A word of a block.
#[derive(Debug)]
pub enum Token {
    Key(String),
    Value(String),
}

/// Why no more could be read.
#[derive(Debug)]
pub enum Error {
    /// Not enough data is available to parse a message
    Incomplete,
    EmptyBlock,
    Done,
    /// Invalid message encoding
    Other(String),
}

impl Error {
    /// The error's message.
    pub fn to_string(&self) -> (r: String)
        ensures
            r@ == match *self {
                Error::Done => "end of stream"@,
                Error::Incomplete => "stream ended early"@,
                Error::Other(e) => e@,
                Error::EmptyBlock => "Unknown error"@,
            },
    {
        match self {
            Error::Done => "end of stream".to_string(),
            Error::Incomplete => "stream ended early".to_string(),
            Error::Other(e) => e.clone(),
            Error::EmptyBlock => "Unknown error".to_string(),
        }
    }
}

/// What `String::from_utf8` gives for the bytes: their text when they are
/// valid UTF-8.
pub uninterp spec fn utf8_text(bytes: Seq<u8>) -> Option<Seq<char>>;

/// Decodes UTF-8 (`String::from_utf8`); the result is named `utf8_text`.
#[verifier::external_body]
fn decode_utf8(bytes: &[u8]) -> (r: Option<String>)
    ensures
        opt_view(r) == utf8_text(bytes@),
{
    String::from_utf8(bytes.to_vec()).ok()
}

/// Every character is uppercase.
pub open spec fn all_upper(s: Seq<char>) -> bool {
    forall|i: int| 0 <= i < s.len() ==> char_is_uppercase(#[trigger] s[i])
}

/// A token as a value: whether it is a key, and its text.
pub open spec fn token_view(t: Token) -> (bool, Seq<char>) {
    match t {
        Token::Key(s) => (true, s@),
        Token::Value(s) => (false, s@),
    }
}

/// The tokens as values.
pub open spec fn tokens_view(ts: Seq<Token>) -> Seq<(bool, Seq<char>)> {
    ts.map_values(|t: Token| token_view(t))
}

/// The token the bytes make: a key when every character is uppercase;
/// `None` for bytes that are no UTF-8.
pub open spec fn token_of(bytes: Seq<u8>) -> Option<(bool, Seq<char>)> {
    match utf8_text(bytes) {
        Some(t) => Some((all_upper(t), t)),
        None => None,
    }
}

impl Token {
    /// The token the bytes make.
    pub fn from_bytes(src: &[u8]) -> (res: Result<Token, Error>)
        ensures
            match token_of(src@) {
                Some(t) => res matches Ok(k) && token_view(k) == t,
                None => res matches Err(Error::Other(e)) && e@
                    == "protocol error; invalid frame format"@,
            },
    {
        match decode_utf8(src) {
            None => Err(Error::Other("protocol error; invalid frame format".to_string())),
            Some(raw) => {
                let cs = crate::text::chars_of(raw.as_str());
                let mut all = true;
                let mut i: usize = 0;
                while i < cs.len()
                    invariant
                        i <= cs@.len(),
                        cs@ == raw@,
                        all == forall|j: int| 0 <= j < i ==> char_is_uppercase(#[trigger] raw@[j]),
                    decreases cs.len() - i,
                {
                    if !crate::text::is_uppercase(cs[i]) {
                        all = false;
                    }
                    i = i + 1;
                }
                if all {
                    Ok(Token::Key(raw))
                } else {
                    Ok(Token::Value(raw))
                }
            },
        }
    }
}

/// A space or a newline.
pub open spec fn is_gap(b: u8) -> bool {
    b == 32u8 || b == 10u8
}

/// End (exclusive) of the block that starts where the scan started: the
/// first newline at `i` or after that is followed by a byte other than a
/// space. The last byte is never looked at as a newline.
pub open spec fn block_scan(src: Seq<u8>, i: int) -> Option<int>
    decreases src.len() - i,
{
    if i < 0 || i >= src.len() - 1 {
        None
    } else if src[i] == 10u8 && src[i + 1] != 32u8 {
        Some(i + 1)
    } else {
        block_scan(src, i + 1)
    }
}

/// Finds the block starting at `start`: its end, which is where the next
/// block starts.
pub fn get_block(src: &[u8], start: usize) -> (res: Result<usize, Error>)
    requires
        src@.len() >= 1,
    ensures
        match block_scan(src@, start as int) {
            Some(e) => res == Ok::<usize, Error>(e as usize),
            None => res matches Err(Error::Done),
        },
{
    let end = src.len() - 1;
    let mut i = start;
    while i < end
        invariant
            end == src@.len() - 1,
            start <= i,
            i < end ==> block_scan(src@, start as int) == block_scan(src@, i as int),
            i >= end ==> block_scan(src@, start as int) == block_scan(src@, i as int),
        decreases end - i,
    {
        if src[i] == 10u8 && src[i + 1] != 32u8 {
            return Ok(i + 1);
        }
        i = i + 1;
    }
    Err(Error::Done)
}

/// The next token from `i` on, `tok` being where the current word started:
/// (start, end) of the first word followed by a gap. A word at the very
/// end is not found.
pub open spec fn token_scan(src: Seq<u8>, i: int, tok: int) -> Option<(int, int)>
    decreases src.len() - i,
{
    if i < 0 || i >= src.len() - 1 {
        None
    } else if is_gap(src[i]) {
        token_scan(src, i + 1, i + 1)
    } else if is_gap(src[i + 1]) {
        Some((tok, i + 1))
    } else {
        token_scan(src, i + 1, tok)
    }
}

/// Finds the next token from `pos` on: its start and its end (where
/// reading goes on).
pub fn next_token_bytes(src: &[u8], pos: usize) -> (res: Result<(usize, usize), Error>)
    ensures
        match token_scan(src@, pos as int, pos as int) {
            Some((s, e)) => res == Ok::<(usize, usize), Error>((s as usize, e as usize)),
            None => res matches Err(Error::Done),
        },
{
    let len = src.len();
    if len == 0 {
        return Err(Error::Done);
    }
    let end = len - 1;
    let mut tok = pos;
    let mut i = pos;
    while i < end
        invariant
            end == src@.len() - 1,
            pos <= tok <= i,
            token_scan(src@, pos as int, pos as int) == token_scan(src@, i as int, tok as int),
        decreases end - i,
    {
        let current = src[i];
        let next = src[i + 1];
        if current == 32u8 || current == 10u8 {
            tok = i + 1;
            i = i + 1;
        } else if next == 32u8 || next == 10u8 {
            return Ok((tok, i + 1));
        } else {
            i = i + 1;
        }
    }
    Err(Error::Done)
}

/// The tokens read from `pos` on: reading stops at the first position with
/// no token, or at bytes that are no UTF-8.
pub open spec fn tokens_from(src: Seq<u8>, pos: int) -> Seq<(bool, Seq<char>)>
    decreases src.len() - pos,
{
    if pos < 0 || pos >= src.len() {
        Seq::empty()
    } else {
        match token_scan(src, pos, pos) {
            None => Seq::empty(),
            Some((s, e)) => if 0 <= s <= e && pos < e <= src.len() {
                match token_of(src.subrange(s, e)) {
                    Some(t) => seq![t] + tokens_from(src, e),
                    None => Seq::empty(),
                }
            } else {
                Seq::empty()
            },
        }
    }
}

proof fn lemma_token_scan_bounds(src: Seq<u8>, i: int, tok: int)
    requires
        0 <= tok <= i,
    ensures
        token_scan(src, i, tok) matches Some((s, e)) ==> tok <= s < e && i < e < src.len() && e > i,
    decreases src.len() - i,
{
    if 0 <= i < src.len() - 1 {
        if is_gap(src[i]) {
            lemma_token_scan_bounds(src, i + 1, i + 1);
        } else if !is_gap(src[i + 1]) {
            lemma_token_scan_bounds(src, i + 1, tok);
        }
    }
}

/// The tokens of a block.
pub fn tokenize_block(src: &[u8]) -> (r: Vec<Token>)
    ensures
        tokens_view(r@) == tokens_from(src@, 0),
{
    let mut tokens: Vec<Token> = Vec::new();
    let mut pos: usize = 0;
    loop
        invariant
            pos <= src@.len(),
            tokens_view(tokens@) + tokens_from(src@, pos as int) == tokens_from(src@, 0),
        decreases src@.len() - pos,
    {
        if pos >= src.len() {
            proof {
                assert(tokens_view(tokens@) + tokens_from(src@, pos as int) =~= tokens_view(tokens@));
            }
            return tokens;
        }
        proof {
            lemma_token_scan_bounds(src@, pos as int, pos as int);
        }
        let found = next_token_bytes(src, pos);
        match found {
            Err(_) => {
                proof {
                    assert(tokens_view(tokens@) + tokens_from(src@, pos as int) =~= tokens_view(tokens@));
                }
                return tokens;
            },
            Ok((s, e)) => {
                let t = Token::from_bytes(&slice_range(src, s, e));
                match t {
                    Err(_) => {
                        proof {
                            assert(tokens_view(tokens@) + tokens_from(src@, pos as int)
                                =~= tokens_view(tokens@));
                        }
                        return tokens;
                    },
                    Ok(tok) => {
                        proof {
                            assert(tokens_view(tokens@.push(tok)) =~= tokens_view(tokens@).push(
                                token_view(tok),
                            ));
                            assert(tokens_from(src@, pos as int) == seq![token_view(tok)]
                                + tokens_from(src@, e as int));
                            assert(tokens_view(tokens@).push(token_view(tok)) + tokens_from(src@, e as int)
                                =~= tokens_view(tokens@) + (seq![token_view(tok)] + tokens_from(src@, e as int)));
                        }
                        tokens.push(tok);
                        pos = e;
                    },
                }
            },
        }
    }
}

/// The bytes `src[s..e]`.
fn slice_range(src: &[u8], s: usize, e: usize) -> (r: Vec<u8>)
    requires
        s <= e <= src@.len(),
    ensures
        r@ == src@.subrange(s as int, e as int),
{
    let mut r: Vec<u8> = Vec::new();
    let mut i = s;
    while i < e
        invariant
            s <= i <= e,
            e <= src@.len(),
            r@ == src@.subrange(s as int, i as int),
        decreases e - i,
    {
        r.push(src[i]);
        proof {
            assert(src@.subrange(s as int, i + 1) =~= src@.subrange(s as int, i as int).push(src@[i as int]));
        }
        i = i + 1;
    }
    r
}

/// The blocks (start, end) from `pos` on.
pub open spec fn blocks_from(src: Seq<u8>, pos: int) -> Seq<(int, int)>
    decreases src.len() - pos,
{
    if pos < 0 || pos >= src.len() {
        Seq::empty()
    } else {
        match block_scan(src, pos) {
            Some(e) => if pos < e <= src.len() {
                seq![(pos, e)] + blocks_from(src, e)
            } else {
                Seq::empty()
            },
            None => Seq::empty(),
        }
    }
}

proof fn lemma_block_scan_bounds(src: Seq<u8>, i: int)
    requires
        0 <= i,
    ensures
        block_scan(src, i) matches Some(e) ==> i < e < src.len(),
    decreases src.len() - i,
{
    if 0 <= i < src.len() - 1 && !(src[i] == 10u8 && src[i + 1] != 32u8) {
        lemma_block_scan_bounds(src, i + 1);
    }
}

/// The tokens of each block of the text.
pub fn parse(src: &str) -> (res: Result<Vec<Vec<Token>>, Error>)
    requires
        src@.len() >= 1,
    ensures
        res matches Ok(blocks) && blocks@.len() == blocks_from(src.spec_bytes(), 0).len()
            && forall|k: int|
            0 <= k < blocks@.len() ==> tokens_view(#[trigger] blocks@[k]@) == tokens_from(
                src.spec_bytes().subrange(
                    blocks_from(src.spec_bytes(), 0)[k].0,
                    blocks_from(src.spec_bytes(), 0)[k].1,
                ),
                0,
            ),
{
    let bytes = src.as_bytes();
    let ghost b = bytes@;
    let mut res: Vec<Vec<Token>> = Vec::new();
    let mut pos: usize = 0;
    let ghost mut done_blocks: Seq<(int, int)> = Seq::empty();
    loop
        invariant
            b == bytes@,
            b == src.spec_bytes(),
            pos <= b.len(),
            b.len() >= 1,
            done_blocks + blocks_from(b, pos as int) == blocks_from(b, 0),
            res@.len() == done_blocks.len(),
            forall|k: int|
                0 <= k < res@.len() ==> tokens_view(#[trigger] res@[k]@) == tokens_from(
                    b.subrange(done_blocks[k].0, done_blocks[k].1),
                    0,
                ),
        decreases b.len() - pos,
    {
        if pos >= bytes.len() {
            proof {
                assert(done_blocks + blocks_from(b, pos as int) =~= done_blocks);
            }
            return Ok(res);
        }
        proof {
            lemma_block_scan_bounds(b, pos as int);
        }
        match get_block(bytes, pos) {
            Err(_) => {
                proof {
                    assert(done_blocks + blocks_from(b, pos as int) =~= done_blocks);
                }
                return Ok(res);
            },
            Ok(e) => {
                let block = slice_range(bytes, pos, e);
                let toks = tokenize_block(block.as_slice());
                proof {
                    assert(blocks_from(b, pos as int) == seq![(pos as int, e as int)] + blocks_from(
                        b,
                        e as int,
                    ));
                    assert(done_blocks.push((pos as int, e as int)) + blocks_from(b, e as int)
                        =~= done_blocks + (seq![(pos as int, e as int)] + blocks_from(b, e as int)));
                    done_blocks = done_blocks.push((pos as int, e as int));
                }
                res.push(toks);
                pos = e;
            },
        }
    }
}

} // verus!
