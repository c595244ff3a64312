//! Character-level text helpers shared by the parsers.
//!
//! Texts are handled as sequences of `char`s; each helper states its result
//! over `Seq<char>` so that the parsers above it can speak of whole inputs.

use vstd::prelude::*;

verus! {

// ---------------------------------------------------------------------------
// Character classes
// ---------------------------------------------------------------------------

/// Unicode `White_Space` property, as `char::is_whitespace` defines it.
pub open spec fn spec_is_whitespace(c: char) -> bool {
    ||| c == '\t' || c == '\n' || c == '\u{0B}' || c == '\u{0C}' || c == '\r' || c == ' '
    ||| c == '\u{85}' || c == '\u{A0}' || c == '\u{1680}'
    ||| ('\u{2000}' <= c && c <= '\u{200A}')
    ||| c == '\u{2028}' || c == '\u{2029}' || c == '\u{202F}' || c == '\u{205F}' || c == '\u{3000}'
}

/// Executable whitespace test.
pub fn is_whitespace(c: char) -> (r: bool)
    ensures
        r == spec_is_whitespace(c),
{
    c == '\t' || c == '\n' || c == '\u{0B}' || c == '\u{0C}' || c == '\r' || c == ' '
        || c == '\u{85}' || c == '\u{A0}' || c == '\u{1680}' || ('\u{2000}' <= c && c
        <= '\u{200A}') || c == '\u{2028}' || c == '\u{2029}' || c == '\u{202F}' || c
        == '\u{205F}' || c == '\u{3000}'
}

/// What `char::is_uppercase` answers (the Unicode `Uppercase` property).
pub uninterp spec fn char_is_uppercase(c: char) -> bool;

/// Calls `char::is_uppercase`; the answer is named `char_is_uppercase`. As
/// the Unicode tables have it, `A`..`Z` are uppercase, and `a`..`z`, the
/// digits, space, `-` and `_` are not.
#[verifier::external_body]
pub(crate) fn is_uppercase(c: char) -> (r: bool)
    ensures
        r == char_is_uppercase(c),
        'A' <= c <= 'Z' ==> r,
        ('a' <= c <= 'z') || ('0' <= c <= '9') || c == ' ' || c == '-' || c == '_' ==> !r,
{
    c.is_uppercase()
}

/// What `str::to_lowercase` gives back (Unicode lower-casing of every char).
pub uninterp spec fn lowercase_of(s: Seq<char>) -> Seq<char>;

/// `c` with an ASCII capital letter turned into its small letter.
pub open spec fn ascii_lower(c: char) -> char {
    if 'A' <= c <= 'Z' {
        ((c as u32) + 32) as char
    } else {
        c
    }
}

/// Calls `str::to_lowercase`; the result is named `lowercase_of`. On ASCII
/// text, Unicode lower-casing turns each capital letter into its small
/// letter and keeps every other char.
#[verifier::external_body]
pub(crate) fn to_lowercase(s: &str) -> (r: String)
    ensures
        r@ == lowercase_of(s@),
        (forall|i: int| 0 <= i < s@.len() ==> (#[trigger] s@[i] as u32) < 128) ==> r@ == s@.map_values(
            |c: char| ascii_lower(c),
        ),
{
    s.to_lowercase()
}

/// Appends one `char` to a `String` (`String::push`).
#[verifier::external_body]
pub(crate) fn push_char(s: &mut String, c: char)
    ensures
        final(s)@ == old(s)@.push(c),
{
    s.push(c)
}

// ---------------------------------------------------------------------------
// Conversions
// ---------------------------------------------------------------------------

/// The chars of a string slice, in order.
pub fn chars_of(s: &str) -> (r: Vec<char>)
    ensures
        r@ == s@,
{
    let n = s.unicode_len();
    let mut r: Vec<char> = Vec::new();
    let mut i: usize = 0;
    while i < n
        invariant
            n == s@.len(),
            i <= n,
            r@ == s@.take(i as int),
        decreases n - i,
    {
        let c = s.get_char(i);
        r.push(c);
        assert(s@.take(i + 1) =~= s@.take(i as int).push(c));
        i = i + 1;
    }
    assert(s@.take(n as int) =~= s@);
    r
}

/// A `String` holding the given chars.
pub fn string_of(v: &Vec<char>) -> (r: String)
    ensures
        r@ == v@,
{
    let mut r = String::new();
    let mut i: usize = 0;
    while i < v.len()
        invariant
            i <= v.len(),
            r@ == v@.take(i as int),
        decreases v.len() - i,
    {
        push_char(&mut r, v[i]);
        assert(v@.take(i + 1) =~= v@.take(i as int).push(v@[i as int]));
        i = i + 1;
    }
    assert(v@.take(v.len() as int) =~= v@);
    r
}

/// Copy of `v[from..to]`.
pub fn slice_chars(v: &Vec<char>, from: usize, to: usize) -> (r: Vec<char>)
    requires
        from <= to <= v.len(),
    ensures
        r@ == v@.subrange(from as int, to as int),
{
    let mut r: Vec<char> = Vec::new();
    let mut k = from;
    while k < to
        invariant
            from <= k <= to <= v.len(),
            r@ == v@.subrange(from as int, k as int),
        decreases to - k,
    {
        r.push(v[k]);
        assert(v@.subrange(from as int, k + 1) =~= v@.subrange(from as int, k as int).push(
            v@[k as int],
        ));
        k = k + 1;
    }
    r
}

/// Equality of two char sequences.
pub fn chars_eq(a: &Vec<char>, b: &Vec<char>) -> (r: bool)
    ensures
        r == (a@ == b@),
{
    if a.len() != b.len() {
        return false;
    }
    let mut i: usize = 0;
    while i < a.len()
        invariant
            a.len() == b.len(),
            i <= a.len(),
            forall|k: int| 0 <= k < i ==> a@[k] == b@[k],
        decreases a.len() - i,
    {
        if a[i] != b[i] {
            return false;
        }
        i = i + 1;
    }
    assert(a@ =~= b@);
    true
}

/// Equality of two string slices.
pub fn str_eq(a: &str, b: &str) -> (r: bool)
    ensures
        r == (a@ == b@),
{
    let av = chars_of(a);
    let bv = chars_of(b);
    chars_eq(&av, &bv)
}

// ---------------------------------------------------------------------------
// Trimming
// ---------------------------------------------------------------------------

/// `s` without its leading chars that satisfy `p`.
pub open spec fn strip_start(s: Seq<char>, p: spec_fn(char) -> bool) -> Seq<char>
    decreases s.len(),
{
    if s.len() > 0 && p(s[0]) {
        strip_start(s.drop_first(), p)
    } else {
        s
    }
}

/// `s` without its trailing chars that satisfy `p`.
pub open spec fn strip_end(s: Seq<char>, p: spec_fn(char) -> bool) -> Seq<char>
    decreases s.len(),
{
    if s.len() > 0 && p(s.last()) {
        strip_end(s.drop_last(), p)
    } else {
        s
    }
}

/// The predicate "is whitespace".
pub open spec fn ws() -> spec_fn(char) -> bool {
    |c: char| spec_is_whitespace(c)
}

/// The predicate "equals `c`".
pub open spec fn is_char(c: char) -> spec_fn(char) -> bool {
    |x: char| x == c
}

/// `str::trim_start`.
pub open spec fn trim_start_spec(s: Seq<char>) -> Seq<char> {
    strip_start(s, ws())
}

/// `str::trim`: both ends stripped of whitespace.
pub open spec fn trim_spec(s: Seq<char>) -> Seq<char> {
    strip_end(strip_start(s, ws()), ws())
}

/// `str::trim_matches(c)`: both ends stripped of `c`.
pub open spec fn trim_matches_spec(s: Seq<char>, c: char) -> Seq<char> {
    strip_end(strip_start(s, is_char(c)), is_char(c))
}

/// Stripping a prefix of `p`-chars from `s[i..]` after `s[i]` satisfied `p`.
proof fn lemma_strip_start_step(s: Seq<char>, i: int, p: spec_fn(char) -> bool)
    requires
        0 <= i < s.len(),
        p(s[i]),
    ensures
        strip_start(s.subrange(i, s.len() as int), p) == strip_start(
            s.subrange(i + 1, s.len() as int),
            p,
        ),
{
    assert(s.subrange(i, s.len() as int).drop_first() =~= s.subrange(i + 1, s.len() as int));
}

/// Stripping a suffix of `p`-chars from `s[lo..j]` after `s[j-1]` satisfied `p`.
proof fn lemma_strip_end_step(s: Seq<char>, lo: int, j: int, p: spec_fn(char) -> bool)
    requires
        0 <= lo < j <= s.len(),
        p(s[j - 1]),
    ensures
        strip_end(s.subrange(lo, j), p) == strip_end(s.subrange(lo, j - 1), p),
{
    assert(s.subrange(lo, j).drop_last() =~= s.subrange(lo, j - 1));
}

/// Index of the first char of `v[..]` that is not whitespace (or `v.len()`).
fn first_kept(v: &Vec<char>, c: Option<char>) -> (i: usize)
    ensures
        i <= v.len(),
        strip_start(v@, pred_of(c)) == v@.subrange(i as int, v@.len() as int),
{
    let n = v.len();
    let mut i: usize = 0;
    assert(v@.subrange(0, n as int) =~= v@);
    while i < n && matches_pred(v[i], c)
        invariant
            i <= n == v.len(),
            strip_start(v@, pred_of(c)) == strip_start(v@.subrange(i as int, n as int), pred_of(c)),
        decreases n - i,
    {
        proof {
            lemma_strip_start_step(v@, i as int, pred_of(c));
        }
        i = i + 1;
    }
    i
}

/// The predicate selected by `c`: whitespace when `None`, else equality with the char.
pub open spec fn pred_of(c: Option<char>) -> spec_fn(char) -> bool {
    match c {
        None => ws(),
        Some(ch) => is_char(ch),
    }
}

fn matches_pred(x: char, c: Option<char>) -> (r: bool)
    ensures
        r == pred_of(c)(x),
{
    match c {
        None => is_whitespace(x),
        Some(ch) => x == ch,
    }
}

/// `v` stripped at both ends of the chars selected by `c`.
fn trim_by(v: &Vec<char>, c: Option<char>) -> (r: Vec<char>)
    ensures
        r@ == strip_end(strip_start(v@, pred_of(c)), pred_of(c)),
{
    let i = first_kept(v, c);
    let n = v.len();
    let mut j = n;
    while j > i && matches_pred(v[j - 1], c)
        invariant
            i <= j <= n == v.len(),
            strip_end(v@.subrange(i as int, n as int), pred_of(c)) == strip_end(
                v@.subrange(i as int, j as int),
                pred_of(c),
            ),
        decreases j,
    {
        proof {
            lemma_strip_end_step(v@, i as int, j as int, pred_of(c));
        }
        j = j - 1;
    }
    let r = slice_chars(v, i, j);
    proof {
        let s = v@.subrange(i as int, j as int);
        if s.len() > 0 {
            assert(s.last() == v@[j - 1]);
        }
    }
    r
}

/// `str::trim` on chars.
pub fn trim(v: &Vec<char>) -> (r: Vec<char>)
    ensures
        r@ == trim_spec(v@),
{
    trim_by(v, None)
}

/// `str::trim_matches(c)` on chars.
pub fn trim_matches(v: &Vec<char>, c: char) -> (r: Vec<char>)
    ensures
        r@ == trim_matches_spec(v@, c),
{
    trim_by(v, Some(c))
}

/// `str::trim_start` on chars.
pub fn trim_start(v: &Vec<char>) -> (r: Vec<char>)
    ensures
        r@ == trim_start_spec(v@),
{
    let i = first_kept(v, None);
    slice_chars(v, i, v.len())
}

// ---------------------------------------------------------------------------
// Splitting
// ---------------------------------------------------------------------------

/// `str::split(c)`: the pieces between occurrences of `c` (always at least one).
pub open spec fn split_on(s: Seq<char>, c: char) -> Seq<Seq<char>>
    decreases s.len(),
{
    if s.len() == 0 {
        seq![Seq::<char>::empty()]
    } else {
        let p = split_on(s.drop_last(), c);
        if s.last() == c {
            p.push(Seq::<char>::empty())
        } else {
            p.update(p.len() - 1, p.last().push(s.last()))
        }
    }
}

pub(crate) proof fn lemma_split_on_nonempty(s: Seq<char>, c: char)
    ensures
        split_on(s, c).len() >= 1,
    decreases s.len(),
{
    if s.len() > 0 {
        lemma_split_on_nonempty(s.drop_last(), c);
    }
}

/// A line piece that ended with `'\n'`: one trailing `'\r'` is dropped.
pub open spec fn strip_cr(s: Seq<char>) -> Seq<char> {
    if s.len() > 0 && s.last() == '\r' {
        s.drop_last()
    } else {
        s
    }
}

/// `str::lines`: split at `'\n'`, a `'\r'` before the `'\n'` dropped, no empty
/// last line after a final `'\n'` (and none at all for an empty text).
pub open spec fn lines_spec(s: Seq<char>) -> Seq<Seq<char>> {
    let p = split_on(s, '\n');
    let n = p.len();
    Seq::new(
        if p[n - 1].len() == 0 {
            (n - 1) as nat
        } else {
            n as nat
        },
        |k: int|
            if k < n - 1 {
                strip_cr(p[k])
            } else {
                p[k]
            },
    )
}

/// Views of a vector of char vectors.
pub open spec fn views(v: Seq<Vec<char>>) -> Seq<Seq<char>> {
    v.map_values(|x: Vec<char>| x@)
}

/// `str::lines` on chars.
pub fn lines(v: &Vec<char>) -> (r: Vec<Vec<char>>)
    ensures
        views(r@) == lines_spec(v@),
{
    let mut done: Vec<Vec<char>> = Vec::new();
    let mut cur: Vec<char> = Vec::new();
    let mut i: usize = 0;
    proof {
        assert(v@.take(0) =~= Seq::<char>::empty());
    }
    while i < v.len()
        invariant
            i <= v.len(),
            ({
                let p = split_on(v@.take(i as int), '\n');
                &&& p.len() >= 1
                &&& cur@ == p.last()
                &&& views(done@) =~= Seq::new((p.len() - 1) as nat, |k: int| strip_cr(p[k]))
            }),
        decreases v.len() - i,
    {
        let c = v[i];
        let ghost p = split_on(v@.take(i as int), '\n');
        let ghost old_done = views(done@);
        proof {
            assert(v@.take(i + 1).drop_last() =~= v@.take(i as int));
            assert(v@.take(i + 1).last() == c);
            lemma_split_on_nonempty(v@.take(i as int), '\n');
        }
        if c == '\n' {
            let ghost old_cur = cur@;
            let mut line = Vec::new();
            std::mem::swap(&mut line, &mut cur);
            if line.len() > 0 && line[line.len() - 1] == '\r' {
                line.pop();
                proof {
                    assert(line@ =~= old_cur.drop_last());
                }
            }
            assert(line@ == strip_cr(old_cur));
            done.push(line);
            proof {
                let q = split_on(v@.take(i + 1), '\n');
                assert(q == p.push(Seq::<char>::empty()));
                assert(views(done@) =~= old_done.push(strip_cr(old_cur)));
                assert(views(done@) =~= Seq::new((q.len() - 1) as nat, |k: int| strip_cr(q[k])));
                assert(cur@ =~= q.last());
            }
        } else {
            cur.push(c);
            proof {
                let q = split_on(v@.take(i + 1), '\n');
                assert(q == p.update(p.len() - 1, p.last().push(c)));
                assert(views(done@) =~= Seq::new((q.len() - 1) as nat, |k: int| strip_cr(q[k])));
            }
        }
        i = i + 1;
    }
    proof {
        assert(v@.take(v.len() as int) =~= v@);
    }
    let ghost p = split_on(v@, '\n');
    let ghost before = views(done@);
    if cur.len() > 0 {
        let ghost last = cur@;
        done.push(cur);
        proof {
            assert(views(done@) =~= before.push(last));
            assert(views(done@) =~= lines_spec(v@));
        }
    } else {
        proof {
            assert(views(done@) =~= lines_spec(v@));
        }
    }
    done
}

/// `str::split_whitespace`: the maximal runs of non-whitespace chars.
pub open spec fn words_spec(s: Seq<char>) -> Seq<Seq<char>>
    decreases s.len(),
{
    if s.len() == 0 {
        Seq::empty()
    } else {
        let w = words_spec(s.drop_last());
        let c = s.last();
        if spec_is_whitespace(c) {
            w
        } else if s.len() > 1 && !spec_is_whitespace(s[s.len() - 2]) {
            w.update(w.len() - 1, w.last().push(c))
        } else {
            w.push(seq![c])
        }
    }
}

/// Every word is non-empty, and a word is open at the end exactly when the
/// text ends with a non-whitespace char.
proof fn lemma_words_shape(s: Seq<char>)
    ensures
        forall|k: int| 0 <= k < words_spec(s).len() ==> #[trigger] words_spec(s)[k].len() > 0,
        s.len() > 0 && !spec_is_whitespace(s.last()) ==> words_spec(s).len() > 0,
    decreases s.len(),
{
    if s.len() > 0 {
        lemma_words_shape(s.drop_last());
        let w = words_spec(s.drop_last());
        if s.len() > 1 {
            assert(s.drop_last().last() == s[s.len() - 2]);
        }
    }
}

/// `str::split_whitespace` on chars.
pub fn split_whitespace(v: &Vec<char>) -> (r: Vec<Vec<char>>)
    ensures
        views(r@) == words_spec(v@),
{
    let mut out: Vec<Vec<char>> = Vec::new();
    let mut cur: Vec<char> = Vec::new();
    let mut in_word = false;
    let mut i: usize = 0;
    while i < v.len()
        invariant
            i <= v.len(),
            in_word == (i > 0 && !spec_is_whitespace(v@[i - 1])),
            in_word ==> views(out@).push(cur@) =~= words_spec(v@.take(i as int)),
            !in_word ==> views(out@) =~= words_spec(v@.take(i as int)),
        decreases v.len() - i,
    {
        let c = v[i];
        proof {
            assert(v@.take(i + 1).drop_last() =~= v@.take(i as int));
            if i > 0 {
                assert(v@.take(i + 1)[i - 1] == v@[i - 1]);
            }
        }
        if is_whitespace(c) {
            if in_word {
                let mut w = Vec::new();
                std::mem::swap(&mut w, &mut cur);
                out.push(w);
            }
            in_word = false;
        } else {
            if !in_word {
                cur = Vec::new();
            }
            cur.push(c);
            in_word = true;
        }
        i = i + 1;
    }
    proof {
        assert(v@.take(v.len() as int) =~= v@);
    }
    if in_word {
        out.push(cur);
    }
    out
}

/// `s` without any occurrence of `c` (`str::replace(c, "")`).
pub open spec fn remove_char_spec(s: Seq<char>, c: char) -> Seq<char>
    decreases s.len(),
{
    if s.len() == 0 {
        s
    } else {
        let r = remove_char_spec(s.drop_last(), c);
        if s.last() == c {
            r
        } else {
            r.push(s.last())
        }
    }
}

/// `str::replace(c, "")` on chars.
pub fn remove_char(v: &Vec<char>, c: char) -> (r: Vec<char>)
    ensures
        r@ == remove_char_spec(v@, c),
{
    let mut r: Vec<char> = Vec::new();
    let mut i: usize = 0;
    while i < v.len()
        invariant
            i <= v.len(),
            r@ == remove_char_spec(v@.take(i as int), c),
        decreases v.len() - i,
    {
        proof {
            assert(v@.take(i + 1).drop_last() =~= v@.take(i as int));
        }
        if v[i] != c {
            r.push(v[i]);
        }
        i = i + 1;
    }
    proof {
        assert(v@.take(v.len() as int) =~= v@);
    }
    r
}

/// Position of the first `"//"` in `s`, or `s.len()` when there is none.
pub open spec fn dslash_pos(s: Seq<char>) -> int
    decreases s.len(),
{
    if s.len() < 2 {
        s.len() as int
    } else if s[0] == '/' && s[1] == '/' {
        0
    } else {
        1 + dslash_pos(s.drop_first())
    }
}

/// `s.split("//").next()`: the text before the first `"//"`.
pub open spec fn before_dslash_spec(s: Seq<char>) -> Seq<char> {
    s.take(dslash_pos(s))
}

proof fn lemma_dslash_pos_range(s: Seq<char>)
    ensures
        0 <= dslash_pos(s) <= s.len(),
    decreases s.len(),
{
    if s.len() >= 2 {
        lemma_dslash_pos_range(s.drop_first());
    }
}

/// The text before the first `"//"` on chars.
pub fn before_dslash(v: &Vec<char>) -> (r: Vec<char>)
    ensures
        r@ == before_dslash_spec(v@),
{
    let n = v.len();
    let mut i: usize = 0;
    proof {
        assert(v@.subrange(0, n as int) =~= v@);
    }
    while i < n && i + 1 < n && !(v[i] == '/' && v[i + 1] == '/')
        invariant
            i <= n == v.len(),
            dslash_pos(v@) == i + dslash_pos(v@.subrange(i as int, n as int)),
        decreases n - i,
    {
        proof {
            assert(v@.subrange(i as int, n as int).drop_first() =~= v@.subrange(i + 1, n as int));
        }
        i = i + 1;
    }
    let end = if i < n && i + 1 < n {
        i
    } else {
        n
    };
    proof {
        lemma_dslash_pos_range(v@);
        if i + 1 >= n {
            assert(v@.subrange(i as int, n as int).len() < 2);
        }
    }
    slice_chars(v, 0, end)
}

// ---------------------------------------------------------------------------
// Integers
// ---------------------------------------------------------------------------

/// An ASCII decimal digit.
pub open spec fn is_digit(c: char) -> bool {
    '0' <= c && c <= '9'
}

/// Every char of `s` is an ASCII decimal digit.
pub open spec fn all_digits(s: Seq<char>) -> bool {
    forall|i: int| 0 <= i < s.len() ==> is_digit(#[trigger] s[i])
}


// ---------------------------------------------------------------------------
// The decimal float grammar
// ---------------------------------------------------------------------------

/// First position in `s` holding `a` or `b` (`s.len()` when none does).
pub open spec fn pos_of2(s: Seq<char>, a: char, b: char) -> int
    decreases s.len(),
{
    if s.len() == 0 {
        0
    } else if s[0] == a || s[0] == b {
        0
    } else {
        1 + pos_of2(s.drop_first(), a, b)
    }
}

/// `s` equals the lower-case ASCII word `w`, ignoring the case of ASCII letters.
pub open spec fn eq_ignore_ascii_case(s: Seq<char>, w: Seq<char>) -> bool {
    &&& s.len() == w.len()
    &&& forall|i: int|
        0 <= i < s.len() ==> (#[trigger] s[i] == w[i] || ('A' <= s[i] <= 'Z' && (s[i] as int) + 32
            == (w[i] as int)))
}

/// `s` without one leading `+` or `-`.
pub open spec fn unsigned_part(s: Seq<char>) -> Seq<char> {
    if s.len() > 0 && (s[0] == '+' || s[0] == '-') {
        s.drop_first()
    } else {
        s
    }
}

/// Digits, optionally with one `.`, with at least one digit.
pub open spec fn mantissa_ok(m: Seq<char>) -> bool {
    let d = pos_of2(m, '.', '.');
    if d >= m.len() {
        m.len() > 0 && all_digits(m)
    } else {
        all_digits(m.take(d)) && all_digits(m.skip(d + 1)) && m.len() >= 2
    }
}

/// Empty, or `e`/`E`, an optional sign and at least one digit.
pub open spec fn exponent_ok(x: Seq<char>) -> bool {
    x.len() == 0 || (x.len() >= 2 && unsigned_part(x.drop_first()).len() > 0 && all_digits(
        unsigned_part(x.drop_first()),
    ))
}

/// The texts that `f64`'s `FromStr` accepts, by the grammar its
/// documentation gives: an optional sign, then `inf`, `infinity` or `nan`
/// (in any case), or digits with at most one `.` and at least one digit,
/// followed by an optional exponent.
pub open spec fn float_grammar(s: Seq<char>) -> bool {
    let t = unsigned_part(s);
    let e = pos_of2(t, 'e', 'E');
    ||| eq_ignore_ascii_case(t, "inf"@)
    ||| eq_ignore_ascii_case(t, "infinity"@)
    ||| eq_ignore_ascii_case(t, "nan"@)
    ||| (mantissa_ok(t.take(e)) && exponent_ok(t.skip(e)))
}

proof fn lemma_pos_of2(s: Seq<char>, a: char, b: char)
    ensures
        0 <= pos_of2(s, a, b) <= s.len(),
        forall|i: int| 0 <= i < pos_of2(s, a, b) ==> #[trigger] s[i] != a && s[i] != b,
        pos_of2(s, a, b) < s.len() ==> (s[pos_of2(s, a, b)] == a || s[pos_of2(s, a, b)] == b),
    decreases s.len(),
{
    if s.len() > 0 && !(s[0] == a || s[0] == b) {
        lemma_pos_of2(s.drop_first(), a, b);
        assert forall|i: int| 0 <= i < pos_of2(s, a, b) implies #[trigger] s[i] != a && s[i] != b by {
            if i > 0 {
                assert(s[i] == s.drop_first()[i - 1]);
            }
        }
    }
}

proof fn lemma_pos_of2_is(s: Seq<char>, a: char, b: char, k: int)
    requires
        0 <= k <= s.len(),
        forall|i: int| 0 <= i < k ==> #[trigger] s[i] != a && s[i] != b,
        k < s.len() ==> (s[k] == a || s[k] == b),
    ensures
        pos_of2(s, a, b) == k,
    decreases s.len(),
{
    if s.len() > 0 && k > 0 {
        assert(s[0] != a && s[0] != b);
        assert forall|i: int| 0 <= i < k - 1 implies #[trigger] s.drop_first()[i] != a && s.drop_first()[i] != b by {
            assert(s.drop_first()[i] == s[i + 1]);
        }
        lemma_pos_of2_is(s.drop_first(), a, b, k - 1);
    }
}

fn find2(v: &Vec<char>, from: usize, to: usize, a: char, b: char) -> (r: usize)
    requires
        from <= to <= v.len(),
    ensures
        r - from == pos_of2(v@.subrange(from as int, to as int), a, b),
        from <= r <= to,
{
    let ghost s = v@.subrange(from as int, to as int);
    let mut k = from;
    while k < to && v[k] != a && v[k] != b
        invariant
            from <= k <= to <= v.len(),
            s == v@.subrange(from as int, to as int),
            forall|i: int| 0 <= i < k - from ==> #[trigger] s[i] != a && s[i] != b,
        decreases to - k,
    {
        assert(s[k - from] == v@[k as int]);
        k = k + 1;
    }
    proof {
        if k < to {
            assert(s[k - from] == v@[k as int]);
        }
        lemma_pos_of2_is(s, a, b, k - from);
    }
    k
}

fn digits_between(v: &Vec<char>, from: usize, to: usize) -> (r: bool)
    requires
        from <= to <= v.len(),
    ensures
        r == all_digits(v@.subrange(from as int, to as int)),
{
    let ghost s = v@.subrange(from as int, to as int);
    let mut k = from;
    while k < to
        invariant
            from <= k <= to <= v.len(),
            s == v@.subrange(from as int, to as int),
            forall|i: int| 0 <= i < k - from ==> is_digit(#[trigger] s[i]),
        decreases to - k,
    {
        assert(s[k - from] == v@[k as int]);
        if !('0' <= v[k] && v[k] <= '9') {
            return false;
        }
        k = k + 1;
    }
    true
}

fn word_ignore_case(v: &Vec<char>, from: usize, w: &str) -> (r: bool)
    requires
        from <= v.len(),
        w@.len() < 100,
        forall|i: int| 0 <= i < w@.len() ==> 'a' <= #[trigger] w@[i] <= 'z',
    ensures
        r == eq_ignore_ascii_case(v@.skip(from as int), w@),
{
    let ghost s = v@.skip(from as int);
    let n = w.unicode_len();
    if v.len() - from != n {
        return false;
    }
    let mut i: usize = 0;
    while i < n
        invariant
            n == w@.len(),
            n == s.len(),
            from + n == v.len(),
            s == v@.skip(from as int),
            i <= n,
            forall|j: int| 0 <= j < w@.len() ==> 'a' <= #[trigger] w@[j] <= 'z',
            forall|j: int|
                0 <= j < i ==> (#[trigger] s[j] == w@[j] || ('A' <= s[j] <= 'Z' && (s[j] as int) + 32
                    == (w@[j] as int))),
        decreases n - i,
    {
        let c = v[from + i];
        let d = w.get_char(i);
        assert(s[i as int] == c);
        if c != d {
            if !('A' <= c && c <= 'Z') {
                return false;
            }
            let cu = c as u32;
            let du = d as u32;
            if cu + 32 != du {
                return false;
            }
        }
        i = i + 1;
    }
    true
}

/// Whether `s` is a text that `f64`'s `FromStr` accepts (`float_grammar`).
pub fn float_text(s: &str) -> (r: bool)
    ensures
        r == float_grammar(s@),
{
    let v = chars_of(s);
    let n = v.len();
    let start: usize = if n > 0 && (v[0] == '+' || v[0] == '-') {
        1
    } else {
        0
    };
    let ghost t = unsigned_part(s@);
    proof {
        assert(t =~= v@.skip(start as int));
        assert(v@.subrange(start as int, n as int) =~= t);
        reveal_strlit("inf");
        reveal_strlit("infinity");
        reveal_strlit("nan");
    }
    if word_ignore_case(&v, start, "inf") || word_ignore_case(&v, start, "infinity") || word_ignore_case(
        &v,
        start,
        "nan",
    ) {
        return true;
    }
    let e = find2(&v, start, n, 'e', 'E');
    let d = find2(&v, start, e, '.', '.');
    proof {
        let el = e - start;
        lemma_pos_of2(t, 'e', 'E');
        assert(v@.subrange(start as int, e as int) =~= t.take(el));
        assert(v@.subrange(e as int, n as int) =~= t.skip(el));
    }
    let mant_ok = if d >= e {
        e > start && digits_between(&v, start, e)
    } else {
        proof {
            let m = t.take(e - start);
            assert(v@.subrange(start as int, d as int) =~= m.take(d - start));
            assert(v@.subrange(d + 1, e as int) =~= m.skip(d - start + 1));
        }
        digits_between(&v, start, d) && digits_between(&v, d + 1, e) && e - start >= 2
    };
    if !mant_ok {
        return false;
    }
    if e == n {
        return true;
    }
    if n - e < 2 {
        return false;
    }
    let ds: usize = if v[e + 1] == '+' || v[e + 1] == '-' {
        e + 2
    } else {
        e + 1
    };
    proof {
        let x = t.skip(e - start);
        assert(unsigned_part(x.drop_first()) =~= v@.subrange(ds as int, n as int));
    }
    ds < n && digits_between(&v, ds, n)
}

/// The decimal value of a digit string.
pub open spec fn digits_value(s: Seq<char>) -> int
    decreases s.len(),
{
    if s.len() == 0 {
        0
    } else {
        digits_value(s.drop_last()) * 10 + ((s.last() as int) - ('0' as int))
    }
}

/// What the integer `FromStr` of std reads from `s`, before the range check:
/// an optional `+` (or `-` when `signed`), then one or more ASCII digits.
pub open spec fn int_from_str(s: Seq<char>, signed: bool) -> Option<int> {
    if s.len() == 0 {
        None
    } else if (s[0] == '+' || s[0] == '-') && s.len() == 1 {
        None
    } else if s[0] == '+' {
        if all_digits(s.drop_first()) {
            Some(digits_value(s.drop_first()))
        } else {
            None
        }
    } else if s[0] == '-' && signed {
        if all_digits(s.drop_first()) {
            Some(-digits_value(s.drop_first()))
        } else {
            None
        }
    } else if all_digits(s) {
        Some(digits_value(s))
    } else {
        None
    }
}

/// `int_from_str` restricted to the range `lo..=hi` of the target type.
pub open spec fn int_in_range(s: Seq<char>, signed: bool, lo: int, hi: int) -> Option<int> {
    match int_from_str(s, signed) {
        Some(x) => if lo <= x <= hi {
            Some(x)
        } else {
            None
        },
        None => None,
    }
}

proof fn lemma_digits_value_nonneg(s: Seq<char>)
    requires
        all_digits(s),
    ensures
        digits_value(s) >= 0,
    decreases s.len(),
{
    if s.len() > 0 {
        assert(all_digits(s.drop_last())) by {
            assert forall|i: int| 0 <= i < s.drop_last().len() implies is_digit(
                #[trigger] s.drop_last()[i],
            ) by {
                assert(s.drop_last()[i] == s[i]);
            }
        }
        lemma_digits_value_nonneg(s.drop_last());
        assert(is_digit(s[s.len() - 1]));
    }
}

/// A digit string is worth at least as much as any of its prefixes.
proof fn lemma_digits_value_prefix(s: Seq<char>, k: int)
    requires
        all_digits(s),
        0 <= k <= s.len(),
    ensures
        digits_value(s.take(k)) <= digits_value(s),
    decreases s.len(),
{
    if k < s.len() {
        assert(all_digits(s.drop_last())) by {
            assert forall|i: int| 0 <= i < s.drop_last().len() implies is_digit(
                #[trigger] s.drop_last()[i],
            ) by {
                assert(s.drop_last()[i] == s[i]);
            }
        }
        lemma_digits_value_prefix(s.drop_last(), k);
        assert(s.drop_last().take(k) =~= s.take(k));
        lemma_digits_value_nonneg(s.drop_last());
        assert(is_digit(s[s.len() - 1]));
    } else {
        assert(s.take(k) =~= s);
    }
}

/// Reads an integer as std's `FromStr` does, for a target range `lo..=hi`.
fn parse_int(v: &Vec<char>, signed: bool, lo: i128, hi: i128) -> (r: Option<i128>)
    requires
        -0x1_0000_0000_0000_0000 <= lo <= 0 <= hi <= 0x1_0000_0000_0000_0000,
    ensures
        r matches Some(x) ==> int_in_range(v@, signed, lo as int, hi as int) == Some(x as int),
        r is None ==> int_in_range(v@, signed, lo as int, hi as int) is None,
{
    let n = v.len();
    if n == 0 {
        return None;
    }
    if (v[0] == '+' || v[0] == '-') && n == 1 {
        return None;
    }
    let negative = v[0] == '-' && signed;
    let start: usize = if v[0] == '+' || negative {
        1
    } else {
        0
    };
    let ghost ds = v@.subrange(start as int, n as int);
    proof {
        if start == 1 {
            assert(ds =~= v@.drop_first());
        } else {
            assert(ds =~= v@);
        }
        assert(int_from_str(v@, signed) == if all_digits(ds) {
            if negative {
                Some(-digits_value(ds))
            } else {
                Some(digits_value(ds))
            }
        } else {
            None::<int>
        });
    }
    let mut acc: i128 = 0;
    let mut i = start;
    while i < n
        invariant
            start <= i <= n == v.len(),
            ds == v@.subrange(start as int, n as int),
            -0x1_0000_0000_0000_0000 <= lo <= 0 <= hi <= 0x1_0000_0000_0000_0000,
            all_digits(ds.take(i - start)),
            int_from_str(v@, signed) == if all_digits(ds) {
                if negative {
                    Some(-digits_value(ds))
                } else {
                    Some(digits_value(ds))
                }
            } else {
                None::<int>
            },
            negative ==> acc == -digits_value(ds.take(i - start)),
            !negative ==> acc == digits_value(ds.take(i - start)),
            lo <= acc <= hi,
        decreases n - i,
    {
        let c = v[i];
        let ghost k = (i - start) as int;
        proof {
            assert(ds[k] == c);
            assert(ds.take(k + 1).drop_last() =~= ds.take(k));
            assert(ds.take(k + 1).last() == c);
        }
        if !('0' <= c && c <= '9') {
            proof {
                assert(!is_digit(ds[k]));
                assert(!all_digits(ds));
            }
            return None;
        }
        let d = (c as u32 - '0' as u32) as i128;
        let next = if negative {
            acc * 10 - d
        } else {
            acc * 10 + d
        };
        proof {
            assert(d == (c as int) - ('0' as int));
            assert(digits_value(ds.take(k + 1)) == digits_value(ds.take(k)) * 10 + d);
        }
        if next < lo || next > hi {
            proof {
                if all_digits(ds) {
                    lemma_digits_value_prefix(ds, k + 1);
                    assert(all_digits(ds.take(k + 1))) by {
                        assert forall|j: int| 0 <= j < ds.take(k + 1).len() implies is_digit(
                            #[trigger] ds.take(k + 1)[j],
                        ) by {
                            assert(ds.take(k + 1)[j] == ds[j]);
                        }
                    }
                    lemma_digits_value_nonneg(ds.take(k + 1));
                    if negative {
                        assert(next == -digits_value(ds.take(k + 1)));
                        assert(-digits_value(ds) < lo);
                    } else {
                        assert(next == digits_value(ds.take(k + 1)));
                        assert(digits_value(ds) > hi);
                    }
                }
            }
            return None;
        }
        acc = next;
        proof {
            assert(all_digits(ds.take(k + 1))) by {
                assert forall|j: int| 0 <= j < ds.take(k + 1).len() implies is_digit(
                    #[trigger] ds.take(k + 1)[j],
                ) by {
                    if j < k {
                        assert(ds.take(k + 1)[j] == ds.take(k)[j]);
                    }
                }
            }
        }
        i = i + 1;
    }
    proof {
        assert(ds.take(n - start) =~= ds);
    }
    Some(acc)
}

/// `str::parse::<i64>` on chars.
pub fn parse_i64(v: &Vec<char>) -> (r: Option<i64>)
    ensures
        r matches Some(x) ==> int_in_range(v@, true, i64::MIN as int, i64::MAX as int) == Some(
            x as int,
        ),
        r is None ==> int_in_range(v@, true, i64::MIN as int, i64::MAX as int) is None,
{
    match parse_int(v, true, i64::MIN as i128, i64::MAX as i128) {
        Some(x) => Some(x as i64),
        None => None,
    }
}

/// `str::parse::<i32>` on chars.
pub fn parse_i32(v: &Vec<char>) -> (r: Option<i32>)
    ensures
        r matches Some(x) ==> int_in_range(v@, true, i32::MIN as int, i32::MAX as int) == Some(
            x as int,
        ),
        r is None ==> int_in_range(v@, true, i32::MIN as int, i32::MAX as int) is None,
{
    match parse_int(v, true, i32::MIN as i128, i32::MAX as i128) {
        Some(x) => Some(x as i32),
        None => None,
    }
}

/// `str::parse::<u32>` on chars.
pub fn parse_u32(v: &Vec<char>) -> (r: Option<u32>)
    ensures
        r matches Some(x) ==> int_in_range(v@, false, 0, u32::MAX as int) == Some(x as int),
        r is None ==> int_in_range(v@, false, 0, u32::MAX as int) is None,
{
    match parse_int(v, false, 0, u32::MAX as i128) {
        Some(x) => Some(x as u32),
        None => None,
    }
}

/// Appends the chars of `w` to `v`.
pub fn extend_chars(v: &mut Vec<char>, w: &Vec<char>)
    ensures
        final(v)@ == old(v)@ + w@,
{
    let mut i: usize = 0;
    while i < w.len()
        invariant
            i <= w.len(),
            v@ == old(v)@ + w@.take(i as int),
        decreases w.len() - i,
    {
        v.push(w[i]);
        assert(w@.take(i + 1) =~= w@.take(i as int).push(w@[i as int]));
        i = i + 1;
    }
    assert(w@.take(w.len() as int) =~= w@);
}

/// `a` sorts before `b` or equals it, in `str` order: char by char, a
/// proper prefix first.
pub open spec fn text_le(a: Seq<char>, b: Seq<char>) -> bool
    decreases a.len(),
{
    if a.len() == 0 {
        true
    } else if b.len() == 0 {
        false
    } else if a[0] != b[0] {
        (a[0] as int) < (b[0] as int)
    } else {
        text_le(a.drop_first(), b.drop_first())
    }
}

/// Either of two texts sorts before or with the other.
pub proof fn lemma_text_le_total(a: Seq<char>, b: Seq<char>)
    ensures
        text_le(a, b) || text_le(b, a),
    decreases a.len(),
{
    if a.len() > 0 && b.len() > 0 && a[0] == b[0] {
        lemma_text_le_total(a.drop_first(), b.drop_first());
    }
}

/// The order of texts is transitive.
pub proof fn lemma_text_le_transitive(a: Seq<char>, b: Seq<char>, c: Seq<char>)
    requires
        text_le(a, b),
        text_le(b, c),
    ensures
        text_le(a, c),
    decreases a.len(),
{
    if a.len() > 0 && b.len() > 0 && c.len() > 0 && a[0] == b[0] && b[0] == c[0] {
        lemma_text_le_transitive(a.drop_first(), b.drop_first(), c.drop_first());
    }
}

/// Whether `a` sorts before `b` or equals it, in `str` order.
pub fn str_le(a: &str, b: &str) -> (r: bool)
    ensures
        r == text_le(a@, b@),
{
    let n = a.unicode_len();
    let m = b.unicode_len();
    let mut i: usize = 0;
    proof {
        assert(a@.skip(0) =~= a@);
        assert(b@.skip(0) =~= b@);
    }
    while i < n && i < m
        invariant
            n == a@.len(),
            m == b@.len(),
            i <= n,
            i <= m,
            text_le(a@, b@) == text_le(a@.skip(i as int), b@.skip(i as int)),
        decreases n - i,
    {
        let ca = a.get_char(i);
        let cb = b.get_char(i);
        proof {
            let x = a@.skip(i as int);
            let y = b@.skip(i as int);
            assert(x[0] == ca && y[0] == cb);
            assert(x.drop_first() =~= a@.skip(i + 1));
            assert(y.drop_first() =~= b@.skip(i + 1));
        }
        if ca != cb {
            return ca < cb;
        }
        i = i + 1;
    }
    proof {
        assert(a@.skip(i as int).len() == 0 || b@.skip(i as int).len() == 0);
    }
    i == n
}

} // verus!
