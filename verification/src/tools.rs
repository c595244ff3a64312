//! Small helpers of the command line tools: splitting a command line, and
//! the account records written to a list file.

use vstd::prelude::*;

use crate::text::{chars_of, slice_chars, string_of};

verus! {

/// Position of the first space (the length when there is none).
pub open spec fn first_space(s: Seq<char>) -> int
    decreases s.len(),
{
    if s.len() == 0 {
        0
    } else if s[0] == ' ' {
        0
    } else {
        1 + first_space(s.drop_first())
    }
}

proof fn lemma_first_space(s: Seq<char>)
    ensures
        0 <= first_space(s) <= s.len(),
        first_space(s) < s.len() ==> s[first_space(s)] == ' ',
        forall|i: int| 0 <= i < first_space(s) ==> s[i] != ' ',
    decreases s.len(),
{
    if s.len() > 0 && s[0] != ' ' {
        lemma_first_space(s.drop_first());
        assert forall|i: int| 0 <= i < first_space(s) implies s[i] != ' ' by {
            if i > 0 {
                assert(s[i] == s.drop_first()[i - 1]);
            }
        }
    }
}

/// Splits a command line at its first space: the command, and the rest
/// (empty when there is no space).
pub fn parse_line(line: &str) -> (r: (String, String))
    ensures
        r.0@ == line@.take(first_space(line@)),
        r.1@ == if first_space(line@) < line@.len() {
            line@.skip(first_space(line@) + 1)
        } else {
            Seq::empty()
        },
{
    let cs = chars_of(line);
    proof {
        lemma_first_space(line@);
    }
    let mut i: usize = 0;
    while i < cs.len() && cs[i] != ' '
        invariant
            cs@ == line@,
            i <= cs@.len(),
            forall|j: int| 0 <= j < i ==> cs@[j] != ' ',
            0 <= first_space(line@) <= line@.len(),
            first_space(line@) < line@.len() ==> line@[first_space(line@)] == ' ',
            forall|j: int| 0 <= j < first_space(line@) ==> line@[j] != ' ',
        decreases cs.len() - i,
    {
        i = i + 1;
    }
    proof {
        assert(i == first_space(line@));
    }
    let first = string_of(&slice_chars(&cs, 0, i));
    let rest = if i < cs.len() {
        string_of(&slice_chars(&cs, i + 1, cs.len()))
    } else {
        String::new()
    };
    proof {
        assert(line@.take(i as int) =~= line@.subrange(0, i as int));
        assert(line@.skip(i + 1) =~= line@.subrange(i + 1, line@.len() as int));
    }
    (first, rest)
}

/// An account record of a list file.
#[derive(Debug)]
pub struct ListAccount {
    pub id: String,
    pub name: String,
}

/// The account record with the given id and name.
pub fn create_account(id: &str, name: &str) -> (r: ListAccount)
    ensures
        r.id@ == id@,
        r.name@ == name@,
{
    ListAccount { id: id.to_string(), name: name.to_string() }
}

} // verus!
