//! The token stream that the parser reads: identifiers, punctuation,
//! literals as written, and the two ends of each delimited group.
use vstd::prelude::*;

verus! {

/// The delimiter of a group.
#[derive(Clone, Copy, Debug, PartialEq, Eq, Structural)]
pub enum Delimiter {
    Parenthesis,
    Brace,
    Bracket,
}

/// One token. A group is written as its opening token, its contents and
/// its closing token. A punctuation character is joint when the next
/// character belongs to the same operator (the `=` of `=>`).
#[derive(Clone, Debug, PartialEq, Eq)]
pub enum Token {
    Ident(String),
    Punct(char, bool),
    Literal(String),
    Open(Delimiter),
    Close(Delimiter),
}

/// Whether token `i`, before `end`, is the punctuation character `c`.
pub open spec fn is_punct(t: Seq<Token>, i: int, end: int, c: char) -> bool {
    0 <= i < end && (t[i] matches Token::Punct(ch, _) && ch == c)
}

/// Whether token `i`, before `end`, is `c` joined to the next character.
pub open spec fn is_joint_punct(t: Seq<Token>, i: int, end: int, c: char) -> bool {
    0 <= i < end && (t[i] matches Token::Punct(ch, joint) && ch == c && joint)
}

/// Whether token `i`, before `end`, opens a group with delimiter `d`.
pub open spec fn is_open(t: Seq<Token>, i: int, end: int, d: Delimiter) -> bool {
    0 <= i < end && t[i] == Token::Open(d)
}

/// The index of the token that closes the group around `j`, where
/// `depth` groups are open at `j`, searching before `end`.
pub open spec fn close_from(t: Seq<Token>, j: int, end: int, depth: nat) -> Option<int>
    decreases end - j,
{
    if j < 0 || j >= end || depth == 0 {
        None
    } else {
        match t[j] {
            Token::Open(_) => close_from(t, j + 1, end, depth + 1),
            Token::Close(_) => if depth == 1 {
                Some(j)
            } else {
                close_from(t, j + 1, end, (depth - 1) as nat)
            },
            _ => close_from(t, j + 1, end, depth),
        }
    }
}

/// Whether token `i`, before `end`, is the punctuation character `c`.
pub fn punct_at(t: &Vec<Token>, i: usize, end: usize, c: char) -> (r: bool)
    requires
        end <= t@.len(),
    ensures
        r == is_punct(t@, i as int, end as int, c),
{
    if i < end {
        match &t[i] {
            Token::Punct(ch, _) => *ch == c,
            _ => false,
        }
    } else {
        false
    }
}

/// Whether token `i`, before `end`, is `c` joined to the next character.
pub fn joint_punct_at(t: &Vec<Token>, i: usize, end: usize, c: char) -> (r: bool)
    requires
        end <= t@.len(),
    ensures
        r == is_joint_punct(t@, i as int, end as int, c),
{
    if i < end {
        match &t[i] {
            Token::Punct(ch, joint) => *ch == c && *joint,
            _ => false,
        }
    } else {
        false
    }
}

/// Whether token `i`, before `end`, opens a group with delimiter `d`.
pub fn open_at(t: &Vec<Token>, i: usize, end: usize, d: Delimiter) -> (r: bool)
    requires
        end <= t@.len(),
    ensures
        r == is_open(t@, i as int, end as int, d),
{
    if i < end {
        match &t[i] {
            Token::Open(o) => *o == d,
            _ => false,
        }
    } else {
        false
    }
}

/// The index of the token before `end` that closes the group opened at
/// `open`.
pub fn group_close(t: &Vec<Token>, open: usize, end: usize) -> (r: Option<usize>)
    requires
        open < end <= t@.len(),
    ensures
        match r {
            Some(c) => close_from(t@, open + 1, end as int, 1) == Some(c as int) && open < c < end,
            None => close_from(t@, open + 1, end as int, 1) is None,
        },
{
    let mut j: usize = open + 1;
    let mut depth: usize = 1;
    while j < end
        invariant
            open < j <= end,
            end <= t@.len(),
            1 <= depth <= j - open,
            close_from(t@, open + 1, end as int, 1) == close_from(t@, j as int, end as int, depth as nat),
        decreases end - j,
    {
        match &t[j] {
            Token::Open(_) => {
                depth = depth + 1;
            },
            Token::Close(_) => {
                if depth == 1 {
                    return Some(j);
                }
                depth = depth - 1;
            },
            _ => {},
        }
        j = j + 1;
    }
    None
}

} // verus!
