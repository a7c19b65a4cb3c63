//! Splitting source text into lines, and lines into whitespace-delimited
//! tokens; comment lines are dropped.
use vstd::prelude::*;
use crate::error::AsmError;
use crate::source::program_view;

verus! {

/// A character that separates tokens within a line.
pub open spec fn is_blank(c: char) -> bool {
    c == ' ' || c == '\t' || c == '\r' || c == '\x0B' || c == '\x0C'
}

/// The pieces of `s` from position `i` on, split at `sep`: `cur` is the piece
/// being read and `acc` the pieces before it; with `keep_empty`, empty
/// pieces between two separators are kept. A last empty piece never is.
pub open spec fn split_from(
    s: Seq<char>,
    i: int,
    keep_empty: bool,
    cur: Seq<char>,
    acc: Seq<Seq<char>>,
) -> Seq<Seq<char>>
    decreases s.len() - i,
{
    if i < 0 || i >= s.len() {
        if cur.len() > 0 {
            acc.push(cur)
        } else {
            acc
        }
    } else if (keep_empty && s[i] == '\n') || (!keep_empty && is_blank(s[i])) {
        split_from(
            s,
            i + 1,
            keep_empty,
            Seq::empty(),
            if keep_empty || cur.len() > 0 {
                acc.push(cur)
            } else {
                acc
            },
        )
    } else {
        split_from(s, i + 1, keep_empty, cur.push(s[i]), acc)
    }
}

/// The lines of source text: the pieces between newlines, with no empty
/// piece after a final newline.
pub open spec fn lines_of(src: Seq<char>) -> Seq<Seq<char>> {
    split_from(src, 0, true, Seq::empty(), Seq::empty())
}

/// The tokens of a line: its maximal runs of non-blank characters.
pub open spec fn tokens_of(line: Seq<char>) -> Seq<Seq<char>> {
    split_from(line, 0, false, Seq::empty(), Seq::empty())
}

/// The token lines of `lines` from `i` on, appended to `acc`: a line that
/// starts with `.` is a comment and dropped; an empty line, or one with no
/// token, is malformed.
pub open spec fn token_lines_from(lines: Seq<Seq<char>>, i: int, acc: Seq<Seq<Seq<char>>>) -> Result<
    Seq<Seq<Seq<char>>>,
    AsmError,
>
    decreases lines.len() - i,
{
    if i < 0 || i >= lines.len() {
        Ok(acc)
    } else if lines[i].len() == 0 {
        Err(AsmError::MalformedLine)
    } else if lines[i][0] == '.' {
        token_lines_from(lines, i + 1, acc)
    } else if tokens_of(lines[i]).len() == 0 {
        Err(AsmError::MalformedLine)
    } else {
        token_lines_from(lines, i + 1, acc.push(tokens_of(lines[i])))
    }
}

/// The token lines of source text `src`.
pub open spec fn tokenize_spec(src: Seq<char>) -> Result<Seq<Seq<Seq<char>>>, AsmError> {
    token_lines_from(lines_of(src), 0, Seq::empty())
}

fn blank(c: char) -> (r: bool)
    ensures
        r == is_blank(c),
{
    c == ' ' || c == '\t' || c == '\r' || c == '\x0B' || c == '\x0C'
}

/// The pieces of `s` split as `split_from` says.
fn split(s: &[char], keep_empty: bool) -> (r: Vec<Vec<char>>)
    ensures
        r@.map_values(|v: Vec<char>| v@) == split_from(s@, 0, keep_empty, Seq::empty(), Seq::empty()),
{
    let mut acc: Vec<Vec<char>> = Vec::new();
    let mut cur: Vec<char> = Vec::new();
    let mut i: usize = 0;
    assert(acc@.map_values(|v: Vec<char>| v@) =~= Seq::<Seq<char>>::empty());
    assert(cur@ =~= Seq::<char>::empty());
    while i < s.len()
        invariant
            i <= s@.len(),
            split_from(s@, i as int, keep_empty, cur@, acc@.map_values(|v: Vec<char>| v@))
                == split_from(s@, 0, keep_empty, Seq::empty(), Seq::empty()),
        decreases s@.len() - i,
    {
        let c = s[i];
        let ghost av = acc@.map_values(|v: Vec<char>| v@);
        let ghost cv = cur@;
        if (keep_empty && c == '\n') || (!keep_empty && blank(c)) {
            if keep_empty || cur.len() > 0 {
                let piece = cur;
                acc.push(piece);
                assert(acc@.map_values(|v: Vec<char>| v@) =~= av.push(cv));
            }
            cur = Vec::new();
            assert(cur@ =~= Seq::<char>::empty());
        } else {
            cur.push(c);
        }
        i += 1;
    }
    if cur.len() > 0 {
        let ghost av = acc@.map_values(|v: Vec<char>| v@);
        let ghost cv = cur@;
        acc.push(cur);
        assert(acc@.map_values(|v: Vec<char>| v@) =~= av.push(cv));
    }
    acc
}

/// The token lines of source text `src` (see `tokenize_spec`).
pub fn tokenize(src: &[char]) -> (r: Result<Vec<Vec<Vec<char>>>, AsmError>)
    ensures
        match r {
            Ok(list) => tokenize_spec(src@) == Ok::<Seq<Seq<Seq<char>>>, AsmError>(program_view(list@)),
            Err(e) => tokenize_spec(src@) == Err::<Seq<Seq<Seq<char>>>, AsmError>(e),
        },
{
    let lines = split(src, true);
    let ghost ls = lines@.map_values(|v: Vec<char>| v@);
    let mut list: Vec<Vec<Vec<char>>> = Vec::new();
    let mut i: usize = 0;
    assert(program_view(list@) =~= Seq::<Seq<Seq<char>>>::empty());
    while i < lines.len()
        invariant
            ls == lines@.map_values(|v: Vec<char>| v@),
            ls == lines_of(src@),
            i <= lines@.len(),
            token_lines_from(ls, i as int, program_view(list@)) == tokenize_spec(src@),
        decreases lines@.len() - i,
    {
        let line = &lines[i];
        assert(ls[i as int] == line@);
        if line.len() == 0 {
            return Err(AsmError::MalformedLine);
        }
        if line[0] != '.' {
            let tokens = split(line.as_slice(), false);
            if tokens.len() == 0 {
                return Err(AsmError::MalformedLine);
            }
            let ghost pv = program_view(list@);
            list.push(tokens);
            assert(program_view(list@) =~= pv.push(tokens_of(line@)));
        }
        i += 1;
    }
    Ok(list)
}

} // verus!
