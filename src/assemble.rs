//! The whole run: source text to object text, and the object file's name.
use vstd::prelude::*;
use crate::error::AsmError;
use crate::pass1::{pass1, pass1_spec};
use crate::pass2::{pass2, pass2_spec, records_view};
use crate::symtab::SymbolTable;
use crate::tokenize::{tokenize, tokenize_spec};

verus! {

/// Records written one per line: a newline after each record but the last.
pub open spec fn join_records(recs: Seq<Seq<char>>) -> Seq<char>
    decreases recs.len(),
{
    if recs.len() == 0 {
        Seq::empty()
    } else if recs.len() == 1 {
        recs[0]
    } else {
        join_records(recs.drop_last()) + seq!['\n'] + recs.last()
    }
}

/// What assembling `src` gives: the object text, the symbol table and the
/// program length, or the first error.
pub open spec fn assemble_spec(src: Seq<char>) -> Result<(Seq<char>, Map<Seq<char>, u32>, u32), AsmError> {
    match tokenize_spec(src) {
        Err(e) => Err(e),
        Ok(p) => match pass1_spec(p) {
            Err(e) => Err(e),
            Ok((t, len)) => match pass2_spec(p, t, len) {
                Err(e) => Err(e),
                Ok((recs, measured)) => Ok((join_records(recs), t, measured)),
            },
        },
    }
}

/// The result of a run that succeeded.
pub struct Assembly {
    /// The object file's text: Header, Text and End records.
    pub object: Vec<char>,
    /// Each label with its address.
    pub symbols: SymbolTable,
    /// The program length that pass 2 measured.
    pub length: u32,
}

/// The records as object text (see `join_records`).
pub fn object_text(records: &Vec<Vec<char>>) -> (r: Vec<char>)
    ensures
        r@ == join_records(records_view(records@)),
{
    let ghost rv = records_view(records@);
    let mut r: Vec<char> = Vec::new();
    let mut i: usize = 0;
    while i < records.len()
        invariant
            rv == records_view(records@),
            i <= records@.len(),
            r@ == join_records(rv.take(i as int)),
        decreases records@.len() - i,
    {
        assert(rv.take(i + 1).drop_last() =~= rv.take(i as int));
        assert(rv.take(i + 1).last() == records@[i as int]@);
        if i > 0 {
            r.push('\n');
        }
        let mut piece = records[i].clone();
        r.append(&mut piece);
        proof {
            if i == 0 {
                assert(r@ =~= rv.take(1)[0]);
            } else {
                assert(r@ =~= join_records(rv.take(i as int)) + seq!['\n'] + rv.take(i + 1).last());
            }
        }
        i += 1;
    }
    assert(rv.take(i as int) =~= rv);
    r
}

/// Assembles source text `src` (see `assemble_spec`).
pub fn assemble(src: &[char]) -> (r: Result<Assembly, AsmError>)
    ensures
        match r {
            Ok(a) => a.symbols.wf() && assemble_spec(src@) == Ok::<
                (Seq<char>, Map<Seq<char>, u32>, u32),
                AsmError,
            >((a.object@, a.symbols@, a.length)),
            Err(e) => assemble_spec(src@) == Err::<(Seq<char>, Map<Seq<char>, u32>, u32), AsmError>(e),
        },
{
    let list = match tokenize(src) {
        Ok(l) => l,
        Err(e) => return Err(e),
    };
    let (symbols, len) = match pass1(&list) {
        Ok(v) => v,
        Err(e) => return Err(e),
    };
    let (records, length) = match pass2(&list, &symbols, len) {
        Ok(v) => v,
        Err(e) => return Err(e),
    };
    let object = object_text(&records);
    Ok(Assembly { object, symbols, length })
}

/// The part of `s` after its last `c`, or all of `s` where it has none.
pub open spec fn after_last(s: Seq<char>, c: char) -> Seq<char>
    decreases s.len(),
{
    if s.len() == 0 {
        s
    } else if s.last() == c {
        Seq::empty()
    } else {
        after_last(s.drop_last(), c).push(s.last())
    }
}

/// The part of `s` before its last `c`, where it has one.
pub open spec fn before_last(s: Seq<char>, c: char) -> Option<Seq<char>>
    decreases s.len(),
{
    if s.len() == 0 {
        None
    } else if s.last() == c {
        Some(s.drop_last())
    } else {
        before_last(s.drop_last(), c)
    }
}

/// The object file's name for source path `path`: the file name without
/// its directory and its extension, then `.obj`.
pub open spec fn obj_name_of(path: Seq<char>) -> Seq<char> {
    let base = after_last(path, '/');
    let stem = match before_last(base, '.') {
        Some(s) => s,
        None => base,
    };
    stem + seq!['.', 'o', 'b', 'j']
}

fn tail_after(s: &[char], c: char) -> (r: Vec<char>)
    ensures
        r@ == after_last(s@, c),
    decreases s@.len(),
{
    let n = s.len();
    if n == 0 {
        Vec::new()
    } else if s[n - 1] == c {
        Vec::new()
    } else {
        let head = vstd::slice::slice_subrange(s, 0, n - 1);
        assert(head@ =~= s@.drop_last());
        let mut r = tail_after(head, c);
        r.push(s[n - 1]);
        r
    }
}

fn head_before(s: &[char], c: char) -> (r: Option<Vec<char>>)
    ensures
        match r {
            Some(v) => before_last(s@, c) == Some(v@),
            None => before_last(s@, c) is None,
        },
    decreases s@.len(),
{
    let n = s.len();
    if n == 0 {
        None
    } else {
        let head = vstd::slice::slice_subrange(s, 0, n - 1);
        assert(head@ =~= s@.drop_last());
        if s[n - 1] == c {
            Some(vstd::slice::slice_to_vec(head))
        } else {
            head_before(head, c)
        }
    }
}

/// The object file's name for source path `file_name` (see `obj_name_of`).
pub fn file_to_obj_name(file_name: &[char]) -> (r: Vec<char>)
    ensures
        r@ == obj_name_of(file_name@),
{
    let base = tail_after(file_name, '/');
    let mut stem = match head_before(base.as_slice(), '.') {
        Some(s) => s,
        None => base,
    };
    let ghost sv = stem@;
    stem.push('.');
    stem.push('o');
    stem.push('b');
    stem.push('j');
    assert(stem@ =~= sv + seq!['.', 'o', 'b', 'j']);
    stem
}

} // verus!
