//! Properties that hold of every program the assembler accepts.
use vstd::prelude::*;
use crate::assemble::assemble_spec;
use crate::pass1::{advance, pass1_spec, run1, step1};
use crate::pass2::{
    flushed, header_record, initial, pass2_spec, run2, step2, Packer,
};
use crate::encode::RECORD_CAPACITY;
use crate::numbers::{hex_fixed, lemma_hex_fixed_len};
use crate::pass2::{end_record, entry_of, lemma_text_len, text_record};
use crate::source::{has_label_spec, is_end_line, start_of};

verus! {

/// Pass 2 moves its location counter exactly as pass 1 does.
proof fn lemma_step_loc(l: Seq<Seq<char>>, table: Map<Seq<char>, u32>, s: Packer)
    requires
        step2(l, table, s) is Ok,
    ensures
        advance(l, s.loc) is Ok,
        step2(l, table, s)->Ok_0.loc == advance(l, s.loc)->Ok_0,
        forall|k: int| 0 <= k < s.records.len() ==> step2(l, table, s)->Ok_0.records.len() >= s.records.len()
            && #[trigger] step2(l, table, s)->Ok_0.records[k] == s.records[k],
{
}

/// Both passes, run from line `i` with the same location counter, end with
/// the same location counter; pass 2 keeps the records it started with.
proof fn lemma_runs_agree(
    p: Seq<Seq<Seq<char>>>,
    i: int,
    t1: Map<Seq<char>, u32>,
    table: Map<Seq<char>, u32>,
    start: u32,
    s: Packer,
)
    requires
        i >= 1,
        run1(p, i, t1, s.loc) is Ok,
        run2(p, i, table, start, s) is Ok,
    ensures
        run1(p, i, t1, s.loc)->Ok_0.1 == run2(p, i, table, start, s)->Ok_0.1,
        run2(p, i, table, start, s)->Ok_0.0.len() >= s.records.len(),
        forall|k: int| 0 <= k < s.records.len() ==> #[trigger] run2(p, i, table, start, s)->Ok_0.0[k] == s.records[k],
    decreases p.len() - i,
{
    if i < p.len() && !is_end_line(p[i]) {
        let s2 = step2(p[i], table, s)->Ok_0;
        lemma_step_loc(p[i], table, s);
        let t2 = step1(p[i], t1, s.loc)->Ok_0.0;
        lemma_runs_agree(p, i + 1, t2, table, start, s2);
        assert forall|k: int| 0 <= k < s.records.len() implies #[trigger] run2(p, i, table, start, s)->Ok_0.0[k]
            == s.records[k] by {
            assert(s2.records[k] == s.records[k]);
        }
    }
}

/// Where both passes succeed, the first record is the Header record, and the
/// program length it declares is the span that pass 2 walks.
pub proof fn law_header_length_is_span(p: Seq<Seq<Seq<char>>>)
    requires
        pass1_spec(p) is Ok,
        pass2_spec(p, pass1_spec(p)->Ok_0.0, pass1_spec(p)->Ok_0.1) is Ok,
    ensures
        ({
            let (table, len) = pass1_spec(p)->Ok_0;
            let (recs, measured) = pass2_spec(p, table, len)->Ok_0;
            let (name, start) = start_of(p[0])->Ok_0;
            &&& measured == len
            &&& recs.len() >= 1
            &&& recs[0] == header_record(name, start, len)
        }),
{
    let (table, len) = pass1_spec(p)->Ok_0;
    let (name, start) = start_of(p[0])->Ok_0;
    let s = initial(name, start, len);
    lemma_runs_agree(p, 1, Map::empty(), table, start, s);
    assert(s.records[0] == header_record(name, start, len));
}

/// Assembling is a function of the source text: two runs on the same text
/// give the same object text, symbol table and length, or the same error.
pub proof fn law_assembly_is_deterministic(a: Seq<char>, b: Seq<char>)
    requires
        a == b,
    ensures
        assemble_spec(a) == assemble_spec(b),
{
}

/// A Text record as written: `T`, six address digits, two count digits that
/// give half the length of the hex text after them, and a non-empty hex
/// text of at most `RECORD_CAPACITY` bytes.
pub open spec fn well_formed_text_record(r: Seq<char>) -> bool {
    &&& r.len() > 9
    &&& r[0] == 'T'
    &&& (r.len() - 9) % 2 == 0
    &&& (r.len() - 9) / 2 <= RECORD_CAPACITY
    &&& r.subrange(7, 9) == hex_fixed(((r.len() - 9) / 2) as nat, 2)
}

/// What pass 2 keeps true between lines: the pending text is whole bytes
/// within one record's capacity, and spans the addresses from its start
/// unless a reservation has cut it off; every record after the Header is a
/// well-formed Text record.
pub open spec fn packer_ok(s: Packer) -> bool {
    &&& s.tstart <= s.loc
    &&& s.records.len() >= 1
    &&& s.buf.len() % 2 == 0
    &&& s.buf.len() <= 2 * RECORD_CAPACITY
    &&& (s.force_new || s.buf.len() == 2 * (s.loc - s.tstart))
    &&& forall|k: int| 1 <= k < s.records.len() ==> well_formed_text_record(#[trigger] s.records[k])
}

proof fn lemma_text_record_wf(a: int, t: Seq<char>)
    requires
        t.len() % 2 == 0,
        0 < t.len() <= 2 * RECORD_CAPACITY,
    ensures
        well_formed_text_record(text_record(a, t)),
{
    lemma_hex_fixed_len(a as nat, 6);
    lemma_hex_fixed_len((t.len() / 2) as nat, 2);
    let r = text_record(a, t);
    assert(r.len() == t.len() + 9);
    assert(r.subrange(7, 9) =~= hex_fixed((t.len() / 2) as nat, 2));
}

proof fn lemma_flushed_ok(s: Packer)
    requires
        packer_ok(s),
    ensures
        forall|k: int| 1 <= k < flushed(s).len() ==> well_formed_text_record(#[trigger] flushed(s)[k]),
{
    if s.buf.len() > 0 {
        lemma_text_record_wf(s.tstart, s.buf);
        assert forall|k: int| 1 <= k < flushed(s).len() implies well_formed_text_record(
            #[trigger] flushed(s)[k],
        ) by {
            if k < s.records.len() {
                assert(flushed(s)[k] == s.records[k]);
            }
        }
    }
}

proof fn lemma_step_ok(l: Seq<Seq<char>>, table: Map<Seq<char>, u32>, s: Packer)
    requires
        packer_ok(s),
        step2(l, table, s) is Ok,
    ensures
        packer_ok(step2(l, table, s)->Ok_0),
{
    lemma_text_len(l, table, s.loc);
    lemma_flushed_ok(s);
    let s2 = step2(l, table, s)->Ok_0;
    assert forall|k: int| 1 <= k < s2.records.len() implies well_formed_text_record(#[trigger] s2.records[k]) by {
        if s2.records == s.records {
            assert(well_formed_text_record(s.records[k]));
        } else {
            assert(s2.records == flushed(s));
        }
    }
}

proof fn lemma_run2_records(
    p: Seq<Seq<Seq<char>>>,
    i: int,
    table: Map<Seq<char>, u32>,
    start: u32,
    s: Packer,
)
    requires
        packer_ok(s),
        run2(p, i, table, start, s) is Ok,
    ensures
        ({
            let recs = run2(p, i, table, start, s)->Ok_0.0;
            &&& recs.len() >= 2
            &&& forall|k: int| 1 <= k < recs.len() - 1 ==> well_formed_text_record(#[trigger] recs[k])
            &&& exists|a: u32| recs.last() == end_record(a)
        }),
    decreases p.len() - i,
{
    if is_end_line(p[i]) {
        lemma_flushed_ok(s);
        let a = entry_of(p[i], table, start)->Ok_0;
        let recs = flushed(s).push(end_record(a));
        assert forall|k: int| 1 <= k < recs.len() - 1 implies well_formed_text_record(#[trigger] recs[k]) by {
            assert(recs[k] == flushed(s)[k]);
        }
        assert(recs.last() == end_record(a));
    } else {
        lemma_step_ok(p[i], table, s);
        lemma_run2_records(p, i + 1, table, start, step2(p[i], table, s)->Ok_0);
    }
}

/// Every record of a successful pass 2 between the Header record and the
/// End record is a Text record whose declared byte count is half the length
/// of its hex text and at most `RECORD_CAPACITY`; the last record is the End
/// record.
pub proof fn law_text_records_well_formed(p: Seq<Seq<Seq<char>>>, table: Map<Seq<char>, u32>, len: u32)
    requires
        pass2_spec(p, table, len) is Ok,
    ensures
        ({
            let recs = pass2_spec(p, table, len)->Ok_0.0;
            &&& recs.len() >= 2
            &&& forall|k: int| 1 <= k < recs.len() - 1 ==> well_formed_text_record(#[trigger] recs[k])
            &&& exists|a: u32| recs.last() == end_record(a)
        }),
{
    let (name, start) = start_of(p[0])->Ok_0;
    let s = initial(name, start, len);
    lemma_run2_records(p, 1, table, start, s);
}

/// The location counter at line `k`, walking from line `i` at `loc` as
/// pass 1 does.
pub open spec fn loc_before(p: Seq<Seq<Seq<char>>>, i: int, loc: int, k: int) -> int
    decreases k - i,
{
    if i >= k || i < 0 || i >= p.len() {
        loc
    } else {
        match advance(p[i], loc) {
            Ok(n) => loc_before(p, i + 1, n, k),
            Err(_) => loc,
        }
    }
}

/// The state in which pass 2 reaches line `k`, from line `i` in state `s`.
pub open spec fn packer_before(
    p: Seq<Seq<Seq<char>>>,
    i: int,
    table: Map<Seq<char>, u32>,
    s: Packer,
    k: int,
) -> Packer
    decreases k - i,
{
    if i >= k || i < 0 || i >= p.len() {
        s
    } else {
        match step2(p[i], table, s) {
            Ok(s2) => packer_before(p, i + 1, table, s2, k),
            Err(_) => s,
        }
    }
}

/// No line from `i` to `k` is the `END` line.
pub open spec fn no_end_between(p: Seq<Seq<Seq<char>>>, i: int, k: int) -> bool {
    forall|j: int| i <= j <= k ==> !is_end_line(#[trigger] p[j])
}

/// Pass 1 never changes a label once defined.
proof fn lemma_run1_keeps(p: Seq<Seq<Seq<char>>>, i: int, t: Map<Seq<char>, u32>, loc: int)
    requires
        run1(p, i, t, loc) is Ok,
    ensures
        forall|x: Seq<char>| #[trigger] t.contains_key(x) ==> run1(p, i, t, loc)->Ok_0.0.contains_key(x)
            && run1(p, i, t, loc)->Ok_0.0[x] == t[x],
    decreases p.len() - i,
{
    if !(i < 1 || i >= p.len() || is_end_line(p[i])) {
        let (t2, next) = step1(p[i], t, loc)->Ok_0;
        lemma_run1_keeps(p, i + 1, t2, next);
        let r = run1(p, i, t, loc)->Ok_0.0;
        assert forall|x: Seq<char>| #[trigger] t.contains_key(x) implies r.contains_key(x) && r[x]
            == t[x] by {
            if has_label_spec(p[i]) {
                assert(x != p[i][0]);
            }
            assert(t2.contains_key(x) && t2[x] == t[x]);
        }
    }
}

/// Pass 1 defines the label of line `k` at `loc_before` of that line.
proof fn lemma_run1_label(p: Seq<Seq<Seq<char>>>, i: int, t: Map<Seq<char>, u32>, loc: int, k: int)
    requires
        1 <= i <= k < p.len(),
        no_end_between(p, i, k),
        has_label_spec(p[k]),
        run1(p, i, t, loc) is Ok,
    ensures
        run1(p, i, t, loc)->Ok_0.0.contains_key(p[k][0]),
        run1(p, i, t, loc)->Ok_0.0[p[k][0]] == loc_before(p, i, loc, k) as u32,
    decreases k - i,
{
    assert(!is_end_line(p[i]));
    let (t2, next) = step1(p[i], t, loc)->Ok_0;
    assert(advance(p[i], loc) == Ok::<int, crate::error::AsmError>(next));
    if i == k {
        lemma_run1_keeps(p, i + 1, t2, next);
        assert(t2.contains_key(p[k][0]));
    } else {
        lemma_run1_label(p, i + 1, t2, next, k);
    }
}

/// Pass 2 reaches line `k` with the location counter that pass 1 had there.
proof fn lemma_run2_loc(
    p: Seq<Seq<Seq<char>>>,
    i: int,
    table: Map<Seq<char>, u32>,
    start: u32,
    s: Packer,
    k: int,
)
    requires
        1 <= i <= k < p.len(),
        no_end_between(p, i, k),
        run2(p, i, table, start, s) is Ok,
    ensures
        packer_before(p, i, table, s, k).loc == loc_before(p, i, s.loc, k),
    decreases k - i,
{
    if i < k {
        assert(!is_end_line(p[i]));
        lemma_step_loc(p[i], table, s);
        lemma_run2_loc(p, i + 1, table, start, step2(p[i], table, s)->Ok_0, k);
    }
}

/// Where both passes succeed, the address pass 1 gives the label of a line
/// before `END` is the location counter at which pass 2 encodes that line,
/// and pass 2 resolves the label to that same address.
pub proof fn law_labels_agree_between_passes(p: Seq<Seq<Seq<char>>>, k: int)
    requires
        pass1_spec(p) is Ok,
        pass2_spec(p, pass1_spec(p)->Ok_0.0, pass1_spec(p)->Ok_0.1) is Ok,
        1 <= k < p.len(),
        no_end_between(p, 1, k),
        has_label_spec(p[k]),
    ensures
        ({
            let (table, len) = pass1_spec(p)->Ok_0;
            let (name, start) = start_of(p[0])->Ok_0;
            let at_k = packer_before(p, 1, table, initial(name, start, len), k);
            &&& table.contains_key(p[k][0])
            &&& table[p[k][0]] == loc_before(p, 1, start as int, k)
            &&& at_k.loc == table[p[k][0]]
        }),
{
    let (table, len) = pass1_spec(p)->Ok_0;
    let (name, start) = start_of(p[0])->Ok_0;
    let s = initial(name, start, len);
    lemma_run1_label(p, 1, Map::empty(), start as int, k);
    lemma_run2_loc(p, 1, table, start, s, k);
    lemma_loc_before_bounded(p, 1, start as int, k);
}

/// Along pass 1's walk the location counter stays within six hex digits.
proof fn lemma_loc_before_bounded(p: Seq<Seq<Seq<char>>>, i: int, loc: int, k: int)
    requires
        0 <= loc <= crate::numbers::WORD_LIMIT,
    ensures
        0 <= loc_before(p, i, loc, k) <= crate::numbers::WORD_LIMIT,
    decreases k - i,
{
    if !(i >= k || i < 0 || i >= p.len()) {
        if let Ok(n) = advance(p[i], loc) {
            lemma_loc_before_bounded(p, i + 1, n, k);
        }
    }
}

/// The errors that pass 2 can meet on lines that pass 1 accepted.
pub open spec fn pass2_only_error(e: crate::error::AsmError) -> bool {
    ||| e == crate::error::AsmError::UndefinedSymbol
    ||| e == crate::error::AsmError::BadNumber
    ||| e == crate::error::AsmError::OutOfRange
    ||| e == crate::error::AsmError::MissingEnd
}

proof fn lemma_run2_errors(
    p: Seq<Seq<Seq<char>>>,
    i: int,
    t1: Map<Seq<char>, u32>,
    table: Map<Seq<char>, u32>,
    start: u32,
    s: Packer,
)
    requires
        i >= 1,
        run1(p, i, t1, s.loc) is Ok,
        run2(p, i, table, start, s) is Err,
    ensures
        pass2_only_error(run2(p, i, table, start, s)->Err_0),
    decreases p.len() - i,
{
    if i < p.len() && !is_end_line(p[i]) {
        let (t2, next) = step1(p[i], t1, s.loc)->Ok_0;
        assert(advance(p[i], s.loc) == Ok::<int, crate::error::AsmError>(next));
        if let Ok(s2) = step2(p[i], table, s) {
            lemma_step_loc(p[i], table, s);
            lemma_run2_errors(p, i + 1, t2, table, start, s2);
        }
    }
}

/// Once pass 1 has accepted a program (no duplicate label, every opcode
/// known, every reservation and constant well formed), pass 2 fails only
/// where an operand names no label, a `WORD` operand is not a number, an
/// encoded word needs more than six hex digits, or the `END` line is
/// missing.
pub proof fn law_pass2_fails_only_on_operands(p: Seq<Seq<Seq<char>>>)
    requires
        pass1_spec(p) is Ok,
        pass2_spec(p, pass1_spec(p)->Ok_0.0, pass1_spec(p)->Ok_0.1) is Err,
    ensures
        pass2_only_error(pass2_spec(p, pass1_spec(p)->Ok_0.0, pass1_spec(p)->Ok_0.1)->Err_0),
{
    let (table, len) = pass1_spec(p)->Ok_0;
    let (name, start) = start_of(p[0])->Ok_0;
    lemma_run2_errors(p, 1, Map::empty(), table, start, initial(name, start, len));
}

} // verus!
