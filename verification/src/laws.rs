//! Properties of the decoder that hold for every input, stated and
//! proved once.

use vstd::prelude::*;

use crate::model::has_key;
use crate::model::lemma_put_pos_bounds;
use crate::model::put_pos;
use crate::model::sorted_put;
use crate::model::spec_classify;
use crate::model::spec_correlate;
use crate::model::spec_load;
use crate::model::spec_sym_step;
use crate::model::LineRec;
use crate::model::SymModel;
use crate::model::Tables;

verus! {

/// Decoding is deterministic: the outcome — the three tables or the
/// error — is a function of the input bytes alone, so decoding the same
/// bytes twice yields identical tables.
pub proof fn lemma_load_deterministic(a: Seq<u8>, b: Seq<u8>)
    requires
        a == b,
    ensures
        spec_load(a) == spec_load(b),
{
}

/// Writing a key into a key-sorted table adds that key and no other:
/// the result holds exactly the old keys and the written one.
pub proof fn lemma_sorted_put_keys<V>(s: Seq<(u32, V)>, a: u32, v: V, k: u32)
    ensures
        has_key(sorted_put(s, a, v), k) <==> (k == a || has_key(s, k)),
{
    lemma_put_pos_bounds(s, a);
    let p = put_pos(s, a);
    let t = sorted_put(s, a, v);
    if has_key(t, k) {
        let i = choose|i: int| 0 <= i < t.len() && t[i].0 == k;
        if p < s.len() && s[p].0 == a {
            if i != p {
                assert(s[i].0 == k);
            }
        } else {
            if i < p {
                assert(s[i].0 == k);
            } else if i > p {
                assert(s[i - 1].0 == k);
            }
        }
    }
    if k == a {
        if p < s.len() && s[p].0 == a {
            assert(t[p].0 == k);
        } else {
            assert(t[p].0 == k);
        }
    } else if has_key(s, k) {
        let i = choose|i: int| 0 <= i < s.len() && s[i].0 == k;
        if p < s.len() && s[p].0 == a {
            assert(t[i].0 == k);
        } else {
            if i < p {
                assert(t[i].0 == k);
            } else {
                assert(t[i + 1].0 == k);
            }
        }
    }
}

/// A definition lands in exactly one table, decided by the type code
/// alone: `0x20` records the symbol's RVA among the functions and leaves
/// the globals untouched; any other code does the reverse.  Neither kind
/// touches the line table.
pub proof fn lemma_classify_disjoint(t: Tables, value: u32, typ: u16, nm: Seq<char>)
    ensures
        spec_classify(t, value, typ, nm).lines == t.lines,
        typ == 0x20 ==> spec_classify(t, value, typ, nm).globals == t.globals && has_key(
            spec_classify(t, value, typ, nm).functions,
            value,
        ),
        typ != 0x20 ==> spec_classify(t, value, typ, nm).functions == t.functions && has_key(
            spec_classify(t, value, typ, nm).globals,
            value,
        ),
{
    if typ == 0x20 {
        lemma_sorted_put_keys(t.functions, value, nm, value);
    } else {
        lemma_sorted_put_keys(t.globals, value, nm, value);
    }
}

/// Line correlation never records an address outside the symbol's
/// half-open range: every key the correlation adds to the line table is
/// at least `start` and strictly below `end` — the start is included,
/// the end excluded.
pub proof fn lemma_correlate_within_range(
    m: Seq<(u32, (Seq<char>, u32))>,
    lines: Seq<LineRec>,
    file: Seq<char>,
    start: u32,
    end: int,
    k: u32,
)
    requires
        has_key(spec_correlate(m, lines, file, start, end), k),
        !has_key(m, k),
    ensures
        start <= k && (k as int) < end,
    decreases lines.len(),
{
    if lines.len() == 0 {
    } else {
        let l = lines[0];
        if start <= l.addr && (l.addr as int) < end {
            let m1 = sorted_put(m, l.addr, (file, l.line as u32));
            lemma_sorted_put_keys(m, l.addr, (file, l.line as u32), k);
            if has_key(m1, k) {
                assert(k == l.addr || has_key(m, k));
            } else {
                lemma_correlate_within_range(m1, lines.skip(1), file, start, end, k);
            }
        } else {
            lemma_correlate_within_range(m, lines.skip(1), file, start, end, k);
        }
    }
}

/// A static symbol whose auxiliary blob is too short to carry a section
/// length — in particular one with no auxiliary records at all —
/// contributes no line mappings, even when a current file is active.
pub proof fn lemma_no_aux_no_lines(
    t: Tables,
    cur: Option<Seq<char>>,
    sym: SymModel,
    lines: Seq<LineRec>,
    table: Seq<u8>,
)
    requires
        sym.aux.len() < 4,
    ensures
        spec_sym_step(t, cur, sym, lines, table) matches Ok(step) ==> step.0.lines == t.lines,
{
}

} // verus!
