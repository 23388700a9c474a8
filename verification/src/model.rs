//! The mathematical model of the decoder.
//!
//! Every executable decoding function is proved equal to a spec function
//! in this module.  The model reads the same fields at the same positions
//! as the executable code, reports the same errors, and builds the three
//! result tables as strictly key-sorted sequences of pairs, where a later
//! write to an existing key replaces the earlier value.

use vstd::prelude::*;
use vstd::utf8::decode_utf8;
use vstd::utf8::valid_utf8;

use crate::bytes::has;
use crate::bytes::le16;
use crate::bytes::le32;
use crate::bytes::spec_skip;
use crate::errors::GhostErr;
use crate::text::lossy_of;

verus! {

/// One record of the COFF line-number table: an RVA and a source line.
#[derive(Clone, Copy, Debug, PartialEq, Eq, Structural)]
pub struct LineRec {
    pub addr: u32,
    pub line: u16,
}

/// Ghost form of one COFF symbol record together with its auxiliary blob.
pub struct SymModel {
    /// The raw 8-byte name field.
    pub name: Seq<u8>,
    /// The symbol's value, read as an RVA.
    pub value: u32,
    /// The type code; `0x20` marks a function.
    pub typ: u16,
    /// The storage class.
    pub class: u8,
    /// The auxiliary records that follow, `18` bytes each.
    pub aux: Seq<u8>,
}

/// The three result tables, each a sequence of pairs strictly sorted by
/// its RVA key.
pub struct Tables {
    /// RVA to function name.
    pub functions: Seq<(u32, Seq<char>)>,
    /// RVA to global name.
    pub globals: Seq<(u32, Seq<char>)>,
    /// RVA to source file and line number.
    pub lines: Seq<(u32, (Seq<char>, u32))>,
}

impl Tables {
    pub open spec fn empty() -> Tables {
        Tables { functions: Seq::empty(), globals: Seq::empty(), lines: Seq::empty() }
    }
}

// ---------------------------------------------------------------------------
// Key-sorted sequences of pairs.
// ---------------------------------------------------------------------------

/// The keys of `s` are strictly increasing.
pub open spec fn keys_sorted<V>(s: Seq<(u32, V)>) -> bool {
    forall|i: int, j: int| 0 <= i < j < s.len() ==> s[i].0 < s[j].0
}

/// Some entry of `s` carries the key `k`.
pub open spec fn has_key<V>(s: Seq<(u32, V)>, k: u32) -> bool {
    exists|i: int| 0 <= i < s.len() && s[i].0 == k
}

/// The first position whose key is at least `k`; the length if there is
/// none.
pub open spec fn put_pos<V>(s: Seq<(u32, V)>, k: u32) -> int
    decreases s.len(),
{
    if s.len() == 0 {
        0
    } else if s[0].0 >= k {
        0
    } else {
        1 + put_pos(s.skip(1), k)
    }
}

/// Write `k -> v` into the key-sorted sequence `s`: replace the entry
/// carrying `k` if there is one, otherwise make room at the position that
/// keeps the keys sorted.
pub open spec fn sorted_put<V>(s: Seq<(u32, V)>, k: u32, v: V) -> Seq<(u32, V)> {
    let p = put_pos(s, k);
    if p < s.len() && s[p].0 == k {
        s.update(p, (k, v))
    } else {
        s.insert(p, (k, v))
    }
}

pub proof fn lemma_put_pos_bounds<V>(s: Seq<(u32, V)>, k: u32)
    ensures
        0 <= put_pos(s, k) <= s.len(),
        forall|i: int| 0 <= i < put_pos(s, k) ==> s[i].0 < k,
        put_pos(s, k) < s.len() ==> s[put_pos(s, k)].0 >= k,
    decreases s.len(),
{
    if s.len() == 0 {
    } else if s[0].0 >= k {
    } else {
        lemma_put_pos_bounds(s.skip(1), k);
        assert forall|i: int| 0 <= i < put_pos(s, k) implies s[i].0 < k by {
            if i > 0 {
                assert(s.skip(1)[i - 1] == s[i]);
            }
        }
        if put_pos(s, k) < s.len() {
            assert(s.skip(1)[put_pos(s, k) - 1] == s[put_pos(s, k)]);
        }
    }
}

/// Any position below which every key is small and at which the key is
/// not is the put position.
pub proof fn lemma_put_pos_unique<V>(s: Seq<(u32, V)>, k: u32, j: int)
    requires
        0 <= j <= s.len(),
        forall|i: int| 0 <= i < j ==> s[i].0 < k,
        j < s.len() ==> s[j].0 >= k,
    ensures
        j == put_pos(s, k),
{
    lemma_put_pos_bounds(s, k);
    let p = put_pos(s, k);
    if j < p {
        assert(s[j].0 < k);
    } else if p < j {
        assert(s[p].0 < k);
    }
}

pub proof fn lemma_sorted_put_sorted<V>(s: Seq<(u32, V)>, k: u32, v: V)
    requires
        keys_sorted(s),
    ensures
        keys_sorted(sorted_put(s, k, v)),
{
    lemma_put_pos_bounds(s, k);
    let p = put_pos(s, k);
    let t = sorted_put(s, k, v);
    if p < s.len() && s[p].0 == k {
        assert forall|i: int, j: int| 0 <= i < j < t.len() implies t[i].0 < t[j].0 by {
            assert(t[i].0 == s[i].0);
            assert(t[j].0 == s[j].0);
        }
    } else {
        assert forall|i: int, j: int| 0 <= i < j < t.len() implies t[i].0 < t[j].0 by {
            if i < p {
                assert(t[i] == s[i]);
            } else if i > p {
                assert(t[i] == s[i - 1]);
            }
            if j < p {
                assert(t[j] == s[j]);
            } else if j > p {
                assert(t[j] == s[j - 1]);
            }
        }
    }
}

// ---------------------------------------------------------------------------
// Name resolution against the string table.
// ---------------------------------------------------------------------------

/// The position of the first zero byte at or after `from`; the length if
/// there is none.
pub open spec fn first_null(s: Seq<u8>, from: int) -> int
    decreases s.len() - from,
{
    if from < 0 || from >= s.len() {
        s.len() as int
    } else if s[from] == 0 {
        from
    } else {
        first_null(s, from + 1)
    }
}

/// The bytes from `from` up to the first zero byte, or to the end when
/// there is none.
pub open spec fn until_null(s: Seq<u8>, from: int) -> Seq<u8>
    recommends
        0 <= from <= s.len(),
{
    s.subrange(from, first_null(s, from))
}

/// The name of a symbol record.  When the first four bytes of the 8-byte
/// name field are zero, bytes four to seven hold a little-endian offset
/// into the string table; an offset at or past the end of the table is
/// out of bounds, and any other offset names the bytes up to the next
/// zero.  Otherwise the field itself holds the name, cut at the first
/// zero.  Either way the bytes are decoded lossily.
pub open spec fn spec_resolve_name(name: Seq<u8>, table: Seq<u8>) -> Result<Seq<char>, GhostErr>
    recommends
        name.len() == 8,
{
    if name[0] == 0 && name[1] == 0 && name[2] == 0 && name[3] == 0 {
        let ptr = le32(name, 4) as int;
        if ptr >= table.len() {
            Err(GhostErr::SymbolNameOob)
        } else {
            Ok(lossy_of(until_null(table, ptr)))
        }
    } else {
        Ok(lossy_of(until_null(name, 0)))
    }
}

// ---------------------------------------------------------------------------
// Sorting the line table.
// ---------------------------------------------------------------------------

/// `s` is sorted by address, ties in any order.
pub open spec fn lines_sorted(s: Seq<LineRec>) -> bool {
    forall|i: int, j: int| 0 <= i < j < s.len() ==> s[i].addr <= s[j].addr
}

/// Place `x` after every record whose address is at most `x.addr`.
pub open spec fn spec_insert_line(s: Seq<LineRec>, x: LineRec) -> Seq<LineRec>
    decreases s.len(),
{
    if s.len() == 0 {
        seq![x]
    } else if s.last().addr <= x.addr {
        s.push(x)
    } else {
        spec_insert_line(s.drop_last(), x).push(s.last())
    }
}

/// Sort by address.  Records with equal addresses keep their original
/// order, so the result is a function of the input sequence alone.
pub open spec fn spec_sort_lines(s: Seq<LineRec>) -> Seq<LineRec>
    decreases s.len(),
{
    if s.len() == 0 {
        Seq::empty()
    } else {
        spec_insert_line(spec_sort_lines(s.drop_last()), s.last())
    }
}

pub proof fn lemma_insert_line_sorted(s: Seq<LineRec>, x: LineRec)
    requires
        lines_sorted(s),
    ensures
        lines_sorted(spec_insert_line(s, x)),
        spec_insert_line(s, x).len() == s.len() + 1,
    decreases s.len(),
{
    if s.len() == 0 {
    } else if s.last().addr <= x.addr {
    } else {
        assert(lines_sorted(s.drop_last()));
        lemma_insert_line_sorted(s.drop_last(), x);
        let t = spec_insert_line(s.drop_last(), x);
        assert forall|i: int|
            0 <= i < t.len() implies t[i].addr <= s.last().addr by {
            lemma_insert_line_members(s.drop_last(), x, i);
        }
    }
}

/// Every record of an insertion result is the inserted record or one of
/// the originals.
pub proof fn lemma_insert_line_members(s: Seq<LineRec>, x: LineRec, i: int)
    requires
        0 <= i < spec_insert_line(s, x).len(),
    ensures
        spec_insert_line(s, x)[i] == x || exists|j: int|
            0 <= j < s.len() && s[j] == spec_insert_line(s, x)[i],
    decreases s.len(),
{
    if s.len() == 0 {
    } else if s.last().addr <= x.addr {
    } else {
        let t = spec_insert_line(s.drop_last(), x);
        if i < t.len() {
            lemma_insert_line_members(s.drop_last(), x, i);
        } else {
            assert(spec_insert_line(s, x)[i] == s.last());
        }
    }
}

pub proof fn lemma_sort_lines_sorted(s: Seq<LineRec>)
    ensures
        lines_sorted(spec_sort_lines(s)),
        spec_sort_lines(s).len() == s.len(),
    decreases s.len(),
{
    if s.len() > 0 {
        lemma_sort_lines_sorted(s.drop_last());
        lemma_insert_line_sorted(spec_sort_lines(s.drop_last()), s.last());
    }
}

// ---------------------------------------------------------------------------
// Line correlation.
// ---------------------------------------------------------------------------

/// Walk the sorted line records in order and write every record whose
/// address lies in the half-open range `[start, end)` into the line
/// table, attributed to `file`.
pub open spec fn spec_correlate(
    m: Seq<(u32, (Seq<char>, u32))>,
    lines: Seq<LineRec>,
    file: Seq<char>,
    start: u32,
    end: int,
) -> Seq<(u32, (Seq<char>, u32))>
    decreases lines.len(),
{
    if lines.len() == 0 {
        m
    } else {
        let l = lines[0];
        let m1 = if start <= l.addr && (l.addr as int) < end {
            sorted_put(m, l.addr, (file, l.line as u32))
        } else {
            m
        };
        spec_correlate(m1, lines.skip(1), file, start, end)
    }
}

/// Records before position `i` whose addresses all fall short of `start`
/// contribute nothing to the correlation.
pub proof fn lemma_correlate_skip_front(
    m: Seq<(u32, (Seq<char>, u32))>,
    lines: Seq<LineRec>,
    file: Seq<char>,
    start: u32,
    end: int,
    i: int,
)
    requires
        0 <= i <= lines.len(),
        forall|j: int| 0 <= j < i ==> lines[j].addr < start,
    ensures
        spec_correlate(m, lines, file, start, end) == spec_correlate(
            m,
            lines.skip(i),
            file,
            start,
            end,
        ),
    decreases i,
{
    if i == 0 {
        assert(lines.skip(0) =~= lines);
    } else {
        assert(lines[0].addr < start);
        lemma_correlate_skip_front(m, lines.skip(1), file, start, end, i - 1);
        assert(lines.skip(1).skip(i - 1) =~= lines.skip(i));
    }
}

/// Records whose addresses all reach `end` contribute nothing to the
/// correlation.
pub proof fn lemma_correlate_none(
    m: Seq<(u32, (Seq<char>, u32))>,
    lines: Seq<LineRec>,
    file: Seq<char>,
    start: u32,
    end: int,
)
    requires
        forall|j: int| 0 <= j < lines.len() ==> lines[j].addr as int >= end,
    ensures
        spec_correlate(m, lines, file, start, end) == m,
    decreases lines.len(),
{
    if lines.len() > 0 {
        assert(lines[0].addr as int >= end);
        lemma_correlate_none(m, lines.skip(1), file, start, end);
    }
}

// ---------------------------------------------------------------------------
// Interpreting the symbol table.
// ---------------------------------------------------------------------------

/// Record a function or global definition: a type code of `0x20` marks a
/// function, anything else a global.
pub open spec fn spec_classify(t: Tables, value: u32, typ: u16, nm: Seq<char>) -> Tables {
    if typ == 0x20 {
        Tables { functions: sorted_put(t.functions, value, nm), globals: t.globals, lines: t.lines }
    } else {
        Tables { functions: t.functions, globals: sorted_put(t.globals, value, nm), lines: t.lines }
    }
}

/// One step of the symbol walk: resolve the name, then dispatch on the
/// storage class.  Classes 2, 3 and 105 define a function or global;
/// a class-3 symbol with at least four auxiliary bytes and an active
/// current file additionally attributes the line records inside
/// `[value, value + aux_len)` to that file.  Class 103 latches a new
/// current file from the auxiliary bytes, strictly decoded.  Any other
/// class aborts the decode.
pub open spec fn spec_sym_step(
    t: Tables,
    cur: Option<Seq<char>>,
    sym: SymModel,
    lines: Seq<LineRec>,
    table: Seq<u8>,
) -> Result<(Tables, Option<Seq<char>>), GhostErr> {
    match spec_resolve_name(sym.name, table) {
        Err(e) => Err(e),
        Ok(nm) => {
            if sym.class == 2 || sym.class == 3 || sym.class == 105 {
                let t1 = spec_classify(t, sym.value, sym.typ, nm);
                let t2 = match cur {
                    Some(file) => {
                        if sym.class == 3 && sym.aux.len() >= 4 {
                            Tables {
                                functions: t1.functions,
                                globals: t1.globals,
                                lines: spec_correlate(
                                    t1.lines,
                                    lines,
                                    file,
                                    sym.value,
                                    sym.value as int + le32(sym.aux, 0) as int,
                                ),
                            }
                        } else {
                            t1
                        }
                    },
                    None => t1,
                };
                Ok((t2, cur))
            } else if sym.class == 103 {
                if valid_utf8(until_null(sym.aux, 0)) {
                    Ok((t, Some(decode_utf8(until_null(sym.aux, 0)))))
                } else {
                    Err(GhostErr::FilenameUtf8)
                }
            } else {
                Err(GhostErr::UnknownSymbolClass(sym.class))
            }
        },
    }
}

/// Fold [`spec_sym_step`] over the symbols in table order, starting with
/// no current file.
pub open spec fn spec_interpret(
    syms: Seq<SymModel>,
    t: Tables,
    cur: Option<Seq<char>>,
    lines: Seq<LineRec>,
    table: Seq<u8>,
) -> Result<Tables, GhostErr>
    decreases syms.len(),
{
    if syms.len() == 0 {
        Ok(t)
    } else {
        match spec_sym_step(t, cur, syms[0], lines, table) {
            Err(e) => Err(e),
            Ok((t1, cur1)) => spec_interpret(syms.skip(1), t1, cur1, lines, table),
        }
    }
}

/// Whether one symbol makes the walk fail, and how.  Failure does not
/// depend on the tables or on the current file.
pub open spec fn sym_err(sym: SymModel, table: Seq<u8>) -> Option<GhostErr> {
    match spec_resolve_name(sym.name, table) {
        Err(e) => Some(e),
        Ok(_) => {
            if sym.class == 2 || sym.class == 3 || sym.class == 105 {
                None
            } else if sym.class == 103 {
                if valid_utf8(until_null(sym.aux, 0)) {
                    None
                } else {
                    Some(GhostErr::FilenameUtf8)
                }
            } else {
                Some(GhostErr::UnknownSymbolClass(sym.class))
            }
        },
    }
}

/// The first error of the symbol walk, if any.
pub open spec fn first_sym_err(syms: Seq<SymModel>, table: Seq<u8>) -> Option<GhostErr>
    decreases syms.len(),
{
    if syms.len() == 0 {
        None
    } else {
        match sym_err(syms[0], table) {
            Some(e) => Some(e),
            None => first_sym_err(syms.skip(1), table),
        }
    }
}

/// Symbols before position `i` that are free of errors leave the first
/// error to the rest.
pub proof fn lemma_first_sym_err_skip(syms: Seq<SymModel>, table: Seq<u8>, i: int)
    requires
        0 <= i <= syms.len(),
        forall|j: int| 0 <= j < i ==> sym_err(syms[j], table) is None,
    ensures
        first_sym_err(syms, table) == first_sym_err(syms.skip(i), table),
    decreases i,
{
    if i == 0 {
        assert(syms.skip(0) =~= syms);
    } else {
        assert(sym_err(syms[0], table) is None);
        lemma_first_sym_err_skip(syms.skip(1), table, i - 1);
        assert(syms.skip(1).skip(i - 1) =~= syms.skip(i));
    }
}

/// A walk without a first error has no erring symbol at all.
pub proof fn lemma_first_sym_err_none(syms: Seq<SymModel>, table: Seq<u8>)
    requires
        first_sym_err(syms, table) is None,
    ensures
        forall|i: int| 0 <= i < syms.len() ==> sym_err(syms[i], table) is None,
    decreases syms.len(),
{
    if syms.len() > 0 {
        lemma_first_sym_err_none(syms.skip(1), table);
        assert forall|i: int| 0 <= i < syms.len() implies sym_err(syms[i], table) is None by {
            if i > 0 {
                assert(syms.skip(1)[i - 1] == syms[i]);
            }
        }
    }
}

/// The symbol walk succeeds exactly when no symbol is in error, and its
/// error is the first symbol's error: failure is independent of the
/// accumulated tables and of the current file.
pub proof fn lemma_interpret_err(
    syms: Seq<SymModel>,
    t: Tables,
    cur: Option<Seq<char>>,
    lines: Seq<LineRec>,
    table: Seq<u8>,
)
    ensures
        match first_sym_err(syms, table) {
            None => spec_interpret(syms, t, cur, lines, table) is Ok,
            Some(e) => spec_interpret(syms, t, cur, lines, table) == Result::<
                Tables,
                GhostErr,
            >::Err(e),
        },
    decreases syms.len(),
{
    if syms.len() > 0 {
        match spec_sym_step(t, cur, syms[0], lines, table) {
            Err(_) => {},
            Ok((t1, cur1)) => {
                lemma_interpret_err(syms.skip(1), t1, cur1, lines, table);
            },
        }
    }
}

// ---------------------------------------------------------------------------
// Reading the COFF block.
// ---------------------------------------------------------------------------

/// Read `n` line records of six bytes each: an address and a line number,
/// with no padding between them.
pub open spec fn spec_read_lines(s: Seq<u8>, p: int, n: int) -> Result<(Seq<LineRec>, int), GhostErr>
    decreases n,
{
    if n <= 0 {
        Ok((Seq::empty(), p))
    } else if !(has(s, p, 4)) {
        Err(GhostErr::Truncated("addr"@))
    } else if !(has(s, p + 4, 2)) {
        Err(GhostErr::Truncated("line"@))
    } else {
        let rec = LineRec { addr: le32(s, p), line: le16(s, p + 4) };
        match spec_read_lines(s, p + 6, n - 1) {
            Err(e) => Err(e),
            Ok((rest, q)) => Ok((seq![rec] + rest, q)),
        }
    }
}

/// Read symbol records, 18 bytes each followed by `aux * 18` auxiliary
/// bytes, until `n` entries (auxiliary records included) are consumed.
pub open spec fn spec_read_symbols(s: Seq<u8>, p: int, n: int) -> Result<
    (Seq<SymModel>, int),
    GhostErr,
>
    decreases n,
{
    if n <= 0 {
        Ok((Seq::empty(), p))
    } else if !(has(s, p, 8)) {
        Err(GhostErr::Truncated("name"@))
    } else if !(has(s, p + 8, 4)) {
        Err(GhostErr::Truncated("value"@))
    } else if !(has(s, p + 12, 2)) {
        Err(GhostErr::Truncated("num"@))
    } else if !(has(s, p + 14, 2)) {
        Err(GhostErr::Truncated("typ"@))
    } else if !(has(s, p + 16, 1)) {
        Err(GhostErr::Truncated("class"@))
    } else if !(has(s, p + 17, 1)) {
        Err(GhostErr::Truncated("aux"@))
    } else {
        let aux_n = s[p + 17] as int;
        if !(has(s, p + 18, aux_n * 18)) {
            Err(GhostErr::Truncated("symbol aux data"@))
        } else {
            let sym = SymModel {
                name: s.subrange(p, p + 8),
                value: le32(s, p + 8),
                typ: le16(s, p + 14),
                class: s[p + 16],
                aux: s.subrange(p + 18, p + 18 + aux_n * 18),
            };
            let n2 = if n - 1 - aux_n >= 0 {
                n - 1 - aux_n
            } else {
                0
            };
            match spec_read_symbols(s, p + 18 + aux_n * 18, n2) {
                Err(e) => Err(e),
                Ok((rest, q)) => Ok((seq![sym] + rest, q)),
            }
        }
    }
}

/// Decode one COFF debug block at `off`: the symbols header, the line
/// table (then sorted by address), the symbol table, and the string
/// table — stored behind four placeholder bytes so that name offsets
/// index it directly — and then the symbol walk, which merges its
/// findings into `t`.
pub open spec fn spec_parse_coff(s: Seq<u8>, t: Tables, off: int) -> Result<Tables, GhostErr> {
    let p = if 0 <= off <= s.len() {
        off
    } else {
        s.len() as int
    };
    if !(has(s, p, 4)) {
        Err(GhostErr::Truncated("num_symbols"@))
    } else if !(has(s, p + 4, 4)) {
        Err(GhostErr::Truncated("lva_first_symbol"@))
    } else if !(has(s, p + 8, 4)) {
        Err(GhostErr::Truncated("num_line_nums"@))
    } else if !(has(s, p + 12, 4)) {
        Err(GhostErr::Truncated("lva_first_line"@))
    } else if !(has(s, p + 16, 4)) {
        Err(GhostErr::Truncated("rva_first_code"@))
    } else if !(has(s, p + 20, 4)) {
        Err(GhostErr::Truncated("rva_last_code"@))
    } else if !(has(s, p + 24, 4)) {
        Err(GhostErr::Truncated("rva_first_data"@))
    } else if !(has(s, p + 28, 4)) {
        Err(GhostErr::Truncated("rva_last_data"@))
    } else {
        let num_symbols = le32(s, p);
        let num_line_nums = le32(s, p + 8);
        match spec_read_lines(s, p + 32, num_line_nums as int) {
            Err(e) => Err(e),
            Ok((raw_lines, p1)) => {
                let lines = spec_sort_lines(raw_lines);
                match spec_read_symbols(s, p1, num_symbols as int) {
                    Err(e) => Err(e),
                    Ok((syms, p2)) => {
                        if !(has(s, p2, 4)) {
                            Err(GhostErr::Truncated("string table size"@))
                        } else {
                            let sz = le32(s, p2) as int;
                            if !(has(s, p2 + 4, sz)) {
                                Err(GhostErr::Truncated("string table"@))
                            } else {
                                let table = seq![0u8, 0u8, 0u8, 0u8] + s.subrange(
                                    p2 + 4,
                                    p2 + 4 + sz,
                                );
                                spec_interpret(syms, t, None, lines, table)
                            }
                        }
                    },
                }
            },
        }
    }
}

// ---------------------------------------------------------------------------
// The top-level walk.
// ---------------------------------------------------------------------------

/// Step over `n` section headers of forty bytes each, checking that every
/// field is present.
pub open spec fn spec_skip_sections(s: Seq<u8>, p: int, n: int) -> Result<int, GhostErr>
    decreases n,
{
    if n <= 0 {
        Ok(p)
    } else if !(has(s, p, 8)) {
        Err(GhostErr::Truncated("name"@))
    } else if !(has(s, p + 8, 4)) {
        Err(GhostErr::Truncated("vsize"@))
    } else if !(has(s, p + 12, 4)) {
        Err(GhostErr::Truncated("vaddr"@))
    } else if !(has(s, p + 16, 4)) {
        Err(GhostErr::Truncated("raw_data_sz"@))
    } else if !(has(s, p + 20, 4)) {
        Err(GhostErr::Truncated("ptr_raw_data"@))
    } else if !(has(s, p + 24, 4)) {
        Err(GhostErr::Truncated("ptr_relocation"@))
    } else if !(has(s, p + 28, 4)) {
        Err(GhostErr::Truncated("ptr_line_num"@))
    } else if !(has(s, p + 32, 2)) {
        Err(GhostErr::Truncated("num_relocs"@))
    } else if !(has(s, p + 34, 2)) {
        Err(GhostErr::Truncated("num_line_num"@))
    } else if !(has(s, p + 36, 4)) {
        Err(GhostErr::Truncated("characteristics"@))
    } else {
        spec_skip_sections(s, p + 40, n - 1)
    }
}

/// Read `n` debug-directory entries of 28 bytes each.  An entry whose
/// type tag is outside the ten enumerated values aborts the decode; an
/// entry tagged COFF (type 1) has its block decoded at the entry's
/// raw-data pointer; every other entry is skipped.
pub open spec fn spec_read_dirs(s: Seq<u8>, p: int, n: int, t: Tables) -> Result<Tables, GhostErr>
    decreases n,
{
    if n <= 0 {
        Ok(t)
    } else if !(has(s, p, 4)) {
        Err(GhostErr::Truncated("characteristics"@))
    } else if !(has(s, p + 4, 4)) {
        Err(GhostErr::Truncated("timedatestamp"@))
    } else if !(has(s, p + 8, 2)) {
        Err(GhostErr::Truncated("major_version"@))
    } else if !(has(s, p + 10, 2)) {
        Err(GhostErr::Truncated("minor_version"@))
    } else if !(has(s, p + 12, 4)) {
        Err(GhostErr::Truncated("typ"@))
    } else if le32(s, p + 12) > 9 {
        Err(GhostErr::InvalidDebugType(le32(s, p + 12)))
    } else if !(has(s, p + 16, 4)) {
        Err(GhostErr::Truncated("size_of_data"@))
    } else if !(has(s, p + 20, 4)) {
        Err(GhostErr::Truncated("addr_raw_data"@))
    } else if !(has(s, p + 24, 4)) {
        Err(GhostErr::Truncated("ptr_raw_data"@))
    } else {
        let step = if le32(s, p + 12) == 1 {
            spec_parse_coff(s, t, le32(s, p + 24) as int)
        } else {
            Ok(t)
        };
        match step {
            Err(e) => Err(e),
            Ok(t1) => spec_read_dirs(s, p + 28, n - 1, t1),
        }
    }
}

/// Decode a whole separate-debug-info image: the `DI` magic, the fixed
/// header, the section headers, the skipped exported-names blob, and the
/// debug directory.
pub open spec fn spec_load(s: Seq<u8>) -> Result<Tables, GhostErr> {
    if !(has(s, 0, 2)) {
        Err(GhostErr::Truncated("header"@))
    } else if s[0] != 0x44 || s[1] != 0x49 {
        Err(GhostErr::NotDebugInfo)
    } else if !(has(s, 2, 2)) {
        Err(GhostErr::Truncated("flags"@))
    } else if !(has(s, 4, 2)) {
        Err(GhostErr::Truncated("machine"@))
    } else if !(has(s, 6, 2)) {
        Err(GhostErr::Truncated("characteristics"@))
    } else if !(has(s, 8, 4)) {
        Err(GhostErr::Truncated("timedatestamp"@))
    } else if !(has(s, 12, 4)) {
        Err(GhostErr::Truncated("checksum"@))
    } else if !(has(s, 16, 4)) {
        Err(GhostErr::Truncated("image base"@))
    } else if !(has(s, 20, 4)) {
        Err(GhostErr::Truncated("size of image"@))
    } else if !(has(s, 24, 4)) {
        Err(GhostErr::Truncated("number of sections"@))
    } else if !(has(s, 28, 4)) {
        Err(GhostErr::Truncated("exported names size"@))
    } else if !(has(s, 32, 4)) {
        Err(GhostErr::Truncated("debug directory size"@))
    } else if !(has(s, 36, 4)) {
        Err(GhostErr::Truncated("section alignment"@))
    } else if !(has(s, 40, 8)) {
        Err(GhostErr::Truncated("reserved"@))
    } else {
        let num_sections = le32(s, 24);
        let namesz = le32(s, 28);
        let dirsz = le32(s, 32);
        match spec_skip_sections(s, 48, num_sections as int) {
            Err(e) => Err(e),
            Ok(p1) => {
                let p2 = spec_skip(s, p1, namesz as int);
                spec_read_dirs(s, p2, dirsz as int / 28, Tables::empty())
            },
        }
    }
}

} // verus!
