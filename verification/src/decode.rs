//! The executable decoder.
//!
//! Every function here is proved to return exactly what the spec decoder
//! in [`crate::model`] says for the same bytes: the same tables on
//! success, the matching error otherwise.

use vstd::prelude::*;

use crate::bytes::has;
use crate::bytes::le32;
use crate::bytes::skip_clamped;
use crate::bytes::spec_skip;
use crate::bytes::want_bytes;
use crate::bytes::want_skip;
use crate::bytes::want_u16;
use crate::bytes::want_u32;
use crate::bytes::want_u8;
use crate::errors::err_matches;
use crate::errors::Error;
use crate::errors::GhostErr;
use crate::model::first_null;
use crate::model::first_sym_err;
use crate::model::lemma_correlate_none;
use crate::model::lemma_correlate_skip_front;
use crate::model::lemma_first_sym_err_none;
use crate::model::lemma_first_sym_err_skip;
use crate::model::lemma_interpret_err;
use crate::model::lemma_sort_lines_sorted;
use crate::model::lines_sorted;
use crate::model::spec_correlate;
use crate::model::spec_insert_line;
use crate::model::spec_interpret;
use crate::model::spec_load;
use crate::model::spec_parse_coff;
use crate::model::spec_read_dirs;
use crate::model::spec_read_lines;
use crate::model::spec_read_symbols;
use crate::model::spec_resolve_name;
use crate::model::spec_skip_sections;
use crate::model::spec_sort_lines;
use crate::model::sym_err;
use crate::model::until_null;
use crate::model::LineRec;
use crate::model::SymModel;
use crate::model::Tables;
use crate::tables::RvaMap;
use crate::text::lossy_to_string;
use crate::text::utf8_to_string;

verus! {

/// The type tag of a debug-directory entry.
#[derive(Clone, Copy, Debug, PartialEq, Eq, Structural)]
pub enum DebugType {
    /// Unknown value, ignored by all tools.
    Unknown,
    /// COFF debugging information: line numbers, symbol table and string
    /// table.
    Coff,
    /// CodeView debugging information.
    CodeView,
    /// Frame pointer omission information.
    FramePointerOmission,
    /// Miscellaneous information.
    Misc,
    /// Exception information.
    Exception,
    /// Fixup information.
    Fixup,
    /// Omap to source.
    OmapToSrc,
    /// Omap from source.
    OmapFromSrc,
    /// Borland debugging information.
    Borland,
}

/// The tag a raw type value names.
pub open spec fn spec_debug_type(val: u32) -> DebugType {
    if val == 0 {
        DebugType::Unknown
    } else if val == 1 {
        DebugType::Coff
    } else if val == 2 {
        DebugType::CodeView
    } else if val == 3 {
        DebugType::FramePointerOmission
    } else if val == 4 {
        DebugType::Misc
    } else if val == 5 {
        DebugType::Exception
    } else if val == 6 {
        DebugType::Fixup
    } else if val == 7 {
        DebugType::OmapToSrc
    } else if val == 8 {
        DebugType::OmapFromSrc
    } else {
        DebugType::Borland
    }
}

impl DebugType {
    /// Decode a raw directory type value; values past the enumerated
    /// range are invalid.
    pub fn try_from(val: u32) -> (r: Result<DebugType, Error>)
        ensures
            val <= 9 ==> (r matches Ok(t) && t == spec_debug_type(val)),
            val > 9 ==> (r matches Err(e) && e == Error::InvalidDebugType(val)),
    {
        match val {
            0 => Ok(DebugType::Unknown),
            1 => Ok(DebugType::Coff),
            2 => Ok(DebugType::CodeView),
            3 => Ok(DebugType::FramePointerOmission),
            4 => Ok(DebugType::Misc),
            5 => Ok(DebugType::Exception),
            6 => Ok(DebugType::Fixup),
            7 => Ok(DebugType::OmapToSrc),
            8 => Ok(DebugType::OmapFromSrc),
            9 => Ok(DebugType::Borland),
            _ => Err(Error::InvalidDebugType(val)),
        }
    }
}

/// One COFF symbol record and its auxiliary bytes, as read from the
/// symbol table.
pub struct SymEntry {
    /// The raw 8-byte name field.
    pub name: Vec<u8>,
    /// The symbol's value, read as an RVA.
    pub value: u32,
    /// The type code; `0x20` marks a function.
    pub typ: u16,
    /// The storage class.
    pub class: u8,
    /// The auxiliary bytes, eighteen per auxiliary record.
    pub aux: Vec<u8>,
}

impl SymEntry {
    /// The ghost form of this record.
    pub open spec fn model(self) -> SymModel {
        SymModel {
            name: self.name@,
            value: self.value,
            typ: self.typ,
            class: self.class,
            aux: self.aux@,
        }
    }
}

/// The ghost forms of a whole symbol table.
pub open spec fn sym_models(v: Seq<SymEntry>) -> Seq<SymModel> {
    v.map_values(|e: SymEntry| e.model())
}

// ---------------------------------------------------------------------------
// The line-number table.
// ---------------------------------------------------------------------------

/// Combine already-read line records with the outcome of reading the
/// rest.
pub open spec fn comb_lines(pre: Seq<LineRec>, r: Result<(Seq<LineRec>, int), GhostErr>) -> Result<
    (Seq<LineRec>, int),
    GhostErr,
> {
    match r {
        Err(e) => Err(e),
        Ok((rest, q)) => Ok((pre + rest, q)),
    }
}

/// Read `n` line records.
fn read_lines(data: &[u8], pos: usize, n: u32) -> (r: Result<(Vec<LineRec>, usize), Error>)
    requires
        pos <= data@.len(),
    ensures
        match r {
            Ok(p) => spec_read_lines(data@, pos as int, n as int) == Ok::<_, GhostErr>((
                p.0@,
                p.1 as int,
            )) && p.1 <= data@.len(),
            Err(e) => spec_read_lines(data@, pos as int, n as int) matches Err(k) && err_matches(
                e,
                k,
            ),
        },
{
    let mut out: Vec<LineRec> = Vec::new();
    let mut p = pos;
    let mut i: u32 = 0;
    while i < n
        invariant
            i <= n,
            p <= data@.len(),
            spec_read_lines(data@, pos as int, n as int) == comb_lines(
                out@,
                spec_read_lines(data@, p as int, n - i),
            ),
        decreases n - i,
    {
        let (addr, p1) = match want_u32(data, p, "addr") {
            Ok(v) => v,
            Err(e) => {
                return Err(e);
            },
        };
        let (line, p2) = match want_u16(data, p1, "line") {
            Ok(v) => v,
            Err(e) => {
                return Err(e);
            },
        };
        let rec = LineRec { addr, line };
        proof {
            let r2 = spec_read_lines(data@, p2 as int, n - i - 1);
            if r2 is Ok {
                assert(out@ + (seq![rec] + r2->Ok_0.0) =~= out@.push(rec) + r2->Ok_0.0);
            }
        }
        out.push(rec);
        p = p2;
        i += 1;
    }
    Ok((out, p))
}

/// Inserting behind every record whose address is at most the new one's
/// lands at the first position from which every address is larger.
proof fn lemma_insert_line_at(s: Seq<LineRec>, x: LineRec, j: int)
    requires
        0 <= j <= s.len(),
        forall|m: int| j <= m < s.len() ==> s[m].addr > x.addr,
        j > 0 ==> s[j - 1].addr <= x.addr,
    ensures
        spec_insert_line(s, x) == s.insert(j, x),
    decreases s.len(),
{
    if s.len() == 0 {
        assert(spec_insert_line(s, x) =~= s.insert(0, x));
    } else if s.last().addr <= x.addr {
        assert(j == s.len());
        assert(s.push(x) =~= s.insert(j, x));
    } else {
        assert(j < s.len());
        lemma_insert_line_at(s.drop_last(), x, j);
        assert(s.drop_last().insert(j, x).push(s.last()) =~= s.insert(j, x));
    }
}

/// Insert one record into its sorted position, behind any record with an
/// equal address.
fn insert_line(out: &mut Vec<LineRec>, x: LineRec)
    ensures
        final(out)@ == spec_insert_line(old(out)@, x),
{
    let mut j = out.len();
    while j > 0 && out[j - 1].addr > x.addr
        invariant
            j <= out@.len(),
            out@ == old(out)@,
            forall|m: int| j <= m < out@.len() ==> out@[m].addr > x.addr,
        decreases j,
    {
        j -= 1;
    }
    proof {
        lemma_insert_line_at(out@, x, j as int);
    }
    out.insert(j, x);
}

/// Sort the line records ascending by address; records with equal
/// addresses keep their original order.
fn sort_lines(v: &Vec<LineRec>) -> (r: Vec<LineRec>)
    ensures
        r@ == spec_sort_lines(v@),
        lines_sorted(r@),
{
    let n = v.len();
    let mut out: Vec<LineRec> = Vec::new();
    let mut i: usize = 0;
    while i < n
        invariant
            i <= n,
            n == v@.len(),
            out@ == spec_sort_lines(v@.take(i as int)),
        decreases n - i,
    {
        insert_line(&mut out, v[i]);
        proof {
            assert(v@.take(i + 1).drop_last() =~= v@.take(i as int));
            assert(v@.take(i + 1).last() == v@[i as int]);
        }
        i += 1;
    }
    proof {
        assert(v@.take(n as int) =~= v@);
        lemma_sort_lines_sorted(v@);
    }
    out
}

// ---------------------------------------------------------------------------
// Names and the string table.
// ---------------------------------------------------------------------------

/// The bytes of `src` from `from` up to the first zero, or to the end.
fn bytes_until_null(src: &Vec<u8>, from: usize) -> (r: Vec<u8>)
    requires
        from <= src@.len(),
    ensures
        r@ == until_null(src@, from as int),
{
    let n = src.len();
    let mut k = from;
    while k < n && src[k] != 0
        invariant
            from <= k <= n,
            n == src@.len(),
            first_null(src@, from as int) == first_null(src@, k as int),
        decreases n - k,
    {
        k += 1;
    }
    proof {
        assert(first_null(src@, from as int) == k as int);
    }
    let mut r: Vec<u8> = Vec::new();
    let mut t = from;
    while t < k
        invariant
            from <= t <= k <= n,
            n == src@.len(),
            r@ == src@.subrange(from as int, t as int),
        decreases k - t,
    {
        r.push(src[t]);
        proof {
            assert(r@ =~= src@.subrange(from as int, t + 1));
        }
        t += 1;
    }
    proof {
        assert(r@ =~= until_null(src@, from as int));
    }
    r
}

/// Resolve one symbol's name, as [`spec_resolve_name`] says.
fn resolve_name(name: &Vec<u8>, table: &Vec<u8>) -> (r: Result<String, Error>)
    requires
        name@.len() == 8,
    ensures
        match r {
            Ok(s) => spec_resolve_name(name@, table@) == Ok::<Seq<char>, GhostErr>(s@),
            Err(e) => spec_resolve_name(name@, table@) matches Err(k) && err_matches(e, k),
        },
{
    if name[0] == 0 && name[1] == 0 && name[2] == 0 && name[3] == 0 {
        let ptr: u32 = name[4] as u32 + (name[5] as u32) * 0x100 + (name[6] as u32) * 0x10000 + (
        name[7] as u32) * 0x1000000;
        proof {
            assert(ptr == le32(name@, 4));
        }
        if ptr as u64 >= table.len() as u64 {
            Err(Error::SymbolNameOob)
        } else {
            let sub = bytes_until_null(table, ptr as usize);
            Ok(lossy_to_string(sub.as_slice()))
        }
    } else {
        let sub = bytes_until_null(name, 0);
        Ok(lossy_to_string(sub.as_slice()))
    }
}

// ---------------------------------------------------------------------------
// The symbol table.
// ---------------------------------------------------------------------------

/// Combine already-read symbols with the outcome of reading the rest.
pub open spec fn comb_syms(pre: Seq<SymModel>, r: Result<(Seq<SymModel>, int), GhostErr>) -> Result<
    (Seq<SymModel>, int),
    GhostErr,
> {
    match r {
        Err(e) => Err(e),
        Ok((rest, q)) => Ok((pre + rest, q)),
    }
}

/// Read symbol records until `total` entries, auxiliary records
/// included, have been consumed.
fn read_symbols(data: &[u8], pos: usize, total: u32) -> (r: Result<(Vec<SymEntry>, usize), Error>)
    requires
        pos <= data@.len(),
    ensures
        match r {
            Ok(p) => spec_read_symbols(data@, pos as int, total as int) == Ok::<_, GhostErr>((
                sym_models(p.0@),
                p.1 as int,
            )) && p.1 <= data@.len() && forall|i: int|
                0 <= i < p.0@.len() ==> (#[trigger] p.0@[i]).name@.len() == 8,
            Err(e) => spec_read_symbols(data@, pos as int, total as int) matches Err(k)
                && err_matches(e, k),
        },
{
    let mut out: Vec<SymEntry> = Vec::new();
    let mut p = pos;
    let mut ii: u64 = 0;
    while ii < total as u64
        invariant
            ii <= total as u64 + 255,
            p <= data@.len(),
            forall|j: int| 0 <= j < out@.len() ==> (#[trigger] out@[j]).name@.len() == 8,
            spec_read_symbols(data@, pos as int, total as int) == comb_syms(
                sym_models(out@),
                spec_read_symbols(data@, p as int, total as int - ii as int),
            ),
        decreases total as int + 256 - ii as int,
    {
        let (name, p1) = match want_bytes(data, p, 8, "name") {
            Ok(v) => v,
            Err(e) => {
                return Err(e);
            },
        };
        let (value, p2) = match want_u32(data, p1, "value") {
            Ok(v) => v,
            Err(e) => {
                return Err(e);
            },
        };
        let (_num, p3) = match want_u16(data, p2, "num") {
            Ok(v) => v,
            Err(e) => {
                return Err(e);
            },
        };
        let (typ, p4) = match want_u16(data, p3, "typ") {
            Ok(v) => v,
            Err(e) => {
                return Err(e);
            },
        };
        let (class, p5) = match want_u8(data, p4, "class") {
            Ok(v) => v,
            Err(e) => {
                return Err(e);
            },
        };
        let (aux_n, p6) = match want_u8(data, p5, "aux") {
            Ok(v) => v,
            Err(e) => {
                return Err(e);
            },
        };
        let (aux, p7) = match want_bytes(data, p6, (aux_n as usize) * 18, "symbol aux data") {
            Ok(v) => v,
            Err(e) => {
                return Err(e);
            },
        };
        let e = SymEntry { name, value, typ, class, aux };
        proof {
            let rem = total as int - ii as int;
            let n2 = if rem - 1 - (aux_n as int) >= 0 {
                rem - 1 - (aux_n as int)
            } else {
                0
            };
            let r2 = spec_read_symbols(data@, p7 as int, n2);
            assert(sym_models(out@.push(e)) =~= sym_models(out@).push(e.model()));
            if r2 is Ok {
                assert(sym_models(out@) + (seq![e.model()] + r2->Ok_0.0) =~= sym_models(out@).push(
                    e.model(),
                ) + r2->Ok_0.0);
            }
            assert(spec_read_symbols(data@, p7 as int, rem - 1 - (aux_n as int)) == r2);
        }
        out.push(e);
        p = p7;
        ii = ii + 1 + aux_n as u64;
    }
    proof {
        assert(sym_models(out@) + Seq::<SymModel>::empty() =~= sym_models(out@));
    }
    Ok((out, p))
}

/// Read the string-table size and the table itself, stored behind four
/// placeholder bytes so that name offsets index it directly.
fn read_string_table(data: &[u8], pos: usize) -> (r: Result<(Vec<u8>, usize), Error>)
    requires
        pos <= data@.len(),
    ensures
        match r {
            Ok(p) => has(data@, pos as int, 4) && has(
                data@,
                pos as int + 4,
                le32(data@, pos as int) as int,
            ) && p.0@ == seq![0u8, 0u8, 0u8, 0u8] + data@.subrange(
                pos + 4,
                pos + 4 + le32(data@, pos as int) as int,
            ) && p.1 == pos + 4 + le32(data@, pos as int) as int && p.1 <= data@.len(),
            Err(e) => if !(has(data@, pos as int, 4)) {
                e matches Error::Consume(t) && t@ == "string table size"@
            } else {
                &&& !(has(data@, pos as int + 4, le32(data@, pos as int) as int))
                &&& e matches Error::Consume(t) && t@ == "string table"@
            },
        },
{
    let (sz, p1) = match want_u32(data, pos, "string table size") {
        Ok(v) => v,
        Err(e) => {
            return Err(e);
        },
    };
    let szu = sz as usize;
    let dlen = data.len();
    if szu <= dlen - p1 {
        let mut t: Vec<u8> = Vec::new();
        t.push(0);
        t.push(0);
        t.push(0);
        t.push(0);
        proof {
            assert(t@ =~= seq![0u8, 0u8, 0u8, 0u8] + data@.subrange(p1 as int, p1 as int));
        }
        let mut q: usize = 0;
        while q < szu
            invariant
                q <= szu,
                p1 + szu <= dlen,
                dlen == data@.len(),
                t@ == seq![0u8, 0u8, 0u8, 0u8] + data@.subrange(p1 as int, p1 + q),
            decreases szu - q,
        {
            t.push(data[p1 + q]);
            proof {
                assert(t@ =~= seq![0u8, 0u8, 0u8, 0u8] + data@.subrange(p1 as int, p1 + q + 1));
            }
            q += 1;
        }
        Ok((t, p1 + szu))
    } else {
        Err(Error::Consume("string table"))
    }
}

/// Check every symbol before anything is written: resolve all names,
/// refuse unknown storage classes and garbled filenames.  On success the
/// walk over these symbols cannot fail any more.
fn check_symbols(syms: &Vec<SymEntry>, table: &Vec<u8>) -> (r: Result<Vec<String>, Error>)
    requires
        forall|i: int| 0 <= i < syms@.len() ==> (#[trigger] syms@[i]).name@.len() == 8,
    ensures
        match r {
            Ok(names) => first_sym_err(sym_models(syms@), table@) is None && names@.len()
                == syms@.len() && forall|i: int|
                0 <= i < syms@.len() ==> spec_resolve_name(
                    sym_models(syms@)[i].name,
                    table@,
                ) == Ok::<Seq<char>, GhostErr>((#[trigger] names@[i])@),
            Err(e) => first_sym_err(sym_models(syms@), table@) matches Some(k) && err_matches(e, k),
        },
{
    let n = syms.len();
    let mut names: Vec<String> = Vec::new();
    let mut i: usize = 0;
    while i < n
        invariant
            i <= n,
            n == syms@.len(),
            names@.len() == i,
            forall|j: int| 0 <= j < syms@.len() ==> (#[trigger] syms@[j]).name@.len() == 8,
            forall|j: int|
                0 <= j < i ==> #[trigger] sym_err(sym_models(syms@)[j], table@) is None,
            forall|j: int|
                0 <= j < i ==> spec_resolve_name(sym_models(syms@)[j].name, table@) == Ok::<
                    Seq<char>,
                    GhostErr,
                >((#[trigger] names@[j])@),
        decreases n - i,
    {
        let ghost ms = sym_models(syms@);
        proof {
            lemma_first_sym_err_skip(ms, table@, i as int);
            assert(ms.skip(i as int)[0] == ms[i as int]);
        }
        let e = &syms[i];
        let nm = match resolve_name(&e.name, table) {
            Ok(v) => v,
            Err(err) => {
                return Err(err);
            },
        };
        if e.class == 2 || e.class == 3 || e.class == 105 {
            names.push(nm);
        } else if e.class == 103 {
            let fb = bytes_until_null(&e.aux, 0);
            match utf8_to_string(fb.as_slice()) {
                Some(_) => {
                    names.push(nm);
                },
                None => {
                    return Err(Error::FilenameUtf8);
                },
            }
        } else {
            return Err(Error::UnknownSymbolClass(e.class));
        }
        proof {
            assert(sym_err(ms[i as int], table@) is None);
        }
        i += 1;
    }
    proof {
        lemma_first_sym_err_skip(sym_models(syms@), table@, n as int);
        assert(sym_models(syms@).skip(n as int) =~= Seq::<SymModel>::empty());
    }
    Ok(names)
}

/// Write every sorted line record inside `[start, start + slen)` into the
/// line table, attributed to `file`.  The records below the range are
/// stepped over by a binary search; the scan stops at the first record
/// past it.
fn correlate(
    map: &mut RvaMap<(String, u32)>,
    lines: &Vec<LineRec>,
    file: &String,
    start: u32,
    slen: u32,
)
    requires
        lines_sorted(lines@),
    ensures
        final(map).seq() == spec_correlate(
            old(map).seq(),
            lines@,
            file@,
            start,
            start as int + slen as int,
        ),
{
    let end: u64 = start as u64 + slen as u64;
    let ghost gend: int = start as int + slen as int;
    let n = lines.len();
    let mut lo: usize = 0;
    let mut hi: usize = n;
    while lo < hi
        invariant
            lo <= hi <= n,
            n == lines@.len(),
            lines_sorted(lines@),
            forall|j: int| 0 <= j < lo ==> lines@[j].addr < start,
            forall|j: int| hi <= j < n ==> lines@[j].addr >= start,
        decreases hi - lo,
    {
        let mid = lo + (hi - lo) / 2;
        if lines[mid].addr < start {
            proof {
                assert forall|j: int| 0 <= j < mid + 1 implies lines@[j].addr < start by {
                    if j < mid {
                        assert(lines@[j].addr <= lines@[mid as int].addr);
                    }
                }
            }
            lo = mid + 1;
        } else {
            proof {
                assert forall|j: int| mid <= j < n implies lines@[j].addr >= start by {
                    if j > mid {
                        assert(lines@[mid as int].addr <= lines@[j].addr);
                    }
                }
            }
            hi = mid;
        }
    }
    let ghost m0 = map.seq();
    proof {
        lemma_correlate_skip_front(m0, lines@, file@, start, gend, lo as int);
    }
    let mut i = lo;
    while i < n && (lines[i].addr as u64) < end
        invariant
            lo <= i <= n,
            n == lines@.len(),
            lines_sorted(lines@),
            end == start as u64 + slen as u64,
            gend == start as int + slen as int,
            forall|j: int| lo <= j < n ==> (#[trigger] lines@[j]).addr >= start,
            spec_correlate(map.seq(), lines@.skip(i as int), file@, start, gend) == spec_correlate(
                m0,
                lines@.skip(lo as int),
                file@,
                start,
                gend,
            ),
        decreases n - i,
    {
        let l = lines[i];
        proof {
            assert(lines@.skip(i as int)[0] == l);
            assert(lines@[i as int].addr >= start);
            assert(start <= l.addr && (l.addr as int) < gend);
            assert(lines@.skip(i as int).skip(1) =~= lines@.skip(i as int + 1));
        }
        map.put(l.addr, (file.clone(), l.line as u32));
        i += 1;
    }
    proof {
        if i < n {
            assert forall|j: int| 0 <= j < lines@.skip(i as int).len() implies lines@.skip(
                i as int,
            )[j].addr as int >= gend by {
                assert(lines@[i as int].addr <= lines@.skip(i as int)[j].addr);
            }
            lemma_correlate_none(map.seq(), lines@.skip(i as int), file@, start, gend);
        } else {
            assert(lines@.skip(n as int) =~= Seq::<LineRec>::empty());
        }
    }
}

/// The current-file cursor as the model sees it.
pub open spec fn opt_view(c: Option<String>) -> Option<Seq<char>> {
    match c {
        None => None,
        Some(f) => Some(f@),
    }
}

/// The decoded tables of one separate-debug-info image: RVA to function
/// name, RVA to global name, and RVA to source file and line.
pub struct DbgFile {
    /// Mapping from RVA to (filename, line number).
    pub addr_to_line: RvaMap<(String, u32)>,
    /// Mapping from RVA to function name.
    pub functions: RvaMap<String>,
    /// Mapping from RVA to global name.
    pub globals: RvaMap<String>,
}

impl DbgFile {
    /// The three tables as the model sees them.
    pub open spec fn model(self) -> Tables {
        Tables {
            functions: self.functions.seq(),
            globals: self.globals.seq(),
            lines: self.addr_to_line.seq(),
        }
    }

    /// Empty tables.
    pub fn new() -> (r: DbgFile)
        ensures
            r.model() == Tables::empty(),
    {
        DbgFile {
            addr_to_line: RvaMap::new(),
            functions: RvaMap::new(),
            globals: RvaMap::new(),
        }
    }

    /// Walk the checked symbols in table order and fill the tables, as
    /// the model's symbol walk says.  The caller has checked the walk
    /// cannot fail.
    fn commit_symbols(
        &mut self,
        syms: &Vec<SymEntry>,
        names: &Vec<String>,
        lines: &Vec<LineRec>,
        Ghost(table): Ghost<Seq<u8>>,
    )
        requires
            first_sym_err(sym_models(syms@), table) is None,
            names@.len() == syms@.len(),
            forall|i: int|
                0 <= i < syms@.len() ==> spec_resolve_name(sym_models(syms@)[i].name, table)
                    == Ok::<Seq<char>, GhostErr>((#[trigger] names@[i])@),
            lines_sorted(lines@),
        ensures
            spec_interpret(sym_models(syms@), old(self).model(), None, lines@, table) == Ok::<
                Tables,
                GhostErr,
            >(final(self).model()),
    {
        proof {
            lemma_first_sym_err_none(sym_models(syms@), table);
            assert(sym_models(syms@).skip(0) =~= sym_models(syms@));
        }
        let n = syms.len();
        let mut cur_file: Option<String> = None;
        let mut i: usize = 0;
        while i < n
            invariant
                i <= n,
                n == syms@.len(),
                names@.len() == n,
                lines_sorted(lines@),
                forall|j: int|
                    0 <= j < n ==> #[trigger] sym_err(sym_models(syms@)[j], table) is None,
                forall|j: int|
                    0 <= j < n ==> spec_resolve_name(sym_models(syms@)[j].name, table) == Ok::<
                        Seq<char>,
                        GhostErr,
                    >((#[trigger] names@[j])@),
                spec_interpret(
                    sym_models(syms@).skip(i as int),
                    self.model(),
                    opt_view(cur_file),
                    lines@,
                    table,
                ) == spec_interpret(sym_models(syms@), old(self).model(), None, lines@, table),
            decreases n - i,
        {
            let ghost ms = sym_models(syms@);
            proof {
                assert(ms.skip(i as int)[0] == ms[i as int]);
                assert(ms.skip(i as int).skip(1) =~= ms.skip(i as int + 1));
                assert(sym_err(ms[i as int], table) is None);
            }
            let e = &syms[i];
            if e.class == 2 || e.class == 3 || e.class == 105 {
                let nm = names[i].clone();
                if e.typ == 0x20 {
                    self.functions.put(e.value, nm);
                } else {
                    self.globals.put(e.value, nm);
                }
                if e.class == 3 && e.aux.len() >= 4 {
                    match &cur_file {
                        Some(f) => {
                            let slen: u32 = e.aux[0] as u32 + (e.aux[1] as u32) * 0x100 + (
                            e.aux[2] as u32) * 0x10000 + (e.aux[3] as u32) * 0x1000000;
                            proof {
                                assert(slen == le32(e.aux@, 0));
                            }
                            correlate(&mut self.addr_to_line, lines, f, e.value, slen);
                        },
                        None => {},
                    }
                }
            } else {
                proof {
                    assert(e.class == 103);
                }
                let fb = bytes_until_null(&e.aux, 0);
                match utf8_to_string(fb.as_slice()) {
                    Some(f) => {
                        cur_file = Some(f);
                    },
                    None => {
                        proof {
                            assert(false);
                        }
                    },
                }
            }
            i += 1;
        }
        proof {
            assert(sym_models(syms@).skip(n as int) =~= Seq::<SymModel>::empty());
        }
    }

    /// Decode one COFF debug block at `coff_offset` and merge its
    /// findings into the tables.  On failure nothing is merged: entries
    /// committed by earlier blocks stay as they were.  The byte slice
    /// itself is only read, so the caller's own position in it is
    /// untouched.
    pub fn parse_coff(&mut self, data: &[u8], coff_offset: u64) -> (r: Result<(), Error>)
        ensures
            match r {
                Ok(_) => spec_parse_coff(data@, old(self).model(), coff_offset as int) == Ok::<
                    Tables,
                    GhostErr,
                >(final(self).model()),
                Err(e) => spec_parse_coff(data@, old(self).model(), coff_offset as int) matches Err(
                    k,
                ) && err_matches(e, k) && final(self).model() == old(self).model(),
            },
    {
        let pos: usize = if coff_offset <= data.len() as u64 {
            coff_offset as usize
        } else {
            data.len()
        };
        let (num_symbols, p1) = match want_u32(data, pos, "num_symbols") {
            Ok(v) => v,
            Err(e) => {
                return Err(e);
            },
        };
        let (_lva_first_symbol, p2) = match want_u32(data, p1, "lva_first_symbol") {
            Ok(v) => v,
            Err(e) => {
                return Err(e);
            },
        };
        let (num_line_nums, p3) = match want_u32(data, p2, "num_line_nums") {
            Ok(v) => v,
            Err(e) => {
                return Err(e);
            },
        };
        let (_lva_first_line, p4) = match want_u32(data, p3, "lva_first_line") {
            Ok(v) => v,
            Err(e) => {
                return Err(e);
            },
        };
        let (_rva_first_code, p5) = match want_u32(data, p4, "rva_first_code") {
            Ok(v) => v,
            Err(e) => {
                return Err(e);
            },
        };
        let (_rva_last_code, p6) = match want_u32(data, p5, "rva_last_code") {
            Ok(v) => v,
            Err(e) => {
                return Err(e);
            },
        };
        let (_rva_first_data, p7) = match want_u32(data, p6, "rva_first_data") {
            Ok(v) => v,
            Err(e) => {
                return Err(e);
            },
        };
        let (_rva_last_data, p8) = match want_u32(data, p7, "rva_last_data") {
            Ok(v) => v,
            Err(e) => {
                return Err(e);
            },
        };
        let (raw_lines, p9) = match read_lines(data, p8, num_line_nums) {
            Ok(v) => v,
            Err(e) => {
                return Err(e);
            },
        };
        let lines = sort_lines(&raw_lines);
        let (syms, p10) = match read_symbols(data, p9, num_symbols) {
            Ok(v) => v,
            Err(e) => {
                return Err(e);
            },
        };
        let (table, _p11) = match read_string_table(data, p10) {
            Ok(v) => v,
            Err(e) => {
                return Err(e);
            },
        };
        let names = match check_symbols(&syms, &table) {
            Ok(v) => v,
            Err(e) => {
                proof {
                    lemma_interpret_err(
                        sym_models(syms@),
                        old(self).model(),
                        None,
                        lines@,
                        table@,
                    );
                }
                return Err(e);
            },
        };
        proof {
            lemma_interpret_err(sym_models(syms@), old(self).model(), None, lines@, table@);
        }
        self.commit_symbols(&syms, &names, &lines, Ghost(table@));
        Ok(())
    }

    /// Decode a whole separate-debug-info image from its first byte:
    /// check the `DI` magic, walk the header, the section headers and
    /// the debug directory, and decode every COFF-tagged entry.
    pub fn load(data: &[u8]) -> (r: Result<DbgFile, Error>)
        ensures
            match r {
                Ok(d) => spec_load(data@) == Ok::<Tables, GhostErr>(d.model()),
                Err(e) => spec_load(data@) matches Err(k) && err_matches(e, k),
            },
    {
        let (magic, p0) = match want_bytes(data, 0, 2, "header") {
            Ok(v) => v,
            Err(e) => {
                return Err(e);
            },
        };
        proof {
            assert(magic@[0] == data@[0] && magic@[1] == data@[1]);
        }
        if !(magic[0] == 0x44 && magic[1] == 0x49) {
            return Err(Error::NotDebugInfo);
        }
        let (_flags, h1) = match want_u16(data, p0, "flags") {
            Ok(v) => v,
            Err(e) => {
                return Err(e);
            },
        };
        let (_machine, h2) = match want_u16(data, h1, "machine") {
            Ok(v) => v,
            Err(e) => {
                return Err(e);
            },
        };
        let (_characteristics, h3) = match want_u16(data, h2, "characteristics") {
            Ok(v) => v,
            Err(e) => {
                return Err(e);
            },
        };
        let (_timedatestamp, h4) = match want_u32(data, h3, "timedatestamp") {
            Ok(v) => v,
            Err(e) => {
                return Err(e);
            },
        };
        let (_checksum, h5) = match want_u32(data, h4, "checksum") {
            Ok(v) => v,
            Err(e) => {
                return Err(e);
            },
        };
        let (_image_base, h6) = match want_u32(data, h5, "image base") {
            Ok(v) => v,
            Err(e) => {
                return Err(e);
            },
        };
        let (_size_of_image, h7) = match want_u32(data, h6, "size of image") {
            Ok(v) => v,
            Err(e) => {
                return Err(e);
            },
        };
        let (num_sections, h8) = match want_u32(data, h7, "number of sections") {
            Ok(v) => v,
            Err(e) => {
                return Err(e);
            },
        };
        let (exported_namesz, h9) = match want_u32(data, h8, "exported names size") {
            Ok(v) => v,
            Err(e) => {
                return Err(e);
            },
        };
        let (debug_dirsz, h10) = match want_u32(data, h9, "debug directory size") {
            Ok(v) => v,
            Err(e) => {
                return Err(e);
            },
        };
        let (_section_align, h11) = match want_u32(data, h10, "section alignment") {
            Ok(v) => v,
            Err(e) => {
                return Err(e);
            },
        };
        let h12 = match want_skip(data, h11, 8, "reserved") {
            Ok(v) => v,
            Err(e) => {
                return Err(e);
            },
        };
        let mut pos = h12;
        let mut i: u32 = 0;
        while i < num_sections
            invariant
                i <= num_sections,
                pos <= data@.len(),
                spec_load(data@) == match spec_skip_sections(
                    data@,
                    pos as int,
                    num_sections - i,
                ) {
                    Err(e0) => Err(e0),
                    Ok(p1) => spec_read_dirs(
                        data@,
                        spec_skip(data@, p1, exported_namesz as int),
                        debug_dirsz as int / 28,
                        Tables::empty(),
                    ),
                },
            decreases num_sections - i,
        {
            pos = match want_skip(data, pos, 8, "name") {
                Ok(v) => v,
                Err(e) => {
                    return Err(e);
                },
            };
            pos = match want_skip(data, pos, 4, "vsize") {
                Ok(v) => v,
                Err(e) => {
                    return Err(e);
                },
            };
            pos = match want_skip(data, pos, 4, "vaddr") {
                Ok(v) => v,
                Err(e) => {
                    return Err(e);
                },
            };
            pos = match want_skip(data, pos, 4, "raw_data_sz") {
                Ok(v) => v,
                Err(e) => {
                    return Err(e);
                },
            };
            pos = match want_skip(data, pos, 4, "ptr_raw_data") {
                Ok(v) => v,
                Err(e) => {
                    return Err(e);
                },
            };
            pos = match want_skip(data, pos, 4, "ptr_relocation") {
                Ok(v) => v,
                Err(e) => {
                    return Err(e);
                },
            };
            pos = match want_skip(data, pos, 4, "ptr_line_num") {
                Ok(v) => v,
                Err(e) => {
                    return Err(e);
                },
            };
            pos = match want_skip(data, pos, 2, "num_relocs") {
                Ok(v) => v,
                Err(e) => {
                    return Err(e);
                },
            };
            pos = match want_skip(data, pos, 2, "num_line_num") {
                Ok(v) => v,
                Err(e) => {
                    return Err(e);
                },
            };
            pos = match want_skip(data, pos, 4, "characteristics") {
                Ok(v) => v,
                Err(e) => {
                    return Err(e);
                },
            };
            i += 1;
        }
        let pos2 = skip_clamped(data, pos, exported_namesz as usize);
        let count: usize = (debug_dirsz as usize) / 28;
        let mut ret = DbgFile::new();
        let mut k: usize = 0;
        let mut dpos = pos2;
        while k < count
            invariant
                k <= count,
                dpos <= data@.len(),
                spec_load(data@) == spec_read_dirs(
                    data@,
                    dpos as int,
                    count as int - k as int,
                    ret.model(),
                ),
            decreases count - k,
        {
            let (_characteristics, q1) = match want_u32(data, dpos, "characteristics") {
                Ok(v) => v,
                Err(e) => {
                    return Err(e);
                },
            };
            let (_timedatestamp, q2) = match want_u32(data, q1, "timedatestamp") {
                Ok(v) => v,
                Err(e) => {
                    return Err(e);
                },
            };
            let (_major_version, q3) = match want_u16(data, q2, "major_version") {
                Ok(v) => v,
                Err(e) => {
                    return Err(e);
                },
            };
            let (_minor_version, q4) = match want_u16(data, q3, "minor_version") {
                Ok(v) => v,
                Err(e) => {
                    return Err(e);
                },
            };
            let (tv, q5) = match want_u32(data, q4, "typ") {
                Ok(v) => v,
                Err(e) => {
                    return Err(e);
                },
            };
            let typ = match DebugType::try_from(tv) {
                Ok(v) => v,
                Err(e) => {
                    return Err(e);
                },
            };
            let (_size_of_data, q6) = match want_u32(data, q5, "size_of_data") {
                Ok(v) => v,
                Err(e) => {
                    return Err(e);
                },
            };
            let (_addr_raw_data, q7) = match want_u32(data, q6, "addr_raw_data") {
                Ok(v) => v,
                Err(e) => {
                    return Err(e);
                },
            };
            let (ptr_raw_data, q8) = match want_u32(data, q7, "ptr_raw_data") {
                Ok(v) => v,
                Err(e) => {
                    return Err(e);
                },
            };
            if typ == DebugType::Coff {
                match ret.parse_coff(data, ptr_raw_data as u64) {
                    Ok(_) => {},
                    Err(e) => {
                        return Err(e);
                    },
                }
            }
            dpos = q8;
            k += 1;
        }
        Ok(ret)
    }
}

impl Default for DbgFile {
    /// Empty tables.
    fn default() -> (r: DbgFile)
        ensures
            r.model() == Tables::empty(),
    {
        DbgFile::new()
    }
}

} // verus!

