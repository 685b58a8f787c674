//! Parsers for the output of `df -P` and `ps`.

use vstd::prelude::*;
use crate::text::{
    split_on, fields, pieces, bounds_within, chars_of, split_bounds, field_bounds, string_of,
    parse_unsigned, parse_signed, parse_u64, parse_i32, push_range, push_char,
};

verus! {

/// `s` without its trailing `%` signs (`trim_end_matches('%')`).
pub open spec fn strip_percent(s: Seq<char>) -> Seq<char>
    decreases s.len(),
{
    if s.len() > 0 && s.last() == '%' {
        strip_percent(s.drop_last())
    } else {
        s
    }
}

/// The whitespace-separated fields of the first data line (the second line)
/// of `df -P` output, if there is one.
pub open spec fn df_data_fields(text: Seq<char>) -> Option<Seq<Seq<char>>> {
    let lines = split_on(text, '\n');
    if lines.len() >= 2 {
        Some(fields(lines[1]))
    } else {
        None
    }
}

/// The use percent in `df -P` output: the fifth field of the data line,
/// without its `%`, as a number from 0 to 255.
pub open spec fn df_use_percent(text: Seq<char>) -> Option<u8> {
    match df_data_fields(text) {
        Some(f) => if f.len() >= 5 {
            match parse_unsigned(strip_percent(f[4])) {
                Some(v) => if v <= 255 {
                    Some(v as u8)
                } else {
                    None
                },
                None => None,
            }
        } else {
            None
        },
        None => None,
    }
}

/// Bounds of the fields of the data line of `df -P` output.
fn df_fields(t: &Vec<char>) -> (r: Option<Vec<(usize, usize)>>)
    ensures
        r is Some <==> df_data_fields(t@) is Some,
        r matches Some(b) ==> bounds_within(b@, 0, t@.len() as int) && pieces(t@, b@)
            == df_data_fields(t@)->0,
{
    let lines = split_bounds(t, 0, t.len(), '\n');
    assert(t@.subrange(0, t@.len() as int) =~= t@);
    if lines.len() < 2 {
        return None;
    }
    let (lo, hi) = lines[1];
    assert(pieces(t@, lines@)[1] == t@.subrange(lo as int, hi as int));
    let b = field_bounds(t, lo, hi);
    Some(b)
}

fn strip_percent_end(t: &Vec<char>, lo: usize, hi: usize) -> (e: usize)
    requires
        lo <= hi <= t.len(),
    ensures
        lo <= e <= hi,
        t@.subrange(lo as int, e as int) == strip_percent(t@.subrange(lo as int, hi as int)),
{
    let mut e = hi;
    while e > lo && t[e - 1] == '%'
        invariant
            lo <= e <= hi <= t.len(),
            strip_percent(t@.subrange(lo as int, e as int)) == strip_percent(t@.subrange(
                lo as int,
                hi as int,
            )),
        decreases e - lo,
    {
        assert(t@.subrange(lo as int, e as int).drop_last() =~= t@.subrange(lo as int, e - 1));
        e = e - 1;
    }
    e
}

/// The disk use percent from `df -P` output (`Capacity` column of the first
/// data line).
pub fn parse_df_use_percent(text: &str) -> (r: Option<u8>)
    ensures
        r == df_use_percent(text@),
{
    let t = chars_of(text);
    let fs = match df_fields(&t) {
        Some(b) => b,
        None => return None,
    };
    let ghost f = pieces(t@, fs@);
    if fs.len() < 5 {
        return None;
    }
    let (lo, hi) = fs[4];
    assert(f[4] == t@.subrange(lo as int, hi as int));
    let e = strip_percent_end(&t, lo, hi);
    match parse_u64(&t, lo, e) {
        Some(v) => if v <= 255 {
            Some(v as u8)
        } else {
            None
        },
        None => None,
    }
}

/// Sizes from the data line of `df -P` output, in bytes.
#[derive(Debug, Clone, Copy, PartialEq, Eq)]
pub struct DfDetails {
    pub total_bytes: u64,
    pub used_bytes: u64,
    pub avail_bytes: u64,
    pub use_percent: u8,
}

/// A count of 1024-byte blocks in bytes, if it fits.
pub open spec fn blocks_bytes(f: Seq<char>) -> Option<u64> {
    match parse_unsigned(f) {
        Some(v) => if v * 1024 <= u64::MAX {
            Some((v * 1024) as u64)
        } else {
            None
        },
        None => None,
    }
}

/// Total, used and available bytes (the 1024-byte block columns) and the
/// use percent of the first data line of `df -P` output.
pub open spec fn df_details(text: Seq<char>) -> Option<DfDetails> {
    match df_data_fields(text) {
        Some(f) => if f.len() >= 5 && blocks_bytes(f[1]) is Some && blocks_bytes(f[2]) is Some
            && blocks_bytes(f[3]) is Some && df_use_percent(text) is Some {
            Some(
                DfDetails {
                    total_bytes: blocks_bytes(f[1])->0,
                    used_bytes: blocks_bytes(f[2])->0,
                    avail_bytes: blocks_bytes(f[3])->0,
                    use_percent: df_use_percent(text)->0,
                },
            )
        } else {
            None
        },
        None => None,
    }
}

/// Each size is 1024 times its own column of the first data line: the
/// total the second field (1024-blocks), the used bytes the third (Used),
/// the free bytes the fourth (Available), whatever the other columns hold;
/// the use percent is the fifth (Capacity) without its `%`. The details
/// are there whenever those five fields are there and fit.
pub proof fn lemma_df_details_columns(text: Seq<char>)
    ensures
        df_details(text) matches Some(d) ==> {
            let f = df_data_fields(text)->0;
            &&& df_data_fields(text) is Some
            &&& f.len() >= 5
            &&& parse_unsigned(f[1]) is Some && d.total_bytes == 1024 * parse_unsigned(f[1])->0
            &&& parse_unsigned(f[2]) is Some && d.used_bytes == 1024 * parse_unsigned(f[2])->0
            &&& parse_unsigned(f[3]) is Some && d.avail_bytes == 1024 * parse_unsigned(f[3])->0
            &&& parse_unsigned(strip_percent(f[4])) == Some(d.use_percent as nat)
        },
        ({
            let f = df_data_fields(text)->0;
            &&& df_data_fields(text) is Some
            &&& f.len() >= 5
            &&& parse_unsigned(f[1]) is Some && parse_unsigned(f[1])->0 * 1024 <= u64::MAX
            &&& parse_unsigned(f[2]) is Some && parse_unsigned(f[2])->0 * 1024 <= u64::MAX
            &&& parse_unsigned(f[3]) is Some && parse_unsigned(f[3])->0 * 1024 <= u64::MAX
            &&& parse_unsigned(strip_percent(f[4])) is Some
            &&& parse_unsigned(strip_percent(f[4]))->0 <= 255
        }) ==> df_details(text) is Some,
{
}

/// Two outputs whose data lines agree on the Available column and parse in
/// full report the same free bytes, whatever their total and used columns.
pub proof fn lemma_df_avail_ignores_other_columns(t1: Seq<char>, t2: Seq<char>)
    requires
        df_details(t1) is Some,
        df_details(t2) is Some,
        df_data_fields(t1)->0[3] == df_data_fields(t2)->0[3],
    ensures
        df_details(t1)->0.avail_bytes == df_details(t2)->0.avail_bytes,
{
    lemma_df_details_columns(t1);
    lemma_df_details_columns(t2);
}

fn blocks_to_bytes(t: &Vec<char>, lo: usize, hi: usize) -> (r: Option<u64>)
    requires
        lo <= hi <= t.len(),
    ensures
        r == blocks_bytes(t@.subrange(lo as int, hi as int)),
{
    match parse_u64(t, lo, hi) {
        Some(v) => v.checked_mul(1024),
        None => None,
    }
}

/// Total, used and available bytes and the use percent from `df -P`
/// output; `None` unless every one of them parses.
pub fn parse_df_details(text: &str) -> (r: Option<DfDetails>)
    ensures
        r == df_details(text@),
{
    let pct = parse_df_use_percent(text);
    let t = chars_of(text);
    let fs = match df_fields(&t) {
        Some(b) => b,
        None => return None,
    };
    let ghost f = pieces(t@, fs@);
    if fs.len() < 5 {
        return None;
    }
    let (a0, a1) = fs[1];
    let (b0, b1) = fs[2];
    let (c0, c1) = fs[3];
    assert(f[1] == t@.subrange(a0 as int, a1 as int));
    assert(f[2] == t@.subrange(b0 as int, b1 as int));
    assert(f[3] == t@.subrange(c0 as int, c1 as int));
    let total = blocks_to_bytes(&t, a0, a1);
    let used = blocks_to_bytes(&t, b0, b1);
    let avail = blocks_to_bytes(&t, c0, c1);
    match (total, used, avail, pct) {
        (Some(total_bytes), Some(used_bytes), Some(avail_bytes), Some(use_percent)) => Some(
            DfDetails { total_bytes, used_bytes, avail_bytes, use_percent },
        ),
        _ => None,
    }
}

} // verus!

verus! {

/// One process line of `ps -eo pid,ppid,%cpu,rss,nice,comm,args`-style
/// output. The CPU share is kept as written (a decimal such as `75.0`).
#[derive(Debug, Clone)]
pub struct ProcessRow {
    pub pid: i32,
    pub ppid: i32,
    pub cpu_percent_text: String,
    pub rss_mb: u64,
    pub nice: i32,
    pub command: String,
    pub args: String,
}

/// The fields joined with single spaces.
pub open spec fn joined(fs: Seq<Seq<char>>) -> Seq<char>
    decreases fs.len(),
{
    if fs.len() == 0 {
        Seq::empty()
    } else if fs.len() == 1 {
        fs[0]
    } else {
        joined(fs.drop_last()) + seq![' '] + fs.last()
    }
}

pub open spec fn fits_i32(p: Option<int>) -> bool {
    p matches Some(v) && i32::MIN <= v <= i32::MAX
}

/// The fields of a line make a process row: at least six, with numeric
/// pid, parent pid, resident size (KiB) and nice value.
pub open spec fn row_parses(f: Seq<Seq<char>>) -> bool {
    &&& f.len() >= 6
    &&& fits_i32(parse_signed(f[0]))
    &&& fits_i32(parse_signed(f[1]))
    &&& parse_unsigned(f[3]) matches Some(v) && v <= u64::MAX
    &&& fits_i32(parse_signed(f[4]))
}

/// `r` is the row that the fields `f` describe.
pub open spec fn row_of(r: ProcessRow, f: Seq<Seq<char>>) -> bool {
    &&& r.pid == parse_signed(f[0])->0
    &&& r.ppid == parse_signed(f[1])->0
    &&& r.cpu_percent_text@ == f[2]
    &&& r.rss_mb == parse_unsigned(f[3])->0 / 1024
    &&& r.nice == parse_signed(f[4])->0
    &&& r.command@ == f[5]
    &&& r.args@ == joined(f.skip(6))
}

/// The fields of each line that makes a process row, in order; other lines
/// (headers, blank or malformed lines) are skipped.
pub open spec fn process_lines(lines: Seq<Seq<char>>) -> Seq<Seq<Seq<char>>>
    decreases lines.len(),
{
    if lines.len() == 0 {
        Seq::empty()
    } else {
        let p = process_lines(lines.drop_last());
        let f = fields(lines.last());
        if row_parses(f) {
            p.push(f)
        } else {
            p
        }
    }
}

fn joined_fields(t: &Vec<char>, fs: &Vec<(usize, usize)>, from: usize) -> (r: String)
    requires
        from <= fs.len(),
        bounds_within(fs@, 0, t@.len() as int),
    ensures
        r@ == joined(pieces(t@, fs@).skip(from as int)),
{
    let ghost ps = pieces(t@, fs@);
    let mut r = String::new();
    let mut i = from;
    assert(ps.skip(from as int).take(0) =~= Seq::<Seq<char>>::empty());
    while i < fs.len()
        invariant
            from <= i <= fs.len(),
            bounds_within(fs@, 0, t@.len() as int),
            ps == pieces(t@, fs@),
            r@ == joined(ps.skip(from as int).take(i - from)),
        decreases fs.len() - i,
    {
        let (lo, hi) = fs[i];
        let ghost q = ps.skip(from as int).take(i + 1 - from);
        assert(q.drop_last() =~= ps.skip(from as int).take(i - from));
        assert(q.last() == t@.subrange(lo as int, hi as int));
        if i > from {
            push_char(&mut r, ' ');
        } else {
            assert(r@ =~= Seq::<char>::empty());
        }
        push_range(&mut r, t, lo, hi);
        if i > from {
            assert(r@ =~= joined(q.drop_last()) + seq![' '] + q.last());
        } else {
            assert(q.len() == 1);
            assert(r@ =~= q[0]);
        }
        i = i + 1;
    }
    assert(ps.skip(from as int).take(fs.len() - from) =~= ps.skip(from as int));
    r
}

/// The process rows of `ps` output, one per line that has at least six
/// fields with numeric pid, parent pid, resident size and nice value. The
/// resident size is converted from KiB to MiB (rounded down); everything
/// after the sixth field is the argument list.
pub fn parse_ps_output(text: &str) -> (rows: Vec<ProcessRow>)
    ensures
        rows@.len() == process_lines(split_on(text@, '\n')).len(),
        forall|i: int|
            0 <= i < rows@.len() ==> row_of(
                #[trigger] rows@[i],
                process_lines(split_on(text@, '\n'))[i],
            ),
{
    let t = chars_of(text);
    let lines = split_bounds(&t, 0, t.len(), '\n');
    assert(t@.subrange(0, t@.len() as int) =~= t@);
    let ghost ls = pieces(t@, lines@);
    let mut rows: Vec<ProcessRow> = Vec::new();
    let mut i: usize = 0;
    assert(ls.take(0) =~= Seq::<Seq<char>>::empty());
    while i < lines.len()
        invariant
            0 <= i <= lines.len(),
            bounds_within(lines@, 0, t@.len() as int),
            ls == pieces(t@, lines@),
            ls == split_on(text@, '\n'),
            rows@.len() == process_lines(ls.take(i as int)).len(),
            forall|k: int|
                0 <= k < rows@.len() ==> row_of(#[trigger] rows@[k], process_lines(ls.take(i as int))[k]),
        decreases lines.len() - i,
    {
        let (lo, hi) = lines[i];
        let ghost lt = ls.take(i + 1);
        assert(lt.drop_last() =~= ls.take(i as int));
        assert(lt.last() == t@.subrange(lo as int, hi as int));
        let fs = field_bounds(&t, lo, hi);
        let ghost f = pieces(t@, fs@);
        if fs.len() >= 6 {
            let (p0, p1) = fs[0];
            let (q0, q1) = fs[1];
            let (c0, c1) = fs[2];
            let (r0, r1) = fs[3];
            let (n0, n1) = fs[4];
            let (m0, m1) = fs[5];
            assert(f[0] == t@.subrange(p0 as int, p1 as int));
            assert(f[1] == t@.subrange(q0 as int, q1 as int));
            assert(f[2] == t@.subrange(c0 as int, c1 as int));
            assert(f[3] == t@.subrange(r0 as int, r1 as int));
            assert(f[4] == t@.subrange(n0 as int, n1 as int));
            assert(f[5] == t@.subrange(m0 as int, m1 as int));
            let pid = parse_i32(&t, p0, p1);
            let ppid = parse_i32(&t, q0, q1);
            let rss = parse_u64(&t, r0, r1);
            let nice = parse_i32(&t, n0, n1);
            match (pid, ppid, rss, nice) {
                (Some(pid), Some(ppid), Some(rss), Some(nice)) => {
                    let row = ProcessRow {
                        pid,
                        ppid,
                        cpu_percent_text: string_of(&t, c0, c1),
                        rss_mb: rss / 1024,
                        nice,
                        command: string_of(&t, m0, m1),
                        args: joined_fields(&t, &fs, 6),
                    };
                    let ghost rows0 = rows@;
                    rows.push(row);
                    assert(row_parses(f));
                    assert forall|k: int| 0 <= k < rows@.len() implies row_of(
                        #[trigger] rows@[k],
                        process_lines(lt)[k],
                    ) by {
                        if k < rows@.len() - 1 {
                            assert(rows@[k] == rows0[k]);
                        }
                    }
                },
                _ => {
                    assert(!row_parses(f));
                },
            }
        }
        i = i + 1;
    }
    assert(ls.take(lines.len() as int) =~= ls);
    rows
}

} // verus!
