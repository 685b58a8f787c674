//! Character-level building blocks: whitespace, trimming, splitting,
//! decimal numbers.

use vstd::prelude::*;

verus! {

/// The characters that `char::is_whitespace` accepts (Unicode `White_Space`).
pub open spec fn is_ws(c: char) -> bool {
    ||| c == ' '
    ||| c == '\t'
    ||| c == '\n'
    ||| c == '\r'
    ||| c == '\u{0B}'
    ||| c == '\u{0C}'
    ||| c == '\u{85}'
    ||| c == '\u{A0}'
    ||| c == '\u{1680}'
    ||| ('\u{2000}' <= c && c <= '\u{200A}')
    ||| c == '\u{2028}'
    ||| c == '\u{2029}'
    ||| c == '\u{202F}'
    ||| c == '\u{205F}'
    ||| c == '\u{3000}'
}

pub fn is_ws_char(c: char) -> (r: bool)
    ensures
        r == is_ws(c),
{
    c == ' ' || c == '\t' || c == '\n' || c == '\r' || c == '\u{0B}' || c == '\u{0C}'
        || c == '\u{85}' || c == '\u{A0}' || c == '\u{1680}' || ('\u{2000}' <= c && c
        <= '\u{200A}') || c == '\u{2028}' || c == '\u{2029}' || c == '\u{202F}' || c
        == '\u{205F}' || c == '\u{3000}'
}

/// The characters of a string slice, in order.
pub fn chars_of(s: &str) -> (v: Vec<char>)
    ensures
        v@ == s@,
{
    let mut v: Vec<char> = Vec::new();
    for c in it: s.chars()
        invariant
            v@ == it.seq().take(it.index() as int),
    {
        v.push(c);
    }
    v
}

} // verus!

verus! {

/// `s` without its leading whitespace (`str::trim_start`).
pub open spec fn trim_start(s: Seq<char>) -> Seq<char>
    decreases s.len(),
{
    if s.len() > 0 && is_ws(s[0]) {
        trim_start(s.drop_first())
    } else {
        s
    }
}

/// `s` without its trailing whitespace (`str::trim_end`).
pub open spec fn trim_end(s: Seq<char>) -> Seq<char>
    decreases s.len(),
{
    if s.len() > 0 && is_ws(s.last()) {
        trim_end(s.drop_last())
    } else {
        s
    }
}

/// `s` without leading and trailing whitespace (`str::trim`).
pub open spec fn trim(s: Seq<char>) -> Seq<char> {
    trim_end(trim_start(s))
}

proof fn lemma_trim_start_skip(s: Seq<char>, a: int, i: int)
    requires
        0 <= a <= i <= s.len(),
        forall|k: int| a <= k < i ==> is_ws(#[trigger] s[k]),
    ensures
        trim_start(s.subrange(a, s.len() as int)) == trim_start(s.subrange(i, s.len() as int)),
    decreases i - a,
{
    if a < i {
        let t = s.subrange(a, s.len() as int);
        assert(t.drop_first() =~= s.subrange(a + 1, s.len() as int));
        lemma_trim_start_skip(s, a + 1, i);
    }
}

proof fn lemma_trim_end_skip(s: Seq<char>, b: int, j: int)
    requires
        0 <= j <= b <= s.len(),
        forall|k: int| j <= k < b ==> is_ws(#[trigger] s[k]),
    ensures
        trim_end(s.subrange(0, b)) == trim_end(s.subrange(0, j)),
    decreases b - j,
{
    if j < b {
        let t = s.subrange(0, b);
        assert(t.drop_last() =~= s.subrange(0, b - 1));
        lemma_trim_end_skip(s, b - 1, j);
    }
}

proof fn lemma_trim_start_stops(s: Seq<char>)
    requires
        s.len() == 0 || !is_ws(s[0]),
    ensures
        trim_start(s) == s,
{
}

proof fn lemma_trim_end_stops(s: Seq<char>)
    requires
        s.len() == 0 || !is_ws(s.last()),
    ensures
        trim_end(s) == s,
{
}

/// Trimming the piece `s[lo..hi]`: returns the bounds of the trimmed piece.
pub fn trim_bounds(s: &Vec<char>, lo: usize, hi: usize) -> (r: (usize, usize))
    requires
        lo <= hi <= s.len(),
    ensures
        lo <= r.0 <= r.1 <= hi,
        s@.subrange(r.0 as int, r.1 as int) == trim(s@.subrange(lo as int, hi as int)),
{
    let mut i = lo;
    while i < hi && is_ws_char(s[i])
        invariant
            lo <= i <= hi <= s.len(),
            forall|k: int| lo <= k < i ==> is_ws(#[trigger] s@[k]),
        decreases hi - i,
    {
        i = i + 1;
    }
    let ghost piece = s@.subrange(lo as int, hi as int);
    proof {
        lemma_trim_start_skip(piece, 0, i - lo);
        assert(piece.subrange(0, piece.len() as int) =~= piece);
        let rest = piece.subrange(i - lo, piece.len() as int);
        assert(rest =~= s@.subrange(i as int, hi as int));
        lemma_trim_start_stops(rest);
    }
    let mut j = hi;
    while j > i && is_ws_char(s[j - 1])
        invariant
            lo <= i <= j <= hi <= s.len(),
            forall|k: int| j <= k < hi ==> is_ws(#[trigger] s@[k]),
        decreases j - i,
    {
        j = j - 1;
    }
    proof {
        let rest = s@.subrange(i as int, hi as int);
        lemma_trim_end_skip(rest, hi - i, j - i);
        assert(rest.subrange(0, hi - i) =~= rest);
        let kept = rest.subrange(0, j - i);
        assert(kept =~= s@.subrange(i as int, j as int));
        lemma_trim_end_stops(kept);
    }
    (i, j)
}

} // verus!

verus! {

/// The pieces of `s` between occurrences of `sep` (`str::split` with a
/// `char` pattern): always at least one piece, empty pieces kept.
pub open spec fn split_on(s: Seq<char>, sep: char) -> Seq<Seq<char>>
    decreases s.len(),
{
    if s.len() == 0 {
        seq![Seq::empty()]
    } else {
        let p = split_on(s.drop_last(), sep);
        if s.last() == sep {
            p.push(Seq::empty())
        } else {
            p.update(p.len() - 1, p.last().push(s.last()))
        }
    }
}

pub proof fn lemma_split_on_nonempty(s: Seq<char>, sep: char)
    ensures
        split_on(s, sep).len() >= 1,
    decreases s.len(),
{
    if s.len() > 0 {
        lemma_split_on_nonempty(s.drop_last(), sep);
    }
}

/// The maximal runs of non-whitespace characters of `s`
/// (`str::split_whitespace`).
pub open spec fn fields(s: Seq<char>) -> Seq<Seq<char>>
    decreases s.len(),
{
    if s.len() == 0 {
        Seq::empty()
    } else {
        let p = fields(s.drop_last());
        let c = s.last();
        if is_ws(c) {
            p
        } else if s.len() >= 2 && !is_ws(s[s.len() - 2]) {
            p.update(p.len() - 1, p.last().push(c))
        } else {
            p.push(seq![c])
        }
    }
}

pub proof fn lemma_fields_last(s: Seq<char>)
    requires
        s.len() > 0,
        !is_ws(s.last()),
    ensures
        fields(s).len() >= 1,
    decreases s.len(),
{
    if s.len() >= 2 && !is_ws(s[s.len() - 2]) {
        lemma_fields_last(s.drop_last());
    }
}

/// The pieces of a slice as index bounds into it.
pub open spec fn pieces(s: Seq<char>, b: Seq<(usize, usize)>) -> Seq<Seq<char>> {
    b.map_values(|p: (usize, usize)| s.subrange(p.0 as int, p.1 as int))
}

pub open spec fn bounds_within(b: Seq<(usize, usize)>, lo: int, hi: int) -> bool {
    forall|k: int| 0 <= k < b.len() ==> lo <= (#[trigger] b[k]).0 <= b[k].1 <= hi
}

/// Splits `s[lo..hi]` at every `sep`.
pub fn split_bounds(s: &Vec<char>, lo: usize, hi: usize, sep: char) -> (r: Vec<(usize, usize)>)
    requires
        lo <= hi <= s.len(),
    ensures
        bounds_within(r@, lo as int, hi as int),
        pieces(s@, r@) == split_on(s@.subrange(lo as int, hi as int), sep),
{
    let mut r: Vec<(usize, usize)> = Vec::new();
    let mut start = lo;
    let mut i = lo;
    assert(pieces(s@, r@) =~= Seq::empty());
    assert(s@.subrange(lo as int, lo as int) =~= Seq::<char>::empty());
    while i < hi
        invariant
            lo <= start <= i <= hi <= s.len(),
            bounds_within(r@, lo as int, hi as int),
            forall|k: int| 0 <= k < r.len() ==> (#[trigger] r@[k]).1 < start,
            split_on(s@.subrange(lo as int, i as int), sep) == pieces(s@, r@).push(
                s@.subrange(start as int, i as int),
            ),
        decreases hi - i,
    {
        let ghost before = s@.subrange(lo as int, i as int);
        let ghost after = s@.subrange(lo as int, i + 1);
        assert(after.drop_last() =~= before);
        assert(after.last() == s@[i as int]);
        proof {
            lemma_split_on_nonempty(before, sep);
        }
        if s[i] == sep {
            let ghost r0 = r@;
            r.push((start, i));
            assert(r@.drop_last() =~= r0);
            assert(s@.subrange(i + 1, i + 1) =~= Seq::<char>::empty());
            start = i + 1;
            assert(pieces(s@, r@) =~= pieces(s@, r@.drop_last()).push(
                s@.subrange(r@.last().0 as int, r@.last().1 as int),
            ));
        } else {
            let ghost cur = s@.subrange(start as int, i as int);
            assert(s@.subrange(start as int, i + 1) =~= cur.push(s@[i as int]));
            let ghost p = pieces(s@, r@).push(cur);
            assert(p.update(p.len() - 1, p.last().push(s@[i as int])) =~= pieces(s@, r@).push(
                cur.push(s@[i as int]),
            ));
        }
        i = i + 1;
    }
    r.push((start, hi));
    assert(pieces(s@, r@) =~= pieces(s@, r@.drop_last()).push(s@.subrange(start as int, hi as int)));
    r
}

} // verus!

verus! {

/// Splits `s[lo..hi]` into its whitespace-separated fields.
pub fn field_bounds(s: &Vec<char>, lo: usize, hi: usize) -> (r: Vec<(usize, usize)>)
    requires
        lo <= hi <= s.len(),
    ensures
        bounds_within(r@, lo as int, hi as int),
        pieces(s@, r@) == fields(s@.subrange(lo as int, hi as int)),
{
    let mut r: Vec<(usize, usize)> = Vec::new();
    let mut in_word = false;
    let mut start = lo;
    let mut i = lo;
    assert(pieces(s@, r@) =~= Seq::empty());
    assert(s@.subrange(lo as int, lo as int) =~= Seq::<char>::empty());
    while i < hi
        invariant
            lo <= start <= i <= hi <= s.len(),
            bounds_within(r@, lo as int, hi as int),
            forall|k: int| 0 <= k < r.len() ==> (#[trigger] r@[k]).1 <= start,
            in_word <==> (i > lo && !is_ws(s@[i - 1])),
            in_word ==> start < i && forall|k: int| start <= k < i ==> !is_ws(#[trigger] s@[k]),
            in_word ==> fields(s@.subrange(lo as int, i as int)) == pieces(s@, r@).push(
                s@.subrange(start as int, i as int),
            ),
            !in_word ==> fields(s@.subrange(lo as int, i as int)) == pieces(s@, r@),
        decreases hi - i,
    {
        let ghost before = s@.subrange(lo as int, i as int);
        let ghost after = s@.subrange(lo as int, i + 1);
        assert(after.drop_last() =~= before);
        assert(after.last() == s@[i as int]);
        let c = s[i];
        if is_ws_char(c) {
            if in_word {
                let ghost r0 = r@;
                r.push((start, i));
                assert(r@.drop_last() =~= r0);
                assert(pieces(s@, r@) =~= pieces(s@, r0).push(s@.subrange(start as int, i as int)));
            }
            in_word = false;
            start = i + 1;
        } else {
            if in_word {
                assert(after.len() >= 2 && after[after.len() - 2] == s@[i - 1]);
                let ghost cur = s@.subrange(start as int, i as int);
                assert(s@.subrange(start as int, i + 1) =~= cur.push(c));
                let ghost p = pieces(s@, r@).push(cur);
                assert(p.update(p.len() - 1, p.last().push(c)) =~= pieces(s@, r@).push(
                    cur.push(c),
                ));
            } else {
                start = i;
                assert(s@.subrange(i as int, i + 1) =~= seq![c]);
            }
            in_word = true;
        }
        i = i + 1;
    }
    if in_word {
        let ghost r0 = r@;
        r.push((start, hi));
        assert(r@.drop_last() =~= r0);
        assert(pieces(s@, r@) =~= pieces(s@, r0).push(s@.subrange(start as int, hi as int)));
    }
    r
}

} // verus!

verus! {

pub open spec fn is_digit(c: char) -> bool {
    '0' <= c && c <= '9'
}

pub open spec fn digit_value(c: char) -> nat {
    (c as int - '0' as int) as nat
}

pub open spec fn digit_char(d: nat) -> char {
    if d == 0 {
        '0'
    } else if d == 1 {
        '1'
    } else if d == 2 {
        '2'
    } else if d == 3 {
        '3'
    } else if d == 4 {
        '4'
    } else if d == 5 {
        '5'
    } else if d == 6 {
        '6'
    } else if d == 7 {
        '7'
    } else if d == 8 {
        '8'
    } else {
        '9'
    }
}

/// The decimal digits of `n`, most significant first, without leading zeros.
pub open spec fn dec(n: nat) -> Seq<char>
    decreases n,
{
    if n < 10 {
        seq![digit_char(n)]
    } else {
        dec(n / 10).push(digit_char(n % 10))
    }
}

/// The number that a run of decimal digits spells.
pub open spec fn digits_value(s: Seq<char>) -> nat
    decreases s.len(),
{
    if s.len() == 0 {
        0
    } else {
        digits_value(s.drop_last()) * 10 + digit_value(s.last())
    }
}

pub open spec fn all_digits(s: Seq<char>) -> bool {
    forall|i: int| 0 <= i < s.len() ==> is_digit(#[trigger] s[i])
}

/// What `str::parse` makes of `s` as an unsigned number, before the range of
/// the target type is checked: an optional `+`, then at least one digit.
pub open spec fn parse_unsigned(s: Seq<char>) -> Option<nat> {
    let body = if s.len() > 0 && s[0] == '+' {
        s.drop_first()
    } else {
        s
    };
    if body.len() > 0 && all_digits(body) {
        Some(digits_value(body))
    } else {
        None
    }
}

/// What `str::parse` makes of `s` as a signed number, before the range of the
/// target type is checked: an optional `+` or `-`, then at least one digit.
pub open spec fn parse_signed(s: Seq<char>) -> Option<int> {
    if s.len() > 0 && s[0] == '-' {
        let body = s.drop_first();
        if body.len() > 0 && all_digits(body) {
            Some(-digits_value(body))
        } else {
            None
        }
    } else {
        match parse_unsigned(s) {
            Some(v) => Some(v as int),
            None => None,
        }
    }
}

proof fn lemma_digits_prefix_le(s: Seq<char>, i: int)
    requires
        0 <= i <= s.len(),
    ensures
        digits_value(s.take(i)) <= digits_value(s),
    decreases s.len() - i,
{
    if i < s.len() {
        lemma_digits_prefix_le(s, i + 1);
        assert(s.take(i + 1).drop_last() =~= s.take(i));
    } else {
        assert(s.take(i) =~= s);
    }
}

fn digit_of(d: u64) -> (c: char)
    requires
        d < 10,
    ensures
        c == digit_char(d as nat),
{
    if d == 0 {
        '0'
    } else if d == 1 {
        '1'
    } else if d == 2 {
        '2'
    } else if d == 3 {
        '3'
    } else if d == 4 {
        '4'
    } else if d == 5 {
        '5'
    } else if d == 6 {
        '6'
    } else if d == 7 {
        '7'
    } else if d == 8 {
        '8'
    } else {
        '9'
    }
}

/// Appends the decimal digits of `n`.
pub fn push_decimal(out: &mut String, n: u64)
    ensures
        final(out)@ == old(out)@ + dec(n as nat),
    decreases n,
{
    if n >= 10 {
        push_decimal(out, n / 10);
    }
    let c = digit_of(n % 10);
    push_char(out, c);
    assert(out@ =~= old(out)@ + dec(n as nat));
}

/// Appends one character (`String::push`). Claimed: the string's characters
/// afterwards are the old ones followed by `c`.
#[verifier::external_body]
pub fn push_char(out: &mut String, c: char)
    ensures
        final(out)@ == old(out)@.push(c),
{
    out.push(c);
}

/// Appends all characters of `s`.
pub fn push_str(out: &mut String, s: &str)
    ensures
        final(out)@ == old(out)@ + s@,
{
    let cs = chars_of(s);
    push_range(out, &cs, 0, cs.len());
}

/// Appends `s[lo..hi]`.
pub fn push_range(out: &mut String, s: &Vec<char>, lo: usize, hi: usize)
    requires
        lo <= hi <= s.len(),
    ensures
        final(out)@ == old(out)@ + s@.subrange(lo as int, hi as int),
{
    let mut i = lo;
    while i < hi
        invariant
            lo <= i <= hi <= s.len(),
            out@ == old(out)@ + s@.subrange(lo as int, i as int),
        decreases hi - i,
    {
        push_char(out, s[i]);
        assert(s@.subrange(lo as int, i + 1) =~= s@.subrange(lo as int, i as int).push(s@[i as int]));
        assert(out@ =~= old(out)@ + s@.subrange(lo as int, i + 1));
        i = i + 1;
    }
}

/// The string `s[lo..hi]`.
pub fn string_of(s: &Vec<char>, lo: usize, hi: usize) -> (r: String)
    requires
        lo <= hi <= s.len(),
    ensures
        r@ == s@.subrange(lo as int, hi as int),
{
    let mut r = String::new();
    push_range(&mut r, s, lo, hi);
    assert(r@ =~= s@.subrange(lo as int, hi as int));
    r
}

/// Parses the digits `s[lo..hi]` as a `u64` (no sign).
fn parse_digits_u64(s: &Vec<char>, lo: usize, hi: usize) -> (r: Option<u64>)
    requires
        lo <= hi <= s.len(),
    ensures
        ({
            let body = s@.subrange(lo as int, hi as int);
            let ok = body.len() > 0 && all_digits(body) && digits_value(body) <= u64::MAX;
            &&& r is Some <==> ok
            &&& ok ==> r->0 == digits_value(body)
        }),
{
    let ghost body = s@.subrange(lo as int, hi as int);
    if lo == hi {
        return None;
    }
    let mut acc: u64 = 0;
    let mut i = lo;
    assert(body.take(0) =~= Seq::<char>::empty());
    while i < hi
        invariant
            lo <= i <= hi <= s.len(),
            body == s@.subrange(lo as int, hi as int),
            forall|k: int| 0 <= k < i - lo ==> is_digit(#[trigger] body[k]),
            acc == digits_value(body.take(i - lo)),
        decreases hi - i,
    {
        let c = s[i];
        if !('0' <= c && c <= '9') {
            assert(body[i - lo] == c);
            return None;
        }
        let d = (c as u32 - '0' as u32) as u64;
        assert(body.take(i + 1 - lo).drop_last() =~= body.take(i - lo));
        assert(body.take(i + 1 - lo).last() == c);
        match acc.checked_mul(10) {
            Some(m) => match m.checked_add(d) {
                Some(v) => {
                    acc = v;
                },
                None => {
                    proof {
                        if all_digits(body) {
                            lemma_digits_prefix_le(body, i + 1 - lo);
                        }
                    }
                    return None;
                },
            },
            None => {
                proof {
                    if all_digits(body) {
                        lemma_digits_prefix_le(body, i + 1 - lo);
                    }
                }
                return None;
            },
        }
        i = i + 1;
    }
    assert(body.take(hi - lo) =~= body);
    Some(acc)
}

/// `str::parse::<u64>` on `s[lo..hi]`.
pub fn parse_u64(s: &Vec<char>, lo: usize, hi: usize) -> (r: Option<u64>)
    requires
        lo <= hi <= s.len(),
    ensures
        ({
            let p = parse_unsigned(s@.subrange(lo as int, hi as int));
            &&& r is Some <==> (p is Some && p->0 <= u64::MAX)
            &&& r is Some ==> r->0 == p->0
        }),
{
    let ghost sub = s@.subrange(lo as int, hi as int);
    if lo < hi && s[lo] == '+' {
        assert(sub.drop_first() =~= s@.subrange(lo + 1, hi as int));
        parse_digits_u64(s, lo + 1, hi)
    } else {
        parse_digits_u64(s, lo, hi)
    }
}

/// `str::parse::<i32>` on `s[lo..hi]`.
pub fn parse_i32(s: &Vec<char>, lo: usize, hi: usize) -> (r: Option<i32>)
    requires
        lo <= hi <= s.len(),
    ensures
        ({
            let p = parse_signed(s@.subrange(lo as int, hi as int));
            &&& r is Some <==> (p is Some && i32::MIN <= p->0 <= i32::MAX)
            &&& r is Some ==> r->0 == p->0
        }),
{
    let ghost sub = s@.subrange(lo as int, hi as int);
    if lo < hi && s[lo] == '-' {
        assert(sub.drop_first() =~= s@.subrange(lo + 1, hi as int));
        match parse_digits_u64(s, lo + 1, hi) {
            Some(v) => {
                if v <= 2147483648 {
                    if v == 2147483648 {
                        Some(i32::MIN)
                    } else {
                        Some(-(v as i32))
                    }
                } else {
                    None
                }
            },
            None => None,
        }
    } else {
        match parse_u64(s, lo, hi) {
            Some(v) => {
                if v <= 2147483647 {
                    Some(v as i32)
                } else {
                    None
                }
            },
            None => None,
        }
    }
}

} // verus!

verus! {

proof fn lemma_trim_start_first(s: Seq<char>)
    ensures
        trim_start(s).len() == 0 || !is_ws(trim_start(s)[0]),
    decreases s.len(),
{
    if s.len() > 0 && is_ws(s[0]) {
        lemma_trim_start_first(s.drop_first());
    }
}

proof fn lemma_trim_end_prefix(s: Seq<char>)
    ensures
        trim_end(s).len() <= s.len(),
        trim_end(s) == s.take(trim_end(s).len() as int),
        trim_end(s).len() == 0 || !is_ws(trim_end(s).last()),
    decreases s.len(),
{
    if s.len() > 0 && is_ws(s.last()) {
        lemma_trim_end_prefix(s.drop_last());
        assert(s.drop_last().take(trim_end(s).len() as int) =~= s.take(trim_end(s).len() as int));
    } else {
        assert(s.take(s.len() as int) =~= s);
    }
}

/// A trimmed string starts and ends with non-whitespace, and trimming it
/// again changes nothing.
pub proof fn lemma_trim_shape(s: Seq<char>)
    ensures
        trim(s).len() == 0 || (!is_ws(trim(s)[0]) && !is_ws(trim(s).last())),
        trim(trim(s)) == trim(s),
{
    let u = trim_start(s);
    let t = trim_end(u);
    lemma_trim_start_first(s);
    lemma_trim_end_prefix(u);
    if t.len() > 0 {
        assert(t[0] == u[0]);
    }
    lemma_trim_start_stops(t);
    lemma_trim_end_stops(t);
}

} // verus!

verus! {

proof fn lemma_digit_roundtrip(d: nat)
    requires
        d < 10,
    ensures
        digit_value(digit_char(d)) == d,
        is_digit(digit_char(d)),
{
}

/// Reading back the decimal digits of `n` gives `n`.
pub proof fn lemma_dec_roundtrip(n: nat)
    ensures
        digits_value(dec(n)) == n,
        all_digits(dec(n)),
        dec(n).len() >= 1,
    decreases n,
{
    if n < 10 {
        lemma_digit_roundtrip(n);
        let s = seq![digit_char(n)];
        assert(s.drop_last() =~= Seq::<char>::empty());
        assert(digits_value(Seq::<char>::empty()) == 0);
        assert(digits_value(s) == digits_value(s.drop_last()) * 10 + digit_value(s.last()));
    } else {
        lemma_dec_roundtrip(n / 10);
        lemma_digit_roundtrip(n % 10);
        let s = dec(n);
        assert(s.drop_last() =~= dec(n / 10));
        assert(s.last() == digit_char(n % 10));
        assert(digits_value(s) == digits_value(dec(n / 10)) * 10 + digit_value(digit_char(n % 10)));
        assert(n == (n / 10) * 10 + n % 10);
        assert forall|i: int| 0 <= i < s.len() implies is_digit(#[trigger] s[i]) by {
            if i < s.len() - 1 {
                assert(s[i] == dec(n / 10)[i]);
            }
        }
    }
}

/// Different numbers have different decimal digits.
pub proof fn lemma_dec_injective(a: nat, b: nat)
    requires
        dec(a) == dec(b),
    ensures
        a == b,
{
    lemma_dec_roundtrip(a);
    lemma_dec_roundtrip(b);
}

fn digit_of_u128(d: u128) -> (c: char)
    requires
        d < 10,
    ensures
        c == digit_char(d as nat),
{
    digit_of(d as u64)
}

/// Appends the decimal digits of a 128-bit `n`.
pub fn push_decimal_u128(out: &mut String, n: u128)
    ensures
        final(out)@ == old(out)@ + dec(n as nat),
    decreases n,
{
    if n >= 10 {
        push_decimal_u128(out, n / 10);
    }
    let c = digit_of_u128(n % 10);
    push_char(out, c);
    assert(out@ =~= old(out)@ + dec(n as nat));
}

} // verus!

verus! {

/// `a` sorts at or before `b`, character by character (the order of
/// `String`'s `Ord`, since UTF-8 keeps code point order).
pub open spec fn lex_le(a: Seq<char>, b: Seq<char>) -> bool
    decreases a.len(),
{
    if a.len() == 0 {
        true
    } else if b.len() == 0 {
        false
    } else if a[0] != b[0] {
        a[0] < b[0]
    } else {
        lex_le(a.drop_first(), b.drop_first())
    }
}

/// Where two names first differ, at position `i`, the one whose character
/// there is the smaller code point sorts first, whatever follows.
pub proof fn lemma_lex_first_difference(a: Seq<char>, b: Seq<char>, i: int)
    requires
        0 <= i < a.len(),
        i < b.len(),
        forall|j: int| 0 <= j < i ==> a[j] == b[j],
        a[i] != b[i],
    ensures
        lex_le(a, b) == (a[i] < b[i]),
        lex_le(b, a) == (b[i] < a[i]),
    decreases i,
{
    if i > 0 {
        assert(a[0] == b[0]);
        let a1 = a.drop_first();
        let b1 = b.drop_first();
        assert forall|j: int| 0 <= j < i - 1 implies a1[j] == b1[j] by {
            assert(a[j + 1] == b[j + 1]);
        }
        lemma_lex_first_difference(a1, b1, i - 1);
    }
}

/// A prefix sorts at or before every name it begins, and a proper prefix
/// strictly before; every name sorts at or before itself.
pub proof fn lemma_lex_prefix_first(a: Seq<char>, b: Seq<char>)
    requires
        a.len() <= b.len(),
        forall|j: int| 0 <= j < a.len() ==> a[j] == b[j],
    ensures
        lex_le(a, b),
        a.len() < b.len() ==> !lex_le(b, a),
    decreases a.len(),
{
    if a.len() > 0 {
        assert(a[0] == b[0]);
        let a1 = a.drop_first();
        let b1 = b.drop_first();
        assert forall|j: int| 0 <= j < a1.len() implies a1[j] == b1[j] by {
            assert(a[j + 1] == b[j + 1]);
        }
        lemma_lex_prefix_first(a1, b1);
    }
}

pub proof fn lemma_lex_total(a: Seq<char>, b: Seq<char>)
    ensures
        lex_le(a, b) || lex_le(b, a),
    decreases a.len(),
{
    if a.len() > 0 && b.len() > 0 && a[0] == b[0] {
        lemma_lex_total(a.drop_first(), b.drop_first());
    }
}

pub proof fn lemma_lex_trans(a: Seq<char>, b: Seq<char>, c: Seq<char>)
    requires
        lex_le(a, b),
        lex_le(b, c),
    ensures
        lex_le(a, c),
    decreases a.len(),
{
    if a.len() > 0 && b.len() > 0 && c.len() > 0 && a[0] == b[0] && b[0] == c[0] {
        lemma_lex_trans(a.drop_first(), b.drop_first(), c.drop_first());
    }
}

/// Whether `a` sorts at or before `b`.
pub fn lex_le_exec(a: &Vec<char>, b: &Vec<char>) -> (r: bool)
    ensures
        r == lex_le(a@, b@),
{
    let mut i: usize = 0;
    assert(a@.skip(0) =~= a@);
    assert(b@.skip(0) =~= b@);
    while i < a.len() && i < b.len() && a[i] == b[i]
        invariant
            0 <= i <= a.len(),
            i <= b.len(),
            lex_le(a@, b@) == lex_le(a@.skip(i as int), b@.skip(i as int)),
        decreases a.len() - i,
    {
        assert(a@.skip(i as int).drop_first() =~= a@.skip(i + 1));
        assert(b@.skip(i as int).drop_first() =~= b@.skip(i + 1));
        i = i + 1;
    }
    if i == a.len() {
        true
    } else if i == b.len() {
        false
    } else {
        assert(a@.skip(i as int)[0] == a@[i as int]);
        assert(b@.skip(i as int)[0] == b@[i as int]);
        a[i] < b[i]
    }
}

} // verus!
