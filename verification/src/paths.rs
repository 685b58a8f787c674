//! Path text: components, prefixes, joining, `~` expansion and the
//! protected-path relation.

use vstd::prelude::*;
use crate::text::{
    split_on, pieces, bounds_within, chars_of, split_bounds, string_of, push_range, push_char,
    lemma_split_on_nonempty,
};

verus! {

pub open spec fn is_dot(c: Seq<char>) -> bool {
    c == seq!['.']
}

/// The pieces between `/` that name something: empty pieces and `.` dropped.
pub open spec fn keep_components(ps: Seq<Seq<char>>) -> Seq<Seq<char>>
    decreases ps.len(),
{
    if ps.len() == 0 {
        Seq::empty()
    } else {
        let k = keep_components(ps.drop_last());
        let c = ps.last();
        if c.len() == 0 || is_dot(c) {
            k
        } else {
            k.push(c)
        }
    }
}

/// The named components of a path, in order.
pub open spec fn components(p: Seq<char>) -> Seq<Seq<char>> {
    keep_components(split_on(p, '/'))
}

pub open spec fn is_absolute(p: Seq<char>) -> bool {
    p.len() > 0 && p[0] == '/'
}

/// The root, as a component of its own (no named component holds `/`).
pub open spec fn root_component() -> Seq<char> {
    seq!['/']
}

/// The components of a path with its root first when it has one, as
/// `Path::components` yields them for paths that do not start with `./`.
pub open spec fn full_components(p: Seq<char>) -> Seq<Seq<char>> {
    if is_absolute(p) {
        seq![root_component()] + components(p)
    } else {
        components(p)
    }
}

/// `path` lies at or under `base`, compared component by component
/// (`Path::starts_with`).
pub open spec fn path_starts_with(path: Seq<char>, base: Seq<char>) -> bool {
    let a = full_components(path);
    let b = full_components(base);
    b.len() <= a.len() && a.take(b.len() as int) == b
}

/// Bounds, into `s`, of the named components of `s`.
fn component_bounds(s: &Vec<char>) -> (r: Vec<(usize, usize)>)
    ensures
        bounds_within(r@, 0, s@.len() as int),
        pieces(s@, r@) == components(s@),
{
    let b = split_bounds(s, 0, s.len(), '/');
    assert(s@.subrange(0, s@.len() as int) =~= s@);
    let ghost ps = pieces(s@, b@);
    let mut r: Vec<(usize, usize)> = Vec::new();
    let mut i: usize = 0;
    assert(ps.take(0) =~= Seq::<Seq<char>>::empty());
    assert(pieces(s@, r@) =~= Seq::<Seq<char>>::empty());
    while i < b.len()
        invariant
            0 <= i <= b.len(),
            ps == pieces(s@, b@),
            ps == split_on(s@, '/'),
            bounds_within(b@, 0, s@.len() as int),
            bounds_within(r@, 0, s@.len() as int),
            pieces(s@, r@) == keep_components(ps.take(i as int)),
        decreases b.len() - i,
    {
        let (lo, hi) = b[i];
        assert(ps[i as int] == s@.subrange(lo as int, hi as int));
        assert(ps.take(i + 1).drop_last() =~= ps.take(i as int));
        assert(ps.take(i + 1).last() == ps[i as int]);
        let dot = hi > lo && hi - lo == 1 && s[lo] == '.';
        assert(dot <==> is_dot(s@.subrange(lo as int, hi as int))) by {
            let sub = s@.subrange(lo as int, hi as int);
            if dot {
                assert(sub =~= seq!['.']);
            } else if hi > lo && hi - lo == 1 {
                assert(sub[0] == s@[lo as int]);
                assert(sub[0] != seq!['.'][0]);
            } else {
                assert(sub.len() != seq!['.'].len());
            }
        }
        if lo < hi && !dot {
            let ghost r0 = r@;
            r.push((lo, hi));
            assert(r@.drop_last() =~= r0);
            assert(pieces(s@, r@) =~= pieces(s@, r0).push(s@.subrange(lo as int, hi as int)));
        }
        i = i + 1;
    }
    assert(ps.take(b.len() as int) =~= ps);
    r
}

fn range_eq(a: &Vec<char>, alo: usize, ahi: usize, b: &Vec<char>, blo: usize, bhi: usize) -> (r: bool)
    requires
        alo <= ahi <= a.len(),
        blo <= bhi <= b.len(),
    ensures
        r == (a@.subrange(alo as int, ahi as int) == b@.subrange(blo as int, bhi as int)),
{
    if ahi - alo != bhi - blo {
        assert(a@.subrange(alo as int, ahi as int).len() != b@.subrange(blo as int, bhi as int).len());
        return false;
    }
    let mut k: usize = 0;
    while k < ahi - alo
        invariant
            alo <= ahi <= a.len(),
            blo <= bhi <= b.len(),
            ahi - alo == bhi - blo,
            0 <= k <= ahi - alo,
            forall|j: int| 0 <= j < k ==> a@.subrange(alo as int, ahi as int)[j] == #[trigger] b@.subrange(blo as int, bhi as int)[j],
        decreases ahi - alo - k,
    {
        if a[alo + k] != b[blo + k] {
            assert(a@.subrange(alo as int, ahi as int)[k as int] != b@.subrange(
                blo as int,
                bhi as int,
            )[k as int]);
            return false;
        }
        k = k + 1;
    }
    assert(a@.subrange(alo as int, ahi as int) =~= b@.subrange(blo as int, bhi as int));
    true
}

/// Whether `path` lies at or under `base`, component by component.
pub fn starts_with_path(path: &str, base: &str) -> (r: bool)
    ensures
        r == path_starts_with(path@, base@),
{
    let p = chars_of(path);
    let b = chars_of(base);
    let p_abs = p.len() > 0 && p[0] == '/';
    let b_abs = b.len() > 0 && b[0] == '/';
    let pc = component_bounds(&p);
    let bc = component_bounds(&b);
    let ghost a = full_components(path@);
    let ghost z = full_components(base@);
    let ghost pcs = pieces(p@, pc@);
    let ghost bcs = pieces(b@, bc@);
    if b_abs && !p_abs {
        assert(a.len() >= z.len() ==> a.take(z.len() as int)[0] != z[0]) by {
            if a.len() >= z.len() && a.len() > 0 {
                assert(a =~= pcs);
                if pcs.len() > 0 {
                    assert(pcs[0] == p@.subrange(pc@[0].0 as int, pc@[0].1 as int));
                    assert(pcs[0] != root_component()) by {
                        lemma_component_has_no_slash(path@, 0);
                    }
                }
            }
        }
        return false;
    }
    if p_abs && !b_abs {
        // `base` must then be a prefix of the named components of `path`
        // shifted by the root, whose first element is the root.
        if bc.len() == 0 {
            assert(z =~= Seq::<Seq<char>>::empty());
            assert(a.take(0) =~= z);
            return true;
        }
        assert(z[0] == bcs[0]);
        assert(bcs[0] != root_component()) by {
            lemma_component_has_no_slash(base@, 0);
        }
        return false;
    }
    proof {
        lemma_starts_with_same_root(path@, base@);
    }
    if bc.len() > pc.len() {
        return false;
    }
    let mut k: usize = 0;
    while k < bc.len()
        invariant
            0 <= k <= bc.len() <= pc.len(),
            bounds_within(pc@, 0, p@.len() as int),
            bounds_within(bc@, 0, b@.len() as int),
            pcs == pieces(p@, pc@),
            bcs == pieces(b@, bc@),
            forall|j: int| 0 <= j < k ==> pcs[j] == bcs[j],
            path_starts_with(path@, base@) <==> (bcs.len() <= pcs.len() && pcs.take(
                bcs.len() as int,
            ) == bcs),
        decreases bc.len() - k,
    {
        let (plo, phi) = pc[k];
        let (blo, bhi) = bc[k];
        if !range_eq(&p, plo, phi, &b, blo, bhi) {
            assert(pcs[k as int] != bcs[k as int]);
            assert(pcs.take(bcs.len() as int)[k as int] != bcs[k as int]);
            return false;
        }
        k = k + 1;
    }
    assert(pcs.take(bcs.len() as int) =~= bcs);
    true
}

proof fn lemma_starts_with_same_root(path: Seq<char>, base: Seq<char>)
    requires
        is_absolute(path) == is_absolute(base),
    ensures
        path_starts_with(path, base) <==> (components(base).len() <= components(path).len()
            && components(path).take(components(base).len() as int) == components(base)),
{
    let pcs = components(path);
    let bcs = components(base);
    if is_absolute(path) {
        let a = seq![root_component()] + pcs;
        let z = seq![root_component()] + bcs;
        if bcs.len() <= pcs.len() {
            if pcs.take(bcs.len() as int) == bcs {
                assert(a.take(z.len() as int) =~= z);
            }
            if a.take(z.len() as int) == z {
                assert forall|j: int| 0 <= j < bcs.len() implies pcs.take(bcs.len() as int)[j] == bcs[j] by {
                    assert(a.take(z.len() as int)[j + 1] == z[j + 1]);
                }
                assert(pcs.take(bcs.len() as int) =~= bcs);
            }
        }
    }
}

proof fn lemma_keep_components_no_slash(ps: Seq<Seq<char>>, i: int)
    requires
        forall|j: int, k: int|
            0 <= j < ps.len() && 0 <= k < ps[j].len() ==> #[trigger] ps[j][k] != '/',
        0 <= i < keep_components(ps).len(),
    ensures
        keep_components(ps)[i] != root_component(),
        keep_components(ps)[i].len() > 0,
    decreases ps.len(),
{
    let k = keep_components(ps.drop_last());
    if i < k.len() {
        assert forall|j: int, m: int|
            0 <= j < ps.drop_last().len() && 0 <= m < ps.drop_last()[j].len() implies #[trigger] ps.drop_last()[j][m]
            != '/' by {
            assert(ps.drop_last()[j] == ps[j]);
        }
        lemma_keep_components_no_slash(ps.drop_last(), i);
    } else {
        let c = ps.last();
        assert(c[0] != '/');
        assert(root_component()[0] == '/');
    }
}

pub proof fn lemma_split_on_no_sep(s: Seq<char>, sep: char)
    ensures
        forall|j: int, k: int|
            0 <= j < split_on(s, sep).len() && 0 <= k < split_on(s, sep)[j].len()
                ==> #[trigger] split_on(s, sep)[j][k] != sep,
    decreases s.len(),
{
    if s.len() > 0 {
        lemma_split_on_no_sep(s.drop_last(), sep);
        lemma_split_on_nonempty(s.drop_last(), sep);
        let p = split_on(s.drop_last(), sep);
        if s.last() != sep {
            let q = p.update(p.len() - 1, p.last().push(s.last()));
            assert forall|j: int, k: int| 0 <= j < q.len() && 0 <= k < q[j].len() implies #[trigger] q[j][k]
                != sep by {
                if j == p.len() - 1 && k == p.last().len() {
                } else if j == p.len() - 1 {
                    assert(q[j][k] == p[j][k]);
                } else {
                    assert(q[j] == p[j]);
                }
            }
        } else {
            let q = p.push(Seq::<char>::empty());
            assert forall|j: int, k: int| 0 <= j < q.len() && 0 <= k < q[j].len() implies #[trigger] q[j][k]
                != sep by {
                if j < p.len() {
                    assert(q[j] == p[j]);
                }
            }
        }
    }
}

/// A named component is non-empty and holds no `/`, so it is never the root.
pub proof fn lemma_component_has_no_slash(p: Seq<char>, i: int)
    requires
        0 <= i < components(p).len(),
    ensures
        components(p)[i] != root_component(),
        components(p)[i].len() > 0,
{
    lemma_split_on_no_sep(p, '/');
    lemma_keep_components_no_slash(split_on(p, '/'), i);
}

} // verus!

verus! {

pub open spec fn is_prefix(q: Seq<char>, p: Seq<char>) -> bool {
    q.len() <= p.len() && p.take(q.len() as int) == q
}

/// `base` joined with `rest` as `PathBuf::push` joins on Unix: an absolute
/// `rest` replaces `base`; otherwise one `/` separates them unless `base`
/// is empty or already ends with one.
pub open spec fn join_spec(base: Seq<char>, rest: Seq<char>) -> Seq<char> {
    if is_absolute(rest) {
        rest
    } else if base.len() == 0 {
        rest
    } else if base.last() == '/' {
        base + rest
    } else {
        base + seq!['/'] + rest
    }
}

/// The last named component of a path, unless it is `..` (`Path::file_name`).
pub open spec fn file_name_spec(p: Seq<char>) -> Option<Seq<char>> {
    let c = components(p);
    if c.len() > 0 && c.last() != seq!['.', '.'] {
        Some(c.last())
    } else {
        None
    }
}

/// `path` is `prot` itself or lies under it; the root protects only itself.
pub open spec fn protected_by(path: Seq<char>, prot: Seq<char>) -> bool {
    path == prot || (prot != seq!['/'] && is_prefix(prot.push('/'), path))
}

fn prefix_of(q: &Vec<char>, p: &Vec<char>) -> (r: bool)
    ensures
        r == is_prefix(q@, p@),
{
    if q.len() > p.len() {
        return false;
    }
    let mut i: usize = 0;
    while i < q.len()
        invariant
            q.len() <= p.len(),
            0 <= i <= q.len(),
            forall|j: int| 0 <= j < i ==> #[trigger] p@[j] == q@[j],
        decreases q.len() - i,
    {
        if p[i] != q[i] {
            assert(p@.take(q@.len() as int)[i as int] != q@[i as int]);
            return false;
        }
        i = i + 1;
    }
    assert(p@.take(q@.len() as int) =~= q@);
    true
}

fn chars_eq(a: &Vec<char>, b: &Vec<char>) -> (r: bool)
    ensures
        r == (a@ == b@),
{
    if a.len() != b.len() {
        return false;
    }
    let r = prefix_of(a, b);
    proof {
        if r {
            assert(b@.take(a@.len() as int) =~= b@);
        } else {
            if a@ == b@ {
                assert(b@.take(a@.len() as int) =~= a@);
            }
        }
    }
    r
}

/// Whether `path` is the protected path `prot` or lies beneath it. A
/// protected root matches only itself, so paths under `/` stay deletable.
pub fn is_protected_ancestor(path: &str, prot: &str) -> (r: bool)
    ensures
        r == protected_by(path@, prot@),
{
    let p = chars_of(path);
    let q = chars_of(prot);
    if chars_eq(&p, &q) {
        return true;
    }
    let is_root = q.len() == 1 && q[0] == '/';
    assert(is_root <==> q@ == seq!['/']) by {
        if q@.len() == 1 {
            if q@[0] == '/' {
                assert(q@ =~= seq!['/']);
            } else {
                assert(q@[0] != seq!['/'][0]);
            }
        }
    }
    if is_root {
        return false;
    }
    let mut qs = q.clone();
    qs.push('/');
    prefix_of(&qs, &p)
}

/// `base` joined with `rest` (`Path::join`).
pub fn join_path(base: &str, rest: &str) -> (r: String)
    ensures
        r@ == join_spec(base@, rest@),
{
    let b = chars_of(base);
    let x = chars_of(rest);
    let mut r = String::new();
    if x.len() > 0 && x[0] == '/' {
        push_range(&mut r, &x, 0, x.len());
    } else if b.len() == 0 {
        push_range(&mut r, &x, 0, x.len());
    } else if b[b.len() - 1] == '/' {
        push_range(&mut r, &b, 0, b.len());
        push_range(&mut r, &x, 0, x.len());
    } else {
        push_range(&mut r, &b, 0, b.len());
        push_char(&mut r, '/');
        push_range(&mut r, &x, 0, x.len());
    }
    assert(b@.subrange(0, b@.len() as int) =~= b@);
    assert(x@.subrange(0, x@.len() as int) =~= x@);
    assert(r@ =~= join_spec(base@, rest@));
    r
}

/// The last named component of `path` (`Path::file_name`).
pub fn file_name(path: &str) -> (r: Option<String>)
    ensures
        r matches Some(s) ==> file_name_spec(path@) == Some(s@),
        r is None ==> file_name_spec(path@) is None,
{
    let p = chars_of(path);
    let c = component_bounds(&p);
    let ghost cs = pieces(p@, c@);
    if c.len() == 0 {
        return None;
    }
    let (lo, hi) = c[c.len() - 1];
    assert(cs.last() == p@.subrange(lo as int, hi as int));
    let dd = hi >= lo && hi - lo == 2 && p[lo] == '.' && p[lo + 1] == '.';
    assert(dd <==> cs.last() == seq!['.', '.']) by {
        let sub = p@.subrange(lo as int, hi as int);
        if dd {
            assert(sub =~= seq!['.', '.']);
        } else if hi - lo == 2 {
            if sub[0] != '.' {
                assert(sub[0] != seq!['.', '.'][0]);
            } else {
                assert(sub[1] != seq!['.', '.'][1]);
            }
        } else {
            assert(sub.len() != 2);
        }
    }
    if dd {
        return None;
    }
    Some(string_of(&p, lo, hi))
}

/// The user's home directory as `dirs::home_dir` reports it. The source
/// (`dirs-sys`) returns `Some` only with a non-empty path, taken from `$HOME`
/// or the password database; which one depends on the environment, so
/// nothing more is said of it.
#[verifier::external_body]
fn home_dir() -> (h: Option<String>)
    ensures
        h matches Some(s) ==> s@.len() > 0,
{
    match dirs::home_dir() {
        Some(p) => Some(p.to_string_lossy().into_owned()),
        None => None,
    }
}

/// The home directory, or `.` where there is none.
pub open spec fn home_or_dot(h: Option<Seq<char>>) -> Seq<char> {
    match h {
        Some(x) => x,
        None => seq!['.'],
    }
}

pub open spec fn starts_with_tilde_slash(p: Seq<char>) -> bool {
    p.len() >= 2 && p[0] == '~' && p[1] == '/'
}

/// `~` and a leading `~/` replaced by `home`; anything else unchanged.
pub open spec fn tilde_expanded(p: Seq<char>, home: Seq<char>) -> Seq<char> {
    if p == seq!['~'] {
        home
    } else if starts_with_tilde_slash(p) {
        join_spec(home, p.skip(2))
    } else {
        p
    }
}

pub open spec fn opt_view(h: Option<String>) -> Option<Seq<char>> {
    match h {
        Some(s) => Some(s@),
        None => None,
    }
}

/// `~` expansion against a given home directory (`.` when there is none).
pub fn expand_tilde_with(path: &str, home: Option<String>) -> (r: String)
    ensures
        r@ == tilde_expanded(path@, home_or_dot(opt_view(home))),
{
    let p = chars_of(path);
    let h: String = match home {
        Some(s) => s,
        None => ".".to_owned(),
    };
    proof {
        reveal_strlit(".");
        assert(".".view() =~= seq!['.']);
    }
    let is_tilde = p.len() == 1 && p[0] == '~';
    assert(is_tilde <==> p@ == seq!['~']) by {
        if p@.len() == 1 && p@[0] != '~' {
            assert(p@[0] != seq!['~'][0]);
        }
        if is_tilde {
            assert(p@ =~= seq!['~']);
        }
    }
    if is_tilde {
        return h;
    }
    if p.len() >= 2 && p[0] == '~' && p[1] == '/' {
        let rest = string_of(&p, 2, p.len());
        assert(p@.subrange(2, p@.len() as int) =~= p@.skip(2));
        return join_path(h.as_str(), rest.as_str());
    }
    string_of_all(&p)
}

fn string_of_all(p: &Vec<char>) -> (r: String)
    ensures
        r@ == p@,
{
    let r = string_of(p, 0, p.len());
    assert(p@.subrange(0, p@.len() as int) =~= p@);
    r
}

/// Expands `~` and a leading `~/` to the user's home directory (`.` where
/// none is known); other paths come back unchanged.
pub fn expand_tilde(path: &str) -> (r: String)
    ensures
        exists|h: Option<Seq<char>>|
            (h matches Some(x) ==> x.len() > 0) && r@ == tilde_expanded(path@, home_or_dot(h)),
        (path@ != seq!['~'] && !starts_with_tilde_slash(path@)) ==> r@ == path@,
{
    let home = home_dir();
    let ghost h = opt_view(home);
    let r = expand_tilde_with(path, home);
    assert(h matches Some(x) ==> x.len() > 0);
    r
}

/// `path` with a leading `home` written as `~`.
pub open spec fn home_abbreviated(p: Seq<char>, home: Option<Seq<char>>) -> Seq<char> {
    match home {
        Some(x) => if is_prefix(x, p) {
            seq!['~'] + p.skip(x.len() as int)
        } else {
            p
        },
        None => p,
    }
}

/// Abbreviation of a leading home directory to `~`, against a given home.
pub fn display_home_with(path: &str, home: Option<String>) -> (r: String)
    ensures
        r@ == home_abbreviated(path@, opt_view(home)),
{
    let p = chars_of(path);
    match home {
        Some(h) => {
            let hc = chars_of(h.as_str());
            if prefix_of(&hc, &p) {
                let mut r = String::new();
                push_char(&mut r, '~');
                push_range(&mut r, &p, hc.len(), p.len());
                assert(p@.subrange(hc@.len() as int, p@.len() as int) =~= p@.skip(hc@.len() as int));
                assert(r@ =~= seq!['~'] + p@.skip(hc@.len() as int));
                r
            } else {
                string_of_all(&p)
            }
        },
        None => string_of_all(&p),
    }
}

/// `path` for display, with a leading home directory written as `~`.
pub fn display_home(path: &str) -> (r: String)
    ensures
        exists|h: Option<Seq<char>>|
            (h matches Some(x) ==> x.len() > 0) && r@ == home_abbreviated(path@, h),
{
    let home = home_dir();
    let ghost h = opt_view(home);
    let r = display_home_with(path, home);
    assert(h matches Some(x) ==> x.len() > 0);
    r
}

} // verus!

verus! {

/// Whether `path` is absolute, and the number of its named components.
fn component_count(path: &str) -> (r: (bool, usize))
    ensures
        r.0 == is_absolute(path@),
        r.1 == components(path@).len(),
{
    let p = chars_of(path);
    let c = component_bounds(&p);
    (p.len() > 0 && p[0] == '/', c.len())
}

/// `a` and `b` are the same path or one lies under the other.
pub open spec fn paths_nest_spec(a: Seq<char>, b: Seq<char>) -> bool {
    path_starts_with(a, b) || path_starts_with(b, a)
}

/// Whether one of two paths lies at or under the other.
pub fn paths_nest(a: &str, b: &str) -> (r: bool)
    ensures
        r == paths_nest_spec(a@, b@),
{
    starts_with_path(a, b) || starts_with_path(b, a)
}

/// `entry` is one component below `root`, as `Path::parent` of `entry`
/// being `root` says.
pub open spec fn directly_under(entry: Seq<char>, root: Seq<char>) -> bool {
    path_starts_with(entry, root) && full_components(entry).len() == full_components(root).len() + 1
}

/// Whether `entry` sits directly in the directory `root`.
pub fn sits_directly_under(entry: &str, root: &str) -> (r: bool)
    ensures
        r == directly_under(entry@, root@),
{
    let (ae, ne) = component_count(entry);
    let (ar, nr) = component_count(root);
    let one_more = if ae == ar {
        nr < ne && ne - nr == 1
    } else if ae {
        ne == nr
    } else {
        nr < ne && ne - nr == 2
    };
    starts_with_path(entry, root) && one_more
}

} // verus!

verus! {

pub open spec fn is_dotdot(c: Seq<char>) -> bool {
    c == seq!['.', '.']
}

/// One component applied to a stack of kept components: `..` removes the
/// last kept name, is dropped at the root, and is kept when nothing can be
/// removed from a relative path.
pub open spec fn norm_step(stack: Seq<Seq<char>>, c: Seq<char>, abs: bool) -> Seq<Seq<char>> {
    if is_dotdot(c) {
        if stack.len() > 0 && !is_dotdot(stack.last()) {
            stack.drop_last()
        } else if abs {
            stack
        } else {
            stack.push(c)
        }
    } else {
        stack.push(c)
    }
}

pub open spec fn norm_stack(cs: Seq<Seq<char>>, abs: bool) -> Seq<Seq<char>>
    decreases cs.len(),
{
    if cs.len() == 0 {
        Seq::empty()
    } else {
        norm_step(norm_stack(cs.drop_last(), abs), cs.last(), abs)
    }
}

/// Components joined with `/`.
pub open spec fn join_components(cs: Seq<Seq<char>>) -> Seq<char>
    decreases cs.len(),
{
    if cs.len() == 0 {
        Seq::empty()
    } else if cs.len() == 1 {
        cs[0]
    } else {
        join_components(cs.drop_last()) + seq!['/'] + cs.last()
    }
}

/// `p` with `.` and `..` resolved without looking at the filesystem.
pub open spec fn lexical_normal(p: Seq<char>) -> Seq<char> {
    let st = norm_stack(components(p), is_absolute(p));
    if is_absolute(p) {
        seq!['/'] + join_components(st)
    } else {
        join_components(st)
    }
}

/// In a normalized stack, `..` only leads a relative path, and never
/// appears in an absolute one.
pub open spec fn normal_stack(st: Seq<Seq<char>>, abs: bool) -> bool {
    forall|i: int|
        0 <= i < st.len() && is_dotdot(#[trigger] st[i]) ==> !abs && forall|j: int|
            0 <= j < i ==> is_dotdot(#[trigger] st[j])
}

pub proof fn lemma_norm_stack_normal(cs: Seq<Seq<char>>, abs: bool)
    ensures
        normal_stack(norm_stack(cs, abs), abs),
    decreases cs.len(),
{
    if cs.len() > 0 {
        lemma_norm_stack_normal(cs.drop_last(), abs);
        let st = norm_stack(cs.drop_last(), abs);
        let c = cs.last();
        let r = norm_stack(cs, abs);
        if is_dotdot(c) {
            if st.len() > 0 && !is_dotdot(st.last()) {
                assert forall|i: int| 0 <= i < r.len() && is_dotdot(#[trigger] r[i]) implies !abs
                    && forall|j: int| 0 <= j < i ==> is_dotdot(#[trigger] r[j]) by {
                    assert(r[i] == st[i]);
                    assert forall|j: int| 0 <= j < i implies is_dotdot(#[trigger] r[j]) by {
                        assert(r[j] == st[j]);
                    }
                }
            } else if !abs {
                assert forall|i: int| 0 <= i < r.len() && is_dotdot(#[trigger] r[i]) implies !abs
                    && forall|j: int| 0 <= j < i ==> is_dotdot(#[trigger] r[j]) by {
                    assert forall|j: int| 0 <= j < i implies is_dotdot(#[trigger] r[j]) by {
                        if i < st.len() {
                            assert(r[j] == st[j]);
                        } else if st.len() > 0 {
                            assert(r[j] == st[j]);
                            // every kept component is `..`: the last one is, and
                            // a `..` is only preceded by `..`.
                            assert(is_dotdot(st[st.len() - 1]));
                        }
                    }
                }
            }
        } else {
            assert forall|i: int| 0 <= i < r.len() && is_dotdot(#[trigger] r[i]) implies !abs
                && forall|j: int| 0 <= j < i ==> is_dotdot(#[trigger] r[j]) by {
                assert(r[i] == st[i]);
                assert forall|j: int| 0 <= j < i implies is_dotdot(#[trigger] r[j]) by {
                    assert(r[j] == st[j]);
                }
            }
        }
    }
}

fn is_dotdot_range(p: &Vec<char>, lo: usize, hi: usize) -> (r: bool)
    requires
        lo <= hi <= p.len(),
    ensures
        r == is_dotdot(p@.subrange(lo as int, hi as int)),
{
    let r = hi - lo == 2 && p[lo] == '.' && p[lo + 1] == '.';
    proof {
        let sub = p@.subrange(lo as int, hi as int);
        if r {
            assert(sub =~= seq!['.', '.']);
        } else if hi - lo == 2 {
            if sub[0] != '.' {
                assert(sub[0] != seq!['.', '.'][0]);
            } else {
                assert(sub[1] != seq!['.', '.'][1]);
            }
        } else {
            assert(sub.len() != 2);
        }
    }
    r
}

/// Collapses `.` and `..` components without touching the filesystem:
/// `a/b/../../c` gives `c`; a leading `..` of a relative path is kept, and
/// nothing climbs above the root of an absolute one.
pub fn lexical_normalize(path: &str) -> (r: String)
    ensures
        r@ == lexical_normal(path@),
{
    let p = chars_of(path);
    let abs = p.len() > 0 && p[0] == '/';
    let c = component_bounds(&p);
    let ghost cs = pieces(p@, c@);
    let mut st: Vec<(usize, usize)> = Vec::new();
    let mut i: usize = 0;
    assert(cs.take(0) =~= Seq::<Seq<char>>::empty());
    assert(pieces(p@, st@) =~= Seq::<Seq<char>>::empty());
    while i < c.len()
        invariant
            0 <= i <= c.len(),
            abs == is_absolute(p@),
            p@ == path@,
            cs == pieces(p@, c@),
            cs == components(p@),
            bounds_within(c@, 0, p@.len() as int),
            bounds_within(st@, 0, p@.len() as int),
            pieces(p@, st@) == norm_stack(cs.take(i as int), abs),
        decreases c.len() - i,
    {
        let (lo, hi) = c[i];
        let ghost t = cs.take(i + 1);
        assert(t.drop_last() =~= cs.take(i as int));
        assert(t.last() == p@.subrange(lo as int, hi as int));
        let ghost s0 = st@;
        if is_dotdot_range(&p, lo, hi) {
            let top_is_name = if st.len() > 0 {
                let (a, b) = st[st.len() - 1];
                assert(pieces(p@, s0).last() == p@.subrange(a as int, b as int));
                !is_dotdot_range(&p, a, b)
            } else {
                false
            };
            if top_is_name {
                st.pop();
                assert(pieces(p@, st@) =~= pieces(p@, s0).drop_last());
            } else if !abs {
                st.push((lo, hi));
                assert(pieces(p@, st@) =~= pieces(p@, s0).push(p@.subrange(lo as int, hi as int)));
            }
        } else {
            st.push((lo, hi));
            assert(pieces(p@, st@) =~= pieces(p@, s0).push(p@.subrange(lo as int, hi as int)));
        }
        i = i + 1;
    }
    assert(cs.take(c.len() as int) =~= cs);
    let ghost stv = pieces(p@, st@);
    let mut r = String::new();
    if abs {
        push_char(&mut r, '/');
    }
    let ghost r0 = r@;
    let mut k: usize = 0;
    assert(stv.take(0) =~= Seq::<Seq<char>>::empty());
    while k < st.len()
        invariant
            0 <= k <= st.len(),
            bounds_within(st@, 0, p@.len() as int),
            stv == pieces(p@, st@),
            r@ == r0 + join_components(stv.take(k as int)),
        decreases st.len() - k,
    {
        let (a, b) = st[k];
        let ghost t = stv.take(k + 1);
        assert(t.drop_last() =~= stv.take(k as int));
        assert(t.last() == p@.subrange(a as int, b as int));
        if k > 0 {
            push_char(&mut r, '/');
        }
        push_range(&mut r, &p, a, b);
        if k > 0 {
            assert(r@ =~= r0 + (join_components(t.drop_last()) + seq!['/'] + t.last()));
        } else {
            assert(t.len() == 1);
            assert(r@ =~= r0 + t[0]);
        }
        k = k + 1;
    }
    assert(stv.take(st.len() as int) =~= stv);
    proof {
        if !abs {
            assert(r0 =~= Seq::<char>::empty());
        }
    }
    assert(r@ =~= lexical_normal(path@));
    r
}

} // verus!

verus! {

/// A component as it can be kept: non-empty, not `.`, without `/`.
pub open spec fn good_component(c: Seq<char>) -> bool {
    c.len() > 0 && !is_dot(c) && forall|k: int| 0 <= k < c.len() ==> #[trigger] c[k] != '/'
}

proof fn lemma_split_concat(a: Seq<char>, b: Seq<char>, sep: char)
    ensures
        split_on(a + seq![sep] + b, sep) == split_on(a, sep) + split_on(b, sep),
    decreases b.len(),
{
    let s = a + seq![sep] + b;
    if b.len() == 0 {
        assert(s.drop_last() =~= a);
        assert(split_on(b, sep) == seq![Seq::<char>::empty()]);
        assert(split_on(s, sep) =~= split_on(a, sep) + split_on(b, sep));
    } else {
        let b1 = b.drop_last();
        assert(s.drop_last() =~= a + seq![sep] + b1);
        assert(s.last() == b.last());
        lemma_split_concat(a, b1, sep);
        lemma_split_on_nonempty(b1, sep);
        let x = split_on(a, sep);
        let y = split_on(b1, sep);
        if b.last() == sep {
            assert(split_on(s, sep) =~= x + y.push(Seq::empty()));
        } else {
            assert((x + y).update((x + y).len() - 1, (x + y).last().push(b.last())) =~= x + y.update(
                y.len() - 1,
                y.last().push(b.last()),
            ));
        }
    }
}

proof fn lemma_keep_concat(xs: Seq<Seq<char>>, ys: Seq<Seq<char>>)
    ensures
        keep_components(xs + ys) == keep_components(xs) + keep_components(ys),
    decreases ys.len(),
{
    if ys.len() == 0 {
        assert(xs + ys =~= xs);
        assert(keep_components(xs) + keep_components(ys) =~= keep_components(xs));
    } else {
        assert((xs + ys).drop_last() =~= xs + ys.drop_last());
        assert((xs + ys).last() == ys.last());
        lemma_keep_concat(xs, ys.drop_last());
        let k = keep_components(xs);
        let l = keep_components(ys.drop_last());
        assert((k + l).push(ys.last()) =~= k + l.push(ys.last()));
    }
}

proof fn lemma_split_single(c: Seq<char>)
    requires
        forall|k: int| 0 <= k < c.len() ==> #[trigger] c[k] != '/',
    ensures
        split_on(c, '/') == seq![c],
    decreases c.len(),
{
    if c.len() == 0 {
        assert(c =~= Seq::<char>::empty());
    } else {
        let c1 = c.drop_last();
        assert forall|k: int| 0 <= k < c1.len() implies #[trigger] c1[k] != '/' by {
            assert(c1[k] == c[k]);
        }
        lemma_split_single(c1);
        assert(c1.push(c.last()) =~= c);
        assert(seq![c1].update(0, c1.push(c.last())) =~= seq![c]);
    }
}

proof fn lemma_components_of_join(st: Seq<Seq<char>>)
    requires
        forall|i: int| 0 <= i < st.len() ==> good_component(#[trigger] st[i]),
    ensures
        components(join_components(st)) == st,
    decreases st.len(),
{
    if st.len() == 0 {
        assert(split_on(Seq::<char>::empty(), '/') == seq![Seq::<char>::empty()]);
        lemma_keep_single(Seq::<char>::empty());
        assert(join_components(st) == Seq::<char>::empty());
        assert(st =~= Seq::<Seq<char>>::empty());
    } else {
        let last = st.last();
        assert(good_component(st[st.len() - 1]));
        lemma_split_single(last);
        lemma_keep_single(last);
        if st.len() == 1 {
            assert(st =~= seq![last]);
            assert(join_components(st) == st[0]);
        } else {
            let st1 = st.drop_last();
            assert forall|i: int| 0 <= i < st1.len() implies good_component(#[trigger] st1[i]) by {
                assert(st1[i] == st[i]);
            }
            lemma_components_of_join(st1);
            lemma_split_concat(join_components(st1), last, '/');
            lemma_keep_concat(split_on(join_components(st1), '/'), seq![last]);
            assert(join_components(st) == join_components(st1) + seq!['/'] + last);
            assert(st1 + seq![last] =~= st);
        }
    }
}

proof fn lemma_keep_single(c: Seq<char>)
    ensures
        good_component(c) ==> keep_components(seq![c]) == seq![c],
        c.len() == 0 ==> keep_components(seq![c]) == Seq::<Seq<char>>::empty(),
{
    let one = seq![c];
    assert(one.drop_last() =~= Seq::<Seq<char>>::empty());
    assert(one.last() == c);
    assert(keep_components(Seq::<Seq<char>>::empty()) == Seq::<Seq<char>>::empty());
    assert(keep_components(one) == if c.len() == 0 || is_dot(c) {
        keep_components(one.drop_last())
    } else {
        keep_components(one.drop_last()).push(c)
    });
    assert(Seq::<Seq<char>>::empty().push(c) =~= one);
}

proof fn lemma_components_after_root(j: Seq<char>)
    ensures
        components(seq!['/'] + j) == components(j),
{
    let e = Seq::<char>::empty();
    assert(seq!['/'] + j =~= e + seq!['/'] + j);
    lemma_split_concat(e, j, '/');
    assert(split_on(e, '/') == seq![e]);
    lemma_keep_concat(seq![e], split_on(j, '/'));
    lemma_keep_single(e);
    assert(Seq::<Seq<char>>::empty() + components(j) =~= components(j));
}

proof fn lemma_norm_stack_from(cs: Seq<Seq<char>>, abs: bool)
    ensures
        forall|i: int|
            0 <= i < norm_stack(cs, abs).len() ==> cs.contains(#[trigger] norm_stack(cs, abs)[i]),
    decreases cs.len(),
{
    if cs.len() > 0 {
        lemma_norm_stack_from(cs.drop_last(), abs);
        let st = norm_stack(cs.drop_last(), abs);
        let r = norm_stack(cs, abs);
        assert forall|i: int| 0 <= i < r.len() implies cs.contains(#[trigger] r[i]) by {
            if i < st.len() && (r.len() <= st.len() || i < r.len() - 1) {
                assert(r[i] == st[i]);
                let j = choose|j: int| 0 <= j < cs.drop_last().len() && cs.drop_last()[j] == st[i];
                assert(cs[j] == st[i]);
            } else {
                assert(r[i] == cs.last());
                assert(cs[cs.len() - 1] == cs.last());
            }
        }
    }
}

proof fn lemma_norm_stack_fixed(st: Seq<Seq<char>>, abs: bool)
    requires
        normal_stack(st, abs),
    ensures
        norm_stack(st, abs) == st,
    decreases st.len(),
{
    if st.len() > 0 {
        let st1 = st.drop_last();
        assert forall|i: int| 0 <= i < st1.len() && is_dotdot(#[trigger] st1[i]) implies !abs
            && forall|j: int| 0 <= j < i ==> is_dotdot(#[trigger] st1[j]) by {
            assert(st1[i] == st[i]);
            assert forall|j: int| 0 <= j < i implies is_dotdot(#[trigger] st1[j]) by {
                assert(st1[j] == st[j]);
                assert(is_dotdot(st[i]));
            }
        }
        lemma_norm_stack_fixed(st1, abs);
        let c = st.last();
        if is_dotdot(c) {
            assert(is_dotdot(st[st.len() - 1]));
            if st1.len() > 0 {
                assert(is_dotdot(st[st1.len() - 1]));
                assert(is_dotdot(st1.last()));
            }
            assert(!abs);
        }
        assert(st1.push(c) =~= st);
    }
}

proof fn lemma_join_first(st: Seq<Seq<char>>)
    requires
        st.len() > 0,
        st[0].len() > 0,
    ensures
        join_components(st).len() > 0,
        join_components(st)[0] == st[0][0],
    decreases st.len(),
{
    if st.len() > 1 {
        let st1 = st.drop_last();
        assert(st1[0] == st[0]);
        lemma_join_first(st1);
    }
}

/// Normalizing is idempotent: a normalized path comes back unchanged.
pub proof fn lemma_lexical_normal_idempotent(p: Seq<char>)
    ensures
        lexical_normal(lexical_normal(p)) == lexical_normal(p),
{
    let abs = is_absolute(p);
    let cs = components(p);
    let st = norm_stack(cs, abs);
    let q = lexical_normal(p);
    lemma_norm_stack_normal(cs, abs);
    lemma_norm_stack_from(cs, abs);
    assert forall|i: int| 0 <= i < st.len() implies good_component(#[trigger] st[i]) by {
        let j = choose|j: int| 0 <= j < cs.len() && cs[j] == st[i];
        lemma_component_has_no_slash(p, j);
        lemma_split_on_no_sep(p, '/');
        lemma_component_chars(split_on(p, '/'), j);
    }
    lemma_components_of_join(st);
    if abs {
        lemma_components_after_root(join_components(st));
        assert(q[0] == '/');
    } else if st.len() > 0 {
        lemma_join_first(st);
        assert(good_component(st[0]));
        assert(st[0][0] != '/');
    } else {
        assert(join_components(st) =~= Seq::<char>::empty());
    }
    assert(is_absolute(q) == abs);
    assert(components(q) == st);
    lemma_norm_stack_fixed(st, abs);
}

proof fn lemma_component_chars(ps: Seq<Seq<char>>, j: int)
    requires
        forall|a: int, k: int| 0 <= a < ps.len() && 0 <= k < ps[a].len() ==> #[trigger] ps[a][k] != '/',
        0 <= j < keep_components(ps).len(),
    ensures
        good_component(keep_components(ps)[j]),
    decreases ps.len(),
{
    let k = keep_components(ps.drop_last());
    if j < k.len() {
        assert forall|a: int, m: int| 0 <= a < ps.drop_last().len() && 0 <= m < ps.drop_last()[a].len() implies #[trigger] ps.drop_last()[a][m]
            != '/' by {
            assert(ps.drop_last()[a] == ps[a]);
        }
        lemma_component_chars(ps.drop_last(), j);
    } else {
        let c = ps.last();
        assert forall|m: int| 0 <= m < c.len() implies #[trigger] c[m] != '/' by {
            assert(ps[ps.len() - 1][m] == c[m]);
        }
    }
}

} // verus!
