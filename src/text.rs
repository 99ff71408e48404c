use vstd::prelude::*;

verus! {

/// The character of a decimal digit.
pub open spec fn digit_char(d: nat) -> char {
    seq!['0', '1', '2', '3', '4', '5', '6', '7', '8', '9'][d as int]
}

/// The decimal digits of a number, most significant first, without leading
/// zeros.
pub open spec fn decimal(n: nat) -> Seq<char>
    decreases n,
{
    if n < 10 {
        seq![digit_char(n)]
    } else {
        decimal(n / 10).push(digit_char(n % 10))
    }
}

/// The placeholder `{{n}}` that a template uses for its n-th value.
pub open spec fn placeholder(n: nat) -> Seq<char> {
    seq!['{', '{'] + decimal(n) + seq!['}', '}']
}

/// Whether `p` occurs in `t` starting at index `i`.
pub open spec fn occurs_at(t: Seq<char>, p: Seq<char>, i: int) -> bool {
    0 <= i && i + p.len() <= t.len() && t.subrange(i, i + p.len()) == p
}

/// The first entry, from `j` on, that is not used yet and whose (non-empty)
/// pattern occurs in `t` at `i`.
pub open spec fn match_at(t: Seq<char>, pats: Seq<Seq<char>>, used: Seq<bool>, i: int, j: int) -> Option<int>
    decreases pats.len() - j,
{
    if j < 0 || j >= pats.len() {
        None
    } else if !used[j] && pats[j].len() > 0 && occurs_at(t, pats[j], i) {
        Some(j)
    } else {
        match_at(t, pats, used, i, j + 1)
    }
}

/// What `match_at` picks: an unused entry whose non-empty pattern occurs at `i`.
pub proof fn lemma_match_at(t: Seq<char>, pats: Seq<Seq<char>>, used: Seq<bool>, i: int, j: int)
    requires
        used.len() == pats.len(),
    ensures
        match match_at(t, pats, used, i, j) {
            Some(m) => j <= m < pats.len() && !used[m] && pats[m].len() > 0 && occurs_at(t, pats[m], i),
            None => true,
        },
    decreases pats.len() - j,
{
    if 0 <= j < pats.len() && !(!used[j] && pats[j].len() > 0 && occurs_at(t, pats[j], i)) {
        lemma_match_at(t, pats, used, i, j + 1);
    }
}

/// One pass over `t` from index `i`: where an unused pattern starts, its value
/// is written out, the pattern skipped and the entry marked used; any other
/// character is copied. Values are never scanned. Returns the text and the
/// final marks.
pub open spec fn fill_from(
    t: Seq<char>,
    pats: Seq<Seq<char>>,
    vals: Seq<Seq<char>>,
    used: Seq<bool>,
    i: int,
) -> (Seq<char>, Seq<bool>)
    decreases t.len() - i,
{
    if i < 0 || i >= t.len() {
        (Seq::empty(), used)
    } else {
        match match_at(t, pats, used, i, 0) {
            Some(j) => if 0 <= j < pats.len() && 0 < pats[j].len() <= t.len() - i {
                let rest = fill_from(t, pats, vals, used.update(j, true), i + pats[j].len());
                (vals[j] + rest.0, rest.1)
            } else {
                (Seq::empty(), used)
            },
            None => {
                let rest = fill_from(t, pats, vals, used, i + 1);
                (seq![t[i]] + rest.0, rest.1)
            },
        }
    }
}

/// A pass keeps one mark per entry.
pub proof fn lemma_fill_marks_len(t: Seq<char>, pats: Seq<Seq<char>>, vals: Seq<Seq<char>>, used: Seq<bool>, i: int)
    requires
        used.len() == pats.len(),
    ensures
        fill_from(t, pats, vals, used, i).1.len() == used.len(),
    decreases t.len() - i,
{
    if 0 <= i < t.len() {
        match match_at(t, pats, used, i, 0) {
            Some(j) => if 0 <= j < pats.len() && 0 < pats[j].len() <= t.len() - i {
                lemma_fill_marks_len(t, pats, vals, used.update(j, true), i + pats[j].len());
            },
            None => {
                lemma_fill_marks_len(t, pats, vals, used, i + 1);
            },
        }
    }
}

/// The template `t` with the first occurrence of each pattern replaced by its
/// value, all in one pass.
pub open spec fn fill(t: Seq<char>, pats: Seq<Seq<char>>, vals: Seq<Seq<char>>) -> Seq<char> {
    fill_from(t, pats, vals, Seq::new(pats.len(), |j: int| false), 0).0
}

/// Which patterns were found (and replaced) by `fill`.
pub open spec fn fill_used(t: Seq<char>, pats: Seq<Seq<char>>, vals: Seq<Seq<char>>) -> Seq<bool> {
    fill_from(t, pats, vals, Seq::new(pats.len(), |j: int| false), 0).1
}

fn digit(d: usize) -> (c: char)
    requires
        d < 10,
    ensures
        c == digit_char(d as nat),
{
    match d {
        0 => '0',
        1 => '1',
        2 => '2',
        3 => '3',
        4 => '4',
        5 => '5',
        6 => '6',
        7 => '7',
        8 => '8',
        _ => '9',
    }
}

/// Appends the decimal digits of `n`.
pub fn push_decimal(n: usize, out: &mut Vec<char>)
    ensures
        final(out)@ == old(out)@ + decimal(n as nat),
    decreases n,
{
    if n >= 10 {
        push_decimal(n / 10, out);
    }
    out.push(digit(n % 10));
    proof {
        if n >= 10 {
            assert(decimal(n as nat) == decimal((n / 10) as nat).push(digit_char((n % 10) as nat)));
        }
    }
    assert(final(out)@ =~= old(out)@ + decimal(n as nat));
}

/// The characters of the placeholder for the n-th value.
pub fn placeholder_chars(n: usize) -> (r: Vec<char>)
    ensures
        r@ == placeholder(n as nat),
{
    let mut r: Vec<char> = Vec::new();
    r.push('{');
    r.push('{');
    push_decimal(n, &mut r);
    r.push('}');
    r.push('}');
    assert(r@ =~= placeholder(n as nat));
    r
}

/// The characters of a text, in order.
pub fn chars_of(s: &str) -> (r: Vec<char>)
    ensures
        r@ == s@,
{
    let n = s.unicode_len();
    let mut r: Vec<char> = Vec::new();
    let mut i: usize = 0;
    while i < n
        invariant
            n == s@.len(),
            i <= n,
            r@ == s@.subrange(0, i as int),
        decreases n - i,
    {
        r.push(s.get_char(i));
        i = i + 1;
        assert(r@ =~= s@.subrange(0, i as int));
    }
    assert(r@ =~= s@);
    r
}

/// Relies on `FromIterator<char>` for `String` (`collect`): the string holds the
/// characters in the order given.
#[verifier::external_body]
pub(crate) fn string_of(cs: &Vec<char>) -> (r: String)
    ensures
        r@ == cs@,
{
    cs.iter().collect()
}

/// The texts held by a sequence of character vectors.
pub open spec fn views(s: Seq<Vec<char>>) -> Seq<Seq<char>> {
    s.map_values(|v: Vec<char>| v@)
}

/// Whether `p` occurs anywhere in `t`.
pub open spec fn contains_text(t: Seq<char>, p: Seq<char>) -> bool {
    exists|i: int| occurs_at(t, p, i)
}

/// What `str::to_lowercase` makes of a text.
pub uninterp spec fn lower_of(s: Seq<char>) -> Seq<char>;

/// Relies on `str::to_lowercase`: the lower-case form of a text depends on
/// its characters alone.
#[verifier::external_body]
pub(crate) fn lowercase(s: &str) -> (r: String)
    ensures
        r@ == lower_of(s@),
{
    s.to_lowercase()
}

/// Whether `p` occurs anywhere in `t`.
pub fn contains_exec(t: &Vec<char>, p: &Vec<char>) -> (r: bool)
    ensures
        r == contains_text(t@, p@),
{
    if p.len() > t.len() {
        assert forall|i: int| !occurs_at(t@, p@, i) by {}
        return false;
    }
    let last = t.len() - p.len();
    let mut i: usize = 0;
    while i <= last
        invariant
            last == t@.len() - p@.len(),
            forall|k: int| 0 <= k < i ==> !occurs_at(t@, p@, k),
        decreases last + 1 - i,
    {
        if matches_at(t, p, i) {
            return true;
        }
        if i == last {
            assert forall|k: int| !occurs_at(t@, p@, k) by {
                if 0 <= k && k + p@.len() <= t@.len() {
                    assert(k <= last);
                }
            }
            return false;
        }
        i = i + 1;
    }
    false
}

/// Whether two texts are equal.
pub fn same_text(a: &str, b: &str) -> (r: bool)
    ensures
        r == (a@ == b@),
{
    let x = chars_of(a);
    let y = chars_of(b);
    if x.len() != y.len() {
        return false;
    }
    let mut k: usize = 0;
    while k < x.len()
        invariant
            x@ == a@,
            y@ == b@,
            x@.len() == y@.len(),
            k <= x@.len(),
            forall|m: int| 0 <= m < k ==> x@[m] == y@[m],
        decreases x.len() - k,
    {
        if x[k] != y[k] {
            assert(x@[k as int] != y@[k as int]);
            return false;
        }
        k = k + 1;
    }
    assert(x@ =~= y@);
    true
}

/// Whether `p` occurs in `t` at `i`.
pub(crate) fn matches_at(t: &Vec<char>, p: &Vec<char>, i: usize) -> (r: bool)
    ensures
        r == occurs_at(t@, p@, i as int),
{
    if p.len() > t.len() || i > t.len() - p.len() {
        return false;
    }
    let tl = t.len();
    let mut k: usize = 0;
    while k < p.len()
        invariant
            tl == t@.len(),
            i + p@.len() <= t@.len(),
            k <= p@.len(),
            forall|m: int| 0 <= m < k ==> t@[i + m] == p@[m],
        decreases p.len() - k,
    {
        if t[i + k] != p[k] {
            assert(t@.subrange(i as int, i + p@.len())[k as int] != p@[k as int]);
            return false;
        }
        k = k + 1;
    }
    assert(t@.subrange(i as int, i + p@.len()) =~= p@);
    true
}

/// The first unused entry whose pattern occurs in `t` at `i`.
fn find_match(t: &Vec<char>, pats: &Vec<Vec<char>>, used: &Vec<bool>, i: usize) -> (r: Option<usize>)
    requires
        used@.len() == pats@.len(),
    ensures
        match r {
            Some(j) => match_at(t@, views(pats@), used@, i as int, 0) == Some(j as int),
            None => match_at(t@, views(pats@), used@, i as int, 0) is None,
        },
{
    let ghost ps = views(pats@);
    let mut j: usize = 0;
    while j < pats.len()
        invariant
            used@.len() == pats@.len(),
            ps == views(pats@),
            j <= pats@.len(),
            match_at(t@, ps, used@, i as int, 0) == match_at(t@, ps, used@, i as int, j as int),
        decreases pats.len() - j,
    {
        if !used[j] && pats[j].len() > 0 && matches_at(t, &pats[j], i) {
            return Some(j);
        }
        j = j + 1;
    }
    None
}

/// Replaces, in one pass over `t`, the first occurrence of each pattern by its
/// value, and reports which patterns were found.
pub fn fill_exec(t: &Vec<char>, pats: &Vec<Vec<char>>, vals: &Vec<Vec<char>>) -> (r: (Vec<char>, Vec<bool>))
    requires
        pats@.len() == vals@.len(),
    ensures
        r.0@ == fill(t@, views(pats@), views(vals@)),
        r.1@ == fill_used(t@, views(pats@), views(vals@)),
        r.1@.len() == pats@.len(),
{
    let ghost ps = views(pats@);
    let ghost vs = views(vals@);
    let mut used: Vec<bool> = Vec::new();
    let mut j: usize = 0;
    while j < pats.len()
        invariant
            j <= pats@.len(),
            used@ == Seq::new(j as nat, |m: int| false),
        decreases pats.len() - j,
    {
        used.push(false);
        j = j + 1;
        assert(used@ =~= Seq::new(j as nat, |m: int| false));
    }
    let ghost used0 = used@;
    let mut out: Vec<char> = Vec::new();
    let mut i: usize = 0;
    while i < t.len()
        invariant
            pats@.len() == vals@.len(),
            ps == views(pats@),
            vs == views(vals@),
            used@.len() == pats@.len(),
            i <= t@.len(),
            out@ + fill_from(t@, ps, vs, used@, i as int).0 == fill_from(t@, ps, vs, used0, 0).0,
            fill_from(t@, ps, vs, used@, i as int).1 == fill_from(t@, ps, vs, used0, 0).1,
        decreases t.len() - i,
    {
        let m = find_match(t, pats, &used, i);
        proof {
            lemma_match_at(t@, ps, used@, i as int, 0);
        }
        match m {
            Some(j) => {
                let ghost before = used@;
                let v = &vals[j];
                let mut k: usize = 0;
                let ghost out0 = out@;
                while k < v.len()
                    invariant
                        k <= v@.len(),
                        out@ == out0 + v@.subrange(0, k as int),
                    decreases v.len() - k,
                {
                    out.push(v[k]);
                    k = k + 1;
                    assert(out@ =~= out0 + v@.subrange(0, k as int));
                }
                assert(v@.subrange(0, v@.len() as int) =~= v@);
                used.set(j, true);
                assert(used@ =~= before.update(j as int, true));
                assert(occurs_at(t@, ps[j as int], i as int));
                i = i + pats[j].len();
                assert(out@ =~= out0 + vs[j as int]);
                assert((out0 + vs[j as int]) + fill_from(t@, ps, vs, used@, i as int).0 =~= out0 + (vs[j as int] + fill_from(t@, ps, vs, used@, i as int).0));
            },
            None => {
                let ghost out0 = out@;
                out.push(t[i]);
                i = i + 1;
                assert(out@ =~= out0 + seq![t@[i - 1]]);
                assert((out0 + seq![t@[i - 1]]) + fill_from(t@, ps, vs, used@, i as int).0 =~= out0 + (seq![t@[i - 1]] + fill_from(t@, ps, vs, used@, i as int).0));
            },
        }
    }
    assert(out@ =~= fill_from(t@, ps, vs, used0, 0).0);
    proof {
        lemma_fill_marks_len(t@, ps, vs, used0, 0);
    }
    (out, used)
}

} // verus!
