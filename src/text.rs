//! Character-sequence helpers: searching for a pattern, splitting on a
//! separator, comparing and writing decimal numbers.
use vstd::prelude::*;
use vstd::string::StrSliceExecFns;
use vstd::string::StringExecFns;

verus! {

/// `pat` occurs in `s` starting at index `i`.
pub open spec fn matches_at(s: Seq<char>, pat: Seq<char>, i: int) -> bool {
    0 <= i && i + pat.len() <= s.len() && s.subrange(i, i + pat.len()) == pat
}

/// The first index at or after `i` where `pat` occurs in `s`, or -1.
pub open spec fn find_from(s: Seq<char>, pat: Seq<char>, i: int) -> int
    decreases s.len() + 1 - i,
{
    if i < 0 || i + pat.len() > s.len() {
        -1
    } else if matches_at(s, pat, i) {
        i
    } else {
        find_from(s, pat, i + 1)
    }
}

/// The first index where `pat` occurs in `s`, or -1.
pub open spec fn find(s: Seq<char>, pat: Seq<char>) -> int {
    find_from(s, pat, 0)
}

pub proof fn lemma_find_from_bounds(s: Seq<char>, pat: Seq<char>, i: int)
    ensures
        find_from(s, pat, i) == -1 || (i <= find_from(s, pat, i) && matches_at(
            s,
            pat,
            find_from(s, pat, i),
        )),
        find_from(s, pat, i) >= 0 ==> forall|j: int|
            i <= j < find_from(s, pat, i) ==> !matches_at(s, pat, j),
        find_from(s, pat, i) == -1 && i >= 0 ==> forall|j: int| i <= j ==> !matches_at(s, pat, j),
    decreases s.len() + 1 - i,
{
    if i < 0 || i + pat.len() > s.len() {
    } else if matches_at(s, pat, i) {
    } else {
        lemma_find_from_bounds(s, pat, i + 1);
    }
}

pub proof fn lemma_find_bounds(s: Seq<char>, pat: Seq<char>)
    ensures
        find(s, pat) == -1 || (0 <= find(s, pat) && find(s, pat) + pat.len() <= s.len()
            && s.subrange(find(s, pat), find(s, pat) + pat.len()) == pat),
        find(s, pat) >= 0 ==> forall|j: int| 0 <= j < find(s, pat) ==> !matches_at(s, pat, j),
        find(s, pat) == -1 ==> forall|j: int| 0 <= j ==> !matches_at(s, pat, j),
{
    lemma_find_from_bounds(s, pat, 0);
}

pub proof fn lemma_find_from_first(s: Seq<char>, pat: Seq<char>, i: int, p: int)
    requires
        0 <= i <= p,
        matches_at(s, pat, p),
        forall|j: int| i <= j < p ==> !matches_at(s, pat, j),
    ensures
        find_from(s, pat, i) == p,
    decreases p - i,
{
    if i < p {
        lemma_find_from_first(s, pat, i + 1, p);
    }
}

/// Where `pat` occurs at `p` and nowhere before, `find` gives `p`.
pub proof fn lemma_find_first(s: Seq<char>, pat: Seq<char>, p: int)
    requires
        matches_at(s, pat, p),
        forall|j: int| 0 <= j < p ==> !matches_at(s, pat, j),
    ensures
        find(s, pat) == p,
{
    lemma_find_from_first(s, pat, 0, p);
}

pub proof fn lemma_find_from_absent(s: Seq<char>, pat: Seq<char>, i: int)
    requires
        0 <= i,
        forall|j: int| i <= j ==> !matches_at(s, pat, j),
    ensures
        find_from(s, pat, i) == -1,
    decreases s.len() + 1 - i,
{
    if i + pat.len() <= s.len() {
        lemma_find_from_absent(s, pat, i + 1);
    }
}

/// Where `pat` occurs nowhere, `find` gives -1.
pub proof fn lemma_find_absent(s: Seq<char>, pat: Seq<char>)
    requires
        forall|j: int| 0 <= j ==> !matches_at(s, pat, j),
    ensures
        find(s, pat) == -1,
{
    lemma_find_from_absent(s, pat, 0);
}

/// The pieces of `s` between the occurrences of `sep`, taken from left to right.
pub open spec fn split(s: Seq<char>, sep: Seq<char>) -> Seq<Seq<char>>
    decreases s.len(),
{
    let i = find(s, sep);
    // `i + sep.len() <= s.len()` always holds when `i >= 0` (see `lemma_find_bounds`).
    if sep.len() == 0 || i < 0 || i + sep.len() > s.len() {
        seq![s]
    } else {
        seq![s.take(i)] + split(s.skip(i + sep.len()), sep)
    }
}


/// Splitting `a`, the separator and `b` gives the pieces of `a` followed by
/// those of `b`, where no occurrence of the separator starts in the last
/// characters of `a` and runs into what follows.
pub proof fn lemma_split_concat(a: Seq<char>, sep: Seq<char>, b: Seq<char>)
    requires
        sep.len() > 0,
        forall|j: int|
            a.len() - sep.len() < j < a.len() ==> !#[trigger] matches_at(a + sep + b, sep, j),
    ensures
        split(a + sep + b, sep) == split(a, sep) + split(b, sep),
    decreases a.len(),
{
    let t = a + sep + b;
    let sl = sep.len() as int;
    let al = a.len() as int;
    let i = find(a, sep);
    lemma_find_bounds(a, sep);
    assert forall|j: int| 0 <= j && j + sl <= al implies matches_at(t, sep, j) == matches_at(a, sep, j) by {
        assert(t.subrange(j, j + sl) =~= a.subrange(j, j + sl));
    }
    if i < 0 {
        assert forall|j: int| 0 <= j < al implies !matches_at(t, sep, j) by {
            if j + sl <= al {
                assert(!matches_at(a, sep, j));
            }
        }
        assert(t.subrange(al, al + sl) =~= sep);
        lemma_find_first(t, sep, al);
        assert(t.take(al) =~= a);
        assert(t.skip(al + sl) =~= b);
        assert(split(a, sep) == seq![a]);
        assert(split(t, sep) =~= split(a, sep) + split(b, sep));
    } else {
        assert forall|j: int| 0 <= j < i implies !matches_at(t, sep, j) by {
            assert(!matches_at(a, sep, j));
        }
        lemma_find_first(t, sep, i);
        let a2 = a.skip(i + sl);
        let t2 = a2 + sep + b;
        assert(t.skip(i + sl) =~= t2);
        assert(t.take(i) =~= a.take(i));
        assert forall|j: int| a2.len() - sl < j < a2.len() implies !#[trigger] matches_at(t2, sep, j) by {
            if matches_at(t2, sep, j) {
                assert(t2.subrange(j, j + sl) =~= t.subrange(j + i + sl, j + i + sl + sl));
                assert(matches_at(t, sep, j + i + sl));
            }
        }
        lemma_split_concat(a2, sep, b);
        assert(split(a, sep) == seq![a.take(i)] + split(a2, sep));
        assert(split(t, sep) == seq![t.take(i)] + split(t2, sep));
        assert(split(t, sep) =~= split(a, sep) + split(b, sep));
    }
}

/// Each piece of a split stands in `s` at some index, and holds no separator.
pub proof fn lemma_split_piece(s: Seq<char>, sep: Seq<char>, k: int)
    requires
        sep.len() > 0,
        0 <= k < split(s, sep).len(),
    ensures
        forall|j: int| !matches_at(split(s, sep)[k], sep, j),
        exists|a: int| #[trigger] matches_at(s, split(s, sep)[k], a),
    decreases s.len(),
{
    let i = find(s, sep);
    lemma_find_bounds(s, sep);
    if i < 0 || i + sep.len() > s.len() {
        assert(s.subrange(0, s.len() as int) =~= s);
        assert(matches_at(s, split(s, sep)[k], 0));
    } else if k == 0 {
        let p = s.take(i);
        assert(split(s, sep)[0] == p);
        assert forall|j: int| !matches_at(p, sep, j) by {
            if matches_at(p, sep, j) {
                assert(s.subrange(j, j + sep.len()) =~= p.subrange(j, j + sep.len()));
                assert(matches_at(s, sep, j));
            }
        }
        assert(s.subrange(0, p.len() as int) =~= p);
        assert(matches_at(s, split(s, sep)[k], 0));
    } else {
        let rest = s.skip(i + sep.len());
        lemma_split_piece(rest, sep, k - 1);
        assert(split(s, sep)[k] == split(rest, sep)[k - 1]);
        let p = split(rest, sep)[k - 1];
        let a = choose|a: int| matches_at(rest, p, a);
        assert(s.subrange(a + i + sep.len(), a + i + sep.len() + p.len()) =~= rest.subrange(a, a + p.len()));
        assert(matches_at(s, split(s, sep)[k], a + i + sep.len()));
    }
}

/// The pieces of `v[lo..hi]` that the ranges in `ranges` cut out.
pub open spec fn pieces(v: Seq<char>, ranges: Seq<(usize, usize)>) -> Seq<Seq<char>> {
    ranges.map_values(|r: (usize, usize)| v.subrange(r.0 as int, r.1 as int))
}

/// The characters of `s`, in order.
pub fn chars_of(s: &str) -> (r: Vec<char>)
    ensures
        r@ == s@,
{
    let n = s.unicode_len();
    let mut r: Vec<char> = Vec::with_capacity(n);
    let mut i: usize = 0;
    while i < n
        invariant
            n == s@.len(),
            i <= n,
            r@ == s@.take(i as int),
        decreases n - i,
    {
        r.push(s.get_char(i));
        i = i + 1;
        assert(r@ =~= s@.take(i as int));
    }
    assert(r@ =~= s@);
    r
}

/// Whether `pat` occurs in `v` at index `at`, looking at `v[lo..hi]` only.
fn matches_in(v: &Vec<char>, pat: &Vec<char>, lo: usize, hi: usize, at: usize) -> (r: bool)
    requires
        lo <= at <= hi <= v.len(),
    ensures
        r == matches_at(v@.subrange(lo as int, hi as int), pat@, at - lo),
{
    let ghost w = v@.subrange(lo as int, hi as int);
    if pat.len() > hi - at {
        return false;
    }
    let mut k: usize = 0;
    while k < pat.len()
        invariant
            lo <= at <= hi <= v.len(),
            w == v@.subrange(lo as int, hi as int),
            pat.len() <= hi - at,
            k <= pat.len(),
            forall|j: int| 0 <= j < k ==> v@[at + j] == pat@[j],
        decreases pat.len() - k,
    {
        if v[at + k] != pat[k] {
            assert(w.subrange(at - lo, at - lo + pat.len())[k as int] != pat@[k as int]);
            return false;
        }
        k = k + 1;
    }
    assert(w.subrange(at - lo, at - lo + pat.len()) =~= pat@);
    true
}

/// The first occurrence of `pat` in `v[lo..hi]`, as an index into `v`.
pub fn find_in(v: &Vec<char>, pat: &Vec<char>, lo: usize, hi: usize) -> (r: Option<usize>)
    requires
        lo <= hi <= v.len(),
    ensures
        match r {
            Some(i) => lo <= i && find(v@.subrange(lo as int, hi as int), pat@) == i - lo,
            None => find(v@.subrange(lo as int, hi as int), pat@) == -1,
        },
{
    let ghost w = v@.subrange(lo as int, hi as int);
    if pat.len() == 0 {
        assert(w.subrange(0, 0) =~= pat@);
        return Some(lo);
    }
    let mut at: usize = lo;
    while at <= hi
        invariant
            lo <= at,
            lo <= hi <= v.len(),
            pat.len() > 0,
            w == v@.subrange(lo as int, hi as int),
            find(w, pat@) == find_from(w, pat@, at - lo),
        decreases hi + 1 - at,
    {
        if pat.len() > hi - at {
            return None;
        }
        if matches_in(v, pat, lo, hi, at) {
            return Some(at);
        }
        at = at + 1;
    }
    None
}

/// Cuts `v[lo..hi]` at each occurrence of `sep` and gives the pieces' ranges.
pub fn split_in(v: &Vec<char>, sep: &Vec<char>, lo: usize, hi: usize) -> (r: Vec<(usize, usize)>)
    requires
        lo <= hi <= v.len(),
        sep.len() > 0,
    ensures
        pieces(v@, r@) == split(v@.subrange(lo as int, hi as int), sep@),
        forall|k: int| 0 <= k < r.len() ==> lo <= #[trigger] r@[k].0 <= r@[k].1 <= hi,
{
    let mut r: Vec<(usize, usize)> = Vec::new();
    let mut pos: usize = lo;
    loop
        invariant
            lo <= pos <= hi <= v.len(),
            sep.len() > 0,
            split(v@.subrange(lo as int, hi as int), sep@) == pieces(v@, r@) + split(
                v@.subrange(pos as int, hi as int),
                sep@,
            ),
            forall|k: int| 0 <= k < r.len() ==> lo <= #[trigger] r@[k].0 <= r@[k].1 <= hi,
        decreases hi - pos,
    {
        let ghost w = v@.subrange(pos as int, hi as int);
        proof {
            lemma_find_bounds(w, sep@);
        }
        match find_in(v, sep, pos, hi) {
            None => {
                r.push((pos, hi));
                assert(pieces(v@, r@) =~= pieces(v@, r@.drop_last()) + seq![w]);
                return r;
            },
            Some(i) => {
                let ghost old_r = r@;
                assert(find(w, sep@) == i - pos);
                assert(i + sep.len() <= hi);
                r.push((pos, i));
                let next = i + sep.len();
                assert(w.take(i - pos) =~= v@.subrange(pos as int, i as int));
                assert(w.skip(i - pos + sep.len()) =~= v@.subrange(next as int, hi as int));
                assert(pieces(v@, r@) =~= pieces(v@, old_r) + seq![w.take(i - pos)]);
                assert(split(w, sep@) == seq![w.take(i - pos)] + split(w.skip(i - pos + sep.len()), sep@));
                pos = next;
            },
        }
    }
}

/// Whether two strings hold the same characters.
pub fn str_eq(a: &str, b: &str) -> (r: bool)
    ensures
        r == (a@ == b@),
{
    let n = a.unicode_len();
    if n != b.unicode_len() {
        return false;
    }
    let mut i: usize = 0;
    while i < n
        invariant
            n == a@.len() == b@.len(),
            i <= n,
            forall|j: int| 0 <= j < i ==> a@[j] == b@[j],
        decreases n - i,
    {
        if a.get_char(i) != b.get_char(i) {
            return false;
        }
        i = i + 1;
    }
    assert(a@ =~= b@);
    true
}


/// The character of the decimal digit `d`.
pub open spec fn digit_char(d: nat) -> char {
    if d == 0 {
        '0'
    } else if d == 1 {
        '1'
    } else if d == 2 {
        '2'
    } else if d == 3 {
        '3'
    } else if d == 4 {
        '4'
    } else if d == 5 {
        '5'
    } else if d == 6 {
        '6'
    } else if d == 7 {
        '7'
    } else if d == 8 {
        '8'
    } else {
        '9'
    }
}

/// `n` written in decimal, without leading zeros.
pub open spec fn decimal(n: nat) -> Seq<char>
    decreases n,
{
    if n < 10 {
        seq![digit_char(n)]
    } else {
        decimal(n / 10).push(digit_char(n % 10))
    }
}

fn digit_str(d: u16) -> (r: &'static str)
    requires
        d < 10,
    ensures
        r@ == seq![digit_char(d as nat)],
{
    proof {
        reveal_strlit("0");
        reveal_strlit("1");
        reveal_strlit("2");
        reveal_strlit("3");
        reveal_strlit("4");
        reveal_strlit("5");
        reveal_strlit("6");
        reveal_strlit("7");
        reveal_strlit("8");
        reveal_strlit("9");
    }
    match d {
        0 => "0",
        1 => "1",
        2 => "2",
        3 => "3",
        4 => "4",
        5 => "5",
        6 => "6",
        7 => "7",
        8 => "8",
        _ => "9",
    }
}

/// Appends `n` in decimal to `s`.
pub fn append_decimal(s: &mut String, n: u16)
    ensures
        final(s)@ == old(s)@ + decimal(n as nat),
    decreases n,
{
    if n >= 10 {
        append_decimal(s, n / 10);
    }
    s.append(digit_str(n % 10));
    assert(final(s)@ =~= old(s)@ + decimal(n as nat));
}

} // verus!
