//! The character-level model of the ad hoc stanza splitting used throughout
//! the server, and the executable search helpers that implement it.
//!
//! Stanzas are handled as sequences of `char`. "Splitting once at `c`"
//! yields the part before the first `c` and, when `c` occurs, the part after it.
use vstd::prelude::*;
use vstd::string::*;

verus! {

/// `i` is the position of the first `c` in `s`.
pub open spec fn is_first_index<A>(s: Seq<A>, c: A, i: int) -> bool {
    &&& 0 <= i < s.len()
    &&& s[i] == c
    &&& forall|j: int| 0 <= j < i ==> s[j] != c
}

/// `i` is the position of the last `c` in `s`.
pub open spec fn is_last_index<A>(s: Seq<A>, c: A, i: int) -> bool {
    &&& 0 <= i < s.len()
    &&& s[i] == c
    &&& forall|j: int| i < j < s.len() ==> s[j] != c
}

/// `c` occurs somewhere in `s`.
pub open spec fn occurs<A>(s: Seq<A>, c: A) -> bool {
    exists|i: int| 0 <= i < s.len() && s[i] == c
}

/// Position of the first `c` in `s`, if any.
pub open spec fn first_index_of<A>(s: Seq<A>, c: A) -> Option<int> {
    if exists|i: int| is_first_index(s, c, i) {
        Some(choose|i: int| is_first_index(s, c, i))
    } else {
        None
    }
}

/// Position of the last `c` in `s`, if any.
pub open spec fn last_index_of<A>(s: Seq<A>, c: A) -> Option<int> {
    if exists|i: int| is_last_index(s, c, i) {
        Some(choose|i: int| is_last_index(s, c, i))
    } else {
        None
    }
}

/// The text before the first `c`; the whole of `s` when `c` does not occur.
pub open spec fn before_first<A>(s: Seq<A>, c: A) -> Seq<A> {
    match first_index_of(s, c) {
        Some(i) => s.take(i),
        None => s,
    }
}

/// The text after the first `c`; nothing when `c` does not occur.
pub open spec fn after_first<A>(s: Seq<A>, c: A) -> Option<Seq<A>> {
    match first_index_of(s, c) {
        Some(i) => Some(s.skip(i + 1)),
        None => None,
    }
}

/// The text before the last `c`; nothing when `c` does not occur.
pub open spec fn before_last<A>(s: Seq<A>, c: A) -> Option<Seq<A>> {
    match last_index_of(s, c) {
        Some(i) => Some(s.take(i)),
        None => None,
    }
}

/// `s` begins with `p`.
pub open spec fn starts_with(s: Seq<char>, p: Seq<char>) -> bool {
    p.len() <= s.len() && s.take(p.len() as int) == p
}

/// Among the pieces of `s` cut at `sep`, making at most `splits` cuts from
/// the left (the last piece keeps the rest), the first piece that begins with `p`.
pub open spec fn piece_with_prefix_limited(s: Seq<char>, sep: char, splits: nat, p: Seq<char>) -> Option<Seq<char>>
    decreases splits,
{
    if splits == 0 {
        if starts_with(s, p) { Some(s) } else { None }
    } else {
        match after_first(s, sep) {
            None => if starts_with(s, p) { Some(s) } else { None },
            Some(rest) => if starts_with(before_first(s, sep), p) {
                Some(before_first(s, sep))
            } else {
                piece_with_prefix_limited(rest, sep, (splits - 1) as nat, p)
            },
        }
    }
}

/// Among all the pieces of `s` cut at every `sep`, the first that begins with `p`.
pub open spec fn piece_with_prefix(s: Seq<char>, sep: char, p: Seq<char>) -> Option<Seq<char>> {
    piece_with_prefix_limited(s, sep, s.len(), p)
}

/// The text between the first and the second `'` of `attr` (to the end when
/// there is no second one); nothing when `attr` holds no `'`.
pub open spec fn quoted_value(attr: Seq<char>) -> Option<Seq<char>> {
    match after_first(attr, '\'') {
        Some(v) => Some(before_first(v, '\'')),
        None => None,
    }
}

pub proof fn lemma_first_index_is<A>(s: Seq<A>, c: A, i: int)
    requires
        is_first_index(s, c, i),
    ensures
        first_index_of(s, c) == Some(i),
{
    let k = choose|k: int| is_first_index(s, c, k);
    assert(is_first_index(s, c, k));
    if k < i {
        assert(s[k] != c);
    }
    if i < k {
        assert(s[i] != c);
    }
}

pub proof fn lemma_last_index_is<A>(s: Seq<A>, c: A, i: int)
    requires
        is_last_index(s, c, i),
    ensures
        last_index_of(s, c) == Some(i),
{
    let k = choose|k: int| is_last_index(s, c, k);
    assert(is_last_index(s, c, k));
    if k < i {
        assert(s[i] != c);
    }
    if i < k {
        assert(s[k] != c);
    }
}

pub proof fn lemma_first_index_absent<A>(s: Seq<A>, c: A)
    requires
        forall|j: int| 0 <= j < s.len() ==> s[j] != c,
    ensures
        first_index_of(s, c) is None,
        last_index_of(s, c) is None,
{
    if exists|i: int| is_first_index(s, c, i) {
        let i = choose|i: int| is_first_index(s, c, i);
        assert(s[i] == c);
    }
    if exists|i: int| is_last_index(s, c, i) {
        let i = choose|i: int| is_last_index(s, c, i);
        assert(s[i] == c);
    }
}

/// When `c` occurs, there is a first occurrence, no later than any occurrence.
pub proof fn lemma_first_index_exists<A>(s: Seq<A>, c: A, i: int)
    requires
        0 <= i < s.len(),
        s[i] == c,
    ensures
        first_index_of(s, c) matches Some(k) && is_first_index(s, c, k) && k <= i,
    decreases i,
{
    if forall|j: int| 0 <= j < i ==> s[j] != c {
        assert(is_first_index(s, c, i));
        lemma_first_index_is(s, c, i);
    } else {
        let j = choose|j: int| 0 <= j < i && s[j] == c;
        lemma_first_index_exists(s, c, j);
    }
}

/// The position the model reports is a genuine first occurrence.
pub proof fn lemma_first_index_sound<A>(s: Seq<A>, c: A)
    ensures
        first_index_of(s, c) matches Some(k) ==> is_first_index(s, c, k),
        first_index_of(s, c) is None <==> !occurs(s, c),
{
    if occurs(s, c) {
        let i = choose|i: int| 0 <= i < s.len() && s[i] == c;
        lemma_first_index_exists(s, c, i);
    } else {
        lemma_first_index_absent(s, c);
    }
}

/// Cutting the window `v[lo..hi]` at its first `c`, found at `k`.
pub proof fn lemma_window_cut<A>(v: Seq<A>, lo: int, hi: int, c: A, k: int)
    requires
        0 <= lo <= k < hi <= v.len(),
        first_index_of(v.subrange(lo, hi), c) == Some(k - lo),
    ensures
        before_first(v.subrange(lo, hi), c) == v.subrange(lo, k),
        after_first(v.subrange(lo, hi), c) == Some(v.subrange(k + 1, hi)),
{
    assert(v.subrange(lo, hi).take(k - lo) =~= v.subrange(lo, k));
    assert(v.subrange(lo, hi).skip(k - lo + 1) =~= v.subrange(k + 1, hi));
}

/// Cutting the window `v[lo..hi]` at its last `c`, found at `k`.
pub proof fn lemma_window_cut_last<A>(v: Seq<A>, lo: int, hi: int, c: A, k: int)
    requires
        0 <= lo <= k < hi <= v.len(),
        last_index_of(v.subrange(lo, hi), c) == Some(k - lo),
    ensures
        before_last(v.subrange(lo, hi), c) == Some(v.subrange(lo, k)),
{
    assert(v.subrange(lo, hi).take(k - lo) =~= v.subrange(lo, k));
}

/// The end of the window `v[lo..hi]` before its first `c` (the whole window when `c` is absent).
pub fn end_before_first(v: &Vec<char>, lo: usize, hi: usize, c: char) -> (e: usize)
    requires
        lo <= hi <= v@.len(),
    ensures
        lo <= e <= hi,
        before_first(v@.subrange(lo as int, hi as int), c) == v@.subrange(lo as int, e as int),
{
    match find_first(v, lo, hi, c) {
        Some(k) => {
            proof {
                lemma_window_cut(v@, lo as int, hi as int, c, k as int);
            }
            k
        },
        None => hi,
    }
}

/// The window of the first piece of `v[lo..hi]` that begins with `p`, cutting
/// at `sep` at most `splits` times.
pub fn find_piece_with_prefix(
    v: &Vec<char>,
    lo: usize,
    hi: usize,
    sep: char,
    splits: usize,
    p: &Vec<char>,
) -> (r: Option<(usize, usize)>)
    requires
        lo <= hi <= v@.len(),
    ensures
        match r {
            Some((a, b)) => lo <= a <= b <= hi && piece_with_prefix_limited(
                v@.subrange(lo as int, hi as int),
                sep,
                splits as nat,
                p@,
            ) == Some(v@.subrange(a as int, b as int)),
            None => piece_with_prefix_limited(
                v@.subrange(lo as int, hi as int),
                sep,
                splits as nat,
                p@,
            ) is None,
        },
{
    let ghost goal = piece_with_prefix_limited(v@.subrange(lo as int, hi as int), sep, splits as nat, p@);
    let mut cur = lo;
    let mut left = splits;
    loop
        invariant
            lo <= cur <= hi <= v@.len(),
            goal == piece_with_prefix_limited(v@.subrange(lo as int, hi as int), sep, splits as nat, p@),
            goal == piece_with_prefix_limited(v@.subrange(cur as int, hi as int), sep, left as nat, p@),
        decreases left,
    {
        if left == 0 {
            if starts_with_at(v, cur, hi, p) {
                return Some((cur, hi));
            } else {
                return None;
            }
        }
        match find_first(v, cur, hi, sep) {
            None => {
                if starts_with_at(v, cur, hi, p) {
                    return Some((cur, hi));
                } else {
                    return None;
                }
            },
            Some(k) => {
                proof {
                    lemma_window_cut(v@, cur as int, hi as int, sep, k as int);
                }
                if starts_with_at(v, cur, k, p) {
                    return Some((cur, k));
                }
                cur = k + 1;
                left = left - 1;
            },
        }
    }
}

/// The window of `quoted_value(v[lo..hi])`.
pub fn find_quoted_value(v: &Vec<char>, lo: usize, hi: usize) -> (r: Option<(usize, usize)>)
    requires
        lo <= hi <= v@.len(),
    ensures
        match r {
            Some((a, b)) => lo <= a <= b <= hi && quoted_value(v@.subrange(lo as int, hi as int))
                == Some(v@.subrange(a as int, b as int)),
            None => quoted_value(v@.subrange(lo as int, hi as int)) is None,
        },
{
    match find_first(v, lo, hi, '\'') {
        None => None,
        Some(k) => {
            proof {
                lemma_window_cut(v@, lo as int, hi as int, '\'', k as int);
            }
            let e = end_before_first(v, k + 1, hi, '\'');
            Some((k + 1, e))
        },
    }
}

/// A piece search with at least as many cuts as characters cuts everywhere.
pub proof fn lemma_piece_unlimited(s: Seq<char>, sep: char, splits: nat, p: Seq<char>)
    requires
        splits >= s.len(),
    ensures
        piece_with_prefix_limited(s, sep, splits, p) == piece_with_prefix(s, sep, p),
    decreases s.len(),
{
    lemma_first_index_sound(s, sep);
    if splits > 0 && s.len() > 0 {
        match after_first(s, sep) {
            None => {},
            Some(rest) => {
                lemma_piece_unlimited(rest, sep, (splits - 1) as nat, p);
                lemma_piece_unlimited(rest, sep, (s.len() - 1) as nat, p);
            },
        }
    } else if s.len() == 0 {
        lemma_first_index_absent(s, sep);
    }
}

/// Cutting `a + [c] + b` at its first `c`, when `a` holds no `c`.
pub proof fn lemma_cut_join<A>(a: Seq<A>, c: A, b: Seq<A>)
    requires
        !occurs(a, c),
    ensures
        first_index_of(a + seq![c] + b, c) == Some(a.len() as int),
        before_first(a + seq![c] + b, c) == a,
        after_first(a + seq![c] + b, c) == Some(b),
{
    let s = a + seq![c] + b;
    assert forall|j: int| 0 <= j < a.len() implies s[j] != c by {
        assert(s[j] == a[j]);
    }
    assert(s[a.len() as int] == c);
    assert(is_first_index(s, c, a.len() as int));
    lemma_first_index_is(s, c, a.len() as int);
    assert(s.take(a.len() as int) =~= a);
    assert(s.skip(a.len() as int + 1) =~= b);
}

/// Cutting a text that does not hold `c` leaves it whole.
pub proof fn lemma_no_cut<A>(s: Seq<A>, c: A)
    requires
        !occurs(s, c),
    ensures
        first_index_of(s, c) is None,
        before_first(s, c) == s,
        after_first(s, c) is None,
{
    lemma_first_index_absent(s, c);
}

/// `a + b` holds `c` exactly when `a` or `b` does.
pub proof fn lemma_occurs_concat<A>(a: Seq<A>, b: Seq<A>, c: A)
    ensures
        occurs(a + b, c) == (occurs(a, c) || occurs(b, c)),
{
    let s = a + b;
    if occurs(s, c) {
        let i = choose|i: int| 0 <= i < s.len() && s[i] == c;
        if i < a.len() {
            assert(a[i] == c);
        } else {
            assert(b[i - a.len()] == c);
        }
    }
    if occurs(a, c) {
        let i = choose|i: int| 0 <= i < a.len() && a[i] == c;
        assert(s[i] == c);
    }
    if occurs(b, c) {
        let i = choose|i: int| 0 <= i < b.len() && b[i] == c;
        assert(s[a.len() + i] == c);
    }
}

/// The part before the first `c` holds no `c`; cutting keeps out whatever `s` lacks.
pub proof fn lemma_cut_parts_lack<A>(s: Seq<A>, c: A, x: A)
    ensures
        !occurs(before_first(s, c), c),
        !occurs(s, x) ==> !occurs(before_first(s, c), x),
        !occurs(s, x) ==> (after_first(s, c) matches Some(r) ==> !occurs(r, x)),
{
    lemma_first_index_sound(s, c);
    match first_index_of(s, c) {
        Some(k) => {
            let b = s.take(k);
            if occurs(b, c) {
                let i = choose|i: int| 0 <= i < b.len() && b[i] == c;
                assert(s[i] == c);
            }
            if occurs(b, x) {
                let i = choose|i: int| 0 <= i < b.len() && b[i] == x;
                assert(s[i] == x);
            }
            let r = s.skip(k + 1);
            if occurs(r, x) {
                let i = choose|i: int| 0 <= i < r.len() && r[i] == x;
                assert(s[k + 1 + i] == x);
            }
        },
        None => {},
    }
}

/// A piece of `s` lacks whatever `s` lacks.
pub proof fn lemma_piece_lacks(s: Seq<char>, sep: char, splits: nat, p: Seq<char>, x: char)
    requires
        !occurs(s, x),
    ensures
        piece_with_prefix_limited(s, sep, splits, p) matches Some(piece) ==> !occurs(piece, x),
    decreases splits,
{
    lemma_cut_parts_lack(s, sep, x);
    if splits > 0 {
        match after_first(s, sep) {
            Some(rest) => lemma_piece_lacks(rest, sep, (splits - 1) as nat, p, x),
            None => {},
        }
    }
}

/// With a cut at every separator, no piece holds the separator.
pub proof fn lemma_piece_lacks_separator(s: Seq<char>, sep: char, splits: nat, p: Seq<char>)
    requires
        splits >= s.len(),
    ensures
        piece_with_prefix_limited(s, sep, splits, p) matches Some(piece) ==> !occurs(piece, sep),
    decreases splits,
{
    lemma_cut_parts_lack(s, sep, sep);
    lemma_first_index_sound(s, sep);
    if splits > 0 {
        match after_first(s, sep) {
            Some(rest) => lemma_piece_lacks_separator(rest, sep, (splits - 1) as nat, p),
            None => {},
        }
    } else {
        if occurs(s, sep) {
            let i = choose|i: int| 0 <= i < s.len() && s[i] == sep;
        }
    }
}

/// A quoted value holds no `'` and lacks whatever the attribute lacks.
pub proof fn lemma_quoted_value_lacks(attr: Seq<char>, x: char)
    ensures
        quoted_value(attr) matches Some(v) ==> !occurs(v, '\'') && (!occurs(attr, x) ==> !occurs(
            v,
            x,
        )),
{
    lemma_cut_parts_lack(attr, '\'', x);
    match after_first(attr, '\'') {
        Some(v) => lemma_cut_parts_lack(v, '\'', x),
        None => {},
    }
}

/// Cutting `a + [c] + b` at its last `c`, when `b` holds no `c`.
pub proof fn lemma_cut_last_join<A>(a: Seq<A>, c: A, b: Seq<A>)
    requires
        !occurs(b, c),
    ensures
        before_last(a + seq![c] + b, c) == Some(a),
{
    let s = a + seq![c] + b;
    let k = a.len() as int;
    assert forall|j: int| k < j < s.len() implies s[j] != c by {
        assert(s[j] == b[j - k - 1]);
    }
    assert(s[k] == c);
    assert(is_last_index(s, c, k));
    lemma_last_index_is(s, c, k);
    assert(s.take(k) =~= a);
}

/// In `a0 a1 a2 rest` (cut at spaces at most three times), where the first
/// three pieces hold no space and do not begin with `p` and `rest` does, the
/// piece found is `rest`.
pub proof fn lemma_fourth_piece(a0: Seq<char>, a1: Seq<char>, a2: Seq<char>, rest: Seq<char>, p: Seq<char>)
    requires
        !occurs(a0, ' '),
        !occurs(a1, ' '),
        !occurs(a2, ' '),
        !starts_with(a0, p),
        !starts_with(a1, p),
        !starts_with(a2, p),
        starts_with(rest, p),
    ensures
        piece_with_prefix_limited(a0 + seq![' '] + (a1 + seq![' '] + (a2 + seq![' '] + rest)), ' ', 3, p)
            == Some(rest),
{
    let t2 = a2 + seq![' '] + rest;
    let t1 = a1 + seq![' '] + t2;
    lemma_cut_join(a0, ' ', t1);
    lemma_cut_join(a1, ' ', t2);
    lemma_cut_join(a2, ' ', rest);
    assert(piece_with_prefix_limited(a0 + seq![' '] + t1, ' ', 3, p) == piece_with_prefix_limited(t1, ' ', 2, p));
    assert(piece_with_prefix_limited(t1, ' ', 2, p) == piece_with_prefix_limited(t2, ' ', 1, p));
    assert(piece_with_prefix_limited(t2, ' ', 1, p) == piece_with_prefix_limited(rest, ' ', 0, p));
}

/// Searching the pieces of `a + [sep] + rest` when the first piece `a` does not
/// begin with `p` goes on in `rest`.
pub proof fn lemma_piece_skip(a: Seq<char>, sep: char, rest: Seq<char>, p: Seq<char>)
    requires
        !occurs(a, sep),
        !starts_with(a, p),
    ensures
        piece_with_prefix(a + seq![sep] + rest, sep, p) == piece_with_prefix(rest, sep, p),
{
    let s = a + seq![sep] + rest;
    lemma_cut_join(a, sep, rest);
    lemma_piece_unlimited(rest, sep, (s.len() - 1) as nat, p);
}

/// The first piece `a` of `a + [sep] + rest` is found when it begins with `p`.
pub proof fn lemma_piece_found(a: Seq<char>, sep: char, rest: Seq<char>, p: Seq<char>)
    requires
        !occurs(a, sep),
        starts_with(a, p),
    ensures
        piece_with_prefix(a + seq![sep] + rest, sep, p) == Some(a),
{
    lemma_cut_join(a, sep, rest);
}

/// The characters of `s`, in order.
pub fn chars_of(s: &str) -> (v: Vec<char>)
    ensures
        v@ == s@,
{
    let n = s.unicode_len();
    let mut v: Vec<char> = Vec::new();
    let mut i: usize = 0;
    while i < n
        invariant
            i <= n,
            n == s@.len(),
            v@ == s@.take(i as int),
        decreases n - i,
    {
        let c = s.get_char(i);
        v.push(c);
        i = i + 1;
        assert(v@ =~= s@.take(i as int));
    }
    assert(v@ =~= s@);
    v
}

/// Position of the first `c` in `v[lo..hi]`, counted in `v`.
pub fn find_first(v: &Vec<char>, lo: usize, hi: usize, c: char) -> (r: Option<usize>)
    requires
        lo <= hi <= v@.len(),
    ensures
        match r {
            Some(k) => lo <= k < hi && first_index_of(v@.subrange(lo as int, hi as int), c) == Some(
                k - lo,
            ),
            None => first_index_of(v@.subrange(lo as int, hi as int), c) is None,
        },
{
    let ghost s = v@.subrange(lo as int, hi as int);
    let mut k = lo;
    while k < hi
        invariant
            lo <= k <= hi,
            hi <= v@.len(),
            s == v@.subrange(lo as int, hi as int),
            forall|j: int| lo <= j < k ==> v@[j] != c,
        decreases hi - k,
    {
        if v[k] == c {
            proof {
                assert forall|j: int| 0 <= j < k - lo implies s[j] != c by {
                    assert(s[j] == v@[lo + j]);
                }
                assert(is_first_index(s, c, k - lo));
                lemma_first_index_is(s, c, k - lo);
            }
            return Some(k);
        }
        k = k + 1;
    }
    proof {
        assert forall|j: int| 0 <= j < s.len() implies s[j] != c by {
            assert(s[j] == v@[lo + j]);
        }
        lemma_first_index_absent(s, c);
    }
    None
}

/// Position of the last `c` in `v[lo..hi]`, counted in `v`.
pub fn find_last(v: &Vec<char>, lo: usize, hi: usize, c: char) -> (r: Option<usize>)
    requires
        lo <= hi <= v@.len(),
    ensures
        match r {
            Some(k) => lo <= k < hi && last_index_of(v@.subrange(lo as int, hi as int), c) == Some(
                k - lo,
            ),
            None => last_index_of(v@.subrange(lo as int, hi as int), c) is None,
        },
{
    let ghost s = v@.subrange(lo as int, hi as int);
    let mut k = hi;
    while k > lo
        invariant
            lo <= k <= hi,
            hi <= v@.len(),
            s == v@.subrange(lo as int, hi as int),
            forall|j: int| k <= j < hi ==> v@[j] != c,
        decreases k - lo,
    {
        if v[k - 1] == c {
            proof {
                assert forall|j: int| k - 1 - lo < j < s.len() implies s[j] != c by {
                    assert(s[j] == v@[lo + j]);
                }
                assert(is_last_index(s, c, k - 1 - lo));
                lemma_last_index_is(s, c, k - 1 - lo);
            }
            return Some(k - 1);
        }
        k = k - 1;
    }
    proof {
        assert forall|j: int| 0 <= j < s.len() implies s[j] != c by {
            assert(s[j] == v@[lo + j]);
        }
        lemma_first_index_absent(s, c);
    }
    None
}

/// Whether `v[lo..hi]` begins with `p`.
pub fn starts_with_at(v: &Vec<char>, lo: usize, hi: usize, p: &Vec<char>) -> (b: bool)
    requires
        lo <= hi <= v@.len(),
    ensures
        b == starts_with(v@.subrange(lo as int, hi as int), p@),
{
    let ghost s = v@.subrange(lo as int, hi as int);
    if p.len() > hi - lo {
        return false;
    }
    let mut i: usize = 0;
    while i < p.len()
        invariant
            i <= p@.len(),
            p@.len() <= hi - lo,
            lo <= hi <= v@.len(),
            s == v@.subrange(lo as int, hi as int),
            forall|j: int| 0 <= j < i ==> v@[lo + j] == p@[j],
        decreases p@.len() - i,
    {
        if v[lo + i] != p[i] {
            proof {
                assert(s.take(p@.len() as int)[i as int] != p@[i as int]);
            }
            return false;
        }
        i = i + 1;
    }
    assert(s.take(p@.len() as int) =~= p@);
    true
}

/// Whether `s` begins with `p`.
pub fn str_starts_with(s: &str, p: &str) -> (b: bool)
    ensures
        b == starts_with(s@, p@),
{
    let v = chars_of(s);
    let pv = chars_of(p);
    let n = v.len();
    assert(v@.subrange(0, n as int) =~= v@);
    starts_with_at(&v, 0, n, &pv)
}

/// Whether `a` and `b` hold the same characters.
pub fn str_equal(a: &str, b: &str) -> (r: bool)
    ensures
        r == (a@ == b@),
{
    let av = chars_of(a);
    let bv = chars_of(b);
    if av.len() != bv.len() {
        assert(a@.len() != b@.len());
        return false;
    }
    let mut i: usize = 0;
    while i < av.len()
        invariant
            i <= av@.len(),
            av@ == a@,
            bv@ == b@,
            av@.len() == bv@.len(),
            forall|j: int| 0 <= j < i ==> av@[j] == bv@[j],
        decreases av@.len() - i,
    {
        if av[i] != bv[i] {
            assert(a@[i as int] != b@[i as int]);
            return false;
        }
        i = i + 1;
    }
    assert(av@ =~= bv@);
    true
}

/// A copy of the characters `lo..hi` of `s`.
pub fn substring(s: &str, lo: usize, hi: usize) -> (r: String)
    requires
        lo <= hi <= s@.len(),
    ensures
        r@ == s@.subrange(lo as int, hi as int),
{
    String::from_str(s.substring_char(lo, hi))
}

} // verus!
