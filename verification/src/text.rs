//! Character-level text operations: the model of `str::replace` and
//! `str::trim_matches` over sequences of characters, with verified
//! implementations on `&str`.
use vstd::prelude::*;
use vstd::string::*;

verus! {

/// The string that results from replacing, scanning from left to right, every
/// non-overlapping occurrence of `pat` in `s` by `rep`. An empty pattern
/// matches before every character and at the end.
pub open spec fn replace_all(s: Seq<char>, pat: Seq<char>, rep: Seq<char>) -> Seq<char>
    decreases s.len(),
{
    if pat.len() == 0 {
        if s.len() == 0 {
            rep
        } else {
            rep + seq![s[0]] + replace_all(s.drop_first(), pat, rep)
        }
    } else if s.len() < pat.len() {
        s
    } else if s.take(pat.len() as int) == pat {
        rep + replace_all(s.skip(pat.len() as int), pat, rep)
    } else {
        seq![s[0]] + replace_all(s.drop_first(), pat, rep)
    }
}

/// `s` without its leading run of `c`.
pub open spec fn trim_start_char(s: Seq<char>, c: char) -> Seq<char>
    decreases s.len(),
{
    if s.len() > 0 && s[0] == c {
        trim_start_char(s.drop_first(), c)
    } else {
        s
    }
}

/// `s` without its trailing run of `c`.
pub open spec fn trim_end_char(s: Seq<char>, c: char) -> Seq<char>
    decreases s.len(),
{
    if s.len() > 0 && s.last() == c {
        trim_end_char(s.drop_last(), c)
    } else {
        s
    }
}

/// `s` with every leading and trailing `c` removed.
pub open spec fn trim_char(s: Seq<char>, c: char) -> Seq<char> {
    trim_end_char(trim_start_char(s, c), c)
}

/// The decimal digit character for `d < 10`.
pub open spec fn digit_char(d: nat) -> char {
    if d == 0 {
        '0'
    } else if d == 1 {
        '1'
    } else if d == 2 {
        '2'
    } else if d == 3 {
        '3'
    } else if d == 4 {
        '4'
    } else if d == 5 {
        '5'
    } else if d == 6 {
        '6'
    } else if d == 7 {
        '7'
    } else if d == 8 {
        '8'
    } else {
        '9'
    }
}

/// The decimal notation of `n`, without leading zeros.
pub open spec fn decimal(n: nat) -> Seq<char>
    decreases n,
{
    if n < 10 {
        seq![digit_char(n)]
    } else {
        decimal(n / 10) + seq![digit_char(n % 10)]
    }
}

/// The characters of `s`, in order.
pub fn to_chars(s: &str) -> (v: Vec<char>)
    ensures
        v@ == s@,
{
    let n = s.unicode_len();
    let mut v: Vec<char> = Vec::new();
    let mut i: usize = 0;
    while i < n
        invariant
            n == s@.len(),
            i <= n,
            v@ == s@.take(i as int),
        decreases n - i,
    {
        let c = s.get_char(i);
        v.push(c);
        i = i + 1;
        assert(v@ =~= s@.take(i as int));
    }
    assert(v@ =~= s@);
    v
}

/// Whether two character vectors hold the same characters.
pub fn chars_eq(a: &Vec<char>, b: &Vec<char>) -> (r: bool)
    ensures
        r == (a@ == b@),
{
    if a.len() != b.len() {
        return false;
    }
    let mut i: usize = 0;
    while i < a.len()
        invariant
            a.len() == b.len(),
            i <= a.len(),
            forall|k: int| 0 <= k < i ==> a@[k] == b@[k],
        decreases a.len() - i,
    {
        if a[i] != b[i] {
            return false;
        }
        i = i + 1;
    }
    assert(a@ =~= b@);
    true
}

/// Whether `pat` occurs in `v` at position `i`.
fn matches_at(v: &Vec<char>, pat: &Vec<char>, i: usize) -> (r: bool)
    requires
        i + pat.len() <= v.len(),
    ensures
        r == (v@.subrange(i as int, i + pat.len()) == pat@),
{
    let m = pat.len();
    let mut k: usize = 0;
    while k < m
        invariant
            m == pat.len(),
            i + m <= v.len(),
            k <= m,
            forall|j: int| 0 <= j < k ==> v@[i + j] == pat@[j],
        decreases m - k,
    {
        if v[i + k] != pat[k] {
            assert(v@.subrange(i as int, i + m)[k as int] != pat@[k as int]);
            return false;
        }
        k = k + 1;
    }
    assert(v@.subrange(i as int, i + m) =~= pat@);
    true
}

proof fn lemma_replace_step_match(s: Seq<char>, i: int, pat: Seq<char>, rep: Seq<char>)
    requires
        pat.len() > 0,
        0 <= i,
        i + pat.len() <= s.len(),
        s.subrange(i, i + pat.len()) == pat,
    ensures
        replace_all(s.subrange(i, s.len() as int), pat, rep) == rep + replace_all(
            s.subrange(i + pat.len(), s.len() as int),
            pat,
            rep,
        ),
{
    let t = s.subrange(i, s.len() as int);
    assert(t.take(pat.len() as int) =~= s.subrange(i, i + pat.len()));
    assert(t.skip(pat.len() as int) =~= s.subrange(i + pat.len(), s.len() as int));
}

proof fn lemma_replace_step_miss(s: Seq<char>, i: int, pat: Seq<char>, rep: Seq<char>)
    requires
        pat.len() > 0,
        0 <= i,
        i + pat.len() <= s.len(),
        s.subrange(i, i + pat.len()) != pat,
    ensures
        replace_all(s.subrange(i, s.len() as int), pat, rep) == seq![s[i]] + replace_all(
            s.subrange(i + 1, s.len() as int),
            pat,
            rep,
        ),
{
    let t = s.subrange(i, s.len() as int);
    assert(t.take(pat.len() as int) =~= s.subrange(i, i + pat.len()));
    assert(t.drop_first() =~= s.subrange(i + 1, s.len() as int));
}

proof fn lemma_replace_step_empty(s: Seq<char>, i: int, pat: Seq<char>, rep: Seq<char>)
    requires
        pat.len() == 0,
        0 <= i < s.len(),
    ensures
        replace_all(s.subrange(i, s.len() as int), pat, rep) == rep + seq![s[i]] + replace_all(
            s.subrange(i + 1, s.len() as int),
            pat,
            rep,
        ),
{
    let t = s.subrange(i, s.len() as int);
    assert(t.drop_first() =~= s.subrange(i + 1, s.len() as int));
}

/// The library's `str::replace`: every non-overlapping occurrence of `pat` in
/// `s`, found from left to right, is replaced by `rep`.
pub fn replace_all_str(s: &str, pat: &Vec<char>, rep: &str) -> (r: String)
    ensures
        r@ == replace_all(s@, pat@, rep@),
{
    let v = to_chars(s);
    let n = v.len();
    let m = pat.len();
    let mut res = String::new();
    let mut i: usize = 0;
    assert(s@.subrange(0, n as int) =~= s@);
    assert(res@ + replace_all(s@, pat@, rep@) =~= replace_all(s@, pat@, rep@));
    if m == 0 {
        while i < n
            invariant
                n == v.len(),
                v@ == s@,
                pat@.len() == 0,
                i <= n,
                res@ + replace_all(s@.subrange(i as int, n as int), pat@, rep@) == replace_all(
                    s@,
                    pat@,
                    rep@,
                ),
            decreases n - i,
        {
            proof {
                lemma_replace_step_empty(s@, i as int, pat@, rep@);
            }
            res.append(rep);
            let one = s.substring_char(i, i + 1);
            assert(one@ =~= seq![s@[i as int]]);
            res.append(one);
            i = i + 1;
            assert(res@ + replace_all(s@.subrange(i as int, n as int), pat@, rep@) =~= replace_all(
                s@,
                pat@,
                rep@,
            ));
        }
        assert(s@.subrange(n as int, n as int) =~= Seq::<char>::empty());
        res.append(rep);
        return res;
    }
    while i < n
        invariant
            n == v.len(),
            m == pat.len(),
            m > 0,
            v@ == s@,
            i <= n,
            res@ + replace_all(s@.subrange(i as int, n as int), pat@, rep@) == replace_all(
                s@,
                pat@,
                rep@,
            ),
        decreases n - i,
    {
        if n - i < m {
            let rest = s.substring_char(i, n);
            res.append(rest);
            i = n;
            assert(s@.subrange(n as int, n as int) =~= Seq::<char>::empty());
        } else if matches_at(&v, pat, i) {
            proof {
                lemma_replace_step_match(s@, i as int, pat@, rep@);
            }
            res.append(rep);
            i = i + m;
            assert(res@ + replace_all(s@.subrange(i as int, n as int), pat@, rep@) =~= replace_all(
                s@,
                pat@,
                rep@,
            ));
        } else {
            proof {
                lemma_replace_step_miss(s@, i as int, pat@, rep@);
            }
            let one = s.substring_char(i, i + 1);
            assert(one@ =~= seq![s@[i as int]]);
            res.append(one);
            i = i + 1;
            assert(res@ + replace_all(s@.subrange(i as int, n as int), pat@, rep@) =~= replace_all(
                s@,
                pat@,
                rep@,
            ));
        }
    }
    assert(s@.subrange(n as int, n as int) =~= Seq::<char>::empty());
    res
}

/// The library's `str::trim_matches` for a single character: every leading
/// and every trailing `c` is removed.
pub fn trim_matches_char(s: &str, c: char) -> (r: String)
    ensures
        r@ == trim_char(s@, c),
{
    let v = to_chars(s);
    let n = v.len();
    let mut a: usize = 0;
    assert(s@.subrange(0, n as int) =~= s@);
    while a < n && v[a] == c
        invariant
            n == v.len(),
            v@ == s@,
            a <= n,
            trim_start_char(s@, c) == trim_start_char(s@.subrange(a as int, n as int), c),
        decreases n - a,
    {
        assert(s@.subrange(a as int, n as int).drop_first() =~= s@.subrange(a + 1, n as int));
        a = a + 1;
    }
    assert(trim_start_char(s@, c) == s@.subrange(a as int, n as int));
    let mut b: usize = n;
    while b > a && v[b - 1] == c
        invariant
            n == v.len(),
            v@ == s@,
            a <= b <= n,
            trim_end_char(s@.subrange(a as int, n as int), c) == trim_end_char(
                s@.subrange(a as int, b as int),
                c,
            ),
        decreases b,
    {
        assert(s@.subrange(a as int, b as int).drop_last() =~= s@.subrange(a as int, b - 1));
        b = b - 1;
    }
    assert(trim_end_char(s@.subrange(a as int, b as int), c) == s@.subrange(a as int, b as int));
    let t = s.substring_char(a, b);
    t.to_owned()
}

/// The digit character of `d`.
fn digit(d: usize) -> (c: char)
    requires
        d < 10,
    ensures
        c == digit_char(d as nat),
{
    if d == 0 {
        '0'
    } else if d == 1 {
        '1'
    } else if d == 2 {
        '2'
    } else if d == 3 {
        '3'
    } else if d == 4 {
        '4'
    } else if d == 5 {
        '5'
    } else if d == 6 {
        '6'
    } else if d == 7 {
        '7'
    } else if d == 8 {
        '8'
    } else {
        '9'
    }
}

/// The decimal notation of `n`, as `format!("{}", n)` writes it.
pub fn decimal_chars(n: usize) -> (v: Vec<char>)
    ensures
        v@ == decimal(n as nat),
    decreases n,
{
    if n < 10 {
        let mut v: Vec<char> = Vec::new();
        v.push(digit(n));
        assert(v@ =~= decimal(n as nat));
        v
    } else {
        let mut v = decimal_chars(n / 10);
        v.push(digit(n % 10));
        assert(v@ =~= decimal(n as nat));
        v
    }
}

} // verus!
