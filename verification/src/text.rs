//! Character-level string operations used across the save manager, each with
//! a specification over `Seq<char>`.
use vstd::prelude::*;
use vstd::string::*;

verus! {

/// The characters of each string.
pub open spec fn views(v: Seq<String>) -> Seq<Seq<char>> {
    v.map_values(|s: String| s@)
}

/// Calls `String::push`, which appends one character at the end of the string.
#[verifier::external_body]
pub(crate) fn push_char(s: &mut String, c: char)
    ensures
        final(s)@ == old(s)@.push(c),
{
    s.push(c);
}

/// The characters of `s`, in order.
pub fn chars_of(s: &str) -> (v: Vec<char>)
    ensures
        v@ == s@,
{
    let n = s.unicode_len();
    let mut v: Vec<char> = Vec::new();
    for i in 0..n
        invariant
            n == s@.len(),
            v@ == s@.subrange(0, i as int),
    {
        v.push(s.get_char(i));
        assert(v@ =~= s@.subrange(0, i + 1));
    }
    assert(v@ =~= s@);
    v
}

/// A string made of the characters of `v`, in order.
pub fn string_from_chars(v: &Vec<char>) -> (s: String)
    ensures
        s@ == v@,
{
    let mut s = String::new();
    for i in 0..v.len()
        invariant
            s@ == v@.subrange(0, i as int),
    {
        push_char(&mut s, v[i]);
        assert(s@ =~= v@.subrange(0, i + 1));
    }
    assert(s@ =~= v@);
    s
}


/// `a` followed by `b`.
pub fn join_strs(a: &str, b: &str) -> (r: String)
    ensures
        r@ == a@ + b@,
{
    let mut r = String::new();
    r.append(a);
    r.append(b);
    assert(r@ =~= a@ + b@);
    r
}

/// `pat` occurs in `s` starting at position `i`.
pub open spec fn occurs_at(s: Seq<char>, pat: Seq<char>, i: int) -> bool {
    0 <= i && i + pat.len() <= s.len() && s.subrange(i, i + pat.len()) == pat
}

/// The characters of `s` from position `i` on, with every occurrence of `pat`
/// replaced by `rep`, occurrences taken from left to right without overlap.
pub open spec fn replace_from(s: Seq<char>, pat: Seq<char>, rep: Seq<char>, i: nat) -> Seq<char>
    decreases s.len() - i,
{
    if i >= s.len() {
        Seq::empty()
    } else if pat.len() > 0 && occurs_at(s, pat, i as int) {
        rep + replace_from(s, pat, rep, i + pat.len())
    } else {
        seq![s[i as int]] + replace_from(s, pat, rep, i + 1)
    }
}

/// `s` with every occurrence of `pat` replaced by `rep`, as `str::replace` does
/// for a pattern that is not empty.
pub open spec fn replace_all(s: Seq<char>, pat: Seq<char>, rep: Seq<char>) -> Seq<char> {
    replace_from(s, pat, rep, 0)
}

/// `pat` occurs somewhere in `s`.
pub open spec fn contains_pattern(s: Seq<char>, pat: Seq<char>) -> bool {
    exists|j: int| occurs_at(s, pat, j)
}

/// `s` with each `a` made a `b`.
pub open spec fn swap_char(s: Seq<char>, a: char, b: char) -> Seq<char> {
    Seq::new(s.len(), |i: int| if s[i] == a { b } else { s[i] })
}

/// Replacing a one-character pattern swaps that character everywhere.
pub proof fn lemma_replace_one_char(s: Seq<char>, a: char, b: char, i: nat)
    requires
        i <= s.len(),
    ensures
        replace_from(s, seq![a], seq![b], i) == swap_char(s.subrange(i as int, s.len() as int), a, b),
    decreases s.len() - i,
{
    if i < s.len() {
        lemma_replace_one_char(s, a, b, i + 1);
        assert(occurs_at(s, seq![a], i as int) <==> s[i as int] == a) by {
            if s[i as int] == a {
                assert(s.subrange(i as int, i as int + 1) =~= seq![a]);
            } else {
                assert(s.subrange(i as int, i as int + 1)[0] != seq![a][0]);
            }
        }
        assert(replace_from(s, seq![a], seq![b], i) =~= swap_char(s.subrange(i as int, s.len() as int), a, b));
    } else {
        assert(replace_from(s, seq![a], seq![b], i) =~= swap_char(s.subrange(i as int, s.len() as int), a, b));
    }
}

/// Where `pat` does not occur from position `i` on, replacing leaves that
/// part as it is.
pub proof fn lemma_replace_absent(s: Seq<char>, pat: Seq<char>, rep: Seq<char>, i: nat)
    requires
        i <= s.len(),
        forall|j: int| i <= j ==> !occurs_at(s, pat, j),
    ensures
        replace_from(s, pat, rep, i) == s.subrange(i as int, s.len() as int),
    decreases s.len() - i,
{
    if i < s.len() {
        assert(!occurs_at(s, pat, i as int));
        lemma_replace_absent(s, pat, rep, i + 1);
        assert(replace_from(s, pat, rep, i) =~= s.subrange(i as int, s.len() as int));
    } else {
        assert(replace_from(s, pat, rep, i) =~= s.subrange(i as int, s.len() as int));
    }
}

/// Replacing in `pat + s` takes away the leading `pat` and replaces in `s`
/// alone, where `pat` does not occur in `s`: removing `pat` undoes putting it
/// in front.
pub proof fn lemma_remove_prefix(pat: Seq<char>, s: Seq<char>)
    requires
        pat.len() > 0,
        !contains_pattern(s, pat),
    ensures
        replace_all(pat + s, pat, Seq::empty()) == s,
{
    let t = pat + s;
    assert(t.subrange(0, pat.len() as int) =~= pat);
    assert forall|j: int| pat.len() <= j implies !occurs_at(t, pat, j) by {
        if occurs_at(t, pat, j) {
            assert(t.subrange(j, j + pat.len()) =~= s.subrange(j - pat.len(), j - pat.len() + pat.len()));
            assert(occurs_at(s, pat, j - pat.len()));
        }
    }
    lemma_replace_absent(t, pat, Seq::empty(), pat.len());
    assert(t.subrange(pat.len() as int, t.len() as int) =~= s);
    assert(Seq::<char>::empty() + s =~= s);
}

/// Replacing from a position past a prefix `x` is replacing in what
/// follows `x`.
pub proof fn lemma_replace_shift(x: Seq<char>, y: Seq<char>, pat: Seq<char>, rep: Seq<char>, k: nat)
    requires
        k <= y.len(),
    ensures
        replace_from(x + y, pat, rep, x.len() + k) == replace_from(y, pat, rep, k),
    decreases y.len() - k,
{
    let t = x + y;
    let o: int = x.len() as int + k as int;
    let ki: int = k as int;
    if k < y.len() {
        assert(occurs_at(t, pat, o) <==> occurs_at(y, pat, ki)) by {
            if o + pat.len() <= t.len() {
                assert(t.subrange(o, o + pat.len()) =~= y.subrange(ki, ki + pat.len()));
            }
        }
        assert(t[o] == y[ki]);
        if pat.len() > 0 && occurs_at(y, pat, ki) {
            lemma_replace_shift(x, y, pat, rep, k + pat.len());
        } else {
            lemma_replace_shift(x, y, pat, rep, k + 1);
        }
    }
}

/// Where `pat` occurs at no position from `i` to `j`, replacing from `i`
/// copies those characters and goes on at `j`.
pub proof fn lemma_replace_copies(s: Seq<char>, pat: Seq<char>, rep: Seq<char>, i: nat, j: nat)
    requires
        i <= j <= s.len(),
        forall|q: int| i <= q < j ==> !occurs_at(s, pat, q),
    ensures
        replace_from(s, pat, rep, i) == s.subrange(i as int, j as int) + replace_from(s, pat, rep, j),
    decreases j - i,
{
    if i < j {
        assert(!occurs_at(s, pat, i as int));
        lemma_replace_copies(s, pat, rep, i + 1, j);
        let ii: int = i as int;
        assert(seq![s[ii]] + (s.subrange(ii + 1, j as int) + replace_from(s, pat, rep, j))
            =~= s.subrange(ii, j as int) + replace_from(s, pat, rep, j));
    } else {
        assert(s.subrange(i as int, j as int) =~= Seq::<char>::empty());
        assert(Seq::<char>::empty() + replace_from(s, pat, rep, j) =~= replace_from(s, pat, rep, j));
    }
}

fn occurs_at_exec(s: &Vec<char>, pat: &Vec<char>, i: usize) -> (b: bool)
    requires
        i <= s.len(),
    ensures
        b == occurs_at(s@, pat@, i as int),
{
    if pat.len() > s.len() - i {
        return false;
    }
    let mut j: usize = 0;
    while j < pat.len()
        invariant
            i + pat.len() <= s.len(),
            j <= pat.len(),
            forall|k: int| 0 <= k < j ==> s@[i + k] == pat@[k],
        decreases pat.len() - j,
    {
        if s[i + j] != pat[j] {
            assert(s@.subrange(i as int, i + pat.len())[j as int] != pat@[j as int]);
            return false;
        }
        j = j + 1;
    }
    assert(s@.subrange(i as int, i + pat.len()) =~= pat@);
    true
}

/// Replaces every occurrence of `pat` in `s` by `rep`.
pub fn replace(s: &str, pat: &str, rep: &str) -> (res: String)
    requires
        pat@.len() > 0,
    ensures
        res@ == replace_all(s@, pat@, rep@),
{
    let sv = chars_of(s);
    let pv = chars_of(pat);
    let rv = chars_of(rep);
    let mut out: Vec<char> = Vec::new();
    let mut i: usize = 0;
    while i < sv.len()
        invariant
            i <= sv.len(),
            pv@.len() > 0,
            out@ + replace_from(sv@, pv@, rv@, i as nat) == replace_all(sv@, pv@, rv@),
        decreases sv.len() - i,
    {
        let ghost before = out@;
        if occurs_at_exec(&sv, &pv, i) {
            let mut k: usize = 0;
            while k < rv.len()
                invariant
                    k <= rv.len(),
                    out@ == before + rv@.subrange(0, k as int),
                decreases rv.len() - k,
            {
                out.push(rv[k]);
                assert(out@ =~= before + rv@.subrange(0, k + 1));
                k = k + 1;
            }
            assert(rv@.subrange(0, rv.len() as int) =~= rv@);
            assert(before + (rv@ + replace_from(sv@, pv@, rv@, (i + pv.len()) as nat))
                =~= out@ + replace_from(sv@, pv@, rv@, (i + pv.len()) as nat));
            i = i + pv.len();
        } else {
            out.push(sv[i]);
            assert(before + (seq![sv@[i as int]] + replace_from(sv@, pv@, rv@, (i + 1) as nat))
                =~= out@ + replace_from(sv@, pv@, rv@, (i + 1) as nat));
            i = i + 1;
        }
    }
    assert(out@ =~= replace_all(sv@, pv@, rv@));
    string_from_chars(&out)
}

} // verus!
