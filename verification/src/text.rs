//! Text helpers over `str` and `String`, stated over the character view.
use vstd::prelude::*;

verus! {

/// Splits `s` at the first occurrence of `c`: the part before it and the part
/// after it.
pub open spec fn split_first(s: Seq<char>, c: char) -> Option<(Seq<char>, Seq<char>)>
    decreases s.len(),
{
    if s.len() == 0 {
        None
    } else if s[0] == c {
        Some((Seq::empty(), s.drop_first()))
    } else {
        match split_first(s.drop_first(), c) {
            Some((a, b)) => Some((seq![s[0]] + a, b)),
            None => None,
        }
    }
}

/// `s` with the prefix `p` removed, where `s` starts with `p`.
pub open spec fn strip_prefix_view(s: Seq<char>, p: Seq<char>) -> Option<Seq<char>> {
    if p.is_prefix_of(s) {
        Some(s.skip(p.len() as int))
    } else {
        None
    }
}

/// `s` with the suffix `p` removed, where `s` ends with `p`.
pub open spec fn strip_suffix_view(s: Seq<char>, p: Seq<char>) -> Option<Seq<char>> {
    if p.is_suffix_of(s) {
        Some(s.take(s.len() - p.len()))
    } else {
        None
    }
}

/// Splitting at the first `c` gives a part without `c`, then `c`, then the
/// rest; and a part without `c` followed by `c` that starts a text is where
/// the text splits.
pub proof fn lemma_split_first(s: Seq<char>, c: char, d: Seq<char>)
    ensures
        split_first(s, c) matches Some((h, t)) ==> !h.contains(c) && s == h + seq![c] + t,
        !d.contains(c) && d.push(c).is_prefix_of(s) ==> split_first(s, c) == Some((d, s.skip(d.len() + 1int))),
    decreases s.len(),
{
    if s.len() > 0 {
        lemma_split_first(s.drop_first(), c, d.drop_first());
        if let Some((h, t)) = split_first(s, c) {
            if s[0] == c {
                assert(s =~= Seq::<char>::empty() + seq![c] + s.drop_first());
            } else {
                let (h1, t1) = split_first(s.drop_first(), c)->0;
                assert(h =~= seq![s[0]] + h1);
                assert(s =~= seq![s[0]] + s.drop_first());
                assert(s =~= h + seq![c] + t);
                assert forall|k: int| 0 <= k < h.len() implies h[k] != c by {
                    if k > 0 {
                        assert(h[k] == h1[k - 1]);
                        assert(!h1.contains(c));
                        if h1[k - 1] == c {
                            assert(h1.contains(c));
                        }
                    }
                }
            }
        }
        if !d.contains(c) && d.push(c).is_prefix_of(s) {
            if d.len() == 0 {
                assert(s[0] == d.push(c)[0]);
                assert(s.skip(1) =~= s.drop_first());
            } else {
                assert(d[0] != c) by {
                    if d[0] == c {
                        assert(d.contains(c));
                    }
                }
                assert(d.push(c)[0] == d[0]);
                assert(s[0] == d[0]);
                let d1 = d.drop_first();
                assert(!d1.contains(c)) by {
                    if d1.contains(c) {
                        let k = choose|k: int| 0 <= k < d1.len() && d1[k] == c;
                        assert(d[k + 1] == c);
                    }
                }
                assert(d1.push(c).is_prefix_of(s.drop_first())) by {
                    assert forall|k: int| 0 <= k < d1.push(c).len() implies d1.push(c)[k] == s.drop_first()[k] by {
                        assert(d1.push(c)[k] == d.push(c)[k + 1]);
                    }
                }
                assert(s.drop_first().skip(d1.len() + 1int) =~= s.skip(d.len() + 1int));
                assert(seq![s[0]] + d1 =~= d);
            }
        }
    }
}

/// Whether `p` starts `s`.
pub(crate) fn str_starts_with(s: &str, p: &str) -> (r: bool)
    ensures
        r == p@.is_prefix_of(s@),
{
    let ls = s.unicode_len();
    let lp = p.unicode_len();
    if lp > ls {
        return false;
    }
    let mut i: usize = 0;
    while i < lp
        invariant
            0 <= i <= lp,
            lp <= ls,
            ls == s@.len(),
            lp == p@.len(),
            forall|j: int| 0 <= j < i ==> p@[j] == s@[j],
        decreases lp - i,
    {
        if p.get_char(i) != s.get_char(i) {
            assert(p@[i as int] != s@.subrange(0, lp as int)[i as int]);
            return false;
        }
        i += 1;
    }
    assert(p@ =~= s@.subrange(0, lp as int));
    true
}

/// Whether `p` ends `s`.
pub(crate) fn str_ends_with(s: &str, p: &str) -> (r: bool)
    ensures
        r == p@.is_suffix_of(s@),
{
    let ls = s.unicode_len();
    let lp = p.unicode_len();
    if lp > ls {
        return false;
    }
    let off = ls - lp;
    let mut i: usize = 0;
    while i < lp
        invariant
            0 <= i <= lp,
            lp <= ls,
            off == ls - lp,
            ls == s@.len(),
            lp == p@.len(),
            forall|j: int| 0 <= j < i ==> p@[j] == s@[off + j],
        decreases lp - i,
    {
        if p.get_char(i) != s.get_char(off + i) {
            assert(p@[i as int] != s@.subrange(off as int, ls as int)[i as int]);
            return false;
        }
        i += 1;
    }
    assert(p@ =~= s@.subrange(off as int, ls as int));
    true
}

/// `s` without the prefix `p`, where `s` starts with it.
pub(crate) fn str_strip_prefix<'a>(s: &'a str, p: &str) -> (r: Option<&'a str>)
    ensures
        r.deep_view() == strip_prefix_view(s@, p@),
{
    if str_starts_with(s, p) {
        let rest = s.substring_char(p.unicode_len(), s.unicode_len());
        assert(rest@ =~= s@.skip(p@.len() as int));
        Some(rest)
    } else {
        None
    }
}

/// `s` without the suffix `p`, where `s` ends with it.
pub(crate) fn str_strip_suffix<'a>(s: &'a str, p: &str) -> (r: Option<&'a str>)
    ensures
        r.deep_view() == strip_suffix_view(s@, p@),
{
    if str_ends_with(s, p) {
        let ls = s.unicode_len();
        let rest = s.substring_char(0, ls - p.unicode_len());
        assert(rest@ =~= s@.take(s@.len() - p@.len()));
        Some(rest)
    } else {
        None
    }
}

/// The parts of `s` before and after the first `c`, where it has one.
pub(crate) fn str_split_once<'a>(s: &'a str, c: char) -> (r: Option<(&'a str, &'a str)>)
    ensures
        r.deep_view() == split_first(s@, c),
{
    let ls = s.unicode_len();
    let mut k: usize = 0;
    while k < ls
        invariant
            0 <= k <= ls,
            ls == s@.len(),
            forall|j: int| 0 <= j < k ==> s@[j] != c,
        decreases ls - k,
    {
        if s.get_char(k) == c {
            let head = s.substring_char(0, k);
            let tail = s.substring_char(k + 1, ls);
            proof {
                assert(!head@.contains(c));
                assert(head@.push(c) =~= s@.subrange(0, k + 1));
                lemma_split_first(s@, c, head@);
                assert(tail@ =~= s@.skip(head@.len() + 1int));
            }
            return Some((head, tail));
        }
        k += 1;
    }
    proof {
        lemma_split_first(s@, c, Seq::<char>::empty());
        if let Some((h, t)) = split_first(s@, c) {
            assert(s@[h.len() as int] == (h + seq![c] + t)[h.len() as int]);
        }
    }
    None
}

/// Whether two texts are the same, character by character.
pub(crate) fn str_eq(a: &str, b: &str) -> (r: bool)
    ensures
        r == (a@ == b@),
{
    let la = a.unicode_len();
    let lb = b.unicode_len();
    if la != lb {
        return false;
    }
    let mut i: usize = 0;
    while i < la
        invariant
            0 <= i <= la,
            la == a@.len(),
            lb == b@.len(),
            la == lb,
            forall|j: int| 0 <= j < i ==> a@[j] == b@[j],
        decreases la - i,
    {
        if a.get_char(i) != b.get_char(i) {
            return false;
        }
        i += 1;
    }
    assert(a@ =~= b@);
    true
}

/// A new `String` holding `s`.
pub fn to_string(s: &str) -> (r: String)
    ensures
        r@ == s@,
{
    String::from_str(s)
}

/// A new `String` holding the texts one after another.
pub fn concat2(a: &str, b: &str) -> (r: String)
    ensures
        r@ == a@ + b@,
{
    let mut r = String::from_str(a);
    r.append(b);
    r
}

/// A new `String` holding the texts one after another.
pub fn concat3(a: &str, b: &str, c: &str) -> (r: String)
    ensures
        r@ == a@ + b@ + c@,
{
    let mut r = String::from_str(a);
    r.append(b);
    r.append(c);
    r
}

/// A new `String` holding the texts one after another.
pub fn concat4(a: &str, b: &str, c: &str, d: &str) -> (r: String)
    ensures
        r@ == a@ + b@ + c@ + d@,
{
    let mut r = String::from_str(a);
    r.append(b);
    r.append(c);
    r.append(d);
    r
}

/// A new `String` holding the texts one after another.
pub fn concat5(a: &str, b: &str, c: &str, d: &str, e: &str) -> (r: String)
    ensures
        r@ == a@ + b@ + c@ + d@ + e@,
{
    let mut r = String::from_str(a);
    r.append(b);
    r.append(c);
    r.append(d);
    r.append(e);
    r
}

} // verus!

verus! {

/// The decimal digits of a number, most significant first.
pub open spec fn decimal_text(n: nat) -> Seq<char>
    decreases n,
{
    if n < 10 {
        seq![digit_char(n)]
    } else {
        decimal_text(n / 10).push(digit_char(n % 10))
    }
}

/// The digit character of a number below ten.
pub open spec fn digit_char(d: nat) -> char {
    if d == 0 {
        '0'
    } else if d == 1 {
        '1'
    } else if d == 2 {
        '2'
    } else if d == 3 {
        '3'
    } else if d == 4 {
        '4'
    } else if d == 5 {
        '5'
    } else if d == 6 {
        '6'
    } else if d == 7 {
        '7'
    } else if d == 8 {
        '8'
    } else {
        '9'
    }
}

/// The digit of a number below ten, as text.
fn digit_str(d: usize) -> (r: &'static str)
    requires
        d < 10,
    ensures
        r@ == seq![digit_char(d as nat)],
{
    proof {
        reveal_strlit("0");
        reveal_strlit("1");
        reveal_strlit("2");
        reveal_strlit("3");
        reveal_strlit("4");
        reveal_strlit("5");
        reveal_strlit("6");
        reveal_strlit("7");
        reveal_strlit("8");
        reveal_strlit("9");
    }
    if d == 0 {
        "0"
    } else if d == 1 {
        "1"
    } else if d == 2 {
        "2"
    } else if d == 3 {
        "3"
    } else if d == 4 {
        "4"
    } else if d == 5 {
        "5"
    } else if d == 6 {
        "6"
    } else if d == 7 {
        "7"
    } else if d == 8 {
        "8"
    } else {
        "9"
    }
}

/// The decimal digits of a number, most significant first.
pub(crate) fn usize_text(n: usize) -> (r: String)
    ensures
        r@ == decimal_text(n as nat),
    decreases n,
{
    if n < 10 {
        to_string(digit_str(n))
    } else {
        let mut head = usize_text(n / 10);
        head.append(digit_str(n % 10));
        head
    }
}

} // verus!
