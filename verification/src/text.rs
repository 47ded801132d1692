//! Small verified string utilities: decimal numerals, equality, and
//! substring containment over character sequences.

use vstd::prelude::*;
use vstd::string::*;

verus! {

/// The character for one decimal digit.
pub open spec fn digit_char(d: int) -> char {
    if d == 0 {
        '0'
    } else if d == 1 {
        '1'
    } else if d == 2 {
        '2'
    } else if d == 3 {
        '3'
    } else if d == 4 {
        '4'
    } else if d == 5 {
        '5'
    } else if d == 6 {
        '6'
    } else if d == 7 {
        '7'
    } else if d == 8 {
        '8'
    } else {
        '9'
    }
}

/// The decimal numeral of `n`, most significant digit first.
pub open spec fn spec_dec(n: nat) -> Seq<char>
    decreases n,
{
    if n < 10 {
        seq![digit_char(n as int)]
    } else {
        spec_dec(n / 10) + seq![digit_char((n % 10) as int)]
    }
}

fn digit_str(d: usize) -> (r: &'static str)
    requires
        d < 10,
    ensures
        r@ == seq![digit_char(d as int)],
{
    let r: &'static str = match d {
        0 => "0",
        1 => "1",
        2 => "2",
        3 => "3",
        4 => "4",
        5 => "5",
        6 => "6",
        7 => "7",
        8 => "8",
        _ => "9",
    };
    proof {
        reveal_strlit("0");
        reveal_strlit("1");
        reveal_strlit("2");
        reveal_strlit("3");
        reveal_strlit("4");
        reveal_strlit("5");
        reveal_strlit("6");
        reveal_strlit("7");
        reveal_strlit("8");
        reveal_strlit("9");
        assert(r@ =~= seq![digit_char(d as int)]);
    }
    r
}

/// Appends the decimal numeral of `n` to `out`.
pub fn push_dec(n: usize, out: &mut String)
    ensures
        final(out)@ == old(out)@ + spec_dec(n as nat),
    decreases n,
{
    if n < 10 {
        out.append(digit_str(n));
    } else {
        push_dec(n / 10, out);
        out.append(digit_str(n % 10));
        proof {
            assert(out@ =~= old(out)@ + spec_dec(n as nat));
        }
    }
}

/// A decimal digit character.
pub open spec fn is_digit(c: char) -> bool {
    c == '0' || c == '1' || c == '2' || c == '3' || c == '4' || c == '5' || c == '6' || c == '7'
        || c == '8' || c == '9'
}

/// A sequence that is empty or starts with a dot; the shape of everything a
/// position string may be extended by.
pub open spec fn dot_tail(t: Seq<char>) -> bool {
    t.len() == 0 || t[0] == '.'
}

/// A decimal numeral is never empty and holds digits only.
pub proof fn lemma_dec_digits(n: nat)
    ensures
        spec_dec(n).len() >= 1,
        forall|i: int| 0 <= i < spec_dec(n).len() ==> is_digit(#[trigger] spec_dec(n)[i]),
    decreases n,
{
    if n >= 10 {
        lemma_dec_digits(n / 10);
    }
}

/// Two different numbers have different decimal numerals.
pub proof fn lemma_dec_injective(a: nat, b: nat)
    requires
        spec_dec(a) == spec_dec(b),
    ensures
        a == b,
    decreases a,
{
    lemma_dec_digits(a / 10);
    lemma_dec_digits(b / 10);
    if a < 10 && b < 10 {
        assert(seq![digit_char(a as int)][0] == digit_char(a as int));
        assert(seq![digit_char(b as int)][0] == digit_char(b as int));
        assert(digit_char(a as int) == digit_char(b as int));
    } else if a >= 10 && b >= 10 {
        let pa = spec_dec(a / 10);
        let pb = spec_dec(b / 10);
        let xa = digit_char((a % 10) as int);
        let xb = digit_char((b % 10) as int);
        assert(spec_dec(a) == pa + seq![xa]);
        assert(spec_dec(b) == pb + seq![xb]);
        assert(pa.len() == pb.len());
        assert((pa + seq![xa])[pa.len() as int] == seq![xa][0]);
        assert((pb + seq![xb])[pb.len() as int] == seq![xb][0]);
        assert(xa == xb);
        assert(a % 10 == b % 10);
        assert forall|i: int| 0 <= i < pa.len() implies pa[i] == pb[i] by {
            assert((pa + seq![xa])[i] == pa[i]);
            assert((pb + seq![xb])[i] == pb[i]);
        }
        assert(pa =~= pb);
        lemma_dec_injective(a / 10, b / 10);
        assert(a == 10 * (a / 10) + a % 10);
        assert(b == 10 * (b / 10) + b % 10);
    } else if a < 10 {
        assert(spec_dec(a).len() == 1);
        assert(spec_dec(b).len() == spec_dec(b / 10).len() + 1);
        assert(false);
    } else {
        assert(spec_dec(b).len() == 1);
        assert(spec_dec(a).len() == spec_dec(a / 10).len() + 1);
        assert(false);
    }
}

/// Two different numbers stay distinguishable after appending dot-led (or
/// empty) tails to their numerals: a numeral holds no dot, so the shorter
/// numeral cannot be continued into the longer one.
pub proof fn lemma_dec_ext_ne(a: nat, b: nat, t1: Seq<char>, t2: Seq<char>)
    requires
        a != b,
        dot_tail(t1),
        dot_tail(t2),
    ensures
        spec_dec(a) + t1 != spec_dec(b) + t2,
{
    lemma_dec_digits(a);
    lemma_dec_digits(b);
    if spec_dec(a) + t1 == spec_dec(b) + t2 {
        let la = spec_dec(a).len() as int;
        let lb = spec_dec(b).len() as int;
        if la == lb {
            assert forall|i: int| 0 <= i < la implies spec_dec(a)[i] == spec_dec(b)[i] by {
                assert((spec_dec(a) + t1)[i] == spec_dec(a)[i]);
                assert((spec_dec(b) + t2)[i] == spec_dec(b)[i]);
            }
            assert(spec_dec(a) =~= spec_dec(b));
            lemma_dec_injective(a, b);
        } else if la < lb {
            assert(t1.len() > 0);
            assert((spec_dec(a) + t1)[la] == t1[la - la]);
            assert((spec_dec(b) + t2)[la] == spec_dec(b)[la]);
            assert(is_digit(spec_dec(b)[la]));
        } else {
            assert(t2.len() > 0);
            assert((spec_dec(b) + t2)[lb] == t2[lb - lb]);
            assert((spec_dec(a) + t1)[lb] == spec_dec(a)[lb]);
            assert(is_digit(spec_dec(a)[lb]));
        }
    }
}

/// Dropping a common prefix of two equal sequences leaves equal sequences.
pub proof fn lemma_prepend_cancel(pre: Seq<char>, x: Seq<char>, y: Seq<char>)
    requires
        pre + x == pre + y,
    ensures
        x == y,
{
    assert((pre + x).len() == pre.len() + x.len());
    assert((pre + y).len() == pre.len() + y.len());
    assert(x.len() == y.len());
    assert forall|i: int| 0 <= i < x.len() implies x[i] == y[i] by {
        assert((pre + x)[pre.len() + i] == x[i]);
        assert((pre + y)[pre.len() + i] == y[i]);
    }
    assert(x =~= y);
}

/// Character-by-character equality of two string slices.
pub fn str_eq(a: &str, b: &str) -> (r: bool)
    ensures
        r == (a@ == b@),
{
    let alen = a.unicode_len();
    let blen = b.unicode_len();
    if alen != blen {
        return false;
    }
    let mut i: usize = 0;
    while i < alen
        invariant
            i <= alen,
            alen == a@.len(),
            alen == b@.len(),
            forall|k: int| 0 <= k < i ==> a@[k] == b@[k],
        decreases alen - i,
    {
        if a.get_char(i) != b.get_char(i) {
            return false;
        }
        i = i + 1;
    }
    proof {
        assert(a@ =~= b@);
    }
    true
}

/// `needle` occurs as a contiguous run of characters inside `hay`.
pub open spec fn spec_contains(hay: Seq<char>, needle: Seq<char>) -> bool {
    exists|i: int|
        0 <= i && i + needle.len() <= hay.len() && #[trigger] hay.subrange(i, i + needle.len())
            == needle
}

/// Substring search, checking every starting offset in turn.
pub fn contains_substr(hay: &str, needle: &str) -> (r: bool)
    ensures
        r == spec_contains(hay@, needle@),
{
    let hlen = hay.unicode_len();
    let nlen = needle.unicode_len();
    if nlen == 0 {
        proof {
            assert(hay@.subrange(0, 0 + needle@.len() as int) =~= needle@);
        }
        return true;
    }
    if nlen > hlen {
        return false;
    }
    let mut i: usize = 0;
    while i <= hlen - nlen
        invariant
            nlen >= 1,
            nlen <= hlen,
            i <= hlen - nlen + 1,
            hlen == hay@.len(),
            nlen == needle@.len(),
            forall|k: int|
                0 <= k < i ==> #[trigger] hay@.subrange(k, k + nlen as int) != needle@,
        decreases hlen - nlen - i + 1,
    {
        let mut j: usize = 0;
        let mut matched: bool = true;
        while j < nlen
            invariant
                nlen >= 1,
                nlen <= hlen,
                i <= hlen - nlen,
                j <= nlen,
                hlen == hay@.len(),
                nlen == needle@.len(),
                matched ==> forall|k: int| 0 <= k < j ==> hay@[i + k] == needle@[k],
                !matched ==> hay@.subrange(i as int, i + nlen as int) != needle@,
            decreases nlen - j,
        {
            if hay.get_char(i + j) != needle.get_char(j) {
                proof {
                    assert(hay@.subrange(i as int, i + nlen as int)[j as int] == hay@[i + j]);
                }
                matched = false;
                j = nlen;
            } else {
                j = j + 1;
            }
        }
        if matched {
            proof {
                assert(hay@.subrange(i as int, i + nlen as int) =~= needle@);
            }
            return true;
        }
        i = i + 1;
    }
    proof {
        assert forall|k: int|
            0 <= k && k + needle@.len() <= hay@.len() implies #[trigger] hay@.subrange(
            k,
            k + needle@.len(),
        ) != needle@ by {
            assert(k < i);
        }
    }
    false
}

} // verus!
