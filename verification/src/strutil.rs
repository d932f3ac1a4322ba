//! Small verified text helpers shared by the model and the codecs:
//! summed text lengths, decimal rendering of counters, and joining line
//! lists with a prefix and a separator.

use vstd::prelude::*;
use vstd::string::StringExecFns;
use vstd::string::StringSliceAdditionalSpecFns;
use vstd::utf8::encode_utf8;

verus! {

/// Total length of the lines `ls[i..]`, each measured in raw bytes of
/// its UTF-8 encoding: the base text-storage unit, not grapheme clusters.
pub open spec fn lens_sum(ls: Seq<Seq<char>>, i: int) -> int
    decreases ls.len() - i,
{
    if i < 0 || i >= ls.len() {
        0
    } else {
        encode_utf8(ls[i]).len() + lens_sum(ls, i + 1)
    }
}

pub proof fn lemma_lens_sum_nonneg(ls: Seq<Seq<char>>, i: int)
    ensures
        lens_sum(ls, i) >= 0,
    decreases ls.len() - i,
{
    if 0 <= i < ls.len() {
        lemma_lens_sum_nonneg(ls, i + 1);
    }
}

/// Sums the encoded byte lengths of all strings in `v`.
pub fn sum_lens(v: &Vec<String>) -> (r: usize)
    requires
        lens_sum(v.deep_view(), 0) <= usize::MAX,
    ensures
        r == lens_sum(v.deep_view(), 0),
{
    let ghost dv = v.deep_view();
    let mut acc: usize = 0;
    let mut k: usize = 0;
    proof {
        lemma_lens_sum_nonneg(dv, 0);
    }
    while k < v.len()
        invariant
            0 <= k <= v.len(),
            dv == v.deep_view(),
            dv.len() == v.len(),
            acc + lens_sum(dv, k as int) == lens_sum(dv, 0),
            lens_sum(dv, 0) <= usize::MAX,
        decreases v.len() - k,
    {
        proof {
            lemma_lens_sum_nonneg(dv, k + 1);
            assert(dv[k as int] == v[k as int]@);
        }
        let a = v[k].as_str();
        proof {
            assert(a.spec_bytes() == encode_utf8(dv[k as int]));
            assert(encode_utf8(dv[k as int]).len() <= usize::MAX);
        }
        let n = a.len();
        acc = acc + n;
        k = k + 1;
    }
    acc
}

/// The decimal digit character of `d`.
pub open spec fn dec_digit(d: int) -> char {
    if d == 0 {
        '0'
    } else if d == 1 {
        '1'
    } else if d == 2 {
        '2'
    } else if d == 3 {
        '3'
    } else if d == 4 {
        '4'
    } else if d == 5 {
        '5'
    } else if d == 6 {
        '6'
    } else if d == 7 {
        '7'
    } else if d == 8 {
        '8'
    } else {
        '9'
    }
}

/// The decimal rendering of `n`, most significant digit first.
pub open spec fn dec_str(n: int) -> Seq<char>
    decreases n,
{
    if n < 10 {
        seq![dec_digit(n)]
    } else {
        dec_str(n / 10).push(dec_digit(n % 10))
    }
}

pub open spec fn is_digit_char(c: char) -> bool {
    '0' as u32 <= c as u32 <= '9' as u32
}

/// Every character of a decimal rendering is a digit.
pub proof fn lemma_dec_str_digits(n: int)
    requires
        n >= 0,
    ensures
        forall|i: int| 0 <= i < dec_str(n).len() ==> is_digit_char(#[trigger] dec_str(n)[i]),
    decreases n,
{
    if n < 10 {
        assert(dec_str(n) == seq![dec_digit(n)]);
        assert(is_digit_char(dec_digit(n)));
    } else {
        lemma_dec_str_digits(n / 10);
        assert(is_digit_char(dec_digit(n % 10)));
        assert forall|i: int| 0 <= i < dec_str(n).len() implies is_digit_char(
            #[trigger] dec_str(n)[i],
        ) by {
            if i < dec_str(n).len() - 1 {
                assert(dec_str(n)[i] == dec_str(n / 10)[i]);
            } else {
                assert(dec_str(n)[i] == dec_digit(n % 10));
            }
        }
    }
}

fn dec_digit_str(d: usize) -> (r: &'static str)
    requires
        d < 10,
    ensures
        r@ == seq![dec_digit(d as int)],
{
    proof {
        reveal_strlit("0");
        reveal_strlit("1");
        reveal_strlit("2");
        reveal_strlit("3");
        reveal_strlit("4");
        reveal_strlit("5");
        reveal_strlit("6");
        reveal_strlit("7");
        reveal_strlit("8");
        reveal_strlit("9");
    }
    let r = if d == 0 {
        "0"
    } else if d == 1 {
        "1"
    } else if d == 2 {
        "2"
    } else if d == 3 {
        "3"
    } else if d == 4 {
        "4"
    } else if d == 5 {
        "5"
    } else if d == 6 {
        "6"
    } else if d == 7 {
        "7"
    } else {
        "8"
    };
    let r = if d == 9 {
        "9"
    } else {
        r
    };
    proof {
        assert(r@ =~= seq![dec_digit(d as int)]);
    }
    r
}

/// Renders `n` in decimal.
pub fn usize_to_decimal(n: usize) -> (r: String)
    ensures
        r@ == dec_str(n as int),
    decreases n,
{
    if n < 10 {
        String::from_str(dec_digit_str(n))
    } else {
        let mut s = usize_to_decimal(n / 10);
        s.append(dec_digit_str(n % 10));
        proof {
            assert(s@ =~= dec_str(n as int));
        }
        s
    }
}

/// `prefix + ls[0] + sep + prefix + ls[1] + ... + prefix + ls[last]`;
/// empty when `ls` is empty.
pub open spec fn joined(prefix: Seq<char>, ls: Seq<Seq<char>>, sep: Seq<char>) -> Seq<char> {
    if ls.len() == 0 {
        Seq::empty()
    } else {
        prefix + ls[0] + joined_tail(prefix, ls, sep, 1)
    }
}

pub open spec fn joined_tail(prefix: Seq<char>, ls: Seq<Seq<char>>, sep: Seq<char>, i: int) -> Seq<
    char,
>
    decreases ls.len() - i,
{
    if i < 1 || i >= ls.len() {
        Seq::empty()
    } else {
        sep + prefix + ls[i] + joined_tail(prefix, ls, sep, i + 1)
    }
}

/// Joins the strings of `v`, each behind `prefix`, separated by `sep`.
pub fn join_with_prefix(prefix: &str, v: &Vec<String>, sep: &str) -> (r: String)
    ensures
        r@ == joined(prefix@, v.deep_view(), sep@),
{
    let ghost dv = v.deep_view();
    let mut s = String::new();
    let mut k: usize = 0;
    while k < v.len()
        invariant
            0 <= k <= v.len(),
            dv == v.deep_view(),
            dv.len() == v.len(),
            k == 0 ==> s@ == Seq::<char>::empty(),
            k >= 1 ==> s@ + joined_tail(prefix@, dv, sep@, k as int) == joined(prefix@, dv, sep@),
        decreases v.len() - k,
    {
        proof {
            assert(dv[k as int] == v[k as int]@);
        }
        if k > 0 {
            s.append(sep);
        }
        s.append(prefix);
        s.append(v[k].as_str());
        k = k + 1;
        proof {
            if k == 1 {
                assert(s@ == prefix@ + dv[0]);
                assert(s@ + joined_tail(prefix@, dv, sep@, 1) =~= joined(prefix@, dv, sep@));
            } else {
                assert(joined_tail(prefix@, dv, sep@, k - 1) == sep@ + prefix@ + dv[k - 1]
                    + joined_tail(prefix@, dv, sep@, k as int));
                assert(s@ + joined_tail(prefix@, dv, sep@, k as int) =~= joined(
                    prefix@,
                    dv,
                    sep@,
                ));
            }
        }
    }
    s
}

/// Whether the character sequences `a` and `b` are equal.
pub fn str_eq(a: &str, b: &str) -> (r: bool)
    ensures
        r == (a@ == b@),
{
    let sa = String::from_str(a);
    let sb = String::from_str(b);
    sa == sb
}

} // verus!
