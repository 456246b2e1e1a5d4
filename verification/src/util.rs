use vstd::prelude::*;

use crate::trusted::string_from_ascii_bytes;

verus! {

/// The decimal digit of one place value.
pub open spec fn dec_digit(n: u128) -> char
    recommends
        n < 10,
{
    ((48 + n) as u8) as char
}

/// The decimal rendering of a number, most significant digit first.
pub open spec fn dec_str(n: u128) -> Seq<char>
    decreases n,
{
    if n < 10 {
        seq![dec_digit(n)]
    } else {
        dec_str(n / 10).push(dec_digit(n % 10))
    }
}

/// Render a number in decimal.
pub fn u128_to_string(n: u128) -> (r: String)
    ensures
        r@ == dec_str(n),
{
    let mut digits: Vec<u8> = Vec::new();
    let mut m: u128 = n;
    loop
        invariant_except_break
            forall|i: int| 0 <= i < digits@.len() ==> 48 <= #[trigger] digits@[i] < 58,
            ({
                let rev = Seq::new(digits@.len(), |i: int| digits@[digits@.len() - 1 - i] as char);
                if digits@.len() == 0 {
                    m == n
                } else {
                    m != 0 && dec_str(n) == dec_str(m) + rev
                }
            }),
        ensures
            forall|i: int| 0 <= i < digits@.len() ==> 48 <= #[trigger] digits@[i] < 58,
            dec_str(n) == Seq::new(
                digits@.len(),
                |i: int| digits@[digits@.len() - 1 - i] as char,
            ),
        decreases m,
    {
        let ghost old_digits = digits@;
        let ghost old_m = m;
        let d: u8 = (m % 10) as u8;
        digits.push(48 + d);
        m = m / 10;
        proof {
            let rev0 = Seq::new(
                old_digits.len(),
                |i: int| old_digits[old_digits.len() - 1 - i] as char,
            );
            let rev1 = Seq::new(digits@.len(), |i: int| digits@[digits@.len() - 1 - i] as char);
            assert(rev1 =~= seq![dec_digit(old_m % 10)] + rev0);
            if old_digits.len() == 0 {
                if old_m < 10 {
                    assert(dec_str(n) =~= rev1);
                } else {
                    assert(dec_str(n) =~= dec_str(m) + rev1);
                }
            } else {
                if old_m < 10 {
                    assert(dec_str(old_m) =~= seq![dec_digit(old_m)]);
                    assert(dec_str(n) =~= rev1);
                } else {
                    assert(dec_str(old_m) == dec_str(m).push(dec_digit(old_m % 10)));
                    assert(dec_str(m) + rev1 =~= (dec_str(m).push(dec_digit(old_m % 10)))
                        + rev0);
                    assert(dec_str(n) =~= dec_str(m) + rev1);
                }
            }
        }
        if m == 0 {
            break;
        }
    }
    let mut bytes: Vec<u8> = Vec::new();
    let mut j: usize = digits.len();
    while j > 0
        invariant
            j <= digits@.len(),
            forall|i: int| 0 <= i < digits@.len() ==> 48 <= #[trigger] digits@[i] < 58,
            bytes@.len() == digits@.len() - j,
            forall|i: int|
                0 <= i < bytes@.len() ==> #[trigger] bytes@[i] == digits@[digits@.len() - 1 - i],
        decreases j,
    {
        j -= 1;
        bytes.push(digits[j]);
    }
    let r = string_from_ascii_bytes(bytes);
    proof {
        let rev = Seq::new(digits@.len(), |i: int| digits@[digits@.len() - 1 - i] as char);
        assert(r@ =~= rev);
    }
    r
}

/// The decimal rendering of a signed number: a minus sign before the
/// magnitude for negatives.
pub open spec fn i64_str(n: i64) -> Seq<char> {
    if n >= 0 {
        dec_str(n as u128)
    } else {
        seq!['-'] + dec_str((-(n as int)) as u128)
    }
}

/// Render a signed number in decimal.
pub fn i64_to_string(n: i64) -> (r: String)
    ensures
        r@ == i64_str(n),
{
    if n >= 0 {
        u128_to_string(n as u128)
    } else {
        let mag: u128 = if n == i64::MIN {
            0x8000000000000000u128
        } else {
            (-n) as u128
        };
        proof {
            assert(mag == (-(n as int)) as u128);
        }
        let digits = u128_to_string(mag);
        let r = String::from_str("-").concat(digits.as_str());
        proof {
            reveal_strlit("-");
            assert("-"@ =~= seq!['-']);
            assert(r@ =~= i64_str(n));
        }
        r
    }
}

/// The text of a truth value.
pub open spec fn bool_str(b: bool) -> Seq<char> {
    if b {
        "true"@
    } else {
        "false"@
    }
}

/// Render a truth value.
pub fn bool_to_string(b: bool) -> (r: String)
    ensures
        r@ == bool_str(b),
{
    if b {
        String::from_str("true")
    } else {
        String::from_str("false")
    }
}

/// ASCII lowercase folding of one character; anything but an ASCII
/// capital letter is kept.
pub open spec fn lower_char(c: char) -> char {
    if 65 <= c as u32 && c as u32 <= 90 {
        (((c as u32) + 32) as u8) as char
    } else {
        c
    }
}

pub open spec fn lower_char_fn() -> spec_fn(char) -> char {
    |c: char| lower_char(c)
}

/// ASCII lowercase folding of a text.
pub open spec fn lower_chars(s: Seq<char>) -> Seq<char> {
    s.map_values(lower_char_fn())
}

/// A conjunction of predicates filters in two stages.
pub proof fn lemma_filter_refine<A>(
    s: Seq<A>,
    p1: spec_fn(A) -> bool,
    p0: spec_fn(A) -> bool,
    q: spec_fn(A) -> bool,
)
    requires
        forall|x: A| #[trigger] p1(x) == (p0(x) && q(x)),
    ensures
        s.filter(p1) == s.filter(p0).filter(q),
    decreases s.len(),
{
    reveal(Seq::filter);
    if s.len() > 0 {
        let rest = s.drop_last();
        lemma_filter_refine(rest, p1, p0, q);
        let x = s.last();
        if p0(x) {
            assert(s.filter(p0) == rest.filter(p0).push(x));
            assert(s.filter(p0).drop_last() =~= rest.filter(p0));
            assert(s.filter(p0).last() == x);
            if q(x) {
                assert(s.filter(p0).filter(q) == rest.filter(p0).filter(q).push(x));
            } else {
                assert(s.filter(p0).filter(q) == rest.filter(p0).filter(q));
            }
        }
    }
}

/// A filter every element passes keeps the sequence whole.
pub proof fn lemma_filter_all_pass<A>(s: Seq<A>, p: spec_fn(A) -> bool)
    requires
        forall|i: int| 0 <= i < s.len() ==> p(#[trigger] s[i]),
    ensures
        s.filter(p) == s,
    decreases s.len(),
{
    reveal(Seq::filter);
    if s.len() > 0 {
        let rest = s.drop_last();
        lemma_filter_all_pass(rest, p);
        assert(p(s.last()));
        assert(rest.push(s.last()) =~= s);
    }
}

/// Filtering a prefix one element longer either appends that element
/// (when it matches) or leaves the filtered sequence unchanged.
pub proof fn lemma_filter_take_step<A>(s: Seq<A>, i: int, pred: spec_fn(A) -> bool)
    requires
        0 <= i < s.len(),
    ensures
        s.take(i + 1).filter(pred) == if pred(s[i]) {
            s.take(i).filter(pred).push(s[i])
        } else {
            s.take(i).filter(pred)
        },
{
    let one = seq![s[i]];
    assert(s.take(i + 1) =~= s.take(i) + one);
    Seq::<A>::filter_distributes_over_add(s.take(i), one, pred);
    reveal_with_fuel(Seq::filter, 2);
    assert(one.drop_last() =~= Seq::<A>::empty());
    if pred(s[i]) {
        assert(one.filter(pred) =~= seq![s[i]]);
        assert(s.take(i).filter(pred) + seq![s[i]] =~= s.take(i).filter(pred).push(s[i]));
    } else {
        assert(one.filter(pred) =~= Seq::<A>::empty());
        assert(s.take(i).filter(pred) + Seq::<A>::empty() =~= s.take(i).filter(pred));
    }
}

/// Mapping distributes over push.
pub proof fn lemma_map_values_push<A, B>(s: Seq<A>, x: A, f: spec_fn(A) -> B)
    ensures
        s.push(x).map_values(f) == s.map_values(f).push(f(x)),
{
    assert(s.push(x).map_values(f) =~= s.map_values(f).push(f(x)));
}

/// Truncating to a bound not yet reached keeps a pushed element.
pub proof fn lemma_take_at_most_grow<A>(s: Seq<A>, x: A, n: int)
    requires
        s.len() < n,
    ensures
        crate::driver::take_at_most(s.push(x), n) == crate::driver::take_at_most(s, n).push(x),
{
    if s.push(x).len() > n {
        assert(s.push(x).take(n) =~= s.take(n).push(x));
    }
}

/// Truncating to a bound already reached drops a pushed element.
pub proof fn lemma_take_at_most_full<A>(s: Seq<A>, x: A, n: int)
    requires
        0 <= n <= s.len(),
    ensures
        crate::driver::take_at_most(s.push(x), n) == crate::driver::take_at_most(s, n),
{
    if n < s.len() {
        assert(s.push(x).take(n) =~= s.take(n));
    } else {
        assert(s.push(x).take(n) =~= s);
    }
}

/// Filtering keeps only elements of the sequence and preserves every
/// pairwise relation that held between them, order included.
pub proof fn lemma_filter_pairwise<A>(s: Seq<A>, pred: spec_fn(A) -> bool, rel: spec_fn(A, A) -> bool)
    requires
        forall|i: int, j: int| 0 <= i < j < s.len() ==> rel(s[i], s[j]),
    ensures
        forall|i: int|
            0 <= i < s.filter(pred).len() ==> s.contains(#[trigger] s.filter(pred)[i]),
        forall|i: int, j: int|
            0 <= i < j < s.filter(pred).len() ==> rel(s.filter(pred)[i], s.filter(pred)[j]),
    decreases s.len(),
{
    reveal(Seq::filter);
    let out = s.filter(pred);
    if s.len() > 0 {
        let rest = s.drop_last();
        assert(forall|i: int, j: int| 0 <= i < j < rest.len() ==> rel(rest[i], rest[j]));
        lemma_filter_pairwise(rest, pred, rel);
        let rout = rest.filter(pred);
        assert forall|i: int| 0 <= i < rout.len() implies s.contains(rout[i]) by {
            assert(rest.contains(rout[i]));
            let w = choose|w: int| 0 <= w < rest.len() && rest[w] == rout[i];
            assert(s[w] == rout[i]);
        }
        if pred(s.last()) {
            assert(out == rout.push(s.last()));
            assert(s.contains(s.last())) by {
                assert(s[s.len() - 1] == s.last());
            }
            assert forall|i: int, j: int| 0 <= i < j < out.len() implies rel(out[i], out[j]) by {
                if j < out.len() - 1 {
                    assert(out[i] == rout[i] && out[j] == rout[j]);
                } else {
                    assert(out[j] == s.last());
                    assert(out[i] == rout[i]);
                    assert(rest.contains(rout[i]));
                    let w = choose|w: int| 0 <= w < rest.len() && rest[w] == rout[i];
                    assert(rel(s[w], s[s.len() - 1]));
                }
            }
        } else {
            assert(out == rout);
        }
    }
}

/// Removing one element preserves every pairwise relation.
pub proof fn lemma_remove_pairwise<A>(s: Seq<A>, at: int, rel: spec_fn(A, A) -> bool)
    requires
        0 <= at < s.len(),
        forall|i: int, j: int| 0 <= i < j < s.len() ==> rel(s[i], s[j]),
    ensures
        forall|i: int, j: int|
            0 <= i < j < s.remove(at).len() ==> rel(s.remove(at)[i], s.remove(at)[j]),
{
    s.remove_ensures(at);
    let t = s.remove(at);
    assert forall|i: int, j: int| 0 <= i < j < t.len() implies rel(t[i], t[j]) by {
        let ii: int = if i < at {
            i
        } else {
            i + 1
        };
        let jj: int = if j < at {
            j
        } else {
            j + 1
        };
        assert(t[i] == s[ii] && t[j] == s[jj]);
    }
}

/// A filtered full sequence begins with the filtered prefix.
pub proof fn lemma_filter_take_prefix<A>(s: Seq<A>, i: int, pred: spec_fn(A) -> bool)
    requires
        0 <= i <= s.len(),
    ensures
        s.filter(pred) == s.take(i).filter(pred) + s.skip(i).filter(pred),
        s.take(i).filter(pred) == s.filter(pred).take(s.take(i).filter(pred).len() as int),
{
    assert(s =~= s.take(i) + s.skip(i));
    Seq::<A>::filter_distributes_over_add(s.take(i), s.skip(i), pred);
    let a = s.take(i).filter(pred);
    let b = s.skip(i).filter(pred);
    assert(a == (a + b).take(a.len() as int)) by {
        assert(a =~= (a + b).take(a.len() as int));
    }
}

} // verus!
