//! Text helpers: splitting at a separator, trimming, decimal numerals.
use vstd::prelude::*;
use crate::style::digit_char;

verus! {

/// What `str::trim` leaves of a text: the text without leading and trailing
/// Unicode white space.
pub uninterp spec fn trimmed(s: Seq<char>) -> Seq<char>;

/// Relies on `str::trim`: removes leading and trailing white space.
#[verifier::external_body]
pub(crate) fn trim_text(s: &str) -> (r: &str)
    ensures
        r@ == trimmed(s@),
{
    s.trim()
}

/// Splits `s` at every `sep`, keeping empty pieces, as `str::split` does.
pub open spec fn split_on(s: Seq<char>, sep: char) -> Seq<Seq<char>>
    decreases s.len(),
{
    if s.len() == 0 {
        seq![Seq::empty()]
    } else {
        let p = split_on(s.drop_last(), sep);
        if s.last() == sep {
            p.push(Seq::empty())
        } else {
            p.update(p.len() - 1, p.last().push(s.last()))
        }
    }
}

/// The pieces of `s` between the given bounds.
pub open spec fn pieces(s: Seq<char>, bs: Seq<(usize, usize)>) -> Seq<Seq<char>> {
    bs.map_values(|b: (usize, usize)| s.subrange(b.0 as int, b.1 as int))
}

pub(crate) proof fn lemma_split_nonempty(s: Seq<char>, sep: char)
    ensures
        split_on(s, sep).len() >= 1,
    decreases s.len(),
{
    if s.len() > 0 {
        lemma_split_nonempty(s.drop_last(), sep);
    }
}

/// Character bounds of the pieces of `s` between occurrences of `sep`.
pub(crate) fn split_bounds(s: &str, sep: char) -> (r: Vec<(usize, usize)>)
    ensures
        pieces(s@, r@) == split_on(s@, sep),
        forall|m: int| 0 <= m < r@.len() ==> (#[trigger] r@[m]).0 <= r@[m].1 <= s@.len(),
{
    let n = s.unicode_len();
    let ghost t = s@;
    let mut bounds: Vec<(usize, usize)> = Vec::new();
    let mut start: usize = 0;
    let mut i: usize = 0;
    proof {
        assert(t.take(0) =~= Seq::<char>::empty());
        assert(pieces(t, bounds@).push(t.subrange(0, 0)) =~= seq![Seq::<char>::empty()]);
    }
    while i < n
        invariant
            n == t.len(),
            t == s@,
            start <= i <= n,
            forall|m: int|
                0 <= m < bounds@.len() ==> (#[trigger] bounds@[m]).0 <= bounds@[m].1 <= start,
            split_on(t.take(i as int), sep) == pieces(t, bounds@).push(
                t.subrange(start as int, i as int),
            ),
        decreases n - i,
    {
        let c = s.get_char(i);
        proof {
            assert(t.take(i + 1).drop_last() =~= t.take(i as int));
            assert(t.take(i + 1).last() == c);
            lemma_split_nonempty(t.take(i as int), sep);
        }
        if c == sep {
            let ghost old_bounds = bounds@;
            bounds.push((start, i));
            proof {
                assert(pieces(t, bounds@) =~= pieces(t, old_bounds).push(
                    t.subrange(start as int, i as int),
                ));
                assert(t.subrange(i + 1, i + 1) =~= Seq::<char>::empty());
            }
            start = i + 1;
        } else {
            proof {
                assert(t.subrange(start as int, i as int).push(c) =~= t.subrange(
                    start as int,
                    i + 1,
                ));
            }
        }
        i = i + 1;
    }
    let ghost old_bounds = bounds@;
    bounds.push((start, n));
    proof {
        assert(pieces(t, bounds@) =~= pieces(t, old_bounds).push(t.subrange(start as int, n as int)));
        assert(t.take(n as int) =~= t);
    }
    bounds
}

/// The decimal numeral of `n`, without leading zeros.
pub open spec fn decimal(n: nat) -> Seq<char>
    decreases n,
{
    if n < 10 {
        seq![digit_char(n as u8)]
    } else {
        decimal(n / 10).push(digit_char((n % 10) as u8))
    }
}

/// Appends the decimal numeral of `n`.
pub(crate) fn push_decimal(out: &mut String, n: usize)
    ensures
        final(out)@ == old(out)@ + decimal(n as nat),
    decreases n,
{
    if n >= 10 {
        push_decimal(out, n / 10);
    }
    let ghost mid = out@;
    out.append(crate::style::digit_text((n % 10) as u8));
    proof {
        if n >= 10 {
            assert(out@ =~= old(out)@ + decimal(n as nat));
        } else {
            assert(out@ =~= old(out)@ + decimal(n as nat));
        }
    }
}

} // verus!
