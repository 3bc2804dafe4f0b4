//! Voice-style blend expressions: `name.d+name.d+...`, each digit `d` a
//! weight of `d` tenths.
use vstd::prelude::*;
use crate::text::{lemma_split_nonempty, pieces, split_bounds, split_on};

verus! {

/// One named style with its weight in tenths (`af_sky.4` is `af_sky` at 0.4).
#[derive(Clone, Debug, PartialEq, Eq)]
pub struct StyleTerm {
    pub name: String,
    pub tenths: u8,
}

impl View for StyleTerm {
    type V = (Seq<char>, u8);

    open spec fn view(&self) -> (Seq<char>, u8) {
        (self.name@, self.tenths)
    }
}

/// A parsed style expression: its terms in the order written. Duplicate
/// names stay as separate terms.
#[derive(Clone, Debug, PartialEq, Eq)]
pub struct StyleBlend {
    pub terms: Vec<StyleTerm>,
}

impl View for StyleBlend {
    type V = Seq<(Seq<char>, u8)>;

    open spec fn view(&self) -> Seq<(Seq<char>, u8)> {
        terms_view(self.terms@)
    }
}

/// Why a style expression was refused; `term` counts the `+`-separated terms from 0.
#[derive(Clone, Copy, Debug, PartialEq, Eq, Structural)]
pub enum StyleError {
    /// The expression is empty.
    Empty,
    /// The term holds no `.` and so no weight.
    MissingWeight { term: usize },
    /// What follows the first `.` of the term is not a single decimal digit.
    BadWeight { term: usize },
}

/// The value of a decimal digit character.
pub open spec fn digit_value(c: char) -> Option<u8> {
    if c == '0' {
        Some(0u8)
    } else if c == '1' {
        Some(1u8)
    } else if c == '2' {
        Some(2u8)
    } else if c == '3' {
        Some(3u8)
    } else if c == '4' {
        Some(4u8)
    } else if c == '5' {
        Some(5u8)
    } else if c == '6' {
        Some(6u8)
    } else if c == '7' {
        Some(7u8)
    } else if c == '8' {
        Some(8u8)
    } else if c == '9' {
        Some(9u8)
    } else {
        None
    }
}

/// The character of a decimal digit (meaningful for `d <= 9`).
pub open spec fn digit_char(d: u8) -> char {
    if d == 0 {
        '0'
    } else if d == 1 {
        '1'
    } else if d == 2 {
        '2'
    } else if d == 3 {
        '3'
    } else if d == 4 {
        '4'
    } else if d == 5 {
        '5'
    } else if d == 6 {
        '6'
    } else if d == 7 {
        '7'
    } else if d == 8 {
        '8'
    } else {
        '9'
    }
}

/// Reads term number `k`: `name.d` where the name holds no `.` and `d` is one digit.
pub open spec fn term_spec(t: Seq<char>, k: int) -> Result<(Seq<char>, u8), StyleError> {
    if !t.contains('.') {
        Err(StyleError::MissingWeight { term: k as usize })
    } else if t.len() >= 2 && t[t.len() - 2] == '.' && digit_value(t.last()) is Some
        && !t.take(t.len() - 2).contains('.') {
        Ok((t.take(t.len() - 2), digit_value(t.last())->0))
    } else {
        Err(StyleError::BadWeight { term: k as usize })
    }
}

/// Reads the terms in order; the first malformed one decides the error.
pub open spec fn parse_terms(ts: Seq<Seq<char>>) -> Result<Seq<(Seq<char>, u8)>, StyleError>
    decreases ts.len(),
{
    if ts.len() == 0 {
        Ok(Seq::empty())
    } else {
        match parse_terms(ts.drop_last()) {
            Err(e) => Err(e),
            Ok(v) => match term_spec(ts.last(), ts.len() - 1) {
                Err(e) => Err(e),
                Ok(p) => Ok(v.push(p)),
            },
        }
    }
}

/// What parsing a style expression yields.
pub open spec fn parse_spec(s: Seq<char>) -> Result<Seq<(Seq<char>, u8)>, StyleError> {
    if s.len() == 0 {
        Err(StyleError::Empty)
    } else {
        parse_terms(split_on(s, '+'))
    }
}

/// The text of one term: `name.d`.
pub open spec fn term_text(p: (Seq<char>, u8)) -> Seq<char> {
    p.0.push('.').push(digit_char(p.1))
}

/// The expression of a blend: its terms' texts joined by `+`.
pub open spec fn render_spec(b: Seq<(Seq<char>, u8)>) -> Seq<char>
    decreases b.len(),
{
    if b.len() == 0 {
        Seq::empty()
    } else if b.len() == 1 {
        term_text(b[0])
    } else {
        render_spec(b.drop_last()).push('+') + term_text(b.last())
    }
}

/// A blend that some expression denotes: at least one term, names free of
/// `+` and `.`, weights of one digit.
pub open spec fn blend_ok(b: Seq<(Seq<char>, u8)>) -> bool {
    &&& b.len() > 0
    &&& forall|i: int|
        0 <= i < b.len() ==> {
            &&& !(#[trigger] b[i]).0.contains('.')
            &&& !b[i].0.contains('+')
            &&& b[i].1 <= 9
        }
}

/// The terms of a blend as plain values.
pub open spec fn terms_view(v: Seq<StyleTerm>) -> Seq<(Seq<char>, u8)> {
    v.map_values(|t: StyleTerm| t@)
}

proof fn lemma_split_pieces(s: Seq<char>, sep: char)
    ensures
        forall|k: int| 0 <= k < split_on(s, sep).len() ==> !(#[trigger] split_on(s, sep)[k]).contains(sep),
    decreases s.len(),
{
    if s.len() > 0 {
        lemma_split_pieces(s.drop_last(), sep);
        lemma_split_nonempty(s.drop_last(), sep);
        let p = split_on(s.drop_last(), sep);
        if s.last() != sep {
            let q = p.last().push(s.last());
            assert(!q.contains(sep)) by {
                if q.contains(sep) {
                    let j = choose|j: int| 0 <= j < q.len() && q[j] == sep;
                    assert(p.last() == p[p.len() - 1]);
                    if j < p.last().len() {
                        assert(p.last().contains(sep));
                    }
                }
            }
        }
    }
}

proof fn lemma_split_suffix(x: Seq<char>, y: Seq<char>, sep: char)
    requires
        !y.contains(sep),
    ensures
        split_on(x + y, sep) == split_on(x, sep).update(
            split_on(x, sep).len() - 1,
            split_on(x, sep).last() + y,
        ),
    decreases y.len(),
{
    lemma_split_nonempty(x, sep);
    if y.len() == 0 {
        assert(x + y =~= x);
        assert(split_on(x, sep).last() + y =~= split_on(x, sep).last());
        assert(split_on(x, sep).update(split_on(x, sep).len() - 1, split_on(x, sep).last())
            =~= split_on(x, sep));
    } else {
        let y0 = y.drop_last();
        assert(!y0.contains(sep)) by {
            if y0.contains(sep) {
                let j = choose|j: int| 0 <= j < y0.len() && y0[j] == sep;
                assert(y[j] == sep);
            }
        }
        assert(y.last() != sep) by {
            assert(y[y.len() - 1] == y.last());
        }
        lemma_split_suffix(x, y0, sep);
        assert((x + y).drop_last() =~= x + y0);
        assert((x + y).last() == y.last());
        assert((split_on(x, sep).last() + y0).push(y.last()) =~= split_on(x, sep).last() + y);
        assert(split_on(x + y, sep) =~= split_on(x, sep).update(
            split_on(x, sep).len() - 1,
            split_on(x, sep).last() + y,
        ));
    }
}

proof fn lemma_term_text_free(p: (Seq<char>, u8), c: char)
    requires
        !p.0.contains(c),
        c != '.',
        digit_value(c) is None,
        p.1 <= 9,
    ensures
        !term_text(p).contains(c),
{
    let t = term_text(p);
    if t.contains(c) {
        let j = choose|j: int| 0 <= j < t.len() && t[j] == c;
        if j < p.0.len() {
            assert(p.0[j] == c);
        }
    }
}

proof fn lemma_split_render(b: Seq<(Seq<char>, u8)>)
    requires
        blend_ok(b),
    ensures
        split_on(render_spec(b), '+') == b.map_values(|p: (Seq<char>, u8)| term_text(p)),
    decreases b.len(),
{
    let last = b.last();
    assert(b[b.len() - 1] == last);
    lemma_term_text_free(last, '+');
    if b.len() == 1 {
        lemma_split_suffix(Seq::empty(), term_text(b[0]), '+');
        assert(Seq::<char>::empty() + term_text(b[0]) =~= term_text(b[0]));
        assert(split_on(render_spec(b), '+') =~= b.map_values(|p: (Seq<char>, u8)| term_text(p)));
    } else {
        let b0 = b.drop_last();
        assert forall|i: int| 0 <= i < b0.len() implies {
            &&& !(#[trigger] b0[i]).0.contains('.')
            &&& !b0[i].0.contains('+')
            &&& b0[i].1 <= 9
        } by {
            assert(b0[i] == b[i]);
        }
        lemma_split_render(b0);
        let x = render_spec(b0);
        lemma_split_suffix(x.push('+'), term_text(last), '+');
        lemma_split_nonempty(x, '+');
        assert(x.push('+').drop_last() =~= x);
        assert(split_on(x.push('+'), '+') == split_on(x, '+').push(Seq::empty()));
        assert(Seq::<char>::empty() + term_text(last) =~= term_text(last));
        assert(split_on(render_spec(b), '+') =~= b.map_values(|p: (Seq<char>, u8)| term_text(p)));
    }
}

proof fn lemma_term_round_trip(p: (Seq<char>, u8), k: int)
    requires
        !p.0.contains('.'),
        p.1 <= 9,
    ensures
        term_spec(term_text(p), k) == Ok::<(Seq<char>, u8), StyleError>(p),
{
    let t = term_text(p);
    assert(t[t.len() - 2] == '.');
    assert(t.contains('.'));
    assert(t.take(t.len() - 2) =~= p.0);
    assert(t.last() == digit_char(p.1));
}

proof fn lemma_parse_texts(b: Seq<(Seq<char>, u8)>)
    requires
        forall|i: int| 0 <= i < b.len() ==> !(#[trigger] b[i]).0.contains('.') && b[i].1 <= 9,
    ensures
        parse_terms(b.map_values(|p: (Seq<char>, u8)| term_text(p))) == Ok::<
            Seq<(Seq<char>, u8)>,
            StyleError,
        >(b),
    decreases b.len(),
{
    let ts = b.map_values(|p: (Seq<char>, u8)| term_text(p));
    if b.len() == 0 {
        assert(b =~= Seq::<(Seq<char>, u8)>::empty());
    } else {
        let b0 = b.drop_last();
        assert forall|i: int| 0 <= i < b0.len() implies !(#[trigger] b0[i]).0.contains('.')
            && b0[i].1 <= 9 by {
            assert(b0[i] == b[i]);
        }
        lemma_parse_texts(b0);
        assert(ts.drop_last() =~= b0.map_values(|p: (Seq<char>, u8)| term_text(p)));
        assert(b[b.len() - 1] == b.last());
        assert(ts.last() == term_text(b.last()));
        lemma_term_round_trip(b.last(), b.len() - 1);
        assert(b0.push(b.last()) =~= b);
    }
}

proof fn lemma_parse_terms_ok(ts: Seq<Seq<char>>)
    requires
        parse_terms(ts) is Ok,
    ensures
        parse_terms(ts)->Ok_0.len() == ts.len(),
        forall|i: int|
            0 <= i < ts.len() ==> term_spec(#[trigger] ts[i], i) == Ok::<(Seq<char>, u8), StyleError>(
                parse_terms(ts)->Ok_0[i],
            ),
    decreases ts.len(),
{
    if ts.len() > 0 {
        let t0 = ts.drop_last();
        lemma_parse_terms_ok(t0);
        assert forall|i: int| 0 <= i < ts.len() implies term_spec(#[trigger] ts[i], i) == Ok::<
            (Seq<char>, u8),
            StyleError,
        >(parse_terms(ts)->Ok_0[i]) by {
            if i < ts.len() - 1 {
                assert(ts[i] == t0[i]);
            }
        }
    }
}

/// Every expression in `name.d+name.d+...` form parses to its terms in
/// order, each digit read as that many tenths.
pub proof fn lemma_parse_render(b: Seq<(Seq<char>, u8)>)
    requires
        blend_ok(b),
    ensures
        parse_spec(render_spec(b)) == Ok::<Seq<(Seq<char>, u8)>, StyleError>(b),
{
    lemma_split_render(b);
    lemma_parse_texts(b);
    let t = term_text(b.last());
    if b.len() == 1 {
        assert(render_spec(b).len() == t.len());
    } else {
        assert(render_spec(b).len() >= t.len());
    }
}

/// A successful parse always yields a blend that some expression denotes.
pub proof fn lemma_parse_valid(s: Seq<char>)
    requires
        parse_spec(s) is Ok,
    ensures
        blend_ok(parse_spec(s)->Ok_0),
{
    let ts = split_on(s, '+');
    let b = parse_spec(s)->Ok_0;
    lemma_split_nonempty(s, '+');
    lemma_split_pieces(s, '+');
    lemma_parse_terms_ok(ts);
    assert forall|i: int| 0 <= i < b.len() implies {
        &&& !(#[trigger] b[i]).0.contains('.')
        &&& !b[i].0.contains('+')
        &&& b[i].1 <= 9
    } by {
        let t = ts[i];
        assert(term_spec(t, i) is Ok);
        assert(!t.contains('+'));
        let name = t.take(t.len() - 2);
        if name.contains('+') {
            let j = choose|j: int| 0 <= j < name.len() && name[j] == '+';
            assert(t[j] == '+');
        }
    }
}

/// Rendering a parsed blend and parsing the text again gives the same blend.
pub proof fn lemma_reparse(s: Seq<char>)
    requires
        parse_spec(s) is Ok,
    ensures
        parse_spec(render_spec(parse_spec(s)->Ok_0)) == parse_spec(s),
{
    lemma_parse_valid(s);
    lemma_parse_render(parse_spec(s)->Ok_0);
}

/// The parser refuses an empty expression, a term without `.`, and a term
/// that does not end in a decimal digit.
pub proof fn lemma_rejects(s: Seq<char>)
    ensures
        s.len() == 0 ==> parse_spec(s) == Err::<Seq<(Seq<char>, u8)>, StyleError>(StyleError::Empty),
        forall|k: int|
            0 <= k < split_on(s, '+').len() && !(#[trigger] split_on(s, '+')[k]).contains('.')
                ==> parse_spec(s) is Err,
        forall|k: int|
            0 <= k < split_on(s, '+').len() && (#[trigger] split_on(s, '+')[k]).len() > 0
                && digit_value(split_on(s, '+')[k].last()) is None ==> parse_spec(s) is Err,
{
    if s.len() > 0 && parse_spec(s) is Ok {
        lemma_parse_terms_ok(split_on(s, '+'));
    }
}

proof fn lemma_err_prefix(ts: Seq<Seq<char>>, k: int)
    requires
        0 <= k <= ts.len(),
        parse_terms(ts.take(k)) is Err,
    ensures
        parse_terms(ts) == parse_terms(ts.take(k)),
    decreases ts.len(),
{
    if k == ts.len() {
        assert(ts.take(k) =~= ts);
    } else {
        assert(ts.drop_last().take(k) =~= ts.take(k));
        lemma_err_prefix(ts.drop_last(), k);
    }
}

fn digit_of(c: char) -> (r: Option<u8>)
    ensures
        r == digit_value(c),
{
    match c {
        '0' => Some(0),
        '1' => Some(1),
        '2' => Some(2),
        '3' => Some(3),
        '4' => Some(4),
        '5' => Some(5),
        '6' => Some(6),
        '7' => Some(7),
        '8' => Some(8),
        '9' => Some(9),
        _ => None,
    }
}

pub(crate) fn digit_text(d: u8) -> (r: &'static str)
    requires
        d <= 9,
    ensures
        r@ == seq![digit_char(d)],
{
    proof {
        reveal_strlit("0");
        reveal_strlit("1");
        reveal_strlit("2");
        reveal_strlit("3");
        reveal_strlit("4");
        reveal_strlit("5");
        reveal_strlit("6");
        reveal_strlit("7");
        reveal_strlit("8");
        reveal_strlit("9");
    }
    let r = match d {
        0 => "0",
        1 => "1",
        2 => "2",
        3 => "3",
        4 => "4",
        5 => "5",
        6 => "6",
        7 => "7",
        8 => "8",
        _ => "9",
    };
    assert(r@ =~= seq![digit_char(d)]);
    r
}

/// Finds the first `.` among the characters `from..to` of `s`.
fn find_dot(s: &str, from: usize, to: usize) -> (r: Option<usize>)
    requires
        from <= to <= s@.len(),
    ensures
        match r {
            Some(j) => from <= j < to && s@[j as int] == '.' && forall|i: int|
                from <= i < j ==> s@[i] != '.',
            None => forall|i: int| from <= i < to ==> s@[i] != '.',
        },
{
    let mut i = from;
    while i < to
        invariant
            from <= i <= to <= s@.len(),
            forall|m: int| from <= m < i ==> s@[m] != '.',
        decreases to - i,
    {
        if s.get_char(i) == '.' {
            return Some(i);
        }
        i = i + 1;
    }
    None
}

/// Reads term number `k`, the characters `from..to` of `s`.
fn parse_term(s: &str, from: usize, to: usize, k: usize) -> (r: Result<StyleTerm, StyleError>)
    requires
        from <= to <= s@.len(),
    ensures
        match r {
            Ok(t) => term_spec(s@.subrange(from as int, to as int), k as int) == Ok::<
                (Seq<char>, u8),
                StyleError,
            >(t@),
            Err(e) => term_spec(s@.subrange(from as int, to as int), k as int) == Err::<
                (Seq<char>, u8),
                StyleError,
            >(e),
        },
{
    let ghost t = s@.subrange(from as int, to as int);
    match find_dot(s, from, to) {
        None => {
            assert(!t.contains('.')) by {
                if t.contains('.') {
                    let j = choose|j: int| 0 <= j < t.len() && t[j] == '.';
                    assert(s@[from + j] == '.');
                }
            }
            Err(StyleError::MissingWeight { term: k })
        },
        Some(j) => {
            assert(t[j - from] == '.');
            assert(t.contains('.'));
            if to - j == 2 {
                match digit_of(s.get_char(j + 1)) {
                    Some(d) => {
                        let name = String::from_str(s.substring_char(from, j));
                        assert(name@ =~= t.take(t.len() - 2));
                        assert(!t.take(t.len() - 2).contains('.')) by {
                            let u = t.take(t.len() - 2);
                            if u.contains('.') {
                                let m = choose|m: int| 0 <= m < u.len() && u[m] == '.';
                                assert(s@[from + m] == '.');
                            }
                        }
                        Ok(StyleTerm { name, tenths: d })
                    },
                    None => Err(StyleError::BadWeight { term: k }),
                }
            } else {
                proof {
                    if t.len() >= 2 && t[t.len() - 2] == '.' {
                        if j + 2 < to {
                            assert(t.take(t.len() - 2)[j - from] == '.');
                        } else {
                            assert(s@[to - 2] == '.');
                        }
                    }
                }
                Err(StyleError::BadWeight { term: k })
            }
        },
    }
}

impl StyleBlend {
    /// Parses a `+`-separated list of `name.d` terms, keeping their order.
    /// Fails on an empty expression, on a term with no `.`, and on a term
    /// whose text after the first `.` is not one decimal digit; the first
    /// such term decides the error.
    pub fn parse(expr: &str) -> (r: Result<StyleBlend, StyleError>)
        ensures
            match r {
                Ok(b) => parse_spec(expr@) == Ok::<Seq<(Seq<char>, u8)>, StyleError>(b@),
                Err(e) => parse_spec(expr@) == Err::<Seq<(Seq<char>, u8)>, StyleError>(e),
            },
    {
        let n = expr.unicode_len();
        if n == 0 {
            return Err(StyleError::Empty);
        }
        let ghost s = expr@;
        let bounds = split_bounds(expr, '+');
        let ghost ts = pieces(s, bounds@);
        let mut terms: Vec<StyleTerm> = Vec::new();
        let mut k: usize = 0;
        proof {
            assert(ts.take(0) =~= Seq::<Seq<char>>::empty());
            assert(terms_view(terms@) =~= Seq::<(Seq<char>, u8)>::empty());
        }
        while k < bounds.len()
            invariant
                s == expr@,
                ts == pieces(s, bounds@),
                ts == split_on(s, '+'),
                k <= bounds.len(),
                n == s.len(),
                n > 0,
                forall|m: int|
                    0 <= m < bounds@.len() ==> (#[trigger] bounds@[m]).0 <= bounds@[m].1 <= n,
                parse_terms(ts.take(k as int)) == Ok::<Seq<(Seq<char>, u8)>, StyleError>(
                    terms_view(terms@),
                ),
            decreases bounds.len() - k,
        {
            let (a, b) = bounds[k];
            proof {
                assert(ts.take(k + 1).drop_last() =~= ts.take(k as int));
                assert(ts.take(k + 1).last() == s.subrange(a as int, b as int));
            }
            match parse_term(expr, a, b, k) {
                Ok(t) => {
                    let ghost prev = terms@;
                    let ghost tv = t@;
                    terms.push(t);
                    proof {
                        assert(terms_view(terms@) =~= terms_view(prev).push(tv));
                    }
                },
                Err(e) => {
                    proof {
                        assert(parse_terms(ts.take(k + 1)) == Err::<Seq<(Seq<char>, u8)>, StyleError>(e));
                        lemma_err_prefix(ts, k + 1);
                    }
                    return Err(e);
                },
            }
            k = k + 1;
        }
        proof {
            assert(ts.take(k as int) =~= ts);
        }
        Ok(StyleBlend { terms })
    }

    /// The expression of this blend: `name.d` terms joined by `+`.
    pub fn render(&self) -> (r: String)
        requires
            forall|i: int| 0 <= i < self.terms@.len() ==> (#[trigger] self.terms@[i]).tenths <= 9,
        ensures
            r@ == render_spec(self@),
    {
        let ghost v = self@;
        let mut out = String::new();
        let mut i: usize = 0;
        while i < self.terms.len()
            invariant
                v == self@,
                i <= self.terms@.len(),
                v.len() == self.terms@.len(),
                forall|m: int| 0 <= m < self.terms@.len() ==> (#[trigger] self.terms@[m]).tenths <= 9,
                out@ == render_spec(v.take(i as int)),
            decreases self.terms@.len() - i,
        {
            proof {
                reveal_strlit("+");
                reveal_strlit(".");
            }
            let ghost before = out@;
            if i > 0 {
                out.append("+");
            }
            let ghost lead = out@;
            let term = &self.terms[i];
            out.append(term.name.as_str());
            out.append(".");
            let digit = digit_text(term.tenths);
            out.append(digit);
            proof {
                assert(out@ =~= lead + term_text(term@));
                if i > 0 {
                    assert(lead =~= before.push('+'));
                } else {
                    assert(lead =~= before);
                }
            }
            proof {
                let w = v.take(i + 1);
                assert(v[i as int] == self.terms@[i as int]@);
                assert(w.drop_last() =~= v.take(i as int));
                assert(w.last() == term@);
                if i == 0 {
                    assert(out@ =~= term_text(w[0]));
                } else {
                    assert(out@ =~= before.push('+') + term_text(w.last()));
                }
            }
            i = i + 1;
        }
        proof {
            assert(v.take(i as int) =~= v);
        }
        out
    }
}

} // verus!
