//! Small verified helpers over character sequences: conversions between
//! `&str` / `String` and `Vec<char>`, equality, decimal printing and parsing
//! of `u64`, splitting on separator characters, and lexicographic order.

use vstd::prelude::*;

verus! {

/// Relies on `String::push`: appends exactly one character at the end.
#[verifier::external_body]
pub fn push_char(s: &mut String, c: char)
    ensures
        final(s)@ == old(s)@.push(c),
{
    s.push(c);
}

/// Collect the characters of a string slice into a vector.
pub fn str_to_chars(s: &str) -> (r: Vec<char>)
    ensures
        r@ == s@,
{
    let n = s.unicode_len();
    let mut r: Vec<char> = Vec::new();
    let mut i: usize = 0;
    while i < n
        invariant
            n == s@.len(),
            i <= n,
            r@ == s@.take(i as int),
        decreases n - i,
    {
        let c = s.get_char(i);
        r.push(c);
        i = i + 1;
        proof {
            assert(r@ =~= s@.take(i as int));
        }
    }
    proof {
        assert(r@ =~= s@);
    }
    r
}

/// Build an owned string out of a vector of characters.
pub fn chars_to_string(v: &Vec<char>) -> (r: String)
    ensures
        r@ == v@,
{
    let mut r = String::new();
    let mut i: usize = 0;
    while i < v.len()
        invariant
            i <= v@.len(),
            r@ == v@.take(i as int),
        decreases v@.len() - i,
    {
        push_char(&mut r, v[i]);
        i = i + 1;
        proof {
            assert(r@ =~= v@.take(i as int));
        }
    }
    proof {
        assert(r@ =~= v@);
    }
    r
}

/// Character-for-character equality of two vectors.
pub fn chars_eq(a: &Vec<char>, b: &Vec<char>) -> (r: bool)
    ensures
        r == (a@ == b@),
{
    if a.len() != b.len() {
        proof {
            assert(a@ != b@);
        }
        return false;
    }
    let mut i: usize = 0;
    while i < a.len()
        invariant
            i <= a@.len(),
            a@.len() == b@.len(),
            forall|j: int| 0 <= j < i ==> a@[j] == b@[j],
        decreases a@.len() - i,
    {
        if a[i] != b[i] {
            proof {
                assert(a@[i as int] != b@[i as int]);
            }
            return false;
        }
        i = i + 1;
    }
    proof {
        assert(a@ =~= b@);
    }
    true
}

/// Copy the characters of `v` between `from` (inclusive) and `to` (exclusive).
pub fn chars_range(v: &Vec<char>, from: usize, to: usize) -> (r: Vec<char>)
    requires
        from <= to <= v@.len(),
    ensures
        r@ == v@.subrange(from as int, to as int),
{
    let mut r: Vec<char> = Vec::new();
    let mut i: usize = from;
    while i < to
        invariant
            from <= i <= to <= v@.len(),
            r@ == v@.subrange(from as int, i as int),
        decreases to - i,
    {
        r.push(v[i]);
        i = i + 1;
        proof {
            assert(r@ =~= v@.subrange(from as int, i as int));
        }
    }
    r
}

/// The character standing for one decimal digit.
pub open spec fn digit_char(d: nat) -> char {
    if d == 0 {
        '0'
    } else if d == 1 {
        '1'
    } else if d == 2 {
        '2'
    } else if d == 3 {
        '3'
    } else if d == 4 {
        '4'
    } else if d == 5 {
        '5'
    } else if d == 6 {
        '6'
    } else if d == 7 {
        '7'
    } else if d == 8 {
        '8'
    } else {
        '9'
    }
}

pub open spec fn is_digit(c: char) -> bool {
    48 <= (c as u32) <= 57
}

pub open spec fn digit_val(c: char) -> nat {
    ((c as u32) - 48) as nat
}

/// The canonical decimal rendering of a natural number, most significant
/// digit first and without leading zeros (except for zero itself).
pub open spec fn dec_digits(n: nat) -> Seq<char>
    decreases n,
{
    if n < 10 {
        seq![digit_char(n)]
    } else {
        dec_digits(n / 10).push(digit_char(n % 10))
    }
}

/// The value of a digit string, most significant digit first.
pub open spec fn dec_val(s: Seq<char>) -> nat
    decreases s.len(),
{
    if s.len() == 0 {
        0
    } else {
        dec_val(s.drop_last()) * 10 + digit_val(s.last())
    }
}

pub open spec fn all_digits(s: Seq<char>) -> bool {
    forall|i: int| 0 <= i < s.len() ==> is_digit(#[trigger] s[i])
}

/// The digit run of a decimal literal: everything after an optional
/// single leading `+`, which `u64` parsing accepts.
pub open spec fn dec_body(s: Seq<char>) -> Seq<char> {
    if s.len() > 0 && s[0] == '+' {
        s.drop_first()
    } else {
        s
    }
}

/// What parsing a decimal `u64` returns: the value, if the string is an
/// optional leading `+` followed by a non-empty run of digits whose
/// value fits in a `u64`.
pub open spec fn spec_parse_u64(s: Seq<char>) -> Option<u64> {
    let d = dec_body(s);
    if d.len() > 0 && all_digits(d) && dec_val(d) <= u64::MAX {
        Some(dec_val(d) as u64)
    } else {
        None
    }
}

proof fn lemma_digit_char_val(d: nat)
    requires
        d < 10,
    ensures
        is_digit(digit_char(d)),
        digit_val(digit_char(d)) == d,
{
}

pub proof fn lemma_dec_digits_are_digits(n: nat)
    ensures
        dec_digits(n).len() > 0,
        all_digits(dec_digits(n)),
    decreases n,
{
    if n < 10 {
        lemma_digit_char_val(n);
    } else {
        lemma_dec_digits_are_digits(n / 10);
        lemma_digit_char_val(n % 10);
    }
}

pub proof fn lemma_dec_val_of_dec_digits(n: nat)
    ensures
        dec_val(dec_digits(n)) == n,
    decreases n,
{
    if n < 10 {
        lemma_digit_char_val(n);
        assert(dec_digits(n).drop_last() =~= Seq::<char>::empty());
        assert(dec_digits(n).last() == digit_char(n));
        assert(dec_val(Seq::<char>::empty()) == 0);
        assert(dec_val(dec_digits(n)) == 0 * 10 + digit_val(digit_char(n)));
    } else {
        lemma_dec_val_of_dec_digits(n / 10);
        lemma_digit_char_val(n % 10);
        assert(dec_digits(n).drop_last() =~= dec_digits(n / 10));
        assert(dec_digits(n).last() == digit_char(n % 10));
        assert(dec_val(dec_digits(n)) == (n / 10) * 10 + n % 10);
        vstd::arithmetic::div_mod::lemma_fundamental_div_mod(n as int, 10);
    }
}

/// Parsing inverts printing: the decimal rendering of `n` parses back to `n`.
pub proof fn lemma_parse_of_dec_digits(n: u64)
    ensures
        spec_parse_u64(dec_digits(n as nat)) == Some(n),
{
    lemma_dec_digits_are_digits(n as nat);
    lemma_dec_val_of_dec_digits(n as nat);
    assert(is_digit(dec_digits(n as nat)[0]));
    assert(dec_digits(n as nat)[0] != '+');
    assert(dec_body(dec_digits(n as nat)) == dec_digits(n as nat));
}

/// Render a `u64` in decimal.
pub fn u64_to_dec(n: u64) -> (r: Vec<char>)
    ensures
        r@ == dec_digits(n as nat),
{
    let mut rev: Vec<char> = Vec::new();
    let mut cur: u64 = n;
    while cur >= 10
        invariant
            dec_digits(n as nat) == dec_digits(cur as nat) + rev@.reverse(),
        decreases cur,
    {
        let d = cur % 10;
        proof {
            lemma_rev_push(rev@, digit_char(d as nat));
            assert(dec_digits(cur as nat) =~= dec_digits((cur / 10) as nat).push(
                digit_char((cur % 10) as nat),
            ));
            assert(dec_digits((cur / 10) as nat) + rev@.push(digit_char(d as nat)).reverse()
                =~= dec_digits(cur as nat) + rev@.reverse());
        }
        rev.push(digit_of(d));
        cur = cur / 10;
    }
    proof {
        lemma_rev_push(rev@, digit_char(cur as nat));
        assert(dec_digits(cur as nat) =~= seq![digit_char(cur as nat)]);
        assert(seq![digit_char(cur as nat)] + rev@.reverse()
            =~= rev@.push(digit_char(cur as nat)).reverse());
    }
    rev.push(digit_of(cur));
    let mut r: Vec<char> = Vec::new();
    let mut i: usize = rev.len();
    while i > 0
        invariant
            i <= rev@.len(),
            r@ == rev@.reverse().take((rev@.len() - i) as int),
        decreases i,
    {
        i = i - 1;
        r.push(rev[i]);
        proof {
            assert(r@ =~= rev@.reverse().take((rev@.len() - i) as int));
        }
    }
    proof {
        assert(r@ =~= rev@.reverse());
    }
    r
}

proof fn lemma_rev_push(s: Seq<char>, c: char)
    ensures
        s.push(c).reverse() =~= seq![c] + s.reverse(),
{
}

/// The digit character of `d`, which must be below ten.
fn digit_of(d: u64) -> (c: char)
    requires
        d < 10,
    ensures
        c == digit_char(d as nat),
{
    if d == 0 {
        '0'
    } else if d == 1 {
        '1'
    } else if d == 2 {
        '2'
    } else if d == 3 {
        '3'
    } else if d == 4 {
        '4'
    } else if d == 5 {
        '5'
    } else if d == 6 {
        '6'
    } else if d == 7 {
        '7'
    } else if d == 8 {
        '8'
    } else {
        '9'
    }
}

/// Parse a decimal `u64` — an optional leading `+`, then a non-empty
/// run of digits — rejecting anything else and any overflowing value.
pub fn parse_u64(s: &Vec<char>) -> (r: Option<u64>)
    ensures
        r == spec_parse_u64(s@),
{
    let start: usize = if s.len() > 0 && s[0] == '+' {
        1
    } else {
        0
    };
    let ghost body = dec_body(s@);
    proof {
        assert(body =~= s@.skip(start as int));
    }
    if s.len() == start {
        return None;
    }
    let mut acc: u64 = 0;
    let mut i: usize = start;
    proof {
        assert(body.take(0) =~= Seq::<char>::empty());
    }
    while i < s.len()
        invariant
            start <= i <= s@.len(),
            body == dec_body(s@),
            body =~= s@.skip(start as int),
            body.len() == s@.len() - start,
            body.len() > 0,
            all_digits(body.take(i - start)),
            acc == dec_val(body.take(i - start)),
        decreases s@.len() - i,
    {
        let c = s[i];
        let cu = c as u32;
        proof {
            assert(body[i - start] == s@[i as int]);
        }
        if cu < 48 || cu > 57 {
            proof {
                assert(!is_digit(body[i - start]));
            }
            return None;
        }
        let d: u64 = (cu - 48) as u64;
        proof {
            assert(body.take(i - start + 1).drop_last() =~= body.take(i - start));
            assert(body.take(i - start + 1).last() == body[i - start]);
        }
        if acc > (u64::MAX - d) / 10 {
            proof {
                assert(dec_val(body.take(i - start + 1)) == acc * 10 + d);
                assert(acc * 10 + d > u64::MAX) by (nonlinear_arith)
                    requires
                        acc > (u64::MAX - d) / 10,
                        d < 10,
                {}
                lemma_dec_val_monotone(body, i - start + 1);
            }
            return None;
        }
        proof {
            assert(acc * 10 + d <= u64::MAX) by (nonlinear_arith)
                requires
                    acc <= (u64::MAX - d) / 10,
                    d < 10,
            {}
        }
        acc = acc * 10 + d;
        i = i + 1;
        proof {
            assert(all_digits(body.take(i - start)));
        }
    }
    proof {
        assert(body.take(body.len() as int) =~= body);
    }
    Some(acc)
}

/// The sequence views of a vector of character vectors.
pub open spec fn views(vs: Seq<Vec<char>>) -> Seq<Seq<char>> {
    vs.map_values(|x: Vec<char>| x@)
}

/// Split on a separator character. Fragments may be empty; there is always
/// at least one fragment, and separators never appear inside fragments.
pub open spec fn split_frags(s: Seq<char>, sep: char) -> Seq<Seq<char>>
    decreases s.len(),
{
    if s.len() == 0 {
        seq![Seq::<char>::empty()]
    } else if s[0] == sep {
        seq![Seq::<char>::empty()] + split_frags(s.drop_first(), sep)
    } else {
        let rest = split_frags(s.drop_first(), sep);
        seq![seq![s[0]] + rest[0]] + rest.drop_first()
    }
}

pub proof fn lemma_split_frags_len(s: Seq<char>, sep: char)
    ensures
        split_frags(s, sep).len() >= 1,
    decreases s.len(),
{
    if s.len() != 0 {
        lemma_split_frags_len(s.drop_first(), sep);
    }
}

/// Appending a separator starts a new, empty fragment.
proof fn lemma_split_push_sep(s: Seq<char>, sep: char)
    ensures
        split_frags(s.push(sep), sep) =~~= split_frags(s, sep).push(Seq::<char>::empty()),
    decreases s.len(),
{
    reveal_with_fuel(split_frags, 3);
    lemma_split_frags_len(s, sep);
    if s.len() == 0 {
        assert(s.push(sep)[0] == sep);
        assert(s.push(sep).drop_first() =~= Seq::<char>::empty());
    } else {
        assert(s.push(sep)[0] == s[0]);
        assert(s.push(sep).drop_first() =~= s.drop_first().push(sep));
        lemma_split_push_sep(s.drop_first(), sep);
        lemma_split_frags_len(s.drop_first(), sep);
    }
}

/// Appending any other character extends the last fragment.
proof fn lemma_split_push_other(s: Seq<char>, sep: char, c: char)
    requires
        c != sep,
    ensures
        split_frags(s, sep).len() >= 1,
        split_frags(s.push(c), sep) =~~= split_frags(s, sep).update(
            split_frags(s, sep).len() - 1,
            split_frags(s, sep).last().push(c),
        ),
    decreases s.len(),
{
    reveal_with_fuel(split_frags, 3);
    lemma_split_frags_len(s, sep);
    if s.len() == 0 {
        assert(s.push(c)[0] == c);
        assert(s.push(c).drop_first() =~= Seq::<char>::empty());
    } else {
        assert(s.push(c)[0] == s[0]);
        assert(s.push(c).drop_first() =~= s.drop_first().push(c));
        lemma_split_push_other(s.drop_first(), sep, c);
        lemma_split_frags_len(s.drop_first(), sep);
    }
}

/// Split a character vector on a separator, keeping empty fragments.
pub fn split_all(v: &Vec<char>, sep: char) -> (r: Vec<Vec<char>>)
    ensures
        views(r@) == split_frags(v@, sep),
{
    let mut done: Vec<Vec<char>> = Vec::new();
    let mut cur: Vec<char> = Vec::new();
    let mut i: usize = 0;
    while i < v.len()
        invariant
            i <= v@.len(),
            views(done@).push(cur@) =~~= split_frags(v@.take(i as int), sep),
        decreases v@.len() - i,
    {
        let c = v[i];
        proof {
            assert(v@.take(i + 1).drop_last() =~= v@.take(i as int));
            assert(v@.take(i + 1) =~= v@.take(i as int).push(v@[i as int]));
        }
        if c == sep {
            proof {
                lemma_split_push_sep(v@.take(i as int), sep);
            }
            done.push(cur);
            cur = Vec::new();
            proof {
                assert(views(done@).push(cur@) =~~= split_frags(v@.take(i + 1), sep));
            }
        } else {
            proof {
                lemma_split_push_other(v@.take(i as int), sep, c);
                lemma_split_frags_len(v@.take(i as int), sep);
            }
            cur.push(c);
            proof {
                assert(views(done@).push(cur@) =~~= split_frags(v@.take(i + 1), sep));
            }
        }
        i = i + 1;
    }
    proof {
        assert(v@.take(v@.len() as int) =~= v@);
    }
    done.push(cur);
    proof {
        assert(views(done@) =~~= split_frags(v@, sep));
    }
    done
}

/// Keep only the non-empty fragments, in order.
pub open spec fn nonempty_frags(fr: Seq<Seq<char>>) -> Seq<Seq<char>>
    decreases fr.len(),
{
    if fr.len() == 0 {
        Seq::<Seq<char>>::empty()
    } else {
        let rest = nonempty_frags(fr.drop_last());
        if fr.last().len() > 0 {
            rest.push(fr.last())
        } else {
            rest
        }
    }
}

/// The non-empty `/`-separated fragments of a path string.
pub open spec fn path_frags(s: Seq<char>) -> Seq<Seq<char>> {
    nonempty_frags(split_frags(s, '/'))
}

/// Drop the empty fragments of a split.
pub fn keep_nonempty(fr: Vec<Vec<char>>) -> (r: Vec<Vec<char>>)
    ensures
        views(r@) == nonempty_frags(views(fr@)),
{
    let mut r: Vec<Vec<char>> = Vec::new();
    let mut i: usize = 0;
    proof {
        assert(views(fr@).take(0) =~= Seq::<Seq<char>>::empty());
    }
    while i < fr.len()
        invariant
            i <= fr@.len(),
            views(r@) == nonempty_frags(views(fr@).take(i as int)),
        decreases fr@.len() - i,
    {
        proof {
            assert(views(fr@).take(i + 1).drop_last() =~= views(fr@).take(i as int));
            assert(views(fr@).take(i + 1).last() == fr@[i as int]@);
        }
        let is_empty = fr[i].len() == 0;
        if !is_empty {
            let f = fr[i].clone();
            assert(f@ == fr@[i as int]@);
            r.push(f);
        }
        proof {
            assert(views(r@) =~~= nonempty_frags(views(fr@).take(i + 1)));
        }
        i = i + 1;
    }
    proof {
        assert(views(fr@).take(fr@.len() as int) =~= views(fr@));
    }
    r
}

/// Render a fragment list as a path: every fragment prefixed by `/`.
pub open spec fn join_slash(fr: Seq<Seq<char>>) -> Seq<char>
    decreases fr.len(),
{
    if fr.len() == 0 {
        Seq::<char>::empty()
    } else {
        seq!['/'] + fr.first() + join_slash(fr.drop_first())
    }
}

pub proof fn lemma_join_slash_snoc(fr: Seq<Seq<char>>, f: Seq<char>)
    ensures
        join_slash(fr.push(f)) =~= join_slash(fr) + seq!['/'] + f,
    decreases fr.len(),
{
    assert(join_slash(Seq::<Seq<char>>::empty()) =~= Seq::<char>::empty());
    if fr.len() == 0 {
        assert(fr.push(f).first() == f);
        assert(fr.push(f).drop_first() =~= Seq::<Seq<char>>::empty());
        assert(join_slash(fr.push(f)) =~= seq!['/'] + f);
    } else {
        assert(fr.push(f).first() == fr.first());
        assert(fr.push(f).drop_first() =~= fr.drop_first().push(f));
        lemma_join_slash_snoc(fr.drop_first(), f);
        assert(join_slash(fr.push(f)) =~= seq!['/'] + fr.first() + join_slash(fr.drop_first().push(
            f,
        )));
    }
}

/// No character of the fragment is the separator.
pub open spec fn frag_clean(f: Seq<char>, sep: char) -> bool {
    forall|j: int| 0 <= j < f.len() ==> f[j] != sep
}

/// Every fragment is non-empty and free of the separator.
pub open spec fn frags_clean(fr: Seq<Seq<char>>, sep: char) -> bool {
    forall|k: int| 0 <= k < fr.len() ==> frag_clean(#[trigger] fr[k], sep) && fr[k].len() > 0
}

/// Splitting after prepending a separator-free prefix extends the first fragment.
proof fn lemma_split_prepend_clean(a: Seq<char>, b: Seq<char>, sep: char)
    requires
        frag_clean(a, sep),
    ensures
        split_frags(a + b, sep) =~~= seq![a + split_frags(b, sep).first()] + split_frags(
            b,
            sep,
        ).drop_first(),
    decreases a.len(),
{
    lemma_split_frags_len(b, sep);
    if a.len() == 0 {
        assert(a + b =~= b);
        assert(a + split_frags(b, sep).first() =~= split_frags(b, sep).first());
    } else {
        assert((a + b).len() > 0);
        assert((a + b)[0] == a[0]);
        assert((a + b).drop_first() =~= a.drop_first() + b);
        lemma_split_prepend_clean(a.drop_first(), b, sep);
        assert(seq![(a + b)[0]] + (a.drop_first() + split_frags(b, sep).first()) =~= a
            + split_frags(b, sep).first());
    }
}

/// Splitting the canonical rendering of a fragment list recovers an empty
/// lead fragment followed by the fragments themselves.
pub proof fn lemma_split_of_join(fr: Seq<Seq<char>>)
    requires
        frags_clean(fr, '/'),
    ensures
        split_frags(join_slash(fr), '/') =~~= seq![Seq::<char>::empty()] + fr,
    decreases fr.len(),
{
    if fr.len() == 0 {
        assert(join_slash(fr).len() == 0);
    } else {
        let tail = fr.first() + join_slash(fr.drop_first());
        assert(join_slash(fr) =~= seq!['/'] + tail);
        assert(join_slash(fr)[0] == '/');
        assert(join_slash(fr).drop_first() =~= tail);
        lemma_split_of_join(fr.drop_first());
        lemma_split_prepend_clean(fr.first(), join_slash(fr.drop_first()), '/');
        assert(split_frags(join_slash(fr.drop_first()), '/').first() == Seq::<char>::empty());
        assert(split_frags(join_slash(fr.drop_first()), '/').drop_first() =~= fr.drop_first());
        assert(fr.first() + Seq::<char>::empty() =~= fr.first());
        assert(split_frags(tail, '/') =~~= seq![fr.first()] + fr.drop_first());
    }
}

proof fn lemma_nonempty_after_lead(fr: Seq<Seq<char>>)
    requires
        forall|k: int| 0 <= k < fr.len() ==> (#[trigger] fr[k]).len() > 0,
    ensures
        nonempty_frags(seq![Seq::<char>::empty()] + fr) =~~= fr,
        nonempty_frags(fr) =~~= fr,
    decreases fr.len(),
{
    assert(nonempty_frags(Seq::<Seq<char>>::empty()) =~= Seq::<Seq<char>>::empty());
    if fr.len() == 0 {
        assert((seq![Seq::<char>::empty()] + fr) =~= seq![Seq::<char>::empty()]);
        assert(seq![Seq::<char>::empty()].drop_last() =~= Seq::<Seq<char>>::empty());
    } else {
        let whole = seq![Seq::<char>::empty()] + fr;
        assert(whole.last() == fr.last());
        assert(whole.drop_last() =~= seq![Seq::<char>::empty()] + fr.drop_last());
        lemma_nonempty_after_lead(fr.drop_last());
        assert(fr.drop_last().push(fr.last()) =~= fr);
    }
}

/// The fragments of a canonically rendered path are the fragments themselves.
pub proof fn lemma_path_frags_of_join(fr: Seq<Seq<char>>)
    requires
        frags_clean(fr, '/'),
    ensures
        path_frags(join_slash(fr)) =~~= fr,
{
    lemma_split_of_join(fr);
    lemma_nonempty_after_lead(fr);
    assert(nonempty_frags(split_frags(join_slash(fr), '/')) =~~= nonempty_frags(
        seq![Seq::<char>::empty()] + fr,
    ));
}

/// Join a fragment list with `/` before every fragment.
pub fn join_with_slash(fr: &Vec<Vec<char>>) -> (r: Vec<char>)
    ensures
        r@ == join_slash(views(fr@)),
{
    let mut r: Vec<char> = Vec::new();
    let mut i: usize = 0;
    proof {
        assert(views(fr@).take(0) =~= Seq::<Seq<char>>::empty());
    }
    while i < fr.len()
        invariant
            i <= fr@.len(),
            r@ == join_slash(views(fr@).take(i as int)),
        decreases fr@.len() - i,
    {
        proof {
            assert(views(fr@).take(i + 1).drop_last() =~= views(fr@).take(i as int));
            assert(views(fr@).take(i + 1).last() == fr@[i as int]@);
            lemma_join_slash_snoc(views(fr@).take(i as int), fr@[i as int]@);
        }
        r.push('/');
        let mut j: usize = 0;
        let ghost base = r@;
        while j < fr[i].len()
            invariant
                j <= fr@[i as int]@.len(),
                i < fr@.len(),
                r@ == base + fr@[i as int]@.take(j as int),
            decreases fr@[i as int]@.len() - j,
        {
            let c = fr[i][j];
            r.push(c);
            j = j + 1;
            proof {
                assert(r@ =~= base + fr@[i as int]@.take(j as int));
            }
        }
        proof {
            assert(fr@[i as int]@.take(fr@[i as int]@.len() as int) =~= fr@[i as int]@);
            assert(r@ =~= join_slash(views(fr@).take(i as int)) + seq!['/'] + fr@[i as int]@);
            assert(views(fr@).take(i as int).push(fr@[i as int]@) =~= views(fr@).take(i + 1));
            assert(r@ =~= join_slash(views(fr@).take(i + 1)));
        }
        i = i + 1;
    }
    proof {
        assert(views(fr@).take(fr@.len() as int) =~= views(fr@));
    }
    r
}

/// The index of the first occurrence of `c` in `s`, or `s.len()` if absent.
pub open spec fn first_idx(s: Seq<char>, c: char) -> int
    decreases s.len(),
{
    if s.len() == 0 {
        0
    } else if s[0] == c {
        0
    } else {
        1 + first_idx(s.drop_first(), c)
    }
}

pub proof fn lemma_first_idx_props(s: Seq<char>, c: char)
    ensures
        0 <= first_idx(s, c) <= s.len(),
        forall|j: int| 0 <= j < first_idx(s, c) ==> s[j] != c,
        first_idx(s, c) < s.len() ==> s[first_idx(s, c)] == c,
    decreases s.len(),
{
    if s.len() != 0 && s[0] != c {
        lemma_first_idx_props(s.drop_first(), c);
        assert(forall|j: int| 1 <= j < first_idx(s, c) ==> s[j] == s.drop_first()[j - 1]);
    }
}

/// Any position that carries `c`, with no `c` before it, is the first index.
pub proof fn lemma_first_idx_unique(s: Seq<char>, c: char, k: int)
    requires
        0 <= k <= s.len(),
        forall|j: int| 0 <= j < k ==> s[j] != c,
        k < s.len() ==> s[k] == c,
    ensures
        first_idx(s, c) == k,
    decreases s.len(),
{
    if s.len() != 0 {
        if k == 0 {
            if s.len() > 0 && s[0] != c {
                lemma_first_idx_props(s.drop_first(), c);
            }
        } else {
            assert(s[0] != c);
            assert(forall|j: int| 0 <= j < k - 1 ==> s.drop_first()[j] == s[j + 1]);
            assert(k - 1 < s.drop_first().len() ==> s.drop_first()[k - 1] == s[k]);
            lemma_first_idx_unique(s.drop_first(), c, k - 1);
        }
    }
}

/// Scan for the first occurrence of a character.
pub fn find_first(v: &Vec<char>, c: char) -> (r: usize)
    ensures
        r == first_idx(v@, c),
{
    let mut i: usize = 0;
    while i < v.len()
        invariant
            i <= v@.len(),
            forall|j: int| 0 <= j < i ==> v@[j] != c,
        decreases v@.len() - i,
    {
        if v[i] == c {
            proof {
                lemma_first_idx_unique(v@, c, i as int);
            }
            return i;
        }
        i = i + 1;
    }
    proof {
        lemma_first_idx_unique(v@, c, v@.len() as int);
    }
    i
}

/// The sequence views of a vector of key/value pairs.
pub open spec fn pair_views(ps: Seq<(Vec<char>, Vec<char>)>) -> Seq<(Seq<char>, Seq<char>)> {
    ps.map_values(|p: (Vec<char>, Vec<char>)| (p.0@, p.1@))
}

/// Read one `key=value` fragment: the key is everything before the first
/// `=`, the value everything after it; a fragment without `=` is no pair.
pub open spec fn pair_of(f: Seq<char>) -> Option<(Seq<char>, Seq<char>)> {
    let i = first_idx(f, '=');
    if i < f.len() {
        Some((f.take(i), f.skip(i + 1)))
    } else {
        None
    }
}

/// The pairs among a list of fragments, in order.
pub open spec fn pairs_of(fr: Seq<Seq<char>>) -> Seq<(Seq<char>, Seq<char>)>
    decreases fr.len(),
{
    if fr.len() == 0 {
        Seq::<(Seq<char>, Seq<char>)>::empty()
    } else {
        let rest = pairs_of(fr.drop_last());
        match pair_of(fr.last()) {
            Some(p) => rest.push(p),
            None => rest,
        }
    }
}

/// The key/value pairs of a query string: fragments split on `&`, keys
/// before the first `=` of each fragment. No percent-decoding is applied.
pub open spec fn query_pairs(q: Seq<char>) -> Seq<(Seq<char>, Seq<char>)> {
    pairs_of(split_frags(q, '&'))
}

/// The value bound to `key`, later pairs overriding earlier ones, as
/// insertion into a map would.
pub open spec fn lookup_pairs(ps: Seq<(Seq<char>, Seq<char>)>, key: Seq<char>) -> Option<Seq<char>>
    decreases ps.len(),
{
    if ps.len() == 0 {
        None
    } else if ps.last().0 == key {
        Some(ps.last().1)
    } else {
        lookup_pairs(ps.drop_last(), key)
    }
}

/// Split a query string into its key/value pairs.
pub fn split_query(q: &Vec<char>) -> (r: Vec<(Vec<char>, Vec<char>)>)
    ensures
        pair_views(r@) == query_pairs(q@),
{
    let frags = split_all(q, '&');
    let mut r: Vec<(Vec<char>, Vec<char>)> = Vec::new();
    let mut i: usize = 0;
    proof {
        assert(views(frags@).take(0) =~= Seq::<Seq<char>>::empty());
        assert(pair_views(r@) =~= pairs_of(views(frags@).take(0)));
    }
    while i < frags.len()
        invariant
            i <= frags@.len(),
            pair_views(r@) == pairs_of(views(frags@).take(i as int)),
        decreases frags@.len() - i,
    {
        proof {
            assert(views(frags@).take(i + 1).drop_last() =~= views(frags@).take(i as int));
            assert(views(frags@).take(i + 1).last() == frags@[i as int]@);
            lemma_first_idx_props(frags@[i as int]@, '=');
        }
        let f = &frags[i];
        let eq = find_first(f, '=');
        if eq < f.len() {
            let key = chars_range(f, 0, eq);
            let val = chars_range(f, eq + 1, f.len());
            proof {
                assert(key@ =~= frags@[i as int]@.take(eq as int));
                assert(val@ =~= frags@[i as int]@.skip(eq + 1));
            }
            r.push((key, val));
        }
        proof {
            assert(pair_views(r@) =~= pairs_of(views(frags@).take(i + 1)));
        }
        i = i + 1;
    }
    proof {
        assert(views(frags@).take(frags@.len() as int) =~= views(frags@));
    }
    r
}

/// Look a key up among the pairs, the last binding winning.
pub fn lookup_query(ps: &Vec<(Vec<char>, Vec<char>)>, key: &Vec<char>) -> (r: Option<Vec<char>>)
    ensures
        match r {
            Some(v) => lookup_pairs(pair_views(ps@), key@) == Some(v@),
            None => lookup_pairs(pair_views(ps@), key@) is None,
        },
{
    let mut i: usize = ps.len();
    proof {
        assert(pair_views(ps@).take(ps@.len() as int) =~= pair_views(ps@));
    }
    while i > 0
        invariant
            i <= ps@.len(),
            lookup_pairs(pair_views(ps@), key@) == lookup_pairs(
                pair_views(ps@).take(i as int),
                key@,
            ),
        decreases i,
    {
        i = i - 1;
        proof {
            assert(pair_views(ps@).take(i + 1).drop_last() =~= pair_views(ps@).take(i as int));
            assert(pair_views(ps@).take(i + 1).last() == (ps@[i as int].0@, ps@[i as int].1@));
        }
        if chars_eq(&ps[i].0, key) {
            let v = ps[i].1.clone();
            return Some(v);
        }
    }
    proof {
        assert(pair_views(ps@).take(0) =~= Seq::<(Seq<char>, Seq<char>)>::empty());
    }
    None
}

/// Lexicographic order on character sequences by code point, the order in
/// which query keys are sorted.
pub open spec fn lex_le(a: Seq<char>, b: Seq<char>) -> bool
    decreases a.len(),
{
    if a.len() == 0 {
        true
    } else if b.len() == 0 {
        false
    } else if (a.first() as u32) < (b.first() as u32) {
        true
    } else if (a.first() as u32) > (b.first() as u32) {
        false
    } else {
        lex_le(a.drop_first(), b.drop_first())
    }
}

/// Compare two character vectors lexicographically.
pub fn lex_le_exec(a: &Vec<char>, b: &Vec<char>) -> (r: bool)
    ensures
        r == lex_le(a@, b@),
{
    let mut i: usize = 0;
    proof {
        assert(a@.skip(0) =~= a@);
        assert(b@.skip(0) =~= b@);
    }
    while i < a.len() && i < b.len()
        invariant
            i <= a@.len(),
            i <= b@.len(),
            lex_le(a@, b@) == lex_le(a@.skip(i as int), b@.skip(i as int)),
        decreases a@.len() - i,
    {
        let x = a[i] as u32;
        let y = b[i] as u32;
        proof {
            assert(a@.skip(i as int).first() == a@[i as int]);
            assert(b@.skip(i as int).first() == b@[i as int]);
            assert(a@.skip(i as int).drop_first() =~= a@.skip(i + 1));
            assert(b@.skip(i as int).drop_first() =~= b@.skip(i + 1));
        }
        if x < y {
            return true;
        }
        if x > y {
            return false;
        }
        i = i + 1;
    }
    proof {
        if i >= a@.len() {
            assert(a@.skip(i as int).len() == 0);
        } else {
            assert(b@.skip(i as int).len() == 0);
            assert(a@.skip(i as int).len() > 0);
        }
    }
    a.len() <= b.len()
}

/// Insert a pair into a key-sorted pair list, after any pair whose key is
/// not greater, so that repeated keys keep their relative order.
pub open spec fn insert_sorted(
    p: (Seq<char>, Seq<char>),
    ps: Seq<(Seq<char>, Seq<char>)>,
) -> Seq<(Seq<char>, Seq<char>)>
    decreases ps.len(),
{
    if ps.len() == 0 {
        seq![p]
    } else if lex_le(ps.last().0, p.0) {
        ps.push(p)
    } else {
        insert_sorted(p, ps.drop_last()).push(ps.last())
    }
}

/// Sort a pair list by key, keeping the declaration order of equal keys.
pub open spec fn sort_by_key(ps: Seq<(Seq<char>, Seq<char>)>) -> Seq<(Seq<char>, Seq<char>)>
    decreases ps.len(),
{
    if ps.len() == 0 {
        ps
    } else {
        insert_sorted(ps.last(), sort_by_key(ps.drop_last()))
    }
}

/// Inserting at the scanned position matches the recursive insertion.
proof fn lemma_insert_sorted_at(p: (Seq<char>, Seq<char>), ps: Seq<(Seq<char>, Seq<char>)>, j: int)
    requires
        0 <= j <= ps.len(),
        forall|k: int| j <= k < ps.len() ==> !lex_le((#[trigger] ps[k]).0, p.0),
        j > 0 ==> lex_le(ps[j - 1].0, p.0),
    ensures
        insert_sorted(p, ps) =~~= ps.take(j) + seq![p] + ps.skip(j),
    decreases ps.len(),
{
    if j == ps.len() {
        if ps.len() == 0 {
            assert(insert_sorted(p, ps) =~= seq![p]);
        } else {
            assert(lex_le(ps.last().0, p.0));
        }
    } else {
        assert(!lex_le(ps.last().0, p.0));
        lemma_insert_sorted_at(p, ps.drop_last(), j);
        assert(ps.drop_last().take(j) =~= ps.take(j));
        assert(ps.drop_last().skip(j).push(ps.last()) =~= ps.skip(j));
    }
}

/// Where a key belongs in a key-sorted vector of pairs: after every pair
/// whose key is not greater.
fn insert_pos(v: &Vec<(Vec<char>, Vec<char>)>, key: &Vec<char>) -> (j: usize)
    ensures
        j <= v@.len(),
        forall|k: int| j <= k < v@.len() ==> !lex_le((#[trigger] v@[k]).0@, key@),
        j > 0 ==> lex_le(v@[j - 1].0@, key@),
{
    let mut j: usize = v.len();
    while j > 0
        invariant
            j <= v@.len(),
            forall|k: int| j <= k < v@.len() ==> !lex_le((#[trigger] v@[k]).0@, key@),
        decreases j,
    {
        if lex_le_exec(&v[j - 1].0, key) {
            return j;
        }
        j = j - 1;
    }
    0
}

/// Insert a pair into a key-sorted vector of pairs.
fn insert_pair(v: &mut Vec<(Vec<char>, Vec<char>)>, p: (Vec<char>, Vec<char>))
    ensures
        pair_views(final(v)@) == insert_sorted((p.0@, p.1@), pair_views(old(v)@)),
{
    let j = insert_pos(v, &p.0);
    proof {
        assert(forall|k: int| 0 <= k < v@.len() ==> pair_views(v@)[k] == (
            (#[trigger] v@[k]).0@,
            v@[k].1@,
        ));
        lemma_insert_sorted_at((p.0@, p.1@), pair_views(v@), j as int);
    }
    let ghost before = v@;
    v.insert(j, p);
    proof {
        assert(pair_views(v@) =~~= pair_views(before).take(j as int) + seq![(p.0@, p.1@)]
            + pair_views(before).skip(j as int));
    }
}

/// Sort key/value pairs by key, lexicographically, keeping the order of
/// equal keys.
pub fn sort_pairs(ps: Vec<(Vec<char>, Vec<char>)>) -> (r: Vec<(Vec<char>, Vec<char>)>)
    ensures
        pair_views(r@) == sort_by_key(pair_views(ps@)),
{
    let mut r: Vec<(Vec<char>, Vec<char>)> = Vec::new();
    let mut i: usize = 0;
    proof {
        assert(pair_views(ps@).take(0) =~= Seq::<(Seq<char>, Seq<char>)>::empty());
        assert(pair_views(r@) =~= sort_by_key(pair_views(ps@).take(0)));
    }
    while i < ps.len()
        invariant
            i <= ps@.len(),
            pair_views(r@) == sort_by_key(pair_views(ps@).take(i as int)),
        decreases ps@.len() - i,
    {
        proof {
            assert(pair_views(ps@).take(i + 1).drop_last() =~= pair_views(ps@).take(i as int));
            assert(pair_views(ps@).take(i + 1).last() == (ps@[i as int].0@, ps@[i as int].1@));
        }
        let key = ps[i].0.clone();
        let val = ps[i].1.clone();
        insert_pair(&mut r, (key, val));
        i = i + 1;
    }
    proof {
        assert(pair_views(ps@).take(ps@.len() as int) =~= pair_views(ps@));
    }
    r
}

/// The value of a digit string never shrinks as the string is extended.
proof fn lemma_dec_val_monotone(s: Seq<char>, i: int)
    requires
        0 <= i <= s.len(),
    ensures
        dec_val(s) >= dec_val(s.take(i)),
    decreases s.len() - i,
{
    if i < s.len() {
        assert(s.take(i + 1).drop_last() =~= s.take(i));
        assert(dec_val(s.take(i + 1)) == dec_val(s.take(i)) * 10 + digit_val(s.take(i + 1).last()));
        assert(dec_val(s.take(i)) * 10 >= dec_val(s.take(i))) by (nonlinear_arith) {}
        lemma_dec_val_monotone(s, i + 1);
        assert(s.take(s.len() as int) =~= s);
    } else {
        assert(s.take(i) =~= s);
    }
}

} // verus!
