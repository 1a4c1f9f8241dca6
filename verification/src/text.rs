//! Text as character sequences: splitting into lines and whitespace-separated
//! tokens, trimming, and reading unsigned numbers the way `from_str_radix`
//! does.

use vstd::prelude::*;
use vstd::std_specs::iter::IteratorSpec;

verus! {

broadcast use vstd::string::group_string_axioms;

/// Unicode White_Space, the set `char::is_whitespace` tests.
pub open spec fn is_space(c: char) -> bool {
    let u = c as u32;
    ||| 0x09 <= u <= 0x0d
    ||| u == 0x20
    ||| u == 0x85
    ||| u == 0xa0
    ||| u == 0x1680
    ||| 0x2000 <= u <= 0x200a
    ||| u == 0x2028
    ||| u == 0x2029
    ||| u == 0x202f
    ||| u == 0x205f
    ||| u == 0x3000
}

pub fn space(c: char) -> (r: bool)
    ensures
        r == is_space(c),
{
    let u = c as u32;
    (0x09 <= u && u <= 0x0d) || u == 0x20 || u == 0x85 || u == 0xa0 || u == 0x1680 || (0x2000 <= u
        && u <= 0x200a) || u == 0x2028 || u == 0x2029 || u == 0x202f || u == 0x205f || u == 0x3000
}

/// The pieces of `s` between '\n' characters (one piece more than there
/// are newlines; a trailing newline leaves an empty last piece).
pub open spec fn split_lines(s: Seq<char>) -> Seq<Seq<char>>
    decreases s.len(),
{
    if s.len() == 0 {
        seq![Seq::empty()]
    } else if s.last() == '\n' {
        split_lines(s.drop_last()).push(Seq::empty())
    } else {
        let p = split_lines(s.drop_last());
        p.drop_last().push(p.last().push(s.last()))
    }
}

/// The positions [start, end) of the maximal runs of non-whitespace
/// characters of `s`, left to right.
pub open spec fn token_spans(s: Seq<char>) -> Seq<(int, int)>
    decreases s.len(),
{
    if s.len() == 0 {
        Seq::empty()
    } else {
        let prev = token_spans(s.drop_last());
        let n = s.len() as int;
        if is_space(s.last()) {
            prev
        } else if n >= 2 && !is_space(s[n - 2]) {
            prev.drop_last().push((prev.last().0, n))
        } else {
            prev.push((n - 1, n))
        }
    }
}

/// The whitespace-separated tokens of `s`, as `split_whitespace` yields them.
pub open spec fn tokens(s: Seq<char>) -> Seq<Seq<char>> {
    token_spans(s).map_values(|p: (int, int)| s.subrange(p.0, p.1))
}

/// The spans are ordered, non-empty and inside `s`; the last one ends at
/// the end of `s` exactly when `s` ends in a non-space character.
pub proof fn lemma_token_spans(s: Seq<char>)
    ensures
        forall|k: int|
            0 <= k < token_spans(s).len() ==> 0 <= #[trigger] token_spans(s)[k].0 < token_spans(
                s,
            )[k].1 <= s.len(),
        s.len() > 0 && !is_space(s.last()) ==> token_spans(s).len() > 0 && token_spans(s).last().1
            == s.len(),
        s.len() > 0 && is_space(s.last()) ==> (token_spans(s).len() > 0 ==> token_spans(s).last().1
            < s.len()),
    decreases s.len(),
{
    if s.len() > 0 {
        let prev = token_spans(s.drop_last());
        let n = s.len() as int;
        lemma_token_spans(s.drop_last());
        let cur = token_spans(s);
        if is_space(s.last()) {
            assert(cur == prev);
        } else if n >= 2 && !is_space(s[n - 2]) {
            assert(s.drop_last().last() == s[n - 2]);
            assert(cur == prev.drop_last().push((prev.last().0, n)));
            assert forall|k: int| 0 <= k < cur.len() implies 0 <= #[trigger] cur[k].0 < cur[k].1 <= n by {
                if k < cur.len() - 1 {
                    assert(cur[k] == prev[k]);
                } else {
                    assert(prev[prev.len() - 1] == prev.last());
                }
            }
        } else {
            assert(cur == prev.push((n - 1, n)));
            assert forall|k: int| 0 <= k < cur.len() implies 0 <= #[trigger] cur[k].0 < cur[k].1 <= n by {
                if k < cur.len() - 1 {
                    assert(cur[k] == prev[k]);
                }
            }
        }
    }
}

/// `w` is a word: non-empty, without whitespace.
pub open spec fn is_word(w: Seq<char>) -> bool {
    w.len() > 0 && forall|i: int| 0 <= i < w.len() ==> !is_space(#[trigger] w[i])
}

/// `sp` is a run of whitespace.
pub open spec fn is_gap(sp: Seq<char>) -> bool {
    sp.len() > 0 && forall|i: int| 0 <= i < sp.len() ==> is_space(#[trigger] sp[i])
}

/// Trailing whitespace adds no token.
proof fn lemma_spans_gap(a: Seq<char>, sp: Seq<char>)
    requires
        forall|i: int| 0 <= i < sp.len() ==> is_space(#[trigger] sp[i]),
    ensures
        token_spans(a + sp) == token_spans(a),
    decreases sp.len(),
{
    if sp.len() > 0 {
        assert((a + sp).drop_last() =~= a + sp.drop_last());
        assert((a + sp).last() == sp[sp.len() - 1]);
        lemma_spans_gap(a, sp.drop_last());
    } else {
        assert(a + sp =~= a);
    }
}

/// A word after whitespace (or at the start) is one more token span.
proof fn lemma_spans_word(a: Seq<char>, w: Seq<char>)
    requires
        w.len() > 0,
        forall|i: int| 0 <= i < w.len() ==> !is_space(#[trigger] w[i]),
        a.len() == 0 || is_space(a.last()),
    ensures
        token_spans(a + w) == token_spans(a).push((a.len() as int, (a.len() + w.len()) as int)),
    decreases w.len(),
{
    let s = a + w;
    assert(s.last() == w[w.len() - 1]);
    if w.len() == 1 {
        assert(s.drop_last() =~= a);
        if a.len() > 0 {
            assert(s[s.len() - 2] == a.last());
        }
    } else {
        assert(s.drop_last() =~= a + w.drop_last());
        lemma_spans_word(a, w.drop_last());
        assert(s[s.len() - 2] == w[w.len() - 2]);
    }
}

/// Tokens grow word by word: whitespace and then a word after `a` give the
/// tokens of `a` and that word.
pub proof fn lemma_tokens_then_word(a: Seq<char>, sp: Seq<char>, w: Seq<char>)
    requires
        is_gap(sp),
        is_word(w),
    ensures
        tokens(a + sp + w) == tokens(a).push(w),
{
    lemma_spans_gap(a, sp);
    assert((a + sp).last() == sp[sp.len() - 1]);
    lemma_spans_word(a + sp, w);
    lemma_token_spans(a);
    let t = a + sp + w;
    let sa = token_spans(a);
    assert forall|k: int| 0 <= k < sa.len() implies t.subrange(#[trigger] sa[k].0, sa[k].1) == a.subrange(
        sa[k].0,
        sa[k].1,
    ) by {
        assert(t.subrange(sa[k].0, sa[k].1) =~= a.subrange(sa[k].0, sa[k].1));
    }
    assert(t.subrange((a.len() + sp.len()) as int, t.len() as int) =~= w);
    assert(tokens(t) =~= tokens(a).push(w));
}

/// A word alone is one token.
pub proof fn lemma_tokens_word(w: Seq<char>)
    requires
        is_word(w),
    ensures
        tokens(w) == seq![w],
{
    let e = Seq::<char>::empty();
    assert(token_spans(e) == Seq::<(int, int)>::empty());
    lemma_spans_word(e, w);
    assert(e + w =~= w);
    assert(w.subrange(0, w.len() as int) =~= w);
    assert(tokens(w) =~= seq![w]);
}

/// Digits are not whitespace.
pub proof fn lemma_digit_not_space(c: char, radix: nat)
    requires
        radix <= 16,
        digit_value(c, radix) is Some,
    ensures
        !is_space(c),
{
}

/// `s` with every leading `c` removed.
pub open spec fn trim_start(s: Seq<char>, c: char) -> Seq<char>
    decreases s.len(),
{
    if s.len() > 0 && s[0] == c {
        trim_start(s.drop_first(), c)
    } else {
        s
    }
}

/// `s` with every trailing `c` removed.
pub open spec fn trim_end(s: Seq<char>, c: char) -> Seq<char>
    decreases s.len(),
{
    if s.len() > 0 && s.last() == c {
        trim_end(s.drop_last(), c)
    } else {
        s
    }
}

/// The value of an ASCII digit in `radix` (at most 16), if it is one.
pub open spec fn digit_value(c: char, radix: nat) -> Option<nat> {
    let u = c as u32;
    let d: int = if 0x30 <= u <= 0x39 {
        u - 0x30
    } else if 0x61 <= u <= 0x66 {
        u - 0x61 + 10
    } else if 0x41 <= u <= 0x46 {
        u - 0x41 + 10
    } else {
        16
    };
    if d < radix {
        Some(d as nat)
    } else {
        None
    }
}

/// Every character of `s` is a digit in `radix`.
pub open spec fn all_digits(s: Seq<char>, radix: nat) -> bool {
    forall|i: int| 0 <= i < s.len() ==> #[trigger] digit_value(s[i], radix) is Some
}

/// The value of the digit string `s`, most significant digit first.
pub open spec fn digits_value(s: Seq<char>, radix: nat) -> nat
    decreases s.len(),
{
    if s.len() == 0 {
        0
    } else {
        digits_value(s.drop_last(), radix) * radix + digit_value(s.last(), radix).unwrap_or(0)
    }
}

/// An unsigned number in `radix` as `from_str_radix` reads it: an optional
/// '+', then at least one digit, and no value above `max`.
pub open spec fn parse_unsigned(s: Seq<char>, radix: nat, max: nat) -> Option<nat> {
    let digits = if s.len() > 0 && s[0] == '+' {
        s.drop_first()
    } else {
        s
    };
    if digits.len() == 0 || !all_digits(digits, radix) || digits_value(digits, radix) > max {
        None
    } else {
        Some(digits_value(digits, radix))
    }
}

/// The characters of a string.
pub fn chars_of(s: &str) -> (r: Vec<char>)
    ensures
        r@ == s@,
{
    let mut it = s.chars();
    let mut v: Vec<char> = Vec::new();
    loop
        invariant
            v@ + it.remaining() == s@,
            it.decrease() is Some,
        ensures
            v@ == s@,
        decreases it.decrease()->0,
    {
        match it.next() {
            Some(c) => {
                assert(v@.push(c) + it.remaining() =~= s@);
                v.push(c);
            },
            None => {
                assert(v@ =~= s@);
                break ;
            },
        }
    }
    v
}

/// `String::push`: appends `c` at the end of `s`.
#[verifier::external_body]
pub(crate) fn push_char(s: &mut String, c: char)
    ensures
        final(s)@ == old(s)@.push(c),
{
    s.push(c);
}

/// The characters `chars[start..end]` as a string.
pub fn string_of(chars: &Vec<char>, start: usize, end: usize) -> (r: String)
    requires
        start <= end <= chars@.len(),
    ensures
        r@ == chars@.subrange(start as int, end as int),
{
    let mut s = String::new();
    let mut i = start;
    while i < end
        invariant
            start <= i <= end <= chars@.len(),
            s@ == chars@.subrange(start as int, i as int),
        decreases end - i,
    {
        push_char(&mut s, chars[i]);
        assert(chars@.subrange(start as int, i + 1) =~= chars@.subrange(start as int, i as int).push(
            chars@[i as int],
        ));
        i = i + 1;
    }
    s
}

/// The token spans of `chars[start..end]`, relative to `start`.
pub fn spans_of(chars: &Vec<char>, start: usize, end: usize) -> (r: Vec<(usize, usize)>)
    requires
        start <= end <= chars@.len(),
    ensures
        r@.len() == token_spans(chars@.subrange(start as int, end as int)).len(),
        forall|k: int|
            0 <= k < r@.len() ==> (r@[k].0 as int, r@[k].1 as int) == #[trigger] token_spans(
                chars@.subrange(start as int, end as int),
            )[k],
{
    let mut spans: Vec<(usize, usize)> = Vec::new();
    let mut i = start;
    while i < end
        invariant
            start <= i <= end <= chars@.len(),
            spans@.len() == token_spans(chars@.subrange(start as int, i as int)).len(),
            forall|k: int|
                0 <= k < spans@.len() ==> (spans@[k].0 as int, spans@[k].1 as int)
                    == #[trigger] token_spans(chars@.subrange(start as int, i as int))[k],
            forall|k: int| 0 <= k < spans@.len() ==> spans@[k].1 <= i - start,
        decreases end - i,
    {
        let ghost line = chars@.subrange(start as int, i + 1);
        assert(line.drop_last() =~= chars@.subrange(start as int, i as int));
        proof {
            lemma_token_spans(chars@.subrange(start as int, i as int));
        }
        let c = chars[i];
        if space(c) {
        } else if i > start && !space(chars[i - 1]) {
            let last = spans.len() - 1;
            let (s0, _) = spans[last];
            spans.set(last, (s0, i + 1 - start));
        } else {
            spans.push((i - start, i + 1 - start));
        }
        i = i + 1;
    }
    spans
}

/// Whether `chars[start..end]` equals `word`.
pub fn equals_at(chars: &Vec<char>, start: usize, end: usize, word: &[char]) -> (r: bool)
    requires
        start <= end <= chars@.len(),
    ensures
        r == (chars@.subrange(start as int, end as int) == word@),
{
    if end - start != word.len() {
        return false;
    }
    let mut k: usize = 0;
    while k < word.len()
        invariant
            end - start == word@.len(),
            start <= end <= chars@.len(),
            k <= word@.len(),
            forall|q: int| 0 <= q < k ==> chars@[start + q] == word@[q],
        decreases word@.len() - k,
    {
        if chars[start + k] != word[k] {
            assert(chars@.subrange(start as int, end as int)[k as int] != word@[k as int]);
            return false;
        }
        k = k + 1;
    }
    assert(chars@.subrange(start as int, end as int) =~= word@);
    true
}

/// The value of one digit, or None.
pub fn digit(c: char, radix: u32) -> (r: Option<u64>)
    requires
        radix <= 16,
    ensures
        r == (match digit_value(c, radix as nat) {
            Some(d) => Some(d as u64),
            None => None::<u64>,
        }),
        r matches Some(d) ==> d < radix,
{
    let u = c as u32;
    let d: u32 = if 0x30 <= u && u <= 0x39 {
        u - 0x30
    } else if 0x61 <= u && u <= 0x66 {
        u - 0x61 + 10
    } else if 0x41 <= u && u <= 0x46 {
        u - 0x41 + 10
    } else {
        16
    };
    if d < radix {
        Some(d as u64)
    } else {
        None
    }
}

/// `chars[start..end]` read as an unsigned number in `radix` no larger
/// than `max`, as `from_str_radix` reads it.
pub fn parse_number(chars: &Vec<char>, start: usize, end: usize, radix: u32, max: u64) -> (r: Option<u64>)
    requires
        start <= end <= chars@.len(),
        2 <= radix <= 16,
    ensures
        r == (match parse_unsigned(chars@.subrange(start as int, end as int), radix as nat, max as nat) {
            Some(v) => Some(v as u64),
            None => None::<u64>,
        }),
{
    let ghost s = chars@.subrange(start as int, end as int);
    let mut i = start;
    if i < end && chars[i] == '+' {
        i = i + 1;
    }
    let ghost digits = chars@.subrange(i as int, end as int);
    assert(digits =~= (if s.len() > 0 && s[0] == '+' {
        s.drop_first()
    } else {
        s
    }));
    if i == end {
        assert(digits.len() == 0);
        return None;
    }
    let d0 = i;
    let mut acc: u64 = 0;
    while i < end
        invariant
            d0 <= i <= end <= chars@.len(),
            digits == chars@.subrange(d0 as int, end as int),
            s == chars@.subrange(start as int, end as int),
            digits == (if s.len() > 0 && s[0] == '+' {
                s.drop_first()
            } else {
                s
            }),
            digits.len() > 0,
            2 <= radix <= 16,
            acc <= max,
            acc == digits_value(chars@.subrange(d0 as int, i as int), radix as nat),
            all_digits(chars@.subrange(d0 as int, i as int), radix as nat),
        decreases end - i,
    {
        let ghost pre = chars@.subrange(d0 as int, i as int);
        let ghost next = chars@.subrange(d0 as int, i + 1);
        assert(next.drop_last() =~= pre);
        match digit(chars[i], radix) {
            None => {
                assert(digit_value(digits[i - d0], radix as nat) is None);
                return None;
            },
            Some(d) => {
                assert(all_digits(next, radix as nat)) by {
                    assert forall|q: int| 0 <= q < next.len() implies #[trigger] digit_value(
                        next[q],
                        radix as nat,
                    ) is Some by {
                        if q < pre.len() {
                            assert(next[q] == pre[q]);
                        }
                    }
                }
                assert(digits_value(next, radix as nat) == acc * radix + d);
                // acc * radix + d, unless that passes max.
                if d > max || acc > (max - d) / (radix as u64) {
                    assert(acc * radix + d > max) by (nonlinear_arith)
                        requires
                            d > max || acc > (max - d) / (radix as int),
                            radix > 0,
                            acc >= 0,
                    ;
                    proof {
                        assert(digits.subrange(0, (i - d0 + 1) as int) =~= next);
                        lemma_digits_value_grows(digits, (i - d0 + 1) as nat, radix as nat);
                        assert(!all_digits(digits, radix as nat) || digits_value(digits, radix as nat) > max);
                    }
                    return None;
                }
                assert(acc * radix + d <= max) by (nonlinear_arith)
                    requires
                        acc <= (max - d) / (radix as int),
                        radix > 0,
                        d <= max,
                ;
                acc = acc * (radix as u64) + d;
            },
        }
        i = i + 1;
    }
    assert(chars@.subrange(d0 as int, i as int) =~= digits);
    Some(acc)
}

/// Extending a digit string never lowers its value; the value of a prefix
/// of length `k` bounds every longer prefix from below, once scaled.
proof fn lemma_digits_value_grows(s: Seq<char>, k: nat, radix: nat)
    requires
        0 < k <= s.len(),
        radix >= 2,
        all_digits(s.subrange(0, k as int), radix),
    ensures
        digits_value(s.subrange(0, k as int), radix) <= digits_value(s, radix) || !all_digits(
            s,
            radix,
        ),
    decreases s.len(),
{
    if s.len() > k {
        assert(s.drop_last().subrange(0, k as int) =~= s.subrange(0, k as int));
        lemma_digits_value_grows(s.drop_last(), k, radix);
        if all_digits(s, radix) {
            assert(all_digits(s.drop_last(), radix)) by {
                assert forall|q: int| 0 <= q < s.drop_last().len() implies #[trigger] digit_value(
                    s.drop_last()[q],
                    radix,
                ) is Some by {
                    assert(s.drop_last()[q] == s[q]);
                }
            }
            let a = digits_value(s.drop_last(), radix);
            assert(a <= a * radix) by (nonlinear_arith)
                requires
                    radix >= 2,
            ;
        }
    } else {
        assert(s.subrange(0, k as int) =~= s);
    }
}

} // verus!
