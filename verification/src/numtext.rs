//! Decimal text for unsigned integers: formatting, scanning, and the lemmas
//! that make the two cancel.

use vstd::prelude::*;

verus! {

pub open spec fn digit_val(c: char) -> int {
    if c == '0' {
        0
    } else if c == '1' {
        1
    } else if c == '2' {
        2
    } else if c == '3' {
        3
    } else if c == '4' {
        4
    } else if c == '5' {
        5
    } else if c == '6' {
        6
    } else if c == '7' {
        7
    } else if c == '8' {
        8
    } else if c == '9' {
        9
    } else {
        -1
    }
}

pub open spec fn is_digit(c: char) -> bool {
    digit_val(c) >= 0
}

pub open spec fn digit_char(d: int) -> char {
    if d == 0 {
        '0'
    } else if d == 1 {
        '1'
    } else if d == 2 {
        '2'
    } else if d == 3 {
        '3'
    } else if d == 4 {
        '4'
    } else if d == 5 {
        '5'
    } else if d == 6 {
        '6'
    } else if d == 7 {
        '7'
    } else if d == 8 {
        '8'
    } else {
        '9'
    }
}

/// The canonical decimal form of `n`: no sign, no leading zeros.
pub open spec fn spec_u64_str(n: nat) -> Seq<char>
    decreases n,
{
    if n < 10 {
        seq![digit_char(n as int)]
    } else {
        spec_u64_str(n / 10).push(digit_char((n % 10) as int))
    }
}

/// The value of a digit string (most significant digit first).
pub open spec fn spec_digits_val(s: Seq<char>) -> int
    decreases s.len(),
{
    if s.len() == 0 {
        0
    } else {
        spec_digits_val(s.drop_last()) * 10 + digit_val(s.last())
    }
}

pub open spec fn all_digits(s: Seq<char>) -> bool {
    forall|i: int| 0 <= i < s.len() ==> is_digit(#[trigger] s[i])
}

pub proof fn lemma_u64_str_digits(n: nat)
    ensures
        all_digits(spec_u64_str(n)),
        spec_u64_str(n).len() >= 1,
    decreases n,
{
    if n >= 10 {
        lemma_u64_str_digits(n / 10);
        assert(spec_u64_str(n).drop_last() =~= spec_u64_str(n / 10));
    }
}

/// Formatting then evaluating gives the number back.
proof fn lemma_digit_round(d: int)
    requires
        0 <= d < 10,
    ensures
        digit_val(digit_char(d)) == d,
{
}

pub proof fn lemma_u64_str_val(n: nat)
    ensures
        spec_digits_val(spec_u64_str(n)) == n,
    decreases n,
{
    if n < 10 {
        lemma_digit_round(n as int);
        assert(spec_digits_val(Seq::<char>::empty()) == 0);
        assert(spec_u64_str(n).drop_last() =~= Seq::<char>::empty());
        assert(spec_u64_str(n).last() == digit_char(n as int));
    } else {
        lemma_u64_str_val(n / 10);
        lemma_digit_round((n % 10) as int);
        assert(spec_u64_str(n).drop_last() =~= spec_u64_str(n / 10));
        assert(spec_u64_str(n).last() == digit_char((n % 10) as int));
    }
}

pub proof fn lemma_digits_val_nonneg(s: Seq<char>)
    requires
        all_digits(s),
    ensures
        spec_digits_val(s) >= 0,
    decreases s.len(),
{
    if s.len() > 0 {
        assert(all_digits(s.drop_last()));
        lemma_digits_val_nonneg(s.drop_last());
    }
}

/// Appending digits never decreases the value.
pub proof fn lemma_digits_val_append_grows(s: Seq<char>, t: Seq<char>)
    requires
        all_digits(s),
        all_digits(t),
    ensures
        spec_digits_val(s + t) >= spec_digits_val(s),
    decreases t.len(),
{
    lemma_digits_val_nonneg(s);
    if t.len() == 0 {
        assert(s + t =~= s);
    } else {
        assert(all_digits(t.drop_last()));
        lemma_digits_val_append_grows(s, t.drop_last());
        assert((s + t).drop_last() =~= s + t.drop_last());
        lemma_digits_val_nonneg(s + t.drop_last());
    }
}

/// Splitting off the maximal digit prefix.
pub open spec fn spec_split_digits(s: Seq<char>) -> (Seq<char>, Seq<char>)
    decreases s.len(),
{
    if s.len() == 0 || !is_digit(s[0]) {
        (Seq::empty(), s)
    } else {
        let (d, r) = spec_split_digits(s.drop_first());
        (seq![s[0]] + d, r)
    }
}

pub proof fn lemma_split_digits_shape(s: Seq<char>)
    ensures
        all_digits(spec_split_digits(s).0),
        spec_split_digits(s).0 + spec_split_digits(s).1 =~= s,
        spec_split_digits(s).1.len() > 0 ==> !is_digit(spec_split_digits(s).1[0]),
    decreases s.len(),
{
    if s.len() == 0 || !is_digit(s[0]) {
    } else {
        lemma_split_digits_shape(s.drop_first());
        let (d, r) = spec_split_digits(s.drop_first());
        assert(spec_split_digits(s).0 =~= seq![s[0]] + d);
        assert(all_digits(seq![s[0]] + d));
        assert(s =~= seq![s[0]] + s.drop_first());
        assert((seq![s[0]] + d) + r =~= seq![s[0]] + (d + r));
    }
}

/// On a digit prefix followed by a non-digit boundary, the split recovers
/// exactly that prefix.
pub proof fn lemma_split_digits_concat(d: Seq<char>, r: Seq<char>)
    requires
        all_digits(d),
        r.len() == 0 || !is_digit(r[0]),
    ensures
        spec_split_digits(d + r).0 =~= d,
        spec_split_digits(d + r).1 =~= r,
    decreases d.len(),
{
    if d.len() == 0 {
        assert(d + r =~= r);
    } else {
        let s = d + r;
        assert(is_digit(s[0]));
        assert(s.drop_first() =~= d.drop_first() + r);
        assert(all_digits(d.drop_first()));
        lemma_split_digits_concat(d.drop_first(), r);
        assert(spec_split_digits(s).0 =~= seq![s[0]] + d.drop_first());
        assert(seq![s[0]] + d.drop_first() =~= d);
    }
}

/// The result of scanning a decimal number off the front of `s`: the value
/// and what follows, or nothing when `s` does not start with a digit or the
/// digits overflow a `u64`.
pub open spec fn spec_scan_u64(s: Seq<char>) -> Option<(u64, Seq<char>)> {
    let (d, r) = spec_split_digits(s);
    if d.len() == 0 {
        None
    } else if spec_digits_val(d) > u64::MAX {
        None
    } else {
        Some((spec_digits_val(d) as u64, r))
    }
}

fn char_digit_val(c: char) -> (r: i8)
    ensures
        r == digit_val(c),
{
    if c == '0' {
        0
    } else if c == '1' {
        1
    } else if c == '2' {
        2
    } else if c == '3' {
        3
    } else if c == '4' {
        4
    } else if c == '5' {
        5
    } else if c == '6' {
        6
    } else if c == '7' {
        7
    } else if c == '8' {
        8
    } else if c == '9' {
        9
    } else {
        -1
    }
}

fn digit_to_char(d: u8) -> (r: char)
    requires
        d < 10,
    ensures
        r == digit_char(d as int),
{
    if d == 0 {
        '0'
    } else if d == 1 {
        '1'
    } else if d == 2 {
        '2'
    } else if d == 3 {
        '3'
    } else if d == 4 {
        '4'
    } else if d == 5 {
        '5'
    } else if d == 6 {
        '6'
    } else if d == 7 {
        '7'
    } else if d == 8 {
        '8'
    } else {
        '9'
    }
}

/// Appends the canonical decimal form of `n` to `out`.
pub fn push_u64_chars(out: &mut Vec<char>, n: u64)
    ensures
        final(out)@ == old(out)@ + spec_u64_str(n as nat),
    decreases n,
{
    if n < 10 {
        out.push(digit_to_char(n as u8));
        proof {
            assert(out@ =~= old(out)@ + spec_u64_str(n as nat));
        }
    } else {
        push_u64_chars(out, n / 10);
        out.push(digit_to_char((n % 10) as u8));
        proof {
            assert(out@ =~= old(out)@ + spec_u64_str(n as nat));
        }
    }
}

/// Scans a decimal number starting at `start`; returns the value and the
/// position right after its digits.
pub fn scan_u64(v: &Vec<char>, start: usize) -> (r: Option<(u64, usize)>)
    requires
        start <= v@.len(),
    ensures
        match r {
            Some(p) => {
                &&& start <= p.1 <= v@.len()
                &&& spec_scan_u64(v@.skip(start as int)) == Some(
                    (p.0, v@.skip(p.1 as int)),
                )
            },
            None => spec_scan_u64(v@.skip(start as int)) is None,
        },
{
    let n = v.len();
    let mut i: usize = start;
    let mut val: u64 = 0;
    while i < n && char_digit_val(v[i]) >= 0
        invariant
            start <= i <= n,
            n == v@.len(),
            all_digits(v@.subrange(start as int, i as int)),
            val == spec_digits_val(v@.subrange(start as int, i as int)),
            spec_split_digits(v@.skip(start as int)).0 =~= v@.subrange(start as int, i as int)
                + spec_split_digits(v@.skip(i as int)).0,
            spec_split_digits(v@.skip(start as int)).1 =~= spec_split_digits(
                v@.skip(i as int),
            ).1,
        decreases n - i,
    {
        let d = char_digit_val(v[i]) as u64;
        proof {
            lemma_split_step(v@, i as int);
            assert(v@.subrange(start as int, i as int) + (seq![v@[i as int]]
                + spec_split_digits(v@.skip(i + 1)).0) =~= v@.subrange(start as int, i + 1)
                + spec_split_digits(v@.skip(i + 1)).0);
        }
        let hi = match val.checked_mul(10) {
            Some(h) => h,
            None => {
                proof {
                    lemma_scan_overflow(v@, start as int, i as int, val);
                }
                return None;
            },
        };
        let nv = match hi.checked_add(d) {
            Some(x) => x,
            None => {
                proof {
                    lemma_scan_overflow(v@, start as int, i as int, val);
                }
                return None;
            },
        };
        val = nv;
        i += 1;
        proof {
            assert(v@.subrange(start as int, i as int).drop_last() =~= v@.subrange(
                start as int,
                (i - 1) as int,
            ));
            assert(v@.subrange(start as int, i as int).last() == v@[i - 1]);
        }
    }
    proof {
        assert(spec_split_digits(v@.skip(i as int)).0 =~= Seq::<char>::empty());
        assert(spec_split_digits(v@.skip(i as int)).1 =~= v@.skip(i as int));
        assert(spec_split_digits(v@.skip(start as int)).0 =~= v@.subrange(
            start as int,
            i as int,
        ));
    }
    if i == start {
        return None;
    }
    Some((val, i))
}

/// Unfolds one step of the digit split at a digit position.
proof fn lemma_split_step(s: Seq<char>, i: int)
    requires
        0 <= i < s.len(),
        is_digit(s[i]),
    ensures
        spec_split_digits(s.skip(i)).0 =~= seq![s[i]] + spec_split_digits(s.skip(i + 1)).0,
        spec_split_digits(s.skip(i)).1 =~= spec_split_digits(s.skip(i + 1)).1,
{
    assert(s.skip(i)[0] == s[i]);
    assert(s.skip(i).drop_first() =~= s.skip(i + 1));
}

/// When the accumulated value already overflows, the whole digit prefix
/// overflows, so the scan's answer is `None`.
proof fn lemma_scan_overflow(s: Seq<char>, start: int, i: int, val: u64)
    requires
        0 <= start <= i < s.len(),
        is_digit(s[i]),
        all_digits(s.subrange(start, i)),
        val == spec_digits_val(s.subrange(start, i)),
        val * 10 + digit_val(s[i]) > u64::MAX,
        spec_split_digits(s.skip(start)).0 =~= s.subrange(start, i) + spec_split_digits(
            s.skip(i),
        ).0,
    ensures
        spec_scan_u64(s.skip(start)) is None,
{
    lemma_split_step(s, i);
    let head = s.subrange(start, i + 1);
    let tail = spec_split_digits(s.skip(i + 1)).0;
    assert(s.subrange(start, i) + (seq![s[i]] + tail) =~= head + tail);
    assert(spec_split_digits(s.skip(start)).0 =~= head + tail);
    assert(head.drop_last() =~= s.subrange(start, i));
    assert(head.last() == s[i]);
    assert(spec_digits_val(head) == val * 10 + digit_val(s[i]));
    lemma_split_digits_shape(s.skip(i + 1));
    assert(all_digits(head));
    lemma_digits_val_append_grows(head, tail);
    assert(spec_digits_val(spec_split_digits(s.skip(start)).0) > u64::MAX);
}

} // verus!
