//! Invisible numeric tags, appended to menu lines so that the picker's plain
//! text output can be mapped back to the entry that produced it.
//!
//! A tag is a sequence of digits between two [`SEP`] characters.

use vstd::prelude::*;
use crate::text::{chars_of, push_char};

verus! {

/// `Zero width space` character.
pub const ZERO: char = '\u{200b}';

/// `Zero width joiner` character.
pub const ONE: char = '\u{200d}';

/// `Zero width non joiner` character, opening and closing every tag.
pub const SEP: char = '\u{200c}';

/// The digits of `n` in base `radix`, most significant first, without
/// leading zeros (zero itself is one digit).
pub open spec fn digits(n: nat, radix: nat) -> Seq<nat>
    decreases n,
    via digits_decreases
{
    if radix < 2 || n < radix {
        seq![n]
    } else {
        digits(n / radix, radix).push(n % radix)
    }
}

#[via_fn]
proof fn digits_decreases(n: nat, radix: nat) {
    if !(radix < 2 || n < radix) {
        vstd::arithmetic::div_mod::lemma_div_decreases(n as int, radix as int);
    }
}

/// The number written by `ds` in base `radix`, most significant digit first.
pub open spec fn digits_value(ds: Seq<nat>, radix: nat) -> nat
    decreases ds.len(),
{
    if ds.len() == 0 {
        0
    } else {
        digits_value(ds.drop_last(), radix) * radix + ds.last()
    }
}

/// The digit characters that write `n`.
pub open spec fn digit_text<T: Digits + ?Sized>(n: nat) -> Seq<char> {
    digits(n, T::radix()).map_values(|d: nat| T::digit_char(d))
}

/// The text of the tag of `n`: its digits between two separators.
pub open spec fn tag_text<T: Digits + ?Sized>(n: nat) -> Seq<char> {
    seq![SEP] + digit_text::<T>(n) + seq![SEP]
}

/// `s` without its leading separators.
pub open spec fn trim_start_sep(s: Seq<char>) -> Seq<char>
    decreases s.len(),
{
    if s.len() > 0 && s[0] == SEP {
        trim_start_sep(s.drop_first())
    } else {
        s
    }
}

/// `s` without its trailing separators.
pub open spec fn trim_end_sep(s: Seq<char>) -> Seq<char>
    decreases s.len(),
{
    if s.len() > 0 && s.last() == SEP {
        trim_end_sep(s.drop_last())
    } else {
        s
    }
}

/// Whether every character of `s` is a digit of the encoding.
pub open spec fn all_digits<T: Digits + ?Sized>(s: Seq<char>) -> bool {
    forall|i: int| 0 <= i < s.len() ==> T::char_digit(#[trigger] s[i]) is Some
}

/// The number written by the digit characters `s`.
pub open spec fn chars_value<T: Digits + ?Sized>(s: Seq<char>) -> nat
    decreases s.len(),
{
    if s.len() == 0 {
        0
    } else {
        chars_value::<T>(s.drop_last()) * T::radix() + T::char_digit(s.last())->0
    }
}

/// The index that a tag body stands for: the body, with separators at
/// either end removed, must be a non-empty run of digits whose value fits
/// in a `usize`.
pub open spec fn tag_value<T: Digits + ?Sized>(tag: Seq<char>) -> Option<nat> {
    let body = trim_end_sep(trim_start_sep(tag));
    if body.len() > 0 && all_digits::<T>(body) && chars_value::<T>(body) <= usize::MAX {
        Some(chars_value::<T>(body))
    } else {
        None
    }
}

/// The position of the first separator in `s` at or after `from`, or the
/// length of `s` if there is none.
pub open spec fn next_sep(s: Seq<char>, from: int) -> int
    decreases s.len() - from,
{
    if from >= s.len() {
        s.len() as int
    } else if s[from] == SEP {
        from
    } else {
        next_sep(s, from + 1)
    }
}

/// The first tag in `s` and the text after it: the text between the first
/// separator and the next one must be a valid tag body.
pub open spec fn decode<T: Digits + ?Sized>(s: Seq<char>) -> Option<(nat, Seq<char>)> {
    let open = next_sep(s, 0);
    let close = next_sep(s, open + 1);
    if close < s.len() {
        match tag_value::<T>(s.subrange(open + 1, close)) {
            Some(v) => Some((v, s.subrange(close + 1, s.len() as int))),
            None => None,
        }
    } else {
        None
    }
}

/// The digit alphabet of a tag encoding.
pub trait Digits {
    /// The base the digits are written in.
    spec fn radix() -> nat;

    /// The character that writes the digit `d`.
    spec fn digit_char(d: nat) -> char;

    /// The digit that `c` writes, if it is a digit of this encoding.
    spec fn char_digit(c: char) -> Option<nat>;

    /// The digit alphabet reads back, stays within the radix and leaves the
    /// separator out.
    proof fn lemma_alphabet()
        ensures
            2 <= Self::radix() <= 10,
            forall|d: nat| d < Self::radix() ==> Self::char_digit(#[trigger] Self::digit_char(d)) == Some(d),
            forall|c: char| #[trigger] Self::char_digit(c) matches Some(d) ==> d < Self::radix(),
            Self::char_digit(SEP) is None,
    ;

    fn radix_of() -> (r: u64)
        ensures
            r == Self::radix(),
    ;

    fn digit(d: u64) -> (c: char)
        requires
            d < Self::radix(),
        ensures
            c == Self::digit_char(d as nat),
    ;

    fn digit_of(c: char) -> (r: Option<usize>)
        ensures
            r matches Some(d) ==> Self::char_digit(c) == Some(d as nat),
            r is None ==> Self::char_digit(c) is None,
    ;
}

/// Convert a number to a string tag, and convert that tag back to its numeric value.
pub trait Tag: Digits {
    /// Convert a number to a tag that is pushed onto the provided [`String`].
    fn push_tag(num: usize, out: &mut String)
        ensures
            final(out)@ == old(out)@ + tag_text::<Self>(num as nat),
    {
        push_char(out, SEP);
        push_digits::<Self>(num as u64, out);
        push_char(out, SEP);
        assert(final(out)@ =~= old(out)@ + tag_text::<Self>(num as nat));
    }

    /// Convert the provided tag to its value as a [`usize`].
    fn convert_tag(tag: &str) -> (r: Option<usize>)
        ensures
            r is Some <==> tag_value::<Self>(tag@) is Some,
            r matches Some(v) ==> tag_value::<Self>(tag@) == Some(v as nat),
    {
        convert_chars::<Self>(&chars_of(tag))
    }

    /// Find the first tag, returning it and any part of the string after the tag.
    fn pop_tag(string: &str) -> (r: Option<(usize, &str)>)
        ensures
            r is Some <==> decode::<Self>(string@) is Some,
            r matches Some(p) ==> decode::<Self>(string@) == Some((p.0 as nat, p.1@)),
    {
        let cs = chars_of(string);
        let open = find_sep(&cs, 0);
        if open >= cs.len() {
            return None;
        }
        let close = find_sep(&cs, open + 1);
        if close >= cs.len() {
            return None;
        }
        let body = slice_chars(&cs, open + 1, close);
        match convert_chars::<Self>(&body) {
            Some(v) => {
                proof {
                    assert(body@ =~= string@.subrange(open + 1, close as int));
                }
                Some((v, string.substring_char(close + 1, cs.len())))
            },
            None => {
                proof {
                    assert(body@ =~= string@.subrange(open + 1, close as int));
                }
                None
            },
        }
    }
}

/// Pushes the digits of `n`, most significant first.
pub(crate) fn push_digits<T: Digits + ?Sized>(n: u64, out: &mut String)
    ensures
        final(out)@ == old(out)@ + digit_text::<T>(n as nat),
    decreases n,
{
    proof {
        T::lemma_alphabet();
    }
    let radix = T::radix_of();
    let ghost before = out@;
    if n >= radix {
        proof {
            vstd::arithmetic::div_mod::lemma_div_decreases(n as int, radix as int);
        }
        push_digits::<T>(n / radix, out);
    }
    let ghost mid = out@;
    push_char(out, T::digit(n % radix));
    proof {
        let ds = digits(n as nat, T::radix());
        let text = digit_text::<T>(n as nat);
        if n >= radix {
            let hs = digits((n / radix) as nat, T::radix());
            assert(ds == hs.push((n % radix) as nat));
            assert(mid == before + digit_text::<T>((n / radix) as nat));
            assert(text =~= digit_text::<T>((n / radix) as nat).push(
                T::digit_char((n % radix) as nat),
            ));
        } else {
            assert(ds == seq![n as nat]);
            vstd::arithmetic::div_mod::lemma_small_mod(n as nat, radix as nat);
            assert(mid == before);
            assert(text =~= seq![T::digit_char((n % radix) as nat)]);
        }
        assert(out@ =~= before + text);
    }
}

/// The position of the first separator in `cs` at or after `from`, or the
/// length of `cs` if there is none.
fn find_sep(cs: &Vec<char>, from: usize) -> (r: usize)
    requires
        from <= cs@.len(),
    ensures
        r == next_sep(cs@, from as int),
        from <= r <= cs@.len(),
{
    let mut i = from;
    while i < cs.len()
        invariant
            from <= i <= cs@.len(),
            next_sep(cs@, from as int) == next_sep(cs@, i as int),
        decreases cs@.len() - i,
    {
        if cs[i] == SEP {
            return i;
        }
        i = i + 1;
    }
    i
}

/// The characters of `cs` from `from` up to, not including, `to`.
fn slice_chars(cs: &Vec<char>, from: usize, to: usize) -> (r: Vec<char>)
    requires
        from <= to <= cs@.len(),
    ensures
        r@ == cs@.subrange(from as int, to as int),
{
    let mut out: Vec<char> = Vec::new();
    let mut i = from;
    while i < to
        invariant
            from <= i <= to <= cs@.len(),
            out@ == cs@.subrange(from as int, i as int),
        decreases to - i,
    {
        out.push(cs[i]);
        i = i + 1;
    }
    out
}

/// The value of the tag body `cs`, after removing separators at either end.
fn convert_chars<T: Digits + ?Sized>(cs: &Vec<char>) -> (r: Option<usize>)
    ensures
        r is Some <==> tag_value::<T>(cs@) is Some,
        r matches Some(v) ==> tag_value::<T>(cs@) == Some(v as nat),
{
    proof {
        T::lemma_alphabet();
    }
    let mut start: usize = 0;
    assert(cs@.subrange(0, cs@.len() as int) =~= cs@);
    while start < cs.len() && cs[start] == SEP
        invariant
            start <= cs@.len(),
            trim_start_sep(cs@) == trim_start_sep(cs@.subrange(start as int, cs@.len() as int)),
        decreases cs@.len() - start,
    {
        proof {
            let rest = cs@.subrange(start as int, cs@.len() as int);
            assert(rest.drop_first() =~= cs@.subrange(start + 1, cs@.len() as int));
        }
        start = start + 1;
    }
    let ghost front = cs@.subrange(start as int, cs@.len() as int);
    assert(trim_start_sep(front) == front);
    let mut end: usize = cs.len();
    while end > start && cs[end - 1] == SEP
        invariant
            start <= end <= cs@.len(),
            trim_end_sep(front) == trim_end_sep(cs@.subrange(start as int, end as int)),
        decreases end,
    {
        proof {
            let rest = cs@.subrange(start as int, end as int);
            assert(rest.drop_last() =~= cs@.subrange(start as int, end - 1));
        }
        end = end - 1;
    }
    let ghost body = cs@.subrange(start as int, end as int);
    assert(trim_end_sep(body) == body);
    assert(trim_end_sep(trim_start_sep(cs@)) == body);
    if start == end {
        return None;
    }
    let radix = T::radix_of() as usize;
    let mut acc: usize = 0;
    let mut i = start;
    while i < end
        invariant
            start <= i <= end <= cs@.len(),
            body == cs@.subrange(start as int, end as int),
            trim_end_sep(trim_start_sep(cs@)) == body,
            radix == T::radix(),
            2 <= radix <= 10,
            all_digits::<T>(cs@.subrange(start as int, i as int)),
            acc == chars_value::<T>(cs@.subrange(start as int, i as int)),
        decreases end - i,
    {
        let ghost pre = cs@.subrange(start as int, i as int);
        let ghost next = cs@.subrange(start as int, i + 1);
        assert(next.drop_last() =~= pre);
        assert(body[i - start] == cs@[i as int]);
        match T::digit_of(cs[i]) {
            None => {
                assert(T::char_digit(body[i - start]) is None);
                return None;
            },
            Some(d) => {
                assert(chars_value::<T>(next) == acc * radix + d);
                assert(all_digits::<T>(next)) by {
                    assert forall|k: int| 0 <= k < next.len() implies T::char_digit(
                        #[trigger] next[k],
                    ) is Some by {
                        if k < next.len() - 1 {
                            assert(next[k] == pre[k]);
                        }
                    }
                }
                proof {
                    lemma_prefix_value_le::<T>(body, i - start + 1);
                    assert(body.subrange(0, i - start + 1) =~= next);
                }
                let grown = acc.checked_mul(radix);
                match grown {
                    None => {
                        assert(acc * radix + d >= acc * radix) by (nonlinear_arith)
                            requires
                                d >= 0,
                        ;
                        return None;
                    },
                    Some(m) => match m.checked_add(d) {
                        None => {
                            return None;
                        },
                        Some(v) => {
                            acc = v;
                        },
                    },
                }
            },
        }
        i = i + 1;
    }
    assert(cs@.subrange(start as int, i as int) =~= body);
    Some(acc)
}

/// A body that is all digits has a value at least that of each of its prefixes.
proof fn lemma_prefix_value_le<T: Digits + ?Sized>(s: Seq<char>, k: int)
    requires
        0 <= k <= s.len(),
        2 <= T::radix(),
    ensures
        chars_value::<T>(s.subrange(0, k)) <= chars_value::<T>(s),
    decreases s.len(),
{
    if k < s.len() {
        lemma_prefix_value_le::<T>(s.drop_last(), k);
        assert(s.drop_last().subrange(0, k) =~= s.subrange(0, k));
        let p = chars_value::<T>(s.drop_last());
        assert(p * T::radix() >= p) by (nonlinear_arith)
            requires
                T::radix() >= 2,
        ;
    } else {
        assert(s.subrange(0, k) =~= s);
    }
}

/// Every digit of `n` is below the radix.
proof fn lemma_digits_below(n: nat, radix: nat)
    requires
        radix >= 2,
    ensures
        digits(n, radix).len() > 0,
        forall|i: int| 0 <= i < digits(n, radix).len() ==> #[trigger] digits(n, radix)[i] < radix,
    decreases n,
{
    if n >= radix {
        vstd::arithmetic::div_mod::lemma_div_decreases(n as int, radix as int);
        lemma_digits_below(n / radix, radix);
    }
}

/// The digit characters of `n` read back as `n`.
proof fn lemma_digits_read_back<T: Digits + ?Sized>(n: nat)
    ensures
        all_digits::<T>(digit_text::<T>(n)),
        chars_value::<T>(digit_text::<T>(n)) == n,
    decreases n,
{
    T::lemma_alphabet();
    let r = T::radix();
    let ds = digits(n, r);
    lemma_digits_below(n, r);
    let s = digit_text::<T>(n);
    assert forall|i: int| 0 <= i < s.len() implies T::char_digit(#[trigger] s[i]) is Some by {
        assert(ds[i] < r);
    }
    if n >= r {
        vstd::arithmetic::div_mod::lemma_div_decreases(n as int, r as int);
        lemma_digits_read_back::<T>(n / r);
        let hs = digits(n / r, r);
        assert(ds == hs.push(n % r));
        assert(s.drop_last() =~= digit_text::<T>(n / r));
        assert(s.last() == T::digit_char(n % r));
        assert(T::char_digit(s.last()) == Some(n % r));
        vstd::arithmetic::div_mod::lemma_fundamental_div_mod(n as int, r as int);
        assert(chars_value::<T>(s) == (n / r) * r + n % r);
        assert((n / r) * r == r * (n / r)) by (nonlinear_arith);
    } else {
        vstd::arithmetic::div_mod::lemma_small_mod(n, r);
        assert(s.drop_last() =~= Seq::<char>::empty());
        assert(s.last() == T::digit_char(n));
        assert(T::char_digit(s.last()) == Some(n));
        assert(chars_value::<T>(s.drop_last()) == 0);
        assert(0 * r == 0);
    }
}

/// The first separator at or after `from` is at `end` when none lies between.
proof fn lemma_next_sep_at(s: Seq<char>, from: int, end: int)
    requires
        0 <= from <= end < s.len(),
        s[end] == SEP,
        forall|k: int| from <= k < end ==> s[k] != SEP,
    ensures
        next_sep(s, from) == end,
    decreases end - from,
{
    if from < end {
        lemma_next_sep_at(s, from + 1, end);
    }
}

/// Decoding the tag of `n` gives back `n`, with nothing after it.
pub proof fn lemma_tag_round_trip<T: Tag>(n: nat)
    requires
        n <= usize::MAX,
    ensures
        decode::<T>(tag_text::<T>(n)) == Some((n, Seq::<char>::empty())),
{
    T::lemma_alphabet();
    let r = T::radix();
    let ds = digits(n, r);
    let body = digit_text::<T>(n);
    let t = tag_text::<T>(n);
    lemma_digits_below(n, r);
    lemma_digits_read_back::<T>(n);
    assert forall|i: int| 0 <= i < body.len() implies #[trigger] body[i] != SEP by {
        assert(ds[i] < r);
        assert(T::char_digit(T::digit_char(ds[i])) == Some(ds[i]));
    }
    let close = t.len() - 1;
    lemma_next_sep_at(t, 0, 0);
    assert forall|k: int| 1 <= k < close implies t[k] != SEP by {
        assert(t[k] == body[k - 1]);
    }
    lemma_next_sep_at(t, 1, close);
    assert(t.subrange(1, close) =~= body);
    assert(body[0] != SEP);
    assert(trim_start_sep(body) == body);
    assert(body.last() != SEP);
    assert(trim_end_sep(body) == body);
    assert(t.subrange(close + 1, t.len() as int) =~= Seq::<char>::empty());
}

/// Reading the digits of a tag back gives its number.
pub proof fn lemma_tag_value_of_digits<T: Digits>(n: nat)
    requires
        n <= usize::MAX,
    ensures
        tag_value::<T>(digit_text::<T>(n)) == Some(n),
{
    T::lemma_alphabet();
    let r = T::radix();
    let ds = digits(n, r);
    let body = digit_text::<T>(n);
    lemma_digits_below(n, r);
    lemma_digits_read_back::<T>(n);
    assert(ds[0] < r);
    assert(T::char_digit(T::digit_char(ds[0])) == Some(ds[0]));
    assert(body[0] != SEP);
    assert(trim_start_sep(body) == body);
    assert(ds[ds.len() - 1] < r);
    assert(T::char_digit(T::digit_char(ds[ds.len() - 1])) == Some(ds[ds.len() - 1]));
    assert(body.last() != SEP);
    assert(trim_end_sep(body) == body);
}

/// Binary encoded zero-width spaces and joiners.
pub struct Binary;

impl Digits for Binary {
    open spec fn radix() -> nat {
        2
    }

    open spec fn digit_char(d: nat) -> char {
        if d == 0 {
            ZERO
        } else {
            ONE
        }
    }

    open spec fn char_digit(c: char) -> Option<nat> {
        if c == ZERO {
            Some(0)
        } else if c == ONE {
            Some(1)
        } else {
            None
        }
    }

    proof fn lemma_alphabet() {
    }

    fn radix_of() -> (r: u64) {
        2
    }

    fn digit(d: u64) -> (c: char) {
        if d == 0 {
            ZERO
        } else {
            ONE
        }
    }

    fn digit_of(c: char) -> (r: Option<usize>) {
        if c == ZERO {
            Some(0)
        } else if c == ONE {
            Some(1)
        } else {
            None
        }
    }
}

impl Tag for Binary {}

/// Decimal encoded ascii.
pub struct Decimal;

impl Digits for Decimal {
    open spec fn radix() -> nat {
        10
    }

    open spec fn digit_char(d: nat) -> char {
        seq!['0', '1', '2', '3', '4', '5', '6', '7', '8', '9'][d as int]
    }

    open spec fn char_digit(c: char) -> Option<nat> {
        if '0' <= c <= '9' {
            Some((c as nat - '0' as nat) as nat)
        } else {
            None
        }
    }

    proof fn lemma_alphabet() {
        assert forall|d: nat| d < 10 implies Self::char_digit(#[trigger] Self::digit_char(d)) == Some(
            d,
        ) by {
            if d == 0 {} else if d == 1 {} else if d == 2 {} else if d == 3 {} else if d == 4 {
            } else if d == 5 {} else if d == 6 {} else if d == 7 {} else if d == 8 {} else {}
        }
    }

    fn radix_of() -> (r: u64) {
        10
    }

    fn digit(d: u64) -> (c: char) {
        match d {
            0 => '0',
            1 => '1',
            2 => '2',
            3 => '3',
            4 => '4',
            5 => '5',
            6 => '6',
            7 => '7',
            8 => '8',
            _ => '9',
        }
    }

    fn digit_of(c: char) -> (r: Option<usize>) {
        if '0' <= c && c <= '9' {
            Some((c as u32 - '0' as u32) as usize)
        } else {
            None
        }
    }
}

impl Tag for Decimal {}

} // verus!
