//! The order of menu entries: group descending, then name ignoring ASCII
//! case, then name exactly.

use vstd::prelude::*;
use crate::resolve::{RunEntry, RunEntryView};
use crate::text::chars_of;

verus! {

/// The number a character sorts by; with `fold`, ASCII capitals sort as
/// their lower case letters.
pub open spec fn char_key(c: char, fold: bool) -> int {
    if fold && 'A' <= c <= 'Z' {
        (c as u32) as int + 32
    } else {
        (c as u32) as int
    }
}

/// The numbers a name sorts by.
pub open spec fn name_key(s: Seq<char>, fold: bool) -> Seq<int> {
    s.map_values(|c: char| char_key(c, fold))
}

/// Lexicographic order: `a` comes strictly before `b`.
pub open spec fn lex_lt(a: Seq<int>, b: Seq<int>) -> bool
    decreases a.len(),
{
    if a.len() == 0 {
        b.len() > 0
    } else if b.len() == 0 {
        false
    } else if a[0] != b[0] {
        a[0] < b[0]
    } else {
        lex_lt(a.drop_first(), b.drop_first())
    }
}

/// Whether entry `a` is listed strictly before entry `b`.
pub open spec fn entry_before(a: RunEntryView, b: RunEntryView) -> bool {
    a.group > b.group || (a.group == b.group && (lex_lt(name_key(a.name, true), name_key(b.name, true))
        || (name_key(a.name, true) == name_key(b.name, true) && lex_lt(
        name_key(a.name, false),
        name_key(b.name, false),
    ))))
}

/// Whether no entry of `s` is listed before one that precedes it.
pub open spec fn sorted(s: Seq<RunEntry>) -> bool {
    forall|i: int, j: int| 0 <= i < j < s.len() ==> !entry_before(#[trigger] s[j]@, #[trigger] s[i]@)
}

proof fn lemma_lex_asym(a: Seq<int>, b: Seq<int>)
    ensures
        lex_lt(a, b) ==> !lex_lt(b, a),
    decreases a.len(),
{
    if a.len() > 0 && b.len() > 0 && a[0] == b[0] {
        lemma_lex_asym(a.drop_first(), b.drop_first());
    }
}

proof fn lemma_lex_trans(a: Seq<int>, b: Seq<int>, c: Seq<int>)
    ensures
        lex_lt(a, b) && lex_lt(b, c) ==> lex_lt(a, c),
    decreases a.len(),
{
    if a.len() > 0 && b.len() > 0 && c.len() > 0 {
        lemma_lex_trans(a.drop_first(), b.drop_first(), c.drop_first());
    }
}

proof fn lemma_lex_total(a: Seq<int>, b: Seq<int>)
    ensures
        lex_lt(a, b) || lex_lt(b, a) || a == b,
    decreases a.len(),
{
    if a.len() > 0 && b.len() > 0 && a[0] == b[0] {
        lemma_lex_total(a.drop_first(), b.drop_first());
        if a.drop_first() == b.drop_first() {
            assert(a =~= seq![a[0]] + a.drop_first());
            assert(b =~= seq![b[0]] + b.drop_first());
        }
    } else if a.len() == 0 && b.len() == 0 {
        assert(a =~= b);
    }
}

/// An entry is never listed before itself, nor both before and after another.
proof fn lemma_before_asym(a: RunEntryView, b: RunEntryView)
    ensures
        entry_before(a, b) ==> !entry_before(b, a),
{
    lemma_lex_asym(name_key(a.name, true), name_key(b.name, true));
    lemma_lex_asym(name_key(a.name, false), name_key(b.name, false));
}

/// Listed before `b`, and `b` not listed after `c`: listed before `c`.
proof fn lemma_before_le(a: RunEntryView, b: RunEntryView, c: RunEntryView)
    ensures
        entry_before(a, b) && !entry_before(c, b) ==> entry_before(a, c),
{
    let (fa, fb, fc) = (name_key(a.name, true), name_key(b.name, true), name_key(c.name, true));
    let (ra, rb, rc) = (name_key(a.name, false), name_key(b.name, false), name_key(c.name, false));
    lemma_lex_trans(fa, fb, fc);
    lemma_lex_trans(ra, rb, rc);
    lemma_lex_total(fb, fc);
    lemma_lex_total(rb, rc);
}

/// Entries with different names are listed one before the other, in
/// exactly one order: sorting them leaves no choice.
pub proof fn lemma_order_total(a: RunEntryView, b: RunEntryView)
    requires
        a.name != b.name,
    ensures
        entry_before(a, b) || entry_before(b, a),
        !(entry_before(a, b) && entry_before(b, a)),
{
    lemma_before_asym(a, b);
    let (fa, fb) = (name_key(a.name, true), name_key(b.name, true));
    let (ra, rb) = (name_key(a.name, false), name_key(b.name, false));
    lemma_lex_total(fa, fb);
    lemma_lex_total(ra, rb);
    if ra == rb {
        assert(ra.len() == a.name.len() && rb.len() == b.name.len());
        assert forall|i: int| 0 <= i < a.name.len() implies a.name[i] == b.name[i] by {
            assert(ra[i] == rb[i]);
            assert(ra[i] == char_key(a.name[i], false) && rb[i] == char_key(b.name[i], false));
            vstd::utf8::char_u32_cast(a.name[i], a.name[i] as u32);
            vstd::utf8::char_u32_cast(b.name[i], b.name[i] as u32);
        }
        assert(a.name =~= b.name);
    }
}

/// Whether `a` is listed strictly before `b`.
pub fn entry_precedes(a: &RunEntry, b: &RunEntry) -> (r: bool)
    ensures
        r == entry_before(a@, b@),
{
    if a.group != b.group {
        return a.group > b.group;
    }
    let x = chars_of(a.name.as_str());
    let y = chars_of(b.name.as_str());
    let (folded_lt, folded_eq) = compare_names(&x, &y, true);
    if folded_lt {
        return true;
    }
    if !folded_eq {
        return false;
    }
    let (exact_lt, _) = compare_names(&x, &y, false);
    exact_lt
}

fn key_of(c: char, fold: bool) -> (r: u32)
    ensures
        r as int == char_key(c, fold),
{
    if fold && 'A' <= c && c <= 'Z' {
        c as u32 + 32
    } else {
        c as u32
    }
}

/// Whether `a` sorts strictly before `b`, and whether they sort the same.
fn compare_names(a: &Vec<char>, b: &Vec<char>, fold: bool) -> (r: (bool, bool))
    ensures
        r.0 == lex_lt(name_key(a@, fold), name_key(b@, fold)),
        r.1 == (name_key(a@, fold) == name_key(b@, fold)),
{
    let ghost ka = name_key(a@, fold);
    let ghost kb = name_key(b@, fold);
    let mut i: usize = 0;
    assert(ka.subrange(0, ka.len() as int) =~= ka);
    assert(kb.subrange(0, kb.len() as int) =~= kb);
    while i < a.len() && i < b.len()
        invariant
            ka == name_key(a@, fold),
            kb == name_key(b@, fold),
            i <= a@.len(),
            i <= b@.len(),
            forall|k: int| 0 <= k < i ==> ka[k] == kb[k],
            lex_lt(ka, kb) == lex_lt(ka.subrange(i as int, ka.len() as int), kb.subrange(i as int, kb.len() as int)),
        decreases a@.len() - i,
    {
        let x = key_of(a[i], fold);
        let y = key_of(b[i], fold);
        let ghost sa = ka.subrange(i as int, ka.len() as int);
        let ghost sb = kb.subrange(i as int, kb.len() as int);
        assert(sa[0] == x as int && sb[0] == y as int);
        if x != y {
            proof {
                assert(ka[i as int] != kb[i as int]);
            }
            return (x < y, false);
        }
        assert(sa.drop_first() =~= ka.subrange(i + 1, ka.len() as int));
        assert(sb.drop_first() =~= kb.subrange(i + 1, kb.len() as int));
        i = i + 1;
    }
    let lt = i == a.len() && i < b.len();
    let eq = a.len() == b.len();
    proof {
        if eq {
            assert(ka =~= kb);
        } else {
            assert(ka.len() != kb.len());
        }
    }
    (lt, eq)
}

/// The entries of `v`, listed in menu order.
pub fn sort_entries(v: Vec<RunEntry>) -> (r: Vec<RunEntry>)
    ensures
        sorted(r@),
        r@.to_multiset() == v@.to_multiset(),
{
    let ghost orig = v@;
    let mut v = v;
    let mut out: Vec<RunEntry> = Vec::new();
    broadcast use vstd::seq_lib::group_to_multiset_ensures;
    while v.len() > 0
        invariant
            sorted(out@),
            out@.to_multiset().add(v@.to_multiset()) == orig.to_multiset(),
        decreases v@.len(),
    {
        let ghost before_v = v@;
        let x = v.pop().unwrap();
        proof {
            assert(before_v =~= v@.push(x));
        }
        let mut lo: usize = 0;
        let mut hi: usize = out.len();
        while lo < hi
            invariant
                sorted(out@),
                lo <= hi <= out@.len(),
                forall|i: int| 0 <= i < lo ==> !entry_before(x@, #[trigger] out@[i]@),
                forall|i: int| hi <= i < out@.len() ==> entry_before(x@, #[trigger] out@[i]@),
            decreases hi - lo,
        {
            let mid = lo + (hi - lo) / 2;
            if entry_precedes(&x, &out[mid]) {
                proof {
                    assert forall|i: int| mid <= i < out@.len() implies entry_before(
                        x@,
                        #[trigger] out@[i]@,
                    ) by {
                        if i > mid {
                            lemma_before_le(x@, out@[mid as int]@, out@[i]@);
                        }
                    }
                }
                hi = mid;
            } else {
                proof {
                    assert forall|i: int| 0 <= i <= mid implies !entry_before(
                        x@,
                        #[trigger] out@[i]@,
                    ) by {
                        if i < mid {
                            lemma_before_le(x@, out@[i]@, out@[mid as int]@);
                        }
                    }
                }
                lo = mid + 1;
            }
        }
        let ghost before_out = out@;
        out.insert(lo, x);
        proof {
            assert forall|i: int, j: int| 0 <= i < j < out@.len() implies !entry_before(
                #[trigger] out@[j]@,
                #[trigger] out@[i]@,
            ) by {
                if j < lo {
                } else if j == lo {
                } else if i < lo {
                } else if i == lo {
                    lemma_before_asym(x@, out@[j]@);
                } else {
                }
            }
            vstd::seq_lib::to_multiset_insert(before_out, lo as int, x);
            assert(out@ == before_out.insert(lo as int, x));
            vstd::seq_lib::to_multiset_build(v@, x);
            assert(out@.to_multiset().add(v@.to_multiset()) =~= before_out.to_multiset().add(
                before_v.to_multiset(),
            ));
        }
    }
    out
}

} // verus!
