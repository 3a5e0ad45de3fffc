//! Human-readable formatting of counters.

use vstd::prelude::*;
use crate::text::{decimal, decimal_chars, string_of};

verus! {

/// Digits `d` split into groups of three from the right, joined by commas.
pub open spec fn grouped(d: Seq<char>) -> Seq<char>
    decreases d.len(),
{
    if d.len() <= 3 {
        d
    } else {
        grouped(d.subrange(0, d.len() - 3)) + seq![','] + d.subrange(d.len() - 3, d.len() as int)
    }
}

/// `s` without its commas.
pub open spec fn strip_commas(s: Seq<char>) -> Seq<char>
    decreases s.len(),
{
    if s.len() == 0 {
        s
    } else if s.last() == ',' {
        strip_commas(s.drop_last())
    } else {
        strip_commas(s.drop_last()).push(s.last())
    }
}

proof fn lemma_strip_commas_append(a: Seq<char>, b: Seq<char>)
    ensures
        strip_commas(a + b) == strip_commas(a) + strip_commas(b),
    decreases b.len(),
{
    if b.len() == 0 {
        assert(a + b =~= a);
        assert(strip_commas(a) + strip_commas(b) =~= strip_commas(a));
    } else {
        assert((a + b).drop_last() =~= a + b.drop_last());
        lemma_strip_commas_append(a, b.drop_last());
        if b.last() != ',' {
            assert(strip_commas(a) + strip_commas(b.drop_last()).push(b.last())
                =~= (strip_commas(a) + strip_commas(b.drop_last())).push(b.last()));
        }
    }
}

proof fn lemma_strip_commas_none(s: Seq<char>)
    requires
        !s.contains(','),
    ensures
        strip_commas(s) == s,
    decreases s.len(),
{
    if s.len() > 0 {
        assert(!s.drop_last().contains(',')) by {
            if s.drop_last().contains(',') {
                let i = choose|i: int| 0 <= i < s.drop_last().len() && s.drop_last()[i] == ',';
                assert(s[i] == ',');
            }
        }
        lemma_strip_commas_none(s.drop_last());
        assert(s[s.len() - 1] != ',');
        assert(s.drop_last().push(s.last()) =~= s);
    }
}

/// Grouping digits with commas loses nothing: removing the commas gives the
/// digits back, and exactly one comma is added per full group of three
/// digits beyond the first group.
pub proof fn lemma_grouped_keeps_digits(d: Seq<char>)
    requires
        !d.contains(','),
    ensures
        strip_commas(grouped(d)) == d,
        d.len() > 0 ==> grouped(d).len() == d.len() + (d.len() - 1) / 3,
    decreases d.len(),
{
    if d.len() <= 3 {
        lemma_strip_commas_none(d);
    } else {
        let head = d.subrange(0, d.len() - 3);
        let tail = d.subrange(d.len() - 3, d.len() as int);
        assert(!head.contains(',')) by {
            if head.contains(',') {
                let i = choose|i: int| 0 <= i < head.len() && head[i] == ',';
                assert(d[i] == ',');
            }
        }
        assert(!tail.contains(',')) by {
            if tail.contains(',') {
                let i = choose|i: int| 0 <= i < tail.len() && tail[i] == ',';
                assert(d[d.len() - 3 + i] == ',');
            }
        }
        lemma_grouped_keeps_digits(head);
        lemma_strip_commas_append(grouped(head) + seq![','], tail);
        lemma_strip_commas_append(grouped(head), seq![',']);
        assert(strip_commas(seq![',']) =~= Seq::<char>::empty()) by {
            assert(seq![','].drop_last() =~= Seq::<char>::empty());
            assert(seq![','].last() == ',');
            assert(strip_commas(Seq::<char>::empty()) == Seq::<char>::empty());
        }
        lemma_strip_commas_none(tail);
        assert(head + tail =~= d);
        assert(strip_commas(grouped(head)) + Seq::<char>::empty() =~= strip_commas(grouped(head)));
    }
}

/// Format an integer with a comma between each group of three digits,
/// counted from the right (e.g. 1234567 as "1,234,567").
pub fn format_int(n: u64) -> (s: String)
    ensures
        s@ == grouped(decimal(n as nat)),
{
    let d = decimal_chars(n);
    let len = d.len();
    proof { lemma_decimal_nonempty(n as nat); }
    let first = if len % 3 == 0 { 3 } else { len % 3 };
    let mut out: Vec<char> = Vec::new();
    let mut i: usize = 0;
    while i < first
        invariant
            first <= len,
            len == d@.len(),
            i <= first,
            out@ == d@.subrange(0, i as int),
        decreases first - i,
    {
        out.push(d[i]);
        proof { assert(out@ =~= d@.subrange(0, i + 1)); }
        i = i + 1;
    }
    assert(grouped(d@.subrange(0, first as int)) == d@.subrange(0, first as int));
    let mut pos: usize = first;
    while pos < len
        invariant
            1 <= first <= pos <= len,
            len == d@.len(),
            (len - pos) % 3 == 0,
            out@ == grouped(d@.subrange(0, pos as int)),
        decreases len - pos,
    {
        let ghost before = out@;
        out.push(',');
        out.push(d[pos]);
        out.push(d[pos + 1]);
        out.push(d[pos + 2]);
        proof {
            let next = d@.subrange(0, pos + 3);
            assert(next.subrange(0, next.len() - 3) =~= d@.subrange(0, pos as int));
            assert(next.subrange(next.len() - 3, next.len() as int) =~= d@.subrange(pos as int, pos + 3));
            assert(out@ =~= before + seq![','] + d@.subrange(pos as int, pos + 3));
        }
        pos = pos + 3;
    }
    assert(d@.subrange(0, len as int) =~= d@);
    string_of(&out)
}

proof fn lemma_decimal_nonempty(n: nat)
    ensures
        decimal(n).len() >= 1,
    decreases n,
{
    if n >= 10 {
        lemma_decimal_nonempty(n / 10);
    }
}

} // verus!
