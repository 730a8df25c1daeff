use vstd::prelude::*;
use crate::calendar::{decimal, push_decimal};
use crate::text::{chars_of, string_of, sub_vec};

verus! {

/// `s` cut to at most `max` characters, ending in `...` when cut and `max` exceeds three.
pub open spec fn truncated(s: Seq<char>, max: nat) -> Seq<char> {
    if s.len() <= max {
        s
    } else if max > 3 {
        s.subrange(0, max - 3) + seq!['.', '.', '.']
    } else {
        s.subrange(0, max as int)
    }
}

/// `s` with its characters fitted to `max_chars`, marked with `...` where cut.
pub fn truncate_str(s: &str, max_chars: usize) -> (r: String)
    ensures
        r@ == truncated(s@, max_chars as nat),
{
    let v = chars_of(s);
    if v.len() <= max_chars {
        s.to_owned()
    } else if max_chars > 3 {
        let mut head = sub_vec(&v, 0, max_chars - 3);
        head.push('.');
        head.push('.');
        head.push('.');
        assert(head@ =~= truncated(s@, max_chars as nat));
        string_of(&head)
    } else {
        string_of(&sub_vec(&v, 0, max_chars))
    }
}

/// Digits `d` with a comma before each group of three counted from the right.
pub open spec fn grouped(d: Seq<char>) -> Seq<char>
    decreases d.len(),
{
    if d.len() <= 3 {
        d
    } else {
        grouped(d.subrange(0, d.len() - 3)) + seq![','] + d.subrange(d.len() - 3, d.len() as int)
    }
}

fn push_grouped(out: &mut Vec<char>, d: &Vec<char>, k: usize)
    requires
        k <= d@.len(),
    ensures
        final(out)@ == old(out)@ + grouped(d@.subrange(0, k as int)),
    decreases k,
{
    let ghost p = d@.subrange(0, k as int);
    if k <= 3 {
        let mut i: usize = 0;
        while i < k
            invariant
                i <= k <= d@.len(),
                out@ == old(out)@ + d@.subrange(0, i as int),
            decreases k - i,
        {
            out.push(d[i]);
            i = i + 1;
            assert(out@ =~= old(out)@ + d@.subrange(0, i as int));
        }
    } else {
        push_grouped(out, d, k - 3);
        out.push(',');
        let ghost mid = out@;
        let start: usize = k - 3;
        let mut i: usize = start;
        while i < k
            invariant
                start <= i <= k <= d@.len(),
                start == k - 3,
                out@ == mid + d@.subrange(start as int, i as int),
            decreases k - i,
        {
            out.push(d[i]);
            i = i + 1;
            assert(out@ =~= mid + d@.subrange(start as int, i as int));
        }
        assert(p.subrange(0, p.len() - 3) =~= d@.subrange(0, k - 3));
        assert(p.subrange(p.len() - 3, p.len() as int) =~= d@.subrange(k - 3, k as int));
        assert(out@ =~= old(out)@ + grouped(p));
    }
}

/// `n` in decimal with thousands separated by commas.
pub fn format_number(n: usize) -> (r: String)
    ensures
        r@ == grouped(decimal(n as nat)),
{
    let mut digits: Vec<char> = Vec::new();
    push_decimal(&mut digits, n as u64);
    assert(digits@ =~= decimal(n as nat));
    let mut out: Vec<char> = Vec::new();
    push_grouped(&mut out, &digits, digits.len());
    assert(digits@.subrange(0, digits@.len() as int) =~= digits@);
    assert(out@ =~= grouped(decimal(n as nat)));
    string_of(&out)
}

} // verus!
