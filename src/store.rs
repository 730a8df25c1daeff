use vstd::prelude::*;
use crate::buffer::{join_lines, lines_of, text_lines};
use crate::calendar::{decimal, push_decimal};
use crate::serialize::texts;
use crate::text::{chars_of, string_of};

verus! {

/// The store key of the document `name`.
pub open spec fn doc_key_text(name: Seq<char>) -> Seq<char> {
    seq!['d', 'o', 'c', '_'] + name
}

/// The key under which the document `name` is stored.
pub fn doc_key(name: &str) -> (r: String)
    ensures
        r@ == doc_key_text(name@),
{
    let mut v: Vec<char> = Vec::new();
    v.push('d');
    v.push('o');
    v.push('c');
    v.push('_');
    let n = chars_of(name);
    let mut i: usize = 0;
    while i < n.len()
        invariant
            i <= n@.len(),
            v@ == seq!['d', 'o', 'c', '_'] + n@.subrange(0, i as int),
        decreases n@.len() - i,
    {
        v.push(n[i]);
        i = i + 1;
        assert(v@ =~= seq!['d', 'o', 'c', '_'] + n@.subrange(0, i as int));
    }
    assert(n@.subrange(0, i as int) =~= n@);
    string_of(&v)
}

/// Position of `name` in `names`, if it is there.
fn position_of(names: &[String], name: &String) -> (r: Option<usize>)
    ensures
        match r {
            Some(i) => i < names@.len() && names@[i as int]@ == name@,
            None => !texts(names@).contains(name@),
        },
{
    let mut i: usize = 0;
    while i < names.len()
        invariant
            i <= names@.len(),
            forall|k: int| 0 <= k < i ==> names@[k]@ != name@,
        decreases names@.len() - i,
    {
        if names[i] == *name {
            return Some(i);
        }
        i = i + 1;
    }
    assert forall|k: int| 0 <= k < texts(names@).len() implies texts(names@)[k] != name@ by {
        assert(names@[k]@ != name@);
    }
    None
}

/// The index with `name` added at the end; `None` where it is already listed.
pub fn add_doc_name(names: &[String], name: &str) -> (r: Option<Vec<String>>)
    ensures
        texts(names@).contains(name@) ==> r is None,
        !texts(names@).contains(name@) ==> (r matches Some(v) && texts(v@) == texts(
            names@,
        ).push(name@)),
{
    let owned = name.to_owned();
    match position_of(names, &owned) {
        Some(i) => {
            assert(texts(names@)[i as int] == name@);
            None
        },
        None => {
            let mut v: Vec<String> = Vec::new();
            let mut i: usize = 0;
            while i < names.len()
                invariant
                    i <= names@.len(),
                    texts(v@) == texts(names@).subrange(0, i as int),
                decreases names@.len() - i,
            {
                let ghost before = texts(v@);
                let c = names[i].clone();
                v.push(c);
                assert(texts(v@) =~= before.push(names@[i as int]@));
                i = i + 1;
                assert(texts(v@) =~= texts(names@).subrange(0, i as int));
            }
            assert(texts(names@).subrange(0, i as int) =~= texts(names@));
            let ghost before = texts(v@);
            v.push(owned);
            assert(texts(v@) =~= before.push(name@));
            Some(v)
        },
    }
}

/// The index without `name`.
pub fn remove_doc_name(names: &[String], name: &str) -> (r: Vec<String>)
    ensures
        texts(r@) == texts(names@).filter(|t: Seq<char>| t != name@),
{
    let owned = name.to_owned();
    let mut v: Vec<String> = Vec::new();
    let mut i: usize = 0;
    while i < names.len()
        invariant
            i <= names@.len(),
            owned@ == name@,
            texts(v@) == texts(names@).subrange(0, i as int).filter(|t: Seq<char>| t != name@),
        decreases names@.len() - i,
    {
        proof {
            reveal(Seq::filter);
            assert(texts(names@).subrange(0, i + 1).drop_last() =~= texts(names@).subrange(
                0,
                i as int,
            ));
        }
        if names[i] != owned {
            let ghost before = texts(v@);
            v.push(names[i].clone());
            assert(texts(v@) =~= before.push(names@[i as int]@));
        }
        i = i + 1;
    }
    assert(texts(names@).subrange(0, i as int) =~= texts(names@));
    v
}

/// The name `prefix`, or `prefix n` for a number `n` above one.
pub open spec fn numbered(prefix: Seq<char>, n: nat) -> Seq<char> {
    if n == 1 {
        prefix
    } else {
        prefix + seq![' '] + decimal(n)
    }
}

/// The first of `numbered(prefix, n)`, from `n` up to 999, that `existing` does not hold;
/// `numbered(prefix, 1000)` where all are taken.
pub open spec fn first_free(existing: Seq<Seq<char>>, prefix: Seq<char>, n: nat) -> Seq<char>
    decreases 1000 - n,
{
    if n > 999 {
        numbered(prefix, n)
    } else if !existing.contains(numbered(prefix, n)) {
        numbered(prefix, n)
    } else {
        first_free(existing, prefix, n + 1)
    }
}

fn numbered_name(prefix: &str, n: u64) -> (r: String)
    requires
        n >= 1,
    ensures
        r@ == numbered(prefix@, n as nat),
{
    if n == 1 {
        return prefix.to_owned();
    }
    let mut v = chars_of(prefix);
    v.push(' ');
    push_decimal(&mut v, n);
    string_of(&v)
}

/// A name for a new document: `prefix`, or else `prefix 2`, `prefix 3`, ... up to
/// `prefix 999`, the first that `existing` does not hold; `prefix 1000` where all are taken.
pub fn next_doc_name(existing: &[String], prefix: &str) -> (r: String)
    ensures
        r@ == first_free(texts(existing@), prefix@, 1),
{
    let mut n: u64 = 1;
    loop
        invariant
            1 <= n <= 999,
            first_free(texts(existing@), prefix@, 1) == first_free(texts(existing@), prefix@, n as nat),
        decreases 1000 - n,
    {
        let candidate = numbered_name(prefix, n);
        match position_of(existing, &candidate) {
            None => {
                return candidate;
            },
            Some(i) => {
                assert(texts(existing@)[i as int] == candidate@);
                assert(texts(existing@).contains(candidate@));
            },
        }
        assert(first_free(texts(existing@), prefix@, n as nat) == first_free(
            texts(existing@),
            prefix@,
            (n + 1) as nat,
        ));
        n = n + 1;
        if n > 999 {
            return numbered_name(prefix, n);
        }
    }
}

/// The journal's date index as text: the dates joined by line feeds.
pub fn encode_date_index(dates: &[String]) -> (r: String)
    ensures
        r@ == join_lines(texts(dates@)),
{
    let ghost t = texts(dates@);
    let mut acc: Vec<char> = Vec::new();
    let mut i: usize = 0;
    while i < dates.len()
        invariant
            t == texts(dates@),
            i <= t.len(),
            acc@ == join_lines(t.subrange(0, i as int)),
        decreases t.len() - i,
    {
        let line = chars_of(dates[i].as_str());
        let ghost before = acc@;
        if i > 0 {
            acc.push('\n');
        }
        let mut j: usize = 0;
        while j < line.len()
            invariant
                j <= line@.len(),
                acc@ == (if i > 0 {
                    before + seq!['\n']
                } else {
                    before
                }) + line@.subrange(0, j as int),
            decreases line@.len() - j,
        {
            acc.push(line[j]);
            j = j + 1;
            assert(acc@ =~= (if i > 0 {
                before + seq!['\n']
            } else {
                before
            }) + line@.subrange(0, j as int));
        }
        assert(line@.subrange(0, j as int) =~= line@);
        assert(t.subrange(0, i + 1).drop_last() =~= t.subrange(0, i as int));
        if i == 0 {
            assert(acc@ =~= join_lines(t.subrange(0, 1)));
        }
        i = i + 1;
    }
    assert(t.subrange(0, i as int) =~= t);
    string_of(&acc)
}

/// The dates of the journal's date index text: its non-empty lines.
pub fn decode_date_index(text: &str) -> (r: Vec<String>)
    ensures
        texts(r@) == text_lines(text@).filter(|l: Seq<char>| l.len() > 0),
{
    let lines = lines_of(text);
    let ghost t = texts(lines@);
    assert(t == text_lines(text@));
    let mut v: Vec<String> = Vec::new();
    let mut i: usize = 0;
    while i < lines.len()
        invariant
            i <= lines@.len(),
            t == texts(lines@),
            texts(v@) == t.subrange(0, i as int).filter(|l: Seq<char>| l.len() > 0),
        decreases lines@.len() - i,
    {
        proof {
            reveal(Seq::filter);
            assert(t.subrange(0, i + 1).drop_last() =~= t.subrange(0, i as int));
        }
        if !lines[i].as_str().is_empty() {
            let ghost before = texts(v@);
            v.push(lines[i].clone());
            assert(texts(v@) =~= before.push(lines@[i as int]@));
        }
        i = i + 1;
    }
    assert(t.subrange(0, i as int) =~= t);
    v
}


/// Lexicographic order of texts by character code, the order of `String`'s `Ord`.
pub open spec fn text_le(a: Seq<char>, b: Seq<char>) -> bool
    decreases a.len(),
{
    if a.len() == 0 {
        true
    } else if b.len() == 0 {
        false
    } else if a[0] != b[0] {
        (a[0] as u32) < (b[0] as u32)
    } else {
        text_le(a.drop_first(), b.drop_first())
    }
}

/// Each text is at most every later one.
pub open spec fn texts_sorted(s: Seq<Seq<char>>) -> bool {
    forall|i: int, j: int| 0 <= i < j < s.len() ==> text_le(#[trigger] s[i], #[trigger] s[j])
}

proof fn lemma_text_le_total(a: Seq<char>, b: Seq<char>)
    ensures
        text_le(a, b) || text_le(b, a),
    decreases a.len(),
{
    if a.len() > 0 && b.len() > 0 && a[0] == b[0] {
        lemma_text_le_total(a.drop_first(), b.drop_first());
    } else if a.len() > 0 && b.len() > 0 {
        assert((a[0] as u32) != (b[0] as u32)) by {
            vstd::utf8::char_u32_cast(a[0], a[0] as u32);
            vstd::utf8::char_u32_cast(b[0], b[0] as u32);
        }
    }
}

proof fn lemma_text_le_trans(a: Seq<char>, b: Seq<char>, c: Seq<char>)
    requires
        text_le(a, b),
        text_le(b, c),
    ensures
        text_le(a, c),
    decreases a.len(),
{
    if a.len() > 0 && b.len() > 0 && c.len() > 0 && a[0] == b[0] && b[0] == c[0] {
        lemma_text_le_trans(a.drop_first(), b.drop_first(), c.drop_first());
    }
}

/// Whether `a` comes no later than `b` in character order.
fn text_le_exec(a: &Vec<char>, b: &Vec<char>) -> (r: bool)
    ensures
        r == text_le(a@, b@),
{
    let mut i: usize = 0;
    assert(a@.subrange(0, a@.len() as int) =~= a@);
    assert(b@.subrange(0, b@.len() as int) =~= b@);
    while i < a.len() && i < b.len() && a[i] == b[i]
        invariant
            i <= a@.len(),
            i <= b@.len(),
            text_le(a@, b@) == text_le(
                a@.subrange(i as int, a@.len() as int),
                b@.subrange(i as int, b@.len() as int),
            ),
        decreases a@.len() - i,
    {
        assert(a@.subrange(i as int, a@.len() as int).drop_first() =~= a@.subrange(
            i + 1,
            a@.len() as int,
        ));
        assert(b@.subrange(i as int, b@.len() as int).drop_first() =~= b@.subrange(
            i + 1,
            b@.len() as int,
        ));
        i = i + 1;
    }
    if i == a.len() {
        true
    } else if i == b.len() {
        false
    } else {
        (a[i] as u32) < (b[i] as u32)
    }
}

/// The date index with `date` added, sorted; `None` where it is already listed.
pub fn add_date(dates: &[String], date: &str) -> (r: Option<Vec<String>>)
    ensures
        texts(dates@).contains(date@) ==> r is None,
        !texts(dates@).contains(date@) ==> (r matches Some(v) && texts_sorted(texts(v@))
            && texts(v@).to_multiset() == texts(dates@).push(date@).to_multiset()),
{
    broadcast use vstd::seq_lib::group_to_multiset_ensures, vstd::seq_lib::to_multiset_insert;

    let ghost all = texts(dates@).push(date@);
    let items = match add_doc_name(dates, date) {
        Some(v) => v,
        None => {
            return None;
        },
    };
    let mut sorted: Vec<String> = Vec::new();
    let mut i: usize = 0;
    while i < items.len()
        invariant
            i <= items@.len(),
            all == texts(items@),
            texts_sorted(texts(sorted@)),
            texts(sorted@).to_multiset() == all.subrange(0, i as int).to_multiset(),
        decreases items@.len() - i,
    {
        let x = items[i].clone();
        assert(x@ == all[i as int]);
        let xc = chars_of(x.as_str());
        let mut k: usize = 0;
        while k < sorted.len() && text_le_exec(&chars_of(sorted[k].as_str()), &xc)
            invariant
                k <= sorted@.len(),
                xc@ == x@,
                forall|m: int| 0 <= m < k ==> text_le(#[trigger] sorted@[m]@, x@),
            decreases sorted@.len() - k,
        {
            k = k + 1;
        }
        let ghost old_t = texts(sorted@);
        proof {
            if k < sorted@.len() {
                lemma_text_le_total(old_t[k as int], x@);
            }
            assert forall|j: int| k <= j < old_t.len() implies text_le(x@, #[trigger] old_t[j]) by {
                if j > k {
                    assert(text_le(old_t[k as int], old_t[j]));
                    lemma_text_le_trans(x@, old_t[k as int], old_t[j]);
                }
            }
        }
        sorted.insert(k, x);
        let ghost new_t = texts(sorted@);
        assert(new_t =~= old_t.insert(k as int, all[i as int]));
        assert(texts_sorted(new_t)) by {
            assert forall|a: int, b: int| 0 <= a < b < new_t.len() implies text_le(
                #[trigger] new_t[a],
                #[trigger] new_t[b],
            ) by {
                if b < k {
                    assert(new_t[a] == old_t[a]);
                    assert(new_t[b] == old_t[b]);
                } else if a < k && b == k {
                    assert(text_le(sorted@[a]@, x@));
                } else if a < k && b > k {
                    assert(new_t[b] == old_t[b - 1]);
                    assert(new_t[a] == old_t[a]);
                } else if a == k {
                    assert(new_t[b] == old_t[b - 1]);
                } else {
                    assert(new_t[a] == old_t[a - 1]);
                    assert(new_t[b] == old_t[b - 1]);
                }
            }
        }
        assert(all.subrange(0, i + 1) =~= all.subrange(0, i as int).push(all[i as int]));
        proof {
            vstd::seq_lib::to_multiset_insert(old_t, k as int, all[i as int]);
            all.subrange(0, i as int).to_multiset_ensures();
        }
        i = i + 1;
    }
    assert(all.subrange(0, i as int) =~= all);
    Some(sorted)
}

} // verus!
