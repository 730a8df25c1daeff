use vstd::prelude::*;
use vstd::string::StrSliceExecFns;
use crate::text::{
    chars_of, has_prefix, is_digit, sub_vec, is_whitespace, is_ws, starts_with, trim, trim_start,
    trim_start_index, trimmed,
};

verus! {

/// The markdown role of one line of text.
#[derive(Clone, Copy, PartialEq, Eq, Debug, Structural)]
pub enum LineKind {
    Normal,
    Heading1,
    Heading2,
    Heading3,
    CodeBlock,
    BlockQuote,
    UnorderedList,
    OrderedList,
    HorizontalRule,
    Empty,
}

/// The characters of `s` that are not whitespace, in order.
pub open spec fn non_ws(s: Seq<char>) -> Seq<char> {
    s.filter(|c: char| !is_ws(c))
}

/// At least three non-whitespace characters, all the same one of `-`, `*`, `_`.
pub open spec fn is_rule(s: Seq<char>) -> bool {
    let m = non_ws(s);
    &&& m.len() >= 3
    &&& (m[0] == '-' || m[0] == '*' || m[0] == '_')
    &&& forall|i: int| 0 <= i < m.len() ==> #[trigger] m[i] == m[0]
}

/// How many ASCII digits `s` begins with.
pub open spec fn lead_digits(s: Seq<char>) -> nat
    decreases s.len(),
{
    if s.len() > 0 && is_digit(s[0]) {
        1 + lead_digits(s.drop_first())
    } else {
        0
    }
}

/// `s` has `k` leading digits followed by `". "`, where `k` counts all of them.
pub open spec fn digits_then_dot(s: Seq<char>) -> bool {
    let k = lead_digits(s);
    k + 2 <= s.len() && s[k as int] == '.' && s[(k + 1) as int] == ' '
}

/// One or more ASCII digits followed by `". "`.
pub open spec fn is_numbered(s: Seq<char>) -> bool {
    lead_digits(s) >= 1 && digits_then_dot(s)
}

/// The kind of `line`: the first rule that matches, in priority order.
pub open spec fn kind_of(line: Seq<char>) -> LineKind {
    let t = trim(line);
    if t.len() == 0 {
        LineKind::Empty
    } else if is_rule(t) {
        LineKind::HorizontalRule
    } else if starts_with(t, seq!['`', '`', '`']) {
        LineKind::CodeBlock
    } else if starts_with(line, seq![' ', ' ', ' ', ' ']) || starts_with(line, seq!['\t']) {
        LineKind::CodeBlock
    } else if starts_with(t, seq!['#', '#', '#', ' ']) {
        LineKind::Heading3
    } else if starts_with(t, seq!['#', '#', ' ']) {
        LineKind::Heading2
    } else if starts_with(t, seq!['#', ' ']) {
        LineKind::Heading1
    } else if starts_with(t, seq!['>', ' ']) || t == seq!['>'] {
        LineKind::BlockQuote
    } else if starts_with(t, seq!['-', ' ']) || starts_with(t, seq!['*', ' ']) {
        LineKind::UnorderedList
    } else if is_numbered(t) {
        LineKind::OrderedList
    } else {
        LineKind::Normal
    }
}

/// `s` without its first `n` characters.
pub open spec fn skip(s: Seq<char>, n: int) -> Seq<char> {
    s.subrange(n, s.len() as int)
}

/// `t` without the marker `p` where it begins with it, else `t` itself.
pub open spec fn without(t: Seq<char>, p: Seq<char>) -> Seq<char> {
    if starts_with(t, p) {
        skip(t, p.len() as int)
    } else {
        t
    }
}

/// What remains of `line` once the marker of `kind` is taken off.
pub open spec fn stripped(line: Seq<char>, kind: LineKind) -> Seq<char> {
    let t = trim_start(line);
    match kind {
        LineKind::Heading1 => without(t, seq!['#', ' ']),
        LineKind::Heading2 => without(t, seq!['#', '#', ' ']),
        LineKind::Heading3 => without(t, seq!['#', '#', '#', ' ']),
        LineKind::BlockQuote => if starts_with(t, seq!['>', ' ']) {
            skip(t, 2)
        } else if t == seq!['>'] {
            Seq::empty()
        } else {
            t
        },
        LineKind::UnorderedList => if starts_with(t, seq!['-', ' ']) {
            skip(t, 2)
        } else {
            without(t, seq!['*', ' '])
        },
        LineKind::OrderedList => if digits_then_dot(t) {
            skip(t, lead_digits(t) + 2int)
        } else {
            t
        },
        LineKind::CodeBlock => if starts_with(t, seq!['`', '`', '`']) {
            Seq::empty()
        } else if starts_with(line, seq![' ', ' ', ' ', ' ']) {
            skip(line, 4)
        } else {
            without(line, seq!['\t'])
        },
        LineKind::HorizontalRule => Seq::empty(),
        LineKind::Empty => Seq::empty(),
        LineKind::Normal => line,
    }
}

/// Number of leading ASCII digits of `v`.
fn count_lead_digits(v: &Vec<char>) -> (k: usize)
    ensures
        k == lead_digits(v@),
{
    let mut k: usize = 0;
    assert(v@.subrange(0, v@.len() as int) =~= v@);
    while k < v.len() && '0' <= v[k] && v[k] <= '9'
        invariant
            k <= v@.len(),
            lead_digits(v@) == k + lead_digits(v@.subrange(k as int, v@.len() as int)),
        decreases v@.len() - k,
    {
        assert(v@.subrange(k as int, v@.len() as int).drop_first() =~= v@.subrange(
            k + 1,
            v@.len() as int,
        ));
        k = k + 1;
    }
    k
}

/// Whether `v` has `k == lead_digits(v)` digits followed by `". "`.
fn has_digits_then_dot(v: &Vec<char>, k: usize) -> (r: bool)
    requires
        k == lead_digits(v@),
    ensures
        r == digits_then_dot(v@),
{
    k < v.len() && v.len() - k >= 2 && v[k] == '.' && v[k + 1] == ' '
}

impl LineKind {
    /// The kind of a line of markdown.
    pub fn classify(line: &str) -> (r: LineKind)
        ensures
            r == kind_of(line@),
    {
        let raw = chars_of(line);
        let t = trimmed(&raw);
        proof {
            reveal_strlit("```");
            reveal_strlit("    ");
            reveal_strlit("\t");
            reveal_strlit("### ");
            reveal_strlit("## ");
            reveal_strlit("# ");
            reveal_strlit("> ");
            reveal_strlit("- ");
            reveal_strlit("* ");
            assert("```"@ =~= seq!['`', '`', '`']);
            assert("    "@ =~= seq![' ', ' ', ' ', ' ']);
            assert("\t"@ =~= seq!['\t']);
            assert("### "@ =~= seq!['#', '#', '#', ' ']);
            assert("## "@ =~= seq!['#', '#', ' ']);
            assert("# "@ =~= seq!['#', ' ']);
            assert("> "@ =~= seq!['>', ' ']);
            assert("- "@ =~= seq!['-', ' ']);
            assert("* "@ =~= seq!['*', ' ']);
        }
        if t.len() == 0 {
            return LineKind::Empty;
        }
        if is_horizontal_rule(&t) {
            return LineKind::HorizontalRule;
        }
        if has_prefix(&t, "```") {
            return LineKind::CodeBlock;
        }
        if has_prefix(&raw, "    ") || has_prefix(&raw, "\t") {
            return LineKind::CodeBlock;
        }
        if has_prefix(&t, "### ") {
            return LineKind::Heading3;
        }
        if has_prefix(&t, "## ") {
            return LineKind::Heading2;
        }
        if has_prefix(&t, "# ") {
            return LineKind::Heading1;
        }
        if has_prefix(&t, "> ") || (t.len() == 1 && t[0] == '>') {
            assert(t.len() == 1 && t[0] == '>' ==> t@ =~= seq!['>']);
            return LineKind::BlockQuote;
        }
        if has_prefix(&t, "- ") || has_prefix(&t, "* ") {
            return LineKind::UnorderedList;
        }
        if is_ordered_list(&t) {
            return LineKind::OrderedList;
        }
        LineKind::Normal
    }
}

impl LineKind {
    /// The content of `line` with the structural marker of `kind` removed.
    pub fn strip_prefix<'a>(line: &'a str, kind: LineKind) -> (r: &'a str)
        ensures
            r@ == stripped(line@, kind),
    {
        let raw = chars_of(line);
        let n = raw.len();
        let i = trim_start_index(&raw);
        let t = sub_vec(&raw, i, n);
        proof {
            reveal_strlit("");
            reveal_strlit("```");
            reveal_strlit("    ");
            reveal_strlit("\t");
            reveal_strlit("### ");
            reveal_strlit("## ");
            reveal_strlit("# ");
            reveal_strlit("> ");
            reveal_strlit("- ");
            reveal_strlit("* ");
            assert(""@ =~= Seq::<char>::empty());
            assert("```"@ =~= seq!['`', '`', '`']);
            assert("    "@ =~= seq![' ', ' ', ' ', ' ']);
            assert("\t"@ =~= seq!['\t']);
            assert("### "@ =~= seq!['#', '#', '#', ' ']);
            assert("## "@ =~= seq!['#', '#', ' ']);
            assert("# "@ =~= seq!['#', ' ']);
            assert("> "@ =~= seq!['>', ' ']);
            assert("- "@ =~= seq!['-', ' ']);
            assert("* "@ =~= seq!['*', ' ']);
            assert forall|k: int| 0 <= k <= t@.len() implies #[trigger] skip(t@, k)
                =~= line@.subrange(i + k, n as int) by {}
        }
        match kind {
            LineKind::Heading1 => {
                if has_prefix(&t, "# ") {
                    line.substring_char(i + 2, n)
                } else {
                    line.substring_char(i, n)
                }
            },
            LineKind::Heading2 => {
                if has_prefix(&t, "## ") {
                    line.substring_char(i + 3, n)
                } else {
                    line.substring_char(i, n)
                }
            },
            LineKind::Heading3 => {
                if has_prefix(&t, "### ") {
                    line.substring_char(i + 4, n)
                } else {
                    line.substring_char(i, n)
                }
            },
            LineKind::BlockQuote => {
                if has_prefix(&t, "> ") {
                    line.substring_char(i + 2, n)
                } else if t.len() == 1 && t[0] == '>' {
                    assert(t@ =~= seq!['>']);
                    ""
                } else {
                    line.substring_char(i, n)
                }
            },
            LineKind::UnorderedList => {
                if has_prefix(&t, "- ") || has_prefix(&t, "* ") {
                    line.substring_char(i + 2, n)
                } else {
                    line.substring_char(i, n)
                }
            },
            LineKind::OrderedList => {
                let k = count_lead_digits(&t);
                if has_digits_then_dot(&t, k) {
                    line.substring_char(i + k + 2, n)
                } else {
                    line.substring_char(i, n)
                }
            },
            LineKind::CodeBlock => {
                if has_prefix(&t, "```") {
                    ""
                } else if has_prefix(&raw, "    ") {
                    line.substring_char(4, n)
                } else if has_prefix(&raw, "\t") {
                    line.substring_char(1, n)
                } else {
                    line
                }
            },
            LineKind::HorizontalRule => "",
            LineKind::Empty => "",
            LineKind::Normal => line,
        }
    }
}

/// Whether the characters of `s` make a horizontal rule.
pub fn is_horizontal_rule(s: &Vec<char>) -> (r: bool)
    ensures
        r == is_rule(s@),
{
    let mut m: Vec<char> = Vec::new();
    let mut i: usize = 0;
    while i < s.len()
        invariant
            i <= s@.len(),
            m@ == non_ws(s@.subrange(0, i as int)),
        decreases s@.len() - i,
    {
        let c = s[i];
        proof {
            reveal(Seq::filter);
            assert(s@.subrange(0, i + 1).drop_last() =~= s@.subrange(0, i as int));
        }
        if !is_whitespace(c) {
            m.push(c);
        }
        i = i + 1;
    }
    assert(s@.subrange(0, s@.len() as int) =~= s@);
    if m.len() < 3 {
        return false;
    }
    let first = m[0];
    if first != '-' && first != '*' && first != '_' {
        return false;
    }
    let mut j: usize = 0;
    while j < m.len()
        invariant
            j <= m@.len(),
            m@ == non_ws(s@),
            first == m@[0],
            forall|k: int| 0 <= k < j ==> m@[k] == first,
        decreases m@.len() - j,
    {
        if m[j] != first {
            return false;
        }
        j = j + 1;
    }
    true
}

/// Whether the characters of `s` begin an ordered list item.
pub fn is_ordered_list(s: &Vec<char>) -> (r: bool)
    ensures
        r == is_numbered(s@),
{
    let k = count_lead_digits(s);
    k >= 1 && has_digits_then_dot(s, k)
}

} // verus!
