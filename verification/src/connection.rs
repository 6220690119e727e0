//! A node reported down by index: the text a status connection sends, and
//! what it does to the nodes.
use vstd::prelude::*;
use crate::coordinate::{
    all_digits, digits_value, is_digit, lemma_digits_nonneg, lemma_digits_prefix,
    lemma_digits_step,
};
use crate::model::{node_views, Node, NodeView};

verus! {

/// The characters that `str::trim` removes: those with Unicode's
/// White_Space property.
pub open spec fn is_whitespace(c: char) -> bool {
    ('\u{9}' <= c && c <= '\u{d}') || c == ' ' || c == '\u{85}' || c == '\u{a0}' || c
        == '\u{1680}' || ('\u{2000}' <= c && c <= '\u{200a}') || c == '\u{2028}' || c
        == '\u{2029}' || c == '\u{202f}' || c == '\u{205f}' || c == '\u{3000}'
}

pub open spec fn trim_front(s: Seq<char>) -> Seq<char>
    decreases s.len(),
{
    if s.len() > 0 && is_whitespace(s[0]) {
        trim_front(s.drop_first())
    } else {
        s
    }
}

pub open spec fn trim_back(s: Seq<char>) -> Seq<char>
    decreases s.len(),
{
    if s.len() > 0 && is_whitespace(s.last()) {
        trim_back(s.drop_last())
    } else {
        s
    }
}

/// The text without white space at either end.
pub open spec fn trimmed(s: Seq<char>) -> Seq<char> {
    trim_back(trim_front(s))
}

/// The index that a text stands for: an optional `+` and decimal digits,
/// of a value that fits in `usize`.
pub open spec fn index_value(t: Seq<char>) -> Option<int> {
    let d = if t.len() > 0 && t[0] == '+' {
        t.drop_first()
    } else {
        t
    };
    if d.len() > 0 && all_digits(d) && digits_value(d) <= usize::MAX {
        Some(digits_value(d))
    } else {
        None
    }
}

/// The index a status connection's text names, white space around it
/// ignored.
pub open spec fn received_index(text: Seq<char>) -> Option<int> {
    index_value(trimmed(text))
}

fn white(c: char) -> (r: bool)
    ensures
        r == is_whitespace(c),
{
    ('\u{9}' <= c && c <= '\u{d}') || c == ' ' || c == '\u{85}' || c == '\u{a0}' || c
        == '\u{1680}' || ('\u{2000}' <= c && c <= '\u{200a}') || c == '\u{2028}' || c
        == '\u{2029}' || c == '\u{202f}' || c == '\u{205f}' || c == '\u{3000}'
}

/// Where the text's trimmed part begins and ends.
fn trim_bounds(text: &str) -> (r: (usize, usize))
    ensures
        r.0 <= r.1 <= text@.len(),
        text@.subrange(r.0 as int, r.1 as int) == trimmed(text@),
{
    let ghost s = text@;
    let n = text.unicode_len();
    let mut a: usize = 0;
    proof {
        assert(s.subrange(0, n as int) =~= s);
    }
    while a < n
        invariant
            a <= n,
            n == s.len(),
            s == text@,
            trim_front(s) == trim_front(s.subrange(a as int, n as int)),
        ensures
            a == n || !is_whitespace(s[a as int]),
        decreases n - a,
    {
        if !white(text.get_char(a)) {
            break ;
        }
        proof {
            assert(s.subrange(a as int, n as int).drop_first() =~= s.subrange(a + 1, n as int));
        }
        a = a + 1;
    }
    let ghost front = s.subrange(a as int, n as int);
    assert(trim_front(front) == front);
    let mut b: usize = n;
    while b > a
        invariant
            a <= b <= n,
            n == s.len(),
            s == text@,
            front == s.subrange(a as int, n as int),
            trim_back(front) == trim_back(s.subrange(a as int, b as int)),
        ensures
            b == a || !is_whitespace(s[b - 1]),
        decreases b,
    {
        if !white(text.get_char(b - 1)) {
            break ;
        }
        proof {
            assert(s.subrange(a as int, b as int).drop_last() =~= s.subrange(a as int, b - 1));
        }
        b = b - 1;
    }
    (a, b)
}

/// The index that `text@[a..b]` stands for.
fn parse_index(text: &str, a: usize, b: usize) -> (r: Option<usize>)
    requires
        a <= b <= text@.len(),
    ensures
        match index_value(text@.subrange(a as int, b as int)) {
            Some(i) => r == Some(i as usize) && 0 <= i <= usize::MAX,
            None => r is None,
        },
{
    let ghost t = text@.subrange(a as int, b as int);
    let mut k = a;
    if k < b && text.get_char(k) == '+' {
        k = k + 1;
    }
    let start = k;
    let ghost d = text@.subrange(start as int, b as int);
    proof {
        if start == a {
            assert(d =~= t);
        } else {
            assert(d =~= t.drop_first());
        }
        assert(d.take(0) =~= Seq::<char>::empty());
    }
    if start == b {
        return None;
    }
    let mut value: usize = 0;
    while k < b
        invariant
            start <= k <= b,
            b <= text@.len(),
            d == text@.subrange(start as int, b as int),
            t == text@.subrange(a as int, b as int),
            index_value(t) == if d.len() > 0 && all_digits(d) && digits_value(d) <= usize::MAX {
                Some(digits_value(d))
            } else {
                None
            },
            all_digits(d.take(k - start)),
            value == digits_value(d.take(k - start)),
        decreases b - k,
    {
        let c = text.get_char(k);
        let j = k - start;
        assert(d[j as int] == c);
        if !('0' <= c && c <= '9') {
            proof {
                assert(!is_digit(d[j as int]));
            }
            return None;
        }
        let digit = (c as u32 - '0' as u32) as usize;
        proof {
            lemma_digits_step(d, j as int);
            assert forall|t2: int| 0 <= t2 < d.take(j + 1).len() implies is_digit(
                #[trigger] d.take(j + 1)[t2],
            ) by {
                if t2 < j {
                    assert(d.take(j + 1)[t2] == d.take(j as int)[t2]);
                }
            }
        }
        let next = match value.checked_mul(10) {
            Some(v) => v.checked_add(digit),
            None => None,
        };
        match next {
            Some(v) => {
                value = v;
            },
            None => {
                proof {
                    if all_digits(d) {
                        lemma_digits_prefix(d, j + 1);
                    }
                }
                return None;
            },
        }
        k = k + 1;
    }
    proof {
        assert(d.take(k - start) =~= d);
        lemma_digits_nonneg(d);
    }
    Some(value)
}

/// The index that a status connection's text names, if it names one.
pub fn received_index_of(text: &str) -> (r: Option<usize>)
    ensures
        match received_index(text@) {
            Some(i) => r == Some(i as usize) && 0 <= i <= usize::MAX,
            None => r is None,
        },
{
    let (a, b) = trim_bounds(text);
    parse_index(text, a, b)
}

/// Takes down the node at the index that the text names; text that names
/// no index changes nothing.
pub fn handle_connection_data(nodes: &mut Vec<Node>, text: &str) -> (r: Option<usize>)
    requires
        received_index(text@) matches Some(i) ==> i < old(nodes).len(),
    ensures
        match received_index(text@) {
            Some(i) => r == Some(i as usize) && node_views(final(nodes)@) == node_views(
                old(nodes)@,
            ).update(i, (NodeView { is_online: false, ..node_views(old(nodes)@)[i] })),
            None => r is None && final(nodes)@ == old(nodes)@,
        },
{
    match received_index_of(text) {
        Some(i) => {
            let ghost before = node_views(nodes@);
            let mut node = nodes[i].duplicate();
            node.is_online = false;
            nodes.set(i, node);
            assert(node_views(nodes@) =~= before.update(
                i as int,
                NodeView { is_online: false, ..before[i as int] },
            ));
            Some(i)
        },
        None => None,
    }
}

} // verus!
