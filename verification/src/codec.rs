//! The graph codec.
//!
//! `parse_edges` reads the wire form `"s1-t1,s2-t2,..."` into an edge
//! list; `graph_to_string` and `render` write a graph back out, either
//! in the rich form `"nodes: x1,y1;x2,y2;...;edges: s1-t1,...,"` or in
//! the minimal edges-only form.  Both directions carry exact
//! contracts over the character sequences.

use vstd::prelude::*;
use vstd::string::StrSliceExecFns;
use crate::error::LayoutError;
use crate::graph::{Edge, Graph, Vertex};
use crate::fixed::COORD_MAX;

verus! {

// ---------------------------------------------------------------------------
// Reading numbers
// ---------------------------------------------------------------------------

/// Whether a character is a decimal digit.
pub open spec fn is_digit_char(c: char) -> bool {
    48 <= c as u32 <= 57
}

/// The value of a digit character (0 for anything else).
pub open spec fn digit_value(c: char) -> nat {
    if is_digit_char(c) {
        (c as u32 - 48) as nat
    } else {
        0
    }
}

/// The number a digit string denotes, most significant digit first.
pub open spec fn digits_value(s: Seq<char>) -> nat
    decreases s.len(),
{
    if s.len() == 0 {
        0
    } else {
        digits_value(s.drop_last()) * 10 + digit_value(s.last())
    }
}

/// A non-empty run of digits.
pub open spec fn all_digits(s: Seq<char>) -> bool {
    s.len() > 0 && forall|i: int| 0 <= i < s.len() ==> is_digit_char(#[trigger] s[i])
}

/// Taking one more character never lowers the denoted value.
proof fn lemma_digits_value_take_le(s: Seq<char>, i: int)
    requires
        0 <= i <= s.len(),
    ensures
        digits_value(s.take(i)) <= digits_value(s),
    decreases s.len() - i,
{
    if i == s.len() {
        assert(s.take(i) == s);
    } else {
        lemma_digits_value_take_le(s, i + 1);
        assert(s.take(i + 1).drop_last() == s.take(i));
        assert(digits_value(s.take(i)) <= digits_value(s.take(i + 1)));
    }
}

// ---------------------------------------------------------------------------
// Finding separators
// ---------------------------------------------------------------------------

/// The index of the first occurrence of `c` in `s`, or -1.
pub open spec fn find_char(s: Seq<char>, c: char) -> int
    decreases s.len(),
{
    if s.len() == 0 {
        -1
    } else if s[0] == c {
        0
    } else {
        let r = find_char(s.drop_first(), c);
        if r < 0 {
            -1
        } else {
            r + 1
        }
    }
}

/// `find_char` returns the first occurrence, or -1 when there is none.
proof fn lemma_find_char_charac(s: Seq<char>, c: char)
    ensures
        find_char(s, c) == -1 || 0 <= find_char(s, c) < s.len(),
        find_char(s, c) == -1 ==> forall|i: int| 0 <= i < s.len() ==> s[i] != c,
        find_char(s, c) != -1 ==> {
            let r = find_char(s, c);
            &&& 0 <= r < s.len()
            &&& s[r] == c
            &&& forall|i: int| 0 <= i < r ==> s[i] != c
        },
    decreases s.len(),
{
    if s.len() == 0 {
    } else if s[0] == c {
    } else {
        let t = s.drop_first();
        lemma_find_char_charac(t, c);
        let r = find_char(t, c);
        if r == -1 {
            assert forall|i: int| 0 <= i < s.len() implies s[i] != c by {
                if i >= 1 {
                    assert(t[i - 1] != c);
                    assert(s[i] == t[i - 1]);
                }
            }
        } else {
            assert(s[r + 1] == t[r]);
            assert forall|i: int| 0 <= i < r + 1 implies s[i] != c by {
                if i >= 1 {
                    assert(t[i - 1] != c);
                    assert(s[i] == t[i - 1]);
                }
            }
        }
    }
}

/// `find_char` either fails or names an index inside the sequence.
pub proof fn lemma_find_char_bounds(s: Seq<char>, c: char)
    ensures
        find_char(s, c) == -1 || 0 <= find_char(s, c) < s.len(),
{
    lemma_find_char_charac(s, c);
}

/// Scan `[start, hi)` of `text` for `target`; report `hi` when absent.
fn find_in_range(text: &str, start: usize, hi: usize, target: char) -> (p: usize)
    requires
        start <= hi <= text@.len(),
    ensures
        start <= p <= hi,
        p < hi ==> text@[p as int] == target,
        forall|k: int| start <= k < p ==> text@[k] != target,
{
    let mut i: usize = start;
    while i < hi
        invariant
            start <= i <= hi <= text@.len(),
            forall|k: int| start <= k < i ==> text@[k] != target,
        decreases hi - i,
    {
        if text.get_char(i) == target {
            return i;
        }
        i = i + 1;
    }
    i
}

/// The first occurrence found by a scan is the one `find_char` names.
proof fn lemma_find_char_agrees(s: Seq<char>, c: char, p: int, hi: int)
    requires
        0 <= p <= hi == s.len(),
        p < hi ==> s[p] == c,
        forall|k: int| 0 <= k < p ==> s[k] != c,
    ensures
        p < hi ==> find_char(s, c) == p,
        p == hi ==> find_char(s, c) == -1,
{
    lemma_find_char_charac(s, c);
    if p < hi {
        let r = find_char(s, c);
        if r == -1 {
            assert(s[p] != c);
        } else {
            if r < p {
                assert(s[r] != c);
            }
            if p < r {
                assert(s[p] != c);
            }
        }
    } else {
        if find_char(s, c) != -1 {
            let r = find_char(s, c);
            assert(s[r] != c);
        }
    }
}

// ---------------------------------------------------------------------------
// Parsing
// ---------------------------------------------------------------------------

/// What one token denotes: `digits-digits` with both endpoints below
/// `usize::MAX` (so the derived vertex count fits the machine) makes
/// an edge; anything else is malformed.
pub open spec fn parse_token(t: Seq<char>) -> Option<Edge> {
    let p = find_char(t, '-');
    if p < 0 {
        None
    } else {
        let a = t.subrange(0, p);
        let b = t.subrange(p + 1, t.len() as int);
        if all_digits(a) && all_digits(b) && digits_value(a) < usize::MAX && digits_value(b)
            < usize::MAX {
            Some(
                Edge {
                    source: digits_value(a) as usize,
                    target: digits_value(b) as usize,
                },
            )
        } else {
            None
        }
    }
}

/// What a non-empty comma-separated token list denotes.
pub open spec fn parse_edge_list(s: Seq<char>) -> Option<Seq<Edge>>
    decreases s.len(),
    via parse_edge_list_decreases
{
    let p = find_char(s, ',');
    if p < 0 {
        match parse_token(s) {
            Some(e) => Some(seq![e]),
            None => None,
        }
    } else {
        match parse_token(s.subrange(0, p)) {
            Some(e) => match parse_edge_list(s.subrange(p + 1, s.len() as int)) {
                Some(rest) => Some(seq![e] + rest),
                None => None,
            },
            None => None,
        }
    }
}

#[via_fn]
proof fn parse_edge_list_decreases(s: Seq<char>) {
    lemma_find_char_charac(s, ',');
}

/// What the whole wire text denotes: empty text is the empty graph.
pub open spec fn parse_graph_text(s: Seq<char>) -> Option<Seq<Edge>> {
    if s.len() == 0 {
        Some(Seq::empty())
    } else {
        parse_edge_list(s)
    }
}

/// Read the digits of `text` in `[lo, hi)` as a number below
/// `usize::MAX`.
fn parse_number_range(text: &str, lo: usize, hi: usize) -> (r: Result<usize, LayoutError>)
    requires
        lo <= hi <= text@.len(),
    ensures
        ({
            let t = text@.subrange(lo as int, hi as int);
            match r {
                Ok(v) => all_digits(t) && digits_value(t) < usize::MAX && v == digits_value(t),
                Err(e) => {
                    &&& !(all_digits(t) && digits_value(t) < usize::MAX)
                    &&& e == LayoutError::MalformedGraphDescription
                },
            }
        }),
{
    let ghost t = text@.subrange(lo as int, hi as int);
    if lo == hi {
        return Err(LayoutError::MalformedGraphDescription);
    }
    let mut value: usize = 0;
    let mut i: usize = lo;
    while i < hi
        invariant
            lo <= i <= hi <= text@.len(),
            t == text@.subrange(lo as int, hi as int),
            hi > lo,
            all_digits(t.take(i - lo)) || i == lo,
            value == digits_value(t.take(i - lo)),
            value < usize::MAX,
        decreases hi - i,
    {
        let c = text.get_char(i);
        proof {
            assert(t[i - lo] == text@[i as int]);
            assert(t.take(i - lo + 1).drop_last() == t.take(i - lo));
            assert(t.take(i - lo + 1).last() == t[i - lo]);
        }
        let code = c as u32;
        if code < 48 || code > 57 {
            proof {
                assert(!is_digit_char(t[i - lo]));
                assert(!all_digits(t));
            }
            return Err(LayoutError::MalformedGraphDescription);
        }
        let d = (code - 48) as usize;
        if value > (usize::MAX - 1 - d) / 10 {
            proof {
                assert(value * 10 + d > usize::MAX - 1) by (nonlinear_arith)
                    requires
                        value > (usize::MAX - 1 - d) / 10,
                        d <= 9,
                ;
                assert(digits_value(t.take(i - lo + 1)) >= usize::MAX);
                lemma_digits_value_take_le(t, i - lo + 1);
            }
            return Err(LayoutError::MalformedGraphDescription);
        }
        proof {
            assert(value * 10 + d <= usize::MAX - 1) by (nonlinear_arith)
                requires
                    value <= (usize::MAX - 1 - d) / 10,
                    d <= 9,
            ;
        }
        value = value * 10 + d;
        i = i + 1;
    }
    proof {
        assert(t.take(hi - lo) == t);
    }
    Ok(value)
}

/// Read one `digits-digits` token of `text` in `[lo, hi)`.
fn parse_token_range(text: &str, lo: usize, hi: usize) -> (r: Result<Edge, LayoutError>)
    requires
        lo <= hi <= text@.len(),
    ensures
        ({
            let t = text@.subrange(lo as int, hi as int);
            match r {
                Ok(e) => parse_token(t) == Some(e),
                Err(e) => parse_token(t) is None && e == LayoutError::MalformedGraphDescription,
            }
        }),
{
    let ghost t = text@.subrange(lo as int, hi as int);
    let dash = find_in_range(text, lo, hi, '-');
    proof {
        assert(forall|k: int| 0 <= k < t.len() ==> t[k] == text@[lo + k]);
        lemma_find_char_agrees(t, '-', dash - lo, hi - lo);
    }
    if dash == hi {
        return Err(LayoutError::MalformedGraphDescription);
    }
    proof {
        assert(t.subrange(0, dash - lo) =~= text@.subrange(lo as int, dash as int));
        assert(t.subrange(dash - lo + 1, t.len() as int) =~= text@.subrange(
            dash + 1,
            hi as int,
        ));
    }
    let source = match parse_number_range(text, lo, dash) {
        Ok(v) => v,
        Err(e) => {
            return Err(e);
        },
    };
    let target = match parse_number_range(text, dash + 1, hi) {
        Ok(v) => v,
        Err(e) => {
            return Err(e);
        },
    };
    Ok(Edge { source, target })
}

/// Read the wire text into its edge list.
///
/// Succeeds exactly when the text is empty or a comma-separated list
/// of `digits-digits` tokens whose endpoints fit the machine; any
/// other text is a malformed graph description.
pub fn parse_edges(text: &str) -> (r: Result<Vec<Edge>, LayoutError>)
    ensures
        match r {
            Ok(v) => parse_graph_text(text@) == Some(v@),
            Err(e) => {
                &&& parse_graph_text(text@) is None
                &&& e == LayoutError::MalformedGraphDescription
            },
        },
{
    let n = text.unicode_len();
    let mut edges: Vec<Edge> = Vec::new();
    if n == 0 {
        proof {
            assert(edges@ =~= Seq::<Edge>::empty());
        }
        return Ok(edges);
    }
    let mut start: usize = 0;
    proof {
        assert(text@.subrange(0, n as int) =~= text@);
        match parse_edge_list(text@) {
            Some(rest) => {
                assert(edges@ + rest =~= rest);
            },
            None => {},
        }
    }
    loop
        invariant
            start <= n == text@.len(),
            ({
                let tail = parse_edge_list(text@.subrange(start as int, n as int));
                &&& (parse_edge_list(text@) == match tail {
                    Some(rest) => Some(edges@ + rest),
                    None => None::<Seq<Edge>>,
                })
            }),
            n > 0,
        decreases n - start,
    {
        let ghost suffix = text@.subrange(start as int, n as int);
        let comma = find_in_range(text, start, n, ',');
        proof {
            assert(forall|k: int| 0 <= k < suffix.len() ==> suffix[k] == text@[start + k]);
            lemma_find_char_agrees(suffix, ',', comma - start, n - start);
        }
        if comma == n {
            // last token: the rest of the text
            proof {
                assert(suffix.subrange(0, suffix.len() as int) =~= suffix);
                assert(suffix =~= text@.subrange(start as int, n as int));
            }
            let e = match parse_token_range(text, start, n) {
                Ok(e) => e,
                Err(err) => {
                    return Err(err);
                },
            };
            edges.push(e);
            proof {
                assert(parse_edge_list(suffix) == Some(seq![e]));
                assert(edges@.drop_last() + seq![e] =~= edges@);
                assert(edges@.drop_last() + seq![e] + Seq::<Edge>::empty() =~= edges@);
            }
            return Ok(edges);
        }
        proof {
            assert(suffix.subrange(0, comma - start) =~= text@.subrange(
                start as int,
                comma as int,
            ));
            assert(suffix.subrange(comma - start + 1, suffix.len() as int) =~= text@.subrange(
                comma + 1,
                n as int,
            ));
        }
        let e = match parse_token_range(text, start, comma) {
            Ok(e) => e,
            Err(err) => {
                return Err(err);
            },
        };
        let ghost old_edges = edges@;
        edges.push(e);
        proof {
            assert(edges@ =~= old_edges + seq![e]);
            let tail2 = parse_edge_list(text@.subrange(comma + 1, n as int));
            match tail2 {
                Some(rest) => {
                    assert(old_edges + (seq![e] + rest) =~= edges@ + rest);
                },
                None => {},
            }
        }
        start = comma + 1;
    }
}

// ---------------------------------------------------------------------------
// Rendering
// ---------------------------------------------------------------------------

/// The digit character for a value below ten.
pub open spec fn digit_char_of(d: nat) -> char {
    if d == 0 {
        '0'
    } else if d == 1 {
        '1'
    } else if d == 2 {
        '2'
    } else if d == 3 {
        '3'
    } else if d == 4 {
        '4'
    } else if d == 5 {
        '5'
    } else if d == 6 {
        '6'
    } else if d == 7 {
        '7'
    } else if d == 8 {
        '8'
    } else {
        '9'
    }
}

/// The decimal digits of `n`, most significant first.
pub open spec fn dec_chars(n: nat) -> Seq<char>
    decreases n,
{
    if n < 10 {
        seq![digit_char_of(n)]
    } else {
        dec_chars(n / 10).push(digit_char_of(n % 10))
    }
}

/// The digits of `f` zero-padded on the left to width `w`.
pub open spec fn padded_chars(f: nat, w: nat) -> Seq<char>
    decreases w,
{
    if w == 0 {
        Seq::empty()
    } else {
        padded_chars(f / 10, (w - 1) as nat).push(digit_char_of(f % 10))
    }
}

/// The fractional digits of `f` at width `w`, trailing zeros removed.
pub open spec fn frac_chars(f: nat, w: nat) -> Seq<char>
    decreases w,
{
    if w == 0 {
        Seq::empty()
    } else if f % 10 == 0 {
        frac_chars(f / 10, (w - 1) as nat)
    } else {
        padded_chars(f, w)
    }
}

/// How a micro-unit coordinate prints: the whole canvas units, then
/// the fractional part (six digits, trailing zeros removed) when it
/// is not zero.
pub open spec fn coord_chars(v: int) -> Seq<char> {
    let whole = (v / 1_000_000) as nat;
    let frac = (v % 1_000_000) as nat;
    if frac == 0 {
        dec_chars(whole)
    } else {
        dec_chars(whole) + seq!['.'] + frac_chars(frac, 6)
    }
}

/// How one vertex prints in the rich form: `x,y;`.
pub open spec fn vertex_chars(v: Vertex) -> Seq<char> {
    coord_chars(v.x as int) + seq![','] + coord_chars(v.y as int) + seq![';']
}

/// How a vertex list prints in the rich form.
pub open spec fn nodes_chars(vs: Seq<Vertex>) -> Seq<char>
    decreases vs.len(),
{
    if vs.len() == 0 {
        Seq::empty()
    } else {
        nodes_chars(vs.drop_last()) + vertex_chars(vs.last())
    }
}

/// How one edge prints: `source-target`.
pub open spec fn edge_chars(e: Edge) -> Seq<char> {
    dec_chars(e.source as nat) + seq!['-'] + dec_chars(e.target as nat)
}

/// How an edge list prints, a comma after every edge.
pub open spec fn edges_chars(es: Seq<Edge>) -> Seq<char>
    decreases es.len(),
{
    if es.len() == 0 {
        Seq::empty()
    } else {
        edges_chars(es.drop_last()) + edge_chars(es.last()) + seq![',']
    }
}

/// The minimal output form: edges only, no trailing comma.
pub open spec fn minimal_chars(es: Seq<Edge>) -> Seq<char>
    decreases es.len(),
{
    if es.len() == 0 {
        Seq::empty()
    } else if es.len() == 1 {
        edge_chars(es.last())
    } else {
        minimal_chars(es.drop_last()) + seq![','] + edge_chars(es.last())
    }
}

/// The rich output form: `nodes: ` then every vertex, `edges: ` then
/// every edge.
pub open spec fn rich_chars_of(vs: Seq<Vertex>, es: Seq<Edge>) -> Seq<char> {
    seq!['n', 'o', 'd', 'e', 's', ':', ' '] + nodes_chars(vs) + seq![
        'e',
        'd',
        'g',
        'e',
        's',
        ':',
        ' ',
    ] + edges_chars(es)
}

/// The rich output form of a graph.
pub open spec fn rich_chars(g: Graph) -> Seq<char> {
    rich_chars_of(g.vertices@, g.edges@)
}

// ---------------------------------------------------------------------------
// The codec round trip
// ---------------------------------------------------------------------------

/// A rendered number is a digit run denoting the same value.
proof fn lemma_dec_chars_value(n: nat)
    ensures
        all_digits(dec_chars(n)),
        digits_value(dec_chars(n)) == n,
        dec_chars(n).len() >= 1,
    decreases n,
{
    if n < 10 {
        let s = dec_chars(n);
        assert(s.drop_last() =~= Seq::<char>::empty());
        assert(s.last() == digit_char_of(n));
        assert(digits_value(Seq::<char>::empty()) == 0);
        assert(digits_value(s) == digit_value(digit_char_of(n)));
    } else {
        lemma_dec_chars_value(n / 10);
        let s = dec_chars(n / 10);
        let c = digit_char_of(n % 10);
        assert(dec_chars(n) == s.push(c));
        assert(s.push(c).drop_last() =~= s);
        assert(s.push(c).last() == c);
        vstd::arithmetic::div_mod::lemma_fundamental_div_mod(n as int, 10);
        assert forall|i: int| 0 <= i < s.push(c).len() implies is_digit_char(
            #[trigger] s.push(c)[i],
        ) by {
            if i < s.len() {
                assert(s.push(c)[i] == s[i]);
            }
        }
    }
}

/// A rendered edge token parses back to the same edge and holds no
/// comma.
proof fn lemma_edge_chars_token(e: Edge)
    requires
        e.source < usize::MAX,
        e.target < usize::MAX,
    ensures
        parse_token(edge_chars(e)) == Some(e),
        forall|i: int| 0 <= i < edge_chars(e).len() ==> #[trigger] edge_chars(e)[i] != ',',
        edge_chars(e).len() >= 3,
{
    let a = dec_chars(e.source as nat);
    let b = dec_chars(e.target as nat);
    lemma_dec_chars_value(e.source as nat);
    lemma_dec_chars_value(e.target as nat);
    let t = edge_chars(e);
    let p = a.len() as int;
    assert(t[p] == '-');
    assert forall|i: int| 0 <= i < t.len() implies #[trigger] t[i] != ',' by {
        if i < p {
            assert(t[i] == a[i]);
            assert(is_digit_char(a[i]));
        } else if i > p {
            assert(t[i] == b[i - p - 1]);
            assert(is_digit_char(b[i - p - 1]));
        }
    }
    assert forall|k: int| 0 <= k < p implies t[k] != '-' by {
        assert(t[k] == a[k]);
        assert(is_digit_char(a[k]));
    }
    lemma_find_char_agrees(t, '-', p, t.len() as int);
    assert(t.subrange(0, p) =~= a);
    assert(t.subrange(p + 1, t.len() as int) =~= b);
}

/// The minimal form can be peeled from the front as well.
proof fn lemma_minimal_chars_first(es: Seq<Edge>)
    requires
        es.len() >= 2,
    ensures
        minimal_chars(es) == edge_chars(es[0]) + seq![','] + minimal_chars(es.drop_first()),
    decreases es.len(),
{
    if es.len() == 2 {
        assert(es.drop_last().last() == es[0]);
        assert(es.drop_first().last() == es[1]);
        assert(minimal_chars(es.drop_last()) == edge_chars(es[0]));
        assert(minimal_chars(es.drop_first()) == edge_chars(es[1]));
        assert(minimal_chars(es) == minimal_chars(es.drop_last()) + seq![','] + edge_chars(
            es.last(),
        ));
        assert(minimal_chars(es) =~= edge_chars(es[0]) + seq![','] + minimal_chars(
            es.drop_first(),
        ));
    } else {
        let dl = es.drop_last();
        lemma_minimal_chars_first(dl);
        assert(dl[0] == es[0]);
        assert(dl.drop_first() =~= es.drop_first().drop_last());
        assert(es.drop_first().last() == es.last());
        assert(minimal_chars(es) == minimal_chars(dl) + seq![','] + edge_chars(es.last()));
        assert(minimal_chars(es.drop_first()) == minimal_chars(es.drop_first().drop_last())
            + seq![','] + edge_chars(es.drop_first().last()));
        assert(minimal_chars(es) =~= edge_chars(es[0]) + seq![','] + minimal_chars(
            es.drop_first(),
        ));
    }
}

/// The codec round trip: rendering an edge list in the minimal form
/// and parsing the text back yields exactly the same edge list, in
/// order.  Rendering the rich form carries the same edge section, so
/// no layout call can drop, reorder or alter an edge.
pub proof fn lemma_render_parse_round_trip(es: Seq<Edge>)
    requires
        forall|k: int|
            0 <= k < es.len() ==> (#[trigger] es[k]).source < usize::MAX && es[k].target
                < usize::MAX,
    ensures
        parse_graph_text(minimal_chars(es)) == Some(es),
    decreases es.len(),
{
    if es.len() == 0 {
        assert(minimal_chars(es) =~= Seq::<char>::empty());
        assert(es =~= Seq::<Edge>::empty());
    } else if es.len() == 1 {
        assert(es.last() == es[0]);
        lemma_edge_chars_token(es[0]);
        let s = minimal_chars(es);
        assert(s == edge_chars(es[0]));
        lemma_find_char_agrees(s, ',', s.len() as int, s.len() as int);
        assert(seq![es[0]] =~= es);
    } else {
        lemma_minimal_chars_first(es);
        lemma_edge_chars_token(es[0]);
        let tail = es.drop_first();
        assert forall|k: int|
            0 <= k < tail.len() implies (#[trigger] tail[k]).source < usize::MAX && tail[k].target
            < usize::MAX by {
            assert(tail[k] == es[k + 1]);
        }
        lemma_render_parse_round_trip(tail);
        let s = minimal_chars(es);
        let t0 = edge_chars(es[0]);
        let rest = minimal_chars(tail);
        let p = t0.len() as int;
        assert(s[p] == ',');
        assert forall|k: int| 0 <= k < p implies s[k] != ',' by {
            assert(s[k] == t0[k]);
        }
        lemma_find_char_agrees(s, ',', p, s.len() as int);
        assert(s.subrange(0, p) =~= t0);
        assert(s.subrange(p + 1, s.len() as int) =~= rest);
        assert(rest.len() > 0) by {
            if tail.len() == 1 {
                lemma_edge_chars_token(tail[0]);
                assert(tail.last() == tail[0]);
            } else {
                lemma_minimal_chars_first(tail);
                lemma_edge_chars_token(tail[0]);
            }
        }
        assert(seq![es[0]] + tail =~= es);
    }
}

/// Relies on String::push: appends exactly the one character.
#[verifier::external_body]
fn push_char(out: &mut String, c: char)
    ensures
        final(out)@ == old(out)@.push(c),
{
    out.push(c);
}

/// Append the digit character for `d`.
fn push_digit(out: &mut String, d: u64)
    requires
        d < 10,
    ensures
        final(out)@ == old(out)@.push(digit_char_of(d as nat)),
{
    let c = match d {
        0 => '0',
        1 => '1',
        2 => '2',
        3 => '3',
        4 => '4',
        5 => '5',
        6 => '6',
        7 => '7',
        8 => '8',
        _ => '9',
    };
    push_char(out, c);
}

/// Append the decimal digits of `n`.
fn push_decimal(out: &mut String, n: u64)
    ensures
        final(out)@ == old(out)@ + dec_chars(n as nat),
    decreases n,
{
    if n >= 10 {
        push_decimal(out, n / 10);
    }
    push_digit(out, n % 10);
    proof {
        if n < 10 {
            assert(old(out)@ + dec_chars(n as nat) =~= old(out)@.push(digit_char_of(n as nat)));
        } else {
            assert(old(out)@ + dec_chars(n as nat) =~= (old(out)@ + dec_chars(
                n as nat / 10,
            )).push(digit_char_of(n as nat % 10)));
        }
    }
}

/// Append the digits of `f` zero-padded to width `w`.
fn push_padded(out: &mut String, f: u64, w: u64)
    ensures
        final(out)@ == old(out)@ + padded_chars(f as nat, w as nat),
    decreases w,
{
    if w == 0 {
        proof {
            assert(old(out)@ + padded_chars(f as nat, 0) =~= old(out)@);
        }
        return;
    }
    push_padded(out, f / 10, w - 1);
    push_digit(out, f % 10);
    proof {
        assert(old(out)@ + padded_chars(f as nat, w as nat) =~= (old(out)@ + padded_chars(
            f as nat / 10,
            (w - 1) as nat,
        )).push(digit_char_of(f as nat % 10)));
    }
}

/// Append the fractional digits of `f` at width `w`, trailing zeros
/// removed.
fn push_frac(out: &mut String, f: u64, w: u64)
    ensures
        final(out)@ == old(out)@ + frac_chars(f as nat, w as nat),
    decreases w,
{
    if w == 0 {
        proof {
            assert(old(out)@ + frac_chars(f as nat, 0) =~= old(out)@);
        }
        return;
    }
    if f % 10 == 0 {
        push_frac(out, f / 10, w - 1);
    } else {
        push_padded(out, f, w);
    }
}

/// Append a micro-unit coordinate in its printed form.
fn push_coord(out: &mut String, v: i64)
    requires
        0 <= v <= COORD_MAX,
    ensures
        final(out)@ == old(out)@ + coord_chars(v as int),
{
    let u = v as u64;
    let whole = u / 1_000_000;
    let frac = u % 1_000_000;
    push_decimal(out, whole);
    if frac != 0 {
        push_char(out, '.');
        push_frac(out, frac, 6);
        proof {
            assert(old(out)@ + coord_chars(v as int) =~= (old(out)@ + dec_chars(
                whole as nat,
            )).push('.') + frac_chars(frac as nat, 6));
        }
    } else {
        proof {
            assert(old(out)@ + coord_chars(v as int) =~= old(out)@ + dec_chars(whole as nat));
        }
    }
}

/// Append one edge as `source-target`.
fn push_edge(out: &mut String, e: &Edge)
    requires
        e.source < usize::MAX,
        e.target < usize::MAX,
    ensures
        final(out)@ == old(out)@ + edge_chars(*e),
{
    push_decimal(out, e.source as u64);
    push_char(out, '-');
    push_decimal(out, e.target as u64);
    proof {
        assert(old(out)@ + edge_chars(*e) =~= (old(out)@ + dec_chars(
            e.source as nat,
        )).push('-') + dec_chars(e.target as nat));
    }
}

/// The output forms the engine can render.
#[derive(Clone, Copy, PartialEq, Eq, Structural, Debug)]
pub enum OutputMode {
    /// `nodes: x1,y1;...;edges: s1-t1,...,` — the canonical form.
    Rich,
    /// `s1-t1,s2-t2` — the edges alone, for the earliest callers.
    Minimal,
}

/// Render a graph in the rich canonical form.
pub fn graph_to_string(g: &Graph) -> (r: String)
    requires
        g.wf(),
        forall|k: int|
            0 <= k < g.edges@.len() ==> (#[trigger] g.edges@[k]).source < usize::MAX
                && g.edges@[k].target < usize::MAX,
    ensures
        r@ == rich_chars(*g),
{
    let mut out = String::new();
    push_char(&mut out, 'n');
    push_char(&mut out, 'o');
    push_char(&mut out, 'd');
    push_char(&mut out, 'e');
    push_char(&mut out, 's');
    push_char(&mut out, ':');
    push_char(&mut out, ' ');
    proof {
        assert(out@ =~= seq!['n', 'o', 'd', 'e', 's', ':', ' ']);
    }
    let ghost header = out@;
    let mut i: usize = 0;
    while i < g.vertices.len()
        invariant
            i <= g.vertices@.len(),
            g.wf(),
            out@ == header + nodes_chars(g.vertices@.take(i as int)),
            header == seq!['n', 'o', 'd', 'e', 's', ':', ' '],
        decreases g.vertices@.len() - i,
    {
        let v = g.vertices[i];
        proof {
            assert(crate::graph::in_canvas(g.vertices@[i as int]));
            assert(g.vertices@.take(i + 1).drop_last() == g.vertices@.take(i as int));
            assert(g.vertices@.take(i + 1).last() == g.vertices@[i as int]);
        }
        push_coord(&mut out, v.x);
        push_char(&mut out, ',');
        push_coord(&mut out, v.y);
        push_char(&mut out, ';');
        proof {
            assert(out@ =~= header + nodes_chars(g.vertices@.take(i + 1)));
        }
        i = i + 1;
    }
    proof {
        assert(g.vertices@.take(g.vertices@.len() as int) == g.vertices@);
    }
    push_char(&mut out, 'e');
    push_char(&mut out, 'd');
    push_char(&mut out, 'g');
    push_char(&mut out, 'e');
    push_char(&mut out, 's');
    push_char(&mut out, ':');
    push_char(&mut out, ' ');
    let ghost header2 = out@;
    proof {
        assert(header2 =~= header + nodes_chars(g.vertices@) + seq![
            'e',
            'd',
            'g',
            'e',
            's',
            ':',
            ' ',
        ]);
    }
    let mut k: usize = 0;
    while k < g.edges.len()
        invariant
            k <= g.edges@.len(),
            forall|j: int|
                0 <= j < g.edges@.len() ==> (#[trigger] g.edges@[j]).source < usize::MAX
                    && g.edges@[j].target < usize::MAX,
            out@ == header2 + edges_chars(g.edges@.take(k as int)),
        decreases g.edges@.len() - k,
    {
        let e = g.edges[k];
        proof {
            assert(g.edges@.take(k + 1).drop_last() == g.edges@.take(k as int));
            assert(g.edges@.take(k + 1).last() == g.edges@[k as int]);
        }
        push_edge(&mut out, &e);
        push_char(&mut out, ',');
        proof {
            assert(out@ =~= header2 + edges_chars(g.edges@.take(k + 1)));
        }
        k = k + 1;
    }
    proof {
        assert(g.edges@.take(g.edges@.len() as int) == g.edges@);
        assert(out@ =~= rich_chars(*g));
    }
    out
}

/// Render the edge list alone, commas between edges.
pub fn edges_to_string(g: &Graph) -> (r: String)
    requires
        forall|k: int|
            0 <= k < g.edges@.len() ==> (#[trigger] g.edges@[k]).source < usize::MAX
                && g.edges@[k].target < usize::MAX,
    ensures
        r@ == minimal_chars(g.edges@),
{
    let mut out = String::new();
    let mut k: usize = 0;
    while k < g.edges.len()
        invariant
            k <= g.edges@.len(),
            forall|j: int|
                0 <= j < g.edges@.len() ==> (#[trigger] g.edges@[j]).source < usize::MAX
                    && g.edges@[j].target < usize::MAX,
            out@ == minimal_chars(g.edges@.take(k as int)),
        decreases g.edges@.len() - k,
    {
        let e = g.edges[k];
        proof {
            assert(g.edges@.take(k + 1).drop_last() == g.edges@.take(k as int));
            assert(g.edges@.take(k + 1).last() == g.edges@[k as int]);
        }
        if k > 0 {
            push_char(&mut out, ',');
        }
        push_edge(&mut out, &e);
        proof {
            if k == 0 {
                assert(out@ =~= minimal_chars(g.edges@.take(1)));
            } else {
                assert(out@ =~= minimal_chars(g.edges@.take(k + 1)));
            }
        }
        k = k + 1;
    }
    proof {
        assert(g.edges@.take(g.edges@.len() as int) == g.edges@);
        assert(out@ =~= minimal_chars(g.edges@));
    }
    out
}

/// Render a graph in the named output mode.
pub fn render(g: &Graph, mode: OutputMode) -> (r: String)
    requires
        g.wf(),
        forall|k: int|
            0 <= k < g.edges@.len() ==> (#[trigger] g.edges@[k]).source < usize::MAX
                && g.edges@[k].target < usize::MAX,
    ensures
        mode is Rich ==> r@ == rich_chars(*g),
        mode is Minimal ==> r@ == minimal_chars(g.edges@),
{
    match mode {
        OutputMode::Rich => graph_to_string(g),
        OutputMode::Minimal => edges_to_string(g),
    }
}

} // verus!
