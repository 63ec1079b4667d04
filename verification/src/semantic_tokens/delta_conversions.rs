//! Delta encoding of absolute tokens into protocol-relative offsets.
//!
//! The tokenizer emits tokens in document-traversal order, which nesting can
//! interleave, so the encoder first sorts them into descending (line, column)
//! order.  Each token's offsets are then taken relative to the next lower
//! token: the line delta always, the column delta only while the line did not
//! change — on a new line the column re-bases to the 0-based protocol origin.
//! The deepest token re-bases both offsets.  Reversing the result restores
//! ascending order.

use vstd::prelude::*;
use vstd::seq_lib::lemma_multiset_commutative;
use vstd::seq_lib::to_multiset_build;

use crate::semantic_tokens::AbsoluteToken;
use crate::semantic_tokens::SemanticToken;
use crate::semantic_tokens::all_tokens_wf;
use crate::semantic_tokens::token_wf;

verus! {

/// `a` may stand before `b` in descending (line, column) order.
pub open spec fn desc_ordered(a: AbsoluteToken, b: AbsoluteToken) -> bool {
    a.line > b.line || (a.line == b.line && a.start >= b.start)
}

/// The sequence is in descending (line, column) order.
pub open spec fn sorted_desc(s: Seq<AbsoluteToken>) -> bool {
    forall|i: int, j: int| 0 <= i < j < s.len() ==> desc_ordered(#[trigger] s[i], #[trigger] s[j])
}

/// Insert `t` into the descending-sorted `s`, behind every token that may
/// stand before it; tokens at the same position keep their arrival order, so
/// the sort is stable and the tie-break deterministic.
pub open spec fn insert_desc(s: Seq<AbsoluteToken>, t: AbsoluteToken) -> Seq<AbsoluteToken>
    decreases s.len(),
{
    if s.len() == 0 {
        seq![t]
    } else if desc_ordered(s[0], t) {
        seq![s[0]] + insert_desc(s.drop_first(), t)
    } else {
        seq![t] + s
    }
}

/// Stable insertion sort into descending (line, column) order.
pub open spec fn sort_desc(s: Seq<AbsoluteToken>) -> Seq<AbsoluteToken>
    decreases s.len(),
{
    if s.len() == 0 {
        Seq::empty()
    } else {
        insert_desc(sort_desc(s.drop_last()), s.last())
    }
}

proof fn lemma_insert_desc_props(s: Seq<AbsoluteToken>, t: AbsoluteToken)
    ensures
        insert_desc(s, t).len() == s.len() + 1,
        insert_desc(s, t).to_multiset() == s.push(t).to_multiset(),
        forall|x: AbsoluteToken| insert_desc(s, t).contains(x) ==> s.contains(x) || x == t,
        sorted_desc(s) ==> sorted_desc(insert_desc(s, t)),
        all_tokens_wf(s) && token_wf(t) ==> all_tokens_wf(insert_desc(s, t)),
    decreases s.len(),
{
    let r = insert_desc(s, t);
    if s.len() == 0 {
        assert(s.push(t) =~= seq![t]);
        assert(forall|x: AbsoluteToken| r.contains(x) ==> x == t) by {
            assert(forall|i: int| 0 <= i < r.len() ==> r[i] == t);
        }
    } else if desc_ordered(s[0], t) {
        let rest = s.drop_first();
        lemma_insert_desc_props(rest, t);
        let ins = insert_desc(rest, t);
        assert(r == seq![s[0]] + ins);

        // Multiset: distribute the concatenations on both sides.
        lemma_multiset_commutative(seq![s[0]], ins);
        lemma_multiset_commutative(seq![s[0]], rest.push(t));
        assert(s.push(t) =~= seq![s[0]] + rest.push(t));
        assert(r.to_multiset() =~= s.push(t).to_multiset());

        // Containment.
        assert forall|x: AbsoluteToken| r.contains(x) implies s.contains(x) || x == t by {
            let i = choose|i: int| 0 <= i < r.len() && r[i] == x;
            if i == 0 {
                assert(s[0] == x);
            } else {
                assert(ins[i - 1] == x);
                assert(ins.contains(x));
                if rest.contains(x) {
                    let k = choose|k: int| 0 <= k < rest.len() && rest[k] == x;
                    assert(s[k + 1] == x);
                }
            }
        }

        // Sortedness.
        if sorted_desc(s) {
            assert(sorted_desc(rest)) by {
                assert(forall|i: int, j: int|
                    0 <= i < j < rest.len() ==> desc_ordered(#[trigger] rest[i], #[trigger] rest[j]))
                    by {
                    assert(forall|i: int| 0 <= i < rest.len() ==> rest[i] == s[i + 1]);
                }
            }
            assert forall|i: int, j: int| 0 <= i < j < r.len() implies desc_ordered(
                #[trigger] r[i],
                #[trigger] r[j],
            ) by {
                if i == 0 {
                    assert(r[j] == ins[j - 1]);
                    assert(ins.contains(ins[j - 1]));
                    if rest.contains(r[j]) {
                        let k = choose|k: int| 0 <= k < rest.len() && rest[k] == r[j];
                        assert(desc_ordered(s[0], s[k + 1]));
                    }
                } else {
                    assert(r[i] == ins[i - 1] && r[j] == ins[j - 1]);
                }
            }
        }

        // Well-formedness.
        if all_tokens_wf(s) && token_wf(t) {
            assert(all_tokens_wf(rest)) by {
                assert(forall|i: int| 0 <= i < rest.len() ==> rest[i] == s[i + 1]);
            }
            assert forall|i: int| 0 <= i < r.len() implies token_wf(#[trigger] r[i]) by {
                if i > 0 {
                    assert(r[i] == ins[i - 1]);
                }
            }
        }
    } else {
        assert(r == seq![t] + s);
        assert(s.push(t).to_multiset() =~= r.to_multiset()) by {
            to_multiset_build(s, t);
            lemma_multiset_commutative(seq![t], s);
            lemma_multiset_commutative(s, seq![t]);
            assert(s.push(t) =~= s + seq![t]);
        }
        assert forall|x: AbsoluteToken| r.contains(x) implies s.contains(x) || x == t by {
            let i = choose|i: int| 0 <= i < r.len() && r[i] == x;
            if i > 0 {
                assert(s[i - 1] == x);
            }
        }
        if sorted_desc(s) {
            assert forall|i: int, j: int| 0 <= i < j < r.len() implies desc_ordered(
                #[trigger] r[i],
                #[trigger] r[j],
            ) by {
                if i == 0 {
                    if j > 1 {
                        assert(desc_ordered(s[0], s[j - 1]));
                    }
                } else {
                    assert(r[i] == s[i - 1] && r[j] == s[j - 1]);
                }
            }
        }
        if all_tokens_wf(s) && token_wf(t) {
            assert forall|i: int| 0 <= i < r.len() implies token_wf(#[trigger] r[i]) by {
                if i > 0 {
                    assert(r[i] == s[i - 1]);
                }
            }
        }
    }
}

/// Sorting tokens keeps exactly the given tokens (as a multiset), orders them
/// descending by (line, column), and preserves position validity.
pub proof fn lemma_sort_desc_props(s: Seq<AbsoluteToken>)
    ensures
        sort_desc(s).len() == s.len(),
        sort_desc(s).to_multiset() == s.to_multiset(),
        sorted_desc(sort_desc(s)),
        all_tokens_wf(s) ==> all_tokens_wf(sort_desc(s)),
    decreases s.len(),
{
    if s.len() == 0 {
        assert(s =~= Seq::<AbsoluteToken>::empty());
    } else {
        let dl = s.drop_last();
        lemma_sort_desc_props(dl);
        lemma_insert_desc_props(sort_desc(dl), s.last());
        to_multiset_build(sort_desc(dl), s.last());
        to_multiset_build(dl, s.last());
        assert(dl.push(s.last()) =~= s);
        assert(sort_desc(s) == insert_desc(sort_desc(dl), s.last()));
        assert(sort_desc(s).to_multiset() =~= s.to_multiset()) by {
            assert(sort_desc(s).to_multiset() =~= sort_desc(dl).push(s.last()).to_multiset());
            assert(sort_desc(dl).push(s.last()).to_multiset() =~= sort_desc(
                dl,
            ).to_multiset().insert(s.last()));
            assert(dl.push(s.last()).to_multiset() =~= dl.to_multiset().insert(s.last()));
        }
        if all_tokens_wf(s) {
            assert(all_tokens_wf(dl)) by {
                assert(forall|i: int| 0 <= i < dl.len() ==> dl[i] == s[i]);
            }
        }
    }
}

/// Offsets of `cur` relative to the next lower token `nxt`: the column delta
/// applies only within `nxt`'s line; on a fresh line it re-bases to the
/// 0-based protocol origin.
pub open spec fn rel_to_next(cur: AbsoluteToken, nxt: AbsoluteToken) -> SemanticToken {
    SemanticToken {
        delta_line: (cur.line - nxt.line) as u32,
        delta_start: if cur.line == nxt.line {
            (cur.start - nxt.start) as u32
        } else {
            (cur.start - 1) as u32
        },
        length: cur.length,
        token_type: cur.token_type,
        token_modifiers_bitset: cur.token_modifiers_bitset,
    }
}

/// The lowest token's offsets, re-based from 1-based source positions to the
/// protocol's 0-based origin.
pub open spec fn rebase(t: AbsoluteToken) -> SemanticToken {
    SemanticToken {
        delta_line: (t.line - 1) as u32,
        delta_start: (t.start - 1) as u32,
        length: t.length,
        token_type: t.token_type,
        token_modifiers_bitset: t.token_modifiers_bitset,
    }
}

/// Delta offsets over a descending-sorted sequence: each token relative to
/// its successor, the last token re-based.
pub open spec fn delta_pass(s: Seq<AbsoluteToken>) -> Seq<SemanticToken> {
    Seq::new(
        s.len(),
        |i: int|
            if i < s.len() - 1 {
                rel_to_next(s[i], s[i + 1])
            } else {
                rebase(s[i])
            },
    )
}

/// The complete encoding: sort descending, take deltas, reverse back to
/// ascending order.  This is a function of the token list alone, so encoding
/// the same list twice yields the same output.
pub open spec fn relative_of(s: Seq<AbsoluteToken>) -> Seq<SemanticToken> {
    delta_pass(sort_desc(s)).reverse()
}

/// An empty token list encodes to an empty stream.
pub proof fn lemma_relative_of_empty()
    ensures
        relative_of(Seq::<AbsoluteToken>::empty()) == Seq::<SemanticToken>::empty(),
{
    assert(relative_of(Seq::<AbsoluteToken>::empty()) =~= Seq::<SemanticToken>::empty());
}

/// Encoding depends on nothing but the token list: equal inputs give equal
/// outputs, so encoding the same list twice yields identical output.
pub proof fn lemma_encode_deterministic(a: Seq<AbsoluteToken>, b: Seq<AbsoluteToken>)
    requires
        a == b,
    ensures
        relative_of(a) == relative_of(b),
{
}

fn insert_token_sorted(v: &mut Vec<AbsoluteToken>, t: AbsoluteToken)
    ensures
        final(v)@ == insert_desc(old(v)@, t),
{
    let mut j: usize = 0;
    while j < v.len() && (v[j].line > t.line || (v[j].line == t.line && v[j].start >= t.start))
        invariant
            j <= v@.len(),
            v@ == old(v)@,
            forall|k: int| 0 <= k < j ==> desc_ordered(#[trigger] v@[k], t),
        decreases v@.len() - j,
    {
        j += 1;
    }
    proof {
        lemma_insert_desc_at(v@, t, j as int);
    }
    v.insert(j, t);
}

proof fn lemma_insert_desc_at(s: Seq<AbsoluteToken>, t: AbsoluteToken, j: int)
    requires
        0 <= j <= s.len(),
        forall|k: int| 0 <= k < j ==> desc_ordered(#[trigger] s[k], t),
        j < s.len() ==> !desc_ordered(s[j], t),
    ensures
        insert_desc(s, t) == s.insert(j, t),
    decreases s.len(),
{
    if s.len() == 0 {
        assert(insert_desc(s, t) =~= s.insert(0, t));
    } else if j == 0 {
        assert(insert_desc(s, t) =~= s.insert(0, t));
    } else {
        assert(desc_ordered(s[0], t));
        let rest = s.drop_first();
        assert(forall|k: int| 0 <= k < j - 1 ==> desc_ordered(#[trigger] rest[k], t)) by {
            assert(forall|k: int| 0 <= k < rest.len() ==> rest[k] == s[k + 1]);
        }
        assert(j - 1 < rest.len() ==> !desc_ordered(rest[j - 1], t));
        lemma_insert_desc_at(rest, t, j - 1);
        assert(seq![s[0]] + rest.insert(j - 1, t) =~= s.insert(j, t));
    }
}

fn sort_tokens(tokens: &Vec<AbsoluteToken>) -> (r: Vec<AbsoluteToken>)
    ensures
        r@ == sort_desc(tokens@),
{
    let mut r: Vec<AbsoluteToken> = Vec::new();
    let mut i: usize = 0;
    while i < tokens.len()
        invariant
            i <= tokens@.len(),
            r@ == sort_desc(tokens@.take(i as int)),
        decreases tokens@.len() - i,
    {
        insert_token_sorted(&mut r, tokens[i]);
        proof {
            let pre = tokens@.take(i as int);
            let post = tokens@.take(i + 1 as int);
            assert(post.drop_last() =~= pre);
            assert(post.last() == tokens@[i as int]);
        }
        i += 1;
    }
    proof {
        assert(tokens@.take(tokens@.len() as int) =~= tokens@);
    }
    r
}

/// Sorts the absolute tokens into descending (line, column) order and encodes
/// each one relative to the next lower token, re-basing the lowest to the
/// protocol's 0-based origin; the result is returned in ascending order.
/// Output length always equals input length.
pub fn make_relative(tokens: Vec<AbsoluteToken>) -> (r: Vec<SemanticToken>)
    requires
        all_tokens_wf(tokens@),
    ensures
        r@ == relative_of(tokens@),
        r@.len() == tokens@.len(),
{
    let sorted = sort_tokens(&tokens);
    proof {
        lemma_sort_desc_props(tokens@);
    }
    let n = sorted.len();
    let mut rel: Vec<SemanticToken> = Vec::new();
    let mut i: usize = 0;
    while i < n
        invariant
            i <= n,
            n == sorted@.len(),
            sorted_desc(sorted@),
            all_tokens_wf(sorted@),
            rel@ =~= delta_pass(sorted@).take(i as int),
        decreases n - i,
    {
        if i + 1 < n {
            let cur = sorted[i];
            let nxt = sorted[i + 1];
            proof {
                assert(desc_ordered(sorted@[i as int], sorted@[i + 1 as int]));
                assert(token_wf(sorted@[i as int]));
            }
            let delta_line = cur.line - nxt.line;
            let delta_start = if cur.line == nxt.line {
                cur.start - nxt.start
            } else {
                cur.start - 1
            };
            rel.push(
                SemanticToken {
                    delta_line,
                    delta_start,
                    length: cur.length,
                    token_type: cur.token_type,
                    token_modifiers_bitset: cur.token_modifiers_bitset,
                },
            );
        } else {
            let cur = sorted[i];
            proof {
                assert(token_wf(sorted@[i as int]));
            }
            rel.push(
                SemanticToken {
                    delta_line: cur.line - 1,
                    delta_start: cur.start - 1,
                    length: cur.length,
                    token_type: cur.token_type,
                    token_modifiers_bitset: cur.token_modifiers_bitset,
                },
            );
        }
        i += 1;
    }
    proof {
        assert(rel@ =~= delta_pass(sorted@));
    }
    let mut r: Vec<SemanticToken> = Vec::new();
    let mut k: usize = n;
    while k > 0
        invariant
            k <= n,
            n == rel@.len(),
            r@.len() == n - k,
            forall|m: int| 0 <= m < r@.len() ==> r@[m] == rel@[n - 1 - m],
        decreases k,
    {
        k -= 1;
        r.push(rel[k]);
    }
    proof {
        assert(r@ =~= rel@.reverse());
    }
    r
}

/// Reconstruction of absolute positions from an ascending delta-encoded
/// stream, starting from position (`line`, `col`): a token's line advances by
/// its line delta; its column advances by the column delta while the line did
/// not change and otherwise restarts at one past the 0-based column delta.
pub open spec fn decode_from(r: Seq<SemanticToken>, line: u32, col: u32) -> Seq<AbsoluteToken>
    decreases r.len(),
{
    if r.len() == 0 {
        Seq::empty()
    } else {
        let l = (line + r[0].delta_line) as u32;
        let c = if r[0].delta_line == 0 {
            (col + r[0].delta_start) as u32
        } else {
            (r[0].delta_start + 1) as u32
        };
        seq![
            AbsoluteToken {
                line: l,
                start: c,
                length: r[0].length,
                token_type: r[0].token_type,
                token_modifiers_bitset: r[0].token_modifiers_bitset,
            },
        ] + decode_from(r.drop_first(), l, c)
    }
}

/// Decoding of a full stream starts from the 1-based source origin.
pub open spec fn decode(r: Seq<SemanticToken>) -> Seq<AbsoluteToken> {
    decode_from(r, 1, 1)
}

proof fn lemma_decode_suffix(d: Seq<AbsoluteToken>, j: int)
    requires
        sorted_desc(d),
        all_tokens_wf(d),
        1 <= j <= d.len(),
    ensures
        decode_from(
            delta_pass(d).reverse().skip(j),
            d[d.len() - j].line,
            d[d.len() - j].start,
        ) == d.reverse().skip(j),
    decreases d.len() - j,
{
    let n = d.len() as int;
    let e = delta_pass(d).reverse();
    let a = d.reverse();
    if j == n {
        assert(e.skip(j) =~= Seq::<SemanticToken>::empty());
        assert(a.skip(j) =~= Seq::<AbsoluteToken>::empty());
    } else {
        let cur = d[n - 1 - j];
        let prev = d[n - j];
        assert(desc_ordered(cur, prev));
        assert(token_wf(cur) && token_wf(prev));
        assert(e.skip(j)[0] == e[j]);
        assert(e[j] == delta_pass(d)[n - 1 - j]);
        assert(delta_pass(d)[n - 1 - j] == rel_to_next(cur, prev));
        let tok = e.skip(j)[0];
        let l = (prev.line + tok.delta_line) as u32;
        let c = if tok.delta_line == 0 {
            (prev.start + tok.delta_start) as u32
        } else {
            (tok.delta_start + 1) as u32
        };
        assert(l == cur.line);
        assert(c == cur.start);
        assert(e.skip(j).drop_first() =~= e.skip(j + 1));
        lemma_decode_suffix(d, j + 1);
        assert(a[j] == cur);
        assert(decode_from(e.skip(j), prev.line, prev.start) =~= a.skip(j)) by {
            assert(decode_from(e.skip(j), prev.line, prev.start) == seq![
                AbsoluteToken {
                    line: l,
                    start: c,
                    length: tok.length,
                    token_type: tok.token_type,
                    token_modifiers_bitset: tok.token_modifiers_bitset,
                },
            ] + decode_from(e.skip(j + 1), l, c));
        }
    }
}

/// Decoding the delta pass of a descending-sorted token sequence restores
/// that sequence, in ascending order.
proof fn lemma_sorted_round_trip(d: Seq<AbsoluteToken>)
    requires
        sorted_desc(d),
        all_tokens_wf(d),
    ensures
        decode(delta_pass(d).reverse()) == d.reverse(),
{
    let n = d.len() as int;
    let e = delta_pass(d).reverse();
    let a = d.reverse();
    if n == 0 {
        assert(e =~= Seq::<SemanticToken>::empty());
        assert(decode(e) =~= a);
    } else {
        let low = d[n - 1];
        assert(token_wf(low));
        assert(e[0] == delta_pass(d)[n - 1]);
        assert(delta_pass(d)[n - 1] == rebase(low));
        let tok = e[0];
        let l = (1 + tok.delta_line) as u32;
        let c = if tok.delta_line == 0 {
            (1 + tok.delta_start) as u32
        } else {
            (tok.delta_start + 1) as u32
        };
        assert(l == low.line);
        assert(c == low.start);
        assert(e.drop_first() =~= e.skip(1));
        lemma_decode_suffix(d, 1);
        assert(a[0] == low);
        assert(decode_from(e, 1, 1) =~= a) by {
            assert(decode_from(e, 1, 1) == seq![
                AbsoluteToken {
                    line: l,
                    start: c,
                    length: tok.length,
                    token_type: tok.token_type,
                    token_modifiers_bitset: tok.token_modifiers_bitset,
                },
            ] + decode_from(e.skip(1), l, c));
        }
    }
}

/// Round-trip law: delta-decoding the encoded stream of any token list
/// reconstructs the original absolute positions — the decoded sequence is the
/// input sorted into ascending (line, column) order, and holds exactly the
/// input tokens as a multiset.
pub proof fn lemma_round_trip(s: Seq<AbsoluteToken>)
    requires
        all_tokens_wf(s),
    ensures
        decode(relative_of(s)) == sort_desc(s).reverse(),
        decode(relative_of(s)).to_multiset() == s.to_multiset(),
{
    lemma_sort_desc_props(s);
    lemma_sorted_round_trip(sort_desc(s));
    sort_desc(s).lemma_reverse_to_multiset();
}

/// Converts a 1-based source line number to the protocol's 0-based lines.
pub fn to_lsp_line_nr(line_nr: usize) -> (r: u32)
    requires
        1 <= line_nr <= u32::MAX as usize,
    ensures
        r == line_nr - 1,
{
    let nr = line_nr as u32;
    nr - 1
}

} // verus!
