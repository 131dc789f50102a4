//! What the balance table of a token list holds: every block opener points forward,
//! to its matching closer or to the end of the tokens, and matched pairs point at
//! each other.
use vstd::prelude::*;
use crate::tokenizer::token_stream::{
    balance_build, balance_fix, balance_fix_step, balance_pair, balance_table, block_kind,
    lemma_build_bounds, type_at,
};

verus! {

/// The open blocks (indices of their openers, outermost first) after `k` tokens.
pub open spec fn open_blocks(toks: Seq<(u8, int, int)>, len: int, k: int) -> Seq<int>
    decreases k,
{
    if k <= 0 {
        seq![]
    } else {
        let stk = open_blocks(toks, len, k - 1);
        let close = balance_build(toks, len, k - 1).2;
        let t = type_at(toks, k - 1);
        if t == close {
            stk.drop_last()
        } else if block_kind(t) == 1 {
            stk.push(k - 1)
        } else {
            stk
        }
    }
}

/// All token types are proper (1..=25).
pub open spec fn proper_types(toks: Seq<(u8, int, int)>) -> bool {
    forall|k: int| 0 <= k < toks.len() ==> 1 <= #[trigger] type_at(toks, k) <= 25
}

pub open spec fn stack_ok(toks: Seq<(u8, int, int)>, stk: Seq<int>, k: int) -> bool {
    &&& forall|m: int| 0 <= m < stk.len() ==> 0 <= #[trigger] stk[m] < k && block_kind(type_at(toks, stk[m])) == 1
    &&& forall|m1: int, m2: int| 0 <= m1 < m2 < stk.len() ==> #[trigger] stk[m1] < #[trigger] stk[m2]
}

pub open spec fn chain_ok(b: Seq<int>, stk: Seq<int>, len: int) -> bool {
    &&& forall|m: int| 0 < m < stk.len() ==> b[#[trigger] stk[m]] == stk[m - 1]
    &&& stk.len() > 0 ==> b[stk[0]] == len
}

/// What the entry of token `j` holds after `k` tokens: an opener is open or points
/// to its matching closer, which points back; any other token points back to the
/// opener it closes, or to the block that enclosed it (an open block, a block that
/// closed after it, or no block).
pub open spec fn entry_ok(toks: Seq<(u8, int, int)>, b: Seq<int>, stk: Seq<int>, len: int, k: int, j: int) -> bool {
    if block_kind(type_at(toks, j)) == 1 {
        stk.contains(j) || (j < b[j] < k && type_at(toks, b[j]) == balance_pair(type_at(toks, j)) && b[b[j]] == j)
    } else {
        ||| (0 <= b[j] < j && block_kind(type_at(toks, b[j])) == 1 && b[b[j]] == j
            && type_at(toks, j) == balance_pair(type_at(toks, b[j])))
        ||| b[j] == len
        ||| (0 <= b[j] < j && block_kind(type_at(toks, b[j])) == 1 && (stk.contains(b[j]) || b[b[j]] > j))
    }
}

pub open spec fn build_inv(toks: Seq<(u8, int, int)>, len: int, k: int) -> bool {
    let st = balance_build(toks, len, k);
    let b = st.0;
    let stk = open_blocks(toks, len, k);
    &&& st.1 == (if stk.len() > 0 { stk.last() } else { len })
    &&& st.2 == (if stk.len() > 0 { balance_pair(type_at(toks, stk.last())) } else { 0 })
    &&& stack_ok(toks, stk, k)
    &&& chain_ok(b, stk, len)
    &&& forall|j: int| 0 <= j < k ==> #[trigger] entry_ok(toks, b, stk, len, k, j)
}

proof fn lemma_pair_kinds(t: u8)
    ensures
        balance_pair(t) != 0 <==> block_kind(t) == 1,
        balance_pair(t) != 0 ==> block_kind(balance_pair(t)) == 2,
{
}

pub proof fn lemma_build_inv(toks: Seq<(u8, int, int)>, len: int, k: int)
    requires
        0 <= k <= toks.len() <= len,
        proper_types(toks),
    ensures
        build_inv(toks, len, k),
    decreases k,
{
    if k > 0 {
        lemma_build_inv(toks, len, k - 1);
        lemma_build_bounds(toks, len, k - 1);
        let st = balance_build(toks, len, k - 1);
        let b = st.0;
        let start = st.1;
        let close = st.2;
        let stk = open_blocks(toks, len, k - 1);
        let j = k - 1;
        let t = type_at(toks, j);
        assert(1 <= type_at(toks, j) <= 25);
        let b1 = b.update(j, start);
        let nb = balance_build(toks, len, k).0;
        let nstk = open_blocks(toks, len, k);
        lemma_pair_kinds(t);
        if t == close {
            // the innermost open block closes
            assert(stk.len() > 0);
            let top = stk.last();
            let prev = b1[start];
            assert(start == top);
            assert(nb == b1.update(top, j));
            assert(nstk == stk.drop_last());
            lemma_pair_kinds(type_at(toks, top));
            assert(stack_ok(toks, nstk, k));
            assert forall|m: int| 0 < m < nstk.len() implies nb[#[trigger] nstk[m]] == nstk[m - 1] by {
                assert(nstk[m] == stk[m]);
                assert(stk[m] < top);
            }
            if nstk.len() > 0 {
                assert(nstk[0] == stk[0]);
                assert(stk[0] < top);
            }
            assert(chain_ok(nb, nstk, len));
            if stk.len() > 1 {
                assert(prev == stk[stk.len() - 2]);
                assert(prev < k);
            } else {
                assert(prev == len);
            }
            assert forall|i: int| 0 <= i < k implies #[trigger] entry_ok(toks, nb, nstk, len, k, i) by {
                if i == j {
                    assert(nb[j] == top);
                    assert(nb[top] == j);
                } else if i == top {
                    assert(nb[top] == j);
                    assert(nb[j] == top);
                } else {
                    assert(entry_ok(toks, b, stk, len, k - 1, i));
                    assert(nb[i] == b[i]);
                    if block_kind(type_at(toks, i)) == 1 {
                        if stk.contains(i) {
                            let m = choose|m: int| 0 <= m < stk.len() && stk[m] == i;
                            assert(m < stk.len() - 1);
                            assert(nstk[m] == i);
                        } else {
                            assert(b[i] != top) by {
                                if b[i] == top {
                                    assert(b[b[i]] == i);
                                    assert(b[top] < top || b[top] == len) by {
                                        if stk.len() > 1 {
                                            assert(b[stk[stk.len() - 1]] == stk[stk.len() - 2]);
                                        }
                                    }
                                }
                            }
                            assert(nb[b[i]] == b[b[i]]);
                        }
                    } else {
                        if 0 <= b[i] < i && block_kind(type_at(toks, b[i])) == 1 && b[b[i]] == i {
                            assert(b[i] != top) by {
                                if b[i] == top {
                                    assert(b[top] < top || b[top] == len) by {
                                        if stk.len() > 1 {
                                            assert(b[stk[stk.len() - 1]] == stk[stk.len() - 2]);
                                        }
                                    }
                                }
                            }
                            assert(nb[b[i]] == b[b[i]]);
                        } else if b[i] == len {
                        } else {
                            let e = b[i];
                            if e == top {
                                assert(nb[e] == j);
                            } else if stk.contains(e) {
                                let m = choose|m: int| 0 <= m < stk.len() && stk[m] == e;
                                assert(m < stk.len() - 1);
                                assert(nstk[m] == e);
                                assert(nstk.contains(e));
                            } else {
                                assert(nb[e] == b[e]);
                            }
                        }
                    }
                }
            }
        } else if block_kind(t) == 1 {
            assert(nb == b1);
            assert(nstk == stk.push(j));
            assert(stack_ok(toks, nstk, k)) by {
                assert forall|m1: int, m2: int| 0 <= m1 < m2 < nstk.len() implies #[trigger] nstk[m1] < #[trigger] nstk[m2] by {
                    if m2 == nstk.len() - 1 {
                        assert(nstk[m1] == stk[m1]);
                    } else {
                        assert(nstk[m1] == stk[m1] && nstk[m2] == stk[m2]);
                    }
                }
                assert forall|m: int| 0 <= m < nstk.len() implies 0 <= #[trigger] nstk[m] < k && block_kind(type_at(toks, nstk[m])) == 1 by {
                    if m < stk.len() {
                        assert(nstk[m] == stk[m]);
                    }
                }
            }
            assert forall|m: int| 0 < m < nstk.len() implies nb[#[trigger] nstk[m]] == nstk[m - 1] by {
                if m == nstk.len() - 1 {
                    assert(nstk[m] == j);
                    assert(nstk[m - 1] == stk.last());
                } else {
                    assert(nstk[m] == stk[m] && nstk[m - 1] == stk[m - 1]);
                }
            }
            if stk.len() > 0 {
                assert(nstk[0] == stk[0]);
            } else {
                assert(nstk[0] == j);
            }
            assert(chain_ok(nb, nstk, len));
            assert forall|i: int| 0 <= i < k implies #[trigger] entry_ok(toks, nb, nstk, len, k, i) by {
                if i == j {
                    assert(nstk.contains(j)) by {
                        assert(nstk[nstk.len() - 1] == j);
                    }
                } else {
                    assert(entry_ok(toks, b, stk, len, k - 1, i));
                    assert(nb[i] == b[i]);
                    if stk.contains(i) {
                        let m = choose|m: int| 0 <= m < stk.len() && stk[m] == i;
                        assert(nstk[m] == i);
                    }
                    if 0 <= b[i] < k - 1 {
                        assert(nb[b[i]] == b[b[i]]);
                        if stk.contains(b[i]) {
                            let m = choose|m: int| 0 <= m < stk.len() && stk[m] == b[i];
                            assert(nstk[m] == b[i]);
                        }
                    }
                }
            }
        } else {
            assert(nb == b1);
            assert(nstk == stk);
            assert forall|m: int| 0 < m < nstk.len() implies nb[#[trigger] nstk[m]] == nstk[m - 1] by {
                assert(nstk[m] < j);
            }
            if stk.len() > 0 {
                assert(stk[0] < j);
            }
            assert forall|i: int| 0 <= i < k implies #[trigger] entry_ok(toks, nb, nstk, len, k, i) by {
                if i == j {
                    if stk.len() > 0 {
                        assert(stk.contains(stk.last())) by {
                            assert(stk[stk.len() - 1] == stk.last());
                        }
                    }
                } else {
                    assert(entry_ok(toks, b, stk, len, k - 1, i));
                    assert(nb[i] == b[i]);
                    if 0 <= b[i] < k - 1 {
                        assert(nb[b[i]] == b[b[i]]);
                    }
                }
            }
        }
    }
}


/// The built table with the end-of-input entry pointing at itself.
pub open spec fn built_table(toks: Seq<(u8, int, int)>, len: int) -> Seq<int> {
    let count = toks.len() as int;
    balance_build(toks, len, count).0.update(count, count)
}

/// The resolved entry of token `j`.
pub open spec fn resolved(toks: Seq<(u8, int, int)>, len: int, j: int) -> int {
    let count = toks.len() as int;
    let bp = built_table(toks, len);
    let stk = open_blocks(toks, len, count);
    if block_kind(type_at(toks, j)) == 1 {
        if stk.contains(j) { count } else { bp[j] }
    } else if bp[j] == len {
        count
    } else if bp[j] < j && bp[bp[j]] == j {
        bp[j]
    } else if stk.contains(bp[j]) {
        count
    } else {
        bp[bp[j]]
    }
}

proof fn lemma_fix_tail(b: Seq<int>, count: int, i: int, j: int)
    requires
        0 <= i,
        count <= j < b.len(),
    ensures
        balance_fix(b, count, i)[j] == b[j],
        balance_fix(b, count, i).len() == b.len(),
    decreases count - i,
{
    if 0 <= i < count {
        lemma_fix_tail(balance_fix_step(b, count, i), count, i + 1, j);
    }
}

proof fn lemma_fix_resolves(toks: Seq<(u8, int, int)>, len: int, cur: Seq<int>, i: int)
    requires
        toks.len() <= len,
        proper_types(toks),
        build_inv(toks, len, toks.len() as int),
        0 <= i <= toks.len(),
        cur.len() == len + 1,
        forall|j: int| 0 <= j < i ==> #[trigger] cur[j] == resolved(toks, len, j),
        forall|j: int| i <= j <= len ==> #[trigger] cur[j] == built_table(toks, len)[j],
    ensures
        forall|j: int| 0 <= j < toks.len() ==> #[trigger] balance_fix(cur, toks.len() as int, i)[j]
            == resolved(toks, len, j),
    decreases toks.len() - i,
{
    let count = toks.len() as int;
    if i < count {
        let bp = built_table(toks, len);
        let b = balance_build(toks, len, count).0;
        let stk = open_blocks(toks, len, count);
        lemma_build_bounds(toks, len, count);
        assert(entry_ok(toks, b, stk, len, count, i));
        assert(bp[i] == b[i]);
        let next = balance_fix_step(cur, count, i);
        assert(next[i] == resolved(toks, len, i)) by {
            let bs = cur[i];
            assert(bs == b[i]);
            if block_kind(type_at(toks, i)) == 1 {
                if stk.contains(i) {
                    let m = choose|m: int| 0 <= m < stk.len() && stk[m] == i;
                    if m > 0 {
                        assert(b[stk[m]] == stk[m - 1]);
                        let e = stk[m - 1];
                        assert(e < i);
                        assert(stk.contains(e));
                        assert(block_kind(type_at(toks, e)) == 1);
                        assert(cur[e] == resolved(toks, len, e));
                    } else {
                        assert(b[i] == len);
                    }
                }
            } else {
                if 0 <= b[i] < i && block_kind(type_at(toks, b[i])) == 1 && b[b[i]] == i {
                    let o = b[i];
                    assert(!stk.contains(o)) by {
                        if stk.contains(o) {
                            let m = choose|m: int| 0 <= m < stk.len() && stk[m] == o;
                            if m > 0 {
                                assert(b[stk[m]] == stk[m - 1]);
                            }
                        }
                    }
                    assert(cur[o] == resolved(toks, len, o));
                    assert(bp[o] == b[o]);
                } else if b[i] == len {
                } else {
                    let e = b[i];
                    assert(cur[e] == resolved(toks, len, e));
                    assert(bp[e] == b[e]);
                    if !stk.contains(e) {
                        assert(entry_ok(toks, b, stk, len, count, e));
                    } else {
                        let m = choose|m: int| 0 <= m < stk.len() && stk[m] == e;
                        if m > 0 {
                            assert(b[stk[m]] == stk[m - 1]);
                        }
                    }
                }
            }
        }
        assert forall|j: int| 0 <= j < i + 1 implies #[trigger] next[j] == resolved(toks, len, j) by {
            if j < i {
                assert(next[j] == cur[j]);
            }
        }
        assert forall|j: int| i + 1 <= j <= len implies #[trigger] next[j] == built_table(toks, len)[j] by {
            assert(next[j] == cur[j]);
        }
        lemma_fix_resolves(toks, len, next, i + 1);
        assert(balance_fix(cur, count, i) == balance_fix(next, count, i + 1));
    } else {
        assert(balance_fix(cur, count, i) == cur);
    }
}

/// An opener's resolved entry: forward, at most to the end of the tokens, and,
/// before the end, at a closer of the matching type that points back.
pub open spec fn opener_entry(toks: Seq<(u8, int, int)>, f: Seq<int>, j: int) -> bool {
    &&& j < f[j] <= toks.len()
    &&& f[j] < toks.len() ==> type_at(toks, f[j]) == balance_pair(type_at(toks, j)) && f[f[j]] == j
}

/// Any other token's resolved entry: back at the opener it closes (which points at
/// it), or forward at a token that opens no block.
pub open spec fn other_entry(toks: Seq<(u8, int, int)>, f: Seq<int>, j: int) -> bool {
    ||| (0 <= f[j] < j && block_kind(type_at(toks, f[j])) == 1 && f[f[j]] == j
        && type_at(toks, j) == balance_pair(type_at(toks, f[j])))
    ||| (j < f[j] <= toks.len() && block_kind(type_at(toks, f[j])) != 1)
}

/// The balance table of the tokens of a text: every block opener points forward,
/// at most to the end of the tokens, and an opener that points at a token before
/// the end points at a closer of its matching type, which points back; every other
/// token either points back at the opener whose block it closes (and that opener
/// points at it), or points forward at a token that opens no block.  The
/// end-of-input entry points at itself.
pub proof fn balance_table_shape(toks: Seq<(u8, int, int)>, len: int)
    requires
        toks.len() <= len,
        proper_types(toks),
    ensures
        balance_table(toks, len).len() == len + 1,
        balance_table(toks, len)[toks.len() as int] == toks.len(),
        forall|j: int| 0 <= j < toks.len() && block_kind(type_at(toks, j)) == 1 ==> opener_entry(toks, #[trigger] balance_table(toks, len), j),
        forall|j: int| 0 <= j < toks.len() && block_kind(type_at(toks, j)) != 1 ==> other_entry(toks, #[trigger] balance_table(toks, len), j),
{
    let count = toks.len() as int;
    lemma_build_inv(toks, len, count);
    lemma_build_bounds(toks, len, count);
    let bp = built_table(toks, len);
    let b = balance_build(toks, len, count).0;
    let stk = open_blocks(toks, len, count);
    lemma_fix_resolves(toks, len, bp, 0);
    lemma_fix_tail(bp, count, 0, count);
    let f = balance_table(toks, len);
    assert(f == balance_fix(bp, count, 0));
    assert forall|j: int| 0 <= j < count implies #[trigger] f[j] == resolved(toks, len, j) by {
    }
    assert forall|j: int| 0 <= j < count && block_kind(type_at(toks, j)) == 1 implies opener_entry(toks, f, j) by {
        assert(entry_ok(toks, b, stk, len, count, j));
        assert(bp[j] == b[j]);
        if !stk.contains(j) {
            let c = b[j];
            lemma_pair_kinds(type_at(toks, j));
            assert(entry_ok(toks, b, stk, len, count, c));
            assert(f[c] == resolved(toks, len, c));
            assert(bp[c] == b[c]);
        }
    }
    assert forall|j: int| 0 <= j < count && block_kind(type_at(toks, j)) != 1 implies other_entry(toks, f, j) by {
        assert(entry_ok(toks, b, stk, len, count, j));
        assert(bp[j] == b[j]);
        if 0 <= b[j] < j && block_kind(type_at(toks, b[j])) == 1 && b[b[j]] == j {
            let o = b[j];
            assert(bp[o] == b[o]);
            assert(!stk.contains(o)) by {
                if stk.contains(o) {
                    let m = choose|m: int| 0 <= m < stk.len() && stk[m] == o;
                    if m > 0 {
                        assert(b[stk[m]] == stk[m - 1]);
                    }
                }
            }
            assert(f[o] == resolved(toks, len, o));
        } else if b[j] == len {
        } else {
            let e = b[j];
            assert(bp[e] == b[e]);
            if !stk.contains(e) {
                assert(entry_ok(toks, b, stk, len, count, e));
                lemma_pair_kinds(type_at(toks, e));
            }
        }
    }
}

} // verus!
