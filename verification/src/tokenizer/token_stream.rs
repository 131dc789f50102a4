//! A random-access stream over the tokens of a source text, with a cursor and
//! the pairing of block tokens (`(`/`)`, `[`/`]`, `{`/`}`, function/`)`).
use vstd::prelude::*;
use vstd::utf8::{
    encode_utf8, encode_utf8_valid_utf8, is_char_boundary, is_char_boundary_iff_not_is_continuation_byte,
    is_char_boundary_start_end_of_seq, valid_utf8, valid_utf8_split,
};
use crate::tokenizer::balance::{balance_table_shape, opener_entry, other_entry, proper_types};
use crate::tokenizer::{spans, tokenize_covers_source, tokenized};
use crate::tokenizer::types::{
    COMMENT, DELIM, EOF, FUNCTION, LEFT_CURLY_BRACKET, LEFT_PARENTHESIS, LEFT_SQUARE_BRACKET,
    RIGHT_CURLY_BRACKET, RIGHT_PARENTHESIS, RIGHT_SQUARE_BRACKET, WHITE_SPACE,
};
use crate::tokenizer::utils::{matches_range_in, range_matches, to_chars};

verus! {

const OFFSET_MASK: u32 = 0x00FFFFFF;

const TYPE_SHIFT: u32 = 24;

const BLOCK_OPEN_TOKEN: u8 = 1;

const BLOCK_CLOSE_TOKEN: u8 = 2;

/// The largest source length in bytes whose offsets fit the 24 offset bits of a
/// token entry.
pub const MAX_SOURCE_LENGTH: usize = 0x00FFFFFF;

/// The type of the token that closes a block opened by a token of type `t`, or 0.
pub open spec fn balance_pair(t: u8) -> u8 {
    if t == FUNCTION || t == LEFT_PARENTHESIS {
        RIGHT_PARENTHESIS
    } else if t == LEFT_SQUARE_BRACKET {
        RIGHT_SQUARE_BRACKET
    } else if t == LEFT_CURLY_BRACKET {
        RIGHT_CURLY_BRACKET
    } else {
        0
    }
}

/// 1 for a block opener (function, `(`, `[`, `{`), 2 for a block closer
/// (`)`, `]`, `}`), 0 for any other token type.
pub open spec fn block_kind(t: u8) -> u8 {
    if t == FUNCTION || t == LEFT_PARENTHESIS || t == LEFT_SQUARE_BRACKET || t == LEFT_CURLY_BRACKET {
        1
    } else if t == RIGHT_PARENTHESIS || t == RIGHT_SQUARE_BRACKET || t == RIGHT_CURLY_BRACKET {
        2
    } else {
        0
    }
}

/// The type of token `k`, or the end of input outside the token list.
pub open spec fn type_at(toks: Seq<(u8, int, int)>, k: int) -> u8 {
    if 0 <= k < toks.len() {
        toks[k].0
    } else {
        EOF
    }
}

/// The end of token `k`; `len` (the end of the text) for the end-of-input entry.
pub open spec fn end_at(toks: Seq<(u8, int, int)>, k: int, len: int) -> int {
    if 0 <= k < toks.len() {
        toks[k].2
    } else {
        len
    }
}

/// `index` clamped into `[min, max]`.
pub open spec fn bounded(index: int, min: int, max: int) -> int {
    if index < min {
        min
    } else if index > max {
        max
    } else {
        index
    }
}

/// The balance table after the first `k` tokens have been seen, with the index of
/// the innermost open block (`len` when none is open) and the type that closes it.
/// Each token records the innermost open block; a token that closes that block
/// records itself in the block's entry and reopens the enclosing block.
pub open spec fn balance_build(toks: Seq<(u8, int, int)>, len: int, k: int) -> (Seq<int>, int, u8)
    decreases k,
{
    if k <= 0 {
        (Seq::new((len + 1) as nat, |i: int| 0int), len, 0u8)
    } else {
        let prev_state = balance_build(toks, len, k - 1);
        let b = prev_state.0;
        let start = prev_state.1;
        let close = prev_state.2;
        let j = k - 1;
        let t = type_at(toks, j);
        let b1 = b.update(j, start);
        if t == close {
            let prev = b1[start];
            let prev_type = if 0 <= prev < k { type_at(toks, prev) } else { 0u8 };
            (b1.update(start, j), prev, balance_pair(prev_type))
        } else if block_kind(t) == 1 {
            (b1, j, balance_pair(t))
        } else {
            (b1, start, close)
        }
    }
}

/// One step of resolving the balance table at entry `i`: an entry that points back
/// takes the entry it points to (unless that points back to `i`); an entry past the
/// token count is cut to the token count.
pub open spec fn balance_fix_step(b: Seq<int>, count: int, i: int) -> Seq<int> {
    let bs = b[i];
    if bs <= i {
        let be = b[bs];
        if be != i {
            b.update(i, be)
        } else {
            b
        }
    } else if bs > count {
        b.update(i, count)
    } else {
        b
    }
}

/// Resolves the entries `i..count` of the balance table, in order.
pub open spec fn balance_fix(b: Seq<int>, count: int, i: int) -> Seq<int>
    decreases count - i,
{
    if 0 <= i < count {
        balance_fix(balance_fix_step(b, count, i), count, i + 1)
    } else {
        b
    }
}

/// The balance table of a token list over a text of length `len`.
pub open spec fn balance_table(toks: Seq<(u8, int, int)>, len: int) -> Seq<int> {
    let count = toks.len() as int;
    balance_fix(balance_build(toks, len, count).0.update(count, count), count, 0)
}

/// The first token at or after `k` that is neither whitespace nor a comment, or
/// `toks.len()`.
pub open spec fn non_sc_from(toks: Seq<(u8, int, int)>, k: int) -> int
    decreases toks.len() - k,
{
    if 0 <= k < toks.len() && (toks[k].0 == WHITE_SPACE || toks[k].0 == COMMENT) {
        non_sc_from(toks, k + 1)
    } else {
        k
    }
}

/// The answer that `f` gives for `code`.
pub open spec fn stop_decision<F: Fn(u32) -> u8>(f: F, code: u32) -> u8 {
    choose|r: u8| call_ensures(f, (code,), r)
}

/// A token of a stream, as `dump` lists it.
pub struct Token {
    pub idx: isize,
    pub kind: u8,
    pub chunk: String,
    pub balance: isize,
}

pub struct TokenStream {
    source: String,
    chars: Vec<char>,
    offset_and_type: Vec<u32>,
    balance: Vec<usize>,
    first_char_offset: isize,
    token_count: usize,
    token_index: isize,
    token_type: u8,
    token_start: isize,
    token_end: isize,
    eof: bool,
    toks: Ghost<Seq<(u8, int, int)>>,
}

fn bound_index(index: isize, min: isize, max: isize) -> (r: isize)
    ensures
        r == bounded(index as int, min as int, max as int),
{
    if index < min {
        return min;
    }
    if index > max {
        return max;
    }
    index
}

fn balance_pair_of(token_type: u8) -> (r: u8)
    ensures
        r == balance_pair(token_type),
{
    if token_type == FUNCTION || token_type == LEFT_PARENTHESIS {
        RIGHT_PARENTHESIS
    } else if token_type == LEFT_SQUARE_BRACKET {
        RIGHT_SQUARE_BRACKET
    } else if token_type == LEFT_CURLY_BRACKET {
        RIGHT_CURLY_BRACKET
    } else {
        0
    }
}

fn block_kind_of(token_type: u8) -> (r: u8)
    ensures
        r == block_kind(token_type),
{
    if token_type == FUNCTION || token_type == LEFT_PARENTHESIS || token_type == LEFT_SQUARE_BRACKET
        || token_type == LEFT_CURLY_BRACKET {
        BLOCK_OPEN_TOKEN
    } else if token_type == RIGHT_PARENTHESIS || token_type == RIGHT_SQUARE_BRACKET || token_type
        == RIGHT_CURLY_BRACKET {
        BLOCK_CLOSE_TOKEN
    } else {
        0
    }
}

/// Packs a token type and an end offset into one entry.
fn pack(token_type: u8, end: usize) -> (r: u32)
    requires
        end <= 0x00FFFFFF,
    ensures
        r >> 24u32 == token_type as u32,
        r & 0x00FFFFFFu32 == end as u32,
{
    let t = token_type as u32;
    let e = end as u32;
    let r = (t << TYPE_SHIFT) | e;
    assert(t <= 255 && e <= 0x00FFFFFF ==> ((t << 24u32) | e) >> 24u32 == t && ((t << 24u32) | e) & 0x00FFFFFFu32 == e) by (bit_vector);
    r
}

fn entry_type(entry: u32) -> (r: u8)
    ensures
        r as u32 == entry >> 24u32,
{
    assert(entry >> 24u32 <= 255) by (bit_vector);
    (entry >> TYPE_SHIFT) as u8
}

fn entry_end(entry: u32) -> (r: usize)
    ensures
        r as u32 == entry & 0x00FFFFFFu32,
        r <= 0x00FFFFFF,
{
    assert(entry & 0x00FFFFFFu32 <= 0x00FFFFFF) by (bit_vector);
    (entry & OFFSET_MASK) as usize
}


pub proof fn lemma_build_bounds(toks: Seq<(u8, int, int)>, len: int, k: int)
    requires
        0 <= k <= toks.len() <= len,
    ensures
        balance_build(toks, len, k).0.len() == len + 1,
        0 <= balance_build(toks, len, k).1 <= len,
        forall|i: int| 0 <= i <= len ==> 0 <= #[trigger] balance_build(toks, len, k).0[i] <= len,
    decreases k,
{
    if k > 0 {
        lemma_build_bounds(toks, len, k - 1);
    }
}

pub proof fn lemma_fix_bounds(b: Seq<int>, count: int, len: int, i: int)
    requires
        b.len() == len + 1,
        0 <= count <= len,
        0 <= i,
        forall|j: int| 0 <= j <= len ==> 0 <= #[trigger] b[j] <= len,
    ensures
        balance_fix(b, count, i).len() == len + 1,
        forall|j: int| 0 <= j <= len ==> 0 <= #[trigger] balance_fix(b, count, i)[j] <= len,
    decreases count - i,
{
    if 0 <= i < count {
        let b2 = balance_fix_step(b, count, i);
        assert forall|j: int| 0 <= j <= len implies 0 <= #[trigger] b2[j] <= len by {
            let bs = b[i];
            if bs <= i {
                assert(0 <= b[bs] <= len);
            }
        }
        lemma_fix_bounds(b2, count, len, i + 1);
    }
}

fn zeros_u32(n: usize) -> (v: Vec<u32>)
    ensures
        v@ == Seq::new(n as nat, |i: int| 0u32),
{
    let mut v: Vec<u32> = Vec::new();
    while v.len() < n
        invariant
            v.len() <= n,
            forall|i: int| 0 <= i < v.len() ==> v@[i] == 0u32,
        decreases n - v.len(),
    {
        v.push(0);
    }
    assert(v@ =~= Seq::new(n as nat, |i: int| 0u32));
    v
}

fn zeros_usize(n: usize) -> (v: Vec<usize>)
    ensures
        v@ == Seq::new(n as nat, |i: int| 0usize),
{
    let mut v: Vec<usize> = Vec::new();
    while v.len() < n
        invariant
            v.len() <= n,
            forall|i: int| 0 <= i < v.len() ==> v@[i] == 0usize,
        decreases n - v.len(),
    {
        v.push(0);
    }
    assert(v@ =~= Seq::new(n as nat, |i: int| 0usize));
    v
}

/// The integers that a table of offsets holds.
/// Where one step of the cursor from `i` lands among `len` tokens: on the next
/// token, or at the end of input.
pub open spec fn next_index(i: int, len: int) -> int {
    if i + 1 < len {
        i + 1
    } else {
        len
    }
}

/// Where `n` steps of the cursor from `i` land among `len` tokens at once.
pub open spec fn skip_index(i: int, n: int, len: int) -> int {
    if i + n < len {
        i + n
    } else {
        len
    }
}

/// Where `n` steps of the cursor from `i` land when taken one at a time.
pub open spec fn next_steps(i: int, n: nat, len: int) -> int
    decreases n,
{
    if n == 0 {
        i
    } else {
        next_index(next_steps(i, (n - 1) as nat, len), len)
    }
}

/// Skipping `n` tokens lands where `n` single steps land, from any cursor position
/// (before the first token, on a token, or at the end of input).
pub proof fn skip_is_repeated_next(i: int, n: nat, len: int)
    requires
        0 <= len,
        -1 <= i <= len,
    ensures
        skip_index(i, n as int, len) == next_steps(i, n, len),
    decreases n,
{
    if n > 0 {
        skip_is_repeated_next(i, (n - 1) as nat, len);
    }
}

/// Tokens that a stream can be built on, over a text of `len` code points: no more
/// tokens than code points, each a token type other than the end of input
/// (1 to 25), each non-empty and inside the text, each starting where the
/// previous one ends.
pub open spec fn tokens_fit(toks: Seq<(u8, int, int)>, len: int) -> bool {
    &&& toks.len() <= len
    &&& forall|k: int| 0 <= k < toks.len() ==> 0 <= (#[trigger] toks[k]).1 < toks[k].2 <= len && 1 <= toks[k].0 <= 25
    &&& forall|k: int| 0 <= k < toks.len() - 1 ==> (#[trigger] toks[k]).2 == toks[k + 1].1
}

/// In a chain of non-empty tokens that touch end to end, token `k` starts at least
/// `k` after the first.
proof fn lemma_chain_starts(t: Seq<(u8, int, int)>, k: int)
    requires
        0 <= k < t.len(),
        forall|j: int| 0 <= j < t.len() ==> (#[trigger] t[j]).1 < t[j].2,
        forall|j: int| 0 <= j < t.len() - 1 ==> (#[trigger] t[j]).2 == t[j + 1].1,
    ensures
        t[k].1 >= t[0].1 + k,
    decreases k,
{
    if k > 0 {
        lemma_chain_starts(t, k - 1);
        assert(t[k - 1].2 == t[k].1);
    }
}

/// In such a chain, token `k` ends at least `n - 1 - k` before the last one ends.
proof fn lemma_chain_ends(t: Seq<(u8, int, int)>, k: int)
    requires
        0 <= k < t.len(),
        forall|j: int| 0 <= j < t.len() ==> (#[trigger] t[j]).1 < t[j].2,
        forall|j: int| 0 <= j < t.len() - 1 ==> (#[trigger] t[j]).2 == t[j + 1].1,
    ensures
        t[k].2 <= t[t.len() - 1].2 - (t.len() - 1 - k),
    decreases t.len() - k,
{
    if k < t.len() - 1 {
        lemma_chain_ends(t, k + 1);
        assert(t[k].2 == t[k + 1].1);
    }
}

/// The tokens that `tokenize` gives for a text fit a stream over that text.
pub proof fn tokenize_fits_stream(s: Seq<char>)
    ensures
        tokens_fit(tokenized(s), encode_utf8(s).len() as int),
{
    tokenize_covers_source(s);
    let t = tokenized(s);
    let len = encode_utf8(s).len() as int;
    if t.len() > 0 {
        assert forall|k: int| 0 <= k < t.len() implies 0 <= (#[trigger] t[k]).1 < t[k].2 <= len && 1 <= t[k].0 <= 25 by {
            lemma_chain_starts(t, k);
            lemma_chain_ends(t, k);
        }
        lemma_chain_starts(t, t.len() - 1);
    }
}

pub open spec fn int_seq(v: Seq<usize>) -> Seq<int> {
    v.map_values(|x: usize| x as int)
}

/// Two character boundaries of valid UTF-8 stay boundaries of the prefix that ends
/// at the later one.
proof fn lemma_prefix_boundary(bytes: Seq<u8>, start: int, end: int)
    requires
        valid_utf8(bytes),
        0 <= start <= end <= bytes.len(),
        is_char_boundary(bytes, start),
        is_char_boundary(bytes, end),
    ensures
        valid_utf8(bytes.subrange(0, end)),
        is_char_boundary(bytes.subrange(0, end), start),
{
    valid_utf8_split(bytes, end);
    let left = bytes.subrange(0, end);
    if start == end {
        is_char_boundary_start_end_of_seq(left);
    } else {
        is_char_boundary_iff_not_is_continuation_byte(bytes, start);
        is_char_boundary_iff_not_is_continuation_byte(left, start);
        assert(left[start] == bytes[start]);
    }
}

/// The bytes `start..end` of `s`, cut at two character boundaries.
fn byte_slice(s: &str, start: usize, end: usize) -> (r: &str)
    requires
        start <= end <= encode_utf8(s@).len(),
        is_char_boundary(encode_utf8(s@), start as int),
        is_char_boundary(encode_utf8(s@), end as int),
    ensures
        encode_utf8(r@) == encode_utf8(s@).subrange(start as int, end as int),
{
    proof {
        encode_utf8_valid_utf8(s@);
        lemma_prefix_boundary(encode_utf8(s@), start as int, end as int);
    }
    let (left, _) = s.split_at(end);
    let (_, mid) = left.split_at(start);
    assert(encode_utf8(mid@) =~= encode_utf8(s@).subrange(start as int, end as int));
    mid
}

impl TokenStream {
    /// The source text.
    pub closed spec fn text(&self) -> Seq<char> {
        self.source@
    }

    /// The bytes (UTF-8) of the source text; token offsets index them.
    pub open spec fn bytes(&self) -> Seq<u8> {
        encode_utf8(self.text())
    }

    /// The tokens the stream was built on, as (type, start, end).
    pub closed spec fn tokens(&self) -> Seq<(u8, int, int)> {
        self.toks@
    }

    /// The index of the token under the cursor: -1 before the first token, the
    /// token count at the end of input.
    pub closed spec fn index(&self) -> int {
        self.token_index as int
    }

    /// The type of the token under the cursor.
    pub closed spec fn current_type(&self) -> u8 {
        self.token_type
    }

    /// The start of the token under the cursor.
    pub closed spec fn current_start(&self) -> int {
        self.token_start as int
    }

    /// The end of the token under the cursor.
    pub closed spec fn current_end(&self) -> int {
        self.token_end as int
    }

    /// The offset of the first token, or -1 when there is none.
    pub closed spec fn first_char(&self) -> int {
        self.first_char_offset as int
    }

    /// The cursor has run past the last token.
    pub closed spec fn at_eof(&self) -> bool {
        self.eof
    }

    /// The balance table: for each token, the index of its partner block token or
    /// of the end of its enclosing block.
    pub closed spec fn balances(&self) -> Seq<int> {
        int_seq(self.balance@)
    }

    /// The tables agree with the tokens of the source text.
    pub closed spec fn tables_ok(&self) -> bool {
        let toks = self.toks@;
        let len = encode_utf8(self.source@).len() as int;
        &&& tokens_fit(toks, len)
        &&& self.chars@ == self.source@
        &&& len <= MAX_SOURCE_LENGTH
        &&& self.token_count as int == toks.len()
        &&& toks.len() <= len
        &&& self.offset_and_type@.len() == len + 1
        &&& self.balance@.len() == len + 1
        &&& forall|k: int| 0 <= k <= toks.len() ==>
            (#[trigger] self.offset_and_type@[k]) >> 24u32 == type_at(toks, k) as u32
            && self.offset_and_type@[k] & 0x00FFFFFFu32 == end_at(toks, k, len) as u32
        &&& int_seq(self.balance@) == balance_table(toks, len)
        &&& self.first_char_offset as int == (if toks.len() > 0 { toks[0].1 } else { -1 })
    }

    /// The cursor is before the first token, on a token, or at the end of input,
    /// and the current type, start and end are those of that position.
    pub open spec fn cursor_ok(&self) -> bool {
        let toks = self.tokens();
        let n = toks.len() as int;
        ||| (self.index() == -1 && self.current_type() == 0 && self.current_start() == self.first_char()
            && self.current_end() == self.first_char() && !self.at_eof())
        ||| (0 <= self.index() < n && self.current_type() == toks[self.index()].0
            && self.current_start() == toks[self.index()].1 && self.current_end() == toks[self.index()].2
            && !self.at_eof())
        ||| (self.index() == n && self.current_type() == EOF && self.current_start() == self.bytes().len()
            && self.current_end() == self.bytes().len() && self.at_eof())
    }

    /// Well-formed: the tables agree with the tokens and the cursor is consistent.
    pub open spec fn wf(&self) -> bool {
        self.tables_ok() && self.cursor_ok()
    }

    /// What a well-formed stream knows of itself.
    pub proof fn lemma_wf(&self)
        requires
            self.tables_ok(),
        ensures
            self.tokens().len() <= self.bytes().len() <= MAX_SOURCE_LENGTH,
            self.balances().len() == self.bytes().len() + 1,
            self.first_char() == (if self.tokens().len() > 0 { self.tokens()[0].1 } else { -1 }),
            self.balances() == balance_table(self.tokens(), self.bytes().len() as int),
            forall|j: int| 0 <= j <= self.bytes().len() ==> 0 <= #[trigger] self.balances()[j] <= self.bytes().len(),
            forall|k: int| 0 <= k < self.tokens().len() ==>
                0 <= (#[trigger] self.tokens()[k]).1 < self.tokens()[k].2 <= self.bytes().len()
                && 1 <= self.tokens()[k].0 <= 25,
            forall|k: int| 0 <= k < self.tokens().len() - 1 ==>
                (#[trigger] self.tokens()[k]).2 == self.tokens()[k + 1].1,
            forall|k: int| 0 <= k <= self.tokens().len() ==>
                (#[trigger] self.entry(k)) >> 24u32 == type_at(self.tokens(), k) as u32
                && self.entry(k) & 0x00FFFFFFu32 == end_at(self.tokens(), k, self.bytes().len() as int) as u32,
    {
        let toks = self.tokens();
        let len = self.bytes().len() as int;
        lemma_build_bounds(toks, len, toks.len() as int);
        lemma_fix_bounds(
            balance_build(toks, len, toks.len() as int).0.update(toks.len() as int, toks.len() as int),
            toks.len() as int, len, 0);
        assert forall|k: int| 0 <= k <= toks.len() implies
            (#[trigger] self.entry(k)) >> 24u32 == type_at(toks, k) as u32
            && self.entry(k) & 0x00FFFFFFu32 == end_at(toks, k, len) as u32 by {
            assert(self.offset_and_type@[k] == self.entry(k));
        }
    }

    /// The type-and-offset entry of token `k`.
    pub closed spec fn entry(&self, k: int) -> u32 {
        self.offset_and_type@[k]
    }

    /// Creates a stream over `tokens` (type, start, end) of `source`, with the cursor
    /// on the first token.
    pub fn new(source: &str, tokens: &[(u8, usize, usize)]) -> (r: Self)
        requires
            encode_utf8(source@).len() <= MAX_SOURCE_LENGTH,
            tokens_fit(spans(tokens@), encode_utf8(source@).len() as int),
        ensures
            r.wf(),
            r.text() == source@,
            r.tokens() == spans(tokens@),
            r.index() == 0,
    {
        let mut r = TokenStream {
            source: String::new(),
            chars: Vec::new(),
            offset_and_type: Vec::new(),
            balance: Vec::new(),
            first_char_offset: 0,
            token_count: 0,
            token_index: 0,
            token_type: 0,
            token_start: 0,
            token_end: 0,
            eof: false,
            toks: Ghost(Seq::empty()),
        };
        r.set_source(source, tokens);
        r
    }

    /// Moves the cursor before the first token.
    pub fn reset(&mut self)
        requires
            old(self).tables_ok(),
        ensures
            final(self).wf(),
            final(self).text() == old(self).text(),
            final(self).tokens() == old(self).tokens(),
            final(self).balances() == old(self).balances(),
            final(self).index() == -1,
    {
        self.eof = false;
        self.token_index = -1;
        self.token_type = 0;
        self.token_start = self.first_char_offset;
        self.token_end = self.first_char_offset;
    }

    /// Takes `source` and its `tokens` (type, start, end), builds the type, offset
    /// and balance tables, and puts the cursor on the first token.
    pub fn set_source(&mut self, source: &str, tokens: &[(u8, usize, usize)])
        requires
            encode_utf8(source@).len() <= MAX_SOURCE_LENGTH,
            tokens_fit(spans(tokens@), encode_utf8(source@).len() as int),
        ensures
            final(self).wf(),
            final(self).text() == source@,
            final(self).tokens() == spans(tokens@),
            final(self).index() == 0,
    {
        let chars = to_chars(source);
        let len = source.len();
        let token_count = tokens.len();
        let ghost toks = spans(tokens@);
        proof {
            assert(spans(tokens@).len() == tokens@.len());
            assert forall|k: int| 0 <= k < token_count implies #[trigger] toks[k] == (tokens@[k].0, tokens@[k].1 as int, tokens@[k].2 as int) by {
                assert(spans(tokens@)[k] == (tokens@[k].0, tokens@[k].1 as int, tokens@[k].2 as int));
            }
        }
        let mut offset_and_type = zeros_u32(len + 1);
        let mut balance = zeros_usize(len + 1);
        let mut first_char_offset: isize = -1;
        let mut balance_close_type: u8 = 0;
        let mut balance_start: usize = len;
        let mut index: usize = 0;
        assert(int_seq(balance@) =~= balance_build(toks, len as int, 0).0);
        while index < token_count
            invariant
                chars@ == source@,
                len == encode_utf8(source@).len(),
                len <= MAX_SOURCE_LENGTH,
                toks == spans(tokens@),
                tokens_fit(toks, len as int),
                token_count == toks.len(),
                token_count <= len,
                tokens@.len() == token_count,
                forall|k: int| 0 <= k < token_count ==> #[trigger] toks[k] == (tokens@[k].0, tokens@[k].1 as int, tokens@[k].2 as int),
                forall|k: int| 0 <= k < toks.len() ==> 0 <= (#[trigger] toks[k]).1 < toks[k].2 <= len && 1 <= toks[k].0 <= 25,
                index <= token_count,
                offset_and_type@.len() == len + 1,
                balance@.len() == len + 1,
                forall|k: int| 0 <= k < index ==>
                    (#[trigger] offset_and_type@[k]) >> 24u32 == toks[k].0 as u32
                    && offset_and_type@[k] & 0x00FFFFFFu32 == toks[k].2 as u32,
                forall|k: int| index <= k <= len ==> #[trigger] offset_and_type@[k] == 0u32,
                int_seq(balance@) == balance_build(toks, len as int, index as int).0,
                balance_start as int == balance_build(toks, len as int, index as int).1,
                balance_close_type == balance_build(toks, len as int, index as int).2,
                first_char_offset as int == (if index > 0 { toks[0].1 } else { -1 }),
            decreases token_count - index,
        {
            proof {
                lemma_build_bounds(toks, len as int, index as int);
                lemma_build_bounds(toks, len as int, index + 1);
            }
            let (token_type, start, end) = tokens[index];
            let entry = pack(token_type, end);
            offset_and_type.set(index, entry);
            if first_char_offset == -1 {
                first_char_offset = start as isize;
            }
            let ghost b_before = int_seq(balance@);
            balance.set(index, balance_start);
            assert(int_seq(balance@) =~= b_before.update(index as int, balance_start as int));
            if token_type == balance_close_type {
                let prev_balance_start = balance[balance_start];
                let ghost b1 = int_seq(balance@);
                balance.set(balance_start, index);
                assert(int_seq(balance@) =~= b1.update(balance_start as int, index as int));
                balance_start = prev_balance_start;
                let prev_entry = offset_and_type[prev_balance_start];
                proof {
                    if prev_balance_start > index {
                        assert(prev_entry == 0u32);
                        assert(0u32 >> 24u32 == 0u32) by (bit_vector);
                    }
                }
                balance_close_type = balance_pair_of(entry_type(prev_entry));
            } else if block_kind_of(token_type) == BLOCK_OPEN_TOKEN {
                balance_start = index;
                balance_close_type = balance_pair_of(token_type);
            }
            index += 1;
        }
        offset_and_type.set(token_count, pack(EOF, len));
        let ghost b_built = int_seq(balance@);
        balance.set(token_count, token_count);
        let ghost b0 = int_seq(balance@);
        proof {
            lemma_build_bounds(toks, len as int, token_count as int);
            assert(b0 =~= balance_build(toks, len as int, token_count as int).0.update(token_count as int, token_count as int));
        }
        let mut i: usize = 0;
        while i < token_count
            invariant
                len == encode_utf8(source@).len(),
                token_count <= len,
                i <= token_count,
                balance@.len() == len + 1,
                b0.len() == len + 1,
                forall|j: int| 0 <= j <= len ==> 0 <= #[trigger] b0[j] <= len,
                forall|j: int| 0 <= j <= len ==> 0 <= #[trigger] int_seq(balance@)[j] <= len,
                balance_fix(int_seq(balance@), token_count as int, i as int) == balance_fix(b0, token_count as int, 0),
            decreases token_count - i,
        {
            let ghost cur = int_seq(balance@);
            let balance_start = balance[i];
            if balance_start <= i {
                let balance_end = balance[balance_start];
                if balance_end != i {
                    balance.set(i, balance_end);
                }
            } else if balance_start > token_count {
                balance.set(i, token_count);
            }
            proof {
                assert(int_seq(balance@) =~= balance_fix_step(cur, token_count as int, i as int));
                lemma_fix_bounds(cur, token_count as int, len as int, i as int);
            }
            i += 1;
        }
        proof {
            lemma_fix_bounds(b0, token_count as int, len as int, 0);
        }
        self.source = source.to_owned();
        self.chars = chars;
        self.first_char_offset = first_char_offset;
        self.token_count = token_count;
        self.offset_and_type = offset_and_type;
        self.balance = balance;
        self.toks = Ghost(toks);
        assert(self.tables_ok());
        self.reset();
        self.next();
    }

    /// Advances the cursor by one token; past the last token it stays at the end of input.
    fn advance(&mut self)
        requires
            old(self).tables_ok(),
            -1 <= old(self).index() <= old(self).tokens().len(),
            old(self).index() + 1 < old(self).tokens().len() ==> old(self).current_end()
                == old(self).tokens()[old(self).index() + 1].1 && !old(self).at_eof(),
        ensures
            final(self).wf(),
            final(self).text() == old(self).text(),
            final(self).tokens() == old(self).tokens(),
            final(self).balances() == old(self).balances(),
            final(self).index() == (if old(self).index() + 1 < old(self).tokens().len() {
                old(self).index() + 1
            } else {
                old(self).tokens().len() as int
            }),
    {
        let next = self.token_index + 1;
        let ghost toks = self.tokens();
        proof {
            self.lemma_wf();
        }
        if next < self.token_count as isize {
            self.token_index = next;
            self.token_start = self.token_end;
            let next_token = self.offset_and_type[next as usize];
            assert(next_token >> 24u32 == type_at(toks, next as int) as u32);
            assert(next_token & 0x00FFFFFFu32 == end_at(toks, next as int, self.bytes().len() as int) as u32);
            self.token_type = entry_type(next_token);
            self.token_end = entry_end(next_token) as isize;
        } else {
            self.eof = true;
            self.token_index = self.token_count as isize;
            self.token_type = EOF;
            self.token_start = self.source.as_str().len() as isize;
            self.token_end = self.source.as_str().len() as isize;
        }
    }

    /// Moves the cursor to the next token, or to the end of input after the last one.
    pub fn next(&mut self)
        requires
            old(self).wf(),
        ensures
            final(self).wf(),
            final(self).text() == old(self).text(),
            final(self).tokens() == old(self).tokens(),
            final(self).index() == next_index(old(self).index(), old(self).tokens().len() as int),
    {
        proof {
            let toks = self.tokens();
            self.lemma_wf();
            if 0 <= self.index() && self.index() + 1 < toks.len() {
                assert(toks[self.index()].2 == toks[self.index() + 1].1);
            }
        }
        self.advance();
    }

    /// The type that `get_token_type` reports for `token_index`: the current type at
    /// the cursor, otherwise the type of the clamped index.
    pub open spec fn type_seen(&self, token_index: int) -> u8 {
        if token_index == self.index() {
            self.current_type()
        } else {
            type_at(self.tokens(), bounded(token_index, 0, self.tokens().len() as int))
        }
    }

    /// The start that `lookup_offset` reports for the token at `k`.
    pub open spec fn offset_of(&self, k: int) -> int {
        if 0 <= k < self.tokens().len() {
            self.tokens()[k - 1].2
        } else {
            self.bytes().len() as int
        }
    }

    /// Moves the cursor `token_count` tokens ahead, or to the end of input.
    pub fn skip(&mut self, token_count: usize)
        requires
            old(self).wf(),
            old(self).index() + token_count >= 1 || old(self).index() + token_count >= old(self).tokens().len(),
        ensures
            final(self).wf(),
            final(self).text() == old(self).text(),
            final(self).tokens() == old(self).tokens(),
            final(self).index() == skip_index(old(self).index(), token_count as int, old(self).tokens().len() as int),
    {
        let ghost toks = self.tokens();
        proof {
            self.lemma_wf();
        }
        let count = self.token_count as isize;
        if self.token_index < count && token_count < (count - self.token_index) as usize {
            let next = self.token_index + token_count as isize;
            self.token_index = next;
            let prev_entry = self.offset_and_type[(next - 1) as usize];
            assert(prev_entry & 0x00FFFFFFu32 == end_at(toks, next - 1, self.bytes().len() as int) as u32);
            assert(toks[next - 1].2 == toks[next as int].1);
            self.token_start = entry_end(prev_entry) as isize;
            let next_token = self.offset_and_type[next as usize];
            assert(next_token >> 24u32 == type_at(toks, next as int) as u32);
            assert(next_token & 0x00FFFFFFu32 == end_at(toks, next as int, self.bytes().len() as int) as u32);
            self.token_type = entry_type(next_token);
            self.token_end = entry_end(next_token) as isize;
            self.eof = false;
        } else {
            self.token_index = count;
            self.advance();
        }
    }

    /// Moves the cursor over whitespace and comment tokens.
    pub fn skip_sc(&mut self)
        requires
            old(self).wf(),
        ensures
            final(self).wf(),
            final(self).text() == old(self).text(),
            final(self).tokens() == old(self).tokens(),
            final(self).index() == (if old(self).index() < 0 {
                old(self).index()
            } else {
                non_sc_from(old(self).tokens(), old(self).index())
            }),
    {
        let ghost toks = self.tokens();
        let ghost n = toks.len() as int;
        while self.token_type == WHITE_SPACE || self.token_type == COMMENT
            invariant
                self.wf(),
                self.text() == old(self).text(),
                self.tokens() == old(self).tokens(),
                toks == self.tokens(),
                n == toks.len(),
                old(self).index() < 0 ==> self.index() == old(self).index(),
                old(self).index() >= 0 ==> old(self).index() <= self.index() <= n
                    && non_sc_from(toks, self.index()) == non_sc_from(toks, old(self).index()),
            decreases n - self.index(),
        {
            self.next();
        }
    }

    /// The type of the token `offset` tokens from the cursor, or the end of input.
    pub fn lookup_type(&self, offset: isize) -> (r: u8)
        requires
            self.wf(),
            isize::MIN <= self.index() + offset <= isize::MAX,
        ensures
            r == type_at(self.tokens(), self.index() + offset),
    {
        let index = offset + self.token_index;
        if index >= 0 && (index as usize) < self.token_count {
            return entry_type(self.offset_and_type[index as usize]);
        }
        EOF
    }

    /// With `idx` 1: the type of the first token after the cursor that is neither
    /// whitespace nor a comment (or the end of input); with any other `idx`: the end
    /// of input.
    pub fn lookup_type_non_sc(&self, idx: isize) -> (r: u8)
        requires
            self.wf(),
            0 <= self.index() + idx <= isize::MAX,
        ensures
            r == (if idx == 1 {
                type_at(self.tokens(), non_sc_from(self.tokens(), self.index() + idx))
            } else {
                EOF
            }),
    {
        let ghost toks = self.tokens();
        proof {
            self.lemma_wf();
        }
        let mut offset = self.token_index + idx;
        while offset < self.token_count as isize
            invariant
                self.wf(),
                toks == self.tokens(),
                0 <= offset,
                0 <= self.index() + idx <= offset,
                -1 <= self.index() <= self.tokens().len() <= MAX_SOURCE_LENGTH,
                idx == 1 ==> non_sc_from(toks, offset as int) == non_sc_from(toks, self.index() + idx),
            decreases self.tokens().len() - offset,
        {
            let token_type = entry_type(self.offset_and_type[offset as usize]);
            if token_type != WHITE_SPACE && token_type != COMMENT {
                if idx - 1 == 0 {
                    return token_type;
                }
            }
            offset += 1;
        }
        EOF
    }

    /// The start of the token `offset` tokens from the cursor, or the end of the
    /// text past the last token.
    pub fn lookup_offset(&self, offset: isize) -> (r: usize)
        requires
            self.wf(),
            isize::MIN <= self.index() + offset <= isize::MAX,
            self.index() + offset != 0 || self.tokens().len() == 0,
        ensures
            r == self.offset_of(self.index() + offset),
    {
        proof {
            self.lemma_wf();
        }
        let index = self.token_index + offset;
        if index >= 0 && (index as usize) < self.token_count {
            entry_end(self.offset_and_type[(index - 1) as usize])
        } else {
            self.source.as_str().len()
        }
    }

    /// Compares the text of the token `offset` tokens from the cursor, lowercased
    /// for A..Z, with `reference_str`; false past the last token.  As `cmp_str`
    /// does, it reads the code points whose indexes are the token's offsets (which
    /// count bytes), so it reads the token's own text only where the text before
    /// it is ASCII.
    pub fn lookup_value(&self, offset: isize, reference_str: &str) -> (r: bool)
        requires
            self.wf(),
            isize::MIN <= self.index() + offset <= isize::MAX,
            self.index() + offset >= 1 || self.index() + offset >= self.tokens().len(),
        ensures
            r == (self.index() + offset < self.tokens().len() && range_matches(
                self.text(),
                self.tokens()[self.index() + offset - 1].2,
                self.tokens()[self.index() + offset].2,
                reference_str@,
            )),
    {
        proof {
            self.lemma_wf();
        }
        let index = offset + self.token_index;
        if index < self.token_count as isize {
            let start = entry_end(self.offset_and_type[(index - 1) as usize]);
            let end = entry_end(self.offset_and_type[index as usize]);
            let reference = to_chars(reference_str);
            return matches_range_in(self.chars.as_slice(), start, end, reference.as_slice());
        }
        false
    }

    /// The start of token `token_index`: the cursor's start at the cursor, the end of
    /// the previous token for later tokens, the end of the text past the last token,
    /// and the first token's start for the first token and before it.
    pub fn get_token_start(&self, token_index: isize) -> (r: isize)
        requires
            self.wf(),
        ensures
            r == (if token_index == self.index() {
                self.current_start()
            } else if token_index > 0 {
                if token_index < self.tokens().len() {
                    self.tokens()[token_index - 1].2
                } else {
                    self.bytes().len() as int
                }
            } else {
                self.first_char()
            }),
    {
        proof {
            self.lemma_wf();
        }
        if token_index == self.token_index {
            return self.token_start;
        }
        if token_index > 0 {
            if (token_index as usize) < self.token_count {
                assert(self.entry(token_index - 1) == self.offset_and_type@[token_index - 1]);
                return entry_end(self.offset_and_type[(token_index - 1) as usize]) as isize;
            }
            assert(self.entry(self.token_count as int) == self.offset_and_type@[self.token_count as int]);
            return entry_end(self.offset_and_type[self.token_count]) as isize;
        }
        self.first_char_offset
    }

    /// The end of token `token_index` (clamped to the token list; the end of the text
    /// for the end-of-input entry), or the cursor's end at the cursor.
    pub fn get_token_end(&self, token_index: isize) -> (r: isize)
        requires
            self.wf(),
        ensures
            r == (if token_index == self.index() {
                self.current_end()
            } else {
                end_at(self.tokens(), bounded(token_index as int, 0, self.tokens().len() as int), self.bytes().len() as int)
            }),
    {
        proof {
            self.lemma_wf();
        }
        if token_index == self.token_index {
            return self.token_end;
        }
        let i = bound_index(token_index, 0, self.token_count as isize);
        assert(self.entry(i as int) == self.offset_and_type@[i as int]);
        entry_end(self.offset_and_type[i as usize]) as isize
    }

    /// The type of token `token_index` (clamped to the token list), or the cursor's
    /// type at the cursor.
    pub fn get_token_type(&self, token_index: isize) -> (r: u8)
        requires
            self.wf(),
        ensures
            r == self.type_seen(token_index as int),
    {
        proof {
            self.lemma_wf();
        }
        if token_index == self.token_index {
            return self.token_type;
        }
        let i = bound_index(token_index, 0, self.token_count as isize);
        assert(self.entry(i as int) == self.offset_and_type@[i as int]);
        entry_type(self.offset_and_type[i as usize])
    }

    /// The text from byte `start` up to the start of the token under the cursor; both
    /// offsets must fall on character boundaries of the text.
    pub fn substr_to_cursor(&self, start: usize) -> (r: &str)
        requires
            self.wf(),
            start <= self.current_start(),
            is_char_boundary(self.bytes(), start as int),
            is_char_boundary(self.bytes(), self.current_start()),
        ensures
            encode_utf8(r@) == self.bytes().subrange(start as int, self.current_start()),
    {
        proof {
            self.lemma_wf();
        }
        byte_slice(self.source.as_str(), start, self.token_start as usize)
    }

    /// A function, `(`, `[` or `{` token type.
    pub fn is_block_opener_token_type(token_type: u8) -> (r: bool)
        requires
            token_type < 32,
        ensures
            r == (block_kind(token_type) == 1),
    {
        block_kind_of(token_type) == BLOCK_OPEN_TOKEN
    }

    /// A `)`, `]` or `}` token type.
    pub fn is_block_closer_token_type(token_type: u8) -> (r: bool)
        requires
            token_type < 32,
        ensures
            r == (block_kind(token_type) == 2),
    {
        block_kind_of(token_type) == BLOCK_CLOSE_TOKEN
    }

    /// The index of the block token paired with the block token at `token_index`:
    /// for an opener, its balance entry when that entry holds the matching closer;
    /// for a closer, its balance entry when that entry holds a matching opener;
    /// otherwise -1.
    pub open spec fn pair_index(&self, token_index: int) -> int {
        let t = self.type_seen(token_index);
        if block_kind(t) == 1 {
            let p = self.balances()[token_index];
            if balance_pair(t) == self.type_seen(p) { p } else { -1 }
        } else if block_kind(t) == 2 {
            let p = self.balances()[token_index];
            if balance_pair(self.type_seen(p)) == t { p } else { -1 }
        } else {
            -1
        }
    }

    pub fn get_block_token_pair_index(&self, token_index: isize) -> (r: isize)
        requires
            self.wf(),
            block_kind(self.type_seen(token_index as int)) != 0 ==> 0 <= token_index <= self.bytes().len(),
        ensures
            r == self.pair_index(token_index as int),
    {
        proof {
            lemma_build_bounds(self.tokens(), self.bytes().len() as int, self.tokens().len() as int);
            lemma_fix_bounds(
                balance_build(self.tokens(), self.bytes().len() as int, self.tokens().len() as int).0.update(
                    self.tokens().len() as int, self.tokens().len() as int),
                self.tokens().len() as int, self.bytes().len() as int, 0);
            self.lemma_wf();
        }
        let token_type = self.get_token_type(token_index);
        let kind = block_kind_of(token_type);
        if kind == BLOCK_OPEN_TOKEN {
            let pair_index = self.balance[token_index as usize] as isize;
            let close_type = self.get_token_type(pair_index);
            if balance_pair_of(token_type) == close_type {
                return pair_index;
            }
            return -1;
        } else if kind == BLOCK_CLOSE_TOKEN {
            let pair_index = self.balance[token_index as usize] as isize;
            let open_type = self.get_token_type(pair_index);
            if balance_pair_of(open_type) == token_type {
                return pair_index;
            }
            return -1;
        }
        -1
    }

    /// The balance entry of the token under the cursor lies before `token_index`.
    pub fn is_balance_edge(&self, token_index: isize) -> (r: bool)
        requires
            self.wf(),
            self.index() >= 0,
        ensures
            r == (self.balances()[self.index()] < token_index),
    {
        proof {
            lemma_build_bounds(self.tokens(), self.bytes().len() as int, self.tokens().len() as int);
            lemma_fix_bounds(
                balance_build(self.tokens(), self.bytes().len() as int, self.tokens().len() as int).0.update(
                    self.tokens().len() as int, self.tokens().len() as int),
                self.tokens().len() as int, self.bytes().len() as int, 0);
        }
        (self.balance[self.token_index as usize] as isize) < token_index
    }

    /// With a positive `offset`: the token `offset` tokens from the cursor is a delim
    /// whose first byte is `code`; otherwise: the token under the cursor is.
    pub fn is_delim(&self, code: u8, offset: isize) -> (r: bool)
        requires
            self.wf(),
            offset > 0 ==> self.index() + offset <= isize::MAX,
            offset > 0 && self.index() + offset == 0 ==> type_at(self.tokens(), 0) != DELIM,
        ensures
            r == (if offset > 0 {
                type_at(self.tokens(), self.index() + offset) == DELIM
                    && self.bytes()[self.offset_of(self.index() + offset)] == code
            } else {
                self.current_type() == DELIM && self.bytes()[self.current_start()] == code
            }),
    {
        proof {
            self.lemma_wf();
        }
        let bytes = self.source.as_str().as_bytes();
        if offset > 0 {
            return self.lookup_type(offset) == DELIM && bytes[self.lookup_offset(offset)] == code;
        }
        self.token_type == DELIM && bytes[self.token_start as usize] == code
    }

    /// Lists the tokens with their index, type, text and balance entry; the text
    /// listed for a token runs from its end to the end of the next entry, in bytes,
    /// so every token must end on a character boundary.
    pub fn dump(&self) -> (r: Vec<Token>)
        requires
            self.wf(),
            forall|k: int| 0 <= k < self.tokens().len() ==> is_char_boundary(self.bytes(), #[trigger] self.tokens()[k].2),
        ensures
            r@.len() == self.tokens().len(),
            forall|k: int| 0 <= k < r@.len() ==> {
                &&& (#[trigger] r@[k]).idx == k
                &&& r@[k].kind == self.tokens()[k].0
                &&& encode_utf8(r@[k].chunk@) == self.bytes().subrange(
                    self.tokens()[k].2,
                    end_at(self.tokens(), k + 1, self.bytes().len() as int),
                )
                &&& r@[k].balance == self.balances()[k]
            },
    {
        let ghost toks = self.tokens();
        let ghost len = self.bytes().len() as int;
        proof {
            self.lemma_wf();
        }
        let mut tokens: Vec<Token> = Vec::new();
        let mut index: usize = 0;
        while index < self.token_count
            invariant
                self.wf(),
                toks == self.tokens(),
                len == self.bytes().len(),
                index <= toks.len(),
                toks.len() <= len,
                tokens@.len() == index,
                forall|j: int| 0 <= j <= len ==> 0 <= #[trigger] self.balances()[j] <= len,
                forall|k: int| 0 <= k < toks.len() ==> 0 <= (#[trigger] toks[k]).1 < toks[k].2 <= len,
                forall|k: int| 0 <= k < toks.len() - 1 ==> (#[trigger] toks[k]).2 == toks[k + 1].1,
                forall|k: int| 0 <= k < toks.len() ==> is_char_boundary(self.bytes(), #[trigger] toks[k].2),
                forall|k: int| 0 <= k < tokens@.len() ==> {
                    &&& (#[trigger] tokens@[k]).idx == k
                    &&& tokens@[k].kind == toks[k].0
                    &&& encode_utf8(tokens@[k].chunk@) == self.bytes().subrange(toks[k].2, end_at(toks, k + 1, len))
                    &&& tokens@[k].balance == self.balances()[k]
                },
            decreases toks.len() - index,
        {
            let entry = self.offset_and_type[index];
            assert(self.entry(index as int) == entry);
            assert(self.entry(index + 1) == self.offset_and_type@[index + 1]);
            let token_type = entry_type(entry);
            let start = entry_end(entry);
            let end = entry_end(self.offset_and_type[index + 1]);
            assert(end_at(toks, index as int, len) <= end_at(toks, index + 1, len)) by {
                if index + 1 < toks.len() {
                    assert(toks[index as int].2 == toks[index + 1].1);
                }
            }
            proof {
                encode_utf8_valid_utf8(self.text());
                is_char_boundary_start_end_of_seq(self.bytes());
            }
            let chunk = byte_slice(self.source.as_str(), start, end).to_owned();
            tokens.push(Token {
                idx: index as isize,
                kind: token_type,
                chunk,
                balance: self.balance[index] as isize,
            });
            index += 1;
        }
        tokens
    }

    /// Inside the token list (and at its end), the type that the stream reports for
    /// an index is the type of that token.
    pub proof fn lemma_type_seen(&self, i: int)
        requires
            self.wf(),
            0 <= i <= self.tokens().len(),
        ensures
            self.type_seen(i) == type_at(self.tokens(), i),
    {
    }

    /// The balance table has the shape that `balance_table_shape` describes.
    pub proof fn lemma_balance_shape(&self)
        requires
            self.tables_ok(),
        ensures
            forall|j: int| 0 <= j < self.tokens().len() && block_kind(type_at(self.tokens(), j)) == 1
                ==> opener_entry(self.tokens(), #[trigger] self.balances(), j),
            forall|j: int| 0 <= j < self.tokens().len() && block_kind(type_at(self.tokens(), j)) != 1
                ==> other_entry(self.tokens(), #[trigger] self.balances(), j),
            self.balances()[self.tokens().len() as int] == self.tokens().len(),
    {
        self.lemma_wf();
        let toks = self.tokens();
        assert(proper_types(toks)) by {
            assert forall|k: int| 0 <= k < toks.len() implies 1 <= #[trigger] type_at(toks, k) <= 25 by {
                assert(1 <= toks[k].0 <= 25);
            }
        }
        balance_table_shape(toks, self.bytes().len() as int);
    }

    /// An opener (a function, `(`, `[` or `{`), a token that is no block token, and
    /// the closer that matches the opener (`)` for a function or `(`, `]` for `[`,
    /// `}` for `{`) make one block: the opener is paired with the closer and the
    /// closer with the opener.
    pub proof fn opener_and_closer_pair(&self)
        requires
            self.wf(),
            self.tokens().len() == 3,
            (self.tokens()[0].0 == FUNCTION && self.tokens()[2].0 == RIGHT_PARENTHESIS)
                || (self.tokens()[0].0 == LEFT_PARENTHESIS && self.tokens()[2].0 == RIGHT_PARENTHESIS)
                || (self.tokens()[0].0 == LEFT_SQUARE_BRACKET && self.tokens()[2].0 == RIGHT_SQUARE_BRACKET)
                || (self.tokens()[0].0 == LEFT_CURLY_BRACKET && self.tokens()[2].0 == RIGHT_CURLY_BRACKET),
            self.tokens()[1].0 != FUNCTION && self.tokens()[1].0 != LEFT_PARENTHESIS
                && self.tokens()[1].0 != RIGHT_PARENTHESIS && self.tokens()[1].0 != LEFT_SQUARE_BRACKET
                && self.tokens()[1].0 != RIGHT_SQUARE_BRACKET && self.tokens()[1].0 != LEFT_CURLY_BRACKET
                && self.tokens()[1].0 != RIGHT_CURLY_BRACKET,
        ensures
            self.pair_index(0) == 2,
            self.pair_index(2) == 0,
    {
        let toks = self.tokens();
        let len = self.bytes().len() as int;
        self.lemma_wf();
        self.lemma_type_seen(0);
        self.lemma_type_seen(2);
        assert(len >= 3);
        reveal_with_fuel(balance_build, 4);
        let b0 = balance_build(toks, len, 0);
        let b1 = balance_build(toks, len, 1);
        let b2 = balance_build(toks, len, 2);
        let b3 = balance_build(toks, len, 3);
        assert(b0.1 == len && b0.2 == 0u8);
        assert(b1.1 == 0 && b1.2 == toks[2].0 && b1.0[0] == len);
        assert(b2.1 == 0 && b2.2 == toks[2].0 && b2.0[0] == len);
        assert(b3.0[0] == 2 && b3.0[2] == 0 && b3.0[1] == 0);
        let u = b3.0.update(3, 3);
        let f1 = balance_fix_step(u, 3, 0);
        assert(f1 == u);
        let f2 = balance_fix_step(f1, 3, 1);
        assert(f2[0] == 2 && f2[2] == 0);
        let f3 = balance_fix_step(f2, 3, 2);
        assert(f3[0] == 2 && f3[2] == 0);
        reveal_with_fuel(balance_fix, 4);
        assert(balance_fix(u, 3, 0) == f3);
        assert(self.balances() == balance_table(toks, len));
    }

    /// Block pairing is symmetric: when the block token at `i` has a partner, the
    /// partner's partner is `i`.
    pub proof fn pair_index_symmetric(&self, i: int)
        requires
            self.wf(),
            0 <= i < self.tokens().len(),
            self.pair_index(i) >= 0,
        ensures
            self.pair_index(self.pair_index(i)) == i,
    {
        let toks = self.tokens();
        let n = toks.len() as int;
        let f = self.balances();
        self.lemma_balance_shape();
        self.lemma_wf();
        self.lemma_type_seen(i);
        let t = type_at(toks, i);
        let p = f[i];
        if block_kind(t) == 1 {
            assert(opener_entry(toks, f, i));
            self.lemma_type_seen(p);
            assert(p < n);
            assert(f[p] == i);
            assert(block_kind(type_at(toks, p)) == 2);
            assert(block_kind(type_at(toks, p)) != 1);
        } else {
            assert(block_kind(t) == 2);
            assert(other_entry(toks, f, i));
            assert(0 <= p <= n);
            self.lemma_type_seen(p);
            assert(balance_pair(type_at(toks, p)) == t);
            assert(block_kind(type_at(toks, p)) == 1);
            assert(f[p] == i);
        }
    }

    /// Where `skip_until_balanced` stops its scan when it reaches `cursor`: past the
    /// last token; at a token whose balance entry lies before `start` (the edge of
    /// the enclosing block); or where `f`, given the first byte of the token,
    /// answers 1 (stop before it) or 2 (stop after it).  On any other answer a block
    /// opener is skipped up to its balance entry, and the scan goes on after it.
    pub open spec fn skip_cursor<F: Fn(u32) -> u8>(&self, f: F, start: int, cursor: int) -> int
        decreases self.tokens().len() + 1 - cursor when self.wf() && 0 <= cursor
    {
        let toks = self.tokens();
        if cursor < toks.len() {
            let be = self.balances()[cursor];
            if be < start {
                cursor
            } else {
                let off = if cursor > 0 { toks[cursor - 1].2 } else { self.first_char() };
                let d = stop_decision(f, self.bytes()[off] as u32);
                if d == 1 {
                    cursor
                } else if d == 2 {
                    cursor + 1
                } else {
                    proof {
                        self.lemma_balance_shape();
                        assert(block_kind(type_at(toks, cursor)) == 1 ==> opener_entry(toks, self.balances(), cursor));
                    }
                    let next = if block_kind(type_at(toks, cursor)) == 1 { be } else { cursor };
                    self.skip_cursor(f, start, next + 1)
                }
            }
        } else {
            cursor
        }
    }

    /// Scans from token `start_token` for the point where `stop_consume` asks to
    /// stop, skipping whole blocks and stopping at the edge of the enclosing block,
    /// then moves the cursor there.  `stop_consume` is given the first byte of each
    /// token it looks at, and must answer the same for the same byte: its `ensures`
    /// has to fix its result, since the stop point is stated through that answer.
    pub fn skip_until_balanced<F>(&mut self, start_token: usize, stop_consume: F)
        where
            F: Fn(u32) -> u8,
        requires
            old(self).wf(),
            forall|c: u32| call_requires(stop_consume, (c,)),
            forall|c: u32, r: u8| call_ensures(stop_consume, (c,), r) ==> r == stop_decision(stop_consume, c),
            0 <= old(self).index() <= old(self).skip_cursor(stop_consume, start_token as int, start_token as int),
            old(self).skip_cursor(stop_consume, start_token as int, start_token as int) >= 1
                || old(self).skip_cursor(stop_consume, start_token as int, start_token as int)
                >= old(self).tokens().len(),
        ensures
            final(self).wf(),
            final(self).text() == old(self).text(),
            final(self).tokens() == old(self).tokens(),
            final(self).index() == (if old(self).skip_cursor(stop_consume, start_token as int, start_token as int)
                < old(self).tokens().len() {
                old(self).skip_cursor(stop_consume, start_token as int, start_token as int)
            } else {
                old(self).tokens().len() as int
            }),
    {
        let ghost toks = self.tokens();
        let ghost target = self.skip_cursor(stop_consume, start_token as int, start_token as int);
        proof {
            self.lemma_wf();
            self.lemma_balance_shape();
        }
        let mut cursor = start_token;
        loop
            invariant_except_break
                self.skip_cursor(stop_consume, start_token as int, cursor as int) == target,
            invariant
                self.wf(),
                *self == *old(self),
                toks == self.tokens(),
                forall|c: u32| call_requires(stop_consume, (c,)),
                forall|c: u32, r: u8| call_ensures(stop_consume, (c,), r) ==> r == stop_decision(stop_consume, c),
                start_token <= cursor <= (if start_token > toks.len() { start_token as int } else { toks.len() + 1int }),
                forall|j: int| 0 <= j < toks.len() && block_kind(type_at(toks, j)) == 1
                    ==> opener_entry(toks, #[trigger] self.balances(), j),
                forall|j: int| 0 <= j <= self.bytes().len() ==> 0 <= #[trigger] self.balances()[j] <= self.bytes().len(),
                forall|k: int| 0 <= k < toks.len() ==>
                    0 <= (#[trigger] toks[k]).1 < toks[k].2 <= self.bytes().len(),
                forall|k: int| 0 <= k < toks.len() - 1 ==> (#[trigger] toks[k]).2 == toks[k + 1].1,
                toks.len() <= self.bytes().len() <= MAX_SOURCE_LENGTH,
                self.first_char() == (if toks.len() > 0 { toks[0].1 } else { -1 }),
            ensures
                cursor == target,
            decreases toks.len() + 1 - cursor,
        {
            if cursor >= self.token_count {
                break;
            }
            let balance_end = self.balance[cursor];
            if balance_end < start_token {
                break;
            }
            let offset: usize = if cursor > 0 {
                assert(self.entry(cursor - 1) == self.offset_and_type@[cursor - 1]);
                entry_end(self.offset_and_type[cursor - 1])
            } else {
                self.first_char_offset as usize
            };
            assert(offset as int == (if cursor > 0 { toks[cursor - 1].2 } else { self.first_char() }));
            assert(offset < self.bytes().len()) by {
                if cursor > 0 {
                    assert(toks[cursor - 1].2 == toks[cursor as int].1);
                }
            }
            let code = self.source.as_str().as_bytes()[offset] as u32;
            assert(code == self.bytes()[offset as int] as u32);
            let decision = stop_consume(code);
            assert(decision == stop_decision(stop_consume, code));
            if decision == 1 {
                break;
            } else if decision == 2 {
                cursor += 1;
                break;
            } else {
                assert(self.entry(cursor as int) == self.offset_and_type@[cursor as int]);
                if block_kind_of(entry_type(self.offset_and_type[cursor])) == BLOCK_OPEN_TOKEN {
                    assert(opener_entry(toks, self.balances(), cursor as int));
                    cursor = balance_end;
                }
            }
            cursor += 1;
        }
        self.skip(cursor - self.token_index as usize);
    }
}

} // verus!
