//! Grouped-query attention over a sliding window: the shape of the layer, which
//! keys each query may see, and how the window is cut into blocks.

use vstd::prelude::*;

use crate::config::Model;

verus! {

/// Attention with `heads` queries sharing `kv_heads` key/value heads.
#[derive(Debug, Clone, Copy, PartialEq, Eq)]
pub struct Attention {
    pub d_model: usize,
    pub heads: usize,
    pub kv_heads: usize,
    pub head_dim: usize,
    pub window: Option<usize>,
}

/// How a sequence is attended to.
#[derive(Debug, Clone, Copy, PartialEq, Eq, Structural)]
pub enum Path {
    /// The whole score matrix at once.
    Dense,
    /// Block by block, each block as long as the window.
    Windowed(usize),
}

/// The queries `start..end`, scored against the keys `first..end`.
#[derive(Debug, Clone, Copy, PartialEq, Eq, Structural)]
pub struct Span {
    pub start: usize,
    pub end: usize,
    pub first: usize,
}

/// Whether the token at `query` may see the token at `key`: not later than
/// itself, and inside the window where there is one.
pub open spec fn visible(window: Option<usize>, query: int, key: int) -> bool {
    &&& key <= query
    &&& window matches Some(w) ==> query - w < key
}

/// Block `k` of a sequence of `seq` tokens cut every `w`.
pub open spec fn span_at(seq: int, w: int, k: int) -> Span {
    let start = k * w;
    Span {
        start: start as usize,
        end: if start + w < seq { (start + w) as usize } else { seq as usize },
        first: if start + 1 < w { 0 } else { (start + 1 - w) as usize },
    }
}

/// The number of blocks.
pub open spec fn span_count(seq: int, w: int) -> int {
    (seq + w - 1) / w
}

impl Attention {
    /// The layer of a model. The head width is the model width shared out.
    pub fn new(cfg: &Model) -> (layer: Self)
        requires
            cfg.attn_heads != 0,
        ensures
            layer == (Attention {
                d_model: cfg.d_model,
                heads: cfg.attn_heads,
                kv_heads: cfg.attn_kv_heads,
                head_dim: cfg.attn_head() as usize,
                window: cfg.attn_window,
            }),
            layer.head_dim == cfg.d_model as int / cfg.attn_heads as int,
    {
        proof {
            vstd::arithmetic::div_mod::lemma_div_is_ordered_by_denominator(
                cfg.d_model as int,
                1,
                cfg.attn_heads as int,
            );
        }
        Self {
            d_model: cfg.d_model,
            heads: cfg.attn_heads,
            kv_heads: cfg.attn_kv_heads,
            head_dim: cfg.d_model / cfg.attn_heads,
            window: cfg.attn_window,
        }
    }

    /// The width of the key and value projections.
    pub open spec fn kv(self) -> int {
        self.kv_heads * self.head_dim
    }

    /// The width of the key and value projections.
    pub fn kv_width(&self) -> (width: usize)
        requires
            self.kv() <= usize::MAX,
        ensures
            width == self.kv(),
            width == self.kv_heads * self.head_dim,
    {
        self.kv_heads * self.head_dim
    }

    /// The parameters of the layer: `q`, `k`, `v` and `o` without biases, and
    /// the two norms of a head's width.
    pub open spec fn params(self) -> int {
        let (d, kv) = (self.d_model as int, self.kv());
        d * d + d * kv + d * kv + d * d + self.head_dim + self.head_dim
    }

    /// How a sequence of `seq` tokens is attended to: by blocks when a window is
    /// shorter than it.
    pub fn path(&self, seq: usize) -> (path: Path)
        ensures
            path == match self.window {
                Some(w) => if w < seq { Path::Windowed(w) } else { Path::Dense },
                None => Path::Dense,
            },
    {
        match self.window {
            Some(w) => if w < seq {
                Path::Windowed(w)
            } else {
                Path::Dense
            },
            None => Path::Dense,
        }
    }

    /// The key/value head that query head `head` shares: each serves a run of
    /// neighbouring query heads.
    pub fn repeat_kv(&self, head: usize) -> (kv: usize)
        requires
            self.kv_heads != 0,
            self.heads >= self.kv_heads,
        ensures
            kv == head as int / (self.heads as int / self.kv_heads as int),
    {
        let group: usize = self.heads / self.kv_heads;
        proof {
            vstd::arithmetic::div_mod::lemma_div_non_zero(self.heads as int, self.kv_heads as int);
        }
        head / group
    }

    /// Cut the queries into blocks of `w`, each with only the keys that its
    /// window can reach. The scores then take `t * 2w` cells instead of `t * t`.
    pub fn windowed(&self, seq: usize, w: usize) -> (spans: Vec<Span>)
        requires
            w > 0,
        ensures
            spans@.len() == span_count(seq as int, w as int),
            forall|k: int|
                0 <= k < spans@.len() ==> #[trigger] spans@[k] == span_at(seq as int, w as int, k),
            spans@.len() == 0 <==> seq == 0,
            forall|k: int|
                0 <= k < spans@.len() ==> {
                    let span = #[trigger] spans@[k];
                    &&& span.start == k * w
                    &&& span.start < span.end <= seq
                    &&& span.end == span.start + w || (k == spans@.len() - 1 && span.end == seq
                        && span.end < span.start + w)
                    &&& span.first == if span.start < w { 0 } else { span.start + 1 - w }
                },
            spans@.len() > 0 ==> spans@.last().end == seq,
    {
        let mut spans: Vec<Span> = Vec::new();
        let mut start: usize = 0;
        let ghost mut count: int = 0;
        proof {
            vstd::arithmetic::mul::lemma_mul_by_zero_is_zero(w as int);
        }
        loop
            invariant_except_break
                w > 0,
                spans@.len() == count,
                start == count * w,
                count == 0 || start - w < seq,
                forall|k: int|
                    0 <= k < spans@.len() ==> #[trigger] spans@[k] == span_at(
                        seq as int,
                        w as int,
                        k,
                    ),
            ensures
                spans@.len() == span_count(seq as int, w as int),
                forall|k: int|
                    0 <= k < spans@.len() ==> #[trigger] spans@[k] == span_at(
                        seq as int,
                        w as int,
                        k,
                    ),
            decreases seq + w - start,
        {
            if start >= seq {
                proof {
                    lemma_span_count(seq as int, w as int, count);
                }
                break;
            }
            let end: usize = if seq - start > w {
                start + w
            } else {
                seq
            };
            let first: usize = (start + 1).saturating_sub(w);
            spans.push(Span { start, end, first });
            proof {
                count = count + 1;
                vstd::arithmetic::mul::lemma_mul_is_distributive_add_other_way(
                    w as int,
                    count - 1,
                    1,
                );
            }
            if seq - start <= w {
                proof {
                    lemma_span_count(seq as int, w as int, count);
                }
                break;
            }
            start = start + w;
        }
        proof {
            the_spans_tile_the_sequence(seq, w, spans@);
        }
        spans
    }

    /// Which of the scores between `queries` queries from token `query` on and
    /// `keys` keys from token `key` on are masked out, row by row. The same
    /// arithmetic serves the whole sequence and any block of it.
    pub fn bias(&self, query: usize, key: usize, queries: usize, keys: usize) -> (masked: Vec<
        bool,
    >)
        requires
            query + queries <= usize::MAX,
            key + keys <= usize::MAX,
            queries * keys <= usize::MAX,
        ensures
            masks(self.window, query as int, key as int, queries as int, keys as int, masked@),
            masked@.len() == queries * keys,
            forall|p: int|
                0 <= p < masked@.len() ==> #[trigger] masked@[p] == {
                    let t = query + p / keys as int;
                    let s = key + p % keys as int;
                    match self.window {
                        Some(w) => t < s || t - s >= w,
                        None => t < s,
                    }
                },
    {
        let mut masked: Vec<bool> = Vec::new();
        let mut i: usize = 0;
        proof {
            vstd::arithmetic::mul::lemma_mul_by_zero_is_zero(keys as int);
        }
        while i < queries
            invariant
                query + queries <= usize::MAX,
                key + keys <= usize::MAX,
                i <= queries,
                masked@.len() == i * keys,
                forall|a: int, b: int|
                    0 <= a < i && 0 <= b < keys ==> #[trigger] masked@[cell(a, b, keys as int)]
                        == !visible(self.window, query + a, key + b),
            decreases queries - i,
        {
            let mut j: usize = 0;
            while j < keys
                invariant
                    query + queries <= usize::MAX,
                    key + keys <= usize::MAX,
                    i < queries,
                    j <= keys,
                    masked@.len() == i * keys + j,
                    forall|a: int, b: int|
                        0 <= a <= i && 0 <= b < keys && (a < i || b < j) ==> #[trigger] masked@[cell(
                            a,
                            b,
                            keys as int,
                        )] == !visible(self.window, query + a, key + b),
                decreases keys - j,
            {
                let t: usize = query + i;
                let s: usize = key + j;
                let near = match self.window {
                    Some(w) => t < s || t - s < w,
                    None => true,
                };
                let ghost before = masked@;
                masked.push(!(s <= t && near));
                proof {
                    assert forall|a: int, b: int|
                        0 <= a <= i && 0 <= b < keys && (a < i || b < j + 1) implies
                        #[trigger] masked@[cell(a, b, keys as int)] == !visible(
                        self.window,
                        query + a,
                        key + b,
                    ) by {
                        if a < i || b < j {
                            lemma_cell_below(a, b, i as int, j as int, keys as int);
                            assert(masked@[cell(a, b, keys as int)] == before[cell(
                                a,
                                b,
                                keys as int,
                            )]);
                        }
                    }
                }
                j = j + 1;
            }
            i = i + 1;
            proof {
                vstd::arithmetic::mul::lemma_mul_is_distributive_add_other_way(
                    keys as int,
                    i - 1,
                    1,
                );
            }
        }
        proof {
            assert forall|p: int| 0 <= p < masked@.len() implies #[trigger] masked@[p] == {
                let t = query + p / keys as int;
                let s = key + p % keys as int;
                match self.window {
                    Some(w) => t < s || t - s >= w,
                    None => t < s,
                }
            } by {
                lemma_cell_of(p, queries as int, keys as int);
                assert(masked@[cell(p / keys as int, p % keys as int, keys as int)] == !visible(
                    self.window,
                    query + p / keys as int,
                    key + p % keys as int,
                ));
            }
        }
        masked
    }
}

/// Where the score of row `i` and column `j` stands among rows of `columns`.
pub open spec fn cell(i: int, j: int, columns: int) -> int {
    i * columns + j
}

/// Whether `masked` marks, row by row, the scores between `queries` queries from
/// token `query` on and `keys` keys from token `key` on that are not visible.
pub open spec fn masks(
    window: Option<usize>,
    query: int,
    key: int,
    queries: int,
    keys: int,
    masked: Seq<bool>,
) -> bool {
    &&& masked.len() == queries * keys
    &&& forall|i: int, j: int|
        0 <= i < queries && 0 <= j < keys ==> #[trigger] masked[cell(i, j, keys)] == !visible(
            window,
            query + i,
            key + j,
        )
}

/// An earlier cell stands in front of a later one.
proof fn lemma_cell_below(a: int, b: int, i: int, j: int, columns: int)
    requires
        0 <= a <= i,
        0 <= b < columns,
        0 <= j <= columns,
        a < i || b < j,
    ensures
        0 <= cell(a, b, columns) < cell(i, j, columns),
{
    assert(0 <= a * columns + b < i * columns + j) by (nonlinear_arith)
        requires
            0 <= a <= i,
            0 <= b < columns,
            0 <= j <= columns,
            a < i || b < j,
    ;
}

/// Position `p` among rows of `columns` is row `p / columns`, column `p % columns`.
proof fn lemma_cell_of(p: int, rows: int, columns: int)
    requires
        0 <= columns,
        0 <= p < rows * columns,
    ensures
        0 <= p / columns < rows,
        0 <= p % columns < columns,
        cell(p / columns, p % columns, columns) == p,
{
    if columns == 0 {
        vstd::arithmetic::mul::lemma_mul_by_zero_is_zero(rows);
    }
    vstd::arithmetic::div_mod::lemma_fundamental_div_mod(p, columns);
    let (q, r) = (p / columns, p % columns);
    assert(0 <= q < rows && q * columns == columns * q) by (nonlinear_arith)
        requires
            columns > 0,
            0 <= p < rows * columns,
            p == columns * q + r,
            0 <= r < columns,
    ;
}

/// The blocks end where they first reach the sequence.
proof fn lemma_span_count(seq: int, w: int, count: int)
    requires
        w > 0,
        count >= 0,
        seq >= 0,
        count * w >= seq,
        count == 0 || count * w - w < seq,
    ensures
        span_count(seq, w) == count,
{
    let rest = seq + w - 1 - count * w;
    vstd::arithmetic::div_mod::lemma_fundamental_div_mod_converse(seq + w - 1, w, count, rest);
}

// ── what blocking the window keeps ───────────────────────────────────────────

/// Every query stands in exactly one block.
pub proof fn every_query_is_in_one_block(seq: usize, w: usize, t: int, k: int)
    requires
        w > 0,
        0 <= t < seq,
        0 <= k < span_count(seq as int, w as int),
    ensures
        0 <= t / (w as int) < span_count(seq as int, w as int),
        ({
            let span = span_at(seq as int, w as int, k);
            span.start <= t < span.end <==> k == t / w as int
        }),
{
    lemma_block_bounds(seq, w, t / w as int, t);
    lemma_block_bounds(seq, w, k, t);
}

/// Where block `k` begins and ends.
proof fn lemma_block_bounds(seq: usize, w: usize, k: int, t: int)
    requires
        w > 0,
        0 <= t < seq,
        0 <= k < span_count(seq as int, w as int) || k == t / w as int,
    ensures
        0 <= k < span_count(seq as int, w as int),
        0 <= k * w < seq,
        k * w <= t < k * w + w <==> k == t / w as int,
{
    let (n, width) = (seq as int, w as int);
    vstd::arithmetic::div_mod::lemma_fundamental_div_mod(t, width);
    vstd::arithmetic::div_mod::lemma_fundamental_div_mod(n + width - 1, width);
    let q = t / width;
    let c = span_count(n, width);
    assert(0 <= q) by {
        vstd::arithmetic::div_mod::lemma_div_pos_is_pos(t, width);
    }
    assert(q < c) by (nonlinear_arith)
        requires
            width > 0,
            t == width * q + t % width,
            0 <= t % width,
            t < n,
            n + width - 1 == width * c + (n + width - 1) % width,
            (n + width - 1) % width < width,
    ;
    assert(0 <= k * w < n) by (nonlinear_arith)
        requires
            width > 0,
            width == w,
            0 <= k < c,
            n + width - 1 == width * c + (n + width - 1) % width,
            0 <= (n + width - 1) % width,
    ;
    assert(q * w <= t < q * w + w) by (nonlinear_arith)
        requires
            width == w,
            t == width * q + t % width,
            0 <= t % width < width,
    ;
    if k < q {
        assert(k * w + w <= q * w) by (nonlinear_arith)
            requires
                k + 1 <= q,
                w > 0,
        ;
    }
    if k > q {
        assert(k * w >= q * w + w) by (nonlinear_arith)
            requires
                k >= q + 1,
                w > 0,
        ;
    }
}

/// The spans tile the sequence: each begins where the one before ends, all but the
/// last are as long as the window, the last ends with the sequence, and each keeps
/// the keys back to one behind the window of its first query.
pub proof fn the_spans_tile_the_sequence(seq: usize, w: usize, spans: Seq<Span>)
    requires
        w > 0,
        spans.len() == span_count(seq as int, w as int),
        forall|k: int|
            0 <= k < spans.len() ==> #[trigger] spans[k] == span_at(seq as int, w as int, k),
    ensures
        spans.len() == 0 <==> seq == 0,
        forall|k: int|
            0 <= k < spans.len() ==> {
                let span = #[trigger] spans[k];
                &&& span.start == k * w
                &&& span.start < span.end <= seq
                &&& span.end == span.start + w || (k == spans.len() - 1 && span.end == seq
                    && span.end < span.start + w)
                &&& span.first == if span.start < w { 0 } else { span.start + 1 - w }
            },
        spans.len() > 0 ==> spans.last().end == seq,
{
    let (n, width) = (seq as int, w as int);
    let c = span_count(n, width);
    vstd::arithmetic::div_mod::lemma_fundamental_div_mod(n + width - 1, width);
    assert(c * width >= n && (c - 1) * width < n && (n > 0 ==> c >= 1) && (n == 0 ==> c == 0))
        by (nonlinear_arith)
        requires
            width > 0,
            n >= 0,
            n + width - 1 == width * c + (n + width - 1) % width,
            0 <= (n + width - 1) % width < width,
    ;
    assert forall|k: int| 0 <= k < spans.len() implies {
        let span = #[trigger] spans[k];
        &&& span.start == k * w
        &&& span.start < span.end <= seq
        &&& span.end == span.start + w || (k == spans.len() - 1 && span.end == seq && span.end
            < span.start + w)
        &&& span.first == if span.start < w { 0 } else { span.start + 1 - w }
    } by {
        assert(0 <= k * width && k * width <= (c - 1) * width && (k < c - 1 ==> k * width + width
            <= (c - 1) * width)) by (nonlinear_arith)
            requires
                0 <= k < c,
                width > 0,
        ;
    }
    if n > 0 {
        assert((c - 1) * width + width == c * width) by (nonlinear_arith);
        assert(spans[c - 1].end == seq);
    }
}

/// A query of the whole sequence sees every key not later than itself and, where
/// there is a window, nearer than the window is wide. It sees no other.
pub proof fn a_query_sees_its_whole_window(
    window: Option<usize>,
    seq: int,
    dense: Seq<bool>,
    t: int,
    s: int,
)
    requires
        masks(window, 0, 0, seq, seq, dense),
        0 <= t < seq,
        0 <= s < seq,
    ensures
        window is None ==> (!dense[t * seq + s] <==> s <= t),
        window matches Some(w) ==> (!dense[t * seq + s] <==> t - w < s <= t),
{
    assert(dense[cell(t, s, seq)] == !visible(window, 0 + t, 0 + s));
}

/// The keys among the first `n` that row `t` of a mask over `seq` keys leaves.
pub open spec fn keys_left(masked: Seq<bool>, seq: int, t: int, n: nat) -> nat
    decreases n,
{
    if n == 0 {
        0
    } else {
        keys_left(masked, seq, t, (n - 1) as nat) + if masked[t * seq + n - 1] {
            0nat
        } else {
            1nat
        }
    }
}

/// A query sees as many keys as its window is wide, or as there are up to itself:
/// `min(w, t + 1)` with a window and `t + 1` without.
pub proof fn a_query_sees_as_many_keys_as_its_window(
    window: Option<usize>,
    seq: int,
    dense: Seq<bool>,
    t: int,
)
    requires
        masks(window, 0, 0, seq, seq, dense),
        0 <= t < seq,
    ensures
        keys_left(dense, seq, t, seq as nat) == match window {
            Some(w) => if w < t + 1 { w as int } else { t + 1 },
            None => t + 1,
        },
{
    lemma_keys_left(window, seq, dense, t, seq as nat);
}

proof fn lemma_keys_left(window: Option<usize>, seq: int, dense: Seq<bool>, t: int, n: nat)
    requires
        masks(window, 0, 0, seq, seq, dense),
        0 <= t < seq,
        n <= seq,
    ensures
        ({
            let low = match window {
                Some(w) => if w <= t { t + 1 - w } else { 0 },
                None => 0,
            };
            keys_left(dense, seq, t, n) == if n <= low {
                0
            } else if n <= t + 1 {
                n - low
            } else {
                t + 1 - low
            }
        }),
    decreases n,
{
    if n > 0 {
        lemma_keys_left(window, seq, dense, t, (n - 1) as nat);
        a_query_sees_its_whole_window(window, seq, dense, t, n - 1);
    }
}

/// A window one token wider shows each query exactly one key more: the one just
/// behind the narrower window.
pub proof fn a_wider_window_shows_one_key_more(
    w: usize,
    seq: int,
    narrow: Seq<bool>,
    wide: Seq<bool>,
    t: int,
    s: int,
)
    requires
        w < usize::MAX,
        masks(Some(w), 0, 0, seq, seq, narrow),
        masks(Some((w + 1) as usize), 0, 0, seq, seq, wide),
        0 <= t < seq,
        0 <= s < seq,
    ensures
        narrow[t * seq + s] != wide[t * seq + s] <==> s == t - w,
{
    a_query_sees_its_whole_window(Some(w), seq, narrow, t, s);
    a_query_sees_its_whole_window(Some((w + 1) as usize), seq, wide, t, s);
}

/// Blocking loses no score: every key that a query may see is among the keys of
/// the query's block.
pub proof fn a_block_reaches_every_visible_key(seq: usize, w: usize, t: int, s: int)
    requires
        w > 0,
        0 <= t < seq,
        0 <= s,
        visible(Some(w), t, s),
    ensures
        ({
            let span = span_at(seq as int, w as int, t / w as int);
            span.first <= s < span.end
        }),
{
    lemma_block_bounds(seq, w, t / w as int, t);
}

/// The mask of a block is the mask of the whole sequence, shifted.
pub proof fn a_block_mask_is_the_dense_mask_shifted(
    window: Option<usize>,
    seq: int,
    dense: Seq<bool>,
    query: int,
    key: int,
    queries: int,
    keys: int,
    block: Seq<bool>,
    i: int,
    j: int,
)
    requires
        masks(window, 0, 0, seq, seq, dense),
        masks(window, query, key, queries, keys, block),
        0 <= query,
        0 <= key,
        query + queries <= seq,
        key + keys <= seq,
        0 <= i < queries,
        0 <= j < keys,
    ensures
        block[cell(i, j, keys)] == dense[cell(query + i, key + j, seq)],
{
}

/// Blocking the window does not change the output: a query attends to a key of
/// the whole sequence exactly where its block holds that key and does not mask
/// it.
pub proof fn blocking_the_window_changes_no_score(
    seq: usize,
    w: usize,
    dense: Seq<bool>,
    block: Seq<bool>,
    t: int,
    s: int,
)
    requires
        w > 0,
        0 <= t < seq,
        0 <= s < seq,
        masks(Some(w), 0, 0, seq as int, seq as int, dense),
        ({
            let span = span_at(seq as int, w as int, t / w as int);
            masks(
                Some(w),
                span.start as int,
                span.first as int,
                span.end - span.start,
                span.end - span.first,
                block,
            )
        }),
    ensures
        ({
            let span = span_at(seq as int, w as int, t / w as int);
            !dense[cell(t, s, seq as int)] <==> {
                &&& span.first <= s < span.end
                &&& !block[cell(t - span.start, s - span.first, span.end - span.first)]
            }
        }),
{
    let span = span_at(seq as int, w as int, t / w as int);
    lemma_block_bounds(seq, w, t / w as int, t);
    assert(dense[cell(t, s, seq as int)] == !visible(Some(w), 0 + t, 0 + s));
    if visible(Some(w), t, s) {
        a_block_reaches_every_visible_key(seq, w, t, s);
    }
    if span.first <= s < span.end {
        assert(block[cell(t - span.start, s - span.first, span.end - span.first)] == !visible(
            Some(w),
            span.start + (t - span.start),
            span.first + (s - span.first),
        ));
    }
}

/// No query is masked from everything: it always sees itself.
pub proof fn a_query_sees_itself(window: Option<usize>, t: int)
    requires
        window != Some(0usize),
    ensures
        visible(window, t, t),
{
}

/// A window at least as wide as the sequence hides nothing that causality does
/// not.
pub proof fn a_wide_window_is_dense(w: usize, seq: int, t: int, s: int)
    requires
        seq <= w,
        0 <= t < seq,
        0 <= s,
    ensures
        visible(Some(w), t, s) == visible(None, t, s),
{
}

/// The scores that the first `n` blocks hold.
pub open spec fn scored_pairs(seq: int, w: int, n: nat) -> int
    decreases n,
{
    if n == 0 {
        0
    } else {
        let span = span_at(seq, w, n - 1);
        scored_pairs(seq, w, (n - 1) as nat) + (span.end - span.start) * (span.end - span.first)
    }
}

proof fn lemma_pairs_bounded(seq: usize, w: usize, n: nat)
    requires
        w > 0,
        n <= span_count(seq as int, w as int),
    ensures
        ({
            let done = if n * w < seq { n * w } else { seq as int };
            let pairs = scored_pairs(seq as int, w as int, n);
            &&& pairs <= done * (2 * w - 1)
            &&& pairs <= done * seq
            &&& w < seq && n > 0 ==> pairs < done * seq
        }),
    decreases n,
{
    if n > 0 {
        lemma_pairs_bounded(seq, w, (n - 1) as nat);
        let k = n - 1;
        if seq == 0 {
            vstd::arithmetic::div_mod::lemma_small_mod((w - 1) as nat, w as nat);
            vstd::arithmetic::div_mod::lemma_basic_div(w - 1, w as int);
            assert(false);
        }
        lemma_block_bounds(seq, w, k, 0);
        let span = span_at(seq as int, w as int, k);
        let start = k * w;
        assert(n * w == start + w) by (nonlinear_arith)
            requires
                k == n - 1,
                start == k * w,
        ;
        if k == 0 {
            vstd::arithmetic::mul::lemma_mul_by_zero_is_zero(w as int);
        } else {
            assert(start >= w) by (nonlinear_arith)
                requires
                    k >= 1,
                    w > 0,
                    start == k * w,
            ;
        }
        let rows = span.end - span.start;
        let columns = span.end - span.first;
        let done = if n * w < seq { n * w } else { seq as int };
        assert(done == start + rows);
        assert(0 < rows && columns <= 2 * w - 1 && columns <= seq);
        assert(rows * columns <= rows * (2 * w - 1)) by (nonlinear_arith)
            requires
                0 < rows,
                columns <= 2 * w - 1,
        ;
        assert(rows * columns <= rows * seq) by (nonlinear_arith)
            requires
                0 < rows,
                columns <= seq,
        ;
        assert((start + rows) * (2 * w - 1) == start * (2 * w - 1) + rows * (2 * w - 1))
            by (nonlinear_arith);
        assert((start + rows) * seq == start * seq + rows * seq) by (nonlinear_arith);
        if w < seq && k == 0 {
            assert(columns < seq);
            assert(rows * columns < rows * seq) by (nonlinear_arith)
                requires
                    0 < rows,
                    columns < seq,
            ;
        }
    }
}

/// The window is the memory knob: `t` queries hold fewer than `t * 2w` scores,
/// and fewer than the whole square as soon as the window is shorter than the
/// sequence.
pub proof fn a_window_bounds_the_scores(seq: usize, w: usize)
    requires
        w > 0,
        seq > 0,
    ensures
        ({
            let blocks = span_count(seq as int, w as int) as nat;
            let pairs = scored_pairs(seq as int, w as int, blocks);
            &&& pairs < seq * (2 * w)
            &&& w < seq ==> pairs < seq * seq
            &&& w >= seq ==> pairs == seq * seq
        }),
{
    let (n, width) = (seq as int, w as int);
    let c = span_count(n, width);
    vstd::arithmetic::div_mod::lemma_fundamental_div_mod(n + width - 1, width);
    assert(c >= 1 && c * w >= n) by (nonlinear_arith)
        requires
            width > 0,
            width == w,
            n > 0,
            n + width - 1 == width * c + (n + width - 1) % width,
            0 <= (n + width - 1) % width < width,
    ;
    lemma_pairs_bounded(seq, w, c as nat);
    assert(seq * (2 * w - 1) < seq * (2 * w)) by (nonlinear_arith)
        requires
            seq > 0,
    ;
    if w >= seq {
        vstd::arithmetic::div_mod::lemma_fundamental_div_mod_converse(
            n + width - 1,
            width,
            1,
            n - 1,
        );
        assert(c == 1);
        reveal_with_fuel(scored_pairs, 2);
        vstd::arithmetic::mul::lemma_mul_by_zero_is_zero(width);
        let span = span_at(n, width, 0);
        assert(span.start == 0 && span.end == seq && span.first == 0);
        assert(scored_pairs(n, width, 1) == 0 + (seq - 0) * (seq - 0));
    }
}

/// When the key/value heads share the query heads evenly, head `head` has a
/// key/value head, and each key/value head serves one whole run of them.
pub proof fn each_kv_head_serves_a_run(heads: nat, kv_heads: nat, head: nat, kv: nat)
    requires
        kv_heads > 0,
        heads > 0,
        heads % kv_heads == 0,
        head < heads,
    ensures
        ({
            let group = heads as int / kv_heads as int;
            &&& group > 0
            &&& head as int / group < kv_heads
            &&& head as int / group == kv <==> kv * group <= head < (kv + 1) * group
        }),
{
    let group = heads as int / kv_heads as int;
    vstd::arithmetic::div_mod::lemma_fundamental_div_mod(heads as int, kv_heads as int);
    assert(group > 0) by (nonlinear_arith)
        requires
            heads > 0,
            kv_heads > 0,
            heads == kv_heads * group,
    ;
    vstd::arithmetic::div_mod::lemma_fundamental_div_mod(head as int, group);
    let q = head as int / group;
    assert(q < kv_heads) by (nonlinear_arith)
        requires
            group > 0,
            head < heads,
            heads == kv_heads * group,
            head == group * q + head as int % group,
            0 <= head as int % group,
    ;
    assert(q * group <= head < (q + 1) * group) by (nonlinear_arith)
        requires
            head == group * q + head as int % group,
            0 <= (head as int) % group < group,
    ;
    if kv * group <= head < (kv + 1) * group {
        vstd::arithmetic::mul::lemma_mul_is_distributive_add_other_way(group, kv as int, 1);
        vstd::arithmetic::div_mod::lemma_fundamental_div_mod_converse(
            head as int,
            group,
            kv as int,
            head - kv * group,
        );
    }
}

} // verus!
