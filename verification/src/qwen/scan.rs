//! The two scans of a layer's key/value cache.
//!
//! Both compute the same numbers by the same operations in the same order. One
//! visits the cache once per query head, the other once per key/value head for
//! the whole group of query heads that share it; which one a pass takes depends
//! on how large the cache is, and changes nothing else.

use crate::arithmetic::Arithmetic;
use crate::buffers::filled;
use vstd::arithmetic::div_mod::{lemma_fundamental_div_mod, lemma_fundamental_div_mod_converse};
use vstd::prelude::*;

verus! {

/// Lanes the score reduction carries independently.
pub const DOT_LANES: usize = 8;

/// Largest grouped-query group the blocked scan carries.
pub const MAX_GROUP: usize = 32;

/// Live key/value bytes, per attention layer, above which the blocked scan
/// wins. It is a tuning constant for a class of host and cannot change a
/// result.
pub const KV_BLOCKING_BYTES: usize = 16 * 1024 * 1024;

/// Score scratch the blocked scan keeps in flight, in numbers.
pub const SCORE_BUDGET: usize = 1024 * 1024;

/// Fewest positions a score block covers.
pub const MIN_PAST_BLOCK: usize = 128;

/// Fewest columns a weighted-sum block covers.
pub const MIN_COLUMN_BLOCK: usize = 16;

/// A quotient, rounded up.
pub open spec fn ceil(a: int, b: int) -> int {
    if a % b == 0 {
        a / b
    } else {
        a / b + 1
    }
}

/// How many parts a plane is cut into so that all planes keep the cores busy
/// twice over.
pub open spec fn parts_of(planes: int, threads: int) -> int {
    let p = if planes > 1 {
        planes
    } else {
        1
    };
    if ceil(2 * threads, p) > 1 {
        ceil(2 * threads, p)
    } else {
        1
    }
}

/// A share of the total, rounded up to whole grains.
pub open spec fn rounded_share(total: int, planes: int, threads: int, grain: int) -> int {
    ceil(ceil(total, parts_of(planes, threads)), grain) * grain
}

/// How wide a block of `total` is so that `planes` of them keep `threads` cores
/// busy: at least a grain, and at most the total where that is a grain or more.
pub open spec fn split_of(total: int, planes: int, threads: int, grain: int) -> int {
    let most = if total > grain {
        total
    } else {
        grain
    };
    let share = rounded_share(total, planes, threads, grain);
    if share < grain {
        grain
    } else if share > most {
        most
    } else {
        share
    }
}

/// A quotient, rounded up.
fn div_ceil(a: usize, b: usize) -> (q: usize)
    requires
        b > 0,
    ensures
        q == ceil(a as int, b as int),
        q <= a,
{
    proof {
        lemma_fundamental_div_mod(a as int, b as int);
        let q = a as int / b as int;
        assert(q <= a && (a as int % b as int != 0 ==> q + 1 <= a)) by (nonlinear_arith)
            requires
                a as int == b as int * q + a as int % b as int,
                b > 0,
                0 <= a as int % b as int,
                q >= 0,
        ;
    }
    if a % b == 0 {
        a / b
    } else {
        a / b + 1
    }
}

/// How wide a block of `total` should be so that `planes` of them keep
/// `threads` cores busy, never finer than `grain`.
pub fn split(total: usize, planes: usize, threads: usize, grain: usize) -> (block: usize)
    requires
        grain > 0,
        2 * threads <= usize::MAX,
        rounded_share(total as int, planes as int, threads as int, grain as int) <= usize::MAX,
    ensures
        block == split_of(total as int, planes as int, threads as int, grain as int),
        block >= grain,
{
    let p: usize = if planes > 1 {
        planes
    } else {
        1
    };
    let wanted: usize = div_ceil(2 * threads, p);
    let parts: usize = if wanted > 1 {
        wanted
    } else {
        1
    };
    let share: usize = div_ceil(div_ceil(total, parts), grain) * grain;
    let most: usize = if total > grain {
        total
    } else {
        grain
    };
    if share < grain {
        grain
    } else if share > most {
        most
    } else {
        share
    }
}

/// What one scan is over: a pass of `seq` rows against `existing` cached
/// positions, in a checkpoint's head geometry.
#[derive(Debug, Clone, Copy, PartialEq, Eq, Structural)]
pub struct ScanShape {
    pub seq: usize,
    pub existing: usize,
    pub query_heads: usize,
    pub kv_heads: usize,
    pub head_dim: usize,
}

/// Which of the two scans a pass takes.
#[derive(Debug, Clone, Copy, PartialEq, Eq, Structural)]
pub enum ScanPlan {
    /// One work item per token and query head, each walking the whole cache for
    /// its own key/value head.
    PerHead,
    /// One work item per token and key/value head, reading each cache row once
    /// for the whole group.
    Blocked,
}

impl ScanShape {
    /// Query heads per key/value head.
    pub open spec fn group(&self) -> int {
        self.query_heads as int / self.kv_heads as int
    }

    /// Bytes of key and value that the cache holds once it is appended to.
    pub open spec fn bytes(&self) -> int {
        (self.existing + self.seq) * self.kv_heads * self.head_dim * 2 * 4
    }

    /// Whether a cache row is shared by so many query heads that blocking can
    /// pay.
    pub open spec fn shared(&self) -> bool {
        1 < self.group() <= MAX_GROUP
    }

    /// Query heads per key/value head: the width of the block a scan reads for.
    pub fn groups(&self) -> (groups: usize)
        requires
            self.kv_heads > 0,
        ensures
            groups == self.group(),
    {
        self.query_heads / self.kv_heads
    }

    /// Bytes of key and value this scan's cache holds once it is appended to.
    pub fn cache_bytes(&self) -> (bytes: usize)
        requires
            self.bytes() <= usize::MAX,
            self.existing + self.seq <= usize::MAX,
            self.kv_heads > 0,
            self.head_dim > 0,
        ensures
            bytes == self.bytes(),
    {
        let rows: usize = self.existing + self.seq;
        proof {
            let r = rows as int;
            let k = self.kv_heads as int;
            let d = self.head_dim as int;
            assert(0 <= r * k <= r * k * d && r * k * d <= r * k * d * 2 && r * k * d * 2 <= r * k
                * d * 2 * 4) by (nonlinear_arith)
                requires
                    r >= 0,
                    k > 0,
                    d > 0,
            ;
        }
        rows * self.kv_heads * self.head_dim * 2 * 4
    }

    /// Which scan this shape should take.
    pub fn plan(&self) -> (plan: ScanPlan)
        requires
            self.kv_heads > 0,
            self.shared() ==> self.bytes() <= usize::MAX && self.existing + self.seq <= usize::MAX
                && self.head_dim > 0,
        ensures
            plan == if self.shared() && self.bytes() >= KV_BLOCKING_BYTES {
                ScanPlan::Blocked
            } else {
                ScanPlan::PerHead
            },
    {
        let groups: usize = self.groups();
        if groups > 1 && groups <= MAX_GROUP && self.cache_bytes() >= KV_BLOCKING_BYTES {
            ScanPlan::Blocked
        } else {
            ScanPlan::PerHead
        }
    }
}

/// The running sum of one lane over the first `blocks` blocks of products.
pub open spec fn lane_total<T, A: Arithmetic<T>>(
    math: A,
    q: Seq<T>,
    k: Seq<T>,
    lane: int,
    blocks: int,
) -> T
    decreases blocks,
{
    if blocks <= 0 {
        math.zero_of()
    } else {
        let at = (blocks - 1) * DOT_LANES + lane;
        math.sum(lane_total(math, q, k, lane, blocks - 1), math.product(q[at], k[at]))
    }
}

/// The sum of `n` products from a place on.
pub open spec fn tail_total<T, A: Arithmetic<T>>(
    math: A,
    q: Seq<T>,
    k: Seq<T>,
    from: int,
    n: int,
) -> T
    decreases n,
{
    if n <= 0 {
        math.empty_of()
    } else {
        let at = from + n - 1;
        math.sum(tail_total(math, q, k, from, n - 1), math.product(q[at], k[at]))
    }
}

/// The products behind the last whole block, and then the first `lanes` lanes.
pub open spec fn folded<T, A: Arithmetic<T>>(
    math: A,
    q: Seq<T>,
    k: Seq<T>,
    lanes: int,
) -> T
    decreases lanes,
{
    let blocks = q.len() as int / DOT_LANES as int;
    if lanes <= 0 {
        tail_total(math, q, k, blocks * DOT_LANES, q.len() - blocks * DOT_LANES)
    } else {
        math.sum(folded(math, q, k, lanes - 1), lane_total(math, q, k, lanes - 1, blocks))
    }
}

/// The score of one key against one query: independent lanes, which are added
/// to the sum of what is left over in their order.
pub open spec fn dot_of<T, A: Arithmetic<T>>(math: A, q: Seq<T>, k: Seq<T>) -> T {
    folded(math, q, k, DOT_LANES as int)
}

/// The score of one key against one query.
///
/// The order of the operations is fixed and does not depend on the thread or on
/// how many rows a pass evaluates, which is what keeps every path that has to
/// agree with another one agreeing.
pub fn dot<T: Copy, A: Arithmetic<T>>(math: &A, query: &[T], key: &[T]) -> (total: T)
    requires
        query@.len() == key@.len(),
    ensures
        total == dot_of(*math, query@, key@),
{
    let n: usize = query.len();
    let blocks: usize = n / DOT_LANES;
    let mut lanes: Vec<T> = filled(math.zero(), DOT_LANES);
    let mut block: usize = 0;
    while block < blocks
        invariant
            n == query@.len() == key@.len(),
            blocks == n / DOT_LANES,
            block <= blocks,
            lanes@.len() == DOT_LANES,
            forall|l: int|
                0 <= l < DOT_LANES ==> #[trigger] lanes@[l] == lane_total(
                    *math,
                    query@,
                    key@,
                    l,
                    block as int,
                ),
        decreases blocks - block,
    {
        let mut lane: usize = 0;
        while lane < DOT_LANES
            invariant
                n == query@.len() == key@.len(),
                blocks == n / DOT_LANES,
                block < blocks,
                lane <= DOT_LANES,
                lanes@.len() == DOT_LANES,
                forall|l: int|
                    0 <= l < DOT_LANES ==> #[trigger] lanes@[l] == lane_total(
                        *math,
                        query@,
                        key@,
                        l,
                        if l < lane {
                            block + 1
                        } else {
                            block as int
                        },
                    ),
            decreases DOT_LANES - lane,
        {
            let at: usize = block * DOT_LANES + lane;
            lanes.set(lane, math.plus(lanes[lane], math.times(query[at], key[at])));
            lane += 1;
        }
        block += 1;
    }
    let from: usize = blocks * DOT_LANES;
    let mut total: T = math.empty_sum();
    let mut at: usize = from;
    while at < n
        invariant
            n == query@.len() == key@.len(),
            from <= at <= n,
            total == tail_total(*math, query@, key@, from as int, at - from),
        decreases n - at,
    {
        total = math.plus(total, math.times(query[at], key[at]));
        at += 1;
    }
    let mut lane: usize = 0;
    while lane < DOT_LANES
        invariant
            n == query@.len(),
            blocks == n / DOT_LANES,
            lane <= DOT_LANES,
            lanes@.len() == DOT_LANES,
            forall|l: int|
                0 <= l < DOT_LANES ==> #[trigger] lanes@[l] == lane_total(
                    *math,
                    query@,
                    key@,
                    l,
                    blocks as int,
                ),
            total == folded(*math, query@, key@, lane as int),
        decreases DOT_LANES - lane,
    {
        total = math.plus(total, lanes[lane]);
        lane += 1;
    }
    total
}

/// The logistic function.
pub open spec fn sigmoid_of<T, A: Arithmetic<T>>(math: A, v: T) -> T {
    math.quotient(math.one_of(), math.sum(math.one_of(), math.exponential(math.negative(v))))
}

/// The logistic function.
pub fn sigmoid<T: Copy, A: Arithmetic<T>>(math: &A, value: T) -> (r: T)
    ensures
        r == sigmoid_of(*math, value),
{
    math.over(math.one(), math.plus(math.one(), math.exp(math.neg(value))))
}

/// Where a row of a cache starts.
pub open spec fn row_start(kv_heads: int, head_dim: int, past: int, kv_head: int) -> int {
    (past * kv_heads + kv_head) * head_dim
}

/// A row of a cache.
pub open spec fn cache_row<T>(
    cache: Seq<T>,
    kv_heads: int,
    head_dim: int,
    past: int,
    kv_head: int,
) -> Seq<T> {
    let start = row_start(kv_heads, head_dim, past, kv_head);
    cache.subrange(start, start + head_dim)
}

/// The score of a query against one position.
pub open spec fn score_of<T, A: Arithmetic<T>>(
    math: A,
    shape: ScanShape,
    scale: T,
    q: Seq<T>,
    keys: Seq<T>,
    kv_head: int,
    past: int,
) -> T {
    math.product(
        dot_of(
            math,
            q,
            cache_row(keys, shape.kv_heads as int, shape.head_dim as int, past, kv_head),
        ),
        scale,
    )
}

/// The scores of a query against the first `n` positions.
pub open spec fn scores_of<T, A: Arithmetic<T>>(
    math: A,
    shape: ScanShape,
    scale: T,
    q: Seq<T>,
    keys: Seq<T>,
    kv_head: int,
    n: nat,
) -> Seq<T> {
    Seq::new(n, |past: int| score_of(math, shape, scale, q, keys, kv_head, past))
}

/// The largest of the first `n` numbers.
pub open spec fn peak_of<T, A: Arithmetic<T>>(math: A, s: Seq<T>, n: int) -> T
    decreases n,
{
    if n <= 0 {
        math.lowest_of()
    } else {
        math.larger(peak_of(math, s, n - 1), s[n - 1])
    }
}

/// The sum of the first `n` numbers.
pub open spec fn total_of<T, A: Arithmetic<T>>(math: A, s: Seq<T>, n: int) -> T
    decreases n,
{
    if n <= 0 {
        math.zero_of()
    } else {
        math.sum(total_of(math, s, n - 1), s[n - 1])
    }
}

/// The exponentials of scores, each taken below the largest score.
pub open spec fn weights_of<T, A: Arithmetic<T>>(math: A, s: Seq<T>) -> Seq<T> {
    Seq::new(
        s.len(),
        |p: int| math.exponential(math.difference(s[p], peak_of(math, s, s.len() as int))),
    )
}

/// The softmax of scores.
pub open spec fn probabilities_of<T, A: Arithmetic<T>>(math: A, s: Seq<T>) -> Seq<T> {
    let w = weights_of(math, s);
    Seq::new(s.len(), |p: int| math.quotient(w[p], total_of(math, w, s.len() as int)))
}

/// One column of the values of the first `n` positions, weighted.
pub open spec fn mix_of<T, A: Arithmetic<T>>(
    math: A,
    shape: ScanShape,
    p: Seq<T>,
    values: Seq<T>,
    kv_head: int,
    column: int,
    n: int,
) -> T
    decreases n,
{
    if n <= 0 {
        math.zero_of()
    } else {
        let at = row_start(shape.kv_heads as int, shape.head_dim as int, n - 1, kv_head) + column;
        math.sum(
            mix_of(math, shape, p, values, kv_head, column, n - 1),
            math.product(p[n - 1], values[at]),
        )
    }
}

/// One number that a scan computes: the values of the first `n` positions,
/// weighted by the softmax of the scores, and gated.
pub open spec fn attended<T, A: Arithmetic<T>>(
    math: A,
    shape: ScanShape,
    scale: T,
    q: Seq<T>,
    gate: Seq<T>,
    keys: Seq<T>,
    values: Seq<T>,
    kv_head: int,
    n: nat,
    column: int,
) -> T {
    let p = probabilities_of(math, scores_of(math, shape, scale, q, keys, kv_head, n));
    math.product(
        mix_of(math, shape, p, values, kv_head, column, n as int),
        sigmoid_of(math, gate[column]),
    )
}

/// What a scan computes for a token, a head and a column: the head attends to
/// every position up to and with the token's own.
pub open spec fn scanned<T, A: Arithmetic<T>>(
    math: A,
    shape: ScanShape,
    scale: T,
    queries: Seq<Vec<Vec<T>>>,
    gates: Seq<Vec<Vec<T>>>,
    keys: Seq<T>,
    values: Seq<T>,
    token: int,
    head: int,
    column: int,
) -> T {
    attended(
        math,
        shape,
        scale,
        queries[token]@[head]@,
        gates[token]@[head]@,
        keys,
        values,
        head / shape.group(),
        (shape.existing + token + 1) as nat,
        column,
    )
}

/// What a scan computes: token after token, head after head, column after
/// column.
pub open spec fn scan_of<T, A: Arithmetic<T>>(
    math: A,
    shape: ScanShape,
    scale: T,
    queries: Seq<Vec<Vec<T>>>,
    gates: Seq<Vec<Vec<T>>>,
    keys: Seq<T>,
    values: Seq<T>,
    tokens: int,
) -> Seq<T> {
    let dim = shape.head_dim as int;
    let heads = shape.query_heads as int;
    Seq::new(
        (tokens * heads * dim) as nat,
        |i: int|
            scanned(
                math,
                shape,
                scale,
                queries,
                gates,
                keys,
                values,
                i / dim / heads,
                i / dim % heads,
                i % dim,
            ),
    )
}

/// Whether numbers are the first that a scan computes.
pub open spec fn is_prefix<T, A: Arithmetic<T>>(
    out: Seq<T>,
    math: A,
    shape: ScanShape,
    scale: T,
    queries: Seq<Vec<Vec<T>>>,
    gates: Seq<Vec<Vec<T>>>,
    keys: Seq<T>,
    values: Seq<T>,
) -> bool {
    let dim = shape.head_dim as int;
    let heads = shape.query_heads as int;
    forall|i: int|
        0 <= i < out.len() ==> #[trigger] out[i] == scanned(
            math,
            shape,
            scale,
            queries,
            gates,
            keys,
            values,
            i / dim / heads,
            i / dim % heads,
            i % dim,
        )
}

/// Whether rows have the given numbers of tokens, heads and columns.
pub open spec fn has_rows<T>(rows: Seq<Vec<Vec<T>>>, tokens: int, heads: int, columns: int) -> bool {
    &&& rows.len() == tokens
    &&& forall|t: int| 0 <= t < tokens ==> (#[trigger] rows[t])@.len() == heads
    &&& forall|t: int, h: int|
        0 <= t < tokens && 0 <= h < heads ==> (#[trigger] rows[t]@[h])@.len() == columns
}

/// Whether a scan's operands have the shape's dimensions: the query heads
/// divide evenly among the key/value heads, and the cache holds every position.
pub open spec fn scannable<T>(
    shape: ScanShape,
    queries: Seq<Vec<Vec<T>>>,
    gates: Seq<Vec<Vec<T>>>,
    keys: Seq<T>,
    values: Seq<T>,
) -> bool {
    &&& shape.kv_heads > 0
    &&& shape.head_dim > 0
    &&& shape.group() > 0
    &&& shape.query_heads == shape.group() * shape.kv_heads
    &&& shape.existing + shape.seq < usize::MAX
    &&& has_rows(queries, shape.seq as int, shape.query_heads as int, shape.head_dim as int)
    &&& has_rows(gates, shape.seq as int, shape.query_heads as int, shape.head_dim as int)
    &&& keys.len() >= (shape.existing + shape.seq) * shape.kv_heads * shape.head_dim
    &&& values.len() >= (shape.existing + shape.seq) * shape.kv_heads * shape.head_dim
    &&& keys.len() <= usize::MAX
    &&& values.len() <= usize::MAX
    &&& shape.seq * shape.query_heads * shape.head_dim <= usize::MAX
}

/// A row of a cache lies inside it.
pub proof fn lemma_row_inside(positions: int, kv_heads: int, head_dim: int, past: int, kv_head: int)
    requires
        0 <= past < positions,
        0 <= kv_head < kv_heads,
        0 < head_dim,
    ensures
        0 <= past * kv_heads,
        0 <= past * kv_heads + kv_head <= row_start(kv_heads, head_dim, past, kv_head),
        row_start(kv_heads, head_dim, past, kv_head) + head_dim <= positions * kv_heads * head_dim,
{
    let r = past * kv_heads + kv_head;
    assert(0 <= past * kv_heads && past * kv_heads + kv_heads <= positions * kv_heads)
        by (nonlinear_arith)
        requires
            0 <= past < positions,
            0 < kv_heads,
    ;
    assert(r <= r * head_dim && r * head_dim + head_dim <= positions * kv_heads * head_dim)
        by (nonlinear_arith)
        requires
            0 <= r,
            r + 1 <= positions * kv_heads,
            0 < head_dim,
    ;
}

/// A place in a grid of rows leads back to its row and column.
pub proof fn lemma_cell(row: int, width: int, column: int)
    requires
        0 <= column < width,
    ensures
        (row * width + column) / width == row,
        (row * width + column) % width == column,
{
    lemma_fundamental_div_mod_converse(row * width + column, width, row, column);
}

/// A place in a grid of rows lies inside it.
pub proof fn lemma_cell_inside(rows: int, width: int, row: int, column: int)
    requires
        0 <= row < rows,
        0 <= column < width,
    ensures
        0 <= row * width,
        0 <= row * width + column < rows * width,
{
    assert(0 <= row * width && row * width + width <= rows * width) by (nonlinear_arith)
        requires
            0 <= row < rows,
            0 < width,
    ;
}

/// A head's group is one of the key/value heads.
pub proof fn lemma_group(shape: ScanShape, head: int)
    requires
        shape.kv_heads > 0,
        shape.group() > 0,
        shape.query_heads == shape.group() * shape.kv_heads,
        0 <= head < shape.query_heads,
    ensures
        0 <= head / shape.group() < shape.kv_heads,
{
    let g = shape.group();
    let k = shape.kv_heads as int;
    lemma_fundamental_div_mod(head, g);
    let q = head / g;
    assert(0 <= q < k) by (nonlinear_arith)
        requires
            head == g * q + head % g,
            0 <= head % g < g,
            0 <= head < g * k,
            0 < g,
    ;
}

/// The key row of one position.
pub fn key_row<'a, T>(shape: &ScanShape, keys: &'a [T], kv_head: usize, past: usize) -> (row: &'a [T])
    requires
        kv_head < shape.kv_heads,
        shape.head_dim > 0,
        past < usize::MAX,
        keys@.len() >= (past + 1) * shape.kv_heads * shape.head_dim,
    ensures
        row@ == cache_row(
            keys@,
            shape.kv_heads as int,
            shape.head_dim as int,
            past as int,
            kv_head as int,
        ),
        row@.len() == shape.head_dim,
{
    let n: usize = keys.len();
    proof {
        lemma_row_inside(
            past + 1,
            shape.kv_heads as int,
            shape.head_dim as int,
            past as int,
            kv_head as int,
        );
    }
    let base: usize = (past * shape.kv_heads + kv_head) * shape.head_dim;
    vstd::slice::slice_subrange(keys, base, base + shape.head_dim)
}

/// A cache that holds some positions holds fewer.
pub proof fn lemma_fewer_positions(shape: ScanShape, more: int, fewer: int)
    requires
        0 <= fewer <= more,
    ensures
        fewer * shape.kv_heads * shape.head_dim <= more * shape.kv_heads * shape.head_dim,
{
    let k = shape.kv_heads as int;
    let d = shape.head_dim as int;
    assert(fewer * k * d <= more * k * d) by (nonlinear_arith)
        requires
            0 <= fewer <= more,
            0 <= k,
            0 <= d,
    ;
}

/// What the phases of a scan took, in nanoseconds.
#[derive(Debug, Clone, Copy, PartialEq, Eq, Structural)]
pub struct ScanTimes {
    pub scores: u64,
    pub softmax: u64,
    pub weighted_sum: u64,
}

} // verus!
