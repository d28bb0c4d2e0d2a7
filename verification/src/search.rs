//! Vector search over indexed chunks (linear scan).
use vstd::pervasive::unreached;
use vstd::prelude::*;
use vstd::set_lib::lemma_int_range;
use vstd::set_lib::lemma_subset_equality;
use vstd::set_lib::set_int_range;

use crate::binary32::greater;
use crate::binary32::is_greater;
use crate::binary32::is_nan;
use crate::binary32::numbers_compare_by_their_bits;
use crate::binary32::ZERO;
use crate::db::chunk_statement;
use crate::db::embedding_statement;
use crate::db::joined_row;
use crate::db::loaded;
use crate::db::written_chunks_are_loaded;
use crate::db::ChunkRow;
use crate::db::ChunkRowView;
use crate::db::StoredRowView;
use crate::embed::comparable;
use crate::embed::vectors_comparable;
use crate::text::decimal;
use crate::text::decimal_text;
use crate::text::joined;
use crate::text::outcome;
use crate::text::unit_outcome;
use crate::QueryRequest;
use crate::QueryResponse;
use crate::QueryResponseView;
use crate::RagHit;
use crate::RagHitView;

verus! {

/// Whether comparing the scores makes an order of them: all are numbers, or none is larger than
/// another.
pub open spec fn orderly(scores: Seq<u32>) -> bool {
    ||| forall|i: int| 0 <= i < scores.len() ==> !is_nan(#[trigger] scores[i])
    ||| forall|i: int, j: int|
        0 <= i < scores.len() && 0 <= j < scores.len() ==> !greater(
            #[trigger] scores[i],
            #[trigger] scores[j],
        )
}

/// Scores are orderly exactly where all are numbers, however many there are, or where none of them
/// is larger than another.
pub proof fn numbers_are_orderly(scores: Seq<u32>)
    ensures
        (forall|i: int| 0 <= i < scores.len() ==> #[trigger] scores[i] as int % 0x8000_0000
            <= 0x7f80_0000) ==> orderly(scores),
        (forall|i: int, j: int|
            0 <= i < scores.len() && 0 <= j < scores.len() ==> !greater(
                #[trigger] scores[i],
                #[trigger] scores[j],
            )) ==> orderly(scores),
        orderly(scores) ==> (forall|i: int|
            0 <= i < scores.len() ==> !is_nan(#[trigger] scores[i])) || (forall|i: int, j: int|
            0 <= i < scores.len() && 0 <= j < scores.len() ==> !greater(
                #[trigger] scores[i],
                #[trigger] scores[j],
            )),
{
    if forall|i: int| 0 <= i < scores.len() ==> #[trigger] scores[i] as int % 0x8000_0000
        <= 0x7f80_0000 {
        assert forall|i: int| 0 <= i < scores.len() implies !is_nan(#[trigger] scores[i]) by {
            numbers_compare_by_their_bits(scores[i], scores[i]);
        }
    }
}

/// Whether index `i` ranks before index `j`: its score is larger, or no smaller and it stands
/// first.
pub open spec fn precedes(scores: Seq<u32>, i: int, j: int) -> bool {
    greater(scores[i], scores[j]) || (!greater(scores[j], scores[i]) && i < j)
}

/// Whether `order` lists `index`.
pub open spec fn lists(order: Seq<usize>, index: int) -> bool {
    exists|k: int| 0 <= k < order.len() && #[trigger] order[k] == index
}

/// Whether `order` lists the indices of the `count` best of the first `n` scores, best first.
///
/// Where the scores are not orderly there is no best: `order` then lists as many indices, none of
/// them twice.
pub open spec fn selects_among(scores: Seq<u32>, n: int, count: nat, order: Seq<usize>) -> bool {
    &&& order.len() == if count < n {
        count as int
    } else {
        n
    }
    &&& forall|k: int| 0 <= k < order.len() ==> 0 <= #[trigger] order[k] < n
    &&& order.no_duplicates()
    &&& orderly(scores) ==> {
        &&& forall|k: int, m: int|
            0 <= k < m < order.len() ==> precedes(
                scores,
                #[trigger] order[k] as int,
                #[trigger] order[m] as int,
            )
        &&& forall|k: int, i: int|
            #![trigger order[k], scores[i]]
            0 <= k < order.len() && 0 <= i < n && !lists(order, i) ==> precedes(
                scores,
                order[k] as int,
                i,
            )
    }
}

/// Whether `order` lists the indices of the `count` best scores, best first.
pub open spec fn selects(scores: Seq<u32>, count: nat, order: Seq<usize>) -> bool {
    selects_among(scores, scores.len() as int, count, order)
}

/// The indices of the `count` best scores, best first; of equal scores the first stands first.
///
/// Where the scores are not orderly, which indices come and in what order is left open.
pub fn select(scores: &Vec<u32>, count: usize) -> (order: Vec<usize>)
    ensures
        selects(scores@, count as nat, order@),
{
    let mut order: Vec<usize> = Vec::new();
    for i in 0..scores.len()
        invariant
            selects_among(scores@, i as int, count as nat, order@),
    {
        let mut at: usize = order.len();
        while at > 0 && is_greater(scores[i], scores[order[at - 1]])
            invariant
                i < scores.len(),
                at <= order.len(),
                selects_among(scores@, i as int, count as nat, order@),
                forall|k: int|
                    at <= k < order.len() ==> greater(
                        scores@[i as int],
                        scores@[#[trigger] order@[k] as int],
                    ),
            decreases at,
        {
            at = at - 1;
        }
        let ghost before = order@;
        order.insert(at, i);
        let ghost longer = order@;
        if order.len() > count {
            order.pop();
        }
        proof {
            lemma_selects_next(scores@, i as int, count as nat, before, at as int, longer, order@);
        }
    }
    order
}

/// Orderly scores rank transitively.
proof fn lemma_precedes_transitive(scores: Seq<u32>, i: int, j: int, k: int)
    requires
        orderly(scores),
        0 <= i < scores.len(),
        0 <= j < scores.len(),
        0 <= k < scores.len(),
        precedes(scores, i, j),
        precedes(scores, j, k),
    ensures
        precedes(scores, i, k),
{
}

proof fn lemma_selects_next(
    scores: Seq<u32>,
    i: int,
    count: nat,
    before: Seq<usize>,
    at: int,
    longer: Seq<usize>,
    order: Seq<usize>,
)
    requires
        selects_among(scores, i, count, before),
        i < scores.len() <= usize::MAX,
        0 <= at <= before.len(),
        forall|k: int|
            at <= k < before.len() ==> greater(scores[i], scores[#[trigger] before[k] as int]),
        at > 0 ==> !greater(scores[i], scores[before[at - 1] as int]),
        longer == before.insert(at, i as usize),
        order == if longer.len() > count {
            longer.drop_last()
        } else {
            longer
        },
    ensures
        selects_among(scores, i + 1, count, order),
{
    assert forall|k: int| 0 <= k < longer.len() implies longer[k] == (if k < at {
        before[k]
    } else if k == at {
        i as usize
    } else {
        before[k - 1]
    }) by {}
    assert(longer.no_duplicates());
    assert(order.no_duplicates());
    if orderly(scores) {
        // Everything in front of the new index ranks before it.
        assert forall|k: int| 0 <= k < at implies precedes(
            scores,
            #[trigger] before[k] as int,
            i,
        ) by {
            let last = before[at - 1] as int;
            assert(precedes(scores, last, i));
            if k < at - 1 {
                lemma_precedes_transitive(scores, before[k] as int, last, i);
            }
        }
        assert forall|k: int, m: int| 0 <= k < m < longer.len() implies precedes(
            scores,
            #[trigger] longer[k] as int,
            #[trigger] longer[m] as int,
        ) by {}
        assert forall|k: int, j: int|
            #![trigger order[k], scores[j]]
            0 <= k < order.len() && 0 <= j < i + 1 && !lists(order, j) implies precedes(
            scores,
            order[k] as int,
            j,
        ) by {
            if lists(longer, j) {
                let m = choose|m: int| 0 <= m < longer.len() && #[trigger] longer[m] == j;
                assert(m == longer.len() - 1) by {
                    if m < order.len() {
                        assert(order[m] == j);
                    }
                }
                assert(precedes(scores, longer[k] as int, longer[m] as int));
            } else {
                assert(longer[at] == i);
                assert(!lists(before, j)) by {
                    if lists(before, j) {
                        let m = choose|m: int| 0 <= m < before.len() && #[trigger] before[m] == j;
                        if m < at {
                            assert(longer[m] == j);
                        } else {
                            assert(longer[m + 1] == j);
                        }
                    }
                }
                // An index was left out before, so the selection is full and drops its last.
                assert(before.len() == count) by {
                    if before.len() == i {
                        lemma_full(before, i);
                        assert(lists(before, j));
                    }
                }
                assert(longer[k] == order[k]);
                if k < at {
                    assert(precedes(scores, before[k] as int, j));
                } else if k == at {
                    // The new index is kept, so it pushed out one that ranks before `j`.
                    let out = before[before.len() - 1] as int;
                    assert(precedes(scores, i, out));
                    assert(precedes(scores, out, j));
                    lemma_precedes_transitive(scores, i, out, j);
                } else {
                    assert(precedes(scores, before[k - 1] as int, j));
                }
            }
        }
    }
}

/// As many different indices below `n` as there are below `n` are all of them.
proof fn lemma_full(order: Seq<usize>, n: int)
    requires
        order.len() == n,
        order.no_duplicates(),
        forall|k: int| 0 <= k < order.len() ==> 0 <= #[trigger] order[k] < n,
    ensures
        forall|j: int| 0 <= j < n ==> #[trigger] lists(order, j),
{
    let indices = order.map_values(|index: usize| index as int);
    assert(indices.no_duplicates());
    indices.unique_seq_to_set();
    lemma_int_range(0, n);
    lemma_subset_equality(indices.to_set(), set_int_range(0, n));
    assert forall|j: int| 0 <= j < n implies #[trigger] lists(order, j) by {
        assert(set_int_range(0, n).contains(j));
        let k = choose|k: int| 0 <= k < indices.len() && indices[k] == j;
        assert(order[k] == j);
    }
}

/// A selection lists as many indices as asked for, or all, and none twice. Of orderly scores it
/// lists the larger first and of scores that are alike the one that stands first; none that it
/// leaves out is larger than one that it lists, and one that is as large stands later.
pub proof fn selection_is_a_stable_ranking(scores: Seq<u32>, count: nat, order: Seq<usize>)
    requires
        selects(scores, count, order),
    ensures
        order.len() <= count,
        order.len() <= scores.len(),
        order.len() == count || order.len() == scores.len(),
        forall|k: int| 0 <= k < order.len() ==> #[trigger] order[k] < scores.len(),
        forall|k: int, m: int|
            0 <= k < m < order.len() ==> #[trigger] order[k] != #[trigger] order[m],
        orderly(scores) ==> forall|k: int, m: int|
            #![trigger order[k], order[m]]
            0 <= k < m < order.len() ==> {
                let (one, other) = (order[k] as int, order[m] as int);
                &&& !greater(scores[other], scores[one])
                &&& !greater(scores[one], scores[other]) ==> one < other
            },
        orderly(scores) ==> forall|k: int, i: int|
            #![trigger order[k], scores[i]]
            0 <= k < order.len() && 0 <= i < scores.len() && (forall|m: int|
                0 <= m < order.len() ==> #[trigger] order[m] != i) ==> {
                let one = order[k] as int;
                &&& !greater(scores[i], scores[one])
                &&& !greater(scores[one], scores[i]) ==> one < i
            },
{
    if orderly(scores) {
        assert forall|k: int, m: int|
            #![trigger order[k], order[m]]
            0 <= k < m < order.len() implies {
            let (one, other) = (order[k] as int, order[m] as int);
            &&& !greater(scores[other], scores[one])
            &&& !greater(scores[one], scores[other]) ==> one < other
        } by {
            assert(precedes(scores, order[k] as int, order[m] as int));
        }
        assert forall|k: int, i: int|
            #![trigger order[k], scores[i]]
            0 <= k < order.len() && 0 <= i < scores.len() && (forall|m: int|
                0 <= m < order.len() ==> #[trigger] order[m] != i) implies {
            let one = order[k] as int;
            &&& !greater(scores[i], scores[one])
            &&& !greater(scores[one], scores[i]) ==> one < i
        } by {
            assert(!lists(order, i));
            assert(precedes(scores, order[k] as int, i));
        }
    }
}

/// The selection is one: what `selects` leaves open is nothing, for orderly scores.
pub proof fn selection_is_unique(scores: Seq<u32>, count: nat, one: Seq<usize>, other: Seq<usize>)
    requires
        orderly(scores),
        selects(scores, count, one),
        selects(scores, count, other),
    ensures
        one == other,
{
    lemma_prefix_agrees(scores, count, one, count, other, one.len() as int);
    assert(one =~= other);
}

/// Asking for more only adds hits at the end: the selection of fewer is the beginning of the
/// selection of more, for orderly scores.
pub proof fn selection_extends(
    scores: Seq<u32>,
    fewer: nat,
    few: Seq<usize>,
    more: nat,
    many: Seq<usize>,
)
    requires
        orderly(scores),
        fewer <= more,
        selects(scores, fewer, few),
        selects(scores, more, many),
    ensures
        few == many.take(few.len() as int),
{
    lemma_prefix_agrees(scores, fewer, few, more, many, few.len() as int);
    assert(few =~= many.take(few.len() as int));
}

proof fn lemma_prefix_agrees(
    scores: Seq<u32>,
    fewer: nat,
    few: Seq<usize>,
    more: nat,
    many: Seq<usize>,
    n: int,
)
    requires
        orderly(scores),
        fewer <= more,
        selects(scores, fewer, few),
        selects(scores, more, many),
        0 <= n <= few.len(),
    ensures
        few.len() <= many.len(),
        forall|k: int| 0 <= k < n ==> #[trigger] few[k] == many[k],
    decreases n,
{
    if n > 0 {
        let k = n - 1;
        lemma_prefix_agrees(scores, fewer, few, more, many, k);
        if few[k] != many[k] {
            lemma_ranked_no_later(scores, fewer, few, many, k);
            lemma_ranked_no_later(scores, more, many, few, k);
        }
    }
}

/// Where two lists agree up to `k`, a selection has at `k` nothing that ranks after what the other
/// list has there.
proof fn lemma_ranked_no_later(
    scores: Seq<u32>,
    count: nat,
    order: Seq<usize>,
    other: Seq<usize>,
    k: int,
)
    requires
        orderly(scores),
        selects(scores, count, order),
        other.no_duplicates(),
        0 <= k < order.len(),
        k < other.len(),
        other[k] < scores.len(),
        forall|m: int| 0 <= m < k ==> #[trigger] order[m] == other[m],
        order[k] != other[k],
    ensures
        precedes(scores, order[k] as int, other[k] as int),
{
    let j = other[k] as int;
    if lists(order, j) {
        let m = choose|m: int| 0 <= m < order.len() && #[trigger] order[m] == j;
        assert(m > k);
    } else {
        assert(scores[j] == scores[j]);
    }
}

/// The most hits that a query gets.
pub const MAX_HITS: u32 = 64;

/// The most characters of a chunk that a hit shows, not counting the mark of an ellipsis.
pub const SNIPPET_CHARS: usize = 480;

/// How many hits a request for `top_k` gets at most.
pub open spec fn hit_limit(top_k: u32) -> nat {
    if top_k < MAX_HITS {
        top_k as nat
    } else {
        MAX_HITS as nat
    }
}

/// A request gets as many hits as it asks for, but no more than sixty-four.
pub proof fn limit_is_what_is_asked_for_up_to_sixty_four(top_k: u32)
    ensures
        hit_limit(top_k) <= top_k,
        hit_limit(top_k) <= 64,
        hit_limit(top_k) == top_k || hit_limit(top_k) == 64,
{
}

/// How many hits a request for `top_k` gets at most.
pub(crate) fn limited(top_k: u32) -> (limit: u32)
    ensures
        limit == hit_limit(top_k),
{
    if top_k < MAX_HITS {
        top_k
    } else {
        MAX_HITS
    }
}

/// `text`, or its first `max_chars` characters and an ellipsis.
pub open spec fn snippet(text: Seq<char>, max_chars: nat) -> Seq<char> {
    if text.len() <= max_chars {
        text
    } else {
        text.take(max_chars as int).push('…')
    }
}

/// `s`, or its first `max_chars` characters and an ellipsis.
pub fn truncate_snippet(s: &str, max_chars: usize) -> (shown: String)
    ensures
        shown@ == snippet(s@, max_chars as nat),
{
    if s.unicode_len() <= max_chars {
        return s.to_string();
    }
    proof {
        reveal_strlit("…");
    }
    let shown = s.substring_char(0, max_chars).to_string().concat("…");
    assert(shown@ =~= snippet(s@, max_chars as nat));
    shown
}

/// A snippet is no longer than it may be, and begins as the text does.
pub proof fn snippet_is_bounded(text: Seq<char>, max_chars: nat)
    ensures
        snippet(text, max_chars).len() <= max_chars + 1,
        text.len() <= max_chars ==> snippet(text, max_chars) == text,
        text.len() > max_chars ==> {
            &&& snippet(text, max_chars).drop_last() == text.take(max_chars as int)
            &&& snippet(text, max_chars).last() == '…'
        },
{
    if text.len() > max_chars {
        assert(snippet(text, max_chars).drop_last() =~= text.take(max_chars as int));
    }
}

/// A snippet of a snippet is the snippet.
pub proof fn snippet_is_idempotent(text: Seq<char>, max_chars: nat)
    ensures
        snippet(snippet(text, max_chars), max_chars) == snippet(text, max_chars),
{
    let once = snippet(text, max_chars);
    if text.len() > max_chars {
        assert(once.take(max_chars as int) =~= text.take(max_chars as int));
    }
}

/// The phase of an answer without a database.
pub const PHASE_NO_DB: &'static str = "1-sqlite-no-db";

/// The phase of an answer from an index without chunks.
pub const PHASE_EMPTY: &'static str = "1-sqlite-empty";

/// The phase of an answer from a scan of the index.
pub const PHASE_SQLITE: &'static str = "1-sqlite";

/// The message for a query whose embedding did not come.
pub const NO_QUERY_EMBEDDING: &'static str = "no query embedding";

/// The score of each row, given the cosines between it and the query: zero where there is none.
pub open spec fn row_scores(
    query: Seq<u32>,
    rows: Seq<ChunkRowView>,
    cosines: Seq<u32>,
) -> Seq<u32> {
    Seq::new(
        rows.len(),
        |i: int|
            if comparable(query.len(), rows[i].vec.len()) {
                cosines[i]
            } else {
                ZERO
            },
    )
}

/// Every row whose vector is as long as the query, and not empty, is scored by its cosine, wherever
/// it stands and however many rows there are; every other row is scored zero.
pub proof fn every_row_is_scored_by_its_cosine(
    query: Seq<u32>,
    rows: Seq<ChunkRowView>,
    cosines: Seq<u32>,
)
    ensures
        row_scores(query, rows, cosines).len() == rows.len(),
        forall|i: int|
            #![trigger row_scores(query, rows, cosines)[i]]
            #![trigger rows[i]]
            0 <= i < rows.len() && query.len() == rows[i].vec.len() && query.len() > 0
                ==> row_scores(query, rows, cosines)[i] == cosines[i],
        forall|i: int|
            #![trigger row_scores(query, rows, cosines)[i]]
            #![trigger rows[i]]
            0 <= i < rows.len() && (query.len() != rows[i].vec.len() || query.len() == 0)
                ==> row_scores(query, rows, cosines)[i] == 0,
{
}

/// The hits for the rows that `order` lists.
pub open spec fn row_hits(
    rows: Seq<ChunkRowView>,
    scores: Seq<u32>,
    order: Seq<usize>,
) -> Seq<RagHitView> {
    order.map_values(
        |i: usize|
            RagHitView {
                path: rows[i as int].path,
                snippet: snippet(rows[i as int].text, SNIPPET_CHARS as nat),
                score: Some(scores[i as int]),
            },
    )
}

/// Whether `response` answers with the best rows of the index, best first.
pub open spec fn answers(
    query: Seq<u32>,
    rows: Seq<ChunkRowView>,
    cosines: Seq<u32>,
    top_k: u32,
    response: QueryResponseView,
) -> bool {
    &&& response.phase == PHASE_SQLITE@
    &&& exists|order: Seq<usize>|
        {
            &&& #[trigger] selects(row_scores(query, rows, cosines), hit_limit(top_k), order)
            &&& response.hits == row_hits(rows, row_scores(query, rows, cosines), order)
        }
}

/// Answers with the best rows of the index, given the cosines between each of them and the query.
pub fn rank_rows(
    query: &Vec<u32>,
    rows: &Vec<ChunkRow>,
    cosines: &Vec<u32>,
    top_k: u32,
) -> (response: QueryResponse)
    requires
        cosines@.len() == rows@.len(),
    ensures
        answers(query@, rows.deep_view(), cosines@, top_k, response.deep_view()),
{
    let ghost stored = rows.deep_view();
    let ghost ranked = row_scores(query@, stored, cosines@);
    let mut scores: Vec<u32> = Vec::new();
    for i in 0..rows.len()
        invariant
            stored == rows.deep_view(),
            cosines@.len() == rows@.len(),
            ranked == row_scores(query@, stored, cosines@),
            scores@ == ranked.take(i as int),
    {
        assert(stored[i as int] == rows@[i as int].deep_view());
        scores.push(
            if vectors_comparable(query.len(), rows[i].vec.len()) {
                cosines[i]
            } else {
                ZERO
            },
        );
        assert(scores@ =~= ranked.take(i + 1));
    }
    assert(ranked.take(rows@.len() as int) =~= ranked);
    let order = select(&scores, limited(top_k) as usize);
    let ghost listed = row_hits(stored, ranked, order@);
    let mut hits: Vec<RagHit> = Vec::new();
    for k in 0..order.len()
        invariant
            stored == rows.deep_view(),
            scores@ == ranked,
            ranked.len() == rows@.len(),
            selects(ranked, hit_limit(top_k), order@),
            listed == row_hits(stored, ranked, order@),
            hits.deep_view() == listed.take(k as int),
    {
        let i = order[k];
        let row = &rows[i];
        assert(stored[i as int] == row.deep_view());
        let ghost before = hits.deep_view();
        hits.push(
            RagHit {
                path: row.path.clone(),
                snippet: truncate_snippet(row.text.as_str(), SNIPPET_CHARS),
                score: Some(scores[i]),
            },
        );
        assert(hits.deep_view() =~= before.push(hits@.last().deep_view()));
        assert(hits.deep_view() =~= listed.take(k + 1));
    }
    assert(listed.take(order@.len() as int) =~= listed);
    QueryResponse { hits, phase: PHASE_SQLITE }
}

/// An answer has as many hits as there are rows, but no more than asked for and no more than the
/// most that a query gets.
pub proof fn answer_is_bounded(
    query: Seq<u32>,
    rows: Seq<ChunkRowView>,
    cosines: Seq<u32>,
    top_k: u32,
    response: QueryResponseView,
)
    requires
        answers(query, rows, cosines, top_k, response),
    ensures
        response.hits.len() == if hit_limit(top_k) < rows.len() {
            hit_limit(top_k)
        } else {
            rows.len()
        },
        response.hits.len() <= top_k,
        response.hits.len() <= MAX_HITS,
        rows.len() > 0 && top_k > 0 ==> response.hits.len() > 0,
{
}

/// An answer is the ranking of the rows by their cosines to the query.
///
/// Its hits are rows of the index, no row twice, as many as there are or as are asked for, up to
/// sixty-four. A hit has the path of its row, the row's text up to 480 characters, and the row's
/// cosine, or zero where the vectors are not equally long. Where the cosines are numbers, no hit has
/// a smaller score than a later one, no row left out has a larger one than a hit, and of equal rows
/// the first in the index comes first.
///
/// The result says which row each hit is.
pub proof fn answer_ranks_rows_by_their_cosines(
    query: Seq<u32>,
    rows: Seq<ChunkRowView>,
    cosines: Seq<u32>,
    top_k: u32,
    response: QueryResponseView,
) -> (order: Seq<int>)
    requires
        answers(query, rows, cosines, top_k, response),
    ensures
        response.phase == "1-sqlite"@,
        response.hits.len() == order.len(),
        order.len() <= rows.len() && order.len() <= top_k && order.len() <= 64,
        order.len() == rows.len() || order.len() == top_k || order.len() == 64,
        forall|k: int| 0 <= k < order.len() ==> 0 <= #[trigger] order[k] < rows.len(),
        order.no_duplicates(),
        forall|k: int|
            #![trigger response.hits[k]]
            0 <= k < order.len() ==> {
                let (hit, i) = (response.hits[k], order[k]);
                &&& hit.path == rows[i].path
                &&& rows[i].text.len() <= 480 ==> hit.snippet == rows[i].text
                &&& rows[i].text.len() > 480 ==> hit.snippet == rows[i].text.take(480) + seq!['…']
                &&& rows[i].vec.len() == query.len() && query.len() > 0 ==> hit.score == Some(
                    cosines[i],
                )
                &&& rows[i].vec.len() != query.len() || query.len() == 0 ==> hit.score == Some(
                    0u32,
                )
            },
        orderly(row_scores(query, rows, cosines)) || (forall|i: int|
            0 <= i < rows.len() ==> !is_nan(#[trigger] cosines[i])) ==> forall|k: int, m: int|
            #![trigger response.hits[k], response.hits[m]]
            0 <= k < m < order.len() ==> {
                let (one, other) = (response.hits[k].score->0, response.hits[m].score->0);
                &&& !greater(other, one)
                &&& !greater(one, other) ==> order[k] < order[m]
            },
        orderly(row_scores(query, rows, cosines)) || (forall|i: int|
            0 <= i < rows.len() ==> !is_nan(#[trigger] cosines[i])) ==> forall|k: int, i: int|
            #![trigger response.hits[k], order.contains(i)]
            0 <= k < order.len() && 0 <= i < rows.len() && !order.contains(i) ==> {
                let one = response.hits[k].score->0;
                let other = if rows[i].vec.len() == query.len() && query.len() > 0 {
                    cosines[i]
                } else {
                    0u32
                };
                &&& !greater(other, one)
                &&& !greater(one, other) ==> order[k] < i
            },
{
    let scores = row_scores(query, rows, cosines);
    let picked = choose|picked: Seq<usize>|
        {
            &&& #[trigger] selects(scores, hit_limit(top_k), picked)
            &&& response.hits == row_hits(rows, scores, picked)
        };
    selection_is_a_stable_ranking(scores, hit_limit(top_k), picked);
    let order = picked.map_values(|i: usize| i as int);
    assert forall|k: int| #![trigger response.hits[k]] 0 <= k < order.len() implies {
        let (hit, i) = (response.hits[k], order[k]);
        &&& hit.score == Some(scores[i])
        &&& rows[i].text.len() > 480 ==> hit.snippet == rows[i].text.take(480) + seq!['…']
    } by {
        let text = rows[order[k]].text;
        if text.len() > 480 {
            assert(text.take(480).push('…') =~= text.take(480) + seq!['…']);
        }
    }
    if forall|i: int| 0 <= i < rows.len() ==> !is_nan(#[trigger] cosines[i]) {
        assert forall|i: int| 0 <= i < scores.len() implies !is_nan(#[trigger] scores[i]) by {
            assert(!is_nan(cosines[i]));
        }
        assert(orderly(scores));
    }
    if orderly(scores) {
        assert forall|k: int, m: int|
            #![trigger response.hits[k], response.hits[m]]
            0 <= k < m < order.len() implies {
            let (one, other) = (response.hits[k].score->0, response.hits[m].score->0);
            &&& !greater(other, one)
            &&& !greater(one, other) ==> order[k] < order[m]
        } by {
            assert(picked[k] != picked[m]);
        }
        assert forall|k: int, i: int|
            #![trigger response.hits[k], order.contains(i)]
            0 <= k < order.len() && 0 <= i < rows.len() && !order.contains(i) implies {
            let one = response.hits[k].score->0;
            let other = if rows[i].vec.len() == query.len() && query.len() > 0 {
                cosines[i]
            } else {
                0u32
            };
            &&& !greater(other, one)
            &&& !greater(one, other) ==> order[k] < i
        } by {
            assert(response.hits[k].score == Some(scores[order[k]]));
            assert forall|m: int| 0 <= m < picked.len() implies #[trigger] picked[m] != i by {
                assert(order[m] == picked[m]);
            }
            assert(picked[k] == order[k]);
            assert(scores[i] == if rows[i].vec.len() == query.len() && query.len() > 0 {
                cosines[i]
            } else {
                0u32
            });
        }
    }
    order
}

/// No row that an answer leaves out has a cosine larger than the score of any of its hits, where
/// the cosines are numbers: a row with a vector as long as the query is a hit, with its path and its
/// cosine, or beats none.
pub proof fn answer_leaves_out_no_larger_cosine(
    query: Seq<u32>,
    rows: Seq<ChunkRowView>,
    cosines: Seq<u32>,
    top_k: u32,
    response: QueryResponseView,
    row: int,
)
    requires
        answers(query, rows, cosines, top_k, response),
        forall|i: int| 0 <= i < rows.len() ==> !is_nan(#[trigger] cosines[i]),
        0 <= row < rows.len(),
        rows[row].vec.len() == query.len(),
        query.len() > 0,
    ensures
        (exists|k: int|
            #![trigger response.hits[k]]
            0 <= k < response.hits.len() && response.hits[k].path == rows[row].path
                && response.hits[k].score == Some(cosines[row])) || (forall|k: int|
            #![trigger response.hits[k]]
            0 <= k < response.hits.len() ==> response.hits[k].score is Some && !greater(
                cosines[row],
                response.hits[k].score->0,
            )),
{
    let order = answer_ranks_rows_by_their_cosines(query, rows, cosines, top_k, response);
    if order.contains(row) {
        let m = choose|m: int| 0 <= m < order.len() && order[m] == row;
        assert(response.hits[m].score == Some(cosines[row]));
    }
}

/// The hits of an answer come in the order of their scores: none has a larger score than one
/// before it, for orderly scores.
pub proof fn answer_is_sorted(
    query: Seq<u32>,
    rows: Seq<ChunkRowView>,
    cosines: Seq<u32>,
    top_k: u32,
    response: QueryResponseView,
    earlier: int,
    later: int,
)
    requires
        answers(query, rows, cosines, top_k, response),
        orderly(row_scores(query, rows, cosines)),
        0 <= earlier < later < response.hits.len(),
    ensures
        response.hits[earlier].score is Some,
        response.hits[later].score is Some,
        !greater(response.hits[later].score->0, response.hits[earlier].score->0),
{
    let scores = row_scores(query, rows, cosines);
    let order = choose|order: Seq<usize>|
        {
            &&& #[trigger] selects(scores, hit_limit(top_k), order)
            &&& response.hits == row_hits(rows, scores, order)
        };
    assert(precedes(scores, order[earlier] as int, order[later] as int));
}

/// Asking for more only adds hits at the end, for orderly scores. So the same question has one
/// answer.
pub proof fn answers_extend(
    query: Seq<u32>,
    rows: Seq<ChunkRowView>,
    cosines: Seq<u32>,
    fewer: u32,
    short: QueryResponseView,
    more: u32,
    long: QueryResponseView,
)
    requires
        orderly(row_scores(query, rows, cosines)),
        fewer <= more,
        answers(query, rows, cosines, fewer, short),
        answers(query, rows, cosines, more, long),
    ensures
        short.hits == long.hits.take(short.hits.len() as int),
        fewer == more ==> short == long,
{
    let scores = row_scores(query, rows, cosines);
    let few = choose|order: Seq<usize>|
        {
            &&& #[trigger] selects(scores, hit_limit(fewer), order)
            &&& short.hits == row_hits(rows, scores, order)
        };
    let many = choose|order: Seq<usize>|
        {
            &&& #[trigger] selects(scores, hit_limit(more), order)
            &&& long.hits == row_hits(rows, scores, order)
        };
    selection_extends(scores, hit_limit(fewer), few, hit_limit(more), many);
    assert(short.hits =~= long.hits.take(short.hits.len() as int));
    if fewer == more {
        assert(short.hits =~= long.hits);
    }
}

/// The answer leaves out no row that beats a hit: each row is the hit it makes, or its score is no
/// larger than that of any hit, for orderly scores.
pub proof fn answer_keeps_the_best(
    query: Seq<u32>,
    rows: Seq<ChunkRowView>,
    cosines: Seq<u32>,
    top_k: u32,
    response: QueryResponseView,
    row: int,
)
    requires
        answers(query, rows, cosines, top_k, response),
        orderly(row_scores(query, rows, cosines)),
        0 <= row < rows.len(),
    ensures
        ({
            let score = row_scores(query, rows, cosines)[row];
            let hit = RagHitView {
                path: rows[row].path,
                snippet: snippet(rows[row].text, SNIPPET_CHARS as nat),
                score: Some(score),
            };
            ||| response.hits.contains(hit)
            ||| forall|k: int|
                0 <= k < response.hits.len() ==> !greater(
                    score,
                    (#[trigger] response.hits[k]).score->0,
                )
        }),
{
    let scores = row_scores(query, rows, cosines);
    let order = choose|order: Seq<usize>|
        {
            &&& #[trigger] selects(scores, hit_limit(top_k), order)
            &&& response.hits == row_hits(rows, scores, order)
        };
    if lists(order, row) {
        let k = choose|k: int| 0 <= k < order.len() && #[trigger] order[k] == row;
        assert(response.hits[k].path == rows[row].path);
    } else {
        assert forall|k: int| 0 <= k < response.hits.len() implies !greater(
            scores[row],
            (#[trigger] response.hits[k]).score->0,
        ) by {
            assert(precedes(scores, order[k] as int, row));
        }
    }
}

/// What a run of [`query_index`] waits for.
pub enum QueryStage {
    /// The database.
    Opening,
    /// The embedding of the query.
    Embedding,
    /// An answer of the vector database to this vector.
    Asking { query: Vec<u32> },
    /// The rows of the index, to compare this vector with.
    Loading { query: Vec<u32> },
    /// The cosines between this vector and each of these rows.
    Scoring { query: Vec<u32>, rows: Vec<ChunkRow> },
    /// Nothing more.
    Finished,
}

/// What a run waits for, by what it holds.
pub enum QueryStageView {
    Opening,
    Embedding,
    Asking { query: Seq<u32> },
    Loading { query: Seq<u32> },
    Scoring { query: Seq<u32>, rows: Seq<ChunkRowView> },
    Finished,
}

impl DeepView for QueryStage {
    type V = QueryStageView;

    open spec fn deep_view(&self) -> QueryStageView {
        match *self {
            QueryStage::Opening => QueryStageView::Opening,
            QueryStage::Embedding => QueryStageView::Embedding,
            QueryStage::Asking { query } => QueryStageView::Asking { query: query@ },
            QueryStage::Loading { query } => QueryStageView::Loading { query: query@ },
            QueryStage::Scoring { query, rows } => QueryStageView::Scoring {
                query: query@,
                rows: rows.deep_view(),
            },
            QueryStage::Finished => QueryStageView::Finished,
        }
    }
}

/// A run of [`query_index`].
pub struct QueryRun {
    pub text: String,
    pub top_k: u32,
    pub stage: QueryStage,
}

/// What a run of [`query_index`] holds.
#[verifier::ext_equal]
pub struct QueryRunView {
    pub text: Seq<char>,
    pub top_k: u32,
    pub stage: QueryStageView,
}

impl DeepView for QueryRun {
    type V = QueryRunView;

    open spec fn deep_view(&self) -> QueryRunView {
        QueryRunView { text: self.text@, top_k: self.top_k, stage: self.stage.deep_view() }
    }
}

/// What came of a [`QueryAction`].
pub enum QueryEvent {
    /// The database is open, or why not.
    Opened(Result<(), String>),
    /// The vectors of the embedded texts, or why there are none.
    Embedded(Result<Vec<Vec<u32>>, String>),
    /// The answer of the vector database, if it has one, or why it could not be asked.
    Answered(Result<Option<QueryResponse>, String>),
    /// The rows of the index, or why they could not be loaded.
    Loaded(Result<Vec<ChunkRow>, String>),
    /// The cosine between the query and each row.
    Scored(Vec<u32>),
}

/// What came of a [`QueryAction`], by what it holds.
pub enum QueryEventView {
    Opened(Result<(), Seq<char>>),
    Embedded(Result<Seq<Seq<u32>>, Seq<char>>),
    Answered(Result<Option<QueryResponseView>, Seq<char>>),
    Loaded(Result<Seq<ChunkRowView>, Seq<char>>),
    Scored(Seq<u32>),
}

impl DeepView for QueryEvent {
    type V = QueryEventView;

    open spec fn deep_view(&self) -> QueryEventView {
        match *self {
            QueryEvent::Opened(opened) => QueryEventView::Opened(unit_outcome(opened)),
            QueryEvent::Embedded(vectors) => QueryEventView::Embedded(outcome(vectors)),
            QueryEvent::Answered(answer) => QueryEventView::Answered(outcome(answer)),
            QueryEvent::Loaded(rows) => QueryEventView::Loaded(outcome(rows)),
            QueryEvent::Scored(cosines) => QueryEventView::Scored(cosines@),
        }
    }
}

/// What a run of [`query_index`] asks for next.
pub enum QueryAction {
    /// Open the database, as [`crate::db::open_db`] says.
    OpenDb,
    /// Embed this one text.
    Embed(String),
    /// Ask the vector database for this many rows near the vector with these bits.
    Ask { query: Vec<u32>, top_k: u32 },
    /// Load the rows of the index.
    Load,
    /// Compute the cosine between the query vector and each row.
    Score,
    /// The run is over: the answer, or why there is none.
    Finish(Result<QueryResponse, String>),
}

/// What a run of [`query_index`] asks for next, by what it holds.
pub enum QueryActionView {
    OpenDb,
    Embed(Seq<char>),
    Ask { query: Seq<u32>, top_k: u32 },
    Load,
    Score,
    Finish(Result<QueryResponseView, Seq<char>>),
}

impl DeepView for QueryAction {
    type V = QueryActionView;

    open spec fn deep_view(&self) -> QueryActionView {
        match *self {
            QueryAction::OpenDb => QueryActionView::OpenDb,
            QueryAction::Embed(text) => QueryActionView::Embed(text@),
            QueryAction::Ask { query, top_k } => QueryActionView::Ask { query: query@, top_k },
            QueryAction::Load => QueryActionView::Load,
            QueryAction::Score => QueryActionView::Score,
            QueryAction::Finish(answer) => QueryActionView::Finish(outcome(answer)),
        }
    }
}

/// What a run is seen to hold is what it holds.
pub proof fn query_run_is_seen_whole(run: QueryRun)
    ensures
        run.deep_view().text == run.text@,
        run.deep_view().top_k == run.top_k,
        run.deep_view().stage == (match run.stage {
            QueryStage::Opening => QueryStageView::Opening,
            QueryStage::Embedding => QueryStageView::Embedding,
            QueryStage::Asking { query } => QueryStageView::Asking { query: query@ },
            QueryStage::Loading { query } => QueryStageView::Loading { query: query@ },
            QueryStage::Scoring { query, rows } => QueryStageView::Scoring {
                query: query@,
                rows: rows.deep_view(),
            },
            QueryStage::Finished => QueryStageView::Finished,
        }),
{
}

/// What events and actions are seen to hold is what they hold.
pub proof fn query_course_is_seen_whole(event: QueryEvent, action: QueryAction)
    ensures
        match event {
            QueryEvent::Opened(Ok(_)) => event.deep_view() == QueryEventView::Opened(Ok(())),
            QueryEvent::Opened(Err(message)) => event.deep_view() == QueryEventView::Opened(
                Err(message@),
            ),
            QueryEvent::Embedded(Ok(vectors)) => event.deep_view() == QueryEventView::Embedded(
                Ok(vectors.deep_view()),
            ),
            QueryEvent::Embedded(Err(message)) => event.deep_view() == QueryEventView::Embedded(
                Err(message@),
            ),
            QueryEvent::Answered(Ok(Some(response))) => event.deep_view()
                == QueryEventView::Answered(Ok(Some(response.deep_view()))),
            QueryEvent::Answered(Ok(None)) => event.deep_view() == QueryEventView::Answered(
                Ok(None),
            ),
            QueryEvent::Answered(Err(message)) => event.deep_view() == QueryEventView::Answered(
                Err(message@),
            ),
            QueryEvent::Loaded(Ok(rows)) => event.deep_view() == QueryEventView::Loaded(
                Ok(rows.deep_view()),
            ),
            QueryEvent::Loaded(Err(message)) => event.deep_view() == QueryEventView::Loaded(
                Err(message@),
            ),
            QueryEvent::Scored(cosines) => event.deep_view() == QueryEventView::Scored(cosines@),
        },
        match action {
            QueryAction::OpenDb => action.deep_view() is OpenDb,
            QueryAction::Embed(text) => action.deep_view() == QueryActionView::Embed(text@),
            QueryAction::Ask { query, top_k } => action.deep_view() == (QueryActionView::Ask {
                query: query@,
                top_k,
            }),
            QueryAction::Load => action.deep_view() is Load,
            QueryAction::Score => action.deep_view() is Score,
            QueryAction::Finish(Ok(response)) => action.deep_view() == QueryActionView::Finish(
                Ok(response.deep_view()),
            ),
            QueryAction::Finish(Err(message)) => action.deep_view() == QueryActionView::Finish(
                Err(message@),
            ),
        },
{
}

/// What to say of an index of vectors of length `expected` for a query vector of length `got`.
pub open spec fn dim_mismatch(expected: nat, got: nat) -> Seq<char> {
    "embedding dimension mismatch: index uses dim "@ + decimal(expected)
        + " but query embedding has "@ + decimal(got)
        + " (same model/env as ingest required)"@
}

impl QueryRunView {
    /// Whether `event` is what the run waits for: the reply to its last action, with a cosine to
    /// each row.
    pub open spec fn awaits(self, event: QueryEventView) -> bool {
        match (self.stage, event) {
            (QueryStageView::Opening, QueryEventView::Opened(_)) => true,
            (QueryStageView::Embedding, QueryEventView::Embedded(_)) => true,
            (QueryStageView::Asking { .. }, QueryEventView::Answered(_)) => true,
            (QueryStageView::Loading { .. }, QueryEventView::Loaded(_)) => true,
            (QueryStageView::Scoring { rows, .. }, QueryEventView::Scored(cosines)) => cosines.len()
                == rows.len(),
            _ => false,
        }
    }

    /// Whether `stage` is what the run waits for after `event`, and `action` what it asks for.
    pub open spec fn goes_on(
        self,
        event: QueryEventView,
        stage: QueryStageView,
        action: QueryActionView,
    ) -> bool {
        match (self.stage, event) {
            (_, QueryEventView::Opened(Ok(_))) => {
                &&& stage == QueryStageView::Embedding
                &&& action == QueryActionView::Embed(self.text)
            },
            (_, QueryEventView::Embedded(Ok(vectors))) => if vectors.len() == 0 {
                &&& stage == QueryStageView::Finished
                &&& action == QueryActionView::Finish(Err(NO_QUERY_EMBEDDING@))
            } else {
                &&& stage == QueryStageView::Asking { query: vectors[0] }
                &&& action == QueryActionView::Ask { query: vectors[0], top_k: self.top_k }
            },
            (_, QueryEventView::Answered(Ok(Some(response)))) => {
                &&& stage == QueryStageView::Finished
                &&& action == QueryActionView::Finish(Ok(response))
            },
            (QueryStageView::Asking { query }, QueryEventView::Answered(_)) => {
                &&& stage == QueryStageView::Loading { query }
                &&& action == QueryActionView::Load
            },
            (QueryStageView::Loading { query }, QueryEventView::Loaded(Ok(rows))) => if rows.len()
                == 0 {
                &&& stage == QueryStageView::Finished
                &&& action == QueryActionView::Finish(
                    Ok(QueryResponseView { hits: seq![], phase: PHASE_EMPTY@ }),
                )
            } else if query.len() != rows[0].vec.len() {
                &&& stage == QueryStageView::Finished
                &&& action == QueryActionView::Finish(
                    Err(dim_mismatch(rows[0].vec.len(), query.len())),
                )
            } else {
                &&& stage == QueryStageView::Scoring { query, rows }
                &&& action == QueryActionView::Score
            },
            (QueryStageView::Scoring { query, rows }, QueryEventView::Scored(cosines)) => {
                &&& stage == QueryStageView::Finished
                &&& action matches QueryActionView::Finish(Ok(response))
                &&& answers(query, rows, cosines, self.top_k, response)
            },
            (_, QueryEventView::Opened(Err(message))) => {
                &&& stage == QueryStageView::Finished
                &&& action == QueryActionView::Finish(Err(message))
            },
            (_, QueryEventView::Embedded(Err(message))) => {
                &&& stage == QueryStageView::Finished
                &&& action == QueryActionView::Finish(Err(message))
            },
            (_, QueryEventView::Loaded(Err(message))) => {
                &&& stage == QueryStageView::Finished
                &&& action == QueryActionView::Finish(Err(message))
            },
            _ => false,
        }
    }
}

/// Starts to answer `req`, given whether the database is a file.
pub fn query_index(db_is_file: bool, req: &QueryRequest) -> (started: (QueryRun, QueryAction))
    ensures
        started.0.text@ == req.query@,
        started.0.top_k == req.top_k,
        db_is_file ==> {
            &&& started.0.stage.deep_view() == QueryStageView::Opening
            &&& started.1.deep_view() == QueryActionView::OpenDb
        },
        !db_is_file ==> {
            &&& started.0.stage.deep_view() == QueryStageView::Finished
            &&& started.1.deep_view() == QueryActionView::Finish(
                Ok(QueryResponseView { hits: seq![], phase: PHASE_NO_DB@ }),
            )
        },
{
    let (stage, action) = if db_is_file {
        (QueryStage::Opening, QueryAction::OpenDb)
    } else {
        let response = QueryResponse { hits: Vec::new(), phase: PHASE_NO_DB };
        assert(response.hits.deep_view() =~= seq![]);
        (QueryStage::Finished, QueryAction::Finish(Ok(response)))
    };
    (QueryRun { text: req.query.clone(), top_k: req.top_k, stage }, action)
}

/// Goes on with the embedding of the query, the first of `vectors`.
fn with_embedding(vectors: Vec<Vec<u32>>, top_k: u32) -> (next: (QueryStage, QueryAction))
    ensures
        vectors@.len() == 0 ==> {
            &&& next.0 is Finished
            &&& next.1.deep_view() == QueryActionView::Finish(Err(NO_QUERY_EMBEDDING@))
        },
        vectors@.len() > 0 ==> {
            &&& next.0.deep_view() == QueryStageView::Asking { query: vectors.deep_view()[0] }
            &&& next.1.deep_view() == QueryActionView::Ask {
                query: vectors.deep_view()[0],
                top_k,
            }
        },
{
    let mut vectors = vectors;
    if vectors.len() == 0 {
        return (
            QueryStage::Finished,
            QueryAction::Finish(Err(NO_QUERY_EMBEDDING.to_string())),
        );
    }
    let query = vectors.swap_remove(0);
    assert(query.deep_view() =~= query@);
    let asked = query.clone();
    assert(asked@ =~= query@);
    (QueryStage::Asking { query }, QueryAction::Ask { query: asked, top_k })
}

/// Goes on with the rows of the index.
fn with_rows(query: Vec<u32>, rows: Vec<ChunkRow>) -> (next: (QueryStage, QueryAction))
    ensures
        rows@.len() == 0 ==> {
            &&& next.0 is Finished
            &&& next.1.deep_view() == QueryActionView::Finish(
                Ok(QueryResponseView { hits: seq![], phase: PHASE_EMPTY@ }),
            )
        },
        rows@.len() > 0 && query@.len() != rows@[0].vec@.len() ==> {
            &&& next.0 is Finished
            &&& next.1.deep_view() == QueryActionView::Finish(
                Err(dim_mismatch(rows@[0].vec@.len(), query@.len())),
            )
        },
        rows@.len() > 0 && query@.len() == rows@[0].vec@.len() ==> {
            &&& next.0 == QueryStage::Scoring { query, rows }
            &&& next.1 is Score
        },
{
    if rows.len() == 0 {
        let response = QueryResponse { hits: Vec::new(), phase: PHASE_EMPTY };
        assert(response.hits.deep_view() =~= seq![]);
        return (QueryStage::Finished, QueryAction::Finish(Ok(response)));
    }
    let expected: usize = rows[0].vec.len();
    if query.len() != expected {
        let message = joined(
            "embedding dimension mismatch: index uses dim ",
            decimal_text(expected).as_str(),
        ).concat(" but query embedding has ").concat(decimal_text(query.len()).as_str()).concat(
            " (same model/env as ingest required)",
        );
        return (QueryStage::Finished, QueryAction::Finish(Err(message)));
    }
    (QueryStage::Scoring { query, rows }, QueryAction::Score)
}

impl QueryRun {
    /// Whether `event` is what the run waits for.
    pub fn expects(&self, event: &QueryEvent) -> (expected: bool)
        ensures
            expected == self.deep_view().awaits(event.deep_view()),
    {
        match (&self.stage, event) {
            (QueryStage::Opening, QueryEvent::Opened(_)) => true,
            (QueryStage::Embedding, QueryEvent::Embedded(_)) => true,
            (QueryStage::Asking { .. }, QueryEvent::Answered(_)) => true,
            (QueryStage::Loading { .. }, QueryEvent::Loaded(_)) => true,
            (QueryStage::Scoring { rows, .. }, QueryEvent::Scored(cosines)) => cosines.len()
                == rows.len(),
            _ => false,
        }
    }

    /// Goes on with what came of the last action.
    pub fn step(self, event: QueryEvent) -> (stepped: (QueryRun, QueryAction))
        requires
            self.deep_view().awaits(event.deep_view()),
        ensures
            stepped.0.text@ == self.text@,
            stepped.0.top_k == self.top_k,
            self.deep_view().goes_on(
                event.deep_view(),
                stepped.0.stage.deep_view(),
                stepped.1.deep_view(),
            ),
    {
        let QueryRun { text, top_k, stage } = self;
        let (stage, action) = match (stage, event) {
            (QueryStage::Opening, QueryEvent::Opened(Ok(_))) => (
                QueryStage::Embedding,
                QueryAction::Embed(text.clone()),
            ),
            (QueryStage::Embedding, QueryEvent::Embedded(Ok(vectors))) => with_embedding(
                vectors,
                top_k,
            ),
            (QueryStage::Asking { query }, QueryEvent::Answered(answer)) => match answer {
                Ok(Some(response)) => (QueryStage::Finished, QueryAction::Finish(Ok(response))),
                _ => (QueryStage::Loading { query }, QueryAction::Load),
            },
            (QueryStage::Loading { query }, QueryEvent::Loaded(Ok(rows))) => with_rows(
                query,
                rows,
            ),
            (QueryStage::Scoring { query, rows }, QueryEvent::Scored(cosines)) => {
                let response = rank_rows(&query, &rows, &cosines, top_k);
                (QueryStage::Finished, QueryAction::Finish(Ok(response)))
            },
            (_, QueryEvent::Opened(Err(message))) => (
                QueryStage::Finished,
                QueryAction::Finish(Err(message)),
            ),
            (_, QueryEvent::Embedded(Err(message))) => (
                QueryStage::Finished,
                QueryAction::Finish(Err(message)),
            ),
            (_, QueryEvent::Loaded(Err(message))) => (
                QueryStage::Finished,
                QueryAction::Finish(Err(message)),
            ),
            _ => unreached(),
        };
        (QueryRun { text, top_k, stage }, action)
    }
}

/// How many more events a run can take in at this stage.
pub open spec fn query_steps_left(stage: QueryStageView) -> nat {
    match stage {
        QueryStageView::Opening => 5,
        QueryStageView::Embedding => 4,
        QueryStageView::Asking { .. } => 3,
        QueryStageView::Loading { .. } => 2,
        QueryStageView::Scoring { .. } => 1,
        QueryStageView::Finished => 0,
    }
}

/// Whether what a stage holds fits together: rows are scored only where there are some, and only
/// against a vector as long as the first of them.
pub open spec fn query_stage_sound(stage: QueryStageView) -> bool {
    stage matches QueryStageView::Scoring { query, rows } ==> rows.len() > 0 && query.len()
        == rows[0].vec.len()
}

/// Every event brings a run nearer to its end, a run is over exactly when it gives its outcome,
/// and what its stages hold fits together.
pub proof fn query_run_ends(
    run: QueryRunView,
    event: QueryEventView,
    stage: QueryStageView,
    action: QueryActionView,
)
    requires
        run.awaits(event),
        run.goes_on(event, stage, action),
    ensures
        query_steps_left(stage) < query_steps_left(run.stage),
        stage is Finished <==> action is Finish,
        query_stage_sound(stage),
{
}

/// A run takes in the reply to its last action and nothing else, and cosines only with one to each
/// row.
pub proof fn query_run_takes_one_reply_at_a_time(run: QueryRunView, event: QueryEventView)
    ensures
        run.stage is Opening ==> (run.awaits(event) <==> event is Opened),
        run.stage is Embedding ==> (run.awaits(event) <==> event is Embedded),
        run.stage is Asking ==> (run.awaits(event) <==> event is Answered),
        run.stage is Loading ==> (run.awaits(event) <==> event is Loaded),
        run.stage matches QueryStageView::Scoring { rows, .. } ==> (run.awaits(event) <==> (event
            matches QueryEventView::Scored(cosines) && cosines.len() == rows.len())),
        run.stage is Finished ==> !run.awaits(event),
{
}

/// A database that does not open, a query that cannot be embedded and an index that does not load
/// end the query, with what was said of it.
pub proof fn failures_end_a_query(
    run: QueryRunView,
    message: Seq<char>,
    stage: QueryStageView,
    action: QueryActionView,
)
    requires
        run.goes_on(QueryEventView::Opened(Err(message)), stage, action) || run.goes_on(
            QueryEventView::Embedded(Err(message)),
            stage,
            action,
        ) || run.goes_on(QueryEventView::Loaded(Err(message)), stage, action),
    ensures
        stage is Finished,
        action == QueryActionView::Finish(Err(message)),
{
}

/// With the database open the text of the query is embedded, as it is.
pub proof fn query_is_embedded_whole(
    run: QueryRunView,
    stage: QueryStageView,
    action: QueryActionView,
)
    requires
        run.goes_on(QueryEventView::Opened(Ok(())), stage, action),
    ensures
        stage is Embedding,
        action == QueryActionView::Embed(run.text),
{
}

/// The first vector of the embedding is the query: the vector database is asked about it, component
/// by component and for as many hits as the request says, and it is kept for the index. Without a
/// vector the query ends.
pub proof fn first_vector_is_the_query(
    run: QueryRunView,
    vectors: Seq<Seq<u32>>,
    stage: QueryStageView,
    action: QueryActionView,
)
    requires
        run.goes_on(QueryEventView::Embedded(Ok(vectors)), stage, action),
    ensures
        vectors.len() > 0 ==> {
            &&& stage matches QueryStageView::Asking { query } && query == vectors[0]
            &&& action matches QueryActionView::Ask { query, top_k } && query == vectors[0] && top_k
                == run.top_k
        },
        vectors.len() == 0 ==> stage is Finished && action == QueryActionView::Finish(
            Err("no query embedding"@),
        ),
{
}

/// An answer of the vector database is the answer, as it is; without one the index is loaded, and
/// the query stays what it was.
pub proof fn other_answer_is_passed_on(
    run: QueryRunView,
    answer: Result<Option<QueryResponseView>, Seq<char>>,
    stage: QueryStageView,
    action: QueryActionView,
)
    requires
        run.stage is Asking,
        run.goes_on(QueryEventView::Answered(answer), stage, action),
    ensures
        answer matches Ok(Some(response)) ==> stage is Finished && action
            == QueryActionView::Finish(Ok(response)),
        !(answer matches Ok(Some(_))) ==> {
            &&& action is Load
            &&& stage matches QueryStageView::Loading { query } && query
                == run.stage->Asking_query
        },
{
}

/// Loaded rows are all scored, against the query as it is, where the first is as long as the query;
/// where it is not, the query ends with both lengths, and where there are no rows with an empty
/// answer.
pub proof fn loaded_rows_are_all_scored(
    run: QueryRunView,
    rows: Seq<ChunkRowView>,
    stage: QueryStageView,
    action: QueryActionView,
)
    requires
        run.stage is Loading,
        run.goes_on(QueryEventView::Loaded(Ok(rows)), stage, action),
    ensures
        ({
            let asked = run.stage->Loading_query;
            &&& rows.len() > 0 && rows[0].vec.len() == asked.len() ==> {
                &&& action is Score
                &&& stage matches QueryStageView::Scoring { query, rows: scored } && query == asked
                    && scored == rows
            }
            &&& rows.len() > 0 && rows[0].vec.len() != asked.len() ==> {
                &&& stage is Finished
                &&& action == QueryActionView::Finish(
                    Err(
                        "embedding dimension mismatch: index uses dim "@ + decimal(
                            rows[0].vec.len(),
                        ) + " but query embedding has "@ + decimal(asked.len())
                            + " (same model/env as ingest required)"@,
                    ),
                )
            }
            &&& rows.len() == 0 ==> {
                &&& stage is Finished
                &&& action matches QueryActionView::Finish(Ok(response)) && response.hits.len() == 0
                    && response.phase == "1-sqlite-empty"@
            }
        }),
{
}

/// Cosines end a query with the ranking of its rows by them.
pub proof fn cosines_make_the_answer(
    run: QueryRunView,
    cosines: Seq<u32>,
    stage: QueryStageView,
    action: QueryActionView,
)
    requires
        run.stage is Scoring,
        run.goes_on(QueryEventView::Scored(cosines), stage, action),
    ensures
        stage is Finished,
        action matches QueryActionView::Finish(Ok(response)) && answers(
            run.stage->Scoring_query,
            run.stage->Scoring_rows,
            cosines,
            run.top_k,
            response,
        ),
{
}

/// What a run does with an event is determined, as far as the scores are orderly.
pub proof fn query_run_is_determined(
    run: QueryRunView,
    event: QueryEventView,
    stage: QueryStageView,
    action: QueryActionView,
    other_stage: QueryStageView,
    other_action: QueryActionView,
)
    requires
        run.awaits(event),
        (run.stage, event) matches (
            QueryStageView::Scoring { query, rows },
            QueryEventView::Scored(cosines),
        ) ==> orderly(row_scores(query, rows, cosines)),
        run.goes_on(event, stage, action),
        run.goes_on(event, other_stage, other_action),
    ensures
        stage == other_stage,
        action == other_action,
{
    if let (QueryStageView::Scoring { query, rows }, QueryEventView::Scored(cosines)) = (
        run.stage,
        event,
    ) {
        let response = action->Finish_0->Ok_0;
        let other = other_action->Finish_0->Ok_0;
        answers_extend(query, rows, cosines, run.top_k, response, run.top_k, other);
    }
}

/// A vector database that cannot be asked is as good as one that has no answer: the run goes on to
/// the index either way.
pub proof fn failed_asking_falls_back(
    run: QueryRunView,
    message: Seq<char>,
    stage: QueryStageView,
    action: QueryActionView,
)
    requires
        run.stage is Asking,
    ensures
        run.goes_on(QueryEventView::Answered(Err(message)), stage, action) <==> run.goes_on(
            QueryEventView::Answered(Ok(None)),
            stage,
            action,
        ),
        run.goes_on(QueryEventView::Answered(Ok(None)), stage, action) ==> action is Load,
{
}

/// What a run answers by itself comes from the index, and says so.
pub proof fn own_answer_names_the_index(
    run: QueryRunView,
    event: QueryEventView,
    stage: QueryStageView,
    response: QueryResponseView,
)
    requires
        run.awaits(event),
        !(event is Answered),
        run.goes_on(event, stage, QueryActionView::Finish(Ok(response))),
    ensures
        response.phase == PHASE_SQLITE@ || (response.phase == PHASE_EMPTY@ && response.hits.len()
            == 0),
{
}

/// A query over an index with rows ends with its best rows: whatever the run passes through after
/// the database is open, the query is embedded and no other answer is found, the last event gives
/// the answer of the scan.
pub proof fn scan_answers_the_query(
    opening: QueryRunView,
    vectors: Seq<Seq<u32>>,
    rows: Seq<ChunkRowView>,
    cosines: Seq<u32>,
    stages: Seq<QueryStageView>,
    actions: Seq<QueryActionView>,
)
    requires
        opening.stage is Opening,
        vectors.len() > 0,
        rows.len() > 0,
        rows[0].vec.len() == vectors[0].len(),
        cosines.len() == rows.len(),
        stages.len() == 5,
        actions.len() == 5,
        opening.goes_on(QueryEventView::Opened(Ok(())), stages[0], actions[0]),
        (QueryRunView { stage: stages[0], ..opening }).goes_on(
            QueryEventView::Embedded(Ok(vectors)),
            stages[1],
            actions[1],
        ),
        (QueryRunView { stage: stages[1], ..opening }).goes_on(
            QueryEventView::Answered(Ok(None)),
            stages[2],
            actions[2],
        ),
        (QueryRunView { stage: stages[2], ..opening }).goes_on(
            QueryEventView::Loaded(Ok(rows)),
            stages[3],
            actions[3],
        ),
        (QueryRunView { stage: stages[3], ..opening }).goes_on(
            QueryEventView::Scored(cosines),
            stages[4],
            actions[4],
        ),
    ensures
        actions[0] == QueryActionView::Embed(opening.text),
        actions[1] == (QueryActionView::Ask { query: vectors[0], top_k: opening.top_k }),
        actions[2] == QueryActionView::Load,
        actions[3] == QueryActionView::Score,
        actions[4] matches QueryActionView::Finish(Ok(response)) && answers(
            vectors[0],
            rows,
            cosines,
            opening.top_k,
            response,
        ),
{
}

/// What was ingested is what a query is answered from: where the rows of the index are those that
/// writing `chunks` bound, the query gets the best of these chunks, and some if it asks for any.
pub proof fn written_chunks_answer_a_query(
    loading: QueryRunView,
    chunks: Seq<ChunkRowView>,
    ordinals: Seq<i32>,
    ids: Seq<i64>,
    rows: Seq<StoredRowView>,
    cosines: Seq<u32>,
    stages: Seq<QueryStageView>,
    actions: Seq<QueryActionView>,
)
    requires
        loading.stage is Loading,
        chunks.len() > 0,
        chunks[0].vec.len() == loading.stage->Loading_query.len(),
        rows.len() == chunks.len(),
        forall|i: int|
            #![trigger chunks[i]]
            0 <= i < chunks.len() ==> chunks[i].vec.len() <= i64::MAX && chunks[i].vec.len()
                <= usize::MAX,
        forall|i: int|
            #![trigger rows[i]]
            0 <= i < chunks.len() ==> rows[i] == joined_row(
                chunk_statement(chunks[i].path, ordinals[i], chunks[i].text),
                embedding_statement(ids[i], chunks[i].vec.len() as i64, chunks[i].vec),
            ),
        cosines.len() == rows.len(),
        stages.len() == 2,
        actions.len() == 2,
        loading.goes_on(QueryEventView::Loaded(loaded(rows, None)), stages[0], actions[0]),
        (QueryRunView { stage: stages[0], ..loading }).goes_on(
            QueryEventView::Scored(cosines),
            stages[1],
            actions[1],
        ),
    ensures
        actions[1] matches QueryActionView::Finish(Ok(response)) && {
            &&& answers(loading.stage->Loading_query, chunks, cosines, loading.top_k, response)
            &&& loading.top_k > 0 ==> response.hits.len() > 0
        },
{
    written_chunks_are_loaded(chunks, ordinals, ids, rows);
    if let QueryActionView::Finish(Ok(response)) = actions[1] {
        answer_is_bounded(
            loading.stage->Loading_query,
            chunks,
            cosines,
            loading.top_k,
            response,
        );
    }
}

} // verus!
