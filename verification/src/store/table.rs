//! What comes back out of the table of recordings, given what was put in.

use crate::store::search::{hits, law_search_keeps_order, page};
use crate::store::{
    columns_of, is_same_recording, is_statement, law_row_round_trip, read_as, reads_as, row_of,
    text_term, RawRow, Recording, Row, Statement, StoreError, INSERT_RECORDING,
};
use vstd::prelude::*;

verus! {

/// Whether `table` is what an empty table holds after `statements`, when each
/// of them inserts a row.
pub open spec fn is_filled_by<D, P>(
    table: Seq<Row<D, P>>,
    statements: Seq<Statement<D, P>>,
) -> bool {
    &&& table.len() == statements.len()
    &&& forall|k: int|
        0 <= k < table.len() ==> is_statement(
            #[trigger] statements[k],
            INSERT_RECORDING@,
            columns_of(table[k]),
        )
}

/// Whether `at` names each of `n` places once.
pub open spec fn is_order_of(at: Seq<int>, n: nat) -> bool {
    &&& at.len() == n
    &&& forall|i: int| 0 <= i < n ==> 0 <= #[trigger] at[i] < n
    &&& forall|i: int, j: int| 0 <= i < j < n ==> #[trigger] at[i] != #[trigger] at[j]
}

/// Whether rows come newest first.
pub open spec fn is_newest_first<D, P>(rows: Seq<RawRow<D, P>>) -> bool {
    forall|i: int, j: int|
        0 <= i < j < rows.len() ==> (#[trigger] rows[i]).timestamp >= (
        #[trigger] rows[j]).timestamp
}

/// Whether `answer` is all of `table`, in the order `at`, newest first: that is
/// what the statement of [`RecordingsStore::get_all`] asks for.
///
/// [`RecordingsStore::get_all`]: crate::store::RecordingsStore::get_all
pub open spec fn is_answer<D, P>(
    table: Seq<Row<D, P>>,
    answer: Seq<RawRow<D, P>>,
    at: Seq<int>,
) -> bool {
    &&& is_order_of(at, table.len())
    &&& answer.len() == table.len()
    &&& forall|i: int| 0 <= i < answer.len() ==> (#[trigger] answer[i])@ == table[at[i]]
    &&& is_newest_first(answer)
}

proof fn lemma_columns<D, P>(a: Row<D, P>, b: Row<D, P>)
    requires
        columns_of(a) == columns_of(b),
    ensures
        a == b,
{
    let c = columns_of(a);
    let d = columns_of(b);
    assert(c[0] == d[0] && c[1] == d[1] && c[2] == d[2] && c[3] == d[3] && c[4] == d[4]);
    assert(c[5] == d[5] && c[6] == d[6] && c[7] == d[7] && c[8] == d[8]);
    assert(text_term::<D, P>(a.source_file_url) == text_term::<D, P>(b.source_file_url));
    assert(text_term::<D, P>(a.raw_transcription) == text_term::<D, P>(b.raw_transcription));
}

/// All recordings that were added come back, each once and as it was added, but
/// never as a regeneration, and newest first.
pub proof fn law_get_all_gives_back<D, P>(
    added: Seq<Recording<D, P>>,
    statements: Seq<Statement<D, P>>,
    table: Seq<Row<D, P>>,
    answer: Seq<RawRow<D, P>>,
    at: Seq<int>,
    all: Result<Vec<Recording<D, P>>, StoreError>,
)
    requires
        statements.len() == added.len(),
        forall|k: int|
            0 <= k < added.len() ==> is_statement(
                #[trigger] statements[k],
                INSERT_RECORDING@,
                columns_of(row_of(added[k])),
            ),
        is_filled_by(table, statements),
        is_answer(table, answer, at),
        read_as(answer, all),
    ensures
        all is Ok,
        all->Ok_0@.len() == added.len(),
        forall|i: int|
            0 <= i < added.len() ==> is_same_recording(
                #[trigger] all->Ok_0@[i],
                added[at[i]],
            ) && !all->Ok_0@[i].is_regeneration,
        forall|i: int, j: int|
            0 <= i < j < added.len() ==> (#[trigger] all->Ok_0@[i]).timestamp >= (
            #[trigger] all->Ok_0@[j]).timestamp,
{
    assert forall|i: int| 0 <= i < answer.len() implies (#[trigger] answer[i])@ == row_of(
        added[at[i]],
    ) by {
        let k = at[i];
        let params = statements[k].params@;
        assert(is_statement(statements[k], INSERT_RECORDING@, columns_of(table[k])));
        assert forall|c: int| 0 <= c < params.len() implies columns_of(table[k])[c] == columns_of(
            row_of(added[k]),
        )[c] by {
            assert(params[c]@ == columns_of(table[k])[c]);
        }
        assert(columns_of(table[k]) == columns_of(row_of(added[k])));
        lemma_columns(table[k], row_of(added[k]));
    }
    if let Err(e) = all {
        let k = choose|k: int|
            0 <= k < answer.len() && reads_as(
                (#[trigger] answer[k])@,
                Err::<Recording<D, P>, StoreError>(e),
            );
        law_row_round_trip(added[at[k]], Err::<Recording<D, P>, StoreError>(e));
    } else {
        let got = all->Ok_0@;
        assert forall|i: int| 0 <= i < added.len() implies is_same_recording(
            #[trigger] got[i],
            added[at[i]],
        ) && !got[i].is_regeneration by {
            assert(answer[i]@ == row_of(added[at[i]]));
            law_row_round_trip(added[at[i]], Ok::<Recording<D, P>, StoreError>(got[i]));
        }
        assert forall|i: int, j: int| 0 <= i < j < added.len() implies (
        #[trigger] got[i]).timestamp >= (#[trigger] got[j]).timestamp by {
            assert(answer[i].timestamp >= answer[j].timestamp);
        }
    }
}

/// What a search finds comes newest first, page by page.
pub proof fn law_search_is_newest_first<D, P>(
    rows: Seq<RawRow<D, P>>,
    query: Seq<char>,
    limit: int,
    offset: int,
)
    requires
        is_newest_first(rows),
    ensures
        is_newest_first(page(hits(rows, query), limit, offset)),
{
    let found = hits(rows, query);
    let at = law_search_keeps_order(rows, query);
    let shown = page(found, limit, offset);
    let start = if offset <= 0 {
        0
    } else {
        offset
    };
    assert forall|i: int, j: int| 0 <= i < j < shown.len() implies (
    #[trigger] shown[i]).timestamp >= (#[trigger] shown[j]).timestamp by {
        assert(shown[i] == found[start + i] && shown[j] == found[start + j]);
        assert(found[start + i] == rows[at[start + i]]);
        assert(found[start + j] == rows[at[start + j]]);
        assert(at[start + i] < at[start + j]);
    }
}

} // verus!
