//! Laws of the decoder, proved over the spec functions that the executable
//! functions' contracts use.
use vstd::prelude::*;

use crate::text::{
    is_space, lemma_marked_from_bounds, lemma_split_without_delimiter, lemma_without_contains,
    lemma_word_end_bounds, lemma_word_has_no_space, list_items, marked_from, marked_word, replace,
    split, trim, trim_end, trim_start, trimmed_nonempty, without, word_end,
};
use crate::transcode::{
    column_step, initial_state, lemma_find_from_bounds, lemma_resolve_rows_stops, name_split,
    resolve_rows, row_step, Column, ErrorView, RawRowView, RecordView, ReferenceView, StateView,
    LIST_DELIMITER, POINTER_MARK, REFERENCE_MARK, SYNONYM_SEPARATOR,
};

verus! {

/// Pages carry forward: a row that gives a page gets it, a row that omits
/// it gets the page of the row before, and the state holds the last page.
pub proof fn page_carries_forward(rows: Seq<RawRowView>)
    requires
        resolve_rows(rows) is Ok,
    ensures
        ({
            let (st, recs) = resolve_rows(rows)->Ok_0;
            &&& recs.len() == rows.len()
            &&& rows.len() > 0 ==> st.current_page == Some(recs.last().page)
            &&& forall|i: int|
                0 <= i < rows.len() && rows[i].page is Some ==> #[trigger] recs[i].page
                    == rows[i].page->0
            &&& forall|i: int|
                0 < i < rows.len() && rows[i].page is None ==> #[trigger] recs[i].page
                    == recs[i - 1].page
        }),
    decreases rows.len(),
{
    if rows.len() > 0 {
        let pre = rows.drop_last();
        page_carries_forward(pre);
        let (st0, recs0) = resolve_rows(pre)->Ok_0;
        let (st, recs) = resolve_rows(rows)->Ok_0;
        assert(recs.drop_last() =~= recs0);
        assert forall|i: int| 0 <= i < rows.len() - 1 implies recs[i] == recs0[i] && rows[i]
            == pre[i] by {}
    }
}

/// Where every row after the first omits its page, every record has the
/// page of the first row.
pub proof fn page_constant_after_first(rows: Seq<RawRowView>)
    requires
        resolve_rows(rows) is Ok,
        rows.len() > 0,
        rows[0].page is Some,
        forall|i: int| 0 < i < rows.len() ==> (#[trigger] rows[i]).page is None,
    ensures
        forall|i: int|
            0 <= i < rows.len() ==> (#[trigger] resolve_rows(rows)->Ok_0.1[i]).page
                == rows[0].page->0,
{
    assert forall|i: int| 0 <= i < rows.len() implies (#[trigger] resolve_rows(rows)->Ok_0.1[i]).page
        == rows[0].page->0 by {
        lemma_page_constant_up_to(rows, i);
    }
}

proof fn lemma_page_constant_up_to(rows: Seq<RawRowView>, i: int)
    requires
        resolve_rows(rows) is Ok,
        0 <= i < rows.len(),
        rows[0].page is Some,
        forall|j: int| 0 < j < rows.len() ==> (#[trigger] rows[j]).page is None,
    ensures
        resolve_rows(rows)->Ok_0.1[i].page == rows[0].page->0,
    decreases i,
{
    page_carries_forward(rows);
    if i > 0 {
        lemma_page_constant_up_to(rows, i - 1);
        assert(rows[i].page is None);
    }
}

/// The value that text `t` establishes as its column's reference.
pub open spec fn established(t: Seq<char>) -> Option<Seq<char>> {
    match marked_word(t, REFERENCE_MARK) {
        Some(w) => Some(without(w, REFERENCE_MARK)),
        None => None,
    }
}

/// The word that a reference mark starts is part of the text.
proof fn lemma_established_within(t: Seq<char>, x: char)
    requires
        x != REFERENCE_MARK,
        established(t) matches Some(v) && v.contains(x),
    ensures
        without(t, REFERENCE_MARK).contains(x),
{
    let p = marked_from(t, REFERENCE_MARK, 0)->0;
    lemma_marked_from_bounds(t, REFERENCE_MARK, 0);
    lemma_word_end_bounds(t, p);
    let w = t.subrange(p, word_end(t, p));
    lemma_without_contains(w, REFERENCE_MARK, x);
    let k = choose|k: int| 0 <= k < w.len() && w[k] == x;
    assert(t[p + k] == x);
    lemma_without_contains(t, REFERENCE_MARK, x);
}

/// A reference established in one row is what a lone pointer in the same
/// column of the next row resolves to.
pub proof fn reference_round_trip(
    r: ReferenceView,
    t: Seq<char>,
    v: Seq<char>,
    row: nat,
    next_row: nat,
    column: Column,
)
    requires
        column_step(r, t, row, column) is Ok,
        t.contains(REFERENCE_MARK),
        established(t) == Some(v),
    ensures
        column_step(column_step(r, t, row, column)->Ok_0.0, seq![POINTER_MARK], next_row, column)
            == Ok::<(ReferenceView, Seq<char>), ErrorView>(
            (ReferenceView { value: Some(v), consumed: true }, v),
        ),
{
    if v.contains(POINTER_MARK) {
        lemma_established_within(t, POINTER_MARK);
    }
    let lone = seq![POINTER_MARK];
    assert(lone.contains(POINTER_MARK)) by {
        assert(lone[0] == POINTER_MARK);
    }
    assert(!lone.contains(REFERENCE_MARK)) by {
        if lone.contains(REFERENCE_MARK) {
            let k = choose|k: int| 0 <= k < lone.len() && lone[k] == REFERENCE_MARK;
            assert(lone[k] == POINTER_MARK);
        }
    }
    assert(lone.drop_last() =~= Seq::<char>::empty());
    assert(lone.last() == POINTER_MARK);
    assert(replace(lone.drop_last(), POINTER_MARK, v) == Seq::<char>::empty());
    assert(replace(lone, POINTER_MARK, v) =~= v);
}

/// Establishing a second reference in a column before any pointer used the
/// first fails, naming the first.
pub proof fn unused_reference_detected(
    r: ReferenceView,
    t1: Seq<char>,
    t2: Seq<char>,
    a: Seq<char>,
    row1: nat,
    row2: nat,
    column: Column,
)
    requires
        column_step(r, t1, row1, column) is Ok,
        t1.contains(REFERENCE_MARK),
        established(t1) == Some(a),
        !without(t1, REFERENCE_MARK).contains(POINTER_MARK),
        t2.contains(REFERENCE_MARK),
    ensures
        column_step(column_step(r, t1, row1, column)->Ok_0.0, t2, row2, column) == Err::<
            (ReferenceView, Seq<char>),
            ErrorView,
        >(ErrorView::UnusedReference { row: row2, column, value: a }),
{
}

/// A pointer in a column without a reference, in a text that establishes
/// none, fails.
pub proof fn dangling_pointer_detected(t: Seq<char>, row: nat, column: Column)
    requires
        t.contains(POINTER_MARK),
        established(t) is None,
    ensures
        column_step(ReferenceView { value: None, consumed: false }, t, row, column) == Err::<
            (ReferenceView, Seq<char>),
            ErrorView,
        >(ErrorView::DanglingPointer { row, column, text: t }),
{
    lemma_without_contains(t, REFERENCE_MARK, POINTER_MARK);
}

/// A pointer in the scientific name of the first row, which establishes no
/// reference, makes the whole input fail.
pub proof fn dangling_pointer_on_first_row(rows: Seq<RawRowView>)
    requires
        rows.len() > 0,
        rows[0].page is Some,
        rows[0].scientific_name.contains(POINTER_MARK),
        established(rows[0].scientific_name) is None,
    ensures
        resolve_rows(rows) == Err::<(StateView, Seq<RecordView>), ErrorView>(
            ErrorView::DanglingPointer {
                row: 1,
                column: Column::ScientificName,
                text: rows[0].scientific_name,
            },
        ),
{
    dangling_pointer_detected(rows[0].scientific_name, 1, Column::ScientificName);
    let first = rows.subrange(0, 1);
    assert(first.drop_last() =~= Seq::<RawRowView>::empty());
    assert(first.last() == rows[0]);
    assert(resolve_rows(first.drop_last()) == Ok::<(StateView, Seq<RecordView>), ErrorView>(
        (initial_state(), seq![]),
    ));
    assert(initial_state().scientific_name == ReferenceView { value: None, consumed: false });
    assert(row_step(initial_state(), rows[0], 1) is Err);
    assert(resolve_rows(first) is Err);
    lemma_resolve_rows_stops(rows, 1);
}

/// The reference state of column `c`.
pub open spec fn column_ref(st: StateView, c: Column) -> ReferenceView {
    match c {
        Column::ScientificName => st.scientific_name,
        Column::CommonName => st.common_name,
    }
}

/// The text of column `c` of a row.
pub open spec fn column_text(row: RawRowView, c: Column) -> Seq<char> {
    match c {
        Column::ScientificName => row.scientific_name,
        Column::CommonName => row.common_name_hu,
    }
}

/// The state after the first `m` rows.
pub open spec fn state_after(rows: Seq<RawRowView>, m: int) -> StateView {
    resolve_rows(rows.subrange(0, m))->Ok_0.0
}

/// A row that resolves resolves each of its columns, and the next state holds
/// their new references.
proof fn lemma_row_step_column(st: StateView, row: RawRowView, n: nat, c: Column)
    requires
        row_step(st, row, n) is Ok,
    ensures
        column_step(column_ref(st, c), column_text(row, c), n, c) is Ok,
        column_ref(row_step(st, row, n)->Ok_0.0, c) == column_step(
            column_ref(st, c),
            column_text(row, c),
            n,
            c,
        )->Ok_0.0,
{
}

/// Where all rows resolve, so does every prefix, to a prefix of the records.
pub proof fn records_of_prefix(rows: Seq<RawRowView>, m: int)
    requires
        resolve_rows(rows) is Ok,
        0 <= m <= rows.len(),
    ensures
        resolve_rows(rows.subrange(0, m)) is Ok,
        resolve_rows(rows.subrange(0, m))->Ok_0.1 == resolve_rows(rows)->Ok_0.1.subrange(0, m),
    decreases rows.len(),
{
    page_carries_forward(rows);
    if m == rows.len() {
        assert(rows.subrange(0, m) =~= rows);
        assert(resolve_rows(rows)->Ok_0.1.subrange(0, m) =~= resolve_rows(rows)->Ok_0.1);
    } else {
        let pre = rows.drop_last();
        records_of_prefix(pre, m);
        page_carries_forward(pre);
        assert(pre.subrange(0, m) =~= rows.subrange(0, m));
        let recs = resolve_rows(rows)->Ok_0.1;
        let pre_recs = resolve_rows(pre)->Ok_0.1;
        assert(recs.drop_last() =~= pre_recs);
        assert(recs.subrange(0, m) =~= pre_recs.subrange(0, m));
    }
}

/// Row `m` is resolved against the state after the rows before it.
proof fn lemma_step_at(rows: Seq<RawRowView>, m: int)
    requires
        0 <= m < rows.len(),
        resolve_rows(rows.subrange(0, m + 1)) is Ok,
    ensures
        resolve_rows(rows.subrange(0, m)) is Ok,
        row_step(state_after(rows, m), rows[m], (m + 1) as nat) is Ok,
        row_step(state_after(rows, m), rows[m], (m + 1) as nat)->Ok_0.0 == state_after(rows, m + 1),
        row_step(state_after(rows, m), rows[m], (m + 1) as nat)->Ok_0.1 == resolve_rows(
            rows.subrange(0, m + 1),
        )->Ok_0.1[m],
{
    let p = rows.subrange(0, m + 1);
    assert(p.drop_last() =~= rows.subrange(0, m));
    assert(p.last() == rows[m]);
    page_carries_forward(rows.subrange(0, m));
}

proof fn lemma_prefix_of_prefix(rows: Seq<RawRowView>, j: int, m: int)
    requires
        0 <= m <= j <= rows.len(),
        resolve_rows(rows.subrange(0, j)) is Ok,
    ensures
        resolve_rows(rows.subrange(0, m)) is Ok,
{
    records_of_prefix(rows.subrange(0, j), m);
    assert(rows.subrange(0, j).subrange(0, m) =~= rows.subrange(0, m));
}

/// Between rows `i` and `m`, column `c` holds neither mark, so its reference
/// stays what row `i` established.
proof fn lemma_reference_kept(rows: Seq<RawRowView>, i: int, j: int, m: int, c: Column)
    requires
        0 <= i < m <= j <= rows.len(),
        resolve_rows(rows.subrange(0, j)) is Ok,
        forall|q: int|
            i < q < j ==> !(#[trigger] column_text(rows[q], c)).contains(REFERENCE_MARK)
                && !column_text(rows[q], c).contains(POINTER_MARK),
    ensures
        column_ref(state_after(rows, m), c) == column_ref(state_after(rows, i + 1), c),
    decreases m - i,
{
    if m > i + 1 {
        lemma_reference_kept(rows, i, j, m - 1, c);
        lemma_prefix_of_prefix(rows, j, m);
        lemma_step_at(rows, m - 1);
        lemma_row_step_column(state_after(rows, m - 1), rows[m - 1], m as nat, c);
        assert(!column_text(rows[m - 1], c).contains(REFERENCE_MARK));
    }
}

/// Establishing a reference in a column, then establishing another in a later
/// row while no row between, nor the first after its mark, used a pointer in
/// that column, fails at the later row, naming the first reference.
pub proof fn unused_reference_across_rows(
    rows: Seq<RawRowView>,
    i: int,
    j: int,
    c: Column,
    a: Seq<char>,
)
    requires
        0 <= i < j < rows.len(),
        resolve_rows(rows.subrange(0, j)) is Ok,
        column_text(rows[i], c).contains(REFERENCE_MARK),
        established(column_text(rows[i], c)) == Some(a),
        !without(column_text(rows[i], c), REFERENCE_MARK).contains(POINTER_MARK),
        forall|q: int|
            i < q < j ==> !(#[trigger] column_text(rows[q], c)).contains(REFERENCE_MARK)
                && !column_text(rows[q], c).contains(POINTER_MARK),
        column_text(rows[j], c).contains(REFERENCE_MARK),
        c == Column::CommonName ==> !rows[j].scientific_name.contains(REFERENCE_MARK)
            && !rows[j].scientific_name.contains(POINTER_MARK),
    ensures
        resolve_rows(rows) == Err::<(StateView, Seq<RecordView>), ErrorView>(
            ErrorView::UnusedReference { row: (j + 1) as nat, column: c, value: a },
        ),
{
    lemma_prefix_of_prefix(rows, j, i + 1);
    lemma_step_at(rows, i);
    lemma_row_step_column(state_after(rows, i), rows[i], (i + 1) as nat, c);
    assert(column_ref(state_after(rows, i + 1), c) == ReferenceView {
        value: Some(a),
        consumed: false,
    });
    lemma_reference_kept(rows, i, j, j, c);
    page_carries_forward(rows.subrange(0, j));
    let st = state_after(rows, j);
    assert(st.current_page is Some);
    let p = rows.subrange(0, j + 1);
    assert(p.drop_last() =~= rows.subrange(0, j));
    assert(p.last() == rows[j]);
    assert(row_step(st, rows[j], (j + 1) as nat) == Err::<(StateView, RecordView), ErrorView>(
        ErrorView::UnusedReference { row: (j + 1) as nat, column: c, value: a },
    ));
    lemma_resolve_rows_stops(rows, j + 1);
}

/// An established reference holds no white space.
proof fn lemma_established_has_no_space(t: Seq<char>, v: Seq<char>)
    requires
        established(t) == Some(v),
    ensures
        forall|q: int| 0 <= q < v.len() ==> !is_space(#[trigger] v[q]),
{
    let p = marked_from(t, REFERENCE_MARK, 0)->0;
    lemma_marked_from_bounds(t, REFERENCE_MARK, 0);
    lemma_word_end_bounds(t, p);
    lemma_word_has_no_space(t, p);
    let w = t.subrange(p, word_end(t, p));
    assert forall|q: int| 0 <= q < v.len() implies !is_space(#[trigger] v[q]) by {
        if is_space(v[q]) {
            assert(v.contains(v[q]));
            lemma_without_contains(w, REFERENCE_MARK, v[q]);
            let k = choose|k: int| 0 <= k < w.len() && w[k] == v[q];
            assert(t[p + k] == w[k]);
        }
    }
}

/// A row that establishes reference `v` in column `c`, followed by a row whose
/// column `c` is a lone pointer: the second row's column resolves to `v`. In
/// the scientific name that is the name (split at a synonym separator, where
/// `v` holds one); in the common names, the list that `v` makes, which is `v`
/// alone where it is not empty and holds no list delimiter.
pub proof fn reference_round_trip_in_run(rows: Seq<RawRowView>, k: int, c: Column, v: Seq<char>)
    requires
        0 <= k,
        k + 1 < rows.len(),
        resolve_rows(rows.subrange(0, k + 2)) is Ok,
        column_text(rows[k], c).contains(REFERENCE_MARK),
        established(column_text(rows[k], c)) == Some(v),
        column_text(rows[k + 1], c) == seq![POINTER_MARK],
    ensures
        ({
            let rec = resolve_rows(rows.subrange(0, k + 2))->Ok_0.1[k + 1];
            &&& c == Column::ScientificName ==> rec.scientific_name == name_split(v).1
                && rec.synonym == name_split(v).0
            &&& c == Column::ScientificName && !v.contains(SYNONYM_SEPARATOR)
                ==> rec.scientific_name == v && rec.synonym is None
            &&& c == Column::CommonName ==> rec.common_names_hu == list_items(v, LIST_DELIMITER)
            &&& c == Column::CommonName && v.len() > 0 && !v.contains(LIST_DELIMITER)
                ==> rec.common_names_hu == seq![v]
        }),
{
    lemma_prefix_of_prefix(rows, k + 2, k + 1);
    lemma_step_at(rows, k);
    let st0 = state_after(rows, k);
    let st1 = state_after(rows, k + 1);
    lemma_row_step_column(st0, rows[k], (k + 1) as nat, c);
    reference_round_trip(column_ref(st0, c), column_text(rows[k], c), v, (k + 1) as nat,
        (k + 2) as nat, c);
    assert(column_ref(st1, c) == column_step(column_ref(st0, c), column_text(rows[k], c),
        (k + 1) as nat, c)->Ok_0.0);
    lemma_step_at(rows, k + 1);
    lemma_row_step_column(st1, rows[k + 1], (k + 2) as nat, c);
    let rec = resolve_rows(rows.subrange(0, k + 2))->Ok_0.1[k + 1];
    if c == Column::ScientificName {
        if !v.contains(SYNONYM_SEPARATOR) {
            lemma_find_from_bounds(v, SYNONYM_SEPARATOR, 0);
            if name_split(v).0 is Some {
                let q = crate::text::find_from(v, SYNONYM_SEPARATOR, 0)->0;
                assert(v[q] == SYNONYM_SEPARATOR);
            }
        }
    } else {
        assert(rec.common_names_hu == list_items(v, LIST_DELIMITER));
        if v.len() > 0 && !v.contains(LIST_DELIMITER) {
            lemma_split_without_delimiter(v, LIST_DELIMITER);
            lemma_established_has_no_space(column_text(rows[k], c), v);
            assert(!is_space(v[0]));
            assert(trim_start(v) == v);
            assert(!is_space(v.last())) by {
                assert(v.last() == v[v.len() - 1]);
            }
            assert(trim_end(v) == v);
            let ps = split(v, LIST_DELIMITER);
            assert(ps =~= seq![v]);
            assert(ps.drop_last() =~= Seq::<Seq<char>>::empty());
            assert(ps.last() == v);
            assert(trim(v) == v);
            assert(trimmed_nonempty(Seq::<Seq<char>>::empty()) == Seq::<Seq<char>>::empty());
            assert(trimmed_nonempty(ps) =~= seq![v]);
        }
    }
}

} // verus!
