//! The row-by-row decoder: carried page numbers, references and pointers,
//! synonyms and lists, resolved against a state threaded from row to row.
use vstd::prelude::*;

use crate::text::{
    chars_of, find_char, find_marked_word, has_char, list_items, marked_word, remove_all,
    replace, replace_all, split_list, string_of, trim, trim_slice, find_from, without, views,
};

verus! {

/// Attached to a word, makes that word (without the mark) the column's reference.
pub const REFERENCE_MARK: char = '&';

/// Stands for the column's current reference.
pub const POINTER_MARK: char = '*';

/// Separates a synonym from the accepted scientific name.
pub const SYNONYM_SEPARATOR: char = '=';

/// Separates the alternatives of a list of common names.
pub const LIST_DELIMITER: char = ';';

/// The columns that carry references.
#[derive(Clone, Copy, Debug, PartialEq, Eq, Structural)]
pub enum Column {
    ScientificName,
    CommonName,
}

/// A structural fault of the input, with the 1-based row where it shows.
#[derive(Debug)]
pub enum TranscodeError {
    /// The header does not hold exactly one `page` column.
    Schema { page_columns: usize },
    /// A row omits its page and no earlier row gave one.
    MissingPage { row: usize },
    /// A reference is replaced before any pointer used it.
    UnusedReference { row: usize, column: Column, value: String },
    /// A pointer appears while the column has no reference.
    DanglingPointer { row: usize, column: Column, text: String },
    /// A pointer stands for a reference that itself holds a pointer, so
    /// substitution would never end.
    RecursiveReference { row: usize, column: Column, value: String },
    /// A field cannot be decoded (a page that is not an integer).
    MalformedField { row: usize, message: String },
}

/// What a `TranscodeError` says, over plain values.
pub enum ErrorView {
    Schema { page_columns: nat },
    MissingPage { row: nat },
    UnusedReference { row: nat, column: Column, value: Seq<char> },
    DanglingPointer { row: nat, column: Column, text: Seq<char> },
    RecursiveReference { row: nat, column: Column, value: Seq<char> },
    MalformedField { row: nat, message: Seq<char> },
}

impl View for TranscodeError {
    type V = ErrorView;

    open spec fn view(&self) -> ErrorView {
        match self {
            TranscodeError::Schema { page_columns } => ErrorView::Schema {
                page_columns: *page_columns as nat,
            },
            TranscodeError::MissingPage { row } => ErrorView::MissingPage { row: *row as nat },
            TranscodeError::UnusedReference { row, column, value } => ErrorView::UnusedReference {
                row: *row as nat,
                column: *column,
                value: value@,
            },
            TranscodeError::DanglingPointer { row, column, text } => ErrorView::DanglingPointer {
                row: *row as nat,
                column: *column,
                text: text@,
            },
            TranscodeError::RecursiveReference {
                row,
                column,
                value,
            } => ErrorView::RecursiveReference { row: *row as nat, column: *column, value: value@ },
            TranscodeError::MalformedField { row, message } => ErrorView::MalformedField {
                row: *row as nat,
                message: message@,
            },
        }
    }
}

/// The reference state of one column.
pub struct Reference {
    /// The last reference established, if any.
    pub value: Option<String>,
    /// Whether a pointer has used `value` since it was established.
    pub consumed: bool,
}

/// What a `Reference` holds, over plain values.
pub struct ReferenceView {
    pub value: Option<Seq<char>>,
    pub consumed: bool,
}

/// The view of an optional string.
pub open spec fn opt_view(o: Option<String>) -> Option<Seq<char>> {
    match o {
        Some(s) => Some(s@),
        None => None,
    }
}

impl View for Reference {
    type V = ReferenceView;

    open spec fn view(&self) -> ReferenceView {
        ReferenceView { value: opt_view(self.value), consumed: self.consumed }
    }
}

fn copy_opt(o: &Option<String>) -> (r: Option<String>)
    ensures
        opt_view(r) == opt_view(*o),
{
    match o {
        Some(s) => Some(s.clone()),
        None => None,
    }
}

impl Reference {
    /// No reference yet.
    pub fn new() -> (r: Reference)
        ensures
            r@ == (ReferenceView { value: None, consumed: false }),
    {
        Reference { value: None, consumed: false }
    }
}

/// One column's resolution against its reference state: establish a
/// reference where a word carries the reference mark, then substitute the
/// reference for every pointer.
pub open spec fn column_step(r: ReferenceView, t: Seq<char>, row: nat, column: Column) -> Result<
    (ReferenceView, Seq<char>),
    ErrorView,
> {
    let establishes = t.contains(REFERENCE_MARK);
    if establishes && !r.consumed && r.value is Some {
        Err(ErrorView::UnusedReference { row, column, value: r.value->0 })
    } else {
        let r1 = if establishes {
            ReferenceView {
                value: match marked_word(t, REFERENCE_MARK) {
                    Some(w) => Some(without(w, REFERENCE_MARK)),
                    None => None,
                },
                consumed: false,
            }
        } else {
            r
        };
        let t1 = if establishes {
            without(t, REFERENCE_MARK)
        } else {
            t
        };
        if t1.contains(POINTER_MARK) {
            match r1.value {
                None => Err(ErrorView::DanglingPointer { row, column, text: t }),
                Some(v) => if v.contains(POINTER_MARK) {
                    Err(ErrorView::RecursiveReference { row, column, value: v })
                } else {
                    Ok((ReferenceView { value: Some(v), consumed: true }, replace(t1, POINTER_MARK, v)))
                },
            }
        } else {
            Ok((r1, t1))
        }
    }
}

/// Resolves one column's text `t` of row `row` against its reference state.
pub fn resolve_column(r: &Reference, t: &Vec<char>, row: usize, column: Column) -> (res: Result<
    (Reference, Vec<char>),
    TranscodeError,
>)
    ensures
        match column_step(r@, t@, row as nat, column) {
            Ok((rv, text)) => res is Ok && res->Ok_0.0@ == rv && res->Ok_0.1@ == text,
            Err(e) => res is Err && res->Err_0@ == e,
        },
{
    let establishes = has_char(t, REFERENCE_MARK);
    if establishes && !r.consumed {
        if let Some(v) = &r.value {
            return Err(TranscodeError::UnusedReference { row, column, value: v.clone() });
        }
    }
    let value: Option<String>;
    let consumed: bool;
    let t1: Vec<char>;
    if establishes {
        value = match find_marked_word(t, REFERENCE_MARK) {
            Some(w) => Some(string_of(&remove_all(&w, REFERENCE_MARK))),
            None => None,
        };
        consumed = false;
        t1 = remove_all(t, REFERENCE_MARK);
    } else {
        value = copy_opt(&r.value);
        consumed = r.consumed;
        t1 = t.clone();
    }
    if has_char(&t1, POINTER_MARK) {
        match value {
            None => Err(TranscodeError::DanglingPointer { row, column, text: string_of(t) }),
            Some(v) => {
                let vc = chars_of(v.as_str());
                if has_char(&vc, POINTER_MARK) {
                    Err(TranscodeError::RecursiveReference { row, column, value: v })
                } else {
                    let text = replace_all(&t1, POINTER_MARK, &vc);
                    Ok((Reference { value: Some(v), consumed: true }, text))
                }
            },
        }
    } else {
        Ok((Reference { value, consumed }, t1))
    }
}

/// The page of a row: its own where it gives one, else the one carried
/// forward from earlier rows.
pub open spec fn page_step(current: Option<i32>, page: Option<i32>, row: nat) -> Result<i32, ErrorView> {
    match page {
        Some(p) => Ok(p),
        None => match current {
            Some(p) => Ok(p),
            None => Err(ErrorView::MissingPage { row }),
        },
    }
}

/// Resolves the page of row `row`.
pub fn resolve_page(current: Option<i32>, page: Option<i32>, row: usize) -> (r: Result<i32, TranscodeError>)
    ensures
        match page_step(current, page, row as nat) {
            Ok(p) => r == Ok::<i32, TranscodeError>(p),
            Err(e) => r is Err && r->Err_0@ == e,
        },
{
    match page {
        Some(p) => Ok(p),
        None => match current {
            Some(p) => Ok(p),
            None => Err(TranscodeError::MissingPage { row }),
        },
    }
}

/// A scientific name split at its first synonym separator: the trimmed
/// synonym before it and the trimmed accepted name after it. Without a
/// separator there is no synonym and the name stands as it is.
pub open spec fn name_split(s: Seq<char>) -> (Option<Seq<char>>, Seq<char>) {
    match find_from(s, SYNONYM_SEPARATOR, 0) {
        Some(k) => (Some(trim(s.subrange(0, k))), trim(s.subrange(k + 1, s.len() as int))),
        None => (None, s),
    }
}

pub proof fn lemma_find_from_bounds(s: Seq<char>, c: char, i: int)
    ensures
        find_from(s, c, i) matches Some(k) ==> i <= k < s.len() && s[k] == c,
    decreases s.len() - i,
{
    if 0 <= i < s.len() && s[i] != c {
        lemma_find_from_bounds(s, c, i + 1);
    }
}

/// Splits a resolved scientific name into synonym and accepted name.
pub fn split_synonym(v: &Vec<char>) -> (r: (Option<String>, String))
    ensures
        opt_view(r.0) == name_split(v@).0,
        r.1@ == name_split(v@).1,
{
    match find_char(v, SYNONYM_SEPARATOR) {
        Some(k) => {
            proof {
                lemma_find_from_bounds(v@, SYNONYM_SEPARATOR, 0);
            }
            let synonym = trim_slice(v, 0, k);
            let name = trim_slice(v, k + 1, v.len());
            (Some(string_of(&synonym)), string_of(&name))
        },
        None => (None, string_of(v)),
    }
}

/// One input row.
pub struct RawRow {
    /// The page number, absent where it carries forward.
    pub page: Option<i32>,
    /// The scientific name, with synonym and shorthand marks.
    pub scientific_name: String,
    /// The Hungarian common names, a list with shorthand marks.
    pub common_name_hu: String,
}

/// What a `RawRow` holds, over plain values.
pub struct RawRowView {
    pub page: Option<i32>,
    pub scientific_name: Seq<char>,
    pub common_name_hu: Seq<char>,
}

impl View for RawRow {
    type V = RawRowView;

    open spec fn view(&self) -> RawRowView {
        RawRowView {
            page: self.page,
            scientific_name: self.scientific_name@,
            common_name_hu: self.common_name_hu@,
        }
    }
}

/// One fully resolved record.
pub struct ResolvedRecord {
    pub page: i32,
    pub scientific_name: String,
    pub synonym: Option<String>,
    /// The Hungarian common names, in the order written.
    pub common_names_hu: Vec<String>,
}

/// What a `ResolvedRecord` holds, over plain values.
pub struct RecordView {
    pub page: i32,
    pub scientific_name: Seq<char>,
    pub synonym: Option<Seq<char>>,
    pub common_names_hu: Seq<Seq<char>>,
}

impl View for ResolvedRecord {
    type V = RecordView;

    open spec fn view(&self) -> RecordView {
        RecordView {
            page: self.page,
            scientific_name: self.scientific_name@,
            synonym: opt_view(self.synonym),
            common_names_hu: views(self.common_names_hu@),
        }
    }
}

/// The state carried from row to row.
pub struct TranscoderState {
    /// The page of the last row resolved.
    pub current_page: Option<i32>,
    pub scientific_name: Reference,
    pub common_name: Reference,
}

/// What a `TranscoderState` holds, over plain values.
pub struct StateView {
    pub current_page: Option<i32>,
    pub scientific_name: ReferenceView,
    pub common_name: ReferenceView,
}

impl View for TranscoderState {
    type V = StateView;

    open spec fn view(&self) -> StateView {
        StateView {
            current_page: self.current_page,
            scientific_name: self.scientific_name@,
            common_name: self.common_name@,
        }
    }
}

/// The state before the first row.
pub open spec fn initial_state() -> StateView {
    StateView {
        current_page: None,
        scientific_name: ReferenceView { value: None, consumed: false },
        common_name: ReferenceView { value: None, consumed: false },
    }
}

/// The resolution of row number `n` (1-based) against state `st`: the next
/// state and the record, or the first fault, checked in the order page,
/// scientific name, common names.
pub open spec fn row_step(st: StateView, row: RawRowView, n: nat) -> Result<(StateView, RecordView), ErrorView> {
    match page_step(st.current_page, row.page, n) {
        Err(e) => Err(e),
        Ok(page) => match column_step(st.scientific_name, row.scientific_name, n, Column::ScientificName) {
            Err(e) => Err(e),
            Ok((sr, name)) => match column_step(st.common_name, row.common_name_hu, n, Column::CommonName) {
                Err(e) => Err(e),
                Ok((cr, names)) => Ok((
                    StateView { current_page: Some(page), scientific_name: sr, common_name: cr },
                    RecordView {
                        page,
                        scientific_name: name_split(name).1,
                        synonym: name_split(name).0,
                        common_names_hu: list_items(names, LIST_DELIMITER),
                    },
                )),
            },
        },
    }
}

impl TranscoderState {
    /// The state before the first row.
    pub fn new() -> (r: TranscoderState)
        ensures
            r@ == initial_state(),
    {
        TranscoderState { current_page: None, scientific_name: Reference::new(), common_name: Reference::new() }
    }

    /// Resolves row number `n` (1-based, header excluded) and returns the
    /// state for the next row with the record; `self` is left as it was.
    pub fn resolve(&self, row: &RawRow, n: usize) -> (r: Result<(TranscoderState, ResolvedRecord), TranscodeError>)
        ensures
            match row_step(self@, row@, n as nat) {
                Ok((st, rec)) => r is Ok && r->Ok_0.0@ == st && r->Ok_0.1@ == rec,
                Err(e) => r is Err && r->Err_0@ == e,
            },
    {
        let page = match resolve_page(self.current_page, row.page, n) {
            Ok(p) => p,
            Err(e) => return Err(e),
        };
        let sci = chars_of(row.scientific_name.as_str());
        let (sr, name) = match resolve_column(&self.scientific_name, &sci, n, Column::ScientificName) {
            Ok(x) => x,
            Err(e) => return Err(e),
        };
        let common = chars_of(row.common_name_hu.as_str());
        let (cr, names) = match resolve_column(&self.common_name, &common, n, Column::CommonName) {
            Ok(x) => x,
            Err(e) => return Err(e),
        };
        let (synonym, scientific_name) = split_synonym(&name);
        let common_names_hu = split_list(&names, LIST_DELIMITER);
        let st = TranscoderState { current_page: Some(page), scientific_name: sr, common_name: cr };
        Ok((st, ResolvedRecord { page, scientific_name, synonym, common_names_hu }))
    }
}

/// A suffix that a header name may carry; it is ignored.
pub const HEADER_SUFFIX: char = '^';

/// The name of the page column.
pub open spec fn page_column() -> Seq<char> {
    seq!['p', 'a', 'g', 'e']
}

/// `s` without the run of `c` at its end.
pub open spec fn strip_trailing(s: Seq<char>, c: char) -> Seq<char>
    decreases s.len(),
{
    if s.len() > 0 && s.last() == c {
        strip_trailing(s.drop_last(), c)
    } else {
        s
    }
}

/// How many header names are the page column, suffix ignored.
pub open spec fn page_header_count(hs: Seq<Seq<char>>) -> nat
    decreases hs.len(),
{
    if hs.len() == 0 {
        0
    } else {
        page_header_count(hs.drop_last()) + if strip_trailing(hs.last(), HEADER_SUFFIX)
            == page_column() {
            1nat
        } else {
            0nat
        }
    }
}

proof fn lemma_page_header_count_bound(hs: Seq<Seq<char>>)
    ensures
        page_header_count(hs) <= hs.len(),
    decreases hs.len(),
{
    if hs.len() > 0 {
        lemma_page_header_count_bound(hs.drop_last());
    }
}

/// Whether a header name is the page column, suffix ignored.
pub fn is_page_header(h: &String) -> (r: bool)
    ensures
        r == (strip_trailing(h@, HEADER_SUFFIX) == page_column()),
{
    let v = chars_of(h.as_str());
    let mut j: usize = v.len();
    assert(v@.subrange(0, v.len() as int) =~= v@);
    while j > 0 && v[j - 1] == HEADER_SUFFIX
        invariant
            j <= v.len(),
            strip_trailing(v@, HEADER_SUFFIX) == strip_trailing(v@.subrange(0, j as int), HEADER_SUFFIX),
        decreases j,
    {
        assert(v@.subrange(0, j as int).drop_last() =~= v@.subrange(0, j - 1));
        j = j - 1;
    }
    let ghost head = v@.subrange(0, j as int);
    assert(strip_trailing(v@, HEADER_SUFFIX) == head);
    if j == 4 && v[0] == 'p' && v[1] == 'a' && v[2] == 'g' && v[3] == 'e' {
        assert(head =~= page_column());
        true
    } else {
        assert(head.len() != 4 || head[0] != 'p' || head[1] != 'a' || head[2] != 'g' || head[3] != 'e');
        false
    }
}

/// Checks that the header holds exactly one page column.
pub fn validate_header(headers: &Vec<String>) -> (r: Result<(), TranscodeError>)
    ensures
        r is Ok <==> page_header_count(views(headers@)) == 1,
        r is Err ==> r->Err_0@ == (ErrorView::Schema {
            page_columns: page_header_count(views(headers@)),
        }),
{
    let mut count: usize = 0;
    let mut i: usize = 0;
    while i < headers.len()
        invariant
            i <= headers.len(),
            count == page_header_count(views(headers@.subrange(0, i as int))),
        decreases headers.len() - i,
    {
        proof {
            assert(views(headers@.subrange(0, i + 1)).drop_last() =~= views(headers@.subrange(0, i as int)));
            lemma_page_header_count_bound(views(headers@.subrange(0, i as int)));
        }
        if is_page_header(&headers[i]) {
            count = count + 1;
        }
        i = i + 1;
    }
    assert(headers@.subrange(0, headers.len() as int) =~= headers@);
    if count == 1 {
        Ok(())
    } else {
        Err(TranscodeError::Schema { page_columns: count })
    }
}

/// The views of a sequence of rows.
pub open spec fn row_views(rows: Seq<RawRow>) -> Seq<RawRowView> {
    rows.map_values(|r: RawRow| r@)
}

/// The views of a sequence of records.
pub open spec fn record_views(recs: Seq<ResolvedRecord>) -> Seq<RecordView> {
    recs.map_values(|r: ResolvedRecord| r@)
}

/// Resolution of `rows` in order from the initial state: the final state and
/// one record per row, or the first fault.
pub open spec fn resolve_rows(rows: Seq<RawRowView>) -> Result<(StateView, Seq<RecordView>), ErrorView>
    decreases rows.len(),
{
    if rows.len() == 0 {
        Ok((initial_state(), seq![]))
    } else {
        match resolve_rows(rows.drop_last()) {
            Err(e) => Err(e),
            Ok((st, recs)) => match row_step(st, rows.last(), rows.len()) {
                Err(e) => Err(e),
                Ok((st2, rec)) => Ok((st2, recs.push(rec))),
            },
        }
    }
}

/// Resolves all rows in order, stopping at the first fault.
pub fn resolve_all(rows: &Vec<RawRow>) -> (r: Result<Vec<ResolvedRecord>, TranscodeError>)
    ensures
        match resolve_rows(row_views(rows@)) {
            Ok((_, recs)) => r is Ok && record_views(r->Ok_0@) == recs,
            Err(e) => r is Err && r->Err_0@ == e,
        },
{
    let mut st = TranscoderState::new();
    let mut out: Vec<ResolvedRecord> = Vec::new();
    let mut i: usize = 0;
    assert(row_views(rows@.subrange(0, 0)) =~= seq![]);
    assert(record_views(out@) =~= seq![]);
    while i < rows.len()
        invariant
            i <= rows.len(),
            resolve_rows(row_views(rows@.subrange(0, i as int))) == Ok::<(StateView, Seq<RecordView>), ErrorView>((st@, record_views(out@))),
        decreases rows.len() - i,
    {
        let ghost prefix = row_views(rows@.subrange(0, i + 1));
        assert(prefix.drop_last() =~= row_views(rows@.subrange(0, i as int)));
        assert(prefix.last() == rows@[i as int]@);
        match st.resolve(&rows[i], i + 1) {
            Ok((next, rec)) => {
                let ghost before = out@;
                out.push(rec);
                assert(record_views(out@) =~= record_views(before).push(rec@));
                st = next;
            },
            Err(e) => {
                proof {
                    assert(row_views(rows@).subrange(0, i + 1) =~= prefix);
                    lemma_resolve_rows_stops(row_views(rows@), i + 1);
                }
                return Err(e);
            },
        }
        i = i + 1;
    }
    assert(rows@.subrange(0, rows.len() as int) =~= rows@);
    Ok(out)
}

/// A fault in a prefix of the rows is the fault of all of them.
pub proof fn lemma_resolve_rows_stops(rows: Seq<RawRowView>, k: int)
    requires
        0 <= k <= rows.len(),
        resolve_rows(rows.subrange(0, k)) is Err,
    ensures
        resolve_rows(rows) == resolve_rows(rows.subrange(0, k)),
    decreases rows.len() - k,
{
    if k < rows.len() {
        assert(rows.subrange(0, k + 1).drop_last() =~= rows.subrange(0, k));
        lemma_resolve_rows_stops(rows, k + 1);
    } else {
        assert(rows.subrange(0, k) =~= rows);
    }
}

} // verus!
