//! Rendering of resolved records as a streamable JSON array: one record per
//! line, each line led by `[` or `,`, and `]` on a line of its own at the end.
use vstd::prelude::*;

use crate::text::views;
use crate::transcode::{
    page_header_count, resolve_rows, row_step, row_views, validate_header,
    ErrorView, RawRow, RecordView, ResolvedRecord, StateView, TranscodeError, TranscoderState,
};

verus! {

/// serde_json's error, carried opaque: only its presence is read.
#[verifier::external_type_specification]
#[verifier::external_body]
pub struct ExJsonError(serde_json::Error);

/// The digit of value `d` in base sixteen, lower case.
pub open spec fn hex_digit(d: int) -> char {
    seq!['0', '1', '2', '3', '4', '5', '6', '7', '8', '9', 'a', 'b', 'c', 'd', 'e', 'f'][d]
}

/// How one character stands inside a JSON string: quote, backslash and the
/// control characters escaped, with the short forms where JSON has one.
pub open spec fn json_escape(c: char) -> Seq<char> {
    if c == '"' {
        seq!['\\', '"']
    } else if c == '\\' {
        seq!['\\', '\\']
    } else if c == '\u{8}' {
        seq!['\\', 'b']
    } else if c == '\t' {
        seq!['\\', 't']
    } else if c == '\n' {
        seq!['\\', 'n']
    } else if c == '\u{c}' {
        seq!['\\', 'f']
    } else if c == '\r' {
        seq!['\\', 'r']
    } else if (c as u32) < 0x20 {
        seq!['\\', 'u', '0', '0', hex_digit((c as u32) as int / 16), hex_digit((c as u32) as int % 16)]
    } else {
        seq![c]
    }
}

/// The characters of `s`, each as it stands inside a JSON string.
pub open spec fn json_escaped(s: Seq<char>) -> Seq<char>
    decreases s.len(),
{
    if s.len() == 0 {
        s
    } else {
        json_escaped(s.drop_last()) + json_escape(s.last())
    }
}

/// `s` as a JSON string literal.
pub open spec fn json_string(s: Seq<char>) -> Seq<char> {
    seq!['"'] + json_escaped(s) + seq!['"']
}

/// Relies on `serde_json::to_string` applied to a `str`: it serializes into a
/// `Vec`, which cannot fail, and gives the text between double quotes, with
/// `"`, `\` and the characters below U+0020 escaped.
#[verifier::external_body]
fn encode_json_string(s: &str) -> (r: Result<String, serde_json::Error>)
    ensures
        r is Ok,
        r->Ok_0@ == json_string(s@),
{
    serde_json::to_string(s)
}

/// Appends `s` as a JSON string literal.
fn push_json_string(out: &mut String, s: &str)
    ensures
        final(out)@ == old(out)@ + json_string(s@),
{
    if let Ok(j) = encode_json_string(s) {
        out.append(j.as_str());
    }
}

/// The decimal digit of value `d`.
pub open spec fn decimal_digit(d: int) -> char {
    seq!['0', '1', '2', '3', '4', '5', '6', '7', '8', '9'][d]
}

/// The decimal digits of `n`, without leading zeros.
pub open spec fn digits(n: nat) -> Seq<char>
    decreases n,
{
    if n < 10 {
        seq![decimal_digit(n as int)]
    } else {
        digits(n / 10).push(decimal_digit((n % 10) as int))
    }
}

/// `n` in decimal, with a minus sign where it is negative.
pub open spec fn decimal(n: int) -> Seq<char> {
    if n < 0 {
        seq!['-'] + digits((-n) as nat)
    } else {
        digits(n as nat)
    }
}

fn digit_char(d: u32) -> (c: char)
    requires
        d < 10,
    ensures
        c == decimal_digit(d as int),
{
    match d {
        0 => '0',
        1 => '1',
        2 => '2',
        3 => '3',
        4 => '4',
        5 => '5',
        6 => '6',
        7 => '7',
        8 => '8',
        _ => '9',
    }
}

fn push_digits(out: &mut String, n: u32)
    ensures
        final(out)@ == old(out)@ + digits(n as nat),
    decreases n,
{
    if n >= 10 {
        push_digits(out, n / 10);
    }
    out.push(digit_char(n % 10));
    assert(final(out)@ =~= old(out)@ + digits(n as nat));
}

/// Appends `n` in decimal.
pub fn push_decimal(out: &mut String, n: i32)
    ensures
        final(out)@ == old(out)@ + decimal(n as int),
{
    if n < 0 {
        out.push('-');
        let m: u32 = (-(n as i64)) as u32;
        push_digits(out, m);
        assert(final(out)@ =~= old(out)@ + decimal(n as int));
    } else {
        push_digits(out, n as u32);
    }
}

/// Strings as JSON string literals, separated by commas.
pub open spec fn json_list(ns: Seq<Seq<char>>) -> Seq<char>
    decreases ns.len(),
{
    if ns.len() == 0 {
        seq![]
    } else if ns.len() == 1 {
        json_string(ns[0])
    } else {
        json_list(ns.drop_last()) + seq![','] + json_string(ns.last())
    }
}

/// The `synonym` member of a record object, where there is a synonym.
pub open spec fn synonym_json(synonym: Option<Seq<char>>) -> Seq<char> {
    match synonym {
        Some(y) => ",\"synonym\":"@ + json_string(y),
        None => seq![],
    }
}

/// A record as a JSON object.
pub open spec fn record_json(rec: RecordView) -> Seq<char> {
    "{\"page\":"@ + decimal(rec.page as int) + ",\"scientific_name\":"@ + json_string(
        rec.scientific_name,
    ) + synonym_json(rec.synonym) + ",\"common_names\":{\"hu\":["@ + json_list(rec.common_names_hu)
        + "]}}"@
}

/// Renders record `rec` as a JSON object.
pub fn render_record(rec: &ResolvedRecord) -> (r: String)
    ensures
        r@ == record_json(rec@),
{
    let mut out = String::new();
    out.append("{\"page\":");
    push_decimal(&mut out, rec.page);
    out.append(",\"scientific_name\":");
    push_json_string(&mut out, rec.scientific_name.as_str());
    let ghost before_synonym = out@;
    if let Some(y) = &rec.synonym {
        out.append(",\"synonym\":");
        push_json_string(&mut out, y.as_str());
    }
    assert(out@ =~= before_synonym + synonym_json(rec@.synonym));
    out.append(",\"common_names\":{\"hu\":[");
    let ghost before_list = out@;
    let names = &rec.common_names_hu;
    let mut i: usize = 0;
    while i < names.len()
        invariant
            i <= names.len(),
            out@ == before_list + json_list(views(names@.subrange(0, i as int))),
        decreases names.len() - i,
    {
        let ghost prev = out@;
        assert(views(names@.subrange(0, i + 1)).drop_last() =~= views(names@.subrange(0, i as int)));
        if i > 0 {
            out.push(',');
        }
        push_json_string(&mut out, names[i].as_str());
        i = i + 1;
        assert(out@ =~= before_list + json_list(views(names@.subrange(0, i as int))));
    }
    assert(names@.subrange(0, names.len() as int) =~= names@);
    out.append("]}}");
    out
}

/// The line of the `k`-th record (from 0): a comma before every record but
/// the first, and a line break after each.
pub open spec fn record_line(k: nat, rec: RecordView) -> Seq<char> {
    (if k == 0 {
        seq![]
    } else {
        seq![',']
    }) + record_json(rec) + seq!['\n']
}

/// The lines of all of `recs`.
pub open spec fn record_lines(recs: Seq<RecordView>) -> Seq<char>
    decreases recs.len(),
{
    if recs.len() == 0 {
        seq![]
    } else {
        record_lines(recs.drop_last()) + record_line((recs.len() - 1) as nat, recs.last())
    }
}

/// What ends the array after `n` records; with none, a line break keeps
/// every line led by `[`, `,` or `]`.
pub open spec fn array_end(n: nat) -> Seq<char> {
    (if n == 0 {
        seq!['\n']
    } else {
        seq![]
    }) + seq![']', '\n']
}

/// The whole JSON document for `recs`.
pub open spec fn document(recs: Seq<RecordView>) -> Seq<char> {
    seq!['['] + record_lines(recs) + array_end(recs.len())
}

/// A transcoding in progress: the state carried forward and the number of
/// rows resolved.
pub struct Transcoder {
    pub state: TranscoderState,
    pub rows: usize,
}

impl Transcoder {
    /// Starts a transcoding for a table with the given header names.
    pub fn new(headers: &Vec<String>) -> (r: Result<Transcoder, TranscodeError>)
        ensures
            r is Ok <==> page_header_count(views(headers@)) == 1,
            r is Ok ==> r->Ok_0.state@ == crate::transcode::initial_state() && r->Ok_0.rows == 0,
            r is Err ==> r->Err_0@ == (ErrorView::Schema {
                page_columns: page_header_count(views(headers@)),
            }),
    {
        match validate_header(headers) {
            Ok(()) => Ok(Transcoder { state: TranscoderState::new(), rows: 0 }),
            Err(e) => Err(e),
        }
    }

    /// What opens the array.
    pub fn start(&self) -> (r: String)
        ensures
            r@ == seq!['['],
    {
        let mut r = String::new();
        r.push('[');
        r
    }

    /// Resolves the next row and returns its line of output. On a fault
    /// `self` is left as it was.
    pub fn feed(&mut self, row: &RawRow) -> (r: Result<String, TranscodeError>)
        requires
            old(self).rows < usize::MAX,
        ensures
            match row_step(old(self).state@, row@, (old(self).rows + 1) as nat) {
                Ok((st, rec)) => r is Ok && r->Ok_0@ == record_line(old(self).rows as nat, rec)
                    && final(self).state@ == st && final(self).rows == old(self).rows + 1,
                Err(e) => r is Err && r->Err_0@ == e && final(self).state@ == old(self).state@
                    && final(self).rows == old(self).rows,
            },
    {
        let n = self.rows + 1;
        match self.state.resolve(row, n) {
            Ok((next, rec)) => {
                let obj = render_record(&rec);
                let mut line = String::new();
                if self.rows > 0 {
                    line.push(',');
                }
                line.append(obj.as_str());
                line.push('\n');
                assert(line@ =~= record_line(self.rows as nat, rec@));
                self.state = next;
                self.rows = n;
                Ok(line)
            },
            Err(e) => Err(e),
        }
    }

    /// What closes the array after the rows fed so far.
    pub fn finish(&self) -> (r: String)
        ensures
            r@ == array_end(self.rows as nat),
    {
        let mut r = String::new();
        if self.rows == 0 {
            r.push('\n');
        }
        r.push(']');
        r.push('\n');
        assert(r@ =~= array_end(self.rows as nat));
        r
    }
}

/// Transcodes a whole table: the header names and the rows in order.
pub fn transcode(headers: &Vec<String>, rows: &Vec<RawRow>) -> (r: Result<String, TranscodeError>)
    ensures
        page_header_count(views(headers@)) != 1 ==> r is Err && r->Err_0@ == (ErrorView::Schema {
            page_columns: page_header_count(views(headers@)),
        }),
        page_header_count(views(headers@)) == 1 ==> match resolve_rows(row_views(rows@)) {
            Ok((_, recs)) => r is Ok && r->Ok_0@ == document(recs),
            Err(e) => r is Err && r->Err_0@ == e,
        },
{
    let mut t = match Transcoder::new(headers) {
        Ok(t) => t,
        Err(e) => return Err(e),
    };
    let mut out = t.start();
    let ghost recs: Seq<RecordView> = seq![];
    let mut i: usize = 0;
    assert(row_views(rows@.subrange(0, 0)) =~= seq![]);
    while i < rows.len()
        invariant
            i <= rows.len(),
            page_header_count(views(headers@)) == 1,
            t.rows == i,
            resolve_rows(row_views(rows@.subrange(0, i as int))) == Ok::<(StateView, Seq<RecordView>), ErrorView>((t.state@, recs)),
            recs.len() == i,
            out@ == seq!['['] + record_lines(recs),
        decreases rows.len() - i,
    {
        let ghost prefix = row_views(rows@.subrange(0, i + 1));
        assert(prefix.drop_last() =~= row_views(rows@.subrange(0, i as int)));
        assert(prefix.last() == rows@[i as int]@);
        let ghost st0 = t.state@;
        match t.feed(&rows[i]) {
            Ok(line) => {
                proof {
                    let rec = row_step(st0, rows@[i as int]@, (i + 1) as nat)->Ok_0.1;
                    let prev = recs;
                    recs = recs.push(rec);
                    assert(recs.drop_last() =~= prev);
                }
                out.append(line.as_str());
                assert(out@ =~= seq!['['] + record_lines(recs));
            },
            Err(e) => {
                proof {
                    assert(row_views(rows@).subrange(0, i + 1) =~= prefix);
                    crate::transcode::lemma_resolve_rows_stops(row_views(rows@), i + 1);
                }
                return Err(e);
            },
        }
        i = i + 1;
    }
    assert(rows@.subrange(0, rows.len() as int) =~= rows@);
    let end = t.finish();
    out.append(end.as_str());
    assert(out@ =~= document(recs));
    Ok(out)
}

} // verus!
