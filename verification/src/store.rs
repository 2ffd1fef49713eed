//! The record store's on-disk shape: delimited text with a fixed header row,
//! one `;`-separated, newline-terminated row per completed record. Rows are
//! encoded through the csv crate; the shape itself, and reading it back, are
//! specified and verified here, so appending and re-reading round-trips.
use vstd::prelude::*;
use crate::assembler::CompletedRecord;
use crate::clock::{ts_bytes, ts_byte, lemma_ts_bytes, format_timestamp};
use crate::scan::{idx_of, lemma_idx_of_at, lemma_idx_of_bounds, find_from};
use crate::value::{value_byte, lemma_float_token_bytes};

verus! {

/// A byte a field may hold: not the delimiter, not a quote, not a line break.
pub open spec fn field_byte_ok(b: u8) -> bool {
    b != 59 && b != 10 && b != 13 && b != 34
}

pub open spec fn field_ok(f: Seq<u8>) -> bool {
    forall|i: int| 0 <= i < f.len() ==> field_byte_ok(f[i])
}

/// A row the store may hold: at least two plain fields.
pub open spec fn row_ok(r: Seq<Seq<u8>>) -> bool {
    r.len() >= 2 && forall|i: int| 0 <= i < r.len() ==> field_ok(#[trigger] r[i])
}

pub open spec fn rows_ok(rs: Seq<Seq<Seq<u8>>>) -> bool {
    forall|i: int| 0 <= i < rs.len() ==> row_ok(#[trigger] rs[i])
}

/// A row's text: its fields joined by the delimiter.
pub open spec fn encode_line(fs: Seq<Seq<u8>>) -> Seq<u8>
    decreases fs.len(),
{
    if fs.len() == 0 {
        Seq::empty()
    } else if fs.len() == 1 {
        fs[0]
    } else {
        fs[0] + seq![59u8] + encode_line(fs.skip(1))
    }
}

/// The store's text: each row's line, newline-terminated.
pub open spec fn encode_rows(rs: Seq<Seq<Seq<u8>>>) -> Seq<u8>
    decreases rs.len(),
{
    if rs.len() == 0 {
        Seq::empty()
    } else {
        encode_line(rs[0]) + seq![10u8] + encode_rows(rs.skip(1))
    }
}

/// A line split at each delimiter.
pub open spec fn split_fields(s: Seq<u8>) -> Seq<Seq<u8>>
    decreases s.len(),
{
    let k = idx_of(s, 59);
    if 0 <= k < s.len() {
        seq![s.take(k)] + split_fields(s.skip(k + 1))
    } else {
        seq![s]
    }
}

/// Text split at each newline, one row of fields per line; a final
/// unterminated line still counts.
pub open spec fn split_rows(s: Seq<u8>) -> Seq<Seq<Seq<u8>>>
    decreases s.len(),
{
    if s.len() == 0 {
        Seq::empty()
    } else {
        let k = idx_of(s, 10);
        if 0 <= k < s.len() {
            seq![split_fields(s.take(k))] + split_rows(s.skip(k + 1))
        } else {
            seq![split_fields(s)]
        }
    }
}

/// No byte of a joined line is a newline, and none is a delimiter beyond the
/// joins themselves; in particular the line never holds a newline.
proof fn lemma_encode_line_no_newline(fs: Seq<Seq<u8>>)
    requires
        forall|i: int| 0 <= i < fs.len() ==> field_ok(#[trigger] fs[i]),
    ensures
        forall|i: int| 0 <= i < encode_line(fs).len() ==> encode_line(fs)[i] != 10,
    decreases fs.len(),
{
    if fs.len() == 0 {
    } else if fs.len() == 1 {
        assert(field_ok(fs[0]));
    } else {
        lemma_encode_line_no_newline(fs.skip(1));
        let e = encode_line(fs);
        let head = fs[0];
        let tail = encode_line(fs.skip(1));
        assert(field_ok(fs[0]));
        assert forall|i: int| 0 <= i < e.len() implies e[i] != 10 by {
            if i < head.len() {
                assert(e[i] == head[i]);
            } else if i == head.len() {
                assert(e[i] == 59);
            } else {
                assert(e[i] == tail[i - head.len() - 1]);
            }
        }
    }
}

/// Splitting a joined line at the delimiter gives the fields back.
proof fn lemma_split_fields_join(fs: Seq<Seq<u8>>)
    requires
        fs.len() >= 1,
        forall|i: int| 0 <= i < fs.len() ==> field_ok(#[trigger] fs[i]),
    ensures
        split_fields(encode_line(fs)) == fs,
    decreases fs.len(),
{
    if fs.len() == 1 {
        let e = encode_line(fs);
        assert(field_ok(fs[0]));
        lemma_idx_of_at(e, 59, e.len() as int);
        assert(split_fields(e) =~= fs);
    } else {
        let e = encode_line(fs);
        let head = fs[0];
        let tail = encode_line(fs.skip(1));
        assert(field_ok(fs[0]));
        assert forall|i: int| 0 <= i < head.len() implies e[i] != 59 by {
            assert(e[i] == head[i]);
        }
        assert(e[head.len() as int] == 59);
        lemma_idx_of_at(e, 59, head.len() as int);
        assert(e.take(head.len() as int) =~= head);
        assert(e.skip(head.len() as int + 1) =~= tail);
        lemma_split_fields_join(fs.skip(1));
        assert(split_fields(e) =~= fs);
    }
}

/// Splitting the store's text at newlines, then each line at the delimiter,
/// gives every appended row back, after whatever single header line the text
/// began with. This is the store format's round-trip law.
pub proof fn lemma_store_round_trip(header: Seq<Seq<u8>>, rs: Seq<Seq<Seq<u8>>>)
    requires
        header.len() >= 1,
        forall|i: int| 0 <= i < header.len() ==> field_ok(#[trigger] header[i]),
        rows_ok(rs),
    ensures
        split_rows(encode_rows(seq![header] + rs)) == seq![header] + rs,
{
    lemma_split_rows_join(seq![header] + rs);
}

/// Splitting joined rows at the newlines gives the rows back.
pub proof fn lemma_split_rows_join(rs: Seq<Seq<Seq<u8>>>)
    requires
        forall|i: int| 0 <= i < rs.len() ==> #[trigger] rs[i].len() >= 1,
        forall|i: int, j: int|
            0 <= i < rs.len() && 0 <= j < rs[i].len() ==> field_ok(#[trigger] rs[i][j]),
    ensures
        split_rows(encode_rows(rs)) == rs,
    decreases rs.len(),
{
    if rs.len() == 0 {
    } else {
        let e = encode_rows(rs);
        let head = encode_line(rs[0]);
        let tail = encode_rows(rs.skip(1));
        assert forall|i: int| 0 <= i < rs[0].len() implies field_ok(#[trigger] rs[0][i]) by {}
        lemma_encode_line_no_newline(rs[0]);
        assert forall|i: int| 0 <= i < head.len() implies e[i] != 10 by {
            assert(e[i] == head[i]);
        }
        assert(e[head.len() as int] == 10);
        assert(e.len() > 0);
        lemma_idx_of_at(e, 10, head.len() as int);
        assert(e.take(head.len() as int) =~= head);
        assert(e.skip(head.len() as int + 1) =~= tail);
        lemma_split_fields_join(rs[0]);
        assert forall|i: int| 0 <= i < rs.skip(1).len() implies #[trigger] rs.skip(1)[i].len()
            >= 1 by {
            assert(rs.skip(1)[i] == rs[i + 1]);
        }
        assert forall|i: int, j: int|
            0 <= i < rs.skip(1).len() && 0 <= j < rs.skip(1)[i].len() implies field_ok(
            #[trigger] rs.skip(1)[i][j],
        ) by {
            assert(rs.skip(1)[i] == rs[i + 1]);
        }
        lemma_split_rows_join(rs.skip(1));
        assert(split_rows(e) =~= rs);
    }
}

/// The fixed header row: Time, Temperature, Humidity, Pressure.
pub open spec fn header_row() -> Seq<Seq<u8>> {
    seq![
        seq![84u8, 105u8, 109u8, 101u8],
        seq![84u8, 101u8, 109u8, 112u8, 101u8, 114u8, 97u8, 116u8, 117u8, 114u8, 101u8],
        seq![72u8, 117u8, 109u8, 105u8, 100u8, 105u8, 116u8, 121u8],
        seq![80u8, 114u8, 101u8, 115u8, 115u8, 117u8, 114u8, 101u8],
    ]
}

/// The bytes of the header line, newline included.
pub open spec fn header_bytes() -> Seq<u8> {
    encode_line(header_row()) + seq![10u8]
}

pub proof fn lemma_header_row_ok()
    ensures
        row_ok(header_row()),
{
    let h = header_row();
    assert forall|i: int| 0 <= i < h.len() implies field_ok(#[trigger] h[i]) by {
        let f = h[i];
        assert forall|j: int| 0 <= j < f.len() implies field_byte_ok(f[j]) by {
            if i == 0 {
                assert(field_byte_ok(h[0][j]));
            } else if i == 1 {
                assert(field_byte_ok(h[1][j]));
            } else if i == 2 {
                assert(field_byte_ok(h[2][j]));
            } else {
                assert(field_byte_ok(h[3][j]));
            }
        }
    }
}

/// The four store fields of one completed record.
pub open spec fn record_fields(rec: CompletedRecord) -> Seq<Seq<u8>> {
    seq![ts_bytes(rec.timestamp), rec.temperature@, rec.humidity@, rec.pressure@]
}

/// A well-formed record's row is a well-formed store row.
pub proof fn lemma_record_fields_ok(rec: CompletedRecord)
    requires
        rec.wf(),
    ensures
        row_ok(record_fields(rec)),
{
    let fs = record_fields(rec);
    lemma_ts_bytes(rec.timestamp);
    lemma_float_token_bytes(rec.temperature@);
    lemma_float_token_bytes(rec.humidity@);
    lemma_float_token_bytes(rec.pressure@);
    assert forall|i: int| 0 <= i < fs.len() implies field_ok(#[trigger] fs[i]) by {
        if i == 0 {
            assert forall|j: int| 0 <= j < fs[0].len() implies field_byte_ok(fs[0][j]) by {
                assert(ts_byte(ts_bytes(rec.timestamp)[j]));
            }
        } else if i == 1 {
            assert forall|j: int| 0 <= j < fs[1].len() implies field_byte_ok(fs[1][j]) by {
                assert(value_byte(rec.temperature@[j]));
            }
        } else if i == 2 {
            assert forall|j: int| 0 <= j < fs[2].len() implies field_byte_ok(fs[2][j]) by {
                assert(value_byte(rec.humidity@[j]));
            }
        } else {
            assert forall|j: int| 0 <= j < fs[3].len() implies field_byte_ok(fs[3][j]) by {
                assert(value_byte(rec.pressure@[j]));
            }
        }
    }
}

/// Relies on csv::WriterBuilder / csv::Writer with the `;` delimiter and the
/// default quoting and `\n` terminator: fields free of the delimiter, of
/// quotes and of line breaks are written verbatim, joined by the delimiter,
/// and the record is terminated by one newline.
#[verifier::external_body]
fn csv_encode_row(fields: &Vec<Vec<u8>>) -> (r: Vec<u8>)
    requires
        fields.deep_view().len() >= 2,
        forall|i: int|
            0 <= i < fields.deep_view().len() ==> field_ok(#[trigger] fields.deep_view()[i]),
    ensures
        r@ == encode_line(fields.deep_view()) + seq![10u8],
{
    let mut wtr = csv::WriterBuilder::new().delimiter(b';').from_writer(Vec::new());
    wtr.write_record(fields).expect("an in-memory write cannot fail");
    wtr.into_inner().expect("an in-memory flush cannot fail")
}

/// Copy of `v[lo..hi]`.
fn copy_range(v: &Vec<u8>, lo: usize, hi: usize) -> (r: Vec<u8>)
    requires
        lo <= hi <= v.len(),
    ensures
        r@ == v@.subrange(lo as int, hi as int),
{
    let mut r: Vec<u8> = Vec::new();
    let mut i = lo;
    while i < hi
        invariant
            lo <= i <= hi <= v.len(),
            r@ =~= v@.subrange(lo as int, i as int),
        decreases hi - i,
    {
        r.push(v[i]);
        i = i + 1;
    }
    proof {
        assert(r@ =~= v@.subrange(lo as int, hi as int));
    }
    r
}

/// Split one line at each delimiter.
pub fn split_fields_bytes(line: &Vec<u8>) -> (r: Vec<Vec<u8>>)
    ensures
        r.deep_view() == split_fields(line@),
{
    let n = line.len();
    let mut r: Vec<Vec<u8>> = Vec::new();
    let mut start: usize = 0;
    let mut done = false;
    proof {
        assert(line@.skip(0) =~= line@);
        assert(r.deep_view() =~= Seq::<Seq<u8>>::empty());
        assert(r.deep_view() + split_fields(line@) =~= split_fields(line@));
    }
    while !done
        invariant
            start <= n,
            n == line.len(),
            done ==> r.deep_view() == split_fields(line@),
            !done ==> split_fields(line@) == r.deep_view() + split_fields(
                line@.skip(start as int),
            ),
        decreases n - start + (if done { 0int } else { 1 }),
    {
        let k = find_from(line, start, 59);
        let piece = copy_range(line, start, k);
        let ghost old_dv = r.deep_view();
        proof {
            assert(piece.deep_view() =~= piece@);
        }
        r.push(piece);
        proof {
            assert(r.deep_view() =~= old_dv.push(piece@));
            let s = line@.skip(start as int);
            lemma_idx_of_bounds(s, 59);
            if k < n {
                assert(s.take(idx_of(s, 59)) =~= line@.subrange(start as int, k as int));
                assert(s.skip(idx_of(s, 59) + 1) =~= line@.skip(k + 1));
                assert(split_fields(s) == seq![piece@] + split_fields(line@.skip(k + 1)));
                assert(old_dv.push(piece@) + split_fields(line@.skip(k + 1)) =~= old_dv + seq![
                    piece@,
                ] + split_fields(line@.skip(k + 1)));
                assert(old_dv + seq![piece@] + split_fields(line@.skip(k + 1)) =~= old_dv + (seq![
                    piece@,
                ] + split_fields(line@.skip(k + 1))));
            } else {
                assert(s.take(idx_of(s, 59)) =~= s);
                assert(split_fields(s) == seq![s]);
                assert(piece@ =~= s);
                assert(old_dv.push(piece@) =~= old_dv + seq![piece@]);
            }
        }
        if k == n {
            done = true;
        } else {
            start = k + 1;
        }
    }
    r
}

/// Split store text at the newlines, one row of fields per line.
pub fn split_rows_bytes(data: &Vec<u8>) -> (r: Vec<Vec<Vec<u8>>>)
    ensures
        r.deep_view() == split_rows(data@),
{
    let n = data.len();
    let mut r: Vec<Vec<Vec<u8>>> = Vec::new();
    let mut start: usize = 0;
    let mut done = start == n;
    proof {
        if done {
            assert(data@.skip(start as int) =~= Seq::<u8>::empty());
            assert(r.deep_view() =~= split_rows(data@));
        } else {
            assert(data@.skip(0) =~= data@);
            assert(r.deep_view() =~= Seq::<Seq<Seq<u8>>>::empty());
            assert(r.deep_view() + split_rows(data@) =~= split_rows(data@));
        }
    }
    while !done
        invariant
            start <= n,
            n == data.len(),
            done ==> r.deep_view() == split_rows(data@),
            !done ==> start < n,
            !done ==> split_rows(data@) == r.deep_view() + split_rows(data@.skip(start as int)),
        decreases n - start + (if done { 0int } else { 1 }),
    {
        let k = find_from(data, start, 10);
        let piece = copy_range(data, start, k);
        let row = split_fields_bytes(&piece);
        let ghost old_dv = r.deep_view();
        r.push(row);
        proof {
            assert(r.deep_view() =~= old_dv.push(row.deep_view()));
            let s = data@.skip(start as int);
            lemma_idx_of_bounds(s, 10);
            assert(s.len() > 0);
            if k < n {
                assert(s.take(idx_of(s, 10)) =~= data@.subrange(start as int, k as int));
                assert(s.skip(idx_of(s, 10) + 1) =~= data@.skip(k + 1));
                assert(split_rows(s) == seq![split_fields(piece@)] + split_rows(data@.skip(k + 1)));
                assert(old_dv.push(row.deep_view()) + split_rows(data@.skip(k + 1)) =~= old_dv
                    + seq![split_fields(piece@)] + split_rows(data@.skip(k + 1)));
                assert(old_dv + seq![split_fields(piece@)] + split_rows(data@.skip(k + 1)) =~=
                    old_dv + (seq![split_fields(piece@)] + split_rows(data@.skip(k + 1))));
                if k + 1 == n {
                    assert(data@.skip(k + 1) =~= Seq::<u8>::empty());
                }
            } else {
                assert(s.take(idx_of(s, 10)) =~= s);
                assert(piece@ =~= s);
                assert(split_rows(s) == seq![split_fields(s)]);
                assert(old_dv.push(row.deep_view()) =~= old_dv + seq![split_fields(s)]);
            }
        }
        if k == n {
            done = true;
        } else {
            start = k + 1;
            if start == n {
                done = true;
                proof {
                    assert(data@.skip(start as int) =~= Seq::<u8>::empty());
                }
            }
        }
    }
    r
}

/// Appending one row extends the text by that row's line.
proof fn lemma_encode_rows_snoc(rs: Seq<Seq<Seq<u8>>>, row: Seq<Seq<u8>>)
    ensures
        encode_rows(rs.push(row)) == encode_rows(rs) + encode_line(row) + seq![10u8],
    decreases rs.len(),
{
    if rs.len() == 0 {
        assert(rs.push(row).skip(1) =~= Seq::<Seq<Seq<u8>>>::empty());
        assert(rs.push(row)[0] == row);
        assert(encode_rows(Seq::<Seq<Seq<u8>>>::empty()) == Seq::<u8>::empty());
        assert(encode_rows(rs.push(row)) =~= encode_rows(rs) + encode_line(row) + seq![10u8]);
    } else {
        assert(rs.push(row).skip(1) =~= rs.skip(1).push(row));
        lemma_encode_rows_snoc(rs.skip(1), row);
        assert(encode_rows(rs.push(row)) =~= encode_rows(rs) + encode_line(row) + seq![10u8]);
    }
}

/// The header fields as freshly built vectors.
fn header_fields() -> (r: Vec<Vec<u8>>)
    ensures
        r.deep_view() == header_row(),
{
    let mut r: Vec<Vec<u8>> = Vec::new();
    r.push(vec![84u8, 105u8, 109u8, 101u8]);
    r.push(vec![84u8, 101u8, 109u8, 112u8, 101u8, 114u8, 97u8, 116u8, 117u8, 114u8, 101u8]);
    r.push(vec![72u8, 117u8, 109u8, 105u8, 100u8, 105u8, 116u8, 121u8]);
    r.push(vec![80u8, 114u8, 101u8, 115u8, 115u8, 117u8, 114u8, 101u8]);
    proof {
        assert(r.deep_view() =~~= header_row());
    }
    r
}

/// Writing the header is idempotent: however often it is written, the
/// store's text is the single header line, which decodes to exactly one
/// header row and no data rows.
pub proof fn lemma_header_idempotent()
    ensures
        split_rows(header_bytes()) == seq![header_row()],
{
    lemma_header_row_ok();
    let hs = seq![header_row()];
    assert forall|i: int| 0 <= i < hs.len() implies #[trigger] hs[i].len() >= 1 by {
        assert(hs[i] == header_row());
    }
    assert forall|i: int, j: int| 0 <= i < hs.len() && 0 <= j < hs[i].len() implies field_ok(
        #[trigger] hs[i][j],
    ) by {
        assert(hs[i] == header_row());
    }
    lemma_split_rows_join(hs);
    assert(hs.skip(1) =~= Seq::<Seq<Seq<u8>>>::empty());
    assert(encode_rows(Seq::<Seq<Seq<u8>>>::empty()) == Seq::<u8>::empty());
    assert(encode_rows(hs) =~= header_bytes());
}

/// The record store as the append-only text it persists: the header line,
/// then one line per appended record. The ghost `rows` are the appended
/// rows; well-formedness ties the text to them exactly.
pub struct RecordStore {
    pub content: Vec<u8>,
    pub rows: Ghost<Seq<Seq<Seq<u8>>>>,
}

impl RecordStore {
    /// The store's full row sequence, header first.
    pub open spec fn all_rows(&self) -> Seq<Seq<Seq<u8>>> {
        seq![header_row()] + self.rows@
    }

    /// The text is exactly the encoding of the header and the appended rows.
    pub open spec fn wf(&self) -> bool {
        rows_ok(self.rows@) && self.content@ == encode_rows(self.all_rows())
    }

    /// A fresh store: a header line and nothing else.
    pub fn new() -> (s: RecordStore)
        ensures
            s.wf(),
            s.rows@ == Seq::<Seq<Seq<u8>>>::empty(),
            s.content@ == header_bytes(),
    {
        let mut s = RecordStore { content: Vec::new(), rows: Ghost(Seq::empty()) };
        let _ = s.write_header();
        s
    }

    /// Truncate to a fresh header line, whatever was there: writing the
    /// header is idempotent, and never leaves a second header row. Returns
    /// the full new text, for a caller that mirrors the store to a file.
    pub fn write_header(&mut self) -> (hdr: Vec<u8>)
        ensures
            final(self).wf(),
            final(self).rows@ == Seq::<Seq<Seq<u8>>>::empty(),
            final(self).content@ == header_bytes(),
            hdr@ == header_bytes(),
    {
        let fields = header_fields();
        proof {
            lemma_header_row_ok();
        }
        let hdr = csv_encode_row(&fields);
        self.content = copy_range(&hdr, 0, hdr.len());
        self.rows = Ghost(Seq::empty());
        proof {
            assert(hdr@ =~= self.content@);
            assert(self.all_rows() =~= seq![header_row()]);
            assert(self.all_rows().skip(1) =~= Seq::<Seq<Seq<u8>>>::empty());
            assert(self.all_rows()[0] == header_row());
            assert(encode_rows(Seq::<Seq<Seq<u8>>>::empty()) == Seq::<u8>::empty());
            assert(encode_rows(self.all_rows()) =~= header_bytes());
        }
        hdr
    }

    /// Append one completed record as a row. Returns the row's bytes, for a
    /// caller that mirrors the store to a file.
    pub fn append(&mut self, rec: &CompletedRecord) -> (row: Vec<u8>)
        requires
            old(self).wf(),
            rec.wf(),
        ensures
            final(self).wf(),
            final(self).rows@ == old(self).rows@.push(record_fields(*rec)),
            row@ == encode_line(record_fields(*rec)) + seq![10u8],
            final(self).content@ == old(self).content@ + row@,
    {
        let mut fields: Vec<Vec<u8>> = Vec::new();
        fields.push(format_timestamp(&rec.timestamp));
        fields.push(rec.temperature.duplicate().bytes);
        fields.push(rec.humidity.duplicate().bytes);
        fields.push(rec.pressure.duplicate().bytes);
        proof {
            assert(fields.deep_view() =~~= record_fields(*rec));
            lemma_record_fields_ok(*rec);
        }
        let row = csv_encode_row(&fields);
        self.content.extend_from_slice(row.as_slice());
        proof {
            assert(self.content@ =~= old(self).content@ + row@);
        }
        self.rows = Ghost(self.rows@.push(record_fields(*rec)));
        proof {
            assert(self.all_rows() =~= old(self).all_rows().push(record_fields(*rec)));
            lemma_encode_rows_snoc(old(self).all_rows(), record_fields(*rec));
            assert(old(self).content@ + row@ =~= encode_rows(old(self).all_rows()) + encode_line(
                record_fields(*rec),
            ) + seq![10u8]);
            assert forall|i: int| 0 <= i < self.rows@.len() implies row_ok(
                #[trigger] self.rows@[i],
            ) by {
                if i < old(self).rows@.len() {
                    assert(self.rows@[i] == old(self).rows@[i]);
                } else {
                    assert(self.rows@[i] == record_fields(*rec));
                }
            }
        }
        row
    }

    /// Read every data row back out of the store's text, in order: the rows
    /// decode to exactly the appended records' fields.
    pub fn read_back(&self) -> (rows: Vec<Vec<Vec<u8>>>)
        requires
            self.wf(),
        ensures
            rows.deep_view() == self.rows@,
    {
        proof {
            lemma_header_row_ok();
            lemma_encode_line_no_newline(header_row());
        }
        let ghost he = encode_line(header_row());
        let ghost tail = encode_rows(self.rows@);
        proof {
            assert(self.all_rows()[0] == header_row());
            assert(self.all_rows().skip(1) =~= self.rows@);
            assert(self.content@ == he + seq![10u8] + tail);
            assert forall|i: int| 0 <= i < he.len() implies self.content@[i] != 10 by {
                assert(self.content@[i] == he[i]);
            }
            assert(self.content@[he.len() as int] == 10);
            lemma_idx_of_at(self.content@, 10, he.len() as int);
            assert(self.content@.skip(0) =~= self.content@);
        }
        let k0 = find_from(&self.content, 0, 10);
        let rest = copy_range(&self.content, k0 + 1, self.content.len());
        proof {
            assert(rest@ =~= tail);
            assert forall|i: int| 0 <= i < self.rows@.len() implies #[trigger] self.rows@[i].len()
                >= 1 by {
                assert(row_ok(self.rows@[i]));
            }
            assert forall|i: int, j: int|
                0 <= i < self.rows@.len() && 0 <= j < self.rows@[i].len() implies field_ok(
                #[trigger] self.rows@[i][j],
            ) by {
                assert(row_ok(self.rows@[i]));
            }
            lemma_split_rows_join(self.rows@);
        }
        split_rows_bytes(&rest)
    }
}

} // verus!
