//! The table: the in-memory sequence of live rows, the byte image it is
//! flushed to on close, and the rows recovered from such an image on open.
//!
//! Flushing writes row `i` to slot `i` of the image, in insertion order.
//! Recovery reads slots in ascending order and stops at the first slot whose
//! id field is zero, or when no whole slot is left.

use vstd::prelude::*;

use crate::codec::decode_slot;
use crate::codec::deserialize_slot;
use crate::codec::encode_row;
use crate::codec::id_from_le_bytes;
use crate::codec::lemma_row_round_trip;
use crate::codec::lemma_u32_le_round_trip;
use crate::codec::serialize_row;
use crate::codec::u32_from_le;
use crate::codec::u32_le_bytes;
use crate::row::RowAbs;
use crate::row::SimpleRow;
use crate::ROW_SIZE;
use crate::TABLE_MAX_ROWS;

verus! {

/// The mathematical content of a sequence of rows.
pub open spec fn row_views(rows: Seq<SimpleRow>) -> Seq<RowAbs> {
    rows.map_values(|r: SimpleRow| r@)
}

/// The byte image that flushing a sequence of rows produces: the slots of
/// the rows, in order, with nothing in between.
pub open spec fn flush_bytes(rows: Seq<RowAbs>) -> Seq<u8>
    decreases rows.len(),
{
    if rows.len() == 0 {
        Seq::empty()
    } else {
        encode_row(rows[0]) + flush_bytes(rows.skip(1))
    }
}

/// The rows recovered from a byte image: one per slot, in ascending slot
/// order, up to the first slot whose id is zero or the end of the whole
/// slots.
pub open spec fn recover_rows(image: Seq<u8>) -> Seq<RowAbs>
    decreases image.len(),
{
    if image.len() < ROW_SIZE {
        Seq::empty()
    } else if u32_from_le(image.subrange(0, 4)) == 0 {
        Seq::empty()
    } else {
        seq![decode_slot(image.subrange(0, ROW_SIZE as int))] + recover_rows(
            image.skip(ROW_SIZE as int),
        )
    }
}

/// Every row a flush writes is well formed and live.
pub open spec fn flushable(rows: Seq<RowAbs>) -> bool {
    forall|i: int| 0 <= i < rows.len() ==> (#[trigger] rows[i]).wf()
}

/// The flush image has exactly one slot per row.
pub proof fn lemma_flush_len(rows: Seq<RowAbs>)
    requires
        flushable(rows),
    ensures
        flush_bytes(rows).len() == rows.len() * ROW_SIZE,
    decreases rows.len(),
{
    if rows.len() > 0 {
        lemma_flush_len(rows.skip(1));
        assert(rows.len() * ROW_SIZE == ROW_SIZE + (rows.len() - 1) * ROW_SIZE) by (nonlinear_arith);
    }
}

/// Appending one row to a flush appends its slot to the image.
pub proof fn lemma_flush_push(rows: Seq<RowAbs>, r: RowAbs)
    ensures
        flush_bytes(rows.push(r)) == flush_bytes(rows) + encode_row(r),
    decreases rows.len(),
{
    let snoc = rows.push(r);
    if rows.len() == 0 {
        assert(snoc.skip(1) =~= Seq::<RowAbs>::empty());
        assert(snoc[0] == r);
        assert(flush_bytes(snoc) == encode_row(r) + flush_bytes(snoc.skip(1)));
        assert(flush_bytes(snoc.skip(1)) == Seq::<u8>::empty());
        assert(flush_bytes(snoc) =~= flush_bytes(rows) + encode_row(r));
    } else {
        lemma_flush_push(rows.skip(1), r);
        assert(snoc.skip(1) =~= rows.skip(1).push(r));
        assert(snoc[0] == rows[0]);
        assert(flush_bytes(snoc) == encode_row(rows[0]) + flush_bytes(rows.skip(1).push(r)));
        assert(flush_bytes(snoc) =~= flush_bytes(rows) + encode_row(r));
    }
}

/// Slot alignment: after flushing rows at positions `0..n`, the image bytes
/// `[i * ROW_SIZE, i * ROW_SIZE + 4)` are the little-endian id of row `i`,
/// for every `i < n`.
pub proof fn lemma_slot_alignment(rows: Seq<RowAbs>, i: int)
    requires
        flushable(rows),
        0 <= i < rows.len(),
    ensures
        flush_bytes(rows).subrange(i * ROW_SIZE, i * ROW_SIZE + 4) == u32_le_bytes(rows[i].id),
    decreases i,
{
    let image = flush_bytes(rows);
    lemma_flush_len(rows);
    lemma_flush_len(rows.skip(1));
    assert(rows.len() * ROW_SIZE >= 1 * ROW_SIZE) by (nonlinear_arith)
        requires
            rows.len() >= 1,
    ;
    if i == 0 {
        assert(image.subrange(0, 4) =~= u32_le_bytes(rows[0].id));
        // pin the slot width so the offsets become concrete
        assert(ROW_SIZE == 291);
        assert(i * ROW_SIZE == 0);
    } else {
        lemma_slot_alignment(rows.skip(1), i - 1);
        assert((i - 1) * ROW_SIZE == i * ROW_SIZE - ROW_SIZE) by (nonlinear_arith);
        assert((i + 1) * ROW_SIZE == i * ROW_SIZE + ROW_SIZE) by (nonlinear_arith);
        assert(i * ROW_SIZE + ROW_SIZE <= rows.len() * ROW_SIZE && ROW_SIZE <= i * ROW_SIZE)
            by (nonlinear_arith)
            requires
                1 <= i < rows.len(),
                (i + 1) * ROW_SIZE == i * ROW_SIZE + ROW_SIZE,
        ;
        crate::codec::lemma_encode_len(rows[0]);
        assert(image.subrange(i * ROW_SIZE, i * ROW_SIZE + 4) =~= flush_bytes(
            rows.skip(1),
        ).subrange((i - 1) * ROW_SIZE, (i - 1) * ROW_SIZE + 4));
        assert(rows.skip(1)[i - 1] == rows[i]);
    }
}

/// A row that survives a flush and recovery unchanged: it is well formed,
/// live (nonzero id), and neither text field holds a zero byte.
pub open spec fn round_trippable(r: RowAbs) -> bool {
    &&& r.wf()
    &&& r.id != 0
    &&& forall|i: int| 0 <= i < r.username.len() ==> r.username[i] != 0u8
    &&& forall|i: int| 0 <= i < r.email.len() ==> r.email[i] != 0u8
}

/// Persistence round-trip: recovering from the image a flush wrote, followed
/// by any tail that does not look like a further live slot (fewer bytes than
/// a slot, or a zero id), yields exactly the rows that were flushed, in
/// order. In the backing file the tail is the zero-filled remainder of the
/// pre-extended file, so its next id field is zero.
pub proof fn lemma_persistence_round_trip(rows: Seq<RowAbs>, tail: Seq<u8>)
    requires
        forall|i: int| 0 <= i < rows.len() ==> round_trippable(#[trigger] rows[i]),
        tail.len() < ROW_SIZE || u32_from_le(tail.subrange(0, 4)) == 0,
    ensures
        recover_rows(flush_bytes(rows) + tail) == rows,
    decreases rows.len(),
{
    let image = flush_bytes(rows) + tail;
    if rows.len() == 0 {
        assert(image =~= tail);
        if tail.len() < ROW_SIZE {
            assert(recover_rows(image) =~= rows);
        } else {
            assert(recover_rows(image) =~= rows);
        }
    } else {
        let r0 = rows[0];
        let rest = rows.skip(1);
        assert(flushable(rows));
        lemma_flush_len(rows);
        assert(rows.len() * ROW_SIZE >= 1 * ROW_SIZE) by (nonlinear_arith)
            requires
                rows.len() >= 1,
        ;
        assert(image.len() >= ROW_SIZE);
        assert(image.subrange(0, 4) =~= u32_le_bytes(r0.id));
        lemma_u32_le_round_trip(r0.id);
        assert(u32_from_le(image.subrange(0, 4)) == r0.id);
        assert(image.subrange(0, ROW_SIZE as int) =~= encode_row(r0));
        lemma_row_round_trip(r0);
        assert(decode_slot(image.subrange(0, ROW_SIZE as int)) == r0);
        lemma_persistence_round_trip(rest, tail);
        assert(image.skip(ROW_SIZE as int) =~= flush_bytes(rest) + tail);
        assert(recover_rows(image) == seq![r0] + recover_rows(image.skip(ROW_SIZE as int)));
        assert(seq![r0] + rest =~= rows);
    }
}

/// The in-memory table: the live rows in insertion order, their count, and
/// whether the backing file opened cleanly.
pub struct Table {
    pub num_rows: usize,
    pub rows: Vec<SimpleRow>,
    pub file_ok: bool,
}

impl View for Table {
    type V = Seq<RowAbs>;

    open spec fn view(&self) -> Seq<RowAbs> {
        row_views(self.rows@)
    }
}

impl Table {
    /// The count matches the rows held, the capacity bound holds, and every
    /// row is well formed.
    pub open spec fn wf(self) -> bool {
        &&& self.num_rows == self.rows@.len()
        &&& self.num_rows <= TABLE_MAX_ROWS
        &&& forall|i: int| 0 <= i < self.rows@.len() ==> (#[trigger] self.rows@[i]).wf()
    }

    /// Open a table. `file_ok` says whether the backing file could be opened
    /// or created; when it could not, the table is empty and marked unusable
    /// and callers abort. Otherwise the rows are recovered from `image`, the
    /// leading bytes of the backing file (at most one byte per reserved row
    /// slot).
    pub fn new(file_ok: bool, image: &Vec<u8>) -> (t: Table)
        requires
            image.len() <= TABLE_MAX_ROWS * ROW_SIZE,
        ensures
            t.wf(),
            t.file_ok == file_ok,
            file_ok ==> t@ == recover_rows(image@),
            !file_ok ==> t@ == Seq::<RowAbs>::empty(),
    {
        if !file_ok {
            let t = Table { num_rows: 0, rows: Vec::new(), file_ok: false };
            assert(t@ =~= Seq::<RowAbs>::empty());
            return t;
        }
        let rows = read_rows_from_image(image);
        let t = Table { num_rows: rows.len(), rows, file_ok: true };
        t
    }

    /// The byte image of this table's rows, one slot per row in insertion
    /// order. The caller writes it to the start of the backing file.
    pub fn flush_image(&self) -> (r: Vec<u8>)
        requires
            self.wf(),
        ensures
            r@ == flush_bytes(self@),
            r@.len() == self.num_rows * ROW_SIZE,
    {
        let mut out: Vec<u8> = Vec::new();
        let mut i: usize = 0;
        while i < self.rows.len()
            invariant
                self.wf(),
                i <= self.rows@.len(),
                out@ == flush_bytes(self@.subrange(0, i as int)),
            decreases self.rows@.len() - i,
        {
            let mut slot = serialize_row(&self.rows[i]);
            proof {
                assert(self@.subrange(0, i as int).push(self@[i as int]) =~= self@.subrange(
                    0,
                    i + 1 as int,
                ));
                lemma_flush_push(self@.subrange(0, i as int), self@[i as int]);
            }
            out.append(&mut slot);
            i = i + 1;
        }
        assert(self@.subrange(0, self.rows@.len() as int) =~= self@);
        proof {
            assert(flushable(self@));
            lemma_flush_len(self@);
        }
        out
    }

    /// What a close writes back: the flush image, unless there is nothing to
    /// write (no rows) or the backing file never opened cleanly (nothing is
    /// attempted then).
    pub fn write_rows_to_file(&self) -> (r: Option<Vec<u8>>)
        requires
            self.wf(),
        ensures
            r is Some <==> self@.len() > 0 && self.file_ok,
            r matches Some(image) ==> image@ == flush_bytes(self@),
    {
        if self.rows.len() == 0 {
            return None;
        }
        if !self.file_ok {
            return None;
        }
        Some(self.flush_image())
    }
}

/// The rows held by the leading slots of a byte image, in ascending slot
/// order, up to the first zero id or the end of the whole slots.
fn read_rows_from_image(image: &Vec<u8>) -> (rows: Vec<SimpleRow>)
    requires
        image.len() <= TABLE_MAX_ROWS * ROW_SIZE,
    ensures
        row_views(rows@) == recover_rows(image@),
        rows@.len() <= TABLE_MAX_ROWS,
        forall|i: int| 0 <= i < rows@.len() ==> (#[trigger] rows@[i]).wf(),
{
    let mut rows: Vec<SimpleRow> = Vec::new();
    let mut offset: usize = 0;
    let mut done = false;
    assert(image@.skip(0) =~= image@);
    assert(row_views(rows@) =~= Seq::<RowAbs>::empty());
    assert(row_views(rows@) + recover_rows(image@) =~= recover_rows(image@));
    while !done && ROW_SIZE <= image.len() && offset <= image.len() - ROW_SIZE
        invariant
            image.len() <= TABLE_MAX_ROWS * ROW_SIZE,
            offset <= image.len(),
            offset == rows@.len() * ROW_SIZE,
            recover_rows(image@) == row_views(rows@) + recover_rows(image@.skip(offset as int)),
            forall|i: int| 0 <= i < rows@.len() ==> (#[trigger] rows@[i]).wf(),
            done ==> recover_rows(image@.skip(offset as int)) == Seq::<RowAbs>::empty(),
        decreases image.len() - offset, (if done { 0int } else { 1int }),
    {
        let ghost remaining = image@.skip(offset as int);
        assert(remaining.len() >= ROW_SIZE);
        let id = id_from_le_bytes(image, offset);
        assert(image@.subrange(offset as int, offset + 4) =~= remaining.subrange(0, 4));
        if id == 0 {
            assert(recover_rows(remaining) =~= Seq::<RowAbs>::empty());
            done = true;
        } else {
            let row = deserialize_slot(image, offset);
            assert(image@.subrange(offset as int, offset + ROW_SIZE) =~= remaining.subrange(
                0,
                ROW_SIZE as int,
            ));
            proof {
                assert(recover_rows(remaining) == seq![
                    decode_slot(remaining.subrange(0, ROW_SIZE as int)),
                ] + recover_rows(remaining.skip(ROW_SIZE as int)));
                assert(remaining.skip(ROW_SIZE as int) =~= image@.skip(offset + ROW_SIZE));
                assert(row_views(rows@.push(row)) =~= row_views(rows@).push(row@));
                assert(row_views(rows@) + recover_rows(remaining) =~= row_views(rows@.push(row))
                    + recover_rows(image@.skip(offset + ROW_SIZE)));
                assert((rows@.len() + 1) * ROW_SIZE == rows@.len() * ROW_SIZE + ROW_SIZE)
                    by (nonlinear_arith);
            }
            rows.push(row);
            offset = offset + ROW_SIZE;
        }
    }
    proof {
        if !done {
            assert(image@.skip(offset as int).len() < ROW_SIZE);
        }
        assert(recover_rows(image@.skip(offset as int)) =~= Seq::<RowAbs>::empty());
        assert(row_views(rows@) =~= row_views(rows@) + recover_rows(image@.skip(offset as int)));
        assert(rows@.len() <= TABLE_MAX_ROWS) by (nonlinear_arith)
            requires
                rows@.len() * ROW_SIZE <= TABLE_MAX_ROWS * ROW_SIZE,
                ROW_SIZE >= 1,
        ;
    }
    rows
}

} // verus!
