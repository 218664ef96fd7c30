use vstd::prelude::*;
use vstd::string::StringSliceAdditionalSpecFns;
use vstd::utf8::encode_utf8;

use crate::oasis_bytes::{OasisBytes, OasisType};
use crate::record_type::RecordType;
use crate::write_bytes::{
    info_byte, lemma_uns_int_len, lemma_uns_int_reads_back, magic_bytes, read_uns_int, sgn_int_bytes,
    start_record_bytes, string_error, string_written, uns_int_bytes, write_string_bytes, OasisError,
    StringType, WriteOasis,
};

verus! {

/// Size of the record id that opens the END record.
const END_RECORD_MARKER_SIZE: usize = 1;

/// Size of the validation scheme that closes the END record.
const END_RECORD_VALIDATION_NONE_SIZE: usize = 1;

/// Writes an OASIS file record by record into a byte buffer.
pub struct OasisRecordWriter {
    /// The bytes written so far (after whatever the buffer held at the start).
    pub bw: Vec<u8>,
    /// The resolution, as the native-endian bytes of an IEEE single float.
    pub precision: [u8; 4],
    pub oasis_type: OasisType,
    /// The number of bytes that the writer has counted as written.
    pub byte_ind: usize,
    /// The reference number that the next CELL record gets.
    pub next_cell_refnum: u64,
    /// The names of the cells written so far; name `i` has reference number `i`.
    pub cell_names: Vec<String>,
    pub cellname_table_offset: Option<usize>,
    pub textstring_table_offset: Option<usize>,
    pub propname_table_offset: Option<usize>,
    pub propstring_table_offset: Option<usize>,
    pub layername_table_offset: Option<usize>,
    pub xname_table_offset: Option<usize>,
}

/// The CELL record that opens the cell with reference number `refnum`.
pub open spec fn cell_record_bytes(refnum: nat) -> Seq<u8> {
    uns_int_bytes(RecordType::CELL_BY_REFNUM as nat) + uns_int_bytes(refnum)
}

/// The RECTANGLE record that the writer emits: layer 1, datatype 0, 100 by 200
/// at the origin.
pub open spec fn rectangle_record_bytes() -> Seq<u8> {
    uns_int_bytes(RecordType::RECTANGLE as nat) + seq![info_byte(false, true, true, true, true, false, true, true)]
        + uns_int_bytes(1) + uns_int_bytes(0) + uns_int_bytes(100) + uns_int_bytes(200)
        + sgn_int_bytes(0) + sgn_int_bytes(0)
}

/// One row of the table of offsets: a flag, then the offset or zero.
pub open spec fn offset_row_bytes(value: Option<usize>) -> Seq<u8> {
    match value {
        None => uns_int_bytes(0) + uns_int_bytes(0),
        Some(v) => uns_int_bytes(1) + uns_int_bytes(v as nat),
    }
}

/// What the cell-name pass writes for `names`: the bytes it appends, how many of
/// them it counts, and the error that stopped it, if any.
pub open spec fn cellname_records(names: Seq<Seq<u8>>) -> (Seq<u8>, nat, Option<OasisError>)
    decreases names.len(),
{
    if names.len() == 0 {
        (Seq::empty(), 0, None)
    } else {
        let prev = cellname_records(names.drop_last());
        if prev.2 is Some {
            prev
        } else {
            let name = names.last();
            let id = uns_int_bytes(RecordType::CELLNAME_IMPL_REF_NUM as nat);
            let counted = if string_error(name, StringType::N) is None {
                id.len() + string_written(name, StringType::N).len()
            } else {
                id.len()
            };
            (prev.0 + id + string_written(name, StringType::N), prev.1 + counted, string_error(name, StringType::N))
        }
    }
}

/// The END record around a given table of offsets: record id, table, a
/// b-string of zeros that fills the record up to `END_RECORD_LENGTH` counting
/// the id, table and validation byte (its length prefix is not counted), and the
/// validation scheme "none".
pub open spec fn end_record_bytes(table: Seq<u8>) -> Seq<u8> {
    let pad = (OasisBytes::END_RECORD_LENGTH - (1 + table.len() + 1)) as nat;
    uns_int_bytes(RecordType::END as nat) + table + uns_int_bytes(pad) + Seq::new(pad, |i: int| 0u8)
        + uns_int_bytes(OasisBytes::END_RECORD_VALIDATION_NONE as nat)
}

impl OasisRecordWriter {
    /// The names of the cells, as the bytes that their CELLNAME records hold.
    pub open spec fn name_bytes(&self) -> Seq<Seq<u8>> {
        self.cell_names@.map_values(|s: String| encode_utf8(s@))
    }

    /// Every cell written so far has a name, in reference-number order.
    pub open spec fn wf(&self) -> bool {
        self.next_cell_refnum == self.cell_names@.len()
    }

    /// The table of offsets that the END record holds.
    pub open spec fn offset_table_bytes(&self) -> Seq<u8> {
        offset_row_bytes(self.cellname_table_offset) + offset_row_bytes(self.textstring_table_offset)
            + offset_row_bytes(self.propname_table_offset) + offset_row_bytes(self.propstring_table_offset)
            + offset_row_bytes(self.layername_table_offset) + offset_row_bytes(self.xname_table_offset)
    }

    /// The six offsets, in the order of the table.
    pub open spec fn offsets(&self) -> Seq<Option<usize>> {
        seq![self.cellname_table_offset, self.textstring_table_offset, self.propname_table_offset,
            self.propstring_table_offset, self.layername_table_offset, self.xname_table_offset]
    }

    /// `other` agrees with `self` on every offset but that of the cell-name table.
    pub open spec fn same_other_offsets(&self, other: &Self) -> bool {
        &&& self.textstring_table_offset == other.textstring_table_offset
        &&& self.propname_table_offset == other.propname_table_offset
        &&& self.propstring_table_offset == other.propstring_table_offset
        &&& self.layername_table_offset == other.layername_table_offset
        &&& self.xname_table_offset == other.xname_table_offset
    }

    /// `other` agrees with `self` on everything but the output and its count.
    pub open spec fn same_state(&self, other: &Self) -> bool {
        &&& self.precision == other.precision
        &&& self.oasis_type == other.oasis_type
        &&& self.next_cell_refnum == other.next_cell_refnum
        &&& self.cell_names@ == other.cell_names@
        &&& self.offsets() == other.offsets()
    }

    /// The table of offsets that `close_file` writes: the cell-name table is
    /// noted at the current count, the other offsets are as they stand.
    pub open spec fn closing_table(&self) -> Seq<u8> {
        offset_row_bytes(Some(self.byte_ind)) + offset_row_bytes(self.textstring_table_offset)
            + offset_row_bytes(self.propname_table_offset) + offset_row_bytes(self.propstring_table_offset)
            + offset_row_bytes(self.layername_table_offset) + offset_row_bytes(self.xname_table_offset)
    }

    /// Starts a writer that appends to `ow`, with the resolution given by the
    /// native-endian bytes of a single float.
    pub fn new(ow: Vec<u8>, p: [u8; 4]) -> (r: Self)
        ensures
            r.bw@ == ow@,
            r.precision == p,
            r.oasis_type == OasisType::STANDARD,
            r.byte_ind == 0,
            r.next_cell_refnum == 0,
            r.cell_names@.len() == 0,
            r.offsets() == seq![None::<usize>, None, None, None, None, None],
            r.wf(),
    {
        Self {
            bw: ow,
            precision: p,
            oasis_type: OasisType::STANDARD,
            byte_ind: 0,
            next_cell_refnum: 0,
            cell_names: Vec::<String>::new(),
            cellname_table_offset: None,
            textstring_table_offset: None,
            propname_table_offset: None,
            propstring_table_offset: None,
            layername_table_offset: None,
            xname_table_offset: None,
        }
    }

    /// Writes the magic bytes and the START record.
    pub fn initialize_file(&mut self) -> (r: Result<(), OasisError>)
        requires
            old(self).byte_ind + magic_bytes(old(self).oasis_type).len() + start_record_bytes(
                old(self).precision@,
            ).len() <= usize::MAX,
        ensures
            r == Ok::<(), OasisError>(()),
            final(self).bw@ == old(self).bw@ + magic_bytes(old(self).oasis_type) + start_record_bytes(
                old(self).precision@,
            ),
            final(self).byte_ind == old(self).byte_ind + magic_bytes(old(self).oasis_type).len()
                + start_record_bytes(old(self).precision@).len(),
            final(self).same_state(&*old(self)),
    {
        self.byte_ind = self.byte_ind + self.bw.write_magic_bytes(&self.oasis_type)?;
        self.byte_ind = self.byte_ind + self.bw.write_start_record(&self.precision)?;
        Ok(())
    }

    /// Writes a CELL record for a new cell called `name`, by reference number.
    pub fn write_cell_record(&mut self, name: &str) -> (r: Result<(), OasisError>)
        requires
            old(self).byte_ind + cell_record_bytes(old(self).next_cell_refnum as nat).len() <= usize::MAX,
            old(self).next_cell_refnum < u64::MAX,
        ensures
            r == Ok::<(), OasisError>(()),
            final(self).bw@ == old(self).bw@ + cell_record_bytes(old(self).next_cell_refnum as nat),
            final(self).byte_ind == old(self).byte_ind + cell_record_bytes(
                old(self).next_cell_refnum as nat,
            ).len(),
            final(self).next_cell_refnum == old(self).next_cell_refnum + 1,
            final(self).cell_names@.len() == old(self).cell_names@.len() + 1,
            final(self).cell_names@.drop_last() == old(self).cell_names@,
            final(self).cell_names@.last()@ == name@,
            final(self).precision == old(self).precision,
            final(self).oasis_type == old(self).oasis_type,
            final(self).offsets() == old(self).offsets(),
            old(self).wf() ==> final(self).wf(),
    {
        self.byte_ind = self.byte_ind + self.bw.write_uns_int(RecordType::CELL_BY_REFNUM as u64)?;
        self.byte_ind = self.byte_ind + self.bw.write_uns_int(self.next_cell_refnum)?;
        self.next_cell_refnum = self.next_cell_refnum + 1;
        self.cell_names.push(name.to_owned());
        Ok(())
    }

    /// Writes the RECTANGLE record.
    pub fn write_rectangle_record(&mut self) -> (r: Result<(), OasisError>)
        requires
            old(self).byte_ind + rectangle_record_bytes().len() <= usize::MAX,
        ensures
            r == Ok::<(), OasisError>(()),
            final(self).bw@ == old(self).bw@ + rectangle_record_bytes(),
            final(self).byte_ind == old(self).byte_ind + rectangle_record_bytes().len(),
            final(self).same_state(&*old(self)),
    {
        self.byte_ind = self.byte_ind + self.bw.write_uns_int(RecordType::RECTANGLE as u64)?;
        self.byte_ind = self.byte_ind + self.bw.write_info_byte(  // SWHXYRDL
            false, true, true, true, true, false, true, true)?;
        self.byte_ind = self.byte_ind + self.bw.write_uns_int(1)?;
        self.byte_ind = self.byte_ind + self.bw.write_uns_int(0)?;
        self.byte_ind = self.byte_ind + self.bw.write_uns_int(100)?;
        self.byte_ind = self.byte_ind + self.bw.write_uns_int(200)?;
        self.byte_ind = self.byte_ind + self.bw.write_sgn_int(0)?;
        self.byte_ind = self.byte_ind + self.bw.write_sgn_int(0)?;
        Ok(())
    }

    /// The number of bytes that `close_file` counts as written.
    pub open spec fn close_count(&self) -> nat {
        let recs = cellname_records(self.name_bytes());
        if recs.2 is None {
            recs.1 + end_record_bytes(self.closing_table()).len()
        } else {
            recs.1
        }
    }

    /// Writes a CELLNAME record for each cell, in reference-number order, and
    /// notes where they start as the cell-name table's offset.
    fn write_cell_names(&mut self) -> (r: Result<(), OasisError>)
        requires
            old(self).byte_ind + cellname_records(old(self).name_bytes()).1 <= usize::MAX,
        ensures
            ({
                let recs = cellname_records(old(self).name_bytes());
                &&& final(self).bw@ == old(self).bw@ + recs.0
                &&& final(self).byte_ind == old(self).byte_ind + recs.1
                &&& r == match recs.2 {
                    None => Ok::<(), OasisError>(()),
                    Some(e) => Err(e),
                }
            }),
            final(self).cellname_table_offset == Some(old(self).byte_ind),
            final(self).precision == old(self).precision,
            final(self).oasis_type == old(self).oasis_type,
            final(self).next_cell_refnum == old(self).next_cell_refnum,
            final(self).cell_names@ == old(self).cell_names@,
            final(self).same_other_offsets(&*old(self)),
    {
        self.cellname_table_offset = Some(self.byte_ind);
        let ghost names = self.name_bytes();
        let ghost start = self.bw@;
        let ghost start_ind = self.byte_ind as nat;
        let n = self.cell_names.len();
        let mut i: usize = 0;
        assert(names.take(0) =~= Seq::<Seq<u8>>::empty());
        while i < n
            invariant
                n == self.cell_names@.len(),
                names == self.name_bytes(),
                names.len() == n,
                i <= n,
                self.bw@ == start + cellname_records(names.take(i as int)).0,
                self.byte_ind == start_ind + cellname_records(names.take(i as int)).1,
                cellname_records(names.take(i as int)).2 is None,
                start_ind + cellname_records(names).1 <= usize::MAX,
                self.cellname_table_offset == Some(old(self).byte_ind),
                start_ind == old(self).byte_ind,
                start == old(self).bw@,
                self.precision == old(self).precision,
                self.oasis_type == old(self).oasis_type,
                self.next_cell_refnum == old(self).next_cell_refnum,
                self.cell_names@ == old(self).cell_names@,
                self.same_other_offsets(&*old(self)),
            decreases n - i,
        {
            proof {
                lemma_cellname_records_step(names, i as nat);
                lemma_cellname_records_count_grows(names, (i + 1) as nat, n as nat);
                assert(names.take(n as int) =~= names);
            }
            self.byte_ind = self.byte_ind + self.bw.write_uns_int(
                RecordType::CELLNAME_IMPL_REF_NUM as u64,
            )?;
            assert(names[i as int] == encode_utf8(self.cell_names@[i as int]@));
            let written = self.bw.write_string(self.cell_names[i].as_str(), StringType::N);
            match written {
                Ok(k) => {
                    self.byte_ind = self.byte_ind + k;
                },
                Err(e) => {
                    proof {
                        lemma_cellname_records_stops(names, (i + 1) as nat);
                    }
                    return Err(e);
                },
            }
            i = i + 1;
        }
        assert(names.take(n as int) =~= names);
        Ok(())
    }

    /// Writes one row of the table of offsets.
    fn write_offset_table_row(&mut self, value: &Option<usize>) -> (r: Result<(), OasisError>)
        requires
            old(self).byte_ind + offset_row_bytes(*value).len() <= usize::MAX,
        ensures
            r == Ok::<(), OasisError>(()),
            final(self).bw@ == old(self).bw@ + offset_row_bytes(*value),
            final(self).byte_ind == old(self).byte_ind + offset_row_bytes(*value).len(),
            offset_row_bytes(*value).len() <= 11,
            final(self).same_state(&*old(self)),
    {
        match value {
            None => {
                self.byte_ind = self.byte_ind + self.bw.write_uns_int(0)?;
                self.byte_ind = self.byte_ind + self.bw.write_uns_int(0)?;
            },
            Some(table_byte_ind) => {
                self.byte_ind = self.byte_ind + self.bw.write_uns_int(1)?;
                let bar: u64 = *table_byte_ind as u64;
                self.byte_ind = self.byte_ind + self.bw.write_uns_int(bar)?;
            },
        }
        Ok(())
    }

    /// Writes the table of offsets, one row per name table.
    #[verifier::rlimit(30)]
    fn write_offset_table(&mut self) -> (r: Result<(), OasisError>)
        requires
            old(self).byte_ind + old(self).offset_table_bytes().len() <= usize::MAX,
        ensures
            r == Ok::<(), OasisError>(()),
            final(self).bw@ == old(self).bw@ + old(self).offset_table_bytes(),
            final(self).byte_ind == old(self).byte_ind + old(self).offset_table_bytes().len(),
            old(self).offset_table_bytes().len() <= 66,
            final(self).same_state(&*old(self)),
    {
        let ghost rows = old(self).offsets().map_values(|v: Option<usize>| offset_row_bytes(v));
        let ghost start = self.bw@;
        let v = self.cellname_table_offset;
        self.write_offset_table_row(&v)?;
        let v = self.textstring_table_offset;
        self.write_offset_table_row(&v)?;
        let v = self.propname_table_offset;
        self.write_offset_table_row(&v)?;
        assert(self.bw@ =~= start + (rows[0] + rows[1] + rows[2]));
        let v = self.propstring_table_offset;
        self.write_offset_table_row(&v)?;
        let v = self.layername_table_offset;
        self.write_offset_table_row(&v)?;
        let v = self.xname_table_offset;
        self.write_offset_table_row(&v)?;
        assert(self.bw@ =~= start + (rows[0] + rows[1] + rows[2] + rows[3] + rows[4] + rows[5]));
        assert(old(self).offset_table_bytes() =~= rows[0] + rows[1] + rows[2] + rows[3] + rows[4] + rows[5]);
        Ok(())
    }

    /// Writes the END record.
    fn write_end_record(&mut self) -> (r: Result<(), OasisError>)
        requires
            old(self).byte_ind + end_record_bytes(old(self).offset_table_bytes()).len() <= usize::MAX,
        ensures
            r == Ok::<(), OasisError>(()),
            final(self).bw@ == old(self).bw@ + end_record_bytes(old(self).offset_table_bytes()),
            final(self).byte_ind == old(self).byte_ind + end_record_bytes(
                old(self).offset_table_bytes(),
            ).len(),
            final(self).same_state(&*old(self)),
    {
        self.byte_ind = self.byte_ind + self.bw.write_uns_int(RecordType::END as u64)?;
        let byte_ind_before_offset_table = self.byte_ind;
        self.write_offset_table()?;
        let offset_table_size = self.byte_ind - byte_ind_before_offset_table;
        let n_bytes_other_end_stuff: usize = END_RECORD_MARKER_SIZE + offset_table_size
            + END_RECORD_VALIDATION_NONE_SIZE;
        let n_bytes_padding: usize = OasisBytes::END_RECORD_LENGTH - n_bytes_other_end_stuff;
        let validation_pad: Vec<u8> = vec![RecordType::PAD; n_bytes_padding];
        assert(validation_pad@ =~= Seq::new(n_bytes_padding as nat, |i: int| 0u8));
        self.byte_ind = self.byte_ind + write_string_bytes(
            &mut self.bw,
            validation_pad.as_slice(),
            StringType::B,
        )?;
        self.byte_ind = self.byte_ind + self.bw.write_uns_int(
            OasisBytes::END_RECORD_VALIDATION_NONE as u64,
        )?;
        Ok(())
    }

    /// Writes the CELLNAME records and the END record.
    pub fn close_file(&mut self) -> (r: Result<(), OasisError>)
        requires
            old(self).byte_ind + old(self).close_count() <= usize::MAX,
        ensures
            ({
                let recs = cellname_records(old(self).name_bytes());
                match recs.2 {
                    None => {
                        &&& r == Ok::<(), OasisError>(())
                        &&& final(self).bw@ == old(self).bw@ + recs.0 + end_record_bytes(
                            old(self).closing_table(),
                        )
                        &&& final(self).byte_ind == old(self).byte_ind + old(self).close_count()
                    },
                    Some(e) => {
                        &&& r == Err::<(), OasisError>(e)
                        &&& final(self).bw@ == old(self).bw@ + recs.0
                        &&& final(self).byte_ind == old(self).byte_ind + old(self).close_count()
                    },
                }
            }),
            final(self).cellname_table_offset == Some(old(self).byte_ind),
            r is Ok ==> final(self).bw@.len() - old(self).bw@.len() == final(self).byte_ind
                - old(self).byte_ind,
            old(self).bw@.len() == old(self).byte_ind ==> final(self).bw@.subrange(
                old(self).byte_ind as int,
                old(self).byte_ind + cellname_records(old(self).name_bytes()).0.len(),
            ) == cellname_records(old(self).name_bytes()).0,
            final(self).precision == old(self).precision,
            final(self).oasis_type == old(self).oasis_type,
            final(self).next_cell_refnum == old(self).next_cell_refnum,
            final(self).cell_names@ == old(self).cell_names@,
            final(self).same_other_offsets(&*old(self)),
    {
        proof {
            lemma_cellname_records_outcome(old(self).name_bytes());
        }
        let ghost start = self.bw@;
        let ghost recs = cellname_records(old(self).name_bytes()).0;
        self.write_cell_names()?;
        assert(self.bw@.subrange(start.len() as int, (start.len() + recs.len()) as int) =~= recs);
        assert(self.offset_table_bytes() == old(self).closing_table());
        self.write_end_record()?;
        assert(self.bw@.subrange(start.len() as int, (start.len() + recs.len()) as int) =~= recs);
        Ok(())
    }
}

/// The pass over one more name extends the pass over the names before it.
proof fn lemma_cellname_records_step(names: Seq<Seq<u8>>, i: nat)
    requires
        i < names.len(),
    ensures
        names.take(i as int + 1).drop_last() == names.take(i as int),
        names.take(i as int + 1).last() == names[i as int],
{
    assert(names.take(i as int + 1).drop_last() =~= names.take(i as int));
}

/// Once the pass has stopped on an error, further names change nothing.
proof fn lemma_cellname_records_stops(names: Seq<Seq<u8>>, j: nat)
    requires
        j <= names.len(),
        cellname_records(names.take(j as int)).2 is Some,
    ensures
        cellname_records(names) == cellname_records(names.take(j as int)),
    decreases names.len() - j,
{
    if j == names.len() {
        assert(names.take(j as int) =~= names);
    } else {
        lemma_cellname_records_step(names, j);
        lemma_cellname_records_stops(names, j + 1);
    }
}

/// The count of the pass never shrinks as names are added.
proof fn lemma_cellname_records_count_grows(names: Seq<Seq<u8>>, j: nat, k: nat)
    requires
        j <= k <= names.len(),
    ensures
        cellname_records(names.take(j as int)).1 <= cellname_records(names.take(k as int)).1,
    decreases k - j,
{
    if j < k {
        lemma_cellname_records_step(names, (k - 1) as nat);
        lemma_cellname_records_count_grows(names, j, (k - 1) as nat);
    }
}

/// The cell-name pass fails exactly when some name is not a valid n-string, and
/// then with the error of the first such name; when it succeeds it counts every
/// byte that it appends.
pub proof fn lemma_cellname_records_outcome(names: Seq<Seq<u8>>)
    ensures
        cellname_records(names).2 is None <==> forall|i: int|
            0 <= i < names.len() ==> #[trigger] string_error(names[i], StringType::N) is None,
        cellname_records(names).2 is None ==> cellname_records(names).1 == cellname_records(names).0.len(),
        cellname_records(names).2 is Some ==> exists|j: int|
            0 <= j < names.len() && cellname_records(names).2 == #[trigger] string_error(names[j], StringType::N)
                && forall|i: int| 0 <= i < j ==> #[trigger] string_error(names[i], StringType::N) is None,
    decreases names.len(),
{
    if names.len() > 0 {
        let prev = names.drop_last();
        lemma_cellname_records_outcome(prev);
        assert forall|i: int| 0 <= i < prev.len() implies prev[i] == names[i] by {}
        if cellname_records(prev).2 is Some {
            let j = choose|j: int|
                0 <= j < prev.len() && cellname_records(prev).2 == #[trigger] string_error(prev[j], StringType::N)
                    && forall|i: int| 0 <= i < j ==> #[trigger] string_error(prev[i], StringType::N) is None;
            assert(names[j] == prev[j]);
            assert forall|i: int| 0 <= i < j implies #[trigger] string_error(names[i], StringType::N) is None by {
                assert(names[i] == prev[i]);
            }
        } else {
            let last = names.len() - 1;
            assert(names.last() == names[last]);
            if string_error(names[last], StringType::N) is None {
                assert forall|i: int| 0 <= i < names.len() implies #[trigger] string_error(names[i], StringType::N) is None by {
                    if i < last {
                        assert(names[i] == prev[i]);
                        assert(string_error(prev[i], StringType::N) is None);
                    }
                }
            } else {
                assert forall|i: int| 0 <= i < last implies #[trigger] string_error(names[i], StringType::N) is None by {
                    assert(names[i] == prev[i]);
                    assert(string_error(prev[i], StringType::N) is None);
                }
            }
        }
    }
}

/// The END record lays out record id, table of offsets, padding and validation
/// scheme in exactly `END_RECORD_LENGTH` bytes; the length that prefixes the
/// padding comes on top.
pub proof fn lemma_end_record_length(table: Seq<u8>)
    requires
        table.len() + 2 <= OasisBytes::END_RECORD_LENGTH,
    ensures
        ({
            let pad = (OasisBytes::END_RECORD_LENGTH - (table.len() + 2)) as nat;
            &&& 1 + table.len() + pad + 1 == OasisBytes::END_RECORD_LENGTH
            &&& end_record_bytes(table).len() == OasisBytes::END_RECORD_LENGTH + uns_int_bytes(pad).len()
            &&& end_record_bytes(table).subrange(1, 1 + table.len() as int) == table
        }),
{
    let pad = (OasisBytes::END_RECORD_LENGTH - (table.len() + 2)) as nat;
    let e = end_record_bytes(table);
    assert(e.subrange(1, 1 + table.len() as int) =~= table);
}

/// A CELL record is the record id 13 followed by an `unsigned-integer` that
/// reads back as the cell's reference number and ends the record.
pub proof fn lemma_cell_record_reads_back(refnum: nat)
    ensures
        cell_record_bytes(refnum)[0] == 13,
        read_uns_int(cell_record_bytes(refnum).drop_first()) == (refnum, (cell_record_bytes(refnum).len()
            - 1) as nat),
{
    lemma_uns_int_reads_back(refnum, Seq::empty());
    assert(cell_record_bytes(refnum).drop_first() =~= uns_int_bytes(refnum) + Seq::<u8>::empty());
}

/// A row of the table of offsets is the flag 1 and an `unsigned-integer` that
/// reads back as the offset, or the flag 0 and the integer 0; whatever follows,
/// the reader stops at the row's end.
pub proof fn lemma_offset_row_reads_back(value: Option<usize>, rest: Seq<u8>)
    ensures
        offset_row_bytes(value)[0] == (if value is Some { 1u8 } else { 0u8 }),
        read_uns_int(offset_row_bytes(value).drop_first() + rest) == (match value {
            Some(v) => v as nat,
            None => 0nat,
        }, (offset_row_bytes(value).len() - 1) as nat),
        offset_row_bytes(value).len() <= 11,
{
    let row = offset_row_bytes(value);
    match value {
        Some(v) => {
            lemma_uns_int_reads_back(v as nat, rest);
            lemma_uns_int_len(v as nat);
            assert(row.drop_first() =~= uns_int_bytes(v as nat));
        },
        None => {
            lemma_uns_int_reads_back(0, rest);
            assert(row.drop_first() =~= uns_int_bytes(0));
        },
    }
}

/// The END record that `close_file` writes opens with record id 2 and the
/// first row of its table of offsets: the flag 1 and an `unsigned-integer` that
/// reads back as the byte count at which the CELLNAME records start. The record
/// closes with the validation scheme 0, preceded by zeros.
pub proof fn lemma_close_table_points_at_names(w: OasisRecordWriter)
    ensures
        ({
            let e = end_record_bytes(w.closing_table());
            &&& e[0] == 2
            &&& e[1] == 1
            &&& read_uns_int(e.subrange(2, e.len() as int)).0 == w.byte_ind
            &&& e.last() == 0
            &&& w.closing_table().len() <= 66
        }),
{
    let t = w.closing_table();
    let r0 = offset_row_bytes(Some(w.byte_ind));
    let others = offset_row_bytes(w.textstring_table_offset) + offset_row_bytes(w.propname_table_offset)
        + offset_row_bytes(w.propstring_table_offset) + offset_row_bytes(w.layername_table_offset)
        + offset_row_bytes(w.xname_table_offset);
    assert(t.len() <= 66) by {
        lemma_offset_row_reads_back(Some(w.byte_ind), Seq::empty());
        lemma_offset_row_reads_back(w.textstring_table_offset, Seq::empty());
        lemma_offset_row_reads_back(w.propname_table_offset, Seq::empty());
        lemma_offset_row_reads_back(w.propstring_table_offset, Seq::empty());
        lemma_offset_row_reads_back(w.layername_table_offset, Seq::empty());
        lemma_offset_row_reads_back(w.xname_table_offset, Seq::empty());
    }
    assert(t =~= r0 + others);
    let pad = (OasisBytes::END_RECORD_LENGTH - (1 + t.len() + 1)) as nat;
    let zeros = Seq::new(pad, |i: int| 0u8);
    let u2 = uns_int_bytes(2);
    let u0 = uns_int_bytes(0);
    assert(u2 =~= seq![2u8]);
    assert(u0 =~= seq![0u8]);
    let tail = others + uns_int_bytes(pad) + zeros + u0;
    let e = end_record_bytes(t);
    assert(e =~= u2 + (r0 + tail));
    assert(r0[0] == 1) by {
        lemma_offset_row_reads_back(Some(w.byte_ind), tail);
    }
    assert(read_uns_int(r0.drop_first() + tail).0 == w.byte_ind) by {
        lemma_offset_row_reads_back(Some(w.byte_ind), tail);
    }
    assert(e.subrange(2, e.len() as int) =~= r0.drop_first() + tail);
    assert(e.last() == u0.last());
}

/// The RECTANGLE record: record id 20, the info byte 0b0111_1011 (width,
/// height, x, y, datatype and layer present), layer 1, datatype 0, width 100,
/// height 200, x 0 and y 0.
pub proof fn lemma_rectangle_record_layout()
    ensures
        rectangle_record_bytes() == seq![20u8, 0x7b, 1, 0, 100, 0xc8, 0x01, 0, 0],
{
    assert(uns_int_bytes(200) =~= seq![0xc8u8, 0x01u8]) by {
        reveal_with_fuel(uns_int_bytes, 2);
    }
    assert(rectangle_record_bytes() =~= seq![20u8, 0x7b, 1, 0, 100, 0xc8, 0x01, 0, 0]);
}

/// What a reader takes from `bytes` as `count` CELLNAME records: each is a
/// record id, an `unsigned-integer` length and that many bytes of name.
pub open spec fn read_cellname_records(bytes: Seq<u8>, count: nat) -> Seq<Seq<u8>>
    decreases count,
{
    if count == 0 {
        Seq::empty()
    } else {
        let (len, k) = read_uns_int(bytes.drop_first());
        let end = 1 + k + len;
        seq![bytes.subrange(1 + k as int, end as int)] + read_cellname_records(bytes.skip(end as int), (count - 1) as nat)
    }
}

/// The CELLNAME record of one valid name.
spec fn cellname_record(name: Seq<u8>) -> Seq<u8> {
    uns_int_bytes(RecordType::CELLNAME_IMPL_REF_NUM as nat) + uns_int_bytes(name.len()) + name
}

/// A pass that did not fail writes the first name's record, then those of the rest.
proof fn lemma_cellname_records_front(names: Seq<Seq<u8>>)
    requires
        names.len() > 0,
        cellname_records(names).2 is None,
    ensures
        cellname_records(names.drop_first()).2 is None,
        cellname_records(names).0 == cellname_record(names[0]) + cellname_records(names.drop_first()).0,
    decreases names.len(),
{
    let dl = names.drop_last();
    let last = names.last();
    assert(cellname_records(dl).2 is None);
    assert(string_error(last, StringType::N) is None);
    if dl.len() == 0 {
        assert(names.drop_first() =~= Seq::<Seq<u8>>::empty());
        assert(names[0] == last);
        assert(cellname_records(dl).0 =~= Seq::<u8>::empty());
        assert(cellname_records(names).0 =~= cellname_record(names[0]) + Seq::<u8>::empty());
    } else {
        lemma_cellname_records_front(dl);
        assert(names.drop_first().drop_last() =~= dl.drop_first());
        assert(names.drop_first().last() == last);
        assert(dl[0] == names[0]);
        assert(cellname_records(names).0 =~= cellname_record(names[0]) + cellname_records(names.drop_first()).0);
    }
}

/// When every cell name is valid, the CELLNAME records that `close_file`
/// writes read back, whatever follows them, as the names in reference-number
/// order.
pub proof fn lemma_cellname_records_read_back(names: Seq<Seq<u8>>, rest: Seq<u8>)
    requires
        cellname_records(names).2 is None,
    ensures
        read_cellname_records(cellname_records(names).0 + rest, names.len()) == names,
    decreases names.len(),
{
    if names.len() == 0 {
        assert(read_cellname_records(cellname_records(names).0 + rest, 0) =~= names);
    } else {
        lemma_cellname_records_front(names);
        let tail = names.drop_first();
        let n0 = names[0];
        lemma_cellname_records_read_back(tail, rest);
        let after = cellname_records(tail).0 + rest;
        let bytes = cellname_records(names).0 + rest;
        let u3 = uns_int_bytes(RecordType::CELLNAME_IMPL_REF_NUM as nat);
        assert(u3 =~= seq![3u8]);
        let ul = uns_int_bytes(n0.len());
        lemma_uns_int_reads_back(n0.len(), n0 + after);
        assert(bytes =~= seq![3u8] + (ul + (n0 + after)));
        assert(bytes.drop_first() =~= ul + (n0 + after));
        let k = ul.len();
        let end = 1 + k + n0.len();
        assert(bytes.subrange(1 + k as int, end as int) =~= n0);
        assert(bytes.skip(end as int) =~= after);
        assert(read_cellname_records(bytes, names.len()) =~= seq![n0] + tail);
        assert(names =~= seq![n0] + tail);
    }
}

/// After its id and table, the END record holds a b-string whose length, read
/// as an `unsigned-integer`, is the padding that fills `END_RECORD_LENGTH`, then
/// that many zero bytes, then the validation scheme 0, which ends the record.
pub proof fn lemma_end_record_reads_back(table: Seq<u8>)
    requires
        table.len() + 2 <= OasisBytes::END_RECORD_LENGTH,
    ensures
        ({
            let e = end_record_bytes(table);
            let t = 1 + table.len();
            let (pad, k) = read_uns_int(e.skip(t as int));
            &&& e[0] == 2
            &&& e.subrange(1, t as int) == table
            &&& pad + table.len() + 2 == OasisBytes::END_RECORD_LENGTH
            &&& forall|i: int| t + k <= i < t + k + pad ==> #[trigger] e[i] == 0
            &&& e.len() == t + k + pad + 1
            &&& e.last() == 0
        }),
{
    let pad = (OasisBytes::END_RECORD_LENGTH - (1 + table.len() + 1)) as nat;
    let zeros = Seq::new(pad, |i: int| 0u8);
    let e = end_record_bytes(table);
    let u2 = uns_int_bytes(2);
    let u0 = uns_int_bytes(0);
    assert(u2 =~= seq![2u8]);
    assert(u0 =~= seq![0u8]);
    let up = uns_int_bytes(pad);
    lemma_uns_int_reads_back(pad, zeros + u0);
    let t = 1 + table.len();
    assert(e =~= u2 + table + (up + (zeros + u0)));
    assert(e.skip(t as int) =~= up + (zeros + u0));
    assert(e.subrange(1, t as int) =~= table);
    let k = up.len();
    assert forall|i: int| t + k <= i < t + k + pad implies #[trigger] e[i] == 0 by {
        assert(e[i] == zeros[i - t - k]);
    }
}

} // verus!
