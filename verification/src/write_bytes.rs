use vstd::prelude::*;
use vstd::string::StringSliceAdditionalSpecFns;

use crate::oasis_bytes::{
    curvilinear_magic, lemma_magic_bytes, lemma_version_bytes, standard_magic, version_bytes, OasisBytes,
    OasisType,
};
use crate::record_type::RecordType;

verus! {

/// The continuation bit of an integer byte.
const CONTINUE_MASK: u8 = 0x80;
/// The value bits of an `unsigned-integer` byte.
const VALUE_MASK: u8 = 0x7f;
/// The value bits of the first byte of a `signed-integer`.
const SGN_VALUE_MASK: u8 = 0x7e;

/// Type codes of the OASIS `real` encodings.
struct RealNumberType {}

impl RealNumberType {
    pub const POSITIVE_UNS_INT: u8 = 0;
    pub const NEGATIVE_UNS_INT: u8 = 1;
    pub const POSITIVE_RECIPROCAL: u8 = 2;
    pub const NEGATIVE_RECIPRCAL: u8 = 3;
    pub const POSITIVE_RATIO: u8 = 4;
    pub const NEGATIVE_RATIO: u8 = 5;
    pub const SINGLE_FLOAT: u8 = 6;
    pub const DOUBLE_FLOAT: u8 = 7;
}

/// The three kinds of OASIS strings: binary (`B`), ASCII (`A`) and name (`N`).
#[derive(Debug, Clone, Copy, PartialEq, Eq)]
pub enum StringType {
    B,
    A,
    N,
}

/// Why a string could not be written.
#[derive(Debug, Clone, Copy, PartialEq, Eq)]
pub enum OasisError {
    /// An n-string must not be empty.
    EmptyNString,
    /// An n-string must not hold a space.
    SpaceInNString,
    /// An a-string or n-string holds a byte outside 0x20..=0x7E.
    NonPrintable,
}

/// The OASIS `unsigned-integer` encoding of `n`: little-endian groups of seven
/// bits, each byte but the last with its high bit set.
pub open spec fn uns_int_bytes(n: nat) -> Seq<u8>
    decreases n,
{
    if n < 128 {
        seq![n as u8]
    } else {
        seq![(128 + n % 128) as u8] + uns_int_bytes(n / 128)
    }
}

/// The encoding of a non-negative `signed-integer`: the first byte holds the
/// sign in bit 0, six value bits above it and the continuation bit; the rest of
/// the value follows as an `unsigned-integer`.
pub open spec fn sgn_int_bytes(n: nat) -> Seq<u8> {
    if n < 64 {
        seq![(2 * n) as u8]
    } else {
        seq![(128 + 2 * (n % 64)) as u8] + uns_int_bytes(n / 64)
    }
}

/// The value that a well-formed `unsigned-integer` encoding stands for.
pub open spec fn uns_int_value(bytes: Seq<u8>) -> nat
    decreases bytes.len(),
{
    if bytes.len() == 0 {
        0
    } else {
        (bytes[0] % 128) as nat + 128 * uns_int_value(bytes.drop_first())
    }
}

/// A byte that may stand in an a-string: printable ASCII or the space.
pub open spec fn is_printable(b: u8) -> bool {
    0x20 <= b <= 0x7e
}

/// The first rule of its string type that `bytes` breaks, if any.
pub open spec fn string_error(bytes: Seq<u8>, st: StringType) -> Option<OasisError> {
    if st is N && bytes.len() == 0 {
        Some(OasisError::EmptyNString)
    } else if st is N && bytes.contains(0x20u8) {
        Some(OasisError::SpaceInNString)
    } else if !(st is B) && exists|i: int| 0 <= i < bytes.len() && !is_printable(#[trigger] bytes[i]) {
        Some(OasisError::NonPrintable)
    } else {
        None
    }
}

/// What writing `bytes` as a string of type `st` appends: the length and the
/// bytes when the string is valid; only the length when a rule on the content
/// fails; nothing for an empty n-string.
pub open spec fn string_written(bytes: Seq<u8>, st: StringType) -> Seq<u8> {
    match string_error(bytes, st) {
        None => uns_int_bytes(bytes.len()) + bytes,
        Some(OasisError::EmptyNString) => Seq::empty(),
        Some(_) => uns_int_bytes(bytes.len()),
    }
}

/// The result that writing a string of type `st` reports.
pub open spec fn string_result(bytes: Seq<u8>, st: StringType) -> Result<usize, OasisError> {
    match string_error(bytes, st) {
        None => Ok((uns_int_bytes(bytes.len()).len() + bytes.len()) as usize),
        Some(e) => Err(e),
    }
}

/// The info byte built from eight flags, the first one the most significant bit.
pub open spec fn info_byte(b7: bool, b6: bool, b5: bool, b4: bool, b3: bool, b2: bool, b1: bool, b0: bool) -> u8 {
    ((if b7 { 128int } else { 0 }) + (if b6 { 64int } else { 0 }) + (if b5 { 32int } else { 0 })
        + (if b4 { 16int } else { 0 }) + (if b3 { 8int } else { 0 }) + (if b2 { 4int } else { 0 })
        + (if b1 { 2int } else { 0 }) + (if b0 { 1int } else { 0 })) as u8
}

/// An OASIS `real` in IEEE single precision: its type code, then its four bytes.
pub open spec fn f32_bytes(bytes: Seq<u8>) -> Seq<u8> {
    uns_int_bytes(6) + bytes
}

/// An OASIS `real` in IEEE double precision: its type code, then its eight bytes.
pub open spec fn f64_bytes(bytes: Seq<u8>) -> Seq<u8> {
    uns_int_bytes(7) + bytes
}

/// The magic bytes that open a file of the given type.
pub open spec fn magic_bytes(t: OasisType) -> Seq<u8> {
    match t {
        OasisType::STANDARD => standard_magic(),
        OasisType::CURVILINEAR => curvilinear_magic(),
    }
}

/// The START record: record id, version a-string, resolution, offset flag.
pub open spec fn start_record_bytes(precision: Seq<u8>) -> Seq<u8> {
    uns_int_bytes(1) + uns_int_bytes(3) + version_bytes() + f32_bytes(precision) + uns_int_bytes(1)
}

/// Writing the parts of an OASIS file.
pub trait WriteOasis {
    /// Writes `n` as an `unsigned-integer`; returns the number of bytes written.
    fn write_uns_int(&mut self, n: u64) -> Result<usize, OasisError>;

    /// Writes `n` as a `signed-integer`; returns the number of bytes written.
    fn write_sgn_int(&mut self, n: i64) -> Result<usize, OasisError>
        requires
            n >= 0,
    ;

    /// Writes a single-precision `real` given by its native-endian bytes.
    fn write_f32(&mut self, bytes: [u8; 4]) -> Result<usize, OasisError>;

    /// Writes a double-precision `real` given by its native-endian bytes.
    fn write_f64(&mut self, bytes: [u8; 8]) -> Result<usize, OasisError>;

    /// Writes `s` as a string of type `st`, length first.
    fn write_string(&mut self, s: &str, st: StringType) -> Result<usize, OasisError>
        requires
            string_error(s.spec_bytes(), st) is None ==> uns_int_bytes(s.spec_bytes().len()).len()
                + s.spec_bytes().len() <= usize::MAX,
    ;

    /// Writes one info byte built from eight flags, most significant first.
    fn write_info_byte(
        &mut self,
        b7: bool,
        b6: bool,
        b5: bool,
        b4: bool,
        b3: bool,
        b2: bool,
        b1: bool,
        b0: bool,
    ) -> Result<usize, OasisError>;

    /// Writes the magic bytes of the file type.
    fn write_magic_bytes(&mut self, oasis_type: &OasisType) -> Result<usize, OasisError>;

    /// Writes the START record with the given resolution.
    fn write_start_record(&mut self, precision: &[u8; 4]) -> Result<usize, OasisError>;
}

/// Appends `bytes` to `v`.
fn push_all(v: &mut Vec<u8>, bytes: &[u8])
    ensures
        final(v)@ == old(v)@ + bytes@,
{
    let ghost start = v@;
    let n = bytes.len();
    let mut i: usize = 0;
    while i < n
        invariant
            n == bytes@.len(),
            i <= n,
            v@ == start + bytes@.take(i as int),
        decreases n - i,
    {
        v.push(bytes[i]);
        i = i + 1;
        assert(bytes@.take(i as int) == bytes@.take(i - 1) + seq![bytes@[i - 1]]);
    }
    assert(bytes@.take(n as int) == bytes@);
}

/// Whether `bytes` holds the space character.
fn holds_space(bytes: &[u8]) -> (r: bool)
    ensures
        r == bytes@.contains(0x20u8),
{
    let n = bytes.len();
    let mut i: usize = 0;
    while i < n
        invariant
            n == bytes@.len(),
            i <= n,
            forall|j: int| 0 <= j < i ==> bytes@[j] != 0x20u8,
        decreases n - i,
    {
        if bytes[i] == 0x20u8 {
            assert(bytes@[i as int] == 0x20u8);
            return true;
        }
        i = i + 1;
    }
    false
}

/// Whether every byte of `bytes` is printable.
fn all_printable(bytes: &[u8]) -> (r: bool)
    ensures
        r == forall|i: int| 0 <= i < bytes@.len() ==> is_printable(#[trigger] bytes@[i]),
{
    let n = bytes.len();
    let mut i: usize = 0;
    while i < n
        invariant
            n == bytes@.len(),
            i <= n,
            forall|j: int| 0 <= j < i ==> is_printable(#[trigger] bytes@[j]),
        decreases n - i,
    {
        let c = bytes[i];
        if c >= 0x20 && c <= 0x7E {
            i = i + 1;
            continue;
        }
        assert(!is_printable(bytes@[i as int]));
        return false;
    }
    true
}

/// Appends `bytes` to `v` as a string of type `st`, length first, checking the
/// rules of `st` as it goes.
pub(crate) fn write_string_bytes(v: &mut Vec<u8>, s_bytes: &[u8], st: StringType) -> (r: Result<
    usize,
    OasisError,
>)
    requires
        string_error(s_bytes@, st) is None ==> uns_int_bytes(s_bytes@.len()).len() + s_bytes@.len()
            <= usize::MAX,
    ensures
        final(v)@ == old(v)@ + string_written(s_bytes@, st),
        r == string_result(s_bytes@, st),
{
    let str_len = s_bytes.len();
    if matches!(st, StringType::N) && str_len == 0 {
        return Err(OasisError::EmptyNString);
    }
    let mut bytes_written: usize = 0;
    bytes_written = bytes_written + v.write_uns_int(str_len as u64)?;
    if matches!(st, StringType::N) && holds_space(s_bytes) {
        return Err(OasisError::SpaceInNString);
    }
    if matches!(st, StringType::N) || matches!(st, StringType::A) {
        if !all_printable(s_bytes) {
            return Err(OasisError::NonPrintable);
        }
    }
    push_all(v, s_bytes);
    bytes_written = bytes_written + str_len;
    Ok(bytes_written)
}

impl WriteOasis for Vec<u8> {
    fn write_uns_int(&mut self, n: u64) -> (r: Result<usize, OasisError>)
        ensures
            final(self)@ == old(self)@ + uns_int_bytes(n as nat),
            r == Ok::<usize, OasisError>(uns_int_bytes(n as nat).len() as usize),
            uns_int_bytes(n as nat).len() <= 10,
    {
        let mut current: u64 = n;
        let mut written: usize = 0;
        let ghost mut done: Seq<u8> = Seq::empty();
        assert(current <= (0xffff_ffff_ffff_ffffu64 >> 0u64)) by (bit_vector);
        loop
            invariant
                self@ == old(self)@ + done,
                uns_int_bytes(n as nat) == done + uns_int_bytes(current as nat),
                written == done.len(),
                written <= 9,
                current <= (0xffff_ffff_ffff_ffffu64 >> (7 * written as u64)),
            decreases current,
        {
            let next: u64 = current / 128;
            let w: u64 = written as u64;
            assert(w <= 9 && current <= (0xffff_ffff_ffff_ffffu64 >> (7 * w)) ==> {
                &&& current / 128 <= (0xffff_ffff_ffff_ffffu64 >> (7 * (w + 1)))
                &&& (current / 128 > 0 ==> w + 1 <= 9)
            }) by (bit_vector);
            let low: u8 = (current % 128) as u8;
            let mut byte: u8 = low & VALUE_MASK;
            if next > 0 {
                byte = CONTINUE_MASK | byte;
            }
            assert(low < 128 ==> low & 0x7f == low) by (bit_vector);
            assert(low < 128 ==> 0x80 | low == low + 128) by (bit_vector);
            self.push(byte);
            written = written + 1;
            proof {
                done = done.push(byte);
            }
            if next == 0 {
                return Ok(written);
            }
            current = next;
        }
    }

    fn write_sgn_int(&mut self, n: i64) -> (r: Result<usize, OasisError>)
        ensures
            final(self)@ == old(self)@ + sgn_int_bytes(n as nat),
            r == Ok::<usize, OasisError>(sgn_int_bytes(n as nat).len() as usize),
    {
        let next: i64 = n / 64;
        let low: u8 = (n % 64) as u8;
        let shifted: u8 = low << 1u8;
        let mut byte: u8 = shifted & SGN_VALUE_MASK;
        if next > 0 {
            byte = CONTINUE_MASK | byte;
        }
        assert(low < 64 ==> (low << 1u8) == 2 * low) by (bit_vector);
        assert(shifted < 128 && shifted % 2 == 0 ==> shifted & 0x7e == shifted) by (bit_vector);
        assert(shifted < 128 ==> 0x80 | shifted == shifted + 128) by (bit_vector);
        self.push(byte);
        if next == 0 {
            return Ok(1);
        }
        Ok(1 + self.write_uns_int(next as u64)?)
    }

    fn write_f32(&mut self, bytes: [u8; 4]) -> (r: Result<usize, OasisError>)
        ensures
            final(self)@ == old(self)@ + f32_bytes(bytes@),
            r == Ok::<usize, OasisError>(5),
    {
        let mut bytes_written = self.write_uns_int(RealNumberType::SINGLE_FLOAT as u64)?;
        push_all(self, bytes.as_slice());
        bytes_written = bytes_written + 4;
        Ok(bytes_written)
    }

    fn write_f64(&mut self, bytes: [u8; 8]) -> (r: Result<usize, OasisError>)
        ensures
            final(self)@ == old(self)@ + f64_bytes(bytes@),
            r == Ok::<usize, OasisError>(9),
    {
        let mut bytes_written = self.write_uns_int(RealNumberType::DOUBLE_FLOAT as u64)?;
        push_all(self, bytes.as_slice());
        bytes_written = bytes_written + 8;
        Ok(bytes_written)
    }

    fn write_string(&mut self, s: &str, st: StringType) -> (r: Result<usize, OasisError>)
        ensures
            final(self)@ == old(self)@ + string_written(s.spec_bytes(), st),
            r == string_result(s.spec_bytes(), st),
    {
        write_string_bytes(self, s.as_bytes(), st)
    }

    fn write_info_byte(
        &mut self,
        b7: bool,
        b6: bool,
        b5: bool,
        b4: bool,
        b3: bool,
        b2: bool,
        b1: bool,
        b0: bool,
    ) -> (r: Result<usize, OasisError>)
        ensures
            final(self)@ == old(self)@.push(info_byte(b7, b6, b5, b4, b3, b2, b1, b0)),
            r == Ok::<usize, OasisError>(1),
    {
        let mut byte: u8 = 0;
        if b7 { byte = byte + 128; }
        if b6 { byte = byte + 64; }
        if b5 { byte = byte + 32; }
        if b4 { byte = byte + 16; }
        if b3 { byte = byte + 8; }
        if b2 { byte = byte + 4; }
        if b1 { byte = byte + 2; }
        if b0 { byte = byte + 1; }
        self.push(byte);
        Ok(1)
    }

    fn write_magic_bytes(&mut self, oasis_type: &OasisType) -> (r: Result<usize, OasisError>)
        ensures
            final(self)@ == old(self)@ + magic_bytes(*oasis_type),
            r == Ok::<usize, OasisError>(magic_bytes(*oasis_type).len() as usize),
    {
        proof {
            lemma_magic_bytes();
        }
        match oasis_type {
            OasisType::STANDARD => {
                push_all(self, OasisBytes::MAGIC_BYTES.as_bytes());
                Ok(OasisBytes::MAGIC_BYTES.len())
            },
            OasisType::CURVILINEAR => {
                push_all(self, OasisBytes::CURVI_MAGIC_BYTES.as_bytes());
                Ok(OasisBytes::CURVI_MAGIC_BYTES.len())
            },
        }
    }

    fn write_start_record(&mut self, precision: &[u8; 4]) -> (r: Result<usize, OasisError>)
        ensures
            final(self)@ == old(self)@ + start_record_bytes(precision@),
            r == Ok::<usize, OasisError>(start_record_bytes(precision@).len() as usize),
    {
        proof {
            lemma_version_bytes();
        }
        let mut byte_ind: usize = 0;
        byte_ind = byte_ind + self.write_uns_int(RecordType::START as u64)?;
        byte_ind = byte_ind + self.write_string(OasisBytes::VERSION_STRING, StringType::A)?;
        byte_ind = byte_ind + self.write_f32(*precision)?;
        byte_ind = byte_ind + self.write_uns_int(OasisBytes::TABLE_OFFSETS_IN_END_RECORD as u64)?;
        Ok(byte_ind)
    }
}

/// Reinterpreting a signed integer as the unsigned integer of the same width.
pub trait ToUns {
    type Uns;

    fn to_uns(self) -> Self::Uns;
}

impl ToUns for i8 {
    type Uns = u8;

    fn to_uns(self) -> (r: u8)
        ensures
            r == self as u8,
            r as i8 == self,
            self >= 0 ==> r == self,
    {
        let r = self as u8;
        assert(r == self as u8 ==> r as i8 == self) by (bit_vector);
        r
    }
}

impl ToUns for i16 {
    type Uns = u16;

    fn to_uns(self) -> (r: u16)
        ensures
            r == self as u16,
            r as i16 == self,
            self >= 0 ==> r == self,
    {
        let r = self as u16;
        assert(r == self as u16 ==> r as i16 == self) by (bit_vector);
        r
    }
}

impl ToUns for i32 {
    type Uns = u32;

    fn to_uns(self) -> (r: u32)
        ensures
            r == self as u32,
            r as i32 == self,
            self >= 0 ==> r == self,
    {
        let r = self as u32;
        assert(r == self as u32 ==> r as i32 == self) by (bit_vector);
        r
    }
}

impl ToUns for i64 {
    type Uns = u64;

    fn to_uns(self) -> (r: u64)
        ensures
            r == self as u64,
            r as i64 == self,
            self >= 0 ==> r == self,
    {
        let r = self as u64;
        assert(r == self as u64 ==> r as i64 == self) by (bit_vector);
        r
    }
}

/// The value that a `signed-integer` encoding stands for, and its sign bit.
pub open spec fn sgn_int_value(bytes: Seq<u8>) -> (int, bool) {
    let first = bytes[0] as int;
    ((first % 128) / 2 + 64 * uns_int_value(bytes.drop_first()), first % 2 == 1)
}

/// An `unsigned-integer` reads back as the value it was written from.
pub proof fn lemma_uns_int_roundtrip(n: nat)
    ensures
        uns_int_value(uns_int_bytes(n)) == n,
    decreases n,
{
    let b = uns_int_bytes(n);
    if n < 128 {
        assert(b.drop_first() =~= Seq::<u8>::empty());
        assert(uns_int_value(b.drop_first()) == 0);
    } else {
        lemma_uns_int_roundtrip(n / 128);
        assert(b.drop_first() =~= uns_int_bytes(n / 128));
        assert(b[0] % 128 == n % 128);
    }
}

/// An `unsigned-integer` marks its own end: every byte but the last has its
/// high bit set, and the last has it clear.
pub proof fn lemma_uns_int_delimited(n: nat)
    ensures
        uns_int_bytes(n).len() >= 1,
        uns_int_bytes(n).last() < 128,
        forall|i: int| 0 <= i < uns_int_bytes(n).len() - 1 ==> #[trigger] uns_int_bytes(n)[i] >= 128,
    decreases n,
{
    if n >= 128 {
        lemma_uns_int_delimited(n / 128);
        let b = uns_int_bytes(n);
        let rest = uns_int_bytes(n / 128);
        assert forall|i: int| 0 <= i < b.len() - 1 implies #[trigger] b[i] >= 128 by {
            if i > 0 {
                assert(b[i] == rest[i - 1]);
            }
        }
    }
}

/// An `unsigned-integer` takes one byte exactly when it is below 128, and at
/// most ten bytes for any 64-bit value.
pub proof fn lemma_uns_int_len(n: nat)
    ensures
        uns_int_bytes(n).len() == 1 <==> n < 128,
        n <= u64::MAX ==> uns_int_bytes(n).len() <= 10,
    decreases n,
{
    if n >= 128 {
        lemma_uns_int_len(n / 128);
    }
    if n <= u64::MAX {
        assert(pow128(10) > u64::MAX) by {
            reveal_with_fuel(pow128, 11);
        }
        lemma_uns_int_len_below(n, 10);
    }
}

/// 128 to the power `k`.
spec fn pow128(k: nat) -> nat
    decreases k,
{
    if k == 0 {
        1
    } else {
        128 * pow128((k - 1) as nat)
    }
}

/// A value below `128` to the `k` takes at most `k` bytes.
proof fn lemma_uns_int_len_below(n: nat, k: nat)
    requires
        k >= 1,
        n < pow128(k),
    ensures
        uns_int_bytes(n).len() <= k,
    decreases k,
{
    if n >= 128 {
        if k == 1 {
            assert(pow128(1) == 128) by {
                reveal_with_fuel(pow128, 2);
            }
        } else {
            let p = pow128((k - 1) as nat);
            assert(n / 128 < p) by (nonlinear_arith)
                requires
                    n < 128 * p,
            ;
            lemma_uns_int_len_below(n / 128, (k - 1) as nat);
        }
    }
}

/// A non-negative `signed-integer` reads back as the value it was written from,
/// with its sign bit clear.
pub proof fn lemma_sgn_int_roundtrip(n: nat)
    ensures
        sgn_int_value(sgn_int_bytes(n)) == (n as int, false),
{
    let b = sgn_int_bytes(n);
    if n < 64 {
        assert(b.drop_first() =~= Seq::<u8>::empty());
    } else {
        lemma_uns_int_roundtrip(n / 64);
        assert(b.drop_first() =~= uns_int_bytes(n / 64));
    }
}

/// The info byte holds each flag in its own bit, the first flag in the most
/// significant one.
pub proof fn lemma_info_byte_bits(b7: bool, b6: bool, b5: bool, b4: bool, b3: bool, b2: bool, b1: bool, b0: bool)
    ensures
        ({
            let v = info_byte(b7, b6, b5, b4, b3, b2, b1, b0) as int;
            &&& (v / 128) % 2 == (if b7 { 1int } else { 0 })
            &&& (v / 64) % 2 == (if b6 { 1int } else { 0 })
            &&& (v / 32) % 2 == (if b5 { 1int } else { 0 })
            &&& (v / 16) % 2 == (if b4 { 1int } else { 0 })
            &&& (v / 8) % 2 == (if b3 { 1int } else { 0 })
            &&& (v / 4) % 2 == (if b2 { 1int } else { 0 })
            &&& (v / 2) % 2 == (if b1 { 1int } else { 0 })
            &&& v % 2 == (if b0 { 1int } else { 0 })
        }),
{
}

/// Writing a string fails exactly when it breaks a rule of its type, and then
/// reports that rule; a valid string is written whole and counted whole.
pub proof fn lemma_string_outcome(bytes: Seq<u8>, st: StringType)
    ensures
        string_result(bytes, st) is Ok <==> string_error(bytes, st) is None,
        string_result(bytes, st) is Ok ==> string_result(bytes, st)->Ok_0 == string_written(bytes, st).len() as usize,
        st is B ==> string_error(bytes, st) is None,
{
}

/// What a reader takes from the front of `bytes` as an `unsigned-integer`: it
/// reads bytes up to and including the first one whose high bit is clear, and
/// returns the value (low seven bits of each byte, least significant group
/// first) and the number of bytes read.
pub open spec fn read_uns_int(bytes: Seq<u8>) -> (nat, nat)
    decreases bytes.len(),
{
    if bytes.len() == 0 {
        (0, 0)
    } else if bytes[0] < 128 {
        (bytes[0] as nat, 1)
    } else {
        let r = read_uns_int(bytes.drop_first());
        ((bytes[0] - 128) as nat + 128 * r.0, r.1 + 1)
    }
}

/// What a reader takes from the front of `bytes` as a `signed-integer`: the
/// first byte holds the sign in bit 0, six value bits and the continuation bit;
/// if that bit is set, the higher bits follow as an `unsigned-integer`.
pub open spec fn read_sgn_int(bytes: Seq<u8>) -> (int, nat) {
    if bytes.len() == 0 {
        (0, 0)
    } else {
        let b = bytes[0];
        let low = ((b % 128) / 2) as int;
        let (magnitude, len) = if b < 128 {
            (low, 1nat)
        } else {
            let r = read_uns_int(bytes.drop_first());
            (low + 64 * r.0, r.1 + 1)
        };
        (if b % 2 == 1 { -magnitude } else { magnitude }, len)
    }
}

/// An `unsigned-integer` is read back, whatever follows it, as the value it was
/// written from, and the reader stops exactly at its end.
pub proof fn lemma_uns_int_reads_back(n: nat, rest: Seq<u8>)
    ensures
        read_uns_int(uns_int_bytes(n) + rest) == (n, uns_int_bytes(n).len()),
    decreases n,
{
    let b = uns_int_bytes(n) + rest;
    if n >= 128 {
        lemma_uns_int_reads_back(n / 128, rest);
        assert(b.drop_first() =~= uns_int_bytes(n / 128) + rest);
        assert(b[0] == (128 + n % 128) as u8);
    } else {
        assert(b[0] == n as u8);
    }
}

/// A non-negative `signed-integer` is read back, whatever follows it, as the
/// value it was written from, with its sign bit clear, and the reader stops
/// exactly at its end; every byte but the last has its high bit set.
pub proof fn lemma_sgn_int_reads_back(n: nat, rest: Seq<u8>)
    ensures
        read_sgn_int(sgn_int_bytes(n) + rest) == (n as int, sgn_int_bytes(n).len()),
        sgn_int_bytes(n)[0] % 2 == 0,
        sgn_int_bytes(n)[0] >= 128 <==> n >= 64,
        sgn_int_bytes(n).last() < 128,
        forall|i: int| 0 <= i < sgn_int_bytes(n).len() - 1 ==> #[trigger] sgn_int_bytes(n)[i] >= 128,
{
    let b = sgn_int_bytes(n) + rest;
    if n >= 64 {
        lemma_uns_int_reads_back(n / 64, rest);
        lemma_uns_int_delimited(n / 64);
        assert(b.drop_first() =~= uns_int_bytes(n / 64) + rest);
        assert(b[0] == (128 + 2 * (n % 64)) as u8);
        let s = sgn_int_bytes(n);
        let u = uns_int_bytes(n / 64);
        assert forall|i: int| 0 <= i < s.len() - 1 implies #[trigger] s[i] >= 128 by {
            if i > 0 {
                assert(s[i] == u[i - 1]);
            }
        }
    } else {
        assert(b[0] == (2 * n) as u8);
    }
}

/// An a-string is written exactly when every byte is printable ASCII or the
/// space; an n-string exactly when it is not empty and every byte is printable
/// ASCII other than the space; a b-string always. A written string appends its
/// length, as an `unsigned-integer`, and then its bytes, and reports that many
/// bytes; a refused one appends at most its length.
pub proof fn lemma_string_rules(bytes: Seq<u8>)
    ensures
        string_result(bytes, StringType::A) is Ok <==> forall|i: int|
            0 <= i < bytes.len() ==> 0x20 <= #[trigger] bytes[i] <= 0x7e,
        string_result(bytes, StringType::N) is Ok <==> (bytes.len() > 0 && forall|i: int|
            0 <= i < bytes.len() ==> 0x21 <= #[trigger] bytes[i] <= 0x7e),
        string_result(bytes, StringType::B) is Ok,
        forall|st: StringType|
            #![trigger string_result(bytes, st)]
            string_result(bytes, st) is Ok ==> string_written(bytes, st) == uns_int_bytes(bytes.len()) + bytes,
        forall|st: StringType|
            #![trigger string_result(bytes, st)]
            string_result(bytes, st) is Err ==> (string_written(bytes, st) == uns_int_bytes(bytes.len())
                || string_written(bytes, st).len() == 0),
{
    if string_result(bytes, StringType::N) is Ok {
        assert forall|i: int| 0 <= i < bytes.len() implies 0x21 <= #[trigger] bytes[i] <= 0x7e by {
            if bytes[i] == 0x20 {
                assert(bytes.contains(0x20u8));
            }
        }
    }
    if bytes.len() > 0 && forall|i: int| 0 <= i < bytes.len() ==> 0x21 <= #[trigger] bytes[i] <= 0x7e {
        if bytes.contains(0x20u8) {
            let j = choose|j: int| 0 <= j < bytes.len() && bytes[j] == 0x20u8;
            assert(0x21 <= bytes[j]);
        }
    }
}

/// A single-precision `real` is the type code 6 and then the four given bytes.
pub proof fn lemma_f32_layout(bytes: Seq<u8>)
    ensures
        f32_bytes(bytes) == seq![6u8] + bytes,
        f64_bytes(bytes) == seq![7u8] + bytes,
{
    assert(f32_bytes(bytes) =~= seq![6u8] + bytes);
    assert(f64_bytes(bytes) =~= seq![7u8] + bytes);
}

/// The START record is record id 1, the a-string "1.0", the resolution as a
/// single float, and the flag 1 that puts the table of offsets in the END
/// record.
pub proof fn lemma_start_record_layout(precision: Seq<u8>)
    ensures
        start_record_bytes(precision) == seq![1u8, 3, 0x31, 0x2e, 0x30, 6] + precision + seq![1u8],
{
    assert(start_record_bytes(precision) =~= seq![1u8, 3, 0x31, 0x2e, 0x30, 6] + precision + seq![1u8]);
}

} // verus!
