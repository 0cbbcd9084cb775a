//! The row codec: rows to bytes and back.
//!
//! A row on the wire is: the column count (4 bytes), a null bitmap with
//! one bit per column (bit `i % 8` of byte `i / 8`, set when column `i` is
//! null), then every non-null column in order. A column is a tag byte and
//! its value: an integer as 8 bytes, or a byte string as a 4-byte length
//! and the bytes.

use vstd::prelude::*;
use crate::encoding::{le32, le64, from_le32, from_le64, lemma_le32_inverse, lemma_le64_inverse,
    put_u32, put_u64, put_bytes, get_u32, get_u64, get_bytes};

verus! {

/// Largest number of columns in a row.
pub const MAX_COLUMNS: usize = 0xFFFF;

/// Largest length of a byte-string column.
pub const MAX_FIELD_LEN: usize = 0x0100_0000;

/// Tag of an integer column.
pub const TAG_INT: u8 = 1;

/// Tag of a byte-string column.
pub const TAG_BYTES: u8 = 2;

/// A column value.
#[derive(Debug, Clone, PartialEq, Eq)]
pub enum Value {
    Int(i64),
    Bytes(Vec<u8>),
}

/// The mathematical value of a column value.
pub ghost enum ValueView {
    Int(i64),
    Bytes(Seq<u8>),
}

impl View for Value {
    type V = ValueView;

    open spec fn view(&self) -> ValueView {
        match self {
            Value::Int(x) => ValueView::Int(*x),
            Value::Bytes(b) => ValueView::Bytes(b@),
        }
    }
}

/// A row: its columns in schema order, `None` for null.
#[derive(Debug, Clone, PartialEq, Eq)]
pub struct Row {
    pub columns: Vec<Option<Value>>,
}

/// The value of one column.
pub open spec fn column_view(c: Option<Value>) -> Option<ValueView> {
    match c {
        Some(v) => Some(v@),
        None => None,
    }
}

/// The values of a sequence of columns.
pub open spec fn columns_view(cols: Seq<Option<Value>>) -> Seq<Option<ValueView>> {
    cols.map_values(|c: Option<Value>| column_view(c))
}

impl View for Row {
    type V = Seq<Option<ValueView>>;

    open spec fn view(&self) -> Seq<Option<ValueView>> {
        columns_view(self.columns@)
    }
}

/// A buffer that is not the encoding of a row.
#[derive(Debug, PartialEq, Eq, Structural, Clone, Copy)]
pub enum DecodeError {
    /// The buffer is truncated, has bytes left over, or holds a column
    /// count, tag or length that no row encodes to.
    Malformed,
}

/// A column is valid when a byte string in it is within the length limit.
pub open spec fn column_wf(c: Option<ValueView>) -> bool {
    match c {
        Some(ValueView::Bytes(b)) => b.len() <= MAX_FIELD_LEN,
        _ => true,
    }
}

/// A row is valid when it has no more than `MAX_COLUMNS` columns and every
/// column is valid.
pub open spec fn row_wf(cols: Seq<Option<ValueView>>) -> bool {
    &&& cols.len() <= MAX_COLUMNS
    &&& forall|i: int| 0 <= i < cols.len() ==> column_wf(#[trigger] cols[i])
}

/// An integer as it is stored: shifted so that the smallest integer is 0.
pub open spec fn biased(x: i64) -> u64 {
    (x + 0x8000_0000_0000_0000) as u64
}

/// The integer that is stored as `u`.
pub open spec fn unbiased(u: u64) -> i64 {
    (u - 0x8000_0000_0000_0000) as i64
}

/// Which columns are null.
pub open spec fn nulls_of(cols: Seq<Option<ValueView>>) -> Seq<bool> {
    Seq::new(cols.len(), |i: int| cols[i] is None)
}

/// Whether bit `j` of `b` is set.
pub open spec fn bit_set(b: u8, j: u8) -> bool {
    (b >> j) & 1 == 1
}

/// The low `j` bits of the bitmap byte that starts at column `base`.
pub open spec fn pack(nulls: Seq<bool>, base: int, j: nat) -> u8
    decreases j,
{
    if j == 0 {
        0
    } else {
        let low = pack(nulls, base, (j - 1) as nat);
        if base + j - 1 < nulls.len() && nulls[base + j - 1] {
            low | (1u8 << ((j - 1) as u8))
        } else {
            low
        }
    }
}

/// The null bitmap: one byte for every eight columns.
pub open spec fn bitmap_image(nulls: Seq<bool>) -> Seq<u8> {
    Seq::new(((nulls.len() + 7) / 8) as nat, |k: int| pack(nulls, 8 * k, 8))
}

/// The null flags of `n` columns, read from a bitmap.
pub open spec fn null_flags(bitmap: Seq<u8>, n: nat) -> Seq<bool> {
    Seq::new(n, |i: int| bit_set(bitmap[i / 8], (i % 8) as u8))
}

/// The encoding of one column: nothing for a null.
pub open spec fn field_image(c: Option<ValueView>) -> Seq<u8> {
    match c {
        None => Seq::empty(),
        Some(ValueView::Int(x)) => seq![TAG_INT] + le64(biased(x)),
        Some(ValueView::Bytes(b)) => seq![TAG_BYTES] + le32(b.len() as u32) + b,
    }
}

/// The encoding of the non-null columns, in order.
pub open spec fn fields_image(cols: Seq<Option<ValueView>>) -> Seq<u8>
    decreases cols.len(),
{
    if cols.len() == 0 {
        Seq::empty()
    } else {
        field_image(cols[0]) + fields_image(cols.skip(1))
    }
}

/// The encoding of a row.
pub open spec fn row_image(cols: Seq<Option<ValueView>>) -> Seq<u8> {
    le32(cols.len() as u32) + bitmap_image(nulls_of(cols)) + fields_image(cols)
}

/// Reads one non-null column from the front of `bytes`: the value and the
/// number of bytes it occupies.
pub open spec fn parse_value(bytes: Seq<u8>) -> Option<(ValueView, int)> {
    if bytes.len() < 1 {
        None
    } else if bytes[0] == TAG_INT {
        if bytes.len() < 9 {
            None
        } else {
            Some((ValueView::Int(unbiased(from_le64(bytes.subrange(1, 9)))), 9))
        }
    } else if bytes[0] == TAG_BYTES {
        if bytes.len() < 5 {
            None
        } else {
            let len = from_le32(bytes.subrange(1, 5)) as int;
            if len > MAX_FIELD_LEN || bytes.len() < 5 + len {
                None
            } else {
                Some((ValueView::Bytes(bytes.subrange(5, 5 + len)), 5 + len))
            }
        }
    } else {
        None
    }
}

/// Puts a column in front of the columns that follow it, if those were
/// read.
pub open spec fn cons_column(c: Option<ValueView>, rest: Option<Seq<Option<ValueView>>>) -> Option<
    Seq<Option<ValueView>>,
> {
    match rest {
        Some(t) => Some(seq![c] + t),
        None => None,
    }
}

/// Reads the columns that `nulls` announces from `bytes`, which must hold
/// them and nothing more.
pub open spec fn parse_fields(bytes: Seq<u8>, nulls: Seq<bool>) -> Option<Seq<Option<ValueView>>>
    decreases nulls.len(),
{
    if nulls.len() == 0 {
        if bytes.len() == 0 {
            Some(Seq::empty())
        } else {
            None
        }
    } else if nulls[0] {
        cons_column(None, parse_fields(bytes, nulls.skip(1)))
    } else {
        match parse_value(bytes) {
            Some((v, used)) => cons_column(Some(v), parse_fields(bytes.skip(used), nulls.skip(1))),
            None => None,
        }
    }
}

/// Reads a row: `None` when the bytes are not the encoding of a row.
pub open spec fn parse_row(bytes: Seq<u8>) -> Option<Seq<Option<ValueView>>> {
    if bytes.len() < 4 {
        None
    } else {
        let n = from_le32(bytes.subrange(0, 4)) as int;
        let bitmap_len = (n + 7) / 8;
        if n > MAX_COLUMNS || bytes.len() < 4 + bitmap_len {
            None
        } else {
            parse_fields(
                bytes.skip(4 + bitmap_len),
                null_flags(bytes.subrange(4, 4 + bitmap_len), n as nat),
            )
        }
    }
}

/// Bit `i` of a partly packed bitmap byte is set exactly when it has been
/// packed already and its column is null.
pub proof fn lemma_pack_bit(nulls: Seq<bool>, base: int, j: nat, i: u8)
    requires
        j <= 8,
        i < 8,
        0 <= base,
    ensures
        bit_set(pack(nulls, base, j), i) == (i < j && base + i < nulls.len() && nulls[base + i]),
    decreases j,
{
    if j == 0 {
        assert((0u8 >> i) & 1 == 0) by (bit_vector);
    } else {
        let low = pack(nulls, base, (j - 1) as nat);
        let b = (j - 1) as u8;
        lemma_pack_bit(nulls, base, (j - 1) as nat, i);
        if base + j - 1 < nulls.len() && nulls[base + j - 1] {
            if i == b {
                assert(((low | (1u8 << b)) >> b) & 1 == 1) by (bit_vector)
                    requires
                        b < 8,
                ;
            } else {
                assert(((low | (1u8 << b)) >> i) & 1 == (low >> i) & 1) by (bit_vector)
                    requires
                        b < 8,
                        i < 8,
                        i != b,
                ;
            }
        }
    }
}

/// The null flags read from a row's bitmap are the row's null flags.
pub proof fn lemma_bitmap_round_trip(nulls: Seq<bool>)
    ensures
        null_flags(bitmap_image(nulls), nulls.len()) == nulls,
{
    let back = null_flags(bitmap_image(nulls), nulls.len());
    assert forall|i: int| 0 <= i < nulls.len() implies back[i] == nulls[i] by {
        lemma_pack_bit(nulls, 8 * (i / 8), 8, (i % 8) as u8);
    }
    assert(back =~= nulls);
}

/// A column's encoding, whatever follows it, reads back as the column.
pub proof fn lemma_parse_field_image(v: ValueView, rest: Seq<u8>)
    requires
        column_wf(Some(v)),
    ensures
        parse_value(field_image(Some(v)) + rest) == Some((v, field_image(Some(v)).len() as int)),
{
    let all = field_image(Some(v)) + rest;
    match v {
        ValueView::Int(x) => {
            lemma_le64_inverse(biased(x), Seq::empty());
            assert(all.subrange(1, 9) =~= le64(biased(x)));
        },
        ValueView::Bytes(b) => {
            lemma_le32_inverse(b.len() as u32, Seq::empty());
            assert(all.subrange(1, 5) =~= le32(b.len() as u32));
            assert(all.subrange(5, (5 + b.len()) as int) =~= b);
        },
    }
}

/// The encoded columns of a valid row read back as the row's columns.
pub proof fn lemma_parse_fields_image(cols: Seq<Option<ValueView>>)
    requires
        forall|i: int| 0 <= i < cols.len() ==> column_wf(#[trigger] cols[i]),
    ensures
        parse_fields(fields_image(cols), nulls_of(cols)) == Some(cols),
    decreases cols.len(),
{
    let nulls = nulls_of(cols);
    if cols.len() == 0 {
        assert(cols =~= Seq::<Option<ValueView>>::empty());
    } else {
        let rest = cols.skip(1);
        assert(nulls.skip(1) =~= nulls_of(rest));
        assert forall|i: int| 0 <= i < rest.len() implies column_wf(#[trigger] rest[i]) by {
            assert(rest[i] == cols[i + 1]);
        }
        lemma_parse_fields_image(rest);
        assert(seq![cols[0]] + rest =~= cols);
        match cols[0] {
            None => {
                assert(fields_image(cols) =~= fields_image(rest));
            },
            Some(v) => {
                assert(column_wf(cols[0]));
                lemma_parse_field_image(v, fields_image(rest));
                let used = field_image(Some(v)).len() as int;
                assert(fields_image(cols).skip(used) =~= fields_image(rest));
            },
        }
    }
}

/// The round-trip law: decoding the encoding of a valid row yields that
/// row.
pub proof fn lemma_row_round_trip(cols: Seq<Option<ValueView>>)
    requires
        row_wf(cols),
    ensures
        parse_row(row_image(cols)) == Some(cols),
{
    let n = cols.len();
    let bitmap = bitmap_image(nulls_of(cols));
    let bytes = row_image(cols);
    lemma_le32_inverse(n as u32, Seq::empty());
    assert(bytes.subrange(0, 4) =~= le32(n as u32));
    assert(bytes.subrange(4, (4 + bitmap.len()) as int) =~= bitmap);
    assert(bytes.skip((4 + bitmap.len()) as int) =~= fields_image(cols));
    lemma_bitmap_round_trip(nulls_of(cols));
    lemma_parse_fields_image(cols);
}

/// The encoding of the columns grows by the encoding of each added column.
pub proof fn lemma_fields_image_push(cols: Seq<Option<ValueView>>, c: Option<ValueView>)
    ensures
        fields_image(cols.push(c)) == fields_image(cols) + field_image(c),
    decreases cols.len(),
{
    let all = cols.push(c);
    if cols.len() == 0 {
        assert(all.skip(1) =~= Seq::<Option<ValueView>>::empty());
        assert(fields_image(all.skip(1)) =~= Seq::<u8>::empty());
        assert(fields_image(all) =~= fields_image(cols) + field_image(c));
    } else {
        assert(all.skip(1) =~= cols.skip(1).push(c));
        lemma_fields_image_push(cols.skip(1), c);
        assert(fields_image(all) =~= fields_image(cols) + field_image(c));
    }
}

/// The columns `a` followed by the columns that were read after them, if
/// those were read.
pub open spec fn with_prefix(a: Seq<Option<ValueView>>, rest: Option<Seq<Option<ValueView>>>) -> Option<
    Seq<Option<ValueView>>,
> {
    match rest {
        Some(t) => Some(a + t),
        None => None,
    }
}

/// Reading one more column after `a` is reading after `a` with that column
/// added.
pub proof fn lemma_with_prefix_cons(
    a: Seq<Option<ValueView>>,
    c: Option<ValueView>,
    rest: Option<Seq<Option<ValueView>>>,
)
    ensures
        with_prefix(a, cons_column(c, rest)) == with_prefix(a.push(c), rest),
{
    match rest {
        Some(t) => {
            assert(a + (seq![c] + t) =~= a.push(c) + t);
        },
        None => {},
    }
}

impl Row {
    /// Whether the row is valid: within the limits on columns and lengths.
    pub open spec fn wf(&self) -> bool {
        row_wf(self@)
    }

    /// Checks whether the row is valid.
    pub fn is_valid(&self) -> (ok: bool)
        ensures
            ok == self.wf(),
    {
        let n: usize = self.columns.len();
        if n > MAX_COLUMNS {
            return false;
        }
        let mut i: usize = 0;
        while i < n
            invariant
                i <= n,
                n == self.columns@.len(),
                forall|k: int| 0 <= k < i ==> column_wf(#[trigger] self@[k]),
            decreases n - i,
        {
            assert(self@[i as int] == column_view(self.columns@[i as int]));
            match &self.columns[i] {
                Some(Value::Bytes(b)) => {
                    if b.len() > MAX_FIELD_LEN {
                        return false;
                    }
                },
                _ => {},
            }
            i = i + 1;
        }
        true
    }
}

/// Shifts an integer into the unsigned range for storing.
pub fn bias(x: i64) -> (u: u64)
    ensures
        u == biased(x),
{
    if x >= 0 {
        x as u64 + 0x8000_0000_0000_0000u64
    } else {
        (x + i64::MAX + 1) as u64
    }
}

/// Shifts a stored integer back into the signed range.
pub fn unbias(u: u64) -> (x: i64)
    ensures
        x == unbiased(u),
{
    if u >= 0x8000_0000_0000_0000u64 {
        (u - 0x8000_0000_0000_0000u64) as i64
    } else {
        (u as i64) - i64::MAX - 1
    }
}

/// Encodes a valid row.
pub fn encode(row: &Row) -> (out: Vec<u8>)
    requires
        row.wf(),
    ensures
        out@ == row_image(row@),
{
    let n: usize = row.columns.len();
    let ghost cols = row@;
    let ghost nulls = nulls_of(cols);
    let ghost bitmap = bitmap_image(nulls);
    let mut out: Vec<u8> = Vec::new();
    put_u32(&mut out, n as u32);
    let bitmap_len: usize = (n + 7) / 8;
    let mut k: usize = 0;
    assert(out@ =~= le32(n as u32) + bitmap.take(0));
    while k < bitmap_len
        invariant
            k <= bitmap_len,
            bitmap_len == (n + 7) / 8,
            n == row.columns@.len(),
            n <= MAX_COLUMNS,
            cols == row@,
            nulls == nulls_of(cols),
            bitmap == bitmap_image(nulls),
            out@ == le32(n as u32) + bitmap.take(k as int),
        decreases bitmap_len - k,
    {
        let mut byte: u8 = 0;
        let mut j: u8 = 0;
        while j < 8
            invariant
                j <= 8,
                k < bitmap_len,
                bitmap_len == (n + 7) / 8,
                n == row.columns@.len(),
                n <= MAX_COLUMNS,
                cols == row@,
                nulls == nulls_of(cols),
                byte == pack(nulls, 8 * k, j as nat),
            decreases 8 - j,
        {
            let idx: usize = 8 * k + j as usize;
            if idx < n {
                assert(cols[idx as int] == column_view(row.columns@[idx as int]));
                match &row.columns[idx] {
                    None => {
                        byte = byte | (1u8 << j);
                    },
                    Some(_) => {},
                }
            }
            j = j + 1;
        }
        proof {
            assert(bitmap.take(k as int).push(byte) =~= bitmap.take(k + 1));
        }
        out.push(byte);
        k = k + 1;
        assert(out@ =~= le32(n as u32) + bitmap.take(k as int));
    }
    assert(bitmap.take(k as int) =~= bitmap);
    let mut i: usize = 0;
    assert(cols.take(0) =~= Seq::<Option<ValueView>>::empty());
    assert(out@ =~= le32(n as u32) + bitmap + fields_image(cols.take(0)));
    while i < n
        invariant
            i <= n,
            n == row.columns@.len(),
            cols == row@,
            row_wf(cols),
            out@ == le32(n as u32) + bitmap + fields_image(cols.take(i as int)),
        decreases n - i,
    {
        let ghost before = out@;
        proof {
            lemma_fields_image_push(cols.take(i as int), cols[i as int]);
            assert(cols.take(i + 1) =~= cols.take(i as int).push(cols[i as int]));
            assert(cols[i as int] == column_view(row.columns@[i as int]));
            assert(column_wf(cols[i as int]));
        }
        match &row.columns[i] {
            None => {},
            Some(Value::Int(x)) => {
                out.push(TAG_INT);
                put_u64(&mut out, bias(*x));
            },
            Some(Value::Bytes(b)) => {
                out.push(TAG_BYTES);
                put_u32(&mut out, b.len() as u32);
                put_bytes(&mut out, b.as_slice());
            },
        }
        assert(out@ =~= before + field_image(cols[i as int]));
        i = i + 1;
        assert(out@ =~= le32(n as u32) + bitmap + fields_image(cols.take(i as int)));
    }
    assert(cols.take(i as int) =~= cols);
    out
}

/// Reads the non-null column that starts at offset `at`: the value and the
/// number of bytes it occupies.
pub fn decode_value(bytes: &[u8], at: usize) -> (res: Option<(Value, usize)>)
    requires
        at <= bytes@.len(),
    ensures
        match res {
            Some((v, used)) => parse_value(bytes@.skip(at as int)) == Some((v@, used as int))
                && column_wf(Some(v@)) && 0 < used <= bytes@.len() - at,
            None => parse_value(bytes@.skip(at as int)) is None,
        },
{
    let ghost tail = bytes@.skip(at as int);
    let avail: usize = bytes.len() - at;
    if avail < 1 {
        return None;
    }
    let tag: u8 = bytes[at];
    if tag == TAG_INT {
        if avail < 9 {
            return None;
        }
        assert(tail.subrange(1, 9) =~= bytes@.subrange(at + 1, at + 9));
        let stored: u64 = get_u64(bytes, at + 1);
        Some((Value::Int(unbias(stored)), 9))
    } else if tag == TAG_BYTES {
        if avail < 5 {
            return None;
        }
        assert(tail.subrange(1, 5) =~= bytes@.subrange(at + 1, at + 5));
        let len32: u32 = get_u32(bytes, at + 1);
        if len32 > 0x0100_0000u32 {
            return None;
        }
        let len: usize = len32 as usize;
        if avail - 5 < len {
            return None;
        }
        assert(tail.subrange(5, 5 + len) =~= bytes@.subrange(at + 5, at + 5 + len));
        let body: Vec<u8> = get_bytes(bytes, at + 5, len);
        Some((Value::Bytes(body), 5 + len))
    } else {
        None
    }
}

/// Decodes a row. A buffer that is truncated, malformed or longer than the
/// row it holds is refused as a whole.
pub fn decode(bytes: &[u8]) -> (res: Result<Row, DecodeError>)
    ensures
        match res {
            Ok(row) => parse_row(bytes@) == Some(row@) && row.wf(),
            Err(_) => parse_row(bytes@) is None,
        },
{
    let size: usize = bytes.len();
    if size < 4 {
        return Err(DecodeError::Malformed);
    }
    let n32: u32 = get_u32(bytes, 0);
    if n32 > 0xFFFFu32 {
        return Err(DecodeError::Malformed);
    }
    let n: usize = n32 as usize;
    let bitmap_len: usize = (n + 7) / 8;
    if size - 4 < bitmap_len {
        return Err(DecodeError::Malformed);
    }
    let start: usize = 4 + bitmap_len;
    let ghost bitmap = bytes@.subrange(4, start as int);
    let ghost nulls = null_flags(bitmap, n as nat);
    let mut cols: Vec<Option<Value>> = Vec::new();
    let mut pos: usize = start;
    let mut i: usize = 0;
    proof {
        assert(nulls.skip(0) =~= nulls);
        assert(columns_view(cols@) =~= Seq::<Option<ValueView>>::empty());
        let whole = parse_fields(bytes@.skip(start as int), nulls);
        match whole {
            Some(t) => {
                assert(columns_view(cols@) + t =~= t);
            },
            None => {},
        }
    }
    while i < n
        invariant
            i <= n,
            n <= MAX_COLUMNS,
            start == 4 + (n + 7) / 8,
            start <= pos <= size,
            size == bytes@.len(),
            bitmap == bytes@.subrange(4, start as int),
            nulls == null_flags(bitmap, n as nat),
            cols@.len() == i,
            forall|k: int| 0 <= k < i ==> column_wf(#[trigger] columns_view(cols@)[k]),
            parse_row(bytes@) == parse_fields(bytes@.skip(start as int), nulls),
            parse_fields(bytes@.skip(start as int), nulls) == with_prefix(
                columns_view(cols@),
                parse_fields(bytes@.skip(pos as int), nulls.skip(i as int)),
            ),
        decreases n - i,
    {
        let ghost seen = columns_view(cols@);
        let ghost tail = bytes@.skip(pos as int);
        let ghost later = nulls.skip(i as int);
        proof {
            assert(later.skip(1) =~= nulls.skip(i + 1));
            assert(later[0] == nulls[i as int]);
            assert(bitmap[i as int / 8] == bytes@[4 + i as int / 8]);
        }
        let shift: u8 = (i % 8) as u8;
        let is_null: bool = (bytes[4 + i / 8] >> shift) & 1 == 1;
        if is_null {
            proof {
                lemma_with_prefix_cons(seen, None, parse_fields(tail, later.skip(1)));
                assert(columns_view(cols@.push(None)) =~= seen.push(None));
            }
            cols.push(None);
        } else {
            match decode_value(bytes, pos) {
                None => {
                    proof {
                        assert(parse_fields(tail, later) is None);
                    }
                    return Err(DecodeError::Malformed);
                },
                Some((v, used)) => {
                    proof {
                        assert(tail.skip(used as int) =~= bytes@.skip(pos + used));
                        lemma_with_prefix_cons(
                            seen,
                            Some(v@),
                            parse_fields(tail.skip(used as int), later.skip(1)),
                        );
                        assert(columns_view(cols@.push(Some(v))) =~= seen.push(Some(v@)));
                    }
                    cols.push(Some(v));
                    pos = pos + used;
                },
            }
        }
        i = i + 1;
    }
    proof {
        assert(nulls.skip(n as int) =~= Seq::<bool>::empty());
        assert(bytes@.skip(pos as int).len() == size - pos);
        assert(columns_view(cols@) + Seq::<Option<ValueView>>::empty() =~= columns_view(cols@));
    }
    if pos != size {
        return Err(DecodeError::Malformed);
    }
    Ok(Row { columns: cols })
}

} // verus!
