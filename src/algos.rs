//! Compression of packed transactions: a general-purpose byte compressor, and
//! two strategies that drop the zero bytes that pad the fields.

use vstd::prelude::*;

use crate::constants::{
    ADDRESS, ATTACHMENT_TIMESTAMP, ATTACHMENT_TIMESTAMP_LOWER_BOUND,
    ATTACHMENT_TIMESTAMP_UPPER_BOUND, BRANCH_HASH, BUNDLE_NONCE, EXTRA_DATA_DIGEST,
    ISSUANCE_TIMESTAMP, NONCE, PACKET_SIZE, SIGNATURE_FRAGMENTS, TAG, TIMELOCK_LOWER_BOUND,
    TIMELOCK_UPPER_BOUND, TRANSACTION_SIZE_BYTES, TRUNK_HASH, VALUE,
};
use crate::convert::packing::{lemma_div_mod_parts, lemma_valid_pair_bound, valid_group, valid_packed};
use crate::error::{seq_result, CodecError};

verus! {

/// A way to compress the packed bytes of a transaction, and to get them back.
pub trait CompressionAlgo {
    fn compress(&self, bytes: &[u8]) -> Result<Vec<u8>, CodecError>;

    fn decompress(&self, bytes: &[u8]) -> Result<Vec<u8>, CodecError>;
}

/// The length of `s` without its trailing zero bytes.
pub open spec fn kept_len(s: Seq<u8>) -> nat
    decreases s.len(),
{
    if s.len() == 0 {
        0
    } else if s.last() != 0 {
        s.len()
    } else {
        kept_len(s.drop_last())
    }
}

/// `s` without its trailing zero bytes.
pub open spec fn kept(s: Seq<u8>) -> Seq<u8> {
    s.subrange(0, kept_len(s) as int)
}

/// `k` zero bytes.
pub open spec fn zeros(k: nat) -> Seq<u8> {
    Seq::new(k, |i: int| 0u8)
}

/// What trailing zeros leave: a prefix, followed by zeros only.
pub proof fn lemma_kept_len(s: Seq<u8>)
    ensures
        kept_len(s) <= s.len(),
        forall|i: int| kept_len(s) <= i < s.len() ==> s[i] == 0,
        kept_len(s) > 0 ==> s[kept_len(s) - 1] != 0,
        s == kept(s) + zeros((s.len() - kept_len(s)) as nat),
    decreases s.len(),
{
    if s.len() > 0 && s.last() == 0 {
        let t = s.drop_last();
        lemma_kept_len(t);
        assert forall|i: int| kept_len(s) <= i < s.len() implies s[i] == 0 by {
            if i < t.len() {
                assert(s[i] == t[i]);
            }
        }
    }
    let z = kept(s) + zeros((s.len() - kept_len(s)) as nat);
    assert forall|i: int| 0 <= i < s.len() implies #[trigger] z[i] == s[i] by {
        if i < kept_len(s) {
            assert(z[i] == kept(s)[i]);
        } else {
            assert(z[i] == 0);
        }
    }
    assert(s =~= z);
}

/// A sequence of zeros keeps nothing.
pub proof fn lemma_kept_zeros(k: nat)
    ensures
        kept_len(zeros(k)) == 0,
    decreases k,
{
    if k > 0 {
        assert(zeros(k).drop_last() =~= zeros((k - 1) as nat));
        lemma_kept_zeros((k - 1) as nat);
    }
}

/// The length of the `length` bytes of `bytes` from `start` on without their
/// trailing zero bytes.
fn kept_length(bytes: &[u8], start: usize, length: usize) -> (r: usize)
    requires
        start + length <= bytes@.len(),
    ensures
        r == kept_len(bytes@.subrange(start as int, start + length)),
{
    let ghost s = bytes@.subrange(start as int, start + length);
    let n: usize = bytes.len();
    let mut k: usize = length;
    assert(s.subrange(0, length as int) =~= s);
    while k > 0 && bytes[start + k - 1] == 0
        invariant
            k <= length,
            start + length <= n,
            n == bytes@.len(),
            s == bytes@.subrange(start as int, start + length),
            kept_len(s) == kept_len(s.subrange(0, k as int)),
        decreases k,
    {
        assert(s.subrange(0, k as int).drop_last() =~= s.subrange(0, k - 1));
        k = k - 1;
    }
    k
}

/// The length of what follows the signature fragment in a packed
/// transaction.
pub const NOT_SIGNATURE_FRAGMENTS: usize = 324;

/// Drops the trailing zero bytes of the signature fragment only.
pub struct TrimFragment;

/// The compression of `b` by `TrimFragment`: the fragment without its
/// trailing zeros, then the other fields unchanged.
pub open spec fn trim_fragment_compress(b: Seq<u8>) -> Result<Seq<u8>, CodecError> {
    if b.len() != TRANSACTION_SIZE_BYTES {
        Err(CodecError::LengthMismatch)
    } else {
        Ok(kept(b.subrange(0, 1458)) + b.subrange(1458, 1782))
    }
}

/// The decompression of `c` by `TrimFragment`: the kept fragment, zeros up to
/// the fragment's end, then the other fields.
pub open spec fn trim_fragment_decompress(c: Seq<u8>) -> Result<Seq<u8>, CodecError> {
    if c.len() < NOT_SIGNATURE_FRAGMENTS || c.len() > TRANSACTION_SIZE_BYTES {
        Err(CodecError::Truncated)
    } else {
        let k = c.len() - NOT_SIGNATURE_FRAGMENTS;
        Ok(c.subrange(0, k) + zeros((1458 - k) as nat) + c.subrange(k, c.len() as int))
    }
}

/// Appends `bytes[from..to]` to `out`.
fn push_range(out: &mut Vec<u8>, bytes: &[u8], from: usize, to: usize)
    requires
        from <= to <= bytes@.len(),
    ensures
        final(out)@ == old(out)@ + bytes@.subrange(from as int, to as int),
{
    let ghost start = out@;
    let mut i: usize = from;
    while i < to
        invariant
            from <= i <= to <= bytes@.len(),
            out@ == start + bytes@.subrange(from as int, i as int),
        decreases to - i,
    {
        out.push(bytes[i]);
        assert(out@ =~= start + bytes@.subrange(from as int, i + 1));
        i = i + 1;
    }
}

impl TrimFragment {
    /// Keeps the signature fragment up to its last non-zero byte, then all
    /// the other fields; fails with `LengthMismatch` unless `bytes` is a whole
    /// packed transaction.
    pub fn compress(&self, bytes: &[u8]) -> (r: Result<Vec<u8>, CodecError>)
        ensures
            seq_result(r) == trim_fragment_compress(bytes@),
    {
        if bytes.len() != TRANSACTION_SIZE_BYTES {
            return Err(CodecError::LengthMismatch);
        }
        let size = kept_length(bytes, 0, SIGNATURE_FRAGMENTS.5);
        proof {
            lemma_kept_len(bytes@.subrange(0, 1458));
        }
        let mut compressed: Vec<u8> = Vec::new();
        push_range(&mut compressed, bytes, 0, size);
        push_range(&mut compressed, bytes, SIGNATURE_FRAGMENTS.5, PACKET_SIZE);
        assert(bytes@.subrange(0, size as int) =~= kept(bytes@.subrange(0, 1458)));
        Ok(compressed)
    }

    /// Puts the kept fragment back, zeros up to the fragment's end, then the
    /// other fields; fails with `Truncated` when the length of `bytes` cannot
    /// be that of a compressed transaction.
    pub fn decompress(&self, bytes: &[u8]) -> (r: Result<Vec<u8>, CodecError>)
        ensures
            seq_result(r) == trim_fragment_decompress(bytes@),
    {
        let n: usize = bytes.len();
        if n < NOT_SIGNATURE_FRAGMENTS || n > TRANSACTION_SIZE_BYTES {
            return Err(CodecError::Truncated);
        }
        let size: usize = n - NOT_SIGNATURE_FRAGMENTS;
        let mut decompressed: Vec<u8> = Vec::new();
        push_range(&mut decompressed, bytes, 0, size);
        let missing: usize = SIGNATURE_FRAGMENTS.5 - size;
        let mut gap: Vec<u8> = vec![0u8; missing];
        assert(gap@ =~= zeros(missing as nat));
        decompressed.append(&mut gap);
        push_range(&mut decompressed, bytes, size, n);
        Ok(decompressed)
    }
}

impl CompressionAlgo for TrimFragment {
    fn compress(&self, bytes: &[u8]) -> Result<Vec<u8>, CodecError> {
        TrimFragment::compress(self, bytes)
    }

    fn decompress(&self, bytes: &[u8]) -> Result<Vec<u8>, CodecError> {
        TrimFragment::decompress(self, bytes)
    }
}

/// Compressing a whole packed transaction with `TrimFragment` and
/// decompressing the result gives it back.
pub proof fn lemma_trim_fragment_round_trip(b: Seq<u8>)
    requires
        b.len() == TRANSACTION_SIZE_BYTES,
    ensures
        trim_fragment_compress(b) is Ok,
        trim_fragment_decompress(trim_fragment_compress(b)->Ok_0) == Ok::<Seq<u8>, CodecError>(b),
{
    let f = b.subrange(0, 1458);
    lemma_kept_len(f);
    let c = trim_fragment_compress(b)->Ok_0;
    let k = kept_len(f) as int;
    assert(c.len() == k + 324);
    assert(c.subrange(0, k) =~= kept(f));
    assert(c.subrange(k, c.len() as int) =~= b.subrange(1458, 1782));
    assert(kept(f) + zeros((1458 - k) as nat) + b.subrange(1458, 1782) =~= b);
}

/// The length that `TrimFragment` compresses a whole packed transaction to:
/// the fragment's length less its trailing zeros, plus the 324 bytes of the
/// other fields; 324 when the fragment is all zeros.
pub proof fn lemma_trim_fragment_len(b: Seq<u8>)
    requires
        b.len() == TRANSACTION_SIZE_BYTES,
    ensures
        trim_fragment_compress(b)->Ok_0.len() == kept_len(b.subrange(0, 1458))
            + NOT_SIGNATURE_FRAGMENTS,
        (forall|i: int| 0 <= i < 1458 ==> b[i] == 0) ==> trim_fragment_compress(b)->Ok_0.len()
            == NOT_SIGNATURE_FRAGMENTS,
{
    lemma_kept_len(b.subrange(0, 1458));
    if forall|i: int| 0 <= i < 1458 ==> b[i] == 0 {
        assert(b.subrange(0, 1458) =~= zeros(1458));
        lemma_kept_zeros(1458);
    }
}

/// The byte that ends every field in the output of `TrimAll`.
pub const DELIMITER_BYTE: u8 = 0xFF;

/// The first byte of field `f`, in schema order, of a packed transaction.
pub open spec fn field_start(f: int) -> int {
    if f <= 0 { 0 }
    else if f == 1 { 1458 }
    else if f == 2 { 1512 }
    else if f == 3 { 1566 }
    else if f == 4 { 1584 }
    else if f == 5 { 1590 }
    else if f == 6 { 1596 }
    else if f == 7 { 1602 }
    else if f == 8 { 1620 }
    else if f == 9 { 1674 }
    else if f == 10 { 1728 }
    else if f == 11 { 1746 }
    else if f == 12 { 1752 }
    else if f == 13 { 1758 }
    else if f == 14 { 1764 }
    else { 1782 }
}

/// The number of bytes of field `f` of a packed transaction.
pub open spec fn field_bytes(f: int) -> int {
    field_start(f + 1) - field_start(f)
}

/// The field that byte `k` of a packed transaction belongs to.
pub open spec fn field_index(k: int) -> int {
    if k < 1458 { 0 }
    else if k < 1512 { 1 }
    else if k < 1566 { 2 }
    else if k < 1584 { 3 }
    else if k < 1590 { 4 }
    else if k < 1596 { 5 }
    else if k < 1602 { 6 }
    else if k < 1620 { 7 }
    else if k < 1674 { 8 }
    else if k < 1728 { 9 }
    else if k < 1746 { 10 }
    else if k < 1752 { 11 }
    else if k < 1758 { 12 }
    else if k < 1764 { 13 }
    else { 14 }
}

/// The bytes of field `f` of the packed transaction `b`.
pub open spec fn field_of(b: Seq<u8>, f: int) -> Seq<u8> {
    b.subrange(field_start(f), field_start(f + 1))
}

/// Byte `k` lies in the field that `field_index` names.
pub proof fn lemma_field_index(k: int)
    requires
        0 <= k < TRANSACTION_SIZE_BYTES,
    ensures
        0 <= field_index(k) < 15,
        field_start(field_index(k)) <= k < field_start(field_index(k) + 1),
{
}

/// The fields lie in order, each after the one before.
pub proof fn lemma_field_start(f: int)
    requires
        0 <= f < 15,
    ensures
        0 <= field_start(f) < field_start(f + 1) <= TRANSACTION_SIZE_BYTES,
        forall|k: int|
            field_start(f) <= k < field_start(f + 1) ==> #[trigger] field_index(k) == f,
{
}

/// The output of `TrimAll` for fields `f` to 14 of `b`: for each, the field
/// without its trailing zeros, then the delimiter.
pub open spec fn trim_all_from(b: Seq<u8>, f: int) -> Seq<u8>
    decreases 15 - f,
{
    if f >= 15 {
        Seq::empty()
    } else {
        kept(field_of(b, f)) + seq![DELIMITER_BYTE] + trim_all_from(b, f + 1)
    }
}

/// The compression of `b` by `TrimAll`.
pub open spec fn trim_all_compress(b: Seq<u8>) -> Result<Seq<u8>, CodecError> {
    if b.len() != TRANSACTION_SIZE_BYTES {
        Err(CodecError::LengthMismatch)
    } else {
        Ok(trim_all_from(b, 0))
    }
}

/// The position of the first delimiter in `c`, or its length when there is
/// none.
pub open spec fn first_delimiter(c: Seq<u8>) -> nat
    decreases c.len(),
{
    if c.len() == 0 || c[0] == DELIMITER_BYTE {
        0
    } else {
        1 + first_delimiter(c.drop_first())
    }
}

/// The first `n` runs of `c` that a delimiter ends, without the delimiters.
pub open spec fn runs(c: Seq<u8>, n: nat) -> Seq<Seq<u8>>
    decreases n,
{
    if n == 0 || first_delimiter(c) >= c.len() {
        Seq::empty()
    } else {
        let d = first_delimiter(c) as int;
        seq![c.subrange(0, d)] + runs(c.subrange(d + 1, c.len() as int), (n - 1) as nat)
    }
}

/// Whether each run fits the field it is for.
pub open spec fn runs_fit(rs: Seq<Seq<u8>>) -> bool {
    forall|f: int| 0 <= f < rs.len() ==> (#[trigger] rs[f]).len() <= field_bytes(f)
}

/// Byte `k` of the transaction that the runs `rs` restore: the run of its
/// field, then zeros.
pub open spec fn restored_byte(rs: Seq<Seq<u8>>, k: int) -> u8 {
    let f = field_index(k);
    let i = k - field_start(f);
    if i < rs[f].len() {
        rs[f][i]
    } else {
        0
    }
}

/// The decompression of `c` by `TrimAll`: the first fifteen runs, each put at
/// the start of its field, the rest of the field zero; bytes after the
/// fifteenth delimiter are ignored. Fails with `Truncated` when there are
/// fewer than fifteen delimiters, and otherwise with `LengthMismatch` when a
/// run is longer than its field.
pub open spec fn trim_all_decompress(c: Seq<u8>) -> Result<Seq<u8>, CodecError> {
    let rs = runs(c, 15);
    if rs.len() < 15 {
        Err(CodecError::Truncated)
    } else if !runs_fit(rs) {
        Err(CodecError::LengthMismatch)
    } else {
        Ok(Seq::new(TRANSACTION_SIZE_BYTES as nat, |k: int| restored_byte(rs, k)))
    }
}

/// For each field of a packed transaction, in schema order, its last byte
/// and its number of bytes.
pub open spec fn field_offsets() -> Seq<(usize, usize)> {
    Seq::new(15, |f: int| ((field_start(f + 1) - 1) as usize, field_bytes(f) as usize))
}

/// Drops the trailing zero bytes of every field, ending each with a
/// delimiter byte.
pub struct TrimAll {
    offsets: Vec<(usize, usize)>,
}

impl TrimAll {
    /// For each field, its last byte and its length.
    #[verifier::type_invariant]
    spec fn offsets_match_fields(&self) -> bool {
        &&& self.offsets@.len() == 15
        &&& forall|f: int|
            0 <= f < 15 ==> (#[trigger] self.offsets@[f]).0 == field_start(f + 1) - 1
                && self.offsets@[f].1 == field_bytes(f)
    }

    /// The table that this compressor reads the fields by: for each, its
    /// last byte and its number of bytes.
    pub closed spec fn offsets(&self) -> Seq<(usize, usize)> {
        self.offsets@
    }

    /// A compressor whose table is that of the schema's fields.
    pub fn new() -> (r: Self)
        ensures
            r.offsets() == field_offsets(),
    {
        let offsets = vec![
            (EXTRA_DATA_DIGEST.4 - 1, SIGNATURE_FRAGMENTS.5),
            (ADDRESS.4 - 1, EXTRA_DATA_DIGEST.5),
            (VALUE.4 - 1, ADDRESS.5),
            (ISSUANCE_TIMESTAMP.4 - 1, VALUE.5),
            (TIMELOCK_LOWER_BOUND.4 - 1, ISSUANCE_TIMESTAMP.5),
            (TIMELOCK_UPPER_BOUND.4 - 1, TIMELOCK_LOWER_BOUND.5),
            (BUNDLE_NONCE.4 - 1, TIMELOCK_UPPER_BOUND.5),
            (TRUNK_HASH.4 - 1, BUNDLE_NONCE.5),
            (BRANCH_HASH.4 - 1, TRUNK_HASH.5),
            (TAG.4 - 1, BRANCH_HASH.5),
            (ATTACHMENT_TIMESTAMP.4 - 1, TAG.5),
            (ATTACHMENT_TIMESTAMP_LOWER_BOUND.4 - 1, ATTACHMENT_TIMESTAMP.5),
            (ATTACHMENT_TIMESTAMP_UPPER_BOUND.4 - 1, ATTACHMENT_TIMESTAMP_LOWER_BOUND.5),
            (NONCE.4 - 1, ATTACHMENT_TIMESTAMP_UPPER_BOUND.5),
            (TRANSACTION_SIZE_BYTES - 1, NONCE.5),
        ];
        assert forall|f: int| 0 <= f < 15 implies (#[trigger] offsets@[f]).0 == field_start(f + 1)
            - 1 && offsets@[f].1 == field_bytes(f) by {
            if f == 0 {
            } else if f == 1 {
            } else if f == 2 {
            } else if f == 3 {
            } else if f == 4 {
            } else if f == 5 {
            } else if f == 6 {
            } else if f == 7 {
            } else if f == 8 {
            } else if f == 9 {
            } else if f == 10 {
            } else if f == 11 {
            } else if f == 12 {
            } else if f == 13 {
            } else {
            }
        }
        assert(offsets@ =~= field_offsets());
        TrimAll { offsets }
    }
}

/// The first delimiter of a sequence is the first position that holds one.
pub proof fn lemma_first_delimiter(c: Seq<u8>, k: int)
    requires
        0 <= k <= c.len(),
        forall|j: int| 0 <= j < k ==> c[j] != DELIMITER_BYTE,
        k == c.len() || c[k] == DELIMITER_BYTE,
    ensures
        first_delimiter(c) == k,
    decreases k,
{
    if k > 0 {
        let t = c.drop_first();
        assert forall|j: int| 0 <= j < k - 1 implies t[j] != DELIMITER_BYTE by {
            assert(t[j] == c[j + 1]);
        }
        lemma_first_delimiter(t, k - 1);
    }
}

impl TrimAll {
    /// For each field, keeps its bytes up to the last non-zero one and ends
    /// them with the delimiter byte; fails with `LengthMismatch` unless
    /// `bytes` is a whole packed transaction.
    pub fn compress(&self, bytes: &[u8]) -> (r: Result<Vec<u8>, CodecError>)
        ensures
            seq_result(r) == trim_all_compress(bytes@),
    {
        proof {
            use_type_invariant(self);
        }
        if bytes.len() != TRANSACTION_SIZE_BYTES {
            return Err(CodecError::LengthMismatch);
        }
        let mut compressed: Vec<u8> = Vec::new();
        let mut f: usize = 0;
        assert(compressed@ + trim_all_from(bytes@, 0) =~= trim_all_from(bytes@, 0));
        while f < self.offsets.len()
            invariant
                f <= 15,
                self.offsets_match_fields(),
                bytes@.len() == TRANSACTION_SIZE_BYTES,
                compressed@ + trim_all_from(bytes@, f as int) == trim_all_from(bytes@, 0),
            decreases 15 - f,
        {
            let (last, length) = self.offsets[f];
            proof {
                lemma_field_start(f as int);
            }
            let start: usize = last + 1 - length;
            let keep = kept_length(bytes, start, length);
            proof {
                lemma_kept_len(bytes@.subrange(start as int, start + length));
            }
            let ghost before = compressed@;
            push_range(&mut compressed, bytes, start, start + keep);
            compressed.push(DELIMITER_BYTE);
            assert(bytes@.subrange(start as int, start + keep) =~= kept(field_of(bytes@, f as int)));
            assert(compressed@ + trim_all_from(bytes@, f + 1) =~= before + trim_all_from(
                bytes@,
                f as int,
            ));
            f = f + 1;
        }
        assert(compressed@ + trim_all_from(bytes@, 15) =~= compressed@);
        Ok(compressed)
    }
}

impl TrimAll {
    /// Reads the runs that delimiters end, and puts the run of each field at
    /// the field's start, the rest of the field zero (see
    /// `trim_all_decompress`).
    pub fn decompress(&self, bytes: &[u8]) -> (r: Result<Vec<u8>, CodecError>)
        ensures
            seq_result(r) == trim_all_decompress(bytes@),
    {
        proof {
            use_type_invariant(self);
        }
        let n: usize = bytes.len();
        let ghost c = bytes@;
        let mut decompressed: Vec<u8> = vec![0u8; PACKET_SIZE];
        let mut pos: usize = 0;
        let mut f: usize = 0;
        let mut too_long = false;
        let ghost mut done: Seq<Seq<u8>> = Seq::empty();
        assert(c.subrange(0, n as int) =~= c);
        assert(done + runs(c, 15) =~= runs(c, 15));
        while f < self.offsets.len()
            invariant
                f <= 15,
                self.offsets_match_fields(),
                n == c.len(),
                c == bytes@,
                pos <= n,
                done.len() == f,
                too_long == !runs_fit(done),
                runs(c, 15) == done + runs(c.subrange(pos as int, n as int), (15 - f) as nat),
                decompressed@.len() == TRANSACTION_SIZE_BYTES,
                !too_long ==> forall|k: int|
                    0 <= k < TRANSACTION_SIZE_BYTES ==> #[trigger] decompressed@[k] == (if field_index(
                        k,
                    ) < f {
                        restored_byte(done, k)
                    } else {
                        0u8
                    }),
            decreases 15 - f,
        {
            let (last, length) = self.offsets[f];
            proof {
                lemma_field_start(f as int);
            }
            let start: usize = last + 1 - length;
            let mut d: usize = pos;
            while d < n && bytes[d] != DELIMITER_BYTE
                invariant
                    pos <= d <= n,
                    n == bytes@.len(),
                    forall|j: int| pos <= j < d ==> bytes@[j] != DELIMITER_BYTE,
                decreases n - d,
            {
                d = d + 1;
            }
            let ghost rest = c.subrange(pos as int, n as int);
            proof {
                assert forall|j: int| 0 <= j < d - pos implies rest[j] != DELIMITER_BYTE by {
                    assert(rest[j] == c[pos + j]);
                }
                lemma_first_delimiter(rest, d - pos);
            }
            if d == n {
                assert(runs(rest, (15 - f) as nat) =~= Seq::<Seq<u8>>::empty());
                assert(runs(c, 15) =~= done);
                return Err(CodecError::Truncated);
            }
            let run: usize = d - pos;
            let ghost piece = c.subrange(pos as int, d as int);
            let ghost after = runs(c.subrange(d + 1, n as int), (14 - f) as nat);
            proof {
                assert(rest.subrange(0, run as int) =~= piece);
                assert(rest.subrange(run + 1, rest.len() as int) =~= c.subrange(d + 1, n as int));
                assert(runs(rest, (15 - f) as nat) == seq![piece] + after);
                assert(runs(c, 15) =~= (done + seq![piece]) + after);
                assert(runs(c, 15)[f as int] == piece);
            }
            let ghost next = done + seq![piece];
            if too_long || run > length {
                too_long = true;
                assert(!runs_fit(next)) by {
                    if run > length {
                        assert(next[f as int] == piece);
                    } else {
                        let g = choose|g: int| 0 <= g < done.len() && (#[trigger] done[g]).len()
                            > field_bytes(g);
                        assert(next[g] == done[g]);
                    }
                }
            } else {
                let mut i: usize = 0;
                while i < run
                    invariant
                        i <= run <= length,
                        run == piece.len(),
                        start as int == field_start(f as int),
                        length as int == field_bytes(f as int),
                        0 <= field_start(f as int) < field_start(f + 1) <= TRANSACTION_SIZE_BYTES,
                        forall|k: int|
                            field_start(f as int) <= k < field_start(f + 1) ==> #[trigger] field_index(
                                k,
                            ) == f,
                        pos + run < n,
                        n == bytes@.len(),
                        piece == bytes@.subrange(pos as int, pos + run),
                        decompressed@.len() == TRANSACTION_SIZE_BYTES,
                        forall|k: int|
                            0 <= k < TRANSACTION_SIZE_BYTES ==> #[trigger] decompressed@[k] == (if field_index(
                                k,
                            ) < f {
                                restored_byte(done, k)
                            } else if field_index(k) == f && k - start < i {
                                piece[k - start]
                            } else {
                                0u8
                            }),
                    decreases run - i,
                {
                    decompressed[start + i] = bytes[pos + i];
                    i = i + 1;
                }
                assert forall|k: int| 0 <= k < TRANSACTION_SIZE_BYTES implies #[trigger] decompressed@[k]
                    == (if field_index(k) < f + 1 {
                    restored_byte(next, k)
                } else {
                    0u8
                }) by {
                    lemma_field_index(k);
                    if field_index(k) < f {
                        assert(next[field_index(k)] == done[field_index(k)]);
                    } else if field_index(k) == f {
                        assert(next[field_index(k)] == piece);
                    }
                }
                assert(runs_fit(next)) by {
                    assert forall|g: int| 0 <= g < next.len() implies (#[trigger] next[g]).len()
                        <= field_bytes(g) by {
                        if g < f {
                            assert(next[g] == done[g]);
                        }
                    }
                }
            }
            proof {
                done = next;
            }
            pos = d + 1;
            f = f + 1;
        }
        assert(runs(c.subrange(pos as int, n as int), 0) =~= Seq::<Seq<u8>>::empty());
        assert(runs(c, 15) =~= done);
        if too_long {
            return Err(CodecError::LengthMismatch);
        }
        assert forall|k: int| 0 <= k < TRANSACTION_SIZE_BYTES implies #[trigger] decompressed@[k]
            == restored_byte(done, k) by {
            lemma_field_index(k);
        }
        assert(decompressed@ =~= Seq::new(
            TRANSACTION_SIZE_BYTES as nat,
            |k: int| restored_byte(runs(c, 15), k),
        ));
        Ok(decompressed)
    }
}

impl CompressionAlgo for TrimAll {
    fn compress(&self, bytes: &[u8]) -> Result<Vec<u8>, CodecError> {
        TrimAll::compress(self, bytes)
    }

    fn decompress(&self, bytes: &[u8]) -> Result<Vec<u8>, CodecError> {
        TrimAll::decompress(self, bytes)
    }
}

/// Whether no byte of `b` is the delimiter byte.
pub open spec fn no_delimiter(b: Seq<u8>) -> bool {
    forall|i: int| 0 <= i < b.len() ==> #[trigger] b[i] != DELIMITER_BYTE
}

/// The runs of the output of `TrimAll` for fields `f` to 14 are those fields
/// without their trailing zeros.
proof fn lemma_trim_all_runs(b: Seq<u8>, f: int)
    requires
        b.len() == TRANSACTION_SIZE_BYTES,
        no_delimiter(b),
        0 <= f <= 15,
    ensures
        runs(trim_all_from(b, f), (15 - f) as nat) == Seq::new(
            (15 - f) as nat,
            |j: int| kept(field_of(b, f + j)),
        ),
    decreases 15 - f,
{
    let target = Seq::new((15 - f) as nat, |j: int| kept(field_of(b, f + j)));
    if f == 15 {
        assert(runs(trim_all_from(b, f), 0) =~= target);
    } else {
        lemma_field_start(f);
        let field = field_of(b, f);
        let k = kept(field);
        lemma_kept_len(field);
        let c = trim_all_from(b, f);
        let tail = trim_all_from(b, f + 1);
        assert(c == k + seq![DELIMITER_BYTE] + tail);
        assert forall|j: int| 0 <= j < k.len() implies c[j] != DELIMITER_BYTE by {
            assert(c[j] == b[field_start(f) + j]);
        }
        assert(c[k.len() as int] == DELIMITER_BYTE);
        lemma_first_delimiter(c, k.len() as int);
        assert(c.subrange(0, k.len() as int) =~= k);
        assert(c.subrange(k.len() as int + 1, c.len() as int) =~= tail);
        lemma_trim_all_runs(b, f + 1);
        assert(runs(c, (15 - f) as nat) =~= target);
    }
}

/// Compressing a whole packed transaction with `TrimAll` and decompressing
/// the result gives it back, when no byte of it is the delimiter byte (which
/// holds of every valid packing: see `lemma_packed_no_delimiter`).
pub proof fn lemma_trim_all_round_trip(b: Seq<u8>)
    requires
        b.len() == TRANSACTION_SIZE_BYTES,
        no_delimiter(b),
    ensures
        trim_all_compress(b) is Ok,
        trim_all_decompress(trim_all_compress(b)->Ok_0) == Ok::<Seq<u8>, CodecError>(b),
{
    let c = trim_all_from(b, 0);
    lemma_trim_all_runs(b, 0);
    let rs = runs(c, 15);
    assert(rs =~= Seq::new(15, |j: int| kept(field_of(b, j))));
    assert forall|f: int| 0 <= f < rs.len() implies (#[trigger] rs[f]).len() <= field_bytes(f) by {
        lemma_field_start(f);
        lemma_kept_len(field_of(b, f));
    }
    assert forall|k: int| 0 <= k < TRANSACTION_SIZE_BYTES implies restored_byte(rs, k) == b[k] by {
        lemma_field_index(k);
        let f = field_index(k);
        lemma_field_start(f);
        let field = field_of(b, f);
        lemma_kept_len(field);
        assert(field[k - field_start(f)] == b[k]);
    }
    assert(Seq::new(TRANSACTION_SIZE_BYTES as nat, |k: int| restored_byte(rs, k)) =~= b);
}

/// The sum over fields `f` to 14 of `b` of their kept lengths plus one.
pub open spec fn kept_total(b: Seq<u8>, f: int) -> int
    decreases 15 - f,
{
    if f >= 15 {
        0
    } else {
        kept_len(field_of(b, f)) + 1 + kept_total(b, f + 1)
    }
}

/// The output of `TrimAll` for fields `f` to 14 is as long as their kept
/// lengths plus one delimiter each.
proof fn lemma_trim_all_from_len(b: Seq<u8>, f: int)
    requires
        b.len() == TRANSACTION_SIZE_BYTES,
        0 <= f <= 15,
    ensures
        trim_all_from(b, f).len() == kept_total(b, f),
        (forall|i: int| 0 <= i < b.len() ==> b[i] == 0) ==> kept_total(b, f) == 15 - f,
    decreases 15 - f,
{
    if f < 15 {
        lemma_field_start(f);
        lemma_kept_len(field_of(b, f));
        lemma_trim_all_from_len(b, f + 1);
        if forall|i: int| 0 <= i < b.len() ==> b[i] == 0 {
            let field = field_of(b, f);
            assert(field =~= zeros(field.len()));
            lemma_kept_zeros(field.len());
        }
    }
}

/// The length that `TrimAll` compresses a whole packed transaction to: the
/// sum over the fifteen fields of their length without trailing zeros plus
/// one delimiter; 15 when every byte is zero.
pub proof fn lemma_trim_all_len(b: Seq<u8>)
    requires
        b.len() == TRANSACTION_SIZE_BYTES,
    ensures
        trim_all_compress(b)->Ok_0.len() == kept_total(b, 0),
        (forall|i: int| 0 <= i < b.len() ==> b[i] == 0) ==> trim_all_compress(b)->Ok_0.len()
            == 15,
{
    lemma_trim_all_from_len(b, 0);
}

/// Valid packed bytes never hold the delimiter byte.
pub proof fn lemma_packed_no_delimiter(b: Seq<u8>)
    requires
        valid_packed(b),
    ensures
        no_delimiter(b),
{
    assert forall|i: int| 0 <= i < b.len() implies #[trigger] b[i] != DELIMITER_BYTE by {
        let g = i / 2;
        lemma_div_mod_parts(g, i % 2, 2);
        assert(valid_group(b, g));
        lemma_valid_pair_bound(b[2 * g], b[2 * g + 1]);
    }
}

/// The data that the bytes `frame` hold as an LZ4 frame, if they are one.
/// The LZ4 frame format fixes it, whatever machine wrote or reads the frame.
pub uninterp spec fn lz4_content(frame: Seq<u8>) -> Option<Seq<u8>>;

/// Relies on lz4::EncoderBuilder::new, level and build, on the encoder's
/// write_all and on Encoder::finish: the bytes written form one LZ4 frame
/// whose content is `data`. None of them fails but for want of memory: the
/// encoder's buffer is sized by LZ4F_compressBound, and writing into a `Vec`
/// cannot fail.
#[verifier::external_body]
fn lz4_encode(level: u32, data: &[u8]) -> (r: Option<Vec<u8>>)
    ensures
        r is Some,
        r matches Some(frame) ==> lz4_content(frame@) == Some(data@),
{
    let mut encoder = lz4::EncoderBuilder::new().level(level).build(Vec::new()).ok()?;
    std::io::Write::write_all(&mut encoder, data).ok()?;
    let (frame, result) = encoder.finish();
    result.ok()?;
    Some(frame)
}

/// Relies on lz4::Decoder::new, on the decoder's read_to_end and on
/// Decoder::finish: bytes that form an LZ4 frame decode, to the end of the
/// frame, to its content.
#[verifier::external_body]
fn lz4_decode(frame: &[u8]) -> (r: Option<Vec<u8>>)
    ensures
        lz4_content(frame@) matches Some(d) ==> r is Some && r->Some_0@ == d,
{
    let mut decoder = lz4::Decoder::new(std::io::Cursor::new(frame)).ok()?;
    let mut data = Vec::new();
    std::io::Read::read_to_end(&mut decoder, &mut data).ok()?;
    decoder.finish().1.ok()?;
    Some(data)
}

/// What `Lz4` decompresses the content `d` of a frame to: `d` when it is a
/// whole packed transaction, else `LengthMismatch`.
pub open spec fn lz4_unframed(d: Seq<u8>) -> Result<Seq<u8>, CodecError> {
    if d.len() == TRANSACTION_SIZE_BYTES {
        Ok(d)
    } else {
        Err(CodecError::LengthMismatch)
    }
}

/// Compression with the general-purpose LZ4 frame format.
pub struct Lz4 {
    enc_level: u32,
}

impl Lz4 {
    /// LZ4 at compression level `enc_level` (0 is the fastest; higher levels
    /// compress more).
    pub fn new(enc_level: u32) -> (r: Self)
        ensures
            r.level() == enc_level,
    {
        Lz4 { enc_level }
    }

    /// The compression level.
    pub closed spec fn level(&self) -> u32 {
        self.enc_level
    }

    /// An LZ4 frame, written at this compressor's level, whose content is
    /// `bytes`; fails with `LengthMismatch` unless `bytes` is a whole packed
    /// transaction.
    pub fn compress(&self, bytes: &[u8]) -> (r: Result<Vec<u8>, CodecError>)
        ensures
            match r {
                Ok(frame) => bytes@.len() == TRANSACTION_SIZE_BYTES && lz4_content(frame@) == Some(
                    bytes@,
                ),
                Err(e) => bytes@.len() != TRANSACTION_SIZE_BYTES && e == CodecError::LengthMismatch,
            },
    {
        if bytes.len() != TRANSACTION_SIZE_BYTES {
            return Err(CodecError::LengthMismatch);
        }
        Ok(lz4_encode(self.enc_level, bytes).unwrap())
    }

    /// The content of an LZ4 frame, which must be a whole packed transaction
    /// (see `lz4_unframed`). Fails with `Truncated` when the bytes are not a
    /// whole frame, and with `LengthMismatch` when the content has another
    /// length.
    pub fn decompress(&self, bytes: &[u8]) -> (r: Result<Vec<u8>, CodecError>)
        ensures
            lz4_content(bytes@) matches Some(d) ==> seq_result(r) == lz4_unframed(d),
            r matches Ok(v) ==> v@.len() == TRANSACTION_SIZE_BYTES,
            r matches Err(e) ==> e == CodecError::Truncated || e == CodecError::LengthMismatch,
    {
        match lz4_decode(bytes) {
            Some(data) => {
                if data.len() != TRANSACTION_SIZE_BYTES {
                    Err(CodecError::LengthMismatch)
                } else {
                    Ok(data)
                }
            },
            None => Err(CodecError::Truncated),
        }
    }
}

/// Compressing a whole packed transaction with `Lz4` gives a frame whose
/// decompression gives it back: `compress` promises a frame whose content is
/// the bytes, and `decompress` gives that content back.
pub proof fn lemma_lz4_round_trip(b: Seq<u8>, frame: Seq<u8>)
    requires
        b.len() == TRANSACTION_SIZE_BYTES,
        lz4_content(frame) == Some(b),
    ensures
        lz4_content(frame) matches Some(d) && lz4_unframed(d) == Ok::<Seq<u8>, CodecError>(b),
{
}

impl CompressionAlgo for Lz4 {
    fn compress(&self, bytes: &[u8]) -> Result<Vec<u8>, CodecError> {
        Lz4::compress(self, bytes)
    }

    fn decompress(&self, bytes: &[u8]) -> Result<Vec<u8>, CodecError> {
        Lz4::decompress(self, bytes)
    }
}

} // verus!
