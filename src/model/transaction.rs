//! The transaction record, and its encoding to trytes, trits and packed
//! bytes.

use vstd::prelude::*;

use crate::constants::{
    is_trytes, Field, ADDRESS, ATTACHMENT_TIMESTAMP, ATTACHMENT_TIMESTAMP_LOWER_BOUND,
    ATTACHMENT_TIMESTAMP_UPPER_BOUND, BRANCH_HASH, BUNDLE_NONCE, CURL_ROUNDS_TRANSACTION_HASH,
    EXTRA_DATA_DIGEST, ISSUANCE_TIMESTAMP, MAX_TOKEN_SUPPLY, NONCE, SIGNATURE_FRAGMENTS, TAG,
    TIMELOCK_LOWER_BOUND, TIMELOCK_UPPER_BOUND, TRANSACTION_SIZE_BYTES, TRANSACTION_SIZE_TRYTES,
    TRUNK_HASH, VALUE,
};
use crate::convert::alphabet::{
    all_ascii, all_trits, all_tryte_chars, all_trytes, ascii_chars, char_codes, is_tryte,
    lemma_tryte_bytes, lemma_tryte_chars, lemma_tryte_str, trits_of_trytes, trytes_of_trits,
    TRYTE_NULL,
};
use crate::convert::number::{
    abs, i64_from_trytes_max11, int_trytes, lemma_int_trytes_value, max_abs, nines, trytes_value,
};
use crate::convert::packing::{lemma_pack_round_trip, pack, unpack, valid_packed};
use crate::convert::tryte_string::{fill_to, filler_chars};
use crate::convert::trytes::ascii_trytes;
use crate::convert::{bytes, trits, tryte_string, trytes};
use crate::error::{seq_result, CodecError};
use crate::time::get_unix_time_millis;

verus! {

/// Why the text `s` cannot fill a field of `width` trytes, if it cannot: a
/// character outside the tryte alphabet, or more characters than the width.
pub open spec fn text_error(s: Seq<char>, width: nat) -> Option<CodecError> {
    if !all_tryte_chars(s) {
        Some(CodecError::InvalidAlphabet)
    } else if s.len() > width {
        Some(CodecError::NumericOverflow)
    } else {
        None
    }
}

/// Why `n` cannot be written in `width` trytes, if it cannot.
pub open spec fn number_error(n: i64, width: nat) -> Option<CodecError> {
    if abs(n as int) > max_abs(width) {
        Some(CodecError::NumericOverflow)
    } else {
        None
    }
}

/// The trytes of a text field of `width` trytes: its characters, then filler.
pub open spec fn padded_text(s: Seq<char>, width: nat) -> Seq<u8> {
    char_codes(s) + nines((width - s.len()) as nat)
}

/// The text of `field` in the transaction trytes `t`.
pub open spec fn field_text(t: Seq<u8>, field: Field) -> Seq<char> {
    ascii_chars(t.subrange(field.2 as int, field.2 + field.3))
}

/// The number of `field` in the transaction trytes `t`, read from at most its
/// first eleven trytes.
pub open spec fn field_number(t: Seq<u8>, field: Field) -> int {
    trytes_value(
        t.subrange(field.2 as int, field.2 + if field.3 < 11 { field.3 as int } else { 11 }),
    )
}

/// A transaction: fifteen fields, eight of tryte text and seven of signed
/// numbers (the value, three timestamps and the bounds of two time ranges).
#[derive(Clone, Debug)]
pub struct Transaction {
    pub signature_fragments: String,
    pub extra_data_digest: String,
    pub address: String,
    pub value: i64,
    pub issuance_timestamp: i64,
    pub timelock_lower_bound: i64,
    pub timelock_upper_bound: i64,
    pub bundle_nonce: String,
    pub trunk: String,
    pub branch: String,
    pub tag: String,
    pub attachment_timestamp: i64,
    pub attachment_timestamp_lower_bound: i64,
    pub attachment_timestamp_upper_bound: i64,
    pub nonce: String,
}

impl Transaction {
    /// The first field, in schema order, that cannot be encoded, and why.
    pub open spec fn encode_error(&self) -> Option<CodecError> {
        if text_error(self.signature_fragments@, 2187) is Some {
            text_error(self.signature_fragments@, 2187)
        } else if text_error(self.extra_data_digest@, 81) is Some {
            text_error(self.extra_data_digest@, 81)
        } else if text_error(self.address@, 81) is Some {
            text_error(self.address@, 81)
        } else if number_error(self.value, 11) is Some {
            number_error(self.value, 11)
        } else if number_error(self.issuance_timestamp, 9) is Some {
            number_error(self.issuance_timestamp, 9)
        } else if number_error(self.timelock_lower_bound, 9) is Some {
            number_error(self.timelock_lower_bound, 9)
        } else if number_error(self.timelock_upper_bound, 9) is Some {
            number_error(self.timelock_upper_bound, 9)
        } else if text_error(self.bundle_nonce@, 27) is Some {
            text_error(self.bundle_nonce@, 27)
        } else if text_error(self.trunk@, 81) is Some {
            text_error(self.trunk@, 81)
        } else if text_error(self.branch@, 81) is Some {
            text_error(self.branch@, 81)
        } else if text_error(self.tag@, 27) is Some {
            text_error(self.tag@, 27)
        } else if number_error(self.attachment_timestamp, 9) is Some {
            number_error(self.attachment_timestamp, 9)
        } else if number_error(self.attachment_timestamp_lower_bound, 9) is Some {
            number_error(self.attachment_timestamp_lower_bound, 9)
        } else if number_error(self.attachment_timestamp_upper_bound, 9) is Some {
            number_error(self.attachment_timestamp_upper_bound, 9)
        } else {
            text_error(self.nonce@, 27)
        }
    }

    /// The 2673 trytes of the transaction, field after field in schema order:
    /// text padded with filler, numbers in balanced ternary (the value in
    /// eleven trytes followed by filler).
    pub open spec fn spec_trytes(&self) -> Seq<u8> {
        padded_text(self.signature_fragments@, 2187) + padded_text(self.extra_data_digest@, 81)
            + padded_text(self.address@, 81) + (int_trytes(self.value as int, 11) + nines(16))
            + int_trytes(self.issuance_timestamp as int, 9) + int_trytes(
            self.timelock_lower_bound as int,
            9,
        ) + int_trytes(self.timelock_upper_bound as int, 9) + padded_text(self.bundle_nonce@, 27)
            + padded_text(self.trunk@, 81) + padded_text(self.branch@, 81) + padded_text(
            self.tag@,
            27,
        ) + int_trytes(self.attachment_timestamp as int, 9) + int_trytes(
            self.attachment_timestamp_lower_bound as int,
            9,
        ) + int_trytes(self.attachment_timestamp_upper_bound as int, 9) + padded_text(
            self.nonce@,
            27,
        )
    }

    /// Whether the transaction's fields are those that the transaction trytes
    /// `t` hold.
    pub open spec fn decoded_from(&self, t: Seq<u8>) -> bool {
        &&& self.signature_fragments@ == field_text(t, SIGNATURE_FRAGMENTS)
        &&& self.extra_data_digest@ == field_text(t, EXTRA_DATA_DIGEST)
        &&& self.address@ == field_text(t, ADDRESS)
        &&& self.value == field_number(t, VALUE)
        &&& self.issuance_timestamp == field_number(t, ISSUANCE_TIMESTAMP)
        &&& self.timelock_lower_bound == field_number(t, TIMELOCK_LOWER_BOUND)
        &&& self.timelock_upper_bound == field_number(t, TIMELOCK_UPPER_BOUND)
        &&& self.bundle_nonce@ == field_text(t, BUNDLE_NONCE)
        &&& self.trunk@ == field_text(t, TRUNK_HASH)
        &&& self.branch@ == field_text(t, BRANCH_HASH)
        &&& self.tag@ == field_text(t, TAG)
        &&& self.attachment_timestamp == field_number(t, ATTACHMENT_TIMESTAMP)
        &&& self.attachment_timestamp_lower_bound == field_number(
            t,
            ATTACHMENT_TIMESTAMP_LOWER_BOUND,
        )
        &&& self.attachment_timestamp_upper_bound == field_number(
            t,
            ATTACHMENT_TIMESTAMP_UPPER_BOUND,
        )
        &&& self.nonce@ == field_text(t, NONCE)
    }

    /// Decodes a transaction from its 2673 tryte characters.
    pub fn from_tx_trytes(trytes: &[u8]) -> (r: Transaction)
        requires
            trytes@.len() == TRANSACTION_SIZE_TRYTES,
            all_trytes(trytes@),
        ensures
            r.decoded_from(trytes@),
    {
        Transaction {
            signature_fragments: read_text(trytes, SIGNATURE_FRAGMENTS),
            extra_data_digest: read_text(trytes, EXTRA_DATA_DIGEST),
            address: read_text(trytes, ADDRESS),
            value: read_number(trytes, VALUE),
            issuance_timestamp: read_number(trytes, ISSUANCE_TIMESTAMP),
            timelock_lower_bound: read_number(trytes, TIMELOCK_LOWER_BOUND),
            timelock_upper_bound: read_number(trytes, TIMELOCK_UPPER_BOUND),
            bundle_nonce: read_text(trytes, BUNDLE_NONCE),
            trunk: read_text(trytes, TRUNK_HASH),
            branch: read_text(trytes, BRANCH_HASH),
            tag: read_text(trytes, TAG),
            attachment_timestamp: read_number(trytes, ATTACHMENT_TIMESTAMP),
            attachment_timestamp_lower_bound: read_number(trytes, ATTACHMENT_TIMESTAMP_LOWER_BOUND),
            attachment_timestamp_upper_bound: read_number(trytes, ATTACHMENT_TIMESTAMP_UPPER_BOUND),
            nonce: read_text(trytes, NONCE),
        }
    }
}

/// The text of `field` in the transaction trytes.
fn read_text(trytes: &[u8], field: Field) -> (r: String)
    requires
        trytes@.len() == TRANSACTION_SIZE_TRYTES,
        field.2 + field.3 <= TRANSACTION_SIZE_TRYTES,
        all_trytes(trytes@),
    ensures
        r@ == field_text(trytes@, field),
{
    let part = vstd::slice::slice_subrange(trytes, field.2, field.2 + field.3);
    proof {
        assert(all_trytes(part@)) by {
            assert forall|i: int| 0 <= i < part@.len() implies is_tryte(
                #[trigger] part@[i],
            ) by {
                assert(part@[i] == trytes@[field.2 + i]);
            }
        }
        lemma_tryte_bytes(part@);
    }
    tryte_string::from_trytes(part)
}

/// The number of `field` in the transaction trytes.
fn read_number(trytes: &[u8], field: Field) -> (r: i64)
    requires
        trytes@.len() == TRANSACTION_SIZE_TRYTES,
        field.2 + field.3 <= TRANSACTION_SIZE_TRYTES,
        all_trytes(trytes@),
    ensures
        r == field_number(trytes@, field),
{
    let part = vstd::slice::slice_subrange(trytes, field.2, field.2 + field.3);
    let ghost n: int = if field.3 < 11 { field.3 as int } else { 11 };
    assert(part@.subrange(0, n) =~= trytes@.subrange(field.2 as int, field.2 + n));
    assert(all_trytes(part@.subrange(0, n))) by {
        assert forall|i: int| 0 <= i < n implies is_tryte(
            #[trigger] part@.subrange(0, n)[i],
        ) by {
            assert(part@.subrange(0, n)[i] == trytes@[field.2 + i]);
        }
    }
    i64_from_trytes_max11(part)
}

/// Appends the trytes of a text field of `width` trytes; fails as
/// `text_error` says.
fn push_text(out: &mut Vec<u8>, text: &String, width: usize) -> (r: Result<(), CodecError>)
    ensures
        match r {
            Ok(_) => text_error(text@, width as nat) is None && final(out)@ == old(out)@
                + padded_text(text@, width as nat),
            Err(e) => text_error(text@, width as nat) == Some(e),
        },
{
    let s = text.as_str();
    if !is_trytes(s) {
        return Err(CodecError::InvalidAlphabet);
    }
    proof {
        lemma_tryte_str(s);
    }
    let bytes = s.as_bytes();
    if bytes.len() > width {
        return Err(CodecError::NumericOverflow);
    }
    let mut i: usize = 0;
    let ghost start = out@;
    while i < bytes.len()
        invariant
            i <= bytes@.len(),
            bytes@ == char_codes(text@),
            out@ == start + bytes@.subrange(0, i as int),
        decreases bytes@.len() - i,
    {
        out.push(bytes[i]);
        assert(out@ =~= start + bytes@.subrange(0, i + 1));
        i = i + 1;
    }
    let missing: usize = width - bytes.len();
    let mut filler: Vec<u8> = vec![TRYTE_NULL; missing];
    assert(filler@ =~= nines(missing as nat));
    assert(bytes@.subrange(0, bytes@.len() as int) =~= bytes@);
    out.append(&mut filler);
    assert(out@ =~= start + padded_text(text@, width as nat));
    Ok(())
}

/// Appends the `width` trytes of a number field; fails as `number_error`
/// says.
fn push_number(out: &mut Vec<u8>, number: i64, width: usize) -> (r: Result<(), CodecError>)
    ensures
        match r {
            Ok(_) => number_error(number, width as nat) is None && final(out)@ == old(out)@
                + int_trytes(number as int, width as nat),
            Err(e) => number_error(number, width as nat) == Some(e),
        },
{
    match trytes::from_i64(number, width) {
        Ok(t) => {
            let mut t = t;
            out.append(&mut t);
            Ok(())
        },
        Err(e) => Err(e),
    }
}

/// Appends the 27 trytes of the value field; fails as `number_error` says for
/// eleven trytes.
fn push_value(out: &mut Vec<u8>, number: i64) -> (r: Result<(), CodecError>)
    ensures
        match r {
            Ok(_) => number_error(number, 11) is None && final(out)@ == old(out)@ + (int_trytes(
                number as int,
                11,
            ) + nines(16)),
            Err(e) => number_error(number, 11) == Some(e),
        },
{
    match trytes::from_i64_fixed27(number) {
        Ok(t) => {
            let mut t = t;
            out.append(&mut t);
            Ok(())
        },
        Err(e) => Err(e),
    }
}

impl Transaction {
    /// The 2673 tryte characters of the transaction; fails at the first
    /// field, in schema order, that does not fit its width (see
    /// `encode_error`).
    pub fn as_trytes(&self) -> (r: Result<Vec<u8>, CodecError>)
        ensures
            match r {
                Ok(t) => self.encode_error() is None && t@ == self.spec_trytes(),
                Err(e) => self.encode_error() == Some(e),
            },
    {
        let mut out: Vec<u8> = Vec::new();
        match push_text(&mut out, &self.signature_fragments, SIGNATURE_FRAGMENTS.3) {
            Err(e) => return Err(e),
            Ok(_) => {},
        }
        match push_text(&mut out, &self.extra_data_digest, EXTRA_DATA_DIGEST.3) {
            Err(e) => return Err(e),
            Ok(_) => {},
        }
        match push_text(&mut out, &self.address, ADDRESS.3) {
            Err(e) => return Err(e),
            Ok(_) => {},
        }
        match push_value(&mut out, self.value) {
            Err(e) => return Err(e),
            Ok(_) => {},
        }
        match push_number(&mut out, self.issuance_timestamp, ISSUANCE_TIMESTAMP.3) {
            Err(e) => return Err(e),
            Ok(_) => {},
        }
        match push_number(&mut out, self.timelock_lower_bound, TIMELOCK_LOWER_BOUND.3) {
            Err(e) => return Err(e),
            Ok(_) => {},
        }
        match push_number(&mut out, self.timelock_upper_bound, TIMELOCK_UPPER_BOUND.3) {
            Err(e) => return Err(e),
            Ok(_) => {},
        }
        match push_text(&mut out, &self.bundle_nonce, BUNDLE_NONCE.3) {
            Err(e) => return Err(e),
            Ok(_) => {},
        }
        match push_text(&mut out, &self.trunk, TRUNK_HASH.3) {
            Err(e) => return Err(e),
            Ok(_) => {},
        }
        match push_text(&mut out, &self.branch, BRANCH_HASH.3) {
            Err(e) => return Err(e),
            Ok(_) => {},
        }
        match push_text(&mut out, &self.tag, TAG.3) {
            Err(e) => return Err(e),
            Ok(_) => {},
        }
        match push_number(&mut out, self.attachment_timestamp, ATTACHMENT_TIMESTAMP.3) {
            Err(e) => return Err(e),
            Ok(_) => {},
        }
        match push_number(
            &mut out,
            self.attachment_timestamp_lower_bound,
            ATTACHMENT_TIMESTAMP_LOWER_BOUND.3,
        ) {
            Err(e) => return Err(e),
            Ok(_) => {},
        }
        match push_number(
            &mut out,
            self.attachment_timestamp_upper_bound,
            ATTACHMENT_TIMESTAMP_UPPER_BOUND.3,
        ) {
            Err(e) => return Err(e),
            Ok(_) => {},
        }
        match push_text(&mut out, &self.nonce, NONCE.3) {
            Err(e) => return Err(e),
            Ok(_) => {},
        }
        assert(out@ =~= self.spec_trytes());
        Ok(out)
    }
}

/// Two tryte sequences together are tryte sequences.
pub proof fn lemma_all_trytes_concat(a: Seq<u8>, b: Seq<u8>)
    requires
        all_trytes(a),
        all_trytes(b),
    ensures
        all_trytes(a + b),
{
    assert forall|i: int| 0 <= i < (a + b).len() implies is_tryte(#[trigger] (a + b)[i]) by {
        if i < a.len() {
            assert((a + b)[i] == a[i]);
        } else {
            assert((a + b)[i] == b[i - a.len()]);
        }
    }
}

/// A text that fits its field gives `width` tryte characters.
pub proof fn lemma_padded_text(s: Seq<char>, width: nat)
    requires
        text_error(s, width) is None,
    ensures
        padded_text(s, width).len() == width,
        all_trytes(padded_text(s, width)),
{
    lemma_tryte_chars(s);
    assert(all_trytes(nines((width - s.len()) as nat)));
    lemma_all_trytes_concat(char_codes(s), nines((width - s.len()) as nat));
}

/// A number that fits its field gives `width` tryte characters.
pub proof fn lemma_number_trytes(n: i64, width: nat)
    requires
        number_error(n, width) is None,
    ensures
        int_trytes(n as int, width).len() == width,
        all_trytes(int_trytes(n as int, width)),
{
    lemma_int_trytes_value(n as int, width);
}

impl Transaction {
    /// A transaction that can be encoded gives 2673 tryte characters.
    pub proof fn lemma_spec_trytes(&self)
        requires
            self.encode_error() is None,
        ensures
            self.spec_trytes().len() == TRANSACTION_SIZE_TRYTES,
            all_trytes(self.spec_trytes()),
    {
        lemma_padded_text(self.signature_fragments@, 2187);
        lemma_padded_text(self.extra_data_digest@, 81);
        lemma_padded_text(self.address@, 81);
        lemma_number_trytes(self.value, 11);
        assert(all_trytes(nines(16)));
        lemma_all_trytes_concat(int_trytes(self.value as int, 11), nines(16));
        lemma_number_trytes(self.issuance_timestamp, 9);
        lemma_number_trytes(self.timelock_lower_bound, 9);
        lemma_number_trytes(self.timelock_upper_bound, 9);
        lemma_padded_text(self.bundle_nonce@, 27);
        lemma_padded_text(self.trunk@, 81);
        lemma_padded_text(self.branch@, 81);
        lemma_padded_text(self.tag@, 27);
        lemma_number_trytes(self.attachment_timestamp, 9);
        lemma_number_trytes(self.attachment_timestamp_lower_bound, 9);
        lemma_number_trytes(self.attachment_timestamp_upper_bound, 9);
        lemma_padded_text(self.nonce@, 27);
        let p1 = padded_text(self.signature_fragments@, 2187);
        let p2 = p1 + padded_text(self.extra_data_digest@, 81);
        lemma_all_trytes_concat(p1, padded_text(self.extra_data_digest@, 81));
        let p3 = p2 + padded_text(self.address@, 81);
        lemma_all_trytes_concat(p2, padded_text(self.address@, 81));
        let p4 = p3 + (int_trytes(self.value as int, 11) + nines(16));
        lemma_all_trytes_concat(p3, int_trytes(self.value as int, 11) + nines(16));
        let p5 = p4 + int_trytes(self.issuance_timestamp as int, 9);
        lemma_all_trytes_concat(p4, int_trytes(self.issuance_timestamp as int, 9));
        let p6 = p5 + int_trytes(self.timelock_lower_bound as int, 9);
        lemma_all_trytes_concat(p5, int_trytes(self.timelock_lower_bound as int, 9));
        let p7 = p6 + int_trytes(self.timelock_upper_bound as int, 9);
        lemma_all_trytes_concat(p6, int_trytes(self.timelock_upper_bound as int, 9));
        let p8 = p7 + padded_text(self.bundle_nonce@, 27);
        lemma_all_trytes_concat(p7, padded_text(self.bundle_nonce@, 27));
        let p9 = p8 + padded_text(self.trunk@, 81);
        lemma_all_trytes_concat(p8, padded_text(self.trunk@, 81));
        let p10 = p9 + padded_text(self.branch@, 81);
        lemma_all_trytes_concat(p9, padded_text(self.branch@, 81));
        let p11 = p10 + padded_text(self.tag@, 27);
        lemma_all_trytes_concat(p10, padded_text(self.tag@, 27));
        let p12 = p11 + int_trytes(self.attachment_timestamp as int, 9);
        lemma_all_trytes_concat(p11, int_trytes(self.attachment_timestamp as int, 9));
        let p13 = p12 + int_trytes(self.attachment_timestamp_lower_bound as int, 9);
        lemma_all_trytes_concat(p12, int_trytes(self.attachment_timestamp_lower_bound as int, 9));
        let p14 = p13 + int_trytes(self.attachment_timestamp_upper_bound as int, 9);
        lemma_all_trytes_concat(p13, int_trytes(self.attachment_timestamp_upper_bound as int, 9));
        lemma_all_trytes_concat(p14, padded_text(self.nonce@, 27));
    }

    /// The packed bytes of the transaction; fails as `as_trytes` does.
    pub fn as_bytes(&self) -> (r: Result<Vec<u8>, CodecError>)
        ensures
            match r {
                Ok(b) => self.encode_error() is None && b@ == pack(self.spec_trytes()) && b@.len()
                    == TRANSACTION_SIZE_BYTES,
                Err(e) => self.encode_error() == Some(e),
            },
    {
        match self.as_trytes() {
            Ok(t) => {
                proof {
                    self.lemma_spec_trytes();
                }
                Ok(bytes::from_tx_trytes_2enc9(&t))
            },
            Err(e) => Err(e),
        }
    }

    /// The tryte string of the transaction; fails as `as_trytes` does.
    pub fn as_tryte_string(&self) -> (r: Result<String, CodecError>)
        ensures
            match r {
                Ok(s) => self.encode_error() is None && s@ == ascii_chars(self.spec_trytes()),
                Err(e) => self.encode_error() == Some(e),
            },
    {
        match self.as_trytes() {
            Ok(t) => {
                proof {
                    self.lemma_spec_trytes();
                    lemma_tryte_bytes(t@);
                }
                Ok(tryte_string::from_trytes(&t))
            },
            Err(e) => Err(e),
        }
    }

    /// The 8019 trits of the transaction; fails as `as_trytes` does.
    pub fn as_trits(&self) -> (r: Result<Vec<i8>, CodecError>)
        ensures
            match r {
                Ok(t) => self.encode_error() is None && t@ == trits_of_trytes(self.spec_trytes()),
                Err(e) => self.encode_error() == Some(e),
            },
    {
        match self.as_trytes() {
            Ok(t) => {
                proof {
                    self.lemma_spec_trytes();
                }
                Ok(trits::from_tx_trytes(&t))
            },
            Err(e) => Err(e),
        }
    }

    /// Decodes a transaction from its packed bytes; fails with
    /// `LengthMismatch` when there are not 1782 of them, and otherwise with
    /// `InvalidAlphabet` when they are not the packing of tryte characters.
    pub fn from_tx_bytes(bytes: &[u8]) -> (r: Result<Transaction, CodecError>)
        ensures
            match r {
                Ok(tx) => bytes@.len() == TRANSACTION_SIZE_BYTES && valid_packed(bytes@)
                    && tx.decoded_from(unpack(bytes@)),
                Err(e) => if bytes@.len() != TRANSACTION_SIZE_BYTES {
                    e == CodecError::LengthMismatch
                } else {
                    !valid_packed(bytes@) && e == CodecError::InvalidAlphabet
                },
            },
    {
        if bytes.len() != TRANSACTION_SIZE_BYTES {
            return Err(CodecError::LengthMismatch);
        }
        if !trytes::is_valid_2enc9(bytes) {
            return Err(CodecError::InvalidAlphabet);
        }
        assert(bytes@.subrange(0, TRANSACTION_SIZE_BYTES as int) =~= bytes@);
        let t = trytes::from_tx_bytes_2enc9(bytes);
        Ok(Transaction::from_tx_trytes(&t))
    }

    /// Decodes a transaction from its tryte string; fails with
    /// `InvalidAlphabet` when a character is not a tryte character, and
    /// otherwise with `LengthMismatch` when it is not 2673 characters long.
    pub fn from_tryte_string(tryte_string: &str) -> (r: Result<Transaction, CodecError>)
        ensures
            match r {
                Ok(tx) => all_tryte_chars(tryte_string@) && tryte_string@.len()
                    == TRANSACTION_SIZE_TRYTES && tx.decoded_from(char_codes(tryte_string@)),
                Err(e) => if !all_tryte_chars(tryte_string@) {
                    e == CodecError::InvalidAlphabet
                } else {
                    tryte_string@.len() != TRANSACTION_SIZE_TRYTES && e
                        == CodecError::LengthMismatch
                },
            },
    {
        if !is_trytes(tryte_string) {
            return Err(CodecError::InvalidAlphabet);
        }
        proof {
            lemma_tryte_str(tryte_string);
        }
        let bytes = tryte_string.as_bytes();
        if bytes.len() != TRANSACTION_SIZE_TRYTES {
            return Err(CodecError::LengthMismatch);
        }
        Ok(Transaction::from_tx_trytes(bytes))
    }
}

/// Whether `s` fills a field of `width` trytes exactly with tryte characters.
pub open spec fn fills(s: Seq<char>, width: nat) -> bool {
    all_tryte_chars(s) && s.len() == width
}

impl Transaction {
    /// Whether every field holds what it can hold: text fields of tryte
    /// characters at their exact width, and numbers that their width holds.
    pub open spec fn well_formed(&self) -> bool {
        &&& fills(self.signature_fragments@, 2187)
        &&& fills(self.extra_data_digest@, 81)
        &&& fills(self.address@, 81)
        &&& number_error(self.value, 11) is None
        &&& number_error(self.issuance_timestamp, 9) is None
        &&& number_error(self.timelock_lower_bound, 9) is None
        &&& number_error(self.timelock_upper_bound, 9) is None
        &&& fills(self.bundle_nonce@, 27)
        &&& fills(self.trunk@, 81)
        &&& fills(self.branch@, 81)
        &&& fills(self.tag@, 27)
        &&& number_error(self.attachment_timestamp, 9) is None
        &&& number_error(self.attachment_timestamp_lower_bound, 9) is None
        &&& number_error(self.attachment_timestamp_upper_bound, 9) is None
        &&& fills(self.nonce@, 27)
    }

    /// Whether `other` has the same fields as this transaction.
    pub open spec fn same_fields(&self, other: &Transaction) -> bool {
        self.agrees_except(other, -1)
    }

    /// Whether `other` has the same fields as this transaction, but for
    /// field `f` in schema order.
    pub open spec fn agrees_except(&self, other: &Transaction, f: int) -> bool {
        &&& (f != 0 ==> self.signature_fragments@ == other.signature_fragments@)
        &&& (f != 1 ==> self.extra_data_digest@ == other.extra_data_digest@)
        &&& (f != 2 ==> self.address@ == other.address@)
        &&& (f != 3 ==> self.value == other.value)
        &&& (f != 4 ==> self.issuance_timestamp == other.issuance_timestamp)
        &&& (f != 5 ==> self.timelock_lower_bound == other.timelock_lower_bound)
        &&& (f != 6 ==> self.timelock_upper_bound == other.timelock_upper_bound)
        &&& (f != 7 ==> self.bundle_nonce@ == other.bundle_nonce@)
        &&& (f != 8 ==> self.trunk@ == other.trunk@)
        &&& (f != 9 ==> self.branch@ == other.branch@)
        &&& (f != 10 ==> self.tag@ == other.tag@)
        &&& (f != 11 ==> self.attachment_timestamp == other.attachment_timestamp)
        &&& (f != 12 ==> self.attachment_timestamp_lower_bound
            == other.attachment_timestamp_lower_bound)
        &&& (f != 13 ==> self.attachment_timestamp_upper_bound
            == other.attachment_timestamp_upper_bound)
        &&& (f != 14 ==> self.nonce@ == other.nonce@)
    }
}

/// A text that fills its field exactly is read back unchanged.
proof fn lemma_text_back(s: Seq<char>, width: nat)
    requires
        fills(s, width),
    ensures
        padded_text(s, width) == char_codes(s),
        ascii_chars(padded_text(s, width)) == s,
{
    lemma_tryte_chars(s);
    assert(padded_text(s, width) =~= char_codes(s));
}

/// Encoding and decoding: a well-formed transaction can be encoded, its
/// bytes are a valid packing, and the transaction decoded from them has the
/// same fields.
#[verifier::rlimit(40)]
pub proof fn lemma_encode_decode(tx: &Transaction, decoded: &Transaction)
    requires
        tx.well_formed(),
        decoded.decoded_from(unpack(pack(tx.spec_trytes()))),
    ensures
        tx.encode_error() is None,
        valid_packed(pack(tx.spec_trytes())),
        pack(tx.spec_trytes()).len() == TRANSACTION_SIZE_BYTES,
        decoded.same_fields(tx),
{
    assert(tx.encode_error() is None);
    tx.lemma_spec_trytes();
    let t = tx.spec_trytes();
    lemma_pack_round_trip(t);
    assert(unpack(pack(t)) == t);
    lemma_text_back(tx.signature_fragments@, 2187);
    lemma_text_back(tx.extra_data_digest@, 81);
    lemma_text_back(tx.address@, 81);
    lemma_text_back(tx.bundle_nonce@, 27);
    lemma_text_back(tx.trunk@, 81);
    lemma_text_back(tx.branch@, 81);
    lemma_text_back(tx.tag@, 27);
    lemma_text_back(tx.nonce@, 27);
    lemma_int_trytes_value(tx.value as int, 11);
    lemma_int_trytes_value(tx.issuance_timestamp as int, 9);
    lemma_int_trytes_value(tx.timelock_lower_bound as int, 9);
    lemma_int_trytes_value(tx.timelock_upper_bound as int, 9);
    lemma_int_trytes_value(tx.attachment_timestamp as int, 9);
    lemma_int_trytes_value(tx.attachment_timestamp_lower_bound as int, 9);
    lemma_int_trytes_value(tx.attachment_timestamp_upper_bound as int, 9);
    let p1 = char_codes(tx.signature_fragments@);
    let p2 = char_codes(tx.extra_data_digest@);
    let p3 = char_codes(tx.address@);
    let p4 = int_trytes(tx.value as int, 11) + nines(16);
    let p5 = int_trytes(tx.issuance_timestamp as int, 9);
    let p6 = int_trytes(tx.timelock_lower_bound as int, 9);
    let p7 = int_trytes(tx.timelock_upper_bound as int, 9);
    let p8 = char_codes(tx.bundle_nonce@);
    let p9 = char_codes(tx.trunk@);
    let p10 = char_codes(tx.branch@);
    let p11 = char_codes(tx.tag@);
    let p12 = int_trytes(tx.attachment_timestamp as int, 9);
    let p13 = int_trytes(tx.attachment_timestamp_lower_bound as int, 9);
    let p14 = int_trytes(tx.attachment_timestamp_upper_bound as int, 9);
    let p15 = char_codes(tx.nonce@);
    assert(t == p1 + p2 + p3 + p4 + p5 + p6 + p7 + p8 + p9 + p10 + p11 + p12 + p13 + p14 + p15);
    assert(t.subrange(0, 2187) =~= p1);
    assert(t.subrange(2187, 2268) =~= p2);
    assert(t.subrange(2268, 2349) =~= p3);
    assert(t.subrange(2349, 2360) =~= p4.subrange(0, 11));
    assert(p4.subrange(0, 11) =~= int_trytes(tx.value as int, 11));
    assert(t.subrange(2376, 2385) =~= p5);
    assert(t.subrange(2385, 2394) =~= p6);
    assert(t.subrange(2394, 2403) =~= p7);
    assert(t.subrange(2403, 2430) =~= p8);
    assert(t.subrange(2430, 2511) =~= p9);
    assert(t.subrange(2511, 2592) =~= p10);
    assert(t.subrange(2592, 2619) =~= p11);
    assert(t.subrange(2619, 2628) =~= p12);
    assert(t.subrange(2628, 2637) =~= p13);
    assert(t.subrange(2637, 2646) =~= p14);
    assert(t.subrange(2646, 2673) =~= p15);
}

/// `length` filler characters as a string.
fn filler_string(length: usize) -> (r: String)
    ensures
        r@ == filler_chars(length as nat),
{
    let bytes: Vec<u8> = vec![TRYTE_NULL; length];
    assert(ascii_chars(bytes@) =~= filler_chars(length as nat));
    assert(all_ascii(bytes@));
    tryte_string::string_from_ascii(bytes)
}

impl Transaction {
    /// Whether every text field is filler at its width and every number is
    /// zero, but for the issuance and attachment timestamps, which are
    /// `timestamp`.
    pub open spec fn is_blank_at(&self, timestamp: i64) -> bool {
        &&& self.signature_fragments@ == filler_chars(2187)
        &&& self.extra_data_digest@ == filler_chars(81)
        &&& self.address@ == filler_chars(81)
        &&& self.value == 0
        &&& self.issuance_timestamp == timestamp
        &&& self.timelock_lower_bound == 0
        &&& self.timelock_upper_bound == 0
        &&& self.bundle_nonce@ == filler_chars(27)
        &&& self.trunk@ == filler_chars(81)
        &&& self.branch@ == filler_chars(81)
        &&& self.tag@ == filler_chars(27)
        &&& self.attachment_timestamp == timestamp
        &&& self.attachment_timestamp_lower_bound == 0
        &&& self.attachment_timestamp_upper_bound == 0
        &&& self.nonce@ == filler_chars(27)
    }

    /// A blank transaction issued and attached at `timestamp`.
    pub fn with_timestamp(timestamp: i64) -> (r: Transaction)
        ensures
            r.is_blank_at(timestamp),
    {
        Transaction {
            signature_fragments: filler_string(SIGNATURE_FRAGMENTS.3),
            extra_data_digest: filler_string(EXTRA_DATA_DIGEST.3),
            address: filler_string(ADDRESS.3),
            value: 0,
            issuance_timestamp: timestamp,
            timelock_lower_bound: 0,
            timelock_upper_bound: 0,
            bundle_nonce: filler_string(BUNDLE_NONCE.3),
            trunk: filler_string(TRUNK_HASH.3),
            branch: filler_string(BRANCH_HASH.3),
            tag: filler_string(TAG.3),
            attachment_timestamp: timestamp,
            attachment_timestamp_lower_bound: 0,
            attachment_timestamp_upper_bound: 0,
            nonce: filler_string(NONCE.3),
        }
    }

    /// Sets the signature fragment to the tryte encoding of the ASCII text
    /// `message`, padded with filler to the fragment's width.
    pub fn message(self, message: &str) -> (r: Self)
        requires
            message.is_ascii(),
            message@.len() <= SIGNATURE_FRAGMENTS.3,
        ensures
            r.signature_fragments@ == fill_to(
                ascii_chars(ascii_trytes(char_codes(message@))),
                SIGNATURE_FRAGMENTS.3 as nat,
            ),
            r.agrees_except(&self, 0),
    {
        let encoded = tryte_string::from_ascii(message);
        proof {
            lemma_tryte_bytes(ascii_trytes(char_codes(message@)));
        }
        let encoded_str = encoded.as_str();
        proof {
            lemma_tryte_str(encoded_str);
        }
        let mut tx = self;
        tx.signature_fragments = tryte_string::pad_right(encoded_str, SIGNATURE_FRAGMENTS.3);
        tx
    }

    /// Sets the tag to the tryte string `tag`, padded with filler to the
    /// tag's width.
    pub fn tag(self, tag: &str) -> (r: Self)
        requires
            all_tryte_chars(tag@),
            tag@.len() <= TAG.3,
        ensures
            r.tag@ == fill_to(tag@, TAG.3 as nat),
            r.agrees_except(&self, 10),
    {
        proof {
            lemma_tryte_str(tag);
        }
        let mut tx = self;
        tx.tag = tryte_string::pad_right(tag, TAG.3);
        tx
    }
}

impl Default for Transaction {
    /// A blank transaction issued and attached now, by the wall clock.
    fn default() -> (r: Transaction)
        ensures
            r.is_blank_at(r.issuance_timestamp),
            r.issuance_timestamp >= 0,
    {
        Transaction::with_timestamp(get_unix_time_millis())
    }
}

/// The hash that a digest of 243 trits gives: its 81 trytes; fails with
/// `LengthMismatch` when the digest is not 243 trits long, and otherwise with
/// `InvalidAlphabet` when an element is not a trit.
pub open spec fn hash_of_digest(digest: Seq<i8>) -> Result<Seq<u8>, CodecError> {
    if digest.len() != 243 {
        Err(CodecError::LengthMismatch)
    } else if !all_trits(digest) {
        Err(CodecError::InvalidAlphabet)
    } else {
        Ok(trytes_of_trits(digest))
    }
}

/// The 81 trytes of a digest of 243 trits (see `hash_of_digest`).
pub fn hash_from_digest(digest: &[i8]) -> (r: Result<Vec<u8>, CodecError>)
    ensures
        seq_result(r) == hash_of_digest(digest@),
{
    if digest.len() != 243 {
        return Err(CodecError::LengthMismatch);
    }
    if !trytes::are_trits(digest) {
        return Err(CodecError::InvalidAlphabet);
    }
    Ok(trytes::from_trits_fixed81(digest))
}

impl Transaction {
    /// The hash of the transaction: the digest that `curl` computes of its
    /// trits over `CURL_ROUNDS_TRANSACTION_HASH` rounds, as 81 trytes. Fails
    /// as `as_trits` does, and then as `hash_from_digest` does on the digest.
    pub fn get_hash<F: Fn(Vec<i8>, usize) -> Vec<i8>>(&self, curl: F) -> (r: Result<
        Vec<u8>,
        CodecError,
    >)
        requires
            forall|trits: Vec<i8>, rounds: usize| curl.requires((trits, rounds)),
        ensures
            self.encode_error() is Some ==> r == Err::<Vec<u8>, CodecError>(
                self.encode_error()->Some_0,
            ),
            self.encode_error() is None ==> exists|trits: Vec<i8>, digest: Vec<i8>|
                trits@ == trits_of_trytes(self.spec_trytes()) && curl.ensures(
                    (trits, CURL_ROUNDS_TRANSACTION_HASH),
                    digest,
                ) && seq_result(r) == hash_of_digest(digest@),
    {
        match self.as_trits() {
            Err(e) => Err(e),
            Ok(trits) => {
                let ghost input = trits;
                let digest = curl(trits, CURL_ROUNDS_TRANSACTION_HASH);
                let r = hash_from_digest(&digest);
                assert(input@ == trits_of_trytes(self.spec_trytes()) && curl.ensures(
                    (input, CURL_ROUNDS_TRANSACTION_HASH),
                    digest,
                ) && seq_result(r) == hash_of_digest(digest@));
                r
            },
        }
    }
}

/// Builds a transaction from a blank one, a field at a time.
pub struct TransactionBuilder {
    transaction: Transaction,
}

impl TransactionBuilder {
    /// The transaction built so far.
    pub closed spec fn spec_transaction(&self) -> Transaction {
        self.transaction
    }

    /// Starts from a blank transaction issued and attached now.
    pub fn default() -> (r: Self)
        ensures
            r.spec_transaction().is_blank_at(r.spec_transaction().issuance_timestamp),
            r.spec_transaction().issuance_timestamp >= 0,
    {
        TransactionBuilder { transaction: Transaction::default() }
    }

    /// Sets the value, whose magnitude is at most `MAX_TOKEN_SUPPLY`.
    pub fn value(self, value: i64) -> (r: Self)
        requires
            abs(value as int) <= MAX_TOKEN_SUPPLY,
        ensures
            r.spec_transaction().value == value,
            r.spec_transaction().agrees_except(&self.spec_transaction(), 3),
    {
        let mut transaction = self.transaction;
        transaction.value = value;
        TransactionBuilder { transaction }
    }

    /// Sets the trunk hash to a tryte string of at most 81 characters.
    pub fn trunk(self, trunk: &str) -> (r: Self)
        requires
            all_tryte_chars(trunk@),
            trunk@.len() <= TRUNK_HASH.3,
        ensures
            r.spec_transaction().trunk@ == trunk@,
            r.spec_transaction().agrees_except(&self.spec_transaction(), 8),
    {
        let mut transaction = self.transaction;
        transaction.trunk = trunk.to_owned();
        TransactionBuilder { transaction }
    }

    /// Sets the branch hash to a tryte string of at most 81 characters.
    pub fn branch(self, branch: &str) -> (r: Self)
        requires
            all_tryte_chars(branch@),
            branch@.len() <= BRANCH_HASH.3,
        ensures
            r.spec_transaction().branch@ == branch@,
            r.spec_transaction().agrees_except(&self.spec_transaction(), 9),
    {
        let mut transaction = self.transaction;
        transaction.branch = branch.to_owned();
        TransactionBuilder { transaction }
    }

    /// Sets the signature fragment to the encoding of an ASCII message (see
    /// `Transaction::message`).
    pub fn message(self, message: &str) -> (r: Self)
        requires
            message.is_ascii(),
            message@.len() <= SIGNATURE_FRAGMENTS.3,
        ensures
            r.spec_transaction().signature_fragments@ == fill_to(
                ascii_chars(ascii_trytes(char_codes(message@))),
                SIGNATURE_FRAGMENTS.3 as nat,
            ),
            r.spec_transaction().agrees_except(&self.spec_transaction(), 0),
    {
        TransactionBuilder { transaction: self.transaction.message(message) }
    }

    /// Sets the tag to a tryte string of at most 27 characters, padded with
    /// filler.
    pub fn tag(self, tag: &str) -> (r: Self)
        requires
            all_tryte_chars(tag@),
            tag@.len() <= TAG.3,
        ensures
            r.spec_transaction().tag@ == fill_to(tag@, TAG.3 as nat),
            r.spec_transaction().agrees_except(&self.spec_transaction(), 10),
    {
        TransactionBuilder { transaction: self.transaction.tag(tag) }
    }

    /// The transaction built.
    pub fn build(self) -> (r: Transaction)
        ensures
            r == self.spec_transaction(),
    {
        self.transaction
    }
}

} // verus!
