use vstd::prelude::*;

use crate::convert::alphabet::all_tryte_chars;

verus! {

/// A field of the transaction: (trit offset, trit length, tryte offset,
/// tryte length, byte offset, byte length).
pub type Field = (usize, usize, usize, usize, usize, usize);

pub const SIGNATURE_FRAGMENTS: Field = (0, 6561, 0, 2187, 0, 1458);
pub const EXTRA_DATA_DIGEST: Field = (6561, 243, 2187, 81, 1458, 54);
pub const ADDRESS: Field = (6804, 243, 2268, 81, 1512, 54);
pub const VALUE: Field = (7047, 81, 2349, 27, 1566, 18);
pub const ISSUANCE_TIMESTAMP: Field = (7128, 27, 2376, 9, 1584, 6);
pub const TIMELOCK_LOWER_BOUND: Field = (7155, 27, 2385, 9, 1590, 6);
pub const TIMELOCK_UPPER_BOUND: Field = (7182, 27, 2394, 9, 1596, 6);
pub const BUNDLE_NONCE: Field = (7209, 81, 2403, 27, 1602, 18);
pub const TRUNK_HASH: Field = (7290, 243, 2430, 81, 1620, 54);
pub const BRANCH_HASH: Field = (7533, 243, 2511, 81, 1674, 54);
pub const TAG: Field = (7776, 81, 2592, 27, 1728, 18);
pub const ATTACHMENT_TIMESTAMP: Field = (7857, 27, 2619, 9, 1746, 6);
pub const ATTACHMENT_TIMESTAMP_LOWER_BOUND: Field = (7884, 27, 2628, 9, 1752, 6);
pub const ATTACHMENT_TIMESTAMP_UPPER_BOUND: Field = (7911, 27, 2637, 9, 1758, 6);
pub const NONCE: Field = (7938, 81, 2646, 27, 1764, 18);

pub const TRANSACTION_SIZE_TRITS: usize = 8019;
pub const TRANSACTION_SIZE_TRYTES: usize = TRANSACTION_SIZE_TRITS / 3;
pub const TRANSACTION_SIZE_BYTES: usize = TRANSACTION_SIZE_TRITS / 9 * 2;
pub const PACKET_SIZE: usize = TRANSACTION_SIZE_BYTES;

pub const MIN_MESSAGE_LENGTH: usize = 10;
pub const MAX_MESSAGE_LENGTH: usize = 1458;

pub const CURL_ROUNDS_TRANSACTION_HASH: usize = 27;

/// The largest magnitude of a token amount: (3^33 - 1) / 2, which is also the
/// largest magnitude that eleven trytes can hold.
pub const MAX_TOKEN_SUPPLY: i64 = 2779530283277761;

/// The characters of the pattern `^[9A-Z]*$`: a whole text of tryte
/// characters.
pub open spec fn tryte_pattern() -> Seq<char> {
    seq!['^', '[', '9', 'A', '-', 'Z', ']', '*', '$']
}

/// Relies on regex::Regex::new and regex::Regex::is_match: the pattern
/// `^[9A-Z]*$` compiles, and it matches a text exactly when every character of
/// the text is `9` or an upper-case letter `A` to `Z` (`$` is the end of the
/// text, as multi-line mode is off).
#[verifier::external_body]
fn matches_tryte_pattern(pattern: &str, text: &str) -> (r: bool)
    requires
        pattern@ == tryte_pattern(),
    ensures
        r == all_tryte_chars(text@),
{
    match regex::Regex::new(pattern) {
        Ok(re) => re.is_match(text),
        Err(_) => false,
    }
}

/// Whether every character of `text` is a tryte character.
pub fn is_trytes(text: &str) -> (r: bool)
    ensures
        r == all_tryte_chars(text@),
{
    let pattern = "^[9A-Z]*$";
    proof {
        reveal_strlit("^[9A-Z]*$");
    }
    assert(pattern@ =~= tryte_pattern());
    matches_tryte_pattern(pattern, text)
}

} // verus!
