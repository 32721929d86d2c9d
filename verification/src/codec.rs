//! Templates as text and as records of the mask file and the share files.

use crate::bits::{limb_byte, Bits};
use crate::encoded_bits::EncodedBits;
use crate::ring::{vectors_sum, words_bytes, words_of_bytes};
use crate::template::Template;
use crate::{encode, encoding};
use vstd::prelude::*;
use vstd::string::StringSliceAdditionalSpecFns;

verus! {

/// Why a text or a file is not what it should be.
#[derive(Clone, Copy, PartialEq, Eq, Debug)]
pub enum FormatError {
    /// A hexadecimal text has an odd number of digits.
    OddLength,
    /// The byte at `index` of a hexadecimal text is no hexadecimal digit.
    InvalidCharacter { index: usize },
    /// A text or a buffer does not hold as many bytes as the value takes.
    WrongLength,
    /// A file ends inside a record.
    PartialRecord,
}

/// The hexadecimal digit, in lower case, of a number below sixteen.
pub open spec fn hex_digit(d: int) -> char {
    if d < 10 {
        (48 + d) as char
    } else {
        (87 + d) as char
    }
}

/// The hexadecimal text of some bytes: two digits for each byte, the high one
/// first, in lower case.
pub open spec fn hex_text(bytes: Seq<u8>) -> Seq<char> {
    Seq::new(
        2 * bytes.len(),
        |i: int|
            hex_digit(
                if i % 2 == 0 {
                    bytes[i / 2] as int / 16
                } else {
                    bytes[i / 2] as int % 16
                },
            ),
    )
}

/// The value of a byte of text read as a hexadecimal digit of either case.
pub open spec fn hex_value(c: u8) -> Option<int> {
    if 48 <= c <= 57 {
        Some(c - 48)
    } else if 97 <= c <= 102 {
        Some(c - 87)
    } else if 65 <= c <= 70 {
        Some(c - 55)
    } else {
        None
    }
}

/// Whether every byte of a text is a hexadecimal digit.
pub open spec fn all_hex(text: Seq<u8>) -> bool {
    forall|i: int| 0 <= i < text.len() ==> (#[trigger] hex_value(text[i])) is Some
}

/// The bytes that a text of hexadecimal digits spells.
pub open spec fn hex_bytes(text: Seq<u8>) -> Seq<u8> {
    Seq::new(
        text.len() / 2,
        |i: int| (16 * hex_value(text[2 * i]).unwrap() + hex_value(text[2 * i + 1]).unwrap()) as u8,
    )
}

/// `hex::encode`: the text of two lower-case hexadecimal digits for each
/// byte, the high digit first.
#[verifier::external_body]
fn hex_encode(bytes: &[u8]) -> (text: String)
    ensures
        text@ == hex_text(bytes@),
{
    hex::encode(bytes)
}

/// `hex::decode`: the bytes that a text spells. A text of odd length is
/// refused first; after that the first byte that is no hexadecimal digit is
/// reported with its place.
#[verifier::external_body]
fn hex_decode(text: &[u8]) -> (result: Result<Vec<u8>, FormatError>)
    ensures
        match result {
            Ok(bytes) => text@.len() % 2 == 0 && all_hex(text@) && bytes@ == hex_bytes(text@),
            Err(FormatError::OddLength) => text@.len() % 2 == 1,
            Err(FormatError::InvalidCharacter { index }) => {
                &&& text@.len() % 2 == 0
                &&& index < text@.len()
                &&& hex_value(text@[index as int]) is None
                &&& all_hex(text@.take(index as int))
            },
            Err(_) => false,
        },
{
    match hex::decode(text) {
        Ok(bytes) => Ok(bytes),
        Err(hex::FromHexError::OddLength) => Err(FormatError::OddLength),
        Err(hex::FromHexError::InvalidHexCharacter { c: _, index }) => Err(
            FormatError::InvalidCharacter { index },
        ),
        Err(hex::FromHexError::InvalidStringLength) => Err(FormatError::WrongLength),
    }
}

/// The bytes of a sequence of limbs, limb after limb, the most significant
/// byte of a limb first.
pub open spec fn big_endian_bytes(limbs: Seq<u64>) -> Seq<u8> {
    Seq::new(8 * limbs.len(), |k: int| limb_byte(limbs[k / 8], (7 - k % 8) as u64))
}

impl Bits {
    /// The limbs in hexadecimal, sixteen digits for each limb, the most
    /// significant digit first.
    pub fn debug_text(&self) -> (text: String)
        ensures
            text@ == hex_text(big_endian_bytes(self.0@)),
    {
        let bytes = self.to_bytes();
        let mut swapped: Vec<u8> = Vec::with_capacity(1600);
        let mut k: usize = 0;
        while k < 1600
            invariant
                0 <= k <= 1600,
                bytes@ == self.bytes(),
                swapped@.len() == k,
                forall|m: int| 0 <= m < k ==> swapped@[m] == big_endian_bytes(self.0@)[m],
            decreases 1600 - k,
        {
            let from = (k / 8) * 8 + (7 - k % 8);
            proof {
                assert(from / 8 == k / 8 && from % 8 == 7 - k % 8);
            }
            swapped.push(bytes[from]);
            k += 1;
        }
        assert(swapped@ =~= big_endian_bytes(self.0@));
        hex_encode(swapped.as_slice())
    }

    /// The vector as text: the 3,200 hexadecimal digits of its bytes.
    pub fn to_hex(&self) -> (text: String)
        ensures
            text@ == hex_text(self.bytes()),
    {
        let bytes = self.to_bytes();
        hex_encode(bytes.as_slice())
    }

    /// The vector that a text of 3,200 hexadecimal digits spells.
    pub fn from_hex(text: &str) -> (result: Result<Bits, FormatError>)
        ensures
            match result {
                Ok(bits) => {
                    &&& text.spec_bytes().len() == 3200
                    &&& all_hex(text.spec_bytes())
                    &&& bits.bytes() == hex_bytes(text.spec_bytes())
                },
                Err(FormatError::OddLength) => text.spec_bytes().len() % 2 == 1,
                Err(FormatError::InvalidCharacter { index }) => {
                    &&& text.spec_bytes().len() % 2 == 0
                    &&& index < text.spec_bytes().len()
                    &&& hex_value(text.spec_bytes()[index as int]) is None
                    &&& all_hex(text.spec_bytes().take(index as int))
                },
                Err(FormatError::WrongLength) => {
                    &&& text.spec_bytes().len() % 2 == 0
                    &&& all_hex(text.spec_bytes())
                    &&& text.spec_bytes().len() != 3200
                },
                Err(FormatError::PartialRecord) => false,
            },
    {
        match hex_decode(text.as_bytes()) {
            Err(e) => Err(e),
            Ok(bytes) => {
                if bytes.len() != 1600 {
                    return Err(FormatError::WrongLength);
                }
                let mut array = [0u8; 1600];
                let mut i: usize = 0;
                while i < 1600
                    invariant
                        0 <= i <= 1600,
                        bytes@.len() == 1600,
                        forall|k: int| 0 <= k < i ==> array@[k] == bytes@[k],
                    decreases 1600 - i,
                {
                    array[i] = bytes[i];
                    i += 1;
                }
                assert(array@ =~= bytes@);
                Ok(Bits::from_bytes(&array))
            },
        }
    }
}

/// The masks that a mask file holds: one for every 1,600 bytes.
pub open spec fn file_masks(bytes: Seq<u8>) -> Seq<Seq<u8>> {
    Seq::new(bytes.len() / 1600, |i: int| bytes.subrange(1600 * i, 1600 * i + 1600))
}

/// The vectors that a share file holds: one for every 25,600 bytes.
pub open spec fn file_shares(bytes: Seq<u8>) -> Seq<Seq<u8>> {
    Seq::new(bytes.len() / 25600, |i: int| bytes.subrange(25600 * i, 25600 * i + 25600))
}

/// Reads a mask file, or a part of one that holds whole records: the masks
/// in their order. A buffer that ends inside a record is refused.
pub fn masks_from_bytes(bytes: &[u8]) -> (result: Result<Vec<Bits>, FormatError>)
    ensures
        result is Ok <==> bytes@.len() % 1600 == 0,
        result matches Ok(masks) ==> {
            &&& masks@.len() == bytes@.len() / 1600
            &&& forall|i: int|
                0 <= i < masks@.len() ==> (#[trigger] masks@[i]).bytes() == file_masks(bytes@)[i]
        },
        result matches Err(e) ==> e == FormatError::PartialRecord,
{
    if bytes.len() % 1600 != 0 {
        return Err(FormatError::PartialRecord);
    }
    let n = bytes.len() / 1600;
    let mut masks: Vec<Bits> = Vec::with_capacity(n);
    let mut i: usize = 0;
    while i < n
        invariant
            0 <= i <= n,
            n == bytes@.len() / 1600,
            bytes@.len() % 1600 == 0,
            bytes@.len() <= usize::MAX,
            masks@.len() == i,
            forall|j: int|
                0 <= j < i ==> (#[trigger] masks@[j]).bytes() == file_masks(bytes@)[j],
        decreases n - i,
    {
        let mut record = [0u8; 1600];
        let mut k: usize = 0;
        while k < 1600
            invariant
                0 <= i < n,
                0 <= k <= 1600,
                n == bytes@.len() / 1600,
                bytes@.len() <= usize::MAX,
                forall|m: int| 0 <= m < k ==> record@[m] == bytes@[1600 * i + m],
            decreases 1600 - k,
        {
            record[k] = bytes[1600 * i + k];
            k += 1;
        }
        assert(record@ =~= file_masks(bytes@)[i as int]);
        masks.push(Bits::from_bytes(&record));
        i += 1;
    }
    Ok(masks)
}

/// Reads a share file, or a part of one that holds whole records: the
/// vectors in their order. A buffer that ends inside a record is refused.
pub fn shares_from_bytes(bytes: &[u8]) -> (result: Result<Vec<EncodedBits>, FormatError>)
    ensures
        result is Ok <==> bytes@.len() % 25600 == 0,
        result matches Ok(shares) ==> {
            &&& shares@.len() == bytes@.len() / 25600
            &&& forall|i: int|
                0 <= i < shares@.len() ==> words_bytes((#[trigger] shares@[i])@) == file_shares(
                    bytes@,
                )[i]
        },
        result matches Err(e) ==> e == FormatError::PartialRecord,
{
    if bytes.len() % 25600 != 0 {
        return Err(FormatError::PartialRecord);
    }
    let n = bytes.len() / 25600;
    let mut shares: Vec<EncodedBits> = Vec::with_capacity(n);
    let mut i: usize = 0;
    while i < n
        invariant
            0 <= i <= n,
            n == bytes@.len() / 25600,
            bytes@.len() % 25600 == 0,
            bytes@.len() <= usize::MAX,
            shares@.len() == i,
            forall|j: int|
                0 <= j < i ==> words_bytes((#[trigger] shares@[j])@) == file_shares(bytes@)[j],
        decreases n - i,
    {
        let record = vstd::slice::slice_subrange(bytes, 25600 * i, 25600 * i + 25600);
        shares.push(EncodedBits(words_of_bytes(record)));
        i += 1;
    }
    Ok(shares)
}

/// What enrolling one template writes: the record of its mask for the mask
/// file, and `count` shares of its encoding, one for each share file.
pub fn prepare(template: &Template, count: usize) -> (records: ([u8; 1600], Vec<EncodedBits>))
    requires
        count > 0,
    ensures
        records.0@ == template.mask.bytes(),
        records.1@.len() == count,
        vectors_sum(EncodedBits::views(records.1@), count as nat) == encoding(
            template.pattern@,
            template.mask@,
        ),
{
    let mask = template.mask.to_bytes();
    let shares = encode(template).share(count);
    (mask, shares)
}

} // verus!
