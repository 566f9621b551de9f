//! The upload decoder: turns the named parts of a multipart request body
//! into typed field values, decoding each text field once and demanding the
//! required fields.
//!
//! The transport hands over each part's name, the client file name and the
//! raw bytes; everything after that point is decoded here. A missing
//! required field fails with `MissingField` naming the field; a text field
//! longer than [`MAX_FIELD_BYTES`] fails with `PayloadTooLarge`, so memory
//! per text field is bounded explicitly rather than by the transport's
//! body-size cap alone; one whose bytes are not UTF-8 fails with
//! `InvalidEncoding`. When a field name repeats, the part that arrived last
//! wins, as an assigning loop over the parts would leave it.

use vstd::prelude::*;
use crate::errors::CmsError;
use vstd::utf8::{decode_utf8, valid_utf8};

verus! {

/// The mathematical value of one body part.
pub struct PartView {
    pub name: Seq<char>,
    pub filename: Seq<char>,
    pub data: Seq<u8>,
}

/// One decoded part of a multipart body: the field name, the client-sent
/// file name (empty for plain text fields) and the raw bytes.
pub struct Part {
    pub name: String,
    pub filename: String,
    pub data: Vec<u8>,
}

impl View for Part {
    type V = PartView;

    open spec fn view(&self) -> PartView {
        PartView { name: self.name@, filename: self.filename@, data: self.data@ }
    }
}

/// The part views of a part sequence, in arrival order.
pub open spec fn part_views(parts: Seq<Part>) -> Seq<PartView> {
    parts.map_values(|p: Part| p@)
}

/// The most bytes one text field may hold: the transport's configured
/// body-size cap, applied here to each field on its own. The image field is
/// exempt; its size is the transport's to bound.
pub const MAX_FIELD_BYTES: usize = 10_485_760;

/// The last part named `name`, if any: with a repeated name, the latest
/// arrival wins.
pub open spec fn spec_find_part(parts: Seq<PartView>, name: Seq<char>) -> Option<PartView>
    decreases parts.len(),
{
    if parts.len() == 0 {
        None
    } else if parts.last().name == name {
        Some(parts.last())
    } else {
        spec_find_part(parts.drop_last(), name)
    }
}

/// Relies on `String::from_utf8`: it succeeds exactly on valid UTF-8 and
/// returns the string those bytes encode.
#[verifier::external_body]
fn utf8_to_string(bytes: &Vec<u8>) -> (r: Option<String>)
    ensures
        r is Some <==> valid_utf8(bytes@),
        r matches Some(s) ==> s@ == decode_utf8(bytes@),
{
    String::from_utf8(bytes.clone()).ok()
}

/// A byte-for-byte copy of `src`.
pub fn copy_bytes(src: &Vec<u8>) -> (r: Vec<u8>)
    ensures
        r@ == src@,
{
    let mut out: Vec<u8> = Vec::new();
    let n = src.len();
    let mut i: usize = 0;
    while i < n
        invariant
            0 <= i <= n,
            n == src@.len(),
            out@ == src@.subrange(0, i as int),
        decreases n - i,
    {
        out.push(src[i]);
        proof {
            assert(out@ =~= src@.subrange(0, i + 1));
        }
        i = i + 1;
    }
    proof {
        assert(out@ =~= src@);
    }
    out
}

/// Finds the last part named `name`, scanning from the end.
pub fn find_part<'a>(parts: &'a Vec<Part>, name: &String) -> (r: Option<&'a Part>)
    ensures
        match r {
            Some(p) => spec_find_part(part_views(parts@), name@) == Some(p@),
            None => spec_find_part(part_views(parts@), name@) is None,
        },
{
    let ghost all = part_views(parts@);
    let mut i: usize = parts.len();
    proof {
        assert(all.take(i as int) =~= all);
    }
    while i > 0
        invariant
            0 <= i <= parts@.len(),
            all == part_views(parts@),
            spec_find_part(all, name@) == spec_find_part(all.take(i as int), name@),
        decreases i,
    {
        i = i - 1;
        if parts[i].name == *name {
            proof {
                assert(all.take(i + 1).last() == all[i as int]);
                assert(all[i as int].name == name@);
            }
            return Some(&parts[i]);
        }
        proof {
            assert(all.take(i + 1).last() == all[i as int]);
            assert(all.take(i + 1).drop_last() =~= all.take(i as int));
        }
    }
    proof {
        assert(all.take(0int) =~= Seq::<PartView>::empty());
    }
    None
}

/// Decodes the text field `name`: the bytes of its last occurrence, read as
/// UTF-8. Fails with `MissingField(name)` when no part carries the name,
/// with `PayloadTooLarge` when the field exceeds the per-field bound, and
/// with `InvalidEncoding` when the bytes are not valid UTF-8.
pub fn decode_text_field(parts: &Vec<Part>, name: &String) -> (r: Result<String, CmsError>)
    ensures
        match r {
            Ok(s) => {
                &&& spec_find_part(part_views(parts@), name@) matches Some(p)
                &&& spec_find_part(part_views(parts@), name@)->0.data.len() <= MAX_FIELD_BYTES
                &&& valid_utf8(
                    spec_find_part(part_views(parts@), name@)->0.data,
                )
                &&& s@ == decode_utf8(spec_find_part(part_views(parts@), name@)->0.data)
            },
            Err(e) => match spec_find_part(part_views(parts@), name@) {
                Some(p) => {
                    if p.data.len() > MAX_FIELD_BYTES {
                        e == CmsError::PayloadTooLarge
                    } else {
                        e == CmsError::InvalidEncoding && !valid_utf8(p.data)
                    }
                },
                None => e.is_missing_field(name@),
            },
        },
{
    match find_part(parts, name) {
        Some(p) => {
            if p.data.len() > MAX_FIELD_BYTES {
                return Err(CmsError::PayloadTooLarge);
            }
            match utf8_to_string(&p.data) {
                Some(s) => Ok(s),
                None => Err(CmsError::InvalidEncoding),
            }
        },
        None => Err(CmsError::MissingField(name.clone())),
    }
}

/// The bytes and client file name of the file field `name`, or
/// `MissingField(name)` when no part carries the name.
pub fn decode_file_field(parts: &Vec<Part>, name: &String) -> (r: Result<
    (Vec<u8>, String),
    CmsError,
>)
    ensures
        match r {
            Ok(f) => {
                &&& spec_find_part(part_views(parts@), name@) matches Some(p)
                &&& f.0@ == spec_find_part(part_views(parts@), name@)->0.data
                &&& f.1@ == spec_find_part(part_views(parts@), name@)->0.filename
            },
            Err(e) => {
                &&& e.is_missing_field(name@)
                &&& spec_find_part(part_views(parts@), name@) is None
            },
        },
{
    match find_part(parts, name) {
        Some(p) => Ok((copy_bytes(&p.data), p.filename.clone())),
        None => Err(CmsError::MissingField(name.clone())),
    }
}

/// True of a decimal digit.
pub open spec fn is_digit(c: char) -> bool {
    '0' <= c && c <= '9'
}

/// The numeric value of one digit.
pub open spec fn digit_val(c: char) -> int {
    c as int - '0' as int
}

/// True when every character of `s` is a decimal digit.
pub open spec fn all_digits(s: Seq<char>) -> bool {
    forall|i: int| 0 <= i < s.len() ==> is_digit(#[trigger] s[i])
}

/// The value of a digit string read in base 10.
pub open spec fn digits_val(s: Seq<char>) -> int
    decreases s.len(),
{
    if s.len() == 0 {
        0
    } else {
        digits_val(s.drop_last()) * 10 + digit_val(s.last())
    }
}

/// What parsing `s` as an `i32` yields: an optional sign, then at least one
/// digit and nothing else, with the signed value in the `i32` range.
pub open spec fn spec_parse_i32(s: Seq<char>) -> Option<int> {
    let digits = if s.len() > 0 && (s[0] == '-' || s[0] == '+') {
        s.drop_first()
    } else {
        s
    };
    let neg = s.len() > 0 && s[0] == '-';
    if digits.len() == 0 || !all_digits(digits) {
        None
    } else {
        let v = if neg {
            -digits_val(digits)
        } else {
            digits_val(digits)
        };
        if i32::MIN <= v <= i32::MAX {
            Some(v)
        } else {
            None
        }
    }
}

/// A digit string's value is at least zero.
proof fn lemma_digits_val_nonneg(s: Seq<char>)
    requires
        all_digits(s),
    ensures
        digits_val(s) >= 0,
    decreases s.len(),
{
    if s.len() > 0 {
        assert(all_digits(s.drop_last())) by {
            assert(forall|i: int|
                0 <= i < s.len() - 1 ==> #[trigger] s.drop_last()[i] == s[i]);
        }
        lemma_digits_val_nonneg(s.drop_last());
        assert(digits_val(s.drop_last()) * 10 >= 0) by (nonlinear_arith)
            requires
                digits_val(s.drop_last()) >= 0,
        ;
    }
}

/// Reading more digits never shrinks the value: the whole string's value is
/// at least any prefix's value.
proof fn lemma_digits_val_prefix(s: Seq<char>, m: int)
    requires
        all_digits(s),
        0 <= m <= s.len(),
    ensures
        digits_val(s) >= digits_val(s.take(m)),
    decreases s.len() - m,
{
    if m == s.len() {
        assert(s.take(m) =~= s);
    } else {
        lemma_digits_val_prefix(s, m + 1);
        let p = s.take(m + 1);
        assert(p.drop_last() =~= s.take(m));
        assert(all_digits(p)) by {
            assert(forall|i: int| 0 <= i < p.len() ==> #[trigger] p[i] == s[i]);
        }
        lemma_digits_val_nonneg(p.drop_last());
        assert(digits_val(p.drop_last()) * 10 >= digits_val(p.drop_last())) by (nonlinear_arith)
            requires
                digits_val(p.drop_last()) >= 0,
        ;
    }
}

/// Parses a record id as the stores write them: an optional sign, then
/// decimal digits. Yields `None` exactly when the text is not such a
/// number or its value does not fit an `i32`.
pub fn parse_i32(s: &str) -> (r: Option<i32>)
    ensures
        match r {
            Some(v) => spec_parse_i32(s@) == Some(v as int),
            None => spec_parse_i32(s@) is None,
        },
{
    let n = s.unicode_len();
    if n == 0 {
        return None;
    }
    let first = s.get_char(0);
    let neg: bool = first == '-';
    let signed: bool = first == '-' || first == '+';
    let mut i: usize = if signed {
        1
    } else {
        0
    };
    let ghost digits = if signed {
        s@.drop_first()
    } else {
        s@
    };
    let ghost start = i as int;
    if i == n {
        return None;
    }
    let mut acc: u64 = 0;
    while i < n
        invariant
            start <= i <= n,
            n == s@.len(),
            digits == s@.subrange(start, n as int),
            digits.len() == n - start,
            forall|k: int| 0 <= k < i - start ==> is_digit(#[trigger] digits[k]),
            acc <= 0x8000_0000,
            acc as int == digits_val(digits.take(i - start)),
        decreases n - i,
    {
        let c = s.get_char(i);
        let u: u32 = c as u32;
        if u < 48 || u > 57 {
            proof {
                assert(digits[i - start] == s@[i as int]);
                assert(!is_digit(digits[i - start]));
            }
            return None;
        }
        let d: u64 = (u - 48) as u64;
        acc = acc * 10 + d;
        proof {
            let m = i - start;
            assert(digits.take(m + 1).drop_last() =~= digits.take(m));
            assert(digits.take(m + 1).last() == digits[m]);
            assert(digits[m] == s@[i as int]);
        }
        if acc > 0x8000_0000 {
            proof {
                let m = i + 1 - start;
                if all_digits(digits) {
                    lemma_digits_val_prefix(digits, m);
                }
            }
            return None;
        }
        i = i + 1;
    }
    proof {
        assert(digits.take(n - start) =~= digits);
        assert(all_digits(digits));
    }
    if neg {
        let v64: i64 = -(acc as i64);
        Some(v64 as i32)
    } else {
        if acc > 0x7fff_ffff {
            return None;
        }
        Some(acc as i32)
    }
}

} // verus!
