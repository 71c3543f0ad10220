//! Boundary to the static lookup tables.
//!
//! The forward/backward index maps for JIS X 0208, JIS X 0212 and the
//! single-byte code pages are deterministic, total, side-effect-free tables
//! maintained outside this library. Each is given an uninterpreted name
//! here, and the table function is assumed to return exactly that name's
//! value; everything the codecs guarantee is stated over these names.

use vstd::prelude::*;

verus! {

/// What `jis0208::forward` returns for a matrix coordinate: the mapped code
/// point, or 0xFFFF where the cell is unmapped.
pub uninterp spec fn jis0208_forward(code: u16) -> u32;

/// What `jis0208::backward` returns for a code point: the matrix pointer,
/// or 0xFFFF where the code point has no JIS X 0208 mapping.
pub uninterp spec fn jis0208_backward(code: u32) -> u16;

/// What `jis0212::forward` returns for a matrix coordinate: the mapped code
/// point, or 0xFFFF where the cell is unmapped.
pub uninterp spec fn jis0212_forward(code: u16) -> u32;

/// What `iso_8859_2::forward` returns for a high byte: the mapped code
/// point, or 0xFFFF where the byte is unmapped.
pub uninterp spec fn iso_8859_2_forward(code: u8) -> u16;

/// What `iso_8859_2::backward` returns for a code point: the encoded byte,
/// or 0 where the code point has no ISO-8859-2 mapping.
pub uninterp spec fn iso_8859_2_backward(code: u32) -> u8;

/// Relies on encoding_index_japanese::jis0208::forward: a fixed table from
/// JIS X 0208 matrix pointers to code points; it reads its argument alone.
pub assume_specification[ encoding_index_japanese::jis0208::forward ](code: u16) -> (r: u32)
    ensures
        r == jis0208_forward(code),
;

/// Relies on encoding_index_japanese::jis0208::backward: a fixed table from
/// code points to JIS X 0208 matrix pointers; it reads its argument alone.
pub assume_specification[ encoding_index_japanese::jis0208::backward ](code: u32) -> (r: u16)
    ensures
        r == jis0208_backward(code),
;

/// Relies on encoding_index_japanese::jis0212::forward: a fixed table from
/// JIS X 0212 matrix pointers to code points; it reads its argument alone.
pub assume_specification[ encoding_index_japanese::jis0212::forward ](code: u16) -> (r: u32)
    ensures
        r == jis0212_forward(code),
;

/// Relies on encoding_index_singlebyte::iso_8859_2::forward: a fixed table
/// from high bytes to code points; it reads its argument alone. It indexes
/// its table at `code - 0x80` and so must not see a byte below 0x80.
pub assume_specification[ encoding_index_singlebyte::iso_8859_2::forward ](code: u8) -> (r: u16)
    requires
        code >= 0x80,
    ensures
        r == iso_8859_2_forward(code),
;

/// Relies on encoding_index_singlebyte::iso_8859_2::backward: a fixed table
/// from code points to encoded bytes; it reads its argument alone.
pub assume_specification[ encoding_index_singlebyte::iso_8859_2::backward ](code: u32) -> (r: u8)
    ensures
        r == iso_8859_2_backward(code),
;

/// Relies on char::from_u32 of std: `Some` exactly for Unicode scalar
/// values, and the returned character carries the given value.
pub assume_specification[ char::from_u32 ](i: u32) -> (r: Option<char>)
    ensures
        r is Some <==> vstd::utf8::is_scalar(i),
        r matches Some(c) ==> c as u32 == i,
;

/// Turns a code point into the character it denotes, or `None` where the
/// value is no Unicode scalar (a surrogate, or above the Unicode range).
pub fn scalar_to_char(v: u32) -> (r: Option<char>)
    ensures
        r is Some <==> vstd::utf8::is_scalar(v),
        vstd::utf8::is_scalar(v) ==> r == Some(v as char),
{
    let r = char::from_u32(v);
    proof {
        if r is Some {
            vstd::utf8::char_u32_cast(r->Some_0, v);
        }
    }
    r
}

/// Turns an ASCII byte into its character.
pub fn ascii_char(b: u8) -> (c: char)
    requires
        b <= 0x7F,
    ensures
        c == (b as u32) as char,
{
    match scalar_to_char(b as u32) {
        Some(c) => c,
        None => vstd::pervasive::unreached(),
    }
}

} // verus!
