//! External identifiers of vectors.
//!
//! A caller names each pushed vector by document, field and paragraph plus a
//! character range inside the paragraph. The two document-level ids carry the
//! 128-bit value of a UUID.

use vstd::prelude::*;

use crate::codec::encode_i32;
use crate::codec::encode_u128;
use crate::codec::encode_u64;
use crate::codec::i32_be_bytes;
use crate::codec::i32_from_be_bytes;
use crate::codec::read_i32_at;
use crate::codec::read_u128_at;
use crate::codec::read_u64_at;
use crate::codec::u128_be_bytes;
use crate::codec::u128_from_be_bytes;
use crate::codec::u64_be_bytes;
use crate::codec::u64_from_be_bytes;
use crate::errors::VectorError;
use vstd::string::StrSliceExecFns;
use vstd::string::StringSliceAdditionalSpecFns;
use vstd::utf8::encode_utf8;

verus! {

/// The caller-chosen name of one pushed vector.
#[derive(Debug, Clone)]
pub struct VectorIdentifier {
    /// The 128-bit value of the owning document's UUID.
    pub doc_id: u128,
    /// The field of the document the vector was taken from.
    pub field: String,
    /// The 128-bit value of the paragraph's UUID.
    pub paragraph_id: u128,
    /// First character of the covered range.
    pub start: i32,
    /// One past the last character of the covered range.
    pub end: i32,
}

impl View for VectorIdentifier {
    type V = (u128, Seq<char>, u128, int, int);

    open spec fn view(&self) -> Self::V {
        (self.doc_id, self.field@, self.paragraph_id, self.start as int, self.end as int)
    }
}

impl PartialEq for VectorIdentifier {
    fn eq(&self, other: &Self) -> bool {
        self.doc_id == other.doc_id && self.field == other.field && self.paragraph_id
            == other.paragraph_id && self.start == other.start && self.end == other.end
    }
}

impl vstd::std_specs::cmp::PartialEqSpecImpl for VectorIdentifier {
    open spec fn obeys_eq_spec() -> bool {
        true
    }

    open spec fn eq_spec(&self, other: &Self) -> bool {
        self@ == other@
    }
}

impl VectorIdentifier {
    /// An explicit copy whose fields provably equal the original's.
    pub fn duplicate(&self) -> (r: Self)
        ensures
            r == *self,
    {
        VectorIdentifier {
            doc_id: self.doc_id,
            field: self.field.clone(),
            paragraph_id: self.paragraph_id,
            start: self.start,
            end: self.end,
        }
    }
}


/// Whether `b` is an ASCII hexadecimal digit, either case.
pub open spec fn is_hex_digit(b: u8) -> bool {
    (48 <= b <= 57) || (97 <= b <= 102) || (65 <= b <= 70)
}

/// The value of a hexadecimal digit.
pub open spec fn hex_val(b: u8) -> u128
    recommends
        is_hex_digit(b),
{
    if 48 <= b <= 57 {
        (b - 48) as u128
    } else if 97 <= b <= 102 {
        (b - 87) as u128
    } else {
        (b - 55) as u128
    }
}

/// The positions of the hyphens inside a UUID's text.
pub open spec fn dash_at(i: int) -> bool {
    i == 8 || i == 13 || i == 18 || i == 23
}

/// Whether the 36 bytes at `off` spell a hyphenated UUID.
pub open spec fn uuid_wf_at(b: Seq<u8>, off: int) -> bool {
    &&& 0 <= off
    &&& off + 36 <= b.len()
    &&& forall|i: int|
        #![trigger b[off + i]]
        0 <= i < 36 ==> if dash_at(i) {
            b[off + i] == 45
        } else {
            is_hex_digit(b[off + i])
        }
}

/// The hexadecimal digits `b[from .. to)` folded onto `acc`, high nibbles
/// first.
pub open spec fn hex_run_value(b: Seq<u8>, from: int, to: int, acc: u128) -> u128
    decreases to - from,
{
    if from >= to {
        acc
    } else {
        hex_run_value(b, from + 1, to, (acc << 4) | hex_val(b[from]))
    }
}

/// The 128-bit value a well-formed UUID at `off` spells.
pub open spec fn uuid_value_at(b: Seq<u8>, off: int) -> u128 {
    hex_run_value(
        b,
        off + 24,
        off + 36,
        hex_run_value(
            b,
            off + 19,
            off + 23,
            hex_run_value(
                b,
                off + 14,
                off + 18,
                hex_run_value(b, off + 9, off + 13, hex_run_value(b, off, off + 8, 0)),
            ),
        ),
    )
}

/// Whether `b` is an ASCII decimal digit.
pub open spec fn is_dec_digit(b: u8) -> bool {
    48 <= b <= 57
}

/// The decimal digits `b[from .. to)` folded onto `acc`.
pub open spec fn dec_run_value(b: Seq<u8>, from: int, to: int, acc: int) -> int
    decreases to - from,
{
    if from >= to {
        acc
    } else {
        dec_run_value(b, from + 1, to, acc * 10 + (b[from] - 48))
    }
}

/// The value of the final, possibly negated, decimal run.
pub open spec fn dec_signed_value(b: Seq<u8>, from: int, to: int) -> int {
    if from < to && b[from] == 45 {
        -dec_run_value(b, from + 1, to, 0)
    } else {
        dec_run_value(b, from, to, 0)
    }
}

/// The final run is a decimal number an `i32` can carry: an optional minus
/// sign, then at least one digit.
pub open spec fn dec_ok_signed(b: Seq<u8>, from: int, to: int) -> bool {
    if from < to && b[from] == 45 {
        &&& from + 1 < to
        &&& (forall|j: int| from + 1 <= j < to ==> is_dec_digit(#[trigger] b[j]))
        &&& dec_run_value(b, from + 1, to, 0) <= 0x7FFF_FFFF
    } else {
        &&& from < to
        &&& (forall|j: int| from <= j < to ==> is_dec_digit(#[trigger] b[j]))
        &&& dec_run_value(b, from, to, 0) <= 0x7FFF_FFFF
    }
}

/// The canonical text layout of an identifier, located by `k`, the position
/// of the slash ending the field, and `d`, the hyphen splitting the range:
/// `UUID/field/UUID/start-end`. `k` is the first slash after the leading
/// UUID's, `d` the first hyphen of the last segment, so a well-formed text
/// admits exactly one pair.
pub open spec fn ident_layout(b: Seq<u8>, k: int, d: int) -> bool {
    &&& uuid_wf_at(b, 0)
    &&& b.len() > 36
    &&& b[36] == 47
    &&& 37 <= k < b.len()
    &&& b[k] == 47
    &&& (forall|j: int| 37 <= j < k ==> (#[trigger] b[j]) != 47)
    &&& (exists|cs: Seq<char>| encode_utf8(cs) == b.subrange(37, k))
    &&& uuid_wf_at(b, k + 1)
    &&& k + 37 < b.len()
    &&& b[k + 37] == 47
    &&& k + 38 < d < b.len()
    &&& b[d] == 45
    &&& (forall|j: int| k + 38 <= j < d ==> (#[trigger] b[j]) != 45)
    &&& (forall|j: int| k + 38 <= j < d ==> is_dec_digit(#[trigger] b[j]))
    &&& dec_run_value(b, k + 38, d, 0) <= 0x7FFF_FFFF
    &&& dec_ok_signed(b, d + 1, b.len() as int)
}

/// Whether `b` spells an identifier in the canonical text form.
pub open spec fn ident_text_wf(b: Seq<u8>) -> bool {
    exists|k: int, d: int| #[trigger] ident_layout(b, k, d)
}

/// Whether `b` is an ASCII hexadecimal digit.
fn is_hex(b: u8) -> (r: bool)
    ensures
        r == is_hex_digit(b),
{
    (48 <= b && b <= 57) || (97 <= b && b <= 102) || (65 <= b && b <= 70)
}

/// Folds the hexadecimal run `b[from .. to)` onto `acc`.
fn parse_hex_run(b: &Vec<u8>, from: usize, to: usize, acc: u128) -> (r: u128)
    requires
        from <= to <= b@.len(),
        forall|j: int| from <= j < to ==> is_hex_digit(#[trigger] b@[j]),
    ensures
        r == hex_run_value(b@, from as int, to as int, acc),
{
    let mut i: usize = from;
    let mut a: u128 = acc;
    while i < to
        invariant
            from <= i <= to <= b@.len(),
            forall|j: int| from <= j < to ==> is_hex_digit(#[trigger] b@[j]),
            hex_run_value(b@, from as int, to as int, acc) == hex_run_value(
                b@,
                i as int,
                to as int,
                a,
            ),
        decreases to - i,
    {
        let c = b[i];
        let v: u128 = if 48 <= c && c <= 57 {
            (c - 48) as u128
        } else if 97 <= c && c <= 102 {
            (c - 87) as u128
        } else {
            (c - 55) as u128
        };
        a = (a << 4) | v;
        i = i + 1;
    }
    a
}

/// Reads the hyphenated UUID at `off`; fails when the 36 bytes there do not
/// spell one.
fn parse_uuid_at(b: &Vec<u8>, off: usize) -> (r: Option<u128>)
    ensures
        uuid_wf_at(b@, off as int) ==> r == Some(uuid_value_at(b@, off as int)),
        !uuid_wf_at(b@, off as int) ==> r is None,
{
    if b.len() < 36 || off > b.len() - 36 {
        return None;
    }
    let n = b.len();
    let mut i: usize = 0;
    while i < 36
        invariant
            0 <= i <= 36,
            n == b@.len(),
            off + 36 <= n,
            forall|j: int|
                #![trigger b@[off + j]]
                0 <= j < i ==> if dash_at(j) {
                    b@[off + j] == 45
                } else {
                    is_hex_digit(b@[off + j])
                },
        decreases 36 - i,
    {
        proof {
            assert(off + i < b@.len());
        }
        let c = b[off + i];
        if i == 8 || i == 13 || i == 18 || i == 23 {
            if c != 45 {
                return None;
            }
        } else {
            if !is_hex(c) {
                return None;
            }
        }
        i = i + 1;
    }
    proof {
        assert forall|j: int| off <= j < off + 36 && !dash_at(j - off) implies is_hex_digit(
            b@[j],
        ) by {
            let jj = j - off;
            assert(b@[off + jj] == b@[j]);
        }
    }
    let a1 = parse_hex_run(b, off, off + 8, 0);
    let a2 = parse_hex_run(b, off + 9, off + 13, a1);
    let a3 = parse_hex_run(b, off + 14, off + 18, a2);
    let a4 = parse_hex_run(b, off + 19, off + 23, a3);
    let a5 = parse_hex_run(b, off + 24, off + 36, a4);
    Some(a5)
}

proof fn lemma_dec_monotone(b: Seq<u8>, from: int, to: int, acc: int)
    requires
        from <= to <= b.len(),
        forall|j: int| from <= j < to ==> is_dec_digit(#[trigger] b[j]),
        acc >= 0,
    ensures
        dec_run_value(b, from, to, acc) >= acc,
    decreases to - from,
{
    if from < to {
        lemma_dec_monotone(b, from + 1, to, acc * 10 + (b[from] - 48));
    }
}

/// Reads the decimal run `b[from .. to)`; fails when it is empty, holds a
/// non-digit, or exceeds what an `i32` carries.
fn parse_dec_run(b: &Vec<u8>, from: usize, to: usize) -> (r: Option<i32>)
    requires
        from <= to <= b@.len(),
    ensures
        r matches Some(v) ==> from < to && (forall|j: int|
            from <= j < to ==> is_dec_digit(#[trigger] b@[j])) && v >= 0 && v as int
            == dec_run_value(b@, from as int, to as int, 0),
        r is None ==> !(from < to && (forall|j: int|
            from <= j < to ==> is_dec_digit(#[trigger] b@[j])) && dec_run_value(
            b@,
            from as int,
            to as int,
            0,
        ) <= 0x7FFF_FFFF),
{
    if from >= to {
        return None;
    }
    let mut i: usize = from;
    let mut a: u64 = 0;
    while i < to
        invariant
            from <= i <= to <= b@.len(),
            0 <= a <= 0x7FFF_FFFF,
            forall|j: int| from <= j < i ==> is_dec_digit(#[trigger] b@[j]),
            dec_run_value(b@, from as int, to as int, 0) == dec_run_value(
                b@,
                i as int,
                to as int,
                a as int,
            ),
        decreases to - i,
    {
        let c = b[i];
        if !(48 <= c && c <= 57) {
            return None;
        }
        a = a * 10 + ((c - 48) as u64);
        i = i + 1;
        if a > 0x7FFF_FFFF {
            proof {
                if forall|j: int| from <= j < to ==> is_dec_digit(#[trigger] b@[j]) {
                    lemma_dec_monotone(b@, i as int, to as int, a as int);
                }
            }
            return None;
        }
    }
    Some(a as i32)
}

/// The first position at or after `from` holding `target`, or the length
/// when there is none.
fn find_byte(b: &Vec<u8>, from: usize, target: u8) -> (r: usize)
    requires
        from <= b@.len(),
    ensures
        from <= r <= b@.len(),
        forall|j: int| from <= j < r ==> (#[trigger] b@[j]) != target,
        r < b@.len() ==> b@[r as int] == target,
{
    let n = b.len();
    let mut i: usize = from;
    while i < n
        invariant
            from <= i <= n,
            n == b@.len(),
            forall|j: int| from <= j < i ==> (#[trigger] b@[j]) != target,
        decreases n - i,
    {
        if b[i] == target {
            return i;
        }
        i = i + 1;
    }
    n
}

/// Relies on std's `String::from_utf8`: the bytes back as text when they
/// are valid UTF-8, and an error exactly otherwise.
#[verifier::external_body]
fn string_from_bytes(b: Vec<u8>) -> (r: Result<String, VectorError>)
    ensures
        r matches Ok(st) ==> encode_utf8(st@) == b@,
        r is Err ==> !(exists|cs: Seq<char>| encode_utf8(cs) == b@),
{
    match String::from_utf8(b) {
        Ok(st) => Ok(st),
        Err(_) => Err(VectorError::IoError),
    }
}

impl VectorIdentifier {
    /// Reads an identifier from its canonical text,
    /// `UUID/field/UUID/start-end`; returns `NotFound` on any text that does
    /// not spell one.
    pub fn from_text(s: &str) -> (r: Result<VectorIdentifier, VectorError>)
        ensures
            r matches Ok(id) ==> ident_text_wf(s.spec_bytes()) && (exists|k: int, d: int|
                #![trigger ident_layout(s.spec_bytes(), k, d)]
                {
                    &&& ident_layout(s.spec_bytes(), k, d)
                    &&& id.doc_id == uuid_value_at(s.spec_bytes(), 0)
                    &&& encode_utf8(id.field@) == s.spec_bytes().subrange(37, k)
                    &&& id.paragraph_id == uuid_value_at(s.spec_bytes(), k + 1)
                    &&& id.start as int == dec_run_value(s.spec_bytes(), k + 38, d, 0)
                    &&& id.end as int == dec_signed_value(
                        s.spec_bytes(),
                        d + 1,
                        s.spec_bytes().len() as int,
                    )
                }),
            r is Err ==> !ident_text_wf(s.spec_bytes()),
    {
        let bytes = s.as_bytes_vec();
        let ghost bv = s.spec_bytes();
        let n = bytes.len();
        let doc_id = match parse_uuid_at(&bytes, 0) {
            Some(x) => x,
            None => {
                proof {
                    lemma_no_layout_without(bv);
                }
                return Err(VectorError::NotFound);
            },
        };
        if n <= 36 || bytes[36] != 47 {
            proof {
                lemma_no_layout_without(bv);
            }
            return Err(VectorError::NotFound);
        }
        let k = find_byte(&bytes, 37, 47);
        if k >= n {
            proof {
                lemma_no_layout_without(bv);
            }
            return Err(VectorError::NotFound);
        }
        let mut field_b: Vec<u8> = Vec::new();
        let mut i: usize = 37;
        while i < k
            invariant
                37 <= i <= k < n,
                n == bytes@.len(),
                field_b@ == bytes@.subrange(37, i as int),
            decreases k - i,
        {
            field_b.push(bytes[i]);
            proof {
                assert(field_b@ =~= bytes@.subrange(37, i + 1 as int));
            }
            i = i + 1;
        }
        let field = match string_from_bytes(field_b) {
            Ok(st) => st,
            Err(_) => {
                proof {
                    lemma_unique_k(bv, k as int);
                    lemma_no_layout_without(bv);
                }
                return Err(VectorError::NotFound);
            },
        };
        if n - k <= 37 {
            proof {
                lemma_unique_k(bv, k as int);
                lemma_no_layout_without(bv);
            }
            return Err(VectorError::NotFound);
        }
        let paragraph_id = match parse_uuid_at(&bytes, k + 1) {
            Some(x) => x,
            None => {
                proof {
                    lemma_unique_k(bv, k as int);
                    lemma_no_layout_without(bv);
                }
                return Err(VectorError::NotFound);
            },
        };
        if bytes[k + 37] != 47 {
            proof {
                lemma_unique_k(bv, k as int);
                lemma_no_layout_without(bv);
            }
            return Err(VectorError::NotFound);
        }
        if n - k <= 38 {
            proof {
                lemma_unique_k(bv, k as int);
                lemma_no_layout_without(bv);
            }
            return Err(VectorError::NotFound);
        }
        let d = find_byte(&bytes, k + 38, 45);
        if d >= n || d == k + 38 {
            proof {
                lemma_unique_k(bv, k as int);
                lemma_unique_d(bv, k as int, d as int);
                lemma_no_layout_without(bv);
            }
            return Err(VectorError::NotFound);
        }
        let start = match parse_dec_run(&bytes, k + 38, d) {
            Some(v) => v,
            None => {
                proof {
                    lemma_unique_k(bv, k as int);
                    lemma_unique_d(bv, k as int, d as int);
                    lemma_no_layout_without(bv);
                }
                return Err(VectorError::NotFound);
            },
        };
        let end: i32 = if d + 1 < n && bytes[d + 1] == 45 {
            match parse_dec_run(&bytes, d + 2, n) {
                Some(v) => {
                    if v == 0 {
                        0
                    } else {
                        -v
                    }
                },
                None => {
                    proof {
                        lemma_unique_k(bv, k as int);
                        lemma_unique_d(bv, k as int, d as int);
                        lemma_no_layout_without(bv);
                    }
                    return Err(VectorError::NotFound);
                },
            }
        } else {
            match parse_dec_run(&bytes, d + 1, n) {
                Some(v) => v,
                None => {
                    proof {
                        lemma_unique_k(bv, k as int);
                        lemma_unique_d(bv, k as int, d as int);
                        lemma_no_layout_without(bv);
                    }
                    return Err(VectorError::NotFound);
                },
            }
        };
        let id = VectorIdentifier { doc_id, field, paragraph_id, start, end };
        proof {
            assert(ident_layout(bv, k as int, d as int));
        }
        Ok(id)
    }
}

/// A helper for the failure paths: when the facts gathered so far refute
/// every possible layout, no pair of positions fits.
proof fn lemma_no_layout_without(b: Seq<u8>)
    requires
        forall|k: int, d: int| !#[trigger] ident_layout(b, k, d),
    ensures
        !ident_text_wf(b),
{
}

/// Any layout's field-ending slash is the first slash after the leading
/// UUID's: the scan's answer.
proof fn lemma_unique_k(b: Seq<u8>, k: int)
    requires
        37 <= k < b.len(),
        b[k] == 47,
        forall|j: int| 37 <= j < k ==> (#[trigger] b[j]) != 47,
    ensures
        forall|k2: int, d2: int| #[trigger] ident_layout(b, k2, d2) ==> k2 == k,
{
    assert forall|k2: int, d2: int| #[trigger] ident_layout(b, k2, d2) implies k2 == k by {
        if k2 < k {
            assert(b[k2] != 47);
        }
        if k2 > k {
            assert(b[k] != 47);
        }
    }
}

/// Any layout whose field slash is `k` splits the range at the first hyphen
/// after it: the scan's answer.
proof fn lemma_unique_d(b: Seq<u8>, k: int, d: int)
    requires
        k + 38 <= d,
        forall|j: int| k + 38 <= j < d ==> (#[trigger] b[j]) != 45,
        d < b.len() ==> b[d] == 45,
    ensures
        forall|k2: int, d2: int| #[trigger] ident_layout(b, k2, d2) && k2 == k ==> d2 == d || d
            >= b.len(),
{
    assert forall|k2: int, d2: int|
        #[trigger] ident_layout(b, k2, d2) && k2 == k implies d2 == d || d >= b.len() by {
        if d < b.len() {
            if d2 < d {
                assert(b[d2] != 45);
            }
            if d2 > d {
                assert(b[d] != 45);
            }
        } else {
            assert(b[d2] != 45);
        }
    }
}


/// The nibble of `x` at position `k`, counted from the least significant.
pub open spec fn nib(x: u128, k: int) -> u128 {
    (x >> ((4 * k) as u128)) & 0xf
}

/// The lowercase hexadecimal digit of a nibble.
pub open spec fn hex_char(v: u128) -> u8
    recommends
        v < 16,
{
    if v < 10 {
        (48 + v) as u8
    } else {
        (87 + v) as u8
    }
}

/// How many hyphens precede position `i` of a UUID's text.
pub open spec fn digit_idx(i: int) -> int {
    if i < 8 {
        i
    } else if i < 13 {
        i - 1
    } else if i < 18 {
        i - 2
    } else if i < 23 {
        i - 3
    } else {
        i - 4
    }
}

/// The canonical lowercase hyphenated text of a 128-bit UUID value.
pub open spec fn uuid_text(x: u128) -> Seq<u8> {
    Seq::new(
        36,
        |i: int|
            if dash_at(i) {
                45u8
            } else {
                hex_char(nib(x, 31 - digit_idx(i)))
            },
    )
}

/// The decimal text of a non-negative number.
pub open spec fn dec_text(v: int) -> Seq<u8>
    recommends
        v >= 0,
    decreases v,
{
    if v < 10 {
        seq![(48 + v) as u8]
    } else {
        dec_text(v / 10).push((48 + (v % 10)) as u8)
    }
}

/// The decimal text of a number, with a leading hyphen when negative.
pub open spec fn dec_text_signed(v: int) -> Seq<u8> {
    if v < 0 {
        seq![45u8] + dec_text(-v)
    } else {
        dec_text(v)
    }
}

/// The canonical text of an identifier: `UUID/field/UUID/start-end`.
pub open spec fn ident_text(
    doc: u128,
    field: Seq<char>,
    par: u128,
    start: int,
    end: int,
) -> Seq<u8> {
    uuid_text(doc) + seq![47u8] + encode_utf8(field) + seq![47u8] + uuid_text(par) + seq![47u8]
        + dec_text_signed(start) + seq![45u8] + dec_text_signed(end)
}

/// Appends the hyphenated text of `x`.
fn push_uuid(out: &mut Vec<u8>, x: u128)
    ensures
        final(out)@ == old(out)@ + uuid_text(x),
{
    let mut i: usize = 0;
    while i < 36
        invariant
            0 <= i <= 36,
            out@ == old(out)@ + uuid_text(x).subrange(0, i as int),
        decreases 36 - i,
    {
        if i == 8 || i == 13 || i == 18 || i == 23 {
            out.push(45);
        } else {
            let di: usize = if i < 8 {
                i
            } else if i < 13 {
                i - 1
            } else if i < 18 {
                i - 2
            } else if i < 23 {
                i - 3
            } else {
                i - 4
            };
            let kk: u128 = (31 - di) as u128;
            proof {
                assert(((x >> (4 * kk)) & 0xf) <= 0xf) by (bit_vector);
            }
            let v: u128 = (x >> (4 * kk)) & 0xf;
            let c: u8 = if v < 10 {
                (48 + v) as u8
            } else {
                (87 + v) as u8
            };
            proof {
                assert(v == nib(x, 31 - digit_idx(i as int)));
                assert(c == hex_char(nib(x, 31 - digit_idx(i as int))));
            }
            out.push(c);
        }
        proof {
            assert(uuid_text(x)[i as int] == if dash_at(i as int) {
                45u8
            } else {
                hex_char(nib(x, 31 - digit_idx(i as int)))
            });
            assert(out@ =~= old(out)@ + uuid_text(x).subrange(0, i + 1 as int));
        }
        i = i + 1;
    }
    proof {
        assert(uuid_text(x).subrange(0, 36) =~= uuid_text(x));
    }
}

/// Appends the decimal text of `v`.
fn push_dec(out: &mut Vec<u8>, v: u64)
    ensures
        final(out)@ == old(out)@ + dec_text(v as int),
    decreases v,
{
    if v < 10 {
        out.push((48 + v) as u8);
        proof {
            assert(out@ =~= old(out)@ + dec_text(v as int));
        }
    } else {
        push_dec(out, v / 10);
        out.push((48 + (v % 10)) as u8);
        proof {
            assert(out@ =~= old(out)@ + dec_text(v as int));
        }
    }
}

/// Appends the decimal text of `v`, hyphen first when negative.
fn push_dec_signed(out: &mut Vec<u8>, v: i32)
    ensures
        final(out)@ == old(out)@ + dec_text_signed(v as int),
{
    let wide: i64 = v as i64;
    if wide < 0 {
        out.push(45);
        let ghost mid = out@;
        push_dec(out, (-wide) as u64);
        proof {
            assert(out@ =~= old(out)@ + dec_text_signed(v as int));
        }
    } else {
        push_dec(out, wide as u64);
    }
}

impl VectorIdentifier {
    /// The canonical text of this identifier, as bytes:
    /// `UUID/field/UUID/start-end`, UUIDs lowercase.
    pub fn to_text_bytes(&self) -> (r: Vec<u8>)
        ensures
            r@ == ident_text(
                self.doc_id,
                self.field@,
                self.paragraph_id,
                self.start as int,
                self.end as int,
            ),
    {
        let mut out: Vec<u8> = Vec::new();
        push_uuid(&mut out, self.doc_id);
        out.push(47);
        let mut fb = self.field.as_str().as_bytes_vec();
        out.append(&mut fb);
        out.push(47);
        push_uuid(&mut out, self.paragraph_id);
        out.push(47);
        push_dec_signed(&mut out, self.start);
        out.push(45);
        push_dec_signed(&mut out, self.end);
        proof {
            assert(out@ =~= ident_text(
                self.doc_id,
                self.field@,
                self.paragraph_id,
                self.start as int,
                self.end as int,
            ));
        }
        out
    }

    /// The canonical text as a string; the bytes of the result spell
    /// exactly the canonical text.
    pub fn to_text(&self) -> (r: Result<String, VectorError>)
        ensures
            r matches Ok(st) ==> encode_utf8(st@) == ident_text(
                self.doc_id,
                self.field@,
                self.paragraph_id,
                self.start as int,
                self.end as int,
            ),
    {
        string_from_bytes(self.to_text_bytes())
    }
}


/// The canonical key bytes of an identifier with field bytes `fb`: the two
/// 128-bit ids, the field framed by its length, and the signed range.
pub open spec fn ident_key_parts(doc: u128, fb: Seq<u8>, par: u128, start: i32, end: i32) -> Seq<
    u8,
> {
    u128_be_bytes(doc) + u64_be_bytes(fb.len() as u64) + fb + u128_be_bytes(par) + i32_be_bytes(
        start,
    ) + i32_be_bytes(end)
}

/// Whether `b` has the shape of an identifier key: the framing length
/// accounts for every byte around the fixed-width parts.
pub open spec fn ident_key_wf(b: Seq<u8>) -> bool {
    b.len() >= 48 && u64_from_be_bytes(b.subrange(16, 24)) as int == b.len() - 48
}

/// A well-formed key decomposes into its parts, and each numeric part reads
/// back the value it was written from: the key serialization loses nothing.
pub proof fn lemma_ident_key_roundtrip(doc: u128, fb: Seq<u8>, par: u128, start: i32, end: i32)
    requires
        fb.len() + 48 <= 0xFFFF_FFFF_FFFF_FFFF,
    ensures
        ident_key_wf(ident_key_parts(doc, fb, par, start, end)),
        u128_from_be_bytes(ident_key_parts(doc, fb, par, start, end).subrange(0, 16)) == doc,
        ident_key_parts(doc, fb, par, start, end).subrange(24, 24 + fb.len() as int) == fb,
        u128_from_be_bytes(
            ident_key_parts(doc, fb, par, start, end).subrange(
                24 + fb.len() as int,
                40 + fb.len() as int,
            ),
        ) == par,
        i32_from_be_bytes(
            ident_key_parts(doc, fb, par, start, end).subrange(
                40 + fb.len() as int,
                44 + fb.len() as int,
            ),
        ) == start,
        i32_from_be_bytes(
            ident_key_parts(doc, fb, par, start, end).subrange(
                44 + fb.len() as int,
                48 + fb.len() as int,
            ),
        ) == end,
{
    let b = ident_key_parts(doc, fb, par, start, end);
    let n = fb.len() as int;
    assert(b.len() == 48 + n);
    assert(b.subrange(0, 16) =~= u128_be_bytes(doc));
    assert(b.subrange(16, 24) =~= u64_be_bytes(fb.len() as u64));
    assert(b.subrange(24, 24 + n) =~= fb);
    assert(b.subrange(24 + n, 40 + n) =~= u128_be_bytes(par));
    assert(b.subrange(40 + n, 44 + n) =~= i32_be_bytes(start));
    assert(b.subrange(44 + n, 48 + n) =~= i32_be_bytes(end));
    crate::codec::lemma_u128_codec_roundtrip(doc);
    crate::codec::lemma_u128_codec_roundtrip(par);
    crate::codec::lemma_u64_codec_roundtrip(fb.len() as u64);
    crate::codec::lemma_i32_codec_roundtrip(start);
    crate::codec::lemma_i32_codec_roundtrip(end);
}

/// A nibble is a hexadecimal digit's worth.
proof fn lemma_nib_bound(x: u128, sh: u128)
    ensures
        ((x >> sh) & 0xf) < 16,
{
    assert(((x >> sh) & 0xf) < 16) by (bit_vector);
}

/// Reading a digit back gives the nibble it was written from.
proof fn lemma_hex_char_val(v: u128)
    requires
        v < 16,
    ensures
        is_hex_digit(hex_char(v)),
        !dash_byte(hex_char(v)),
        hex_val(hex_char(v)) == v,
{
}

/// The byte of a hyphen.
spec fn dash_byte(b: u8) -> bool {
    b == 45
}

/// The top `4 * dj` bits of `x`: what a left-to-right read has accumulated
/// after `dj` digits.
spec fn top_bits(x: u128, dj: int) -> u128 {
    if dj <= 0 {
        0
    } else if dj >= 32 {
        x
    } else {
        x >> ((4 * (32 - dj)) as u128)
    }
}

proof fn lemma_top_bits_step(x: u128, dj: int)
    requires
        0 <= dj < 32,
    ensures
        (top_bits(x, dj) << 4) | nib(x, 31 - dj) == top_bits(x, dj + 1),
{
    let k: u128 = (31 - dj) as u128;
    if dj == 0 {
        assert((0u128 << 4) | ((x >> (4 * 31u128)) & 0xf) == x >> (4 * 31u128)) by (bit_vector);
        assert(k == 31);
    } else if dj == 31 {
        assert(((x >> 4u128) << 4) | ((x >> 0u128) & 0xf) == x) by (bit_vector);
        assert(k == 0);
        assert(4 * (32 - dj) == 4);
        assert(nib(x, 0) == (x >> 0u128) & 0xf);
    } else {
        assert(1 <= k <= 30);
        assert(((x >> (4 * k + 4)) << 4) | ((x >> (4 * k)) & 0xf) == x >> (4 * k)) by (bit_vector)
            requires
                1 <= k <= 30,
        ;
        assert((4 * (32 - dj)) as u128 == 4 * k + 4);
        assert((4 * (32 - (dj + 1))) as u128 == 4 * k);
        assert((4 * (31 - dj)) as u128 == 4 * k);
    }
}

/// Folding a run of written digits extends the accumulated top bits by the
/// run's length.
proof fn lemma_hex_run_digits(x: u128, b: Seq<u8>, from: int, to: int, dj: int)
    requires
        0 <= from <= to <= b.len(),
        0 <= dj,
        dj + (to - from) <= 32,
        forall|i: int|
            from <= i < to ==> (#[trigger] b[i]) == hex_char(nib(x, 31 - (dj + (i - from)))),
    ensures
        hex_run_value(b, from, to, top_bits(x, dj)) == top_bits(x, dj + (to - from)),
    decreases to - from,
{
    if from < to {
        lemma_nib_bound(x, (4 * (31 - dj)) as u128);
        assert(nib(x, 31 - dj) < 16);
        lemma_hex_char_val(nib(x, 31 - dj));
        assert(b[from] == hex_char(nib(x, 31 - dj)));
        lemma_top_bits_step(x, dj);
        assert((top_bits(x, dj) << 4) | hex_val(b[from]) == top_bits(x, dj + 1));
        assert forall|i: int|
            from + 1 <= i < to implies (#[trigger] b[i]) == hex_char(
            nib(x, 31 - ((dj + 1) + (i - (from + 1)))),
        ) by {
            assert(b[i] == hex_char(nib(x, 31 - (dj + (i - from)))));
            assert((dj + 1) + (i - (from + 1)) == dj + (i - from));
        }
        lemma_hex_run_digits(x, b, from + 1, to, dj + 1);
    }
}

/// Writing a UUID value as text and reading the text back loses nothing:
/// the text is well formed and spells the value it was written from.
pub proof fn lemma_uuid_text_round_trip(x: u128)
    ensures
        uuid_wf_at(uuid_text(x), 0),
        uuid_value_at(uuid_text(x), 0) == x,
{
    let b = uuid_text(x);
    assert forall|i: int| #![trigger b[0 + i]] 0 <= i < 36 implies if dash_at(i) {
        b[0 + i] == 45
    } else {
        is_hex_digit(b[0 + i])
    } by {
        assert(b[i] == if dash_at(i) {
            45u8
        } else {
            hex_char(nib(x, 31 - digit_idx(i)))
        });
        if !dash_at(i) {
            lemma_nib_bound(x, (4 * (31 - digit_idx(i))) as u128);
            lemma_hex_char_val(nib(x, 31 - digit_idx(i)));
        }
    }
    assert(uuid_wf_at(b, 0));
    assert forall|i: int| 0 <= i < 8 implies (#[trigger] b[i]) == hex_char(
        nib(x, 31 - (0 + (i - 0))),
    ) by {
        assert(digit_idx(i) == i);
    }
    lemma_hex_run_digits(x, b, 0, 8, 0);
    assert forall|i: int| 9 <= i < 13 implies (#[trigger] b[i]) == hex_char(
        nib(x, 31 - (8 + (i - 9))),
    ) by {
        assert(digit_idx(i) == i - 1);
    }
    lemma_hex_run_digits(x, b, 9, 13, 8);
    assert forall|i: int| 14 <= i < 18 implies (#[trigger] b[i]) == hex_char(
        nib(x, 31 - (12 + (i - 14))),
    ) by {
        assert(digit_idx(i) == i - 2);
    }
    lemma_hex_run_digits(x, b, 14, 18, 12);
    assert forall|i: int| 19 <= i < 23 implies (#[trigger] b[i]) == hex_char(
        nib(x, 31 - (16 + (i - 19))),
    ) by {
        assert(digit_idx(i) == i - 3);
    }
    lemma_hex_run_digits(x, b, 19, 23, 16);
    assert forall|i: int| 24 <= i < 36 implies (#[trigger] b[i]) == hex_char(
        nib(x, 31 - (20 + (i - 24))),
    ) by {
        assert(digit_idx(i) == i - 4);
    }
    lemma_hex_run_digits(x, b, 24, 36, 20);
    assert(top_bits(x, 0) == 0);
    assert(top_bits(x, 32) == x);
    assert(uuid_value_at(b, 0) == x);
}

proof fn lemma_hex_run_transport(b1: Seq<u8>, o1: int, b2: Seq<u8>, o2: int, len: int, acc: u128)
    requires
        0 <= o1,
        o1 + len <= b1.len(),
        0 <= o2,
        o2 + len <= b2.len(),
        0 <= len,
        forall|i: int| 0 <= i < len ==> (#[trigger] b1[o1 + i]) == b2[o2 + i],
    ensures
        hex_run_value(b1, o1, o1 + len, acc) == hex_run_value(b2, o2, o2 + len, acc),
    decreases len,
{
    if len > 0 {
        assert(b1[o1 + 0] == b2[o2 + 0]);
        assert forall|i: int| 0 <= i < len - 1 implies (#[trigger] b1[o1 + 1 + i]) == b2[o2 + 1
            + i] by {
            assert(b1[o1 + (i + 1)] == b2[o2 + (i + 1)]);
        }
        lemma_hex_run_transport(b1, o1 + 1, b2, o2 + 1, len - 1, (acc << 4) | hex_val(b1[o1]));
    }
}

/// A UUID's text read at any offset spells the value it was written from.
proof fn lemma_uuid_at_offset(b: Seq<u8>, off: int, x: u128)
    requires
        0 <= off,
        off + 36 <= b.len(),
        forall|i: int| 0 <= i < 36 ==> (#[trigger] b[off + i]) == uuid_text(x)[i],
    ensures
        uuid_wf_at(b, off),
        uuid_value_at(b, off) == x,
{
    lemma_uuid_text_round_trip(x);
    let t = uuid_text(x);
    assert forall|i: int| #![trigger b[off + i]] 0 <= i < 36 implies if dash_at(i) {
        b[off + i] == 45
    } else {
        is_hex_digit(b[off + i])
    } by {
        assert(t[0 + i] == t[i]);
    }
    let a1 = hex_run_value(t, 0, 8, 0);
    let a2 = hex_run_value(t, 9, 13, a1);
    let a3 = hex_run_value(t, 14, 18, a2);
    let a4 = hex_run_value(t, 19, 23, a3);
    assert forall|i: int| 0 <= i < 8 implies (#[trigger] b[off + i]) == t[0 + i] by {}
    lemma_hex_run_transport(b, off, t, 0, 8, 0);
    assert forall|i: int| 0 <= i < 4 implies (#[trigger] b[off + 9 + i]) == t[9 + i] by {
        assert(b[off + (9 + i)] == t[9 + i]);
    }
    lemma_hex_run_transport(b, off + 9, t, 9, 4, a1);
    assert forall|i: int| 0 <= i < 4 implies (#[trigger] b[off + 14 + i]) == t[14 + i] by {
        assert(b[off + (14 + i)] == t[14 + i]);
    }
    lemma_hex_run_transport(b, off + 14, t, 14, 4, a2);
    assert forall|i: int| 0 <= i < 4 implies (#[trigger] b[off + 19 + i]) == t[19 + i] by {
        assert(b[off + (19 + i)] == t[19 + i]);
    }
    lemma_hex_run_transport(b, off + 19, t, 19, 4, a3);
    assert forall|i: int| 0 <= i < 12 implies (#[trigger] b[off + 24 + i]) == t[24 + i] by {
        assert(b[off + (24 + i)] == t[24 + i]);
    }
    lemma_hex_run_transport(b, off + 24, t, 24, 12, a4);
}

proof fn lemma_dec_text_props(v: int)
    requires
        0 <= v,
    ensures
        dec_text(v).len() >= 1,
        forall|i: int| 0 <= i < dec_text(v).len() ==> is_dec_digit(#[trigger] dec_text(v)[i]),
    decreases v,
{
    if v >= 10 {
        lemma_dec_text_props(v / 10);
        assert forall|i: int| 0 <= i < dec_text(v).len() implies is_dec_digit(
            #[trigger] dec_text(v)[i],
        ) by {
            if i < dec_text(v).len() - 1 {
                assert(dec_text(v)[i] == dec_text(v / 10)[i]);
            }
        }
    }
}

proof fn lemma_dec_run_peel(b: Seq<u8>, from: int, to: int, acc: int)
    requires
        0 <= from < to <= b.len(),
    ensures
        dec_run_value(b, from, to, acc) == dec_run_value(b, from, to - 1, acc) * 10 + (b[to - 1]
            - 48),
    decreases to - from,
{
    reveal_with_fuel(dec_run_value, 3);
    if from + 1 < to {
        lemma_dec_run_peel(b, from + 1, to, acc * 10 + (b[from] - 48));
    }
}

/// A decimal's text read back gives the number it was written from.
proof fn lemma_dec_text_reads(b: Seq<u8>, from: int, v: int)
    requires
        0 <= v,
        0 <= from,
        from + dec_text(v).len() <= b.len(),
        forall|i: int| 0 <= i < dec_text(v).len() ==> (#[trigger] b[from + i]) == dec_text(v)[i],
    ensures
        dec_run_value(b, from, from + dec_text(v).len(), 0) == v,
    decreases v,
{
    reveal_with_fuel(dec_run_value, 3);
    let t = dec_text(v);
    if v < 10 {
        assert(b[from + 0] == t[0]);
        assert(dec_run_value(b, from, from + 1, 0) == b[from] - 48);
    } else {
        let short = dec_text(v / 10);
        assert forall|i: int| 0 <= i < short.len() implies (#[trigger] b[from + i]) == short[i] by {
            assert(b[from + i] == t[i]);
            assert(t[i] == short[i]);
        }
        lemma_dec_text_reads(b, from, v / 10);
        lemma_dec_run_peel(b, from, from + t.len(), 0);
        assert(b[from + (t.len() - 1)] == t[t.len() - 1]);
        assert(t[t.len() - 1] == 48 + (v % 10));
        assert(v / 10 * 10 + v % 10 == v) by (nonlinear_arith)
            requires
                v >= 0,
        ;
    }
}

/// Round trip of the canonical text: the text of any identifier whose field
/// holds no slash, whose start is not negative and whose end is above the
/// lowest 32-bit value is well formed, and every quantity a parse pins is
/// the one the text was written from.
pub proof fn lemma_ident_text_round_trip(
    doc: u128,
    field: Seq<char>,
    par: u128,
    start: i32,
    end: i32,
)
    requires
        forall|i: int|
            0 <= i < encode_utf8(field).len() ==> (#[trigger] encode_utf8(field)[i]) != 47,
        start >= 0,
        end > i32::MIN,
    ensures
        ({
            let b = ident_text(doc, field, par, start as int, end as int);
            let k = 37 + encode_utf8(field).len() as int;
            let d = k + 38 + dec_text(start as int).len() as int;
            &&& ident_layout(b, k, d)
            &&& ident_text_wf(b)
            &&& uuid_value_at(b, 0) == doc
            &&& b.subrange(37, k) == encode_utf8(field)
            &&& uuid_value_at(b, k + 1) == par
            &&& dec_run_value(b, k + 38, d, 0) == start as int
            &&& dec_signed_value(b, d + 1, b.len() as int) == end as int
        }),
{
    let fb = encode_utf8(field);
    let b = ident_text(doc, field, par, start as int, end as int);
    let k = 37 + fb.len() as int;
    let st = dec_text(start as int);
    let d = k + 38 + st.len() as int;
    let et = dec_text_signed(end as int);
    lemma_dec_text_props(start as int);
    if end >= 0 {
        lemma_dec_text_props(end as int);
    } else {
        lemma_dec_text_props(-(end as int));
    }
    assert(b.len() == 36 + 1 + fb.len() + 1 + 36 + 1 + st.len() + 1 + et.len());
    let u1 = uuid_text(doc);
    let u2 = uuid_text(par);
    assert forall|i: int| 0 <= i < 36 implies (#[trigger] b[0 + i]) == u1[i] by {}
    lemma_uuid_at_offset(b, 0, doc);
    assert(b[36] == 47);
    assert forall|j: int| 37 <= j < k implies (#[trigger] b[j]) != 47 by {
        assert(b[j] == fb[j - 37]);
    }
    assert(b[k] == 47);
    assert(b.subrange(37, k) =~= fb);
    assert forall|i: int| 0 <= i < 36 implies (#[trigger] b[(k + 1) + i]) == u2[i] by {}
    lemma_uuid_at_offset(b, k + 1, par);
    assert(b[k + 37] == 47);
    assert forall|j: int| k + 38 <= j < d implies is_dec_digit(#[trigger] b[j]) && b[j] != 45 by {
        assert(b[j] == st[j - (k + 38)]);
        assert(is_dec_digit(st[j - (k + 38)]));
    }
    assert(b[d] == 45);
    assert forall|i: int| 0 <= i < st.len() implies (#[trigger] b[(k + 38) + i]) == st[i] by {}
    lemma_dec_text_reads(b, k + 38, start as int);
    assert(dec_run_value(b, k + 38, d, 0) == start as int);
    assert forall|i: int| 0 <= i < et.len() implies (#[trigger] b[(d + 1) + i]) == et[i] by {}
    if end >= 0 {
        assert(et == dec_text(end as int));
        assert(b[d + 1] == et[0]);
        assert(is_dec_digit(et[0]));
        assert(b[d + 1] != 45);
        lemma_dec_text_reads(b, d + 1, end as int);
        assert(dec_run_value(b, d + 1, b.len() as int, 0) == end as int);
        assert(dec_ok_signed(b, d + 1, b.len() as int));
        assert(dec_signed_value(b, d + 1, b.len() as int) == end as int);
    } else {
        let m = -(end as int);
        assert(et == seq![45u8] + dec_text(m));
        assert(b[d + 1] == et[0]);
        assert(et[0] == 45);
        assert forall|i: int|
            0 <= i < dec_text(m).len() implies (#[trigger] b[(d + 2) + i]) == dec_text(m)[i] by {
            assert(b[(d + 1) + (i + 1)] == et[i + 1]);
            assert(et[i + 1] == dec_text(m)[i]);
        }
        lemma_dec_text_reads(b, d + 2, m);
        assert(dec_run_value(b, d + 2, b.len() as int, 0) == m);
        assert forall|j: int| d + 2 <= j < b.len() implies is_dec_digit(#[trigger] b[j]) by {
            assert(b[(d + 2) + (j - d - 2)] == dec_text(m)[j - d - 2]);
        }
        assert(dec_ok_signed(b, d + 1, b.len() as int));
        assert(dec_signed_value(b, d + 1, b.len() as int) == end as int);
    }
    assert(exists|cs: Seq<char>| encode_utf8(cs) == b.subrange(37, k)) by {
        assert(encode_utf8(field) == b.subrange(37, k));
    }
    assert(ident_layout(b, k, d));
}

impl VectorIdentifier {
    /// The canonical key bytes of this identifier for the on-disk id-map.
    pub fn key_bytes(&self) -> (r: Vec<u8>)
        ensures
            r@ == ident_key_parts(
                self.doc_id,
                encode_utf8(self.field@),
                self.paragraph_id,
                self.start,
                self.end,
            ),
    {
        let mut out = encode_u128(self.doc_id);
        let mut fb = self.field.as_str().as_bytes_vec();
        let mut lenb = encode_u64(fb.len() as u64);
        out.append(&mut lenb);
        out.append(&mut fb);
        let mut par = encode_u128(self.paragraph_id);
        out.append(&mut par);
        let mut sb = encode_i32(self.start);
        out.append(&mut sb);
        let mut eb = encode_i32(self.end);
        out.append(&mut eb);
        proof {
            assert(out@ =~= ident_key_parts(
                self.doc_id,
                encode_utf8(self.field@),
                self.paragraph_id,
                self.start,
                self.end,
            ));
        }
        out
    }

    /// Reads a key back into its parts, the field as raw bytes; fails on
    /// exactly the byte strings no identifier key spells.
    pub fn from_key_bytes(b: &Vec<u8>) -> (r: Option<(u128, Vec<u8>, u128, i32, i32)>)
        ensures
            r matches Some(p) ==> ident_key_wf(b@) && p.0 == u128_from_be_bytes(
                b@.subrange(0, 16),
            ) && p.1@ == b@.subrange(24, b@.len() - 24) && p.2 == u128_from_be_bytes(
                b@.subrange(b@.len() - 24, b@.len() - 8),
            ) && p.3 == i32_from_be_bytes(b@.subrange(b@.len() - 8, b@.len() - 4)) && p.4
                == i32_from_be_bytes(b@.subrange(b@.len() - 4, b@.len() as int)),
            r is None ==> !ident_key_wf(b@),
    {
        let n = b.len();
        if n < 48 {
            return None;
        }
        let flen64 = read_u64_at(b, 16);
        if flen64 != (n - 48) as u64 {
            return None;
        }
        let flen = n - 48;
        let doc = read_u128_at(b, 0);
        let mut fb: Vec<u8> = Vec::new();
        let mut i: usize = 24;
        while i < 24 + flen
            invariant
                24 <= i <= 24 + flen,
                24 + flen <= n,
                n == b@.len(),
                fb@ == b@.subrange(24, i as int),
            decreases 24 + flen - i,
        {
            fb.push(b[i]);
            proof {
                assert(fb@ =~= b@.subrange(24, i + 1 as int));
            }
            i = i + 1;
        }
        let par = read_u128_at(b, 24 + flen);
        let start = read_i32_at(b, 40 + flen);
        let end = read_i32_at(b, 44 + flen);
        Some((doc, fb, par, start, end))
    }
}

} // verus!
