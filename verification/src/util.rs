//! The wire codec: byte-level field scanning, message parsing, and message
//! writing for the FIX 4.2 tag-value format.
//!
//! A message is a run of `tag=value` fields, each terminated by the SOH byte
//! (0x01), framed by a three-field header (8=BeginString, 9=BodyLength,
//! 35=MsgType) and closed by a 10=CheckSum field whose value is the decimal
//! byte sum, modulo 256, of everything before the checksum field itself.

use vstd::prelude::*;

use crate::fix::FixParseIdLenSum;
use crate::fix::FixStreamException;

verus! {

/// The field separator byte.
pub const SOH: u8 = 1;

/// The byte `=`, separating a tag id from its value.
pub const EQ: u8 = 61;

/// ASCII decimal digit.
pub open spec fn is_digit(b: u8) -> bool {
    48 <= b <= 57
}

/// Arithmetic sum of a byte sequence.
pub open spec fn byte_sum(s: Seq<u8>) -> int
    decreases s.len(),
{
    if s.len() == 0 {
        0
    } else {
        byte_sum(s.drop_last()) + s.last()
    }
}

/// The byte sum of a concatenation is the sum of the byte sums.
pub proof fn lemma_byte_sum_concat(a: Seq<u8>, b: Seq<u8>)
    ensures
        byte_sum(a + b) == byte_sum(a) + byte_sum(b),
    decreases b.len(),
{
    if b.len() == 0 {
        assert(a + b =~= a);
    } else {
        lemma_byte_sum_concat(a, b.drop_last());
        assert((a + b).drop_last() =~= a + b.drop_last());
        assert((a + b).last() == b.last());
    }
}

/// A byte sum is never negative.
pub proof fn lemma_byte_sum_nonneg(s: Seq<u8>)
    ensures
        byte_sum(s) >= 0,
    decreases s.len(),
{
    if s.len() > 0 {
        lemma_byte_sum_nonneg(s.drop_last());
    }
}

/// The longest byte run whose arithmetic sum is guaranteed to fit the
/// 32-bit sums this module returns: 255 bytes of value times this length
/// stays below 2^32.
pub const SUM_LEN_LIMIT: usize = 0x0100_0000;

/// A byte sum never exceeds 255 per byte.
pub proof fn lemma_byte_sum_le(s: Seq<u8>)
    ensures
        byte_sum(s) <= 255 * s.len(),
    decreases s.len(),
{
    if s.len() > 0 {
        lemma_byte_sum_le(s.drop_last());
    }
}

/// The decimal value of a digit run, folded left onto an accumulator.
pub open spec fn dec_value_acc(ds: Seq<u8>, acc: int) -> int
    decreases ds.len(),
{
    if ds.len() == 0 {
        acc
    } else {
        dec_value_acc(ds.drop_first(), acc * 10 + (ds.first() - 48))
    }
}

/// The decimal value of a digit run.
pub open spec fn dec_value(ds: Seq<u8>) -> int {
    dec_value_acc(ds, 0)
}

/// Every byte of the sequence is an ASCII digit.
pub open spec fn all_digits(ds: Seq<u8>) -> bool {
    forall|i: int| 0 <= i < ds.len() ==> is_digit(#[trigger] ds[i])
}

/// The shortest decimal encoding of a non-negative number; zero encodes to
/// the empty run, as the writer emits no digits for a zero tag id.
pub open spec fn dec_digits(n: int) -> Seq<u8>
    decreases n,
{
    if n <= 0 {
        Seq::empty()
    } else {
        dec_digits(n / 10).push((48 + n % 10) as u8)
    }
}

/// A run of ASCII zeros.
pub open spec fn zeros(k: int) -> Seq<u8> {
    Seq::new(if k >= 0 { k as nat } else { 0 }, |i: int| 48u8)
}

/// Decimal encoding padded with leading zeros to at least three digits.
pub open spec fn pad3(n: int) -> Seq<u8> {
    zeros(3 - dec_digits(n).len()) + dec_digits(n)
}

/// What scanning one tag id (digits up to and including `=`) yields.
pub enum TagScan {
    /// The bytes ran out before `=` was seen.
    Incomplete,
    /// A byte that is neither a digit nor `=`, or a tag id over 32 bits.
    Invalid,
    /// Tag id, index just past the `=`.
    Found { id: int, end: int },
}

/// Scan a tag id in `s` from index `j`, with `id` the value of the digits
/// already read. Stops at `=`; any other non-digit is invalid, as is a tag
/// id that no longer fits in 32 bits.
pub open spec fn scan_tag_from(s: Seq<u8>, j: int, id: int) -> TagScan
    decreases s.len() - j,
    when 0 <= j <= s.len() && 0 <= id
{
    if j == s.len() {
        TagScan::Incomplete
    } else if s[j] == EQ {
        TagScan::Found { id: id, end: j + 1 }
    } else if !is_digit(s[j]) {
        TagScan::Invalid
    } else if id * 10 + (s[j] - 48) > u32::MAX {
        TagScan::Invalid
    } else {
        scan_tag_from(s, j + 1, id * 10 + (s[j] - 48))
    }
}

/// The index of the first SOH at or after `j`, if any.
pub open spec fn find_soh(s: Seq<u8>, j: int) -> Option<int>
    decreases s.len() - j,
    when 0 <= j <= s.len()
{
    if j == s.len() {
        None
    } else if s[j] == SOH {
        Some(j)
    } else {
        find_soh(s, j + 1)
    }
}

/// What scanning one whole `tag=value\x01` field yields.
pub enum FieldScan {
    Incomplete,
    Invalid,
    /// Tag id; the value spans `vstart..vend`; `end` is just past the SOH.
    Found { id: int, vstart: int, vend: int, end: int },
}

/// Scan one field of `s` starting at index `i`.
pub open spec fn scan_field(s: Seq<u8>, i: int) -> FieldScan {
    match scan_tag_from(s, i, 0) {
        TagScan::Incomplete => FieldScan::Incomplete,
        TagScan::Invalid => FieldScan::Invalid,
        TagScan::Found { id, end } => match find_soh(s, end) {
            Option::None => FieldScan::Incomplete,
            Option::Some(k) => FieldScan::Found { id: id, vstart: end, vend: k, end: k + 1 },
        },
    }
}

/// Bounds of a successful tag scan: it makes progress, stays inside the
/// buffer, and yields a 32-bit id.
pub proof fn lemma_scan_tag_bounds(s: Seq<u8>, j: int, id: int)
    requires
        0 <= j <= s.len(),
        0 <= id <= u32::MAX,
        scan_tag_from(s, j, id) is Found,
    ensures
        j < scan_tag_from(s, j, id)->Found_end <= s.len(),
        0 <= scan_tag_from(s, j, id)->Found_id <= u32::MAX,
    decreases s.len() - j,
{
    if j < s.len() && s[j] != EQ && is_digit(s[j]) && id * 10 + (s[j] - 48) <= u32::MAX {
        lemma_scan_tag_bounds(s, j + 1, id * 10 + (s[j] - 48));
    }
}

/// Bounds of a successful SOH search.
pub proof fn lemma_find_soh_bounds(s: Seq<u8>, j: int)
    requires
        0 <= j <= s.len(),
        find_soh(s, j) is Some,
    ensures
        j <= find_soh(s, j)->0 < s.len(),
        s[find_soh(s, j)->0] == SOH,
        forall|k: int| j <= k < find_soh(s, j)->0 ==> s[k] != SOH,
    decreases s.len() - j,
{
    if j < s.len() && s[j] != SOH {
        lemma_find_soh_bounds(s, j + 1);
    }
}

/// Bounds of a successful field scan.
pub proof fn lemma_scan_field_bounds(s: Seq<u8>, i: int)
    requires
        0 <= i <= s.len(),
        scan_field(s, i) is Found,
    ensures
        ({
            let f = scan_field(s, i);
            &&& i < f->Found_vstart <= f->Found_vend
            &&& f->Found_end == f->Found_vend + 1 <= s.len()
            &&& 0 <= f->Found_id <= u32::MAX
            &&& s[f->Found_vend] == SOH
            &&& forall|k: int|
                f->Found_vstart <= k < f->Found_vend ==> s[k] != SOH
        }),
{
    lemma_scan_tag_bounds(s, i, 0);
    let te = scan_tag_from(s, i, 0)->Found_end;
    lemma_find_soh_bounds(s, te);
}

/// Scanning a tag id in a suffix of `s` scans the same bytes.
pub proof fn lemma_scan_tag_shift(s: Seq<u8>, i: int, j: int, id: int)
    requires
        0 <= i,
        0 <= j,
        i + j <= s.len(),
        0 <= id,
    ensures
        scan_tag_from(s, i + j, id) == (match scan_tag_from(s.skip(i), j, id) {
            TagScan::Incomplete => TagScan::Incomplete,
            TagScan::Invalid => TagScan::Invalid,
            TagScan::Found { id: d, end } => TagScan::Found { id: d, end: end + i },
        }),
    decreases s.len() - i - j,
{
    assert(s.skip(i).len() == s.len() - i);
    if j < s.len() - i {
        assert(s.skip(i)[j] == s[i + j]);
        let b = s[i + j];
        if b != EQ && is_digit(b) && id * 10 + (b - 48) <= u32::MAX {
            lemma_scan_tag_shift(s, i, j + 1, id * 10 + (b - 48));
        }
    }
}

/// Finding SOH in a suffix of `s` finds the same byte.
pub proof fn lemma_find_soh_shift(s: Seq<u8>, i: int, j: int)
    requires
        0 <= i,
        0 <= j,
        i + j <= s.len(),
    ensures
        find_soh(s, i + j) == (match find_soh(s.skip(i), j) {
            Option::None => Option::<int>::None,
            Option::Some(k) => Option::Some(k + i),
        }),
    decreases s.len() - i - j,
{
    assert(s.skip(i).len() == s.len() - i);
    if j < s.len() - i {
        assert(s.skip(i)[j] == s[i + j]);
        if s[i + j] != SOH {
            lemma_find_soh_shift(s, i, j + 1);
        }
    }
}

/// A cursor over an immutable byte view: `len` bytes are already consumed.
pub struct Slicer<'a> {
    pub buf: &'a [u8],
    pub len: usize,
}

impl<'a> Slicer<'a> {
    /// The bytes not yet consumed.
    pub fn buf(&mut self) -> (r: &'a [u8])
        requires
            old(self).len <= old(self).buf@.len(),
        ensures
            *final(self) == *old(self),
            r@ == old(self).buf@.skip(old(self).len as int),
    {
        let r = vstd::slice::slice_subrange(self.buf, self.len, self.buf.len());
        proof {
            assert(r@ =~= self.buf@.skip(self.len as int));
        }
        r
    }

    /// Advance the cursor by `len` bytes.
    pub fn consume(&mut self, len: usize)
        requires
            old(self).len + len <= usize::MAX,
        ensures
            final(self).buf@ == old(self).buf@,
            final(self).len == old(self).len + len,
    {
        self.len = self.len + len;
    }
}

/// Scan one tag id and its `=` from the head of `buf`: the id, the byte
/// count consumed including the `=`, and the arithmetic sum of every byte
/// read, the `=` included. `None` means the bytes ran out before `=`; an
/// error means a byte that is neither a digit nor `=`, or a tag id over 32
/// bits. The buffer is bounded so that the sum fits its 32-bit result.
pub fn get_tag_id(buf: &[u8]) -> (r: Result<Option<FixParseIdLenSum>, FixStreamException>)
    requires
        buf@.len() <= SUM_LEN_LIMIT,
    ensures
        match scan_tag_from(buf@, 0, 0) {
            TagScan::Incomplete => r == Ok::<Option<FixParseIdLenSum>, FixStreamException>(
                None,
            ),
            TagScan::Invalid => r is Err,
            TagScan::Found { id, end } => {
                &&& r is Ok
                &&& r->Ok_0 is Some
                &&& (r->Ok_0->0).0 == id
                &&& (r->Ok_0->0).1 == end
                &&& (r->Ok_0->0).2 == byte_sum(buf@.take(end))
            },
        },
{
    let mut i: usize = 0;
    let mut tag_id: u32 = 0;
    let mut sum: u32 = 0;
    while i < buf.len()
        invariant
            i <= buf.len(),
            buf@.len() <= SUM_LEN_LIMIT,
            sum == byte_sum(buf@.take(i as int)),
            sum <= 255 * i,
            scan_tag_from(buf@, 0, 0) == scan_tag_from(buf@, i as int, tag_id as int),
        decreases buf.len() - i,
    {
        let b = *vstd::slice::slice_index_get(buf, i);
        proof {
            assert(buf@.take(i + 1).drop_last() =~= buf@.take(i as int));
            assert(buf@.take(i + 1).last() == buf@[i as int]);
        }
        if b == EQ {
            return Ok(Some((tag_id, i + 1, sum + b as u32)));
        }
        if b < 48 || b > 57 {
            return Err("non-digit in tag".to_owned());
        }
        let wide: u64 = tag_id as u64 * 10 + (b - 48) as u64;
        if wide > u32::MAX as u64 {
            return Err("tag id over 32 bits".to_owned());
        }
        tag_id = wide as u32;
        sum = sum + b as u32;
        i = i + 1;
    }
    proof {
        assert(scan_tag_from(buf@, i as int, tag_id as int) is Incomplete);
    }
    Ok(None)
}


/// Scan one value and its closing SOH from the head of `buf`: the value
/// bytes before SOH and the arithmetic sum of everything read, the SOH
/// included. `None` means no SOH was found. The buffer is bounded so that
/// the sum fits its 32-bit result.
pub fn get_tag_value(buf: &[u8]) -> (r: Option<(&[u8], u32)>)
    requires
        buf@.len() <= SUM_LEN_LIMIT,
    ensures
        match find_soh(buf@, 0) {
            Option::None => r is None,
            Option::Some(k) => {
                &&& r is Some
                &&& (r->0).0@ == buf@.take(k)
                &&& (r->0).1 == byte_sum(buf@.take(k + 1))
            },
        },
{
    let mut i: usize = 0;
    let mut sum: u32 = 0;
    while i < buf.len()
        invariant
            i <= buf.len(),
            buf@.len() <= SUM_LEN_LIMIT,
            sum == byte_sum(buf@.take(i as int)),
            sum <= 255 * i,
            find_soh(buf@, 0) == find_soh(buf@, i as int),
        decreases buf.len() - i,
    {
        let b = *vstd::slice::slice_index_get(buf, i);
        proof {
            assert(buf@.take(i + 1).drop_last() =~= buf@.take(i as int));
            assert(buf@.take(i + 1).last() == buf@[i as int]);
        }
        if b == SOH {
            let v = vstd::slice::slice_subrange(buf, 0, i);
            return Some((v, sum + b as u32));
        }
        sum = sum + b as u32;
        i = i + 1;
    }
    None
}

/// Scan one whole `tag=value\x01` field at the cursor: the tag id, the
/// value bytes, and the arithmetic sum of the whole field's bytes, the SOH
/// included. On success the cursor moves past the field; otherwise it is
/// left where it was. The buffer is bounded so that the sum fits its
/// 32-bit result.
pub fn get_tag<'a>(s: &mut Slicer<'a>) -> (r: Result<
    Option<(u32, &'a [u8], u32)>,
    FixStreamException,
>)
    requires
        old(s).len <= old(s).buf@.len(),
        old(s).buf@.len() <= SUM_LEN_LIMIT,
    ensures
        final(s).buf@ == old(s).buf@,
        match scan_field(old(s).buf@, old(s).len as int) {
            FieldScan::Incomplete => r is Ok && r->Ok_0 is None && final(s).len == old(s).len,
            FieldScan::Invalid => r is Err && final(s).len == old(s).len,
            FieldScan::Found { id, vstart, vend, end } => {
                &&& r is Ok
                &&& r->Ok_0 is Some
                &&& (r->Ok_0->0).0 == id
                &&& (r->Ok_0->0).1@ == old(s).buf@.subrange(vstart, vend)
                &&& (r->Ok_0->0).2 == byte_sum(
                    old(s).buf@.subrange(old(s).len as int, end),
                )
                &&& final(s).len == end
            },
        },
{
    let ghost whole = s.buf@;
    let ghost start = s.len as int;
    let total = s.buf.len();
    let rest = s.buf();
    proof {
        lemma_scan_tag_shift(whole, start, 0, 0);
    }
    match get_tag_id(rest) {
        Err(e) => Err(e),
        Ok(None) => Ok(None),
        Ok(Some((id, tlen, tsum))) => {
            proof {
                lemma_scan_tag_bounds(whole, start, 0);
                lemma_find_soh_shift(whole, start + tlen as int, 0);
                assert(rest@.skip(tlen as int) =~= whole.skip(start + tlen as int));
            }
            let rest2 = vstd::slice::slice_subrange(rest, tlen, rest.len());
            match get_tag_value(rest2) {
                None => Ok(None),
                Some((v, vsum)) => {
                    let ghost k = find_soh(whole, start + tlen as int)->0;
                    proof {
                        lemma_find_soh_bounds(whole, start + tlen as int);
                        assert(rest2@.take(k - start - tlen) =~= whole.subrange(
                            start + tlen as int,
                            k,
                        ));
                        assert(rest2@.take(k - start - tlen + 1) =~= whole.subrange(
                            start + tlen as int,
                            k + 1,
                        ));
                        assert(rest@.take(tlen as int) =~= whole.subrange(
                            start,
                            start + tlen as int,
                        ));
                        lemma_byte_sum_concat(
                            whole.subrange(start, start + tlen as int),
                            whole.subrange(start + tlen as int, k + 1),
                        );
                        assert(whole.subrange(start, start + tlen as int) + whole.subrange(
                            start + tlen as int,
                            k + 1,
                        ) =~= whole.subrange(start, k + 1));
                        lemma_byte_sum_nonneg(whole.subrange(start, start + tlen as int));
                        lemma_byte_sum_nonneg(whole.subrange(start + tlen as int, k + 1));
                        lemma_byte_sum_le(whole.subrange(start, k + 1));
                    }
                    let sum = tsum + vsum;
                    proof {
                        assert(v@.len() == k - start - tlen);
                        assert(k + 1 <= total);
                    }
                    s.consume(tlen + v.len() + 1);
                    Ok(Some((id, v, sum)))
                },
            }
        },
    }
}

/// A number below `10^k` encodes to at most `k` digits.
proof fn lemma_dec_digits_len_le(n: int, k: nat)
    requires
        0 <= n < vstd::arithmetic::power::pow(10, k),
    ensures
        dec_digits(n).len() <= k,
    decreases n,
{
    reveal(vstd::arithmetic::power::pow);
    let ten = vstd::arithmetic::power::pow(10, k);
    if n > 0 {
        if k == 0 {
            assert(vstd::arithmetic::power::pow(10, 0) == 1);
        }
        let tenk1 = vstd::arithmetic::power::pow(10, (k - 1) as nat);
        assert(ten == 10 * tenk1);
        vstd::arithmetic::div_mod::lemma_fundamental_div_mod(n, 10);
        assert(n / 10 < tenk1) by {
            if n / 10 >= tenk1 {
                vstd::arithmetic::mul::lemma_mul_inequality(tenk1, n / 10, 10);
            }
        }
        lemma_dec_digits_len_le(n / 10, (k - 1) as nat);
    }
}

/// A 32-bit number encodes to at most ten digits.
pub proof fn lemma_dec_digits_len10(n: int)
    requires
        0 <= n <= u32::MAX,
    ensures
        dec_digits(n).len() <= 10,
{
    reveal(vstd::arithmetic::power::pow);
    assert(vstd::arithmetic::power::pow(10, 0) == 1);
    assert(vstd::arithmetic::power::pow(10, 1) == 10);
    assert(vstd::arithmetic::power::pow(10, 2) == 100);
    assert(vstd::arithmetic::power::pow(10, 3) == 1000);
    assert(vstd::arithmetic::power::pow(10, 4) == 10000);
    assert(vstd::arithmetic::power::pow(10, 5) == 100000);
    assert(vstd::arithmetic::power::pow(10, 6) == 1000000);
    assert(vstd::arithmetic::power::pow(10, 7) == 10000000);
    assert(vstd::arithmetic::power::pow(10, 8) == 100000000);
    assert(vstd::arithmetic::power::pow(10, 9) == 1000000000);
    assert(vstd::arithmetic::power::pow(10, 10) == 10000000000);
    lemma_dec_digits_len_le(n, 10);
}

/// What scanning the fields after the header yields.
pub enum BodyScanV {
    /// The bytes ran out before the checksum field was seen.
    Incomplete,
    /// A field whose tag could not be scanned.
    BadTag,
    /// The fields before tag 10, the value bytes of tag 10, and `cov`, the
    /// index of the first byte of the checksum field itself.
    Done { consumed: int, fields: Seq<(u32, Seq<u8>)>, claimed: Seq<u8>, cov: int },
}

/// Scan fields of `s` from index `i` until the checksum field (tag 10),
/// accumulating everything before it.
pub open spec fn scan_body(s: Seq<u8>, i: int, fields: Seq<(u32, Seq<u8>)>) -> BodyScanV
    decreases s.len() - i,
    when 0 <= i <= s.len()
{
    match scan_field(s, i) {
        FieldScan::Incomplete => BodyScanV::Incomplete,
        FieldScan::Invalid => BodyScanV::BadTag,
        FieldScan::Found { id, vstart, vend, end } => if id == 10 {
            BodyScanV::Done {
                consumed: end,
                fields: fields,
                claimed: s.subrange(vstart, vend),
                cov: i,
            }
        } else {
            proof {
                lemma_scan_field_bounds(s, i);
            }
            scan_body(s, end, fields.push((id as u32, s.subrange(vstart, vend))))
        },
    }
}

/// The outcome of parsing one message from the head of a buffer.
pub enum FrameV {
    /// The buffer ends mid-message; nothing is consumed.
    Incomplete,
    /// One of the three header tags 8, 9, 35 is not in its place.
    Misplaced,
    /// A tag id could not be scanned.
    BadTag,
    /// A whole message: bytes consumed, the values of tags 8 and 35, the
    /// body fields in order, the checksum over everything before the
    /// checksum field, and whether the claimed checksum matches it.
    Complete {
        consumed: int,
        begin: Seq<u8>,
        msg_type: Seq<u8>,
        fields: Seq<(u32, Seq<u8>)>,
        computed: int,
        ok: bool,
    },
}

/// Parse one message from the head of `s`: header tags 8, 9, 35 in exactly
/// that order, then fields up to tag 10, whose decimal value must equal the
/// byte sum of everything before it, modulo 256.
pub open spec fn spec_parse_frame(s: Seq<u8>) -> FrameV {
    match scan_field(s, 0) {
        FieldScan::Incomplete => FrameV::Incomplete,
        FieldScan::Invalid => FrameV::BadTag,
        FieldScan::Found { id: id8, vstart: vs8, vend: ve8, end: e8 } => if id8 != 8 {
            FrameV::Misplaced
        } else {
            match scan_field(s, e8) {
                FieldScan::Incomplete => FrameV::Incomplete,
                FieldScan::Invalid => FrameV::BadTag,
                FieldScan::Found { id: id9, end: e9, .. } => if id9 != 9 {
                    FrameV::Misplaced
                } else {
                    match scan_field(s, e9) {
                        FieldScan::Incomplete => FrameV::Incomplete,
                        FieldScan::Invalid => FrameV::BadTag,
                        FieldScan::Found { id: id35, vstart: vs35, vend: ve35, end: e35 } => if id35
                            != 35 {
                            FrameV::Misplaced
                        } else {
                            match scan_body(s, e35, Seq::empty()) {
                                BodyScanV::Incomplete => FrameV::Incomplete,
                                BodyScanV::BadTag => FrameV::BadTag,
                                BodyScanV::Done { consumed, fields, claimed, cov } => {
                                    let computed = byte_sum(s.take(cov)) % 256;
                                    FrameV::Complete {
                                        consumed: consumed,
                                        begin: s.subrange(vs8, ve8),
                                        msg_type: s.subrange(vs35, ve35),
                                        fields: fields,
                                        computed: computed,
                                        ok: all_digits(claimed) && dec_value(claimed) == computed,
                                    }
                                },
                            }
                        },
                    }
                },
            }
        },
    }
}

/// The field list of a parsed message, with each value as a byte sequence.
pub open spec fn fields_view(v: Seq<(u32, Vec<u8>)>) -> Seq<(u32, Seq<u8>)> {
    v.map_values(|p: (u32, Vec<u8>)| (p.0, p.1@))
}

/// One message parsed off the head of a buffer, with owned copies of the
/// header values and body fields.
pub struct FixFrame {
    /// How many bytes of the buffer the message occupies.
    pub consumed: usize,
    /// The value of tag 8.
    pub begin_string: Vec<u8>,
    /// The value of tag 35.
    pub msg_type: Vec<u8>,
    /// The body fields between tag 35 and tag 10, in wire order.
    pub fields: Vec<(u32, Vec<u8>)>,
    /// Whether the claimed checksum equals the computed one.
    pub checksum_ok: bool,
}

/// Whether an owned frame carries exactly the values of a complete parse.
pub open spec fn frame_matches(f: FixFrame, v: FrameV) -> bool {
    match v {
        FrameV::Complete { consumed, begin, msg_type, fields, computed, ok } => {
            &&& f.consumed == consumed
            &&& f.begin_string@ == begin
            &&& f.msg_type@ == msg_type
            &&& fields_view(f.fields@) == fields
            &&& f.checksum_ok == ok
        },
        _ => false,
    }
}

/// Whether the claimed checksum bytes are all digits whose decimal value is
/// `computed`.
fn checksum_claim_matches(v: &[u8], computed: u32) -> (r: bool)
    requires
        computed < 256,
    ensures
        r == (all_digits(v@) && dec_value(v@) == computed),
{
    let mut j: usize = 0;
    let mut acc: u32 = 0;
    let ghost mut dval: int = 0int;
    proof {
        assert(v@.skip(0) =~= v@);
    }
    while j < v.len()
        invariant
            j <= v.len(),
            computed < 256,
            all_digits(v@.take(j as int)),
            dec_value(v@) == dec_value_acc(v@.skip(j as int), dval),
            (acc == dval && acc <= 2559) || (acc == 256 && dval > 255),
        decreases v.len() - j,
    {
        let b = *vstd::slice::slice_index_get(v, j);
        if b < 48 || b > 57 {
            proof {
                assert(!is_digit(v@[j as int]));
            }
            return false;
        }
        proof {
            assert(v@.take(j + 1).drop_last() =~= v@.take(j as int));
            assert(v@.take(j + 1).last() == v@[j as int]);
            assert(v@.skip(j as int).first() == v@[j as int]);
            assert(v@.skip(j as int).drop_first() =~= v@.skip(j + 1));
            dval = dval * 10 + (b - 48);
        }
        if acc > 255 {
            acc = 256;
        } else {
            acc = acc * 10 + (b - 48) as u32;
        }
        j = j + 1;
    }
    proof {
        assert(v@.take(j as int) =~= v@);
        assert(v@.skip(j as int) =~= Seq::<u8>::empty());
    }
    acc == computed
}

/// Append the decimal digits of `n` to a message text.
fn append_dec(s: &mut String, n: u32) {
    if n == 0 {
        s.append("0");
        return ;
    }
    let mut digits: Vec<u8> = Vec::new();
    let mut cur = n;
    while cur > 0
        decreases cur,
    {
        digits.push((cur % 10) as u8);
        cur = cur / 10;
    }
    let mut i = digits.len();
    while i > 0
        invariant
            i <= digits@.len(),
        decreases i,
    {
        i = i - 1;
        let d = *vstd::std_specs::vec::vec_index(&digits, i);
        match d {
            0 => s.append("0"),
            1 => s.append("1"),
            2 => s.append("2"),
            3 => s.append("3"),
            4 => s.append("4"),
            5 => s.append("5"),
            6 => s.append("6"),
            7 => s.append("7"),
            8 => s.append("8"),
            _ => s.append("9"),
        }
    }
}

/// The parse error for a header field out of its place, naming the tag the
/// format demands there and the tag that arrived.
fn misplaced_tag_message(expected: u32, got: u32) -> (r: FixStreamException) {
    let mut s: String = "misplaced tag: expected ".to_owned();
    append_dec(&mut s, expected);
    s.append(" got ");
    append_dec(&mut s, got);
    s
}

/// Parse one whole message from the head of `buf`. `Ok(Some(frame))` is a
/// complete message (its `checksum_ok` still to be honoured by the caller),
/// `Ok(None)` means the buffer ends mid-message and nothing was consumed,
/// and an error is a permanent malformation: a header tag out of place or a
/// tag that cannot be scanned.
pub fn parse_fix_frame(buf: &[u8]) -> (r: Result<Option<FixFrame>, FixStreamException>)
    requires
        buf@.len() <= SUM_LEN_LIMIT,
    ensures
        match spec_parse_frame(buf@) {
            FrameV::Incomplete => r == Ok::<Option<FixFrame>, FixStreamException>(None),
            FrameV::Misplaced => r is Err,
            FrameV::BadTag => r is Err,
            FrameV::Complete { .. } => {
                &&& r is Ok
                &&& r->Ok_0 is Some
                &&& frame_matches(r->Ok_0->0, spec_parse_frame(buf@))
            },
        },
{
    let mut s = Slicer { buf: buf, len: 0 };
    let mut chksum: u32 = 0;
    proof {
        assert(buf@.take(0) =~= Seq::<u8>::empty());
    }
    // Header tag 8: BeginString.
    let v8 = match get_tag(&mut s) {
        Err(e) => {
            return Err(e);
        },
        Ok(None) => {
            return Ok(None);
        },
        Ok(Some((id, v, sum))) => {
            if id != 8 {
                return Err(misplaced_tag_message(8, id));
            }
            proof {
                lemma_scan_field_bounds(buf@, 0);
                lemma_field_sum_step(buf@, 0, chksum as int);
                lemma_byte_sum_nonneg(buf@.subrange(0, scan_field(buf@, 0)->Found_end));
            }
            chksum = (chksum + sum % 256) % 256;
            v
        },
    };
    // Header tag 9: BodyLength; its value plays no part in parsing.
    match get_tag(&mut s) {
        Err(e) => {
            return Err(e);
        },
        Ok(None) => {
            return Ok(None);
        },
        Ok(Some((id, v, sum))) => {
            if id != 9 {
                return Err(misplaced_tag_message(9, id));
            }
            proof {
                let e8 = scan_field(buf@, 0)->Found_end;
                lemma_scan_field_bounds(buf@, e8);
                lemma_field_sum_step(buf@, e8, chksum as int);
                lemma_byte_sum_nonneg(buf@.subrange(e8, scan_field(buf@, e8)->Found_end));
            }
            chksum = (chksum + sum % 256) % 256;
        },
    };
    // Header tag 35: MsgType.
    let v35 = match get_tag(&mut s) {
        Err(e) => {
            return Err(e);
        },
        Ok(None) => {
            return Ok(None);
        },
        Ok(Some((id, v, sum))) => {
            if id != 35 {
                return Err(misplaced_tag_message(35, id));
            }
            proof {
                let e8 = scan_field(buf@, 0)->Found_end;
                let e9 = scan_field(buf@, e8)->Found_end;
                lemma_scan_field_bounds(buf@, e9);
                lemma_field_sum_step(buf@, e9, chksum as int);
                lemma_byte_sum_nonneg(buf@.subrange(e9, scan_field(buf@, e9)->Found_end));
            }
            chksum = (chksum + sum % 256) % 256;
            v
        },
    };
    let begin_string = vstd::slice::slice_to_vec(v8);
    let msg_type = vstd::slice::slice_to_vec(v35);
    let ghost e35 = s.len as int;
    let mut fields: Vec<(u32, Vec<u8>)> = Vec::new();
    proof {
        assert(fields_view(fields@) =~= Seq::<(u32, Seq<u8>)>::empty());
    }
    // Body fields until the checksum field.
    loop
        invariant
            s.buf@ == buf@,
            s.len <= buf@.len(),
            buf@.len() <= SUM_LEN_LIMIT,
            chksum < 256,
            chksum == byte_sum(buf@.take(s.len as int)) % 256,
            0 <= e35 <= s.len,
            ({
                let f8 = scan_field(buf@, 0);
                let f9 = scan_field(buf@, f8->Found_end);
                let f35 = scan_field(buf@, f9->Found_end);
                &&& f8 is Found && f8->Found_id == 8
                &&& f9 is Found && f9->Found_id == 9
                &&& f35 is Found && f35->Found_id == 35
                &&& e35 == f35->Found_end
                &&& begin_string@ == buf@.subrange(f8->Found_vstart, f8->Found_vend)
                &&& msg_type@ == buf@.subrange(f35->Found_vstart, f35->Found_vend)
            }),
            scan_body(buf@, e35, Seq::empty()) == scan_body(
                buf@,
                s.len as int,
                fields_view(fields@),
            ),
        decreases buf@.len() - s.len,
    {
        let ghost prev = s.len as int;
        let ghost fv = fields_view(fields@);
        match get_tag(&mut s) {
            Err(e) => {
                return Err(e);
            },
            Ok(None) => {
                return Ok(None);
            },
            Ok(Some((id, v, sum))) => {
                proof {
                    lemma_scan_field_bounds(buf@, prev);
                }
                if id != 10 {
                    proof {
                        lemma_field_sum_step(buf@, prev, chksum as int);
                        lemma_byte_sum_nonneg(buf@.subrange(prev, scan_field(buf@, prev)->Found_end));
                    }
                    chksum = (chksum + sum % 256) % 256;
                    fields.push((id, vstd::slice::slice_to_vec(v)));
                    proof {
                        assert(fields_view(fields@) =~= fv.push((id, v@)));
                    }
                } else {
                    let ok = checksum_claim_matches(v, chksum);
                    return Ok(
                        Some(
                            FixFrame {
                                consumed: s.len,
                                begin_string,
                                msg_type,
                                fields,
                                checksum_ok: ok,
                            },
                        ),
                    );
                }
            },
        }
    }
}

/// Folding the next field's byte sum into the running checksum keeps the
/// running checksum equal to the byte sum of everything consumed so far.
proof fn lemma_field_sum_step(s: Seq<u8>, i: int, chk: int)
    requires
        0 <= i <= s.len(),
        scan_field(s, i) is Found,
        chk == byte_sum(s.take(i)) % 256,
    ensures
        ({
            let end = scan_field(s, i)->Found_end;
            (chk + byte_sum(s.subrange(i, end)) % 256) % 256 == byte_sum(s.take(end)) % 256
                && 0 <= byte_sum(s.subrange(i, end)) % 256 < 256 && 0 <= chk < 256
        }),
{
    let end = scan_field(s, i)->Found_end;
    lemma_scan_field_bounds(s, i);
    assert(s.take(i) + s.subrange(i, end) =~= s.take(end));
    lemma_byte_sum_concat(s.take(i), s.subrange(i, end));
    lemma_byte_sum_nonneg(s.take(i));
    lemma_byte_sum_nonneg(s.subrange(i, end));
    vstd::arithmetic::div_mod::lemma_add_mod_noop(
        byte_sum(s.take(i)),
        byte_sum(s.subrange(i, end)),
        256,
    );
}

/// The `tag_value` events of a field list, in order.
pub open spec fn tag_events(fields: Seq<(u32, Seq<u8>)>) -> Seq<crate::fix::FixEvent> {
    fields.map_values(|p: (u32, Seq<u8>)| crate::fix::FixEvent::Tag(p.0, p.1))
}

/// The callbacks one complete message produces on a sink: start, one tag
/// per body field, and done carrying the checksum verdict.
pub open spec fn message_events(
    msg_type: Seq<u8>,
    fields: Seq<(u32, Seq<u8>)>,
    ok: bool,
) -> Seq<crate::fix::FixEvent> {
    seq![crate::fix::FixEvent::Start(crate::fix::spec_msg_type_of(msg_type), true)]
        + tag_events(fields) + seq![crate::fix::FixEvent::Done(ok)]
}

/// The callbacks a parsed frame produces on a sink.
pub open spec fn events_of_frame(f: FixFrame) -> Seq<crate::fix::FixEvent> {
    message_events(f.msg_type@, fields_view(f.fields@), f.checksum_ok)
}

/// Replay a parsed message to a sink: start, each body field in order, then
/// done with the checksum verdict.
pub fn replay_frame<T: crate::fix::FixStream>(frame: &FixFrame, fmh: &mut T)
    ensures
        final(fmh).events() == old(fmh).events() + events_of_frame(*frame),
{
    let ghost base = fmh.events();
    let mt = crate::fix::FixMsgType::from_bytes(frame.msg_type.as_slice());
    fmh.fix_message_start(mt, true);
    let mut i: usize = 0;
    proof {
        assert(tag_events(fields_view(frame.fields@).take(0)) =~= Seq::<
            crate::fix::FixEvent,
        >::empty());
        assert(fmh.events() =~= base + seq![
            crate::fix::FixEvent::Start(crate::fix::spec_msg_type_of(frame.msg_type@), true),
        ] + tag_events(fields_view(frame.fields@).take(0)));
    }
    while i < frame.fields.len()
        invariant
            i <= frame.fields.len(),
            fmh.events() == base + seq![
                crate::fix::FixEvent::Start(
                    crate::fix::spec_msg_type_of(frame.msg_type@),
                    true,
                ),
            ] + tag_events(fields_view(frame.fields@).take(i as int)),
        decreases frame.fields.len() - i,
    {
        let p = vstd::std_specs::vec::vec_index(&frame.fields, i);
        fmh.tag_value(p.0, p.1.as_slice());
        i = i + 1;
        proof {
            assert(tag_events(fields_view(frame.fields@).take(i as int)) =~= tag_events(
                fields_view(frame.fields@).take(i - 1),
            ).push(crate::fix::FixEvent::Tag(frame.fields@[i - 1].0, frame.fields@[i - 1].1@)));
        }
    }
    if frame.checksum_ok {
        fmh.fix_message_done(Ok(()));
    } else {
        fmh.fix_message_done(Err("checksum mismatch".to_owned()));
    }
    proof {
        assert(fields_view(frame.fields@).take(frame.fields@.len() as int) =~= fields_view(
            frame.fields@,
        ));
        assert(fmh.events() =~= base + events_of_frame(*frame));
    }
}

/// Parse one whole message from the head of `buf` and replay it to the
/// sink. `Ok(Some(n))` is a complete, checksum-correct message of `n`
/// bytes; `Ok(None)` means the buffer ends mid-message, and the sink saw
/// nothing; an error is a malformed message, and the sink saw the whole
/// message with a failing done exactly when only its checksum was wrong.
pub fn parse_fix_message<T: crate::fix::FixStream>(buf: &[u8], fmh: &mut T) -> (r: Result<
    Option<usize>,
    FixStreamException,
>)
    requires
        buf@.len() <= SUM_LEN_LIMIT,
    ensures
        match spec_parse_frame(buf@) {
            FrameV::Incomplete => {
                &&& r is Ok
                &&& r->Ok_0 is None
                &&& final(fmh).events() == old(fmh).events()
            },
            FrameV::Misplaced => r is Err && final(fmh).events() == old(fmh).events(),
            FrameV::BadTag => r is Err && final(fmh).events() == old(fmh).events(),
            FrameV::Complete { consumed, msg_type, fields, ok, .. } => {
                &&& final(fmh).events() == old(fmh).events() + seq![
                    crate::fix::FixEvent::Start(crate::fix::spec_msg_type_of(msg_type), true),
                ] + tag_events(fields) + seq![crate::fix::FixEvent::Done(ok)]
                &&& if ok {
                    r is Ok && r->Ok_0 is Some && r->Ok_0->0 == consumed
                } else {
                    r is Err
                }
            },
        },
{
    match parse_fix_frame(buf) {
        Err(e) => Err(e),
        Ok(None) => Ok(None),
        Ok(Some(frame)) => {
            replay_frame(&frame, fmh);
            if frame.checksum_ok {
                Ok(Some(frame.consumed))
            } else {
                Err("checksum mismatch".to_owned())
            }
        },
    }
}

/// The wire bytes of one `tag=value\x01` field.
pub open spec fn encode_field(tag: int, v: Seq<u8>) -> Seq<u8> {
    dec_digits(tag) + seq![EQ] + v + seq![SOH]
}

/// The wire bytes of a field list, in order.
pub open spec fn body_of(fields: Seq<(u32, Seq<u8>)>) -> Seq<u8>
    decreases fields.len(),
{
    if fields.len() == 0 {
        Seq::empty()
    } else {
        body_of(fields.drop_last()) + encode_field(
            fields.last().0 as int,
            fields.last().1,
        )
    }
}

/// The BeginString value this library writes: `FIX.4.2`.
pub open spec fn begin_bytes() -> Seq<u8> {
    seq![70u8, 73u8, 88u8, 46u8, 52u8, 46u8, 50u8]
}

/// The whole frame the writer emits for a message type and field list:
/// header fields 8 and 9, the body (field 35 then the fields), and the
/// checksum field. BodyLength counts the bytes between the SOH closing
/// field 9 and the first byte of field 10; CheckSum is the byte sum of
/// everything before field 10, modulo 256; both are zero-padded to at
/// least three digits.
pub open spec fn encode_msg(mt: Seq<u8>, fields: Seq<(u32, Seq<u8>)>) -> Seq<u8> {
    let body = encode_field(35, mt) + body_of(fields);
    let head = encode_field(8, begin_bytes()) + encode_field(9, pad3(body.len() as int));
    let covered = head + body;
    covered + encode_field(10, pad3(byte_sum(covered) % 256))
}

/// The byte sum of a slice, modulo 256.
fn byte_sum_mod(v: &[u8]) -> (r: u32)
    ensures
        r == byte_sum(v@) % 256,
        r < 256,
{
    let mut i: usize = 0;
    let mut sum: u32 = 0;
    proof {
        assert(v@.take(0) =~= Seq::<u8>::empty());
    }
    while i < v.len()
        invariant
            i <= v.len(),
            sum < 256,
            sum == byte_sum(v@.take(i as int)) % 256,
        decreases v.len() - i,
    {
        let b = *vstd::slice::slice_index_get(v, i);
        proof {
            assert(v@.take(i + 1).drop_last() =~= v@.take(i as int));
            assert(v@.take(i + 1).last() == v@[i as int]);
            lemma_byte_sum_nonneg(v@.take(i as int));
            vstd::arithmetic::div_mod::lemma_add_mod_noop(
                byte_sum(v@.take(i as int)),
                b as int,
                256,
            );
        }
        sum = (sum + b as u32) % 256;
        i = i + 1;
    }
    proof {
        assert(v@.take(i as int) =~= v@);
    }
    sum
}

/// The arithmetic byte sum of a slice short enough for it to fit 32 bits.
fn byte_sum_u32(v: &[u8]) -> (r: u32)
    requires
        v@.len() <= SUM_LEN_LIMIT,
    ensures
        r == byte_sum(v@),
        r <= 255 * v@.len(),
{
    let mut i: usize = 0;
    let mut sum: u32 = 0;
    proof {
        assert(v@.take(0) =~= Seq::<u8>::empty());
    }
    while i < v.len()
        invariant
            i <= v.len(),
            v@.len() <= SUM_LEN_LIMIT,
            sum == byte_sum(v@.take(i as int)),
            sum <= 255 * i,
        decreases v.len() - i,
    {
        let b = *vstd::slice::slice_index_get(v, i);
        proof {
            assert(v@.take(i + 1).drop_last() =~= v@.take(i as int));
            assert(v@.take(i + 1).last() == v@[i as int]);
        }
        sum = sum + b as u32;
        i = i + 1;
    }
    proof {
        assert(v@.take(i as int) =~= v@);
    }
    sum
}

/// Append the decimal digits of `val` to `to`; zero appends no digits.
fn put_dec_digits(val: usize, to: &mut Vec<u8>)
    ensures
        final(to)@ == old(to)@ + dec_digits(val as int),
{
    let ghost base = to@;
    let pos = to.len();
    let mut cur = val;
    let ghost mut suffix = Seq::<u8>::empty();
    proof {
        assert(to@ =~= base + suffix);
    }
    while cur > 0
        invariant
            to@ == base + suffix,
            to@.len() == base.len() + suffix.len(),
            pos == base.len(),
            dec_digits(val as int) == dec_digits(cur as int) + suffix,
        decreases cur,
    {
        let d = (cur % 10) as u8 + 48;
        to.insert(pos, d);
        proof {
            assert(base + suffix =~= base.push(d).drop_last() + suffix);
            assert((base + suffix).insert(pos as int, d) =~= base + (seq![d] + suffix));
            suffix = seq![d] + suffix;
            assert(dec_digits(cur as int) == dec_digits(cur as int / 10).push(d));
            assert(dec_digits(cur as int / 10).push(d) + suffix.drop_first() =~= dec_digits(
                cur as int / 10,
            ) + suffix);
        }
        cur = cur / 10;
    }
    proof {
        assert(dec_digits(cur as int) =~= Seq::<u8>::empty());
        assert(dec_digits(val as int) =~= suffix);
    }
}

/// Append a decimal-encoded tag id and `=` to `to`: the arithmetic sum of
/// the appended bytes and their count.
pub fn put_tag_id_eq(tag_id: u32, to: &mut Vec<u8>) -> (r: (u32, usize))
    ensures
        final(to)@ == old(to)@ + dec_digits(tag_id as int) + seq![EQ],
        r.0 == byte_sum(dec_digits(tag_id as int) + seq![EQ]),
        r.1 == dec_digits(tag_id as int).len() + 1,
{
    let ghost base = to@;
    let pos = to.len();
    put_dec_digits(tag_id as usize, to);
    to.push(EQ);
    proof {
        assert(to@ =~= base + (dec_digits(tag_id as int) + seq![EQ]));
        assert(to@.skip(pos as int) =~= dec_digits(tag_id as int) + seq![EQ]);
        lemma_dec_digits_len10(tag_id as int);
    }
    let sum = byte_sum_u32(vstd::slice::slice_subrange(to.as_slice(), pos, to.len()));
    let n = to.len() - pos;
    (sum, n)
}

/// Append a value and its closing SOH to `to`: the arithmetic sum of the
/// appended bytes, the SOH included, and their count. The value is bounded
/// so that the sum fits its 32-bit result.
pub fn put_tag_val_soh(val: &[u8], to: &mut Vec<u8>) -> (r: (u32, usize))
    requires
        val@.len() < SUM_LEN_LIMIT,
    ensures
        final(to)@ == old(to)@ + val@ + seq![SOH],
        r.0 == byte_sum(val@ + seq![SOH]),
        r.1 == val@.len() + 1,
{
    let pos = to.len();
    let sum = byte_sum_u32(val);
    to.extend_from_slice(val);
    to.push(SOH);
    proof {
        assert(to@ =~= old(to)@ + val@ + seq![SOH]);
        lemma_byte_sum_concat(val@, seq![SOH]);
        assert(byte_sum(seq![SOH]) == 1) by {
            let s1 = seq![SOH];
            assert(s1.len() == 1 && s1.last() == SOH);
            assert(s1.drop_last() =~= Seq::<u8>::empty());
            assert(byte_sum(Seq::<u8>::empty()) == 0);
        }
    }
    let n = to.len() - pos;
    ((sum + 1), n)
}

/// Append a decimal-encoded number and SOH to `to`: the arithmetic sum of
/// the appended bytes, the SOH included, and their count. Zero appends only
/// the SOH.
pub fn put_u32_soh(val: u32, to: &mut Vec<u8>) -> (r: (u32, usize))
    ensures
        final(to)@ == old(to)@ + dec_digits(val as int) + seq![SOH],
        r.0 == byte_sum(dec_digits(val as int) + seq![SOH]),
        r.1 == dec_digits(val as int).len() + 1,
{
    let ghost base = to@;
    let pos = to.len();
    put_dec_digits(val as usize, to);
    to.push(SOH);
    proof {
        assert(to@ =~= base + (dec_digits(val as int) + seq![SOH]));
        assert(to@.skip(pos as int) =~= dec_digits(val as int) + seq![SOH]);
        lemma_dec_digits_len10(val as int);
    }
    let sum = byte_sum_u32(vstd::slice::slice_subrange(to.as_slice(), pos, to.len()));
    let n = to.len() - pos;
    (sum, n)
}

/// Append the zero-padded, at-least-three-digit decimal encoding of `val`.
fn put_pad3(val: usize, to: &mut Vec<u8>)
    ensures
        final(to)@ == old(to)@ + pad3(val as int),
{
    let ghost base = to@;
    proof {
        lemma_dec_digits_len(val as int);
    }
    if val == 0 {
        to.push(48);
        to.push(48);
        to.push(48);
    } else if val < 10 {
        to.push(48);
        to.push(48);
    } else if val < 100 {
        to.push(48);
    }
    put_dec_digits(val, to);
    proof {
        if val == 0 {
            assert(zeros(3 - dec_digits(val as int).len()) =~= seq![48u8, 48u8, 48u8]);
            assert(to@ =~= base + pad3(val as int));
        } else if val < 10 {
            assert(zeros(3 - dec_digits(val as int).len()) =~= seq![48u8, 48u8]);
            assert(to@ =~= base + pad3(val as int));
        } else if val < 100 {
            assert(zeros(3 - dec_digits(val as int).len()) =~= seq![48u8]);
            assert(to@ =~= base + pad3(val as int));
        } else {
            assert(zeros(3 - dec_digits(val as int).len()) =~= Seq::<u8>::empty());
            assert(to@ =~= base + pad3(val as int));
        }
    }
}

/// How many digits a decimal encoding has, by size ranges.
pub proof fn lemma_dec_digits_len(n: int)
    requires
        0 <= n,
    ensures
        n == 0 ==> dec_digits(n).len() == 0,
        0 < n < 10 ==> dec_digits(n).len() == 1,
        10 <= n < 100 ==> dec_digits(n).len() == 2,
        100 <= n < 1000 ==> dec_digits(n).len() == 3,
        n >= 100 ==> dec_digits(n).len() >= 3,
    decreases n,
{
    if n > 0 {
        lemma_dec_digits_len(n / 10);
    }
}


/// The BeginString value this library writes, as a vector.
fn begin_string_vec() -> (r: Vec<u8>)
    ensures
        r@ == begin_bytes(),
{
    let mut r: Vec<u8> = Vec::new();
    r.push(70);
    r.push(73);
    r.push(88);
    r.push(46);
    r.push(52);
    r.push(46);
    r.push(50);
    proof {
        assert(r@ =~= begin_bytes());
    }
    r
}

/// Builds one framed message at a time: `fix_message_start` opens it,
/// `tag_value` appends body fields, and `fix_message_done` frames it with
/// BodyLength and CheckSum and moves it onto the outgoing buffer, which the
/// owner flushes with `get_bytes` and `drain_head`.
pub struct FixMessageWriter {
    buf: Vec<u8>,
    body: Vec<u8>,
    building: bool,
    cur_type: Ghost<Seq<u8>>,
    cur_fields: Ghost<Seq<(u32, Seq<u8>)>>,
}

impl FixMessageWriter {
    /// The framed bytes waiting to be flushed to the transport.
    pub closed spec fn pending(&self) -> Seq<u8> {
        self.buf@
    }

    /// Whether a message is open and taking fields.
    pub closed spec fn is_building(&self) -> bool {
        self.building
    }

    /// The wire bytes of the open message's type.
    pub closed spec fn cur_msg_type(&self) -> Seq<u8> {
        self.cur_type@
    }

    /// The fields of the open message so far.
    pub closed spec fn cur_field_list(&self) -> Seq<(u32, Seq<u8>)> {
        self.cur_fields@
    }

    /// The writer's internal buffer agrees with the fields recorded so far.
    pub closed spec fn wf(&self) -> bool {
        self.building ==> self.body@ == encode_field(35, self.cur_type@) + body_of(
            self.cur_fields@,
        )
    }

    /// A writer with nothing pending and no message open.
    pub fn new() -> (r: FixMessageWriter)
        ensures
            r.wf(),
            !r.is_building(),
            r.pending() == Seq::<u8>::empty(),
    {
        FixMessageWriter {
            buf: Vec::new(),
            body: Vec::new(),
            building: false,
            cur_type: Ghost(Seq::empty()),
            cur_fields: Ghost(Seq::empty()),
        }
    }

    /// The framed bytes waiting to be flushed.
    pub fn get_bytes(&self) -> (r: &[u8])
        ensures
            r@ == self.pending(),
    {
        self.buf.as_slice()
    }

    /// Drop `len` bytes from the head of the outgoing buffer, once the
    /// transport has accepted them.
    pub fn drain_head(&mut self, len: usize)
        requires
            old(self).wf(),
            len <= old(self).pending().len(),
        ensures
            final(self).wf(),
            final(self).pending() == old(self).pending().skip(len as int),
            final(self).is_building() == old(self).is_building(),
            final(self).cur_msg_type() == old(self).cur_msg_type(),
            final(self).cur_field_list() == old(self).cur_field_list(),
    {
        let mut rest: Vec<u8> = Vec::new();
        let mut i: usize = len;
        while i < self.buf.len()
            invariant
                len <= i <= self.buf@.len(),
                rest@ == self.buf@.subrange(len as int, i as int),
            decreases self.buf@.len() - i,
        {
            rest.push(*vstd::std_specs::vec::vec_index(&self.buf, i));
            i = i + 1;
            proof {
                assert(rest@ =~= self.buf@.subrange(len as int, i as int));
            }
        }
        proof {
            assert(rest@ =~= self.buf@.skip(len as int));
        }
        self.buf = rest;
    }

    /// Open a message of the given type: emits nothing yet; the frame is
    /// laid down whole at `fix_message_done`. A message left open is
    /// discarded.
    pub fn fix_message_start(&mut self, msg_type: crate::fix::FixMsgType, is_replayable: bool)
        requires
            old(self).wf(),
            crate::fix::spec_msg_type_bytes(msg_type@).len() < SUM_LEN_LIMIT,
        ensures
            final(self).wf(),
            final(self).is_building(),
            final(self).cur_msg_type() == crate::fix::spec_msg_type_bytes(msg_type@),
            final(self).cur_field_list() == Seq::<(u32, Seq<u8>)>::empty(),
            final(self).pending() == old(self).pending(),
    {
        self.body.clear();
        let mt = msg_type.as_bytes();
        let ghost mtb = crate::fix::spec_msg_type_bytes(msg_type@);
        put_tag_id_eq(35, &mut self.body);
        put_tag_val_soh(mt.as_slice(), &mut self.body);
        self.building = true;
        self.cur_type = Ghost(mtb);
        self.cur_fields = Ghost(Seq::empty());
        proof {
            assert(dec_digits(35) =~= seq![51u8, 53u8]) by {
                assert(dec_digits(35) == dec_digits(3).push(53));
                assert(dec_digits(3) == dec_digits(0).push(51));
                assert(dec_digits(0) =~= Seq::<u8>::empty());
            }
            assert(body_of(Seq::<(u32, Seq<u8>)>::empty()) =~= Seq::<u8>::empty());
            assert(self.body@ =~= encode_field(35, mtb) + body_of(self.cur_fields@));
        }
    }

    /// Append one body field to the open message.
    pub fn tag_value(&mut self, tag: u32, value: &[u8])
        requires
            old(self).wf(),
            old(self).is_building(),
            value@.len() < SUM_LEN_LIMIT,
        ensures
            final(self).wf(),
            final(self).is_building(),
            final(self).cur_msg_type() == old(self).cur_msg_type(),
            final(self).cur_field_list() == old(self).cur_field_list().push((tag, value@)),
            final(self).pending() == old(self).pending(),
    {
        let ghost fs = self.cur_fields@;
        put_tag_id_eq(tag, &mut self.body);
        put_tag_val_soh(value, &mut self.body);
        self.cur_fields = Ghost(fs.push((tag, value@)));
        proof {
            assert(fs.push((tag, value@)).drop_last() =~= fs);
            assert(body_of(fs.push((tag, value@))) == body_of(fs) + encode_field(
                tag as int,
                value@,
            ));
            assert(self.body@ =~= encode_field(35, self.cur_type@) + body_of(
                fs.push((tag, value@)),
            ));
        }
    }

    /// Close the open message: prepend the header fields 8 and 9 (the
    /// latter holding the body length), append the checksum field, and move
    /// the whole frame onto the outgoing buffer.
    pub fn fix_message_done(&mut self, res: Result<(), FixStreamException>)
        requires
            old(self).wf(),
            old(self).is_building(),
        ensures
            final(self).wf(),
            !final(self).is_building(),
            final(self).pending() == old(self).pending() + encode_msg(
                old(self).cur_msg_type(),
                old(self).cur_field_list(),
            ),
    {
        let ghost mt = self.cur_type@;
        let ghost fields = self.cur_fields@;
        let ghost bodyv = self.body@;
        let ghost pending0 = self.buf@;
        let blen = self.body.len();
        let mut head: Vec<u8> = Vec::new();
        put_tag_id_eq(8, &mut head);
        let begin = begin_string_vec();
        put_tag_val_soh(begin.as_slice(), &mut head);
        put_tag_id_eq(9, &mut head);
        put_pad3(blen, &mut head);
        head.push(SOH);
        proof {
            assert(dec_digits(8) =~= seq![56u8]) by {
                assert(dec_digits(8) == dec_digits(0).push(56));
                assert(dec_digits(0) =~= Seq::<u8>::empty());
            }
            assert(dec_digits(9) =~= seq![57u8]) by {
                assert(dec_digits(9) == dec_digits(0).push(57));
                assert(dec_digits(0) =~= Seq::<u8>::empty());
            }
            assert(head@ =~= encode_field(8, begin_bytes()) + encode_field(
                9,
                pad3(blen as int),
            ));
        }
        let hsum = byte_sum_mod(head.as_slice());
        let bsum = byte_sum_mod(self.body.as_slice());
        let sum = (hsum + bsum) % 256;
        let ghost covered = head@ + bodyv;
        proof {
            lemma_byte_sum_concat(head@, bodyv);
            lemma_byte_sum_nonneg(head@);
            lemma_byte_sum_nonneg(bodyv);
            vstd::arithmetic::div_mod::lemma_add_mod_noop(byte_sum(head@), byte_sum(bodyv), 256);
            assert(sum == byte_sum(covered) % 256);
        }
        self.buf.append(&mut head);
        self.buf.append(&mut self.body);
        put_tag_id_eq(10, &mut self.buf);
        put_pad3(sum as usize, &mut self.buf);
        self.buf.push(SOH);
        self.building = false;
        self.cur_fields = Ghost(Seq::empty());
        proof {
            assert(dec_digits(10) =~= seq![49u8, 48u8]) by {
                assert(dec_digits(10) == dec_digits(1).push(48));
                assert(dec_digits(1) == dec_digits(0).push(49));
                assert(dec_digits(0) =~= Seq::<u8>::empty());
            }
            assert(self.buf@ =~= pending0 + encode_msg(mt, fields));
        }
    }
}

/// The digits of a decimal encoding are digits.
pub proof fn lemma_dec_digits_all_digits(n: int)
    requires
        0 <= n,
    ensures
        all_digits(dec_digits(n)),
    decreases n,
{
    if n > 0 {
        lemma_dec_digits_all_digits(n / 10);
        assert(forall|q: int|
            0 <= q < dec_digits(n).len() ==> is_digit(#[trigger] dec_digits(n)[q]));
    }
}

/// Folding one more digit onto a decimal value multiplies it by ten.
pub proof fn lemma_dec_value_acc_push(ds: Seq<u8>, d: u8, acc: int)
    ensures
        dec_value_acc(ds.push(d), acc) == dec_value_acc(ds, acc) * 10 + (d - 48),
    decreases ds.len(),
{
    if ds.len() == 0 {
        assert(ds.push(d).first() == d);
        assert(ds.push(d).drop_first() =~= Seq::<u8>::empty());
        assert(dec_value_acc(ds.push(d), acc) == dec_value_acc(
            Seq::<u8>::empty(),
            acc * 10 + (d - 48),
        ));
    } else {
        assert(ds.push(d).first() == ds.first());
        assert(ds.push(d).drop_first() =~= ds.drop_first().push(d));
        let acc2 = acc * 10 + (ds.first() - 48);
        lemma_dec_value_acc_push(ds.drop_first(), d, acc2);
        assert(dec_value_acc(ds.push(d), acc) == dec_value_acc(ds.drop_first().push(d), acc2));
        assert(dec_value_acc(ds, acc) == dec_value_acc(ds.drop_first(), acc2));
    }
}

/// Decimal encoding and decimal value are inverse.
pub proof fn lemma_dec_value_of_digits(n: int)
    requires
        0 <= n,
    ensures
        dec_value(dec_digits(n)) == n,
    decreases n,
{
    if n > 0 {
        lemma_dec_value_of_digits(n / 10);
        lemma_dec_value_acc_push(dec_digits(n / 10), (48 + n % 10) as u8, 0);
    }
}

/// Leading zeros do not change a decimal value.
pub proof fn lemma_dec_value_zeros(k: int, ds: Seq<u8>)
    ensures
        dec_value(zeros(k) + ds) == dec_value(ds),
    decreases k,
{
    if k <= 0 {
        assert(zeros(k) + ds =~= ds);
    } else {
        assert((zeros(k) + ds).first() == 48);
        assert((zeros(k) + ds).drop_first() =~= zeros(k - 1) + ds);
        lemma_dec_value_zeros(k - 1, ds);
    }
}

/// The padded encoding reads back as the number itself, in digits only.
pub proof fn lemma_pad3_value(n: int)
    requires
        0 <= n,
    ensures
        dec_value(pad3(n)) == n,
        all_digits(pad3(n)),
        forall|q: int| 0 <= q < pad3(n).len() ==> #[trigger] pad3(n)[q] != SOH,
        forall|q: int| 0 <= q < pad3(n).len() ==> #[trigger] pad3(n)[q] != EQ,
        pad3(n).len() >= 3,
{
    lemma_dec_value_zeros(3 - dec_digits(n).len(), dec_digits(n));
    lemma_dec_value_of_digits(n);
    lemma_dec_digits_all_digits(n);
    assert(forall|q: int| 0 <= q < pad3(n).len() ==> is_digit(#[trigger] pad3(n)[q]));
}

/// A decimal fold onto a non-negative accumulator of digits never shrinks.
pub proof fn lemma_dec_value_acc_grows(ds: Seq<u8>, acc: int)
    requires
        all_digits(ds),
        0 <= acc,
    ensures
        dec_value_acc(ds, acc) >= acc,
    decreases ds.len(),
{
    if ds.len() > 0 {
        assert(is_digit(ds[0]));
        assert(all_digits(ds.drop_first())) by {
            assert(forall|q: int|
                0 <= q < ds.drop_first().len() ==> #[trigger] ds.drop_first()[q] == ds[q + 1]);
        }
        lemma_dec_value_acc_grows(ds.drop_first(), acc * 10 + (ds.first() - 48));
    }
}

/// Scanning a run of digits that ends in `=` yields their folded value.
proof fn lemma_scan_digits(s: Seq<u8>, j: int, ds: Seq<u8>, acc: int)
    requires
        0 <= j,
        j + ds.len() < s.len(),
        forall|q: int| 0 <= q < ds.len() ==> s[j + q] == #[trigger] ds[q],
        s[j + ds.len()] == EQ,
        all_digits(ds),
        0 <= acc,
        dec_value_acc(ds, acc) <= u32::MAX,
    ensures
        (scan_tag_from(s, j, acc) == TagScan::Found {
            id: dec_value_acc(ds, acc),
            end: j + ds.len() + 1,
        }),
    decreases ds.len(),
{
    if ds.len() == 0 {
        assert(s[j] == EQ);
    } else {
        assert(s[j] == ds[0]);
        assert(is_digit(ds[0]));
        assert(ds[0] != EQ);
        let acc2 = acc * 10 + (ds.first() - 48);
        assert(all_digits(ds.drop_first())) by {
            assert(forall|q: int|
                0 <= q < ds.drop_first().len() ==> #[trigger] ds.drop_first()[q] == ds[q + 1]);
        }
        lemma_dec_value_acc_grows(ds.drop_first(), acc2);
        assert(acc2 <= u32::MAX);
        assert(forall|q: int|
            0 <= q < ds.drop_first().len() ==> s[j + 1 + q] == #[trigger] ds.drop_first()[q]);
        lemma_scan_digits(s, j + 1, ds.drop_first(), acc2);
    }
}

/// The first SOH after `j` is the one placed there.
proof fn lemma_find_soh_at(s: Seq<u8>, j: int, k: int)
    requires
        0 <= j <= k < s.len(),
        forall|q: int| j <= q < k ==> s[q] != SOH,
        s[k] == SOH,
    ensures
        find_soh(s, j) == Some(k),
    decreases k - j,
{
    if j < k {
        lemma_find_soh_at(s, j + 1, k);
    }
}

/// No byte of a value written on the wire is an SOH.
pub open spec fn soh_free(v: Seq<u8>) -> bool {
    forall|q: int| 0 <= q < v.len() ==> #[trigger] v[q] != SOH
}

/// Scanning at a position where an encoded field was laid down finds
/// exactly that field.
proof fn lemma_scan_encoded_field(s: Seq<u8>, i: int, tag: int, v: Seq<u8>)
    requires
        0 <= i,
        0 <= tag <= u32::MAX,
        soh_free(v),
        i + encode_field(tag, v).len() <= s.len(),
        s.subrange(i, i + encode_field(tag, v).len()) == encode_field(tag, v),
    ensures
        (scan_field(s, i) == FieldScan::Found {
            id: tag,
            vstart: i + dec_digits(tag).len() + 1,
            vend: i + dec_digits(tag).len() + 1 + v.len(),
            end: i + encode_field(tag, v).len(),
        }),
        s.subrange(
            i + dec_digits(tag).len() + 1,
            i + dec_digits(tag).len() + 1 + v.len() as int,
        ) == v,
{
    let ds = dec_digits(tag);
    let enc = encode_field(tag, v);
    let flen = enc.len();
    lemma_dec_digits_all_digits(tag);
    lemma_dec_value_of_digits(tag);
    assert forall|q: int| 0 <= q < flen implies s[i + q] == enc[q] by {
        assert(s.subrange(i, i + flen)[q] == s[i + q]);
    }
    assert forall|q: int| 0 <= q < ds.len() implies s[i + q] == #[trigger] ds[q] by {
        assert(enc[q] == ds[q]);
    }
    assert(s[i + ds.len()] == EQ) by {
        assert(enc[ds.len() as int] == EQ);
    }
    lemma_scan_digits(s, i, ds, 0);
    let te = i + ds.len() + 1;
    assert forall|q: int| 0 <= q < v.len() implies s[te + q] == #[trigger] v[q] by {
        assert(enc[ds.len() as int + 1 + q] == v[q]);
    }
    assert forall|q: int| te <= q < te + v.len() implies s[q] != SOH by {
        assert(s[q] == v[q - te]);
    }
    assert(s[te + v.len()] == SOH) by {
        assert(enc[ds.len() as int + 1 + v.len() as int] == SOH);
    }
    lemma_find_soh_at(s, te, te + v.len());
    assert(scan_tag_from(s, i, 0) == TagScan::Found { id: tag, end: te });
    assert forall|q: int|
        0 <= q < v.len() implies s.subrange(te, te + v.len() as int)[q] == v[q] by {
        assert(s.subrange(te, te + v.len() as int)[q] == s[te + q]);
    }
    assert(s.subrange(te, te + v.len() as int) =~= v);
}

/// Values that may be written as a message body: no checksum tag, and no
/// separator byte inside any value.
pub open spec fn wire_fields_ok(fields: Seq<(u32, Seq<u8>)>) -> bool {
    forall|q: int|
        0 <= q < fields.len() ==> (#[trigger] fields[q]).0 != 10 && soh_free(fields[q].1)
}

/// Cutting the tail of a buffer at the seam of a concatenation gives back
/// the two parts.
proof fn lemma_concat_parts(s: Seq<u8>, i: int, a: Seq<u8>, b: Seq<u8>)
    requires
        0 <= i <= s.len(),
        s.subrange(i, s.len() as int) == a + b,
    ensures
        i + a.len() + b.len() == s.len(),
        s.subrange(i, i + a.len() as int) == a,
        s.subrange(i + a.len() as int, s.len() as int) == b,
{
    let t = s.subrange(i, s.len() as int);
    assert((a + b).len() == a.len() + b.len());
    assert(t.len() == s.len() - i);
    assert forall|q: int|
        0 <= q < a.len() implies s.subrange(i, i + a.len() as int)[q] == a[q] by {
        assert(t[q] == s[i + q]);
        assert(s.subrange(i, i + a.len() as int)[q] == s[i + q]);
        assert(t[q] == (a + b)[q]);
    }
    assert(s.subrange(i, i + a.len() as int) =~= a);
    assert forall|q: int|
        0 <= q < b.len() implies s.subrange(i + a.len() as int, s.len() as int)[q] == b[q] by {
        assert(t[a.len() + q] == s[i + a.len() + q]);
        assert(s.subrange(i + a.len() as int, s.len() as int)[q] == s[i + a.len() + q]);
        assert(t[a.len() + q] == (a + b)[a.len() + q]);
    }
    assert(s.subrange(i + a.len() as int, s.len() as int) =~= b);
}

/// A field list's wire bytes start with its first field's wire bytes.
proof fn lemma_body_of_first(fields: Seq<(u32, Seq<u8>)>)
    requires
        fields.len() > 0,
    ensures
        body_of(fields) == encode_field(fields.first().0 as int, fields.first().1) + body_of(
            fields.drop_first(),
        ),
    decreases fields.len(),
{
    if fields.len() == 1 {
        assert(fields.drop_last() =~= Seq::<(u32, Seq<u8>)>::empty());
        assert(fields.drop_first() =~= Seq::<(u32, Seq<u8>)>::empty());
        assert(body_of(Seq::<(u32, Seq<u8>)>::empty()) == Seq::<u8>::empty());
        assert(body_of(fields) =~= encode_field(fields.first().0 as int, fields.first().1)
            + body_of(fields.drop_first()));
    } else {
        lemma_body_of_first(fields.drop_last());
        assert(fields.drop_last().first() == fields.first());
        assert(fields.drop_last().drop_first() =~= fields.drop_first().drop_last());
        assert(fields.drop_first().last() == fields.last());
        assert(body_of(fields) == body_of(fields.drop_last()) + encode_field(
            fields.last().0 as int,
            fields.last().1,
        ));
        assert(body_of(fields.drop_first()) == body_of(fields.drop_first().drop_last())
            + encode_field(fields.last().0 as int, fields.last().1));
        assert(body_of(fields) =~= encode_field(fields.first().0 as int, fields.first().1)
            + body_of(fields.drop_first()));
    }
}

/// Scanning a buffer whose tail holds a field list and then a checksum
/// field collects exactly those fields and stops at the checksum field.
proof fn lemma_scan_body_encoded(
    s: Seq<u8>,
    i: int,
    fields: Seq<(u32, Seq<u8>)>,
    chk: int,
    done: Seq<(u32, Seq<u8>)>,
)
    requires
        0 <= i <= s.len(),
        0 <= chk,
        wire_fields_ok(fields),
        s.subrange(i, s.len() as int) == body_of(fields) + encode_field(10, pad3(chk)),
    ensures
        (scan_body(s, i, done) == BodyScanV::Done {
            consumed: s.len() as int,
            fields: done + fields,
            claimed: pad3(chk),
            cov: s.len() - encode_field(10, pad3(chk)).len(),
        }),
    decreases fields.len(),
{
    lemma_pad3_value(chk);
    if fields.len() == 0 {
        assert(body_of(fields) == Seq::<u8>::empty());
        let enc10 = encode_field(10, pad3(chk));
        assert(s.subrange(i, s.len() as int) =~= enc10);
        assert(i + enc10.len() == s.len());
        assert(soh_free(pad3(chk)));
        lemma_scan_encoded_field(s, i, 10, pad3(chk));
        assert(done + fields =~= done);
    } else {
        let f0 = fields.first();
        let enc0 = encode_field(f0.0 as int, f0.1);
        let rest = body_of(fields.drop_first()) + encode_field(10, pad3(chk));
        lemma_body_of_first(fields);
        assert(s.subrange(i, s.len() as int) =~= enc0 + rest);
        lemma_concat_parts(s, i, enc0, rest);
        assert(f0.0 != 10 && soh_free(f0.1));
        lemma_scan_encoded_field(s, i, f0.0 as int, f0.1);
        let e0 = i + enc0.len() as int;
        assert(wire_fields_ok(fields.drop_first())) by {
            assert(forall|q: int|
                0 <= q < fields.drop_first().len() ==> #[trigger] fields.drop_first()[q]
                    == fields[q + 1]);
        }
        lemma_scan_body_encoded(s, e0, fields.drop_first(), chk, done.push((f0.0, f0.1)));
        assert(done.push((f0.0, f0.1)) + fields.drop_first() =~= done + fields);
        let f = scan_field(s, i);
        assert((f->Found_id as u32, s.subrange(f->Found_vstart, f->Found_vend)) == f0);
    }
}

/// Round-trip: a message written for any type and any field list free of
/// the separator byte and the checksum tag parses back whole, with the
/// same type, the same fields in the same order, and a matching checksum.
/// Where each field of a written frame lies in it.
proof fn lemma_msg_seams(mt: Seq<u8>, fields: Seq<(u32, Seq<u8>)>)
    ensures
        ({
            let m = encode_msg(mt, fields);
            let body = encode_field(35, mt) + body_of(fields);
            let enc8 = encode_field(8, begin_bytes());
            let enc9 = encode_field(9, pad3(body.len() as int));
            let enc35 = encode_field(35, mt);
            let covered = (enc8 + enc9) + body;
            let trailer = encode_field(10, pad3(byte_sum(covered) % 256));
            let e8 = enc8.len() as int;
            let e9 = e8 + enc9.len() as int;
            let e35 = e9 + enc35.len() as int;
            &&& m.len() == enc8.len() + enc9.len() + enc35.len() + body_of(fields).len()
                + trailer.len()
            &&& m.subrange(0, e8) == enc8
            &&& m.subrange(e8, e9) == enc9
            &&& m.subrange(e9, e35) == enc35
            &&& m.subrange(e35, m.len() as int) == body_of(fields) + trailer
            &&& m.take(m.len() - trailer.len()) == covered
        }),
{
    let m = encode_msg(mt, fields);
    let body = encode_field(35, mt) + body_of(fields);
    let enc8 = encode_field(8, begin_bytes());
    let enc9 = encode_field(9, pad3(body.len() as int));
    let enc35 = encode_field(35, mt);
    let head = enc8 + enc9;
    let covered = head + body;
    let trailer = encode_field(10, pad3(byte_sum(covered) % 256));
    assert(m == covered + trailer);
    let r3 = body_of(fields) + trailer;
    let r2 = enc35 + r3;
    let r1 = enc9 + r2;
    assert(body + trailer =~= r2);
    assert(covered + trailer =~= head + (body + trailer));
    assert(head + r2 =~= enc8 + r1);
    assert(m == enc8 + r1);
    assert(m.subrange(0, m.len() as int) =~= m);
    lemma_concat_parts(m, 0, enc8, r1);
    let e8 = enc8.len() as int;
    lemma_concat_parts(m, e8, enc9, r2);
    let e9 = e8 + enc9.len() as int;
    lemma_concat_parts(m, e9, enc35, r3);
    assert(m.take(m.len() - trailer.len()) =~= covered);
}

/// Round-trip: a message written for any type and any field list free of
/// the separator byte and the checksum tag parses back whole, with the
/// same type, the same fields in the same order, and a matching checksum.
#[verifier::rlimit(100)]
pub proof fn lemma_write_parse_round_trip(mt: Seq<u8>, fields: Seq<(u32, Seq<u8>)>)
    requires
        soh_free(mt),
        wire_fields_ok(fields),
    ensures
        ({
            let m = encode_msg(mt, fields);
            let body = encode_field(35, mt) + body_of(fields);
            let head = encode_field(8, begin_bytes()) + encode_field(
                9,
                pad3(body.len() as int),
            );
            spec_parse_frame(m) == FrameV::Complete {
                consumed: m.len() as int,
                begin: begin_bytes(),
                msg_type: mt,
                fields: fields,
                computed: byte_sum(head + body) % 256,
                ok: true,
            }
        }),
{
    let m = encode_msg(mt, fields);
    let body = encode_field(35, mt) + body_of(fields);
    let blen = body.len() as int;
    let enc8 = encode_field(8, begin_bytes());
    let enc9 = encode_field(9, pad3(blen));
    let enc35 = encode_field(35, mt);
    let head = enc8 + enc9;
    let covered = head + body;
    let chk = byte_sum(covered) % 256;
    let trailer = encode_field(10, pad3(chk));
    lemma_byte_sum_nonneg(covered);
    lemma_pad3_value(blen);
    lemma_pad3_value(chk);
    assert(soh_free(begin_bytes())) by {
        let b = begin_bytes();
        assert(b[0] == 70 && b[1] == 73 && b[2] == 88 && b[3] == 46 && b[4] == 52 && b[5]
            == 46 && b[6] == 50);
    }
    lemma_msg_seams(mt, fields);
    let e8 = enc8.len() as int;
    let e9 = e8 + enc9.len() as int;
    let e35 = e9 + enc35.len() as int;
    lemma_scan_encoded_field(m, 0, 8, begin_bytes());
    lemma_scan_encoded_field(m, e8, 9, pad3(blen));
    lemma_scan_encoded_field(m, e9, 35, mt);
    lemma_scan_body_encoded(m, e35, fields, chk, Seq::empty());
    assert(Seq::<(u32, Seq<u8>)>::empty() + fields =~= fields);
    assert(m.take(m.len() - trailer.len()) == covered);
}

/// Checksum correctness of written messages: the claimed checksum is the
/// byte sum of the frame up to the last seven bytes (the checksum field
/// itself), modulo 256, and the parser accepts it.
pub proof fn lemma_written_checksum(mt: Seq<u8>, fields: Seq<(u32, Seq<u8>)>)
    requires
        soh_free(mt),
        wire_fields_ok(fields),
    ensures
        ({
            let m = encode_msg(mt, fields);
            &&& spec_parse_frame(m) is Complete
            &&& spec_parse_frame(m)->Complete_ok
            &&& spec_parse_frame(m)->Complete_computed == byte_sum(m.take(m.len() - 7)) % 256
        }),
{
    let m = encode_msg(mt, fields);
    let body = encode_field(35, mt) + body_of(fields);
    let head = encode_field(8, begin_bytes()) + encode_field(9, pad3(body.len() as int));
    let covered = head + body;
    let chk = byte_sum(covered) % 256;
    lemma_write_parse_round_trip(mt, fields);
    lemma_byte_sum_nonneg(covered);
    lemma_pad3_value(chk);
    lemma_dec_digits_len(chk);
    assert(pad3(chk).len() == 3);
    assert(dec_digits(10) =~= seq![49u8, 48u8]) by {
        assert(dec_digits(10) == dec_digits(1).push(48));
        assert(dec_digits(1) == dec_digits(0).push(49));
        assert(dec_digits(0) =~= Seq::<u8>::empty());
    }
    assert(encode_field(10, pad3(chk)).len() == 7);
    assert(m.take(m.len() - 7) =~= covered);
}

/// Body-length correctness of written messages: the value written in tag 9
/// is the decimal count of the bytes between the SOH that closes field 9
/// and the first byte of field 10.
pub proof fn lemma_written_body_length(mt: Seq<u8>, fields: Seq<(u32, Seq<u8>)>)
    requires
        soh_free(mt),
        wire_fields_ok(fields),
    ensures
        ({
            let m = encode_msg(mt, fields);
            let body = encode_field(35, mt) + body_of(fields);
            let head = encode_field(8, begin_bytes()) + encode_field(
                9,
                pad3(body.len() as int),
            );
            &&& dec_value(pad3(body.len() as int)) == body.len()
            &&& m.len() - 7 - head.len() == body.len()
            &&& m.subrange(head.len() as int, m.len() - 7) == body
        }),
{
    let m = encode_msg(mt, fields);
    let body = encode_field(35, mt) + body_of(fields);
    let head = encode_field(8, begin_bytes()) + encode_field(9, pad3(body.len() as int));
    let covered = head + body;
    let chk = byte_sum(covered) % 256;
    lemma_byte_sum_nonneg(covered);
    lemma_pad3_value(body.len() as int);
    lemma_pad3_value(chk);
    lemma_dec_digits_len(chk);
    assert(dec_digits(10) =~= seq![49u8, 48u8]) by {
        assert(dec_digits(10) == dec_digits(1).push(48));
        assert(dec_digits(1) == dec_digits(0).push(49));
        assert(dec_digits(0) =~= Seq::<u8>::empty());
    }
    assert(encode_field(10, pad3(chk)).len() == 7);
    assert(m.subrange(head.len() as int, m.len() - 7) =~= body);
}

/// Scanning a tag id in a cut-off copy of the buffer: a scan that fit
/// within the cut is unchanged, and one that went past it runs out.
proof fn lemma_scan_tag_prefix(s: Seq<u8>, k: int, j: int, id: int)
    requires
        0 <= j <= k <= s.len(),
        0 <= id <= u32::MAX,
    ensures
        match scan_tag_from(s, j, id) {
            TagScan::Incomplete => scan_tag_from(s.take(k), j, id) is Incomplete,
            TagScan::Invalid => !(scan_tag_from(s.take(k), j, id) is Found),
            TagScan::Found { id: d, end } => if end <= k {
                (scan_tag_from(s.take(k), j, id) == TagScan::Found { id: d, end })
            } else {
                scan_tag_from(s.take(k), j, id) is Incomplete
            },
        },
    decreases s.len() - j,
{
    assert(s.take(k).len() == k);
    if scan_tag_from(s, j, id) is Found {
        lemma_scan_tag_bounds(s, j, id);
    }
    if j < k {
        assert(s.take(k)[j] == s[j]);
        let b = s[j];
        if b != EQ && is_digit(b) && id * 10 + (b - 48) <= u32::MAX {
            lemma_scan_tag_prefix(s, k, j + 1, id * 10 + (b - 48));
        }
    }
}

/// Finding the first SOH in a cut-off copy of the buffer: one found before
/// the cut is unchanged; otherwise the search runs out.
proof fn lemma_find_soh_prefix(s: Seq<u8>, k: int, j: int)
    requires
        0 <= j <= k <= s.len(),
    ensures
        match find_soh(s, j) {
            Option::None => find_soh(s.take(k), j) is None,
            Option::Some(p) => if p < k {
                find_soh(s.take(k), j) == Some(p)
            } else {
                find_soh(s.take(k), j) is None
            },
        },
    decreases s.len() - j,
{
    assert(s.take(k).len() == k);
    if find_soh(s, j) is Some {
        lemma_find_soh_bounds(s, j);
    }
    if j < k {
        assert(s.take(k)[j] == s[j]);
        if s[j] != SOH {
            lemma_find_soh_prefix(s, k, j + 1);
        }
    }
}

/// Scanning a field in a cut-off copy of the buffer: a field that fit
/// within the cut is unchanged, and one cut in the middle runs out.
proof fn lemma_scan_field_prefix(s: Seq<u8>, k: int, i: int)
    requires
        0 <= i <= k <= s.len(),
    ensures
        match scan_field(s, i) {
            FieldScan::Incomplete => scan_field(s.take(k), i) is Incomplete,
            FieldScan::Invalid => !(scan_field(s.take(k), i) is Found),
            FieldScan::Found { id, vstart, vend, end } => if end <= k {
                (scan_field(s.take(k), i) == FieldScan::Found { id, vstart, vend, end })
            } else {
                scan_field(s.take(k), i) is Incomplete
            },
        },
{
    lemma_scan_tag_prefix(s, k, i, 0);
    match scan_tag_from(s, i, 0) {
        TagScan::Incomplete => {},
        TagScan::Invalid => {},
        TagScan::Found { id, end: te } => {
            lemma_scan_tag_bounds(s, i, 0);
            if find_soh(s, te) is Some {
                lemma_find_soh_bounds(s, te);
            }
            if te <= k {
                lemma_find_soh_prefix(s, k, te);
            }
        },
    }
}

/// Scanning the body in a cut-off copy of the buffer that ends before the
/// checksum field is complete runs out.
proof fn lemma_scan_body_prefix(s: Seq<u8>, k: int, i: int, fs: Seq<(u32, Seq<u8>)>)
    requires
        0 <= i <= k <= s.len(),
        scan_body(s, i, fs) is Done,
        scan_body(s, i, fs)->Done_consumed > k,
    ensures
        scan_body(s.take(k), i, fs) is Incomplete,
    decreases s.len() - i,
{
    lemma_scan_field_prefix(s, k, i);
    match scan_field(s, i) {
        FieldScan::Incomplete => {},
        FieldScan::Invalid => {},
        FieldScan::Found { id, vstart, vend, end } => {
            lemma_scan_field_bounds(s, i);
            if id == 10 {
                assert(end > k);
            } else {
                if end <= k {
                    assert(s.take(k).subrange(vstart, vend) =~= s.subrange(vstart, vend));
                    lemma_scan_body_prefix(s, k, end, fs.push((id as u32, s.subrange(
                        vstart,
                        vend,
                    ))));
                }
            }
        },
    }
}

/// Restartability: cutting off any number of bytes from the tail of a
/// buffer that parses as one complete message leaves a buffer on which the
/// parser reports an incomplete message, consuming nothing and calling
/// nothing on the sink; parsing the full buffer again is unchanged, as the
/// parser holds no state between calls.
pub proof fn lemma_parse_prefix_incomplete(s: Seq<u8>, k: int)
    requires
        spec_parse_frame(s) is Complete,
        0 <= k < spec_parse_frame(s)->Complete_consumed,
    ensures
        spec_parse_frame(s.take(k)) is Incomplete,
{
    let f8 = scan_field(s, 0);
    lemma_scan_field_bounds(s, 0);
    let e8 = f8->Found_end;
    let f9 = scan_field(s, e8);
    lemma_scan_field_bounds(s, e8);
    let e9 = f9->Found_end;
    let f35 = scan_field(s, e9);
    lemma_scan_field_bounds(s, e9);
    let e35 = f35->Found_end;
    let consumed = spec_parse_frame(s)->Complete_consumed;
    lemma_scan_body_consumed_bounds(s, e35, Seq::empty());
    lemma_scan_field_prefix(s, k, 0);
    if e8 <= k {
        lemma_scan_field_prefix(s, k, e8);
        if e9 <= k {
            lemma_scan_field_prefix(s, k, e9);
            if e35 <= k {
                lemma_scan_body_prefix(s, k, e35, Seq::empty());
            }
        }
    }
}

/// A finished body scan never claims more bytes than the buffer holds, nor
/// fewer than it started at.
proof fn lemma_scan_body_consumed_bounds(s: Seq<u8>, i: int, fs: Seq<(u32, Seq<u8>)>)
    requires
        0 <= i <= s.len(),
        scan_body(s, i, fs) is Done,
    ensures
        i < scan_body(s, i, fs)->Done_consumed <= s.len(),
    decreases s.len() - i,
{
    match scan_field(s, i) {
        FieldScan::Incomplete => {},
        FieldScan::Invalid => {},
        FieldScan::Found { id, vstart, vend, end } => {
            lemma_scan_field_bounds(s, i);
            if id != 10 {
                lemma_scan_body_consumed_bounds(s, end, fs.push((id as u32, s.subrange(
                    vstart,
                    vend,
                ))));
            }
        },
    }
}

/// Whether two byte slices hold the same bytes.
pub fn bytes_eq(a: &[u8], b: &[u8]) -> (r: bool)
    ensures
        r == (a@ == b@),
{
    if a.len() != b.len() {
        proof {
            assert(a@.len() != b@.len());
        }
        return false;
    }
    let mut i: usize = 0;
    while i < a.len()
        invariant
            i <= a.len(),
            a@.len() == b@.len(),
            forall|q: int| 0 <= q < i ==> a@[q] == b@[q],
        decreases a.len() - i,
    {
        if *vstd::slice::slice_index_get(a, i) != *vstd::slice::slice_index_get(b, i) {
            return false;
        }
        i = i + 1;
    }
    proof {
        assert(a@ =~= b@);
    }
    true
}

/// The value of the first field with the given tag, if any.
pub open spec fn find_tag_value(fields: Seq<(u32, Seq<u8>)>, tag: u32) -> Option<Seq<u8>>
    decreases fields.len(),
{
    if fields.len() == 0 {
        None
    } else if fields.first().0 == tag {
        Some(fields.first().1)
    } else {
        find_tag_value(fields.drop_first(), tag)
    }
}

/// Look up the value of the first field with the given tag, copied out.
pub fn get_tag_value_of(fields: &Vec<(u32, Vec<u8>)>, tag: u32) -> (r: Option<Vec<u8>>)
    ensures
        match find_tag_value(fields_view(fields@), tag) {
            Option::None => r is None,
            Option::Some(v) => r is Some && (r->0)@ == v,
        },
{
    let mut i: usize = 0;
    proof {
        assert(fields_view(fields@).skip(0) =~= fields_view(fields@));
    }
    while i < fields.len()
        invariant
            i <= fields@.len(),
            find_tag_value(fields_view(fields@), tag) == find_tag_value(
                fields_view(fields@).skip(i as int),
                tag,
            ),
        decreases fields@.len() - i,
    {
        let p = vstd::std_specs::vec::vec_index(fields, i);
        proof {
            assert(fields_view(fields@).skip(i as int).first() == (
                fields@[i as int].0,
                fields@[i as int].1@,
            ));
            assert(fields_view(fields@).skip(i as int).drop_first() =~= fields_view(
                fields@,
            ).skip(i + 1));
        }
        if p.0 == tag {
            return Some(vstd::slice::slice_to_vec(p.1.as_slice()));
        }
        i = i + 1;
    }
    proof {
        assert(fields_view(fields@).skip(i as int) =~= Seq::<(u32, Seq<u8>)>::empty());
    }
    None
}

/// Whether a byte run is a plain decimal number that fits in 32 bits.
pub open spec fn is_u32_digits(v: Seq<u8>) -> bool {
    all_digits(v) && v.len() > 0 && dec_value(v) <= u32::MAX
}

/// Parse a decimal number that must fit in 32 bits; anything else is
/// `None`.
pub fn parse_u32_digits(v: &[u8]) -> (r: Option<u32>)
    ensures
        if is_u32_digits(v@) {
            r == Some(dec_value(v@) as u32)
        } else {
            r is None
        },
{
    if v.len() == 0 {
        return None;
    }
    let mut j: usize = 0;
    let mut acc: u64 = 0;
    let ghost mut dval: int = 0int;
    proof {
        assert(v@.skip(0) =~= v@);
    }
    let big: u64 = u32::MAX as u64 + 1;
    while j < v.len()
        invariant
            j <= v.len(),
            big == u32::MAX as u64 + 1,
            all_digits(v@.take(j as int)),
            dec_value(v@) == dec_value_acc(v@.skip(j as int), dval),
            (acc == dval && acc <= u32::MAX as u64 * 10 + 9) || (acc == big && dval
                > u32::MAX),
        decreases v.len() - j,
    {
        let b = *vstd::slice::slice_index_get(v, j);
        if b < 48 || b > 57 {
            proof {
                assert(!is_digit(v@[j as int]));
            }
            return None;
        }
        proof {
            assert(v@.take(j + 1).drop_last() =~= v@.take(j as int));
            assert(v@.take(j + 1).last() == v@[j as int]);
            assert(v@.skip(j as int).first() == v@[j as int]);
            assert(v@.skip(j as int).drop_first() =~= v@.skip(j + 1));
            dval = dval * 10 + (b - 48);
        }
        if acc > u32::MAX as u64 {
            acc = big;
        } else {
            acc = acc * 10 + (b - 48) as u64;
            if acc > u32::MAX as u64 {
                acc = big;
            }
        }
        j = j + 1;
    }
    proof {
        assert(v@.take(j as int) =~= v@);
        assert(v@.skip(j as int) =~= Seq::<u8>::empty());
    }
    if acc <= u32::MAX as u64 {
        Some(acc as u32)
    } else {
        None
    }
}

/// A complete parse consumes at least one byte and no more than the buffer
/// holds.
pub proof fn lemma_parse_frame_consumed_bounds(s: Seq<u8>)
    requires
        spec_parse_frame(s) is Complete,
    ensures
        0 < spec_parse_frame(s)->Complete_consumed <= s.len(),
{
    lemma_scan_field_bounds(s, 0);
    let e8 = scan_field(s, 0)->Found_end;
    lemma_scan_field_bounds(s, e8);
    let e9 = scan_field(s, e8)->Found_end;
    lemma_scan_field_bounds(s, e9);
    let e35 = scan_field(s, e9)->Found_end;
    lemma_scan_body_consumed_bounds(s, e35, Seq::empty());
}

} // verus!
