//! The per-pass uniform parameters of the blur shader and their layout in one uniform
//! buffer, one record per pass at a stride of the device's dynamic-offset alignment.

use vstd::prelude::*;
use crate::codec::{native_bytes_of_words, native_little, native_u32_at, words_bytes, u32_le_bytes, u32_be_bytes, lemma_word_bytes_read_back};
use crate::pixels::{row_slice, zeros};

verus! {

/// Shader parameters of one pass, as the bit patterns of its `f32` fields: the half-texel
/// size `halfpixel` of the level sampled at, the blur `offset`, and padding to 16 bytes.
#[derive(Clone, Copy, Debug)]
pub struct BlurParams {
    pub halfpixel: [u32; 2],
    pub offset: u32,
    pub padding: u32,
}

impl BlurParams {
    /// Parameters with the given half-texel size and offset bits, and zero padding.
    pub fn new(halfpixel: [u32; 2], offset: u32) -> (p: BlurParams)
        ensures
            p.halfpixel@ == halfpixel@,
            p.offset == offset,
            p.padding == 0,
    {
        BlurParams { halfpixel, offset, padding: 0 }
    }

    /// The four 32-bit words of the record, in field order.
    pub open spec fn words(self) -> Seq<u32> {
        seq![self.halfpixel@[0], self.halfpixel@[1], self.offset, self.padding]
    }

    /// The 16 bytes of the record in the byte order of the machine.
    pub fn to_bytes(&self) -> (r: Vec<u8>)
        ensures
            r@ == words_bytes(self.words(), true) || r@ == words_bytes(self.words(), false),
            r@ == native_record(*self),
            r@.len() == 16,
    {
        let words: [u32; 4] = [self.halfpixel[0], self.halfpixel[1], self.offset, self.padding];
        assert(words@ =~= self.words());
        native_bytes_of_words(&words)
    }
}

/// The `alignment` bytes that one record of `bytes` (16 bytes) occupies in the buffer:
/// the record followed by zeros up to the stride, or, for a stride shorter than a record,
/// the first `alignment` bytes of the record.
pub open spec fn stored_record(bytes: Seq<u8>, alignment: nat) -> Seq<u8> {
    if alignment <= 16 {
        bytes.take(alignment as int)
    } else {
        bytes + zeros((alignment - 16) as nat)
    }
}

/// The 16 bytes of the record of `p` in the machine's byte order.
pub open spec fn native_record(p: BlurParams) -> Seq<u8> {
    words_bytes(p.words(), native_little())
}

/// Word `m` of record `i` of a buffer with records every `alignment` bytes, read in the
/// machine's byte order.
pub open spec fn record_word(contents: Seq<u8>, alignment: int, i: int, m: int) -> int {
    native_u32_at(contents, i * alignment + 4 * m)
}

/// Byte `k` of record `i` of a buffer with records every `alignment` bytes.
pub open spec fn record_byte(contents: Seq<u8>, alignment: int, i: int, k: int) -> u8 {
    contents[i * alignment + k]
}

/// Whether `chunk` holds the record of `p` as stored at a stride of `alignment`.
pub open spec fn holds_record(chunk: Seq<u8>, p: BlurParams, alignment: nat) -> bool {
    ||| chunk == stored_record(words_bytes(p.words(), true), alignment)
    ||| chunk == stored_record(words_bytes(p.words(), false), alignment)
}

/// The dynamic offset of pass `pass_index`: `pass_index * alignment` as a `u32`.
pub open spec fn spec_pass_offset(pass_index: int, alignment: int) -> u32 {
    (pass_index * alignment) as u32
}

/// Appends one 16-byte record and resizes the buffer to its previous length plus
/// `alignment`, zero-filling or cutting the record.
fn append_record(buf: &mut Vec<u8>, bytes: &Vec<u8>, alignment: usize)
    requires
        bytes@.len() == 16,
        old(buf)@.len() + alignment + 16 <= usize::MAX,
    ensures
        final(buf)@ == old(buf)@ + stored_record(bytes@, alignment as nat),
{
    let ghost before = buf@;
    buf.extend_from_slice(bytes.as_slice());
    assert(buf@ =~= before + bytes@);
    let ghost extended = buf@;
    let new_len: usize = buf.len() + alignment - bytes.len();
    buf.resize(new_len, 0u8);
    if alignment <= 16 {
        assert(buf@ =~= before + bytes@.take(alignment as int));
    } else {
        assert forall|k: int| before.len() + 16 <= k < buf@.len() implies buf@[k] == 0u8 by {
            assert(cloned::<u8>(0u8, buf@[k]));
        }
        assert(buf@.subrange(0, extended.len() as int) == extended);
        assert forall|k: int| 0 <= k < extended.len() implies buf@[k] == extended[k] by {
            assert(buf@.subrange(0, extended.len() as int)[k] == buf@[k]);
        }
        let ghost want = before + (bytes@ + zeros((alignment - 16) as nat));
        assert(buf@.len() == want.len());
        assert forall|k: int| 0 <= k < want.len() implies buf@[k] == want[k] by {
            if k < extended.len() {
                assert(extended[k] == want[k]);
            } else {
                assert(want[k] == zeros((alignment - 16) as nat)[k - extended.len()]);
            }
        }
        assert(buf@ =~= want);
    }
}

/// The uniform buffer contents: one record per pass, record `i` at byte `i * alignment`.
pub struct BlurUniforms {
    pub contents: Vec<u8>,
    pub alignment: usize,
}

impl BlurUniforms {
    /// Lays the records out one after the other, each padded (or cut) to `alignment`
    /// bytes: every record is appended and the buffer is then resized to its previous
    /// length plus `alignment`.
    pub fn new(params: &Vec<BlurParams>, alignment: usize) -> (u: BlurUniforms)
        requires
            (params@.len() as int) * (alignment as int) + 16 <= usize::MAX,
        ensures
            u.alignment == alignment,
            u.contents@.len() == (params@.len() as int) * (alignment as int),
            forall|i: int| 0 <= i < params@.len() ==>
                holds_record(#[trigger] row_slice(u.contents@, alignment as int, alignment as int, i), params@[i], alignment as nat),
            forall|i: int| 0 <= i < params@.len() ==>
                #[trigger] row_slice(u.contents@, alignment as int, alignment as int, i)
                    == stored_record(native_record(params@[i]), alignment as nat),
            alignment >= 16 ==> forall|i: int, m: int| 0 <= i < params@.len() && 0 <= m < 4 ==>
                #[trigger] record_word(u.contents@, alignment as int, i, m) == params@[i].words()[m],
            alignment >= 16 ==> forall|i: int, k: int| 0 <= i < params@.len() && 16 <= k < alignment ==>
                #[trigger] record_byte(u.contents@, alignment as int, i, k) == 0u8,
    {
        let ghost a = alignment as int;
        let mut blur_params: Vec<u8> = Vec::new();
        let mut i: usize = 0;
        while i < params.len()
            invariant
                a == alignment,
                (params@.len() as int) * a + 16 <= usize::MAX,
                i <= params@.len(),
                blur_params@.len() == (i as int) * a,
                forall|q: int| 0 <= q < i ==>
                    #[trigger] row_slice(blur_params@, a, a, q) == stored_record(native_record(params@[q]), alignment as nat),
            decreases params@.len() - i,
        {
            let ghost before = blur_params@;
            assert((i as int) * a + a + 16 <= (params@.len() as int) * a + 16) by (nonlinear_arith)
                requires
                    i < params@.len(),
                    a >= 0,
            ;
            let bytes = params[i].to_bytes();
            append_record(&mut blur_params, &bytes, alignment);
            assert(row_slice(blur_params@, a, a, i as int) =~= stored_record(bytes@, alignment as nat));
            assert forall|q: int| 0 <= q < i + 1 implies
                #[trigger] row_slice(blur_params@, a, a, q) == stored_record(native_record(params@[q]), alignment as nat) by {
                if q < i {
                    assert(q * a + a <= (i as int) * a) by (nonlinear_arith)
                        requires
                            0 <= q < i,
                            a >= 0,
                    ;
                    assert(row_slice(blur_params@, a, a, q) =~= row_slice(before, a, a, q));
                }
            }
            assert(((i + 1) as int) * a == (i as int) * a + a) by (nonlinear_arith);
            i = i + 1;
        }
        proof {
            assert forall|q: int| 0 <= q < params@.len() implies
                holds_record(#[trigger] row_slice(blur_params@, a, a, q), params@[q], alignment as nat) by {
                assert(row_slice(blur_params@, a, a, q) == stored_record(native_record(params@[q]), alignment as nat));
            }
            if alignment >= 16 {
                lemma_records_read_back(blur_params@, params@, alignment as nat);
            }
        }
        BlurUniforms { contents: blur_params, alignment }
    }

    /// The dynamic offset that selects record `pass_index`: `pass_index * alignment`,
    /// truncated to a `u32`.
    pub fn offset_for_pass(&self, pass_index: usize) -> (r: u32)
        requires
            (pass_index as int) * (self.alignment as int) <= usize::MAX,
        ensures
            r == spec_pass_offset(pass_index as int, self.alignment as int),
    {
        (pass_index * self.alignment) as u32
    }
}


/// The dynamic offset of pass `i` selects record `i` of the uniform buffer: the
/// `alignment` bytes at `offset_for_pass(i)` hold the record of `params[i]`.
pub proof fn lemma_offset_selects_record(contents: Seq<u8>, params: Seq<BlurParams>, alignment: nat, i: int)
    requires
        contents.len() == (params.len() as int) * (alignment as int),
        (params.len() as int) * (alignment as int) <= u32::MAX,
        forall|q: int| 0 <= q < params.len() ==>
            holds_record(#[trigger] row_slice(contents, alignment as int, alignment as int, q), params[q], alignment),
        0 <= i < params.len(),
    ensures
        spec_pass_offset(i, alignment as int) as int == i * alignment,
        holds_record(
            contents.subrange(spec_pass_offset(i, alignment as int) as int, spec_pass_offset(i, alignment as int) + alignment),
            params[i],
            alignment,
        ),
{
    assert(i * alignment <= (params.len() as int) * (alignment as int)) by (nonlinear_arith)
        requires
            0 <= i < params.len(),
    ;
    assert(row_slice(contents, alignment as int, alignment as int, i) == contents.subrange(i * alignment, i * alignment + alignment));
}


/// A buffer laid out with the records of `params` in the machine's byte order, at a stride
/// of at least 16 bytes, gives back each parameter word when read in that byte order at
/// its place in its record, and holds zeros between the records.
pub proof fn lemma_records_read_back(contents: Seq<u8>, params: Seq<BlurParams>, alignment: nat)
    requires
        alignment >= 16,
        contents.len() == (params.len() as int) * (alignment as int),
        forall|i: int| 0 <= i < params.len() ==>
            #[trigger] row_slice(contents, alignment as int, alignment as int, i)
                == stored_record(native_record(params[i]), alignment),
    ensures
        forall|i: int, m: int| 0 <= i < params.len() && 0 <= m < 4 ==>
            #[trigger] record_word(contents, alignment as int, i, m) == params[i].words()[m],
        forall|i: int, k: int| 0 <= i < params.len() && 16 <= k < alignment ==>
            #[trigger] record_byte(contents, alignment as int, i, k) == 0u8,
{
    let a = alignment as int;
    assert forall|i: int, m: int| 0 <= i < params.len() && 0 <= m < 4 implies
        #[trigger] record_word(contents, a, i, m) == params[i].words()[m] by {
        assert(i * a + a <= (params.len() as int) * a) by (nonlinear_arith)
            requires
                0 <= i < params.len(),
                a >= 0,
        ;
        let chunk = row_slice(contents, a, a, i);
        let rec = native_record(params[i]);
        let x = params[i].words()[m];
        assert(chunk == stored_record(rec, alignment));
        assert(rec.len() == 16);
        assert(chunk[4 * m] == contents[i * a + 4 * m] && chunk[4 * m] == rec[4 * m]);
        assert(chunk[4 * m + 1] == contents[i * a + 4 * m + 1] && chunk[4 * m + 1] == rec[4 * m + 1]);
        assert(chunk[4 * m + 2] == contents[i * a + 4 * m + 2] && chunk[4 * m + 2] == rec[4 * m + 2]);
        assert(chunk[4 * m + 3] == contents[i * a + 4 * m + 3] && chunk[4 * m + 3] == rec[4 * m + 3]);
        lemma_word_bytes_read_back(x);
        let b = if native_little() { u32_le_bytes(x) } else { u32_be_bytes(x) };
        assert(rec[4 * m] == b[0] && rec[4 * m + 1] == b[1] && rec[4 * m + 2] == b[2] && rec[4 * m + 3] == b[3]);
    }
    assert forall|i: int, k: int| 0 <= i < params.len() && 16 <= k < alignment implies
        #[trigger] record_byte(contents, a, i, k) == 0u8 by {
        assert(i * a + a <= (params.len() as int) * a) by (nonlinear_arith)
            requires
                0 <= i < params.len(),
                a >= 0,
        ;
        let chunk = row_slice(contents, a, a, i);
        assert(chunk[k] == contents[i * a + k]);
    }
}

} // verus!
