//! The LZ77-style decompressor for compressed entry payloads.
//!
//! A compressed payload is a stream of tokens. Each token begins with a
//! control byte: the high nibble counts literal bytes to copy from the
//! input, the low nibble (plus a base of 4) counts match bytes to replay
//! from the output window. A nibble of `0xF` is extended by summing further
//! bytes until one below `0xFF` is consumed (that byte still contributes).
//! After the literals, a little-endian 16-bit back offset locates the match
//! window; the stream may end right after the literals of its last token.

use vstd::prelude::*;

verus! {

/// The sum of an extension-byte run starting at `pos`, and the position just
/// past it: bytes are consumed and summed until one below `0xFF` is consumed.
/// `None` when the run leaves the input.
pub open spec fn ext_sum(input: Seq<u8>, pos: int) -> Option<(int, int)>
    decreases input.len() - pos,
{
    if pos < 0 || pos >= input.len() {
        None
    } else if input[pos] == 0xff {
        match ext_sum(input, pos + 1) {
            Some(r) => Some((255 + r.0, r.1)),
            None => None,
        }
    } else {
        Some((input[pos] as int, pos + 1))
    }
}

/// `out` extended by `m` match bytes: each appended byte is the one `back`
/// positions before the current end, so a match longer than `back`
/// replicates the tail window.
pub open spec fn match_expand(out: Seq<u8>, back: int, m: int) -> Seq<u8>
    decreases m,
{
    if m <= 0 || back <= 0 || back > out.len() {
        out
    } else {
        match_expand(out.push(out[out.len() - back]), back, m - 1)
    }
}

/// The decompressed stream, decoding tokens from `pos` onward with `out`
/// already produced. `None` when the stream is malformed: a length or match
/// read leaves the input, or a back offset is zero or reaches before the
/// start of the output.
pub open spec fn decompress_from(input: Seq<u8>, pos: int, out: Seq<u8>) -> Option<Seq<u8>>
    decreases input.len() - pos,
{
    if pos < 0 || pos >= input.len() {
        Some(out)
    } else {
        let control = input[pos];
        let lit_ext = if control >> 4 == 0xf {
            ext_sum(input, pos + 1)
        } else {
            Some((0int, pos + 1))
        };
        match lit_ext {
            None => None,
            Some((lext, p1)) => {
                let lit = (control >> 4) as int + lext;
                if p1 < 0 || p1 + lit > input.len() {
                    None
                } else {
                    let out1 = out + input.subrange(p1, p1 + lit);
                    let p2 = p1 + lit;
                    if p2 >= input.len() {
                        Some(out1)
                    } else if p2 + 2 > input.len() {
                        None
                    } else {
                        let back = input[p2] as int + 256 * (input[p2 + 1] as int);
                        let mat_ext = if control & 0xf == 0xf {
                            ext_sum(input, p2 + 2)
                        } else {
                            Some((0int, p2 + 2))
                        };
                        match mat_ext {
                            None => None,
                            Some((mext, p3)) => {
                                let mlen = 4 + (control & 0xf) as int + mext;
                                if back < 1 || back > out1.len() {
                                    None
                                } else if p3 <= pos || p3 > input.len() {
                                    None
                                } else {
                                    decompress_from(input, p3, match_expand(out1, back, mlen))
                                }
                            },
                        }
                    }
                }
            },
        }
    }
}

/// What [`decompress`] returns: the whole token stream decoded from the
/// start, or `None` when it is malformed.
pub open spec fn decompress_spec(input: Seq<u8>) -> Option<Seq<u8>> {
    decompress_from(input, 0, Seq::empty())
}

/// Scans an extension-byte run starting at `start`, returning the summed
/// length contribution and the position just past the run.
#[verifier::loop_isolation(false)]
fn scan_extension(src: &[u8], start: usize) -> (r: Option<(u128, usize)>)
    requires
        start <= src@.len(),
    ensures
        r matches Some(v) ==> ext_sum(src@, start as int) == Some((v.0 as int, v.1 as int))
            && start < v.1 <= src@.len() && v.0 <= 255 * (v.1 - start),
        r is None ==> ext_sum(src@, start as int) is None,
{
    let n: usize = src.len();
    let mut p: usize = start;
    let mut acc: u128 = 0;
    loop
        invariant
            start <= p <= n,
            acc <= 255 * (p - start),
            ext_sum(src@, start as int) == (match ext_sum(src@, p as int) {
                Some(r) => Some((acc as int + r.0, r.1)),
                None => None::<(int, int)>,
            }),
        decreases n - p,
    {
        if p >= n {
            return None;
        }
        let b: u8 = *vstd::slice::slice_index_get(src, p);
        proof {
            assert(255 * ((p + 1) - start) == 255 * (p - start) + 255);
            assert(acc + b <= 255 * ((p + 1) - start));
        }
        acc = acc + (b as u128);
        p = p + 1;
        if b != 0xff {
            return Some((acc, p));
        }
    }
}

/// Decodes a compressed payload. Returns the decompressed bytes, or `None`
/// when the token stream is malformed.
#[verifier::loop_isolation(false)]
pub fn decompress(compressed: &[u8]) -> (r: Option<Vec<u8>>)
    ensures
        r matches Some(v) ==> decompress_spec(compressed@) == Some(v@),
        r is None ==> decompress_spec(compressed@) is None,
{
    let n: usize = compressed.len();
    let mut res: Vec<u8> = Vec::new();
    let mut in_pos: usize = 0;
    while in_pos < n
        invariant
            in_pos <= n,
            decompress_spec(compressed@) == decompress_from(compressed@, in_pos as int, res@),
        decreases n - in_pos,
    {
        let ghost pos0 = in_pos as int;
        let ghost out0 = res@;
        let control: u8 = *vstd::slice::slice_index_get(compressed, in_pos);
        let lit_nib: u8 = control >> 4;
        let mat_nib: u8 = control & 0xf;
        let (lit, p1): (u128, usize) = if lit_nib == 0xf {
            match scan_extension(compressed, in_pos + 1) {
                None => {
                    return None;
                },
                Some((acc, q)) => (15 + acc, q),
            }
        } else {
            (lit_nib as u128, in_pos + 1)
        };
        if lit > (n - p1) as u128 {
            return None;
        }
        let lit_us: usize = lit as usize;
        let p2: usize = p1 + lit_us;
        crate::bytes::push_bytes(&mut res, compressed, p1, p2);
        let ghost out1 = res@;
        if p2 >= n {
            in_pos = p2;
        } else {
            if n - p2 < 2 {
                return None;
            }
            let b0: u8 = *vstd::slice::slice_index_get(compressed, p2);
            let b1: u8 = *vstd::slice::slice_index_get(compressed, p2 + 1);
            let back: usize = (b0 as usize) + (b1 as usize) * 256;
            let (mlen, p3): (u128, usize) = if mat_nib == 0xf {
                match scan_extension(compressed, p2 + 2) {
                    None => {
                        return None;
                    },
                    Some((acc, q)) => (19 + acc, q),
                }
            } else {
                (4 + mat_nib as u128, p2 + 2)
            };
            if back == 0 || back > res.len() {
                return None;
            }
            let mut i: u128 = 0;
            while i < mlen
                invariant
                    1 <= back <= res@.len(),
                    i <= mlen,
                    match_expand(out1, back as int, mlen as int) == match_expand(
                        res@,
                        back as int,
                        (mlen - i) as int,
                    ),
                decreases mlen - i,
            {
                let idx: usize = res.len() - back;
                let b: u8 = res[idx];
                res.push(b);
                i = i + 1;
            }
            in_pos = p3;
        }
    }
    Some(res)
}

} // verus!
