//! Persisted model state and its self-describing byte format.
//!
//! The core never inspects the numeric content of a model: a parameter
//! is carried as the 64-bit pattern of its floating value, and the layer
//! topology as plain widths. The persisted form is a tagged header, the
//! layer widths, then the parameters, each as 8 little-endian bytes, so
//! decoding an encoded model recovers it exactly. A present file that
//! does not decode is corrupt — a distinct, fatal condition — while an
//! absent file merely asks for a fresh model.

use vstd::prelude::*;

use vstd::arithmetic::div_mod::lemma_fundamental_div_mod;
use vstd::arithmetic::div_mod::lemma_fundamental_div_mod_converse_div;
use vstd::arithmetic::div_mod::lemma_fundamental_div_mod_converse_mod;
use vstd::bytes::lemma_auto_spec_u64_to_from_le_bytes;
use vstd::bytes::spec_u64_from_le_bytes;
use vstd::bytes::spec_u64_to_le_bytes;
use vstd::bytes::u64_from_le_bytes;
use vstd::bytes::u64_to_le_bytes;
use vstd::slice::slice_subrange;

use crate::CoreError;

verus! {

/// The complete state of the external numeric model, as plain values:
/// the width of each layer, and every parameter as the bit pattern of
/// its 64-bit floating value, in the model's own order.
#[derive(Clone, Debug, PartialEq, Eq)]
pub struct ModelState {
    pub layer_sizes: Vec<u64>,
    pub params: Vec<u64>,
}

/// Leading tag of the persisted form.
pub open spec fn spec_magic() -> Seq<u8> {
    seq![109u8, 116u8, 114u8, 49u8]
}

/// The words of `s`, each as 8 little-endian bytes, concatenated.
pub open spec fn spec_words_bytes(s: Seq<u64>) -> Seq<u8> {
    Seq::new((8 * s.len()) as nat, |j: int| spec_u64_to_le_bytes(s[j / 8])[j % 8])
}

/// `k` words read from `b` starting at byte offset `off`.
pub open spec fn spec_words_at(b: Seq<u8>, off: int, k: int) -> Seq<u64> {
    Seq::new(k as nat, |i: int| spec_u64_from_le_bytes(b.subrange(off + 8 * i, off + 8 * i + 8)))
}

/// The persisted form: tag, layer count, layer widths, parameter count,
/// parameters.
pub open spec fn spec_encode_model(layers: Seq<u64>, params: Seq<u64>) -> Seq<u8> {
    spec_magic() + spec_u64_to_le_bytes(layers.len() as u64) + spec_words_bytes(layers)
        + spec_u64_to_le_bytes(params.len() as u64) + spec_words_bytes(params)
}

/// What a byte buffer decodes to: the unique model it is the encoding
/// of, or nothing when it is not one.
pub open spec fn spec_decode_model(b: Seq<u8>) -> Option<(Seq<u64>, Seq<u64>)> {
    if b.len() < 20 || b.subrange(0, 4) != spec_magic() {
        None
    } else {
        let nl = spec_u64_from_le_bytes(b.subrange(4, 12)) as int;
        if b.len() < 20 + 8 * nl {
            None
        } else {
            let off = 12 + 8 * nl;
            let np = spec_u64_from_le_bytes(b.subrange(off, off + 8)) as int;
            if b.len() != off + 8 + 8 * np {
                None
            } else {
                Some((spec_words_at(b, 12, nl), spec_words_at(b, off + 8, np)))
            }
        }
    }
}

proof fn lemma_div8(i: int, k: int)
    requires
        0 <= i,
        0 <= k < 8,
    ensures
        (8 * i + k) / 8 == i,
        (8 * i + k) % 8 == k,
{
    lemma_fundamental_div_mod_converse_div(8 * i + k, 8, i, k);
    lemma_fundamental_div_mod_converse_mod(8 * i + k, 8, i, k);
}

/// Within a word run, each word's bytes sit at their aligned slot.
proof fn lemma_words_bytes_slot(s: Seq<u64>, i: int)
    requires
        0 <= i < s.len(),
    ensures
        spec_words_bytes(s).subrange(8 * i, 8 * i + 8) == spec_u64_to_le_bytes(s[i]),
{
    lemma_auto_spec_u64_to_from_le_bytes();
    assert forall|k: int| 0 <= k < 8 implies spec_words_bytes(s).subrange(8 * i, 8 * i + 8)[k]
        == spec_u64_to_le_bytes(s[i])[k] by {
        lemma_div8(i, k);
        assert(spec_words_bytes(s)[8 * i + k] == spec_u64_to_le_bytes(s[(8 * i + k) / 8])[(8 * i
            + k) % 8]);
    }
    assert(spec_words_bytes(s).subrange(8 * i, 8 * i + 8) =~= spec_u64_to_le_bytes(s[i]));
}

/// Appending one more word to a run appends its 8 bytes.
proof fn lemma_words_bytes_snoc(s: Seq<u64>, i: int)
    requires
        0 <= i < s.len(),
    ensures
        spec_words_bytes(s.take(i + 1)) == spec_words_bytes(s.take(i)) + spec_u64_to_le_bytes(
            s[i],
        ),
{
    lemma_auto_spec_u64_to_from_le_bytes();
    let lhs = spec_words_bytes(s.take(i + 1));
    let rhs = spec_words_bytes(s.take(i)) + spec_u64_to_le_bytes(s[i]);
    assert forall|j: int| 0 <= j < 8 * (i + 1) implies lhs[j] == rhs[j] by {
        lemma_fundamental_div_mod(j, 8);
        assert(0 <= j / 8 && j / 8 <= i) by (nonlinear_arith)
            requires
                j == 8 * (j / 8) + j % 8,
                0 <= j % 8 < 8,
                0 <= j < 8 * (i + 1),
        ;
        if j < 8 * i {
            assert(j / 8 < i) by (nonlinear_arith)
                requires
                    j == 8 * (j / 8) + j % 8,
                    0 <= j % 8 < 8,
                    0 <= j < 8 * i,
            ;
        } else {
            lemma_div8(i, j - 8 * i);
        }
    }
    assert(lhs =~= rhs);
}

/// Reading a run of words back from where their bytes were laid down
/// recovers them.
proof fn lemma_words_at_of_words_bytes(b: Seq<u8>, off: int, s: Seq<u64>)
    requires
        0 <= off,
        off + 8 * s.len() <= b.len(),
        b.subrange(off, off + 8 * s.len()) == spec_words_bytes(s),
    ensures
        spec_words_at(b, off, s.len() as int) == s,
{
    lemma_auto_spec_u64_to_from_le_bytes();
    assert forall|i: int| 0 <= i < s.len() implies spec_words_at(b, off, s.len() as int)[i]
        == s[i] by {
        lemma_words_bytes_slot(s, i);
        assert forall|k: int| 0 <= k < 8 implies #[trigger] b.subrange(off + 8 * i, off + 8 * i
            + 8)[k] == spec_words_bytes(s).subrange(8 * i, 8 * i + 8)[k] by {
            assert(b.subrange(off, off + 8 * s.len())[8 * i + k] == b[off + 8 * i + k]);
        }
        assert(b.subrange(off + 8 * i, off + 8 * i + 8) =~= spec_words_bytes(s).subrange(
            8 * i,
            8 * i + 8,
        ));
    }
    assert(spec_words_at(b, off, s.len() as int) =~= s);
}

/// Append the words of `words` to `out`, 8 little-endian bytes each.
fn push_words(out: &mut Vec<u8>, words: &Vec<u64>)
    ensures
        final(out)@ == old(out)@ + spec_words_bytes(words@),
{
    let ghost out0 = out@;
    let mut i: usize = 0;
    while i < words.len()
        invariant
            i <= words@.len(),
            out@ == out0 + spec_words_bytes(words@.take(i as int)),
        decreases words@.len() - i,
    {
        let mut wb = u64_to_le_bytes(words[i]);
        out.append(&mut wb);
        proof {
            lemma_words_bytes_snoc(words@, i as int);
        }
        i = i + 1;
    }
    proof {
        assert(words@.take(words@.len() as int) =~= words@);
    }
}

/// Read `k` words laid down at byte offset `off` of `bytes`.
fn read_words(bytes: &Vec<u8>, off: usize, k: usize) -> (r: Vec<u64>)
    requires
        off + 8 * k <= bytes@.len(),
    ensures
        r@ == spec_words_at(bytes@, off as int, k as int),
{
    let n = bytes.len();
    let mut v: Vec<u64> = Vec::new();
    let mut i: usize = 0;
    while i < k
        invariant
            i <= k,
            off + 8 * k <= n,
            n == bytes@.len(),
            v@.len() == i,
            forall|t: int|
                0 <= t < i ==> v@[t] == spec_u64_from_le_bytes(
                    bytes@.subrange(off + 8 * t, off + 8 * t + 8),
                ),
        decreases k - i,
    {
        let w = u64_from_le_bytes(slice_subrange(bytes.as_slice(), off + 8 * i, off + 8 * i + 8));
        v.push(w);
        i = i + 1;
    }
    proof {
        assert(v@ =~= spec_words_at(bytes@, off as int, k as int));
    }
    v
}

impl ModelState {
    /// Serialize the complete model state into its persisted form.
    pub fn encode(&self) -> (r: Vec<u8>)
        ensures
            r@ == spec_encode_model(self.layer_sizes@, self.params@),
    {
        let mut out: Vec<u8> = Vec::new();
        out.push(109);
        out.push(116);
        out.push(114);
        out.push(49);
        proof {
            assert(out@ =~= spec_magic());
        }
        let mut nl_bytes = u64_to_le_bytes(self.layer_sizes.len() as u64);
        out.append(&mut nl_bytes);
        push_words(&mut out, &self.layer_sizes);
        let mut np_bytes = u64_to_le_bytes(self.params.len() as u64);
        out.append(&mut np_bytes);
        push_words(&mut out, &self.params);
        out
    }

    /// Decode a persisted model. A buffer that is not exactly the
    /// encoding of some model is corrupt.
    pub fn decode(bytes: &Vec<u8>) -> (r: Result<ModelState, CoreError>)
        ensures
            match r {
                Ok(m) => spec_decode_model(bytes@) == Some((m.layer_sizes@, m.params@)),
                Err(e) => spec_decode_model(bytes@) is None && e == CoreError::CorruptModel,
            },
    {
        let n = bytes.len();
        if n < 20 {
            return Err(CoreError::CorruptModel);
        }
        let magic_ok = bytes[0] == 109 && bytes[1] == 116 && bytes[2] == 114 && bytes[3] == 49;
        proof {
            assert(bytes@.subrange(0, 4)[0] == bytes@[0]);
            assert(bytes@.subrange(0, 4)[1] == bytes@[1]);
            assert(bytes@.subrange(0, 4)[2] == bytes@[2]);
            assert(bytes@.subrange(0, 4)[3] == bytes@[3]);
            if bytes@[0] == 109 && bytes@[1] == 116 && bytes@[2] == 114 && bytes@[3] == 49 {
                assert(bytes@.subrange(0, 4) =~= spec_magic());
            }
        }
        if !magic_ok {
            return Err(CoreError::CorruptModel);
        }
        let nl64 = u64_from_le_bytes(slice_subrange(bytes.as_slice(), 4, 12));
        let avail = n - 20;
        proof {
            lemma_fundamental_div_mod(avail as int, 8);
        }
        if nl64 > (avail / 8) as u64 {
            proof {
                assert(8 * (nl64 as int) > avail as int);
            }
            return Err(CoreError::CorruptModel);
        }
        let nl = nl64 as usize;
        let layer_sizes = read_words(bytes, 12, nl);
        let off = 12 + 8 * nl;
        let np64 = u64_from_le_bytes(slice_subrange(bytes.as_slice(), off, off + 8));
        let rem_len = n - off - 8;
        proof {
            lemma_fundamental_div_mod(rem_len as int, 8);
        }
        if rem_len % 8 != 0 || np64 != (rem_len / 8) as u64 {
            proof {
                if 8 * (np64 as int) == rem_len as int {
                    lemma_fundamental_div_mod_converse_div(rem_len as int, 8, np64 as int, 0);
                    lemma_fundamental_div_mod_converse_mod(rem_len as int, 8, np64 as int, 0);
                }
            }
            return Err(CoreError::CorruptModel);
        }
        let np = np64 as usize;
        let params = read_words(bytes, off + 8, np);
        Ok(ModelState { layer_sizes, params })
    }
}

/// Law: persistence round-trips exactly — decoding an encoded model
/// yields the model back, every layer width and every parameter equal.
pub proof fn lemma_model_round_trip(layers: Seq<u64>, params: Seq<u64>)
    requires
        layers.len() <= u64::MAX,
        params.len() <= u64::MAX,
    ensures
        spec_decode_model(spec_encode_model(layers, params)) == Some((layers, params)),
{
    lemma_auto_spec_u64_to_from_le_bytes();
    let b = spec_encode_model(layers, params);
    let nl = layers.len() as int;
    let np = params.len() as int;
    let off = 12 + 8 * nl;
    assert(b.len() == 20 + 8 * nl + 8 * np);
    assert(b.subrange(0, 4) =~= spec_magic());
    assert(b.subrange(4, 12) =~= spec_u64_to_le_bytes(nl as u64));
    assert(spec_u64_from_le_bytes(b.subrange(4, 12)) == nl as u64);
    assert(b.subrange(12, 12 + 8 * nl) =~= spec_words_bytes(layers));
    lemma_words_at_of_words_bytes(b, 12, layers);
    assert(b.subrange(off, off + 8) =~= spec_u64_to_le_bytes(np as u64));
    assert(spec_u64_from_le_bytes(b.subrange(off, off + 8)) == np as u64);
    assert(b.subrange(off + 8, off + 8 + 8 * np) =~= spec_words_bytes(params));
    lemma_words_at_of_words_bytes(b, off + 8, params);
}

/// The persistence rule at startup: an absent file is not an error and
/// asks the caller for a freshly initialized model; a present file must
/// decode, and one that does not is corrupt.
pub fn restore(stored: Option<&Vec<u8>>) -> (r: Result<Option<ModelState>, CoreError>)
    ensures
        stored is None ==> r == Ok::<Option<ModelState>, CoreError>(None),
        stored matches Some(b) ==> match r {
            Ok(opt) => opt matches Some(m) && spec_decode_model(b@) == Some(
                (m.layer_sizes@, m.params@),
            ),
            Err(e) => spec_decode_model(b@) is None && e == CoreError::CorruptModel,
        },
{
    match stored {
        None => Ok(None),
        Some(bytes) => match ModelState::decode(bytes) {
            Ok(m) => Ok(Some(m)),
            Err(e) => Err(e),
        },
    }
}

} // verus!
