//! Mnemonic phrase decoding. A phrase of 12 or 24 known words encodes
//! 16 or 32 bytes of entropy followed by a short checksum, each word
//! contributing 11 bits, most significant first. Two grammars are
//! supported over the same English wordlist: the standard one, whose
//! checksum is the leading bits of the SHA-256 digest of the entropy,
//! and the mobile-app one, whose checksum is the byte sum of the entropy
//! reduced to the checksum width.

use vstd::prelude::*;

use vstd::arithmetic::power2::pow2;
use vstd::arithmetic::power2::lemma2_to64;
use crate::Error;

verus! {

/// Which phrase grammar to decode under.
#[derive(Clone, Copy, Debug, PartialEq, Eq, Structural)]
pub enum SeedType {
    Bip39,
    Mobile,
}

/// The position of a word in the English wordlist of 2048 entries, if it
/// is there. The result depends on the word alone.
pub uninterp spec fn word_index_of(w: Seq<char>) -> Option<u16>;

/// The SHA-256 digest of a byte string; 32 bytes long. The result
/// depends on the input alone.
pub uninterp spec fn sha256_of(b: Seq<u8>) -> Seq<u8>;

/// Relies on `bip39::Language::find_word` over the English wordlist: the
/// index of a word in the fixed list of 2048 entries, determined by the
/// word alone.
#[verifier::external_body]
fn word_index(w: &String) -> (r: Option<u16>)
    ensures
        r == word_index_of(w@),
        r matches Some(i) ==> i < 2048,
{
    bip39::Language::English.find_word(w.as_str())
}

/// Relies on `sha2::Sha256`: the 32-byte digest of the input, determined
/// by the input alone.
#[verifier::external_body]
fn sha256(b: &Vec<u8>) -> (r: Vec<u8>)
    ensures
        r@ == sha256_of(b@),
        r@.len() == 32,
{
    <sha2::Sha256 as sha2::Digest>::digest(b.as_slice()).to_vec()
}

/// The divisor that brings bit `s` (0 = most significant) of an 11-bit
/// word index into the ones place.
pub open spec fn msb_divisor(s: int) -> int {
    if s == 0 {
        1024
    } else if s == 1 {
        512
    } else if s == 2 {
        256
    } else if s == 3 {
        128
    } else if s == 4 {
        64
    } else if s == 5 {
        32
    } else if s == 6 {
        16
    } else if s == 7 {
        8
    } else if s == 8 {
        4
    } else if s == 9 {
        2
    } else {
        1
    }
}

/// Bit `s` of an 11-bit word index, most significant first.
pub open spec fn bit_at(i: u16, s: int) -> u8 {
    (((i as int) / msb_divisor(s)) % 2) as u8
}

/// The bit string of a phrase: 11 bits per word index, in order.
pub open spec fn bits_of(idxs: Seq<u16>) -> Seq<u8> {
    Seq::new((11 * idxs.len()) as nat, |b: int| bit_at(idxs[b / 11], b % 11))
}

/// The value of `cnt` bits starting at `start`, most significant first.
pub open spec fn bits_value(bits: Seq<u8>, start: int, cnt: int) -> int
    decreases cnt,
{
    if cnt <= 0 {
        0
    } else {
        2 * bits_value(bits, start, cnt - 1) + bits[start + cnt - 1]
    }
}

/// Checksum width in bits for a word count: 4 for 12 words, 8 for 24.
pub open spec fn cs_bits(nwords: int) -> int {
    nwords / 3
}

/// Entropy length in bytes for a word count: 16 for 12 words, 32 for 24.
pub open spec fn ent_bytes(nwords: int) -> int {
    (11 * nwords - cs_bits(nwords)) / 8
}

/// The entropy a phrase's word indices encode.
pub open spec fn entropy_of(idxs: Seq<u16>) -> Seq<u8> {
    Seq::new(
        ent_bytes(idxs.len() as int) as nat,
        |i: int| bits_value(bits_of(idxs), 8 * i, 8) as u8,
    )
}

/// The checksum value the phrase itself carries: its trailing bits.
pub open spec fn checksum_actual(idxs: Seq<u16>) -> int {
    bits_value(bits_of(idxs), 8 * ent_bytes(idxs.len() as int), cs_bits(idxs.len() as int))
}

pub open spec fn sum_prefix(s: Seq<u8>, m: int) -> int
    decreases m,
{
    if m <= 0 {
        0
    } else {
        sum_prefix(s, m - 1) + s[m - 1]
    }
}

/// The checksum a grammar demands of the entropy: the leading `cs` bits
/// of its SHA-256 digest for the standard grammar, the byte sum reduced
/// to `cs` bits for the mobile grammar.
pub open spec fn checksum_expected(idxs: Seq<u16>, st: SeedType) -> int {
    let e = entropy_of(idxs);
    let cs = cs_bits(idxs.len() as int);
    match st {
        SeedType::Bip39 => (sha256_of(e)[0] as int) / (if cs == 4 { 16int } else { 1int }),
        SeedType::Mobile => sum_prefix(e, e.len() as int) % (if cs == 4 { 16int } else { 256int }),
    }
}

/// Every word of the phrase is on the wordlist.
pub open spec fn all_words_known(ws: Seq<String>) -> bool {
    forall|i: int| 0 <= i < ws.len() ==> (#[trigger] word_index_of(ws[i]@)) matches Some(_)
}

/// The word indices of a phrase whose words are all known.
pub open spec fn idxs_of(ws: Seq<String>) -> Seq<u16> {
    Seq::new(ws.len(), |i: int| word_index_of(ws[i]@)->Some_0)
}

/// A phrase decodes under a grammar when its word count is 12 or 24,
/// every word is on the wordlist, and its checksum matches the grammar.
pub open spec fn decode_ok(ws: Seq<String>, st: SeedType) -> bool {
    &&& ws.len() == 12 || ws.len() == 24
    &&& all_words_known(ws)
    &&& checksum_actual(idxs_of(ws)) == checksum_expected(idxs_of(ws), st)
}

/// The values of a run of bits are bounded by the corresponding power of
/// two.
proof fn lemma_bits_value_bound(bits: Seq<u8>, start: int, cnt: int)
    requires
        0 <= start,
        start + cnt <= bits.len(),
        forall|b: int| 0 <= b < bits.len() ==> (#[trigger] bits[b]) <= 1,
    ensures
        0 <= bits_value(bits, start, cnt),
        cnt >= 0 ==> bits_value(bits, start, cnt) < pow2(cnt as nat),
    decreases cnt,
{
    lemma2_to64();
    if cnt > 0 {
        lemma_bits_value_bound(bits, start, cnt - 1);
        assert(pow2(cnt as nat) == 2 * pow2((cnt - 1) as nat)) by {
            vstd::arithmetic::power2::lemma_pow2_unfold(cnt as nat);
        }
    }
}

/// The value of `cnt` bits of `bits` starting at `start`, most
/// significant first.
fn bits_range_value(bits: &Vec<u8>, start: usize, cnt: usize) -> (r: u16)
    requires
        start + cnt <= bits@.len(),
        cnt <= 8,
        forall|b: int| 0 <= b < bits@.len() ==> (#[trigger] bits@[b]) <= 1,
    ensures
        r == bits_value(bits@, start as int, cnt as int),
        r < 256,
{
    proof {
        lemma2_to64();
    }
    let blen = bits.len();
    let mut acc: u16 = 0;
    let mut t: usize = 0;
    while t < cnt
        invariant
            t <= cnt,
            cnt <= 8,
            start + cnt <= bits@.len(),
            blen == bits@.len(),
            forall|b: int| 0 <= b < bits@.len() ==> (#[trigger] bits@[b]) <= 1,
            acc == bits_value(bits@, start as int, t as int),
            acc < pow2(t as nat),
            pow2(8) == 256,
        decreases cnt - t,
    {
        proof {
            lemma_bits_value_bound(bits@, start as int, t as int);
            assert(pow2((t + 1) as nat) == 2 * pow2(t as nat)) by {
                vstd::arithmetic::power2::lemma_pow2_unfold((t + 1) as nat);
            }
            vstd::arithmetic::power2::lemma_pow2_pos(t as nat);
            assert(pow2(t as nat) <= pow2(8)) by {
                if t < 8 {
                    vstd::arithmetic::power2::lemma_pow2_strictly_increases(t as nat, 8);
                }
            }
        }
        acc = 2 * acc + (bits[start + t] as u16);
        t = t + 1;
    }
    proof {
        lemma_bits_value_bound(bits@, start as int, cnt as int);
        assert(pow2(cnt as nat) <= pow2(8)) by {
            if cnt < 8 {
                vstd::arithmetic::power2::lemma_pow2_strictly_increases(cnt as nat, 8);
            }
        }
    }
    acc
}

fn msb_div(s: usize) -> (r: u16)
    requires
        s < 11,
    ensures
        r as int == msb_divisor(s as int),
{
    if s == 0 {
        1024
    } else if s == 1 {
        512
    } else if s == 2 {
        256
    } else if s == 3 {
        128
    } else if s == 4 {
        64
    } else if s == 5 {
        32
    } else if s == 6 {
        16
    } else if s == 7 {
        8
    } else if s == 8 {
        4
    } else if s == 9 {
        2
    } else {
        1
    }
}

/// Decode a phrase into the entropy it encodes under the grammar
/// `seed_type`. Succeeds exactly when the word count is 12 or 24, every
/// word is on the wordlist, and the checksum matches the grammar's rule;
/// every failure is `InvalidMnemonic`.
pub fn mnemonic_to_entropy(words: &Vec<String>, seed_type: SeedType) -> (r: Result<Vec<u8>, Error>)
    ensures
        r matches Ok(e) ==> decode_ok(words@, seed_type) && e@ == entropy_of(idxs_of(words@)),
        r matches Err(err) ==> !decode_ok(words@, seed_type) && err == Error::InvalidMnemonic,
{
    let n = words.len();
    if n != 12 && n != 24 {
        return Err(Error::InvalidMnemonic);
    }
    // Look every word up on the list.
    let mut idxs: Vec<u16> = Vec::new();
    let mut i: usize = 0;
    while i < n
        invariant
            i <= n,
            n == words@.len(),
            idxs@.len() == i,
            forall|t: int|
                0 <= t < i ==> ((#[trigger] word_index_of(words@[t]@)) matches Some(ix) && idxs@[t]
                    == ix && ix < 2048),
        decreases n - i,
    {
        match word_index(&words[i]) {
            Some(ix) => {
                idxs.push(ix);
            },
            None => {
                return Err(Error::InvalidMnemonic);
            },
        }
        i = i + 1;
    }
    proof {
        assert(idxs@ =~= idxs_of(words@));
    }
    // Unpack each index into its 11 bits, most significant first.
    let mut bits: Vec<u8> = Vec::new();
    let mut w: usize = 0;
    while w < n
        invariant
            w <= n,
            n == words@.len(),
            idxs@.len() == n,
            idxs@ == idxs_of(words@),
            bits@.len() == 11 * w,
            forall|b: int|
                0 <= b < 11 * w ==> (#[trigger] bits@[b]) == bit_at(idxs@[b / 11], b % 11),
        decreases n - w,
    {
        let ix = idxs[w];
        let mut s: usize = 0;
        while s < 11
            invariant
                s <= 11,
                w < n,
                n == words@.len(),
                idxs@.len() == n,
                idxs@ == idxs_of(words@),
                ix == idxs@[w as int],
                bits@.len() == 11 * w + s,
                forall|b: int|
                    0 <= b < 11 * w + s ==> (#[trigger] bits@[b]) == bit_at(idxs@[b / 11], b % 11),
            decreases 11 - s,
        {
            let d = msb_div(s);
            bits.push(((ix / d) % 2) as u8);
            proof {
                let p = 11 * (w as int) + (s as int);
                assert(p / 11 == w && p % 11 == s) by (nonlinear_arith)
                    requires
                        p == 11 * (w as int) + (s as int),
                        0 <= s < 11,
                        0 <= w,
                ;
                assert(bits@[p] == bit_at(idxs@[p / 11], p % 11));
            }
            s = s + 1;
        }
        w = w + 1;
    }
    let ghost gbits = bits_of(idxs@);
    proof {
        assert(bits@ =~= gbits);
        assert(forall|b: int| 0 <= b < bits@.len() ==> (#[trigger] bits@[b]) <= 1);
    }
    // Assemble the entropy bytes.
    let ebytes: usize = if n == 12 { 16 } else { 32 };
    let cs: usize = if n == 12 { 4 } else { 8 };
    let mut entropy: Vec<u8> = Vec::new();
    let mut e: usize = 0;
    while e < ebytes
        invariant
            e <= ebytes,
            ebytes <= 32,
            8 * ebytes + cs == bits@.len(),
            cs <= 8,
            forall|b: int| 0 <= b < bits@.len() ==> (#[trigger] bits@[b]) <= 1,
            entropy@.len() == e,
            forall|t: int|
                0 <= t < e ==> (#[trigger] entropy@[t]) == bits_value(bits@, 8 * t, 8),
        decreases ebytes - e,
    {
        let v = bits_range_value(&bits, 8 * e, 8);
        entropy.push(v as u8);
        e = e + 1;
    }
    proof {
        assert(entropy@ =~= entropy_of(idxs@));
    }
    // The checksum the phrase carries.
    let actual = bits_range_value(&bits, 8 * ebytes, cs);
    // The checksum the grammar demands.
    let expected: u16 = match seed_type {
        SeedType::Bip39 => {
            let digest = sha256(&entropy);
            let d0 = digest[0];
            if cs == 4 {
                (d0 / 16) as u16
            } else {
                d0 as u16
            }
        },
        SeedType::Mobile => {
            let mut sum: u32 = 0;
            let mut t: usize = 0;
            while t < entropy.len()
                invariant
                    t <= entropy@.len(),
                    entropy@.len() <= 32,
                    sum == sum_prefix(entropy@, t as int),
                    sum <= 255 * t,
                decreases entropy@.len() - t,
            {
                sum = sum + (entropy[t] as u32);
                t = t + 1;
            }
            if cs == 4 {
                (sum % 16) as u16
            } else {
                (sum % 256) as u16
            }
        },
    };
    if actual == expected {
        Ok(entropy)
    } else {
        Err(Error::InvalidMnemonic)
    }
}

} // verus!
