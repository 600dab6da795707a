//! Little-endian bytes and 4-byte alignment.

use vstd::prelude::*;

verus! {

/// The two little-endian bytes of the low 16 bits of `x`.
pub open spec fn le16(x: nat) -> Seq<u8> {
    seq![(x % 256) as u8, (x / 256 % 256) as u8]
}

/// The four little-endian bytes of the low 32 bits of `x`.
#[verifier::opaque]
pub open spec fn le32(x: nat) -> Seq<u8> {
    seq![
        (x % 256) as u8,
        (x / 256 % 256) as u8,
        (x / 65536 % 256) as u8,
        (x / 0x100_0000 % 256) as u8,
    ]
}

/// The number that four little-endian bytes hold.
#[verifier::opaque]
pub open spec fn le32_value(b: Seq<u8>) -> nat {
    (b[0] + b[1] * 256 + b[2] * 65536 + b[3] * 0x100_0000) as nat
}

/// A number below `2^32` reads back from its bytes.
pub proof fn lemma_le32_reads_back(x: nat)
    requires
        x < 0x1_0000_0000,
    ensures
        le32_value(le32(x)) == x,
{
    reveal(le32);
    reveal(le32_value);
}

/// Four bytes are four bytes.
pub proof fn lemma_le32_len(x: nat)
    ensures
        le32(x).len() == 4,
{
    reveal(le32);
}

/// 32-bit words, each as four bytes.
pub open spec fn le32_words(words: Seq<u32>) -> Seq<u8> {
    Seq::new((4 * words.len()) as nat, |k: int| le32(words[k / 4] as nat)[k % 4])
}

/// The low 16 bits of words, each as two bytes.
pub open spec fn le16_words(words: Seq<u32>) -> Seq<u8> {
    Seq::new((2 * words.len()) as nat, |k: int| le16(words[k / 2] as nat)[k % 2])
}

/// How many bytes complete `len` to a multiple of four.
pub open spec fn gap4(len: nat) -> nat {
    ((4 - len as int % 4) % 4) as nat
}

/// `bytes` completed to a multiple of four with `fill`.
pub open spec fn padded4(bytes: Seq<u8>, fill: u8) -> Seq<u8> {
    bytes + Seq::new(gap4(bytes.len()), |i: int| fill)
}

/// Append `more` to `out`.
pub fn extend(out: &mut Vec<u8>, more: &[u8])
    ensures
        final(out)@ == old(out)@ + more@,
{
    let ghost before = out@;
    let mut k: usize = 0;
    while k < more.len()
        invariant
            k <= more@.len(),
            out@ == before + more@.take(k as int),
        decreases more@.len() - k,
    {
        out.push(more[k]);
        k = k + 1;
        assert(out@ =~= before + more@.take(k as int));
    }
    assert(more@.take(k as int) =~= more@);
}

/// Append the four bytes of `x`.
pub fn push_le32(out: &mut Vec<u8>, x: u32)
    ensures
        final(out)@ == old(out)@ + le32(x as nat),
{
    let ghost before = out@;
    out.push((x % 256) as u8);
    out.push((x / 256 % 256) as u8);
    out.push((x / 65536 % 256) as u8);
    out.push((x / 0x100_0000 % 256) as u8);
    proof {
        reveal(le32);
    }
    assert(out@ =~= before + le32(x as nat));
}

/// Words as bytes, four each.
pub fn words32(words: &Vec<u32>) -> (out: Vec<u8>)
    ensures
        out@ == le32_words(words@),
{
    let mut out: Vec<u8> = Vec::new();
    let mut k: usize = 0;
    while k < words.len()
        invariant
            k <= words@.len(),
            out@ == le32_words(words@.take(k as int)),
        decreases words@.len() - k,
    {
        proof {
            lemma_le32_len(words@[k as int] as nat);
        }
        push_le32(&mut out, words[k]);
        k = k + 1;
        assert(out@ =~= le32_words(words@.take(k as int)));
    }
    assert(words@.take(k as int) =~= words@);
    out
}

/// The low 16 bits of words as bytes, two each.
pub fn words16(words: &Vec<u32>) -> (out: Vec<u8>)
    ensures
        out@ == le16_words(words@),
{
    let mut out: Vec<u8> = Vec::new();
    let mut k: usize = 0;
    while k < words.len()
        invariant
            k <= words@.len(),
            out@ == le16_words(words@.take(k as int)),
        decreases words@.len() - k,
    {
        let x: u32 = words[k];
        out.push((x % 256) as u8);
        out.push((x / 256 % 256) as u8);
        k = k + 1;
        assert(out@ =~= le16_words(words@.take(k as int)));
    }
    assert(words@.take(k as int) =~= words@);
    out
}

/// Pad `buf` to a multiple of 4 bytes. GLB requires 4-byte alignment
/// everywhere: spaces inside the JSON chunk (still valid JSON), zeros in
/// binary data.
pub fn pad_to_4(buf: &mut Vec<u8>, fill: u8)
    ensures
        final(buf)@ == padded4(old(buf)@, fill),
        final(buf)@.len() % 4 == 0,
{
    let ghost before = buf@;
    while buf.len() % 4 != 0
        invariant
            before.len() <= buf@.len() <= before.len() + gap4(before.len()),
            buf@ == before + Seq::new((buf@.len() - before.len()) as nat, |i: int| fill),
        decreases before.len() + gap4(before.len()) - buf@.len(),
    {
        buf.push(fill);
        assert(buf@ =~= before + Seq::new((buf@.len() - before.len()) as nat, |i: int| fill));
    }
    assert(buf@ =~= padded4(before, fill));
}

/// The number in the two bytes from `at` on, the lowest first.
pub open spec fn little16(s: Seq<u8>, at: int) -> int {
    s[at] + 256 * s[at + 1]
}

/// The number in the four bytes from `at` on, the lowest first.
pub open spec fn little32(s: Seq<u8>, at: int) -> int {
    s[at] + 256 * (s[at + 1] + 256 * (s[at + 2] + 256 * s[at + 3]))
}

/// 32-bit words are stored one behind the other, four bytes each, the lowest
/// byte first: each can be read where it stands.
pub proof fn law_words_are_stored_lowest_byte_first(words: Seq<u32>, k: int)
    requires
        0 <= k < words.len(),
    ensures
        le32_words(words).len() == 4 * words.len(),
        little32(le32_words(words), 4 * k) == words[k],
{
    reveal(le32);
    let x = words[k] as nat;
    let s = le32_words(words);
    assert(s[4 * k] == le32(x)[0]);
    assert(s[4 * k + 1] == le32(x)[1]);
    assert(s[4 * k + 2] == le32(x)[2]);
    assert(s[4 * k + 3] == le32(x)[3]);
}

/// So are 16-bit words, two bytes each.
pub proof fn law_half_words_are_stored_lowest_byte_first(words: Seq<u32>, k: int)
    requires
        0 <= k < words.len(),
    ensures
        le16_words(words).len() == 2 * words.len(),
        words[k] < 65536 ==> little16(le16_words(words), 2 * k) == words[k],
{
    let x = words[k] as nat;
    let s = le16_words(words);
    assert(s[2 * k] == le16(x)[0]);
    assert(s[2 * k + 1] == le16(x)[1]);
}

/// A number below `2^32` can be read from its four bytes, the lowest first.
pub proof fn law_numbers_read_back(x: nat)
    requires
        x < 0x1_0000_0000,
    ensures
        le32(x).len() == 4,
        little32(le32(x), 0) == x,
{
    reveal(le32);
}

/// Padding appends fewer than four bytes, all of them `fill`, up to a length
/// that is a multiple of four.
pub proof fn law_padding_only_appends(s: Seq<u8>, fill: u8)
    ensures
        padded4(s, fill).len() % 4 == 0,
        s.len() <= padded4(s, fill).len() < s.len() + 4,
        padded4(s, fill).take(s.len() as int) == s,
        forall|k: int|
            s.len() <= k < padded4(s, fill).len() ==> #[trigger] padded4(s, fill)[k] == fill,
{
    assert(padded4(s, fill).take(s.len() as int) =~= s);
}

} // verus!
