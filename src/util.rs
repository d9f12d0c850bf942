//! Ordering checks on slices and the little-endian word/byte encoding.

use std::borrow::Cow;
use vstd::prelude::*;
use vstd::std_specs::cmp::{PartialOrdIs, PartialOrdSpec};

verus! {

/// Every key is no greater than the one after it.
pub open spec fn keys_in_order<K: PartialOrd>(ks: Seq<K>) -> bool {
    forall|i: int| 0 <= i < ks.len() - 1 ==> !(#[trigger] ks[i]).is_gt(&ks[i + 1])
}

/// `ks` holds, item by item, keys that `f` can return for the items of `s`.
pub open spec fn keys_of<'a, T: 'a, K, F: Fn(&'a T) -> K>(f: F, s: Seq<T>, ks: Seq<K>) -> bool {
    &&& ks.len() == s.len()
    &&& forall|i: int| 0 <= i < s.len() ==> f.ensures((&s[i],), #[trigger] ks[i])
}

/// Checks that a slice of ordered values is sorted in non-decreasing order.
pub fn is_slice_sorted<'a, T: Ord>(slice: &'a [T]) -> (r: bool)
    ensures
        T::obeys_partial_cmp_spec() ==> (r <==> forall|i: int|
            0 <= i < slice@.len() - 1 ==> !(#[trigger] slice@[i]).is_gt(&slice@[i + 1])),
{
    let key = |i: &'a T| -> (k: &'a T) ensures k == i { i };
    let r = is_slice_sorted_by_key(slice, key);
    proof {
        if T::obeys_partial_cmp_spec() {
            if r {
                let ks = choose|ks: Seq<&'a T>| keys_of(key, slice@, ks) && keys_in_order(ks);
                assert forall|i: int| 0 <= i < slice@.len() - 1 implies !(#[trigger] slice@[i]).is_gt(&slice@[i + 1]) by {
                    assert(ks[i] == &slice@[i]);
                    assert(ks[i + 1] == &slice@[i + 1]);
                }
            } else {
                let (i, a, b) = choose|i: int, a: &'a T, b: &'a T|
                    #![trigger key.ensures((&slice@[i],), a), key.ensures((&slice@[i + 1],), b)]
                    0 <= i < slice@.len() - 1 && key.ensures((&slice@[i],), a) && key.ensures(
                        (&slice@[i + 1],),
                        b,
                    ) && a.is_gt(&b);
                assert(slice@[i].is_gt(&slice@[i + 1]));
            }
        }
    }
    r
}

/// Checks that the keys that `f` gives for the items of a slice come in
/// non-decreasing order.
pub fn is_slice_sorted_by_key<'a, T, K: Ord, F: Fn(&'a T) -> K>(slice: &'a [T], f: F) -> (r: bool)
    requires
        forall|i: int| 0 <= i < slice@.len() ==> f.requires((#[trigger] &slice@[i],)),
    ensures
        K::obeys_partial_cmp_spec() && r ==> exists|ks: Seq<K>|
            keys_of(f, slice@, ks) && keys_in_order(ks),
        K::obeys_partial_cmp_spec() && !r ==> exists|i: int, a: K, b: K|
            #![trigger f.ensures((&slice@[i],), a), f.ensures((&slice@[i + 1],), b)]
            0 <= i < slice@.len() - 1 && f.ensures((&slice@[i],), a) && f.ensures(
                (&slice@[i + 1],),
                b,
            ) && a.is_gt(&b),
{
    if slice.len() == 0 {
        assert(keys_of(f, slice@, Seq::<K>::empty()));
        assert(keys_in_order(Seq::<K>::empty()));
        return true;
    }
    let mut cmp = f(&slice[0]);
    let ghost mut ks: Seq<K> = seq![cmp];
    let mut i: usize = 1;
    while i < slice.len()
        invariant
            1 <= i <= slice@.len(),
            ks.len() == i,
            ks[i - 1] == cmp,
            forall|j: int| 0 <= j < slice@.len() ==> f.requires((#[trigger] &slice@[j],)),
            forall|j: int| 0 <= j < i ==> f.ensures((&slice@[j],), #[trigger] ks[j]),
            K::obeys_partial_cmp_spec() ==> keys_in_order(ks),
        decreases slice@.len() - i,
    {
        let item = f(&slice[i]);
        if cmp > item {
            assert(f.ensures((&slice@[i - 1],), ks[i - 1]));
            return false;
        }
        proof {
            ks = ks.push(item);
        }
        cmp = item;
        i = i + 1;
    }
    assert(keys_of(f, slice@, ks));
    assert(K::obeys_partial_cmp_spec() ==> keys_of(f, slice@, ks) && keys_in_order(ks));
    true
}

/// Byte `j` (0 = least significant) of a word.
pub open spec fn byte_of(w: u32, j: int) -> u8 {
    if j == 0 {
        (w & 0xff) as u8
    } else if j == 1 {
        ((w >> 8u32) & 0xff) as u8
    } else if j == 2 {
        ((w >> 16u32) & 0xff) as u8
    } else {
        ((w >> 24u32) & 0xff) as u8
    }
}

/// The word whose little-endian bytes are `b0 b1 b2 b3`.
pub open spec fn word_of(b0: u8, b1: u8, b2: u8, b3: u8) -> u32 {
    (b0 as u32) | ((b1 as u32) << 8u32) | ((b2 as u32) << 16u32) | ((b3 as u32) << 24u32)
}

/// Each word written as four bytes, least significant first.
pub open spec fn words_to_bytes(ws: Seq<u32>) -> Seq<u8> {
    Seq::new(4 * ws.len(), |k: int| byte_of(ws[k / 4], k % 4))
}

/// Each run of four bytes read back as one little-endian word.
pub open spec fn bytes_to_words(bs: Seq<u8>) -> Seq<u32> {
    Seq::new(
        bs.len() / 4,
        |i: int| word_of(bs[4 * i], bs[4 * i + 1], bs[4 * i + 2], bs[4 * i + 3]),
    )
}

proof fn lemma_word_bytes(w: u32)
    ensures
        word_of(byte_of(w, 0), byte_of(w, 1), byte_of(w, 2), byte_of(w, 3)) == w,
{
    assert((((w & 0xff) as u8) as u32) | (((((w >> 8u32) & 0xff) as u8) as u32) << 8u32) | (((((w
        >> 16u32) & 0xff) as u8) as u32) << 16u32) | (((((w >> 24u32) & 0xff) as u8) as u32)
        << 24u32) == w) by (bit_vector);
}

proof fn lemma_bytes_word(b0: u8, b1: u8, b2: u8, b3: u8)
    ensures
        byte_of(word_of(b0, b1, b2, b3), 0) == b0,
        byte_of(word_of(b0, b1, b2, b3), 1) == b1,
        byte_of(word_of(b0, b1, b2, b3), 2) == b2,
        byte_of(word_of(b0, b1, b2, b3), 3) == b3,
{
    let w = word_of(b0, b1, b2, b3);
    assert(w == (b0 as u32) | ((b1 as u32) << 8u32) | ((b2 as u32) << 16u32) | ((b3 as u32)
        << 24u32));
    assert(((((b0 as u32) | ((b1 as u32) << 8u32) | ((b2 as u32) << 16u32) | ((b3 as u32)
        << 24u32)) & 0xff) as u8) == b0) by (bit_vector);
    assert((((((b0 as u32) | ((b1 as u32) << 8u32) | ((b2 as u32) << 16u32) | ((b3 as u32)
        << 24u32)) >> 8u32) & 0xff) as u8) == b1) by (bit_vector);
    assert((((((b0 as u32) | ((b1 as u32) << 8u32) | ((b2 as u32) << 16u32) | ((b3 as u32)
        << 24u32)) >> 16u32) & 0xff) as u8) == b2) by (bit_vector);
    assert((((((b0 as u32) | ((b1 as u32) << 8u32) | ((b2 as u32) << 16u32) | ((b3 as u32)
        << 24u32)) >> 24u32) & 0xff) as u8) == b3) by (bit_vector);
}

/// Encoding words as bytes and reading them back gives the same words.
pub proof fn lemma_words_round_trip(ws: Seq<u32>)
    ensures
        bytes_to_words(words_to_bytes(ws)) == ws,
{
    let bs = words_to_bytes(ws);
    assert forall|i: int| 0 <= i < ws.len() implies #[trigger] bytes_to_words(bs)[i] == ws[i] by {
        assert((4 * i) / 4 == i && (4 * i) % 4 == 0) by (nonlinear_arith);
        assert((4 * i + 1) / 4 == i && (4 * i + 1) % 4 == 1) by (nonlinear_arith);
        assert((4 * i + 2) / 4 == i && (4 * i + 2) % 4 == 2) by (nonlinear_arith);
        assert((4 * i + 3) / 4 == i && (4 * i + 3) % 4 == 3) by (nonlinear_arith)
            ;
        assert(4 * i + 3 < 4 * ws.len()) by (nonlinear_arith)
            requires
                0 <= i < ws.len(),
        ;
        lemma_word_bytes(ws[i]);
    }
    assert((4 * ws.len()) / 4 == ws.len()) by (nonlinear_arith);
    assert(bytes_to_words(bs) =~= ws);
}

/// Reading bytes whose count is a multiple of four as words and encoding the
/// words again gives the same bytes.
pub proof fn lemma_bytes_round_trip(bs: Seq<u8>)
    requires
        bs.len() % 4 == 0,
    ensures
        words_to_bytes(bytes_to_words(bs)) == bs,
{
    let ws = bytes_to_words(bs);
    assert(4 * (bs.len() / 4) == bs.len());
    assert forall|k: int| 0 <= k < bs.len() implies #[trigger] words_to_bytes(ws)[k] == bs[k] by {
        let i = k / 4;
        let j = k % 4;
        assert(k == 4 * i + j);
        assert(0 <= i < bs.len() / 4);
        lemma_bytes_word(bs[4 * i], bs[4 * i + 1], bs[4 * i + 2], bs[4 * i + 3]);
    }
    assert(words_to_bytes(ws) =~= bs);
}

/// Writes one word's four bytes, least significant first.
fn push_word(out: &mut Vec<u8>, w: u32)
    ensures
        final(out)@ == old(out)@ + seq![byte_of(w, 0), byte_of(w, 1), byte_of(w, 2), byte_of(w, 3)],
{
    out.push((w & 0xff) as u8);
    out.push(((w >> 8u32) & 0xff) as u8);
    out.push(((w >> 16u32) & 0xff) as u8);
    out.push(((w >> 24u32) & 0xff) as u8);
}

/// Encodes a slice of words as bytes, least significant byte of each word first.
pub fn cast_slice(slice: &[u32]) -> (r: Vec<u8>)
    requires
        4 * slice@.len() <= usize::MAX,
    ensures
        r@ == words_to_bytes(slice@),
{
    let mut out: Vec<u8> = Vec::new();
    let mut i: usize = 0;
    while i < slice.len()
        invariant
            i <= slice@.len(),
            4 * slice@.len() <= usize::MAX,
            out@ == words_to_bytes(slice@.subrange(0, i as int)),
        decreases slice@.len() - i,
    {
        let ghost before = out@;
        push_word(&mut out, slice[i]);
        proof {
            let pre = slice@.subrange(0, i as int);
            let post = slice@.subrange(0, i + 1);
            assert forall|k: int| 0 <= k < 4 * post.len() implies #[trigger] out@[k] == byte_of(
                post[k / 4],
                k % 4,
            ) by {
                if k < 4 * i {
                    assert(out@[k] == before[k]);
                    assert(k / 4 < i) by (nonlinear_arith)
                        requires
                            0 <= k < 4 * i,
                    ;
                    assert(post[k / 4] == pre[k / 4]);
                } else {
                    assert(k / 4 == i) by (nonlinear_arith)
                        requires
                            4 * i <= k < 4 * (i + 1),
                    ;
                }
            }
            assert(out@ =~= words_to_bytes(post));
        }
        i = i + 1;
    }
    assert(slice@.subrange(0, i as int) =~= slice@);
    out
}

/// Encodes a vector of words as bytes, least significant byte of each word first.
pub fn cast_vec(vec: Vec<u32>) -> (r: Vec<u8>)
    requires
        4 * vec@.len() <= usize::MAX,
    ensures
        r@ == words_to_bytes(vec@),
{
    cast_slice(vec.as_slice())
}

/// Encodes borrowed or owned words as bytes; the result is always owned.
pub fn cast_cow(cow: Cow<'_, [u32]>) -> (r: Cow<'_, [u8]>)
    requires
        match cow {
            Cow::Borrowed(s) => 4 * s@.len() <= usize::MAX,
            Cow::Owned(v) => 4 * v@.len() <= usize::MAX,
        },
    ensures
        match cow {
            Cow::Borrowed(s) => r matches Cow::Owned(b) && b@ == words_to_bytes(s@),
            Cow::Owned(v) => r matches Cow::Owned(b) && b@ == words_to_bytes(v@),
        },
{
    match cow {
        Cow::Borrowed(slice) => Cow::Owned(cast_slice(slice)),
        Cow::Owned(vec) => Cow::Owned(cast_vec(vec)),
    }
}

} // verus!
