//! The order of keys as the storage engine sees it.
//!
//! The engine compares keys byte by byte, in their UTF-8 form. That order is
//! the order of the keys as sequences of characters: UTF-8 was designed so.
//! What is proved of the order of keys as texts therefore holds of their
//! order in the table.

use crate::text::{lemma_lex_lt_common_prefix, lex_lt};
use vstd::prelude::*;
use vstd::utf8::{
    encode_scalar, encode_utf8, has_width_1_encoding, has_width_2_encoding, has_width_3_encoding,
    is_scalar, last_continuation_byte, leading_byte_width_1, leading_byte_width_2,
    leading_byte_width_3, leading_byte_width_4, second_last_continuation_byte,
    third_last_continuation_byte,
};

verus! {

/// Strict lexicographic order on byte sequences: the order in which the
/// storage engine compares keys.
pub open spec fn bytes_lt(a: Seq<u8>, b: Seq<u8>) -> bool {
    exists|i: int|
        #![trigger a.take(i)]
        {
            &&& 0 <= i <= a.len()
            &&& i < b.len()
            &&& a.take(i) == b.take(i)
            &&& i < a.len() ==> a[i] < b[i]
        }
}

/// Whether `x` and `y` agree before `j` and `x` has the smaller byte at `j`.
pub open spec fn differ_at(x: Seq<u8>, y: Seq<u8>, j: int) -> bool {
    &&& 0 <= j < x.len()
    &&& j < y.len()
    &&& x.take(j) == y.take(j)
    &&& x[j] < y[j]
}

/// Of two scalars, the smaller has the smaller byte where their encodings
/// first differ, and they do differ within both.
pub proof fn lemma_scalar_order(c1: u32, c2: u32)
    requires
        is_scalar(c1),
        is_scalar(c2),
        c1 < c2,
    ensures
        exists|j: int| #[trigger] differ_at(encode_scalar(c1), encode_scalar(c2), j),
{
    let x = encode_scalar(c1);
    let y = encode_scalar(c2);
    if has_width_1_encoding(c1) {
        let a1 = leading_byte_width_1(c1);
        if has_width_1_encoding(c2) {
            let a2 = leading_byte_width_1(c2);
            assert(a1 < a2) by (bit_vector)
                requires
                    a1 == (c1 & 0x7F) as u8,
                    a2 == (c2 & 0x7F) as u8,
                    c1 < c2,
                    c2 <= 0x7F,
            ;
        } else if has_width_2_encoding(c2) {
            let a2 = leading_byte_width_2(c2);
            assert(a1 < a2) by (bit_vector)
                requires
                    a1 == (c1 & 0x7F) as u8,
                    a2 == 0xC0u8 | ((c2 >> 6) & 0x1F) as u8,
            ;
        } else if has_width_3_encoding(c2) {
            let a2 = leading_byte_width_3(c2);
            assert(a1 < a2) by (bit_vector)
                requires
                    a1 == (c1 & 0x7F) as u8,
                    a2 == 0xE0u8 | ((c2 >> 12) & 0x0F) as u8,
            ;
        } else {
            let a2 = leading_byte_width_4(c2);
            assert(a1 < a2) by (bit_vector)
                requires
                    a1 == (c1 & 0x7F) as u8,
                    a2 == 0xF0u8 | ((c2 >> 18) & 0x7) as u8,
            ;
        }
        assert(x.take(0) == y.take(0));
        assert(differ_at(x, y, 0));
    } else if has_width_2_encoding(c1) {
        let a1 = leading_byte_width_2(c1);
        let b1 = last_continuation_byte(c1);
        if has_width_2_encoding(c2) {
            let a2 = leading_byte_width_2(c2);
            let b2 = last_continuation_byte(c2);
            assert(a1 < a2 || (a1 == a2 && b1 < b2)) by (bit_vector)
                requires
                    a1 == 0xC0u8 | ((c1 >> 6) & 0x1F) as u8,
                    a2 == 0xC0u8 | ((c2 >> 6) & 0x1F) as u8,
                    b1 == 0x80u8 | (c1 & 0x3F) as u8,
                    b2 == 0x80u8 | (c2 & 0x3F) as u8,
                    c1 < c2,
                    c2 <= 0x7FF,
            ;
            if a1 < a2 {
                assert(x.take(0) == y.take(0));
                assert(differ_at(x, y, 0));
            } else {
                assert(x.take(1) == y.take(1));
                assert(differ_at(x, y, 1));
            }
        } else {
            if has_width_3_encoding(c2) {
                let a2 = leading_byte_width_3(c2);
                assert(a1 < a2) by (bit_vector)
                    requires
                        a1 == 0xC0u8 | ((c1 >> 6) & 0x1F) as u8,
                        a2 == 0xE0u8 | ((c2 >> 12) & 0x0F) as u8,
                ;
            } else {
                let a2 = leading_byte_width_4(c2);
                assert(a1 < a2) by (bit_vector)
                    requires
                        a1 == 0xC0u8 | ((c1 >> 6) & 0x1F) as u8,
                        a2 == 0xF0u8 | ((c2 >> 18) & 0x7) as u8,
                ;
            }
            assert(x.take(0) == y.take(0));
            assert(differ_at(x, y, 0));
        }
    } else if has_width_3_encoding(c1) {
        let a1 = leading_byte_width_3(c1);
        let b1 = second_last_continuation_byte(c1);
        let d1 = last_continuation_byte(c1);
        if has_width_3_encoding(c2) {
            let a2 = leading_byte_width_3(c2);
            let b2 = second_last_continuation_byte(c2);
            let d2 = last_continuation_byte(c2);
            assert(a1 < a2 || (a1 == a2 && (b1 < b2 || (b1 == b2 && d1 < d2)))) by (bit_vector)
                requires
                    a1 == 0xE0u8 | ((c1 >> 12) & 0x0F) as u8,
                    a2 == 0xE0u8 | ((c2 >> 12) & 0x0F) as u8,
                    b1 == 0x80u8 | ((c1 >> 6) & 0x3F) as u8,
                    b2 == 0x80u8 | ((c2 >> 6) & 0x3F) as u8,
                    d1 == 0x80u8 | (c1 & 0x3F) as u8,
                    d2 == 0x80u8 | (c2 & 0x3F) as u8,
                    c1 < c2,
                    c2 <= 0xFFFF,
            ;
            if a1 < a2 {
                assert(x.take(0) == y.take(0));
                assert(differ_at(x, y, 0));
            } else if b1 < b2 {
                assert(x.take(1) == y.take(1));
                assert(differ_at(x, y, 1));
            } else {
                assert(x.take(2) == y.take(2));
                assert(differ_at(x, y, 2));
            }
        } else {
            let a2 = leading_byte_width_4(c2);
            assert(a1 < a2) by (bit_vector)
                requires
                    a1 == 0xE0u8 | ((c1 >> 12) & 0x0F) as u8,
                    a2 == 0xF0u8 | ((c2 >> 18) & 0x7) as u8,
            ;
            assert(x.take(0) == y.take(0));
            assert(differ_at(x, y, 0));
        }
    } else {
        let a1 = leading_byte_width_4(c1);
        let b1 = third_last_continuation_byte(c1);
        let d1 = second_last_continuation_byte(c1);
        let e1 = last_continuation_byte(c1);
        let a2 = leading_byte_width_4(c2);
        let b2 = third_last_continuation_byte(c2);
        let d2 = second_last_continuation_byte(c2);
        let e2 = last_continuation_byte(c2);
        assert(a1 < a2 || (a1 == a2 && (b1 < b2 || (b1 == b2 && (d1 < d2 || (d1 == d2 && e1
            < e2)))))) by (bit_vector)
            requires
                a1 == 0xF0u8 | ((c1 >> 18) & 0x7) as u8,
                a2 == 0xF0u8 | ((c2 >> 18) & 0x7) as u8,
                b1 == 0x80u8 | ((c1 >> 12) & 0x3F) as u8,
                b2 == 0x80u8 | ((c2 >> 12) & 0x3F) as u8,
                d1 == 0x80u8 | ((c1 >> 6) & 0x3F) as u8,
                d2 == 0x80u8 | ((c2 >> 6) & 0x3F) as u8,
                e1 == 0x80u8 | (c1 & 0x3F) as u8,
                e2 == 0x80u8 | (c2 & 0x3F) as u8,
                c1 < c2,
                c2 <= 0x10FFFF,
        ;
        if a1 < a2 {
            assert(x.take(0) == y.take(0));
            assert(differ_at(x, y, 0));
        } else if b1 < b2 {
            assert(x.take(1) == y.take(1));
            assert(differ_at(x, y, 1));
        } else if d1 < d2 {
            assert(x.take(2) == y.take(2));
            assert(differ_at(x, y, 2));
        } else {
            assert(x.take(3) == y.take(3));
            assert(differ_at(x, y, 3));
        }
    }
}

/// The bytes of a text are the bytes of its parts, one after the other.
pub proof fn lemma_encode_utf8_concat(a: Seq<char>, b: Seq<char>)
    ensures
        encode_utf8(a + b) == encode_utf8(a) + encode_utf8(b),
    decreases a.len(),
{
    if a.len() == 0 {
        assert(a + b == b);
    } else {
        lemma_encode_utf8_concat(a.drop_first(), b);
        assert((a + b).drop_first() == a.drop_first() + b);
        assert((a + b)[0] == a[0]);
    }
}

/// A character is a scalar, and its number is the same in every width.
pub proof fn lemma_char_is_scalar(c: char)
    ensures
        is_scalar(c as u32),
        (c as u32) as int == c as int,
{
}

/// Byte sequences that are in order stay in order behind a common prefix.
pub proof fn lemma_bytes_lt_common_prefix(p: Seq<u8>, a: Seq<u8>, b: Seq<u8>)
    requires
        bytes_lt(a, b),
    ensures
        bytes_lt(p + a, p + b),
{
    let i = choose|i: int|
        #![trigger a.take(i)]
        {
            &&& 0 <= i <= a.len()
            &&& i < b.len()
            &&& a.take(i) == b.take(i)
            &&& i < a.len() ==> a[i] < b[i]
        };
    let k = p.len() + i;
    assert((p + a).take(k) == p + a.take(i));
    assert((p + b).take(k) == p + b.take(i));
    assert((p + b)[k] == b[i]);
    if i < a.len() {
        assert((p + a)[k] == a[i]);
    }
}

/// Byte sequences that differ within both stay in order whatever follows
/// them.
pub proof fn lemma_differ_at_extends(x: Seq<u8>, y: Seq<u8>, s: Seq<u8>, t: Seq<u8>, j: int)
    requires
        differ_at(x, y, j),
    ensures
        bytes_lt(x + s, y + t),
{
    assert((x + s).take(j) == x.take(j));
    assert((y + t).take(j) == y.take(j));
    assert((x + s)[j] == x[j]);
    assert((y + t)[j] == y[j]);
}

/// UTF-8 keeps the order: texts that are in order as sequences of characters
/// have UTF-8 forms that are in order as sequences of bytes.
pub proof fn lemma_utf8_keeps_order(a: Seq<char>, b: Seq<char>)
    requires
        lex_lt(a, b),
    ensures
        bytes_lt(encode_utf8(a), encode_utf8(b)),
{
    let i = choose|i: int|
        #![trigger a.take(i)]
        {
            &&& 0 <= i <= a.len()
            &&& i <= b.len()
            &&& a.take(i) == b.take(i)
            &&& i < b.len()
            &&& i < a.len() ==> (a[i] as int) < (b[i] as int)
        };
    let p = a.take(i);
    let ra = a.skip(i);
    let rb = b.skip(i);
    assert(a == p + ra);
    assert(b == p + rb);
    lemma_encode_utf8_concat(p, ra);
    lemma_encode_utf8_concat(p, rb);
    let x = encode_scalar(rb[0] as u32);
    lemma_char_is_scalar(rb[0]);
    assert(encode_utf8(rb) == x + encode_utf8(rb.drop_first()));
    if i == a.len() {
        assert(encode_utf8(ra) == Seq::<u8>::empty());
        assert(bytes_lt(encode_utf8(ra), encode_utf8(rb))) by {
            assert(encode_utf8(ra).take(0) == encode_utf8(rb).take(0));
        }
    } else {
        lemma_char_is_scalar(ra[0]);
        assert(encode_utf8(ra) == encode_scalar(ra[0] as u32) + encode_utf8(ra.drop_first()));
        lemma_scalar_order(ra[0] as u32, rb[0] as u32);
        let j = choose|j: int| #[trigger] differ_at(encode_scalar(ra[0] as u32), x, j);
        lemma_differ_at_extends(
            encode_scalar(ra[0] as u32),
            x,
            encode_utf8(ra.drop_first()),
            encode_utf8(rb.drop_first()),
            j,
        );
    }
    lemma_bytes_lt_common_prefix(encode_utf8(p), encode_utf8(ra), encode_utf8(rb));
}

/// Of two different texts, one sorts before the other.
pub proof fn lemma_lex_lt_total(a: Seq<char>, b: Seq<char>)
    requires
        a != b,
    ensures
        lex_lt(a, b) || lex_lt(b, a),
    decreases a.len(),
{
    if a.len() == 0 {
        assert(b.len() > 0) by {
            if b.len() == 0 {
                assert(a =~= b);
            }
        }
        assert(a.take(0) == b.take(0));
    } else if b.len() == 0 {
        assert(b.take(0) == a.take(0));
    } else if a[0] != b[0] {
        lemma_char_is_scalar(a[0]);
        lemma_char_is_scalar(b[0]);
        assert(a.take(0) == b.take(0));
        assert(b.take(0) == a.take(0));
    } else {
        let head = seq![a[0]];
        assert(a == head + a.drop_first());
        assert(b == head + b.drop_first());
        lemma_lex_lt_total(a.drop_first(), b.drop_first());
        if lex_lt(a.drop_first(), b.drop_first()) {
            lemma_lex_lt_common_prefix(head, a.drop_first(), b.drop_first());
        } else {
            lemma_lex_lt_common_prefix(head, b.drop_first(), a.drop_first());
        }
    }
}

/// Of two byte sequences, at most one sorts before the other, and none sorts
/// before itself.
pub proof fn lemma_bytes_lt_asymmetric(x: Seq<u8>, y: Seq<u8>)
    requires
        bytes_lt(x, y),
    ensures
        !bytes_lt(y, x),
        x != y,
{
    let i = choose|i: int|
        #![trigger x.take(i)]
        {
            &&& 0 <= i <= x.len()
            &&& i < y.len()
            &&& x.take(i) == y.take(i)
            &&& i < x.len() ==> x[i] < y[i]
        };
    if bytes_lt(y, x) {
        let k = choose|k: int|
            #![trigger y.take(k)]
            {
                &&& 0 <= k <= y.len()
                &&& k < x.len()
                &&& y.take(k) == x.take(k)
                &&& k < y.len() ==> y[k] < x[k]
            };
        if i < k {
            assert(y.take(k)[i] == x.take(k)[i]);
        } else if k < i {
            assert(x.take(i)[k] == y.take(i)[k]);
        }
    }
}

/// The order of the table is the order of the texts: one key sorts before
/// another as a sequence of characters exactly where its UTF-8 form sorts
/// before the other's byte by byte.
pub proof fn lemma_utf8_order(a: Seq<char>, b: Seq<char>)
    ensures
        lex_lt(a, b) <==> bytes_lt(encode_utf8(a), encode_utf8(b)),
{
    if lex_lt(a, b) {
        lemma_utf8_keeps_order(a, b);
    }
    if bytes_lt(encode_utf8(a), encode_utf8(b)) {
        lemma_bytes_lt_asymmetric(encode_utf8(a), encode_utf8(b));
        if a != b {
            lemma_lex_lt_total(a, b);
            if lex_lt(b, a) {
                lemma_utf8_keeps_order(b, a);
            }
        }
    }
}

} // verus!
