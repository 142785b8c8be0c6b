//! Facts about the bytes of a text and small byte-level helpers.
//!
//! A `str` is its UTF-8 encoding in memory, and the journal protocol speaks bytes;
//! the contracts of the library are stated over `encode_utf8` of the characters.
use vstd::prelude::*;
use vstd::seq_lib::*;
use vstd::utf8::*;

verus! {

broadcast use vstd::seq_lib::group_seq_properties;

/// The line feed byte, the record separator of the native protocol.
pub const SALTO: u8 = 0x0A;

/// The `=` byte, which separates name and value in the short form.
pub const IGUAL: u8 = 0x3D;

/// Every byte of the UTF-8 encoding of a character that is not ASCII is at least 0x80.
proof fn lema_escalar_y_ascii(d: char, c: char)
    requires
        (c as u32) < 0x80,
    ensures
        encode_scalar(d as u32).contains(c as u8) <==> d == c,
{
    let v: u32 = d as u32;
    let x: u8 = c as u8;
    let w: u32 = c as u32;
    char_is_scalar(d);
    char_u32_cast(d, v);
    char_u32_cast(c, w);
    assert(x as u32 == w) by (bit_vector)
        requires
            w < 0x80,
            x == w as u8,
    ;
    let e = encode_scalar(v);
    if has_width_1_encoding(v) {
        assert(((v & 0x7F) as u8 == x) <==> v == (x as u32)) by (bit_vector)
            requires
                v <= 0x7f,
                x < 0x80,
        ;
        assert(e =~= seq![leading_byte_width_1(v)]);
        if e.contains(x) {
            let i: int = choose|i: int| 0 <= i < e.len() && e[i] == x;
            assert(i == 0);
        }
        if v == (x as u32) {
            assert(e[0] == x);
        }
    } else {
        assert(last_continuation_byte(v) >= 0x80) by (bit_vector);
        assert(second_last_continuation_byte(v) >= 0x80) by (bit_vector);
        assert(third_last_continuation_byte(v) >= 0x80) by (bit_vector);
        assert(leading_byte_width_2(v) >= 0x80) by (bit_vector);
        assert(leading_byte_width_3(v) >= 0x80) by (bit_vector);
        assert(leading_byte_width_4(v) >= 0x80) by (bit_vector);
        assert forall|i: int| 0 <= i < e.len() implies e[i] >= 0x80 by {}
    }
}

/// An ASCII character occurs in a text exactly when its byte occurs in the text's
/// UTF-8 encoding: multi-byte encodings use only bytes from 0x80 up.
pub proof fn lema_ascii_en_utf8(s: Seq<char>, c: char)
    requires
        (c as u32) < 0x80,
    ensures
        encode_utf8(s).contains(c as u8) <==> s.contains(c),
    decreases s.len(),
{
    if s.len() == 0 {
        assert(encode_utf8(s) =~= Seq::<u8>::empty());
    } else {
        let e = encode_scalar(s[0] as u32);
        let r = encode_utf8(s.drop_first());
        lema_ascii_en_utf8(s.drop_first(), c);
        lema_escalar_y_ascii(s[0], c);
        lemma_seq_concat_contains_all_elements(e, r, c as u8);
        if s.contains(c) {
            let i: int = choose|i: int| 0 <= i < s.len() && s[i] == c;
            if i > 0 {
                assert(s.drop_first()[i - 1] == s[i]);
            }
        }
        if s.drop_first().contains(c) {
            let i: int = choose|i: int| 0 <= i < s.drop_first().len() && s.drop_first()[i] == c;
            assert(s[i + 1] == s.drop_first()[i]);
        }
    }
}

/// The encoding of a text made only of ASCII characters has one byte per character,
/// each the character's own code.
pub proof fn lema_utf8_ascii(s: Seq<char>)
    requires
        is_ascii_chars(s),
    ensures
        encode_utf8(s).len() == s.len(),
        forall|i: int| 0 <= i < s.len() ==> #[trigger] encode_utf8(s)[i] == s[i] as u8,
{
    is_ascii_chars_encode_utf8(s);
}

/// The encoding of a concatenation is the concatenation of the encodings.
pub proof fn lema_utf8_concat(a: Seq<char>, b: Seq<char>)
    ensures
        encode_utf8(a + b) == encode_utf8(a) + encode_utf8(b),
    decreases a.len(),
{
    if a.len() == 0 {
        assert(a + b =~= b);
        assert(encode_utf8(a) =~= Seq::<u8>::empty());
        assert(encode_utf8(a) + encode_utf8(b) =~= encode_utf8(b));
    } else {
        lema_utf8_concat(a.drop_first(), b);
        assert((a + b).drop_first() =~= a.drop_first() + b);
        assert((a + b)[0] == a[0]);
        assert(encode_utf8(a + b) =~= encode_scalar(a[0] as u32) + (encode_utf8(a.drop_first())
            + encode_utf8(b)));
    }
}

/// A character takes at most four bytes.
pub proof fn lema_utf8_largo(s: Seq<char>)
    ensures
        encode_utf8(s).len() <= 4 * s.len(),
    decreases s.len(),
{
    if s.len() > 0 {
        lema_utf8_largo(s.drop_first());
    }
}

/// Two texts are equal exactly when their encodings are.
pub proof fn lema_utf8_inyectiva(a: Seq<char>, b: Seq<char>)
    ensures
        encode_utf8(a) == encode_utf8(b) <==> a == b,
{
    encode_utf8_decode_utf8(a);
    encode_utf8_decode_utf8(b);
}

/// Whether `b` holds the byte `x`.
pub fn contiene_byte(b: &[u8], x: u8) -> (r: bool)
    ensures
        r == b@.contains(x),
{
    let mut i: usize = 0;
    while i < b.len()
        invariant
            i <= b@.len(),
            forall|j: int| 0 <= j < i ==> b@[j] != x,
        decreases b@.len() - i,
    {
        if b[i] == x {
            assert(b@[i as int] == x);
            return true;
        }
        i = i + 1;
    }
    false
}

/// Appends the bytes of `b` to `salida`.
pub fn agregar(salida: &mut Vec<u8>, b: &[u8])
    ensures
        final(salida)@ == old(salida)@ + b@,
{
    let mut i: usize = 0;
    while i < b.len()
        invariant
            i <= b@.len(),
            salida@ == old(salida)@ + b@.take(i as int),
        decreases b@.len() - i,
    {
        salida.push(b[i]);
        assert(b@.take(i + 1) =~= b@.take(i as int).push(b@[i as int]));
        i = i + 1;
    }
    assert(b@.take(b@.len() as int) =~= b@);
}

/// Whether two texts are the same, compared byte by byte.
pub fn iguales(a: &str, b: &str) -> (r: bool)
    ensures
        r == (a@ == b@),
{
    let x = a.as_bytes();
    let y = b.as_bytes();
    proof {
        lema_utf8_inyectiva(a@, b@);
    }
    if x.len() != y.len() {
        return false;
    }
    let mut i: usize = 0;
    while i < x.len()
        invariant
            x@ == encode_utf8(a@),
            y@ == encode_utf8(b@),
            encode_utf8(a@) == encode_utf8(b@) <==> a@ == b@,
            x@.len() == y@.len(),
            i <= x@.len(),
            forall|j: int| 0 <= j < i ==> x@[j] == y@[j],
        decreases x@.len() - i,
    {
        if x[i] != y[i] {
            assert(x@[i as int] != y@[i as int]);
            return false;
        }
        i = i + 1;
    }
    assert(x@ =~= y@);
    true
}

} // verus!
