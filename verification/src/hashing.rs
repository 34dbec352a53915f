//! What values feed to a hasher.

use std::collections::hash_map::DefaultHasher;
use std::hash::Hasher;
use vstd::prelude::*;

verus! {

/// A number of four bytes, lowest byte first.
pub open spec fn i32_write(n: i32) -> Seq<u8> {
    vstd::bytes::spec_u32_to_le_bytes(n as u32)
}

/// A number of four bytes, lowest byte first.
pub open spec fn u32_write(n: u32) -> Seq<u8> {
    vstd::bytes::spec_u32_to_le_bytes(n)
}

/// A number of eight bytes, lowest byte first.
pub open spec fn u64_write(n: u64) -> Seq<u8> {
    vstd::bytes::spec_u64_to_le_bytes(n)
}

/// A text: its bytes, then a byte that no text holds.
pub open spec fn text_writes(text: Seq<char>) -> Seq<Seq<u8>> {
    seq![vstd::utf8::encode_utf8(text), seq![0xffu8]]
}

/// The number that a fresh hasher gives after it was fed these bytes.
pub open spec fn hash_of(writes: Seq<Seq<u8>>) -> u64 {
    <DefaultHasher as vstd::std_specs::hash::DefaultHasherAdditionalSpecFns>::spec_finish(writes)
}

/// Feeds a number to the hasher.
pub fn hash_i32(hasher: &mut DefaultHasher, n: i32)
    ensures
        final(hasher)@ == old(hasher)@.push(i32_write(n)),
{
    let bytes = vstd::bytes::u32_to_le_bytes(n as u32);
    hasher.write(bytes.as_slice());
}

/// Feeds a number to the hasher.
pub fn hash_u32(hasher: &mut DefaultHasher, n: u32)
    ensures
        final(hasher)@ == old(hasher)@.push(u32_write(n)),
{
    let bytes = vstd::bytes::u32_to_le_bytes(n);
    hasher.write(bytes.as_slice());
}

/// Feeds a number to the hasher.
pub fn hash_u64(hasher: &mut DefaultHasher, n: u64)
    ensures
        final(hasher)@ == old(hasher)@.push(u64_write(n)),
{
    let bytes = vstd::bytes::u64_to_le_bytes(n);
    hasher.write(bytes.as_slice());
}

/// Feeds a text to the hasher.
pub fn hash_text(hasher: &mut DefaultHasher, text: &str)
    ensures
        final(hasher)@ == old(hasher)@ + text_writes(text@),
{
    hasher.write(text.as_bytes());
    let mut end: Vec<u8> = Vec::new();
    end.push(0xff);
    hasher.write(end.as_slice());
    assert(end@ =~= seq![0xffu8]);
    assert(hasher@ =~= old(hasher)@ + text_writes(text@));
}

/// What a hasher is fed tells numbers apart, and texts.
pub proof fn law_writes_tell_values_apart()
    ensures
        forall|a: i32, b: i32| #[trigger] i32_write(a) == #[trigger] i32_write(b) ==> a == b,
        forall|a: u32, b: u32| #[trigger] u32_write(a) == #[trigger] u32_write(b) ==> a == b,
        forall|a: u64, b: u64| #[trigger] u64_write(a) == #[trigger] u64_write(b) ==> a == b,
        forall|a: Seq<char>, b: Seq<char>| #[trigger]
            text_writes(a) == #[trigger] text_writes(b) ==> a == b,
        forall|a: i32| (#[trigger] i32_write(a)).len() == 4,
        forall|a: u32| (#[trigger] u32_write(a)).len() == 4,
        forall|a: u64| (#[trigger] u64_write(a)).len() == 8,
        forall|a: Seq<char>| (#[trigger] text_writes(a)).len() == 2 && text_writes(a)[1].len() == 1,
{
    vstd::bytes::lemma_auto_spec_u32_to_from_le_bytes();
    vstd::bytes::lemma_auto_spec_u64_to_from_le_bytes();
    assert forall|a: u32, b: u32| #[trigger] u32_write(a) == #[trigger] u32_write(b) implies a
        == b by {
        assert(u32_write(a).len() == 4 && u32_write(b).len() == 4);
        assert(vstd::bytes::spec_u32_from_le_bytes(vstd::bytes::spec_u32_to_le_bytes(a)) == a);
        assert(vstd::bytes::spec_u32_from_le_bytes(vstd::bytes::spec_u32_to_le_bytes(b)) == b);
    }
    assert forall|a: i32, b: i32| #[trigger] i32_write(a) == #[trigger] i32_write(b) implies a
        == b by {
        let (x, y) = (a as u32, b as u32);
        assert(u32_write(x).len() == 4 && u32_write(y).len() == 4);
        assert(vstd::bytes::spec_u32_from_le_bytes(vstd::bytes::spec_u32_to_le_bytes(x)) == x);
        assert(vstd::bytes::spec_u32_from_le_bytes(vstd::bytes::spec_u32_to_le_bytes(y)) == y);
        assert(x == y ==> a == b) by (bit_vector)
            requires
                x == a as u32,
                y == b as u32,
        ;
    }
    assert forall|a: u64, b: u64| #[trigger] u64_write(a) == #[trigger] u64_write(b) implies a
        == b by {
        assert(vstd::bytes::spec_u64_from_le_bytes(vstd::bytes::spec_u64_to_le_bytes(a)) == a);
        assert(vstd::bytes::spec_u64_from_le_bytes(vstd::bytes::spec_u64_to_le_bytes(b)) == b);
    }
    assert forall|a: Seq<char>, b: Seq<char>| #[trigger]
        text_writes(a) == #[trigger] text_writes(b) implies a == b by {
        vstd::utf8::encode_utf8_decode_utf8(a);
        vstd::utf8::encode_utf8_decode_utf8(b);
        assert(text_writes(a)[0] == text_writes(b)[0]);
    }
}

} // verus!
