//! SHA-256 digests and their hexadecimal form.

use vstd::prelude::*;

verus! {

/// The SHA-256 digest of the octets.
pub uninterp spec fn sha256_of(b: Seq<u8>) -> Seq<u8>;

/// Relies on `rpki::crypto::DigestAlgorithm::digest` with SHA-256, whose
/// digest is 32 octets long.
#[verifier::external_body]
pub(crate) fn sha256(b: &[u8]) -> (r: Vec<u8>)
    ensures
        r@ == sha256_of(b@),
        r@.len() == 32,
{
    rpki::crypto::DigestAlgorithm::sha256().digest(b).as_ref().to_vec()
}

/// The lower-case hexadecimal digit for a value below 16.
pub open spec fn hex_digit(n: u8) -> char {
    if n < 10 {
        ((n + 48) as u8) as char
    } else {
        ((n + 87) as u8) as char
    }
}

/// The lower-case hexadecimal form of the octets, two digits per octet.
pub open spec fn hex_of(b: Seq<u8>) -> Seq<char>
    decreases b.len(),
{
    if b.len() == 0 {
        Seq::empty()
    } else {
        hex_of(b.drop_last()) + seq![hex_digit(b.last() >> 4u8), hex_digit(b.last() & 15u8)]
    }
}

/// Two digits per octet.
pub proof fn lemma_hex_len(b: Seq<u8>)
    ensures
        hex_of(b).len() == 2 * b.len(),
    decreases b.len(),
{
    if b.len() > 0 {
        lemma_hex_len(b.drop_last());
    }
}

pub(crate) fn digit_str(n: u8) -> (r: &'static str)
    requires
        n < 16,
    ensures
        r@ == seq![hex_digit(n)],
{
    let r = match n {
        0 => "0",
        1 => "1",
        2 => "2",
        3 => "3",
        4 => "4",
        5 => "5",
        6 => "6",
        7 => "7",
        8 => "8",
        9 => "9",
        10 => "a",
        11 => "b",
        12 => "c",
        13 => "d",
        14 => "e",
        _ => "f",
    };
    proof {
        reveal_strlit("0");
        reveal_strlit("1");
        reveal_strlit("2");
        reveal_strlit("3");
        reveal_strlit("4");
        reveal_strlit("5");
        reveal_strlit("6");
        reveal_strlit("7");
        reveal_strlit("8");
        reveal_strlit("9");
        reveal_strlit("a");
        reveal_strlit("b");
        reveal_strlit("c");
        reveal_strlit("d");
        reveal_strlit("e");
        reveal_strlit("f");
    }
    assert(r@ =~= seq![hex_digit(n)]);
    r
}

/// Appends the lower-case hexadecimal form of the octets to `out`.
pub fn push_hex(out: &mut String, b: &[u8])
    ensures
        final(out)@ == old(out)@ + hex_of(b@),
{
    let ghost start = out@;
    let mut i: usize = 0;
    while i < b.len()
        invariant
            i <= b@.len(),
            out@ == start + hex_of(b@.subrange(0, i as int)),
        decreases b@.len() - i,
    {
        let x = b[i];
        assert(x >> 4u8 < 16) by (bit_vector);
        assert(x & 15u8 < 16) by (bit_vector);
        out.append(digit_str(x >> 4u8));
        out.append(digit_str(x & 15u8));
        let ghost next = b@.subrange(0, i + 1);
        assert(next.drop_last() =~= b@.subrange(0, i as int));
        assert(next.last() == x);
        i = i + 1;
        assert(out@ =~= start + hex_of(b@.subrange(0, i as int)));
    }
    assert(b@.subrange(0, b@.len() as int) =~= b@);
}

} // verus!
