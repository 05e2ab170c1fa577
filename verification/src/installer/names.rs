//! Ordering of device names.
//!
//! `String`'s `Ord` compares the UTF-8 bytes of two strings lexicographically; the
//! spec functions here state that order over the byte encoding of a name's
//! characters, and `sysname_lt` computes it.
use vstd::prelude::*;
use vstd::utf8::encode_utf8;

verus! {

/// Lexicographic strict order on byte sequences (a proper prefix comes first).
pub open spec fn bytes_lt(a: Seq<u8>, b: Seq<u8>) -> bool
    decreases a.len(),
{
    if b.len() == 0 {
        false
    } else if a.len() == 0 {
        true
    } else if a[0] != b[0] {
        a[0] < b[0]
    } else {
        bytes_lt(a.drop_first(), b.drop_first())
    }
}

/// The order in which `String::cmp` puts two names: by their UTF-8 bytes.
pub open spec fn name_lt(a: Seq<char>, b: Seq<char>) -> bool {
    bytes_lt(encode_utf8(a), encode_utf8(b))
}

/// `a` comes no later than `b`.
pub open spec fn name_le(a: Seq<char>, b: Seq<char>) -> bool {
    !name_lt(b, a)
}

pub proof fn lemma_bytes_lt_irreflexive(a: Seq<u8>)
    ensures
        !bytes_lt(a, a),
    decreases a.len(),
{
    if a.len() > 0 {
        lemma_bytes_lt_irreflexive(a.drop_first());
    }
}

pub proof fn lemma_bytes_lt_asymmetric(a: Seq<u8>, b: Seq<u8>)
    ensures
        bytes_lt(a, b) ==> !bytes_lt(b, a),
    decreases a.len(),
{
    if a.len() > 0 && b.len() > 0 && a[0] == b[0] {
        lemma_bytes_lt_asymmetric(a.drop_first(), b.drop_first());
    }
}

pub proof fn lemma_bytes_lt_transitive(a: Seq<u8>, b: Seq<u8>, c: Seq<u8>)
    ensures
        bytes_lt(a, b) && bytes_lt(b, c) ==> bytes_lt(a, c),
    decreases a.len(),
{
    if a.len() > 0 && b.len() > 0 && c.len() > 0 {
        lemma_bytes_lt_transitive(a.drop_first(), b.drop_first(), c.drop_first());
    }
}

pub proof fn lemma_bytes_lt_total(a: Seq<u8>, b: Seq<u8>)
    ensures
        !bytes_lt(a, b) && !bytes_lt(b, a) ==> a == b,
    decreases a.len(),
{
    if a.len() > 0 && b.len() > 0 && a[0] == b[0] {
        lemma_bytes_lt_total(a.drop_first(), b.drop_first());
        if !bytes_lt(a, b) && !bytes_lt(b, a) {
            assert(a =~= seq![a[0]] + a.drop_first());
            assert(b =~= seq![b[0]] + b.drop_first());
        }
    }
    if a.len() == 0 && b.len() == 0 {
        assert(a =~= b);
    }
}

/// Strictly-before is transitive through a no-later step.
/// Two names, each no later than the other, are the same name.
pub proof fn lemma_name_le_antisymmetric(a: Seq<char>, b: Seq<char>)
    ensures
        name_le(a, b) && name_le(b, a) ==> a == b,
{
    lemma_bytes_lt_total(encode_utf8(a), encode_utf8(b));
    vstd::utf8::encode_utf8_decode_utf8(a);
    vstd::utf8::encode_utf8_decode_utf8(b);
}

pub proof fn lemma_name_lt_le(a: Seq<char>, b: Seq<char>, c: Seq<char>)
    ensures
        name_lt(a, b) && name_le(b, c) ==> name_lt(a, c),
        name_le(a, b) && name_lt(b, c) ==> name_lt(a, c),
        name_le(a, b) && name_le(b, c) ==> name_le(a, c),
        name_lt(a, b) ==> name_le(a, b),
{
    let (x, y, z) = (encode_utf8(a), encode_utf8(b), encode_utf8(c));
    lemma_bytes_lt_total(y, z);
    lemma_bytes_lt_total(x, y);
    lemma_bytes_lt_total(x, z);
    lemma_bytes_lt_transitive(x, y, z);
    lemma_bytes_lt_transitive(z, x, y);
    lemma_bytes_lt_transitive(y, z, x);
    lemma_bytes_lt_asymmetric(x, y);
    lemma_bytes_lt_asymmetric(y, z);
    lemma_bytes_lt_asymmetric(x, z);
    lemma_bytes_lt_irreflexive(x);
}

/// Whether `a` sorts strictly before `b`, comparing UTF-8 bytes as `String::cmp` does.
pub fn sysname_lt(a: &String, b: &String) -> (r: bool)
    ensures
        r == name_lt(a@, b@),
{
    let x: &[u8] = a.as_str().as_bytes();
    let y: &[u8] = b.as_str().as_bytes();
    let ghost (x0, y0) = (x@, y@);
    let mut i: usize = 0;
    assert(x0.skip(0) =~= x0);
    assert(y0.skip(0) =~= y0);
    while i < x.len() && i < y.len()
        invariant
            x@ == x0,
            y@ == y0,
            x0 == encode_utf8(a@),
            y0 == encode_utf8(b@),
            i <= x0.len(),
            i <= y0.len(),
            bytes_lt(x0, y0) == bytes_lt(x0.skip(i as int), y0.skip(i as int)),
        decreases x0.len() - i,
    {
        if x[i] != y[i] {
            return x[i] < y[i];
        }
        assert(x0.skip(i as int).drop_first() =~= x0.skip(i + 1));
        assert(y0.skip(i as int).drop_first() =~= y0.skip(i + 1));
        i = i + 1;
    }
    i < y.len()
}

} // verus!
