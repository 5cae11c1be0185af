//! Byte strings: their lexicographic order, and the small copying helpers the
//! rest of the library is built from.

use vstd::prelude::*;

verus! {

/// `a` comes strictly before `b` in lexicographic byte order.
pub open spec fn lex_lt(a: Seq<u8>, b: Seq<u8>) -> bool
    decreases a.len(),
{
    if b.len() == 0 {
        false
    } else if a.len() == 0 {
        true
    } else if a[0] != b[0] {
        a[0] < b[0]
    } else {
        lex_lt(a.drop_first(), b.drop_first())
    }
}

/// `a` is `b` or comes before it.
pub open spec fn lex_le(a: Seq<u8>, b: Seq<u8>) -> bool {
    a == b || lex_lt(a, b)
}

/// No byte string comes before itself.
pub proof fn lex_irreflexive(a: Seq<u8>)
    ensures
        !lex_lt(a, a),
    decreases a.len(),
{
    if a.len() > 0 {
        lex_irreflexive(a.drop_first());
    }
}

/// The order is transitive.
pub proof fn lex_transitive(a: Seq<u8>, b: Seq<u8>, c: Seq<u8>)
    requires
        lex_lt(a, b),
        lex_lt(b, c),
    ensures
        lex_lt(a, c),
    decreases a.len(),
{
    if a.len() > 0 && a[0] == b[0] && b[0] == c[0] {
        lex_transitive(a.drop_first(), b.drop_first(), c.drop_first());
    }
}

/// What two byte strings begin with in common does not count in the order.
pub proof fn lex_after_prefix(p: Seq<u8>, a: Seq<u8>, b: Seq<u8>)
    ensures
        lex_lt(p + a, p + b) == lex_lt(a, b),
    decreases p.len(),
{
    if p.len() == 0 {
        assert(p + a =~= a);
        assert(p + b =~= b);
    } else {
        assert((p + a).drop_first() =~= p.drop_first() + a);
        assert((p + b).drop_first() =~= p.drop_first() + b);
        lex_after_prefix(p.drop_first(), a, b);
    }
}

/// Of two byte strings that differ, exactly one comes first.
pub proof fn lex_total(a: Seq<u8>, b: Seq<u8>)
    ensures
        a == b || lex_lt(a, b) || lex_lt(b, a),
        !(lex_lt(a, b) && lex_lt(b, a)),
        a == b ==> !lex_lt(a, b),
    decreases a.len(),
{
    if a.len() > 0 && b.len() > 0 {
        if a[0] == b[0] {
            lex_total(a.drop_first(), b.drop_first());
            assert(a =~= seq![a[0]] + a.drop_first());
            assert(b =~= seq![b[0]] + b.drop_first());
        }
        if a == b {
            lex_irreflexive(a);
        }
    } else if a.len() == 0 && b.len() == 0 {
        assert(a =~= b);
    }
}

/// Whether two byte strings hold the same bytes.
pub fn same_bytes(a: &[u8], b: &[u8]) -> (same: bool)
    ensures
        same == (a@ == b@),
{
    if a.len() != b.len() {
        return false;
    }
    let mut i: usize = 0;
    while i < a.len()
        invariant
            i <= a.len(),
            a.len() == b.len(),
            forall|j: int| 0 <= j < i ==> a@[j] == b@[j],
        decreases a.len() - i,
    {
        if a[i] != b[i] {
            return false;
        }
        i += 1;
    }
    assert(a@ =~= b@);
    true
}

/// Whether `a` comes strictly before `b` in lexicographic order.
pub fn before(a: &[u8], b: &[u8]) -> (less: bool)
    ensures
        less == lex_lt(a@, b@),
{
    let mut i: usize = 0;
    assert(a@.skip(0) =~= a@);
    assert(b@.skip(0) =~= b@);
    while i < a.len() && i < b.len()
        invariant
            i <= a.len(),
            i <= b.len(),
            lex_lt(a@, b@) == lex_lt(a@.skip(i as int), b@.skip(i as int)),
        decreases a.len() - i,
    {
        if a[i] != b[i] {
            return a[i] < b[i];
        }
        assert(a@.skip(i as int).drop_first() =~= a@.skip(i + 1));
        assert(b@.skip(i as int).drop_first() =~= b@.skip(i + 1));
        i += 1;
    }
    i < b.len()
}

/// A fresh copy of a byte string.
pub fn copy_bytes(a: &[u8]) -> (r: Vec<u8>)
    ensures
        r@ == a@,
{
    let mut out: Vec<u8> = Vec::new();
    append_bytes(&mut out, a);
    assert(out@ =~= a@);
    out
}

/// Append the bytes of `a` to `out`.
pub fn append_bytes(out: &mut Vec<u8>, a: &[u8])
    ensures
        final(out)@ == old(out)@ + a@,
{
    let ghost before = out@;
    let mut i: usize = 0;
    assert(before + a@.take(0) =~= before);
    while i < a.len()
        invariant
            i <= a.len(),
            out@ == before + a@.take(i as int),
        decreases a.len() - i,
    {
        out.push(a[i]);
        assert(before + a@.take(i + 1) =~= (before + a@.take(i as int)).push(a@[i as int]));
        i += 1;
    }
    assert(a@.take(i as int) =~= a@);
}

/// The bytes from `from` up to, and not including, `to`.
pub fn sub_bytes(a: &[u8], from: usize, to: usize) -> (r: Vec<u8>)
    requires
        from <= to <= a.len(),
    ensures
        r@ == a@.subrange(from as int, to as int),
{
    let mut out: Vec<u8> = Vec::new();
    let mut i: usize = from;
    while i < to
        invariant
            from <= i <= to <= a.len(),
            out@ == a@.subrange(from as int, i as int),
        decreases to - i,
    {
        out.push(a[i]);
        assert(a@.subrange(from as int, i + 1) =~= a@.subrange(from as int, i as int).push(
            a@[i as int],
        ));
        i += 1;
    }
    out
}

/// A byte string of exactly 32 bytes as an array; `None` at any other length.
pub fn array32(a: &[u8]) -> (r: Option<[u8; 32]>)
    ensures
        match r {
            Some(b) => b@ == a@,
            None => a@.len() != 32,
        },
{
    if a.len() != 32 {
        return None;
    }
    let mut out: [u8; 32] = [0u8; 32];
    let mut i: usize = 0;
    while i < 32
        invariant
            i <= 32,
            a.len() == 32,
            forall|j: int| 0 <= j < i ==> out@[j] == a@[j],
        decreases 32 - i,
    {
        out[i] = a[i];
        i += 1;
    }
    assert(out@ =~= a@);
    Some(out)
}

/// A byte string of exactly 16 bytes as an array; `None` at any other length.
pub fn array16(a: &[u8]) -> (r: Option<[u8; 16]>)
    ensures
        match r {
            Some(b) => b@ == a@,
            None => a@.len() != 16,
        },
{
    if a.len() != 16 {
        return None;
    }
    let mut out: [u8; 16] = [0u8; 16];
    let mut i: usize = 0;
    while i < 16
        invariant
            i <= 16,
            a.len() == 16,
            forall|j: int| 0 <= j < i ==> out@[j] == a@[j],
        decreases 16 - i,
    {
        out[i] = a[i];
        i += 1;
    }
    assert(out@ =~= a@);
    Some(out)
}

/// `a` begins with the bytes of `prefix`.
pub open spec fn starts_with(a: Seq<u8>, prefix: Seq<u8>) -> bool {
    prefix.len() <= a.len() && a.take(prefix.len() as int) == prefix
}

/// Whether `a` begins with the bytes of `prefix`.
pub fn has_prefix(a: &[u8], prefix: &[u8]) -> (r: bool)
    ensures
        r == starts_with(a@, prefix@),
{
    if a.len() < prefix.len() {
        return false;
    }
    let mut i: usize = 0;
    while i < prefix.len()
        invariant
            i <= prefix.len() <= a.len(),
            forall|j: int| 0 <= j < i ==> a@[j] == prefix@[j],
        decreases prefix.len() - i,
    {
        if a[i] != prefix[i] {
            assert(a@.take(prefix@.len() as int)[i as int] != prefix@[i as int]);
            return false;
        }
        i += 1;
    }
    assert(a@.take(prefix@.len() as int) =~= prefix@);
    true
}

/// The bytes a piece of text is written with.
pub open spec fn text_bytes(t: Seq<char>) -> Seq<u8> {
    vstd::utf8::encode_utf8(t)
}

/// Different texts are written with different bytes.
pub proof fn text_bytes_injective(a: Seq<char>, b: Seq<char>)
    requires
        text_bytes(a) == text_bytes(b),
    ensures
        a == b,
{
    vstd::utf8::encode_utf8_decode_utf8(a);
    vstd::utf8::encode_utf8_decode_utf8(b);
}

/// `String::from_utf8`: the text these bytes are, where they are valid UTF-8.
#[verifier::external_body]
pub(crate) fn text_of_bytes(raw: Vec<u8>) -> (r: Option<String>)
    ensures
        match r {
            Some(t) => vstd::utf8::encode_utf8(t@) == raw@,
            None => !vstd::utf8::valid_utf8(raw@),
        },
{
    String::from_utf8(raw).ok()
}

/// Whether two pieces of text are the same.
pub fn same_text(a: &str, b: &str) -> (same: bool)
    ensures
        same == (a@ == b@),
{
    let same: bool = same_bytes(a.as_bytes(), b.as_bytes());
    proof {
        if same {
            text_bytes_injective(a@, b@);
        }
    }
    same
}

/// Splitting two concatenations at the same place.
pub proof fn split_equal(a: Seq<u8>, b: Seq<u8>, c: Seq<u8>, d: Seq<u8>)
    requires
        a + b == c + d,
        a.len() == c.len(),
    ensures
        a == c,
        b == d,
{
    assert((a + b).take(a.len() as int) =~= a);
    assert((c + d).take(a.len() as int) =~= c);
    assert((a + b).skip(a.len() as int) =~= b);
    assert((c + d).skip(a.len() as int) =~= d);
}

/// Byte strings are ordered as words in a dictionary: a beginning of one comes
/// before it, and otherwise the first byte in which two differ decides.
pub proof fn bytes_are_ordered_as_words(p: Seq<u8>, a: Seq<u8>, b: Seq<u8>)
    requires
        b.len() > 0,
    ensures
        a.len() == 0 ==> lex_lt(p + a, p + b),
        a.len() > 0 && a[0] < b[0] ==> lex_lt(p + a, p + b),
        a.len() > 0 && a[0] > b[0] ==> !lex_lt(p + a, p + b),
    decreases p.len(),
{
    if p.len() > 0 {
        bytes_are_ordered_as_words(p.drop_first(), a, b);
        assert((p + a).drop_first() =~= p.drop_first() + a);
        assert((p + b).drop_first() =~= p.drop_first() + b);
    } else {
        assert(p + a =~= a);
        assert(p + b =~= b);
    }
}

} // verus!
