//! Key-range helpers of the PostgreSQL data backend.
use vstd::prelude::*;
use vstd::utf8::encode_utf8;

verus! {

/// What std's `String::from_utf8_lossy` gives for these bytes.
pub uninterp spec fn utf8_lossy_of(bytes: Seq<u8>) -> Seq<char>;

/// std `String::from_utf8_lossy(..).into_owned()`: valid UTF-8 decodes to
/// the characters it encodes; invalid sequences become U+FFFD.
#[verifier::external_body]
fn lossy_utf8(bytes: &[u8]) -> (r: String)
    ensures
        r@ == utf8_lossy_of(bytes@),
        forall|c: Seq<char>| encode_utf8(c) == bytes@ ==> r@ == c,
{
    String::from_utf8_lossy(bytes).into_owned()
}

/// The smallest byte string above every string that starts with `b`:
/// the last byte below 0xFF incremented, the bytes after it dropped;
/// none when every byte is 0xFF.
pub open spec fn upper_bound_bytes(b: Seq<u8>) -> Option<Seq<u8>>
    decreases b.len(),
{
    if b.len() == 0 {
        None
    } else if b.last() < 0xFF {
        Some(b.drop_last().push((b.last() + 1) as u8))
    } else {
        upper_bound_bytes(b.drop_last())
    }
}

/// The exclusive upper bound for a prefix scan: `"user:"` gives `"user;"`,
/// so `id >= prefix AND id < upper` selects the keys with the prefix.
pub fn prefix_upper_bound(prefix: &str) -> (r: String)
    ensures
        match upper_bound_bytes(encode_utf8(prefix@)) {
            Some(u) => r@ == utf8_lossy_of(u),
            None => r@ == "\u{FFFF}"@,
        },
{
    let bytes = prefix.as_bytes();
    let mut n: usize = bytes.len();
    let ghost b = bytes@;
    assert(b.subrange(0, n as int) =~= b);
    while n > 0 && bytes[n - 1] == 0xFF
        invariant
            n <= b.len(),
            b == bytes@,
            b == encode_utf8(prefix@),
            upper_bound_bytes(b) == upper_bound_bytes(b.subrange(0, n as int)),
        decreases n,
    {
        assert(b.subrange(0, n as int).drop_last() =~= b.subrange(0, n - 1));
        n -= 1;
    }
    if n == 0 {
        return "\u{FFFF}".to_owned();
    }
    let mut out: Vec<u8> = Vec::new();
    let mut i: usize = 0;
    while i < n - 1
        invariant
            i <= n - 1,
            n <= b.len(),
            b == bytes@,
            out@ == b.subrange(0, i as int),
        decreases n - 1 - i,
    {
        out.push(bytes[i]);
        i += 1;
        assert(out@ =~= b.subrange(0, i as int));
    }
    out.push(bytes[n - 1] + 1);
    proof {
        let p = b.subrange(0, n as int);
        assert(p.drop_last() =~= b.subrange(0, n - 1));
        assert(out@ =~= p.drop_last().push((p.last() + 1) as u8));
    }
    lossy_utf8(out.as_slice())
}

} // verus!
