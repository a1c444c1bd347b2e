//! The versioned envelope around serialized values: a big-endian `u32`
//! version followed by the value's bytes. Version 0 is the only one known.
use crate::bytes::be_value;
use vstd::prelude::*;

verus! {

/// The current version.
pub const VERSION_0: u32 = 0;

/// Why an envelope is refused.
#[derive(Clone, Copy, Debug, PartialEq, Eq, Structural)]
pub enum EnvelopeError {
    /// Fewer than the four bytes of the version.
    TooShort,
    /// A version other than 0.
    VersionUnsupported,
}

/// The envelope of `value` at version 0.
pub open spec fn envelope_spec(value: Seq<u8>) -> Seq<u8> {
    seq![0u8, 0u8, 0u8, 0u8] + value
}

/// Wraps `value` at version 0.
pub fn to_versioned(value: &[u8]) -> (r: Vec<u8>)
    ensures
        r@ == envelope_spec(value@),
{
    let mut out: Vec<u8> = Vec::new();
    out.push(0);
    out.push(0);
    out.push(0);
    out.push(0);
    let mut i: usize = 0;
    while i < value.len()
        invariant
            i <= value@.len(),
            out@ == seq![0u8, 0u8, 0u8, 0u8] + value@.subrange(0, i as int),
        decreases value@.len() - i,
    {
        out.push(value[i]);
        i = i + 1;
        assert(out@ =~= seq![0u8, 0u8, 0u8, 0u8] + value@.subrange(0, i as int));
    }
    assert(value@.subrange(0, value@.len() as int) =~= value@);
    out
}

/// The value inside an envelope: the bytes after the version, where the
/// version is 0.
pub fn from_versioned(b: &[u8]) -> (r: Result<Vec<u8>, EnvelopeError>)
    ensures
        b@.len() < 4 ==> r == Err::<Vec<u8>, EnvelopeError>(EnvelopeError::TooShort),
        b@.len() >= 4 && be_value(b@.subrange(0, 4)) != 0 ==> r == Err::<Vec<u8>, EnvelopeError>(
            EnvelopeError::VersionUnsupported,
        ),
        r.is_ok() == (b@.len() >= 4 && be_value(b@.subrange(0, 4)) == 0),
        r matches Ok(v) ==> v@ == b@.subrange(4, b@.len() as int),
{
    if b.len() < 4 {
        return Err(EnvelopeError::TooShort);
    }
    let zero = b[0] == 0 && b[1] == 0 && b[2] == 0 && b[3] == 0;
    proof {
        let s = b@.subrange(0, 4);
        assert(s.drop_last() =~= b@.subrange(0, 3));
        assert(b@.subrange(0, 3).drop_last() =~= b@.subrange(0, 2));
        assert(b@.subrange(0, 2).drop_last() =~= b@.subrange(0, 1));
        assert(b@.subrange(0, 1).drop_last() =~= b@.subrange(0, 0));
        assert(be_value(b@.subrange(0, 0)) == 0);
        assert(be_value(b@.subrange(0, 1)) == b@[0] as nat);
        assert(be_value(b@.subrange(0, 2)) == be_value(b@.subrange(0, 1)) * 256 + b@[1] as nat);
        assert(be_value(b@.subrange(0, 3)) == be_value(b@.subrange(0, 2)) * 256 + b@[2] as nat);
        assert(be_value(s) == be_value(b@.subrange(0, 3)) * 256 + b@[3] as nat);
    }
    if !zero {
        return Err(EnvelopeError::VersionUnsupported);
    }
    let mut out: Vec<u8> = Vec::new();
    let mut i: usize = 4;
    while i < b.len()
        invariant
            4 <= i <= b@.len(),
            out@ == b@.subrange(4, i as int),
        decreases b@.len() - i,
    {
        out.push(b[i]);
        i = i + 1;
        assert(out@ =~= b@.subrange(4, i as int));
    }
    Ok(out)
}

/// Unwrapping a wrapped value gives the value back.
pub proof fn lemma_versioned_round_trip(value: Seq<u8>)
    ensures
        envelope_spec(value).len() >= 4,
        be_value(envelope_spec(value).subrange(0, 4)) == 0,
        envelope_spec(value).subrange(4, envelope_spec(value).len() as int) == value,
{
    let e = envelope_spec(value);
    assert(e.subrange(4, e.len() as int) =~= value);
    let s = e.subrange(0, 4);
    assert(s.drop_last() =~= e.subrange(0, 3));
    assert(e.subrange(0, 3).drop_last() =~= e.subrange(0, 2));
    assert(e.subrange(0, 2).drop_last() =~= e.subrange(0, 1));
    assert(e.subrange(0, 1).drop_last() =~= e.subrange(0, 0));
    assert(be_value(e.subrange(0, 0)) == 0);
    assert(be_value(e.subrange(0, 1)) == 0);
    assert(be_value(e.subrange(0, 2)) == 0);
    assert(be_value(e.subrange(0, 3)) == 0);
    assert(be_value(s) == 0);
}

} // verus!
