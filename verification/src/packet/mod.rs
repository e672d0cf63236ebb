//! Netlink packets and the data they are views of.
use vstd::prelude::*;
use vstd::slice::slice_subrange;

pub mod audit;
pub mod netlink;
pub mod reader;
pub mod route;

verus! {

/// The bytes behind a packet: a buffer of the packet's own, or a slice of a
/// buffer that somebody else keeps.
#[derive(Debug)]
pub enum PacketData<'a> {
    /// The packet owns its bytes.
    Owned(Vec<u8>),
    /// The packet looks at bytes of the caller.
    Borrowed(&'a [u8]),
}

impl<'a> PacketData<'a> {
    /// The bytes, whoever owns them.
    pub open spec fn view(&self) -> Seq<u8> {
        match self {
            PacketData::Owned(v) => v@,
            PacketData::Borrowed(s) => s@,
        }
    }

    /// The bytes as a slice.
    pub fn as_slice(&self) -> (s: &[u8])
        ensures
            s@ == self@,
    {
        match self {
            PacketData::Owned(v) => v.as_slice(),
            PacketData::Borrowed(s) => s,
        }
    }

    /// Number of bytes.
    pub fn len(&self) -> (n: usize)
        ensures
            n == self@.len(),
    {
        self.as_slice().len()
    }
}

/// A copy of `s[from..to]` in a buffer of its own.
pub fn copy_range(s: &[u8], from: usize, to: usize) -> (v: Vec<u8>)
    requires
        from <= to <= s@.len(),
    ensures
        v@ == s@.subrange(from as int, to as int),
{
    let part = slice_subrange(s, from, to);
    let mut v: Vec<u8> = Vec::new();
    v.extend_from_slice(part);
    assert(v@ =~= s@.subrange(from as int, to as int));
    v
}

/// Appends `n` zero bytes.
pub fn push_zeros(buf: &mut Vec<u8>, n: usize)
    ensures
        final(buf)@ == old(buf)@ + zeros(n as nat),
{
    let mut i: usize = 0;
    while i < n
        invariant
            i <= n,
            buf@ == old(buf)@ + zeros(i as nat),
        decreases n - i,
    {
        buf.push(0u8);
        i = i + 1;
        assert(buf@ =~= old(buf)@ + zeros(i as nat));
    }
}

/// `n` zero bytes.
pub open spec fn zeros(n: nat) -> Seq<u8> {
    Seq::new(n, |i: int| 0u8)
}

} // verus!
