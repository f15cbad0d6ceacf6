use vstd::prelude::*;

verus! {

/// The socket address of a receiver: an IPv4 address, held as the big-endian
/// `u32` of its four octets, and a TCP port.
#[derive(Clone, Copy, Debug, PartialEq, Eq, Structural, Hash)]
pub struct DeviceAddr {
    pub ip: u32,
    pub port: u16,
}

impl DeviceAddr {
    /// The address as one integer: the IPv4 address above the port.
    pub open spec fn key(self) -> u64 {
        (self.ip as u64 * 65536 + self.port as u64) as u64
    }

    /// Computes `key`.
    pub fn seen_key(&self) -> (r: u64)
        ensures
            r == self.key(),
    {
        proof {
            lemma_key_bounds(*self);
        }
        self.ip as u64 * 65536 + self.port as u64
    }
}

proof fn lemma_key_bounds(a: DeviceAddr)
    ensures
        a.ip as int * 65536 + a.port as int <= u64::MAX,
{
    assert(a.ip as int * 65536 <= 4294967295 * 65536) by (nonlinear_arith)
        requires
            a.ip <= 4294967295u32,
    ;
}

/// Two addresses have the same key exactly when they are the same address.
pub proof fn lemma_key_injective(a: DeviceAddr, b: DeviceAddr)
    ensures
        a.key() == b.key() <==> a == b,
{
    lemma_key_bounds(a);
    lemma_key_bounds(b);
    let (ai, ap, bi, bp) = (a.ip as int, a.port as int, b.ip as int, b.port as int);
    if ai * 65536 + ap == bi * 65536 + bp {
        assert(ai == bi && ap == bp) by (nonlinear_arith)
            requires
                ai * 65536 + ap == bi * 65536 + bp,
                0 <= ap < 65536,
                0 <= bp < 65536,
        ;
    }
}

} // verus!
