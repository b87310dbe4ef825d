//! The concrete operations implementation behind the protocol engine: a
//! coil-state store whose writes are edge-triggered playback requests.

use crate::modbus_server::{next_addr, spec_set_coils, Ops, ILLEGAL_DATA_ADDRESS};
use std::collections::BTreeMap;
use vstd::prelude::*;

verus! {

broadcast use vstd::laws_cmp::group_laws_cmp;

/// The model of [`ServerOps`]: the last value written to each coil address,
/// and the playback requests recorded so far, oldest first.
pub struct ServerOpsView {
    pub coils: Map<u16, bool>,
    pub plays: Seq<u16>,
}

/// The value of the coil at `addr` in `coils`: the last value written, or
/// off if the address was never written.
pub open spec fn coil_value(coils: Map<u16, bool>, addr: u16) -> bool {
    coils.contains_key(addr) && coils[addr]
}

/// The model state after an edge-triggered coil write: the stored value is
/// replaced and a playback request for `addr` is recorded exactly when the
/// written value differs from the stored one; otherwise nothing changes.
pub open spec fn spec_edge_set_coil(m: ServerOpsView, addr: u16, v: bool) -> ServerOpsView {
    if coil_value(m.coils, addr) != v {
        ServerOpsView { coils: m.coils.insert(addr, v), plays: m.plays.push(addr) }
    } else {
        m
    }
}

/// The operations surface of the server: a store of coil states together
/// with the playback requests that coil transitions have produced and the
/// application has not yet collected.  Writing a value different from the
/// stored one (off being the value of every unwritten address) records a
/// playback request for that address; writing the stored value again is
/// acknowledged without one.  Discrete inputs and coil reads are not
/// modelled and always fail with `ILLEGAL_DATA_ADDRESS`.
pub struct ServerOps {
    state: BTreeMap<u16, bool>,
    plays: Vec<u16>,
}

impl View for ServerOps {
    type V = ServerOpsView;

    closed spec fn view(&self) -> ServerOpsView {
        ServerOpsView { coils: self.state@, plays: self.plays@ }
    }
}

impl ServerOps {
    /// A store with no coil ever written and no playback request pending.
    pub fn new() -> (s: ServerOps)
        ensures
            s@.coils == Map::<u16, bool>::empty(),
            s@.plays == Seq::<u16>::empty(),
    {
        ServerOps { state: BTreeMap::new(), plays: Vec::new() }
    }

    /// Hands the recorded playback requests to the caller, oldest first,
    /// leaving none behind.
    pub fn take_plays(&mut self) -> (r: Vec<u16>)
        ensures
            r@ == old(self)@.plays,
            final(self)@.coils == old(self)@.coils,
            final(self)@.plays == Seq::<u16>::empty(),
    {
        let mut out: Vec<u16> = Vec::new();
        core::mem::swap(&mut out, &mut self.plays);
        out
    }
}

impl Ops for ServerOps {
    open spec fn spec_get_input(m: ServerOpsView, addr: u16) -> Result<bool, u8> {
        Err(ILLEGAL_DATA_ADDRESS)
    }

    open spec fn spec_get_coil(m: ServerOpsView, addr: u16) -> Result<bool, u8> {
        Err(ILLEGAL_DATA_ADDRESS)
    }

    open spec fn spec_set_coil(m: ServerOpsView, addr: u16, v: bool) -> (ServerOpsView, Result<
        bool,
        u8,
    >) {
        (spec_edge_set_coil(m, addr, v), Ok(v))
    }

    fn get_input(&self, addr: u16) -> (r: Result<bool, u8>) {
        Err(ILLEGAL_DATA_ADDRESS)
    }

    fn get_coil(&self, addr: u16) -> (r: Result<bool, u8>) {
        Err(ILLEGAL_DATA_ADDRESS)
    }

    fn set_coil(&mut self, addr: u16, v: bool) -> (r: Result<bool, u8>) {
        let bit: bool = match self.state.get(&addr) {
            Some(b) => *b,
            None => false,
        };
        assert(bit == coil_value(self@.coils, addr));
        if bit != v {
            self.state.insert(addr, v);
            self.plays.push(addr);
        }
        Ok(v)
    }
}

/// Edge-triggered playback: turning a coil on when it is off records
/// exactly one playback request; any number of repeated writes of the same
/// value leave the state (and so the requests) unchanged while still
/// acknowledging the written value; and after the coil is written off,
/// turning it on records a request again.
pub proof fn lemma_edge_triggered(m: ServerOpsView, addr: u16)
    requires
        !coil_value(m.coils, addr),
    ensures
        ({
            let (m1, r1) = ServerOps::spec_set_coil(m, addr, true);
            let (m2, r2) = ServerOps::spec_set_coil(m1, addr, true);
            let (m3, r3) = ServerOps::spec_set_coil(m2, addr, false);
            let (m4, r4) = ServerOps::spec_set_coil(m3, addr, true);
            &&& m1.plays == m.plays.push(addr)
            &&& coil_value(m1.coils, addr)
            &&& r1 == Ok::<bool, u8>(true)
            &&& m2 == m1
            &&& r2 == Ok::<bool, u8>(true)
            &&& m3.plays == m.plays.push(addr).push(addr)
            &&& !coil_value(m3.coils, addr)
            &&& m4.plays == m.plays.push(addr).push(addr).push(addr)
            &&& coil_value(m4.coils, addr)
        }),
{
}

/// Writing a run of coil values with no address wrap-around always succeeds
/// and lands each value at its own address: the coil at `addr + k` becomes
/// `v[k]`, and every other coil keeps its value.
pub proof fn lemma_set_coils_addresses(m: ServerOpsView, addr: u16, v: Seq<bool>)
    requires
        addr + v.len() <= 0x10000,
    ensures
        ({
            let (m2, r) = spec_set_coils::<ServerOps>(m, addr, v);
            &&& r == Ok::<(), u8>(())
            &&& forall|k: int|
                0 <= k < v.len() ==> coil_value(m2.coils, (addr + k) as u16) == v[k]
            &&& forall|a: u16|
                !(addr <= a < addr + v.len()) ==> coil_value(m2.coils, a) == coil_value(m.coils, a)
        }),
    decreases v.len(),
{
    if v.len() > 0 {
        let (m1, r1) = ServerOps::spec_set_coil(m, addr, v[0]);
        assert(coil_value(m1.coils, addr) == v[0]);
        assert(forall|a: u16| a != addr ==> coil_value(m1.coils, a) == coil_value(m.coils, a));
        lemma_set_coils_addresses(m1, next_addr(addr), v.skip(1));
        let (m2, r) = spec_set_coils::<ServerOps>(m1, next_addr(addr), v.skip(1));
        assert forall|k: int| 0 <= k < v.len() implies coil_value(
            m2.coils,
            (addr + k) as u16,
        ) == v[k] by {
            if k == 0 {
                assert(coil_value(m2.coils, addr) == coil_value(m1.coils, addr));
            } else {
                assert(coil_value(m2.coils, (next_addr(addr) + (k - 1)) as u16) == v.skip(1)[k
                    - 1]);
            }
        }
    }
}

} // verus!
