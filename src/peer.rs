use vstd::prelude::*;

verus! {

/// The identity of one connection: the transport address it came from.
///
/// An IPv4 address is held in the low 32 bits of `ip` with `is_v6` false.
#[derive(PartialEq, Eq, Structural, Clone, Copy, Debug, Hash)]
pub struct PeerId {
    pub ip: u128,
    pub port: u16,
    pub is_v6: bool,
}

impl PeerId {
    pub fn new(ip: u128, port: u16, is_v6: bool) -> (r: PeerId)
        ensures
            r == (PeerId { ip, port, is_v6 }),
    {
        PeerId { ip, port, is_v6 }
    }
}

/// Whether `id` occurs in `ids`.
pub fn contains_id(ids: &Vec<PeerId>, id: PeerId) -> (r: bool)
    ensures
        r == ids@.contains(id),
{
    let mut i: usize = 0;
    while i < ids.len()
        invariant
            i <= ids@.len(),
            forall|j: int| 0 <= j < i ==> ids@[j] != id,
        decreases ids@.len() - i,
    {
        if ids[i] == id {
            return true;
        }
        i = i + 1;
    }
    false
}

} // verus!
