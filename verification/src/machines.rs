//! The registry: an ordered list of hosts, waking them all in one batch.

use vstd::prelude::*;

use crate::host::{wake_outcome_ok, Host};
use crate::packet::MagicPacket;
use crate::sanitizers::AddressError;

verus! {

/// An ordered list of named hosts; the position in the list is the index
/// shown to and chosen by the user.
pub struct Machines {
    pub list: Vec<Host>,
}

impl Machines {
    /// An empty registry.
    pub fn new() -> (m: Machines)
        ensures
            m.list@.len() == 0,
    {
        Machines { list: Vec::<Host>::new() }
    }

    /// Appends a host with the given name and MAC text, and an IPv4 text if
    /// one was offered; earlier entries keep their places.
    pub fn add(&mut self, name: &str, mac_addr: &str, ip_addr: Option<String>)
        ensures
            final(self).list@.len() == old(self).list@.len() + 1,
            final(self).list@.take(old(self).list@.len() as int) == old(self).list@,
            final(self).list@.last().name@ == name@,
            final(self).list@.last().macs@.len() == 1,
            final(self).list@.last().macs@[0]@ == mac_addr@,
            ip_addr matches Some(ip) ==> final(self).list@.last().ips@.len() == 1
                && final(self).list@.last().ips@[0] == ip,
            ip_addr is None ==> final(self).list@.last().ips@.len() == 0,
    {
        match ip_addr {
            Some(ip) => {
                self.list.push(
                    Host::new(String::from_str(name), String::from_str(mac_addr), ip),
                );
            },
            None => {
                let mut macs: Vec<String> = Vec::new();
                macs.push(String::from_str(mac_addr));
                self.list.push(Host { name: String::from_str(name), macs, ips: Vec::new() });
            },
        }
        proof {
            assert(final(self).list@.take(old(self).list@.len() as int) =~= old(self).list@);
        }
    }

    /// Plans one wake attempt for every MAC of every host, host by host in
    /// registry order: each entry either the packet to broadcast or the
    /// failure to report, no entry keeping another from its turn.
    pub fn wakeall(&self) -> (r: Vec<Vec<Result<MagicPacket, AddressError>>>)
        ensures
            r@.len() == self.list@.len(),
            forall|h: int|
                0 <= h < r@.len() ==> #[trigger] r@[h]@.len() == self.list@[h].macs@.len(),
            forall|h: int, i: int|
                0 <= h < r@.len() && 0 <= i < r@[h]@.len() ==> wake_outcome_ok(
                    #[trigger] r@[h]@[i],
                    self.list@[h].macs@[i]@,
                ),
    {
        let mut out: Vec<Vec<Result<MagicPacket, AddressError>>> = Vec::new();
        let mut h: usize = 0;
        while h < self.list.len()
            invariant
                0 <= h <= self.list@.len(),
                out@.len() == h,
                forall|k: int| 0 <= k < h ==> #[trigger] out@[k]@.len() == self.list@[k].macs@.len(),
                forall|k: int, i: int|
                    0 <= k < h && 0 <= i < out@[k]@.len() ==> wake_outcome_ok(
                        #[trigger] out@[k]@[i],
                        self.list@[k].macs@[i]@,
                    ),
            decreases self.list@.len() - h,
        {
            out.push(self.list[h].wake());
            h += 1;
        }
        out
    }

    /// Drops the host at `index`; later entries move up one place.
    pub fn remove_host(&mut self, index: usize)
        requires
            index < old(self).list@.len(),
        ensures
            final(self).list@ == old(self).list@.remove(index as int),
    {
        self.list.remove(index);
    }
}

} // verus!
