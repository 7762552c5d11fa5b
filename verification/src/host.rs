//! A named host: a display name with the MAC addresses it can be woken by
//! and the IPv4 addresses it is known under.

use vstd::prelude::*;

use crate::packet::{mac_bytes_of_digits, spec_magic_bytes, MagicPacket};
use crate::sanitizers::{
    hex_digit_values, ipv4_text, mac_text_of_digits, octets_of, sanitize, split_on, AddrType,
    AddressError,
};

verus! {

/// What one wake attempt for the MAC text `mac` must yield: the magic
/// packet for its first twelve hexadecimal digits, or `Malformed` when it
/// holds fewer than twelve.
pub open spec fn wake_outcome_ok(r: Result<MagicPacket, AddressError>, mac: Seq<char>) -> bool {
    if hex_digit_values(mac).len() >= 12 {
        r matches Ok(p) && p.bytes@ == spec_magic_bytes(
            mac_bytes_of_digits(hex_digit_values(mac).take(12)),
        )
    } else {
        r matches Err(e) && e == AddressError::Malformed
    }
}

/// A named host with its stored MAC and IPv4 address strings.
pub struct Host {
    pub name: String,
    pub macs: Vec<String>,
    pub ips: Vec<String>,
}

impl Host {
    /// A host with one MAC address and one IPv4 address.
    pub fn new(name: String, mac: String, ipv4: String) -> (h: Host)
        ensures
            h.name == name,
            h.macs@ == seq![mac],
            h.ips@ == seq![ipv4],
    {
        let mut macs: Vec<String> = Vec::new();
        macs.push(mac);
        let mut ips: Vec<String> = Vec::new();
        ips.push(ipv4);
        proof {
            assert(macs@ =~= seq![mac]);
            assert(ips@ =~= seq![ipv4]);
        }
        Host { name, macs, ips }
    }

    /// Plans one wake attempt per stored MAC string, in order: the packet to
    /// broadcast where the string parses, and the failure to report where it
    /// does not. A malformed entry never keeps the others from their turn.
    pub fn wake(&self) -> (r: Vec<Result<MagicPacket, AddressError>>)
        ensures
            r@.len() == self.macs@.len(),
            forall|i: int| 0 <= i < r@.len() ==> wake_outcome_ok(r@[i], self.macs@[i]@),
    {
        let mut out: Vec<Result<MagicPacket, AddressError>> = Vec::new();
        let mut i: usize = 0;
        while i < self.macs.len()
            invariant
                0 <= i <= self.macs@.len(),
                out@.len() == i,
                forall|k: int| 0 <= k < i ==> wake_outcome_ok(out@[k], self.macs@[k]@),
            decreases self.macs@.len() - i,
        {
            out.push(MagicPacket::from_str(self.macs[i].as_str()));
            i += 1;
        }
        out
    }

    /// Renames the host, provided the new name is not empty; an empty name
    /// leaves the host as it was.
    pub fn set_name(&mut self, new_name: String) -> (changed: bool)
        ensures
            new_name@.len() > 0 ==> changed && final(self).name == new_name,
            new_name@.len() == 0 ==> !changed && final(self).name == old(self).name,
            final(self).macs == old(self).macs,
            final(self).ips == old(self).ips,
    {
        if !new_name.as_str().is_empty() {
            self.name = new_name;
            true
        } else {
            false
        }
    }

    /// Sanitizes MAC text and appends the canonical form to the host's
    /// list; malformed text changes nothing.
    pub fn add_mac(&mut self, text: &str) -> (r: Result<(), AddressError>)
        ensures
            ({
                let digs = hex_digit_values(text@);
                &&& digs.len() >= 12 ==> (r is Ok && final(self).macs@.len() == old(self).macs@.len() + 1 && final(self).macs@.last()@ == mac_text_of_digits(
                    digs.take(12),
                ) && final(self).macs@.take(old(self).macs@.len() as int) == old(self).macs@)
                &&& digs.len() < 12 ==> (r matches Err(e) && e == AddressError::Malformed
                    && final(self).macs == old(self).macs)
            }),
            final(self).name == old(self).name,
            final(self).ips == old(self).ips,
    {
        match sanitize(text, AddrType::MAC) {
            Ok(s) => {
                self.macs.push(s);
                proof {
                    assert(final(self).macs@.take(old(self).macs@.len() as int) =~= old(self).macs@);
                }
                Ok(())
            },
            Err(e) => Err(e),
        }
    }

    /// Sanitizes MAC text and replaces the entry at `index` with the
    /// canonical form; malformed text changes nothing.
    pub fn set_mac(&mut self, index: usize, text: &str) -> (r: Result<(), AddressError>)
        requires
            index < old(self).macs@.len(),
        ensures
            ({
                let digs = hex_digit_values(text@);
                &&& digs.len() >= 12 ==> (r is Ok && final(self).macs@.len() == old(self).macs@.len() && final(self).macs@[index as int]@ == mac_text_of_digits(
                    digs.take(12),
                ) && (forall|k: int|
                    0 <= k < old(self).macs@.len() && k != index ==> final(self).macs@[k] == old(self).macs@[k]))
                &&& digs.len() < 12 ==> (r matches Err(e) && e == AddressError::Malformed
                    && final(self).macs == old(self).macs)
            }),
            final(self).name == old(self).name,
            final(self).ips == old(self).ips,
    {
        match sanitize(text, AddrType::MAC) {
            Ok(s) => {
                self.macs.set(index, s);
                Ok(())
            },
            Err(e) => Err(e),
        }
    }

    /// Drops the MAC entry at `index`.
    pub fn remove_mac(&mut self, index: usize)
        requires
            index < old(self).macs@.len(),
        ensures
            final(self).macs@ == old(self).macs@.remove(index as int),
            final(self).name == old(self).name,
            final(self).ips == old(self).ips,
    {
        self.macs.remove(index);
    }

    /// Sanitizes IPv4 text and appends the dotted-decimal form to the
    /// host's list; malformed text changes nothing.
    pub fn add_ip(&mut self, text: &str) -> (r: Result<(), AddressError>)
        ensures
            ({
                let octs = octets_of(split_on(text@, '.'));
                &&& octs.len() >= 4 ==> (r is Ok && final(self).ips@.len() == old(self).ips@.len()
                    + 1 && final(self).ips@.last()@ == ipv4_text(octs.take(4)) && final(self).ips@.take(old(self).ips@.len() as int) == old(self).ips@)
                &&& octs.len() < 4 ==> (r matches Err(e) && e == AddressError::Malformed && final(self).ips == old(self).ips)
            }),
            final(self).name == old(self).name,
            final(self).macs == old(self).macs,
    {
        match sanitize(text, AddrType::IPv4) {
            Ok(s) => {
                self.ips.push(s);
                proof {
                    assert(final(self).ips@.take(old(self).ips@.len() as int) =~= old(self).ips@);
                }
                Ok(())
            },
            Err(e) => Err(e),
        }
    }

    /// Sanitizes IPv4 text and replaces the entry at `index` with the
    /// dotted-decimal form; malformed text changes nothing.
    pub fn set_ip(&mut self, index: usize, text: &str) -> (r: Result<(), AddressError>)
        requires
            index < old(self).ips@.len(),
        ensures
            ({
                let octs = octets_of(split_on(text@, '.'));
                &&& octs.len() >= 4 ==> (r is Ok && final(self).ips@.len() == old(self).ips@.len()
                    && final(self).ips@[index as int]@ == ipv4_text(octs.take(4)) && (forall|
                    k: int,
                |
                    0 <= k < old(self).ips@.len() && k != index ==> final(self).ips@[k] == old(self).ips@[k]))
                &&& octs.len() < 4 ==> (r matches Err(e) && e == AddressError::Malformed && final(self).ips == old(self).ips)
            }),
            final(self).name == old(self).name,
            final(self).macs == old(self).macs,
    {
        match sanitize(text, AddrType::IPv4) {
            Ok(s) => {
                self.ips.set(index, s);
                Ok(())
            },
            Err(e) => Err(e),
        }
    }

    /// Drops the IPv4 entry at `index`.
    pub fn remove_ip(&mut self, index: usize)
        requires
            index < old(self).ips@.len(),
        ensures
            final(self).ips@ == old(self).ips@.remove(index as int),
            final(self).name == old(self).name,
            final(self).macs == old(self).macs,
    {
        self.ips.remove(index);
    }
}

} // verus!
