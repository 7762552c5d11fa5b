//! Hosts made up on the spot, for trying the program out: a random name,
//! MAC address and IPv4 address, each in canonical form whatever bytes the
//! generator hands back.

use vstd::prelude::*;

use rand::Rng;

use crate::host::Host;
use crate::sanitizers::{
    canonical_ipv4_text, canonical_mac_text, is_canonical_mac_text, is_dotted_quad_text,
};

verus! {

/// Relies on rand::thread_rng and rand::Rng::gen for six bytes from the
/// thread-local generator; nothing is assumed of their values.
#[verifier::external_body]
fn random_bytes_6() -> [u8; 6] {
    rand::thread_rng().gen()
}

/// Relies on rand::thread_rng and rand::Rng::gen for four bytes from the
/// thread-local generator; nothing is assumed of their values.
#[verifier::external_body]
fn random_bytes_4() -> [u8; 4] {
    rand::thread_rng().gen()
}

/// Relies on eff_wordlist::large::random_word: a word drawn from the EFF
/// large wordlist, whose words are all non-empty.
#[verifier::external_body]
fn random_word() -> (r: &'static str)
    ensures
        r@.len() > 0,
{
    eff_wordlist::large::random_word()
}

/// A random MAC address in canonical colon-separated form.
pub fn random_mac() -> (r: String)
    ensures
        is_canonical_mac_text(r@),
{
    let bytes = random_bytes_6();
    canonical_mac_text(&bytes)
}

/// A random IPv4 address in dotted-decimal form.
pub fn random_ip() -> (r: String)
    ensures
        is_dotted_quad_text(r@),
{
    let bytes = random_bytes_4();
    canonical_ipv4_text(&bytes)
}

/// A random two-word name; never empty.
pub fn random_name() -> (r: String)
    ensures
        r@.len() > 0,
{
    let mut name = String::new();
    name.append(random_word());
    name.append(random_word());
    name
}

/// A made-up host: a random non-empty name, one canonical MAC address and
/// one dotted-decimal IPv4 address.
pub fn random_host() -> (h: Host)
    ensures
        h.name@.len() > 0,
        h.macs@.len() == 1,
        is_canonical_mac_text(h.macs@[0]@),
        h.ips@.len() == 1,
        is_dotted_quad_text(h.ips@[0]@),
{
    Host::new(random_name(), random_mac(), random_ip())
}

} // verus!
