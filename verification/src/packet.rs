//! The Wake-on-LAN magic packet: 6 bytes of 0xFF followed by the target's
//! 6-byte MAC address repeated 16 times, 102 bytes in all.

use vstd::prelude::*;

use crate::sanitizers::{
    is_canonical_mac_text, is_hex_digit_char, hex_digit_value, hex_digit_values,
    lemma_upper_hex_char_value, mac_digits_of_bytes, mac_text_of_digits, sanitize,
    upper_hex_char, AddrType, AddressError,
};

verus! {

/// The six MAC bytes named by twelve hexadecimal digit values, two digits
/// per byte, high digit first.
pub open spec fn mac_bytes_of_digits(d: Seq<u8>) -> Seq<u8>
    recommends
        d.len() == 12,
{
    Seq::new(6, |i: int| (16 * d[2 * i] + d[2 * i + 1]) as u8)
}

/// The magic packet bytes for a 6-byte MAC address.
pub open spec fn spec_magic_bytes(mac: Seq<u8>) -> Seq<u8>
    recommends
        mac.len() == 6,
{
    Seq::new(102, |i: int| if i < 6 { 0xFF } else { mac[(i - 6) % 6] })
}

/// The wire layout of a magic packet for `mac`: 102 bytes, a header of six
/// 0xFF bytes, then sixteen windows of six bytes each equal to `mac`.
pub open spec fn is_magic_packet_for(b: Seq<u8>, mac: Seq<u8>) -> bool {
    &&& b.len() == 102
    &&& forall|i: int| 0 <= i < 6 ==> b[i] == 0xFF
    &&& forall|k: int, j: int|
        0 <= k < 16 && 0 <= j < 6 ==> #[trigger] b[6 + 6 * k + j] == mac[j]
}

/// One byte for each pair of hexadecimal digit characters, sixteen times
/// the first digit's value plus the second's.
pub open spec fn hex_pair_bytes(s: Seq<char>) -> Seq<u8>
    recommends
        s.len() % 2 == 0,
{
    Seq::new(s.len() / 2, |i: int| (16 * hex_digit_value(s[2 * i]) + hex_digit_value(
        s[2 * i + 1],
    )) as u8)
}

/// `spec_magic_bytes` has the magic packet layout.
pub proof fn lemma_magic_layout(mac: Seq<u8>)
    requires
        mac.len() == 6,
    ensures
        is_magic_packet_for(spec_magic_bytes(mac), mac),
{
    let b = spec_magic_bytes(mac);
    assert forall|k: int, j: int| 0 <= k < 16 && 0 <= j < 6 implies #[trigger] b[6 + 6 * k + j]
        == mac[j] by {
        assert((6 * k + j) % 6 == j) by (nonlinear_arith)
            requires
                0 <= k,
                0 <= j < 6,
        ;
    }
}

/// The layout determines every byte: two packets for the same MAC address
/// are identical. Together with `lemma_magic_layout` this says encoding is
/// deterministic.
pub proof fn lemma_magic_packet_unique(b1: Seq<u8>, b2: Seq<u8>, mac: Seq<u8>)
    requires
        mac.len() == 6,
        is_magic_packet_for(b1, mac),
        is_magic_packet_for(b2, mac),
    ensures
        b1 == b2,
{
    assert forall|i: int| 0 <= i < 102 implies b1[i] == b2[i] by {
        if i >= 6 {
            let k = (i - 6) / 6;
            let j = (i - 6) % 6;
            assert(0 <= k < 16 && 0 <= j < 6 && i == 6 + 6 * k + j) by (nonlinear_arith)
                requires
                    6 <= i < 102,
                    k == (i - 6) / 6,
                    j == (i - 6) % 6,
            ;
            assert(b1[6 + 6 * k + j] == mac[j]);
            assert(b2[6 + 6 * k + j] == mac[j]);
        }
    }
    assert(b1 =~= b2);
}

/// The hexadecimal digits found in the canonical text of twelve digit
/// values are exactly those values: the colons contribute nothing.
proof fn lemma_canonical_text_digit_prefix(d: Seq<u8>, t: int)
    requires
        d.len() == 12,
        forall|k: int| 0 <= k < 12 ==> d[k] < 16,
        0 <= t <= 17,
    ensures
        hex_digit_values(mac_text_of_digits(d).take(t)) == d.take(t - t / 3),
    decreases t,
{
    let text = mac_text_of_digits(d);
    if t > 0 {
        lemma_canonical_text_digit_prefix(d, t - 1);
        assert(text.take(t).drop_last() =~= text.take(t - 1));
        assert(text.take(t).last() == text[t - 1]);
        if (t - 1) % 3 == 2 {
            assert(text[t - 1] == ':');
            assert(!is_hex_digit_char(':'));
            assert(t - t / 3 == (t - 1) - (t - 1) / 3);
        } else {
            let idx = (t - 1) - (t - 1) / 3;
            assert(text[t - 1] == upper_hex_char(d[idx]));
            lemma_upper_hex_char_value(d[idx]);
            assert(hex_digit_values(text.take(t)) == hex_digit_values(text.take(t - 1)).push(
                d[idx],
            ));
            assert(t - t / 3 == idx + 1);
            assert(d.take(idx + 1) =~= d.take(idx).push(d[idx]));
        }
    } else {
        assert(text.take(0) =~= Seq::<char>::empty());
        assert(d.take(0) =~= Seq::<u8>::empty());
    }
}

/// Round trip: the canonical text of any six MAC bytes parses back to those
/// very bytes. Its hexadecimal digits are exactly the twelve rendered digit
/// values, and assembling them two by two restores each byte, so
/// `parse_macstr` on the canonical text with `':'` returns the bytes, and
/// `from_str` the packet for them.
pub proof fn lemma_mac_round_trip(m: Seq<u8>)
    requires
        m.len() == 6,
    ensures
        ({
            let digs = hex_digit_values(mac_text_of_digits(mac_digits_of_bytes(m)));
            &&& digs.len() == 12
            &&& digs.take(12) == mac_digits_of_bytes(m)
            &&& mac_bytes_of_digits(digs.take(12)) == m
        }),
{
    let d = mac_digits_of_bytes(m);
    assert(forall|k: int| 0 <= k < 12 ==> d[k] < 16);
    lemma_canonical_text_digit_prefix(d, 17);
    let text = mac_text_of_digits(d);
    assert(text.take(17) =~= text);
    assert(d.take(12) =~= d);
    let digs = hex_digit_values(text);
    assert(digs == d);
    assert(digs.take(12) =~= digs);
    assert forall|i: int| 0 <= i < 6 implies mac_bytes_of_digits(d)[i] == m[i] by {
        assert(d[2 * i] == m[i] / 16);
        assert(d[2 * i + 1] == m[i] % 16);
        assert(16 * (m[i] / 16) + m[i] % 16 == m[i]);
    }
    assert(mac_bytes_of_digits(d) =~= m);
}

/// Raw bytes of one magic packet.
pub struct MagicPacket {
    pub bytes: [u8; 102],
}

/// Relies on hex::decode: a string whose length is even and whose characters
/// are all hexadecimal digits decodes into one byte per digit pair, sixteen
/// times the first digit's value plus the second's; other input is refused.
#[verifier::external_body]
fn hex_decode_bytes(group: &str) -> (r: Option<Vec<u8>>)
    requires
        group@.len() % 2 == 0,
        forall|i: int| 0 <= i < group@.len() ==> is_hex_digit_char(#[trigger] group@[i]),
    ensures
        r is Some,
        r matches Some(v) ==> v@ == hex_pair_bytes(group@),
{
    match hex::decode(group) {
        Ok(v) => Some(v),
        Err(_) => None,
    }
}

impl MagicPacket {
    /// Builds the packet for a raw 6-byte MAC address.
    pub fn new(mac_bytes: &[u8; 6]) -> (p: MagicPacket)
        ensures
            p.bytes@ == spec_magic_bytes(mac_bytes@),
            is_magic_packet_for(p.bytes@, mac_bytes@),
    {
        let mut bytes: [u8; 102] = [0xFF; 102];
        let mut i: usize = 6;
        while i < 102
            invariant
                6 <= i <= 102,
                forall|t: int| 0 <= t < 6 ==> bytes@[t] == 0xFF,
                forall|t: int| 6 <= t < i ==> bytes@[t] == mac_bytes@[(t - 6) % 6],
                forall|t: int| i <= t < 102 ==> bytes@[t] == 0xFF,
            decreases 102 - i,
        {
            bytes[i] = mac_bytes[(i - 6) % 6];
            i += 1;
        }
        proof {
            assert(bytes@ =~= spec_magic_bytes(mac_bytes@));
            lemma_magic_layout(mac_bytes@);
        }
        MagicPacket { bytes }
    }

    /// Parses MAC text into the packet for it: the text must hold at least
    /// twelve hexadecimal digits, which name the six MAC bytes.
    pub fn from_str(mac_str: &str) -> (r: Result<MagicPacket, AddressError>)
        ensures
            ({
                let digs = hex_digit_values(mac_str@);
                &&& digs.len() >= 12 ==> (r matches Ok(p) && p.bytes@ == spec_magic_bytes(
                    mac_bytes_of_digits(digs.take(12)),
                ) && is_magic_packet_for(p.bytes@, mac_bytes_of_digits(digs.take(12))))
                &&& digs.len() < 12 ==> (r matches Err(e) && e == AddressError::Malformed)
            }),
    {
        match MagicPacket::parse_macstr(mac_str, ':') {
            Ok(mac) => Ok(MagicPacket::new(&mac)),
            Err(e) => Err(e),
        }
    }

    /// Parses MAC text into its six raw bytes. The text is first brought to
    /// canonical colon-separated form, so it must hold at least twelve
    /// hexadecimal digits, and only the colon can match as separator.
    pub fn parse_macstr(mac_str: &str, sep: char) -> (r: Result<[u8; 6], AddressError>)
        ensures
            ({
                let digs = hex_digit_values(mac_str@);
                &&& (digs.len() >= 12 && sep == ':') ==> (r matches Ok(b) && b@
                    == mac_bytes_of_digits(digs.take(12)))
                &&& (digs.len() < 12 || sep != ':') ==> (r matches Err(e) && e
                    == AddressError::Malformed)
            }),
    {
        let ghost digs12 = hex_digit_values(mac_str@).take(12);
        let sanitized = match sanitize(mac_str, AddrType::MAC) {
            Ok(s) => s,
            Err(e) => {
                return Err(e);
            },
        };
        if sep != ':' {
            return Err(AddressError::Malformed);
        }
        proof {
            crate::sanitizers::lemma_hex_digit_values_bounded(mac_str@);
            assert(hex_digit_values(mac_str@).len() >= 12);
            assert(forall|k: int| 0 <= k < 12 ==> digs12[k] < 16);
            assert(sanitized@ == mac_text_of_digits(digs12));
            assert forall|i: int| 0 <= i < sanitized@.len() implies '\0' <= #[trigger] sanitized@[i]
                <= '\u{7f}' by {
                assert(is_canonical_mac_text(sanitized@));
                if i % 3 != 2 {
                    assert(is_hex_digit_char(sanitized@[i]));
                }
            }
        }
        let mut out: [u8; 6] = [0; 6];
        let mut g: usize = 0;
        while g < 6
            invariant
                0 <= g <= 6,
                sanitized@ == mac_text_of_digits(digs12),
                vstd::utf8::is_ascii_chars(sanitized@),
                sanitized@.len() == 17,
                forall|k: int| 0 <= k < 12 ==> digs12[k] < 16,
                forall|t: int| 0 <= t < g ==> out@[t] == mac_bytes_of_digits(digs12)[t],
            decreases 6 - g,
        {
            let group = sanitized.as_str().substring_ascii(3 * g, 3 * g + 2);
            proof {
                let gi = g as int;
                assert(group@.len() == 2);
                assert(group@[0] == sanitized@[3 * gi]);
                assert(group@[1] == sanitized@[3 * gi + 1]);
                assert(sanitized@[3 * gi] == upper_hex_char(digs12[2 * gi]));
                assert((3 * gi + 1) / 3 == gi);
                assert(sanitized@[3 * gi + 1] == upper_hex_char(digs12[2 * gi + 1]));
                lemma_upper_hex_char_value(digs12[2 * gi]);
                lemma_upper_hex_char_value(digs12[2 * gi + 1]);
                assert(forall|i: int| 0 <= i < 2 ==> is_hex_digit_char(#[trigger] group@[i]));
            }
            match hex_decode_bytes(group) {
                Some(v) => {
                    proof {
                        assert(v@.len() == 1);
                        assert(v@[0] == mac_bytes_of_digits(digs12)[g as int]);
                    }
                    out[g] = v[0];
                },
                None => {
                    proof {
                        assert(false);
                    }
                    return Err(AddressError::Malformed);
                },
            }
            g += 1;
        }
        Ok(out)
    }
}

} // verus!
