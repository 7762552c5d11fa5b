//! Normalization of loosely formatted MAC and IPv4 text into canonical form.

use vstd::prelude::*;

verus! {

/// Which kind of address `sanitize` should produce.
pub enum AddrType {
    MAC,
    IPv4,
}

/// The text did not contain a complete address of the requested kind.
#[derive(Clone, Copy, Debug, PartialEq, Eq, Structural)]
pub enum AddressError {
    Malformed,
}

/// True for the sixteen hexadecimal digit characters, either case.
pub open spec fn is_hex_digit_char(c: char) -> bool {
    (48 <= c as u32 && c as u32 <= 57)  // '0' through '9'
    || (65 <= c as u32 && c as u32 <= 70)  // 'A' through 'F'
    || (97 <= c as u32 && c as u32 <= 102)  // 'a' through 'f'
}

/// Numeric value of a hexadecimal digit character.
pub open spec fn hex_digit_value(c: char) -> u8
    recommends
        is_hex_digit_char(c),
{
    if 48 <= c as u32 && c as u32 <= 57 {
        (c as u32 - 48) as u8
    } else if 65 <= c as u32 && c as u32 <= 70 {
        (c as u32 - 55) as u8
    } else {
        (c as u32 - 87) as u8
    }
}

/// Upper-case hexadecimal digit character for a value below sixteen.
pub open spec fn upper_hex_char(v: u8) -> char
    recommends
        v < 16,
{
    if v == 0 { '0' }
    else if v == 1 { '1' }
    else if v == 2 { '2' }
    else if v == 3 { '3' }
    else if v == 4 { '4' }
    else if v == 5 { '5' }
    else if v == 6 { '6' }
    else if v == 7 { '7' }
    else if v == 8 { '8' }
    else if v == 9 { '9' }
    else if v == 10 { 'A' }
    else if v == 11 { 'B' }
    else if v == 12 { 'C' }
    else if v == 13 { 'D' }
    else if v == 14 { 'E' }
    else { 'F' }
}

/// Values of the hexadecimal digit characters of `s`, in order, other
/// characters skipped.
pub open spec fn hex_digit_values(s: Seq<char>) -> Seq<u8>
    decreases s.len(),
{
    if s.len() == 0 {
        Seq::empty()
    } else {
        let rest = hex_digit_values(s.drop_last());
        if is_hex_digit_char(s.last()) {
            rest.push(hex_digit_value(s.last()))
        } else {
            rest
        }
    }
}

/// Canonical 17-character MAC text for twelve hexadecimal digit values:
/// six two-digit upper-case groups separated by colons.
pub open spec fn mac_text_of_digits(d: Seq<u8>) -> Seq<char>
    recommends
        d.len() == 12,
{
    Seq::new(17, |i: int| if i % 3 == 2 { ':' } else { upper_hex_char(d[i - i / 3]) })
}

/// The shape `XX:XX:XX:XX:XX:XX` with upper-case hexadecimal digits.
pub open spec fn is_canonical_mac_text(s: Seq<char>) -> bool {
    &&& s.len() == 17
    &&& forall|i: int| 0 <= i < 17 && i % 3 == 2 ==> s[i] == ':'
    &&& forall|i: int| 0 <= i < 17 && i % 3 != 2 ==> is_hex_digit_char(#[trigger] s[i])
        && hex_digit_value(s[i]) < 16 && s[i] == upper_hex_char(hex_digit_value(s[i]))
}

/// Every collected hexadecimal digit value lies below sixteen.
pub proof fn lemma_hex_digit_values_bounded(s: Seq<char>)
    ensures
        forall|k: int| 0 <= k < hex_digit_values(s).len() ==> hex_digit_values(s)[k] < 16,
    decreases s.len(),
{
    if s.len() > 0 {
        lemma_hex_digit_values_bounded(s.drop_last());
        let rest = hex_digit_values(s.drop_last());
        assert forall|k: int| 0 <= k < hex_digit_values(s).len() implies hex_digit_values(s)[k]
            < 16 by {
            if is_hex_digit_char(s.last()) {
                assert(hex_digit_values(s) == rest.push(hex_digit_value(s.last())));
                if k < rest.len() {
                    assert(hex_digit_values(s)[k] == rest[k]);
                }
            } else {
                assert(hex_digit_values(s) == rest);
            }
        }
    }
}

/// Hexadecimal digit value of a character, `None` for any other character.
pub fn hex_digit_of_char(c: char) -> (r: Option<u8>)
    ensures
        is_hex_digit_char(c) ==> r == Some(hex_digit_value(c)),
        !is_hex_digit_char(c) ==> r is None,
        r matches Some(v) ==> v < 16,
{
    let u = c as u32;
    if 48 <= u && u <= 57 {
        Some((u - 48) as u8)
    } else if 65 <= u && u <= 70 {
        Some((u - 55) as u8)
    } else if 97 <= u && u <= 102 {
        Some((u - 87) as u8)
    } else {
        None
    }
}

/// The twelve hexadecimal digit values that render a 6-byte MAC address,
/// high digit before low digit.
pub open spec fn mac_digits_of_bytes(m: Seq<u8>) -> Seq<u8>
    recommends
        m.len() == 6,
{
    Seq::new(12, |i: int| if i % 2 == 0 { m[i / 2] / 16 } else { m[i / 2] % 16 })
}

/// The upper-case digit characters carry their value back.
pub proof fn lemma_upper_hex_char_value(v: u8)
    requires
        v < 16,
    ensures
        is_hex_digit_char(upper_hex_char(v)),
        hex_digit_value(upper_hex_char(v)) == v,
{
}

/// True for the ten decimal digit characters.
pub open spec fn is_dec_digit_char(c: char) -> bool {
    48 <= c as u32 && c as u32 <= 57
}

/// Numeric value of a decimal digit character.
pub open spec fn dec_digit_value(c: char) -> u8
    recommends
        is_dec_digit_char(c),
{
    (c as u32 - 48) as u8
}

/// Value of a run of decimal digit characters read as a base-ten number.
pub open spec fn dec_value(seg: Seq<char>) -> int
    decreases seg.len(),
{
    if seg.len() == 0 {
        0
    } else {
        10 * dec_value(seg.drop_last()) + dec_digit_value(seg.last())
    }
}

/// The octet a segment stands for: its decimal value, provided the segment
/// is non-empty, all decimal digits, and no more than 255.
pub open spec fn seg_octet(seg: Seq<char>) -> Option<u8> {
    if seg.len() > 0 && (forall|i: int| 0 <= i < seg.len() ==> is_dec_digit_char(#[trigger] seg[i]))
        && dec_value(seg) <= 255 {
        Some(dec_value(seg) as u8)
    } else {
        None
    }
}

/// The segments of `s` between occurrences of `sep`, as `str::split` yields
/// them: always at least one segment, and empty segments kept.
pub open spec fn split_on(s: Seq<char>, sep: char) -> Seq<Seq<char>>
    decreases s.len(),
{
    if s.len() == 0 {
        seq![Seq::empty()]
    } else if s.last() == sep {
        split_on(s.drop_last(), sep).push(Seq::empty())
    } else {
        let r = split_on(s.drop_last(), sep);
        r.update(r.len() - 1, r.last().push(s.last()))
    }
}

/// The octets that survive parsing, in order: one for each segment that is a
/// decimal number no more than 255.
pub open spec fn octets_of(segs: Seq<Seq<char>>) -> Seq<u8>
    decreases segs.len(),
{
    if segs.len() == 0 {
        Seq::empty()
    } else {
        let rest = octets_of(segs.drop_last());
        match seg_octet(segs.last()) {
            Some(v) => rest.push(v),
            None => rest,
        }
    }
}

/// Decimal rendering of an octet, without leading zeros.
pub open spec fn dec_text(v: u8) -> Seq<char> {
    if v < 10 {
        seq![upper_hex_char(v)]
    } else if v < 100 {
        seq![upper_hex_char(v / 10), upper_hex_char(v % 10)]
    } else {
        seq![upper_hex_char(v / 100), upper_hex_char((v / 10) % 10), upper_hex_char(v % 10)]
    }
}

/// Dotted-decimal rendering of four octets.
pub open spec fn ipv4_text(o: Seq<u8>) -> Seq<char>
    recommends
        o.len() == 4,
{
    dec_text(o[0]) + seq!['.'] + dec_text(o[1]) + seq!['.'] + dec_text(o[2]) + seq!['.']
        + dec_text(o[3])
}

/// Appends the upper-case hexadecimal digit character for `v`.
fn push_upper_hex(s: &mut String, v: u8)
    requires
        v < 16,
    ensures
        final(s)@ == old(s)@.push(upper_hex_char(v)),
{
    let table = "0123456789ABCDEF";
    proof {
        reveal_strlit("0123456789ABCDEF");
        assert(table@.len() == 16);
        assert(forall|i: int| 0 <= i < 16 ==> '\0' <= #[trigger] table@[i] <= '\u{7f}');
    }
    let g = table.substring_ascii(v as usize, v as usize + 1);
    s.append(g);
    proof {
        assert(g@[0] == upper_hex_char(v));
        assert(old(s)@ + g@ =~= old(s)@.push(upper_hex_char(v)));
    }
}

/// Appends the decimal rendering of `v`, without leading zeros.
fn push_u8_decimal(s: &mut String, v: u8)
    ensures
        final(s)@ == old(s)@ + dec_text(v),
{
    if v < 10 {
        push_upper_hex(s, v);
        proof {
            assert(old(s)@.push(upper_hex_char(v)) =~= old(s)@ + dec_text(v));
        }
    } else if v < 100 {
        push_upper_hex(s, v / 10);
        push_upper_hex(s, v % 10);
        proof {
            assert(old(s)@.push(upper_hex_char(v / 10)).push(upper_hex_char(v % 10)) =~= old(s)@
                + dec_text(v));
        }
    } else {
        push_upper_hex(s, v / 100);
        push_upper_hex(s, (v / 10) % 10);
        push_upper_hex(s, v % 10);
        proof {
            assert(old(s)@.push(upper_hex_char(v / 100)).push(upper_hex_char((v / 10) % 10)).push(
                upper_hex_char(v % 10),
            ) =~= old(s)@ + dec_text(v));
        }
    }
}

/// Renders the first twelve collected hexadecimal digit values as the
/// canonical colon-separated MAC text.
fn render_mac(digits: &Vec<u8>) -> (r: String)
    requires
        digits@.len() >= 12,
        forall|k: int| 0 <= k < digits@.len() ==> digits@[k] < 16,
    ensures
        r@ == mac_text_of_digits(digits@.take(12)),
{
    let ghost text = mac_text_of_digits(digits@.take(12));
    let mut s = String::new();
    let mut i: usize = 0;
    while i < 17
        invariant
            0 <= i <= 17,
            digits@.len() >= 12,
            forall|k: int| 0 <= k < digits@.len() ==> digits@[k] < 16,
            text == mac_text_of_digits(digits@.take(12)),
            s@ == text.take(i as int),
        decreases 17 - i,
    {
        if i % 3 == 2 {
            proof {
                reveal_strlit(":");
            }
            s.append(":");
            proof {
                assert(text[i as int] == ':');
                assert(text.take(i as int) + ":"@ =~= text.take(i as int + 1));
            }
        } else {
            let d = digits[i - i / 3];
            push_upper_hex(&mut s, d);
            proof {
                assert(text[i as int] == upper_hex_char(digits@.take(12)[i as int - i as int / 3]));
                assert(text.take(i as int).push(upper_hex_char(d)) =~= text.take(i as int + 1));
            }
        }
        i += 1;
    }
    proof {
        assert(text.take(17) =~= text);
    }
    s
}

/// Parses one dot-separated segment as an octet, exactly when the segment is
/// a decimal number no more than 255.
fn parse_octet(seg: &Vec<char>) -> (r: Option<u8>)
    ensures
        r == seg_octet(seg@),
{
    if seg.len() == 0 {
        return None;
    }
    let mut acc: u32 = 0;
    let mut j: usize = 0;
    while j < seg.len()
        invariant
            0 <= j <= seg@.len(),
            forall|i: int| 0 <= i < j ==> is_dec_digit_char(#[trigger] seg@[i]),
            dec_value(seg@.take(j as int)) <= 255 ==> acc == dec_value(seg@.take(j as int)),
            dec_value(seg@.take(j as int)) > 255 ==> acc == 256,
            acc <= 256,
        decreases seg@.len() - j,
    {
        let c = seg[j];
        let u = c as u32;
        if !(48 <= u && u <= 57) {
            return None;
        }
        proof {
            assert(seg@.take(j as int + 1).drop_last() =~= seg@.take(j as int));
            assert(seg@.take(j as int + 1).last() == seg@[j as int]);
        }
        let d = u - 48;
        if acc > 25 || (acc == 25 && d > 5) {
            acc = 256;
        } else {
            acc = acc * 10 + d;
        }
        j += 1;
    }
    proof {
        assert(seg@.take(seg@.len() as int) =~= seg@);
    }
    if acc <= 255 {
        Some(acc as u8)
    } else {
        None
    }
}

/// Renders four octets in dotted-decimal form.
fn render_ipv4(octets: &Vec<u8>) -> (r: String)
    requires
        octets@.len() >= 4,
    ensures
        r@ == ipv4_text(octets@.take(4)),
{
    let mut s = String::new();
    push_u8_decimal(&mut s, octets[0]);
    proof {
        reveal_strlit(".");
    }
    s.append(".");
    push_u8_decimal(&mut s, octets[1]);
    s.append(".");
    push_u8_decimal(&mut s, octets[2]);
    s.append(".");
    push_u8_decimal(&mut s, octets[3]);
    proof {
        assert(s@ =~= ipv4_text(octets@.take(4)));
    }
    s
}

/// The canonical text of twelve digit values has the canonical shape.
pub proof fn lemma_mac_text_canonical(d: Seq<u8>)
    requires
        d.len() == 12,
        forall|k: int| 0 <= k < 12 ==> d[k] < 16,
    ensures
        is_canonical_mac_text(mac_text_of_digits(d)),
{
    let s = mac_text_of_digits(d);
    assert forall|i: int| 0 <= i < 17 && i % 3 != 2 implies is_hex_digit_char(#[trigger] s[i])
        && hex_digit_value(s[i]) < 16 && s[i] == upper_hex_char(hex_digit_value(s[i])) by {
        let v = d[i - i / 3];
        assert(s[i] == upper_hex_char(v));
    }
}

/// Renders six raw MAC bytes in the canonical colon-separated upper-case
/// form `XX:XX:XX:XX:XX:XX`.
pub fn canonical_mac_text(mac: &[u8; 6]) -> (r: String)
    ensures
        r@ == mac_text_of_digits(mac_digits_of_bytes(mac@)),
        is_canonical_mac_text(r@),
{
    let mut digits: Vec<u8> = Vec::new();
    let mut i: usize = 0;
    while i < 6
        invariant
            0 <= i <= 6,
            digits@.len() == 2 * i,
            forall|k: int| 0 <= k < 2 * i ==> digits@[k] == mac_digits_of_bytes(mac@)[k],
        decreases 6 - i,
    {
        let b = mac[i];
        digits.push(b / 16);
        digits.push(b % 16);
        i += 1;
    }
    proof {
        assert(digits@ =~= mac_digits_of_bytes(mac@));
        assert(forall|k: int| 0 <= k < digits@.len() ==> digits@[k] < 16);
    }
    let text = render_mac(&digits);
    proof {
        assert(digits@.take(12) =~= digits@);
        lemma_mac_text_canonical(digits@);
    }
    text
}

/// Some dotted-decimal rendering of four octets.
pub open spec fn is_dotted_quad_text(s: Seq<char>) -> bool {
    exists|o: Seq<u8>| o.len() == 4 && s == ipv4_text(o)
}

/// Renders four raw octets in dotted-decimal form.
pub fn canonical_ipv4_text(octets: &[u8; 4]) -> (r: String)
    ensures
        r@ == ipv4_text(octets@),
        is_dotted_quad_text(r@),
{
    let mut v: Vec<u8> = Vec::new();
    v.push(octets[0]);
    v.push(octets[1]);
    v.push(octets[2]);
    v.push(octets[3]);
    let text = render_ipv4(&v);
    proof {
        assert(v@.take(4) =~= octets@);
    }
    text
}

/// Best-effort normalization of loosely formatted address text.
///
/// For `MAC`, the first twelve hexadecimal digits of the input, in either
/// case, become the canonical upper-case colon-separated form
/// `XX:XX:XX:XX:XX:XX`; text with fewer than twelve hexadecimal digits is
/// malformed. For `IPv4`, the input is split on dots, each segment that
/// reads as a decimal number up to 255 survives, and the first four
/// surviving octets are rendered in dotted-decimal form; text with fewer
/// than four surviving octets is malformed.
pub fn sanitize(address: &str, addr_type: AddrType) -> (r: Result<String, AddressError>)
    ensures
        ({
            let digs = hex_digit_values(address@);
            let octs = octets_of(split_on(address@, '.'));
            match addr_type {
                AddrType::MAC => {
                    &&& digs.len() >= 12 ==> (r matches Ok(s) && s@ == mac_text_of_digits(
                        digs.take(12),
                    ) && is_canonical_mac_text(s@))
                    &&& digs.len() < 12 ==> (r matches Err(e) && e == AddressError::Malformed)
                },
                AddrType::IPv4 => {
                    &&& octs.len() >= 4 ==> (r matches Ok(s) && s@ == ipv4_text(octs.take(4)))
                    &&& octs.len() < 4 ==> (r matches Err(e) && e == AddressError::Malformed)
                },
            }
        }),
{
    match addr_type {
        AddrType::MAC => {
            let n = address.unicode_len();
            let mut digits: Vec<u8> = Vec::new();
            let mut i: usize = 0;
            while i < n
                invariant
                    n == address@.len(),
                    0 <= i <= n,
                    digits@ == hex_digit_values(address@.take(i as int)),
                decreases n - i,
            {
                let c = address.get_char(i);
                proof {
                    assert(address@.take(i as int + 1).drop_last() =~= address@.take(i as int));
                    assert(address@.take(i as int + 1).last() == address@[i as int]);
                }
                if let Some(v) = hex_digit_of_char(c) {
                    digits.push(v);
                }
                i += 1;
            }
            proof {
                assert(address@.take(n as int) =~= address@);
                lemma_hex_digit_values_bounded(address@);
            }
            if digits.len() < 12 {
                return Err(AddressError::Malformed);
            }
            let text = render_mac(&digits);
            proof {
                lemma_mac_text_canonical(digits@.take(12));
            }
            Ok(text)
        },
        AddrType::IPv4 => {
            let n = address.unicode_len();
            let mut octets: Vec<u8> = Vec::new();
            let mut cur: Vec<char> = Vec::new();
            let ghost mut segs_done: Seq<Seq<char>> = Seq::empty();
            let mut i: usize = 0;
            while i < n
                invariant
                    n == address@.len(),
                    0 <= i <= n,
                    split_on(address@.take(i as int), '.') == segs_done.push(cur@),
                    octets@ == octets_of(segs_done),
                decreases n - i,
            {
                let c = address.get_char(i);
                proof {
                    assert(address@.take(i as int + 1).drop_last() =~= address@.take(i as int));
                    assert(address@.take(i as int + 1).last() == address@[i as int]);
                }
                if c == '.' {
                    let parsed = parse_octet(&cur);
                    proof {
                        assert(segs_done.push(cur@).drop_last() =~= segs_done);
                        assert(segs_done.push(cur@).last() == cur@);
                        assert(octets_of(segs_done.push(cur@)) == match seg_octet(cur@) {
                            Some(v) => octets_of(segs_done).push(v),
                            None => octets_of(segs_done),
                        });
                    }
                    if let Some(v) = parsed {
                        octets.push(v);
                    }
                    proof {
                        segs_done = segs_done.push(cur@);
                    }
                    cur = Vec::new();
                } else {
                    let ghost old_split = split_on(address@.take(i as int), '.');
                    cur.push(c);
                    proof {
                        assert(old_split.len() == segs_done.len() + 1);
                        assert(old_split.last() == cur@.drop_last());
                        assert(split_on(address@.take(i as int + 1), '.') == old_split.update(
                            old_split.len() - 1,
                            old_split.last().push(c),
                        ));
                        assert(old_split.last().push(c) =~= cur@);
                        assert(old_split.update(old_split.len() - 1, cur@) =~= segs_done.push(
                            cur@,
                        ));
                    }
                }
                i += 1;
            }
            proof {
                assert(address@.take(n as int) =~= address@);
            }
            let parsed = parse_octet(&cur);
            proof {
                assert(segs_done.push(cur@).drop_last() =~= segs_done);
                assert(segs_done.push(cur@).last() == cur@);
                assert(octets_of(segs_done.push(cur@)) == match seg_octet(cur@) {
                    Some(v) => octets_of(segs_done).push(v),
                    None => octets_of(segs_done),
                });
            }
            if let Some(v) = parsed {
                octets.push(v);
            }
            proof {
                assert(octets@ == octets_of(split_on(address@, '.')));
            }
            if octets.len() < 4 {
                return Err(AddressError::Malformed);
            }
            Ok(render_ipv4(&octets))
        },
    }
}

} // verus!
