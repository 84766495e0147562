//! What this device calls itself on the network: the factory MAC,
//! hex-encoded, and the hostname `somfy-<mac>` built from it — one identity,
//! two spellings.


use vstd::prelude::*;
use vstd::string::{is_ascii_spec_bytes, StringSliceAdditionalSpecFns};

verus! {

/// Characters of MAC, hex-encoded: six bytes at two digits each.
pub const MAC_HEX_LEN: usize = 12;

/// Longest name this module produces: `somfy`, a hyphen, and the MAC.
pub const HOSTNAME_LEN: usize = 18;

/// The bytes a 12-byte `heapless::String` holds.
pub uninterp spec fn mac_text(text: heapless::String<12>) -> Seq<u8>;

/// The bytes an 18-byte `heapless::String` holds.
pub uninterp spec fn host_text(text: heapless::String<18>) -> Seq<u8>;

/// A lower-case hexadecimal digit.
pub open spec fn hex_digit(nibble: int) -> u8 {
    if nibble < 10 { (48 + nibble) as u8 } else { (87 + nibble) as u8 }
}

/// A byte as two lower-case hexadecimal digits, `{:02x}`.
pub open spec fn hex2(byte: u8) -> Seq<u8> {
    seq![hex_digit((byte / 16) as int), hex_digit((byte % 16) as int)]
}

/// Six MAC bytes, hex-encoded without separators.
pub open spec fn mac_hex_spec(mac: Seq<u8>) -> Seq<u8>
    decreases mac.len(),
{
    if mac.len() == 0 {
        Seq::empty()
    } else {
        mac_hex_spec(mac.drop_last()) + hex2(mac.last())
    }
}

/// `somfy`.
pub open spec fn prefix_bytes() -> Seq<u8> {
    seq![115u8, 111, 109, 102, 121]
}

/// This device's hostname, without `.local`.
pub open spec fn hostname_spec(mac: Seq<u8>) -> Seq<u8> {
    prefix_bytes() + seq![45u8] + mac_hex_spec(mac)
}

/// A byte a hostname label may hold: `a`-`z`, `0`-`9` and `-`.
pub open spec fn label_byte(byte: u8) -> bool {
    (97 <= byte <= 122) || (48 <= byte <= 57) || byte == 45
}

/// The letter-digit-hyphen rule of RFC 1035 as relaxed by RFC 1123: one to
/// 63 octets of `a`-`z`, `0`-`9` and `-`, neither first nor last a hyphen.
pub open spec fn is_label(bytes: Seq<u8>) -> bool {
    &&& 1 <= bytes.len() <= 63
    &&& bytes[0] != 45
    &&& bytes.last() != 45
    &&& forall|i: int| 0 <= i < bytes.len() ==> label_byte(#[trigger] bytes[i])
}

/// An empty 12-byte string: calls `heapless::String::<12>::new`.
#[verifier::external_body]
fn empty_mac() -> (text: heapless::String<12>)
    ensures
        mac_text(text) == Seq::<u8>::empty(),
{
    heapless::String::new()
}

/// Calls `heapless::String::<12>::push` with an ASCII byte as a `char`: one
/// byte is appended when there is room, and otherwise the string is left as
/// it was.
#[verifier::external_body]
fn push_mac_byte(text: &mut heapless::String<12>, byte: u8) -> (pushed: bool)
    requires
        byte < 128,
    ensures
        pushed == (mac_text(*old(text)).len() < 12),
        pushed ==> mac_text(*final(text)) == mac_text(*old(text)).push(byte),
        !pushed ==> mac_text(*final(text)) == mac_text(*old(text)),
{
    text.push(byte as char).is_ok()
}

/// The lower-case hexadecimal digit of a nibble.
fn hex_digit_of(nibble: u8) -> (digit: u8)
    requires
        nibble < 16,
    ensures
        digit == hex_digit(nibble as int),
        digit < 128,
{
    if nibble < 10 { 48 + nibble } else { 87 + nibble }
}

/// Calls `heapless::String::<12>::as_str`.
#[verifier::external_body]
fn mac_str(text: &heapless::String<12>) -> (view: &str)
    ensures
        view.spec_bytes() == mac_text(*text),
{
    text.as_str()
}

/// Calls `heapless::String::<18>::as_str`.
#[verifier::external_body]
pub(crate) fn host_str(text: &heapless::String<18>) -> (view: &str)
    ensures
        view.spec_bytes() == host_text(*text),
{
    text.as_str()
}

/// An empty 18-byte string: calls `heapless::String::<18>::new`.
#[verifier::external_body]
fn empty_host() -> (text: heapless::String<18>)
    ensures
        host_text(text) == Seq::<u8>::empty(),
{
    heapless::String::new()
}

/// Calls `heapless::String::<18>::push_str`, which appends the whole of
/// `piece` when it fits and otherwise leaves the string as it was.
#[verifier::external_body]
fn push_host(text: &mut heapless::String<18>, piece: &str) -> (pushed: bool)
    ensures
        pushed == (host_text(*old(text)).len() + piece.spec_bytes().len() <= 18),
        pushed ==> host_text(*final(text)) == host_text(*old(text)) + piece.spec_bytes(),
        !pushed ==> host_text(*final(text)) == host_text(*old(text)),
{
    text.push_str(piece).is_ok()
}

/// Whether `label` is a hostname label a browser will accept in a URL.
pub fn is_hostname_label(label: &str) -> (legal: bool)
    ensures
        legal == is_label(label.spec_bytes()),
{
    let bytes = label.as_bytes();
    if bytes.len() == 0 || bytes.len() > 63 {
        return false;
    }
    if bytes[0] == 45 || bytes[bytes.len() - 1] == 45 {
        return false;
    }
    let mut index: usize = 0;
    while index < bytes.len()
        invariant
            index <= bytes@.len(),
            bytes@ == label.spec_bytes(),
            forall|i: int| 0 <= i < index ==> label_byte(#[trigger] bytes@[i]),
        decreases bytes.len() - index,
    {
        let byte = bytes[index];
        let allowed = (97 <= byte && byte <= 122) || (48 <= byte && byte <= 57) || byte == 45;
        if !allowed {
            assert(!label_byte(bytes@[index as int]));
            return false;
        }
        index += 1;
    }
    true
}

proof fn lemma_mac_hex_len(mac: Seq<u8>)
    ensures
        mac_hex_spec(mac).len() == 2 * mac.len(),
    decreases mac.len(),
{
    if mac.len() > 0 {
        lemma_mac_hex_len(mac.drop_last());
    }
}

/// The factory MAC, hex-encoded without separators.
pub fn mac_hex(mac: &[u8; 6]) -> (hex: heapless::String<12>)
    ensures
        mac_text(hex) == mac_hex_spec(mac@),
{
    let mut out = empty_mac();
    let mut index: usize = 0;
    while index < 6
        invariant
            index <= 6,
            mac_text(out) == mac_hex_spec(mac@.subrange(0, index as int)),
        decreases 6 - index,
    {
        proof {
            lemma_mac_hex_len(mac@.subrange(0, index as int));
            assert(mac@.subrange(0, index + 1).drop_last() =~= mac@.subrange(0, index as int));
        }
        let byte = mac[index];
        let high = push_mac_byte(&mut out, hex_digit_of(byte / 16));
        let low = push_mac_byte(&mut out, hex_digit_of(byte % 16));
        proof {
            assert(high && low);
            assert(mac_text(out) =~= mac_hex_spec(mac@.subrange(0, index as int)) + hex2(byte));
        }
        index += 1;
    }
    assert(mac@.subrange(0, 6) =~= mac@);
    out
}

/// This device's `.local` hostname, without the `.local`.
pub fn hostname(mac: &[u8; 6]) -> (name: heapless::String<18>)
    ensures
        host_text(name) == hostname_spec(mac@),
{
    let hex = mac_hex(mac);
    let mut out = empty_host();
    let prefix = "somfy";
    let hyphen = "-";
    proof {
        reveal_strlit("somfy");
        reveal_strlit("-");
        is_ascii_spec_bytes(prefix);
        is_ascii_spec_bytes(hyphen);
        assert(prefix.spec_bytes() =~= prefix_bytes());
        assert(hyphen.spec_bytes() =~= seq![45u8]);
        lemma_mac_hex_len(mac@);
    }
    push_host(&mut out, prefix);
    push_host(&mut out, hyphen);
    push_host(&mut out, mac_str(&hex));
    assert(host_text(out) =~= hostname_spec(mac@));
    out
}

proof fn lemma_mac_hex_bytes(mac: Seq<u8>)
    ensures
        forall|i: int| 0 <= i < mac_hex_spec(mac).len() ==> label_byte(#[trigger] mac_hex_spec(mac)[i]),
    decreases mac.len(),
{
    if mac.len() > 0 {
        lemma_mac_hex_bytes(mac.drop_last());
        let rest = mac_hex_spec(mac.drop_last());
        let whole = mac_hex_spec(mac);
        assert forall|i: int| 0 <= i < whole.len() implies label_byte(#[trigger] whole[i]) by {
            if i < rest.len() {
                assert(whole[i] == rest[i]);
            }
        }
    }
}

/// Every hostname this module produces is a legal label: the fixed half is
/// one and starts the name, the MAC half is twelve hexadecimal digits and
/// ends it, so the name neither starts nor ends with a hyphen and fits 63
/// octets. Established for every MAC, since none of it can be checked at run
/// time usefully.
pub proof fn law_hostname_is_label(mac: Seq<u8>)
    requires
        mac.len() == 6,
    ensures
        is_label(hostname_spec(mac)),
        hostname_spec(mac).len() == HOSTNAME_LEN,
{
    lemma_mac_hex_len(mac);
    lemma_mac_hex_bytes(mac);
    let name = hostname_spec(mac);
    let hex = mac_hex_spec(mac);
    assert forall|i: int| 0 <= i < name.len() implies label_byte(#[trigger] name[i]) by {
        if i >= 6 {
            assert(name[i] == hex[i - 6]);
        }
    }
    assert(name.last() == hex.last());
}

} // verus!
