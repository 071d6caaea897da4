//! Offline-mode player UUIDs: the MD5 of `OfflinePlayer:<name>` with the
//! version and variant bits set, shown in the standard hyphenated form.

use vstd::prelude::*;

use crate::packets::{hex_digit, hex_digit_e};

verus! {

/// The MD5 digest of a byte sequence. A pure function of the input alone:
/// equal inputs digest equal on every run and every machine.
pub uninterp spec fn md5_of(data: Seq<u8>) -> Seq<u8>;

/// Relies on `md5::compute`: the 16-byte MD5 digest of the input, a
/// function of the input bytes alone.
#[verifier::external_body]
fn md5_digest(data: &[u8]) -> (r: Vec<u8>)
    ensures
        r@ == md5_of(data@),
        r@.len() == 16,
{
    md5::compute(data).0.to_vec()
}

/// The digest input for an offline player: `OfflinePlayer:` then the name.
pub open spec fn offline_key(name: Seq<u8>) -> Seq<u8> {
    seq![
        79u8,
        102u8,
        102u8,
        108u8,
        105u8,
        110u8,
        101u8,
        80u8,
        108u8,
        97u8,
        121u8,
        101u8,
        114u8,
        58u8,
    ] + name
}

/// A digest with the UUID version forced to 3 and the variant to the IETF
/// form: byte 6 keeps its low nibble under 0x30, byte 8 its low 6 bits
/// under 0x80.
pub open spec fn with_uuid_bits(d: Seq<u8>) -> Seq<u8> {
    d.update(6, ((d[6] & 0x0f) | 0x30) as u8).update(8, ((d[8] & 0x3f) | 0x80) as u8)
}

/// The offline UUID bytes of a player name.
pub open spec fn offline_uuid(name: Seq<u8>) -> Seq<u8> {
    with_uuid_bits(md5_of(offline_key(name)))
}

/// Hex pairs of a byte sequence, two lower-case digits per byte.
pub open spec fn hex_pairs(s: Seq<u8>) -> Seq<u8>
    decreases s.len(),
{
    if s.len() == 0 {
        Seq::empty()
    } else {
        seq![hex_digit(s[0] as int / 16), hex_digit(s[0] as int % 16)] + hex_pairs(
            s.drop_first(),
        )
    }
}

/// The standard hyphenated text of 16 UUID bytes: 8-4-4-4-12 hex digits.
pub open spec fn uuid_text(d: Seq<u8>) -> Seq<u8> {
    hex_pairs(d.subrange(0, 4)) + seq![45u8] + hex_pairs(d.subrange(4, 6)) + seq![45u8]
        + hex_pairs(d.subrange(6, 8)) + seq![45u8] + hex_pairs(d.subrange(8, 10)) + seq![45u8]
        + hex_pairs(d.subrange(10, 16))
}

/// A player's offline-mode UUID, as its 16 bytes.
#[derive(Debug, Clone)]
pub struct PlayerUuid {
    pub bytes: Vec<u8>,
}

impl View for PlayerUuid {
    type V = Seq<u8>;

    open spec fn view(&self) -> Seq<u8> {
        self.bytes@
    }
}

impl PlayerUuid {
    /// Sets the UUID version and variant bits on a raw 16-byte digest.
    /// Everything past the digest call itself is decided here: a check on
    /// given digest bytes reaches this logic directly.
    pub fn from_digest(digest: &[u8]) -> (r: PlayerUuid)
        requires
            digest@.len() == 16,
        ensures
            r@ == with_uuid_bits(digest@),
    {
        let mut bytes = vstd::slice::slice_to_vec(digest);
        let b6 = bytes[6];
        bytes.set(6, (b6 & 0x0f) | 0x30);
        let b8 = bytes[8];
        bytes.set(8, (b8 & 0x3f) | 0x80);
        PlayerUuid { bytes }
    }

    /// The offline-mode UUID of a player name: the MD5 of
    /// `OfflinePlayer:<name>` with version 3 and the IETF variant.
    pub fn offline_player(player_name: &[u8]) -> (r: PlayerUuid)
        ensures
            r@ == offline_uuid(player_name@),
            r@.len() == 16,
    {
        let mut key: Vec<u8> = Vec::new();
        key.push(79);
        key.push(102);
        key.push(102);
        key.push(108);
        key.push(105);
        key.push(110);
        key.push(101);
        key.push(80);
        key.push(108);
        key.push(97);
        key.push(121);
        key.push(101);
        key.push(114);
        key.push(58);
        let mut i: usize = 0;
        while i < player_name.len()
            invariant
                i <= player_name@.len(),
                key@ == offline_key(player_name@.take(i as int)),
            decreases player_name@.len() - i,
        {
            key.push(player_name[i]);
            proof {
                assert(player_name@.take(i + 1) == player_name@.take(i as int)
                    + seq![player_name@[i as int]]);
                assert(key@ =~= offline_key(player_name@.take(i + 1)));
            }
            i = i + 1;
        }
        proof {
            assert(player_name@.take(player_name@.len() as int) == player_name@);
        }
        let digest = md5_digest(key.as_slice());
        PlayerUuid::from_digest(digest.as_slice())
    }

    /// The hyphenated text form of this UUID.
    pub fn text(&self) -> (r: Vec<u8>)
        requires
            self@.len() == 16,
        ensures
            r@ == uuid_text(self@),
    {
        let mut out: Vec<u8> = Vec::new();
        push_hex_pairs(&mut out, self.bytes.as_slice(), 0, 4);
        out.push(45);
        push_hex_pairs(&mut out, self.bytes.as_slice(), 4, 6);
        out.push(45);
        push_hex_pairs(&mut out, self.bytes.as_slice(), 6, 8);
        out.push(45);
        push_hex_pairs(&mut out, self.bytes.as_slice(), 8, 10);
        out.push(45);
        push_hex_pairs(&mut out, self.bytes.as_slice(), 10, 16);
        proof {
            assert(out@ =~= uuid_text(self@));
        }
        out
    }
}

/// Appends the hex pairs of `s[from..to]` to `out`.
fn push_hex_pairs(out: &mut Vec<u8>, s: &[u8], from: usize, to: usize)
    requires
        from <= to <= s@.len(),
    ensures
        final(out)@ == old(out)@ + hex_pairs(s@.subrange(from as int, to as int)),
{
    let mut i: usize = from;
    proof {
        assert(s@.subrange(from as int, from as int) =~= Seq::<u8>::empty());
    }
    while i < to
        invariant
            from <= i <= to <= s@.len(),
            out@ + hex_pairs(s@.subrange(i as int, to as int)) == old(out)@ + hex_pairs(
                s@.subrange(from as int, to as int),
            ),
        decreases to - i,
    {
        let b = s[i];
        let ghost prev = out@;
        proof {
            vstd::arithmetic::div_mod::lemma_mod_bound(b as int, 16);
            vstd::arithmetic::div_mod::lemma_div_pos_is_pos(b as int, 16);
            vstd::arithmetic::div_mod::lemma_fundamental_div_mod(b as int, 16);
            assert(b / 16 < 16);
            assert(s@.subrange(i as int, to as int)[0] == b);
            assert(s@.subrange(i as int, to as int).drop_first() =~= s@.subrange(
                i + 1,
                to as int,
            ));
            assert(hex_pairs(s@.subrange(i as int, to as int)) == seq![
                hex_digit(b as int / 16),
                hex_digit(b as int % 16),
            ] + hex_pairs(s@.subrange(i + 1, to as int)));
        }
        out.push(hex_digit_e(b / 16));
        out.push(hex_digit_e(b % 16));
        proof {
            assert(out@ =~= prev + seq![hex_digit(b as int / 16), hex_digit(b as int % 16)]);
        }
        i = i + 1;
    }
    proof {
        assert(s@.subrange(to as int, to as int) =~= Seq::<u8>::empty());
        assert(out@ + Seq::<u8>::empty() =~= out@);
    }
}

} // verus!
