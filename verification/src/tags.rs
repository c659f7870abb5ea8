//! Deterministic color assignment for tags, based on FNV-1a hashing.

use vstd::prelude::*;
use vstd::string::StringSliceAdditionalSpecFns;
use crate::text::string_from_chars;

verus! {

/// The FNV-1a offset basis.
pub const FNV_OFFSET_BASIS: u32 = 2166136261;

/// The FNV-1a prime.
pub const FNV_PRIME: u32 = 16777619;

/// One FNV-1a round: fold `b` into the running hash `h`.
pub open spec fn spec_fnv1a_step(h: u32, b: u8) -> u32 {
    (((h ^ (b as u32)) as nat * FNV_PRIME as nat) % 0x1_0000_0000nat) as u32
}

/// The FNV-1a hash of a byte sequence.
pub open spec fn spec_fnv1a(bytes: Seq<u8>) -> u32
    decreases bytes.len(),
{
    if bytes.len() == 0 {
        FNV_OFFSET_BASIS
    } else {
        spec_fnv1a_step(spec_fnv1a(bytes.drop_last()), bytes.last())
    }
}

/// Compute the FNV-1a hash of the UTF-8 bytes of `s`.
///
/// The result is deterministic, so equal tags always map to equal colors.
pub fn fnv1a_hash(s: &str) -> (r: u32)
    ensures
        r == spec_fnv1a(s.spec_bytes()),
{
    let bytes: &[u8] = s.as_bytes();
    let mut hash: u32 = FNV_OFFSET_BASIS;
    let mut i: usize = 0;
    while i < bytes.len()
        invariant
            i <= bytes@.len(),
            hash == spec_fnv1a(bytes@.take(i as int)),
        decreases bytes@.len() - i,
    {
        let b = bytes[i];
        hash = (hash ^ (b as u32)).wrapping_mul(FNV_PRIME);
        i = i + 1;
        proof {
            assert(bytes@.take(i as int).drop_last() =~= bytes@.take(i as int - 1));
        }
    }
    proof {
        assert(bytes@.take(bytes@.len() as int) =~= bytes@);
    }
    hash
}

/// Tag color classes for styling.
#[derive(Debug, Clone, Copy)]
pub struct TagColor {
    pub bg_class: &'static str,
    pub text_class: &'static str,
}

/// The palette entry for `idx` (eight distinct colors).
pub open spec fn spec_palette(idx: int) -> (Seq<char>, Seq<char>) {
    if idx == 0 {
        ("bg-purple-100"@, "text-purple-700"@)
    } else if idx == 1 {
        ("bg-blue-100"@, "text-blue-700"@)
    } else if idx == 2 {
        ("bg-green-100"@, "text-green-700"@)
    } else if idx == 3 {
        ("bg-yellow-100"@, "text-yellow-700"@)
    } else if idx == 4 {
        ("bg-orange-100"@, "text-orange-700"@)
    } else if idx == 5 {
        ("bg-pink-100"@, "text-pink-700"@)
    } else if idx == 6 {
        ("bg-indigo-100"@, "text-indigo-700"@)
    } else {
        ("bg-teal-100"@, "text-teal-700"@)
    }
}

/// The palette index a tag hashes to.
pub open spec fn spec_tag_color_index(s: &str) -> int {
    spec_fnv1a(s.spec_bytes()) as int % 8
}

fn palette(idx: u32) -> (r: TagColor)
    requires
        idx < 8,
    ensures
        r.bg_class@ == spec_palette(idx as int).0,
        r.text_class@ == spec_palette(idx as int).1,
{
    if idx == 0 {
        TagColor { bg_class: "bg-purple-100", text_class: "text-purple-700" }
    } else if idx == 1 {
        TagColor { bg_class: "bg-blue-100", text_class: "text-blue-700" }
    } else if idx == 2 {
        TagColor { bg_class: "bg-green-100", text_class: "text-green-700" }
    } else if idx == 3 {
        TagColor { bg_class: "bg-yellow-100", text_class: "text-yellow-700" }
    } else if idx == 4 {
        TagColor { bg_class: "bg-orange-100", text_class: "text-orange-700" }
    } else if idx == 5 {
        TagColor { bg_class: "bg-pink-100", text_class: "text-pink-700" }
    } else if idx == 6 {
        TagColor { bg_class: "bg-indigo-100", text_class: "text-indigo-700" }
    } else {
        TagColor { bg_class: "bg-teal-100", text_class: "text-teal-700" }
    }
}

/// Deterministic color classes for a tag: the FNV-1a hash of the tag picks
/// one of eight palette entries, so the same tag always gets the same color.
pub fn get_tag_color(tag: &str) -> (r: TagColor)
    ensures
        r.bg_class@ == spec_palette(spec_tag_color_index(tag)).0,
        r.text_class@ == spec_palette(spec_tag_color_index(tag)).1,
{
    let hash = fnv1a_hash(tag);
    palette(hash % 8)
}

/// The combined style classes for a tag: background class, a space, then
/// the text class.
pub fn get_tag_classes(tag: &str) -> (r: String)
    ensures
        r@ == spec_palette(spec_tag_color_index(tag)).0 + seq![' '] + spec_palette(
            spec_tag_color_index(tag),
        ).1,
{
    let color = get_tag_color(tag);
    let mut cs = crate::text::chars_of(color.bg_class);
    cs.push(' ');
    let tail = crate::text::chars_of(color.text_class);
    proof {
        assert(cs@ =~= color.bg_class@ + seq![' '] + tail@.take(0));
    }
    let mut i: usize = 0;
    while i < tail.len()
        invariant
            i <= tail@.len(),
            cs@ == color.bg_class@ + seq![' '] + tail@.take(i as int),
        decreases tail@.len() - i,
    {
        cs.push(tail[i]);
        i = i + 1;
        proof {
            assert(cs@ =~= color.bg_class@ + seq![' '] + tail@.take(i as int));
        }
    }
    proof {
        assert(cs@ =~= color.bg_class@ + seq![' '] + tail@);
    }
    string_from_chars(&cs)
}

} // verus!
