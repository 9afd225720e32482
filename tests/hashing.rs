use lol_assets::hasher::{fnv1a, string_to_hash};
use lol_assets::values::{vec4_u8, U16Vec4};

#[test]
fn fnv1a_empty_is_offset_basis() {
    assert_eq!(fnv1a(""), 0x811c9dc5);
}

#[test]
fn fnv1a_single_letter() {
    assert_eq!(fnv1a("a"), 0xe40c292c);
}

#[test]
fn fnv1a_ignores_ascii_case() {
    assert_eq!(fnv1a("Body_Mat"), fnv1a("body_mat"));
    assert_ne!(fnv1a("body"), fnv1a("bodz"));
}

#[test]
fn string_to_hash_empty_is_zero() {
    assert_eq!(string_to_hash(""), 0);
}

#[test]
fn string_to_hash_short_names() {
    assert_eq!(string_to_hash("a"), 0x61);
    assert_eq!(string_to_hash("abc"), 0x6783);
    assert_eq!(string_to_hash("ABC"), 0x6783);
}

#[test]
fn string_to_hash_folds_top_nibble() {
    // Eight characters push bits into the top nibble, which is folded back.
    let mut expected: u32 = 0;
    for c in "abcdefgh".chars() {
        expected = (expected << 4).wrapping_add(c as u32);
        let top = expected & 0xf000_0000;
        if top != 0 {
            expected ^= top >> 24;
            expected ^= top;
        }
    }
    assert_eq!(string_to_hash("ABCDEFGH"), expected);
    assert_eq!(string_to_hash("abcdefgh") & 0xf000_0000, 0);
}

#[test]
fn vec4_u8_widens_bytes() {
    let bytes = [9u8, 1, 2, 250, 7];
    assert_eq!(vec4_u8(&bytes, 1), Ok(U16Vec4::new(1, 2, 250, 7)));
    assert!(vec4_u8(&bytes, 2).is_err());
}
