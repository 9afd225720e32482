use vstd::prelude::*;

verus! {

/// Code point of a character after ASCII lower-casing; other characters keep their code.
pub open spec fn ascii_lower(c: char) -> u32 {
    let code = c as u32;
    if 65 <= code && code <= 90 {
        (code + 32) as u32
    } else {
        code
    }
}

fn to_ascii_lower(c: char) -> (r: u32)
    ensures
        r == ascii_lower(c),
{
    let code = c as u32;
    if 65 <= code && code <= 90 {
        code + 32
    } else {
        code
    }
}

/// One step of the FNV-1a hash (32-bit) on a lower-cased character.
pub open spec fn fnv1a_step(h: u32, c: char) -> u32 {
    (h ^ ascii_lower(c)).wrapping_mul(0x01000193u32)
}

/// FNV-1a hash of the lower-cased characters of `s`, folded from the left.
pub open spec fn fnv1a_spec(s: Seq<char>) -> u32
    decreases s.len(),
{
    if s.len() == 0 {
        0x811c9dc5u32
    } else {
        fnv1a_step(fnv1a_spec(s.drop_last()), s.last())
    }
}

/// Case-insensitive FNV-1a hash, used to name submeshes.
pub fn fnv1a(string: &str) -> (r: u32)
    ensures
        r == fnv1a_spec(string@),
{
    let mut hash: u32 = 0x811c9dc5u32;
    for c in it: string.chars()
        invariant
            it.seq() == string@,
            hash == fnv1a_spec(string@.take(it.index() as int)),
    {
        assert(string@.take(it.index() + 1).drop_last() =~= string@.take(it.index() as int));
        let l = to_ascii_lower(c);
        hash = (hash ^ l).wrapping_mul(0x01000193u32);
    }
    assert(string@.take(string@.len() as int) =~= string@);
    hash
}

/// One step of the ELF-style hash on a lower-cased character: shift in four bits,
/// then fold the top nibble back into bits 4..8 and clear it.
pub open spec fn elf_step(h: u32, c: char) -> u32 {
    let h1 = (h << 4u32).wrapping_add(ascii_lower(c));
    let top = h1 & 0xf0000000u32;
    if top != 0 {
        (h1 ^ (top >> 24u32)) ^ top
    } else {
        h1
    }
}

/// ELF-style hash of the lower-cased characters of `s`, folded from the left.
pub open spec fn elf_hash_spec(s: Seq<char>) -> u32
    decreases s.len(),
{
    if s.len() == 0 {
        0u32
    } else {
        elf_step(elf_hash_spec(s.drop_last()), s.last())
    }
}

/// Case-insensitive ELF-style hash, used to name joints.
pub fn string_to_hash(string: &str) -> (r: u32)
    ensures
        r == elf_hash_spec(string@),
{
    let mut hash: u32 = 0;
    for c in it: string.chars()
        invariant
            it.seq() == string@,
            hash == elf_hash_spec(string@.take(it.index() as int)),
    {
        assert(string@.take(it.index() + 1).drop_last() =~= string@.take(it.index() as int));
        let l = to_ascii_lower(c);
        let mut h = (hash << 4u32).wrapping_add(l);
        let top = h & 0xf0000000u32;
        if top != 0 {
            h = h ^ (top >> 24u32);
            h = h ^ top;
        }
        hash = h;
    }
    assert(string@.take(string@.len() as int) =~= string@);
    hash
}

} // verus!
