use vstd::prelude::*;

verus! {

/// Compares an address against a half-open address range, ordering the
/// range relative to the address so that a binary search over a sorted
/// list of ranges can locate the one that contains the address.
pub fn cmp_range_to_idx(start: u64, end: u64, idx: u64) -> (r: core::cmp::Ordering)
    ensures
        r == core::cmp::Ordering::Greater <==> idx < start,
        r == core::cmp::Ordering::Less <==> (start <= idx && end <= idx),
        r == core::cmp::Ordering::Equal <==> (start <= idx && idx < end),
{
    if start > idx {
        core::cmp::Ordering::Greater
    } else if end <= idx {
        core::cmp::Ordering::Less
    } else {
        core::cmp::Ordering::Equal
    }
}

/// What String::push does: appends one character.
pub assume_specification[ String::push ](s: &mut String, c: char)
    ensures
        final(s)@ == old(s)@.push(c),
;

/// Equality of two strings by their characters.
pub fn str_eq(a: &str, b: &str) -> (r: bool)
    ensures
        r == (a@ == b@),
{
    let alen = a.unicode_len();
    let blen = b.unicode_len();
    if alen != blen {
        return false;
    }
    let mut i: usize = 0;
    while i < alen
        invariant
            i <= alen,
            alen == a@.len(),
            alen == b@.len(),
            forall|k: int| 0 <= k < i ==> a@[k] == b@[k],
        decreases alen - i,
    {
        if a.get_char(i) != b.get_char(i) {
            return false;
        }
        i = i + 1;
    }
    proof {
        assert(a@ =~= b@);
    }
    true
}

/// The names under which DWARF debug sections appear: the ELF spelling
/// with a leading dot and the Mach-O spelling with leading underscores.
pub open spec fn spec_is_dwarf_section_name(s: Seq<char>) -> bool {
    ||| s == ".debug_abbrev"@
    ||| s == ".debug_addr"@
    ||| s == ".debug_info"@
    ||| s == ".debug_line"@
    ||| s == ".debug_line_str"@
    ||| s == ".debug_str"@
    ||| s == ".debug_str_offsets"@
    ||| s == ".debug_types"@
    ||| s == ".debug_loc"@
    ||| s == ".debug_loclists"@
    ||| s == ".debug_ranges"@
    ||| s == ".debug_rnglists"@
    ||| s == "__debug_abbrev"@
    ||| s == "__debug_addr"@
    ||| s == "__debug_info"@
    ||| s == "__debug_line"@
    ||| s == "__debug_line_str"@
    ||| s == "__debug_str"@
    ||| s == "__debug_str_offsets"@
    ||| s == "__debug_types"@
    ||| s == "__debug_loc"@
    ||| s == "__debug_loclists"@
    ||| s == "__debug_ranges"@
    ||| s == "__debug_rnglists"@
}

/// Whether a section name announces DWARF debug information.
pub fn is_dwarf_section_name(s: &str) -> (r: bool)
    ensures
        r == spec_is_dwarf_section_name(s@),
{
    str_eq(s, ".debug_abbrev") || str_eq(s, ".debug_addr") || str_eq(s, ".debug_info") || str_eq(
        s,
        ".debug_line",
    ) || str_eq(s, ".debug_line_str") || str_eq(s, ".debug_str") || str_eq(s, ".debug_str_offsets")
        || str_eq(s, ".debug_types") || str_eq(s, ".debug_loc") || str_eq(s, ".debug_loclists")
        || str_eq(s, ".debug_ranges") || str_eq(s, ".debug_rnglists") || str_eq(
        s,
        "__debug_abbrev",
    ) || str_eq(s, "__debug_addr") || str_eq(s, "__debug_info") || str_eq(s, "__debug_line")
        || str_eq(s, "__debug_line_str") || str_eq(s, "__debug_str") || str_eq(
        s,
        "__debug_str_offsets",
    ) || str_eq(s, "__debug_types") || str_eq(s, "__debug_loc") || str_eq(s, "__debug_loclists")
        || str_eq(s, "__debug_ranges") || str_eq(s, "__debug_rnglists")
}

/// Whether a section name carries the DWARF debug-section prefix.
pub open spec fn spec_has_debug_prefix(s: Seq<char>) -> bool {
    s.len() >= 7 && s.subrange(0, 7) == ".debug_"@
}

pub fn has_debug_prefix(s: &str) -> (r: bool)
    ensures
        r == spec_has_debug_prefix(s@),
{
    if s.unicode_len() < 7 {
        return false;
    }
    let head = s.substring_char(0, 7);
    str_eq(head, ".debug_")
}

/// The sixteen hexadecimal digit characters, lower case.
pub open spec fn spec_hex_digit(d: int) -> char {
    if d == 0 {
        '0'
    } else if d == 1 {
        '1'
    } else if d == 2 {
        '2'
    } else if d == 3 {
        '3'
    } else if d == 4 {
        '4'
    } else if d == 5 {
        '5'
    } else if d == 6 {
        '6'
    } else if d == 7 {
        '7'
    } else if d == 8 {
        '8'
    } else if d == 9 {
        '9'
    } else if d == 10 {
        'a'
    } else if d == 11 {
        'b'
    } else if d == 12 {
        'c'
    } else if d == 13 {
        'd'
    } else if d == 14 {
        'e'
    } else {
        'f'
    }
}

/// The lower-case hexadecimal rendering of a number, without leading
/// zeros (zero itself renders as "0").
pub open spec fn spec_hex_digits(v: nat) -> Seq<char>
    decreases v,
{
    if v < 16 {
        seq![spec_hex_digit(v as int)]
    } else {
        spec_hex_digits(v / 16).push(spec_hex_digit((v % 16) as int))
    }
}

fn hex_digit(d: u8) -> (r: char)
    requires
        d < 16,
    ensures
        r == spec_hex_digit(d as int),
{
    if d == 0 {
        '0'
    } else if d == 1 {
        '1'
    } else if d == 2 {
        '2'
    } else if d == 3 {
        '3'
    } else if d == 4 {
        '4'
    } else if d == 5 {
        '5'
    } else if d == 6 {
        '6'
    } else if d == 7 {
        '7'
    } else if d == 8 {
        '8'
    } else if d == 9 {
        '9'
    } else if d == 10 {
        'a'
    } else if d == 11 {
        'b'
    } else if d == 12 {
        'c'
    } else if d == 13 {
        'd'
    } else if d == 14 {
        'e'
    } else {
        'f'
    }
}

/// Renders a number in lower-case hexadecimal, without leading zeros.
pub fn hex_string(v: u64) -> (r: String)
    ensures
        r@ == spec_hex_digits(v as nat),
    decreases v,
{
    if v < 16 {
        let mut s = String::new();
        s.push(hex_digit(v as u8));
        proof {
            assert(s@ =~= seq![spec_hex_digit(v as int)]);
        }
        s
    } else {
        let mut s = hex_string(v / 16);
        s.push(hex_digit((v % 16) as u8));
        s
    }
}

} // verus!
