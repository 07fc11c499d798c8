//! Fleet vocabulary for devices: vendor and standardized GPU family.

use crate::text::chars_of;
use vstd::prelude::*;

verus! {

/// Vendor of a device.
#[derive(Clone, Copy, Debug, PartialEq, Eq, Structural)]
pub enum GpuVendor {
    Nvidia,
    Apple,
    Amd,
    Unknown,
}

/// The wire spelling of a vendor.
pub open spec fn vendor_slug(vendor: GpuVendor) -> Seq<char> {
    match vendor {
        GpuVendor::Nvidia => "nvidia"@,
        GpuVendor::Apple => "apple"@,
        GpuVendor::Amd => "amd"@,
        GpuVendor::Unknown => "unknown"@,
    }
}

impl GpuVendor {
    /// The wire spelling: lowercase.
    pub fn slug(&self) -> (r: &'static str)
        ensures
            r@ == vendor_slug(*self),
    {
        match self {
            GpuVendor::Nvidia => "nvidia",
            GpuVendor::Apple => "apple",
            GpuVendor::Amd => "amd",
            GpuVendor::Unknown => "unknown",
        }
    }
}

/// Standardized GPU family, the vocabulary shared with the control plane.
#[derive(Clone, Copy, Debug, PartialEq, Eq, Structural)]
pub enum GpuFamily {
    Cpu,
    A10G,
    L4,
    L40S,
    A100,
    H100,
    H200,
    B200,
    B300,
    MI350X,
    MI355X,
}

/// Whether a character is an ASCII letter or digit.
pub open spec fn is_alphanumeric(c: char) -> bool {
    '0' <= c <= '9' || 'A' <= c <= 'Z' || 'a' <= c <= 'z'
}

/// Whether a character is another in upper case.
pub open spec fn is_upper_of(upper: char, c: char) -> bool {
    if 'a' <= c <= 'z' {
        upper as int == c as int - 32
    } else {
        upper == c
    }
}

/// Whether a token stands at a place of a name, whole and in either case:
/// nothing alphanumeric stands before or after it.
pub open spec fn token_at(name: Seq<char>, token: Seq<char>, i: int) -> bool {
    &&& 0 <= i
    &&& i + token.len() <= name.len()
    &&& i == 0 || !is_alphanumeric(name[i - 1])
    &&& i + token.len() == name.len() || !is_alphanumeric(name[i + token.len()])
    &&& forall|k: int| 0 <= k < token.len() ==> is_upper_of(#[trigger] token[k], name[i + k])
}

/// Whether a name holds a token.
pub open spec fn has_token(name: Seq<char>, token: Seq<char>) -> bool {
    exists|i: int| #[trigger] token_at(name, token, i)
}

/// The family of a device name: that of the first token of the vocabulary that
/// the name holds.
pub open spec fn family_of(name: Seq<char>) -> Option<GpuFamily> {
    if has_token(name, "A10G"@) {
        Some(GpuFamily::A10G)
    } else if has_token(name, "L40S"@) {
        Some(GpuFamily::L40S)
    } else if has_token(name, "L4"@) {
        Some(GpuFamily::L4)
    } else if has_token(name, "A100"@) {
        Some(GpuFamily::A100)
    } else if has_token(name, "H100"@) {
        Some(GpuFamily::H100)
    } else if has_token(name, "H200"@) {
        Some(GpuFamily::H200)
    } else if has_token(name, "B200"@) {
        Some(GpuFamily::B200)
    } else if has_token(name, "B300"@) {
        Some(GpuFamily::B300)
    } else if has_token(name, "MI350X"@) {
        Some(GpuFamily::MI350X)
    } else if has_token(name, "MI355X"@) {
        Some(GpuFamily::MI355X)
    } else {
        None
    }
}

fn alphanumeric(c: char) -> (r: bool)
    ensures
        r == is_alphanumeric(c),
{
    ('0' <= c && c <= '9') || ('A' <= c && c <= 'Z') || ('a' <= c && c <= 'z')
}

fn upper_of(upper: char, c: char) -> (r: bool)
    ensures
        r == is_upper_of(upper, c),
{
    if 'a' <= c && c <= 'z' {
        upper as u32 == c as u32 - 32
    } else {
        upper == c
    }
}

fn holds_token(name: &Vec<char>, token: &str) -> (r: bool)
    ensures
        r == has_token(name@, token@),
{
    let letters: Vec<char> = chars_of(token);
    let mut i: usize = 0;
    while letters.len() <= name.len() && i <= name.len() - letters.len()
        invariant
            i <= name@.len() + 1,
            letters@ == token@,
            forall|j: int| 0 <= j < i ==> !#[trigger] token_at(name@, token@, j),
        decreases name@.len() + 1 - i,
    {
        let end: usize = i + letters.len();
        let mut whole: bool = (i == 0 || !alphanumeric(name[i - 1])) && (end == name.len()
            || !alphanumeric(name[end]));
        let mut k: usize = 0;
        let ghost bounded = whole;
        while k < letters.len()
            invariant
                k <= letters@.len(),
                end == i + letters@.len(),
                end <= name@.len(),
                whole == (bounded && forall|j: int|
                    0 <= j < k ==> is_upper_of(#[trigger] letters@[j], name@[i + j])),
            decreases letters.len() - k,
        {
            if !upper_of(letters[k], name[i + k]) {
                whole = false;
            }
            k = k + 1;
        }
        if whole {
            assert(token_at(name@, token@, i as int));
            return true;
        }
        assert(!token_at(name@, token@, i as int));
        if i == name.len() {
            return false;
        }
        i = i + 1;
    }
    false
}

impl GpuFamily {
    /// Derives the family from a device name such as `NVIDIA H100 80GB HBM3`.
    /// Whole alphanumeric tokens are matched, not substrings, so that `L40S` is
    /// never taken for `L4`. A device outside the vocabulary has no family.
    pub fn from_device_name(name: &str) -> (r: Option<GpuFamily>)
        ensures
            r == family_of(name@),
    {
        let letters: Vec<char> = chars_of(name);
        if holds_token(&letters, "A10G") {
            Some(GpuFamily::A10G)
        } else if holds_token(&letters, "L40S") {
            Some(GpuFamily::L40S)
        } else if holds_token(&letters, "L4") {
            Some(GpuFamily::L4)
        } else if holds_token(&letters, "A100") {
            Some(GpuFamily::A100)
        } else if holds_token(&letters, "H100") {
            Some(GpuFamily::H100)
        } else if holds_token(&letters, "H200") {
            Some(GpuFamily::H200)
        } else if holds_token(&letters, "B200") {
            Some(GpuFamily::B200)
        } else if holds_token(&letters, "B300") {
            Some(GpuFamily::B300)
        } else if holds_token(&letters, "MI350X") {
            Some(GpuFamily::MI350X)
        } else if holds_token(&letters, "MI355X") {
            Some(GpuFamily::MI355X)
        } else {
            None
        }
    }

    /// The wire spelling: lowercase.
    pub fn slug(&self) -> (r: &'static str)
        ensures
            r@ == family_slug(*self),
    {
        match self {
            GpuFamily::Cpu => "cpu",
            GpuFamily::A10G => "a10g",
            GpuFamily::L4 => "l4",
            GpuFamily::L40S => "l40s",
            GpuFamily::A100 => "a100",
            GpuFamily::H100 => "h100",
            GpuFamily::H200 => "h200",
            GpuFamily::B200 => "b200",
            GpuFamily::B300 => "b300",
            GpuFamily::MI350X => "mi350x",
            GpuFamily::MI355X => "mi355x",
        }
    }
}

/// The wire spelling of a family.
pub open spec fn family_slug(family: GpuFamily) -> Seq<char> {
    match family {
        GpuFamily::Cpu => "cpu"@,
        GpuFamily::A10G => "a10g"@,
        GpuFamily::L4 => "l4"@,
        GpuFamily::L40S => "l40s"@,
        GpuFamily::A100 => "a100"@,
        GpuFamily::H100 => "h100"@,
        GpuFamily::H200 => "h200"@,
        GpuFamily::B200 => "b200"@,
        GpuFamily::B300 => "b300"@,
        GpuFamily::MI350X => "mi350x"@,
        GpuFamily::MI355X => "mi355x"@,
    }
}

/// A token matches only whole: where a name holds a token at a place, no longer
/// token stands there, whatever it begins with.
pub proof fn law_tokens_match_whole(name: Seq<char>, short: Seq<char>, long: Seq<char>, i: int)
    requires
        token_at(name, short, i),
        short.len() < long.len(),
        forall|k: int| 0 <= k < long.len() ==> is_alphanumeric(#[trigger] long[k]),
    ensures
        !token_at(name, long, i),
{
    if token_at(name, long, i) {
        let n = short.len() as int;
        assert(is_upper_of(long[n], name[i + n]));
        assert(is_alphanumeric(long[n]));
        assert(is_alphanumeric(name[i + n]));
    }
}

/// The token by which device names tell a family; the processor has none.
pub open spec fn family_token(family: GpuFamily) -> Option<Seq<char>> {
    match family {
        GpuFamily::Cpu => None,
        GpuFamily::A10G => Some("A10G"@),
        GpuFamily::L4 => Some("L4"@),
        GpuFamily::L40S => Some("L40S"@),
        GpuFamily::A100 => Some("A100"@),
        GpuFamily::H100 => Some("H100"@),
        GpuFamily::H200 => Some("H200"@),
        GpuFamily::B200 => Some("B200"@),
        GpuFamily::B300 => Some("B300"@),
        GpuFamily::MI350X => Some("MI350X"@),
        GpuFamily::MI355X => Some("MI355X"@),
    }
}

/// A device is of a family only where its name holds that family's token, and has a family
/// wherever its name holds a token of one. A name that holds the token of just one family
/// is of that family.
pub proof fn law_families_are_named(name: Seq<char>, family: GpuFamily)
    ensures
        family_of(name) matches Some(f) ==> (family_token(f) matches Some(token) && has_token(
            name,
            token,
        )),
        family_token(family) matches Some(token) ==> (has_token(name, token) ==> family_of(name)
            is Some),
        (family_token(family) matches Some(token) && has_token(name, token)) && (forall|
            other: GpuFamily,
        |
            other != family && (#[trigger] family_token(other) is Some) ==> !has_token(
                name,
                family_token(other)->0,
            )) ==> family_of(name) == Some(family),
{
    if let Some(f) = family_of(name) {
        assert(family_token(f) is Some);
    }
}

/// The spelling of a family is its token in lower case.
pub proof fn law_slugs_spell_the_token(family: GpuFamily)
    ensures
        family_token(family) matches Some(token) ==> family_slug(family).len() == token.len()
            && forall|k: int|
            0 <= k < token.len() ==> is_upper_of(#[trigger] token[k], family_slug(family)[k]) && !(
            'A' <= family_slug(family)[k] <= 'Z'),
{
    reveal_strlit("A10G");
    reveal_strlit("L4");
    reveal_strlit("L40S");
    reveal_strlit("A100");
    reveal_strlit("H100");
    reveal_strlit("H200");
    reveal_strlit("B200");
    reveal_strlit("B300");
    reveal_strlit("MI350X");
    reveal_strlit("MI355X");
    reveal_strlit("a10g");
    reveal_strlit("l4");
    reveal_strlit("l40s");
    reveal_strlit("a100");
    reveal_strlit("h100");
    reveal_strlit("h200");
    reveal_strlit("b200");
    reveal_strlit("b300");
    reveal_strlit("mi350x");
    reveal_strlit("mi355x");
}

/// Whether two characters are the same letter, in either case.
pub open spec fn same_letter(a: char, b: char) -> bool {
    exists|upper: char| #[trigger] is_upper_of(upper, a) && is_upper_of(upper, b)
}

/// Case does not matter: names that differ in nothing else are of the same family.
pub proof fn law_case_does_not_matter(a: Seq<char>, b: Seq<char>)
    requires
        a.len() == b.len(),
        forall|k: int| 0 <= k < a.len() ==> same_letter(#[trigger] a[k], b[k]),
    ensures
        family_of(a) == family_of(b),
{
    assert forall|token: Seq<char>| #[trigger] has_token(a, token) == has_token(b, token) by {
        if has_token(a, token) {
            let i = choose|i: int| #[trigger] token_at(a, token, i);
            lemma_same_token(a, b, token, i);
        }
        if has_token(b, token) {
            let i = choose|i: int| #[trigger] token_at(b, token, i);
            assert forall|k: int| 0 <= k < b.len() implies same_letter(#[trigger] b[k], a[k]) by {
                assert(same_letter(a[k], b[k]));
            }
            lemma_same_token(b, a, token, i);
        }
    }
}

proof fn lemma_same_token(a: Seq<char>, b: Seq<char>, token: Seq<char>, i: int)
    requires
        a.len() == b.len(),
        forall|k: int| 0 <= k < a.len() ==> same_letter(#[trigger] a[k], b[k]),
        token_at(a, token, i),
    ensures
        has_token(b, token),
{
    let n = token.len() as int;
    if i > 0 {
        assert(same_letter(a[i - 1], b[i - 1]));
    }
    if i + n < a.len() {
        assert(same_letter(a[i + n], b[i + n]));
    }
    assert forall|k: int| 0 <= k < n implies is_upper_of(#[trigger] token[k], b[i + k]) by {
        assert(is_upper_of(token[k], a[i + k]));
        assert(same_letter(a[i + k], b[i + k]));
    }
    assert(token_at(b, token, i));
}

/// A token is whole: letters and digits right before or after it make it another word.
pub proof fn law_tokens_are_words(name: Seq<char>, token: Seq<char>, i: int)
    requires
        token_at(name, token, i),
    ensures
        i > 0 ==> !('0' <= name[i - 1] <= '9') && !('A' <= name[i - 1] <= 'Z') && !('a' <= name[i
            - 1] <= 'z'),
        i + token.len() < name.len() ==> !('0' <= name[i + token.len()] <= '9') && !('A' <= name[i
            + token.len()] <= 'Z') && !('a' <= name[i + token.len()] <= 'z'),
{
}

/// The spellings of vendors are the ones of the wire.
pub proof fn law_vendors_are_spelled(vendor: GpuVendor)
    ensures
        vendor_slug(vendor) == "nvidia"@ <==> vendor == GpuVendor::Nvidia,
        vendor_slug(vendor) == "apple"@ <==> vendor == GpuVendor::Apple,
        vendor_slug(vendor) == "amd"@ <==> vendor == GpuVendor::Amd,
        vendor_slug(vendor) == "unknown"@ <==> vendor == GpuVendor::Unknown,
{
    reveal_strlit("nvidia");
    reveal_strlit("apple");
    reveal_strlit("amd");
    reveal_strlit("unknown");
    assert("nvidia"@.len() == 6 && "apple"@.len() == 5 && "amd"@.len() == 3 && "unknown"@.len()
        == 7);
}

} // verus!
