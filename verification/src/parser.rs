//! Tag handling: looking a key up in a building's tag list, testing a value
//! against a configured list, and parsing the numeric `building:levels` value.

use vstd::prelude::*;
use vstd::string::StrSliceExecFns;

verus! {

/// Parsed levels larger than this saturate; every configured threshold lies
/// below it, so the clamped weight never sees the difference.
pub const LEVELS_CAP: u64 = 10_000_000;

/// First value stored under `key` at position `i` or later, by key equality.
pub open spec fn tag_value_from(
    tags: Seq<(Seq<char>, Seq<char>)>,
    key: Seq<char>,
    i: int,
) -> Option<Seq<char>>
    decreases tags.len() - i,
{
    if i < 0 || i >= tags.len() {
        None
    } else if tags[i].0 == key {
        Some(tags[i].1)
    } else {
        tag_value_from(tags, key, i + 1)
    }
}

/// First value stored under `key` in the tag list, if any.
pub open spec fn tag_value(tags: Seq<(Seq<char>, Seq<char>)>, key: Seq<char>) -> Option<
    Seq<char>,
> {
    tag_value_from(tags, key, 0)
}

/// Scanning forward over non-matching keys leaves the lookup unchanged.
proof fn lemma_tag_value_skip(
    tags: Seq<(Seq<char>, Seq<char>)>,
    key: Seq<char>,
    k: int,
    i: int,
)
    requires
        0 <= k <= i <= tags.len(),
        forall|j: int| k <= j < i ==> (#[trigger] tags[j]).0 != key,
    ensures
        tag_value_from(tags, key, k) == tag_value_from(tags, key, i),
    decreases i - k,
{
    if k < i {
        lemma_tag_value_skip(tags, key, k + 1, i);
    }
}

/// Whether `a` holds the same characters as `b`.
fn str_eq(a: &String, b: &str) -> (r: bool)
    ensures
        r == (a@ == b@),
{
    let owned = b.to_owned();
    *a == owned
}

/// Looks `key` up in the tag list, returning the first matching value.
pub fn find_tag<'a>(tags: &'a Vec<(String, String)>, key: &str) -> (r: Option<&'a String>)
    ensures
        match r {
            Some(v) => tag_value(tags.deep_view(), key@) == Some(v@),
            None => tag_value(tags.deep_view(), key@) is None,
        },
{
    let n = tags.len();
    let mut i: usize = 0;
    while i < n
        invariant
            n == tags@.len(),
            i <= n,
            forall|j: int| 0 <= j < i ==> (#[trigger] tags.deep_view()[j]).0 != key@,
        decreases n - i,
    {
        let pair = &tags[i];
        if str_eq(&pair.0, key) {
            proof {
                lemma_tag_value_skip(tags.deep_view(), key@, 0, i as int);
            }
            return Some(&pair.1);
        }
        i += 1;
    }
    proof {
        lemma_tag_value_skip(tags.deep_view(), key@, 0, n as int);
    }
    None
}

/// Whether the tag list stores any value under `key`.
pub fn has_tag(tags: &Vec<(String, String)>, key: &str) -> (r: bool)
    ensures
        r == (tag_value(tags.deep_view(), key@) is Some),
{
    match find_tag(tags, key) {
        Some(_) => true,
        None => false,
    }
}

/// Whether `v` occurs in the configured list.
pub open spec fn list_contains(list: Seq<Seq<char>>, v: Seq<char>) -> bool {
    exists|i: int| 0 <= i < list.len() && #[trigger] list[i] == v
}

/// Tests a tag value against a configured list of values.
pub fn list_contains_exec(list: &Vec<String>, v: &String) -> (r: bool)
    ensures
        r == list_contains(list.deep_view(), v@),
{
    let n = list.len();
    let mut i: usize = 0;
    while i < n
        invariant
            n == list@.len(),
            i <= n,
            forall|j: int| 0 <= j < i ==> #[trigger] list.deep_view()[j] != v@,
        decreases n - i,
    {
        let entry = &list[i];
        if *entry == *v {
            assert(list.deep_view()[i as int] == v@);
            return true;
        }
        i += 1;
    }
    false
}

/// Every character of s is a decimal digit.
pub open spec fn all_digits(s: Seq<char>) -> bool {
    forall|j: int| 0 <= j < s.len() ==> 48 <= (#[trigger] s[j]) as u32 <= 57
}

/// Value of the first i characters of s read as decimal digits.
pub open spec fn digits_value(s: Seq<char>, i: int) -> int
    decreases i,
{
    if i <= 0 {
        0
    } else {
        digits_value(s, i - 1) * 10 + (s[i - 1] as u32 - 48)
    }
}

/// The number a `building:levels` value denotes: its decimal reading, or 0
/// when it is empty or holds any non-digit character (malformed level tags
/// default to 0 rather than failing the run).
pub open spec fn parse_levels_spec(s: Seq<char>) -> int {
    if s.len() > 0 && all_digits(s) {
        digits_value(s, s.len() as int)
    } else {
        0
    }
}

/// A digit string never denotes a negative number.
proof fn lemma_digits_nonneg(s: Seq<char>, i: int)
    requires
        forall|j: int| 0 <= j < i ==> 48 <= (#[trigger] s[j]) as u32 <= 57,
        i <= s.len(),
    ensures
        digits_value(s, i) >= 0,
    decreases i,
{
    if i > 0 {
        lemma_digits_nonneg(s, i - 1);
    }
}

/// Reads a `building:levels` value as a decimal number, saturating at
/// `LEVELS_CAP`; anything non-numeric reads as 0.
pub fn parse_levels(v: &str) -> (r: u64)
    ensures
        r == vstd::math::min(parse_levels_spec(v@), LEVELS_CAP as int),
{
    let n = v.unicode_len();
    if n == 0 {
        return 0;
    }
    let mut acc: u64 = 0;
    let mut i: usize = 0;
    while i < n
        invariant
            n == v@.len(),
            0 < n,
            i <= n,
            forall|j: int| 0 <= j < i ==> 48 <= (#[trigger] v@[j]) as u32 <= 57,
            acc == vstd::math::min(digits_value(v@, i as int), LEVELS_CAP as int),
        decreases n - i,
    {
        let c = v.get_char(i);
        let x = c as u32;
        if x < 48 || x > 57 {
            assert(!all_digits(v@));
            return 0;
        }
        let d = (x - 48) as u64;
        proof {
            lemma_digits_nonneg(v@, i as int);
        }
        if acc >= LEVELS_CAP {
            acc = LEVELS_CAP;
        } else {
            acc = acc * 10 + d;
            if acc > LEVELS_CAP {
                acc = LEVELS_CAP;
            }
        }
        i += 1;
    }
    acc
}

} // verus!
