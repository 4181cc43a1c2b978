//! Version numbers: reading one from a release listing, and telling which of two is newer.

use crate::number;
use crate::number::{all_digits, is_larger, read_unsigned};
use crate::text;
use crate::text::{
    chars_of, find_char_in, find_in, is_after, part_after, part_before, split_at_char, string_of,
    without_prefix,
};
use vstd::prelude::*;
use vstd::slice::{slice_subrange, slice_to_vec};

verus! {

/// The text between the first two double quotes after the first `"tag_name"` of a listing.
pub open spec fn release_tag(json: Seq<char>) -> Result<Seq<char>, Seq<char>> {
    let key = "\"tag_name\""@;
    match text::find(json, key) {
        None => Err("tag_name not found in response"@),
        Some(at) => {
            let after_key = json.skip(at + key.len());
            match text::find_char(after_key, '"') {
                None => Err("Invalid JSON: missing quote after tag_name"@),
                Some(open) => {
                    let value = after_key.skip(open + 1);
                    match text::find_char(value, '"') {
                        None => Err("Invalid JSON: unclosed quote"@),
                        Some(close) => Ok(value.take(close)),
                    }
                },
            }
        },
    }
}

/// A tag without the letter `v` in front.
pub open spec fn version_of_tag(tag: Seq<char>) -> Seq<char> {
    match text::strip_prefix(tag, "v"@) {
        Some(rest) => rest,
        None => tag,
    }
}

/// The version that a release listing names.
pub open spec fn listed_version(json: Seq<char>) -> Result<Seq<char>, Seq<char>> {
    match release_tag(json) {
        Ok(tag) => Ok(version_of_tag(tag)),
        Err(error) => Err(error),
    }
}

/// Reads the version out of a release listing.
pub fn parse_version_from_json(json: &str) -> (r: Result<String, String>)
    ensures
        text::text_result(r) == listed_version(json@),
{
    let json = chars_of(json);
    let key = chars_of("\"tag_name\"");
    let at: usize = match find_in(&json, &key) {
        Some(at) => at,
        None => return Err("tag_name not found in response".to_owned()),
    };
    proof {
        text::lemma_found(json@, key@);
    }
    let json_len: usize = json.len();
    let after_key = slice_subrange(&json, at + key.len(), json_len);
    assert(after_key@ =~= json@.skip(at + key@.len()));
    let open: usize = match find_char_in(after_key, '"') {
        Some(open) => open,
        None => return Err("Invalid JSON: missing quote after tag_name".to_owned()),
    };
    let len: usize = after_key.len();
    let value = slice_subrange(after_key, open + 1, len);
    assert(value@ =~= after_key@.skip(open + 1));
    let close: usize = match find_char_in(value, '"') {
        Some(close) => close,
        None => return Err("Invalid JSON: unclosed quote".to_owned()),
    };
    let tag = slice_subrange(value, 0, close);
    assert(tag@ =~= value@.take(close as int));
    let version: &[char] = match without_prefix(tag, "v") {
        Some(rest) => rest,
        None => tag,
    };
    Ok(string_of(version))
}

/// One of the characters that identifiers are made of: ASCII letters, digits and hyphens.
pub open spec fn is_identifier_char(c: char) -> bool {
    '0' <= c <= '9' || 'A' <= c <= 'Z' || 'a' <= c <= 'z' || c == '-'
}

/// An identifier in the build of a semantic version.
pub open spec fn is_identifier(s: Seq<char>) -> bool {
    s.len() > 0 && forall|i: int| 0 <= i < s.len() ==> is_identifier_char(#[trigger] s[i])
}

/// The text does not start with a zero, unless it is one.
pub open spec fn no_leading_zero(s: Seq<char>) -> bool {
    s.len() > 1 ==> s.first() != '0'
}

/// Three dotted numbers, as every semantic version starts with them.
pub open spec fn is_core(s: Seq<char>) -> bool {
    let parts = text::split(s, '.');
    &&& parts.len() == 3
    &&& forall|i: int| 0 <= i < 3 ==> number::is_number(#[trigger] parts[i]) && no_leading_zero(parts[i])
}

/// The pre-release of a semantic version: dotted identifiers, with no zero in front of a number.
pub open spec fn is_pre_release(s: Seq<char>) -> bool {
    let parts = text::split(s, '.');
    forall|i: int|
        0 <= i < parts.len() ==> is_identifier(#[trigger] parts[i]) && (number::is_number(parts[i])
            ==> no_leading_zero(parts[i]))
}

/// The build of a semantic version: dotted identifiers.
pub open spec fn is_build(s: Seq<char>) -> bool {
    let parts = text::split(s, '.');
    forall|i: int| 0 <= i < parts.len() ==> is_identifier(#[trigger] parts[i])
}

/// A semantic version: three dotted numbers, perhaps a hyphen and a pre-release, and perhaps a
/// plus sign and a build.
pub open spec fn is_semantic(v: Seq<char>) -> bool {
    let release = text::before(v, '+');
    &&& is_core(text::before(release, '-'))
    &&& text::after(release, '-') matches Some(pre) ==> is_pre_release(pre)
    &&& text::after(v, '+') matches Some(build) ==> is_build(build)
}

/// What counts of a version: all of it but the build of a semantic version.
pub open spec fn without_build(v: Seq<char>) -> Seq<char> {
    if is_semantic(v) {
        text::before(v, '+')
    } else {
        v
    }
}

/// Major, minor and patch number of a version, which need not be a semantic one: two dotted
/// numbers make patch zero, what follows a hyphen in the third component and any further
/// components are passed over.
pub open spec fn version_numbers(v: Seq<char>) -> Option<(nat, nat, nat)> {
    let parts = text::split(without_build(v), '.');
    let max = u32::MAX as nat;
    if parts.len() >= 3 {
        match (
            number::parse_unsigned(parts[0], max),
            number::parse_unsigned(parts[1], max),
            number::parse_unsigned(text::before(parts[2], '-'), max),
        ) {
            (Some(major), Some(minor), Some(patch)) => Some((major, minor, patch)),
            _ => None,
        }
    } else if parts.len() == 2 {
        match (number::parse_unsigned(parts[0], max), number::parse_unsigned(parts[1], max)) {
            (Some(major), Some(minor)) => Some((major, minor, 0)),
            _ => None,
        }
    } else {
        None
    }
}

/// The pre-release that a semantic version names. Other versions name none.
pub open spec fn pre_release(v: Seq<char>) -> Option<Seq<char>> {
    if is_semantic(v) {
        text::after(text::before(v, '+'), '-')
    } else {
        None
    }
}

/// Numbers `a` come after numbers `b`: the first place where they differ decides.
pub open spec fn later_numbers(a: (nat, nat, nat), b: (nat, nat, nat)) -> bool {
    ||| a.0 > b.0
    ||| a.0 == b.0 && a.1 > b.1
    ||| a.0 == b.0 && a.1 == b.1 && a.2 > b.2
}

/// One identifier of a pre-release comes after another: numbers go by their value, other texts by
/// their characters, and these come after the numbers.
pub open spec fn later_identifier(a: Seq<char>, b: Seq<char>) -> bool {
    if number::is_number(a) {
        number::is_number(b) && number::number_value(a) > number::number_value(b)
    } else {
        number::is_number(b) || text::comes_after(a, b)
    }
}

/// Identifiers `a` come after identifiers `b`: the first place where one comes after the other
/// decides, and more come after fewer.
pub open spec fn later_identifiers(a: Seq<Seq<char>>, b: Seq<Seq<char>>) -> bool
    decreases a.len(),
{
    if a.len() == 0 {
        false
    } else if b.len() == 0 {
        true
    } else {
        ||| later_identifier(a.first(), b.first())
        ||| !later_identifier(b.first(), a.first()) && later_identifiers(a.drop_first(), b.drop_first())
    }
}

/// Of two versions with the same numbers, the one with pre-release `a` comes after the one with
/// pre-release `b`: a release comes after its pre-releases, and these go by their dotted
/// identifiers.
pub open spec fn later_pre_release(a: Option<Seq<char>>, b: Option<Seq<char>>) -> bool {
    match (a, b) {
        (None, Some(_)) => true,
        (Some(a), Some(b)) => later_identifiers(text::split(a, '.'), text::split(b, '.')),
        (_, None) => false,
    }
}

/// Version `latest` is newer than version `current` in the order of semantic versions, in which
/// other versions stand by their numbers alone. What has no numbers is not newer than anything,
/// and nothing is newer than it.
pub open spec fn newer(current: Seq<char>, latest: Seq<char>) -> bool {
    match (version_numbers(current), version_numbers(latest)) {
        (Some(c), Some(l)) => {
            ||| later_numbers(l, c)
            ||| l == c && later_pre_release(pre_release(latest), pre_release(current))
        },
        _ => false,
    }
}

fn read_u32(s: &[char]) -> (r: Option<u32>)
    ensures
        match r {
            Some(n) => number::parse_unsigned(s@, u32::MAX as nat) == Some(n as nat),
            None => number::parse_unsigned(s@, u32::MAX as nat) is None,
        },
{
    match read_unsigned(s, 0xffff_ffff) {
        Some(n) => Some(n as u32),
        None => None,
    }
}

fn identifier(s: &[char]) -> (r: bool)
    ensures
        r == is_identifier(s@),
{
    let n: usize = s.len();
    for i in 0..n
        invariant
            n == s@.len(),
            forall|j: int| 0 <= j < i ==> is_identifier_char(#[trigger] s@[j]),
    {
        let c = s[i];
        if !(('0' <= c && c <= '9') || ('A' <= c && c <= 'Z') || ('a' <= c && c <= 'z') || c == '-') {
            assert(!is_identifier_char(s@[i as int]));
            return false;
        }
    }
    n > 0
}

fn without_leading_zero(s: &[char]) -> (r: bool)
    ensures
        r == no_leading_zero(s@),
{
    s.len() <= 1 || s[0] != '0'
}

fn core_numbers(s: &[char]) -> (r: bool)
    ensures
        r == is_core(s@),
{
    let parts = split_at_char(s, '.');
    let n: usize = parts.len();
    let ghost spec_parts = text::split(s@, '.');
    assert(spec_parts.len() == n);
    if n != 3 {
        return false;
    }
    for i in 0..n
        invariant
            n == parts@.len() == 3,
            spec_parts == text::pieces(parts@),
            spec_parts == text::split(s@, '.'),
            forall|j: int|
                0 <= j < i ==> number::is_number(#[trigger] spec_parts[j]) && no_leading_zero(spec_parts[j]),
    {
        assert(spec_parts[i as int] == parts@[i as int]@);
        if !all_digits(&parts[i]) || !without_leading_zero(&parts[i]) {
            return false;
        }
    }
    true
}

fn pre_release_identifiers(s: &[char]) -> (r: bool)
    ensures
        r == is_pre_release(s@),
{
    let parts = split_at_char(s, '.');
    let n: usize = parts.len();
    let ghost spec_parts = text::split(s@, '.');
    assert(spec_parts.len() == n);
    for i in 0..n
        invariant
            n == parts@.len(),
            spec_parts == text::pieces(parts@),
            spec_parts == text::split(s@, '.'),
            forall|j: int|
                0 <= j < i ==> is_identifier(#[trigger] spec_parts[j]) && (number::is_number(spec_parts[j])
                    ==> no_leading_zero(spec_parts[j])),
    {
        assert(spec_parts[i as int] == parts@[i as int]@);
        if !identifier(&parts[i]) || all_digits(&parts[i]) && !without_leading_zero(&parts[i]) {
            return false;
        }
    }
    true
}

fn build_identifiers(s: &[char]) -> (r: bool)
    ensures
        r == is_build(s@),
{
    let parts = split_at_char(s, '.');
    let n: usize = parts.len();
    let ghost spec_parts = text::split(s@, '.');
    assert(spec_parts.len() == n);
    for i in 0..n
        invariant
            n == parts@.len(),
            spec_parts == text::pieces(parts@),
            spec_parts == text::split(s@, '.'),
            forall|j: int| 0 <= j < i ==> is_identifier(#[trigger] spec_parts[j]),
    {
        assert(spec_parts[i as int] == parts@[i as int]@);
        if !identifier(&parts[i]) {
            return false;
        }
    }
    true
}

/// Whether a text is a semantic version.
fn semantic(v: &[char]) -> (r: bool)
    ensures
        r == is_semantic(v@),
{
    let release = part_before(v, '+');
    let pre_release_fits = match part_after(release, '-') {
        Some(pre) => pre_release_identifiers(pre),
        None => true,
    };
    let build_fits = match part_after(v, '+') {
        Some(build) => build_identifiers(build),
        None => true,
    };
    core_numbers(part_before(release, '-')) && pre_release_fits && build_fits
}

/// A version as it was read.
struct Version {
    numbers: (u32, u32, u32),
    pre_release: Option<Vec<char>>,
}

impl Version {
    /// This is what the text `v` says.
    spec fn is_of(self, v: Seq<char>) -> bool {
        &&& version_numbers(v) == Some(
            (self.numbers.0 as nat, self.numbers.1 as nat, self.numbers.2 as nat),
        )
        &&& match self.pre_release {
            Some(text) => pre_release(v) == Some(text@),
            None => pre_release(v) is None,
        }
    }
}

fn read_version(v: &str) -> (r: Option<Version>)
    ensures
        match r {
            Some(version) => version.is_of(v@),
            None => version_numbers(v@) is None,
        },
{
    let v = chars_of(v);
    let is_semantic_version: bool = semantic(&v);
    let counted: &[char] = if is_semantic_version {
        part_before(&v, '+')
    } else {
        &v
    };
    let parts = split_at_char(counted, '.');
    let ghost spec_parts = text::split(without_build(v@), '.');
    assert(spec_parts.len() == parts@.len());
    assert(forall|i: int| 0 <= i < parts@.len() ==> spec_parts[i] == parts@[i]@);
    if parts.len() < 2 {
        return None;
    }
    let major: u32 = match read_u32(&parts[0]) {
        Some(n) => n,
        None => return None,
    };
    let minor: u32 = match read_u32(&parts[1]) {
        Some(n) => n,
        None => return None,
    };
    let patch: u32 = if parts.len() == 2 {
        0
    } else {
        match read_u32(part_before(&parts[2], '-')) {
            Some(n) => n,
            None => return None,
        }
    };
    let pre_release: Option<Vec<char>> = if is_semantic_version {
        match part_after(counted, '-') {
            Some(pre) => Some(slice_to_vec(pre)),
            None => None,
        }
    } else {
        None
    };
    Some(Version { numbers: (major, minor, patch), pre_release })
}

fn identifier_is_later(a: &[char], b: &[char]) -> (r: bool)
    ensures
        r == later_identifier(a@, b@),
{
    if all_digits(a) {
        all_digits(b) && is_larger(a, b)
    } else {
        all_digits(b) || is_after(a, b)
    }
}

fn identifiers_are_later(a: &Vec<Vec<char>>, b: &Vec<Vec<char>>) -> (r: bool)
    ensures
        r == later_identifiers(text::pieces(a@), text::pieces(b@)),
{
    let ghost all_a = text::pieces(a@);
    let ghost all_b = text::pieces(b@);
    let mut i: usize = 0;
    assert(all_a.skip(0) =~= all_a && all_b.skip(0) =~= all_b);
    while i < a.len() && i < b.len()
        invariant
            i <= a@.len(),
            i <= b@.len(),
            all_a == text::pieces(a@),
            all_b == text::pieces(b@),
            later_identifiers(all_a.skip(i as int), all_b.skip(i as int)) == later_identifiers(all_a, all_b),
        decreases a@.len() - i,
    {
        assert(all_a.skip(i as int).drop_first() =~= all_a.skip(i + 1));
        assert(all_b.skip(i as int).drop_first() =~= all_b.skip(i + 1));
        if identifier_is_later(&a[i], &b[i]) {
            return true;
        }
        if identifier_is_later(&b[i], &a[i]) {
            return false;
        }
        i = i + 1;
    }
    i < a.len()
}

/// Whether version `latest` is newer than version `current`.
pub fn is_newer_version(current: &str, latest: &str) -> (r: bool)
    ensures
        r == newer(current@, latest@),
        forall|x: nat, y: nat, z: nat, x2: nat, y2: nat, z2: nat|
            #![trigger dotted(x, y, z), dotted(x2, y2, z2)]
            current@ == dotted(x, y, z) && latest@ == dotted(x2, y2, z2) && x <= u32::MAX && y <= u32::MAX && z
                <= u32::MAX && x2 <= u32::MAX && y2 <= u32::MAX && z2 <= u32::MAX ==> (r <==> x2 > x || x2 == x && (y2
                > y || y2 == y && z2 > z)),
{
    proof {
        assert forall|x: nat, y: nat, z: nat, x2: nat, y2: nat, z2: nat|
            #![trigger dotted(x, y, z), dotted(x2, y2, z2)]
            current@ == dotted(x, y, z) && latest@ == dotted(x2, y2, z2) && x <= u32::MAX && y <= u32::MAX && z
                <= u32::MAX && x2 <= u32::MAX && y2 <= u32::MAX && z2 <= u32::MAX implies (newer(current@, latest@)
            <==> x2 > x || x2 == x && (y2 > y || y2 == y && z2 > z)) by {
            law_versions_go_by_their_numbers(x, y, z, Seq::empty(), x2, y2, z2, Seq::empty());
        }
    }
    match (read_version(current), read_version(latest)) {
        (Some(current), Some(latest)) => {
            let c = current.numbers;
            let l = latest.numbers;
            if l.0 != c.0 {
                l.0 > c.0
            } else if l.1 != c.1 {
                l.1 > c.1
            } else if l.2 != c.2 {
                l.2 > c.2
            } else {
                match (latest.pre_release, current.pre_release) {
                    (None, Some(_)) => true,
                    (Some(a), Some(b)) => identifiers_are_later(
                        &split_at_char(&a, '.'),
                        &split_at_char(&b, '.'),
                    ),
                    (_, None) => false,
                }
            }
        },
        _ => false,
    }
}

proof fn lemma_identifier_one_way(a: Seq<char>, b: Seq<char>)
    ensures
        !(later_identifier(a, b) && later_identifier(b, a)),
{
    text::lemma_after_one_way(a, b);
}

proof fn lemma_identifier_between(a: Seq<char>, b: Seq<char>, c: Seq<char>)
    ensures
        later_identifier(a, c) ==> later_identifier(a, b) || later_identifier(b, c),
{
    if text::comes_after(a, c) {
        text::lemma_after_between(a, b, c);
    }
}

proof fn lemma_identifiers_one_way(a: Seq<Seq<char>>, b: Seq<Seq<char>>)
    ensures
        !(later_identifiers(a, b) && later_identifiers(b, a)),
    decreases a.len(),
{
    if a.len() > 0 && b.len() > 0 {
        lemma_identifier_one_way(a.first(), b.first());
        lemma_identifiers_one_way(a.drop_first(), b.drop_first());
    }
}

proof fn lemma_identifiers_between(a: Seq<Seq<char>>, b: Seq<Seq<char>>, c: Seq<Seq<char>>)
    requires
        later_identifiers(a, c),
    ensures
        later_identifiers(a, b) || later_identifiers(b, c),
    decreases a.len(),
{
    if a.len() > 0 && b.len() > 0 && c.len() > 0 {
        let (x, y, z) = (a.first(), b.first(), c.first());
        lemma_identifier_between(x, y, z);
        lemma_identifier_between(y, z, x);
        lemma_identifier_between(z, x, y);
        if !later_identifier(x, z) {
            lemma_identifiers_between(a.drop_first(), b.drop_first(), c.drop_first());
        }
    }
}

proof fn lemma_pre_release_one_way(a: Option<Seq<char>>, b: Option<Seq<char>>)
    ensures
        !(later_pre_release(a, b) && later_pre_release(b, a)),
{
    if let (Some(a), Some(b)) = (a, b) {
        lemma_identifiers_one_way(text::split(a, '.'), text::split(b, '.'));
    }
}

proof fn lemma_pre_release_chains(a: Option<Seq<char>>, b: Option<Seq<char>>, c: Option<Seq<char>>)
    requires
        later_pre_release(a, b),
        later_pre_release(b, c),
    ensures
        later_pre_release(a, c),
{
    if let (Some(a), Some(b), Some(c)) = (a, b, c) {
        let (a, b, c) = (text::split(a, '.'), text::split(b, '.'), text::split(c, '.'));
        lemma_identifiers_between(a, c, b);
        lemma_identifiers_one_way(b, c);
    }
}

/// No version is newer than itself.
pub proof fn law_not_newer_than_itself(v: Seq<char>)
    ensures
        !newer(v, v),
{
    lemma_pre_release_one_way(pre_release(v), pre_release(v));
}

/// Of two versions at most one is newer than the other.
pub proof fn law_newer_one_way(a: Seq<char>, b: Seq<char>)
    requires
        newer(a, b),
    ensures
        !newer(b, a),
{
    lemma_pre_release_one_way(pre_release(a), pre_release(b));
}

/// A version newer than a newer one is newer.
pub proof fn law_newer_chains(a: Seq<char>, b: Seq<char>, c: Seq<char>)
    requires
        newer(a, b),
        newer(b, c),
    ensures
        newer(a, c),
{
    if version_numbers(a) == version_numbers(b) && version_numbers(b) == version_numbers(c) {
        lemma_pre_release_chains(pre_release(c), pre_release(b), pre_release(a));
    }
}

/// A release is newer than each pre-release with the same numbers, and none of these is newer
/// than it.
pub proof fn law_release_is_newer_than_pre_release(current: Seq<char>, latest: Seq<char>)
    requires
        version_numbers(current) is Some,
        version_numbers(latest) == version_numbers(current),
        pre_release(current) is Some,
        pre_release(latest) is None,
    ensures
        newer(current, latest),
        !newer(latest, current),
{
}

/// The pieces of a version between dots are those of what it starts with, up to a hyphen or a plus
/// sign, and of the rest.
proof fn lemma_core_pieces(v: Seq<char>)
    ensures
        ({
            let core = text::before(text::before(v, '+'), '-');
            let rest = v.skip(core.len() as int);
            &&& core.len() <= v.len()
            &&& v == core + rest
            &&& text::split(core, '.').len() >= 1
            &&& text::split(rest, '.').len() >= 1
            &&& text::split(v, '.') == text::split(core, '.').drop_last() + seq![
                text::split(core, '.').last() + text::split(rest, '.')[0],
            ] + text::split(rest, '.').drop_first()
        }),
{
    let release = text::before(v, '+');
    let core = text::before(release, '-');
    let rest = v.skip(core.len() as int);
    text::lemma_find_char(v, '+');
    text::lemma_find_char(release, '-');
    assert(v =~= core + rest);
    text::lemma_split_join(core, '.', rest);
}

/// Two dotted numbers stand for the version with patch zero.
pub proof fn law_missing_patch_is_zero(v: Seq<char>)
    requires
        text::split(v, '.').len() == 2,
    ensures
        version_numbers(v + ".0"@) == version_numbers(v),
        pre_release(v + ".0"@) == pre_release(v),
{
    reveal_strlit(".0");
    let zero = seq!['0'];
    let none = Seq::<char>::empty();
    let whole = v + ".0"@;
    let parts = text::split(v, '.');
    text::lemma_split_none(none, '.');
    text::lemma_split_none(zero, '.');
    text::lemma_split_first(none, '.', zero);
    assert(none + seq!['.'] + zero =~= ".0"@);
    assert(text::split(".0"@, '.') =~= seq![none, zero]);
    text::lemma_split_join(v, '.', ".0"@);
    assert(parts.last() + none =~= parts.last());
    assert(text::split(whole, '.') =~= seq![parts[0], parts[1], zero]);
    text::lemma_find_char(zero, '-');
    assert(number::parse_unsigned(zero, u32::MAX as nat) == Some(0nat)) by {
        number::law_decimal_reads_back(0, u32::MAX as nat);
        assert(number::decimal(0) =~= zero);
    }
    lemma_core_pieces(v);
    assert(!is_semantic(v));
    if is_semantic(whole) {
        lemma_core_pieces(whole);
        let core = text::before(text::before(whole, '+'), '-');
        let rest = whole.skip(core.len() as int);
        let last = text::split(core, '.')[2];
        assert(text::split(rest, '.').len() == 1);
        assert(last + text::split(rest, '.')[0] == zero);
        assert(last.len() > 0);
        text::lemma_split_one(rest, '.');
        assert(core =~= whole);
        text::lemma_find_char(whole, '+');
        text::lemma_find_char(text::before(whole, '+'), '-');
    }
}

/// Behind a hyphen, what can be a pre-release makes a release its pre-release, and the release is
/// the newer one.
pub proof fn law_suffix_names_a_pre_release(v: Seq<char>, suffix: Seq<char>)
    requires
        is_semantic(v),
        version_numbers(v) is Some,
        !v.contains('-'),
        !v.contains('+'),
        is_pre_release(suffix),
    ensures
        is_semantic(v + "-"@ + suffix),
        version_numbers(v + "-"@ + suffix) == version_numbers(v),
        pre_release(v + "-"@ + suffix) == Some(suffix),
        newer(v + "-"@ + suffix, v),
        !newer(v, v + "-"@ + suffix),
{
    reveal_strlit("-");
    assert("-"@ =~= seq!['-']);
    let whole = v + "-"@ + suffix;
    let tail = seq!['-'] + suffix;
    assert(whole =~= v + tail);
    assert(!suffix.contains('+')) by {
        let pieces = text::split(suffix, '.');
        assert forall|i: int| 0 <= i < pieces.len() implies !(#[trigger] pieces[i]).contains('+') by {
            assert(is_identifier(pieces[i]));
        }
        text::lemma_split_without(suffix, '.', '+');
    }
    assert(!whole.contains('+'));
    text::lemma_find_char(whole, '+');
    text::lemma_find_char(v, '+');
    text::lemma_find_after(v, '-', suffix);
    assert(whole.take(v.len() as int) =~= v);
    assert(whole.skip(v.len() as int + 1) =~= suffix);
    let parts = text::split(v, '.');
    text::lemma_split_join(v, '.', tail);
    text::lemma_split_head(tail, '.');
    let head = text::split(tail, '.')[0];
    let third = text::split(whole, '.')[2];
    assert(third == parts[2] + head);
    assert(head =~= seq!['-'] + head.drop_first());
    assert(third =~= parts[2] + seq!['-'] + head.drop_first());
    assert(!parts[2].contains('-')) by {
        assert(number::is_number(parts[2]));
    }
    text::lemma_find_after(parts[2], '-', head.drop_first());
    assert(third.take(parts[2].len() as int) =~= parts[2]);
}

/// The build behind a plus sign does not count: with it and without it a version is newer than the
/// same versions, and the same versions are newer than it.
pub proof fn law_build_does_not_count(v: Seq<char>, build: Seq<char>, other: Seq<char>)
    requires
        is_semantic(v),
        !v.contains('+'),
        is_build(build),
    ensures
        is_semantic(v + "+"@ + build),
        newer(v + "+"@ + build, other) == newer(v, other),
        newer(other, v + "+"@ + build) == newer(other, v),
{
    reveal_strlit("+");
    assert("+"@ =~= seq!['+']);
    let whole = v + "+"@ + build;
    text::lemma_find_after(v, '+', build);
    text::lemma_find_char(v, '+');
    assert(whole.take(v.len() as int) =~= v);
    assert(whole.skip(v.len() as int + 1) =~= build);
}

/// However a listing is laid out around it, the tag after its first `"tag_name"` is the version,
/// less a `v` in front.
pub proof fn law_listing_names_its_tag(
    before: Seq<char>,
    between: Seq<char>,
    tag: Seq<char>,
    after: Seq<char>,
)
    requires
        text::first_at(
            before + "\"tag_name\""@ + between + seq!['"'] + tag + seq!['"'] + after,
            "\"tag_name\""@,
            before.len() as int,
        ),
        !between.contains('"'),
        !tag.contains('"'),
    ensures
        listed_version(before + "\"tag_name\""@ + between + seq!['"'] + tag + seq!['"'] + after) == Ok::<
            Seq<char>,
            Seq<char>,
        >(version_of_tag(tag)),
{
    let key = "\"tag_name\""@;
    let json = before + key + between + seq!['"'] + tag + seq!['"'] + after;
    text::lemma_find(json, key, before.len() as int);
    let after_key = json.skip((before.len() + key.len()) as int);
    assert(after_key =~= between + seq!['"'] + (tag + seq!['"'] + after));
    text::lemma_find_after(between, '"', tag + seq!['"'] + after);
    let value = after_key.skip(between.len() as int + 1);
    assert(value =~= tag + seq!['"'] + after);
    text::lemma_find_after(tag, '"', after);
    assert(value.take(tag.len() as int) =~= tag);
}

/// A listing that holds nothing but the tag of a version gives that version.
pub proof fn law_bare_listing_gives_its_version(v: Seq<char>)
    requires
        !v.contains('"'),
    ensures
        listed_version("{\"tag_name\": \"v"@ + v + "\"}"@) == Ok::<Seq<char>, Seq<char>>(v),
{
    reveal_strlit("{\"tag_name\": \"v");
    reveal_strlit("\"tag_name\"");
    reveal_strlit("\"}");
    reveal_strlit("v");
    let key = "\"tag_name\""@;
    let before = seq!['{'];
    let between = seq![':', ' '];
    let tag = "v"@ + v;
    let after = seq!['}'];
    let json = before + key + between + seq!['"'] + tag + seq!['"'] + after;
    assert("{\"tag_name\": \"v"@ + v + "\"}"@ =~= json);
    assert(json.subrange(1, 1 + key.len() as int) =~= key);
    assert(!text::occurs_at(json, key, 0)) by {
        assert(json.subrange(0, key.len() as int)[0] != key[0]);
    }
    assert forall|i: int| 0 <= i < tag.len() implies tag[i] != '"' by {
        if i > 0 {
            assert(v.contains(v[i - 1]));
        }
    }
    law_listing_names_its_tag(before, between, tag, after);
    assert(tag.subrange(0, 1) =~= "v"@);
    assert(tag.skip(1) =~= v);
}

/// Three numbers in decimal notation with dots between them.
pub open spec fn dotted(x: nat, y: nat, z: nat) -> Seq<char> {
    number::decimal(x) + seq!['.'] + number::decimal(y) + seq!['.'] + number::decimal(z)
}

/// Nothing but digits.
proof fn lemma_decimal_plain(n: nat)
    ensures
        number::is_number(number::decimal(n)),
        no_leading_zero(number::decimal(n)),
        number::number_value(number::decimal(n)) == n,
        !number::decimal(n).contains('.'),
        !number::decimal(n).contains('-'),
        !number::decimal(n).contains('+'),
        is_identifier(number::decimal(n)),
{
    number::law_decimal_digits(n);
    number::law_decimal_reads_back(n, n);
    assert(number::decimal(n)[0] != '+');
    let d = number::decimal(n);
    assert forall|i: int| 0 <= i < d.len() implies is_identifier_char(#[trigger] d[i]) by {
        assert('0' <= number::decimal(n)[i] <= '9');
    }
}

proof fn lemma_dotted(x: nat, y: nat, z: nat)
    ensures
        text::split(dotted(x, y, z), '.') == seq![number::decimal(x), number::decimal(y), number::decimal(z)],
        !dotted(x, y, z).contains('-'),
        !dotted(x, y, z).contains('+'),
        is_core(dotted(x, y, z)),
        is_semantic(dotted(x, y, z)),
{
    let (a, b, c) = (number::decimal(x), number::decimal(y), number::decimal(z));
    let v = dotted(x, y, z);
    lemma_decimal_plain(x);
    lemma_decimal_plain(y);
    lemma_decimal_plain(z);
    assert(v =~= a + seq!['.'] + (b + seq!['.'] + c));
    text::lemma_split_first(a, '.', b + seq!['.'] + c);
    text::lemma_split_first(b, '.', c);
    text::lemma_split_none(c, '.');
    assert(text::split(v, '.') =~= seq![a, b, c]);
    let pieces = text::split(v, '.');
    assert forall|i: int| 0 <= i < pieces.len() implies !(#[trigger] pieces[i]).contains('-')
        && !pieces[i].contains('+') by {}
    text::lemma_split_without(v, '.', '-');
    text::lemma_split_without(v, '.', '+');
    text::lemma_find_char(v, '-');
    text::lemma_find_char(v, '+');
}

/// The three numbers that a version starts with, and no sign among them.
proof fn lemma_three_numbers(a: Seq<char>, b: Seq<char>, c: Seq<char>)
    requires
        number::is_number(a),
        number::is_number(b),
        number::is_number(c),
    ensures
        text::split(a + seq!['.'] + b + seq!['.'] + c, '.') == seq![a, b, c],
        !(a + seq!['.'] + b + seq!['.'] + c).contains('+'),
        !(a + seq!['.'] + b + seq!['.'] + c).contains('-'),
{
    let core = a + seq!['.'] + b + seq!['.'] + c;
    lemma_no_signs(a);
    lemma_no_signs(b);
    lemma_no_signs(c);
    assert(core =~= a + seq!['.'] + (b + seq!['.'] + c));
    text::lemma_split_first(a, '.', b + seq!['.'] + c);
    text::lemma_split_first(b, '.', c);
    text::lemma_split_none(c, '.');
    assert(text::split(core, '.') =~= seq![a, b, c]);
}

/// A hyphen or a dot behind three numbers ends the third.
proof fn lemma_third_number(core: Seq<char>, a: Seq<char>, b: Seq<char>, c: Seq<char>, tail: Seq<char>)
    requires
        text::split(core, '.') == seq![a, b, c],
        !c.contains('-'),
        tail.len() == 0 || tail[0] == '-' || tail[0] == '.',
    ensures
        text::split(core + tail, '.').len() >= 3,
        text::split(core + tail, '.')[0] == a,
        text::split(core + tail, '.')[1] == b,
        text::before(text::split(core + tail, '.')[2], '-') == c,
        tail.len() > 0 && tail[0] == '.' ==> text::split(core + tail, '.').len() > 3,
{
    let none = Seq::<char>::empty();
    text::lemma_split_join(core, '.', tail);
    text::lemma_find_char(c, '-');
    let parts = text::split(core + tail, '.');
    if tail.len() == 0 {
        assert(core + tail =~= core);
    } else if tail[0] == '-' {
        text::lemma_split_head(tail, '.');
        let head = text::split(tail, '.')[0];
        assert(parts[2] == c + head);
        assert(head =~= seq!['-'] + head.drop_first());
        assert(c + head =~= c + seq!['-'] + head.drop_first());
        text::law_sides_of_a_char(c, '-', head.drop_first());
    } else {
        assert(tail =~= none + seq!['.'] + tail.skip(1));
        text::lemma_split_first(none, '.', tail.skip(1));
        text::lemma_split_nonempty(tail.skip(1), '.');
        assert(parts[2] == c + none);
        assert(c + none =~= c);
    }
}

/// What precedes a sign holds all of a text without that sign, and one character more where
/// another one follows.
proof fn lemma_before_sign(core: Seq<char>, s: Seq<char>, sign: char)
    requires
        !core.contains(sign),
        s.len() > 0 ==> s[0] != sign,
    ensures
        core.len() <= text::before(core + s, sign).len() <= core.len() + s.len(),
        s.len() > 0 ==> text::before(core + s, sign).len() > core.len(),
        text::before(core + s, sign) == core + text::before(core + s, sign).skip(core.len() as int),
        text::before(core + s, sign).len() > core.len() ==> text::before(core + s, sign).skip(
            core.len() as int,
        )[0] == s[0],
{
    let v = core + s;
    text::lemma_find_char(v, sign);
    if let Some(at) = text::find_char(v, sign) {
        if at < core.len() {
            assert(core.contains(core[at]));
        }
    }
    let front = text::before(v, sign);
    assert(front =~= core + front.skip(core.len() as int));
}

/// What follows a hyphen or a further dot behind three numbers leaves the numbers as they are.
proof fn lemma_numbers_read(a: Seq<char>, b: Seq<char>, c: Seq<char>, s: Seq<char>)
    requires
        number::is_number(a) && number::number_value(a) <= u32::MAX,
        number::is_number(b) && number::number_value(b) <= u32::MAX,
        number::is_number(c) && number::number_value(c) <= u32::MAX,
        s.len() == 0 || s[0] == '-' || s[0] == '.',
    ensures
        version_numbers(a + seq!['.'] + b + seq!['.'] + c + s) == Some(
            (number::number_value(a), number::number_value(b), number::number_value(c)),
        ),
        s.len() > 0 && s[0] == '.' ==> !is_semantic(a + seq!['.'] + b + seq!['.'] + c + s),
{
    let core = a + seq!['.'] + b + seq!['.'] + c;
    let v = core + s;
    lemma_three_numbers(a, b, c);
    lemma_no_signs(a);
    lemma_no_signs(b);
    lemma_no_signs(c);
    lemma_before_sign(core, s, '+');
    let release = text::before(v, '+');
    let more = release.skip(core.len() as int);
    lemma_third_number(core, a, b, c, s);
    lemma_third_number(core, a, b, c, more);
    if s.len() > 0 && s[0] == '.' {
        lemma_before_sign(core, more, '-');
        let front = text::before(release, '-');
        lemma_third_number(core, a, b, c, front.skip(core.len() as int));
    }
}

proof fn lemma_no_signs(s: Seq<char>)
    requires
        number::is_number(s),
    ensures
        !s.contains('.'),
        !s.contains('-'),
        !s.contains('+'),
        s[0] != '+',
{
    assert(number::is_digit(s[0]));
    assert forall|i: int| 0 <= i < s.len() implies s[i] != '.' && s[i] != '-' && s[i] != '+' by {
        assert(number::is_digit(s[i]));
    }
}

proof fn lemma_dotted_numbers(x: nat, y: nat, z: nat, s: Seq<char>)
    requires
        x <= u32::MAX,
        y <= u32::MAX,
        z <= u32::MAX,
        s.len() == 0 || s[0] == '-' || s[0] == '.',
    ensures
        version_numbers(dotted(x, y, z) + s) == Some((x, y, z)),
{
    lemma_decimal_plain(x);
    lemma_decimal_plain(y);
    lemma_decimal_plain(z);
    lemma_numbers_read(number::decimal(x), number::decimal(y), number::decimal(z), s);
}

/// Zeros in front of a number make no difference, and neither do further components.
pub proof fn law_zeros_and_further_components(
    a: Seq<char>,
    b: Seq<char>,
    c: Seq<char>,
    s: Seq<char>,
    x: nat,
    y: nat,
    z: nat,
    other: Seq<char>,
)
    requires
        x <= u32::MAX && y <= u32::MAX && z <= u32::MAX,
        number::parse_unsigned(a, u32::MAX as nat) == Some(x) && a[0] != '+',
        number::parse_unsigned(b, u32::MAX as nat) == Some(y) && b[0] != '+',
        number::parse_unsigned(c, u32::MAX as nat) == Some(z) && c[0] != '+',
        s.len() == 0 || s[0] == '.',
    ensures
        newer(a + seq!['.'] + b + seq!['.'] + c + s, other) == newer(dotted(x, y, z), other),
        newer(other, a + seq!['.'] + b + seq!['.'] + c + s) == newer(other, dotted(x, y, z)),
{
    let none = Seq::<char>::empty();
    let v = a + seq!['.'] + b + seq!['.'] + c + s;
    lemma_numbers_read(a, b, c, s);
    lemma_dotted_numbers(x, y, z, none);
    assert(dotted(x, y, z) + none =~= dotted(x, y, z));
    lemma_dotted(x, y, z);
    text::lemma_find_char(dotted(x, y, z), '+');
    text::lemma_find_char(dotted(x, y, z), '-');
    if s.len() == 0 {
        lemma_no_signs(a);
        lemma_no_signs(b);
        lemma_no_signs(c);
        assert(!v.contains('+') && !v.contains('-'));
        text::lemma_find_char(v, '+');
        text::lemma_find_char(v, '-');
    }
}

/// Versions go by their numbers: of two that differ in them the one with the greater major number
/// is newer, with equal ones the one with the greater minor number, and with equal ones again the
/// one with the greater patch number, whatever follows a hyphen or a further dot behind them. The same numbers with
/// nothing behind them are not newer than themselves.
pub proof fn law_versions_go_by_their_numbers(
    x: nat,
    y: nat,
    z: nat,
    s: Seq<char>,
    x2: nat,
    y2: nat,
    z2: nat,
    t: Seq<char>,
)
    requires
        x <= u32::MAX && y <= u32::MAX && z <= u32::MAX,
        x2 <= u32::MAX && y2 <= u32::MAX && z2 <= u32::MAX,
        s.len() == 0 || s[0] == '-' || s[0] == '.',
        t.len() == 0 || t[0] == '-' || t[0] == '.',
    ensures
        x2 > x ==> newer(dotted(x, y, z) + s, dotted(x2, y2, z2) + t),
        x2 < x ==> !newer(dotted(x, y, z) + s, dotted(x2, y2, z2) + t),
        x2 == x && y2 > y ==> newer(dotted(x, y, z) + s, dotted(x2, y2, z2) + t),
        x2 == x && y2 < y ==> !newer(dotted(x, y, z) + s, dotted(x2, y2, z2) + t),
        x2 == x && y2 == y && z2 > z ==> newer(dotted(x, y, z) + s, dotted(x2, y2, z2) + t),
        x2 == x && y2 == y && z2 < z ==> !newer(dotted(x, y, z) + s, dotted(x2, y2, z2) + t),
        newer(dotted(x, y, z), dotted(x2, y2, z2)) <==> x2 > x || x2 == x && (y2 > y || y2 == y && z2 > z),
{
    lemma_dotted_numbers(x, y, z, s);
    lemma_dotted_numbers(x2, y2, z2, t);
    let none = Seq::<char>::empty();
    lemma_dotted_numbers(x, y, z, none);
    lemma_dotted_numbers(x2, y2, z2, none);
    assert(dotted(x, y, z) + none =~= dotted(x, y, z));
    assert(dotted(x2, y2, z2) + none =~= dotted(x2, y2, z2));
    lemma_dotted(x, y, z);
    lemma_dotted(x2, y2, z2);
    text::lemma_find_char(dotted(x, y, z), '+');
    text::lemma_find_char(dotted(x, y, z), '-');
    text::lemma_find_char(dotted(x2, y2, z2), '+');
    text::lemma_find_char(dotted(x2, y2, z2), '-');
}

/// Two numbers stand for the version with a third number that is zero.
pub proof fn law_two_numbers_are_enough(x: nat, y: nat, x2: nat, y2: nat, z2: nat)
    requires
        x <= u32::MAX && y <= u32::MAX,
        x2 <= u32::MAX && y2 <= u32::MAX && z2 <= u32::MAX,
    ensures
        newer(number::decimal(x) + seq!['.'] + number::decimal(y), dotted(x2, y2, z2)) <==> x2 > x || x2 == x && (
        y2 > y || y2 == y && z2 > 0),
        newer(dotted(x2, y2, z2), number::decimal(x) + seq!['.'] + number::decimal(y)) <==> x > x2 || x == x2
            && y > y2,
{
    let (a, b) = (number::decimal(x), number::decimal(y));
    let two = a + seq!['.'] + b;
    lemma_decimal_plain(x);
    lemma_decimal_plain(y);
    text::lemma_split_first(a, '.', b);
    text::lemma_split_none(b, '.');
    assert(text::split(two, '.') =~= seq![a, b]);
    law_missing_patch_is_zero(two);
    reveal_strlit(".0");
    number::law_decimal_digits(0);
    assert(two + ".0"@ =~= dotted(x, y, 0));
    law_versions_go_by_their_numbers(x, y, 0, Seq::empty(), x2, y2, z2, Seq::empty());
    law_versions_go_by_their_numbers(x2, y2, z2, Seq::empty(), x, y, 0, Seq::empty());
}

/// Text that can be a pre-release whatever stands around it: letters, digits and hyphens with
/// single dots between them, and no zero where a dot or nothing precedes it.
pub open spec fn is_plain_suffix(s: Seq<char>) -> bool {
    &&& s.len() > 0
    &&& s[s.len() - 1] != '.'
    &&& forall|i: int|
        0 <= i < s.len() ==> {
            let c = #[trigger] s[i];
            &&& 'a' <= c <= 'z' || 'A' <= c <= 'Z' || '0' <= c <= '9' || c == '-' || c == '.'
            &&& i == 0 || s[i - 1] == '.' ==> c != '.' && c != '0'
        }
}

proof fn lemma_plain_suffix(s: Seq<char>)
    requires
        is_plain_suffix(s),
    ensures
        is_pre_release(s),
        is_build(s),
        !s.contains('+'),
    decreases s.len(),
{
    text::lemma_find_char(s, '.');
    let pieces = text::split(s, '.');
    match text::find_char(s, '.') {
        Some(at) => {
            let head = s.take(at);
            let rest = s.skip(at + 1);
            assert(s[0] != '.');
            assert forall|i: int| 0 <= i < rest.len() implies {
                let c = #[trigger] rest[i];
                &&& 'a' <= c <= 'z' || 'A' <= c <= 'Z' || '0' <= c <= '9' || c == '-' || c == '.'
                &&& i == 0 || rest[i - 1] == '.' ==> c != '.' && c != '0'
            } by {
                assert(rest[i] == s[at + 1 + i]);
                if i > 0 {
                    assert(rest[i - 1] == s[at + i]);
                }
            }
            lemma_plain_suffix(rest);
            assert forall|i: int| 0 <= i < head.len() implies is_identifier_char(#[trigger] head[i]) by {
                assert(s[i] != '.');
            }
            assert forall|i: int| 0 <= i < pieces.len() implies is_identifier(#[trigger] pieces[i]) && (
            number::is_number(pieces[i]) ==> no_leading_zero(pieces[i])) by {
                if i > 0 {
                    assert(pieces[i] == text::split(rest, '.')[i - 1]);
                }
            }
        },
        None => {
            assert forall|i: int| 0 <= i < s.len() implies is_identifier_char(#[trigger] s[i]) by {
                assert(s.contains(s[i]));
            }
        },
    }
}

/// A release is newer than everything that a pre-release can be named behind it, and with a build
/// behind a plus sign it stands where it stood.
pub proof fn law_pre_release_precedes_release(x: nat, y: nat, z: nat, pre: Seq<char>, build: Seq<char>)
    requires
        x <= u32::MAX && y <= u32::MAX && z <= u32::MAX,
        is_plain_suffix(pre),
        is_plain_suffix(build),
    ensures
        newer(dotted(x, y, z) + seq!['-'] + pre, dotted(x, y, z)),
        !newer(dotted(x, y, z), dotted(x, y, z) + seq!['-'] + pre),
        newer(dotted(x, y, z) + seq!['-'] + pre, dotted(x, y, z) + seq!['+'] + build),
        newer(dotted(x, y, z) + seq!['-'] + pre + seq!['+'] + build, dotted(x, y, z)),
        !newer(dotted(x, y, z) + seq!['+'] + build, dotted(x, y, z)),
        !newer(dotted(x, y, z), dotted(x, y, z) + seq!['+'] + build),
{
    let v = dotted(x, y, z);
    lemma_plain_suffix(pre);
    lemma_plain_suffix(build);
    lemma_dotted(x, y, z);
    lemma_dotted_numbers(x, y, z, Seq::empty());
    assert(v + Seq::<char>::empty() =~= v);
    reveal_strlit("-");
    reveal_strlit("+");
    assert("-"@ =~= seq!['-'] && "+"@ =~= seq!['+']);
    law_suffix_names_a_pre_release(v, pre);
    let named = v + seq!['-'] + pre;
    assert(!named.contains('+'));
    law_build_does_not_count(v, build, named);
    law_build_does_not_count(v, build, v);
    law_build_does_not_count(named, build, v);
    law_not_newer_than_itself(v);
}

/// What stands behind a hyphen counts for nothing where it holds a character that no semantic
/// version has.
pub proof fn law_odd_suffix_does_not_count(x: nat, y: nat, z: nat, s: Seq<char>, i: int)
    requires
        x <= u32::MAX && y <= u32::MAX && z <= u32::MAX,
        0 <= i < s.len(),
        !('a' <= s[i] <= 'z' || 'A' <= s[i] <= 'Z' || '0' <= s[i] <= '9' || s[i] == '-' || s[i] == '.' || s[i]
            == '+'),
    ensures
        !newer(dotted(x, y, z) + seq!['-'] + s, dotted(x, y, z)),
        !newer(dotted(x, y, z), dotted(x, y, z) + seq!['-'] + s),
{
    let v = dotted(x, y, z);
    let whole = v + seq!['-'] + s;
    let none = Seq::<char>::empty();
    assert(v + none =~= v);
    assert(whole =~= v + (seq!['-'] + s));
    lemma_dotted_numbers(x, y, z, none);
    lemma_dotted_numbers(x, y, z, seq!['-'] + s);
    lemma_dotted(x, y, z);
    text::lemma_find_char(v, '+');
    text::lemma_find_char(v, '-');
    assert(!is_semantic(whole)) by {
        if is_semantic(whole) {
            let at = v.len() + 1 + i;
            assert(whole[at] == s[i]);
            let release = text::before(whole, '+');
            text::lemma_find_char(whole, '+');
            text::lemma_find_char(release, '-');
            if at < release.len() {
                let core = text::before(release, '-');
                assert(release[v.len() as int] == '-');
                assert(release.contains('-'));
                let pre = text::after(release, '-')->0;
                let cut = text::find_char(release, '-')->0;
                assert(cut <= v.len());
                assert(pre[at - cut - 1] == s[i]);
                lemma_identifiers_only(pre, at - cut - 1);
            } else {
                let cut = text::find_char(whole, '+')->0;
                assert(cut == release.len());
                let build = text::after(whole, '+')->0;
                assert(at != cut);
                assert(build[at - cut - 1] == s[i]);
                lemma_identifiers_only(build, at - cut - 1);
            }
        }
    }
}

/// Dotted identifiers hold nothing but what identifiers are made of, and dots.
proof fn lemma_identifiers_only(s: Seq<char>, i: int)
    requires
        is_build(s),
        0 <= i < s.len(),
    ensures
        is_identifier_char(s[i]) || s[i] == '.',
{
    let c = s[i];
    if !is_identifier_char(c) && c != '.' {
        let pieces = text::split(s, '.');
        assert forall|k: int| 0 <= k < pieces.len() implies !(#[trigger] pieces[k]).contains(c) by {
            assert(is_identifier(pieces[k]));
            if pieces[k].contains(c) {
                let j = pieces[k].index_of(c);
                assert(is_identifier_char(pieces[k][j]));
            }
        }
        text::lemma_split_without(s, '.', c);
        assert(s.contains(s[i]));
    }
}

proof fn lemma_common_identifiers(a: Seq<Seq<char>>, b: Seq<Seq<char>>, c: Seq<Seq<char>>)
    ensures
        later_identifiers(a + b, a + c) == later_identifiers(b, c),
    decreases a.len(),
{
    if a.len() == 0 {
        assert(a + b =~= b);
        assert(a + c =~= c);
    } else {
        lemma_identifier_one_way(a[0], a[0]);
        lemma_common_identifiers(a.drop_first(), b, c);
        assert((a + b).drop_first() =~= a.drop_first() + b);
        assert((a + c).drop_first() =~= a.drop_first() + c);
    }
}

/// A pre-release and one more identifier behind a dot.
proof fn lemma_one_more(pre: Seq<char>, id: Seq<char>)
    requires
        is_plain_suffix(pre),
        is_identifier(id),
        number::is_number(id) ==> no_leading_zero(id),
    ensures
        is_pre_release(pre + seq!['.'] + id),
        text::split(pre + seq!['.'] + id, '.') == text::split(pre, '.') + seq![id],
{
    lemma_plain_suffix(pre);
    assert(!id.contains('.')) by {
        if id.contains('.') {
            assert(is_identifier_char(id[id.index_of('.')]));
        }
    }
    text::lemma_split_last(pre, '.', id);
    let parts = text::split(pre, '.');
    assert(parts.push(id) =~= parts + seq![id]);
    let all = text::split(pre + seq!['.'] + id, '.');
    assert forall|i: int| 0 <= i < all.len() implies is_identifier(#[trigger] all[i]) && (number::is_number(
        all[i],
    ) ==> no_leading_zero(all[i])) by {
        if i < parts.len() {
            assert(all[i] == parts[i]);
        }
    }
}

proof fn lemma_pre_release_order(x: nat, y: nat, z: nat, a: Seq<char>, b: Seq<char>)
    requires
        x <= u32::MAX && y <= u32::MAX && z <= u32::MAX,
        is_pre_release(a),
        is_pre_release(b),
    ensures
        newer(dotted(x, y, z) + seq!['-'] + a, dotted(x, y, z) + seq!['-'] + b) == later_identifiers(
            text::split(b, '.'),
            text::split(a, '.'),
        ),
{
    let v = dotted(x, y, z);
    lemma_dotted(x, y, z);
    lemma_dotted_numbers(x, y, z, Seq::empty());
    assert(v + Seq::<char>::empty() =~= v);
    reveal_strlit("-");
    assert("-"@ =~= seq!['-']);
    law_suffix_names_a_pre_release(v, a);
    law_suffix_names_a_pre_release(v, b);
}

/// Pre-releases that differ in a last number count up by it, however many digits it has.
pub proof fn law_pre_releases_count_up(x: nat, y: nat, z: nat, pre: Seq<char>, m: nat, n: nat)
    requires
        x <= u32::MAX && y <= u32::MAX && z <= u32::MAX,
        is_plain_suffix(pre),
    ensures
        newer(
            dotted(x, y, z) + seq!['-'] + (pre + seq!['.'] + number::decimal(m)),
            dotted(x, y, z) + seq!['-'] + (pre + seq!['.'] + number::decimal(n)),
        ) <==> n > m,
        newer(
            dotted(x, y, z) + seq!['-'] + number::decimal(m),
            dotted(x, y, z) + seq!['-'] + number::decimal(n),
        ) <==> n > m,
{
    reveal_with_fuel(later_identifiers, 3);
    let (a, b) = (number::decimal(m), number::decimal(n));
    lemma_decimal_plain(m);
    lemma_decimal_plain(n);
    lemma_one_more(pre, a);
    lemma_one_more(pre, b);
    lemma_pre_release_order(x, y, z, pre + seq!['.'] + a, pre + seq!['.'] + b);
    lemma_common_identifiers(text::split(pre, '.'), seq![b], seq![a]);
    text::lemma_split_none(a, '.');
    text::lemma_split_none(b, '.');
    assert(text::split(a, '.')[0] == a && text::split(b, '.')[0] == b);
    lemma_pre_release_order(x, y, z, a, b);
}

/// Of pre-releases that are the same up to a last identifier, the one with a word there follows the
/// one with a number, words follow each other by their characters, and one that goes on follows
/// one that does not.
pub proof fn law_pre_releases_by_identifiers(
    x: nat,
    y: nat,
    z: nat,
    pre: Seq<char>,
    m: nat,
    u: Seq<char>,
    w: Seq<char>,
    k: int,
)
    requires
        x <= u32::MAX && y <= u32::MAX && z <= u32::MAX,
        is_plain_suffix(pre),
        is_word(u),
        is_word(w),
    ensures
        newer(
            dotted(x, y, z) + seq!['-'] + (pre + seq!['.'] + number::decimal(m)),
            dotted(x, y, z) + seq!['-'] + (pre + seq!['.'] + w),
        ),
        newer(dotted(x, y, z) + seq!['-'] + pre, dotted(x, y, z) + seq!['-'] + (pre + seq!['.'] + w)),
        newer(
            dotted(x, y, z) + seq!['-'] + pre,
            dotted(x, y, z) + seq!['-'] + (pre + seq!['.'] + number::decimal(m)),
        ),
        0 <= k < w.len() && k <= u.len() && (forall|i: int| 0 <= i < k ==> u[i] == w[i]) && (k == u.len() || w[k]
            as int > u[k] as int) ==> newer(
            dotted(x, y, z) + seq!['-'] + (pre + seq!['.'] + u),
            dotted(x, y, z) + seq!['-'] + (pre + seq!['.'] + w),
        ) && newer(dotted(x, y, z) + seq!['-'] + u, dotted(x, y, z) + seq!['-'] + w),
{
    reveal_with_fuel(later_identifiers, 3);
    let d = number::decimal(m);
    let parts = text::split(pre, '.');
    let none = Seq::<Seq<char>>::empty();
    lemma_plain_suffix(pre);
    lemma_decimal_plain(m);
    lemma_word(u);
    lemma_word(w);
    lemma_one_more(pre, d);
    lemma_one_more(pre, u);
    lemma_one_more(pre, w);
    lemma_pre_release_order(x, y, z, pre + seq!['.'] + d, pre + seq!['.'] + w);
    lemma_common_identifiers(parts, seq![w], seq![d]);
    assert(parts + none =~= parts);
    lemma_pre_release_order(x, y, z, pre, pre + seq!['.'] + w);
    lemma_common_identifiers(parts, seq![w], none);
    lemma_pre_release_order(x, y, z, pre, pre + seq!['.'] + d);
    lemma_common_identifiers(parts, seq![d], none);
    lemma_pre_release_order(x, y, z, pre + seq!['.'] + u, pre + seq!['.'] + w);
    lemma_common_identifiers(parts, seq![w], seq![u]);
    lemma_pre_release_order(x, y, z, u, w);
    if 0 <= k < w.len() && k <= u.len() && (forall|i: int| 0 <= i < k ==> u[i] == w[i]) && (k == u.len() || w[k]
        as int > u[k] as int) {
        text::law_first_difference_decides(w, u, k);
    }
}

/// Letters, digits and hyphens that are not all digits.
pub open spec fn is_word(s: Seq<char>) -> bool {
    &&& forall|i: int|
        0 <= i < s.len() ==> {
            let c = #[trigger] s[i];
            'a' <= c <= 'z' || 'A' <= c <= 'Z' || '0' <= c <= '9' || c == '-'
        }
    &&& exists|i: int| 0 <= i < s.len() && !('0' <= #[trigger] s[i] <= '9')
}

proof fn lemma_word(s: Seq<char>)
    requires
        is_word(s),
    ensures
        is_identifier(s),
        !number::is_number(s),
        is_pre_release(s),
        text::split(s, '.') == seq![s],
{
    let i = choose|i: int| 0 <= i < s.len() && !('0' <= #[trigger] s[i] <= '9');
    assert(!number::is_digit(s[i]));
    assert forall|i: int| 0 <= i < s.len() implies is_identifier_char(#[trigger] s[i]) by {}
    assert(!s.contains('.')) by {
        if s.contains('.') {
            assert(is_identifier_char(s[s.index_of('.')]));
        }
    }
    text::lemma_split_none(s, '.');
}

/// A listing that names a tag gives the tag, less one `v` in front of it: the tag is the text
/// between the first two double quotes behind the first `"tag_name"`.
pub proof fn law_listing_gives_the_tag(
    before: Seq<char>,
    between: Seq<char>,
    tag: Seq<char>,
    after: Seq<char>,
)
    requires
        forall|i: int|
            #![trigger before[i]]
            0 <= i < before.len() ==> (before + "\"tag_name\""@ + between + seq!['"'] + tag + seq!['"'] + after).subrange(
                i,
                i + 10,
            ) != "\"tag_name\""@,
        forall|i: int| 0 <= i < between.len() ==> between[i] != '"',
        forall|i: int| 0 <= i < tag.len() ==> tag[i] != '"',
    ensures
        tag.len() > 0 && tag[0] == 'v' ==> listed_version(
            before + "\"tag_name\""@ + between + seq!['"'] + tag + seq!['"'] + after,
        ) == Ok::<Seq<char>, Seq<char>>(tag.skip(1)),
        tag.len() == 0 || tag[0] != 'v' ==> listed_version(
            before + "\"tag_name\""@ + between + seq!['"'] + tag + seq!['"'] + after,
        ) == Ok::<Seq<char>, Seq<char>>(tag),
{
    let key = "\"tag_name\""@;
    let json = before + key + between + seq!['"'] + tag + seq!['"'] + after;
    reveal_strlit("\"tag_name\"");
    assert(json.subrange(before.len() as int, before.len() as int + 10) =~= key);
    assert forall|j: int| 0 <= j < before.len() implies !text::occurs_at(json, key, j) by {
        let c = before[j];
        assert(before.contains(c));
        assert(json.subrange(j, j + 10) != key);
    }
    law_listing_names_its_tag(before, between, tag, after);
    reveal_strlit("v");
    assert("v"@ =~= seq!['v']);
    if tag.len() > 0 {
        assert(tag.take(1) =~= seq![tag[0]]);
        assert(seq![tag[0]][0] == tag[0] && seq!['v'][0] == 'v');
        if tag[0] == 'v' {
            assert(tag =~= "v"@ + tag.skip(1));
        }
    }
    text::law_prefix_is_stripped("v"@, tag, tag.skip(1));
}

/// A listing without `"tag_name"`, without a double quote behind it, or without a second one, is
/// refused, each for its own reason.
pub proof fn law_broken_listings_are_refused(before: Seq<char>, between: Seq<char>, tag: Seq<char>, json: Seq<char>)
    requires
        forall|i: int| 0 <= i < between.len() ==> between[i] != '"',
        forall|i: int| 0 <= i < tag.len() ==> tag[i] != '"',
        forall|i: int| 0 <= i < before.len() ==> before[i] != '"',
    ensures
        (forall|i: int| 0 <= i <= json.len() - 10 ==> #[trigger] json.subrange(i, i + 10) != "\"tag_name\""@)
            ==> listed_version(json) == Err::<Seq<char>, Seq<char>>("tag_name not found in response"@),
        listed_version(before + "\"tag_name\""@ + between) == Err::<Seq<char>, Seq<char>>(
            "Invalid JSON: missing quote after tag_name"@,
        ),
        listed_version(before + "\"tag_name\""@ + between + seq!['"'] + tag) == Err::<Seq<char>, Seq<char>>(
            "Invalid JSON: unclosed quote"@,
        ),
{
    let key = "\"tag_name\""@;
    reveal_strlit("\"tag_name\"");
    text::lemma_found(json, key);
    assert(!between.contains('"') && !tag.contains('"'));
    lemma_key_found(before, between);
    lemma_key_found(before, between + seq!['"'] + tag);
    text::lemma_find_char(between, '"');
    let bare = before + key + between;
    assert(bare.skip((before.len() + 10) as int) =~= between);
    let open = before + key + between + seq!['"'] + tag;
    assert(open =~= before + key + (between + seq!['"'] + tag));
    let after_key = open.skip((before.len() + 10) as int);
    assert(after_key =~= between + seq!['"'] + tag);
    text::lemma_find_after(between, '"', tag);
    assert(after_key.skip(between.len() as int + 1) =~= tag);
    text::lemma_find_char(tag, '"');
}

proof fn lemma_key_found(before: Seq<char>, rest: Seq<char>)
    requires
        forall|i: int| 0 <= i < before.len() ==> before[i] != '"',
    ensures
        text::find(before + "\"tag_name\""@ + rest, "\"tag_name\""@) == Some(before.len() as int),
{
    let key = "\"tag_name\""@;
    reveal_strlit("\"tag_name\"");
    let json = before + key + rest;
    assert(json.subrange(before.len() as int, before.len() as int + 10) =~= key);
    assert forall|j: int| 0 <= j < before.len() implies !text::occurs_at(json, key, j) by {
        assert(json[j] == before[j]);
        if text::occurs_at(json, key, j) {
            assert(json.subrange(j, j + 10)[0] == key[0]);
        }
    }
    text::lemma_find(json, key, before.len() as int);
}

/// A number without a digit, or with another character than digits behind a sign, is none.
pub open spec fn is_no_number(s: Seq<char>) -> bool {
    ||| s.len() == 0
    ||| exists|i: int| 0 <= i < s.len() && (#[trigger] s[i] < '0' || s[i] > '9') && (i > 0 || s[i] != '+')
}

proof fn lemma_no_number(s: Seq<char>)
    requires
        is_no_number(s),
    ensures
        number::parse_unsigned(s, u32::MAX as nat) is None,
        !number::is_number(s),
{
    if s.len() == 0 {
        assert(s =~= Seq::<char>::empty());
        number::law_number_shape(s, '0', 0, u32::MAX as nat);
    } else {
        let i = choose|i: int| 0 <= i < s.len() && (#[trigger] s[i] < '0' || s[i] > '9') && (i > 0 || s[i] != '+');
        number::law_number_shape(s, '0', i, u32::MAX as nat);
        assert(!number::is_digit(s[i]));
    }
}

/// The first two components of a semantic version are numbers, and the third is one up to a hyphen
/// or a plus sign.
proof fn lemma_semantic_parts(v: Seq<char>)
    requires
        is_semantic(v),
    ensures
        text::split(v, '.').len() >= 3,
        number::is_number(text::split(v, '.')[0]),
        number::is_number(text::split(v, '.')[1]),
        ({
            let core = text::before(text::before(v, '+'), '-');
            let last = text::split(core, '.')[2];
            let third = text::split(v, '.')[2];
            &&& number::is_number(last)
            &&& last.len() <= third.len()
            &&& third.take(last.len() as int) == last
            &&& third.len() > last.len() ==> third[last.len() as int] == '-' || third[last.len() as int] == '+'
        }),
{
    lemma_core_pieces(v);
    let release = text::before(v, '+');
    let core = text::before(release, '-');
    let rest = v.skip(core.len() as int);
    let parts = text::split(core, '.');
    let last = parts[2];
    let head = text::split(rest, '.')[0];
    let third = text::split(v, '.')[2];
    assert(number::is_number(parts[0]) && number::is_number(parts[1]) && number::is_number(parts[2]));
    assert(third == last + head);
    assert(third.take(last.len() as int) =~= last);
    text::lemma_find_char(v, '+');
    text::lemma_find_char(release, '-');
    if rest.len() > 0 {
        assert(rest[0] == '-' || rest[0] == '+');
        text::lemma_split_head(rest, '.');
    } else {
        text::lemma_split_none(rest, '.');
    }
}

/// Text without a dot is no version, and neither is one whose first or second number is none: it is
/// not newer than anything, and nothing is newer than it.
pub proof fn law_no_version_is_newer_than_none(v: Seq<char>, a: Seq<char>, b: Seq<char>, rest: Seq<char>, w: Seq<char>)
    requires
        forall|i: int| 0 <= i < v.len() ==> v[i] != '.',
        forall|i: int| 0 <= i < a.len() ==> a[i] != '.',
        forall|i: int| 0 <= i < b.len() ==> b[i] != '.',
        rest.len() == 0 || rest[0] == '.',
    ensures
        !newer(v, w) && !newer(w, v),
        is_no_number(a) || is_no_number(b) ==> !newer(a + seq!['.'] + b + rest, w) && !newer(
            w,
            a + seq!['.'] + b + rest,
        ),
{
    assert(!v.contains('.') && !a.contains('.') && !b.contains('.'));
    text::lemma_split_none(v, '.');
    if is_semantic(v) {
        lemma_semantic_parts(v);
    }
    let u = a + seq!['.'] + b + rest;
    assert(u =~= a + seq!['.'] + (b + rest));
    text::lemma_split_first(a, '.', b + rest);
    if rest.len() == 0 {
        assert(b + rest =~= b);
        text::lemma_split_none(b, '.');
    } else {
        assert(b + rest =~= b + seq!['.'] + rest.skip(1));
        text::lemma_split_first(b, '.', rest.skip(1));
        text::lemma_split_nonempty(rest.skip(1), '.');
    }
    let parts = text::split(u, '.');
    assert(parts[0] == a && parts[1] == b && parts.len() >= 2);
    if is_semantic(u) {
        lemma_semantic_parts(u);
    }
    if is_no_number(a) {
        lemma_no_number(a);
    }
    if is_no_number(b) {
        lemma_no_number(b);
    }
}

/// A third number that does not start with a digit or a sign, or that goes on with anything but a
/// digit, a hyphen, a plus sign or a dot, is none, and makes no version.
pub proof fn law_odd_third_number_makes_no_version(
    x: nat,
    y: nat,
    digits: Seq<char>,
    odd: char,
    rest: Seq<char>,
    w: Seq<char>,
)
    requires
        forall|i: int| 0 <= i < digits.len() ==> '0' <= #[trigger] digits[i] <= '9',
        !('0' <= odd <= '9') && odd != '-' && odd != '+' && odd != '.',
        forall|i: int| 0 <= i < rest.len() ==> rest[i] != '.',
    ensures
        ({
            let v = number::decimal(x) + seq!['.'] + number::decimal(y) + seq!['.'] + (digits + seq![odd] + rest);
            !newer(v, w) && !newer(w, v)
        }),
{
    let third = digits + seq![odd] + rest;
    let (a, b) = (number::decimal(x), number::decimal(y));
    let v = a + seq!['.'] + b + seq!['.'] + third;
    lemma_decimal_plain(x);
    lemma_decimal_plain(y);
    assert forall|i: int| 0 <= i < third.len() implies third[i] != '.' by {
        if i < digits.len() {
            assert('0' <= digits[i] <= '9');
        }
    }
    assert(!third.contains('.'));
    assert(v =~= a + seq!['.'] + (b + seq!['.'] + third));
    text::lemma_split_first(a, '.', b + seq!['.'] + third);
    text::lemma_split_first(b, '.', third);
    text::lemma_split_none(third, '.');
    assert(text::split(v, '.') =~= seq![a, b, third]);
    if is_semantic(v) {
        lemma_semantic_parts(v);
        let core = text::before(text::before(v, '+'), '-');
        let last = text::split(core, '.')[2];
        let k = digits.len() as int;
        assert(third[k] == odd);
        if last.len() > k {
            assert(last[k] == third.take(last.len() as int)[k]);
            assert(number::is_digit(last[k]));
        } else if last.len() < k {
            assert(third[last.len() as int] == digits[last.len() as int]);
        }
    }
    text::lemma_find_char(third, '-');
    let front = text::before(third, '-');
    assert(front.len() > digits.len()) by {
        if let Some(at) = text::find_char(third, '-') {
            if at < digits.len() {
                assert(third[at] == digits[at]);
            }
        }
    }
    assert(front[digits.len() as int] == odd);
    assert(is_no_number(front));
    lemma_no_number(front);
}

/// Numbers that do not fit into 32 bits make no version.
pub proof fn law_large_numbers_make_no_version(x: nat, y: nat, z: nat, w: Seq<char>)
    requires
        x > u32::MAX || y > u32::MAX || z > u32::MAX,
    ensures
        !newer(dotted(x, y, z), w),
        !newer(w, dotted(x, y, z)),
{
    let v = dotted(x, y, z);
    lemma_dotted(x, y, z);
    text::lemma_find_char(v, '+');
    lemma_decimal_plain(z);
    text::lemma_find_char(number::decimal(z), '-');
    if x > u32::MAX {
        number::law_limit_is_kept(x, u32::MAX as nat);
    }
    if y > u32::MAX {
        number::law_limit_is_kept(y, u32::MAX as nat);
    }
    if z > u32::MAX {
        number::law_limit_is_kept(z, u32::MAX as nat);
    }
}

/// Nothing, or a text with a character that no build has, is no build.
proof fn lemma_no_build(s: Seq<char>)
    requires
        s.len() == 0 || exists|i: int|
            0 <= i < s.len() && !('a' <= #[trigger] s[i] <= 'z' || 'A' <= s[i] <= 'Z' || '0' <= s[i] <= '9' || s[i]
                == '-' || s[i] == '.'),
    ensures
        !is_build(s),
{
    if s.len() == 0 {
        text::lemma_split_none(s, '.');
        assert(!is_identifier(text::split(s, '.')[0]));
    } else if is_build(s) {
        let i = choose|i: int|
            0 <= i < s.len() && !('a' <= #[trigger] s[i] <= 'z' || 'A' <= s[i] <= 'Z' || '0' <= s[i] <= '9'
                || s[i] == '-' || s[i] == '.');
        lemma_identifiers_only(s, i);
    }
}

/// A plus sign behind digits makes no number.
proof fn lemma_plus_behind_digits(digits: Seq<char>, head: Seq<char>)
    requires
        number::is_number(digits),
        head.len() > 0,
        head[0] == '+',
    ensures
        number::parse_unsigned(text::before(digits + head, '-'), u32::MAX as nat) is None,
{
    let third = digits + head;
    lemma_no_signs(digits);
    lemma_before_sign(digits, head, '-');
    let front = text::before(third, '-');
    let more = front.skip(digits.len() as int);
    assert(front[digits.len() as int] == more[0]);
    number::law_number_shape(front, '0', digits.len() as int, u32::MAX as nat);
}

/// The third component of a version with a plus sign behind its numbers.
proof fn lemma_plus_in_third(x: nat, y: nat, z: nat, s: Seq<char>)
    ensures
        ({
            let parts = text::split(dotted(x, y, z) + seq!['+'] + s, '.');
            &&& parts.len() >= 3
            &&& number::parse_unsigned(text::before(parts[2], '-'), u32::MAX as nat) is None
        }),
{
    let core = dotted(x, y, z);
    let tail = seq!['+'] + s;
    let c = number::decimal(z);
    lemma_dotted(x, y, z);
    lemma_decimal_plain(z);
    assert(core + seq!['+'] + s =~= core + tail);
    text::lemma_split_join(core, '.', tail);
    text::lemma_split_head(tail, '.');
    let head = text::split(tail, '.')[0];
    assert(text::split(core + tail, '.')[2] == c + head);
    lemma_plus_behind_digits(c, head);
}

proof fn lemma_broken_build(x: nat, y: nat, z: nat, s: Seq<char>)
    requires
        !is_build(s),
    ensures
        version_numbers(dotted(x, y, z) + seq!['+'] + s) is None,
{
    let core = dotted(x, y, z);
    assert(!is_semantic(core + seq!['+'] + s)) by {
        lemma_dotted(x, y, z);
        text::law_sides_of_a_char(core, '+', s);
    }
    lemma_plus_in_third(x, y, z, s);
}

/// A plus sign with nothing behind it, or with a character that no build has, makes no version.
pub proof fn law_broken_build_makes_no_version(x: nat, y: nat, z: nat, s: Seq<char>, w: Seq<char>)
    requires
        s.len() == 0 || exists|i: int|
            0 <= i < s.len() && !('a' <= #[trigger] s[i] <= 'z' || 'A' <= s[i] <= 'Z' || '0' <= s[i] <= '9' || s[i]
                == '-' || s[i] == '.'),
    ensures
        !newer(dotted(x, y, z) + seq!['+'] + s, w),
        !newer(w, dotted(x, y, z) + seq!['+'] + s),
{
    lemma_no_build(s);
    lemma_broken_build(x, y, z, s);
}

/// What can be no pre-release, and holds no plus sign, does not count behind a hyphen.
proof fn lemma_no_pre_release(x: nat, y: nat, z: nat, s: Seq<char>)
    requires
        x <= u32::MAX && y <= u32::MAX && z <= u32::MAX,
        !s.contains('+'),
        !is_pre_release(s),
    ensures
        !newer(dotted(x, y, z) + seq!['-'] + s, dotted(x, y, z)),
        !newer(dotted(x, y, z), dotted(x, y, z) + seq!['-'] + s),
{
    let v = dotted(x, y, z);
    let whole = v + seq!['-'] + s;
    let none = Seq::<char>::empty();
    lemma_dotted(x, y, z);
    assert(whole =~= v + (seq!['-'] + s));
    assert(v + none =~= v);
    lemma_dotted_numbers(x, y, z, none);
    lemma_dotted_numbers(x, y, z, seq!['-'] + s);
    text::lemma_find_char(v, '+');
    text::lemma_find_char(v, '-');
    assert(!whole.contains('+'));
    text::lemma_find_char(whole, '+');
    text::law_sides_of_a_char(v, '-', s);
    assert(!is_semantic(whole));
}

/// The text ends in an empty identifier.
proof fn lemma_ends_empty(s: Seq<char>)
    requires
        s.len() > 0,
        s[s.len() - 1] == '.',
    ensures
        !is_pre_release(s),
{
    let none = Seq::<char>::empty();
    let front = s.drop_last();
    text::lemma_split_last(front, '.', none);
    assert(s =~= front + seq!['.'] + none);
    let last = text::split(front, '.').len() as int;
    assert(text::split(s, '.')[last] == none);
    assert(!is_identifier(none));
}

/// An empty identifier in front or at the end, and a number with a zero in front, make no
/// pre-release: what follows the hyphen does not count.
pub proof fn law_broken_pre_release_does_not_count(x: nat, y: nat, z: nat, s: Seq<char>)
    requires
        x <= u32::MAX && y <= u32::MAX && z <= u32::MAX,
        forall|i: int| 0 <= i < s.len() ==> s[i] != '+',
        s.len() == 0 || s[0] == '.' || s[s.len() - 1] == '.' || s.len() > 1 && s[0] == '0' && (forall|i: int|
            0 <= i < s.len() ==> '0' <= #[trigger] s[i] <= '9'),
    ensures
        !newer(dotted(x, y, z) + seq!['-'] + s, dotted(x, y, z)),
        !newer(dotted(x, y, z), dotted(x, y, z) + seq!['-'] + s),
{
    let none = Seq::<char>::empty();
    let pieces = text::split(s, '.');
    assert(!s.contains('+'));
    if s.len() == 0 {
        text::lemma_split_none(s, '.');
        assert(!is_identifier(pieces[0]));
    } else if s[0] == '.' {
        assert(s =~= none + seq!['.'] + s.skip(1));
        text::lemma_split_first(none, '.', s.skip(1));
        assert(!is_identifier(pieces[0]));
    } else if s[s.len() - 1] == '.' {
        lemma_ends_empty(s);
    } else {
        assert forall|i: int| 0 <= i < s.len() implies number::is_digit(#[trigger] s[i]) by {}
        assert(!s.contains('.'));
        text::lemma_split_none(s, '.');
        assert(number::is_number(pieces[0]) && !no_leading_zero(pieces[0]));
    }
    lemma_no_pre_release(x, y, z, s);
}

} // verus!
