//! Text as a sequence of characters: searching, splitting and trimming.

use vstd::prelude::*;
use vstd::slice::slice_subrange;

verus! {

/// `String::push` appends the character to the end of the string and changes nothing else.
pub assume_specification[ String::push ](string: &mut String, ch: char)
    ensures
        final(string)@ == old(string)@.push(ch),
;

/// `String::from_utf8` takes the bytes that are UTF-8, as the text that they encode, and no
/// others.
#[verifier::external_body]
pub(crate) fn from_utf8(bytes: Vec<u8>) -> (r: Option<String>)
    ensures
        r is Some <==> vstd::utf8::valid_utf8(bytes@),
        r matches Some(s) ==> s@ == vstd::utf8::decode_utf8(bytes@),
{
    match String::from_utf8(bytes) {
        Ok(s) => Some(s),
        Err(_) => None,
    }
}

/// The text that `String::from_utf8_lossy` makes of bytes.
pub uninterp spec fn lossy_text(bytes: Seq<u8>) -> Seq<char>;

/// `String::from_utf8_lossy`: bytes that are UTF-8 give the text that they encode. Which
/// replacement characters stand for other bytes is left to the function.
#[verifier::external_body]
pub(crate) fn from_utf8_lossy(bytes: &[u8]) -> (r: String)
    ensures
        r@ == lossy_text(bytes@),
        vstd::utf8::valid_utf8(bytes@) ==> r@ == vstd::utf8::decode_utf8(bytes@),
{
    String::from_utf8_lossy(bytes).into_owned()
}

/// The views of an optional text.
pub open spec fn text_option(text: Option<&str>) -> Option<Seq<char>> {
    match text {
        Some(s) => Some(s@),
        None => None,
    }
}

/// The views of an optional string.
pub open spec fn string_option(text: Option<String>) -> Option<Seq<char>> {
    match text {
        Some(s) => Some(s@),
        None => None,
    }
}

/// The views of a result whose value and error are both texts.
pub open spec fn text_result(r: Result<String, String>) -> Result<Seq<char>, Seq<char>> {
    match r {
        Ok(value) => Ok(value@),
        Err(error) => Err(error@),
    }
}

/// The views of a list of strings.
pub open spec fn texts(v: Seq<String>) -> Seq<Seq<char>> {
    v.map_values(|s: String| s@)
}

/// `needle` stands in `hay` at position `at`.
pub open spec fn occurs_at(hay: Seq<char>, needle: Seq<char>, at: int) -> bool {
    &&& 0 <= at <= hay.len() - needle.len()
    &&& hay.subrange(at, at + needle.len()) == needle
}

/// `needle` stands somewhere in `hay`.
pub open spec fn has_text(hay: Seq<char>, needle: Seq<char>) -> bool {
    exists|at: int| occurs_at(hay, needle, at)
}

/// `at` is the leftmost position of `needle` in `hay`.
pub open spec fn first_at(hay: Seq<char>, needle: Seq<char>, at: int) -> bool {
    &&& occurs_at(hay, needle, at)
    &&& forall|j: int| 0 <= j < at ==> !occurs_at(hay, needle, j)
}

/// The leftmost position of `needle` in `hay`, if it stands there at all.
pub open spec fn find(hay: Seq<char>, needle: Seq<char>) -> Option<int> {
    if has_text(hay, needle) {
        Some(choose|at: int| first_at(hay, needle, at))
    } else {
        None
    }
}

/// The leftmost position of the character `c` in `s`.
pub open spec fn find_char(s: Seq<char>, c: char) -> Option<int> {
    find(s, seq![c])
}

pub open spec fn starts_with(s: Seq<char>, prefix: Seq<char>) -> bool {
    occurs_at(s, prefix, 0)
}

pub open spec fn ends_with(s: Seq<char>, suffix: Seq<char>) -> bool {
    occurs_at(s, suffix, s.len() - suffix.len())
}

/// What follows `prefix`, when `s` starts with it.
pub open spec fn strip_prefix(s: Seq<char>, prefix: Seq<char>) -> Option<Seq<char>> {
    if starts_with(s, prefix) {
        Some(s.skip(prefix.len() as int))
    } else {
        None
    }
}

/// What precedes `suffix`, when `s` ends with it.
pub open spec fn strip_suffix(s: Seq<char>, suffix: Seq<char>) -> Option<Seq<char>> {
    if ends_with(s, suffix) {
        Some(s.take(s.len() - suffix.len()))
    } else {
        None
    }
}

/// The pieces of `s` between occurrences of `sep`; there is always at least one.
pub open spec fn split(s: Seq<char>, sep: char) -> Seq<Seq<char>>
    decreases s.len(),
{
    match find_char(s, sep) {
        Some(at) => if 0 <= at < s.len() {
            seq![s.take(at)] + split(s.skip(at + 1), sep)
        } else {
            seq![s]
        },
        None => seq![s],
    }
}

/// What precedes the first `c`; all of `s` where there is none.
pub open spec fn before(s: Seq<char>, c: char) -> Seq<char> {
    match find_char(s, c) {
        Some(at) => s.take(at),
        None => s,
    }
}

/// What follows the first `c`, if there is one.
pub open spec fn after(s: Seq<char>, c: char) -> Option<Seq<char>> {
    match find_char(s, c) {
        Some(at) => Some(s.skip(at + 1)),
        None => None,
    }
}

/// `a` comes after `b` in the order of texts by their characters: the first character that differs
/// decides, and a text comes after what it starts with.
pub open spec fn comes_after(a: Seq<char>, b: Seq<char>) -> bool
    decreases a.len(),
{
    if a.len() == 0 {
        false
    } else if b.len() == 0 {
        true
    } else {
        a.first() > b.first() || a.first() == b.first() && comes_after(a.drop_first(), b.drop_first())
    }
}

/// A position where `needle` stands with nothing of it further left is what `find` gives.
pub proof fn lemma_find(hay: Seq<char>, needle: Seq<char>, at: int)
    requires
        first_at(hay, needle, at),
    ensures
        find(hay, needle) == Some(at),
{
    let found = choose|a: int| first_at(hay, needle, a);
    assert(first_at(hay, needle, found));
    assert(occurs_at(hay, needle, found) && occurs_at(hay, needle, at));
    assert(found == at) by {
        if found < at {
            assert(!occurs_at(hay, needle, found));
        } else if at < found {
            assert(!occurs_at(hay, needle, at));
        }
    }
}

/// What `find` gives is a leftmost position.
pub proof fn lemma_found(hay: Seq<char>, needle: Seq<char>)
    ensures
        match find(hay, needle) {
            Some(at) => first_at(hay, needle, at),
            None => forall|at: int| !occurs_at(hay, needle, at),
        },
    decreases hay.len(),
{
    if has_text(hay, needle) {
        let some = choose|at: int| occurs_at(hay, needle, at);
        let first = lemma_least(hay, needle, some);
        lemma_find(hay, needle, first);
    }
}

proof fn lemma_least(hay: Seq<char>, needle: Seq<char>, some: int) -> (first: int)
    requires
        occurs_at(hay, needle, some),
    ensures
        first_at(hay, needle, first),
    decreases some,
{
    if exists|j: int| 0 <= j < some && occurs_at(hay, needle, j) {
        let j = choose|j: int| 0 <= j < some && occurs_at(hay, needle, j);
        lemma_least(hay, needle, j)
    } else {
        some
    }
}

/// A character stands at a position exactly when the position holds it.
pub proof fn lemma_char_at(s: Seq<char>, c: char, at: int)
    ensures
        occurs_at(s, seq![c], at) <==> 0 <= at < s.len() && s[at] == c,
{
    if 0 <= at < s.len() {
        assert(s.subrange(at, at + 1) =~= seq![s[at]]);
        assert(seq![s[at]][0] == s[at]);
        assert(seq![c][0] == c);
    }
}

/// `find_char` in terms of positions.
pub proof fn lemma_find_char(s: Seq<char>, c: char)
    ensures
        match find_char(s, c) {
            Some(at) => 0 <= at < s.len() && s[at] == c && (forall|j: int| 0 <= j < at ==> s[j] != c),
            None => !s.contains(c),
        },
{
    lemma_found(s, seq![c]);
    assert forall|j: int| 0 <= j < s.len() implies (occurs_at(s, seq![c], j) <==> #[trigger] s[j] == c) by {
        lemma_char_at(s, c, j);
    }
    if let Some(at) = find_char(s, c) {
        lemma_char_at(s, c, at);
    }
}

/// A character is found right after a stretch without it.
pub proof fn lemma_find_after(before: Seq<char>, c: char, after: Seq<char>)
    requires
        !before.contains(c),
    ensures
        find_char(before + seq![c] + after, c) == Some(before.len() as int),
{
    let s = before + seq![c] + after;
    lemma_char_at(s, c, before.len() as int);
    assert forall|j: int| 0 <= j < before.len() implies !occurs_at(s, seq![c], j) by {
        lemma_char_at(s, c, j);
        assert(before[j] == s[j]);
        assert(before.contains(before[j]));
    }
    lemma_find(s, seq![c], before.len() as int);
}

/// A text without the separator is its only piece.
pub proof fn lemma_split_none(s: Seq<char>, sep: char)
    requires
        !s.contains(sep),
    ensures
        split(s, sep) == seq![s],
{
    lemma_find_char(s, sep);
}

/// The first piece ends at the first separator.
pub proof fn lemma_split_first(before: Seq<char>, sep: char, after: Seq<char>)
    requires
        !before.contains(sep),
    ensures
        split(before + seq![sep] + after, sep) == seq![before] + split(after, sep),
{
    let s = before + seq![sep] + after;
    lemma_find_after(before, sep, after);
    assert(s.take(before.len() as int) =~= before);
    assert(s.skip(before.len() as int + 1) =~= after);
}

/// Splitting gives at least one piece.
pub proof fn lemma_split_nonempty(s: Seq<char>, sep: char)
    ensures
        split(s, sep).len() >= 1,
    decreases s.len(),
{
    lemma_find_char(s, sep);
    if let Some(at) = find_char(s, sep) {
        lemma_split_nonempty(s.skip(at + 1), sep);
    }
}

/// A text that does not start with the separator has its first character in its first piece.
pub proof fn lemma_split_head(s: Seq<char>, sep: char)
    requires
        s.len() > 0,
        s[0] != sep,
    ensures
        split(s, sep).len() >= 1,
        split(s, sep)[0].len() > 0,
        split(s, sep)[0][0] == s[0],
{
    lemma_find_char(s, sep);
    lemma_split_nonempty(s, sep);
}

/// Putting two texts together joins the last piece of one with the first piece of the other.
pub proof fn lemma_split_join(a: Seq<char>, sep: char, b: Seq<char>)
    ensures
        split(a, sep).len() >= 1,
        split(b, sep).len() >= 1,
        split(a + b, sep) == split(a, sep).drop_last() + seq![split(a, sep).last() + split(b, sep)[0]]
            + split(b, sep).drop_first(),
    decreases a.len(),
{
    lemma_split_nonempty(a, sep);
    lemma_split_nonempty(b, sep);
    lemma_find_char(a, sep);
    lemma_find_char(b, sep);
    match find_char(a, sep) {
        Some(at) => {
            let head = a.take(at);
            let rest = a.skip(at + 1);
            assert(a =~= head + seq![sep] + rest);
            assert(a + b =~= head + seq![sep] + (rest + b));
            lemma_split_first(head, sep, rest + b);
            lemma_split_join(rest, sep, b);
            assert(split(a + b, sep) =~= split(a, sep).drop_last() + seq![
                split(a, sep).last() + split(b, sep)[0],
            ] + split(b, sep).drop_first());
        },
        None => {
            match find_char(b, sep) {
                Some(at) => {
                    let head = b.take(at);
                    let rest = b.skip(at + 1);
                    assert(a + b =~= (a + head) + seq![sep] + rest);
                    assert(!(a + head).contains(sep));
                    lemma_split_first(a + head, sep, rest);
                },
                None => {
                    assert(!(a + b).contains(sep));
                    lemma_split_none(a + b, sep);
                },
            }
            assert(split(a + b, sep) =~= split(a, sep).drop_last() + seq![
                split(a, sep).last() + split(b, sep)[0],
            ] + split(b, sep).drop_first());
        },
    }
}

/// A single piece is the whole text.
pub proof fn lemma_split_one(s: Seq<char>, sep: char)
    requires
        split(s, sep).len() == 1,
    ensures
        split(s, sep)[0] == s,
{
    lemma_find_char(s, sep);
    if let Some(at) = find_char(s, sep) {
        lemma_split_nonempty(s.skip(at + 1), sep);
    }
}

/// A character that no piece holds, and that is not the separator, is not in the text.
pub proof fn lemma_split_without(s: Seq<char>, sep: char, c: char)
    requires
        c != sep,
        forall|i: int| 0 <= i < split(s, sep).len() ==> !(#[trigger] split(s, sep)[i]).contains(c),
    ensures
        !s.contains(c),
    decreases s.len(),
{
    lemma_find_char(s, sep);
    match find_char(s, sep) {
        Some(at) => {
            let rest = s.skip(at + 1);
            assert(split(s, sep)[0] == s.take(at));
            assert forall|i: int| 0 <= i < split(rest, sep).len() implies !(#[trigger] split(rest, sep)[i]).contains(
                c,
            ) by {
                assert(split(s, sep)[i + 1] == split(rest, sep)[i]);
            }
            lemma_split_without(rest, sep, c);
            assert forall|i: int| 0 <= i < s.len() implies s[i] != c by {
                if i < at {
                    assert(s.take(at).contains(s.take(at)[i]));
                } else if i > at {
                    assert(rest.contains(rest[i - at - 1]));
                }
            }
        },
        None => {
            assert(split(s, sep)[0] == s);
        },
    }
}

/// Of two texts at most one comes after the other.
pub proof fn lemma_after_one_way(a: Seq<char>, b: Seq<char>)
    ensures
        !(comes_after(a, b) && comes_after(b, a)),
    decreases a.len(),
{
    if a.len() > 0 && b.len() > 0 {
        lemma_after_one_way(a.drop_first(), b.drop_first());
    }
}

/// Any text lies on one side of two that follow on each other.
pub proof fn lemma_after_between(a: Seq<char>, b: Seq<char>, c: Seq<char>)
    requires
        comes_after(a, c),
    ensures
        comes_after(a, b) || comes_after(b, c),
    decreases a.len(),
{
    if a.len() > 0 && b.len() > 0 && c.len() > 0 && a.first() == c.first() {
        lemma_after_between(a.drop_first(), b.drop_first(), c.drop_first());
    }
}

/// The characters of a string, one by one.
pub fn chars_of(text: &str) -> (r: Vec<char>)
    ensures
        r@ == text@,
{
    let mut out: Vec<char> = Vec::new();
    for c in it: text.chars()
        invariant
            it.seq() == text@,
            out@ == text@.take(it.index()),
    {
        out.push(c);
        assert(text@.take(it.index() + 1) =~= text@.take(it.index()).push(c));
    }
    assert(text@.take(text@.len() as int) =~= text@);
    out
}

/// The string that these characters make.
pub fn string_of(chars: &[char]) -> (r: String)
    ensures
        r@ == chars@,
{
    let mut out = String::new();
    let n: usize = chars.len();
    for i in 0..n
        invariant
            n == chars@.len(),
            out@ == chars@.take(i as int),
    {
        out.push(chars[i]);
        assert(chars@.take(i + 1) =~= chars@.take(i as int).push(chars@[i as int]));
    }
    assert(chars@.take(n as int) =~= chars@);
    out
}

/// Whether two texts are the same.
pub fn same_chars(a: &[char], b: &[char]) -> (r: bool)
    ensures
        r == (a@ == b@),
{
    if a.len() != b.len() {
        return false;
    }
    let n: usize = a.len();
    for i in 0..n
        invariant
            n == a@.len() == b@.len(),
            forall|j: int| 0 <= j < i ==> a@[j] == b@[j],
    {
        if a[i] != b[i] {
            return false;
        }
    }
    assert(a@ =~= b@);
    true
}

/// Whether `needle` stands in `hay` at position `at`.
pub fn is_at(hay: &[char], needle: &[char], at: usize) -> (r: bool)
    ensures
        r == occurs_at(hay@, needle@, at as int),
{
    if needle.len() > hay.len() || at > hay.len() - needle.len() {
        return false;
    }
    let n: usize = needle.len();
    for i in 0..n
        invariant
            n == needle@.len(),
            at + n <= hay.len(),
            forall|j: int| 0 <= j < i ==> hay@[at + j] == needle@[j],
    {
        if hay[at + i] != needle[i] {
            assert(hay@.subrange(at as int, at + n)[i as int] != needle@[i as int]);
            return false;
        }
    }
    assert(hay@.subrange(at as int, at + n) =~= needle@);
    true
}

/// The leftmost position of `needle` in `hay`.
pub fn find_in(hay: &[char], needle: &[char]) -> (r: Option<usize>)
    ensures
        match r {
            Some(at) => find(hay@, needle@) == Some(at as int),
            None => find(hay@, needle@) is None,
        },
{
    if needle.len() > hay.len() {
        assert(forall|at: int| !occurs_at(hay@, needle@, at));
        return None;
    }
    let last: usize = hay.len() - needle.len();
    let mut at: usize = 0;
    while at < last && !is_at(hay, needle, at)
        invariant
            last == hay@.len() - needle@.len(),
            at <= last,
            forall|j: int| 0 <= j < at ==> !occurs_at(hay@, needle@, j),
        decreases last - at,
    {
        at = at + 1;
    }
    if is_at(hay, needle, at) {
        proof {
            lemma_find(hay@, needle@, at as int);
        }
        Some(at)
    } else {
        proof {
            lemma_found(hay@, needle@);
        }
        None
    }
}

/// Whether the text `needle` stands somewhere in `hay`.
pub fn contains_text(hay: &[char], needle: &str) -> (r: bool)
    ensures
        r == has_text(hay@, needle@),
{
    let needle = chars_of(needle);
    match find_in(hay, &needle) {
        Some(_) => true,
        None => false,
    }
}

/// The leftmost position of a character.
pub fn find_char_in(s: &[char], c: char) -> (r: Option<usize>)
    ensures
        match r {
            Some(at) => find_char(s@, c) == Some(at as int) && at < s@.len(),
            None => find_char(s@, c) is None,
        },
{
    let needle: [char; 1] = [c];
    proof {
        assert(needle@ =~= seq![c]);
        lemma_find_char(s@, c);
    }
    find_in(s, &needle)
}

/// What precedes the first `c`.
pub fn part_before(s: &[char], c: char) -> (r: &[char])
    ensures
        r@ == before(s@, c),
{
    match find_char_in(s, c) {
        Some(at) => slice_subrange(s, 0, at),
        None => s,
    }
}

/// What follows the first `c`.
pub fn part_after(s: &[char], c: char) -> (r: Option<&[char]>)
    ensures
        match r {
            Some(rest) => after(s@, c) == Some(rest@),
            None => after(s@, c) is None,
        },
{
    let len: usize = s.len();
    match find_char_in(s, c) {
        Some(at) => Some(slice_subrange(s, at + 1, len)),
        None => None,
    }
}

/// Whether `a` comes after `b` in the order of texts by their characters.
pub fn is_after(a: &[char], b: &[char]) -> (r: bool)
    ensures
        r == comes_after(a@, b@),
{
    let mut i: usize = 0;
    assert(a@.skip(0) =~= a@ && b@.skip(0) =~= b@);
    while i < a.len() && i < b.len() && a[i] == b[i]
        invariant
            i <= a@.len(),
            i <= b@.len(),
            comes_after(a@.skip(i as int), b@.skip(i as int)) == comes_after(a@, b@),
        decreases a@.len() - i,
    {
        assert(a@.skip(i as int).drop_first() =~= a@.skip(i + 1));
        assert(b@.skip(i as int).drop_first() =~= b@.skip(i + 1));
        i = i + 1;
    }
    i < a.len() && (i >= b.len() || a[i] > b[i])
}

/// Whether the text starts with `prefix`.
pub fn has_prefix(s: &[char], prefix: &str) -> (r: bool)
    ensures
        r == starts_with(s@, prefix@),
{
    let prefix = chars_of(prefix);
    is_at(s, &prefix, 0)
}

/// What follows `prefix`, when the text starts with it.
pub fn without_prefix<'a>(s: &'a [char], prefix: &str) -> (r: Option<&'a [char]>)
    ensures
        match r {
            Some(rest) => strip_prefix(s@, prefix@) == Some(rest@),
            None => strip_prefix(s@, prefix@) is None,
        },
{
    let prefix = chars_of(prefix);
    if is_at(s, &prefix, 0) {
        Some(slice_subrange(s, prefix.len(), s.len()))
    } else {
        None
    }
}

/// What precedes `suffix`, when the text ends with it.
pub fn without_suffix<'a>(s: &'a [char], suffix: &str) -> (r: Option<&'a [char]>)
    ensures
        match r {
            Some(rest) => strip_suffix(s@, suffix@) == Some(rest@),
            None => strip_suffix(s@, suffix@) is None,
        },
{
    let suffix = chars_of(suffix);
    if suffix.len() <= s.len() && is_at(s, &suffix, s.len() - suffix.len()) {
        Some(slice_subrange(s, 0, s.len() - suffix.len()))
    } else {
        None
    }
}

/// The views of a list of character vectors.
pub open spec fn pieces(v: Seq<Vec<char>>) -> Seq<Seq<char>> {
    v.map_values(|piece: Vec<char>| piece@)
}

/// The pieces of the text between occurrences of `sep`.
pub fn split_at_char(s: &[char], sep: char) -> (r: Vec<Vec<char>>)
    ensures
        pieces(r@) == split(s@, sep),
        r@.len() >= 1,
{
    let mut out: Vec<Vec<char>> = Vec::new();
    let mut rest: &[char] = s;
    assert(pieces(out@) + split(s@, sep) =~= split(s@, sep));
    let mut next: Option<usize> = find_char_in(rest, sep);
    while next.is_some()
        invariant
            pieces(out@) + split(rest@, sep) == split(s@, sep),
            match next {
                Some(at) => find_char(rest@, sep) == Some(at as int) && at < rest@.len(),
                None => find_char(rest@, sep) is None,
            },
        decreases rest@.len(),
    {
        let at: usize = next.unwrap();
        let ghost before = out@;
        let ghost tail = rest@;
        out.push(vstd::slice::slice_to_vec(slice_subrange(rest, 0, at)));
        let len: usize = rest.len();
        rest = slice_subrange(rest, at + 1, len);
        next = find_char_in(rest, sep);
        proof {
            assert(rest@ =~= tail.skip(at + 1));
            assert(pieces(out@) =~= pieces(before) + seq![tail.take(at as int)]);
            assert(pieces(out@) + split(rest@, sep) =~= pieces(before) + split(tail, sep));
        }
    }
    let ghost before = out@;
    out.push(vstd::slice::slice_to_vec(rest));
    assert(pieces(out@) =~= pieces(before) + seq![rest@]);
    out
}

/// The characters that Unicode gives the property White_Space.
pub open spec fn is_white_space(c: char) -> bool {
    ||| '\u{9}' <= c <= '\u{d}'
    ||| c == '\u{20}' || c == '\u{85}' || c == '\u{a0}' || c == '\u{1680}'
    ||| '\u{2000}' <= c <= '\u{200a}'
    ||| c == '\u{2028}' || c == '\u{2029}' || c == '\u{202f}' || c == '\u{205f}' || c == '\u{3000}'
}

/// Whether a character is white space.
pub fn white_space(c: char) -> (r: bool)
    ensures
        r == is_white_space(c),
{
    ('\u{9}' <= c && c <= '\u{d}') || c == '\u{20}' || c == '\u{85}' || c == '\u{a0}' || c == '\u{1680}' || (
    '\u{2000}' <= c && c <= '\u{200a}') || c == '\u{2028}' || c == '\u{2029}' || c == '\u{202f}' || c
        == '\u{205f}' || c == '\u{3000}'
}

/// The text without its leading white space.
pub open spec fn trim_start(s: Seq<char>) -> Seq<char>
    decreases s.len(),
{
    if s.len() > 0 && is_white_space(s.first()) {
        trim_start(s.drop_first())
    } else {
        s
    }
}

/// The text without its trailing white space.
pub open spec fn trim_end(s: Seq<char>) -> Seq<char>
    decreases s.len(),
{
    if s.len() > 0 && is_white_space(s.last()) {
        trim_end(s.drop_last())
    } else {
        s
    }
}

/// The text without the white space around it.
pub open spec fn trim(s: Seq<char>) -> Seq<char> {
    trim_end(trim_start(s))
}

/// The text without the occurrences of `c` at its end.
pub open spec fn trim_end_char(s: Seq<char>, c: char) -> Seq<char>
    decreases s.len(),
{
    if s.len() > 0 && s.last() == c {
        trim_end_char(s.drop_last(), c)
    } else {
        s
    }
}

/// A text with no white space at either end stays whole.
pub proof fn lemma_trim_nothing(s: Seq<char>)
    requires
        s.len() > 0,
        !is_white_space(s.first()),
        !is_white_space(s.last()),
    ensures
        trim(s) == s,
{
}

proof fn lemma_trim_start_shape(s: Seq<char>)
    ensures
        trim_start(s).len() == 0 || !is_white_space(trim_start(s).first()),
    decreases s.len(),
{
    if s.len() > 0 && is_white_space(s.first()) {
        lemma_trim_start_shape(s.drop_first());
    }
}

proof fn lemma_trim_end_shape(s: Seq<char>)
    ensures
        trim_end(s).len() == 0 || !is_white_space(trim_end(s).last()),
        trim_end(s).len() <= s.len(),
        trim_end(s).len() > 0 ==> trim_end(s).first() == s.first(),
    decreases s.len(),
{
    if s.len() > 0 && is_white_space(s.last()) {
        lemma_trim_end_shape(s.drop_last());
    }
}

/// A trimmed text has no more white space to trim.
pub proof fn lemma_trim_twice(s: Seq<char>)
    ensures
        trim(trim(s)) == trim(s),
{
    lemma_trim_start_shape(s);
    lemma_trim_end_shape(trim_start(s));
    if trim(s).len() > 0 {
        lemma_trim_nothing(trim(s));
    }
}

/// The text without the white space around it.
pub fn trimmed(s: &[char]) -> (r: &[char])
    ensures
        r@ == trim(s@),
{
    let mut from: usize = 0;
    assert(s@.skip(0) =~= s@);
    while from < s.len() && white_space(s[from])
        invariant
            from <= s@.len(),
            trim_start(s@.skip(from as int)) == trim_start(s@),
        decreases s@.len() - from,
    {
        assert(s@.skip(from as int).drop_first() =~= s@.skip(from + 1));
        from = from + 1;
    }
    let ghost front = s@.skip(from as int);
    assert(front == trim_start(s@));
    let mut to: usize = s.len();
    assert(s@.subrange(from as int, to as int) =~= front);
    while from < to && white_space(s[to - 1])
        invariant
            from <= to <= s@.len(),
            trim_end(s@.subrange(from as int, to as int)) == trim_end(front),
        decreases to - from,
    {
        assert(s@.subrange(from as int, to as int).drop_last() =~= s@.subrange(from as int, to - 1));
        to = to - 1;
    }
    slice_subrange(s, from, to)
}

/// The text without the occurrences of `c` at its end.
pub fn trimmed_end(s: &[char], c: char) -> (r: &[char])
    ensures
        r@ == trim_end_char(s@, c),
{
    let mut to: usize = s.len();
    assert(s@.subrange(0, to as int) =~= s@);
    while 0 < to && s[to - 1] == c
        invariant
            to <= s@.len(),
            trim_end_char(s@.subrange(0, to as int), c) == trim_end_char(s@, c),
        decreases to,
    {
        assert(s@.subrange(0, to as int).drop_last() =~= s@.subrange(0, to - 1));
        to = to - 1;
    }
    slice_subrange(s, 0, to)
}

/// What follows the last separator is the last piece.
pub proof fn lemma_split_last(front: Seq<char>, sep: char, piece: Seq<char>)
    requires
        !piece.contains(sep),
    ensures
        split(front + seq![sep] + piece, sep) == split(front, sep).push(piece),
        split(front, sep).len() >= 1,
{
    let none = Seq::<char>::empty();
    let tail = seq![sep] + piece;
    lemma_split_none(piece, sep);
    lemma_split_none(none, sep);
    lemma_split_first(none, sep, piece);
    assert(none + seq![sep] + piece =~= tail);
    assert(split(tail, sep) =~= seq![none, piece]);
    lemma_split_join(front, sep, tail);
    assert(front + seq![sep] + piece =~= front + tail);
    let parts = split(front, sep);
    assert(parts.last() + none =~= parts.last());
    assert(split(front + tail, sep) =~= parts.push(piece));
}

/// A text starts with what is put in front of it, and stripping that leaves the text; a text that
/// starts otherwise is left as it is.
pub proof fn law_prefix_is_stripped(prefix: Seq<char>, s: Seq<char>, rest: Seq<char>)
    ensures
        strip_prefix(prefix + rest, prefix) == Some(rest),
        s.len() < prefix.len() || s.take(prefix.len() as int) != prefix ==> strip_prefix(s, prefix) is None,
        strip_prefix(s, prefix) matches Some(tail) ==> s == prefix + tail,
{
    let whole = prefix + rest;
    assert(whole.subrange(0, prefix.len() as int) =~= prefix);
    assert(whole.skip(prefix.len() as int) =~= rest);
    if s.len() >= prefix.len() {
        assert(s.subrange(0, prefix.len() as int) =~= s.take(prefix.len() as int));
        assert(s =~= s.take(prefix.len() as int) + s.skip(prefix.len() as int));
    }
}

/// A text ends with what is put behind it, and stripping that leaves the text.
pub proof fn law_suffix_is_stripped(suffix: Seq<char>, s: Seq<char>, rest: Seq<char>)
    ensures
        strip_suffix(rest + suffix, suffix) == Some(rest),
        s.len() < suffix.len() || s.skip(s.len() - suffix.len()) != suffix ==> strip_suffix(s, suffix) is None,
        strip_suffix(s, suffix) matches Some(head) ==> s == head + suffix,
{
    let whole = rest + suffix;
    assert(whole.subrange(rest.len() as int, whole.len() as int) =~= suffix);
    assert(whole.take(rest.len() as int) =~= rest);
    if s.len() >= suffix.len() {
        let at = s.len() - suffix.len();
        assert(s.subrange(at, s.len() as int) =~= s.skip(at));
        assert(s =~= s.take(at) + s.skip(at));
    }
}

/// `whole` is `part` with something, or nothing, on either side.
pub open spec fn is_around(whole: Seq<char>, part: Seq<char>) -> bool {
    exists|a: Seq<char>, b: Seq<char>| whole == #[trigger] (a + part + b)
}

/// A text is found in another exactly when the other is made of it and something on either side.
pub proof fn law_found_between(hay: Seq<char>, needle: Seq<char>)
    ensures
        has_text(hay, needle) <==> is_around(hay, needle),
{
    if has_text(hay, needle) {
        let at = choose|at: int| occurs_at(hay, needle, at);
        let a = hay.take(at);
        let b = hay.skip(at + needle.len());
        assert(hay =~= a + needle + b);
    }
    if exists|a: Seq<char>, b: Seq<char>| hay == #[trigger] (a + needle + b) {
        let (a, b) = choose|a: Seq<char>, b: Seq<char>| hay == #[trigger] (a + needle + b);
        assert(hay.subrange(a.len() as int, (a.len() + needle.len()) as int) =~= needle);
        assert(occurs_at(hay, needle, a.len() as int));
    }
}

/// The pieces of a text with separators between them.
pub open spec fn joined(pieces: Seq<Seq<char>>, sep: char) -> Seq<char>
    decreases pieces.len(),
{
    if pieces.len() == 0 {
        Seq::empty()
    } else if pieces.len() == 1 {
        pieces[0]
    } else {
        pieces[0] + seq![sep] + joined(pieces.drop_first(), sep)
    }
}

/// Splitting takes a text apart into pieces without the separator, and putting separators between
/// these gives the text back.
pub proof fn law_split_joins(s: Seq<char>, sep: char)
    ensures
        split(s, sep).len() >= 1,
        joined(split(s, sep), sep) == s,
        forall|i: int| 0 <= i < split(s, sep).len() ==> !(#[trigger] split(s, sep)[i]).contains(sep),
    decreases s.len(),
{
    lemma_find_char(s, sep);
    match find_char(s, sep) {
        Some(at) => {
            let rest = s.skip(at + 1);
            law_split_joins(rest, sep);
            assert(split(s, sep).drop_first() =~= split(rest, sep));
            assert(s =~= s.take(at) + seq![sep] + rest);
            assert forall|i: int| 0 <= i < split(s, sep).len() implies !(#[trigger] split(s, sep)[i]).contains(
                sep,
            ) by {
                if i > 0 {
                    assert(split(s, sep)[i] == split(rest, sep)[i - 1]);
                }
            }
        },
        None => {},
    }
}

proof fn lemma_trim_start_space(space: Seq<char>, s: Seq<char>)
    requires
        forall|i: int| 0 <= i < space.len() ==> is_white_space(#[trigger] space[i]),
    ensures
        trim_start(space + s) == trim_start(s),
    decreases space.len(),
{
    if space.len() > 0 {
        assert(is_white_space(space[0]));
        assert((space + s).drop_first() =~= space.drop_first() + s);
        lemma_trim_start_space(space.drop_first(), s);
    } else {
        assert(space + s =~= s);
    }
}

proof fn lemma_trim_end_space(s: Seq<char>, space: Seq<char>)
    requires
        forall|i: int| 0 <= i < space.len() ==> is_white_space(#[trigger] space[i]),
    ensures
        trim_end(s + space) == trim_end(s),
    decreases space.len(),
{
    if space.len() > 0 {
        assert(is_white_space(space[space.len() - 1]));
        assert((s + space).drop_last() =~= s + space.drop_last());
        lemma_trim_end_space(s, space.drop_last());
    } else {
        assert(s + space =~= s);
    }
}

/// Trimming takes away all white space around a text, and nothing of a text that has none at its
/// ends.
pub proof fn law_trim_takes_space_only(left: Seq<char>, s: Seq<char>, right: Seq<char>)
    requires
        forall|i: int| 0 <= i < left.len() ==> is_white_space(#[trigger] left[i]),
        forall|i: int| 0 <= i < right.len() ==> is_white_space(#[trigger] right[i]),
        s.len() > 0 ==> !is_white_space(s[0]) && !is_white_space(s[s.len() - 1]),
    ensures
        trim(left + s + right) == s,
{
    assert(left + s + right =~= left + (s + right));
    lemma_trim_start_space(left, s + right);
    if s.len() > 0 {
        assert((s + right).first() == s[0]);
        lemma_trim_end_space(s, right);
    } else {
        assert(s + right =~= right + s);
        lemma_trim_start_space(right, s);
        assert(trim_start(s) =~= s);
    }
}

/// The characters that count as white space.
pub proof fn law_white_space(c: char)
    ensures
        c == ' ' || c == '\n' || c == '\t' || c == '\r' || c == '\u{b}' || c == '\u{c}' ==> is_white_space(c),
        '!' <= c <= '~' ==> !is_white_space(c),
{
}

/// Of two texts that are the same up to a place, the one with the later character there, or the
/// only one that goes on, comes after the other.
pub proof fn law_first_difference_decides(a: Seq<char>, b: Seq<char>, k: int)
    requires
        0 <= k < a.len(),
        k <= b.len(),
        forall|i: int| 0 <= i < k ==> a[i] == b[i],
        k == b.len() || a[k] as int > b[k] as int,
    ensures
        comes_after(a, b),
        !comes_after(b, a),
    decreases k,
{
    if k > 0 {
        law_first_difference_decides(a.drop_first(), b.drop_first(), k - 1);
    }
    lemma_after_one_way(a, b);
}

/// What precedes and follows the first `c` are the two sides of it.
pub proof fn law_sides_of_a_char(a: Seq<char>, c: char, b: Seq<char>)
    requires
        !a.contains(c),
    ensures
        before(a + seq![c] + b, c) == a,
        after(a + seq![c] + b, c) == Some(b),
        before(a, c) == a,
        after(a, c) is None,
{
    lemma_find_after(a, c, b);
    lemma_find_char(a, c);
    assert((a + seq![c] + b).take(a.len() as int) =~= a);
    assert((a + seq![c] + b).skip(a.len() as int + 1) =~= b);
}

/// Taking characters off the end takes all of one kind, and nothing else.
pub proof fn law_end_is_trimmed(s: Seq<char>, c: char)
    ensures
        s.len() == 0 || s[s.len() - 1] != c ==> trim_end_char(s, c) == s,
        trim_end_char(s.push(c), c) == trim_end_char(s, c),
{
    assert(s.push(c).drop_last() =~= s);
}

/// All characters of one kind at the end of a text go, however many there are.
pub proof fn law_all_at_the_end_go(s: Seq<char>, tail: Seq<char>, c: char)
    requires
        s.len() == 0 || s[s.len() - 1] != c,
        forall|i: int| 0 <= i < tail.len() ==> tail[i] == c,
    ensures
        trim_end_char(s + tail, c) == s,
    decreases tail.len(),
{
    if tail.len() == 0 {
        assert(s + tail =~= s);
    } else {
        assert((s + tail).drop_last() =~= s + tail.drop_last());
        assert((s + tail).last() == tail[tail.len() - 1]);
        law_all_at_the_end_go(s, tail.drop_last(), c);
    }
}

/// Views keep the text, and whether there is one.
pub proof fn law_views_keep_the_text(a: &str, b: String, list: Seq<String>, i: int)
    ensures
        text_option(Some(a)) == Some(a@),
        text_option(None) is None,
        string_option(Some(b)) == Some(b@),
        string_option(None) is None,
        text_result(Ok(b)) == Ok::<Seq<char>, Seq<char>>(b@),
        text_result(Err(b)) == Err::<Seq<char>, Seq<char>>(b@),
        texts(list).len() == list.len(),
        0 <= i < list.len() ==> texts(list)[i] == list[i]@,
{
}

} // verus!
