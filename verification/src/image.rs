//! Images on the clipboard: a path in its text, or the image itself.

use crate::clock::LocalTime;
use crate::number;
use crate::number::decimal_text;
use crate::path;
use crate::path::{join_paths, HostPath, PathFacts, Place};
use crate::percent;
use crate::percent::percent_decode;
use crate::text;
use crate::text::{
    chars_of, find_char_in, same_chars, string_of, trimmed, without_prefix, without_suffix,
};
use vstd::prelude::*;

verus! {

/// An ASCII capital as the small letter, and any other character as it is.
pub open spec fn ascii_lower(c: char) -> char {
    if 'A' <= c <= 'Z' {
        ((c as u8 + 32) as u8) as char
    } else {
        c
    }
}

/// The extension under which an image of this extension, in small letters, is kept.
pub open spec fn image_kind(ext: Seq<char>) -> Option<Seq<char>> {
    if ext == "png"@ {
        Some("png"@)
    } else if ext == "jpg"@ || ext == "jpeg"@ {
        Some("jpg"@)
    } else if ext == "gif"@ {
        Some("gif"@)
    } else if ext == "webp"@ {
        Some("webp"@)
    } else if ext == "bmp"@ {
        Some("bmp"@)
    } else if ext == "tif"@ || ext == "tiff"@ {
        Some("tiff"@)
    } else {
        None
    }
}

/// The text with its ASCII capitals as small letters.
pub open spec fn lowered(s: Seq<char>) -> Seq<char> {
    s.map_values(|c: char| ascii_lower(c))
}

/// The kind of image that a path names by its extension, in capitals or not.
pub open spec fn image_extension(p: PathFacts) -> Option<Seq<char>> {
    match p.extension {
        Some(ext) => image_kind(lowered(ext)),
        None => None,
    }
}

fn lower(s: &[char]) -> (r: Vec<char>)
    ensures
        r@ == lowered(s@),
{
    let mut out: Vec<char> = Vec::new();
    let n: usize = s.len();
    for i in 0..n
        invariant
            n == s@.len(),
            out@ == lowered(s@.take(i as int)),
    {
        let c = s[i];
        let small = if 'A' <= c && c <= 'Z' {
            (c as u8 + 32) as char
        } else {
            c
        };
        out.push(small);
        assert(out@ =~= lowered(s@.take(i + 1)));
    }
    assert(s@.take(n as int) =~= s@);
    out
}

fn is_text(s: &[char], expected: &str) -> (r: bool)
    ensures
        r == (s@ == expected@),
{
    let expected = chars_of(expected);
    same_chars(s, &expected)
}

/// The kind of image that a path names, if it is one that can be handed over.
pub fn supported_image_extension(image_path: &HostPath) -> (r: Option<&'static str>)
    ensures
        text::text_option(r) == image_extension(image_path@),
{
    let ext = match &image_path.extension {
        Some(ext) => {
            let chars = chars_of(ext.as_str());
            lower(&chars)
        },
        None => return None,
    };
    if is_text(&ext, "png") {
        Some("png")
    } else if is_text(&ext, "jpg") || is_text(&ext, "jpeg") {
        Some("jpg")
    } else if is_text(&ext, "gif") {
        Some("gif")
    } else if is_text(&ext, "webp") {
        Some("webp")
    } else if is_text(&ext, "bmp") {
        Some("bmp")
    } else if is_text(&ext, "tif") || is_text(&ext, "tiff") {
        Some("tiff")
    } else {
        None
    }
}

/// The text between a pair of these quotes around it.
pub open spec fn between(s: Seq<char>, quote: Seq<char>) -> Option<Seq<char>> {
    match text::strip_prefix(s, quote) {
        Some(rest) => text::strip_suffix(rest, quote),
        None => None,
    }
}

/// The text without a pair of double or single quotes around it.
pub open spec fn unquoted(s: Seq<char>) -> Seq<char> {
    match between(s, "\""@) {
        Some(inner) => inner,
        None => match between(s, "'"@) {
            Some(inner) => inner,
            None => s,
        },
    }
}

/// The path that a `file` URL names, or a text that is no such URL.
pub open spec fn local_part(s: Seq<char>) -> Option<Seq<char>> {
    match text::strip_prefix(s, "file://localhost"@) {
        Some(rest) => percent::decoded_text(rest),
        None => match text::strip_prefix(s, "file://"@) {
            Some(rest) => percent::decoded_text(rest),
            None => Some(s),
        },
    }
}

/// A path as a clipboard text names it.
#[derive(Debug)]
pub enum NamedPath {
    /// This path.
    Whole(String),
    /// This path, seen from the home directory.
    UnderHome(String),
}

/// What a clipboard text names: one line, in quotes or not, a `file` URL or a path.
pub open spec fn named_text(clipboard: Seq<char>) -> Option<Seq<char>> {
    let line = text::trim(clipboard);
    if line.len() == 0 || line.contains('\n') {
        None
    } else {
        local_part(unquoted(line))
    }
}

/// The path that a clipboard text names: `~/` in front stands for the home directory.
pub open spec fn names(clipboard: Seq<char>, r: Option<NamedPath>) -> bool {
    match named_text(clipboard) {
        Some(local) => match text::strip_prefix(local, "~/"@) {
            Some(rest) => r matches Some(NamedPath::UnderHome(p)) && p@ == rest,
            None => r matches Some(NamedPath::Whole(p)) && p@ == local,
        },
        None => r is None,
    }
}

/// The machine whose paths a clipboard text names.
#[derive(Debug)]
pub enum Host {
    /// It has POSIX paths, and this home directory, if it is known.
    Posix { home: Option<String> },
    /// It has rules of its own, by which the path that the text names is this one. There is none
    /// where the text names a path under a home directory that is not known.
    Other { resolved: Option<HostPath> },
}

/// What the machine makes of a path that a clipboard text names.
pub open spec fn resolved(local: Seq<char>, host: Host) -> Option<PathFacts> {
    match host {
        Host::Posix { home } => match (text::strip_prefix(local, "~/"@), home) {
            (Some(rest), Some(dir)) => Some(path::posix_facts(path::join(dir@, rest))),
            (Some(_), None) => None,
            (None, _) => Some(path::posix_facts(local)),
        },
        Host::Other { resolved: Some(p) } => Some(p@),
        Host::Other { resolved: None } => None,
    }
}

/// The path of an image file that a clipboard text names: it has to be absolute and of a supported
/// kind.
pub open spec fn image_path(clipboard: Seq<char>, host: Host) -> Option<PathFacts> {
    match named_text(clipboard) {
        Some(local) => match resolved(local, host) {
            Some(p) => if p.absolute && image_extension(p) is Some {
                Some(p)
            } else {
                None
            },
            None => None,
        },
        None => None,
    }
}

fn without_quotes<'a>(s: &'a [char], quote: &str) -> (r: Option<&'a [char]>)
    ensures
        match r {
            Some(inner) => between(s@, quote@) == Some(inner@),
            None => between(s@, quote@) is None,
        },
{
    match without_prefix(s, quote) {
        Some(rest) => without_suffix(rest, quote),
        None => None,
    }
}

/// The path that a clipboard text names, before the machine has a say in it.
pub fn clipboard_named_path(clipboard: &str) -> (r: Option<NamedPath>)
    ensures
        names(clipboard@, r),
{
    let chars = chars_of(clipboard);
    let line = trimmed(&chars);
    proof {
        text::lemma_find_char(line@, '\n');
    }
    if line.len() == 0 || find_char_in(line, '\n').is_some() {
        return None;
    }
    let inner: &[char] = match without_quotes(line, "\"") {
        Some(inner) => inner,
        None => match without_quotes(line, "'") {
            Some(inner) => inner,
            None => line,
        },
    };
    let local: String = match without_prefix(inner, "file://localhost") {
        Some(rest) => {
            let rest = string_of(rest);
            match percent_decode(rest.as_str()) {
                Some(local) => local,
                None => return None,
            }
        },
        None => match without_prefix(inner, "file://") {
            Some(rest) => {
                let rest = string_of(rest);
                match percent_decode(rest.as_str()) {
                    Some(local) => local,
                    None => return None,
                }
            },
            None => string_of(inner),
        },
    };
    let local_chars = chars_of(local.as_str());
    match without_prefix(&local_chars, "~/") {
        Some(rest) => Some(NamedPath::UnderHome(string_of(rest))),
        None => Some(NamedPath::Whole(local)),
    }
}

/// The path of the image file that a clipboard text names on this machine.
pub fn clipboard_text_image_path(clipboard: &str, host: &Host) -> (r: Option<HostPath>)
    ensures
        match r {
            Some(p) => image_path(clipboard@, *host) == Some(p@),
            None => image_path(clipboard@, *host) is None,
        },
        forall|dir: Seq<char>, stem: Seq<char>, ext: Seq<char>|
            *host is Posix && is_image_word(ext) && #[trigger] is_rooted_file(clipboard@, dir, stem, ext) ==> (
            r matches Some(p) && p.text@ == clipboard@),
{
    proof {
        assert forall|dir: Seq<char>, stem: Seq<char>, ext: Seq<char>|
            *host is Posix && is_image_word(ext) && #[trigger] is_rooted_file(
                clipboard@,
                dir,
                stem,
                ext,
            ) implies image_path(clipboard@, *host) == Some(path::posix_facts(clipboard@)) by {
            if let Host::Posix { home } = *host {
                let none = Seq::<char>::empty();
                law_path_names_itself(none, clipboard@, none, dir, stem, ext, home);
            }
        }
    }
    let named = match clipboard_named_path(clipboard) {
        Some(named) => named,
        None => return None,
    };
    let p: HostPath = match host {
        Host::Posix { home } => match named {
            NamedPath::UnderHome(rest) => match home {
                Some(dir) => HostPath::posix(join_paths(dir.as_str(), rest.as_str())),
                None => return None,
            },
            NamedPath::Whole(whole) => HostPath::posix(whole),
        },
        Host::Other { resolved } => match resolved {
            Some(p) => p.clone(),
            None => return None,
        },
    };
    if !p.absolute || supported_image_extension(&p).is_none() {
        return None;
    }
    Some(p)
}

/// A file that holds the image to hand over.
#[derive(Debug)]
pub struct ClipboardImageSource {
    /// The path of the file.
    pub local_path: String,
    /// The extension that its copy gets.
    pub extension: &'static str,
    /// Whether the file was made for this purpose, and has no use afterwards.
    pub remove_after_upload: bool,
}

impl ClipboardImageSource {
    /// The file at this path, which is the user's own.
    pub open spec fn is_file(self, p: PathFacts) -> bool {
        &&& self.local_path@ == p.text
        &&& self.extension@ == (match image_extension(p) {
            Some(ext) => ext,
            None => "png"@,
        })
        &&& !self.remove_after_upload
    }

    /// The temporary file at this path, which holds an image in PNG format.
    pub open spec fn is_temporary(self, p: Seq<char>) -> bool {
        &&& self.local_path@ == p
        &&& self.extension@ == "png"@
        &&& self.remove_after_upload
    }
}

/// The user's own file at this path as the source.
pub fn file_source(p: HostPath) -> (r: ClipboardImageSource)
    ensures
        r.is_file(p@),
        forall|ext: Seq<char>, kind: Seq<char>|
            p@.extension == Some(ext) && #[trigger] is_kept_as(ext, kind) ==> r.extension@ == kind,
{
    proof {
        assert forall|ext: Seq<char>, kind: Seq<char>|
            p@.extension == Some(ext) && #[trigger] is_kept_as(ext, kind) implies image_extension(p@) == Some(kind) by {
            law_kinds_of_images(p@, ext);
        }
    }
    let extension: &'static str = match supported_image_extension(&p) {
        Some(ext) => ext,
        None => "png",
    };
    ClipboardImageSource { local_path: p.text, extension, remove_after_upload: false }
}

/// The temporary file at this path as the source.
pub fn temporary_source(p: String) -> (r: ClipboardImageSource)
    ensures
        r.is_temporary(p@),
{
    ClipboardImageSource { local_path: p, extension: "png", remove_after_upload: true }
}

/// The name of a temporary image of the process `pid`, made at this time.
pub open spec fn temporary_name(pid: u32, time: LocalTime) -> Seq<char> {
    "zapet-image-"@ + number::decimal(pid as nat) + "-"@ + time.text() + ".png"@
}

/// The name of a temporary image of the process `pid`, made at this time.
pub fn temporary_image_name(pid: u32, time: &LocalTime) -> (r: String)
    ensures
        r@ == temporary_name(pid, *time),
{
    let pid_text = decimal_text(pid as u64);
    let time_text = time.hyphenated_text();
    let mut name: String = "zapet-image-".to_owned();
    name.append(pid_text.as_str());
    name.append("-");
    name.append(time_text.as_str());
    name.append(".png");
    name
}

/// The path of a temporary image of the process `pid`, made at this time.
pub fn temporary_image_path(place: &Place, pid: u32, time: &LocalTime) -> (r: String)
    ensures
        r@ == path::path_in(*place, temporary_name(pid, *time)),
{
    match place {
        Place::Posix { dir } => {
            let name = temporary_image_name(pid, time);
            join_paths(dir.as_str(), name.as_str())
        },
        Place::Other { path } => path.clone(),
    }
}

/// What a clipboard text names is an absolute path to a file of a supported kind.
pub proof fn law_named_image_is_absolute(clipboard: Seq<char>, host: Host)
    ensures
        image_path(clipboard, host) matches Some(p) ==> p.absolute && image_extension(p) is Some,
        host is Posix ==> (image_path(clipboard, host) matches Some(p) ==> path::is_absolute(p.text)),
{
}

/// White space around a clipboard text makes no difference.
pub proof fn law_surrounding_space_is_ignored(clipboard: Seq<char>, host: Host)
    ensures
        image_path(text::trim(clipboard), host) == image_path(clipboard, host),
{
    text::lemma_trim_twice(clipboard);
}

/// The kind that is found is one under which images are kept: it is its own kind, in small letters.
pub proof fn law_kind_is_canonical(p: PathFacts)
    ensures
        image_extension(p) matches Some(kind) ==> lowered(kind) == kind && image_kind(kind) == Some(kind),
{
    reveal_strlit("png");
    reveal_strlit("jpg");
    reveal_strlit("jpeg");
    reveal_strlit("gif");
    reveal_strlit("webp");
    reveal_strlit("bmp");
    reveal_strlit("tif");
    reveal_strlit("tiff");
    if let Some(kind) = image_extension(p) {
        assert(lowered(kind) =~= kind);
        assert("png"@[0] == 'p' && "jpg"@[0] == 'j' && "jpeg"@[0] == 'j' && "gif"@[0] == 'g');
        assert("webp"@[0] == 'w' && "bmp"@[0] == 'b' && "tif"@[0] == 't' && "tiff"@[0] == 't');
    }
}

/// Capitals make no difference to where a text is split.
proof fn lemma_split_lowered(s: Seq<char>)
    ensures
        text::split(lowered(s), '/') == text::split(s, '/').map_values(|piece: Seq<char>| lowered(piece)),
    decreases s.len(),
{
    let small = lowered(s);
    assert(forall|i: int| 0 <= i < s.len() ==> (#[trigger] small[i] == '/' <==> s[i] == '/'));
    text::lemma_find_char(s, '/');
    text::lemma_find_char(small, '/');
    match text::find_char(s, '/') {
        Some(at) => {
            assert(small[at] == '/');
            let found = text::find_char(small, '/')->0;
            assert(found == at) by {
                if found < at {
                    assert(small[found] == '/' ==> s[found] == '/');
                }
            }
            lemma_split_lowered(s.skip(at + 1));
            assert(small.take(at) =~= lowered(s.take(at)));
            assert(small.skip(at + 1) =~= lowered(s.skip(at + 1)));
        },
        None => {
            assert(!small.contains('/'));
        },
    }
    assert(text::split(small, '/') =~= text::split(s, '/').map_values(|piece: Seq<char>| lowered(piece)));
}

proof fn lemma_last_name_lowered(components: Seq<Seq<char>>)
    ensures
        path::last_name(components.map_values(|piece: Seq<char>| lowered(piece))) == (match path::last_name(
            components,
        ) {
            Some(name) => Some(lowered(name)),
            None => None,
        }),
    decreases components.len(),
{
    let small = components.map_values(|piece: Seq<char>| lowered(piece));
    if components.len() > 0 {
        lemma_last_name_lowered(components.drop_last());
        assert(small.drop_last() =~= components.drop_last().map_values(|piece: Seq<char>| lowered(piece)));
        let last = components.last();
        assert(small.last() == lowered(last));
        reveal_strlit("");
        reveal_strlit(".");
        reveal_strlit("..");
        assert(lowered(last) =~= ""@ <==> last =~= ""@);
        assert(lowered(last) =~= "."@ <==> last =~= "."@) by {
            assert(last.len() == 1 ==> (lowered(last)[0] == '.' <==> last[0] == '.'));
        }
        assert(lowered(last) =~= ".."@ <==> last =~= ".."@) by {
            assert(last.len() == 2 ==> (lowered(last)[0] == '.' <==> last[0] == '.'));
            assert(last.len() == 2 ==> (lowered(last)[1] == '.' <==> last[1] == '.'));
        }
    }
}

proof fn lemma_last_dot_lowered(name: Seq<char>)
    ensures
        path::last_dot(lowered(name)) == path::last_dot(name),
        path::last_dot(name) matches Some(at) ==> 0 <= at < name.len(),
    decreases name.len(),
{
    if name.len() > 0 {
        lemma_last_dot_lowered(name.drop_last());
        assert(lowered(name).drop_last() =~= lowered(name.drop_last()));
    }
}

/// Capitals in a path make no difference to the kind of image that it names.
pub proof fn law_case_is_ignored(p: Seq<char>, q: Seq<char>)
    requires
        lowered(p) == lowered(q),
    ensures
        image_extension(path::posix_facts(p)) == image_extension(path::posix_facts(q)),
{
    lemma_extension_lowered(p);
    lemma_extension_lowered(q);
}

proof fn lemma_extension_lowered(p: Seq<char>)
    ensures
        path::extension(lowered(p)) == (match path::extension(p) {
            Some(ext) => Some(lowered(ext)),
            None => None,
        }),
{
    lemma_split_lowered(p);
    lemma_last_name_lowered(text::split(p, '/'));
    if let Some(name) = path::file_name(p) {
        lemma_last_dot_lowered(name);
        if let Some(at) = path::last_dot(name) {
            assert(lowered(name).skip(at + 1) =~= lowered(name.skip(at + 1)));
        }
    }
}

/// `ext` is the word, which is in small letters, in capitals or not.
pub open spec fn is_spelled(ext: Seq<char>, word: Seq<char>) -> bool {
    &&& ext.len() == word.len()
    &&& forall|i: int| 0 <= i < ext.len() ==> #[trigger] ext[i] == word[i] || ext[i] as int + 32 == word[i] as int
}

proof fn lemma_spelled(ext: Seq<char>, word: Seq<char>)
    requires
        forall|i: int| 0 <= i < word.len() ==> 'a' <= #[trigger] word[i] <= 'z',
    ensures
        is_spelled(ext, word) <==> lowered(ext) == word,
{
    if is_spelled(ext, word) {
        assert forall|i: int| 0 <= i < ext.len() implies #[trigger] lowered(ext)[i] == word[i] by {
            assert('a' <= word[i] <= 'z');
            assert(ext[i] == word[i] || ext[i] as int + 32 == word[i] as int);
        }
        assert(lowered(ext) =~= word);
    }
    if lowered(ext) == word {
        assert forall|i: int| 0 <= i < ext.len() implies #[trigger] ext[i] == word[i] || ext[i] as int + 32
            == word[i] as int by {
            assert(lowered(ext)[i] == word[i]);
        }
    }
}

/// The kinds of images: an extension that is one of `png`, `gif`, `webp`, `bmp` and `tiff`, in
/// capitals or not, is kept as that, `jpg` and `jpeg` as `jpg`, `tif` as `tiff`, and no other
/// extension is that of an image.
pub proof fn law_kinds_of_images(p: PathFacts, ext: Seq<char>)
    requires
        p.extension == Some(ext),
    ensures
        is_spelled(ext, "png"@) ==> image_extension(p) == Some("png"@),
        is_spelled(ext, "jpg"@) || is_spelled(ext, "jpeg"@) ==> image_extension(p) == Some("jpg"@),
        is_spelled(ext, "gif"@) ==> image_extension(p) == Some("gif"@),
        is_spelled(ext, "webp"@) ==> image_extension(p) == Some("webp"@),
        is_spelled(ext, "bmp"@) ==> image_extension(p) == Some("bmp"@),
        is_spelled(ext, "tif"@) || is_spelled(ext, "tiff"@) ==> image_extension(p) == Some("tiff"@),
        image_extension(p) is Some ==> is_image_word(ext),
{
    reveal_strlit("png");
    reveal_strlit("jpg");
    reveal_strlit("jpeg");
    reveal_strlit("gif");
    reveal_strlit("webp");
    reveal_strlit("bmp");
    reveal_strlit("tif");
    reveal_strlit("tiff");
    lemma_spelled(ext, "png"@);
    lemma_spelled(ext, "jpg"@);
    lemma_spelled(ext, "jpeg"@);
    lemma_spelled(ext, "gif"@);
    lemma_spelled(ext, "webp"@);
    lemma_spelled(ext, "bmp"@);
    lemma_spelled(ext, "tif"@);
    lemma_spelled(ext, "tiff"@);
    assert("png"@[0] == 'p' && "jpg"@[0] == 'j' && "jpeg"@[0] == 'j' && "gif"@[0] == 'g');
    assert("webp"@[0] == 'w' && "bmp"@[0] == 'b' && "tif"@[0] == 't' && "tiff"@[0] == 't');
}

/// One of the extensions that images have, in capitals or not.
pub open spec fn is_image_word(ext: Seq<char>) -> bool {
    ||| is_spelled(ext, "png"@)
    ||| is_spelled(ext, "jpg"@)
    ||| is_spelled(ext, "jpeg"@)
    ||| is_spelled(ext, "gif"@)
    ||| is_spelled(ext, "webp"@)
    ||| is_spelled(ext, "bmp"@)
    ||| is_spelled(ext, "tif"@)
    ||| is_spelled(ext, "tiff"@)
}

/// A path without an extension is not that of an image.
pub proof fn law_no_extension_no_image(p: PathFacts)
    requires
        p.extension is None,
    ensures
        image_extension(p) is None,
{
}

/// A path on one line that starts at the root and leads to a file with this extension.
pub open spec fn is_rooted_file(p: Seq<char>, dir: Seq<char>, stem: Seq<char>, ext: Seq<char>) -> bool {
    &&& p == dir + seq!['/'] + (stem + seq!['.'] + ext)
    &&& p[0] == '/'
    &&& stem.len() > 0
    &&& forall|i: int| 0 <= i < stem.len() ==> stem[i] != '/'
    &&& forall|i: int| 0 <= i < p.len() ==> p[i] != '\n'
}

proof fn lemma_word_letters(ext: Seq<char>)
    requires
        is_image_word(ext),
    ensures
        ext.len() > 0,
        forall|i: int|
            0 <= i < ext.len() ==> 'a' <= #[trigger] ext[i] <= 'z' || 'A' <= ext[i] <= 'Z',
{
    reveal_strlit("png");
    reveal_strlit("jpg");
    reveal_strlit("jpeg");
    reveal_strlit("gif");
    reveal_strlit("webp");
    reveal_strlit("bmp");
    reveal_strlit("tif");
    reveal_strlit("tiff");
}

/// What POSIX rules say of the path of an image.
proof fn lemma_rooted_image(p: Seq<char>, dir: Seq<char>, stem: Seq<char>, ext: Seq<char>)
    requires
        is_rooted_file(p, dir, stem, ext),
        is_image_word(ext),
    ensures
        path::posix_facts(p).absolute,
        path::posix_facts(p).extension == Some(ext),
        image_extension(path::posix_facts(p)) is Some,
        !text::is_white_space(p[p.len() - 1]),
        p[p.len() - 1] != '"' && p[p.len() - 1] != '\'',
{
    lemma_word_letters(ext);
    assert(p[p.len() - 1] == ext[ext.len() - 1]);
    path::law_extension_follows_the_last_dot(dir, stem, ext);
    law_kinds_of_images(path::posix_facts(p), ext);
}

/// What a line names once it is trimmed and its quotes are gone.
proof fn lemma_line_names(left: Seq<char>, line: Seq<char>, right: Seq<char>)
    requires
        forall|i: int| 0 <= i < left.len() ==> text::is_white_space(#[trigger] left[i]),
        forall|i: int| 0 <= i < right.len() ==> text::is_white_space(#[trigger] right[i]),
        line.len() > 0,
        !text::is_white_space(line[0]),
        !text::is_white_space(line[line.len() - 1]),
        forall|i: int| 0 <= i < line.len() ==> line[i] != '\n',
    ensures
        named_text(left + line + right) == local_part(unquoted(line)),
{
    text::law_trim_takes_space_only(left, line, right);
}

/// Text that starts with neither quote has none around it.
proof fn lemma_not_quoted(s: Seq<char>)
    requires
        s.len() > 0,
        s[0] != '"',
        s[0] != '\'',
    ensures
        unquoted(s) == s,
{
    reveal_strlit("\"");
    reveal_strlit("'");
    assert(s.take(1)[0] == s[0]);
    text::law_prefix_is_stripped("\""@, s, s);
    text::law_prefix_is_stripped("'"@, s, s);
}

/// Quotes around a text go.
proof fn lemma_quoted(s: Seq<char>)
    ensures
        unquoted(seq!['"'] + s + seq!['"']) == s,
        unquoted(seq!['\''] + s + seq!['\'']) == s,
{
    reveal_strlit("\"");
    reveal_strlit("'");
    assert("\""@ =~= seq!['"'] && "'"@ =~= seq!['\'']);
    let double = seq!['"'] + s + seq!['"'];
    let single = seq!['\''] + s + seq!['\''];
    assert(double =~= "\""@ + (s + "\""@));
    assert(single =~= "'"@ + (s + "'"@));
    text::law_prefix_is_stripped("\""@, double, s + "\""@);
    text::law_suffix_is_stripped("\""@, double, s);
    assert(single.take(1)[0] == '\'');
    text::law_prefix_is_stripped("\""@, single, s);
    text::law_prefix_is_stripped("'"@, single, s + "'"@);
    text::law_suffix_is_stripped("'"@, single, s);
}

/// A text that starts with a slash is neither a `file` URL nor seen from the home directory.
proof fn lemma_rooted_text(s: Seq<char>)
    requires
        s.len() > 0,
        s[0] == '/',
    ensures
        local_part(s) == Some(s),
        text::strip_prefix(s, "~/"@) is None,
{
    reveal_strlit("file://localhost");
    reveal_strlit("file://");
    reveal_strlit("~/");
    if s.len() >= 16 {
        assert(s.take(16)[0] == s[0]);
    }
    if s.len() >= 7 {
        assert(s.take(7)[0] == s[0]);
    }
    if s.len() >= 2 {
        assert(s.take(2)[0] == s[0]);
    }
    text::law_prefix_is_stripped("file://localhost"@, s, s);
    text::law_prefix_is_stripped("file://"@, s, s);
    text::law_prefix_is_stripped("~/"@, s, s);
}

/// The extension of the path of an image is the word that it ends in.
pub proof fn law_word_extension(p: Seq<char>, dir: Seq<char>, stem: Seq<char>, ext: Seq<char>)
    requires
        is_rooted_file(p, dir, stem, ext),
        is_image_word(ext),
    ensures
        path::posix_facts(p).extension == Some(ext),
{
    lemma_rooted_image(p, dir, stem, ext);
}

/// A rooted path in a line, bare or in quotes.
proof fn lemma_line_names_rooted(left: Seq<char>, p: Seq<char>, right: Seq<char>)
    requires
        forall|i: int| 0 <= i < left.len() ==> text::is_white_space(#[trigger] left[i]),
        forall|i: int| 0 <= i < right.len() ==> text::is_white_space(#[trigger] right[i]),
        p.len() > 0,
        p[0] == '/',
        !text::is_white_space(p[p.len() - 1]),
        forall|i: int| 0 <= i < p.len() ==> p[i] != '\n',
    ensures
        named_text(left + p + right) == Some(p),
        named_text(left + (seq!['"'] + p + seq!['"']) + right) == Some(p),
        named_text(left + (seq!['\''] + p + seq!['\'']) + right) == Some(p),
{
    lemma_rooted_text(p);
    assert(named_text(left + p + right) == Some(p)) by {
        lemma_line_names(left, p, right);
        lemma_not_quoted(p);
    }
    lemma_quoted(p);
    assert(named_text(left + (seq!['"'] + p + seq!['"']) + right) == Some(p)) by {
        lemma_line_names(left, seq!['"'] + p + seq!['"'], right);
    }
    assert(named_text(left + (seq!['\''] + p + seq!['\'']) + right) == Some(p)) by {
        lemma_line_names(left, seq!['\''] + p + seq!['\''], right);
    }
}

/// The path of an image that a text names is found.
proof fn lemma_named_is_found(clipboard: Seq<char>, p: Seq<char>, home: Option<String>)
    requires
        named_text(clipboard) == Some(p),
        p.len() > 0,
        p[0] == '/',
        image_extension(path::posix_facts(p)) is Some,
    ensures
        image_path(clipboard, Host::Posix { home }) == Some(path::posix_facts(p)),
{
    lemma_rooted_text(p);
}

/// The path of an image names itself on a machine with POSIX paths, whatever characters but line
/// ends are in it, with white space around it or none, and in quotes of either kind or in none.
pub proof fn law_path_names_itself(
    left: Seq<char>,
    p: Seq<char>,
    right: Seq<char>,
    dir: Seq<char>,
    stem: Seq<char>,
    ext: Seq<char>,
    home: Option<String>,
)
    requires
        is_rooted_file(p, dir, stem, ext),
        is_image_word(ext),
        forall|i: int| 0 <= i < left.len() ==> text::is_white_space(#[trigger] left[i]),
        forall|i: int| 0 <= i < right.len() ==> text::is_white_space(#[trigger] right[i]),
    ensures
        image_path(left + p + right, Host::Posix { home }) == Some(path::posix_facts(p)),
        image_path(left + (seq!['"'] + p + seq!['"']) + right, Host::Posix { home }) == Some(
            path::posix_facts(p),
        ),
        image_path(left + (seq!['\''] + p + seq!['\'']) + right, Host::Posix { home }) == Some(
            path::posix_facts(p),
        ),
        image_path(p, Host::Posix { home }) == Some(path::posix_facts(p)),
{
    let none = Seq::<char>::empty();
    lemma_rooted_image(p, dir, stem, ext);
    lemma_line_names_rooted(left, p, right);
    lemma_named_is_found(left + p + right, p, home);
    lemma_named_is_found(left + (seq!['"'] + p + seq!['"']) + right, p, home);
    lemma_named_is_found(left + (seq!['\''] + p + seq!['\'']) + right, p, home);
    lemma_line_names_rooted(none, p, none);
    assert(none + p + none =~= p);
    lemma_named_is_found(p, p, home);
}

/// A `file` URL names what it encodes.
proof fn lemma_url_named(encoded: Seq<char>)
    requires
        encoded.len() > 0,
        encoded[0] == '/' || encoded[0] == '%',
        forall|i: int| 0 <= i < encoded.len() ==> encoded[i] != '\n',
        !text::is_white_space(encoded[encoded.len() - 1]),
    ensures
        named_text("file://"@ + encoded) == percent::decoded_text(encoded),
        named_text("file://localhost"@ + encoded) == percent::decoded_text(encoded),
{
    reveal_strlit("file://localhost");
    reveal_strlit("file://");
    let none = Seq::<char>::empty();
    let short = "file://"@ + encoded;
    let long = "file://localhost"@ + encoded;
    assert(none + short + none =~= short);
    assert(none + long + none =~= long);
    lemma_line_names(none, short, none);
    lemma_line_names(none, long, none);
    lemma_not_quoted(short);
    lemma_not_quoted(long);
    text::law_prefix_is_stripped("file://localhost"@, long, encoded);
    text::law_prefix_is_stripped("file://"@, short, encoded);
    if short.len() >= 16 {
        assert(short.take(16)[7] == encoded[0]);
        assert("file://localhost"@[7] == 'l');
    }
    text::law_prefix_is_stripped("file://localhost"@, short, encoded);
}

/// A `file` URL of the path of an image, without a host or with `localhost`, names the path,
/// however its characters are encoded.
pub proof fn law_file_url_names_its_path(
    encoded: Seq<char>,
    p: Seq<char>,
    dir: Seq<char>,
    stem: Seq<char>,
    ext: Seq<char>,
    home: Option<String>,
)
    requires
        p == dir + seq!['/'] + (stem + seq!['.'] + ext),
        p[0] == '/',
        stem.len() > 0,
        forall|i: int| 0 <= i < stem.len() ==> stem[i] != '/',
        is_image_word(ext),
        percent::encodes(vstd::utf8::encode_utf8(encoded), vstd::utf8::encode_utf8(p)),
        encoded.len() > 0,
        encoded[0] == '/' || encoded[0] == '%',
        forall|i: int| 0 <= i < encoded.len() ==> encoded[i] != '\n',
        !text::is_white_space(encoded[encoded.len() - 1]),
    ensures
        image_path("file://"@ + encoded, Host::Posix { home }) == Some(path::posix_facts(p)),
        image_path("file://localhost"@ + encoded, Host::Posix { home }) == Some(path::posix_facts(p)),
{
    percent::law_any_encoding_reads_back(encoded, p);
    lemma_rooted_text(p);
    lemma_word_letters(ext);
    path::law_extension_follows_the_last_dot(dir, stem, ext);
    law_kinds_of_images(path::posix_facts(p), ext);
    lemma_url_named(encoded);
}

/// `~/` in front stands for the home directory, and nothing is named where that is not known.
pub proof fn law_tilde_stands_for_home(
    rest: Seq<char>,
    home: String,
    p: Seq<char>,
    dir: Seq<char>,
    stem: Seq<char>,
    ext: Seq<char>,
)
    requires
        home@.len() > 0,
        home@[0] == '/',
        rest.len() > 0,
        rest[0] != '/',
        forall|i: int| 0 <= i < rest.len() ==> rest[i] != '\n',
        p == (if home@[home@.len() - 1] == '/' {
            home@ + rest
        } else {
            home@ + seq!['/'] + rest
        }),
        p == dir + seq!['/'] + (stem + seq!['.'] + ext),
        stem.len() > 0,
        forall|i: int| 0 <= i < stem.len() ==> stem[i] != '/',
        is_image_word(ext),
    ensures
        image_path("~/"@ + rest, Host::Posix { home: Some(home) }) == Some(path::posix_facts(p)),
        image_path("~/"@ + rest, Host::Posix { home: None }) is None,
{
    let none = Seq::<char>::empty();
    let line = "~/"@ + rest;
    reveal_strlit("~/");
    lemma_word_letters(ext);
    assert(p[p.len() - 1] == ext[ext.len() - 1]);
    assert(line[line.len() - 1] == p[p.len() - 1]);
    assert(none + line + none =~= line);
    lemma_line_names(none, line, none);
    lemma_not_quoted(line);
    reveal_strlit("file://localhost");
    reveal_strlit("file://");
    if line.len() >= 16 {
        assert(line.take(16)[0] == '~');
    }
    if line.len() >= 7 {
        assert(line.take(7)[0] == '~');
    }
    text::law_prefix_is_stripped("file://localhost"@, line, line);
    text::law_prefix_is_stripped("file://"@, line, line);
    text::law_prefix_is_stripped("~/"@, line, rest);
    path::law_join_puts_one_slash(home@, rest);
    path::law_extension_follows_the_last_dot(dir, stem, ext);
    law_kinds_of_images(path::posix_facts(p), ext);
}

/// A text that starts otherwise than a `file` URL or a path under the home directory names itself.
proof fn lemma_plain_text(s: Seq<char>)
    requires
        s.len() < 7 || s.take(7) != "file://"@,
        s.len() < 2 || s.take(2) != "~/"@,
    ensures
        local_part(s) == Some(s),
        text::strip_prefix(s, "~/"@) is None,
{
    reveal_strlit("file://localhost");
    reveal_strlit("file://");
    reveal_strlit("~/");
    text::law_prefix_is_stripped("file://localhost"@, s, s);
    text::law_prefix_is_stripped("file://"@, s, s);
    text::law_prefix_is_stripped("~/"@, s, s);
    if s.len() >= 16 && s.take(16) == "file://localhost"@ {
        assert(s.take(7) =~= s.take(16).take(7));
        assert("file://localhost"@.take(7) =~= "file://"@);
    }
}

/// Text with a quote at one end only keeps it.
proof fn lemma_half_quoted(s: Seq<char>)
    requires
        s.len() > 0,
        s[0] == '"' || s[0] == '\'',
        s.len() == 1 || s[s.len() - 1] != s[0],
    ensures
        unquoted(s) == s,
{
    reveal_strlit("\"");
    reveal_strlit("'");
    assert("\""@ =~= seq!['"'] && "'"@ =~= seq!['\'']);
    let rest = s.skip(1);
    assert(s =~= seq![s[0]] + rest);
    assert(s.take(1)[0] == s[0]);
    if rest.len() > 0 {
        assert(rest.skip(rest.len() - 1)[0] == s[s.len() - 1]);
    }
    text::law_prefix_is_stripped("\""@, s, rest);
    text::law_prefix_is_stripped("'"@, s, rest);
    text::law_suffix_is_stripped("\""@, rest, rest);
    text::law_suffix_is_stripped("'"@, rest, rest);
    assert(seq!['"'][0] == '"' && seq!['\''][0] == '\'');
}

/// Nothing is named by an empty text, by one of several lines, by a path that does not start at
/// the root, by one without the extension of an image, or by one with a quote on one side only.
pub proof fn law_other_texts_name_nothing(space: Seq<char>, p: Seq<char>, k: int, home: Option<String>)
    requires
        forall|i: int| 0 <= i < space.len() ==> text::is_white_space(#[trigger] space[i]),
        p.len() > 0,
        !text::is_white_space(p[0]),
        !text::is_white_space(p[p.len() - 1]),
    ensures
        image_path(space, Host::Posix { home }) is None,
        0 <= k < p.len() && p[k] == '\n' ==> image_path(p, Host::Posix { home }) is None,
        p[0] != '/' && p[0] != '"' && p[0] != '\'' && (p.len() < 7 || p.take(7) != "file://"@) && (p.len() < 2
            || p.take(2) != "~/"@) ==> image_path(p, Host::Posix { home }) is None,
        p[0] == '/' && (path::extension(p) matches Some(ext) ==> !is_image_word(ext)) ==> image_path(
            p,
            Host::Posix { home },
        ) is None,
        (p[0] == '"' || p[0] == '\'') && (p.len() == 1 || p[p.len() - 1] != p[0]) ==> image_path(
            p,
            Host::Posix { home },
        ) is None,
{
    let none = Seq::<char>::empty();
    text::law_trim_takes_space_only(space, none, none);
    assert(space + none + none =~= space);
    text::law_trim_takes_space_only(none, p, none);
    assert(none + p + none =~= p);
    reveal_strlit("file://");
    reveal_strlit("~/");
    if 0 <= k < p.len() && p[k] == '\n' {
        assert(p.contains(p[k]));
    }
    if p[0] == '"' || p[0] == '\'' {
        if p.len() == 1 || p[p.len() - 1] != p[0] {
            lemma_half_quoted(p);
            if p.len() >= 7 {
                assert(p.take(7)[0] == p[0]);
            }
            if p.len() >= 2 {
                assert(p.take(2)[0] == p[0]);
            }
            lemma_plain_text(p);
        }
    } else {
        lemma_not_quoted(p);
        if p[0] == '/' {
            lemma_rooted_text(p);
            if let Some(ext) = path::extension(p) {
                law_kinds_of_images(path::posix_facts(p), ext);
            }
        } else if (p.len() < 7 || p.take(7) != "file://"@) && (p.len() < 2 || p.take(2) != "~/"@) {
            lemma_plain_text(p);
        }
    }
}

/// A pair of quotes around a text that starts with none makes no difference to what it names.
pub proof fn law_quotes_make_no_difference(s: Seq<char>, host: Host)
    requires
        s.len() > 0,
        !text::is_white_space(s[0]),
        !text::is_white_space(s[s.len() - 1]),
        s[0] != '"',
        s[0] != '\'',
        forall|i: int| 0 <= i < s.len() ==> s[i] != '\n',
    ensures
        image_path(seq!['"'] + s + seq!['"'], host) == image_path(s, host),
        image_path(seq!['\''] + s + seq!['\''], host) == image_path(s, host),
{
    let none = Seq::<char>::empty();
    lemma_not_quoted(s);
    lemma_quoted(s);
    let double = seq!['"'] + s + seq!['"'];
    let single = seq!['\''] + s + seq!['\''];
    lemma_line_names(none, s, none);
    lemma_line_names(none, double, none);
    lemma_line_names(none, single, none);
    assert(none + s + none =~= s);
    assert(none + double + none =~= double);
    assert(none + single + none =~= single);
}

/// On a machine with rules of its own, a text that names something names what the machine makes of
/// it, if that is absolute and has the extension of an image.
pub proof fn law_machine_decides(clipboard: Seq<char>, found: HostPath, ext: Seq<char>)
    requires
        named_text(clipboard) is Some,
        found.extension matches Some(e) && e@ == ext,
    ensures
        image_path(clipboard, Host::Other { resolved: Some(found) }) is Some <==> found.absolute && is_image_word(
            ext,
        ),
        image_path(clipboard, Host::Other { resolved: Some(found) }) matches Some(p) ==> p.text == found.text@,
        image_path(clipboard, Host::Other { resolved: None }) is None,
{
    law_kinds_of_images(found@, ext);
}

/// The name of a temporary image has the number of the process and the time in it.
pub proof fn law_temporary_names(pid: u32, time: LocalTime, dir: String)
    requires
        dir@.len() > 0,
        dir@[dir@.len() - 1] != '/',
    ensures
        path::path_in(Place::Posix { dir }, temporary_name(pid, time)) == dir@ + "/zapet-image-"@ + number::decimal(
            pid as nat,
        ) + seq!['-'] + time.text() + ".png"@,
{
    reveal_strlit("zapet-image-");
    reveal_strlit("/zapet-image-");
    reveal_strlit("-");
    assert("-"@ =~= seq!['-']);
    let name = temporary_name(pid, time);
    assert(name[0] == 'z');
    path::law_join_puts_one_slash(dir@, name);
    assert(dir@ + seq!['/'] + name =~= dir@ + "/zapet-image-"@ + number::decimal(pid as nat) + seq!['-']
        + time.text() + ".png"@);
}

/// A file with this extension is kept under this one, which says in small letters what it is.
pub open spec fn is_kept_as(ext: Seq<char>, kind: Seq<char>) -> bool {
    ||| kind == "png"@ && is_spelled(ext, "png"@)
    ||| kind == "jpg"@ && (is_spelled(ext, "jpg"@) || is_spelled(ext, "jpeg"@))
    ||| kind == "gif"@ && is_spelled(ext, "gif"@)
    ||| kind == "webp"@ && is_spelled(ext, "webp"@)
    ||| kind == "bmp"@ && is_spelled(ext, "bmp"@)
    ||| kind == "tiff"@ && (is_spelled(ext, "tif"@) || is_spelled(ext, "tiff"@))
}

/// The user's own file goes under its own kind and is not removed, and a temporary file is a PNG
/// and is removed.
pub proof fn law_sources_keep_their_kind(
    source: ClipboardImageSource,
    p: PathFacts,
    ext: Seq<char>,
    kind: Seq<char>,
    temporary: Seq<char>,
)
    ensures
        source.is_file(p) && p.extension == Some(ext) && is_kept_as(ext, kind) ==> source.extension@ == kind
            && source.local_path@ == p.text && !source.remove_after_upload,
        source.is_temporary(temporary) ==> source.extension@ == "png"@ && source.local_path@ == temporary
            && source.remove_after_upload,
{
    if p.extension == Some(ext) {
        law_kinds_of_images(p, ext);
    }
}

} // verus!
