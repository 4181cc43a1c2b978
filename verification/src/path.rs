//! Paths: the rules of POSIX systems, with `/` between components, and paths of which the machine
//! says by its own rules what they are.

use crate::text;
use crate::text::{chars_of, same_chars, split_at_char, string_of};
use vstd::prelude::*;
use vstd::slice::slice_subrange;

verus! {

pub open spec fn is_absolute(path: Seq<char>) -> bool {
    path.len() > 0 && path.first() == '/'
}

/// `rest` seen from the directory `base`: an absolute path stands for itself, and a separator
/// comes between the two unless one is there or there is no base.
pub open spec fn join(base: Seq<char>, rest: Seq<char>) -> Seq<char> {
    if is_absolute(rest) {
        rest
    } else if base.len() == 0 || base.last() == '/' {
        base + rest
    } else {
        base.push('/') + rest
    }
}

/// The last of the components that names something: empty ones and `.` are passed over, and
/// `..` names nothing.
pub open spec fn last_name(components: Seq<Seq<char>>) -> Option<Seq<char>>
    decreases components.len(),
{
    if components.len() == 0 {
        None
    } else if components.last() == ""@ || components.last() == "."@ {
        last_name(components.drop_last())
    } else if components.last() == ".."@ {
        None
    } else {
        Some(components.last())
    }
}

/// The name of the file or directory that a path leads to.
pub open spec fn file_name(path: Seq<char>) -> Option<Seq<char>> {
    last_name(text::split(path, '/'))
}

/// The position of the last dot.
pub open spec fn last_dot(name: Seq<char>) -> Option<int>
    decreases name.len(),
{
    if name.len() == 0 {
        None
    } else if name.last() == '.' {
        Some(name.len() - 1)
    } else {
        last_dot(name.drop_last())
    }
}

/// What follows the last dot of the file name, unless the name starts with that dot.
pub open spec fn extension(path: Seq<char>) -> Option<Seq<char>> {
    match file_name(path) {
        Some(name) => match last_dot(name) {
            Some(at) => if at > 0 {
                Some(name.skip(at + 1))
            } else {
                None
            },
            None => None,
        },
        None => None,
    }
}

/// Whether the path starts at the root.
pub fn absolute(path: &[char]) -> (r: bool)
    ensures
        r == is_absolute(path@),
{
    path.len() > 0 && path[0] == '/'
}

/// `rest` seen from the directory `base`.
pub fn join_paths(base: &str, rest: &str) -> (r: String)
    ensures
        r@ == join(base@, rest@),
{
    let base_chars = chars_of(base);
    let rest_chars = chars_of(rest);
    if absolute(&rest_chars) {
        return rest.to_owned();
    }
    let mut out: String = base.to_owned();
    if base_chars.len() > 0 && base_chars[base_chars.len() - 1] != '/' {
        out.push('/');
    }
    out.append(rest);
    out
}

/// The name of the file or directory that a path leads to.
pub fn name_of(path: &[char]) -> (r: Option<Vec<char>>)
    ensures
        match r {
            Some(name) => file_name(path@) == Some(name@),
            None => file_name(path@) is None,
        },
{
    let mut components: Vec<Vec<char>> = split_at_char(path, '/');
    let dot = chars_of(".");
    let dots = chars_of("..");
    proof {
        reveal_strlit("");
        reveal_strlit(".");
        reveal_strlit("..");
        assert(""@ =~= Seq::<char>::empty());
        assert(last_name(text::pieces(components@)) == file_name(path@));
    }
    while components.len() > 0
        invariant
            last_name(text::pieces(components@)) == file_name(path@),
            dot@ == "."@,
            dots@ == ".."@,
            ""@ == Seq::<char>::empty(),
        decreases components@.len(),
    {
        let ghost before = components@;
        let name = components.pop().unwrap();
        assert(text::pieces(before).last() == name@);
        assert(text::pieces(before).drop_last() =~= text::pieces(components@));
        let skipped: bool = name.len() == 0 || same_chars(&name, &dot);
        assert(name@.len() == 0 ==> name@ =~= Seq::<char>::empty());
        if !skipped {
            if same_chars(&name, &dots) {
                return None;
            }
            return Some(name);
        }
    }
    None
}

/// What follows the last dot of the file name.
pub fn extension_of(path: &[char]) -> (r: Option<Vec<char>>)
    ensures
        match r {
            Some(ext) => extension(path@) == Some(ext@),
            None => extension(path@) is None,
        },
{
    let name = match name_of(path) {
        Some(name) => name,
        None => return None,
    };
    let mut end: usize = name.len();
    assert(name@.take(end as int) =~= name@);
    while end > 0 && name[end - 1] != '.'
        invariant
            end <= name@.len(),
            last_dot(name@.take(end as int)) == last_dot(name@),
        decreases end,
    {
        assert(name@.take(end as int).drop_last() =~= name@.take(end - 1));
        end = end - 1;
    }
    if end > 1 {
        let ext = vstd::slice::slice_to_vec(slice_subrange(&name, end, name.len()));
        assert(ext@ =~= name@.skip(end as int));
        Some(ext)
    } else {
        None
    }
}

/// What is known of a path.
pub struct PathFacts {
    pub text: Seq<char>,
    /// It does not depend on a current directory.
    pub absolute: bool,
    /// The extension of its file name.
    pub extension: Option<Seq<char>>,
}

/// What POSIX rules say of a path.
pub open spec fn posix_facts(path: Seq<char>) -> PathFacts {
    PathFacts { text: path, absolute: is_absolute(path), extension: extension(path) }
}

/// A path with what the rules of its machine say of it.
#[derive(Debug)]
pub struct HostPath {
    pub text: String,
    /// It does not depend on a current directory.
    pub absolute: bool,
    /// The extension of its file name.
    pub extension: Option<String>,
}

impl View for HostPath {
    type V = PathFacts;

    open spec fn view(&self) -> PathFacts {
        PathFacts {
            text: self.text@,
            absolute: self.absolute,
            extension: text::string_option(self.extension),
        }
    }
}

impl HostPath {
    /// A path by POSIX rules.
    pub fn posix(path: String) -> (r: HostPath)
        ensures
            r@ == posix_facts(path@),
    {
        let chars = chars_of(path.as_str());
        let extension = match extension_of(&chars) {
            Some(ext) => Some(string_of(&ext)),
            None => None,
        };
        HostPath { text: path, absolute: absolute(&chars), extension }
    }
}

impl Clone for HostPath {
    fn clone(&self) -> (r: Self)
        ensures
            r == *self,
    {
        HostPath {
            text: self.text.clone(),
            absolute: self.absolute,
            extension: match &self.extension {
                Some(ext) => Some(ext.clone()),
                None => None,
            },
        }
    }
}

/// Where a file of a given name lies in a directory.
#[derive(Debug)]
pub enum Place {
    /// In this directory, by POSIX rules.
    Posix { dir: String },
    /// At this path, by the rules of the machine.
    Other { path: String },
}

/// The path of the file of this name.
pub open spec fn path_in(place: Place, name: Seq<char>) -> Seq<char> {
    match place {
        Place::Posix { dir } => join(dir@, name),
        Place::Other { path } => path@,
    }
}

/// A path starts at the root exactly when it starts with a slash.
pub proof fn law_root_is_a_slash(rest: Seq<char>, c: char)
    ensures
        is_absolute(seq!['/'] + rest),
        c != '/' ==> !is_absolute(seq![c] + rest),
        !is_absolute(Seq::empty()),
{
}

/// A name in a directory is written behind it and one slash; an absolute path stands for itself
/// wherever it is seen from.
pub proof fn law_join_puts_one_slash(dir: Seq<char>, name: Seq<char>)
    ensures
        dir.len() > 0 && dir[dir.len() - 1] != '/' && (name.len() == 0 || name[0] != '/') ==> join(dir, name) == dir
            + seq!['/'] + name,
        dir.len() > 0 && dir[dir.len() - 1] == '/' && (name.len() == 0 || name[0] != '/') ==> join(dir, name) == dir
            + name,
        name.len() > 0 && name[0] == '/' ==> join(dir, name) == name,
        dir.len() == 0 ==> join(dir, name) == name,
{
    assert(dir.push('/') + name =~= dir + seq!['/'] + name);
    assert(Seq::<char>::empty() + name =~= name);
    if dir.len() == 0 {
        assert(dir + name =~= name);
    }
}

proof fn lemma_last_piece(dir: Seq<char>, name: Seq<char>)
    requires
        !name.contains('/'),
    ensures
        text::split(dir + seq!['/'] + name, '/').last() == name,
        text::split(dir + seq!['/'] + name, '/').len() >= 2,
        text::split(dir + seq!['/'] + name, '/').drop_last() == text::split(dir, '/'),
{
    text::lemma_split_last(dir, '/', name);
    assert(text::split(dir, '/').push(name).drop_last() =~= text::split(dir, '/'));
}

proof fn lemma_last_dot(stem: Seq<char>, ext: Seq<char>)
    requires
        !ext.contains('.'),
    ensures
        last_dot(stem + seq!['.'] + ext) == Some(stem.len() as int),
    decreases ext.len(),
{
    let name = stem + seq!['.'] + ext;
    if ext.len() == 0 {
        assert(name.last() == '.');
    } else {
        assert(name.last() == ext.last());
        assert(ext.contains(ext.last()));
        assert(name.drop_last() =~= stem + seq!['.'] + ext.drop_last());
        assert(!ext.drop_last().contains('.')) by {
            if ext.drop_last().contains('.') {
                let i = ext.drop_last().index_of('.');
                assert(ext[i] == '.');
            }
        }
        lemma_last_dot(stem, ext.drop_last());
    }
}

proof fn lemma_no_dot(name: Seq<char>)
    requires
        !name.contains('.'),
    ensures
        last_dot(name) is None,
    decreases name.len(),
{
    if name.len() > 0 {
        assert(name.contains(name.last()));
        assert(!name.drop_last().contains('.')) by {
            if name.drop_last().contains('.') {
                let i = name.drop_last().index_of('.');
                assert(name[i] == '.');
            }
        }
        lemma_no_dot(name.drop_last());
    }
}

/// The extension of a path is what follows the last dot of its last name, wherever the path leads
/// through, and slashes at its end make no difference. A name without a dot, or with one in front
/// only, has none, whatever dots the directories have.
pub proof fn law_extension_follows_the_last_dot(dir: Seq<char>, stem: Seq<char>, ext: Seq<char>)
    requires
        forall|i: int| 0 <= i < stem.len() ==> stem[i] != '/',
        forall|i: int| 0 <= i < ext.len() ==> ext[i] != '/' && ext[i] != '.',
        stem.len() > 0,
        ext.len() > 0,
    ensures
        extension(dir + seq!['/'] + (stem + seq!['.'] + ext)) == Some(ext),
        extension(stem + seq!['.'] + ext) == Some(ext),
        extension(dir + seq!['/'] + (stem + seq!['.'] + ext) + seq!['/']) == Some(ext),
        extension(dir + seq!['/'] + ext) is None,
        extension(dir + seq!['/'] + (seq!['.'] + ext)) is None,
{
    let none = Seq::<char>::empty();
    let name = stem + seq!['.'] + ext;
    assert(!ext.contains('.') && !ext.contains('/'));
    assert(!name.contains('/'));
    reveal_strlit("");
    reveal_strlit(".");
    reveal_strlit("..");
    assert(""@ =~= none);
    lemma_last_dot(stem, ext);
    lemma_last_dot(none, ext);
    lemma_no_dot(ext);
    assert(name.skip(stem.len() as int + 1) =~= ext);
    assert(name[name.len() - 1] == ext[ext.len() - 1] && ext[ext.len() - 1] != '.');
    assert(name != ""@ && name != "."@ && name != ".."@) by {
        assert(name.len() >= 3);
    }
    lemma_last_piece(dir, name);
    text::lemma_split_none(name, '/');
    let path = dir + seq!['/'] + name;
    lemma_last_piece(path, none);
    assert(path + seq!['/'] + none =~= path + seq!['/']);
    assert(seq![name].last() == name);
    reveal_with_fuel(last_name, 2);
    lemma_last_piece(dir, ext);
    assert(ext[0] != '.');
    assert(ext != "."@ && ext != ".."@) by {
        assert("."@[0] == '.' && ".."@[0] == '.');
    }
    let hidden = seq!['.'] + ext;
    assert(none + seq!['.'] + ext =~= hidden);
    assert(!hidden.contains('/'));
    lemma_last_piece(dir, hidden);
    assert(hidden != ""@ && hidden != "."@ && hidden != ".."@) by {
        assert(hidden.len() >= 2 && hidden[1] == ext[0]);
        assert(".."@.len() == 2 && ".."@[1] == '.');
    }
}

/// What is known of a POSIX path: its text, that it starts at the root or not, and its extension.
pub proof fn law_posix_facts(path: Seq<char>, place: String, name: Seq<char>)
    ensures
        posix_facts(path).text == path,
        posix_facts(path).absolute <==> path.len() > 0 && path[0] == '/',
        posix_facts(path).extension == extension(path),
        path_in(Place::Posix { dir: place }, name) == join(place@, name),
        path_in(Place::Other { path: place }, name) == place@,
{
}

/// A dot as the last component leads nowhere else, and two dots lead to what has no name.
pub proof fn law_dots_at_the_end(path: Seq<char>)
    ensures
        extension(path + seq!['/']) == extension(path),
        extension(path + seq!['/', '.']) == extension(path),
        extension(path + seq!['/', '.', '.']) is None,
{
    reveal_strlit("");
    reveal_strlit(".");
    reveal_strlit("..");
    let none = Seq::<char>::empty();
    assert(""@ =~= none && "."@ =~= seq!['.'] && ".."@ =~= seq!['.', '.']);
    assert(path + seq!['/'] =~= path + seq!['/'] + none);
    assert(path + seq!['/', '.'] =~= path + seq!['/'] + seq!['.']);
    assert(path + seq!['/', '.', '.'] =~= path + seq!['/'] + seq!['.', '.']);
    lemma_last_piece(path, none);
    lemma_last_piece(path, seq!['.']);
    lemma_last_piece(path, seq!['.', '.']);
    assert(seq!['.', '.'].len() == 2 && seq!['.'].len() == 1);
}

} // verus!
