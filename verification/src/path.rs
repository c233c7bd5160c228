//! Paths as sequences of characters.
//!
//! A path is a string whose components are separated by `/`. Its file name
//! is what follows the last separator; the file name splits at its last `.`
//! into a stem and an extension, unless that dot is the first character of
//! the name (a hidden file has no extension) or there is no dot at all.
//! Nothing here touches the file system.

use crate::format::ImageFormat;
use vstd::prelude::*;
use vstd::string::*;

verus! {

/// The character that separates the components of a path.
pub const SEPARATOR: char = '/';

/// The character that separates a file stem from its extension.
pub const EXTENSION_DOT: char = '.';

/// The position of the last occurrence of `c` in `s`, or `-1` if `c` does
/// not occur.
pub open spec fn last_index_of(s: Seq<char>, c: char) -> int
    decreases s.len(),
{
    if s.len() == 0 {
        -1
    } else if s.last() == c {
        s.len() - 1
    } else {
        last_index_of(s.drop_last(), c)
    }
}

/// Whether `c` occurs nowhere in `s`.
pub open spec fn free_of(s: Seq<char>, c: char) -> bool {
    forall|i: int| 0 <= i < s.len() ==> s[i] != c
}

/// Where the file name of `path` begins: one past its last separator.
pub open spec fn name_start(path: Seq<char>) -> int {
    last_index_of(path, SEPARATOR) + 1
}

/// The directory part of `path`, up to and including its last separator.
pub open spec fn directory_prefix(path: Seq<char>) -> Seq<char> {
    path.take(name_start(path))
}

/// The final component of `path`.
pub open spec fn file_name(path: Seq<char>) -> Seq<char> {
    path.skip(name_start(path))
}

/// How many characters of the file name `name` form its stem.
pub open spec fn stem_len(name: Seq<char>) -> int {
    let dot = last_index_of(name, EXTENSION_DOT);
    if dot <= 0 {
        name.len() as int
    } else {
        dot
    }
}

/// The file name of `path` without its extension.
pub open spec fn file_stem(path: Seq<char>) -> Seq<char> {
    file_name(path).take(stem_len(file_name(path)))
}

/// The extension of `path`, without the dot, if its file name has one.
pub open spec fn extension(path: Seq<char>) -> Option<Seq<char>> {
    let name = file_name(path);
    let dot = last_index_of(name, EXTENSION_DOT);
    if dot <= 0 {
        None
    } else {
        Some(name.skip(dot + 1))
    }
}

/// `path` with the extension of its file name replaced by `ext`, or with
/// `ext` added where it has none.
pub open spec fn with_extension(path: Seq<char>, ext: Seq<char>) -> Seq<char> {
    directory_prefix(path) + file_stem(path) + seq![EXTENSION_DOT] + ext
}

/// `name` placed inside the directory `dir`. An empty `dir` stands for the
/// current directory and adds nothing.
pub open spec fn join(dir: Seq<char>, name: Seq<char>) -> Seq<char> {
    if dir.len() == 0 {
        name
    } else if dir.last() == SEPARATOR {
        dir + name
    } else {
        dir + seq![SEPARATOR] + name
    }
}

/// Where the converted form of `input` is written. Without an output
/// directory it lies beside the input, with the extension swapped. With one
/// it lies directly inside that directory, whatever directories led to the
/// input.
pub open spec fn resolved_path(
    input: Seq<char>,
    output_directory: Option<Seq<char>>,
    ext: Seq<char>,
) -> Seq<char> {
    match output_directory {
        None => with_extension(input, ext),
        Some(dir) => join(dir, file_stem(input)) + seq![EXTENSION_DOT] + ext,
    }
}

/// The view of an optional string.
pub open spec fn optional_view(s: Option<String>) -> Option<Seq<char>> {
    match s {
        None => None,
        Some(s) => Some(s@),
    }
}

/// `last_index_of` returns an occurrence of `c` after which `c` does not
/// occur again.
pub proof fn lemma_last_index_of(s: Seq<char>, c: char)
    ensures
        -1 <= last_index_of(s, c) < s.len(),
        last_index_of(s, c) >= 0 ==> s[last_index_of(s, c)] == c,
        forall|i: int| last_index_of(s, c) < i < s.len() ==> s[i] != c,
    decreases s.len(),
{
    if s.len() > 0 && s.last() != c {
        lemma_last_index_of(s.drop_last(), c);
        assert forall|i: int| last_index_of(s, c) < i < s.len() implies s[i] != c by {
            if i < s.len() - 1 {
                assert(s.drop_last()[i] == s[i]);
            }
        }
    }
}

/// Only one position is an occurrence of `c` with none after it.
pub proof fn lemma_last_index_unique(s: Seq<char>, c: char, k: int)
    requires
        -1 <= k < s.len(),
        k >= 0 ==> s[k] == c,
        forall|i: int| k < i < s.len() ==> s[i] != c,
    ensures
        last_index_of(s, c) == k,
{
    lemma_last_index_of(s, c);
}

/// The last occurrence in a concatenation lies in the second part if `c`
/// occurs there, and else is the last occurrence in the first part.
pub proof fn lemma_last_index_concat(a: Seq<char>, b: Seq<char>, c: char)
    ensures
        last_index_of(a + b, c) == if last_index_of(b, c) >= 0 {
            a.len() + last_index_of(b, c)
        } else {
            last_index_of(a, c)
        },
{
    lemma_last_index_of(a, c);
    lemma_last_index_of(b, c);
    let k = if last_index_of(b, c) >= 0 {
        a.len() + last_index_of(b, c)
    } else {
        last_index_of(a, c)
    };
    lemma_last_index_unique(a + b, c, k);
}

/// A file name holds no separator, and neither does a stem.
pub proof fn lemma_name_has_no_separator(path: Seq<char>)
    ensures
        free_of(file_name(path), SEPARATOR),
        free_of(file_stem(path), SEPARATOR),
        0 <= name_start(path) <= path.len(),
        0 <= stem_len(file_name(path)) <= file_name(path).len(),
        file_name(path).len() > 0 ==> file_stem(path).len() > 0,
{
    lemma_last_index_of(path, SEPARATOR);
    lemma_last_index_of(file_name(path), EXTENSION_DOT);
}

/// A path made of a directory prefix and a name without separators has
/// that name as its file name.
pub proof fn lemma_name_after_prefix(prefix: Seq<char>, name: Seq<char>)
    requires
        prefix.len() == 0 || prefix.last() == SEPARATOR,
        free_of(name, SEPARATOR),
    ensures
        name_start(prefix + name) == prefix.len(),
        directory_prefix(prefix + name) == prefix,
        file_name(prefix + name) == name,
{
    lemma_last_index_of(name, SEPARATOR);
    lemma_last_index_concat(prefix, name, SEPARATOR);
}

/// A file name made of a stem that is not empty, a dot and an extension
/// without dots splits into just these.
pub proof fn lemma_stem_dot_extension(stem: Seq<char>, ext: Seq<char>)
    requires
        free_of(ext, EXTENSION_DOT),
    ensures
        last_index_of(stem + seq![EXTENSION_DOT] + ext, EXTENSION_DOT) == stem.len(),
        stem.len() > 0 ==> stem_len(stem + seq![EXTENSION_DOT] + ext) == stem.len(),
{
    let dotted = stem + seq![EXTENSION_DOT];
    lemma_last_index_of(ext, EXTENSION_DOT);
    lemma_last_index_concat(dotted, ext, EXTENSION_DOT);
}

/// What a resolved path is made of: a directory prefix, the stem of the
/// input, a dot and the extension. The prefix is that of the input where no
/// output directory is given, and else the output directory, closed by a
/// separator unless it is empty.
pub proof fn lemma_resolved_parts(
    input: Seq<char>,
    output_directory: Option<Seq<char>>,
    ext: Seq<char>,
)
    requires
        free_of(ext, SEPARATOR),
        free_of(ext, EXTENSION_DOT),
    ensures
        directory_prefix(resolved_path(input, output_directory, ext)) == match output_directory {
            None => directory_prefix(input),
            Some(dir) => join(dir, Seq::empty()),
        },
        file_name(resolved_path(input, output_directory, ext)) == file_stem(input)
            + seq![EXTENSION_DOT] + ext,
        file_stem(input).len() > 0 ==> file_stem(resolved_path(input, output_directory, ext))
            == file_stem(input),
        file_stem(input).len() > 0 ==> extension(resolved_path(input, output_directory, ext))
            == Some(ext),
        file_stem(input).len() == 0 ==> extension(resolved_path(input, output_directory, ext))
            is None,
{
    let stem = file_stem(input);
    let name = stem + seq![EXTENSION_DOT] + ext;
    let prefix = match output_directory {
        None => directory_prefix(input),
        Some(dir) => join(dir, Seq::empty()),
    };
    lemma_name_has_no_separator(input);
    lemma_last_index_of(input, SEPARATOR);
    assert(resolved_path(input, output_directory, ext) =~= prefix + name);
    lemma_name_after_prefix(prefix, name);
    lemma_stem_dot_extension(stem, ext);
}

/// With an output directory, the resolved path keeps nothing of the input
/// but its stem: two inputs with one stem, wherever they lie, resolve to one
/// and the same path.
pub proof fn lemma_flattening_collides(
    first: Seq<char>,
    second: Seq<char>,
    output_directory: Seq<char>,
    ext: Seq<char>,
)
    requires
        file_stem(first) == file_stem(second),
    ensures
        resolved_path(first, Some(output_directory), ext) == resolved_path(
            second,
            Some(output_directory),
            ext,
        ),
{
}

/// Without an output directory, the resolved path lies in the directory of
/// the input and differs from it in the extension alone.
pub proof fn lemma_in_place(input: Seq<char>, format: ImageFormat)
    requires
        file_name(input).len() > 0,
    ensures
        directory_prefix(resolved_path(input, None, format.spec_extension())) == directory_prefix(
            input,
        ),
        file_stem(resolved_path(input, None, format.spec_extension())) == file_stem(input),
        extension(resolved_path(input, None, format.spec_extension())) == Some(
            format.spec_extension(),
        ),
{
    format.lemma_extension_is_plain();
    lemma_name_has_no_separator(input);
    lemma_resolved_parts(input, None, format.spec_extension());
}

/// The characters of a string, in order.
pub fn chars_of(s: &str) -> (chars: Vec<char>)
    ensures
        chars@ == s@,
{
    let mut chars: Vec<char> = Vec::new();
    for c in it: s.chars()
        invariant
            it.seq() == s@,
            chars@ == it.seq().take(it.index() as int),
    {
        chars.push(c);
    }
    chars
}

/// Searches `chars` from `start` on for the last occurrence of `c`.
fn last_position(chars: &Vec<char>, start: usize, c: char) -> (found: Option<usize>)
    requires
        start <= chars.len(),
    ensures
        match found {
            Some(i) => start <= i < chars.len() && last_index_of(chars@.skip(start as int), c) == i
                - start,
            None => last_index_of(chars@.skip(start as int), c) == -1,
        },
{
    let ghost tail = chars@.skip(start as int);
    let mut i: usize = chars.len();
    while i > start
        invariant
            start <= i <= chars.len(),
            tail == chars@.skip(start as int),
            forall|j: int| i - start <= j < tail.len() ==> tail[j] != c,
        decreases i,
    {
        i -= 1;
        if chars[i] == c {
            proof {
                lemma_last_index_unique(tail, c, i - start);
            }
            return Some(i);
        }
    }
    proof {
        lemma_last_index_unique(tail, c, -1);
    }
    None
}

/// Where the file name begins and where its stem ends, as positions in
/// `chars`.
fn locate(chars: &Vec<char>) -> (at: (usize, usize))
    ensures
        at.0 == name_start(chars@),
        at.1 == name_start(chars@) + stem_len(file_name(chars@)),
        at.0 <= at.1 <= chars.len(),
{
    proof {
        lemma_name_has_no_separator(chars@);
        assert(chars@.skip(0) =~= chars@);
    }
    let begin: usize = match last_position(chars, 0, SEPARATOR) {
        Some(i) => i + 1,
        None => 0,
    };
    let end: usize = match last_position(chars, begin, EXTENSION_DOT) {
        Some(dot) => if dot > begin {
            dot
        } else {
            chars.len()
        },
        None => chars.len(),
    };
    (begin, end)
}

/// The final component of `path`: what follows its last separator.
pub fn name_of(path: &str) -> (name: &str)
    ensures
        name@ == file_name(path@),
{
    let chars = chars_of(path);
    let at = locate(&chars);
    path.substring_char(at.0, chars.len())
}

/// The file name of `path` without its extension.
pub fn stem_of(path: &str) -> (stem: &str)
    ensures
        stem@ == file_stem(path@),
{
    let chars = chars_of(path);
    let at = locate(&chars);
    path.substring_char(at.0, at.1)
}

/// The extension of `path`, if its file name has one.
pub fn extension_of(path: &str) -> (ext: Option<&str>)
    ensures
        match ext {
            Some(e) => extension(path@) == Some(e@),
            None => extension(path@) is None,
        },
{
    let chars = chars_of(path);
    let at = locate(&chars);
    if at.1 < chars.len() {
        Some(path.substring_char(at.1 + 1, chars.len()))
    } else {
        proof {
            lemma_last_index_of(file_name(path@), EXTENSION_DOT);
        }
        None
    }
}

/// `path` with the extension of its file name replaced by `ext`.
pub fn replace_extension(path: &str, ext: &str) -> (replaced: String)
    ensures
        replaced@ == with_extension(path@, ext@),
{
    let chars = chars_of(path);
    let at = locate(&chars);
    let mut replaced = String::from_str(path.substring_char(0, at.1));
    proof {
        reveal_strlit(".");
    }
    replaced.append(".");
    replaced.append(ext);
    replaced
}

/// `name` placed inside the directory `dir`.
pub fn join_path(dir: &str, name: &str) -> (joined: String)
    ensures
        joined@ == join(dir@, name@),
{
    let chars = chars_of(dir);
    let mut joined = String::from_str(dir);
    if chars.len() > 0 && chars[chars.len() - 1] != SEPARATOR {
        proof {
            reveal_strlit("/");
        }
        joined.append("/");
    }
    joined.append(name);
    joined
}

/// Where the converted form of `input_path` is written: beside the input
/// where no output directory is given, and else directly inside that
/// directory.
pub fn resolve(input_path: &str, output_directory: &Option<String>, format: &ImageFormat) -> (output_path: String)
    ensures
        output_path@ == resolved_path(
            input_path@,
            optional_view(*output_directory),
            format.spec_extension(),
        ),
{
    match output_directory {
        None => replace_extension(input_path, format.extension()),
        Some(dir) => {
            let mut output_path = join_path(dir.as_str(), stem_of(input_path));
            proof {
                reveal_strlit(".");
            }
            output_path.append(".");
            output_path.append(format.extension());
            output_path
        },
    }
}

} // verus!
