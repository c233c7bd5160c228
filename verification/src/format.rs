//! The target formats, the extension each one writes, and the files each one
//! is willing to read.

use crate::path::{
    chars_of, extension, extension_of, free_of, lemma_resolved_parts, resolved_path,
    EXTENSION_DOT, SEPARATOR,
};
use vstd::prelude::*;
use vstd::string::*;

verus! {

/// The lower-case form of an ASCII letter; any other character is itself.
pub open spec fn lower(c: char) -> char {
    if 'A' as u32 <= c as u32 && c as u32 <= 'Z' as u32 {
        ((c as u32 + 32) as u8) as char
    } else {
        c
    }
}

/// `s` with every ASCII letter in lower case.
pub open spec fn lowercase(s: Seq<char>) -> Seq<char> {
    Seq::new(s.len(), |i: int| lower(s[i]))
}

/// The extensions, in lower case, of the files that can be read as images.
pub open spec fn image_extensions() -> Seq<Seq<char>> {
    seq![
        seq!['p', 'n', 'g'],
        seq!['j', 'p', 'g'],
        seq!['j', 'p', 'e', 'g'],
        seq!['g', 'i', 'f'],
        seq!['b', 'm', 'p'],
        seq!['t', 'i', 'f'],
        seq!['t', 'i', 'f', 'f'],
        seq!['w', 'e', 'b', 'p'],
    ]
}

/// Whether `ext`, taken as it stands, is the extension of an image file.
pub open spec fn is_image_extension(ext: Seq<char>) -> bool {
    image_extensions().contains(ext)
}

/// The format that every image found is converted into.
#[derive(Clone, Copy, Debug, PartialEq, Eq, Structural)]
pub enum ImageFormat {
    /// WebP, written without loss.
    Webp,
    /// AVIF. It can be chosen, but no encoder for it is built in yet.
    Avif,
}

impl ImageFormat {
    /// The extension, in lower case and without the dot, of the files
    /// written in this format.
    pub open spec fn spec_extension(self) -> Seq<char> {
        match self {
            ImageFormat::Webp => seq!['w', 'e', 'b', 'p'],
            ImageFormat::Avif => seq!['a', 'v', 'i', 'f'],
        }
    }

    /// Whether an encoder for this format is built in.
    pub open spec fn spec_has_encoder(self) -> bool {
        self is Webp
    }

    /// Whether the file at `path` is to be converted into this format: its
    /// extension, letter case aside, is that of an image and is not the
    /// extension this format writes.
    pub open spec fn accepts(self, path: Seq<char>) -> bool {
        match extension(path) {
            None => false,
            Some(ext) => is_image_extension(lowercase(ext)) && lowercase(ext)
                != self.spec_extension(),
        }
    }

    /// The format that `name` stands for, letter case aside.
    pub open spec fn spec_from_name(name: Seq<char>) -> Option<ImageFormat> {
        if lowercase(name) == ImageFormat::Webp.spec_extension() {
            Some(ImageFormat::Webp)
        } else if lowercase(name) == ImageFormat::Avif.spec_extension() {
            Some(ImageFormat::Avif)
        } else {
            None
        }
    }

    /// The extension of a format is not empty, is in lower case, and holds
    /// neither a dot nor a separator.
    pub proof fn lemma_extension_is_plain(self)
        ensures
            self.spec_extension().len() > 0,
            lowercase(self.spec_extension()) == self.spec_extension(),
            free_of(self.spec_extension(), EXTENSION_DOT),
            free_of(self.spec_extension(), SEPARATOR),
    {
    }

    /// What a conversion writes is never taken as input again: the path that
    /// `input` resolves to is not accepted by the format it was resolved for.
    pub proof fn lemma_output_is_not_input(
        self,
        input: Seq<char>,
        output_directory: Option<Seq<char>>,
    )
        ensures
            !self.accepts(resolved_path(input, output_directory, self.spec_extension())),
    {
        self.lemma_extension_is_plain();
        lemma_resolved_parts(input, output_directory, self.spec_extension());
    }

    /// The extension of the files written in this format.
    pub fn extension(&self) -> (ext: &'static str)
        ensures
            ext@ == self.spec_extension(),
    {
        match self {
            ImageFormat::Webp => {
                proof {
                    reveal_strlit("webp");
                }
                "webp"
            },
            ImageFormat::Avif => {
                proof {
                    reveal_strlit("avif");
                }
                "avif"
            },
        }
    }

    /// Whether an encoder for this format is built in.
    pub fn has_encoder(&self) -> (built_in: bool)
        ensures
            built_in == self.spec_has_encoder(),
    {
        match self {
            ImageFormat::Webp => true,
            ImageFormat::Avif => false,
        }
    }

    /// Whether the file at `path` is to be converted into this format. A
    /// file that already carries the extension of this format never is.
    pub fn is_supported_input(&self, path: &str) -> (supported: bool)
        ensures
            supported == self.accepts(path@),
            extension(path@) is Some && lowercase(extension(path@)->0) == self.spec_extension()
                ==> !supported,
    {
        match extension_of(path) {
            None => false,
            Some(ext) => {
                let lowered = lowered_chars(ext);
                if same_chars(&lowered, self.extension()) {
                    false
                } else {
                    is_image(&lowered)
                }
            },
        }
    }

    /// The format that `name` stands for, letter case aside: `webp` or
    /// `avif`.
    pub fn from_name(name: &str) -> (format: Option<ImageFormat>)
        ensures
            format == ImageFormat::spec_from_name(name@),
    {
        let lowered = lowered_chars(name);
        if same_chars(&lowered, ImageFormat::Webp.extension()) {
            Some(ImageFormat::Webp)
        } else if same_chars(&lowered, ImageFormat::Avif.extension()) {
            Some(ImageFormat::Avif)
        } else {
            None
        }
    }
}

/// The lower-case form of an ASCII letter; any other character is itself.
pub fn to_lower(c: char) -> (l: char)
    ensures
        l == lower(c),
{
    let code: u32 = c as u32;
    if 65 <= code && code <= 90 {
        ((code + 32) as u8) as char
    } else {
        c
    }
}

/// The characters of `s`, every ASCII letter in lower case.
fn lowered_chars(s: &str) -> (lowered: Vec<char>)
    ensures
        lowered@ == lowercase(s@),
{
    let chars = chars_of(s);
    let mut lowered: Vec<char> = Vec::new();
    let mut i: usize = 0;
    while i < chars.len()
        invariant
            i <= chars.len(),
            chars@ == s@,
            lowered@ == lowercase(s@.take(i as int)),
        decreases chars.len() - i,
    {
        lowered.push(to_lower(chars[i]));
        i += 1;
    }
    lowered
}

/// Whether `chars` spells `word`.
fn same_chars(chars: &Vec<char>, word: &str) -> (same: bool)
    ensures
        same == (chars@ == word@),
{
    let other = chars_of(word);
    if chars.len() != other.len() {
        return false;
    }
    let mut i: usize = 0;
    while i < chars.len()
        invariant
            i <= chars.len(),
            chars.len() == other.len(),
            other@ == word@,
            forall|j: int| 0 <= j < i ==> chars@[j] == other@[j],
        decreases chars.len() - i,
    {
        if chars[i] != other[i] {
            return false;
        }
        i += 1;
    }
    assert(chars@ =~= other@);
    true
}

/// Whether `ext`, taken as it stands, is the extension of an image file.
fn is_image(ext: &Vec<char>) -> (image: bool)
    ensures
        image == is_image_extension(ext@),
{
    proof {
        reveal_strlit("png");
        reveal_strlit("jpg");
        reveal_strlit("jpeg");
        reveal_strlit("gif");
        reveal_strlit("bmp");
        reveal_strlit("tif");
        reveal_strlit("tiff");
        reveal_strlit("webp");
        let known = image_extensions();
        assert(known[0] =~= "png"@);
        assert(known[1] =~= "jpg"@);
        assert(known[2] =~= "jpeg"@);
        assert(known[3] =~= "gif"@);
        assert(known[4] =~= "bmp"@);
        assert(known[5] =~= "tif"@);
        assert(known[6] =~= "tiff"@);
        assert(known[7] =~= "webp"@);
    }
    same_chars(ext, "png") || same_chars(ext, "jpg") || same_chars(ext, "jpeg") || same_chars(
        ext,
        "gif",
    ) || same_chars(ext, "bmp") || same_chars(ext, "tif") || same_chars(ext, "tiff")
        || same_chars(ext, "webp")
}

} // verus!
