use vstd::prelude::*;
use crate::text::chars_from_str;

verus! {

/// What the highlighter is told about a language: which constructs it colors
/// and which identifiers count as its keywords.
pub struct HighlightingOptions {
    pub numbers: bool,
    pub strings: bool,
    pub characters: bool,
    pub comments: bool,
    pub multiline_comments: bool,
    pub primary_keywords: Vec<Vec<char>>,
    pub secondary_keywords: Vec<Vec<char>>,
}

/// The spec-level image of `HighlightingOptions`, with keyword lists as
/// sequences of character sequences.
pub struct OptionsView {
    pub numbers: bool,
    pub strings: bool,
    pub characters: bool,
    pub comments: bool,
    pub multiline_comments: bool,
    pub primary_keywords: Seq<Seq<char>>,
    pub secondary_keywords: Seq<Seq<char>>,
}

impl View for HighlightingOptions {
    type V = OptionsView;

    open spec fn view(&self) -> OptionsView {
        OptionsView {
            numbers: self.numbers,
            strings: self.strings,
            characters: self.characters,
            comments: self.comments,
            multiline_comments: self.multiline_comments,
            primary_keywords: self.primary_keywords.deep_view(),
            secondary_keywords: self.secondary_keywords.deep_view(),
        }
    }
}

/// Options of a language the editor knows nothing about: nothing is colored.
pub open spec fn plain_options() -> OptionsView {
    OptionsView {
        numbers: false,
        strings: false,
        characters: false,
        comments: false,
        multiline_comments: false,
        primary_keywords: Seq::empty(),
        secondary_keywords: Seq::empty(),
    }
}

/// The primary keywords of the one language of the registry.
pub open spec fn rust_primary_keywords() -> Seq<Seq<char>> {
    seq![
        "as"@, "break"@, "const"@, "continue"@, "crate"@, "else"@, "enum"@, "false"@, "fn"@,
        "for"@, "if"@, "impl"@, "in"@, "let"@, "loop"@, "match"@, "mod"@, "move"@, "mut"@,
        "pub"@, "ref"@, "return"@, "self"@, "struct"@, "super"@, "trait"@, "true"@, "type"@,
        "use"@, "where"@, "while"@,
    ]
}

/// Its secondary keywords: the names of the primitive types.
pub open spec fn rust_secondary_keywords() -> Seq<Seq<char>> {
    seq![
        "bool"@, "char"@, "i8"@, "i16"@, "i32"@, "i64"@, "isize"@, "u8"@, "u16"@, "u32"@,
        "u64"@, "usize"@, "str"@,
    ]
}

/// Everything is colored for this language.
pub open spec fn rust_options() -> OptionsView {
    OptionsView {
        numbers: true,
        strings: true,
        characters: true,
        comments: true,
        multiline_comments: true,
        primary_keywords: rust_primary_keywords(),
        secondary_keywords: rust_secondary_keywords(),
    }
}

/// A file name selects a language when it ends in the language's extension.
pub open spec fn names_rust_file(name: Seq<char>) -> bool {
    name.len() >= 3 && name[name.len() - 3] == '.' && name[name.len() - 2] == 'r' && name[
        name.len() - 1] == 's'
}

/// A language tag with the highlighting options that go with it: the registry
/// entry a document keeps once its path has been looked up.
pub struct FileType {
    pub name: String,
    pub hl_opts: HighlightingOptions,
}

impl FileType {
    /// An untitled or unrecognized file: no language, nothing highlighted.
    pub fn unknown() -> (ft: FileType)
        ensures
            ft.name@ == "No filetype"@,
            ft.hl_opts@ == plain_options(),
    {
        let ft = FileType {
            name: String::from_str("No filetype"),
            hl_opts: HighlightingOptions {
                numbers: false,
                strings: false,
                characters: false,
                comments: false,
                multiline_comments: false,
                primary_keywords: Vec::new(),
                secondary_keywords: Vec::new(),
            },
        };
        proof {
            assert(ft.hl_opts@.primary_keywords =~~= plain_options().primary_keywords);
            assert(ft.hl_opts@.secondary_keywords =~~= plain_options().secondary_keywords);
            assert(ft.hl_opts@ =~~= plain_options());
        }
        ft
    }

    /// Looks the file name up in the registry: a name ending in `.rs` selects
    /// the one known language, anything else stays unhighlighted.
    pub fn from(file_name: &str) -> (ft: FileType)
        ensures
            names_rust_file(file_name@) ==> ft.name@ == "Rust"@ && ft.hl_opts@ == rust_options(),
            !names_rust_file(file_name@) ==> ft.name@ == "No filetype"@ && ft.hl_opts@
                == plain_options(),
    {
        let n = file_name.unicode_len();
        if n >= 3 && file_name.get_char(n - 3) == '.' && file_name.get_char(n - 2) == 'r'
            && file_name.get_char(n - 1) == 's' {
            Self::rust()
        } else {
            Self::unknown()
        }
    }

    /// The registry entry for Rust sources.
    pub fn rust() -> (ft: FileType)
        ensures
            ft.name@ == "Rust"@,
            ft.hl_opts@ == rust_options(),
    {
        let mut primary: Vec<Vec<char>> = Vec::new();
        primary.push(chars_from_str("as"));
        primary.push(chars_from_str("break"));
        primary.push(chars_from_str("const"));
        primary.push(chars_from_str("continue"));
        primary.push(chars_from_str("crate"));
        primary.push(chars_from_str("else"));
        primary.push(chars_from_str("enum"));
        primary.push(chars_from_str("false"));
        primary.push(chars_from_str("fn"));
        primary.push(chars_from_str("for"));
        primary.push(chars_from_str("if"));
        primary.push(chars_from_str("impl"));
        primary.push(chars_from_str("in"));
        primary.push(chars_from_str("let"));
        primary.push(chars_from_str("loop"));
        primary.push(chars_from_str("match"));
        primary.push(chars_from_str("mod"));
        primary.push(chars_from_str("move"));
        primary.push(chars_from_str("mut"));
        primary.push(chars_from_str("pub"));
        primary.push(chars_from_str("ref"));
        primary.push(chars_from_str("return"));
        primary.push(chars_from_str("self"));
        primary.push(chars_from_str("struct"));
        primary.push(chars_from_str("super"));
        primary.push(chars_from_str("trait"));
        primary.push(chars_from_str("true"));
        primary.push(chars_from_str("type"));
        primary.push(chars_from_str("use"));
        primary.push(chars_from_str("where"));
        primary.push(chars_from_str("while"));
        let mut secondary: Vec<Vec<char>> = Vec::new();
        secondary.push(chars_from_str("bool"));
        secondary.push(chars_from_str("char"));
        secondary.push(chars_from_str("i8"));
        secondary.push(chars_from_str("i16"));
        secondary.push(chars_from_str("i32"));
        secondary.push(chars_from_str("i64"));
        secondary.push(chars_from_str("isize"));
        secondary.push(chars_from_str("u8"));
        secondary.push(chars_from_str("u16"));
        secondary.push(chars_from_str("u32"));
        secondary.push(chars_from_str("u64"));
        secondary.push(chars_from_str("usize"));
        secondary.push(chars_from_str("str"));
        let ft = FileType {
            name: String::from_str("Rust"),
            hl_opts: HighlightingOptions {
                numbers: true,
                strings: true,
                characters: true,
                comments: true,
                multiline_comments: true,
                primary_keywords: primary,
                secondary_keywords: secondary,
            },
        };
        proof {
            assert(ft.hl_opts@.primary_keywords =~~= rust_primary_keywords());
            assert(ft.hl_opts@.secondary_keywords =~~= rust_secondary_keywords());
            assert(ft.hl_opts@ =~~= rust_options());
        }
        ft
    }
}

} // verus!
