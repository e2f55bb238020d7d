//! The fixed registry of languages whose snippets can be executed: which
//! markdown fence tags name each language, and what each language is called.
//! The registry is fixed at build time; resolution is pure and total.

use vstd::prelude::*;

verus! {

/// One supported language of the fixed registry.
#[derive(Clone, Copy, PartialEq, Eq, Structural, Debug)]
pub enum Language {
    Bash,
    Python,
    JavaScript,
    Ruby,
    Perl,
    Php,
}

/// The bytes of the fence tag "bash".
pub open spec fn tag_bash() -> Seq<u8> {
    seq![98u8, 97u8, 115u8, 104u8]
}

/// The bytes of the fence tag "sh".
pub open spec fn tag_sh() -> Seq<u8> {
    seq![115u8, 104u8]
}

/// The bytes of the fence tag "python".
pub open spec fn tag_python() -> Seq<u8> {
    seq![112u8, 121u8, 116u8, 104u8, 111u8, 110u8]
}

/// The bytes of the fence tag "python3".
pub open spec fn tag_python3() -> Seq<u8> {
    tag_python().push(51u8)
}

/// The bytes of the fence tag "js".
pub open spec fn tag_js() -> Seq<u8> {
    seq![106u8, 115u8]
}

/// The bytes of the fence tag "javascript".
pub open spec fn tag_javascript() -> Seq<u8> {
    seq![106u8, 97u8, 118u8, 97u8, 115u8, 99u8, 114u8, 105u8, 112u8, 116u8]
}

/// The bytes of the fence tag "node".
pub open spec fn tag_node() -> Seq<u8> {
    seq![110u8, 111u8, 100u8, 101u8]
}

/// The bytes of the fence tag "ruby".
pub open spec fn tag_ruby() -> Seq<u8> {
    seq![114u8, 117u8, 98u8, 121u8]
}

/// The bytes of the fence tag "perl".
pub open spec fn tag_perl() -> Seq<u8> {
    seq![112u8, 101u8, 114u8, 108u8]
}

/// The bytes of the fence tag "php".
pub open spec fn tag_php() -> Seq<u8> {
    seq![112u8, 104u8, 112u8]
}

/// The bytes of the sentinel tag "text", given to fenced blocks that carry no
/// tag of their own. It resolves to no language, so such blocks are never
/// executable.
pub open spec fn tag_text() -> Seq<u8> {
    seq![116u8, 101u8, 120u8, 116u8]
}

/// Which language, if any, a fence tag resolves to. Resolution is exact,
/// case-sensitive byte equality against the registered tag sets; the sets do
/// not overlap, so the first match is the only match.
pub open spec fn spec_find_language(tag: Seq<u8>) -> Option<Language> {
    if tag == tag_bash() || tag == tag_sh() {
        Some(Language::Bash)
    } else if tag == tag_python() || tag == tag_python3() {
        Some(Language::Python)
    } else if tag == tag_js() || tag == tag_javascript() || tag == tag_node() {
        Some(Language::JavaScript)
    } else if tag == tag_ruby() {
        Some(Language::Ruby)
    } else if tag == tag_perl() {
        Some(Language::Perl)
    } else if tag == tag_php() {
        Some(Language::Php)
    } else {
        None
    }
}

/// Looks a fence tag up in the registry.
pub fn find_language(tag: &[u8]) -> (r: Option<Language>)
    ensures
        r == spec_find_language(tag@),
{
    if tag.len() == 4 && tag[0] == 98 && tag[1] == 97 && tag[2] == 115 && tag[3] == 104 {
        proof {
            assert(tag@ =~= tag_bash());
        }
        Some(Language::Bash)
    } else if tag.len() == 2 && tag[0] == 115 && tag[1] == 104 {
        proof {
            assert(tag@ =~= tag_sh());
        }
        Some(Language::Bash)
    } else if tag.len() == 6 && tag[0] == 112 && tag[1] == 121 && tag[2] == 116 && tag[3] == 104
        && tag[4] == 111 && tag[5] == 110 {
        proof {
            assert(tag@ =~= tag_python());
        }
        Some(Language::Python)
    } else if tag.len() == 7 && tag[0] == 112 && tag[1] == 121 && tag[2] == 116 && tag[3] == 104
        && tag[4] == 111 && tag[5] == 110 && tag[6] == 51 {
        proof {
            assert(tag@ =~= tag_python3());
        }
        Some(Language::Python)
    } else if tag.len() == 2 && tag[0] == 106 && tag[1] == 115 {
        proof {
            assert(tag@ =~= tag_js());
        }
        Some(Language::JavaScript)
    } else if tag.len() == 10 && tag[0] == 106 && tag[1] == 97 && tag[2] == 118 && tag[3] == 97
        && tag[4] == 115 && tag[5] == 99 && tag[6] == 114 && tag[7] == 105 && tag[8] == 112
        && tag[9] == 116 {
        proof {
            assert(tag@ =~= tag_javascript());
        }
        Some(Language::JavaScript)
    } else if tag.len() == 4 && tag[0] == 110 && tag[1] == 111 && tag[2] == 100 && tag[3] == 101 {
        proof {
            assert(tag@ =~= tag_node());
        }
        Some(Language::JavaScript)
    } else if tag.len() == 4 && tag[0] == 114 && tag[1] == 117 && tag[2] == 98 && tag[3] == 121 {
        proof {
            assert(tag@ =~= tag_ruby());
        }
        Some(Language::Ruby)
    } else if tag.len() == 4 && tag[0] == 112 && tag[1] == 101 && tag[2] == 114 && tag[3] == 108 {
        proof {
            assert(tag@ =~= tag_perl());
        }
        Some(Language::Perl)
    } else if tag.len() == 3 && tag[0] == 112 && tag[1] == 104 && tag[2] == 112 {
        proof {
            assert(tag@ =~= tag_php());
        }
        Some(Language::Php)
    } else {
        None
    }
}

/// The canonical display name of each language.
pub open spec fn spec_name(l: Language) -> Seq<char> {
    match l {
        Language::Bash => "Bash"@,
        Language::Python => "Python"@,
        Language::JavaScript => "JavaScript"@,
        Language::Ruby => "Ruby"@,
        Language::Perl => "Perl"@,
        Language::Php => "PHP"@,
    }
}

impl Language {
    /// The canonical name shown for this language.
    pub fn name(&self) -> (r: &'static str)
        ensures
            r@ == spec_name(*self),
    {
        match *self {
            Language::Bash => "Bash",
            Language::Python => "Python",
            Language::JavaScript => "JavaScript",
            Language::Ruby => "Ruby",
            Language::Perl => "Perl",
            Language::Php => "PHP",
        }
    }
}

/// Whether a fence tag names an executable language.
pub fn is_executable(tag: &[u8]) -> (r: bool)
    ensures
        r == spec_find_language(tag@).is_some(),
{
    find_language(tag).is_some()
}

} // verus!
