//! The extracted unit: one fenced code block whose tag names an executable
//! language, carried as raw bytes of the tag and of the body.

use vstd::prelude::*;

verus! {

/// One extracted fenced code block. `language` holds the fence tag as written
/// in the source text; `code` holds the body between the fences,
/// newline-preserving. Both are immutable once created.
pub struct CodeSnippet {
    pub language: Vec<u8>,
    pub code: Vec<u8>,
}

/// The mathematical value of a [`CodeSnippet`].
pub struct SnippetView {
    pub language: Seq<u8>,
    pub code: Seq<u8>,
}

impl View for CodeSnippet {
    type V = SnippetView;

    open spec fn view(&self) -> SnippetView {
        SnippetView { language: self.language@, code: self.code@ }
    }
}

impl DeepView for CodeSnippet {
    type V = SnippetView;

    open spec fn deep_view(&self) -> SnippetView {
        self@
    }
}

impl Clone for CodeSnippet {
    fn clone(&self) -> (r: Self)
        ensures
            r@ == self@,
    {
        let language = clone_bytes(&self.language);
        let code = clone_bytes(&self.code);
        CodeSnippet { language, code }
    }
}

/// Copies a byte vector; the copy holds exactly the same bytes.
pub fn clone_bytes(v: &Vec<u8>) -> (r: Vec<u8>)
    ensures
        r@ == v@,
{
    let r = v.clone();
    proof {
        assert forall|i: int| 0 <= i < v@.len() implies r@[i] == v@[i] by {
            assert(cloned::<u8>(v@[i], r@[i]));
        }
        assert(r@ =~= v@);
    }
    r
}

} // verus!
