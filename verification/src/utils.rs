//! Putting the text of a module in the place of the call that loaded it.

use crate::visitor::{function_call_text, ParentType, Visitor};
use vstd::prelude::*;
use vstd::string::*;
use vstd::utf8::encode_utf8;

verus! {

/// The text that stands for a module at its load site, over characters: the
/// module as it is where the call stood alone as a statement, and the module
/// as the body of an anonymous function called on the spot where the value of
/// the call was used.
pub open spec fn func_call_text(code: Seq<char>, parent_type: ParentType) -> Seq<char> {
    match parent_type {
        ParentType::Stmt => code,
        ParentType::Assignment => "(function() "@ + code + " end)()"@,
    }
}

/// The same over bytes, as the bundler splices it.
pub open spec fn embedded(block: Seq<u8>, parent_type: ParentType) -> Seq<u8> {
    match parent_type {
        ParentType::Stmt => block,
        ParentType::Assignment => function_call_text(block),
    }
}

/// The line that names the bundler and where it is kept, put before a
/// finished bundle.
pub open spec fn banner() -> Seq<u8> {
    "-- This file was bundled by https://github.com/kaorlol/moon-bundler\n\n".spec_bytes()
}

/// The text that replaces a load call whose module has the text
/// `code_to_wrap`.
pub fn create_func_call(code_to_wrap: &str, parent_type: &ParentType) -> (r: String)
    ensures
        r@ == func_call_text(code_to_wrap@, *parent_type),
{
    match parent_type {
        ParentType::Stmt => code_to_wrap.to_owned(),
        ParentType::Assignment => {
            let mut out = "(function() ".to_owned();
            out.append(code_to_wrap);
            out.append(" end)()");
            out
        },
    }
}

/// The bytes that replace a load call whose module has the bytes `block`.
pub fn embed(block: &Vec<u8>, parent_type: ParentType) -> (r: Vec<u8>)
    ensures
        r@ == embedded(block@, parent_type),
{
    match parent_type {
        ParentType::Stmt => {
            let mut out: Vec<u8> = Vec::new();
            out.extend_from_slice(block.as_slice());
            out
        },
        ParentType::Assignment => {
            let visitor = Visitor;
            visitor.create_function_call(block)
        },
    }
}

/// The bundle with the banner before it.
pub fn add_banner(code: &Vec<u8>) -> (r: Vec<u8>)
    ensures
        r@ == banner() + code@,
{
    let mut out = "-- This file was bundled by https://github.com/kaorlol/moon-bundler\n\n".as_bytes_vec();
    out.extend_from_slice(code.as_slice());
    out
}

/// The bytes of two texts one after the other are the bytes of the first,
/// then those of the second.
pub proof fn lemma_encode_concat(a: Seq<char>, b: Seq<char>)
    ensures
        encode_utf8(a + b) == encode_utf8(a) + encode_utf8(b),
    decreases a.len(),
{
    if a.len() == 0 {
        assert(a + b =~= b);
        assert(encode_utf8(a) + encode_utf8(b) =~= encode_utf8(b));
    } else {
        assert((a + b).drop_first() =~= a.drop_first() + b);
        assert((a + b)[0] == a[0]);
        lemma_encode_concat(a.drop_first(), b);
        let head = vstd::utf8::encode_scalar(a[0] as u32);
        assert(head + (encode_utf8(a.drop_first()) + encode_utf8(b)) =~= (head + encode_utf8(
            a.drop_first(),
        )) + encode_utf8(b));
    }
}

/// The two forms of the replacement agree: written over characters and then
/// encoded, or written over the encoded module, it is the same bytes.
pub proof fn lemma_func_call_bytes(code: Seq<char>, parent_type: ParentType)
    ensures
        encode_utf8(func_call_text(code, parent_type)) == embedded(encode_utf8(code), parent_type),
{
    if parent_type == ParentType::Assignment {
        lemma_encode_concat("(function() "@ + code, " end)()"@);
        lemma_encode_concat("(function() "@, code);
    }
}

/// A module loaded for its effects only is spliced in as it is.
pub proof fn lemma_statement_unwrapped(block: Seq<u8>)
    ensures
        embedded(block, ParentType::Stmt) == block,
{
}

} // verus!
