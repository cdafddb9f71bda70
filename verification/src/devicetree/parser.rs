//! The structure block as a stream of tokens, read without a word on what
//! goes wrong.
//!
//! The parser is for blocks that are known to be sound. Where the tokenizer
//! gives an error, the parser gives nothing, or asks of its caller that the
//! case does not arise.

use vstd::prelude::*;
use vstd::utf8::valid_utf8;
use vstd::string::StringSliceAdditionalSpecFns;
use crate::bytes::read_be_u32;
use crate::devicetree::cells::{
    c_string, find_byte, lemma_index_of, utf8_text, FDT_BEGIN_NODE, FDT_END, FDT_END_NODE,
    FDT_NOP, FDT_PROP,
};
use crate::devicetree::error::DeviceTreeError;
use crate::devicetree::tokenizer::{
    aligned_within, behind_nops, lemma_behind_nops, token_at, ParamModel, TokenizerModel,
};

verus! {

/// The bytes of the text that `bytes` encode; those of the word `ERROR`
/// where they encode none.
pub open spec fn text_or_error(bytes: Seq<u8>) -> Seq<u8> {
    if valid_utf8(bytes) {
        bytes
    } else {
        "ERROR".spec_bytes()
    }
}

/// Whether the token `token` stands at byte `position` of `structure`.
pub open spec fn token_is(structure: Seq<u8>, position: int, token: u32) -> bool {
    token_at(structure, position) == Ok::<u32, DeviceTreeError>(token)
}

impl TokenizerModel {
    /// The position behind the tokens without meaning.
    pub open spec fn behind(self) -> int {
        behind_nops(self.structure, self.position)
    }

    /// The name that stands at the position, tokens without meaning being
    /// stepped over first, and the position behind it.
    pub open spec fn plain_string(self) -> (Seq<u8>, int) {
        let text = text_or_error(c_string(self.structure, self.behind())->0);
        (text, self.at(self.behind()).moved(text.len() as int + 1))
    }

    /// Whether the start of a node that comes next can be read: its name
    /// ends within the structure block.
    pub open spec fn node_readable(self) -> bool {
        token_is(self.structure, self.behind(), FDT_BEGIN_NODE) ==> c_string(
            self.structure,
            self.at(self.behind() + 4).behind(),
        ) is Some
    }

    /// The length that the property at the position tells.
    pub open spec fn param_len(self) -> int {
        token_at(self.structure, self.behind() + 4)->Ok_0 as int
    }

    /// The offset of the name that the property at the position tells.
    pub open spec fn param_nameoff(self) -> int {
        token_at(self.structure, self.behind() + 8)->Ok_0 as int
    }

    /// Whether a property that comes next can be read: length and name
    /// offset are there, the value lies within the structure block, and the
    /// name ends within the strings block.
    pub open spec fn param_readable(self) -> bool {
        token_is(self.structure, self.behind(), FDT_PROP) ==> {
            &&& token_at(self.structure, self.behind() + 4) is Ok
            &&& token_at(self.structure, self.behind() + 8) is Ok
            &&& self.behind() + 12 + self.param_len() <= self.structure.len()
            &&& c_string(self.strings, self.param_nameoff()) is Some
        }
    }

    /// The property that comes next, if one does, and the position behind
    /// it.
    pub open spec fn plain_param(self) -> (Option<ParamModel>, int) {
        if !token_is(self.structure, self.behind(), FDT_PROP) {
            (None, self.behind())
        } else {
            let start = self.behind() + 12;
            (
                Some(
                    ParamModel {
                        name: text_or_error(c_string(self.strings, self.param_nameoff())->0),
                        value: self.structure.subrange(start, start + self.param_len()),
                    },
                ),
                self.at(start).moved(self.param_len()),
            )
        }
    }

    /// The name of the node whose start comes next, if one does, and the
    /// position behind it.
    pub open spec fn plain_node(self) -> (Option<Seq<u8>>, int) {
        if !token_is(self.structure, self.behind(), FDT_BEGIN_NODE) {
            (None, self.behind())
        } else {
            let name = self.at(self.behind() + 4).plain_string();
            (Some(name.0), name.1)
        }
    }

    /// Whether the end of a node comes next, and the position behind it.
    pub open spec fn plain_node_end(self) -> (Option<()>, int) {
        if !token_is(self.structure, self.behind(), FDT_END_NODE) {
            (None, self.behind())
        } else {
            (Some(()), self.behind() + 4)
        }
    }
}

/// Reads the tokens of a structure block one after the other.
#[derive(Debug)]
pub struct DeviceTreeParser<'a> {
    structure: &'a [u8],
    strings: &'a [u8],
    position: usize,
}

impl<'a> View for DeviceTreeParser<'a> {
    type V = TokenizerModel;

    closed spec fn view(&self) -> TokenizerModel {
        TokenizerModel {
            structure: self.structure@,
            strings: self.strings@,
            position: self.position as int,
        }
    }
}

impl<'a> DeviceTreeParser<'a> {
    /// See `TokenizerModel::wf`.
    pub open spec fn wf(&self) -> bool {
        self@.wf()
    }

    /// A parser at the start of `structure`; the names of properties are
    /// looked up in `strings`.
    pub fn new(structure: &'a [u8], strings: &'a [u8]) -> (r: DeviceTreeParser<'a>)
        ensures
            r.wf(),
            r@ == (TokenizerModel { structure: structure@, strings: strings@, position: 0 }),
    {
        DeviceTreeParser { structure, strings, position: 0 }
    }

    /// Reads a property, if one comes next. A name that is no text is given
    /// as the word `ERROR`.
    pub fn next_param(&mut self) -> (r: Option<(&'a str, &'a [u8])>)
        requires
            old(self).wf(),
            old(self)@.param_readable(),
        ensures
            final(self).wf(),
            final(self)@ == old(self)@.at(old(self)@.plain_param().1),
            match r {
                None => old(self)@.plain_param().0 is None,
                Some((name, value)) => old(self)@.plain_param().0 == Some(
                    ParamModel { name: name.spec_bytes(), value: value@ },
                ),
            },
    {
        self.skip_nop();
        if self.seek_u32() != Some(FDT_PROP) {
            return None;
        }
        let _ = self.next_u32();
        let len = match self.next_u32() {
            Some(len) => len as usize,
            None => {
                return None;
            },
        };
        let nameoff = match self.next_u32() {
            Some(nameoff) => nameoff as usize,
            None => {
                return None;
            },
        };
        let total = self.structure.len();
        proof {
            lemma_index_of(self.strings@, 0, nameoff as int);
        }
        let names = vstd::slice::slice_subrange(self.strings, nameoff, self.strings.len());
        proof {
            lemma_c_string_of_rest(self.strings@, nameoff as int);
        }
        let name = DeviceTreeParser::next_str(names);
        let value = vstd::slice::slice_subrange(
            self.structure,
            self.position,
            self.position + len,
        );
        self.proceed(len);
        Some((name, value))
    }

    /// Reads the start of a node, if one comes next, and gives its name.
    pub fn next_node(&mut self) -> (r: Option<&'a str>)
        requires
            old(self).wf(),
            old(self)@.node_readable(),
        ensures
            final(self).wf(),
            final(self)@ == old(self)@.at(old(self)@.plain_node().1),
            match r {
                None => old(self)@.plain_node().0 is None,
                Some(name) => old(self)@.plain_node().0 == Some(name.spec_bytes()),
            },
    {
        self.skip_nop();
        if self.seek_u32() == Some(FDT_BEGIN_NODE) {
            let _ = self.next_u32();
            self.next_str_local()
        } else {
            None
        }
    }

    /// Reads the end of a node, if one comes next.
    pub fn next_node_end(&mut self) -> (r: Option<()>)
        requires
            old(self).wf(),
        ensures
            final(self).wf(),
            final(self)@ == old(self)@.at(old(self)@.plain_node_end().1),
            r == old(self)@.plain_node_end().0,
    {
        self.skip_nop();
        if self.seek_u32() == Some(FDT_END_NODE) {
            let _ = self.next_u32();
            Some(())
        } else {
            None
        }
    }

    /// Whether the end of the structure block comes next.
    pub fn is_eof(&mut self) -> (r: bool)
        requires
            old(self).wf(),
        ensures
            final(self).wf(),
            final(self)@ == old(self)@.at(old(self)@.behind()),
            r == token_is(old(self)@.structure, old(self)@.behind(), FDT_END),
    {
        self.skip_nop();
        self.seek_u32() == Some(FDT_END)
    }

    /// Reads the string at the position of the structure block.
    pub fn next_str_local(&mut self) -> (r: Option<&'a str>)
        requires
            old(self).wf(),
            c_string(old(self)@.structure, old(self)@.behind()) is Some,
        ensures
            final(self).wf(),
            final(self)@ == old(self)@.at(old(self)@.plain_string().1),
            r matches Some(text) && text.spec_bytes() == old(self)@.plain_string().0,
    {
        self.skip_nop();
        let rest = vstd::slice::slice_subrange(self.structure, self.position, self.structure.len());
        proof {
            lemma_c_string_of_rest(self.structure@, self.position as int);
        }
        let s = DeviceTreeParser::next_str(rest);
        proof {
            lemma_index_of(self.structure@, 0, self.position as int);
            lemma_error_word();
        }
        self.proceed(s.len() + 1);
        Some(s)
    }

    /// The text at the start of `slice` that ends before the first zero
    /// byte; the word `ERROR` if the bytes are no text.
    pub fn next_str(slice: &'a [u8]) -> (r: &'a str)
        requires
            c_string(slice@, 0) is Some,
        ensures
            r.spec_bytes() == text_or_error(c_string(slice@, 0)->0),
    {
        let str_len = find_byte(slice, 0, 0);
        match utf8_text(vstd::slice::slice_subrange(slice, 0, str_len)) {
            Some(text) => text,
            None => "ERROR",
        }
    }

    /// The token at the position, if four bytes are left there.
    pub fn seek_u32(&self) -> (r: Option<u32>)
        requires
            self.wf(),
        ensures
            r == match self@.seek() {
                Ok(token) => Some(token),
                Err(_) => None,
            },
    {
        let len = self.structure.len();
        if len - self.position < 4 {
            return None;
        }
        Some(read_be_u32(self.structure, self.position))
    }

    /// Reads the token at the position.
    pub fn next_u32(&mut self) -> (r: Option<u32>)
        requires
            old(self).wf(),
        ensures
            final(self).wf(),
            r == match old(self)@.seek() {
                Ok(token) => Some(token),
                Err(_) => None,
            },
            final(self)@ == old(self)@.at(old(self)@.next_token().position),
    {
        let len = self.structure.len();
        let result = self.seek_u32();
        if result.is_some() {
            self.position += 4
        }
        result
    }

    /// Moves on by `by` bytes and then to the next cell, though not beyond
    /// the end of the structure block.
    pub fn proceed(&mut self, by: usize)
        requires
            old(self).wf(),
        ensures
            final(self).wf(),
            final(self)@ == old(self)@.at(old(self)@.moved(by as int)),
    {
        let len = self.structure.len();
        if by > len - self.position {
            self.position = len;
            return ;
        }
        self.position += by;
        if self.position % 4 != 0 {
            let cell = self.position / 4;
            self.position = if cell + 1 > len / 4 {
                len
            } else {
                (cell + 1) * 4
            };
        }
    }

    /// Steps over tokens without meaning.
    pub fn skip_nop(&mut self)
        requires
            old(self).wf(),
        ensures
            final(self).wf(),
            final(self)@ == old(self)@.at(old(self)@.behind()),
    {
        let len = self.structure.len();
        proof {
            lemma_behind_nops(self.structure@, self.position as int);
        }
        while Some(FDT_NOP) == self.seek_u32()
            invariant
                self.wf(),
                len == self.structure@.len(),
                self.structure@ == old(self).structure@,
                self.strings@ == old(self).strings@,
                behind_nops(self.structure@, self.position as int) == behind_nops(
                    old(self).structure@,
                    old(self).position as int,
                ),
            decreases len - self.position,
        {
            let _ = self.next_u32();
        }
    }
}

/// The word `ERROR` has five bytes.
proof fn lemma_error_word()
    ensures
        "ERROR".spec_bytes().len() == 5,
{
    reveal_strlit("ERROR");
    assert(vstd::string::is_ascii("ERROR"));
    vstd::string::is_ascii_spec_bytes("ERROR");
}

/// The string at `offset` is the string at the start of what follows
/// `offset`.
proof fn lemma_c_string_of_rest(bytes: Seq<u8>, offset: int)
    requires
        0 <= offset <= bytes.len(),
    ensures
        c_string(bytes.subrange(offset, bytes.len() as int), 0) == c_string(bytes, offset),
{
    let rest = bytes.subrange(offset, bytes.len() as int);
    lemma_index_of(bytes, 0, offset);
    lemma_index_of(rest, 0, 0);
    let a = crate::devicetree::cells::index_of(bytes, 0, offset);
    let b = crate::devicetree::cells::index_of(rest, 0, 0);
    if a - offset < b {
        assert(rest[a - offset] == bytes[a]);
    } else if a - offset > b {
        assert(rest[b] == bytes[b + offset]);
    }
    if a < bytes.len() {
        assert(rest.subrange(0, b) =~= bytes.subrange(offset, a));
    }
}

} // verus!
