//! The structure block as a stream of tokens, read front to back.

use vstd::prelude::*;
use vstd::utf8::valid_utf8;
use vstd::string::StringSliceAdditionalSpecFns;
use crate::bytes::{be_u32, read_be_u32};
use crate::devicetree::cells::{
    c_string, find_byte, utf8_text, FDT_BEGIN_NODE, FDT_END, FDT_END_NODE, FDT_NOP, FDT_PROP,
};
use crate::devicetree::error::DeviceTreeError;
use crate::devicetree::node::{lemma_with_empty_prefix, lemma_with_prefix_push, with_prefix};

verus! {

/// The token at byte `position` of `structure`, if four bytes are left
/// there.
pub open spec fn token_at(structure: Seq<u8>, position: int) -> Result<u32, DeviceTreeError> {
    if position < 0 || position + 4 > structure.len() {
        Err(DeviceTreeError::OutOfStructureBounds)
    } else {
        Ok(be_u32(structure.subrange(position, position + 4)) as u32)
    }
}

/// The position behind the tokens without meaning that start at `position`.
pub open spec fn behind_nops(structure: Seq<u8>, position: int) -> int
    decreases structure.len() - position,
{
    if token_at(structure, position) == Ok::<u32, DeviceTreeError>(FDT_NOP) {
        behind_nops(structure, position + 4)
    } else {
        position
    }
}

/// The least multiple of four that is not below `position`, or `limit` if
/// that is less.
pub open spec fn aligned_within(position: int, limit: int) -> int {
    let aligned = if position % 4 != 0 {
        (position / 4 + 1) * 4
    } else {
        position
    };
    if aligned > limit {
        limit
    } else {
        aligned
    }
}

/// The bytes of the text that starts at `offset` and ends before the next
/// zero byte.
pub open spec fn token_string(bytes: Seq<u8>, offset: int) -> Result<Seq<u8>, DeviceTreeError> {
    match c_string(bytes, offset) {
        None => Err(DeviceTreeError::UnterminatedString),
        Some(text) => if valid_utf8(text) {
            Ok(text)
        } else {
            Err(DeviceTreeError::InvaildUTF8)
        },
    }
}

/// What a step of the tokenizer gives, and where it leaves the tokenizer.
pub struct Step<T> {
    pub result: Result<T, DeviceTreeError>,
    pub position: int,
}

/// A property as the token stream holds it: the bytes of its name and of
/// its value.
pub struct ParamModel {
    pub name: Seq<u8>,
    pub value: Seq<u8>,
}

/// What the tokenizer comes upon next.
pub enum ItemModel {
    /// The start of a node with the given name.
    Node(Seq<u8>),
    /// A property.
    Param(ParamModel),
    /// The end of a node.
    NodeEnd,
    /// The end of the structure block.
    End,
}

/// The state of a tokenizer.
pub struct TokenizerModel {
    pub structure: Seq<u8>,
    pub strings: Seq<u8>,
    pub position: int,
}

impl TokenizerModel {
    /// The position lies within the structure block.
    pub open spec fn wf(self) -> bool {
        0 <= self.position <= self.structure.len()
    }

    /// The state at another position.
    pub open spec fn at(self, position: int) -> TokenizerModel {
        TokenizerModel { position, ..self }
    }

    /// The token at the position.
    pub open spec fn seek(self) -> Result<u32, DeviceTreeError> {
        token_at(self.structure, self.position)
    }

    /// Reading the token at the position.
    pub open spec fn next_token(self) -> Step<u32> {
        match self.seek() {
            Err(e) => Step { result: Err(e), position: self.position },
            Ok(token) => Step { result: Ok(token), position: self.position + 4 },
        }
    }

    /// Stepping over tokens without meaning: the step ends before the first
    /// other token, and fails where no token is left.
    pub open spec fn skip_nops(self) -> Step<()> {
        let position = behind_nops(self.structure, self.position);
        match token_at(self.structure, position) {
            Err(e) => Step { result: Err(e), position },
            Ok(_) => Step { result: Ok(()), position },
        }
    }

    /// Moving on by `by` bytes and then to the next cell.
    pub open spec fn moved(self, by: int) -> int {
        aligned_within(self.position + by, self.structure.len() as int)
    }

    /// Reading the string at the position of the structure block, tokens
    /// without meaning being stepped over first.
    pub open spec fn local_string(self) -> Step<Seq<u8>> {
        let start = behind_nops(self.structure, self.position);
        match token_string(self.structure, start) {
            Err(e) => Step { result: Err(e), position: start },
            Ok(text) => Step { result: Ok(text), position: self.at(start).moved(text.len() as int + 1) },
        }
    }

    /// Reading the start of a node, if one comes next.
    pub open spec fn node(self) -> Step<Option<Seq<u8>>> {
        let skipped = self.skip_nops();
        match skipped.result {
            Err(e) => Step { result: Err(e), position: skipped.position },
            Ok(_) => if self.at(skipped.position).seek() != Ok::<u32, DeviceTreeError>(
                FDT_BEGIN_NODE,
            ) {
                Step { result: Ok(None), position: skipped.position }
            } else {
                let name = self.at(skipped.position + 4).local_string();
                match name.result {
                    Err(e) => Step { result: Err(e), position: name.position },
                    Ok(text) => Step { result: Ok(Some(text)), position: name.position },
                }
            },
        }
    }

    /// Reading the end of a node, if one comes next.
    pub open spec fn node_end(self) -> Step<Option<()>> {
        let skipped = self.skip_nops();
        match skipped.result {
            Err(e) => Step { result: Err(e), position: skipped.position },
            Ok(_) => if self.at(skipped.position).seek() != Ok::<u32, DeviceTreeError>(
                FDT_END_NODE,
            ) {
                Step { result: Ok(None), position: skipped.position }
            } else {
                Step { result: Ok(Some(())), position: skipped.position + 4 }
            },
        }
    }

    /// Looking for the end of the structure block. The token that ends it is
    /// not stepped over.
    pub open spec fn eof(self) -> Step<bool> {
        let position = behind_nops(self.structure, self.position);
        match token_at(self.structure, position) {
            Err(e) => Step { result: Err(e), position },
            Ok(token) => Step { result: Ok(token == FDT_END), position },
        }
    }

    /// Reading a property, if one comes next: the token, the length of the
    /// value, the offset of the name in the strings block, and the value,
    /// filled up to whole cells.
    pub open spec fn param(self) -> Step<Option<ParamModel>> {
        let skipped = self.skip_nops();
        match skipped.result {
            Err(e) => Step { result: Err(e), position: skipped.position },
            Ok(_) => if self.at(skipped.position).seek() != Ok::<u32, DeviceTreeError>(FDT_PROP) {
                Step { result: Ok(None), position: skipped.position }
            } else {
                let len = self.at(skipped.position + 4).next_token();
                match len.result {
                    Err(e) => Step { result: Err(e), position: len.position },
                    Ok(len_value) => {
                        let nameoff = self.at(len.position).next_token();
                        match nameoff.result {
                            Err(e) => Step { result: Err(e), position: nameoff.position },
                            Ok(offset) => {
                                let start = nameoff.position;
                                if start + len_value > self.structure.len() {
                                    Step {
                                        result: Err(DeviceTreeError::OutOfStructureBounds),
                                        position: start,
                                    }
                                } else {
                                    match token_string(self.strings, offset as int) {
                                        Err(e) => Step { result: Err(e), position: start },
                                        Ok(name) => Step {
                                            result: Ok(
                                                Some(
                                                    ParamModel {
                                                        name,
                                                        value: self.structure.subrange(
                                                            start,
                                                            start + len_value,
                                                        ),
                                                    },
                                                ),
                                            ),
                                            position: self.at(start).moved(len_value as int),
                                        },
                                    }
                                }
                            },
                        }
                    },
                }
            },
        }
    }

    /// Reading whatever comes next: the start of a node, else a property,
    /// else the end of a node, else the end of the block. Anything else is
    /// no devicetree.
    pub open spec fn item(self) -> Step<ItemModel> {
        let node = self.node();
        match node.result {
            Err(e) => Step { result: Err(e), position: node.position },
            Ok(Some(name)) => Step { result: Ok(ItemModel::Node(name)), position: node.position },
            Ok(None) => {
                let param = self.at(node.position).param();
                match param.result {
                    Err(e) => Step { result: Err(e), position: param.position },
                    Ok(Some(p)) => Step {
                        result: Ok(ItemModel::Param(p)),
                        position: param.position,
                    },
                    Ok(None) => {
                        let end = self.at(param.position).node_end();
                        match end.result {
                            Err(e) => Step { result: Err(e), position: end.position },
                            Ok(Some(_)) => Step {
                                result: Ok(ItemModel::NodeEnd),
                                position: end.position,
                            },
                            Ok(None) => {
                                let eof = self.at(end.position).eof();
                                match eof.result {
                                    Err(e) => Step { result: Err(e), position: eof.position },
                                    Ok(true) => Step {
                                        result: Ok(ItemModel::End),
                                        position: eof.position,
                                    },
                                    Ok(false) => Step {
                                        result: Err(DeviceTreeError::BytesParseError),
                                        position: eof.position,
                                    },
                                }
                            },
                        }
                    },
                }
            },
        }
    }
}

/// A line of the listing of a tree: what stands on it, and how many nodes
/// are open around it.
pub struct LineModel {
    pub depth: nat,
    pub item: ItemModel,
}

/// The lines that close the `depth` nodes that are open, the innermost
/// first.
pub open spec fn closing_lines(depth: nat) -> Seq<LineModel>
    decreases depth,
{
    if depth == 0 {
        Seq::empty()
    } else {
        seq![LineModel { depth: (depth - 1) as nat, item: ItemModel::NodeEnd }] + closing_lines(
            (depth - 1) as nat,
        )
    }
}

/// The listing of what a tokenizer in the state `state` comes upon, with
/// `depth` nodes open: a line for the start of each node, for each property
/// and for the end of each node. The listing ends with the end of a node
/// when none is open, and with the end of the structure block, where every
/// node that is still open is closed.
pub open spec fn listing(state: TokenizerModel, depth: nat) -> Result<
    Seq<LineModel>,
    DeviceTreeError,
>
    decreases state.structure.len() - state.position,
{
    let step = state.item();
    match step.result {
        Err(e) => Err(e),
        Ok(ItemModel::End) => Ok(closing_lines(depth)),
        Ok(item) => if state.position < step.position <= state.structure.len() {
            match item {
                ItemModel::Node(_) => with_prefix(
                    seq![LineModel { depth, item }],
                    listing(state.at(step.position), depth + 1),
                ),
                ItemModel::NodeEnd => if depth == 0 {
                    Ok(Seq::empty())
                } else {
                    with_prefix(
                        seq![LineModel { depth: (depth - 1) as nat, item }],
                        listing(state.at(step.position), (depth - 1) as nat),
                    )
                },
                _ => with_prefix(
                    seq![LineModel { depth, item }],
                    listing(state.at(step.position), depth),
                ),
            }
        } else {
            Err(DeviceTreeError::OutOfStructureBounds)
        },
    }
}

/// Every item but the end of the block takes bytes of the structure block.
pub proof fn lemma_item_advances(state: TokenizerModel)
    requires
        state.wf(),
    ensures
        state.position <= state.item().position <= state.structure.len(),
        state.item().result is Ok && state.item().result != Ok::<ItemModel, DeviceTreeError>(
            ItemModel::End,
        ) ==> state.position < state.item().position,
{
    let s = state.structure;
    lemma_behind_nops(s, state.position);
    let behind = behind_nops(s, state.position);
    lemma_behind_nops(s, behind);
    if token_at(s, behind) is Ok {
        lemma_behind_nops(s, behind + 4);
        let start = behind_nops(s, behind + 4);
        if start <= s.len() {
            crate::devicetree::cells::lemma_index_of(s, 0, start);
        }
    }
}

/// Where `behind_nops` points.
pub proof fn lemma_behind_nops(structure: Seq<u8>, position: int)
    requires
        0 <= position <= structure.len(),
    ensures
        position <= behind_nops(structure, position) <= structure.len(),
        token_at(structure, behind_nops(structure, position)) != Ok::<u32, DeviceTreeError>(FDT_NOP),
        behind_nops(structure, behind_nops(structure, position)) == behind_nops(
            structure,
            position,
        ),
    decreases structure.len() - position,
{
    if token_at(structure, position) == Ok::<u32, DeviceTreeError>(FDT_NOP) {
        lemma_behind_nops(structure, position + 4);
    }
}

/// What the tokenizer comes upon.
pub enum Item<'a> {
    /// The start of a node with the given name.
    Node(&'a str),
    /// A property with its name and the bytes of its value.
    Param(&'a str, &'a [u8]),
    /// The end of a node.
    NodeEnd,
    /// The end of the structure block.
    End,
}

impl<'a> Item<'a> {
    /// The item as the token stream holds it.
    pub open spec fn model(self) -> ItemModel {
        match self {
            Item::Node(name) => ItemModel::Node(name.spec_bytes()),
            Item::Param(name, value) => ItemModel::Param(
                ParamModel { name: name.spec_bytes(), value: value@ },
            ),
            Item::NodeEnd => ItemModel::NodeEnd,
            Item::End => ItemModel::End,
        }
    }
}

/// A line of the listing of a tree.
pub struct Line<'a> {
    /// How many nodes are open around the line.
    pub depth: usize,
    /// What stands on the line.
    pub item: Item<'a>,
}

/// The lines as the token stream holds them.
pub open spec fn line_models<'a>(lines: Seq<Line<'a>>) -> Seq<LineModel> {
    lines.map_values(|l: Line<'a>| LineModel { depth: l.depth as nat, item: l.item.model() })
}

/// Reads the tokens of a structure block one after the other.
#[derive(Debug)]
pub struct DeviceTreeTokenizer<'a> {
    structure: &'a [u8],
    strings: &'a [u8],
    position: usize,
}

impl<'a> View for DeviceTreeTokenizer<'a> {
    type V = TokenizerModel;

    closed spec fn view(&self) -> TokenizerModel {
        TokenizerModel {
            structure: self.structure@,
            strings: self.strings@,
            position: self.position as int,
        }
    }
}

impl<'a> DeviceTreeTokenizer<'a> {
    /// See `TokenizerModel::wf`.
    pub open spec fn wf(&self) -> bool {
        self@.wf()
    }

    /// A tokenizer at the start of `structure`; the names of properties are
    /// looked up in `strings`.
    pub fn new(structure: &'a [u8], strings: &'a [u8]) -> (r: DeviceTreeTokenizer<'a>)
        ensures
            r.wf(),
            r@ == (TokenizerModel { structure: structure@, strings: strings@, position: 0 }),
    {
        DeviceTreeTokenizer { structure, strings, position: 0 }
    }

    /// Reads a property, if one comes next.
    pub fn next_param(&mut self) -> (r: Result<Option<(&'a str, &'a [u8])>, DeviceTreeError>)
        requires
            old(self).wf(),
        ensures
            final(self).wf(),
            final(self)@ == old(self)@.at(old(self)@.param().position),
            match r {
                Ok(None) => old(self)@.param().result == Ok::<Option<ParamModel>, DeviceTreeError>(
                    None,
                ),
                Ok(Some((name, value))) => old(self)@.param().result == Ok::<
                    Option<ParamModel>,
                    DeviceTreeError,
                >(Some(ParamModel { name: name.spec_bytes(), value: value@ })),
                Err(e) => old(self)@.param().result == Err::<Option<ParamModel>, DeviceTreeError>(
                    e,
                ),
            },
    {
        match self.skip_nop() {
            Err(e) => {
                return Err(e);
            },
            Ok(()) => {},
        }
        match self.seek_u32() {
            Err(e) => {
                return Err(e);
            },
            Ok(token) => {
                if token != FDT_PROP {
                    return Ok(None);
                }
            },
        }
        let _ = self.next_u32();
        let len = match self.next_u32() {
            Err(e) => {
                return Err(e);
            },
            Ok(len) => len,
        };
        let nameoff = match self.next_u32() {
            Err(e) => {
                return Err(e);
            },
            Ok(nameoff) => nameoff,
        };
        let total = self.structure.len();
        if len as u64 > (total - self.position) as u64 {
            return Err(DeviceTreeError::OutOfStructureBounds);
        }
        let len = len as usize;
        let name = match DeviceTreeTokenizer::next_str(self.strings, nameoff as usize) {
            Err(e) => {
                return Err(e);
            },
            Ok(name) => name,
        };
        let value = vstd::slice::slice_subrange(
            self.structure,
            self.position,
            self.position + len,
        );
        let _ = self.proceed(len);
        Ok(Some((name, value)))
    }

    /// Reads the start of a node, if one comes next, and gives its name.
    pub fn next_node(&mut self) -> (r: Result<Option<&'a str>, DeviceTreeError>)
        requires
            old(self).wf(),
        ensures
            final(self).wf(),
            final(self)@ == old(self)@.at(old(self)@.node().position),
            match r {
                Ok(None) => old(self)@.node().result == Ok::<Option<Seq<u8>>, DeviceTreeError>(
                    None,
                ),
                Ok(Some(name)) => old(self)@.node().result == Ok::<
                    Option<Seq<u8>>,
                    DeviceTreeError,
                >(Some(name.spec_bytes())),
                Err(e) => old(self)@.node().result == Err::<Option<Seq<u8>>, DeviceTreeError>(e),
            },
    {
        match self.skip_nop() {
            Err(e) => {
                return Err(e);
            },
            Ok(()) => {},
        }
        match self.seek_u32() {
            Err(e) => {
                return Err(e);
            },
            Ok(token) => {
                if token != FDT_BEGIN_NODE {
                    return Ok(None);
                }
            },
        }
        let _ = self.next_u32();
        match self.next_str_local() {
            Err(e) => Err(e),
            Ok(name) => Ok(Some(name)),
        }
    }

    /// Reads the end of a node, if one comes next.
    pub fn next_node_end(&mut self) -> (r: Result<Option<()>, DeviceTreeError>)
        requires
            old(self).wf(),
        ensures
            final(self).wf(),
            final(self)@ == old(self)@.at(old(self)@.node_end().position),
            r == old(self)@.node_end().result,
    {
        match self.skip_nop() {
            Err(e) => {
                return Err(e);
            },
            Ok(()) => {},
        }
        match self.seek_u32() {
            Err(e) => {
                return Err(e);
            },
            Ok(token) => {
                if token != FDT_END_NODE {
                    return Ok(None);
                }
            },
        }
        let _ = self.next_u32();
        Ok(Some(()))
    }

    /// Whether the end of the structure block comes next.
    pub fn is_eof(&mut self) -> (r: Result<bool, DeviceTreeError>)
        requires
            old(self).wf(),
        ensures
            final(self).wf(),
            final(self)@ == old(self)@.at(old(self)@.eof().position),
            r == old(self)@.eof().result,
    {
        let _ = self.skip_nop();
        match self.seek_u32() {
            Err(e) => Err(e),
            Ok(token) => Ok(token == FDT_END),
        }
    }

    /// Reads whatever comes next.
    pub fn next_item(&mut self) -> (r: Result<Item<'a>, DeviceTreeError>)
        requires
            old(self).wf(),
        ensures
            final(self).wf(),
            final(self)@ == old(self)@.at(old(self)@.item().position),
            match r {
                Ok(item) => old(self)@.item().result == Ok::<ItemModel, DeviceTreeError>(
                    item.model(),
                ),
                Err(e) => old(self)@.item().result == Err::<ItemModel, DeviceTreeError>(e),
            },
    {
        match self.next_node() {
            Err(e) => {
                return Err(e);
            },
            Ok(Some(name)) => {
                return Ok(Item::Node(name));
            },
            Ok(None) => {},
        }
        match self.next_param() {
            Err(e) => {
                return Err(e);
            },
            Ok(Some((name, value))) => {
                return Ok(Item::Param(name, value));
            },
            Ok(None) => {},
        }
        match self.next_node_end() {
            Err(e) => {
                return Err(e);
            },
            Ok(Some(_)) => {
                return Ok(Item::NodeEnd);
            },
            Ok(None) => {},
        }
        match self.is_eof() {
            Err(e) => Err(e),
            Ok(true) => Ok(Item::End),
            Ok(false) => Err(DeviceTreeError::BytesParseError),
        }
    }

    /// Lists what comes from the position on, line by line.
    pub fn walk(&mut self) -> (r: Result<Vec<Line<'a>>, DeviceTreeError>)
        requires
            old(self).wf(),
        ensures
            final(self).wf(),
            match r {
                Ok(lines) => listing(old(self)@, 0) == Ok::<Seq<LineModel>, DeviceTreeError>(
                    line_models(lines@),
                ),
                Err(e) => listing(old(self)@, 0) == Err::<Seq<LineModel>, DeviceTreeError>(e),
            },
    {
        let len = self.structure.len();
        let mut lines: Vec<Line<'a>> = Vec::new();
        let mut depth: usize = 0;
        proof {
            assert(line_models(lines@) =~= Seq::<LineModel>::empty());
            lemma_with_empty_prefix(listing(self@, 0));
        }
        loop
            invariant
                self.wf(),
                len == self@.structure.len(),
                depth <= self@.position,
                listing(old(self)@, 0) == with_prefix(
                    line_models(lines@),
                    listing(self@, depth as nat),
                ),
            decreases len - self.position,
        {
            let ghost before = self@;
            let ghost listed = lines@;
            proof {
                lemma_item_advances(before);
            }
            let item = match self.next_item() {
                Err(e) => {
                    return Err(e);
                },
                Ok(item) => item,
            };
            match item {
                Item::End => {
                    let ghost open = depth;
                    let ghost done = line_models(lines@);
                    while depth > 0
                        invariant
                            depth <= open,
                            done + closing_lines(open as nat) == line_models(lines@)
                                + closing_lines(depth as nat),
                        decreases depth,
                    {
                        let ghost so_far = lines@;
                        depth -= 1;
                        lines.push(Line { depth, item: Item::NodeEnd });
                        proof {
                            let line = LineModel { depth: depth as nat, item: ItemModel::NodeEnd };
                            assert(line_models(lines@) =~= line_models(so_far).push(line));
                            assert(line_models(so_far) + (seq![line] + closing_lines(depth as nat))
                                =~= line_models(so_far).push(line) + closing_lines(depth as nat));
                        }
                    }
                    proof {
                        assert(line_models(lines@) + closing_lines(0) =~= line_models(lines@));
                    }
                    return Ok(lines);
                },
                Item::NodeEnd => {
                    if depth == 0 {
                        proof {
                            assert(line_models(lines@) + Seq::<LineModel>::empty() =~= line_models(
                                lines@,
                            ));
                        }
                        return Ok(lines);
                    }
                    depth -= 1;
                    lines.push(Line { depth, item });
                    proof {
                        let line = LineModel { depth: depth as nat, item: ItemModel::NodeEnd };
                        assert(line_models(lines@) =~= line_models(listed).push(line));
                        lemma_with_prefix_push(
                            line_models(listed),
                            line,
                            listing(self@, depth as nat),
                        );
                    }
                },
                Item::Node(name) => {
                    lines.push(Line { depth, item });
                    proof {
                        let line = LineModel { depth: depth as nat, item: item.model() };
                        assert(line_models(lines@) =~= line_models(listed).push(line));
                        lemma_with_prefix_push(
                            line_models(listed),
                            line,
                            listing(self@, (depth + 1) as nat),
                        );
                    }
                    depth += 1;
                },
                Item::Param(name, value) => {
                    lines.push(Line { depth, item });
                    proof {
                        let line = LineModel { depth: depth as nat, item: item.model() };
                        assert(line_models(lines@) =~= line_models(listed).push(line));
                        lemma_with_prefix_push(
                            line_models(listed),
                            line,
                            listing(self@, depth as nat),
                        );
                    }
                },
            }
        }
    }

    /// Reads the string at the position of the structure block.
    pub fn next_str_local(&mut self) -> (r: Result<&'a str, DeviceTreeError>)
        requires
            old(self).wf(),
        ensures
            final(self).wf(),
            final(self)@ == old(self)@.at(old(self)@.local_string().position),
            match r {
                Ok(text) => old(self)@.local_string().result == Ok::<Seq<u8>, DeviceTreeError>(
                    text.spec_bytes(),
                ),
                Err(e) => old(self)@.local_string().result == Err::<Seq<u8>, DeviceTreeError>(e),
            },
    {
        let len = self.structure.len();
        let _ = self.skip_nop();
        let text = match DeviceTreeTokenizer::next_str(self.structure, self.position) {
            Err(e) => {
                return Err(e);
            },
            Ok(text) => text,
        };
        proof {
            crate::devicetree::cells::lemma_index_of(self.structure@, 0, self.position as int);
        }
        let _ = self.proceed(text.len() + 1);
        Ok(text)
    }

    /// The text of `bytes` that starts at `offset` and ends before the next
    /// zero byte.
    pub fn next_str(bytes: &'a [u8], offset: usize) -> (r: Result<&'a str, DeviceTreeError>)
        ensures
            match r {
                Ok(text) => token_string(bytes@, offset as int) == Ok::<Seq<u8>, DeviceTreeError>(
                    text.spec_bytes(),
                ),
                Err(e) => token_string(bytes@, offset as int) == Err::<Seq<u8>, DeviceTreeError>(e),
            },
    {
        let end = find_byte(bytes, 0, offset);
        if end >= bytes.len() {
            return Err(DeviceTreeError::UnterminatedString);
        }
        match utf8_text(vstd::slice::slice_subrange(bytes, offset, end)) {
            Some(text) => Ok(text),
            None => Err(DeviceTreeError::InvaildUTF8),
        }
    }

    /// The token at the position.
    pub fn seek_u32(&self) -> (r: Result<u32, DeviceTreeError>)
        requires
            self.wf(),
        ensures
            r == self@.seek(),
    {
        let len = self.structure.len();
        if len - self.position < 4 {
            return Err(DeviceTreeError::OutOfStructureBounds);
        }
        Ok(read_be_u32(self.structure, self.position))
    }

    /// Reads the token at the position.
    pub fn next_u32(&mut self) -> (r: Result<u32, DeviceTreeError>)
        requires
            old(self).wf(),
        ensures
            final(self).wf(),
            r == old(self)@.next_token().result,
            final(self)@ == old(self)@.at(old(self)@.next_token().position),
    {
        let len = self.structure.len();
        let result = match self.seek_u32() {
            Err(e) => {
                return Err(e);
            },
            Ok(result) => result,
        };
        self.position += 4;
        Ok(result)
    }

    /// Moves on by `by` bytes and then to the next cell; says where that is,
    /// unless it is the end of the structure block.
    pub fn proceed(&mut self, by: usize) -> (r: Result<usize, DeviceTreeError>)
        requires
            old(self).wf(),
            old(self)@.position + by <= old(self)@.structure.len(),
        ensures
            final(self).wf(),
            final(self)@ == old(self)@.at(old(self)@.moved(by as int)),
            r == if final(self)@.position >= final(self)@.structure.len() {
                Err::<usize, DeviceTreeError>(DeviceTreeError::OutOfStructureBounds)
            } else {
                Ok::<usize, DeviceTreeError>(final(self)@.position as usize)
            },
    {
        let len = self.structure.len();
        self.position += by;
        if self.position % 4 != 0 {
            let cell = self.position / 4;
            self.position = if cell + 1 > len / 4 {
                len
            } else {
                (cell + 1) * 4
            };
        }
        if self.position >= len {
            return Err(DeviceTreeError::OutOfStructureBounds);
        }
        Ok(self.position)
    }

    /// Steps over tokens without meaning.
    pub fn skip_nop(&mut self) -> (r: Result<(), DeviceTreeError>)
        requires
            old(self).wf(),
        ensures
            final(self).wf(),
            r == old(self)@.skip_nops().result,
            final(self)@ == old(self)@.at(old(self)@.skip_nops().position),
    {
        let len = self.structure.len();
        loop
            invariant
                self.wf(),
                len == self.structure@.len(),
                self.structure@ == old(self).structure@,
                self.strings@ == old(self).strings@,
                old(self).position <= self.position,
                behind_nops(self.structure@, self.position as int) == behind_nops(
                    old(self).structure@,
                    old(self).position as int,
                ),
            decreases len - self.position,
        {
            match self.seek_u32() {
                Err(e) => {
                    return Err(e);
                },
                Ok(token) => {
                    if token != FDT_NOP {
                        return Ok(());
                    }
                },
            }
            self.position += 4;
        }
    }
}

} // verus!
