use vstd::prelude::*;
use crate::ir::basic_block::{BasicBlock, BlockModel};
use crate::ir::value::ValueType;
use crate::text::string_of;

verus! {

/// A function: named blocks, the first of which is the entry.
#[derive(Debug, PartialEq)]
pub struct Function {
    pub name: String,
    pub return_type: ValueType,
    pub basic_blocks: Vec<BasicBlock>,
    /// Formal parameter names, bound positionally to call-site arguments.
    /// Entry functions bake their inputs as constant stores and leave this empty.
    pub params: Vec<String>,
}

/// Model of a function.
pub struct FunctionModel {
    pub name: Seq<char>,
    pub return_type: ValueType,
    pub blocks: Seq<BlockModel>,
    pub params: Seq<Seq<char>>,
}

/// Models of a sequence of blocks.
pub open spec fn block_models(s: Seq<BasicBlock>) -> Seq<BlockModel> {
    s.map_values(|b: BasicBlock| b@)
}

/// Views of a sequence of strings.
pub open spec fn string_views(s: Seq<String>) -> Seq<Seq<char>> {
    s.map_values(|x: String| x@)
}

impl View for Function {
    type V = FunctionModel;

    open spec fn view(&self) -> FunctionModel {
        FunctionModel {
            name: self.name@,
            return_type: self.return_type,
            blocks: block_models(self.basic_blocks@),
            params: string_views(self.params@),
        }
    }
}

/// Index of the first block named `name`, if any.
pub open spec fn find_block(blocks: Seq<BlockModel>, name: Seq<char>) -> Option<int>
    decreases blocks.len(),
{
    if blocks.len() == 0 {
        None
    } else if blocks[0].name == name {
        Some(0)
    } else {
        match find_block(blocks.drop_first(), name) {
            Some(k) => Some(k + 1),
            None => None,
        }
    }
}

/// `find_block` gives the first index whose block has the name.
pub proof fn lemma_find_block(blocks: Seq<BlockModel>, name: Seq<char>)
    ensures
        match find_block(blocks, name) {
            Some(k) => 0 <= k < blocks.len() && blocks[k].name == name && forall|j: int|
                0 <= j < k ==> blocks[j].name != name,
            None => forall|j: int| 0 <= j < blocks.len() ==> blocks[j].name != name,
        },
    decreases blocks.len(),
{
    if blocks.len() > 0 && blocks[0].name != name {
        lemma_find_block(blocks.drop_first(), name);
        assert forall|j: int| 0 < j < blocks.len() implies blocks[j] == blocks.drop_first()[j - 1] by {}
    }
}

/// A first match is what `find_block` finds.
pub proof fn lemma_find_block_at(blocks: Seq<BlockModel>, name: Seq<char>, k: int)
    requires
        0 <= k < blocks.len(),
        blocks[k].name == name,
        forall|j: int| 0 <= j < k ==> blocks[j].name != name,
    ensures
        find_block(blocks, name) == Some(k),
{
    lemma_find_block(blocks, name);
    match find_block(blocks, name) {
        Some(i) => {
            if i < k {
            } else if i > k {
            }
        },
        None => {},
    }
}

/// Index of the first block named `name` in a vector of blocks.
pub fn block_index(blocks: &Vec<BasicBlock>, name: &str) -> (r: Option<usize>)
    ensures
        match r {
            Some(k) => find_block(block_models(blocks@), name@) == Some(k as int) && k
                < blocks@.len(),
            None => find_block(block_models(blocks@), name@) is None,
        },
{
    let key = string_of(name);
    let ghost bs = block_models(blocks@);
    proof {
        lemma_find_block(bs, name@);
    }
    let mut j: usize = 0;
    while j < blocks.len()
        invariant
            j <= blocks.len(),
            bs == block_models(blocks@),
            key@ == name@,
            forall|i: int| 0 <= i < j ==> bs[i].name != name@,
        decreases blocks.len() - j,
    {
        if blocks[j].name == key {
            proof {
                lemma_find_block_at(bs, name@, j as int);
            }
            return Some(j);
        }
        j = j + 1;
    }
    None
}

impl Function {
    /// A function with no blocks and no parameters.
    pub fn new(name: String, return_type: ValueType) -> (r: Self)
        ensures
            r@ == (FunctionModel {
                name: name@,
                return_type,
                blocks: Seq::empty(),
                params: Seq::empty(),
            }),
    {
        let r = Self { name, return_type, basic_blocks: Vec::new(), params: Vec::new() };
        assert(r@.blocks =~= Seq::<BlockModel>::empty());
        assert(r@.params =~= Seq::<Seq<char>>::empty());
        r
    }

    /// Replaces the parameter list.
    pub fn set_params(&mut self, params: Vec<String>)
        ensures
            final(self)@ == (FunctionModel { params: string_views(params@), ..old(self)@ }),
    {
        self.params = params;
    }

    /// The first block with the given name.
    pub fn get_block(&self, name: &str) -> (r: Option<&BasicBlock>)
        ensures
            match find_block(self@.blocks, name@) {
                Some(k) => r matches Some(b) && b@ == self@.blocks[k],
                None => r is None,
            },
    {
        match block_index(&self.basic_blocks, name) {
            Some(k) => Some(&self.basic_blocks[k]),
            None => None,
        }
    }

    /// The first block with the given name, for modification.
    pub fn get_block_mut(&mut self, name: &str) -> (r: Option<&mut BasicBlock>)
        ensures
            match find_block(old(self)@.blocks, name@) {
                Some(k) => r matches Some(b) && (*b)@ == old(self)@.blocks[k]
                    && final(self).basic_blocks@ == old(self).basic_blocks@.update(k, *final(b))
                    && final(self).name == old(self).name
                    && final(self).return_type == old(self).return_type
                    && final(self).params == old(self).params,
                None => r is None && *final(self) == *old(self),
            },
    {
        match block_index(&self.basic_blocks, name) {
            Some(k) => Some(&mut self.basic_blocks[k]),
            None => None,
        }
    }

    /// A deep copy of this function.
    pub fn copy(&self) -> (r: Function)
        ensures
            r@ == self@,
    {
        let mut blocks: Vec<BasicBlock> = Vec::new();
        let mut j: usize = 0;
        while j < self.basic_blocks.len()
            invariant
                j <= self.basic_blocks.len(),
                blocks@.len() == j,
                forall|k: int| 0 <= k < j ==> #[trigger] blocks@[k]@ == self.basic_blocks@[k]@,
            decreases self.basic_blocks.len() - j,
        {
            blocks.push(self.basic_blocks[j].copy());
            j = j + 1;
        }
        let mut params: Vec<String> = Vec::new();
        let mut j: usize = 0;
        while j < self.params.len()
            invariant
                j <= self.params.len(),
                params@.len() == j,
                forall|k: int| 0 <= k < j ==> #[trigger] params@[k]@ == self.params@[k]@,
            decreases self.params.len() - j,
        {
            params.push(self.params[j].clone());
            j = j + 1;
        }
        let r = Function {
            name: self.name.clone(),
            return_type: self.return_type.copy(),
            basic_blocks: blocks,
            params,
        };
        assert(r@.blocks =~= self@.blocks);
        assert(r@.params =~= self@.params);
        r
    }
}

impl Clone for Function {
    fn clone(&self) -> (r: Function)
        ensures
            r@ == self@,
    {
        self.copy()
    }
}

} // verus!
