//! The parse tree: key expressions, layer blocks and programs.

use vstd::prelude::*;

verus! {

/// A key expression.
#[derive(Debug, PartialEq, Eq)]
pub enum Key {
    /// A bare key code, such as `KC_A`.
    KeyCode(String),
    /// A call, such as `LT(1,KC_SPC)`: its name and its parameters in order.
    FunctionCall(String, Vec<Param>),
}

/// A parameter of a call.
#[derive(Debug, PartialEq, Eq)]
pub enum Param {
    /// A number literal, as written.
    Literal(String),
    /// A key expression.
    Key(Key),
}

/// One layer block: `[num] = name( rows )`.
#[derive(Debug, PartialEq, Eq)]
pub struct LayerBlock {
    /// The label between the square brackets.
    pub num: String,
    /// The name of the layout macro.
    pub name: String,
    /// The rows of keys, as written.
    pub rows: Vec<Vec<Key>>,
}

/// A program: its layer blocks in order.
#[derive(Debug, PartialEq, Eq)]
pub struct Program {
    pub blocks: Vec<LayerBlock>,
}

/// A key expression as a mathematical value.
pub ghost enum KeyTree {
    KeyCode(Seq<char>),
    FunctionCall(Seq<char>, Seq<ParamTree>),
}

/// A parameter as a mathematical value.
pub ghost enum ParamTree {
    Literal(Seq<char>),
    Key(KeyTree),
}

/// A layer block as a mathematical value.
pub ghost struct LayerBlockTree {
    pub num: Seq<char>,
    pub name: Seq<char>,
    pub rows: Seq<Seq<KeyTree>>,
}

/// The tree of a key expression.
pub open spec fn key_tree(key: Key) -> KeyTree
    decreases key,
{
    match key {
        Key::KeyCode(name) => KeyTree::KeyCode(name@),
        Key::FunctionCall(name, params) => KeyTree::FunctionCall(name@, param_trees(params@)),
    }
}

/// The tree of a parameter.
pub open spec fn param_tree(param: Param) -> ParamTree
    decreases param,
{
    match param {
        Param::Literal(text) => ParamTree::Literal(text@),
        Param::Key(key) => ParamTree::Key(key_tree(key)),
    }
}

/// The trees of a list of parameters.
pub open spec fn param_trees(params: Seq<Param>) -> Seq<ParamTree>
    decreases params,
{
    if params.len() == 0 {
        Seq::empty()
    } else {
        param_trees(params.drop_last()).push(param_tree(params.last()))
    }
}

impl View for Key {
    type V = KeyTree;

    open spec fn view(&self) -> KeyTree {
        key_tree(*self)
    }
}

impl View for Param {
    type V = ParamTree;

    open spec fn view(&self) -> ParamTree {
        param_tree(*self)
    }
}

/// The trees of a row of keys.
pub open spec fn row_trees(row: Seq<Key>) -> Seq<KeyTree> {
    Seq::new(row.len(), |i: int| row[i]@)
}

/// The trees of the rows of a layer.
pub open spec fn rows_trees(rows: Seq<Vec<Key>>) -> Seq<Seq<KeyTree>> {
    Seq::new(rows.len(), |i: int| row_trees(rows[i]@))
}

impl View for LayerBlock {
    type V = LayerBlockTree;

    open spec fn view(&self) -> LayerBlockTree {
        LayerBlockTree { num: self.num@, name: self.name@, rows: rows_trees(self.rows@) }
    }
}

impl View for Program {
    type V = Seq<LayerBlockTree>;

    open spec fn view(&self) -> Seq<LayerBlockTree> {
        Seq::new(self.blocks.len() as nat, |i: int| self.blocks[i]@)
    }
}

/// The trees of a list of parameters, index by index.
pub proof fn lemma_param_trees(params: Seq<Param>)
    ensures
        param_trees(params).len() == params.len(),
        forall|i: int| 0 <= i < params.len() ==> #[trigger] param_trees(params)[i] == params[i]@,
    decreases params.len(),
{
    if params.len() > 0 {
        lemma_param_trees(params.drop_last());
        assert forall|i: int| 0 <= i < params.len() implies #[trigger] param_trees(params)[i]
            == params[i]@ by {
            if i < params.len() - 1 {
                assert(params.drop_last()[i] == params[i]);
            }
        }
    }
}

} // verus!
