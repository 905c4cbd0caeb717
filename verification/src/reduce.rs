//! The reducer: a key expression back as text, in its canonical form.

use crate::ast::{lemma_param_trees, Key, KeyTree, Param, ParamTree};
use crate::options::PrintOptions;
use vstd::prelude::*;

verus! {

/// The canonical text of a key expression: a key code is its name, a call is
/// its name and, in parentheses, the texts of its parameters with a comma
/// between each two. No blank stands anywhere in it but inside a name.
pub open spec fn render_key(k: KeyTree) -> Seq<char>
    decreases k,
{
    match k {
        KeyTree::KeyCode(name) => name,
        KeyTree::FunctionCall(name, list) => name + seq!['('] + render_params(list) + seq![')'],
    }
}

/// The canonical text of a parameter.
pub open spec fn render_param(p: ParamTree) -> Seq<char>
    decreases p,
{
    match p {
        ParamTree::Literal(text) => text,
        ParamTree::Key(k) => render_key(k),
    }
}

/// The canonical texts of the parameters with a comma between each two.
pub open spec fn render_params(list: Seq<ParamTree>) -> Seq<char>
    decreases list,
{
    if list.len() == 0 {
        Seq::empty()
    } else if list.len() == 1 {
        render_param(list[0])
    } else {
        render_params(list.drop_last()) + seq![','] + render_param(list.last())
    }
}

/// Appends the canonical text of a key expression.
fn push_key(out: &mut String, k: &Key)
    ensures
        final(out)@ == old(out)@ + render_key(k@),
    decreases k,
{
    let ghost start = old(out)@;
    match k {
        Key::KeyCode(name) => {
            out.append(name.as_str());
        },
        Key::FunctionCall(name, list) => {
            out.append(name.as_str());
            out.push('(');
            let ghost head = start + name@ + seq!['('];
            let ghost trees = k@->FunctionCall_1;
            proof {
                lemma_param_trees(list@);
                assert(out@ =~= head + render_params(trees.take(0)));
            }
            let mut i: usize = 0;
            while i < list.len()
                invariant
                    i <= list.len(),
                    k == Key::FunctionCall(*name, *list),
                    trees.len() == list.len(),
                    forall|j: int| 0 <= j < list.len() ==> #[trigger] trees[j] == list[j]@,
                    out@ == head + render_params(trees.take(i as int)),
                decreases list.len() - i,
            {
                if i > 0 {
                    out.push(',');
                }
                let ghost before = out@;
                match &list[i] {
                    Param::Literal(text) => {
                        out.append(text.as_str());
                    },
                    Param::Key(inner) => {
                        proof {
                            assert(decreases_to!(*k => k->FunctionCall_1));
                            assert(decreases_to!(list@ => list@[i as int]));
                        }
                        push_key(out, inner);
                    },
                }
                proof {
                    assert(out@ == before + render_param(trees[i as int]));
                    assert(trees.take(i + 1).drop_last() =~= trees.take(i as int));
                    assert(trees.take(i + 1).last() == trees[i as int]);
                    if i == 0 {
                        assert(trees.take(1)[0] == trees[0]);
                        assert(render_params(trees.take(0)) =~= Seq::<char>::empty());
                    }
                    assert(out@ =~= head + render_params(trees.take(i + 1)));
                }
                i += 1;
            }
            assert(trees.take(list.len() as int) =~= trees);
            out.push(')');
            assert(out@ =~= start + render_key(k@));
        },
    }
}

/// Renders a key expression in its canonical form, such as `LT(1,KC_SPC)`.
/// No option changes that form.
pub fn format_pair(pair: &Key, _ops: &PrintOptions) -> (text: String)
    ensures
        text@ == render_key(pair@),
{
    let mut out = String::new();
    push_key(&mut out, pair);
    out
}

} // verus!
