//! The renderer: a depth-first, left-to-right walk of the block tree against
//! the data model. Only the model's alias table changes while rendering; an
//! error aborts the whole render with no partial output.

use crate::model::Alias;
use crate::model::AliasV;
use crate::model::Identifier;
use crate::model::Model;
use crate::model::ModelV;
use crate::model::resolve;
use crate::model::set_alias_spec;
use crate::parser::Block;
use crate::parser::BlockV;
use crate::parser::lemma_view_blocks_index;
use crate::parser::lemma_view_blocks_len;
use crate::parser::view_blocks;
use crate::value::Value;
use crate::value::ValueV;
use crate::value::value_text;
use vstd::prelude::*;

verus! {

/// A fault while rendering against the model.
#[derive(Debug, Clone, PartialEq, Eq)]
pub enum RenderError {
    /// A variable path that the model does not resolve.
    MissingVariable(String),
    /// An iteration whose array name the model does not resolve.
    MissingArray(String),
    /// An iteration whose target is not list-typed.
    NotList(String),
}

/// The mathematical shape of a `RenderError`.
pub enum RenderErrV {
    MissingVariable(Seq<char>),
    MissingArray(Seq<char>),
    NotList(Seq<char>),
}

impl View for RenderError {
    type V = RenderErrV;

    open spec fn view(&self) -> RenderErrV {
        match self {
            RenderError::MissingVariable(p) => RenderErrV::MissingVariable(p@),
            RenderError::MissingArray(n) => RenderErrV::MissingArray(n@),
            RenderError::NotList(n) => RenderErrV::NotList(n@),
        }
    }
}

/// What rendering one block yields: the text and the model afterwards
/// (iteration writes alias bindings), or the first fault.
pub open spec fn render_block(b: BlockV, m: ModelV) -> Result<(Seq<char>, ModelV), RenderErrV>
    decreases b, 0int,
{
    match b {
        BlockV::Text(t) => Ok((t, m)),
        BlockV::Variable(p) => match resolve(m, p) {
            Option::Some(v) => Ok((value_text(v), m)),
            Option::None => Err(RenderErrV::MissingVariable(p)),
        },
        BlockV::Anonymous(bs) => render_seq(bs, m),
        BlockV::ForEach(fe) => match resolve(m, fe.array) {
            Option::None => Err(RenderErrV::MissingArray(fe.array)),
            Option::Some(v) => match v {
                ValueV::List(l) => render_iter(
                    fe.children,
                    fe.array,
                    fe.alias,
                    0,
                    l.len() as int,
                    m,
                ),
                _ => Err(RenderErrV::NotList(fe.array)),
            },
        },
    }
}

/// Blocks rendered in order, model state threaded through, texts
/// concatenated; the first fault short-circuits.
pub open spec fn render_seq(bs: Seq<BlockV>, m: ModelV) -> Result<(Seq<char>, ModelV), RenderErrV>
    decreases bs, 0int,
{
    if bs.len() == 0 {
        Ok((Seq::empty(), m))
    } else {
        match render_block(bs[0], m) {
            Err(e) => Err(e),
            Ok(p) => match render_seq(bs.drop_first(), p.1) {
                Err(e) => Err(e),
                Ok(q) => Ok((p.0 + q.0, q.1)),
            },
        }
    }
}

/// Iterations `i..n` of a `foreach` body: each binds the alias to element
/// `i` of the array, renders the body, and appends.
pub open spec fn render_iter(
    children: Seq<BlockV>,
    array: Seq<char>,
    alias: Seq<char>,
    i: int,
    n: int,
    m: ModelV,
) -> Result<(Seq<char>, ModelV), RenderErrV>
    decreases children, n - i + 1,
{
    if i >= n {
        Ok((Seq::empty(), m))
    } else {
        let m1 = ModelV {
            params: m.params,
            aliases: set_alias_spec(
                m.aliases,
                AliasV { name: alias, target: array, index: Option::Some(i) },
            ),
        };
        match render_seq(children, m1) {
            Err(e) => Err(e),
            Ok(p) => match render_iter(children, array, alias, i + 1, n, p.1) {
                Err(e) => Err(e),
                Ok(q) => Ok((p.0 + q.0, q.1)),
            },
        }
    }
}

impl Block {
    /// Renders this block against the model, as `render_block` states.
    #[verifier::loop_isolation(false)]
    pub fn render(&self, model: &mut Model) -> (r: Result<String, RenderError>)
        ensures
            render_block(self@, old(model)@) matches Ok(p) ==> r matches Ok(s) && s@ == p.0
                && final(model)@ == p.1,
            render_block(self@, old(model)@) matches Err(e) ==> r matches Err(e2) && e2@ == e,
        decreases self,
    {
        match self {
            Block::Text(t) => Ok(t.clone()),
            Block::Variable(p) => {
                let found = model.get_param(p.as_str());
                match found {
                    Some(v) => Ok(v.to_text()),
                    None => Err(RenderError::MissingVariable(p.clone())),
                }
            },
            Block::Anonymous(bs) => {
                proof {
                    assert(*self == Block::Anonymous(*bs));
                    assert(decreases_to!(Block::Anonymous(*bs) => *bs));
                }
                render_children(bs, model)
            },
            Block::ForEach(fb) => {
                let n = {
                    let found = model.get_param(fb.array_name.as_str());
                    match found {
                        Some(v) => match v {
                            Value::List(l) => {
                                proof {
                                    crate::value::lemma_view_values_len(l@);
                                }
                                l.len()
                            },
                            _ => {
                                return Err(RenderError::NotList(fb.array_name.clone()));
                            },
                        },
                        None => {
                            return Err(RenderError::MissingArray(fb.array_name.clone()));
                        },
                    }
                };
                let ghost bsv = view_blocks(fb.children@);
                let ghost m0 = model@;
                let ghost goal = render_iter(bsv, fb.array_name@, fb.alias@, 0, n as int, m0);
                proof {
                    assert(render_block(self@, old(model)@) == goal);
                }
                let mut out = String::new();
                let mut i: usize = 0;
                while i < n
                    invariant
                        i <= n,
                        bsv == view_blocks(fb.children@),
                        goal == (match render_iter(
                            bsv,
                            fb.array_name@,
                            fb.alias@,
                            i as int,
                            n as int,
                            model@,
                        ) {
                            Ok(q) => Ok::<_, RenderErrV>((out@ + q.0, q.1)),
                            Err(e) => Err::<(Seq<char>, ModelV), _>(e),
                        }),
                    decreases n - i,
                {
                    let ghost m_i = model@;
                    model.set_alias(
                        Alias {
                            name: fb.alias.clone(),
                            target: fb.array_name.clone(),
                            identifier: Identifier::Index(i),
                        },
                    );
                    proof {
                        assert(model@ == (ModelV {
                            params: m_i.params,
                            aliases: set_alias_spec(
                                m_i.aliases,
                                AliasV {
                                    name: fb.alias@,
                                    target: fb.array_name@,
                                    index: Option::Some(i as int),
                                },
                            ),
                        }));
                        assert(render_iter(bsv, fb.array_name@, fb.alias@, i as int, n as int, m_i)
                            == (match render_seq(bsv, model@) {
                            Err(e) => Err::<(Seq<char>, ModelV), _>(e),
                            Ok(p) => match render_iter(
                                bsv,
                                fb.array_name@,
                                fb.alias@,
                                i + 1,
                                n as int,
                                p.1,
                            ) {
                                Err(e) => Err::<(Seq<char>, ModelV), _>(e),
                                Ok(q) => Ok::<_, RenderErrV>((p.0 + q.0, q.1)),
                            },
                        }));
                        assert(*self == Block::ForEach(*fb));
                        assert(decreases_to!(Block::ForEach(*fb) => *fb));
                        assert(decreases_to!(*fb => fb.children));
                    }
                    let piece = match render_children(&fb.children, model) {
                        Ok(piece) => piece,
                        Err(e) => {
                            return Err(e);
                        },
                    };
                    let ghost prev = out@;
                    out.append(piece.as_str());
                    proof {
                        let after = render_iter(
                            bsv,
                            fb.array_name@,
                            fb.alias@,
                            i + 1,
                            n as int,
                            model@,
                        );
                        if after is Ok {
                            assert(prev + (piece@ + after->Ok_0.0) =~= out@ + after->Ok_0.0);
                        }
                    }
                    i = i + 1;
                }
                Ok(out)
            },
        }
    }
}

/// Renders blocks in order against the model, concatenating their texts, as
/// `render_seq` states.
#[verifier::loop_isolation(false)]
fn render_children(bs: &Vec<Block>, model: &mut Model) -> (r: Result<String, RenderError>)
    ensures
        render_seq(view_blocks(bs@), old(model)@) matches Ok(p) ==> r matches Ok(s) && s@ == p.0
            && final(model)@ == p.1,
        render_seq(view_blocks(bs@), old(model)@) matches Err(e) ==> r matches Err(e2) && e2@ == e,
    decreases bs,
{
    let ghost bsv = view_blocks(bs@);
    let ghost m0 = old(model)@;
    let ghost goal = render_seq(bsv, m0);
    proof {
        lemma_view_blocks_len(bs@);
        assert(bsv.skip(0) =~= bsv);
    }
    let mut out = String::new();
    let mut k: usize = 0;
    while k < bs.len()
        invariant
            k <= bs.len(),
            bsv == view_blocks(bs@),
            bsv.len() == bs@.len(),
            goal == (match render_seq(bsv.skip(k as int), model@) {
                Ok(q) => Ok::<_, RenderErrV>((out@ + q.0, q.1)),
                Err(e) => Err::<(Seq<char>, ModelV), _>(e),
            }),
        decreases bs.len() - k,
    {
        let ghost m_k = model@;
        proof {
            lemma_view_blocks_index(bs@, k as int);
            assert(bsv.skip(k as int)[0] == bsv[k as int]);
            assert(bsv.skip(k as int).drop_first() =~= bsv.skip(k + 1));
            assert(decreases_to!(*bs => bs@));
            assert(decreases_to!(bs@ => bs@[k as int]));
            assert(render_seq(bsv.skip(k as int), m_k) == (match render_block(bsv[k as int], m_k) {
                Err(e) => Err::<(Seq<char>, ModelV), _>(e),
                Ok(p) => match render_seq(bsv.skip(k + 1), p.1) {
                    Err(e) => Err::<(Seq<char>, ModelV), _>(e),
                    Ok(q) => Ok::<_, RenderErrV>((p.0 + q.0, q.1)),
                },
            }));
        }
        let piece = match bs[k].render(model) {
            Ok(piece) => piece,
            Err(e) => {
                return Err(e);
            },
        };
        let ghost prev = out@;
        out.append(piece.as_str());
        proof {
            let after = render_seq(bsv.skip(k + 1), model@);
            if after is Ok {
                assert(prev + (piece@ + after->Ok_0.0) =~= out@ + after->Ok_0.0);
            }
        }
        k = k + 1;
    }
    proof {
        assert(bsv.skip(bsv.len() as int) =~= Seq::<BlockV>::empty());
        assert(out@ + Seq::<char>::empty() =~= out@);
    }
    Ok(out)
}

} // verus!
