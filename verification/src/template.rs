//! The compiled template: built once from template text, immutable
//! thereafter, rendered any number of times against a model.

use crate::model::Model;
use crate::parser::BlockV;
use crate::parser::Block;
use crate::parser::ParseError;
use crate::parser::convert_to_blocks;
use crate::parser::parse_spec;
use crate::render::RenderError;
use crate::render::render_block;
use crate::tokenizer::tokenize_spec;
use vstd::prelude::*;

verus! {

/// A compiled template: the root of its block tree.
#[derive(Debug)]
pub struct Template {
    root: Block,
}

impl View for Template {
    type V = BlockV;

    closed spec fn view(&self) -> BlockV {
        self.root@
    }
}

impl Template {
    /// Compiles template text; a structural fault in the grammar is
    /// reported, not swallowed.
    pub fn new(template: &str) -> (r: Result<Template, ParseError>)
        ensures
            match r {
                Ok(t) => parse_spec(tokenize_spec(template@)) == Ok::<_, ParseError>(t@),
                Err(e) => parse_spec(tokenize_spec(template@)) == Err::<BlockV, _>(e),
            },
    {
        match convert_to_blocks(template) {
            Ok(b) => Ok(Template { root: b }),
            Err(e) => Err(e),
        }
    }

    /// Renders the template against the model: all or nothing, as
    /// `render_block` states.
    pub fn substitute(&self, model: &mut Model) -> (r: Result<String, RenderError>)
        ensures
            render_block(self@, old(model)@) matches Ok(p) ==> r matches Ok(s) && s@ == p.0
                && final(model)@ == p.1,
            render_block(self@, old(model)@) matches Err(e) ==> r matches Err(e2) && e2@ == e,
    {
        self.root.render(model)
    }
}

} // verus!
