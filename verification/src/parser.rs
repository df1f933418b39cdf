//! The block parser: a scope-tracking grammar over the token stream that
//! builds the nested block tree. `foreach` opens a scope, `end` closes one;
//! every other expression is a dotted variable path.

use crate::text::lower;
use crate::text::lower_text;
use crate::text::split_whitespace_words;
use crate::text::split_ws;
use crate::text::trim_text;
use crate::text::trimmed;
use crate::tokenizer::Kind;
use crate::tokenizer::Token;
use crate::tokenizer::TokenV;
use crate::tokenizer::tokenize;
use crate::tokenizer::tokenize_spec;
use crate::tokenizer::view_tokens;
use vstd::prelude::*;

verus! {

/// One node of the compiled template tree.
#[derive(Debug)]
pub enum Block {
    /// Literal text, rendered verbatim.
    Text(String),
    /// A dotted variable path, rendered via model lookup.
    Variable(String),
    /// An iteration over a list-typed value.
    ForEach(ForEachBlock),
    /// A plain sequence of child blocks; the document root is one.
    Anonymous(Vec<Block>),
}

/// The iteration node: the list to walk, the alias each element is bound
/// to, and the body.
#[derive(Debug)]
pub struct ForEachBlock {
    pub array_name: String,
    pub alias: String,
    pub children: Vec<Block>,
}

/// The mathematical shape of a `Block`.
pub enum BlockV {
    Text(Seq<char>),
    Variable(Seq<char>),
    ForEach(ForEachV),
    Anonymous(Seq<BlockV>),
}

/// The mathematical shape of a `ForEachBlock`.
pub struct ForEachV {
    pub array: Seq<char>,
    pub alias: Seq<char>,
    pub children: Seq<BlockV>,
}

impl View for Block {
    type V = BlockV;

    open spec fn view(&self) -> BlockV
        decreases self,
    {
        match self {
            Block::Text(s) => BlockV::Text(s@),
            Block::Variable(s) => BlockV::Variable(s@),
            Block::ForEach(fb) => BlockV::ForEach(fb@),
            Block::Anonymous(bs) => BlockV::Anonymous(view_blocks(bs@)),
        }
    }
}

impl View for ForEachBlock {
    type V = ForEachV;

    open spec fn view(&self) -> ForEachV
        decreases self,
    {
        ForEachV {
            array: self.array_name@,
            alias: self.alias@,
            children: view_blocks(self.children@),
        }
    }
}

/// The views of a block sequence, element by element.
pub open spec fn view_blocks(s: Seq<Block>) -> Seq<BlockV>
    decreases s,
{
    if s.len() == 0 {
        Seq::empty()
    } else {
        view_blocks(s.drop_last()).push(s.last()@)
    }
}

pub proof fn lemma_view_blocks_len(s: Seq<Block>)
    ensures
        view_blocks(s).len() == s.len(),
    decreases s,
{
    if s.len() > 0 {
        lemma_view_blocks_len(s.drop_last());
        assert(view_blocks(s) == view_blocks(s.drop_last()).push(s.last()@));
    }
}

pub proof fn lemma_view_blocks_index(s: Seq<Block>, i: int)
    requires
        0 <= i < s.len(),
    ensures
        view_blocks(s)[i] == s[i]@,
    decreases s,
{
    lemma_view_blocks_len(s);
    assert(view_blocks(s) == view_blocks(s.drop_last()).push(s.last()@));
    if i < s.len() - 1 {
        lemma_view_blocks_index(s.drop_last(), i);
    }
}

/// A structural fault in the template grammar.
#[derive(Debug, Clone, Copy, PartialEq, Eq)]
pub enum ParseError {
    /// An `end` with no open scope to close.
    UnmatchedEnd,
    /// A scope still open when the template text ends.
    UnclosedScope,
}

pub open spec fn kw_end() -> Seq<char> {
    seq!['e', 'n', 'd']
}

pub open spec fn kw_foreach() -> Seq<char> {
    seq!['f', 'o', 'r', 'e', 'a', 'c', 'h']
}

pub open spec fn kw_in() -> Seq<char> {
    seq!['i', 'n']
}

/// Whether an expression closes the current scope: its trimmed text is
/// `end`, case-insensitively.
pub open spec fn is_end_expr(text: Seq<char>) -> bool {
    lower_text(trimmed(text)) == kw_end()
}

/// Whether an expression opens an iteration: exactly the four words
/// `foreach <alias> in <arrayName>`, keywords case-insensitive. The result
/// is the array name and the alias.
pub open spec fn foreach_header(text: Seq<char>) -> Option<(Seq<char>, Seq<char>)> {
    let parts = split_ws(text);
    if parts.len() == 4 && lower_text(parts[0]) == kw_foreach() && lower_text(parts[2])
        == kw_in() {
        Option::Some((parts[3], parts[1]))
    } else {
        Option::None
    }
}

/// An open scope while parsing: the document root, or an iteration under
/// construction, with the blocks gathered so far.
pub struct Scope {
    header: Option<(String, String)>,
    blocks: Vec<Block>,
}

/// The mathematical shape of a `Scope`: the iteration header (array name
/// and alias), if any, and the gathered blocks.
pub struct ScopeV {
    pub header: Option<(Seq<char>, Seq<char>)>,
    pub blocks: Seq<BlockV>,
}

impl View for Scope {
    type V = ScopeV;

    closed spec fn view(&self) -> ScopeV {
        ScopeV {
            header: match self.header {
                Option::Some((a, al)) => Option::Some((a@, al@)),
                Option::None => Option::None,
            },
            blocks: view_blocks(self.blocks@),
        }
    }
}

/// The finished block an open scope turns into when it closes.
pub open spec fn finish_scope(sc: ScopeV) -> BlockV {
    match sc.header {
        Option::Some((arr, al)) => BlockV::ForEach(
            ForEachV { array: arr, alias: al, children: sc.blocks },
        ),
        Option::None => BlockV::Anonymous(sc.blocks),
    }
}

/// The stack with a block appended to its top scope.
pub open spec fn push_block(stack: Seq<ScopeV>, b: BlockV) -> Seq<ScopeV> {
    stack.update(
        stack.len() - 1,
        ScopeV { header: stack.last().header, blocks: stack.last().blocks.push(b) },
    )
}

/// One token of parsing against the scope stack.
pub open spec fn parse_step(stack: Seq<ScopeV>, tok: TokenV) -> Result<Seq<ScopeV>, ParseError> {
    if tok.kind is Text {
        Ok(push_block(stack, BlockV::Text(tok.text)))
    } else if is_end_expr(tok.text) {
        if stack.len() <= 1 {
            Err(ParseError::UnmatchedEnd)
        } else {
            Ok(push_block(stack.drop_last(), finish_scope(stack.last())))
        }
    } else {
        match foreach_header(tok.text) {
            Option::Some((arr, al)) => Ok(
                stack.push(ScopeV { header: Option::Some((arr, al)), blocks: Seq::empty() }),
            ),
            Option::None => Ok(push_block(stack, BlockV::Variable(trimmed(tok.text)))),
        }
    }
}

/// The parser run over a token sequence, from a given stack.
pub open spec fn parse_steps(stack: Seq<ScopeV>, toks: Seq<TokenV>) -> Result<
    Seq<ScopeV>,
    ParseError,
>
    decreases toks.len(),
{
    if toks.len() == 0 {
        Ok(stack)
    } else {
        match parse_step(stack, toks[0]) {
            Err(e) => Err(e),
            Ok(stack2) => parse_steps(stack2, toks.drop_first()),
        }
    }
}

pub open spec fn root_scope() -> ScopeV {
    ScopeV { header: Option::None, blocks: Seq::empty() }
}

/// What parsing a token stream yields: the root block, or the first
/// structural fault. Exactly the root scope may remain open at the end.
pub open spec fn parse_spec(toks: Seq<TokenV>) -> Result<BlockV, ParseError> {
    match parse_steps(seq![root_scope()], toks) {
        Err(e) => Err(e),
        Ok(stack) => {
            if stack.len() == 1 {
                Ok(BlockV::Anonymous(stack[0].blocks))
            } else {
                Err(ParseError::UnclosedScope)
            }
        },
    }
}

impl Scope {
    /// A fresh anonymous scope: the document root.
    pub fn anonymous() -> (r: Scope)
        ensures
            r@ == root_scope(),
    {
        Scope { header: None, blocks: Vec::new() }
    }

    /// A fresh iteration scope with this header.
    pub fn open_for_each(fb: ForEachBlock) -> (r: Scope)
        requires
            fb.children@.len() == 0,
        ensures
            r@ == (ScopeV {
                header: Option::Some((fb.array_name@, fb.alias@)),
                blocks: Seq::<BlockV>::empty(),
            }),
    {
        proof {
            lemma_view_blocks_len(fb.children@);
            assert(view_blocks(fb.children@) =~= Seq::<BlockV>::empty());
        }
        Scope { header: Some((fb.array_name, fb.alias)), blocks: fb.children }
    }

    /// Appends a block to this scope.
    pub fn add_block(&mut self, block: Block)
        ensures
            final(self)@.header == old(self)@.header,
            final(self)@.blocks == old(self)@.blocks.push(block@),
    {
        let ghost pre = self.blocks@;
        self.blocks.push(block);
        proof {
            assert(self.blocks@.drop_last() =~= pre);
            assert(view_blocks(self.blocks@) == view_blocks(pre).push(self.blocks@.last()@));
        }
    }

    /// The blocks gathered in this scope.
    pub fn into_blocks(self) -> (r: Vec<Block>)
        ensures
            view_blocks(r@) == self@.blocks,
    {
        self.blocks
    }

    /// Closes this scope into its finished block.
    pub fn finish(self) -> (r: Block)
        ensures
            r@ == finish_scope(self@),
    {
        match self.header {
            Some((array_name, alias)) => Block::ForEach(
                ForEachBlock { array_name, alias, children: self.blocks },
            ),
            None => Block::Anonymous(self.blocks),
        }
    }
}

/// Whether this token's trimmed text is the keyword `end`.
fn is_end_token(token: &Token) -> (r: bool)
    ensures
        r == is_end_expr(token.buffer@),
{
    let tr = trim_text(token.buffer.as_str());
    let low = lower(tr.as_str());
    let r = low == String::from_str("end");
    proof {
        reveal_strlit("end");
        assert(("end")@ =~= kw_end());
    }
    r
}

impl ForEachBlock {
    /// Reads an iteration header out of a token: exactly the four words
    /// `foreach <alias> in <arrayName>`, keywords case-insensitive.
    pub fn from(token: &Token) -> (r: Option<ForEachBlock>)
        ensures
            match r {
                Some(fb) => {
                    &&& foreach_header(token.buffer@) == Option::Some((fb.array_name@, fb.alias@))
                    &&& fb.children@.len() == 0
                },
                None => foreach_header(token.buffer@) is None,
            },
    {
        let parts = split_whitespace_words(token.buffer.as_str());
        let ghost pv = split_ws(token.buffer@);
        proof {
            assert(parts.deep_view().len() == pv.len());
        }
        if parts.len() != 4 {
            return None;
        }
        proof {
            assert(parts.deep_view()[0] == parts@[0]@);
            assert(parts.deep_view()[1] == parts@[1]@);
            assert(parts.deep_view()[2] == parts@[2]@);
            assert(parts.deep_view()[3] == parts@[3]@);
        }
        let p0 = lower(parts[0].as_str());
        let p2 = lower(parts[2].as_str());
        let is_foreach = p0 == String::from_str("foreach");
        let is_in = p2 == String::from_str("in");
        proof {
            reveal_strlit("foreach");
            reveal_strlit("in");
            assert(("foreach")@ =~= kw_foreach());
            assert(("in")@ =~= kw_in());
        }
        if is_foreach && is_in {
            Some(
                ForEachBlock {
                    array_name: parts[3].clone(),
                    alias: parts[1].clone(),
                    children: Vec::new(),
                },
            )
        } else {
            None
        }
    }
}

/// Parses a token stream into the root block of the tree.
pub fn parse_tokens(tokens: &Vec<Token>) -> (r: Result<Block, ParseError>)
    ensures
        match r {
            Ok(b) => parse_spec(view_tokens(tokens@)) == Ok::<_, ParseError>(b@),
            Err(e) => parse_spec(view_tokens(tokens@)) == Err::<BlockV, _>(e),
        },
{
    let ghost toks = view_tokens(tokens@);
    let mut stack: Vec<Scope> = Vec::new();
    stack.push(Scope::anonymous());
    proof {
        assert(toks.skip(0) =~= toks);
        assert(stack@.map_values(|s: Scope| s@) =~= seq![root_scope()]);
    }
    let mut i: usize = 0;
    while i < tokens.len()
        invariant
            i <= tokens.len(),
            toks == view_tokens(tokens@),
            toks.len() == tokens@.len(),
            stack@.len() >= 1,
            parse_steps(seq![root_scope()], toks) == parse_steps(
                stack@.map_values(|s: Scope| s@),
                toks.skip(i as int),
            ),
        decreases tokens.len() - i,
    {
        let ghost st = stack@.map_values(|s: Scope| s@);
        proof {
            assert(toks.skip(i as int)[0] == toks[i as int]);
            assert(toks.skip(i as int).drop_first() =~= toks.skip(i + 1));
            assert(toks[i as int] == tokens@[i as int]@);
            assert(st.last() == stack@.last()@);
        }
        let token = &tokens[i];
        match token.kind {
            Kind::Text => {
                let mut top = stack.pop().unwrap();
                top.add_block(Block::Text(token.buffer.clone()));
                stack.push(top);
                proof {
                    assert(stack@.map_values(|s: Scope| s@) =~= push_block(
                        st,
                        BlockV::Text(token.buffer@),
                    ));
                }
            },
            Kind::Expression => {
                if is_end_token(token) {
                    if stack.len() <= 1 {
                        return Err(ParseError::UnmatchedEnd);
                    }
                    let child_scope = stack.pop().unwrap();
                    let child = child_scope.finish();
                    let mut parent = stack.pop().unwrap();
                    parent.add_block(child);
                    stack.push(parent);
                    proof {
                        assert(stack@.map_values(|s: Scope| s@) =~= push_block(
                            st.drop_last(),
                            finish_scope(st.last()),
                        ));
                    }
                } else {
                    match ForEachBlock::from(token) {
                        Some(fb) => {
                            let ghost header = (fb.array_name@, fb.alias@);
                            stack.push(Scope::open_for_each(fb));
                            proof {
                                assert(stack@.map_values(|s: Scope| s@) =~= st.push(
                                    ScopeV {
                                        header: Option::Some(header),
                                        blocks: Seq::empty(),
                                    },
                                ));
                            }
                        },
                        None => {
                            let mut top = stack.pop().unwrap();
                            top.add_block(Block::Variable(trim_text(token.buffer.as_str())));
                            stack.push(top);
                            proof {
                                assert(stack@.map_values(|s: Scope| s@) =~= push_block(
                                    st,
                                    BlockV::Variable(trimmed(token.buffer@)),
                                ));
                            }
                        },
                    }
                }
            },
        }
        proof {
            let st2 = stack@.map_values(|s: Scope| s@);
            assert(parse_step(st, toks[i as int]) == Ok::<_, ParseError>(st2));
        }
        i = i + 1;
    }
    let ghost st_final = stack@.map_values(|s: Scope| s@);
    proof {
        assert(toks.skip(toks.len() as int) =~= Seq::<TokenV>::empty());
    }
    if stack.len() == 1 {
        let root = stack.pop().unwrap();
        let ghost rv = root@;
        proof {
            assert(stack@.map_values(|s: Scope| s@).push(rv) =~= st_final);
            assert(rv == st_final[0]);
        }
        let b = Block::Anonymous(root.into_blocks());
        Ok(b)
    } else {
        Err(ParseError::UnclosedScope)
    }
}

/// Compiles template text into the root block of its tree.
pub fn convert_to_blocks(template: &str) -> (r: Result<Block, ParseError>)
    ensures
        match r {
            Ok(b) => parse_spec(tokenize_spec(template@)) == Ok::<_, ParseError>(b@),
            Err(e) => parse_spec(tokenize_spec(template@)) == Err::<BlockV, _>(e),
        },
{
    let tokens = tokenize(template);
    parse_tokens(&tokens)
}

} // verus!

verus! {

/// How one token changes the number of open scopes: a `foreach` opens one,
/// an `end` closes one, everything else leaves them alone.
pub open spec fn expr_delta(tok: TokenV) -> int {
    if tok.kind is Text {
        0
    } else if is_end_expr(tok.text) {
        -1
    } else if foreach_header(tok.text) is Some {
        1
    } else {
        0
    }
}

/// The net number of scopes a token stream opens.
pub open spec fn depth(toks: Seq<TokenV>) -> int
    decreases toks.len(),
{
    if toks.len() == 0 {
        0
    } else {
        expr_delta(toks[0]) + depth(toks.drop_first())
    }
}

proof fn lemma_depth_take_shift(toks: Seq<TokenV>, k: int)
    requires
        1 <= k <= toks.len(),
    ensures
        depth(toks.take(k)) == expr_delta(toks[0]) + depth(toks.drop_first().take(k - 1)),
{
    assert(toks.take(k)[0] == toks[0]);
    assert(toks.take(k).drop_first() =~= toks.drop_first().take(k - 1));
}

proof fn lemma_parse_steps_balanced(stack: Seq<ScopeV>, toks: Seq<TokenV>)
    requires
        stack.len() >= 1,
        forall|j: int| 0 < j <= toks.len() ==> stack.len() + depth(#[trigger] toks.take(j)) >= 1,
    ensures
        parse_steps(stack, toks) matches Ok(st2) && st2.len() == stack.len() + depth(toks),
    decreases toks.len(),
{
    if toks.len() > 0 {
        let tok = toks[0];
        assert(toks.take(1) =~= seq![tok]);
        assert(toks.take(1).drop_first() =~= Seq::<TokenV>::empty());
        assert(depth(toks.take(1)) == expr_delta(toks.take(1)[0]) + depth(
            toks.take(1).drop_first(),
        ));
        assert(depth(toks.take(1)) == expr_delta(tok));
        assert(stack.len() + expr_delta(tok) >= 1);
        let st2 = parse_step(stack, tok)->Ok_0;
        assert(parse_step(stack, tok) == Ok::<_, ParseError>(st2) && st2.len() == stack.len()
            + expr_delta(tok));
        assert forall|j: int| 0 < j <= toks.drop_first().len() implies st2.len() + depth(
            #[trigger] toks.drop_first().take(j),
        ) >= 1 by {
            assert(stack.len() + depth(toks.take(j + 1)) >= 1);
            lemma_depth_take_shift(toks, j + 1);
        }
        lemma_parse_steps_balanced(st2, toks.drop_first());
    }
}

proof fn lemma_parse_steps_err(stack: Seq<ScopeV>, toks: Seq<TokenV>)
    requires
        stack.len() >= 1,
        exists|j: int| 0 < j <= toks.len() && stack.len() + depth(#[trigger] toks.take(j)) < 1,
    ensures
        parse_steps(stack, toks) == Err::<Seq<ScopeV>, _>(ParseError::UnmatchedEnd),
    decreases toks.len(),
{
    let jw = choose|j: int| 0 < j <= toks.len() && stack.len() + depth(#[trigger] toks.take(j))
        < 1;
    let tok = toks[0];
    assert(toks.take(1) =~= seq![tok]);
    assert(toks.take(1).drop_first() =~= Seq::<TokenV>::empty());
    assert(depth(toks.take(1)) == expr_delta(toks.take(1)[0]) + depth(toks.take(1).drop_first()));
    assert(depth(toks.take(1)) == expr_delta(tok));
    if stack.len() + expr_delta(tok) < 1 {
        assert(stack.len() == 1 && expr_delta(tok) == -1);
        assert(parse_step(stack, tok) == Err::<Seq<ScopeV>, _>(ParseError::UnmatchedEnd));
    } else {
        let st2 = parse_step(stack, tok)->Ok_0;
        assert(parse_step(stack, tok) == Ok::<_, ParseError>(st2) && st2.len() == stack.len()
            + expr_delta(tok));
        assert(jw > 1);
        lemma_depth_take_shift(toks, jw);
        assert(st2.len() + depth(toks.drop_first().take(jw - 1)) < 1);
        lemma_parse_steps_err(st2, toks.drop_first());
    }
}

/// Scope balance, over every token stream. Parsing fails with an unmatched
/// `end` exactly when some prefix closes more scopes than it opens, fails
/// with an unclosed scope exactly when no prefix does but scopes stay open
/// at the end, and succeeds otherwise.
pub proof fn lemma_scope_balance(toks: Seq<TokenV>)
    ensures
        (exists|j: int| 0 < j <= toks.len() && depth(#[trigger] toks.take(j)) < 0) ==> parse_spec(
            toks,
        ) == Err::<BlockV, _>(ParseError::UnmatchedEnd),
        (forall|j: int| 0 < j <= toks.len() ==> depth(#[trigger] toks.take(j)) >= 0) && depth(toks)
            > 0 ==> parse_spec(toks) == Err::<BlockV, _>(ParseError::UnclosedScope),
        (forall|j: int| 0 < j <= toks.len() ==> depth(#[trigger] toks.take(j)) >= 0) && depth(toks)
            == 0 ==> parse_spec(toks) is Ok,
{
    let stack = seq![root_scope()];
    if exists|j: int| 0 < j <= toks.len() && depth(#[trigger] toks.take(j)) < 0 {
        lemma_parse_steps_err(stack, toks);
    } else if forall|j: int| 0 < j <= toks.len() ==> depth(#[trigger] toks.take(j)) >= 0 {
        lemma_parse_steps_balanced(stack, toks);
        if depth(toks) >= 0 {
            assert(toks.take(toks.len() as int) =~= toks);
        }
    }
}

} // verus!
