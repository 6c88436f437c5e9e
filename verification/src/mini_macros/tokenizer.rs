//! The macro layer: a pass over the source text that collects `defmacro`
//! definitions and replaces each call `NAME!(..);` by the definition's body.

use vstd::prelude::*;
use vstd::string::StringExecFns;
use crate::text::{chars_of, clone_strings, push_char, push_text, range_is, source_text, string_of, Sources};
use crate::text::is_digit;
use crate::tokens::{digits_end, is_blank, is_letter, letter, scan_digits, scan_word, word_end};

verus! {

/// A token of the macro layer. Text that the layer has no use for travels
/// as `Rest`.
#[derive(Debug, PartialEq)]
pub enum MiniToken {
    DefMacro,
    Comma,
    Space,
    Identifer(String),
    CallIdentifer(String),
    LeftBrace,
    LeftParen,
    RightBrace,
    RightParen,
    NewLine,
    SemiColon,
    Rest(String),
    Nothing,
}

/// A token of the macro layer as a mathematical value.
pub enum MiniTokenView {
    DefMacro,
    Comma,
    Space,
    Identifer(Seq<char>),
    CallIdentifer(Seq<char>),
    LeftBrace,
    LeftParen,
    RightBrace,
    RightParen,
    NewLine,
    SemiColon,
    Rest(Seq<char>),
    Nothing,
}

impl View for MiniToken {
    type V = MiniTokenView;

    open spec fn view(&self) -> MiniTokenView {
        match self {
            MiniToken::DefMacro => MiniTokenView::DefMacro,
            MiniToken::Comma => MiniTokenView::Comma,
            MiniToken::Space => MiniTokenView::Space,
            MiniToken::Identifer(s) => MiniTokenView::Identifer(s@),
            MiniToken::CallIdentifer(s) => MiniTokenView::CallIdentifer(s@),
            MiniToken::LeftBrace => MiniTokenView::LeftBrace,
            MiniToken::LeftParen => MiniTokenView::LeftParen,
            MiniToken::RightBrace => MiniTokenView::RightBrace,
            MiniToken::RightParen => MiniTokenView::RightParen,
            MiniToken::NewLine => MiniTokenView::NewLine,
            MiniToken::SemiColon => MiniTokenView::SemiColon,
            MiniToken::Rest(s) => MiniTokenView::Rest(s@),
            MiniToken::Nothing => MiniTokenView::Nothing,
        }
    }
}

impl Clone for MiniToken {
    fn clone(&self) -> (r: MiniToken)
        ensures
            r@ == self@,
    {
        match self {
            MiniToken::DefMacro => MiniToken::DefMacro,
            MiniToken::Comma => MiniToken::Comma,
            MiniToken::Space => MiniToken::Space,
            MiniToken::Identifer(s) => MiniToken::Identifer(s.clone()),
            MiniToken::CallIdentifer(s) => MiniToken::CallIdentifer(s.clone()),
            MiniToken::LeftBrace => MiniToken::LeftBrace,
            MiniToken::LeftParen => MiniToken::LeftParen,
            MiniToken::RightBrace => MiniToken::RightBrace,
            MiniToken::RightParen => MiniToken::RightParen,
            MiniToken::NewLine => MiniToken::NewLine,
            MiniToken::SemiColon => MiniToken::SemiColon,
            MiniToken::Rest(s) => MiniToken::Rest(s.clone()),
            MiniToken::Nothing => MiniToken::Nothing,
        }
    }
}

/// The views of a run of tokens.
pub open spec fn mini_views(v: Seq<MiniToken>) -> Seq<MiniTokenView> {
    Seq::new(v.len(), |i: int| v[i]@)
}

/// The views of a run of tokens with one more behind it.
pub proof fn lemma_mini_views_push(v: Seq<MiniToken>, t: MiniToken)
    ensures
        mini_views(v.push(t)) == mini_views(v).push(t@),
{
    assert(mini_views(v.push(t)) =~= mini_views(v).push(t@));
}

fn clone_tokens(v: &Vec<MiniToken>) -> (r: Vec<MiniToken>)
    ensures
        mini_views(r@) == mini_views(v@),
{
    let mut r: Vec<MiniToken> = Vec::new();
    let mut i: usize = 0;
    while i < v.len()
        invariant
            i <= v.len(),
            r@.len() == i,
            forall|j: int| 0 <= j < i ==> r@[j]@ == v@[j]@,
        decreases v.len() - i,
    {
        r.push(v[i].clone());
        i += 1;
    }
    assert(mini_views(r@) =~= mini_views(v@));
    r
}

/// The first index at or after `pos` that holds a line feed, or the end.
pub open spec fn line_end(src: Seq<char>, pos: int) -> int
    decreases src.len() - pos,
{
    if 0 <= pos < src.len() && src[pos] != '\n' {
        line_end(src, pos + 1)
    } else {
        pos
    }
}

/// The index just past the first `"` at or after `pos`, or the end.
pub open spec fn quote_end(src: Seq<char>, pos: int) -> int
    decreases src.len() - pos,
{
    if 0 <= pos < src.len() {
        if src[pos] == '"' {
            pos + 1
        } else {
            quote_end(src, pos + 1)
        }
    } else {
        pos
    }
}

/// A token of the macro layer and the index just past it.
pub struct MiniScanned {
    pub token: MiniTokenView,
    pub end: int,
}

/// A word that starts at `pos`: `defmacro`, a parameter (it starts with
/// `$`), a call site (a `!` follows at once; the token keeps it), or text.
pub open spec fn mini_word(src: Seq<char>, pos: int) -> MiniScanned {
    let e = word_end(src, pos + 1);
    let w = src.subrange(pos, e);
    if w == "defmacro"@ {
        MiniScanned { token: MiniTokenView::DefMacro, end: e }
    } else if src[pos] == '$' {
        MiniScanned { token: MiniTokenView::Identifer(w), end: e }
    } else if e < src.len() && src[e] == '!' {
        MiniScanned { token: MiniTokenView::CallIdentifer(src.subrange(pos, e + 1)), end: e + 1 }
    } else {
        MiniScanned { token: MiniTokenView::Rest(w), end: e }
    }
}

/// A number that starts at `pos`, as text.
pub open spec fn mini_number(src: Seq<char>, pos: int) -> MiniScanned {
    let e = digits_end(src, pos);
    if e + 1 < src.len() && src[e] == '.' && is_digit(src[e + 1]) {
        let e2 = digits_end(src, e + 1);
        MiniScanned { token: MiniTokenView::Rest(src.subrange(pos, e2)), end: e2 }
    } else {
        MiniScanned { token: MiniTokenView::Rest(src.subrange(pos, e)), end: e }
    }
}

/// The token of the macro layer that starts at `pos`, for `pos` inside the
/// text. A comment runs to the end of its line and a quoted string to its
/// closing quote; both are `Rest`, as is whatever else has no meaning here.
pub open spec fn mini_scan(src: Seq<char>, pos: int) -> MiniScanned {
    let c = src[pos];
    if is_blank(c) {
        MiniScanned { token: MiniTokenView::Space, end: pos + 1 }
    } else if c == '\n' {
        MiniScanned { token: MiniTokenView::NewLine, end: pos + 1 }
    } else if c == '/' && pos + 1 < src.len() && src[pos + 1] == '/' {
        let e = line_end(src, pos);
        MiniScanned { token: MiniTokenView::Rest(src.subrange(pos, e)), end: e }
    } else if c == '(' {
        MiniScanned { token: MiniTokenView::LeftParen, end: pos + 1 }
    } else if c == ')' {
        MiniScanned { token: MiniTokenView::RightParen, end: pos + 1 }
    } else if c == '{' {
        MiniScanned { token: MiniTokenView::LeftBrace, end: pos + 1 }
    } else if c == '}' {
        MiniScanned { token: MiniTokenView::RightBrace, end: pos + 1 }
    } else if c == ',' {
        MiniScanned { token: MiniTokenView::Comma, end: pos + 1 }
    } else if c == ';' {
        MiniScanned { token: MiniTokenView::SemiColon, end: pos + 1 }
    } else if c == '"' {
        let e = quote_end(src, pos + 1);
        MiniScanned { token: MiniTokenView::Rest(src.subrange(pos, e)), end: e }
    } else if is_letter(c) || c == '$' {
        mini_word(src, pos)
    } else if is_digit(c) {
        mini_number(src, pos)
    } else {
        MiniScanned { token: MiniTokenView::Rest(src.subrange(pos, pos + 1)), end: pos + 1 }
    }
}

/// All tokens of the macro layer from `pos` to the end of the text.
pub open spec fn mini_tokens(src: Seq<char>, pos: int) -> Seq<MiniTokenView>
    decreases src.len() - pos,
{
    if pos < 0 || pos >= src.len() {
        Seq::empty()
    } else {
        let s = mini_scan(src, pos);
        if pos < s.end <= src.len() {
            seq![s.token] + mini_tokens(src, s.end)
        } else {
            seq![s.token]
        }
    }
}

/// The tokenizer of the macro layer; `start..end` is the place of the
/// token found last.
pub struct MacroTokenizer {
    source: Vec<char>,
    start: usize,
    end: usize,
}

/// A tokenizer as a mathematical value.
pub struct MacroTokenizerView {
    pub source: Seq<char>,
    pub start: int,
    pub end: int,
}

impl View for MacroTokenizer {
    type V = MacroTokenizerView;

    closed spec fn view(&self) -> MacroTokenizerView {
        MacroTokenizerView {
            source: self.source@,
            start: self.start as int,
            end: self.end as int,
        }
    }
}

fn scan_line(src: &Vec<char>, pos: usize) -> (e: usize)
    requires
        pos <= src.len(),
    ensures
        e == line_end(src@, pos as int),
        pos <= e <= src.len(),
{
    let mut e = pos;
    while e < src.len() && src[e] != '\n'
        invariant
            pos <= e <= src.len(),
            line_end(src@, e as int) == line_end(src@, pos as int),
        decreases src.len() - e,
    {
        e += 1;
    }
    e
}

fn scan_quote(src: &Vec<char>, pos: usize) -> (e: usize)
    requires
        pos <= src.len(),
    ensures
        e == quote_end(src@, pos as int),
        pos <= e <= src.len(),
{
    let mut e = pos;
    while e < src.len()
        invariant
            pos <= e <= src.len(),
            quote_end(src@, e as int) == quote_end(src@, pos as int),
        decreases src.len() - e,
    {
        if src[e] == '"' {
            return e + 1;
        }
        e += 1;
    }
    e
}

fn scan_mini_word(src: &Vec<char>, pos: usize) -> (r: (MiniToken, usize))
    requires
        pos < src.len(),
    ensures
        r.0@ == mini_word(src@, pos as int).token,
        r.1 == mini_word(src@, pos as int).end,
        pos < r.1 <= src.len(),
{
    let e = scan_word(src, pos + 1);
    if range_is(src, pos, e, "defmacro") {
        (MiniToken::DefMacro, e)
    } else if src[pos] == '$' {
        (MiniToken::Identifer(string_of(src, pos, e)), e)
    } else if e < src.len() && src[e] == '!' {
        (MiniToken::CallIdentifer(string_of(src, pos, e + 1)), e + 1)
    } else {
        (MiniToken::Rest(string_of(src, pos, e)), e)
    }
}

fn scan_mini_number(src: &Vec<char>, pos: usize) -> (r: (MiniToken, usize))
    requires
        pos < src.len(),
        is_digit(src@[pos as int]),
    ensures
        r.0@ == mini_number(src@, pos as int).token,
        r.1 == mini_number(src@, pos as int).end,
        pos < r.1 <= src.len(),
{
    let e = scan_digits(src, pos + 1);
    assert(digits_end(src@, pos as int) == digits_end(src@, pos + 1));
    if e < src.len() && e + 1 < src.len() && src[e] == '.' && '0' <= src[e + 1] && src[e + 1]
        <= '9' {
        let e2 = scan_digits(src, e + 1);
        (MiniToken::Rest(string_of(src, pos, e2)), e2)
    } else {
        (MiniToken::Rest(string_of(src, pos, e)), e)
    }
}

fn scan_mini(src: &Vec<char>, pos: usize) -> (r: (MiniToken, usize))
    requires
        pos < src.len(),
    ensures
        r.0@ == mini_scan(src@, pos as int).token,
        r.1 == mini_scan(src@, pos as int).end,
        pos < r.1 <= src.len(),
{
    let c = src[pos];
    if c == ' ' || c == '\t' || c == '\r' {
        (MiniToken::Space, pos + 1)
    } else if c == '\n' {
        (MiniToken::NewLine, pos + 1)
    } else if c == '/' && pos + 1 < src.len() && src[pos + 1] == '/' {
        let e = scan_line(src, pos + 2);
        assert(line_end(src@, pos as int) == line_end(src@, pos + 1));
        assert(line_end(src@, pos + 1) == line_end(src@, pos + 2));
        (MiniToken::Rest(string_of(src, pos, e)), e)
    } else if c == '(' {
        (MiniToken::LeftParen, pos + 1)
    } else if c == ')' {
        (MiniToken::RightParen, pos + 1)
    } else if c == '{' {
        (MiniToken::LeftBrace, pos + 1)
    } else if c == '}' {
        (MiniToken::RightBrace, pos + 1)
    } else if c == ',' {
        (MiniToken::Comma, pos + 1)
    } else if c == ';' {
        (MiniToken::SemiColon, pos + 1)
    } else if c == '"' {
        let e = scan_quote(src, pos + 1);
        (MiniToken::Rest(string_of(src, pos, e)), e)
    } else if letter(c) || c == '$' {
        scan_mini_word(src, pos)
    } else if '0' <= c && c <= '9' {
        scan_mini_number(src, pos)
    } else {
        (MiniToken::Rest(string_of(src, pos, pos + 1)), pos + 1)
    }
}

impl MacroTokenizer {
    /// The token's place lies inside the text.
    pub open spec fn wf(&self) -> bool {
        0 <= self@.start <= self@.end <= self@.source.len()
    }

    /// A tokenizer at the start of `source`.
    pub fn new(source: String) -> (t: MacroTokenizer)
        ensures
            t.wf(),
            t@ == (MacroTokenizerView { source: source@, start: 0, end: 0 }),
    {
        MacroTokenizer { source: chars_of(source.as_str()), start: 0, end: 0 }
    }

    /// The next token, or `None` at the end of the text.
    pub fn new_token(&mut self) -> (r: Option<MiniToken>)
        requires
            old(self).wf(),
        ensures
            final(self).wf(),
            final(self)@.source == old(self)@.source,
            old(self)@.end >= old(self)@.source.len() ==> r is None && final(self)@ == old(self)@,
            old(self)@.end < old(self)@.source.len() ==> r is Some && r->0@ == mini_scan(
                old(self)@.source,
                old(self)@.end,
            ).token && final(self)@.start == old(self)@.end && final(self)@.end == mini_scan(
                old(self)@.source,
                old(self)@.end,
            ).end && old(self)@.end < final(self)@.end,
    {
        if self.end >= self.source.len() {
            return None;
        }
        let (token, end) = scan_mini(&self.source, self.end);
        self.start = self.end;
        self.end = end;
        Some(token)
    }

    /// Every token from where the tokenizer stands to the end of the text.
    pub fn rest(&mut self) -> (toks: Vec<MiniToken>)
        requires
            old(self).wf(),
        ensures
            final(self).wf(),
            final(self)@.source == old(self)@.source,
            mini_views(toks@) == mini_tokens(old(self)@.source, old(self)@.end),
    {
        let mut toks: Vec<MiniToken> = Vec::new();
        loop
            invariant
                self.wf(),
                self@.source == old(self)@.source,
                mini_views(toks@) + mini_tokens(self@.source, self@.end) == mini_tokens(
                    old(self)@.source,
                    old(self)@.end,
                ),
            ensures
                self.wf(),
                self@.source == old(self)@.source,
                mini_views(toks@) == mini_tokens(old(self)@.source, old(self)@.end),
            decreases self@.source.len() - self@.end,
        {
            let ghost before = self@.end;
            let ghost seen = mini_views(toks@);
            match self.new_token() {
                Some(t) => {
                    proof {
                        lemma_mini_views_push(toks@, t);
                        assert(seen.push(t@) + mini_tokens(self@.source, self@.end) =~= seen + (
                        seq![t@] + mini_tokens(self@.source, self@.end)));
                    }
                    toks.push(t);
                },
                None => {
                    assert(seen + mini_tokens(self@.source, before) =~= seen);
                    break ;
                },
            }
        }
        toks
    }
}

/// What the macro layer makes of a text: blocks in braces, call sites,
/// definitions, and every other token as it stands.
#[derive(Debug, PartialEq)]
pub enum MacroAst {
    Block(Vec<MacroAst>),
    Normal(MiniToken),
    Def(String, Vec<MiniToken>, Box<MacroAst>),
    Call(String, Vec<MiniToken>),
}

/// A tree of the macro layer as a mathematical value.
pub enum MacroAstView {
    Block(Seq<MacroAstView>),
    Normal(MiniTokenView),
    Def(Seq<char>, Seq<MiniTokenView>, Box<MacroAstView>),
    Call(Seq<char>, Seq<MiniTokenView>),
}

impl MacroAst {
    /// The tree as a mathematical value.
    pub open spec fn model(&self) -> MacroAstView
        decreases self,
    {
        match self {
            MacroAst::Block(items) => MacroAstView::Block(
                Seq::new(
                    items@.len(),
                    |i: int|
                        if 0 <= i < items@.len() {
                            items@[i].model()
                        } else {
                            MacroAstView::Block(Seq::empty())
                        },
                ),
            ),
            MacroAst::Normal(t) => MacroAstView::Normal(t@),
            MacroAst::Def(name, params, body) => MacroAstView::Def(
                name@,
                mini_views(params@),
                Box::new(body.model()),
            ),
            MacroAst::Call(name, args) => MacroAstView::Call(name@, mini_views(args@)),
        }
    }

    fn duplicate(&self) -> (r: MacroAst)
        ensures
            r@ == self@,
        decreases self,
    {
        match self {
            MacroAst::Block(items) => {
                let mut out: Vec<MacroAst> = Vec::new();
                let mut i: usize = 0;
                while i < items.len()
                    invariant
                        i <= items.len(),
                        out@.len() == i,
                        forall|j: int| 0 <= j < i ==> out@[j]@ == items@[j]@,
                        self is Block,
                        self->Block_0 == *items,
                    decreases items.len() - i,
                {
                    assert(decreases_to!(items => items[i as int]));
                    assert(decreases_to!(self => self->Block_0));
                    out.push(items[i].duplicate());
                    i += 1;
                }
                proof {
                    lemma_block_view(out);
                    lemma_block_view(*items);
                    assert(ast_views(out@) =~= ast_views(items@));
                }
                MacroAst::Block(out)
            },
            MacroAst::Normal(t) => MacroAst::Normal(t.clone()),
            MacroAst::Def(name, params, body) => MacroAst::Def(
                name.clone(),
                clone_tokens(params),
                Box::new(body.duplicate()),
            ),
            MacroAst::Call(name, args) => MacroAst::Call(name.clone(), clone_tokens(args)),
        }
    }
}

impl View for MacroAst {
    type V = MacroAstView;

    open spec fn view(&self) -> MacroAstView {
        self.model()
    }
}

impl Clone for MacroAst {
    fn clone(&self) -> (r: MacroAst)
        ensures
            r@ == self@,
    {
        self.duplicate()
    }
}

/// The views of a run of trees.
pub open spec fn ast_views(v: Seq<MacroAst>) -> Seq<MacroAstView> {
    Seq::new(v.len(), |i: int| v[i]@)
}

/// The view of a block is the block of the views of its items.
pub proof fn lemma_block_view(items: Vec<MacroAst>)
    ensures
        MacroAst::Block(items)@ == MacroAstView::Block(ast_views(items@)),
{
    assert(MacroAst::Block(items)@->Block_0 =~= ast_views(items@));
}

/// The views of a run of trees with one more behind it.
pub proof fn lemma_ast_views_push(v: Seq<MacroAst>, t: MacroAst)
    ensures
        ast_views(v.push(t)) == ast_views(v).push(t@),
{
    assert(ast_views(v.push(t)) =~= ast_views(v).push(t@));
}

/// Spaces and line feeds may stand between the parts of a definition.
pub open spec fn is_gap(t: MiniTokenView) -> bool {
    t is Space || t is NewLine
}

/// The first index at or after `i` that holds no space and no line feed.
pub open spec fn skip_gaps(toks: Seq<MiniTokenView>, i: int) -> int
    decreases toks.len() - i,
{
    if 0 <= i < toks.len() && is_gap(toks[i]) {
        skip_gaps(toks, i + 1)
    } else {
        i
    }
}

/// One argument of a call: the text of the spaces, line feeds and `Rest`
/// tokens from `i` on, after `acc`, and the index where they stop.
pub open spec fn arg_text(toks: Seq<MiniTokenView>, i: int, acc: Seq<char>) -> (Seq<char>, int)
    decreases toks.len() - i,
{
    if 0 <= i < toks.len() {
        match toks[i] {
            MiniTokenView::Space => arg_text(toks, i + 1, acc.push(' ')),
            MiniTokenView::NewLine => arg_text(toks, i + 1, acc.push('\n')),
            MiniTokenView::Rest(r) => arg_text(toks, i + 1, acc + r),
            _ => (acc, i),
        }
    } else {
        (acc, i)
    }
}

/// The arguments of a call from `i`, just inside its parenthesis, after
/// those in `acc`: each is one `Rest` token that holds the text of the
/// argument; commas alone separate them, one space behind a comma belongs
/// to the comma, and `)` ends them. `None` where something else stands
/// behind an argument; the index is where reading stopped.
pub open spec fn call_args(toks: Seq<MiniTokenView>, i: int, acc: Seq<MiniTokenView>) -> (
    Option<Seq<MiniTokenView>>,
    int,
)
    decreases toks.len() - i,
{
    let (text, j) = arg_text(toks, i, Seq::empty());
    let acc2 = acc.push(MiniTokenView::Rest(text));
    if 0 <= i <= j < toks.len() && toks[j] is Comma {
        if j + 1 < toks.len() && toks[j + 1] is Space {
            call_args(toks, j + 2, acc2)
        } else {
            call_args(toks, j + 1, acc2)
        }
    } else if 0 <= j < toks.len() && toks[j] is RightParen {
        (Some(acc2), j + 1)
    } else {
        (None, j)
    }
}

/// A call must end in `;`, which belongs to it.
pub open spec fn finish_call(
    toks: Seq<MiniTokenView>,
    i: int,
    name: Seq<char>,
    args: Seq<MiniTokenView>,
) -> (Option<MacroAstView>, int) {
    if 0 <= i < toks.len() && toks[i] is SemiColon {
        (Some(MacroAstView::Call(name, args)), i + 1)
    } else {
        (None, i)
    }
}

/// The call of `name` whose parenthesis is expected at `i` or after some
/// spaces: `NAME!(arg, arg);`.
pub open spec fn parse_call(toks: Seq<MiniTokenView>, i: int, name: Seq<char>) -> (
    Option<MacroAstView>,
    int,
) {
    let a = skip_gaps(toks, i);
    if !(0 <= a < toks.len() && toks[a] is LeftParen) {
        (None, a)
    } else if a + 1 < toks.len() && toks[a + 1] is RightParen {
        finish_call(toks, a + 2, name, Seq::empty())
    } else {
        match call_args(toks, a + 1, Seq::empty()) {
            (Some(args), c) => finish_call(toks, c, name, args),
            (None, c) => (None, c),
        }
    }
}

/// The items of a block from `i`, just inside its `{`, after those in
/// `acc`, and the index just past its `}` (or the end of the tokens). A
/// call that does not parse leaves an empty block in its place.
pub open spec fn parse_block(toks: Seq<MiniTokenView>, i: int, acc: Seq<MacroAstView>) -> (
    Seq<MacroAstView>,
    int,
)
    decreases toks.len() - i,
{
    if !(0 <= i < toks.len()) {
        (acc, i)
    } else {
        match toks[i] {
            MiniTokenView::RightBrace => (acc, i + 1),
            MiniTokenView::LeftBrace => {
                let (inner, j) = parse_block(toks, i + 1, Seq::empty());
                let acc2 = acc.push(MacroAstView::Block(inner));
                if i < j <= toks.len() {
                    parse_block(toks, j, acc2)
                } else {
                    (acc2, j)
                }
            },
            MiniTokenView::CallIdentifer(name) => {
                let (call, j) = parse_call(toks, i + 1, name);
                let acc2 = acc.push(
                    match call {
                        Some(c) => c,
                        None => MacroAstView::Block(Seq::empty()),
                    },
                );
                if i < j <= toks.len() {
                    parse_block(toks, j, acc2)
                } else {
                    (acc2, j)
                }
            },
            t => parse_block(toks, i + 1, acc.push(MacroAstView::Normal(t))),
        }
    }
}

/// The parameters of a definition from `i`, after those in `acc`: `$name`
/// tokens separated by commas, then `)`.
pub open spec fn def_params(toks: Seq<MiniTokenView>, i: int, acc: Seq<MiniTokenView>) -> (
    Option<Seq<MiniTokenView>>,
    int,
)
    decreases toks.len() - i,
{
    if 0 <= i < toks.len() && toks[i] is Identifer {
        let acc2 = acc.push(toks[i]);
        if i + 1 < toks.len() && toks[i + 1] is Comma {
            let j = skip_gaps(toks, i + 2);
            if i < j <= toks.len() {
                def_params(toks, j, acc2)
            } else {
                (None, j)
            }
        } else {
            let j = skip_gaps(toks, i + 1);
            if 0 <= j < toks.len() && toks[j] is RightParen {
                (Some(acc2), j + 1)
            } else {
                (None, j)
            }
        }
    } else {
        (None, i)
    }
}

/// The body of a definition, whose `{` is expected at `i` or after some
/// spaces.
pub open spec fn def_body(
    toks: Seq<MiniTokenView>,
    i: int,
    name: Seq<char>,
    params: Seq<MiniTokenView>,
) -> (Option<MacroAstView>, int) {
    let e = skip_gaps(toks, i);
    if 0 <= e < toks.len() && toks[e] is LeftBrace {
        let (body, f) = parse_block(toks, e + 1, Seq::empty());
        (Some(MacroAstView::Def(name, params, Box::new(MacroAstView::Block(body)))), f)
    } else {
        (None, e)
    }
}

/// The definition that follows `defmacro`, from `i` just past that word:
/// `defmacro NAME($a, $b) { body }`.
pub open spec fn parse_def(toks: Seq<MiniTokenView>, i: int) -> (Option<MacroAstView>, int) {
    if !(0 <= i < toks.len() && is_gap(toks[i])) {
        (None, i)
    } else {
        let a = skip_gaps(toks, i);
        if !(0 <= a < toks.len() && toks[a] is Rest) {
            (None, a)
        } else {
            let name = toks[a]->Rest_0;
            let b = skip_gaps(toks, a + 1);
            if !(0 <= b < toks.len() && toks[b] is LeftParen) {
                (None, b)
            } else if b + 1 < toks.len() && toks[b + 1] is RightParen {
                def_body(toks, b + 2, name, Seq::empty())
            } else {
                match def_params(toks, skip_gaps(toks, b + 1), Seq::empty()) {
                    (Some(params), d) => def_body(toks, d, name, params),
                    (None, d) => (None, d),
                }
            }
        }
    }
}

/// The definitions and the rest of what was read.
pub struct Parsed {
    pub defines: Seq<MacroAstView>,
    pub content: Seq<MacroAstView>,
}

/// One item at the top of a text, at `i`, added to `acc`: a definition
/// goes to the definitions; a call, a block or a plain token to the
/// content; a definition or a call that does not parse is dropped.
pub open spec fn parse_item(toks: Seq<MiniTokenView>, i: int, acc: Parsed) -> (Parsed, int) {
    match toks[i] {
        MiniTokenView::DefMacro => {
            let (d, j) = parse_def(toks, i + 1);
            match d {
                Some(def) => (Parsed { defines: acc.defines.push(def), content: acc.content }, j),
                None => (acc, j),
            }
        },
        MiniTokenView::CallIdentifer(name) => {
            let (c, j) = parse_call(toks, i + 1, name);
            match c {
                Some(call) => (Parsed { defines: acc.defines, content: acc.content.push(call) }, j),
                None => (acc, j),
            }
        },
        MiniTokenView::LeftBrace => {
            let (inner, j) = parse_block(toks, i + 1, Seq::empty());
            (
                Parsed {
                    defines: acc.defines,
                    content: acc.content.push(MacroAstView::Block(inner)),
                },
                j,
            )
        },
        t => (
            Parsed { defines: acc.defines, content: acc.content.push(MacroAstView::Normal(t)) },
            i + 1,
        ),
    }
}

/// Every item of a text from `i` on, added to `acc`.
pub open spec fn parse_top(toks: Seq<MiniTokenView>, i: int, acc: Parsed) -> Parsed
    decreases toks.len() - i,
{
    if !(0 <= i < toks.len()) {
        acc
    } else {
        let (acc2, j) = parse_item(toks, i, acc);
        if i < j <= toks.len() {
            parse_top(toks, j, acc2)
        } else {
            acc2
        }
    }
}

/// The text stored under `path`, for a path that is stored.
pub open spec fn stored_text(sources: Seq<crate::text::SourceFile>, path: Seq<char>) -> Seq<char> {
    source_text(sources, path)->0
}

/// Whether a text is stored under every path of `files`.
pub open spec fn all_stored(sources: Seq<crate::text::SourceFile>, files: Seq<String>) -> bool {
    forall|i: int| 0 <= i < files.len() ==> source_text(sources, #[trigger] files[i]@) is Some
}

/// What reading the file stored under `path` adds to `acc`.
pub open spec fn parse_file(sources: Seq<crate::text::SourceFile>, path: Seq<char>, acc: Parsed) -> Parsed {
    parse_top(mini_tokens(stored_text(sources, path), 0), 0, acc)
}

/// The files `files[i..]`, read in order and added to `acc`.
pub open spec fn parse_files(
    sources: Seq<crate::text::SourceFile>,
    files: Seq<String>,
    i: int,
    acc: Parsed,
) -> Parsed
    decreases files.len() - i,
{
    if !(0 <= i < files.len()) {
        acc
    } else {
        parse_files(sources, files, i + 1, parse_file(sources, files[i]@, acc))
    }
}

fn gaps(toks: &Vec<MiniToken>, i: usize) -> (j: usize)
    requires
        i <= toks.len(),
    ensures
        j == skip_gaps(mini_views(toks@), i as int),
        i <= j <= toks.len(),
{
    let mut j = i;
    loop
        invariant
            i <= j <= toks.len(),
            skip_gaps(mini_views(toks@), j as int) == skip_gaps(mini_views(toks@), i as int),
        ensures
            i <= j <= toks.len(),
            j == skip_gaps(mini_views(toks@), i as int),
        decreases toks.len() - j,
    {
        if j >= toks.len() {
            break ;
        }
        match &toks[j] {
            MiniToken::Space => {},
            MiniToken::NewLine => {},
            _ => {
                break ;
            },
        }
        j += 1;
    }
    j
}

fn one_arg(toks: &Vec<MiniToken>, i: usize) -> (r: (String, usize))
    requires
        i <= toks.len(),
    ensures
        (r.0@, r.1 as int) == arg_text(mini_views(toks@), i as int, Seq::empty()),
        i <= r.1 <= toks.len(),
{
    let mut text = String::new();
    let mut j = i;
    loop
        invariant
            i <= j <= toks.len(),
            arg_text(mini_views(toks@), j as int, text@) == arg_text(
                mini_views(toks@),
                i as int,
                Seq::empty(),
            ),
        ensures
            i <= j <= toks.len(),
            (text@, j as int) == arg_text(mini_views(toks@), i as int, Seq::empty()),
        decreases toks.len() - j,
    {
        if j >= toks.len() {
            break ;
        }
        match &toks[j] {
            MiniToken::Space => {
                push_char(&mut text, ' ');
            },
            MiniToken::NewLine => {
                push_char(&mut text, '\n');
            },
            MiniToken::Rest(r) => {
                push_text(&mut text, r.as_str());
            },
            _ => {
                break ;
            },
        }
        j += 1;
    }
    (text, j)
}

fn arguments(toks: &Vec<MiniToken>, i: usize) -> (r: (Option<Vec<MiniToken>>, usize))
    requires
        i <= toks.len(),
    ensures
        r.1 == call_args(mini_views(toks@), i as int, Seq::empty()).1,
        match call_args(mini_views(toks@), i as int, Seq::empty()).0 {
            Some(args) => r.0 is Some && mini_views(r.0->0@) == args,
            None => r.0 is None,
        },
        i <= r.1 <= toks.len(),
{
    let mut acc: Vec<MiniToken> = Vec::new();
    let mut k = i;
    assert(mini_views(acc@) =~= Seq::empty());
    loop
        invariant
            i <= k <= toks.len(),
            call_args(mini_views(toks@), k as int, mini_views(acc@)) == call_args(
                mini_views(toks@),
                i as int,
                Seq::empty(),
            ),
        decreases toks.len() - k,
    {
        let (text, j) = one_arg(toks, k);
        proof {
            lemma_mini_views_push(acc@, MiniToken::Rest(text));
        }
        acc.push(MiniToken::Rest(text));
        if j < toks.len() && is_comma(&toks[j]) {
            if j + 1 < toks.len() && is_space(&toks[j + 1]) {
                k = j + 2;
            } else {
                k = j + 1;
            }
        } else if j < toks.len() && is_right_paren(&toks[j]) {
            return (Some(acc), j + 1);
        } else {
            return (None, j);
        }
    }
}

fn is_comma(t: &MiniToken) -> (b: bool)
    ensures
        b == (t@ is Comma),
{
    match t {
        MiniToken::Comma => true,
        _ => false,
    }
}

fn is_space(t: &MiniToken) -> (b: bool)
    ensures
        b == (t@ is Space),
{
    match t {
        MiniToken::Space => true,
        _ => false,
    }
}

fn is_gap_token(t: &MiniToken) -> (b: bool)
    ensures
        b == is_gap(t@),
{
    match t {
        MiniToken::Space => true,
        MiniToken::NewLine => true,
        _ => false,
    }
}

fn is_left_paren(t: &MiniToken) -> (b: bool)
    ensures
        b == (t@ is LeftParen),
{
    match t {
        MiniToken::LeftParen => true,
        _ => false,
    }
}

fn is_right_paren(t: &MiniToken) -> (b: bool)
    ensures
        b == (t@ is RightParen),
{
    match t {
        MiniToken::RightParen => true,
        _ => false,
    }
}

fn is_left_brace(t: &MiniToken) -> (b: bool)
    ensures
        b == (t@ is LeftBrace),
{
    match t {
        MiniToken::LeftBrace => true,
        _ => false,
    }
}

fn is_semicolon(t: &MiniToken) -> (b: bool)
    ensures
        b == (t@ is SemiColon),
{
    match t {
        MiniToken::SemiColon => true,
        _ => false,
    }
}

fn finish(toks: &Vec<MiniToken>, i: usize, name: &String, args: Vec<MiniToken>) -> (r: (
    Option<MacroAst>,
    usize,
))
    requires
        i <= toks.len(),
    ensures
        r.1 == finish_call(mini_views(toks@), i as int, name@, mini_views(args@)).1,
        match finish_call(mini_views(toks@), i as int, name@, mini_views(args@)).0 {
            Some(c) => r.0 is Some && r.0->0@ == c,
            None => r.0 is None,
        },
        i <= r.1 <= toks.len(),
{
    if i < toks.len() && is_semicolon(&toks[i]) {
        (Some(MacroAst::Call(name.clone(), args)), i + 1)
    } else {
        (None, i)
    }
}

fn parameters(toks: &Vec<MiniToken>, i: usize) -> (r: (Option<Vec<MiniToken>>, usize))
    requires
        i <= toks.len(),
    ensures
        r.1 == def_params(mini_views(toks@), i as int, Seq::empty()).1,
        match def_params(mini_views(toks@), i as int, Seq::empty()).0 {
            Some(params) => r.0 is Some && mini_views(r.0->0@) == params,
            None => r.0 is None,
        },
        i <= r.1 <= toks.len(),
{
    let mut acc: Vec<MiniToken> = Vec::new();
    let mut k = i;
    assert(mini_views(acc@) =~= Seq::empty());
    loop
        invariant
            i <= k <= toks.len(),
            def_params(mini_views(toks@), k as int, mini_views(acc@)) == def_params(
                mini_views(toks@),
                i as int,
                Seq::empty(),
            ),
        decreases toks.len() - k,
    {
        if k >= toks.len() {
            return (None, k);
        }
        match &toks[k] {
            MiniToken::Identifer(_) => {},
            _ => {
                return (None, k);
            },
        }
        proof {
            lemma_mini_views_push(acc@, toks@[k as int]);
        }
        let ghost before = mini_views(acc@);
        acc.push(toks[k].clone());
        assert(mini_views(acc@) =~= before.push(toks@[k as int]@));
        if k + 1 < toks.len() && is_comma(&toks[k + 1]) {
            k = gaps(toks, k + 2);
        } else {
            let j = gaps(toks, k + 1);
            if j < toks.len() && is_right_paren(&toks[j]) {
                return (Some(acc), j + 1);
            } else {
                return (None, j);
            }
        }
    }
}

/// What has been read so far: the definitions, and everything else in
/// the order in which it stood.
pub struct MacroDefs {
    pub files: Vec<String>,
    pub sources: Sources,
    pub tokenizer: MacroTokenizer,
    pub defines: Vec<MacroAst>,
    pub file_content: Vec<MacroAst>,
}

impl MacroDefs {
    /// The definitions and the content as mathematical values.
    pub open spec fn parsed(&self) -> Parsed {
        Parsed { defines: ast_views(self.defines@), content: ast_views(self.file_content@) }
    }

    /// Nothing read yet; `files` are the paths to read, from `sources`.
    pub fn new(files: Vec<String>) -> (d: MacroDefs)
        ensures
            d.files == files,
            d.sources.files@.len() == 0,
            d.defines@.len() == 0,
            d.file_content@.len() == 0,
            d.tokenizer.wf(),
            d.tokenizer@ == (MacroTokenizerView { source: Seq::empty(), start: 0, end: 0 }),
    {
        MacroDefs {
            files,
            sources: Sources::new(),
            tokenizer: MacroTokenizer::new(String::new()),
            defines: Vec::new(),
            file_content: Vec::new(),
        }
    }

    /// The call of `name` from `i`.
    pub fn parse_call(toks: &Vec<MiniToken>, i: usize, name: &String) -> (r: (
        Option<MacroAst>,
        usize,
    ))
        requires
            i <= toks.len(),
        ensures
            r.1 == parse_call(mini_views(toks@), i as int, name@).1,
            match parse_call(mini_views(toks@), i as int, name@).0 {
                Some(c) => r.0 is Some && r.0->0@ == c,
                None => r.0 is None,
            },
            i <= r.1 <= toks.len(),
    {
        let a = gaps(toks, i);
        if !(a < toks.len() && is_left_paren(&toks[a])) {
            (None, a)
        } else if a + 1 < toks.len() && is_right_paren(&toks[a + 1]) {
            let none: Vec<MiniToken> = Vec::new();
            assert(mini_views(none@) =~= Seq::empty());
            finish(toks, a + 2, name, none)
        } else {
            match arguments(toks, a + 1) {
                (Some(args), c) => finish(toks, c, name, args),
                (None, c) => (None, c),
            }
        }
    }

    /// The items of the block from `i`, just inside its `{`.
    pub fn block(toks: &Vec<MiniToken>, i: usize) -> (r: (Vec<MacroAst>, usize))
        requires
            i <= toks.len(),
        ensures
            (ast_views(r.0@), r.1 as int) == parse_block(mini_views(toks@), i as int, Seq::empty()),
            i <= r.1 <= toks.len(),
        decreases toks.len() - i,
    {
        let mut acc: Vec<MacroAst> = Vec::new();
        let mut j = i;
        assert(ast_views(acc@) =~= Seq::empty());
        loop
            invariant
                i <= j <= toks.len(),
                parse_block(mini_views(toks@), j as int, ast_views(acc@)) == parse_block(
                    mini_views(toks@),
                    i as int,
                    Seq::empty(),
                ),
            decreases toks.len() - j,
        {
            if j >= toks.len() {
                return (acc, j);
            }
            match &toks[j] {
                MiniToken::RightBrace => {
                    return (acc, j + 1);
                },
                MiniToken::LeftBrace => {
                    let (inner, k) = MacroDefs::block(toks, j + 1);
                    proof {
                        lemma_block_view(inner);
                        lemma_ast_views_push(acc@, MacroAst::Block(inner));
                    }
                    acc.push(MacroAst::Block(inner));
                    j = k;
                },
                MiniToken::CallIdentifer(name) => {
                    let (call, k) = MacroDefs::parse_call(toks, j + 1, name);
                    let item = match call {
                        Some(c) => c,
                        None => {
                            let none: Vec<MacroAst> = Vec::new();
                            proof {
                                lemma_block_view(none);
                                assert(ast_views(none@) =~= Seq::empty());
                            }
                            MacroAst::Block(none)
                        },
                    };
                    proof {
                        lemma_ast_views_push(acc@, item);
                    }
                    acc.push(item);
                    j = k;
                },
                t => {
                    let item = MacroAst::Normal(t.clone());
                    proof {
                        lemma_ast_views_push(acc@, item);
                    }
                    acc.push(item);
                    j += 1;
                },
            }
        }
    }

    fn body(toks: &Vec<MiniToken>, i: usize, name: String, params: Vec<MiniToken>) -> (r: (
        Option<MacroAst>,
        usize,
    ))
        requires
            i <= toks.len(),
        ensures
            r.1 == def_body(mini_views(toks@), i as int, name@, mini_views(params@)).1,
            match def_body(mini_views(toks@), i as int, name@, mini_views(params@)).0 {
                Some(d) => r.0 is Some && r.0->0@ == d,
                None => r.0 is None,
            },
            i <= r.1 <= toks.len(),
    {
        let e = gaps(toks, i);
        if e < toks.len() && is_left_brace(&toks[e]) {
            let (items, f) = MacroDefs::block(toks, e + 1);
            proof {
                lemma_block_view(items);
            }
            (Some(MacroAst::Def(name, params, Box::new(MacroAst::Block(items)))), f)
        } else {
            (None, e)
        }
    }

    fn definition(toks: &Vec<MiniToken>, i: usize) -> (r: (Option<MacroAst>, usize))
        requires
            i <= toks.len(),
        ensures
            r.1 == parse_def(mini_views(toks@), i as int).1,
            match parse_def(mini_views(toks@), i as int).0 {
                Some(d) => r.0 is Some && r.0->0@ == d,
                None => r.0 is None,
            },
            i <= r.1 <= toks.len(),
    {
        if !(i < toks.len() && is_gap_token(&toks[i])) {
            return (None, i);
        }
        let a = gaps(toks, i);
        if a >= toks.len() {
            return (None, a);
        }
        let name = match &toks[a] {
            MiniToken::Rest(x) => x.clone(),
            _ => {
                return (None, a);
            },
        };
        let b = gaps(toks, a + 1);
        if !(b < toks.len() && is_left_paren(&toks[b])) {
            (None, b)
        } else if b + 1 < toks.len() && is_right_paren(&toks[b + 1]) {
            let none: Vec<MiniToken> = Vec::new();
            assert(mini_views(none@) =~= Seq::empty());
            MacroDefs::body(toks, b + 2, name, none)
        } else {
            let c = gaps(toks, b + 1);
            match parameters(toks, c) {
                (Some(params), d) => MacroDefs::body(toks, d, name, params),
                (None, d) => (None, d),
            }
        }
    }

    /// Reads the one item at `i` and files it; the result is the index
    /// just past it.
    pub fn parse(&mut self, toks: &Vec<MiniToken>, i: usize) -> (j: usize)
        requires
            i < toks.len(),
        ensures
            (final(self).parsed(), j as int) == parse_item(
                mini_views(toks@),
                i as int,
                old(self).parsed(),
            ),
            i < j <= toks.len(),
            final(self).files == old(self).files,
            final(self).sources == old(self).sources,
            final(self).tokenizer == old(self).tokenizer,
    {
        match &toks[i] {
            MiniToken::DefMacro => {
                let (d, j) = MacroDefs::definition(toks, i + 1);
                match d {
                    Some(def) => {
                        proof {
                            lemma_ast_views_push(self.defines@, def);
                        }
                        self.defines.push(def);
                    },
                    None => {},
                }
                j
            },
            MiniToken::CallIdentifer(name) => {
                let (c, j) = MacroDefs::parse_call(toks, i + 1, name);
                match c {
                    Some(call) => {
                        proof {
                            lemma_ast_views_push(self.file_content@, call);
                        }
                        self.file_content.push(call);
                    },
                    None => {},
                }
                j
            },
            MiniToken::LeftBrace => {
                let (inner, j) = MacroDefs::block(toks, i + 1);
                proof {
                    lemma_block_view(inner);
                    lemma_ast_views_push(self.file_content@, MacroAst::Block(inner));
                }
                self.file_content.push(MacroAst::Block(inner));
                j
            },
            t => {
                let item = MacroAst::Normal(t.clone());
                proof {
                    lemma_ast_views_push(self.file_content@, item);
                }
                self.file_content.push(item);
                i + 1
            },
        }
    }

    /// The definition named `string`, or an empty definition when there
    /// is none.
    pub fn find_define(&self, string: String) -> (r: MacroAst)
        ensures
            r@ == (match find_def(ast_views(self.defines@), string@, 0) {
                Some(k) => ast_views(self.defines@)[k],
                None => MacroAstView::Def(
                    Seq::empty(),
                    Seq::empty(),
                    Box::new(MacroAstView::Normal(MiniTokenView::Space)),
                ),
            }),
    {
        match lookup(&self.defines, &string) {
            Some(k) => self.defines[k].clone(),
            None => {
                let none: Vec<MiniToken> = Vec::new();
                assert(mini_views(none@) =~= Seq::empty());
                assert(MacroAst::Normal(MiniToken::Space)@ == MacroAstView::Normal(
                    MiniTokenView::Space,
                ));
                MacroAst::Def(String::new(), none, Box::new(MacroAst::Normal(MiniToken::Space)))
            },
        }
    }

    /// Reads every file of `files`, in order. A text must be stored under
    /// each of their paths.
    pub fn compile(&mut self)
        requires
            all_stored(old(self).sources.files@, old(self).files@),
        ensures
            final(self).parsed() == parse_files(
                old(self).sources.files@,
                old(self).files@,
                0,
                old(self).parsed(),
            ),
            final(self).files == old(self).files,
            final(self).sources == old(self).sources,
            final(self).tokenizer.wf(),
            final(self).tokenizer@ == (MacroTokenizerView {
                source: Seq::empty(),
                start: 0,
                end: 0,
            }),
    {
        let mut f: usize = 0;
        self.tokenizer = MacroTokenizer::new(String::new());
        while f < self.files.len()
            invariant
                f <= self.files.len(),
                self.files == old(self).files,
                self.sources == old(self).sources,
                self.tokenizer.wf(),
                all_stored(self.sources.files@, self.files@),
                parse_files(self.sources.files@, self.files@, f as int, self.parsed())
                    == parse_files(old(self).sources.files@, old(self).files@, 0, old(self).parsed()),
            decreases self.files.len() - f,
        {
            assert(source_text(self.sources.files@, self.files@[f as int]@) is Some);
            let text = match self.sources.find(&self.files[f]) {
                Some(k) => self.sources.files[k].text.clone(),
                None => String::new(),
            };
            assert(text@ == stored_text(self.sources.files@, self.files@[f as int]@));
            self.tokenizer = MacroTokenizer::new(text);
            let toks = self.tokenizer.rest();
            let ghost start = self.parsed();
            let mut i: usize = 0;
            while i < toks.len()
                invariant
                    i <= toks.len(),
                    f < self.files.len(),
                    self.files == old(self).files,
                    self.sources == old(self).sources,
                    self.tokenizer.wf(),
                    mini_views(toks@) == mini_tokens(
                        stored_text(self.sources.files@, self.files@[f as int]@),
                        0,
                    ),
                    parse_top(mini_views(toks@), i as int, self.parsed()) == parse_top(
                        mini_views(toks@),
                        0,
                        start,
                    ),
                    parse_files(self.sources.files@, self.files@, f as int, start) == parse_files(
                        old(self).sources.files@,
                        old(self).files@,
                        0,
                        old(self).parsed(),
                    ),
                decreases toks.len() - i,
            {
                i = self.parse(&toks, i);
            }
            f += 1;
        }
        self.tokenizer = MacroTokenizer::new(String::new());
    }
}

/// The index of the first definition at or after `i` that is named `name`.
pub open spec fn find_def(defs: Seq<MacroAstView>, name: Seq<char>, i: int) -> Option<int>
    decreases defs.len() - i,
{
    if !(0 <= i < defs.len()) {
        None
    } else if defs[i] matches MacroAstView::Def(n, _, _) && n == name {
        Some(i)
    } else {
        find_def(defs, name, i + 1)
    }
}

fn lookup(defs: &Vec<MacroAst>, name: &String) -> (r: Option<usize>)
    ensures
        r is Some ==> find_def(ast_views(defs@), name@, 0) == Some(r->0 as int) && r->0
            < defs@.len(),
        r is None ==> find_def(ast_views(defs@), name@, 0) is None,
{
    let mut i: usize = 0;
    while i < defs.len()
        invariant
            i <= defs.len(),
            find_def(ast_views(defs@), name@, 0) == find_def(ast_views(defs@), name@, i as int),
        decreases defs.len() - i,
    {
        match &defs[i] {
            MacroAst::Def(n, _, _) => {
                if *n == *name {
                    return Some(i);
                }
            },
            _ => {},
        }
        i += 1;
    }
    None
}

/// The text that a token stands for when it is written back. Parameters,
/// call sites and `defmacro` are not text of the result.
pub open spec fn token_text(t: MiniTokenView) -> Seq<char> {
    match t {
        MiniTokenView::Comma => seq![','],
        MiniTokenView::Space => seq![' '],
        MiniTokenView::LeftBrace => seq!['{'],
        MiniTokenView::LeftParen => seq!['('],
        MiniTokenView::RightBrace => seq!['}'],
        MiniTokenView::RightParen => seq![')'],
        MiniTokenView::NewLine => seq!['\n'],
        MiniTokenView::SemiColon => seq![';'],
        MiniTokenView::Rest(r) => r,
        _ => Seq::empty(),
    }
}

/// What the parameter `name` is replaced by: the argument in the place of
/// each parameter of that name, from place `i` on. A parameter without an
/// argument is replaced by nothing.
pub open spec fn param_text(
    params: Seq<MiniTokenView>,
    args: Seq<MiniTokenView>,
    name: Seq<char>,
    i: int,
) -> Seq<char>
    decreases params.len() - i,
{
    if !(0 <= i < params.len()) {
        Seq::empty()
    } else {
        let here = if params[i] == MiniTokenView::Identifer(name) && i < args.len()
            && args[i] is Rest {
            args[i]->Rest_0
        } else {
            Seq::empty()
        };
        here + param_text(params, args, name, i + 1)
    }
}

/// The name of the macro that a call site names: the token without its `!`.
pub open spec fn callee(name: Seq<char>) -> Seq<char> {
    if name.len() > 0 {
        name.drop_last()
    } else {
        name
    }
}

/// The text that `item` expands to inside a macro whose parameters
/// `params` stand for `args` (both empty outside any macro). `depth` is how
/// many calls may still be entered one inside the other.
pub open spec fn expand_item(
    defs: Seq<MacroAstView>,
    item: MacroAstView,
    params: Seq<MiniTokenView>,
    args: Seq<MiniTokenView>,
    depth: nat,
) -> Seq<char>
    decreases depth, item, 1int,
{
    match item {
        MacroAstView::Normal(t) => match t {
            MiniTokenView::Identifer(x) => param_text(params, args, x, 0),
            _ => token_text(t),
        },
        MacroAstView::Block(items) => seq!['{'] + expand_items(defs, items, 0, params, args, depth)
            + seq!['}'],
        MacroAstView::Call(_, _) => expand_call(defs, item, depth),
        MacroAstView::Def(_, _, _) => Seq::empty(),
    }
}

/// The texts of `items[i..]`, one after the other.
pub open spec fn expand_items(
    defs: Seq<MacroAstView>,
    items: Seq<MacroAstView>,
    i: int,
    params: Seq<MiniTokenView>,
    args: Seq<MiniTokenView>,
    depth: nat,
) -> Seq<char>
    decreases depth, items, items.len() - i,
{
    if !(0 <= i < items.len()) {
        Seq::empty()
    } else {
        expand_item(defs, items[i], params, args, depth) + expand_items(
            defs,
            items,
            i + 1,
            params,
            args,
            depth,
        )
    }
}

/// The text that the call `call` expands to: the body of the first
/// definition of that name, in braces, with the call's arguments in the
/// place of its parameters. A name without a definition expands to
/// nothing, and so does a call when `depth` is used up.
pub open spec fn expand_call(defs: Seq<MacroAstView>, call: MacroAstView, depth: nat) -> Seq<char>
    decreases depth, call, 0int,
{
    match call {
        MacroAstView::Call(name, args) => if depth == 0 {
            Seq::empty()
        } else {
            match find_def(defs, callee(name), 0) {
                Some(k) => match defs[k] {
                    MacroAstView::Def(_, params, body) => match *body {
                        MacroAstView::Block(items) => seq!['{'] + expand_items(
                            defs,
                            items,
                            0,
                            params,
                            args,
                            (depth - 1) as nat,
                        ) + seq!['}'],
                        _ => Seq::empty(),
                    },
                    _ => Seq::empty(),
                },
                None => Seq::empty(),
            }
        },
        _ => Seq::empty(),
    }
}

/// The text that a parsed source expands to. No chain of calls that ends
/// can be longer than the number of definitions, which is the depth given.
pub open spec fn expand_all(p: Parsed) -> Seq<char> {
    expand_items(p.defines, p.content, 0, Seq::empty(), Seq::empty(), p.defines.len())
}

/// The expander: it reads its files and writes the expanded text.
pub struct MacroExpander {
    pub defs: MacroDefs,
    pub files: Vec<String>,
    pub final_source: String,
}

impl MacroExpander {
    /// An expander for the files at the paths `files`.
    pub fn new(files: Vec<String>) -> (e: MacroExpander)
        ensures
            e.files == files,
            e.defs.files@ == files@,
            e.defs.sources.files@.len() == 0,
            e.defs.defines@.len() == 0,
            e.defs.file_content@.len() == 0,
            e.defs.tokenizer@ == (MacroTokenizerView { source: Seq::empty(), start: 0, end: 0 }),
            e.final_source@.len() == 0,
    {
        MacroExpander {
            defs: MacroDefs::new(clone_strings(&files)),
            files,
            final_source: String::new(),
        }
    }

    /// Stores the text of the file at `path`, for `compile` to read.
    pub fn provide(&mut self, path: String, text: String)
        ensures
            final(self).defs.sources.files@ == old(self).defs.sources.files@.push(
                crate::text::SourceFile { path, text },
            ),
            final(self).defs.files == old(self).defs.files,
            final(self).defs.defines == old(self).defs.defines,
            final(self).defs.file_content == old(self).defs.file_content,
            final(self).files == old(self).files,
    {
        self.defs.sources.add(path, text);
    }

    fn expand_dict_normal(
        t: &MiniToken,
        params: &Vec<MiniToken>,
        args: &Vec<MiniToken>,
        out: &mut String,
    )
        ensures
            final(out)@ == old(out)@ + (match t@ {
                MiniTokenView::Identifer(x) => param_text(
                    mini_views(params@),
                    mini_views(args@),
                    x,
                    0,
                ),
                _ => token_text(t@),
            }),
    {
        match t {
            MiniToken::Comma => push_char(out, ','),
            MiniToken::Space => push_char(out, ' '),
            MiniToken::LeftBrace => push_char(out, '{'),
            MiniToken::LeftParen => push_char(out, '('),
            MiniToken::RightBrace => push_char(out, '}'),
            MiniToken::RightParen => push_char(out, ')'),
            MiniToken::NewLine => push_char(out, '\n'),
            MiniToken::SemiColon => push_char(out, ';'),
            MiniToken::Rest(r) => push_text(out, r.as_str()),
            MiniToken::Identifer(x) => {
                let mut i: usize = 0;
                let ghost ps = mini_views(params@);
                let ghost xs = mini_views(args@);
                while i < params.len()
                    invariant
                        i <= params.len(),
                        ps == mini_views(params@),
                        xs == mini_views(args@),
                        out@ + param_text(ps, xs, x@, i as int) == old(out)@ + param_text(
                            ps,
                            xs,
                            x@,
                            0,
                        ),
                    decreases params.len() - i,
                {
                    let ghost before = out@;
                    let mut hit = false;
                    match &params[i] {
                        MiniToken::Identifer(p) => {
                            if *p == *x && i < args.len() {
                                match &args[i] {
                                    MiniToken::Rest(r) => {
                                        push_text(out, r.as_str());
                                        hit = true;
                                    },
                                    _ => {},
                                }
                            }
                        },
                        _ => {},
                    }
                    proof {
                        let here = if ps[i as int] == MiniTokenView::Identifer(x@) && i < xs.len()
                            && xs[i as int] is Rest {
                            xs[i as int]->Rest_0
                        } else {
                            Seq::empty()
                        };
                        assert(out@ =~= before + here);
                        assert((before + here) + param_text(ps, xs, x@, i + 1) =~= before + (here
                            + param_text(ps, xs, x@, i + 1)));
                    }
                    i += 1;
                }
                assert(out@ + Seq::<char>::empty() =~= out@);
            },
            _ => {
                assert(out@ + Seq::<char>::empty() =~= out@);
            },
        }
        assert(old(out)@.push(',') =~= old(out)@ + seq![',']);
        assert(old(out)@.push(' ') =~= old(out)@ + seq![' ']);
        assert(old(out)@.push('{') =~= old(out)@ + seq!['{']);
        assert(old(out)@.push('(') =~= old(out)@ + seq!['(']);
        assert(old(out)@.push('}') =~= old(out)@ + seq!['}']);
        assert(old(out)@.push(')') =~= old(out)@ + seq![')']);
        assert(old(out)@.push('\n') =~= old(out)@ + seq!['\n']);
        assert(old(out)@.push(';') =~= old(out)@ + seq![';']);
    }

    fn expand_dict(
        defs: &Vec<MacroAst>,
        item: &MacroAst,
        params: &Vec<MiniToken>,
        args: &Vec<MiniToken>,
        depth: usize,
        out: &mut String,
    )
        ensures
            final(out)@ == old(out)@ + expand_item(
                ast_views(defs@),
                item@,
                mini_views(params@),
                mini_views(args@),
                depth as nat,
            ),
        decreases depth, item, 1int,
    {
        match item {
            MacroAst::Normal(t) => {
                MacroExpander::expand_dict_normal(t, params, args, out);
            },
            MacroAst::Block(items) => {
                proof {
                    lemma_block_view(*items);
                }
                MacroExpander::expand_dict_block(defs, items, params, args, depth, out);
            },
            MacroAst::Call(_, _) => {
                MacroExpander::expand_dict_call(defs, item, depth, out);
            },
            MacroAst::Def(_, _, _) => {
                assert(out@ + Seq::<char>::empty() =~= out@);
            },
        }
    }

    fn expand_dict_block(
        defs: &Vec<MacroAst>,
        items: &Vec<MacroAst>,
        params: &Vec<MiniToken>,
        args: &Vec<MiniToken>,
        depth: usize,
        out: &mut String,
    )
        ensures
            final(out)@ == old(out)@ + (seq!['{'] + expand_items(
                ast_views(defs@),
                ast_views(items@),
                0,
                mini_views(params@),
                mini_views(args@),
                depth as nat,
            ) + seq!['}']),
        decreases depth, items, 1int,
    {
        push_char(out, '{');
        MacroExpander::expand_items(defs, items, params, args, depth, out);
        push_char(out, '}');
        proof {
            let mid = expand_items(
                ast_views(defs@),
                ast_views(items@),
                0,
                mini_views(params@),
                mini_views(args@),
                depth as nat,
            );
            assert((old(out)@.push('{') + mid).push('}') =~= old(out)@ + (seq!['{'] + mid
                + seq!['}']));
        }
    }

    fn expand_items(
        defs: &Vec<MacroAst>,
        items: &Vec<MacroAst>,
        params: &Vec<MiniToken>,
        args: &Vec<MiniToken>,
        depth: usize,
        out: &mut String,
    )
        ensures
            final(out)@ == old(out)@ + expand_items(
                ast_views(defs@),
                ast_views(items@),
                0,
                mini_views(params@),
                mini_views(args@),
                depth as nat,
            ),
        decreases depth, items, 0int,
    {
        let ghost d = ast_views(defs@);
        let ghost its = ast_views(items@);
        let ghost ps = mini_views(params@);
        let ghost xs = mini_views(args@);
        let mut i: usize = 0;
        while i < items.len()
            invariant
                i <= items.len(),
                d == ast_views(defs@),
                its == ast_views(items@),
                ps == mini_views(params@),
                xs == mini_views(args@),
                out@ + expand_items(d, its, i as int, ps, xs, depth as nat) == old(out)@
                    + expand_items(d, its, 0, ps, xs, depth as nat),
            decreases items.len() - i,
        {
            let ghost before = out@;
            assert(decreases_to!(items => items[i as int]));
            MacroExpander::expand_dict(defs, &items[i], params, args, depth, out);
            proof {
                let here = expand_item(d, its[i as int], ps, xs, depth as nat);
                assert((before + here) + expand_items(d, its, i + 1, ps, xs, depth as nat)
                    =~= before + (here + expand_items(d, its, i + 1, ps, xs, depth as nat)));
            }
            i += 1;
        }
        assert(out@ + Seq::<char>::empty() =~= out@);
    }

    fn expand_dict_call(defs: &Vec<MacroAst>, call: &MacroAst, depth: usize, out: &mut String)
        ensures
            final(out)@ == old(out)@ + expand_call(ast_views(defs@), call@, depth as nat),
        decreases depth, call, 0int,
    {
        assert(out@ + Seq::<char>::empty() =~= out@);
        let (name, args) = match call {
            MacroAst::Call(name, args) => (name, args),
            _ => {
                return ;
            },
        };
        if depth == 0 {
            return ;
        }
        let chars = chars_of(name.as_str());
        let short = if chars.len() > 0 {
            string_of(&chars, 0, chars.len() - 1)
        } else {
            string_of(&chars, 0, 0)
        };
        assert(short@ =~= callee(name@));
        match lookup(defs, &short) {
            Some(k) => {
                assert(ast_views(defs@)[k as int] == defs@[k as int]@);
                match &defs[k] {
                    MacroAst::Def(n, params, body) => {
                        assert(defs@[k as int]@ == MacroAstView::Def(
                            n@,
                            mini_views(params@),
                            Box::new(body@),
                        ));
                        match &**body {
                            MacroAst::Block(items) => {
                                proof {
                                    lemma_block_view(*items);
                                }
                                MacroExpander::expand_dict_block(
                                    defs,
                                    items,
                                    params,
                                    args,
                                    depth - 1,
                                    out,
                                );
                            },
                            _ => {},
                        }
                    },
                    _ => {},
                }
            },
            None => {},
        }
    }

    fn expand(&mut self)
        ensures
            final(self).final_source@ == expand_all(old(self).defs.parsed()),
            final(self).defs == old(self).defs,
            final(self).files == old(self).files,
    {
        let mut out = String::new();
        let none: Vec<MiniToken> = Vec::new();
        assert(mini_views(none@) =~= Seq::empty());
        MacroExpander::expand_items(
            &self.defs.defines,
            &self.defs.file_content,
            &none,
            &none,
            self.defs.defines.len(),
            &mut out,
        );
        assert(Seq::<char>::empty() + expand_all(self.defs.parsed()) =~= expand_all(
            self.defs.parsed(),
        ));
        self.final_source = out;
    }

    /// Reads the files and returns the expanded text of all that has
    /// been read. A text must be stored under each of their paths.
    pub fn compile(&mut self) -> (text: String)
        requires
            all_stored(old(self).defs.sources.files@, old(self).defs.files@),
        ensures
            final(self).defs.parsed() == parse_files(
                old(self).defs.sources.files@,
                old(self).defs.files@,
                0,
                old(self).defs.parsed(),
            ),
            text@ == expand_all(final(self).defs.parsed()),
            final(self).final_source@ == text@,
            final(self).defs.files == old(self).defs.files,
            final(self).defs.sources == old(self).defs.sources,
            final(self).defs.tokenizer@ == (MacroTokenizerView {
                source: Seq::empty(),
                start: 0,
                end: 0,
            }),
            final(self).files == old(self).files,
    {
        self.defs.compile();
        self.expand();
        self.final_source.clone()
    }

    /// The expanded text of the one file stored under `path` followed by
    /// `file`, read on its own: the definitions held so far play no part
    /// and stay as they are. A text must be stored under that path.
    pub fn compile_with_path(&mut self, file: String, path: String) -> (text: String)
        requires
            source_text(old(self).defs.sources.files@, path@ + file@) is Some,
        ensures
            text@ == expand_all(
                parse_file(
                    old(self).defs.sources.files@,
                    path@ + file@,
                    Parsed { defines: Seq::empty(), content: Seq::empty() },
                ),
            ),
            final(self).final_source@ == text@,
            final(self).defs == old(self).defs,
            final(self).files == old(self).files,
    {
        let mut paths: Vec<String> = Vec::new();
        paths.push(path.concat(file.as_str()));
        let mut defs = MacroDefs::new(paths);
        defs.sources = self.defs.sources.duplicate();
        assert(defs.parsed().defines =~= Seq::empty());
        assert(defs.parsed().content =~= Seq::empty());
        let ghost start = defs.parsed();
        let ghost stored = defs.sources.files@;
        let ghost listed = defs.files@;
        defs.compile();
        proof {
            assert(stored_text(stored, path@ + file@) == stored_text(
                self.defs.sources.files@,
                path@ + file@,
            ));
            assert(parse_files(stored, listed, 1, parse_file(stored, listed[0]@, start))
                == parse_file(stored, listed[0]@, start));
        }
        let mut out = String::new();
        let none: Vec<MiniToken> = Vec::new();
        assert(mini_views(none@) =~= Seq::empty());
        MacroExpander::expand_items(
            &defs.defines,
            &defs.file_content,
            &none,
            &none,
            defs.defines.len(),
            &mut out,
        );
        assert(Seq::<char>::empty() + expand_all(defs.parsed()) =~= expand_all(defs.parsed()));
        self.final_source = out;
        self.final_source.clone()
    }
}

} // verus!
