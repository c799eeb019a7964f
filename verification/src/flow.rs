//! Control flow graphs of Python functions, built from their syntax trees: conditions,
//! loops, try blocks, jumps and await points become blocks joined by typed edges.

use vstd::prelude::*;
use crate::extract::{line_from_row, line_of};
use crate::ir::{CfgBlock, CfgBlockKind, CfgBlockV, CfgEdge, CfgEdgeKind, CfgEdgeV, ControlFlowGraph};
use crate::parser::ParseError;
use crate::syntax::{SyntaxNode, field_at, field_pos, has_field, text_of};
use crate::text::{chars_of, copy_string, decimal, push_decimal, push_str, same_text, string_from_chars, to_owned_string};
use crate::syntax::kind_is;
use crate::textops::{trim_ws, trim_ws_exec};

verus! {

/// The blocks and edges gathered so far.
#[verifier::ext_equal]
pub struct CfgDraft {
    pub blocks: Seq<CfgBlockV>,
    pub edges: Seq<CfgEdgeV>,
}

/// Where a statement sits: the function's id (the prefix of block ids), its exit block,
/// and the exit and header of the innermost loop.
pub struct ScopeV {
    pub func: Seq<char>,
    pub exit: Seq<char>,
    pub loop_exit: Seq<char>,
    pub loop_header: Option<Seq<char>>,
}

/// The id of the block numbered `k` of the function.
pub open spec fn block_id(func: Seq<char>, k: nat) -> Seq<char> {
    func + "_b"@ + decimal(k)
}

impl CfgDraft {
    /// The id that the next block gets: blocks are numbered in the order they are made.
    pub open spec fn next_id(self, func: Seq<char>) -> Seq<char> {
        block_id(func, self.blocks.len())
    }

    /// The draft with one more block, under the next id.
    pub open spec fn block(self, func: Seq<char>, kind: CfgBlockKind, label: Seq<char>, line: Option<u32>) -> CfgDraft {
        CfgDraft { blocks: self.blocks.push(CfgBlockV { id: self.next_id(func), kind, label, line }), edges: self.edges }
    }

    /// The draft with one more edge.
    pub open spec fn edge(self, from: Seq<char>, to: Seq<char>, kind: CfgEdgeKind, label: Option<Seq<char>>) -> CfgDraft {
        CfgDraft { blocks: self.blocks, edges: self.edges.push(CfgEdgeV { from, to, kind, label }) }
    }
}

/// The label of a taken branch.
pub open spec fn true_label() -> Option<Seq<char>> {
    Some("✓ true"@)
}

/// The label of a branch not taken.
pub open spec fn false_label() -> Option<Seq<char>> {
    Some("✗ false"@)
}

/// The text of a node, or the default where it has none.
pub open spec fn text_or(n: SyntaxNode, d: Seq<char>) -> Seq<char> {
    match n.text {
        Some(t) => t@,
        None => d,
    }
}

/// The text of the first child under the field, or the default.
pub open spec fn field_text_or(n: SyntaxNode, name: Seq<char>, d: Seq<char>) -> Seq<char> {
    match field_at(n, name) {
        Some(i) => text_or(n.children@[i], d),
        None => d,
    }
}

/// The number of bytes that UTF-8 spends on the character.
pub open spec fn utf8_width(c: char) -> nat {
    if '\u{80}' > c { 1 } else if '\u{800}' > c { 2 } else if '\u{10000}' > c { 3 } else { 4 }
}

/// The number of bytes of the text in UTF-8.
pub open spec fn utf8_len(s: Seq<char>) -> nat
    decreases s.len(),
{
    if s.len() == 0 { 0 } else { utf8_width(s[0]) + utf8_len(s.skip(1)) }
}

/// The characters that fit, whole, in the first `n` bytes.
pub open spec fn bytes_prefix(s: Seq<char>, n: int) -> Seq<char>
    decreases s.len(),
{
    if s.len() == 0 || utf8_width(s[0]) > n { seq![] } else { seq![s[0]] + bytes_prefix(s.skip(1), n - utf8_width(s[0])) }
}

/// Whether a character ends exactly at byte `n`.
pub open spec fn splits_at(s: Seq<char>, n: int) -> bool
    decreases s.len(),
{
    n == 0 || (s.len() > 0 && utf8_width(s[0]) <= n && splits_at(s.skip(1), n - utf8_width(s[0])))
}

/// Whether a statement's text can be cut for its label: text over 30 bytes is cut at
/// byte 27, which must fall between two characters.
pub open spec fn label_fits(t: Seq<char>) -> bool {
    utf8_len(t) > 30 ==> splits_at(t, 27)
}

/// The label of a plain statement: its text, cut to 27 bytes and an ellipsis where it is
/// over 30 bytes, line breaks read as spaces.
pub open spec fn block_label(t: Seq<char>) -> Seq<char> {
    let cut = if utf8_len(t) > 30 { bytes_prefix(t, 27) + "..."@ } else { t };
    cut.map_values(|c: char| if c == '\n' { ' ' } else { c })
}

/// The await nodes under the node, in order, none looked into.
pub open spec fn awaits_in(n: SyntaxNode) -> Seq<SyntaxNode>
    decreases n,
{
    awaits_among(n.children@)
}

/// The await nodes among and under the nodes, in order, none looked into.
pub open spec fn awaits_among(cs: Seq<SyntaxNode>) -> Seq<SyntaxNode>
    decreases cs,
{
    if cs.len() == 0 {
        seq![]
    } else {
        let c = cs.last();
        awaits_among(cs.drop_last()) + if c.kind@ == "await"@ { seq![c] } else { awaits_in(c) }
    }
}

/// Chains an await point for each of the nodes, from the block `cur`.
pub open spec fn await_chain(aws: Seq<SyntaxNode>, func: Seq<char>, cur: Seq<char>, d: CfgDraft) -> (Seq<char>, CfgDraft)
    decreases aws.len(),
{
    if aws.len() == 0 {
        (cur, d)
    } else {
        let r = await_chain(aws.drop_last(), func, cur, d);
        let a = aws.last();
        let id = r.1.next_id(func);
        (id, r.1.block(func, CfgBlockKind::AwaitPoint, text_or(a, "await"@), line_of(a.row)).edge(r.0, id, CfgEdgeKind::AsyncEdge, None))
    }
}

/// Chains an await point, labelled `await`, for each await child, from the block `cur`.
pub open spec fn direct_awaits(cs: Seq<SyntaxNode>, func: Seq<char>, line: Option<u32>, cur: Seq<char>, d: CfgDraft) -> (Seq<char>, CfgDraft)
    decreases cs.len(),
{
    if cs.len() == 0 {
        (cur, d)
    } else {
        let r = direct_awaits(cs.drop_last(), func, line, cur, d);
        if cs.last().kind@ == "await"@ {
            let id = r.1.next_id(func);
            (id, r.1.block(func, CfgBlockKind::AwaitPoint, "await"@, line).edge(r.0, id, CfgEdgeKind::AsyncEdge, None))
        } else {
            r
        }
    }
}

/// The label of a `return` or `raise`: the word, then the text of the second child.
pub open spec fn jump_label(word: Seq<char>, n: SyntaxNode) -> Seq<char> {
    if n.children@.len() > 1 { word + " "@ + text_of(n.children@[1]) } else { word }
}

/// The label of an exception handler: its type, and the name it binds.
pub open spec fn handler_label(h: SyntaxNode) -> Seq<char> {
    match field_at(h, "type"@) {
        Some(i) => {
            let l = text_or(h.children@[i], "Exception"@);
            match field_at(h, "name"@) {
                Some(j) => l + " as "@ + text_of(h.children@[j]),
                None => l,
            }
        },
        None => "Exception"@,
    }
}

/// A `return`: await points among its children, then its block, which leads to the exit.
pub open spec fn cfg_return(n: SyntaxNode, sc: ScopeV, cur: Seq<char>, d: CfgDraft) -> (Seq<char>, CfgDraft) {
    let f = sc.func;
    let line = line_of(n.row);
    let aw = direct_awaits(n.children@, f, line, cur, d);
    let r = aw.1.next_id(f);
    (r, aw.1.block(f, CfgBlockKind::Block, jump_label("return"@, n), line)
        .edge(aw.0, r, CfgEdgeKind::Normal, None).edge(r, sc.exit, CfgEdgeKind::Normal, None))
}

/// A `raise`: a throw point, which leads to the exit by an exception edge.
pub open spec fn cfg_raise(n: SyntaxNode, sc: ScopeV, cur: Seq<char>, d: CfgDraft) -> (Seq<char>, CfgDraft) {
    let f = sc.func;
    let r = d.next_id(f);
    (r, d.block(f, CfgBlockKind::ThrowPoint, jump_label("raise"@, n), line_of(n.row))
        .edge(cur, r, CfgEdgeKind::Normal, None).edge(r, sc.exit, CfgEdgeKind::ExceptionEdge, None))
}

/// A `break`: a block that leads to the loop's exit.
pub open spec fn cfg_break(n: SyntaxNode, sc: ScopeV, cur: Seq<char>, d: CfgDraft) -> (Seq<char>, CfgDraft) {
    let f = sc.func;
    let b = d.next_id(f);
    (b, d.block(f, CfgBlockKind::Block, "break"@, line_of(n.row))
        .edge(cur, b, CfgEdgeKind::Normal, None).edge(b, sc.loop_exit, CfgEdgeKind::Normal, None))
}

/// A `continue`: a block that leads back to the loop's header, where there is a loop.
pub open spec fn cfg_continue(n: SyntaxNode, sc: ScopeV, cur: Seq<char>, d: CfgDraft) -> (Seq<char>, CfgDraft) {
    let f = sc.func;
    let c = d.next_id(f);
    let d1 = d.block(f, CfgBlockKind::Block, "continue"@, line_of(n.row)).edge(cur, c, CfgEdgeKind::Normal, None);
    (c, match sc.loop_header { Some(h) => d1.edge(c, h, CfgEdgeKind::LoopBack, None), None => d1 })
}

/// Any other statement: its await points, then, unless it is a comment or blank, a block
/// labelled with its text.
pub open spec fn cfg_plain(n: SyntaxNode, sc: ScopeV, cur: Seq<char>, d: CfgDraft) -> (Seq<char>, CfgDraft) {
    let f = sc.func;
    let aw = await_chain(awaits_in(n), f, cur, d);
    let t = text_of(n);
    if n.kind@ == "comment"@ || trim_ws(t).len() == 0 {
        aw
    } else {
        let b = aw.1.next_id(f);
        (b, aw.1.block(f, CfgBlockKind::Block, block_label(t), line_of(n.row)).edge(aw.0, b, CfgEdgeKind::Normal, None))
    }
}

/// Walks a statement from the block `cur`: the block where control goes on after it,
/// and the draft with what it adds.
pub open spec fn cfg_walk(n: SyntaxNode, sc: ScopeV, cur: Seq<char>, d: CfgDraft) -> (Seq<char>, CfgDraft)
    decreases n, 1int,
{
    let k = n.kind@;
    if k == "block"@ || k == "module"@ {
        cfg_seq(n.children@, sc, cur, d)
    } else if k == "if_statement"@ {
        cfg_if(n, sc, cur, d)
    } else if k == "for_statement"@ || k == "while_statement"@ {
        cfg_loop(n, sc, cur, d)
    } else if k == "try_statement"@ {
        cfg_try(n, sc, cur, d)
    } else if k == "return_statement"@ {
        cfg_return(n, sc, cur, d)
    } else if k == "raise_statement"@ {
        cfg_raise(n, sc, cur, d)
    } else if k == "break_statement"@ {
        cfg_break(n, sc, cur, d)
    } else if k == "continue_statement"@ {
        cfg_continue(n, sc, cur, d)
    } else {
        cfg_plain(n, sc, cur, d)
    }
}

/// An `if`: a condition, a merge block, the consequence, then the `elif` and `else`
/// clauses; without an `else`, the last condition's false branch goes to the merge block.
pub open spec fn cfg_if(n: SyntaxNode, sc: ScopeV, cur: Seq<char>, d: CfgDraft) -> (Seq<char>, CfgDraft)
    decreases n, 0int,
{
    let f = sc.func;
    let line = line_of(n.row);
    let cond = d.next_id(f);
    let d1 = d.block(f, CfgBlockKind::Condition, field_text_or(n, "condition"@, "condition"@), line)
        .edge(cur, cond, CfgEdgeKind::Normal, None);
    let merge = d1.next_id(f);
    let d2 = d1.block(f, CfgBlockKind::Block, "merge"@, None);
    let d3 = match field_at(n, "consequence"@) {
        Some(i) => {
            let t = d2.next_id(f);
            let r = cfg_walk(n.children@[i], sc, t,
                d2.block(f, CfgBlockKind::Block, "then"@, line).edge(cond, t, CfgEdgeKind::TrueBranch, true_label()));
            r.1.edge(r.0, merge, CfgEdgeKind::Normal, None)
        },
        None => d2,
    };
    let a = cfg_alts(n.children@, sc, merge, (cond, false, d3));
    (merge, if a.1 { a.2 } else { a.2.edge(a.0, merge, CfgEdgeKind::FalseBranch, false_label()) })
}

/// The label of a loop's header.
pub open spec fn loop_label(n: SyntaxNode) -> Seq<char> {
    if n.kind@ == "for_statement"@ {
        "for"@
    } else {
        match field_at(n, "condition"@) {
            Some(i) => "while "@ + text_or(n.children@[i], "condition"@),
            None => "while"@,
        }
    }
}

/// A `for` or `while`: a header, an exit block, and the body, walked with this loop as the
/// innermost, whose end leads back to the header; the header's false branch leaves.
pub open spec fn cfg_loop(n: SyntaxNode, sc: ScopeV, cur: Seq<char>, d: CfgDraft) -> (Seq<char>, CfgDraft)
    decreases n, 0int,
{
    let f = sc.func;
    let h = d.next_id(f);
    let d1 = d.block(f, CfgBlockKind::LoopHeader, loop_label(n), line_of(n.row)).edge(cur, h, CfgEdgeKind::Normal, None);
    let x = d1.next_id(f);
    let d2 = d1.block(f, CfgBlockKind::Block, "loop exit"@, None);
    let d3 = match field_at(n, "body"@) {
        Some(i) => {
            let b = d2.next_id(f);
            let inner = ScopeV { func: f, exit: sc.exit, loop_exit: x, loop_header: Some(h) };
            let r = cfg_walk(n.children@[i], inner, b,
                d2.block(f, CfgBlockKind::LoopBody, "loop body"@, line_of(n.children@[i].row))
                    .edge(h, b, CfgEdgeKind::TrueBranch, true_label()));
            r.1.edge(r.0, h, CfgEdgeKind::LoopBack, None)
        },
        None => d2,
    };
    (x, d3.edge(h, x, CfgEdgeKind::FalseBranch, false_label()))
}

/// A `try`: its block, a merge block, the body, the handlers, then the first `finally`.
pub open spec fn cfg_try(n: SyntaxNode, sc: ScopeV, cur: Seq<char>, d: CfgDraft) -> (Seq<char>, CfgDraft)
    decreases n, 0int,
{
    let f = sc.func;
    let t = d.next_id(f);
    let d1 = d.block(f, CfgBlockKind::TryBlock, "try"@, line_of(n.row)).edge(cur, t, CfgEdgeKind::Normal, None);
    let te = d1.next_id(f);
    let d2 = d1.block(f, CfgBlockKind::Block, "try merge"@, None);
    let d3 = match field_at(n, "body"@) {
        Some(i) => {
            let r = cfg_walk(n.children@[i], sc, t, d2);
            r.1.edge(r.0, te, CfgEdgeKind::Normal, None)
        },
        None => d2,
    };
    let d4 = cfg_handlers(n.children@, sc, t, te, d3);
    cfg_finally(n.children@, sc, te, d4)
}

/// Walks the statements in order.
pub open spec fn cfg_seq(cs: Seq<SyntaxNode>, sc: ScopeV, cur: Seq<char>, d: CfgDraft) -> (Seq<char>, CfgDraft)
    decreases cs, 0int,
{
    if cs.len() == 0 {
        (cur, d)
    } else {
        let r = cfg_seq(cs.drop_last(), sc, cur, d);
        cfg_walk(cs.last(), sc, r.0, r.1)
    }
}

/// Walks the `elif` and `else` clauses of an `if` whose merge block is `merge`: the
/// condition that a next clause hangs from, whether an `else` was met, and the draft.
pub open spec fn cfg_alts(cs: Seq<SyntaxNode>, sc: ScopeV, merge: Seq<char>, acc: (Seq<char>, bool, CfgDraft)) -> (Seq<char>, bool, CfgDraft)
    decreases cs, 0int,
{
    if cs.len() == 0 {
        acc
    } else {
        let a = cfg_alts(cs.drop_last(), sc, merge, acc);
        let alt = cs.last();
        let f = sc.func;
        let line = line_of(alt.row);
        if !has_field(alt, "alternative"@) {
            a
        } else if alt.kind@ == "elif_clause"@ {
            let e = a.2.next_id(f);
            let d1 = a.2.block(f, CfgBlockKind::Condition, field_text_or(alt, "condition"@, "condition"@), line)
                .edge(a.0, e, CfgEdgeKind::FalseBranch, false_label());
            let d2 = match field_at(alt, "consequence"@) {
                Some(i) => {
                    let t = d1.next_id(f);
                    let r = cfg_walk(alt.children@[i], sc, t,
                        d1.block(f, CfgBlockKind::Block, "elif"@, line).edge(e, t, CfgEdgeKind::TrueBranch, true_label()));
                    r.1.edge(r.0, merge, CfgEdgeKind::Normal, None)
                },
                None => d1,
            };
            (e, a.1, d2)
        } else if alt.kind@ == "else_clause"@ {
            let b = a.2.next_id(f);
            let d1 = a.2.block(f, CfgBlockKind::Block, "else"@, line).edge(a.0, b, CfgEdgeKind::FalseBranch, false_label());
            let r = match field_at(alt, "body"@) {
                Some(i) => cfg_walk(alt.children@[i], sc, b, d1),
                None => (b, d1),
            };
            (a.0, true, r.1.edge(r.0, merge, CfgEdgeKind::Normal, None))
        } else {
            a
        }
    }
}

/// Walks the exception handlers of a `try` whose block is `t` and merge block `te`.
pub open spec fn cfg_handlers(cs: Seq<SyntaxNode>, sc: ScopeV, t: Seq<char>, te: Seq<char>, d: CfgDraft) -> CfgDraft
    decreases cs, 0int,
{
    if cs.len() == 0 {
        d
    } else {
        let d1 = cfg_handlers(cs.drop_last(), sc, t, te, d);
        let h = cs.last();
        let f = sc.func;
        if !has_field(h, "handler"@) {
            d1
        } else {
            let c = d1.next_id(f);
            let d2 = d1.block(f, CfgBlockKind::CatchBlock, handler_label(h), line_of(h.row))
                .edge(t, c, CfgEdgeKind::ExceptionEdge, None);
            match field_at(h, "body"@) {
                Some(i) => {
                    let r = cfg_walk(h.children@[i], sc, c, d2);
                    r.1.edge(r.0, te, CfgEdgeKind::Normal, None)
                },
                None => d2,
            }
        }
    }
}

/// Walks the first `finally` clause of a `try` whose merge block is `te`: where control
/// goes on after the statement.
pub open spec fn cfg_finally(cs: Seq<SyntaxNode>, sc: ScopeV, te: Seq<char>, d: CfgDraft) -> (Seq<char>, CfgDraft)
    decreases cs, 0int,
{
    if cs.len() == 0 {
        (te, d)
    } else if cs[0].kind@ == "finally_clause"@ {
        let fc = cs[0];
        let f = sc.func;
        let fid = d.next_id(f);
        let d1 = d.block(f, CfgBlockKind::FinallyBlock, "finally"@, line_of(fc.row)).edge(te, fid, CfgEdgeKind::FinallyEdge, None);
        match field_at(fc, "body"@) {
            Some(i) => cfg_walk(fc.children@[i], sc, fid, d1),
            None => (fid, d1),
        }
    } else {
        cfg_finally(cs.skip(1), sc, te, d)
    }
}

/// Whether the statements that the walk reaches can be labelled: each plain statement's
/// text can be cut (see `label_fits`).
pub open spec fn cfg_fits(n: SyntaxNode) -> bool
    decreases n, 2int,
{
    let k = n.kind@;
    if k == "block"@ || k == "module"@ {
        forall|i: int| 0 <= i < n.children@.len() ==> cfg_fits(#[trigger] n.children@[i])
    } else if k == "if_statement"@ {
        if_fits(n)
    } else if k == "for_statement"@ || k == "while_statement"@ {
        field_fits(n, "body"@)
    } else if k == "try_statement"@ {
        try_fits(n)
    } else if k == "return_statement"@ || k == "raise_statement"@ || k == "break_statement"@ || k == "continue_statement"@ {
        true
    } else {
        label_fits(text_of(n))
    }
}

/// Whether the branches of an `if` can be walked.
pub open spec fn if_fits(n: SyntaxNode) -> bool
    decreases n, 1int,
{
    &&& field_fits(n, "consequence"@)
    &&& forall|i: int| 0 <= i < n.children@.len() && has_field(#[trigger] n.children@[i], "alternative"@) ==>
        (n.children@[i].kind@ == "elif_clause"@ ==> field_fits(n.children@[i], "consequence"@))
        && (n.children@[i].kind@ == "else_clause"@ ==> field_fits(n.children@[i], "body"@))
}

/// Whether the body, handlers and `finally` of a `try` can be walked.
pub open spec fn try_fits(n: SyntaxNode) -> bool
    decreases n, 1int,
{
    &&& field_fits(n, "body"@)
    &&& forall|i: int| 0 <= i < n.children@.len() && has_field(#[trigger] n.children@[i], "handler"@)
        ==> field_fits(n.children@[i], "body"@)
    &&& finally_fits(n.children@)
}

/// Whether the first child under the field, if any, can be walked (see `cfg_fits`).
pub open spec fn field_fits(n: SyntaxNode, name: Seq<char>) -> bool
    decreases n, 0int,
{
    match field_at(n, name) {
        Some(i) => cfg_fits(n.children@[i]),
        None => true,
    }
}

/// Whether the body of the first `finally` clause, if any, can be walked.
pub open spec fn finally_fits(cs: Seq<SyntaxNode>) -> bool
    decreases cs, 0int,
{
    if cs.len() == 0 {
        true
    } else if cs[0].kind@ == "finally_clause"@ {
        field_fits(cs[0], "body"@)
    } else {
        finally_fits(cs.skip(1))
    }
}

/// The plain values of control flow blocks and edges, as a draft.
pub open spec fn draft_of(blocks: Seq<CfgBlock>, edges: Seq<CfgEdge>) -> CfgDraft {
    CfgDraft { blocks: blocks.map_values(|b: CfgBlock| b@), edges: edges.map_values(|e: CfgEdge| e@) }
}

/// Where a statement sits (see `ScopeV`).
struct Scope {
    func: String,
    exit: String,
    loop_exit: String,
    loop_header: Option<String>,
}

impl View for Scope {
    type V = ScopeV;

    closed spec fn view(&self) -> ScopeV {
        ScopeV {
            func: self.func@,
            exit: self.exit@,
            loop_exit: self.loop_exit@,
            loop_header: match self.loop_header { Some(h) => Some(h@), None => None },
        }
    }
}

fn next_block_id(func: &String, blocks: &Vec<CfgBlock>) -> (r: String)
    ensures
        r@ == block_id(func@, blocks@.len()),
{
    let mut r = copy_string(func);
    push_str(&mut r, "_b");
    push_decimal(&mut r, blocks.len());
    r
}

fn add_block(func: &String, kind: CfgBlockKind, label: String, line: Option<u32>, blocks: &mut Vec<CfgBlock>,
    edges: &Vec<CfgEdge>) -> (id: String)
    ensures
        id@ == draft_of(old(blocks)@, edges@).next_id(func@),
        draft_of(final(blocks)@, edges@) == draft_of(old(blocks)@, edges@).block(func@, kind, label@, line),
{
    let id = next_block_id(func, blocks);
    let ghost d = draft_of(blocks@, edges@);
    blocks.push(CfgBlock { id: copy_string(&id), kind, label, line });
    assert(draft_of(blocks@, edges@).blocks =~= d.block(func@, kind, label@, line).blocks);
    id
}

fn add_edge(from: &String, to: &String, kind: CfgEdgeKind, label: Option<&str>, blocks: &Vec<CfgBlock>,
    edges: &mut Vec<CfgEdge>)
    ensures
        draft_of(blocks@, final(edges)@) == draft_of(blocks@, old(edges)@).edge(from@, to@, kind,
            match label { Some(l) => Some(l@), None => None }),
{
    let ghost d = draft_of(blocks@, edges@);
    let l = match label {
        Some(l) => Some(to_owned_string(l)),
        None => None,
    };
    edges.push(CfgEdge { from_id: copy_string(from), to_id: copy_string(to), kind, label: l });
    assert(draft_of(blocks@, edges@).edges =~= d.edge(from@, to@, kind, match label { Some(l) => Some(l@), None => None }).edges);
}

fn text_or_exec(n: &SyntaxNode, d: &str) -> (r: String)
    ensures
        r@ == text_or(*n, d@),
{
    match &n.text {
        Some(t) => copy_string(t),
        None => to_owned_string(d),
    }
}

fn text_of_exec(n: &SyntaxNode) -> (r: String)
    ensures
        r@ == text_of(*n),
{
    match &n.text {
        Some(t) => copy_string(t),
        None => String::new(),
    }
}

fn field_text_or_exec(n: &SyntaxNode, name: &str, d: &str) -> (r: String)
    ensures
        r@ == field_text_or(*n, name@, d@),
{
    match field_pos(n, name) {
        Some(i) => text_or_exec(&n.children[i], d),
        None => to_owned_string(d),
    }
}

fn utf8_width_exec(c: char) -> (r: usize)
    ensures
        r == utf8_width(c),
{
    if '\u{80}' > c { 1 } else if '\u{800}' > c { 2 } else if '\u{10000}' > c { 3 } else { 4 }
}

/// The byte count of a text, read from the back.
pub open spec fn utf8_len_back(s: Seq<char>) -> nat
    decreases s.len(),
{
    if s.len() == 0 { 0 } else { utf8_len_back(s.drop_last()) + utf8_width(s.last()) }
}

proof fn lemma_utf8_len_back(s: Seq<char>)
    ensures
        utf8_len_back(s) == utf8_len(s),
    decreases s.len(),
{
    if s.len() > 0 {
        lemma_utf8_len_back(s.skip(1));
        lemma_utf8_len_back(s.drop_last());
        if s.len() > 1 {
            lemma_utf8_len_back(s.drop_last().skip(1));
            assert(s.skip(1).drop_last() =~= s.drop_last().skip(1));
        } else {
            assert(s.drop_last() =~= Seq::<char>::empty());
            assert(s.skip(1) =~= Seq::<char>::empty());
        }
    }
}

proof fn lemma_utf8_len_prefix(s: Seq<char>, i: int)
    requires
        0 <= i <= s.len(),
    ensures
        utf8_len_back(s.take(i)) <= utf8_len_back(s),
    decreases s.len() - i,
{
    if i < s.len() {
        lemma_utf8_len_prefix(s, i + 1);
        assert(s.take(i + 1).drop_last() =~= s.take(i));
    } else {
        assert(s.take(i) =~= s);
    }
}

fn block_label_exec(t: &String) -> (r: String)
    requires
        label_fits(t@),
    ensures
        r@ == block_label(t@),
{
    let v = chars_of(t.as_str());
    let mut total: usize = 0;
    let mut i: usize = 0;
    while i < v.len() && total <= 30
        invariant
            i <= v@.len(),
            total == utf8_len_back(v@.take(i as int)),
        decreases v@.len() - i,
    {
        assert(v@.take(i + 1).drop_last() =~= v@.take(i as int));
        total = total + utf8_width_exec(v[i]);
        i = i + 1;
    }
    proof {
        lemma_utf8_len_back(v@);
        lemma_utf8_len_prefix(v@, i as int);
        if i == v@.len() {
            assert(v@.take(i as int) =~= v@);
        }
    }
    let mut cut: Vec<char> = Vec::new();
    if total > 30 {
        let mut rem: usize = 27;
        let mut j: usize = 0;
        assert(v@.skip(0) =~= v@);
        while j < v.len() && utf8_width_exec(v[j]) <= rem
            invariant
                j <= v@.len(),
                rem <= 27,
                bytes_prefix(v@, 27) == cut@ + bytes_prefix(v@.skip(j as int), rem as int),
            decreases v@.len() - j,
        {
            let w = utf8_width_exec(v[j]);
            assert(v@.skip(j as int)[0] == v@[j as int]);
            assert(v@.skip(j as int).skip(1) =~= v@.skip(j + 1));
            cut.push(v[j]);
            rem = rem - w;
            j = j + 1;
            assert(bytes_prefix(v@, 27) =~= cut@ + bytes_prefix(v@.skip(j as int), rem as int));
        }
        assert(bytes_prefix(v@.skip(j as int), rem as int) =~= Seq::<char>::empty());
        cut.push('.');
        cut.push('.');
        cut.push('.');
        proof {
            reveal_strlit("...");
        }
        assert(cut@ =~= bytes_prefix(v@, 27) + "..."@);
    } else {
        let mut j: usize = 0;
        while j < v.len()
            invariant
                j <= v@.len(),
                cut@ == v@.take(j as int),
            decreases v@.len() - j,
        {
            cut.push(v[j]);
            j = j + 1;
            assert(cut@ =~= v@.take(j as int));
        }
        assert(v@.take(j as int) =~= v@);
    }
    let mut out: Vec<char> = Vec::new();
    let mut k: usize = 0;
    while k < cut.len()
        invariant
            k <= cut@.len(),
            out@ == cut@.take(k as int).map_values(|c: char| if c == '\n' { ' ' } else { c }),
        decreases cut@.len() - k,
    {
        let c = cut[k];
        out.push(if c == '\n' { ' ' } else { c });
        k = k + 1;
        assert(out@ =~= cut@.take(k as int).map_values(|c: char| if c == '\n' { ' ' } else { c }));
    }
    assert(cut@.take(k as int) =~= cut@);
    string_from_chars(out.as_slice())
}

proof fn lemma_await_chain_concat(a: Seq<SyntaxNode>, b: Seq<SyntaxNode>, func: Seq<char>, cur: Seq<char>, d: CfgDraft)
    ensures
        await_chain(a + b, func, cur, d) == await_chain(b, func, await_chain(a, func, cur, d).0, await_chain(a, func, cur, d).1),
    decreases b.len(),
{
    if b.len() == 0 {
        assert(a + b =~= a);
    } else {
        lemma_await_chain_concat(a, b.drop_last(), func, cur, d);
        assert((a + b).drop_last() =~= a + b.drop_last());
        assert((a + b).last() == b.last());
    }
}

fn await_walk(n: &SyntaxNode, func: &String, cur: String, blocks: &mut Vec<CfgBlock>, edges: &mut Vec<CfgEdge>) -> (r: String)
    ensures
        (r@, draft_of(final(blocks)@, final(edges)@)) == await_chain(awaits_in(*n), func@, cur@, draft_of(old(blocks)@, old(edges)@)),
    decreases n,
{
    let ghost d0 = draft_of(blocks@, edges@);
    let ghost cur0 = cur@;
    let cs = &n.children;
    let mut cur = cur;
    let mut i: usize = 0;
    assert(cs@.take(0) =~= Seq::<SyntaxNode>::empty());
    while i < cs.len()
        invariant
            i <= cs@.len(),
            cs@ == n.children@,
            (cur@, draft_of(blocks@, edges@)) == await_chain(awaits_among(cs@.take(i as int)), func@, cur0, d0),
        decreases cs@.len() - i,
    {
        assert(cs@.take(i + 1).drop_last() =~= cs@.take(i as int));
        assert(cs@.take(i + 1).last() == cs@[i as int]);
        let c = &cs[i];
        let ghost before = awaits_among(cs@.take(i as int));
        if kind_is(c, "await") {
            proof {
                lemma_await_chain_concat(before, seq![*c], func@, cur0, d0);
                assert(seq![*c].drop_last() =~= Seq::<SyntaxNode>::empty());
                assert(awaits_among(cs@.take(i + 1)) == before + seq![*c]);
                assert(await_chain(seq![*c].drop_last(), func@, cur@, draft_of(blocks@, edges@)) == (cur@, draft_of(blocks@, edges@)));
            }
            let id = add_block(func, CfgBlockKind::AwaitPoint, text_or_exec(c, "await"), line_from_row(c.row), blocks, edges);
            add_edge(&cur, &id, CfgEdgeKind::AsyncEdge, None, blocks, edges);
            cur = id;
        } else {
            proof {
                lemma_await_chain_concat(before, awaits_in(*c), func@, cur0, d0);
                assert(awaits_among(cs@.take(i + 1)) == before + awaits_in(*c));
                assert(decreases_to!(*n => n.children));
                assert(decreases_to!(n.children => n.children@));
                assert(decreases_to!(n.children@ => n.children@[i as int]));
            }
            cur = await_walk(c, func, cur, blocks, edges);
            assert((cur@, draft_of(blocks@, edges@)) == await_chain(before + awaits_in(*c), func@, cur0, d0));
        }
        i = i + 1;
    }
    assert(cs@.take(cs@.len() as int) =~= cs@);
    cur
}

fn direct_awaits_exec(cs: &Vec<SyntaxNode>, func: &String, line: Option<u32>, cur: String, blocks: &mut Vec<CfgBlock>,
    edges: &mut Vec<CfgEdge>) -> (r: String)
    ensures
        (r@, draft_of(final(blocks)@, final(edges)@)) == direct_awaits(cs@, func@, line, cur@, draft_of(old(blocks)@, old(edges)@)),
{
    let ghost d0 = draft_of(blocks@, edges@);
    let ghost cur0 = cur@;
    let mut cur = cur;
    let mut i: usize = 0;
    while i < cs.len()
        invariant
            i <= cs@.len(),
            (cur@, draft_of(blocks@, edges@)) == direct_awaits(cs@.take(i as int), func@, line, cur0, d0),
        decreases cs@.len() - i,
    {
        assert(cs@.take(i + 1).drop_last() =~= cs@.take(i as int));
        assert(cs@.take(i + 1).last() == cs@[i as int]);
        if kind_is(&cs[i], "await") {
            let id = add_block(func, CfgBlockKind::AwaitPoint, to_owned_string("await"), line, blocks, edges);
            add_edge(&cur, &id, CfgEdgeKind::AsyncEdge, None, blocks, edges);
            cur = id;
        }
        i = i + 1;
    }
    assert(cs@.take(cs@.len() as int) =~= cs@);
    cur
}

fn jump_label_exec(word: &str, n: &SyntaxNode) -> (r: String)
    ensures
        r@ == jump_label(word@, *n),
{
    let mut l = to_owned_string(word);
    if n.children.len() > 1 {
        push_str(&mut l, " ");
        let t = text_of_exec(&n.children[1]);
        push_str(&mut l, t.as_str());
    }
    l
}

fn walk_return(n: &SyntaxNode, sc: &Scope, cur: String, blocks: &mut Vec<CfgBlock>, edges: &mut Vec<CfgEdge>) -> (r: String)
    ensures
        (r@, draft_of(final(blocks)@, final(edges)@)) == cfg_return(*n, sc@, cur@, draft_of(old(blocks)@, old(edges)@)),
{
    let line = line_from_row(n.row);
    let last = direct_awaits_exec(&n.children, &sc.func, line, cur, blocks, edges);
    let r = add_block(&sc.func, CfgBlockKind::Block, jump_label_exec("return", n), line, blocks, edges);
    add_edge(&last, &r, CfgEdgeKind::Normal, None, blocks, edges);
    add_edge(&r, &sc.exit, CfgEdgeKind::Normal, None, blocks, edges);
    r
}

fn walk_raise(n: &SyntaxNode, sc: &Scope, cur: String, blocks: &mut Vec<CfgBlock>, edges: &mut Vec<CfgEdge>) -> (r: String)
    ensures
        (r@, draft_of(final(blocks)@, final(edges)@)) == cfg_raise(*n, sc@, cur@, draft_of(old(blocks)@, old(edges)@)),
{
    let r = add_block(&sc.func, CfgBlockKind::ThrowPoint, jump_label_exec("raise", n), line_from_row(n.row), blocks, edges);
    add_edge(&cur, &r, CfgEdgeKind::Normal, None, blocks, edges);
    add_edge(&r, &sc.exit, CfgEdgeKind::ExceptionEdge, None, blocks, edges);
    r
}

fn walk_break(n: &SyntaxNode, sc: &Scope, cur: String, blocks: &mut Vec<CfgBlock>, edges: &mut Vec<CfgEdge>) -> (r: String)
    ensures
        (r@, draft_of(final(blocks)@, final(edges)@)) == cfg_break(*n, sc@, cur@, draft_of(old(blocks)@, old(edges)@)),
{
    let b = add_block(&sc.func, CfgBlockKind::Block, to_owned_string("break"), line_from_row(n.row), blocks, edges);
    add_edge(&cur, &b, CfgEdgeKind::Normal, None, blocks, edges);
    add_edge(&b, &sc.loop_exit, CfgEdgeKind::Normal, None, blocks, edges);
    b
}

fn walk_continue(n: &SyntaxNode, sc: &Scope, cur: String, blocks: &mut Vec<CfgBlock>, edges: &mut Vec<CfgEdge>) -> (r: String)
    ensures
        (r@, draft_of(final(blocks)@, final(edges)@)) == cfg_continue(*n, sc@, cur@, draft_of(old(blocks)@, old(edges)@)),
{
    let c = add_block(&sc.func, CfgBlockKind::Block, to_owned_string("continue"), line_from_row(n.row), blocks, edges);
    add_edge(&cur, &c, CfgEdgeKind::Normal, None, blocks, edges);
    match &sc.loop_header {
        Some(h) => add_edge(&c, h, CfgEdgeKind::LoopBack, None, blocks, edges),
        None => {},
    }
    c
}

fn walk_plain(n: &SyntaxNode, sc: &Scope, cur: String, blocks: &mut Vec<CfgBlock>, edges: &mut Vec<CfgEdge>) -> (r: String)
    requires
        label_fits(text_of(*n)),
    ensures
        (r@, draft_of(final(blocks)@, final(edges)@)) == cfg_plain(*n, sc@, cur@, draft_of(old(blocks)@, old(edges)@)),
{
    let last = await_walk(n, &sc.func, cur, blocks, edges);
    let t = text_of_exec(n);
    let label = block_label_exec(&t);
    let trimmed = trim_ws_exec(&chars_of(t.as_str()));
    if kind_is(n, "comment") || trimmed.len() == 0 {
        last
    } else {
        let b = add_block(&sc.func, CfgBlockKind::Block, label, line_from_row(n.row), blocks, edges);
        add_edge(&last, &b, CfgEdgeKind::Normal, None, blocks, edges);
        b
    }
}

fn walk(n: &SyntaxNode, sc: &Scope, cur: String, blocks: &mut Vec<CfgBlock>, edges: &mut Vec<CfgEdge>) -> (r: String)
    requires
        cfg_fits(*n),
    ensures
        (r@, draft_of(final(blocks)@, final(edges)@)) == cfg_walk(*n, sc@, cur@, draft_of(old(blocks)@, old(edges)@)),
    decreases n, 1int,
{
    if kind_is(n, "block") || kind_is(n, "module") {
        proof {
            assert(decreases_to!(*n => n.children));
        }
        walk_seq(&n.children, sc, cur, blocks, edges)
    } else if kind_is(n, "if_statement") {
        walk_if(n, sc, cur, blocks, edges)
    } else if kind_is(n, "for_statement") || kind_is(n, "while_statement") {
        walk_loop(n, sc, cur, blocks, edges)
    } else if kind_is(n, "try_statement") {
        walk_try(n, sc, cur, blocks, edges)
    } else if kind_is(n, "return_statement") {
        walk_return(n, sc, cur, blocks, edges)
    } else if kind_is(n, "raise_statement") {
        walk_raise(n, sc, cur, blocks, edges)
    } else if kind_is(n, "break_statement") {
        walk_break(n, sc, cur, blocks, edges)
    } else if kind_is(n, "continue_statement") {
        walk_continue(n, sc, cur, blocks, edges)
    } else {
        walk_plain(n, sc, cur, blocks, edges)
    }
}

fn walk_seq(cs: &Vec<SyntaxNode>, sc: &Scope, cur: String, blocks: &mut Vec<CfgBlock>, edges: &mut Vec<CfgEdge>) -> (r: String)
    requires
        forall|i: int| 0 <= i < cs@.len() ==> cfg_fits(#[trigger] cs@[i]),
    ensures
        (r@, draft_of(final(blocks)@, final(edges)@)) == cfg_seq(cs@, sc@, cur@, draft_of(old(blocks)@, old(edges)@)),
    decreases cs, 0int,
{
    let ghost d0 = draft_of(blocks@, edges@);
    let ghost cur0 = cur@;
    let mut cur = cur;
    let mut i: usize = 0;
    while i < cs.len()
        invariant
            i <= cs@.len(),
            forall|j: int| 0 <= j < cs@.len() ==> cfg_fits(#[trigger] cs@[j]),
            (cur@, draft_of(blocks@, edges@)) == cfg_seq(cs@.take(i as int), sc@, cur0, d0),
        decreases cs@.len() - i,
    {
        assert(cs@.take(i + 1).drop_last() =~= cs@.take(i as int));
        assert(cs@.take(i + 1).last() == cs@[i as int]);
        proof {
            assert(decreases_to!(cs => cs@));
            assert(decreases_to!(cs@ => cs@[i as int]));
        }
        cur = walk(&cs[i], sc, cur, blocks, edges);
        i = i + 1;
    }
    assert(cs@.take(cs@.len() as int) =~= cs@);
    cur
}

fn walk_if(n: &SyntaxNode, sc: &Scope, cur: String, blocks: &mut Vec<CfgBlock>, edges: &mut Vec<CfgEdge>) -> (r: String)
    requires
        if_fits(*n),
    ensures
        (r@, draft_of(final(blocks)@, final(edges)@)) == cfg_if(*n, sc@, cur@, draft_of(old(blocks)@, old(edges)@)),
    decreases n, 0int,
{
    let f = &sc.func;
    let line = line_from_row(n.row);
    let cond = add_block(f, CfgBlockKind::Condition, field_text_or_exec(n, "condition", "condition"), line, blocks, edges);
    add_edge(&cur, &cond, CfgEdgeKind::Normal, None, blocks, edges);
    let merge = add_block(f, CfgBlockKind::Block, to_owned_string("merge"), None, blocks, edges);
    match field_pos(n, "consequence") {
        Some(i) => {
            let t = add_block(f, CfgBlockKind::Block, to_owned_string("then"), line, blocks, edges);
            add_edge(&cond, &t, CfgEdgeKind::TrueBranch, Some("✓ true"), blocks, edges);
            proof {
                assert(decreases_to!(*n => n.children));
                assert(decreases_to!(n.children => n.children@));
                assert(decreases_to!(n.children@ => n.children@[i as int]));
                assert(cfg_fits(n.children@[i as int]));
            }
            let last = walk(&n.children[i], sc, t, blocks, edges);
            add_edge(&last, &merge, CfgEdgeKind::Normal, None, blocks, edges);
        },
        None => {},
    }
    proof {
        assert(decreases_to!(*n => n.children));
    }
    let (cc, handled) = walk_alts(&n.children, sc, &merge, cond, blocks, edges);
    if !handled {
        add_edge(&cc, &merge, CfgEdgeKind::FalseBranch, Some("✗ false"), blocks, edges);
    }
    merge
}

fn walk_alts(cs: &Vec<SyntaxNode>, sc: &Scope, merge: &String, cond: String, blocks: &mut Vec<CfgBlock>,
    edges: &mut Vec<CfgEdge>) -> (r: (String, bool))
    requires
        forall|i: int| 0 <= i < cs@.len() && has_field(#[trigger] cs@[i], "alternative"@) ==>
            (cs@[i].kind@ == "elif_clause"@ ==> field_fits(cs@[i], "consequence"@))
            && (cs@[i].kind@ == "else_clause"@ ==> field_fits(cs@[i], "body"@)),
    ensures
        (r.0@, r.1, draft_of(final(blocks)@, final(edges)@))
            == cfg_alts(cs@, sc@, merge@, (cond@, false, draft_of(old(blocks)@, old(edges)@))),
    decreases cs, 0int,
{
    let ghost acc0 = (cond@, false, draft_of(blocks@, edges@));
    let f = &sc.func;
    let mut cc = cond;
    let mut handled = false;
    let mut i: usize = 0;
    while i < cs.len()
        invariant
            i <= cs@.len(),
            f@ == sc@.func,
            forall|j: int| 0 <= j < cs@.len() && has_field(#[trigger] cs@[j], "alternative"@) ==>
                (cs@[j].kind@ == "elif_clause"@ ==> field_fits(cs@[j], "consequence"@))
                && (cs@[j].kind@ == "else_clause"@ ==> field_fits(cs@[j], "body"@)),
            (cc@, handled, draft_of(blocks@, edges@)) == cfg_alts(cs@.take(i as int), sc@, merge@, acc0),
        decreases cs@.len() - i,
    {
        assert(cs@.take(i + 1).drop_last() =~= cs@.take(i as int));
        assert(cs@.take(i + 1).last() == cs@[i as int]);
        let alt = &cs[i];
        let is_alt = match &alt.field {
            Some(fl) => same_text(fl, &to_owned_string("alternative")),
            None => false,
        };
        if is_alt {
            let line = line_from_row(alt.row);
            if kind_is(alt, "elif_clause") {
                let e = add_block(f, CfgBlockKind::Condition, field_text_or_exec(alt, "condition", "condition"), line, blocks, edges);
                add_edge(&cc, &e, CfgEdgeKind::FalseBranch, Some("✗ false"), blocks, edges);
                match field_pos(alt, "consequence") {
                    Some(k) => {
                        let t = add_block(f, CfgBlockKind::Block, to_owned_string("elif"), line, blocks, edges);
                        add_edge(&e, &t, CfgEdgeKind::TrueBranch, Some("✓ true"), blocks, edges);
                        proof {
                            assert(decreases_to!(cs => cs@));
                            assert(decreases_to!(cs@ => cs@[i as int]));
                            assert(decreases_to!(cs@[i as int] => cs@[i as int].children));
                            assert(decreases_to!(cs@[i as int].children => cs@[i as int].children@));
                            assert(decreases_to!(cs@[i as int].children@ => cs@[i as int].children@[k as int]));
                        }
                        let last = walk(&alt.children[k], sc, t, blocks, edges);
                        add_edge(&last, merge, CfgEdgeKind::Normal, None, blocks, edges);
                    },
                    None => {},
                }
                cc = e;
            } else if kind_is(alt, "else_clause") {
                handled = true;
                let b = add_block(f, CfgBlockKind::Block, to_owned_string("else"), line, blocks, edges);
                add_edge(&cc, &b, CfgEdgeKind::FalseBranch, Some("✗ false"), blocks, edges);
                let last = match field_pos(alt, "body") {
                    Some(k) => {
                        proof {
                            assert(decreases_to!(cs => cs@));
                            assert(decreases_to!(cs@ => cs@[i as int]));
                            assert(decreases_to!(cs@[i as int] => cs@[i as int].children));
                            assert(decreases_to!(cs@[i as int].children => cs@[i as int].children@));
                            assert(decreases_to!(cs@[i as int].children@ => cs@[i as int].children@[k as int]));
                        }
                        walk(&alt.children[k], sc, b, blocks, edges)
                    },
                    None => b,
                };
                add_edge(&last, merge, CfgEdgeKind::Normal, None, blocks, edges);
            }
        }
        i = i + 1;
    }
    assert(cs@.take(cs@.len() as int) =~= cs@);
    (cc, handled)
}

fn loop_label_exec(n: &SyntaxNode) -> (r: String)
    ensures
        r@ == loop_label(*n),
{
    if kind_is(n, "for_statement") {
        to_owned_string("for")
    } else {
        match field_pos(n, "condition") {
            Some(i) => {
                let mut l = to_owned_string("while ");
                let t = text_or_exec(&n.children[i], "condition");
                push_str(&mut l, t.as_str());
                l
            },
            None => to_owned_string("while"),
        }
    }
}

fn walk_loop(n: &SyntaxNode, sc: &Scope, cur: String, blocks: &mut Vec<CfgBlock>, edges: &mut Vec<CfgEdge>) -> (r: String)
    requires
        field_fits(*n, "body"@),
    ensures
        (r@, draft_of(final(blocks)@, final(edges)@)) == cfg_loop(*n, sc@, cur@, draft_of(old(blocks)@, old(edges)@)),
    decreases n, 0int,
{
    let f = &sc.func;
    let h = add_block(f, CfgBlockKind::LoopHeader, loop_label_exec(n), line_from_row(n.row), blocks, edges);
    add_edge(&cur, &h, CfgEdgeKind::Normal, None, blocks, edges);
    let x = add_block(f, CfgBlockKind::Block, to_owned_string("loop exit"), None, blocks, edges);
    match field_pos(n, "body") {
        Some(i) => {
            let body = &n.children[i];
            let b = add_block(f, CfgBlockKind::LoopBody, to_owned_string("loop body"), line_from_row(body.row), blocks, edges);
            add_edge(&h, &b, CfgEdgeKind::TrueBranch, Some("✓ true"), blocks, edges);
            let inner = Scope {
                func: copy_string(f),
                exit: copy_string(&sc.exit),
                loop_exit: copy_string(&x),
                loop_header: Some(copy_string(&h)),
            };
            assert(inner@ == ScopeV { func: sc@.func, exit: sc@.exit, loop_exit: x@, loop_header: Some(h@) });
            proof {
                assert(decreases_to!(*n => n.children));
                assert(decreases_to!(n.children => n.children@));
                assert(decreases_to!(n.children@ => n.children@[i as int]));
                assert(cfg_fits(n.children@[i as int]));
            }
            let last = walk(body, &inner, b, blocks, edges);
            add_edge(&last, &h, CfgEdgeKind::LoopBack, None, blocks, edges);
        },
        None => {},
    }
    add_edge(&h, &x, CfgEdgeKind::FalseBranch, Some("✗ false"), blocks, edges);
    x
}

fn handler_label_exec(h: &SyntaxNode) -> (r: String)
    ensures
        r@ == handler_label(*h),
{
    match field_pos(h, "type") {
        Some(i) => {
            let mut l = text_or_exec(&h.children[i], "Exception");
            match field_pos(h, "name") {
                Some(j) => {
                    push_str(&mut l, " as ");
                    let t = text_of_exec(&h.children[j]);
                    push_str(&mut l, t.as_str());
                },
                None => {},
            }
            l
        },
        None => to_owned_string("Exception"),
    }
}

fn walk_try(n: &SyntaxNode, sc: &Scope, cur: String, blocks: &mut Vec<CfgBlock>, edges: &mut Vec<CfgEdge>) -> (r: String)
    requires
        try_fits(*n),
    ensures
        (r@, draft_of(final(blocks)@, final(edges)@)) == cfg_try(*n, sc@, cur@, draft_of(old(blocks)@, old(edges)@)),
    decreases n, 0int,
{
    let f = &sc.func;
    let t = add_block(f, CfgBlockKind::TryBlock, to_owned_string("try"), line_from_row(n.row), blocks, edges);
    add_edge(&cur, &t, CfgEdgeKind::Normal, None, blocks, edges);
    let te = add_block(f, CfgBlockKind::Block, to_owned_string("try merge"), None, blocks, edges);
    proof {
        assert(decreases_to!(*n => n.children));
        assert(decreases_to!(n.children => n.children@));
    }
    match field_pos(n, "body") {
        Some(i) => {
            proof {
                assert(decreases_to!(n.children@ => n.children@[i as int]));
                assert(cfg_fits(n.children@[i as int]));
            }
            let last = walk(&n.children[i], sc, copy_string(&t), blocks, edges);
            add_edge(&last, &te, CfgEdgeKind::Normal, None, blocks, edges);
        },
        None => {},
    }
    walk_handlers(&n.children, sc, &t, &te, blocks, edges);
    walk_finally(&n.children, sc, te, blocks, edges)
}

fn walk_handlers(cs: &Vec<SyntaxNode>, sc: &Scope, t: &String, te: &String, blocks: &mut Vec<CfgBlock>,
    edges: &mut Vec<CfgEdge>)
    requires
        forall|i: int| 0 <= i < cs@.len() && has_field(#[trigger] cs@[i], "handler"@) ==> field_fits(cs@[i], "body"@),
    ensures
        draft_of(final(blocks)@, final(edges)@) == cfg_handlers(cs@, sc@, t@, te@, draft_of(old(blocks)@, old(edges)@)),
    decreases cs, 0int,
{
    let ghost d0 = draft_of(blocks@, edges@);
    let f = &sc.func;
    let mut i: usize = 0;
    while i < cs.len()
        invariant
            i <= cs@.len(),
            f@ == sc@.func,
            forall|j: int| 0 <= j < cs@.len() && has_field(#[trigger] cs@[j], "handler"@) ==> field_fits(cs@[j], "body"@),
            draft_of(blocks@, edges@) == cfg_handlers(cs@.take(i as int), sc@, t@, te@, d0),
        decreases cs@.len() - i,
    {
        assert(cs@.take(i + 1).drop_last() =~= cs@.take(i as int));
        assert(cs@.take(i + 1).last() == cs@[i as int]);
        let h = &cs[i];
        let is_handler = match &h.field {
            Some(fl) => same_text(fl, &to_owned_string("handler")),
            None => false,
        };
        if is_handler {
            let c = add_block(f, CfgBlockKind::CatchBlock, handler_label_exec(h), line_from_row(h.row), blocks, edges);
            add_edge(t, &c, CfgEdgeKind::ExceptionEdge, None, blocks, edges);
            match field_pos(h, "body") {
                Some(k) => {
                    proof {
                        assert(decreases_to!(cs => cs@));
                        assert(decreases_to!(cs@ => cs@[i as int]));
                        assert(decreases_to!(cs@[i as int] => cs@[i as int].children));
                        assert(decreases_to!(cs@[i as int].children => cs@[i as int].children@));
                        assert(decreases_to!(cs@[i as int].children@ => cs@[i as int].children@[k as int]));
                    }
                    let last = walk(&h.children[k], sc, c, blocks, edges);
                    add_edge(&last, te, CfgEdgeKind::Normal, None, blocks, edges);
                },
                None => {},
            }
        }
        i = i + 1;
    }
    assert(cs@.take(cs@.len() as int) =~= cs@);
}

fn walk_finally(cs: &Vec<SyntaxNode>, sc: &Scope, te: String, blocks: &mut Vec<CfgBlock>, edges: &mut Vec<CfgEdge>) -> (r: String)
    requires
        finally_fits(cs@),
    ensures
        (r@, draft_of(final(blocks)@, final(edges)@)) == cfg_finally(cs@, sc@, te@, draft_of(old(blocks)@, old(edges)@)),
    decreases cs, 0int,
{
    let mut i: usize = 0;
    assert(cs@.skip(0) =~= cs@);
    while i < cs.len() && !kind_is(&cs[i], "finally_clause")
        invariant
            i <= cs@.len(),
            cfg_finally(cs@, sc@, te@, draft_of(blocks@, edges@)) == cfg_finally(cs@.skip(i as int), sc@, te@, draft_of(blocks@, edges@)),
            finally_fits(cs@) == finally_fits(cs@.skip(i as int)),
        decreases cs@.len() - i,
    {
        assert(cs@.skip(i as int)[0] == cs@[i as int]);
        assert(cs@.skip(i as int).skip(1) =~= cs@.skip(i + 1));
        i = i + 1;
    }
    if i == cs.len() {
        assert(cs@.skip(i as int).len() == 0);
        te
    } else {
        assert(cs@.skip(i as int)[0] == cs@[i as int]);
        assert(field_fits(cs@[i as int], "body"@));
        let fc = &cs[i];
        let f = &sc.func;
        let fid = add_block(f, CfgBlockKind::FinallyBlock, to_owned_string("finally"), line_from_row(fc.row), blocks, edges);
        add_edge(&te, &fid, CfgEdgeKind::FinallyEdge, None, blocks, edges);
        match field_pos(fc, "body") {
            Some(k) => {
                proof {
                    assert(decreases_to!(cs => cs@));
                    assert(decreases_to!(cs@ => cs@[i as int]));
                    assert(decreases_to!(cs@[i as int] => cs@[i as int].children));
                    assert(decreases_to!(cs@[i as int].children => cs@[i as int].children@));
                    assert(decreases_to!(cs@[i as int].children@ => cs@[i as int].children@[k as int]));
                    assert(cfg_fits(cs@[i as int].children@[k as int]));
                }
                walk(&fc.children[k], sc, fid, blocks, edges)
            },
            None => fid,
        }
    }
}

/// The control flow graph of a function node: an entry block, an exit block, then what the
/// walk of its body (from the entry) adds, and an edge from where the body ends to the exit.
pub open spec fn cfg_of(n: SyntaxNode, func: Seq<char>) -> CfgDraft {
    let entry = block_id(func, 0);
    let exit = block_id(func, 1);
    let d = CfgDraft { blocks: seq![], edges: seq![] }
        .block(func, CfgBlockKind::Entry, "Entry"@, line_of(n.row))
        .block(func, CfgBlockKind::Exit, "Exit"@, line_of(n.end_row));
    match field_at(n, "body"@) {
        Some(i) => {
            let r = cfg_walk(n.children@[i], ScopeV { func, exit, loop_exit: exit, loop_header: None }, entry, d);
            r.1.edge(r.0, exit, CfgEdgeKind::Normal, None)
        },
        None => d.edge(entry, exit, CfgEdgeKind::Normal, None),
    }
}

/// Builds the control flow graph of a function node; block ids are the function's id, `_b`
/// and a number. Statement labels over 30 bytes are cut at byte 27, which must fall
/// between two characters of the statement's text (see `cfg_fits`).
pub fn build_cfg(func_node: &SyntaxNode, func_id: &str) -> (r: Result<ControlFlowGraph, ParseError>)
    requires
        field_fits(*func_node, "body"@),
    ensures
        r matches Ok(g) && g.function_id@ == func_id@
            && draft_of(g.blocks@, g.cfg_edges@) == cfg_of(*func_node, func_id@),
{
    let func = to_owned_string(func_id);
    let mut blocks: Vec<CfgBlock> = Vec::new();
    let mut edges: Vec<CfgEdge> = Vec::new();
    assert(draft_of(blocks@, edges@) =~= CfgDraft { blocks: seq![], edges: seq![] });
    let entry = add_block(&func, CfgBlockKind::Entry, to_owned_string("Entry"), line_from_row(func_node.row), &mut blocks, &edges);
    let exit = add_block(&func, CfgBlockKind::Exit, to_owned_string("Exit"), line_from_row(func_node.end_row), &mut blocks, &edges);
    assert(entry@ == block_id(func_id@, 0));
    assert(exit@ == block_id(func_id@, 1));
    match field_pos(func_node, "body") {
        Some(i) => {
            let sc = Scope { func: copy_string(&func), exit: copy_string(&exit), loop_exit: copy_string(&exit), loop_header: None };
            assert(sc@ == ScopeV { func: func_id@, exit: exit@, loop_exit: exit@, loop_header: None });
            let last = walk(&func_node.children[i], &sc, entry, &mut blocks, &mut edges);
            add_edge(&last, &exit, CfgEdgeKind::Normal, None, &blocks, &mut edges);
        },
        None => {
            add_edge(&entry, &exit, CfgEdgeKind::Normal, None, &blocks, &mut edges);
        },
    }
    Ok(ControlFlowGraph { function_id: func, blocks, cfg_edges: edges })
}

} // verus!
