//! What the control flow walk keeps: it only appends to the blocks and edges it is given,
//! numbers the blocks it adds in order, and joins only blocks that exist.

use vstd::prelude::*;
use crate::extract::line_of;
use crate::ir::{CfgBlockKind, CfgEdgeKind, CfgEdgeV};
use crate::flow::{CfgDraft, ScopeV, await_chain, block_id, cfg_alts, cfg_break, cfg_continue, cfg_finally, cfg_of,
    cfg_handlers, cfg_if, cfg_loop, cfg_plain, cfg_raise, cfg_return, cfg_seq, cfg_try, cfg_walk, direct_awaits};
use crate::flow::{false_label, field_text_or, handler_label, jump_label, loop_label, true_label};
use crate::syntax::{SyntaxNode, field_at, has_field};

verus! {

/// Whether `after` keeps the blocks and edges of `before` in front, as they were, and each
/// block it adds has the id of its position: the k-th block of the function is
/// `block_id(func, k)`.
pub open spec fn cfg_grows(before: CfgDraft, after: CfgDraft, func: Seq<char>) -> bool {
    &&& before.blocks.len() <= after.blocks.len()
    &&& after.blocks.take(before.blocks.len() as int) == before.blocks
    &&& before.edges.len() <= after.edges.len()
    &&& after.edges.take(before.edges.len() as int) == before.edges
    &&& forall|k: int| before.blocks.len() <= k < after.blocks.len() ==>
        (#[trigger] after.blocks[k]).id == block_id(func, k as nat)
}

proof fn lemma_same(d: CfgDraft, func: Seq<char>)
    ensures
        cfg_grows(d, d, func),
{
    assert(d.blocks.take(d.blocks.len() as int) =~= d.blocks);
    assert(d.edges.take(d.edges.len() as int) =~= d.edges);
}

proof fn lemma_trans(a: CfgDraft, b: CfgDraft, c: CfgDraft, func: Seq<char>)
    requires
        cfg_grows(a, b, func),
        cfg_grows(b, c, func),
    ensures
        cfg_grows(a, c, func),
{
    assert(c.blocks.take(a.blocks.len() as int) =~= c.blocks.take(b.blocks.len() as int).take(a.blocks.len() as int));
    assert(c.edges.take(a.edges.len() as int) =~= c.edges.take(b.edges.len() as int).take(a.edges.len() as int));
    assert forall|k: int| a.blocks.len() <= k < c.blocks.len() implies (#[trigger] c.blocks[k]).id == block_id(func, k as nat) by {
        if k < b.blocks.len() {
            assert(c.blocks[k] == c.blocks.take(b.blocks.len() as int)[k]);
        }
    }
}

proof fn lemma_block(d: CfgDraft, func: Seq<char>, kind: CfgBlockKind, label: Seq<char>, line: Option<u32>)
    ensures
        cfg_grows(d, d.block(func, kind, label, line), func),
{
    let d2 = d.block(func, kind, label, line);
    assert(d2.blocks.take(d.blocks.len() as int) =~= d.blocks);
    assert(d2.edges.take(d.edges.len() as int) =~= d.edges);
}

proof fn lemma_edge(d: CfgDraft, func: Seq<char>, from: Seq<char>, to: Seq<char>, kind: CfgEdgeKind, label: Option<Seq<char>>)
    ensures
        cfg_grows(d, d.edge(from, to, kind, label), func),
{
    let d2 = d.edge(from, to, kind, label);
    assert(d2.blocks.take(d.blocks.len() as int) =~= d.blocks);
    assert(d2.edges.take(d.edges.len() as int) =~= d.edges);
}

proof fn lemma_block_edge(d: CfgDraft, func: Seq<char>, kind: CfgBlockKind, label: Seq<char>, line: Option<u32>,
    from: Seq<char>, to: Seq<char>, ek: CfgEdgeKind, el: Option<Seq<char>>)
    ensures
        cfg_grows(d, d.block(func, kind, label, line).edge(from, to, ek, el), func),
{
    let d1 = d.block(func, kind, label, line);
    lemma_block(d, func, kind, label, line);
    lemma_edge(d1, func, from, to, ek, el);
    lemma_trans(d, d1, d1.edge(from, to, ek, el), func);
}

proof fn lemma_block_edge_edge(d: CfgDraft, func: Seq<char>, kind: CfgBlockKind, label: Seq<char>, line: Option<u32>,
    from: Seq<char>, to: Seq<char>, ek: CfgEdgeKind, el: Option<Seq<char>>,
    from2: Seq<char>, to2: Seq<char>, ek2: CfgEdgeKind, el2: Option<Seq<char>>)
    ensures
        cfg_grows(d, d.block(func, kind, label, line).edge(from, to, ek, el).edge(from2, to2, ek2, el2), func),
{
    let d1 = d.block(func, kind, label, line).edge(from, to, ek, el);
    lemma_block_edge(d, func, kind, label, line, from, to, ek, el);
    lemma_edge(d1, func, from2, to2, ek2, el2);
    lemma_trans(d, d1, d1.edge(from2, to2, ek2, el2), func);
}

proof fn lemma_await_chain(aws: Seq<SyntaxNode>, func: Seq<char>, cur: Seq<char>, d: CfgDraft)
    ensures
        cfg_grows(d, await_chain(aws, func, cur, d).1, func),
    decreases aws.len(),
{
    if aws.len() == 0 {
        lemma_same(d, func);
    } else {
        let r = await_chain(aws.drop_last(), func, cur, d);
        lemma_await_chain(aws.drop_last(), func, cur, d);
        let a = aws.last();
        let id = r.1.next_id(func);
        lemma_block_edge(r.1, func, CfgBlockKind::AwaitPoint, crate::flow::text_or(a, "await"@),
            crate::extract::line_of(a.row), r.0, id, CfgEdgeKind::AsyncEdge, None);
        lemma_trans(d, r.1, await_chain(aws, func, cur, d).1, func);
    }
}

proof fn lemma_direct_awaits(cs: Seq<SyntaxNode>, func: Seq<char>, line: Option<u32>, cur: Seq<char>, d: CfgDraft)
    ensures
        cfg_grows(d, direct_awaits(cs, func, line, cur, d).1, func),
    decreases cs.len(),
{
    if cs.len() == 0 {
        lemma_same(d, func);
    } else {
        let r = direct_awaits(cs.drop_last(), func, line, cur, d);
        lemma_direct_awaits(cs.drop_last(), func, line, cur, d);
        if cs.last().kind@ == "await"@ {
            let id = r.1.next_id(func);
            lemma_block_edge(r.1, func, CfgBlockKind::AwaitPoint, "await"@, line, r.0, id, CfgEdgeKind::AsyncEdge, None);
            lemma_trans(d, r.1, direct_awaits(cs, func, line, cur, d).1, func);
        }
    }
}

proof fn lemma_leaf(n: SyntaxNode, sc: ScopeV, cur: Seq<char>, d: CfgDraft)
    ensures
        cfg_grows(d, cfg_return(n, sc, cur, d).1, sc.func),
        cfg_grows(d, cfg_raise(n, sc, cur, d).1, sc.func),
        cfg_grows(d, cfg_break(n, sc, cur, d).1, sc.func),
        cfg_grows(d, cfg_continue(n, sc, cur, d).1, sc.func),
        cfg_grows(d, cfg_plain(n, sc, cur, d).1, sc.func),
{
    let f = sc.func;
    let line = crate::extract::line_of(n.row);
    let aw = direct_awaits(n.children@, f, line, cur, d);
    lemma_direct_awaits(n.children@, f, line, cur, d);
    let r = aw.1.next_id(f);
    lemma_block_edge_edge(aw.1, f, CfgBlockKind::Block, crate::flow::jump_label("return"@, n), line,
        aw.0, r, CfgEdgeKind::Normal, None, r, sc.exit, CfgEdgeKind::Normal, None);
    lemma_trans(d, aw.1, cfg_return(n, sc, cur, d).1, f);
    let t = d.next_id(f);
    lemma_block_edge_edge(d, f, CfgBlockKind::ThrowPoint, crate::flow::jump_label("raise"@, n), line,
        cur, t, CfgEdgeKind::Normal, None, t, sc.exit, CfgEdgeKind::ExceptionEdge, None);
    lemma_block_edge_edge(d, f, CfgBlockKind::Block, "break"@, line,
        cur, t, CfgEdgeKind::Normal, None, t, sc.loop_exit, CfgEdgeKind::Normal, None);
    let d1 = d.block(f, CfgBlockKind::Block, "continue"@, line).edge(cur, t, CfgEdgeKind::Normal, None);
    lemma_block_edge(d, f, CfgBlockKind::Block, "continue"@, line, cur, t, CfgEdgeKind::Normal, None);
    match sc.loop_header {
        Some(h) => {
            lemma_edge(d1, f, t, h, CfgEdgeKind::LoopBack, None);
            lemma_trans(d, d1, d1.edge(t, h, CfgEdgeKind::LoopBack, None), f);
        },
        None => {},
    }
    let pw = await_chain(crate::flow::awaits_in(n), f, cur, d);
    lemma_await_chain(crate::flow::awaits_in(n), f, cur, d);
    let b = pw.1.next_id(f);
    let tx = crate::syntax::text_of(n);
    lemma_block_edge(pw.1, f, CfgBlockKind::Block, crate::flow::block_label(tx), line, pw.0, b, CfgEdgeKind::Normal, None);
    lemma_trans(d, pw.1, pw.1.block(f, CfgBlockKind::Block, crate::flow::block_label(tx), line).edge(pw.0, b, CfgEdgeKind::Normal, None), f);
}

/// The control flow walk of a statement only appends: the blocks and edges it was given
/// stay in front, as they were, and each block it adds has the id of its position, so
/// that no two blocks of a function share a number.
pub proof fn lemma_walk_grows(n: SyntaxNode, sc: ScopeV, cur: Seq<char>, d: CfgDraft)
    ensures
        cfg_grows(d, cfg_walk(n, sc, cur, d).1, sc.func),
    decreases n, 1int,
{
    let k = n.kind@;
    if k == "block"@ || k == "module"@ {
        lemma_seq_grows(n.children@, sc, cur, d);
    } else if k == "if_statement"@ {
        lemma_if_grows(n, sc, cur, d);
    } else if k == "for_statement"@ || k == "while_statement"@ {
        lemma_loop_grows(n, sc, cur, d);
    } else if k == "try_statement"@ {
        lemma_try_grows(n, sc, cur, d);
    } else {
        lemma_leaf(n, sc, cur, d);
    }
}

proof fn lemma_if_grows(n: SyntaxNode, sc: ScopeV, cur: Seq<char>, d: CfgDraft)
    ensures
        cfg_grows(d, cfg_if(n, sc, cur, d).1, sc.func),
    decreases n, 0int,
{
    let f = sc.func;
    let line = crate::extract::line_of(n.row);
    let cond = d.next_id(f);
    let d1 = d.block(f, CfgBlockKind::Condition, crate::flow::field_text_or(n, "condition"@, "condition"@), line)
        .edge(cur, cond, CfgEdgeKind::Normal, None);
    lemma_block_edge(d, f, CfgBlockKind::Condition, crate::flow::field_text_or(n, "condition"@, "condition"@), line,
        cur, cond, CfgEdgeKind::Normal, None);
    let merge = d1.next_id(f);
    let d2 = d1.block(f, CfgBlockKind::Block, "merge"@, None);
    lemma_block(d1, f, CfgBlockKind::Block, "merge"@, None);
    lemma_trans(d, d1, d2, f);
    let d3 = match crate::syntax::field_at(n, "consequence"@) {
        Some(i) => {
            let t = d2.next_id(f);
            let d2b = d2.block(f, CfgBlockKind::Block, "then"@, line).edge(cond, t, CfgEdgeKind::TrueBranch, crate::flow::true_label());
            lemma_block_edge(d2, f, CfgBlockKind::Block, "then"@, line, cond, t, CfgEdgeKind::TrueBranch, crate::flow::true_label());
            let r = cfg_walk(n.children@[i], sc, t, d2b);
            lemma_walk_grows(n.children@[i], sc, t, d2b);
            lemma_edge(r.1, f, r.0, merge, CfgEdgeKind::Normal, None);
            lemma_trans(d2, d2b, r.1, f);
            lemma_trans(d2, r.1, r.1.edge(r.0, merge, CfgEdgeKind::Normal, None), f);
            r.1.edge(r.0, merge, CfgEdgeKind::Normal, None)
        },
        None => {
            lemma_same(d2, f);
            d2
        },
    };
    lemma_trans(d, d2, d3, f);
    let a = cfg_alts(n.children@, sc, merge, (cond, false, d3));
    lemma_alts_grows(n.children@, sc, merge, (cond, false, d3));
    lemma_trans(d, d3, a.2, f);
    if !a.1 {
        lemma_edge(a.2, f, a.0, merge, CfgEdgeKind::FalseBranch, crate::flow::false_label());
        lemma_trans(d, a.2, a.2.edge(a.0, merge, CfgEdgeKind::FalseBranch, crate::flow::false_label()), f);
    }
}

proof fn lemma_loop_grows(n: SyntaxNode, sc: ScopeV, cur: Seq<char>, d: CfgDraft)
    ensures
        cfg_grows(d, cfg_loop(n, sc, cur, d).1, sc.func),
    decreases n, 0int,
{
    let f = sc.func;
    let h = d.next_id(f);
    let d1 = d.block(f, CfgBlockKind::LoopHeader, crate::flow::loop_label(n), crate::extract::line_of(n.row))
        .edge(cur, h, CfgEdgeKind::Normal, None);
    lemma_block_edge(d, f, CfgBlockKind::LoopHeader, crate::flow::loop_label(n), crate::extract::line_of(n.row),
        cur, h, CfgEdgeKind::Normal, None);
    let x = d1.next_id(f);
    let d2 = d1.block(f, CfgBlockKind::Block, "loop exit"@, None);
    lemma_block(d1, f, CfgBlockKind::Block, "loop exit"@, None);
    lemma_trans(d, d1, d2, f);
    let d3 = match crate::syntax::field_at(n, "body"@) {
        Some(i) => {
            let b = d2.next_id(f);
            let inner = ScopeV { func: f, exit: sc.exit, loop_exit: x, loop_header: Some(h) };
            let line = crate::extract::line_of(n.children@[i].row);
            let d2b = d2.block(f, CfgBlockKind::LoopBody, "loop body"@, line).edge(h, b, CfgEdgeKind::TrueBranch, crate::flow::true_label());
            lemma_block_edge(d2, f, CfgBlockKind::LoopBody, "loop body"@, line, h, b, CfgEdgeKind::TrueBranch, crate::flow::true_label());
            let r = cfg_walk(n.children@[i], inner, b, d2b);
            lemma_walk_grows(n.children@[i], inner, b, d2b);
            lemma_edge(r.1, f, r.0, h, CfgEdgeKind::LoopBack, None);
            lemma_trans(d2, d2b, r.1, f);
            lemma_trans(d2, r.1, r.1.edge(r.0, h, CfgEdgeKind::LoopBack, None), f);
            r.1.edge(r.0, h, CfgEdgeKind::LoopBack, None)
        },
        None => {
            lemma_same(d2, f);
            d2
        },
    };
    lemma_trans(d, d2, d3, f);
    lemma_edge(d3, f, h, x, CfgEdgeKind::FalseBranch, crate::flow::false_label());
    lemma_trans(d, d3, d3.edge(h, x, CfgEdgeKind::FalseBranch, crate::flow::false_label()), f);
}

proof fn lemma_try_grows(n: SyntaxNode, sc: ScopeV, cur: Seq<char>, d: CfgDraft)
    ensures
        cfg_grows(d, cfg_try(n, sc, cur, d).1, sc.func),
    decreases n, 0int,
{
    let f = sc.func;
    let t = d.next_id(f);
    let d1 = d.block(f, CfgBlockKind::TryBlock, "try"@, crate::extract::line_of(n.row)).edge(cur, t, CfgEdgeKind::Normal, None);
    lemma_block_edge(d, f, CfgBlockKind::TryBlock, "try"@, crate::extract::line_of(n.row), cur, t, CfgEdgeKind::Normal, None);
    let te = d1.next_id(f);
    let d2 = d1.block(f, CfgBlockKind::Block, "try merge"@, None);
    lemma_block(d1, f, CfgBlockKind::Block, "try merge"@, None);
    lemma_trans(d, d1, d2, f);
    let d3 = match crate::syntax::field_at(n, "body"@) {
        Some(i) => {
            let r = cfg_walk(n.children@[i], sc, t, d2);
            lemma_walk_grows(n.children@[i], sc, t, d2);
            lemma_edge(r.1, f, r.0, te, CfgEdgeKind::Normal, None);
            lemma_trans(d2, r.1, r.1.edge(r.0, te, CfgEdgeKind::Normal, None), f);
            r.1.edge(r.0, te, CfgEdgeKind::Normal, None)
        },
        None => {
            lemma_same(d2, f);
            d2
        },
    };
    lemma_trans(d, d2, d3, f);
    let d4 = cfg_handlers(n.children@, sc, t, te, d3);
    lemma_handlers_grows(n.children@, sc, t, te, d3);
    lemma_trans(d, d3, d4, f);
    lemma_finally_grows(n.children@, sc, te, d4);
    lemma_trans(d, d4, cfg_finally(n.children@, sc, te, d4).1, f);
}

/// The walk of a sequence of statements only appends, as `lemma_walk_grows` says of one.
pub proof fn lemma_seq_grows(cs: Seq<SyntaxNode>, sc: ScopeV, cur: Seq<char>, d: CfgDraft)
    ensures
        cfg_grows(d, cfg_seq(cs, sc, cur, d).1, sc.func),
    decreases cs, 0int,
{
    if cs.len() == 0 {
        lemma_same(d, sc.func);
    } else {
        let r = cfg_seq(cs.drop_last(), sc, cur, d);
        lemma_seq_grows(cs.drop_last(), sc, cur, d);
        lemma_walk_grows(cs.last(), sc, r.0, r.1);
        lemma_trans(d, r.1, cfg_seq(cs, sc, cur, d).1, sc.func);
    }
}

proof fn lemma_alts_grows(cs: Seq<SyntaxNode>, sc: ScopeV, merge: Seq<char>, acc: (Seq<char>, bool, CfgDraft))
    ensures
        cfg_grows(acc.2, cfg_alts(cs, sc, merge, acc).2, sc.func),
    decreases cs, 0int,
{
    if cs.len() == 0 {
        lemma_same(acc.2, sc.func);
    } else {
        let a = cfg_alts(cs.drop_last(), sc, merge, acc);
        lemma_alts_grows(cs.drop_last(), sc, merge, acc);
        let alt = cs.last();
        let f = sc.func;
        let line = crate::extract::line_of(alt.row);
        let out = cfg_alts(cs, sc, merge, acc).2;
        if !crate::syntax::has_field(alt, "alternative"@) {
            lemma_same(a.2, f);
        } else if alt.kind@ == "elif_clause"@ {
            let e = a.2.next_id(f);
            let d1 = a.2.block(f, CfgBlockKind::Condition, crate::flow::field_text_or(alt, "condition"@, "condition"@), line)
                .edge(a.0, e, CfgEdgeKind::FalseBranch, crate::flow::false_label());
            lemma_block_edge(a.2, f, CfgBlockKind::Condition, crate::flow::field_text_or(alt, "condition"@, "condition"@), line,
                a.0, e, CfgEdgeKind::FalseBranch, crate::flow::false_label());
            match crate::syntax::field_at(alt, "consequence"@) {
                Some(i) => {
                    let t = d1.next_id(f);
                    let d1b = d1.block(f, CfgBlockKind::Block, "elif"@, line).edge(e, t, CfgEdgeKind::TrueBranch, crate::flow::true_label());
                    lemma_block_edge(d1, f, CfgBlockKind::Block, "elif"@, line, e, t, CfgEdgeKind::TrueBranch, crate::flow::true_label());
                    let r = cfg_walk(alt.children@[i], sc, t, d1b);
                    lemma_walk_grows(alt.children@[i], sc, t, d1b);
                    lemma_edge(r.1, f, r.0, merge, CfgEdgeKind::Normal, None);
                    lemma_trans(d1, d1b, r.1, f);
                    lemma_trans(d1, r.1, out, f);
                },
                None => {
                    lemma_same(d1, f);
                },
            }
            lemma_trans(a.2, d1, out, f);
        } else if alt.kind@ == "else_clause"@ {
            let b = a.2.next_id(f);
            let d1 = a.2.block(f, CfgBlockKind::Block, "else"@, line).edge(a.0, b, CfgEdgeKind::FalseBranch, crate::flow::false_label());
            lemma_block_edge(a.2, f, CfgBlockKind::Block, "else"@, line, a.0, b, CfgEdgeKind::FalseBranch, crate::flow::false_label());
            let r = match crate::syntax::field_at(alt, "body"@) {
                Some(i) => {
                    lemma_walk_grows(alt.children@[i], sc, b, d1);
                    cfg_walk(alt.children@[i], sc, b, d1)
                },
                None => {
                    lemma_same(d1, f);
                    (b, d1)
                },
            };
            lemma_edge(r.1, f, r.0, merge, CfgEdgeKind::Normal, None);
            lemma_trans(d1, r.1, out, f);
            lemma_trans(a.2, d1, out, f);
        } else {
            lemma_same(a.2, f);
        }
        lemma_trans(acc.2, a.2, out, f);
    }
}

proof fn lemma_handlers_grows(cs: Seq<SyntaxNode>, sc: ScopeV, t: Seq<char>, te: Seq<char>, d: CfgDraft)
    ensures
        cfg_grows(d, cfg_handlers(cs, sc, t, te, d), sc.func),
    decreases cs, 0int,
{
    if cs.len() == 0 {
        lemma_same(d, sc.func);
    } else {
        let d1 = cfg_handlers(cs.drop_last(), sc, t, te, d);
        lemma_handlers_grows(cs.drop_last(), sc, t, te, d);
        let h = cs.last();
        let f = sc.func;
        let out = cfg_handlers(cs, sc, t, te, d);
        if crate::syntax::has_field(h, "handler"@) {
            let c = d1.next_id(f);
            let d2 = d1.block(f, CfgBlockKind::CatchBlock, crate::flow::handler_label(h), crate::extract::line_of(h.row))
                .edge(t, c, CfgEdgeKind::ExceptionEdge, None);
            lemma_block_edge(d1, f, CfgBlockKind::CatchBlock, crate::flow::handler_label(h), crate::extract::line_of(h.row),
                t, c, CfgEdgeKind::ExceptionEdge, None);
            match crate::syntax::field_at(h, "body"@) {
                Some(i) => {
                    let r = cfg_walk(h.children@[i], sc, c, d2);
                    lemma_walk_grows(h.children@[i], sc, c, d2);
                    lemma_edge(r.1, f, r.0, te, CfgEdgeKind::Normal, None);
                    lemma_trans(d2, r.1, out, f);
                },
                None => {
                    lemma_same(d2, f);
                },
            }
            lemma_trans(d1, d2, out, f);
        } else {
            lemma_same(d1, f);
        }
        lemma_trans(d, d1, out, f);
    }
}

proof fn lemma_finally_grows(cs: Seq<SyntaxNode>, sc: ScopeV, te: Seq<char>, d: CfgDraft)
    ensures
        cfg_grows(d, cfg_finally(cs, sc, te, d).1, sc.func),
    decreases cs, 0int,
{
    if cs.len() == 0 {
        lemma_same(d, sc.func);
    } else if cs[0].kind@ == "finally_clause"@ {
        let fc = cs[0];
        let f = sc.func;
        let fid = d.next_id(f);
        let d1 = d.block(f, CfgBlockKind::FinallyBlock, "finally"@, crate::extract::line_of(fc.row)).edge(te, fid, CfgEdgeKind::FinallyEdge, None);
        lemma_block_edge(d, f, CfgBlockKind::FinallyBlock, "finally"@, crate::extract::line_of(fc.row), te, fid, CfgEdgeKind::FinallyEdge, None);
        match crate::syntax::field_at(fc, "body"@) {
            Some(i) => {
                lemma_walk_grows(fc.children@[i], sc, fid, d1);
                lemma_trans(d, d1, cfg_finally(cs, sc, te, d).1, f);
            },
            None => {},
        }
    } else {
        lemma_finally_grows(cs.skip(1), sc, te, d);
    }
}


/// Whether the id is that of a block numbered from `lo` up to, not including, `hi`.
pub open spec fn numbered(x: Seq<char>, func: Seq<char>, lo: int, hi: int) -> bool {
    exists|k: int| lo <= k < hi && x == #[trigger] block_id(func, k as nat)
}

/// Whether the id is one that an edge added in the scope may join: one of the two blocks
/// the walk hangs from (`a`, `b`), the function's exit, the innermost loop's exit or
/// header, or a block numbered from `lo` up to `hi`.
pub open spec fn joinable(x: Seq<char>, sc: ScopeV, a: Seq<char>, b: Seq<char>, lo: int, hi: int) -> bool {
    ||| x == a
    ||| x == b
    ||| x == sc.exit
    ||| x == sc.loop_exit
    ||| sc.loop_header == Some(x)
    ||| numbered(x, sc.func, lo, hi)
}

/// Whether each edge that `after` adds to `before` joins two ids that are joinable in the
/// scope from `a` and `b`, with the blocks that `after` adds.
pub open spec fn edges_join(before: CfgDraft, after: CfgDraft, sc: ScopeV, a: Seq<char>, b: Seq<char>) -> bool {
    forall|k: int| before.edges.len() <= k < after.edges.len() ==> {
        &&& joinable((#[trigger] after.edges[k]).from, sc, a, b, before.blocks.len() as int, after.blocks.len() as int)
        &&& joinable(after.edges[k].to, sc, a, b, before.blocks.len() as int, after.blocks.len() as int)
    }
}

/// Whether the walk from `cur` that turned `before` into `after` and ended at `r` kept the
/// drafts in order, joined only joinable blocks, and ended at `cur` or at a block it added.
pub open spec fn walk_ok(before: CfgDraft, after: CfgDraft, sc: ScopeV, cur: Seq<char>, r: Seq<char>) -> bool {
    &&& cfg_grows(before, after, sc.func)
    &&& edges_join(before, after, sc, cur, cur)
    &&& (r == cur || numbered(r, sc.func, before.blocks.len() as int, after.blocks.len() as int))
}

proof fn lemma_join_same(d: CfgDraft, sc: ScopeV, a: Seq<char>, b: Seq<char>)
    ensures
        cfg_grows(d, d, sc.func),
        edges_join(d, d, sc, a, b),
{
    lemma_same(d, sc.func);
}

proof fn lemma_join_block(base: CfgDraft, d: CfgDraft, sc: ScopeV, a: Seq<char>, b: Seq<char>, kind: CfgBlockKind,
    label: Seq<char>, line: Option<u32>)
    requires
        cfg_grows(base, d, sc.func),
        edges_join(base, d, sc, a, b),
    ensures
        cfg_grows(base, d.block(sc.func, kind, label, line), sc.func),
        edges_join(base, d.block(sc.func, kind, label, line), sc, a, b),
        numbered(d.next_id(sc.func), sc.func, base.blocks.len() as int, d.blocks.len() + 1int),
{
    let d2 = d.block(sc.func, kind, label, line);
    lemma_block(d, sc.func, kind, label, line);
    lemma_trans(base, d, d2, sc.func);
    let w: int = d.blocks.len() as int;
    assert(d.next_id(sc.func) == block_id(sc.func, w as nat));
    assert(base.blocks.len() <= w < d.blocks.len() + 1int);
    assert(numbered(d.next_id(sc.func), sc.func, base.blocks.len() as int, d.blocks.len() + 1int));
    assert forall|k: int| base.edges.len() <= k < d2.edges.len() implies {
        &&& joinable((#[trigger] d2.edges[k]).from, sc, a, b, base.blocks.len() as int, d2.blocks.len() as int)
        &&& joinable(d2.edges[k].to, sc, a, b, base.blocks.len() as int, d2.blocks.len() as int)
    } by {
        assert(d2.edges[k] == d.edges[k]);
        assert(joinable(d.edges[k].from, sc, a, b, base.blocks.len() as int, d.blocks.len() as int));
        assert(joinable(d.edges[k].to, sc, a, b, base.blocks.len() as int, d.blocks.len() as int));
    }
}

proof fn lemma_join_edge(base: CfgDraft, d: CfgDraft, sc: ScopeV, a: Seq<char>, b: Seq<char>, from: Seq<char>,
    to: Seq<char>, kind: CfgEdgeKind, label: Option<Seq<char>>)
    requires
        cfg_grows(base, d, sc.func),
        edges_join(base, d, sc, a, b),
        joinable(from, sc, a, b, base.blocks.len() as int, d.blocks.len() as int),
        joinable(to, sc, a, b, base.blocks.len() as int, d.blocks.len() as int),
    ensures
        cfg_grows(base, d.edge(from, to, kind, label), sc.func),
        edges_join(base, d.edge(from, to, kind, label), sc, a, b),
{
    let d2 = d.edge(from, to, kind, label);
    lemma_edge(d, sc.func, from, to, kind, label);
    lemma_trans(base, d, d2, sc.func);
    assert forall|k: int| base.edges.len() <= k < d2.edges.len() implies {
        &&& joinable((#[trigger] d2.edges[k]).from, sc, a, b, base.blocks.len() as int, d2.blocks.len() as int)
        &&& joinable(d2.edges[k].to, sc, a, b, base.blocks.len() as int, d2.blocks.len() as int)
    } by {
        if k < d.edges.len() {
            assert(d2.edges[k] == d.edges[k]);
        }
    }
}

/// Joins what a walk inside added: its ends must be joinable in the outer scope.
proof fn lemma_join_inner(base: CfgDraft, mid: CfgDraft, out: CfgDraft, sc: ScopeV, a: Seq<char>, b: Seq<char>,
    sc2: ScopeV, a2: Seq<char>, b2: Seq<char>)
    requires
        cfg_grows(base, mid, sc.func),
        edges_join(base, mid, sc, a, b),
        cfg_grows(mid, out, sc.func),
        edges_join(mid, out, sc2, a2, b2),
        sc2.func == sc.func,
        joinable(a2, sc, a, b, base.blocks.len() as int, mid.blocks.len() as int),
        joinable(b2, sc, a, b, base.blocks.len() as int, mid.blocks.len() as int),
        joinable(sc2.exit, sc, a, b, base.blocks.len() as int, mid.blocks.len() as int),
        joinable(sc2.loop_exit, sc, a, b, base.blocks.len() as int, mid.blocks.len() as int),
        sc2.loop_header matches Some(h) ==> joinable(h, sc, a, b, base.blocks.len() as int, mid.blocks.len() as int),
    ensures
        cfg_grows(base, out, sc.func),
        edges_join(base, out, sc, a, b),
{
    lemma_trans(base, mid, out, sc.func);
    let lo = base.blocks.len() as int;
    let m = mid.blocks.len() as int;
    let hi = out.blocks.len() as int;
    assert forall|x: Seq<char>| joinable(x, sc2, a2, b2, m, hi) implies #[trigger] joinable(x, sc, a, b, lo, hi) by {
        if numbered(x, sc.func, m, hi) {
        } else if x == a2 {
        } else if x == b2 {
        } else if x == sc2.exit {
        } else if x == sc2.loop_exit {
        } else {
        }
    }
    assert forall|k: int| base.edges.len() <= k < out.edges.len() implies {
        &&& joinable((#[trigger] out.edges[k]).from, sc, a, b, lo, hi)
        &&& joinable(out.edges[k].to, sc, a, b, lo, hi)
    } by {
        if k < mid.edges.len() {
            assert(out.edges[k] == mid.edges[k]);
            assert(joinable(mid.edges[k].from, sc, a, b, lo, m));
            assert(joinable(mid.edges[k].to, sc, a, b, lo, m));
        } else {
            assert(joinable(out.edges[k].from, sc2, a2, b2, m, hi));
            assert(joinable(out.edges[k].to, sc2, a2, b2, m, hi));
        }
    }
}

proof fn lemma_join_block_edge(base: CfgDraft, d: CfgDraft, sc: ScopeV, a: Seq<char>, b: Seq<char>, kind: CfgBlockKind,
    label: Seq<char>, line: Option<u32>, from: Seq<char>, ek: CfgEdgeKind, el: Option<Seq<char>>)
    requires
        cfg_grows(base, d, sc.func),
        edges_join(base, d, sc, a, b),
        joinable(from, sc, a, b, base.blocks.len() as int, d.blocks.len() as int),
    ensures
        cfg_grows(base, d.block(sc.func, kind, label, line).edge(from, d.next_id(sc.func), ek, el), sc.func),
        edges_join(base, d.block(sc.func, kind, label, line).edge(from, d.next_id(sc.func), ek, el), sc, a, b),
        numbered(d.next_id(sc.func), sc.func, base.blocks.len() as int, d.blocks.len() + 1int),
{
    let d1 = d.block(sc.func, kind, label, line);
    lemma_join_block(base, d, sc, a, b, kind, label, line);
    lemma_join_edge(base, d1, sc, a, b, from, d.next_id(sc.func), ek, el);
}

proof fn lemma_awaits_join(aws: Seq<SyntaxNode>, sc: ScopeV, cur: Seq<char>, d: CfgDraft)
    ensures
        walk_ok(d, await_chain(aws, sc.func, cur, d).1, sc, cur, await_chain(aws, sc.func, cur, d).0),
    decreases aws.len(),
{
    if aws.len() == 0 {
        lemma_join_same(d, sc, cur, cur);
    } else {
        let r = await_chain(aws.drop_last(), sc.func, cur, d);
        lemma_awaits_join(aws.drop_last(), sc, cur, d);
        let a = aws.last();
        lemma_join_block_edge(d, r.1, sc, cur, cur, CfgBlockKind::AwaitPoint, crate::flow::text_or(a, "await"@),
            crate::extract::line_of(a.row), r.0, CfgEdgeKind::AsyncEdge, None);
    }
}

proof fn lemma_direct_join(cs: Seq<SyntaxNode>, sc: ScopeV, line: Option<u32>, cur: Seq<char>, d: CfgDraft)
    ensures
        walk_ok(d, direct_awaits(cs, sc.func, line, cur, d).1, sc, cur, direct_awaits(cs, sc.func, line, cur, d).0),
    decreases cs.len(),
{
    if cs.len() == 0 {
        lemma_join_same(d, sc, cur, cur);
    } else {
        let r = direct_awaits(cs.drop_last(), sc.func, line, cur, d);
        lemma_direct_join(cs.drop_last(), sc, line, cur, d);
        if cs.last().kind@ == "await"@ {
            lemma_join_block_edge(d, r.1, sc, cur, cur, CfgBlockKind::AwaitPoint, "await"@, line, r.0,
                CfgEdgeKind::AsyncEdge, None);
        }
    }
}

proof fn lemma_leaf_join(n: SyntaxNode, sc: ScopeV, cur: Seq<char>, d: CfgDraft)
    ensures
        walk_ok(d, cfg_return(n, sc, cur, d).1, sc, cur, cfg_return(n, sc, cur, d).0),
        walk_ok(d, cfg_raise(n, sc, cur, d).1, sc, cur, cfg_raise(n, sc, cur, d).0),
        walk_ok(d, cfg_break(n, sc, cur, d).1, sc, cur, cfg_break(n, sc, cur, d).0),
        walk_ok(d, cfg_continue(n, sc, cur, d).1, sc, cur, cfg_continue(n, sc, cur, d).0),
        walk_ok(d, cfg_plain(n, sc, cur, d).1, sc, cur, cfg_plain(n, sc, cur, d).0),
{
    let f = sc.func;
    let line = crate::extract::line_of(n.row);
    lemma_join_same(d, sc, cur, cur);
    let aw = direct_awaits(n.children@, f, line, cur, d);
    lemma_direct_join(n.children@, sc, line, cur, d);
    let r = aw.1.next_id(f);
    let d1 = aw.1.block(f, CfgBlockKind::Block, crate::flow::jump_label("return"@, n), line).edge(aw.0, r, CfgEdgeKind::Normal, None);
    lemma_join_block_edge(d, aw.1, sc, cur, cur, CfgBlockKind::Block, crate::flow::jump_label("return"@, n), line,
        aw.0, CfgEdgeKind::Normal, None);
    lemma_join_edge(d, d1, sc, cur, cur, r, sc.exit, CfgEdgeKind::Normal, None);
    let t = d.next_id(f);
    let d2 = d.block(f, CfgBlockKind::ThrowPoint, crate::flow::jump_label("raise"@, n), line).edge(cur, t, CfgEdgeKind::Normal, None);
    lemma_join_block_edge(d, d, sc, cur, cur, CfgBlockKind::ThrowPoint, crate::flow::jump_label("raise"@, n), line,
        cur, CfgEdgeKind::Normal, None);
    lemma_join_edge(d, d2, sc, cur, cur, t, sc.exit, CfgEdgeKind::ExceptionEdge, None);
    let d3 = d.block(f, CfgBlockKind::Block, "break"@, line).edge(cur, t, CfgEdgeKind::Normal, None);
    lemma_join_block_edge(d, d, sc, cur, cur, CfgBlockKind::Block, "break"@, line, cur, CfgEdgeKind::Normal, None);
    lemma_join_edge(d, d3, sc, cur, cur, t, sc.loop_exit, CfgEdgeKind::Normal, None);
    let d4 = d.block(f, CfgBlockKind::Block, "continue"@, line).edge(cur, t, CfgEdgeKind::Normal, None);
    lemma_join_block_edge(d, d, sc, cur, cur, CfgBlockKind::Block, "continue"@, line, cur, CfgEdgeKind::Normal, None);
    match sc.loop_header {
        Some(h) => {
            lemma_join_edge(d, d4, sc, cur, cur, t, h, CfgEdgeKind::LoopBack, None);
        },
        None => {},
    }
    let pw = await_chain(crate::flow::awaits_in(n), f, cur, d);
    lemma_awaits_join(crate::flow::awaits_in(n), sc, cur, d);
    let tx = crate::syntax::text_of(n);
    lemma_join_block_edge(d, pw.1, sc, cur, cur, CfgBlockKind::Block, crate::flow::block_label(tx), line,
        pw.0, CfgEdgeKind::Normal, None);
}

/// The control flow walk of a statement from the block `cur` only joins blocks it may
/// join: each edge it adds leads from and to `cur`, the function's exit, the innermost
/// loop's exit or header, or a block the walk added; and the walk ends at `cur` or at a
/// block it added. With `lemma_walk_grows`, every edge of a function's graph joins two of
/// its blocks.
pub proof fn lemma_walk_joins(n: SyntaxNode, sc: ScopeV, cur: Seq<char>, d: CfgDraft)
    ensures
        walk_ok(d, cfg_walk(n, sc, cur, d).1, sc, cur, cfg_walk(n, sc, cur, d).0),
    decreases n, 1int,
{
    let k = n.kind@;
    if k == "block"@ || k == "module"@ {
        lemma_seq_joins(n.children@, sc, cur, d);
    } else if k == "if_statement"@ {
        lemma_if_joins(n, sc, cur, d);
    } else if k == "for_statement"@ || k == "while_statement"@ {
        lemma_loop_joins(n, sc, cur, d);
    } else if k == "try_statement"@ {
        lemma_try_joins(n, sc, cur, d);
    } else {
        lemma_leaf_join(n, sc, cur, d);
    }
}

/// The walk of a sequence of statements joins only what `lemma_walk_joins` lets one join.
pub proof fn lemma_seq_joins(cs: Seq<SyntaxNode>, sc: ScopeV, cur: Seq<char>, d: CfgDraft)
    ensures
        walk_ok(d, cfg_seq(cs, sc, cur, d).1, sc, cur, cfg_seq(cs, sc, cur, d).0),
    decreases cs, 0int,
{
    if cs.len() == 0 {
        lemma_join_same(d, sc, cur, cur);
    } else {
        let r = cfg_seq(cs.drop_last(), sc, cur, d);
        lemma_seq_joins(cs.drop_last(), sc, cur, d);
        let out = cfg_walk(cs.last(), sc, r.0, r.1);
        lemma_walk_joins(cs.last(), sc, r.0, r.1);
        lemma_join_inner(d, r.1, out.1, sc, cur, cur, sc, r.0, r.0);
    }
}

proof fn lemma_if_joins(n: SyntaxNode, sc: ScopeV, cur: Seq<char>, d: CfgDraft)
    ensures
        walk_ok(d, cfg_if(n, sc, cur, d).1, sc, cur, cfg_if(n, sc, cur, d).0),
    decreases n, 0int,
{
    let f = sc.func;
    let line = crate::extract::line_of(n.row);
    lemma_join_same(d, sc, cur, cur);
    let cond = d.next_id(f);
    let ct = crate::flow::field_text_or(n, "condition"@, "condition"@);
    let d1 = d.block(f, CfgBlockKind::Condition, ct, line).edge(cur, cond, CfgEdgeKind::Normal, None);
    lemma_join_block_edge(d, d, sc, cur, cur, CfgBlockKind::Condition, ct, line, cur, CfgEdgeKind::Normal, None);
    let merge = d1.next_id(f);
    let d2 = d1.block(f, CfgBlockKind::Block, "merge"@, None);
    lemma_join_block(d, d1, sc, cur, cur, CfgBlockKind::Block, "merge"@, None);
    let d3 = match crate::syntax::field_at(n, "consequence"@) {
        Some(i) => {
            let t = d2.next_id(f);
            let d2b = d2.block(f, CfgBlockKind::Block, "then"@, line).edge(cond, t, CfgEdgeKind::TrueBranch, crate::flow::true_label());
            lemma_join_block_edge(d, d2, sc, cur, cur, CfgBlockKind::Block, "then"@, line, cond, CfgEdgeKind::TrueBranch,
                crate::flow::true_label());
            let r = cfg_walk(n.children@[i], sc, t, d2b);
            lemma_walk_joins(n.children@[i], sc, t, d2b);
            lemma_join_inner(d, d2b, r.1, sc, cur, cur, sc, t, t);
            lemma_join_edge(d, r.1, sc, cur, cur, r.0, merge, CfgEdgeKind::Normal, None);
            r.1.edge(r.0, merge, CfgEdgeKind::Normal, None)
        },
        None => d2,
    };
    let a = cfg_alts(n.children@, sc, merge, (cond, false, d3));
    lemma_alts_joins(n.children@, sc, merge, (cond, false, d3));
    lemma_join_inner(d, d3, a.2, sc, cur, cur, sc, cond, merge);
    if !a.1 {
        lemma_join_edge(d, a.2, sc, cur, cur, a.0, merge, CfgEdgeKind::FalseBranch, crate::flow::false_label());
    }
}

proof fn lemma_loop_joins(n: SyntaxNode, sc: ScopeV, cur: Seq<char>, d: CfgDraft)
    ensures
        walk_ok(d, cfg_loop(n, sc, cur, d).1, sc, cur, cfg_loop(n, sc, cur, d).0),
    decreases n, 0int,
{
    let f = sc.func;
    lemma_join_same(d, sc, cur, cur);
    let h = d.next_id(f);
    let hl = crate::flow::loop_label(n);
    let nl = crate::extract::line_of(n.row);
    let d1 = d.block(f, CfgBlockKind::LoopHeader, hl, nl).edge(cur, h, CfgEdgeKind::Normal, None);
    lemma_join_block_edge(d, d, sc, cur, cur, CfgBlockKind::LoopHeader, hl, nl, cur, CfgEdgeKind::Normal, None);
    let x = d1.next_id(f);
    let d2 = d1.block(f, CfgBlockKind::Block, "loop exit"@, None);
    lemma_join_block(d, d1, sc, cur, cur, CfgBlockKind::Block, "loop exit"@, None);
    let d3 = match crate::syntax::field_at(n, "body"@) {
        Some(i) => {
            let b = d2.next_id(f);
            let inner = ScopeV { func: f, exit: sc.exit, loop_exit: x, loop_header: Some(h) };
            let line = crate::extract::line_of(n.children@[i].row);
            let d2b = d2.block(f, CfgBlockKind::LoopBody, "loop body"@, line).edge(h, b, CfgEdgeKind::TrueBranch, crate::flow::true_label());
            lemma_join_block_edge(d, d2, sc, cur, cur, CfgBlockKind::LoopBody, "loop body"@, line, h, CfgEdgeKind::TrueBranch,
                crate::flow::true_label());
            let r = cfg_walk(n.children@[i], inner, b, d2b);
            lemma_walk_joins(n.children@[i], inner, b, d2b);
            lemma_join_inner(d, d2b, r.1, sc, cur, cur, inner, b, b);
            lemma_join_edge(d, r.1, sc, cur, cur, r.0, h, CfgEdgeKind::LoopBack, None);
            r.1.edge(r.0, h, CfgEdgeKind::LoopBack, None)
        },
        None => d2,
    };
    lemma_join_edge(d, d3, sc, cur, cur, h, x, CfgEdgeKind::FalseBranch, crate::flow::false_label());
}

proof fn lemma_try_joins(n: SyntaxNode, sc: ScopeV, cur: Seq<char>, d: CfgDraft)
    ensures
        walk_ok(d, cfg_try(n, sc, cur, d).1, sc, cur, cfg_try(n, sc, cur, d).0),
    decreases n, 0int,
{
    let f = sc.func;
    lemma_join_same(d, sc, cur, cur);
    let t = d.next_id(f);
    let nl = crate::extract::line_of(n.row);
    let d1 = d.block(f, CfgBlockKind::TryBlock, "try"@, nl).edge(cur, t, CfgEdgeKind::Normal, None);
    lemma_join_block_edge(d, d, sc, cur, cur, CfgBlockKind::TryBlock, "try"@, nl, cur, CfgEdgeKind::Normal, None);
    let te = d1.next_id(f);
    let d2 = d1.block(f, CfgBlockKind::Block, "try merge"@, None);
    lemma_join_block(d, d1, sc, cur, cur, CfgBlockKind::Block, "try merge"@, None);
    let d3 = match crate::syntax::field_at(n, "body"@) {
        Some(i) => {
            let r = cfg_walk(n.children@[i], sc, t, d2);
            lemma_walk_joins(n.children@[i], sc, t, d2);
            lemma_join_inner(d, d2, r.1, sc, cur, cur, sc, t, t);
            lemma_join_edge(d, r.1, sc, cur, cur, r.0, te, CfgEdgeKind::Normal, None);
            r.1.edge(r.0, te, CfgEdgeKind::Normal, None)
        },
        None => d2,
    };
    let d4 = cfg_handlers(n.children@, sc, t, te, d3);
    lemma_handlers_joins(n.children@, sc, t, te, d3);
    lemma_join_inner(d, d3, d4, sc, cur, cur, sc, t, te);
    let fin = cfg_finally(n.children@, sc, te, d4);
    lemma_finally_joins(n.children@, sc, te, d4);
    lemma_join_inner(d, d4, fin.1, sc, cur, cur, sc, te, te);
}

proof fn lemma_alts_joins(cs: Seq<SyntaxNode>, sc: ScopeV, merge: Seq<char>, acc: (Seq<char>, bool, CfgDraft))
    ensures
        cfg_grows(acc.2, cfg_alts(cs, sc, merge, acc).2, sc.func),
        edges_join(acc.2, cfg_alts(cs, sc, merge, acc).2, sc, acc.0, merge),
        cfg_alts(cs, sc, merge, acc).0 == acc.0
            || numbered(cfg_alts(cs, sc, merge, acc).0, sc.func, acc.2.blocks.len() as int,
                cfg_alts(cs, sc, merge, acc).2.blocks.len() as int),
    decreases cs, 0int,
{
    let base = acc.2;
    if cs.len() == 0 {
        lemma_join_same(base, sc, acc.0, merge);
    } else {
        let a = cfg_alts(cs.drop_last(), sc, merge, acc);
        lemma_alts_joins(cs.drop_last(), sc, merge, acc);
        let alt = cs.last();
        let f = sc.func;
        let line = crate::extract::line_of(alt.row);
        if !crate::syntax::has_field(alt, "alternative"@) {
        } else if alt.kind@ == "elif_clause"@ {
            let e = a.2.next_id(f);
            let ct = crate::flow::field_text_or(alt, "condition"@, "condition"@);
            let d1 = a.2.block(f, CfgBlockKind::Condition, ct, line).edge(a.0, e, CfgEdgeKind::FalseBranch, crate::flow::false_label());
            lemma_join_block_edge(base, a.2, sc, acc.0, merge, CfgBlockKind::Condition, ct, line, a.0,
                CfgEdgeKind::FalseBranch, crate::flow::false_label());
            match crate::syntax::field_at(alt, "consequence"@) {
                Some(i) => {
                    let t = d1.next_id(f);
                    let d1b = d1.block(f, CfgBlockKind::Block, "elif"@, line).edge(e, t, CfgEdgeKind::TrueBranch, crate::flow::true_label());
                    lemma_join_block_edge(base, d1, sc, acc.0, merge, CfgBlockKind::Block, "elif"@, line, e,
                        CfgEdgeKind::TrueBranch, crate::flow::true_label());
                    let r = cfg_walk(alt.children@[i], sc, t, d1b);
                    lemma_walk_joins(alt.children@[i], sc, t, d1b);
                    lemma_join_inner(base, d1b, r.1, sc, acc.0, merge, sc, t, t);
                    lemma_join_edge(base, r.1, sc, acc.0, merge, r.0, merge, CfgEdgeKind::Normal, None);
                },
                None => {},
            }
        } else if alt.kind@ == "else_clause"@ {
            let b = a.2.next_id(f);
            let d1 = a.2.block(f, CfgBlockKind::Block, "else"@, line).edge(a.0, b, CfgEdgeKind::FalseBranch, crate::flow::false_label());
            lemma_join_block_edge(base, a.2, sc, acc.0, merge, CfgBlockKind::Block, "else"@, line, a.0,
                CfgEdgeKind::FalseBranch, crate::flow::false_label());
            let r = match crate::syntax::field_at(alt, "body"@) {
                Some(i) => {
                    lemma_walk_joins(alt.children@[i], sc, b, d1);
                    lemma_join_inner(base, d1, cfg_walk(alt.children@[i], sc, b, d1).1, sc, acc.0, merge, sc, b, b);
                    cfg_walk(alt.children@[i], sc, b, d1)
                },
                None => (b, d1),
            };
            lemma_join_edge(base, r.1, sc, acc.0, merge, r.0, merge, CfgEdgeKind::Normal, None);
        }
    }
}

proof fn lemma_handlers_joins(cs: Seq<SyntaxNode>, sc: ScopeV, t: Seq<char>, te: Seq<char>, d: CfgDraft)
    ensures
        cfg_grows(d, cfg_handlers(cs, sc, t, te, d), sc.func),
        edges_join(d, cfg_handlers(cs, sc, t, te, d), sc, t, te),
    decreases cs, 0int,
{
    if cs.len() == 0 {
        lemma_join_same(d, sc, t, te);
    } else {
        let d1 = cfg_handlers(cs.drop_last(), sc, t, te, d);
        lemma_handlers_joins(cs.drop_last(), sc, t, te, d);
        let h = cs.last();
        let f = sc.func;
        if crate::syntax::has_field(h, "handler"@) {
            let c = d1.next_id(f);
            let hl = crate::flow::handler_label(h);
            let line = crate::extract::line_of(h.row);
            let d2 = d1.block(f, CfgBlockKind::CatchBlock, hl, line).edge(t, c, CfgEdgeKind::ExceptionEdge, None);
            lemma_join_block_edge(d, d1, sc, t, te, CfgBlockKind::CatchBlock, hl, line, t, CfgEdgeKind::ExceptionEdge, None);
            match crate::syntax::field_at(h, "body"@) {
                Some(i) => {
                    let r = cfg_walk(h.children@[i], sc, c, d2);
                    lemma_walk_joins(h.children@[i], sc, c, d2);
                    lemma_join_inner(d, d2, r.1, sc, t, te, sc, c, c);
                    lemma_join_edge(d, r.1, sc, t, te, r.0, te, CfgEdgeKind::Normal, None);
                },
                None => {},
            }
        }
    }
}

proof fn lemma_finally_joins(cs: Seq<SyntaxNode>, sc: ScopeV, te: Seq<char>, d: CfgDraft)
    ensures
        cfg_grows(d, cfg_finally(cs, sc, te, d).1, sc.func),
        edges_join(d, cfg_finally(cs, sc, te, d).1, sc, te, te),
        cfg_finally(cs, sc, te, d).0 == te
            || numbered(cfg_finally(cs, sc, te, d).0, sc.func, d.blocks.len() as int, cfg_finally(cs, sc, te, d).1.blocks.len() as int),
    decreases cs, 0int,
{
    if cs.len() == 0 {
        lemma_join_same(d, sc, te, te);
    } else if cs[0].kind@ == "finally_clause"@ {
        let fc = cs[0];
        let f = sc.func;
        lemma_join_same(d, sc, te, te);
        let fid = d.next_id(f);
        let line = crate::extract::line_of(fc.row);
        let d1 = d.block(f, CfgBlockKind::FinallyBlock, "finally"@, line).edge(te, fid, CfgEdgeKind::FinallyEdge, None);
        lemma_join_block_edge(d, d, sc, te, te, CfgBlockKind::FinallyBlock, "finally"@, line, te, CfgEdgeKind::FinallyEdge, None);
        match crate::syntax::field_at(fc, "body"@) {
            Some(i) => {
                lemma_walk_joins(fc.children@[i], sc, fid, d1);
                lemma_join_inner(d, d1, cfg_walk(fc.children@[i], sc, fid, d1).1, sc, te, te, sc, fid, fid);
            },
            None => {},
        }
    } else {
        lemma_finally_joins(cs.skip(1), sc, te, d);
    }
}


/// Whether the draft has a block with the id.
pub open spec fn has_block(d: CfgDraft, id: Seq<char>) -> bool {
    exists|j: int| 0 <= j < d.blocks.len() && (#[trigger] d.blocks[j]).id == id
}

/// Every edge of a function's control flow graph joins two of its blocks.
pub proof fn lemma_cfg_edges_join_blocks(n: SyntaxNode, func: Seq<char>)
    ensures
        forall|k: int| 0 <= k < cfg_of(n, func).edges.len() ==>
            has_block(cfg_of(n, func), (#[trigger] cfg_of(n, func).edges[k]).from)
            && has_block(cfg_of(n, func), cfg_of(n, func).edges[k].to),
{
    let entry = block_id(func, 0);
    let exit = block_id(func, 1);
    let empty = CfgDraft { blocks: seq![], edges: seq![] };
    let d0 = empty.block(func, CfgBlockKind::Entry, "Entry"@, crate::extract::line_of(n.row));
    let d = d0.block(func, CfgBlockKind::Exit, "Exit"@, crate::extract::line_of(n.end_row));
    let g = cfg_of(n, func);
    assert(d.blocks[0].id == entry);
    assert(d.blocks[1].id == exit);
    match crate::syntax::field_at(n, "body"@) {
        Some(i) => {
            let sc = ScopeV { func, exit, loop_exit: exit, loop_header: None };
            let r = cfg_walk(n.children@[i], sc, entry, d);
            lemma_walk_joins(n.children@[i], sc, entry, d);
            assert(g == r.1.edge(r.0, exit, CfgEdgeKind::Normal, None));
            assert(r.1.blocks[0] == r.1.blocks.take(2)[0]);
            assert(r.1.blocks[1] == r.1.blocks.take(2)[1]);
            assert(has_block(g, entry));
            assert(has_block(g, exit));
            assert forall|x: Seq<char>| joinable(x, sc, entry, entry, 2, r.1.blocks.len() as int) implies #[trigger] has_block(g, x) by {
                if numbered(x, func, 2, r.1.blocks.len() as int) {
                    let k = choose|k: int| 2 <= k < r.1.blocks.len() && x == #[trigger] block_id(func, k as nat);
                    assert(g.blocks[k].id == x);
                }
            }
            assert forall|k: int| 0 <= k < g.edges.len() implies
                has_block(g, (#[trigger] g.edges[k]).from) && has_block(g, g.edges[k].to) by {
                if k < r.1.edges.len() {
                    assert(g.edges[k] == r.1.edges[k]);
                    assert(joinable(r.1.edges[k].from, sc, entry, entry, 2, r.1.blocks.len() as int));
                    assert(joinable(r.1.edges[k].to, sc, entry, entry, 2, r.1.blocks.len() as int));
                } else {
                    assert(g.edges[k].from == r.0);
                    assert(g.edges[k].to == exit);
                    assert(joinable(r.0, sc, entry, entry, 2, r.1.blocks.len() as int));
                }
            }
        },
        None => {
            assert(has_block(g, entry));
            assert(has_block(g, exit));
        },
    }
}


/// Whether the walk of `n` reaches the return statement `m`: `m` is `n`, or sits, as the
/// walk visits them, in a block's statements, an `if`'s consequence or its `elif` and
/// `else` bodies, a loop's body, or a `try`'s body, handlers or first `finally`.
pub open spec fn reaches_return(n: SyntaxNode, m: SyntaxNode) -> bool
    decreases n, 1int,
{
    let k = n.kind@;
    if k == "block"@ || k == "module"@ {
        seq_reaches(n.children@, m)
    } else if k == "if_statement"@ {
        (match field_at(n, "consequence"@) { Some(i) => reaches_return(n.children@[i], m), None => false })
            || alts_reach(n.children@, m)
    } else if k == "for_statement"@ || k == "while_statement"@ {
        match field_at(n, "body"@) { Some(i) => reaches_return(n.children@[i], m), None => false }
    } else if k == "try_statement"@ {
        (match field_at(n, "body"@) { Some(i) => reaches_return(n.children@[i], m), None => false })
            || handlers_reach(n.children@, m) || finally_reaches(n.children@, m)
    } else if k == "return_statement"@ {
        n == m
    } else {
        false
    }
}

/// Whether one of the statements reaches the return statement.
pub open spec fn seq_reaches(cs: Seq<SyntaxNode>, m: SyntaxNode) -> bool
    decreases cs, 0int,
{
    cs.len() > 0 && (seq_reaches(cs.drop_last(), m) || reaches_return(cs.last(), m))
}

/// Whether the body of one of an `if`'s `elif` or `else` clauses reaches the return statement.
pub open spec fn alts_reach(cs: Seq<SyntaxNode>, m: SyntaxNode) -> bool
    decreases cs, 0int,
{
    if cs.len() == 0 {
        false
    } else {
        let alt = cs.last();
        alts_reach(cs.drop_last(), m) || (has_field(alt, "alternative"@) && if alt.kind@ == "elif_clause"@ {
            match field_at(alt, "consequence"@) { Some(i) => reaches_return(alt.children@[i], m), None => false }
        } else if alt.kind@ == "else_clause"@ {
            match field_at(alt, "body"@) { Some(i) => reaches_return(alt.children@[i], m), None => false }
        } else {
            false
        })
    }
}

/// Whether the body of one of a `try`'s handlers reaches the return statement.
pub open spec fn handlers_reach(cs: Seq<SyntaxNode>, m: SyntaxNode) -> bool
    decreases cs, 0int,
{
    if cs.len() == 0 {
        false
    } else {
        let h = cs.last();
        handlers_reach(cs.drop_last(), m) || (has_field(h, "handler"@)
            && match field_at(h, "body"@) { Some(i) => reaches_return(h.children@[i], m), None => false })
    }
}

/// Whether the body of a `try`'s first `finally` clause reaches the return statement.
pub open spec fn finally_reaches(cs: Seq<SyntaxNode>, m: SyntaxNode) -> bool
    decreases cs, 0int,
{
    if cs.len() == 0 {
        false
    } else if cs[0].kind@ == "finally_clause"@ {
        match field_at(cs[0], "body"@) { Some(i) => reaches_return(cs[0].children@[i], m), None => false }
    } else {
        finally_reaches(cs.skip(1), m)
    }
}

/// Whether the block at position `k` (from `lo` on) is the block of the return statement
/// `m` (labelled and lined as it), with a `Normal` edge to `exit`.
pub open spec fn return_block_at(d: CfgDraft, m: SyntaxNode, exit: Seq<char>, lo: int, k: int) -> bool {
    &&& lo <= k < d.blocks.len()
    &&& d.blocks[k].kind == CfgBlockKind::Block
    &&& d.blocks[k].label == jump_label("return"@, m)
    &&& d.blocks[k].line == line_of(m.row)
    &&& d.edges.contains(CfgEdgeV { from: d.blocks[k].id, to: exit, kind: CfgEdgeKind::Normal, label: None })
}

/// Whether the draft has, from position `lo` on, a block of the return statement `m` with a
/// `Normal` edge to `exit`.
pub open spec fn has_return_block(d: CfgDraft, m: SyntaxNode, exit: Seq<char>, lo: int) -> bool {
    exists|k: int| #[trigger] return_block_at(d, m, exit, lo, k)
}

proof fn lemma_return_mono(d1: CfgDraft, d2: CfgDraft, m: SyntaxNode, exit: Seq<char>, lo: int, lo2: int, f: Seq<char>)
    requires
        cfg_grows(d1, d2, f),
        has_return_block(d1, m, exit, lo),
        0 <= lo2 <= lo,
    ensures
        has_return_block(d2, m, exit, lo2),
{
    let k = choose|k: int| #[trigger] return_block_at(d1, m, exit, lo, k);
    assert(d2.blocks[k] == d2.blocks.take(d1.blocks.len() as int)[k]);
    let e = CfgEdgeV { from: d1.blocks[k].id, to: exit, kind: CfgEdgeKind::Normal, label: None };
    let j = choose|j: int| 0 <= j < d1.edges.len() && d1.edges[j] == e;
    assert(d2.edges[j] == d2.edges.take(d1.edges.len() as int)[j]);
    assert(d2.edges.contains(e));
    assert(return_block_at(d2, m, exit, lo2, k));
}

proof fn lemma_return_kind_differs()
    ensures
        "return_statement"@ != "block"@,
        "return_statement"@ != "module"@,
        "return_statement"@ != "if_statement"@,
        "return_statement"@ != "for_statement"@,
        "return_statement"@ != "while_statement"@,
        "return_statement"@ != "try_statement"@,
{
    reveal_strlit("return_statement");
    reveal_strlit("block");
    reveal_strlit("module");
    reveal_strlit("if_statement");
    reveal_strlit("for_statement");
    reveal_strlit("while_statement");
    reveal_strlit("try_statement");
    assert("return_statement"@.len() != "block"@.len());
    assert("return_statement"@.len() != "module"@.len());
    assert("return_statement"@.len() != "if_statement"@.len());
    assert("return_statement"@.len() != "for_statement"@.len());
    assert("return_statement"@.len() != "while_statement"@.len());
    assert("return_statement"@.len() != "try_statement"@.len());
}

proof fn lemma_return_itself(n: SyntaxNode, sc: ScopeV, cur: Seq<char>, d: CfgDraft)
    requires
        n.kind@ == "return_statement"@,
    ensures
        has_return_block(cfg_walk(n, sc, cur, d).1, n, sc.exit, d.blocks.len() as int),
{
    let f = sc.func;
    let line = line_of(n.row);
    let aw = direct_awaits(n.children@, f, line, cur, d);
    lemma_direct_awaits(n.children@, f, line, cur, d);
    let r = aw.1.next_id(f);
    let out = cfg_return(n, sc, cur, d).1;
    lemma_return_kind_differs();
    assert(cfg_walk(n, sc, cur, d) == cfg_return(n, sc, cur, d));
    let k = aw.1.blocks.len() as int;
    assert(out.blocks[k].id == r);
    let e = CfgEdgeV { from: r, to: sc.exit, kind: CfgEdgeKind::Normal, label: None };
    assert(out.edges[out.edges.len() - 1] == e);
    assert(out.edges.contains(e));
    assert(return_block_at(out, n, sc.exit, d.blocks.len() as int, k));
}

/// Every return statement that the walk of a statement reaches gets its block, with a
/// `Normal` edge to the scope's exit block: the function's exit, as no enclosing loop, `if`
/// or `try` changes it.
pub proof fn lemma_walk_return(n: SyntaxNode, sc: ScopeV, cur: Seq<char>, d: CfgDraft, m: SyntaxNode)
    requires
        reaches_return(n, m),
    ensures
        has_return_block(cfg_walk(n, sc, cur, d).1, m, sc.exit, d.blocks.len() as int),
    decreases n, 1int,
{
    let k = n.kind@;
    if k == "block"@ || k == "module"@ {
        lemma_seq_return(n.children@, sc, cur, d, m);
    } else if k == "if_statement"@ {
        lemma_if_return(n, sc, cur, d, m);
    } else if k == "for_statement"@ || k == "while_statement"@ {
        lemma_loop_return(n, sc, cur, d, m);
    } else if k == "try_statement"@ {
        lemma_try_return(n, sc, cur, d, m);
    } else {
        lemma_return_itself(n, sc, cur, d);
    }
}

proof fn lemma_seq_return(cs: Seq<SyntaxNode>, sc: ScopeV, cur: Seq<char>, d: CfgDraft, m: SyntaxNode)
    requires
        seq_reaches(cs, m),
    ensures
        has_return_block(cfg_seq(cs, sc, cur, d).1, m, sc.exit, d.blocks.len() as int),
    decreases cs, 0int,
{
    let r = cfg_seq(cs.drop_last(), sc, cur, d);
    let out = cfg_walk(cs.last(), sc, r.0, r.1);
    lemma_seq_grows(cs.drop_last(), sc, cur, d);
    lemma_walk_grows(cs.last(), sc, r.0, r.1);
    if seq_reaches(cs.drop_last(), m) {
        lemma_seq_return(cs.drop_last(), sc, cur, d, m);
        lemma_return_mono(r.1, out.1, m, sc.exit, d.blocks.len() as int, d.blocks.len() as int, sc.func);
    } else {
        lemma_walk_return(cs.last(), sc, r.0, r.1, m);
        lemma_same(out.1, sc.func);
        lemma_return_mono(out.1, out.1, m, sc.exit, r.1.blocks.len() as int, d.blocks.len() as int, sc.func);
    }
}

proof fn lemma_if_return(n: SyntaxNode, sc: ScopeV, cur: Seq<char>, d: CfgDraft, m: SyntaxNode)
    requires
        n.kind@ == "if_statement"@,
        (match field_at(n, "consequence"@) { Some(i) => reaches_return(n.children@[i], m), None => false })
            || alts_reach(n.children@, m),
    ensures
        has_return_block(cfg_if(n, sc, cur, d).1, m, sc.exit, d.blocks.len() as int),
    decreases n, 0int,
{
    let f = sc.func;
    let line = line_of(n.row);
    let cond = d.next_id(f);
    let d1 = d.block(f, CfgBlockKind::Condition, field_text_or(n, "condition"@, "condition"@), line)
        .edge(cur, cond, CfgEdgeKind::Normal, None);
    lemma_block_edge(d, f, CfgBlockKind::Condition, field_text_or(n, "condition"@, "condition"@), line,
        cur, cond, CfgEdgeKind::Normal, None);
    let merge = d1.next_id(f);
    let d2 = d1.block(f, CfgBlockKind::Block, "merge"@, None);
    lemma_block(d1, f, CfgBlockKind::Block, "merge"@, None);
    lemma_trans(d, d1, d2, f);
    let out = cfg_if(n, sc, cur, d).1;
    let d3 = match field_at(n, "consequence"@) {
        Some(i) => {
            let t = d2.next_id(f);
            let d2b = d2.block(f, CfgBlockKind::Block, "then"@, line).edge(cond, t, CfgEdgeKind::TrueBranch, true_label());
            lemma_block_edge(d2, f, CfgBlockKind::Block, "then"@, line, cond, t, CfgEdgeKind::TrueBranch, true_label());
            let r = cfg_walk(n.children@[i], sc, t, d2b);
            lemma_walk_grows(n.children@[i], sc, t, d2b);
            lemma_edge(r.1, f, r.0, merge, CfgEdgeKind::Normal, None);
            lemma_trans(d2, d2b, r.1, f);
            lemma_trans(d2, r.1, r.1.edge(r.0, merge, CfgEdgeKind::Normal, None), f);
            if reaches_return(n.children@[i], m) {
                lemma_walk_return(n.children@[i], sc, t, d2b, m);
                lemma_return_mono(r.1, r.1.edge(r.0, merge, CfgEdgeKind::Normal, None), m, sc.exit,
                    d2b.blocks.len() as int, d.blocks.len() as int, f);
            }
            r.1.edge(r.0, merge, CfgEdgeKind::Normal, None)
        },
        None => {
            lemma_same(d2, f);
            d2
        },
    };
    let a = cfg_alts(n.children@, sc, merge, (cond, false, d3));
    lemma_alts_grows(n.children@, sc, merge, (cond, false, d3));
    let fin = if a.1 { a.2 } else { a.2.edge(a.0, merge, CfgEdgeKind::FalseBranch, false_label()) };
    if !a.1 {
        lemma_edge(a.2, f, a.0, merge, CfgEdgeKind::FalseBranch, false_label());
    } else {
        lemma_same(a.2, f);
    }
    lemma_trans(d3, a.2, fin, f);
    assert(out == fin);
    if alts_reach(n.children@, m) {
        lemma_alts_return(n.children@, sc, merge, (cond, false, d3), m);
        lemma_return_mono(a.2, fin, m, sc.exit, d3.blocks.len() as int, d.blocks.len() as int, f);
    } else {
        lemma_return_mono(d3, fin, m, sc.exit, d.blocks.len() as int, d.blocks.len() as int, f);
    }
}

proof fn lemma_loop_return(n: SyntaxNode, sc: ScopeV, cur: Seq<char>, d: CfgDraft, m: SyntaxNode)
    requires
        n.kind@ == "for_statement"@ || n.kind@ == "while_statement"@,
        match field_at(n, "body"@) { Some(i) => reaches_return(n.children@[i], m), None => false },
    ensures
        has_return_block(cfg_loop(n, sc, cur, d).1, m, sc.exit, d.blocks.len() as int),
    decreases n, 0int,
{
    let f = sc.func;
    let h = d.next_id(f);
    let d1 = d.block(f, CfgBlockKind::LoopHeader, loop_label(n), line_of(n.row)).edge(cur, h, CfgEdgeKind::Normal, None);
    lemma_block_edge(d, f, CfgBlockKind::LoopHeader, loop_label(n), line_of(n.row), cur, h, CfgEdgeKind::Normal, None);
    let x = d1.next_id(f);
    let d2 = d1.block(f, CfgBlockKind::Block, "loop exit"@, None);
    lemma_block(d1, f, CfgBlockKind::Block, "loop exit"@, None);
    lemma_trans(d, d1, d2, f);
    let i = field_at(n, "body"@)->0;
    let b = d2.next_id(f);
    let inner = ScopeV { func: f, exit: sc.exit, loop_exit: x, loop_header: Some(h) };
    let line = line_of(n.children@[i].row);
    let d2b = d2.block(f, CfgBlockKind::LoopBody, "loop body"@, line).edge(h, b, CfgEdgeKind::TrueBranch, true_label());
    lemma_block_edge(d2, f, CfgBlockKind::LoopBody, "loop body"@, line, h, b, CfgEdgeKind::TrueBranch, true_label());
    let r = cfg_walk(n.children@[i], inner, b, d2b);
    lemma_walk_grows(n.children@[i], inner, b, d2b);
    lemma_walk_return(n.children@[i], inner, b, d2b, m);
    let d3 = r.1.edge(r.0, h, CfgEdgeKind::LoopBack, None);
    lemma_edge(r.1, f, r.0, h, CfgEdgeKind::LoopBack, None);
    let out = d3.edge(h, x, CfgEdgeKind::FalseBranch, false_label());
    lemma_edge(d3, f, h, x, CfgEdgeKind::FalseBranch, false_label());
    lemma_trans(r.1, d3, out, f);
    assert(cfg_loop(n, sc, cur, d).1 == out);
    lemma_trans(d, d2, d2b, f);
    lemma_return_mono(r.1, out, m, sc.exit, d2b.blocks.len() as int, d.blocks.len() as int, f);
}

proof fn lemma_try_return(n: SyntaxNode, sc: ScopeV, cur: Seq<char>, d: CfgDraft, m: SyntaxNode)
    requires
        n.kind@ == "try_statement"@,
        (match field_at(n, "body"@) { Some(i) => reaches_return(n.children@[i], m), None => false })
            || handlers_reach(n.children@, m) || finally_reaches(n.children@, m),
    ensures
        has_return_block(cfg_try(n, sc, cur, d).1, m, sc.exit, d.blocks.len() as int),
    decreases n, 0int,
{
    let f = sc.func;
    let t = d.next_id(f);
    let d1 = d.block(f, CfgBlockKind::TryBlock, "try"@, line_of(n.row)).edge(cur, t, CfgEdgeKind::Normal, None);
    lemma_block_edge(d, f, CfgBlockKind::TryBlock, "try"@, line_of(n.row), cur, t, CfgEdgeKind::Normal, None);
    let te = d1.next_id(f);
    let d2 = d1.block(f, CfgBlockKind::Block, "try merge"@, None);
    lemma_block(d1, f, CfgBlockKind::Block, "try merge"@, None);
    lemma_trans(d, d1, d2, f);
    let d3 = match field_at(n, "body"@) {
        Some(i) => {
            let r = cfg_walk(n.children@[i], sc, t, d2);
            lemma_walk_grows(n.children@[i], sc, t, d2);
            lemma_edge(r.1, f, r.0, te, CfgEdgeKind::Normal, None);
            lemma_trans(d2, r.1, r.1.edge(r.0, te, CfgEdgeKind::Normal, None), f);
            if reaches_return(n.children@[i], m) {
                lemma_walk_return(n.children@[i], sc, t, d2, m);
                lemma_return_mono(r.1, r.1.edge(r.0, te, CfgEdgeKind::Normal, None), m, sc.exit,
                    d2.blocks.len() as int, d.blocks.len() as int, f);
            }
            r.1.edge(r.0, te, CfgEdgeKind::Normal, None)
        },
        None => {
            lemma_same(d2, f);
            d2
        },
    };
    let d4 = cfg_handlers(n.children@, sc, t, te, d3);
    lemma_handlers_grows(n.children@, sc, t, te, d3);
    let out = cfg_finally(n.children@, sc, te, d4).1;
    lemma_finally_grows(n.children@, sc, te, d4);
    lemma_trans(d3, d4, out, f);
    assert(cfg_try(n, sc, cur, d).1 == out);
    if finally_reaches(n.children@, m) {
        lemma_finally_return(n.children@, sc, te, d4, m);
        lemma_same(out, f);
        lemma_return_mono(out, out, m, sc.exit, d4.blocks.len() as int, d.blocks.len() as int, f);
    } else if handlers_reach(n.children@, m) {
        lemma_handlers_return(n.children@, sc, t, te, d3, m);
        lemma_return_mono(d4, out, m, sc.exit, d3.blocks.len() as int, d.blocks.len() as int, f);
    } else {
        lemma_return_mono(d3, out, m, sc.exit, d.blocks.len() as int, d.blocks.len() as int, f);
    }
}

proof fn lemma_alts_return(cs: Seq<SyntaxNode>, sc: ScopeV, merge: Seq<char>, acc: (Seq<char>, bool, CfgDraft), m: SyntaxNode)
    requires
        alts_reach(cs, m),
    ensures
        has_return_block(cfg_alts(cs, sc, merge, acc).2, m, sc.exit, acc.2.blocks.len() as int),
    decreases cs, 0int,
{
    let a = cfg_alts(cs.drop_last(), sc, merge, acc);
    lemma_alts_grows(cs.drop_last(), sc, merge, acc);
    lemma_alts_grows(cs, sc, merge, acc);
    let out = cfg_alts(cs, sc, merge, acc).2;
    let alt = cs.last();
    let f = sc.func;
    let line = line_of(alt.row);
    if alts_reach(cs.drop_last(), m) {
        lemma_alts_return(cs.drop_last(), sc, merge, acc, m);
        // What the last clause adds only appends.
        if !has_field(alt, "alternative"@) {
            lemma_same(a.2, f);
            lemma_return_mono(a.2, out, m, sc.exit, acc.2.blocks.len() as int, acc.2.blocks.len() as int, f);
        } else if alt.kind@ == "elif_clause"@ {
            let e = a.2.next_id(f);
            let d1 = a.2.block(f, CfgBlockKind::Condition, field_text_or(alt, "condition"@, "condition"@), line)
                .edge(a.0, e, CfgEdgeKind::FalseBranch, false_label());
            lemma_block_edge(a.2, f, CfgBlockKind::Condition, field_text_or(alt, "condition"@, "condition"@), line,
                a.0, e, CfgEdgeKind::FalseBranch, false_label());
            match field_at(alt, "consequence"@) {
                Some(i) => {
                    let t = d1.next_id(f);
                    let d1b = d1.block(f, CfgBlockKind::Block, "elif"@, line).edge(e, t, CfgEdgeKind::TrueBranch, true_label());
                    lemma_block_edge(d1, f, CfgBlockKind::Block, "elif"@, line, e, t, CfgEdgeKind::TrueBranch, true_label());
                    let r = cfg_walk(alt.children@[i], sc, t, d1b);
                    lemma_walk_grows(alt.children@[i], sc, t, d1b);
                    lemma_edge(r.1, f, r.0, merge, CfgEdgeKind::Normal, None);
                    lemma_trans(d1, d1b, r.1, f);
                    lemma_trans(d1, r.1, out, f);
                },
                None => {
                    lemma_same(d1, f);
                },
            }
            lemma_trans(a.2, d1, out, f);
            lemma_return_mono(a.2, out, m, sc.exit, acc.2.blocks.len() as int, acc.2.blocks.len() as int, f);
        } else if alt.kind@ == "else_clause"@ {
            let b = a.2.next_id(f);
            let d1 = a.2.block(f, CfgBlockKind::Block, "else"@, line).edge(a.0, b, CfgEdgeKind::FalseBranch, false_label());
            lemma_block_edge(a.2, f, CfgBlockKind::Block, "else"@, line, a.0, b, CfgEdgeKind::FalseBranch, false_label());
            let r = match field_at(alt, "body"@) {
                Some(i) => {
                    lemma_walk_grows(alt.children@[i], sc, b, d1);
                    cfg_walk(alt.children@[i], sc, b, d1)
                },
                None => {
                    lemma_same(d1, f);
                    (b, d1)
                },
            };
            lemma_edge(r.1, f, r.0, merge, CfgEdgeKind::Normal, None);
            lemma_trans(d1, r.1, out, f);
            lemma_trans(a.2, d1, out, f);
            lemma_return_mono(a.2, out, m, sc.exit, acc.2.blocks.len() as int, acc.2.blocks.len() as int, f);
        } else {
            lemma_same(a.2, f);
            lemma_return_mono(a.2, out, m, sc.exit, acc.2.blocks.len() as int, acc.2.blocks.len() as int, f);
        }
    } else if alt.kind@ == "elif_clause"@ {
        let e = a.2.next_id(f);
        let d1 = a.2.block(f, CfgBlockKind::Condition, field_text_or(alt, "condition"@, "condition"@), line)
            .edge(a.0, e, CfgEdgeKind::FalseBranch, false_label());
        lemma_block_edge(a.2, f, CfgBlockKind::Condition, field_text_or(alt, "condition"@, "condition"@), line,
            a.0, e, CfgEdgeKind::FalseBranch, false_label());
        let i = field_at(alt, "consequence"@)->0;
        let t = d1.next_id(f);
        let d1b = d1.block(f, CfgBlockKind::Block, "elif"@, line).edge(e, t, CfgEdgeKind::TrueBranch, true_label());
        lemma_block_edge(d1, f, CfgBlockKind::Block, "elif"@, line, e, t, CfgEdgeKind::TrueBranch, true_label());
        let r = cfg_walk(alt.children@[i], sc, t, d1b);
        lemma_walk_grows(alt.children@[i], sc, t, d1b);
        lemma_walk_return(alt.children@[i], sc, t, d1b, m);
        lemma_edge(r.1, f, r.0, merge, CfgEdgeKind::Normal, None);
        lemma_trans(a.2, d1, d1b, f);
        lemma_return_mono(r.1, out, m, sc.exit, d1b.blocks.len() as int, acc.2.blocks.len() as int, f);
    } else {
        let b = a.2.next_id(f);
        let d1 = a.2.block(f, CfgBlockKind::Block, "else"@, line).edge(a.0, b, CfgEdgeKind::FalseBranch, false_label());
        lemma_block_edge(a.2, f, CfgBlockKind::Block, "else"@, line, a.0, b, CfgEdgeKind::FalseBranch, false_label());
        let i = field_at(alt, "body"@)->0;
        let r = cfg_walk(alt.children@[i], sc, b, d1);
        lemma_walk_grows(alt.children@[i], sc, b, d1);
        lemma_walk_return(alt.children@[i], sc, b, d1, m);
        lemma_edge(r.1, f, r.0, merge, CfgEdgeKind::Normal, None);
        lemma_return_mono(r.1, out, m, sc.exit, d1.blocks.len() as int, acc.2.blocks.len() as int, f);
    }
}

proof fn lemma_handlers_return(cs: Seq<SyntaxNode>, sc: ScopeV, t: Seq<char>, te: Seq<char>, d: CfgDraft, m: SyntaxNode)
    requires
        handlers_reach(cs, m),
    ensures
        has_return_block(cfg_handlers(cs, sc, t, te, d), m, sc.exit, d.blocks.len() as int),
    decreases cs, 0int,
{
    let d1 = cfg_handlers(cs.drop_last(), sc, t, te, d);
    lemma_handlers_grows(cs.drop_last(), sc, t, te, d);
    let out = cfg_handlers(cs, sc, t, te, d);
    let h = cs.last();
    let f = sc.func;
    if handlers_reach(cs.drop_last(), m) {
        lemma_handlers_return(cs.drop_last(), sc, t, te, d, m);
        if has_field(h, "handler"@) {
            let c = d1.next_id(f);
            let d2 = d1.block(f, CfgBlockKind::CatchBlock, handler_label(h), line_of(h.row))
                .edge(t, c, CfgEdgeKind::ExceptionEdge, None);
            lemma_block_edge(d1, f, CfgBlockKind::CatchBlock, handler_label(h), line_of(h.row), t, c, CfgEdgeKind::ExceptionEdge, None);
            match field_at(h, "body"@) {
                Some(i) => {
                    let r = cfg_walk(h.children@[i], sc, c, d2);
                    lemma_walk_grows(h.children@[i], sc, c, d2);
                    lemma_edge(r.1, f, r.0, te, CfgEdgeKind::Normal, None);
                    lemma_trans(d2, r.1, out, f);
                },
                None => {
                    lemma_same(d2, f);
                },
            }
            lemma_trans(d1, d2, out, f);
        } else {
            lemma_same(d1, f);
        }
        lemma_return_mono(d1, out, m, sc.exit, d.blocks.len() as int, d.blocks.len() as int, f);
    } else {
        let c = d1.next_id(f);
        let d2 = d1.block(f, CfgBlockKind::CatchBlock, handler_label(h), line_of(h.row))
            .edge(t, c, CfgEdgeKind::ExceptionEdge, None);
        lemma_block_edge(d1, f, CfgBlockKind::CatchBlock, handler_label(h), line_of(h.row), t, c, CfgEdgeKind::ExceptionEdge, None);
        let i = field_at(h, "body"@)->0;
        let r = cfg_walk(h.children@[i], sc, c, d2);
        lemma_walk_grows(h.children@[i], sc, c, d2);
        lemma_walk_return(h.children@[i], sc, c, d2, m);
        lemma_edge(r.1, f, r.0, te, CfgEdgeKind::Normal, None);
        lemma_trans(d, d1, d2, f);
        lemma_return_mono(r.1, out, m, sc.exit, d2.blocks.len() as int, d.blocks.len() as int, f);
    }
}

proof fn lemma_finally_return(cs: Seq<SyntaxNode>, sc: ScopeV, te: Seq<char>, d: CfgDraft, m: SyntaxNode)
    requires
        finally_reaches(cs, m),
    ensures
        has_return_block(cfg_finally(cs, sc, te, d).1, m, sc.exit, d.blocks.len() as int),
    decreases cs, 0int,
{
    if cs[0].kind@ == "finally_clause"@ {
        let fc = cs[0];
        let f = sc.func;
        let fid = d.next_id(f);
        let d1 = d.block(f, CfgBlockKind::FinallyBlock, "finally"@, line_of(fc.row)).edge(te, fid, CfgEdgeKind::FinallyEdge, None);
        lemma_block_edge(d, f, CfgBlockKind::FinallyBlock, "finally"@, line_of(fc.row), te, fid, CfgEdgeKind::FinallyEdge, None);
        let i = field_at(fc, "body"@)->0;
        lemma_walk_return(fc.children@[i], sc, fid, d1, m);
        let out = cfg_walk(fc.children@[i], sc, fid, d1).1;
        lemma_same(out, f);
        lemma_return_mono(out, out, m, sc.exit, d1.blocks.len() as int, d.blocks.len() as int, f);
    } else {
        lemma_finally_return(cs.skip(1), sc, te, d, m);
    }
}

/// Every return statement that a Python function's body reaches, however deeply it sits in
/// loops, `if`s and `try`s, has its block in the function's control flow graph with a
/// `Normal` edge to the function's exit block: a return leaves the function, never just the
/// loop around it.
pub proof fn lemma_return_leaves_function(n: SyntaxNode, func: Seq<char>, m: SyntaxNode)
    requires
        field_at(n, "body"@) matches Some(i) && reaches_return(n.children@[i], m),
    ensures
        exists|k: int| 0 <= k < cfg_of(n, func).blocks.len()
            && cfg_of(n, func).blocks[k].label == jump_label("return"@, m)
            && cfg_of(n, func).blocks[k].kind == CfgBlockKind::Block
            && cfg_of(n, func).edges.contains(CfgEdgeV { from: #[trigger] cfg_of(n, func).blocks[k].id,
                to: block_id(func, 1), kind: CfgEdgeKind::Normal, label: None }),
{
    let entry = block_id(func, 0);
    let exit = block_id(func, 1);
    let d = CfgDraft { blocks: seq![], edges: seq![] }
        .block(func, CfgBlockKind::Entry, "Entry"@, line_of(n.row))
        .block(func, CfgBlockKind::Exit, "Exit"@, line_of(n.end_row));
    let i = field_at(n, "body"@)->0;
    let sc = ScopeV { func, exit, loop_exit: exit, loop_header: None };
    let r = cfg_walk(n.children@[i], sc, entry, d);
    lemma_walk_return(n.children@[i], sc, entry, d, m);
    let g = cfg_of(n, func);
    assert(g == r.1.edge(r.0, exit, CfgEdgeKind::Normal, None));
    lemma_edge(r.1, func, r.0, exit, CfgEdgeKind::Normal, None);
    lemma_return_mono(r.1, g, m, exit, d.blocks.len() as int, 0, func);
    let k = choose|k: int| #[trigger] return_block_at(g, m, exit, 0, k);
    assert(g.edges.contains(CfgEdgeV { from: g.blocks[k].id, to: block_id(func, 1), kind: CfgEdgeKind::Normal, label: None }));
}

} // verus!
