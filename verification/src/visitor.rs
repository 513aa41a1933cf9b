//! Generic depth-first, pre-order traversal of the document tree.  At each
//! node a handler for that node's kind may leave it alone, replace its kind
//! in place, or tombstone it to `Nop`; container kinds recurse into their
//! children by default, and a stop predicate can end the walk early.
use vstd::prelude::*;

use crate::ast::BlockQuate;
use crate::ast::CodeBlock;
use crate::ast::Emphasis;
use crate::ast::ExternalLink;
use crate::ast::HashTag;
use crate::ast::Heading;
use crate::ast::Image;
use crate::ast::InternalLink;
use crate::ast::List;
use crate::ast::Math;
use crate::ast::Node;
use crate::ast::NodeKind;
use crate::ast::Page;
use crate::ast::Paragraph;
use crate::ast::Table;
use crate::ast::Text;

verus! {

/// What a handler asks the walk to do with the node it just visited.
#[derive(Debug, PartialEq)]
pub enum TransformCommand {
    /// Replace the current node's kind with the given one.
    Replace(NodeKind),
    /// Tombstone the current node: its kind becomes `Nop`, keeping the
    /// node's position in its parent's child list.
    Delete,
}

/// One override point per node kind; a handler returns the transform to
/// apply, or nothing.  The walk applies at most one transform per node.
/// The traversal entry points are declared without a body: an implementor
/// writes them with the walk functions below (`visit` as `visit_page`,
/// `visit_page` as `walk_page`, and so on), which keeps the recursion
/// between the walk and the handlers visible to the termination checker.
pub trait Visitor: Sized {
    /// When true, the walk stops before the next node.
    fn is_finish(&mut self) -> bool {
        false
    }

    fn visit(&mut self, value: &mut Page);

    fn visit_page(&mut self, value: &mut Page);

    fn visit_node(&mut self, value: &mut Node);

    fn visit_paragraph(&mut self, value: &mut Paragraph) -> Option<TransformCommand>;

    fn visit_list(&mut self, _value: &mut List) -> Option<TransformCommand> {
        None
    }

    fn visit_hashtag(&mut self, _value: &HashTag) -> Option<TransformCommand> {
        None
    }

    fn visit_internal_link(&mut self, _value: &InternalLink) -> Option<TransformCommand> {
        None
    }

    fn visit_external_link(&mut self, _value: &ExternalLink) -> Option<TransformCommand> {
        None
    }

    fn visit_emphasis(&mut self, _value: &Emphasis) -> Option<TransformCommand> {
        None
    }

    fn visit_heading(&mut self, _value: &Heading) -> Option<TransformCommand> {
        None
    }

    fn visit_block_quate(&mut self, _value: &BlockQuate) -> Option<TransformCommand> {
        None
    }

    fn visit_code_block(&mut self, _value: &CodeBlock) -> Option<TransformCommand> {
        None
    }

    fn visit_table(&mut self, _value: &Table) -> Option<TransformCommand> {
        None
    }

    fn visit_image(&mut self, _value: &Image) -> Option<TransformCommand> {
        None
    }

    fn visit_math(&mut self, _value: &Math) -> Option<TransformCommand> {
        None
    }

    fn visit_text(&mut self, _value: &Text) -> Option<TransformCommand> {
        None
    }
}

/// Visits every top-level node in order; never adds or removes nodes.
pub fn walk_page<V: Visitor>(visitor: &mut V, value: &mut Page)
    ensures
        final(value).nodes@.len() == old(value).nodes@.len(),
{
    let n = value.nodes.len();
    let mut k: usize = 0;
    while k < n
        invariant
            k <= n,
            value.nodes@.len() == n,
            value.nodes@.len() == old(value).nodes@.len(),
        decreases n - k,
    {
        if visitor.is_finish() {
            return ;
        }
        let node = &mut value.nodes[k];
        visitor.visit_node(node);
        k = k + 1;
    }
}

/// Applies a handler's command to the node it was returned for: a `Replace`
/// overwrites the node's kind with the given one, a `Delete` tombstones it
/// to `Nop`, no command leaves it alone; the identifier is never touched.
pub fn apply_command(value: &mut Node, command: Option<TransformCommand>)
    ensures
        final(value).id == old(value).id,
        match command {
            Some(TransformCommand::Replace(kind)) => final(value).kind == kind,
            Some(TransformCommand::Delete) => final(value).kind is Nop,
            None => final(value).kind == old(value).kind,
        },
{
    match command {
        Some(TransformCommand::Replace(kind)) => {
            value.kind = kind;
        },
        Some(TransformCommand::Delete) => {
            value.kind = NodeKind::Nop;
        },
        None => {},
    }
}

/// Dispatches on the node's kind and applies the returned transform.  The
/// node's identifier is never touched, and a tombstone gets no handler call
/// and stays a tombstone; what else becomes of the node is decided by the
/// visitor's handler, through `apply_command`.
pub fn walk_node<V: Visitor>(visitor: &mut V, value: &mut Node)
    ensures
        final(value).id == old(value).id,
        old(value).kind is Nop ==> final(value).kind is Nop,
{
    if visitor.is_finish() {
        return ;
    }
    let command = match &mut value.kind {
        NodeKind::Paragraph(v) => visitor.visit_paragraph(v),
        NodeKind::List(v) => visitor.visit_list(v),
        NodeKind::HashTag(v) => visitor.visit_hashtag(v),
        NodeKind::InternalLink(v) => visitor.visit_internal_link(v),
        NodeKind::ExternalLink(v) => visitor.visit_external_link(v),
        NodeKind::Emphasis(v) => visitor.visit_emphasis(v),
        NodeKind::Heading(v) => visitor.visit_heading(v),
        NodeKind::BlockQuate(v) => visitor.visit_block_quate(v),
        NodeKind::CodeBlock(v) => visitor.visit_code_block(v),
        NodeKind::Table(v) => visitor.visit_table(v),
        NodeKind::Image(v) => visitor.visit_image(v),
        NodeKind::Math(v) => visitor.visit_math(v),
        NodeKind::Text(v) => visitor.visit_text(v),
        NodeKind::Nop => None,
    };
    apply_command(value, command);
}

/// Visits every child in order; never adds or removes children, and leaves
/// the paragraph itself alone.
pub fn walk_paragraph<V: Visitor>(visitor: &mut V, value: &mut Paragraph) -> (r: Option<
    TransformCommand,
>)
    ensures
        final(value).children@.len() == old(value).children@.len(),
        r is None,
{
    let n = value.children.len();
    let mut k: usize = 0;
    while k < n
        invariant
            k <= n,
            value.children@.len() == n,
            value.children@.len() == old(value).children@.len(),
        decreases n - k,
    {
        if visitor.is_finish() {
            return None;
        }
        let node = &mut value.children[k];
        visitor.visit_node(node);
        k = k + 1;
    }
    None
}

} // verus!
