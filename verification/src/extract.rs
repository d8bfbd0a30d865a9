//! Item extraction: from the syntax tree of a source file to its coverage
//! items.

use vstd::prelude::*;
use crate::item::{CoverageItem, ItemKind, SourceRange};

verus! {

/// What a syntax tree node is, as far as coverage goes.
#[derive(Clone, Copy, Debug, PartialEq, Eq, Structural)]
pub enum NodeKind {
    /// A simple statement.
    Statement,
    /// The condition of a branch.
    BranchCondition,
    /// A declaration, which marks its line.
    Declaration,
    /// Anything else: it yields no item, but its children may.
    Other,
}

/// The node types of the compiler's syntax tree.
#[derive(Clone, Copy, Debug, PartialEq, Eq, Structural)]
pub enum NodeType {
    // Expressions
    Assignment,
    BinaryOperation,
    Conditional,
    ElementaryTypeNameExpression,
    FunctionCall,
    FunctionCallOptions,
    Identifier,
    IndexAccess,
    IndexRangeAccess,
    Literal,
    MemberAccess,
    NewExpression,
    TupleExpression,
    UnaryOperation,
    // Statements
    Block,
    Break,
    Continue,
    DoWhileStatement,
    EmitStatement,
    ExpressionStatement,
    ForStatement,
    IfStatement,
    InlineAssembly,
    PlaceholderStatement,
    Return,
    RevertStatement,
    TryStatement,
    UncheckedBlock,
    VariableDeclarationStatement,
    VariableDeclaration,
    WhileStatement,
    // Assembly statements
    YulAssignment,
    YulBlock,
    YulBreak,
    YulContinue,
    YulExpressionStatement,
    YulLeave,
    YulForLoop,
    YulFunctionDefinition,
    YulIf,
    YulSwitch,
    YulVariableDeclaration,
    // Assembly expressions
    YulFunctionCall,
    YulIdentifier,
    YulLiteral,
    YulLiteralValue,
    YulHexValue,
    // Definitions
    ContractDefinition,
    FunctionDefinition,
    EventDefinition,
    ErrorDefinition,
    ModifierDefinition,
    StructDefinition,
    EnumDefinition,
    UserDefinedValueTypeDefinition,
    // Directives
    PragmaDirective,
    ImportDirective,
    UsingForDirective,
    // The rest
    SourceUnit,
    InheritanceSpecifier,
    ElementaryTypeName,
    FunctionTypeName,
    ParameterList,
    TryCatchClause,
    ModifierInvocation,
    /// A node type that is not known.
    Unknown,
}

/// What a node of type `node_type` is, as far as coverage goes. Statements
/// are the simple ones, which hold no statement themselves; a construct that
/// chooses between paths counts as a branch condition; the declarations that
/// mark lines are those of functions, modifiers and variables.
pub open spec fn kind_of(node_type: NodeType) -> NodeKind {
    match node_type {
        NodeType::Break
        | NodeType::Continue
        | NodeType::EmitStatement
        | NodeType::ExpressionStatement
        | NodeType::InlineAssembly
        | NodeType::PlaceholderStatement
        | NodeType::Return
        | NodeType::RevertStatement
        | NodeType::VariableDeclarationStatement
        | NodeType::YulAssignment
        | NodeType::YulBreak
        | NodeType::YulContinue
        | NodeType::YulExpressionStatement
        | NodeType::YulLeave
        | NodeType::YulVariableDeclaration => NodeKind::Statement,
        NodeType::Conditional
        | NodeType::DoWhileStatement
        | NodeType::ForStatement
        | NodeType::IfStatement
        | NodeType::TryStatement
        | NodeType::WhileStatement
        | NodeType::YulForLoop
        | NodeType::YulIf
        | NodeType::YulSwitch => NodeKind::BranchCondition,
        NodeType::FunctionDefinition
        | NodeType::ModifierDefinition
        | NodeType::VariableDeclaration
        | NodeType::YulFunctionDefinition => NodeKind::Declaration,
        _ => NodeKind::Other,
    }
}

impl NodeType {
    /// What a node of this type is, as far as coverage goes.
    pub fn kind(self) -> (r: NodeKind)
        ensures
            r == kind_of(self),
    {
        match self {
            NodeType::Break
            | NodeType::Continue
            | NodeType::EmitStatement
            | NodeType::ExpressionStatement
            | NodeType::InlineAssembly
            | NodeType::PlaceholderStatement
            | NodeType::Return
            | NodeType::RevertStatement
            | NodeType::VariableDeclarationStatement
            | NodeType::YulAssignment
            | NodeType::YulBreak
            | NodeType::YulContinue
            | NodeType::YulExpressionStatement
            | NodeType::YulLeave
            | NodeType::YulVariableDeclaration => NodeKind::Statement,
            NodeType::Conditional
            | NodeType::DoWhileStatement
            | NodeType::ForStatement
            | NodeType::IfStatement
            | NodeType::TryStatement
            | NodeType::WhileStatement
            | NodeType::YulForLoop
            | NodeType::YulIf
            | NodeType::YulSwitch => NodeKind::BranchCondition,
            NodeType::FunctionDefinition
            | NodeType::ModifierDefinition
            | NodeType::VariableDeclaration
            | NodeType::YulFunctionDefinition => NodeKind::Declaration,
            _ => NodeKind::Other,
        }
    }
}

/// A node of a source file's syntax tree: what it is, the bytes it spans and
/// the nodes below it, in source order.
#[derive(Debug)]
pub struct AstNode {
    pub kind: NodeKind,
    pub range: SourceRange,
    pub children: Vec<AstNode>,
}

/// A place in the source that gets a coverage item.
pub struct Marker {
    pub kind: ItemKind,
    pub range: SourceRange,
}

/// The kind of item that a node of `kind` yields, if it yields one.
pub open spec fn item_kind(kind: NodeKind) -> Option<ItemKind> {
    match kind {
        NodeKind::Statement => Some(ItemKind::Statement),
        NodeKind::BranchCondition => Some(ItemKind::Branch),
        NodeKind::Declaration => Some(ItemKind::Line),
        NodeKind::Other => None,
    }
}

/// The marker of the node itself: one or none.
pub open spec fn own_marker(node: AstNode) -> Seq<Marker> {
    match item_kind(node.kind) {
        Some(kind) => seq![Marker { kind, range: node.range }],
        None => Seq::empty(),
    }
}

/// The markers of a tree in depth-first order: a node comes before its
/// children, and the children come in source order.
pub open spec fn markers(node: AstNode) -> Seq<Marker>
    decreases node,
{
    own_marker(node) + markers_of_all(node.children@)
}

/// The markers of several trees, one tree after the other.
pub open spec fn markers_of_all(nodes: Seq<AstNode>) -> Seq<Marker>
    decreases nodes,
{
    if nodes.len() == 0 {
        Seq::empty()
    } else {
        markers_of_all(nodes.drop_last()) + markers(nodes.last())
    }
}

/// Fresh items for `markers`, numbered in order from zero.
pub open spec fn numbered(markers: Seq<Marker>) -> Seq<CoverageItem> {
    Seq::new(
        markers.len(),
        |i: int|
            CoverageItem { kind: markers[i].kind, index: i as usize, range: markers[i].range, hits: 0 },
    )
}

/// The coverage items of the source file with syntax tree `ast`.
pub open spec fn extracted(ast: AstNode) -> Seq<CoverageItem> {
    numbered(markers(ast))
}

impl NodeKind {
    /// The kind of item that such a node yields, if it yields one.
    pub fn item_kind(self) -> (r: Option<ItemKind>)
        ensures
            r == item_kind(self),
    {
        match self {
            NodeKind::Statement => Some(ItemKind::Statement),
            NodeKind::BranchCondition => Some(ItemKind::Branch),
            NodeKind::Declaration => Some(ItemKind::Line),
            NodeKind::Other => None,
        }
    }
}

impl AstNode {
    pub fn new(kind: NodeKind, range: SourceRange, children: Vec<AstNode>) -> (r: AstNode)
        ensures
            r == (AstNode { kind, range, children }),
    {
        AstNode { kind, range, children }
    }

    /// A node without children.
    pub fn leaf(kind: NodeKind, range: SourceRange) -> (r: AstNode)
        ensures
            r.kind == kind,
            r.range == range,
            r.children@ == Seq::<AstNode>::empty(),
    {
        AstNode { kind, range, children: Vec::new() }
    }
}

/// Appends the items of the tree below `node` to `items`, which hold the
/// items of the markers `seen` so far.
fn visit(node: &AstNode, items: &mut Vec<CoverageItem>, Ghost(seen): Ghost<Seq<Marker>>)
    requires
        old(items)@ == numbered(seen),
    ensures
        final(items)@ == numbered(seen + markers(*node)),
    decreases node,
{
    match node.kind.item_kind() {
        Some(kind) => {
            let index = items.len();
            items.push(CoverageItem { kind, index, range: node.range, hits: 0 });
        },
        None => {},
    }
    let mut i: usize = 0;
    while i < node.children.len()
        invariant
            i <= node.children.len(),
            items@ == numbered(
                seen + own_marker(*node) + markers_of_all(node.children@.take(i as int)),
            ),
        decreases node.children.len() - i,
    {
        let ghost before = seen + own_marker(*node) + markers_of_all(node.children@.take(i as int));
        visit(&node.children[i], items, Ghost(before));
        proof {
            assert(node.children@.take(i + 1).drop_last() == node.children@.take(i as int));
        }
        i += 1;
    }
    assert(node.children@.take(node.children.len() as int) == node.children@);
}

/// Extracts the coverage items of a source file from its syntax tree in one
/// depth-first walk. An item's index is its place in that walk, so the same
/// tree always gives the same items in the same order.
pub fn extract_items(ast: &AstNode) -> (items: Vec<CoverageItem>)
    ensures
        items@ == extracted(*ast),
        crate::map::indexed(items@),
        forall|i: int| 0 <= i < items.len() ==> (#[trigger] items[i]).hits == 0,
{
    let mut items: Vec<CoverageItem> = Vec::new();
    assert(items@ == numbered(Seq::<Marker>::empty()));
    visit(ast, &mut items, Ghost(Seq::empty()));
    assert forall|i: int| 0 <= i < items.len() implies (#[trigger] items[i]).index == i by {
        assert(items[i] == numbered(markers(*ast))[i]);
    }
    items
}

} // verus!
