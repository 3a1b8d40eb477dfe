//! The nodes of the AST.
//!
//! The parser produces a flat arena of nodes; nodes refer to each other by
//! [`AstIndex`], and string and numeric literals live in a constant pool
//! addressed by [`ConstantIndex`].

use vstd::prelude::*;

verus! {

/// The index of a node in the AST arena.
pub type AstIndex = u32;

/// The index of a string or numeric literal in the constant pool.
pub type ConstantIndex = u32;

/// A parsed node that can be included in the AST.
#[derive(Clone, Debug, PartialEq)]
pub enum Node {
    /// An Empty node, used for `()` empty expressions
    Empty,
    /// A single expression wrapped in parentheses
    Nested(AstIndex),
    /// An identifier
    Id(ConstantIndex),
    /// A meta identifier, e.g. `@display` or `@test my_test`
    Meta(MetaKeyId, Option<ConstantIndex>),
    /// A lookup node, and optionally the node that follows it in the
    /// lookup chain
    Lookup(LookupNode, Option<AstIndex>),
    /// A parentheses-free call on a named id, e.g. `foo 1, 2, 3`
    ///
    /// Calls with parentheses or on temporary values are parsed as Lookups
    NamedCall {
        /// The id of the function to be called
        id: ConstantIndex,
        /// The arguments to pass to the function
        args: Vec<AstIndex>,
    },
    /// The `true` keyword
    BoolTrue,
    /// The `false` keyword
    BoolFalse,
    /// The integer `0`
    Number0,
    /// The integer `1`
    Number1,
    /// An integer literal
    Int(ConstantIndex),
    /// A float literal
    Float(ConstantIndex),
    /// A string literal
    Str(AstString),
    /// A list literal, e.g. `[foo, bar, 42]`
    List(Vec<AstIndex>),
    /// A tuple literal, e.g. `(foo, bar, 42)`
    ///
    /// Also used for implicit tuples, e.g. in `x = 1, 2, 3`
    Tuple(Vec<AstIndex>),
    /// A temporary tuple
    ///
    /// Used in contexts where the result is not exposed directly to the
    /// user, e.g. `x, y = 1, 2`, or match comparisons
    TempTuple(Vec<AstIndex>),
    /// A range with a defined start and end
    Range {
        /// The start of the range
        start: AstIndex,
        /// The end of the range
        end: AstIndex,
        /// Whether the end of the range includes the end value itself
        inclusive: bool,
    },
    /// A range without a defined end
    RangeFrom {
        /// The start of the range
        start: AstIndex,
    },
    /// A range without a defined start
    RangeTo {
        /// The end of the range
        end: AstIndex,
        /// Whether the end of the range includes the end value itself
        inclusive: bool,
    },
    /// The range operator without defined start or end
    ///
    /// Used when indexing a list or tuple to take the full contents.
    RangeFull,
    /// A map literal, with a series of keys and optional values
    MapLiteral(Vec<(MapKey, Option<AstIndex>)>),
    /// The main block node, typically the root of the AST
    MainBlock {
        /// The main block's body as a series of expressions
        body: Vec<AstIndex>,
        /// The number of locally assigned values in the main block,
        /// telling the compiler how many registers are needed
        local_count: usize,
    },
    /// A block node: an indented block that shares the frame it is in
    Block(Vec<AstIndex>),
    /// A function node
    Function(Function),
    /// An import expression,
    /// e.g. `from foo.fun import baz.bar, caz.car.cax`
    Import {
        /// The series of items to import
        items: Vec<Vec<ImportItemNode>>,
        /// Where the items should be imported from
        ///
        /// An empty list implies that import without `from` was used
        from: Vec<ImportItemNode>,
    },
    /// A single-assignment expression
    Assign {
        /// The target of the assignment
        target: AssignTarget,
        /// The operator to use, e.g. `=`, `+=`
        op: AssignOp,
        /// The expression to be assigned
        expression: AstIndex,
    },
    /// A multiple-assignment expression,
    /// e.g. `x, y = foo()`, or `foo, bar, baz = 1, 2, 3`
    MultiAssign {
        /// The targets of the assignment
        targets: Vec<AssignTarget>,
        /// The expression to be assigned
        expression: AstIndex,
    },
    /// A unary operation
    UnaryOp {
        /// The operator to use
        op: AstUnaryOp,
        /// The value used in the operation
        value: AstIndex,
    },
    /// A binary operation
    BinaryOp {
        /// The operator to use
        op: AstBinaryOp,
        /// The left-hand side of the operation
        lhs: AstIndex,
        /// The right-hand side of the operation
        rhs: AstIndex,
    },
    /// An if expression
    If(AstIf),
    /// A match expression
    Match {
        /// The expression that will be matched against
        expression: AstIndex,
        /// The series of arms that match against the expression
        arms: Vec<MatchArm>,
    },
    /// A switch expression
    Switch(Vec<SwitchArm>),
    /// The `_` operator: a placeholder for unused function arguments or
    /// ignored unpacked values
    Wildcard,
    /// The `...` operator: captures variadic arguments and unpacks list
    /// values
    Ellipsis(Option<ConstantIndex>),
    /// A `for` loop
    For(AstFor),
    /// A `loop` expression
    Loop {
        /// The loop's body
        body: AstIndex,
    },
    /// A `while` loop
    While {
        /// The condition for the while loop
        condition: AstIndex,
        /// The body of the while loop
        body: AstIndex,
    },
    /// An `until` loop
    Until {
        /// The condition for the until loop
        condition: AstIndex,
        /// The body of the until loop
        body: AstIndex,
    },
    /// The break keyword
    Break,
    /// The continue keyword
    Continue,
    /// A return expression, with optional return value
    Return(Option<AstIndex>),
    /// A try expression
    Try(AstTry),
    /// A throw expression
    Throw(AstIndex),
    /// A yield expression
    Yield(AstIndex),
    /// A debug expression
    Debug {
        /// The stored string of the debugged expression, used when
        /// printing the result
        expression_string: ConstantIndex,
        /// The expression that should be debugged
        expression: AstIndex,
    },
}

/// The name of a node's kind, as shown in diagnostics.
pub open spec fn spec_node_name(n: Node) -> Seq<char> {
    match n {
        Node::Empty => "Empty"@,
        Node::Nested(..) => "Nested"@,
        Node::Id(..) => "Id"@,
        Node::Meta(..) => "Meta"@,
        Node::Lookup(..) => "Lookup"@,
        Node::BoolTrue => "BoolTrue"@,
        Node::BoolFalse => "BoolFalse"@,
        Node::Float(..) => "Float"@,
        Node::Int(..) => "Int"@,
        Node::Number0 => "Number0"@,
        Node::Number1 => "Number1"@,
        Node::Str(..) => "Str"@,
        Node::List(..) => "List"@,
        Node::Tuple(..) => "Tuple"@,
        Node::TempTuple(..) => "TempTuple"@,
        Node::Range { .. } => "Range"@,
        Node::RangeFrom { .. } => "RangeFrom"@,
        Node::RangeTo { .. } => "RangeTo"@,
        Node::RangeFull => "RangeFull"@,
        Node::MapLiteral(..) => "Map"@,
        Node::MainBlock { .. } => "MainBlock"@,
        Node::Block(..) => "Block"@,
        Node::Function(..) => "Function"@,
        Node::NamedCall { .. } => "NamedCall"@,
        Node::Import { .. } => "Import"@,
        Node::Assign { .. } => "Assign"@,
        Node::MultiAssign { .. } => "MultiAssign"@,
        Node::UnaryOp { .. } => "UnaryOp"@,
        Node::BinaryOp { .. } => "BinaryOp"@,
        Node::If(..) => "If"@,
        Node::Match { .. } => "Match"@,
        Node::Switch(..) => "Switch"@,
        Node::Wildcard => "Wildcard"@,
        Node::Ellipsis(..) => "Ellipsis"@,
        Node::For(..) => "For"@,
        Node::While { .. } => "While"@,
        Node::Until { .. } => "Until"@,
        Node::Loop { .. } => "Loop"@,
        Node::Break => "Break"@,
        Node::Continue => "Continue"@,
        Node::Return(..) => "Return"@,
        Node::Try(..) => "Try"@,
        Node::Throw(..) => "Throw"@,
        Node::Yield(..) => "Yield"@,
        Node::Debug { .. } => "Debug"@,
    }
}

impl Node {
    /// The name of the node's kind, for diagnostics.
    pub fn name(&self) -> (r: &'static str)
        ensures
            r@ == spec_node_name(*self),
    {
        match self {
            Node::Empty => "Empty",
            Node::Nested(..) => "Nested",
            Node::Id(..) => "Id",
            Node::Meta(..) => "Meta",
            Node::Lookup(..) => "Lookup",
            Node::BoolTrue => "BoolTrue",
            Node::BoolFalse => "BoolFalse",
            Node::Float(..) => "Float",
            Node::Int(..) => "Int",
            Node::Number0 => "Number0",
            Node::Number1 => "Number1",
            Node::Str(..) => "Str",
            Node::List(..) => "List",
            Node::Tuple(..) => "Tuple",
            Node::TempTuple(..) => "TempTuple",
            Node::Range { .. } => "Range",
            Node::RangeFrom { .. } => "RangeFrom",
            Node::RangeTo { .. } => "RangeTo",
            Node::RangeFull => "RangeFull",
            Node::MapLiteral(..) => "Map",
            Node::MainBlock { .. } => "MainBlock",
            Node::Block(..) => "Block",
            Node::Function(..) => "Function",
            Node::NamedCall { .. } => "NamedCall",
            Node::Import { .. } => "Import",
            Node::Assign { .. } => "Assign",
            Node::MultiAssign { .. } => "MultiAssign",
            Node::UnaryOp { .. } => "UnaryOp",
            Node::BinaryOp { .. } => "BinaryOp",
            Node::If(..) => "If",
            Node::Match { .. } => "Match",
            Node::Switch(..) => "Switch",
            Node::Wildcard => "Wildcard",
            Node::Ellipsis(..) => "Ellipsis",
            Node::For(..) => "For",
            Node::While { .. } => "While",
            Node::Until { .. } => "Until",
            Node::Loop { .. } => "Loop",
            Node::Break => "Break",
            Node::Continue => "Continue",
            Node::Return(..) => "Return",
            Node::Try(..) => "Try",
            Node::Throw(..) => "Throw",
            Node::Yield(..) => "Yield",
            Node::Debug { .. } => "Debug",
        }
    }
}

impl Default for Node {
    fn default() -> (r: Node)
        ensures
            r is Empty,
    {
        Node::Empty
    }
}

/// A function definition
#[derive(Clone, Debug, PartialEq)]
pub struct Function {
    /// The function's arguments
    pub args: Vec<AstIndex>,
    /// The number of locally assigned values, used by the compiler to
    /// reserve registers at the start of the frame
    pub local_count: usize,
    /// Any non-local values that are accessed in the function, to be
    /// resolved by the compiler as captures or module references
    pub accessed_non_locals: Vec<ConstantIndex>,
    /// The function's body
    pub body: AstIndex,
    /// True if the function uses `self` as its first argument
    pub is_instance_function: bool,
    /// True if the function's arguments end with a variadic `...` argument
    pub is_variadic: bool,
    /// True if the function is a generator: its body contains a `yield`
    pub is_generator: bool,
}

/// A string definition
#[derive(Clone, Debug, PartialEq)]
pub struct AstString {
    /// Indicates if single or double quotation marks were used
    pub quotation_mark: QuotationMark,
    /// A series of string nodes: literals and template expressions that
    /// are joined together when the string is built
    pub nodes: Vec<StringNode>,
}

/// A node in a string definition
#[derive(Clone, Debug, PartialEq)]
pub enum StringNode {
    /// A string literal
    Literal(ConstantIndex),
    /// An expression that should be evaluated and inserted into the string
    Expr(AstIndex),
}

/// A for loop definition
#[derive(Clone, Debug, PartialEq)]
pub struct AstFor {
    /// The optional arguments that capture each iteration's output values
    pub args: Vec<Option<ConstantIndex>>,
    /// The expression that produces an iterable value
    pub iterable: AstIndex,
    /// The body of the for loop
    pub body: AstIndex,
}

/// An if expression definition
#[derive(Clone, Debug, PartialEq)]
pub struct AstIf {
    /// The if expression's condition
    pub condition: AstIndex,
    /// The if expression's `then` branch
    pub then_node: AstIndex,
    /// An optional series of `else if` conditions and branches
    pub else_if_blocks: Vec<(AstIndex, AstIndex)>,
    /// An optional `else` branch
    pub else_node: Option<AstIndex>,
}

/// An operation used in UnaryOp expressions
#[derive(Clone, Copy, Debug, PartialEq, Eq, Structural)]
pub enum AstUnaryOp {
    Negate,
    Not,
}

/// An operation used in BinaryOp expressions
#[derive(Clone, Copy, Debug, PartialEq, Eq, Structural)]
pub enum AstBinaryOp {
    Add,
    Subtract,
    Multiply,
    Divide,
    Modulo,
    Equal,
    NotEqual,
    Less,
    LessOrEqual,
    Greater,
    GreaterOrEqual,
    And,
    Or,
    Pipe,
}

/// A try expression definition
#[derive(Clone, Debug, PartialEq)]
pub struct AstTry {
    /// The block that is wrapped by the try
    pub try_block: AstIndex,
    /// The optional identifier that will receive a caught error
    pub catch_arg: Option<ConstantIndex>,
    /// The try expression's catch block
    pub catch_block: AstIndex,
    /// An optional `finally` block
    pub finally_block: Option<AstIndex>,
}

/// The operation used in an assignment expression
#[derive(Clone, Copy, Debug, PartialEq, Eq, Structural)]
pub enum AssignOp {
    /// +=
    Add,
    /// -=
    Subtract,
    /// *=
    Multiply,
    /// /=
    Divide,
    /// %=
    Modulo,
    /// =
    Equal,
}

/// The scope for an assignment
#[derive(Clone, Copy, Debug, PartialEq, Eq, Structural)]
pub enum Scope {
    /// The export scope, used in an `export` expression to assign to the
    /// module's exports map
    Export,
    /// The local scope, the default in assignments
    Local,
}

/// A node in a lookup chain
///
/// Lookups are expressions that access values from identifiers and then,
/// as the chain continues, from the temporary results: some series of `.`
/// accesses, indexing operations, and function calls.
#[derive(Clone, Debug, PartialEq)]
pub enum LookupNode {
    /// The root of the lookup chain
    Root(AstIndex),
    /// A `.` access using an identifier
    Id(ConstantIndex),
    /// A `.` access using a string
    Str(AstString),
    /// An index operation using square `[]` brackets
    Index(AstIndex),
    /// A function call
    Call {
        /// The arguments used in the function call
        args: Vec<AstIndex>,
        /// Whether parentheses are present in the function call
        ///
        /// This is not cosmetic: parentheses make a closed call, which
        /// changes how the pipe operator binds.
        /// `99 >> foo.bar 42` is equivalent to `foo.bar(42, 99)`, but
        /// `99 >> foo.bar(42)` is equivalent to `foo.bar(42)(99)`.
        with_parens: bool,
    },
}

/// An assignment target with its associated scope
#[derive(Clone, Copy, Debug, PartialEq, Eq, Structural)]
pub struct AssignTarget {
    /// The target of the assignment
    pub target_index: AstIndex,
    /// The scope of the assignment
    pub scope: Scope,
}

/// An arm in a match expression
#[derive(Clone, Debug, PartialEq)]
pub struct MatchArm {
    /// A series of match patterns
    pub patterns: Vec<AstIndex>,
    /// An optional condition for the match arm,
    /// e.g. `bar if check_condition bar then ...`
    pub condition: Option<AstIndex>,
    /// The body of the match arm
    pub expression: AstIndex,
}

/// An arm in a switch expression
#[derive(Clone, Debug, PartialEq)]
pub struct SwitchArm {
    /// An optional condition for the switch arm; `None` implies `else`,
    /// and should always appear as the last arm
    pub condition: Option<AstIndex>,
    /// The body of the switch arm
    pub expression: AstIndex,
}

/// A meta key
#[derive(Clone, Copy, Debug, PartialEq, Eq, Structural)]
pub enum MetaKeyId {
    /// @+
    Add,
    /// @-
    Subtract,
    /// @*
    Multiply,
    /// @/
    Divide,
    /// @%
    Modulo,
    /// @<
    Less,
    /// @<=
    LessOrEqual,
    /// @>
    Greater,
    /// @>=
    GreaterOrEqual,
    /// @==
    Equal,
    /// @!=
    NotEqual,
    /// @[]
    Index,
    /// @display
    Display,
    /// @iterator
    Iterator,
    /// @negate
    Negate,
    /// @not
    Not,
    /// @type
    Type,
    /// @tests
    Tests,
    /// @test test_name
    Test,
    /// @pre_test
    PreTest,
    /// @post_test
    PostTest,
    /// @main
    Main,
    /// @meta name
    Named,
    /// Unused; this entry must be last
    Invalid,
}

/// The meta key with the given ordinal, if the byte is in range: the keys
/// in declaration order, `@+` first, with `Invalid` unreachable.
pub open spec fn spec_meta_key_id(byte: u8) -> Option<MetaKeyId> {
    if byte == 0 {
        Some(MetaKeyId::Add)
    } else if byte == 1 {
        Some(MetaKeyId::Subtract)
    } else if byte == 2 {
        Some(MetaKeyId::Multiply)
    } else if byte == 3 {
        Some(MetaKeyId::Divide)
    } else if byte == 4 {
        Some(MetaKeyId::Modulo)
    } else if byte == 5 {
        Some(MetaKeyId::Less)
    } else if byte == 6 {
        Some(MetaKeyId::LessOrEqual)
    } else if byte == 7 {
        Some(MetaKeyId::Greater)
    } else if byte == 8 {
        Some(MetaKeyId::GreaterOrEqual)
    } else if byte == 9 {
        Some(MetaKeyId::Equal)
    } else if byte == 10 {
        Some(MetaKeyId::NotEqual)
    } else if byte == 11 {
        Some(MetaKeyId::Index)
    } else if byte == 12 {
        Some(MetaKeyId::Display)
    } else if byte == 13 {
        Some(MetaKeyId::Iterator)
    } else if byte == 14 {
        Some(MetaKeyId::Negate)
    } else if byte == 15 {
        Some(MetaKeyId::Not)
    } else if byte == 16 {
        Some(MetaKeyId::Type)
    } else if byte == 17 {
        Some(MetaKeyId::Tests)
    } else if byte == 18 {
        Some(MetaKeyId::Test)
    } else if byte == 19 {
        Some(MetaKeyId::PreTest)
    } else if byte == 20 {
        Some(MetaKeyId::PostTest)
    } else if byte == 21 {
        Some(MetaKeyId::Main)
    } else if byte == 22 {
        Some(MetaKeyId::Named)
    } else {
        None
    }
}

impl MetaKeyId {
    /// The meta key encoded by a byte: the key's position in declaration
    /// order; bytes at or past `Invalid` are returned unconsumed as the
    /// error.
    pub fn try_from(byte: u8) -> (r: Result<MetaKeyId, u8>)
        ensures
            byte < 23 ==> r == Ok::<MetaKeyId, u8>(spec_meta_key_id(byte)->0),
            byte >= 23 ==> r == Err::<MetaKeyId, u8>(byte),
    {
        match byte {
            0 => Ok(MetaKeyId::Add),
            1 => Ok(MetaKeyId::Subtract),
            2 => Ok(MetaKeyId::Multiply),
            3 => Ok(MetaKeyId::Divide),
            4 => Ok(MetaKeyId::Modulo),
            5 => Ok(MetaKeyId::Less),
            6 => Ok(MetaKeyId::LessOrEqual),
            7 => Ok(MetaKeyId::Greater),
            8 => Ok(MetaKeyId::GreaterOrEqual),
            9 => Ok(MetaKeyId::Equal),
            10 => Ok(MetaKeyId::NotEqual),
            11 => Ok(MetaKeyId::Index),
            12 => Ok(MetaKeyId::Display),
            13 => Ok(MetaKeyId::Iterator),
            14 => Ok(MetaKeyId::Negate),
            15 => Ok(MetaKeyId::Not),
            16 => Ok(MetaKeyId::Type),
            17 => Ok(MetaKeyId::Tests),
            18 => Ok(MetaKeyId::Test),
            19 => Ok(MetaKeyId::PreTest),
            20 => Ok(MetaKeyId::PostTest),
            21 => Ok(MetaKeyId::Main),
            22 => Ok(MetaKeyId::Named),
            _ => Err(byte),
        }
    }
}

/// A map key definition
#[derive(Clone, Debug, PartialEq)]
pub enum MapKey {
    /// An identifier
    Id(ConstantIndex),
    /// A string
    Str(AstString),
    /// A meta key; some meta keys take an extra identifier,
    /// e.g. `@test test_name`
    Meta(MetaKeyId, Option<ConstantIndex>),
}

/// The type of quotation mark used in a string literal
#[derive(Clone, Copy, Debug, PartialEq, Eq, Structural)]
pub enum QuotationMark {
    Double,
    Single,
}

/// A node in an import item, see [`Node::Import`]
#[derive(Clone, Debug, PartialEq)]
pub enum ImportItemNode {
    /// An identifier node, e.g. `import foo.bar`
    Id(ConstantIndex),
    /// A string node, e.g. `import "foo/bar"`
    Str(AstString),
}

} // verus!
