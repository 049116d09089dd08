use vstd::prelude::*;

verus! {

/// The root of a parsed source file: its top-level instructions in source order.
#[derive(Debug)]
pub struct Program {
    pub instructions: Vec<TopLevelInstruction>,
}

/// One top-level item of a source file.
///
/// Only function definitions and the end-of-input marker are built by the
/// parser; the other variants are placeholders for constructs that are
/// recognised but not lowered yet.
#[derive(Debug)]
pub enum TopLevelInstruction {
    FunctionDefinition(FunctionDefinition),
    StructDefinition,
    EnumDefinition,
    Import,
    ImplDefinition,
    TraitDefinition,
    Statement(Statement),
    Expression,
    EOI,
}

#[derive(PartialEq, Eq, Structural, Clone, Copy, Debug)]
pub enum Locality {
    Local,
    Global,
}

#[derive(PartialEq, Eq, Structural, Clone, Copy, Debug)]
pub enum Exclusivity {
    Shared,
    Exclusive,
    Unique,
}

#[derive(PartialEq, Eq, Structural, Clone, Copy, Debug)]
pub enum Visibility {
    Public,
    Private,
}

#[derive(PartialEq, Eq, Structural, Clone, Copy, Debug)]
pub enum Mutability {
    Mutable,
    Immutable,
}

#[derive(Debug)]
pub struct FunctionParameter {
    pub locality: Locality,
    pub exclusivity: Exclusivity,
    pub mutability: Mutability,
    pub name: String,
    pub type_: Type,
}

#[derive(Debug)]
pub enum Type {
    Integer { signed: bool, size: usize },
    Float { size: usize },
    Boolean,
    String(String),
    UserDefined(UserDefinedType),
    Inferred,
}

#[derive(Debug)]
pub struct FunctionDefinition {
    pub visibility: Visibility,
    pub locality: Locality,
    pub name: String,
    pub parameters: Vec<FunctionParameter>,
    pub generic_parameters: Option<Vec<String>>,
    pub return_type: Type,
    pub body: BlockExpr,
}

#[derive(Debug)]
pub struct UserDefinedType {
    pub name: String,
    pub generic_parameters: Option<Vec<String>>,
}

/// A statement or an expression inside a block.
#[derive(Debug)]
pub enum Command {
    Statement(Statement),
    Expression(Expression),
}

#[derive(Debug)]
pub enum Statement {
    Declaration(DeclarationStmt),
    Assignment(AssignmentStmt),
    Return(ReturnStmt),
    Expression(Expression),
}

#[derive(Debug)]
pub struct DeclarationStmt {}

#[derive(Debug)]
pub struct AssignmentStmt {}

#[derive(Debug)]
pub struct ReturnStmt {}

/// An expression tree. A float literal keeps the digits it was written with.
#[derive(Debug)]
pub enum Expression {
    Integer(i64),
    Float(String),
    Binary(BinaryExpr),
    Block(BlockExpr),
}

#[derive(Debug)]
pub struct BlockExpr {
    pub commands: Vec<Command>,
}

#[derive(Debug)]
pub struct BinaryExpr {
    pub lhs: Box<Expression>,
    pub op: Op,
    pub rhs: Box<Expression>,
}

#[derive(PartialEq, Eq, Structural, Clone, Copy, Debug)]
pub enum Op {
    Add,
    Subtract,
    Multiply,
    Divide,
    Mod,
    Power,
    ShiftLeft,
    ShiftRight,
    BitwiseAnd,
    BitwiseOr,
    Xor,
    Not,
    LessThan,
    GreaterThan,
    Equal,
    LessThanOrEqual,
    GreaterThanOrEqual,
    NotEqual,
}

/// The mathematical value of a type annotation: names as character sequences.
pub enum TypeModel {
    Integer { signed: bool, size: nat },
    Float { size: nat },
    Boolean,
    String(Seq<char>),
    UserDefined { name: Seq<char>, generic_parameters: Option<Seq<Seq<char>>> },
    Inferred,
}

pub open spec fn names_view(v: Vec<String>) -> Seq<Seq<char>> {
    v@.map_values(|s: String| s@)
}

pub open spec fn generics_view(g: Option<Vec<String>>) -> Option<Seq<Seq<char>>> {
    match g {
        Some(v) => Some(names_view(v)),
        None => None,
    }
}

impl View for Type {
    type V = TypeModel;

    open spec fn view(&self) -> TypeModel {
        match self {
            Type::Integer { signed, size } => TypeModel::Integer { signed: *signed, size: *size as nat },
            Type::Float { size } => TypeModel::Float { size: *size as nat },
            Type::Boolean => TypeModel::Boolean,
            Type::String(s) => TypeModel::String(s@),
            Type::UserDefined(u) => TypeModel::UserDefined {
                name: u.name@,
                generic_parameters: generics_view(u.generic_parameters),
            },
            Type::Inferred => TypeModel::Inferred,
        }
    }
}

/// The mathematical value of an expression tree.
pub enum ExprModel {
    Integer(int),
    Float(Seq<char>),
    Binary(Box<ExprModel>, Op, Box<ExprModel>),
    Block(nat),
}

pub open spec fn expr_model(e: Expression) -> ExprModel
    decreases e,
{
    match e {
        Expression::Integer(i) => ExprModel::Integer(i as int),
        Expression::Float(s) => ExprModel::Float(s@),
        Expression::Binary(b) => ExprModel::Binary(
            Box::new(expr_model(*b.lhs)),
            b.op,
            Box::new(expr_model(*b.rhs)),
        ),
        Expression::Block(b) => ExprModel::Block(b.commands@.len()),
    }
}

impl View for Expression {
    type V = ExprModel;

    open spec fn view(&self) -> ExprModel {
        expr_model(*self)
    }
}

/// The mathematical value of a function parameter.
pub struct ParamModel {
    pub locality: Locality,
    pub exclusivity: Exclusivity,
    pub mutability: Mutability,
    pub name: Seq<char>,
    pub type_: TypeModel,
}

impl View for FunctionParameter {
    type V = ParamModel;

    open spec fn view(&self) -> ParamModel {
        ParamModel {
            locality: self.locality,
            exclusivity: self.exclusivity,
            mutability: self.mutability,
            name: self.name@,
            type_: self.type_@,
        }
    }
}

pub open spec fn params_view(v: Vec<FunctionParameter>) -> Seq<ParamModel> {
    v@.map_values(|p: FunctionParameter| p@)
}

/// The mathematical value of a function definition; the body is given by its
/// number of commands.
pub struct FunctionModel {
    pub visibility: Visibility,
    pub locality: Locality,
    pub name: Seq<char>,
    pub parameters: Seq<ParamModel>,
    pub generic_parameters: Option<Seq<Seq<char>>>,
    pub return_type: TypeModel,
    pub body_len: nat,
}

impl View for FunctionDefinition {
    type V = FunctionModel;

    open spec fn view(&self) -> FunctionModel {
        FunctionModel {
            visibility: self.visibility,
            locality: self.locality,
            name: self.name@,
            parameters: params_view(self.parameters),
            generic_parameters: generics_view(self.generic_parameters),
            return_type: self.return_type@,
            body_len: self.body.commands@.len(),
        }
    }
}

/// The mathematical value of a top-level instruction.
pub enum InstructionModel {
    Function(FunctionModel),
    EOI,
    Other,
}

impl View for TopLevelInstruction {
    type V = InstructionModel;

    open spec fn view(&self) -> InstructionModel {
        match self {
            TopLevelInstruction::FunctionDefinition(f) => InstructionModel::Function(f@),
            TopLevelInstruction::EOI => InstructionModel::EOI,
            _ => InstructionModel::Other,
        }
    }
}

impl View for Program {
    type V = Seq<InstructionModel>;

    open spec fn view(&self) -> Seq<InstructionModel> {
        self.instructions@.map_values(|i: TopLevelInstruction| i@)
    }
}

} // verus!
