//! The control-flow-graph intermediate representation that the backend
//! consumes. The host front end builds these values; this crate only reads
//! them.
//!
//! A function body is an ordered list of basic blocks; a block is an ordered
//! list of statements closed by exactly one terminator. Storage locations
//! (lvalues) are numbered by class: arguments, named locals and anonymous
//! temporaries each carry a stable index within their class.

use vstd::prelude::*;

verus! {

/// A two-part item identifier: the defining module ("krate") and the local
/// index within it. Identifies one function or static item of the program.
#[derive(Clone, Copy, Debug, PartialEq, Eq, Structural)]
pub struct ItemId {
    pub krate: u32,
    pub index: u32,
}

/// Whether a reference permits writing through it.
#[derive(Clone, Copy, PartialEq, Eq, Structural)]
pub enum Mutability {
    Shared,
    Mutable,
}

/// A description of one storage location.
pub enum Lvalue {
    /// A named local variable, by index.
    Var(u32),
    /// An anonymous temporary, by index.
    Temp(u32),
    /// A function argument, by index.
    Arg(u32),
    /// A static item.
    Static(ItemId),
    /// The slot holding the function's return value.
    ReturnPointer,
    /// A projection (dereference, field or index) applied to a base lvalue.
    Projection(Box<Projection>),
}

/// A base lvalue together with one projection element applied to it.
pub struct Projection {
    pub base: Lvalue,
    pub elem: ProjectionElem,
}

/// One step of a projection chain.
pub enum ProjectionElem {
    /// Read or write through a reference.
    Deref,
    /// Select a declared field, by its declared index.
    Field(u32),
    /// Select an element by a computed index.
    Index(Operand),
}

/// A compile-time constant.
pub enum Literal {
    /// A reference to an item (a function or a static).
    Item(ItemId),
    /// An integer value.
    Integer(u64),
    /// A boolean value.
    Bool(bool),
    /// A string. With `raw` set the text is spliced verbatim into the output,
    /// unquoted and unescaped: the front end uses this to embed hand-written
    /// target-language snippets. Otherwise the text is quoted and escaped.
    Str { text: String, raw: bool },
}

/// Either a read of a storage location or a constant.
pub enum Operand {
    Consume(Lvalue),
    Constant(Literal),
}

/// A binary operator of the source IR.
#[derive(Clone, Copy, PartialEq, Eq, Structural)]
pub enum BinOp {
    Add,
    Sub,
    Mul,
    Div,
    Rem,
    BitXor,
    BitAnd,
    BitOr,
    Shl,
    Shr,
    Eq,
    Lt,
    Le,
    Ne,
    Ge,
    Gt,
}

/// A unary operator of the source IR.
#[derive(Clone, Copy, PartialEq, Eq, Structural)]
pub enum UnOp {
    Not,
    Neg,
}

/// What shape an aggregate rvalue builds.
pub enum AggregateKind {
    /// An ordered sequence: a tuple or an array.
    Sequence,
    /// One variant of a tagged sum type: the numeric discriminant and the
    /// declared index of each field, in declared order. The field list is
    /// zipped with the aggregate's operands.
    Variant { tag: u64, fields: Vec<u32> },
}

/// A value-producing computation.
pub enum Rvalue {
    /// Read an operand.
    Use(Operand),
    /// Take a reference to a storage location.
    Ref(Mutability, Lvalue),
    /// The length of the sequence held at a storage location.
    Len(Lvalue),
    /// A cast; the target runtime coerces, so the operand passes through.
    Cast(Operand),
    /// A binary operation.
    BinaryOp(BinOp, Operand, Operand),
    /// A binary operation with an overflow check in the source IR; the check
    /// is not preserved by this backend.
    CheckedBinaryOp(BinOp, Operand, Operand),
    /// A unary operation.
    UnaryOp(UnOp, Operand),
    /// A fresh heap cell.
    Box,
    /// An aggregate value built from ordered operands.
    Aggregate(AggregateKind, Vec<Operand>),
}

/// One statement of a basic block.
pub enum Statement {
    /// Store the rvalue into the lvalue.
    Assign(Lvalue, Rvalue),
    /// Store a numeric tag into the lvalue's discriminant field.
    SetDiscriminant(Lvalue, u64),
}

/// The single closing jump of a basic block. Targets are indices into the
/// owning body's block list.
#[allow(inconsistent_fields)]
pub enum Terminator {
    /// Jump to one block.
    Goto { target: usize },
    /// Two-way branch on a boolean operand.
    If { cond: Operand, then_target: usize, else_target: usize },
    /// Dispatch on the discriminant field of a tagged value: one (tag, target)
    /// pair per declared variant.
    Switch { discr: Lvalue, targets: Vec<(u64, usize)> },
    /// Dispatch on an arbitrary operand: one (value, target) pair per case,
    /// and a default target.
    SwitchInt { discr: Operand, targets: Vec<(Literal, usize)>, otherwise: usize },
    /// Unwinding propagation; not modeled, a silent exit.
    Resume,
    /// Return the value held in the return slot.
    Return,
    /// Statically unreachable; reaching it at run time is a defect of the
    /// source program and must be loud.
    Unreachable,
    /// Release the storage at a location, then jump.
    Drop { location: Lvalue, target: usize },
    /// Overwrite the storage at a location with an operand, then jump.
    DropAndReplace { location: Lvalue, value: Operand, target: usize },
    /// Call `func` with `args`. With a destination, store the result and jump
    /// to the continuation block; without one, the call diverges.
    Call { func: Operand, args: Vec<Operand>, destination: Option<(Lvalue, usize)> },
}

/// One basic block: straight-line statements closed by one terminator.
pub struct BasicBlockData {
    pub statements: Vec<Statement>,
    pub terminator: Terminator,
}

/// One function body. Declared storage is carried as per-class counts, which
/// is all that emission needs: names are derived from class and index. The
/// block at index 0 is the entry block.
pub struct Body {
    /// How many arguments the function declares.
    pub arg_count: u32,
    /// How many named local variables the function declares.
    pub var_count: u32,
    /// How many anonymous temporaries the function declares.
    pub temp_count: u32,
    /// How many promoted constant slots the body carries. Unsupported: any
    /// nonzero count is a fatal precondition violation.
    pub promoted_count: u32,
    /// How many closure captures the body carries. Unsupported likewise.
    pub upvar_count: u32,
    pub basic_blocks: Vec<BasicBlockData>,
}

/// One item definition: an identifier with its function body.
pub struct Definition {
    pub id: ItemId,
    pub body: Body,
}

/// The item-identifier-to-body lookup that the host front end supplies.
pub struct Program {
    pub defs: Vec<Definition>,
}

impl Program {
    /// The identifiers of the defined items, in definition order.
    pub open spec fn spec_ids(&self) -> Seq<ItemId> {
        self.defs@.map(|i: int, d: Definition| d.id)
    }

    /// Whether `id` names a definition of this program.
    pub open spec fn spec_defines(&self, id: ItemId) -> bool {
        self.spec_ids().contains(id)
    }

    /// The body defined for `id` (the first, where ill-formed input repeats
    /// an identifier).
    pub open spec fn spec_body_of(&self, id: ItemId) -> Body
        recommends
            self.spec_defines(id),
    {
        self.defs@[self.spec_ids().index_of_first(id)->0].body
    }

    /// Looks `id` up among the definitions.
    pub fn lookup(&self, id: ItemId) -> (r: Option<&Body>)
        ensures
            match r {
                Some(body) => self.spec_defines(id) && *body == self.spec_body_of(id),
                None => !self.spec_defines(id),
            },
    {
        let mut i: usize = 0;
        while i < self.defs.len()
            invariant
                i <= self.defs@.len(),
                forall|j: int| 0 <= j < i ==> self.spec_ids()[j] != id,
            decreases self.defs@.len() - i,
        {
            if self.defs[i].id == id {
                proof {
                    assert(self.spec_ids()[i as int] == id);
                    self.spec_ids().index_of_first_ensures(id);
                }
                return Some(&self.defs[i].body);
            }
            i = i + 1;
        }
        None
    }
}

} // verus!
