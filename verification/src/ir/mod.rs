//! Mid-level typed intermediate representation.
//!
//! A [`Program`] is a set of functions, each a control-flow graph of basic blocks:
//!
//! * Locals are mutable variables. Reads and writes go through [`Op::LocalGet`] and
//!   [`Op::LocalSet`].
//! * Expression results are temporaries ([`ValueId`]), each assigned once, by the instruction
//!   that produces it.
//! * Every basic block ends in exactly one [`Terminator`].
//! * Every value and every local carries a [`Type`].
//!
//! [`lower`](lower::lower) builds programs from checked modules, [`verify`] checks their
//! structure, and [`vm`] executes them.
//!
//! Function literals are lowered by closure conversion: each is lifted into its own
//! top-level [`Function`], which takes the closure value as a hidden first parameter, and the
//! literal's site emits an [`Op::MakeClosure`]. Captured variables live in shared cells.
use std::collections::BTreeMap;
use vstd::prelude::*;
use crate::ast::{BinOp, UnOp};
use crate::names::NameMap;
use crate::numeral::{Numeral, NumeralV};
use crate::text::{cat3, cat4, cat5, dec, dec_string};
use crate::types::{types_v, Type, TypeV};

pub mod lower;
pub mod vm;

pub use self::lower::lower;
pub use self::vm::Vm;

verus! {

broadcast use vstd::std_specs::btree::group_btree_axioms;

/// A temporary holding the result of one instruction.
pub type ValueId = u32;

/// A mutable local variable (a parameter, `local`, or loop variable). The id of a source
/// local is that of its symbol; synthetic temporaries get ids past the end of the symbol
/// table.
pub type LocalId = u32;

/// A basic block's index into a [`Function`]'s `blocks`.
pub type BlockId = u32;

/// An error raised while lowering the syntax tree.
#[derive(Clone, Debug, PartialEq, Eq)]
pub enum LowerError {
    /// A construct that is not lowered.
    Unsupported(String),
    /// An invariant that resolver and checker guarantee was violated.
    Internal(String),
}

pub ghost enum LowerErrorV {
    Unsupported(Seq<char>),
    Internal(Seq<char>),
}

impl View for LowerError {
    type V = LowerErrorV;

    open spec fn view(&self) -> LowerErrorV {
        match self {
            LowerError::Unsupported(s) => LowerErrorV::Unsupported(s@),
            LowerError::Internal(s) => LowerErrorV::Internal(s@),
        }
    }
}

/// The text of an error.
pub open spec fn error_text(e: LowerErrorV) -> Seq<char> {
    match e {
        LowerErrorV::Unsupported(s) => "unsupported in IR lowering: "@ + s,
        LowerErrorV::Internal(s) => "internal lowering error: "@ + s,
    }
}

impl LowerError {
    /// The text of this error.
    pub fn to_string(&self) -> (r: String)
        ensures
            r@ == error_text(self@),
    {
        match self {
            LowerError::Unsupported(s) => crate::text::cat2("unsupported in IR lowering: ", s.as_str()),
            LowerError::Internal(s) => crate::text::cat2("internal lowering error: ", s.as_str()),
        }
    }
}

/// A whole lowered module.
#[derive(Debug)]
pub struct Program {
    /// Functions, by declared (or synthetic) name.
    pub functions: NameMap<Function>,
    /// Top-level constants as zero-argument initializer functions, by declared name.
    pub constants: NameMap<Function>,
    /// Public surface: export name and what it refers to.
    pub exports: NameMap<ExportTarget>,
}

pub ghost struct ProgramV {
    pub functions: Seq<(Seq<char>, FunctionV)>,
    pub constants: Seq<(Seq<char>, FunctionV)>,
    pub exports: Seq<(Seq<char>, ExportTargetV)>,
}

impl View for Program {
    type V = ProgramV;

    open spec fn view(&self) -> ProgramV {
        ProgramV {
            functions: self.functions@,
            constants: self.constants@,
            exports: self.exports@,
        }
    }
}

/// What an exported name refers to within a [`Program`].
#[derive(Clone, Debug, PartialEq, Eq)]
pub enum ExportTarget {
    Function(String),
    Const(String),
}

pub ghost enum ExportTargetV {
    Function(Seq<char>),
    Const(Seq<char>),
}

impl View for ExportTarget {
    type V = ExportTargetV;

    open spec fn view(&self) -> ExportTargetV {
        match self {
            ExportTarget::Function(s) => ExportTargetV::Function(s@),
            ExportTarget::Const(s) => ExportTargetV::Const(s@),
        }
    }
}

/// A lowered function: a typed control-flow graph.
#[derive(Debug)]
pub struct Function {
    pub name: String,
    /// Parameter locals, in order. For a lifted closure, the first entry is the hidden
    /// environment parameter; the rest are the source-level parameters.
    pub params: Vec<LocalId>,
    pub ret: Type,
    /// Type of every local (parameters, source locals, synthetic temporaries).
    pub locals: BTreeMap<LocalId, Type>,
    /// Type of every value, indexed by [`ValueId`].
    pub values: Vec<Type>,
    pub blocks: Vec<Block>,
    pub entry: BlockId,
    /// Whether this is a lifted closure body.
    pub is_closure: bool,
}

pub ghost struct FunctionV {
    pub name: Seq<char>,
    pub params: Seq<LocalId>,
    pub ret: TypeV,
    pub locals: Map<LocalId, TypeV>,
    pub values: Seq<TypeV>,
    pub blocks: Seq<BlockV>,
    pub entry: BlockId,
    pub is_closure: bool,
}

/// The types of the locals.
pub open spec fn locals_v(m: Map<LocalId, Type>) -> Map<LocalId, TypeV> {
    m.map_values(|t: Type| t@)
}

/// The counterparts of a list of blocks.
pub open spec fn blocks_v(v: Seq<Block>) -> Seq<BlockV> {
    Seq::new(v.len(), |i: int| v[i]@)
}

impl View for Function {
    type V = FunctionV;

    open spec fn view(&self) -> FunctionV {
        FunctionV {
            name: self.name@,
            params: self.params@,
            ret: self.ret@,
            locals: locals_v(self.locals@),
            values: types_v(self.values@),
            blocks: blocks_v(self.blocks@),
            entry: self.entry,
            is_closure: self.is_closure,
        }
    }
}

impl Function {
    /// The type of a value.
    pub fn value_type(&self, v: ValueId) -> (r: &Type)
        requires
            v < self@.values.len(),
        ensures
            r@ == self@.values[v as int],
    {
        &self.values[v as usize]
    }
}

/// A basic block: a straight-line sequence of instructions ending in a terminator.
#[derive(Debug)]
pub struct Block {
    pub id: BlockId,
    pub instrs: Vec<Instr>,
    pub term: Terminator,
}

pub ghost struct BlockV {
    pub id: BlockId,
    pub instrs: Seq<InstrV>,
    pub term: Terminator,
}

/// The counterparts of a list of instructions.
pub open spec fn instrs_v(v: Seq<Instr>) -> Seq<InstrV> {
    Seq::new(v.len(), |i: int| v[i]@)
}

impl View for Block {
    type V = BlockV;

    open spec fn view(&self) -> BlockV {
        BlockV { id: self.id, instrs: instrs_v(self.instrs@), term: self.term }
    }
}

/// A single instruction. `dest` is set for value-producing operations and empty for effects.
#[derive(Debug)]
pub struct Instr {
    pub dest: Option<ValueId>,
    pub op: Op,
}

pub ghost struct InstrV {
    pub dest: Option<ValueId>,
    pub op: OpV,
}

impl View for Instr {
    type V = InstrV;

    open spec fn view(&self) -> InstrV {
        InstrV { dest: self.dest, op: self.op@ }
    }
}

/// An operation.
#[derive(Debug)]
pub enum Op {
    ConstNil,
    ConstBool(bool),
    ConstNumber(Numeral),
    ConstString(String),
    /// Read a local variable.
    LocalGet(LocalId),
    /// Write a local variable (no result).
    LocalSet(LocalId, ValueId),
    Unary(UnOp, ValueId),
    /// Arithmetic, concatenation, comparison, and equality. Short-circuiting `and`/`or` are
    /// lowered to control flow.
    Binary(BinOp, ValueId, ValueId),
    /// Truthiness of a value (only `nil` and `false` are falsy).
    Truthy(ValueId),
    /// Build an array from element values.
    MakeArray(Vec<ValueId>),
    /// Build a table from (key, value) pairs.
    MakeTable(Vec<(String, ValueId)>),
    /// `base[index]` on an array.
    ArrayGet(ValueId, ValueId),
    /// `base[index] = value` on an array (no result).
    ArraySet(ValueId, ValueId, ValueId),
    /// `base[key]` on a map: the value or nil.
    MapGet(ValueId, ValueId),
    /// `base[key] = value` on a map (no result).
    MapSet(ValueId, ValueId, ValueId),
    /// `base.field` / `base["field"]` table read.
    FieldGet(ValueId, String),
    /// `base.field = value` table write (no result).
    FieldSet(ValueId, String, ValueId),
    /// Snapshot the keys of a map into an array of strings (drives `pairs`).
    MapKeys(ValueId),
    /// Call a script function by name.
    CallScript(String, Vec<ValueId>),
    /// Call a host-registered function by name.
    CallHost(String, Vec<ValueId>),
    /// A plain builtin call (`tostring`, `tonumber`).
    CallBuiltinValue(String, Vec<ValueId>),
    /// A builtin namespace member call (`math.floor`, `string.sub`).
    CallBuiltinMember(String, String, Vec<ValueId>),
    /// Read a top-level constant.
    ConstRef(String),
    /// Read a host memory handle.
    MemoryRef(String),
    /// A builtin namespace value field (`math.pi`, `math.huge`).
    NamespaceField(String, String),
    /// Box a value into a fresh shared upvalue cell.
    MakeCell(ValueId),
    /// Read the value currently held in a cell.
    CellGet(ValueId),
    /// Write a value into a cell (no result).
    CellSet(ValueId, ValueId),
    /// Read the i-th captured cell from a closure's environment.
    ClosureEnvGet(ValueId, u32),
    /// Build a closure value: a lifted function plus its captured cells, in order.
    MakeClosure(String, Vec<ValueId>),
    /// Call a closure value.
    CallValue(ValueId, Vec<ValueId>),
}

pub ghost enum OpV {
    ConstNil,
    ConstBool(bool),
    ConstNumber(NumeralV),
    ConstString(Seq<char>),
    LocalGet(LocalId),
    LocalSet(LocalId, ValueId),
    Unary(UnOp, ValueId),
    Binary(BinOp, ValueId, ValueId),
    Truthy(ValueId),
    MakeArray(Seq<ValueId>),
    MakeTable(Seq<(Seq<char>, ValueId)>),
    ArrayGet(ValueId, ValueId),
    ArraySet(ValueId, ValueId, ValueId),
    MapGet(ValueId, ValueId),
    MapSet(ValueId, ValueId, ValueId),
    FieldGet(ValueId, Seq<char>),
    FieldSet(ValueId, Seq<char>, ValueId),
    MapKeys(ValueId),
    CallScript(Seq<char>, Seq<ValueId>),
    CallHost(Seq<char>, Seq<ValueId>),
    CallBuiltinValue(Seq<char>, Seq<ValueId>),
    CallBuiltinMember(Seq<char>, Seq<char>, Seq<ValueId>),
    ConstRef(Seq<char>),
    MemoryRef(Seq<char>),
    NamespaceField(Seq<char>, Seq<char>),
    MakeCell(ValueId),
    CellGet(ValueId),
    CellSet(ValueId, ValueId),
    ClosureEnvGet(ValueId, u32),
    MakeClosure(Seq<char>, Seq<ValueId>),
    CallValue(ValueId, Seq<ValueId>),
}

/// The counterparts of (key, value) pairs.
pub open spec fn pairs_v(v: Seq<(String, ValueId)>) -> Seq<(Seq<char>, ValueId)> {
    Seq::new(v.len(), |i: int| (v[i].0@, v[i].1))
}

impl View for Op {
    type V = OpV;

    open spec fn view(&self) -> OpV {
        match self {
            Op::ConstNil => OpV::ConstNil,
            Op::ConstBool(b) => OpV::ConstBool(*b),
            Op::ConstNumber(n) => OpV::ConstNumber(n@),
            Op::ConstString(s) => OpV::ConstString(s@),
            Op::LocalGet(l) => OpV::LocalGet(*l),
            Op::LocalSet(l, v) => OpV::LocalSet(*l, *v),
            Op::Unary(op, v) => OpV::Unary(*op, *v),
            Op::Binary(op, a, b) => OpV::Binary(*op, *a, *b),
            Op::Truthy(v) => OpV::Truthy(*v),
            Op::MakeArray(vs) => OpV::MakeArray(vs@),
            Op::MakeTable(ps) => OpV::MakeTable(pairs_v(ps@)),
            Op::ArrayGet(a, b) => OpV::ArrayGet(*a, *b),
            Op::ArraySet(a, b, c) => OpV::ArraySet(*a, *b, *c),
            Op::MapGet(a, b) => OpV::MapGet(*a, *b),
            Op::MapSet(a, b, c) => OpV::MapSet(*a, *b, *c),
            Op::FieldGet(a, s) => OpV::FieldGet(*a, s@),
            Op::FieldSet(a, s, v) => OpV::FieldSet(*a, s@, *v),
            Op::MapKeys(a) => OpV::MapKeys(*a),
            Op::CallScript(s, vs) => OpV::CallScript(s@, vs@),
            Op::CallHost(s, vs) => OpV::CallHost(s@, vs@),
            Op::CallBuiltinValue(s, vs) => OpV::CallBuiltinValue(s@, vs@),
            Op::CallBuiltinMember(s, m, vs) => OpV::CallBuiltinMember(s@, m@, vs@),
            Op::ConstRef(s) => OpV::ConstRef(s@),
            Op::MemoryRef(s) => OpV::MemoryRef(s@),
            Op::NamespaceField(s, f) => OpV::NamespaceField(s@, f@),
            Op::MakeCell(v) => OpV::MakeCell(*v),
            Op::CellGet(v) => OpV::CellGet(*v),
            Op::CellSet(c, v) => OpV::CellSet(*c, *v),
            Op::ClosureEnvGet(c, i) => OpV::ClosureEnvGet(*c, *i),
            Op::MakeClosure(s, vs) => OpV::MakeClosure(s@, vs@),
            Op::CallValue(c, vs) => OpV::CallValue(*c, vs@),
        }
    }
}

/// How a basic block ends.
#[derive(Clone, Copy, Debug)]
pub enum Terminator {
    /// Return a value or none.
    Return(Option<ValueId>),
    /// Unconditional jump.
    Jump(BlockId),
    /// Conditional branch on a `bool` value.
    Branch { cond: ValueId, then_blk: BlockId, else_blk: BlockId },
    /// Statically unreachable (a merge block with no predecessors, for example).
    Unreachable,
}

/// Whether a terminator refers only to the first `nblocks` blocks and `nvalues` values.
pub open spec fn term_ok(t: Terminator, nblocks: int, nvalues: int) -> bool {
    match t {
        Terminator::Return(Some(v)) => v < nvalues,
        Terminator::Return(None) => true,
        Terminator::Unreachable => true,
        Terminator::Jump(b) => b < nblocks,
        Terminator::Branch { cond, then_blk, else_blk } => cond < nvalues && then_blk < nblocks
            && else_blk < nblocks,
    }
}

/// Whether a block is well formed as block number `i`.
pub open spec fn block_ok(b: BlockV, i: int, nblocks: int, nvalues: int) -> bool {
    &&& b.id == i
    &&& forall|k: int|
        0 <= k < b.instrs.len() ==> ((#[trigger] b.instrs[k]).dest matches Some(d) ==> d < nvalues)
    &&& term_ok(b.term, nblocks, nvalues)
}

/// Whether a function is structurally valid: the entry block, every jump target and every
/// value that is produced, returned or branched on exists, and every block has its index as
/// its id.
pub open spec fn function_ok(f: FunctionV) -> bool {
    let nblocks = f.blocks.len() as u32;
    let nvalues = f.values.len() as u32;
    &&& f.entry < nblocks
    &&& forall|i: int|
        0 <= i < f.blocks.len() ==> block_ok(#[trigger] f.blocks[i], i, nblocks as int, nvalues as int)
}

/// Whether every function of a program is structurally valid.
pub open spec fn program_ok(p: ProgramV) -> bool {
    &&& forall|i: int| 0 <= i < p.functions.len() ==> function_ok((#[trigger] p.functions[i]).1)
    &&& forall|i: int| 0 <= i < p.constants.len() ==> function_ok((#[trigger] p.constants[i]).1)
}

/// The complaint about a block number.
pub open spec fn bad_block(f: FunctionV, b: BlockId) -> LowerErrorV {
    LowerErrorV::Internal(
        "function `"@ + f.name + "` references undefined block "@ + dec(b as nat),
    )
}

/// The complaint about a value number.
pub open spec fn bad_value(f: FunctionV, v: ValueId) -> LowerErrorV {
    LowerErrorV::Internal(
        "function `"@ + f.name + "` references undefined value "@ + dec(v as nat),
    )
}

/// The first complaint about the destinations of the instructions from `k` on.
pub open spec fn instrs_error(f: FunctionV, is: Seq<InstrV>, k: int) -> Option<LowerErrorV>
    decreases is.len() - k,
{
    if k < 0 || k >= is.len() {
        None
    } else {
        match is[k].dest {
            Some(d) => if d >= f.values.len() as u32 {
                Some(bad_value(f, d))
            } else {
                instrs_error(f, is, k + 1)
            },
            None => instrs_error(f, is, k + 1),
        }
    }
}

/// The first complaint about a terminator.
pub open spec fn term_error(f: FunctionV, t: Terminator) -> Option<LowerErrorV> {
    let nblocks = f.blocks.len() as u32;
    let nvalues = f.values.len() as u32;
    match t {
        Terminator::Return(Some(v)) => if v >= nvalues {
            Some(bad_value(f, v))
        } else {
            None
        },
        Terminator::Return(None) => None,
        Terminator::Unreachable => None,
        Terminator::Jump(b) => if b >= nblocks {
            Some(bad_block(f, b))
        } else {
            None
        },
        Terminator::Branch { cond, then_blk, else_blk } => if cond >= nvalues {
            Some(bad_value(f, cond))
        } else if then_blk >= nblocks {
            Some(bad_block(f, then_blk))
        } else if else_blk >= nblocks {
            Some(bad_block(f, else_blk))
        } else {
            None
        },
    }
}

/// The first complaint about the blocks from `i` on.
pub open spec fn blocks_error(f: FunctionV, i: int) -> Option<LowerErrorV>
    decreases f.blocks.len() - i,
{
    if i < 0 || i >= f.blocks.len() {
        None
    } else if f.blocks[i].id != i {
        Some(
            LowerErrorV::Internal(
                "function `"@ + f.name + "` block "@ + dec(i as nat) + " has mismatched id "@ + dec(
                    f.blocks[i].id as nat,
                ),
            ),
        )
    } else {
        match instrs_error(f, f.blocks[i].instrs, 0) {
            Some(e) => Some(e),
            None => match term_error(f, f.blocks[i].term) {
                Some(e) => Some(e),
                None => blocks_error(f, i + 1),
            },
        }
    }
}

/// The first complaint about a function.
pub open spec fn function_error(f: FunctionV) -> Option<LowerErrorV> {
    if f.entry >= f.blocks.len() as u32 {
        Some(
            LowerErrorV::Internal("function `"@ + f.name + "` has an out-of-range entry block"@),
        )
    } else {
        blocks_error(f, 0)
    }
}

/// The first complaint about the functions from `i` on.
pub open spec fn functions_error(fs: Seq<(Seq<char>, FunctionV)>, i: int) -> Option<LowerErrorV>
    decreases fs.len() - i,
{
    if i < 0 || i >= fs.len() {
        None
    } else {
        match function_error(fs[i].1) {
            Some(e) => Some(e),
            None => functions_error(fs, i + 1),
        }
    }
}

/// The first complaint about a program: functions in order of their names, then constants.
pub open spec fn program_error(p: ProgramV) -> Option<LowerErrorV> {
    match functions_error(p.functions, 0) {
        Some(e) => Some(e),
        None => functions_error(p.constants, 0),
    }
}

proof fn lemma_instrs_error(f: FunctionV, is: Seq<InstrV>, k: int)
    requires
        0 <= k <= is.len(),
    ensures
        instrs_error(f, is, k) is None <==> (forall|j: int|
            k <= j < is.len() ==> ((#[trigger] is[j]).dest matches Some(d) ==> d
                < f.values.len() as u32)),
    decreases is.len() - k,
{
    if k < is.len() {
        lemma_instrs_error(f, is, k + 1);
        if instrs_error(f, is, k) is None {
            assert forall|j: int| k <= j < is.len() implies ((#[trigger] is[j]).dest matches Some(d)
                ==> d < f.values.len() as u32) by {
                if j > k {
                    assert(k + 1 <= j);
                }
            }
        }
    }
}

proof fn lemma_blocks_error(f: FunctionV, i: int)
    requires
        0 <= i <= f.blocks.len(),
    ensures
        blocks_error(f, i) is None <==> (forall|j: int|
            i <= j < f.blocks.len() ==> block_ok(
                #[trigger] f.blocks[j],
                j,
                (f.blocks.len() as u32) as int,
                (f.values.len() as u32) as int,
            )),
    decreases f.blocks.len() - i,
{
    let nb = (f.blocks.len() as u32) as int;
    let nv = (f.values.len() as u32) as int;
    if i < f.blocks.len() {
        lemma_blocks_error(f, i + 1);
        let b = f.blocks[i];
        lemma_instrs_error(f, b.instrs, 0);
        assert(term_error(f, b.term) is None <==> term_ok(b.term, nb, nv));
        if blocks_error(f, i) is None {
            assert(block_ok(b, i, nb, nv));
            assert forall|j: int| i <= j < f.blocks.len() implies block_ok(
                #[trigger] f.blocks[j],
                j,
                nb,
                nv,
            ) by {
                if j > i {
                    assert(i + 1 <= j);
                }
            }
        } else if forall|j: int| i <= j < f.blocks.len() ==> block_ok(#[trigger] f.blocks[j], j, nb, nv) {
            assert(block_ok(f.blocks[i], i, nb, nv));
        }
    }
}

proof fn lemma_functions_error(fs: Seq<(Seq<char>, FunctionV)>, i: int)
    requires
        0 <= i <= fs.len(),
    ensures
        functions_error(fs, i) is None <==> (forall|j: int|
            i <= j < fs.len() ==> function_ok((#[trigger] fs[j]).1)),
    decreases fs.len() - i,
{
    if i < fs.len() {
        lemma_functions_error(fs, i + 1);
        lemma_blocks_error(fs[i].1, 0);
        assert(function_error(fs[i].1) is None <==> function_ok(fs[i].1));
        if functions_error(fs, i) is None {
            assert forall|j: int| i <= j < fs.len() implies function_ok((#[trigger] fs[j]).1) by {
                if j > i {
                    assert(i + 1 <= j);
                }
            }
        } else if forall|j: int| i <= j < fs.len() ==> function_ok((#[trigger] fs[j]).1) {
            assert(function_ok(fs[i].1));
        }
    }
}

/// No complaint is raised about a program exactly if it is structurally valid.
pub proof fn law_verify_accepts(p: ProgramV)
    ensures
        program_error(p) is None <==> program_ok(p),
{
    lemma_functions_error(p.functions, 0);
    lemma_functions_error(p.constants, 0);
}

/// Structural validity check on a [`Program`].
pub fn verify(program: &Program) -> (r: Result<(), LowerError>)
    ensures
        match r {
            Ok(_) => program_error(program@) is None,
            Err(e) => program_error(program@) == Some(e@),
        },
        r is Ok <==> program_ok(program@),
{
    proof {
        law_verify_accepts(program@);
    }
    verify_functions(&program.functions)?;
    verify_functions(&program.constants)?;
    Ok(())
}

fn verify_functions(fs: &NameMap<Function>) -> (r: Result<(), LowerError>)
    ensures
        match r {
            Ok(_) => functions_error(fs@, 0) is None,
            Err(e) => functions_error(fs@, 0) == Some(e@),
        },
{
    let mut i: usize = 0;
    while i < fs.len()
        invariant
            i <= fs@.len(),
            functions_error(fs@, i as int) == functions_error(fs@, 0),
        decreases fs@.len() - i,
    {
        verify_function(fs.value(i))?;
        i += 1;
    }
    Ok(())
}

fn check_block(f: &Function, b: BlockId, nblocks: u32) -> (r: Result<(), LowerError>)
    ensures
        match r {
            Ok(_) => b < nblocks,
            Err(e) => b >= nblocks && e@ == bad_block(f@, b),
        },
{
    if b >= nblocks {
        let n = dec_string(b as u64);
        return Err(
            LowerError::Internal(
                cat4("function `", f.name.as_str(), "` references undefined block ", n.as_str()),
            ),
        );
    }
    Ok(())
}

fn check_value(f: &Function, v: ValueId, nvalues: u32) -> (r: Result<(), LowerError>)
    ensures
        match r {
            Ok(_) => v < nvalues,
            Err(e) => v >= nvalues && e@ == bad_value(f@, v),
        },
{
    if v >= nvalues {
        let n = dec_string(v as u64);
        return Err(
            LowerError::Internal(
                cat4("function `", f.name.as_str(), "` references undefined value ", n.as_str()),
            ),
        );
    }
    Ok(())
}

fn verify_instrs(f: &Function, instrs: &Vec<Instr>, nvalues: u32) -> (r: Result<(), LowerError>)
    requires
        nvalues == f@.values.len() as u32,
    ensures
        match r {
            Ok(_) => instrs_error(f@, instrs_v(instrs@), 0) is None,
            Err(e) => instrs_error(f@, instrs_v(instrs@), 0) == Some(e@),
        },
{
    let ghost is = instrs_v(instrs@);
    let mut k: usize = 0;
    while k < instrs.len()
        invariant
            k <= instrs@.len(),
            is == instrs_v(instrs@),
            nvalues == f@.values.len() as u32,
            instrs_error(f@, is, k as int) == instrs_error(f@, is, 0),
        decreases instrs@.len() - k,
    {
        assert(is[k as int].dest == instrs@[k as int].dest);
        if let Some(d) = instrs[k].dest {
            check_value(f, d, nvalues)?;
        }
        k += 1;
    }
    Ok(())
}

fn verify_term(f: &Function, t: Terminator, nblocks: u32, nvalues: u32) -> (r: Result<
    (),
    LowerError,
>)
    requires
        nblocks == f@.blocks.len() as u32,
        nvalues == f@.values.len() as u32,
    ensures
        match r {
            Ok(_) => term_error(f@, t) is None,
            Err(e) => term_error(f@, t) == Some(e@),
        },
{
    match t {
        Terminator::Return(Some(v)) => check_value(f, v, nvalues)?,
        Terminator::Return(None) => {},
        Terminator::Unreachable => {},
        Terminator::Jump(b) => check_block(f, b, nblocks)?,
        Terminator::Branch { cond, then_blk, else_blk } => {
            check_value(f, cond, nvalues)?;
            check_block(f, then_blk, nblocks)?;
            check_block(f, else_blk, nblocks)?;
        },
    }
    Ok(())
}

fn verify_function(f: &Function) -> (r: Result<(), LowerError>)
    ensures
        match r {
            Ok(_) => function_error(f@) is None,
            Err(e) => function_error(f@) == Some(e@),
        },
{
    let nblocks: u32 = #[verifier::truncate]
    (f.blocks.len() as u32);
    let nvalues: u32 = #[verifier::truncate]
    (f.values.len() as u32);
    if f.entry >= nblocks {
        return Err(
            LowerError::Internal(
                cat3("function `", f.name.as_str(), "` has an out-of-range entry block"),
            ),
        );
    }
    let mut i: usize = 0;
    while i < f.blocks.len()
        invariant
            i <= f.blocks@.len(),
            nblocks == f@.blocks.len() as u32,
            nvalues == f@.values.len() as u32,
            f.entry < nblocks,
            blocks_error(f@, i as int) == blocks_error(f@, 0),
        decreases f.blocks@.len() - i,
    {
        let block = &f.blocks[i];
        assert(f@.blocks[i as int] == block@);
        if block.id as usize != i {
            let n = dec_string(i as u64);
            let id = dec_string(block.id as u64);
            let mut msg = cat5(
                "function `",
                f.name.as_str(),
                "` block ",
                n.as_str(),
                " has mismatched id ",
            );
            msg.append(id.as_str());
            return Err(LowerError::Internal(msg));
        }
        verify_instrs(f, &block.instrs, nvalues)?;
        verify_term(f, block.term, nblocks, nvalues)?;
        i += 1;
    }
    Ok(())
}

} // verus!
