//! The intermediate representation the backend produces: the functions, blocks,
//! instructions and data of a QBE module, as plain values.
use vstd::prelude::*;

verus! {

/// A QBE base type.
#[derive(Debug, Clone, Copy, PartialEq, Eq, Structural)]
pub enum IrType {
    Byte,
    Word,
    Long,
    Single,
    Zero,
}

/// A comparison of two words.
#[derive(Debug, Clone, Copy, PartialEq, Eq, Structural)]
pub enum IrCmp {
    Slt,
    Sle,
    Sgt,
    Sge,
    Eq,
    Ne,
}

/// A value an instruction reads: a temporary, a global, an integer constant, or a
/// floating-point constant as it was written.
#[derive(Debug)]
pub enum IrValue {
    Temporary(String),
    Global(String),
    Const(u64),
    Float(String),
}

#[derive(Debug)]
pub enum IrInstr {
    Add(IrValue, IrValue),
    Sub(IrValue, IrValue),
    Mul(IrValue, IrValue),
    Div(IrValue, IrValue),
    Cmp(IrType, IrCmp, IrValue, IrValue),
    And(IrValue, IrValue),
    Or(IrValue, IrValue),
    Neg(IrValue),
    Copy(IrValue),
    Ret(Option<IrValue>),
    Jnz(IrValue, String, String),
    Jmp(String),
    Call(String, Vec<(IrType, IrValue)>),
    Alloc4(u32),
    Alloc8(u64),
}

/// An instruction whose result goes to a temporary, or one kept for its effect.
#[derive(Debug)]
pub enum IrStatement {
    Assign(IrValue, IrType, IrInstr),
    Volatile(IrInstr),
}

#[derive(Debug)]
pub struct IrBlock {
    pub label: String,
    pub items: Vec<IrStatement>,
}

#[derive(Debug)]
pub struct IrFunction {
    pub exported: bool,
    pub name: String,
    pub arguments: Vec<(IrType, IrValue)>,
    pub return_ty: Option<IrType>,
    pub blocks: Vec<IrBlock>,
}

/// An item of a data definition: the bytes of a string, or a number.
#[derive(Debug)]
pub enum IrDataItem {
    Str(String),
    Const(u64),
}

/// A data definition: whether the linker sees it, its name, and its typed items.
#[derive(Debug)]
pub struct IrData {
    pub exported: bool,
    pub name: String,
    pub items: Vec<(IrType, IrDataItem)>,
}

#[derive(Debug)]
pub struct IrModule {
    pub functions: Vec<IrFunction>,
    pub data: Vec<IrData>,
}

pub enum ValV {
    Temporary(Seq<char>),
    Global(Seq<char>),
    Const(u64),
    Float(Seq<char>),
}

pub enum InstrV {
    Add(ValV, ValV),
    Sub(ValV, ValV),
    Mul(ValV, ValV),
    Div(ValV, ValV),
    Cmp(IrType, IrCmp, ValV, ValV),
    And(ValV, ValV),
    Or(ValV, ValV),
    Neg(ValV),
    Copy(ValV),
    Ret(Option<ValV>),
    Jnz(ValV, Seq<char>, Seq<char>),
    Jmp(Seq<char>),
    Call(Seq<char>, Seq<(IrType, ValV)>),
    Alloc4(u32),
    Alloc8(u64),
}

/// What QBE's comparison `c` (`ceqw`, `cnew`, `csltw`, ...) says of two integers.
pub open spec fn cmp_holds(c: IrCmp, a: int, b: int) -> bool {
    match c {
        IrCmp::Slt => a < b,
        IrCmp::Sle => a <= b,
        IrCmp::Sgt => a > b,
        IrCmp::Sge => a >= b,
        IrCmp::Eq => a == b,
        IrCmp::Ne => a != b,
    }
}

/// The value QBE's two-operand arithmetic instruction `i` computes from operand values
/// `a` and `b`; none for other instructions.
pub open spec fn instr_value(i: InstrV, a: int, b: int) -> Option<int> {
    match i {
        InstrV::Add(_, _) => Some(a + b),
        InstrV::Sub(_, _) => Some(a - b),
        InstrV::Mul(_, _) => Some(a * b),
        InstrV::Div(_, _) => Some(a / b),
        _ => None,
    }
}

/// The truth value QBE's bitwise instruction `i` (`and`, `or`) computes from two
/// truth values held as 0 and 1; none for other instructions.
pub open spec fn instr_truth(i: InstrV, a: bool, b: bool) -> Option<bool> {
    match i {
        InstrV::And(_, _) => Some(a && b),
        InstrV::Or(_, _) => Some(a || b),
        _ => None,
    }
}

pub enum StatementV {
    Assign(ValV, IrType, InstrV),
    Volatile(InstrV),
}

pub struct BlockV {
    pub label: Seq<char>,
    pub items: Seq<StatementV>,
}

pub struct FunctionV {
    pub exported: bool,
    pub name: Seq<char>,
    pub arguments: Seq<(IrType, ValV)>,
    pub return_ty: Option<IrType>,
    pub blocks: Seq<BlockV>,
}

pub enum DataItemV {
    Str(Seq<char>),
    Const(u64),
}

pub struct DataV {
    pub exported: bool,
    pub name: Seq<char>,
    pub items: Seq<(IrType, DataItemV)>,
}

/// The data of a string constant: private, its bytes followed by a zero byte.
pub open spec fn string_data(name: Seq<char>, text: Seq<char>) -> DataV {
    DataV {
        exported: false,
        name,
        items: seq![(IrType::Byte, DataItemV::Str(text)), (IrType::Byte, DataItemV::Const(0))],
    }
}

impl View for IrValue {
    type V = ValV;

    open spec fn view(&self) -> ValV {
        match self {
            IrValue::Temporary(s) => ValV::Temporary(s@),
            IrValue::Global(s) => ValV::Global(s@),
            IrValue::Const(n) => ValV::Const(*n),
            IrValue::Float(s) => ValV::Float(s@),
        }
    }
}

pub open spec fn opt_val_v(v: Option<IrValue>) -> Option<ValV> {
    match v {
        Some(x) => Some(x@),
        None => None,
    }
}

pub open spec fn typed_vals_v(s: Seq<(IrType, IrValue)>) -> Seq<(IrType, ValV)> {
    s.map_values(|p: (IrType, IrValue)| (p.0, p.1@))
}

impl View for IrInstr {
    type V = InstrV;

    open spec fn view(&self) -> InstrV {
        match self {
            IrInstr::Add(a, b) => InstrV::Add(a@, b@),
            IrInstr::Sub(a, b) => InstrV::Sub(a@, b@),
            IrInstr::Mul(a, b) => InstrV::Mul(a@, b@),
            IrInstr::Div(a, b) => InstrV::Div(a@, b@),
            IrInstr::Cmp(t, c, a, b) => InstrV::Cmp(*t, *c, a@, b@),
            IrInstr::And(a, b) => InstrV::And(a@, b@),
            IrInstr::Or(a, b) => InstrV::Or(a@, b@),
            IrInstr::Neg(a) => InstrV::Neg(a@),
            IrInstr::Copy(a) => InstrV::Copy(a@),
            IrInstr::Ret(a) => InstrV::Ret(opt_val_v(*a)),
            IrInstr::Jnz(a, l1, l2) => InstrV::Jnz(a@, l1@, l2@),
            IrInstr::Jmp(l) => InstrV::Jmp(l@),
            IrInstr::Call(f, args) => InstrV::Call(f@, typed_vals_v(args@)),
            IrInstr::Alloc4(n) => InstrV::Alloc4(*n),
            IrInstr::Alloc8(n) => InstrV::Alloc8(*n),
        }
    }
}

impl View for IrStatement {
    type V = StatementV;

    open spec fn view(&self) -> StatementV {
        match self {
            IrStatement::Assign(v, t, i) => StatementV::Assign(v@, *t, i@),
            IrStatement::Volatile(i) => StatementV::Volatile(i@),
        }
    }
}

pub open spec fn statements_v(s: Seq<IrStatement>) -> Seq<StatementV> {
    s.map_values(|x: IrStatement| x@)
}

impl View for IrBlock {
    type V = BlockV;

    open spec fn view(&self) -> BlockV {
        BlockV { label: self.label@, items: statements_v(self.items@) }
    }
}

pub open spec fn blocks_v(s: Seq<IrBlock>) -> Seq<BlockV> {
    s.map_values(|b: IrBlock| b@)
}

impl View for IrFunction {
    type V = FunctionV;

    open spec fn view(&self) -> FunctionV {
        FunctionV {
            exported: self.exported,
            name: self.name@,
            arguments: typed_vals_v(self.arguments@),
            return_ty: self.return_ty,
            blocks: blocks_v(self.blocks@),
        }
    }
}

impl View for IrDataItem {
    type V = DataItemV;

    open spec fn view(&self) -> DataItemV {
        match self {
            IrDataItem::Str(s) => DataItemV::Str(s@),
            IrDataItem::Const(n) => DataItemV::Const(*n),
        }
    }
}

pub open spec fn data_items_v(s: Seq<(IrType, IrDataItem)>) -> Seq<(IrType, DataItemV)> {
    s.map_values(|p: (IrType, IrDataItem)| (p.0, p.1@))
}

impl View for IrData {
    type V = DataV;

    open spec fn view(&self) -> DataV {
        DataV { exported: self.exported, name: self.name@, items: data_items_v(self.items@) }
    }
}

impl IrDataItem {
    pub fn copy(&self) -> (r: IrDataItem)
        ensures
            r@ == self@,
    {
        match self {
            IrDataItem::Str(s) => IrDataItem::Str(s.clone()),
            IrDataItem::Const(n) => IrDataItem::Const(*n),
        }
    }
}

impl IrData {
    /// The data of a string constant: private, its bytes followed by a zero byte.
    pub fn string(name: &String, text: &String) -> (r: IrData)
        ensures
            r@ == string_data(name@, text@),
    {
        let mut items: Vec<(IrType, IrDataItem)> = Vec::new();
        items.push((IrType::Byte, IrDataItem::Str(text.clone())));
        items.push((IrType::Byte, IrDataItem::Const(0)));
        let r = IrData { exported: false, name: name.clone(), items };
        assert(data_items_v(r.items@) =~= string_data(name@, text@).items);
        r
    }

    pub fn copy(&self) -> (r: IrData)
        ensures
            r@ == self@,
    {
        let mut items: Vec<(IrType, IrDataItem)> = Vec::new();
        let mut i: usize = 0;
        while i < self.items.len()
            invariant
                i <= self.items.len(),
                data_items_v(items@) == data_items_v(self.items@).take(i as int),
            decreases self.items.len() - i,
        {
            let ghost before = data_items_v(items@);
            items.push((self.items[i].0, self.items[i].1.copy()));
            assert(data_items_v(items@) =~= before.push(data_items_v(self.items@)[i as int]));
            assert(data_items_v(self.items@).take(i + 1) =~= data_items_v(self.items@).take(i as int).push(
                data_items_v(self.items@)[i as int],
            ));
            i = i + 1;
        }
        assert(data_items_v(self.items@).take(self.items.len() as int) =~= data_items_v(self.items@));
        IrData { exported: self.exported, name: self.name.clone(), items }
    }
}

pub open spec fn functions_v(s: Seq<IrFunction>) -> Seq<FunctionV> {
    s.map_values(|f: IrFunction| f@)
}

pub open spec fn data_v(s: Seq<IrData>) -> Seq<DataV> {
    s.map_values(|d: IrData| d@)
}

impl IrValue {
    pub fn copy(&self) -> (r: IrValue)
        ensures
            r@ == self@,
    {
        match self {
            IrValue::Temporary(s) => IrValue::Temporary(s.clone()),
            IrValue::Global(s) => IrValue::Global(s.clone()),
            IrValue::Const(n) => IrValue::Const(*n),
            IrValue::Float(s) => IrValue::Float(s.clone()),
        }
    }
}

fn copy_typed_vals(v: &Vec<(IrType, IrValue)>) -> (r: Vec<(IrType, IrValue)>)
    ensures
        typed_vals_v(r@) == typed_vals_v(v@),
{
    let mut r: Vec<(IrType, IrValue)> = Vec::new();
    let mut i: usize = 0;
    while i < v.len()
        invariant
            i <= v.len(),
            r@.len() == i,
            forall|j: int| 0 <= j < i ==> (#[trigger] r@[j]).0 == v@[j].0 && r@[j].1@ == v@[j].1@,
        decreases v.len() - i,
    {
        r.push((v[i].0, v[i].1.copy()));
        i = i + 1;
    }
    assert(typed_vals_v(r@) =~= typed_vals_v(v@));
    r
}

impl IrInstr {
    pub fn copy(&self) -> (r: IrInstr)
        ensures
            r@ == self@,
    {
        match self {
            IrInstr::Add(a, b) => IrInstr::Add(a.copy(), b.copy()),
            IrInstr::Sub(a, b) => IrInstr::Sub(a.copy(), b.copy()),
            IrInstr::Mul(a, b) => IrInstr::Mul(a.copy(), b.copy()),
            IrInstr::Div(a, b) => IrInstr::Div(a.copy(), b.copy()),
            IrInstr::Cmp(t, c, a, b) => IrInstr::Cmp(*t, *c, a.copy(), b.copy()),
            IrInstr::And(a, b) => IrInstr::And(a.copy(), b.copy()),
            IrInstr::Or(a, b) => IrInstr::Or(a.copy(), b.copy()),
            IrInstr::Neg(a) => IrInstr::Neg(a.copy()),
            IrInstr::Copy(a) => IrInstr::Copy(a.copy()),
            IrInstr::Ret(a) => IrInstr::Ret(
                match a {
                    Some(x) => Some(x.copy()),
                    None => None,
                },
            ),
            IrInstr::Jnz(a, l1, l2) => IrInstr::Jnz(a.copy(), l1.clone(), l2.clone()),
            IrInstr::Jmp(l) => IrInstr::Jmp(l.clone()),
            IrInstr::Call(f, args) => IrInstr::Call(f.clone(), copy_typed_vals(args)),
            IrInstr::Alloc4(n) => IrInstr::Alloc4(*n),
            IrInstr::Alloc8(n) => IrInstr::Alloc8(*n),
        }
    }
}

impl IrStatement {
    pub fn copy(&self) -> (r: IrStatement)
        ensures
            r@ == self@,
    {
        match self {
            IrStatement::Assign(v, t, i) => IrStatement::Assign(v.copy(), *t, i.copy()),
            IrStatement::Volatile(i) => IrStatement::Volatile(i.copy()),
        }
    }
}

impl IrBlock {
    pub fn copy(&self) -> (r: IrBlock)
        ensures
            r@ == self@,
    {
        let mut items: Vec<IrStatement> = Vec::new();
        let mut i: usize = 0;
        while i < self.items.len()
            invariant
                i <= self.items.len(),
                items@.len() == i,
                forall|j: int| 0 <= j < i ==> (#[trigger] items@[j])@ == self.items@[j]@,
            decreases self.items.len() - i,
        {
            items.push(self.items[i].copy());
            i = i + 1;
        }
        assert(statements_v(items@) =~= statements_v(self.items@));
        IrBlock { label: self.label.clone(), items }
    }
}

impl IrFunction {
    pub fn copy(&self) -> (r: IrFunction)
        ensures
            r@ == self@,
    {
        let mut blocks: Vec<IrBlock> = Vec::new();
        let mut i: usize = 0;
        while i < self.blocks.len()
            invariant
                i <= self.blocks.len(),
                blocks@.len() == i,
                forall|j: int| 0 <= j < i ==> (#[trigger] blocks@[j])@ == self.blocks@[j]@,
            decreases self.blocks.len() - i,
        {
            blocks.push(self.blocks[i].copy());
            i = i + 1;
        }
        assert(blocks_v(blocks@) =~= blocks_v(self.blocks@));
        IrFunction {
            exported: self.exported,
            name: self.name.clone(),
            arguments: copy_typed_vals(&self.arguments),
            return_ty: self.return_ty,
            blocks,
        }
    }
}

impl IrModule {
    /// A copy of the module, with the same functions and data.
    pub fn copy(&self) -> (r: IrModule)
        ensures
            functions_v(r.functions@) == functions_v(self.functions@),
            data_v(r.data@) == data_v(self.data@),
    {
        let mut functions: Vec<IrFunction> = Vec::new();
        let mut i: usize = 0;
        while i < self.functions.len()
            invariant
                i <= self.functions.len(),
                functions@.len() == i,
                forall|j: int| 0 <= j < i ==> (#[trigger] functions@[j])@ == self.functions@[j]@,
            decreases self.functions.len() - i,
        {
            functions.push(self.functions[i].copy());
            i = i + 1;
        }
        let mut data: Vec<IrData> = Vec::new();
        let mut k: usize = 0;
        while k < self.data.len()
            invariant
                k <= self.data.len(),
                data@.len() == k,
                forall|j: int| 0 <= j < k ==> (#[trigger] data@[j])@ == self.data@[j]@,
            decreases self.data.len() - k,
        {
            data.push(self.data[k].copy());
            k = k + 1;
        }
        assert(functions_v(functions@) =~= functions_v(self.functions@));
        assert(data_v(data@) =~= data_v(self.data@));
        IrModule { functions, data }
    }
}

} // verus!
