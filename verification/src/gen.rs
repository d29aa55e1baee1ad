//! The code generator: lowers each method's stack-machine instructions to
//! textual SSA-style output, tracking per value whether it lives in an
//! allocated memory slot (and so needs a load before use) or in a bare
//! virtual register, while a strictly increasing counter numbers the
//! registers.  Generator state is rebuilt from scratch for every method.

use vstd::prelude::*;

use crate::lexer::{GToken, Token, Type};
use crate::parser::{methods_view, spec_opcode, GInst, GMethod, Instruction, Method};
use crate::text::{reg_string, reg_text, str_eq};

verus! {

/// Why generation was aborted: the whole run fails and no partial output
/// is returned.
#[derive(Debug, Clone, Copy, PartialEq, Eq, Structural)]
pub enum GenError {
    /// Operands of a binary operator, or the returned value, have the
    /// wrong type name.
    TypeMismatch,
    /// Fewer operands were on the abstract stack than the instruction
    /// consumes.
    StackUnderflow,
    /// A pushed token is not an integer literal, or an opcode was
    /// requested for a type the generator does not know.
    Unsupported,
}

/// The message of each error kind.
pub open spec fn spec_message(e: GenError) -> Seq<char> {
    match e {
        GenError::TypeMismatch => "Types of operands must be same"@,
        GenError::StackUnderflow => "Method requires at least one operand on stack"@,
        GenError::Unsupported => "Unsupported literal or type"@,
    }
}

impl GenError {
    /// A descriptive message naming the violated expectation.
    pub fn message(&self) -> (r: String)
        ensures
            r@ == spec_message(*self),
    {
        match self {
            GenError::TypeMismatch => String::from_str("Types of operands must be same"),
            GenError::StackUnderflow => String::from_str(
                "Method requires at least one operand on stack",
            ),
            GenError::Unsupported => String::from_str("Unsupported literal or type"),
        }
    }
}

/// One tracked operand: the virtual register that holds (or points to)
/// it, its type name, and whether it lives in a memory slot.
pub ghost struct GItem {
    pub index: nat,
    pub ty: Seq<char>,
    pub is_ptr: bool,
}

/// The generator's abstract per-method state: the operand stack (top
/// last) and the register counter.
pub ghost struct GState {
    pub stack: Seq<GItem>,
    pub counter: nat,
}

/// The state at the start of every method: empty stack, counter zero.
pub open spec fn fresh_state() -> GState {
    GState { stack: Seq::empty(), counter: 0 }
}

/// Four spaces of indentation for each level.
pub open spec fn indent_text(n: nat) -> Seq<char>
    decreases n,
{
    if n == 0 {
        Seq::empty()
    } else {
        indent_text((n - 1) as nat) + "    "@
    }
}

/// Whether the text ends a physical line.
pub open spec fn ends_newline(s: Seq<char>) -> bool {
    s.len() > 0 && (s.last() == '\n' || s.last() == '\r')
}

/// One line of a method body: a single indentation level, the content,
/// one newline.
pub open spec fn body_line(s: Seq<char>) -> Seq<char> {
    "    "@ + s + "\n"@
}

/// The allocation line for register `r` of type `ty`.
pub open spec fn alloca_text(r: nat, ty: Seq<char>) -> Seq<char> {
    reg_text(r) + " = alloca "@ + ty
}

/// The store line of literal `lit` into the slot of register `r`.
pub open spec fn store_text(ty: Seq<char>, lit: Seq<char>, r: nat) -> Seq<char> {
    "store "@ + ty + " "@ + lit + ", "@ + ty + "* "@ + reg_text(r)
}

/// The load line from the slot of register `src` into register `dst`.
pub open spec fn load_text(dst: nat, ty: Seq<char>, src: nat) -> Seq<char> {
    reg_text(dst) + " = load "@ + ty + ", "@ + ty + "* "@ + reg_text(src)
}

/// The `nsw` (no signed wrap) qualifier: only addition and subtraction
/// carry it.
pub open spec fn nsw_text(i: GInst) -> Seq<char> {
    if i is Add || i is Sub {
        "nsw"@
    } else {
        Seq::empty()
    }
}

/// The binary-operation line: result register, mnemonic, qualifier,
/// type, then the two operand registers with the later-popped operand
/// written first.  The qualifier slot is always framed by one space on
/// each side, so an empty qualifier leaves two spaces in a row.
pub open spec fn binop_text(dst: nat, i: GInst, ty: Seq<char>, lhs: nat, rhs: nat) -> Seq<char> {
    reg_text(dst) + " = "@ + spec_opcode(i, ty) + " "@ + nsw_text(i) + " "@ + ty + " "@ + reg_text(
        lhs,
    ) + ", "@ + reg_text(rhs)
}

/// The return line for a non-void method.
pub open spec fn ret_text(ty: Seq<char>, r: nat) -> Seq<char> {
    "ret "@ + ty + " "@ + reg_text(r)
}

/// The header line of a method definition.
pub open spec fn method_header(m: GMethod) -> Seq<char> {
    "define "@ + m.return_type + " @"@ + m.name + "() {"@ + "\n"@
}

/// Whether `i` is a binary arithmetic instruction.
pub open spec fn is_binary(i: GInst) -> bool {
    i is Add || i is Sub || i is Mul || i is Div || i is Rem
}

/// Lowers one binary arithmetic instruction: both operands must be
/// present and of one type; memory-resident operands are loaded first;
/// the result is a bare register of the operand type.
pub open spec fn lower_binop(st: GState, i: GInst) -> Result<(GState, Seq<char>), GenError> {
    if st.stack.len() < 2 {
        Err(GenError::StackUnderflow)
    } else {
        let first = st.stack.last();
        let second = st.stack[st.stack.len() - 2];
        let ty = first.ty;
        if second.ty != ty {
            Err(GenError::TypeMismatch)
        } else if ty != "i32"@ && ty != "f32"@ {
            Err(GenError::Unsupported)
        } else {
            let c1 = if first.is_ptr {
                st.counter + 1
            } else {
                st.counter
            };
            let e0 = if first.is_ptr {
                st.counter + 1
            } else {
                first.index
            };
            let t0 = if first.is_ptr {
                body_line(load_text(st.counter + 1, ty, first.index))
            } else {
                Seq::<char>::empty()
            };
            let c2 = if second.is_ptr {
                c1 + 1
            } else {
                c1
            };
            let e1 = if second.is_ptr {
                c1 + 1
            } else {
                second.index
            };
            let t1 = if second.is_ptr {
                body_line(load_text(c1 + 1, ty, second.index))
            } else {
                Seq::<char>::empty()
            };
            let r = c2 + 1;
            Ok(
                (
                    GState {
                        stack: st.stack.drop_last().drop_last().push(
                            GItem { index: r, ty: ty, is_ptr: false },
                        ),
                        counter: r,
                    },
                    t0 + t1 + body_line(binop_text(r, i, ty, e1, e0)),
                ),
            )
        }
    }
}

/// Lowers a return: `void` methods return unconditionally; otherwise the
/// top of stack must match the return type and is loaded first when it
/// lives in a memory slot.  The stack is inspected, not popped.
pub open spec fn lower_ret(ret_ty: Seq<char>, st: GState) -> Result<(GState, Seq<char>), GenError> {
    if ret_ty == "void"@ {
        Ok((st, body_line("ret void"@)))
    } else if st.stack.len() == 0 {
        Err(GenError::StackUnderflow)
    } else {
        let top = st.stack.last();
        if top.ty != ret_ty {
            Err(GenError::TypeMismatch)
        } else if top.is_ptr {
            let r = st.counter + 1;
            Ok(
                (
                    GState {
                        stack: st.stack.push(GItem { index: r, ty: ret_ty, is_ptr: false }),
                        counter: r,
                    },
                    body_line(load_text(r, ret_ty, top.index)) + body_line(ret_text(ret_ty, r)),
                ),
            )
        } else {
            Ok((st, body_line(ret_text(ret_ty, top.index))))
        }
    }
}

/// Lowers one instruction from state `st` inside a method whose declared
/// return type is `ret_ty`: the next state and the emitted text, or the
/// error that aborts generation.
pub open spec fn lower_inst(ret_ty: Seq<char>, st: GState, i: GInst) -> Result<
    (GState, Seq<char>),
    GenError,
> {
    match i {
        GInst::Push(t) => {
            if t.kind is Integer {
                let r = st.counter + 1;
                Ok(
                    (
                        GState {
                            stack: st.stack.push(GItem { index: r, ty: "i32"@, is_ptr: true }),
                            counter: r,
                        },
                        body_line(alloca_text(r, "i32"@)) + body_line(
                            store_text("i32"@, t.literal, r),
                        ),
                    ),
                )
            } else {
                Err(GenError::Unsupported)
            }
        },
        GInst::Ret => lower_ret(ret_ty, st),
        _ => lower_binop(st, i),
    }
}

/// Lowers an instruction sequence in order, concatenating the emitted
/// text; the first failing instruction aborts the whole method.
pub open spec fn lower_insts(ret_ty: Seq<char>, st: GState, insts: Seq<GInst>) -> Result<
    (GState, Seq<char>),
    GenError,
>
    decreases insts.len(),
{
    if insts.len() == 0 {
        Ok((st, Seq::empty()))
    } else {
        match lower_inst(ret_ty, st, insts[0]) {
            Ok(p) => match lower_insts(ret_ty, p.0, insts.drop_first()) {
                Ok(q) => Ok((q.0, p.1 + q.1)),
                Err(e) => Err(e),
            },
            Err(e) => Err(e),
        }
    }
}

/// The state a successful lowering ends in.
pub open spec fn out_state(r: Result<(GState, Seq<char>), GenError>) -> GState {
    match r {
        Ok(p) => p.0,
        Err(_) => fresh_state(),
    }
}

/// The text a successful lowering emits.
pub open spec fn out_text(r: Result<(GState, Seq<char>), GenError>) -> Seq<char> {
    match r {
        Ok(p) => p.1,
        Err(_) => Seq::empty(),
    }
}

/// The full text generated for one method, from a fresh state: header,
/// lowered body, closing brace.
pub open spec fn spec_gen_method(m: GMethod) -> Result<Seq<char>, GenError> {
    match lower_insts(m.return_type, fresh_state(), m.instructions) {
        Ok(p) => Ok(method_header(m) + p.1 + "}"@ + "\n"@),
        Err(e) => Err(e),
    }
}

/// The full text generated for a method sequence: each method is lowered
/// from a fresh state and the texts are concatenated; the first failing
/// method aborts the whole run.
pub open spec fn spec_gen(ms: Seq<GMethod>) -> Result<Seq<char>, GenError>
    decreases ms.len(),
{
    if ms.len() == 0 {
        Ok(Seq::empty())
    } else {
        match spec_gen_method(ms[0]) {
            Ok(t) => match spec_gen(ms.drop_first()) {
                Ok(u) => Ok(t + u),
                Err(e) => Err(e),
            },
            Err(e) => Err(e),
        }
    }
}

/// The text of a successful run.
pub open spec fn gen_out_text(r: Result<Seq<char>, GenError>) -> Seq<char> {
    match r {
        Ok(t) => t,
        Err(_) => Seq::empty(),
    }
}

proof fn lemma_indent_one()
    ensures
        indent_text(1) == "    "@,
        indent_text(0) == Seq::<char>::empty(),
{
    assert(indent_text(0) =~= Seq::<char>::empty());
    assert(indent_text(1) =~= "    "@);
}

proof fn lemma_lower_insts_snoc(ret_ty: Seq<char>, st: GState, insts: Seq<GInst>, i: int)
    requires
        0 <= i < insts.len(),
    ensures
        lower_insts(ret_ty, st, insts.take(i)) is Ok ==> lower_insts(ret_ty, st, insts.take(i + 1))
            == (match lower_inst(
            ret_ty,
            out_state(lower_insts(ret_ty, st, insts.take(i))),
            insts[i],
        ) {
            Ok(q) => Ok::<(GState, Seq<char>), GenError>(
                (q.0, out_text(lower_insts(ret_ty, st, insts.take(i))) + q.1),
            ),
            Err(e) => Err::<(GState, Seq<char>), GenError>(e),
        }),
        lower_insts(ret_ty, st, insts.take(i)) is Err ==> lower_insts(
            ret_ty,
            st,
            insts.take(i + 1),
        ) == lower_insts(ret_ty, st, insts.take(i)),
    decreases i,
{
    reveal_with_fuel(lower_insts, 3);
    let s0 = insts.take(i);
    let s1 = insts.take(i + 1);
    if i == 0 {
        assert(s0 =~= Seq::<GInst>::empty());
        assert(lower_insts(ret_ty, st, s0) == Ok::<(GState, Seq<char>), GenError>(
            (st, Seq::<char>::empty()),
        ));
        assert(s1 =~= seq![insts[0]]);
        assert(s1[0] == insts[0]);
        assert(s1.drop_first() =~= Seq::<GInst>::empty());
        match lower_inst(ret_ty, st, insts[0]) {
            Ok(q) => {
                assert(lower_insts(ret_ty, q.0, s1.drop_first()) == Ok::<
                    (GState, Seq<char>),
                    GenError,
                >((q.0, Seq::<char>::empty())));
                assert(lower_insts(ret_ty, st, s1) == Ok::<(GState, Seq<char>), GenError>(
                    (q.0, q.1 + Seq::<char>::empty()),
                ));
                assert(q.1 + Seq::<char>::empty() =~= q.1);
                assert(Seq::<char>::empty() + q.1 =~= q.1);
            },
            Err(e) => {
                assert(lower_insts(ret_ty, st, s1) == Err::<(GState, Seq<char>), GenError>(e));
            },
        }
    } else {
        assert(s0.len() == i);
        assert(s1.len() == i + 1);
        assert(s0[0] == insts[0]);
        assert(s1[0] == insts[0]);
        let dt = insts.drop_first();
        assert(s0.drop_first() =~= dt.take(i - 1));
        assert(s1.drop_first() =~= dt.take(i));
        assert(dt[i - 1] == insts[i]);
        match lower_inst(ret_ty, st, insts[0]) {
            Ok(p) => {
                lemma_lower_insts_snoc(ret_ty, p.0, dt, i - 1);
                let r0 = lower_insts(ret_ty, p.0, dt.take(i - 1));
                assert(lower_insts(ret_ty, p.0, s0.drop_first()) == r0);
                match r0 {
                    Ok(_) => {
                        assert(lower_insts(ret_ty, st, s0) == Ok::<(GState, Seq<char>), GenError>(
                            (out_state(r0), p.1 + out_text(r0)),
                        ));
                        match lower_inst(ret_ty, out_state(r0), insts[i]) {
                            Ok(q) => {
                                assert(lower_insts(ret_ty, p.0, dt.take(i)) == Ok::<
                                    (GState, Seq<char>),
                                    GenError,
                                >((q.0, out_text(r0) + q.1)));
                                assert(lower_insts(ret_ty, st, s1) == Ok::<
                                    (GState, Seq<char>),
                                    GenError,
                                >((q.0, p.1 + (out_text(r0) + q.1))));
                                assert(p.1 + (out_text(r0) + q.1) =~= (p.1 + out_text(r0)) + q.1);
                            },
                            Err(e) => {
                                assert(lower_insts(ret_ty, p.0, dt.take(i)) == Err::<
                                    (GState, Seq<char>),
                                    GenError,
                                >(e));
                                assert(lower_insts(ret_ty, st, s1) == Err::<
                                    (GState, Seq<char>),
                                    GenError,
                                >(e));
                            },
                        }
                    },
                    Err(e) => {
                        assert(lower_insts(ret_ty, st, s0) == Err::<(GState, Seq<char>), GenError>(
                            e,
                        ));
                        assert(lower_insts(ret_ty, p.0, dt.take(i)) == Err::<
                            (GState, Seq<char>),
                            GenError,
                        >(e));
                        assert(lower_insts(ret_ty, st, s1) == Err::<(GState, Seq<char>), GenError>(
                            e,
                        ));
                    },
                }
            },
            Err(e) => {
                assert(lower_insts(ret_ty, st, s0) == Err::<(GState, Seq<char>), GenError>(e));
                assert(lower_insts(ret_ty, st, s1) == Err::<(GState, Seq<char>), GenError>(e));
            },
        }
    }
}

proof fn lemma_lower_insts_prefix_err(ret_ty: Seq<char>, st: GState, insts: Seq<GInst>, i: int)
    requires
        0 <= i <= insts.len(),
        lower_insts(ret_ty, st, insts.take(i)) is Err,
    ensures
        lower_insts(ret_ty, st, insts) == lower_insts(ret_ty, st, insts.take(i)),
    decreases i,
{
    reveal_with_fuel(lower_insts, 3);
    let s0 = insts.take(i);
    if i == 0 {
        assert(s0 =~= Seq::<GInst>::empty());
        assert(lower_insts(ret_ty, st, s0) == Ok::<(GState, Seq<char>), GenError>(
            (st, Seq::<char>::empty()),
        ));
        assert(false);
    } else {
        assert(s0[0] == insts[0]);
        match lower_inst(ret_ty, st, insts[0]) {
            Ok(p) => {
                assert(s0.drop_first() =~= insts.drop_first().take(i - 1));
                lemma_lower_insts_prefix_err(ret_ty, p.0, insts.drop_first(), i - 1);
            },
            Err(_) => {},
        }
    }
}

proof fn lemma_spec_gen_snoc(ms: Seq<GMethod>, i: int)
    requires
        0 <= i < ms.len(),
    ensures
        spec_gen(ms.take(i)) is Ok ==> spec_gen(ms.take(i + 1)) == (match spec_gen_method(ms[i]) {
            Ok(t) => Ok::<Seq<char>, GenError>(gen_out_text(spec_gen(ms.take(i))) + t),
            Err(e) => Err::<Seq<char>, GenError>(e),
        }),
    decreases i,
{
    reveal_with_fuel(spec_gen, 3);
    let s0 = ms.take(i);
    let s1 = ms.take(i + 1);
    if i == 0 {
        assert(s0 =~= Seq::<GMethod>::empty());
        assert(spec_gen(s0) == Ok::<Seq<char>, GenError>(Seq::<char>::empty()));
        assert(s1 =~= seq![ms[0]]);
        assert(s1[0] == ms[0]);
        assert(s1.drop_first() =~= Seq::<GMethod>::empty());
        match spec_gen_method(ms[0]) {
            Ok(t) => {
                assert(spec_gen(s1.drop_first()) == Ok::<Seq<char>, GenError>(
                    Seq::<char>::empty(),
                ));
                assert(spec_gen(s1) == Ok::<Seq<char>, GenError>(t + Seq::<char>::empty()));
                assert(t + Seq::<char>::empty() =~= t);
                assert(Seq::<char>::empty() + t =~= t);
            },
            Err(e) => {
                assert(spec_gen(s1) == Err::<Seq<char>, GenError>(e));
            },
        }
    } else {
        assert(s0[0] == ms[0]);
        assert(s1[0] == ms[0]);
        let dt = ms.drop_first();
        assert(s0.drop_first() =~= dt.take(i - 1));
        assert(s1.drop_first() =~= dt.take(i));
        assert(dt[i - 1] == ms[i]);
        match spec_gen_method(ms[0]) {
            Ok(t) => {
                lemma_spec_gen_snoc(dt, i - 1);
                let r0 = spec_gen(dt.take(i - 1));
                assert(spec_gen(s0.drop_first()) == r0);
                match r0 {
                    Ok(_) => {
                        assert(spec_gen(s0) == Ok::<Seq<char>, GenError>(t + gen_out_text(r0)));
                        match spec_gen_method(ms[i]) {
                            Ok(u) => {
                                assert(spec_gen(dt.take(i)) == Ok::<Seq<char>, GenError>(
                                    gen_out_text(r0) + u,
                                ));
                                assert(spec_gen(s1) == Ok::<Seq<char>, GenError>(
                                    t + (gen_out_text(r0) + u),
                                ));
                                assert(t + (gen_out_text(r0) + u) =~= (t + gen_out_text(r0)) + u);
                            },
                            Err(e) => {
                                assert(spec_gen(dt.take(i)) == Err::<Seq<char>, GenError>(e));
                                assert(spec_gen(s1) == Err::<Seq<char>, GenError>(e));
                            },
                        }
                    },
                    Err(_) => {},
                }
            },
            Err(_) => {},
        }
    }
}

proof fn lemma_spec_gen_prefix_err(ms: Seq<GMethod>, i: int)
    requires
        0 <= i <= ms.len(),
        spec_gen(ms.take(i)) is Err,
    ensures
        spec_gen(ms) == spec_gen(ms.take(i)),
    decreases i,
{
    reveal_with_fuel(spec_gen, 3);
    let s0 = ms.take(i);
    if i == 0 {
        assert(s0 =~= Seq::<GMethod>::empty());
        assert(spec_gen(s0) == Ok::<Seq<char>, GenError>(Seq::<char>::empty()));
        assert(false);
    } else {
        assert(s0[0] == ms[0]);
        match spec_gen_method(ms[0]) {
            Ok(_) => {
                assert(s0.drop_first() =~= ms.drop_first().take(i - 1));
                lemma_spec_gen_prefix_err(ms.drop_first(), i - 1);
            },
            Err(_) => {},
        }
    }
}

/// One tracked operand on the simulated stack.
struct StackItem {
    index: usize,
    item_type: String,
    is_ptr: bool,
}

impl View for StackItem {
    type V = GItem;

    closed spec fn view(&self) -> GItem {
        GItem { index: self.index as nat, ty: self.item_type@, is_ptr: self.is_ptr }
    }
}

impl StackItem {
    fn new(index: usize, item_type: String, is_ptr: bool) -> (s: StackItem)
        ensures
            s@ == (GItem { index: index as nat, ty: item_type@, is_ptr }),
    {
        StackItem { index, item_type, is_ptr }
    }
}

/// The per-method generator state: the simulated operand stack, the
/// indentation level, the start-of-line flag, and the register counter.
struct MethodGen {
    stack_tracker: Vec<StackItem>,
    indent: u32,
    empty_line: bool,
    variable_index: usize,
}

impl MethodGen {
    /// The abstract stack and register counter this state represents.
    spec fn st(&self) -> GState {
        GState {
            stack: self.stack_tracker@.map_values(|s: StackItem| s@),
            counter: self.variable_index as nat,
        }
    }

    fn new() -> (m: MethodGen)
        ensures
            m.st() == fresh_state(),
            m.indent == 0,
            m.empty_line == true,
    {
        let m = MethodGen {
            stack_tracker: Vec::new(),
            indent: 0,
            empty_line: true,
            variable_index: 0,
        };
        proof {
            assert(m.st().stack =~= fresh_state().stack);
        }
        m
    }

    fn inc_indent(&mut self)
        requires
            old(self).indent < u32::MAX,
        ensures
            final(self).indent == old(self).indent + 1,
            final(self).empty_line == old(self).empty_line,
            final(self).stack_tracker == old(self).stack_tracker,
            final(self).variable_index == old(self).variable_index,
    {
        self.indent += 1;
    }

    fn dec_indent(&mut self)
        requires
            old(self).indent >= 1,
        ensures
            final(self).indent == old(self).indent - 1,
            final(self).empty_line == old(self).empty_line,
            final(self).stack_tracker == old(self).stack_tracker,
            final(self).variable_index == old(self).variable_index,
    {
        self.indent -= 1;
    }

    /// Allocates `count` fresh registers, returning their names in order,
    /// and pushes one tracked item for the last of them.
    fn allocate_variable(&mut self, ty_name: &String, is_ptr: bool, count: usize) -> (variables:
        Vec<String>)
        requires
            old(self).variable_index + count <= usize::MAX,
        ensures
            final(self).st() == (GState {
                stack: old(self).st().stack.push(
                    GItem {
                        index: (old(self).variable_index + count) as nat,
                        ty: ty_name@,
                        is_ptr,
                    },
                ),
                counter: (old(self).variable_index + count) as nat,
            }),
            final(self).variable_index == old(self).variable_index + count,
            variables@.len() == count,
            forall|k: int|
                0 <= k < count ==> (#[trigger] variables@[k])@ == reg_text(
                    (old(self).variable_index + 1 + k) as nat,
                ),
            final(self).indent == old(self).indent,
            final(self).empty_line == old(self).empty_line,
    {
        let mut variables: Vec<String> = Vec::new();
        let mut k: usize = 0;
        while k < count
            invariant
                k <= count,
                self == old(self),
                old(self).variable_index + count <= usize::MAX,
                variables@.len() == k,
                forall|j: int|
                    0 <= j < k ==> (#[trigger] variables@[j])@ == reg_text(
                        (old(self).variable_index + 1 + j) as nat,
                    ),
            decreases count - k,
        {
            variables.push(reg_string(self.variable_index + 1 + k));
            k += 1;
        }
        self.variable_index = self.variable_index + count;
        let item = StackItem::new(self.variable_index, ty_name.clone(), is_ptr);
        self.stack_tracker.push(item);
        proof {
            assert(self.st().stack =~= old(self).st().stack.push(item@));
        }
        variables
    }

    /// Whether the topmost `operand_count` stack items all carry the
    /// expected type name (false as well when too few items are present).
    fn assert_same_type(&self, expected_type: &String, operand_count: usize) -> (r: bool)
        ensures
            r == same_type_on_top(self.st().stack, expected_type@, operand_count as nat),
    {
        if self.stack_tracker.len() < operand_count {
            return false;
        }
        let start = self.stack_tracker.len() - operand_count;
        let mut i = start;
        while i < self.stack_tracker.len()
            invariant
                self.stack_tracker@.len() >= operand_count,
                start == self.stack_tracker@.len() - operand_count,
                start <= i <= self.stack_tracker@.len(),
                forall|j: int| start <= j < i ==> (#[trigger] self.st().stack[j]).ty == expected_type@,
            decreases self.stack_tracker@.len() - i,
        {
            if !str_eq(self.stack_tracker[i].item_type.as_str(), expected_type.as_str()) {
                proof {
                    assert(self.st().stack[i as int].ty != expected_type@);
                }
                return false;
            }
            i += 1;
        }
        true
    }

    /// The type name of the topmost stack item.
    fn last_type(&self) -> (r: String)
        requires
            self.st().stack.len() > 0,
        ensures
            r@ == self.st().stack.last().ty,
    {
        self.stack_tracker[self.stack_tracker.len() - 1].item_type.clone()
    }
}

/// Whether the topmost `k` items of `stack` all carry type name `ty`.
pub open spec fn same_type_on_top(stack: Seq<GItem>, ty: Seq<char>, k: nat) -> bool {
    stack.len() >= k && forall|i: int|
        stack.len() - k <= i < stack.len() ==> (#[trigger] stack[i]).ty == ty
}

/// The whole generator: the output buffer and the per-method state.
struct Gen {
    builder: String,
    method_gen: MethodGen,
}

fn ends_with_newline(s: &str) -> (r: bool)
    ensures
        r == ends_newline(s@),
{
    let n = s.unicode_len();
    if n == 0 {
        false
    } else {
        let c = s.get_char(n - 1);
        c == '\n' || c == '\r'
    }
}

impl Gen {
    fn new() -> (g: Gen)
        ensures
            g.builder@ == Seq::<char>::empty(),
            g.method_gen.st() == fresh_state(),
            g.method_gen.indent == 0,
            g.method_gen.empty_line == true,
    {
        Gen { builder: String::new(), method_gen: MethodGen::new() }
    }

    /// Emits the indentation prefix for the current level.
    fn put_indent(&mut self)
        ensures
            final(self).builder@ == old(self).builder@ + indent_text(
                old(self).method_gen.indent as nat,
            ),
            final(self).method_gen == old(self).method_gen,
    {
        let ghost b0 = self.builder@;
        proof {
            assert(b0 + indent_text(0) =~= b0);
        }
        let mut j: u32 = 0;
        while j < self.method_gen.indent
            invariant
                j <= self.method_gen.indent,
                self.builder@ == b0 + indent_text(j as nat),
                self.method_gen == old(self).method_gen,
                b0 == old(self).builder@,
            decreases self.method_gen.indent - j,
        {
            self.builder.append("    ");
            proof {
                assert(b0 + indent_text(j as nat) + "    "@ =~= b0 + indent_text((j + 1) as nat));
            }
            j += 1;
        }
    }

    /// Appends text, prefixing the indentation exactly when the buffer is
    /// at the start of a line; the start-of-line flag afterwards records
    /// whether the text ended a line.
    #[allow(dead_code)]
    fn write(&mut self, content: &str)
        ensures
            final(self).builder@ == old(self).builder@ + (if old(self).method_gen.empty_line {
                indent_text(old(self).method_gen.indent as nat)
            } else {
                Seq::<char>::empty()
            }) + content@,
            final(self).method_gen.empty_line == ends_newline(content@),
            final(self).method_gen.indent == old(self).method_gen.indent,
            final(self).method_gen.stack_tracker == old(self).method_gen.stack_tracker,
            final(self).method_gen.variable_index == old(self).method_gen.variable_index,
    {
        if self.method_gen.empty_line {
            self.put_indent();
            self.method_gen.empty_line = false;
        }
        self.builder.append(content);
        if ends_with_newline(content) {
            self.method_gen.empty_line = !self.method_gen.empty_line;
        }
        proof {
            assert(self.builder@ =~= old(self).builder@ + (if old(self).method_gen.empty_line {
                indent_text(old(self).method_gen.indent as nat)
            } else {
                Seq::<char>::empty()
            }) + content@);
        }
    }

    /// Appends one whole line: the indentation prefix when at the start
    /// of a line, the content, exactly one newline.
    fn writeln(&mut self, content: &str)
        ensures
            final(self).builder@ == old(self).builder@ + (if old(self).method_gen.empty_line {
                indent_text(old(self).method_gen.indent as nat)
            } else {
                Seq::<char>::empty()
            }) + content@ + "\n"@,
            final(self).method_gen.empty_line == true,
            final(self).method_gen.indent == old(self).method_gen.indent,
            final(self).method_gen.stack_tracker == old(self).method_gen.stack_tracker,
            final(self).method_gen.variable_index == old(self).method_gen.variable_index,
    {
        if self.method_gen.empty_line {
            self.put_indent();
            self.method_gen.empty_line = false;
        }
        self.builder.append(content);
        self.builder.append("\n");
        self.method_gen.empty_line = !self.method_gen.empty_line;
        proof {
            assert(self.builder@ =~= old(self).builder@ + (if old(self).method_gen.empty_line {
                indent_text(old(self).method_gen.indent as nat)
            } else {
                Seq::<char>::empty()
            }) + content@ + "\n"@);
        }
    }
}

/// Pops the topmost operand; when it lives in a memory slot, allocates a
/// fresh register, emits the load line, and returns that register, else
/// returns the operand's own register.
fn load_operand(g: &mut Gen, operand_type: &String) -> (r: usize)
    requires
        old(g).method_gen.st().stack.len() >= 1,
        old(g).method_gen.indent == 1,
        old(g).method_gen.empty_line == true,
        old(g).method_gen.variable_index < usize::MAX,
    ensures
        final(g).method_gen.indent == 1,
        final(g).method_gen.empty_line == true,
        ({
            let st = old(g).method_gen.st();
            let top = st.stack.last();
            if top.is_ptr {
                &&& final(g).method_gen.st() == (GState {
                    stack: st.stack.drop_last(),
                    counter: st.counter + 1,
                })
                &&& r as nat == st.counter + 1
                &&& final(g).builder@ == old(g).builder@ + body_line(
                    load_text(st.counter + 1, operand_type@, top.index),
                )
            } else {
                &&& final(g).method_gen.st() == (GState {
                    stack: st.stack.drop_last(),
                    counter: st.counter,
                })
                &&& r as nat == top.index
                &&& final(g).builder@ == old(g).builder@
            }
        }),
{
    let ghost st = old(g).method_gen.st();
    let stack_item = g.method_gen.stack_tracker.pop().unwrap();
    proof {
        assert(g.method_gen.st().stack =~= st.stack.drop_last());
        assert(stack_item@ == st.stack.last());
    }
    if stack_item.is_ptr {
        let tmp_variable = g.method_gen.allocate_variable(operand_type, false, 1);
        let mut line = tmp_variable[0].clone();
        line.append(" = load ");
        line.append(operand_type.as_str());
        line.append(", ");
        line.append(operand_type.as_str());
        line.append("* ");
        let src = reg_string(stack_item.index);
        line.append(src.as_str());
        g.writeln(line.as_str());
        let ghost stack_b = g.method_gen.st().stack;
        let ghost tr_b = g.method_gen.stack_tracker@;
        proof {
            assert(stack_b.len() == tr_b.len());
            assert(stack_b.len() >= 1);
        }
        let item = g.method_gen.stack_tracker.pop().unwrap();
        proof {
            lemma_indent_one();
            assert(line@ =~= load_text(st.counter + 1, operand_type@, st.stack.last().index));
            assert(g.builder@ == old(g).builder@ + body_line(
                load_text(st.counter + 1, operand_type@, st.stack.last().index),
            )) by {
                assert(old(g).builder@ + ("    "@ + line@ + "\n"@) =~= old(g).builder@ + "    "@
                    + line@ + "\n"@);
            }
            assert(item@ == stack_b.last());
            assert(g.method_gen.stack_tracker@ == tr_b.subrange(0, tr_b.len() - 1));
            assert forall|i: int|
                0 <= i < g.method_gen.st().stack.len() implies #[trigger] g.method_gen.st().stack[i]
                == st.stack.drop_last()[i] by {
                assert(g.method_gen.st().stack[i] == g.method_gen.stack_tracker@[i]@);
                assert(g.method_gen.stack_tracker@[i] == tr_b[i]);
                assert(stack_b[i] == tr_b[i]@);
                assert(stack_b[i] == st.stack.drop_last()[i]);
            }
            assert(g.method_gen.st().stack.len() == st.stack.drop_last().len());
            assert(g.method_gen.st().stack =~= st.stack.drop_last());
        }
        item.index
    } else {
        stack_item.index
    }
}

/// Lowers one push: the literal is materialized as a memory slot (an
/// alloca and a store), and a pointer-backed item is tracked.
fn gen_push(g: &mut Gen, token: &Token, Ghost(ret_ty): Ghost<Seq<char>>) -> (res: Result<
    (),
    GenError,
>)
    requires
        old(g).method_gen.indent == 1,
        old(g).method_gen.empty_line == true,
        old(g).method_gen.variable_index < usize::MAX,
    ensures
        final(g).method_gen.indent == 1,
        final(g).method_gen.empty_line == true,
        final(g).method_gen.st().counter <= old(g).method_gen.st().counter + 3,
        (match res {
            Ok(_) => lower_inst(ret_ty, old(g).method_gen.st(), GInst::Push(token@)) is Ok
                && final(g).method_gen.st() == out_state(
                lower_inst(ret_ty, old(g).method_gen.st(), GInst::Push(token@)),
            ) && final(g).builder@ == old(g).builder@ + out_text(
                lower_inst(ret_ty, old(g).method_gen.st(), GInst::Push(token@)),
            ),
            Err(e) => lower_inst(ret_ty, old(g).method_gen.st(), GInst::Push(token@)) == Err::<
                (GState, Seq<char>),
                GenError,
            >(e),
        }),
{
    let ghost st0 = old(g).method_gen.st();
    let ghost prev_builder = old(g).builder@;
    if token.token_type != Type::Integer {
        return Err(GenError::Unsupported);
    }
    let value_type = String::from_str("i32");
    let variable = g.method_gen.allocate_variable(&value_type, true, 1);
    let mut line = variable[0].clone();
    line.append(" = alloca ");
    line.append(value_type.as_str());
    g.writeln(line.as_str());
    let mut line2 = String::from_str("store ");
    line2.append(value_type.as_str());
    line2.append(" ");
    line2.append(token.literal.as_str());
    line2.append(", ");
    line2.append(value_type.as_str());
    line2.append("* ");
    line2.append(variable[0].as_str());
    g.writeln(line2.as_str());
    proof {
        lemma_indent_one();
        assert(line@ =~= alloca_text(st0.counter + 1, "i32"@));
        assert(line2@ =~= store_text("i32"@, token@.literal, st0.counter + 1));
        assert(lower_inst(ret_ty, st0, GInst::Push(token@)) == Ok::<(GState, Seq<char>), GenError>(
            (
                GState {
                    stack: st0.stack.push(
                        GItem { index: st0.counter + 1, ty: "i32"@, is_ptr: true },
                    ),
                    counter: st0.counter + 1,
                },
                body_line(alloca_text(st0.counter + 1, "i32"@)) + body_line(
                    store_text("i32"@, token@.literal, st0.counter + 1),
                ),
            ),
        ));
        assert(g.builder@ == prev_builder + out_text(lower_inst(ret_ty, st0, GInst::Push(token@))))
            by {
            assert(prev_builder + ("    "@ + line@ + "\n"@) + ("    "@ + line2@ + "\n"@)
                =~= prev_builder + (body_line(line@) + body_line(line2@)));
        }
    }
    Ok(())
}

/// Lowers one return against the method's declared return type.
fn gen_ret(g: &mut Gen, method: &Method) -> (res: Result<(), GenError>)
    requires
        old(g).method_gen.indent == 1,
        old(g).method_gen.empty_line == true,
        old(g).method_gen.variable_index < usize::MAX,
    ensures
        final(g).method_gen.indent == 1,
        final(g).method_gen.empty_line == true,
        final(g).method_gen.st().counter <= old(g).method_gen.st().counter + 3,
        (match res {
            Ok(_) => lower_inst(method@.return_type, old(g).method_gen.st(), GInst::Ret) is Ok
                && final(g).method_gen.st() == out_state(
                lower_inst(method@.return_type, old(g).method_gen.st(), GInst::Ret),
            ) && final(g).builder@ == old(g).builder@ + out_text(
                lower_inst(method@.return_type, old(g).method_gen.st(), GInst::Ret),
            ),
            Err(e) => lower_inst(method@.return_type, old(g).method_gen.st(), GInst::Ret) == Err::<
                (GState, Seq<char>),
                GenError,
            >(e),
        }),
{
    let ghost st0 = old(g).method_gen.st();
    let ghost prev_builder = old(g).builder@;
    let ghost rt = method@.return_type;
    if str_eq(method.return_type.as_str(), "void") {
        g.writeln("ret void");
        proof {
            lemma_indent_one();
            assert(lower_inst(rt, st0, GInst::Ret) == Ok::<(GState, Seq<char>), GenError>(
                (st0, body_line("ret void"@)),
            ));
            assert(g.builder@ == prev_builder + out_text(lower_inst(rt, st0, GInst::Ret))) by {
                assert(prev_builder + ("    "@ + "ret void"@ + "\n"@) =~= prev_builder + body_line(
                    "ret void"@,
                ));
            }
        }
        return Ok(());
    }
    if g.method_gen.stack_tracker.len() == 0 {
        proof {
            assert(st0.stack.len() == 0);
        }
        return Err(GenError::StackUnderflow);
    }
    if !g.method_gen.assert_same_type(&method.return_type, 1) {
        proof {
            assert(st0.stack.len() >= 1);
            assert(st0.stack.last().ty != rt) by {
                if st0.stack.last().ty == rt {
                    assert forall|j: int|
                        st0.stack.len() - 1 <= j < st0.stack.len() implies (#[trigger] st0.stack[j]).ty
                        == rt by {
                        assert(j == st0.stack.len() - 1);
                    }
                }
            }
        }
        return Err(GenError::TypeMismatch);
    }
    proof {
        assert(st0.stack[st0.stack.len() - 1].ty == rt);
        assert(st0.stack.last().ty == rt);
    }
    let top_i = g.method_gen.stack_tracker.len() - 1;
    let operand_index = g.method_gen.stack_tracker[top_i].index;
    let operand_is_ptr = g.method_gen.stack_tracker[top_i].is_ptr;
    proof {
        assert(g.method_gen.stack_tracker@[top_i as int]@ == st0.stack[top_i as int]);
        assert(operand_index as nat == st0.stack.last().index);
        assert(operand_is_ptr == st0.stack.last().is_ptr);
    }
    if operand_is_ptr {
        let variable = g.method_gen.allocate_variable(&method.return_type, false, 1);
        let mut line = variable[0].clone();
        line.append(" = load ");
        line.append(method.return_type.as_str());
        line.append(", ");
        line.append(method.return_type.as_str());
        line.append("* ");
        let src = reg_string(operand_index);
        line.append(src.as_str());
        g.writeln(line.as_str());
        proof {
            lemma_indent_one();
            assert(line@ =~= load_text(st0.counter + 1, rt, st0.stack.last().index));
        }
    }
    proof {
        assert(g.method_gen.stack_tracker@.len() == g.method_gen.st().stack.len());
        assert(g.method_gen.st().stack.len() >= 1);
    }
    let last_i = g.method_gen.stack_tracker.len() - 1;
    let last_index = g.method_gen.stack_tracker[last_i].index;
    proof {
        assert(g.method_gen.stack_tracker@[last_i as int]@ == g.method_gen.st().stack[
            last_i as int]);
        assert(last_index as nat == g.method_gen.st().stack.last().index);
    }
    let mut rline = String::from_str("ret ");
    rline.append(method.return_type.as_str());
    rline.append(" ");
    let rr = reg_string(last_index);
    rline.append(rr.as_str());
    g.writeln(rline.as_str());
    proof {
        lemma_indent_one();
        if st0.stack.last().is_ptr {
            let r = st0.counter + 1;
            assert(last_index as nat == r);
            assert(rline@ =~= ret_text(rt, r));
            assert(lower_inst(rt, st0, GInst::Ret) == Ok::<(GState, Seq<char>), GenError>(
                (
                    GState {
                        stack: st0.stack.push(GItem { index: r, ty: rt, is_ptr: false }),
                        counter: r,
                    },
                    body_line(load_text(r, rt, st0.stack.last().index)) + body_line(
                        ret_text(rt, r),
                    ),
                ),
            ));
            assert(g.method_gen.st() == out_state(lower_inst(rt, st0, GInst::Ret)));
            assert(g.builder@ == prev_builder + out_text(lower_inst(rt, st0, GInst::Ret))) by {
                assert(prev_builder + body_line(load_text(r, rt, st0.stack.last().index)) + (
                "    "@ + rline@ + "\n"@) =~= prev_builder + (body_line(
                    load_text(r, rt, st0.stack.last().index),
                ) + body_line(ret_text(rt, r))));
            }
        } else {
            assert(last_index as nat == st0.stack.last().index);
            assert(rline@ =~= ret_text(rt, st0.stack.last().index));
            assert(lower_inst(rt, st0, GInst::Ret) == Ok::<(GState, Seq<char>), GenError>(
                (st0, body_line(ret_text(rt, st0.stack.last().index))),
            ));
            assert(g.method_gen.st() == out_state(lower_inst(rt, st0, GInst::Ret)));
            assert(g.builder@ == prev_builder + out_text(lower_inst(rt, st0, GInst::Ret))) by {
                assert(prev_builder + ("    "@ + rline@ + "\n"@) =~= prev_builder + body_line(
                    ret_text(rt, st0.stack.last().index),
                ));
            }
        }
    }
    Ok(())
}

/// Lowers one binary arithmetic instruction: checks the two topmost
/// operands, loads the memory-resident ones, and emits the operation
/// with the later-popped operand written first.
#[verifier::rlimit(50)]
fn gen_binop(g: &mut Gen, instruction: &Instruction, Ghost(ret_ty): Ghost<Seq<char>>) -> (res:
    Result<(), GenError>)
    requires
        is_binary(instruction@),
        old(g).method_gen.indent == 1,
        old(g).method_gen.empty_line == true,
        old(g).method_gen.variable_index + 3 <= usize::MAX,
    ensures
        final(g).method_gen.indent == 1,
        final(g).method_gen.empty_line == true,
        final(g).method_gen.st().counter <= old(g).method_gen.st().counter + 3,
        (match res {
            Ok(_) => lower_inst(ret_ty, old(g).method_gen.st(), instruction@) is Ok
                && final(g).method_gen.st() == out_state(
                lower_inst(ret_ty, old(g).method_gen.st(), instruction@),
            ) && final(g).builder@ == old(g).builder@ + out_text(
                lower_inst(ret_ty, old(g).method_gen.st(), instruction@),
            ),
            Err(e) => lower_inst(ret_ty, old(g).method_gen.st(), instruction@) == Err::<
                (GState, Seq<char>),
                GenError,
            >(e),
        }),
{
    let ghost st0 = old(g).method_gen.st();
    let ghost prev_builder = old(g).builder@;
    let ghost gi = instruction@;
    if g.method_gen.stack_tracker.len() < 2 {
        proof {
            assert(st0.stack.len() < 2);
        }
        return Err(GenError::StackUnderflow);
    }
    let operand_type = g.method_gen.last_type();
    let ghost ty = operand_type@;
    let ghost first = st0.stack.last();
    let ghost second = st0.stack[st0.stack.len() - 2];
    if !g.method_gen.assert_same_type(&operand_type, 2) {
        proof {
            assert(second.ty != ty) by {
                if second.ty == ty {
                    assert forall|j: int|
                        st0.stack.len() - 2 <= j < st0.stack.len() implies (#[trigger] st0.stack[j]).ty
                        == ty by {
                        if j == st0.stack.len() - 1 {
                        } else {
                            assert(j == st0.stack.len() - 2);
                        }
                    }
                }
            }
        }
        return Err(GenError::TypeMismatch);
    }
    proof {
        assert(st0.stack[st0.stack.len() - 2].ty == ty);
        assert(st0.stack[st0.stack.len() - 1].ty == ty);
    }
    let is_i32 = str_eq(operand_type.as_str(), "i32");
    let is_f32 = str_eq(operand_type.as_str(), "f32");
    if !(is_i32 || is_f32) {
        return Err(GenError::Unsupported);
    }
    let ghost c1s: nat = if first.is_ptr {
        st0.counter + 1
    } else {
        st0.counter
    };
    let ghost c2s: nat = if second.is_ptr {
        c1s + 1
    } else {
        c1s
    };
    let ghost t0s: Seq<char> = if first.is_ptr {
        body_line(load_text(st0.counter + 1, ty, first.index))
    } else {
        Seq::<char>::empty()
    };
    let ghost t1s: Seq<char> = if second.is_ptr {
        body_line(load_text(c1s + 1, ty, second.index))
    } else {
        Seq::<char>::empty()
    };
    let e0 = load_operand(g, &operand_type);
    proof {
        assert(st0.stack.drop_last().last() == second);
        assert(g.method_gen.st().counter == c1s);
        assert(g.builder@ == prev_builder + t0s);
    }
    let e1 = load_operand(g, &operand_type);
    proof {
        assert(g.method_gen.st().stack =~= st0.stack.drop_last().drop_last());
        assert(g.method_gen.st().counter == c2s);
        assert(g.builder@ == prev_builder + t0s + t1s);
    }
    let result_variable = g.method_gen.allocate_variable(&operand_type, false, 1);
    let opcode_str = instruction.opcode(operand_type.as_str());
    let nsw: &str = match instruction {
        Instruction::Add() | Instruction::Sub() => "nsw",
        _ => "",
    };
    let mut line = result_variable[0].clone();
    line.append(" = ");
    line.append(opcode_str.as_str());
    line.append(" ");
    line.append(nsw);
    line.append(" ");
    line.append(operand_type.as_str());
    line.append(" ");
    let r1 = reg_string(e1);
    line.append(r1.as_str());
    line.append(", ");
    let r0 = reg_string(e0);
    line.append(r0.as_str());
    g.writeln(line.as_str());
    proof {
        lemma_indent_one();
        reveal_strlit("");
        assert(nsw@ == nsw_text(gi));
        assert(line@ =~= binop_text(c2s + 1, gi, ty, e1 as nat, e0 as nat));
        assert(lower_inst(ret_ty, st0, gi) == Ok::<(GState, Seq<char>), GenError>(
            (
                GState {
                    stack: st0.stack.drop_last().drop_last().push(
                        GItem { index: c2s + 1, ty: ty, is_ptr: false },
                    ),
                    counter: c2s + 1,
                },
                t0s + t1s + body_line(binop_text(c2s + 1, gi, ty, e1 as nat, e0 as nat)),
            ),
        ));
        assert(g.method_gen.st() == out_state(lower_inst(ret_ty, st0, gi))) by {
            assert(g.method_gen.st().stack =~= st0.stack.drop_last().drop_last().push(
                GItem { index: c2s + 1, ty: ty, is_ptr: false },
            ));
        }
        assert(g.builder@ == prev_builder + out_text(lower_inst(ret_ty, st0, gi))) by {
            assert(prev_builder + t0s + t1s + ("    "@ + line@ + "\n"@) =~= prev_builder + (t0s
                + t1s + body_line(binop_text(c2s + 1, gi, ty, e1 as nat, e0 as nat))));
        }
    }
    Ok(())
}

/// Lowers one whole method into the shared buffer: the header line, each
/// instruction in order, the closing brace.  On the first violated check
/// generation of the whole run is abandoned and the error returned; the
/// buffer's contents are then meaningless and the caller discards them.
fn gen_method(g: &mut Gen, method: &Method) -> (res: Result<(), GenError>)
    requires
        old(g).method_gen.st() == fresh_state(),
        old(g).method_gen.indent == 0,
        old(g).method_gen.empty_line == true,
        3 * method@.instructions.len() <= usize::MAX,
    ensures
        (match res {
            Ok(_) => spec_gen_method(method@) is Ok && final(g).builder@ == old(g).builder@
                + gen_out_text(spec_gen_method(method@)),
            Err(e) => spec_gen_method(method@) == Err::<Seq<char>, GenError>(e),
        }),
{
    let ghost m = method@;
    let ghost init_builder = old(g).builder@;

    let mut header = String::from_str("define ");
    header.append(method.return_type.as_str());
    header.append(" @");
    header.append(method.name.as_str());
    header.append("() {");
    g.writeln(header.as_str());
    g.method_gen.inc_indent();
    proof {
        lemma_indent_one();
        assert(g.builder@ =~= init_builder + method_header(m));
        assert(m.instructions.take(0) =~= Seq::<GInst>::empty());
        assert(init_builder + method_header(m) + Seq::<char>::empty() =~= init_builder
            + method_header(m));
    }

    let n = method.instructions.len();
    let mut idx: usize = 0;
    while idx < n
        invariant
            n == method.instructions@.len(),
            m == method@,
            3 * n <= usize::MAX,
            idx <= n,
            g.method_gen.indent == 1,
            g.method_gen.empty_line == true,
            g.method_gen.st().counter <= 3 * idx,
            g.method_gen.variable_index as nat == g.method_gen.st().counter,
            lower_insts(m.return_type, fresh_state(), m.instructions.take(idx as int)) is Ok,
            out_state(lower_insts(m.return_type, fresh_state(), m.instructions.take(idx as int)))
                == g.method_gen.st(),
            g.builder@ == init_builder + method_header(m) + out_text(
                lower_insts(m.return_type, fresh_state(), m.instructions.take(idx as int)),
            ),
        decreases n - idx,
    {
        let ghost st0 = g.method_gen.st();
        let ghost prev_builder = g.builder@;
        let ghost gi = m.instructions[idx as int];
        let instruction = &method.instructions[idx];
        proof {
            assert(instruction@ == gi);
            assert(3 * idx + 3 <= 3 * n);
        }

        let step: Result<(), GenError> = match instruction {
            Instruction::Push(token) => gen_push(g, token, Ghost(m.return_type)),
            Instruction::Ret() => gen_ret(g, method),
            _ => gen_binop(g, instruction, Ghost(m.return_type)),
        };

        match step {
            Ok(_) => {},
            Err(e) => {
                proof {
                    assert(lower_inst(m.return_type, st0, gi) == Err::<
                        (GState, Seq<char>),
                        GenError,
                    >(e));
                    lemma_lower_insts_snoc(m.return_type, fresh_state(), m.instructions, idx as int);
                    lemma_lower_insts_prefix_err(
                        m.return_type,
                        fresh_state(),
                        m.instructions,
                        idx as int + 1,
                    );
                }
                return Err(e);
            },
        }

        proof {
            lemma_lower_insts_snoc(m.return_type, fresh_state(), m.instructions, idx as int);
            let r_pre = lower_insts(m.return_type, fresh_state(), m.instructions.take(idx as int));
            let r_post = lower_insts(
                m.return_type,
                fresh_state(),
                m.instructions.take(idx as int + 1),
            );
            assert(r_post is Ok);
            assert(out_state(r_post) == g.method_gen.st());
            assert(g.builder@ == init_builder + method_header(m) + out_text(r_post)) by {
                assert(init_builder + method_header(m) + out_text(r_pre) + out_text(
                    lower_inst(m.return_type, st0, gi),
                ) =~= init_builder + method_header(m) + (out_text(r_pre) + out_text(
                    lower_inst(m.return_type, st0, gi),
                )));
            }
        }
        idx += 1;
    }

    proof {
        assert(m.instructions.take(n as int) =~= m.instructions);
    }
    g.method_gen.dec_indent();
    g.writeln("}");
    proof {
        lemma_indent_one();
        let r_all = lower_insts(m.return_type, fresh_state(), m.instructions);
        assert(spec_gen_method(m) == Ok::<Seq<char>, GenError>(
            method_header(m) + out_text(r_all) + "}"@ + "\n"@,
        ));
        assert(g.builder@ == init_builder + gen_out_text(spec_gen_method(m))) by {
            assert(init_builder + method_header(m) + out_text(r_all) + "}"@ + "\n"@ =~= init_builder
                + (method_header(m) + out_text(r_all) + "}"@ + "\n"@));
        }
    }
    Ok(())
}

/// Generates the whole output text for a method sequence, each method
/// lowered from a fresh generator state.  Returns the first error met,
/// with no partial output.
pub fn gen(methods: Vec<Method>) -> (r: Result<String, GenError>)
    requires
        forall|i: int|
            0 <= i < methods@.len() ==> (#[trigger] methods@[i]).instructions@.len() >= 1,
        forall|i: int|
            0 <= i < methods@.len() ==> 3 * (#[trigger] methods@[i]).instructions@.len()
                <= usize::MAX,
    ensures
        (match r {
            Ok(s) => spec_gen(methods_view(methods@)) == Ok::<Seq<char>, GenError>(s@),
            Err(e) => spec_gen(methods_view(methods@)) == Err::<Seq<char>, GenError>(e),
        }),
{
    let ghost mv = methods_view(methods@);
    let mut g = Gen::new();
    proof {
        assert(mv.take(0) =~= Seq::<GMethod>::empty());
    }
    let n = methods.len();
    let mut i: usize = 0;
    while i < n
        invariant
            n == methods@.len(),
            mv == methods_view(methods@),
            forall|j: int|
                0 <= j < methods@.len() ==> (#[trigger] methods@[j]).instructions@.len() >= 1,
            forall|j: int|
                0 <= j < methods@.len() ==> 3 * (#[trigger] methods@[j]).instructions@.len()
                    <= usize::MAX,
            i <= n,
            g.method_gen.st() == fresh_state(),
            g.method_gen.indent == 0,
            g.method_gen.empty_line == true,
            spec_gen(mv.take(i as int)) is Ok,
            gen_out_text(spec_gen(mv.take(i as int))) == g.builder@,
        decreases n - i,
    {
        proof {
            assert(methods@[i as int]@ == mv[i as int]);
            assert(methods@[i as int]@.instructions.len() == methods@[
                i as int].instructions@.len());
        }
        let res = gen_method(&mut g, &methods[i]);
        match res {
            Ok(_) => {},
            Err(e) => {
                proof {
                    lemma_spec_gen_snoc(mv, i as int);
                    assert(spec_gen(mv.take(i as int + 1)) == Err::<Seq<char>, GenError>(e));
                    lemma_spec_gen_prefix_err(mv, i as int + 1);
                }
                return Err(e);
            },
        }
        g.method_gen = MethodGen::new();
        proof {
            lemma_spec_gen_snoc(mv, i as int);
            assert(spec_gen(mv.take(i as int + 1)) is Ok);
        }
        i += 1;
    }
    proof {
        assert(mv.take(n as int) =~= mv);
    }
    Ok(g.builder)
}

/// The registers one instruction assigns, in the order allocated.
pub open spec fn inst_assigned(ret_ty: Seq<char>, st: GState, i: GInst) -> Seq<nat> {
    match i {
        GInst::Push(t) => if t.kind is Integer {
            seq![st.counter + 1]
        } else {
            Seq::empty()
        },
        GInst::Ret => {
            if ret_ty == "void"@ {
                Seq::empty()
            } else if st.stack.len() >= 1 && st.stack.last().ty == ret_ty
                && st.stack.last().is_ptr {
                seq![st.counter + 1]
            } else {
                Seq::empty()
            }
        },
        _ => {
            if st.stack.len() < 2 {
                Seq::empty()
            } else {
                let first = st.stack.last();
                let second = st.stack[st.stack.len() - 2];
                let ty = first.ty;
                if second.ty != ty || (ty != "i32"@ && ty != "f32"@) {
                    Seq::empty()
                } else {
                    let a0: Seq<nat> = if first.is_ptr {
                        seq![st.counter + 1]
                    } else {
                        Seq::empty()
                    };
                    let c1 = if first.is_ptr {
                        st.counter + 1
                    } else {
                        st.counter
                    };
                    let a1: Seq<nat> = if second.is_ptr {
                        seq![c1 + 1]
                    } else {
                        Seq::empty()
                    };
                    let c2 = if second.is_ptr {
                        c1 + 1
                    } else {
                        c1
                    };
                    a0 + a1 + seq![c2 + 1]
                }
            }
        },
    }
}

/// The registers a whole instruction sequence assigns, in order, while
/// lowering succeeds.
pub open spec fn run_assigned(ret_ty: Seq<char>, st: GState, insts: Seq<GInst>) -> Seq<nat>
    decreases insts.len(),
{
    if insts.len() == 0 {
        Seq::empty()
    } else {
        match lower_inst(ret_ty, st, insts[0]) {
            Ok(p) => inst_assigned(ret_ty, st, insts[0]) + run_assigned(
                ret_ty,
                p.0,
                insts.drop_first(),
            ),
            Err(_) => Seq::empty(),
        }
    }
}

/// The consecutive register numbers `lo + 1 ..= hi`, in increasing order.
pub open spec fn reg_range(lo: nat, hi: nat) -> Seq<nat> {
    Seq::new((hi - lo) as nat, |k: int| (lo + 1 + k) as nat)
}

proof fn lemma_inst_assigned(ret_ty: Seq<char>, st: GState, i: GInst)
    ensures
        lower_inst(ret_ty, st, i) is Ok ==> out_state(lower_inst(ret_ty, st, i)).counter
            >= st.counter,
        lower_inst(ret_ty, st, i) is Ok ==> inst_assigned(ret_ty, st, i) == reg_range(
            st.counter,
            out_state(lower_inst(ret_ty, st, i)).counter,
        ),
{
    if lower_inst(ret_ty, st, i) is Ok {
        let cf = out_state(lower_inst(ret_ty, st, i)).counter;
        match i {
            GInst::Push(_) => {
                assert(inst_assigned(ret_ty, st, i) =~= reg_range(st.counter, cf));
            },
            GInst::Ret => {
                assert(inst_assigned(ret_ty, st, i) =~= reg_range(st.counter, cf));
            },
            _ => {
                let first = st.stack.last();
                let second = st.stack[st.stack.len() - 2];
                if first.is_ptr && second.is_ptr {
                    assert(inst_assigned(ret_ty, st, i) =~= reg_range(st.counter, cf));
                } else if first.is_ptr || second.is_ptr {
                    assert(inst_assigned(ret_ty, st, i) =~= reg_range(st.counter, cf));
                } else {
                    assert(inst_assigned(ret_ty, st, i) =~= reg_range(st.counter, cf));
                }
            },
        }
    }
}

/// Register monotonicity: a successful lowering assigns exactly the
/// consecutive register numbers from one past the starting counter up to
/// the final counter, in increasing order — none skipped, none reused.
pub proof fn lemma_register_monotonicity(ret_ty: Seq<char>, st: GState, insts: Seq<GInst>)
    ensures
        lower_insts(ret_ty, st, insts) is Ok ==> out_state(lower_insts(ret_ty, st, insts)).counter
            >= st.counter,
        lower_insts(ret_ty, st, insts) is Ok ==> run_assigned(ret_ty, st, insts) == reg_range(
            st.counter,
            out_state(lower_insts(ret_ty, st, insts)).counter,
        ),
    decreases insts.len(),
{
    if lower_insts(ret_ty, st, insts) is Ok {
        if insts.len() == 0 {
            assert(run_assigned(ret_ty, st, insts) =~= reg_range(st.counter, st.counter));
        } else {
            match lower_inst(ret_ty, st, insts[0]) {
                Ok(p) => {
                    lemma_inst_assigned(ret_ty, st, insts[0]);
                    lemma_register_monotonicity(ret_ty, p.0, insts.drop_first());
                    let cf = out_state(lower_insts(ret_ty, p.0, insts.drop_first())).counter;
                    assert(out_state(lower_insts(ret_ty, st, insts)).counter == cf);
                    assert(reg_range(st.counter, p.0.counter) + reg_range(p.0.counter, cf)
                        =~= reg_range(st.counter, cf));
                },
                Err(_) => {
                    assert(false);
                },
            }
        }
    }
}

/// Register numbering from a fresh state: the assigned registers are
/// exactly 1, 2, 3, … — the first is 1, each is one more than its
/// predecessor, and their count is the final counter value.
pub proof fn lemma_registers_start_at_one(ret_ty: Seq<char>, insts: Seq<GInst>)
    ensures
        lower_insts(ret_ty, fresh_state(), insts) is Ok ==> {
            let a = run_assigned(ret_ty, fresh_state(), insts);
            &&& a.len() == out_state(lower_insts(ret_ty, fresh_state(), insts)).counter
            &&& (forall|k: int| 0 <= k < a.len() ==> #[trigger] a[k] == k + 1)
            &&& (forall|k: int| 0 < k < a.len() ==> a[k - 1] < #[trigger] a[k])
        },
{
    lemma_register_monotonicity(ret_ty, fresh_state(), insts);
}

/// Type-mismatch rejection: a binary arithmetic instruction whose two
/// topmost stack items disagree in type name aborts generation with a
/// type mismatch, whatever the declared return type — no operation line
/// with mismatched operand types is ever emitted.
pub proof fn lemma_type_mismatch_rejected(ret_ty: Seq<char>, st: GState, i: GInst)
    requires
        is_binary(i),
        st.stack.len() >= 2,
        st.stack.last().ty != st.stack[st.stack.len() - 2].ty,
    ensures
        lower_inst(ret_ty, st, i) == Err::<(GState, Seq<char>), GenError>(GenError::TypeMismatch),
{
}

/// Opcode selection on `i32`: division and remainder take the signed
/// forms `sdiv` and `srem`; addition, subtraction and multiplication use
/// the bare root; and only addition and subtraction carry the `nsw`
/// qualifier.
pub proof fn lemma_opcode_selection()
    ensures
        spec_opcode(GInst::Add, "i32"@) == "add"@,
        spec_opcode(GInst::Sub, "i32"@) == "sub"@,
        spec_opcode(GInst::Mul, "i32"@) == "mul"@,
        spec_opcode(GInst::Div, "i32"@) == "sdiv"@,
        spec_opcode(GInst::Rem, "i32"@) == "srem"@,
        nsw_text(GInst::Add) == "nsw"@,
        nsw_text(GInst::Sub) == "nsw"@,
        nsw_text(GInst::Mul) == Seq::<char>::empty(),
        nsw_text(GInst::Div) == Seq::<char>::empty(),
        nsw_text(GInst::Rem) == Seq::<char>::empty(),
{
    reveal_strlit("s");
    reveal_strlit("add");
    reveal_strlit("sub");
    reveal_strlit("mul");
    reveal_strlit("div");
    reveal_strlit("rem");
    reveal_strlit("sdiv");
    reveal_strlit("srem");
    assert(Seq::<char>::empty() + "add"@ =~= "add"@);
    assert(Seq::<char>::empty() + "sub"@ =~= "sub"@);
    assert(Seq::<char>::empty() + "mul"@ =~= "mul"@);
    assert("s"@ + "div"@ =~= "sdiv"@);
    assert("s"@ + "rem"@ =~= "srem"@);
}

/// Void return: a method declared `void` emits `ret void` and leaves the
/// state untouched, whatever the operand stack holds — empty or not.
pub proof fn lemma_void_return(st: GState)
    ensures
        lower_inst("void"@, st, GInst::Ret) == Ok::<(GState, Seq<char>), GenError>(
            (st, body_line("ret void"@)),
        ),
{
}

/// Isolation across methods: the text generated for two methods back to
/// back is exactly the first method's text followed by the second's,
/// each lowered from a fresh state — the register counter restarts for
/// the second method no matter how many registers the first consumed.
pub proof fn lemma_isolation_across_methods(m1: GMethod, m2: GMethod)
    requires
        spec_gen_method(m1) is Ok,
        spec_gen_method(m2) is Ok,
    ensures
        spec_gen(seq![m1, m2]) == Ok::<Seq<char>, GenError>(
            gen_out_text(spec_gen_method(m1)) + gen_out_text(spec_gen_method(m2)),
        ),
{
    reveal_with_fuel(spec_gen, 4);
    let s = seq![m1, m2];
    assert(s[0] == m1);
    assert(s.drop_first() =~= seq![m2]);
    assert(s.drop_first()[0] == m2);
    assert(s.drop_first().drop_first() =~= Seq::<GMethod>::empty());
    assert(spec_gen(s.drop_first().drop_first()) == Ok::<Seq<char>, GenError>(
        Seq::<char>::empty(),
    ));
    assert(gen_out_text(spec_gen_method(m2)) + Seq::<char>::empty() =~= gen_out_text(
        spec_gen_method(m2),
    ));
}

/// Stack balance for `ret`: a method with return type `i32` that pushes
/// one integer literal and immediately returns emits exactly four body
/// lines — an alloca, a store, a load (the pushed literal lives in a
/// memory slot, so the return still loads it), and the return of the
/// freshly loaded register.
pub proof fn lemma_push_then_ret(m: GMethod, t: GToken)
    requires
        m.return_type == "i32"@,
        m.instructions == seq![GInst::Push(t), GInst::Ret],
        t.kind is Integer,
    ensures
        spec_gen_method(m) == Ok::<Seq<char>, GenError>(
            method_header(m) + body_line(alloca_text(1, "i32"@)) + body_line(
                store_text("i32"@, t.literal, 1),
            ) + body_line(load_text(2, "i32"@, 1)) + body_line(ret_text("i32"@, 2)) + "}"@ + "\n"@,
        ),
{
    reveal_with_fuel(lower_insts, 4);
    reveal_strlit("i32");
    reveal_strlit("void");
    let insts = m.instructions;
    assert(insts[0] == GInst::Push(t));
    assert(insts[1] == GInst::Ret);
    assert("i32"@ != "void"@) by {
        assert("i32"@.len() == 3);
        assert("void"@.len() == 4);
    }
    let st0 = fresh_state();
    let item = GItem { index: 1, ty: "i32"@, is_ptr: true };
    let st1 = GState { stack: st0.stack.push(item), counter: 1 };
    let t0 = body_line(alloca_text(1, "i32"@)) + body_line(store_text("i32"@, t.literal, 1));
    assert(lower_inst(m.return_type, st0, insts[0]) == Ok::<(GState, Seq<char>), GenError>(
        (st1, t0),
    ));
    assert(st1.stack.last() == item);
    let st2 = GState {
        stack: st1.stack.push(GItem { index: 2, ty: "i32"@, is_ptr: false }),
        counter: 2,
    };
    let t1 = body_line(load_text(2, "i32"@, 1)) + body_line(ret_text("i32"@, 2));
    assert(lower_inst(m.return_type, st1, insts[1]) == Ok::<(GState, Seq<char>), GenError>(
        (st2, t1),
    ));
    assert(insts.drop_first() =~= seq![GInst::Ret]);
    assert(insts.drop_first()[0] == GInst::Ret);
    assert(insts.drop_first().drop_first() =~= Seq::<GInst>::empty());
    assert(lower_insts(m.return_type, st2, insts.drop_first().drop_first()) == Ok::<
        (GState, Seq<char>),
        GenError,
    >((st2, Seq::<char>::empty())));
    assert(lower_insts(m.return_type, st1, insts.drop_first()) == Ok::<
        (GState, Seq<char>),
        GenError,
    >((st2, t1 + Seq::<char>::empty())));
    assert(lower_insts(m.return_type, st0, insts) == Ok::<(GState, Seq<char>), GenError>(
        (st2, t0 + (t1 + Seq::<char>::empty())),
    ));
    assert(method_header(m) + (t0 + (t1 + Seq::<char>::empty())) + "}"@ + "\n"@ =~= method_header(
        m,
    ) + body_line(alloca_text(1, "i32"@)) + body_line(store_text("i32"@, t.literal, 1))
        + body_line(load_text(2, "i32"@, 1)) + body_line(ret_text("i32"@, 2)) + "}"@ + "\n"@);
}

} // verus!
