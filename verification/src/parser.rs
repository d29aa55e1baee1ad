//! The parser: consumes the token sequence (ignoring whitespace tokens)
//! and produces methods, each with a return-type name, a name, and an
//! ordered sequence of stack-machine instructions.

use vstd::prelude::*;

use crate::lexer::{tokens_view, GToken, Token, Type};
use crate::text::str_eq;

verus! {

/// One stack-machine instruction.
#[derive(Debug)]
pub enum Instruction {
    Push(Token),
    Add(),
    Sub(),
    Mul(),
    Div(),
    Rem(),
    Ret(),
}

/// The mathematical content of an instruction.
pub ghost enum GInst {
    Push(GToken),
    Add,
    Sub,
    Mul,
    Div,
    Rem,
    Ret,
}

impl View for Instruction {
    type V = GInst;

    open spec fn view(&self) -> GInst {
        match self {
            Instruction::Push(t) => GInst::Push(t@),
            Instruction::Add() => GInst::Add,
            Instruction::Sub() => GInst::Sub,
            Instruction::Mul() => GInst::Mul,
            Instruction::Div() => GInst::Div,
            Instruction::Rem() => GInst::Rem,
            Instruction::Ret() => GInst::Ret,
        }
    }
}

/// The contents of an instruction sequence.
pub open spec fn insts_view(is: Seq<Instruction>) -> Seq<GInst> {
    is.map_values(|i: Instruction| i@)
}

/// One method: a declared return-type name, a name, and a non-empty body
/// of instructions.
#[derive(Debug)]
pub struct Method {
    pub return_type: String,
    pub name: String,
    pub instructions: Vec<Instruction>,
}

/// The mathematical content of a method.
pub ghost struct GMethod {
    pub return_type: Seq<char>,
    pub name: Seq<char>,
    pub instructions: Seq<GInst>,
}

impl View for Method {
    type V = GMethod;

    open spec fn view(&self) -> GMethod {
        GMethod {
            return_type: self.return_type@,
            name: self.name@,
            instructions: insts_view(self.instructions@),
        }
    }
}

/// The contents of a method sequence.
pub open spec fn methods_view(ms: Seq<Method>) -> Seq<GMethod> {
    ms.map_values(|m: Method| m@)
}

/// The mnemonic root for each instruction kind.
pub open spec fn opcode_root(i: GInst) -> Seq<char> {
    match i {
        GInst::Add => "add"@,
        GInst::Sub => "sub"@,
        GInst::Mul => "mul"@,
        GInst::Div => "div"@,
        GInst::Rem => "rem"@,
        GInst::Ret => "ret"@,
        GInst::Push(_) => Seq::empty(),
    }
}

/// The opcode mnemonic for instruction `i` at operand type `ty`: an `s`
/// prefix for division and remainder on the signed type `i32`, an `f`
/// prefix for every operation on the floating type `f32`, and the bare
/// root otherwise.  Meaningful only for those two type names.
pub open spec fn spec_opcode(i: GInst, ty: Seq<char>) -> Seq<char> {
    let prefix: Seq<char> = if ty == "i32"@ {
        if i is Div || i is Rem {
            "s"@
        } else {
            Seq::empty()
        }
    } else {
        "f"@
    };
    prefix + opcode_root(i)
}

impl Instruction {
    /// The opcode mnemonic for this instruction at operand type `ty_name`.
    /// Any type name other than `i32` or `f32` is an internal error and is
    /// excluded by the precondition.
    pub fn opcode(&self, ty_name: &str) -> (r: String)
        requires
            ty_name@ == "i32"@ || ty_name@ == "f32"@,
        ensures
            r@ == spec_opcode(self@, ty_name@),
    {
        let mut type_prefix: String = if str_eq(ty_name, "i32") {
            match self {
                Instruction::Div() | Instruction::Rem() => String::from_str("s"),
                _ => String::new(),
            }
        } else {
            String::from_str("f")
        };
        let root: &str = match self {
            Instruction::Add() => "add",
            Instruction::Sub() => "sub",
            Instruction::Mul() => "mul",
            Instruction::Div() => "div",
            Instruction::Rem() => "rem",
            Instruction::Ret() => "ret",
            Instruction::Push(_) => "",
        };
        type_prefix.append(root);
        proof {
            reveal_strlit("");
            assert(type_prefix@ =~= spec_opcode(self@, ty_name@));
        }
        type_prefix
    }
}

/// Why parsing failed.
#[derive(Debug, Clone, Copy, PartialEq, Eq, Structural)]
pub enum ParseError {
    /// The token stream ended where a token was still required.
    UnexpectedEnd,
    /// A token of the wrong kind stood where another was required.
    UnexpectedToken,
    /// An identifier that names no instruction began a body line.
    UnknownInstruction,
}

/// The token sequence with every whitespace token removed.
pub open spec fn drop_ws(ts: Seq<GToken>) -> Seq<GToken> {
    ts.filter(|t: GToken| t.kind != Type::Whitespace)
}

/// The instruction parsed at the head of `ts`, with the number of tokens
/// it consumed: a known mnemonic identifier, for `push` followed by an
/// integer literal.
pub open spec fn spec_parse_inst(ts: Seq<GToken>) -> Result<(GInst, nat), ParseError> {
    if ts.len() == 0 {
        Err(ParseError::UnexpectedEnd)
    } else if ts[0].kind != Type::Identifier {
        Err(ParseError::UnexpectedToken)
    } else if ts[0].literal == "push"@ {
        if ts.len() < 2 {
            Err(ParseError::UnexpectedEnd)
        } else if ts[1].kind != Type::Integer {
            Err(ParseError::UnexpectedToken)
        } else {
            Ok((GInst::Push(ts[1]), 2))
        }
    } else if ts[0].literal == "add"@ {
        Ok((GInst::Add, 1))
    } else if ts[0].literal == "sub"@ {
        Ok((GInst::Sub, 1))
    } else if ts[0].literal == "mul"@ {
        Ok((GInst::Mul, 1))
    } else if ts[0].literal == "div"@ {
        Ok((GInst::Div, 1))
    } else if ts[0].literal == "rem"@ {
        Ok((GInst::Rem, 1))
    } else if ts[0].literal == "ret"@ {
        Ok((GInst::Ret, 1))
    } else {
        Err(ParseError::UnknownInstruction)
    }
}

/// The instructions parsed from `ts` until it is exhausted, each
/// terminated by one line-break token.
pub open spec fn spec_parse_insts(ts: Seq<GToken>) -> Result<Seq<GInst>, ParseError>
    decreases ts.len(),
{
    if ts.len() == 0 {
        Ok(Seq::empty())
    } else {
        match spec_parse_inst(ts) {
            Ok(p) => {
                if ts.len() < p.1 + 1 {
                    Err(ParseError::UnexpectedEnd)
                } else if ts[p.1 as int].kind != Type::LineBreak {
                    Err(ParseError::UnexpectedToken)
                } else {
                    match spec_parse_insts(ts.skip(p.1 as int + 1)) {
                        Ok(rest) => Ok(seq![p.0] + rest),
                        Err(e) => Err(e),
                    }
                }
            },
            Err(e) => Err(e),
        }
    }
}

/// The method parsed from the whole whitespace-free token sequence `ts`
/// (`ts` is non-empty): return-type identifier, name identifier, colon,
/// line break, then one instruction per line until the tokens end.  The
/// grammar of the header tail is checked first, the body next, and the
/// two leading identifiers last.
pub open spec fn spec_parse_method(ts: Seq<GToken>) -> Result<GMethod, ParseError> {
    if ts.len() < 3 {
        Err(ParseError::UnexpectedEnd)
    } else if ts[2].kind != Type::Colon {
        Err(ParseError::UnexpectedToken)
    } else if ts.len() < 4 {
        Err(ParseError::UnexpectedEnd)
    } else if ts[3].kind != Type::LineBreak {
        Err(ParseError::UnexpectedToken)
    } else {
        match spec_parse_insts(ts.skip(4)) {
            Ok(insts) => {
                if ts[0].kind != Type::Identifier {
                    Err(ParseError::UnexpectedToken)
                } else if ts[1].kind != Type::Identifier {
                    Err(ParseError::UnexpectedToken)
                } else {
                    Ok(
                        GMethod {
                            return_type: ts[0].literal,
                            name: ts[1].literal,
                            instructions: insts,
                        },
                    )
                }
            },
            Err(e) => Err(e),
        }
    }
}

/// The methods parsed from a token sequence: whitespace tokens are
/// ignored; an empty stream yields no methods; otherwise one method
/// consumes the whole stream.
pub open spec fn spec_parse(ts: Seq<GToken>) -> Result<Seq<GMethod>, ParseError> {
    let f = drop_ws(ts);
    if f.len() == 0 {
        Ok(Seq::empty())
    } else {
        match spec_parse_method(f) {
            Ok(m) => Ok(seq![m]),
            Err(e) => Err(e),
        }
    }
}

/// The instruction of a successful parse step.
pub open spec fn parsed_inst(r: Result<(GInst, nat), ParseError>) -> GInst {
    match r {
        Ok(p) => p.0,
        Err(_) => GInst::Ret,
    }
}

/// The number of tokens a successful parse step consumed.
pub open spec fn parsed_len(r: Result<(GInst, nat), ParseError>) -> nat {
    match r {
        Ok(p) => p.1,
        Err(_) => 0,
    }
}

/// The method of a successful method parse.
pub open spec fn parsed_method(r: Result<GMethod, ParseError>) -> GMethod {
    match r {
        Ok(m) => m,
        Err(_) => GMethod {
            return_type: Seq::empty(),
            name: Seq::empty(),
            instructions: Seq::empty(),
        },
    }
}

/// The methods of a successful parse.
pub open spec fn parsed_methods(r: Result<Seq<GMethod>, ParseError>) -> Seq<GMethod> {
    match r {
        Ok(ms) => ms,
        Err(_) => Seq::empty(),
    }
}

fn expect_kind(token: &Token, token_type: Type) -> (r: Result<(), ParseError>)
    ensures
        token@.kind == token_type ==> r == Ok::<(), ParseError>(()),
        token@.kind != token_type ==> r == Err::<(), ParseError>(ParseError::UnexpectedToken),
{
    if token.token_type == token_type {
        Ok(())
    } else {
        Err(ParseError::UnexpectedToken)
    }
}

fn parse_instruction(tokens: &Vec<Token>, pos: usize) -> (r: Result<
    (Instruction, usize),
    ParseError,
>)
    requires
        pos <= tokens@.len(),
    ensures
        (match r {
            Ok(p) => spec_parse_inst(tokens_view(tokens@).skip(pos as int)) is Ok && p.0@
                == parsed_inst(spec_parse_inst(tokens_view(tokens@).skip(pos as int))) && p.1 as nat
                == parsed_len(spec_parse_inst(tokens_view(tokens@).skip(pos as int))) && 1 <= p.1
                <= 2 && pos + p.1 <= tokens@.len(),
            Err(e) => spec_parse_inst(tokens_view(tokens@).skip(pos as int)) == Err::<
                (GInst, nat),
                ParseError,
            >(e),
        }),
{
    let ghost vs = tokens_view(tokens@).skip(pos as int);
    if pos >= tokens.len() {
        return Err(ParseError::UnexpectedEnd);
    }
    proof {
        assert(vs[0] == tokens_view(tokens@)[pos as int]);
    }
    let t0 = &tokens[pos];
    if t0.token_type != Type::Identifier {
        return Err(ParseError::UnexpectedToken);
    }
    if str_eq(t0.literal.as_str(), "push") {
        if pos + 1 >= tokens.len() {
            return Err(ParseError::UnexpectedEnd);
        }
        proof {
            assert(vs[1] == tokens_view(tokens@)[pos as int + 1]);
        }
        let t1 = &tokens[pos + 1];
        if t1.token_type != Type::Integer {
            return Err(ParseError::UnexpectedToken);
        }
        let copied = Token { token_type: t1.token_type, literal: t1.literal.clone() };
        return Ok((Instruction::Push(copied), 2));
    }
    if str_eq(t0.literal.as_str(), "add") {
        return Ok((Instruction::Add(), 1));
    }
    if str_eq(t0.literal.as_str(), "sub") {
        return Ok((Instruction::Sub(), 1));
    }
    if str_eq(t0.literal.as_str(), "mul") {
        return Ok((Instruction::Mul(), 1));
    }
    if str_eq(t0.literal.as_str(), "div") {
        return Ok((Instruction::Div(), 1));
    }
    if str_eq(t0.literal.as_str(), "rem") {
        return Ok((Instruction::Rem(), 1));
    }
    if str_eq(t0.literal.as_str(), "ret") {
        return Ok((Instruction::Ret(), 1));
    }
    Err(ParseError::UnknownInstruction)
}

fn parse_method(tokens: &Vec<Token>) -> (r: Result<Method, ParseError>)
    requires
        tokens@.len() >= 1,
    ensures
        (match r {
            Ok(meth) => spec_parse_method(tokens_view(tokens@)) is Ok && meth@ == parsed_method(
                spec_parse_method(tokens_view(tokens@)),
            ),
            Err(e) => spec_parse_method(tokens_view(tokens@)) == Err::<GMethod, ParseError>(e),
        }),
{
    let ghost vs = tokens_view(tokens@);
    if tokens.len() < 3 {
        return Err(ParseError::UnexpectedEnd);
    }
    match expect_kind(&tokens[2], Type::Colon) {
        Ok(_) => {},
        Err(e) => {
            return Err(e);
        },
    }
    if tokens.len() < 4 {
        return Err(ParseError::UnexpectedEnd);
    }
    match expect_kind(&tokens[3], Type::LineBreak) {
        Ok(_) => {},
        Err(e) => {
            return Err(e);
        },
    }
    proof {
        assert(vs.len() == tokens@.len());
        assert(vs[2] == tokens@[2]@);
        assert(vs[3] == tokens@[3]@);
        assert(vs[2].kind == Type::Colon);
        assert(vs[3].kind == Type::LineBreak);
    }
    let mut instructions: Vec<Instruction> = Vec::new();
    let mut pos: usize = 4;
    proof {
        assert(vs.skip(4).skip(0) =~= vs.skip(4));
        assert(insts_view(instructions@) =~= Seq::<GInst>::empty());
        assert(vs.skip(pos as int) =~= vs.skip(4));
    }
    while pos < tokens.len()
        invariant
            4 <= pos <= tokens@.len(),
            vs == tokens_view(tokens@),
            vs.len() == tokens@.len(),
            tokens@.len() >= 4,
            vs[2].kind == Type::Colon,
            vs[3].kind == Type::LineBreak,
            spec_parse_insts(vs.skip(4)) == (match spec_parse_insts(vs.skip(pos as int)) {
                Ok(rest) => Ok::<Seq<GInst>, ParseError>(insts_view(instructions@) + rest),
                Err(e) => Err::<Seq<GInst>, ParseError>(e),
            }),
        decreases tokens@.len() - pos,
    {
        let ghost rem = vs.skip(pos as int);
        let step = parse_instruction(tokens, pos);
        let (inst, consumed) = match step {
            Ok(p) => p,
            Err(e) => {
                proof {
                    assert(spec_parse_insts(rem) == Err::<Seq<GInst>, ParseError>(e));
                }
                return Err(e);
            },
        };
        if pos + consumed >= tokens.len() {
            proof {
                assert(rem.len() < parsed_len(spec_parse_inst(rem)) + 1);
                assert(spec_parse_insts(rem) == Err::<Seq<GInst>, ParseError>(
                    ParseError::UnexpectedEnd,
                ));
            }
            return Err(ParseError::UnexpectedEnd);
        }
        proof {
            assert(rem[consumed as int] == vs[pos as int + consumed as int]);
        }
        match expect_kind(&tokens[pos + consumed], Type::LineBreak) {
            Ok(_) => {},
            Err(e) => {
                proof {
                    assert(rem[consumed as int].kind != Type::LineBreak);
                    assert(spec_parse_insts(rem) == Err::<Seq<GInst>, ParseError>(e));
                }
                return Err(e);
            },
        }
        let ghost pre_insts = instructions@;
        instructions.push(inst);
        proof {
            assert(rem.skip(consumed as int + 1) =~= vs.skip(pos as int + consumed as int + 1));
            assert(spec_parse_insts(rem) == (match spec_parse_insts(
                vs.skip(pos as int + consumed as int + 1),
            ) {
                Ok(rest) => Ok::<Seq<GInst>, ParseError>(seq![inst@] + rest),
                Err(e) => Err::<Seq<GInst>, ParseError>(e),
            }));
            assert(insts_view(instructions@) =~= insts_view(pre_insts).push(inst@));
            match spec_parse_insts(vs.skip(pos as int + consumed as int + 1)) {
                Ok(rest) => {
                    assert(insts_view(pre_insts) + (seq![inst@] + rest) =~= insts_view(
                        instructions@,
                    ) + rest);
                },
                Err(_) => {},
            }
        }
        pos = pos + consumed + 1;
    }
    proof {
        assert(vs.skip(pos as int) =~= Seq::<GToken>::empty());
        assert(spec_parse_insts(vs.skip(pos as int)) == Ok::<Seq<GInst>, ParseError>(
            Seq::<GInst>::empty(),
        ));
        assert(insts_view(instructions@) + Seq::<GInst>::empty() =~= insts_view(instructions@));
    }
    match expect_kind(&tokens[0], Type::Identifier) {
        Ok(_) => {},
        Err(e) => {
            return Err(e);
        },
    }
    match expect_kind(&tokens[1], Type::Identifier) {
        Ok(_) => {},
        Err(e) => {
            return Err(e);
        },
    }
    let meth = Method {
        return_type: tokens[0].literal.clone(),
        name: tokens[1].literal.clone(),
        instructions,
    };
    proof {
        assert(vs[0] == tokens@[0]@);
        assert(vs[1] == tokens@[1]@);
        assert(meth@ == parsed_method(spec_parse_method(vs)));
    }
    Ok(meth)
}

/// Parses a token sequence into methods: whitespace tokens are filtered
/// out first; an empty stream yields no methods, and otherwise a single
/// method consumes the whole stream.
pub fn parse(tokens: Vec<Token>) -> (r: Result<Vec<Method>, ParseError>)
    ensures
        (match r {
            Ok(ms) => spec_parse(tokens_view(tokens@)) is Ok && methods_view(ms@) == parsed_methods(
                spec_parse(tokens_view(tokens@)),
            ),
            Err(e) => spec_parse(tokens_view(tokens@)) == Err::<Seq<GMethod>, ParseError>(e),
        }),
{
    let ghost vs = tokens_view(tokens@);
    let mut filtered: Vec<Token> = Vec::new();
    let mut i: usize = 0;
    proof {
        assert(vs.take(0) =~= Seq::<GToken>::empty());
        reveal(Seq::filter);
        assert(tokens_view(filtered@) =~= drop_ws(vs.take(0)));
    }
    while i < tokens.len()
        invariant
            i <= tokens@.len(),
            vs == tokens_view(tokens@),
            tokens_view(filtered@) == drop_ws(vs.take(i as int)),
        decreases tokens@.len() - i,
    {
        let ghost pre = filtered@;
        if tokens[i].token_type != Type::Whitespace {
            let t = &tokens[i];
            filtered.push(Token { token_type: t.token_type, literal: t.literal.clone() });
        }
        proof {
            reveal(Seq::filter);
            assert(vs.take(i as int + 1).drop_last() =~= vs.take(i as int));
            assert(vs.take(i as int + 1).last() == vs[i as int]);
            if vs[i as int].kind != Type::Whitespace {
                assert(tokens_view(filtered@) =~= tokens_view(pre).push(vs[i as int]));
                assert(drop_ws(vs.take(i as int + 1)) =~= drop_ws(vs.take(i as int)) + seq![
                    vs[i as int],
                ]);
                assert(tokens_view(pre) + seq![vs[i as int]] =~= tokens_view(pre).push(
                    vs[i as int],
                ));
            } else {
                assert(drop_ws(vs.take(i as int + 1)) =~= drop_ws(vs.take(i as int)));
            }
        }
        i += 1;
    }
    proof {
        assert(vs.take(i as int) =~= vs);
    }
    let mut methods: Vec<Method> = Vec::new();
    if filtered.len() == 0 {
        proof {
            assert(methods_view(methods@) =~= Seq::<GMethod>::empty());
        }
        return Ok(methods);
    }
    match parse_method(&filtered) {
        Ok(meth) => {
            methods.push(meth);
            proof {
                assert(methods_view(methods@) =~= seq![meth@]);
            }
            Ok(methods)
        },
        Err(e) => Err(e),
    }
}

} // verus!
