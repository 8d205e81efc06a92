//! Code generation: from a program tree to x86-64 assembly text for Linux.
//!
//! Every value is a 64-bit integer in one stack slot of eight bytes. The
//! generator counts the bytes that the program has pushed so far, and notes
//! for each variable the count at which its value was pushed. A variable is
//! read at `rsp` plus the bytes pushed since then.

use crate::error::{Error, ErrorKind, ErrorKindView, ErrorView, Position};
use crate::lexer::{Literal, LiteralView};
use crate::parser::{
    CallView, ExpressionView, IdentifierView, LetView, LiteralNodeView, NodeCall, NodeExpression,
    NodeProgram, NodeStatement, StatementView,
};
use crate::text::{decimal_text, push_decimal};
use vstd::hash_map::StringHashMap;
use vstd::prelude::*;

verus! {

/// The bytes of one stack slot.
pub open spec fn slot_size() -> nat {
    8
}

/// The two lines that every program begins with: they declare the entry
/// point and open it.
pub open spec fn preamble() -> Seq<char> {
    "global _start\n_start:\n"@
}

/// One line of assembly text.
pub open spec fn line(text: Seq<char>) -> Seq<char> {
    text + "\n"@
}

/// The instruction that pushes `operand`.
pub open spec fn push_line(operand: Seq<char>) -> Seq<char> {
    line("push "@ + operand)
}

/// The instruction that pops into `register`.
pub open spec fn pop_line(register: Seq<char>) -> Seq<char> {
    line("pop "@ + register)
}

/// The operand that reads the slot `offset` bytes above the stack pointer.
pub open spec fn memory_operand(offset: nat) -> Seq<char> {
    "QWORD [rsp+"@ + decimal_text(offset) + "]"@
}

/// The instructions that end the process with the value on top of the stack
/// as its status: the number of the exit system call in `rax`, the status in
/// `rdi`.
pub open spec fn exit_lines() -> Seq<char> {
    line("mov rax, 0x3c"@) + pop_line("rdi"@) + line("syscall"@)
}

/// The operations that the language has built in.
#[derive(Debug, Clone, Copy, PartialEq, Eq, Structural)]
pub enum Builtin {
    /// Ends the process; the argument is its status.
    Exit,
}

/// The built-in of the given name, if there is one.
pub open spec fn builtin_named(name: Seq<char>) -> Option<Builtin> {
    if name == "exit"@ {
        Some(Builtin::Exit)
    } else {
        None
    }
}

/// The state of a code generation: the text written so far, the offset of
/// each variable declared so far, and the bytes pushed so far.
pub ghost struct GeneratorState {
    pub out: Seq<char>,
    pub variables: Map<Seq<char>, nat>,
    pub stack_size: nat,
}

impl GeneratorState {
    /// The state before the first statement.
    pub open spec fn initial() -> GeneratorState {
        GeneratorState { out: preamble(), variables: Map::empty(), stack_size: 0 }
    }

    /// Every variable lies within the stack.
    pub open spec fn well_formed(self) -> bool {
        forall|name: Seq<char>| #[trigger]
            self.variables.contains_key(name) ==> self.variables[name] <= self.stack_size
    }

    /// How far above the stack pointer the variable `name` lies now.
    pub open spec fn offset_of(self, name: Seq<char>) -> nat
        recommends
            self.variables.contains_key(name),
    {
        (self.stack_size - self.variables[name]) as nat
    }

    /// The operand that stands for the value of `expression`; or why there
    /// is none.
    pub open spec fn operand(self, expression: ExpressionView) -> Result<Seq<char>, ErrorView> {
        match expression {
            ExpressionView::Literal(literal) => match literal.value {
                LiteralView::Integer(value) => Ok(decimal_text(value as nat)),
                LiteralView::String(_) => Err(
                    ErrorView {
                        kind: ErrorKindView::UnexpectedType("Integer"@),
                        position: literal.position,
                    },
                ),
            },
            ExpressionView::Identifer(identifier) => if self.variables.contains_key(
                identifier.name,
            ) {
                Ok(memory_operand(self.offset_of(identifier.name)))
            } else {
                Err(identifier.not_found_error())
            },
        }
    }

    /// The state after `operand` was pushed.
    pub open spec fn push(self, operand: Seq<char>) -> GeneratorState {
        GeneratorState {
            out: self.out + push_line(operand),
            variables: self.variables,
            stack_size: self.stack_size + slot_size(),
        }
    }

    /// The state after the value of `expression` was pushed.
    pub open spec fn expression(self, expression: ExpressionView) -> Result<
        GeneratorState,
        ErrorView,
    > {
        match self.operand(expression) {
            Ok(operand) => Ok(self.push(operand)),
            Err(error) => Err(error),
        }
    }

    /// The state after a declaration: the value is pushed, and the variable
    /// lies where the stack then ends.
    pub open spec fn declaration(self, node: LetView) -> Result<GeneratorState, ErrorView> {
        if self.variables.contains_key(node.identifier.name) {
            Err(node.identifier.already_used_error())
        } else {
            match self.expression(node.expression) {
                Ok(pushed) => Ok(
                    GeneratorState {
                        out: pushed.out,
                        variables: pushed.variables.insert(
                            node.identifier.name,
                            pushed.stack_size,
                        ),
                        stack_size: pushed.stack_size,
                    },
                ),
                Err(error) => Err(error),
            }
        }
    }

    /// The state after a call: the argument is pushed, and the built-in pops
    /// it again.
    pub open spec fn call(self, node: CallView) -> Result<GeneratorState, ErrorView> {
        match builtin_named(node.identifier.name) {
            Some(Builtin::Exit) => match self.expression(node.argument) {
                Ok(pushed) => Ok(
                    GeneratorState {
                        out: pushed.out + exit_lines(),
                        variables: pushed.variables,
                        stack_size: (pushed.stack_size - slot_size()) as nat,
                    },
                ),
                Err(error) => Err(error),
            },
            None => Err(node.identifier.not_found_error()),
        }
    }

    /// The state after one statement.
    pub open spec fn statement(self, statement: StatementView) -> Result<
        GeneratorState,
        ErrorView,
    > {
        match statement {
            StatementView::Let(node) => self.declaration(node),
            StatementView::Call(node) => self.call(node),
        }
    }

    /// The state after the statements in order; or the first error.
    pub open spec fn statements(self, statements: Seq<StatementView>) -> Result<
        GeneratorState,
        ErrorView,
    >
        decreases statements.len(),
    {
        if statements.len() == 0 {
            Ok(self)
        } else {
            match self.statements(statements.drop_last()) {
                Ok(state) => state.statement(statements.last()),
                Err(error) => Err(error),
            }
        }
    }
}

/// The assembly text of a program; or the first error in it.
pub open spec fn generated(program: Seq<StatementView>) -> Result<Seq<char>, ErrorView> {
    match GeneratorState::initial().statements(program) {
        Ok(state) => Ok(state.out),
        Err(error) => Err(error),
    }
}

/// How many of the statements `program[from..to]` are declarations.
pub open spec fn declarations_between(program: Seq<StatementView>, from: int, to: int) -> nat
    decreases to - from,
{
    if to <= from {
        0
    } else {
        declarations_between(program, from, to - 1) + if program[to - 1] is Let {
            1nat
        } else {
            0nat
        }
    }
}

/// An expression leaves one value on the stack: the stack is one slot
/// higher, and the variables are what they were.
pub proof fn lemma_expression_pushes_one(state: GeneratorState, expression: ExpressionView)
    requires
        state.expression(expression) is Ok,
    ensures
        state.expression(expression)->Ok_0.stack_size == state.stack_size + slot_size(),
        state.expression(expression)->Ok_0.variables == state.variables,
{
}

/// A statement keeps the state well formed, adds to the text and takes
/// nothing from it, keeps the variables that there are where they are, and
/// leaves the stack as it was or one slot higher.
pub proof fn lemma_statement_step(state: GeneratorState, statement: StatementView)
    requires
        state.well_formed(),
        state.statement(statement) is Ok,
    ensures
        state.statement(statement)->Ok_0.well_formed(),
        state.out.is_prefix_of(state.statement(statement)->Ok_0.out),
        state.statement(statement)->Ok_0.stack_size == state.stack_size + if statement is Let {
            slot_size()
        } else {
            0
        },
        forall|name: Seq<char>| #[trigger]
            state.variables.contains_key(name) ==> {
                &&& state.statement(statement)->Ok_0.variables.contains_key(name)
                &&& state.statement(statement)->Ok_0.variables[name] == state.variables[name]
            },
        statement matches StatementView::Let(node) ==> {
            &&& !state.variables.contains_key(node.identifier.name)
            &&& state.statement(statement)->Ok_0.variables.contains_key(node.identifier.name)
            &&& state.statement(statement)->Ok_0.variables[node.identifier.name]
                == state.statement(statement)->Ok_0.stack_size
        },
{
}

/// An error in a part of a program is the error of the whole program.
pub proof fn lemma_error_persists(
    state: GeneratorState,
    statements: Seq<StatementView>,
    k: int,
)
    requires
        0 <= k <= statements.len(),
        state.statements(statements.take(k)) is Err,
    ensures
        state.statements(statements) == state.statements(statements.take(k)),
    decreases statements.len() - k,
{
    if k < statements.len() {
        assert(statements.take(k + 1).drop_last() =~= statements.take(k));
        lemma_error_persists(state, statements, k + 1);
    } else {
        assert(statements.take(k) =~= statements);
    }
}

/// The states that a generation passes through are well formed, their text
/// begins with the preamble, and the stack has grown by one slot for each
/// declaration.
pub proof fn lemma_statements_well_formed(program: Seq<StatementView>, k: int)
    requires
        0 <= k <= program.len(),
        GeneratorState::initial().statements(program.take(k)) is Ok,
    ensures
        GeneratorState::initial().statements(program.take(k))->Ok_0.well_formed(),
        preamble().is_prefix_of(GeneratorState::initial().statements(program.take(k))->Ok_0.out),
        GeneratorState::initial().statements(program.take(k))->Ok_0.stack_size == slot_size()
            * declarations_between(program, 0, k),
    decreases k,
{
    if k > 0 {
        assert(program.take(k).drop_last() =~= program.take(k - 1));
        lemma_statements_well_formed(program, k - 1);
        let before = GeneratorState::initial().statements(program.take(k - 1))->Ok_0;
        lemma_statement_step(before, program[k - 1]);
    }
}

/// Every assembly text begins with the preamble.
pub proof fn lemma_generated_begins_with_preamble(program: Seq<StatementView>)
    requires
        generated(program) is Ok,
    ensures
        preamble().is_prefix_of(generated(program)->Ok_0),
{
    assert(program.take(program.len() as int) =~= program);
    lemma_statements_well_formed(program, program.len() as int);
}

/// Stack-offset correctness. Take a program whose first `read` statements
/// generate without error, and a declaration at place `declared` among them.
/// Then a read of the declared variable that comes next finds it as many
/// slots above the stack pointer as there are declarations after its own,
/// and the operand of that read says so.
pub proof fn lemma_stack_offset(program: Seq<StatementView>, declared: int, read: int)
    requires
        0 <= declared < read <= program.len(),
        program[declared] is Let,
        GeneratorState::initial().statements(program.take(read)) is Ok,
    ensures
        ({
            let state = GeneratorState::initial().statements(program.take(read))->Ok_0;
            let identifier = program[declared]->Let_0.identifier;
            let pushes = declarations_between(program, declared + 1, read);
            &&& state.variables.contains_key(identifier.name)
            &&& state.variables[identifier.name] == slot_size() * declarations_between(
                program,
                0,
                declared + 1,
            )
            &&& state.offset_of(identifier.name) == slot_size() * pushes
            &&& forall|position: Position|
                state.operand(
                    ExpressionView::Identifer(
                        IdentifierView { name: identifier.name, position },
                    ),
                ) == Ok::<Seq<char>, ErrorView>(memory_operand(slot_size() * pushes))
        }),
    decreases read,
{
    assert(program.take(read).drop_last() =~= program.take(read - 1));
    let before = GeneratorState::initial().statements(program.take(read - 1))->Ok_0;
    lemma_statements_well_formed(program, read - 1);
    lemma_statements_well_formed(program, read);
    lemma_statement_step(before, program[read - 1]);
    if declared < read - 1 {
        lemma_stack_offset(program, declared, read - 1);
    } else {
        assert(declarations_between(program, declared + 1, read) == 0);
    }
}

/// Whether the statement declares the variable `name`.
pub open spec fn declares(statement: StatementView, name: Seq<char>) -> bool {
    statement matches StatementView::Let(node) && node.identifier.name == name
}

/// Whether one of the statements `program[..k]` declares the variable `name`.
pub open spec fn declared_before(program: Seq<StatementView>, k: int, name: Seq<char>) -> bool {
    exists|i: int| 0 <= i < k && #[trigger] declares(program[i], name)
}

/// The statement at place `k` decides: if the statements before it generate
/// without error and it fails, the program fails with its error.
pub proof fn lemma_first_error(program: Seq<StatementView>, k: int)
    requires
        0 <= k < program.len(),
        GeneratorState::initial().statements(program.take(k)) is Ok,
        GeneratorState::initial().statements(program.take(k))->Ok_0.statement(program[k]) is Err,
    ensures
        generated(program) == Err::<Seq<char>, ErrorView>(
            GeneratorState::initial().statements(program.take(k))->Ok_0.statement(
                program[k],
            )->Err_0,
        ),
{
    assert(program.take(k + 1).drop_last() =~= program.take(k));
    lemma_error_persists(GeneratorState::initial(), program, k + 1);
}

/// The symbol table is append-only: after the first `k` statements it holds
/// the names that they declare, and no others.
pub proof fn lemma_declared_names(program: Seq<StatementView>, k: int, name: Seq<char>)
    requires
        0 <= k <= program.len(),
        GeneratorState::initial().statements(program.take(k)) is Ok,
    ensures
        GeneratorState::initial().statements(program.take(k))->Ok_0.variables.contains_key(name)
            <==> declared_before(program, k, name),
    decreases k,
{
    if k > 0 {
        assert(program.take(k).drop_last() =~= program.take(k - 1));
        lemma_declared_names(program, k - 1, name);
        let before = GeneratorState::initial().statements(program.take(k - 1))->Ok_0;
        let after = GeneratorState::initial().statements(program.take(k))->Ok_0;
        assert(after == before.statement(program[k - 1])->Ok_0);
        if declared_before(program, k, name) {
            let i = choose|i: int| 0 <= i < k && #[trigger] declares(program[i], name);
            if i < k - 1 {
                assert(declared_before(program, k - 1, name));
            }
        }
        if after.variables.contains_key(name) {
            if before.variables.contains_key(name) {
                let i = choose|i: int| 0 <= i < k - 1 && #[trigger] declares(program[i], name);
                assert(declares(program[i], name));
            } else {
                assert(declares(program[k - 1], name));
            }
        }
    }
}

/// Redeclaration is rejected. A declaration of a name that an earlier
/// statement has declared fails, at the place of the name in the later
/// declaration, whatever its expression is.
pub proof fn lemma_redeclaration_rejected(program: Seq<StatementView>, k: int)
    requires
        0 <= k < program.len(),
        GeneratorState::initial().statements(program.take(k)) is Ok,
        program[k] is Let,
        declared_before(program, k, program[k]->Let_0.identifier.name),
    ensures
        generated(program) == Err::<Seq<char>, ErrorView>(
            program[k]->Let_0.identifier.already_used_error(),
        ),
{
    lemma_declared_names(program, k, program[k]->Let_0.identifier.name);
    lemma_first_error(program, k);
}

/// An undefined reference is rejected. A call of a built-in whose argument
/// is a name that no earlier statement has declared fails, at the place of
/// that name; so does a declaration of a new name by such a name.
pub proof fn lemma_undefined_reference_rejected(
    program: Seq<StatementView>,
    k: int,
    identifier: IdentifierView,
)
    requires
        0 <= k < program.len(),
        GeneratorState::initial().statements(program.take(k)) is Ok,
        !declared_before(program, k, identifier.name),
        match program[k] {
            StatementView::Call(node) => {
                &&& builtin_named(node.identifier.name) is Some
                &&& node.argument == ExpressionView::Identifer(identifier)
            },
            StatementView::Let(node) => {
                &&& !declared_before(program, k, node.identifier.name)
                &&& node.expression == ExpressionView::Identifer(identifier)
            },
        },
    ensures
        generated(program) == Err::<Seq<char>, ErrorView>(identifier.not_found_error()),
{
    lemma_declared_names(program, k, identifier.name);
    if program[k] is Let {
        lemma_declared_names(program, k, program[k]->Let_0.identifier.name);
    }
    lemma_first_error(program, k);
}

/// An unknown call is rejected. A call of a name that is no built-in fails,
/// at the place of that name, whatever its argument is.
pub proof fn lemma_unknown_call_rejected(program: Seq<StatementView>, k: int)
    requires
        0 <= k < program.len(),
        GeneratorState::initial().statements(program.take(k)) is Ok,
        program[k] is Call,
        builtin_named(program[k]->Call_0.identifier.name) is None,
    ensures
        generated(program) == Err::<Seq<char>, ErrorView>(
            program[k]->Call_0.identifier.not_found_error(),
        ),
{
    lemma_first_error(program, k);
}

/// A string has no code. A call of a built-in whose argument is a string
/// literal fails, at the place of the literal; so does a declaration of a
/// new name by a string literal.
pub proof fn lemma_string_rejected(
    program: Seq<StatementView>,
    k: int,
    text: Seq<char>,
    position: Position,
)
    requires
        0 <= k < program.len(),
        GeneratorState::initial().statements(program.take(k)) is Ok,
        match program[k] {
            StatementView::Call(node) => {
                &&& builtin_named(node.identifier.name) is Some
                &&& node.argument == ExpressionView::Literal(
                    LiteralNodeView { value: LiteralView::String(text), position },
                )
            },
            StatementView::Let(node) => {
                &&& !declared_before(program, k, node.identifier.name)
                &&& node.expression == ExpressionView::Literal(
                    LiteralNodeView { value: LiteralView::String(text), position },
                )
            },
        },
    ensures
        generated(program) == Err::<Seq<char>, ErrorView>(
            ErrorView { kind: ErrorKindView::UnexpectedType("Integer"@), position },
        ),
{
    if program[k] is Let {
        lemma_declared_names(program, k, program[k]->Let_0.identifier.name);
    }
    lemma_first_error(program, k);
}

/// A variable: the bytes that the program had pushed when the variable's
/// value was.
#[derive(Debug)]
pub struct Variable {
    stack_location: u128,
}

/// The code generator.
pub struct AsmGenerator {
    out: String,
    variables: StringHashMap<Variable>,
    stack_size: u128,
}

impl View for AsmGenerator {
    type V = GeneratorState;

    closed spec fn view(&self) -> GeneratorState {
        GeneratorState {
            out: self.out@,
            variables: self.variables@.map_values(
                |variable: Variable| variable.stack_location as nat,
            ),
            stack_size: self.stack_size as nat,
        }
    }
}

impl Default for AsmGenerator {
    /// A generator that has written nothing, knows no variable and has
    /// pushed nothing.
    fn default() -> (generator: AsmGenerator)
        ensures
            generator@ == (GeneratorState {
                out: Seq::empty(),
                variables: Map::empty(),
                stack_size: 0,
            }),
    {
        let generator = AsmGenerator {
            out: String::new(),
            variables: StringHashMap::new(),
            stack_size: 0,
        };
        assert(generator@.variables =~= Map::empty());
        generator
    }
}

/// The built-in of the given name, if there is one.
fn lookup_builtin(name: &String) -> (found: Option<Builtin>)
    ensures
        found == builtin_named(name@),
{
    if *name == String::from_str("exit") {
        Some(Builtin::Exit)
    } else {
        None
    }
}

impl AsmGenerator {
    /// The assembly text of `program`: the preamble, then the instructions of
    /// each statement in order. Fails with the first error in the program: a
    /// name declared twice, a name or a built-in that does not exist, or a
    /// string where an integer is needed.
    pub fn generate(self, program: NodeProgram) -> (result: Result<String, Error>)
        ensures
            match result {
                Ok(text) => generated(program@) == Ok::<Seq<char>, ErrorView>(text@),
                Err(error) => generated(program@) == Err::<Seq<char>, ErrorView>(error@),
            },
    {
        let mut generator = self;
        generator.out = String::from_str("global _start\n_start:\n");
        generator.variables.clear();
        generator.stack_size = 0;
        assert(generator@.variables =~= Map::empty());
        let mut i: usize = 0;
        assert(program@.take(0) =~= Seq::empty());
        while i < program.statements.len()
            invariant
                i <= program.statements.len(),
                generator@.well_formed(),
                generator.stack_size <= 8 * i,
                GeneratorState::initial().statements(program@.take(i as int)) == Ok::<
                    GeneratorState,
                    ErrorView,
                >(generator@),
            decreases program.statements.len() - i,
        {
            let ghost before = generator@;
            proof {
                assert(program@.take(i + 1).drop_last() =~= program@.take(i as int));
                assert(program@.take(i + 1).last() == program.statements@[i as int]@);
            }
            match generator.generate_statment(&program.statements[i]) {
                Err(error) => {
                    proof {
                        lemma_error_persists(GeneratorState::initial(), program@, i + 1);
                    }
                    return Err(error);
                },
                Ok(_) => {
                    proof {
                        lemma_statement_step(before, program.statements@[i as int]@);
                    }
                },
            }
            i += 1;
        }
        assert(program@.take(i as int) =~= program@);
        Ok(generator.out)
    }

    /// The instructions of one statement. A declaration notes where its
    /// variable lies; a call leaves the stack as it found it.
    fn generate_statment(&mut self, statement: &NodeStatement) -> (result: Result<(), Error>)
        requires
            old(self)@.well_formed(),
            old(self).stack_size + 8 <= u128::MAX,
        ensures
            match result {
                Ok(_) => old(self)@.statement(statement@) == Ok::<
                    GeneratorState,
                    ErrorView,
                >(final(self)@),
                Err(error) => old(self)@.statement(statement@) == Err::<
                    GeneratorState,
                    ErrorView,
                >(error@),
            },
    {
        match statement {
            NodeStatement::Call(call) => self.generate_call(call),
            NodeStatement::Let(node_let) => {
                if self.variables.contains_key(node_let.identifier.0.as_str()) {
                    return Err(node_let.identifier.make_already_used_error());
                }
                match self.generate_expression(&node_let.expression) {
                    Err(error) => {
                        return Err(error);
                    },
                    Ok(_) => {},
                }
                let ghost pushed = self@;
                self.variables.insert(
                    node_let.identifier.0.clone(),
                    Variable { stack_location: self.stack_size },
                );
                assert(self@.variables =~= pushed.variables.insert(
                    node_let.identifier@.name,
                    pushed.stack_size,
                ));
                Ok(())
            },
        }
    }

    /// The instructions of a call: the argument is pushed, and the built-in
    /// takes it from the stack.
    fn generate_call(&mut self, call: &NodeCall) -> (result: Result<(), Error>)
        requires
            old(self)@.well_formed(),
            old(self).stack_size + 8 <= u128::MAX,
        ensures
            match result {
                Ok(_) => old(self)@.call(call@) == Ok::<GeneratorState, ErrorView>(
                    final(self)@,
                ),
                Err(error) => old(self)@.call(call@) == Err::<GeneratorState, ErrorView>(
                    error@,
                ),
            },
    {
        match lookup_builtin(&call.identifier.0) {
            Some(Builtin::Exit) => {
                match self.generate_expression(&call.argument) {
                    Err(error) => {
                        return Err(error);
                    },
                    Ok(_) => {},
                }
                let ghost pushed = self@;
                self.write("mov rax, 0x3c");
                self.generate_pop("rdi");
                self.write("syscall");
                assert(self.out@ =~= pushed.out + exit_lines());
                Ok(())
            },
            None => Err(call.identifier.make_not_found_error()),
        }
    }

    /// The instruction that pushes the value of an expression: an integer as
    /// an immediate, a variable from its slot.
    fn generate_expression(&mut self, expression: &NodeExpression) -> (result: Result<
        (),
        Error,
    >)
        requires
            old(self)@.well_formed(),
            old(self).stack_size + 8 <= u128::MAX,
        ensures
            match result {
                Ok(_) => old(self)@.expression(expression@) == Ok::<
                    GeneratorState,
                    ErrorView,
                >(final(self)@),
                Err(error) => old(self)@.expression(expression@) == Err::<
                    GeneratorState,
                    ErrorView,
                >(error@),
            },
    {
        match expression {
            NodeExpression::Literal(literal) => match &literal.0 {
                Literal::Integer(integer) => {
                    let mut operand = String::new();
                    push_decimal(&mut operand, *integer as u128);
                    assert(operand@ =~= decimal_text(*integer as nat));
                    self.generate_push(operand.as_str());
                    Ok(())
                },
                Literal::String(_) => Err(
                    Error::new(ErrorKind::UnexpectedType("Integer"), literal.1),
                ),
            },
            NodeExpression::Identifer(identifer) => {
                let location = match self.variables.get(identifer.0.as_str()) {
                    None => {
                        return Err(identifer.make_not_found_error());
                    },
                    Some(variable) => variable.stack_location,
                };
                assert(self@.variables.contains_key(identifer@.name));
                let mut operand = String::from_str("QWORD [rsp+");
                push_decimal(&mut operand, self.stack_size - location);
                operand.append("]");
                self.generate_push(operand.as_str());
                Ok(())
            },
        }
    }

    /// Writes a push of `value` and counts its eight bytes.
    fn generate_push(&mut self, value: &str)
        requires
            old(self).stack_size + 8 <= u128::MAX,
        ensures
            final(self)@ == old(self)@.push(value@),
    {
        self.out.append("push ");
        self.out.append(value);
        self.out.append("\n");
        self.stack_size += 8;
        assert(self.out@ =~= old(self).out@ + push_line(value@));
    }

    /// Writes a pop into `value` and takes its eight bytes off the count.
    fn generate_pop(&mut self, value: &str)
        requires
            old(self).stack_size >= 8,
        ensures
            final(self).out@ == old(self).out@ + pop_line(value@),
            final(self).variables == old(self).variables,
            final(self).stack_size == old(self).stack_size - 8,
    {
        self.out.append("pop ");
        self.out.append(value);
        self.out.append("\n");
        self.stack_size -= 8;
        assert(self.out@ =~= old(self).out@ + pop_line(value@));
    }

    /// Writes one line.
    fn write(&mut self, text: &str)
        ensures
            final(self).out@ == old(self).out@ + line(text@),
            final(self).variables == old(self).variables,
            final(self).stack_size == old(self).stack_size,
    {
        self.out.append(text);
        self.out.append("\n");
        assert(self.out@ =~= old(self).out@ + line(text@));
    }
}

} // verus!
