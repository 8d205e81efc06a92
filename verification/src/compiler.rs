//! The last stage of the pipeline as the driver sees it.

use crate::asm_generator::{generated, AsmGenerator, GeneratorState};
use crate::error::{Error, ErrorView};
use crate::parser::NodeProgram;
use vstd::prelude::*;

verus! {

/// Turns a program tree into assembly text.
pub struct Compiler {
    generator: AsmGenerator,
}

impl View for Compiler {
    type V = GeneratorState;

    closed spec fn view(&self) -> GeneratorState {
        self.generator@
    }
}

impl Default for Compiler {
    /// A compiler with a generator that has written nothing.
    fn default() -> (compiler: Compiler)
        ensures
            compiler@ == (GeneratorState {
                out: Seq::empty(),
                variables: Map::empty(),
                stack_size: 0,
            }),
    {
        Compiler { generator: AsmGenerator::default() }
    }
}

impl Compiler {
    /// The assembly text of `root`; or the first error in it.
    pub fn compile(self, root: NodeProgram) -> (result: Result<String, Error>)
        ensures
            match result {
                Ok(text) => generated(root@) == Ok::<Seq<char>, ErrorView>(text@),
                Err(error) => generated(root@) == Err::<Seq<char>, ErrorView>(error@),
            },
    {
        self.generator.generate(root)
    }
}

} // verus!
