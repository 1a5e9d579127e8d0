//! Turns the tokens into function definitions.
pub mod expressions;
pub mod grammar;
pub mod parameters;
pub mod scope;
pub mod statements;
pub mod tokens;

use crate::compiler::CompilationPipeline;
use crate::compiler::hir::definition::{FnDefinitionId, balanced, lemma_balanced_well_nested};
use crate::compiler::hir::external::ExternalDefinitions;
use crate::compiler::lexer::tokens::Token;
use crate::compiler::parser::tokens::{lemma_continues_refl, lemma_continues_trans};

use crate::compiler::error::CompilationErrorSet;
use crate::compiler::hir::definition::{FnDefinition, FnDefinitionStage, FnId, Instruction, ModuleDefinitions, calls_in_range, well_nested};
use crate::compiler::lexer::Lexer;
use crate::compiler::parser::scope::{FunctionScope, ids_below};
use vstd::prelude::*;

verus! {

/// Every defined function is well formed and its control flow is well nested.
pub open spec fn definitions_ok<'code>(stages: Seq<FnDefinitionStage<'code>>) -> bool {
    forall|i: int|
        0 <= i < stages.len() ==> (#[trigger] stages[i] matches FnDefinitionStage::Defined(def) ==> def.wf()
            && well_nested(def.instructions@) && calls_in_range(def.instructions@, stages.len()))
}

/// Registering a name to define later keeps the defined functions as they were.
pub proof fn lemma_definitions_ok_push_todo<'code>(
    stages: Seq<FnDefinitionStage<'code>>,
    name: &'code [u8],
)
    requires
        definitions_ok(stages),
    ensures
        definitions_ok(stages.push(FnDefinitionStage::ToDefine { name })),
{
    let after = stages.push(FnDefinitionStage::ToDefine { name });
    assert forall|i: int| 0 <= i < after.len() implies (#[trigger] after[i] matches FnDefinitionStage::Defined(
        def,
    ) ==> def.wf() && well_nested(def.instructions@) && calls_in_range(def.instructions@, after.len())) by {
        if i < stages.len() {
            assert(after[i] == stages[i]);
            if let FnDefinitionStage::Defined(def) = stages[i] {
                lemma_calls_in_range_grows(def.instructions@, stages.len(), after.len());
            }
        }
    }
}

/// Calls in range of fewer functions are in range of more.
pub proof fn lemma_calls_in_range_grows(insts: Seq<Instruction>, n: nat, m: nat)
    requires
        calls_in_range(insts, n),
        n <= m,
    ensures
        calls_in_range(insts, m),
{
    assert forall|i: int| 0 <= i < insts.len() implies (#[trigger] insts[i] matches Instruction::Call(c) ==> (
    c.fn_id matches FnId::Local(id) ==> id.0 < m)) by {
        assert(insts[i] matches Instruction::Call(c) ==> (c.fn_id matches FnId::Local(id) ==> id.0 < n));
    }
}

/// At the top level every line has nesting 0, so a block there ends only at the end of
/// the source.
pub proof fn lemma_top_block_ends(indent: usize)
    ensures
        crate::compiler::parser::statements::nesting_of(indent, 0) == 0,
{
}

/// The state of the parser while it reads one function.
pub struct FunctionParser<'code> {
    pub lexer: Lexer<'code>,
    pub module: ModuleDefinitions<'code>,
    pub errors: CompilationErrorSet,
    pub function: FnDefinition<'code>,
    pub scope: FunctionScope<'code>,
}

impl<'code> FunctionParser<'code> {
    /// The parts are consistent: the scope names variables of the function, and the
    /// function holds no more calls than bytes have been read.
    pub open spec fn wf(&self) -> bool {
        &&& self.lexer.wf()
        &&& 0 <= self.lexer.pos() <= self.lexer.end_pos() <= self.lexer.source().len() < usize::MAX
        &&& self.module.wf()
        &&& definitions_ok(self.module.stages())
        &&& calls_in_range(self.function.instructions@, self.module.stages().len())
        &&& self.function.wf()
        &&& ids_below(self.scope@, self.function.variables_metadata@.len())
        &&& self.function.calls <= self.lexer.pos()
    }

    /// `self` is a later state of the parse that `old` was in: the lexer moved forward,
    /// and errors, instructions and variables were only added.
    pub open spec fn continues(&self, old: &Self) -> bool {
        &&& self.lexer.source() == old.lexer.source()
        &&& old.lexer.pos() <= self.lexer.pos()
        &&& self.function.calls - old.function.calls <= self.lexer.pos() - old.lexer.pos()
        &&& old.errors@.len() <= self.errors@.len()
        &&& self.errors@.subrange(0, old.errors@.len() as int) == old.errors@
        &&& old.function.instructions@.len() <= self.function.instructions@.len()
        &&& self.function.instructions@.subrange(0, old.function.instructions@.len() as int)
            == old.function.instructions@
        &&& self.function.name == old.function.name
        &&& self.function.parameters == old.function.parameters
        &&& old.function.variables_metadata@.len() <= self.function.variables_metadata@.len()
        &&& old.function.arguments@.len() <= self.function.arguments@.len()
        &&& self.function.arguments@.subrange(0, old.function.arguments@.len() as int)
            == old.function.arguments@
        &&& old.module.stages().len() <= self.module.stages().len()
        &&& old.module.names().submap_of(self.module.names())
    }

    /// The current token, with the slice of the source it covers.
    pub open spec fn cursor(&self) -> (Token, int, int) {
        (self.lexer.current(), self.lexer.pos(), self.lexer.end_pos())
    }

    /// Only the lexer and the errors changed.
    pub open spec fn same_code(&self, old: &Self) -> bool {
        &&& self.function == old.function
        &&& self.scope == old.scope
        &&& self.module == old.module
    }

    pub fn new(
        lexer: Lexer<'code>,
        module: ModuleDefinitions<'code>,
        errors: CompilationErrorSet,
        function: FnDefinition<'code>,
        scope: FunctionScope<'code>,
    ) -> (r: Self)
        ensures
            r.lexer == lexer,
            r.module == module,
            r.errors == errors,
            r.function == function,
            r.scope == scope,
    {
        FunctionParser { lexer, module, errors, function, scope }
    }
}


/// The tokens of a source, ready to be parsed.
pub struct LexerStage<'a> {
    pub lexer: Lexer<'a>,
}

impl CompilationPipeline {
    pub fn lexer_stage<'a>(self, source_code: &'a str) -> (r: LexerStage<'a>)
        requires
            vstd::string::StringSliceAdditionalSpecFns::spec_bytes(source_code).len() < usize::MAX,
        ensures
            r.lexer.wf(),
            r.lexer.line() == 1,
            0 <= r.lexer.pos() <= r.lexer.end_pos() <= r.lexer.source().len() < usize::MAX,
            ({
                let bytes = vstd::string::StringSliceAdditionalSpecFns::spec_bytes(source_code);
                let skipped = bytes.len() - r.lexer.source().len();
                &&& crate::compiler::lexer::scan::skips_spaces(bytes, 0, skipped)
                &&& r.lexer.source() == bytes.subrange(skipped, bytes.len() as int)
                &&& r.lexer.indentation() == skipped
                &&& r.lexer.line_start() == 0
                &&& crate::compiler::lexer::scan::scanned(
                    r.lexer.source(),
                    0,
                    r.lexer.current(),
                    r.lexer.pos(),
                    r.lexer.end_pos(),
                )
            }),
    {
        LexerStage { lexer: Lexer::new(source_code) }
    }
}

/// The functions of a source, parsed.
pub struct ParserStage<'code, 'compiler> {
    pub errors: &'compiler mut CompilationErrorSet,
    pub definitions: ModuleDefinitions<'code>,
    pub entry_point: FnDefinitionId,
}

impl<'code> LexerStage<'code> {
    /// Parses the whole source: its top level statements form the entry point, a function
    /// without name and without parameters.
    pub fn parser_stage<'compiler>(
        self,
        errors: &'compiler mut CompilationErrorSet,
        external_definitions: ExternalDefinitions,
    ) -> (r: ParserStage<'code, 'compiler>)
        requires
            self.lexer.wf(),
            0 <= self.lexer.pos() <= self.lexer.end_pos() <= self.lexer.source().len() < usize::MAX,
            external_definitions.wf(),
        ensures
            r.definitions.wf(),
            definitions_ok(r.definitions.stages()),
            r.entry_point.0 < r.definitions.stages().len(),
            r.definitions.stages()[r.entry_point.0 as int] matches FnDefinitionStage::Defined(def)
                && def.name@.len() == 0 && def.parameters == 0,
            old(errors)@.len() <= r.errors@.len(),
            r.errors@.subrange(0, old(errors)@.len() as int) == old(errors)@,
            *final(errors) == *final(r.errors),
            external_definitions.0@.submap_of(r.definitions.names()),
            r.definitions.stages()[r.entry_point.0 as int] matches FnDefinitionStage::Defined(def) && exists|
                a: FunctionParser<'code>,
                b: FunctionParser<'code>,
                steps: Seq<(FunctionParser<'code>, FunctionParser<'code>)>,
            |
                #[trigger] b.block_read(&a, 0, steps) && a.lexer.source() == self.lexer.source() && self.lexer.pos()
                    <= a.lexer.pos() && a.function.instructions@.len() == 0 && a.errors@ == old(errors)@
                    && b.lexer.current() is EndOfFile && def.instructions@ == b.function.instructions@
                    && r.errors@ == b.errors@,
    {
        let mut lexer = self.lexer;
        while lexer.token() == Token::NewLine
            invariant
                lexer.wf(),
                0 <= lexer.pos() <= lexer.end_pos() <= lexer.source().len() < usize::MAX,
                lexer.source() == self.lexer.source(),
                self.lexer.pos() <= lexer.pos(),
            decreases lexer.source().len() - lexer.pos(),
        {
            lexer.next();
        }
        let module = ModuleDefinitions::new(external_definitions.0);
        let mut taken = CompilationErrorSet::default();
        std::mem::swap(errors, &mut taken);
        let mut parser = FunctionParser::new(lexer, module, taken, FnDefinition::new(crate::compiler::hir::names::no_name(), 0), FunctionScope::new());
        proof {
            assert(definitions_ok(parser.module.stages()));
            assert(ids_below(parser.scope@, 0));
            lemma_continues_refl(&parser);
        }
        let ghost p0 = parser;
        parser.parse_block(0);
        let ghost p1 = parser;
        proof {
            lemma_top_block_ends(parser.lexer.indentation());
        }
        loop
            invariant
                parser.wf(),
                parser.continues(&p0),
                balanced(parser.segment(&p0)),
                p0.function.name@.len() == 0,
                p0.function.parameters == 0,
                parser == p1,
                p1.lexer.current() is EndOfFile,
            decreases parser.lexer.source().len() - parser.lexer.pos(),
        {
            let ghost p1 = parser;
            if parser.expect_token(Token::EndOfFile).is_ok() {
                break;
            }
            let ghost p2 = parser;
            parser.parse_block(0);
            proof {
                lemma_continues_trans(&p1, &p2, &parser);
                crate::compiler::parser::statements::lemma_balanced_concat(&p1, &p2, &parser);
                assert(p2.segment(&p1) =~= Seq::<crate::compiler::hir::definition::Instruction>::empty());
                crate::compiler::hir::definition::lemma_neutral_balanced(p2.segment(&p1));
                crate::compiler::parser::statements::lemma_balanced_concat(&p0, &p1, &parser);
                lemma_continues_trans(&p0, &p1, &parser);
            }
        }
        proof {
            assert(parser.function.instructions@ =~= parser.segment(&p0));
            lemma_balanced_well_nested(parser.function.instructions@);
        }
        let ghost steps = choose|st: Seq<(FunctionParser<'code>, FunctionParser<'code>)>| #[trigger] p1.block_read(
            &p0,
            0,
            st,
        );
        proof {
            assert(p1.block_read(&p0, 0, steps));
        }
        let FunctionParser { lexer: _, module: mut definitions, errors: mut found, function, scope: _ } = parser;
        let ghost before = definitions.stages();
        let ghost g = function;
        assert(g.name@.len() == 0 && g.parameters == 0);
        let next_id = definitions.len();
        let defined = definitions.define(function);
        let entry_point = match defined {
            Ok(id) => id,
            Err(_) => FnDefinitionId(0),
        };
        proof {
            assert(defined == Ok::<FnDefinitionId, ()>(FnDefinitionId(next_id)));
            assert(definitions.stages() == before.push(FnDefinitionStage::Defined(g)));
            assert(entry_point.0 == next_id);
            assert(definitions.stages()[entry_point.0 as int] == FnDefinitionStage::Defined(g));
            crate::compiler::parser::statements::lemma_define_ok_push(before, definitions.stages(), g);
        }
        std::mem::swap(errors, &mut found);
        proof {
            assert(p0.function.instructions@.len() == 0);
            assert(p0.errors@ == old(errors)@);
            assert(g == p1.function);
            assert(errors@ == p1.errors@);
            assert(p0.lexer.source() == self.lexer.source());
            assert(self.lexer.pos() <= p0.lexer.pos());
            assert(definitions.stages()[entry_point.0 as int] == FnDefinitionStage::Defined(p1.function));
            assert(p1.block_read(&p0, 0, steps) && p0.lexer.source() == self.lexer.source() && self.lexer.pos()
                <= p0.lexer.pos() && p0.function.instructions@.len() == 0 && p0.errors@ == old(errors)@
                && p1.lexer.current() is EndOfFile && p1.function.instructions@ == p1.function.instructions@
                && errors@ == p1.errors@);
        }
        ParserStage { errors, definitions, entry_point }
    }
}

} // verus!
