//! A compiler front-end for a compact declarative schema language: a scanner,
//! a recursive-descent parser, and a two-mode compiler that lowers the parsed
//! declarations into an ordered key/value output record, optionally resolving
//! internal `${Name}` references.
//!
//! Two functions compose the whole pipeline: [`parse`] keeps references and
//! the `prop` and `use` sections; [`final_schema`] resolves every reference
//! and drops those sections. Both take the source text and an environment
//! table, which `env(NAME)` value expressions read.

pub mod compiler;
pub mod error;
pub mod parser;
pub mod lexer;
pub mod value;

pub use compiler::{Compiler, FinalSchemaConfig, SchemaConfig};
pub use error::SchemaError;
pub use lexer::{Lexer, Token, TokenType};
pub use parser::{AstNode, Attribute, ColumnDefinition, SchemaParser};
pub use value::Value;

use vstd::prelude::*;
use crate::compiler::{schema_decls, spec_compile_schema, SpecSchema};
use crate::parser::env_view;
use crate::lexer::{spec_spans, tokens_of};
use crate::parser::{body_view, is_parse_error, spec_decls_at, SpecDecl};

verus! {

/// Compile schema source text in preserve mode: scan, parse, and lower the
/// declarations with every `${Name}` reference kept as written. The result
/// is the preserve-mode compilation of the declarations parsed from the
/// source text's tokens, each stage pinned by its spec-level grammar; the
/// first lexical or syntactic fault aborts the pipeline, and preserve mode
/// never reports a reference error.
pub fn parse(code: &str, env: Vec<(String, String)>) -> (r: Result<SchemaConfig, SchemaError>)
    ensures
        r matches Ok(s) ==> exists|ts: Seq<Token>, decls: Seq<SpecDecl>|
            #![trigger tokens_of(code@, ts), spec_compile_schema(decls, false)]
            {
                &&& tokens_of(code@, ts)
                &&& (spec_decls_at(ts, 0, env_view(env@), Seq::empty()) matches Ok(pr) && pr.0
                    == decls)
                &&& spec_compile_schema(decls, false) == Ok::<SpecSchema, Seq<char>>(s.view())
            },
        r matches Err(e) ==> (is_parse_error(e) ==> exists|ts: Seq<Token>|
            #![trigger tokens_of(code@, ts)]
            {
                &&& tokens_of(code@, ts)
                &&& spec_decls_at(ts, 0, env_view(env@), Seq::empty()) is Err
            }),
        r matches Err(e) ==> e is UnterminatedString || e is UnterminatedComment
            || e is UnexpectedCharacter || is_parse_error(e),
        r matches Err(e) ==> ((e is UnterminatedString || e is UnterminatedComment
            || e is UnexpectedCharacter) ==> spec_spans(code@, 0) == Err::<
            Seq<(int, int)>,
            SchemaError,
        >(e)),
        spec_spans(code@, 0) is Err ==> r is Err,
{
    let ghost ev = env_view(env@);
    let tokens = match lexer::tokenize(code) {
        Ok(t) => t,
        Err(e) => {
            return Err(e);
        },
    };
    let ghost ts = tokens@;
    proof {
        assert(tokens_of(code@, ts));
    }
    let mut p = SchemaParser::new(tokens, env);
    let ast = match p.parse_schema() {
        Ok(a) => a,
        Err(e) => {
            proof {
                assert(spec_decls_at(ts, 0, ev, Seq::empty()) is Err);
            }
            return Err(e);
        },
    };
    proof {
        assert(spec_decls_at(ts, 0, ev, Seq::empty()) matches Ok(pr) && pr.0 == schema_decls(
            ast,
        ));
    }
    let c = Compiler::new();
    proof {
        compiler::lemma_compile_schema_preserve_ok(schema_decls(ast));
    }
    match c.compile_schema(&ast, false) {
        Ok(schema) => {
            proof {
                assert(spec_compile_schema(schema_decls(ast), false) == Ok::<
                    SpecSchema,
                    Seq<char>,
                >(schema.view()));
            }
            Ok(schema)
        },
        Err(e) => Err(e),
    }
}

/// Compile schema source text in finalize mode: scan, parse, and lower the
/// declarations with every `${Name}` reference resolved against the declared
/// names in source order. The result is the finalize-mode compilation of the
/// declarations parsed from the source text's tokens, each stage pinned by
/// its spec-level grammar, and it never carries a `prop` or `use` section:
/// its type has no place for them.
pub fn final_schema(code: &str, env: Vec<(String, String)>) -> (r: Result<
    FinalSchemaConfig,
    SchemaError,
>)
    ensures
        r matches Ok(f) ==> f.view().prop is None && f.view().uses is None,
        r matches Ok(f) ==> exists|ts: Seq<Token>, decls: Seq<SpecDecl>|
            #![trigger tokens_of(code@, ts), spec_compile_schema(decls, true)]
            {
                &&& tokens_of(code@, ts)
                &&& (spec_decls_at(ts, 0, env_view(env@), Seq::empty()) matches Ok(pr) && pr.0
                    == decls)
                &&& (spec_compile_schema(decls, true) matches Ok(s) && f.view() == SpecSchema {
                    uses: None,
                    prop: None,
                    ..s
                })
            },
        r matches Err(e) ==> (is_parse_error(e) ==> exists|ts: Seq<Token>|
            #![trigger tokens_of(code@, ts)]
            {
                &&& tokens_of(code@, ts)
                &&& spec_decls_at(ts, 0, env_view(env@), Seq::empty()) is Err
            }),
        r matches Err(e) ==> (e is UnknownReference ==> exists|ts: Seq<Token>, decls: Seq<
            SpecDecl,
        >|
            #![trigger tokens_of(code@, ts), spec_compile_schema(decls, true)]
            {
                &&& tokens_of(code@, ts)
                &&& (spec_decls_at(ts, 0, env_view(env@), Seq::empty()) matches Ok(pr) && pr.0
                    == decls)
                &&& spec_compile_schema(decls, true) == Err::<SpecSchema, Seq<char>>(
                    e->UnknownReference_name@,
                )
            }),
        r matches Err(e) ==> e is UnterminatedString || e is UnterminatedComment
            || e is UnexpectedCharacter || is_parse_error(e) || e is UnknownReference,
        r matches Err(e) ==> ((e is UnterminatedString || e is UnterminatedComment
            || e is UnexpectedCharacter) ==> spec_spans(code@, 0) == Err::<
            Seq<(int, int)>,
            SchemaError,
        >(e)),
        spec_spans(code@, 0) is Err ==> r is Err,
{
    let ghost ev = env_view(env@);
    let tokens = match lexer::tokenize(code) {
        Ok(t) => t,
        Err(e) => {
            return Err(e);
        },
    };
    let ghost ts = tokens@;
    proof {
        assert(tokens_of(code@, ts));
    }
    let mut p = SchemaParser::new(tokens, env);
    let ast = match p.parse_schema() {
        Ok(a) => a,
        Err(e) => {
            proof {
                assert(spec_decls_at(ts, 0, ev, Seq::empty()) is Err);
            }
            return Err(e);
        },
    };
    proof {
        assert(spec_decls_at(ts, 0, ev, Seq::empty()) matches Ok(pr) && pr.0 == schema_decls(
            ast,
        ));
    }
    let c = Compiler::new();
    match c.compile_final(&ast) {
        Ok(schema) => {
            proof {
                let decls = schema_decls(ast);
                assert(spec_compile_schema(decls, true) matches Ok(s) && schema.view()
                    == SpecSchema { uses: None, prop: None, ..s });
            }
            Ok(schema)
        },
        Err(e) => {
            proof {
                if e is UnknownReference {
                    assert(spec_compile_schema(schema_decls(ast), true) == Err::<
                        SpecSchema,
                        Seq<char>,
                    >(e->UnknownReference_name@));
                }
            }
            Err(e)
        },
    }
}

} // verus!
