//! Recursive-descent construction of the abstract syntax tree from the token
//! sequence: one token of lookahead, no backtracking, no error recovery — the
//! first error aborts parsing.
//!
//! Environment lookups (`env(NAME)` value expressions) read an environment
//! table handed to the parser, so the parser itself stays pure.

use vstd::prelude::*;
use vstd::string::StringExecFns;
use crate::error::SchemaError;
use crate::lexer::{Token, TokenType};
use crate::value::{arr_view, entries_view, obj_set, omap_set, sentinel_of, SpecValue, Value};

verus! {

/// A column of a type or model: its base type name (modifiers already
/// consumed into the flags), whether it is required, whether it is an array,
/// and its attributes.
#[derive(Debug)]
pub struct ColumnDefinition {
    /// The base type name, never carrying `?` or `[]`.
    pub column_type: String,
    /// False when the type carried a trailing `?`.
    pub required: bool,
    /// True when the type carried `[]`.
    pub multiple: bool,
    /// The column's attributes, in source order.
    pub attributes: Vec<(String, Value)>,
}

/// Mathematical model of a column definition.
pub struct SpecColumn {
    pub column_type: Seq<char>,
    pub required: bool,
    pub multiple: bool,
    pub attributes: Seq<(Seq<char>, SpecValue)>,
}

impl ColumnDefinition {
    /// The mathematical column this stands for.
    pub open spec fn view(self) -> SpecColumn {
        SpecColumn {
            column_type: self.column_type@,
            required: self.required,
            multiple: self.multiple,
            attributes: entries_view(self.attributes@),
        }
    }
}

/// The model of a sequence of named columns.
pub open spec fn cols_view(m: Seq<(String, ColumnDefinition)>) -> Seq<(Seq<char>, SpecColumn)> {
    Seq::new(m.len(), |i: int| if 0 <= i < m.len() {
        (m[i].0@, m[i].1.view())
    } else {
        (Seq::<char>::empty(), arbitrary())
    })
}

/// An attribute as parsed: a dotted name and its parameter sequence.
#[derive(Debug)]
pub struct Attribute {
    /// The dotted name, the parts joined with `.`.
    pub name: String,
    /// The parameters, in source order; empty when none were given.
    pub parameters: Vec<Value>,
}

/// A node of the abstract syntax tree; each carries its `[start, end)`
/// character-offset span.
#[derive(Debug)]
pub enum AstNode {
    /// The root: the file's declarations in source order.
    Schema { body: Vec<AstNode>, start: usize, end: usize },
    /// `plugin "path" { config }`
    Plugin { name: String, config: Vec<(String, Value)>, start: usize, end: usize },
    /// `use "path"`
    Use { path: String, start: usize, end: usize },
    /// `prop Name { config }`
    Prop { name: String, config: Vec<(String, Value)>, start: usize, end: usize },
    /// `enum Name { KEY value ... }`
    Enum { name: String, variants: Vec<(String, Value)>, start: usize, end: usize },
    /// `type Name ["!"] attributes { columns }`
    Type {
        name: String,
        mutable: bool,
        attributes: Vec<(String, Value)>,
        columns: Vec<(String, ColumnDefinition)>,
        start: usize,
        end: usize,
    },
    /// `model Name ["!"] attributes { columns }`
    Model {
        name: String,
        mutable: bool,
        attributes: Vec<(String, Value)>,
        columns: Vec<(String, ColumnDefinition)>,
        start: usize,
        end: usize,
    },
}

/// Mathematical model of one top-level declaration. `Skip` stands for a node
/// that is no declaration (a nested schema root), which compilation passes
/// over.
pub enum SpecDecl {
    Skip,
    Plugin { name: Seq<char>, config: Seq<(Seq<char>, SpecValue)> },
    Use { path: Seq<char> },
    Prop { name: Seq<char>, config: Seq<(Seq<char>, SpecValue)> },
    Enum { name: Seq<char>, variants: Seq<(Seq<char>, SpecValue)> },
    Type {
        name: Seq<char>,
        mutable: bool,
        attributes: Seq<(Seq<char>, SpecValue)>,
        columns: Seq<(Seq<char>, SpecColumn)>,
    },
    Model {
        name: Seq<char>,
        mutable: bool,
        attributes: Seq<(Seq<char>, SpecValue)>,
        columns: Seq<(Seq<char>, SpecColumn)>,
    },
}

impl AstNode {
    /// The declaration this node stands for.
    pub open spec fn decl_view(self) -> SpecDecl {
        match self {
            AstNode::Schema { .. } => SpecDecl::Skip,
            AstNode::Plugin { name, config, .. } => SpecDecl::Plugin {
                name: name@,
                config: entries_view(config@),
            },
            AstNode::Use { path, .. } => SpecDecl::Use { path: path@ },
            AstNode::Prop { name, config, .. } => SpecDecl::Prop {
                name: name@,
                config: entries_view(config@),
            },
            AstNode::Enum { name, variants, .. } => SpecDecl::Enum {
                name: name@,
                variants: entries_view(variants@),
            },
            AstNode::Type { name, mutable, attributes, columns, .. } => SpecDecl::Type {
                name: name@,
                mutable,
                attributes: entries_view(attributes@),
                columns: cols_view(columns@),
            },
            AstNode::Model { name, mutable, attributes, columns, .. } => SpecDecl::Model {
                name: name@,
                mutable,
                attributes: entries_view(attributes@),
                columns: cols_view(columns@),
            },
        }
    }
}

/// The declarations a schema root holds, in source order.
pub open spec fn body_view(body: Seq<AstNode>) -> Seq<SpecDecl> {
    Seq::new(body.len(), |i: int| if 0 <= i < body.len() {
        body[i].decl_view()
    } else {
        SpecDecl::Skip
    })
}

/// The model of an environment table.
pub open spec fn env_view(e: Seq<(String, String)>) -> Seq<(Seq<char>, Seq<char>)> {
    Seq::new(e.len(), |i: int| if 0 <= i < e.len() {
        (e[i].0@, e[i].1@)
    } else {
        (Seq::<char>::empty(), Seq::<char>::empty())
    })
}

/// The value of a variable in an environment table: the first binding's
/// value, or the empty string when the variable is absent.
pub open spec fn env_get(e: Seq<(Seq<char>, Seq<char>)>, name: Seq<char>) -> Seq<char>
    decreases e.len(),
{
    if e.len() == 0 {
        Seq::empty()
    } else if e[0].0 == name {
        e[0].1
    } else {
        env_get(e.drop_first(), name)
    }
}

/// Look a variable up in an environment table; an absent variable yields the
/// empty string, never an error.
fn env_lookup(env: &Vec<(String, String)>, name: &String) -> (r: String)
    ensures
        r@ == env_get(env_view(env@), name@),
{
    let n = env.len();
    let mut j: usize = 0;
    while j < n
        invariant
            n == env@.len(),
            j <= n,
            forall|i: int| 0 <= i < j ==> env_view(env@)[i].0 != name@,
    decreases n - j,
    {
        if env[j].0 == *name {
            proof {
                lemma_env_get_at(env_view(env@), name@, j as int);
            }
            return env[j].1.clone();
        }
        j += 1;
    }
    proof {
        lemma_env_get_missing(env_view(env@), name@);
    }
    String::new()
}

proof fn lemma_env_get_at(e: Seq<(Seq<char>, Seq<char>)>, name: Seq<char>, i: int)
    requires
        0 <= i < e.len(),
        e[i].0 == name,
        forall|j: int| 0 <= j < i ==> e[j].0 != name,
    ensures
        env_get(e, name) == e[i].1,
    decreases i,
{
    if i > 0 {
        lemma_env_get_at(e.drop_first(), name, i - 1);
    }
}

proof fn lemma_env_get_missing(e: Seq<(Seq<char>, Seq<char>)>, name: Seq<char>)
    requires
        forall|j: int| 0 <= j < e.len() ==> e[j].0 != name,
    ensures
        env_get(e, name) == Seq::<char>::empty(),
    decreases e.len(),
{
    if e.len() > 0 {
        lemma_env_get_missing(e.drop_first(), name);
    }
}

/// Spell the reference sentinel `${name}`.
fn make_sentinel(name: &String) -> (r: String)
    ensures
        r@ == sentinel_of(name@),
{
    let mut s = String::from_str("${");
    s.append(name.as_str());
    s.append("}");
    proof {
        reveal_strlit("${");
        reveal_strlit("}");
        assert(s@ =~= sentinel_of(name@));
    }
    s
}

/// A short name for a token's kind, payloads disregarded.
pub open spec fn spec_kind_name(tt: TokenType) -> Seq<char> {
    match tt {
        TokenType::Plugin => "the plugin keyword"@,
        TokenType::Use => "the use keyword"@,
        TokenType::Prop => "the prop keyword"@,
        TokenType::Enum => "the enum keyword"@,
        TokenType::Type => "the type keyword"@,
        TokenType::Model => "the model keyword"@,
        TokenType::Identifier(_) => "an identifier"@,
        TokenType::Text(_) => "a string literal"@,
        TokenType::Number(_) => "a number literal"@,
        TokenType::Boolean(_) => "a boolean literal"@,
        TokenType::Null => "null"@,
        TokenType::LeftBrace => "{"@,
        TokenType::RightBrace => "}"@,
        TokenType::LeftBracket => "["@,
        TokenType::RightBracket => "]"@,
        TokenType::LeftParen => "("@,
        TokenType::RightParen => ")"@,
        TokenType::At => "@"@,
        TokenType::Dot => "."@,
        TokenType::Question => "?"@,
        TokenType::Exclamation => "!"@,
        TokenType::Eof => "end of input"@,
    }
}

/// The short name of a token's kind, as a value.
fn kind_name(tt: &TokenType) -> (r: String)
    ensures
        r@ == spec_kind_name(*tt),
{
    match tt {
        TokenType::Plugin => String::from_str("the plugin keyword"),
        TokenType::Use => String::from_str("the use keyword"),
        TokenType::Prop => String::from_str("the prop keyword"),
        TokenType::Enum => String::from_str("the enum keyword"),
        TokenType::Type => String::from_str("the type keyword"),
        TokenType::Model => String::from_str("the model keyword"),
        TokenType::Identifier(_) => String::from_str("an identifier"),
        TokenType::Text(_) => String::from_str("a string literal"),
        TokenType::Number(_) => String::from_str("a number literal"),
        TokenType::Boolean(_) => String::from_str("a boolean literal"),
        TokenType::Null => String::from_str("null"),
        TokenType::LeftBrace => String::from_str("{"),
        TokenType::RightBrace => String::from_str("}"),
        TokenType::LeftBracket => String::from_str("["),
        TokenType::RightBracket => String::from_str("]"),
        TokenType::LeftParen => String::from_str("("),
        TokenType::RightParen => String::from_str(")"),
        TokenType::At => String::from_str("@"),
        TokenType::Dot => String::from_str("."),
        TokenType::Question => String::from_str("?"),
        TokenType::Exclamation => String::from_str("!"),
        TokenType::Eof => String::from_str("end of input"),
    }
}

/// The object key a token denotes: an identifier's text, or a declaration
/// keyword reinterpreted as its lowercase text.
pub open spec fn spec_key_at(tt: TokenType) -> Option<Seq<char>> {
    match tt {
        TokenType::Identifier(k) => Some(k@),
        TokenType::Plugin => Some("plugin"@),
        TokenType::Use => Some("use"@),
        TokenType::Prop => Some("prop"@),
        TokenType::Enum => Some("enum"@),
        TokenType::Type => Some("type"@),
        TokenType::Model => Some("model"@),
        _ => None,
    }
}

/// The value grammar at token `p`: scalars pass through, `{`/`[` recurse,
/// `env` directly before `(` resolves against the environment table, any
/// other identifier is the sentinel. `Err` means the tokens do not match the
/// grammar; the result carries the value and the position after it.
pub open spec fn spec_value_at(
    toks: Seq<Token>,
    p: int,
    env: Seq<(Seq<char>, Seq<char>)>,
) -> Result<(SpecValue, int), ()>
    decreases toks.len() + 2 - p, 1int,
{
    if !(0 <= p < toks.len()) {
        Err(())
    } else {
        match toks[p].token_type {
        TokenType::Text(s) => Ok((SpecValue::Str(s@), p + 1)),
        TokenType::Number(n) => Ok((SpecValue::Num(n@), p + 1)),
        TokenType::Boolean(b) => Ok((SpecValue::Bool(b), p + 1)),
        TokenType::Null => Ok((SpecValue::Null, p + 1)),
        TokenType::LeftBrace => match spec_object_at(toks, p, env) {
            Ok((o, q)) => Ok((SpecValue::Obj(o), q)),
            Err(x) => Err(x),
        },
        TokenType::LeftBracket => match spec_array_at(toks, p, env) {
            Ok((a, q)) => Ok((SpecValue::Arr(a), q)),
            Err(x) => Err(x),
        },
        TokenType::Identifier(name) => if name@ == "env"@ && toks[p + 1].token_type is LeftParen {
            if toks[p + 2].token_type is Identifier && toks[p + 3].token_type is RightParen {
                Ok(
                    (
                        SpecValue::Str(env_get(env, toks[p + 2].token_type->Identifier_0@)),
                        p + 4,
                    ),
                )
            } else {
                Err(())
            }
        } else {
            Ok((SpecValue::Str(sentinel_of(name@)), p + 1))
        },
        _ => Err(()),
        }
    }
}

/// The object grammar at token `p`: `{`, then entries to the matching `}`.
pub open spec fn spec_object_at(
    toks: Seq<Token>,
    p: int,
    env: Seq<(Seq<char>, Seq<char>)>,
) -> Result<(Seq<(Seq<char>, SpecValue)>, int), ()>
    decreases toks.len() + 2 - p, 0int,
{
    if 0 <= p < toks.len() && toks[p].token_type is LeftBrace {
        spec_entries_at(toks, p + 1, env, Seq::empty())
    } else {
        Err(())
    }
}

/// The entries of an object from token `p`: `key value` pairs to the
/// closing `}`, gathered by ordered-map insertion into `acc`, so a repeated
/// key keeps its position and takes the later value. (The recursion bounds
/// its next position structurally; a parsed value always ends past its
/// first token, so the bound never bites.)
pub open spec fn spec_entries_at(
    toks: Seq<Token>,
    p: int,
    env: Seq<(Seq<char>, Seq<char>)>,
    acc: Seq<(Seq<char>, SpecValue)>,
) -> Result<(Seq<(Seq<char>, SpecValue)>, int), ()>
    decreases toks.len() + 2 - p, 2int,
{
    if !(0 <= p < toks.len()) {
        Err(())
    } else if toks[p].token_type is RightBrace {
        Ok((acc, p + 1))
    } else if toks[p].token_type is Eof {
        Err(())
    } else {
        match spec_key_at(toks[p].token_type) {
            None => Err(()),
            Some(key) => match spec_value_at(toks, p + 1, env) {
                Err(x) => Err(x),
                Ok((v, q)) => spec_entries_at(
                    toks,
                    if p + 1 < q <= toks.len() {
                        q
                    } else {
                        p + 2
                    },
                    env,
                    obj_set(acc, key, v),
                ),
            },
        }
    }
}

/// The array grammar at token `p`: `[`, then items to the matching `]`.
pub open spec fn spec_array_at(
    toks: Seq<Token>,
    p: int,
    env: Seq<(Seq<char>, Seq<char>)>,
) -> Result<(Seq<SpecValue>, int), ()>
    decreases toks.len() + 2 - p, 0int,
{
    if 0 <= p < toks.len() && toks[p].token_type is LeftBracket {
        spec_items_at(toks, p + 1, env, Seq::empty())
    } else {
        Err(())
    }
}

/// The items of an array from token `p`: values to the closing `]`,
/// appended to `acc` in order.
pub open spec fn spec_items_at(
    toks: Seq<Token>,
    p: int,
    env: Seq<(Seq<char>, Seq<char>)>,
    acc: Seq<SpecValue>,
) -> Result<(Seq<SpecValue>, int), ()>
    decreases toks.len() + 2 - p, 3int,
{
    if !(0 <= p < toks.len()) {
        Err(())
    } else if toks[p].token_type is RightBracket {
        Ok((acc, p + 1))
    } else if toks[p].token_type is Eof {
        Err(())
    } else {
        match spec_value_at(toks, p, env) {
            Err(x) => Err(x),
            Ok((v, q)) => spec_items_at(
                toks,
                if p < q <= toks.len() {
                    q
                } else {
                    p + 1
                },
                env,
                acc.push(v),
            ),
        }
    }
}

/// The variants of an enum from token `p`: `KEY value` pairs to the closing
/// `}`, gathered by ordered-map insertion into `acc`, the later of two
/// same-keyed variants winning.
pub open spec fn spec_variants_at(
    toks: Seq<Token>,
    p: int,
    env: Seq<(Seq<char>, Seq<char>)>,
    acc: Seq<(Seq<char>, SpecValue)>,
) -> Result<(Seq<(Seq<char>, SpecValue)>, int), ()>
    decreases toks.len() + 2 - p, 2int,
{
    if !(0 <= p < toks.len()) {
        Err(())
    } else if toks[p].token_type is RightBrace {
        Ok((acc, p + 1))
    } else if toks[p].token_type is Eof {
        Err(())
    } else {
        match toks[p].token_type {
            TokenType::Identifier(key) => match spec_value_at(toks, p + 1, env) {
                Err(x) => Err(x),
                Ok((v, q)) => spec_variants_at(
                    toks,
                    if p + 1 < q <= toks.len() {
                        q
                    } else {
                        p + 2
                    },
                    env,
                    obj_set(acc, key@, v),
                ),
            },
            _ => Err(()),
        }
    }
}

/// The enum-declaration grammar at token `p`: the keyword, the name, `{`,
/// then the variants.
pub open spec fn spec_enum_at(
    toks: Seq<Token>,
    p: int,
    env: Seq<(Seq<char>, Seq<char>)>,
) -> Result<((Seq<char>, Seq<(Seq<char>, SpecValue)>), int), ()> {
    if 0 <= p < toks.len() && toks[p].token_type is Enum && toks[p + 1].token_type is Identifier
        && toks[p + 2].token_type is LeftBrace {
        match spec_variants_at(toks, p + 3, env, Seq::empty()) {
            Err(x) => Err(x),
            Ok((vs, q)) => Ok(((toks[p + 1].token_type->Identifier_0@, vs), q)),
        }
    } else {
        Err(())
    }
}

/// The rest of a dotted attribute name from token `p`: each `.` must be
/// followed by an identifier part, joined onto `acc` with a dot; the name
/// ends at the first token that is no dot.
pub open spec fn spec_attr_name_at(toks: Seq<Token>, p: int, acc: Seq<char>) -> Result<
    (Seq<char>, int),
    (),
>
    decreases toks.len() + 2 - p,
{
    if 0 <= p < toks.len() && toks[p].token_type is Dot {
        if toks[p + 1].token_type is Identifier {
            spec_attr_name_at(toks, p + 2, acc + seq!['.'] + toks[p + 1].token_type->Identifier_0@)
        } else {
            Err(())
        }
    } else {
        Ok((acc, p))
    }
}

/// The parameters of an attribute from token `p` (after its `(`): values to
/// the closing `)`, appended to `acc` in order.
pub open spec fn spec_params_at(
    toks: Seq<Token>,
    p: int,
    env: Seq<(Seq<char>, Seq<char>)>,
    acc: Seq<SpecValue>,
) -> Result<(Seq<SpecValue>, int), ()>
    decreases toks.len() + 2 - p, 3int,
{
    if !(0 <= p < toks.len()) {
        Err(())
    } else if toks[p].token_type is RightParen {
        Ok((acc, p + 1))
    } else if toks[p].token_type is Eof {
        Err(())
    } else {
        match spec_value_at(toks, p, env) {
            Err(x) => Err(x),
            Ok((v, q)) => spec_params_at(
                toks,
                if p < q <= toks.len() {
                    q
                } else {
                    p + 1
                },
                env,
                acc.push(v),
            ),
        }
    }
}

/// The attribute grammar at token `p` (after its `@`): a dotted identifier
/// chain, optionally followed by parenthesized parameter values; without a
/// `(` the parameter sequence is empty.
pub open spec fn spec_attribute_at(
    toks: Seq<Token>,
    p: int,
    env: Seq<(Seq<char>, Seq<char>)>,
) -> Result<((Seq<char>, Seq<SpecValue>), int), ()> {
    if 0 <= p < toks.len() && toks[p].token_type is Identifier {
        match spec_attr_name_at(toks, p + 1, toks[p].token_type->Identifier_0@) {
            Err(x) => Err(x),
            Ok((nm, q)) => if 0 <= q < toks.len() && toks[q].token_type is LeftParen {
                match spec_params_at(toks, q + 1, env, Seq::empty()) {
                    Err(x) => Err(x),
                    Ok((ps, q2)) => Ok(((nm, ps), q2)),
                }
            } else {
                Ok(((nm, Seq::empty()), q))
            },
        }
    } else {
        Err(())
    }
}

/// The attribute-list grammar at token `p`: `@name(...)` sequences gathered
/// by ordered-map insertion into `acc`, each name mapping to its parameter
/// array; the list ends at the first token that is no `@`.
pub open spec fn spec_attrs_at(
    toks: Seq<Token>,
    p: int,
    env: Seq<(Seq<char>, Seq<char>)>,
    acc: Seq<(Seq<char>, SpecValue)>,
) -> Result<(Seq<(Seq<char>, SpecValue)>, int), ()>
    decreases toks.len() + 2 - p, 4int,
{
    if !(0 <= p < toks.len() && toks[p].token_type is At) {
        Ok((acc, p))
    } else {
        match spec_attribute_at(toks, p + 1, env) {
            Err(x) => Err(x),
            Ok(((nm, ps), q)) => spec_attrs_at(
                toks,
                if p + 1 < q <= toks.len() {
                    q
                } else {
                    p + 2
                },
                env,
                obj_set(acc, nm, SpecValue::Arr(ps)),
            ),
        }
    }
}

/// The column-type grammar at token `p`: the base type name, then the
/// modifiers per `modifiers_spec`.
pub open spec fn spec_column_type_at(toks: Seq<Token>, p: int) -> Result<
    ((Seq<char>, bool, bool), int),
    (),
> {
    if 0 <= p < toks.len() && toks[p].token_type is Identifier {
        match modifiers_spec(toks, p + 1) {
            Some((e, req, mult)) => Ok(((toks[p].token_type->Identifier_0@, req, mult), e)),
            None => Err(()),
        }
    } else {
        Err(())
    }
}

/// The columns of a type or model body from token `p`: each column is a
/// name, a type with modifiers, then attributes; gathered by ordered-map
/// insertion into `acc`, the later of two same-named columns winning, to
/// the closing `}`.
pub open spec fn spec_columns_body_at(
    toks: Seq<Token>,
    p: int,
    env: Seq<(Seq<char>, Seq<char>)>,
    acc: Seq<(Seq<char>, SpecColumn)>,
) -> Result<(Seq<(Seq<char>, SpecColumn)>, int), ()>
    decreases toks.len() + 2 - p, 5int,
{
    if !(0 <= p < toks.len()) {
        Err(())
    } else if toks[p].token_type is RightBrace {
        Ok((acc, p + 1))
    } else if toks[p].token_type is Eof {
        Err(())
    } else {
        match toks[p].token_type {
            TokenType::Identifier(name) => match spec_column_type_at(toks, p + 1) {
                Err(x) => Err(x),
                Ok(((ty, req, mult), q)) => match spec_attrs_at(toks, q, env, Seq::empty()) {
                    Err(x) => Err(x),
                    Ok((attrs, q2)) => spec_columns_body_at(
                        toks,
                        if p + 1 < q2 <= toks.len() {
                            q2
                        } else {
                            p + 2
                        },
                        env,
                        obj_set(
                            acc,
                            name@,
                            SpecColumn {
                                column_type: ty,
                                required: req,
                                multiple: mult,
                                attributes: attrs,
                            },
                        ),
                    ),
                },
            },
            _ => Err(()),
        }
    }
}

/// The type or model body grammar at token `p`: `{`, then columns to the
/// matching `}`.
pub open spec fn spec_columns_at(
    toks: Seq<Token>,
    p: int,
    env: Seq<(Seq<char>, Seq<char>)>,
) -> Result<(Seq<(Seq<char>, SpecColumn)>, int), ()> {
    if 0 <= p < toks.len() && toks[p].token_type is LeftBrace {
        spec_columns_body_at(toks, p + 1, env, Seq::empty())
    } else {
        Err(())
    }
}

/// The shared shape of a type or model declaration at token `p`: the
/// keyword, the name, an optional `!` (whose absence means mutable), the
/// attributes, then the column body.
pub open spec fn spec_record_at(
    toks: Seq<Token>,
    p: int,
    env: Seq<(Seq<char>, Seq<char>)>,
) -> Result<
    ((Seq<char>, bool, Seq<(Seq<char>, SpecValue)>, Seq<(Seq<char>, SpecColumn)>), int),
    (),
> {
    if 0 <= p < toks.len() && toks[p + 1].token_type is Identifier {
        let mutable = !(toks[p + 2].token_type is Exclamation);
        let body = if toks[p + 2].token_type is Exclamation {
            p + 3
        } else {
            p + 2
        };
        match spec_attrs_at(toks, body, env, Seq::empty()) {
            Err(x) => Err(x),
            Ok((attrs, q)) => match spec_columns_at(toks, q, env) {
                Err(x) => Err(x),
                Ok((cols, q2)) => Ok(
                    ((toks[p + 1].token_type->Identifier_0@, mutable, attrs, cols), q2),
                ),
            },
        }
    } else {
        Err(())
    }
}

/// The declaration grammar at token `p`: the starting keyword selects the
/// production; any other token is no declaration.
pub open spec fn spec_decl_at(
    toks: Seq<Token>,
    p: int,
    env: Seq<(Seq<char>, Seq<char>)>,
) -> Result<(SpecDecl, int), ()> {
    if !(0 <= p < toks.len()) {
        Err(())
    } else {
        match toks[p].token_type {
            TokenType::Plugin => if toks[p + 1].token_type is Text {
                match spec_object_at(toks, p + 2, env) {
                    Err(x) => Err(x),
                    Ok((cfg, q)) => Ok(
                        (
                            SpecDecl::Plugin {
                                name: toks[p + 1].token_type->Text_0@,
                                config: cfg,
                            },
                            q,
                        ),
                    ),
                }
            } else {
                Err(())
            },
            TokenType::Use => if toks[p + 1].token_type is Text {
                Ok((SpecDecl::Use { path: toks[p + 1].token_type->Text_0@ }, p + 2))
            } else {
                Err(())
            },
            TokenType::Prop => if toks[p + 1].token_type is Identifier {
                match spec_object_at(toks, p + 2, env) {
                    Err(x) => Err(x),
                    Ok((cfg, q)) => Ok(
                        (
                            SpecDecl::Prop {
                                name: toks[p + 1].token_type->Identifier_0@,
                                config: cfg,
                            },
                            q,
                        ),
                    ),
                }
            } else {
                Err(())
            },
            TokenType::Enum => match spec_enum_at(toks, p, env) {
                Err(x) => Err(x),
                Ok(((nm, vs), q)) => Ok((SpecDecl::Enum { name: nm, variants: vs }, q)),
            },
            TokenType::Type => match spec_record_at(toks, p, env) {
                Err(x) => Err(x),
                Ok(((nm, mu, at, cols), q)) => Ok(
                    (SpecDecl::Type { name: nm, mutable: mu, attributes: at, columns: cols }, q),
                ),
            },
            TokenType::Model => match spec_record_at(toks, p, env) {
                Err(x) => Err(x),
                Ok(((nm, mu, at, cols), q)) => Ok(
                    (SpecDecl::Model { name: nm, mutable: mu, attributes: at, columns: cols }, q),
                ),
            },
            _ => Err(()),
        }
    }
}

/// The whole file's grammar from token `p`: declarations to the `Eof`,
/// appended to `acc` in source order.
pub open spec fn spec_decls_at(
    toks: Seq<Token>,
    p: int,
    env: Seq<(Seq<char>, Seq<char>)>,
    acc: Seq<SpecDecl>,
) -> Result<(Seq<SpecDecl>, int), ()>
    decreases toks.len() + 2 - p, 6int,
{
    if !(0 <= p < toks.len()) {
        Err(())
    } else if toks[p].token_type is Eof {
        Ok((acc, p))
    } else {
        match spec_decl_at(toks, p, env) {
            Err(x) => Err(x),
            Ok((d, q)) => spec_decls_at(
                toks,
                if p < q <= toks.len() {
                    q
                } else {
                    p + 1
                },
                env,
                acc.push(d),
            ),
        }
    }
}

/// The error kinds the parser itself can produce: a token of the wrong
/// kind, a missing declaration keyword, or an unexpected end of input.
pub open spec fn is_parse_error(e: SchemaError) -> bool {
    e is UnexpectedToken || e is ExpectedDeclaration || e is UnexpectedEnd
}

/// Both token kinds are the same variant, payloads disregarded.
pub open spec fn same_kind(a: TokenType, b: TokenType) -> bool {
    match b {
        TokenType::Plugin => a is Plugin,
        TokenType::Use => a is Use,
        TokenType::Prop => a is Prop,
        TokenType::Enum => a is Enum,
        TokenType::Type => a is Type,
        TokenType::Model => a is Model,
        TokenType::Identifier(_) => a is Identifier,
        TokenType::Text(_) => a is Text,
        TokenType::Number(_) => a is Number,
        TokenType::Boolean(_) => a is Boolean,
        TokenType::Null => a is Null,
        TokenType::LeftBrace => a is LeftBrace,
        TokenType::RightBrace => a is RightBrace,
        TokenType::LeftBracket => a is LeftBracket,
        TokenType::RightBracket => a is RightBracket,
        TokenType::LeftParen => a is LeftParen,
        TokenType::RightParen => a is RightParen,
        TokenType::At => a is At,
        TokenType::Dot => a is Dot,
        TokenType::Question => a is Question,
        TokenType::Exclamation => a is Exclamation,
        TokenType::Eof => a is Eof,
    }
}

/// Decide `same_kind` on token kind values.
fn is_kind(a: &TokenType, b: &TokenType) -> (r: bool)
    ensures
        r == same_kind(*a, *b),
{
    match b {
        TokenType::Plugin => matches!(a, TokenType::Plugin),
        TokenType::Use => matches!(a, TokenType::Use),
        TokenType::Prop => matches!(a, TokenType::Prop),
        TokenType::Enum => matches!(a, TokenType::Enum),
        TokenType::Type => matches!(a, TokenType::Type),
        TokenType::Model => matches!(a, TokenType::Model),
        TokenType::Identifier(_) => matches!(a, TokenType::Identifier(_)),
        TokenType::Text(_) => matches!(a, TokenType::Text(_)),
        TokenType::Number(_) => matches!(a, TokenType::Number(_)),
        TokenType::Boolean(_) => matches!(a, TokenType::Boolean(_)),
        TokenType::Null => matches!(a, TokenType::Null),
        TokenType::LeftBrace => matches!(a, TokenType::LeftBrace),
        TokenType::RightBrace => matches!(a, TokenType::RightBrace),
        TokenType::LeftBracket => matches!(a, TokenType::LeftBracket),
        TokenType::RightBracket => matches!(a, TokenType::RightBracket),
        TokenType::LeftParen => matches!(a, TokenType::LeftParen),
        TokenType::RightParen => matches!(a, TokenType::RightParen),
        TokenType::At => matches!(a, TokenType::At),
        TokenType::Dot => matches!(a, TokenType::Dot),
        TokenType::Question => matches!(a, TokenType::Question),
        TokenType::Exclamation => matches!(a, TokenType::Exclamation),
        TokenType::Eof => matches!(a, TokenType::Eof),
    }
}

/// Ordered-map insertion on column vectors; the model is `obj_set`.
fn omap_set_col(m: &mut Vec<(String, ColumnDefinition)>, k: String, v: ColumnDefinition)
    ensures
        cols_view(final(m)@) == obj_set(cols_view(old(m)@), k@, v.view()),
{
    let ghost ov = cols_view(m@);
    let n = m.len();
    let mut j: usize = 0;
    while j < n
        invariant
            n == m@.len(),
            j <= n,
            m@ == old(m)@,
            ov == cols_view(m@),
            forall|i: int| 0 <= i < j ==> ov[i].0 != k@,
        decreases n - j,
    {
        if m[j].0 == k {
            proof {
                crate::value::lemma_obj_set_found(ov, k@, v.view(), j as int);
            }
            m.set(j, (k, v));
            proof {
                assert(cols_view(m@) =~= ov.update(j as int, (k@, v.view())));
            }
            return ;
        }
        j += 1;
    }
    proof {
        crate::value::lemma_obj_set_missing(ov, k@, v.view());
    }
    m.push((k, v));
    proof {
        assert(cols_view(m@) =~= ov.push((k@, v.view())));
    }
}

/// Where the column-type modifiers after the base type name lead: given the
/// position just past the base type, the position past the modifiers together
/// with the `required` and `multiple` flags, or nothing when `[` is not
/// followed by `]`. The array marker must come first; a `?` before `[]` ends
/// the modifiers, leaving the `[` to fail as the next column's name.
pub open spec fn modifiers_spec(toks: Seq<Token>, p: int) -> Option<(int, bool, bool)> {
    if toks[p].token_type is LeftBracket {
        if toks[p + 1].token_type is RightBracket {
            if toks[p + 2].token_type is Question {
                Some((p + 3, false, true))
            } else {
                Some((p + 2, true, true))
            }
        } else {
            None
        }
    } else if toks[p].token_type is Question {
        Some((p + 1, false, false))
    } else {
        Some((p, true, false))
    }
}

/// The parser: the token sequence, the cursor into it, and the environment
/// table that `env(NAME)` expressions read.
pub struct SchemaParser {
    /// The tokens, ending with a single `Eof`.
    pub tokens: Vec<Token>,
    /// The current token's index.
    pub pos: usize,
    /// The environment table.
    pub env: Vec<(String, String)>,
}

impl SchemaParser {
    /// The token sequence ends with its only `Eof` and the cursor stays on a
    /// token.
    pub open spec fn wf(self) -> bool {
        &&& 1 <= self.tokens@.len()
        &&& self.pos < self.tokens@.len()
        &&& self.tokens@[self.tokens@.len() - 1].token_type is Eof
        &&& forall|i: int|
            0 <= i < self.tokens@.len() - 1 ==> !(#[trigger] self.tokens@[i].token_type is Eof)
    }

    /// The kind of the current token.
    pub open spec fn cur(self) -> TokenType {
        self.tokens@[self.pos as int].token_type
    }

    /// Create a parser over a token sequence and an environment table, with
    /// the cursor on the first token.
    pub fn new(tokens: Vec<Token>, env: Vec<(String, String)>) -> (p: SchemaParser)
        requires
            1 <= tokens@.len(),
            tokens@[tokens@.len() - 1].token_type is Eof,
            forall|i: int| 0 <= i < tokens@.len() - 1 ==> !(#[trigger] tokens@[i].token_type is Eof),
        ensures
            p.wf(),
            p.tokens == tokens,
            p.env == env,
            p.pos == 0,
    {
        SchemaParser { tokens, pos: 0, env }
    }

    /// Move to the next token; on the final `Eof` the cursor stays.
    fn advance(&mut self)
        requires
            old(self).wf(),
        ensures
            final(self).wf(),
            final(self).tokens == old(self).tokens,
            final(self).env == old(self).env,
            final(self).pos == if old(self).pos + 1 < old(self).tokens@.len() {
                old(self).pos + 1
            } else {
                old(self).pos as int
            },
            !(old(self).cur() is Eof) ==> final(self).pos == old(self).pos + 1,
    {
        let n = self.tokens.len();
        if self.pos < n - 1 {
            self.pos += 1;
        }
    }

    /// Whether the current token is `Eof`.
    fn is_at_end(&self) -> (b: bool)
        requires
            self.wf(),
        ensures
            b == (self.cur() is Eof),
    {
        matches!(self.tokens[self.pos].token_type, TokenType::Eof)
    }

    /// When the current token has the expected kind, consume it.
    fn match_token(&mut self, expected: &TokenType) -> (b: bool)
        requires
            old(self).wf(),
            !(*expected is Eof),
        ensures
            final(self).wf(),
            final(self).tokens == old(self).tokens,
            final(self).env == old(self).env,
            b == same_kind(old(self).cur(), *expected),
            b ==> final(self).pos == old(self).pos + 1,
            !b ==> final(self).pos == old(self).pos,
    {
        if is_kind(&self.tokens[self.pos].token_type, expected) {
            self.advance();
            true
        } else {
            false
        }
    }

    /// Demand a token of the expected kind and consume it; `desc` names the
    /// construct for the error message.
    fn expect_token(&mut self, expected: &TokenType, desc: &str) -> (r: Result<(), SchemaError>)
        requires
            old(self).wf(),
            !(*expected is Eof),
        ensures
            final(self).wf(),
            final(self).tokens == old(self).tokens,
            final(self).env == old(self).env,
            match r {
                Ok(()) => same_kind(old(self).cur(), *expected) && final(self).pos == old(self).pos
                    + 1,
                Err(e) => !same_kind(old(self).cur(), *expected) && final(self).pos == old(
                    self,
                ).pos && (e matches SchemaError::UnexpectedToken { expected: ex, found, offset }
                    && ex@ == desc@ && found@ == spec_kind_name(old(self).cur()) && offset == old(
                    self,
                ).tokens@[old(self).pos as int].start),
            },
    {
        if self.match_token(expected) {
            Ok(())
        } else {
            Err(
                SchemaError::UnexpectedToken {
                    expected: String::from_str(desc),
                    found: kind_name(&self.tokens[self.pos].token_type),
                    offset: self.tokens[self.pos].start,
                },
            )
        }
    }

    /// Parse the whole file: top-level declarations until end of input.
    pub fn parse_schema(&mut self) -> (r: Result<AstNode, SchemaError>)
        requires
            old(self).wf(),
        ensures
            final(self).wf(),
            final(self).tokens == old(self).tokens,
            final(self).env == old(self).env,
            r matches Ok(n) ==> n is Schema && final(self).cur() is Eof,
            r matches Err(e) ==> is_parse_error(e),
            match r {
                Ok(n) => (n matches AstNode::Schema { body, .. } && spec_decls_at(
                    old(self).tokens@,
                    old(self).pos as int,
                    env_view(old(self).env@),
                    Seq::empty(),
                ) == Ok::<(Seq<SpecDecl>, int), ()>((body_view(body@), final(self).pos as int))),
                Err(_) => spec_decls_at(
                    old(self).tokens@,
                    old(self).pos as int,
                    env_view(old(self).env@),
                    Seq::empty(),
                ) is Err,
            },
            !(old(self).cur() is Eof) && !(old(self).cur() is Plugin) && !(old(
                self,
            ).cur() is Use) && !(old(self).cur() is Prop) && !(old(self).cur() is Enum) && !(old(
                self,
            ).cur() is Type) && !(old(self).cur() is Model) ==> r is Err,
    {
        let start = self.tokens[self.pos].start;
        let mut body: Vec<AstNode> = Vec::new();
        proof {
            assert(body_view(body@) =~= Seq::<SpecDecl>::empty());
        }
        loop
            invariant
                self.wf(),
                self.tokens == old(self).tokens,
                self.env == old(self).env,
                old(self).pos <= self.pos,
                old(self).pos < self.pos ==> (old(self).cur() is Plugin || old(self).cur() is Use
                    || old(self).cur() is Prop || old(self).cur() is Enum
                    || old(self).cur() is Type || old(self).cur() is Model),
                spec_decls_at(
                    self.tokens@,
                    old(self).pos as int,
                    env_view(self.env@),
                    Seq::empty(),
                ) == spec_decls_at(
                    self.tokens@,
                    self.pos as int,
                    env_view(self.env@),
                    body_view(body@),
                ),
            decreases self.tokens@.len() - self.pos,
        {
            let ghost p_here = self.pos as int;
            let ghost acc = body_view(body@);
            if self.is_at_end() {
                let end = if self.pos > 0 {
                    self.tokens[self.pos - 1].end
                } else {
                    self.tokens[self.pos].end
                };
                return Ok(AstNode::Schema { body, start, end });
            }
            match self.parse_declaration() {
                Ok(node) => {
                    proof {
                        assert(spec_decls_at(self.tokens@, p_here, env_view(self.env@), acc)
                            == spec_decls_at(
                            self.tokens@,
                            self.pos as int,
                            env_view(self.env@),
                            acc.push(node.decl_view()),
                        ));
                    }
                    body.push(node);
                    proof {
                        assert(body_view(body@) =~= acc.push(node.decl_view()));
                    }
                },
                Err(e) => {
                    return Err(e);
                },
            }
        }
    }

    /// Parse one top-level declaration; the starting keyword selects the
    /// production, any other token here is a parse error.
    pub fn parse_declaration(&mut self) -> (r: Result<AstNode, SchemaError>)
        requires
            old(self).wf(),
        ensures
            final(self).wf(),
            final(self).tokens == old(self).tokens,
            final(self).env == old(self).env,
            old(self).pos <= final(self).pos,
            match r {
                Ok(n) => {
                    &&& old(self).pos < final(self).pos
                    &&& !(n is Schema)
                    &&& (old(self).cur() is Plugin ==> n is Plugin)
                    &&& (old(self).cur() is Use ==> n is Use)
                    &&& (old(self).cur() is Prop ==> n is Prop)
                    &&& (old(self).cur() is Enum ==> n is Enum)
                    &&& (old(self).cur() is Type ==> n is Type)
                    &&& (old(self).cur() is Model ==> n is Model)
                },
                Err(e) => is_parse_error(e),
            },
            !(old(self).cur() is Plugin) && !(old(self).cur() is Use) && !(old(self).cur() is Prop)
                && !(old(self).cur() is Enum) && !(old(self).cur() is Type) && !(old(
                self,
            ).cur() is Model) ==> (r matches Err(e) && e is ExpectedDeclaration),
            match r {
                Ok(n) => spec_decl_at(
                    old(self).tokens@,
                    old(self).pos as int,
                    env_view(old(self).env@),
                ) == Ok::<(SpecDecl, int), ()>((n.decl_view(), final(self).pos as int)),
                Err(_) => spec_decl_at(
                    old(self).tokens@,
                    old(self).pos as int,
                    env_view(old(self).env@),
                ) is Err,
            },
    {
        match &self.tokens[self.pos].token_type {
            TokenType::Plugin => self.parse_plugin(),
            TokenType::Use => self.parse_use(),
            TokenType::Prop => self.parse_prop(),
            TokenType::Enum => self.parse_enum(),
            TokenType::Type => self.parse_type(),
            TokenType::Model => self.parse_model(),
            _ => Err(SchemaError::ExpectedDeclaration { offset: self.tokens[self.pos].start }),
        }
    }

    /// Parse `plugin "path" { config }`.
    pub fn parse_plugin(&mut self) -> (r: Result<AstNode, SchemaError>)
        requires
            old(self).wf(),
        ensures
            final(self).wf(),
            final(self).tokens == old(self).tokens,
            final(self).env == old(self).env,
            old(self).pos <= final(self).pos,
            !(old(self).cur() is Plugin) || !(old(self).tokens@[old(self).pos + 1].token_type is Text)
                ==> r is Err,
            old(self).cur() is Plugin ==> match r {
                Ok(n) => spec_decl_at(
                    old(self).tokens@,
                    old(self).pos as int,
                    env_view(old(self).env@),
                ) == Ok::<(SpecDecl, int), ()>((n.decl_view(), final(self).pos as int)),
                Err(_) => spec_decl_at(
                    old(self).tokens@,
                    old(self).pos as int,
                    env_view(old(self).env@),
                ) is Err,
            },
            match r {
                Ok(n) => {
                    let toks = old(self).tokens@;
                    let p = old(self).pos as int;
                    &&& old(self).pos < final(self).pos
                    &&& old(self).cur() is Plugin
                    &&& toks[p + 1].token_type is Text
                    &&& n matches AstNode::Plugin { name, .. } && name@ == toks[p
                        + 1].token_type->Text_0@
                },
                Err(e) => is_parse_error(e),
            },
    {
        let start = self.tokens[self.pos].start;
        match self.expect_token(&TokenType::Plugin, "plugin keyword") {
            Ok(()) => {},
            Err(e) => {
                return Err(e);
            },
        }
        let name = match &self.tokens[self.pos].token_type {
            TokenType::Text(path) => {
                let path2 = path.clone();
                self.advance();
                path2
            },
            _ => {
                return Err(
                    SchemaError::UnexpectedToken {
                        expected: String::from_str("plugin path string"),
                        found: kind_name(&self.tokens[self.pos].token_type),
                        offset: self.tokens[self.pos].start,
                    },
                );
            },
        };
        let config = match self.parse_object() {
            Ok(c) => c,
            Err(e) => {
                return Err(e);
            },
        };
        let end = self.tokens[self.pos - 1].end;
        Ok(AstNode::Plugin { name, config, start, end })
    }

    /// Parse `use "path"`; the path is recorded as an opaque string, never
    /// opened.
    pub fn parse_use(&mut self) -> (r: Result<AstNode, SchemaError>)
        requires
            old(self).wf(),
        ensures
            final(self).wf(),
            final(self).tokens == old(self).tokens,
            final(self).env == old(self).env,
            old(self).pos <= final(self).pos,
            r is Ok <==> (old(self).cur() is Use && old(self).tokens@[old(self).pos
                + 1].token_type is Text),
            old(self).cur() is Use ==> match r {
                Ok(n) => spec_decl_at(
                    old(self).tokens@,
                    old(self).pos as int,
                    env_view(old(self).env@),
                ) == Ok::<(SpecDecl, int), ()>((n.decl_view(), final(self).pos as int)),
                Err(_) => spec_decl_at(
                    old(self).tokens@,
                    old(self).pos as int,
                    env_view(old(self).env@),
                ) is Err,
            },
            match r {
                Ok(n) => {
                    let toks = old(self).tokens@;
                    let p = old(self).pos as int;
                    &&& old(self).cur() is Use
                    &&& toks[p + 1].token_type is Text
                    &&& n matches AstNode::Use { path, .. } && path@ == toks[p
                        + 1].token_type->Text_0@
                    &&& final(self).pos == p + 2
                },
                Err(e) => is_parse_error(e),
            },
    {
        let start = self.tokens[self.pos].start;
        match self.expect_token(&TokenType::Use, "use keyword") {
            Ok(()) => {},
            Err(e) => {
                return Err(e);
            },
        }
        let path = match &self.tokens[self.pos].token_type {
            TokenType::Text(path) => {
                let path2 = path.clone();
                self.advance();
                path2
            },
            _ => {
                return Err(
                    SchemaError::UnexpectedToken {
                        expected: String::from_str("import path string"),
                        found: kind_name(&self.tokens[self.pos].token_type),
                        offset: self.tokens[self.pos].start,
                    },
                );
            },
        };
        let end = self.tokens[self.pos - 1].end;
        Ok(AstNode::Use { path, start, end })
    }

    /// Parse `prop Name { config }`.
    pub fn parse_prop(&mut self) -> (r: Result<AstNode, SchemaError>)
        requires
            old(self).wf(),
        ensures
            final(self).wf(),
            final(self).tokens == old(self).tokens,
            final(self).env == old(self).env,
            old(self).pos <= final(self).pos,
            !(old(self).cur() is Prop) || !(old(self).tokens@[old(self).pos
                + 1].token_type is Identifier) ==> r is Err,
            old(self).cur() is Prop ==> match r {
                Ok(n) => spec_decl_at(
                    old(self).tokens@,
                    old(self).pos as int,
                    env_view(old(self).env@),
                ) == Ok::<(SpecDecl, int), ()>((n.decl_view(), final(self).pos as int)),
                Err(_) => spec_decl_at(
                    old(self).tokens@,
                    old(self).pos as int,
                    env_view(old(self).env@),
                ) is Err,
            },
            match r {
                Ok(n) => {
                    let toks = old(self).tokens@;
                    let p = old(self).pos as int;
                    &&& old(self).pos < final(self).pos
                    &&& old(self).cur() is Prop
                    &&& toks[p + 1].token_type is Identifier
                    &&& n matches AstNode::Prop { name, .. } && name@ == toks[p
                        + 1].token_type->Identifier_0@
                },
                Err(e) => is_parse_error(e),
            },
    {
        let start = self.tokens[self.pos].start;
        match self.expect_token(&TokenType::Prop, "prop keyword") {
            Ok(()) => {},
            Err(e) => {
                return Err(e);
            },
        }
        let name = match &self.tokens[self.pos].token_type {
            TokenType::Identifier(name) => {
                let name2 = name.clone();
                self.advance();
                name2
            },
            _ => {
                return Err(
                    SchemaError::UnexpectedToken {
                        expected: String::from_str("prop name"),
                        found: kind_name(&self.tokens[self.pos].token_type),
                        offset: self.tokens[self.pos].start,
                    },
                );
            },
        };
        let config = match self.parse_object() {
            Ok(c) => c,
            Err(e) => {
                return Err(e);
            },
        };
        let end = self.tokens[self.pos - 1].end;
        Ok(AstNode::Prop { name, config, start, end })
    }

    /// Parse `enum Name { KEY value ... }`: bare identifier keys, each
    /// followed directly by a value, no separators. A repeated key keeps its
    /// position and takes the later value.
    pub fn parse_enum(&mut self) -> (r: Result<AstNode, SchemaError>)
        requires
            old(self).wf(),
        ensures
            final(self).wf(),
            final(self).tokens == old(self).tokens,
            final(self).env == old(self).env,
            old(self).pos <= final(self).pos,
            !(old(self).cur() is Enum) || !(old(self).tokens@[old(self).pos
                + 1].token_type is Identifier) ==> r is Err,
            old(self).cur() is Enum ==> match r {
                Ok(n) => spec_decl_at(
                    old(self).tokens@,
                    old(self).pos as int,
                    env_view(old(self).env@),
                ) == Ok::<(SpecDecl, int), ()>((n.decl_view(), final(self).pos as int)),
                Err(_) => spec_decl_at(
                    old(self).tokens@,
                    old(self).pos as int,
                    env_view(old(self).env@),
                ) is Err,
            },
            match r {
                Ok(n) => n matches AstNode::Enum { name, variants, .. } && spec_enum_at(
                    old(self).tokens@,
                    old(self).pos as int,
                    env_view(old(self).env@),
                ) == Ok::<((Seq<char>, Seq<(Seq<char>, SpecValue)>), int), ()>(
                    ((name@, entries_view(variants@)), final(self).pos as int),
                ),
                Err(_) => spec_enum_at(
                    old(self).tokens@,
                    old(self).pos as int,
                    env_view(old(self).env@),
                ) is Err,
            },
            match r {
                Ok(n) => {
                    let toks = old(self).tokens@;
                    let p = old(self).pos as int;
                    &&& old(self).pos < final(self).pos
                    &&& old(self).cur() is Enum
                    &&& toks[p + 1].token_type is Identifier
                    &&& n matches AstNode::Enum { name, .. } && name@ == toks[p
                        + 1].token_type->Identifier_0@
                },
                Err(e) => is_parse_error(e),
            },
    {
        let start = self.tokens[self.pos].start;
        match self.expect_token(&TokenType::Enum, "enum keyword") {
            Ok(()) => {},
            Err(e) => {
                return Err(e);
            },
        }
        let name = match &self.tokens[self.pos].token_type {
            TokenType::Identifier(name) => {
                let name2 = name.clone();
                self.advance();
                name2
            },
            _ => {
                return Err(
                    SchemaError::UnexpectedToken {
                        expected: String::from_str("enum name"),
                        found: kind_name(&self.tokens[self.pos].token_type),
                        offset: self.tokens[self.pos].start,
                    },
                );
            },
        };
        match self.expect_token(&TokenType::LeftBrace, "{") {
            Ok(()) => {},
            Err(e) => {
                return Err(e);
            },
        }
        let mut variants: Vec<(String, Value)> = Vec::new();
        proof {
            assert(entries_view(variants@) =~= Seq::<(Seq<char>, SpecValue)>::empty());
        }
        loop
            invariant
                self.wf(),
                self.tokens == old(self).tokens,
                self.env == old(self).env,
                old(self).pos < self.pos,
                old(self).cur() is Enum,
                old(self).tokens@[old(self).pos + 1].token_type is Identifier,
                old(self).tokens@[old(self).pos + 2].token_type is LeftBrace,
                name@ == old(self).tokens@[old(self).pos + 1].token_type->Identifier_0@,
                spec_variants_at(
                    self.tokens@,
                    old(self).pos + 3,
                    env_view(self.env@),
                    Seq::empty(),
                ) == spec_variants_at(
                    self.tokens@,
                    self.pos as int,
                    env_view(self.env@),
                    entries_view(variants@),
                ),
            decreases self.tokens@.len() - self.pos,
        {
            let ghost p_here = self.pos as int;
            let ghost acc = entries_view(variants@);
            if self.match_token(&TokenType::RightBrace) {
                let end = self.tokens[self.pos - 1].end;
                return Ok(AstNode::Enum { name, variants, start, end });
            }
            if self.is_at_end() {
                return Err(SchemaError::UnexpectedEnd { offset: self.tokens[self.pos].start });
            }
            let key = match &self.tokens[self.pos].token_type {
                TokenType::Identifier(key) => {
                    let key2 = key.clone();
                    self.advance();
                    key2
                },
                _ => {
                    return Err(
                        SchemaError::UnexpectedToken {
                            expected: String::from_str("enum variant key"),
                            found: kind_name(&self.tokens[self.pos].token_type),
                            offset: self.tokens[self.pos].start,
                        },
                    );
                },
            };
            let ghost keyv = key@;
            let value = match self.parse_value() {
                Ok(v) => v,
                Err(e) => {
                    return Err(e);
                },
            };
            proof {
                assert(spec_variants_at(self.tokens@, p_here, env_view(self.env@), acc)
                    == spec_variants_at(
                    self.tokens@,
                    self.pos as int,
                    env_view(self.env@),
                    obj_set(acc, keyv, value.view()),
                ));
            }
            omap_set(&mut variants, key, value);
        }
    }

    /// Parse `type Name ["!"] attributes { columns }`. A trailing `!` after
    /// the name makes the declaration non-mergeable: `mutable` is false;
    /// its absence means `mutable` is true.
    pub fn parse_type(&mut self) -> (r: Result<AstNode, SchemaError>)
        requires
            old(self).wf(),
        ensures
            final(self).wf(),
            final(self).tokens == old(self).tokens,
            final(self).env == old(self).env,
            old(self).pos <= final(self).pos,
            !(old(self).cur() is Type) || !(old(self).tokens@[old(self).pos
                + 1].token_type is Identifier) ==> r is Err,
            old(self).cur() is Type ==> match r {
                Ok(n) => spec_decl_at(
                    old(self).tokens@,
                    old(self).pos as int,
                    env_view(old(self).env@),
                ) == Ok::<(SpecDecl, int), ()>((n.decl_view(), final(self).pos as int)),
                Err(_) => spec_decl_at(
                    old(self).tokens@,
                    old(self).pos as int,
                    env_view(old(self).env@),
                ) is Err,
            },
            match r {
                Ok(n) => {
                    let toks = old(self).tokens@;
                    let p = old(self).pos as int;
                    &&& old(self).pos < final(self).pos
                    &&& old(self).cur() is Type
                    &&& toks[p + 1].token_type is Identifier
                    &&& n matches AstNode::Type { name, mutable, .. } && name@ == toks[p
                        + 1].token_type->Identifier_0@ && mutable == !(toks[p
                        + 2].token_type is Exclamation)
                },
                Err(e) => is_parse_error(e),
            },
    {
        let start = self.tokens[self.pos].start;
        match self.expect_token(&TokenType::Type, "type keyword") {
            Ok(()) => {},
            Err(e) => {
                return Err(e);
            },
        }
        let name = match &self.tokens[self.pos].token_type {
            TokenType::Identifier(name) => {
                let name2 = name.clone();
                self.advance();
                name2
            },
            _ => {
                return Err(
                    SchemaError::UnexpectedToken {
                        expected: String::from_str("type name"),
                        found: kind_name(&self.tokens[self.pos].token_type),
                        offset: self.tokens[self.pos].start,
                    },
                );
            },
        };
        let mutable = !self.match_token(&TokenType::Exclamation);
        let attributes = match self.parse_attributes() {
            Ok(a) => a,
            Err(e) => {
                return Err(e);
            },
        };
        let columns = match self.parse_columns() {
            Ok(c) => c,
            Err(e) => {
                return Err(e);
            },
        };
        let end = self.tokens[self.pos - 1].end;
        Ok(AstNode::Type { name, mutable, attributes, columns, start, end })
    }

    /// Parse `model Name ["!"] attributes { columns }`, shaped exactly like a
    /// type declaration.
    pub fn parse_model(&mut self) -> (r: Result<AstNode, SchemaError>)
        requires
            old(self).wf(),
        ensures
            final(self).wf(),
            final(self).tokens == old(self).tokens,
            final(self).env == old(self).env,
            old(self).pos <= final(self).pos,
            !(old(self).cur() is Model) || !(old(self).tokens@[old(self).pos
                + 1].token_type is Identifier) ==> r is Err,
            old(self).cur() is Model ==> match r {
                Ok(n) => spec_decl_at(
                    old(self).tokens@,
                    old(self).pos as int,
                    env_view(old(self).env@),
                ) == Ok::<(SpecDecl, int), ()>((n.decl_view(), final(self).pos as int)),
                Err(_) => spec_decl_at(
                    old(self).tokens@,
                    old(self).pos as int,
                    env_view(old(self).env@),
                ) is Err,
            },
            match r {
                Ok(n) => {
                    let toks = old(self).tokens@;
                    let p = old(self).pos as int;
                    &&& old(self).pos < final(self).pos
                    &&& old(self).cur() is Model
                    &&& toks[p + 1].token_type is Identifier
                    &&& n matches AstNode::Model { name, mutable, .. } && name@ == toks[p
                        + 1].token_type->Identifier_0@ && mutable == !(toks[p
                        + 2].token_type is Exclamation)
                },
                Err(e) => is_parse_error(e),
            },
    {
        let start = self.tokens[self.pos].start;
        match self.expect_token(&TokenType::Model, "model keyword") {
            Ok(()) => {},
            Err(e) => {
                return Err(e);
            },
        }
        let name = match &self.tokens[self.pos].token_type {
            TokenType::Identifier(name) => {
                let name2 = name.clone();
                self.advance();
                name2
            },
            _ => {
                return Err(
                    SchemaError::UnexpectedToken {
                        expected: String::from_str("model name"),
                        found: kind_name(&self.tokens[self.pos].token_type),
                        offset: self.tokens[self.pos].start,
                    },
                );
            },
        };
        let mutable = !self.match_token(&TokenType::Exclamation);
        let attributes = match self.parse_attributes() {
            Ok(a) => a,
            Err(e) => {
                return Err(e);
            },
        };
        let columns = match self.parse_columns() {
            Ok(c) => c,
            Err(e) => {
                return Err(e);
            },
        };
        let end = self.tokens[self.pos - 1].end;
        Ok(AstNode::Model { name, mutable, attributes, columns, start, end })
    }

    /// Parse the attributes standing before a body: zero or more `@name(...)`
    /// sequences, gathered into an ordered map from dotted name to parameter
    /// array, the later of two same-named attributes winning.
    pub fn parse_attributes(&mut self) -> (r: Result<Vec<(String, Value)>, SchemaError>)
        requires
            old(self).wf(),
        ensures
            final(self).wf(),
            final(self).tokens == old(self).tokens,
            final(self).env == old(self).env,
            old(self).pos <= final(self).pos,
            r matches Err(e) ==> is_parse_error(e),
            match r {
                Ok(m) => spec_attrs_at(
                    old(self).tokens@,
                    old(self).pos as int,
                    env_view(old(self).env@),
                    Seq::empty(),
                ) == Ok::<(Seq<(Seq<char>, SpecValue)>, int), ()>(
                    (entries_view(m@), final(self).pos as int),
                ),
                Err(_) => spec_attrs_at(
                    old(self).tokens@,
                    old(self).pos as int,
                    env_view(old(self).env@),
                    Seq::empty(),
                ) is Err,
            },
    {
        let mut attributes: Vec<(String, Value)> = Vec::new();
        proof {
            assert(entries_view(attributes@) =~= Seq::<(Seq<char>, SpecValue)>::empty());
        }
        loop
            invariant
                self.wf(),
                self.tokens == old(self).tokens,
                self.env == old(self).env,
                old(self).pos <= self.pos,
                spec_attrs_at(
                    self.tokens@,
                    old(self).pos as int,
                    env_view(self.env@),
                    Seq::empty(),
                ) == spec_attrs_at(
                    self.tokens@,
                    self.pos as int,
                    env_view(self.env@),
                    entries_view(attributes@),
                ),
            decreases self.tokens@.len() - self.pos,
        {
            let ghost p_here = self.pos as int;
            let ghost acc = entries_view(attributes@);
            if !self.match_token(&TokenType::At) {
                return Ok(attributes);
            }
            let attr = match self.parse_attribute() {
                Ok(a) => a,
                Err(e) => {
                    return Err(e);
                },
            };
            let ghost nm = attr.name@;
            let ghost ps = arr_view(attr.parameters@);
            proof {
                assert(spec_attrs_at(self.tokens@, p_here, env_view(self.env@), acc)
                    == spec_attrs_at(
                    self.tokens@,
                    self.pos as int,
                    env_view(self.env@),
                    obj_set(acc, nm, SpecValue::Arr(ps)),
                ));
            }
            omap_set(&mut attributes, attr.name, Value::Arr(attr.parameters));
        }
    }

    /// Parse one attribute after its `@`: a dotted identifier chain, joined
    /// with `.`, optionally followed by parenthesized, separator-free
    /// parameter values; without a `(` the parameter sequence is empty.
    #[verifier::loop_isolation(false)]
    pub fn parse_attribute(&mut self) -> (r: Result<Attribute, SchemaError>)
        requires
            old(self).wf(),
        ensures
            final(self).wf(),
            final(self).tokens == old(self).tokens,
            final(self).env == old(self).env,
            old(self).pos <= final(self).pos,
            !(old(self).cur() is Identifier) ==> r is Err,
            r is Ok ==> old(self).pos < final(self).pos,
            r matches Err(e) ==> is_parse_error(e),
            match r {
                Ok(a) => spec_attribute_at(
                    old(self).tokens@,
                    old(self).pos as int,
                    env_view(old(self).env@),
                ) == Ok::<((Seq<char>, Seq<SpecValue>), int), ()>(
                    ((a.name@, arr_view(a.parameters@)), final(self).pos as int),
                ),
                Err(_) => spec_attribute_at(
                    old(self).tokens@,
                    old(self).pos as int,
                    env_view(old(self).env@),
                ) is Err,
            },
    {
        let ghost p0 = old(self).pos as int;
        let ghost first = match old(self).cur() {
            TokenType::Identifier(part) => part@,
            _ => Seq::empty(),
        };
        let mut name = match &self.tokens[self.pos].token_type {
            TokenType::Identifier(part) => {
                let part2 = part.clone();
                self.advance();
                part2
            },
            _ => {
                return Err(
                    SchemaError::UnexpectedToken {
                        expected: String::from_str("attribute name"),
                        found: kind_name(&self.tokens[self.pos].token_type),
                        offset: self.tokens[self.pos].start,
                    },
                );
            },
        };
        while self.match_token(&TokenType::Dot)
            invariant
                self.wf(),
                self.tokens == old(self).tokens,
                self.env == old(self).env,
                p0 < self.pos,
                spec_attr_name_at(self.tokens@, p0 + 1, first) == spec_attr_name_at(
                    self.tokens@,
                    self.pos as int,
                    name@,
                ),
            decreases self.tokens@.len() - self.pos,
        {
            let ghost h = self.pos as int - 1;
            let ghost before = name@;
            match &self.tokens[self.pos].token_type {
                TokenType::Identifier(part) => {
                    let part2 = part.clone();
                    self.advance();
                    name.push('.');
                    name.append(part2.as_str());
                    proof {
                        assert(name@ =~= before + seq!['.'] + part2@);
                        assert(spec_attr_name_at(self.tokens@, h, before) == spec_attr_name_at(
                            self.tokens@,
                            self.pos as int,
                            name@,
                        ));
                    }
                },
                _ => {
                    return Err(
                        SchemaError::UnexpectedToken {
                            expected: String::from_str("attribute name part after dot"),
                            found: kind_name(&self.tokens[self.pos].token_type),
                            offset: self.tokens[self.pos].start,
                        },
                    );
                },
            }
        }
        let ghost qn = self.pos as int;
        proof {
            assert(spec_attr_name_at(self.tokens@, p0 + 1, first) == Ok::<(Seq<char>, int), ()>(
                (name@, qn),
            ));
        }
        let mut parameters: Vec<Value> = Vec::new();
        proof {
            assert(arr_view(parameters@) =~= Seq::<SpecValue>::empty());
        }
        if self.match_token(&TokenType::LeftParen) {
            loop
                invariant
                    self.wf(),
                    self.tokens == old(self).tokens,
                    self.env == old(self).env,
                    qn < self.pos,
                    self.tokens@[qn].token_type is LeftParen,
                    spec_attr_name_at(self.tokens@, p0 + 1, first) == Ok::<(Seq<char>, int), ()>(
                        (name@, qn),
                    ),
                    0 <= p0 < self.tokens@.len(),
                    self.tokens@[p0].token_type is Identifier,
                    first == self.tokens@[p0].token_type->Identifier_0@,
                    spec_params_at(
                        self.tokens@,
                        qn + 1,
                        env_view(self.env@),
                        Seq::empty(),
                    ) == spec_params_at(
                        self.tokens@,
                        self.pos as int,
                        env_view(self.env@),
                        arr_view(parameters@),
                    ),
                decreases self.tokens@.len() - self.pos,
            {
                let ghost p_here = self.pos as int;
                let ghost acc = arr_view(parameters@);
                if self.match_token(&TokenType::RightParen) {
                    return Ok(Attribute { name, parameters });
                }
                if self.is_at_end() {
                    return Err(
                        SchemaError::UnexpectedEnd { offset: self.tokens[self.pos].start },
                    );
                }
                let param = match self.parse_value() {
                    Ok(v) => v,
                    Err(e) => {
                        return Err(e);
                    },
                };
                proof {
                    assert(spec_params_at(self.tokens@, p_here, env_view(self.env@), acc)
                        == spec_params_at(
                        self.tokens@,
                        self.pos as int,
                        env_view(self.env@),
                        acc.push(param.view()),
                    ));
                }
                parameters.push(param);
                proof {
                    assert(arr_view(parameters@) =~= acc.push(param.view()));
                }
            }
        }
        Ok(Attribute { name, parameters })
    }


    /// Parse a type or model body: `{` then columns to the matching `}`.
    /// Each column is a name, a type with optional modifiers, then
    /// attributes. A repeated column name keeps its position and takes the
    /// later definition.
    pub fn parse_columns(&mut self) -> (r: Result<Vec<(String, ColumnDefinition)>, SchemaError>)
        requires
            old(self).wf(),
        ensures
            final(self).wf(),
            final(self).tokens == old(self).tokens,
            final(self).env == old(self).env,
            old(self).pos <= final(self).pos,
            !(old(self).cur() is LeftBrace) ==> r is Err,
            r is Ok ==> old(self).cur() is LeftBrace && old(self).pos < final(self).pos,
            r matches Err(e) ==> is_parse_error(e),
            match r {
                Ok(m) => spec_columns_at(
                    old(self).tokens@,
                    old(self).pos as int,
                    env_view(old(self).env@),
                ) == Ok::<(Seq<(Seq<char>, SpecColumn)>, int), ()>(
                    (cols_view(m@), final(self).pos as int),
                ),
                Err(_) => spec_columns_at(
                    old(self).tokens@,
                    old(self).pos as int,
                    env_view(old(self).env@),
                ) is Err,
            },
    {
        match self.expect_token(&TokenType::LeftBrace, "{") {
            Ok(()) => {},
            Err(e) => {
                return Err(e);
            },
        }
        let mut columns: Vec<(String, ColumnDefinition)> = Vec::new();
        proof {
            assert(cols_view(columns@) =~= Seq::<(Seq<char>, SpecColumn)>::empty());
        }
        loop
            invariant
                self.wf(),
                self.tokens == old(self).tokens,
                self.env == old(self).env,
                old(self).pos < self.pos,
                old(self).cur() is LeftBrace,
                spec_columns_at(old(self).tokens@, old(self).pos as int, env_view(old(self).env@))
                    == spec_columns_body_at(
                    self.tokens@,
                    self.pos as int,
                    env_view(self.env@),
                    cols_view(columns@),
                ),
            decreases self.tokens@.len() - self.pos,
        {
            let ghost p_here = self.pos as int;
            let ghost acc = cols_view(columns@);
            if self.match_token(&TokenType::RightBrace) {
                return Ok(columns);
            }
            if self.is_at_end() {
                return Err(SchemaError::UnexpectedEnd { offset: self.tokens[self.pos].start });
            }
            let column_name = match &self.tokens[self.pos].token_type {
                TokenType::Identifier(name) => {
                    let name2 = name.clone();
                    self.advance();
                    name2
                },
                _ => {
                    return Err(
                        SchemaError::UnexpectedToken {
                            expected: String::from_str("column name"),
                            found: kind_name(&self.tokens[self.pos].token_type),
                            offset: self.tokens[self.pos].start,
                        },
                    );
                },
            };
            let (column_type, required, multiple) = match self.parse_column_type() {
                Ok(t) => t,
                Err(e) => {
                    return Err(e);
                },
            };
            let attributes = match self.parse_attributes() {
                Ok(a) => a,
                Err(e) => {
                    return Err(e);
                },
            };
            let column_def = ColumnDefinition { column_type, required, multiple, attributes };
            proof {
                assert(spec_columns_body_at(self.tokens@, p_here, env_view(self.env@), acc)
                    == spec_columns_body_at(
                    self.tokens@,
                    self.pos as int,
                    env_view(self.env@),
                    obj_set(acc, column_name@, column_def.view()),
                ));
            }
            omap_set_col(&mut columns, column_name, column_def);
        }
    }

    /// Parse a column's type: the base name, then the modifiers. `[]` makes
    /// the column multiple and must come before a `?`; a `?` makes it not
    /// required. A `?` standing before `[]` ends the modifiers, so the `[`
    /// is left behind and rejected where the next column name is expected.
    pub fn parse_column_type(&mut self) -> (r: Result<(String, bool, bool), SchemaError>)
        requires
            old(self).wf(),
        ensures
            final(self).wf(),
            final(self).tokens == old(self).tokens,
            final(self).env == old(self).env,
            old(self).pos <= final(self).pos,
            match r {
                Ok(t) => {
                    let toks = old(self).tokens@;
                    let p = old(self).pos as int;
                    &&& toks[p].token_type is Identifier
                    &&& t.0@ == toks[p].token_type->Identifier_0@
                    &&& modifiers_spec(toks, p + 1) matches Some((e, req, mult)) && t.1 == req
                        && t.2 == mult && final(self).pos == e
                    &&& spec_column_type_at(toks, p) == Ok::<((Seq<char>, bool, bool), int), ()>(
                        ((t.0@, t.1, t.2), final(self).pos as int),
                    )
                },
                Err(e) => (!(old(self).cur() is Identifier) || modifiers_spec(
                    old(self).tokens@,
                    old(self).pos + 1,
                ) is None) && e is UnexpectedToken && spec_column_type_at(
                    old(self).tokens@,
                    old(self).pos as int,
                ) is Err,
            },
    {
        let base_type = match &self.tokens[self.pos].token_type {
            TokenType::Identifier(base) => {
                let base2 = base.clone();
                self.advance();
                base2
            },
            _ => {
                return Err(
                    SchemaError::UnexpectedToken {
                        expected: String::from_str("type name"),
                        found: kind_name(&self.tokens[self.pos].token_type),
                        offset: self.tokens[self.pos].start,
                    },
                );
            },
        };
        let mut multiple = false;
        if self.match_token(&TokenType::LeftBracket) {
            match self.expect_token(&TokenType::RightBracket, "]") {
                Ok(()) => {},
                Err(e) => {
                    return Err(e);
                },
            }
            multiple = true;
        }
        let required = !self.match_token(&TokenType::Question);
        Ok((base_type, required, multiple))
    }

    /// Parse an object literal: `{ key value ... }`, no colons or commas.
    /// Keys are identifiers, or declaration keywords reinterpreted as their
    /// lowercase text. A repeated key keeps its position and takes the later
    /// value.
    pub fn parse_object(&mut self) -> (r: Result<Vec<(String, Value)>, SchemaError>)
        requires
            old(self).wf(),
        ensures
            final(self).wf(),
            final(self).tokens == old(self).tokens,
            final(self).env == old(self).env,
            old(self).pos <= final(self).pos,
            !(old(self).cur() is LeftBrace) ==> r is Err,
            r is Ok ==> old(self).cur() is LeftBrace && old(self).pos < final(self).pos,
            r matches Err(e) ==> is_parse_error(e),
            match r {
                Ok(m) => spec_object_at(
                    old(self).tokens@,
                    old(self).pos as int,
                    env_view(old(self).env@),
                ) == Ok::<(Seq<(Seq<char>, SpecValue)>, int), ()>(
                    (entries_view(m@), final(self).pos as int),
                ),
                Err(_) => spec_object_at(
                    old(self).tokens@,
                    old(self).pos as int,
                    env_view(old(self).env@),
                ) is Err,
            },
        decreases old(self).tokens@.len() - old(self).pos, 0int,
    {
        match self.expect_token(&TokenType::LeftBrace, "{") {
            Ok(()) => {},
            Err(e) => {
                return Err(e);
            },
        }
        let mut object: Vec<(String, Value)> = Vec::new();
        proof {
            assert(entries_view(object@) =~= Seq::<(Seq<char>, SpecValue)>::empty());
        }
        loop
            invariant
                self.wf(),
                self.tokens == old(self).tokens,
                self.env == old(self).env,
                old(self).pos < self.pos,
                old(self).cur() is LeftBrace,
                spec_object_at(old(self).tokens@, old(self).pos as int, env_view(old(self).env@))
                    == spec_entries_at(
                    self.tokens@,
                    self.pos as int,
                    env_view(self.env@),
                    entries_view(object@),
                ),
            decreases self.tokens@.len() - self.pos,
        {
            let ghost p_here = self.pos as int;
            let ghost acc = entries_view(object@);
            if self.match_token(&TokenType::RightBrace) {
                return Ok(object);
            }
            if self.is_at_end() {
                return Err(SchemaError::UnexpectedEnd { offset: self.tokens[self.pos].start });
            }
            let key = match &self.tokens[self.pos].token_type {
                TokenType::Identifier(key) => {
                    let key2 = key.clone();
                    self.advance();
                    key2
                },
                TokenType::Plugin => {
                    self.advance();
                    String::from_str("plugin")
                },
                TokenType::Use => {
                    self.advance();
                    String::from_str("use")
                },
                TokenType::Prop => {
                    self.advance();
                    String::from_str("prop")
                },
                TokenType::Enum => {
                    self.advance();
                    String::from_str("enum")
                },
                TokenType::Type => {
                    self.advance();
                    String::from_str("type")
                },
                TokenType::Model => {
                    self.advance();
                    String::from_str("model")
                },
                _ => {
                    return Err(
                        SchemaError::UnexpectedToken {
                            expected: String::from_str("object key"),
                            found: kind_name(&self.tokens[self.pos].token_type),
                            offset: self.tokens[self.pos].start,
                        },
                    );
                },
            };
            let ghost keyv = key@;
            let value = match self.parse_value() {
                Ok(v) => v,
                Err(e) => {
                    return Err(e);
                },
            };
            proof {
                assert(spec_key_at(self.tokens@[p_here].token_type) == Some(keyv));
                assert(spec_entries_at(self.tokens@, p_here, env_view(self.env@), acc)
                    == spec_entries_at(
                    self.tokens@,
                    self.pos as int,
                    env_view(self.env@),
                    obj_set(acc, keyv, value.view()),
                ));
            }
            omap_set(&mut object, key, value);
        }
    }

    /// Parse an array literal: `[ value ... ]`, no commas.
    pub fn parse_array(&mut self) -> (r: Result<Vec<Value>, SchemaError>)
        requires
            old(self).wf(),
        ensures
            final(self).wf(),
            final(self).tokens == old(self).tokens,
            final(self).env == old(self).env,
            old(self).pos <= final(self).pos,
            !(old(self).cur() is LeftBracket) ==> r is Err,
            r is Ok ==> old(self).cur() is LeftBracket && old(self).pos < final(self).pos,
            r matches Err(e) ==> is_parse_error(e),
            match r {
                Ok(m) => spec_array_at(
                    old(self).tokens@,
                    old(self).pos as int,
                    env_view(old(self).env@),
                ) == Ok::<(Seq<SpecValue>, int), ()>((arr_view(m@), final(self).pos as int)),
                Err(_) => spec_array_at(
                    old(self).tokens@,
                    old(self).pos as int,
                    env_view(old(self).env@),
                ) is Err,
            },
        decreases old(self).tokens@.len() - old(self).pos, 0int,
    {
        match self.expect_token(&TokenType::LeftBracket, "[") {
            Ok(()) => {},
            Err(e) => {
                return Err(e);
            },
        }
        let mut array: Vec<Value> = Vec::new();
        proof {
            assert(arr_view(array@) =~= Seq::<SpecValue>::empty());
        }
        loop
            invariant
                self.wf(),
                self.tokens == old(self).tokens,
                self.env == old(self).env,
                old(self).pos < self.pos,
                old(self).cur() is LeftBracket,
                spec_array_at(old(self).tokens@, old(self).pos as int, env_view(old(self).env@))
                    == spec_items_at(
                    self.tokens@,
                    self.pos as int,
                    env_view(self.env@),
                    arr_view(array@),
                ),
            decreases self.tokens@.len() - self.pos,
        {
            let ghost p_here = self.pos as int;
            let ghost acc = arr_view(array@);
            if self.match_token(&TokenType::RightBracket) {
                return Ok(array);
            }
            if self.is_at_end() {
                return Err(SchemaError::UnexpectedEnd { offset: self.tokens[self.pos].start });
            }
            let value = match self.parse_value() {
                Ok(v) => v,
                Err(e) => {
                    return Err(e);
                },
            };
            proof {
                assert(spec_items_at(self.tokens@, p_here, env_view(self.env@), acc)
                    == spec_items_at(
                    self.tokens@,
                    self.pos as int,
                    env_view(self.env@),
                    acc.push(value.view()),
                ));
            }
            array.push(value);
            proof {
                assert(arr_view(array@) =~= acc.push(value.view()));
            }
        }
    }

    /// Parse one value. Literals pass through unchanged; `{`/`[` recurse
    /// into objects and arrays; the bare identifier `env` directly followed
    /// by `(` begins an environment lookup `env(NAME)`, resolved at parse
    /// time to the named variable's value or the empty string when it is
    /// unset; any other bare identifier — `env` without a `(` included —
    /// becomes the reference sentinel `${Name}`.
    pub fn parse_value(&mut self) -> (r: Result<Value, SchemaError>)
        requires
            old(self).wf(),
        ensures
            final(self).wf(),
            final(self).tokens == old(self).tokens,
            final(self).env == old(self).env,
            old(self).pos <= final(self).pos,
            match r {
                Ok(v) => {
                    let toks = old(self).tokens@;
                    let p = old(self).pos as int;
                    &&& old(self).pos < final(self).pos
                    &&& match old(self).cur() {
                        TokenType::Text(s) => v.view() == SpecValue::Str(s@) && final(self).pos == p
                            + 1,
                        TokenType::Number(n) => v.view() == SpecValue::Num(n@) && final(self).pos
                            == p + 1,
                        TokenType::Boolean(b) => v.view() == SpecValue::Bool(b) && final(self).pos
                            == p + 1,
                        TokenType::Null => v.view() == SpecValue::Null && final(self).pos == p + 1,
                        TokenType::LeftBrace => v is Obj,
                        TokenType::LeftBracket => v is Arr,
                        TokenType::Identifier(name) => if name@ == "env"@ && toks[p
                            + 1].token_type is LeftParen {
                            &&& toks[p + 2].token_type is Identifier
                            &&& toks[p + 3].token_type is RightParen
                            &&& v.view() == SpecValue::Str(
                                env_get(
                                    env_view(old(self).env@),
                                    toks[p + 2].token_type->Identifier_0@,
                                ),
                            )
                            &&& final(self).pos == p + 4
                        } else {
                            v.view() == SpecValue::Str(sentinel_of(name@)) && final(self).pos == p
                                + 1
                        },
                        _ => false,
                    }
                },
                Err(e) => is_parse_error(e),
            },
            ({
                // Success is owed on every value form that needs no
                // recursion: only objects, arrays and a malformed `env(`
                // call can fail here.
                let toks = old(self).tokens@;
                let p = old(self).pos as int;
                match old(self).cur() {
                    TokenType::Text(_) => r is Ok,
                    TokenType::Number(_) => r is Ok,
                    TokenType::Boolean(_) => r is Ok,
                    TokenType::Null => r is Ok,
                    TokenType::Identifier(name) => if name@ == "env"@ && toks[p
                        + 1].token_type is LeftParen {
                        r is Ok <==> (toks[p + 2].token_type is Identifier && toks[p
                            + 3].token_type is RightParen)
                    } else {
                        r is Ok
                    },
                    TokenType::LeftBrace => true,
                    TokenType::LeftBracket => true,
                    _ => r is Err,
                }
            }),
            match r {
                Ok(v) => spec_value_at(
                    old(self).tokens@,
                    old(self).pos as int,
                    env_view(old(self).env@),
                ) == Ok::<(SpecValue, int), ()>((v.view(), final(self).pos as int)),
                Err(_) => spec_value_at(
                    old(self).tokens@,
                    old(self).pos as int,
                    env_view(old(self).env@),
                ) is Err,
            },
        decreases old(self).tokens@.len() - old(self).pos, 1int,
    {
        match &self.tokens[self.pos].token_type {
            TokenType::Text(s) => {
                let v = Value::Str(s.clone());
                self.advance();
                Ok(v)
            },
            TokenType::Number(n) => {
                let v = Value::Num(n.clone());
                self.advance();
                Ok(v)
            },
            TokenType::Boolean(b) => {
                let v = Value::Bool(*b);
                self.advance();
                Ok(v)
            },
            TokenType::Null => {
                self.advance();
                Ok(Value::Null)
            },
            TokenType::LeftBrace => {
                match self.parse_object() {
                    Ok(obj) => Ok(Value::Obj(obj)),
                    Err(e) => Err(e),
                }
            },
            TokenType::LeftBracket => {
                match self.parse_array() {
                    Ok(arr) => Ok(Value::Arr(arr)),
                    Err(e) => Err(e),
                }
            },
            TokenType::Identifier(name) => {
                let name2 = name.clone();
                let n = self.tokens.len();
                proof {
                    // The current token is an identifier, so it is not the
                    // final token, which is the only `Eof`.
                    assert(self.pos < n - 1);
                }
                let is_env_call = name2 == String::from_str("env") && matches!(
                    self.tokens[self.pos + 1].token_type,
                    TokenType::LeftParen,
                );
                if is_env_call {
                    // The `env` identifier directly before `(` begins an
                    // environment lookup.
                    self.advance();
                    match self.expect_token(&TokenType::LeftParen, "( after env") {
                        Ok(()) => {},
                        Err(e) => {
                            return Err(e);
                        },
                    }
                    let env_var_name = match &self.tokens[self.pos].token_type {
                        TokenType::Identifier(var_name) => {
                            let var_name2 = var_name.clone();
                            self.advance();
                            var_name2
                        },
                        _ => {
                            return Err(
                                SchemaError::UnexpectedToken {
                                    expected: String::from_str("environment variable name"),
                                    found: kind_name(&self.tokens[self.pos].token_type),
                                    offset: self.tokens[self.pos].start,
                                },
                            );
                        },
                    };
                    match self.expect_token(&TokenType::RightParen, ") after environment variable name") {
                        Ok(()) => {},
                        Err(e) => {
                            return Err(e);
                        },
                    }
                    let env_value = env_lookup(&self.env, &env_var_name);
                    Ok(Value::Str(env_value))
                } else {
                    // Any other bare identifier denotes a reference.
                    let v = Value::Str(make_sentinel(&name2));
                    self.advance();
                    Ok(v)
                }
            },
            _ => {
                Err(
                    SchemaError::UnexpectedToken {
                        expected: String::from_str("a value"),
                        found: kind_name(&self.tokens[self.pos].token_type),
                        offset: self.tokens[self.pos].start,
                    },
                )
            },
        }
    }
}

} // verus!
