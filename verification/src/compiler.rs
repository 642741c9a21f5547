//! Lowering the abstract syntax tree into the output record, in one of two
//! modes: *preserve* keeps `${Name}` references and the `prop` and `use`
//! sections; *finalize* resolves every reference against the declared names
//! and drops those sections.
//!
//! Reference resolution follows source order: props are gathered first, and
//! every other declaration becomes a reference target only once it has been
//! compiled, so a reference can only reach props and declarations standing
//! earlier in the file.

use vstd::prelude::*;
use vstd::string::{StrSliceExecFns, StringExecFns};
use crate::error::SchemaError;
use crate::parser::{body_view, cols_view, AstNode, SpecColumn, SpecDecl};
use crate::value::{
    arr_view, entries_view, obj_contains, obj_get, obj_set, omap_get, omap_set, SpecValue, Value,
};

verus! {

/// The name inside a reference sentinel: `${Name}` yields `Name`, any other
/// string yields nothing.
pub open spec fn ref_name(s: Seq<char>) -> Option<Seq<char>> {
    if s.len() >= 3 && s[0] == '$' && s[1] == '{' && s[s.len() - 1] == '}' {
        Some(s.subrange(2, s.len() - 1))
    } else {
        None
    }
}

/// A reference table: declaration names and their compiled values, in the
/// order the names were recorded.
pub type RefTable = Seq<(Seq<char>, SpecValue)>;

/// Resolve one value. In finalize mode a string of the exact form `${Name}`
/// is replaced wholesale by the value recorded under `Name` — first the
/// global table, then the prop table — and an unrecorded name is the error;
/// everything else is copied, arrays and objects element by element.
pub open spec fn spec_resolve(v: SpecValue, finalize: bool, all: RefTable, props: RefTable) -> Result<
    SpecValue,
    Seq<char>,
>
    decreases v,
{
    match v {
        SpecValue::Str(s) => {
            if finalize && ref_name(s) is Some {
                let name = ref_name(s)->0;
                if obj_contains(all, name) {
                    Ok(obj_get(all, name))
                } else if obj_contains(props, name) {
                    Ok(obj_get(props, name))
                } else {
                    Err(name)
                }
            } else {
                Ok(SpecValue::Str(s))
            }
        },
        SpecValue::Arr(a) => match spec_resolve_arr(a, finalize, all, props) {
            Ok(r) => Ok(SpecValue::Arr(r)),
            Err(e) => Err(e),
        },
        SpecValue::Obj(o) => match spec_resolve_obj(o, finalize, all, props) {
            Ok(r) => Ok(SpecValue::Obj(r)),
            Err(e) => Err(e),
        },
        _ => Ok(v),
    }
}

/// Resolve the elements of an array, left to right, stopping at the first
/// error.
pub open spec fn spec_resolve_arr(a: Seq<SpecValue>, finalize: bool, all: RefTable, props: RefTable) -> Result<
    Seq<SpecValue>,
    Seq<char>,
>
    decreases a,
{
    if a.len() == 0 {
        Ok(Seq::empty())
    } else {
        match spec_resolve(a[0], finalize, all, props) {
            Err(e) => Err(e),
            Ok(h) => match spec_resolve_arr(a.drop_first(), finalize, all, props) {
                Err(e) => Err(e),
                Ok(t) => Ok(seq![h] + t),
            },
        }
    }
}

/// Resolve the values of an object's entries, in entry order, stopping at
/// the first error; keys pass through unchanged.
pub open spec fn spec_resolve_obj(
    o: Seq<(Seq<char>, SpecValue)>,
    finalize: bool,
    all: RefTable,
    props: RefTable,
) -> Result<Seq<(Seq<char>, SpecValue)>, Seq<char>>
    decreases o,
{
    if o.len() == 0 {
        Ok(Seq::empty())
    } else {
        match spec_resolve(o[0].1, finalize, all, props) {
            Err(e) => Err(e),
            Ok(h) => match spec_resolve_obj(o.drop_first(), finalize, all, props) {
                Err(e) => Err(e),
                Ok(t) => Ok(seq![(o[0].0, h)] + t),
            },
        }
    }
}

/// Array resolution splits at any index: the whole succeeds exactly when the
/// prefix and the rest succeed, the first error wins.
pub proof fn lemma_resolve_arr_split(
    a: Seq<SpecValue>,
    i: int,
    finalize: bool,
    all: RefTable,
    props: RefTable,
)
    requires
        0 <= i <= a.len(),
    ensures
        spec_resolve_arr(a, finalize, all, props) == match spec_resolve_arr(
            a.take(i),
            finalize,
            all,
            props,
        ) {
            Err(e) => Err(e),
            Ok(rb) => match spec_resolve_arr(a.skip(i), finalize, all, props) {
                Err(e) => Err(e),
                Ok(rt) => Ok(rb + rt),
            },
        },
    decreases i,
{
    if i == 0 {
        assert(a.take(0) =~= Seq::<SpecValue>::empty());
        assert(a.skip(0) =~= a);
        if spec_resolve_arr(a, finalize, all, props) is Ok {
            assert(Seq::<SpecValue>::empty() + spec_resolve_arr(a, finalize, all, props)->Ok_0
                =~= spec_resolve_arr(a, finalize, all, props)->Ok_0);
        }
    } else {
        assert(a.len() > 0);
        lemma_resolve_arr_split(a.drop_first(), i - 1, finalize, all, props);
        assert(a.take(i).drop_first() =~= a.drop_first().take(i - 1));
        assert(a.skip(i) =~= a.drop_first().skip(i - 1));
        assert(a.take(i)[0] == a[0]);
        assert(a.take(i).len() > 0);
        match spec_resolve(a[0], finalize, all, props) {
            Err(e) => {},
            Ok(h) => {
                match spec_resolve_arr(a.drop_first().take(i - 1), finalize, all, props) {
                    Err(e) => {},
                    Ok(rb) => {
                        match spec_resolve_arr(a.drop_first().skip(i - 1), finalize, all, props) {
                            Err(e) => {},
                            Ok(rt) => {
                                assert((seq![h] + rb) + rt =~= seq![h] + (rb + rt));
                            },
                        }
                    },
                }
            },
        }
    }
}

/// Object resolution splits at any index, like array resolution.
pub proof fn lemma_resolve_obj_split(
    o: Seq<(Seq<char>, SpecValue)>,
    i: int,
    finalize: bool,
    all: RefTable,
    props: RefTable,
)
    requires
        0 <= i <= o.len(),
    ensures
        spec_resolve_obj(o, finalize, all, props) == match spec_resolve_obj(
            o.take(i),
            finalize,
            all,
            props,
        ) {
            Err(e) => Err(e),
            Ok(rb) => match spec_resolve_obj(o.skip(i), finalize, all, props) {
                Err(e) => Err(e),
                Ok(rt) => Ok(rb + rt),
            },
        },
    decreases i,
{
    if i == 0 {
        assert(o.take(0) =~= Seq::<(Seq<char>, SpecValue)>::empty());
        assert(o.skip(0) =~= o);
        if spec_resolve_obj(o, finalize, all, props) is Ok {
            assert(Seq::<(Seq<char>, SpecValue)>::empty() + spec_resolve_obj(
                o,
                finalize,
                all,
                props,
            )->Ok_0 =~= spec_resolve_obj(o, finalize, all, props)->Ok_0);
        }
    } else {
        assert(o.len() > 0);
        lemma_resolve_obj_split(o.drop_first(), i - 1, finalize, all, props);
        assert(o.take(i).drop_first() =~= o.drop_first().take(i - 1));
        assert(o.skip(i) =~= o.drop_first().skip(i - 1));
        assert(o.take(i)[0] == o[0]);
        assert(o.take(i).len() > 0);
        match spec_resolve(o[0].1, finalize, all, props) {
            Err(e) => {},
            Ok(h) => {
                match spec_resolve_obj(o.drop_first().take(i - 1), finalize, all, props) {
                    Err(e) => {},
                    Ok(rb) => {
                        match spec_resolve_obj(o.drop_first().skip(i - 1), finalize, all, props) {
                            Err(e) => {},
                            Ok(rt) => {
                                assert((seq![(o[0].0, h)] + rb) + rt =~= seq![(o[0].0, h)] + (rb
                                    + rt));
                            },
                        }
                    },
                }
            },
        }
    }
}

/// Preserve mode changes nothing: resolving with finalize off returns the
/// value itself, for every value and any tables.
pub proof fn lemma_resolve_preserve(v: SpecValue, all: RefTable, props: RefTable)
    ensures
        spec_resolve(v, false, all, props) == Ok::<SpecValue, Seq<char>>(v),
    decreases v,
{
    match v {
        SpecValue::Arr(a) => {
            lemma_resolve_arr_preserve(a, all, props);
        },
        SpecValue::Obj(o) => {
            lemma_resolve_obj_preserve(o, all, props);
        },
        _ => {},
    }
}

pub proof fn lemma_resolve_arr_preserve(a: Seq<SpecValue>, all: RefTable, props: RefTable)
    ensures
        spec_resolve_arr(a, false, all, props) == Ok::<Seq<SpecValue>, Seq<char>>(a),
    decreases a,
{
    if a.len() > 0 {
        lemma_resolve_preserve(a[0], all, props);
        lemma_resolve_arr_preserve(a.drop_first(), all, props);
        assert(seq![a[0]] + a.drop_first() =~= a);
    } else {
        assert(a =~= Seq::<SpecValue>::empty());
    }
}

pub proof fn lemma_resolve_obj_preserve(
    o: Seq<(Seq<char>, SpecValue)>,
    all: RefTable,
    props: RefTable,
)
    ensures
        spec_resolve_obj(o, false, all, props) == Ok::<Seq<(Seq<char>, SpecValue)>, Seq<char>>(o),
    decreases o,
{
    if o.len() > 0 {
        lemma_resolve_preserve(o[0].1, all, props);
        lemma_resolve_obj_preserve(o.drop_first(), all, props);
        assert(seq![(o[0].0, o[0].1)] + o.drop_first() =~= o);
        assert((o[0].0, o[0].1) == o[0]);
    } else {
        assert(o =~= Seq::<(Seq<char>, SpecValue)>::empty());
    }
}

/// No part of the value is a reference sentinel.
pub open spec fn ref_free(v: SpecValue) -> bool
    decreases v,
{
    match v {
        SpecValue::Str(s) => ref_name(s) is None,
        SpecValue::Arr(a) => forall|i: int|
            0 <= i < a.len() ==> ref_free(#[trigger] a[i]),
        SpecValue::Obj(o) => forall|i: int|
            0 <= i < o.len() ==> ref_free(#[trigger] o[i].1),
        _ => true,
    }
}

/// Resolution is the identity on sentinel-free values, even in finalize
/// mode: scalars, arrays and objects that carry no reference round-trip
/// unchanged, whatever the tables hold.
pub proof fn lemma_resolve_ref_free(v: SpecValue, finalize: bool, all: RefTable, props: RefTable)
    requires
        ref_free(v),
    ensures
        spec_resolve(v, finalize, all, props) == Ok::<SpecValue, Seq<char>>(v),
    decreases v,
{
    match v {
        SpecValue::Arr(a) => {
            lemma_resolve_arr_ref_free(a, finalize, all, props);
        },
        SpecValue::Obj(o) => {
            lemma_resolve_obj_ref_free(o, finalize, all, props);
        },
        _ => {},
    }
}

pub proof fn lemma_resolve_arr_ref_free(
    a: Seq<SpecValue>,
    finalize: bool,
    all: RefTable,
    props: RefTable,
)
    requires
        forall|i: int| 0 <= i < a.len() ==> ref_free(#[trigger] a[i]),
    ensures
        spec_resolve_arr(a, finalize, all, props) == Ok::<Seq<SpecValue>, Seq<char>>(a),
    decreases a,
{
    if a.len() > 0 {
        lemma_resolve_ref_free(a[0], finalize, all, props);
        assert(forall|i: int|
            0 <= i < a.drop_first().len() ==> ref_free(#[trigger] a.drop_first()[i]));
        lemma_resolve_arr_ref_free(a.drop_first(), finalize, all, props);
        assert(seq![a[0]] + a.drop_first() =~= a);
    } else {
        assert(a =~= Seq::<SpecValue>::empty());
    }
}

pub proof fn lemma_resolve_obj_ref_free(
    o: Seq<(Seq<char>, SpecValue)>,
    finalize: bool,
    all: RefTable,
    props: RefTable,
)
    requires
        forall|i: int| 0 <= i < o.len() ==> ref_free(#[trigger] o[i].1),
    ensures
        spec_resolve_obj(o, finalize, all, props) == Ok::<Seq<(Seq<char>, SpecValue)>, Seq<char>>(
            o,
        ),
    decreases o,
{
    if o.len() > 0 {
        lemma_resolve_ref_free(o[0].1, finalize, all, props);
        assert(forall|i: int|
            0 <= i < o.drop_first().len() ==> ref_free(#[trigger] o.drop_first()[i].1));
        lemma_resolve_obj_ref_free(o.drop_first(), finalize, all, props);
        assert(seq![(o[0].0, o[0].1)] + o.drop_first() =~= o);
        assert((o[0].0, o[0].1) == o[0]);
    } else {
        assert(o =~= Seq::<(Seq<char>, SpecValue)>::empty());
    }
}

/// One compiled column record: `type`, `name`, `required`, `multiple`, and
/// `attributes` when the column has any; attribute values are resolved with
/// the requested mode.
pub open spec fn spec_compile_column(
    name: Seq<char>,
    c: SpecColumn,
    finalize: bool,
    all: RefTable,
    props: RefTable,
) -> Result<SpecValue, Seq<char>> {
    match spec_resolve_obj(c.attributes, finalize, all, props) {
        Err(e) => Err(e),
        Ok(rattrs) => {
            let base = seq![
                ("type"@, SpecValue::Str(c.column_type)),
                ("name"@, SpecValue::Str(name)),
                ("required"@, SpecValue::Bool(c.required)),
                ("multiple"@, SpecValue::Bool(c.multiple)),
            ];
            if c.attributes.len() == 0 {
                Ok(SpecValue::Obj(base))
            } else {
                Ok(SpecValue::Obj(base.push(("attributes"@, SpecValue::Obj(rattrs)))))
            }
        },
    }
}

/// The compiled column sequence, in column order, stopping at the first
/// error.
pub open spec fn spec_compile_cols(
    cols: Seq<(Seq<char>, SpecColumn)>,
    finalize: bool,
    all: RefTable,
    props: RefTable,
) -> Result<Seq<SpecValue>, Seq<char>>
    decreases cols.len(),
{
    if cols.len() == 0 {
        Ok(Seq::empty())
    } else {
        match spec_compile_column(cols[0].0, cols[0].1, finalize, all, props) {
            Err(e) => Err(e),
            Ok(h) => match spec_compile_cols(cols.drop_first(), finalize, all, props) {
                Err(e) => Err(e),
                Ok(t) => Ok(seq![h] + t),
            },
        }
    }
}

/// Column compilation splits at any index, the first error winning.
pub proof fn lemma_compile_cols_split(
    cols: Seq<(Seq<char>, SpecColumn)>,
    i: int,
    finalize: bool,
    all: RefTable,
    props: RefTable,
)
    requires
        0 <= i <= cols.len(),
    ensures
        spec_compile_cols(cols, finalize, all, props) == match spec_compile_cols(
            cols.take(i),
            finalize,
            all,
            props,
        ) {
            Err(e) => Err(e),
            Ok(rb) => match spec_compile_cols(cols.skip(i), finalize, all, props) {
                Err(e) => Err(e),
                Ok(rt) => Ok(rb + rt),
            },
        },
    decreases i,
{
    if i == 0 {
        assert(cols.take(0) =~= Seq::<(Seq<char>, SpecColumn)>::empty());
        assert(cols.skip(0) =~= cols);
        if spec_compile_cols(cols, finalize, all, props) is Ok {
            assert(Seq::<SpecValue>::empty() + spec_compile_cols(cols, finalize, all, props)->Ok_0
                =~= spec_compile_cols(cols, finalize, all, props)->Ok_0);
        }
    } else {
        assert(cols.len() > 0);
        lemma_compile_cols_split(cols.drop_first(), i - 1, finalize, all, props);
        assert(cols.take(i).drop_first() =~= cols.drop_first().take(i - 1));
        assert(cols.skip(i) =~= cols.drop_first().skip(i - 1));
        assert(cols.take(i)[0] == cols[0]);
        assert(cols.take(i).len() > 0);
        match spec_compile_column(cols[0].0, cols[0].1, finalize, all, props) {
            Err(e) => {},
            Ok(h) => {
                match spec_compile_cols(cols.drop_first().take(i - 1), finalize, all, props) {
                    Err(e) => {},
                    Ok(rb) => {
                        match spec_compile_cols(cols.drop_first().skip(i - 1), finalize, all, props) {
                            Err(e) => {},
                            Ok(rt) => {
                                assert((seq![h] + rb) + rt =~= seq![h] + (rb + rt));
                            },
                        }
                    },
                }
            },
        }
    }
}

/// One compiled type or model record: `name`, `mutable`, `attributes` when
/// any were declared, and `columns` in column order. Attribute and
/// column-attribute values are resolved with the requested mode.
pub open spec fn spec_compile_record(
    name: Seq<char>,
    mutable: bool,
    attrs: Seq<(Seq<char>, SpecValue)>,
    cols: Seq<(Seq<char>, SpecColumn)>,
    finalize: bool,
    all: RefTable,
    props: RefTable,
) -> Result<SpecValue, Seq<char>> {
    match spec_resolve_obj(attrs, finalize, all, props) {
        Err(e) => Err(e),
        Ok(rattrs) => match spec_compile_cols(cols, finalize, all, props) {
            Err(e) => Err(e),
            Ok(rcols) => {
                let base = seq![("name"@, SpecValue::Str(name)), ("mutable"@, SpecValue::Bool(mutable))];
                let with_attrs = if attrs.len() == 0 {
                    base
                } else {
                    base.push(("attributes"@, SpecValue::Obj(rattrs)))
                };
                Ok(SpecValue::Obj(with_attrs.push(("columns"@, SpecValue::Arr(rcols)))))
            },
        },
    }
}

/// The prop table: every `prop` declaration's configuration, recorded in
/// source order under the prop's name, the later of two same-named props
/// winning. Prop bodies are never reference-resolved against each other.
pub open spec fn spec_prop_pass(decls: Seq<SpecDecl>, acc: RefTable) -> RefTable
    decreases decls.len(),
{
    if decls.len() == 0 {
        acc
    } else {
        let acc2 = match decls[0] {
            SpecDecl::Prop { name, config } => obj_set(acc, name, SpecValue::Obj(config)),
            _ => acc,
        };
        spec_prop_pass(decls.drop_first(), acc2)
    }
}

/// The prop pass splits at any index.
pub proof fn lemma_prop_pass_split(decls: Seq<SpecDecl>, i: int, acc: RefTable)
    requires
        0 <= i <= decls.len(),
    ensures
        spec_prop_pass(decls, acc) == spec_prop_pass(
            decls.skip(i),
            spec_prop_pass(decls.take(i), acc),
        ),
    decreases i,
{
    if i == 0 {
        assert(decls.take(0) =~= Seq::<SpecDecl>::empty());
        assert(decls.skip(0) =~= decls);
    } else {
        assert(decls.len() > 0);
        let acc2 = match decls[0] {
            SpecDecl::Prop { name, config } => obj_set(acc, name, SpecValue::Obj(config)),
            _ => acc,
        };
        lemma_prop_pass_split(decls.drop_first(), i - 1, acc2);
        assert(decls.take(i).drop_first() =~= decls.drop_first().take(i - 1));
        assert(decls.skip(i) =~= decls.drop_first().skip(i - 1));
        assert(decls.take(i)[0] == decls[0]);
        assert(decls.take(i).len() > 0);
    }
}

/// Mathematical model of the output record: each section present only when a
/// declaration of its kind occurred.
pub struct SpecSchema {
    pub plugin: Option<RefTable>,
    pub uses: Option<Seq<Seq<char>>>,
    pub prop: Option<RefTable>,
    pub enums: Option<Seq<(Seq<char>, Seq<(Seq<char>, SpecValue)>)>>,
    pub types: Option<RefTable>,
    pub model: Option<RefTable>,
}

/// The output record before any declaration was compiled: every section
/// absent.
pub open spec fn empty_schema() -> SpecSchema {
    SpecSchema { plugin: None, uses: None, prop: None, enums: None, types: None, model: None }
}

/// Compile one declaration into the record and the global table. Plugin
/// bodies, prop bodies and enum display values are never reference-resolved;
/// type and model records are, with the requested mode. In finalize mode a
/// prop or use declaration adds nothing to the record (both sections are
/// dropped), and each enum, type and model is recorded in the global table
/// as soon as it is compiled.
pub open spec fn spec_step(
    d: SpecDecl,
    finalize: bool,
    props: RefTable,
    sch: SpecSchema,
    all: RefTable,
) -> Result<(SpecSchema, RefTable), Seq<char>> {
    match d {
        SpecDecl::Skip => Ok((sch, all)),
        SpecDecl::Plugin { name, config } => {
            let section = if sch.plugin is Some {
                sch.plugin->0
            } else {
                Seq::empty()
            };
            Ok(
                (
                    SpecSchema {
                        plugin: Some(obj_set(section, name, SpecValue::Obj(config))),
                        ..sch
                    },
                    all,
                ),
            )
        },
        SpecDecl::Use { path } => {
            if !finalize {
                let section = if sch.uses is Some {
                    sch.uses->0
                } else {
                    Seq::empty()
                };
                Ok((SpecSchema { uses: Some(section.push(path)), ..sch }, all))
            } else {
                Ok((sch, all))
            }
        },
        SpecDecl::Prop { name, config } => {
            if !finalize {
                let section = if sch.prop is Some {
                    sch.prop->0
                } else {
                    Seq::empty()
                };
                Ok(
                    (
                        SpecSchema {
                            prop: Some(obj_set(section, name, SpecValue::Obj(config))),
                            ..sch
                        },
                        all,
                    ),
                )
            } else {
                Ok((sch, all))
            }
        },
        SpecDecl::Enum { name, variants } => {
            let section = if sch.enums is Some {
                sch.enums->0
            } else {
                Seq::empty()
            };
            let sch2 = SpecSchema { enums: Some(obj_set(section, name, variants)), ..sch };
            let all2 = if finalize {
                obj_set(all, name, SpecValue::Obj(variants))
            } else {
                all
            };
            Ok((sch2, all2))
        },
        SpecDecl::Type { name, mutable, attributes, columns } => {
            match spec_compile_record(name, mutable, attributes, columns, finalize, all, props) {
                Err(e) => Err(e),
                Ok(rec) => {
                    let section = if sch.types is Some {
                        sch.types->0
                    } else {
                        Seq::empty()
                    };
                    let sch2 = SpecSchema { types: Some(obj_set(section, name, rec)), ..sch };
                    let all2 = if finalize {
                        obj_set(all, name, rec)
                    } else {
                        all
                    };
                    Ok((sch2, all2))
                },
            }
        },
        SpecDecl::Model { name, mutable, attributes, columns } => {
            match spec_compile_record(name, mutable, attributes, columns, finalize, all, props) {
                Err(e) => Err(e),
                Ok(rec) => {
                    let section = if sch.model is Some {
                        sch.model->0
                    } else {
                        Seq::empty()
                    };
                    let sch2 = SpecSchema { model: Some(obj_set(section, name, rec)), ..sch };
                    let all2 = if finalize {
                        obj_set(all, name, rec)
                    } else {
                        all
                    };
                    Ok((sch2, all2))
                },
            }
        },
    }
}

/// Compile a declaration sequence left to right, threading the record and
/// the global table, stopping at the first error.
pub open spec fn spec_run(
    decls: Seq<SpecDecl>,
    finalize: bool,
    props: RefTable,
    sch: SpecSchema,
    all: RefTable,
) -> Result<(SpecSchema, RefTable), Seq<char>>
    decreases decls.len(),
{
    if decls.len() == 0 {
        Ok((sch, all))
    } else {
        match spec_step(decls[0], finalize, props, sch, all) {
            Err(e) => Err(e),
            Ok((sch2, all2)) => spec_run(decls.drop_first(), finalize, props, sch2, all2),
        }
    }
}

/// The run splits at any index, the first error winning.
pub proof fn lemma_run_split(
    decls: Seq<SpecDecl>,
    i: int,
    finalize: bool,
    props: RefTable,
    sch: SpecSchema,
    all: RefTable,
)
    requires
        0 <= i <= decls.len(),
    ensures
        spec_run(decls, finalize, props, sch, all) == match spec_run(
            decls.take(i),
            finalize,
            props,
            sch,
            all,
        ) {
            Err(e) => Err(e),
            Ok((s2, a2)) => spec_run(decls.skip(i), finalize, props, s2, a2),
        },
    decreases i,
{
    if i == 0 {
        assert(decls.take(0) =~= Seq::<SpecDecl>::empty());
        assert(decls.skip(0) =~= decls);
    } else {
        assert(decls.len() > 0);
        match spec_step(decls[0], finalize, props, sch, all) {
            Err(e) => {
                assert(decls.take(i)[0] == decls[0]);
                assert(decls.take(i).len() > 0);
            },
            Ok((sch2, all2)) => {
                lemma_run_split(decls.drop_first(), i - 1, finalize, props, sch2, all2);
                assert(decls.take(i).drop_first() =~= decls.drop_first().take(i - 1));
                assert(decls.skip(i) =~= decls.drop_first().skip(i - 1));
                assert(decls.take(i)[0] == decls[0]);
                assert(decls.take(i).len() > 0);
            },
        }
    }
}

/// What compiling a whole schema yields: in finalize mode the prop table is
/// gathered first and seeds the global table; then every declaration is
/// compiled in source order.
pub open spec fn spec_compile_schema(decls: Seq<SpecDecl>, finalize: bool) -> Result<
    SpecSchema,
    Seq<char>,
> {
    let props = if finalize {
        spec_prop_pass(decls, Seq::empty())
    } else {
        Seq::empty()
    };
    match spec_run(decls, finalize, props, empty_schema(), props) {
        Ok((sch, _)) => Ok(sch),
        Err(e) => Err(e),
    }
}

/// Inserting a key never leaves an ordered map empty.
pub proof fn lemma_obj_set_len<T>(o: Seq<(Seq<char>, T)>, k: Seq<char>, v: T)
    ensures
        obj_set(o, k, v).len() >= 1,
    decreases o.len(),
{
    if o.len() > 0 && o[0].0 != k {
        lemma_obj_set_len(o.drop_first(), k, v);
    }
}

/// The compiler: the two reference tables that finalize mode populates, the
/// prop table before the main pass and the global table during it.
pub struct Compiler {
    /// Prop name to compiled configuration.
    pub prop_references: Vec<(String, Value)>,
    /// Any compiled declaration's name to its compiled value.
    pub all_references: Vec<(String, Value)>,
}

impl Compiler {
    /// The prop table's model.
    pub open spec fn props_view(self) -> RefTable {
        entries_view(self.prop_references@)
    }

    /// The global table's model.
    pub open spec fn all_view(self) -> RefTable {
        entries_view(self.all_references@)
    }

    /// A compiler with both tables empty.
    pub fn new() -> (c: Compiler)
        ensures
            c.props_view() == Seq::<(Seq<char>, SpecValue)>::empty(),
            c.all_view() == Seq::<(Seq<char>, SpecValue)>::empty(),
    {
        let c = Compiler { prop_references: Vec::new(), all_references: Vec::new() };
        proof {
            assert(entries_view(c.prop_references@) =~= Seq::<(Seq<char>, SpecValue)>::empty());
            assert(entries_view(c.all_references@) =~= Seq::<(Seq<char>, SpecValue)>::empty());
        }
        c
    }

    /// Resolve one value against the tables; the result is exactly what
    /// `spec_resolve` names, and the only possible error is an unknown
    /// reference, carrying the name that no table holds.
    #[verifier::loop_isolation(false)]
    pub fn compile_value(&self, value: &Value, finalize: bool) -> (r: Result<Value, SchemaError>)
        ensures
            match r {
                Ok(out) => spec_resolve(value.view(), finalize, self.all_view(), self.props_view())
                    == Ok::<SpecValue, Seq<char>>(out.view()),
                Err(e) => e matches SchemaError::UnknownReference { name } && spec_resolve(
                    value.view(),
                    finalize,
                    self.all_view(),
                    self.props_view(),
                ) == Err::<SpecValue, Seq<char>>(name@),
            },
        decreases value,
    {
        match value {
            Value::Null => Ok(Value::Null),
            Value::Bool(b) => Ok(Value::Bool(*b)),
            Value::Num(s) => Ok(Value::Num(s.clone())),
            Value::Str(s) => {
                if finalize {
                    let n = s.as_str().unicode_len();
                    let is_ref = n >= 3 && s.as_str().get_char(0) == '$' && s.as_str().get_char(1)
                        == '{' && s.as_str().get_char(n - 1) == '}';
                    if is_ref {
                        let name = s.as_str().substring_char(2, n - 1).to_owned();
                        proof {
                            assert(ref_name(s@) == Some(name@));
                        }
                        match omap_get(&self.all_references, &name) {
                            Some(v) => Ok(v.dup()),
                            None => {
                                match omap_get(&self.prop_references, &name) {
                                    Some(v) => Ok(v.dup()),
                                    None => Err(SchemaError::UnknownReference { name }),
                                }
                            },
                        }
                    } else {
                        proof {
                            assert(ref_name(s@) is None);
                        }
                        Ok(Value::Str(s.clone()))
                    }
                } else {
                    Ok(Value::Str(s.clone()))
                }
            },
            Value::Arr(a) => {
                let ghost av = arr_view(a@);
                let mut out: Vec<Value> = Vec::new();
                proof {
                    assert(av.take(0) =~= Seq::<SpecValue>::empty());
                    assert(arr_view(out@) =~= Seq::<SpecValue>::empty());
                }
                let n = a.len();
                let mut j: usize = 0;
                while j < n
                    invariant
                        n == a@.len(),
                        j <= n,
                        spec_resolve_arr(av.take(j as int), finalize, self.all_view(), self.props_view())
                            == Ok::<Seq<SpecValue>, Seq<char>>(arr_view(out@)),
                    decreases n - j,
                {
                    proof {
                        assert(decreases_to!(*value => value->Arr_0));
                        assert(decreases_to!(*a => a@));
                        assert(decreases_to!(a@ => a@[j as int]));
                    }
                    let ghost prev = arr_view(out@);
                    match self.compile_value(&a[j], finalize) {
                        Ok(cv) => {
                            out.push(cv);
                            proof {
                                assert(av[j as int] == a@[j as int].view());
                                lemma_resolve_arr_split(
                                    av.take(j + 1),
                                    j as int,
                                    finalize,
                                    self.all_view(),
                                    self.props_view(),
                                );
                                assert(av.take(j + 1).take(j as int) =~= av.take(j as int));
                                assert(av.take(j + 1).skip(j as int) =~= seq![av[j as int]]);
                                assert(seq![av[j as int]].drop_first() =~= Seq::<
                                    SpecValue,
                                >::empty());
                                assert(spec_resolve_arr(
                                    Seq::<SpecValue>::empty(),
                                    finalize,
                                    self.all_view(),
                                    self.props_view(),
                                ) == Ok::<Seq<SpecValue>, Seq<char>>(Seq::empty()));
                                assert(spec_resolve(av[j as int], finalize, self.all_view(),
                                    self.props_view()) == Ok::<SpecValue, Seq<char>>(cv.view()));
                                assert(seq![cv.view()] + Seq::<SpecValue>::empty() =~= seq![
                                    cv.view()]);
                                assert(arr_view(out@) =~= prev.push(cv.view()));
                                assert(prev + seq![cv.view()] =~= prev.push(cv.view()));
                            }
                        },
                        Err(e) => {
                            proof {
                                assert(av[j as int] == a@[j as int].view());
                                lemma_resolve_arr_split(
                                    av,
                                    j as int,
                                    finalize,
                                    self.all_view(),
                                    self.props_view(),
                                );
                                assert(av.skip(j as int)[0] == av[j as int]);
                                assert(av.skip(j as int).len() > 0);
                            }
                            return Err(e);
                        },
                    }
                    j += 1;
                }
                proof {
                    assert(av.take(n as int) =~= av);
                }
                Ok(Value::Arr(out))
            },
            Value::Obj(o) => {
                proof {
                    assert(decreases_to!(*value => value->Obj_0));
                    assert(decreases_to!(*o => o@));
                }
                match self.compile_object_value(o, finalize) {
                    Ok(v) => Ok(v),
                    Err(e) => Err(e),
                }
            },
        }
    }

    /// Resolve every value of an object's entries; the keys and their order
    /// are kept.
    #[verifier::loop_isolation(false)]
    pub fn compile_object_value(&self, obj: &Vec<(String, Value)>, finalize: bool) -> (r: Result<
        Value,
        SchemaError,
    >)
        ensures
            match r {
                Ok(out) => spec_resolve(
                    SpecValue::Obj(entries_view(obj@)),
                    finalize,
                    self.all_view(),
                    self.props_view(),
                ) == Ok::<SpecValue, Seq<char>>(out.view()) && out is Obj,
                Err(e) => e matches SchemaError::UnknownReference { name } && spec_resolve(
                    SpecValue::Obj(entries_view(obj@)),
                    finalize,
                    self.all_view(),
                    self.props_view(),
                ) == Err::<SpecValue, Seq<char>>(name@),
            },
        decreases obj@,
    {
        let ghost ov = entries_view(obj@);
        let mut out: Vec<(String, Value)> = Vec::new();
        proof {
            assert(ov.take(0) =~= Seq::<(Seq<char>, SpecValue)>::empty());
            assert(entries_view(out@) =~= Seq::<(Seq<char>, SpecValue)>::empty());
        }
        let n = obj.len();
        let mut j: usize = 0;
        while j < n
            invariant
                n == obj@.len(),
                j <= n,
                spec_resolve_obj(ov.take(j as int), finalize, self.all_view(), self.props_view())
                    == Ok::<Seq<(Seq<char>, SpecValue)>, Seq<char>>(entries_view(out@)),
            decreases n - j,
        {
            proof {
                assert(decreases_to!(obj@ => obj@[j as int]));
                assert(decreases_to!(obj@[j as int] => obj@[j as int].1));
            }
            let ghost prev = entries_view(out@);
            let key = obj[j].0.clone();
            match self.compile_value(&obj[j].1, finalize) {
                Ok(cv) => {
                    out.push((key, cv));
                    proof {
                        assert(ov[j as int] == (obj@[j as int].0@, obj@[j as int].1.view()));
                        lemma_resolve_obj_split(
                            ov.take(j + 1),
                            j as int,
                            finalize,
                            self.all_view(),
                            self.props_view(),
                        );
                        assert(ov.take(j + 1).take(j as int) =~= ov.take(j as int));
                        assert(ov.take(j + 1).skip(j as int) =~= seq![ov[j as int]]);
                        assert(seq![ov[j as int]].drop_first() =~= Seq::<
                            (Seq<char>, SpecValue),
                        >::empty());
                        assert(spec_resolve_obj(
                            Seq::<(Seq<char>, SpecValue)>::empty(),
                            finalize,
                            self.all_view(),
                            self.props_view(),
                        ) == Ok::<Seq<(Seq<char>, SpecValue)>, Seq<char>>(Seq::empty()));
                        assert(spec_resolve(ov[j as int].1, finalize, self.all_view(),
                            self.props_view()) == Ok::<SpecValue, Seq<char>>(cv.view()));
                        assert(seq![(ov[j as int].0, cv.view())] + Seq::<
                            (Seq<char>, SpecValue),
                        >::empty() =~= seq![(ov[j as int].0, cv.view())]);
                        assert(entries_view(out@) =~= prev.push((key@, cv.view())));
                        assert(prev + seq![(ov[j as int].0, cv.view())] =~= prev.push(
                            (key@, cv.view()),
                        ));
                    }
                },
                Err(e) => {
                    proof {
                        assert(ov[j as int] == (obj@[j as int].0@, obj@[j as int].1.view()));
                        lemma_resolve_obj_split(
                            ov,
                            j as int,
                            finalize,
                            self.all_view(),
                            self.props_view(),
                        );
                        assert(ov.skip(j as int)[0] == ov[j as int]);
                        assert(ov.skip(j as int).len() > 0);
                    }
                    return Err(e);
                },
            }
            j += 1;
        }
        proof {
            assert(ov.take(n as int) =~= ov);
        }
        Ok(Value::Obj(out))
    }
}

/// Copy an entry vector; the copy's entries stand for the same values.
fn dup_entries(m: &Vec<(String, Value)>) -> (r: Vec<(String, Value)>)
    ensures
        entries_view(r@) == entries_view(m@),
{
    let mut out: Vec<(String, Value)> = Vec::new();
    let n = m.len();
    let mut j: usize = 0;
    while j < n
        invariant
            n == m@.len(),
            j <= n,
            out@.len() == j,
            forall|i: int| 0 <= i < j ==> out@[i].0@ == m@[i].0@ && out@[i].1.view()
                == m@[i].1.view(),
        decreases n - j,
    {
        let key = m[j].0.clone();
        let v = m[j].1.dup();
        out.push((key, v));
        j += 1;
    }
    proof {
        assert(entries_view(out@) =~= entries_view(m@));
    }
    out
}

/// The model of the enum section: enum names and their variant maps.
pub open spec fn enum_entries_view(m: Seq<(String, Vec<(String, Value)>)>) -> Seq<
    (Seq<char>, Seq<(Seq<char>, SpecValue)>),
> {
    Seq::new(m.len(), |i: int| if 0 <= i < m.len() {
        (m[i].0@, entries_view(m[i].1@))
    } else {
        (Seq::<char>::empty(), Seq::<(Seq<char>, SpecValue)>::empty())
    })
}

/// The model of the `use` section: the recorded paths in order.
pub open spec fn uses_view(u: Seq<String>) -> Seq<Seq<char>> {
    Seq::new(u.len(), |i: int| if 0 <= i < u.len() {
        u[i]@
    } else {
        Seq::<char>::empty()
    })
}

/// Ordered-map insertion on the enum section; the model is `obj_set`.
fn omap_set_enum(
    m: &mut Vec<(String, Vec<(String, Value)>)>,
    k: String,
    v: Vec<(String, Value)>,
)
    ensures
        enum_entries_view(final(m)@) == obj_set(enum_entries_view(old(m)@), k@, entries_view(v@)),
{
    let ghost ov = enum_entries_view(m@);
    let n = m.len();
    let mut j: usize = 0;
    while j < n
        invariant
            n == m@.len(),
            j <= n,
            m@ == old(m)@,
            ov == enum_entries_view(m@),
            forall|i: int| 0 <= i < j ==> ov[i].0 != k@,
        decreases n - j,
    {
        if m[j].0 == k {
            proof {
                crate::value::lemma_obj_set_found(ov, k@, entries_view(v@), j as int);
            }
            m.set(j, (k, v));
            proof {
                assert(enum_entries_view(m@) =~= ov.update(j as int, (k@, entries_view(v@))));
            }
            return ;
        }
        j += 1;
    }
    proof {
        crate::value::lemma_obj_set_missing(ov, k@, entries_view(v@));
    }
    m.push((k, v));
    proof {
        assert(enum_entries_view(m@) =~= ov.push((k@, entries_view(v@))));
    }
}

/// The output record with references preserved: each section present only
/// when at least one declaration of its kind occurred. The `uses`, `enums`
/// and `types` fields carry the `use`, `enum` and `type` sections, named
/// around the reserved words.
#[derive(Debug)]
pub struct SchemaConfig {
    /// The `plugin` section, keyed by plugin path.
    pub plugin: Option<Vec<(String, Value)>>,
    /// The `use` section: import paths in source order.
    pub uses: Option<Vec<String>>,
    /// The `prop` section, keyed by prop name.
    pub prop: Option<Vec<(String, Value)>>,
    /// The `enum` section: variant maps keyed by enum name.
    pub enums: Option<Vec<(String, Vec<(String, Value)>)>>,
    /// The `type` section, keyed by type name.
    pub types: Option<Vec<(String, Value)>>,
    /// The `model` section, keyed by model name.
    pub model: Option<Vec<(String, Value)>>,
}

impl SchemaConfig {
    /// The mathematical record this stands for.
    pub open spec fn view(self) -> SpecSchema {
        SpecSchema {
            plugin: match self.plugin {
                Some(v) => Some(entries_view(v@)),
                None => None,
            },
            uses: match self.uses {
                Some(v) => Some(uses_view(v@)),
                None => None,
            },
            prop: match self.prop {
                Some(v) => Some(entries_view(v@)),
                None => None,
            },
            enums: match self.enums {
                Some(v) => Some(enum_entries_view(v@)),
                None => None,
            },
            types: match self.types {
                Some(v) => Some(entries_view(v@)),
                None => None,
            },
            model: match self.model {
                Some(v) => Some(entries_view(v@)),
                None => None,
            },
        }
    }
}

/// The output record with references resolved: the same shape minus the
/// `prop` and `use` sections, which finalize mode drops.
#[derive(Debug)]
pub struct FinalSchemaConfig {
    /// The `plugin` section, keyed by plugin path.
    pub plugin: Option<Vec<(String, Value)>>,
    /// The `enum` section: variant maps keyed by enum name.
    pub enums: Option<Vec<(String, Vec<(String, Value)>)>>,
    /// The `type` section, keyed by type name.
    pub types: Option<Vec<(String, Value)>>,
    /// The `model` section, keyed by model name.
    pub model: Option<Vec<(String, Value)>>,
}

impl FinalSchemaConfig {
    /// The mathematical record this stands for; by the shape of the type
    /// its `prop` and `use` sections are absent, whatever the input was.
    pub open spec fn view(self) -> SpecSchema {
        SpecSchema {
            plugin: match self.plugin {
                Some(v) => Some(entries_view(v@)),
                None => None,
            },
            uses: None,
            prop: None,
            enums: match self.enums {
                Some(v) => Some(enum_entries_view(v@)),
                None => None,
            },
            types: match self.types {
                Some(v) => Some(entries_view(v@)),
                None => None,
            },
            model: match self.model {
                Some(v) => Some(entries_view(v@)),
                None => None,
            },
        }
    }
}

impl Compiler {
    /// Copy an enum's variant map through; enum display values are never
    /// reference-resolved, so this cannot fail.
    pub fn compile_enum_variants(&self, variants: &Vec<(String, Value)>) -> (r: Result<
        Vec<(String, Value)>,
        SchemaError,
    >)
        ensures
            r matches Ok(out) && entries_view(out@) == entries_view(variants@),
    {
        Ok(dup_entries(variants))
    }

    /// Compile one type or model declaration into its record: `name`,
    /// `mutable`, `attributes` when any were declared, and `columns` in
    /// column order; exactly what `spec_compile_record` names. The only
    /// possible error is an unknown reference met while resolving attribute
    /// values in finalize mode.
    #[verifier::loop_isolation(false)]
    pub fn compile_type_or_model(
        &self,
        name: &String,
        mutable: bool,
        attributes: &Vec<(String, Value)>,
        columns: &Vec<(String, crate::parser::ColumnDefinition)>,
        finalize: bool,
    ) -> (r: Result<Value, SchemaError>)
        ensures
            match r {
                Ok(v) => spec_compile_record(
                    name@,
                    mutable,
                    entries_view(attributes@),
                    cols_view(columns@),
                    finalize,
                    self.all_view(),
                    self.props_view(),
                ) == Ok::<SpecValue, Seq<char>>(v.view()),
                Err(e) => e matches SchemaError::UnknownReference { name: n } && spec_compile_record(
                    name@,
                    mutable,
                    entries_view(attributes@),
                    cols_view(columns@),
                    finalize,
                    self.all_view(),
                    self.props_view(),
                ) == Err::<SpecValue, Seq<char>>(n@),
            },
    {
        let ghost av = entries_view(attributes@);
        let ghost cv = cols_view(columns@);
        let mut result: Vec<(String, Value)> = Vec::new();
        result.push((String::from_str("name"), Value::Str(name.clone())));
        result.push((String::from_str("mutable"), Value::Bool(mutable)));
        // The record's attributes, resolved with the requested mode.
        if attributes.len() > 0 {
            match self.compile_object_value(attributes, finalize) {
                Ok(cattrs) => {
                    result.push((String::from_str("attributes"), cattrs));
                },
                Err(e) => {
                    return Err(e);
                },
            }
        } else {
            proof {
                assert(av.len() == 0);
            }
        }
        proof {
            assert(spec_resolve_obj(av, finalize, self.all_view(), self.props_view()) is Ok);
        }
        // The columns, in declaration order.
        let mut column_array: Vec<Value> = Vec::new();
        proof {
            assert(cv.take(0) =~= Seq::<(Seq<char>, SpecColumn)>::empty());
            assert(arr_view(column_array@) =~= Seq::<SpecValue>::empty());
        }
        let n = columns.len();
        let mut j: usize = 0;
        while j < n
            invariant
                j <= n,
                spec_compile_cols(cv.take(j as int), finalize, self.all_view(), self.props_view())
                    == Ok::<Seq<SpecValue>, Seq<char>>(arr_view(column_array@)),
            decreases n - j,
        {
            let ghost prev = arr_view(column_array@);
            let column_name = columns[j].0.clone();
            let cd = &columns[j].1;
            let mut column_obj: Vec<(String, Value)> = Vec::new();
            column_obj.push((String::from_str("type"), Value::Str(cd.column_type.clone())));
            column_obj.push((String::from_str("name"), Value::Str(column_name)));
            column_obj.push((String::from_str("required"), Value::Bool(cd.required)));
            column_obj.push((String::from_str("multiple"), Value::Bool(cd.multiple)));
            if cd.attributes.len() > 0 {
                match self.compile_object_value(&cd.attributes, finalize) {
                    Ok(cattrs) => {
                        column_obj.push((String::from_str("attributes"), cattrs));
                    },
                    Err(e) => {
                        proof {
                            assert(cv[j as int] == (columns@[j as int].0@, columns@[j as int].1.view()));
                            assert(spec_compile_column(cv[j as int].0, cv[j as int].1, finalize,
                                self.all_view(), self.props_view())
                                == Err::<SpecValue, Seq<char>>(e->UnknownReference_name@));
                            lemma_compile_cols_split(cv, j as int, finalize, self.all_view(),
                                self.props_view());
                            assert(cv.skip(j as int)[0] == cv[j as int]);
                            assert(cv.skip(j as int).len() > 0);
                        }
                        return Err(e);
                    },
                }
            }
            column_array.push(Value::Obj(column_obj));
            proof {
                assert(cv[j as int] == (columns@[j as int].0@, columns@[j as int].1.view()));
                let cvj = cv[j as int].1;
                let base = seq![
                    ("type"@, SpecValue::Str(cvj.column_type)),
                    ("name"@, SpecValue::Str(cv[j as int].0)),
                    ("required"@, SpecValue::Bool(cvj.required)),
                    ("multiple"@, SpecValue::Bool(cvj.multiple)),
                ];
                let pushed = column_array@[column_array@.len() - 1];
                if cvj.attributes.len() == 0 {
                    assert(entries_view(pushed->Obj_0@) =~= base);
                } else {
                    assert(spec_resolve_obj(cvj.attributes, finalize, self.all_view(),
                        self.props_view()) is Ok);
                    assert(entries_view(pushed->Obj_0@) =~= base.push(
                        ("attributes"@, SpecValue::Obj(spec_resolve_obj(cvj.attributes, finalize,
                            self.all_view(), self.props_view())->Ok_0)),
                    ));
                }
                assert(spec_compile_column(cv[j as int].0, cvj, finalize, self.all_view(),
                    self.props_view()) == Ok::<SpecValue, Seq<char>>(pushed.view()));
                lemma_compile_cols_split(cv.take(j + 1), j as int, finalize, self.all_view(),
                    self.props_view());
                assert(cv.take(j + 1).take(j as int) =~= cv.take(j as int));
                assert(cv.take(j + 1).skip(j as int) =~= seq![cv[j as int]]);
                assert(seq![cv[j as int]].drop_first() =~= Seq::<(Seq<char>, SpecColumn)>::empty());
                assert(spec_compile_cols(Seq::<(Seq<char>, SpecColumn)>::empty(), finalize,
                    self.all_view(), self.props_view())
                    == Ok::<Seq<SpecValue>, Seq<char>>(Seq::empty()));
                assert(seq![pushed.view()] + Seq::<SpecValue>::empty() =~= seq![pushed.view()]);
                assert(arr_view(column_array@) =~= prev.push(pushed.view()));
                assert(prev + seq![pushed.view()] =~= prev.push(pushed.view()));
            }
            j += 1;
        }
        proof {
            assert(cv.take(n as int) =~= cv);
        }
        result.push((String::from_str("columns"), Value::Arr(column_array)));
        proof {
            let base = seq![("name"@, SpecValue::Str(name@)), ("mutable"@, SpecValue::Bool(mutable))];
            let rattrs = spec_resolve_obj(av, finalize, self.all_view(), self.props_view())->Ok_0;
            let with_attrs = if av.len() == 0 {
                base
            } else {
                base.push(("attributes"@, SpecValue::Obj(rattrs)))
            };
            let rcols = spec_compile_cols(cv, finalize, self.all_view(), self.props_view())->Ok_0;
            assert(entries_view(result@) =~= with_attrs.push(("columns"@, SpecValue::Arr(rcols))));
        }
        Ok(Value::Obj(result))
    }
}

/// The declarations a schema root carries; any other node carries none.
pub open spec fn schema_decls(ast: AstNode) -> Seq<SpecDecl> {
    match ast {
        AstNode::Schema { body, .. } => body_view(body@),
        _ => Seq::empty(),
    }
}

/// The record assembled from the six section maps: a section with no entry
/// is absent.
pub open spec fn assemble(
    plugin: RefTable,
    uses: Seq<Seq<char>>,
    prop: RefTable,
    enums: Seq<(Seq<char>, Seq<(Seq<char>, SpecValue)>)>,
    types: RefTable,
    model: RefTable,
) -> SpecSchema {
    SpecSchema {
        plugin: if plugin.len() == 0 {
            None
        } else {
            Some(plugin)
        },
        uses: if uses.len() == 0 {
            None
        } else {
            Some(uses)
        },
        prop: if prop.len() == 0 {
            None
        } else {
            Some(prop)
        },
        enums: if enums.len() == 0 {
            None
        } else {
            Some(enums)
        },
        types: if types.len() == 0 {
            None
        } else {
            Some(types)
        },
        model: if model.len() == 0 {
            None
        } else {
            Some(model)
        },
    }
}

impl Compiler {
    /// Compile a schema root into the output record. In preserve mode every
    /// section is carried over with references kept; in finalize mode the
    /// props seed the tables, references inside type and model records are
    /// resolved in source order, and the prop section is consumed. The
    /// result is exactly what `spec_compile_schema` names; the errors are a
    /// root that is no schema, and an unknown reference.
    #[verifier::loop_isolation(false)]
    pub fn compile_schema(&self, ast: &AstNode, finalize: bool) -> (r: Result<
        SchemaConfig,
        SchemaError,
    >)
        ensures
            !(ast is Schema) ==> (r matches Err(e) && e is ExpectedSchemaRoot),
            ast is Schema ==> match r {
                Ok(s) => spec_compile_schema(schema_decls(*ast), finalize) == Ok::<
                    SpecSchema,
                    Seq<char>,
                >(s.view()),
                Err(e) => e matches SchemaError::UnknownReference { name }
                    && spec_compile_schema(schema_decls(*ast), finalize) == Err::<
                    SpecSchema,
                    Seq<char>,
                >(name@),
            },
    {
        let body = match ast {
            AstNode::Schema { body, .. } => body,
            _ => {
                return Err(SchemaError::ExpectedSchemaRoot);
            },
        };
        let ghost dv = schema_decls(*ast);
        proof {
            assert(dv == body_view(body@));
        }
        let mut compiler = Compiler::new();
        // Pass one, finalize mode only: record every prop, in source order,
        // in both tables.
        if finalize {
            let n = body.len();
            let mut j: usize = 0;
            proof {
                assert(dv.take(0) =~= Seq::<SpecDecl>::empty());
            }
            while j < n
                invariant
                    j <= n,
                    entries_view(compiler.prop_references@) == spec_prop_pass(
                        dv.take(j as int),
                        Seq::empty(),
                    ),
                    entries_view(compiler.all_references@) == spec_prop_pass(
                        dv.take(j as int),
                        Seq::empty(),
                    ),
                decreases n - j,
            {
                let ghost ptab = spec_prop_pass(dv.take(j as int), Seq::empty());
                proof {
                    lemma_prop_pass_split(dv.take(j + 1), j as int, Seq::empty());
                    assert(dv.take(j + 1).take(j as int) =~= dv.take(j as int));
                    assert(dv.take(j + 1).skip(j as int) =~= seq![dv[j as int]]);
                    assert(seq![dv[j as int]].drop_first() =~= Seq::<SpecDecl>::empty());
                    assert(dv[j as int] == body@[j as int].decl_view());
                }
                match &body[j] {
                    AstNode::Prop { name, config, .. } => {
                        let compiled = match compiler.compile_object_value(config, false) {
                            Ok(c) => c,
                            Err(e) => {
                                proof {
                                    lemma_resolve_obj_preserve(
                                        entries_view(config@),
                                        compiler.all_view(),
                                        compiler.props_view(),
                                    );
                                }
                                return Err(e);
                            },
                        };
                        proof {
                            lemma_resolve_obj_preserve(
                                entries_view(config@),
                                compiler.all_view(),
                                compiler.props_view(),
                            );
                            assert(compiled.view() == SpecValue::Obj(entries_view(config@)));
                        }
                        let compiled2 = compiled.dup();
                        omap_set(&mut compiler.prop_references, name.clone(), compiled);
                        omap_set(&mut compiler.all_references, name.clone(), compiled2);
                    },
                    _ => {},
                }
                proof {
                    reveal_with_fuel(spec_prop_pass, 2);
                    match dv[j as int] {
                        SpecDecl::Prop { name, config } => {
                            assert(spec_prop_pass(seq![dv[j as int]], ptab) == obj_set(
                                ptab,
                                name,
                                SpecValue::Obj(config),
                            ));
                        },
                        _ => {
                            assert(spec_prop_pass(seq![dv[j as int]], ptab) == ptab);
                        },
                    }
                }
                j += 1;
            }
            proof {
                assert(dv.take(n as int) =~= dv);
            }
        }
        let ghost props_tab = entries_view(compiler.prop_references@);
        proof {
            if finalize {
                assert(props_tab == spec_prop_pass(dv, Seq::empty()));
            } else {
                assert(props_tab =~= Seq::<(Seq<char>, SpecValue)>::empty());
                assert(entries_view(compiler.all_references@) =~= Seq::<
                    (Seq<char>, SpecValue),
                >::empty());
            }
        }
        // Pass two: compile every declaration, in source order, into its
        // section.
        let mut plugin_vec: Vec<(String, Value)> = Vec::new();
        let mut uses_vec: Vec<String> = Vec::new();
        let mut prop_vec: Vec<(String, Value)> = Vec::new();
        let mut enums_vec: Vec<(String, Vec<(String, Value)>)> = Vec::new();
        let mut types_vec: Vec<(String, Value)> = Vec::new();
        let mut model_vec: Vec<(String, Value)> = Vec::new();
        proof {
            assert(dv.take(0) =~= Seq::<SpecDecl>::empty());
            assert(entries_view(plugin_vec@) =~= Seq::<(Seq<char>, SpecValue)>::empty());
            assert(uses_view(uses_vec@) =~= Seq::<Seq<char>>::empty());
            assert(entries_view(prop_vec@) =~= Seq::<(Seq<char>, SpecValue)>::empty());
            assert(enum_entries_view(enums_vec@) =~= Seq::<
                (Seq<char>, Seq<(Seq<char>, SpecValue)>),
            >::empty());
            assert(entries_view(types_vec@) =~= Seq::<(Seq<char>, SpecValue)>::empty());
            assert(entries_view(model_vec@) =~= Seq::<(Seq<char>, SpecValue)>::empty());
        }
        let n2 = body.len();
        let mut j: usize = 0;
        while j < n2
            invariant
                j <= n2,
                entries_view(compiler.prop_references@) == props_tab,
                spec_run(dv.take(j as int), finalize, props_tab, empty_schema(), props_tab) == Ok::<
                    (SpecSchema, RefTable),
                    Seq<char>,
                >(
                    (
                        assemble(
                            entries_view(plugin_vec@),
                            uses_view(uses_vec@),
                            entries_view(prop_vec@),
                            enum_entries_view(enums_vec@),
                            entries_view(types_vec@),
                            entries_view(model_vec@),
                        ),
                        entries_view(compiler.all_references@),
                    ),
                ),
            decreases n2 - j,
        {
            let ghost s_old = assemble(
                entries_view(plugin_vec@),
                uses_view(uses_vec@),
                entries_view(prop_vec@),
                enum_entries_view(enums_vec@),
                entries_view(types_vec@),
                entries_view(model_vec@),
            );
            let ghost a_old = entries_view(compiler.all_references@);
            proof {
                lemma_run_split(
                    dv.take(j + 1),
                    j as int,
                    finalize,
                    props_tab,
                    empty_schema(),
                    props_tab,
                );
                assert(dv.take(j + 1).take(j as int) =~= dv.take(j as int));
                assert(dv.take(j + 1).skip(j as int) =~= seq![dv[j as int]]);
                assert(seq![dv[j as int]].drop_first() =~= Seq::<SpecDecl>::empty());
                assert(dv[j as int] == body@[j as int].decl_view());
            }
            match &body[j] {
                AstNode::Plugin { name, config, .. } => {
                    // Plugin bodies are never reference-resolved.
                    let ghost section = entries_view(plugin_vec@);
                    let compiled = match compiler.compile_object_value(config, false) {
                        Ok(c) => c,
                        Err(e) => {
                            proof {
                                lemma_resolve_obj_preserve(
                                    entries_view(config@),
                                    compiler.all_view(),
                                    compiler.props_view(),
                                );
                            }
                            return Err(e);
                        },
                    };
                    proof {
                        lemma_resolve_obj_preserve(
                            entries_view(config@),
                            compiler.all_view(),
                            compiler.props_view(),
                        );
                        assert(compiled.view() == SpecValue::Obj(entries_view(config@)));
                        lemma_obj_set_len(section, name@, compiled.view());
                        if section.len() == 0 {
                            assert(section =~= Seq::<(Seq<char>, SpecValue)>::empty());
                        }
                    }
                    omap_set(&mut plugin_vec, name.clone(), compiled);
                    proof {
                        reveal_with_fuel(spec_run, 2);
                        let s2 = SpecSchema {
                            plugin: Some(
                                obj_set(section, name@, SpecValue::Obj(entries_view(config@))),
                            ),
                            ..s_old
                        };
                        assert(spec_step(dv[j as int], finalize, props_tab, s_old, a_old) == Ok::<
                            (SpecSchema, RefTable),
                            Seq<char>,
                        >((s2, a_old)));
                        assert(assemble(
                            entries_view(plugin_vec@),
                            uses_view(uses_vec@),
                            entries_view(prop_vec@),
                            enum_entries_view(enums_vec@),
                            entries_view(types_vec@),
                            entries_view(model_vec@),
                        ) == s2);
                    }
                },
                AstNode::Use { path, .. } => {
                    // The use section is carried in preserve mode only;
                    // finalize mode drops it.
                    if !finalize {
                        let ghost section = uses_view(uses_vec@);
                        uses_vec.push(path.clone());
                        proof {
                            reveal_with_fuel(spec_run, 2);
                            assert(uses_view(uses_vec@) =~= section.push(path@));
                            if section.len() == 0 {
                                assert(section =~= Seq::<Seq<char>>::empty());
                            }
                            let s2 = SpecSchema { uses: Some(section.push(path@)), ..s_old };
                            assert(spec_step(dv[j as int], finalize, props_tab, s_old, a_old)
                                == Ok::<(SpecSchema, RefTable), Seq<char>>((s2, a_old)));
                            assert(assemble(
                                entries_view(plugin_vec@),
                                uses_view(uses_vec@),
                                entries_view(prop_vec@),
                                enum_entries_view(enums_vec@),
                                entries_view(types_vec@),
                                entries_view(model_vec@),
                            ) == s2);
                        }
                    } else {
                        proof {
                            reveal_with_fuel(spec_run, 2);
                            assert(spec_step(dv[j as int], finalize, props_tab, s_old, a_old)
                                == Ok::<(SpecSchema, RefTable), Seq<char>>((s_old, a_old)));
                        }
                    }
                },
                AstNode::Prop { name, config, .. } => {
                    if !finalize {
                        let ghost section = entries_view(prop_vec@);
                        let compiled = match compiler.compile_object_value(config, false) {
                            Ok(c) => c,
                            Err(e) => {
                                proof {
                                    lemma_resolve_obj_preserve(
                                        entries_view(config@),
                                        compiler.all_view(),
                                        compiler.props_view(),
                                    );
                                }
                                return Err(e);
                            },
                        };
                        proof {
                            lemma_resolve_obj_preserve(
                                entries_view(config@),
                                compiler.all_view(),
                                compiler.props_view(),
                            );
                            assert(compiled.view() == SpecValue::Obj(entries_view(config@)));
                            lemma_obj_set_len(section, name@, compiled.view());
                            if section.len() == 0 {
                                assert(section =~= Seq::<(Seq<char>, SpecValue)>::empty());
                            }
                        }
                        omap_set(&mut prop_vec, name.clone(), compiled);
                        proof {
                            reveal_with_fuel(spec_run, 2);
                            let s2 = SpecSchema {
                                prop: Some(
                                    obj_set(section, name@, SpecValue::Obj(entries_view(config@))),
                                ),
                                ..s_old
                            };
                            assert(spec_step(dv[j as int], finalize, props_tab, s_old, a_old)
                                == Ok::<(SpecSchema, RefTable), Seq<char>>((s2, a_old)));
                            assert(assemble(
                                entries_view(plugin_vec@),
                                uses_view(uses_vec@),
                                entries_view(prop_vec@),
                                enum_entries_view(enums_vec@),
                                entries_view(types_vec@),
                                entries_view(model_vec@),
                            ) == s2);
                        }
                    } else {
                        proof {
                            reveal_with_fuel(spec_run, 2);
                            assert(spec_step(dv[j as int], finalize, props_tab, s_old, a_old)
                                == Ok::<(SpecSchema, RefTable), Seq<char>>((s_old, a_old)));
                        }
                    }
                },
                AstNode::Enum { name, variants, .. } => {
                    // Enum display values are never reference-resolved.
                    let ghost section = enum_entries_view(enums_vec@);
                    let compiled = match compiler.compile_enum_variants(variants) {
                        Ok(c) => c,
                        Err(e) => {
                            return Err(e);
                        },
                    };
                    if finalize {
                        let forref = dup_entries(&compiled);
                        omap_set(&mut compiler.all_references, name.clone(), Value::Obj(forref));
                    }
                    proof {
                        lemma_obj_set_len(section, name@, entries_view(variants@));
                        if section.len() == 0 {
                            assert(section =~= Seq::<
                                (Seq<char>, Seq<(Seq<char>, SpecValue)>),
                            >::empty());
                        }
                    }
                    omap_set_enum(&mut enums_vec, name.clone(), compiled);
                    proof {
                        reveal_with_fuel(spec_run, 2);
                        let s2 = SpecSchema {
                            enums: Some(obj_set(section, name@, entries_view(variants@))),
                            ..s_old
                        };
                        let a2 = if finalize {
                            obj_set(a_old, name@, SpecValue::Obj(entries_view(variants@)))
                        } else {
                            a_old
                        };
                        assert(spec_step(dv[j as int], finalize, props_tab, s_old, a_old) == Ok::<
                            (SpecSchema, RefTable),
                            Seq<char>,
                        >((s2, a2)));
                        assert(entries_view(compiler.all_references@) == a2);
                        assert(assemble(
                            entries_view(plugin_vec@),
                            uses_view(uses_vec@),
                            entries_view(prop_vec@),
                            enum_entries_view(enums_vec@),
                            entries_view(types_vec@),
                            entries_view(model_vec@),
                        ) == s2);
                    }
                },
                AstNode::Type { name, mutable, attributes, columns, .. } => {
                    let ghost section = entries_view(types_vec@);
                    let rec = match compiler.compile_type_or_model(
                        name,
                        *mutable,
                        attributes,
                        columns,
                        finalize,
                    ) {
                        Ok(v) => v,
                        Err(e) => {
                            proof {
                                lemma_run_split(
                                    dv,
                                    j as int,
                                    finalize,
                                    props_tab,
                                    empty_schema(),
                                    props_tab,
                                );
                                assert(dv.skip(j as int)[0] == dv[j as int]);
                                assert(dv.skip(j as int).len() > 0);
                            }
                            return Err(e);
                        },
                    };
                    if finalize {
                        let rec2 = rec.dup();
                        omap_set(&mut compiler.all_references, name.clone(), rec2);
                    }
                    proof {
                        lemma_obj_set_len(section, name@, rec.view());
                        if section.len() == 0 {
                            assert(section =~= Seq::<(Seq<char>, SpecValue)>::empty());
                        }
                    }
                    omap_set(&mut types_vec, name.clone(), rec);
                    proof {
                        reveal_with_fuel(spec_run, 2);
                        let s2 = SpecSchema {
                            types: Some(obj_set(section, name@, rec.view())),
                            ..s_old
                        };
                        let a2 = if finalize {
                            obj_set(a_old, name@, rec.view())
                        } else {
                            a_old
                        };
                        assert(spec_step(dv[j as int], finalize, props_tab, s_old, a_old) == Ok::<
                            (SpecSchema, RefTable),
                            Seq<char>,
                        >((s2, a2)));
                        assert(entries_view(compiler.all_references@) == a2);
                        assert(assemble(
                            entries_view(plugin_vec@),
                            uses_view(uses_vec@),
                            entries_view(prop_vec@),
                            enum_entries_view(enums_vec@),
                            entries_view(types_vec@),
                            entries_view(model_vec@),
                        ) == s2);
                    }
                },
                AstNode::Model { name, mutable, attributes, columns, .. } => {
                    let ghost section = entries_view(model_vec@);
                    let rec = match compiler.compile_type_or_model(
                        name,
                        *mutable,
                        attributes,
                        columns,
                        finalize,
                    ) {
                        Ok(v) => v,
                        Err(e) => {
                            proof {
                                lemma_run_split(
                                    dv,
                                    j as int,
                                    finalize,
                                    props_tab,
                                    empty_schema(),
                                    props_tab,
                                );
                                assert(dv.skip(j as int)[0] == dv[j as int]);
                                assert(dv.skip(j as int).len() > 0);
                            }
                            return Err(e);
                        },
                    };
                    if finalize {
                        let rec2 = rec.dup();
                        omap_set(&mut compiler.all_references, name.clone(), rec2);
                    }
                    proof {
                        lemma_obj_set_len(section, name@, rec.view());
                        if section.len() == 0 {
                            assert(section =~= Seq::<(Seq<char>, SpecValue)>::empty());
                        }
                    }
                    omap_set(&mut model_vec, name.clone(), rec);
                    proof {
                        reveal_with_fuel(spec_run, 2);
                        let s2 = SpecSchema {
                            model: Some(obj_set(section, name@, rec.view())),
                            ..s_old
                        };
                        let a2 = if finalize {
                            obj_set(a_old, name@, rec.view())
                        } else {
                            a_old
                        };
                        assert(spec_step(dv[j as int], finalize, props_tab, s_old, a_old) == Ok::<
                            (SpecSchema, RefTable),
                            Seq<char>,
                        >((s2, a2)));
                        assert(entries_view(compiler.all_references@) == a2);
                        assert(assemble(
                            entries_view(plugin_vec@),
                            uses_view(uses_vec@),
                            entries_view(prop_vec@),
                            enum_entries_view(enums_vec@),
                            entries_view(types_vec@),
                            entries_view(model_vec@),
                        ) == s2);
                    }
                },
                AstNode::Schema { .. } => {
                    // A nested schema root is no declaration; it is passed
                    // over.
                    proof {
                        reveal_with_fuel(spec_run, 2);
                        assert(spec_step(dv[j as int], finalize, props_tab, s_old, a_old) == Ok::<
                            (SpecSchema, RefTable),
                            Seq<char>,
                        >((s_old, a_old)));
                    }
                },
            }
            j += 1;
        }
        proof {
            assert(dv.take(n2 as int) =~= dv);
        }
        let schema = SchemaConfig {
            plugin: if plugin_vec.len() == 0 {
                None
            } else {
                Some(plugin_vec)
            },
            uses: if uses_vec.len() == 0 {
                None
            } else {
                Some(uses_vec)
            },
            prop: if prop_vec.len() == 0 {
                None
            } else {
                Some(prop_vec)
            },
            enums: if enums_vec.len() == 0 {
                None
            } else {
                Some(enums_vec)
            },
            types: if types_vec.len() == 0 {
                None
            } else {
                Some(types_vec)
            },
            model: if model_vec.len() == 0 {
                None
            } else {
                Some(model_vec)
            },
        };
        Ok(schema)
    }

    /// Compile a schema root with finalization, then return the record with
    /// the `prop` and `use` sections omitted: they are consumed once
    /// references are resolved, and the result's type has no place for them.
    pub fn compile_final(&self, ast: &AstNode) -> (r: Result<FinalSchemaConfig, SchemaError>)
        ensures
            !(ast is Schema) ==> (r matches Err(e) && e is ExpectedSchemaRoot),
            ast is Schema ==> match r {
                Ok(f) => (spec_compile_schema(schema_decls(*ast), true) matches Ok(s) && f.view()
                    == SpecSchema { uses: None, prop: None, ..s }),
                Err(e) => e matches SchemaError::UnknownReference { name }
                    && spec_compile_schema(schema_decls(*ast), true) == Err::<
                    SpecSchema,
                    Seq<char>,
                >(name@),
            },
    {
        match self.compile_schema(ast, true) {
            Ok(schema) => Ok(
                FinalSchemaConfig {
                    plugin: schema.plugin,
                    enums: schema.enums,
                    types: schema.types,
                    model: schema.model,
                },
            ),
            Err(e) => Err(e),
        }
    }
}

impl Default for Compiler {
    /// A compiler with both tables empty.
    fn default() -> (c: Compiler)
        ensures
            c.props_view() == Seq::<(Seq<char>, SpecValue)>::empty(),
            c.all_view() == Seq::<(Seq<char>, SpecValue)>::empty(),
    {
        Compiler::new()
    }
}

/// Whether this declaration records its name in the global table when it is
/// compiled in finalize mode: enums, types and models do.
pub open spec fn decl_registers(d: SpecDecl, n: Seq<char>) -> bool {
    match d {
        SpecDecl::Enum { name, .. } => name == n,
        SpecDecl::Type { name, .. } => name == n,
        SpecDecl::Model { name, .. } => name == n,
        _ => false,
    }
}

/// Whether some prop declaration carries the name `n`.
pub open spec fn prop_named(decls: Seq<SpecDecl>, n: Seq<char>) -> bool {
    exists|i: int|
        0 <= i < decls.len() && ((#[trigger] decls[i]) matches SpecDecl::Prop { name, .. }
            && name == n)
}

/// A declaration's attributes; one without attributes carries none.
pub open spec fn decl_attrs(d: SpecDecl) -> Seq<(Seq<char>, SpecValue)> {
    match d {
        SpecDecl::Type { attributes, .. } => attributes,
        SpecDecl::Model { attributes, .. } => attributes,
        _ => Seq::empty(),
    }
}

/// The prop table holds exactly the accumulator's names and the names of the
/// prop declarations.
pub proof fn lemma_prop_pass_domain(decls: Seq<SpecDecl>, acc: RefTable, n: Seq<char>)
    ensures
        obj_contains(spec_prop_pass(decls, acc), n) == (obj_contains(acc, n) || prop_named(
            decls,
            n,
        )),
    decreases decls.len(),
{
    if decls.len() == 0 {
        assert(!prop_named(decls, n));
    } else {
        let acc2 = match decls[0] {
            SpecDecl::Prop { name, config } => obj_set(acc, name, SpecValue::Obj(config)),
            _ => acc,
        };
        match decls[0] {
            SpecDecl::Prop { name, config } => {
                crate::value::lemma_obj_set_contains(acc, name, SpecValue::Obj(config), n);
            },
            _ => {},
        }
        lemma_prop_pass_domain(decls.drop_first(), acc2, n);
        if prop_named(decls.drop_first(), n) {
            let w = choose|i: int|
                0 <= i < decls.drop_first().len() && ((#[trigger] decls.drop_first()[i])
                    matches SpecDecl::Prop { name, .. } && name == n);
            assert(decls[w + 1] == decls.drop_first()[w]);
            assert(prop_named(decls, n));
        }
        if prop_named(decls, n) {
            let w = choose|i: int|
                0 <= i < decls.len() && ((#[trigger] decls[i]) matches SpecDecl::Prop { name, .. }
                    && name == n);
            if w != 0 {
                assert(decls.drop_first()[w - 1] == decls[w]);
                assert(prop_named(decls.drop_first(), n));
            }
        }
    }
}

/// When a run succeeds, its global table holds exactly the names it started
/// with and — in finalize mode — the names of the enums, types and models it
/// compiled: nothing standing later in the file is in reach.
pub proof fn lemma_run_table_domain(
    decls: Seq<SpecDecl>,
    finalize: bool,
    props: RefTable,
    sch: SpecSchema,
    all: RefTable,
    n: Seq<char>,
)
    requires
        spec_run(decls, finalize, props, sch, all) is Ok,
    ensures
        obj_contains(spec_run(decls, finalize, props, sch, all)->Ok_0.1, n) == (obj_contains(
            all,
            n,
        ) || (finalize && exists|i: int|
            0 <= i < decls.len() && decl_registers(#[trigger] decls[i], n))),
    decreases decls.len(),
{
    if decls.len() == 0 {
        assert(!(exists|i: int| 0 <= i < decls.len() && decl_registers(#[trigger] decls[i], n)));
    } else {
        let step = spec_step(decls[0], finalize, props, sch, all);
        let (sch2, all2) = step->Ok_0;
        if finalize {
            match decls[0] {
                SpecDecl::Enum { name, variants } => {
                    crate::value::lemma_obj_set_contains(
                        all,
                        name,
                        SpecValue::Obj(variants),
                        n,
                    );
                },
                SpecDecl::Type { name, mutable, attributes, columns } => {
                    let rec = spec_compile_record(
                        name,
                        mutable,
                        attributes,
                        columns,
                        finalize,
                        all,
                        props,
                    );
                    crate::value::lemma_obj_set_contains(all, name, rec->Ok_0, n);
                },
                SpecDecl::Model { name, mutable, attributes, columns } => {
                    let rec = spec_compile_record(
                        name,
                        mutable,
                        attributes,
                        columns,
                        finalize,
                        all,
                        props,
                    );
                    crate::value::lemma_obj_set_contains(all, name, rec->Ok_0, n);
                },
                _ => {},
            }
        }
        assert(obj_contains(all2, n) == (obj_contains(all, n) || (finalize && decl_registers(
            decls[0],
            n,
        ))));
        lemma_run_table_domain(decls.drop_first(), finalize, props, sch2, all2, n);
        if exists|i: int|
            0 <= i < decls.drop_first().len() && decl_registers(
                #[trigger] decls.drop_first()[i],
                n,
            ) {
            let w = choose|i: int|
                0 <= i < decls.drop_first().len() && decl_registers(
                    #[trigger] decls.drop_first()[i],
                    n,
                );
            assert(decls[w + 1] == decls.drop_first()[w]);
            assert(decl_registers(decls[w + 1], n));
        }
        if exists|i: int| 0 <= i < decls.len() && decl_registers(#[trigger] decls[i], n) {
            let w = choose|i: int|
                0 <= i < decls.len() && decl_registers(#[trigger] decls[i], n);
            if w != 0 {
                assert(decls.drop_first()[w - 1] == decls[w]);
                assert(decl_registers(decls.drop_first()[w - 1], n));
            }
        }
    }
}

/// The sentinel spelled from a name always names that name.
pub proof fn lemma_ref_name_sentinel(n: Seq<char>)
    ensures
        ref_name(crate::value::sentinel_of(n)) == Some(n),
{
    let s = crate::value::sentinel_of(n);
    assert(s.len() == n.len() + 3);
    assert(s[0] == '$');
    assert(s[1] == '{');
    assert(s[s.len() - 1] == '}');
    assert(s.subrange(2, s.len() - 1) =~= n);
}

/// A reference can only reach props and declarations standing earlier in
/// source order. When the first `i` declarations compile, declaration `i` is
/// a type or model whose first attribute value is exactly the sentinel
/// `${n}`, no prop carries `n`, and no enum, type or model among the first
/// `i` declarations carries `n`, finalize-mode compilation fails with the
/// unknown-reference error naming `n` — even where a declaration after `i`
/// carries `n`.
pub proof fn lemma_forward_reference_fails(decls: Seq<SpecDecl>, i: int, k: Seq<char>, n: Seq<char>)
    requires
        0 <= i < decls.len(),
        spec_run(
            decls.take(i),
            true,
            spec_prop_pass(decls, Seq::empty()),
            empty_schema(),
            spec_prop_pass(decls, Seq::empty()),
        ) is Ok,
        decls[i] is Type || decls[i] is Model,
        decl_attrs(decls[i]).len() > 0,
        decl_attrs(decls[i])[0] == (k, SpecValue::Str(crate::value::sentinel_of(n))),
        !prop_named(decls, n),
        forall|l: int| 0 <= l < i ==> !decl_registers(#[trigger] decls[l], n),
    ensures
        spec_compile_schema(decls, true) == Err::<SpecSchema, Seq<char>>(n),
{
    let props = spec_prop_pass(decls, Seq::empty());
    let prefix = spec_run(decls.take(i), true, props, empty_schema(), props);
    let (s_i, a_i) = prefix->Ok_0;
    // The name is in no table: not a prop, and not registered earlier.
    lemma_prop_pass_domain(decls, Seq::empty(), n);
    assert(!obj_contains(props, n));
    lemma_run_table_domain(decls.take(i), true, props, empty_schema(), props, n);
    assert forall|l: int| 0 <= l < decls.take(i).len() implies !decl_registers(
        #[trigger] decls.take(i)[l],
        n,
    ) by {
        assert(decls.take(i)[l] == decls[l]);
    }
    assert(!obj_contains(a_i, n));
    // Resolving the first attribute value fails with that name.
    let attrs = decl_attrs(decls[i]);
    lemma_ref_name_sentinel(n);
    assert(spec_resolve(attrs[0].1, true, a_i, props) == Err::<SpecValue, Seq<char>>(n));
    assert(spec_resolve_obj(attrs, true, a_i, props) == Err::<
        Seq<(Seq<char>, SpecValue)>,
        Seq<char>,
    >(n));
    assert(spec_step(decls[i], true, props, s_i, a_i) == Err::<(SpecSchema, RefTable), Seq<char>>(
        n,
    ));
    // The error is the whole compilation's outcome.
    lemma_run_split(decls, i, true, props, empty_schema(), props);
    assert(decls.skip(i)[0] == decls[i]);
    assert(decls.skip(i).len() > 0);
    assert(spec_run(decls, true, props, empty_schema(), props) == Err::<
        (SpecSchema, RefTable),
        Seq<char>,
    >(n));
}

/// Preserve mode compiles every column sequence: nothing is looked up.
pub proof fn lemma_cols_preserve_ok(
    cols: Seq<(Seq<char>, SpecColumn)>,
    all: RefTable,
    props: RefTable,
)
    ensures
        spec_compile_cols(cols, false, all, props) is Ok,
    decreases cols.len(),
{
    if cols.len() > 0 {
        lemma_resolve_obj_preserve(cols[0].1.attributes, all, props);
        lemma_cols_preserve_ok(cols.drop_first(), all, props);
    }
}

/// Preserve mode compiles every type or model record: nothing is looked up.
pub proof fn lemma_record_preserve_ok(
    name: Seq<char>,
    mutable: bool,
    attrs: Seq<(Seq<char>, SpecValue)>,
    cols: Seq<(Seq<char>, SpecColumn)>,
    all: RefTable,
    props: RefTable,
)
    ensures
        spec_compile_record(name, mutable, attrs, cols, false, all, props) is Ok,
{
    lemma_resolve_obj_preserve(attrs, all, props);
    lemma_cols_preserve_ok(cols, all, props);
}

/// Preserve mode compiles every declaration: nothing is looked up.
pub proof fn lemma_step_preserve_ok(d: SpecDecl, props: RefTable, sch: SpecSchema, all: RefTable)
    ensures
        spec_step(d, false, props, sch, all) is Ok,
{
    match d {
        SpecDecl::Type { name, mutable, attributes, columns } => {
            lemma_record_preserve_ok(name, mutable, attributes, columns, all, props);
        },
        SpecDecl::Model { name, mutable, attributes, columns } => {
            lemma_record_preserve_ok(name, mutable, attributes, columns, all, props);
        },
        _ => {},
    }
}

/// Preserve mode compiles every run: nothing is looked up.
pub proof fn lemma_run_preserve_ok(
    decls: Seq<SpecDecl>,
    props: RefTable,
    sch: SpecSchema,
    all: RefTable,
)
    ensures
        spec_run(decls, false, props, sch, all) is Ok,
    decreases decls.len(),
{
    if decls.len() > 0 {
        lemma_step_preserve_ok(decls[0], props, sch, all);
        let st = spec_step(decls[0], false, props, sch, all)->Ok_0;
        lemma_run_preserve_ok(decls.drop_first(), props, st.0, st.1);
    }
}

/// Reference errors belong to finalize mode alone: compiling any declaration
/// sequence in preserve mode succeeds.
pub proof fn lemma_compile_schema_preserve_ok(decls: Seq<SpecDecl>)
    ensures
        spec_compile_schema(decls, false) is Ok,
{
    lemma_run_preserve_ok(decls, Seq::empty(), empty_schema(), Seq::empty());
}

} // verus!
