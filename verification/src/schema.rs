//! Schema extraction: classify a raw type definition as a record, a sum, or a
//! leaf, and turn its members into a validated [`TypeSchema`]. All structural
//! errors are caught here, before any interaction can start: a record member
//! without a name or without a prompt, a variant with more than one payload
//! field or with a payload but no prompt, a malformed annotation, or a shape
//! that cannot be composed at all.

use vstd::prelude::*;

verus! {

use crate::annotation::{ann_spec, annotation_of_attrs, Attr, ParseError};
use crate::leaf::LeafKind;

/// A raw member of a type definition, as a definition walker sees it: an
/// optional name, the member's own definition, and its attributes.
#[derive(Debug)]
pub struct RawField {
    pub name: Option<String>,
    pub ty: TypeDef,
    pub attrs: Vec<Attr>,
}

/// The shape of a member list: named members, positional members, or none.
#[derive(Debug)]
pub enum FieldsShape {
    Named(Vec<RawField>),
    Unnamed(Vec<RawField>),
    Unit,
}

/// A raw variant of a sum definition.
#[derive(Debug)]
pub struct RawVariant {
    pub tag: String,
    pub fields: FieldsShape,
    pub attrs: Vec<Attr>,
}

/// A raw type definition: a struct, an enum, or a primitive leaf.
#[derive(Debug)]
pub enum TypeDef {
    Struct { fields: FieldsShape },
    Enum { variants: Vec<RawVariant> },
    Prim { kind: LeafKind },
}

/// A structural error found while extracting a schema. Each one is fatal: no
/// composition procedure exists for the definition.
#[derive(Clone, Copy, Debug, PartialEq, Eq, Structural)]
pub enum SchemaError {
    /// The definition is neither a named-field record, a composable sum, nor
    /// a leaf (this also covers a sum with no variants, which could never be
    /// selected from).
    UnsupportedShape,
    /// A variant's payload is not exactly one positional field.
    MultiFieldVariant,
    /// A record member has no name.
    UnnamedField,
    /// A member that must be prompted for carries no `prompt` annotation.
    MissingPrompt,
    /// A `dialogue` annotation body failed to parse.
    BadAnnotation(ParseError),
}

/// A validated record field: its name, its prompt, and its nested schema.
#[derive(Debug)]
pub struct FieldSchema {
    pub name: String,
    pub prompt: String,
    pub nested: TypeSchema,
}

/// The payload of a sum variant, together with the prompt used to compose it.
#[derive(Debug)]
pub struct Payload {
    pub prompt: String,
    pub schema: TypeSchema,
}

/// A validated sum variant: its tag, the label shown in the selection menu
/// (the `name` annotation when given, the tag otherwise), and its payload.
#[derive(Debug)]
pub struct VariantSchema {
    pub tag: String,
    pub label: String,
    pub payload: Option<Payload>,
}

/// The shape of a composable type.
#[derive(Debug)]
pub enum TypeSchema {
    Record { fields: Vec<FieldSchema> },
    Sum { variants: Vec<VariantSchema> },
    Leaf { kind: LeafKind },
}

/// Mathematical views of the schema types.
pub ghost struct FieldSchemaV {
    pub name: Seq<char>,
    pub prompt: Seq<char>,
    pub nested: TypeSchemaV,
}

pub ghost struct PayloadV {
    pub prompt: Seq<char>,
    pub schema: TypeSchemaV,
}

pub ghost struct VariantSchemaV {
    pub tag: Seq<char>,
    pub label: Seq<char>,
    pub payload: Option<PayloadV>,
}

pub ghost enum TypeSchemaV {
    Record { fields: Seq<FieldSchemaV> },
    Sum { variants: Seq<VariantSchemaV> },
    Leaf { kind: LeafKind },
}

pub open spec fn field_view(f: FieldSchema) -> FieldSchemaV
    decreases f,
{
    FieldSchemaV { name: f.name@, prompt: f.prompt@, nested: schema_view(f.nested) }
}

pub open spec fn fields_view(fs: Seq<FieldSchema>) -> Seq<FieldSchemaV>
    decreases fs,
{
    if fs.len() == 0 {
        Seq::empty()
    } else {
        seq![field_view(fs[0])] + fields_view(fs.skip(1))
    }
}

pub open spec fn variant_view(v: VariantSchema) -> VariantSchemaV
    decreases v,
{
    VariantSchemaV {
        tag: v.tag@,
        label: v.label@,
        payload: match v.payload {
            None => None,
            Some(p) => Some(PayloadV { prompt: p.prompt@, schema: schema_view(p.schema) }),
        },
    }
}

pub open spec fn variants_view(vs: Seq<VariantSchema>) -> Seq<VariantSchemaV>
    decreases vs,
{
    if vs.len() == 0 {
        Seq::empty()
    } else {
        seq![variant_view(vs[0])] + variants_view(vs.skip(1))
    }
}

pub open spec fn schema_view(s: TypeSchema) -> TypeSchemaV
    decreases s,
{
    match s {
        TypeSchema::Record { fields } => TypeSchemaV::Record { fields: fields_view(fields@) },
        TypeSchema::Sum { variants } => TypeSchemaV::Sum { variants: variants_view(variants@) },
        TypeSchema::Leaf { kind } => TypeSchemaV::Leaf { kind },
    }
}

pub proof fn lemma_fields_view_index(fs: Seq<FieldSchema>)
    ensures
        fields_view(fs).len() == fs.len(),
        forall|i: int| 0 <= i < fs.len() ==> fields_view(fs)[i] == field_view(fs[i]),
    decreases fs,
{
    if fs.len() > 0 {
        lemma_fields_view_index(fs.skip(1));
    }
}

pub proof fn lemma_variants_view_index(vs: Seq<VariantSchema>)
    ensures
        variants_view(vs).len() == vs.len(),
        forall|i: int| 0 <= i < vs.len() ==> variants_view(vs)[i] == variant_view(vs[i]),
    decreases vs,
{
    if vs.len() > 0 {
        lemma_variants_view_index(vs.skip(1));
    }
}

proof fn lemma_fields_view_push(fs: Seq<FieldSchema>, f: FieldSchema)
    ensures
        fields_view(fs.push(f)) == fields_view(fs).push(field_view(f)),
    decreases fs,
{
    let whole = fs.push(f);
    if fs.len() == 0 {
        let rest = whole.skip(1);
        assert(rest =~= Seq::<FieldSchema>::empty());
        assert(fields_view(rest) =~= Seq::<FieldSchemaV>::empty());
        assert(whole[0] == f);
        assert(fields_view(whole) =~= fields_view(fs).push(field_view(f)));
    } else {
        lemma_fields_view_push(fs.skip(1), f);
        assert(whole.skip(1) =~= fs.skip(1).push(f));
        assert(fields_view(whole) =~= fields_view(fs).push(field_view(f)));
    }
}

proof fn lemma_variants_view_push(vs: Seq<VariantSchema>, v: VariantSchema)
    ensures
        variants_view(vs.push(v)) == variants_view(vs).push(variant_view(v)),
    decreases vs,
{
    let whole = vs.push(v);
    if vs.len() == 0 {
        let rest = whole.skip(1);
        assert(rest =~= Seq::<VariantSchema>::empty());
        assert(variants_view(rest) =~= Seq::<VariantSchemaV>::empty());
        assert(whole[0] == v);
        assert(variants_view(whole) =~= variants_view(vs).push(variant_view(v)));
    } else {
        lemma_variants_view_push(vs.skip(1), v);
        assert(whole.skip(1) =~= vs.skip(1).push(v));
        assert(variants_view(whole) =~= variants_view(vs).push(variant_view(v)));
    }
}

/// Well-formedness of a schema: every nested schema is well-formed and every
/// sum offers at least one variant to select.
pub open spec fn schema_wf(s: TypeSchemaV) -> bool
    decreases s,
{
    match s {
        TypeSchemaV::Leaf { .. } => true,
        TypeSchemaV::Record { fields } => forall|i: int|
            0 <= i < fields.len() ==> schema_wf(#[trigger] fields[i].nested),
        TypeSchemaV::Sum { variants } => variants.len() > 0 && forall|i: int|
            0 <= i < variants.len() ==> (#[trigger] variants[i].payload matches Some(p)
                ==> schema_wf(p.schema)),
    }
}

/// The display label of a variant: the `name` annotation when given, the tag
/// identifier's text otherwise.
pub open spec fn label_of(name: Option<Seq<char>>, tag: Seq<char>) -> Seq<char> {
    match name {
        Some(l) => l,
        None => tag,
    }
}

/// The schema denoted by a raw definition, or the first structural error met
/// while walking it: members are checked in declaration order, and within a
/// member its annotation is parsed before its shape details are used.
pub open spec fn extract_spec(d: TypeDef) -> Result<TypeSchemaV, SchemaError>
    decreases d,
{
    match d {
        TypeDef::Prim { kind } => Ok(TypeSchemaV::Leaf { kind }),
        TypeDef::Struct { fields } => match fields {
            FieldsShape::Named(fs) => match extract_fields_spec(fs@) {
                Ok(fsv) => Ok(TypeSchemaV::Record { fields: fsv }),
                Err(e) => Err(e),
            },
            _ => Err(SchemaError::UnsupportedShape),
        },
        TypeDef::Enum { variants } => if variants@.len() == 0 {
            Err(SchemaError::UnsupportedShape)
        } else {
            match extract_variants_spec(variants@) {
                Ok(vs) => Ok(TypeSchemaV::Sum { variants: vs }),
                Err(e) => Err(e),
            }
        },
    }
}

pub open spec fn extract_fields_spec(fs: Seq<RawField>) -> Result<Seq<FieldSchemaV>, SchemaError>
    decreases fs,
{
    if fs.len() == 0 {
        Ok(Seq::empty())
    } else {
        match extract_field_spec(fs[0]) {
            Err(e) => Err(e),
            Ok(f0) => match extract_fields_spec(fs.skip(1)) {
                Err(e) => Err(e),
                Ok(rest) => Ok(seq![f0] + rest),
            },
        }
    }
}

pub open spec fn extract_field_spec(f: RawField) -> Result<FieldSchemaV, SchemaError>
    decreases f,
{
    match ann_spec(f.attrs@) {
        Err(e) => Err(SchemaError::BadAnnotation(e)),
        Ok(pn) => match f.name {
            None => Err(SchemaError::UnnamedField),
            Some(nm) => match pn.0 {
                None => Err(SchemaError::MissingPrompt),
                Some(ptext) => match extract_spec(f.ty) {
                    Err(e) => Err(e),
                    Ok(nested) => Ok(FieldSchemaV { name: nm@, prompt: ptext, nested }),
                },
            },
        },
    }
}

pub open spec fn extract_variants_spec(vs: Seq<RawVariant>) -> Result<
    Seq<VariantSchemaV>,
    SchemaError,
>
    decreases vs,
{
    if vs.len() == 0 {
        Ok(Seq::empty())
    } else {
        match extract_variant_spec(vs[0]) {
            Err(e) => Err(e),
            Ok(v0) => match extract_variants_spec(vs.skip(1)) {
                Err(e) => Err(e),
                Ok(rest) => Ok(seq![v0] + rest),
            },
        }
    }
}

pub open spec fn extract_variant_spec(v: RawVariant) -> Result<VariantSchemaV, SchemaError>
    decreases v,
{
    match v.fields {
        FieldsShape::Named(_) => Err(SchemaError::UnsupportedShape),
        FieldsShape::Unnamed(pfs) => if pfs@.len() != 1 {
            Err(SchemaError::MultiFieldVariant)
        } else {
            match ann_spec(v.attrs@) {
                Err(e) => Err(SchemaError::BadAnnotation(e)),
                Ok(pn) => match pn.0 {
                    None => Err(SchemaError::MissingPrompt),
                    Some(ptext) => match extract_spec(pfs@[0].ty) {
                        Err(e) => Err(e),
                        Ok(ns) => Ok(
                            VariantSchemaV {
                                tag: v.tag@,
                                label: label_of(pn.1, v.tag@),
                                payload: Some(PayloadV { prompt: ptext, schema: ns }),
                            },
                        ),
                    },
                },
            }
        },
        FieldsShape::Unit => match ann_spec(v.attrs@) {
            Err(e) => Err(SchemaError::BadAnnotation(e)),
            Ok(pn) => Ok(
                VariantSchemaV { tag: v.tag@, label: label_of(pn.1, v.tag@), payload: None },
            ),
        },
    }
}

/// Extract the schema of a raw definition, or report the first structural
/// error. On success the schema is well-formed and is exactly what
/// `extract_spec` denotes.
pub fn extract(def: &TypeDef) -> (r: Result<TypeSchema, SchemaError>)
    ensures
        match r {
            Ok(s) => extract_spec(*def) == Ok::<TypeSchemaV, SchemaError>(schema_view(s))
                && schema_wf(schema_view(s)),
            Err(e) => extract_spec(*def) == Err::<TypeSchemaV, SchemaError>(e),
        },
    decreases *def,
{
    match def {
        TypeDef::Prim { kind } => Ok(TypeSchema::Leaf { kind: *kind }),
        TypeDef::Struct { fields } => match fields {
            FieldsShape::Named(fs) => {
                proof {
                    assert(decreases_to!(*def => *fields));
                    assert(decreases_to!(*fields => fs@));
                }
                match extract_fields(fs) {
                    Ok(out) => {
                        proof {
                            lemma_fields_view_index(out@);
                        }
                        Ok(TypeSchema::Record { fields: out })
                    },
                    Err(e) => Err(e),
                }
            },
            _ => Err(SchemaError::UnsupportedShape),
        },
        TypeDef::Enum { variants } => {
            if variants.len() == 0 {
                return Err(SchemaError::UnsupportedShape);
            }
            proof {
                assert(decreases_to!(*def => variants@));
            }
            match extract_variants(variants) {
                Ok(out) => {
                    proof {
                        lemma_variants_view_index(out@);
                    }
                    Ok(TypeSchema::Sum { variants: out })
                },
                Err(e) => Err(e),
            }
        },
    }
}

fn extract_fields(fs: &Vec<RawField>) -> (r: Result<Vec<FieldSchema>, SchemaError>)
    ensures
        match r {
            Ok(out) => extract_fields_spec(fs@) == Ok::<Seq<FieldSchemaV>, SchemaError>(
                fields_view(out@),
            ) && (forall|i: int|
                0 <= i < out@.len() ==> schema_wf(#[trigger] fields_view(out@)[i].nested)),
            Err(e) => extract_fields_spec(fs@) == Err::<Seq<FieldSchemaV>, SchemaError>(e),
        },
    decreases fs@,
{
    let mut out: Vec<FieldSchema> = Vec::new();
    let mut i: usize = 0;
    proof {
        assert(fs@.skip(0) =~= fs@);
        if extract_fields_spec(fs@) is Ok {
            assert(fields_view(out@) + extract_fields_spec(fs@)->Ok_0 =~= extract_fields_spec(
                fs@,
            )->Ok_0);
        }
    }
    while i < fs.len()
        invariant
            i <= fs@.len(),
            fields_view(out@).len() == i,
            match extract_fields_spec(fs@.skip(i as int)) {
                Ok(rest) => extract_fields_spec(fs@) == Ok::<Seq<FieldSchemaV>, SchemaError>(
                    fields_view(out@) + rest,
                ),
                Err(e) => extract_fields_spec(fs@) == Err::<Seq<FieldSchemaV>, SchemaError>(e),
            },
            forall|j: int| 0 <= j < out@.len() ==> schema_wf(#[trigger] fields_view(out@)[j].nested),
        decreases fs@.len() - i,
    {
        let ghost ts = fs@.skip(i as int);
        proof {
            assert(ts[0] == fs@[i as int]);
        }
        let f = &fs[i];
        let ann = match annotation_of_attrs(&f.attrs) {
            Ok(a) => a,
            Err(e) => {
                return Err(SchemaError::BadAnnotation(e));
            },
        };
        let nm: &String = match &f.name {
            Some(nm) => nm,
            None => {
                return Err(SchemaError::UnnamedField);
            },
        };
        let ptext: String = match ann.prompt {
            Some(p) => p,
            None => {
                return Err(SchemaError::MissingPrompt);
            },
        };
        proof {
            assert(decreases_to!(fs@ => fs@[i as int]));
            assert(decreases_to!(fs@[i as int] => fs@[i as int].ty));
        }
        let nested = match extract(&f.ty) {
            Ok(s) => s,
            Err(e) => {
                return Err(e);
            },
        };
        let built = FieldSchema { name: nm.clone(), prompt: ptext, nested };
        proof {
            assert(field_view(built) == extract_field_spec(ts[0])->Ok_0);
            lemma_fields_view_push(out@, built);
            assert(ts.skip(1) =~= fs@.skip(i + 1));
            match extract_fields_spec(ts.skip(1)) {
                Ok(rest) => {
                    assert(fields_view(out@) + (seq![field_view(built)] + rest) =~= fields_view(
                        out@,
                    ).push(field_view(built)) + rest);
                },
                Err(_) => {},
            }
        }
        out.push(built);
        proof {
            lemma_fields_view_index(out@);
        }
        i = i + 1;
    }
    proof {
        assert(fs@.skip(fs@.len() as int) =~= Seq::<RawField>::empty());
        assert(fields_view(out@) + Seq::<FieldSchemaV>::empty() =~= fields_view(out@));
    }
    Ok(out)
}

fn extract_variants(vs: &Vec<RawVariant>) -> (r: Result<Vec<VariantSchema>, SchemaError>)
    ensures
        match r {
            Ok(out) => extract_variants_spec(vs@) == Ok::<Seq<VariantSchemaV>, SchemaError>(
                variants_view(out@),
            ) && (forall|i: int|
                0 <= i < out@.len() ==> (#[trigger] variants_view(out@)[i].payload matches Some(p)
                    ==> schema_wf(p.schema))) && variants_view(out@).len() == vs@.len(),
            Err(e) => extract_variants_spec(vs@) == Err::<Seq<VariantSchemaV>, SchemaError>(e),
        },
    decreases vs@,
{
    let mut out: Vec<VariantSchema> = Vec::new();
    let mut i: usize = 0;
    proof {
        assert(vs@.skip(0) =~= vs@);
        if extract_variants_spec(vs@) is Ok {
            assert(variants_view(out@) + extract_variants_spec(vs@)->Ok_0 =~= extract_variants_spec(
                vs@,
            )->Ok_0);
        }
    }
    while i < vs.len()
        invariant
            i <= vs@.len(),
            variants_view(out@).len() == i,
            match extract_variants_spec(vs@.skip(i as int)) {
                Ok(rest) => extract_variants_spec(vs@) == Ok::<Seq<VariantSchemaV>, SchemaError>(
                    variants_view(out@) + rest,
                ),
                Err(e) => extract_variants_spec(vs@) == Err::<Seq<VariantSchemaV>, SchemaError>(e),
            },
            forall|j: int|
                0 <= j < out@.len() ==> (#[trigger] variants_view(out@)[j].payload matches Some(p)
                    ==> schema_wf(p.schema)),
        decreases vs@.len() - i,
    {
        let ghost ts = vs@.skip(i as int);
        proof {
            assert(ts[0] == vs@[i as int]);
        }
        let v = &vs[i];
        let built: VariantSchema = match &v.fields {
            FieldsShape::Named(_) => {
                return Err(SchemaError::UnsupportedShape);
            },
            FieldsShape::Unnamed(pfs) => {
                if pfs.len() != 1 {
                    return Err(SchemaError::MultiFieldVariant);
                }
                let ann = match annotation_of_attrs(&v.attrs) {
                    Ok(a) => a,
                    Err(e) => {
                        return Err(SchemaError::BadAnnotation(e));
                    },
                };
                let ptext: String = match ann.prompt {
                    Some(p) => p,
                    None => {
                        return Err(SchemaError::MissingPrompt);
                    },
                };
                proof {
                    assert(decreases_to!(vs@ => vs@[i as int]));
                    assert(decreases_to!(vs@[i as int] => vs@[i as int].fields));
                    assert(decreases_to!(vs@[i as int].fields => pfs@));
                    assert(decreases_to!(pfs@ => pfs@[0]));
                    assert(decreases_to!(pfs@[0] => pfs@[0].ty));
                }
                let ns = match extract(&pfs[0].ty) {
                    Ok(s) => s,
                    Err(e) => {
                        return Err(e);
                    },
                };
                let label: String = match ann.name {
                    Some(l) => l,
                    None => v.tag.clone(),
                };
                VariantSchema {
                    tag: v.tag.clone(),
                    label,
                    payload: Some(Payload { prompt: ptext, schema: ns }),
                }
            },
            FieldsShape::Unit => {
                let ann = match annotation_of_attrs(&v.attrs) {
                    Ok(a) => a,
                    Err(e) => {
                        return Err(SchemaError::BadAnnotation(e));
                    },
                };
                let label: String = match ann.name {
                    Some(l) => l,
                    None => v.tag.clone(),
                };
                VariantSchema { tag: v.tag.clone(), label, payload: None }
            },
        };
        proof {
            assert(variant_view(built) == extract_variant_spec(ts[0])->Ok_0);
            lemma_variants_view_push(out@, built);
            assert(ts.skip(1) =~= vs@.skip(i + 1));
            match extract_variants_spec(ts.skip(1)) {
                Ok(rest) => {
                    assert(variants_view(out@) + (seq![variant_view(built)] + rest)
                        =~= variants_view(out@).push(variant_view(built)) + rest);
                },
                Err(_) => {},
            }
        }
        out.push(built);
        proof {
            lemma_variants_view_index(out@);
        }
        i = i + 1;
    }
    proof {
        assert(vs@.skip(vs@.len() as int) =~= Seq::<RawVariant>::empty());
        assert(variants_view(out@) + Seq::<VariantSchemaV>::empty() =~= variants_view(out@));
    }
    Ok(out)
}

} // verus!
