//! Derivation of a JSON Schema document from a structural type
//! descriptor.
//!
//! A `TypeDescriptor` describes a result shape: named fields holding
//! primitives, nested shapes (inline or named and referenced), optional
//! fields, and opaque-value fields that accept any JSON value. The
//! derived schema is an object tree with `required`/`properties`
//! members, named shapes emitted once under `definitions` and referenced
//! by `$ref`; the raw generation step lowers an opaque-value field to the
//! boolean accept-anything placeholder schema, and a post-processing pass
//! replaces every such placeholder property with an explicit
//! `type: "object"` node.
use vstd::prelude::*;

use crate::json::Json;
use crate::json::JsonView;

verus! {

/// A structural description of a data shape.
pub enum TypeDescriptor {
    /// A primitive of the given JSON type name, such as `integer` or
    /// `string`.
    Primitive(String),
    /// An object with named fields.
    Object(Vec<FieldDescriptor>),
    /// An optional occurrence of the inner shape: same schema, but not
    /// listed among an object's required fields.
    Optional(Box<TypeDescriptor>),
    /// A field accepting any JSON value.
    OpaqueValue,
    /// A reference to a named shape defined alongside the root.
    Ref(String),
}

/// A named field of an object shape.
pub struct FieldDescriptor {
    pub name: String,
    pub shape: TypeDescriptor,
}

/// The error of schema derivation.
#[derive(Clone, Copy, Debug, PartialEq, Eq, Structural)]
pub enum SchemaError {
    /// The descriptor is malformed: a reference to an undefined shape
    /// name, a duplicated definition name, or a duplicated field name.
    Derivation,
    /// The schema tree could not be serialized. The serializer is total
    /// over well-formed trees, so this marks an invariant violation.
    Serialization,
}

/// The model of a shape: `Optional` layers are absorbed into the
/// `required` mark of the surrounding field, which is all they mean to
/// the schema.
pub enum ShapeView {
    Primitive(Seq<char>),
    Object(Seq<FieldView>),
    OpaqueValue,
    Ref(Seq<char>),
}

/// The model of a field: its name, whether it is required (not declared
/// `Optional`), and the model of its shape.
pub struct FieldView {
    pub name: Seq<char>,
    pub required: bool,
    pub shape: ShapeView,
}

/// The model of a descriptor.
pub open spec fn shape_view(d: TypeDescriptor) -> ShapeView
    decreases d, 2int, 0int,
{
    match d {
        TypeDescriptor::Primitive(n) => ShapeView::Primitive(n@),
        TypeDescriptor::Object(fields) => ShapeView::Object(field_views(fields@)),
        TypeDescriptor::Optional(inner) => shape_view(*inner),
        TypeDescriptor::OpaqueValue => ShapeView::OpaqueValue,
        TypeDescriptor::Ref(n) => ShapeView::Ref(n@),
    }
}

/// The models of a sequence of fields, in order.
pub open spec fn field_views(fields: Seq<FieldDescriptor>) -> Seq<FieldView>
    decreases fields, 1int, fields.len(),
{
    if fields.len() == 0 {
        Seq::empty()
    } else {
        seq![
            FieldView {
                name: fields[0].name@,
                required: !(fields[0].shape matches TypeDescriptor::Optional(_)),
                shape: shape_view(fields[0].shape),
            },
        ] + field_views(fields.skip(1))
    }
}

/// The models of the named shape definitions, in order.
pub open spec fn def_views(defs: Seq<(String, TypeDescriptor)>) -> Seq<(Seq<char>, ShapeView)>
    decreases defs, 1int, defs.len(),
{
    if defs.len() == 0 {
        Seq::empty()
    } else {
        seq![(defs[0].0@, shape_view(defs[0].1))] + def_views(defs.skip(1))
    }
}

/// The characters of the `type` key.
pub open spec fn type_chars() -> Seq<char> {
    seq!['t', 'y', 'p', 'e']
}

/// The characters of the `object` type name.
pub open spec fn object_chars() -> Seq<char> {
    seq!['o', 'b', 'j', 'e', 'c', 't']
}

/// The characters of the `required` key.
pub open spec fn required_chars() -> Seq<char> {
    seq!['r', 'e', 'q', 'u', 'i', 'r', 'e', 'd']
}

/// The characters of the `properties` key.
pub open spec fn properties_chars() -> Seq<char> {
    seq!['p', 'r', 'o', 'p', 'e', 'r', 't', 'i', 'e', 's']
}

/// The characters of the `$ref` key.
pub open spec fn ref_chars() -> Seq<char> {
    seq!['$', 'r', 'e', 'f']
}

/// The characters of the `definitions` key.
pub open spec fn definitions_chars() -> Seq<char> {
    seq!['d', 'e', 'f', 'i', 'n', 'i', 't', 'i', 'o', 'n', 's']
}

/// The characters of a `$ref` target for a definition name: the
/// `#/definitions/` prefix followed by the name.
pub open spec fn ref_target(name: Seq<char>) -> Seq<char> {
    seq!['#', '/', 'd', 'e', 'f', 'i', 'n', 'i', 't', 'i', 'o', 'n', 's', '/'] + name
}

/// The schema node that an opaque-value field is lowered to by the
/// post-processing pass: an explicit `type: "object"` constraint.
pub open spec fn object_type_node() -> JsonView {
    JsonView::Obj(seq![(type_chars(), JsonView::Str(object_chars()))])
}

/// The raw schema tree of a shape, before post-processing: an opaque
/// value becomes the boolean accept-anything placeholder.
pub open spec fn schema_of(s: ShapeView) -> JsonView
    decreases s, 3int, 0int,
{
    match s {
        ShapeView::Primitive(n) => JsonView::Obj(seq![(type_chars(), JsonView::Str(n))]),
        ShapeView::OpaqueValue => JsonView::Bool(true),
        ShapeView::Ref(n) => JsonView::Obj(seq![(ref_chars(), JsonView::Str(ref_target(n)))]),
        ShapeView::Object(fields) => JsonView::Obj(
            seq![(type_chars(), JsonView::Str(object_chars()))] + (if required_names(
                fields,
            ).len() > 0 {
                seq![(required_chars(), JsonView::Arr(required_names(fields)))]
            } else {
                Seq::empty()
            }) + seq![(properties_chars(), JsonView::Obj(property_members(fields)))],
        ),
    }
}

/// The names of the required fields, in field order, as JSON strings.
pub open spec fn required_names(fields: Seq<FieldView>) -> Seq<JsonView>
    decreases fields, 1int, fields.len(),
{
    if fields.len() == 0 {
        Seq::empty()
    } else {
        (if fields[0].required {
            seq![JsonView::Str(fields[0].name)]
        } else {
            Seq::empty()
        }) + required_names(fields.skip(1))
    }
}

/// The members of a `properties` object: one per field, in field order.
pub open spec fn property_members(fields: Seq<FieldView>) -> Seq<(Seq<char>, JsonView)>
    decreases fields, 2int, fields.len(),
{
    if fields.len() == 0 {
        Seq::empty()
    } else {
        seq![(fields[0].name, schema_of(fields[0].shape))] + property_members(fields.skip(1))
    }
}

/// The members of the `definitions` object: one per named shape, in
/// definition order.
pub open spec fn definition_members(defs: Seq<(Seq<char>, ShapeView)>) -> Seq<
    (Seq<char>, JsonView),
>
    decreases defs, 4int, defs.len(),
{
    if defs.len() == 0 {
        Seq::empty()
    } else {
        seq![(defs[0].0, schema_of(defs[0].1))] + definition_members(defs.skip(1))
    }
}

/// The raw schema document of a root shape and its named definitions:
/// the root's schema, with the definitions appended under a
/// `definitions` member when there are any and the root schema is an
/// object node.
pub open spec fn root_schema(root: ShapeView, defs: Seq<(Seq<char>, ShapeView)>) -> JsonView {
    let base = schema_of(root);
    if defs.len() > 0 {
        match base {
            JsonView::Obj(ms) => JsonView::Obj(
                ms + seq![(definitions_chars(), JsonView::Obj(definition_members(defs)))],
            ),
            _ => base,
        }
    } else {
        base
    }
}

/// The post-processing pass over a schema tree: inside every
/// `properties` object, at every level, a boolean accept-anything
/// placeholder is replaced by the explicit `type: "object"` node; all
/// other structure is kept. The value of a `definitions` member is a
/// map of schemas, so each of its entries is fixed as a whole schema,
/// whatever the entry is named.
pub open spec fn fix_node(j: JsonView) -> JsonView
    decreases j, 3int, 0int,
{
    match j {
        JsonView::Obj(ms) => JsonView::Obj(fix_obj_members(ms)),
        JsonView::Arr(items) => JsonView::Arr(fix_items(items)),
        _ => j,
    }
}

/// `fix_node` over the items of an array.
pub open spec fn fix_items(items: Seq<JsonView>) -> Seq<JsonView>
    decreases items, 1int, items.len(),
{
    if items.len() == 0 {
        Seq::empty()
    } else {
        seq![fix_node(items[0])] + fix_items(items.skip(1))
    }
}

/// `fix_node` over the members of an object: the value of a
/// `properties` member is fixed as a property map, the value of a
/// `definitions` member as a map of schemas, every other value as an
/// ordinary node.
pub open spec fn fix_obj_members(ms: Seq<(Seq<char>, JsonView)>) -> Seq<(Seq<char>, JsonView)>
    decreases ms, 1int, ms.len(),
{
    if ms.len() == 0 {
        Seq::empty()
    } else {
        seq![
            (
                ms[0].0,
                if ms[0].0 == properties_chars() {
                    fix_props(ms[0].1)
                } else if ms[0].0 == definitions_chars() {
                    fix_defs(ms[0].1)
                } else {
                    fix_node(ms[0].1)
                },
            ),
        ] + fix_obj_members(ms.skip(1))
    }
}

/// The fix of a `properties` value: each property whose schema is the
/// placeholder `true` becomes the `type: "object"` node, every other
/// property schema is fixed recursively.
pub open spec fn fix_props(p: JsonView) -> JsonView
    decreases p, 3int, 1int,
{
    match p {
        JsonView::Obj(ms) => JsonView::Obj(fix_prop_members(ms)),
        _ => fix_node(p),
    }
}

/// `fix_props` member by member.
pub open spec fn fix_prop_members(ms: Seq<(Seq<char>, JsonView)>) -> Seq<(Seq<char>, JsonView)>
    decreases ms, 1int, ms.len(),
{
    if ms.len() == 0 {
        Seq::empty()
    } else {
        seq![
            (
                ms[0].0,
                if ms[0].1 == JsonView::Bool(true) {
                    object_type_node()
                } else {
                    fix_node(ms[0].1)
                },
            ),
        ] + fix_prop_members(ms.skip(1))
    }
}

/// The fix of a `definitions` value: each entry holds a whole schema,
/// fixed as such whatever the entry is named.
pub open spec fn fix_defs(p: JsonView) -> JsonView
    decreases p, 3int, 2int,
{
    match p {
        JsonView::Obj(ms) => JsonView::Obj(fix_def_members(ms)),
        _ => fix_node(p),
    }
}

/// `fix_defs` member by member.
pub open spec fn fix_def_members(ms: Seq<(Seq<char>, JsonView)>) -> Seq<(Seq<char>, JsonView)>
    decreases ms, 2int, ms.len(),
{
    if ms.len() == 0 {
        Seq::empty()
    } else {
        seq![(ms[0].0, fix_node(ms[0].1))] + fix_def_members(ms.skip(1))
    }
}

/// The finished schema document of a root shape and its definitions:
/// the raw document after the placeholder-replacing pass. It never
/// holds a top-level `$schema` or `title` key, since the builder emits
/// neither.
pub open spec fn derived_schema(root: ShapeView, defs: Seq<(Seq<char>, ShapeView)>) -> JsonView {
    fix_node(root_schema(root, defs))
}

/// No two elements of `names` are equal.
pub open spec fn distinct_names(names: Seq<Seq<char>>) -> bool {
    forall|i: int, j: int| 0 <= i < j < names.len() ==> names[i] != names[j]
}

/// Whether a shape is well formed against the definition names: every
/// reference resolves, and no object has two fields of one name.
pub open spec fn wf_shape(s: ShapeView, names: Seq<Seq<char>>) -> bool
    decreases s, 3int, 0int,
{
    match s {
        ShapeView::Primitive(_) => true,
        ShapeView::OpaqueValue => true,
        ShapeView::Ref(n) => names.contains(n),
        ShapeView::Object(fields) => distinct_names(
            Seq::new(fields.len(), |i: int| fields[i].name),
        ) && wf_fields(fields, names),
    }
}

/// `wf_shape` over each field's shape.
pub open spec fn wf_fields(fields: Seq<FieldView>, names: Seq<Seq<char>>) -> bool
    decreases fields, 1int, fields.len(),
{
    if fields.len() == 0 {
        true
    } else {
        wf_shape(fields[0].shape, names) && wf_fields(fields.skip(1), names)
    }
}

/// The names of the definitions, in order.
pub open spec fn def_names(defs: Seq<(Seq<char>, ShapeView)>) -> Seq<Seq<char>> {
    Seq::new(defs.len(), |i: int| defs[i].0)
}

/// `wf_shape` over each definition's shape.
pub open spec fn wf_defs(defs: Seq<(Seq<char>, ShapeView)>, names: Seq<Seq<char>>) -> bool
    decreases defs, 4int, defs.len(),
{
    if defs.len() == 0 {
        true
    } else {
        wf_shape(defs[0].1, names) && wf_defs(defs.skip(1), names)
    }
}

/// Whether a root shape and its definitions are well formed: definition
/// names are distinct, and every reference in the root or in a
/// definition resolves to a definition name.
pub open spec fn wf_descriptor(root: ShapeView, defs: Seq<(Seq<char>, ShapeView)>) -> bool {
    &&& distinct_names(def_names(defs))
    &&& wf_shape(root, def_names(defs))
    &&& wf_defs(defs, def_names(defs))
}

/// The views of a sequence of strings.
pub open spec fn string_views(v: Seq<String>) -> Seq<Seq<char>> {
    Seq::new(v.len(), |i: int| v[i]@)
}

/// `field_views` element by element: it keeps length and order.
pub proof fn lemma_field_views_index(fields: Seq<FieldDescriptor>)
    ensures
        field_views(fields).len() == fields.len(),
        forall|i: int|
            0 <= i < fields.len() ==> field_views(fields)[i] == (FieldView {
                name: fields[i].name@,
                required: !(fields[i].shape matches TypeDescriptor::Optional(_)),
                shape: shape_view(fields[i].shape),
            }),
    decreases fields.len(),
{
    if fields.len() > 0 {
        lemma_field_views_index(fields.skip(1));
        assert forall|i: int| 0 <= i < fields.len() implies field_views(fields)[i] == (FieldView {
            name: fields[i].name@,
            required: !(fields[i].shape matches TypeDescriptor::Optional(_)),
            shape: shape_view(fields[i].shape),
        }) by {
            if i > 0 {
                assert(fields.skip(1)[i - 1] == fields[i]);
            }
        }
    }
}

/// `def_views` element by element: it keeps length, names and order.
pub proof fn lemma_def_views_index(defs: Seq<(String, TypeDescriptor)>)
    ensures
        def_views(defs).len() == defs.len(),
        forall|i: int|
            0 <= i < defs.len() ==> def_views(defs)[i] == (defs[i].0@, shape_view(defs[i].1)),
    decreases defs.len(),
{
    if defs.len() > 0 {
        lemma_def_views_index(defs.skip(1));
        assert forall|i: int| 0 <= i < defs.len() implies def_views(defs)[i] == (
        defs[i].0@,
        shape_view(defs[i].1),
        ) by {
            if i > 0 {
                assert(defs.skip(1)[i - 1] == defs[i]);
            }
        }
    }
}

/// `wf_fields` says exactly that each field's shape is well formed.
pub proof fn lemma_wf_fields_index(fields: Seq<FieldView>, names: Seq<Seq<char>>)
    ensures
        wf_fields(fields, names) <==> (forall|i: int|
            0 <= i < fields.len() ==> wf_shape(#[trigger] fields[i].shape, names)),
    decreases fields.len(),
{
    if fields.len() > 0 {
        lemma_wf_fields_index(fields.skip(1), names);
        assert(fields.skip(1).len() == fields.len() - 1);
        assert(forall|i: int| 0 <= i < fields.len() - 1 ==> fields.skip(1)[i] == fields[i + 1]);
        if wf_fields(fields, names) {
            assert forall|i: int| 0 <= i < fields.len() implies wf_shape(
                #[trigger] fields[i].shape,
                names,
            ) by {
                if i > 0 {
                    assert(fields.skip(1)[i - 1] == fields[i]);
                    assert(wf_shape(fields.skip(1)[i - 1].shape, names));
                }
            }
        }
    }
}

/// `wf_defs` says exactly that each definition's shape is well formed.
pub proof fn lemma_wf_defs_index(defs: Seq<(Seq<char>, ShapeView)>, names: Seq<Seq<char>>)
    ensures
        wf_defs(defs, names) <==> (forall|i: int|
            0 <= i < defs.len() ==> wf_shape(#[trigger] defs[i].1, names)),
    decreases defs.len(),
{
    if defs.len() > 0 {
        lemma_wf_defs_index(defs.skip(1), names);
        assert(forall|i: int| 0 <= i < defs.len() - 1 ==> defs.skip(1)[i] == defs[i + 1]);
        if wf_defs(defs, names) {
            assert forall|i: int| 0 <= i < defs.len() implies wf_shape(
                #[trigger] defs[i].1,
                names,
            ) by {
                if i > 0 {
                    assert(defs.skip(1)[i - 1] == defs[i]);
                    assert(wf_shape(defs.skip(1)[i - 1].1, names));
                }
            }
        }
    }
}

/// Whether `names` holds a string whose characters are those of `n`.
#[verifier::loop_isolation(false)]
fn contains_string(names: &Vec<String>, n: &String) -> (r: bool)
    ensures
        r == string_views(names@).contains(n@),
{
    let mut i: usize = 0;
    while i < names.len()
        invariant
            i <= names@.len(),
            forall|k: int| 0 <= k < i ==> string_views(names@)[k] != n@,
        decreases names@.len() - i,
    {
        if names[i] == *n {
            assert(string_views(names@)[i as int] == n@);
            return true;
        }
        i += 1;
    }
    assert(!string_views(names@).contains(n@));
    false
}

/// Whether no two strings of `names` are equal.
#[verifier::loop_isolation(false)]
fn distinct_strings(names: &Vec<String>) -> (r: bool)
    ensures
        r == distinct_names(string_views(names@)),
{
    let mut i: usize = 0;
    while i < names.len()
        invariant
            i <= names@.len(),
            forall|p: int, q: int| 0 <= p < q < i ==> string_views(names@)[p] != string_views(
                names@,
            )[q],
        decreases names@.len() - i,
    {
        let mut k: usize = 0;
        while k < i
            invariant
                k <= i < names@.len(),
                forall|p: int, q: int| 0 <= p < q < i ==> string_views(names@)[p] != string_views(
                    names@,
                )[q],
                forall|p: int| 0 <= p < k ==> string_views(names@)[p] != string_views(
                    names@,
                )[i as int],
            decreases i - k,
        {
            if names[k] == names[i] {
                assert(string_views(names@)[k as int] == string_views(names@)[i as int]);
                return false;
            }
            k += 1;
        }
        i += 1;
    }
    true
}

/// Whether the shape is well formed against the definition names.
#[verifier::loop_isolation(false)]
fn check_shape(s: &TypeDescriptor, names: &Vec<String>) -> (r: bool)
    ensures
        r == wf_shape(shape_view(*s), string_views(names@)),
    decreases *s,
{
    match s {
        TypeDescriptor::Primitive(_) => true,
        TypeDescriptor::OpaqueValue => true,
        TypeDescriptor::Ref(n) => contains_string(names, n),
        TypeDescriptor::Optional(inner) => {
            proof {
                assert(decreases_to!(*s => (*s)->Optional_0));
            }
            check_shape(inner, names)
        },
        TypeDescriptor::Object(fields) => {
            let ghost fvs = field_views(fields@);
            proof {
                lemma_field_views_index(fields@);
            }
            let mut fnames: Vec<String> = Vec::new();
            let mut i: usize = 0;
            while i < fields.len()
                invariant
                    i <= fields@.len(),
                    fnames@.len() == i,
                    forall|k: int| 0 <= k < i ==> fnames@[k]@ == fvs[k].name,
                decreases fields@.len() - i,
            {
                fnames.push(fields[i].name.clone());
                i += 1;
            }
            if !distinct_strings(&fnames) {
                proof {
                    assert(string_views(fnames@) =~= Seq::new(fvs.len(), |k: int| fvs[k].name));
                }
                return false;
            }
            proof {
                assert(string_views(fnames@) =~= Seq::new(fvs.len(), |k: int| fvs[k].name));
                lemma_wf_fields_index(fvs, string_views(names@));
            }
            let mut k: usize = 0;
            while k < fields.len()
                invariant
                    k <= fields@.len(),
                    forall|p: int|
                        0 <= p < k ==> wf_shape(#[trigger] fvs[p].shape, string_views(names@)),
                decreases fields@.len() - k,
            {
                proof {
                    assert(decreases_to!(*s => (*s)->Object_0));
                    assert((*s)->Object_0 == *fields);
                    assert(decreases_to!(*fields => fields@));
                    assert(decreases_to!(fields@ => fields@[k as int]));
                    assert(decreases_to!(fields@[k as int] => fields@[k as int].shape));
                }
                if !check_shape(&fields[k].shape, names) {
                    proof {
                        assert(!wf_shape(fvs[k as int].shape, string_views(names@)));
                        assert(!wf_fields(fvs, string_views(names@)));
                    }
                    return false;
                }
                k += 1;
            }
            true
        },
    }
}

/// Whether the root shape and its definitions are well formed: distinct
/// definition names, every reference resolving to one of them, and no
/// object anywhere with two fields of one name.
#[verifier::loop_isolation(false)]
pub fn check_descriptor(root: &TypeDescriptor, defs: &Vec<(String, TypeDescriptor)>) -> (r: bool)
    ensures
        r == wf_descriptor(shape_view(*root), def_views(defs@)),
{
    let ghost dvs = def_views(defs@);
    proof {
        lemma_def_views_index(defs@);
    }
    let mut names: Vec<String> = Vec::new();
    let mut i: usize = 0;
    while i < defs.len()
        invariant
            i <= defs@.len(),
            names@.len() == i,
            forall|k: int| 0 <= k < i ==> names@[k]@ == dvs[k].0,
        decreases defs@.len() - i,
    {
        names.push(defs[i].0.clone());
        i += 1;
    }
    proof {
        assert(string_views(names@) =~= def_names(dvs));
    }
    if !distinct_strings(&names) {
        return false;
    }
    if !check_shape(root, &names) {
        return false;
    }
    proof {
        lemma_wf_defs_index(dvs, def_names(dvs));
    }
    let mut k: usize = 0;
    while k < defs.len()
        invariant
            k <= defs@.len(),
            forall|p: int| 0 <= p < k ==> wf_shape(#[trigger] dvs[p].1, def_names(dvs)),
        decreases defs@.len() - k,
    {
        if !check_shape(&defs[k].1, &names) {
            proof {
                assert(!wf_shape(dvs[k as int].1, def_names(dvs)));
                assert(!wf_defs(dvs, def_names(dvs)));
            }
            return false;
        }
        k += 1;
    }
    true
}

/// Builds the raw schema tree of a shape.
#[verifier::loop_isolation(false)]
#[verifier::rlimit(60)]
fn build_shape(s: &TypeDescriptor) -> (r: Json)
    ensures
        crate::json::json_view(r) == schema_of(shape_view(*s)),
    decreases *s,
{
    match s {
        TypeDescriptor::Primitive(n) => {
            let mut ms: Vec<(String, Json)> = Vec::new();
            ms.push((String::from_str("type"), Json::Str(n.clone())));
            let r = Json::Obj(ms);
            proof {
                reveal_strlit("type");
                assert("type"@ =~= type_chars());
                crate::json::lemma_json_member_views_index(ms@);
                assert(crate::json::json_member_views(ms@) =~= seq![
                    (type_chars(), JsonView::Str(n@)),
                ]);
            }
            r
        },
        TypeDescriptor::OpaqueValue => Json::Bool(true),
        TypeDescriptor::Ref(n) => {
            let mut target = String::from_str("#/definitions/");
            target.append(n.as_str());
            let mut ms: Vec<(String, Json)> = Vec::new();
            ms.push((String::from_str("$ref"), Json::Str(target)));
            let r = Json::Obj(ms);
            proof {
                reveal_strlit("#/definitions/");
                reveal_strlit("$ref");
                assert("$ref"@ =~= ref_chars());
                crate::json::lemma_json_member_views_index(ms@);
                assert(ms@[0].1->Str_0@ =~= ref_target(n@));
                assert(crate::json::json_member_views(ms@) =~= seq![
                    (ref_chars(), JsonView::Str(ref_target(n@))),
                ]);
            }
            r
        },
        TypeDescriptor::Optional(inner) => {
            proof {
                assert(decreases_to!(*s => (*s)->Optional_0));
            }
            build_shape(inner)
        },
        TypeDescriptor::Object(fields) => {
            let ghost fvs = field_views(fields@);
            proof {
                lemma_field_views_index(fields@);
            }
            let mut required: Vec<Json> = Vec::new();
            let mut props: Vec<(String, Json)> = Vec::new();
            let mut i: usize = 0;
            proof {
                assert(fvs.skip(0) =~= fvs);
                assert(crate::json::json_views(required@) + required_names(fvs.skip(0))
                    =~= required_names(fvs));
                assert(crate::json::json_member_views(props@) + property_members(fvs.skip(0))
                    =~= property_members(fvs));
            }
            while i < fields.len()
                invariant
                    i <= fields@.len(),
                    crate::json::json_views(required@) + required_names(fvs.skip(i as int))
                        == required_names(fvs),
                    crate::json::json_member_views(props@) + property_members(fvs.skip(i as int))
                        == property_members(fvs),
                decreases fields@.len() - i,
            {
                let ghost req0 = required@;
                let ghost props0 = props@;
                let ghost rest = fvs.skip(i as int);
                proof {
                    assert(rest[0] == fvs[i as int]);
                    assert(rest.skip(1) =~= fvs.skip(i + 1));
                }
                let is_required: bool = match &fields[i].shape {
                    TypeDescriptor::Optional(_) => false,
                    _ => true,
                };
                if is_required {
                    required.push(Json::Str(fields[i].name.clone()));
                }
                proof {
                    crate::json::lemma_json_views_index(req0);
                    crate::json::lemma_json_views_index(required@);
                    assert(crate::json::json_views(required@) =~= crate::json::json_views(req0)
                        + (if rest[0].required {
                        seq![JsonView::Str(rest[0].name)]
                    } else {
                        Seq::empty()
                    }));
                    assert(crate::json::json_views(required@) + required_names(fvs.skip(i + 1))
                        =~= required_names(fvs));
                }
                proof {
                    assert(decreases_to!(*s => (*s)->Object_0));
                    assert((*s)->Object_0 == *fields);
                    assert(decreases_to!(*fields => fields@));
                    assert(decreases_to!(fields@ => fields@[i as int]));
                    assert(decreases_to!(fields@[i as int] => fields@[i as int].shape));
                }
                let sub = build_shape(&fields[i].shape);
                props.push((fields[i].name.clone(), sub));
                proof {
                    crate::json::lemma_json_member_views_index(props0);
                    crate::json::lemma_json_member_views_index(props@);
                    assert(crate::json::json_member_views(props@)
                        =~= crate::json::json_member_views(props0) + seq![
                        (rest[0].name, schema_of(rest[0].shape)),
                    ]);
                    assert(crate::json::json_member_views(props@) + property_members(
                        fvs.skip(i + 1),
                    ) =~= property_members(fvs));
                }
                i += 1;
            }
            proof {
                assert(fvs.skip(fields@.len() as int) =~= Seq::<FieldView>::empty());
                assert(crate::json::json_views(required@) =~= required_names(fvs));
                assert(crate::json::json_member_views(props@) =~= property_members(fvs));
            }
            let mut ms: Vec<(String, Json)> = Vec::new();
            ms.push((String::from_str("type"), Json::Str(String::from_str("object"))));
            if required.len() > 0 {
                ms.push((String::from_str("required"), Json::Arr(required)));
            }
            ms.push((String::from_str("properties"), Json::Obj(props)));
            let r = Json::Obj(ms);
            proof {
                reveal_strlit("type");
                reveal_strlit("object");
                reveal_strlit("required");
                reveal_strlit("properties");
                assert("type"@ =~= type_chars());
                assert("object"@ =~= object_chars());
                assert("required"@ =~= required_chars());
                assert("properties"@ =~= properties_chars());
                crate::json::lemma_json_member_views_index(ms@);
                assert(crate::json::json_member_views(ms@) =~= seq![
                    (type_chars(), JsonView::Str(object_chars())),
                ] + (if required_names(fvs).len() > 0 {
                    seq![(required_chars(), JsonView::Arr(required_names(fvs)))]
                } else {
                    Seq::empty()
                }) + seq![(properties_chars(), JsonView::Obj(property_members(fvs)))]);
            }
            r
        },
    }
}

/// Builds the explicit `type: "object"` node.
fn build_object_type_node() -> (r: Json)
    ensures
        crate::json::json_view(r) == object_type_node(),
{
    let mut ms: Vec<(String, Json)> = Vec::new();
    ms.push((String::from_str("type"), Json::Str(String::from_str("object"))));
    let r = Json::Obj(ms);
    proof {
        reveal_strlit("type");
        reveal_strlit("object");
        assert("type"@ =~= type_chars());
        assert("object"@ =~= object_chars());
        crate::json::lemma_json_member_views_index(ms@);
        assert(crate::json::json_member_views(ms@) =~= seq![
            (type_chars(), JsonView::Str(object_chars())),
        ]);
    }
    r
}

/// The post-processing pass, as a function of the tree.
#[verifier::loop_isolation(false)]
#[verifier::rlimit(60)]
fn fix_json(j: &Json) -> (r: Json)
    ensures
        crate::json::json_view(r) == fix_node(crate::json::json_view(*j)),
    decreases *j, 3int, 0int,
{
    match j {
        Json::Bool(b) => Json::Bool(*b),
        Json::Str(s) => Json::Str(s.clone()),
        Json::Arr(items) => {
            let ghost vs = crate::json::json_views(items@);
            proof {
                crate::json::lemma_json_views_index(items@);
            }
            let mut out: Vec<Json> = Vec::new();
            let mut i: usize = 0;
            proof {
                assert(vs.skip(0) =~= vs);
                assert(crate::json::json_views(out@) + fix_items(vs.skip(0)) =~= fix_items(vs));
            }
            while i < items.len()
                invariant
                    i <= items@.len(),
                    crate::json::json_views(out@) + fix_items(vs.skip(i as int)) == fix_items(vs),
                decreases items@.len() - i,
            {
                let ghost out0 = out@;
                let ghost rest = vs.skip(i as int);
                proof {
                    assert(rest[0] == vs[i as int]);
                    assert(rest.skip(1) =~= vs.skip(i + 1));
                    assert(decreases_to!(*j => (*j)->Arr_0));
                    assert((*j)->Arr_0 == *items);
                    assert(decreases_to!(*items => items@));
                    assert(decreases_to!(items@ => items@[i as int]));
                }
                let sub = fix_json(&items[i]);
                out.push(sub);
                proof {
                    crate::json::lemma_json_views_index(out0);
                    crate::json::lemma_json_views_index(out@);
                    assert(crate::json::json_views(out@) =~= crate::json::json_views(out0)
                        + seq![fix_node(rest[0])]);
                    assert(crate::json::json_views(out@) + fix_items(vs.skip(i + 1))
                        =~= fix_items(vs));
                }
                i += 1;
            }
            proof {
                assert(vs.skip(items@.len() as int) =~= Seq::<JsonView>::empty());
                assert(crate::json::json_views(out@) =~= fix_items(vs));
            }
            Json::Arr(out)
        },
        Json::Obj(members) => {
            let ghost vs = crate::json::json_member_views(members@);
            proof {
                crate::json::lemma_json_member_views_index(members@);
            }
            let prop_key = String::from_str("properties");
            let defs_key = String::from_str("definitions");
            proof {
                reveal_strlit("properties");
                reveal_strlit("definitions");
                assert(prop_key@ =~= properties_chars());
                assert(defs_key@ =~= definitions_chars());
            }
            let mut out: Vec<(String, Json)> = Vec::new();
            let mut i: usize = 0;
            proof {
                assert(vs.skip(0) =~= vs);
                assert(crate::json::json_member_views(out@) + fix_obj_members(vs.skip(0))
                    =~= fix_obj_members(vs));
            }
            while i < members.len()
                invariant
                    i <= members@.len(),
                    prop_key@ == properties_chars(),
                    defs_key@ == definitions_chars(),
                    crate::json::json_member_views(out@) + fix_obj_members(vs.skip(i as int))
                        == fix_obj_members(vs),
                decreases members@.len() - i,
            {
                let ghost out0 = out@;
                let ghost rest = vs.skip(i as int);
                proof {
                    assert(rest[0] == vs[i as int]);
                    assert(rest.skip(1) =~= vs.skip(i + 1));
                    assert(decreases_to!(*j => (*j)->Obj_0));
                    assert((*j)->Obj_0 == *members);
                    assert(decreases_to!(*members => members@));
                    assert(decreases_to!(members@ => members@[i as int]));
                    assert(decreases_to!(members@[i as int] => members@[i as int].1));
                }
                let sub: Json = if members[i].0 == prop_key {
                    fix_props_json(&members[i].1)
                } else if members[i].0 == defs_key {
                    fix_defs_json(&members[i].1)
                } else {
                    fix_json(&members[i].1)
                };
                out.push((members[i].0.clone(), sub));
                proof {
                    crate::json::lemma_json_member_views_index(out0);
                    crate::json::lemma_json_member_views_index(out@);
                    assert(crate::json::json_member_views(out@)
                        =~= crate::json::json_member_views(out0) + seq![
                        (
                            rest[0].0,
                            if rest[0].0 == properties_chars() {
                                fix_props(rest[0].1)
                            } else if rest[0].0 == definitions_chars() {
                                fix_defs(rest[0].1)
                            } else {
                                fix_node(rest[0].1)
                            },
                        ),
                    ]);
                    assert(crate::json::json_member_views(out@) + fix_obj_members(vs.skip(i + 1))
                        =~= fix_obj_members(vs));
                }
                i += 1;
            }
            proof {
                assert(vs.skip(members@.len() as int) =~= Seq::<(Seq<char>, JsonView)>::empty());
                assert(crate::json::json_member_views(out@) =~= fix_obj_members(vs));
            }
            Json::Obj(out)
        },
    }
}

/// The fix of a `properties` value: placeholder properties become the
/// explicit `type: "object"` node.
#[verifier::loop_isolation(false)]
#[verifier::rlimit(60)]
fn fix_props_json(p: &Json) -> (r: Json)
    ensures
        crate::json::json_view(r) == fix_props(crate::json::json_view(*p)),
    decreases *p, 3int, 1int,
{
    match p {
        Json::Obj(members) => {
            let ghost vs = crate::json::json_member_views(members@);
            proof {
                crate::json::lemma_json_member_views_index(members@);
            }
            let mut out: Vec<(String, Json)> = Vec::new();
            let mut i: usize = 0;
            proof {
                assert(vs.skip(0) =~= vs);
                assert(crate::json::json_member_views(out@) + fix_prop_members(vs.skip(0))
                    =~= fix_prop_members(vs));
            }
            while i < members.len()
                invariant
                    i <= members@.len(),
                    crate::json::json_member_views(out@) + fix_prop_members(vs.skip(i as int))
                        == fix_prop_members(vs),
                decreases members@.len() - i,
            {
                let ghost out0 = out@;
                let ghost rest = vs.skip(i as int);
                proof {
                    assert(rest[0] == vs[i as int]);
                    assert(rest.skip(1) =~= vs.skip(i + 1));
                    assert(decreases_to!(*p => (*p)->Obj_0));
                    assert((*p)->Obj_0 == *members);
                    assert(decreases_to!(*members => members@));
                    assert(decreases_to!(members@ => members@[i as int]));
                    assert(decreases_to!(members@[i as int] => members@[i as int].1));
                }
                let is_placeholder: bool = match &members[i].1 {
                    Json::Bool(b) => *b,
                    _ => false,
                };
                let sub: Json = if is_placeholder {
                    build_object_type_node()
                } else {
                    fix_json(&members[i].1)
                };
                out.push((members[i].0.clone(), sub));
                proof {
                    crate::json::lemma_json_member_views_index(out0);
                    crate::json::lemma_json_member_views_index(out@);
                    assert(crate::json::json_member_views(out@)
                        =~= crate::json::json_member_views(out0) + seq![
                        (
                            rest[0].0,
                            if rest[0].1 == JsonView::Bool(true) {
                                object_type_node()
                            } else {
                                fix_node(rest[0].1)
                            },
                        ),
                    ]);
                    assert(crate::json::json_member_views(out@) + fix_prop_members(vs.skip(i + 1))
                        =~= fix_prop_members(vs));
                }
                i += 1;
            }
            proof {
                assert(vs.skip(members@.len() as int) =~= Seq::<(Seq<char>, JsonView)>::empty());
                assert(crate::json::json_member_views(out@) =~= fix_prop_members(vs));
            }
            Json::Obj(out)
        },
        _ => fix_json(p),
    }
}

/// The fix of a `definitions` value: each entry is a whole schema,
/// fixed as such whatever the entry is named.
#[verifier::loop_isolation(false)]
#[verifier::rlimit(60)]
fn fix_defs_json(p: &Json) -> (r: Json)
    ensures
        crate::json::json_view(r) == fix_defs(crate::json::json_view(*p)),
    decreases *p, 3int, 2int,
{
    match p {
        Json::Obj(members) => {
            let ghost vs = crate::json::json_member_views(members@);
            proof {
                crate::json::lemma_json_member_views_index(members@);
            }
            let mut out: Vec<(String, Json)> = Vec::new();
            let mut i: usize = 0;
            proof {
                assert(vs.skip(0) =~= vs);
                assert(crate::json::json_member_views(out@) + fix_def_members(vs.skip(0))
                    =~= fix_def_members(vs));
            }
            while i < members.len()
                invariant
                    i <= members@.len(),
                    crate::json::json_member_views(out@) + fix_def_members(vs.skip(i as int))
                        == fix_def_members(vs),
                decreases members@.len() - i,
            {
                let ghost out0 = out@;
                let ghost rest = vs.skip(i as int);
                proof {
                    assert(rest[0] == vs[i as int]);
                    assert(rest.skip(1) =~= vs.skip(i + 1));
                    assert(decreases_to!(*p => (*p)->Obj_0));
                    assert((*p)->Obj_0 == *members);
                    assert(decreases_to!(*members => members@));
                    assert(decreases_to!(members@ => members@[i as int]));
                    assert(decreases_to!(members@[i as int] => members@[i as int].1));
                }
                let sub = fix_json(&members[i].1);
                out.push((members[i].0.clone(), sub));
                proof {
                    crate::json::lemma_json_member_views_index(out0);
                    crate::json::lemma_json_member_views_index(out@);
                    assert(crate::json::json_member_views(out@)
                        =~= crate::json::json_member_views(out0) + seq![
                        (rest[0].0, fix_node(rest[0].1)),
                    ]);
                    assert(crate::json::json_member_views(out@) + fix_def_members(vs.skip(i + 1))
                        =~= fix_def_members(vs));
                }
                i += 1;
            }
            proof {
                assert(vs.skip(members@.len() as int) =~= Seq::<(Seq<char>, JsonView)>::empty());
                assert(crate::json::json_member_views(out@) =~= fix_def_members(vs));
            }
            Json::Obj(out)
        },
        _ => fix_json(p),
    }
}

/// Replaces, inside every `properties` object at every level of the
/// schema tree, each boolean accept-anything placeholder with an
/// explicit `type: "object"` node; everything else is kept as it is.
pub fn fix_value_schema(schema: &mut Json)
    ensures
        crate::json::json_view(*final(schema)) == fix_node(crate::json::json_view(*old(schema))),
{
    let fixed = fix_json(schema);
    *schema = fixed;
}

/// Builds the raw schema document of a root shape and its definitions.
#[verifier::loop_isolation(false)]
#[verifier::rlimit(60)]
fn build_root(root: &TypeDescriptor, defs: &Vec<(String, TypeDescriptor)>) -> (r: Json)
    ensures
        crate::json::json_view(r) == root_schema(shape_view(*root), def_views(defs@)),
{
    let base = build_shape(root);
    if defs.len() == 0 {
        return base;
    }
    let ghost dvs = def_views(defs@);
    proof {
        lemma_def_views_index(defs@);
    }
    let mut dm: Vec<(String, Json)> = Vec::new();
    let mut i: usize = 0;
    proof {
        assert(dvs.skip(0) =~= dvs);
        assert(crate::json::json_member_views(dm@) + definition_members(dvs.skip(0))
            =~= definition_members(dvs));
    }
    while i < defs.len()
        invariant
            i <= defs@.len(),
            crate::json::json_member_views(dm@) + definition_members(dvs.skip(i as int))
                == definition_members(dvs),
        decreases defs@.len() - i,
    {
        let ghost dm0 = dm@;
        let ghost rest = dvs.skip(i as int);
        proof {
            assert(rest[0] == dvs[i as int]);
            assert(rest.skip(1) =~= dvs.skip(i + 1));
        }
        let sub = build_shape(&defs[i].1);
        dm.push((defs[i].0.clone(), sub));
        proof {
            crate::json::lemma_json_member_views_index(dm0);
            crate::json::lemma_json_member_views_index(dm@);
            assert(crate::json::json_member_views(dm@) =~= crate::json::json_member_views(dm0)
                + seq![(rest[0].0, schema_of(rest[0].1))]);
            assert(crate::json::json_member_views(dm@) + definition_members(dvs.skip(i + 1))
                =~= definition_members(dvs));
        }
        i += 1;
    }
    proof {
        assert(dvs.skip(defs@.len() as int) =~= Seq::<(Seq<char>, ShapeView)>::empty());
        assert(crate::json::json_member_views(dm@) =~= definition_members(dvs));
    }
    match base {
        Json::Obj(ms) => {
            let ghost ms0 = ms@;
            let mut ms = ms;
            ms.push((String::from_str("definitions"), Json::Obj(dm)));
            let r = Json::Obj(ms);
            proof {
                reveal_strlit("definitions");
                assert("definitions"@ =~= definitions_chars());
                crate::json::lemma_json_member_views_index(ms0);
                crate::json::lemma_json_member_views_index(ms@);
                assert(crate::json::json_member_views(ms@)
                    =~= crate::json::json_member_views(ms0) + seq![
                    (definitions_chars(), JsonView::Obj(definition_members(dvs))),
                ]);
            }
            r
        },
        other => other,
    }
}

/// Derives the pretty-printed JSON Schema document of a root shape and
/// its named definitions. Succeeds exactly on well-formed descriptors
/// (distinct definition names, every reference resolving, no object
/// with two fields of one name); a malformed descriptor is rejected
/// with `SchemaError::Derivation`. The document is the raw schema of
/// the root with the definitions under a `definitions` member, after
/// the placeholder-replacing pass, rendered with two-space indentation.
pub fn derive_schema(root: &TypeDescriptor, defs: &Vec<(String, TypeDescriptor)>) -> (r: Result<
    String,
    SchemaError,
>)
    ensures
        r matches Ok(_) <==> wf_descriptor(shape_view(*root), def_views(defs@)),
        r matches Ok(s) ==> s@ == crate::json::render(
            derived_schema(shape_view(*root), def_views(defs@)),
            0,
        ),
        r matches Err(e) ==> e == SchemaError::Derivation,
{
    if !check_descriptor(root, defs) {
        return Err(SchemaError::Derivation);
    }
    let mut tree = build_root(root, defs);
    fix_value_schema(&mut tree);
    Ok(crate::json::to_pretty_string(&tree))
}

/// `fix_obj_members` member by member: keys and order are kept, each
/// value is fixed according to its key.
pub proof fn lemma_fix_obj_members_index(ms: Seq<(Seq<char>, JsonView)>)
    ensures
        fix_obj_members(ms).len() == ms.len(),
        forall|i: int|
            0 <= i < ms.len() ==> fix_obj_members(ms)[i] == (
            ms[i].0,
            if ms[i].0 == properties_chars() {
                fix_props(ms[i].1)
            } else if ms[i].0 == definitions_chars() {
                fix_defs(ms[i].1)
            } else {
                fix_node(ms[i].1)
            },
            ),
    decreases ms.len(),
{
    if ms.len() > 0 {
        lemma_fix_obj_members_index(ms.skip(1));
        assert forall|i: int| 0 <= i < ms.len() implies fix_obj_members(ms)[i] == (
        ms[i].0,
        if ms[i].0 == properties_chars() {
            fix_props(ms[i].1)
        } else if ms[i].0 == definitions_chars() {
            fix_defs(ms[i].1)
        } else {
            fix_node(ms[i].1)
        },
        ) by {
            if i > 0 {
                assert(ms.skip(1)[i - 1] == ms[i]);
            }
        }
    }
}

/// `fix_def_members` member by member: keys and order are kept, each
/// entry's schema is fixed as a whole.
pub proof fn lemma_fix_def_members_index(ms: Seq<(Seq<char>, JsonView)>)
    ensures
        fix_def_members(ms).len() == ms.len(),
        forall|i: int|
            0 <= i < ms.len() ==> fix_def_members(ms)[i] == (ms[i].0, fix_node(ms[i].1)),
    decreases ms.len(),
{
    if ms.len() > 0 {
        lemma_fix_def_members_index(ms.skip(1));
        assert forall|i: int| 0 <= i < ms.len() implies fix_def_members(ms)[i] == (
        ms[i].0,
        fix_node(ms[i].1),
        ) by {
            if i > 0 {
                assert(ms.skip(1)[i - 1] == ms[i]);
            }
        }
    }
}

/// `fix_prop_members` member by member: keys and order are kept, each
/// placeholder value becomes the `type: "object"` node.
pub proof fn lemma_fix_prop_members_index(ms: Seq<(Seq<char>, JsonView)>)
    ensures
        fix_prop_members(ms).len() == ms.len(),
        forall|i: int|
            0 <= i < ms.len() ==> fix_prop_members(ms)[i] == (
            ms[i].0,
            if ms[i].1 == JsonView::Bool(true) {
                object_type_node()
            } else {
                fix_node(ms[i].1)
            },
            ),
    decreases ms.len(),
{
    if ms.len() > 0 {
        lemma_fix_prop_members_index(ms.skip(1));
        assert forall|i: int| 0 <= i < ms.len() implies fix_prop_members(ms)[i] == (
        ms[i].0,
        if ms[i].1 == JsonView::Bool(true) {
            object_type_node()
        } else {
            fix_node(ms[i].1)
        },
        ) by {
            if i > 0 {
                assert(ms.skip(1)[i - 1] == ms[i]);
            }
        }
    }
}

/// `property_members` element by element: one member per field, in
/// order, keyed by the field name.
pub proof fn lemma_property_members_index(fields: Seq<FieldView>)
    ensures
        property_members(fields).len() == fields.len(),
        forall|i: int|
            0 <= i < fields.len() ==> property_members(fields)[i] == (
            fields[i].name,
            schema_of(fields[i].shape),
            ),
    decreases fields.len(),
{
    if fields.len() > 0 {
        lemma_property_members_index(fields.skip(1));
        assert forall|i: int| 0 <= i < fields.len() implies property_members(fields)[i] == (
        fields[i].name,
        schema_of(fields[i].shape),
        ) by {
            if i > 0 {
                assert(fields.skip(1)[i - 1] == fields[i]);
            }
        }
    }
}

/// `definition_members` element by element: one member per definition,
/// in order, keyed by the definition name.
pub proof fn lemma_definition_members_index(defs: Seq<(Seq<char>, ShapeView)>)
    ensures
        definition_members(defs).len() == defs.len(),
        forall|i: int|
            0 <= i < defs.len() ==> definition_members(defs)[i] == (defs[i].0, schema_of(defs[i].1)),
    decreases defs.len(),
{
    if defs.len() > 0 {
        lemma_definition_members_index(defs.skip(1));
        assert forall|i: int| 0 <= i < defs.len() implies definition_members(defs)[i] == (
        defs[i].0,
        schema_of(defs[i].1),
        ) by {
            if i > 0 {
                assert(defs.skip(1)[i - 1] == defs[i]);
            }
        }
    }
}

/// When exactly one member of an object carries a key, `get` returns
/// that member's value.
pub proof fn lemma_get_unique(ms: Seq<(Seq<char>, JsonView)>, k: Seq<char>, i: int)
    requires
        0 <= i < ms.len(),
        ms[i].0 == k,
        forall|j: int| 0 <= j < ms.len() && j != i ==> ms[j].0 != k,
    ensures
        JsonView::Obj(ms).has_key(k),
        JsonView::Obj(ms).get(k) == ms[i].1,
{
    assert(JsonView::Obj(ms).has_key(k));
    let j = choose|j: int| 0 <= j < ms.len() && #[trigger] ms[j].0 == k;
    assert(j == i);
}

/// Every key of an object node built by the schema builder is one of
/// the builder's own keys.
pub proof fn lemma_builder_keys(root: ShapeView, defs: Seq<(Seq<char>, ShapeView)>)
    ensures
        root_schema(root, defs) matches JsonView::Obj(ms) ==> forall|i: int|
            0 <= i < ms.len() ==> ms[i].0 == type_chars() || ms[i].0 == required_chars()
                || ms[i].0 == properties_chars() || ms[i].0 == ref_chars() || ms[i].0
                == definitions_chars(),
{
    match root {
        ShapeView::OpaqueValue => {
        },
        ShapeView::Primitive(_) => {
        },
        ShapeView::Ref(_) => {
        },
        ShapeView::Object(_) => {
        },
    }
}

/// The derived schema document never holds a top-level `$schema` or
/// `title` key, whatever the descriptor: the builder emits neither.
pub proof fn lemma_no_top_level_metadata(root: ShapeView, defs: Seq<(Seq<char>, ShapeView)>)
    ensures
        !derived_schema(root, defs).has_key(seq!['$', 's', 'c', 'h', 'e', 'm', 'a']),
        !derived_schema(root, defs).has_key(seq!['t', 'i', 't', 'l', 'e']),
{
    lemma_builder_keys(root, defs);
    let rs = root_schema(root, defs);
    match rs {
        JsonView::Obj(ms) => {
            lemma_fix_obj_members_index(ms);
            let doc = derived_schema(root, defs);
            assert(doc == JsonView::Obj(fix_obj_members(ms)));
            assert forall|i: int| 0 <= i < fix_obj_members(ms).len() implies fix_obj_members(
                ms,
            )[i].0 != seq!['$', 's', 'c', 'h', 'e', 'm', 'a'] && fix_obj_members(ms)[i].0 != seq![
                't',
                'i',
                't',
                'l',
                'e',
            ] by {
                assert(fix_obj_members(ms)[i].0 == ms[i].0);
                assert(type_chars().len() == 4 && required_chars().len() == 8
                    && properties_chars().len() == 10 && ref_chars().len() == 4
                    && definitions_chars().len() == 11);
            }
        },
        _ => {
        },
    }
}

/// The fixed schema of an object shape has a `properties` object with
/// one member per field, keyed by the field name; the member of a field
/// whose raw schema is the accept-anything placeholder is the explicit
/// `type: "object"` node, every other member is the field's fixed
/// schema.
pub proof fn lemma_object_schema_node(fields: Seq<FieldView>, i: int)
    requires
        0 <= i < fields.len(),
        distinct_names(Seq::new(fields.len(), |k: int| fields[k].name)),
    ensures
        fix_node(schema_of(ShapeView::Object(fields))).has_key(properties_chars()),
        fix_node(schema_of(ShapeView::Object(fields))).get(properties_chars()).has_key(
            fields[i].name,
        ),
        fix_node(schema_of(ShapeView::Object(fields))).get(properties_chars()).get(fields[i].name)
            == (if schema_of(fields[i].shape) == JsonView::Bool(true) {
            object_type_node()
        } else {
            fix_node(schema_of(fields[i].shape))
        }),
{
    let pm = property_members(fields);
    let ms = seq![(type_chars(), JsonView::Str(object_chars()))] + (if required_names(
        fields,
    ).len() > 0 {
        seq![(required_chars(), JsonView::Arr(required_names(fields)))]
    } else {
        Seq::empty()
    }) + seq![(properties_chars(), JsonView::Obj(pm))];
    assert(schema_of(ShapeView::Object(fields)) == JsonView::Obj(ms));
    lemma_fix_obj_members_index(ms);
    let last = ms.len() - 1;
    assert(ms[last].0 == properties_chars());
    assert(forall|j: int| 0 <= j < ms.len() && j != last ==> ms[j].0 != properties_chars());
    assert(fix_obj_members(ms)[last] == (properties_chars(), fix_props(JsonView::Obj(pm))));
    lemma_get_unique(fix_obj_members(ms), properties_chars(), last);
    let doc = fix_node(schema_of(ShapeView::Object(fields)));
    assert(doc == JsonView::Obj(fix_obj_members(ms)));
    assert(doc.get(properties_chars()) == JsonView::Obj(fix_prop_members(pm)));
    lemma_property_members_index(fields);
    lemma_fix_prop_members_index(pm);
    assert(fix_prop_members(pm)[i].0 == fields[i].name);
    assert forall|j: int| 0 <= j < pm.len() && j != i implies fix_prop_members(pm)[j].0
        != fields[i].name by {
        let names = Seq::new(fields.len(), |k: int| fields[k].name);
        assert(names[i] == fields[i].name && names[j] == fields[j].name);
    }
    lemma_get_unique(fix_prop_members(pm), fields[i].name, i);
}

/// An opaque-value field is always presented to the model as an
/// explicit `type: "object"` schema node, never as the unconstrained
/// placeholder.
pub proof fn lemma_opaque_field_lowered(fields: Seq<FieldView>, i: int)
    requires
        0 <= i < fields.len(),
        fields[i].shape == ShapeView::OpaqueValue,
        distinct_names(Seq::new(fields.len(), |k: int| fields[k].name)),
    ensures
        fix_node(schema_of(ShapeView::Object(fields))).has_key(properties_chars()),
        fix_node(schema_of(ShapeView::Object(fields))).get(properties_chars()).has_key(
            fields[i].name,
        ),
        fix_node(schema_of(ShapeView::Object(fields))).get(properties_chars()).get(fields[i].name)
            == object_type_node(),
{
    lemma_object_schema_node(fields, i);
}

/// A field holding a reference to a named shape resolves in the derived
/// document, whatever the shape is named: its property is a `$ref` node
/// pointing into `definitions`, and the `definitions` entry of that
/// name holds the named shape's fixed schema (whose `properties`, for
/// an object shape, are given by `lemma_object_schema_node`).
#[verifier::rlimit(60)]
pub proof fn lemma_ref_resolves(
    fields: Seq<FieldView>,
    i: int,
    defs: Seq<(Seq<char>, ShapeView)>,
    d: int,
)
    requires
        0 <= i < fields.len(),
        0 <= d < defs.len(),
        fields[i].shape == ShapeView::Ref(defs[d].0),
        distinct_names(Seq::new(fields.len(), |k: int| fields[k].name)),
        distinct_names(def_names(defs)),
    ensures
        derived_schema(ShapeView::Object(fields), defs).has_key(properties_chars()),
        derived_schema(ShapeView::Object(fields), defs).get(properties_chars()).has_key(
            fields[i].name,
        ),
        derived_schema(ShapeView::Object(fields), defs).get(properties_chars()).get(fields[i].name)
            == JsonView::Obj(seq![(ref_chars(), JsonView::Str(ref_target(defs[d].0)))]),
        derived_schema(ShapeView::Object(fields), defs).has_key(definitions_chars()),
        derived_schema(ShapeView::Object(fields), defs).get(definitions_chars()).has_key(
            defs[d].0,
        ),
        derived_schema(ShapeView::Object(fields), defs).get(definitions_chars()).get(defs[d].0)
            == fix_node(schema_of(defs[d].1)),
{
    let pm = property_members(fields);
    let msb = seq![(type_chars(), JsonView::Str(object_chars()))] + (if required_names(
        fields,
    ).len() > 0 {
        seq![(required_chars(), JsonView::Arr(required_names(fields)))]
    } else {
        Seq::empty()
    }) + seq![(properties_chars(), JsonView::Obj(pm))];
    assert(schema_of(ShapeView::Object(fields)) == JsonView::Obj(msb));
    let dm = definition_members(defs);
    let full = msb + seq![(definitions_chars(), JsonView::Obj(dm))];
    assert(root_schema(ShapeView::Object(fields), defs) == JsonView::Obj(full));
    let doc = derived_schema(ShapeView::Object(fields), defs);
    lemma_fix_obj_members_index(full);
    assert(doc == JsonView::Obj(fix_obj_members(full)));

    // the `properties` member
    let pidx = msb.len() - 1;
    assert(full[pidx].0 == properties_chars());
    assert(forall|j: int| 0 <= j < full.len() && j != pidx ==> full[j].0 != properties_chars());
    assert(fix_obj_members(full)[pidx] == (properties_chars(), fix_props(JsonView::Obj(pm))));
    lemma_get_unique(fix_obj_members(full), properties_chars(), pidx);
    assert(doc.get(properties_chars()) == JsonView::Obj(fix_prop_members(pm)));
    lemma_property_members_index(fields);
    lemma_fix_prop_members_index(pm);
    assert(fix_prop_members(pm)[i].0 == fields[i].name);
    assert forall|j: int| 0 <= j < pm.len() && j != i implies fix_prop_members(pm)[j].0
        != fields[i].name by {
        let names = Seq::new(fields.len(), |k: int| fields[k].name);
        assert(names[i] == fields[i].name && names[j] == fields[j].name);
    }
    lemma_get_unique(fix_prop_members(pm), fields[i].name, i);
    let refnode = schema_of(ShapeView::Ref(defs[d].0));
    assert(refnode == JsonView::Obj(seq![(ref_chars(), JsonView::Str(ref_target(defs[d].0)))]));
    assert(pm[i].1 == refnode);
    assert(refnode != JsonView::Bool(true));
    lemma_fix_obj_members_index(seq![(ref_chars(), JsonView::Str(ref_target(defs[d].0)))]);
    assert(ref_chars() != properties_chars());
    assert(fix_obj_members(seq![(ref_chars(), JsonView::Str(ref_target(defs[d].0)))]) =~= seq![
        (ref_chars(), JsonView::Str(ref_target(defs[d].0))),
    ]);
    assert(fix_node(refnode) == refnode);
    assert(doc.get(properties_chars()).get(fields[i].name) == refnode);

    // the `definitions` member
    let didx = full.len() - 1;
    assert(full[didx].0 == definitions_chars());
    assert(forall|j: int| 0 <= j < full.len() && j != didx ==> full[j].0 != definitions_chars());
    assert(fix_obj_members(full)[didx] == (definitions_chars(), fix_defs(JsonView::Obj(dm))));
    lemma_get_unique(fix_obj_members(full), definitions_chars(), didx);
    assert(doc.get(definitions_chars()) == JsonView::Obj(fix_def_members(dm)));
    lemma_definition_members_index(defs);
    lemma_fix_def_members_index(dm);
    assert(fix_def_members(dm)[d].0 == defs[d].0);
    assert forall|j: int| 0 <= j < dm.len() && j != d implies fix_def_members(dm)[j].0
        != defs[d].0 by {
        assert(def_names(defs)[j] == defs[j].0 && def_names(defs)[d] == defs[d].0);
    }
    lemma_get_unique(fix_def_members(dm), defs[d].0, d);
    assert(fix_def_members(dm)[d].1 == fix_node(schema_of(defs[d].1)));
}

} // verus!
