//! The checks behind `#[derive(PropagatedMessage)]`: the derive applies to a
//! struct with named fields, exactly one of which is marked
//! `#[propagate(target)]` (the entity the message is addressed to).

use vstd::prelude::*;

use crate::target::key_eq;

verus! {

/// The shape of the fields of the input struct.
#[derive(Clone, Copy, Debug, PartialEq, Eq, Structural)]
pub enum FieldsShape {
    Named,
    Unnamed,
    Unit,
}

/// The kind of item the derive is applied to.
#[derive(Clone, Copy, Debug, PartialEq, Eq, Structural)]
pub enum DataShape {
    Struct(FieldsShape),
    Enum,
    Union,
}

/// The form of a field attribute.
#[derive(Clone, Copy, Debug, PartialEq, Eq, Structural)]
pub enum AttrForm {
    /// A bare path: `#[propagate]`.
    Path,
    /// A path with arguments in parentheses: `#[propagate(target)]`.
    List,
    /// A path with a value: `#[propagate = ...]`.
    NameValue,
}

/// An attribute on a field: its path, its form and the paths of its nested
/// metas (`#[propagate(target)]` has path `propagate`, form `List` and one
/// nested `target`).
pub struct FieldAttr {
    pub path: String,
    pub form: AttrForm,
    pub nested: Vec<String>,
}

/// A field of the input struct with its attributes, in order.
pub struct FieldDesc {
    pub attrs: Vec<FieldAttr>,
}

/// Why the derive is refused.
#[derive(Clone, Copy, Debug, PartialEq, Eq, Structural)]
pub enum DeriveError {
    /// Applied to an enum or a union.
    NotStruct,
    /// Applied to a tuple or unit struct.
    NotNamedFields,
    /// A bare `#[propagate]`: arguments in parentheses are expected.
    ArgumentsExpected,
    /// A `#[propagate = ...]`: parentheses are expected.
    ParenthesesExpected,
    /// A `propagate` attribute holds something other than `target`.
    UnknownAttribute,
    /// More than one `#[propagate(target)]` marker: reported on the field
    /// (by index) that carries the second one.
    MultipleTargets(usize),
    /// No field is marked `#[propagate(target)]`.
    NoTarget,
}

impl DeriveError {
    /// The compile error reported for this refusal.
    pub fn message(&self) -> (m: &'static str)
        ensures
            m@ == error_message(*self)@,
    {
        match self {
            DeriveError::NotStruct => "#[derive(PropagatedMessage)] supports only structs",
            DeriveError::NotNamedFields => "#[derive(PropagatedMessage)] requires named fields; mark the addressed entity field with #[propagate(target)]",
            DeriveError::ArgumentsExpected => "expected attribute arguments in parentheses: #[propagate(...)]",
            DeriveError::ParenthesesExpected => "expected parentheses: #[propagate(...)]",
            DeriveError::ArgumentsExpected => "expected attribute arguments in parentheses: #[propagate(...)]",
        DeriveError::ParenthesesExpected => "expected parentheses: #[propagate(...)]",
        DeriveError::UnknownAttribute => "unknown `propagate` field attribute; expected `target`",
            DeriveError::MultipleTargets(_) => "multiple #[propagate(target)] fields; exactly one is required",
            DeriveError::NoTarget => "#[derive(PropagatedMessage)] requires exactly one field marked #[propagate(target)] (the Entity the message is addressed to)",
        }
    }
}

/// The compile error text of each refusal.
pub open spec fn error_message(e: DeriveError) -> &'static str {
    match e {
        DeriveError::NotStruct => "#[derive(PropagatedMessage)] supports only structs",
        DeriveError::NotNamedFields => "#[derive(PropagatedMessage)] requires named fields; mark the addressed entity field with #[propagate(target)]",
        DeriveError::ArgumentsExpected => "expected attribute arguments in parentheses: #[propagate(...)]",
        DeriveError::ParenthesesExpected => "expected parentheses: #[propagate(...)]",
        DeriveError::UnknownAttribute => "unknown `propagate` field attribute; expected `target`",
        DeriveError::MultipleTargets(_) => "multiple #[propagate(target)] fields; exactly one is required",
        DeriveError::NoTarget => "#[derive(PropagatedMessage)] requires exactly one field marked #[propagate(target)] (the Entity the message is addressed to)",
    }
}

/// Strings as character sequences.
pub open spec fn string_views(v: Seq<String>) -> Seq<Seq<char>> {
    v.map_values(|s: String| s@)
}

/// An attribute as values: its path and its nested paths.
pub open spec fn attr_view(a: FieldAttr) -> (Seq<char>, AttrForm, Seq<Seq<char>>) {
    (a.path@, a.form, string_views(a.nested@))
}

/// A field's attributes as values.
pub open spec fn field_view(f: FieldDesc) -> Seq<(Seq<char>, AttrForm, Seq<Seq<char>>)> {
    f.attrs@.map_values(|a: FieldAttr| attr_view(a))
}

/// The fields' attributes as values.
pub open spec fn fields_view(fs: Seq<FieldDesc>) -> Seq<Seq<(Seq<char>, AttrForm, Seq<Seq<char>>)>> {
    fs.map_values(|f: FieldDesc| field_view(f))
}

/// Scanning the attributes of field `fi`, given the target found so far:
/// attributes other than `propagate` are skipped; a `propagate` attribute
/// without parenthesised arguments, or with a nested path other than
/// `target`, is refused; one with nested
/// `target`s marks the field, refused if a target was already found.
pub open spec fn scan_attrs(
    found: Option<int>,
    fi: int,
    attrs: Seq<(Seq<char>, AttrForm, Seq<Seq<char>>)>,
) -> Result<Option<int>, DeriveError>
    decreases attrs.len(),
{
    if attrs.len() == 0 {
        Ok(found)
    } else {
        match scan_attrs(found, fi, attrs.drop_last()) {
            Err(e) => Err(e),
            Ok(f) => {
                let a = attrs.last();
                if a.0 != "propagate"@ {
                    Ok(f)
                } else if a.1 == AttrForm::Path {
                    Err(DeriveError::ArgumentsExpected)
                } else if a.1 == AttrForm::NameValue {
                    Err(DeriveError::ParenthesesExpected)
                } else if exists|k: int| 0 <= k < a.2.len() && a.2[k] != "target"@ {
                    Err(DeriveError::UnknownAttribute)
                } else if a.2.len() == 0 {
                    Ok(f)
                } else if f is Some {
                    Err(DeriveError::MultipleTargets(fi as usize))
                } else {
                    Ok(Some(fi))
                }
            },
        }
    }
}

/// Scanning the fields in order for the target marker.
pub open spec fn scan_fields(fs: Seq<Seq<(Seq<char>, AttrForm, Seq<Seq<char>>)>>) -> Result<Option<int>, DeriveError>
    decreases fs.len(),
{
    if fs.len() == 0 {
        Ok(None)
    } else {
        match scan_fields(fs.drop_last()) {
            Err(e) => Err(e),
            Ok(f) => scan_attrs(f, fs.len() - 1, fs.last()),
        }
    }
}

/// The derive's outcome: the index of the target field, or why it is refused.
pub open spec fn derive_outcome(data: DataShape, fs: Seq<Seq<(Seq<char>, AttrForm, Seq<Seq<char>>)>>) -> Result<
    int,
    DeriveError,
> {
    match data {
        DataShape::Struct(FieldsShape::Named) => match scan_fields(fs) {
            Err(e) => Err(e),
            Ok(None) => Err(DeriveError::NoTarget),
            Ok(Some(i)) => Ok(i),
        },
        DataShape::Struct(_) => Err(DeriveError::NotNamedFields),
        _ => Err(DeriveError::NotStruct),
    }
}

/// An error stays once met.
pub proof fn lemma_scan_attrs_err(
    found: Option<int>,
    fi: int,
    attrs: Seq<(Seq<char>, AttrForm, Seq<Seq<char>>)>,
    k: int,
    e: DeriveError,
)
    requires
        0 <= k <= attrs.len(),
        scan_attrs(found, fi, attrs.take(k)) == Err::<Option<int>, DeriveError>(e),
    ensures
        scan_attrs(found, fi, attrs) == Err::<Option<int>, DeriveError>(e),
    decreases attrs.len(),
{
    if k == attrs.len() {
        assert(attrs.take(k) =~= attrs);
    } else {
        assert(attrs.drop_last().take(k) =~= attrs.take(k));
        lemma_scan_attrs_err(found, fi, attrs.drop_last(), k, e);
    }
}

/// An error stays once met.
pub proof fn lemma_scan_fields_err(
    fs: Seq<Seq<(Seq<char>, AttrForm, Seq<Seq<char>>)>>,
    k: int,
    e: DeriveError,
)
    requires
        0 <= k <= fs.len(),
        scan_fields(fs.take(k)) == Err::<Option<int>, DeriveError>(e),
    ensures
        scan_fields(fs) == Err::<Option<int>, DeriveError>(e),
    decreases fs.len(),
{
    if k == fs.len() {
        assert(fs.take(k) =~= fs);
    } else {
        assert(fs.drop_last().take(k) =~= fs.take(k));
        lemma_scan_fields_err(fs.drop_last(), k, e);
    }
}

/// Whether every nested path is `target`.
fn all_target(nested: &Vec<String>) -> (r: bool)
    ensures
        r == !(exists|k: int|
            0 <= k < nested@.len() && #[trigger] string_views(nested@)[k] != "target"@),
{
    let mut i: usize = 0;
    while i < nested.len()
        invariant
            i <= nested@.len(),
            forall|k: int| 0 <= k < i ==> #[trigger] string_views(nested@)[k] == "target"@,
        decreases nested@.len() - i,
    {
        if !key_eq(nested[i].as_str(), "target") {
            proof {
                assert(string_views(nested@)[i as int] != "target"@);
            }
            return false;
        }
        i = i + 1;
    }
    true
}

/// Check the input of `#[derive(PropagatedMessage)]` and find the field the
/// message is addressed to: the input must be a struct with named fields,
/// every `propagate` attribute may only hold `target`, and exactly one field
/// is marked `#[propagate(target)]`. Returns that field's index.
pub fn derive_propagated_message(data: DataShape, fields: &Vec<FieldDesc>) -> (r: Result<
    usize,
    DeriveError,
>)
    ensures
        match r {
            Ok(i) => derive_outcome(data, fields_view(fields@)) == Ok::<int, DeriveError>(i as int),
            Err(e) => derive_outcome(data, fields_view(fields@)) == Err::<int, DeriveError>(e),
        },
{
    match data {
        DataShape::Struct(FieldsShape::Named) => {},
        DataShape::Struct(_) => {
            return Err(DeriveError::NotNamedFields);
        },
        _ => {
            return Err(DeriveError::NotStruct);
        },
    }
    let ghost fs = fields_view(fields@);
    let mut found: Option<usize> = None;
    let mut i: usize = 0;
    while i < fields.len()
        invariant
            i <= fields@.len(),
            fs == fields_view(fields@),
            data == DataShape::Struct(FieldsShape::Named),
            scan_fields(fs.take(i as int)) == Ok::<Option<int>, DeriveError>(
                match found {
                    Some(x) => Some(x as int),
                    None => None,
                },
            ),
            found matches Some(x) ==> x < i,
        decreases fields@.len() - i,
    {
        let field = &fields[i];
        let ghost attrs = field_view(*field);
        let ghost found0 = match found {
            Some(x) => Some(x as int),
            None => None::<int>,
        };
        proof {
            assert(fs.take(i + 1).drop_last() =~= fs.take(i as int));
            assert(fs[i as int] == attrs);
            assert(attrs.take(0) =~= Seq::<(Seq<char>, AttrForm, Seq<Seq<char>>)>::empty());
        }
        let mut j: usize = 0;
        while j < field.attrs.len()
            invariant
                j <= field.attrs@.len(),
                i < fields@.len(),
                *field == fields@[i as int],
                attrs == field_view(*field),
                fs == fields_view(fields@),
                data == DataShape::Struct(FieldsShape::Named),
                scan_fields(fs.take(i as int)) == Ok::<Option<int>, DeriveError>(found0),
                scan_attrs(found0, i as int, attrs.take(j as int)) == Ok::<Option<int>, DeriveError>(
                    match found {
                        Some(x) => Some(x as int),
                        None => None,
                    },
                ),
                found matches Some(x) ==> x <= i,
            decreases field.attrs@.len() - j,
        {
            let attr = &field.attrs[j];
            proof {
                assert(attrs.take(j + 1).drop_last() =~= attrs.take(j as int));
                assert(attrs.take(j + 1).last() == attr_view(*attr));
            }
            if key_eq(attr.path.as_str(), "propagate") {
                match attr.form {
                    AttrForm::Path => {
                        proof {
                            lemma_scan_attrs_err(
                                found0,
                                i as int,
                                attrs,
                                j + 1,
                                DeriveError::ArgumentsExpected,
                            );
                            assert(fs.take(i + 1).drop_last() =~= fs.take(i as int));
                            assert(fs.take(i + 1).last() == attrs);
                            lemma_scan_fields_err(fs, i + 1, DeriveError::ArgumentsExpected);
                        }
                        return Err(DeriveError::ArgumentsExpected);
                    },
                    AttrForm::NameValue => {
                        proof {
                            lemma_scan_attrs_err(
                                found0,
                                i as int,
                                attrs,
                                j + 1,
                                DeriveError::ParenthesesExpected,
                            );
                            assert(fs.take(i + 1).drop_last() =~= fs.take(i as int));
                            assert(fs.take(i + 1).last() == attrs);
                            lemma_scan_fields_err(fs, i + 1, DeriveError::ParenthesesExpected);
                        }
                        return Err(DeriveError::ParenthesesExpected);
                    },
                    AttrForm::List => {},
                }
                if !all_target(&attr.nested) {
                    proof {
                        lemma_scan_attrs_err(
                            found0,
                            i as int,
                            attrs,
                            j + 1,
                            DeriveError::UnknownAttribute,
                        );
                        assert(fs.take(i + 1).drop_last() =~= fs.take(i as int));
                        assert(fs.take(i + 1).last() == attrs);
                        lemma_scan_fields_err(fs, i + 1, DeriveError::UnknownAttribute);
                    }
                    return Err(DeriveError::UnknownAttribute);
                }
                if attr.nested.len() > 0 {
                    if found.is_some() {
                        proof {
                            lemma_scan_attrs_err(
                                found0,
                                i as int,
                                attrs,
                                j + 1,
                                DeriveError::MultipleTargets(i),
                            );
                            assert(fs.take(i + 1).drop_last() =~= fs.take(i as int));
                        assert(fs.take(i + 1).last() == attrs);
                        lemma_scan_fields_err(fs, i + 1, DeriveError::MultipleTargets(i));
                        }
                        return Err(DeriveError::MultipleTargets(i));
                    }
                    found = Some(i);
                }
            }
            j = j + 1;
        }
        proof {
            assert(attrs.take(j as int) =~= attrs);
        }
        i = i + 1;
    }
    proof {
        assert(fs.take(i as int) =~= fs);
    }
    match found {
        Some(x) => Ok(x),
        None => Err(DeriveError::NoTarget),
    }
}

} // verus!
