//! Coercion of literals to the declared type of an argument.
use vstd::prelude::*;
use crate::schema::{
    get_named_type, EnumTypeModel, ScalarTypeModel, SchemaDocument, SchemaModel, Type,
    TypeDefinition, TypeDefinitionModel, TypeModel, EnumType, ScalarType,
};
use crate::util::{contains_name, text_is};
use crate::value::{values_view, Value, ValueModel};

verus! {

/// What a literal becomes as a value of an enum type: an enum literal that
/// names one of the type's values is kept, anything else is rejected.
pub open spec fn coerce_enum(value: ValueModel, enum_type: EnumTypeModel) -> Option<ValueModel> {
    match value {
        ValueModel::Enum(name) => if enum_type.values.contains(name) {
            Some(value)
        } else {
            None
        },
        _ => None,
    }
}

/// What a literal becomes as a value of a scalar type: a literal of the kind
/// that the built-in scalar of that name takes is kept, anything else is
/// rejected. `ID` takes string literals.
pub open spec fn coerce_scalar(value: ValueModel, scalar_type: ScalarTypeModel) -> Option<
    ValueModel,
> {
    let name = scalar_type.name;
    if (name == "Boolean"@ && value is Boolean) || (name == "Float"@ && value is Float) || (name
        == "Int"@ && value is Int) || (name == "String"@ && value is String) || (name == "ID"@
        && value is String) {
        Some(value)
    } else {
        None
    }
}

/// What a non-null literal becomes as a value of the type named `name`.
pub open spec fn coerce_named(schema: SchemaModel, value: ValueModel, name: Seq<char>) -> Option<
    ValueModel,
> {
    match schema.named_type(name) {
        Some(TypeDefinitionModel::Enum(t)) => coerce_enum(value, t),
        Some(TypeDefinitionModel::Scalar(t)) => coerce_scalar(value, t),
        _ => None,
    }
}

/// What a literal becomes as a value of the declared type `ty`, with named
/// types looked up in `schema`; `None` when the literal is rejected.
///
/// A non-null type rejects `Null`; every other type takes `Null` as it is. A
/// list type takes a list whose elements are all taken by the inner type.
pub open spec fn coerce(schema: SchemaModel, value: ValueModel, ty: TypeModel) -> Option<
    ValueModel,
>
    decreases ty, value, 1nat,
{
    match ty {
        TypeModel::NonNullType(inner) => if value is Null {
            None
        } else {
            coerce(schema, value, *inner)
        },
        TypeModel::NamedType(name) => if value is Null {
            Some(ValueModel::Null)
        } else {
            coerce_named(schema, value, name)
        },
        TypeModel::ListType(inner) => match value {
            ValueModel::Null => Some(ValueModel::Null),
            ValueModel::List(items) => match coerce_all(schema, items, *inner) {
                Some(coerced) => Some(ValueModel::List(coerced)),
                None => None,
            },
            _ => None,
        },
    }
}

/// The elements of `items` coerced to `ty` one by one; `None` when one of them
/// is rejected.
pub open spec fn coerce_all(schema: SchemaModel, items: Seq<ValueModel>, ty: TypeModel) -> Option<
    Seq<ValueModel>,
>
    decreases ty, items, 0nat,
{
    if items.len() == 0 {
        Some(Seq::empty())
    } else {
        match coerce_all(schema, items.drop_last(), ty) {
            Some(coerced) => match coerce(schema, items.last(), ty) {
                Some(v) => Some(coerced.push(v)),
                None => None,
            },
            None => None,
        }
    }
}

/// Coerces a literal to an enum type.
pub fn coerce_enum_value(value: &Value, enum_type: &EnumType) -> (coerced: Option<Value>)
    ensures
        match coerced {
            Some(v) => coerce_enum(value@, enum_type@) == Some(v@),
            None => coerce_enum(value@, enum_type@).is_none(),
        },
{
    match value {
        Value::Enum(name) => if contains_name(&enum_type.values, name) {
            Some(value.clone())
        } else {
            None
        },
        _ => None,
    }
}

/// Coerces a literal to a scalar type.
pub fn coerce_scalar_value(value: &Value, scalar_type: &ScalarType) -> (coerced: Option<Value>)
    ensures
        match coerced {
            Some(v) => coerce_scalar(value@, scalar_type@) == Some(v@),
            None => coerce_scalar(value@, scalar_type@).is_none(),
        },
{
    let name = &scalar_type.name;
    let taken = match value {
        Value::Boolean(_) => text_is(name, "Boolean"),
        Value::Float(_) => text_is(name, "Float"),
        Value::Int(_) => text_is(name, "Int"),
        Value::String(_) => text_is(name, "String") || text_is(name, "ID"),
        _ => false,
    };
    if taken {
        Some(value.clone())
    } else {
        None
    }
}

/// Coerces `value` to the declared type `ty`, looking named types up in
/// `schema`. Returns `None` when the literal is rejected.
pub fn coerce_value(value: &Value, ty: &Type, schema: &SchemaDocument) -> (coerced: Option<Value>)
    ensures
        match coerced {
            Some(v) => coerce(schema@, value@, ty@) == Some(v@),
            None => coerce(schema@, value@, ty@).is_none(),
        },
    decreases ty, value,
{
    match ty {
        Type::NonNullType(inner) => {
            if value.is_null() {
                None
            } else {
                coerce_value(value, inner, schema)
            }
        },
        Type::NamedType(name) => {
            if value.is_null() {
                Some(Value::Null)
            } else {
                match get_named_type(schema, name) {
                    Some(TypeDefinition::Enum(t)) => coerce_enum_value(value, t),
                    Some(TypeDefinition::Scalar(t)) => coerce_scalar_value(value, t),
                    _ => None,
                }
            }
        },
        Type::ListType(inner) => {
            match value {
                Value::Null => Some(Value::Null),
                Value::List(items) => {
                    proof {
                        Value::lemma_list_view(*items);
                    }
                    let mut out: Vec<Value> = Vec::new();
                    let mut i: usize = 0;
                    while i < items.len()
                        invariant
                            i <= items.len(),
                            value is List,
                            value->List_0 == *items,
                            ty is ListType,
                            ty->ListType_0 == *inner,
                            coerce_all(schema@, values_view(items@).take(i as int), inner@)
                                == Some(values_view(out@)),
                        decreases items.len() - i,
                    {
                        proof {
                            assert(decreases_to!(*ty => ty->ListType_0));
                        }
                        let ghost before = values_view(items@).take(i as int);
                        let ghost now = values_view(items@).take(i as int + 1);
                        proof {
                            assert(now.drop_last() =~= before);
                            assert(now.last() == items[i as int]@);
                        }
                        match coerce_value(&items[i], inner, schema) {
                            Some(v) => {
                                proof {
                                    assert(values_view(out@.push(v)) =~= values_view(out@).push(
                                        v@,
                                    ));
                                }
                                out.push(v);
                            },
                            None => {
                                proof {
                                    Value::lemma_list_view(*items);
                                    assert(coerce_all(schema@, now, inner@).is_none());
                                    lemma_coerce_all_rejects(
                                        schema@,
                                        values_view(items@),
                                        inner@,
                                        i as int + 1,
                                    );
                                }
                                return None;
                            },
                        }
                        i += 1;
                    }
                    proof {
                        assert(values_view(items@).take(i as int) =~= values_view(items@));
                        Value::lemma_list_view(out);
                    }
                    Some(Value::List(out))
                },
                _ => None,
            }
        },
    }
}

/// Once a prefix of a list is rejected, the whole list is.
pub proof fn lemma_coerce_all_rejects(
    schema: SchemaModel,
    items: Seq<ValueModel>,
    ty: TypeModel,
    upto: int,
)
    requires
        0 <= upto <= items.len(),
        coerce_all(schema, items.take(upto), ty).is_none(),
    ensures
        coerce_all(schema, items, ty).is_none(),
    decreases items.len() - upto,
{
    if upto < items.len() {
        let longer = items.take(upto + 1);
        assert(longer.drop_last() =~= items.take(upto));
        lemma_coerce_all_rejects(schema, items, ty, upto + 1);
    } else {
        assert(items.take(upto) =~= items);
    }
}

} // verus!
