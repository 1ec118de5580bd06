//! Attributes: the name and value pairs that a pragma attaches to an item.

use vstd::prelude::*;

use std::any::TypeId;

use crate::text::const_str_equal;
use crate::trusted::{copy_type_id, type_id_of, type_ids_equal};

verus! {

/// Whether `id` is an identity that `TypeId::of::<T>()` can give: the
/// result of a call of it.
pub closed spec fn is_identity_of<T: ?Sized + 'static>(id: TypeId) -> bool {
    call_ensures(type_id_of::<T>, (), id)
}

/// A Rust type named in a pragma, by its identity and a description of it.
#[derive(Debug)]
pub struct Type {
    pub(crate) description: &'static str,
    pub(crate) type_id: TypeId,
}

impl Type {
    /// The type's identity.
    pub closed spec fn spec_type_id(&self) -> TypeId {
        self.type_id
    }

    /// The type's description.
    pub closed spec fn spec_description(&self) -> Seq<char> {
        self.description@
    }

    /// A type of the given identity and description.
    pub fn new(description: &'static str, type_id: TypeId) -> (t: Self)
        ensures
            t.spec_type_id() == type_id,
            t.spec_description() == description@,
    {
        Type { description, type_id }
    }

    /// The type `T`, described by `description`.
    pub fn of<T: ?Sized + 'static>(description: &'static str) -> (t: Self)
        ensures
            t.spec_description() == description@,
            is_identity_of::<T>(t.spec_type_id()),
    {
        let of = type_id_of::<T>;
        let id = of();
        assert(call_ensures(of, (), id));
        Type { description, type_id: id }
    }

    /// The type's description.
    pub fn description(&self) -> (r: &'static str)
        ensures
            r@ == self.spec_description(),
    {
        self.description
    }

    /// The type's identity.
    pub fn type_id(&self) -> (r: TypeId)
        ensures
            r == self.spec_type_id(),
    {
        copy_type_id(&self.type_id)
    }

    /// Whether this is the type with identity `id`.
    pub fn same_as_id(&self, id: &TypeId) -> (r: bool)
        ensures
            r == (self.spec_type_id() == *id),
    {
        type_ids_equal(&self.type_id, id)
    }

    /// Whether this is the type `T`: whether its identity is the one that
    /// `TypeId::of::<T>()` gives.
    pub fn same_as<T: ?Sized + 'static>(&self) -> (r: bool)
        ensures
            exists|id: TypeId| is_identity_of::<T>(id) && r == (self.spec_type_id() == id),
    {
        let of = type_id_of::<T>;
        let id = of();
        assert(call_ensures(of, (), id));
        assert(is_identity_of::<T>(id));
        self.same_as_id(&id)
    }

    /// Whether two types are the same: they have the same identity.
    pub fn equals(&self, other: &Type) -> (r: bool)
        ensures
            r == (self.spec_type_id() == other.spec_type_id()),
    {
        type_ids_equal(&self.type_id, &other.type_id)
    }

    /// A copy of this type.
    pub fn duplicate(&self) -> (r: Self)
        ensures
            r.spec_type_id() == self.spec_type_id(),
            r.spec_description() == self.spec_description(),
    {
        Type { description: self.description, type_id: copy_type_id(&self.type_id) }
    }
}

/// The value of an attribute.
#[derive(Debug)]
pub enum Value {
    Type(Type),
    Str(&'static str),
    Bool(bool),
    Int(i32),
}

/// Whether two values are equal: types by identity, strings by text.
pub open spec fn value_eq(a: &Value, b: &Value) -> bool {
    match (a, b) {
        (Value::Type(x), Value::Type(y)) => x.spec_type_id() == y.spec_type_id(),
        (Value::Str(x), Value::Str(y)) => x@ == y@,
        (Value::Bool(x), Value::Bool(y)) => x == y,
        (Value::Int(x), Value::Int(y)) => x == y,
        _ => false,
    }
}

/// Two values are equal exactly when they are of the same kind and hold the
/// same thing: strings the same text, character by character; booleans and
/// integers the same value; types the same identity. Values of different
/// kinds are never equal.
pub proof fn lemma_value_eq_by_kind(a: Value, b: Value)
    ensures
        a matches Value::Str(x) ==> (b matches Value::Str(y) ==> (value_eq(&a, &b) <==> x@ == y@)),
        a matches Value::Bool(x) ==> (b matches Value::Bool(y) ==> (value_eq(&a, &b) <==> x == y)),
        a matches Value::Int(x) ==> (b matches Value::Int(y) ==> (value_eq(&a, &b) <==> x == y)),
        a matches Value::Type(x) ==> (b matches Value::Type(y) ==> (value_eq(&a, &b) <==> x.spec_type_id()
            == y.spec_type_id())),
        (a is Str) != (b is Str) || (a is Bool) != (b is Bool) || (a is Int) != (b is Int) ==> !value_eq(&a, &b),
        value_eq(&a, &b) ==> (a is Str <==> b is Str),
{
}

/// Equality of values is an equivalence: every value equals itself, and
/// equality is symmetric and transitive.
pub proof fn lemma_value_eq_equivalence(a: &Value, b: &Value, c: &Value)
    ensures
        value_eq(a, a),
        value_eq(a, b) ==> value_eq(b, a),
        value_eq(a, b) && value_eq(b, c) ==> value_eq(a, c),
{
}

impl Value {
    /// Whether two values are equal: types by identity, strings by text.
    pub fn equals(&self, other: &Value) -> (r: bool)
        ensures
            r == value_eq(self, other),
            *self matches Value::Str(x) ==> (*other matches Value::Str(y) ==> (r <==> x@ == y@)),
    {
        match (self, other) {
            (Value::Type(x), Value::Type(y)) => x.equals(y),
            (Value::Str(x), Value::Str(y)) => const_str_equal(x, y),
            (Value::Bool(x), Value::Bool(y)) => *x == *y,
            (Value::Int(x), Value::Int(y)) => *x == *y,
            _ => false,
        }
    }

    /// A copy of this value.
    pub fn duplicate(&self) -> (r: Self)
        ensures
            value_eq(&r, self),
            r is Str <==> self is Str,
            r is Type <==> self is Type,
    {
        match self {
            Value::Type(t) => Value::Type(t.duplicate()),
            Value::Str(s) => Value::Str(s),
            Value::Bool(b) => Value::Bool(*b),
            Value::Int(i) => Value::Int(*i),
        }
    }
}

impl PartialEq for Value {
    fn eq(&self, other: &Value) -> (r: bool) {
        self.equals(other)
    }
}

impl vstd::std_specs::cmp::PartialEqSpecImpl for Value {
    open spec fn obeys_eq_spec() -> bool {
        true
    }

    open spec fn eq_spec(&self, other: &Value) -> bool {
        value_eq(self, other)
    }
}

/// A pragma's attribute: a name and a value.
#[derive(Debug)]
pub struct Attribute {
    pub(crate) name: &'static str,
    pub(crate) value: Value,
}

impl Attribute {
    /// The attribute's name.
    pub closed spec fn spec_name(&self) -> Seq<char> {
        self.name@
    }

    /// The attribute's value.
    pub closed spec fn spec_value(&self) -> Value {
        self.value
    }

    /// An attribute with the given name and value.
    pub fn new(name: &'static str, value: Value) -> (a: Self)
        ensures
            a.spec_name() == name@,
            a.spec_value() == value,
    {
        Attribute { name, value }
    }

    /// The attribute's name.
    pub fn name(&self) -> (r: &'static str)
        ensures
            r@ == self.spec_name(),
    {
        self.name
    }

    /// The attribute's value.
    pub fn value(&self) -> (r: &Value)
        ensures
            *r == self.spec_value(),
    {
        &self.value
    }

    /// Whether the value is the type with identity `value`.
    pub fn is_type_id(&self, value: &TypeId) -> (r: bool)
        ensures
            r == (self.spec_value() matches Value::Type(t) && t.spec_type_id() == *value),
    {
        match &self.value {
            Value::Type(ty) => ty.same_as_id(value),
            _ => false,
        }
    }

    /// Whether the value is the type `T`.
    pub fn is_type<T: ?Sized + 'static>(&self) -> (r: bool)
        ensures
            !(self.spec_value() is Type) ==> !r,
            self.spec_value() matches Value::Type(t) ==> exists|id: TypeId|
                is_identity_of::<T>(id) && r == (t.spec_type_id() == id),
    {
        match &self.value {
            Value::Type(ty) => ty.same_as::<T>(),
            _ => false,
        }
    }

    /// Whether the value is the string `value`.
    pub fn is_str(&self, value: &str) -> (r: bool)
        ensures
            r == (self.spec_value() matches Value::Str(s) && s@ == value@),
    {
        match &self.value {
            Value::Str(string) => const_str_equal(string, value),
            _ => false,
        }
    }

    /// A copy of this attribute.
    pub fn duplicate(&self) -> (r: Self)
        ensures
            r.spec_name() == self.spec_name(),
            value_eq(&r.spec_value(), &self.spec_value()),
    {
        Attribute { name: self.name, value: self.value.duplicate() }
    }
}

/// The attributes of an item, in the order they are written.
pub struct Attributes(pub(crate) Vec<Attribute>);

impl View for Attributes {
    type V = Seq<Attribute>;

    closed spec fn view(&self) -> Seq<Attribute> {
        self.0@
    }
}

impl Attributes {
    /// The given attributes.
    pub fn new(attributes: Vec<Attribute>) -> (r: Self)
        ensures
            r@ == attributes@,
    {
        Attributes(attributes)
    }

    /// The number of attributes.
    pub fn len(&self) -> (r: usize)
        ensures
            r == self@.len(),
    {
        self.0.len()
    }

    /// Whether there is no attribute.
    pub fn is_empty(&self) -> (r: bool)
        ensures
            r == (self@.len() == 0),
    {
        self.0.len() == 0
    }

    /// The first attribute named `name`.
    pub fn named(&self, name: &str) -> (r: Option<&Attribute>)
        ensures
            match r {
                Some(a) => exists|i: int|
                    0 <= i < self@.len() && self@[i] == *a && a.spec_name() == name@ && forall|j: int|
                        0 <= j < i ==> (#[trigger] self@[j]).spec_name() != name@,
                None => forall|j: int| 0 <= j < self@.len() ==> (#[trigger] self@[j]).spec_name() != name@,
            },
    {
        let mut index: usize = 0;
        while index < self.0.len()
            invariant
                index <= self.0@.len(),
                forall|j: int| 0 <= j < index ==> (#[trigger] self@[j]).spec_name() != name@,
            decreases self.0.len() - index,
        {
            let attribute = &self.0[index];
            if const_str_equal(attribute.name(), name) {
                return Some(attribute);
            }
            index += 1;
        }
        None
    }

    /// The attribute at `index`.
    pub fn get(&self, index: usize) -> (r: &Attribute)
        requires
            index < self@.len(),
        ensures
            *r == self@[index as int],
    {
        &self.0[index]
    }

    /// The attributes, in order.
    pub fn as_slice(&self) -> (r: &[Attribute])
        ensures
            r@ == self@,
    {
        self.0.as_slice()
    }
}

} // verus!
