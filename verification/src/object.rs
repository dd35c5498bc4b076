//! Objects: class instances and arrays.

use vstd::prelude::*;
use crate::jvm_error::JVMError;
use crate::loaded_class::{spec_default_value, spec_last_named, FieldSlot, LoadedClass};
use crate::runtime::Value;
use crate::text::concat;

verus! {

/// The bookkeeping of an object for the collector.
#[derive(Debug, Clone, Copy, PartialEq, Eq, Structural)]
pub struct ObjectHeader {
    pub mark: bool,
    pub generation: u8,
    pub ref_count: u32,
    pub object_id: u32,
}

impl ObjectHeader {
    /// The header of a new object: unmarked, young, counted once, with the
    /// identity `object_id`.
    pub fn new(object_id: u32) -> (res: ObjectHeader)
        ensures
            res == (ObjectHeader { mark: false, generation: 0, ref_count: 1, object_id }),
    {
        ObjectHeader { mark: false, generation: 0, ref_count: 1, object_id }
    }
}

/// What an object holds: the fields of a class instance, or the elements of
/// an array with the descriptor of their type.
#[derive(Debug)]
pub enum ObjectKind {
    ClassInstance { fields: Vec<Value> },
    ArrayInstance { length: usize, elements: Vec<Value>, element_type: String },
}

/// An object. `class` is the position of its class in the class loader's
/// table, when it has one.
#[derive(Debug)]
pub struct Object {
    pub class: Option<usize>,
    pub header: ObjectHeader,
    pub kind: ObjectKind,
}

/// Whether `values` are the starting values of fields of the descriptors
/// of `slots`.
pub open spec fn starts_as(values: Seq<Value>, slots: Seq<FieldSlot>) -> bool {
    &&& values.len() == slots.len()
    &&& forall|i: int| 0 <= i < slots.len() ==> spec_default_value((#[trigger] slots[i]).descriptor@) == Some(values[i])
}

/// Whether every slot's descriptor names a type.
pub open spec fn slots_typed(slots: Seq<FieldSlot>) -> bool {
    forall|i: int| 0 <= i < slots.len() ==> spec_default_value((#[trigger] slots[i]).descriptor@) is Some
}

/// The values of an object's fields or elements.
pub open spec fn contents(o: Object) -> Seq<Value> {
    match o.kind {
        ObjectKind::ClassInstance { fields } => fields@,
        ObjectKind::ArrayInstance { elements, .. } => elements@,
    }
}

/// Whether `o` is a class instance whose fields are `fields`.
pub open spec fn is_instance_with(o: Object, fields: Seq<Value>) -> bool {
    o.kind matches ObjectKind::ClassInstance { fields: f } && f@ == fields
}

/// The value of field `name` of object `o`, an instance of `class`: the
/// last field of that name in the class's layout, when the object holds it.
pub open spec fn field_value(o: Object, class: LoadedClass, name: Seq<char>) -> Option<Value> {
    match o.kind {
        ObjectKind::ClassInstance { fields } => match spec_last_named(class.instance_fields@, name) {
            Some(i) => if 0 <= i < fields@.len() { Some(fields@[i]) } else { None },
            None => None,
        },
        ObjectKind::ArrayInstance { .. } => None,
    }
}

/// `Instance field <name> not found`.
pub fn field_not_found(name: &str) -> (res: JVMError)
    ensures
        res matches JVMError::Other(m) && m@ == "Instance field "@ + name@ + " not found"@,
{
    let a = concat("Instance field ", name);
    JVMError::Other(concat(a.as_str(), " not found"))
}

impl Object {
    /// The number of fields or elements.
    pub fn value_count(&self) -> (res: usize)
        ensures
            res == contents(*self).len(),
    {
        match &self.kind {
            ObjectKind::ClassInstance { fields } => fields.len(),
            ObjectKind::ArrayInstance { elements, .. } => elements.len(),
        }
    }

    /// Field or element `j`.
    pub fn value_at(&self, j: usize) -> (res: Value)
        requires
            j < contents(*self).len(),
        ensures
            res == contents(*self)[j as int],
    {
        match &self.kind {
            ObjectKind::ClassInstance { fields } => fields[j],
            ObjectKind::ArrayInstance { elements, .. } => elements[j],
        }
    }

    /// A new instance of `class`: each field starts at the default value of
    /// its type.
    pub fn new_class(class: &LoadedClass, class_id: usize, header: ObjectHeader) -> (res: Object)
        requires
            slots_typed(class.instance_fields@),
        ensures
            res.class == Some(class_id),
            res.header == header,
            res.kind matches ObjectKind::ClassInstance { fields } && starts_as(fields@, class.instance_fields@),
    {
        let mut fields: Vec<Value> = Vec::new();
        let mut i: usize = 0;
        while i < class.instance_fields.len()
            invariant
                i <= class.instance_fields@.len(),
                slots_typed(class.instance_fields@),
                fields@.len() == i,
                forall|k: int| 0 <= k < i ==> spec_default_value((#[trigger] class.instance_fields@[k]).descriptor@)
                    == Some(fields@[k]),
            decreases class.instance_fields@.len() - i,
        {
            match crate::loaded_class::default_value(class.instance_fields[i].descriptor.as_str()) {
                Some(v) => fields.push(v),
                None => {
                    assert(false);
                },
            }
            i = i + 1;
        }
        Object { class: Some(class_id), header, kind: ObjectKind::ClassInstance { fields } }
    }

    /// A new array of `length` elements, each `Default`.
    pub fn new_array(class: Option<usize>, length: usize, element_type: &str, header: ObjectHeader) -> (res: Object)
        ensures
            res.class == class,
            res.header == header,
            res.kind matches ObjectKind::ArrayInstance { length: n, elements, element_type: t }
                && n == length && elements@ == Seq::new(length as nat, |i: int| Value::Default) && t@ == element_type@,
    {
        let mut elements: Vec<Value> = Vec::new();
        let mut i: usize = 0;
        while i < length
            invariant
                i <= length,
                elements@ == Seq::new(i as nat, |k: int| Value::Default),
            decreases length - i,
        {
            elements.push(Value::Default);
            i = i + 1;
            assert(elements@ =~= Seq::new(i as nat, |k: int| Value::Default));
        }
        Object {
            class,
            header,
            kind: ObjectKind::ArrayInstance { length, elements, element_type: element_type.to_string() },
        }
    }

    /// The field `name` of a class instance, where `class` is its class: the
    /// last field of that name in the class's layout.
    pub fn get_field(&self, class: &LoadedClass, name: &str) -> (res: Result<Value, JVMError>)
        ensures
            match self.kind {
                ObjectKind::ClassInstance { fields } => match spec_last_named(class.instance_fields@, name@) {
                    Some(i) => if i < fields@.len() {
                        res == Ok::<Value, JVMError>(fields@[i])
                    } else {
                        res matches Err(JVMError::Other(m)) && m@ == "Instance field "@ + name@ + " not found"@
                    },
                    None => res matches Err(JVMError::Other(m)) && m@ == "Instance field "@ + name@ + " not found"@,
                },
                ObjectKind::ArrayInstance { .. } => res matches Err(JVMError::Other(m))
                    && m@ == "Field access on array object"@,
            },
            match field_value(*self, *class, name@) {
                Some(v) => res == Ok::<Value, JVMError>(v),
                None => res is Err,
            },
    {
        proof {
            crate::loaded_class::lemma_last_named_bound(class.instance_fields@, name@);
        }
        match &self.kind {
            ObjectKind::ClassInstance { fields } => {
                let found = crate::loaded_class::last_named(&class.instance_fields, name);
                if let Some(i) = found {
                    if i < fields.len() {
                        return Ok(fields[i]);
                    }
                }
                let e = field_not_found(name);
                Err(e)
            },
            ObjectKind::ArrayInstance { .. } => Err(JVMError::Other("Field access on array object".to_string())),
        }
    }

    /// Sets the field `name` of a class instance, where `class` is its class.
    pub fn set_field(&mut self, class: &LoadedClass, name: &str, value: Value) -> (res: Result<(), JVMError>)
        ensures
            res is Err ==> *final(self) == *old(self),
            final(self).class == old(self).class,
            final(self).header == old(self).header,
            match old(self).kind {
                ObjectKind::ClassInstance { fields } => match spec_last_named(class.instance_fields@, name@) {
                    Some(i) => if i < fields@.len() {
                        res is Ok && is_instance_with(*final(self), fields@.update(i, value))
                    } else {
                        res matches Err(JVMError::Other(m)) && m@ == "Instance field "@ + name@ + " not found"@
                            && is_instance_with(*final(self), fields@)
                    },
                    None => res matches Err(JVMError::Other(m)) && m@ == "Instance field "@ + name@ + " not found"@
                        && is_instance_with(*final(self), fields@),
                },
                ObjectKind::ArrayInstance { .. } => res matches Err(JVMError::Other(m))
                    && m@ == "Field access on array object"@ && final(self).kind == old(self).kind,
            },
    {
        match &mut self.kind {
            ObjectKind::ClassInstance { fields } => {
                let found = crate::loaded_class::last_named(&class.instance_fields, name);
                if let Some(i) = found {
                    if i < fields.len() {
                        fields.set(i, value);
                        return Ok(());
                    }
                }
                let e = field_not_found(name);
                Err(e)
            },
            ObjectKind::ArrayInstance { .. } => Err(JVMError::Other("Field access on array object".to_string())),
        }
    }

    /// Element `index` of an array.
    pub fn get_element(&self, index: usize) -> (res: Result<Value, JVMError>)
        ensures
            match self.kind {
                ObjectKind::ArrayInstance { length, elements, .. } => if index < length && index < elements@.len() {
                    res == Ok::<Value, JVMError>(elements@[index as int])
                } else if index >= length {
                    res == Err::<Value, JVMError>(JVMError::IndexOutOfBounds { index, max: length })
                } else {
                    res is Err
                },
                ObjectKind::ClassInstance { .. } => res matches Err(JVMError::Other(m))
                    && m@ == "Element access on class instance"@,
            },
    {
        match &self.kind {
            ObjectKind::ArrayInstance { elements, length, .. } => {
                if index < *length {
                    if index < elements.len() {
                        Ok(elements[index])
                    } else {
                        Err(JVMError::IndexOutOfBounds { index, max: *length })
                    }
                } else {
                    Err(JVMError::IndexOutOfBounds { index, max: *length })
                }
            },
            ObjectKind::ClassInstance { .. } => Err(JVMError::Other("Element access on class instance".to_string())),
        }
    }

    /// Sets element `index` of an array.
    pub fn set_element(&mut self, index: usize, value: Value) -> (res: Result<(), JVMError>)
        ensures
            res is Err ==> *final(self) == *old(self),
            final(self).class == old(self).class,
            final(self).header == old(self).header,
            match old(self).kind {
                ObjectKind::ArrayInstance { length, elements, element_type } => if index < length && index
                    < elements@.len() {
                    &&& res is Ok
                    &&& final(self).kind matches ObjectKind::ArrayInstance { length: n, elements: e, element_type: t }
                    &&& n == length && e@ == elements@.update(index as int, value) && t == element_type
                } else {
                    &&& index >= length ==> res == Err::<(), JVMError>(JVMError::IndexOutOfBounds { index, max: length })
                    &&& res is Err
                    &&& final(self).kind == old(self).kind
                },
                ObjectKind::ClassInstance { .. } => res matches Err(JVMError::Other(m))
                    && m@ == "Element access on class instance"@ && final(self).kind == old(self).kind,
            },
    {
        match &mut self.kind {
            ObjectKind::ArrayInstance { elements, length, .. } => {
                if index < *length && index < elements.len() {
                    elements.set(index, value);
                    Ok(())
                } else {
                    Err(JVMError::IndexOutOfBounds { index, max: *length })
                }
            },
            ObjectKind::ClassInstance { .. } => Err(JVMError::Other("Element access on class instance".to_string())),
        }
    }
}

} // verus!
